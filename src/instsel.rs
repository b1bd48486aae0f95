//! Instruction selection: lowers SSA instructions and terminators into
//! target machine instructions.
use vstd::prelude::*;
use std::collections::HashMap;
use crate::machine::{Displacement, Immediate, Indirect, Instruction, Label, MachineRegister, Mnemonic, Operand, Register};
use crate::ssa::{BinaryOperator, ComparisonOperator, Constant, FunctionId, InstructionId, InstructionKind, Module, Value};

verus! {

broadcast use vstd::std_specs::hash::group_hash_axioms;

/// What an unsupported construct was.
#[derive(Clone, Copy, Debug, PartialEq, Eq, Structural)]
pub enum Construct {
    /// An instruction kind that the lowering at hand does not take.
    Kind,
    /// A value kind that cannot be used where it stands.
    Value,
    /// An argument position past the register-passed arguments.
    ArgumentIndex,
    /// A function id that the module does not hold.
    Function,
    /// A global id that the module does not hold.
    Global,
}

/// Why an instruction could not be lowered.
#[derive(Clone, Copy, Debug, PartialEq, Eq, Structural)]
pub enum LowerError {
    Unsupported { inst: InstructionId, construct: Construct },
    /// `slot` has no stack slot in the frame table.
    MissingFrameSlot { inst: InstructionId, slot: InstructionId },
}

/// The register that carries argument `i` under the calling convention.
pub open spec fn arg_register(i: int) -> Option<MachineRegister> {
    if i == 0 {
        Some(MachineRegister::Rdi)
    } else if i == 1 {
        Some(MachineRegister::Rsi)
    } else if i == 2 {
        Some(MachineRegister::Rdx)
    } else if i == 3 {
        Some(MachineRegister::Rcx)
    } else if i == 4 {
        Some(MachineRegister::R8)
    } else if i == 5 {
        Some(MachineRegister::R9)
    } else {
        None
    }
}

/// The virtual register that holds the result of `id`.
pub open spec fn vreg(id: InstructionId) -> Operand {
    Operand::Register(Register::Virtual(id.index))
}

pub open spec fn preg(m: MachineRegister) -> Operand {
    Operand::Register(Register::Physical(m))
}

pub open spec fn immediate_of(c: Constant) -> Immediate {
    match c {
        Constant::I1(b) => Immediate::I8(if b { 1 } else { 0 }),
        Constant::I32(v) => Immediate::I32(v),
        Constant::I64(v) => Immediate::I64(v),
    }
}

pub open spec fn unsupported(id: InstructionId, construct: Construct) -> LowerError {
    LowerError::Unsupported { inst: id, construct }
}

/// The operand that reads `val` inside instruction `id`. A parameter is read
/// from its entry register at every use, even after a call in between may
/// have overwritten that register.
pub open spec fn value_result(id: InstructionId, val: Value) -> Result<Operand, LowerError> {
    match val {
        Value::Constant(c) => Ok(Operand::Immediate(immediate_of(c))),
        Value::Instruction(i) => Ok(vreg(i)),
        Value::Parameter(k) => match arg_register(k as int) {
            Some(m) => Ok(preg(m)),
            None => Err(unsupported(id, Construct::ArgumentIndex)),
        },
        Value::Global(_) => Err(unsupported(id, Construct::Value)),
    }
}

/// The condition-set mnemonic of each comparison.
pub open spec fn set_mnemonic(op: ComparisonOperator) -> Mnemonic {
    match op {
        ComparisonOperator::Eq => Mnemonic::Sete,
        ComparisonOperator::Neq => Mnemonic::Setne,
        ComparisonOperator::Gt => Mnemonic::Setg,
        ComparisonOperator::Gte => Mnemonic::Setge,
        ComparisonOperator::Lt => Mnemonic::Setl,
        ComparisonOperator::Lte => Mnemonic::Setle,
    }
}

/// An expected instruction: mnemonic and operands.
pub type Shape = (Mnemonic, Seq<Operand>);

/// `r` holds exactly the instructions `e`, in order.
pub open spec fn lowers_to(r: Seq<Instruction>, e: Seq<Shape>) -> bool {
    &&& r.len() == e.len()
    &&& forall|k: int| 0 <= k < r.len() ==> (#[trigger] r[k]).mnemonic == e[k].0 && r[k].operands@ == e[k].1
}

/// `r` is what `e` describes: the same instructions, or the same error.
pub open spec fn emits(r: Result<Vec<Instruction>, LowerError>, e: Result<Seq<Shape>, LowerError>) -> bool {
    match e {
        Ok(s) => r is Ok && lowers_to(r->Ok_0@, s),
        Err(err) => r == Err::<Vec<Instruction>, LowerError>(err),
    }
}

/// The two-operand form `mov reg, a; op reg, b`.
pub open spec fn two_operand(id: InstructionId, m: Mnemonic, a: Operand, b: Operand) -> Seq<Shape> {
    seq![(Mnemonic::Mov, seq![vreg(id), a]), (m, seq![vreg(id), b])]
}

/// Division staging: the dividend in rax, sign-extended into rdx, the
/// divisor in the result register; the result is read from `out`.
pub open spec fn div_staging(id: InstructionId, a: Operand, b: Operand, out: MachineRegister) -> Seq<Shape> {
    seq![
        (Mnemonic::Mov, seq![preg(MachineRegister::Rax), a]),
        (Mnemonic::Cqo, Seq::empty()),
        (Mnemonic::Mov, seq![vreg(id), b]),
        (Mnemonic::Idiv, seq![vreg(id)]),
        (Mnemonic::Mov, seq![vreg(id), preg(out)]),
    ]
}

pub open spec fn binop_lowering(id: InstructionId, op: BinaryOperator, a: Operand, b: Operand) -> Seq<Shape> {
    match op {
        BinaryOperator::Add => two_operand(id, Mnemonic::Add, a, b),
        BinaryOperator::Sub => two_operand(id, Mnemonic::Sub, a, b),
        BinaryOperator::Mul => two_operand(id, Mnemonic::Imul, a, b),
        BinaryOperator::And => two_operand(id, Mnemonic::And, a, b),
        BinaryOperator::Or => two_operand(id, Mnemonic::Or, a, b),
        BinaryOperator::Xor => two_operand(id, Mnemonic::Xor, a, b),
        BinaryOperator::Div => div_staging(id, a, b, MachineRegister::Rax),
        BinaryOperator::Rem => div_staging(id, a, b, MachineRegister::Rdx),
        BinaryOperator::Shl => seq![
            (Mnemonic::Mov, seq![vreg(id), a]),
            (Mnemonic::Mov, seq![preg(MachineRegister::Rcx), b]),
            (Mnemonic::Shl, seq![vreg(id), preg(MachineRegister::Cl)]),
        ],
        BinaryOperator::Shr => seq![
            (Mnemonic::Mov, seq![vreg(id), a]),
            (Mnemonic::Mov, seq![preg(MachineRegister::Cl), b]),
            (Mnemonic::Shr, seq![vreg(id), preg(MachineRegister::Cl)]),
        ],
    }
}

pub open spec fn cmp_lowering(id: InstructionId, op: ComparisonOperator, a: Operand, b: Operand) -> Seq<Shape> {
    seq![
        (Mnemonic::Mov, seq![vreg(id), a]),
        (Mnemonic::Cmp, seq![vreg(id), b]),
        (set_mnemonic(op), seq![preg(MachineRegister::Cl)]),
        (Mnemonic::Movzx, seq![vreg(id), preg(MachineRegister::Cl)]),
    ]
}

/// Lowering of an operation on two values, once both resolve.
pub open spec fn with_operands(
    id: InstructionId,
    lhs: Value,
    rhs: Value,
    lower: spec_fn(Operand, Operand) -> Seq<Shape>,
) -> Result<Seq<Shape>, LowerError> {
    match value_result(id, lhs) {
        Err(e) => Err(e),
        Ok(a) => match value_result(id, rhs) {
            Err(e) => Err(e),
            Ok(b) => Ok(lower(a, b)),
        },
    }
}

pub open spec fn binop_spec(id: InstructionId, op: BinaryOperator, lhs: Value, rhs: Value) -> Result<Seq<Shape>, LowerError> {
    with_operands(id, lhs, rhs, |a: Operand, b: Operand| binop_lowering(id, op, a, b))
}

pub open spec fn cmp_spec(id: InstructionId, op: ComparisonOperator, lhs: Value, rhs: Value) -> Result<Seq<Shape>, LowerError> {
    with_operands(id, lhs, rhs, |a: Operand, b: Operand| cmp_lowering(id, op, a, b))
}


fn vreg_op(id: InstructionId) -> (r: Operand)
    ensures
        r == vreg(id),
{
    Operand::Register(Register::Virtual(id.index))
}

fn preg_op(m: MachineRegister) -> (r: Operand)
    ensures
        r == preg(m),
{
    Operand::Register(Register::Physical(m))
}

fn two_operand_insts(id: InstructionId, m: Mnemonic, a: Operand, b: Operand) -> (r: Vec<Instruction>)
    ensures
        lowers_to(r@, two_operand(id, m, a, b)),
{
    let ghost (ga, gb) = (a, b);
    let r = vec![Instruction::new(Mnemonic::Mov, vec![vreg_op(id), a]), Instruction::new(m, vec![vreg_op(id), b])];
    assert(r@[0].operands@ =~= seq![vreg(id), ga]);
    r
}

fn div_insts(id: InstructionId, a: Operand, b: Operand, out: MachineRegister) -> (r: Vec<Instruction>)
    ensures
        lowers_to(r@, div_staging(id, a, b, out)),
{
    let ghost (ga, gb) = (a, b);
    let r = vec![
        Instruction::new(Mnemonic::Mov, vec![preg_op(MachineRegister::Rax), a]),
        Instruction::new(Mnemonic::Cqo, Vec::new()),
        Instruction::new(Mnemonic::Mov, vec![vreg_op(id), b]),
        Instruction::new(Mnemonic::Idiv, vec![vreg_op(id)]),
        Instruction::new(Mnemonic::Mov, vec![vreg_op(id), preg_op(out)]),
    ];
    assert forall|k: int| 0 <= k < 5 implies (#[trigger] r@[k]).operands@ =~= div_staging(id, ga, gb, out)[k].1 by {}
    r
}


/// The operands of the arguments `args`, or the error of the first that does
/// not resolve.
pub open spec fn args_result(id: InstructionId, args: Seq<Value>) -> Result<Seq<Operand>, LowerError>
    decreases args.len(),
{
    if args.len() == 0 {
        Ok(Seq::empty())
    } else {
        match args_result(id, args.drop_last()) {
            Err(e) => Err(e),
            Ok(ops) => match value_result(id, args.last()) {
                Err(e) => Err(e),
                Ok(o) => Ok(ops.push(o)),
            },
        }
    }
}

/// Arguments into their registers in order, the call, then the return
/// register into the result register.
pub open spec fn call_lowering(id: InstructionId, ops: Seq<Operand>, name: String) -> Seq<Shape> {
    Seq::new(ops.len(), |i: int| (Mnemonic::Mov, seq![preg(arg_register(i).unwrap()), ops[i]]))
        + seq![
        (Mnemonic::Call, seq![Operand::Label(Label::Symbol(name))]),
        (Mnemonic::Mov, seq![vreg(id), preg(MachineRegister::Rax)]),
    ]
}

/// The number of register-passed arguments.
pub const ARG_REGS: usize = 6;

pub open spec fn call_spec(module: &Module, id: InstructionId, f: FunctionId, args: Seq<Value>) -> Result<Seq<Shape>, LowerError> {
    if f.index >= module.functions.len() {
        Err(unsupported(id, Construct::Function))
    } else if args.len() > ARG_REGS {
        Err(unsupported(id, Construct::ArgumentIndex))
    } else {
        match args_result(id, args) {
            Err(e) => Err(e),
            Ok(ops) => Ok(call_lowering(id, ops, module.functions@[f.index as int].name)),
        }
    }
}

pub open spec fn term_spec(id: InstructionId, kind: InstructionKind) -> Result<Seq<Shape>, LowerError> {
    match kind {
        InstructionKind::Ret(None) => Ok(seq![(Mnemonic::Jmp, seq![Operand::Label(Label::Return)])]),
        InstructionKind::Ret(Some(v)) => match value_result(id, v) {
            Err(e) => Err(e),
            Ok(a) => Ok(
                seq![
                    (Mnemonic::Mov, seq![preg(MachineRegister::Rax), a]),
                    (Mnemonic::Jmp, seq![Operand::Label(Label::Return)]),
                ],
            ),
        },
        InstructionKind::Br(dst) => Ok(seq![(Mnemonic::Jmp, seq![Operand::Label(Label::Block(dst.index))])]),
        InstructionKind::CondBr(c, con, alt) => match value_result(id, c) {
            Err(e) => Err(e),
            Ok(a) => Ok(
                seq![
                    (Mnemonic::Mov, seq![vreg(id), a]),
                    (Mnemonic::Cmp, seq![vreg(id), Operand::Immediate(Immediate::I8(0))]),
                    (Mnemonic::Je, seq![Operand::Label(Label::Block(alt.index))]),
                    (Mnemonic::Jmp, seq![Operand::Label(Label::Block(con.index))]),
                ],
            ),
        },
        _ => Err(unsupported(id, Construct::Kind)),
    }
}

proof fn lemma_args_prefix_err(id: InstructionId, args: Seq<Value>, j: int)
    requires
        0 <= j <= args.len(),
        args_result(id, args.take(j)) is Err,
    ensures
        args_result(id, args) == args_result(id, args.take(j)),
    decreases args.len() - j,
{
    if j < args.len() {
        assert(args.take(j + 1).drop_last() =~= args.take(j));
        lemma_args_prefix_err(id, args, j + 1);
    } else {
        assert(args.take(j) =~= args);
    }
}

/// Lowers one SSA function at a time; holds the stack slot of every
/// `Alloc` result, keyed by instruction index.
pub struct InstructionSelector {
    pub stack_offsets: HashMap<usize, Operand>,
}

impl InstructionSelector {
    pub fn new(stack_offsets: HashMap<usize, Operand>) -> (r: Self)
        ensures
            r.stack_offsets@ == stack_offsets@,
    {
        InstructionSelector { stack_offsets }
    }

    /// The register of argument `index`; none past the sixth.
    pub fn arg_reg(&self, index: usize) -> (r: Option<Register>)
        ensures
            r == match arg_register(index as int) {
                Some(m) => Some(Register::Physical(m)),
                None => None::<Register>,
            },
    {
        let m = if index == 0 {
            MachineRegister::Rdi
        } else if index == 1 {
            MachineRegister::Rsi
        } else if index == 2 {
            MachineRegister::Rdx
        } else if index == 3 {
            MachineRegister::Rcx
        } else if index == 4 {
            MachineRegister::R8
        } else if index == 5 {
            MachineRegister::R9
        } else {
            return None;
        };
        Some(Register::Physical(m))
    }

    /// The operand that reads `val` inside instruction `inst_id`.
    pub fn trans_value(&self, inst_id: InstructionId, val: &Value) -> (r: Result<Operand, LowerError>)
        ensures
            r == value_result(inst_id, *val),
    {
        match val {
            Value::Constant(c) => {
                let imm = match c {
                    Constant::I1(b) => Immediate::I8(if *b { 1 } else { 0 }),
                    Constant::I32(v) => Immediate::I32(*v),
                    Constant::I64(v) => Immediate::I64(*v),
                };
                Ok(Operand::Immediate(imm))
            },
            Value::Instruction(i) => Ok(Operand::Register(Register::Virtual(i.index))),
            Value::Parameter(k) => match self.arg_reg(*k) {
                Some(reg) => Ok(Operand::Register(reg)),
                None => Err(LowerError::Unsupported { inst: inst_id, construct: Construct::ArgumentIndex }),
            },
            Value::Global(_) => Err(LowerError::Unsupported { inst: inst_id, construct: Construct::Value }),
        }
    }

    /// The lowering of `BinOp(op, lhs, rhs)` as instruction `inst_id`.
    pub fn trans_binop(
        &self,
        inst_id: InstructionId,
        op: BinaryOperator,
        lhs: &Value,
        rhs: &Value,
    ) -> (r: Result<Vec<Instruction>, LowerError>)
        ensures
            emits(r, binop_spec(inst_id, op, *lhs, *rhs)),
    {
        let a = match self.trans_value(inst_id, lhs) {
            Ok(a) => a,
            Err(e) => return Err(e),
        };
        let b = match self.trans_value(inst_id, rhs) {
            Ok(b) => b,
            Err(e) => return Err(e),
        };
        let ghost (ga, gb) = (a, b);
        let out = match op {
            BinaryOperator::Add => two_operand_insts(inst_id, Mnemonic::Add, a, b),
            BinaryOperator::Sub => two_operand_insts(inst_id, Mnemonic::Sub, a, b),
            BinaryOperator::Mul => two_operand_insts(inst_id, Mnemonic::Imul, a, b),
            BinaryOperator::And => two_operand_insts(inst_id, Mnemonic::And, a, b),
            BinaryOperator::Or => two_operand_insts(inst_id, Mnemonic::Or, a, b),
            BinaryOperator::Xor => two_operand_insts(inst_id, Mnemonic::Xor, a, b),
            BinaryOperator::Div => div_insts(inst_id, a, b, MachineRegister::Rax),
            BinaryOperator::Rem => div_insts(inst_id, a, b, MachineRegister::Rdx),
            BinaryOperator::Shl => vec![
                Instruction::new(Mnemonic::Mov, vec![vreg_op(inst_id), a]),
                Instruction::new(Mnemonic::Mov, vec![preg_op(MachineRegister::Rcx), b]),
                Instruction::new(Mnemonic::Shl, vec![vreg_op(inst_id), preg_op(MachineRegister::Cl)]),
            ],
            BinaryOperator::Shr => vec![
                Instruction::new(Mnemonic::Mov, vec![vreg_op(inst_id), a]),
                Instruction::new(Mnemonic::Mov, vec![preg_op(MachineRegister::Cl), b]),
                Instruction::new(Mnemonic::Shr, vec![vreg_op(inst_id), preg_op(MachineRegister::Cl)]),
            ],
        };
        assert forall|k: int| 0 <= k < out.len() implies (#[trigger] out@[k]).operands@ =~= binop_lowering(inst_id, op, ga, gb)[k].1 by {}
        assert(lowers_to(out@, binop_lowering(inst_id, op, ga, gb)));
        Ok(out)
    }

    /// The lowering of `Cmp(op, lhs, rhs)` as instruction `inst_id`.
    pub fn trans_cmp(
        &self,
        inst_id: InstructionId,
        op: ComparisonOperator,
        lhs: &Value,
        rhs: &Value,
    ) -> (r: Result<Vec<Instruction>, LowerError>)
        ensures
            emits(r, cmp_spec(inst_id, op, *lhs, *rhs)),
    {
        let a = match self.trans_value(inst_id, lhs) {
            Ok(a) => a,
            Err(e) => return Err(e),
        };
        let b = match self.trans_value(inst_id, rhs) {
            Ok(b) => b,
            Err(e) => return Err(e),
        };
        let ghost (ga, gb) = (a, b);
        let set = match op {
            ComparisonOperator::Eq => Mnemonic::Sete,
            ComparisonOperator::Neq => Mnemonic::Setne,
            ComparisonOperator::Gt => Mnemonic::Setg,
            ComparisonOperator::Gte => Mnemonic::Setge,
            ComparisonOperator::Lt => Mnemonic::Setl,
            ComparisonOperator::Lte => Mnemonic::Setle,
        };
        let out = vec![
            Instruction::new(Mnemonic::Mov, vec![vreg_op(inst_id), a]),
            Instruction::new(Mnemonic::Cmp, vec![vreg_op(inst_id), b]),
            Instruction::new(set, vec![preg_op(MachineRegister::Cl)]),
            Instruction::new(Mnemonic::Movzx, vec![vreg_op(inst_id), preg_op(MachineRegister::Cl)]),
        ];
        assert forall|k: int| 0 <= k < 4 implies (#[trigger] out@[k]).operands@ =~= cmp_lowering(inst_id, op, ga, gb)[k].1 by {}
        assert(lowers_to(out@, cmp_lowering(inst_id, op, ga, gb)));
        Ok(out)
    }

    /// The memory operand that `val` designates inside instruction `id`.
    pub open spec fn lvalue_result(&self, module: &Module, id: InstructionId, val: Value) -> Result<Operand, LowerError> {
        match val {
            Value::Instruction(i) => if self.stack_offsets@.contains_key(i.index) {
                Ok(self.stack_offsets@[i.index])
            } else {
                Err(LowerError::MissingFrameSlot { inst: id, slot: i })
            },
            Value::Global(g) => if g.index < module.globals.len() {
                Ok(
                    Operand::Indirect(
                        Indirect {
                            base: Register::Physical(MachineRegister::Rip),
                            disp: Displacement::Label(module.globals@[g.index as int].name),
                        },
                    ),
                )
            } else {
                Err(unsupported(id, Construct::Global))
            },
            Value::Parameter(k) => match arg_register(k as int) {
                Some(m) => Ok(Operand::Indirect(Indirect { base: Register::Physical(m), disp: Displacement::Imm(0) })),
                None => Err(unsupported(id, Construct::ArgumentIndex)),
            },
            Value::Constant(_) => Err(unsupported(id, Construct::Value)),
        }
    }

    /// The lowering of a non-terminator instruction.
    pub open spec fn inst_spec(&self, module: &Module, id: InstructionId, kind: InstructionKind) -> Result<Seq<Shape>, LowerError> {
        match kind {
            InstructionKind::BinOp(op, l, r) => binop_spec(id, op, l, r),
            InstructionKind::Cmp(op, l, r) => cmp_spec(id, op, l, r),
            InstructionKind::Call(f, args) => call_spec(module, id, f, args@),
            InstructionKind::Param(_) => Ok(Seq::empty()),
            InstructionKind::Alloc(_) => Ok(Seq::empty()),
            InstructionKind::Load(src) => match self.lvalue_result(module, id, src) {
                Err(e) => Err(e),
                Ok(o) => Ok(seq![(Mnemonic::Mov, seq![vreg(id), o])]),
            },
            InstructionKind::Store(dst, src) => match self.lvalue_result(module, id, dst) {
                Err(e) => Err(e),
                Ok(o) => match value_result(id, src) {
                    Err(e) => Err(e),
                    Ok(a) => Ok(seq![(Mnemonic::Mov, seq![o, a])]),
                },
            },
            _ => Err(unsupported(id, Construct::Kind)),
        }
    }

    /// The memory operand that `val` designates inside instruction `inst_id`.
    pub fn trans_lvalue(&self, module: &Module, inst_id: InstructionId, val: &Value) -> (r: Result<Operand, LowerError>)
        ensures
            r == self.lvalue_result(module, inst_id, *val),
    {
        match val {
            Value::Instruction(i) => match self.stack_offsets.get(&i.index) {
                Some(slot) => Ok(slot.duplicate()),
                None => Err(LowerError::MissingFrameSlot { inst: inst_id, slot: *i }),
            },
            Value::Global(g) => {
                if g.index < module.globals.len() {
                    let name = module.globals[g.index].name.clone();
                    Ok(
                        Operand::Indirect(
                            Indirect { base: Register::Physical(MachineRegister::Rip), disp: Displacement::Label(name) },
                        ),
                    )
                } else {
                    Err(LowerError::Unsupported { inst: inst_id, construct: Construct::Global })
                }
            },
            Value::Parameter(k) => match self.arg_reg(*k) {
                Some(reg) => Ok(Operand::Indirect(Indirect { base: reg, disp: Displacement::Imm(0) })),
                None => Err(LowerError::Unsupported { inst: inst_id, construct: Construct::ArgumentIndex }),
            },
            Value::Constant(_) => Err(LowerError::Unsupported { inst: inst_id, construct: Construct::Value }),
        }
    }

    /// The lowering of `Call(func, args)` as instruction `inst_id`.
    fn trans_call(&self, module: &Module, inst_id: InstructionId, func: FunctionId, args: &Vec<Value>) -> (r: Result<Vec<Instruction>, LowerError>)
        ensures
            emits(r, call_spec(module, inst_id, func, args@)),
    {
        if func.index >= module.functions.len() {
            return Err(LowerError::Unsupported { inst: inst_id, construct: Construct::Function });
        }
        if args.len() > ARG_REGS {
            return Err(LowerError::Unsupported { inst: inst_id, construct: Construct::ArgumentIndex });
        }
        let mut out: Vec<Instruction> = Vec::new();
        let mut i: usize = 0;
        while i < args.len()
            invariant
                func.index < module.functions.len(),
                args.len() <= ARG_REGS,
                i <= args.len(),
                args_result(inst_id, args@.take(i as int)) is Ok,
                out.len() == i,
                forall|k: int|
                    0 <= k < i ==> (#[trigger] out@[k]).mnemonic == Mnemonic::Mov && out@[k].operands@ == seq![
                        preg(arg_register(k).unwrap()),
                        args_result(inst_id, args@.take(i as int))->Ok_0[k],
                    ],
                args_result(inst_id, args@.take(i as int))->Ok_0.len() == i,
            decreases args.len() - i,
        {
            let reg = self.arg_reg(i);
            assert(args@.take(i + 1).drop_last() =~= args@.take(i as int));
            assert(args@.take(i + 1).last() == args@[i as int]);
            let v = match self.trans_value(inst_id, &args[i]) {
                Ok(v) => v,
                Err(e) => {
                    assert(args_result(inst_id, args@.take(i + 1)) == Err::<Seq<Operand>, LowerError>(e));
                    proof {
                        lemma_args_prefix_err(inst_id, args@, i + 1);
                    }
                    return Err(e);
                },
            };
            let ghost gv = v;
            let inst = Instruction::new(Mnemonic::Mov, vec![Operand::Register(reg.unwrap()), v]);
            assert(inst.operands@ =~= seq![preg(arg_register(i as int).unwrap()), gv]);
            out.push(inst);
            i = i + 1;
        }
        assert(args@.take(i as int) =~= args@);
        let ghost ops = args_result(inst_id, args@)->Ok_0;
        let name = module.functions[func.index].name.clone();
        let ghost gname = name;
        let call = Instruction::new(Mnemonic::Call, vec![Operand::Label(Label::Symbol(name))]);
        let ret = Instruction::new(Mnemonic::Mov, vec![vreg_op(inst_id), preg_op(MachineRegister::Rax)]);
        assert(call.operands@ =~= seq![Operand::Label(Label::Symbol(gname))]);
        assert(ret.operands@ =~= seq![vreg(inst_id), preg(MachineRegister::Rax)]);
        out.push(call);
        out.push(ret);
        assert(lowers_to(out@, call_lowering(inst_id, ops, gname)));
        Ok(out)
    }

    /// The lowering of a non-terminator instruction `inst_id` of kind
    /// `inst_kind`; a terminator kind is refused.
    pub fn trans_inst(&self, module: &Module, inst_id: InstructionId, inst_kind: &InstructionKind) -> (r: Result<Vec<Instruction>, LowerError>)
        ensures
            emits(r, self.inst_spec(module, inst_id, *inst_kind)),
    {
        match inst_kind {
            InstructionKind::BinOp(op, lhs, rhs) => self.trans_binop(inst_id, *op, lhs, rhs),
            InstructionKind::Cmp(op, lhs, rhs) => self.trans_cmp(inst_id, *op, lhs, rhs),
            InstructionKind::Call(func, args) => self.trans_call(module, inst_id, *func, args),
            InstructionKind::Param(_) => Ok(Vec::new()),
            InstructionKind::Alloc(_) => Ok(Vec::new()),
            InstructionKind::Load(src) => {
                let o = match self.trans_lvalue(module, inst_id, src) {
                    Ok(o) => o,
                    Err(e) => return Err(e),
                };
                let ghost go = o;
                let out = vec![Instruction::new(Mnemonic::Mov, vec![vreg_op(inst_id), o])];
                assert(out@[0].operands@ =~= seq![vreg(inst_id), go]);
                Ok(out)
            },
            InstructionKind::Store(dst, src) => {
                let o = match self.trans_lvalue(module, inst_id, dst) {
                    Ok(o) => o,
                    Err(e) => return Err(e),
                };
                let a = match self.trans_value(inst_id, src) {
                    Ok(a) => a,
                    Err(e) => return Err(e),
                };
                let ghost (go, ga) = (o, a);
                let out = vec![Instruction::new(Mnemonic::Mov, vec![o, a])];
                assert(out@[0].operands@ =~= seq![go, ga]);
                Ok(out)
            },
            _ => Err(LowerError::Unsupported { inst: inst_id, construct: Construct::Kind }),
        }
    }

    /// The lowering of terminator `inst_id` of kind `inst_kind`; a
    /// non-terminator kind is refused.
    pub fn trans_term(&self, inst_id: InstructionId, inst_kind: &InstructionKind) -> (r: Result<Vec<Instruction>, LowerError>)
        ensures
            emits(r, term_spec(inst_id, *inst_kind)),
    {
        match inst_kind {
            InstructionKind::Ret(val) => {
                let mut out: Vec<Instruction> = Vec::new();
                match val {
                    None => {},
                    Some(v) => {
                        let a = match self.trans_value(inst_id, v) {
                            Ok(a) => a,
                            Err(e) => return Err(e),
                        };
                        let ghost ga = a;
                        let mov = Instruction::new(Mnemonic::Mov, vec![preg_op(MachineRegister::Rax), a]);
                        assert(mov.operands@ =~= seq![preg(MachineRegister::Rax), ga]);
                        out.push(mov);
                    },
                }
                let jmp = Instruction::new(Mnemonic::Jmp, vec![Operand::Label(Label::Return)]);
                assert(jmp.operands@ =~= seq![Operand::Label(Label::Return)]);
                out.push(jmp);
                Ok(out)
            },
            InstructionKind::Br(dst) => {
                let out = vec![Instruction::new(Mnemonic::Jmp, vec![Operand::Label(Label::Block(dst.index))])];
                assert(out@[0].operands@ =~= seq![Operand::Label(Label::Block(dst.index))]);
                Ok(out)
            },
            InstructionKind::CondBr(cond, con, alt) => {
                let a = match self.trans_value(inst_id, cond) {
                    Ok(a) => a,
                    Err(e) => return Err(e),
                };
                let ghost ga = a;
                let out = vec![
                    Instruction::new(Mnemonic::Mov, vec![vreg_op(inst_id), a]),
                    Instruction::new(Mnemonic::Cmp, vec![vreg_op(inst_id), Operand::Immediate(Immediate::I8(0))]),
                    Instruction::new(Mnemonic::Je, vec![Operand::Label(Label::Block(alt.index))]),
                    Instruction::new(Mnemonic::Jmp, vec![Operand::Label(Label::Block(con.index))]),
                ];
                assert forall|k: int| 0 <= k < 4 implies (#[trigger] out@[k]).operands@ =~= term_spec(inst_id, *inst_kind)->Ok_0[k].1 by {}
                Ok(out)
            },
            _ => Err(LowerError::Unsupported { inst: inst_id, construct: Construct::Kind }),
        }
    }
}

proof fn lemma_args_ok(id: InstructionId, args: Seq<Value>)
    requires
        args_result(id, args) is Ok,
    ensures
        args_result(id, args)->Ok_0.len() == args.len(),
        forall|i: int|
            0 <= i < args.len() ==> value_result(id, #[trigger] args[i]) is Ok
                && args_result(id, args)->Ok_0[i] == value_result(id, args[i])->Ok_0,
    decreases args.len(),
{
    if args.len() > 0 {
        lemma_args_ok(id, args.drop_last());
        assert forall|i: int| 0 <= i < args.len() - 1 implies args.drop_last()[i] == args[i] by {}
    }
}

/// Calling convention: a call with at most six arguments places each argument
/// in its register, in order, then calls, then moves the return register into
/// the result register; with more it fails.
pub proof fn lemma_calling_convention(
    module: &Module,
    id: InstructionId,
    func: FunctionId,
    args: Seq<Value>,
    r: Result<Vec<Instruction>, LowerError>,
)
    requires
        emits(r, call_spec(module, id, func, args)),
        func.index < module.functions.len(),
    ensures
        args.len() > ARG_REGS ==> r == Err::<Vec<Instruction>, LowerError>(unsupported(id, Construct::ArgumentIndex)),
        args.len() <= ARG_REGS && (forall|i: int| 0 <= i < args.len() ==> value_result(id, #[trigger] args[i]) is Ok)
            ==> {
            &&& r is Ok
            &&& r->Ok_0@.len() == args.len() + 2
            &&& forall|i: int|
                0 <= i < args.len() ==> (#[trigger] r->Ok_0@[i]).mnemonic == Mnemonic::Mov && r->Ok_0@[i].operands@
                    == seq![preg(arg_register(i).unwrap()), value_result(id, args[i])->Ok_0]
            &&& r->Ok_0@[args.len() as int].mnemonic == Mnemonic::Call
            &&& r->Ok_0@[args.len() as int].operands@ == seq![
                Operand::Label(Label::Symbol(module.functions@[func.index as int].name)),
            ]
            &&& r->Ok_0@[args.len() as int + 1].mnemonic == Mnemonic::Mov
            &&& r->Ok_0@[args.len() as int + 1].operands@ == seq![vreg(id), preg(MachineRegister::Rax)]
        },
{
    if args.len() <= ARG_REGS && (forall|i: int| 0 <= i < args.len() ==> value_result(id, #[trigger] args[i]) is Ok) {
        lemma_args_all_ok(id, args);
        lemma_args_ok(id, args);
        let out = r->Ok_0@;
        let e = call_spec(module, id, func, args)->Ok_0;
        assert forall|i: int| 0 <= i < args.len() implies (#[trigger] out[i]).mnemonic == Mnemonic::Mov && out[i].operands@
            == seq![preg(arg_register(i).unwrap()), value_result(id, args[i])->Ok_0] by {
            assert(out[i].operands@ == e[i].1);
        }
        assert(out[args.len() as int].operands@ == e[args.len() as int].1);
        assert(out[args.len() as int + 1].operands@ == e[args.len() as int + 1].1);
    }
}

proof fn lemma_args_all_ok(id: InstructionId, args: Seq<Value>)
    requires
        forall|i: int| 0 <= i < args.len() ==> value_result(id, #[trigger] args[i]) is Ok,
    ensures
        args_result(id, args) is Ok,
    decreases args.len(),
{
    if args.len() > 0 {
        assert forall|i: int| 0 <= i < args.len() - 1 implies value_result(id, #[trigger] args.drop_last()[i]) is Ok by {
            assert(args.drop_last()[i] == args[i]);
        }
        lemma_args_all_ok(id, args.drop_last());
        assert(value_result(id, args[args.len() - 1]) is Ok);
    }
}

/// Comparisons: the condition-set instruction is the one of the operator,
/// writes the byte register, and that byte is zero-extended into the result
/// register; distinct operators use distinct condition-set instructions.
pub proof fn lemma_comparison(
    id: InstructionId,
    op: ComparisonOperator,
    lhs: Value,
    rhs: Value,
    r: Result<Vec<Instruction>, LowerError>,
)
    requires
        emits(r, cmp_spec(id, op, lhs, rhs)),
        value_result(id, lhs) is Ok,
        value_result(id, rhs) is Ok,
    ensures
        r is Ok,
        r->Ok_0@.len() == 4,
        r->Ok_0@[2int].mnemonic == set_mnemonic(op),
        r->Ok_0@[2int].operands@ == seq![preg(MachineRegister::Cl)],
        r->Ok_0@[3int].mnemonic == Mnemonic::Movzx,
        r->Ok_0@[3int].operands@ == seq![vreg(id), preg(MachineRegister::Cl)],
        forall|other: ComparisonOperator| set_mnemonic(other) == set_mnemonic(op) ==> other == op,
{
    let e = cmp_spec(id, op, lhs, rhs)->Ok_0;
    assert(r->Ok_0@[2int].operands@ == e[2int].1);
    assert(r->Ok_0@[3int].operands@ == e[3int].1);
}

/// Division staging: the dividend goes to rax and is sign-extended, the
/// divisor is the result register, and the result register finally takes
/// the quotient (rax) for `Div` or the remainder (rdx) for `Rem`.
pub proof fn lemma_division_staging(
    id: InstructionId,
    op: BinaryOperator,
    lhs: Value,
    rhs: Value,
    r: Result<Vec<Instruction>, LowerError>,
)
    requires
        op == BinaryOperator::Div || op == BinaryOperator::Rem,
        emits(r, binop_spec(id, op, lhs, rhs)),
        value_result(id, lhs) is Ok,
        value_result(id, rhs) is Ok,
    ensures
        r is Ok,
        r->Ok_0@.len() == 5,
        r->Ok_0@[0int].mnemonic == Mnemonic::Mov,
        r->Ok_0@[0int].operands@ == seq![preg(MachineRegister::Rax), value_result(id, lhs)->Ok_0],
        r->Ok_0@[1int].mnemonic == Mnemonic::Cqo,
        r->Ok_0@[3int].mnemonic == Mnemonic::Idiv,
        r->Ok_0@[3int].operands@ == seq![vreg(id)],
        r->Ok_0@[4int].mnemonic == Mnemonic::Mov,
        r->Ok_0@[4int].operands@ == seq![
            vreg(id),
            preg(if op == BinaryOperator::Div { MachineRegister::Rax } else { MachineRegister::Rdx }),
        ],
{
    let e = binop_spec(id, op, lhs, rhs)->Ok_0;
    assert(r->Ok_0@[0int].operands@ == e[0int].1);
    assert(r->Ok_0@[3int].operands@ == e[3int].1);
    assert(r->Ok_0@[4int].operands@ == e[4int].1);
}

} // verus!
