use std::collections::HashMap;

use ssa_backend::instsel::{Construct, InstructionSelector, LowerError};
use ssa_backend::machine::{Displacement, Immediate, Indirect, Instruction, Label, MachineRegister, Mnemonic, Operand, Register};
use ssa_backend::ssa::{
    BinaryOperator, BlockId, ComparisonOperator, Constant, Function, FunctionId, Global, GlobalId, InstructionId,
    InstructionKind, Module, Type, Value,
};

fn module() -> Module {
    Module {
        functions: vec![Function::new("main", Type::I32, vec![]), Function::new("f", Type::I32, vec![Type::I32, Type::I32])],
        globals: vec![Global { name: "counter".to_string() }],
    }
}

fn selector() -> InstructionSelector {
    let mut slots = HashMap::new();
    slots.insert(
        3usize,
        Operand::Indirect(Indirect { base: Register::Physical(MachineRegister::Rax), disp: Displacement::Imm(-8) }),
    );
    InstructionSelector::new(slots)
}

fn id(i: usize) -> InstructionId {
    InstructionId { index: i }
}

fn inst_value(i: usize) -> Value {
    Value::Instruction(id(i))
}

fn vreg(i: usize) -> Operand {
    Operand::Register(Register::Virtual(i))
}

fn preg(m: MachineRegister) -> Operand {
    Operand::Register(Register::Physical(m))
}

fn mi(mnemonic: Mnemonic, operands: Vec<Operand>) -> Instruction {
    Instruction { mnemonic, operands }
}

#[test]
fn call_lowering_places_arguments_in_order() {
    let kind = InstructionKind::Call(FunctionId { index: 1 }, vec![Value::new_i32(5), inst_value(2)]);
    let out = selector().trans_inst(&module(), id(7), &kind).unwrap();
    assert_eq!(
        out,
        vec![
            mi(Mnemonic::Mov, vec![preg(MachineRegister::Rdi), Operand::Immediate(Immediate::I32(5))]),
            mi(Mnemonic::Mov, vec![preg(MachineRegister::Rsi), vreg(2)]),
            mi(Mnemonic::Call, vec![Operand::Label(Label::Symbol("f".to_string()))]),
            mi(Mnemonic::Mov, vec![vreg(7), preg(MachineRegister::Rax)]),
        ]
    );
}

#[test]
fn call_with_six_arguments_uses_all_registers() {
    let args: Vec<Value> = (0..6).map(|i| Value::new_i32(i)).collect();
    let kind = InstructionKind::Call(FunctionId { index: 0 }, args);
    let out = selector().trans_inst(&module(), id(9), &kind).unwrap();
    assert_eq!(out.len(), 8);
    let regs = [
        MachineRegister::Rdi,
        MachineRegister::Rsi,
        MachineRegister::Rdx,
        MachineRegister::Rcx,
        MachineRegister::R8,
        MachineRegister::R9,
    ];
    for (i, reg) in regs.iter().enumerate() {
        assert_eq!(out[i], mi(Mnemonic::Mov, vec![preg(*reg), Operand::Immediate(Immediate::I32(i as i32))]));
    }
    assert_eq!(out[6].mnemonic, Mnemonic::Call);
    assert_eq!(out[7], mi(Mnemonic::Mov, vec![vreg(9), preg(MachineRegister::Rax)]));
}

#[test]
fn call_with_seven_arguments_fails() {
    let args: Vec<Value> = (0..7).map(|i| Value::new_i32(i)).collect();
    let kind = InstructionKind::Call(FunctionId { index: 0 }, args);
    let err = selector().trans_inst(&module(), id(9), &kind).unwrap_err();
    assert_eq!(err, LowerError::Unsupported { inst: id(9), construct: Construct::ArgumentIndex });
}

#[test]
fn call_to_unknown_function_fails() {
    let kind = InstructionKind::Call(FunctionId { index: 5 }, vec![]);
    let err = selector().trans_inst(&module(), id(9), &kind).unwrap_err();
    assert_eq!(err, LowerError::Unsupported { inst: id(9), construct: Construct::Function });
}

#[test]
fn condbr_lowering() {
    let kind = InstructionKind::CondBr(inst_value(4), BlockId { index: 1 }, BlockId { index: 2 });
    let out = selector().trans_term(id(5), &kind).unwrap();
    assert_eq!(
        out,
        vec![
            mi(Mnemonic::Mov, vec![vreg(5), vreg(4)]),
            mi(Mnemonic::Cmp, vec![vreg(5), Operand::Immediate(Immediate::I8(0))]),
            mi(Mnemonic::Je, vec![Operand::Label(Label::Block(2))]),
            mi(Mnemonic::Jmp, vec![Operand::Label(Label::Block(1))]),
        ]
    );
}

#[test]
fn ret_with_value_moves_into_rax_then_jumps() {
    let kind = InstructionKind::Ret(Some(inst_value(1)));
    let out = selector().trans_term(id(2), &kind).unwrap();
    assert_eq!(
        out,
        vec![
            mi(Mnemonic::Mov, vec![preg(MachineRegister::Rax), vreg(1)]),
            mi(Mnemonic::Jmp, vec![Operand::Label(Label::Return)]),
        ]
    );
}

#[test]
fn ret_without_value_only_jumps() {
    let out = selector().trans_term(id(2), &InstructionKind::Ret(None)).unwrap();
    assert_eq!(out, vec![mi(Mnemonic::Jmp, vec![Operand::Label(Label::Return)])]);
}

#[test]
fn br_jumps_to_block_label() {
    let out = selector().trans_term(id(2), &InstructionKind::Br(BlockId { index: 3 })).unwrap();
    assert_eq!(out, vec![mi(Mnemonic::Jmp, vec![Operand::Label(Label::Block(3))])]);
}

#[test]
fn terminator_given_to_trans_inst_fails() {
    let err = selector().trans_inst(&module(), id(2), &InstructionKind::Ret(None)).unwrap_err();
    assert_eq!(err, LowerError::Unsupported { inst: id(2), construct: Construct::Kind });
}

#[test]
fn non_terminator_given_to_trans_term_fails() {
    let err = selector().trans_term(id(2), &InstructionKind::Param(0)).unwrap_err();
    assert_eq!(err, LowerError::Unsupported { inst: id(2), construct: Construct::Kind });
}

#[test]
fn add_is_mov_then_add() {
    let kind = InstructionKind::BinOp(BinaryOperator::Add, inst_value(0), Value::new_i32(3));
    let out = selector().trans_inst(&module(), id(1), &kind).unwrap();
    assert_eq!(
        out,
        vec![
            mi(Mnemonic::Mov, vec![vreg(1), vreg(0)]),
            mi(Mnemonic::Add, vec![vreg(1), Operand::Immediate(Immediate::I32(3))]),
        ]
    );
}

#[test]
fn two_operand_mnemonics() {
    let cases = [
        (BinaryOperator::Sub, Mnemonic::Sub),
        (BinaryOperator::Mul, Mnemonic::Imul),
        (BinaryOperator::And, Mnemonic::And),
        (BinaryOperator::Or, Mnemonic::Or),
        (BinaryOperator::Xor, Mnemonic::Xor),
    ];
    for (op, m) in cases {
        let kind = InstructionKind::BinOp(op, inst_value(0), inst_value(1));
        let out = selector().trans_inst(&module(), id(2), &kind).unwrap();
        assert_eq!(out, vec![mi(Mnemonic::Mov, vec![vreg(2), vreg(0)]), mi(m, vec![vreg(2), vreg(1)])]);
    }
}

#[test]
fn div_reads_quotient_from_rax() {
    let kind = InstructionKind::BinOp(BinaryOperator::Div, inst_value(0), inst_value(1));
    let out = selector().trans_binop(id(2), BinaryOperator::Div, &inst_value(0), &inst_value(1)).unwrap();
    assert_eq!(out, selector().trans_inst(&module(), id(2), &kind).unwrap());
    assert_eq!(
        out,
        vec![
            mi(Mnemonic::Mov, vec![preg(MachineRegister::Rax), vreg(0)]),
            mi(Mnemonic::Cqo, vec![]),
            mi(Mnemonic::Mov, vec![vreg(2), vreg(1)]),
            mi(Mnemonic::Idiv, vec![vreg(2)]),
            mi(Mnemonic::Mov, vec![vreg(2), preg(MachineRegister::Rax)]),
        ]
    );
}

#[test]
fn rem_reads_remainder_from_rdx() {
    let out = selector().trans_binop(id(2), BinaryOperator::Rem, &inst_value(0), &Value::new_i32(7)).unwrap();
    assert_eq!(
        out,
        vec![
            mi(Mnemonic::Mov, vec![preg(MachineRegister::Rax), vreg(0)]),
            mi(Mnemonic::Cqo, vec![]),
            mi(Mnemonic::Mov, vec![vreg(2), Operand::Immediate(Immediate::I32(7))]),
            mi(Mnemonic::Idiv, vec![vreg(2)]),
            mi(Mnemonic::Mov, vec![vreg(2), preg(MachineRegister::Rdx)]),
        ]
    );
}

#[test]
fn shifts_use_the_count_register() {
    let shl = selector().trans_binop(id(2), BinaryOperator::Shl, &inst_value(0), &inst_value(1)).unwrap();
    assert_eq!(
        shl,
        vec![
            mi(Mnemonic::Mov, vec![vreg(2), vreg(0)]),
            mi(Mnemonic::Mov, vec![preg(MachineRegister::Rcx), vreg(1)]),
            mi(Mnemonic::Shl, vec![vreg(2), preg(MachineRegister::Cl)]),
        ]
    );
    let shr = selector().trans_binop(id(2), BinaryOperator::Shr, &inst_value(0), &inst_value(1)).unwrap();
    assert_eq!(
        shr,
        vec![
            mi(Mnemonic::Mov, vec![vreg(2), vreg(0)]),
            mi(Mnemonic::Mov, vec![preg(MachineRegister::Cl), vreg(1)]),
            mi(Mnemonic::Shr, vec![vreg(2), preg(MachineRegister::Cl)]),
        ]
    );
}

#[test]
fn comparison_set_mnemonics() {
    let cases = [
        (ComparisonOperator::Eq, Mnemonic::Sete),
        (ComparisonOperator::Neq, Mnemonic::Setne),
        (ComparisonOperator::Gt, Mnemonic::Setg),
        (ComparisonOperator::Gte, Mnemonic::Setge),
        (ComparisonOperator::Lt, Mnemonic::Setl),
        (ComparisonOperator::Lte, Mnemonic::Setle),
    ];
    for (op, m) in cases {
        let out = selector().trans_cmp(id(3), op, &inst_value(0), &Value::new_i32(1)).unwrap();
        assert_eq!(
            out,
            vec![
                mi(Mnemonic::Mov, vec![vreg(3), vreg(0)]),
                mi(Mnemonic::Cmp, vec![vreg(3), Operand::Immediate(Immediate::I32(1))]),
                mi(m, vec![preg(MachineRegister::Cl)]),
                mi(Mnemonic::Movzx, vec![vreg(3), preg(MachineRegister::Cl)]),
            ]
        );
    }
}

#[test]
fn param_and_alloc_emit_nothing() {
    assert!(selector().trans_inst(&module(), id(0), &InstructionKind::Param(0)).unwrap().is_empty());
    assert!(selector().trans_inst(&module(), id(3), &InstructionKind::Alloc(Type::I32)).unwrap().is_empty());
}

#[test]
fn load_from_stack_slot() {
    let out = selector().trans_inst(&module(), id(4), &InstructionKind::Load(inst_value(3))).unwrap();
    assert_eq!(
        out,
        vec![mi(
            Mnemonic::Mov,
            vec![
                vreg(4),
                Operand::Indirect(Indirect { base: Register::Physical(MachineRegister::Rax), disp: Displacement::Imm(-8) }),
            ],
        )]
    );
}

#[test]
fn load_without_stack_slot_fails() {
    let err = selector().trans_inst(&module(), id(4), &InstructionKind::Load(inst_value(2))).unwrap_err();
    assert_eq!(err, LowerError::MissingFrameSlot { inst: id(4), slot: id(2) });
}

#[test]
fn store_to_global_is_rip_relative() {
    let kind = InstructionKind::Store(Value::Global(GlobalId { index: 0 }), Value::Parameter(1));
    let out = selector().trans_inst(&module(), id(4), &kind).unwrap();
    assert_eq!(
        out,
        vec![mi(
            Mnemonic::Mov,
            vec![
                Operand::Indirect(Indirect {
                    base: Register::Physical(MachineRegister::Rip),
                    disp: Displacement::Label("counter".to_string()),
                }),
                preg(MachineRegister::Rsi),
            ],
        )]
    );
}

#[test]
fn store_through_parameter_pointer() {
    let kind = InstructionKind::Store(Value::Parameter(0), Value::Constant(Constant::I1(true)));
    let out = selector().trans_inst(&module(), id(4), &kind).unwrap();
    assert_eq!(
        out,
        vec![mi(
            Mnemonic::Mov,
            vec![
                Operand::Indirect(Indirect { base: Register::Physical(MachineRegister::Rdi), disp: Displacement::Imm(0) }),
                Operand::Immediate(Immediate::I8(1)),
            ],
        )]
    );
}

#[test]
fn global_as_rvalue_fails() {
    let kind = InstructionKind::BinOp(BinaryOperator::Add, Value::Global(GlobalId { index: 0 }), Value::new_i32(1));
    let err = selector().trans_inst(&module(), id(4), &kind).unwrap_err();
    assert_eq!(err, LowerError::Unsupported { inst: id(4), construct: Construct::Value });
}

#[test]
fn constant_as_address_fails() {
    let err = selector().trans_inst(&module(), id(4), &InstructionKind::Load(Value::new_i32(0))).unwrap_err();
    assert_eq!(err, LowerError::Unsupported { inst: id(4), construct: Construct::Value });
}

#[test]
fn unknown_global_fails() {
    let kind = InstructionKind::Load(Value::Global(GlobalId { index: 9 }));
    let err = selector().trans_inst(&module(), id(4), &kind).unwrap_err();
    assert_eq!(err, LowerError::Unsupported { inst: id(4), construct: Construct::Global });
}

#[test]
fn parameter_past_sixth_fails() {
    let kind = InstructionKind::Ret(Some(Value::Parameter(6)));
    let err = selector().trans_term(id(4), &kind).unwrap_err();
    assert_eq!(err, LowerError::Unsupported { inst: id(4), construct: Construct::ArgumentIndex });
    let sel = selector();
    assert_eq!(sel.arg_reg(5), Some(Register::Physical(MachineRegister::R9)));
    assert_eq!(sel.arg_reg(6), None);
}

#[test]
fn i64_constants_stay_wide() {
    let v = Value::Constant(Constant::I64(1 << 40));
    let out = selector().trans_value(id(0), &v).unwrap();
    assert_eq!(out, Operand::Immediate(Immediate::I64(1 << 40)));
}
