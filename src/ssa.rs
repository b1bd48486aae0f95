//! The SSA intermediate representation: modules, functions, blocks and
//! instructions with their user sets.
use vstd::prelude::*;

verus! {

/// Index of an instruction in its function's instruction table; also the
/// name of the virtual register that holds its result.
#[derive(Clone, Copy, Debug, PartialEq, Eq, Structural)]
pub struct InstructionId {
    pub index: usize,
}

impl InstructionId {
    pub fn index(&self) -> (r: usize)
        ensures
            r == self.index,
    {
        self.index
    }
}

#[derive(Clone, Copy, Debug, PartialEq, Eq, Structural)]
pub struct BlockId {
    pub index: usize,
}

#[derive(Clone, Copy, Debug, PartialEq, Eq, Structural)]
pub struct FunctionId {
    pub index: usize,
}

#[derive(Clone, Copy, Debug, PartialEq, Eq, Structural)]
pub struct GlobalId {
    pub index: usize,
}

#[derive(Clone, Copy, Debug, PartialEq, Eq, Structural)]
pub enum Type {
    Void,
    I1,
    I32,
    I64,
    Pointer,
}

#[derive(Clone, Copy, Debug, PartialEq, Eq, Structural)]
pub enum Constant {
    I1(bool),
    I32(i32),
    I64(i64),
}

/// An operand of an instruction.
#[derive(Clone, Copy, Debug, PartialEq, Eq, Structural)]
pub enum Value {
    Constant(Constant),
    Instruction(InstructionId),
    /// A parameter of the enclosing function, by position.
    Parameter(usize),
    Global(GlobalId),
}

impl Value {
    pub fn new_i32(v: i32) -> (r: Value)
        ensures
            r == Value::Constant(Constant::I32(v)),
    {
        Value::Constant(Constant::I32(v))
    }
}

#[derive(Clone, Copy, Debug, PartialEq, Eq, Structural)]
pub enum BinaryOperator {
    Add,
    Sub,
    Mul,
    Div,
    Rem,
    Shl,
    Shr,
    And,
    Or,
    Xor,
}

#[derive(Clone, Copy, Debug, PartialEq, Eq, Structural)]
pub enum ComparisonOperator {
    Eq,
    Neq,
    Gt,
    Gte,
    Lt,
    Lte,
}

#[derive(Debug)]
pub enum InstructionKind {
    BinOp(BinaryOperator, Value, Value),
    Cmp(ComparisonOperator, Value, Value),
    Call(FunctionId, Vec<Value>),
    Param(usize),
    Alloc(Type),
    Load(Value),
    Store(Value, Value),
    Ret(Option<Value>),
    Br(BlockId),
    CondBr(Value, BlockId, BlockId),
}


impl InstructionKind {
    /// The values that an instruction of this kind reads, in order.
    pub open spec fn operands(&self) -> Seq<Value> {
        match *self {
            InstructionKind::BinOp(_, l, r) => seq![l, r],
            InstructionKind::Cmp(_, l, r) => seq![l, r],
            InstructionKind::Call(_, args) => args@,
            InstructionKind::Param(_) => Seq::empty(),
            InstructionKind::Alloc(_) => Seq::empty(),
            InstructionKind::Load(a) => seq![a],
            InstructionKind::Store(a, v) => seq![a, v],
            InstructionKind::Ret(Some(v)) => seq![v],
            InstructionKind::Ret(None) => Seq::empty(),
            InstructionKind::Br(_) => Seq::empty(),
            InstructionKind::CondBr(c, _, _) => seq![c],
        }
    }
}

#[derive(Debug)]
pub struct Instruction {
    pub kind: InstructionKind,
    /// The instructions that read this instruction's result.
    pub users: Vec<InstructionId>,
}

/// A block: its ordered non-terminator instructions, then its terminator.
#[derive(Debug)]
pub struct Block {
    pub instructions: Vec<InstructionId>,
    pub terminator: Option<InstructionId>,
}

#[derive(Debug)]
pub struct Function {
    pub name: String,
    pub ret_type: Type,
    pub params: Vec<Type>,
    pub blocks: Vec<Block>,
    pub insts: Vec<Instruction>,
}

#[derive(Debug)]
pub struct Global {
    pub name: String,
}

#[derive(Debug)]
pub struct Module {
    pub functions: Vec<Function>,
    pub globals: Vec<Global>,
}

/// The non-terminator instructions of `blocks`, block after block.
pub open spec fn flatten(blocks: Seq<Block>) -> Seq<InstructionId>
    decreases blocks.len(),
{
    if blocks.len() == 0 {
        Seq::empty()
    } else {
        flatten(blocks.drop_last()) + blocks.last().instructions@
    }
}


proof fn lemma_flatten_same(b1: Seq<Block>, b2: Seq<Block>)
    requires
        b1.len() == b2.len(),
        forall|i: int| 0 <= i < b1.len() ==> (#[trigger] b1[i]).instructions@ == b2[i].instructions@,
    ensures
        flatten(b1) == flatten(b2),
    decreases b1.len(),
{
    if b1.len() > 0 {
        lemma_flatten_same(b1.drop_last(), b2.drop_last());
        assert(b1.last() == b1[b1.len() - 1]);
    }
}

proof fn lemma_concat_no_duplicates(a: Seq<InstructionId>, c: Seq<InstructionId>)
    requires
        (a + c).no_duplicates(),
    ensures
        a.no_duplicates(),
        c.no_duplicates(),
        forall|y: InstructionId| a.contains(y) ==> !c.contains(y),
{
    assert forall|i: int, j: int| 0 <= i < j < a.len() implies a[i] != a[j] by {
        assert((a + c)[i] == a[i] && (a + c)[j] == a[j]);
    }
    assert forall|i: int, j: int| 0 <= i < j < c.len() implies c[i] != c[j] by {
        assert((a + c)[a.len() + i] == c[i] && (a + c)[a.len() + j] == c[j]);
    }
    assert forall|y: InstructionId| a.contains(y) implies !c.contains(y) by {
        let i = choose|i: int| 0 <= i < a.len() && a[i] == y;
        if c.contains(y) {
            let j = choose|j: int| 0 <= j < c.len() && c[j] == y;
            assert((a + c)[i] == y && (a + c)[a.len() + j] == y);
        }
    }
}

proof fn lemma_concat_contains(a: Seq<InstructionId>, c: Seq<InstructionId>, y: InstructionId)
    ensures
        (a + c).contains(y) <==> a.contains(y) || c.contains(y),
{
    if (a + c).contains(y) {
        let i = choose|i: int| 0 <= i < (a + c).len() && (a + c)[i] == y;
        if i >= a.len() {
            assert(c[i - a.len()] == y);
        }
    }
    if a.contains(y) {
        let i = choose|i: int| 0 <= i < a.len() && a[i] == y;
        assert((a + c)[i] == y);
    }
    if c.contains(y) {
        let i = choose|i: int| 0 <= i < c.len() && c[i] == y;
        assert((a + c)[a.len() + i] == y);
    }
}

/// Appending a fresh id to one block keeps the program order free of
/// duplicates and adds just that id.
proof fn lemma_flatten_push(blocks: Seq<Block>, nb: Seq<Block>, b: int, x: InstructionId)
    requires
        0 <= b < blocks.len(),
        nb.len() == blocks.len(),
        forall|c: int| 0 <= c < blocks.len() && c != b ==> (#[trigger] nb[c]).instructions@ == blocks[c].instructions@,
        nb[b].instructions@ == blocks[b].instructions@.push(x),
        flatten(blocks).no_duplicates(),
        !flatten(blocks).contains(x),
    ensures
        flatten(nb).no_duplicates(),
        forall|y: InstructionId| #[trigger] flatten(nb).contains(y) <==> flatten(blocks).contains(y) || y == x,
    decreases blocks.len(),
{
    let a = flatten(blocks.drop_last());
    let c = blocks.last().instructions@;
    lemma_concat_no_duplicates(a, c);
    assert forall|y: InstructionId| a.contains(y) || c.contains(y) implies flatten(blocks).contains(y) by {
        lemma_concat_contains(a, c, y);
    }
    if b == blocks.len() - 1 {
        lemma_flatten_same(nb.drop_last(), blocks.drop_last());
        assert(flatten(nb) =~= flatten(blocks).push(x));
        let s = flatten(blocks);
        assert forall|i: int, j: int| 0 <= i < j < s.push(x).len() implies s.push(x)[i] != s.push(x)[j] by {
            if j == s.len() {
                assert(s.contains(s[i]));
            }
        }
        assert forall|y: InstructionId| #[trigger] flatten(nb).contains(y) <==> flatten(blocks).contains(y) || y == x by {
            if s.push(x).contains(y) {
                let i = choose|i: int| 0 <= i < s.push(x).len() && s.push(x)[i] == y;
                if i < s.len() {
                    assert(s[i] == y);
                }
            }
            if s.contains(y) {
                let i = choose|i: int| 0 <= i < s.len() && s[i] == y;
                assert(s.push(x)[i] == y);
            }
            if y == x {
                assert(s.push(x)[s.len() as int] == y);
            }
        }
    } else {
        assert forall|cc: int| 0 <= cc < blocks.len() - 1 && cc != b implies (#[trigger] nb.drop_last()[cc]).instructions@
            == blocks.drop_last()[cc].instructions@ by {
            assert(nb[cc].instructions@ == blocks[cc].instructions@);
        }
        lemma_flatten_push(blocks.drop_last(), nb.drop_last(), b, x);
        let a2 = flatten(nb.drop_last());
        assert(nb.last().instructions@ == c);
        assert(flatten(nb) == a2 + c);
        assert forall|i: int, j: int| 0 <= i < j < (a2 + c).len() implies (a2 + c)[i] != (a2 + c)[j] by {
            if j < a2.len() {
                assert(a2[i] != a2[j]);
            } else if i >= a2.len() {
                assert(c[i - a2.len()] != c[j - a2.len()]);
            } else {
                assert(a2.contains(a2[i]));
                assert(c.contains(c[j - a2.len()]));
                if a2[i] == c[j - a2.len()] {
                    if a2[i] == x {
                        assert(flatten(blocks).contains(x));
                    } else {
                        assert(a.contains(a2[i]));
                    }
                }
            }
        }
        assert forall|y: InstructionId| #[trigger] flatten(nb).contains(y) <==> flatten(blocks).contains(y) || y == x by {
            lemma_concat_contains(a2, c, y);
            lemma_concat_contains(a, c, y);
        }
    }
}

impl Function {
    /// Every non-terminator instruction placed in a block, in program order.
    pub open spec fn order(&self) -> Seq<InstructionId> {
        flatten(self.blocks@)
    }

    pub open spec fn users_of(&self, id: InstructionId) -> Seq<InstructionId> {
        self.insts@[id.index as int].users@
    }

    pub open spec fn is_terminator(&self, id: InstructionId) -> bool {
        exists|b: int| 0 <= b < self.blocks.len() && self.blocks@[b].terminator == Some(id)
    }

    /// The instruction stands in some block, in its body or as its terminator.
    pub open spec fn is_placed(&self, id: InstructionId) -> bool {
        self.order().contains(id) || self.is_terminator(id)
    }

    /// Each placed instruction is placed once, refers to the instruction
    /// table, and every user recorded anywhere refers to the table too.
    pub open spec fn wf(&self) -> bool {
        &&& self.order().no_duplicates()
        &&& forall|k: int| 0 <= k < self.order().len() ==> (#[trigger] self.order()[k]).index < self.insts.len()
        &&& forall|k: int| 0 <= k < self.order().len() ==> !self.is_terminator(#[trigger] self.order()[k])
        &&& forall|b: int|
            0 <= b < self.blocks.len() && (#[trigger] self.blocks@[b]).terminator is Some
                ==> self.blocks@[b].terminator->Some_0.index < self.insts.len()
        &&& forall|i: int, j: int|
            0 <= i < self.insts.len() && 0 <= j < self.insts@[i].users.len()
                ==> (#[trigger] self.insts@[i].users@[j]).index < self.insts.len()
    }

    /// Every user of a placed instruction is itself placed.
    pub open spec fn users_placed(&self) -> bool {
        forall|k: int, u: InstructionId|
            0 <= k < self.order().len() && #[trigger] self.users_of(self.order()[k]).contains(u)
                ==> self.is_placed(u)
    }

    /// Instruction `u` reads the result of `x`.
    pub open spec fn reads(&self, u: InstructionId, x: InstructionId) -> bool {
        self.insts@[u.index as int].kind.operands().contains(Value::Instruction(x))
    }

    /// The users recorded for each placed body instruction are exactly the
    /// placed instructions that read it.
    pub open spec fn users_exact(&self) -> bool {
        forall|k: int, u: InstructionId|
            #![trigger self.users_of(self.order()[k]).contains(u)]
            #![trigger self.reads(u, self.order()[k])]
            0 <= k < self.order().len() ==> (self.users_of(self.order()[k]).contains(u) <==> self.is_placed(u)
                && self.reads(u, self.order()[k]))
    }

    /// `v` reads no instruction, or one in the table.
    pub open spec fn refers_within(&self, v: Value) -> bool {
        v is Instruction ==> v->Instruction_0.index < self.insts.len()
    }

    /// Every instruction reads only instructions of the table.
    pub open spec fn operands_valid(&self) -> bool {
        forall|i: int, k: int|
            0 <= i < self.insts.len() && 0 <= k < self.insts@[i].kind.operands().len() ==> self.refers_within(
                #[trigger] self.insts@[i].kind.operands()[k],
            )
    }

    /// A definition precedes each of its non-terminator users in program order.
    pub open spec fn defs_before_uses(&self) -> bool {
        forall|p: int, q: int|
            0 <= p < self.order().len() && 0 <= q < self.order().len()
                && #[trigger] self.users_of(self.order()[p]).contains(#[trigger] self.order()[q])
                ==> p < q
    }

    pub fn new(name: &str, ret_type: Type, params: Vec<Type>) -> (r: Function)
        ensures
            r.name@ == name@,
            r.ret_type == ret_type,
            r.params@ == params@,
            r.blocks@.len() == 0,
            r.insts@.len() == 0,
            r.wf(),
            r.users_exact(),
            r.operands_valid(),
    {
        Function { name: name.to_owned(), ret_type, params, blocks: Vec::new(), insts: Vec::new() }
    }

    pub fn block(&self, id: BlockId) -> (r: Option<&Block>)
        ensures
            id.index < self.blocks.len() ==> r == Some(&self.blocks@[id.index as int]),
            id.index >= self.blocks.len() ==> r.is_none(),
    {
        if id.index < self.blocks.len() {
            Some(&self.blocks[id.index])
        } else {
            None
        }
    }
}

/// `new` is `old` with instruction `id` of kind `kind` added to the table,
/// recorded as a user of each instruction among `operands`; the blocks are
/// left alone.
pub open spec fn appended(old: &Function, new: &Function, id: InstructionId, kind: InstructionKind, operands: Seq<Value>) -> bool {
    &&& id.index == old.insts.len()
    &&& new.insts.len() == old.insts.len() + 1
    &&& new.insts@[id.index as int].kind == kind
    &&& new.insts@[id.index as int].users@.len() == 0
    &&& forall|j: int|
        0 <= j < old.insts.len() ==> (#[trigger] new.insts@[j]).kind == old.insts@[j].kind && new.insts@[j].users@ == if operands.contains(
            Value::Instruction(InstructionId { index: j as usize }),
        ) && !old.insts@[j].users@.contains(id) {
            old.insts@[j].users@.push(id)
        } else {
            old.insts@[j].users@
        }
    &&& new.name == old.name
    &&& new.ret_type == old.ret_type
    &&& new.params@ == old.params@
}

/// `new` has the blocks of `old`, but for `id` appended to the body of block
/// `b`, or made its terminator.
pub open spec fn placed_into(old: &Function, new: &Function, b: int, id: InstructionId, as_terminator: bool) -> bool {
    &&& new.blocks.len() == old.blocks.len()
    &&& forall|c: int| 0 <= c < old.blocks.len() && c != b ==> #[trigger] new.blocks@[c] == old.blocks@[c]
    &&& if as_terminator {
        &&& new.blocks@[b].instructions@ == old.blocks@[b].instructions@
        &&& new.blocks@[b].terminator == Some(id)
    } else {
        &&& new.blocks@[b].instructions@ == old.blocks@[b].instructions@.push(id)
        &&& new.blocks@[b].terminator == old.blocks@[b].terminator
    }
}


/// Adding a placed instruction `id` that reads `kind.operands()`, recorded as
/// a user of each of them, keeps recorded users exact.
proof fn lemma_append_keeps_users_exact(f0: Function, f: Function, id: InstructionId, kind: InstructionKind)
    requires
        f0.wf(),
        f.wf(),
        f0.users_exact(),
        f0.operands_valid(),
        appended(&f0, &f, id, kind, kind.operands()),
        forall|k: int| 0 <= k < kind.operands().len() ==> f0.refers_within(#[trigger] kind.operands()[k]),
        forall|y: InstructionId| #[trigger] f.is_placed(y) <==> f0.is_placed(y) || y == id,
        forall|y: InstructionId| #[trigger] f.order().contains(y) ==> f0.order().contains(y) || y == id,
    ensures
        f.users_exact(),
        f.operands_valid(),
{
    let ops = kind.operands();
    assert forall|i: int, k: int|
        0 <= i < f.insts.len() && 0 <= k < f.insts@[i].kind.operands().len() implies f.refers_within(
            #[trigger] f.insts@[i].kind.operands()[k],
        ) by {
        if i < f0.insts.len() {
            assert(f0.refers_within(f0.insts@[i].kind.operands()[k]));
        } else {
            assert(f0.refers_within(ops[k]));
        }
    }
    assert forall|k: int, u: InstructionId|
        #![trigger f.users_of(f.order()[k]).contains(u)]
        #![trigger f.reads(u, f.order()[k])]
        0 <= k < f.order().len() implies (f.users_of(f.order()[k]).contains(u) <==> f.is_placed(u) && f.reads(
            u,
            f.order()[k],
        )) by {
        let x = f.order()[k];
        assert(f.order().contains(x));
        if x == id {
            assert(f.users_of(x).len() == 0);
            if f.is_placed(u) && f.reads(u, x) {
                let w = choose|w: int| 0 <= w < f.insts@[u.index as int].kind.operands().len()
                    && f.insts@[u.index as int].kind.operands()[w] == Value::Instruction(x);
                if u == id {
                    assert(f0.refers_within(ops[w]));
                } else {
                    lemma_placed_valid_in(&f0, u);
                    assert(f0.refers_within(f0.insts@[u.index as int].kind.operands()[w]));
                }
            }
        } else {
            let k0 = choose|k0: int| 0 <= k0 < f0.order().len() && f0.order()[k0] == x;
            assert(x.index < f0.insts.len());
            let old_users = f0.users_of(x);
            assert(!old_users.contains(id)) by {
                if old_users.contains(id) {
                    let j = choose|j: int| 0 <= j < old_users.len() && old_users[j] == id;
                    assert(f0.insts@[x.index as int].users@[j].index < f0.insts.len());
                }
            }
            assert(f.insts@[x.index as int].users@ == f.users_of(x));
            assert(f0.users_of(f0.order()[k0]).contains(u) <==> f0.is_placed(u) && f0.reads(u, f0.order()[k0]));
            if u == id {
                if ops.contains(Value::Instruction(x)) {
                    assert(old_users.push(id)[old_users.len() as int] == id);
                } else {
                    assert(!f.reads(u, x));
                }
            } else {
                if f0.is_placed(u) {
                    lemma_placed_valid_in(&f0, u);
                    assert(f.insts@[u.index as int].kind == f0.insts@[u.index as int].kind);
                }
                if f.users_of(x).contains(u) && ops.contains(Value::Instruction(x)) {
                    let j = choose|j: int| 0 <= j < f.users_of(x).len() && f.users_of(x)[j] == u;
                    assert(j < old_users.len());
                    assert(old_users[j] == u);
                }
                if old_users.contains(u) && ops.contains(Value::Instruction(x)) {
                    let j = choose|j: int| 0 <= j < old_users.len() && old_users[j] == u;
                    assert(old_users.push(id)[j] == u);
                }
            }
        }
    }
}

/// A placed instruction refers to the instruction table.
pub proof fn lemma_placed_valid_in(f: &Function, u: InstructionId)
    requires
        f.wf(),
        f.is_placed(u),
    ensures
        u.index < f.insts.len(),
{
    if f.order().contains(u) {
        let r = choose|r: int| 0 <= r < f.order().len() && f.order()[r] == u;
    } else {
        let b = choose|b: int| 0 <= b < f.blocks.len() && f.blocks@[b].terminator == Some(u);
        assert(f.blocks@[b].terminator is Some);
    }
}

/// Builds a function block by block; instructions go to the current block.
pub struct FunctionBuilder {
    pub func: Function,
    pub current: Option<BlockId>,
}

impl FunctionBuilder {
    /// The current block exists and has no terminator yet.
    pub open spec fn can_append(&self) -> bool {
        &&& self.current is Some
        &&& self.current->Some_0.index < self.func.blocks.len()
        &&& self.func.blocks@[self.current->Some_0.index as int].terminator is None
    }

    pub fn new(func: Function) -> (r: Self)
        ensures
            r.func == func,
            r.current is None,
    {
        FunctionBuilder { func, current: None }
    }

    /// The function built so far.
    pub fn finish(self) -> (r: Function)
        ensures
            r == self.func,
    {
        self.func
    }

    /// Adds an empty block at the end.
    pub fn add_block(&mut self) -> (r: BlockId)
        ensures
            r.index == old(self).func.blocks.len(),
            final(self).func.blocks.len() == old(self).func.blocks.len() + 1,
            forall|b: int| 0 <= b < old(self).func.blocks.len() ==> #[trigger] final(self).func.blocks@[b] == old(self).func.blocks@[b],
            final(self).func.blocks@[r.index as int].instructions@.len() == 0,
            final(self).func.blocks@[r.index as int].terminator is None,
            final(self).func.insts@ == old(self).func.insts@,
            final(self).current == old(self).current,
            final(self).func.name == old(self).func.name,
            final(self).func.ret_type == old(self).func.ret_type,
            final(self).func.params@ == old(self).func.params@,
            old(self).func.wf() ==> final(self).func.wf(),
            old(self).func.users_exact() ==> final(self).func.users_exact(),
            old(self).func.operands_valid() ==> final(self).func.operands_valid(),
    {
        let r = BlockId { index: self.func.blocks.len() };
        let ghost f0 = self.func;
        self.func.blocks.push(Block { instructions: Vec::new(), terminator: None });
        assert(self.func.blocks@[r.index as int].terminator is None);
        assert(self.func.blocks@.drop_last() =~= f0.blocks@);
        assert(self.func.order() =~= f0.order());
        assert forall|id: InstructionId| #[trigger] self.func.is_terminator(id) <==> f0.is_terminator(id) by {
            if self.func.is_terminator(id) {
                let b = choose|b: int| 0 <= b < self.func.blocks.len() && self.func.blocks@[b].terminator == Some(id);
                assert(b < f0.blocks.len());
            }
            if f0.is_terminator(id) {
                let b = choose|b: int| 0 <= b < f0.blocks.len() && f0.blocks@[b].terminator == Some(id);
                assert(self.func.blocks@[b] == f0.blocks@[b]);
            }
        }
        proof {
            if f0.users_exact() {
                let f = self.func;
                assert forall|k: int, u: InstructionId|
                    #![trigger f.users_of(f.order()[k]).contains(u)]
                    #![trigger f.reads(u, f.order()[k])]
                    0 <= k < f.order().len() implies (f.users_of(f.order()[k]).contains(u) <==> f.is_placed(u)
                        && f.reads(u, f.order()[k])) by {
                    assert(f0.users_of(f0.order()[k]).contains(u) <==> f0.is_placed(u) && f0.reads(u, f0.order()[k]));
                    assert(f.is_placed(u) == f0.is_placed(u));
                }
            }
            if f0.wf() {
                assert forall|b: int|
                    0 <= b < self.func.blocks.len() && (#[trigger] self.func.blocks@[b]).terminator is Some
                        implies self.func.blocks@[b].terminator->Some_0.index < self.func.insts.len() by {
                    if b < f0.blocks.len() {
                        assert(self.func.blocks@[b] == f0.blocks@[b]);
                    }
                }
            }
        }
        r
    }

    /// Makes `block` the block that receives new instructions.
    pub fn set_block(&mut self, block: BlockId)
        ensures
            final(self).func == old(self).func,
            final(self).current == Some(block),
    {
        self.current = Some(block);
    }

    /// Records `user` as a user of the instruction that `val` reads, if any.
    fn add_user(&mut self, val: Value, user: InstructionId)
        ensures
            final(self).func.insts.len() == old(self).func.insts.len(),
            forall|j: int|
                0 <= j < old(self).func.insts.len() ==> (#[trigger] final(self).func.insts@[j]).kind == old(self).func.insts@[j].kind
                    && final(self).func.insts@[j].users@ == if val == Value::Instruction(InstructionId { index: j as usize })
                    && !old(self).func.insts@[j].users@.contains(user) {
                    old(self).func.insts@[j].users@.push(user)
                } else {
                    old(self).func.insts@[j].users@
                },
            final(self).func.blocks@ == old(self).func.blocks@,
            final(self).func.name == old(self).func.name,
            final(self).func.ret_type == old(self).func.ret_type,
            final(self).func.params@ == old(self).func.params@,
            final(self).current == old(self).current,
    {
        if let Value::Instruction(i) = val {
            if i.index < self.func.insts.len() {
                let n = self.func.insts[i.index].users.len();
                let mut k: usize = 0;
                let mut found = false;
                while k < n
                    invariant
                        i.index < self.func.insts.len(),
                        n == self.func.insts@[i.index as int].users.len(),
                        k <= n,
                        found == exists|w: int| 0 <= w < k && self.func.insts@[i.index as int].users@[w] == user,
                    decreases n - k,
                {
                    if self.func.insts[i.index].users[k] == user {
                        found = true;
                    }
                    k = k + 1;
                }
                if !found {
                    self.func.insts[i.index].users.push(user);
                }
            }
        }
    }

    /// Adds instruction `kind` to the table, as a user of each instruction
    /// among `operands`.
    fn append_inst(&mut self, kind: InstructionKind, operands: &[Value]) -> (r: InstructionId)
        requires
            old(self).func.insts.len() < usize::MAX,
            old(self).func.wf(),
        ensures
            appended(&old(self).func, &final(self).func, r, kind, operands@),
            final(self).func.blocks@ == old(self).func.blocks@,
            final(self).func.wf(),
            final(self).current == old(self).current,
    {
        let id = InstructionId { index: self.func.insts.len() };
        let ghost f0 = self.func;
        let mut k: usize = 0;
        while k < operands.len()
            invariant
                id.index == f0.insts.len(),
                self.func.insts.len() == f0.insts.len(),
                self.func.blocks@ == f0.blocks@,
                self.func.name == f0.name,
                self.func.ret_type == f0.ret_type,
                self.func.params@ == f0.params@,
                self.current == old(self).current,
                k <= operands.len(),
                forall|j: int|
                    0 <= j < f0.insts.len() ==> (#[trigger] self.func.insts@[j]).kind == f0.insts@[j].kind
                        && self.func.insts@[j].users@ == if operands@.take(k as int).contains(
                        Value::Instruction(InstructionId { index: j as usize }),
                    ) && !f0.insts@[j].users@.contains(id) {
                        f0.insts@[j].users@.push(id)
                    } else {
                        f0.insts@[j].users@
                    },
            decreases operands.len() - k,
        {
            let ghost before = self.func;
            self.add_user(operands[k], id);
            assert(operands@.take(k + 1) =~= operands@.take(k as int).push(operands@[k as int]));
            assert forall|j: int| 0 <= j < f0.insts.len() implies (#[trigger] self.func.insts@[j]).users@ == if operands@.take(
                k + 1,
            ).contains(Value::Instruction(InstructionId { index: j as usize })) && !f0.insts@[j].users@.contains(id) {
                f0.insts@[j].users@.push(id)
            } else {
                f0.insts@[j].users@
            } by {
                let v = Value::Instruction(InstructionId { index: j as usize });
                let s0 = f0.insts@[j].users@;
                assert(s0.push(id).contains(id)) by {
                    assert(s0.push(id)[s0.len() as int] == id);
                }
                if operands@.take(k + 1).contains(v) {
                    let w = choose|w: int| 0 <= w < k + 1 && #[trigger] operands@.take(k + 1)[w] == v;
                    if w < k {
                        assert(operands@.take(k as int)[w] == v);
                    }
                }
                if operands@.take(k as int).contains(v) {
                    let w = choose|w: int| 0 <= w < k && #[trigger] operands@.take(k as int)[w] == v;
                    assert(operands@.take(k + 1)[w] == v);
                }
                if operands@[k as int] == v {
                    assert(operands@.take(k + 1)[k as int] == v);
                }
            }
            k = k + 1;
        }
        assert(operands@.take(operands.len() as int) =~= operands@);
        self.func.insts.push(Instruction { kind, users: Vec::new() });
        assert forall|i: int, j: int|
            0 <= i < self.func.insts.len() && 0 <= j < self.func.insts@[i].users.len()
                implies (#[trigger] self.func.insts@[i].users@[j]).index < self.func.insts.len() by {
            if i < f0.insts.len() && j < f0.insts@[i].users.len() {
                assert(self.func.insts@[i].users@[j] == f0.insts@[i].users@[j]);
            }
        }
        id
    }

    /// Appends `lhs + rhs` to the current block.
    pub fn add(&mut self, lhs: Value, rhs: Value) -> (r: Value)
        requires
            old(self).can_append(),
            old(self).func.insts.len() < usize::MAX,
            old(self).func.wf(),
            old(self).func.refers_within(lhs),
            old(self).func.refers_within(rhs),
        ensures
            final(self).func.wf(),
            old(self).func.users_exact() && old(self).func.operands_valid() ==> final(self).func.users_exact()
                && final(self).func.operands_valid(),
            r == Value::Instruction(InstructionId { index: old(self).func.insts.len() }),
            appended(
                &old(self).func,
                &final(self).func,
                InstructionId { index: old(self).func.insts.len() },
                InstructionKind::BinOp(BinaryOperator::Add, lhs, rhs),
                seq![lhs, rhs],
            ),
            placed_into(
                &old(self).func,
                &final(self).func,
                old(self).current->Some_0.index as int,
                InstructionId { index: old(self).func.insts.len() },
                false,
            ),
            final(self).current == old(self).current,
    {
        let ops = [lhs, rhs];
        assert(ops@ =~= seq![lhs, rhs]);
        let id = self.append_inst(InstructionKind::BinOp(BinaryOperator::Add, lhs, rhs), &ops);
        let b = self.current.unwrap().index;
        let ghost f1 = self.func;
        self.func.blocks[b].instructions.push(id);
        proof {
            self.lemma_placed_in_body(old(self).func, f1, b as int, id);
            let kind = InstructionKind::BinOp(BinaryOperator::Add, lhs, rhs);
            if old(self).func.users_exact() && old(self).func.operands_valid() {
                lemma_append_keeps_users_exact(old(self).func, self.func, id, kind);
            }
        }
        Value::Instruction(id)
    }

    /// Ends the current block with a jump to `dst`.
    pub fn br(&mut self, dst: BlockId)
        requires
            old(self).can_append(),
            old(self).func.insts.len() < usize::MAX,
            old(self).func.wf(),
        ensures
            final(self).func.wf(),
            old(self).func.users_exact() && old(self).func.operands_valid() ==> final(self).func.users_exact()
                && final(self).func.operands_valid(),
            appended(
                &old(self).func,
                &final(self).func,
                InstructionId { index: old(self).func.insts.len() },
                InstructionKind::Br(dst),
                Seq::empty(),
            ),
            placed_into(
                &old(self).func,
                &final(self).func,
                old(self).current->Some_0.index as int,
                InstructionId { index: old(self).func.insts.len() },
                true,
            ),
            final(self).current == old(self).current,
    {
        let ops: [Value; 0] = [];
        assert(ops@ =~= Seq::<Value>::empty());
        let id = self.append_inst(InstructionKind::Br(dst), &ops);
        let b = self.current.unwrap().index;
        let ghost f1 = self.func;
        self.func.blocks[b].terminator = Some(id);
        proof {
            self.lemma_placed_as_terminator(old(self).func, f1, b as int, id);
            if old(self).func.users_exact() && old(self).func.operands_valid() {
                lemma_append_keeps_users_exact(old(self).func, self.func, id, InstructionKind::Br(dst));
            }
        }
    }

    /// Ends the current block by returning `val`.
    pub fn ret(&mut self, val: Value)
        requires
            old(self).can_append(),
            old(self).func.insts.len() < usize::MAX,
            old(self).func.wf(),
            old(self).func.refers_within(val),
        ensures
            final(self).func.wf(),
            old(self).func.users_exact() && old(self).func.operands_valid() ==> final(self).func.users_exact()
                && final(self).func.operands_valid(),
            appended(
                &old(self).func,
                &final(self).func,
                InstructionId { index: old(self).func.insts.len() },
                InstructionKind::Ret(Some(val)),
                seq![val],
            ),
            placed_into(
                &old(self).func,
                &final(self).func,
                old(self).current->Some_0.index as int,
                InstructionId { index: old(self).func.insts.len() },
                true,
            ),
            final(self).current == old(self).current,
    {
        let ops = [val];
        assert(ops@ =~= seq![val]);
        let id = self.append_inst(InstructionKind::Ret(Some(val)), &ops);
        let b = self.current.unwrap().index;
        let ghost f1 = self.func;
        self.func.blocks[b].terminator = Some(id);
        proof {
            self.lemma_placed_as_terminator(old(self).func, f1, b as int, id);
            if old(self).func.users_exact() && old(self).func.operands_valid() {
                lemma_append_keeps_users_exact(old(self).func, self.func, id, InstructionKind::Ret(Some(val)));
            }
        }
    }

    proof fn lemma_placed_in_body(&self, f0: Function, f1: Function, b: int, id: InstructionId)
        requires
            f0.wf(),
            f1.wf(),
            id.index == f0.insts.len(),
            f1.insts.len() == f0.insts.len() + 1,
            f1.blocks@ == f0.blocks@,
            0 <= b < f0.blocks.len(),
            self.func.insts@ == f1.insts@,
            placed_into(&f1, &self.func, b, id, false),
        ensures
            self.func.wf(),
            forall|y: InstructionId| #[trigger] self.func.is_placed(y) <==> f0.is_placed(y) || y == id,
            forall|y: InstructionId| #[trigger] self.func.order().contains(y) ==> f0.order().contains(y) || y == id,
    {
        let f = self.func;
        assert forall|c: int| 0 <= c < f1.blocks.len() && c != b implies (#[trigger] f.blocks@[c]).instructions@
            == f1.blocks@[c].instructions@ by {}
        if f1.order().contains(id) {
            let k = choose|k: int| 0 <= k < f1.order().len() && f1.order()[k] == id;
            assert(f0.order()[k].index < f0.insts.len());
        }
        lemma_flatten_push(f1.blocks@, f.blocks@, b, id);
        assert forall|k: int| 0 <= k < f.order().len() implies (#[trigger] f.order()[k]).index < f.insts.len()
            && !f.is_terminator(f.order()[k]) by {
            let y = f.order()[k];
            assert(f.order().contains(y));
            if y != id {
                let m = choose|m: int| 0 <= m < f1.order().len() && f1.order()[m] == y;
                assert(f0.order()[m] == y);
                if f.is_terminator(y) {
                    let c = choose|c: int| 0 <= c < f.blocks.len() && f.blocks@[c].terminator == Some(y);
                    assert(f0.blocks@[c].terminator == Some(y));
                }
            } else if f.is_terminator(y) {
                let c = choose|c: int| 0 <= c < f.blocks.len() && f.blocks@[c].terminator == Some(y);
                assert(f0.blocks@[c].terminator == Some(y));
            }
        }
        assert forall|c: int|
            0 <= c < f.blocks.len() && (#[trigger] f.blocks@[c]).terminator is Some
                implies f.blocks@[c].terminator->Some_0.index < f.insts.len() by {
            assert(f.blocks@[c].terminator == f0.blocks@[c].terminator);
        }
        assert forall|i: int, j: int|
            0 <= i < f.insts.len() && 0 <= j < f.insts@[i].users.len()
                implies (#[trigger] f.insts@[i].users@[j]).index < f.insts.len() by {
            assert(f.insts@[i] == f1.insts@[i]);
        }
        assert forall|y: InstructionId| #[trigger] f.is_terminator(y) <==> f0.is_terminator(y) by {
            if f.is_terminator(y) {
                let c = choose|c: int| 0 <= c < f.blocks.len() && f.blocks@[c].terminator == Some(y);
                assert(f0.blocks@[c].terminator == Some(y));
            }
            if f0.is_terminator(y) {
                let c = choose|c: int| 0 <= c < f0.blocks.len() && f0.blocks@[c].terminator == Some(y);
                assert(f.blocks@[c].terminator == Some(y));
            }
        }
        assert forall|y: InstructionId| #[trigger] f.is_placed(y) <==> f0.is_placed(y) || y == id by {
            assert(f.order().contains(y) <==> f1.order().contains(y) || y == id);
        }
    }

    proof fn lemma_placed_as_terminator(&self, f0: Function, f1: Function, b: int, id: InstructionId)
        requires
            f0.wf(),
            f1.wf(),
            id.index == f0.insts.len(),
            f1.insts.len() == f0.insts.len() + 1,
            f1.blocks@ == f0.blocks@,
            0 <= b < f0.blocks.len(),
            self.func.insts@ == f1.insts@,
            placed_into(&f1, &self.func, b, id, true),
            f0.blocks@[b].terminator is None,
        ensures
            self.func.wf(),
            forall|y: InstructionId| #[trigger] self.func.is_placed(y) <==> f0.is_placed(y) || y == id,
            forall|y: InstructionId| #[trigger] self.func.order().contains(y) ==> f0.order().contains(y) || y == id,
    {
        let f = self.func;
        assert forall|c: int| 0 <= c < f1.blocks.len() implies (#[trigger] f.blocks@[c]).instructions@
            == f1.blocks@[c].instructions@ by {}
        lemma_flatten_same(f.blocks@, f1.blocks@);
        assert forall|k: int| 0 <= k < f.order().len() implies (#[trigger] f.order()[k]).index < f.insts.len()
            && !f.is_terminator(f.order()[k]) by {
            let y = f.order()[k];
            assert(f0.order()[k] == y);
            if f.is_terminator(y) {
                let c = choose|c: int| 0 <= c < f.blocks.len() && f.blocks@[c].terminator == Some(y);
                if c != b {
                    assert(f0.blocks@[c].terminator == Some(y));
                }
            }
        }
        assert forall|c: int|
            0 <= c < f.blocks.len() && (#[trigger] f.blocks@[c]).terminator is Some
                implies f.blocks@[c].terminator->Some_0.index < f.insts.len() by {
            if c != b {
                assert(f.blocks@[c].terminator == f0.blocks@[c].terminator);
            }
        }
        assert forall|i: int, j: int|
            0 <= i < f.insts.len() && 0 <= j < f.insts@[i].users.len()
                implies (#[trigger] f.insts@[i].users@[j]).index < f.insts.len() by {
            assert(f.insts@[i] == f1.insts@[i]);
        }
        assert forall|y: InstructionId| #[trigger] f.is_placed(y) <==> f0.is_placed(y) || y == id by {
            if f.is_terminator(y) && y != id {
                let c = choose|c: int| 0 <= c < f.blocks.len() && f.blocks@[c].terminator == Some(y);
                assert(c != b);
                assert(f0.blocks@[c].terminator == Some(y));
            }
            if f0.is_terminator(y) {
                let c = choose|c: int| 0 <= c < f0.blocks.len() && f0.blocks@[c].terminator == Some(y);
                assert(c != b);
                assert(f.blocks@[c].terminator == Some(y));
            }
            if y == id {
                assert(f.blocks@[b].terminator == Some(y));
            }
        }
    }
}

} // verus!
