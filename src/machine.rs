//! Target machine instructions and operands, as produced by the selector.
use vstd::prelude::*;

verus! {

/// Fixed physical registers of the target.
#[derive(Clone, Copy, Debug, PartialEq, Eq, Structural)]
pub enum MachineRegister {
    Rax,
    Rcx,
    Rdx,
    Rsi,
    Rdi,
    R8,
    R9,
    Cl,
    Rip,
}

/// A register operand: a physical register, or the virtual register named by
/// an SSA instruction id.
#[derive(Clone, Copy, Debug, PartialEq, Eq, Structural)]
pub enum Register {
    Physical(MachineRegister),
    Virtual(usize),
}

/// An immediate literal.
#[derive(Clone, Copy, Debug, PartialEq, Eq, Structural)]
pub enum Immediate {
    I8(i8),
    I32(i32),
    I64(i64),
}

/// A jump or call target.
#[derive(Debug, PartialEq, Eq)]
pub enum Label {
    /// The single shared epilogue label of the function being lowered.
    Return,
    /// The label of a block of the function being lowered, by block index.
    Block(usize),
    /// A module-level symbol.
    Symbol(String),
}

/// The displacement of a memory operand.
#[derive(Debug, PartialEq, Eq)]
pub enum Displacement {
    Imm(i32),
    Label(String),
}

/// A memory operand: base register plus displacement.
#[derive(Debug, PartialEq, Eq)]
pub struct Indirect {
    pub base: Register,
    pub disp: Displacement,
}

#[derive(Debug, PartialEq, Eq)]
pub enum Operand {
    Register(Register),
    Immediate(Immediate),
    Indirect(Indirect),
    Label(Label),
}

#[derive(Clone, Copy, Debug, PartialEq, Eq, Structural)]
pub enum Mnemonic {
    Mov,
    Movzx,
    Add,
    Sub,
    Imul,
    Idiv,
    Cqo,
    And,
    Or,
    Xor,
    Shl,
    Shr,
    Cmp,
    Sete,
    Setne,
    Setg,
    Setge,
    Setl,
    Setle,
    Call,
    Jmp,
    Je,
}

/// One machine instruction: a mnemonic and its ordered operands.
#[derive(Debug, PartialEq, Eq)]
pub struct Instruction {
    pub mnemonic: Mnemonic,
    pub operands: Vec<Operand>,
}

impl Label {
    /// An equal copy of this label.
    pub fn duplicate(&self) -> (r: Label)
        ensures
            r == *self,
    {
        match self {
            Label::Return => Label::Return,
            Label::Block(b) => Label::Block(*b),
            Label::Symbol(s) => Label::Symbol(s.clone()),
        }
    }
}

impl Operand {
    /// An equal copy of this operand.
    pub fn duplicate(&self) -> (r: Operand)
        ensures
            r == *self,
    {
        match self {
            Operand::Register(reg) => Operand::Register(*reg),
            Operand::Immediate(imm) => Operand::Immediate(*imm),
            Operand::Indirect(ind) => {
                let disp = match &ind.disp {
                    Displacement::Imm(v) => Displacement::Imm(*v),
                    Displacement::Label(s) => Displacement::Label(s.clone()),
                };
                Operand::Indirect(Indirect { base: ind.base, disp })
            },
            Operand::Label(l) => Operand::Label(l.duplicate()),
        }
    }
}

impl Instruction {
    pub fn new(mnemonic: Mnemonic, operands: Vec<Operand>) -> (r: Instruction)
        ensures
            r.mnemonic == mnemonic,
            r.operands@ == operands@,
    {
        Instruction { mnemonic, operands }
    }
}

} // verus!
