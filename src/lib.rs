//! Back end of a small compiler: dead-code elimination over an SSA
//! representation and instruction selection for an x86-64 style target.

pub mod machine;
pub mod ssa;
pub mod dce;
pub mod instsel;
