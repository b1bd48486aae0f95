use ssa_backend::dce::{apply, DeadCodeElimination};
use ssa_backend::ssa::{Block, Function, FunctionBuilder, InstructionId, Module, Type, Value};

fn inst_indices(block: &Block) -> Vec<usize> {
    block.instructions.iter().map(|inst_id| inst_id.index()).collect()
}

fn users(func: &Function, index: usize) -> Vec<usize> {
    func.insts[index].users.iter().map(|u| u.index()).collect()
}

#[test]
fn dce_1() {
    let func_main = Function::new("main", Type::I32, vec![]);
    let mut builder = FunctionBuilder::new(func_main);
    let block_0 = builder.add_block();
    let block_1 = builder.add_block();

    builder.set_block(block_0);
    let one = Value::new_i32(1);
    let v0 = builder.add(one, one);
    let v1 = builder.add(v0, v0);
    let _v2 = builder.add(v0, v0);
    builder.br(block_1);

    builder.set_block(block_1);
    let _v3 = builder.add(v0, v0);
    builder.ret(v1);
    let mut func_main = builder.finish();

    DeadCodeElimination::new().apply_function(&mut func_main);
    assert_eq!(inst_indices(func_main.block(block_0).unwrap()), vec![0, 1]);
    assert_eq!(inst_indices(func_main.block(block_1).unwrap()), vec![]);
}

/// v0 -> v1 -> v2 -> ret, plus a dead chain d0 -> d1 -> d2 that nothing reads.
fn chain_function() -> Function {
    let mut builder = FunctionBuilder::new(Function::new("chain", Type::I32, vec![]));
    let b = builder.add_block();
    builder.set_block(b);
    let one = Value::new_i32(1);
    let v0 = builder.add(one, one); // 0
    let d0 = builder.add(v0, one); // 1
    let v1 = builder.add(v0, v0); // 2
    let d1 = builder.add(d0, d0); // 3
    let v2 = builder.add(v1, one); // 4
    let _d2 = builder.add(d1, v1); // 5
    builder.ret(v2); // 6
    builder.finish()
}

#[test]
fn dce_removes_transitively_dead_chain() {
    let mut f = chain_function();
    DeadCodeElimination::new().apply_function(&mut f);
    assert_eq!(inst_indices(&f.blocks[0]), vec![0, 2, 4]);
}

#[test]
fn dce_prunes_user_sets_of_survivors() {
    let mut f = chain_function();
    assert_eq!(users(&f, 0), vec![1, 2]);
    assert_eq!(users(&f, 2), vec![4, 5]);
    DeadCodeElimination::new().apply_function(&mut f);
    assert_eq!(users(&f, 0), vec![2]);
    assert_eq!(users(&f, 2), vec![4]);
    assert_eq!(users(&f, 4), vec![6]);
}

#[test]
fn dce_keeps_terminators() {
    let mut f = chain_function();
    DeadCodeElimination::new().apply_function(&mut f);
    assert_eq!(f.blocks[0].terminator, Some(InstructionId { index: 6 }));
}

#[test]
fn dce_second_pass_changes_nothing() {
    let mut f = chain_function();
    DeadCodeElimination::new().apply_function(&mut f);
    let blocks_once: Vec<Vec<usize>> = f.blocks.iter().map(inst_indices).collect();
    let users_once: Vec<Vec<usize>> = (0..f.insts.len()).map(|i| users(&f, i)).collect();
    DeadCodeElimination::new().apply_function(&mut f);
    let blocks_twice: Vec<Vec<usize>> = f.blocks.iter().map(inst_indices).collect();
    let users_twice: Vec<Vec<usize>> = (0..f.insts.len()).map(|i| users(&f, i)).collect();
    assert_eq!(blocks_once, blocks_twice);
    assert_eq!(users_once, users_twice);
}

#[test]
fn dce_empty_function_is_unchanged() {
    let mut f = Function::new("empty", Type::Void, vec![]);
    DeadCodeElimination::new().apply_function(&mut f);
    assert!(f.blocks.is_empty());
    assert!(f.insts.is_empty());
}

#[test]
fn dce_apply_runs_on_every_function() {
    let mut module = Module { functions: vec![chain_function(), chain_function()], globals: vec![] };
    apply(&mut module);
    for f in &module.functions {
        assert_eq!(inst_indices(&f.blocks[0]), vec![0, 2, 4]);
    }
}
