use furn::ir_gen::ctimeval::CTimeVal;
use furn::ir_gen::external::ExternalInfo;
use furn::ir_gen::global::GlobalInfo;
use furn::ir_gen::ir::IRNode;
use furn::ir_gen::ir_optimizer::{find_rewrite, IROptimizer, Rewrite};
use furn::ir_gen::program::CompiledProgram;
use furn::ir_gen::typeval::TypeVal;

fn check_optimized(ir: &[IRNode], expected: &[IRNode]) {
    let mut prog = CompiledProgram::new();
    for node in ir {
        prog.app_node(*node);
    }
    let mut optimizer = IROptimizer::new(&mut prog);
    let left: Vec<IRNode> = optimizer.optimize().ir_iter().copied().collect();
    assert_eq!(left, expected.to_vec());
}

fn replaced(node: IRNode) -> Option<Rewrite> {
    Some(Rewrite { count: 2, replacement: Some(node) })
}

const END: IRNode = IRNode::Return { params_size: 0 };

#[test]
fn zero_allocations_are_removed() {
    check_optimized(&[IRNode::StackAlloc(0), END], &[END]);
    check_optimized(&[IRNode::StackDealloc(0), END], &[END]);
}

#[test]
fn last_node_is_never_the_start_of_a_match() {
    check_optimized(&[IRNode::StackAlloc(0)], &[IRNode::StackAlloc(0)]);
    check_optimized(&[END, IRNode::StackDealloc(0)], &[END, IRNode::StackDealloc(0)]);
}

#[test]
fn allocations_coalesce() {
    assert_eq!(
        find_rewrite(IRNode::StackAlloc(8), IRNode::StackAlloc(16)),
        replaced(IRNode::StackAlloc(24))
    );
    assert_eq!(
        find_rewrite(IRNode::StackAlloc(16), IRNode::StackDealloc(8)),
        replaced(IRNode::StackAlloc(8))
    );
    assert_eq!(
        find_rewrite(IRNode::StackAlloc(8), IRNode::StackDealloc(8)),
        replaced(IRNode::StackDealloc(0))
    );
    assert_eq!(
        find_rewrite(IRNode::StackAlloc(8), IRNode::StackDealloc(24)),
        replaced(IRNode::StackDealloc(16))
    );
    assert_eq!(
        find_rewrite(IRNode::StackDealloc(8), IRNode::StackDealloc(16)),
        replaced(IRNode::StackDealloc(24))
    );
    assert_eq!(
        find_rewrite(IRNode::StackDealloc(16), IRNode::StackAlloc(8)),
        replaced(IRNode::StackDealloc(8))
    );
    assert_eq!(
        find_rewrite(IRNode::StackDealloc(8), IRNode::StackAlloc(8)),
        replaced(IRNode::StackAlloc(0))
    );
    assert_eq!(
        find_rewrite(IRNode::StackDealloc(8), IRNode::StackAlloc(24)),
        replaced(IRNode::StackAlloc(16))
    );
}

#[test]
fn zero_size_goes_first() {
    let gone = Some(Rewrite { count: 1, replacement: None });
    assert_eq!(find_rewrite(IRNode::StackAlloc(0), IRNode::StackAlloc(8)), gone);
    assert_eq!(find_rewrite(IRNode::StackDealloc(0), IRNode::StackDealloc(8)), gone);
    assert_eq!(find_rewrite(IRNode::StackAlloc(0), IRNode::Call), gone);
}

#[test]
fn pushes_fuse_with_what_follows() {
    let both_gone = Some(Rewrite { count: 2, replacement: None });
    assert_eq!(find_rewrite(IRNode::Push64(5), IRNode::StackDealloc(8)), both_gone);
    assert_eq!(find_rewrite(IRNode::GlobalReadPush64(16), IRNode::StackDealloc(8)), both_gone);
    assert_eq!(find_rewrite(IRNode::StackReadPush64(24), IRNode::StackDealloc(8)), both_gone);
    assert_eq!(
        find_rewrite(IRNode::Push64(5), IRNode::Pop64ToStack(16)),
        replaced(IRNode::Load64ToStack(5, 8))
    );
    assert_eq!(
        find_rewrite(IRNode::GlobalReadPush64(16), IRNode::Pop64ToStack(24)),
        replaced(IRNode::GlobalReadLoad64ToStack(16, 16))
    );
    assert_eq!(
        find_rewrite(IRNode::StackReadPush64(32), IRNode::Pop64ToStack(8)),
        replaced(IRNode::StackReadLoad64ToStack(32, 0))
    );
    assert_eq!(
        find_rewrite(IRNode::StackAlloc(8), IRNode::Load64ToStack(7, 0)),
        replaced(IRNode::Push64(7))
    );
    assert_eq!(
        find_rewrite(IRNode::PushAddressFromOffset(-4), IRNode::Call),
        replaced(IRNode::CallFromOffset(-3))
    );
}

#[test]
fn nothing_matches_elsewhere() {
    assert_eq!(find_rewrite(IRNode::Push64(5), IRNode::StackDealloc(16)), None);
    assert_eq!(find_rewrite(IRNode::Push64(5), IRNode::Push64(5)), None);
    assert_eq!(find_rewrite(IRNode::StackAlloc(8), IRNode::Load64ToStack(7, 8)), None);
    assert_eq!(find_rewrite(IRNode::StackAlloc(16), IRNode::Load64ToStack(7, 0)), None);
    assert_eq!(find_rewrite(IRNode::Call, IRNode::Call), None);
    assert_eq!(find_rewrite(IRNode::PushAddressFromOffset(1), IRNode::Push64(1)), None);
    let print = ExternalInfo::new("print", "rt", true);
    assert_eq!(find_rewrite(IRNode::ExternalReadPush64(print), IRNode::Call), None);
}

#[test]
fn results_that_do_not_fit_match_nothing() {
    assert_eq!(find_rewrite(IRNode::StackAlloc(usize::MAX), IRNode::StackAlloc(1)), None);
    assert_eq!(find_rewrite(IRNode::StackDealloc(usize::MAX), IRNode::StackDealloc(1)), None);
    assert_eq!(find_rewrite(IRNode::Push64(1), IRNode::Pop64ToStack(7)), None);
    assert_eq!(find_rewrite(IRNode::GlobalReadPush64(1), IRNode::Pop64ToStack(0)), None);
    assert_eq!(find_rewrite(IRNode::StackReadPush64(1), IRNode::Pop64ToStack(4)), None);
    assert_eq!(find_rewrite(IRNode::PushAddressFromOffset(i16::MAX), IRNode::Call), None);
}

#[test]
fn push_pop_after_alloc_keeps_nonzero_offset() {
    // the load lands at offset 8, which the allocation rule does not take
    check_optimized(&[IRNode::StackAlloc(8), IRNode::Push64(5), IRNode::Pop64ToStack(16), END], &[IRNode::StackAlloc(8), IRNode::Load64ToStack(5, 8), END]);
}

#[test]
fn push_pop_after_alloc_reduces_to_push() {
    check_optimized(&[IRNode::StackAlloc(8), IRNode::Push64(5), IRNode::Pop64ToStack(8), END], &[IRNode::Push64(5), END]);
}

#[test]
fn rewrites_cascade_across_passes() {
    check_optimized(&[
            IRNode::StackAlloc(4),
            IRNode::StackAlloc(4),
            IRNode::Load64ToStack(9, 0),
            IRNode::StackDealloc(8),
            END,
        ], &[END]);
}

#[test]
fn do_pass_counts_rewrites() {
    let mut prog = CompiledProgram::new();
    for node in [IRNode::StackAlloc(0), IRNode::StackDealloc(0), IRNode::Push64(1), END] {
        prog.app_node(node);
    }
    let mut optimizer = IROptimizer::new(&mut prog);
    assert_eq!(optimizer.do_pass(), 2);
    assert_eq!(optimizer.do_pass(), 0);
    let left: Vec<IRNode> = optimizer.optimize().ir_iter().copied().collect();
    assert_eq!(left, vec![IRNode::Push64(1), END]);
}

#[test]
fn one_more_pass_after_optimize_rewrites_nothing() {
    let mut prog = CompiledProgram::new();
    for node in [
        IRNode::StackAlloc(8),
        IRNode::StackAlloc(8),
        IRNode::Push64(1),
        IRNode::Pop64ToStack(8),
        IRNode::StackDealloc(16),
        IRNode::PushAddressFromOffset(-3),
        IRNode::Call,
        END,
    ] {
        prog.app_node(node);
    }
    let mut optimizer = IROptimizer::new(&mut prog);
    let once: Vec<IRNode> = optimizer.optimize().ir_iter().copied().collect();
    assert_eq!(optimizer.do_pass(), 0);
    let twice: Vec<IRNode> = optimizer.optimize().ir_iter().copied().collect();
    assert_eq!(once, twice);
}

#[test]
fn call_through_address_is_fused() {
    check_optimized(&[
            IRNode::Push64(1),
            END,
            IRNode::Push64(2),
            IRNode::PushAddressFromOffset(-3),
            IRNode::Call,
            END,
        ], &[IRNode::Push64(1), END, IRNode::Push64(2), IRNode::CallFromOffset(-3), END]);
}

#[test]
fn call_fusion_keeps_other_references_on_their_targets() {
    let mut prog = CompiledProgram::new();
    for node in [
        IRNode::JumpFromOffset(6),
        IRNode::Push64(1),
        END,
        IRNode::PushAddressFromOffset(-2),
        IRNode::Call,
        IRNode::CallFromOffset(-4),
        IRNode::Push64(7),
        IRNode::JumpFromOffset(-1),
    ] {
        prog.app_node(node);
    }
    prog.add_global(GlobalInfo::new(
        0,
        "f",
        false,
        CTimeVal::Function { address: 1, return_type_val: TypeVal::UInt64 },
        true,
    ));
    prog.add_global(GlobalInfo::new(
        8,
        "g",
        false,
        CTimeVal::Function { address: 6, return_type_val: TypeVal::UInt64 },
        true,
    ));
    let mut optimizer = IROptimizer::new(&mut prog);
    let after = optimizer.optimize();
    let left: Vec<IRNode> = after.ir_iter().copied().collect();
    assert_eq!(
        left,
        vec![
            IRNode::JumpFromOffset(5),
            IRNode::Push64(1),
            END,
            IRNode::CallFromOffset(-2),
            IRNode::CallFromOffset(-3),
            IRNode::Push64(7),
            IRNode::JumpFromOffset(-1),
        ]
    );
    // the jump at 0 still names the push of 7, the call at 4 the push of 1,
    // and the fused call names what the address named
    assert_eq!(left[3 - 2], IRNode::Push64(1));
    assert_eq!(left[0 + 5], IRNode::Push64(7));
    assert_eq!(left[4 - 3], IRNode::Push64(1));
    let addresses: Vec<CTimeVal> = after.globals_iter().map(|g| g.init.clone()).collect();
    assert_eq!(
        addresses,
        vec![
            CTimeVal::Function { address: 1, return_type_val: TypeVal::UInt64 },
            CTimeVal::Function { address: 5, return_type_val: TypeVal::UInt64 },
        ]
    );
}

#[test]
fn external_call_is_left_alone() {
    let print = ExternalInfo::new("print", "rt", true);
    let ir = [IRNode::Push64(1), IRNode::ExternalReadPush64(print), IRNode::Call, END];
    check_optimized(&ir, &ir);
}

#[test]
fn nodes_that_are_jumped_to_are_kept() {
    let ir = [IRNode::JumpFromOffset(1), IRNode::StackAlloc(0), END];
    check_optimized(&ir, &ir);
    let ir = [IRNode::JumpFromOffset(2), IRNode::Push64(1), IRNode::StackDealloc(8), END];
    check_optimized(&ir, &ir);
}

#[test]
fn function_start_follows_a_rewrite_at_its_first_node() {
    let mut prog = CompiledProgram::new();
    for node in [IRNode::StackAlloc(0), IRNode::Push64(1), END] {
        prog.app_node(node);
    }
    prog.add_global(GlobalInfo::new(
        0,
        "f",
        false,
        CTimeVal::Function { address: 0, return_type_val: TypeVal::UInt64 },
        true,
    ));
    let mut optimizer = IROptimizer::new(&mut prog);
    let after = optimizer.optimize();
    assert_eq!(after.count_ir(), 2);
    assert_eq!(
        after.first_global().unwrap().init,
        CTimeVal::Function { address: 0, return_type_val: TypeVal::UInt64 }
    );
    assert_eq!(*after.node_at(0), IRNode::Push64(1));
}

#[test]
fn empty_program_stays_empty() {
    check_optimized(&[], &[]);
}

#[test]
fn optimization_keeps_the_tables_of_the_program() {
    let mut prog = CompiledProgram::new();
    for node in [
        IRNode::Push64(1),
        IRNode::StackDealloc(8),
        IRNode::Push64(2),
        END,
        IRNode::StackAlloc(0),
        IRNode::Push64(3),
        END,
    ] {
        prog.app_node(node);
    }
    let text = prog.add_static_string("hi");
    prog.set_package_name(Some("demo"));
    prog.add_external(ExternalInfo::new("print", "rt", true));
    let function = |address: usize| CTimeVal::Function { address, return_type_val: TypeVal::UInt64 };
    prog.add_global(GlobalInfo::new(0, "f", true, function(0), true));
    prog.add_global(GlobalInfo::new(8, "n", false, CTimeVal::UInt(7), false));
    prog.add_global(GlobalInfo::new(16, "s", false, CTimeVal::StringSlice(text, 2), true));
    prog.add_global(GlobalInfo::new(32, "g", false, function(4), true));
    let mut optimizer = IROptimizer::new(&mut prog);
    let after = optimizer.optimize();
    assert_eq!(
        after.ir_iter().copied().collect::<Vec<_>>(),
        vec![IRNode::Push64(2), END, IRNode::Push64(3), END]
    );
    let globals: Vec<GlobalInfo> = after.globals_iter().cloned().collect();
    assert_eq!(
        globals,
        vec![
            GlobalInfo::new(0, "f", true, function(0), true),
            GlobalInfo::new(8, "n", false, CTimeVal::UInt(7), false),
            GlobalInfo::new(16, "s", false, CTimeVal::StringSlice(text, 2), true),
            GlobalInfo::new(32, "g", false, function(2), true),
        ]
    );
    assert_eq!(after.get_package_name(), Some("demo"));
    assert_eq!(after.externals_iter().count(), 1);
    assert_eq!(after.static_strings_iter().count(), 1);
}
