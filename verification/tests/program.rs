use furn::ir_gen::ctimeval::CTimeVal;
use furn::ir_gen::external::ExternalInfo;
use furn::ir_gen::global::GlobalInfo;
use furn::ir_gen::ir::IRNode;
use furn::ir_gen::program::CompiledProgram;
use furn::ir_gen::typeval::TypeVal;

fn nodes<'a>(prog: &CompiledProgram<'a>) -> Vec<IRNode<'a>> {
    prog.ir_iter().copied().collect()
}

fn program_of<'a>(ir: &[IRNode<'a>]) -> CompiledProgram<'a> {
    let mut prog = CompiledProgram::new();
    for node in ir {
        prog.app_node(*node);
    }
    prog
}

fn function_at(address: usize) -> CTimeVal {
    CTimeVal::Function { address, return_type_val: TypeVal::UInt64 }
}

fn addresses(prog: &CompiledProgram) -> Vec<usize> {
    prog.globals_iter()
        .map(|g| match &g.init {
            CTimeVal::Function { address, .. } => *address,
            _ => panic!("not a function"),
        })
        .collect()
}

#[test]
fn new_program_is_empty() {
    let prog = CompiledProgram::new();
    assert_eq!(prog.count_ir(), 0);
    assert_eq!(prog.ir_pos(), 0);
    assert_eq!(prog.global_count(), 0);
    assert!(!prog.any_global_exists());
    assert!(prog.first_global().is_none());
    assert_eq!(prog.get_package_name(), None);
    assert_eq!(prog.externals_iter().count(), 0);
    assert_eq!(prog.static_strings_iter().count(), 0);
}

#[test]
fn app_node_appends_in_order() {
    let mut prog = CompiledProgram::new();
    prog.app_node(IRNode::Push64(1));
    prog.app_node(IRNode::Call);
    assert_eq!(prog.count_ir(), 2);
    assert_eq!(prog.ir_pos(), 1);
    assert_eq!(prog.node_clone_at(0), IRNode::Push64(1));
    assert_eq!(*prog.node_at(1), IRNode::Call);
}

#[test]
fn node_mut_at_replaces_one_node() {
    let mut prog = program_of(&[IRNode::StackAlloc(0), IRNode::Push64(3)]);
    *prog.node_mut_at(0) = IRNode::StackAlloc(8);
    assert_eq!(nodes(&prog), vec![IRNode::StackAlloc(8), IRNode::Push64(3)]);
}

#[test]
fn package_name_is_kept() {
    let mut prog = CompiledProgram::new();
    prog.set_package_name(Some("demo"));
    assert_eq!(prog.get_package_name(), Some("demo"));
    prog.set_package_name(None);
    assert_eq!(prog.get_package_name(), None);
}

#[test]
fn globals_and_externals_keep_their_order() {
    let mut prog = CompiledProgram::new();
    prog.add_global(GlobalInfo::new(0, "a", true, CTimeVal::UInt(1), true));
    prog.add_global(GlobalInfo::new(8, "b", false, CTimeVal::UInt(2), false));
    prog.add_external(ExternalInfo::new("print", "rt", true));
    assert!(prog.any_global_exists());
    assert_eq!(prog.global_count(), 2);
    assert_eq!(prog.first_global().unwrap().name, "a");
    let names: Vec<&str> = prog.globals_iter().map(|g| g.name).collect();
    assert_eq!(names, vec!["a", "b"]);
    let externals: Vec<ExternalInfo> = prog.externals_iter().copied().collect();
    assert_eq!(externals, vec![ExternalInfo { name: "print", package_name: "rt", is_const: true }]);
}

#[test]
fn interning_is_idempotent() {
    let mut prog = CompiledProgram::new();
    let first = prog.add_static_string("hello");
    let again = prog.add_static_string("hello");
    assert_eq!(first, 0);
    assert_eq!(again, 0);
    assert_eq!(prog.static_strings_iter().count(), 1);
}

#[test]
fn interning_same_text_from_other_storage() {
    let mut prog = CompiledProgram::new();
    let owned = String::from("hi");
    let first = prog.add_static_string("hi");
    let second = prog.add_static_string(owned.as_str());
    assert_eq!(first, second);
}

#[test]
fn offsets_are_cumulative_byte_lengths() {
    let mut prog = CompiledProgram::new();
    assert_eq!(prog.add_static_string("hi"), 0);
    assert_eq!(prog.add_static_string("world"), 2);
    assert_eq!(prog.add_static_string("é"), 7);
    assert_eq!(prog.add_static_string("x"), 9);
    assert_eq!(prog.add_static_string("world"), 2);
    let pool: Vec<(&str, usize)> = prog.static_strings_iter().copied().collect();
    assert_eq!(pool, vec![("hi", 0), ("world", 2), ("é", 7), ("x", 9)]);
}

#[test]
fn empty_string_shares_its_offset_with_the_next() {
    let mut prog = CompiledProgram::new();
    assert_eq!(prog.add_static_string(""), 0);
    assert_eq!(prog.add_static_string("a"), 0);
    assert_eq!(prog.add_static_string("b"), 1);
}

#[test]
fn can_add_static_string_accepts_ordinary_strings() {
    let mut prog = CompiledProgram::new();
    assert!(prog.can_add_static_string("abc"));
    let _ = prog.add_static_string("abc");
    assert!(prog.can_add_static_string("abc"));
    assert!(prog.can_add_static_string("more"));
}

#[test]
fn insert_moves_forward_reference_across() {
    // the jump at 0 names the node at 2
    let mut prog = program_of(&[IRNode::JumpFromOffset(2), IRNode::Push64(1), IRNode::Call]);
    assert!(prog.can_realign(1, 1, true));
    prog.insert_node(1, IRNode::Push64(9));
    assert_eq!(
        nodes(&prog),
        vec![IRNode::JumpFromOffset(3), IRNode::Push64(9), IRNode::Push64(1), IRNode::Call]
    );
}

#[test]
fn insert_moves_backward_reference_across() {
    // the call at 2 names the node at 0
    let mut prog = program_of(&[IRNode::Push64(1), IRNode::Push64(2), IRNode::CallFromOffset(-2)]);
    prog.insert_node(1, IRNode::Push64(9));
    assert_eq!(
        nodes(&prog),
        vec![IRNode::Push64(1), IRNode::Push64(9), IRNode::Push64(2), IRNode::CallFromOffset(-3)]
    );
}

#[test]
fn insert_at_target_moves_the_reference_with_its_target() {
    let mut prog = program_of(&[IRNode::JumpFromOffset(1), IRNode::Call]);
    prog.insert_node(1, IRNode::Push64(9));
    assert_eq!(nodes(&prog), vec![IRNode::JumpFromOffset(2), IRNode::Push64(9), IRNode::Call]);
}

#[test]
fn insert_leaves_references_on_one_side_alone() {
    let mut prog = program_of(&[
        IRNode::JumpFromOffset(1),
        IRNode::Call,
        IRNode::Push64(1),
        IRNode::PushAddressFromOffset(-1),
    ]);
    prog.insert_node(2, IRNode::Push64(9));
    assert_eq!(
        nodes(&prog),
        vec![
            IRNode::JumpFromOffset(1),
            IRNode::Call,
            IRNode::Push64(9),
            IRNode::Push64(1),
            IRNode::PushAddressFromOffset(-1),
        ]
    );
}

#[test]
fn insert_moves_a_backward_reference_of_the_new_node() {
    let mut prog = program_of(&[IRNode::Push64(1), IRNode::Push64(2), IRNode::Push64(3)]);
    assert!(CompiledProgram::can_place(2, IRNode::CallFromOffset(-1)));
    prog.insert_node(2, IRNode::CallFromOffset(-1));
    assert_eq!(
        nodes(&prog),
        vec![IRNode::Push64(1), IRNode::Push64(2), IRNode::CallFromOffset(-2), IRNode::Push64(3)]
    );
}

#[test]
fn insert_keeps_a_forward_reference_of_the_new_node() {
    let mut prog = program_of(&[IRNode::Push64(1), IRNode::Push64(2)]);
    prog.insert_node(1, IRNode::JumpFromOffset(1));
    prog.insert_node(0, IRNode::PushAddressFromOffset(0));
    assert_eq!(
        nodes(&prog),
        vec![
            IRNode::PushAddressFromOffset(0),
            IRNode::Push64(1),
            IRNode::JumpFromOffset(1),
            IRNode::Push64(2),
        ]
    );
}

#[test]
fn a_backward_reference_at_the_limit_cannot_be_placed() {
    assert!(!CompiledProgram::can_place(3, IRNode::JumpFromOffset(i16::MIN)));
    assert!(CompiledProgram::can_place(3, IRNode::JumpFromOffset(i16::MIN + 1)));
    assert!(CompiledProgram::can_place(3, IRNode::JumpFromOffset(i16::MAX)));
    assert!(CompiledProgram::can_place(3, IRNode::Call));
}

#[test]
fn insert_then_shift_restores_program_around_a_reference() {
    let ir = [IRNode::Push64(1), IRNode::JumpFromOffset(1), IRNode::CallFromOffset(-2)];
    for pos in 0..=ir.len() {
        let mut prog = program_of(&ir);
        prog.insert_node(pos, IRNode::CallFromOffset(-1));
        prog.shift_nodes(pos..=pos);
        assert_eq!(nodes(&prog), ir.to_vec());
    }
}

#[test]
fn insert_moves_function_addresses_beyond_only() {
    let mut prog = program_of(&[IRNode::Push64(1), IRNode::Push64(2), IRNode::Push64(3)]);
    prog.add_global(GlobalInfo::new(0, "f", false, function_at(0), true));
    prog.add_global(GlobalInfo::new(8, "g", false, function_at(1), true));
    prog.add_global(GlobalInfo::new(16, "h", false, function_at(2), true));
    prog.add_global(GlobalInfo::new(24, "n", false, CTimeVal::UInt(2), true));
    prog.insert_node(1, IRNode::Call);
    assert_eq!(addresses_of_functions(&prog), vec![0, 1, 3]);
    assert_eq!(prog.globals_iter().last().unwrap().init, CTimeVal::UInt(2));
}

fn addresses_of_functions(prog: &CompiledProgram) -> Vec<usize> {
    prog.globals_iter()
        .filter_map(|g| match &g.init {
            CTimeVal::Function { address, .. } => Some(*address),
            _ => None,
        })
        .collect()
}

#[test]
fn shift_removes_inclusive_range_and_realigns() {
    let mut prog = program_of(&[
        IRNode::JumpFromOffset(4),
        IRNode::Push64(1),
        IRNode::Push64(2),
        IRNode::Push64(3),
        IRNode::Call,
        IRNode::CallFromOffset(-5),
    ]);
    prog.add_global(GlobalInfo::new(0, "f", false, function_at(4), true));
    assert!(prog.can_realign(1, 2, false));
    prog.shift_nodes(1..=2);
    assert_eq!(
        nodes(&prog),
        vec![
            IRNode::JumpFromOffset(2),
            IRNode::Push64(3),
            IRNode::Call,
            IRNode::CallFromOffset(-3),
        ]
    );
    assert_eq!(addresses(&prog), vec![2]);
}

#[test]
fn shift_of_empty_range_changes_nothing() {
    let ir = [IRNode::JumpFromOffset(1), IRNode::Call];
    let mut prog = program_of(&ir);
    #[allow(clippy::reversed_empty_ranges)]
    prog.shift_nodes(1..=0);
    assert_eq!(nodes(&prog), ir.to_vec());
}

#[test]
fn insert_then_shift_restores_program() {
    let ir = [
        IRNode::JumpFromOffset(3),
        IRNode::PushAddressFromOffset(1),
        IRNode::Push64(7),
        IRNode::CallFromOffset(-1),
        IRNode::JumpFromOffset(-4),
        IRNode::Return { params_size: 0 },
    ];
    for pos in 0..=ir.len() {
        let mut prog = program_of(&ir);
        prog.add_global(GlobalInfo::new(0, "f", false, function_at(2), true));
        prog.add_global(GlobalInfo::new(8, "g", false, function_at(5), false));
        assert!(prog.can_realign(pos, 1, true));
        prog.insert_node(pos, IRNode::StackAlloc(8));
        assert_eq!(prog.count_ir(), ir.len() + 1);
        assert!(prog.can_realign(pos, 1, false));
        prog.shift_nodes(pos..=pos);
        assert_eq!(nodes(&prog), ir.to_vec());
        assert_eq!(addresses(&prog), vec![2, 5]);
    }
}

#[test]
fn can_realign_refuses_offsets_out_of_range() {
    let prog = program_of(&[IRNode::JumpFromOffset(i16::MAX), IRNode::Call]);
    assert!(!prog.can_realign(1, 1, true));
    assert!(prog.can_realign(1, 1, false));
    let mut with_global = program_of(&[IRNode::Call]);
    with_global.add_global(GlobalInfo::new(0, "f", false, function_at(1), true));
    assert!(!with_global.can_realign(0, 2, false));
    assert!(with_global.can_realign(0, 1, false));
}

#[test]
fn realign_stack_offsets_bumps_after_index_beyond_threshold() {
    let mut prog = program_of(&[
        IRNode::Pop64ToStack(32),
        IRNode::Pop64ToStack(32),
        IRNode::Pop64ToStack(16),
        IRNode::Load64ToStack(5, 24),
        IRNode::StackReadPush64(17),
        IRNode::GlobalReadLoad64ToStack(3, 40),
        IRNode::StackReadLoad64ToStack(8, 24),
        IRNode::StackAlloc(100),
        IRNode::GlobalReadPush64(100),
    ]);
    assert!(prog.can_realign_stack_offsets(0, 16, 8));
    prog.realign_stack_offsets(0, 16, 8);
    assert_eq!(
        nodes(&prog),
        vec![
            IRNode::Pop64ToStack(32),
            IRNode::Pop64ToStack(40),
            IRNode::Pop64ToStack(16),
            IRNode::Load64ToStack(5, 32),
            IRNode::StackReadPush64(25),
            IRNode::GlobalReadLoad64ToStack(3, 48),
            IRNode::StackReadLoad64ToStack(8, 32),
            IRNode::StackAlloc(100),
            IRNode::GlobalReadPush64(100),
        ]
    );
}

#[test]
fn can_realign_stack_offsets_refuses_overflow() {
    let prog = program_of(&[IRNode::Push64(0), IRNode::Pop64ToStack(usize::MAX)]);
    assert!(!prog.can_realign_stack_offsets(0, 8, 1));
    assert!(prog.can_realign_stack_offsets(1, 8, 1));
    assert!(prog.can_realign_stack_offsets(0, usize::MAX, 1));
}

#[test]
fn clone_copies_everything() {
    let mut prog = program_of(&[IRNode::Push64(1)]);
    prog.set_package_name(Some("p"));
    prog.add_global(GlobalInfo::new(0, "f", false, function_at(0), true));
    prog.add_external(ExternalInfo::new("print", "rt", true));
    let _ = prog.add_static_string("s");
    let copy = prog.clone();
    assert_eq!(nodes(&copy), nodes(&prog));
    assert_eq!(copy.get_package_name(), Some("p"));
    assert_eq!(copy.global_count(), 1);
    assert_eq!(copy.externals_iter().count(), 1);
    assert_eq!(copy.static_strings_iter().copied().collect::<Vec<_>>(), vec![("s", 0)]);
}

#[test]
fn can_rewrite_refuses_what_is_pointed_into() {
    let prog = program_of(&[
        IRNode::JumpFromOffset(2),
        IRNode::Push64(1),
        IRNode::StackDealloc(8),
        IRNode::Call,
    ]);
    assert!(!prog.can_rewrite(1, 2, None));
    assert!(!prog.can_rewrite(2, 1, None));
    assert!(prog.can_rewrite(1, 1, None));
    assert!(!prog.can_rewrite(3, 2, None));
    assert!(!prog.can_rewrite(1, 0, None));
}

#[test]
fn rewrite_replaces_a_run_by_one_node() {
    let mut prog = program_of(&[
        IRNode::JumpFromOffset(3),
        IRNode::Push64(1),
        IRNode::Pop64ToStack(16),
        IRNode::Call,
        IRNode::JumpFromOffset(-4),
    ]);
    assert!(prog.can_rewrite(1, 2, Some(IRNode::Load64ToStack(1, 8))));
    prog.rewrite(1, 2, Some(IRNode::Load64ToStack(1, 8)));
    assert_eq!(
        nodes(&prog),
        vec![
            IRNode::JumpFromOffset(2),
            IRNode::Load64ToStack(1, 8),
            IRNode::Call,
            IRNode::JumpFromOffset(-3),
        ]
    );
}

#[test]
fn shift_asks_nothing_of_the_references_that_leave() {
    let mut ir = vec![IRNode::Push64(0), IRNode::JumpFromOffset(-1)];
    ir.extend((0..39_998).map(|n| IRNode::Push64(n)));
    ir.push(IRNode::JumpFromOffset(-2));
    let mut prog = program_of(&ir);
    // the jump at 1 would have to reach 38999 back, but it leaves with the range
    assert!(!prog.can_realign(1, 39_000, false));
    assert!(prog.can_shift(1, 39_000));
    prog.shift_nodes(1..=39_000);
    assert_eq!(prog.count_ir(), 1_001);
    assert_eq!(nodes(&prog)[0], IRNode::Push64(0));
    assert_eq!(nodes(&prog)[1_000], IRNode::JumpFromOffset(-2));
    // a reference that stays and cannot be held is refused
    let mut far = vec![IRNode::Push64(0)];
    far.extend((0..40_000).map(|n| IRNode::Push64(n)));
    far.push(IRNode::JumpFromOffset(i16::MIN));
    let prog = program_of(&far);
    assert!(prog.can_shift(40_000, 1));
    let near = program_of(&[IRNode::JumpFromOffset(i16::MAX), IRNode::Push64(1), IRNode::Call]);
    assert!(near.can_shift(1, 1));
    let mut with_global = program_of(&[IRNode::Call, IRNode::Call]);
    with_global.add_global(GlobalInfo::new(0, "f", false, function_at(1), true));
    assert!(!with_global.can_shift(0, 2));
    assert!(with_global.can_shift(0, 1));
}
