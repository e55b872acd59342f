use furn::ir_gen::ctimeval::CTimeVal;
use furn::ir_gen::external::ExternalInfo;
use furn::ir_gen::global::GlobalInfo;
use furn::ir_gen::ir::IRNode;
use furn::ir_gen::ir_gen::IRGen;
use furn::ir_gen::ir_optimizer::IROptimizer;
use furn::ir_gen::machine::Word;
use furn::ir_gen::program::CompiledProgram;
use furn::ir_gen::runner::{global_word, CallRecord, Runner};
use furn::ir_gen::settled::is_settled;
use furn::ir_gen::typeval::TypeVal;
use furn::parser::ast::{Expr, Stmt};

const PRINT: ExternalInfo = ExternalInfo { name: "print", package_name: "rt", is_const: true };
const END: IRNode = IRNode::Return { params_size: 0 };

fn machine_program<'a>(ir: &[IRNode<'a>]) -> CompiledProgram<'a> {
    let mut prog = CompiledProgram::new();
    for node in ir {
        prog.app_node(*node);
    }
    prog
}

/// Runs `prog` from `pc` on `stack` and returns what it put out, the stack
/// it left and whether it came to its end.
fn outcome<'a>(
    prog: &CompiledProgram<'a>,
    pc: usize,
    stack: Vec<Word<'a>>,
) -> (Vec<CallRecord<'a>>, Vec<Word<'a>>, bool) {
    let mut runner = Runner::new(pc, stack);
    runner.run(prog, 10_000);
    let finished = runner.is_finished(prog);
    (runner.output, runner.stack, finished)
}

/// What the optimized program puts out when run from `pc`, as text, and
/// whether it came to its end.
fn optimized_text<'a>(prog: CompiledProgram<'a>, pc: usize, stack: Vec<Word<'a>>) -> (String, bool) {
    let mut prog = prog;
    let mut optimizer = IROptimizer::new(&mut prog);
    let after = optimizer.optimize();
    let (output, _, finished) = outcome(after, pc, stack);
    (format!("{output:?}"), finished)
}

/// Whether the word `after` can stand for `before`: it is the same, or
/// `before` was never written.
fn word_shows(before: &Word, after: &Word) -> bool {
    *before == Word::Junk || before == after
}

fn stack_shows(before: &[Word], after: &[Word]) -> bool {
    before.len() == after.len() && before.iter().zip(after).all(|(b, a)| word_shows(b, a))
}

/// What the optimized program does, run from `pc` or, with a global
/// given, from the function that this global holds after optimization,
/// held against what the program did before: whether its output and the
/// stack it left can stand for those, whether it came to its end, and
/// whether it is settled.
fn optimized_shows<'a>(
    prog: CompiledProgram<'a>,
    pc: usize,
    global: Option<usize>,
    stack: Vec<Word<'a>>,
    output: &[CallRecord<'a>],
    left: &[Word<'a>],
) -> (bool, bool, bool) {
    let mut prog = prog;
    let mut optimizer = IROptimizer::new(&mut prog);
    let after = optimizer.optimize();
    let from = match global {
        Some(g) => match after.global_at(g).init {
            CTimeVal::Function { address, .. } => address,
            _ => panic!("not a function"),
        },
        None => pc,
    };
    let (after_output, after_left, finished) = outcome(after, from, stack);
    let shows = output.len() == after_output.len()
        && output
            .iter()
            .zip(&after_output)
            .all(|(b, a)| b.callee == a.callee && stack_shows(&b.stack, &a.stack))
        && stack_shows(left, &after_left);
    (shows, finished, is_settled(after))
}

#[test]
fn runner_works_on_the_stack() {
    let prog = machine_program(&[
        IRNode::Push64(5),
        IRNode::StackAlloc(16),
        IRNode::Load64ToStack(7, 8),
        IRNode::StackReadPush64(16),
        IRNode::Pop64ToStack(8),
        IRNode::StackReadLoad64ToStack(8, 16),
        IRNode::PushStaticStringPointer(3),
        IRNode::StackDealloc(16),
    ]);
    let mut runner = Runner::new(0, vec![]);
    assert!(runner.step(&prog));
    assert_eq!(runner.stack, vec![Word::Num(5)]);
    assert!(runner.step(&prog));
    assert_eq!(runner.stack, vec![Word::Junk, Word::Junk, Word::Num(5)]);
    assert!(runner.step(&prog));
    assert_eq!(runner.stack, vec![Word::Junk, Word::Num(7), Word::Num(5)]);
    assert!(runner.step(&prog));
    assert_eq!(runner.stack, vec![Word::Num(5), Word::Junk, Word::Num(7), Word::Num(5)]);
    assert!(runner.step(&prog));
    assert_eq!(runner.stack, vec![Word::Num(5), Word::Num(7), Word::Num(5)]);
    assert!(runner.step(&prog));
    assert_eq!(runner.stack, vec![Word::Num(5), Word::Num(7), Word::Num(7)]);
    assert!(runner.step(&prog));
    assert!(runner.step(&prog));
    assert_eq!(runner.stack, vec![Word::Num(7), Word::Num(7)]);
    assert_eq!(runner.pc, 8);
    assert!(runner.is_finished(&prog));
    assert!(!runner.step(&prog));
    assert!(runner.output.is_empty());
}

#[test]
fn runner_stops_where_an_instruction_has_no_meaning() {
    for node in [
        IRNode::StackReadPush64(8),
        IRNode::StackReadPush64(4),
        IRNode::StackAlloc(3),
        IRNode::StackDealloc(16),
        IRNode::Load64ToStack(1, 8),
        IRNode::Pop64ToStack(16),
        IRNode::Pop64ToStack(4),
        IRNode::GlobalReadPush64(0),
        IRNode::JumpFromOffset(-1),
        IRNode::PushAddressFromOffset(-1),
        IRNode::CallFromOffset(-1),
        IRNode::Call,
        END,
    ] {
        let prog = machine_program(&[node]);
        let mut runner = Runner::new(0, vec![Word::Num(1)]);
        assert!(!runner.step(&prog), "{node:?}");
        assert_eq!(runner.pc, 0);
        assert_eq!(runner.stack, vec![Word::Num(1)]);
        assert!(!runner.is_finished(&prog));
    }
}

#[test]
fn pop_with_offset_zero_only_takes_the_word_off() {
    let prog = machine_program(&[IRNode::Pop64ToStack(0)]);
    let mut runner = Runner::new(0, vec![Word::Num(1), Word::Num(2)]);
    assert!(runner.step(&prog));
    assert_eq!(runner.stack, vec![Word::Num(2)]);
}

#[test]
fn run_counts_its_steps_and_respects_the_limit() {
    let prog = machine_program(&[IRNode::Push64(1), IRNode::JumpFromOffset(-1)]);
    let mut runner = Runner::new(0, vec![]);
    assert_eq!(runner.run(&prog, 7), 7);
    assert_eq!(runner.stack.len(), 4);
    assert_eq!(runner.pc, 1);
    let straight = machine_program(&[IRNode::Push64(1), IRNode::Push64(2)]);
    let mut runner = Runner::new(0, vec![]);
    assert_eq!(runner.run(&straight, 7), 2);
    assert!(runner.is_finished(&straight));
}

#[test]
fn global_words_are_read_by_position() {
    let mut prog = machine_program(&[IRNode::GlobalReadPush64(16), IRNode::GlobalReadLoad64ToStack(8, 0)]);
    prog.add_global(GlobalInfo::new(0, "n", false, CTimeVal::UInt(9), true));
    prog.add_global(GlobalInfo::new(8, "s", false, CTimeVal::StringSlice(4, 2), true));
    prog.add_global(GlobalInfo::new(
        24,
        "f",
        false,
        CTimeVal::Function { address: 1, return_type_val: TypeVal::UInt64 },
        true,
    ));
    prog.add_global(GlobalInfo::new(32, "t", false, CTimeVal::Type(TypeVal::UInt64), true));
    assert_eq!(global_word(&prog, 0), Some(Word::Num(9)));
    assert_eq!(global_word(&prog, 8), Some(Word::Text(4)));
    assert_eq!(global_word(&prog, 16), Some(Word::Num(2)));
    assert_eq!(global_word(&prog, 24), Some(Word::Code(1)));
    assert_eq!(global_word(&prog, 32), None);
    assert_eq!(global_word(&prog, 4), None);
    let mut runner = Runner::new(0, vec![]);
    assert_eq!(runner.run(&prog, 10), 2);
    assert_eq!(runner.stack, vec![Word::Text(4)]);
}

#[test]
fn external_call_is_recorded_with_the_stack_it_finds() {
    let prog = machine_program(&[
        IRNode::Push64(2),
        IRNode::PushAddressFromOffset(0),
        IRNode::PushStaticStringPointer(0),
        IRNode::ExternalReadPush64(PRINT),
        IRNode::Call,
    ]);
    let (output, left, finished) = outcome(&prog, 0, vec![]);
    assert_eq!(
        output,
        vec![CallRecord { callee: PRINT, stack: vec![Word::Text(0), Word::Junk, Word::Num(2)] }]
    );
    assert_eq!(left, vec![Word::Text(0), Word::Code(1), Word::Num(2)]);
    assert!(finished);
}

#[test]
fn call_pushes_the_way_back_and_return_takes_it() {
    let prog = machine_program(&[
        IRNode::JumpFromOffset(4),
        IRNode::Push64(42),
        IRNode::Pop64ToStack(16),
        END,
        IRNode::StackAlloc(8),
        IRNode::PushAddressFromOffset(-4),
        IRNode::Call,
        IRNode::ExternalReadPush64(PRINT),
        IRNode::Call,
    ]);
    let mut runner = Runner::new(0, vec![]);
    assert_eq!(runner.run(&prog, 4), 4);
    assert_eq!(runner.pc, 1);
    assert_eq!(runner.stack, vec![Word::Code(7), Word::Junk]);
    assert_eq!(runner.run(&prog, 3), 3);
    assert_eq!(runner.pc, 7);
    assert_eq!(runner.stack, vec![Word::Num(42)]);
    assert_eq!(runner.run(&prog, 10), 2);
    assert!(runner.is_finished(&prog));
    assert_eq!(runner.output, vec![CallRecord { callee: PRINT, stack: vec![Word::Num(42)] }]);
}

#[test]
fn return_to_the_outside_ends_the_run() {
    let prog = machine_program(&[IRNode::Push64(1), IRNode::Pop64ToStack(16), END, IRNode::Push64(2)]);
    let (output, left, finished) = outcome(&prog, 0, vec![Word::Outside(PRINT), Word::Junk]);
    assert!(output.is_empty());
    assert_eq!(left, vec![Word::Outside(PRINT), Word::Num(1)]);
    assert!(finished);
}

#[test]
fn optimization_keeps_the_output_of_a_settled_program() {
    let prog = machine_program(&[
        IRNode::JumpFromOffset(4),
        IRNode::Push64(42),
        IRNode::Pop64ToStack(16),
        END,
        IRNode::StackAlloc(8),
        IRNode::StackAlloc(0),
        IRNode::PushAddressFromOffset(-5),
        IRNode::Call,
        IRNode::Push64(9),
        IRNode::StackDealloc(8),
        IRNode::ExternalReadPush64(PRINT),
        IRNode::Call,
    ]);
    assert!(is_settled(&prog));
    let (output, left, finished) = outcome(&prog, 0, vec![]);
    assert_eq!(output, vec![CallRecord { callee: PRINT, stack: vec![Word::Num(42)] }]);
    assert!(finished);
    let (shows, after_finished, after_settled) =
        optimized_shows(prog.clone(), 0, None, vec![], &output, &left);
    assert!(shows);
    assert!(after_finished);
    assert!(after_settled);
    let mut shorter = prog;
    let mut optimizer = IROptimizer::new(&mut shorter);
    assert_eq!(
        optimizer.optimize().ir_iter().copied().collect::<Vec<_>>(),
        vec![
            IRNode::JumpFromOffset(4),
            IRNode::Push64(42),
            IRNode::Pop64ToStack(16),
            END,
            IRNode::StackAlloc(8),
            IRNode::CallFromOffset(-4),
            IRNode::ExternalReadPush64(PRINT),
            IRNode::Call,
        ]
    );
}

#[test]
fn optimization_keeps_the_output_from_each_function_of_a_global() {
    let mut prog = machine_program(&[
        IRNode::Push64(1),
        IRNode::Pop64ToStack(16),
        END,
        IRNode::StackAlloc(8),
        IRNode::GlobalReadPush64(0),
        IRNode::Call,
        IRNode::ExternalReadPush64(PRINT),
        IRNode::Call,
        IRNode::StackDealloc(8),
        IRNode::Push64(2),
        IRNode::Pop64ToStack(16),
        END,
    ]);
    let unsigned = TypeVal::UInt64;
    prog.add_global(GlobalInfo::new(
        0,
        "one",
        false,
        CTimeVal::Function { address: 0, return_type_val: unsigned.clone() },
        true,
    ));
    prog.add_global(GlobalInfo::new(
        8,
        "main",
        true,
        CTimeVal::Function { address: 3, return_type_val: unsigned },
        true,
    ));
    assert!(is_settled(&prog));
    let stack = vec![Word::Outside(PRINT), Word::Junk];
    let (output, left, finished) = outcome(&prog, 3, stack.clone());
    assert_eq!(output, vec![CallRecord { callee: PRINT, stack: vec![Word::Num(1), Word::Outside(PRINT), Word::Junk] }]);
    assert_eq!(left, vec![Word::Outside(PRINT), Word::Num(2)]);
    assert!(finished);
    let (shows, after_finished, _) = optimized_shows(prog, 0, Some(1), stack, &output, &left);
    assert!(shows);
    assert!(after_finished);
}

#[test]
fn released_slots_that_come_back_may_show_what_they_held() {
    let prog = machine_program(&[
        IRNode::StackDealloc(16),
        IRNode::StackAlloc(8),
        IRNode::ExternalReadPush64(PRINT),
        IRNode::Call,
    ]);
    let stack = vec![Word::Num(1), Word::Num(2), Word::Num(3)];
    let (output, _, finished) = outcome(&prog, 0, stack.clone());
    assert_eq!(output, vec![CallRecord { callee: PRINT, stack: vec![Word::Junk, Word::Num(3)] }]);
    assert!(finished);
    let (after_output, after_finished) = optimized_text(prog, 0, stack);
    assert_eq!(
        after_output,
        format!("{:?}", vec![CallRecord { callee: PRINT, stack: vec![Word::Num(2), Word::Num(3)] }])
    );
    assert!(after_finished);
}

#[test]
fn fused_call_of_the_instruction_before_it_is_not_kept() {
    let prog = machine_program(&[
        END,
        IRNode::PushAddressFromOffset(-1),
        IRNode::Call,
        IRNode::ExternalReadPush64(PRINT),
        IRNode::Call,
    ]);
    assert!(!is_settled(&prog));
    let (output, _, finished) = outcome(&prog, 1, vec![]);
    assert_eq!(output.len(), 1);
    assert!(finished);
    let (after_output, after_finished) = optimized_text(prog, 1, vec![]);
    assert_eq!(after_output, "[]");
    assert!(!after_finished);
}

#[test]
fn a_program_is_settled_by_its_returns_and_function_starts() {
    assert!(is_settled(&machine_program(&[])));
    assert!(is_settled(&machine_program(&[IRNode::Push64(1), END, IRNode::PushAddressFromOffset(-2)])));
    assert!(!is_settled(&machine_program(&[END, IRNode::PushAddressFromOffset(-1)])));
    assert!(!is_settled(&machine_program(&[IRNode::PushAddressFromOffset(1), END, END])));
    assert!(!is_settled(&machine_program(&[IRNode::Push64(1), IRNode::Call, IRNode::PushAddressFromOffset(-2)])));
    let function_at = |address: usize| CTimeVal::Function { address, return_type_val: TypeVal::UInt64 };
    for (address, settled) in [(0, true), (1, false), (2, true), (3, true), (4, true), (5, false)] {
        let mut prog = machine_program(&[
            IRNode::Push64(1),
            END,
            IRNode::JumpFromOffset(1),
            IRNode::CallFromOffset(-3),
        ]);
        prog.add_global(GlobalInfo::new(0, "n", false, CTimeVal::UInt(1), true));
        prog.add_global(GlobalInfo::new(8, "f", false, function_at(address), true));
        assert_eq!(is_settled(&prog), settled, "{address}");
    }
}

#[test]
fn optimization_keeps_the_output_of_a_generated_program() {
    // { let f = () { 7 }; print(f()); print(f()); }
    let f = Expr::Function(Box::new(Expr::Block(vec![], Some(Box::new(Expr::IntLit(7))))));
    let call_f = || Expr::Call(Box::new(Expr::Variable("f")), vec![]);
    let print = |arg: Expr<'static>| {
        Stmt::Expr(Expr::Call(Box::new(Expr::Variable("print")), vec![arg]), false)
    };
    let ast = vec![Stmt::Expr(
        Expr::Block(
            vec![Stmt::ConstDecl("f", Some(f), None, false), print(call_f()), print(call_f())],
            None,
        ),
        false,
    )];
    let mut gen = IRGen::new();
    let prog = gen.generate(&ast).unwrap().clone();
    assert!(is_settled(&prog));
    let (output, left, finished) = outcome(&prog, 0, vec![]);
    assert_eq!(output.len(), 2);
    assert_eq!(output[0].callee, PRINT);
    assert_eq!(output[0].stack.first(), Some(&Word::Num(7)));
    assert!(finished);
    let before = prog.count_ir();
    let (shows, after_finished, after_settled) =
        optimized_shows(prog, 0, None, vec![], &output, &left);
    assert!(shows);
    assert!(after_finished);
    assert!(after_settled);
    assert!(before > 0);
}

#[test]
fn optimization_keeps_the_output_of_a_program_of_functions() {
    // package demo; let noisy = () { print(); 7 }; let main = () { print(); noisy(); noisy() };
    let call = |name: &'static str| Expr::Call(Box::new(Expr::Variable(name)), vec![]);
    let function = |body: Vec<Stmt<'static>>, tail: Expr<'static>| {
        Expr::Function(Box::new(Expr::Block(body, Some(Box::new(tail)))))
    };
    let ast = vec![
        Stmt::PackageDecl("demo"),
        Stmt::ConstDecl(
            "noisy",
            Some(function(vec![Stmt::Expr(call("print"), false)], Expr::IntLit(7))),
            None,
            false,
        ),
        Stmt::ConstDecl(
            "main",
            Some(function(
                vec![Stmt::Expr(call("print"), false), Stmt::Expr(call("noisy"), false)],
                call("noisy"),
            )),
            None,
            true,
        ),
    ];
    let mut gen = IRGen::new();
    let prog = gen.generate(&ast).unwrap().clone();
    assert!(is_settled(&prog));
    let main = match prog.global_at(1).init {
        CTimeVal::Function { address, .. } => address,
        _ => panic!("not a function"),
    };
    let stack = vec![Word::Outside(PRINT), Word::Junk];
    let (output, left, finished) = outcome(&prog, main, stack.clone());
    assert_eq!(output.len(), 3);
    assert_eq!(left, vec![Word::Outside(PRINT), Word::Num(7)]);
    assert!(finished);
    let before = prog.count_ir();
    let (shows, after_finished, after_settled) =
        optimized_shows(prog, 0, Some(1), stack, &output, &left);
    assert!(shows);
    assert!(after_finished);
    assert!(after_settled);
    assert!(before > 0);
}

fn lowered_program<'a>(ast: &Vec<Stmt<'a>>) -> CompiledProgram<'a> {
    let mut gen = IRGen::new();
    gen.generate(ast).unwrap().clone()
}

#[test]
fn statements_behind_the_functions_leave_the_program_settled() {
    // let f = () { 7 }; f(); print(); let g = f;
    let call = |name: &'static str| Expr::Call(Box::new(Expr::Variable(name)), vec![]);
    let seven = Expr::Function(Box::new(Expr::Block(vec![], Some(Box::new(Expr::IntLit(7))))));
    let ast = vec![
        Stmt::ConstDecl("f", Some(seven), None, false),
        Stmt::Expr(call("f"), false),
        Stmt::Expr(call("print"), false),
        Stmt::ConstDecl("g", Some(Expr::Variable("f")), None, false),
    ];
    let prog = lowered_program(&ast);
    assert!(is_settled(&prog));
    let (output, left, finished) = outcome(&prog, 0, vec![Word::Outside(PRINT), Word::Junk]);
    let (shows, after_finished, after_settled) = optimized_shows(
        prog,
        0,
        None,
        vec![Word::Outside(PRINT), Word::Junk],
        &output,
        &left,
    );
    assert!(shows);
    assert_eq!(after_finished, finished);
    assert!(after_settled);
}

#[test]
fn function_behind_a_statement_does_not_stand_apart() {
    // print(); let f = () { 7 };
    let seven = Expr::Function(Box::new(Expr::Block(vec![], Some(Box::new(Expr::IntLit(7))))));
    let ast = vec![
        Stmt::Expr(Expr::Call(Box::new(Expr::Variable("print")), vec![]), false),
        Stmt::ConstDecl("f", Some(seven), None, false),
    ];
    let prog = lowered_program(&ast);
    assert!(!is_settled(&prog));
}
