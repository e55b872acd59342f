use furn::ir_gen::ctimeval::CTimeVal;
use furn::ir_gen::error::CompileError;
use furn::ir_gen::external::ExternalInfo;
use furn::ir_gen::global::GlobalInfo;
use furn::ir_gen::ir::IRNode;
use furn::ir_gen::ir_gen::IRGen;
use furn::ir_gen::ir_optimizer::IROptimizer;
use furn::ir_gen::typeval::TypeVal;
use furn::parser::ast::{Expr, Stmt};

const PRINT: ExternalInfo = ExternalInfo { name: "print", package_name: "rt", is_const: true };
const END: IRNode = IRNode::Return { params_size: 0 };

fn lowered<'a>(ast: &Vec<Stmt<'a>>) -> Result<Vec<IRNode<'a>>, CompileError> {
    let mut gen = IRGen::new();
    let prog = gen.generate(ast)?;
    Ok(prog.ir_iter().copied().collect())
}

fn block<'a>(body: Vec<Stmt<'a>>, tail: Option<Expr<'a>>) -> Expr<'a> {
    Expr::Block(body, tail.map(Box::new))
}

fn function<'a>(body: Expr<'a>) -> Expr<'a> {
    Expr::Function(Box::new(body))
}

fn call<'a>(callee: Expr<'a>, args: Vec<Expr<'a>>) -> Expr<'a> {
    Expr::Call(Box::new(callee), args)
}

fn constant<'a>(name: &'a str, init: Expr<'a>) -> Stmt<'a> {
    Stmt::ConstDecl(name, Some(init), None, false)
}

fn variable<'a>(name: &'a str, init: Expr<'a>) -> Stmt<'a> {
    Stmt::VarDecl(name, Some(init), None, false)
}

fn statement<'a>(expr: Expr<'a>) -> Stmt<'a> {
    Stmt::Expr(expr, false)
}

#[test]
fn empty_program_knows_print() {
    let ast = vec![];
    let mut gen = IRGen::new();
    let prog = gen.generate(&ast).unwrap();
    assert_eq!(prog.count_ir(), 0);
    assert_eq!(prog.externals_iter().copied().collect::<Vec<_>>(), vec![PRINT]);
    assert_eq!(prog.global_count(), 0);
}

#[test]
fn exported_constant_becomes_a_global() {
    let ast = vec![Stmt::PackageDecl("demo"), Stmt::ConstDecl("x", Some(Expr::IntLit(7)), None, true)];
    let mut gen = IRGen::new();
    let prog = gen.generate(&ast).unwrap();
    assert_eq!(prog.get_package_name(), Some("demo"));
    assert_eq!(prog.count_ir(), 0);
    let globals: Vec<GlobalInfo> = prog.globals_iter().cloned().collect();
    assert_eq!(
        globals,
        vec![GlobalInfo { pos: 0, name: "x", is_exported: true, init: CTimeVal::UInt(7), is_const: true }]
    );
}

#[test]
fn globals_take_room_by_their_type() {
    let ast = vec![
        constant("s", Expr::StringLit("hi")),
        variable("n", Expr::IntLit(1)),
        Stmt::ConstDecl("t", Some(Expr::IntLit(2)), Some(Expr::TypeString), false),
        constant("m", Expr::IntLit(3)),
    ];
    let mut gen = IRGen::new();
    let prog = gen.generate(&ast).unwrap();
    let globals: Vec<GlobalInfo> = prog.globals_iter().cloned().collect();
    assert_eq!(
        globals,
        vec![
            GlobalInfo {
                pos: 0,
                name: "s",
                is_exported: false,
                init: CTimeVal::StringSlice(0, 2),
                is_const: true
            },
            GlobalInfo { pos: 16, name: "n", is_exported: false, init: CTimeVal::UInt(1), is_const: false },
            GlobalInfo { pos: 24, name: "t", is_exported: false, init: CTimeVal::UInt(2), is_const: true },
            GlobalInfo { pos: 40, name: "m", is_exported: false, init: CTimeVal::UInt(3), is_const: true },
        ]
    );
}

#[test]
fn global_function_is_lowered_where_it_is_declared() {
    let ast = vec![constant("f", function(block(vec![], Some(Expr::IntLit(42)))))];
    let mut gen = IRGen::new();
    let prog = gen.generate(&ast).unwrap();
    let ir: Vec<IRNode> = prog.ir_iter().copied().collect();
    assert_eq!(
        ir,
        vec![
            IRNode::StackAlloc(8),
            IRNode::Push64(42),
            IRNode::Pop64ToStack(8),
            IRNode::StackDealloc(0),
            IRNode::Pop64ToStack(16),
            END,
        ]
    );
    let globals: Vec<GlobalInfo> = prog.globals_iter().cloned().collect();
    assert_eq!(
        globals,
        vec![GlobalInfo {
            pos: 0,
            name: "f",
            is_exported: false,
            init: CTimeVal::Function { address: 0, return_type_val: TypeVal::UInt64 },
            is_const: true
        }]
    );
}

#[test]
fn global_function_after_first_pass_starts_at_its_push() {
    let ast = vec![constant("f", function(block(vec![], Some(Expr::IntLit(42)))))];
    let mut gen = IRGen::new();
    let prog = gen.generate(&ast).unwrap();
    let mut optimizer = IROptimizer::new(prog);
    assert_eq!(optimizer.do_pass(), 2);
    assert_eq!(optimizer.do_pass(), 2);
    let after = optimizer.optimize();
    let ir: Vec<IRNode> = after.ir_iter().copied().collect();
    assert_eq!(ir, vec![IRNode::Load64ToStack(42, 8), END]);
    assert_eq!(
        after.first_global().unwrap().init,
        CTimeVal::Function { address: 0, return_type_val: TypeVal::UInt64 }
    );
}

#[test]
fn expression_statement_gives_its_value_back() {
    assert_eq!(
        lowered(&vec![statement(Expr::IntLit(5))]),
        Ok(vec![IRNode::Push64(5), IRNode::StackDealloc(8)])
    );
    assert_eq!(
        lowered(&vec![statement(Expr::StringLit("hi"))]),
        Ok(vec![IRNode::PushStaticStringPointer(0), IRNode::Push64(2), IRNode::StackDealloc(16)])
    );
}

#[test]
fn print_call_is_indirect() {
    let ast = vec![statement(call(Expr::Variable("print"), vec![Expr::StringLit("hi")]))];
    let mut gen = IRGen::new();
    let prog = gen.generate(&ast).unwrap();
    let ir: Vec<IRNode> = prog.ir_iter().copied().collect();
    let expected = vec![
        IRNode::StackAlloc(0),
        IRNode::PushStaticStringPointer(0),
        IRNode::Push64(2),
        IRNode::ExternalReadPush64(PRINT),
        IRNode::Call,
    ];
    assert_eq!(ir, expected);
    assert_eq!(prog.static_strings_iter().copied().collect::<Vec<_>>(), vec![("hi", 0)]);
    let mut optimizer = IROptimizer::new(prog);
    let after: Vec<IRNode> = optimizer.optimize().ir_iter().copied().collect();
    assert_eq!(after, expected[1..].to_vec());
}

#[test]
fn same_literal_is_interned_once() {
    let ast = vec![
        statement(Expr::StringLit("ab")),
        statement(Expr::StringLit("cde")),
        statement(Expr::StringLit("ab")),
    ];
    let mut gen = IRGen::new();
    let prog = gen.generate(&ast).unwrap();
    assert_eq!(
        prog.static_strings_iter().copied().collect::<Vec<_>>(),
        vec![("ab", 0), ("cde", 2)]
    );
    assert_eq!(*prog.node_at(0), IRNode::PushStaticStringPointer(0));
    assert_eq!(*prog.node_at(3), IRNode::PushStaticStringPointer(2));
    assert_eq!(*prog.node_at(6), IRNode::PushStaticStringPointer(0));
}

#[test]
fn globals_are_read_by_their_position() {
    let ast = vec![
        variable("a", Expr::IntLit(1)),
        variable("s", Expr::StringLit("xy")),
        statement(Expr::Variable("a")),
        statement(Expr::Variable("s")),
    ];
    assert_eq!(
        lowered(&ast),
        Ok(vec![
            IRNode::GlobalReadPush64(0),
            IRNode::StackDealloc(8),
            IRNode::GlobalReadPush64(8),
            IRNode::GlobalReadPush64(16),
            IRNode::StackDealloc(16),
        ])
    );
}

#[test]
fn constants_are_expanded_where_they_are_used() {
    let ast = vec![
        constant("a", Expr::IntLit(9)),
        constant("s", Expr::StringLit("xyz")),
        statement(Expr::Variable("a")),
        statement(Expr::Variable("s")),
    ];
    assert_eq!(
        lowered(&ast),
        Ok(vec![
            IRNode::Push64(9),
            IRNode::StackDealloc(8),
            IRNode::PushStaticStringPointer(0),
            IRNode::Push64(3),
            IRNode::StackDealloc(16),
        ])
    );
}

#[test]
fn block_with_constants_yields_its_tail() {
    // { let a = 1; let b = 2; a } as a statement
    let ast = vec![statement(block(
        vec![constant("a", Expr::IntLit(1)), constant("b", Expr::IntLit(2))],
        Some(Expr::Variable("a")),
    ))];
    let mut gen = IRGen::new();
    let prog = gen.generate(&ast).unwrap();
    let ir: Vec<IRNode> = prog.ir_iter().copied().collect();
    assert_eq!(
        ir,
        vec![
            IRNode::StackAlloc(8),
            IRNode::Push64(1),
            IRNode::Pop64ToStack(8),
            IRNode::StackDealloc(0),
            IRNode::StackDealloc(8),
        ]
    );
    let mut optimizer = IROptimizer::new(prog);
    assert_eq!(optimizer.do_pass(), 2);
    let after: Vec<IRNode> = optimizer.optimize().ir_iter().copied().collect();
    // the value is never used, so nothing of the statement is left
    assert_eq!(after, vec![]);
}

#[test]
fn local_initialized_by_a_block_of_constants() {
    // { var x = { let a = 1; let b = 2; a }; }
    let inner = block(
        vec![constant("a", Expr::IntLit(1)), constant("b", Expr::IntLit(2))],
        Some(Expr::Variable("a")),
    );
    let ast = vec![statement(block(vec![variable("x", inner)], None))];
    let mut gen = IRGen::new();
    {
        let prog = gen.generate(&ast).unwrap();
        let ir: Vec<IRNode> = prog.ir_iter().copied().collect();
        assert_eq!(
            ir,
            vec![
                IRNode::StackAlloc(0),
                IRNode::StackAlloc(8),
                IRNode::Push64(1),
                IRNode::Pop64ToStack(8),
                IRNode::StackDealloc(0),
                IRNode::StackDealloc(8),
            ]
        );
        let mut optimizer = IROptimizer::new(prog);
        assert_eq!(optimizer.do_pass(), 3);
        let after_one: Vec<IRNode> = optimizer.optimize().ir_iter().copied().collect();
        assert_eq!(after_one, vec![]);
    }
}

#[test]
fn local_initialized_by_a_block_reduces_to_one_push() {
    // { var x = { let a = 1; let b = 2; a }; print(x); }
    let inner = block(
        vec![constant("a", Expr::IntLit(1)), constant("b", Expr::IntLit(2))],
        Some(Expr::Variable("a")),
    );
    let ast = vec![statement(block(
        vec![
            variable("x", inner),
            statement(call(Expr::Variable("print"), vec![Expr::Variable("x")])),
        ],
        None,
    ))];
    let mut gen = IRGen::new();
    let prog = gen.generate(&ast).unwrap();
    let mut optimizer = IROptimizer::new(prog);
    let after: Vec<IRNode> = optimizer.optimize().ir_iter().copied().collect();
    assert_eq!(
        after,
        vec![
            IRNode::Push64(1),
            IRNode::StackReadPush64(0),
            IRNode::ExternalReadPush64(PRINT),
            IRNode::Call,
            IRNode::StackDealloc(8),
        ]
    );
}

#[test]
fn block_with_locals_moves_its_tail_below_them() {
    // { var a = 1; var b = 2; a }
    let ast = vec![statement(block(
        vec![variable("a", Expr::IntLit(1)), variable("b", Expr::IntLit(2))],
        Some(Expr::Variable("a")),
    ))];
    assert_eq!(
        lowered(&ast),
        Ok(vec![
            IRNode::StackAlloc(8),
            IRNode::Push64(1),
            IRNode::Push64(2),
            IRNode::StackReadPush64(8),
            IRNode::Pop64ToStack(24),
            IRNode::StackDealloc(16),
            IRNode::StackDealloc(8),
        ])
    );
}

#[test]
fn uninitialized_local_is_allocated() {
    let ast = vec![statement(block(vec![Stmt::VarDecl("a", None, None, false)], None))];
    assert_eq!(
        lowered(&ast),
        Ok(vec![IRNode::StackAlloc(0), IRNode::StackAlloc(8), IRNode::StackDealloc(8)])
    );
    let ast = vec![statement(block(
        vec![Stmt::VarDecl("s", None, Some(Expr::TypeString), false)],
        None,
    ))];
    assert_eq!(
        lowered(&ast),
        Ok(vec![IRNode::StackAlloc(0), IRNode::StackAlloc(16), IRNode::StackDealloc(16)])
    );
}

#[test]
fn local_string_is_read_with_two_pushes() {
    let ast = vec![statement(block(
        vec![variable("s", Expr::StringLit("ab")), statement(Expr::Variable("s"))],
        None,
    ))];
    assert_eq!(
        lowered(&ast),
        Ok(vec![
            IRNode::StackAlloc(0),
            IRNode::PushStaticStringPointer(0),
            IRNode::Push64(2),
            IRNode::StackReadPush64(8),
            IRNode::StackReadPush64(8),
            IRNode::StackDealloc(16),
            IRNode::StackDealloc(16),
        ])
    );
}

#[test]
fn local_function_is_jumped_over_and_called_by_offset() {
    // { let f = () { 42 }; f(); }
    let ast = vec![statement(block(
        vec![
            constant("f", function(block(vec![], Some(Expr::IntLit(42))))),
            statement(call(Expr::Variable("f"), vec![])),
        ],
        None,
    ))];
    assert_eq!(
        lowered(&ast),
        Ok(vec![
            IRNode::StackAlloc(0),
            IRNode::JumpFromOffset(7),
            IRNode::StackAlloc(8),
            IRNode::Push64(42),
            IRNode::Pop64ToStack(8),
            IRNode::StackDealloc(0),
            IRNode::Pop64ToStack(16),
            END,
            IRNode::StackAlloc(8),
            IRNode::PushAddressFromOffset(-7),
            IRNode::Call,
            IRNode::StackDealloc(8),
            IRNode::StackDealloc(0),
        ])
    );
}

#[test]
fn stack_is_balanced_after_every_statement() {
    let ast = vec![
        statement(Expr::IntLit(1)),
        statement(block(vec![variable("a", Expr::IntLit(1))], Some(Expr::Variable("a")))),
        constant("f", function(block(vec![], Some(Expr::IntLit(42))))),
        statement(call(Expr::Variable("f"), vec![Expr::IntLit(3)])),
        statement(call(Expr::Variable("print"), vec![Expr::StringLit("x")])),
    ];
    let mut gen = IRGen::new();
    assert!(gen.generate(&ast).is_ok());
    assert_eq!(gen.stack_size(), 0);
}

#[test]
fn global_without_initializer_is_refused() {
    for ast in [
        vec![Stmt::VarDecl("x", None, None, false)],
        vec![Stmt::ConstDecl("x", None, None, false)],
        vec![Stmt::VarDecl("x", None, Some(Expr::TypeString), false)],
    ] {
        let mut gen = IRGen::new();
        assert_eq!(gen.generate(&ast).err(), Some(CompileError::GlobalNotConstant));
        assert_eq!(gen.stack_size(), 0);
        assert_eq!(gen.global_size(), 0);
    }
}

#[test]
fn function_leaves_the_stack_behind_it_as_it_was() {
    // let s = () { "ab" }; let t = () { s() };
    // inside `t` the call leaves the sixteen bytes of the string where eight were counted
    // for; behind `t` the stack is what it was
    let ast = vec![
        constant("s", function(block(vec![], Some(Expr::StringLit("ab"))))),
        constant("t", function(block(vec![], Some(call(Expr::Variable("s"), vec![]))))),
    ];
    let mut gen = IRGen::new();
    assert!(gen.generate(&ast).is_ok());
    assert_eq!(gen.stack_size(), 0);
}

#[test]
fn duplicate_package_is_refused() {
    let ast = vec![Stmt::PackageDecl("a"), Stmt::PackageDecl("b")];
    assert_eq!(lowered(&ast), Err(CompileError::DuplicatePackage));
}

#[test]
fn export_needs_a_package() {
    let ast = vec![Stmt::ConstDecl("x", Some(Expr::IntLit(7)), None, true)];
    assert_eq!(lowered(&ast), Err(CompileError::ExportWithoutPackage));
    let ast = vec![Stmt::ConstDecl("main", Some(Expr::IntLit(7)), None, true)];
    assert_eq!(lowered(&ast), Ok(vec![]));
    let ast = vec![Stmt::ConstDecl("x", Some(Expr::IntLit(7)), None, true), Stmt::PackageDecl("late")];
    assert_eq!(lowered(&ast), Ok(vec![]));
}

#[test]
fn export_inside_a_block_is_refused() {
    let ast = vec![statement(block(
        vec![Stmt::ConstDecl("x", Some(Expr::IntLit(7)), None, true)],
        None,
    ))];
    assert_eq!(lowered(&ast), Err(CompileError::ExportScope));
}

#[test]
fn global_needs_a_constant() {
    let ast = vec![constant("x", call(Expr::Variable("print"), vec![]))];
    assert_eq!(lowered(&ast), Err(CompileError::GlobalNotConstant));
    let ast = vec![constant("x", Expr::Variable("nowhere"))];
    assert_eq!(lowered(&ast), Err(CompileError::GlobalNotConstant));
}

#[test]
fn export_needs_an_initializer() {
    let ast = vec![Stmt::PackageDecl("p"), Stmt::VarDecl("x", None, None, true)];
    assert_eq!(lowered(&ast), Err(CompileError::ExportNotInitialized));
}

#[test]
fn unknown_name_is_refused() {
    assert_eq!(lowered(&vec![statement(Expr::Variable("x"))]), Err(CompileError::UnknownName));
}

#[test]
fn only_functions_are_called() {
    let ast = vec![constant("n", Expr::IntLit(1)), statement(call(Expr::Variable("n"), vec![]))];
    assert_eq!(lowered(&ast), Err(CompileError::NonCallable));
}

#[test]
fn types_are_no_values() {
    assert_eq!(lowered(&vec![statement(Expr::TypeUInt64)]), Err(CompileError::TypeAsValue));
    assert_eq!(lowered(&vec![statement(Expr::TypeString)]), Err(CompileError::TypeAsValue));
    let ast = vec![constant("t", Expr::TypeUInt64), statement(Expr::Variable("t"))];
    assert_eq!(lowered(&ast), Err(CompileError::TypeAsValue));
}

#[test]
fn function_literal_is_no_value() {
    let ast = vec![statement(function(Expr::IntLit(1)))];
    assert_eq!(lowered(&ast), Err(CompileError::FunctionNotInlined));
}

#[test]
fn function_without_value_unbalances_the_stack() {
    let ast = vec![constant("f", function(block(vec![], None)))];
    assert_eq!(lowered(&ast), Err(CompileError::StackImbalance));
}

fn references_stay_inside(ir: &[IRNode]) -> bool {
    ir.iter().enumerate().all(|(i, node)| match node {
        IRNode::CallFromOffset(k) | IRNode::JumpFromOffset(k) | IRNode::PushAddressFromOffset(k) => {
            let target = i as i64 + *k as i64;
            0 <= target && target < ir.len() as i64
        }
        _ => true,
    })
}

#[test]
fn references_of_generated_programs_name_instructions() {
    // { let f = () { 1 }; let y = { var a = 2; var b = 3; a }; f(); }
    let ast = vec![
        statement(block(
            vec![
                constant("f", function(block(vec![], Some(Expr::IntLit(1))))),
                variable(
                    "y",
                    block(
                        vec![variable("a", Expr::IntLit(2)), variable("b", Expr::IntLit(3))],
                        Some(Expr::Variable("a")),
                    ),
                ),
                statement(call(Expr::Variable("f"), vec![])),
            ],
            None,
        )),
        constant("g", function(Expr::IntLit(5))),
        statement(call(Expr::Variable("g"), vec![Expr::IntLit(1)])),
    ];
    let mut gen = IRGen::new();
    let prog = gen.generate(&ast).unwrap();
    let before: Vec<IRNode> = prog.ir_iter().copied().collect();
    assert!(references_stay_inside(&before));
    assert_eq!(before[1], IRNode::JumpFromOffset(7));
    let mut optimizer = IROptimizer::new(prog);
    let after: Vec<IRNode> = optimizer.optimize().ir_iter().copied().collect();
    assert!(references_stay_inside(&after));
    assert!(after.len() < before.len());
}

#[test]
fn function_of_a_block_is_not_known_outside_it() {
    // let g = { let f = () { 1 }; f };
    let inner = || {
        block(
            vec![constant("f", function(block(vec![], Some(Expr::IntLit(1)))))],
            Some(Expr::Variable("f")),
        )
    };
    let mut gen = IRGen::new();
    assert_eq!(
        gen.generate(&vec![constant("g", inner())]).err(),
        Some(CompileError::GlobalNotConstant)
    );
    // { let g = { let f = () { 1 }; f }; g(); }: the function is lowered with the block, and
    // `g` holds its address on the stack
    let ast = vec![statement(block(
        vec![constant("g", inner()), statement(call(Expr::Variable("g"), vec![]))],
        None,
    ))];
    let ir = lowered(&ast).unwrap();
    assert!(references_stay_inside(&ir));
    assert!(ir.iter().filter(|n| matches!(n, IRNode::PushAddressFromOffset(_))).count() == 1);
    assert!(ir.contains(&IRNode::Call));
}

#[test]
fn function_known_before_a_block_stays_known_behind_it() {
    // let f = () { 1 }; let g = { let a = 2; f };
    let ast = vec![
        constant("f", function(block(vec![], Some(Expr::IntLit(1))))),
        constant(
            "g",
            block(vec![constant("a", Expr::IntLit(2))], Some(Expr::Variable("f"))),
        ),
    ];
    let mut gen = IRGen::new();
    let prog = gen.generate(&ast).unwrap();
    let inits: Vec<CTimeVal> = prog.globals_iter().map(|g| g.init.clone()).collect();
    assert_eq!(inits.len(), 2);
    assert_eq!(inits[0], inits[1]);
    assert!(matches!(inits[0], CTimeVal::Function { address: 0, .. }));
}

#[test]
fn balanced_program_leaves_the_stack_empty() {
    // let f = () { var a = 1; var s = "xy"; { var b = a; b } };
    // let n = 3;
    // var t = "text";
    // { var c = n; let g = () { c }; g(); c };
    // f();
    let ast = vec![
        constant(
            "f",
            function(block(
                vec![variable("a", Expr::IntLit(1)), variable("s", Expr::StringLit("xy"))],
                Some(block(vec![variable("b", Expr::Variable("a"))], Some(Expr::Variable("b")))),
            )),
        ),
        constant("n", Expr::IntLit(3)),
        variable("t", Expr::StringLit("text")),
        statement(block(
            vec![
                variable("c", Expr::Variable("n")),
                constant("g", function(Expr::Variable("c"))),
                statement(call(Expr::Variable("g"), vec![])),
            ],
            Some(Expr::Variable("c")),
        )),
        statement(call(Expr::Variable("f"), vec![])),
    ];
    let mut gen = IRGen::new();
    let prog = gen.generate(&ast).unwrap();
    let ir: Vec<IRNode> = prog.ir_iter().copied().collect();
    assert!(references_stay_inside(&ir));
    let starts: Vec<bool> = prog
        .globals_iter()
        .map(|g| match &g.init {
            CTimeVal::Function { address, .. } => *address < ir.len(),
            _ => true,
        })
        .collect();
    assert_eq!(starts, vec![true, true, true]);
    assert_eq!(gen.stack_size(), 0);
    assert_eq!(gen.global_size(), 8 + 8 + 16);
}

#[test]
fn function_too_long_to_jump_over_is_refused() {
    // { let f = () { 1; 1; ...; 1 }; }
    let long = |count: usize| {
        let body: Vec<Stmt> = (0..count).map(|_| statement(Expr::IntLit(1))).collect();
        vec![statement(block(
            vec![constant("f", function(block(body, Some(Expr::IntLit(1)))))],
            None,
        ))]
    };
    assert!(lowered(&long(100)).is_ok());
    assert_eq!(lowered(&long(17_000)), Err(CompileError::LimitExceeded));
}
