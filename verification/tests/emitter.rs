use furn::ir_gen::ctimeval::CTimeVal;
use furn::ir_gen::external::ExternalInfo;
use furn::ir_gen::global::GlobalInfo;
use furn::ir_gen::ir::IRNode;
use furn::ir_gen::ir_gen::IRGen;
use furn::ir_gen::ir_optimizer::IROptimizer;
use furn::ir_gen::program::CompiledProgram;
use furn::ir_gen::typeval::TypeVal;
use furn::outputs::asm_x86_64::{gen_asm_x86_64_from_ir, EmitError};
use furn::parser::ast::{Expr, Stmt};
use furn::text::{append_decimal, append_signed_decimal, str_eq};

fn text_of_nodes(ir: &[IRNode]) -> String {
    let mut prog = CompiledProgram::new();
    for node in ir {
        prog.app_node(*node);
    }
    gen_asm_x86_64_from_ir(&prog).unwrap()
}

#[test]
fn decimal_numbers() {
    let cases: [(u128, &str); 7] = [
        (0, "0"),
        (7, "7"),
        (10, "10"),
        (42, "42"),
        (1234567890, "1234567890"),
        (18446744073709551615, "18446744073709551615"),
        (u128::MAX, "340282366920938463463374607431768211455"),
    ];
    for (n, expected) in cases {
        let mut out = String::from("x");
        append_decimal(&mut out, n);
        assert_eq!(out, format!("x{}", expected));
    }
}

#[test]
fn signed_decimal_numbers() {
    let mut out = String::new();
    append_signed_decimal(&mut out, -8);
    append_signed_decimal(&mut out, 0);
    append_signed_decimal(&mut out, 305);
    append_signed_decimal(&mut out, i128::MIN + 1);
    assert_eq!(out, format!("-80305{}", i128::MIN + 1));
}

#[test]
fn string_equality() {
    assert!(str_eq("", ""));
    assert!(str_eq("main", "main"));
    assert!(!str_eq("main", "mail"));
    assert!(!str_eq("main", "mai"));
    assert!(!str_eq("é", "e"));
    assert!(str_eq("日本", String::from("日本").as_str()));
}

#[test]
fn empty_program_has_both_sections() {
    assert_eq!(text_of_nodes(&[]), "section .data\nsection .text\n");
}

#[test]
fn one_line_per_simple_instruction() {
    let text = text_of_nodes(&[
        IRNode::Return { params_size: 0 },
        IRNode::Return { params_size: 16 },
        IRNode::Push64(5),
        IRNode::StackAlloc(8),
        IRNode::StackDealloc(24),
        IRNode::Load64ToStack(7, 16),
        IRNode::GlobalReadPush64(8),
        IRNode::StackReadPush64(32),
        IRNode::PushStaticStringPointer(12),
    ]);
    assert_eq!(
        text,
        "section .data\nsection .text\n\
         \x20   OP_0: ret\n\
         \x20   OP_1: ret 16\n\
         \x20   OP_2: push qword 5\n\
         \x20   OP_3: sub rsp, 8\n\
         \x20   OP_4: add rsp, 24\n\
         \x20   OP_5: mov qword [rsp+16], 7\n\
         \x20   OP_6: push qword [_GLOB_8]\n\
         \x20   OP_7: push qword [rsp+32]\n\
         \x20   OP_8: push qword _STR_12\n"
    );
}

#[test]
fn references_are_written_as_labels() {
    let text = text_of_nodes(&[
        IRNode::JumpFromOffset(2),
        IRNode::CallFromOffset(-1),
        IRNode::PushAddressFromOffset(0),
        IRNode::CallFromOffset(-5),
    ]);
    assert_eq!(
        text,
        "section .data\nsection .text\n\
         \x20   OP_0: jump OP_2\n\
         \x20   OP_1: call OP_0\n\
         \x20   OP_2: push qword OP_2\n\
         \x20   OP_3: call OP_-2\n"
    );
}

#[test]
fn two_lines_under_a_label() {
    let text = text_of_nodes(&[
        IRNode::Pop64ToStack(16),
        IRNode::GlobalReadLoad64ToStack(8, 24),
        IRNode::StackReadLoad64ToStack(8, 32),
        IRNode::Call,
        IRNode::Pop64ToStack(0),
    ]);
    assert_eq!(
        text,
        "section .data\nsection .text\n\
         OP_0:\n    pop rax\n    mov [rsp+8], rax\n\
         OP_1:\n    mov rax, [_GLOB_8]\n    mov [rsp+24], rax\n\
         OP_2:\n    mov rax, [rsp+8]\n    mov [rsp+32], rax\n\
         OP_3:\n    pop rax\n    call rax\n\
         OP_4:\n    pop rax\n    mov [rsp+-8], rax\n"
    );
}

#[test]
fn externals_are_declared_and_pushed() {
    let mut prog = CompiledProgram::new();
    let print = ExternalInfo::new("print", "rt", true);
    let count = ExternalInfo::new("count", "rt", false);
    prog.add_external(print);
    prog.add_external(count);
    prog.app_node(IRNode::ExternalReadPush64(print));
    prog.app_node(IRNode::ExternalReadPush64(count));
    assert_eq!(
        gen_asm_x86_64_from_ir(&prog).unwrap(),
        "section .data\n\
         extern _PKG_rt_print\n\
         extern _PKGv_rt_count\n\
         section .text\n\
         \x20   OP_0: push _PKG_rt_print\n\
         \x20   OP_1: push qword [_PKGv_rt_count]\n"
    );
}

#[test]
fn strings_are_written_byte_by_byte() {
    let mut prog = CompiledProgram::new();
    let _ = prog.add_static_string("hi");
    let _ = prog.add_static_string("");
    let _ = prog.add_static_string("é!");
    assert_eq!(
        gen_asm_x86_64_from_ir(&prog).unwrap(),
        "section .data\n\
         _STR_0: db 104,105\n\
         _STR_2: db \n\
         _STR_2: db 195,169,33\n\
         section .text\n"
    );
}

#[test]
fn globals_of_every_kind() {
    let mut prog = CompiledProgram::new();
    prog.set_package_name(Some("demo"));
    let function = CTimeVal::Function { address: 3, return_type_val: TypeVal::Unit };
    prog.add_global(GlobalInfo::new(0, "a", false, CTimeVal::UInt(7), true));
    prog.add_global(GlobalInfo::new(8, "b", false, CTimeVal::UInt(9), false));
    prog.add_global(GlobalInfo::new(16, "f", true, function.clone(), true));
    prog.add_global(GlobalInfo::new(24, "g", true, function, false));
    prog.add_global(GlobalInfo::new(32, "s", false, CTimeVal::StringSlice(5, 2), true));
    prog.add_global(GlobalInfo::new(48, "t", true, CTimeVal::StringSlice(0, 5), false));
    assert_eq!(
        gen_asm_x86_64_from_ir(&prog).unwrap(),
        "section .data\n\
         _GLOB_0 equ 7\n\
         _GLOB_8: dq 9\n\
         global _PKG_demo_f\n\
         _PKG_demo_f equ _GLOB_16\n\
         _GLOB_16 equ OP_3\n\
         global _PKGv_demo_g\n\
         _PKGv_demo_g equ _GLOB_24\n\
         _GLOB_24: dq OP_3\n\
         _GLOB_32 equ _STR_5\n\
         _GLOB_40 equ 2\n\
         global _PKGv_demo_t\n\
         _PKGv_demo_t equ _GLOB_48\n\
         _GLOB_48: dq _STR_0\n\
         _GLOB_56: dq 5\n\
         section .text\n"
    );
}

#[test]
fn default_package_is_main() {
    let mut prog = CompiledProgram::new();
    prog.add_global(GlobalInfo::new(0, "main", true, CTimeVal::UInt(1), true));
    assert_eq!(
        gen_asm_x86_64_from_ir(&prog).unwrap(),
        "section .data\n\
         global _PKG_main_main\n\
         _PKG_main_main equ _GLOB_0\n\
         _GLOB_0 equ 1\n\
         section .text\n"
    );
}

#[test]
fn unsupported_initializers_are_refused() {
    let mut prog = CompiledProgram::new();
    prog.add_global(GlobalInfo::new(0, "a", false, CTimeVal::UInt(7), true));
    prog.add_global(GlobalInfo::new(8, "t", false, CTimeVal::Type(TypeVal::UInt64), true));
    assert_eq!(gen_asm_x86_64_from_ir(&prog), Err(EmitError::UnsupportedInitializer));
    let mut prog = CompiledProgram::new();
    prog.add_global(GlobalInfo::new(0, "i", false, CTimeVal::Int(-1), false));
    assert_eq!(gen_asm_x86_64_from_ir(&prog), Err(EmitError::UnsupportedInitializer));
}

#[test]
fn exported_constant_of_a_package() {
    // package demo; public let x = 7;
    let ast = vec![Stmt::PackageDecl("demo"), Stmt::ConstDecl("x", Some(Expr::IntLit(7)), None, true)];
    let mut gen = IRGen::new();
    let prog = gen.generate(&ast).unwrap();
    let text = gen_asm_x86_64_from_ir(prog).unwrap();
    assert_eq!(
        text,
        "section .data\n\
         extern _PKG_rt_print\n\
         global _PKG_demo_x\n\
         _PKG_demo_x equ _GLOB_0\n\
         _GLOB_0 equ 7\n\
         section .text\n"
    );
}

#[test]
fn global_function_is_named_by_its_first_instruction() {
    // let f = () { 42 };
    let body = Expr::Block(vec![], Some(Box::new(Expr::IntLit(42))));
    let ast = vec![Stmt::ConstDecl("f", Some(Expr::Function(Box::new(body))), None, false)];
    let mut gen = IRGen::new();
    let prog = gen.generate(&ast).unwrap();
    let mut optimizer = IROptimizer::new(prog);
    let text = gen_asm_x86_64_from_ir(optimizer.optimize()).unwrap();
    assert_eq!(
        text,
        "section .data\n\
         extern _PKG_rt_print\n\
         _GLOB_0 equ OP_0\n\
         section .text\n\
         \x20   OP_0: mov qword [rsp+8], 42\n\
         \x20   OP_1: ret\n"
    );
}

#[test]
fn print_of_a_string() {
    // print("hi");
    let call = Expr::Call(Box::new(Expr::Variable("print")), vec![Expr::StringLit("hi")]);
    let ast = vec![Stmt::Expr(call, false)];
    let mut gen = IRGen::new();
    let prog = gen.generate(&ast).unwrap();
    let mut optimizer = IROptimizer::new(prog);
    let text = gen_asm_x86_64_from_ir(optimizer.optimize()).unwrap();
    assert_eq!(
        text,
        "section .data\n\
         extern _PKG_rt_print\n\
         _STR_0: db 104,105\n\
         section .text\n\
         \x20   OP_0: push qword _STR_0\n\
         \x20   OP_1: push qword 2\n\
         \x20   OP_2: push _PKG_rt_print\n\
         OP_3:\n    pop rax\n    call rax\n"
    );
}
