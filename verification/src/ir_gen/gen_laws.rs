use vstd::prelude::*;
use crate::ir_gen::gen_model::{
    gen_args_spec,
    gen_block_spec,
    gen_call_spec,
    gen_decl_spec,
    gen_expr_spec,
    gen_stmt_spec,
    gen_stmts_spec,
    resolve_annotation_spec,
    resolve_block_spec,
    resolve_decls_spec,
    resolve_expr_spec,
    resolve_function_spec,
    tail_size,
    GenView,
};
use crate::parser::ast::{exprs_size, opt_size, stmts_size, Expr, Stmt};

verus! {

/// Whether a step left the pool of strings well formed, if it was.
pub open spec fn pool_kept<'a>(st: GenView<'a>, after: GenView<'a>) -> bool {
    st.program.pool_wf() ==> after.program.pool_wf()
}

/// A string interned leaves the pool well formed.
pub proof fn lemma_intern_pool_kept<'a>(st: GenView<'a>, string: &'a str)
    ensures
        st.intern(string) matches Ok((after, _)) ==> pool_kept(st, after),
{
    if st.program.pool_wf() && st.program.can_intern(string) {
        crate::ir_gen::pool::lemma_intern_keeps_pool_wf(st.program, string);
    }
}

/// Resolving an expression leaves as many scopes open as it found,
/// and the pool of strings well formed if it was.
pub proof fn lemma_resolve_expr_scopes<'a>(st: GenView<'a>, expr: &Expr<'a>)
    ensures
        resolve_expr_spec(st, expr) matches Ok((after, _)) ==> after.scopes.len()
            == st.scopes.len() && pool_kept(st, after),
    decreases expr.size(), 1nat,
{
    match expr {
        Expr::Block(body, return_expr) => match return_expr {
            Some(tail) => lemma_resolve_block_scopes(st, body, tail),
            None => {},
        },
        Expr::Function(body) => lemma_resolve_function_scopes(st, body),
        Expr::StringLit(string) => lemma_intern_pool_kept(st, *string),
        _ => {},
    }
}

/// Resolving a block leaves as many scopes open as it found,
/// and the pool of strings well formed if it was.
pub proof fn lemma_resolve_block_scopes<'a>(st: GenView<'a>, body: &Vec<Stmt<'a>>, tail: &Expr<'a>)
    ensures
        resolve_block_spec(st, body, tail) matches Ok((after, _)) ==> after.scopes.len()
            == st.scopes.len() && pool_kept(st, after),
    decreases stmts_size(body, 0) + tail.size(), 2nat,
{
    lemma_resolve_decls_scopes(st.open_scope(), body, 0);
    match resolve_decls_spec(st.open_scope(), body, 0) {
        Ok(declared) => {
            lemma_resolve_expr_scopes(declared, tail);
        },
        Err(_) => {},
    }
}

/// Lowering a function literal leaves as many scopes open as it found,
/// and the pool of strings well formed if it was.
pub proof fn lemma_resolve_function_scopes<'a>(st: GenView<'a>, body: &Expr<'a>)
    ensures
        resolve_function_spec(st, body) matches Ok((after, _)) ==> after.scopes.len()
            == st.scopes.len() && pool_kept(st, after),
    decreases body.size(), 2nat,
{
    lemma_resolve_expr_scopes(st, body);
    match resolve_expr_spec(st, body) {
        Ok((resolved, _)) => {
            lemma_gen_expr_scopes(resolved.enter_function(), body);
        },
        Err(_) => {},
    }
}

/// Lowering the declarations of a block leaves as many scopes open as it
/// found, and the pool of strings well formed if it was.
pub proof fn lemma_resolve_decls_scopes<'a>(st: GenView<'a>, body: &Vec<Stmt<'a>>, from: int)
    ensures
        resolve_decls_spec(st, body, from) matches Ok(after) ==> after.scopes.len()
            == st.scopes.len() && pool_kept(st, after),
    decreases stmts_size(body, from), 0nat,
{
    if 0 <= from < body.len() {
        if body[from] is ConstDecl || body[from] is VarDecl {
            lemma_gen_stmt_scopes(st, &body[from]);
            match gen_stmt_spec(st, &body[from]) {
                Ok(next) => lemma_resolve_decls_scopes(next, body, from + 1),
                Err(_) => {},
            }
        } else {
            lemma_resolve_decls_scopes(st, body, from + 1);
        }
    }
}

/// Lowering statements leaves as many scopes open as it found,
/// and the pool of strings well formed if it was.
pub proof fn lemma_gen_stmts_scopes<'a>(st: GenView<'a>, body: &Vec<Stmt<'a>>, from: int)
    ensures
        gen_stmts_spec(st, body, from) matches Ok(after) ==> after.scopes.len()
            == st.scopes.len() && pool_kept(st, after),
    decreases stmts_size(body, from), 0nat,
{
    if 0 <= from < body.len() {
        lemma_gen_stmt_scopes(st, &body[from]);
        match gen_stmt_spec(st, &body[from]) {
            Ok(next) => lemma_gen_stmts_scopes(next, body, from + 1),
            Err(_) => {},
        }
    }
}

/// Lowering arguments leaves as many scopes open as it found,
/// and the pool of strings well formed if it was.
pub proof fn lemma_gen_args_scopes<'a>(st: GenView<'a>, args: &Vec<Expr<'a>>, from: int)
    ensures
        gen_args_spec(st, args, from) matches Ok(after) ==> after.scopes.len()
            == st.scopes.len() && pool_kept(st, after),
    decreases exprs_size(args, from), 0nat,
{
    if 0 <= from < args.len() {
        lemma_gen_expr_scopes(st, &args[from]);
        match gen_expr_spec(st, &args[from]) {
            Ok(next) => lemma_gen_args_scopes(next, args, from + 1),
            Err(_) => {},
        }
    }
}

/// Lowering an expression leaves as many scopes open as it found,
/// and the pool of strings well formed if it was.
pub proof fn lemma_gen_expr_scopes<'a>(st: GenView<'a>, expr: &Expr<'a>)
    ensures
        gen_expr_spec(st, expr) matches Ok(after) ==> after.scopes.len() == st.scopes.len()
            && pool_kept(st, after),
    decreases expr.size(), 1nat,
{
    match expr {
        Expr::Call(callee, args) => lemma_gen_call_scopes(st, callee, args),
        Expr::Block(body, return_expr) => lemma_gen_block_scopes(st, body, return_expr),
        Expr::StringLit(string) => lemma_intern_pool_kept(st, *string),
        _ => {},
    }
}

/// Lowering a call leaves as many scopes open as it found,
/// and the pool of strings well formed if it was.
pub proof fn lemma_gen_call_scopes<'a>(st: GenView<'a>, callee: &Expr<'a>, args: &Vec<Expr<'a>>)
    ensures
        gen_call_spec(st, callee, args) matches Ok(after) ==> after.scopes.len()
            == st.scopes.len() && pool_kept(st, after),
    decreases callee.size() + exprs_size(args, 0), 2nat,
{
    lemma_resolve_expr_scopes(st, callee);
    match resolve_expr_spec(st, callee) {
        Ok((resolved, symbol)) => match symbol.type_val {
            crate::ir_gen::typeval::TypeVal::FunctionPointer(return_type_val) => {
                match resolved.emit(
                    crate::ir_gen::ir::IRNode::StackAlloc(return_type_val.size_of()),
                ).grow(return_type_val.size_of()) {
                    Ok(allocated) => {
                        lemma_gen_args_scopes(allocated, args, 0);
                        match gen_args_spec(allocated, args, 0) {
                            Ok(pushed) => lemma_gen_expr_scopes(pushed, callee),
                            Err(_) => {},
                        }
                    },
                    Err(_) => {},
                }
            },
            _ => {},
        },
        Err(_) => {},
    }
}

/// Lowering a block leaves as many scopes open as it found: the scope it
/// opens is closed at its end. It leaves the pool of strings well formed
/// if it was.
pub proof fn lemma_gen_block_scopes<'a>(
    st: GenView<'a>,
    body: &Vec<Stmt<'a>>,
    return_expr: &Option<Box<Expr<'a>>>,
)
    ensures
        gen_block_spec(st, body, return_expr) matches Ok(after) ==> after.scopes.len()
            == st.scopes.len() && pool_kept(st, after),
    decreases stmts_size(body, 0) + tail_size(return_expr), 2nat,
{
    let opened = st.open_scope().emit(crate::ir_gen::ir::IRNode::StackAlloc(0));
    lemma_gen_stmts_scopes(opened, body, 0);
    match gen_stmts_spec(opened, body, 0) {
        Ok(lowered) => match return_expr {
            Some(tail) => {
                lemma_gen_expr_scopes(lowered, tail);
                match gen_expr_spec(lowered, tail) {
                    Ok(yielded) => lemma_resolve_expr_scopes(yielded, tail),
                    Err(_) => {},
                }
            },
            None => {},
        },
        Err(_) => {},
    }
}

/// Lowering a statement leaves as many scopes open as it found,
/// and the pool of strings well formed if it was.
pub proof fn lemma_gen_stmt_scopes<'a>(st: GenView<'a>, stmt: &Stmt<'a>)
    ensures
        gen_stmt_spec(st, stmt) matches Ok(after) ==> after.scopes.len() == st.scopes.len()
            && pool_kept(st, after),
    decreases stmt.size(), 1nat,
{
    match stmt {
        Stmt::Expr(expr, _) => lemma_gen_expr_scopes(st, expr),
        Stmt::PackageDecl(_) => {},
        Stmt::ConstDecl(name, init, type_expr, is_exported) => lemma_gen_decl_scopes(
            st,
            *name,
            init,
            type_expr,
            true,
            *is_exported,
        ),
        Stmt::VarDecl(name, init, type_expr, is_exported) => lemma_gen_decl_scopes(
            st,
            *name,
            init,
            type_expr,
            false,
            *is_exported,
        ),
    }
}

/// Resolving a type annotation leaves as many scopes open as it found,
/// and the pool of strings well formed if it was.
pub proof fn lemma_resolve_annotation_scopes<'a>(st: GenView<'a>, type_expr: &Option<Expr<'a>>)
    ensures
        resolve_annotation_spec(st, type_expr) matches Ok((after, _)) ==> after.scopes.len()
            == st.scopes.len() && pool_kept(st, after),
    decreases opt_size(type_expr), 2nat,
{
    match type_expr {
        Some(annotation) => lemma_resolve_expr_scopes(st, annotation),
        None => {},
    }
}

/// Lowering a declaration leaves as many scopes open as it found,
/// and the pool of strings well formed if it was.
pub proof fn lemma_gen_decl_scopes<'a>(
    st: GenView<'a>,
    name: &'a str,
    init: &Option<Expr<'a>>,
    type_expr: &Option<Expr<'a>>,
    is_const: bool,
    is_exported: bool,
)
    ensures
        gen_decl_spec(st, name, init, type_expr, is_const, is_exported) matches Ok(after)
            ==> after.scopes.len() == st.scopes.len()
            && pool_kept(st, after),
    decreases opt_size(init) + opt_size(type_expr), 3nat,
{
    lemma_resolve_annotation_scopes(st, type_expr);
    match resolve_annotation_spec(st, type_expr) {
        Ok((typed, _)) => match init {
            Some(expr) => {
                lemma_resolve_expr_scopes(typed, expr);
                match resolve_expr_spec(typed, expr) {
                    Ok((resolved, _)) => lemma_gen_expr_scopes(resolved, expr),
                    Err(_) => {},
                }
            },
            None => {},
        },
        Err(_) => {},
    }
}

/// An expression statement leaves the virtual stack as it found it,
/// whatever the expression is.
pub proof fn lemma_expression_statement_keeps_stack<'a>(
    st: GenView<'a>,
    expr: &Expr<'a>,
    is_final: bool,
)
    ensures
        gen_stmt_spec(st, &Stmt::Expr(*expr, is_final)) matches Ok(after) ==> after.stack_sz
            == st.stack_sz,
{
    let stmt = Stmt::Expr(*expr, is_final);
    assert(gen_stmt_spec(st, &stmt) == match gen_expr_spec(st, expr) {
        Err(e) => Err(e),
        Ok(lowered) => lowered.drop_value(st),
    });
}

} // verus!
