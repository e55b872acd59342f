use vstd::prelude::*;
use crate::ir_gen::gen_model::{
    gen_args_spec,
    gen_block_spec,
    gen_call_spec,
    gen_decl_spec,
    gen_expr_spec,
    gen_stmt_spec,
    gen_stmts_spec,
    resolve_annotation_spec,
    resolve_block_spec,
    resolve_decls_spec,
    resolve_expr_spec,
    resolve_function_spec,
    tail_size,
    GenView,
};
use crate::ir_gen::ir::IRNode;
use crate::ir_gen::typeval::TypeVal;
use crate::parser::ast::{exprs_size, opt_size, stmts_size, Expr, Stmt};

verus! {

/// The scopes of `after` are those of `st`, variable by variable.
pub open spec fn same_scopes<'a>(st: GenView<'a>, after: GenView<'a>) -> bool {
    after.scopes == st.scopes && after.global_scope == st.global_scope
}

/// The scopes of `after` are those of `st` but for the innermost one, which
/// is still there.
pub open spec fn same_outer_scopes<'a>(st: GenView<'a>, after: GenView<'a>) -> bool {
    &&& after.scopes.len() == st.scopes.len()
    &&& after.scopes.drop_first() == st.scopes.drop_first()
    &&& after.global_scope == st.global_scope
}

/// Declaring a variable in the innermost scope touches that scope alone.
pub proof fn lemma_add_var_same_outer_scopes<'a>(
    st: GenView<'a>,
    var: crate::ir_gen::variable::Variable<'a>,
)
    requires
        st.scopes.len() > 0,
    ensures
        same_outer_scopes(st, st.add_var(var)),
        st.add_var(var).scopes[0] == seq![var] + st.scopes[0],
{
    assert(st.add_var(var).scopes.drop_first() =~= st.scopes.drop_first());
}

/// A declaration with an initializer, inside a block, touches the
/// innermost scope alone.
pub proof fn lemma_declare_initialized_same_outer_scopes<'a>(
    st: GenView<'a>,
    name: &'a str,
    type_val: TypeVal,
    value: Option<crate::ir_gen::ctimeval::CTimeVal>,
    is_const: bool,
    is_exported: bool,
    lowered: Result<GenView<'a>, crate::ir_gen::error::CompileError>,
)
    requires
        st.scopes.len() > 0,
        lowered matches Ok(state) ==> same_scopes(st, state),
    ensures
        st.declare_initialized(name, type_val, value, is_const, is_exported, lowered) matches Ok(
            after,
        ) ==> same_outer_scopes(st, after),
{
    if value is None || !is_const {
        match lowered {
            Ok(state) => {
                lemma_add_var_same_outer_scopes(
                    state,
                    crate::ir_gen::gen_model::declared(
                        name,
                        type_val,
                        None,
                        Some(state.stack_sz),
                        None,
                    ),
                );
            },
            Err(_) => {},
        }
    } else {
        lemma_add_var_same_outer_scopes(
            st,
            crate::ir_gen::gen_model::declared(name, type_val, None, None, value),
        );
    }
}

/// A declaration without an initializer, inside a block, touches the
/// innermost scope alone.
pub proof fn lemma_declare_uninitialized_same_outer_scopes<'a>(
    st: GenView<'a>,
    name: &'a str,
    type_val: TypeVal,
    is_const: bool,
    is_exported: bool,
)
    requires
        st.scopes.len() > 0,
    ensures
        st.declare_uninitialized(name, type_val, is_const, is_exported) matches Ok(after)
            ==> same_outer_scopes(st, after),
{
    if !is_exported {
        if is_const {
            lemma_add_var_same_outer_scopes(
                st,
                crate::ir_gen::gen_model::declared(name, type_val, None, None, None),
            );
        } else {
            match st.emit(IRNode::StackAlloc(type_val.size_of())).grow(type_val.size_of()) {
                Ok(allocated) => {
                    lemma_add_var_same_outer_scopes(
                        allocated,
                        crate::ir_gen::gen_model::declared(
                            name,
                            type_val,
                            None,
                            Some(allocated.stack_sz),
                            None,
                        ),
                    );
                },
                Err(_) => {},
            }
        }
    }
}

/// Resolving an expression declares nothing that stays.
pub proof fn lemma_resolve_expr_same_scopes<'a>(st: GenView<'a>, expr: &Expr<'a>)
    ensures
        resolve_expr_spec(st, expr) matches Ok((after, _)) ==> same_scopes(st, after),
    decreases expr.size(), 1nat,
{
    match expr {
        Expr::Block(body, return_expr) => match return_expr {
            Some(tail) => lemma_resolve_block_same_scopes(st, body, tail),
            None => {},
        },
        Expr::Function(body) => lemma_resolve_function_same_scopes(st, body),
        _ => {},
    }
}

/// Resolving a block declares nothing that stays: its scope is closed.
pub proof fn lemma_resolve_block_same_scopes<'a>(
    st: GenView<'a>,
    body: &Vec<Stmt<'a>>,
    tail: &Expr<'a>,
)
    ensures
        resolve_block_spec(st, body, tail) matches Ok((after, _)) ==> same_scopes(st, after),
    decreases stmts_size(body, 0) + tail.size(), 2nat,
{
    let opened = st.open_scope();
    assert(opened.scopes.drop_first() =~= st.scopes);
    lemma_resolve_decls_same_outer_scopes(opened, body, 0);
    match resolve_decls_spec(opened, body, 0) {
        Ok(declared) => {
            lemma_resolve_expr_same_scopes(declared, tail);
        },
        Err(_) => {},
    }
}

/// Lowering a function literal declares nothing that stays.
pub proof fn lemma_resolve_function_same_scopes<'a>(st: GenView<'a>, body: &Expr<'a>)
    ensures
        resolve_function_spec(st, body) matches Ok((after, _)) ==> same_scopes(st, after),
    decreases body.size(), 2nat,
{
    lemma_resolve_expr_same_scopes(st, body);
    match resolve_expr_spec(st, body) {
        Ok((resolved, _)) => {
            lemma_gen_expr_same_scopes(resolved.enter_function(), body);
        },
        Err(_) => {},
    }
}

/// The declarations of a block touch the innermost scope alone.
pub proof fn lemma_resolve_decls_same_outer_scopes<'a>(
    st: GenView<'a>,
    body: &Vec<Stmt<'a>>,
    from: int,
)
    requires
        st.scopes.len() > 0,
    ensures
        resolve_decls_spec(st, body, from) matches Ok(after) ==> same_outer_scopes(st, after),
    decreases stmts_size(body, from), 0nat,
{
    if 0 <= from < body.len() {
        if body[from] is ConstDecl || body[from] is VarDecl {
            lemma_gen_stmt_same_outer_scopes(st, &body[from]);
            match gen_stmt_spec(st, &body[from]) {
                Ok(next) => lemma_resolve_decls_same_outer_scopes(next, body, from + 1),
                Err(_) => {},
            }
        } else {
            lemma_resolve_decls_same_outer_scopes(st, body, from + 1);
        }
    }
}

/// The statements of a block touch the innermost scope alone.
pub proof fn lemma_gen_stmts_same_outer_scopes<'a>(st: GenView<'a>, body: &Vec<Stmt<'a>>, from: int)
    requires
        st.scopes.len() > 0,
    ensures
        gen_stmts_spec(st, body, from) matches Ok(after) ==> same_outer_scopes(st, after),
    decreases stmts_size(body, from), 0nat,
{
    if 0 <= from < body.len() {
        lemma_gen_stmt_same_outer_scopes(st, &body[from]);
        match gen_stmt_spec(st, &body[from]) {
            Ok(next) => lemma_gen_stmts_same_outer_scopes(next, body, from + 1),
            Err(_) => {},
        }
    }
}

/// Lowering arguments declares nothing that stays.
pub proof fn lemma_gen_args_same_scopes<'a>(st: GenView<'a>, args: &Vec<Expr<'a>>, from: int)
    ensures
        gen_args_spec(st, args, from) matches Ok(after) ==> same_scopes(st, after),
    decreases exprs_size(args, from), 0nat,
{
    if 0 <= from < args.len() {
        lemma_gen_expr_same_scopes(st, &args[from]);
        match gen_expr_spec(st, &args[from]) {
            Ok(next) => lemma_gen_args_same_scopes(next, args, from + 1),
            Err(_) => {},
        }
    }
}

/// Lowering an expression declares nothing that stays.
pub proof fn lemma_gen_expr_same_scopes<'a>(st: GenView<'a>, expr: &Expr<'a>)
    ensures
        gen_expr_spec(st, expr) matches Ok(after) ==> same_scopes(st, after),
    decreases expr.size(), 1nat,
{
    match expr {
        Expr::Call(callee, args) => lemma_gen_call_same_scopes(st, callee, args),
        Expr::Block(body, return_expr) => lemma_gen_block_same_scopes(st, body, return_expr),
        _ => {},
    }
}

/// Lowering a call declares nothing that stays.
pub proof fn lemma_gen_call_same_scopes<'a>(
    st: GenView<'a>,
    callee: &Expr<'a>,
    args: &Vec<Expr<'a>>,
)
    ensures
        gen_call_spec(st, callee, args) matches Ok(after) ==> same_scopes(st, after),
    decreases callee.size() + exprs_size(args, 0), 2nat,
{
    lemma_resolve_expr_same_scopes(st, callee);
    match resolve_expr_spec(st, callee) {
        Ok((resolved, symbol)) => match symbol.type_val {
            TypeVal::FunctionPointer(return_type_val) => {
                match resolved.emit(IRNode::StackAlloc(return_type_val.size_of())).grow(
                    return_type_val.size_of(),
                ) {
                    Ok(allocated) => {
                        lemma_gen_args_same_scopes(allocated, args, 0);
                        match gen_args_spec(allocated, args, 0) {
                            Ok(pushed) => lemma_gen_expr_same_scopes(pushed, callee),
                            Err(_) => {},
                        }
                    },
                    Err(_) => {},
                }
            },
            _ => {},
        },
        Err(_) => {},
    }
}

/// Lowering a block declares nothing that stays: its scope is closed.
pub proof fn lemma_gen_block_same_scopes<'a>(
    st: GenView<'a>,
    body: &Vec<Stmt<'a>>,
    return_expr: &Option<Box<Expr<'a>>>,
)
    ensures
        gen_block_spec(st, body, return_expr) matches Ok(after) ==> same_scopes(st, after),
    decreases stmts_size(body, 0) + tail_size(return_expr), 2nat,
{
    let opened = st.open_scope().emit(IRNode::StackAlloc(0));
    assert(opened.scopes.drop_first() =~= st.scopes);
    lemma_gen_stmts_same_outer_scopes(opened, body, 0);
    match gen_stmts_spec(opened, body, 0) {
        Ok(lowered) => match return_expr {
            Some(tail) => {
                lemma_gen_expr_same_scopes(lowered, tail);
                match gen_expr_spec(lowered, tail) {
                    Ok(yielded) => lemma_resolve_expr_same_scopes(yielded, tail),
                    Err(_) => {},
                }
            },
            None => {},
        },
        Err(_) => {},
    }
}

/// A statement inside a block touches the innermost scope alone.
pub proof fn lemma_gen_stmt_same_outer_scopes<'a>(st: GenView<'a>, stmt: &Stmt<'a>)
    requires
        st.scopes.len() > 0,
    ensures
        gen_stmt_spec(st, stmt) matches Ok(after) ==> same_outer_scopes(st, after),
    decreases stmt.size(), 1nat,
{
    match stmt {
        Stmt::Expr(expr, _) => lemma_gen_expr_same_scopes(st, expr),
        Stmt::PackageDecl(_) => {},
        Stmt::ConstDecl(name, init, type_expr, is_exported) => {
            lemma_gen_decl_same_outer_scopes(st, *name, init, type_expr, true, *is_exported)
        },
        Stmt::VarDecl(name, init, type_expr, is_exported) => {
            lemma_gen_decl_same_outer_scopes(st, *name, init, type_expr, false, *is_exported)
        },
    }
}

/// Resolving a type annotation declares nothing that stays.
pub proof fn lemma_resolve_annotation_same_scopes<'a>(
    st: GenView<'a>,
    type_expr: &Option<Expr<'a>>,
)
    ensures
        resolve_annotation_spec(st, type_expr) matches Ok((after, _)) ==> same_scopes(st, after),
    decreases opt_size(type_expr), 2nat,
{
    match type_expr {
        Some(annotation) => lemma_resolve_expr_same_scopes(st, annotation),
        None => {},
    }
}

/// A declaration inside a block touches the innermost scope alone.
pub proof fn lemma_gen_decl_same_outer_scopes<'a>(
    st: GenView<'a>,
    name: &'a str,
    init: &Option<Expr<'a>>,
    type_expr: &Option<Expr<'a>>,
    is_const: bool,
    is_exported: bool,
)
    requires
        st.scopes.len() > 0,
    ensures
        gen_decl_spec(st, name, init, type_expr, is_const, is_exported) matches Ok(after)
            ==> same_outer_scopes(st, after),
    decreases opt_size(init) + opt_size(type_expr), 3nat,
{
    lemma_resolve_annotation_same_scopes(st, type_expr);
    match resolve_annotation_spec(st, type_expr) {
        Ok((typed, annotated)) => match init {
            Some(expr) => {
                lemma_resolve_expr_same_scopes(typed, expr);
                match resolve_expr_spec(typed, expr) {
                    Ok((resolved, symbol)) => {
                        lemma_gen_expr_same_scopes(resolved, expr);
                        lemma_declare_initialized_same_outer_scopes(
                            resolved,
                            name,
                            crate::ir_gen::gen_model::decl_type_val(annotated, symbol),
                            symbol.const_val,
                            is_const,
                            is_exported,
                            gen_expr_spec(resolved, expr),
                        );
                    },
                    Err(_) => {},
                }
            },
            None => {
                lemma_declare_uninitialized_same_outer_scopes(
                    typed,
                    name,
                    match annotated {
                        Some(t) => t,
                        None => TypeVal::UInt64,
                    },
                    is_const,
                    is_exported,
                );
            },
        },
        Err(_) => {},
    }
}

} // verus!
