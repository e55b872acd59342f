use vstd::prelude::*;
use crate::ir_gen::ctimeval::CTimeVal;
use crate::ir_gen::gen_model::{
    declared,
    gen_block_spec,
    gen_call_spec,
    gen_decl_spec,
    gen_expr_spec,
    gen_stmt_spec,
    gen_stmts_spec,
    generate_spec,
    locals_size,
    lookup_from,
    resolve_block_spec,
    resolve_decls_spec,
    resolve_expr_spec,
    resolve_function_spec,
    tail_size,
    GenView,
};
use crate::ir_gen::gen_scopes::{
    lemma_add_var_same_outer_scopes,
    lemma_gen_expr_same_scopes,
    lemma_resolve_expr_same_scopes,
    same_scopes,
};
use crate::ir_gen::ir::IRNode;
use crate::ir_gen::scope::lemma_position;
use crate::ir_gen::typeval::TypeVal;
use crate::ir_gen::typing::{
    decls_env,
    lemma_gen_stmt_env,
    lemma_gen_stmts_env,
    lemma_lookup_type,
    lemma_open_env,
    lemma_resolve_decls_env,
    lemma_resolve_expr_type,
    lemma_same_scopes_env,
    stmt_env,
    type_env,
    type_of,
    TypeEnv,
};
use crate::ir_gen::variable::Variable;
use crate::parser::ast::{exprs_size, opt_size, stmts_size, Expr, Stmt};

verus! {

/// Whether the constant `value` takes as many bytes as the type
/// `type_val` says. A type and a signed integer, which cannot be pushed,
/// fit any type.
pub open spec fn value_fits(value: CTimeVal, type_val: TypeVal) -> bool {
    match value {
        CTimeVal::UInt(_) => type_val.size_of() == 8,
        CTimeVal::StringSlice(..) => type_val.size_of() == 16,
        CTimeVal::Function { .. } => type_val.size_of() == 8,
        _ => true,
    }
}

/// Whether a value, if it is known, fits its type.
pub open spec fn symbol_fits(const_val: Option<CTimeVal>, type_val: TypeVal) -> bool {
    const_val matches Some(value) ==> value_fits(value, type_val)
}

/// Whether reading the variable pushes as many bytes as its type says: it
/// stands for something, and for a constant that fits its type.
pub open spec fn variable_fits(var: Variable) -> bool {
    &&& symbol_fits(var.const_val, var.type_val)
    &&& var.const_val is None ==> var.external is Some || var.global_pos is Some
        || var.stack_loc is Some
}

/// Whether all variables of a scope fit.
pub open spec fn scope_fits(vars: Seq<Variable>) -> bool {
    forall|i: int| 0 <= i < vars.len() ==> variable_fits(#[trigger] vars[i])
}

/// Whether all variables in scope fit.
pub open spec fn scopes_fit(st: GenView) -> bool {
    &&& forall|i: int| 0 <= i < st.scopes.len() ==> scope_fits(#[trigger] st.scopes[i])
    &&& scope_fits(st.global_scope)
}

/// Whether lowering `expr` in the environment `env` is balanced: it leaves
/// on the virtual stack exactly the bytes of the type of `expr`. A call is
/// balanced if its result takes the eight bytes that a call counts for; a
/// block if its statements are and it yields a balanced expression.
pub open spec fn balanced_gen<'a>(env: TypeEnv, expr: &Expr<'a>) -> bool
    decreases expr.size(), 1nat,
{
    match expr {
        Expr::Call(callee, _) => balanced_resolve(env, callee) && (type_of(env, callee) matches TypeVal::FunctionPointer(
            return_type_val,
        ) ==> return_type_val.size_of() == 8),
        Expr::Block(body, return_expr) => match return_expr {
            Some(tail) => {
                &&& balanced_body(env.open(), body, 0)
                &&& balanced_gen(decls_env(env.open(), body, 0), tail)
                &&& balanced_resolve(decls_env(env.open(), body, 0), tail)
            },
            None => false,
        },
        _ => true,
    }
}

/// Whether resolving `expr` in the environment `env` is balanced: it
/// leaves the virtual stack as it found it.
pub open spec fn balanced_resolve<'a>(env: TypeEnv, expr: &Expr<'a>) -> bool
    decreases expr.size(), 1nat,
{
    match expr {
        Expr::Block(body, return_expr) => match return_expr {
            Some(tail) => balanced_decls(env.open(), body, 0) && balanced_resolve(
                decls_env(env.open(), body, 0),
                tail,
            ),
            None => true,
        },
        Expr::Function(body) => balanced_resolve(env, body) && balanced_gen(env, body),
        _ => true,
    }
}

/// Whether the initializer of a declaration inside a block is balanced.
pub open spec fn balanced_init<'a>(env: TypeEnv, init: &Option<Expr<'a>>, is_const: bool) -> bool
    decreases opt_size(init), 2nat,
{
    match init {
        Some(expr) => balanced_resolve(env, expr) && balanced_gen(env, expr),
        None => !is_const,
    }
}

/// Whether the statement `stmt`, inside a block, is balanced: what it
/// leaves on the virtual stack is the room of the local it declares. A
/// declaration is balanced if it has no type annotation and its
/// initializer is balanced; a variable needs no initializer.
pub open spec fn balanced_stmt<'a>(env: TypeEnv, stmt: &Stmt<'a>) -> bool
    decreases stmt.size(), 0nat,
{
    match stmt {
        Stmt::ConstDecl(_, init, type_expr, _) => type_expr is None && balanced_init(
            env,
            init,
            true,
        ),
        Stmt::VarDecl(_, init, type_expr, _) => type_expr is None && balanced_init(
            env,
            init,
            false,
        ),
        _ => true,
    }
}

/// Whether the statements of `body` from index `from` on are balanced.
pub open spec fn balanced_body<'a>(env: TypeEnv, body: &Vec<Stmt<'a>>, from: int) -> bool
    decreases stmts_size(body, from), 1nat,
{
    if from < 0 || from >= body.len() {
        true
    } else {
        balanced_stmt(env, &body[from]) && balanced_body(
            stmt_env(env, &body[from]),
            body,
            from + 1,
        )
    }
}

/// Whether the declarations among the statements of `body` from index
/// `from` on are balanced.
pub open spec fn balanced_decls<'a>(env: TypeEnv, body: &Vec<Stmt<'a>>, from: int) -> bool
    decreases stmts_size(body, from), 1nat,
{
    if from < 0 || from >= body.len() {
        true
    } else {
        (body[from] is ConstDecl || body[from] is VarDecl ==> balanced_stmt(env, &body[from]))
            && balanced_decls(stmt_env(env, &body[from]), body, from + 1)
    }
}

/// The room that a scope takes on the stack grows by that of a variable
/// declared in it.
pub proof fn lemma_locals_size_prepend(var: Variable, vars: Seq<Variable>)
    ensures
        locals_size(seq![var] + vars) == locals_size(vars) + if var.stack_loc is Some {
            var.type_val.size_of() as nat
        } else {
            0
        },
    decreases vars.len(),
{
    let all = seq![var] + vars;
    if vars.len() == 0 {
        assert(all.drop_last() =~= Seq::<Variable>::empty());
        assert(all.last() == var);
        assert(locals_size(all.drop_last()) == 0);
        assert(locals_size(vars) == 0);
    } else {
        let shorter = seq![var] + vars.drop_last();
        assert(all.drop_last() =~= shorter);
        assert(all.last() == vars.last());
        lemma_locals_size_prepend(var, vars.drop_last());
        assert(locals_size(all) == locals_size(shorter) + if vars.last().stack_loc is Some {
            vars.last().type_val.size_of() as nat
        } else {
            0
        });
    }
}

/// A variable that is looked up is one of those in scope.
pub proof fn lemma_lookup_fits<'a>(st: GenView<'a>, name: Seq<char>, from: int)
    requires
        scopes_fit(st),
        0 <= from,
    ensures
        lookup_from(st.scopes, st.global_scope, name, from) matches Some(var) ==> variable_fits(
            var,
        ),
    decreases st.scopes.len() - from,
{
    if from >= st.scopes.len() {
        lemma_position(st.global_scope, name, 0);
    } else {
        lemma_position(st.scopes[from], name, 0);
        assert(scope_fits(st.scopes[from]));
        lemma_lookup_fits(st, name, from + 1);
    }
}

/// Declaring a variable that fits keeps all variables in scope fitting.
pub proof fn lemma_add_var_fits<'a>(st: GenView<'a>, var: Variable<'a>)
    requires
        scopes_fit(st),
        variable_fits(var),
    ensures
        st.scopes.len() > 0 ==> scopes_fit(st.add_var(var)),
        scopes_fit(st.add_global(var)),
{
    if st.scopes.len() > 0 {
        let next = st.add_var(var);
        assert forall|i: int| 0 <= i < next.scopes.len() implies scope_fits(
            #[trigger] next.scopes[i],
        ) by {
            assert(scope_fits(st.scopes[i]));
            if i == 0 {
                assert forall|j: int| 0 <= j < next.scopes[0].len() implies variable_fits(
                    #[trigger] next.scopes[0][j],
                ) by {
                    if j > 0 {
                        assert(next.scopes[0][j] == st.scopes[0][j - 1]);
                    }
                }
            }
        }
    }
    let global = st.add_global(var);
    assert forall|j: int| 0 <= j < global.global_scope.len() implies variable_fits(
        #[trigger] global.global_scope[j],
    ) by {
        if j > 0 {
            assert(global.global_scope[j] == st.global_scope[j - 1]);
        }
    }
    assert forall|i: int| 0 <= i < global.scopes.len() implies scope_fits(
        #[trigger] global.scopes[i],
    ) by {
        assert(scope_fits(st.scopes[i]));
    }
}

/// States with the same scopes fit alike.
pub proof fn lemma_same_scopes_fit<'a>(st: GenView<'a>, after: GenView<'a>)
    requires
        scopes_fit(st),
        same_scopes(st, after),
    ensures
        scopes_fit(after),
{
    assert forall|i: int| 0 <= i < after.scopes.len() implies scope_fits(
        #[trigger] after.scopes[i],
    ) by {
        assert(scope_fits(st.scopes[i]));
    }
}

/// A new scope keeps all variables in scope fitting.
pub proof fn lemma_open_scope_fits<'a>(st: GenView<'a>)
    requires
        scopes_fit(st),
    ensures
        scopes_fit(st.open_scope()),
        locals_size(st.open_scope().scopes[0]) == 0,
{
    let next = st.open_scope();
    assert forall|i: int| 0 <= i < next.scopes.len() implies scope_fits(
        #[trigger] next.scopes[i],
    ) by {
        if i > 0 {
            assert(next.scopes[i] == st.scopes[i - 1]);
            assert(scope_fits(st.scopes[i - 1]));
        }
    }
}

/// Reading a variable that fits pushes as many bytes as its type says.
pub proof fn lemma_read_variable_grows<'a>(st: GenView<'a>, var: Variable<'a>)
    requires
        variable_fits(var),
    ensures
        st.read_variable(var) matches Ok(after) ==> after.stack_sz == st.stack_sz
            + var.type_val.size_of(),
{
}

/// How far the virtual stack stands above the locals of the innermost
/// scope.
pub open spec fn level(st: GenView) -> int {
    st.stack_sz - locals_size(st.scopes[0])
}

/// The end of a scope gives the room of its locals back.
pub proof fn lemma_close_scope_level<'a>(st: GenView<'a>)
    ensures
        st.close_scope() matches Ok(after) ==> after.stack_sz == level(st),
{
}

/// The end of a block that yields a value of type `type_val` gives the
/// room of the block's locals back.
pub proof fn lemma_finish_block_level<'a>(
    st: GenView<'a>,
    label: int,
    prev_stack_sz: usize,
    type_val: TypeVal,
)
    ensures
        st.finish_block(label, prev_stack_sz, type_val) matches Ok(after) ==> after.stack_sz
            == level(st),
{
    let size = type_val.size_of();
    if prev_stack_sz <= st.stack_sz {
        let depth = (st.stack_sz - prev_stack_sz) as usize;
        let patched = crate::ir_gen::program::ProgramView {
            ir: st.program.ir.update(label, IRNode::StackAlloc(size)),
            ..st.program
        };
        match (GenView { program: patched.stack_realigned(label, depth, size), ..st }).grow(size) {
            Ok(grown) => match grown.locals_begin() {
                Ok(begin) => {
                    let offset = match begin {
                        Some(locals_begin) => grown.stack_sz - locals_begin + size,
                        None => size as int,
                    };
                    if offset <= usize::MAX {
                        match grown.pop_to_stack(type_val, offset as usize) {
                            Ok(popped) => {
                                assert(popped.scopes == st.scopes);
                                assert(popped.stack_sz == st.stack_sz);
                                lemma_close_scope_level(popped);
                            },
                            Err(_) => {},
                        }
                    }
                },
                Err(_) => {},
            },
            Err(_) => {},
        }
    }
}

/// Resolving a balanced expression leaves the virtual stack as it found
/// it, and what it finds fits its type.
pub proof fn lemma_resolve_balanced<'a>(st: GenView<'a>, expr: &Expr<'a>)
    requires
        scopes_fit(st),
        balanced_resolve(type_env(st), expr),
    ensures
        resolve_expr_spec(st, expr) matches Ok((after, symbol)) ==> after.stack_sz == st.stack_sz
            && symbol_fits(symbol.const_val, symbol.type_val),
    decreases expr.size(), 1nat,
{
    match expr {
        Expr::Variable(name) => {
            lemma_lookup_fits(st, name@, 0);
        },
        Expr::Block(body, return_expr) => match return_expr {
            Some(tail) => lemma_resolve_block_balanced(st, body, tail),
            None => {},
        },
        Expr::Function(body) => lemma_resolve_function_balanced(st, body),
        _ => {},
    }
}

/// Resolving a block whose declarations are balanced leaves the virtual
/// stack as it found it.
pub proof fn lemma_resolve_block_balanced<'a>(
    st: GenView<'a>,
    body: &Vec<Stmt<'a>>,
    tail: &Expr<'a>,
)
    requires
        scopes_fit(st),
        balanced_decls(type_env(st).open(), body, 0),
        balanced_resolve(decls_env(type_env(st).open(), body, 0), tail),
    ensures
        resolve_block_spec(st, body, tail) matches Ok((after, symbol)) ==> after.stack_sz
            == st.stack_sz && symbol_fits(symbol.const_val, symbol.type_val),
    decreases stmts_size(body, 0) + tail.size(), 2nat,
{
    let opened = st.open_scope();
    lemma_open_env(st);
    lemma_open_scope_fits(st);
    lemma_resolve_decls_balanced(opened, body, 0);
    lemma_resolve_decls_env(opened, body, 0);
    match resolve_decls_spec(opened, body, 0) {
        Ok(declared) => {
            lemma_resolve_balanced(declared, tail);
            lemma_resolve_expr_same_scopes(declared, tail);
            match resolve_expr_spec(declared, tail) {
                Ok((resolved, _)) => {
                    lemma_close_scope_level(resolved);
                },
                Err(_) => {},
            }
        },
        Err(_) => {},
    }
}

/// Lowering a function literal with a balanced body leaves the virtual
/// stack as it found it: what the body leaves is moved away as the
/// function's result.
pub proof fn lemma_resolve_function_balanced<'a>(st: GenView<'a>, body: &Expr<'a>)
    requires
        scopes_fit(st),
        balanced_resolve(type_env(st), body),
        balanced_gen(type_env(st), body),
    ensures
        resolve_function_spec(st, body) matches Ok((after, symbol)) ==> after.stack_sz
            == st.stack_sz && symbol_fits(symbol.const_val, symbol.type_val),
    decreases body.size(), 2nat,
{
    lemma_resolve_balanced(st, body);
    lemma_resolve_expr_same_scopes(st, body);
    lemma_resolve_expr_type(st, body);
    match resolve_expr_spec(st, body) {
        Ok((resolved, symbol)) => {
            let entered = resolved.enter_function();
            assert(same_scopes(st, entered));
            lemma_same_scopes_env(st, entered);
            lemma_same_scopes_fit(st, entered);
            lemma_gen_balanced(entered, body);
        },
        Err(_) => {},
    }
}

/// The balanced declarations of a block, lowered to resolve it, leave on
/// the virtual stack the room of the locals they declare.
pub proof fn lemma_resolve_decls_balanced<'a>(st: GenView<'a>, body: &Vec<Stmt<'a>>, from: int)
    requires
        scopes_fit(st),
        st.scopes.len() > 0,
        0 <= from,
        balanced_decls(type_env(st), body, from),
    ensures
        resolve_decls_spec(st, body, from) matches Ok(after) ==> scopes_fit(after) && level(after)
            == level(st),
    decreases stmts_size(body, from), 0nat,
{
    if from < body.len() {
        if body[from] is ConstDecl || body[from] is VarDecl {
            lemma_gen_stmt_balanced(st, &body[from]);
            lemma_gen_stmt_env(st, &body[from]);
            crate::ir_gen::gen_scopes::lemma_gen_stmt_same_outer_scopes(st, &body[from]);
            match gen_stmt_spec(st, &body[from]) {
                Ok(next) => lemma_resolve_decls_balanced(next, body, from + 1),
                Err(_) => {},
            }
        } else {
            assert(stmt_env(type_env(st), &body[from]) == type_env(st));
            lemma_resolve_decls_balanced(st, body, from + 1);
        }
    }
}

/// Balanced statements of a block leave on the virtual stack the room of
/// the locals they declare.
pub proof fn lemma_gen_stmts_balanced<'a>(st: GenView<'a>, body: &Vec<Stmt<'a>>, from: int)
    requires
        scopes_fit(st),
        st.scopes.len() > 0,
        0 <= from,
        balanced_body(type_env(st), body, from),
    ensures
        gen_stmts_spec(st, body, from) matches Ok(after) ==> scopes_fit(after) && level(after)
            == level(st),
    decreases stmts_size(body, from), 0nat,
{
    if from < body.len() {
        lemma_gen_stmt_balanced(st, &body[from]);
        lemma_gen_stmt_env(st, &body[from]);
        crate::ir_gen::gen_scopes::lemma_gen_stmt_same_outer_scopes(st, &body[from]);
        match gen_stmt_spec(st, &body[from]) {
            Ok(next) => lemma_gen_stmts_balanced(next, body, from + 1),
            Err(_) => {},
        }
    }
}

/// Lowering a balanced expression leaves on the virtual stack exactly the
/// bytes of its type.
pub proof fn lemma_gen_balanced<'a>(st: GenView<'a>, expr: &Expr<'a>)
    requires
        scopes_fit(st),
        balanced_gen(type_env(st), expr),
    ensures
        gen_expr_spec(st, expr) matches Ok(after) ==> after.stack_sz == st.stack_sz + type_of(
            type_env(st),
            expr,
        ).size_of(),
    decreases expr.size(), 1nat,
{
    match expr {
        Expr::Variable(name) => {
            lemma_lookup_fits(st, name@, 0);
            lemma_lookup_type(st, name@, 0);
            match st.lookup(name@) {
                Some(var) => lemma_read_variable_grows(st, var),
                None => {},
            }
        },
        Expr::Call(callee, args) => lemma_gen_call_balanced(st, callee, args),
        Expr::Block(body, return_expr) => lemma_gen_block_balanced(st, body, return_expr),
        _ => {},
    }
}

/// Lowering a call whose result takes eight bytes leaves eight bytes on
/// the virtual stack.
pub proof fn lemma_gen_call_balanced<'a>(st: GenView<'a>, callee: &Expr<'a>, args: &Vec<Expr<'a>>)
    requires
        scopes_fit(st),
        balanced_resolve(type_env(st), callee),
        type_of(type_env(st), callee) matches TypeVal::FunctionPointer(return_type_val)
            ==> return_type_val.size_of() == 8,
    ensures
        gen_call_spec(st, callee, args) matches Ok(after) ==> after.stack_sz == st.stack_sz + 8,
    decreases callee.size() + exprs_size(args, 0), 2nat,
{
    lemma_resolve_balanced(st, callee);
    lemma_resolve_expr_type(st, callee);
}

/// Lowering a balanced block leaves on the virtual stack exactly the
/// bytes of what it yields.
pub proof fn lemma_gen_block_balanced<'a>(
    st: GenView<'a>,
    body: &Vec<Stmt<'a>>,
    return_expr: &Option<Box<Expr<'a>>>,
)
    requires
        scopes_fit(st),
        return_expr matches Some(tail) && balanced_body(type_env(st).open(), body, 0)
            && balanced_gen(decls_env(type_env(st).open(), body, 0), tail) && balanced_resolve(
            decls_env(type_env(st).open(), body, 0),
            tail,
        ),
    ensures
        gen_block_spec(st, body, return_expr) matches Ok(after) ==> after.stack_sz == st.stack_sz
            + type_of(decls_env(type_env(st).open(), body, 0), &*return_expr->0).size_of(),
    decreases stmts_size(body, 0) + tail_size(return_expr), 2nat,
{
    let tail = return_expr->0;
    let opened = st.open_scope().emit(IRNode::StackAlloc(0));
    lemma_open_env(st);
    lemma_open_scope_fits(st);
    assert(same_scopes(st.open_scope(), opened));
    lemma_same_scopes_env(st.open_scope(), opened);
    lemma_same_scopes_fit(st.open_scope(), opened);
    lemma_gen_stmts_balanced(opened, body, 0);
    lemma_gen_stmts_env(opened, body, 0);
    match gen_stmts_spec(opened, body, 0) {
        Ok(lowered) => {
            lemma_gen_balanced(lowered, &*tail);
            lemma_gen_expr_same_scopes(lowered, &*tail);
            match gen_expr_spec(lowered, &*tail) {
                Ok(yielded) => {
                    lemma_same_scopes_env(lowered, yielded);
                    lemma_same_scopes_fit(lowered, yielded);
                    lemma_resolve_balanced(yielded, &*tail);
                    lemma_resolve_expr_type(yielded, &*tail);
                    lemma_resolve_expr_same_scopes(yielded, &*tail);
                    match resolve_expr_spec(yielded, &*tail) {
                        Ok((resolved, symbol)) => {
                            lemma_finish_block_level(
                                resolved,
                                st.program.ir.len() as int,
                                st.stack_sz,
                                symbol.type_val,
                            );
                        },
                        Err(_) => {},
                    }
                },
                Err(_) => {},
            }
        },
        Err(_) => {},
    }
}

/// A balanced statement of a block leaves on the virtual stack the room of
/// the local it declares, if it declares one.
pub proof fn lemma_gen_stmt_balanced<'a>(st: GenView<'a>, stmt: &Stmt<'a>)
    requires
        scopes_fit(st),
        st.scopes.len() > 0,
        balanced_stmt(type_env(st), stmt),
    ensures
        gen_stmt_spec(st, stmt) matches Ok(after) ==> scopes_fit(after) && level(after) == level(st),
    decreases stmt.size(), 1nat,
{
    match stmt {
        Stmt::Expr(expr, _) => {
            lemma_gen_expr_same_scopes(st, expr);
            match gen_expr_spec(st, expr) {
                Ok(lowered) => match lowered.drop_value(st) {
                    Ok(after) => {
                        assert(same_scopes(st, after));
                        lemma_same_scopes_fit(st, after);
                    },
                    Err(_) => {},
                },
                Err(_) => {},
            }
        },
        Stmt::PackageDecl(_) => {
            match gen_stmt_spec(st, stmt) {
                Ok(after) => {
                    assert(same_scopes(st, after));
                    lemma_same_scopes_fit(st, after);
                },
                Err(_) => {},
            }
        },
        Stmt::ConstDecl(name, init, type_expr, is_exported) => {
            lemma_gen_decl_balanced(st, *name, init, true, *is_exported);
        },
        Stmt::VarDecl(name, init, type_expr, is_exported) => {
            lemma_gen_decl_balanced(st, *name, init, false, *is_exported);
        },
    }
}

/// A balanced declaration inside a block leaves on the virtual stack the
/// room of the local it declares.
pub proof fn lemma_gen_decl_balanced<'a>(
    st: GenView<'a>,
    name: &'a str,
    init: &Option<Expr<'a>>,
    is_const: bool,
    is_exported: bool,
)
    requires
        scopes_fit(st),
        st.scopes.len() > 0,
        balanced_init(type_env(st), init, is_const),
    ensures
        gen_decl_spec(st, name, init, &None, is_const, is_exported) matches Ok(after)
            ==> scopes_fit(after) && level(after) == level(st),
    decreases opt_size(init), 3nat,
{
    match init {
        Some(expr) => {
            lemma_resolve_balanced(st, expr);
            lemma_resolve_expr_same_scopes(st, expr);
            lemma_resolve_expr_type(st, expr);
            match resolve_expr_spec(st, expr) {
                Ok((resolved, symbol)) => {
                    lemma_same_scopes_env(st, resolved);
                    lemma_same_scopes_fit(st, resolved);
                    if symbol.const_val is None || !is_const {
                        lemma_gen_balanced(resolved, expr);
                        lemma_gen_expr_same_scopes(resolved, expr);
                        match gen_expr_spec(resolved, expr) {
                            Ok(lowered) => {
                                lemma_same_scopes_fit(resolved, lowered);
                                let var = declared(
                                    name,
                                    symbol.type_val,
                                    None,
                                    Some(lowered.stack_sz),
                                    None,
                                );
                                lemma_add_var_fits(lowered, var);
                                lemma_add_var_same_outer_scopes(lowered, var);
                                lemma_locals_size_prepend(var, lowered.scopes[0]);
                            },
                            Err(_) => {},
                        }
                    } else {
                        let var = declared(name, symbol.type_val, None, None, symbol.const_val);
                        lemma_add_var_fits(resolved, var);
                        lemma_add_var_same_outer_scopes(resolved, var);
                        lemma_locals_size_prepend(var, resolved.scopes[0]);
                    }
                },
                Err(_) => {},
            }
        },
        None => {
            if !is_exported {
                match st.emit(IRNode::StackAlloc(TypeVal::UInt64.size_of())).grow(
                    TypeVal::UInt64.size_of(),
                ) {
                    Ok(allocated) => {
                        assert(same_scopes(st, allocated));
                        lemma_same_scopes_fit(st, allocated);
                        let var = declared(
                            name,
                            TypeVal::UInt64,
                            None,
                            Some(allocated.stack_sz),
                            None,
                        );
                        lemma_add_var_fits(allocated, var);
                        lemma_add_var_same_outer_scopes(allocated, var);
                        lemma_locals_size_prepend(var, allocated.scopes[0]);
                    },
                    Err(_) => {},
                }
            }
        },
    }
}

/// Resolving an expression leaves the virtual stack as it found it: what
/// a block emits to be resolved is taken back, and a function runs on a
/// stack of its own.
pub proof fn lemma_resolve_keeps_stack<'a>(st: GenView<'a>, expr: &Expr<'a>)
    ensures
        resolve_expr_spec(st, expr) matches Ok((after, _)) ==> after.stack_sz == st.stack_sz,
{
    match expr {
        Expr::Function(body) => {
            assert(resolve_expr_spec(st, expr) == resolve_function_spec(st, body));
        },
        Expr::Block(body, return_expr) => match return_expr {
            Some(tail) => {
                assert(resolve_expr_spec(st, expr) == resolve_block_spec(st, body, tail));
            },
            None => {},
        },
        _ => {},
    }
}

/// A statement at the top of a program leaves the virtual stack as it
/// found it, whatever it is: an expression gives its value back, and a
/// declaration there takes its room in the global segment.
pub proof fn lemma_top_statement_keeps_stack<'a>(st: GenView<'a>, stmt: &Stmt<'a>)
    requires
        st.scopes.len() == 0,
    ensures
        gen_stmt_spec(st, stmt) matches Ok(after) ==> after.stack_sz == st.stack_sz
            && after.scopes.len() == 0,
{
    crate::ir_gen::gen_laws::lemma_gen_stmt_scopes(st, stmt);
    match stmt {
        Stmt::ConstDecl(name, init, type_expr, is_exported) => {
            lemma_top_declaration_keeps_stack(st, *name, init, type_expr, true, *is_exported);
        },
        Stmt::VarDecl(name, init, type_expr, is_exported) => {
            lemma_top_declaration_keeps_stack(st, *name, init, type_expr, false, *is_exported);
        },
        _ => {},
    }
}

/// A declaration at the top of a program leaves the virtual stack as it
/// found it.
pub proof fn lemma_top_declaration_keeps_stack<'a>(
    st: GenView<'a>,
    name: &'a str,
    init: &Option<Expr<'a>>,
    type_expr: &Option<Expr<'a>>,
    is_const: bool,
    is_exported: bool,
)
    requires
        st.scopes.len() == 0,
    ensures
        gen_decl_spec(st, name, init, type_expr, is_const, is_exported) matches Ok(after)
            ==> after.stack_sz == st.stack_sz,
{
    match type_expr {
        Some(annotation) => {
            lemma_resolve_keeps_stack(st, annotation);
            crate::ir_gen::gen_laws::lemma_resolve_expr_scopes(st, annotation);
        },
        None => {},
    }
    match crate::ir_gen::gen_model::resolve_annotation_spec(st, type_expr) {
        Ok((typed, _)) => match init {
            Some(expr) => {
                lemma_resolve_keeps_stack(typed, expr);
                crate::ir_gen::gen_laws::lemma_resolve_expr_scopes(typed, expr);
            },
            None => {},
        },
        Err(_) => {},
    }
}

/// The statements at the top of a program leave the virtual stack as they
/// found it.
pub proof fn lemma_top_statements_keep_stack<'a>(st: GenView<'a>, ast: &Vec<Stmt<'a>>, from: int)
    requires
        st.scopes.len() == 0,
    ensures
        gen_stmts_spec(st, ast, from) matches Ok(after) ==> after.stack_sz == st.stack_sz
            && after.scopes.len() == 0,
    decreases ast.len() - from,
{
    if 0 <= from < ast.len() {
        lemma_top_statement_keeps_stack(st, &ast[from]);
        match gen_stmt_spec(st, &ast[from]) {
            Ok(next) => lemma_top_statements_keep_stack(next, ast, from + 1),
            Err(_) => {},
        }
    }
}

/// Stack balance: a program, lowered by a generator that starts with no
/// scope open, leaves the virtual stack as it found it and no scope open.
/// A fresh generator starts so, with an empty stack.
pub proof fn lemma_generated_keeps_stack<'a>(st: GenView<'a>, ast: &Vec<Stmt<'a>>)
    requires
        st.scopes.len() == 0,
    ensures
        generate_spec(st, ast) matches Ok(after) ==> after.stack_sz == st.stack_sz
            && after.scopes.len() == 0,
        GenView::<'a>::initial().scopes.len() == 0,
        GenView::<'a>::initial().stack_sz == 0,
{
    lemma_top_statements_keep_stack(st.with_runtime(), ast, 0);
}

} // verus!
