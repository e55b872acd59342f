use vstd::prelude::*;
use crate::ir_gen::gen_model::{
    decl_type_val,
    declared,
    gen_decl_spec,
    gen_expr_spec,
    gen_stmt_spec,
    gen_stmts_spec,
    lookup_from,
    resolve_annotation_spec,
    resolve_decls_spec,
    resolve_expr_spec,
    GenView,
};
use crate::ir_gen::gen_scopes::{
    lemma_gen_expr_same_scopes,
    lemma_resolve_annotation_same_scopes,
    lemma_resolve_expr_same_scopes,
    same_scopes,
};
use crate::ir_gen::scope::position_from;
use crate::ir_gen::typeval::TypeVal;
use crate::ir_gen::variable::Variable;
use crate::parser::ast::{opt_size, stmts_size, Expr, Stmt};

verus! {

/// The types of the variables in scope, by their names: those of the open
/// scopes, the innermost first, and those of the global scope.
pub struct TypeEnv {
    pub scopes: Seq<Seq<(Seq<char>, TypeVal)>>,
    pub global: Seq<(Seq<char>, TypeVal)>,
}

/// Index of the first entry from index `from` on that is called `name`.
pub open spec fn typed_position(vars: Seq<(Seq<char>, TypeVal)>, name: Seq<char>, from: int)
    -> Option<int>
    decreases vars.len() - from,
{
    if from < 0 || from >= vars.len() {
        None
    } else if vars[from].0 == name {
        Some(from)
    } else {
        typed_position(vars, name, from + 1)
    }
}

impl TypeEnv {
    /// The environment inside a new scope.
    pub open spec fn open(self) -> TypeEnv {
        TypeEnv { scopes: seq![Seq::empty()] + self.scopes, ..self }
    }

    /// The environment behind a declaration of `name` with the type
    /// `type_val`: in the innermost scope, or in the global one where no
    /// scope is open.
    pub open spec fn add(self, name: Seq<char>, type_val: TypeVal) -> TypeEnv {
        if self.scopes.len() > 0 {
            TypeEnv {
                scopes: self.scopes.update(0, seq![(name, type_val)] + self.scopes[0]),
                ..self
            }
        } else {
            TypeEnv { global: seq![(name, type_val)] + self.global, ..self }
        }
    }

    /// The type of the variable that `name` refers to, looked for from the
    /// scope at index `from` on outwards.
    pub open spec fn lookup_from(self, name: Seq<char>, from: int) -> Option<TypeVal>
        decreases self.scopes.len() - from,
    {
        if from < 0 || from >= self.scopes.len() {
            match typed_position(self.global, name, 0) {
                Some(i) => Some(self.global[i].1),
                None => None,
            }
        } else {
            match typed_position(self.scopes[from], name, 0) {
                Some(i) => Some(self.scopes[from][i].1),
                None => self.lookup_from(name, from + 1),
            }
        }
    }

    /// The type of the variable that `name` refers to.
    pub open spec fn lookup(self, name: Seq<char>) -> Option<TypeVal> {
        self.lookup_from(name, 0)
    }
}

/// The names and types of the variables of a scope.
pub open spec fn typed_vars(vars: Seq<Variable>) -> Seq<(Seq<char>, TypeVal)> {
    Seq::new(vars.len(), |i: int| (vars[i].name@, vars[i].type_val))
}

/// The type environment of a state of the generator.
pub open spec fn type_env(st: GenView) -> TypeEnv {
    TypeEnv {
        scopes: Seq::new(st.scopes.len(), |i: int| typed_vars(st.scopes[i])),
        global: typed_vars(st.global_scope),
    }
}

/// The type of `expr` in the environment `env`: what resolving it finds.
/// Of a call and of a block that yields nothing, nothing is known, and
/// they count as `UInt64`.
pub open spec fn type_of<'a>(env: TypeEnv, expr: &Expr<'a>) -> TypeVal
    decreases expr.size(), 1nat,
{
    match expr {
        Expr::TypeUInt64 => TypeVal::UInt64,
        Expr::TypeString => TypeVal::StringSlice,
        Expr::IntLit(_) => TypeVal::UInt64,
        Expr::StringLit(_) => TypeVal::StringSlice,
        Expr::Call(..) => TypeVal::UInt64,
        Expr::Variable(name) => match env.lookup(name@) {
            Some(type_val) => type_val,
            None => TypeVal::UInt64,
        },
        Expr::Block(body, return_expr) => match return_expr {
            Some(tail) => type_of(decls_env(env.open(), body, 0), tail),
            None => TypeVal::UInt64,
        },
        Expr::Function(body) => TypeVal::FunctionPointer(Box::new(type_of(env, body))),
    }
}

/// The type of the variable that a declaration makes: the annotated one,
/// else that of the initializer, else `UInt64`.
pub open spec fn decl_type<'a>(env: TypeEnv, init: &Option<Expr<'a>>, type_expr: &Option<Expr<'a>>)
    -> TypeVal
    decreases opt_size(init) + opt_size(type_expr), 2nat,
{
    match type_expr {
        Some(annotation) => type_of(env, annotation),
        None => match init {
            Some(expr) => type_of(env, expr),
            None => TypeVal::UInt64,
        },
    }
}

/// The environment behind the statement `stmt`: a declaration adds its
/// variable, any other statement nothing.
pub open spec fn stmt_env<'a>(env: TypeEnv, stmt: &Stmt<'a>) -> TypeEnv
    decreases stmt.size(), 0nat,
{
    match stmt {
        Stmt::ConstDecl(name, init, type_expr, _) => env.add(name@, decl_type(env, init, type_expr)),
        Stmt::VarDecl(name, init, type_expr, _) => env.add(name@, decl_type(env, init, type_expr)),
        _ => env,
    }
}

/// The environment behind the statements of `body` from index `from` on.
pub open spec fn decls_env<'a>(env: TypeEnv, body: &Vec<Stmt<'a>>, from: int) -> TypeEnv
    decreases stmts_size(body, from), 0nat,
{
    if from < 0 || from >= body.len() {
        env
    } else {
        decls_env(stmt_env(env, &body[from]), body, from + 1)
    }
}

/// Looking a name up among variables and among their names and types
/// finds the same place.
pub proof fn lemma_typed_position(vars: Seq<Variable>, name: Seq<char>, from: int)
    ensures
        typed_position(typed_vars(vars), name, from) == position_from(vars, name, from),
    decreases vars.len() - from,
{
    if 0 <= from < vars.len() && vars[from].name@ != name {
        lemma_typed_position(vars, name, from + 1);
    }
}

/// The type environment knows the type of every variable in scope.
pub proof fn lemma_lookup_type<'a>(st: GenView<'a>, name: Seq<char>, from: int)
    requires
        0 <= from,
    ensures
        match lookup_from(st.scopes, st.global_scope, name, from) {
            Some(var) => type_env(st).lookup_from(name, from) == Some(var.type_val),
            None => type_env(st).lookup_from(name, from) is None,
        },
    decreases st.scopes.len() - from,
{
    if from >= st.scopes.len() {
        lemma_typed_position(st.global_scope, name, 0);
        crate::ir_gen::scope::lemma_position(st.global_scope, name, 0);
    } else {
        lemma_typed_position(st.scopes[from], name, 0);
        crate::ir_gen::scope::lemma_position(st.scopes[from], name, 0);
        lemma_lookup_type(st, name, from + 1);
    }
}

/// A new scope in the state is a new scope in the environment.
pub proof fn lemma_open_env<'a>(st: GenView<'a>)
    ensures
        type_env(st.open_scope()) == type_env(st).open(),
{
    assert(type_env(st.open_scope()).scopes =~= type_env(st).open().scopes) by {
        assert forall|i: int| 0 <= i < st.scopes.len() + 1 implies type_env(
            st.open_scope(),
        ).scopes[i] == type_env(st).open().scopes[i] by {
            if i == 0 {
                assert(typed_vars(Seq::<Variable>::empty()) =~= Seq::empty());
            }
        }
    }
}

/// A variable declared in the state is declared in the environment.
pub proof fn lemma_add_env<'a>(st: GenView<'a>, var: Variable<'a>)
    ensures
        st.scopes.len() > 0 ==> type_env(st.add_var(var)) == type_env(st).add(
            var.name@,
            var.type_val,
        ),
        st.scopes.len() == 0 ==> type_env(st.add_global(var)) == type_env(st).add(
            var.name@,
            var.type_val,
        ),
{
    if st.scopes.len() > 0 {
        assert(typed_vars(seq![var] + st.scopes[0]) =~= seq![(var.name@, var.type_val)]
            + typed_vars(st.scopes[0]));
        assert(type_env(st.add_var(var)).scopes =~= type_env(st).add(
            var.name@,
            var.type_val,
        ).scopes);
    } else {
        assert(typed_vars(seq![var] + st.global_scope) =~= seq![(var.name@, var.type_val)]
            + typed_vars(st.global_scope));
        assert(type_env(st.add_global(var)).scopes =~= type_env(st).scopes);
    }
}

/// States with the same scopes have the same environment.
pub proof fn lemma_same_scopes_env<'a>(st: GenView<'a>, after: GenView<'a>)
    requires
        same_scopes(st, after),
    ensures
        type_env(after) == type_env(st),
{
}

/// Resolving an expression finds the type that the expression has in the
/// environment of the state.
pub proof fn lemma_resolve_expr_type<'a>(st: GenView<'a>, expr: &Expr<'a>)
    ensures
        resolve_expr_spec(st, expr) matches Ok((_, symbol)) ==> symbol.type_val == type_of(
            type_env(st),
            expr,
        ),
    decreases expr.size(), 1nat,
{
    match expr {
        Expr::Variable(name) => {
            lemma_lookup_type(st, name@, 0);
        },
        Expr::Block(body, return_expr) => match return_expr {
            Some(tail) => {
                lemma_open_env(st);
                lemma_resolve_decls_env(st.open_scope(), body, 0);
                match resolve_decls_spec(st.open_scope(), body, 0) {
                    Ok(declared) => lemma_resolve_expr_type(declared, tail),
                    Err(_) => {},
                }
            },
            None => {},
        },
        Expr::Function(body) => {
            lemma_resolve_expr_type(st, body);
        },
        _ => {},
    }
}

/// The declarations of a block, lowered to resolve it, leave the
/// environment behind its statements.
pub proof fn lemma_resolve_decls_env<'a>(st: GenView<'a>, body: &Vec<Stmt<'a>>, from: int)
    requires
        0 <= from,
    ensures
        resolve_decls_spec(st, body, from) matches Ok(after) ==> type_env(after) == decls_env(
            type_env(st),
            body,
            from,
        ),
    decreases stmts_size(body, from), 0nat,
{
    if from < body.len() {
        if body[from] is ConstDecl || body[from] is VarDecl {
            lemma_gen_stmt_env(st, &body[from]);
            match gen_stmt_spec(st, &body[from]) {
                Ok(next) => lemma_resolve_decls_env(next, body, from + 1),
                Err(_) => {},
            }
        } else {
            assert(stmt_env(type_env(st), &body[from]) == type_env(st));
            lemma_resolve_decls_env(st, body, from + 1);
        }
    }
}

/// Statements, lowered in order, leave the environment behind them.
pub proof fn lemma_gen_stmts_env<'a>(st: GenView<'a>, body: &Vec<Stmt<'a>>, from: int)
    requires
        0 <= from,
    ensures
        gen_stmts_spec(st, body, from) matches Ok(after) ==> type_env(after) == decls_env(
            type_env(st),
            body,
            from,
        ),
    decreases stmts_size(body, from), 0nat,
{
    if from < body.len() {
        lemma_gen_stmt_env(st, &body[from]);
        match gen_stmt_spec(st, &body[from]) {
            Ok(next) => lemma_gen_stmts_env(next, body, from + 1),
            Err(_) => {},
        }
    }
}

/// A statement leaves the environment behind it.
pub proof fn lemma_gen_stmt_env<'a>(st: GenView<'a>, stmt: &Stmt<'a>)
    ensures
        gen_stmt_spec(st, stmt) matches Ok(after) ==> type_env(after) == stmt_env(
            type_env(st),
            stmt,
        ),
    decreases stmt.size(), 1nat,
{
    match stmt {
        Stmt::Expr(expr, _) => {
            lemma_gen_expr_same_scopes(st, expr);
        },
        Stmt::PackageDecl(_) => {},
        Stmt::ConstDecl(name, init, type_expr, is_exported) => {
            lemma_gen_decl_env(st, *name, init, type_expr, true, *is_exported);
        },
        Stmt::VarDecl(name, init, type_expr, is_exported) => {
            lemma_gen_decl_env(st, *name, init, type_expr, false, *is_exported);
        },
    }
}

/// A declaration adds its variable, with its type, to the environment.
pub proof fn lemma_gen_decl_env<'a>(
    st: GenView<'a>,
    name: &'a str,
    init: &Option<Expr<'a>>,
    type_expr: &Option<Expr<'a>>,
    is_const: bool,
    is_exported: bool,
)
    ensures
        gen_decl_spec(st, name, init, type_expr, is_const, is_exported) matches Ok(after)
            ==> type_env(after) == type_env(st).add(
            name@,
            decl_type(type_env(st), init, type_expr),
        ),
    decreases opt_size(init) + opt_size(type_expr), 3nat,
{
    lemma_resolve_annotation_same_scopes(st, type_expr);
    match type_expr {
        Some(annotation) => lemma_resolve_expr_type(st, annotation),
        None => {},
    }
    match resolve_annotation_spec(st, type_expr) {
        Ok((typed, annotated)) => {
            lemma_same_scopes_env(st, typed);
            match init {
                Some(expr) => {
                    lemma_resolve_expr_same_scopes(typed, expr);
                    lemma_resolve_expr_type(typed, expr);
                    match resolve_expr_spec(typed, expr) {
                        Ok((resolved, symbol)) => {
                            lemma_same_scopes_env(typed, resolved);
                            let type_val = decl_type_val(annotated, symbol);
                            if resolved.scopes.len() == 0 {
                                match symbol.const_val {
                                    Some(value) => match resolved.new_global_pos(type_val) {
                                        Ok((placed, pos)) => {
                                            lemma_add_env(
                                                placed,
                                                declared(
                                                    name,
                                                    type_val,
                                                    Some(pos),
                                                    None,
                                                    if is_const {
                                                        Some(value)
                                                    } else {
                                                        None
                                                    },
                                                ),
                                            );
                                        },
                                        Err(_) => {},
                                    },
                                    None => {},
                                }
                            } else if symbol.const_val is None || !is_const {
                                lemma_gen_expr_same_scopes(resolved, expr);
                                match gen_expr_spec(resolved, expr) {
                                    Ok(lowered) => {
                                        lemma_same_scopes_env(resolved, lowered);
                                        lemma_add_env(
                                            lowered,
                                            declared(
                                                name,
                                                type_val,
                                                None,
                                                Some(lowered.stack_sz),
                                                None,
                                            ),
                                        );
                                    },
                                    Err(_) => {},
                                }
                            } else {
                                lemma_add_env(
                                    resolved,
                                    declared(name, type_val, None, None, symbol.const_val),
                                );
                            }
                        },
                        Err(_) => {},
                    }
                },
                None => {
                    let type_val = match annotated {
                        Some(t) => t,
                        None => TypeVal::UInt64,
                    };
                    lemma_declare_uninitialized_env(typed, name, type_val, is_const, is_exported);
                },
            }
        },
        Err(_) => {},
    }
}

/// A declaration without an initializer adds its variable to the
/// environment.
pub proof fn lemma_declare_uninitialized_env<'a>(
    st: GenView<'a>,
    name: &'a str,
    type_val: TypeVal,
    is_const: bool,
    is_exported: bool,
)
    ensures
        st.declare_uninitialized(name, type_val, is_const, is_exported) matches Ok(after)
            ==> type_env(after) == type_env(st).add(name@, type_val),
{
    if !is_exported && st.scopes.len() > 0 {
        if is_const {
            lemma_add_env(st, declared(name, type_val, None, None, None));
        } else {
            match st.emit(crate::ir_gen::ir::IRNode::StackAlloc(type_val.size_of())).grow(
                type_val.size_of(),
            ) {
                Ok(allocated) => {
                    lemma_add_env(
                        allocated,
                        declared(name, type_val, None, Some(allocated.stack_sz), None),
                    );
                },
                Err(_) => {},
            }
        }
    }
}

} // verus!
