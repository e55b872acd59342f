use vstd::prelude::*;
use crate::ir_gen::ctimeval::CTimeVal;
use crate::ir_gen::gen_laws::lemma_gen_stmt_scopes;
use crate::ir_gen::gen_model::{
    decl_type_val,
    gen_args_spec,
    gen_block_spec,
    gen_call_spec,
    gen_decl_spec,
    gen_expr_spec,
    gen_stmt_spec,
    gen_stmts_spec,
    generate_spec,
    resolve_annotation_spec,
    resolve_block_spec,
    resolve_decls_spec,
    resolve_expr_spec,
    resolve_function_spec,
    tail_size,
    GenView,
};
use crate::ir_gen::gen_scopes::lemma_resolve_expr_same_scopes;
use crate::ir_gen::ir::IRNode;
use crate::ir_gen::program::ProgramView;
use crate::ir_gen::scope::lemma_position;
use crate::ir_gen::typeval::TypeVal;
use crate::ir_gen::variable::Variable;
use crate::parser::ast::{exprs_size, opt_size, stmts_size, Expr, Stmt};

verus! {

/// What a step of the generator leaves alone: the instructions below index
/// `floor`, none of which it takes away.
pub open spec fn standing<'a>(st: GenView<'a>, after: GenView<'a>, floor: int) -> bool {
    &&& after.program.ir.len() >= st.program.ir.len()
    &&& after.program.ir.take(floor) == st.program.ir.take(floor)
}

/// What a step of the generator that declares no global leaves alone: the
/// instructions below index `floor`, the globals and the global segment.
pub open spec fn stable<'a>(st: GenView<'a>, after: GenView<'a>, floor: int) -> bool {
    &&& standing(st, after, floor)
    &&& after.program.globals == st.program.globals
    &&& after.global_sz == st.global_sz
}

/// An instruction emitted leaves what stands alone.
pub proof fn lemma_emit_stable<'a>(st: GenView<'a>, node: IRNode<'a>, floor: int)
    requires
        0 <= floor <= st.program.ir.len(),
    ensures
        stable(st, st.emit(node), floor),
{
    assert(st.program.ir.push(node).take(floor) =~= st.program.ir.take(floor));
}

/// Two instructions emitted leave what stands alone.
pub proof fn lemma_emit_two_stable<'a>(
    st: GenView<'a>,
    first: IRNode<'a>,
    second: IRNode<'a>,
    floor: int,
)
    requires
        0 <= floor <= st.program.ir.len(),
    ensures
        stable(st, st.emit(first).emit(second), floor),
{
    lemma_emit_stable(st, first, floor);
    lemma_emit_stable(st.emit(first), second, floor);
}

/// The end of a scope leaves what stands alone.
pub proof fn lemma_close_scope_stable<'a>(st: GenView<'a>, floor: int)
    requires
        0 <= floor <= st.program.ir.len(),
    ensures
        st.close_scope() matches Ok(after) ==> stable(st, after, floor),
{
    let total = crate::ir_gen::gen_model::locals_size(st.scopes[0]);
    if total <= usize::MAX {
        lemma_emit_stable(
            GenView { scopes: st.scopes.drop_first(), ..st },
            IRNode::StackDealloc(total as usize),
            floor,
        );
    }
}

/// Moving a value down the stack leaves what stands alone.
pub proof fn lemma_pop_to_stack_stable<'a>(
    st: GenView<'a>,
    type_val: TypeVal,
    offset: usize,
    floor: int,
)
    requires
        0 <= floor <= st.program.ir.len(),
    ensures
        st.pop_to_stack(type_val, offset) matches Ok(after) ==> stable(st, after, floor),
{
    lemma_emit_stable(st, IRNode::Pop64ToStack(offset), floor);
    lemma_emit_two_stable(st, IRNode::Pop64ToStack(offset), IRNode::Pop64ToStack(offset), floor);
}

/// Pushing a variable leaves what stands alone.
pub proof fn lemma_read_variable_stable<'a>(st: GenView<'a>, var: Variable<'a>, floor: int)
    requires
        0 <= floor <= st.program.ir.len(),
    ensures
        st.read_variable(var) matches Ok(after) ==> stable(st, after, floor),
{
    match var.const_val {
        Some(const_val) => match const_val {
            CTimeVal::UInt(value) => {
                lemma_emit_stable(st, IRNode::Push64(value), floor);
            },
            CTimeVal::StringSlice(pointer, len) => {
                lemma_emit_two_stable(
                    st,
                    IRNode::PushStaticStringPointer(pointer),
                    IRNode::Push64(len as u64),
                    floor,
                );
            },
            CTimeVal::Function { address, .. } => {
                let distance = st.program.ir.len() - address;
                if 0 <= distance <= i16::MAX {
                    lemma_emit_stable(
                        st,
                        IRNode::PushAddressFromOffset((-distance) as i16),
                        floor,
                    );
                }
            },
            _ => {},
        },
        None => match var.external {
            Some(external) => {
                lemma_emit_stable(st, IRNode::ExternalReadPush64(external), floor);
            },
            None => match var.global_pos {
                Some(pos) => {
                    lemma_emit_stable(st, IRNode::GlobalReadPush64(pos), floor);
                    if pos + 8 <= usize::MAX {
                        lemma_emit_two_stable(
                            st,
                            IRNode::GlobalReadPush64(pos),
                            IRNode::GlobalReadPush64((pos + 8) as usize),
                            floor,
                        );
                    }
                },
                None => match var.stack_loc {
                    Some(stack_loc) => {
                        if stack_loc <= st.stack_sz {
                            let offset = (st.stack_sz - stack_loc) as usize;
                            lemma_emit_stable(st, IRNode::StackReadPush64(offset), floor);
                            if offset + 8 <= usize::MAX {
                                lemma_emit_two_stable(
                                    st,
                                    IRNode::StackReadPush64((offset + 8) as usize),
                                    IRNode::StackReadPush64((offset + 8) as usize),
                                    floor,
                                );
                            }
                        }
                    },
                    None => {},
                },
            },
        },
    }
}

/// Pushing a string literal leaves what stands alone.
pub proof fn lemma_gen_string_stable<'a>(st: GenView<'a>, string: &'a str, floor: int)
    requires
        0 <= floor <= st.program.ir.len(),
    ensures
        st.gen_string(string) matches Ok(after) ==> stable(st, after, floor),
{
    match st.intern(string) {
        Ok((interned, offset)) => {
            lemma_emit_two_stable(
                interned,
                IRNode::PushStaticStringPointer(offset),
                IRNode::Push64(
                    vstd::string::StringSliceAdditionalSpecFns::spec_bytes(string).len() as u64,
                ),
                floor,
            );
        },
        Err(_) => {},
    }
}

/// Giving the value of an expression statement back leaves what stands
/// alone.
pub proof fn lemma_drop_value_stable<'a>(st: GenView<'a>, before: GenView<'a>, floor: int)
    requires
        0 <= floor <= st.program.ir.len(),
    ensures
        st.drop_value(before) matches Ok(after) ==> stable(st, after, floor),
{
    if st.stack_sz > before.stack_sz {
        lemma_emit_stable(st, IRNode::StackDealloc((st.stack_sz - before.stack_sz) as usize), floor);
    }
}

/// The end of a block that yields a value leaves alone what stood before
/// the block.
pub proof fn lemma_finish_block_stable<'a>(
    st: GenView<'a>,
    label: int,
    prev_stack_sz: usize,
    type_val: TypeVal,
    floor: int,
)
    requires
        0 <= floor <= label < st.program.ir.len(),
    ensures
        st.finish_block(label, prev_stack_sz, type_val) matches Ok(after) ==> stable(
            st,
            after,
            floor,
        ),
{
    let size = type_val.size_of();
    let patched = ProgramView {
        ir: st.program.ir.update(label, IRNode::StackAlloc(size)),
        ..st.program
    };
    if prev_stack_sz <= st.stack_sz {
        let depth = (st.stack_sz - prev_stack_sz) as usize;
        let moved = GenView { program: patched.stack_realigned(label, depth, size), ..st };
        assert(moved.program.ir.take(floor) =~= st.program.ir.take(floor));
        assert(stable(st, moved, floor));
        match moved.grow(size) {
            Ok(grown) => match grown.locals_begin() {
                Ok(begin) => {
                    let offset = match begin {
                        Some(locals_begin) => grown.stack_sz - locals_begin + size,
                        None => size as int,
                    };
                    if offset <= usize::MAX {
                        lemma_pop_to_stack_stable(grown, type_val, offset as usize, floor);
                        match grown.pop_to_stack(type_val, offset as usize) {
                            Ok(popped) => {
                                lemma_close_scope_stable(popped, floor);
                            },
                            Err(_) => {},
                        }
                    }
                },
                Err(_) => {},
            },
            Err(_) => {},
        }
    }
}

/// The end of a function literal leaves alone what stood before the
/// function.
pub proof fn lemma_leave_function_stable<'a>(
    st: GenView<'a>,
    entered: GenView<'a>,
    return_type_val: TypeVal,
    floor: int,
)
    requires
        0 <= floor <= st.program.ir.len(),
        entered.scopes.len() > 0 ==> floor < entered.program.ir.len()
            <= st.program.ir.len(),
    ensures
        st.leave_function(entered, return_type_val) matches Ok((after, _)) ==> stable(
            st,
            after,
            floor,
        ),
{
    lemma_pop_to_stack_stable(
        st,
        return_type_val,
        (return_type_val.size_of() + 8) as usize,
        floor,
    );
    match st.pop_to_stack(return_type_val, (return_type_val.size_of() + 8) as usize) {
        Ok(moved) => {
            lemma_emit_stable(moved, IRNode::Return { params_size: 0 }, floor);
            let returned = moved.emit(IRNode::Return { params_size: 0 });
            if entered.scopes.len() > 0 {
                match returned.patch_jump(entered.program.ir.len() - 1) {
                    Ok(patched) => {
                        assert(patched.program.ir.take(floor) =~= returned.program.ir.take(
                            floor,
                        ));
                    },
                    Err(_) => {},
                }
            }
        },
        Err(_) => {},
    }
}

/// A declaration without an initializer leaves what stands, the globals
/// and the global segment alone.
pub proof fn lemma_declare_uninitialized_stable<'a>(
    st: GenView<'a>,
    name: &'a str,
    type_val: TypeVal,
    is_const: bool,
    is_exported: bool,
    floor: int,
)
    requires
        0 <= floor <= st.program.ir.len(),
    ensures
        st.declare_uninitialized(name, type_val, is_const, is_exported) matches Ok(after) ==> {
            &&& stable(st, after, floor)
            &&& st.scopes.len() > 0
        },
{
    if !is_exported && st.scopes.len() > 0 {
        lemma_emit_stable(st, IRNode::StackAlloc(type_val.size_of()), floor);
    }
}

/// Resolving an expression leaves what stands alone.
pub proof fn lemma_resolve_expr_stable<'a>(st: GenView<'a>, expr: &Expr<'a>, floor: int)
    requires
        0 <= floor <= st.program.ir.len(),
    ensures
        resolve_expr_spec(st, expr) matches Ok((after, _)) ==> stable(st, after, floor),
    decreases expr.size(), 1nat,
{
    match expr {
        Expr::Block(body, return_expr) => match return_expr {
            Some(tail) => lemma_resolve_block_stable(st, body, tail, floor),
            None => {},
        },
        Expr::Function(body) => lemma_resolve_function_stable(st, body, floor),
        _ => {},
    }
}

/// Resolving a block leaves the instructions as they were, all of them.
pub proof fn lemma_resolve_block_stable<'a>(
    st: GenView<'a>,
    body: &Vec<Stmt<'a>>,
    tail: &Expr<'a>,
    floor: int,
)
    requires
        0 <= floor <= st.program.ir.len(),
    ensures
        resolve_block_spec(st, body, tail) matches Ok((after, _)) ==> stable(st, after, floor)
            && after.program.ir == st.program.ir,
    decreases stmts_size(body, 0) + tail.size(), 2nat,
{
    let opened = st.open_scope();
    let all = st.program.ir.len() as int;
    lemma_resolve_decls_stable(opened, body, 0, all);
    match resolve_decls_spec(opened, body, 0) {
        Ok(declared) => {
            lemma_resolve_expr_stable(declared, tail, all);
            match resolve_expr_spec(declared, tail) {
                Ok((resolved, _)) => {
                    lemma_close_scope_stable(resolved, all);
                    match resolved.close_scope() {
                        Ok(closed) => {
                            assert(closed.program.ir.take(all) == st.program.ir.take(all));
                            assert(st.program.ir.take(all) =~= st.program.ir);
                            assert(st.program.ir.take(floor) =~= st.program.ir.take(floor));
                        },
                        Err(_) => {},
                    }
                },
                Err(_) => {},
            }
        },
        Err(_) => {},
    }
}

/// Lowering a function literal leaves what stands alone.
pub proof fn lemma_resolve_function_stable<'a>(st: GenView<'a>, body: &Expr<'a>, floor: int)
    requires
        0 <= floor <= st.program.ir.len(),
    ensures
        resolve_function_spec(st, body) matches Ok((after, _)) ==> stable(st, after, floor),
    decreases body.size(), 2nat,
{
    lemma_resolve_expr_stable(st, body, floor);
    match resolve_expr_spec(st, body) {
        Ok((resolved, symbol)) => {
            let entered = resolved.enter_function();
            if resolved.scopes.len() > 0 {
                lemma_emit_stable(resolved, IRNode::JumpFromOffset(0), floor);
            }
            lemma_gen_expr_stable(entered, body, floor);
            match gen_expr_spec(entered, body) {
                Ok(lowered) => {
                    lemma_leave_function_stable(lowered, entered, symbol.type_val, floor);
                },
                Err(_) => {},
            }
        },
        Err(_) => {},
    }
}

/// The declarations of a block, lowered to resolve it, leave what stands
/// and the globals alone.
pub proof fn lemma_resolve_decls_stable<'a>(
    st: GenView<'a>,
    body: &Vec<Stmt<'a>>,
    from: int,
    floor: int,
)
    requires
        0 <= floor <= st.program.ir.len(),
        st.scopes.len() > 0,
    ensures
        resolve_decls_spec(st, body, from) matches Ok(after) ==> stable(st, after, floor),
    decreases stmts_size(body, from), 0nat,
{
    if 0 <= from < body.len() {
        if body[from] is ConstDecl || body[from] is VarDecl {
            lemma_gen_stmt_stable(st, &body[from], floor);
            lemma_gen_stmt_scopes(st, &body[from]);
            match gen_stmt_spec(st, &body[from]) {
                Ok(next) => lemma_resolve_decls_stable(next, body, from + 1, floor),
                Err(_) => {},
            }
        } else {
            lemma_resolve_decls_stable(st, body, from + 1, floor);
        }
    }
}

/// The statements of a block leave what stands and the globals alone.
pub proof fn lemma_gen_stmts_stable<'a>(
    st: GenView<'a>,
    body: &Vec<Stmt<'a>>,
    from: int,
    floor: int,
)
    requires
        0 <= floor <= st.program.ir.len(),
        st.scopes.len() > 0,
    ensures
        gen_stmts_spec(st, body, from) matches Ok(after) ==> stable(st, after, floor),
    decreases stmts_size(body, from), 0nat,
{
    if 0 <= from < body.len() {
        lemma_gen_stmt_stable(st, &body[from], floor);
        lemma_gen_stmt_scopes(st, &body[from]);
        match gen_stmt_spec(st, &body[from]) {
            Ok(next) => lemma_gen_stmts_stable(next, body, from + 1, floor),
            Err(_) => {},
        }
    }
}

/// Lowering arguments leaves what stands alone.
pub proof fn lemma_gen_args_stable<'a>(
    st: GenView<'a>,
    args: &Vec<Expr<'a>>,
    from: int,
    floor: int,
)
    requires
        0 <= floor <= st.program.ir.len(),
    ensures
        gen_args_spec(st, args, from) matches Ok(after) ==> stable(st, after, floor),
    decreases exprs_size(args, from), 0nat,
{
    if 0 <= from < args.len() {
        lemma_gen_expr_stable(st, &args[from], floor);
        match gen_expr_spec(st, &args[from]) {
            Ok(next) => lemma_gen_args_stable(next, args, from + 1, floor),
            Err(_) => {},
        }
    }
}

/// Lowering an expression leaves what stands alone.
pub proof fn lemma_gen_expr_stable<'a>(st: GenView<'a>, expr: &Expr<'a>, floor: int)
    requires
        0 <= floor <= st.program.ir.len(),
    ensures
        gen_expr_spec(st, expr) matches Ok(after) ==> stable(st, after, floor),
    decreases expr.size(), 1nat,
{
    match expr {
        Expr::IntLit(value) => {
            lemma_emit_stable(st, IRNode::Push64(*value), floor);
        },
        Expr::StringLit(string) => {
            lemma_gen_string_stable(st, *string, floor);
        },
        Expr::Call(callee, args) => lemma_gen_call_stable(st, callee, args, floor),
        Expr::Variable(name) => {
            match st.lookup(name@) {
                Some(var) => lemma_read_variable_stable(st, var, floor),
                None => {},
            }
        },
        Expr::Block(body, return_expr) => lemma_gen_block_stable(st, body, return_expr, floor),
        _ => {},
    }
}

/// Lowering a call leaves what stands alone.
pub proof fn lemma_gen_call_stable<'a>(
    st: GenView<'a>,
    callee: &Expr<'a>,
    args: &Vec<Expr<'a>>,
    floor: int,
)
    requires
        0 <= floor <= st.program.ir.len(),
    ensures
        gen_call_spec(st, callee, args) matches Ok(after) ==> stable(st, after, floor),
    decreases callee.size() + exprs_size(args, 0), 2nat,
{
    lemma_resolve_expr_stable(st, callee, floor);
    match resolve_expr_spec(st, callee) {
        Ok((resolved, symbol)) => match symbol.type_val {
            TypeVal::FunctionPointer(return_type_val) => {
                lemma_emit_stable(resolved, IRNode::StackAlloc(return_type_val.size_of()), floor);
                match resolved.emit(IRNode::StackAlloc(return_type_val.size_of())).grow(
                    return_type_val.size_of(),
                ) {
                    Ok(allocated) => {
                        lemma_gen_args_stable(allocated, args, 0, floor);
                        match gen_args_spec(allocated, args, 0) {
                            Ok(pushed) => {
                                lemma_gen_expr_stable(pushed, callee, floor);
                                match gen_expr_spec(pushed, callee) {
                                    Ok(ready) => {
                                        lemma_emit_stable(ready, IRNode::Call, floor);
                                    },
                                    Err(_) => {},
                                }
                            },
                            Err(_) => {},
                        }
                    },
                    Err(_) => {},
                }
            },
            _ => {},
        },
        Err(_) => {},
    }
}

/// Lowering a block leaves what stands alone.
pub proof fn lemma_gen_block_stable<'a>(
    st: GenView<'a>,
    body: &Vec<Stmt<'a>>,
    return_expr: &Option<Box<Expr<'a>>>,
    floor: int,
)
    requires
        0 <= floor <= st.program.ir.len(),
    ensures
        gen_block_spec(st, body, return_expr) matches Ok(after) ==> stable(st, after, floor),
    decreases stmts_size(body, 0) + tail_size(return_expr), 2nat,
{
    let label = st.program.ir.len() as int;
    lemma_emit_stable(st.open_scope(), IRNode::StackAlloc(0), floor);
    let opened = st.open_scope().emit(IRNode::StackAlloc(0));
    lemma_gen_stmts_stable(opened, body, 0, floor);
    match gen_stmts_spec(opened, body, 0) {
        Ok(lowered) => match return_expr {
            None => {
                lemma_close_scope_stable(lowered, floor);
            },
            Some(tail) => {
                lemma_gen_expr_stable(lowered, tail, floor);
                match gen_expr_spec(lowered, tail) {
                    Ok(yielded) => {
                        lemma_resolve_expr_stable(yielded, tail, floor);
                        match resolve_expr_spec(yielded, tail) {
                            Ok((resolved, symbol)) => {
                                lemma_finish_block_stable(
                                    resolved,
                                    label,
                                    st.stack_sz,
                                    symbol.type_val,
                                    floor,
                                );
                            },
                            Err(_) => {},
                        }
                    },
                    Err(_) => {},
                }
            },
        },
        Err(_) => {},
    }
}

/// A statement inside a block leaves what stands and the globals alone.
pub proof fn lemma_gen_stmt_stable<'a>(st: GenView<'a>, stmt: &Stmt<'a>, floor: int)
    requires
        0 <= floor <= st.program.ir.len(),
        st.scopes.len() > 0,
    ensures
        gen_stmt_spec(st, stmt) matches Ok(after) ==> stable(st, after, floor),
    decreases stmt.size(), 1nat,
{
    match stmt {
        Stmt::Expr(expr, _) => {
            lemma_gen_expr_stable(st, expr, floor);
            match gen_expr_spec(st, expr) {
                Ok(lowered) => lemma_drop_value_stable(lowered, st, floor),
                Err(_) => {},
            }
        },
        Stmt::PackageDecl(_) => {},
        Stmt::ConstDecl(name, init, type_expr, is_exported) => lemma_gen_decl_stable(
            st,
            *name,
            init,
            type_expr,
            true,
            *is_exported,
            floor,
        ),
        Stmt::VarDecl(name, init, type_expr, is_exported) => lemma_gen_decl_stable(
            st,
            *name,
            init,
            type_expr,
            false,
            *is_exported,
            floor,
        ),
    }
}

/// Resolving a type annotation leaves what stands alone.
pub proof fn lemma_resolve_annotation_stable<'a>(
    st: GenView<'a>,
    type_expr: &Option<Expr<'a>>,
    floor: int,
)
    requires
        0 <= floor <= st.program.ir.len(),
    ensures
        resolve_annotation_spec(st, type_expr) matches Ok((after, _)) ==> stable(st, after, floor),
    decreases opt_size(type_expr), 2nat,
{
    match type_expr {
        Some(annotation) => lemma_resolve_expr_stable(st, annotation, floor),
        None => {},
    }
}

/// A declaration inside a block leaves what stands and the globals alone.
pub proof fn lemma_gen_decl_stable<'a>(
    st: GenView<'a>,
    name: &'a str,
    init: &Option<Expr<'a>>,
    type_expr: &Option<Expr<'a>>,
    is_const: bool,
    is_exported: bool,
    floor: int,
)
    requires
        0 <= floor <= st.program.ir.len(),
        st.scopes.len() > 0,
    ensures
        gen_decl_spec(st, name, init, type_expr, is_const, is_exported) matches Ok(after)
            ==> stable(st, after, floor),
    decreases opt_size(init) + opt_size(type_expr), 3nat,
{
    lemma_resolve_annotation_stable(st, type_expr, floor);
    crate::ir_gen::gen_laws::lemma_resolve_annotation_scopes(st, type_expr);
    match resolve_annotation_spec(st, type_expr) {
        Ok((typed, annotated)) => match init {
            Some(expr) => {
                lemma_resolve_expr_stable(typed, expr, floor);
                crate::ir_gen::gen_laws::lemma_resolve_expr_scopes(typed, expr);
                match resolve_expr_spec(typed, expr) {
                    Ok((resolved, _)) => {
                        lemma_gen_expr_stable(resolved, expr, floor);
                    },
                    Err(_) => {},
                }
            },
            None => {
                lemma_declare_uninitialized_stable(
                    typed,
                    name,
                    match annotated {
                        Some(t) => t,
                        None => TypeVal::UInt64,
                    },
                    is_const,
                    is_exported,
                    floor,
                );
            },
        },
        Err(_) => {},
    }
}

/// Whether every function that a variable of `vars` is known to be starts
/// at an instruction below index `len`.
pub open spec fn addresses_fit(vars: Seq<Variable>, len: int) -> bool {
    forall|i: int|
        0 <= i < vars.len() ==> ((#[trigger] vars[i]).const_val matches Some(
            CTimeVal::Function { address, .. },
        ) ==> address < len)
}

/// The state of a generator whose function addresses are grounded: those
/// of the globals and of the constants of the global scope name
/// instructions of the program.
pub open spec fn grounded(st: GenView) -> bool {
    st.program.addresses_valid() && addresses_fit(st.global_scope, st.program.ir.len() as int)
}

/// A step that leaves the scopes, the globals and the instructions that
/// stand alone leaves the addresses grounded.
pub proof fn lemma_stable_grounded<'a>(st: GenView<'a>, after: GenView<'a>)
    requires
        grounded(st),
        standing(st, after, 0),
        after.program.globals == st.program.globals,
        after.global_scope == st.global_scope,
    ensures
        grounded(after),
{
    assert forall|g: int| 0 <= g < after.program.globals.len() implies ((#[trigger] after.program.globals[g]).init matches CTimeVal::Function {
        address,
        ..
    } ==> address < after.program.ir.len()) by {
        assert(st.program.globals[g] == after.program.globals[g]);
    }
    assert forall|i: int| 0 <= i < after.global_scope.len() implies ((#[trigger] after.global_scope[i]).const_val matches Some(
        CTimeVal::Function { address, .. },
    ) ==> address < after.program.ir.len()) by {
        assert(st.global_scope[i] == after.global_scope[i]);
    }
}

/// At the top of a program, what resolving an expression finds is no
/// function, or one that starts at an instruction of the program: a
/// function that a block lowered for itself is not known outside it.
pub proof fn lemma_resolve_grounded<'a>(st: GenView<'a>, expr: &Expr<'a>)
    requires
        grounded(st),
        st.scopes.len() == 0,
    ensures
        resolve_expr_spec(st, expr) matches Ok((after, symbol)) ==> (symbol.const_val matches Some(
            CTimeVal::Function { address, .. },
        ) ==> address < after.program.ir.len()),
{
    match expr {
        Expr::Variable(name) => {
            lemma_position(st.global_scope, name@, 0);
        },
        Expr::Block(body, return_expr) => match return_expr {
            Some(tail) => lemma_resolve_block_stable(st, body, tail, 0),
            None => {},
        },
        Expr::Function(body) => {
            lemma_resolve_expr_same_scopes(st, body);
            lemma_resolve_expr_stable(st, body, 0);
            match resolve_expr_spec(st, body) {
                Ok((resolved, symbol)) => {
                    let entered = resolved.enter_function();
                    lemma_gen_expr_stable(entered, body, 0);
                    match gen_expr_spec(entered, body) {
                        Ok(lowered) => {
                            lemma_pop_to_stack_stable(
                                lowered,
                                symbol.type_val,
                                (symbol.type_val.size_of() + 8) as usize,
                                0,
                            );
                        },
                        Err(_) => {},
                    }
                },
                Err(_) => {},
            }
        },
        _ => {},
    }
}

/// A statement at the top of a program leaves the addresses grounded.
pub proof fn lemma_top_statement_grounded<'a>(st: GenView<'a>, stmt: &Stmt<'a>)
    requires
        grounded(st),
        st.scopes.len() == 0,
    ensures
        gen_stmt_spec(st, stmt) matches Ok(after) ==> grounded(after) && after.scopes.len() == 0,
{
    lemma_gen_stmt_scopes(st, stmt);
    match stmt {
        Stmt::Expr(expr, _) => {
            lemma_gen_expr_stable(st, expr, 0);
            crate::ir_gen::gen_scopes::lemma_gen_expr_same_scopes(st, expr);
            match gen_expr_spec(st, expr) {
                Ok(lowered) => {
                    lemma_drop_value_stable(lowered, st, 0);
                    match lowered.drop_value(st) {
                        Ok(after) => lemma_stable_grounded(st, after),
                        Err(_) => {},
                    }
                },
                Err(_) => {},
            }
        },
        Stmt::PackageDecl(_) => {
            match gen_stmt_spec(st, stmt) {
                Ok(after) => lemma_stable_grounded(st, after),
                Err(_) => {},
            }
        },
        Stmt::ConstDecl(name, init, type_expr, is_exported) => {
            lemma_top_declaration_grounded(st, *name, init, type_expr, true, *is_exported);
        },
        Stmt::VarDecl(name, init, type_expr, is_exported) => {
            lemma_top_declaration_grounded(st, *name, init, type_expr, false, *is_exported);
        },
    }
}

/// A declaration at the top of a program leaves the addresses grounded.
pub proof fn lemma_top_declaration_grounded<'a>(
    st: GenView<'a>,
    name: &'a str,
    init: &Option<Expr<'a>>,
    type_expr: &Option<Expr<'a>>,
    is_const: bool,
    is_exported: bool,
)
    requires
        grounded(st),
        st.scopes.len() == 0,
    ensures
        gen_decl_spec(st, name, init, type_expr, is_const, is_exported) matches Ok(after)
            ==> grounded(after),
{
    lemma_resolve_annotation_stable(st, type_expr, 0);
    crate::ir_gen::gen_scopes::lemma_resolve_annotation_same_scopes(st, type_expr);
    match resolve_annotation_spec(st, type_expr) {
        Ok((typed, annotated)) => {
            lemma_stable_grounded(st, typed);
            match init {
                Some(expr) => {
                    lemma_resolve_grounded(typed, expr);
                    lemma_resolve_expr_stable(typed, expr, 0);
                    lemma_resolve_expr_same_scopes(typed, expr);
                    match resolve_expr_spec(typed, expr) {
                        Ok((resolved, symbol)) => {
                            lemma_stable_grounded(typed, resolved);
                            match symbol.const_val {
                                Some(value) => match resolved.new_global_pos(
                                    decl_type_val(annotated, symbol),
                                ) {
                                    Ok((placed, pos)) => {
                                        let after = gen_decl_spec(
                                            st,
                                            name,
                                            init,
                                            type_expr,
                                            is_const,
                                            is_exported,
                                        )->Ok_0;
                                        assert forall|g: int|
                                            0 <= g < after.program.globals.len() implies ((#[trigger] after.program.globals[g]).init matches CTimeVal::Function {
                                            address,
                                            ..
                                        } ==> address < after.program.ir.len()) by {
                                            if g < resolved.program.globals.len() {
                                                assert(after.program.globals[g]
                                                    == resolved.program.globals[g]);
                                            }
                                        }
                                        assert forall|i: int|
                                            0 <= i < after.global_scope.len() implies ((#[trigger] after.global_scope[i]).const_val matches Some(
                                            CTimeVal::Function { address, .. },
                                        ) ==> address < after.program.ir.len()) by {
                                            if i > 0 {
                                                assert(after.global_scope[i]
                                                    == resolved.global_scope[i - 1]);
                                            }
                                        }
                                    },
                                    Err(_) => {},
                                },
                                None => {},
                            }
                        },
                        Err(_) => {},
                    }
                },
                None => {},
            }
        },
        Err(_) => {},
    }
}

/// Statements at the top of a program leave the addresses grounded.
pub proof fn lemma_top_statements_grounded<'a>(st: GenView<'a>, ast: &Vec<Stmt<'a>>, from: int)
    requires
        grounded(st),
        st.scopes.len() == 0,
    ensures
        gen_stmts_spec(st, ast, from) matches Ok(after) ==> grounded(after),
    decreases ast.len() - from,
{
    if 0 <= from < ast.len() {
        lemma_top_statement_grounded(st, &ast[from]);
        match gen_stmt_spec(st, &ast[from]) {
            Ok(next) => lemma_top_statements_grounded(next, ast, from + 1),
            Err(_) => {},
        }
    }
}

/// Address validity: in the program that a generator makes of a syntax
/// tree, every function address of a global names an instruction of the
/// program, if the generator started with no scope open and with
/// grounded addresses. A fresh generator starts so.
pub proof fn lemma_generated_addresses_valid<'a>(st: GenView<'a>, ast: &Vec<Stmt<'a>>)
    requires
        grounded(st),
        st.scopes.len() == 0,
    ensures
        generate_spec(st, ast) matches Ok(after) ==> after.program.addresses_valid(),
        grounded(GenView::<'a>::initial()),
{
    let start = st.with_runtime();
    assert forall|i: int| 0 <= i < start.global_scope.len() implies ((#[trigger] start.global_scope[i]).const_val matches Some(
        CTimeVal::Function { address, .. },
    ) ==> address < start.program.ir.len()) by {
        if i > 0 {
            assert(start.global_scope[i] == st.global_scope[i - 1]);
        }
    }
    lemma_top_statements_grounded(start, ast, 0);
}

/// Address stability: a statement at the top of a program leaves every
/// instruction that stands as it is, so that an address that names one
/// goes on naming it.
pub proof fn lemma_top_statement_keeps_instructions<'a>(st: GenView<'a>, stmt: &Stmt<'a>)
    requires
        st.scopes.len() == 0,
    ensures
        gen_stmt_spec(st, stmt) matches Ok(after) ==> {
            &&& after.program.ir.len() >= st.program.ir.len()
            &&& after.program.ir.take(st.program.ir.len() as int) == st.program.ir
        },
{
    let floor = st.program.ir.len() as int;
    assert(st.program.ir.take(floor) =~= st.program.ir);
    match stmt {
        Stmt::Expr(expr, _) => {
            lemma_gen_expr_stable(st, expr, floor);
            match gen_expr_spec(st, expr) {
                Ok(lowered) => lemma_drop_value_stable(lowered, st, floor),
                Err(_) => {},
            }
        },
        Stmt::PackageDecl(_) => {},
        Stmt::ConstDecl(name, init, type_expr, is_exported) => {
            lemma_top_declaration_keeps_instructions(
                st,
                *name,
                init,
                type_expr,
                true,
                *is_exported,
            );
        },
        Stmt::VarDecl(name, init, type_expr, is_exported) => {
            lemma_top_declaration_keeps_instructions(
                st,
                *name,
                init,
                type_expr,
                false,
                *is_exported,
            );
        },
    }
}

/// A declaration at the top of a program leaves every instruction that
/// stands as it is.
pub proof fn lemma_top_declaration_keeps_instructions<'a>(
    st: GenView<'a>,
    name: &'a str,
    init: &Option<Expr<'a>>,
    type_expr: &Option<Expr<'a>>,
    is_const: bool,
    is_exported: bool,
)
    requires
        st.scopes.len() == 0,
    ensures
        gen_decl_spec(st, name, init, type_expr, is_const, is_exported) matches Ok(after) ==> {
            &&& after.program.ir.len() >= st.program.ir.len()
            &&& after.program.ir.take(st.program.ir.len() as int) == st.program.ir
        },
{
    let floor = st.program.ir.len() as int;
    assert(st.program.ir.take(floor) =~= st.program.ir);
    lemma_resolve_annotation_stable(st, type_expr, floor);
    match resolve_annotation_spec(st, type_expr) {
        Ok((typed, annotated)) => match init {
            Some(expr) => {
                lemma_resolve_expr_stable(typed, expr, floor);
                match resolve_expr_spec(typed, expr) {
                    Ok((resolved, _)) => {
                        lemma_gen_expr_stable(resolved, expr, floor);
                    },
                    Err(_) => {},
                }
            },
            None => {
                lemma_declare_uninitialized_stable(
                    typed,
                    name,
                    match annotated {
                        Some(t) => t,
                        None => TypeVal::UInt64,
                    },
                    is_const,
                    is_exported,
                    floor,
                );
            },
        },
        Err(_) => {},
    }
}

/// Resolving an expression that is no function literal leaves the
/// instructions, the scopes, the globals, the global segment and the
/// virtual stack as they were. The scope that a block opens to be
/// resolved is closed, and all that was emitted for it is taken back.
pub proof fn lemma_resolve_restores<'a>(st: GenView<'a>, expr: &Expr<'a>)
    requires
        !(expr is Function),
    ensures
        resolve_expr_spec(st, expr) matches Ok((after, _)) ==> {
            &&& after.program.ir == st.program.ir
            &&& after.program.globals == st.program.globals
            &&& after.scopes == st.scopes
            &&& after.global_scope == st.global_scope
            &&& after.stack_sz == st.stack_sz
            &&& after.global_sz == st.global_sz
        },
{
    lemma_resolve_expr_same_scopes(st, expr);
    lemma_resolve_expr_stable(st, expr, 0);
    crate::ir_gen::balance::lemma_resolve_keeps_stack(st, expr);
    match expr {
        Expr::Block(body, return_expr) => match return_expr {
            Some(tail) => {
                lemma_resolve_block_stable(st, body, tail, 0);
            },
            None => {},
        },
        _ => {},
    }
}

/// A constant that is declared inside a block with an initializer of
/// known value takes no room: it is added to the innermost scope with its
/// value and without a place, and nothing is emitted and nothing pushed
/// for it beyond what resolving the initializer left.
pub proof fn lemma_local_constant_takes_no_room<'a>(
    st: GenView<'a>,
    name: &'a str,
    expr: &Expr<'a>,
)
    requires
        st.scopes.len() > 0,
    ensures
        resolve_expr_spec(st, expr) matches Ok((resolved, symbol)) ==> (symbol.const_val is Some
            ==> gen_decl_spec(st, name, &Some(*expr), &None, true, false) == Ok::<
            GenView<'a>,
            crate::ir_gen::error::CompileError,
        >(
            resolved.add_var(
                crate::ir_gen::gen_model::declared(
                    name,
                    symbol.type_val,
                    None,
                    None,
                    symbol.const_val,
                ),
            ),
        )),
{
    crate::ir_gen::gen_laws::lemma_resolve_expr_scopes(st, expr);
}

} // verus!
