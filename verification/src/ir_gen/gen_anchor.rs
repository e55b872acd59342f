use vstd::prelude::*;
use crate::ir_gen::ctimeval::CTimeVal;
use crate::ir_gen::external::ExternalInfo;
use crate::ir_gen::gen_laws::{
    lemma_gen_block_scopes,
    lemma_gen_call_scopes,
    lemma_gen_decl_scopes,
    lemma_gen_stmts_scopes,
    lemma_resolve_block_scopes,
    lemma_resolve_function_scopes,
};
use crate::ir_gen::gen_model::{
    gen_args_spec,
    gen_block_spec,
    gen_call_spec,
    gen_decl_spec,
    gen_expr_spec,
    gen_stmt_spec,
    gen_stmts_spec,
    generate_spec,
    resolve_annotation_spec,
    resolve_block_spec,
    resolve_decls_spec,
    resolve_expr_spec,
    resolve_function_spec,
    tail_size,
    GenView,
};
use crate::parser::ast::{exprs_size, opt_size, stmts_size, Expr, Stmt};
use crate::ir_gen::ir::IRNode;
use crate::ir_gen::program::ProgramView;
use crate::ir_gen::typeval::TypeVal;
use crate::ir_gen::variable::Variable;

verus! {

/// Every relative reference of `ir` names an instruction of `ir` or its
/// end.
pub open spec fn within(ir: Seq<IRNode>) -> bool {
    forall|i: int|
        0 <= i < ir.len() && (#[trigger] ir[i]).is_reference() ==> 0 <= i + ir[i].reference()
            <= ir.len()
}

/// Every relative reference of `ir` names an instruction of `ir`.
pub open spec fn strict(ir: Seq<IRNode>) -> bool {
    forall|i: int|
        0 <= i < ir.len() && (#[trigger] ir[i]).is_reference() ==> 0 <= i + ir[i].reference()
            < ir.len()
}

/// `after` starts with the instructions of `before`, up to the operands of
/// those that hold no reference.
pub open spec fn frame(before: Seq<IRNode>, after: Seq<IRNode>) -> bool {
    &&& before.len() <= after.len()
    &&& forall|i: int|
        0 <= i < before.len() ==> (#[trigger] after[i]).is_reference() == before[i].is_reference()
            && (before[i].is_reference() ==> after[i] == before[i])
}

/// Appending an instruction whose reference, if it holds one, names an
/// instruction before it or itself.
pub proof fn lemma_push<'a>(ir: Seq<IRNode<'a>>, node: IRNode<'a>)
    requires
        within(ir),
        node.is_reference() ==> 0 <= ir.len() + node.reference() <= ir.len(),
    ensures
        strict(ir.push(node)),
        within(ir.push(node)),
        frame(ir, ir.push(node)),
{
    let grown = ir.push(node);
    assert forall|i: int| 0 <= i < grown.len() && (#[trigger] grown[i]).is_reference() implies 0
        <= i + grown[i].reference() < grown.len() by {
        if i < ir.len() {
            assert(ir[i].is_reference());
        }
    }
}

/// `frame` is transitive.
pub proof fn lemma_frame_trans<'a>(a: Seq<IRNode<'a>>, b: Seq<IRNode<'a>>, c: Seq<IRNode<'a>>)
    requires
        frame(a, b),
        frame(b, c),
    ensures
        frame(a, c),
{
    assert forall|i: int| 0 <= i < a.len() implies (#[trigger] c[i]).is_reference()
        == a[i].is_reference() && (a[i].is_reference() ==> c[i] == a[i]) by {
        assert(b[i].is_reference() == a[i].is_reference());
    }
}

/// Cutting a stream back to the length it had leaves its references as
/// they were then.
pub proof fn lemma_take<'a>(before: Seq<IRNode<'a>>, now: Seq<IRNode<'a>>)
    requires
        frame(before, now),
        within(before),
    ensures
        within(now.take(before.len() as int)),
        frame(before, now.take(before.len() as int)),
        strict(before) ==> strict(now.take(before.len() as int)),
{
    let cut = now.take(before.len() as int);
    assert forall|i: int| 0 <= i < cut.len() && (#[trigger] cut[i]).is_reference() implies 0 <= i
        + cut[i].reference() <= cut.len() && (strict(before) ==> i + cut[i].reference()
        < cut.len()) by {
        assert(now[i].is_reference() == before[i].is_reference());
        assert(before[i].is_reference());
    }
}

/// Replacing an instruction that holds no reference by another that holds
/// none.
pub proof fn lemma_update_plain<'a>(ir: Seq<IRNode<'a>>, at: int, node: IRNode<'a>)
    requires
        0 <= at < ir.len(),
        !ir[at].is_reference(),
        !node.is_reference(),
    ensures
        frame(ir, ir.update(at, node)),
        within(ir) ==> within(ir.update(at, node)),
        strict(ir) ==> strict(ir.update(at, node)),
{
    let next = ir.update(at, node);
    assert forall|i: int| 0 <= i < next.len() && (#[trigger] next[i]).is_reference() implies ir[i]
        == next[i] && ir[i].is_reference() by {}
}

/// Moving stack offsets leaves the references alone.
pub proof fn lemma_stack_realigned<'a>(p: ProgramView<'a>, after: int, threshold: usize, delta: usize)
    ensures
        frame(p.ir, p.stack_realigned(after, threshold, delta).ir),
        within(p.ir) ==> within(p.stack_realigned(after, threshold, delta).ir),
        strict(p.ir) ==> strict(p.stack_realigned(after, threshold, delta).ir),
        p.stack_realigned(after, threshold, delta).ir.len() == p.ir.len(),
{
    let next = p.stack_realigned(after, threshold, delta).ir;
    assert forall|i: int| 0 <= i < next.len() implies (#[trigger] next[i]).is_reference()
        == p.ir[i].is_reference() && (p.ir[i].is_reference() ==> next[i] == p.ir[i]) by {}
    assert forall|i: int| 0 <= i < next.len() && (#[trigger] next[i]).is_reference() implies p.ir[i]
        == next[i] && p.ir[i].is_reference() by {}
}

/// Making the jump at `at` land at the end of the stream.
pub proof fn lemma_patch<'a>(prefix: Seq<IRNode<'a>>, ir: Seq<IRNode<'a>>, at: int, offset: i16)
    requires
        within(ir),
        frame(prefix, ir),
        prefix.len() <= at < ir.len(),
        at + offset == ir.len(),
    ensures
        within(ir.update(at, IRNode::JumpFromOffset(offset))),
        frame(prefix, ir.update(at, IRNode::JumpFromOffset(offset))),
{
    let next = ir.update(at, IRNode::JumpFromOffset(offset));
    assert forall|i: int| 0 <= i < next.len() && (#[trigger] next[i]).is_reference() implies 0 <= i
        + next[i].reference() <= next.len() by {
        if i != at {
            assert(ir[i].is_reference());
        }
    }
}

/// What a step of the generator keeps, as far as the stream goes: the
/// references stay within it, and those that were there stay as they were.
pub open spec fn kept<'a>(st: GenView<'a>, after: GenView<'a>) -> bool {
    within(after.program.ir) && frame(st.program.ir, after.program.ir)
}

/// As `kept`, for a step that leaves every reference on an instruction
/// where it found every one on an instruction or emitted something.
pub open spec fn kept_strict<'a>(st: GenView<'a>, after: GenView<'a>) -> bool {
    &&& kept(st, after)
    &&& (strict(st.program.ir) || after.program.ir.len() > st.program.ir.len()) ==> strict(
        after.program.ir,
    )
}

/// One instruction emitted.
pub proof fn lemma_emit<'a>(st: GenView<'a>, node: IRNode<'a>)
    requires
        within(st.program.ir),
        node.is_reference() ==> 0 <= st.program.ir.len() + node.reference()
            <= st.program.ir.len(),
    ensures
        kept_strict(st, st.emit(node)),
        strict(st.emit(node).program.ir),
        st.emit(node).scopes == st.scopes,
{
    lemma_push(st.program.ir, node);
}

/// Two instructions emitted.
pub proof fn lemma_emit_two<'a>(st: GenView<'a>, first: IRNode<'a>, second: IRNode<'a>)
    requires
        within(st.program.ir),
        !first.is_reference(),
        !second.is_reference(),
    ensures
        kept_strict(st, st.emit(first).emit(second)),
        strict(st.emit(first).emit(second).program.ir),
{
    lemma_emit(st, first);
    lemma_emit(st.emit(first), second);
    lemma_frame_trans(
        st.program.ir,
        st.emit(first).program.ir,
        st.emit(first).emit(second).program.ir,
    );
}

/// The end of a scope.
pub proof fn lemma_close_scope<'a>(st: GenView<'a>)
    requires
        within(st.program.ir),
    ensures
        st.close_scope() matches Ok(after) ==> kept(st, after) && strict(after.program.ir)
            && after.scopes == st.scopes.drop_first(),
{
    let total = crate::ir_gen::gen_model::locals_size(st.scopes[0]);
    if total <= usize::MAX {
        lemma_emit(
            GenView { scopes: st.scopes.drop_first(), ..st },
            IRNode::StackDealloc(total as usize),
        );
    }
}

/// A value moved down the stack.
pub proof fn lemma_pop_to_stack<'a>(st: GenView<'a>, type_val: TypeVal, offset: usize)
    requires
        within(st.program.ir),
    ensures
        st.pop_to_stack(type_val, offset) matches Ok(after) ==> kept_strict(st, after)
            && after.scopes == st.scopes,
{
    match type_val {
        TypeVal::UInt64 | TypeVal::FunctionPointer(_) => {
            lemma_emit(st, IRNode::Pop64ToStack(offset));
        },
        TypeVal::MethodPointer | TypeVal::StringSlice => {
            lemma_emit_two(st, IRNode::Pop64ToStack(offset), IRNode::Pop64ToStack(offset));
        },
        TypeVal::Unit => {
            assert(frame(st.program.ir, st.program.ir));
        },
    }
}

/// A global pushed.
pub proof fn lemma_global_read_push<'a>(st: GenView<'a>, type_val: TypeVal, global_pos: usize)
    requires
        within(st.program.ir),
    ensures
        st.global_read_push(type_val, global_pos) matches Ok(after) ==> kept_strict(st, after)
            && after.scopes == st.scopes,
{
    match type_val {
        TypeVal::UInt64 | TypeVal::FunctionPointer(_) => {
            lemma_emit(st, IRNode::GlobalReadPush64(global_pos));
        },
        TypeVal::MethodPointer | TypeVal::StringSlice => {
            if global_pos + 8 <= usize::MAX {
                lemma_emit_two(
                    st,
                    IRNode::GlobalReadPush64(global_pos),
                    IRNode::GlobalReadPush64((global_pos + 8) as usize),
                );
            }
        },
        TypeVal::Unit => {
            assert(frame(st.program.ir, st.program.ir));
        },
    }
}

/// An external symbol pushed.
pub proof fn lemma_external_read_push<'a>(
    st: GenView<'a>,
    type_val: TypeVal,
    external: ExternalInfo<'a>,
)
    requires
        within(st.program.ir),
    ensures
        st.external_read_push(type_val, external) matches Ok(after) ==> kept_strict(st, after)
            && after.scopes == st.scopes,
{
    match type_val {
        TypeVal::Unit => {
            assert(frame(st.program.ir, st.program.ir));
        },
        _ => {
            lemma_emit(st, IRNode::ExternalReadPush64(external));
        },
    }
}

/// A local pushed.
pub proof fn lemma_stack_read_push<'a>(st: GenView<'a>, type_val: TypeVal, offset: usize)
    requires
        within(st.program.ir),
    ensures
        st.stack_read_push(type_val, offset) matches Ok(after) ==> kept_strict(st, after)
            && after.scopes == st.scopes,
{
    match type_val {
        TypeVal::UInt64 | TypeVal::FunctionPointer(_) => {
            lemma_emit(st, IRNode::StackReadPush64(offset));
        },
        TypeVal::MethodPointer | TypeVal::StringSlice => {
            if offset + 8 <= usize::MAX {
                lemma_emit_two(
                    st,
                    IRNode::StackReadPush64((offset + 8) as usize),
                    IRNode::StackReadPush64((offset + 8) as usize),
                );
            }
        },
        TypeVal::Unit => {
            assert(frame(st.program.ir, st.program.ir));
        },
    }
}

/// A constant pushed: the address of a function is pushed as a reference
/// to an instruction that stands before the push.
pub proof fn lemma_gen_const_val<'a>(st: GenView<'a>, const_val: CTimeVal)
    requires
        within(st.program.ir),
    ensures
        st.gen_const_val(const_val) matches Ok(after) ==> kept_strict(st, after) && after.scopes
            == st.scopes,
{
    match const_val {
        CTimeVal::UInt(value) => {
            lemma_emit(st, IRNode::Push64(value));
        },
        CTimeVal::StringSlice(pointer, len) => {
            lemma_emit_two(st, IRNode::PushStaticStringPointer(pointer), IRNode::Push64(len as u64));
        },
        CTimeVal::Function { address, .. } => {
            let distance = st.program.ir.len() - address;
            if 0 <= distance <= i16::MAX {
                lemma_emit(st, IRNode::PushAddressFromOffset((-distance) as i16));
            }
        },
        _ => {},
    }
}

/// A variable pushed.
pub proof fn lemma_read_variable<'a>(st: GenView<'a>, var: Variable<'a>)
    requires
        within(st.program.ir),
    ensures
        st.read_variable(var) matches Ok(after) ==> kept_strict(st, after) && after.scopes
            == st.scopes,
{
    assert(frame(st.program.ir, st.program.ir));
    match var.const_val {
        Some(const_val) => lemma_gen_const_val(st, const_val),
        None => match var.external {
            Some(external) => lemma_external_read_push(st, var.type_val, external),
            None => match var.global_pos {
                Some(pos) => lemma_global_read_push(st, var.type_val, pos),
                None => match var.stack_loc {
                    Some(stack_loc) => {
                        if stack_loc <= st.stack_sz {
                            lemma_stack_read_push(
                                st,
                                var.type_val,
                                (st.stack_sz - stack_loc) as usize,
                            );
                        }
                    },
                    None => {},
                },
            },
        },
    }
}

/// A string literal pushed.
pub proof fn lemma_gen_string<'a>(st: GenView<'a>, string: &'a str)
    requires
        within(st.program.ir),
    ensures
        st.gen_string(string) matches Ok(after) ==> kept_strict(st, after) && after.scopes
            == st.scopes,
{
    match st.intern(string) {
        Ok((interned, offset)) => {
            lemma_emit_two(
                interned,
                IRNode::PushStaticStringPointer(offset),
                IRNode::Push64(vstd::string::StringSliceAdditionalSpecFns::spec_bytes(string).len() as u64),
            );
        },
        Err(_) => {},
    }
}

/// The value of an expression statement given back.
pub proof fn lemma_drop_value<'a>(st: GenView<'a>, before: GenView<'a>)
    requires
        within(st.program.ir),
    ensures
        st.drop_value(before) matches Ok(after) ==> kept_strict(st, after) && after.scopes
            == st.scopes,
{
    assert(frame(st.program.ir, st.program.ir));
    if st.stack_sz > before.stack_sz {
        lemma_emit(st, IRNode::StackDealloc((st.stack_sz - before.stack_sz) as usize));
    }
}

/// A declaration without an initializer.
pub proof fn lemma_declare_uninitialized<'a>(
    st: GenView<'a>,
    name: &'a str,
    type_val: TypeVal,
    is_const: bool,
    is_exported: bool,
)
    requires
        within(st.program.ir),
    ensures
        st.declare_uninitialized(name, type_val, is_const, is_exported) matches Ok(after)
            ==> kept_strict(st, after) && after.scopes.len() == st.scopes.len(),
{
    assert(frame(st.program.ir, st.program.ir));
    if !is_exported {
        if st.scopes.len() > 0 {
            if !is_const {
                lemma_emit(st, IRNode::StackAlloc(type_val.size_of()));
            }
        }
    }
}

/// The end of a block that yields a value.
pub proof fn lemma_finish_block<'a>(
    st: GenView<'a>,
    label: int,
    prev_stack_sz: usize,
    type_val: TypeVal,
)
    requires
        within(st.program.ir),
        0 <= label < st.program.ir.len(),
        !st.program.ir[label].is_reference(),
    ensures
        st.finish_block(label, prev_stack_sz, type_val) matches Ok(after) ==> kept(st, after)
            && strict(after.program.ir) && after.scopes == st.scopes.drop_first(),
{
    let size = type_val.size_of();
    let patched = ProgramView {
        ir: st.program.ir.update(label, IRNode::StackAlloc(size)),
        ..st.program
    };
    lemma_update_plain(st.program.ir, label, IRNode::StackAlloc(size));
    if prev_stack_sz <= st.stack_sz {
        let depth = (st.stack_sz - prev_stack_sz) as usize;
        lemma_stack_realigned(patched, label, depth, size);
        let moved_ir = patched.stack_realigned(label, depth, size);
        lemma_frame_trans(st.program.ir, patched.ir, moved_ir.ir);
        match (GenView { program: moved_ir, ..st }).grow(size) {
            Ok(grown) => match grown.locals_begin() {
                Ok(begin) => {
                    let offset = match begin {
                        Some(locals_begin) => grown.stack_sz - locals_begin + size,
                        None => size as int,
                    };
                    if offset <= usize::MAX {
                        lemma_pop_to_stack(grown, type_val, offset as usize);
                        match grown.pop_to_stack(type_val, offset as usize) {
                            Ok(popped) => {
                                lemma_close_scope(popped);
                                match popped.close_scope() {
                                    Ok(closed) => {
                                        lemma_frame_trans(
                                            st.program.ir,
                                            grown.program.ir,
                                            popped.program.ir,
                                        );
                                        lemma_frame_trans(
                                            st.program.ir,
                                            popped.program.ir,
                                            closed.program.ir,
                                        );
                                    },
                                    Err(_) => {},
                                }
                            },
                            Err(_) => {},
                        }
                    }
                },
                Err(_) => {},
            },
            Err(_) => {},
        }
    }
}

/// The end of a function literal. At the top of a program, where no jump
/// leads past the function, every reference is left on an instruction.
pub proof fn lemma_leave_function<'a>(
    prefix: Seq<IRNode<'a>>,
    st: GenView<'a>,
    entered: GenView<'a>,
    return_type_val: TypeVal,
)
    requires
        within(st.program.ir),
        frame(prefix, st.program.ir),
        frame(entered.program.ir, st.program.ir),
        entered.scopes.len() > 0 ==> prefix.len() < entered.program.ir.len(),
    ensures
        st.leave_function(entered, return_type_val) matches Ok((after, _)) ==> {
            &&& within(after.program.ir)
            &&& frame(prefix, after.program.ir)
            &&& after.scopes == st.scopes
            &&& entered.scopes.len() == 0 ==> strict(after.program.ir)
        },
{
    lemma_pop_to_stack(st, return_type_val, (return_type_val.size_of() + 8) as usize);
    match st.pop_to_stack(return_type_val, (return_type_val.size_of() + 8) as usize) {
        Ok(moved) => {
            lemma_emit(moved, IRNode::Return { params_size: 0 });
            let returned = moved.emit(IRNode::Return { params_size: 0 });
            lemma_frame_trans(st.program.ir, moved.program.ir, returned.program.ir);
            lemma_frame_trans(prefix, st.program.ir, returned.program.ir);
            if entered.scopes.len() > 0 {
                let at = entered.program.ir.len() - 1;
                let distance = returned.program.ir.len() - at;
                if distance <= i16::MAX {
                    lemma_patch(prefix, returned.program.ir, at, distance as i16);
                }
            }
        },
        Err(_) => {},
    }
}

/// The state of a generator whose references are anchored: all of them
/// stay within the stream, and on instructions while no scope is open.
pub open spec fn anchored<'a>(st: GenView<'a>) -> bool {
    within(st.program.ir) && (st.scopes.len() == 0 ==> strict(st.program.ir))
}

/// What a step of the generator holds on to, from the anchored state `st`
/// to `after`: the state stays anchored, with as many scopes open, and the
/// references that were in the stream stay as they were.
pub open spec fn held<'a>(st: GenView<'a>, after: GenView<'a>) -> bool {
    &&& anchored(after)
    &&& frame(st.program.ir, after.program.ir)
    &&& after.scopes.len() == st.scopes.len()
}

/// `held` goes on over a further step.
pub proof fn lemma_held_trans<'a>(a: GenView<'a>, b: GenView<'a>, c: GenView<'a>)
    requires
        frame(a.program.ir, b.program.ir),
        a.scopes.len() == b.scopes.len(),
        held(b, c),
    ensures
        held(a, c),
{
    lemma_frame_trans(a.program.ir, b.program.ir, c.program.ir);
}

/// Resolving an expression holds on to the anchoring.
pub proof fn lemma_resolve_expr_anchor<'a>(st: GenView<'a>, expr: &Expr<'a>)
    requires
        anchored(st),
    ensures
        resolve_expr_spec(st, expr) matches Ok((after, _)) ==> held(st, after),
    decreases expr.size(), 1nat,
{
    match expr {
        Expr::Block(body, return_expr) => match return_expr {
            Some(tail) => lemma_resolve_block_anchor(st, body, tail),
            None => {},
        },
        Expr::Function(body) => lemma_resolve_function_anchor(st, body),
        _ => {},
    }
}

/// Resolving a block holds on to the anchoring: what it emitted is cut
/// off again.
pub proof fn lemma_resolve_block_anchor<'a>(st: GenView<'a>, body: &Vec<Stmt<'a>>, tail: &Expr<'a>)
    requires
        anchored(st),
    ensures
        resolve_block_spec(st, body, tail) matches Ok((after, _)) ==> held(st, after),
    decreases stmts_size(body, 0) + tail.size(), 2nat,
{
    lemma_resolve_block_scopes(st, body, tail);
    let opened = st.open_scope();
    lemma_resolve_decls_anchor(opened, body, 0);
    match resolve_decls_spec(opened, body, 0) {
        Ok(declared) => {
            lemma_resolve_expr_anchor(declared, tail);
            match resolve_expr_spec(declared, tail) {
                Ok((resolved, _)) => {
                    lemma_close_scope(resolved);
                    match resolved.close_scope() {
                        Ok(closed) => {
                            lemma_frame_trans(
                                st.program.ir,
                                declared.program.ir,
                                resolved.program.ir,
                            );
                            lemma_frame_trans(
                                st.program.ir,
                                resolved.program.ir,
                                closed.program.ir,
                            );
                            lemma_take(st.program.ir, closed.program.ir);
                        },
                        Err(_) => {},
                    }
                },
                Err(_) => {},
            }
        },
        Err(_) => {},
    }
}

/// Lowering a function literal holds on to the anchoring: the jump past
/// the function lands at the end of the stream, inside a block that goes
/// on behind it.
pub proof fn lemma_resolve_function_anchor<'a>(st: GenView<'a>, body: &Expr<'a>)
    requires
        anchored(st),
    ensures
        resolve_function_spec(st, body) matches Ok((after, _)) ==> held(st, after),
    decreases body.size(), 2nat,
{
    lemma_resolve_function_scopes(st, body);
    lemma_resolve_expr_anchor(st, body);
    match resolve_expr_spec(st, body) {
        Ok((resolved, symbol)) => {
            let entered = resolved.enter_function();
            if resolved.scopes.len() > 0 {
                lemma_emit(resolved, IRNode::JumpFromOffset(0));
            }
            assert(frame(resolved.program.ir, entered.program.ir));
            lemma_gen_expr_anchor(entered, body);
            match gen_expr_spec(entered, body) {
                Ok(lowered) => {
                    lemma_frame_trans(st.program.ir, resolved.program.ir, entered.program.ir);
                    lemma_frame_trans(st.program.ir, entered.program.ir, lowered.program.ir);
                    lemma_leave_function(st.program.ir, lowered, entered, symbol.type_val);
                },
                Err(_) => {},
            }
        },
        Err(_) => {},
    }
}

/// Lowering the declarations of a block holds on to the anchoring.
pub proof fn lemma_resolve_decls_anchor<'a>(st: GenView<'a>, body: &Vec<Stmt<'a>>, from: int)
    requires
        anchored(st),
    ensures
        resolve_decls_spec(st, body, from) matches Ok(after) ==> held(st, after),
    decreases stmts_size(body, from), 0nat,
{
    if 0 <= from < body.len() {
        if body[from] is ConstDecl || body[from] is VarDecl {
            lemma_gen_stmt_anchor(st, &body[from]);
            match gen_stmt_spec(st, &body[from]) {
                Ok(next) => {
                    lemma_resolve_decls_anchor(next, body, from + 1);
                    match resolve_decls_spec(next, body, from + 1) {
                        Ok(after) => lemma_held_trans(st, next, after),
                        Err(_) => {},
                    }
                },
                Err(_) => {},
            }
        } else {
            lemma_resolve_decls_anchor(st, body, from + 1);
        }
    }
}

/// Lowering statements holds on to the anchoring.
pub proof fn lemma_gen_stmts_anchor<'a>(st: GenView<'a>, body: &Vec<Stmt<'a>>, from: int)
    requires
        anchored(st),
    ensures
        gen_stmts_spec(st, body, from) matches Ok(after) ==> held(st, after),
    decreases stmts_size(body, from), 0nat,
{
    if 0 <= from < body.len() {
        lemma_gen_stmt_anchor(st, &body[from]);
        match gen_stmt_spec(st, &body[from]) {
            Ok(next) => {
                lemma_gen_stmts_anchor(next, body, from + 1);
                match gen_stmts_spec(next, body, from + 1) {
                    Ok(after) => lemma_held_trans(st, next, after),
                    Err(_) => {},
                }
            },
            Err(_) => {},
        }
    }
}

/// Lowering arguments holds on to the anchoring.
pub proof fn lemma_gen_args_anchor<'a>(st: GenView<'a>, args: &Vec<Expr<'a>>, from: int)
    requires
        anchored(st),
    ensures
        gen_args_spec(st, args, from) matches Ok(after) ==> held(st, after),
    decreases exprs_size(args, from), 0nat,
{
    if 0 <= from < args.len() {
        lemma_gen_expr_anchor(st, &args[from]);
        match gen_expr_spec(st, &args[from]) {
            Ok(next) => {
                lemma_gen_args_anchor(next, args, from + 1);
                match gen_args_spec(next, args, from + 1) {
                    Ok(after) => lemma_held_trans(st, next, after),
                    Err(_) => {},
                }
            },
            Err(_) => {},
        }
    }
}

/// Lowering an expression holds on to the anchoring.
pub proof fn lemma_gen_expr_anchor<'a>(st: GenView<'a>, expr: &Expr<'a>)
    requires
        anchored(st),
    ensures
        gen_expr_spec(st, expr) matches Ok(after) ==> held(st, after),
    decreases expr.size(), 1nat,
{
    match expr {
        Expr::IntLit(value) => {
            lemma_emit(st, IRNode::Push64(*value));
        },
        Expr::StringLit(string) => {
            lemma_gen_string(st, *string);
        },
        Expr::Call(callee, args) => lemma_gen_call_anchor(st, callee, args),
        Expr::Variable(name) => {
            match st.lookup(name@) {
                Some(var) => lemma_read_variable(st, var),
                None => {},
            }
        },
        Expr::Block(body, return_expr) => lemma_gen_block_anchor(st, body, return_expr),
        _ => {},
    }
}

/// Lowering a call holds on to the anchoring.
pub proof fn lemma_gen_call_anchor<'a>(st: GenView<'a>, callee: &Expr<'a>, args: &Vec<Expr<'a>>)
    requires
        anchored(st),
    ensures
        gen_call_spec(st, callee, args) matches Ok(after) ==> held(st, after),
    decreases callee.size() + exprs_size(args, 0), 2nat,
{
    lemma_gen_call_scopes(st, callee, args);
    lemma_resolve_expr_anchor(st, callee);
    match resolve_expr_spec(st, callee) {
        Ok((resolved, symbol)) => match symbol.type_val {
            TypeVal::FunctionPointer(return_type_val) => {
                lemma_emit(resolved, IRNode::StackAlloc(return_type_val.size_of()));
                match resolved.emit(IRNode::StackAlloc(return_type_val.size_of())).grow(
                    return_type_val.size_of(),
                ) {
                    Ok(allocated) => {
                        lemma_frame_trans(
                            st.program.ir,
                            resolved.program.ir,
                            allocated.program.ir,
                        );
                        lemma_gen_args_anchor(allocated, args, 0);
                        match gen_args_spec(allocated, args, 0) {
                            Ok(pushed) => {
                                lemma_frame_trans(
                                    st.program.ir,
                                    allocated.program.ir,
                                    pushed.program.ir,
                                );
                                lemma_gen_expr_anchor(pushed, callee);
                                match gen_expr_spec(pushed, callee) {
                                    Ok(ready) => {
                                        lemma_frame_trans(
                                            st.program.ir,
                                            pushed.program.ir,
                                            ready.program.ir,
                                        );
                                        lemma_emit(ready, IRNode::Call);
                                        lemma_frame_trans(
                                            st.program.ir,
                                            ready.program.ir,
                                            ready.emit(IRNode::Call).program.ir,
                                        );
                                    },
                                    Err(_) => {},
                                }
                            },
                            Err(_) => {},
                        }
                    },
                    Err(_) => {},
                }
            },
            _ => {},
        },
        Err(_) => {},
    }
}

/// Lowering a block holds on to the anchoring: the end of its scope is
/// emitted behind everything that was emitted in it.
pub proof fn lemma_gen_block_anchor<'a>(
    st: GenView<'a>,
    body: &Vec<Stmt<'a>>,
    return_expr: &Option<Box<Expr<'a>>>,
)
    requires
        anchored(st),
    ensures
        gen_block_spec(st, body, return_expr) matches Ok(after) ==> held(st, after),
    decreases stmts_size(body, 0) + tail_size(return_expr), 2nat,
{
    lemma_gen_block_scopes(st, body, return_expr);
    let label = st.program.ir.len() as int;
    lemma_emit(st.open_scope(), IRNode::StackAlloc(0));
    let opened = st.open_scope().emit(IRNode::StackAlloc(0));
    assert(opened.program.ir[label] == IRNode::StackAlloc(0));
    lemma_gen_stmts_anchor(opened, body, 0);
    match gen_stmts_spec(opened, body, 0) {
        Ok(lowered) => {
            lemma_frame_trans(st.program.ir, opened.program.ir, lowered.program.ir);
            match return_expr {
                None => {
                    lemma_close_scope(lowered);
                    match lowered.close_scope() {
                        Ok(closed) => lemma_frame_trans(
                            st.program.ir,
                            lowered.program.ir,
                            closed.program.ir,
                        ),
                        Err(_) => {},
                    }
                },
                Some(tail) => {
                    lemma_gen_expr_anchor(lowered, tail);
                    match gen_expr_spec(lowered, tail) {
                        Ok(yielded) => {
                            lemma_frame_trans(
                                opened.program.ir,
                                lowered.program.ir,
                                yielded.program.ir,
                            );
                            lemma_resolve_expr_anchor(yielded, tail);
                            match resolve_expr_spec(yielded, tail) {
                                Ok((resolved, symbol)) => {
                                    lemma_frame_trans(
                                        opened.program.ir,
                                        yielded.program.ir,
                                        resolved.program.ir,
                                    );
                                    lemma_frame_trans(
                                        st.program.ir,
                                        opened.program.ir,
                                        resolved.program.ir,
                                    );
                                    assert(!resolved.program.ir[label].is_reference());
                                    lemma_finish_block(
                                        resolved,
                                        label,
                                        st.stack_sz,
                                        symbol.type_val,
                                    );
                                    match resolved.finish_block(
                                        label,
                                        st.stack_sz,
                                        symbol.type_val,
                                    ) {
                                        Ok(after) => lemma_frame_trans(
                                            st.program.ir,
                                            resolved.program.ir,
                                            after.program.ir,
                                        ),
                                        Err(_) => {},
                                    }
                                },
                                Err(_) => {},
                            }
                        },
                        Err(_) => {},
                    }
                },
            }
        },
        Err(_) => {},
    }
}

/// Lowering a statement holds on to the anchoring.
pub proof fn lemma_gen_stmt_anchor<'a>(st: GenView<'a>, stmt: &Stmt<'a>)
    requires
        anchored(st),
    ensures
        gen_stmt_spec(st, stmt) matches Ok(after) ==> held(st, after),
    decreases stmt.size(), 1nat,
{
    match stmt {
        Stmt::Expr(expr, _) => {
            lemma_gen_expr_anchor(st, expr);
            match gen_expr_spec(st, expr) {
                Ok(lowered) => {
                    lemma_drop_value(lowered, st);
                    match lowered.drop_value(st) {
                        Ok(after) => {
                            lemma_frame_trans(
                                st.program.ir,
                                lowered.program.ir,
                                after.program.ir,
                            );
                        },
                        Err(_) => {},
                    }
                },
                Err(_) => {},
            }
        },
        Stmt::PackageDecl(_) => {},
        Stmt::ConstDecl(name, init, type_expr, is_exported) => lemma_gen_decl_anchor(
            st,
            *name,
            init,
            type_expr,
            true,
            *is_exported,
        ),
        Stmt::VarDecl(name, init, type_expr, is_exported) => lemma_gen_decl_anchor(
            st,
            *name,
            init,
            type_expr,
            false,
            *is_exported,
        ),
    }
}

/// Resolving a type annotation holds on to the anchoring.
pub proof fn lemma_resolve_annotation_anchor<'a>(st: GenView<'a>, type_expr: &Option<Expr<'a>>)
    requires
        anchored(st),
    ensures
        resolve_annotation_spec(st, type_expr) matches Ok((after, _)) ==> held(st, after),
    decreases opt_size(type_expr), 2nat,
{
    match type_expr {
        Some(annotation) => lemma_resolve_expr_anchor(st, annotation),
        None => {},
    }
}

/// Lowering a declaration holds on to the anchoring.
pub proof fn lemma_gen_decl_anchor<'a>(
    st: GenView<'a>,
    name: &'a str,
    init: &Option<Expr<'a>>,
    type_expr: &Option<Expr<'a>>,
    is_const: bool,
    is_exported: bool,
)
    requires
        anchored(st),
    ensures
        gen_decl_spec(st, name, init, type_expr, is_const, is_exported) matches Ok(after)
            ==> held(st, after),
    decreases opt_size(init) + opt_size(type_expr), 3nat,
{
    lemma_gen_decl_scopes(st, name, init, type_expr, is_const, is_exported);
    lemma_resolve_annotation_anchor(st, type_expr);
    match resolve_annotation_spec(st, type_expr) {
        Ok((typed, annotated)) => match init {
            Some(expr) => {
                lemma_resolve_expr_anchor(typed, expr);
                match resolve_expr_spec(typed, expr) {
                    Ok((resolved, _)) => {
                        lemma_frame_trans(st.program.ir, typed.program.ir, resolved.program.ir);
                        lemma_gen_expr_anchor(resolved, expr);
                        match gen_expr_spec(resolved, expr) {
                            Ok(lowered) => lemma_frame_trans(
                                st.program.ir,
                                resolved.program.ir,
                                lowered.program.ir,
                            ),
                            Err(_) => {},
                        }
                    },
                    Err(_) => {},
                }
            },
            None => {
                let type_val = match annotated {
                    Some(t) => t,
                    None => TypeVal::UInt64,
                };
                lemma_declare_uninitialized(typed, name, type_val, is_const, is_exported);
                match typed.declare_uninitialized(name, type_val, is_const, is_exported) {
                    Ok(after) => lemma_frame_trans(
                        st.program.ir,
                        typed.program.ir,
                        after.program.ir,
                    ),
                    Err(_) => {},
                }
            },
        },
        Err(_) => {},
    }
}

/// Offset validity: in the program that a generator makes of a syntax
/// tree, every relative reference names an instruction of the program, if
/// the generator started with no scope open from a program of which this
/// held. A fresh generator starts so.
pub proof fn lemma_generated_references_valid<'a>(st: GenView<'a>, ast: &Vec<Stmt<'a>>)
    requires
        st.scopes.len() == 0,
        st.program.references_valid(),
    ensures
        generate_spec(st, ast) matches Ok(after) ==> after.program.references_valid(),
        GenView::<'a>::initial().scopes.len() == 0,
        GenView::<'a>::initial().program.references_valid(),
{
    let start = st.with_runtime();
    lemma_gen_stmts_scopes(start, ast, 0);
    lemma_gen_stmts_anchor(start, ast, 0);
}

} // verus!
