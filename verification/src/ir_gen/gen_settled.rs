use vstd::prelude::*;
use vstd::string::StringSliceAdditionalSpecFns;
use crate::ir_gen::ctimeval::CTimeVal;
use crate::ir_gen::external::ExternalInfo;
use crate::ir_gen::gen_model::{
    declared, function_symbol, gen_args_spec, gen_block_spec, gen_call_spec, gen_decl_spec,
    gen_expr_spec, gen_stmt_spec, gen_stmts_spec, generate_spec, lookup_from,
    resolve_annotation_spec, resolve_expr_spec, resolve_function_spec, tail_size, GenView,
};
use crate::ir_gen::gen_scopes::{
    lemma_gen_expr_same_scopes, lemma_gen_stmts_same_outer_scopes,
    lemma_resolve_block_same_scopes, lemma_resolve_expr_same_scopes,
};
use crate::ir_gen::gen_stable::{
    lemma_finish_block_stable, lemma_gen_args_stable, lemma_gen_expr_stable,
    lemma_gen_stmts_stable, lemma_pop_to_stack_stable, lemma_resolve_block_stable,
    lemma_resolve_expr_stable,
};
use crate::ir_gen::ir::IRNode;
use crate::ir_gen::program::ProgramView;
use crate::ir_gen::scope::{lemma_position, position};
use crate::ir_gen::settled::is_never_matched;
use crate::ir_gen::typeval::TypeVal;
use crate::ir_gen::variable::Variable;
use crate::parser::ast::{exprs_size, opt_size, stmts_size, Expr, Stmt};

verus! {

/// Whether the function that starts at index `address` has ended: a
/// return stands behind its first instruction.
pub open spec fn ended(ir: Seq<IRNode>, address: int) -> bool {
    exists|r: int| address < r < ir.len() && 0 <= r && (#[trigger] ir[r]) is Return
}

/// Whether every function that a variable of `vars` is known to be has
/// ended.
pub open spec fn vars_ended(vars: Seq<Variable>, ir: Seq<IRNode>) -> bool {
    forall|i: int|
        0 <= i < vars.len() ==> ((#[trigger] vars[i]).const_val matches Some(
            CTimeVal::Function { address, .. },
        ) ==> ended(ir, address as int))
}

/// The state of a generator whose calls are in order: every address that
/// the program pushes is one of a function that ended before the push, and
/// so is every function that a variable in scope is known to be.
pub open spec fn in_order(st: GenView) -> bool {
    &&& st.program.calls_reach_back()
    &&& vars_ended(st.global_scope, st.program.ir)
    &&& forall|s: int| 0 <= s < st.scopes.len() ==> vars_ended(#[trigger] st.scopes[s], st.program.ir)
}

/// Whether two instructions are alike in what matters to the order of
/// calls: both are returns or neither is, and if one pushes an address the
/// other is the same instruction.
pub open spec fn alike(x: IRNode, y: IRNode) -> bool {
    &&& x is Return <==> y is Return
    &&& x is PushAddressFromOffset || y is PushAddressFromOffset ==> x == y
}

impl<'a> Expr<'a> {
    /// Whether the expression is tame: no declaration in it has a block
    /// that yields a value for its initializer, and no function in it has
    /// a bare name for its body. The laws below do not follow a function
    /// through such a block, and such a body may come to no instruction at
    /// all.
    pub open spec fn is_tame(&self) -> bool
        decreases self, 0nat,
    {
        match self {
            Expr::Block(body, return_expr) => stmts_tame(body, 0) && match return_expr {
                Some(tail) => tail.is_tame(),
                None => true,
            },
            Expr::Call(callee, args) => callee.is_tame() && exprs_tame(args, 0),
            Expr::Function(body) => !(**body is Variable) && body.is_tame(),
            _ => true,
        }
    }
}

/// Whether an expression that may be absent is tame.
pub open spec fn opt_tame<'a>(expr: &Option<Expr<'a>>) -> bool
    decreases expr, 0nat,
{
    match expr {
        Some(e) => e.is_tame(),
        None => true,
    }
}

impl<'a> Stmt<'a> {
    /// Whether the statement is tame: its expressions are, and if it is a
    /// declaration its initializer is no block that yields a value.
    pub open spec fn is_tame(&self) -> bool
        decreases self, 0nat,
    {
        match self {
            Stmt::Expr(expr, _) => expr.is_tame(),
            Stmt::ConstDecl(_, init, type_expr, _) => opt_tame(init) && opt_tame(type_expr) && !(
            init matches Some(Expr::Block(_, Some(_)))),
            Stmt::VarDecl(_, init, type_expr, _) => opt_tame(init) && opt_tame(type_expr) && !(
            init matches Some(Expr::Block(_, Some(_)))),
            Stmt::PackageDecl(_) => true,
        }
    }
}

/// Whether the statements of `body` from index `from` on are tame.
pub open spec fn stmts_tame<'a>(body: &Vec<Stmt<'a>>, from: int) -> bool
    decreases body, body.len() - from,
{
    if from < 0 || from >= body.len() {
        true
    } else {
        proof {
            vstd::std_specs::vec::axiom_vec_index_decreases(*body, from);
        }
        body[from].is_tame() && stmts_tame(body, from + 1)
    }
}

/// Whether the expressions of `args` from index `from` on are tame.
pub open spec fn exprs_tame<'a>(args: &Vec<Expr<'a>>, from: int) -> bool
    decreases args, args.len() - from,
{
    if from < 0 || from >= args.len() {
        true
    } else {
        proof {
            vstd::std_specs::vec::axiom_vec_index_decreases(*args, from);
        }
        args[from].is_tame() && exprs_tame(args, from + 1)
    }
}

/// A function that has ended has ended in every stream that is alike, as
/// far as the first goes.
pub proof fn lemma_ended_alike(a: Seq<IRNode>, b: Seq<IRNode>, address: int)
    requires
        ended(a, address),
        a.len() <= b.len(),
        forall|i: int| 0 <= i < a.len() ==> alike(#[trigger] a[i], b[i]),
    ensures
        ended(b, address),
{
    let r = choose|r: int| address < r < a.len() && 0 <= r && (#[trigger] a[r]) is Return;
    assert(alike(a[r], b[r]));
    assert(b[r] is Return);
}

/// The variables of a state stay in order when the stream changes into
/// one that is alike, as far as it went.
pub proof fn lemma_vars_ended_alike(vars: Seq<Variable>, a: Seq<IRNode>, b: Seq<IRNode>)
    requires
        vars_ended(vars, a),
        a.len() <= b.len(),
        forall|i: int| 0 <= i < a.len() ==> alike(#[trigger] a[i], b[i]),
    ensures
        vars_ended(vars, b),
{
    assert forall|i: int| 0 <= i < vars.len() implies ((#[trigger] vars[i]).const_val matches Some(
        CTimeVal::Function { address, .. },
    ) ==> ended(b, address as int)) by {
        if let Some(CTimeVal::Function { address, .. }) = vars[i].const_val {
            lemma_ended_alike(a, b, address as int);
        }
    }
}

/// A state stays in order when its stream changes into one that is alike
/// as far as it went, and in which every address pushed further on is one
/// of a function that ended before the push.
pub proof fn lemma_in_order_alike<'a>(st: GenView<'a>, after: GenView<'a>)
    requires
        in_order(st),
        after.scopes == st.scopes,
        after.global_scope == st.global_scope,
        st.program.ir.len() <= after.program.ir.len(),
        forall|i: int|
            0 <= i < st.program.ir.len() ==> alike(#[trigger] st.program.ir[i], after.program.ir[i]),
        forall|h: int|
            st.program.ir.len() <= h < after.program.ir.len() && (
            #[trigger] after.program.ir[h]) is PushAddressFromOffset
                ==> after.program.returns_between(h + after.program.ir[h].reference(), h),
    ensures
        in_order(after),
{
    let a = st.program.ir;
    let b = after.program.ir;
    lemma_vars_ended_alike(st.global_scope, a, b);
    assert forall|s: int| 0 <= s < after.scopes.len() implies vars_ended(
        #[trigger] after.scopes[s],
        b,
    ) by {
        lemma_vars_ended_alike(st.scopes[s], a, b);
    }
    assert forall|h: int|
        0 <= h < b.len() && (#[trigger] b[h]) is PushAddressFromOffset implies after.program.returns_between(
        h + b[h].reference(),
        h,
    ) by {
        if h < a.len() {
            assert(alike(a[h], b[h]));
            assert(st.program.returns_between(h + a[h].reference(), h));
            let r = choose|r: int|
                h + a[h].reference() < r < h && 0 <= r < a.len() && (#[trigger] a[r]) is Return;
            assert(alike(a[r], b[r]));
            assert(b[r] is Return);
        }
    }
}

/// An instruction that pushes no address, emitted, leaves the state in
/// order.
pub proof fn lemma_emit_in_order<'a>(st: GenView<'a>, node: IRNode<'a>)
    requires
        in_order(st),
        !(node is PushAddressFromOffset),
    ensures
        in_order(st.emit(node)),
{
    lemma_in_order_alike(st, st.emit(node));
}

/// The address of a function that has ended, pushed, leaves the state in
/// order.
pub proof fn lemma_push_address_in_order<'a>(st: GenView<'a>, address: usize)
    requires
        in_order(st),
        ended(st.program.ir, address as int),
        st.program.ir.len() - address <= i16::MAX,
    ensures
        in_order(st.emit(IRNode::PushAddressFromOffset((address - st.program.ir.len()) as i16))),
{
    let node = IRNode::PushAddressFromOffset((address - st.program.ir.len()) as i16);
    let after = st.emit(node);
    let r = choose|r: int|
        address < r < st.program.ir.len() && 0 <= r && (#[trigger] st.program.ir[r]) is Return;
    assert(after.program.ir[r] is Return);
    lemma_in_order_alike(st, after);
}

/// The variable that a name refers to in a state in order is, if it is
/// known to be a function, one that has ended.
pub proof fn lemma_lookup_in_order<'a>(st: GenView<'a>, name: Seq<char>, from: int)
    requires
        in_order(st),
        0 <= from,
    ensures
        lookup_from(st.scopes, st.global_scope, name, from) matches Some(var) ==> (
        var.const_val matches Some(CTimeVal::Function { address, .. }) ==> ended(
            st.program.ir,
            address as int,
        )),
    decreases st.scopes.len() - from,
{
    if from >= st.scopes.len() {
        lemma_position(st.global_scope, name, 0);
    } else {
        lemma_position(st.scopes[from], name, 0);
        if position(st.scopes[from], name) is None {
            lemma_lookup_in_order(st, name, from + 1);
        }
    }
}

/// A step that leaves the stream and the scopes as they are leaves the
/// state in order.
pub proof fn lemma_same_code_in_order<'a>(st: GenView<'a>, after: GenView<'a>)
    requires
        in_order(st),
        after.program.ir == st.program.ir,
        after.scopes == st.scopes,
        after.global_scope == st.global_scope,
    ensures
        in_order(after),
{
    lemma_in_order_alike(st, after);
}

/// A value moved down the stack leaves the state in order.
pub proof fn lemma_pop_to_stack_in_order<'a>(st: GenView<'a>, type_val: TypeVal, offset: usize)
    requires
        in_order(st),
    ensures
        st.pop_to_stack(type_val, offset) matches Ok(after) ==> in_order(after)
            && after.scopes == st.scopes && after.global_scope == st.global_scope
            && after.program.ir.len() >= st.program.ir.len() && (type_val.size_of() > 0
            ==> after.program.ir.len() > st.program.ir.len()),
{
    let one = st.emit(IRNode::Pop64ToStack(offset));
    lemma_emit_in_order(st, IRNode::Pop64ToStack(offset));
    lemma_emit_in_order(one, IRNode::Pop64ToStack(offset));
    match st.pop_to_stack(type_val, offset) {
        Ok(after) => {
            match type_val {
                TypeVal::UInt64 | TypeVal::FunctionPointer(_) => {
                    lemma_same_code_in_order(one, after);
                },
                TypeVal::MethodPointer | TypeVal::StringSlice => {
                    lemma_same_code_in_order(one.emit(IRNode::Pop64ToStack(offset)), after);
                },
                TypeVal::Unit => {
                    lemma_same_code_in_order(st, after);
                },
            }
        },
        Err(_) => {},
    }
}

/// A variable read leaves the state in order, if the function that it is
/// known to be, if it is one, has ended.
pub proof fn lemma_read_variable_in_order<'a>(st: GenView<'a>, var: Variable<'a>)
    requires
        in_order(st),
        var.const_val matches Some(CTimeVal::Function { address, .. }) ==> ended(
            st.program.ir,
            address as int,
        ),
    ensures
        st.read_variable(var) matches Ok(after) ==> in_order(after) && after.scopes == st.scopes
            && after.global_scope == st.global_scope,
{
    match st.read_variable(var) {
        Ok(after) => {
            match var.const_val {
                Some(const_val) => {
                    match const_val {
                        CTimeVal::UInt(value) => {
                            lemma_emit_in_order(st, IRNode::Push64(value));
                            lemma_same_code_in_order(st.emit(IRNode::Push64(value)), after);
                        },
                        CTimeVal::StringSlice(pointer, len) => {
                            let one = st.emit(IRNode::PushStaticStringPointer(pointer));
                            lemma_emit_in_order(st, IRNode::PushStaticStringPointer(pointer));
                            lemma_emit_in_order(one, IRNode::Push64(len as u64));
                            lemma_same_code_in_order(one.emit(IRNode::Push64(len as u64)), after);
                        },
                        CTimeVal::Function { address, .. } => {
                            lemma_push_address_in_order(st, address);
                            lemma_same_code_in_order(
                                st.emit(
                                    IRNode::PushAddressFromOffset(
                                        (address - st.program.ir.len()) as i16,
                                    ),
                                ),
                                after,
                            );
                        },
                        _ => {},
                    }
                },
                None => match var.external {
                    Some(external) => {
                        lemma_external_read_in_order(st, var.type_val, external);
                    },
                    None => match var.global_pos {
                        Some(pos) => {
                            lemma_global_read_in_order(st, var.type_val, pos);
                        },
                        None => match var.stack_loc {
                            Some(stack_loc) => {
                                lemma_stack_read_in_order(
                                    st,
                                    var.type_val,
                                    (st.stack_sz - stack_loc) as usize,
                                );
                            },
                            None => {},
                        },
                    },
                },
            }
        },
        Err(_) => {},
    }
}

/// An external symbol read leaves the state in order.
pub proof fn lemma_external_read_in_order<'a>(
    st: GenView<'a>,
    type_val: TypeVal,
    external: ExternalInfo<'a>,
)
    requires
        in_order(st),
    ensures
        st.external_read_push(type_val, external) matches Ok(after) ==> in_order(after)
            && after.scopes == st.scopes && after.global_scope == st.global_scope,
{
    lemma_emit_in_order(st, IRNode::ExternalReadPush64(external));
    match st.external_read_push(type_val, external) {
        Ok(after) => {
            match type_val {
                TypeVal::Unit => lemma_same_code_in_order(st, after),
                _ => lemma_same_code_in_order(st.emit(IRNode::ExternalReadPush64(external)), after),
            }
        },
        Err(_) => {},
    }
}

/// A global read leaves the state in order.
pub proof fn lemma_global_read_in_order<'a>(st: GenView<'a>, type_val: TypeVal, global_pos: usize)
    requires
        in_order(st),
    ensures
        st.global_read_push(type_val, global_pos) matches Ok(after) ==> in_order(after)
            && after.scopes == st.scopes && after.global_scope == st.global_scope,
{
    let one = st.emit(IRNode::GlobalReadPush64(global_pos));
    lemma_emit_in_order(st, IRNode::GlobalReadPush64(global_pos));
    match st.global_read_push(type_val, global_pos) {
        Ok(after) => {
            match type_val {
                TypeVal::UInt64 | TypeVal::FunctionPointer(_) => {
                    lemma_same_code_in_order(one, after);
                },
                TypeVal::MethodPointer | TypeVal::StringSlice => {
                    let second = IRNode::GlobalReadPush64((global_pos + 8) as usize);
                    lemma_emit_in_order(one, second);
                    lemma_same_code_in_order(one.emit(second), after);
                },
                TypeVal::Unit => {
                    lemma_same_code_in_order(st, after);
                },
            }
        },
        Err(_) => {},
    }
}

/// A local read leaves the state in order.
pub proof fn lemma_stack_read_in_order<'a>(st: GenView<'a>, type_val: TypeVal, offset: usize)
    requires
        in_order(st),
    ensures
        st.stack_read_push(type_val, offset) matches Ok(after) ==> in_order(after) && after.scopes
            == st.scopes && after.global_scope == st.global_scope,
{
    match st.stack_read_push(type_val, offset) {
        Ok(after) => {
            match type_val {
                TypeVal::UInt64 | TypeVal::FunctionPointer(_) => {
                    lemma_emit_in_order(st, IRNode::StackReadPush64(offset));
                    lemma_same_code_in_order(st.emit(IRNode::StackReadPush64(offset)), after);
                },
                TypeVal::MethodPointer | TypeVal::StringSlice => {
                    let node = IRNode::StackReadPush64((offset + 8) as usize);
                    lemma_emit_in_order(st, node);
                    lemma_emit_in_order(st.emit(node), node);
                    lemma_same_code_in_order(st.emit(node).emit(node), after);
                },
                TypeVal::Unit => {
                    lemma_same_code_in_order(st, after);
                },
            }
        },
        Err(_) => {},
    }
}

/// A variable pushed by its name leaves the state in order.
pub proof fn lemma_gen_variable_in_order<'a>(st: GenView<'a>, name: Seq<char>)
    requires
        in_order(st),
    ensures
        st.gen_variable(name) matches Ok(after) ==> in_order(after) && after.scopes == st.scopes
            && after.global_scope == st.global_scope,
{
    lemma_lookup_in_order(st, name, 0);
    match st.lookup(name) {
        Some(var) => lemma_read_variable_in_order(st, var),
        None => {},
    }
}

/// A string literal pushed leaves the state in order, and takes at least
/// one instruction.
pub proof fn lemma_gen_string_in_order<'a>(st: GenView<'a>, string: &'a str)
    requires
        in_order(st),
    ensures
        st.gen_string(string) matches Ok(after) ==> in_order(after) && after.scopes == st.scopes
            && after.global_scope == st.global_scope && after.program.ir.len()
            > st.program.ir.len(),
{
    match st.intern(string) {
        Ok((interned, offset)) => {
            lemma_same_code_in_order(st, interned);
            let one = interned.emit(IRNode::PushStaticStringPointer(offset));
            let len = IRNode::Push64(string.spec_bytes().len() as u64);
            lemma_emit_in_order(interned, IRNode::PushStaticStringPointer(offset));
            lemma_emit_in_order(one, len);
            match st.gen_string(string) {
                Ok(after) => lemma_same_code_in_order(one.emit(len), after),
                Err(_) => {},
            }
        },
        Err(_) => {},
    }
}

/// The end of a scope leaves the state in order.
pub proof fn lemma_close_scope_in_order<'a>(st: GenView<'a>)
    requires
        in_order(st),
        st.scopes.len() > 0,
    ensures
        st.close_scope() matches Ok(after) ==> in_order(after) && after.scopes
            == st.scopes.drop_first() && after.global_scope == st.global_scope
            && after.program.ir.len() > st.program.ir.len(),
{
    match st.close_scope() {
        Ok(after) => {
            let left = GenView { scopes: st.scopes.drop_first(), ..st };
            assert forall|s: int| 0 <= s < left.scopes.len() implies vars_ended(
                #[trigger] left.scopes[s],
                left.program.ir,
            ) by {
                assert(left.scopes[s] == st.scopes[s + 1]);
            }
            let total = crate::ir_gen::gen_model::locals_size(st.scopes[0]);
            lemma_emit_in_order(left, IRNode::StackDealloc(total as usize));
            lemma_same_code_in_order(left.emit(IRNode::StackDealloc(total as usize)), after);
        },
        Err(_) => {},
    }
}

/// A new scope leaves the state in order.
pub proof fn lemma_open_scope_in_order<'a>(st: GenView<'a>)
    requires
        in_order(st),
    ensures
        in_order(st.open_scope()),
{
    let opened = st.open_scope();
    assert forall|s: int| 0 <= s < opened.scopes.len() implies vars_ended(
        #[trigger] opened.scopes[s],
        opened.program.ir,
    ) by {
        if s > 0 {
            assert(opened.scopes[s] == st.scopes[s - 1]);
        }
    }
}

/// A variable declared in the innermost scope leaves the state in order,
/// if the function that it is known to be, if it is one, has ended.
pub proof fn lemma_add_var_in_order<'a>(st: GenView<'a>, var: Variable<'a>)
    requires
        in_order(st),
        st.scopes.len() > 0,
        var.const_val matches Some(CTimeVal::Function { address, .. }) ==> ended(
            st.program.ir,
            address as int,
        ),
    ensures
        in_order(st.add_var(var)),
{
    let after = st.add_var(var);
    assert forall|s: int| 0 <= s < after.scopes.len() implies vars_ended(
        #[trigger] after.scopes[s],
        after.program.ir,
    ) by {
        if s == 0 {
            let vars = after.scopes[0];
            assert forall|i: int| 0 <= i < vars.len() implies ((#[trigger] vars[i]).const_val matches Some(
                CTimeVal::Function { address, .. },
            ) ==> ended(after.program.ir, address as int)) by {
                if i > 0 {
                    assert(vars[i] == st.scopes[0][i - 1]);
                }
            }
        } else {
            assert(after.scopes[s] == st.scopes[s]);
        }
    }
}

/// A variable declared in the global scope leaves the state in order, if
/// the function that it is known to be, if it is one, has ended.
pub proof fn lemma_add_global_in_order<'a>(st: GenView<'a>, var: Variable<'a>)
    requires
        in_order(st),
        var.const_val matches Some(CTimeVal::Function { address, .. }) ==> ended(
            st.program.ir,
            address as int,
        ),
    ensures
        in_order(st.add_global(var)),
{
    let after = st.add_global(var);
    let vars = after.global_scope;
    assert forall|i: int| 0 <= i < vars.len() implies ((#[trigger] vars[i]).const_val matches Some(
        CTimeVal::Function { address, .. },
    ) ==> ended(after.program.ir, address as int)) by {
        if i > 0 {
            assert(vars[i] == st.global_scope[i - 1]);
        }
    }
}

/// An instruction replaced by one that is alike leaves the state in
/// order.
pub proof fn lemma_patch_in_order<'a>(st: GenView<'a>, index: int, node: IRNode<'a>)
    requires
        in_order(st),
        0 <= index < st.program.ir.len(),
        alike(st.program.ir[index], node),
    ensures
        in_order(
            GenView {
                program: ProgramView { ir: st.program.ir.update(index, node), ..st.program },
                ..st
            },
        ),
{
    let after = GenView {
        program: ProgramView { ir: st.program.ir.update(index, node), ..st.program },
        ..st
    };
    lemma_in_order_alike(st, after);
}

/// What an expression statement gives back leaves the state in order.
pub proof fn lemma_drop_value_in_order<'a>(st: GenView<'a>, before: GenView<'a>)
    requires
        in_order(st),
    ensures
        st.drop_value(before) matches Ok(after) ==> in_order(after) && after.scopes == st.scopes
            && after.global_scope == st.global_scope,
{
    match st.drop_value(before) {
        Ok(after) => {
            if st.stack_sz > before.stack_sz {
                let node = IRNode::StackDealloc((st.stack_sz - before.stack_sz) as usize);
                lemma_emit_in_order(st, node);
                lemma_same_code_in_order(st.emit(node), after);
            }
        },
        Err(_) => {},
    }
}

/// The end of a block that yields a value leaves the state in order, if
/// the placeholder at `label` is neither a return nor a push of an
/// address.
pub proof fn lemma_finish_block_in_order<'a>(
    st: GenView<'a>,
    label: int,
    prev_stack_sz: usize,
    type_val: TypeVal,
)
    requires
        in_order(st),
        st.scopes.len() > 0,
        0 <= label < st.program.ir.len(),
        !(st.program.ir[label] is Return),
        !(st.program.ir[label] is PushAddressFromOffset),
    ensures
        st.finish_block(label, prev_stack_sz, type_val) matches Ok(after) ==> in_order(after),
{
    let size = type_val.size_of();
    let patched = ProgramView {
        ir: st.program.ir.update(label, IRNode::StackAlloc(size)),
        ..st.program
    };
    if prev_stack_sz <= st.stack_sz {
        let depth = (st.stack_sz - prev_stack_sz) as usize;
        let moved = GenView { program: patched.stack_realigned(label, depth, size), ..st };
        assert forall|i: int| 0 <= i < st.program.ir.len() implies alike(
            #[trigger] st.program.ir[i],
            moved.program.ir[i],
        ) by {}
        lemma_in_order_alike(st, moved);
        match moved.grow(size) {
            Ok(grown) => {
                lemma_same_code_in_order(moved, grown);
                match grown.locals_begin() {
                    Ok(begin) => {
                        let offset = match begin {
                            Some(locals_begin) => grown.stack_sz - locals_begin + size,
                            None => size as int,
                        };
                        if offset <= usize::MAX {
                            lemma_pop_to_stack_in_order(grown, type_val, offset as usize);
                            match grown.pop_to_stack(type_val, offset as usize) {
                                Ok(popped) => {
                                    lemma_close_scope_in_order(popped);
                                },
                                Err(_) => {},
                            }
                        }
                    },
                    Err(_) => {},
                }
            },
            Err(_) => {},
        }
    }
}

/// The end of a function literal leaves the state in order, and the
/// function has ended if its body came to an instruction.
pub proof fn lemma_leave_function_in_order<'a>(
    st: GenView<'a>,
    entered: GenView<'a>,
    return_type_val: TypeVal,
)
    requires
        in_order(st),
        entered.program.ir.len() <= st.program.ir.len(),
        entered.scopes.len() > 0 ==> entered.program.ir.len() >= 1 && st.program.ir[entered.program.ir.len()
            - 1] is JumpFromOffset,
    ensures
        st.leave_function(entered, return_type_val) matches Ok((after, symbol)) ==> {
            &&& in_order(after)
            &&& after.scopes == st.scopes
            &&& after.global_scope == st.global_scope
            &&& symbol == function_symbol(entered.program.ir.len() as usize, return_type_val)
            &&& st.program.ir.len() > entered.program.ir.len() ==> ended(
                after.program.ir,
                entered.program.ir.len() as int,
            )
            &&& entered.scopes.len() == 0 ==> after.program.ir.len() > 0
                && after.program.ir.last() is Return
        },
{
    let offset = (return_type_val.size_of() + 8) as usize;
    lemma_pop_to_stack_in_order(st, return_type_val, offset);
    lemma_pop_to_stack_stable(st, return_type_val, offset, st.program.ir.len() as int);
    match st.pop_to_stack(return_type_val, offset) {
        Ok(moved) => {
            let node = IRNode::Return { params_size: 0 };
            lemma_emit_in_order(moved, node);
            let returned = moved.emit(node);
            let at = moved.program.ir.len() as int;
            assert(returned.program.ir[at] is Return);
            if entered.scopes.len() > 0 {
                let jump_over = entered.program.ir.len() - 1;
                assert(moved.program.ir.take(st.program.ir.len() as int)[jump_over]
                    == st.program.ir.take(st.program.ir.len() as int)[jump_over]);
                match returned.patch_jump(jump_over) {
                    Ok(patched) => {
                        let distance = returned.program.ir.len() - jump_over;
                        lemma_patch_in_order(
                            returned,
                            jump_over,
                            IRNode::JumpFromOffset(distance as i16),
                        );
                        assert(patched.program.ir[at] is Return);
                    },
                    Err(_) => {},
                }
            }
        },
        Err(_) => {},
    }
}

/// A declaration with an initializer leaves the state in order, if the
/// function that its value is, if it is one, has ended, and lowering the
/// initializer leaves the state in order.
pub proof fn lemma_declare_initialized_in_order<'a>(
    st: GenView<'a>,
    name: &'a str,
    type_val: TypeVal,
    value: Option<CTimeVal>,
    is_const: bool,
    is_exported: bool,
    lowered: Result<GenView<'a>, crate::ir_gen::error::CompileError>,
)
    requires
        in_order(st),
        value matches Some(CTimeVal::Function { address, .. }) ==> ended(
            st.program.ir,
            address as int,
        ),
        lowered matches Ok(state) ==> in_order(state) && state.scopes.len() == st.scopes.len(),
    ensures
        st.declare_initialized(name, type_val, value, is_const, is_exported, lowered) matches Ok(
            after,
        ) ==> in_order(after),
{
    if st.scopes.len() == 0 {
        match value {
            Some(known) => match st.new_global_pos(type_val) {
                Ok((placed, pos)) => {
                    let entered = GenView {
                        program: ProgramView {
                            globals: placed.program.globals.push(
                                crate::ir_gen::global::GlobalInfo {
                                    pos,
                                    name,
                                    is_exported,
                                    init: known,
                                    is_const,
                                },
                            ),
                            ..placed.program
                        },
                        ..placed
                    };
                    lemma_same_code_in_order(st, entered);
                    lemma_add_global_in_order(
                        entered,
                        declared(
                            name,
                            type_val,
                            Some(pos),
                            None,
                            if is_const {
                                Some(known)
                            } else {
                                None
                            },
                        ),
                    );
                },
                Err(_) => {},
            },
            None => {},
        }
    } else if value is None || !is_const {
        match lowered {
            Ok(state) => {
                lemma_add_var_in_order(
                    state,
                    declared(name, type_val, None, Some(state.stack_sz), None),
                );
            },
            Err(_) => {},
        }
    } else {
        lemma_add_var_in_order(st, declared(name, type_val, None, None, value));
    }
}

/// A declaration without an initializer leaves the state in order.
pub proof fn lemma_declare_uninitialized_in_order<'a>(
    st: GenView<'a>,
    name: &'a str,
    type_val: TypeVal,
    is_const: bool,
    is_exported: bool,
)
    requires
        in_order(st),
    ensures
        st.declare_uninitialized(name, type_val, is_const, is_exported) matches Ok(after)
            ==> in_order(after),
{
    if !is_exported && st.scopes.len() > 0 {
        let node = IRNode::StackAlloc(type_val.size_of());
        lemma_emit_in_order(st, node);
        match st.declare_uninitialized(name, type_val, is_const, is_exported) {
            Ok(after) => {
                if is_const {
                    lemma_add_var_in_order(st, declared(name, type_val, None, None, None));
                } else {
                    let allocated = st.emit(node).grow(type_val.size_of())->Ok_0;
                    lemma_same_code_in_order(st.emit(node), allocated);
                    lemma_add_var_in_order(
                        allocated,
                        declared(name, type_val, None, Some(allocated.stack_sz), None),
                    );
                }
            },
            Err(_) => {},
        }
    }
}

/// Resolving an expression leaves the state in order, and what it finds,
/// if that is a function and the expression no block, has ended.
pub proof fn lemma_resolve_expr_in_order<'a>(st: GenView<'a>, expr: &Expr<'a>)
    requires
        in_order(st),
        expr.is_tame(),
    ensures
        resolve_expr_spec(st, expr) matches Ok((after, symbol)) ==> {
            &&& in_order(after)
            &&& !(expr matches Expr::Block(_, Some(_))) ==> (symbol.const_val matches Some(
                CTimeVal::Function { address, .. },
            ) ==> ended(after.program.ir, address as int))
        },
    decreases expr.size(), 1nat,
{
    match expr {
        Expr::StringLit(string) => {
            match st.intern(*string) {
                Ok((interned, _)) => lemma_same_code_in_order(st, interned),
                Err(_) => {},
            }
        },
        Expr::Variable(name) => {
            lemma_lookup_in_order(st, name@, 0);
        },
        Expr::Block(body, return_expr) => match return_expr {
            Some(tail) => {
                lemma_resolve_block_stable(st, body, tail, 0);
                lemma_resolve_block_same_scopes(st, body, tail);
                match resolve_expr_spec(st, expr) {
                    Ok((after, _)) => lemma_same_code_in_order(st, after),
                    Err(_) => {},
                }
            },
            None => {},
        },
        Expr::Function(body) => {
            lemma_resolve_function_in_order(st, body);
        },
        _ => {},
    }
}

/// Lowering a function literal leaves the state in order, and the
/// function has ended.
pub proof fn lemma_resolve_function_in_order<'a>(st: GenView<'a>, body: &Expr<'a>)
    requires
        in_order(st),
        body.is_tame(),
        !(body is Variable),
    ensures
        resolve_function_spec(st, body) matches Ok((after, symbol)) ==> {
            &&& in_order(after)
            &&& symbol.const_val matches Some(CTimeVal::Function { address, .. }) && ended(
                after.program.ir,
                address as int,
            )
        },
    decreases body.size(), 2nat,
{
    lemma_resolve_expr_in_order(st, body);
    match resolve_expr_spec(st, body) {
        Ok((resolved, symbol)) => {
            let entered = resolved.enter_function();
            if resolved.scopes.len() > 0 {
                lemma_emit_in_order(resolved, IRNode::JumpFromOffset(0));
            }
            lemma_gen_expr_in_order(entered, body);
            lemma_gen_expr_emits(entered, body);
            lemma_gen_expr_stable(entered, body, entered.program.ir.len() as int);
            lemma_gen_expr_same_scopes(entered, body);
            match gen_expr_spec(entered, body) {
                Ok(lowered) => {
                    if entered.scopes.len() > 0 {
                        let jump_over = entered.program.ir.len() - 1;
                        assert(lowered.program.ir.take(entered.program.ir.len() as int)[jump_over]
                            == entered.program.ir.take(entered.program.ir.len() as int)[jump_over]);
                    }
                    lemma_leave_function_in_order(lowered, entered, symbol.type_val);
                },
                Err(_) => {},
            }
        },
        Err(_) => {},
    }
}

/// Lowering an expression that is no bare name takes at least one
/// instruction.
pub proof fn lemma_gen_expr_emits<'a>(st: GenView<'a>, expr: &Expr<'a>)
    requires
        !(expr is Variable),
    ensures
        gen_expr_spec(st, expr) matches Ok(after) ==> after.program.ir.len() > st.program.ir.len(),
{
    match expr {
        Expr::Call(callee, args) => {
            lemma_resolve_expr_stable(st, callee, 0);
            match resolve_expr_spec(st, callee) {
                Ok((resolved, symbol)) => match symbol.type_val {
                    TypeVal::FunctionPointer(return_type_val) => {
                        match resolved.emit(IRNode::StackAlloc(return_type_val.size_of())).grow(
                            return_type_val.size_of(),
                        ) {
                            Ok(allocated) => {
                                lemma_gen_args_stable(allocated, args, 0, 0);
                                match gen_args_spec(allocated, args, 0) {
                                    Ok(pushed) => {
                                        lemma_gen_expr_stable(pushed, callee, 0);
                                    },
                                    Err(_) => {},
                                }
                            },
                            Err(_) => {},
                        }
                    },
                    _ => {},
                },
                Err(_) => {},
            }
        },
        Expr::Block(body, return_expr) => {
            let label = st.program.ir.len() as int;
            let opened = st.open_scope().emit(IRNode::StackAlloc(0));
            lemma_gen_stmts_stable(opened, body, 0, 0);
            match gen_stmts_spec(opened, body, 0) {
                Ok(lowered) => match return_expr {
                    None => {},
                    Some(tail) => {
                        lemma_gen_expr_stable(lowered, tail, 0);
                        match gen_expr_spec(lowered, tail) {
                            Ok(yielded) => {
                                lemma_resolve_expr_stable(yielded, tail, 0);
                                match resolve_expr_spec(yielded, tail) {
                                    Ok((resolved, symbol)) => {
                                        lemma_finish_block_stable(
                                            resolved,
                                            label,
                                            st.stack_sz,
                                            symbol.type_val,
                                            0,
                                        );
                                    },
                                    Err(_) => {},
                                }
                            },
                            Err(_) => {},
                        }
                    },
                },
                Err(_) => {},
            }
        },
        _ => {},
    }
}

/// Arguments lowered leave the state in order.
pub proof fn lemma_gen_args_in_order<'a>(st: GenView<'a>, args: &Vec<Expr<'a>>, from: int)
    requires
        in_order(st),
        exprs_tame(args, from),
    ensures
        gen_args_spec(st, args, from) matches Ok(after) ==> in_order(after),
    decreases exprs_size(args, from), 0nat,
{
    if 0 <= from < args.len() {
        lemma_gen_expr_in_order(st, &args[from]);
        match gen_expr_spec(st, &args[from]) {
            Ok(next) => lemma_gen_args_in_order(next, args, from + 1),
            Err(_) => {},
        }
    }
}

/// Statements lowered leave the state in order.
pub proof fn lemma_gen_stmts_in_order<'a>(st: GenView<'a>, body: &Vec<Stmt<'a>>, from: int)
    requires
        in_order(st),
        stmts_tame(body, from),
    ensures
        gen_stmts_spec(st, body, from) matches Ok(after) ==> in_order(after),
    decreases stmts_size(body, from), 0nat,
{
    if 0 <= from < body.len() {
        lemma_gen_stmt_in_order(st, &body[from]);
        match gen_stmt_spec(st, &body[from]) {
            Ok(next) => lemma_gen_stmts_in_order(next, body, from + 1),
            Err(_) => {},
        }
    }
}

/// An expression lowered leaves the state in order.
pub proof fn lemma_gen_expr_in_order<'a>(st: GenView<'a>, expr: &Expr<'a>)
    requires
        in_order(st),
        expr.is_tame(),
    ensures
        gen_expr_spec(st, expr) matches Ok(after) ==> in_order(after),
    decreases expr.size(), 1nat,
{
    match expr {
        Expr::IntLit(value) => {
            lemma_emit_in_order(st, IRNode::Push64(*value));
            match gen_expr_spec(st, expr) {
                Ok(after) => lemma_same_code_in_order(st.emit(IRNode::Push64(*value)), after),
                Err(_) => {},
            }
        },
        Expr::StringLit(string) => {
            lemma_gen_string_in_order(st, *string);
        },
        Expr::Call(callee, args) => {
            lemma_gen_call_in_order(st, callee, args);
        },
        Expr::Variable(name) => {
            lemma_gen_variable_in_order(st, name@);
        },
        Expr::Block(body, return_expr) => {
            lemma_gen_block_in_order(st, body, return_expr);
        },
        _ => {},
    }
}

/// A call lowered leaves the state in order.
pub proof fn lemma_gen_call_in_order<'a>(st: GenView<'a>, callee: &Expr<'a>, args: &Vec<Expr<'a>>)
    requires
        in_order(st),
        callee.is_tame(),
        exprs_tame(args, 0),
    ensures
        gen_call_spec(st, callee, args) matches Ok(after) ==> in_order(after),
    decreases callee.size() + exprs_size(args, 0), 2nat,
{
    lemma_resolve_expr_in_order(st, callee);
    match resolve_expr_spec(st, callee) {
        Ok((resolved, symbol)) => match symbol.type_val {
            TypeVal::FunctionPointer(return_type_val) => {
                let node = IRNode::StackAlloc(return_type_val.size_of());
                lemma_emit_in_order(resolved, node);
                match resolved.emit(node).grow(return_type_val.size_of()) {
                    Ok(allocated) => {
                        lemma_same_code_in_order(resolved.emit(node), allocated);
                        lemma_gen_args_in_order(allocated, args, 0);
                        match gen_args_spec(allocated, args, 0) {
                            Ok(pushed) => {
                                lemma_gen_expr_in_order(pushed, callee);
                                match gen_expr_spec(pushed, callee) {
                                    Ok(ready) => {
                                        lemma_emit_in_order(ready, IRNode::Call);
                                        lemma_same_code_in_order(
                                            ready.emit(IRNode::Call),
                                            ready.emit_call(allocated.stack_sz),
                                        );
                                    },
                                    Err(_) => {},
                                }
                            },
                            Err(_) => {},
                        }
                    },
                    Err(_) => {},
                }
            },
            _ => {},
        },
        Err(_) => {},
    }
}

/// A block lowered leaves the state in order.
pub proof fn lemma_gen_block_in_order<'a>(
    st: GenView<'a>,
    body: &Vec<Stmt<'a>>,
    return_expr: &Option<Box<Expr<'a>>>,
)
    requires
        in_order(st),
        stmts_tame(body, 0),
        return_expr matches Some(tail) ==> tail.is_tame(),
    ensures
        gen_block_spec(st, body, return_expr) matches Ok(after) ==> in_order(after),
    decreases stmts_size(body, 0) + tail_size(return_expr), 2nat,
{
    let label = st.program.ir.len() as int;
    lemma_open_scope_in_order(st);
    lemma_emit_in_order(st.open_scope(), IRNode::StackAlloc(0));
    let opened = st.open_scope().emit(IRNode::StackAlloc(0));
    lemma_gen_stmts_in_order(opened, body, 0);
    lemma_gen_stmts_stable(opened, body, 0, label + 1);
    lemma_gen_stmts_same_outer_scopes(opened, body, 0);
    match gen_stmts_spec(opened, body, 0) {
        Ok(lowered) => {
            assert(lowered.program.ir.take(label + 1)[label] == opened.program.ir.take(label + 1)[label]);
            match return_expr {
                None => {
                    lemma_close_scope_in_order(lowered);
                },
                Some(tail) => {
                    lemma_gen_expr_in_order(lowered, tail);
                    lemma_gen_expr_stable(lowered, tail, label + 1);
                    lemma_gen_expr_same_scopes(lowered, tail);
                    match gen_expr_spec(lowered, tail) {
                        Ok(yielded) => {
                            assert(yielded.program.ir.take(label + 1)[label]
                                == lowered.program.ir.take(label + 1)[label]);
                            lemma_resolve_expr_in_order(yielded, tail);
                            lemma_resolve_expr_stable(yielded, tail, label + 1);
                            lemma_resolve_expr_same_scopes(yielded, tail);
                            match resolve_expr_spec(yielded, tail) {
                                Ok((resolved, symbol)) => {
                                    assert(resolved.program.ir.take(label + 1)[label]
                                        == yielded.program.ir.take(label + 1)[label]);
                                    lemma_finish_block_in_order(
                                        resolved,
                                        label,
                                        st.stack_sz,
                                        symbol.type_val,
                                    );
                                },
                                Err(_) => {},
                            }
                        },
                        Err(_) => {},
                    }
                },
            }
        },
        Err(_) => {},
    }
}

/// A statement lowered leaves the state in order.
pub proof fn lemma_gen_stmt_in_order<'a>(st: GenView<'a>, stmt: &Stmt<'a>)
    requires
        in_order(st),
        stmt.is_tame(),
    ensures
        gen_stmt_spec(st, stmt) matches Ok(after) ==> in_order(after),
    decreases stmt.size(), 1nat,
{
    match stmt {
        Stmt::Expr(expr, _) => {
            lemma_gen_expr_in_order(st, expr);
            match gen_expr_spec(st, expr) {
                Ok(lowered) => lemma_drop_value_in_order(lowered, st),
                Err(_) => {},
            }
        },
        Stmt::PackageDecl(name) => {
            match st.declare_package(*name) {
                Ok(after) => lemma_same_code_in_order(st, after),
                Err(_) => {},
            }
        },
        Stmt::ConstDecl(name, init, type_expr, is_exported) => {
            lemma_gen_decl_in_order(st, *name, init, type_expr, true, *is_exported);
        },
        Stmt::VarDecl(name, init, type_expr, is_exported) => {
            lemma_gen_decl_in_order(st, *name, init, type_expr, false, *is_exported);
        },
    }
}

/// The annotation of a declaration resolved leaves the state in order.
pub proof fn lemma_resolve_annotation_in_order<'a>(st: GenView<'a>, type_expr: &Option<Expr<'a>>)
    requires
        in_order(st),
        opt_tame(type_expr),
    ensures
        resolve_annotation_spec(st, type_expr) matches Ok((after, _)) ==> in_order(after),
    decreases opt_size(type_expr), 2nat,
{
    match type_expr {
        Some(annotation) => lemma_resolve_expr_in_order(st, annotation),
        None => {},
    }
}

/// A declaration lowered leaves the state in order.
pub proof fn lemma_gen_decl_in_order<'a>(
    st: GenView<'a>,
    name: &'a str,
    init: &Option<Expr<'a>>,
    type_expr: &Option<Expr<'a>>,
    is_const: bool,
    is_exported: bool,
)
    requires
        in_order(st),
        opt_tame(init),
        opt_tame(type_expr),
        !(init matches Some(Expr::Block(_, Some(_)))),
    ensures
        gen_decl_spec(st, name, init, type_expr, is_const, is_exported) matches Ok(after)
            ==> in_order(after),
    decreases opt_size(init) + opt_size(type_expr), 3nat,
{
    if !(st.scopes.len() > 0 && is_exported) {
        lemma_resolve_annotation_in_order(st, type_expr);
        match resolve_annotation_spec(st, type_expr) {
            Ok((typed, annotated)) => match init {
                Some(expr) => {
                    lemma_resolve_expr_in_order(typed, expr);
                    match resolve_expr_spec(typed, expr) {
                        Ok((resolved, symbol)) => {
                            lemma_gen_expr_in_order(resolved, expr);
                            lemma_gen_expr_same_scopes(resolved, expr);
                            lemma_declare_initialized_in_order(
                                resolved,
                                name,
                                crate::ir_gen::gen_model::decl_type_val(annotated, symbol),
                                symbol.const_val,
                                is_const,
                                is_exported,
                                gen_expr_spec(resolved, expr),
                            );
                        },
                        Err(_) => {},
                    }
                },
                None => {
                    lemma_declare_uninitialized_in_order(
                        typed,
                        name,
                        match annotated {
                            Some(t) => t,
                            None => TypeVal::UInt64,
                        },
                        is_const,
                        is_exported,
                    );
                },
            },
            Err(_) => {},
        }
    }
}

/// Whether a function that starts at index `address` stands apart: at
/// the top of the stream, or behind an instruction that no rule matches.
pub open spec fn apart(ir: Seq<IRNode>, address: int) -> bool {
    address == 0 || (0 < address <= ir.len() && is_never_matched(ir[address - 1]))
}

/// Whether every function that a variable of `vars` is known to be
/// stands apart.
pub open spec fn vars_apart(vars: Seq<Variable>, ir: Seq<IRNode>) -> bool {
    forall|i: int|
        0 <= i < vars.len() ==> ((#[trigger] vars[i]).const_val matches Some(
            CTimeVal::Function { address, .. },
        ) ==> apart(ir, address as int))
}

/// The state of a generator between two statements at the top of a
/// program: the calls are in order, and every function of a global or of
/// a constant stands apart.
pub open spec fn at_top(st: GenView) -> bool {
    &&& st.scopes.len() == 0
    &&& in_order(st)
    &&& st.program.functions_stand_apart()
    &&& vars_apart(st.global_scope, st.program.ir)
}

/// Whether the stream is empty or ends in a return, so that a function
/// lowered next stands apart.
pub open spec fn is_closed(ir: Seq<IRNode>) -> bool {
    ir.len() == 0 || ir.last() is Return
}

/// The state of a generator at the top of a program where a function can
/// be lowered next.
pub open spec fn at_rest(st: GenView) -> bool {
    at_top(st) && is_closed(st.program.ir)
}

impl<'a> Stmt<'a> {
    /// Whether the statement, at the top of a program, leaves no
    /// instruction between the functions: it names the package or
    /// declares something.
    pub open spec fn is_orderly(&self) -> bool {
        !(self is Expr)
    }

    /// Whether the statement, at the top of a program, lowers no function
    /// there: if it is a declaration, neither its initializer nor its
    /// annotation is a function literal.
    pub open spec fn is_loose(&self) -> bool {
        match self {
            Stmt::ConstDecl(_, init, type_expr, _) => !(init matches Some(Expr::Function(_))) && !(
            type_expr matches Some(Expr::Function(_))),
            Stmt::VarDecl(_, init, type_expr, _) => !(init matches Some(Expr::Function(_))) && !(
            type_expr matches Some(Expr::Function(_))),
            _ => true,
        }
    }
}

/// Whether the functions of a program come first: its statements are
/// tame, and behind a statement that may leave instructions at the top no
/// statement lowers a function there.
pub open spec fn functions_come_first<'a>(ast: &Vec<Stmt<'a>>) -> bool {
    &&& forall|i: int|
        0 <= i < ast.len() ==> (#[trigger] ast[i]).is_tame() && (ast[i].is_orderly()
            || ast[i].is_loose())
    &&& forall|i: int, j: int|
        0 <= i < j < ast.len() && !(#[trigger] ast[i]).is_orderly() ==> (#[trigger] ast[j]).is_loose()
}

/// A step at the top of a program that leaves the scopes and the globals
/// as they are, and the stream too or longer, leaves the state as it
/// should be at the top, if it leaves it in order.
pub proof fn lemma_at_top_carried<'a>(st: GenView<'a>, after: GenView<'a>)
    requires
        at_top(st),
        in_order(after),
        after.scopes == st.scopes,
        after.global_scope == st.global_scope,
        after.program.globals == st.program.globals,
        after.program.ir.len() >= st.program.ir.len(),
        after.program.ir.take(st.program.ir.len() as int) == st.program.ir.take(
            st.program.ir.len() as int,
        ),
    ensures
        at_top(after),
        forall|address: int|
            apart(st.program.ir, address) ==> #[trigger] apart(after.program.ir, address),
{
    let a = st.program.ir;
    let b = after.program.ir;
    assert forall|address: int| apart(a, address) implies apart(b, address) by {
        if address != 0 {
            assert(b.take(a.len() as int)[address - 1] == a.take(a.len() as int)[address - 1]);
        }
    }
    assert forall|g: int| 0 <= g < after.program.globals.len() implies ((
    #[trigger] after.program.globals[g]).init matches CTimeVal::Function { address, .. }
        ==> address == 0 || (address <= b.len() && is_never_matched(b[address - 1]))) by {
        if let CTimeVal::Function { address, .. } = st.program.globals[g].init {
            assert(apart(a, address as int));
        }
    }
    assert forall|i: int| 0 <= i < after.global_scope.len() implies ((
    #[trigger] after.global_scope[i]).const_val matches Some(CTimeVal::Function { address, .. })
        ==> apart(b, address as int)) by {
        if let Some(CTimeVal::Function { address, .. }) = st.global_scope[i].const_val {
            assert(apart(a, address as int));
        }
    }
}

/// Resolving an expression that is no function literal leaves the stream
/// as it is.
pub proof fn lemma_resolve_keeps_code<'a>(st: GenView<'a>, expr: &Expr<'a>)
    requires
        !(expr is Function),
    ensures
        resolve_expr_spec(st, expr) matches Ok((after, _)) ==> after.program.ir == st.program.ir
            && after.program.globals == st.program.globals,
{
    match expr {
        Expr::Block(body, return_expr) => match return_expr {
            Some(tail) => lemma_resolve_block_stable(st, body, tail, 0),
            None => {},
        },
        _ => {},
    }
}

/// At the top of a program, resolving an expression leaves the state as
/// it should be there, and at rest if it was; what it finds, if that is
/// a function and the expression no block, has ended and stands apart. A
/// function literal is resolved at rest.
pub proof fn lemma_top_resolve<'a>(st: GenView<'a>, expr: &Expr<'a>)
    requires
        at_top(st),
        expr.is_tame(),
        expr is Function ==> is_closed(st.program.ir),
    ensures
        resolve_expr_spec(st, expr) matches Ok((after, symbol)) ==> {
            &&& at_top(after)
            &&& is_closed(st.program.ir) ==> is_closed(after.program.ir)
            &&& after.program.globals == st.program.globals
            &&& after.program.ir.len() >= st.program.ir.len()
            &&& !(expr matches Expr::Block(_, Some(_))) ==> (symbol.const_val matches Some(
                CTimeVal::Function { address, .. },
            ) ==> ended(after.program.ir, address as int) && (after.program.ir.len()
                <= usize::MAX ==> apart(after.program.ir, address as int)))
        },
{
    lemma_resolve_expr_in_order(st, expr);
    lemma_resolve_expr_same_scopes(st, expr);
    let all = st.program.ir.len() as int;
    lemma_resolve_expr_stable(st, expr, all);
    match resolve_expr_spec(st, expr) {
        Ok((after, symbol)) => {
            match expr {
                Expr::Function(body) => {
                    lemma_resolve_expr_same_scopes(st, body);
                    match resolve_expr_spec(st, body) {
                        Ok((resolved, inner)) => {
                            let entered = resolved.enter_function();
                            if **body is Function {
                                assert(gen_expr_spec(entered, body) is Err);
                            } else {
                                lemma_resolve_keeps_code(st, body);
                                lemma_resolve_expr_in_order(st, body);
                                lemma_gen_expr_in_order(entered, body);
                                lemma_gen_expr_stable(entered, body, all);
                                lemma_gen_expr_same_scopes(entered, body);
                                match gen_expr_spec(entered, body) {
                                    Ok(lowered) => {
                                        lemma_leave_function_in_order(
                                            lowered,
                                            entered,
                                            inner.type_val,
                                        );
                                    },
                                    Err(_) => {},
                                }
                                lemma_at_top_carried(st, after);
                                assert(apart(st.program.ir, all));
                            }
                        },
                        Err(_) => {},
                    }
                },
                Expr::Variable(name) => {
                    lemma_position(st.global_scope, name@, 0);
                    lemma_lookup_in_order(st, name@, 0);
                    lemma_at_top_carried(st, after);
                },
                _ => {
                    lemma_resolve_keeps_code(st, expr);
                    lemma_at_top_carried(st, after);
                },
            }
        },
        Err(_) => {},
    }
}

/// A variable declared in the global scope leaves the functions of the
/// variables apart, if the function that it is known to be, if it is one,
/// stands apart.
pub proof fn lemma_add_global_apart<'a>(st: GenView<'a>, var: Variable<'a>)
    requires
        vars_apart(st.global_scope, st.program.ir),
        var.const_val matches Some(CTimeVal::Function { address, .. }) ==> apart(
            st.program.ir,
            address as int,
        ),
    ensures
        vars_apart(st.add_global(var).global_scope, st.program.ir),
{
    let vars = st.add_global(var).global_scope;
    assert forall|i: int| 0 <= i < vars.len() implies ((#[trigger] vars[i]).const_val matches Some(
        CTimeVal::Function { address, .. },
    ) ==> apart(st.program.ir, address as int)) by {
        if i > 0 {
            assert(vars[i] == st.global_scope[i - 1]);
        }
    }
}

/// A global declared leaves the stream as it is and the state as it
/// should be at the top, if the function that it holds, if it holds one,
/// has ended and stands apart.
pub proof fn lemma_declare_global_at_top<'a>(
    st: GenView<'a>,
    name: &'a str,
    type_val: TypeVal,
    value: CTimeVal,
    is_const: bool,
    is_exported: bool,
)
    requires
        at_top(st),
        value matches CTimeVal::Function { address, .. } ==> ended(st.program.ir, address as int)
            && apart(st.program.ir, address as int),
    ensures
        st.declare_global(name, type_val, value, is_const, is_exported) matches Ok(after)
            ==> at_top(after) && after.program.ir == st.program.ir,
{
    match st.new_global_pos(type_val) {
        Ok((placed, pos)) => {
            let global = crate::ir_gen::global::GlobalInfo {
                pos,
                name,
                is_exported,
                init: value,
                is_const,
            };
            let entered = GenView {
                program: ProgramView {
                    globals: placed.program.globals.push(global),
                    ..placed.program
                },
                ..placed
            };
            lemma_same_code_in_order(st, entered);
            let var = declared(name, type_val, Some(pos), None, if is_const {
                Some(value)
            } else {
                None
            });
            lemma_add_global_in_order(entered, var);
            lemma_add_global_apart(entered, var);
            assert forall|g: int| 0 <= g < entered.program.globals.len() implies ((
            #[trigger] entered.program.globals[g]).init matches CTimeVal::Function { address, .. }
                ==> address == 0 || (address <= entered.program.ir.len() && is_never_matched(
                entered.program.ir[address - 1],
            ))) by {
                if g < st.program.globals.len() {
                    assert(entered.program.globals[g] == st.program.globals[g]);
                }
            }
        },
        Err(_) => {},
    }
}

/// A global declared leaves the stream as it is.
pub proof fn lemma_declare_global_keeps_code<'a>(
    st: GenView<'a>,
    name: &'a str,
    type_val: TypeVal,
    value: CTimeVal,
    is_const: bool,
    is_exported: bool,
)
    ensures
        st.declare_global(name, type_val, value, is_const, is_exported) matches Ok(after)
            ==> after.program.ir == st.program.ir,
{
}

/// At the top of a program, the annotation of a declaration resolved
/// leaves the state as it should be there, and at rest if it was.
pub proof fn lemma_top_annotation<'a>(st: GenView<'a>, type_expr: &Option<Expr<'a>>)
    requires
        at_top(st),
        opt_tame(type_expr),
        type_expr matches Some(Expr::Function(_)) ==> is_closed(st.program.ir),
    ensures
        resolve_annotation_spec(st, type_expr) matches Ok((after, _)) ==> at_top(after) && (
        is_closed(st.program.ir) ==> is_closed(after.program.ir)),
{
    match type_expr {
        Some(annotation) => {
            lemma_top_resolve(st, annotation);
        },
        None => {},
    }
}

/// At the top of a program, a declaration with the tame initializer
/// `expr`, which is no block that yields a value, leaves the state as it
/// should be there, and at rest if it was.
pub proof fn lemma_top_initialized<'a>(
    st: GenView<'a>,
    name: &'a str,
    expr: &Expr<'a>,
    annotated: Option<TypeVal>,
    is_const: bool,
    is_exported: bool,
)
    requires
        at_top(st),
        expr.is_tame(),
        !(expr matches Expr::Block(_, Some(_))),
        expr is Function ==> is_closed(st.program.ir),
    ensures
        resolve_expr_spec(st, expr) matches Ok((resolved, symbol)) ==> (
        resolved.declare_initialized(
            name,
            crate::ir_gen::gen_model::decl_type_val(annotated, symbol),
            symbol.const_val,
            is_const,
            is_exported,
            gen_expr_spec(resolved, expr),
        ) matches Ok(after) ==> after.program.ir.len() <= usize::MAX ==> at_top(after) && (
        is_closed(st.program.ir) ==> is_closed(after.program.ir))),
{
    lemma_top_resolve(st, expr);
    match resolve_expr_spec(st, expr) {
        Ok((resolved, symbol)) => {
            match symbol.const_val {
                Some(known) => {
                    let type_val = crate::ir_gen::gen_model::decl_type_val(annotated, symbol);
                    lemma_declare_global_keeps_code(
                        resolved,
                        name,
                        type_val,
                        known,
                        is_const,
                        is_exported,
                    );
                    if resolved.program.ir.len() <= usize::MAX {
                        lemma_declare_global_at_top(
                            resolved,
                            name,
                            type_val,
                            known,
                            is_const,
                            is_exported,
                        );
                    }
                },
                None => {},
            }
        },
        Err(_) => {},
    }
}

/// At the top of a program, a tame declaration leaves the state as it
/// should be there, and at rest if it was. A declaration that lowers a
/// function starts at rest.
pub proof fn lemma_top_declaration<'a>(
    st: GenView<'a>,
    name: &'a str,
    init: &Option<Expr<'a>>,
    type_expr: &Option<Expr<'a>>,
    is_const: bool,
    is_exported: bool,
)
    requires
        at_top(st),
        opt_tame(init),
        opt_tame(type_expr),
        !(init matches Some(Expr::Block(_, Some(_)))),
        (init matches Some(Expr::Function(_))) || (type_expr matches Some(Expr::Function(_)))
            ==> is_closed(st.program.ir),
    ensures
        gen_decl_spec(st, name, init, type_expr, is_const, is_exported) matches Ok(after)
            ==> after.program.ir.len() <= usize::MAX ==> at_top(after) && (is_closed(
            st.program.ir,
        ) ==> is_closed(after.program.ir)),
{
    lemma_top_annotation(st, type_expr);
    match resolve_annotation_spec(st, type_expr) {
        Ok((typed, annotated)) => {
            match type_expr {
                Some(annotation) => {
                    lemma_resolve_expr_stable(st, annotation, 0);
                    if !(annotation is Function) {
                        lemma_resolve_keeps_code(st, annotation);
                    }
                },
                None => {},
            }
            match init {
                Some(expr) => {
                    lemma_top_initialized(typed, name, expr, annotated, is_const, is_exported);
                },
                None => {},
            }
        },
        Err(_) => {},
    }
}

/// At the top of a program, a tame statement leaves the state as it
/// should be there, and at rest if it was and the statement is orderly.
/// A statement that lowers a function starts at rest.
pub proof fn lemma_top_statement<'a>(st: GenView<'a>, stmt: &Stmt<'a>)
    requires
        at_top(st),
        stmt.is_tame(),
        stmt.is_loose() || is_closed(st.program.ir),
    ensures
        gen_stmt_spec(st, stmt) matches Ok(after) ==> after.program.ir.len() <= usize::MAX
            ==> at_top(after) && (is_closed(st.program.ir) && stmt.is_orderly() ==> is_closed(
            after.program.ir,
        )),
{
    match stmt {
        Stmt::Expr(expr, _) => {
            let all = st.program.ir.len() as int;
            lemma_gen_expr_in_order(st, expr);
            lemma_gen_expr_stable(st, expr, all);
            lemma_gen_expr_same_scopes(st, expr);
            match gen_expr_spec(st, expr) {
                Ok(lowered) => {
                    lemma_drop_value_in_order(lowered, st);
                    crate::ir_gen::gen_stable::lemma_drop_value_stable(lowered, st, all);
                    match lowered.drop_value(st) {
                        Ok(after) => {
                            lemma_at_top_carried(st, after);
                        },
                        Err(_) => {},
                    }
                },
                Err(_) => {},
            }
        },
        Stmt::PackageDecl(name) => {
            match st.declare_package(*name) {
                Ok(after) => {
                    lemma_same_code_in_order(st, after);
                    lemma_at_top_carried(st, after);
                },
                Err(_) => {},
            }
        },
        Stmt::ConstDecl(name, init, type_expr, is_exported) => {
            lemma_top_declaration(st, *name, init, type_expr, true, *is_exported);
        },
        Stmt::VarDecl(name, init, type_expr, is_exported) => {
            lemma_top_declaration(st, *name, init, type_expr, false, *is_exported);
        },
    }
}

/// A statement lowered takes no instruction away.
pub proof fn lemma_gen_stmt_grows<'a>(st: GenView<'a>, stmt: &Stmt<'a>)
    ensures
        gen_stmt_spec(st, stmt) matches Ok(after) ==> after.program.ir.len()
            >= st.program.ir.len(),
{
    match stmt {
        Stmt::Expr(expr, _) => {
            lemma_gen_expr_stable(st, expr, 0);
        },
        Stmt::PackageDecl(_) => {},
        Stmt::ConstDecl(name, init, type_expr, is_exported) => {
            lemma_gen_decl_grows(st, *name, init, type_expr, true, *is_exported);
        },
        Stmt::VarDecl(name, init, type_expr, is_exported) => {
            lemma_gen_decl_grows(st, *name, init, type_expr, false, *is_exported);
        },
    }
}

/// A declaration lowered takes no instruction away.
pub proof fn lemma_gen_decl_grows<'a>(
    st: GenView<'a>,
    name: &'a str,
    init: &Option<Expr<'a>>,
    type_expr: &Option<Expr<'a>>,
    is_const: bool,
    is_exported: bool,
)
    ensures
        gen_decl_spec(st, name, init, type_expr, is_const, is_exported) matches Ok(after)
            ==> after.program.ir.len() >= st.program.ir.len(),
{
    match type_expr {
        Some(annotation) => lemma_resolve_expr_stable(st, annotation, 0),
        None => {},
    }
    match resolve_annotation_spec(st, type_expr) {
        Ok((typed, _)) => match init {
            Some(expr) => {
                lemma_resolve_expr_stable(typed, expr, 0);
                match resolve_expr_spec(typed, expr) {
                    Ok((resolved, _)) => {
                        lemma_gen_expr_stable(resolved, expr, 0);
                    },
                    Err(_) => {},
                }
            },
            None => {},
        },
        Err(_) => {},
    }
}

/// Statements lowered take no instruction away.
pub proof fn lemma_gen_stmts_grow<'a>(st: GenView<'a>, body: &Vec<Stmt<'a>>, from: int)
    ensures
        gen_stmts_spec(st, body, from) matches Ok(after) ==> after.program.ir.len()
            >= st.program.ir.len(),
    decreases stmts_size(body, from), 0nat,
{
    if 0 <= from < body.len() {
        lemma_gen_stmt_grows(st, &body[from]);
        match gen_stmt_spec(st, &body[from]) {
            Ok(next) => lemma_gen_stmts_grow(next, body, from + 1),
            Err(_) => {},
        }
    }
}

/// At the top of a program whose functions come first, the statements
/// from index `from` on leave the state as it should be there, if it is
/// at rest or none of them lowers a function.
pub proof fn lemma_top_statements<'a>(st: GenView<'a>, ast: &Vec<Stmt<'a>>, from: int)
    requires
        at_top(st),
        0 <= from,
        functions_come_first(ast),
        is_closed(st.program.ir) || forall|j: int|
            from <= j < ast.len() ==> (#[trigger] ast[j]).is_loose(),
    ensures
        gen_stmts_spec(st, ast, from) matches Ok(after) ==> after.program.ir.len() <= usize::MAX
            ==> at_top(after),
    decreases ast.len() - from,
{
    if from < ast.len() {
        let stmt = &ast[from];
        assert(stmt.is_tame() && (stmt.is_orderly() || stmt.is_loose()));
        lemma_top_statement(st, stmt);
        match gen_stmt_spec(st, stmt) {
            Ok(next) => {
                lemma_gen_stmts_grow(next, ast, from + 1);
                match gen_stmts_spec(next, ast, from + 1) {
                    Ok(after) => {
                        if after.program.ir.len() <= usize::MAX {
                            if !(is_closed(st.program.ir) && stmt.is_orderly()) {
                                assert forall|j: int| from + 1 <= j < ast.len() implies (
                                #[trigger] ast[j]).is_loose() by {
                                    if !stmt.is_orderly() {
                                        assert(ast[from].is_orderly() == stmt.is_orderly());
                                    }
                                }
                            }
                            lemma_top_statements(next, ast, from + 1);
                        }
                    },
                    Err(_) => {},
                }
            },
            Err(_) => {},
        }
    }
}

/// A generator that has done nothing yet is at rest.
pub proof fn lemma_initial_at_rest<'a>()
    ensures
        at_rest(GenView::<'a>::initial()),
{
}

/// A program whose functions come first is lowered into a settled
/// program, from a state at rest, if its instructions can be counted in a
/// `usize`: optimization keeps what it does.
pub proof fn lemma_generated_is_settled<'a>(st: GenView<'a>, ast: &Vec<Stmt<'a>>)
    requires
        at_rest(st),
        functions_come_first(ast),
    ensures
        generate_spec(st, ast) matches Ok(after) ==> after.program.ir.len() <= usize::MAX
            ==> after.program.is_settled(),
{
    let started = st.with_runtime();
    let print = ExternalInfo { name: "print", package_name: "rt", is_const: true };
    let known = GenView {
        program: ProgramView { externals: st.program.externals.push(print), ..st.program },
        ..st
    };
    lemma_same_code_in_order(st, known);
    lemma_at_top_carried(st, known);
    let var = Variable {
        name: "print",
        type_val: TypeVal::FunctionPointer(Box::new(TypeVal::Unit)),
        global_pos: None,
        stack_loc: None,
        const_val: None,
        external: Some(print),
    };
    lemma_add_global_in_order(known, var);
    lemma_add_global_apart(known, var);
    lemma_top_statements(started, ast, 0);
}

} // verus!
