use vstd::prelude::*;
use vstd::std_specs::iter::IteratorSpec;
use std::collections::VecDeque;
use crate::ir_gen::ctimeval::CTimeVal;
use crate::ir_gen::error::CompileError;
use crate::ir_gen::external::ExternalInfo;
use crate::ir_gen::gen_model::{
    declared,
    gen_args_spec,
    gen_block_spec,
    gen_call_spec,
    gen_decl_spec,
    gen_expr_spec,
    gen_stmt_spec,
    gen_stmts_spec,
    generate_spec,
    locals_size,
    lookup_from,
    resolve_annotation_spec,
    resolve_block_spec,
    resolve_decls_spec,
    resolve_expr_spec,
    resolve_function_spec,
    tail_size,
    agrees,
    agrees_with,
    steady,
    GenView,
};
use crate::ir_gen::balance::lemma_generated_keeps_stack;
use crate::ir_gen::gen_stable::grounded;
use crate::ir_gen::global::GlobalInfo;
use crate::ir_gen::ir::IRNode;
use crate::ir_gen::program::CompiledProgram;
use crate::ir_gen::scope::Scope;
use crate::ir_gen::symbol::CmplSymbol;
use crate::ir_gen::typeval::TypeVal;
use crate::ir_gen::variable::Variable;
use crate::parser::ast::{
    exprs_size,
    lemma_exprs_size_index,
    opt_size,
    lemma_stmts_size_index,
    stmts_size,
    Expr,
    Stmt,
};
use crate::text::str_eq;
use crate::ir_gen::gen_settled::{at_rest, functions_come_first, lemma_generated_is_settled};

verus! {

/// The generator: it lowers a syntax tree into a program, keeping count of
/// the bytes on the virtual operand stack and in the global segment.
pub struct IRGen<'a> {
    cprog: CompiledProgram<'a>,
    global_scope: Scope<'a>,
    scopes: VecDeque<Scope<'a>>,
    stack_sz: usize,
    global_sz: usize,
}

impl<'a> View for IRGen<'a> {
    type V = GenView<'a>;

    closed spec fn view(&self) -> GenView<'a> {
        GenView {
            program: self.cprog@,
            global_scope: self.global_scope@,
            scopes: Seq::new(self.scopes@.len(), |i: int| self.scopes@[i]@),
            stack_sz: self.stack_sz,
            global_sz: self.global_sz,
        }
    }
}

/// The stack size of a prefix of a scope never exceeds that of the scope.
pub proof fn lemma_locals_size_prefix(vars: Seq<Variable>, i: int)
    requires
        0 <= i <= vars.len(),
    ensures
        locals_size(vars.take(i)) <= locals_size(vars),
    decreases vars.len() - i,
{
    if i < vars.len() {
        lemma_locals_size_prefix(vars, i + 1);
        assert(vars.take(i + 1).drop_last() =~= vars.take(i));
    } else {
        assert(vars.take(i) =~= vars);
    }
}

fn clone_const(value: &Option<CTimeVal>) -> (r: Option<CTimeVal>)
    ensures
        r == *value,
{
    match value {
        Some(v) => Some(v.clone()),
        None => None,
    }
}

impl<'a> IRGen<'a> {
    pub fn new() -> (r: Self)
        ensures
            r@ == GenView::initial(),
    {
        let r = Self {
            cprog: CompiledProgram::new(),
            global_scope: Scope::new(),
            scopes: VecDeque::new(),
            stack_sz: 0,
            global_sz: 0,
        };
        assert(r@.scopes =~= Seq::empty());
        r
    }

    /// Bytes on the virtual operand stack.
    pub fn stack_size(&self) -> (n: usize)
        ensures
            n == self@.stack_sz,
    {
        self.stack_sz
    }

    /// Bytes of the global segment handed out so far.
    pub fn global_size(&self) -> (n: usize)
        ensures
            n == self@.global_sz,
    {
        self.global_sz
    }

    fn emit_node(&mut self, node: IRNode<'a>)
        ensures
            final(self)@ == old(self)@.emit(node),
    {
        self.cprog.app_node(node);
    }

    fn grow(&mut self, bytes: usize) -> (r: Result<(), CompileError>)
        ensures
            agrees(r, final(self)@, old(self)@.grow(bytes)),
    {
        if bytes > usize::MAX - self.stack_sz {
            return Err(CompileError::LimitExceeded);
        }
        self.stack_sz += bytes;
        Ok(())
    }

    fn shrink(&mut self, bytes: usize) -> (r: Result<(), CompileError>)
        ensures
            agrees(r, final(self)@, old(self)@.shrink(bytes)),
    {
        if bytes > self.stack_sz {
            return Err(CompileError::StackImbalance);
        }
        self.stack_sz -= bytes;
        Ok(())
    }

    fn open_scope(&mut self)
        ensures
            final(self)@ == old(self)@.open_scope(),
    {
        self.scopes.push_front(Scope::new());
        assert(self@.scopes =~= old(self)@.open_scope().scopes);
    }

    /// Bytes that the locals of the innermost scope take on the stack, as
    /// far as a `usize` can hold them.
    fn locals_total(&self) -> (r: Option<usize>)
        requires
            self@.scopes.len() > 0,
        ensures
            match r {
                Some(total) => total == locals_size(self@.scopes[0]),
                None => locals_size(self@.scopes[0]) > usize::MAX,
            },
    {
        let scope = &self.scopes[0];
        let mut total: usize = 0;
        let mut i: usize = 0;
        while i < scope.len()
            invariant
                i <= scope@.len(),
                scope@ == self@.scopes[0],
                total == locals_size(scope@.take(i as int)),
            decreases scope@.len() - i,
        {
            let var = scope.get(i);
            proof {
                assert(scope@.take(i + 1).drop_last() =~= scope@.take(i as int));
                assert(scope@.take(i + 1).last() == scope@[i as int]);
                lemma_locals_size_prefix(scope@, i + 1);
            }
            if var.stack_loc.is_some() {
                let size = var.type_val.size_of();
                if size > usize::MAX - total {
                    return None;
                }
                total += size;
            }
            i += 1;
        }
        assert(scope@.take(scope@.len() as int) =~= scope@);
        Some(total)
    }

    fn scope_locals_stackp(&self) -> (r: Result<Option<usize>, CompileError>)
        requires
            self@.scopes.len() > 0,
        ensures
            r == self@.locals_begin(),
    {
        match self.locals_total() {
            Some(total) => {
                if total > self.stack_sz {
                    Err(CompileError::StackImbalance)
                } else if total == 0 {
                    Ok(None)
                } else {
                    Ok(Some(self.stack_sz - total))
                }
            },
            None => Err(CompileError::StackImbalance),
        }
    }

    fn close_scope(&mut self) -> (r: Result<(), CompileError>)
        requires
            old(self)@.scopes.len() > 0,
        ensures
            agrees(r, final(self)@, old(self)@.close_scope()),
            r is Ok ==> final(self)@.scopes.len() + 1 == old(self)@.scopes.len(),
            r is Ok ==> final(self)@.program.ir.len() == old(self)@.program.ir.len() + 1,
    {
        match self.locals_total() {
            Some(total) => {
                let scope = self.scopes.pop_front();
                assert(self@.scopes =~= old(self)@.scopes.drop_first());
                self.emit_node(IRNode::StackDealloc(total));
                self.shrink(total)
            },
            None => Err(CompileError::LimitExceeded),
        }
    }

    fn has_local_scope(&self) -> (b: bool)
        ensures
            b == (self@.scopes.len() > 0),
    {
        self.scopes.len() > 0
    }

    fn lookup_var(&self, name: &str) -> (r: Option<&Variable<'a>>)
        ensures
            match self@.lookup(name@) {
                Some(var) => r == Some(&var),
                None => r is None,
            },
    {
        let mut i: usize = 0;
        while i < self.scopes.len()
            invariant
                i <= self.scopes.len(),
                self@.lookup(name@) == lookup_from(
                    self@.scopes,
                    self@.global_scope,
                    name@,
                    i as int,
                ),
            decreases self.scopes.len() - i,
        {
            match self.scopes[i].lookup(name) {
                Some(var) => {
                    return Some(var);
                },
                None => {},
            }
            i += 1;
        }
        self.global_scope.lookup(name)
    }

    fn add_var(&mut self, var: Variable<'a>)
        requires
            old(self)@.scopes.len() > 0,
        ensures
            final(self)@ == old(self)@.add_var(var),
    {
        match self.scopes.pop_front() {
            Some(scope) => {
                let mut scope = scope;
                scope.add(var);
                self.scopes.push_front(scope);
                assert(self@.scopes =~= old(self)@.add_var(var).scopes);
            },
            None => {},
        }
    }

    fn add_global(&mut self, var: Variable<'a>)
        ensures
            final(self)@ == old(self)@.add_global(var),
    {
        self.global_scope.add(var);
    }

    fn new_global_pos(&mut self, type_val: &TypeVal) -> (r: Result<usize, CompileError>)
        ensures
            agrees_with(r, final(self)@, old(self)@.new_global_pos(*type_val)),
    {
        let prev = self.global_sz;
        let size = type_val.size_of();
        if size > usize::MAX - prev {
            return Err(CompileError::LimitExceeded);
        }
        self.global_sz += size;
        Ok(prev)
    }

    #[must_use]
    fn new_static_string(&mut self, string: &'a str) -> (r: Result<usize, CompileError>)
        ensures
            agrees_with(r, final(self)@, old(self)@.intern(string)),
    {
        if !self.cprog.can_add_static_string(string) {
            return Err(CompileError::LimitExceeded);
        }
        let offset = self.cprog.add_static_string(string);
        Ok(offset)
    }

    fn pop_to_stack(&mut self, type_val: &TypeVal, offset: usize) -> (r: Result<(), CompileError>)
        ensures
            agrees(r, final(self)@, old(self)@.pop_to_stack(*type_val, offset)),
            r is Ok ==> steady(old(self)@, final(self)@),
    {
        match type_val {
            TypeVal::UInt64 => self.emit_node(IRNode::Pop64ToStack(offset)),
            TypeVal::FunctionPointer(..) => self.emit_node(IRNode::Pop64ToStack(offset)),
            TypeVal::MethodPointer | TypeVal::StringSlice => {
                self.emit_node(IRNode::Pop64ToStack(offset));
                self.emit_node(IRNode::Pop64ToStack(offset));
            },
            TypeVal::Unit => (),
        }
        self.shrink(type_val.size_of())
    }

    fn global_read_push(&mut self, type_val: &TypeVal, global_pos: usize) -> (r: Result<
        (),
        CompileError,
    >)
        ensures
            agrees(r, final(self)@, old(self)@.global_read_push(*type_val, global_pos)),
            r is Ok ==> steady(old(self)@, final(self)@),
    {
        match type_val {
            TypeVal::UInt64 | TypeVal::FunctionPointer(..) => {
                self.emit_node(IRNode::GlobalReadPush64(global_pos));
            },
            TypeVal::MethodPointer | TypeVal::StringSlice => {
                if global_pos > usize::MAX - 8 {
                    return Err(CompileError::LimitExceeded);
                }
                self.emit_node(IRNode::GlobalReadPush64(global_pos));
                self.emit_node(IRNode::GlobalReadPush64(global_pos + 8));
            },
            TypeVal::Unit => (),
        }
        self.grow(type_val.size_of())
    }

    fn external_read_push(&mut self, type_val: &TypeVal, external: ExternalInfo<'a>) -> (r: Result<
        (),
        CompileError,
    >)
        ensures
            agrees(r, final(self)@, old(self)@.external_read_push(*type_val, external)),
            r is Ok ==> steady(old(self)@, final(self)@),
    {
        match type_val {
            TypeVal::UInt64 | TypeVal::FunctionPointer(..) => {
                self.emit_node(IRNode::ExternalReadPush64(external));
            },
            TypeVal::MethodPointer | TypeVal::StringSlice => {
                self.emit_node(IRNode::ExternalReadPush64(external));
            },
            TypeVal::Unit => (),
        }
        self.grow(type_val.size_of())
    }

    fn stack_read_push(&mut self, type_val: &TypeVal, offset: usize) -> (r: Result<
        (),
        CompileError,
    >)
        ensures
            agrees(r, final(self)@, old(self)@.stack_read_push(*type_val, offset)),
            r is Ok ==> steady(old(self)@, final(self)@),
    {
        match type_val {
            TypeVal::UInt64 | TypeVal::FunctionPointer(..) => {
                self.emit_node(IRNode::StackReadPush64(offset));
            },
            TypeVal::MethodPointer | TypeVal::StringSlice => {
                if offset > usize::MAX - 8 {
                    return Err(CompileError::LimitExceeded);
                }
                self.emit_node(IRNode::StackReadPush64(offset + 8));
                self.emit_node(IRNode::StackReadPush64(offset + 8));
            },
            TypeVal::Unit => (),
        }
        self.grow(type_val.size_of())
    }

    fn gen_const_val(&mut self, const_val: &CTimeVal) -> (r: Result<(), CompileError>)
        ensures
            agrees(r, final(self)@, old(self)@.gen_const_val(*const_val)),
            r is Ok ==> steady(old(self)@, final(self)@),
    {
        match const_val {
            CTimeVal::UInt(value) => {
                self.emit_node(IRNode::Push64(*value));
                self.grow(8)
            },
            CTimeVal::StringSlice(pointer, len) => {
                self.emit_node(IRNode::PushStaticStringPointer(*pointer));
                self.emit_node(IRNode::Push64(*len as u64));
                self.grow(16)
            },
            CTimeVal::Function { address, .. } => {
                let count = self.cprog.count_ir();
                if *address > count || count - *address > i16::MAX as usize {
                    return Err(CompileError::LimitExceeded);
                }
                let offset: i16 = (count - *address) as i16;
                self.emit_node(IRNode::PushAddressFromOffset(-offset));
                self.grow(8)
            },
            CTimeVal::Type(_) => Err(CompileError::TypeAsValue),
            CTimeVal::Int(_) => Err(CompileError::UnsupportedConstant),
        }
    }

    /// Pushes the value that `var` stands for.
    fn read_variable(&mut self, var: &Variable<'a>) -> (r: Result<(), CompileError>)
        ensures
            agrees(r, final(self)@, old(self)@.read_variable(*var)),
            r is Ok ==> steady(old(self)@, final(self)@),
    {
        if let Some(const_val) = &var.const_val {
            self.gen_const_val(const_val)
        } else if let Some(external) = var.external {
            self.external_read_push(&var.type_val, external)
        } else if let Some(pos) = var.global_pos {
            self.global_read_push(&var.type_val, pos)
        } else if let Some(stack_loc) = var.stack_loc {
            if stack_loc > self.stack_sz {
                return Err(CompileError::StackImbalance);
            }
            self.stack_read_push(&var.type_val, self.stack_sz - stack_loc)
        } else {
            Ok(())
        }
    }
}

impl<'a> IRGen<'a> {
    /// Ends a block that yields a value of type `type_val`.
    fn finish_block(&mut self, label: usize, prev_stack_sz: usize, type_val: &TypeVal) -> (r: Result<
        (),
        CompileError,
    >)
        requires
            label < old(self)@.program.ir.len(),
            old(self)@.scopes.len() > 0,
        ensures
            agrees(
                r,
                final(self)@,
                old(self)@.finish_block(label as int, prev_stack_sz, *type_val),
            ),
            r is Ok ==> final(self)@.scopes.len() + 1 == old(self)@.scopes.len(),
            r is Ok ==> final(self)@.program.ir.len() >= old(self)@.program.ir.len(),
    {
        let return_size = type_val.size_of();
        *self.cprog.node_mut_at(label) = IRNode::StackAlloc(return_size);
        if prev_stack_sz > self.stack_sz {
            return Err(CompileError::StackImbalance);
        }
        let depth = self.stack_sz - prev_stack_sz;
        if !self.cprog.can_realign_stack_offsets(label, depth, return_size) {
            return Err(CompileError::LimitExceeded);
        }
        self.cprog.realign_stack_offsets(label, depth, return_size);
        self.grow(return_size)?;
        let begin = self.scope_locals_stackp()?;
        let offset = match begin {
            Some(locals_begin_stackp) => {
                let above = self.stack_sz - locals_begin_stackp;
                if return_size > usize::MAX - above {
                    return Err(CompileError::LimitExceeded);
                }
                above + return_size
            },
            None => return_size,
        };
        self.pop_to_stack(type_val, offset)?;
        self.close_scope()
    }

    /// Takes back everything emitted from index `from` on.
    fn rollback(&mut self, from: usize)
        requires
            from <= old(self)@.program.ir.len(),
        ensures
            final(self)@ == old(self)@.rollback(from as int),
    {
        self.cprog.truncate_nodes(from);
    }

    /// Makes the jump at `jump_over` land behind the last instruction.
    fn patch_jump(&mut self, jump_over: usize) -> (r: Result<(), CompileError>)
        requires
            jump_over < old(self)@.program.ir.len(),
        ensures
            agrees(r, final(self)@, old(self)@.patch_jump(jump_over as int)),
            r is Ok ==> steady(old(self)@, final(self)@),
    {
        let after_func = self.cprog.count_ir();
        if after_func - jump_over > i16::MAX as usize {
            return Err(CompileError::LimitExceeded);
        }
        let offset: i16 = (after_func - jump_over) as i16;
        *self.cprog.node_mut_at(jump_over) = IRNode::JumpFromOffset(offset);
        Ok(())
    }

    /// Declares a global with the constant initializer `value`.
    fn declare_global(
        &mut self,
        name: &'a str,
        type_val: TypeVal,
        value: CTimeVal,
        is_const: bool,
        is_exported: bool,
    ) -> (r: Result<(), CompileError>)
        ensures
            agrees(
                r,
                final(self)@,
                old(self)@.declare_global(name, type_val, value, is_const, is_exported),
            ),
            r is Ok ==> steady(old(self)@, final(self)@),
    {
        let pos = self.new_global_pos(&type_val)?;
        let const_val = if is_const {
            Some(value.clone())
        } else {
            None
        };
        self.cprog.add_global(GlobalInfo::new(pos, name, is_exported, value, is_const));
        self.add_global(
            Variable {
                name,
                type_val,
                global_pos: Some(pos),
                stack_loc: None,
                const_val,
                external: None,
            },
        );
        Ok(())
    }

    /// Lowers a declaration that has no initializer.
    fn declare_uninitialized(
        &mut self,
        name: &'a str,
        type_val: TypeVal,
        is_const: bool,
        is_exported: bool,
    ) -> (r: Result<(), CompileError>)
        ensures
            agrees(
                r,
                final(self)@,
                old(self)@.declare_uninitialized(name, type_val, is_const, is_exported),
            ),
            r is Ok ==> steady(old(self)@, final(self)@),
            is_exported || old(self)@.scopes.len() == 0 ==> final(self)@ == old(self)@,
    {
        if is_exported {
            return Err(CompileError::ExportNotInitialized);
        }
        if !self.has_local_scope() {
            return Err(CompileError::GlobalNotConstant);
        }
        let mut stack_loc: Option<usize> = None;
        if !is_const {
            self.emit_node(IRNode::StackAlloc(type_val.size_of()));
            self.grow(type_val.size_of())?;
            stack_loc = Some(self.stack_sz);
        }
        self.add_var(
            Variable {
                name,
                type_val,
                global_pos: None,
                stack_loc,
                const_val: None,
                external: None,
            },
        );
        Ok(())
    }

    /// Declares a variable whose initializer was resolved to `symbol` in
    /// the present state, and lowered into `lowered` where that is needed.
    fn declare_local(
        &mut self,
        name: &'a str,
        type_val: TypeVal,
        value: Option<CTimeVal>,
        stack_loc: Option<usize>,
    )
        requires
            old(self)@.scopes.len() > 0,
        ensures
            final(self)@ == old(self)@.add_var(declared(name, type_val, None, stack_loc, value)),
    {
        self.add_var(
            Variable {
                name,
                type_val,
                global_pos: None,
                stack_loc,
                const_val: value,
                external: None,
            },
        );
    }

    /// Lowers the statements of `body` in order.
    fn gen_stmts(&mut self, body: &Vec<Stmt<'a>>) -> (r: Result<(), CompileError>)
        ensures
            agrees(r, final(self)@, gen_stmts_spec(old(self)@, body, 0)),
            r is Ok ==> steady(old(self)@, final(self)@),
        decreases stmts_size(body, 0), 0nat,
    {
        let mut i: usize = 0;
        while i < body.len()
            invariant
                i <= body.len(),
                gen_stmts_spec(old(self)@, body, 0) == gen_stmts_spec(self@, body, i as int),
                steady(old(self)@, self@),
            decreases body.len() - i,
        {
            proof {
                lemma_stmts_size_index(body, 0, i as int);
            }
            self.gen_stmt(&body[i])?;
            i += 1;
        }
        Ok(())
    }

    /// Lowers the declarations among the statements of `body` in order.
    fn resolve_decls(&mut self, body: &Vec<Stmt<'a>>) -> (r: Result<(), CompileError>)
        ensures
            agrees(r, final(self)@, resolve_decls_spec(old(self)@, body, 0)),
            r is Ok ==> steady(old(self)@, final(self)@),
        decreases stmts_size(body, 0), 0nat,
    {
        let mut i: usize = 0;
        while i < body.len()
            invariant
                i <= body.len(),
                resolve_decls_spec(old(self)@, body, 0) == resolve_decls_spec(
                    self@,
                    body,
                    i as int,
                ),
                steady(old(self)@, self@),
            decreases body.len() - i,
        {
            proof {
                lemma_stmts_size_index(body, 0, i as int);
            }
            match &body[i] {
                Stmt::ConstDecl(..) => self.gen_stmt(&body[i])?,
                Stmt::VarDecl(..) => self.gen_stmt(&body[i])?,
                _ => {},
            }
            i += 1;
        }
        Ok(())
    }

    /// Lowers the arguments `args` in order.
    fn gen_args(&mut self, args: &Vec<Expr<'a>>) -> (r: Result<(), CompileError>)
        ensures
            agrees(r, final(self)@, gen_args_spec(old(self)@, args, 0)),
            r is Ok ==> steady(old(self)@, final(self)@),
        decreases exprs_size(args, 0), 0nat,
    {
        let mut i: usize = 0;
        while i < args.len()
            invariant
                i <= args.len(),
                gen_args_spec(old(self)@, args, 0) == gen_args_spec(self@, args, i as int),
                steady(old(self)@, self@),
            decreases args.len() - i,
        {
            proof {
                lemma_exprs_size_index(args, 0, i as int);
            }
            self.gen_expr(&args[i])?;
            i += 1;
        }
        Ok(())
    }

    /// Gives back what an expression statement left on the virtual stack
    /// above `prev_stack_sz`.
    fn drop_value(&mut self, Ghost(before): Ghost<GenView<'a>>, prev_stack_sz: usize) -> (r: Result<
        (),
        CompileError,
    >)
        requires
            prev_stack_sz == before.stack_sz,
        ensures
            agrees(r, final(self)@, old(self)@.drop_value(before)),
            r is Ok ==> steady(old(self)@, final(self)@),
    {
        if self.stack_sz < prev_stack_sz {
            return Err(CompileError::StackImbalance);
        }
        let stack_diff = self.stack_sz - prev_stack_sz;
        if stack_diff > 0 {
            self.emit_node(IRNode::StackDealloc(stack_diff));
            self.stack_sz -= stack_diff;
        }
        Ok(())
    }

    /// Lowers the statement `stmt`. A package declaration that is refused
    /// leaves the generator as it was.
    fn gen_stmt(&mut self, stmt: &Stmt<'a>) -> (r: Result<(), CompileError>)
        ensures
            agrees(r, final(self)@, gen_stmt_spec(old(self)@, stmt)),
            r is Ok ==> steady(old(self)@, final(self)@),
            stmt is PackageDecl && r is Err ==> final(self)@ == old(self)@,
        decreases stmt.size(), 1nat,
    {
        match stmt {
            Stmt::Expr(expr, _) => {
                let prev_stack_sz = self.stack_sz;
                self.gen_expr(expr)?;
                self.drop_value(Ghost(old(self)@), prev_stack_sz)
            },
            Stmt::PackageDecl(name) => {
                if self.cprog.get_package_name().is_some() {
                    Err(CompileError::DuplicatePackage)
                } else {
                    self.cprog.set_package_name(Some(*name));
                    Ok(())
                }
            },
            Stmt::ConstDecl(name, init, type_expr, is_exported) => self.gen_decl(
                *name,
                init,
                type_expr,
                true,
                *is_exported,
            ),
            Stmt::VarDecl(name, init, type_expr, is_exported) => self.gen_decl(
                *name,
                init,
                type_expr,
                false,
                *is_exported,
            ),
        }
    }

    /// Resolves the type annotation of a declaration, if there is one.
    fn resolve_annotation(&mut self, type_expr: &Option<Expr<'a>>) -> (r: Result<
        Option<TypeVal>,
        CompileError,
    >)
        ensures
            agrees_with(r, final(self)@, resolve_annotation_spec(old(self)@, type_expr)),
            r is Ok ==> steady(old(self)@, final(self)@),
        decreases opt_size(type_expr), 2nat,
    {
        match type_expr {
            Some(annotation) => {
                let symbol = self.resolve_expr(annotation)?;
                Ok(Some(symbol.type_val))
            },
            None => Ok(None),
        }
    }

    fn gen_decl(
        &mut self,
        name: &'a str,
        init: &Option<Expr<'a>>,
        type_expr: &Option<Expr<'a>>,
        is_const: bool,
        is_exported: bool,
    ) -> (r: Result<(), CompileError>)
        ensures
            agrees(
                r,
                final(self)@,
                gen_decl_spec(old(self)@, name, init, type_expr, is_const, is_exported),
            ),
            r is Ok ==> steady(old(self)@, final(self)@),
            old(self)@.scopes.len() > 0 && is_exported ==> final(self)@ == old(self)@,
        decreases opt_size(init) + opt_size(type_expr), 3nat,
    {
        if self.has_local_scope() && is_exported {
            return Err(CompileError::ExportScope);
        }
        let annotated = self.resolve_annotation(type_expr)?;
        match init {
            Some(expr) => {
                let symbol = self.resolve_expr(expr)?;
                let type_val = match annotated {
                    Some(t) => t,
                    None => symbol.type_val,
                };
                if !self.has_local_scope() {
                    match symbol.const_val {
                        None => Err(CompileError::GlobalNotConstant),
                        Some(value) => self.declare_global(
                            name,
                            type_val,
                            value,
                            is_const,
                            is_exported,
                        ),
                    }
                } else if symbol.const_val.is_none() || !is_const {
                    self.gen_expr(expr)?;
                    let stack_loc = Some(self.stack_sz);
                    self.declare_local(name, type_val, None, stack_loc);
                    Ok(())
                } else {
                    self.declare_local(name, type_val, symbol.const_val, None);
                    Ok(())
                }
            },
            None => {
                let type_val = match annotated {
                    Some(t) => t,
                    None => TypeVal::UInt64,
                };
                self.declare_uninitialized(name, type_val, is_const, is_exported)
            },
        }
    }

    /// Pushes the string literal `string`.
    fn gen_string(&mut self, string: &'a str) -> (r: Result<(), CompileError>)
        ensures
            agrees(r, final(self)@, old(self)@.gen_string(string)),
            r is Ok ==> steady(old(self)@, final(self)@),
    {
        let static_string_pointer = self.new_static_string(string)?;
        let len = string.as_bytes().len();
        self.emit_node(IRNode::PushStaticStringPointer(static_string_pointer));
        self.emit_node(IRNode::Push64(len as u64));
        self.grow(16)
    }

    /// Pushes the variable called `name`.
    fn gen_variable(&mut self, name: &str) -> (r: Result<(), CompileError>)
        ensures
            agrees(r, final(self)@, old(self)@.gen_variable(name@)),
            r is Ok ==> steady(old(self)@, final(self)@),
    {
        let var = match self.lookup_var(name) {
            Some(var) => var.clone(),
            None => {
                return Err(CompileError::UnknownName);
            },
        };
        self.read_variable(&var)
    }

    fn gen_expr(&mut self, expr: &Expr<'a>) -> (r: Result<(), CompileError>)
        ensures
            agrees(r, final(self)@, gen_expr_spec(old(self)@, expr)),
            r is Ok ==> steady(old(self)@, final(self)@),
        decreases expr.size(), 1nat,
    {
        match expr {
            Expr::TypeUInt64 => Err(CompileError::TypeAsValue),
            Expr::TypeString => Err(CompileError::TypeAsValue),
            Expr::IntLit(value) => {
                self.emit_node(IRNode::Push64(*value));
                self.grow(8)
            },
            Expr::StringLit(string) => self.gen_string(*string),
            Expr::Call(callee, args) => self.gen_call(callee, args),
            Expr::Variable(name) => self.gen_variable(name),
            Expr::Block(body, return_expr) => self.gen_block(body, return_expr),
            Expr::Function(_) => Err(CompileError::FunctionNotInlined),
        }
    }

    /// Lowers a call of `callee` with `args`.
    fn gen_call(&mut self, callee: &Expr<'a>, args: &Vec<Expr<'a>>) -> (r: Result<
        (),
        CompileError,
    >)
        ensures
            agrees(r, final(self)@, gen_call_spec(old(self)@, callee, args)),
            r is Ok ==> steady(old(self)@, final(self)@),
        decreases callee.size() + exprs_size(args, 0), 2nat,
    {
        let symbol = self.resolve_expr(callee)?;
        match symbol.type_val {
            TypeVal::FunctionPointer(return_type_val) => {
                self.emit_node(IRNode::StackAlloc(return_type_val.size_of()));
                self.grow(return_type_val.size_of())?;
                let prev_stack_sz = self.stack_sz;
                self.gen_args(args)?;
                self.gen_expr(callee)?;
                self.emit_node(IRNode::Call);
                self.stack_sz = prev_stack_sz;
                Ok(())
            },
            _ => Err(CompileError::NonCallable),
        }
    }

    /// Lowers a block with the statements `body` that yields `return_expr`.
    fn gen_block(&mut self, body: &Vec<Stmt<'a>>, return_expr: &Option<Box<Expr<'a>>>) -> (r: Result<
        (),
        CompileError,
    >)
        ensures
            agrees(r, final(self)@, gen_block_spec(old(self)@, body, return_expr)),
            r is Ok ==> steady(old(self)@, final(self)@),
        decreases stmts_size(body, 0) + tail_size(return_expr), 2nat,
    {
        let prev_stack_sz = self.stack_sz;
        let stack_alloc_label = self.cprog.count_ir();
        self.open_scope();
        self.emit_node(IRNode::StackAlloc(0));
        self.gen_stmts(body)?;
        match return_expr {
            Some(tail) => {
                self.gen_expr(tail)?;
                let type_val = self.resolve_expr(tail)?.type_val;
                self.finish_block(stack_alloc_label, prev_stack_sz, &type_val)
            },
            None => self.close_scope(),
        }
    }

    /// Finds out what is known of the string literal `string`.
    fn resolve_string(&mut self, string: &'a str) -> (r: Result<CmplSymbol, CompileError>)
        ensures
            agrees_with(r, final(self)@, old(self)@.resolve_string(string)),
            r is Ok ==> steady(old(self)@, final(self)@),
    {
        let offset = self.new_static_string(string)?;
        let len = string.as_bytes().len();
        Ok(
            CmplSymbol {
                const_val: Some(CTimeVal::StringSlice(offset, len)),
                type_val: TypeVal::StringSlice,
            },
        )
    }

    /// Finds out what is known of the variable called `name`.
    fn resolve_variable(&self, name: &str) -> (r: CmplSymbol)
        ensures
            r == self@.resolve_variable(name@),
    {
        match self.lookup_var(name) {
            Some(var) => CmplSymbol {
                const_val: clone_const(&var.const_val),
                type_val: var.type_val.clone(),
            },
            None => CmplSymbol { const_val: None, type_val: TypeVal::UInt64 },
        }
    }

    fn resolve_expr(&mut self, expr: &Expr<'a>) -> (r: Result<CmplSymbol, CompileError>)
        ensures
            agrees_with(r, final(self)@, resolve_expr_spec(old(self)@, expr)),
            r is Ok ==> steady(old(self)@, final(self)@),
        decreases expr.size(), 1nat,
    {
        match expr {
            Expr::TypeUInt64 => Ok(
                CmplSymbol {
                    const_val: Some(CTimeVal::Type(TypeVal::UInt64)),
                    type_val: TypeVal::UInt64,
                },
            ),
            Expr::TypeString => Ok(
                CmplSymbol {
                    const_val: Some(CTimeVal::Type(TypeVal::StringSlice)),
                    type_val: TypeVal::StringSlice,
                },
            ),
            Expr::IntLit(value) => Ok(
                CmplSymbol { const_val: Some(CTimeVal::UInt(*value)), type_val: TypeVal::UInt64 },
            ),
            Expr::StringLit(string) => self.resolve_string(*string),
            Expr::Call(..) => Ok(CmplSymbol { const_val: None, type_val: TypeVal::UInt64 }),
            Expr::Variable(name) => Ok(self.resolve_variable(name)),
            Expr::Block(body, return_expr) => match return_expr {
                Some(tail) => self.resolve_block(body, tail),
                None => Ok(CmplSymbol { const_val: None, type_val: TypeVal::UInt64 }),
            },
            Expr::Function(body) => self.resolve_function(body),
        }
    }

    /// Finds out what a block with the statements `body` yields in `tail`.
    fn resolve_block(&mut self, body: &Vec<Stmt<'a>>, tail: &Expr<'a>) -> (r: Result<
        CmplSymbol,
        CompileError,
    >)
        ensures
            agrees_with(r, final(self)@, resolve_block_spec(old(self)@, body, tail)),
            r is Ok ==> steady(old(self)@, final(self)@),
        decreases stmts_size(body, 0) + tail.size(), 2nat,
    {
        let prev_ir_count = self.cprog.count_ir();
        let prev_stack_sz = self.stack_sz;
        self.open_scope();
        self.resolve_decls(body)?;
        let symbol = self.resolve_expr(tail)?;
        self.close_scope()?;
        self.rollback(prev_ir_count);
        self.stack_sz = prev_stack_sz;
        let taken_back = match symbol.const_val {
            Some(CTimeVal::Function { address, .. }) => address >= prev_ir_count,
            _ => false,
        };
        if taken_back {
            Ok(CmplSymbol { const_val: None, type_val: symbol.type_val })
        } else {
            Ok(symbol)
        }
    }

    /// Ends a function literal whose body yields a value of type
    /// `return_type_val`, and whose code starts at `address`; inside a
    /// block the jump before it leads past it.
    fn leave_function(
        &mut self,
        Ghost(entered): Ghost<GenView<'a>>,
        is_local: bool,
        address: usize,
        return_type_val: TypeVal,
    ) -> (r: Result<CmplSymbol, CompileError>)
        requires
            is_local == (entered.scopes.len() > 0),
            address == entered.program.ir.len(),
            is_local ==> address > 0,
            old(self)@.program.ir.len() >= address,
        ensures
            agrees_with(r, final(self)@, old(self)@.leave_function(entered, return_type_val)),
            r is Ok ==> final(self)@.scopes.len() == old(self)@.scopes.len(),
            r is Ok ==> final(self)@.program.ir.len() >= old(self)@.program.ir.len(),
    {
        self.pop_to_stack(&return_type_val, return_type_val.size_of() + 8)?;
        self.emit_node(IRNode::Return { params_size: 0 });
        if is_local {
            self.patch_jump(address - 1)?;
        }
        Ok(
            CmplSymbol {
                const_val: Some(
                    CTimeVal::Function { address, return_type_val: return_type_val.clone() },
                ),
                type_val: TypeVal::FunctionPointer(Box::new(return_type_val)),
            },
        )
    }

    /// Lowers a function literal with the body `body`.
    fn resolve_function(&mut self, body: &Expr<'a>) -> (r: Result<CmplSymbol, CompileError>)
        ensures
            agrees_with(r, final(self)@, resolve_function_spec(old(self)@, body)),
            r is Ok ==> steady(old(self)@, final(self)@),
        decreases body.size(), 2nat,
    {
        let prev_stack_sz = self.stack_sz;
        let symbol = self.resolve_expr(body)?;
        let is_local = self.has_local_scope();
        if is_local {
            self.emit_node(IRNode::JumpFromOffset(0));
        }
        let ghost entered = self@;
        let address = self.cprog.count_ir();
        self.gen_expr(body)?;
        let function = self.leave_function(Ghost(entered), is_local, address, symbol.type_val)?;
        self.stack_sz = prev_stack_sz;
        Ok(function)
    }
}

impl<'a> IRGen<'a> {
    /// Whether a global other than `main` is exported.
    fn exports_symbol(&self) -> (b: bool)
        ensures
            b == self@.exports_symbol(),
    {
        let mut found = false;
        for global in it: self.cprog.globals_iter()
            invariant
                it.seq() == self@.program.globals.as_ref(),
                found == exists|g: int|
                    0 <= g < it.index() && (#[trigger] self@.program.globals[g]).is_exported
                        && self@.program.globals[g].name@ != "main"@,
        {
            if global.is_exported && !str_eq(global.name, "main") {
                found = true;
            }
        }
        found
    }

    /// Lowers the whole program `ast` and hands out the program made of
    /// it. The runtime's `print` is known from the start. A generator with
    /// no scope open leaves the virtual stack as it found it and no scope
    /// open, and every function address of a global names an instruction
    /// of the program.
    pub fn generate(&mut self, ast: &Vec<Stmt<'a>>) -> (r: Result<
        &mut CompiledProgram<'a>,
        CompileError,
    >)
        ensures
            match generate_spec(old(self)@, ast) {
                Ok(state) => r is Ok && (*r->Ok_0)@ == state.program && final(self)@ == (GenView {
                    program: (*final(r->Ok_0))@,
                    ..state
                }),
                Err(e) => r is Err && r->Err_0 == e,
            },
            old(self)@.scopes.len() == 0 && old(self)@.program.references_valid() && r is Ok ==> (
            *r->Ok_0)@.references_valid(),
            old(self)@.scopes.len() == 0 && r is Ok ==> final(self)@.stack_sz == old(self)@.stack_sz
                && final(self)@.scopes.len() == 0,
            old(self)@.program.pool_wf() && r is Ok ==> (*r->Ok_0)@.pool_wf(),
            old(self)@.scopes.len() == 0 && grounded(old(self)@) && r is Ok ==> (
            *r->Ok_0)@.addresses_valid(),
            at_rest(old(self)@) && functions_come_first(ast) && r is Ok ==> (
            *r->Ok_0)@.is_settled(),
    {
        proof {
            if at_rest(self@) && functions_come_first(ast) {
                lemma_generated_is_settled(self@, ast);
            }
            if self@.scopes.len() == 0 && grounded(self@) {
                crate::ir_gen::gen_stable::lemma_generated_addresses_valid(self@, ast);
            }
            crate::ir_gen::gen_laws::lemma_gen_stmts_scopes(self@.with_runtime(), ast, 0);
            if self@.scopes.len() == 0 && self@.program.references_valid() {
                crate::ir_gen::gen_anchor::lemma_generated_references_valid(self@, ast);
            }
            if self@.scopes.len() == 0 {
                lemma_generated_keeps_stack(self@, ast);
            }
        }
        self.cprog.add_external(ExternalInfo::new("print", "rt", true));
        self.add_global(
            Variable {
                name: "print",
                type_val: TypeVal::FunctionPointer(Box::new(TypeVal::Unit)),
                global_pos: None,
                stack_loc: None,
                const_val: None,
                external: Some(ExternalInfo::new("print", "rt", true)),
            },
        );
        match self.gen_stmts(ast) {
            Err(e) => {
                return Err(e);
            },
            Ok(()) => {},
        }
        if self.cprog.get_package_name().is_none() && self.exports_symbol() {
            return Err(CompileError::ExportWithoutPackage);
        }
        let _count = self.cprog.count_ir();
        Ok(&mut self.cprog)
    }
}

} // verus!
