use vstd::prelude::*;
use vstd::string::StringSliceAdditionalSpecFns;
use crate::ir_gen::ctimeval::CTimeVal;
use crate::ir_gen::error::CompileError;
use crate::ir_gen::external::ExternalInfo;
use crate::ir_gen::global::GlobalInfo;
use crate::ir_gen::ir::IRNode;
use crate::ir_gen::program::ProgramView;
use crate::ir_gen::scope::position;
use crate::ir_gen::symbol::CmplSymbol;
use crate::ir_gen::typeval::TypeVal;
use crate::ir_gen::variable::Variable;
use crate::parser::ast::{exprs_size, opt_size, stmts_size, Expr, Stmt};

verus! {

/// Mathematical model of the generator's state.
pub struct GenView<'a> {
    pub program: ProgramView<'a>,
    pub global_scope: Seq<Variable<'a>>,
    /// The open local scopes, the innermost first.
    pub scopes: Seq<Seq<Variable<'a>>>,
    /// Bytes on the virtual operand stack.
    pub stack_sz: usize,
    /// Bytes of the global segment handed out so far.
    pub global_sz: usize,
}

/// Bytes that the variables of a scope take on the stack: the sizes of
/// those that have a place there.
pub open spec fn locals_size(vars: Seq<Variable>) -> nat
    decreases vars.len(),
{
    if vars.len() == 0 {
        0
    } else {
        locals_size(vars.drop_last()) + if vars.last().stack_loc is Some {
            vars.last().type_val.size_of() as nat
        } else {
            0
        }
    }
}

/// The variable that `name` refers to: that of the innermost scope from
/// index `from` on that declares the name, else that of the global scope.
pub open spec fn lookup_from<'a>(
    scopes: Seq<Seq<Variable<'a>>>,
    global_scope: Seq<Variable<'a>>,
    name: Seq<char>,
    from: int,
) -> Option<Variable<'a>>
    decreases scopes.len() - from,
{
    if from < 0 || from >= scopes.len() {
        match position(global_scope, name) {
            Some(i) => Some(global_scope[i]),
            None => None,
        }
    } else {
        match position(scopes[from], name) {
            Some(i) => Some(scopes[from][i]),
            None => lookup_from(scopes, global_scope, name, from + 1),
        }
    }
}

impl<'a> GenView<'a> {
    /// The state of a generator that has done nothing yet.
    pub open spec fn initial() -> GenView<'a> {
        GenView {
            program: ProgramView::empty(),
            global_scope: Seq::empty(),
            scopes: Seq::empty(),
            stack_sz: 0,
            global_sz: 0,
        }
    }

    /// One more instruction at the end of the stream.
    pub open spec fn emit(self, node: IRNode<'a>) -> GenView<'a> {
        GenView { program: ProgramView { ir: self.program.ir.push(node), ..self.program }, ..self }
    }

    /// The virtual stack grown by `bytes`.
    pub open spec fn grow(self, bytes: usize) -> Result<GenView<'a>, CompileError> {
        if self.stack_sz + bytes > usize::MAX {
            Err(CompileError::LimitExceeded)
        } else {
            Ok(GenView { stack_sz: (self.stack_sz + bytes) as usize, ..self })
        }
    }

    /// The virtual stack shrunk by `bytes`.
    pub open spec fn shrink(self, bytes: usize) -> Result<GenView<'a>, CompileError> {
        if bytes > self.stack_sz {
            Err(CompileError::StackImbalance)
        } else {
            Ok(GenView { stack_sz: (self.stack_sz - bytes) as usize, ..self })
        }
    }

    /// A new innermost scope that declares nothing.
    pub open spec fn open_scope(self) -> GenView<'a> {
        GenView { scopes: seq![Seq::empty()] + self.scopes, ..self }
    }

    /// The innermost scope left: its locals are given back in one
    /// `StackDealloc`.
    pub open spec fn close_scope(self) -> Result<GenView<'a>, CompileError> {
        let total = locals_size(self.scopes[0]);
        if total > usize::MAX {
            Err(CompileError::LimitExceeded)
        } else {
            GenView { scopes: self.scopes.drop_first(), ..self }.emit(
                IRNode::StackDealloc(total as usize),
            ).shrink(total as usize)
        }
    }

    /// Where on the stack the locals of the innermost scope begin, if it
    /// has any that take room.
    pub open spec fn locals_begin(self) -> Result<Option<usize>, CompileError> {
        let total = locals_size(self.scopes[0]);
        if total > self.stack_sz {
            Err(CompileError::StackImbalance)
        } else if total == 0 {
            Ok(None)
        } else {
            Ok(Some((self.stack_sz - total) as usize))
        }
    }

    /// The variable that `name` refers to at this point.
    pub open spec fn lookup(self, name: Seq<char>) -> Option<Variable<'a>> {
        lookup_from(self.scopes, self.global_scope, name, 0)
    }

    /// `var` declared in the innermost scope.
    pub open spec fn add_var(self, var: Variable<'a>) -> GenView<'a> {
        GenView { scopes: self.scopes.update(0, seq![var] + self.scopes[0]), ..self }
    }

    /// `var` declared in the global scope.
    pub open spec fn add_global(self, var: Variable<'a>) -> GenView<'a> {
        GenView { global_scope: seq![var] + self.global_scope, ..self }
    }

    /// Room for a global of type `type_val` taken from the global segment:
    /// the new state and the global's offset.
    pub open spec fn new_global_pos(self, type_val: TypeVal) -> Result<
        (GenView<'a>, usize),
        CompileError,
    > {
        if self.global_sz + type_val.size_of() > usize::MAX {
            Err(CompileError::LimitExceeded)
        } else {
            Ok(
                (
                    GenView { global_sz: (self.global_sz + type_val.size_of()) as usize, ..self },
                    self.global_sz,
                ),
            )
        }
    }

    /// `string` interned: the new state and the string's offset.
    pub open spec fn intern(self, string: &'a str) -> Result<(GenView<'a>, usize), CompileError> {
        if self.program.can_intern(string) {
            Ok(
                (
                    GenView { program: self.program.interned(string).0, ..self },
                    self.program.interned(string).1,
                ),
            )
        } else {
            Err(CompileError::LimitExceeded)
        }
    }

    /// The value on top of the stack moved down to `offset`: one 8-byte pop
    /// for each 8 bytes of the type.
    pub open spec fn pop_to_stack(self, type_val: TypeVal, offset: usize) -> Result<
        GenView<'a>,
        CompileError,
    > {
        match type_val {
            TypeVal::UInt64 | TypeVal::FunctionPointer(_) => self.emit(
                IRNode::Pop64ToStack(offset),
            ),
            TypeVal::MethodPointer | TypeVal::StringSlice => self.emit(
                IRNode::Pop64ToStack(offset),
            ).emit(IRNode::Pop64ToStack(offset)),
            TypeVal::Unit => self,
        }.shrink(type_val.size_of())
    }

    /// A global of type `type_val` at `global_pos` pushed: one 8-byte read
    /// for each 8 bytes of the type.
    pub open spec fn global_read_push(self, type_val: TypeVal, global_pos: usize) -> Result<
        GenView<'a>,
        CompileError,
    > {
        match type_val {
            TypeVal::UInt64 | TypeVal::FunctionPointer(_) => self.emit(
                IRNode::GlobalReadPush64(global_pos),
            ).grow(type_val.size_of()),
            TypeVal::MethodPointer | TypeVal::StringSlice => if global_pos + 8 > usize::MAX {
                Err(CompileError::LimitExceeded)
            } else {
                self.emit(IRNode::GlobalReadPush64(global_pos)).emit(
                    IRNode::GlobalReadPush64((global_pos + 8) as usize),
                ).grow(type_val.size_of())
            },
            TypeVal::Unit => self.grow(type_val.size_of()),
        }
    }

    /// An external symbol pushed.
    pub open spec fn external_read_push(self, type_val: TypeVal, external: ExternalInfo<'a>)
        -> Result<GenView<'a>, CompileError> {
        match type_val {
            TypeVal::Unit => self,
            _ => self.emit(IRNode::ExternalReadPush64(external)),
        }.grow(type_val.size_of())
    }

    /// A local of type `type_val` that lies `offset` bytes into the stack
    /// pushed. Both reads of a 16-byte value use `offset + 8`: the second
    /// one finds the stack grown by the first.
    pub open spec fn stack_read_push(self, type_val: TypeVal, offset: usize) -> Result<
        GenView<'a>,
        CompileError,
    > {
        match type_val {
            TypeVal::UInt64 | TypeVal::FunctionPointer(_) => self.emit(
                IRNode::StackReadPush64(offset),
            ).grow(type_val.size_of()),
            TypeVal::MethodPointer | TypeVal::StringSlice => if offset + 8 > usize::MAX {
                Err(CompileError::LimitExceeded)
            } else {
                self.emit(IRNode::StackReadPush64((offset + 8) as usize)).emit(
                    IRNode::StackReadPush64((offset + 8) as usize),
                ).grow(type_val.size_of())
            },
            TypeVal::Unit => self.grow(type_val.size_of()),
        }
    }

    /// A compile-time constant pushed.
    pub open spec fn gen_const_val(self, const_val: CTimeVal) -> Result<GenView<'a>, CompileError> {
        match const_val {
            CTimeVal::UInt(value) => self.emit(IRNode::Push64(value)).grow(8),
            CTimeVal::StringSlice(pointer, len) => self.emit(
                IRNode::PushStaticStringPointer(pointer),
            ).emit(IRNode::Push64(len as u64)).grow(16),
            CTimeVal::Function { address, .. } => {
                let distance = self.program.ir.len() - address;
                if 0 <= distance <= i16::MAX {
                    self.emit(IRNode::PushAddressFromOffset((-distance) as i16)).grow(8)
                } else {
                    Err(CompileError::LimitExceeded)
                }
            },
            CTimeVal::Type(_) => Err(CompileError::TypeAsValue),
            CTimeVal::Int(_) => Err(CompileError::UnsupportedConstant),
        }
    }

    /// The value of `var` pushed: its constant, else the external symbol,
    /// the global or the local it stands for; nothing for a variable that
    /// stands for none of these.
    pub open spec fn read_variable(self, var: Variable<'a>) -> Result<GenView<'a>, CompileError> {
        match var.const_val {
            Some(const_val) => self.gen_const_val(const_val),
            None => match var.external {
                Some(external) => self.external_read_push(var.type_val, external),
                None => match var.global_pos {
                    Some(pos) => self.global_read_push(var.type_val, pos),
                    None => match var.stack_loc {
                        Some(stack_loc) => if stack_loc > self.stack_sz {
                            Err(CompileError::StackImbalance)
                        } else {
                            self.stack_read_push(
                                var.type_val,
                                (self.stack_sz - stack_loc) as usize,
                            )
                        },
                        None => Ok(self),
                    },
                },
            },
        }
    }

    /// The end of a block that yields a value of type `type_val`: the
    /// placeholder at `label` becomes the allocation of the value's room,
    /// the offsets emitted since then are moved past that room, the value
    /// is moved down into it and the scope is closed. `prev_stack_sz` is
    /// the stack size at the start of the block.
    pub open spec fn finish_block(self, label: int, prev_stack_sz: usize, type_val: TypeVal)
        -> Result<GenView<'a>, CompileError> {
        let size = type_val.size_of();
        let patched = ProgramView {
            ir: self.program.ir.update(label, IRNode::StackAlloc(size)),
            ..self.program
        };
        if prev_stack_sz > self.stack_sz {
            Err(CompileError::StackImbalance)
        } else {
            let depth = (self.stack_sz - prev_stack_sz) as usize;
            if !patched.stack_realign_fits(label, depth, size) {
                Err(CompileError::LimitExceeded)
            } else {
                match (GenView { program: patched.stack_realigned(label, depth, size), ..self }).grow(
                    size,
                ) {
                    Err(e) => Err(e),
                    Ok(grown) => match grown.locals_begin() {
                        Err(e) => Err(e),
                        Ok(begin) => {
                            let offset = match begin {
                                Some(locals_begin) => grown.stack_sz - locals_begin + size,
                                None => size as int,
                            };
                            if offset > usize::MAX {
                                Err(CompileError::LimitExceeded)
                            } else {
                                match grown.pop_to_stack(type_val, offset as usize) {
                                    Err(e) => Err(e),
                                    Ok(moved) => moved.close_scope(),
                                }
                            }
                        },
                    },
                }
            }
        }
    }

    /// Everything emitted from index `from` on taken back: the stream is
    /// what it was when it had `from` instructions.
    pub open spec fn rollback(self, from: int) -> GenView<'a> {
        GenView { program: ProgramView { ir: self.program.ir.take(from), ..self.program }, ..self }
    }

    /// The jump at `jump_over` made to land behind the last instruction.
    pub open spec fn patch_jump(self, jump_over: int) -> Result<GenView<'a>, CompileError> {
        let distance = self.program.ir.len() - jump_over;
        if distance > i16::MAX {
            Err(CompileError::LimitExceeded)
        } else {
            Ok(
                GenView {
                    program: ProgramView {
                        ir: self.program.ir.update(
                            jump_over,
                            IRNode::JumpFromOffset(distance as i16),
                        ),
                        ..self.program
                    },
                    ..self
                },
            )
        }
    }
}

/// The symbol of something that is neither typed nor constant.
pub open spec fn unknown_symbol() -> CmplSymbol {
    CmplSymbol { const_val: None, type_val: TypeVal::UInt64 }
}

/// The symbol of a function that starts at `address` and returns a value
/// of type `return_type_val`.
pub open spec fn function_symbol(address: usize, return_type_val: TypeVal) -> CmplSymbol {
    CmplSymbol {
        const_val: Some(CTimeVal::Function { address, return_type_val }),
        type_val: TypeVal::FunctionPointer(Box::new(return_type_val)),
    }
}

/// Number of nodes of the expression that a block yields, if it yields one.
pub open spec fn tail_size<'a>(return_expr: &Option<Box<Expr<'a>>>) -> nat {
    match return_expr {
        Some(tail) => tail.size(),
        None => 0,
    }
}

impl<'a> GenView<'a> {
    /// What is known of the string literal `string`: it is interned, and
    /// known by its offset and its length in bytes.
    pub open spec fn resolve_string(self, string: &'a str) -> Result<
        (GenView<'a>, CmplSymbol),
        CompileError,
    > {
        match self.intern(string) {
            Err(e) => Err(e),
            Ok((interned, offset)) => Ok(
                (
                    interned,
                    CmplSymbol {
                        const_val: Some(
                            CTimeVal::StringSlice(offset, string.spec_bytes().len() as usize),
                        ),
                        type_val: TypeVal::StringSlice,
                    },
                ),
            ),
        }
    }

    /// What is known of the variable called `name`; of a name that is
    /// not declared, nothing.
    pub open spec fn resolve_variable(self, name: Seq<char>) -> CmplSymbol {
        match self.lookup(name) {
            Some(var) => CmplSymbol { const_val: var.const_val, type_val: var.type_val },
            None => unknown_symbol(),
        }
    }

    /// The string literal `string` pushed: its address in the pool, then
    /// its length in bytes.
    pub open spec fn gen_string(self, string: &'a str) -> Result<GenView<'a>, CompileError> {
        match self.intern(string) {
            Err(e) => Err(e),
            Ok((interned, offset)) => interned.emit(IRNode::PushStaticStringPointer(offset)).emit(
                IRNode::Push64(string.spec_bytes().len() as u64),
            ).grow(16),
        }
    }

    /// The variable called `name` pushed.
    pub open spec fn gen_variable(self, name: Seq<char>) -> Result<GenView<'a>, CompileError> {
        match self.lookup(name) {
            Some(var) => self.read_variable(var),
            None => Err(CompileError::UnknownName),
        }
    }

    /// The state in which the body of a function literal is lowered: inside
    /// a block, a jump that will lead past the body comes first.
    pub open spec fn enter_function(self) -> GenView<'a> {
        if self.scopes.len() > 0 {
            self.emit(IRNode::JumpFromOffset(0))
        } else {
            self
        }
    }

    /// The end of a function literal whose body was lowered into the state
    /// `self`, starting from `entered`: the value is moved over the return
    /// address, the function returns, and the jump past it, if there is
    /// one, is made to land behind it.
    pub open spec fn leave_function(self, entered: GenView<'a>, return_type_val: TypeVal) -> Result<
        (GenView<'a>, CmplSymbol),
        CompileError,
    > {
        match self.pop_to_stack(return_type_val, (return_type_val.size_of() + 8) as usize) {
            Err(e) => Err(e),
            Ok(moved) => {
                let returned = moved.emit(IRNode::Return { params_size: 0 });
                let symbol = function_symbol(entered.program.ir.len() as usize, return_type_val);
                if entered.scopes.len() > 0 {
                    match returned.patch_jump(entered.program.ir.len() - 1) {
                        Err(e) => Err(e),
                        Ok(patched) => Ok((patched, symbol)),
                    }
                } else {
                    Ok((returned, symbol))
                }
            },
        }
    }

    /// The call that ends the lowering of a call expression; the arguments
    /// and the callee's address leave the virtual stack with it, down to
    /// `stack_sz`.
    pub open spec fn emit_call(self, stack_sz: usize) -> GenView<'a> {
        GenView { stack_sz, ..self.emit(IRNode::Call) }
    }

    /// What an expression statement leaves when its expression was lowered
    /// from `before` into `self`: the value of the expression is given back.
    pub open spec fn drop_value(self, before: GenView<'a>) -> Result<GenView<'a>, CompileError> {
        if self.stack_sz < before.stack_sz {
            Err(CompileError::StackImbalance)
        } else if self.stack_sz > before.stack_sz {
            Ok(
                GenView {
                    stack_sz: before.stack_sz,
                    ..self.emit(IRNode::StackDealloc((self.stack_sz - before.stack_sz) as usize))
                },
            )
        } else {
            Ok(self)
        }
    }

    /// The package named; it can be named once.
    pub open spec fn declare_package(self, name: &'a str) -> Result<GenView<'a>, CompileError> {
        if self.program.package_name is Some {
            Err(CompileError::DuplicatePackage)
        } else {
            Ok(
                GenView {
                    program: ProgramView { package_name: Some(name), ..self.program },
                    ..self
                },
            )
        }
    }
}

/// What is known of `expr` before it is lowered, and the state that
/// finding it out leaves. Of a call and of a block that yields nothing,
/// nothing is known.
pub open spec fn resolve_expr_spec<'a>(st: GenView<'a>, expr: &Expr<'a>) -> Result<
    (GenView<'a>, CmplSymbol),
    CompileError,
>
    decreases expr.size(), 1nat,
{
    match expr {
        Expr::TypeUInt64 => Ok(
            (
                st,
                CmplSymbol {
                    const_val: Some(CTimeVal::Type(TypeVal::UInt64)),
                    type_val: TypeVal::UInt64,
                },
            ),
        ),
        Expr::TypeString => Ok(
            (
                st,
                CmplSymbol {
                    const_val: Some(CTimeVal::Type(TypeVal::StringSlice)),
                    type_val: TypeVal::StringSlice,
                },
            ),
        ),
        Expr::IntLit(value) => Ok(
            (
                st,
                CmplSymbol { const_val: Some(CTimeVal::UInt(*value)), type_val: TypeVal::UInt64 },
            ),
        ),
        Expr::StringLit(string) => st.resolve_string(*string),
        Expr::Call(..) => Ok((st, unknown_symbol())),
        Expr::Variable(name) => Ok((st, st.resolve_variable(name@))),
        Expr::Block(body, return_expr) => match return_expr {
            None => Ok((st, unknown_symbol())),
            Some(tail) => resolve_block_spec(st, body, tail),
        },
        Expr::Function(body) => resolve_function_spec(st, body),
    }
}

/// What is left, outside a block that was resolved, of what the block
/// yields: a function that was lowered inside the block, from index `from`
/// on, is taken back with the block, so only its type is known; anything
/// else is known as the block knew it.
pub open spec fn left_of(symbol: CmplSymbol, from: int) -> CmplSymbol {
    match symbol.const_val {
        Some(CTimeVal::Function { address, .. }) => if address >= from {
            CmplSymbol { const_val: None, ..symbol }
        } else {
            symbol
        },
        _ => symbol,
    }
}

/// What is known of a block that yields `tail`: its declarations are
/// lowered in a scope of their own to learn what `tail` is, and all that
/// was emitted for them is taken back, and the virtual stack is what it
/// was. Strings that were interned on the way stay interned. A function
/// that the block lowered for itself is known outside by its type alone.
pub open spec fn resolve_block_spec<'a>(st: GenView<'a>, body: &Vec<Stmt<'a>>, tail: &Expr<'a>)
    -> Result<(GenView<'a>, CmplSymbol), CompileError>
    decreases stmts_size(body, 0) + tail.size(), 2nat,
{
    match resolve_decls_spec(st.open_scope(), body, 0) {
        Err(e) => Err(e),
        Ok(declared) => match resolve_expr_spec(declared, tail) {
            Err(e) => Err(e),
            Ok((resolved, symbol)) => match resolved.close_scope() {
                Err(e) => Err(e),
                Ok(closed) => Ok(
                    (
                        GenView {
                            stack_sz: st.stack_sz,
                            ..closed.rollback(st.program.ir.len() as int)
                        },
                        left_of(symbol, st.program.ir.len() as int),
                    ),
                ),
            },
        },
    }
}

/// What is known of a function literal with the body `body`: the function
/// is lowered here, once and for all, and known by the index of its first
/// instruction and by what its body yields. The virtual stack behind the
/// function is what it was before it: the function runs on a stack of its
/// own.
pub open spec fn resolve_function_spec<'a>(st: GenView<'a>, body: &Expr<'a>) -> Result<
    (GenView<'a>, CmplSymbol),
    CompileError,
>
    decreases body.size(), 2nat,
{
    match resolve_expr_spec(st, body) {
        Err(e) => Err(e),
        Ok((resolved, symbol)) => match gen_expr_spec(resolved.enter_function(), body) {
            Err(e) => Err(e),
            Ok(lowered) => match lowered.leave_function(
                resolved.enter_function(),
                symbol.type_val,
            ) {
                Err(e) => Err(e),
                Ok((left, function)) => Ok((GenView { stack_sz: st.stack_sz, ..left }, function)),
            },
        },
    }
}

/// The declarations among the statements of `body` from index `from` on,
/// lowered in order; other statements are passed over.
pub open spec fn resolve_decls_spec<'a>(st: GenView<'a>, body: &Vec<Stmt<'a>>, from: int) -> Result<
    GenView<'a>,
    CompileError,
>
    decreases stmts_size(body, from), 0nat,
{
    if from < 0 || from >= body.len() {
        Ok(st)
    } else if body[from] is ConstDecl || body[from] is VarDecl {
        match gen_stmt_spec(st, &body[from]) {
            Err(e) => Err(e),
            Ok(next) => resolve_decls_spec(next, body, from + 1),
        }
    } else {
        resolve_decls_spec(st, body, from + 1)
    }
}

/// The statements of `body` from index `from` on, lowered in order.
pub open spec fn gen_stmts_spec<'a>(st: GenView<'a>, body: &Vec<Stmt<'a>>, from: int) -> Result<
    GenView<'a>,
    CompileError,
>
    decreases stmts_size(body, from), 0nat,
{
    if from < 0 || from >= body.len() {
        Ok(st)
    } else {
        match gen_stmt_spec(st, &body[from]) {
            Err(e) => Err(e),
            Ok(next) => gen_stmts_spec(next, body, from + 1),
        }
    }
}

/// The arguments `args` from index `from` on, lowered in order.
pub open spec fn gen_args_spec<'a>(st: GenView<'a>, args: &Vec<Expr<'a>>, from: int) -> Result<
    GenView<'a>,
    CompileError,
>
    decreases exprs_size(args, from), 0nat,
{
    if from < 0 || from >= args.len() {
        Ok(st)
    } else {
        match gen_expr_spec(st, &args[from]) {
            Err(e) => Err(e),
            Ok(next) => gen_args_spec(next, args, from + 1),
        }
    }
}

/// The state after `expr` is lowered: its code stands at the end of the
/// stream and its value on the virtual stack. A type is no value, and a
/// function literal is lowered only where it is resolved.
pub open spec fn gen_expr_spec<'a>(st: GenView<'a>, expr: &Expr<'a>) -> Result<
    GenView<'a>,
    CompileError,
>
    decreases expr.size(), 1nat,
{
    match expr {
        Expr::TypeUInt64 => Err(CompileError::TypeAsValue),
        Expr::TypeString => Err(CompileError::TypeAsValue),
        Expr::IntLit(value) => st.emit(IRNode::Push64(*value)).grow(8),
        Expr::StringLit(string) => st.gen_string(*string),
        Expr::Call(callee, args) => gen_call_spec(st, callee, args),
        Expr::Variable(name) => st.gen_variable(name@),
        Expr::Block(body, return_expr) => gen_block_spec(st, body, return_expr),
        Expr::Function(_) => Err(CompileError::FunctionNotInlined),
    }
}

/// The state after a call of `callee` with `args` is lowered: room for
/// the result is allocated, the arguments are pushed from left to right,
/// then the callee's address, and the call is made. Only the result stays
/// on the virtual stack.
pub open spec fn gen_call_spec<'a>(st: GenView<'a>, callee: &Expr<'a>, args: &Vec<Expr<'a>>)
    -> Result<GenView<'a>, CompileError>
    decreases callee.size() + exprs_size(args, 0), 2nat,
{
    match resolve_expr_spec(st, callee) {
        Err(e) => Err(e),
        Ok((resolved, symbol)) => match symbol.type_val {
            TypeVal::FunctionPointer(return_type_val) => match resolved.emit(
                IRNode::StackAlloc(return_type_val.size_of()),
            ).grow(return_type_val.size_of()) {
                Err(e) => Err(e),
                Ok(allocated) => match gen_args_spec(allocated, args, 0) {
                    Err(e) => Err(e),
                    Ok(pushed) => match gen_expr_spec(pushed, callee) {
                        Err(e) => Err(e),
                        Ok(ready) => Ok(ready.emit_call(allocated.stack_sz)),
                    },
                },
            },
            _ => Err(CompileError::NonCallable),
        },
    }
}

/// The state after a block is lowered: its statements in a scope of their
/// own, behind a placeholder for the room of what the block yields; then
/// what it yields, moved down into that room; then the scope's end.
pub open spec fn gen_block_spec<'a>(
    st: GenView<'a>,
    body: &Vec<Stmt<'a>>,
    return_expr: &Option<Box<Expr<'a>>>,
) -> Result<GenView<'a>, CompileError>
    decreases stmts_size(body, 0) + tail_size(return_expr), 2nat,
{
    match gen_stmts_spec(st.open_scope().emit(IRNode::StackAlloc(0)), body, 0) {
        Err(e) => Err(e),
        Ok(lowered) => match return_expr {
            None => lowered.close_scope(),
            Some(tail) => match gen_expr_spec(lowered, tail) {
                Err(e) => Err(e),
                Ok(yielded) => match resolve_expr_spec(yielded, tail) {
                    Err(e) => Err(e),
                    Ok((resolved, symbol)) => resolved.finish_block(
                        st.program.ir.len() as int,
                        st.stack_sz,
                        symbol.type_val,
                    ),
                },
            },
        },
    }
}

/// The state after the statement `stmt` is lowered. An expression
/// statement leaves the virtual stack as it found it.
pub open spec fn gen_stmt_spec<'a>(st: GenView<'a>, stmt: &Stmt<'a>) -> Result<
    GenView<'a>,
    CompileError,
>
    decreases stmt.size(), 1nat,
{
    match stmt {
        Stmt::Expr(expr, _) => match gen_expr_spec(st, expr) {
            Err(e) => Err(e),
            Ok(lowered) => lowered.drop_value(st),
        },
        Stmt::PackageDecl(name) => st.declare_package(*name),
        Stmt::ConstDecl(name, init, type_expr, is_exported) => gen_decl_spec(
            st,
            *name,
            init,
            type_expr,
            true,
            *is_exported,
        ),
        Stmt::VarDecl(name, init, type_expr, is_exported) => gen_decl_spec(
            st,
            *name,
            init,
            type_expr,
            false,
            *is_exported,
        ),
    }
}

/// The variable that a declaration makes.
pub open spec fn declared<'a>(
    name: &'a str,
    type_val: TypeVal,
    global_pos: Option<usize>,
    stack_loc: Option<usize>,
    const_val: Option<CTimeVal>,
) -> Variable<'a> {
    Variable { name, type_val, global_pos, stack_loc, const_val, external: None }
}

/// The state after a declaration is lowered: that of the constant
/// (`is_const`) or variable `name` with the initializer `init` and the type
/// annotation `type_expr`.
///
/// A global needs a compile-time constant as its initializer and becomes
/// an entry of the program's globals; it takes room in the global segment
/// by its type. A local constant with a known value takes no room; any
/// other local takes its room on the stack, by its initializer's code or by
/// a plain allocation. A type that is not annotated is that of the
/// initializer, and `UInt64` where there is none. Only a global may be
/// exported.
pub open spec fn gen_decl_spec<'a>(
    st: GenView<'a>,
    name: &'a str,
    init: &Option<Expr<'a>>,
    type_expr: &Option<Expr<'a>>,
    is_const: bool,
    is_exported: bool,
) -> Result<GenView<'a>, CompileError>
    decreases opt_size(init) + opt_size(type_expr), 3nat,
{
    if st.scopes.len() > 0 && is_exported {
        Err(CompileError::ExportScope)
    } else {
        match resolve_annotation_spec(st, type_expr) {
            Err(e) => Err(e),
            Ok((typed, annotated)) => match init {
                Some(expr) => match resolve_expr_spec(typed, expr) {
                    Err(e) => Err(e),
                    Ok((resolved, symbol)) => resolved.declare_initialized(
                        name,
                        decl_type_val(annotated, symbol),
                        symbol.const_val,
                        is_const,
                        is_exported,
                        gen_expr_spec(resolved, expr),
                    ),
                },
                None => typed.declare_uninitialized(
                    name,
                    match annotated {
                        Some(t) => t,
                        None => TypeVal::UInt64,
                    },
                    is_const,
                    is_exported,
                ),
            },
        }
    }
}

/// The type that the annotation `type_expr` of a declaration names, if
/// there is one, and the state that resolving it leaves.
pub open spec fn resolve_annotation_spec<'a>(st: GenView<'a>, type_expr: &Option<Expr<'a>>) -> Result<
    (GenView<'a>, Option<TypeVal>),
    CompileError,
>
    decreases opt_size(type_expr), 2nat,
{
    match type_expr {
        Some(annotation) => match resolve_expr_spec(st, annotation) {
            Err(e) => Err(e),
            Ok((typed, symbol)) => Ok((typed, Some(symbol.type_val))),
        },
        None => Ok((st, None)),
    }
}

/// The type of a declared variable: the annotated one, else that of the
/// initializer.
pub open spec fn decl_type_val(annotated: Option<TypeVal>, symbol: CmplSymbol) -> TypeVal {
    match annotated {
        Some(t) => t,
        None => symbol.type_val,
    }
}


impl<'a> GenView<'a> {
    /// The state after a global with the constant initializer `value` is
    /// declared: it takes room in the global segment by its type and
    /// becomes an entry of the program's globals. Only a constant is known
    /// by its value afterwards; a variable is read from the segment.
    pub open spec fn declare_global(
        self,
        name: &'a str,
        type_val: TypeVal,
        value: CTimeVal,
        is_const: bool,
        is_exported: bool,
    ) -> Result<GenView<'a>, CompileError> {
        match self.new_global_pos(type_val) {
            Err(e) => Err(e),
            Ok((placed, pos)) => Ok(
                GenView {
                    program: ProgramView {
                        globals: placed.program.globals.push(
                            GlobalInfo { pos, name, is_exported, init: value, is_const },
                        ),
                        ..placed.program
                    },
                    ..placed
                }.add_global(
                    declared(
                        name,
                        type_val,
                        Some(pos),
                        None,
                        if is_const {
                            Some(value)
                        } else {
                            None
                        },
                    ),
                ),
            ),
        }
    }

    /// The state after a declaration whose initializer has the constant
    /// value `value`, if it has one, is declared in the state `self` that
    /// resolving the initializer left; `lowered` is what lowering the
    /// initializer from that state gives. A global needs the constant; a
    /// local constant of known value takes no room; any other local stands
    /// where the initializer's code left its value.
    pub open spec fn declare_initialized(
        self,
        name: &'a str,
        type_val: TypeVal,
        value: Option<CTimeVal>,
        is_const: bool,
        is_exported: bool,
        lowered: Result<GenView<'a>, CompileError>,
    ) -> Result<GenView<'a>, CompileError> {
        if self.scopes.len() == 0 {
            match value {
                None => Err(CompileError::GlobalNotConstant),
                Some(known) => self.declare_global(name, type_val, known, is_const, is_exported),
            }
        } else if value is None || !is_const {
            match lowered {
                Err(e) => Err(e),
                Ok(state) => Ok(
                    state.add_var(
                        declared(name, type_val, None, Some(state.stack_sz), None),
                    ),
                ),
            }
        } else {
            Ok(self.add_var(declared(name, type_val, None, None, value)))
        }
    }

    /// The state after a declaration without an initializer. At the top of
    /// a program there is none: a global needs a constant. Inside a block a
    /// variable takes its room on the stack by a plain allocation; a
    /// constant takes none.
    pub open spec fn declare_uninitialized(
        self,
        name: &'a str,
        type_val: TypeVal,
        is_const: bool,
        is_exported: bool,
    ) -> Result<GenView<'a>, CompileError> {
        if is_exported {
            Err(CompileError::ExportNotInitialized)
        } else if self.scopes.len() == 0 {
            Err(CompileError::GlobalNotConstant)
        } else if is_const {
            Ok(self.add_var(declared(name, type_val, None, None, None)))
        } else {
            match self.emit(IRNode::StackAlloc(type_val.size_of())).grow(type_val.size_of()) {
                Err(e) => Err(e),
                Ok(allocated) => Ok(
                    allocated.add_var(
                        declared(name, type_val, None, Some(allocated.stack_sz), None),
                    ),
                ),
            }
        }
    }

    /// The state in which a program starts to be lowered: the runtime's
    /// `print` is known as an external function that returns nothing.
    pub open spec fn with_runtime(self) -> GenView<'a> {
        let print = ExternalInfo { name: "print", package_name: "rt", is_const: true };
        GenView {
            program: ProgramView { externals: self.program.externals.push(print), ..self.program },
            ..self
        }.add_global(
            Variable {
                name: "print",
                type_val: TypeVal::FunctionPointer(Box::new(TypeVal::Unit)),
                global_pos: None,
                stack_loc: None,
                const_val: None,
                external: Some(print),
            },
        )
    }

    /// Whether a global other than `main` is exported.
    pub open spec fn exports_symbol(self) -> bool {
        exists|g: int|
            0 <= g < self.program.globals.len() && (#[trigger] self.program.globals[g]).is_exported
                && self.program.globals[g].name@ != "main"@
    }
}

/// The state after the whole program `ast` is lowered. An export asks for
/// a package declaration, except that of `main`.
pub open spec fn generate_spec<'a>(st: GenView<'a>, ast: &Vec<Stmt<'a>>) -> Result<
    GenView<'a>,
    CompileError,
> {
    match gen_stmts_spec(st.with_runtime(), ast, 0) {
        Err(e) => Err(e),
        Ok(lowered) => if lowered.program.package_name is None && lowered.exports_symbol() {
            Err(CompileError::ExportWithoutPackage)
        } else {
            Ok(lowered)
        },
    }
}

/// Whether a step that returned `r` and left the state `after` did what
/// `expected` says: it succeeded with that state, or failed with that
/// error. Of the state that a failed step leaves nothing is said here;
/// the steps that fail before they change anything say so themselves.
pub open spec fn agrees<'a>(
    r: Result<(), CompileError>,
    after: GenView<'a>,
    expected: Result<GenView<'a>, CompileError>,
) -> bool {
    match expected {
        Ok(state) => r is Ok && after == state,
        Err(e) => r == Err::<(), CompileError>(e),
    }
}

/// As `agrees`, for a step that also returns a value.
pub open spec fn agrees_with<'a, T>(
    r: Result<T, CompileError>,
    after: GenView<'a>,
    expected: Result<(GenView<'a>, T), CompileError>,
) -> bool {
    match expected {
        Ok((state, value)) => r == Ok::<T, CompileError>(value) && after == state,
        Err(e) => r == Err::<T, CompileError>(e),
    }
}

/// What every step of the generator keeps: the number of open scopes, and
/// the instructions emitted before it, in number.
pub open spec fn steady<'a>(before: GenView<'a>, after: GenView<'a>) -> bool {
    &&& after.scopes.len() == before.scopes.len()
    &&& after.program.ir.len() >= before.program.ir.len()
}

} // verus!
