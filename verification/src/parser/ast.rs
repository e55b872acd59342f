use vstd::prelude::*;

verus! {

/// An expression of the source language. Names and string literals are
/// borrowed from the text they were read from.
#[derive(Debug, PartialEq, Eq)]
pub enum Expr<'a> {
    IntLit(u64),
    StringLit(&'a str),
    /// The statements of a block and the expression it yields, if any.
    Block(Vec<Stmt<'a>>, Option<Box<Expr<'a>>>),
    /// The callee and its arguments.
    Call(Box<Expr<'a>>, Vec<Expr<'a>>),
    /// A function literal with its body.
    Function(Box<Expr<'a>>),
    Variable(&'a str),
    TypeUInt64,
    TypeString,
}

/// A statement of the source language.
#[derive(Debug, PartialEq, Eq)]
pub enum Stmt<'a> {
    /// An expression, and whether it stands last in its block.
    Expr(Expr<'a>, bool),
    /// A constant: its name, initializer, type annotation, and whether it
    /// is exported.
    ConstDecl(&'a str, Option<Expr<'a>>, Option<Expr<'a>>, bool),
    /// A variable, with the same parts as a constant.
    VarDecl(&'a str, Option<Expr<'a>>, Option<Expr<'a>>, bool),
    PackageDecl(&'a str),
}

impl<'a> Expr<'a> {
    /// Whether the expression ends in a block: a block, or a function
    /// literal whose body does.
    pub open spec fn spec_is_block(&self) -> bool
        decreases self,
    {
        match self {
            Expr::Block(..) => true,
            Expr::Function(body) => body.spec_is_block(),
            _ => false,
        }
    }

    #[verifier::when_used_as_spec(spec_is_block)]
    pub fn is_block(&self) -> (b: bool)
        ensures
            b == self.spec_is_block(),
        decreases self,
    {
        match self {
            Expr::Block(..) => true,
            Expr::Function(expr) => expr.is_block(),
            _ => false,
        }
    }
}

impl<'a> Expr<'a> {
    /// Number of nodes of the expression's tree; it measures the work of
    /// whatever walks the tree.
    pub open spec fn size(&self) -> nat
        decreases self, 0nat,
    {
        match self {
            Expr::Block(body, return_expr) => 1 + stmts_size(body, 0) + match return_expr {
                Some(tail) => tail.size(),
                None => 0,
            },
            Expr::Call(callee, args) => 1 + callee.size() + exprs_size(args, 0),
            Expr::Function(body) => 1 + body.size(),
            _ => 1,
        }
    }
}

/// Number of nodes of an expression that may be absent.
pub open spec fn opt_size<'a>(expr: &Option<Expr<'a>>) -> nat
    decreases expr, 0nat,
{
    match expr {
        Some(e) => e.size(),
        None => 0,
    }
}

impl<'a> Stmt<'a> {
    /// Number of nodes of the statement's tree.
    pub open spec fn size(&self) -> nat
        decreases self, 0nat,
    {
        match self {
            Stmt::Expr(expr, _) => 1 + expr.size(),
            Stmt::ConstDecl(_, init, type_expr, _) => 1 + opt_size(init) + opt_size(type_expr),
            Stmt::VarDecl(_, init, type_expr, _) => 1 + opt_size(init) + opt_size(type_expr),
            Stmt::PackageDecl(_) => 1,
        }
    }
}

/// Number of nodes of the statements of `body` from index `from` on, and
/// one more for each of them.
pub open spec fn stmts_size<'a>(body: &Vec<Stmt<'a>>, from: int) -> nat
    decreases body, body.len() - from,
{
    if from < 0 || from >= body.len() {
        0
    } else {
        proof {
            vstd::std_specs::vec::axiom_vec_index_decreases(*body, from);
        }
        1 + body[from].size() + stmts_size(body, from + 1)
    }
}

/// Number of nodes of the expressions of `args` from index `from` on, and
/// one more for each of them.
pub open spec fn exprs_size<'a>(args: &Vec<Expr<'a>>, from: int) -> nat
    decreases args, args.len() - from,
{
    if from < 0 || from >= args.len() {
        0
    } else {
        proof {
            vstd::std_specs::vec::axiom_vec_index_decreases(*args, from);
        }
        1 + args[from].size() + exprs_size(args, from + 1)
    }
}

/// A statement of a list is smaller than the list from any index up to
/// its own.
pub proof fn lemma_stmts_size_index<'a>(body: &Vec<Stmt<'a>>, from: int, i: int)
    requires
        0 <= from <= i < body.len(),
    ensures
        body[i].size() < stmts_size(body, from),
    decreases i - from,
{
    if from < i {
        lemma_stmts_size_index(body, from + 1, i);
    }
}

/// An expression of a list is smaller than the list from any index up to
/// its own.
pub proof fn lemma_exprs_size_index<'a>(args: &Vec<Expr<'a>>, from: int, i: int)
    requires
        0 <= from <= i < args.len(),
    ensures
        args[i].size() < exprs_size(args, from),
    decreases i - from,
{
    if from < i {
        lemma_exprs_size_index(args, from + 1, i);
    }
}

/// Mathematical model of an [`Expr`]: names and literals as sequences of
/// characters, lists as sequences.
pub enum ExprView {
    IntLit(u64),
    StringLit(Seq<char>),
    Block(Seq<StmtView>, Option<Box<ExprView>>),
    Call(Box<ExprView>, Seq<ExprView>),
    Function(Box<ExprView>),
    Variable(Seq<char>),
    TypeUInt64,
    TypeString,
}

/// Mathematical model of a [`Stmt`].
pub enum StmtView {
    Expr(ExprView, bool),
    ConstDecl(Seq<char>, Option<ExprView>, Option<ExprView>, bool),
    VarDecl(Seq<char>, Option<ExprView>, Option<ExprView>, bool),
    PackageDecl(Seq<char>),
}

impl ExprView {
    /// Whether the expression ends in a block.
    pub open spec fn is_block(&self) -> bool
        decreases self,
    {
        match self {
            ExprView::Block(..) => true,
            ExprView::Function(body) => body.is_block(),
            _ => false,
        }
    }
}

/// The model of `expr`.
pub open spec fn expr_view<'a>(expr: &Expr<'a>) -> ExprView
    decreases expr, 0nat,
{
    match expr {
        Expr::IntLit(value) => ExprView::IntLit(*value),
        Expr::StringLit(string) => ExprView::StringLit(string@),
        Expr::Block(body, return_expr) => ExprView::Block(
            stmts_view(body, body.len() as int),
            match return_expr {
                Some(tail) => Some(Box::new(expr_view(tail))),
                None => None,
            },
        ),
        Expr::Call(callee, args) => ExprView::Call(
            Box::new(expr_view(callee)),
            exprs_view(args, args.len() as int),
        ),
        Expr::Function(body) => ExprView::Function(Box::new(expr_view(body))),
        Expr::Variable(name) => ExprView::Variable(name@),
        Expr::TypeUInt64 => ExprView::TypeUInt64,
        Expr::TypeString => ExprView::TypeString,
    }
}

/// The model of `expr`, if there is one.
pub open spec fn opt_view<'a>(expr: &Option<Expr<'a>>) -> Option<ExprView>
    decreases expr, 0nat,
{
    match expr {
        Some(e) => Some(expr_view(e)),
        None => None,
    }
}

/// The model of `stmt`.
pub open spec fn stmt_view<'a>(stmt: &Stmt<'a>) -> StmtView
    decreases stmt, 0nat,
{
    match stmt {
        Stmt::Expr(expr, is_final) => StmtView::Expr(expr_view(expr), *is_final),
        Stmt::ConstDecl(name, init, type_expr, is_exported) => StmtView::ConstDecl(
            name@,
            opt_view(init),
            opt_view(type_expr),
            *is_exported,
        ),
        Stmt::VarDecl(name, init, type_expr, is_exported) => StmtView::VarDecl(
            name@,
            opt_view(init),
            opt_view(type_expr),
            *is_exported,
        ),
        Stmt::PackageDecl(name) => StmtView::PackageDecl(name@),
    }
}

/// The models of the first `n` statements of `body`.
pub open spec fn stmts_view<'a>(body: &Vec<Stmt<'a>>, n: int) -> Seq<StmtView>
    decreases body, n,
{
    if n <= 0 || n > body.len() {
        Seq::empty()
    } else {
        proof {
            vstd::std_specs::vec::axiom_vec_index_decreases(*body, n - 1);
        }
        stmts_view(body, n - 1).push(stmt_view(&body[n - 1]))
    }
}

/// The models of the first `n` expressions of `args`.
pub open spec fn exprs_view<'a>(args: &Vec<Expr<'a>>, n: int) -> Seq<ExprView>
    decreases args, n,
{
    if n <= 0 || n > args.len() {
        Seq::empty()
    } else {
        proof {
            vstd::std_specs::vec::axiom_vec_index_decreases(*args, n - 1);
        }
        exprs_view(args, n - 1).push(expr_view(&args[n - 1]))
    }
}

impl<'a> View for Expr<'a> {
    type V = ExprView;

    open spec fn view(&self) -> ExprView {
        expr_view(self)
    }
}

impl<'a> View for Stmt<'a> {
    type V = StmtView;

    open spec fn view(&self) -> StmtView {
        stmt_view(self)
    }
}

/// The models of the first statements of a list depend on those
/// statements alone.
pub proof fn lemma_stmts_view_prefix<'a>(a: &Vec<Stmt<'a>>, b: &Vec<Stmt<'a>>, n: int)
    requires
        0 <= n <= a.len(),
        n <= b.len(),
        forall|i: int| 0 <= i < n ==> a[i] == b[i],
    ensures
        stmts_view(a, n) == stmts_view(b, n),
    decreases n,
{
    if n > 0 {
        lemma_stmts_view_prefix(a, b, n - 1);
    }
}

/// The model of an expression that ends in a block ends in a block.
pub proof fn lemma_is_block_view<'a>(expr: &Expr<'a>)
    ensures
        expr@.is_block() == expr.is_block(),
    decreases expr,
{
    match expr {
        Expr::Function(body) => lemma_is_block_view(body),
        _ => {},
    }
}

} // verus!
