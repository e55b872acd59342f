use vstd::prelude::*;
use crate::lexer::tokens::{Token, TokenView, Tokens, TokensIterator};
use crate::parser::ast::{
    lemma_is_block_view,
    lemma_stmts_view_prefix,
    stmts_view,
    Expr,
    ExprView,
    Stmt,
    StmtView,
};
use crate::tok::token_other::TokenOther;

verus! {

/// Why a sequence of tokens is no program.
#[derive(Debug, Clone, Copy, PartialEq, Eq, Structural)]
pub enum ParseError {
    /// The token `token` was expected.
    Expected { token: TokenOther },
    /// A `;` was expected.
    ExpectedTerminator,
    /// A name was expected.
    ExpectedName,
    /// A declaration goes on with `;` or `=` behind its name.
    ExpectedInitializer,
    /// An expression was expected.
    ExpectedExpression,
}

/// The tokens as the parser sees them.
pub type TokenSeq = Seq<TokenView<TokenOther>>;

/// Whether the token at index `pos` is `token`.
pub open spec fn token_is(toks: TokenSeq, pos: int, token: TokenOther) -> bool {
    0 <= pos < toks.len() && toks[pos] == TokenView::<TokenOther>::Other(token)
}

/// The name at index `pos`, if an identifier stands there.
pub open spec fn name_at(toks: TokenSeq, pos: int) -> Option<Seq<char>> {
    if 0 <= pos < toks.len() {
        match toks[pos] {
            TokenView::Ident(name) => Some(name),
            _ => None,
        }
    } else {
        None
    }
}

/// The index behind a `;` at index `pos`; `pos` itself where none stands
/// there.
pub open spec fn skip_terminator(toks: TokenSeq, pos: int) -> int {
    if token_is(toks, pos, TokenOther::Semicolon) {
        pos + 1
    } else {
        pos
    }
}

/// The declaration of `name` with the initializer `init`.
pub open spec fn decl_view(name: Seq<char>, init: Option<ExprView>, is_const: bool, is_exported: bool)
    -> StmtView {
    if is_const {
        StmtView::ConstDecl(name, init, None, is_exported)
    } else {
        StmtView::VarDecl(name, init, None, is_exported)
    }
}

/// What follows an expression that was read up to `next`: before a `}` the
/// expression is what its block yields; else a `;` ends the statement, which
/// may be left out behind a block.
pub open spec fn end_of_expr_stmt(toks: TokenSeq, expr: ExprView, next: int) -> Result<
    (StmtView, int),
    ParseError,
> {
    if token_is(toks, next, TokenOther::CBrace) {
        Ok((StmtView::Expr(expr, true), next))
    } else if expr.is_block() {
        Ok((StmtView::Expr(expr, false), skip_terminator(toks, next)))
    } else if token_is(toks, next, TokenOther::Semicolon) {
        Ok((StmtView::Expr(expr, false), next + 1))
    } else {
        Err(ParseError::ExpectedTerminator)
    }
}

/// The end of a declaration whose initializer `expr` was read up to
/// `next`.
pub open spec fn end_of_decl(
    toks: TokenSeq,
    name: Seq<char>,
    expr: ExprView,
    next: int,
    is_const: bool,
    is_exported: bool,
) -> Result<(StmtView, int), ParseError> {
    if expr.is_block() {
        Ok((decl_view(name, Some(expr), is_const, is_exported), skip_terminator(toks, next)))
    } else if token_is(toks, next, TokenOther::Semicolon) {
        Ok((decl_view(name, Some(expr), is_const, is_exported), next + 1))
    } else {
        Err(ParseError::ExpectedTerminator)
    }
}

/// The block that ends with the statement `stmt` before its `}`: an
/// expression that stands last without a `;` is what the block yields.
pub open spec fn close_block(body: Seq<StmtView>, stmt: StmtView) -> ExprView {
    match stmt {
        StmtView::Expr(expr, true) => ExprView::Block(body, Some(Box::new(expr))),
        _ => ExprView::Block(body.push(stmt), None),
    }
}

/// The expression that starts at index `pos`, and the index behind it:
/// `()` and a body make a function literal, `{` starts a block, an integer
/// and a name stand for themselves.
pub open spec fn parse_expr_spec(toks: TokenSeq, pos: int) -> Result<(ExprView, int), ParseError>
    decreases toks.len() - pos, 0nat,
{
    if token_is(toks, pos, TokenOther::OParen) {
        if token_is(toks, pos + 1, TokenOther::CParen) {
            match parse_expr_spec(toks, pos + 2) {
                Ok((body, next)) => Ok((ExprView::Function(Box::new(body)), next)),
                Err(e) => Err(e),
            }
        } else {
            Err(ParseError::Expected { token: TokenOther::CParen })
        }
    } else if token_is(toks, pos, TokenOther::OBrace) {
        parse_block_spec(toks, pos + 1, Seq::empty())
    } else if 0 <= pos < toks.len() {
        match toks[pos] {
            TokenView::IntLiteral(value) => Ok((ExprView::IntLit(value), pos + 1)),
            TokenView::Ident(name) => Ok((ExprView::Variable(name), pos + 1)),
            _ => Err(ParseError::ExpectedExpression),
        }
    } else {
        Err(ParseError::ExpectedExpression)
    }
}

/// The rest of a block from index `pos` on, whose statements so far are
/// `body`, and the index behind its `}`. A block holds at least one
/// statement. (A statement takes at least one token and ends within the
/// tokens, so the case that it does not never arises.)
pub open spec fn parse_block_spec(toks: TokenSeq, pos: int, body: Seq<StmtView>) -> Result<
    (ExprView, int),
    ParseError,
>
    decreases toks.len() - pos, 2nat,
{
    match parse_stmt_spec(toks, pos) {
        Err(e) => Err(e),
        Ok((stmt, next)) => if token_is(toks, next, TokenOther::CBrace) {
            Ok((close_block(body, stmt), next + 1))
        } else if next <= pos || next > toks.len() {
            Err(ParseError::ExpectedExpression)
        } else {
            parse_block_spec(toks, next, body.push(stmt))
        },
    }
}

/// The statement that starts at index `pos`, and the index behind it: a
/// declaration behind `let`, `var` or `public` (where `public` alone
/// declares a constant, as `public let` does), a package declaration, or
/// an expression.
pub open spec fn parse_stmt_spec(toks: TokenSeq, pos: int) -> Result<(StmtView, int), ParseError>
    decreases toks.len() - pos, 1nat,
{
    if token_is(toks, pos, TokenOther::Let) {
        parse_decl_spec(toks, pos + 1, true, false)
    } else if token_is(toks, pos, TokenOther::Var) {
        parse_decl_spec(toks, pos + 1, false, false)
    } else if token_is(toks, pos, TokenOther::Public) {
        if token_is(toks, pos + 1, TokenOther::Var) {
            parse_decl_spec(toks, pos + 2, false, true)
        } else if token_is(toks, pos + 1, TokenOther::Let) {
            parse_decl_spec(toks, pos + 2, true, true)
        } else {
            parse_decl_spec(toks, pos + 1, true, true)
        }
    } else if token_is(toks, pos, TokenOther::Package) {
        match name_at(toks, pos + 1) {
            Some(name) => if token_is(toks, pos + 2, TokenOther::Semicolon) {
                Ok((StmtView::PackageDecl(name), pos + 3))
            } else {
                Err(ParseError::ExpectedTerminator)
            },
            None => Err(ParseError::ExpectedName),
        }
    } else {
        match parse_expr_spec(toks, pos) {
            Ok((expr, next)) => end_of_expr_stmt(toks, expr, next),
            Err(e) => Err(e),
        }
    }
}

/// The declaration whose name stands at index `pos`, and the index behind
/// it.
pub open spec fn parse_decl_spec(toks: TokenSeq, pos: int, is_const: bool, is_exported: bool)
    -> Result<(StmtView, int), ParseError>
    decreases toks.len() - pos, 1nat,
{
    match name_at(toks, pos) {
        None => Err(ParseError::ExpectedName),
        Some(name) => if token_is(toks, pos + 1, TokenOther::Semicolon) {
            Ok((decl_view(name, None, is_const, is_exported), pos + 2))
        } else if token_is(toks, pos + 1, TokenOther::Equal) {
            match parse_expr_spec(toks, pos + 2) {
                Ok((expr, next)) => end_of_decl(toks, name, expr, next, is_const, is_exported),
                Err(e) => Err(e),
            }
        } else {
            Err(ParseError::ExpectedInitializer)
        },
    }
}

/// The statements from index `pos` on up to the end of the tokens, behind
/// the statements `sofar`.
pub open spec fn parse_all_spec(toks: TokenSeq, pos: int, sofar: Seq<StmtView>) -> Result<
    Seq<StmtView>,
    ParseError,
>
    decreases toks.len() - pos, 2nat,
{
    if pos < 0 || pos >= toks.len() {
        Ok(sofar)
    } else {
        match parse_stmt_spec(toks, pos) {
            Err(e) => Err(e),
            Ok((stmt, next)) => if next <= pos || next > toks.len() {
                Err(ParseError::ExpectedExpression)
            } else {
                parse_all_spec(toks, next, sofar.push(stmt))
            },
        }
    }
}

/// An expression takes at least one token and ends within the tokens.
pub proof fn lemma_expr_advances(toks: TokenSeq, pos: int)
    ensures
        parse_expr_spec(toks, pos) matches Ok((_, next)) ==> pos < next <= toks.len(),
    decreases toks.len() - pos, 0nat,
{
    if token_is(toks, pos, TokenOther::OParen) {
        if token_is(toks, pos + 1, TokenOther::CParen) {
            lemma_expr_advances(toks, pos + 2);
        }
    } else if token_is(toks, pos, TokenOther::OBrace) {
        lemma_block_advances(toks, pos + 1, Seq::empty());
    }
}

/// A block ends behind where its rest started, within the tokens.
pub proof fn lemma_block_advances(toks: TokenSeq, pos: int, body: Seq<StmtView>)
    ensures
        parse_block_spec(toks, pos, body) matches Ok((_, next)) ==> pos < next <= toks.len(),
    decreases toks.len() - pos, 2nat,
{
    lemma_stmt_advances(toks, pos);
    match parse_stmt_spec(toks, pos) {
        Ok((stmt, next)) => {
            if !token_is(toks, next, TokenOther::CBrace) && pos < next <= toks.len() {
                lemma_block_advances(toks, next, body.push(stmt));
            }
        },
        Err(_) => {},
    }
}

/// A statement takes at least one token and ends within the tokens.
pub proof fn lemma_stmt_advances(toks: TokenSeq, pos: int)
    ensures
        parse_stmt_spec(toks, pos) matches Ok((_, next)) ==> pos < next <= toks.len(),
    decreases toks.len() - pos, 1nat,
{
    if token_is(toks, pos, TokenOther::Let) {
        lemma_decl_advances(toks, pos + 1, true, false);
    } else if token_is(toks, pos, TokenOther::Var) {
        lemma_decl_advances(toks, pos + 1, false, false);
    } else if token_is(toks, pos, TokenOther::Public) {
        if token_is(toks, pos + 1, TokenOther::Var) {
            lemma_decl_advances(toks, pos + 2, false, true);
        } else if token_is(toks, pos + 1, TokenOther::Let) {
            lemma_decl_advances(toks, pos + 2, true, true);
        } else {
            lemma_decl_advances(toks, pos + 1, true, true);
        }
    } else if token_is(toks, pos, TokenOther::Package) {
    } else {
        lemma_expr_advances(toks, pos);
    }
}

/// A declaration takes at least two tokens and ends within the tokens.
pub proof fn lemma_decl_advances(toks: TokenSeq, pos: int, is_const: bool, is_exported: bool)
    ensures
        parse_decl_spec(toks, pos, is_const, is_exported) matches Ok((_, next)) ==> pos < next
            <= toks.len(),
    decreases toks.len() - pos, 1nat,
{
    if name_at(toks, pos) is Some && !token_is(toks, pos + 1, TokenOther::Semicolon) && token_is(
        toks,
        pos + 1,
        TokenOther::Equal,
    ) {
        lemma_expr_advances(toks, pos + 2);
    }
}

/// Number of tokens from index `pos` on.
pub open spec fn remaining(toks: TokenSeq, pos: nat) -> nat {
    if pos <= toks.len() {
        (toks.len() - pos) as nat
    } else {
        0
    }
}

/// A parser over the tokens of a source text.
pub struct Parser<'a> {
    tok: TokensIterator<'a, TokenOther>,
}

/// Whether a step of the parser that returned `r` and stands at index
/// `position` did what `expected` says.
pub open spec fn parsed<T: View>(
    r: Result<T, ParseError>,
    position: nat,
    expected: Result<(T::V, int), ParseError>,
) -> bool {
    match expected {
        Ok((value, next)) => r is Ok && r->Ok_0@ == value && position == next,
        Err(e) => r is Err && r->Err_0 == e,
    }
}

impl<'a> Parser<'a> {
    /// The tokens that are parsed.
    pub closed spec fn tokens(&self) -> TokenSeq {
        self.tok.tokens()@
    }

    /// Index of the token that is read next.
    pub closed spec fn position(&self) -> nat {
        self.tok.position()
    }

    pub fn new(tokens: &'a Tokens<TokenOther>) -> (r: Self)
        ensures
            r.tokens() == tokens@,
            r.position() == 0,
    {
        Self { tok: tokens.iter() }
    }

    #[must_use]
    fn is_token(&self, expected: TokenOther) -> (b: bool)
        ensures
            b == token_is(self.tokens(), self.position() as int, expected),
    {
        match self.tok.peek() {
            Some(Token::Other(token)) => *token == expected,
            _ => false,
        }
    }

    #[must_use]
    fn match_token(&mut self, expected: TokenOther) -> (b: bool)
        ensures
            final(self).tokens() == old(self).tokens(),
            b == token_is(old(self).tokens(), old(self).position() as int, expected),
            final(self).position() == if b {
                old(self).position() + 1
            } else {
                old(self).position()
            },
    {
        if self.is_token(expected) {
            let _ = self.tok.next();
            true
        } else {
            false
        }
    }

    #[must_use]
    fn match_terminator(&mut self) -> (b: bool)
        ensures
            final(self).tokens() == old(self).tokens(),
            b == token_is(old(self).tokens(), old(self).position() as int, TokenOther::Semicolon),
            final(self).position() == skip_terminator(
                old(self).tokens(),
                old(self).position() as int,
            ),
    {
        self.match_token(TokenOther::Semicolon)
    }

    fn expect_token(&mut self, expected: TokenOther) -> (r: Result<(), ParseError>)
        ensures
            final(self).tokens() == old(self).tokens(),
            token_is(old(self).tokens(), old(self).position() as int, expected) ==> r is Ok
                && final(self).position() == old(self).position() + 1,
            !token_is(old(self).tokens(), old(self).position() as int, expected) ==> r == Err::<
                (),
                ParseError,
            >(ParseError::Expected { token: expected }),
    {
        if self.match_token(expected) {
            Ok(())
        } else {
            Err(ParseError::Expected { token: expected })
        }
    }

    fn expect_terminator(&mut self) -> (r: Result<(), ParseError>)
        ensures
            final(self).tokens() == old(self).tokens(),
            token_is(old(self).tokens(), old(self).position() as int, TokenOther::Semicolon)
                ==> r is Ok && final(self).position() == old(self).position() + 1,
            !token_is(old(self).tokens(), old(self).position() as int, TokenOther::Semicolon)
                ==> r == Err::<(), ParseError>(ParseError::ExpectedTerminator),
    {
        if self.match_terminator() {
            Ok(())
        } else {
            Err(ParseError::ExpectedTerminator)
        }
    }

    fn parse_name(&mut self) -> (r: Result<&'a str, ParseError>)
        ensures
            final(self).tokens() == old(self).tokens(),
            match name_at(old(self).tokens(), old(self).position() as int) {
                Some(name) => r is Ok && r->Ok_0@ == name && final(self).position() == old(
                    self,
                ).position() + 1,
                None => r == Err::<&'a str, ParseError>(ParseError::ExpectedName),
            },
    {
        match self.tok.peek() {
            Some(Token::Ident(name)) => {
                let _ = self.tok.next();
                Ok(name.as_str())
            },
            _ => Err(ParseError::ExpectedName),
        }
    }

    /// The statements that the tokens from the parser's position on make.
    pub fn parse(&mut self) -> (r: Result<Vec<Stmt<'a>>, ParseError>)
        ensures
            final(self).tokens() == old(self).tokens(),
            match parse_all_spec(old(self).tokens(), old(self).position() as int, Seq::empty()) {
                Ok(stmts) => r is Ok && stmts_view(&r->Ok_0, r->Ok_0.len() as int) == stmts,
                Err(e) => r is Err && r->Err_0 == e,
            },
            r is Ok ==> final(self).position() >= old(self).tokens().len(),
    {
        let mut ast: Vec<Stmt<'a>> = Vec::new();
        let ghost toks = self.tokens();
        let ghost all = parse_all_spec(toks, self.position() as int, Seq::empty());
        while self.tok.peek().is_some()
            invariant
                self.tokens() == toks,
                toks == old(self).tokens(),
                all == parse_all_spec(toks, old(self).position() as int, Seq::empty()),
                all == parse_all_spec(
                    toks,
                    self.position() as int,
                    stmts_view(&ast, ast.len() as int),
                ),
            decreases toks.len() - self.position(),
        {
            proof {
                lemma_stmt_advances(toks, self.position() as int);
            }
            let ghost before = ast;
            let stmt = self.parse_stmt()?;
            ast.push(stmt);
            proof {
                lemma_stmts_view_prefix(&before, &ast, before.len() as int);
            }
        }
        Ok(ast)
    }

    /// The statement that starts at the parser's position.
    pub fn parse_stmt(&mut self) -> (r: Result<Stmt<'a>, ParseError>)
        ensures
            final(self).tokens() == old(self).tokens(),
            parsed(
                r,
                final(self).position(),
                parse_stmt_spec(old(self).tokens(), old(self).position() as int),
            ),
        decreases remaining(old(self).tokens(), old(self).position()), 1nat,
    {
        if self.match_token(TokenOther::Let) {
            self.parse_const_decl(false)
        } else if self.match_token(TokenOther::Var) {
            self.parse_var_decl(false)
        } else if self.match_token(TokenOther::Public) {
            if self.match_token(TokenOther::Var) {
                self.parse_var_decl(true)
            } else {
                let _ = self.match_token(TokenOther::Let);
                self.parse_const_decl(true)
            }
        } else if self.match_token(TokenOther::Package) {
            let name = self.parse_name()?;
            self.expect_terminator()?;
            Ok(Stmt::PackageDecl(name))
        } else {
            let expr = self.parse_expr()?;
            proof {
                lemma_is_block_view(&expr);
            }
            let is_final_expr = if self.is_token(TokenOther::CBrace) {
                true
            } else if expr.is_block() {
                let _ = self.match_terminator();
                false
            } else {
                self.expect_terminator()?;
                false
            };
            Ok(Stmt::Expr(expr, is_final_expr))
        }
    }

    /// The declaration whose name stands at the parser's position.
    fn parse_decl(&mut self, is_const: bool, is_exported: bool) -> (r: Result<Stmt<'a>, ParseError>)
        ensures
            final(self).tokens() == old(self).tokens(),
            parsed(
                r,
                final(self).position(),
                parse_decl_spec(
                    old(self).tokens(),
                    old(self).position() as int,
                    is_const,
                    is_exported,
                ),
            ),
        decreases remaining(old(self).tokens(), old(self).position()), 0nat,
    {
        let name = self.parse_name()?;
        if self.match_terminator() {
            Ok(make_decl(name, None, is_const, is_exported))
        } else if self.match_token(TokenOther::Equal) {
            let expr = self.parse_expr()?;
            proof {
                lemma_is_block_view(&expr);
            }
            if expr.is_block() {
                let _ = self.match_terminator();
            } else {
                self.expect_terminator()?;
            }
            Ok(make_decl(name, Some(expr), is_const, is_exported))
        } else {
            Err(ParseError::ExpectedInitializer)
        }
    }

    fn parse_const_decl(&mut self, is_exported: bool) -> (r: Result<Stmt<'a>, ParseError>)
        ensures
            final(self).tokens() == old(self).tokens(),
            parsed(
                r,
                final(self).position(),
                parse_decl_spec(old(self).tokens(), old(self).position() as int, true, is_exported),
            ),
        decreases remaining(old(self).tokens(), old(self).position()), 1nat,
    {
        self.parse_decl(true, is_exported)
    }

    fn parse_var_decl(&mut self, is_exported: bool) -> (r: Result<Stmt<'a>, ParseError>)
        ensures
            final(self).tokens() == old(self).tokens(),
            parsed(
                r,
                final(self).position(),
                parse_decl_spec(
                    old(self).tokens(),
                    old(self).position() as int,
                    false,
                    is_exported,
                ),
            ),
        decreases remaining(old(self).tokens(), old(self).position()), 1nat,
    {
        self.parse_decl(false, is_exported)
    }

    /// The expression that starts at the parser's position.
    fn parse_expr(&mut self) -> (r: Result<Expr<'a>, ParseError>)
        ensures
            final(self).tokens() == old(self).tokens(),
            parsed(
                r,
                final(self).position(),
                parse_expr_spec(old(self).tokens(), old(self).position() as int),
            ),
        decreases remaining(old(self).tokens(), old(self).position()), 0nat,
    {
        if self.match_token(TokenOther::OParen) {
            self.expect_token(TokenOther::CParen)?;
            let expr = self.parse_expr()?;
            Ok(Expr::Function(Box::new(expr)))
        } else if self.match_token(TokenOther::OBrace) {
            self.parse_block()
        } else {
            match self.tok.peek() {
                Some(Token::IntLiteral(value)) => {
                    let _ = self.tok.next();
                    Ok(Expr::IntLit(*value))
                },
                Some(Token::Ident(name)) => {
                    let _ = self.tok.next();
                    Ok(Expr::Variable(name.as_str()))
                },
                _ => Err(ParseError::ExpectedExpression),
            }
        }
    }

    /// The block whose `{` was just read.
    fn parse_block(&mut self) -> (r: Result<Expr<'a>, ParseError>)
        ensures
            final(self).tokens() == old(self).tokens(),
            parsed(
                r,
                final(self).position(),
                parse_block_spec(old(self).tokens(), old(self).position() as int, Seq::empty()),
            ),
        decreases remaining(old(self).tokens(), old(self).position()), 3nat,
    {
        let mut body: Vec<Stmt<'a>> = Vec::new();
        let ghost toks = self.tokens();
        let ghost all = parse_block_spec(toks, self.position() as int, Seq::empty());
        loop
            invariant
                self.tokens() == toks,
                toks == old(self).tokens(),
                old(self).position() <= self.position(),
                all == parse_block_spec(toks, old(self).position() as int, Seq::empty()),
                all == parse_block_spec(
                    toks,
                    self.position() as int,
                    stmts_view(&body, body.len() as int),
                ),
            decreases toks.len() - self.position(),
        {
            proof {
                lemma_stmt_advances(toks, self.position() as int);
            }
            let ghost before = body;
            let stmt = self.parse_stmt()?;
            if self.match_token(TokenOther::CBrace) {
                match stmt {
                    Stmt::Expr(expr, true) => {
                        return Ok(Expr::Block(body, Some(Box::new(expr))));
                    },
                    _ => {
                        body.push(stmt);
                        proof {
                            lemma_stmts_view_prefix(&before, &body, before.len() as int);
                        }
                        return Ok(Expr::Block(body, None));
                    },
                }
            } else {
                body.push(stmt);
                proof {
                    lemma_stmts_view_prefix(&before, &body, before.len() as int);
                }
            }
        }
    }
}

/// The declaration of `name` with the initializer `init`.
fn make_decl<'a>(name: &'a str, init: Option<Expr<'a>>, is_const: bool, is_exported: bool) -> (r:
    Stmt<'a>)
    ensures
        r@ == decl_view(
            name@,
            match init {
                Some(expr) => Some(expr@),
                None => None,
            },
            is_const,
            is_exported,
        ),
{
    if is_const {
        Stmt::ConstDecl(name, init, None, is_exported)
    } else {
        Stmt::VarDecl(name, init, None, is_exported)
    }
}

} // verus!
