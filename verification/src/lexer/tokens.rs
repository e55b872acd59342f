use vstd::prelude::*;

verus! {

/// A token: one of the kinds every language has, or one of the tokens `T`
/// of a particular language.
#[derive(Debug, PartialEq, Eq)]
pub enum Token<T> {
    Ident(String),
    StringLiteral(String),
    CharLiteral(String),
    IntLiteral(u64),
    Other(T),
}

/// Mathematical model of a [`Token`]: its text as a sequence of characters.
pub enum TokenView<T> {
    Ident(Seq<char>),
    StringLiteral(Seq<char>),
    CharLiteral(Seq<char>),
    IntLiteral(u64),
    Other(T),
}

impl<T> View for Token<T> {
    type V = TokenView<T>;

    open spec fn view(&self) -> TokenView<T> {
        match self {
            Token::Ident(text) => TokenView::Ident(text@),
            Token::StringLiteral(text) => TokenView::StringLiteral(text@),
            Token::CharLiteral(text) => TokenView::CharLiteral(text@),
            Token::IntLiteral(value) => TokenView::IntLiteral(*value),
            Token::Other(other) => TokenView::Other(*other),
        }
    }
}

impl<T> Token<T> {
    pub fn from_other(other: T) -> (r: Self)
        ensures
            r == Token::Other(other),
    {
        Self::Other(other)
    }
}

/// The tokens of a source text, in order.
pub struct Tokens<T> {
    vec: Vec<Token<T>>,
}

impl<T> View for Tokens<T> {
    type V = Seq<TokenView<T>>;

    closed spec fn view(&self) -> Seq<TokenView<T>> {
        Seq::new(self.vec@.len(), |i: int| self.vec@[i]@)
    }
}

impl<T> Tokens<T> {
    pub fn new() -> (r: Self)
        ensures
            r@ == Seq::<TokenView<T>>::empty(),
    {
        let r = Self { vec: Vec::new() };
        assert(r@ =~= Seq::empty());
        r
    }

    /// A cursor that stands before the first token.
    pub fn iter(&self) -> (r: TokensIterator<'_, T>)
        ensures
            r.tokens() == self,
            r.position() == 0,
    {
        TokensIterator { tokens: self, index: 0 }
    }

    pub fn push(&mut self, token: Token<T>)
        ensures
            final(self)@ == old(self)@.push(token@),
    {
        self.vec.push(token);
        assert(self@ =~= old(self)@.push(token@));
    }

    /// Number of tokens.
    pub fn len(&self) -> (n: usize)
        ensures
            n == self@.len(),
    {
        self.vec.len()
    }

    /// The token at `index`.
    pub fn get(&self, index: usize) -> (r: &Token<T>)
        requires
            index < self@.len(),
        ensures
            r@ == self@[index as int],
    {
        &self.vec[index]
    }
}

/// A cursor into the tokens of a source text.
pub struct TokensIterator<'a, T> {
    tokens: &'a Tokens<T>,
    index: usize,
}

impl<'a, T> TokensIterator<'a, T> {
    /// The tokens that the cursor goes over.
    pub closed spec fn tokens(&self) -> &'a Tokens<T> {
        self.tokens
    }

    /// Number of tokens that the cursor has passed.
    pub closed spec fn position(&self) -> nat {
        self.index as nat
    }

    /// The token at the cursor, if the cursor has not passed the last one.
    pub fn peek(&self) -> (r: Option<&'a Token<T>>)
        ensures
            self.position() < self.tokens()@.len() ==> r is Some && r->0@
                == self.tokens()@[self.position() as int],
            self.position() >= self.tokens()@.len() ==> r is None,
    {
        if self.index < self.tokens.len() {
            Some(self.tokens.get(self.index))
        } else {
            None
        }
    }

    /// The token at the cursor, which moves on by one; nothing once the
    /// cursor has passed the last token.
    pub fn next(&mut self) -> (r: Option<&'a Token<T>>)
        ensures
            final(self).tokens() == old(self).tokens(),
            old(self).position() < old(self).tokens()@.len() ==> {
                &&& r is Some
                &&& r->0@ == old(self).tokens()@[old(self).position() as int]
                &&& final(self).position() == old(self).position() + 1
            },
            old(self).position() >= old(self).tokens()@.len() ==> {
                &&& r is None
                &&& final(self).position() == old(self).position()
            },
    {
        if self.index < self.tokens.len() {
            let result = self.tokens.get(self.index);
            self.index += 1;
            Some(result)
        } else {
            None
        }
    }
}

} // verus!
