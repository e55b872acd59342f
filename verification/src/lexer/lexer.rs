use vstd::prelude::*;
use vstd::string::StrSliceExecFns;
use crate::lexer::token_map::{TokenMap, TokenMapView};
use crate::lexer::tokens::{Token, TokenView, Tokens};

verus! {

/// Why a source text could not be cut into tokens.
#[derive(Debug, Clone, Copy, PartialEq, Eq, Structural)]
pub enum LexError {
    /// The character `ch` at index `pos` starts no token.
    UnexpectedChar { ch: char, pos: usize },
    /// The text ends at index `pos` inside a symbol.
    UnexpectedEof { pos: usize },
    /// The integer literal at index `pos` does not fit 64 bits.
    IntegerTooLarge { pos: usize },
}

/// Whether `c` is white space: one of the code points that have the
/// Unicode property `White_Space`.
pub open spec fn char_is_whitespace(c: char) -> bool {
    ||| '\u{9}' <= c <= '\u{d}'
    ||| c == ' '
    ||| c == '\u{85}'
    ||| c == '\u{a0}'
    ||| c == '\u{1680}'
    ||| '\u{2000}' <= c <= '\u{200a}'
    ||| c == '\u{2028}'
    ||| c == '\u{2029}'
    ||| c == '\u{202f}'
    ||| c == '\u{205f}'
    ||| c == '\u{3000}'
}

/// Whether `c` is alphabetic, as Unicode defines it.
pub uninterp spec fn char_is_alphabetic(c: char) -> bool;

/// Computes [`char_is_whitespace`].
fn is_whitespace(c: char) -> (b: bool)
    ensures
        b == char_is_whitespace(c),
{
    ('\u{9}' <= c && c <= '\u{d}') || c == ' ' || c == '\u{85}' || c == '\u{a0}' || c == '\u{1680}' || (
    '\u{2000}' <= c && c <= '\u{200a}') || c == '\u{2028}' || c == '\u{2029}' || c == '\u{202f}' || c
        == '\u{205f}' || c == '\u{3000}'
}

/// `char::is_alphabetic` tells whether the character has the Unicode
/// property `Alphabetic`.
#[verifier::external_body]
fn is_alphabetic(c: char) -> (b: bool)
    ensures
        b == char_is_alphabetic(c),
{
    c.is_alphabetic()
}

/// `String::push` appends one character to the string.
pub assume_specification[ String::push ](s: &mut String, c: char)
    ensures
        final(s)@ == old(s)@.push(c),
;

/// Whether `c` may stand in an identifier: a letter or an underscore.
pub open spec fn is_alpha(c: char) -> bool {
    char_is_alphabetic(c) || c == '_'
}

/// Whether `c` is one of the digits `0` to `9`.
pub open spec fn is_digit(c: char) -> bool {
    '0' <= c <= '9'
}

/// Whether `p` is what `s` starts with.
pub open spec fn is_prefix(p: Seq<char>, s: Seq<char>) -> bool {
    p.len() <= s.len() && s.subrange(0, p.len() as int) == p
}

/// Where the run of identifier characters that starts at `pos` ends.
pub open spec fn ident_end(input: Seq<char>, pos: int) -> int
    decreases input.len() - pos,
{
    if 0 <= pos < input.len() && is_alpha(input[pos]) {
        ident_end(input, pos + 1)
    } else {
        pos
    }
}

/// Where the run of digits that starts at `pos` ends.
pub open spec fn digits_end(input: Seq<char>, pos: int) -> int
    decreases input.len() - pos,
{
    if 0 <= pos < input.len() && is_digit(input[pos]) {
        digits_end(input, pos + 1)
    } else {
        pos
    }
}

/// The number that the digits from index `from` up to `to` spell.
pub open spec fn digits_value(input: Seq<char>, from: int, to: int) -> nat
    decreases to - from,
{
    if to <= from {
        0
    } else {
        digits_value(input, from, to - 1) * 10 + (input[to - 1] as nat - '0' as nat) as nat
    }
}

/// Whether some symbol of `map` starts with `p`.
pub open spec fn some_symbol_starts_with<T>(map: Seq<(Seq<char>, T)>, p: Seq<char>) -> bool {
    exists|i: int| 0 <= i < map.len() && is_prefix(p, (#[trigger] map[i]).0)
}

/// The symbol that is read from index `start` on, once the characters up
/// to `pos` are taken in, and the index at which the reading stops. The
/// shortest text that spells a symbol is taken; reading goes on while some
/// symbol starts with the text. Where reading fails it stops at the
/// character that fits no symbol, or at the end of the text.
pub open spec fn symbol_at<T>(input: Seq<char>, start: int, pos: int, map: TokenMapView<T>) -> (
    Option<T>,
    int,
)
    decreases input.len() - pos,
{
    if pos < 0 || pos >= input.len() {
        (map.symbol(input.subrange(start, pos)), pos)
    } else {
        let key = input.subrange(start, pos + 1);
        if map.symbol(key) is Some {
            (map.symbol(key), pos + 1)
        } else if some_symbol_starts_with(map.map, key) {
            symbol_at(input, start, pos + 1, map)
        } else {
            (None, pos)
        }
    }
}

/// Reading a symbol never goes back, and it moves on where it starts
/// inside the text and finds a symbol.
pub proof fn lemma_symbol_at<T>(input: Seq<char>, start: int, pos: int, map: TokenMapView<T>)
    requires
        0 <= pos,
    ensures
        pos <= symbol_at(input, start, pos, map).1,
        symbol_at(input, start, pos, map).1 <= input.len() || symbol_at(input, start, pos, map).1
            == pos,
        pos < input.len() && symbol_at(input, start, pos, map).0 is Some ==> pos < symbol_at(
            input,
            start,
            pos,
            map,
        ).1,
    decreases input.len() - pos,
{
    if pos < input.len() {
        let key = input.subrange(start, pos + 1);
        if map.symbol(key) is None && some_symbol_starts_with(map.map, key) {
            lemma_symbol_at(input, start, pos + 1, map);
        }
    }
}

/// The run of identifier characters from `pos` on ends within the text,
/// behind `pos` where an identifier character stands there.
pub proof fn lemma_ident_end(input: Seq<char>, pos: int)
    requires
        0 <= pos <= input.len(),
    ensures
        pos <= ident_end(input, pos) <= input.len(),
        pos < input.len() && is_alpha(input[pos]) ==> pos < ident_end(input, pos),
    decreases input.len() - pos,
{
    if pos < input.len() && is_alpha(input[pos]) {
        lemma_ident_end(input, pos + 1);
    }
}

/// The run of digits from `pos` on ends within the text, behind `pos`
/// where a digit stands there.
pub proof fn lemma_digits_end(input: Seq<char>, pos: int)
    requires
        0 <= pos <= input.len(),
    ensures
        pos <= digits_end(input, pos) <= input.len(),
        pos < input.len() && is_digit(input[pos]) ==> pos < digits_end(input, pos),
    decreases input.len() - pos,
{
    if pos < input.len() && is_digit(input[pos]) {
        lemma_digits_end(input, pos + 1);
    }
}

/// A result with `token` put before its tokens.
pub open spec fn prepend<T>(token: TokenView<T>, rest: Result<Seq<TokenView<T>>, LexError>) -> Result<
    Seq<TokenView<T>>,
    LexError,
> {
    match rest {
        Ok(tokens) => Ok(seq![token] + tokens),
        Err(e) => Err(e),
    }
}

/// The token that the identifier characters `text` make: the keyword they
/// spell, else an identifier.
pub open spec fn word_token<T>(map: TokenMapView<T>, text: Seq<char>) -> TokenView<T> {
    match map.keyword(text) {
        Some(keyword) => TokenView::Other(keyword),
        None => TokenView::Ident(text),
    }
}

/// The tokens of `input` from index `pos` on. White space separates
/// tokens; a run of identifier characters is a keyword or an identifier, a
/// run of digits an integer, and anything else must spell a symbol.
pub open spec fn lex_from<T>(input: Seq<char>, pos: int, map: TokenMapView<T>) -> Result<
    Seq<TokenView<T>>,
    LexError,
>
    decreases input.len() - pos,
{
    if pos < 0 || pos >= input.len() {
        Ok(Seq::empty())
    } else if char_is_whitespace(input[pos]) {
        lex_from(input, pos + 1, map)
    } else if is_alpha(input[pos]) {
        proof {
            lemma_ident_end(input, pos);
        }
        prepend(
            word_token(map, input.subrange(pos, ident_end(input, pos))),
            lex_from(input, ident_end(input, pos), map),
        )
    } else if is_digit(input[pos]) {
        proof {
            lemma_digits_end(input, pos);
        }
        if digits_value(input, pos, digits_end(input, pos)) > u64::MAX {
            Err(LexError::IntegerTooLarge { pos: pos as usize })
        } else {
            prepend(
                TokenView::IntLiteral(digits_value(input, pos, digits_end(input, pos)) as u64),
                lex_from(input, digits_end(input, pos), map),
            )
        }
    } else {
        proof {
            lemma_symbol_at(input, pos, pos, map);
        }
        let (symbol, end) = symbol_at(input, pos, pos, map);
        match symbol {
            Some(token) => prepend(TokenView::Other(token), lex_from(input, end, map)),
            None => if end >= input.len() {
                Err(LexError::UnexpectedEof { pos: end as usize })
            } else {
                Err(LexError::UnexpectedChar { ch: input[end], pos: end as usize })
            },
        }
    }
}

/// Whether `s` starts with `prefix`.
pub fn starts_with(s: &str, prefix: &str) -> (b: bool)
    ensures
        b == is_prefix(prefix@, s@),
{
    let n = prefix.unicode_len();
    if n > s.unicode_len() {
        return false;
    }
    let mut i: usize = 0;
    while i < n
        invariant
            i <= n,
            n == prefix@.len(),
            n <= s@.len(),
            forall|j: int| 0 <= j < i ==> s@[j] == prefix@[j],
        decreases n - i,
    {
        if s.get_char(i) != prefix.get_char(i) {
            assert(s@.subrange(0, n as int)[i as int] != prefix@[i as int]);
            return false;
        }
        i += 1;
    }
    assert(s@.subrange(0, n as int) =~= prefix@);
    true
}

/// A reader that cuts a source text into tokens.
pub struct Lexer {
    input: Vec<char>,
    pos: usize,
}

impl Lexer {
    /// The text that is read.
    pub closed spec fn text(&self) -> Seq<char> {
        self.input@
    }

    /// Index of the character that is read next.
    pub closed spec fn position(&self) -> nat {
        self.pos as nat
    }

    /// A reader at the start of `input`.
    pub fn from_chars(input: Vec<char>) -> (r: Self)
        ensures
            r.text() == input@,
            r.position() == 0,
    {
        Self { input, pos: 0 }
    }

    /// The tokens of the text from where the reader stands. The reader is
    /// left at the end of the text, or where it failed.
    pub fn tokenize<TokT: Copy>(&mut self, token_map: TokenMap<TokT>) -> (r: Result<
        Tokens<TokT>,
        LexError,
    >)
        ensures
            match lex_from(old(self).text(), old(self).position() as int, token_map@) {
                Ok(tokens) => r is Ok && r->Ok_0@ == tokens,
                Err(e) => r is Err && r->Err_0 == e,
            },
            final(self).text() == old(self).text(),
            r is Ok ==> final(self).position() >= old(self).text().len(),
    {
        let mut tokens = Tokens::new();
        let ghost all = lex_from(self.text(), self.position() as int, token_map@);
        while !self.is_eof()
            invariant
                self.input@ == old(self).input@,
                all == lex_from(old(self).input@, old(self).pos as int, token_map@),
                all == match lex_from(self.input@, self.pos as int, token_map@) {
                    Ok(rest) => Ok(tokens@ + rest),
                    Err(e) => Err(e),
                },
            decreases self.input@.len() - self.pos,
        {
            let ghost before = tokens@;
            let ghost at = self.pos as int;
            if self.is_space() {
                self.advance();
            } else if self.is_alpha() {
                proof {
                    lemma_ident_end(self.input@, at);
                }
                let ident = self.lex_ident();
                let token_keyword = self.map_to_keyword(&token_map, &ident);
                if let Some(other) = token_keyword {
                    tokens.push(Token::from_other(other));
                } else {
                    tokens.push(Token::Ident(ident));
                }
                proof {
                    let rest = lex_from(self.input@, self.pos as int, token_map@);
                    if rest is Ok {
                        assert(before + (seq![tokens@.last()] + rest->Ok_0) =~= tokens@
                            + rest->Ok_0);
                    }
                }
            } else if self.is_digit() {
                proof {
                    lemma_digits_end(self.input@, at);
                }
                let value = self.lex_int()?;
                tokens.push(Token::IntLiteral(value));
                proof {
                    let rest = lex_from(self.input@, self.pos as int, token_map@);
                    if rest is Ok {
                        assert(before + (seq![tokens@.last()] + rest->Ok_0) =~= tokens@
                            + rest->Ok_0);
                    }
                }
            } else {
                proof {
                    lemma_symbol_at(self.input@, at, at, token_map@);
                }
                match self.map_to_token(&token_map) {
                    Some(token_other) => {
                        tokens.push(Token::from_other(token_other));
                        proof {
                            let rest = lex_from(self.input@, self.pos as int, token_map@);
                            if rest is Ok {
                                assert(before + (seq![tokens@.last()] + rest->Ok_0) =~= tokens@
                                    + rest->Ok_0);
                            }
                        }
                    },
                    None => {
                        if self.is_eof() {
                            return Err(LexError::UnexpectedEof { pos: self.pos });
                        } else {
                            let ch = self.peek();
                            return Err(LexError::UnexpectedChar { ch, pos: self.pos });
                        }
                    },
                }
            }
        }
        proof {
            assert(tokens@ + Seq::<TokenView<TokT>>::empty() =~= tokens@);
        }
        Ok(tokens)
    }

    fn map_to_keyword<TokT: Copy>(&mut self, token_map: &TokenMap<TokT>, ident: &String) -> (r:
        Option<TokT>)
        ensures
            r == token_map@.keyword(ident@),
            *final(self) == *old(self),
    {
        match token_map.get_keyword(ident) {
            Some(token) => Some(*token),
            None => None,
        }
    }

    /// Reads the symbol that starts where the reader stands.
    fn map_to_token<TokT: Copy>(&mut self, token_map: &TokenMap<TokT>) -> (r: Option<TokT>)
        ensures
            (r, final(self).pos as int) == symbol_at(
                old(self).input@,
                old(self).pos as int,
                old(self).pos as int,
                token_map@,
            ) || (old(self).pos >= old(self).input@.len() && r is None && final(self).pos == old(
                self,
            ).pos),
            final(self).input@ == old(self).input@,
    {
        if self.is_eof() {
            return None;
        }
        let ghost start = self.pos as int;
        let mut key = String::new();
        while !self.is_eof()
            invariant
                self.input@ == old(self).input@,
                start <= self.pos <= self.input@.len(),
                start == old(self).pos,
                key@ == self.input@.subrange(start, self.pos as int),
                symbol_at(self.input@, start, start, token_map@) == symbol_at(
                    self.input@,
                    start,
                    self.pos as int,
                    token_map@,
                ),
            decreases self.input@.len() - self.pos,
        {
            key.push(self.peek());
            assert(key@ =~= self.input@.subrange(start, self.pos + 1));
            match token_map.get(&key) {
                Some(token) => {
                    self.advance();
                    return Some(*token);
                },
                None => {},
            }
            let fits_key = |k: &String| -> (b: bool)
                ensures
                    b == is_prefix(key@, k@),
                {
                    let b = starts_with(k.as_str(), key.as_str());
                    b
                };
            let found = token_map.any_key(fits_key);
            proof {
                token_map.lemma_keys();
                if found {
                    let i = choose|i: int|
                        0 <= i < token_map.keys().len() && is_prefix(
                            key@,
                            (#[trigger] token_map.keys()[i])@,
                        );
                    assert(is_prefix(key@, token_map@.map[i].0));
                } else {
                    assert forall|i: int| 0 <= i < token_map@.map.len() implies !is_prefix(
                        key@,
                        (#[trigger] token_map@.map[i]).0,
                    ) by {
                        assert(!is_prefix(key@, token_map.keys()[i]@));
                    }
                }
            }
            if found {
                self.advance();
            } else {
                return None;
            }
        }
        match token_map.get(&key) {
            Some(token) => Some(*token),
            None => None,
        }
    }

    fn is_eof(&self) -> (b: bool)
        ensures
            b == (self.pos >= self.input@.len()),
    {
        self.pos >= self.input.len()
    }

    fn peek(&self) -> (c: char)
        requires
            self.pos < self.input@.len(),
        ensures
            c == self.input@[self.pos as int],
    {
        self.input[self.pos]
    }

    fn advance(&mut self) -> (c: char)
        requires
            old(self).pos < old(self).input@.len(),
        ensures
            c == old(self).input@[old(self).pos as int],
            final(self).pos == old(self).pos + 1,
            final(self).input@ == old(self).input@,
    {
        let ch = self.peek();
        let len = self.input.len();
        assert(self.pos < len);
        self.pos += 1;
        ch
    }

    fn is_space(&self) -> (b: bool)
        ensures
            b == (self.pos < self.input@.len() && char_is_whitespace(self.input@[self.pos as int])),
    {
        !self.is_eof() && is_whitespace(self.peek())
    }

    fn is_alpha(&self) -> (b: bool)
        ensures
            b == (self.pos < self.input@.len() && is_alpha(self.input@[self.pos as int])),
    {
        if self.is_eof() {
            return false;
        }
        let ch = self.peek();
        is_alphabetic(ch) || ch == '_'
    }

    fn is_digit(&self) -> (b: bool)
        ensures
            b == (self.pos < self.input@.len() && is_digit(self.input@[self.pos as int])),
    {
        if self.is_eof() {
            return false;
        }
        let ch = self.peek();
        '0' <= ch && ch <= '9'
    }

    /// Reads the run of identifier characters that starts where the reader
    /// stands.
    fn lex_ident(&mut self) -> (text: String)
        requires
            old(self).pos <= old(self).input@.len(),
        ensures
            final(self).input@ == old(self).input@,
            final(self).pos == ident_end(old(self).input@, old(self).pos as int),
            text@ == old(self).input@.subrange(old(self).pos as int, final(self).pos as int),
    {
        let ghost start = self.pos as int;
        let mut text = String::new();
        while self.is_alpha()
            invariant
                self.input@ == old(self).input@,
                start == old(self).pos,
                start <= self.pos <= self.input@.len(),
                ident_end(self.input@, start) == ident_end(self.input@, self.pos as int),
                text@ == self.input@.subrange(start, self.pos as int),
            decreases self.input@.len() - self.pos,
        {
            let ch = self.advance();
            text.push(ch);
            assert(text@ =~= self.input@.subrange(start, self.pos as int));
        }
        text
    }

    /// Reads the run of digits that starts where the reader stands, as a
    /// number.
    fn lex_int(&mut self) -> (r: Result<u64, LexError>)
        requires
            old(self).pos <= old(self).input@.len(),
        ensures
            final(self).input@ == old(self).input@,
            final(self).pos == digits_end(old(self).input@, old(self).pos as int),
            match r {
                Ok(value) => value == digits_value(
                    old(self).input@,
                    old(self).pos as int,
                    final(self).pos as int,
                ),
                Err(e) => e == (LexError::IntegerTooLarge { pos: old(self).pos })
                    && digits_value(
                    old(self).input@,
                    old(self).pos as int,
                    final(self).pos as int,
                ) > u64::MAX,
            },
    {
        let start = self.pos;
        let mut value: u64 = 0;
        let mut fits = true;
        while self.is_digit()
            invariant
                self.input@ == old(self).input@,
                start == old(self).pos,
                start <= self.pos <= self.input@.len(),
                digits_end(self.input@, start as int) == digits_end(self.input@, self.pos as int),
                fits ==> value == digits_value(self.input@, start as int, self.pos as int),
                !fits ==> digits_value(self.input@, start as int, self.pos as int) > u64::MAX,
            decreases self.input@.len() - self.pos,
        {
            let ch = self.advance();
            let digit = (ch as u32 - '0' as u32) as u64;
            if fits {
                if value > (u64::MAX - digit) / 10 {
                    fits = false;
                } else {
                    value = value * 10 + digit;
                }
            }
        }
        if fits {
            Ok(value)
        } else {
            Err(LexError::IntegerTooLarge { pos: start })
        }
    }
}

} // verus!
