use vstd::prelude::*;
use crate::lexer::token_map::TokenMap;

verus! {

/// The keywords and symbols of the source language.
#[derive(Debug, Clone, Copy, PartialEq, Eq, Structural)]
pub enum TokenOther {
    Let,
    Var,
    Public,
    Package,
    TypeUInt64,
    TypeString,
    OParen,
    CParen,
    OBrace,
    CBrace,
    Semicolon,
    Equal,
    Colon,
    ColonColon,
    Dot,
    Comma,
}

impl TokenOther {
    /// The keywords of the language with their spellings.
    pub open spec fn keywords() -> Seq<(Seq<char>, TokenOther)> {
        seq![
            ("let"@, TokenOther::Let),
            ("var"@, TokenOther::Var),
            ("public"@, TokenOther::Public),
            ("package"@, TokenOther::Package),
            ("u64"@, TokenOther::TypeUInt64),
            ("str"@, TokenOther::TypeString),
        ]
    }

    /// The symbols of the language with their spellings.
    pub open spec fn symbols() -> Seq<(Seq<char>, TokenOther)> {
        seq![
            ("("@, TokenOther::OParen),
            (")"@, TokenOther::CParen),
            ("{"@, TokenOther::OBrace),
            ("}"@, TokenOther::CBrace),
            (";"@, TokenOther::Semicolon),
            ("="@, TokenOther::Equal),
            (":"@, TokenOther::Colon),
            ("::"@, TokenOther::ColonColon),
            ("."@, TokenOther::Dot),
            (","@, TokenOther::Comma),
        ]
    }

    /// The token map of the language.
    pub fn make_token_map() -> (r: TokenMap<Self>)
        ensures
            r@.keywords == Self::keywords(),
            r@.map == Self::symbols(),
    {
        let mut token_map = TokenMap::new();
        token_map.make_keyword("let", TokenOther::Let);
        token_map.make_keyword("var", TokenOther::Var);
        token_map.make_keyword("public", TokenOther::Public);
        token_map.make_keyword("package", TokenOther::Package);
        token_map.make_keyword("u64", TokenOther::TypeUInt64);
        token_map.make_keyword("str", TokenOther::TypeString);
        token_map.make("(", TokenOther::OParen);
        token_map.make(")", TokenOther::CParen);
        token_map.make("{", TokenOther::OBrace);
        token_map.make("}", TokenOther::CBrace);
        token_map.make(";", TokenOther::Semicolon);
        token_map.make("=", TokenOther::Equal);
        token_map.make(":", TokenOther::Colon);
        token_map.make("::", TokenOther::ColonColon);
        token_map.make(".", TokenOther::Dot);
        token_map.make(",", TokenOther::Comma);
        assert(token_map@.keywords =~= Self::keywords());
        assert(token_map@.map =~= Self::symbols());
        token_map
    }

    /// How the token is shown in messages: a keyword by its spelling after
    /// `kw:`, a symbol by its spelling in quotes.
    pub open spec fn spec_to_text(&self) -> &'static str {
        match self {
            TokenOther::Let => "kw:let",
            TokenOther::Var => "kw:var",
            TokenOther::Public => "kw:public",
            TokenOther::Package => "kw:package",
            TokenOther::TypeUInt64 => "kw:u64",
            TokenOther::TypeString => "kw:str",
            TokenOther::OParen => "'('",
            TokenOther::CParen => "')'",
            TokenOther::OBrace => "'{'",
            TokenOther::CBrace => "'}'",
            TokenOther::Semicolon => "';'",
            TokenOther::Equal => "'='",
            TokenOther::Colon => "':'",
            TokenOther::ColonColon => "'::'",
            TokenOther::Dot => "'.'",
            TokenOther::Comma => "','",
        }
    }

    #[verifier::when_used_as_spec(spec_to_text)]
    pub fn to_text(&self) -> (r: &'static str)
        ensures
            r == self.spec_to_text(),
    {
        match self {
            TokenOther::Let => "kw:let",
            TokenOther::Var => "kw:var",
            TokenOther::Public => "kw:public",
            TokenOther::Package => "kw:package",
            TokenOther::TypeUInt64 => "kw:u64",
            TokenOther::TypeString => "kw:str",
            TokenOther::OParen => "'('",
            TokenOther::CParen => "')'",
            TokenOther::OBrace => "'{'",
            TokenOther::CBrace => "'}'",
            TokenOther::Semicolon => "';'",
            TokenOther::Equal => "'='",
            TokenOther::Colon => "':'",
            TokenOther::ColonColon => "'::'",
            TokenOther::Dot => "'.'",
            TokenOther::Comma => "','",
        }
    }
}

} // verus!
