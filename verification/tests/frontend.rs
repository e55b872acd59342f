use furn::flags::Flags;
use furn::ir_gen::ir::IRNode;
use furn::ir_gen::ir_gen::IRGen;
use furn::lexer::lexer::{starts_with, LexError, Lexer};
use furn::lexer::token_map::TokenMap;
use furn::lexer::tokens::{Token, Tokens};
use furn::parser::ast::{Expr, Stmt};
use furn::parser::parser::{ParseError, Parser};
use furn::tok::token_other::TokenOther;
use std::collections::VecDeque;

fn lex(text: &str) -> Result<Vec<Token<TokenOther>>, LexError> {
    let mut lexer = Lexer::from_chars(text.chars().collect());
    let tokens = lexer.tokenize(TokenOther::make_token_map())?;
    let mut out = Vec::new();
    let mut it = tokens.iter();
    while let Some(token) = it.next() {
        out.push(match token {
            Token::Ident(s) => Token::Ident(s.clone()),
            Token::StringLiteral(s) => Token::StringLiteral(s.clone()),
            Token::CharLiteral(s) => Token::CharLiteral(s.clone()),
            Token::IntLiteral(v) => Token::IntLiteral(*v),
            Token::Other(t) => Token::Other(*t),
        });
    }
    Ok(out)
}

fn tokens_of(text: &str) -> Tokens<TokenOther> {
    let mut lexer = Lexer::from_chars(text.chars().collect());
    lexer.tokenize(TokenOther::make_token_map()).unwrap()
}

fn ident(name: &str) -> Token<TokenOther> {
    Token::Ident(name.to_string())
}

fn other(token: TokenOther) -> Token<TokenOther> {
    Token::Other(token)
}

#[test]
fn token_map_finds_what_was_entered() {
    let mut map: TokenMap<u32> = TokenMap::new();
    map.make("(", 1);
    map.make("::", 2);
    map.make_keyword("let", 3);
    assert_eq!(map.get(&"(".to_string()), Some(&1));
    assert_eq!(map.get(&"::".to_string()), Some(&2));
    assert_eq!(map.get(&":".to_string()), None);
    assert_eq!(map.get(&"let".to_string()), None);
    assert_eq!(map.get_keyword(&"let".to_string()), Some(&3));
    assert_eq!(map.get_keyword(&"(".to_string()), None);
}

#[test]
fn token_map_keeps_the_last_entry_of_a_spelling() {
    let mut map: TokenMap<u32> = TokenMap::new();
    map.make("=", 1);
    map.make("=", 2);
    map.make_keyword("k", 7);
    map.make_keyword("k", 8);
    assert_eq!(map.get(&"=".to_string()), Some(&2));
    assert_eq!(map.get_keyword(&"k".to_string()), Some(&8));
}

#[test]
fn token_map_any_key() {
    let mut map: TokenMap<u32> = TokenMap::new();
    assert!(!map.any_key(|_| true));
    map.make("::", 2);
    map.make_keyword("let", 3);
    assert!(map.any_key(|k| k.starts_with(':')));
    assert!(!map.any_key(|k| k.starts_with('l')));
}

#[test]
fn prefixes() {
    assert!(starts_with("::", ":"));
    assert!(starts_with("::", "::"));
    assert!(starts_with("::", ""));
    assert!(!starts_with(":", "::"));
    assert!(!starts_with("ab", "b"));
    assert!(starts_with("éa", "é"));
}

#[test]
fn language_token_map() {
    let map = TokenOther::make_token_map();
    assert_eq!(map.get_keyword(&"let".to_string()), Some(&TokenOther::Let));
    assert_eq!(map.get_keyword(&"var".to_string()), Some(&TokenOther::Var));
    assert_eq!(map.get_keyword(&"public".to_string()), Some(&TokenOther::Public));
    assert_eq!(map.get_keyword(&"package".to_string()), Some(&TokenOther::Package));
    assert_eq!(map.get_keyword(&"u64".to_string()), Some(&TokenOther::TypeUInt64));
    assert_eq!(map.get_keyword(&"str".to_string()), Some(&TokenOther::TypeString));
    assert_eq!(map.get(&"(".to_string()), Some(&TokenOther::OParen));
    assert_eq!(map.get(&")".to_string()), Some(&TokenOther::CParen));
    assert_eq!(map.get(&"{".to_string()), Some(&TokenOther::OBrace));
    assert_eq!(map.get(&"}".to_string()), Some(&TokenOther::CBrace));
    assert_eq!(map.get(&";".to_string()), Some(&TokenOther::Semicolon));
    assert_eq!(map.get(&"=".to_string()), Some(&TokenOther::Equal));
    assert_eq!(map.get(&":".to_string()), Some(&TokenOther::Colon));
    assert_eq!(map.get(&"::".to_string()), Some(&TokenOther::ColonColon));
    assert_eq!(map.get(&".".to_string()), Some(&TokenOther::Dot));
    assert_eq!(map.get(&",".to_string()), Some(&TokenOther::Comma));
    assert_eq!(map.get(&"let".to_string()), None);
}

#[test]
fn token_texts() {
    assert_eq!(TokenOther::Let.to_text(), "kw:let");
    assert_eq!(TokenOther::TypeUInt64.to_text(), "kw:u64");
    assert_eq!(TokenOther::OBrace.to_text(), "'{'");
    assert_eq!(TokenOther::ColonColon.to_text(), "'::'");
}

#[test]
fn tokens_are_kept_in_order() {
    let mut tokens: Tokens<TokenOther> = Tokens::new();
    assert_eq!(tokens.len(), 0);
    tokens.push(Token::IntLiteral(1));
    tokens.push(Token::from_other(TokenOther::Dot));
    assert_eq!(tokens.len(), 2);
    assert_eq!(*tokens.get(1), Token::Other(TokenOther::Dot));
    let mut it = tokens.iter();
    assert_eq!(it.peek(), Some(&Token::IntLiteral(1)));
    assert_eq!(it.next(), Some(&Token::IntLiteral(1)));
    assert_eq!(it.next(), Some(&Token::Other(TokenOther::Dot)));
    assert_eq!(it.peek(), None);
    assert_eq!(it.next(), None);
    assert_eq!(it.next(), None);
}

#[test]
fn empty_text_has_no_tokens() {
    assert_eq!(lex(""), Ok(vec![]));
    assert_eq!(lex("  \n\t "), Ok(vec![]));
}

#[test]
fn words_numbers_and_symbols() {
    assert_eq!(
        lex("package demo; public let x = 7;"),
        Ok(vec![
            other(TokenOther::Package),
            ident("demo"),
            other(TokenOther::Semicolon),
            other(TokenOther::Public),
            other(TokenOther::Let),
            ident("x"),
            other(TokenOther::Equal),
            Token::IntLiteral(7),
            other(TokenOther::Semicolon),
        ])
    );
}

#[test]
fn tokens_need_no_space_between_them() {
    assert_eq!(
        lex("let f=(){42};"),
        Ok(vec![
            other(TokenOther::Let),
            ident("f"),
            other(TokenOther::Equal),
            other(TokenOther::OParen),
            other(TokenOther::CParen),
            other(TokenOther::OBrace),
            Token::IntLiteral(42),
            other(TokenOther::CBrace),
            other(TokenOther::Semicolon),
        ])
    );
}

#[test]
fn identifiers_hold_letters_and_underscores_only() {
    assert_eq!(lex("a_b"), Ok(vec![ident("a_b")]));
    assert_eq!(lex("_"), Ok(vec![ident("_")]));
    assert_eq!(lex("héllo"), Ok(vec![ident("héllo")]));
    assert_eq!(lex("x1"), Ok(vec![ident("x"), Token::IntLiteral(1)]));
    assert_eq!(lex("u64"), Ok(vec![ident("u"), Token::IntLiteral(64)]));
    assert_eq!(lex("1x"), Ok(vec![Token::IntLiteral(1), ident("x")]));
    assert_eq!(lex("str"), Ok(vec![other(TokenOther::TypeString)]));
    assert_eq!(lex("letter"), Ok(vec![ident("letter")]));
}

#[test]
fn shortest_symbol_is_taken() {
    assert_eq!(lex("::"), Ok(vec![other(TokenOther::Colon), other(TokenOther::Colon)]));
    assert_eq!(lex(".,"), Ok(vec![other(TokenOther::Dot), other(TokenOther::Comma)]));
}

#[test]
fn longer_symbols_are_read_where_no_shorter_one_fits() {
    let mut map: TokenMap<u32> = TokenMap::new();
    map.make("->", 1);
    map.make("-=>", 2);
    let mut lexer = Lexer::from_chars("-> -=>".chars().collect());
    let tokens = lexer.tokenize(map).unwrap();
    assert_eq!(tokens.len(), 2);
    assert_eq!(*tokens.get(0), Token::Other(1));
    assert_eq!(*tokens.get(1), Token::Other(2));
}

#[test]
fn integers() {
    assert_eq!(lex("0"), Ok(vec![Token::IntLiteral(0)]));
    assert_eq!(lex("007"), Ok(vec![Token::IntLiteral(7)]));
    assert_eq!(lex("18446744073709551615"), Ok(vec![Token::IntLiteral(u64::MAX)]));
    assert_eq!(lex("12 34"), Ok(vec![Token::IntLiteral(12), Token::IntLiteral(34)]));
}

#[test]
fn integer_too_large() {
    assert_eq!(lex("18446744073709551616"), Err(LexError::IntegerTooLarge { pos: 0 }));
    assert_eq!(lex("x 99999999999999999999999"), Err(LexError::IntegerTooLarge { pos: 2 }));
}

#[test]
fn unexpected_character() {
    assert_eq!(lex("let x = #;"), Err(LexError::UnexpectedChar { ch: '#', pos: 8 }));
    assert_eq!(lex("\"hi\""), Err(LexError::UnexpectedChar { ch: '"', pos: 0 }));
}

#[test]
fn unexpected_end_inside_a_symbol() {
    let mut map: TokenMap<u32> = TokenMap::new();
    map.make("->", 1);
    let mut lexer = Lexer::from_chars("-".chars().collect());
    assert_eq!(lexer.tokenize(map).err(), Some(LexError::UnexpectedEof { pos: 1 }));
    let mut map: TokenMap<u32> = TokenMap::new();
    map.make("->", 1);
    let mut lexer = Lexer::from_chars("-x".chars().collect());
    assert_eq!(lexer.tokenize(map).err(), Some(LexError::UnexpectedChar { ch: 'x', pos: 1 }));
}

fn parse(text: &str, check: impl Fn(Result<Vec<Stmt>, ParseError>)) {
    let tokens = tokens_of(text);
    let mut parser = Parser::new(&tokens);
    check(parser.parse());
}

fn block<'a>(body: Vec<Stmt<'a>>, tail: Option<Expr<'a>>) -> Expr<'a> {
    Expr::Block(body, tail.map(Box::new))
}

#[test]
fn no_tokens_no_statements() {
    parse("", |r| assert_eq!(r, Ok(vec![])));
}

#[test]
fn declarations() {
    parse("let a; var b; public let c; public var d;", |r| {
        assert_eq!(
            r,
            Ok(vec![
                Stmt::ConstDecl("a", None, None, false),
                Stmt::VarDecl("b", None, None, false),
                Stmt::ConstDecl("c", None, None, true),
                Stmt::VarDecl("d", None, None, true),
            ])
        )
    });
    parse("let a = 1; var b = a; public c = 2;", |r| {
        assert_eq!(
            r,
            Ok(vec![
                Stmt::ConstDecl("a", Some(Expr::IntLit(1)), None, false),
                Stmt::VarDecl("b", Some(Expr::Variable("a")), None, false),
                Stmt::ConstDecl("c", Some(Expr::IntLit(2)), None, true),
            ])
        )
    });
}

#[test]
fn package_declaration() {
    parse("package demo;", |r| assert_eq!(r, Ok(vec![Stmt::PackageDecl("demo")])));
    parse("package;", |r| assert_eq!(r, Err(ParseError::ExpectedName)));
    parse("package demo", |r| assert_eq!(r, Err(ParseError::ExpectedTerminator)));
}

#[test]
fn expression_statements() {
    parse("1; x;", |r| {
        assert_eq!(
            r,
            Ok(vec![Stmt::Expr(Expr::IntLit(1), false), Stmt::Expr(Expr::Variable("x"), false)])
        )
    });
    parse("1", |r| assert_eq!(r, Err(ParseError::ExpectedTerminator)));
}

#[test]
fn blocks() {
    parse("{ 1 }", |r| {
        assert_eq!(r, Ok(vec![Stmt::Expr(block(vec![], Some(Expr::IntLit(1))), false)]))
    });
    parse("{ 1; }", |r| {
        assert_eq!(
            r,
            Ok(vec![Stmt::Expr(block(vec![Stmt::Expr(Expr::IntLit(1), false)], None), false)])
        )
    });
    parse("{ let a = 1; let b = 2; a };", |r| {
        assert_eq!(
            r,
            Ok(vec![Stmt::Expr(
                block(
                    vec![
                        Stmt::ConstDecl("a", Some(Expr::IntLit(1)), None, false),
                        Stmt::ConstDecl("b", Some(Expr::IntLit(2)), None, false),
                    ],
                    Some(Expr::Variable("a")),
                ),
                false
            )])
        )
    });
    parse("{ { 1 } }", |r| {
        assert_eq!(
            r,
            Ok(vec![Stmt::Expr(
                block(vec![], Some(block(vec![], Some(Expr::IntLit(1))))),
                false
            )])
        )
    });
    parse("{ { 1 } 2 }", |r| {
        assert_eq!(
            r,
            Ok(vec![Stmt::Expr(
                block(
                    vec![Stmt::Expr(block(vec![], Some(Expr::IntLit(1))), false)],
                    Some(Expr::IntLit(2))
                ),
                false
            )])
        )
    });
}

#[test]
fn empty_block_is_refused() {
    parse("{}", |r| assert_eq!(r, Err(ParseError::ExpectedExpression)));
    parse("{ 1;", |r| assert_eq!(r, Err(ParseError::ExpectedExpression)));
}

#[test]
fn function_literals() {
    parse("let f = () { 42 };", |r| {
        assert_eq!(
            r,
            Ok(vec![Stmt::ConstDecl(
                "f",
                Some(Expr::Function(Box::new(block(vec![], Some(Expr::IntLit(42)))))),
                None,
                false
            )])
        )
    });
    parse("let f = () { 42 } let g = () 1;", |r| {
        assert_eq!(
            r,
            Ok(vec![
                Stmt::ConstDecl(
                    "f",
                    Some(Expr::Function(Box::new(block(vec![], Some(Expr::IntLit(42)))))),
                    None,
                    false
                ),
                Stmt::ConstDecl(
                    "g",
                    Some(Expr::Function(Box::new(Expr::IntLit(1)))),
                    None,
                    false
                ),
            ])
        )
    });
    parse("( 1", |r| assert_eq!(r, Err(ParseError::Expected { token: TokenOther::CParen })));
}

#[test]
fn declaration_errors() {
    parse("let = 1;", |r| assert_eq!(r, Err(ParseError::ExpectedName)));
    parse("let x 1;", |r| assert_eq!(r, Err(ParseError::ExpectedInitializer)));
    parse("let x = ;", |r| assert_eq!(r, Err(ParseError::ExpectedExpression)));
    parse("let x = 1", |r| assert_eq!(r, Err(ParseError::ExpectedTerminator)));
    parse("let x =", |r| assert_eq!(r, Err(ParseError::ExpectedExpression)));
}

#[test]
fn parse_stmt_reads_one_statement() {
    let tokens = tokens_of("let a = 1; b;");
    let mut parser = Parser::new(&tokens);
    assert_eq!(parser.parse_stmt(), Ok(Stmt::ConstDecl("a", Some(Expr::IntLit(1)), None, false)));
    assert_eq!(parser.parse_stmt(), Ok(Stmt::Expr(Expr::Variable("b"), false)));
    assert_eq!(parser.parse_stmt(), Err(ParseError::ExpectedExpression));
}

#[test]
fn is_block() {
    assert!(block(vec![], None).is_block());
    assert!(Expr::Function(Box::new(block(vec![], None))).is_block());
    assert!(Expr::Function(Box::new(Expr::Function(Box::new(block(vec![], None))))).is_block());
    assert!(!Expr::Function(Box::new(Expr::IntLit(1))).is_block());
    assert!(!Expr::IntLit(1).is_block());
    assert!(!Expr::Variable("x").is_block());
    assert!(!Expr::Call(Box::new(block(vec![], None)), vec![]).is_block());
}

#[test]
fn source_text_to_instructions() {
    let tokens = tokens_of("package demo; public let x = 7; let f = () { 42 }; { var a = x; a };");
    let mut parser = Parser::new(&tokens);
    let ast = parser.parse().unwrap();
    let mut gen = IRGen::new();
    let prog = gen.generate(&ast).unwrap();
    assert_eq!(prog.get_package_name(), Some("demo"));
    assert_eq!(prog.global_count(), 2);
    let ir: Vec<IRNode> = prog.ir_iter().copied().collect();
    assert_eq!(
        ir,
        vec![
            IRNode::StackAlloc(8),
            IRNode::Push64(42),
            IRNode::Pop64ToStack(8),
            IRNode::StackDealloc(0),
            IRNode::Pop64ToStack(16),
            IRNode::Return { params_size: 0 },
            IRNode::StackAlloc(8),
            IRNode::Push64(7),
            IRNode::StackReadPush64(0),
            IRNode::Pop64ToStack(16),
            IRNode::StackDealloc(8),
            IRNode::StackDealloc(8),
        ]
    );
}

#[test]
fn flags_keep_the_last_argument() {
    let args: VecDeque<String> = ["a.furn", "b.furn"].iter().map(|s| s.to_string()).collect();
    let mut flags = Flags::new("furn".to_string(), args);
    assert_eq!(flags.file_name, None);
    flags.parse();
    assert_eq!(flags.program_name, "furn");
    assert_eq!(flags.file_name, Some("b.furn".to_string()));
    flags.parse();
    assert_eq!(flags.file_name, Some("b.furn".to_string()));
}

#[test]
fn flags_without_arguments() {
    let mut flags = Flags::new("furn".to_string(), VecDeque::new());
    flags.parse();
    assert_eq!(flags.file_name, None);
}

#[test]
fn white_space_is_what_the_standard_library_takes_for_it() {
    let mut count = 0;
    for c in (0..=0x3000u32).filter_map(char::from_u32) {
        let skipped = lex(&c.to_string()) == Ok(vec![]);
        assert_eq!(skipped, c.is_whitespace(), "{:x}", c as u32);
        if skipped {
            count += 1;
            assert_eq!(lex(&format!("a{c}b")), Ok(vec![ident("a"), ident("b")]));
        }
    }
    assert_eq!(count, 25);
    assert!((0x3001..=0x10ffffu32).filter_map(char::from_u32).all(|c| !c.is_whitespace()));
    assert_eq!(lex("a\u{200b}b"), Err(LexError::UnexpectedChar { ch: '\u{200b}', pos: 1 }));
}
