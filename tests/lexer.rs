use minilang::common::{Builtin, ErrorKind, Keyword, Position, Token};
use minilang::lexer::{tokenize, Lexer};

fn single(src: &str) -> (Token, Position) {
    let mut lexer = Lexer::new(src);
    let first = lexer.next_token().expect("a token");
    let (eof, _) = lexer.next_token().expect("the end");
    assert_eq!(eof, Token::EOF);
    first
}

#[test]
fn each_token_class_lexes_alone_at_one_one() {
    let cases: Vec<(&str, Token)> = vec![
        ("fn", Token::Keyword(Keyword::Fn)),
        ("extern", Token::Keyword(Keyword::Extern)),
        ("var", Token::Keyword(Keyword::Var)),
        ("return", Token::Keyword(Keyword::Return)),
        ("int", Token::Keyword(Keyword::Int)),
        ("bool", Token::Keyword(Keyword::Bool)),
        ("true", Token::Keyword(Keyword::True)),
        ("false", Token::Keyword(Keyword::False)),
        ("if", Token::Keyword(Keyword::If)),
        ("else", Token::Keyword(Keyword::Else)),
        ("while", Token::Keyword(Keyword::While)),
        ("print", Token::Builtin(Builtin::Print)),
        ("input", Token::Builtin(Builtin::Input)),
        ("(", Token::LeftParen),
        (")", Token::RightParen),
        ("{", Token::LeftBrace),
        ("}", Token::RightBrace),
        (":", Token::Colon),
        (",", Token::Comma),
        (";", Token::Semicolon),
        ("=", Token::Equals),
        ("+", Token::Plus),
        ("-", Token::Minus),
        ("*", Token::Asterisk),
        ("/", Token::Slash),
        ("==", Token::Equality),
        ("!=", Token::NotEqual),
        ("<", Token::LessThan),
        ("<=", Token::LessThanOrEqual),
        (">", Token::GreaterThan),
        (">=", Token::GreaterThanOrEqual),
        ("\"hi there\"", Token::StringLiteral("hi there".to_string())),
        ("42", Token::NumberLiteral(42)),
        ("count_2", Token::Identifier("count_2".to_string())),
        ("_x", Token::Identifier("_x".to_string())),
    ];
    for (src, expected) in cases {
        let (tok, pos) = single(src);
        assert_eq!(tok, expected, "lexing {:?}", src);
        assert_eq!(pos, Position::new(1, 1), "position of {:?}", src);
    }
}

#[test]
fn end_of_input_repeats_and_sits_past_the_text() {
    let mut lexer = Lexer::new("ab");
    let (t, _) = lexer.next_token().unwrap();
    assert_eq!(t, Token::Identifier("ab".to_string()));
    for _ in 0..3 {
        let (t, p) = lexer.next_token().unwrap();
        assert_eq!(t, Token::EOF);
        assert_eq!(p, Position::new(1, 3));
    }
}

#[test]
fn lines_and_columns_follow_newlines() {
    let toks = tokenize("var x\n  = 10;\n\tprint(x)").unwrap();
    let positions: Vec<(usize, usize)> = toks.iter().map(|(_, p)| (p.line, p.column)).collect();
    assert_eq!(
        positions,
        vec![(1, 1), (1, 5), (2, 3), (2, 5), (2, 7), (3, 2), (3, 7), (3, 8), (3, 9)]
    );
}

#[test]
fn two_character_operators_win_over_one() {
    let toks = tokenize("a<=b<c==d=e!=f>=g>h").unwrap();
    let kinds: Vec<Token> = toks.into_iter().map(|(t, _)| t).collect();
    assert_eq!(
        kinds,
        vec![
            Token::Identifier("a".to_string()),
            Token::LessThanOrEqual,
            Token::Identifier("b".to_string()),
            Token::LessThan,
            Token::Identifier("c".to_string()),
            Token::Equality,
            Token::Identifier("d".to_string()),
            Token::Equals,
            Token::Identifier("e".to_string()),
            Token::NotEqual,
            Token::Identifier("f".to_string()),
            Token::GreaterThanOrEqual,
            Token::Identifier("g".to_string()),
            Token::GreaterThan,
            Token::Identifier("h".to_string()),
        ]
    );
}

#[test]
fn digits_then_letters_are_two_tokens() {
    let toks = tokenize("12abc").unwrap();
    assert_eq!(toks[0].0, Token::NumberLiteral(12));
    assert_eq!(toks[1].0, Token::Identifier("abc".to_string()));
    assert_eq!(toks[1].1, Position::new(1, 3));
}

#[test]
fn largest_integer_literal_fits() {
    let (t, _) = single("9223372036854775807");
    assert_eq!(t, Token::NumberLiteral(i64::MAX));
}

#[test]
fn integer_overflow_is_a_lex_error() {
    let err = tokenize("x = 9223372036854775808").unwrap_err();
    assert_eq!(err.kind, ErrorKind::Lex);
    assert_eq!(err.position, Position::new(1, 5));
}

#[test]
fn bare_bang_is_a_lex_error() {
    let err = tokenize("a !b").unwrap_err();
    assert_eq!(err.kind, ErrorKind::Lex);
    assert_eq!(err.position, Position::new(1, 3));
}

#[test]
fn unexpected_character_is_a_lex_error() {
    let err = tokenize("\n  @").unwrap_err();
    assert_eq!(err.kind, ErrorKind::Lex);
    assert_eq!(err.position, Position::new(2, 3));
}

#[test]
fn unterminated_string_is_a_lex_error() {
    let err = tokenize("print(\"abc").unwrap_err();
    assert_eq!(err.kind, ErrorKind::Lex);
    assert_eq!(err.position, Position::new(1, 7));
}

#[test]
fn string_contents_are_verbatim() {
    let (t, _) = single("\"a \\n b\"");
    assert_eq!(t, Token::StringLiteral("a \\n b".to_string()));
}

#[test]
fn empty_input_is_only_the_end() {
    assert!(tokenize("").unwrap().is_empty());
    assert!(tokenize(" \t\r\n ").unwrap().is_empty());
    let (t, p) = Lexer::new("").next_token().unwrap();
    assert_eq!(t, Token::EOF);
    assert_eq!(p, Position::new(1, 1));
}

#[test]
fn error_describes_its_position_and_message() {
    let err = tokenize("\n\n   $").unwrap_err();
    assert_eq!(err.describe(), format!("Error at 3:4\n{}", err.message));
    assert_eq!(err.message, "Unexpected character");
}
