use spew::{KeywordType, Literal, Modifier, Parser, ParserError, Symbol, Token};

fn ident(s: &str) -> Token {
    Token::Ident(s.to_string())
}

fn lex(s: &str) -> Vec<Token> {
    Parser::parse(s).expect("source should lex")
}

#[test]
fn identifier_alone_is_one_ident() {
    assert_eq!(lex("abc"), vec![ident("abc")]);
    assert_eq!(lex("x1_y2"), vec![ident("x1_y2")]);
    assert_eq!(lex("Point"), vec![ident("Point")]);
    assert_eq!(lex("a"), vec![ident("a")]);
}

#[test]
fn non_ascii_letters_form_identifiers() {
    assert_eq!(lex("été"), vec![ident("été")]);
    assert_eq!(lex("x٣"), vec![ident("x٣")]);
}

#[test]
fn reserved_words_are_keywords() {
    let cases = [
        ("const", KeywordType::Constant),
        ("fun", KeywordType::Function),
        ("let", KeywordType::Let),
        ("impl", KeywordType::Implementation),
        ("struct", KeywordType::Struct),
        ("pub", KeywordType::Modifier(Modifier::Public)),
        ("static", KeywordType::Modifier(Modifier::Static)),
        ("inline", KeywordType::Modifier(Modifier::Inline)),
        ("compile", KeywordType::Modifier(Modifier::Compile)),
        ("mut", KeywordType::Modifier(Modifier::Mutable)),
    ];
    for (word, kind) in cases {
        assert_eq!(lex(word), vec![Token::Keyword(kind)], "{}", word);
    }
}

#[test]
fn words_close_to_keywords_are_identifiers() {
    assert_eq!(lex("structs"), vec![ident("structs")]);
    assert_eq!(lex("fn"), vec![ident("fn")]);
    assert_eq!(lex("Const"), vec![ident("Const")]);
    assert_eq!(lex("trait"), vec![ident("trait")]);
}

#[test]
fn word_literals() {
    assert_eq!(
        lex("true false null ndef"),
        vec![
            Token::Literal(Literal::Boolean(true)),
            Token::Literal(Literal::Boolean(false)),
            Token::Literal(Literal::Null),
            Token::Literal(Literal::Undefined),
        ]
    );
}

#[test]
fn quoted_string_loses_its_quotes() {
    assert_eq!(lex("\"abc\""), vec![Token::Literal(Literal::String("abc".to_string()))]);
    assert_eq!(lex("'abc'"), vec![Token::Literal(Literal::String("abc".to_string()))]);
}

#[test]
fn string_quotes_of_the_other_kind_and_escapes_stay() {
    assert_eq!(lex("\"it's\""), vec![Token::Literal(Literal::String("it's".to_string()))]);
    assert_eq!(lex(r#""a\"b""#), vec![Token::Literal(Literal::String(r#"a\"b"#.to_string()))]);
    assert_eq!(
        lex(r#""a\\" x"#),
        vec![Token::Literal(Literal::String(r#"a\\"#.to_string())), ident("x")]
    );
}

#[test]
fn unterminated_string_runs_to_the_end() {
    assert_eq!(lex("\"abc def"), vec![Token::Literal(Literal::String("abc def".to_string()))]);
}

#[test]
fn whitespace_between_tokens_yields_nothing() {
    let expected = vec![ident("a"), ident("b")];
    assert_eq!(lex("a b"), expected);
    assert_eq!(lex("a \t\n  b"), expected);
    assert_eq!(lex("a\r\nb"), expected);
    assert_eq!(lex("  a\n\n\tb  "), expected);
    assert_eq!(lex("x   {"), vec![ident("x"), Token::Symbol(Symbol::OpenCurly)]);
}

#[test]
fn carriage_return_alone_is_absorbed() {
    assert_eq!(lex("ab\rcd"), vec![ident("abcd")]);
    assert_eq!(lex("\r\r"), vec![]);
}

#[test]
fn empty_and_blank_sources_have_no_tokens() {
    assert_eq!(lex(""), vec![]);
    assert_eq!(lex(" \n\t "), vec![]);
}

#[test]
fn numbers_keep_one_decimal_point() {
    assert_eq!(lex("42"), vec![Token::Literal(Literal::Number("42".to_string()))]);
    assert_eq!(lex("3.14"), vec![Token::Literal(Literal::Number("3.14".to_string()))]);
    assert_eq!(
        lex("1.2.3"),
        vec![
            Token::Literal(Literal::Number("1.2".to_string())),
            Token::Symbol(Symbol::Period),
            Token::Literal(Literal::Number("3".to_string())),
        ]
    );
    assert_eq!(lex("7."), vec![Token::Literal(Literal::Number("7.".to_string()))]);
}

#[test]
fn symbols_are_single_characters() {
    assert_eq!(
        lex("{}()[]+-<>_!=&|.*%:,?"),
        vec![
            Token::Symbol(Symbol::OpenCurly),
            Token::Symbol(Symbol::CloseCurly),
            Token::Symbol(Symbol::OpenParen),
            Token::Symbol(Symbol::CloseParen),
            Token::Symbol(Symbol::OpenSquare),
            Token::Symbol(Symbol::CloseSquare),
            Token::Symbol(Symbol::Plus),
            Token::Symbol(Symbol::Minus),
            Token::Symbol(Symbol::Left),
            Token::Symbol(Symbol::Right),
            Token::Symbol(Symbol::Underscore),
            Token::Symbol(Symbol::Exclamation),
            Token::Symbol(Symbol::Equals),
            Token::Symbol(Symbol::And),
            Token::Symbol(Symbol::Pipe),
            Token::Symbol(Symbol::Period),
            Token::Symbol(Symbol::Multiply),
            Token::Symbol(Symbol::Percent),
            Token::Symbol(Symbol::Colon),
            Token::Symbol(Symbol::Comma),
            Token::Symbol(Symbol::Question),
        ]
    );
    assert_eq!(lex("->"), vec![Token::Symbol(Symbol::Minus), Token::Symbol(Symbol::Right)]);
}

#[test]
fn unknown_characters_are_dropped() {
    assert_eq!(lex("a @ # b"), vec![ident("a"), ident("b")]);
}

#[test]
fn line_comment_runs_to_end_of_line() {
    assert_eq!(lex("// hello\nx"), vec![Token::Comment(" hello".to_string()), ident("x")]);
    assert_eq!(lex("//"), vec![Token::Comment(String::new())]);
}

#[test]
fn block_comment_runs_to_its_close() {
    assert_eq!(lex("/* a*b */x"), vec![Token::Comment(" a*b ".to_string()), ident("x")]);
    assert_eq!(lex("/* a **/"), vec![Token::Comment(" a *".to_string())]);
    assert_eq!(lex("/* open"), vec![Token::Comment(" open".to_string())]);
    assert_eq!(lex("/* star *"), vec![Token::Comment(" star *".to_string())]);
}

#[test]
fn slash_at_end_is_an_error() {
    assert_eq!(Parser::parse("x /"), Err(ParserError::Expected("/ for comment at".to_string())));
}

#[test]
fn slash_before_other_character_is_an_error() {
    assert_eq!(
        Parser::parse("a / b"),
        Err(ParserError::UnexpectedToken(
            ' ',
            "Expected '/' for line comment or '*' for multiline comment".to_string()
        ))
    );
    assert!(matches!(Parser::parse("/x"), Err(ParserError::UnexpectedToken('x', _))));
}

#[test]
fn commented_struct_lexes_in_order() {
    let tokens = lex("// a comment\nstruct Point { x: num, y: num? }");
    assert_eq!(
        tokens,
        vec![
            Token::Comment(" a comment".to_string()),
            Token::Keyword(KeywordType::Struct),
            ident("Point"),
            Token::Symbol(Symbol::OpenCurly),
            ident("x"),
            Token::Symbol(Symbol::Colon),
            ident("num"),
            Token::Symbol(Symbol::Comma),
            ident("y"),
            Token::Symbol(Symbol::Colon),
            ident("num"),
            Token::Symbol(Symbol::Question),
            Token::Symbol(Symbol::CloseCurly),
        ]
    );
}

#[test]
fn symbols_give_back_their_characters() {
    let text = "{}()[]+-<>_!=&|.*%:,?";
    let tokens = lex(text);
    let back: String = tokens
        .iter()
        .map(|t| match t {
            Token::Symbol(s) => s.as_char(),
            other => panic!("expected a symbol, got {:?}", other),
        })
        .collect();
    assert_eq!(back, text);
}

#[test]
fn whitespace_after_symbols_and_strings_yields_nothing() {
    let expected = vec![Token::Symbol(Symbol::Comma), ident("b")];
    assert_eq!(lex(", b"), expected);
    assert_eq!(lex(",\r\n\t b"), expected);
    let expected = vec![Token::Literal(Literal::String("ab".to_string())), ident("b")];
    assert_eq!(lex("\"ab\" b"), expected);
    assert_eq!(lex("\"ab\"\r\n  b"), expected);
}
