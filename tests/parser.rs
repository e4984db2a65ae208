use spew::{ASTError, ASTSource, KeywordType, Parser, Symbol, Token, TokenSet, AST};

fn parse_source(s: &str) -> Result<Vec<AST>, ASTError> {
    let tokens = Parser::parse(s).expect("source should lex");
    ASTSource::parse_ast(TokenSet::new(tokens))
}

fn ident(s: &str) -> Token {
    Token::Ident(s.to_string())
}

#[test]
fn struct_with_two_properties_keeps_order_and_nullability() {
    let nodes = parse_source("Pair { first: num, second: str? }");
    // Without the keyword the tokens are passed over.
    assert_eq!(nodes.unwrap().len(), 0);
    let nodes = parse_source("struct Pair { first: num, second: str? }").unwrap();
    assert_eq!(nodes.len(), 1);
    match &nodes[0] {
        AST::Struct(s) => {
            assert_eq!(s.name, "Pair");
            assert_eq!(s.properties.len(), 2);
            assert_eq!(s.properties[0].name, "first");
            assert_eq!(s.properties[0].type_of.name(), "num");
            assert!(!s.properties[0].type_of.is_nullable());
            assert_eq!(s.properties[1].name, "second");
            assert_eq!(s.properties[1].type_of.name(), "str");
            assert!(s.properties[1].type_of.is_nullable());
        }
        other => panic!("expected a struct, got {:?}", other),
    }
}

#[test]
fn struct_from_hand_built_tokens() {
    let tokens = vec![
        Token::Keyword(KeywordType::Struct),
        ident("S"),
        Token::Symbol(Symbol::OpenCurly),
        ident("a"),
        Token::Symbol(Symbol::Colon),
        ident("T"),
        Token::Symbol(Symbol::CloseCurly),
    ];
    let nodes = ASTSource::parse_ast(TokenSet::new(tokens)).unwrap();
    assert_eq!(nodes.len(), 1);
    assert!(matches!(&nodes[0], AST::Struct(s) if s.name == "S" && s.properties.len() == 1));
}

#[test]
fn empty_struct_has_no_properties() {
    let nodes = parse_source("struct Empty {}").unwrap();
    assert!(matches!(&nodes[0], AST::Struct(s) if s.name == "Empty" && s.properties.is_empty()));
}

#[test]
fn truncated_struct_fails() {
    let r = parse_source("struct Foo { bar");
    assert!(matches!(r, Err(ASTError::Incomplete)));
}

#[test]
fn struct_without_closing_brace_fails_at_end() {
    let r = parse_source("struct Foo { bar: num");
    assert!(matches!(r, Err(ASTError::UnexpectedToken(None))));
}

#[test]
fn struct_property_without_colon_fails_on_that_token() {
    let r = parse_source("struct Foo { bar num }");
    assert!(matches!(r, Err(ASTError::UnexpectedToken(Some(Token::Ident(ref s)))) if s == "num"));
}

#[test]
fn struct_body_rejects_other_symbols() {
    let r = parse_source("struct Foo { ; }");
    // `;` is not a symbol and is dropped by the lexer, so the body is empty.
    assert!(r.is_ok());
    let r = parse_source("struct Foo { + }");
    assert!(matches!(r, Err(ASTError::UnexpectedToken(Some(Token::Symbol(Symbol::Plus))))));
}

#[test]
fn struct_without_name_fails() {
    let r = parse_source("struct { }");
    assert!(matches!(r, Err(ASTError::UnexpectedToken(Some(Token::Symbol(Symbol::OpenCurly))))));
    let r = parse_source("struct");
    assert!(matches!(r, Err(ASTError::Incomplete)));
}

#[test]
fn commented_struct_parses_to_point() {
    let nodes = parse_source("// a comment\nstruct Point { x: num, y: num? }").unwrap();
    assert_eq!(nodes.len(), 1);
    match &nodes[0] {
        AST::Struct(s) => {
            assert_eq!(s.name, "Point");
            let props: Vec<(String, String, bool)> = s
                .properties
                .iter()
                .map(|p| (p.name.clone(), p.type_of.name().clone(), p.type_of.is_nullable()))
                .collect();
            assert_eq!(
                props,
                vec![
                    ("x".to_string(), "num".to_string(), false),
                    ("y".to_string(), "num".to_string(), true),
                ]
            );
        }
        other => panic!("expected a struct, got {:?}", other),
    }
}

#[test]
fn function_signature_with_argument_and_return_type() {
    let nodes = parse_source("fun add(a: num) -> num").unwrap();
    assert_eq!(nodes.len(), 1);
    match &nodes[0] {
        AST::FunctionStub(f) => {
            assert_eq!(f.name, "add");
            assert!(f.modifiers.is_empty());
            assert_eq!(f.arguments.len(), 1);
            assert_eq!(f.arguments[0].name, "a");
            assert_eq!(f.arguments[0].data_type.name(), "num");
            let ret = f.return_type.as_ref().expect("a return type");
            assert_eq!(ret.name(), "num");
            assert!(!ret.is_nullable());
        }
        other => panic!("expected a function stub, got {:?}", other),
    }
}

#[test]
fn function_signature_without_arguments_or_return_type() {
    let nodes = parse_source("fun run()").unwrap();
    match &nodes[0] {
        AST::FunctionStub(f) => {
            assert_eq!(f.name, "run");
            assert!(f.arguments.is_empty());
            assert!(f.return_type.is_none());
        }
        other => panic!("expected a function stub, got {:?}", other),
    }
}

#[test]
fn function_nullable_return_type() {
    let nodes = parse_source("fun find(k: str) -> obj?").unwrap();
    match &nodes[0] {
        AST::FunctionStub(f) => {
            let ret = f.return_type.as_ref().expect("a return type");
            assert_eq!(ret.name(), "obj");
            assert!(ret.is_nullable());
        }
        other => panic!("expected a function stub, got {:?}", other),
    }
}

#[test]
fn function_broken_arrow_fails() {
    let r = parse_source("fun f() - num");
    assert!(matches!(r, Err(ASTError::UnexpectedToken(Some(Token::Ident(ref s)))) if s == "num"));
}

#[test]
fn function_second_argument_is_not_read() {
    let r = parse_source("fun f(a: num, b: num)");
    assert!(matches!(r, Err(ASTError::UnexpectedToken(Some(Token::Symbol(Symbol::Comma))))));
}

#[test]
fn declarations_keep_their_order() {
    let nodes = parse_source("struct A { } /* c */ fun b() struct C { x: y }").unwrap();
    assert_eq!(nodes.len(), 3);
    assert!(matches!(&nodes[0], AST::Struct(s) if s.name == "A"));
    assert!(matches!(&nodes[1], AST::FunctionStub(f) if f.name == "b"));
    assert!(matches!(&nodes[2], AST::Struct(s) if s.name == "C"));
}

#[test]
fn trait_header_is_read_without_a_node() {
    let tokens = vec![
        Token::Keyword(KeywordType::Trait),
        ident("Shape"),
        Token::Symbol(Symbol::OpenCurly),
        Token::Symbol(Symbol::CloseCurly),
    ];
    let nodes = ASTSource::parse_ast(TokenSet::new(tokens)).unwrap();
    assert!(nodes.is_empty());
    let tokens = vec![Token::Keyword(KeywordType::Trait), ident("Shape")];
    assert!(matches!(ASTSource::parse_ast(TokenSet::new(tokens)), Err(ASTError::Incomplete)));
}

#[test]
fn other_top_level_tokens_are_passed_over() {
    let nodes = parse_source("x = 5; \"s\" 7 pub struct A {}").unwrap();
    assert_eq!(nodes.len(), 1);
    assert!(matches!(&nodes[0], AST::Struct(s) if s.name == "A"));
}

#[test]
fn unsupported_keywords_stop_the_parse() {
    let r = parse_source("impl Foo { fun bar() }");
    assert!(matches!(
        r,
        Err(ASTError::UnexpectedToken(Some(Token::Keyword(KeywordType::Implementation))))
    ));
    let r = parse_source("struct A {} let x = 5");
    assert!(matches!(r, Err(ASTError::UnexpectedToken(Some(Token::Keyword(KeywordType::Let))))));
    let r = parse_source("const y");
    assert!(matches!(r, Err(ASTError::UnexpectedToken(Some(Token::Keyword(KeywordType::Constant))))));
}

#[test]
fn failed_parse_keeps_no_partial_struct() {
    let r = parse_source("struct A { x: num } struct B { y: 5 }");
    assert!(matches!(
        r,
        Err(ASTError::UnexpectedToken(Some(Token::Literal(spew::Literal::Number(ref n))))) if n == "5"
    ));
}

#[test]
fn nodes_and_errors_clone() {
    let nodes = parse_source("struct A { x: num } fun f(a: num) -> num").unwrap();
    let copies: Vec<AST> = nodes.iter().map(|n| n.clone()).collect();
    assert!(matches!(&copies[0], AST::Struct(s) if s.name == "A" && s.properties[0].type_of.name() == "num"));
    assert!(matches!(&copies[1], AST::FunctionStub(f) if f.name == "f" && f.arguments.len() == 1));
    let block = AST::Block(Box::new(copies));
    assert!(matches!(block.clone(), AST::Block(b) if b.len() == 2));
    let e = parse_source("struct").unwrap_err();
    assert!(matches!(e.clone(), ASTError::Incomplete));
}

#[test]
fn token_set_steps_back() {
    let mut set = TokenSet::new(vec![ident("a"), ident("b")]);
    assert_eq!(set.next_token(), Some(ident("a")));
    assert_eq!(set.next_token(), Some(ident("b")));
    assert_eq!(set.next_token(), None);
    set.back(2);
    assert_eq!(set.next_token(), Some(ident("a")));
}
