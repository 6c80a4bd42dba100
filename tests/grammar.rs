use remy_core::ast::{
    BinaryOperator, BindingLeftHand, ConstrainedType, Expr, File, Literal, TopLevelDefinition,
    TypeName,
};
use remy_core::lexer::{lex, Token};
use remy_core::parser::{parse, parse_tokens, ParseError, Production};
use remy_core::types::Type;

fn only_definition(src: &str) -> TopLevelDefinition {
    let mut file = parse(src).unwrap();
    assert_eq!(file.definitions.len(), 1);
    file.definitions.pop().unwrap()
}

fn body_of(src: &str) -> Vec<Expr> {
    match only_definition(src) {
        TopLevelDefinition::Binding { rhs: Literal::Function { body, .. }, .. } => body,
        other => panic!("not a function binding: {:?}", other),
    }
}

fn named(n: &str) -> TypeName {
    TypeName::Named(n.into())
}

#[test]
fn empty_file_has_no_definitions() {
    assert_eq!(parse("").unwrap(), File { definitions: vec![] });
    assert_eq!(parse("  // nothing\n").unwrap(), File { definitions: vec![] });
}

#[test]
fn unrecognized_character_stops_before_parsing() {
    match parse("main :: @") {
        Err(ParseError::UnrecognizedToken(range)) => assert_eq!(range, 8..9),
        other => panic!("unexpected: {:?}", other),
    }
    match parse("( é") {
        Err(ParseError::UnrecognizedToken(range)) => assert_eq!(range, 2..4),
        other => panic!("unexpected: {:?}", other),
    }
}

#[test]
fn implicit_return_type_is_unit() {
    let plain = only_definition("f :: (x: t) { x }");
    let generic = only_definition("f<t: show> :: (x: t) { x }");
    for def in [plain, generic] {
        match def {
            TopLevelDefinition::Binding { rhs: Literal::Function { ret_type, .. }, .. } => {
                assert_eq!(ret_type, named("unit"))
            }
            other => panic!("not a function binding: {:?}", other),
        }
    }
}

#[test]
fn explicit_return_type_is_kept() {
    match only_definition("f :: () [int] { }") {
        TopLevelDefinition::Binding { rhs: Literal::Function { args, ret_type, body }, .. } => {
            assert!(args.is_empty());
            assert!(body.is_empty());
            assert_eq!(ret_type, TypeName::Slice(Box::new(named("int"))));
        }
        other => panic!("not a function binding: {:?}", other),
    }
}

#[test]
fn top_level_literals_of_every_kind() {
    let file = parse("a :: 5 b :: \"hi\" c :: true d :: false e :: 2.5").unwrap();
    let rhs: Vec<Literal> = file
        .definitions
        .into_iter()
        .map(|d| match d {
            TopLevelDefinition::Binding { rhs, .. } => rhs,
            other => panic!("not a binding: {:?}", other),
        })
        .collect();
    assert_eq!(
        rhs,
        vec![
            Literal::Int(5),
            Literal::String("hi".into()),
            Literal::Bool(true),
            Literal::Bool(false),
            Literal::Float("2.5".into()),
        ]
    );
}

#[test]
fn integer_range_and_float_fallback() {
    assert_eq!(
        body_of("f :: () { 9223372036854775807 }"),
        vec![Expr::Literal(Literal::Int(9223372036854775807))]
    );
    assert_eq!(
        body_of("f :: () { 9223372036854775808 }"),
        vec![Expr::Literal(Literal::Float("9223372036854775808".into()))]
    );
    assert_eq!(body_of("f :: () { 007 }"), vec![Expr::Literal(Literal::Int(7))]);
}

#[test]
fn constraints_are_joined_by_ampersand() {
    match only_definition("f<t: a & b, u> :: (x: t) { x }") {
        TopLevelDefinition::Binding { lhs, .. } => assert_eq!(
            lhs,
            BindingLeftHand {
                name: "f".into(),
                type_args: vec![
                    ConstrainedType {
                        name: "t".into(),
                        constraints: vec!["a".into(), "b".into()]
                    },
                    ConstrainedType { name: "u".into(), constraints: vec![] },
                ]
            }
        ),
        other => panic!("not a binding: {:?}", other),
    }
}

#[test]
fn nested_function_types() {
    assert_eq!(
        only_definition("extern f :: ((a) b, [c]) () d"),
        TopLevelDefinition::Extern {
            name: "f".into(),
            rhs: TypeName::Function {
                args: vec![
                    TypeName::Function { args: vec![named("a")], ret: Box::new(named("b")) },
                    TypeName::Slice(Box::new(named("c"))),
                ],
                ret: Box::new(TypeName::Function { args: vec![], ret: Box::new(named("d")) }),
            }
        }
    );
}

#[test]
fn subtraction_is_left_associative() {
    assert_eq!(
        body_of("f :: () { a - b - c }"),
        vec![Expr::BinaryOp {
            op: BinaryOperator::Subtract,
            lhs: Box::new(Expr::BinaryOp {
                op: BinaryOperator::Subtract,
                lhs: Box::new(Expr::Ident("a".into())),
                rhs: Box::new(Expr::Ident("b".into())),
            }),
            rhs: Box::new(Expr::Ident("c".into())),
        }]
    );
}

#[test]
fn binding_takes_the_whole_expression() {
    assert_eq!(
        body_of("f :: () { x :: 1 + 2 }"),
        vec![Expr::Binding {
            ident: "x".into(),
            value: Box::new(Expr::BinaryOp {
                op: BinaryOperator::Add,
                lhs: Box::new(Expr::Literal(Literal::Int(1))),
                rhs: Box::new(Expr::Literal(Literal::Int(2))),
            }),
        }]
    );
}

#[test]
fn function_literal_as_expression() {
    assert_eq!(
        body_of("f :: () { g :: (y: int) int { y } }"),
        vec![Expr::Binding {
            ident: "g".into(),
            value: Box::new(Expr::Literal(Literal::Function {
                args: vec![remy_core::ast::AnnotatedIdent { name: "y".into(), ty: named("int") }],
                ret_type: named("int"),
                body: vec![Expr::Ident("y".into())],
            })),
        }]
    );
}

#[test]
fn match_arms_keep_source_order() {
    assert_eq!(
        body_of("f :: () { match n | 1 => a | \"s\" => b | false => c }"),
        vec![Expr::Match {
            target: Box::new(Expr::Ident("n".into())),
            conditions: vec![
                (Literal::Int(1), Expr::Ident("a".into())),
                (Literal::String("s".into()), Expr::Ident("b".into())),
                (Literal::Bool(false), Expr::Ident("c".into())),
            ],
        }]
    );
}

#[test]
fn match_without_arms_fails() {
    match parse("f :: () { match x }") {
        Err(ParseError::ParseFailed(errs)) => assert!(!errs.is_empty()),
        other => panic!("unexpected: {:?}", other),
    }
}

#[test]
fn failure_names_the_token_found() {
    let src = "f :: (x: t) { g(x,) }";
    let toks = lex(src).unwrap();
    match parse_tokens(&toks) {
        Err(errs) => {
            assert!(!errs.is_empty());
            for e in &errs {
                assert_eq!(e.position, 12);
                assert_eq!(e.found, Some(Token::RParen));
            }
            assert!(errs.iter().any(|e| e.expected == Production::Expr));
        }
        other => panic!("unexpected: {:?}", other),
    }
}

#[test]
fn failure_at_end_of_input_finds_nothing() {
    match parse("f :: (x: t) {") {
        Err(ParseError::ParseFailed(errs)) => {
            assert!(!errs.is_empty());
            for e in &errs {
                assert_eq!(e.position, 8);
                assert_eq!(e.found, None);
            }
        }
        other => panic!("unexpected: {:?}", other),
    }
}

#[test]
fn trailing_tokens_fail_at_end_of_file() {
    match parse("f :: 1 ;") {
        Err(ParseError::ParseFailed(errs)) => {
            assert!(errs.iter().all(|e| e.position == 3 && e.found == Some(Token::SemiColon)));
            assert!(errs.iter().any(|e| e.expected == Production::EndOfInput));
        }
        other => panic!("unexpected: {:?}", other),
    }
}

fn failure_records(src: &str) -> Vec<remy_core::parser::Mismatch<'_>> {
    match parse(src) {
        Err(ParseError::ParseFailed(errs)) => errs,
        other => panic!("unexpected: {:?}", other),
    }
}

#[test]
fn empty_generic_list_is_rejected() {
    assert!(!failure_records("f<> :: () { x }").is_empty());
}

#[test]
fn empty_constraint_list_is_rejected() {
    assert!(!failure_records("f<t:> :: () { x }").is_empty());
}

#[test]
fn nonempty_lists_still_parse() {
    match only_definition("f<t: a> :: () { x }") {
        TopLevelDefinition::Binding { lhs, .. } => assert_eq!(lhs.type_args.len(), 1),
        other => panic!("not a binding: {:?}", other),
    }
}

#[test]
fn lone_double_colon_fails_at_its_token() {
    let errs = failure_records("::");
    assert!(!errs.is_empty());
    assert!(errs.iter().all(|e| e.position == 0 && e.found == Some(Token::DoubleColon)));
}

#[test]
fn lone_colon_fails_at_its_token() {
    let errs = failure_records(":");
    assert!(!errs.is_empty());
    assert!(errs.iter().all(|e| e.position == 0 && e.found == Some(Token::Colon)));
}

#[test]
fn trailing_paren_is_the_token_found() {
    let errs = failure_records("f :: () { x } )");
    assert!(!errs.is_empty());
    assert!(errs.iter().all(|e| e.position == 7 && e.found == Some(Token::RParen)));
}

#[test]
fn unfinished_definition_fails_at_end_of_input() {
    let errs = failure_records("main :: (");
    assert!(!errs.is_empty());
    assert!(errs.iter().all(|e| e.position == 3 && e.found.is_none()));
}

#[test]
fn repeated_parses_give_the_same_records() {
    let src = "f :: (x: t) { g(x,) }";
    let first = format!("{:?}", parse(src));
    let _ = parse("other :: () { y }");
    let second = format!("{:?}", parse(src));
    assert_eq!(first, second);
}

#[test]
fn compile_error_carries_the_parse_error() {
    let err = remy_core::compiler::CompileError::ParseError(parse("@").unwrap_err());
    match err {
        remy_core::compiler::CompileError::ParseError(ParseError::UnrecognizedToken(r)) => {
            assert_eq!(r, 0..1)
        }
        other => panic!("unexpected: {:?}", other),
    }
}

#[test]
fn spanned_keeps_value_and_range() {
    let s = remy_core::parser::Spanned(Token::Comma, 3..4);
    assert_eq!(s.0, Token::Comma);
    assert_eq!(s.1, 3..4);
}

#[test]
fn struct_type_maps_field_names() {
    let mut fields = std::collections::HashMap::new();
    fields.insert("xs".to_string(), Type::Slice(Box::new(Type::Struct { fields: Default::default() })));
    let t = Type::Struct { fields };
    match &t {
        Type::Struct { fields } => assert_eq!(fields.len(), 1),
        _ => unreachable!(),
    }
}
