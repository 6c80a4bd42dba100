use remy_core::ast::{
    AnnotatedIdent, BinaryOperator, BindingLeftHand, ConstrainedType, Expr, File, Literal,
    TopLevelDefinition, TypeName,
};
use remy_core::lexer::{lex, Token};
use remy_core::parser::{parse, ParseError, Production};

const FULL_EXAMPLE: &str = r#"
// hi
/*
 this too
*/
main :: (args: [string]) => {
    println("Hello to:");
    5+5* 6 / 90 - 20;
    // println("${args[0]!!}");
    x :: true;
    match x 
    | true => println("this will always happen")
    | false => println("this will never happen")
    ;
}
"#;

fn lex_all(src: &str) -> Vec<Token<'_>> {
    match lex(src) {
        Ok(toks) => toks,
        Err(span) => panic!("Failed to parse@{:?}: {}", span, &src[span.clone()]),
    }
}

fn call(name: &str, args: Vec<Expr>) -> Expr {
    Expr::FunctionCall(Box::new(Expr::Ident(name.into())), args)
}

fn num(n: i64) -> Box<Expr> {
    Box::new(Expr::Literal(Literal::Int(n)))
}

fn binop(op: BinaryOperator, lhs: Box<Expr>, rhs: Box<Expr>) -> Box<Expr> {
    Box::new(Expr::BinaryOp { op, lhs, rhs })
}

fn main_args() -> Vec<AnnotatedIdent> {
    vec![AnnotatedIdent {
        name: "args".into(),
        ty: TypeName::Slice(Box::new(TypeName::Named("string".into()))),
    }]
}

#[test]
fn lexing() {
    let toks = lex_all(FULL_EXAMPLE);
    assert_eq!(
        toks,
        vec![
            Token::Ident("main"),
            Token::DoubleColon,
            Token::LParen,
            Token::Ident("args"),
            Token::Colon,
            Token::LBracket,
            Token::Ident("string"),
            Token::RBracket,
            Token::RParen,
            Token::FatArrow,
            Token::LBrace,
            Token::Ident("println"),
            Token::LParen,
            Token::NormalString("\"Hello to:\""),
            Token::RParen,
            Token::SemiColon,
            Token::Number("5"),
            Token::Plus,
            Token::Number("5"),
            Token::Multiply,
            Token::Number("6"),
            Token::Divide,
            Token::Number("90"),
            Token::Minus,
            Token::Number("20"),
            Token::SemiColon,
            Token::Ident("x"),
            Token::DoubleColon,
            Token::Ident("true"),
            Token::SemiColon,
            Token::Match,
            Token::Ident("x"),
            Token::Bar,
            Token::Ident("true"),
            Token::FatArrow,
            Token::Ident("println"),
            Token::LParen,
            Token::NormalString("\"this will always happen\""),
            Token::RParen,
            Token::Bar,
            Token::Ident("false"),
            Token::FatArrow,
            Token::Ident("println"),
            Token::LParen,
            Token::NormalString("\"this will never happen\""),
            Token::RParen,
            Token::SemiColon,
            Token::RBrace,
        ]
    );
}

#[test]
fn parsing_simple() {
    assert_eq!(
        parse(
            r#"
    // hi
    /*
     this too
    */
    main :: (args: [string]) {
        println("Hello world")
    }
        "#
        )
        .unwrap(),
        File {
            definitions: vec![TopLevelDefinition::Binding {
                lhs: BindingLeftHand {
                    name: "main".into(),
                    type_args: Vec::new()
                },
                rhs: Literal::Function {
                    args: main_args(),
                    ret_type: TypeName::Named("unit".into()),
                    body: vec![call(
                        "println",
                        vec![Expr::Literal(Literal::String("Hello world".into()))]
                    )]
                }
            }]
        }
    )
}

#[test]
fn parsing_binary_operations() {
    assert_eq!(
        parse(
            r#"
    // hi
    /*
     this too
    */
    main :: (args: [string]) {
        println(5+5*6);
        println(5+5+4+4-4*6*20/15)
    }
        "#
        )
        .unwrap(),
        File {
            definitions: vec![TopLevelDefinition::Binding {
                lhs: BindingLeftHand {
                    name: "main".into(),
                    type_args: Vec::new()
                },
                rhs: Literal::Function {
                    ret_type: TypeName::Named("unit".into()),
                    args: main_args(),
                    body: vec![
                        call(
                            "println",
                            vec![*binop(
                                BinaryOperator::Add,
                                num(5),
                                binop(BinaryOperator::Multiply, num(5), num(6))
                            )]
                        ),
                        call(
                            "println",
                            vec![*binop(
                                BinaryOperator::Subtract,
                                binop(
                                    BinaryOperator::Add,
                                    binop(
                                        BinaryOperator::Add,
                                        binop(BinaryOperator::Add, num(5), num(5)),
                                        num(4)
                                    ),
                                    num(4)
                                ),
                                binop(
                                    BinaryOperator::Divide,
                                    binop(
                                        BinaryOperator::Multiply,
                                        binop(BinaryOperator::Multiply, num(4), num(6)),
                                        num(20)
                                    ),
                                    num(15)
                                )
                            )]
                        )
                    ]
                }
            }]
        }
    )
}

#[test]
fn parsing_match() {
    assert_eq!(
        parse(
            r#"
    // hi
    /*
     this too
    */
    main :: (args: [string]) {
        x :: true;
        match x 
        | true => println("this will always happen")
        | false => println("this will never happen")
        
    }
        "#
        )
        .unwrap(),
        File {
            definitions: vec![TopLevelDefinition::Binding {
                lhs: BindingLeftHand {
                    name: "main".into(),
                    type_args: Vec::new()
                },
                rhs: Literal::Function {
                    ret_type: TypeName::Named("unit".into()),
                    args: main_args(),
                    body: vec![
                        Expr::Binding {
                            ident: "x".into(),
                            value: Box::new(Expr::Literal(Literal::Bool(true)))
                        },
                        Expr::Match {
                            target: Box::new(Expr::Ident("x".into())),
                            conditions: vec![
                                (
                                    Literal::Bool(true),
                                    call(
                                        "println",
                                        vec![Expr::Literal(Literal::String(
                                            "this will always happen".into()
                                        ))]
                                    )
                                ),
                                (
                                    Literal::Bool(false),
                                    call(
                                        "println",
                                        vec![Expr::Literal(Literal::String(
                                            "this will never happen".into()
                                        ))]
                                    )
                                )
                            ]
                        }
                    ]
                }
            }]
        }
    )
}

#[test]
fn parsing_generic() {
    assert_eq!(
        parse(
            r#"
    // hi
    /*
     this too
    */
    identity<t> :: (x: t) t {
        x
    }
        "#
        )
        .unwrap(),
        File {
            definitions: vec![TopLevelDefinition::Binding {
                lhs: BindingLeftHand {
                    name: "identity".into(),
                    type_args: vec![ConstrainedType {
                        name: "t".into(),
                        constraints: vec![]
                    }]
                },
                rhs: Literal::Function {
                    args: vec![AnnotatedIdent {
                        name: "x".into(),
                        ty: TypeName::Named("t".into())
                    }],
                    ret_type: TypeName::Named("t".into()),
                    body: vec![Expr::Ident("x".into())]
                }
            }]
        }
    )
}

#[test]
fn parsing_extern() {
    assert_eq!(
        parse(
            r#"
    // hi
    /*
     this too
    */
    extern printstr :: (string) unit
    println<t: string> :: (x: t) {
        printstr(x)
    }
        "#
        )
        .unwrap(),
        File {
            definitions: vec![
                TopLevelDefinition::Extern {
                    name: "printstr".into(),
                    rhs: TypeName::Function {
                        args: vec![TypeName::Named("string".into())],
                        ret: Box::new(TypeName::Named("unit".into()))
                    }
                },
                TopLevelDefinition::Binding {
                    lhs: BindingLeftHand {
                        name: "println".into(),
                        type_args: vec![ConstrainedType {
                            name: "t".into(),
                            constraints: vec!["string".into()]
                        }]
                    },
                    rhs: Literal::Function {
                        ret_type: TypeName::Named("unit".into()),
                        args: vec![AnnotatedIdent {
                            name: "x".into(),
                            ty: TypeName::Named("t".into())
                        }],
                        body: vec![call("printstr", vec![Expr::Ident("x".into())])]
                    }
                }
            ]
        }
    )
}
