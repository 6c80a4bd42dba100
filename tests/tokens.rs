use remy_core::lexer::{lex, LogosState, Token};

#[test]
fn double_colon_is_one_token() {
    assert_eq!(lex("::").unwrap(), vec![Token::DoubleColon]);
    assert_eq!(lex(":").unwrap(), vec![Token::Colon]);
    assert_eq!(lex(":::").unwrap(), vec![Token::DoubleColon, Token::Colon]);
    assert_eq!(lex(": :").unwrap(), vec![Token::Colon, Token::Colon]);
}

#[test]
fn relexing_gives_same_tokens() {
    let src = "f<t: a & b> :: (x: t) t { g(x, 1.5) }";
    let first = lex(src).unwrap();
    let copy = String::from(src);
    let second = lex(&copy).unwrap();
    assert_eq!(first, second);
    assert_eq!(first.len(), 23);
}

#[test]
fn empty_and_blank_texts_have_no_tokens() {
    assert_eq!(lex("").unwrap(), vec![]);
    assert_eq!(lex(" \t\r\n").unwrap(), vec![]);
    assert_eq!(lex("// only a comment").unwrap(), vec![]);
    assert_eq!(lex("/* block */").unwrap(), vec![]);
    assert_eq!(lex("//\n").unwrap(), vec![]);
}

#[test]
fn keywords_take_priority_over_identifiers() {
    assert_eq!(lex("match").unwrap(), vec![Token::Match]);
    assert_eq!(lex("extern").unwrap(), vec![Token::Extern]);
    assert_eq!(lex("matches").unwrap(), vec![Token::Ident("matches")]);
    assert_eq!(lex("true _x9").unwrap(), vec![Token::Ident("true"), Token::Ident("_x9")]);
}

#[test]
fn numbers_keep_their_text() {
    assert_eq!(lex("12.5").unwrap(), vec![Token::Number("12.5")]);
    assert_eq!(lex("007").unwrap(), vec![Token::Number("007")]);
    assert_eq!(lex("5.x").unwrap_err(), 1..2);
    assert_eq!(lex("5 .5").unwrap_err(), 2..3);
}

#[test]
fn strings_keep_their_quotes() {
    assert_eq!(lex("\"a b\"").unwrap(), vec![Token::NormalString("\"a b\"")]);
    assert_eq!(lex("\"a\\\"b\"").unwrap(), vec![Token::NormalString("\"a\\\"b\"")]);
    assert_eq!(lex("\"\"").unwrap(), vec![Token::NormalString("\"\"")]);
    assert_eq!(lex("\"héllo\"").unwrap(), vec![Token::NormalString("\"héllo\"")]);
    assert_eq!(
        lex("\"a\" \"b\"").unwrap(),
        vec![Token::NormalString("\"a\""), Token::NormalString("\"b\"")]
    );
}

#[test]
fn string_with_splice_or_no_end_is_unrecognized() {
    assert_eq!(lex("\"${x}\"").unwrap_err(), 0..1);
    assert_eq!(lex("x \"open").unwrap_err(), 2..3);
}

#[test]
fn comments_and_whitespace_are_skipped() {
    assert_eq!(
        lex("a // b c\n d /* e\n f */ g").unwrap(),
        vec![Token::Ident("a"), Token::Ident("d"), Token::Ident("g")]
    );
}

#[test]
fn unterminated_block_comment_is_operators() {
    assert_eq!(
        lex("/* x").unwrap(),
        vec![Token::Divide, Token::Multiply, Token::Ident("x")]
    );
}

#[test]
fn all_punctuation() {
    assert_eq!(
        lex(", ; ( ) [ ] ! => & { } < > + - * / |").unwrap(),
        vec![
            Token::Comma,
            Token::SemiColon,
            Token::LParen,
            Token::RParen,
            Token::LBracket,
            Token::RBracket,
            Token::Exclamation,
            Token::FatArrow,
            Token::And,
            Token::LBrace,
            Token::RBrace,
            Token::LessThan,
            Token::GreaterThan,
            Token::Plus,
            Token::Minus,
            Token::Multiply,
            Token::Divide,
            Token::Bar,
        ]
    );
}

#[test]
fn unrecognized_character_range_covers_it() {
    assert_eq!(lex("a @ b").unwrap_err(), 2..3);
    assert_eq!(lex("x é").unwrap_err(), 2..4);
    assert_eq!(lex("€").unwrap_err(), 0..3);
    assert_eq!(lex("=").unwrap_err(), 0..1);
    assert_eq!(lex("= >").unwrap_err(), 0..1);
    assert_eq!(lex("\"@\" // @").unwrap(), vec![Token::NormalString("\"@\"")]);
}

#[test]
fn lexer_state_starts_outside_strings() {
    assert_eq!(LogosState::default(), LogosState::default());
}
