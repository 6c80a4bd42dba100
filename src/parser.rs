//! Recursive descent over the token sequence, proved to recognise exactly
//! what the grammar functions describe.
use crate::ast::{
    annotated_list_m, annotated_m, arms_m, constrained_list_m, constrained_m, definition_m,
    definitions_m, expr_m, exprs_m, file_m, idents_m, lemma_annotated_push, lemma_arms_push,
    lemma_constrained_push, lemma_definitions_push, lemma_exprs_push, lemma_idents_push,
    lemma_type_names_push, lhs_m, literal_m, type_name_m, type_names_m, AnnotatedIdent,
    AnnotatedIdentM, ConstrainedTypeM, ExprM, TypeNameM,
    BinaryOperator, BindingLeftHand, ConstrainedType, Expr, File, Ident, Literal,
    TopLevelDefinition, TypeName,
};
use crate::grammar::{
    additive, annotated_ident, annotated_list, annotated_tail, arms, atom, binding_definition,
    binding_expr, binding_left_hand, block, call_expr, constrained_list, constrained_tail,
    constrained_type, decimal_value, definitions, expr, exprs, exprs_tail, false_text, file,
    foreign_definition, ident_at, ident_list, ident_tail, is_decimal, literal, match_expr,
    multiplicative, number_literal, product, product_tail, sum_tail, tok_is, top_level_definition,
    true_text, type_list, type_list_tail, type_term, unit_text, unit_type, unquote, fail_annotated_ident,
    fail_annotated_list, fail_annotated_tail, fail_arms, fail_atom, fail_binding_definition,
    fail_binding_expr, fail_binding_left_hand, fail_block, fail_call_expr, fail_constrained_list,
    fail_constrained_tail, fail_constrained_type, fail_definitions, fail_expr, fail_exprs,
    fail_exprs_tail, fail_file, fail_foreign_definition, fail_ident_list, fail_ident_tail,
    fail_literal, fail_match_expr, fail_product, fail_product_tail, fail_sum_tail,
    fail_top_level_definition, fail_type_list, fail_type_list_tail, fail_type_term, miss, mx,
};
use crate::lexer::{lex, lex_spec, lexemes, Lexeme, Token};
use std::ops::Range;
use vstd::prelude::*;

verus! {

/// The part of the grammar in which a token did not fit.
#[derive(Clone, Copy, Debug, PartialEq, Eq, Structural)]
pub enum Production {
    TopLevelDefinition,
    BindingLeftHand,
    ConstrainedType,
    TypeName,
    AnnotatedIdent,
    Literal,
    Block,
    Expr,
    Binding,
    FunctionCall,
    Match,
    EndOfInput,
}

/// One grammar failure: the token found at `position` (`None`: the end of
/// the input) where `expected` wanted something else.
#[derive(Debug)]
pub struct Mismatch<'a> {
    pub position: usize,
    pub found: Option<Token<'a>>,
    pub expected: Production,
}

/// Whether `m` names the token that stands at its position in `t`.
pub open spec fn mismatch_fits<'a>(m: Mismatch<'a>, t: Seq<Lexeme>) -> bool {
    &&& m.position <= t.len()
    &&& m.found matches Some(tok) ==> m.position < t.len() && tok@ == t[m.position as int]
    &&& m.found is None ==> m.position == t.len()
}

/// A value with the byte range of the source text it was read from.
#[derive(Debug)]
pub struct Spanned<T>(pub T, pub Range<usize>);

/// Why a source text has no syntax tree.
#[derive(Debug)]
pub enum ParseError<'a> {
    UnrecognizedToken(Range<usize>),
    ParseFailed(Vec<Mismatch<'a>>),
}

/// The furthest position at which a token did not fit, and the productions
/// that failed there.
struct Failures {
    position: usize,
    expected: Vec<Production>,
}

impl Failures {
    spec fn fits(&self, n: nat) -> bool {
        &&& self.position <= n
        &&& self.position > 0 ==> self.expected@.len() > 0
    }
}

fn record(f: &mut Failures, p: usize, what: Production)
    ensures
        final(f).position == (if p > old(f).position {
            p
        } else {
            old(f).position
        }),
        old(f).position > 0 ==> old(f).expected@.len() > 0 ==> final(f).expected@.len() > 0,
        p >= old(f).position ==> final(f).expected@.len() > 0,
{
    if p > f.position {
        f.position = p;
        f.expected = Vec::new();
        f.expected.push(what);
    } else if p == f.position {
        let mut i: usize = 0;
        let mut seen = false;
        while i < f.expected.len()
            invariant
                i <= f.expected@.len(),
                seen ==> f.expected@.len() > 0,
            decreases f.expected@.len() - i,
        {
            if f.expected[i] == what {
                seen = true;
            }
            i = i + 1;
        }
        if !seen {
            f.expected.push(what);
        }
    }
}

pub open spec fn lexeme_code(l: Lexeme) -> u8 {
    match l {
        Lexeme::Comma => 0,
        Lexeme::DoubleColon => 1,
        Lexeme::Colon => 2,
        Lexeme::SemiColon => 3,
        Lexeme::Ident(_) => 4,
        Lexeme::LParen => 5,
        Lexeme::RParen => 6,
        Lexeme::LBracket => 7,
        Lexeme::RBracket => 8,
        Lexeme::Exclamation => 9,
        Lexeme::FatArrow => 10,
        Lexeme::NormalString(_) => 11,
        Lexeme::And => 12,
        Lexeme::LBrace => 13,
        Lexeme::RBrace => 14,
        Lexeme::LessThan => 15,
        Lexeme::GreaterThan => 16,
        Lexeme::Number(_) => 17,
        Lexeme::Plus => 18,
        Lexeme::Minus => 19,
        Lexeme::Multiply => 20,
        Lexeme::Divide => 21,
        Lexeme::Bar => 22,
        Lexeme::Match => 23,
        Lexeme::Extern => 24,
    }
}

/// A token kind that carries no text.
pub open spec fn is_plain(l: Lexeme) -> bool {
    !(l is Ident || l is Number || l is NormalString)
}

fn token_code(t: Token) -> (r: u8)
    ensures
        r == lexeme_code(t@),
{
    match t {
        Token::Comma => 0,
        Token::DoubleColon => 1,
        Token::Colon => 2,
        Token::SemiColon => 3,
        Token::Ident(_) => 4,
        Token::LParen => 5,
        Token::RParen => 6,
        Token::LBracket => 7,
        Token::RBracket => 8,
        Token::Exclamation => 9,
        Token::FatArrow => 10,
        Token::NormalString(_) => 11,
        Token::And => 12,
        Token::LBrace => 13,
        Token::RBrace => 14,
        Token::LessThan => 15,
        Token::GreaterThan => 16,
        Token::Number(_) => 17,
        Token::Plus => 18,
        Token::Minus => 19,
        Token::Multiply => 20,
        Token::Divide => 21,
        Token::Bar => 22,
        Token::Match => 23,
        Token::Extern => 24,
    }
}

/// Whether the token at `p` is `want`; records a failure where it is not.
fn expect<'a>(t: &Vec<Token<'a>>, p: usize, want: Token<'a>, f: &mut Failures, ctx: Production) -> (r:
    bool)
    requires
        p <= t@.len(),
        is_plain(want@),
        old(f).fits(t@.len() as nat),
    ensures
        r == tok_is(lexemes(t@), p as int, want@),
        r ==> p < t@.len(),
        t@.len() <= usize::MAX,
        final(f).fits(t@.len() as nat),
        final(f).position == mx(old(f).position as int, miss(r, p as int)),
{
    if p < t.len() && token_code(t[p]) == token_code(want) {
        true
    } else {
        record(f, p, ctx);
        false
    }
}

/// The identifier at `p`; records a failure where there is none.
fn ident_text<'a>(t: &Vec<Token<'a>>, p: usize, f: &mut Failures, ctx: Production) -> (r: Option<
    &'a str,
>)
    requires
        p <= t@.len(),
        old(f).fits(t@.len() as nat),
    ensures
        r matches Some(s) ==> ident_at(lexemes(t@), p as int) == Some(s@),
        r is None ==> ident_at(lexemes(t@), p as int) is None,
        r is Some ==> p < t@.len(),
        t@.len() <= usize::MAX,
        final(f).fits(t@.len() as nat),
        final(f).position == mx(old(f).position as int, miss(r is Some, p as int)),
{
    if p < t.len() {
        if let Token::Ident(s) = t[p] {
            return Some(s);
        }
    }
    record(f, p, ctx);
    None
}

fn owned(s: &str) -> (r: Ident)
    ensures
        r@ == s@,
{
    s.to_owned()
}

fn is_true_text(s: &str) -> (r: bool)
    ensures
        r == (s@ == true_text()),
{
    let r = s.unicode_len() == 4 && s.get_char(0) == 't' && s.get_char(1) == 'r' && s.get_char(2)
        == 'u' && s.get_char(3) == 'e';
    proof {
        if r {
            assert(s@ =~= true_text());
        }
    }
    r
}

fn is_false_text(s: &str) -> (r: bool)
    ensures
        r == (s@ == false_text()),
{
    let r = s.unicode_len() == 5 && s.get_char(0) == 'f' && s.get_char(1) == 'a' && s.get_char(2)
        == 'l' && s.get_char(3) == 's' && s.get_char(4) == 'e';
    proof {
        if r {
            assert(s@ =~= false_text());
        }
    }
    r
}

fn unquote_text(s: &str) -> (r: String)
    ensures
        r@ == unquote(s@),
{
    let n = s.unicode_len();
    if n >= 2 {
        s.substring_char(1, n - 1).to_owned()
    } else {
        proof {
            assert(unquote(s@) =~= Seq::<char>::empty());
        }
        String::new()
    }
}

fn unit_type_name() -> (r: TypeName)
    ensures
        type_name_m(r) == unit_type(),
{
    proof {
        reveal_strlit("unit");
        assert("unit"@ =~= unit_text());
    }
    TypeName::Named("unit".to_owned())
}

proof fn lemma_decimal_prefix(s: Seq<char>, k: int)
    requires
        forall|i: int| 0 <= i < s.len() ==> '0' <= #[trigger] s[i] <= '9',
        0 <= k <= s.len(),
    ensures
        0 <= decimal_value(s.subrange(0, k)) <= decimal_value(s),
    decreases s.len(),
{
    if k == s.len() {
        assert(s.subrange(0, k) =~= s);
        if s.len() > 0 {
            let s1 = s.subrange(0, s.len() - 1);
            assert forall|i: int| 0 <= i < s1.len() implies '0' <= #[trigger] s1[i] <= '9' by {
                assert(s1[i] == s[i]);
            }
            lemma_decimal_prefix(s1, s.len() - 1);
            assert(s.subrange(0, s.len() - 1).subrange(0, s.len() - 1) =~= s.subrange(
                0,
                s.len() - 1,
            ));
        }
    } else {
        let s1 = s.subrange(0, s.len() - 1);
        assert forall|i: int| 0 <= i < s1.len() implies '0' <= #[trigger] s1[i] <= '9' by {
            assert(s1[i] == s[i]);
        }
        lemma_decimal_prefix(s1, k);
        lemma_decimal_prefix(s1, s1.len() as int);
        assert(s1.subrange(0, k) =~= s.subrange(0, k));
        assert(s1.subrange(0, s1.len() as int) =~= s1);
        assert(s[s.len() - 1] == s[s.len() - 1]);
        assert('0' <= s[s.len() - 1] <= '9');
    }
}

/// The literal that a number token's text denotes.
fn number_value(s: &str) -> (r: Literal)
    ensures
        literal_m(r) == number_literal(s@),
{
    let n = s.unicode_len();
    if n == 0 {
        return Literal::Float(owned(s));
    }
    let mut v: u128 = 0;
    let mut i: usize = 0;
    while i < n
        invariant
            n == s@.len(),
            0 <= i <= n,
            v as int == decimal_value(s@.subrange(0, i as int)),
            v <= i64::MAX,
            forall|k: int| 0 <= k < i ==> '0' <= #[trigger] s@[k] <= '9',
        decreases n - i,
    {
        let c = s.get_char(i);
        if !('0' <= c && c <= '9') {
            return Literal::Float(owned(s));
        }
        let d = (c as u32 - 48) as u128;
        proof {
            let pre = s@.subrange(0, i + 1);
            assert(pre.subrange(0, i as int) =~= s@.subrange(0, i as int));
            assert(decimal_value(pre) == decimal_value(s@.subrange(0, i as int)) * 10 + (
            c as int - 48));
        }
        let w = v * 10 + d;
        if w > 9223372036854775807u128 {
            proof {
                if is_decimal(s@) {
                    lemma_decimal_prefix(s@, i + 1);
                }
            }
            return Literal::Float(owned(s));
        }
        v = w;
        i = i + 1;
    }
    proof {
        assert(s@.subrange(0, n as int) =~= s@);
    }
    Literal::Int(v as i64)
}

proof fn lemma_assoc<A>(a: Seq<A>, x: A, b: Seq<A>)
    ensures
        a.push(x) + b == a + (seq![x] + b),
{
    assert(a.push(x) + b =~= a + (seq![x] + b));
}

// ---------------------------------------------------------------------------
// Type names
fn type_term_at<'a>(t: &Vec<Token<'a>>, p: usize, f: &mut Failures) -> (r: Option<
    (TypeName, usize),
>)
    requires
        p <= t@.len(),
        old(f).fits(t@.len() as nat),
    ensures
        final(f).fits(t@.len() as nat),
        final(f).position == mx(old(f).position as int, fail_type_term(lexemes(t@), p as int)),
        r matches Some((x, q)) ==> type_term(lexemes(t@), p as int) == Some(
            (type_name_m(x), q as int),
        ) && p < q <= t@.len(),
        r is None ==> type_term(lexemes(t@), p as int) is None,
    decreases t@.len() - p, 2int,
{
    if p >= t.len() {
        record(f, p, Production::TypeName);
        return None;
    }
    match t[p] {
        Token::Ident(n) => Some((TypeName::Named(owned(n)), p + 1)),
        Token::LBracket => match type_term_at(t, p + 1, f) {
            Some((inner, q)) => if expect(t, q, Token::RBracket, f, Production::TypeName) {
                Some((TypeName::Slice(Box::new(inner)), q + 1))
            } else {
                None
            },
            None => None,
        },
        Token::LParen => {
            let (args, q) = type_list_at(t, p + 1, f);
            if expect(t, q, Token::RParen, f, Production::TypeName) {
                match type_term_at(t, q + 1, f) {
                    Some((ret, r)) => Some((TypeName::Function { args, ret: Box::new(ret) }, r)),
                    None => None,
                }
            } else {
                None
            }
        },
        _ => {
            record(f, p, Production::TypeName);
            None
        },
    }
}

fn type_list_at<'a>(t: &Vec<Token<'a>>, p: usize, f: &mut Failures) -> (r: (
    Vec<TypeName>,
    usize,
))
    requires
        p <= t@.len(),
        old(f).fits(t@.len() as nat),
    ensures
        final(f).fits(t@.len() as nat),
        final(f).position == mx(old(f).position as int, fail_type_list(lexemes(t@), p as int)),
        type_list(lexemes(t@), p as int) == (type_names_m(r.0@), r.1 as int),
        p <= r.1 <= t@.len(),
    decreases t@.len() - p, 3int,
{
    let ghost l = lexemes(t@);
    let mut xs: Vec<TypeName> = Vec::new();
    let mut q = match type_term_at(t, p, f) {
        Some((x, q)) => {
            proof {
                lemma_type_names_push(xs@, x);
                let rest = type_list_tail(l, q as int).0;
                assert(type_names_m(xs@) =~= Seq::<TypeNameM>::empty());
                assert(type_names_m(xs@).push(type_name_m(x)) + rest =~= seq![type_name_m(x)]
                    + rest);
            }
            xs.push(x);
            q
        },
        None => {
            return (xs, p);
        },
    };
    loop
        invariant
            p < q <= t@.len(),
            l == lexemes(t@),
            f.fits(t@.len() as nat),
            mx(old(f).position as int, fail_type_list(l, p as int)) == mx(f.position as int, fail_type_list_tail(l, q as int)),
            type_list(l, p as int) == (type_names_m(xs@) + type_list_tail(l, q as int).0,
            type_list_tail(l, q as int).1),
        decreases t@.len() - q,
    {
        if !expect(t, q, Token::Comma, f, Production::TypeName) {
            assert(type_names_m(xs@) + Seq::empty() =~= type_names_m(xs@));
            return (xs, q);
        }
        match type_term_at(t, q + 1, f) {
            Some((x, r)) => {
                proof {
                    lemma_type_names_push(xs@, x);
                    lemma_assoc(type_names_m(xs@), type_name_m(x), type_list_tail(l, r as int).0);
                }
                xs.push(x);
                q = r;
            },
            None => {
                assert(type_names_m(xs@) + Seq::empty() =~= type_names_m(xs@));
                return (xs, q);
            },
        }
    }
}

fn annotated_ident_at<'a>(t: &Vec<Token<'a>>, p: usize, f: &mut Failures) -> (r: Option<
    (AnnotatedIdent, usize),
>)
    requires
        p <= t@.len(),
        old(f).fits(t@.len() as nat),
    ensures
        final(f).fits(t@.len() as nat),
        final(f).position == mx(old(f).position as int, fail_annotated_ident(lexemes(t@), p as int)),
        r matches Some((x, q)) ==> annotated_ident(lexemes(t@), p as int) == Some(
            (annotated_m(x), q as int),
        ) && p < q <= t@.len(),
        r is None ==> annotated_ident(lexemes(t@), p as int) is None,
{
    let n = match ident_text(t, p, f, Production::AnnotatedIdent) {
        Some(n) => n,
        None => return None,
    };
    if !expect(t, p + 1, Token::Colon, f, Production::AnnotatedIdent) {
        return None;
    }
    match type_term_at(t, p + 2, f) {
        Some((ty, q)) => Some((AnnotatedIdent { name: owned(n), ty }, q)),
        None => None,
    }
}

fn annotated_list_at<'a>(t: &Vec<Token<'a>>, p: usize, f: &mut Failures) -> (r: (
    Vec<AnnotatedIdent>,
    usize,
))
    requires
        p <= t@.len(),
        old(f).fits(t@.len() as nat),
    ensures
        final(f).fits(t@.len() as nat),
        final(f).position == mx(old(f).position as int, fail_annotated_list(lexemes(t@), p as int)),
        annotated_list(lexemes(t@), p as int) == (annotated_list_m(r.0@), r.1 as int),
        p <= r.1 <= t@.len(),
{
    let ghost l = lexemes(t@);
    let mut xs: Vec<AnnotatedIdent> = Vec::new();
    let mut q = match annotated_ident_at(t, p, f) {
        Some((x, q)) => {
            proof {
                lemma_annotated_push(xs@, x);
                let rest = annotated_tail(l, q as int).0;
                assert(annotated_list_m(xs@) =~= Seq::<AnnotatedIdentM>::empty());
                assert(annotated_list_m(xs@).push(annotated_m(x)) + rest =~= seq![annotated_m(x)]
                    + rest);
            }
            xs.push(x);
            q
        },
        None => {
            return (xs, p);
        },
    };
    loop
        invariant
            p < q <= t@.len(),
            l == lexemes(t@),
            f.fits(t@.len() as nat),
            mx(old(f).position as int, fail_annotated_list(l, p as int)) == mx(f.position as int, fail_annotated_tail(l, q as int)),
            annotated_list(l, p as int) == (annotated_list_m(xs@) + annotated_tail(
                l,
                q as int,
            ).0, annotated_tail(l, q as int).1),
        decreases t@.len() - q,
    {
        if !expect(t, q, Token::Comma, f, Production::AnnotatedIdent) {
            assert(annotated_list_m(xs@) + Seq::empty() =~= annotated_list_m(xs@));
            return (xs, q);
        }
        match annotated_ident_at(t, q + 1, f) {
            Some((x, r)) => {
                proof {
                    lemma_annotated_push(xs@, x);
                    lemma_assoc(annotated_list_m(xs@), annotated_m(x), annotated_tail(l, r as int).0);
                }
                xs.push(x);
                q = r;
            },
            None => {
                assert(annotated_list_m(xs@) + Seq::empty() =~= annotated_list_m(xs@));
                return (xs, q);
            },
        }
    }
}

// ---------------------------------------------------------------------------
// Literals and expressions
fn literal_at<'a>(t: &Vec<Token<'a>>, p: usize, f: &mut Failures) -> (r: Option<
    (Literal, usize),
>)
    requires
        p <= t@.len(),
        old(f).fits(t@.len() as nat),
    ensures
        final(f).fits(t@.len() as nat),
        final(f).position == mx(old(f).position as int, fail_literal(lexemes(t@), p as int)),
        r matches Some((x, q)) ==> literal(lexemes(t@), p as int) == Some((literal_m(x), q as int))
            && p < q <= t@.len(),
        r is None ==> literal(lexemes(t@), p as int) is None,
    decreases t@.len() - p, 1int,
{
    if p >= t.len() {
        record(f, p, Production::Literal);
        return None;
    }
    match t[p] {
        Token::NormalString(s) => Some((Literal::String(unquote_text(s)), p + 1)),
        Token::Ident(s) => if is_true_text(s) {
            Some((Literal::Bool(true), p + 1))
        } else if is_false_text(s) {
            Some((Literal::Bool(false), p + 1))
        } else {
            record(f, p, Production::Literal);
            None
        },
        Token::Number(s) => Some((number_value(s), p + 1)),
        Token::LParen => {
            let (args, q) = annotated_list_at(t, p + 1, f);
            if !expect(t, q, Token::RParen, f, Production::Literal) {
                return None;
            }
            let (ret_type, r) = match type_term_at(t, q + 1, f) {
                Some((ty, r)) => (ty, r),
                None => (unit_type_name(), q + 1),
            };
            match block_at(t, r, f) {
                Some((body, r2)) => Some((Literal::Function { args, ret_type, body }, r2)),
                None => None,
            }
        },
        _ => {
            record(f, p, Production::Literal);
            None
        },
    }
}

fn block_at<'a>(t: &Vec<Token<'a>>, p: usize, f: &mut Failures) -> (r: Option<
    (Vec<Expr>, usize),
>)
    requires
        p <= t@.len(),
        old(f).fits(t@.len() as nat),
    ensures
        final(f).fits(t@.len() as nat),
        final(f).position == mx(old(f).position as int, fail_block(lexemes(t@), p as int)),
        r matches Some((x, q)) ==> block(lexemes(t@), p as int) == Some((exprs_m(x@), q as int))
            && p < q <= t@.len(),
        r is None ==> block(lexemes(t@), p as int) is None,
    decreases t@.len() - p, 1int,
{
    if !expect(t, p, Token::LBrace, f, Production::Block) {
        return None;
    }
    let (es, q) = exprs_at(t, p + 1, Token::SemiColon, f);
    if expect(t, q, Token::RBrace, f, Production::Block) {
        Some((es, q + 1))
    } else {
        None
    }
}

fn exprs_at<'a>(t: &Vec<Token<'a>>, p: usize, sep: Token<'a>, f: &mut Failures) -> (r: (
    Vec<Expr>,
    usize,
))
    requires
        p <= t@.len(),
        is_plain(sep@),
        old(f).fits(t@.len() as nat),
    ensures
        final(f).fits(t@.len() as nat),
        final(f).position == mx(old(f).position as int, fail_exprs(lexemes(t@), p as int, sep@)),
        exprs(lexemes(t@), p as int, sep@) == (exprs_m(r.0@), r.1 as int),
        p <= r.1 <= t@.len(),
    decreases t@.len() - p, 5int,
{
    let ghost l = lexemes(t@);
    let mut xs: Vec<Expr> = Vec::new();
    let mut q = match expr_at(t, p, f) {
        Some((x, q)) => {
            proof {
                lemma_exprs_push(xs@, x);
                let rest = exprs_tail(l, q as int, sep@).0;
                assert(exprs_m(xs@) =~= Seq::<ExprM>::empty());
                assert(exprs_m(xs@).push(expr_m(x)) + rest =~= seq![expr_m(x)] + rest);
            }
            xs.push(x);
            q
        },
        None => {
            return (xs, p);
        },
    };
    loop
        invariant
            p < q <= t@.len(),
            l == lexemes(t@),
            is_plain(sep@),
            f.fits(t@.len() as nat),
            mx(old(f).position as int, fail_exprs(l, p as int, sep@)) == mx(f.position as int, fail_exprs_tail(l, q as int, sep@)),
            exprs(l, p as int, sep@) == (exprs_m(xs@) + exprs_tail(l, q as int, sep@).0,
            exprs_tail(l, q as int, sep@).1),
        decreases t@.len() - q,
    {
        if !expect(t, q, sep, f, Production::Expr) {
            assert(exprs_m(xs@) + Seq::empty() =~= exprs_m(xs@));
            return (xs, q);
        }
        match expr_at(t, q + 1, f) {
            Some((x, r)) => {
                proof {
                    lemma_exprs_push(xs@, x);
                    lemma_assoc(exprs_m(xs@), expr_m(x), exprs_tail(l, r as int, sep@).0);
                }
                xs.push(x);
                q = r;
            },
            None => {
                assert(exprs_m(xs@) + Seq::empty() =~= exprs_m(xs@));
                return (xs, q);
            },
        }
    }
}

fn expr_at<'a>(t: &Vec<Token<'a>>, p: usize, f: &mut Failures) -> (r: Option<(Expr, usize)>)
    requires
        p <= t@.len(),
        old(f).fits(t@.len() as nat),
    ensures
        final(f).fits(t@.len() as nat),
        final(f).position == mx(old(f).position as int, fail_expr(lexemes(t@), p as int)),
        r matches Some((x, q)) ==> expr(lexemes(t@), p as int) == Some((expr_m(x), q as int))
            && p < q <= t@.len(),
        r is None ==> expr(lexemes(t@), p as int) is None,
    decreases t@.len() - p, 4int,
{
    let ghost l = lexemes(t@);
    let (mut acc, mut q) = match product_at(t, p, f) {
        Some(r) => r,
        None => return None,
    };
    loop
        invariant
            p < q <= t@.len(),
            l == lexemes(t@),
            f.fits(t@.len() as nat),
            mx(old(f).position as int, fail_expr(l, p as int)) == mx(f.position as int, fail_sum_tail(l, q as int)),
            expr(l, p as int) == Some(sum_tail(l, q as int, expr_m(acc))),
        decreases t@.len() - q,
    {
        let op = if expect(t, q, Token::Plus, f, Production::Expr) {
            BinaryOperator::Add
        } else if expect(t, q, Token::Minus, f, Production::Expr) {
            BinaryOperator::Subtract
        } else {
            return Some((acc, q));
        };
        assert(additive(l, q as int) == Some(op));
        match product_at(t, q + 1, f) {
            Some((rhs, r)) => {
                acc = Expr::BinaryOp { op, lhs: Box::new(acc), rhs: Box::new(rhs) };
                q = r;
            },
            None => return Some((acc, q)),
        }
    }
}

fn product_at<'a>(t: &Vec<Token<'a>>, p: usize, f: &mut Failures) -> (r: Option<(Expr, usize)>)
    requires
        p <= t@.len(),
        old(f).fits(t@.len() as nat),
    ensures
        final(f).fits(t@.len() as nat),
        final(f).position == mx(old(f).position as int, fail_product(lexemes(t@), p as int)),
        r matches Some((x, q)) ==> product(lexemes(t@), p as int) == Some(
            (expr_m(x), q as int),
        ) && p < q <= t@.len(),
        r is None ==> product(lexemes(t@), p as int) is None,
    decreases t@.len() - p, 3int,
{
    let ghost l = lexemes(t@);
    let (mut acc, mut q) = match atom_at(t, p, f) {
        Some(r) => r,
        None => return None,
    };
    loop
        invariant
            p < q <= t@.len(),
            l == lexemes(t@),
            f.fits(t@.len() as nat),
            mx(old(f).position as int, fail_product(l, p as int)) == mx(f.position as int, fail_product_tail(l, q as int)),
            product(l, p as int) == Some(product_tail(l, q as int, expr_m(acc))),
        decreases t@.len() - q,
    {
        let op = if expect(t, q, Token::Multiply, f, Production::Expr) {
            BinaryOperator::Multiply
        } else if expect(t, q, Token::Divide, f, Production::Expr) {
            BinaryOperator::Divide
        } else {
            return Some((acc, q));
        };
        assert(multiplicative(l, q as int) == Some(op));
        match atom_at(t, q + 1, f) {
            Some((rhs, r)) => {
                acc = Expr::BinaryOp { op, lhs: Box::new(acc), rhs: Box::new(rhs) };
                q = r;
            },
            None => return Some((acc, q)),
        }
    }
}

fn atom_at<'a>(t: &Vec<Token<'a>>, p: usize, f: &mut Failures) -> (r: Option<(Expr, usize)>)
    requires
        p <= t@.len(),
        old(f).fits(t@.len() as nat),
    ensures
        final(f).fits(t@.len() as nat),
        final(f).position == mx(old(f).position as int, fail_atom(lexemes(t@), p as int)),
        r matches Some((x, q)) ==> atom(lexemes(t@), p as int) == Some((expr_m(x), q as int))
            && p < q <= t@.len(),
        r is None ==> atom(lexemes(t@), p as int) is None,
    decreases t@.len() - p, 2int,
{
    if let Some((l, q)) = literal_at(t, p, f) {
        return Some((Expr::Literal(l), q));
    }
    if let Some(r) = binding_expr_at(t, p, f) {
        return Some(r);
    }
    if let Some(r) = call_expr_at(t, p, f) {
        return Some(r);
    }
    if let Some(r) = match_expr_at(t, p, f) {
        return Some(r);
    }
    match ident_text(t, p, f, Production::Expr) {
        Some(n) => Some((Expr::Ident(owned(n)), p + 1)),
        None => None,
    }
}

fn binding_expr_at<'a>(t: &Vec<Token<'a>>, p: usize, f: &mut Failures) -> (r: Option<
    (Expr, usize),
>)
    requires
        p <= t@.len(),
        old(f).fits(t@.len() as nat),
    ensures
        final(f).fits(t@.len() as nat),
        final(f).position == mx(old(f).position as int, fail_binding_expr(lexemes(t@), p as int)),
        r matches Some((x, q)) ==> binding_expr(lexemes(t@), p as int) == Some(
            (expr_m(x), q as int),
        ) && p < q <= t@.len(),
        r is None ==> binding_expr(lexemes(t@), p as int) is None,
    decreases t@.len() - p, 1int,
{
    let n = match ident_text(t, p, f, Production::Binding) {
        Some(n) => n,
        None => return None,
    };
    if !expect(t, p + 1, Token::DoubleColon, f, Production::Binding) {
        return None;
    }
    match expr_at(t, p + 2, f) {
        Some((v, q)) => Some((Expr::Binding { ident: owned(n), value: Box::new(v) }, q)),
        None => None,
    }
}

fn call_expr_at<'a>(t: &Vec<Token<'a>>, p: usize, f: &mut Failures) -> (r: Option<
    (Expr, usize),
>)
    requires
        p <= t@.len(),
        old(f).fits(t@.len() as nat),
    ensures
        final(f).fits(t@.len() as nat),
        final(f).position == mx(old(f).position as int, fail_call_expr(lexemes(t@), p as int)),
        r matches Some((x, q)) ==> call_expr(lexemes(t@), p as int) == Some(
            (expr_m(x), q as int),
        ) && p < q <= t@.len(),
        r is None ==> call_expr(lexemes(t@), p as int) is None,
    decreases t@.len() - p, 1int,
{
    let n = match ident_text(t, p, f, Production::FunctionCall) {
        Some(n) => n,
        None => return None,
    };
    if !expect(t, p + 1, Token::LParen, f, Production::FunctionCall) {
        return None;
    }
    let (args, q) = exprs_at(t, p + 2, Token::Comma, f);
    if expect(t, q, Token::RParen, f, Production::FunctionCall) {
        let callee = Expr::Ident(owned(n));
        assert(expr_m(callee) == ExprM::Ident(n@));
        Some((Expr::FunctionCall(Box::new(callee), args), q + 1))
    } else {
        None
    }
}

fn match_expr_at<'a>(t: &Vec<Token<'a>>, p: usize, f: &mut Failures) -> (r: Option<
    (Expr, usize),
>)
    requires
        p <= t@.len(),
        old(f).fits(t@.len() as nat),
    ensures
        final(f).fits(t@.len() as nat),
        final(f).position == mx(old(f).position as int, fail_match_expr(lexemes(t@), p as int)),
        r matches Some((x, q)) ==> match_expr(lexemes(t@), p as int) == Some(
            (expr_m(x), q as int),
        ) && p < q <= t@.len(),
        r is None ==> match_expr(lexemes(t@), p as int) is None,
    decreases t@.len() - p, 1int,
{
    if !expect(t, p, Token::Match, f, Production::Match) {
        return None;
    }
    let (target, q) = match expr_at(t, p + 1, f) {
        Some(r) => r,
        None => return None,
    };
    let (conditions, r) = arms_at(t, q, p, f);
    if conditions.len() > 0 {
        Some((Expr::Match { target: Box::new(target), conditions }, r))
    } else {
        None
    }
}

/// The arms of a `match` that begins before `start`.
fn arms_at<'a>(t: &Vec<Token<'a>>, q0: usize, start: usize, f: &mut Failures) -> (r: (
    Vec<(Literal, Expr)>,
    usize,
))
    requires
        start < q0 <= t@.len(),
        old(f).fits(t@.len() as nat),
    ensures
        final(f).fits(t@.len() as nat),
        final(f).position == mx(old(f).position as int, fail_arms(lexemes(t@), q0 as int)),
        arms(lexemes(t@), q0 as int) == (arms_m(r.0@), r.1 as int),
        q0 <= r.1 <= t@.len(),
        r.0@.len() > 0 ==> q0 < r.1,
    decreases t@.len() - start, 0int,
{
    let ghost l = lexemes(t@);
    let mut cs: Vec<(Literal, Expr)> = Vec::new();
    let mut q = q0;
    loop
        invariant
            q0 <= q <= t@.len(),
            start < q0,
            l == lexemes(t@),
            f.fits(t@.len() as nat),
            mx(old(f).position as int, fail_arms(l, q0 as int)) == mx(f.position as int, fail_arms(l, q as int)),
            cs@.len() > 0 ==> q0 < q,
            arms(l, q0 as int) == (arms_m(cs@) + arms(l, q as int).0, arms(l, q as int).1),
        decreases t@.len() - q,
    {
        if !expect(t, q, Token::Bar, f, Production::Match) {
            assert(arms_m(cs@) + Seq::empty() =~= arms_m(cs@));
            return (cs, q);
        }
        let (lit, r) = match literal_at(t, q + 1, f) {
            Some(x) => x,
            None => {
                assert(arms_m(cs@) + Seq::empty() =~= arms_m(cs@));
                return (cs, q);
            },
        };
        if !expect(t, r, Token::FatArrow, f, Production::Match) {
            assert(arms_m(cs@) + Seq::empty() =~= arms_m(cs@));
            return (cs, q);
        }
        match expr_at(t, r + 1, f) {
            Some((e, r2)) => {
                proof {
                    lemma_arms_push(cs@, (lit, e));
                    lemma_assoc(
                        arms_m(cs@),
                        (literal_m(lit), expr_m(e)),
                        arms(l, r2 as int).0,
                    );
                }
                cs.push((lit, e));
                q = r2;
            },
            None => {
                assert(arms_m(cs@) + Seq::empty() =~= arms_m(cs@));
                return (cs, q);
            },
        }
    }
}

// ---------------------------------------------------------------------------
// Top level
fn ident_list_at<'a>(t: &Vec<Token<'a>>, p: usize, f: &mut Failures) -> (r: (Vec<Ident>, usize))
    requires
        p <= t@.len(),
        old(f).fits(t@.len() as nat),
    ensures
        final(f).fits(t@.len() as nat),
        final(f).position == mx(old(f).position as int, fail_ident_list(lexemes(t@), p as int)),
        ident_list(lexemes(t@), p as int) == (idents_m(r.0@), r.1 as int),
        p <= r.1 <= t@.len(),
{
    let ghost l = lexemes(t@);
    let mut xs: Vec<Ident> = Vec::new();
    match ident_text(t, p, f, Production::ConstrainedType) {
        Some(n) => {
            let x = owned(n);
            proof {
                lemma_idents_push(xs@, x);
                let rest = ident_tail(l, p + 1).0;
                assert(idents_m(xs@) =~= Seq::<Seq<char>>::empty());
                assert(idents_m(xs@).push(x@) + rest =~= seq![x@] + rest);
            }
            xs.push(x);
        },
        None => {
            return (xs, p);
        },
    }
    let mut q = p + 1;
    loop
        invariant
            p < q <= t@.len(),
            l == lexemes(t@),
            f.fits(t@.len() as nat),
            mx(old(f).position as int, fail_ident_list(l, p as int)) == mx(f.position as int, fail_ident_tail(l, q as int)),
            ident_list(l, p as int) == (idents_m(xs@) + ident_tail(l, q as int).0, ident_tail(
                l,
                q as int,
            ).1),
        decreases t@.len() - q,
    {
        if !expect(t, q, Token::And, f, Production::ConstrainedType) {
            assert(idents_m(xs@) + Seq::empty() =~= idents_m(xs@));
            return (xs, q);
        }
        match ident_text(t, q + 1, f, Production::ConstrainedType) {
            Some(n) => {
                let x = owned(n);
                proof {
                    lemma_idents_push(xs@, x);
                    lemma_assoc(idents_m(xs@), x@, ident_tail(l, q + 2).0);
                }
                xs.push(x);
                q = q + 2;
            },
            None => {
                assert(idents_m(xs@) + Seq::empty() =~= idents_m(xs@));
                return (xs, q);
            },
        }
    }
}

fn constrained_type_at<'a>(t: &Vec<Token<'a>>, p: usize, f: &mut Failures) -> (r: Option<
    (ConstrainedType, usize),
>)
    requires
        p <= t@.len(),
        old(f).fits(t@.len() as nat),
    ensures
        final(f).fits(t@.len() as nat),
        final(f).position == mx(old(f).position as int, fail_constrained_type(lexemes(t@), p as int)),
        r matches Some((x, q)) ==> constrained_type(lexemes(t@), p as int) == Some(
            (constrained_m(x), q as int),
        ) && p < q <= t@.len(),
        r is None ==> constrained_type(lexemes(t@), p as int) is None,
{
    let n = match ident_text(t, p, f, Production::ConstrainedType) {
        Some(n) => n,
        None => return None,
    };
    if expect(t, p + 1, Token::Colon, f, Production::ConstrainedType) {
        let (cs, q) = ident_list_at(t, p + 2, f);
        if cs.len() > 0 {
            return Some((ConstrainedType { name: owned(n), constraints: cs }, q));
        }
    }
    let cs: Vec<Ident> = Vec::new();
    assert(idents_m(cs@) =~= Seq::<Seq<char>>::empty());
    Some((ConstrainedType { name: owned(n), constraints: cs }, p + 1))
}

fn constrained_list_at<'a>(t: &Vec<Token<'a>>, p: usize, f: &mut Failures) -> (r: (
    Vec<ConstrainedType>,
    usize,
))
    requires
        p <= t@.len(),
        old(f).fits(t@.len() as nat),
    ensures
        final(f).fits(t@.len() as nat),
        final(f).position == mx(old(f).position as int, fail_constrained_list(lexemes(t@), p as int)),
        constrained_list(lexemes(t@), p as int) == (constrained_list_m(r.0@), r.1 as int),
        p <= r.1 <= t@.len(),
{
    let ghost l = lexemes(t@);
    let mut xs: Vec<ConstrainedType> = Vec::new();
    let mut q = match constrained_type_at(t, p, f) {
        Some((x, q)) => {
            proof {
                lemma_constrained_push(xs@, x);
                let rest = constrained_tail(l, q as int).0;
                assert(constrained_list_m(xs@) =~= Seq::<ConstrainedTypeM>::empty());
                assert(constrained_list_m(xs@).push(constrained_m(x)) + rest =~= seq![
                    constrained_m(x),
                ] + rest);
            }
            xs.push(x);
            q
        },
        None => {
            return (xs, p);
        },
    };
    loop
        invariant
            p < q <= t@.len(),
            l == lexemes(t@),
            f.fits(t@.len() as nat),
            mx(old(f).position as int, fail_constrained_list(l, p as int)) == mx(f.position as int, fail_constrained_tail(l, q as int)),
            constrained_list(l, p as int) == (constrained_list_m(xs@) + constrained_tail(
                l,
                q as int,
            ).0, constrained_tail(l, q as int).1),
        decreases t@.len() - q,
    {
        if !expect(t, q, Token::Comma, f, Production::ConstrainedType) {
            assert(constrained_list_m(xs@) + Seq::empty() =~= constrained_list_m(xs@));
            return (xs, q);
        }
        match constrained_type_at(t, q + 1, f) {
            Some((x, r)) => {
                proof {
                    lemma_constrained_push(xs@, x);
                    lemma_assoc(
                        constrained_list_m(xs@),
                        constrained_m(x),
                        constrained_tail(l, r as int).0,
                    );
                }
                xs.push(x);
                q = r;
            },
            None => {
                assert(constrained_list_m(xs@) + Seq::empty() =~= constrained_list_m(xs@));
                return (xs, q);
            },
        }
    }
}

fn binding_left_hand_at<'a>(t: &Vec<Token<'a>>, p: usize, f: &mut Failures) -> (r: Option<
    (BindingLeftHand, usize),
>)
    requires
        p <= t@.len(),
        old(f).fits(t@.len() as nat),
    ensures
        final(f).fits(t@.len() as nat),
        final(f).position == mx(old(f).position as int, fail_binding_left_hand(lexemes(t@), p as int)),
        r matches Some((x, q)) ==> binding_left_hand(lexemes(t@), p as int) == Some(
            (lhs_m(x), q as int),
        ) && p < q <= t@.len(),
        r is None ==> binding_left_hand(lexemes(t@), p as int) is None,
{
    let n = match ident_text(t, p, f, Production::BindingLeftHand) {
        Some(n) => n,
        None => return None,
    };
    if expect(t, p + 1, Token::LessThan, f, Production::BindingLeftHand) {
        let (args, q) = constrained_list_at(t, p + 2, f);
        if expect(t, q, Token::GreaterThan, f, Production::BindingLeftHand) && args.len() > 0 {
            return Some((BindingLeftHand { name: owned(n), type_args: args }, q + 1));
        }
    }
    let args: Vec<ConstrainedType> = Vec::new();
    assert(constrained_list_m(args@) =~= Seq::<ConstrainedTypeM>::empty());
    Some((BindingLeftHand { name: owned(n), type_args: args }, p + 1))
}

fn binding_definition_at<'a>(t: &Vec<Token<'a>>, p: usize, f: &mut Failures) -> (r: Option<
    (TopLevelDefinition, usize),
>)
    requires
        p <= t@.len(),
        old(f).fits(t@.len() as nat),
    ensures
        final(f).fits(t@.len() as nat),
        final(f).position == mx(old(f).position as int, fail_binding_definition(lexemes(t@), p as int)),
        r matches Some((x, q)) ==> binding_definition(lexemes(t@), p as int) == Some(
            (definition_m(x), q as int),
        ) && p < q <= t@.len(),
        r is None ==> binding_definition(lexemes(t@), p as int) is None,
{
    let (lhs, q) = match binding_left_hand_at(t, p, f) {
        Some(r) => r,
        None => return None,
    };
    if !expect(t, q, Token::DoubleColon, f, Production::TopLevelDefinition) {
        return None;
    }
    match literal_at(t, q + 1, f) {
        Some((rhs, r)) => Some((TopLevelDefinition::Binding { lhs, rhs }, r)),
        None => None,
    }
}

fn foreign_definition_at<'a>(t: &Vec<Token<'a>>, p: usize, f: &mut Failures) -> (r: Option<
    (TopLevelDefinition, usize),
>)
    requires
        p <= t@.len(),
        old(f).fits(t@.len() as nat),
    ensures
        final(f).fits(t@.len() as nat),
        final(f).position == mx(old(f).position as int, fail_foreign_definition(lexemes(t@), p as int)),
        r matches Some((x, q)) ==> foreign_definition(lexemes(t@), p as int) == Some(
            (definition_m(x), q as int),
        ) && p < q <= t@.len(),
        r is None ==> foreign_definition(lexemes(t@), p as int) is None,
{
    if !expect(t, p, Token::Extern, f, Production::TopLevelDefinition) {
        return None;
    }
    let name = match ident_text(t, p + 1, f, Production::TopLevelDefinition) {
        Some(n) => n,
        None => return None,
    };
    if !expect(t, p + 2, Token::DoubleColon, f, Production::TopLevelDefinition) {
        return None;
    }
    match type_term_at(t, p + 3, f) {
        Some((rhs, q)) => Some((TopLevelDefinition::Extern { name: owned(name), rhs }, q)),
        None => None,
    }
}

fn top_level_definition_at<'a>(t: &Vec<Token<'a>>, p: usize, f: &mut Failures) -> (r: Option<
    (TopLevelDefinition, usize),
>)
    requires
        p <= t@.len(),
        old(f).fits(t@.len() as nat),
    ensures
        final(f).fits(t@.len() as nat),
        final(f).position == mx(old(f).position as int, fail_top_level_definition(lexemes(t@), p as int)),
        r matches Some((x, q)) ==> top_level_definition(lexemes(t@), p as int) == Some(
            (definition_m(x), q as int),
        ) && p < q <= t@.len(),
        r is None ==> top_level_definition(lexemes(t@), p as int) is None,
{
    match binding_definition_at(t, p, f) {
        Some(r) => Some(r),
        None => foreign_definition_at(t, p, f),
    }
}

/// The records of the furthest failure: one per production that failed there.
fn mismatches<'a>(t: &Vec<Token<'a>>, f: &Failures) -> (r: Vec<Mismatch<'a>>)
    requires
        f.fits(t@.len() as nat),
    ensures
        r@.len() == f.expected@.len(),
        forall|i: int| 0 <= i < r@.len() ==> mismatch_fits(#[trigger] r@[i], lexemes(t@)),
        forall|i: int| 0 <= i < r@.len() ==> #[trigger] r@[i].position == f.position,
{
    let mut r: Vec<Mismatch<'a>> = Vec::new();
    let mut i: usize = 0;
    while i < f.expected.len()
        invariant
            f.fits(t@.len() as nat),
            i <= f.expected@.len(),
            r@.len() == i,
            forall|k: int| 0 <= k < r@.len() ==> mismatch_fits(#[trigger] r@[k], lexemes(t@)),
            forall|k: int| 0 <= k < r@.len() ==> #[trigger] r@[k].position == f.position,
        decreases f.expected@.len() - i,
    {
        let found = if f.position < t.len() {
            Some(t[f.position])
        } else {
            None
        };
        r.push(Mismatch { position: f.position, found, expected: f.expected[i] });
        i = i + 1;
    }
    r
}

/// Parses a token sequence into a file: `Ok` exactly when the grammar
/// accepts the whole sequence, with the tree it describes; otherwise the
/// token that did not fit at the furthest position any production reached
/// (`fail_file`), once for each production that failed there.
pub fn parse_tokens<'a>(t: &Vec<Token<'a>>) -> (r: Result<File, Vec<Mismatch<'a>>>)
    ensures
        r matches Ok(fl) ==> file(lexemes(t@)) == Some(file_m(fl)),
        r matches Err(errs) ==> file(lexemes(t@)) is None && errs@.len() > 0 && forall|i: int|
            0 <= i < errs@.len() ==> mismatch_fits(#[trigger] errs@[i], lexemes(t@))
                && errs@[i].position == fail_file(lexemes(t@)),
{
    let ghost l = lexemes(t@);
    let mut f = Failures { position: 0, expected: Vec::new() };
    let mut ds: Vec<TopLevelDefinition> = Vec::new();
    let mut q: usize = 0;
    proof {
        assert(definitions_m(ds@) + definitions(l, 0).0 =~= definitions(l, 0).0);
    }
    loop
        invariant
            q <= t@.len(),
            l == lexemes(t@),
            f.fits(t@.len() as nat),
            mx(0, fail_definitions(l, 0)) == mx(f.position as int, fail_definitions(l, q as int)),
            definitions(l, 0) == (definitions_m(ds@) + definitions(l, q as int).0, definitions(
                l,
                q as int,
            ).1),
        decreases t@.len() - q,
    {
        match top_level_definition_at(t, q, &mut f) {
            Some((d, r)) => {
                proof {
                    lemma_definitions_push(ds@, d);
                    lemma_assoc(definitions_m(ds@), definition_m(d), definitions(l, r as int).0);
                }
                ds.push(d);
                q = r;
            },
            None => {
                assert(definitions_m(ds@) + Seq::empty() =~= definitions_m(ds@));
                if q == t.len() {
                    return Ok(File { definitions: ds });
                } else {
                    record(&mut f, q, Production::EndOfInput);
                    return Err(mismatches(t, &f));
                }
            },
        }
    }
}

/// Lexes and parses a source text. A character that starts no token fails
/// with its byte range before any parsing; otherwise the result is that of
/// `parse_tokens` on the tokens.
pub fn parse<'a>(src: &'a str) -> (r: Result<File, ParseError<'a>>)
    ensures
        lex_spec(src@) matches Err((s, e)) ==> (r matches Err(ParseError::UnrecognizedToken(range))
            && range.start == s && range.end == e),
        lex_spec(src@) matches Ok(toks) ==> (file(toks) matches Some(fm) ==> (r matches Ok(fl)
            && file_m(fl) == fm)),
        lex_spec(src@) matches Ok(toks) ==> (file(toks) is None ==> (r matches Err(
            ParseError::ParseFailed(errs),
        ) && errs@.len() > 0 && forall|i: int|
            0 <= i < errs@.len() ==> mismatch_fits(#[trigger] errs@[i], toks)
                && errs@[i].position == fail_file(toks))),
{
    let tokens = match lex(src) {
        Ok(tokens) => tokens,
        Err(range) => return Err(ParseError::UnrecognizedToken(range)),
    };
    match parse_tokens(&tokens) {
        Ok(fl) => Ok(fl),
        Err(errs) => Err(ParseError::ParseFailed(errs)),
    }
}

} // verus!
