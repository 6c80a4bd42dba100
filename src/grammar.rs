//! The grammar, as functions from a token sequence and a position to what is
//! recognised there and where it ends. Alternatives are tried in order and
//! the first that matches is taken; repetitions take as many items as match.
use crate::ast::{
    AnnotatedIdentM, BinaryOperator, BindingLeftHandM, ConstrainedTypeM, ExprM, FileM, LiteralM,
    TopLevelDefinitionM, TypeNameM,
};
use crate::lexer::Lexeme;
use vstd::prelude::*;

verus! {

pub open spec fn tok_is(t: Seq<Lexeme>, p: int, l: Lexeme) -> bool {
    0 <= p < t.len() && t[p] == l
}

pub open spec fn ident_at(t: Seq<Lexeme>, p: int) -> Option<Seq<char>> {
    if 0 <= p < t.len() {
        match t[p] {
            Lexeme::Ident(n) => Some(n),
            _ => None,
        }
    } else {
        None
    }
}

/// Positions only move forward, and never past the end.
pub open spec fn advances(t: Seq<Lexeme>, p: int, q: int) -> bool {
    p < q <= t.len()
}

pub open spec fn unit_text() -> Seq<char> {
    seq!['u', 'n', 'i', 't']
}

pub open spec fn true_text() -> Seq<char> {
    seq!['t', 'r', 'u', 'e']
}

pub open spec fn false_text() -> Seq<char> {
    seq!['f', 'a', 'l', 's', 'e']
}

/// The implicit return type of a function literal that names none.
pub open spec fn unit_type() -> TypeNameM {
    TypeNameM::Named(unit_text())
}

/// A string token's text without its enclosing quotes.
pub open spec fn unquote(s: Seq<char>) -> Seq<char> {
    if s.len() >= 2 {
        s.subrange(1, s.len() - 1)
    } else {
        Seq::empty()
    }
}

pub open spec fn is_decimal(s: Seq<char>) -> bool {
    s.len() > 0 && forall|i: int| 0 <= i < s.len() ==> '0' <= #[trigger] s[i] <= '9'
}

pub open spec fn decimal_value(s: Seq<char>) -> int
    decreases s.len(),
{
    if s.len() == 0 {
        0
    } else {
        decimal_value(s.subrange(0, s.len() - 1)) * 10 + (s[s.len() - 1] as int - 48)
    }
}

/// A number token's literal: an integer when its text is decimal digits whose
/// value fits in `i64`, else a floating-point number written as that text.
pub open spec fn number_literal(s: Seq<char>) -> LiteralM {
    if is_decimal(s) && decimal_value(s) <= i64::MAX {
        LiteralM::Int(decimal_value(s))
    } else {
        LiteralM::Float(s)
    }
}

// ---------------------------------------------------------------------------
// Type names
//   TypeName := Ident | "[" TypeName "]" | "(" (TypeName ("," TypeName)*)? ")" TypeName
pub open spec fn type_term(t: Seq<Lexeme>, p: int) -> Option<(TypeNameM, int)>
    decreases t.len() - p, 2int,
{
    if !(0 <= p < t.len()) {
        None
    } else {
        match t[p] {
            Lexeme::Ident(n) => Some((TypeNameM::Named(n), p + 1)),
            Lexeme::LBracket => match type_term(t, p + 1) {
                Some((inner, q)) => if tok_is(t, q, Lexeme::RBracket) {
                    Some((TypeNameM::Slice(Box::new(inner)), q + 1))
                } else {
                    None
                },
                None => None,
            },
            Lexeme::LParen => {
                let (args, q) = type_list(t, p + 1);
                if advances(t, p, q) && tok_is(t, q, Lexeme::RParen) {
                    match type_term(t, q + 1) {
                        Some((ret, r)) => Some(
                            (TypeNameM::Function { args, ret: Box::new(ret) }, r),
                        ),
                        None => None,
                    }
                } else {
                    None
                }
            },
            _ => None,
        }
    }
}

/// Type names separated by commas, as many as match (possibly none).
pub open spec fn type_list(t: Seq<Lexeme>, p: int) -> (Seq<TypeNameM>, int)
    decreases t.len() - p, 3int,
{
    match type_term(t, p) {
        Some((x, q)) => if advances(t, p, q) {
            let (xs, r) = type_list_tail(t, q);
            (seq![x] + xs, r)
        } else {
            (Seq::empty(), p)
        },
        None => (Seq::empty(), p),
    }
}

pub open spec fn type_list_tail(t: Seq<Lexeme>, q: int) -> (Seq<TypeNameM>, int)
    decreases t.len() - q, 1int,
{
    if tok_is(t, q, Lexeme::Comma) {
        match type_term(t, q + 1) {
            Some((x, r)) => if advances(t, q, r) {
                let (xs, r2) = type_list_tail(t, r);
                (seq![x] + xs, r2)
            } else {
                (Seq::empty(), q)
            },
            None => (Seq::empty(), q),
        }
    } else {
        (Seq::empty(), q)
    }
}

//   AnnotatedIdent := Ident ":" TypeName
pub open spec fn annotated_ident(t: Seq<Lexeme>, p: int) -> Option<(AnnotatedIdentM, int)> {
    match ident_at(t, p) {
        Some(n) => if tok_is(t, p + 1, Lexeme::Colon) {
            match type_term(t, p + 2) {
                Some((ty, q)) => Some((AnnotatedIdentM { name: n, ty }, q)),
                None => None,
            }
        } else {
            None
        },
        None => None,
    }
}

pub open spec fn annotated_list(t: Seq<Lexeme>, p: int) -> (Seq<AnnotatedIdentM>, int) {
    match annotated_ident(t, p) {
        Some((x, q)) => if advances(t, p, q) {
            let (xs, r) = annotated_tail(t, q);
            (seq![x] + xs, r)
        } else {
            (Seq::empty(), p)
        },
        None => (Seq::empty(), p),
    }
}

pub open spec fn annotated_tail(t: Seq<Lexeme>, q: int) -> (Seq<AnnotatedIdentM>, int)
    decreases t.len() - q,
{
    if tok_is(t, q, Lexeme::Comma) {
        match annotated_ident(t, q + 1) {
            Some((x, r)) => if advances(t, q, r) {
                let (xs, r2) = annotated_tail(t, r);
                (seq![x] + xs, r2)
            } else {
                (Seq::empty(), q)
            },
            None => (Seq::empty(), q),
        }
    } else {
        (Seq::empty(), q)
    }
}

// ---------------------------------------------------------------------------
// Literals and expressions
//   Literal  := NormalString | "true" | "false" | Number | FunctionLit
//   FunctionLit := "(" (AnnotatedIdent ("," AnnotatedIdent)*)? ")" TypeName? Block
pub open spec fn literal(t: Seq<Lexeme>, p: int) -> Option<(LiteralM, int)>
    decreases t.len() - p, 1int,
{
    if !(0 <= p < t.len()) {
        None
    } else {
        match t[p] {
            Lexeme::NormalString(s) => Some((LiteralM::String(unquote(s)), p + 1)),
            Lexeme::Ident(s) => if s == true_text() {
                Some((LiteralM::Bool(true), p + 1))
            } else if s == false_text() {
                Some((LiteralM::Bool(false), p + 1))
            } else {
                None
            },
            Lexeme::Number(s) => Some((number_literal(s), p + 1)),
            Lexeme::LParen => {
                let (args, q) = annotated_list(t, p + 1);
                if tok_is(t, q, Lexeme::RParen) {
                    let (ret_type, r) = match type_term(t, q + 1) {
                        Some((ty, r)) => (ty, r),
                        None => (unit_type(), q + 1),
                    };
                    if advances(t, p, r) {
                        match block(t, r) {
                            Some((body, r2)) => Some(
                                (LiteralM::Function { args, ret_type, body }, r2),
                            ),
                            None => None,
                        }
                    } else {
                        None
                    }
                } else {
                    None
                }
            },
            _ => None,
        }
    }
}

//   Block := "{" (Expr (";" Expr)*)? "}"
pub open spec fn block(t: Seq<Lexeme>, p: int) -> Option<(Seq<ExprM>, int)>
    decreases t.len() - p, 1int,
{
    if tok_is(t, p, Lexeme::LBrace) {
        let (es, q) = exprs(t, p + 1, Lexeme::SemiColon);
        if tok_is(t, q, Lexeme::RBrace) {
            Some((es, q + 1))
        } else {
            None
        }
    } else {
        None
    }
}

/// Expressions separated by `sep`, as many as match (possibly none).
pub open spec fn exprs(t: Seq<Lexeme>, p: int, sep: Lexeme) -> (Seq<ExprM>, int)
    decreases t.len() - p, 5int,
{
    match expr(t, p) {
        Some((x, q)) => if advances(t, p, q) {
            let (xs, r) = exprs_tail(t, q, sep);
            (seq![x] + xs, r)
        } else {
            (Seq::empty(), p)
        },
        None => (Seq::empty(), p),
    }
}

pub open spec fn exprs_tail(t: Seq<Lexeme>, q: int, sep: Lexeme) -> (Seq<ExprM>, int)
    decreases t.len() - q, 0int,
{
    if tok_is(t, q, sep) {
        match expr(t, q + 1) {
            Some((x, r)) => if advances(t, q, r) {
                let (xs, r2) = exprs_tail(t, r, sep);
                (seq![x] + xs, r2)
            } else {
                (Seq::empty(), q)
            },
            None => (Seq::empty(), q),
        }
    } else {
        (Seq::empty(), q)
    }
}

//   Expr := Product (("+" | "-") Product)*
pub open spec fn expr(t: Seq<Lexeme>, p: int) -> Option<(ExprM, int)>
    decreases t.len() - p, 4int,
{
    match product(t, p) {
        Some((x, q)) => if advances(t, p, q) {
            Some(sum_tail(t, q, x))
        } else {
            None
        },
        None => None,
    }
}

pub open spec fn additive(t: Seq<Lexeme>, q: int) -> Option<BinaryOperator> {
    if tok_is(t, q, Lexeme::Plus) {
        Some(BinaryOperator::Add)
    } else if tok_is(t, q, Lexeme::Minus) {
        Some(BinaryOperator::Subtract)
    } else {
        None
    }
}

pub open spec fn multiplicative(t: Seq<Lexeme>, q: int) -> Option<BinaryOperator> {
    if tok_is(t, q, Lexeme::Multiply) {
        Some(BinaryOperator::Multiply)
    } else if tok_is(t, q, Lexeme::Divide) {
        Some(BinaryOperator::Divide)
    } else {
        None
    }
}

/// Folds further `+`/`-` operands onto `acc` from the left.
pub open spec fn sum_tail(t: Seq<Lexeme>, q: int, acc: ExprM) -> (ExprM, int)
    decreases t.len() - q, 0int,
{
    match additive(t, q) {
        Some(op) => match product(t, q + 1) {
            Some((rhs, r)) => if advances(t, q, r) {
                sum_tail(t, r, ExprM::BinaryOp { op, lhs: Box::new(acc), rhs: Box::new(rhs) })
            } else {
                (acc, q)
            },
            None => (acc, q),
        },
        None => (acc, q),
    }
}

//   Product := Atom (("*" | "/") Atom)*
pub open spec fn product(t: Seq<Lexeme>, p: int) -> Option<(ExprM, int)>
    decreases t.len() - p, 3int,
{
    match atom(t, p) {
        Some((x, q)) => if advances(t, p, q) {
            Some(product_tail(t, q, x))
        } else {
            None
        },
        None => None,
    }
}

/// Folds further `*`/`/` operands onto `acc` from the left.
pub open spec fn product_tail(t: Seq<Lexeme>, q: int, acc: ExprM) -> (ExprM, int)
    decreases t.len() - q, 0int,
{
    match multiplicative(t, q) {
        Some(op) => match atom(t, q + 1) {
            Some((rhs, r)) => if advances(t, q, r) {
                product_tail(
                    t,
                    r,
                    ExprM::BinaryOp { op, lhs: Box::new(acc), rhs: Box::new(rhs) },
                )
            } else {
                (acc, q)
            },
            None => (acc, q),
        },
        None => (acc, q),
    }
}

//   Atom := Literal | Binding | FunctionCall | MatchExpr | Ident
pub open spec fn atom(t: Seq<Lexeme>, p: int) -> Option<(ExprM, int)>
    decreases t.len() - p, 2int,
{
    match literal(t, p) {
        Some((l, q)) => Some((ExprM::Literal(l), q)),
        None => match binding_expr(t, p) {
            Some(r) => Some(r),
            None => match call_expr(t, p) {
                Some(r) => Some(r),
                None => match match_expr(t, p) {
                    Some(r) => Some(r),
                    None => match ident_at(t, p) {
                        Some(n) => Some((ExprM::Ident(n), p + 1)),
                        None => None,
                    },
                },
            },
        },
    }
}

//   Binding := Ident "::" Expr
pub open spec fn binding_expr(t: Seq<Lexeme>, p: int) -> Option<(ExprM, int)>
    decreases t.len() - p, 1int,
{
    match ident_at(t, p) {
        Some(n) => if tok_is(t, p + 1, Lexeme::DoubleColon) {
            match expr(t, p + 2) {
                Some((v, q)) => Some((ExprM::Binding { ident: n, value: Box::new(v) }, q)),
                None => None,
            }
        } else {
            None
        },
        None => None,
    }
}

//   FunctionCall := Ident "(" (Expr ("," Expr)*)? ")"
pub open spec fn call_expr(t: Seq<Lexeme>, p: int) -> Option<(ExprM, int)>
    decreases t.len() - p, 1int,
{
    match ident_at(t, p) {
        Some(n) => if tok_is(t, p + 1, Lexeme::LParen) {
            let (args, q) = exprs(t, p + 2, Lexeme::Comma);
            if tok_is(t, q, Lexeme::RParen) {
                Some((ExprM::FunctionCall(Box::new(ExprM::Ident(n)), args), q + 1))
            } else {
                None
            }
        } else {
            None
        },
        None => None,
    }
}

//   MatchExpr := "match" Expr ("|" Literal "=>" Expr)+
pub open spec fn match_expr(t: Seq<Lexeme>, p: int) -> Option<(ExprM, int)>
    decreases t.len() - p, 1int,
{
    if tok_is(t, p, Lexeme::Match) {
        match expr(t, p + 1) {
            Some((target, q)) => if advances(t, p, q) {
                let (conditions, r) = arms(t, q);
                if conditions.len() > 0 {
                    Some((ExprM::Match { target: Box::new(target), conditions }, r))
                } else {
                    None
                }
            } else {
                None
            },
            None => None,
        }
    } else {
        None
    }
}

/// The arms `| Literal => Expr`, as many as match (possibly none).
pub open spec fn arms(t: Seq<Lexeme>, q: int) -> (Seq<(LiteralM, ExprM)>, int)
    decreases t.len() - q, 0int,
{
    if tok_is(t, q, Lexeme::Bar) {
        match literal(t, q + 1) {
            Some((l, r)) => if advances(t, q, r) && tok_is(t, r, Lexeme::FatArrow) {
                match expr(t, r + 1) {
                    Some((e, r2)) => if advances(t, q, r2) {
                        let (cs, r3) = arms(t, r2);
                        (seq![(l, e)] + cs, r3)
                    } else {
                        (Seq::empty(), q)
                    },
                    None => (Seq::empty(), q),
                }
            } else {
                (Seq::empty(), q)
            },
            None => (Seq::empty(), q),
        }
    } else {
        (Seq::empty(), q)
    }
}

// ---------------------------------------------------------------------------
// Top level
//   ConstrainedType := Ident (":" Ident ("&" Ident)*)?
pub open spec fn ident_list(t: Seq<Lexeme>, p: int) -> (Seq<Seq<char>>, int) {
    match ident_at(t, p) {
        Some(n) => {
            let (ns, r) = ident_tail(t, p + 1);
            (seq![n] + ns, r)
        },
        None => (Seq::empty(), p),
    }
}

pub open spec fn ident_tail(t: Seq<Lexeme>, q: int) -> (Seq<Seq<char>>, int)
    decreases t.len() - q,
{
    if tok_is(t, q, Lexeme::And) {
        match ident_at(t, q + 1) {
            Some(n) => {
                let (ns, r) = ident_tail(t, q + 2);
                (seq![n] + ns, r)
            },
            None => (Seq::empty(), q),
        }
    } else {
        (Seq::empty(), q)
    }
}

pub open spec fn constrained_type(t: Seq<Lexeme>, p: int) -> Option<(ConstrainedTypeM, int)> {
    match ident_at(t, p) {
        Some(n) => {
            let (cs, q) = ident_list(t, p + 2);
            if tok_is(t, p + 1, Lexeme::Colon) && cs.len() > 0 {
                Some((ConstrainedTypeM { name: n, constraints: cs }, q))
            } else {
                Some((ConstrainedTypeM { name: n, constraints: Seq::empty() }, p + 1))
            }
        },
        None => None,
    }
}

pub open spec fn constrained_list(t: Seq<Lexeme>, p: int) -> (Seq<ConstrainedTypeM>, int) {
    match constrained_type(t, p) {
        Some((x, q)) => if advances(t, p, q) {
            let (xs, r) = constrained_tail(t, q);
            (seq![x] + xs, r)
        } else {
            (Seq::empty(), p)
        },
        None => (Seq::empty(), p),
    }
}

pub open spec fn constrained_tail(t: Seq<Lexeme>, q: int) -> (Seq<ConstrainedTypeM>, int)
    decreases t.len() - q,
{
    if tok_is(t, q, Lexeme::Comma) {
        match constrained_type(t, q + 1) {
            Some((x, r)) => if advances(t, q, r) {
                let (xs, r2) = constrained_tail(t, r);
                (seq![x] + xs, r2)
            } else {
                (Seq::empty(), q)
            },
            None => (Seq::empty(), q),
        }
    } else {
        (Seq::empty(), q)
    }
}

//   BindingLHS := Ident ("<" ConstrainedType ("," ConstrainedType)* ">")?
pub open spec fn binding_left_hand(t: Seq<Lexeme>, p: int) -> Option<(BindingLeftHandM, int)> {
    match ident_at(t, p) {
        Some(n) => {
            let (args, q) = constrained_list(t, p + 2);
            if tok_is(t, p + 1, Lexeme::LessThan) && tok_is(t, q, Lexeme::GreaterThan) && args.len()
                > 0 {
                Some((BindingLeftHandM { name: n, type_args: args }, q + 1))
            } else {
                Some((BindingLeftHandM { name: n, type_args: Seq::empty() }, p + 1))
            }
        },
        None => None,
    }
}

//   TopLevelDef := BindingLHS "::" Literal | "extern" Ident "::" TypeName
pub open spec fn binding_definition(t: Seq<Lexeme>, p: int) -> Option<
    (TopLevelDefinitionM, int),
> {
    match binding_left_hand(t, p) {
        Some((lhs, q)) => if tok_is(t, q, Lexeme::DoubleColon) {
            match literal(t, q + 1) {
                Some((rhs, r)) => Some((TopLevelDefinitionM::Binding { lhs, rhs }, r)),
                None => None,
            }
        } else {
            None
        },
        None => None,
    }
}

pub open spec fn foreign_definition(t: Seq<Lexeme>, p: int) -> Option<
    (TopLevelDefinitionM, int),
> {
    if tok_is(t, p, Lexeme::Extern) && tok_is(t, p + 2, Lexeme::DoubleColon) {
        match ident_at(t, p + 1) {
            Some(name) => match type_term(t, p + 3) {
                Some((rhs, q)) => Some((TopLevelDefinitionM::Extern { name, rhs }, q)),
                None => None,
            },
            None => None,
        }
    } else {
        None
    }
}

pub open spec fn top_level_definition(t: Seq<Lexeme>, p: int) -> Option<
    (TopLevelDefinitionM, int),
> {
    match binding_definition(t, p) {
        Some(r) => Some(r),
        None => foreign_definition(t, p),
    }
}

/// Top-level definitions, as many as match from `p`.
pub open spec fn definitions(t: Seq<Lexeme>, p: int) -> (Seq<TopLevelDefinitionM>, int)
    decreases t.len() - p,
{
    match top_level_definition(t, p) {
        Some((d, q)) => if advances(t, p, q) {
            let (ds, r) = definitions(t, q);
            (seq![d] + ds, r)
        } else {
            (Seq::empty(), p)
        },
        None => (Seq::empty(), p),
    }
}

//   File := TopLevelDef* EOF
pub open spec fn file(t: Seq<Lexeme>) -> Option<FileM> {
    let (ds, q) = definitions(t, 0);
    if q == t.len() {
        Some(FileM { definitions: ds })
    } else {
        None
    }
}

// ---------------------------------------------------------------------------
// Furthest failure
//
// Each function below gives the furthest position at which the recogniser of
// the same name tests a token and finds one that does not fit (or the end of
// the input), or -1 where every test it makes succeeds. Recognisers test
// alternatives in order and stop at the first that matches, so the failures
// of alternatives tried before a match count too.
pub open spec fn mx(a: int, b: int) -> int {
    if a >= b {
        a
    } else {
        b
    }
}

/// A single token test at `p`: no failure where it fits.
pub open spec fn miss(fits: bool, p: int) -> int {
    if fits {
        -1
    } else {
        p
    }
}

pub open spec fn fail_type_term(t: Seq<Lexeme>, p: int) -> int
    decreases t.len() - p, 2int,
{
    if !(0 <= p < t.len()) {
        p
    } else {
        match t[p] {
            Lexeme::Ident(_) => -1,
            Lexeme::LBracket => match type_term(t, p + 1) {
                Some((_, q)) => mx(fail_type_term(t, p + 1), miss(tok_is(t, q, Lexeme::RBracket), q)),
                None => fail_type_term(t, p + 1),
            },
            Lexeme::LParen => {
                let (_, q) = type_list(t, p + 1);
                let a = mx(fail_type_list(t, p + 1), miss(tok_is(t, q, Lexeme::RParen), q));
                if advances(t, p, q) && tok_is(t, q, Lexeme::RParen) {
                    mx(a, fail_type_term(t, q + 1))
                } else {
                    a
                }
            },
            _ => p,
        }
    }
}

pub open spec fn fail_type_list(t: Seq<Lexeme>, p: int) -> int
    decreases t.len() - p, 3int,
{
    let a = fail_type_term(t, p);
    match type_term(t, p) {
        Some((_, q)) => if advances(t, p, q) {
            mx(a, fail_type_list_tail(t, q))
        } else {
            a
        },
        None => a,
    }
}

pub open spec fn fail_type_list_tail(t: Seq<Lexeme>, q: int) -> int
    decreases t.len() - q, 1int,
{
    if tok_is(t, q, Lexeme::Comma) {
        let b = fail_type_term(t, q + 1);
        match type_term(t, q + 1) {
            Some((_, r)) => if advances(t, q, r) {
                mx(b, fail_type_list_tail(t, r))
            } else {
                b
            },
            None => b,
        }
    } else {
        q
    }
}

pub open spec fn fail_annotated_ident(t: Seq<Lexeme>, p: int) -> int {
    match ident_at(t, p) {
        Some(_) => if tok_is(t, p + 1, Lexeme::Colon) {
            fail_type_term(t, p + 2)
        } else {
            p + 1
        },
        None => p,
    }
}

pub open spec fn fail_annotated_list(t: Seq<Lexeme>, p: int) -> int {
    let a = fail_annotated_ident(t, p);
    match annotated_ident(t, p) {
        Some((_, q)) => if advances(t, p, q) {
            mx(a, fail_annotated_tail(t, q))
        } else {
            a
        },
        None => a,
    }
}

pub open spec fn fail_annotated_tail(t: Seq<Lexeme>, q: int) -> int
    decreases t.len() - q,
{
    if tok_is(t, q, Lexeme::Comma) {
        let b = fail_annotated_ident(t, q + 1);
        match annotated_ident(t, q + 1) {
            Some((_, r)) => if advances(t, q, r) {
                mx(b, fail_annotated_tail(t, r))
            } else {
                b
            },
            None => b,
        }
    } else {
        q
    }
}

pub open spec fn fail_literal(t: Seq<Lexeme>, p: int) -> int
    decreases t.len() - p, 1int,
{
    if !(0 <= p < t.len()) {
        p
    } else {
        match t[p] {
            Lexeme::NormalString(_) => -1,
            Lexeme::Number(_) => -1,
            Lexeme::Ident(s) => miss(s == true_text() || s == false_text(), p),
            Lexeme::LParen => {
                let (_, q) = annotated_list(t, p + 1);
                let a = mx(fail_annotated_list(t, p + 1), miss(tok_is(t, q, Lexeme::RParen), q));
                if tok_is(t, q, Lexeme::RParen) {
                    let b = mx(a, fail_type_term(t, q + 1));
                    let r = match type_term(t, q + 1) {
                        Some((_, r)) => r,
                        None => q + 1,
                    };
                    if advances(t, p, r) {
                        mx(b, fail_block(t, r))
                    } else {
                        b
                    }
                } else {
                    a
                }
            },
            _ => p,
        }
    }
}

pub open spec fn fail_block(t: Seq<Lexeme>, p: int) -> int
    decreases t.len() - p, 1int,
{
    if tok_is(t, p, Lexeme::LBrace) {
        let (_, q) = exprs(t, p + 1, Lexeme::SemiColon);
        mx(fail_exprs(t, p + 1, Lexeme::SemiColon), miss(tok_is(t, q, Lexeme::RBrace), q))
    } else {
        p
    }
}

pub open spec fn fail_exprs(t: Seq<Lexeme>, p: int, sep: Lexeme) -> int
    decreases t.len() - p, 5int,
{
    let a = fail_expr(t, p);
    match expr(t, p) {
        Some((_, q)) => if advances(t, p, q) {
            mx(a, fail_exprs_tail(t, q, sep))
        } else {
            a
        },
        None => a,
    }
}

pub open spec fn fail_exprs_tail(t: Seq<Lexeme>, q: int, sep: Lexeme) -> int
    decreases t.len() - q, 0int,
{
    if tok_is(t, q, sep) {
        let b = fail_expr(t, q + 1);
        match expr(t, q + 1) {
            Some((_, r)) => if advances(t, q, r) {
                mx(b, fail_exprs_tail(t, r, sep))
            } else {
                b
            },
            None => b,
        }
    } else {
        q
    }
}

pub open spec fn fail_expr(t: Seq<Lexeme>, p: int) -> int
    decreases t.len() - p, 4int,
{
    let a = fail_product(t, p);
    match product(t, p) {
        Some((_, q)) => if advances(t, p, q) {
            mx(a, fail_sum_tail(t, q))
        } else {
            a
        },
        None => a,
    }
}

/// `+` is tested first, then `-`.
pub open spec fn fail_sum_tail(t: Seq<Lexeme>, q: int) -> int
    decreases t.len() - q, 0int,
{
    let a = miss(tok_is(t, q, Lexeme::Plus), q);
    match additive(t, q) {
        Some(_) => {
            let b = mx(a, fail_product(t, q + 1));
            match product(t, q + 1) {
                Some((_, r)) => if advances(t, q, r) {
                    mx(b, fail_sum_tail(t, r))
                } else {
                    b
                },
                None => b,
            }
        },
        None => a,
    }
}

pub open spec fn fail_product(t: Seq<Lexeme>, p: int) -> int
    decreases t.len() - p, 3int,
{
    let a = fail_atom(t, p);
    match atom(t, p) {
        Some((_, q)) => if advances(t, p, q) {
            mx(a, fail_product_tail(t, q))
        } else {
            a
        },
        None => a,
    }
}

/// `*` is tested first, then `/`.
pub open spec fn fail_product_tail(t: Seq<Lexeme>, q: int) -> int
    decreases t.len() - q, 0int,
{
    let a = miss(tok_is(t, q, Lexeme::Multiply), q);
    match multiplicative(t, q) {
        Some(_) => {
            let b = mx(a, fail_atom(t, q + 1));
            match atom(t, q + 1) {
                Some((_, r)) => if advances(t, q, r) {
                    mx(b, fail_product_tail(t, r))
                } else {
                    b
                },
                None => b,
            }
        },
        None => a,
    }
}

pub open spec fn fail_atom(t: Seq<Lexeme>, p: int) -> int
    decreases t.len() - p, 2int,
{
    let a = fail_literal(t, p);
    if literal(t, p) is Some {
        a
    } else {
        let b = mx(a, fail_binding_expr(t, p));
        if binding_expr(t, p) is Some {
            b
        } else {
            let c = mx(b, fail_call_expr(t, p));
            if call_expr(t, p) is Some {
                c
            } else {
                let d = mx(c, fail_match_expr(t, p));
                if match_expr(t, p) is Some {
                    d
                } else {
                    mx(d, miss(ident_at(t, p) is Some, p))
                }
            }
        }
    }
}

pub open spec fn fail_binding_expr(t: Seq<Lexeme>, p: int) -> int
    decreases t.len() - p, 1int,
{
    match ident_at(t, p) {
        Some(_) => if tok_is(t, p + 1, Lexeme::DoubleColon) {
            fail_expr(t, p + 2)
        } else {
            p + 1
        },
        None => p,
    }
}

pub open spec fn fail_call_expr(t: Seq<Lexeme>, p: int) -> int
    decreases t.len() - p, 1int,
{
    match ident_at(t, p) {
        Some(_) => if tok_is(t, p + 1, Lexeme::LParen) {
            let (_, q) = exprs(t, p + 2, Lexeme::Comma);
            mx(fail_exprs(t, p + 2, Lexeme::Comma), miss(tok_is(t, q, Lexeme::RParen), q))
        } else {
            p + 1
        },
        None => p,
    }
}

pub open spec fn fail_match_expr(t: Seq<Lexeme>, p: int) -> int
    decreases t.len() - p, 1int,
{
    if tok_is(t, p, Lexeme::Match) {
        let a = fail_expr(t, p + 1);
        match expr(t, p + 1) {
            Some((_, q)) => if advances(t, p, q) {
                mx(a, fail_arms(t, q))
            } else {
                a
            },
            None => a,
        }
    } else {
        p
    }
}

pub open spec fn fail_arms(t: Seq<Lexeme>, q: int) -> int
    decreases t.len() - q, 0int,
{
    if tok_is(t, q, Lexeme::Bar) {
        let a = fail_literal(t, q + 1);
        match literal(t, q + 1) {
            Some((_, r)) => if !tok_is(t, r, Lexeme::FatArrow) {
                mx(a, r)
            } else if advances(t, q, r) {
                let b = mx(a, fail_expr(t, r + 1));
                match expr(t, r + 1) {
                    Some((_, r2)) => if advances(t, q, r2) {
                        mx(b, fail_arms(t, r2))
                    } else {
                        b
                    },
                    None => b,
                }
            } else {
                a
            },
            None => a,
        }
    } else {
        q
    }
}

pub open spec fn fail_ident_list(t: Seq<Lexeme>, p: int) -> int {
    match ident_at(t, p) {
        Some(_) => fail_ident_tail(t, p + 1),
        None => p,
    }
}

pub open spec fn fail_ident_tail(t: Seq<Lexeme>, q: int) -> int
    decreases t.len() - q,
{
    if tok_is(t, q, Lexeme::And) {
        match ident_at(t, q + 1) {
            Some(_) => fail_ident_tail(t, q + 2),
            None => q + 1,
        }
    } else {
        q
    }
}

pub open spec fn fail_constrained_type(t: Seq<Lexeme>, p: int) -> int {
    match ident_at(t, p) {
        Some(_) => if tok_is(t, p + 1, Lexeme::Colon) {
            fail_ident_list(t, p + 2)
        } else {
            p + 1
        },
        None => p,
    }
}

pub open spec fn fail_constrained_list(t: Seq<Lexeme>, p: int) -> int {
    let a = fail_constrained_type(t, p);
    match constrained_type(t, p) {
        Some((_, q)) => if advances(t, p, q) {
            mx(a, fail_constrained_tail(t, q))
        } else {
            a
        },
        None => a,
    }
}

pub open spec fn fail_constrained_tail(t: Seq<Lexeme>, q: int) -> int
    decreases t.len() - q,
{
    if tok_is(t, q, Lexeme::Comma) {
        let b = fail_constrained_type(t, q + 1);
        match constrained_type(t, q + 1) {
            Some((_, r)) => if advances(t, q, r) {
                mx(b, fail_constrained_tail(t, r))
            } else {
                b
            },
            None => b,
        }
    } else {
        q
    }
}

pub open spec fn fail_binding_left_hand(t: Seq<Lexeme>, p: int) -> int {
    match ident_at(t, p) {
        Some(_) => if tok_is(t, p + 1, Lexeme::LessThan) {
            let (_, q) = constrained_list(t, p + 2);
            mx(fail_constrained_list(t, p + 2), miss(tok_is(t, q, Lexeme::GreaterThan), q))
        } else {
            p + 1
        },
        None => p,
    }
}

pub open spec fn fail_binding_definition(t: Seq<Lexeme>, p: int) -> int {
    let a = fail_binding_left_hand(t, p);
    match binding_left_hand(t, p) {
        Some((_, q)) => if tok_is(t, q, Lexeme::DoubleColon) {
            mx(a, fail_literal(t, q + 1))
        } else {
            mx(a, q)
        },
        None => a,
    }
}

pub open spec fn fail_foreign_definition(t: Seq<Lexeme>, p: int) -> int {
    if !tok_is(t, p, Lexeme::Extern) {
        p
    } else if ident_at(t, p + 1) is None {
        p + 1
    } else if !tok_is(t, p + 2, Lexeme::DoubleColon) {
        p + 2
    } else {
        fail_type_term(t, p + 3)
    }
}

pub open spec fn fail_top_level_definition(t: Seq<Lexeme>, p: int) -> int {
    let a = fail_binding_definition(t, p);
    if binding_definition(t, p) is Some {
        a
    } else {
        mx(a, fail_foreign_definition(t, p))
    }
}

pub open spec fn fail_definitions(t: Seq<Lexeme>, p: int) -> int
    decreases t.len() - p,
{
    let a = fail_top_level_definition(t, p);
    match top_level_definition(t, p) {
        Some((_, q)) => if advances(t, p, q) {
            mx(a, fail_definitions(t, q))
        } else {
            a
        },
        None => a,
    }
}

/// The furthest position reached when the file does not parse: the furthest
/// failed test, or where the definitions stop short of the end if no test
/// failed further on.
pub open spec fn fail_file(t: Seq<Lexeme>) -> int {
    mx(fail_definitions(t, 0), definitions(t, 0).1)
}

} // verus!
