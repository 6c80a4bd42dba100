//! Properties that hold of every input, stated over the lexical rules and
//! the grammar that the lexer's and parser's contracts refer to.
use crate::ast::{BinaryOperator, ExprM, LiteralM, TopLevelDefinitionM};
use crate::grammar::{
    additive, advances, annotated_list, atom, binding_definition, binding_left_hand, expr, literal,
    multiplicative, product, product_tail, sum_tail, tok_is, type_term, unit_type,
};
use crate::lexer::{char_end, lex_from, lex_spec, skip_at, token_at, Lexeme};
use vstd::prelude::*;
use vstd::utf8::{
    encode_utf8, encode_utf8_valid_utf8, is_char_boundary, is_char_boundary_iff_not_is_continuation_byte,
    is_char_boundary_start_end_of_seq, valid_utf8,
};

verus! {

/// Lexing is a function of the text alone: two texts with the same
/// characters give the same tokens, or the same failure.
pub proof fn lemma_lexing_is_deterministic(a: Seq<char>, b: Seq<char>)
    requires
        a == b,
    ensures
        lex_spec(a) == lex_spec(b),
{
}

/// Where lexing fails, the reported range is exactly one character that
/// starts no token and no skipped run: it begins and ends on character
/// boundaries, and every byte after its first is a continuation byte.
pub proof fn lemma_unrecognized_range(s: Seq<char>)
    ensures
        lex_spec(s) matches Err((a, e)) ==> {
            let b = encode_utf8(s);
            &&& 0 <= a < e <= b.len()
            &&& is_char_boundary(b, a)
            &&& is_char_boundary(b, e)
            &&& e == char_end(b, a + 1)
            &&& skip_at(b, a) is None
            &&& token_at(b, a) is None
        },
{
    let b = encode_utf8(s);
    encode_utf8_valid_utf8(s);
    is_char_boundary_start_end_of_seq(b);
    lemma_lex_failure(b, 0);
    if let Err((a, e)) = lex_spec(s) {
        crate::lexer::lemma_ends_advance(b, a + 1);
        if e < b.len() {
            is_char_boundary_iff_not_is_continuation_byte(b, e);
        }
    }
}

proof fn lemma_lex_failure(b: Seq<u8>, i: int)
    requires
        0 <= i,
        valid_utf8(b),
        is_char_boundary(b, i),
    ensures
        lex_from(b, i) matches Err((a, e)) ==> {
            &&& i <= a < e <= b.len()
            &&& is_char_boundary(b, a)
            &&& e == char_end(b, a + 1)
            &&& skip_at(b, a) is None
            &&& token_at(b, a) is None
        },
    decreases b.len() - i,
{
    if i < b.len() {
        crate::lexer::lemma_progress(b, i);
        crate::lexer::lemma_ends_advance(b, i + 1);
        crate::lexer::lemma_end_on_boundary(b, i);
        match skip_at(b, i) {
            Some(e) => lemma_lex_failure(b, e),
            None => match token_at(b, i) {
                Some((_, e)) => lemma_lex_failure(b, e),
                None => {},
            },
        }
    }
}

/// A function literal bound at top level that names no return type gets
/// the return type `unit`, whatever the left-hand side is, generic or not.
pub proof fn lemma_implicit_return_type(t: Seq<Lexeme>, p: int)
    requires
        binding_left_hand(t, p) matches Some((_, q)) && tok_is(t, q, Lexeme::DoubleColon)
            && tok_is(t, q + 1, Lexeme::LParen) && tok_is(
            t,
            annotated_list(t, q + 2).1 + 1,
            Lexeme::LBrace,
        ),
        binding_definition(t, p) is Some,
    ensures
        binding_definition(t, p) matches Some(
            (TopLevelDefinitionM::Binding { rhs: LiteralM::Function { ret_type, .. }, .. }, _),
        ) && ret_type == unit_type(),
{
    if let Some((_, q)) = binding_left_hand(t, p) {
        let c = annotated_list(t, q + 2).1;
        assert(type_term(t, c + 1) is None);
        assert(literal(t, q + 1) is Some);
    }
}

pub open spec fn is_additive(e: ExprM) -> bool {
    e matches ExprM::BinaryOp { op, .. } && (op == BinaryOperator::Add || op
        == BinaryOperator::Subtract)
}

/// Every `*`/`/` node along the left spine has an operand on its right that
/// is no operator node: products lean left.
pub open spec fn leans_left_product(e: ExprM) -> bool
    decreases e,
{
    match e {
        ExprM::BinaryOp { op, lhs, rhs } => if op == BinaryOperator::Multiply || op
            == BinaryOperator::Divide {
            !(*rhs is BinaryOp) && leans_left_product(*lhs)
        } else {
            true
        },
        _ => true,
    }
}

/// Every `+`/`-` node along the left spine has no `+`/`-` node on its right:
/// sums lean left, and the right operands are products.
pub open spec fn leans_left_sum(e: ExprM) -> bool
    decreases e,
{
    match e {
        ExprM::BinaryOp { op, lhs, rhs } => if op == BinaryOperator::Add || op
            == BinaryOperator::Subtract {
            !is_additive(*rhs) && leans_left_product(*rhs) && leans_left_sum(*lhs)
        } else {
            true
        },
        _ => true,
    }
}

proof fn lemma_atom_is_operand(t: Seq<Lexeme>, p: int)
    ensures
        atom(t, p) matches Some((e, _)) ==> !(e is BinaryOp),
{
}

proof fn lemma_product_tail_shape(t: Seq<Lexeme>, q: int, acc: ExprM)
    requires
        !is_additive(acc),
        leans_left_product(acc),
    ensures
        !is_additive(product_tail(t, q, acc).0),
        leans_left_product(product_tail(t, q, acc).0),
    decreases t.len() - q,
{
    if let Some(op) = multiplicative(t, q) {
        if let Some((rhs, r)) = atom(t, q + 1) {
            if advances(t, q, r) {
                lemma_atom_is_operand(t, q + 1);
                lemma_product_tail_shape(
                    t,
                    r,
                    ExprM::BinaryOp { op, lhs: Box::new(acc), rhs: Box::new(rhs) },
                );
            }
        }
    }
}

proof fn lemma_product_shape(t: Seq<Lexeme>, p: int)
    ensures
        product(t, p) matches Some((e, _)) ==> !is_additive(e) && leans_left_product(e),
{
    if let Some((x, q)) = atom(t, p) {
        lemma_atom_is_operand(t, p);
        lemma_product_tail_shape(t, q, x);
    }
}

proof fn lemma_sum_tail_shape(t: Seq<Lexeme>, q: int, acc: ExprM)
    requires
        leans_left_sum(acc),
    ensures
        leans_left_sum(sum_tail(t, q, acc).0),
    decreases t.len() - q,
{
    if let Some(op) = additive(t, q) {
        if let Some((rhs, r)) = product(t, q + 1) {
            if advances(t, q, r) {
                lemma_product_shape(t, q + 1);
                lemma_sum_tail_shape(
                    t,
                    r,
                    ExprM::BinaryOp { op, lhs: Box::new(acc), rhs: Box::new(rhs) },
                );
            }
        }
    }
}

/// `*` and `/` bind tighter than `+` and `-`, and all four fold from the
/// left: in any expression, the right operand of a `+`/`-` node is never a
/// `+`/`-` node, the right operand of a `*`/`/` node is never an operator
/// node, and this holds all along the left spine.
pub proof fn lemma_precedence_and_left_folding(t: Seq<Lexeme>, p: int)
    ensures
        expr(t, p) matches Some((e, _)) ==> leans_left_sum(e),
        product(t, p) matches Some((e, _)) ==> leans_left_product(e),
{
    lemma_product_shape(t, p);
    if let Some((x, q)) = product(t, p) {
        assert(leans_left_sum(x)) by {
            if let ExprM::BinaryOp { op, .. } = x {
                assert(op == BinaryOperator::Multiply || op == BinaryOperator::Divide);
            }
        }
        lemma_sum_tail_shape(t, q, x);
    }
}

/// A function literal that names no return type, in any position, gets the
/// return type `unit`.
pub proof fn lemma_function_literal_default_return(t: Seq<Lexeme>, p: int)
    requires
        tok_is(t, p, Lexeme::LParen),
        tok_is(t, annotated_list(t, p + 1).1 + 1, Lexeme::LBrace),
        literal(t, p) is Some,
    ensures
        literal(t, p) matches Some((LiteralM::Function { ret_type, .. }, _)) && ret_type
            == unit_type(),
{
    let c = annotated_list(t, p + 1).1;
    assert(type_term(t, c + 1) is None);
}

} // verus!
