use std::ops::Range;
use vstd::prelude::*;
use vstd::string::StringSliceAdditionalSpecFns;
use vstd::utf8::*;

verus! {

broadcast use vstd::string::group_string_axioms;

/// One lexeme of the source text. Payload variants borrow the matched text.
#[derive(Clone, Copy, Debug, PartialEq, Eq, Hash)]
pub enum Token<'a> {
    Comma,
    DoubleColon,
    Colon,
    SemiColon,
    Ident(&'a str),
    LParen,
    RParen,
    LBracket,
    RBracket,
    Exclamation,
    FatArrow,
    NormalString(&'a str),
    And,
    LBrace,
    RBrace,
    LessThan,
    GreaterThan,
    Number(&'a str),
    Plus,
    Minus,
    Multiply,
    Divide,
    Bar,
    Match,
    Extern,
}

/// The abstract value of a token: its kind and, for payload kinds, its text.
pub enum Lexeme {
    Comma,
    DoubleColon,
    Colon,
    SemiColon,
    Ident(Seq<char>),
    LParen,
    RParen,
    LBracket,
    RBracket,
    Exclamation,
    FatArrow,
    NormalString(Seq<char>),
    And,
    LBrace,
    RBrace,
    LessThan,
    GreaterThan,
    Number(Seq<char>),
    Plus,
    Minus,
    Multiply,
    Divide,
    Bar,
    Match,
    Extern,
}

impl<'a> View for Token<'a> {
    type V = Lexeme;

    open spec fn view(&self) -> Lexeme {
        match *self {
            Token::Comma => Lexeme::Comma,
            Token::DoubleColon => Lexeme::DoubleColon,
            Token::Colon => Lexeme::Colon,
            Token::SemiColon => Lexeme::SemiColon,
            Token::Ident(s) => Lexeme::Ident(s@),
            Token::LParen => Lexeme::LParen,
            Token::RParen => Lexeme::RParen,
            Token::LBracket => Lexeme::LBracket,
            Token::RBracket => Lexeme::RBracket,
            Token::Exclamation => Lexeme::Exclamation,
            Token::FatArrow => Lexeme::FatArrow,
            Token::NormalString(s) => Lexeme::NormalString(s@),
            Token::And => Lexeme::And,
            Token::LBrace => Lexeme::LBrace,
            Token::RBrace => Lexeme::RBrace,
            Token::LessThan => Lexeme::LessThan,
            Token::GreaterThan => Lexeme::GreaterThan,
            Token::Number(s) => Lexeme::Number(s@),
            Token::Plus => Lexeme::Plus,
            Token::Minus => Lexeme::Minus,
            Token::Multiply => Lexeme::Multiply,
            Token::Divide => Lexeme::Divide,
            Token::Bar => Lexeme::Bar,
            Token::Match => Lexeme::Match,
            Token::Extern => Lexeme::Extern,
        }
    }
}

/// Lexer state reserved for interpolated strings (`${...}` splicing). The
/// current grammar has plain strings only, so the lexer never leaves the
/// initial state.
#[derive(Debug, PartialEq)]
pub struct LogosState {
    string_state: StringState,
}

#[derive(Debug, PartialEq)]
pub(crate) enum StringState {
    NotStarted,
    Started,
}

impl LogosState {
    /// Whether no interpolated string has been opened.
    pub closed spec fn is_initial(&self) -> bool {
        self.string_state == StringState::NotStarted
    }
}

impl Default for LogosState {
    fn default() -> (r: LogosState)
        ensures
            r.is_initial(),
    {
        LogosState { string_state: StringState::NotStarted }
    }
}

// ---------------------------------------------------------------------------
// Byte classes
pub open spec fn is_space(c: u8) -> bool {
    c == 32 || c == 9 || c == 13 || c == 10
}

pub open spec fn is_digit(c: u8) -> bool {
    48 <= c <= 57
}

pub open spec fn is_ident_start(c: u8) -> bool {
    (65 <= c <= 90) || (97 <= c <= 122) || c == 95
}

pub open spec fn is_ident_char(c: u8) -> bool {
    is_ident_start(c) || is_digit(c)
}

// ---------------------------------------------------------------------------
// Extents of the lexical patterns, as byte offsets into `b`
/// End of the run of identifier characters that starts at `i`.
pub open spec fn ident_end(b: Seq<u8>, i: int) -> int
    decreases b.len() - i,
{
    if 0 <= i < b.len() && is_ident_char(b[i]) {
        ident_end(b, i + 1)
    } else {
        i
    }
}

/// End of the run of decimal digits that starts at `i`.
pub open spec fn digits_end(b: Seq<u8>, i: int) -> int
    decreases b.len() - i,
{
    if 0 <= i < b.len() && is_digit(b[i]) {
        digits_end(b, i + 1)
    } else {
        i
    }
}

/// End of a number `[0-9]+(\.[0-9]+)?` whose first digit is at `i`.
pub open spec fn number_end(b: Seq<u8>, i: int) -> int {
    let d = digits_end(b, i);
    if d + 1 < b.len() && b[d] == 46 && is_digit(b[d + 1]) {
        digits_end(b, d + 1)
    } else {
        d
    }
}

/// Offset of the first line feed at or after `i`, or the end of the text.
pub open spec fn line_end(b: Seq<u8>, i: int) -> int
    decreases b.len() - i,
{
    if 0 <= i < b.len() && b[i] != 10 {
        line_end(b, i + 1)
    } else {
        i
    }
}

/// Offset just past the first `*/` at or after `i`, if there is one.
pub open spec fn block_comment_end(b: Seq<u8>, i: int) -> Option<int>
    decreases b.len() - i,
{
    if i < 0 || i + 1 >= b.len() {
        None
    } else if b[i] == 42 && b[i + 1] == 47 {
        Some(i + 2)
    } else {
        block_comment_end(b, i + 1)
    }
}

/// The end of the longest string literal whose body is scanned from `i`:
/// every `"` inside the body is escaped by a backslash, and the body holds no
/// `${`. `last` is the end of the longest literal found before `i`.
pub open spec fn string_end(b: Seq<u8>, i: int, last: Option<int>) -> Option<int>
    decreases b.len() - i,
{
    if i < 1 || i >= b.len() {
        last
    } else if b[i] == 34 {
        if b[i - 1] == 92 {
            string_end(b, i + 1, Some(i + 1))
        } else {
            Some(i + 1)
        }
    } else if b[i] == 36 && i + 1 < b.len() && b[i + 1] == 123 {
        last
    } else {
        string_end(b, i + 1, last)
    }
}

/// End of the character whose first byte is just before `i`.
pub open spec fn char_end(b: Seq<u8>, i: int) -> int
    decreases b.len() - i,
{
    if 0 <= i < b.len() && is_continuation_byte(b[i]) {
        char_end(b, i + 1)
    } else {
        i
    }
}

/// The text of the bytes `b[s..e]`.
pub open spec fn text_of(b: Seq<u8>, s: int, e: int) -> Seq<char> {
    decode_utf8(b.subrange(s, e))
}

pub open spec fn is_match_keyword(w: Seq<u8>) -> bool {
    w == seq![109u8, 97u8, 116u8, 99u8, 104u8]
}

pub open spec fn is_extern_keyword(w: Seq<u8>) -> bool {
    w == seq![101u8, 120u8, 116u8, 101u8, 114u8, 110u8]
}

/// Where a skipped run (whitespace or a comment) that starts at `i` ends.
pub open spec fn skip_at(b: Seq<u8>, i: int) -> Option<int> {
    if !(0 <= i < b.len()) {
        None
    } else if is_space(b[i]) {
        Some(i + 1)
    } else if b[i] == 47 && i + 1 < b.len() && b[i + 1] == 47 {
        Some(line_end(b, i + 2))
    } else if b[i] == 47 && i + 1 < b.len() && b[i + 1] == 42 {
        block_comment_end(b, i + 2)
    } else {
        None
    }
}

/// The single-byte punctuation tokens.
pub open spec fn punct(c: u8) -> Option<Lexeme> {
    if c == 44 {
        Some(Lexeme::Comma)
    } else if c == 59 {
        Some(Lexeme::SemiColon)
    } else if c == 40 {
        Some(Lexeme::LParen)
    } else if c == 41 {
        Some(Lexeme::RParen)
    } else if c == 91 {
        Some(Lexeme::LBracket)
    } else if c == 93 {
        Some(Lexeme::RBracket)
    } else if c == 33 {
        Some(Lexeme::Exclamation)
    } else if c == 38 {
        Some(Lexeme::And)
    } else if c == 123 {
        Some(Lexeme::LBrace)
    } else if c == 125 {
        Some(Lexeme::RBrace)
    } else if c == 60 {
        Some(Lexeme::LessThan)
    } else if c == 62 {
        Some(Lexeme::GreaterThan)
    } else if c == 43 {
        Some(Lexeme::Plus)
    } else if c == 45 {
        Some(Lexeme::Minus)
    } else if c == 42 {
        Some(Lexeme::Multiply)
    } else if c == 47 {
        Some(Lexeme::Divide)
    } else if c == 124 {
        Some(Lexeme::Bar)
    } else {
        None
    }
}

/// The longest token that starts at `i`, with the offset where it ends.
pub open spec fn token_at(b: Seq<u8>, i: int) -> Option<(Lexeme, int)> {
    if !(0 <= i < b.len()) {
        None
    } else {
        let c = b[i];
        if c == 58 {
            if i + 1 < b.len() && b[i + 1] == 58 {
                Some((Lexeme::DoubleColon, i + 2))
            } else {
                Some((Lexeme::Colon, i + 1))
            }
        } else if c == 61 {
            if i + 1 < b.len() && b[i + 1] == 62 {
                Some((Lexeme::FatArrow, i + 2))
            } else {
                None
            }
        } else if c == 34 {
            match string_end(b, i + 1, None) {
                Some(e) => Some((Lexeme::NormalString(text_of(b, i, e)), e)),
                None => None,
            }
        } else if is_digit(c) {
            let e = number_end(b, i);
            Some((Lexeme::Number(text_of(b, i, e)), e))
        } else if is_ident_start(c) {
            let e = ident_end(b, i);
            let w = b.subrange(i, e);
            if is_match_keyword(w) {
                Some((Lexeme::Match, e))
            } else if is_extern_keyword(w) {
                Some((Lexeme::Extern, e))
            } else {
                Some((Lexeme::Ident(text_of(b, i, e)), e))
            }
        } else {
            match punct(c) {
                Some(l) => Some((l, i + 1)),
                None => None,
            }
        }
    }
}

pub proof fn lemma_ends_advance(b: Seq<u8>, i: int)
    ensures
        ident_end(b, i) >= i,
        digits_end(b, i) >= i,
        line_end(b, i) >= i,
        char_end(b, i) >= i,
        ident_end(b, i) <= b.len() || ident_end(b, i) == i,
        digits_end(b, i) <= b.len() || digits_end(b, i) == i,
        line_end(b, i) <= b.len() || line_end(b, i) == i,
        char_end(b, i) <= b.len() || char_end(b, i) == i,
        block_comment_end(b, i) matches Some(e) ==> i + 2 <= e <= b.len(),
        ident_end(b, i) > i ==> is_ident_char(b[ident_end(b, i) - 1]),
        digits_end(b, i) > i ==> is_digit(b[digits_end(b, i) - 1]),
        i >= 0 ==> line_end(b, i) < b.len() ==> b[line_end(b, i)] == 10,
        block_comment_end(b, i) matches Some(e) ==> b[e - 1] == 47,
        i >= 0 ==> char_end(b, i) < b.len() ==> !is_continuation_byte(b[char_end(b, i)]),
    decreases b.len() - i,
{
    if 0 <= i < b.len() {
        lemma_ends_advance(b, i + 1);
    }
}

pub proof fn lemma_string_end_bounds(b: Seq<u8>, i: int, last: Option<int>)
    requires
        last matches Some(e) ==> 1 <= e <= b.len() && b[e - 1] == 34,
    ensures
        string_end(b, i, last) matches Some(e) ==> 1 <= e <= b.len() && (e > i || Some(e)
            == last) && b[e - 1] == 34,
    decreases b.len() - i,
{
    if 1 <= i < b.len() {
        if b[i] == 34 {
            if b[i - 1] == 92 {
                lemma_string_end_bounds(b, i + 1, Some(i + 1));
            }
        } else {
            lemma_string_end_bounds(b, i + 1, last);
        }
    }
}

/// Every skipped run and every token makes progress.
pub proof fn lemma_progress(b: Seq<u8>, i: int)
    requires
        0 <= i < b.len(),
    ensures
        skip_at(b, i) matches Some(e) ==> i < e <= b.len(),
        token_at(b, i) matches Some((_, e)) ==> i < e <= b.len(),
{
    lemma_ends_advance(b, i + 2);
    lemma_ends_advance(b, i + 1);
    lemma_ends_advance(b, i);
    lemma_string_end_bounds(b, i + 1, None);
    if is_digit(b[i]) {
        let d = digits_end(b, i);
        lemma_ends_advance(b, d + 1);
        assert(digits_end(b, i) == digits_end(b, i + 1));
    }
    if is_ident_start(b[i]) {
        assert(ident_end(b, i) == ident_end(b, i + 1));
    }
}

/// What lexing the bytes `b` from offset `i` gives: the tokens, or the byte
/// range of the first character that starts no token and no skipped run.
pub open spec fn lex_from(b: Seq<u8>, i: int) -> Result<Seq<Lexeme>, (int, int)>
    decreases b.len() - i,
{
    if i < 0 || i >= b.len() {
        Ok(Seq::empty())
    } else {
        proof {
            lemma_progress(b, i);
        }
        match skip_at(b, i) {
            Some(e) => lex_from(b, e),
            None => match token_at(b, i) {
                Some((l, e)) => match lex_from(b, e) {
                    Ok(rest) => Ok(seq![l] + rest),
                    Err(r) => Err(r),
                },
                None => Err((i, char_end(b, i + 1))),
            },
        }
    }
}

/// What lexing the whole text `s` gives.
pub open spec fn lex_spec(s: Seq<char>) -> Result<Seq<Lexeme>, (int, int)> {
    lex_from(encode_utf8(s), 0)
}

/// Every skipped run and every token ends on a character boundary.
pub proof fn lemma_end_on_boundary(b: Seq<u8>, i: int)
    requires
        valid_utf8(b),
        0 <= i < b.len(),
    ensures
        skip_at(b, i) matches Some(e) ==> is_char_boundary(b, e),
        token_at(b, i) matches Some((_, e)) ==> is_char_boundary(b, e),
{
    lemma_progress(b, i);
    lemma_ends_advance(b, i);
    lemma_ends_advance(b, i + 1);
    lemma_ends_advance(b, i + 2);
    lemma_string_end_bounds(b, i + 1, None);
    if let Some(e) = skip_at(b, i) {
        lemma_boundary(b, e);
    }
    if let Some((_, e)) = token_at(b, i) {
        if is_digit(b[i]) {
            let d = digits_end(b, i);
            lemma_ends_advance(b, d + 1);
            assert(digits_end(b, i) == digits_end(b, i + 1));
        }
        if is_ident_start(b[i]) {
            assert(ident_end(b, i) == ident_end(b, i + 1));
        }
        lemma_boundary(b, e);
    }
}

// ---------------------------------------------------------------------------
// Executable lexer
/// Tokens before an outcome: prepended to a success, dropped on a failure.
pub open spec fn prepend(p: Seq<Lexeme>, r: Result<Seq<Lexeme>, (int, int)>) -> Result<
    Seq<Lexeme>,
    (int, int),
> {
    match r {
        Ok(rest) => Ok(p + rest),
        Err(e) => Err(e),
    }
}

/// The abstract values of a token sequence.
pub open spec fn lexemes<'a>(toks: Seq<Token<'a>>) -> Seq<Lexeme> {
    toks.map_values(|t: Token<'a>| t@)
}

proof fn lemma_after_ascii(b: Seq<u8>, i: int)
    requires
        valid_utf8(b),
        0 <= i < b.len(),
        b[i] < 128,
    ensures
        is_char_boundary(b, i + 1),
    decreases b.len(),
{
    if i == 0 {
        assert(is_char_boundary(pop_first_scalar(b), 0));
    } else {
        is_char_boundary_iff_not_is_continuation_byte(b, i);
        let l = length_of_first_scalar(b);
        let rest = pop_first_scalar(b);
        assert(rest[i - l] == b[i]);
        lemma_after_ascii(rest, i - l);
    }
}

/// An offset of `b` that is the end of the text or holds an ASCII byte, or
/// directly follows an ASCII byte, is a character boundary.
proof fn lemma_boundary(b: Seq<u8>, i: int)
    requires
        valid_utf8(b),
        0 <= i <= b.len(),
        i == b.len() || b[i] < 128 || (i > 0 && b[i - 1] < 128),
    ensures
        is_char_boundary(b, i),
{
    is_char_boundary_start_end_of_seq(b);
    if i < b.len() && b[i] < 128 {
        is_char_boundary_iff_not_is_continuation_byte(b, i);
    } else if i < b.len() {
        lemma_after_ascii(b, i - 1);
    }
}

/// The text between two character boundaries of `s`.
fn slice_text<'a>(s: &'a str, start: usize, end: usize) -> (r: &'a str)
    requires
        start <= end <= s.spec_bytes().len(),
        is_char_boundary(s.spec_bytes(), start as int),
        is_char_boundary(s.spec_bytes(), end as int),
    ensures
        r@ == text_of(s.spec_bytes(), start as int, end as int),
{
    let ghost b = s.spec_bytes();
    proof {
        encode_utf8_valid_utf8(s@);
    }
    let (_, rest) = s.split_at(start);
    let ghost rb = rest.spec_bytes();
    proof {
        valid_utf8_split(b, start as int);
        is_char_boundary_start_end_of_seq(rb);
        if (end as int) < b.len() {
            is_char_boundary_iff_not_is_continuation_byte(b, end as int);
            is_char_boundary_iff_not_is_continuation_byte(rb, (end - start) as int);
            assert(rb[(end - start) as int] == b[end as int]);
        }
    }
    let (piece, _) = rest.split_at(end - start);
    proof {
        encode_utf8_decode_utf8(piece@);
        assert(piece.spec_bytes() =~= b.subrange(start as int, end as int));
    }
    piece
}

fn ident_char(c: u8) -> (r: bool)
    ensures
        r == is_ident_char(c),
{
    (65 <= c && c <= 90) || (97 <= c && c <= 122) || c == 95 || (48 <= c && c <= 57)
}

fn digit(c: u8) -> (r: bool)
    ensures
        r == is_digit(c),
{
    48 <= c && c <= 57
}

fn scan_ident(b: &[u8], i: usize) -> (r: usize)
    requires
        i <= b@.len(),
    ensures
        r == ident_end(b@, i as int),
        i <= r <= b@.len(),
        r > i ==> is_ident_char(b@[r - 1]),
{
    proof {
        lemma_ends_advance(b@, i as int);
    }
    let mut j = i;
    while j < b.len() && ident_char(b[j])
        invariant
            i <= j <= b@.len(),
            ident_end(b@, j as int) == ident_end(b@, i as int),
        decreases b@.len() - j,
    {
        j = j + 1;
    }
    j
}

fn scan_digits(b: &[u8], i: usize) -> (r: usize)
    requires
        i <= b@.len(),
    ensures
        r == digits_end(b@, i as int),
        i <= r <= b@.len(),
{
    let mut j = i;
    while j < b.len() && digit(b[j])
        invariant
            i <= j <= b@.len(),
            digits_end(b@, j as int) == digits_end(b@, i as int),
        decreases b@.len() - j,
    {
        j = j + 1;
    }
    j
}

fn scan_number(b: &[u8], i: usize) -> (r: usize)
    requires
        i <= b@.len(),
    ensures
        r == number_end(b@, i as int),
        i <= r <= b@.len(),
        i < b@.len() && is_digit(b@[i as int]) ==> r > i && is_digit(b@[r - 1]),
{
    proof {
        lemma_ends_advance(b@, i as int);
        lemma_ends_advance(b@, i + 1);
    }
    let d = scan_digits(b, i);
    if d < b.len() && b[d] == 46 && d + 1 < b.len() && digit(b[d + 1]) {
        proof {
            lemma_ends_advance(b@, d + 1);
            lemma_ends_advance(b@, d + 2);
        }
        scan_digits(b, d + 1)
    } else {
        d
    }
}

fn scan_line(b: &[u8], i: usize) -> (r: usize)
    requires
        i <= b@.len(),
    ensures
        r == line_end(b@, i as int),
        i <= r <= b@.len(),
{
    let mut j = i;
    while j < b.len() && b[j] != 10
        invariant
            i <= j <= b@.len(),
            line_end(b@, j as int) == line_end(b@, i as int),
        decreases b@.len() - j,
    {
        j = j + 1;
    }
    j
}

fn scan_char(b: &[u8], i: usize) -> (r: usize)
    requires
        i <= b@.len(),
    ensures
        r == char_end(b@, i as int),
        i <= r <= b@.len(),
{
    let mut j = i;
    while j < b.len() && 128 <= b[j] && b[j] <= 191
        invariant
            i <= j <= b@.len(),
            char_end(b@, j as int) == char_end(b@, i as int),
        decreases b@.len() - j,
    {
        j = j + 1;
    }
    j
}

fn scan_block_comment(b: &[u8], i: usize) -> (r: Option<usize>)
    requires
        i <= b@.len(),
    ensures
        r matches Some(e) ==> block_comment_end(b@, i as int) == Some(e as int),
        r is None ==> block_comment_end(b@, i as int) is None,
{
    let mut j = i;
    while j < b.len() && j + 1 < b.len()
        invariant
            i <= j <= b@.len(),
            block_comment_end(b@, j as int) == block_comment_end(b@, i as int),
        decreases b@.len() - j,
    {
        if b[j] == 42 && b[j + 1] == 47 {
            return Some(j + 2);
        }
        j = j + 1;
    }
    None
}

fn scan_string(b: &[u8], i: usize) -> (r: Option<usize>)
    requires
        1 <= i <= b@.len(),
    ensures
        r matches Some(e) ==> string_end(b@, i as int, None) == Some(e as int),
        r is None ==> string_end(b@, i as int, None) is None,
{
    let mut j = i;
    let mut last: Option<usize> = None;
    while j < b.len()
        invariant
            1 <= i <= j <= b@.len(),
            last matches Some(e) ==> e <= j,
            string_end(b@, i as int, None) == string_end(
                b@,
                j as int,
                match last {
                    Some(e) => Some(e as int),
                    None => None,
                },
            ),
        decreases b@.len() - j,
    {
        if b[j] == 34 {
            if b[j - 1] == 92 {
                last = Some(j + 1);
            } else {
                return Some(j + 1);
            }
        } else if b[j] == 36 && j + 1 < b.len() && b[j + 1] == 123 {
            return last;
        }
        j = j + 1;
    }
    last
}

fn punct_token<'a>(c: u8) -> (r: Option<Token<'a>>)
    ensures
        r matches Some(t) ==> punct(c) == Some(t@),
        r is None ==> punct(c) is None,
{
    if c == 44 {
        Some(Token::Comma)
    } else if c == 59 {
        Some(Token::SemiColon)
    } else if c == 40 {
        Some(Token::LParen)
    } else if c == 41 {
        Some(Token::RParen)
    } else if c == 91 {
        Some(Token::LBracket)
    } else if c == 93 {
        Some(Token::RBracket)
    } else if c == 33 {
        Some(Token::Exclamation)
    } else if c == 38 {
        Some(Token::And)
    } else if c == 123 {
        Some(Token::LBrace)
    } else if c == 125 {
        Some(Token::RBrace)
    } else if c == 60 {
        Some(Token::LessThan)
    } else if c == 62 {
        Some(Token::GreaterThan)
    } else if c == 43 {
        Some(Token::Plus)
    } else if c == 45 {
        Some(Token::Minus)
    } else if c == 42 {
        Some(Token::Multiply)
    } else if c == 47 {
        Some(Token::Divide)
    } else if c == 124 {
        Some(Token::Bar)
    } else {
        None
    }
}

fn skip_run(b: &[u8], i: usize) -> (r: Option<usize>)
    requires
        i < b@.len(),
    ensures
        r matches Some(e) ==> skip_at(b@, i as int) == Some(e as int),
        r is None ==> skip_at(b@, i as int) is None,
{
    let c = b[i];
    if c == 32 || c == 9 || c == 13 || c == 10 {
        Some(i + 1)
    } else if c == 47 && i + 1 < b.len() && b[i + 1] == 47 {
        Some(scan_line(b, i + 2))
    } else if c == 47 && i + 1 < b.len() && b[i + 1] == 42 {
        scan_block_comment(b, i + 2)
    } else {
        None
    }
}

fn keyword_match(b: &[u8], i: usize, e: usize) -> (r: bool)
    requires
        i <= e <= b@.len(),
    ensures
        r == is_match_keyword(b@.subrange(i as int, e as int)),
{
    let r = e - i == 5 && b[i] == 109 && b[i + 1] == 97 && b[i + 2] == 116 && b[i + 3] == 99
        && b[i + 4] == 104;
    proof {
        let w = b@.subrange(i as int, e as int);
        if r {
            assert(w =~= seq![109u8, 97u8, 116u8, 99u8, 104u8]);
        } else if w.len() == 5 {
            assert(w[0] == b@[i as int] && w[1] == b@[i + 1] && w[2] == b@[i + 2] && w[3]
                == b@[i + 3] && w[4] == b@[i + 4]);
        }
    }
    r
}

fn keyword_extern(b: &[u8], i: usize, e: usize) -> (r: bool)
    requires
        i <= e <= b@.len(),
    ensures
        r == is_extern_keyword(b@.subrange(i as int, e as int)),
{
    let r = e - i == 6 && b[i] == 101 && b[i + 1] == 120 && b[i + 2] == 116 && b[i + 3] == 101
        && b[i + 4] == 114 && b[i + 5] == 110;
    proof {
        let w = b@.subrange(i as int, e as int);
        if r {
            assert(w =~= seq![101u8, 120u8, 116u8, 101u8, 114u8, 110u8]);
        } else if w.len() == 6 {
            assert(w[0] == b@[i as int] && w[1] == b@[i + 1] && w[2] == b@[i + 2] && w[3]
                == b@[i + 3] && w[4] == b@[i + 4] && w[5] == b@[i + 5]);
        }
    }
    r
}

fn next_token<'a>(s: &'a str, b: &[u8], i: usize) -> (r: Option<(Token<'a>, usize)>)
    requires
        b@ == s.spec_bytes(),
        i < b@.len(),
    ensures
        r matches Some((t, e)) ==> token_at(b@, i as int) == Some((t@, e as int)),
        r is None ==> token_at(b@, i as int) is None,
{
    proof {
        encode_utf8_valid_utf8(s@);
        lemma_progress(b@, i as int);
    }
    let c = b[i];
    if c == 58 {
        if i + 1 < b.len() && b[i + 1] == 58 {
            Some((Token::DoubleColon, i + 2))
        } else {
            Some((Token::Colon, i + 1))
        }
    } else if c == 61 {
        if i + 1 < b.len() && b[i + 1] == 62 {
            Some((Token::FatArrow, i + 2))
        } else {
            None
        }
    } else if c == 34 {
        match scan_string(b, i + 1) {
            Some(e) => {
                proof {
                    lemma_string_end_bounds(b@, i + 1, None);
                    lemma_boundary(b@, i as int);
                    lemma_boundary(b@, e as int);
                }
                Some((Token::NormalString(slice_text(s, i, e)), e))
            },
            None => None,
        }
    } else if digit(c) {
        let e = scan_number(b, i);
        proof {
            lemma_boundary(b@, i as int);
            lemma_boundary(b@, e as int);
        }
        Some((Token::Number(slice_text(s, i, e)), e))
    } else if (65 <= c && c <= 90) || (97 <= c && c <= 122) || c == 95 {
        let e = scan_ident(b, i);
        if keyword_match(b, i, e) {
            Some((Token::Match, e))
        } else if keyword_extern(b, i, e) {
            Some((Token::Extern, e))
        } else {
            proof {
                lemma_boundary(b@, i as int);
                lemma_boundary(b@, e as int);
            }
            Some((Token::Ident(slice_text(s, i, e)), e))
        }
    } else {
        match punct_token(c) {
            Some(t) => Some((t, i + 1)),
            None => None,
        }
    }
}

/// Splits `s` into tokens, skipping whitespace and comments; fails with the
/// byte range of the first character that starts no token.
pub fn lex<'a>(s: &'a str) -> (r: Result<Vec<Token<'a>>, Range<usize>>)
    ensures
        r matches Ok(toks) ==> lex_spec(s@) == Ok::<Seq<Lexeme>, (int, int)>(lexemes(toks@)),
        r matches Err(range) ==> lex_spec(s@) == Err::<Seq<Lexeme>, (int, int)>(
            (range.start as int, range.end as int),
        ),
{
    let b = s.as_bytes();
    let mut toks: Vec<Token<'a>> = Vec::new();
    let mut i: usize = 0;
    while i < b.len()
        invariant
            b@ == s.spec_bytes(),
            s.spec_bytes() == encode_utf8(s@),
            i <= b@.len(),
            lex_spec(s@) == prepend(lexemes(toks@), lex_from(b@, i as int)),
        decreases b@.len() - i,
    {
        proof {
            lemma_progress(b@, i as int);
        }
        match skip_run(b, i) {
            Some(e) => {
                i = e;
            },
            None => match next_token(s, b, i) {
                Some((t, e)) => {
                    proof {
                        assert(lexemes(toks@.push(t)) =~= lexemes(toks@).push(t@));
                        match lex_from(b@, e as int) {
                            Ok(rest) => {
                                assert(lexemes(toks@) + (seq![t@] + rest) =~= lexemes(
                                    toks@.push(t),
                                ) + rest);
                            },
                            Err(_) => {},
                        }
                    }
                    toks.push(t);
                    i = e;
                },
                None => {
                    let end = scan_char(b, i + 1);
                    return Err(Range { start: i, end: end });
                },
            },
        }
    }
    Ok(toks)
}

} // verus!
