//! The lexical grammar, as mathematical functions over a sequence of
//! characters.
//!
//! A source text falls into consecutive *segments*: each is the lexeme of one
//! token, one whitespace character, one comment, or a span that is reported as
//! an error. [`scan`] gives the tokens and errors that a text stands for.

use crate::token::{ScanErrorKind, SpecError, SpecToken, SpecTokenKind};
use vstd::prelude::*;

verus! {

/// An ASCII decimal digit.
pub open spec fn is_digit(c: char) -> bool {
    '0' <= c && c <= '9'
}

/// An ASCII letter.
pub open spec fn is_letter(c: char) -> bool {
    ('a' <= c && c <= 'z') || ('A' <= c && c <= 'Z')
}

/// A character that may begin an identifier or keyword.
pub open spec fn starts_word(c: char) -> bool {
    is_letter(c) || c == '_'
}

/// A character that may continue an identifier or keyword.
pub open spec fn continues_word(c: char) -> bool {
    starts_word(c) || is_digit(c)
}

/// A whitespace character between lexemes.
pub open spec fn is_blank(c: char) -> bool {
    c == ' ' || c == '\r' || c == '\t' || c == '\n'
}

/// How many newline characters stand among the first `pos` characters of `s`.
pub open spec fn newlines_before(s: Seq<char>, pos: int) -> nat
    decreases pos,
{
    if pos <= 0 {
        0
    } else if s[pos - 1] == '\n' {
        newlines_before(s, pos - 1) + 1
    } else {
        newlines_before(s, pos - 1)
    }
}

/// The 1-based line that position `pos` of `s` lies on.
pub open spec fn line_at(s: Seq<char>, pos: int) -> nat {
    1 + newlines_before(s, pos)
}

/// The number of newline characters in `s` from position `from` up to, not
/// including, position `to`.
pub open spec fn newlines_between(s: Seq<char>, from: int, to: int) -> int {
    newlines_before(s, to) - newlines_before(s, from)
}

/// There are no more newline characters in a span than characters.
pub proof fn lemma_newlines_between_bounds(s: Seq<char>, from: int, to: int)
    requires
        0 <= from <= to,
    ensures
        0 <= newlines_between(s, from, to) <= to - from,
    decreases to - from,
{
    if from < to {
        lemma_newlines_between_bounds(s, from, to - 1);
    }
}

/// The kinds of character of which a lexeme takes a maximal run.
#[derive(Clone, Copy, Debug, PartialEq, Eq, Structural)]
pub enum CharClass {
    /// Decimal digits, in a number.
    Digit,
    /// Letters, digits and underscores, in an identifier or keyword.
    WordPart,
    /// Anything but the double quote, inside a string literal.
    StringBody,
}

/// Whether `c` belongs to `class`.
pub open spec fn in_class(class: CharClass, c: char) -> bool {
    match class {
        CharClass::Digit => is_digit(c),
        CharClass::WordPart => continues_word(c),
        CharClass::StringBody => c != '"',
    }
}

/// Where the maximal run of `class` characters that starts at `pos` ends:
/// the first position at or after `pos` that holds no such character, or the
/// end of `s`.
pub open spec fn run_end(s: Seq<char>, class: CharClass, pos: int) -> int
    decreases s.len() - pos,
{
    if 0 <= pos < s.len() && in_class(class, s[pos]) {
        run_end(s, class, pos + 1)
    } else {
        pos
    }
}

/// Whether the two characters at `pos` are `first` and `second`.
pub open spec fn pair_at(s: Seq<char>, pos: int, first: char, second: char) -> bool {
    0 <= pos && pos + 1 < s.len() && s[pos] == first && s[pos + 1] == second
}

/// Where a block comment ends, seen from a position `pos` inside it at
/// nesting depth `depth`: just behind the `*/` that brings the depth to zero,
/// or at the end of `s` if the comment is never closed. Each `/*` on the way
/// opens a further level and each `*/` closes one; both are taken whole.
pub open spec fn comment_end(s: Seq<char>, pos: int, depth: nat) -> int
    decreases s.len() - pos,
{
    if depth == 0 || pos < 0 || pos >= s.len() {
        pos
    } else if pair_at(s, pos, '*', '/') {
        comment_end(s, pos + 2, (depth - 1) as nat)
    } else if pair_at(s, pos, '/', '*') {
        comment_end(s, pos + 2, depth + 1)
    } else {
        comment_end(s, pos + 1, depth)
    }
}

/// Where the number that starts at `pos` ends: behind its digits, and behind
/// a fraction if a dot with a digit after it follows them.
pub open spec fn number_end(s: Seq<char>, pos: int) -> int {
    let whole = run_end(s, CharClass::Digit, pos);
    if whole + 1 < s.len() && s[whole] == '.' && is_digit(s[whole + 1]) {
        run_end(s, CharClass::Digit, whole + 1)
    } else {
        whole
    }
}

/// The token of a punctuation character that always stands alone.
pub open spec fn punctuation(c: char) -> Option<SpecTokenKind> {
    if c == '(' {
        Some(SpecTokenKind::LeftParen)
    } else if c == ')' {
        Some(SpecTokenKind::RightParen)
    } else if c == '{' {
        Some(SpecTokenKind::LeftBrace)
    } else if c == '}' {
        Some(SpecTokenKind::RightBrace)
    } else if c == ',' {
        Some(SpecTokenKind::Comma)
    } else if c == '.' {
        Some(SpecTokenKind::Dot)
    } else if c == '-' {
        Some(SpecTokenKind::Minus)
    } else if c == '+' {
        Some(SpecTokenKind::Plus)
    } else if c == ';' {
        Some(SpecTokenKind::Semicolon)
    } else if c == '*' {
        Some(SpecTokenKind::Star)
    } else {
        None
    }
}

/// For a character that forms an operator alone or with a following `=`:
/// the token it forms alone, and the token of the pair.
pub open spec fn operator(c: char) -> Option<(SpecTokenKind, SpecTokenKind)> {
    if c == '!' {
        Some((SpecTokenKind::Bang, SpecTokenKind::BangEqual))
    } else if c == '=' {
        Some((SpecTokenKind::Equal, SpecTokenKind::EqualEqual))
    } else if c == '<' {
        Some((SpecTokenKind::Less, SpecTokenKind::LessEqual))
    } else if c == '>' {
        Some((SpecTokenKind::Greater, SpecTokenKind::GreaterEqual))
    } else {
        None
    }
}

/// The keyword that `text` spells, if it spells one. The match is exact and
/// case-sensitive.
pub open spec fn keyword(text: Seq<char>) -> Option<SpecTokenKind> {
    if text == "and"@ {
        Some(SpecTokenKind::And)
    } else if text == "class"@ {
        Some(SpecTokenKind::Class)
    } else if text == "else"@ {
        Some(SpecTokenKind::Else)
    } else if text == "false"@ {
        Some(SpecTokenKind::False)
    } else if text == "for"@ {
        Some(SpecTokenKind::For)
    } else if text == "fun"@ {
        Some(SpecTokenKind::Fun)
    } else if text == "if"@ {
        Some(SpecTokenKind::If)
    } else if text == "nil"@ {
        Some(SpecTokenKind::Nil)
    } else if text == "or"@ {
        Some(SpecTokenKind::Or)
    } else if text == "print"@ {
        Some(SpecTokenKind::Print)
    } else if text == "return"@ {
        Some(SpecTokenKind::Return)
    } else if text == "super"@ {
        Some(SpecTokenKind::Super)
    } else if text == "this"@ {
        Some(SpecTokenKind::This)
    } else if text == "true"@ {
        Some(SpecTokenKind::True)
    } else if text == "var"@ {
        Some(SpecTokenKind::Var)
    } else if text == "while"@ {
        Some(SpecTokenKind::While)
    } else {
        None
    }
}

/// The token of a maximal run of word characters: its keyword, or else an
/// identifier of that name.
pub open spec fn word_kind(text: Seq<char>) -> SpecTokenKind {
    match keyword(text) {
        Some(kind) => kind,
        None => SpecTokenKind::Identifier(text),
    }
}

/// What a segment of the source amounts to.
pub enum SpecLexeme {
    /// The lexeme of a token of the given kind.
    Token(SpecTokenKind),
    /// One whitespace character.
    Blank,
    /// A line comment or a block comment.
    Comment,
    /// A span that forms no token.
    Error(ScanErrorKind),
}

/// A span `start..end` of the source and what it amounts to.
pub struct Segment {
    pub item: SpecLexeme,
    pub start: int,
    pub end: int,
}

/// The segment that begins at position `pos` of `s`.
///
/// A line comment runs to the end of the text, not merely to the end of its
/// line. A block comment that is never closed runs to the end of the text and
/// is no error.
pub open spec fn lexeme_at(s: Seq<char>, pos: int) -> Segment
    recommends
        0 <= pos < s.len(),
{
    let c = s[pos];
    if punctuation(c) is Some {
        Segment { item: SpecLexeme::Token(punctuation(c)->0), start: pos, end: pos + 1 }
    } else if let Some(kinds) = operator(c) {
        if pair_at(s, pos, c, '=') {
            Segment { item: SpecLexeme::Token(kinds.1), start: pos, end: pos + 2 }
        } else {
            Segment { item: SpecLexeme::Token(kinds.0), start: pos, end: pos + 1 }
        }
    } else if c == '/' {
        if pair_at(s, pos, '/', '/') {
            Segment { item: SpecLexeme::Comment, start: pos, end: s.len() as int }
        } else if pair_at(s, pos, '/', '*') {
            Segment { item: SpecLexeme::Comment, start: pos, end: comment_end(s, pos + 2, 1) }
        } else {
            Segment { item: SpecLexeme::Token(SpecTokenKind::Slash), start: pos, end: pos + 1 }
        }
    } else if c == '"' {
        let close = run_end(s, CharClass::StringBody, pos + 1);
        if close < s.len() {
            Segment {
                item: SpecLexeme::Token(SpecTokenKind::String(s.subrange(pos + 1, close))),
                start: pos,
                end: close + 1,
            }
        } else {
            Segment {
                item: SpecLexeme::Error(ScanErrorKind::UnterminatedString),
                start: pos,
                end: s.len() as int,
            }
        }
    } else if is_digit(c) {
        let end = number_end(s, pos);
        Segment {
            item: SpecLexeme::Token(SpecTokenKind::Number(s.subrange(pos, end))),
            start: pos,
            end,
        }
    } else if starts_word(c) {
        let end = run_end(s, CharClass::WordPart, pos + 1);
        Segment { item: SpecLexeme::Token(word_kind(s.subrange(pos, end))), start: pos, end }
    } else if is_blank(c) {
        Segment { item: SpecLexeme::Blank, start: pos, end: pos + 1 }
    } else {
        Segment {
            item: SpecLexeme::Error(ScanErrorKind::UnexpectedCharacter),
            start: pos,
            end: pos + 1,
        }
    }
}

/// A maximal run ends within the text, holds nothing but characters of its
/// class, and no character of the class follows it.
pub proof fn lemma_run_is_maximal(s: Seq<char>, class: CharClass, pos: int)
    requires
        0 <= pos <= s.len(),
    ensures
        pos <= run_end(s, class, pos) <= s.len(),
        forall|i: int| pos <= i < run_end(s, class, pos) ==> in_class(class, #[trigger] s[i]),
        run_end(s, class, pos) < s.len() ==> !in_class(class, s[run_end(s, class, pos)]),
    decreases s.len() - pos,
{
    if pos < s.len() && in_class(class, s[pos]) {
        lemma_run_is_maximal(s, class, pos + 1);
    }
}

/// A block comment ends at or behind the position it is seen from and within
/// the text.
pub proof fn lemma_comment_end_bounds(s: Seq<char>, pos: int, depth: nat)
    requires
        0 <= pos <= s.len(),
    ensures
        pos <= comment_end(s, pos, depth) <= s.len(),
    decreases s.len() - pos,
{
    if depth == 0 || pos >= s.len() {
    } else if pair_at(s, pos, '*', '/') {
        lemma_comment_end_bounds(s, pos + 2, (depth - 1) as nat);
    } else if pair_at(s, pos, '/', '*') {
        lemma_comment_end_bounds(s, pos + 2, depth + 1);
    } else {
        lemma_comment_end_bounds(s, pos + 1, depth);
    }
}

/// Every segment starts where it is asked for, is not empty and ends within
/// the text.
pub proof fn lemma_lexeme_bounds(s: Seq<char>, pos: int)
    requires
        0 <= pos < s.len(),
    ensures
        lexeme_at(s, pos).start == pos,
        pos < lexeme_at(s, pos).end <= s.len(),
{
    let c = s[pos];
    lemma_run_is_maximal(s, CharClass::StringBody, pos + 1);
    lemma_run_is_maximal(s, CharClass::WordPart, pos + 1);
    lemma_run_is_maximal(s, CharClass::Digit, pos + 1);
    if pair_at(s, pos, '/', '*') {
        lemma_comment_end_bounds(s, pos + 2, 1);
    }
    if is_digit(c) {
        let whole = run_end(s, CharClass::Digit, pos);
        if whole + 1 < s.len() {
            lemma_run_is_maximal(s, CharClass::Digit, whole + 1);
        }
    }
}

/// The segments of `s` from position `pos` on, in source order.
pub open spec fn segments_from(s: Seq<char>, pos: int) -> Seq<Segment>
    decreases s.len() - pos,
{
    if 0 <= pos < s.len() {
        let first = lexeme_at(s, pos);
        proof {
            lemma_lexeme_bounds(s, pos);
        }
        seq![first] + segments_from(s, first.end)
    } else {
        Seq::empty()
    }
}

/// The segments that `s` falls into, in source order.
pub open spec fn segments(s: Seq<char>) -> Seq<Segment> {
    segments_from(s, 0)
}

/// The token that a token segment yields: its kind, on the line on which the
/// segment starts.
pub open spec fn token_of(s: Seq<char>, segment: Segment) -> SpecToken
    recommends
        segment.item is Token,
{
    SpecToken { kind: segment.item->Token_0, line: line_at(s, segment.start) }
}

/// The error that an error segment yields, on the line that the scan has
/// reached behind the segment: for a character that starts no lexeme that is
/// the line of the character, for an unterminated string the last line of the
/// text.
pub open spec fn error_of(s: Seq<char>, segment: Segment) -> SpecError
    recommends
        segment.item is Error,
{
    SpecError { kind: segment.item->Error_0, line: line_at(s, segment.end) }
}

/// The tokens that the given segments of `s` yield, in order.
pub open spec fn tokens_of(s: Seq<char>, segs: Seq<Segment>) -> Seq<SpecToken>
    decreases segs.len(),
{
    if segs.len() == 0 {
        Seq::empty()
    } else if segs.last().item is Token {
        tokens_of(s, segs.drop_last()).push(token_of(s, segs.last()))
    } else {
        tokens_of(s, segs.drop_last())
    }
}

/// The errors that the given segments of `s` yield, in order.
pub open spec fn errors_of(s: Seq<char>, segs: Seq<Segment>) -> Seq<SpecError>
    decreases segs.len(),
{
    if segs.len() == 0 {
        Seq::empty()
    } else if segs.last().item is Error {
        errors_of(s, segs.drop_last()).push(error_of(s, segs.last()))
    } else {
        errors_of(s, segs.drop_last())
    }
}

/// The token that closes every scan of `s`.
pub open spec fn eof_token(s: Seq<char>) -> SpecToken {
    SpecToken { kind: SpecTokenKind::Eof, line: line_at(s, s.len() as int) }
}

/// The result of a scan: the tokens and the errors, each in source order.
pub struct SpecOutcome {
    pub tokens: Seq<SpecToken>,
    pub errors: Seq<SpecError>,
}

/// What scanning `s` yields: the tokens of its segments followed by the
/// end-of-input token, and the errors of its segments.
pub open spec fn scan(s: Seq<char>) -> SpecOutcome {
    SpecOutcome {
        tokens: tokens_of(s, segments(s)).push(eof_token(s)),
        errors: errors_of(s, segments(s)),
    }
}

} // verus!
