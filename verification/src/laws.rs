//! What holds of every scan: the shape of the segmentation and the laws that
//! follow from it for the tokens and errors.

use crate::grammar::{
    continues_word, eof_token, error_of, errors_of, is_digit, keyword, lemma_lexeme_bounds,
    lemma_newlines_between_bounds, lemma_run_is_maximal, lexeme_at, newlines_before, number_end,
    run_end, scan, segments, segments_from, starts_word, token_of, tokens_of, CharClass, Segment,
    SpecLexeme,
};
use crate::token::{ScanErrorKind, SpecTokenKind};
use vstd::prelude::*;

verus! {

/// Whether position `p` lies in `segment`.
pub open spec fn covers(segment: Segment, p: int) -> bool {
    segment.start <= p < segment.end
}

/// Whether each of `segs` ends before the next one starts.
pub open spec fn in_order(segs: Seq<Segment>) -> bool {
    forall|i: int, j: int|
        #![trigger segs[i], segs[j]]
        0 <= i < j < segs.len() ==> segs[i].end <= segs[j].start
}

/// The segments among `segs` that are `wanted`, in order.
pub open spec fn keep(segs: Seq<Segment>, wanted: spec_fn(Segment) -> bool) -> Seq<Segment>
    decreases segs.len(),
{
    if segs.len() == 0 {
        Seq::empty()
    } else if wanted(segs.last()) {
        keep(segs.drop_last(), wanted).push(segs.last())
    } else {
        keep(segs.drop_last(), wanted)
    }
}

/// The test for a segment that yields a token.
pub open spec fn yields_token() -> spec_fn(Segment) -> bool {
    |segment: Segment| segment.item is Token
}

/// The test for a segment that yields an error.
pub open spec fn yields_error() -> spec_fn(Segment) -> bool {
    |segment: Segment| segment.item is Error
}

/// The token segments among `segs`, in order.
pub open spec fn token_segments(segs: Seq<Segment>) -> Seq<Segment> {
    keep(segs, yields_token())
}

/// The error segments among `segs`, in order.
pub open spec fn error_segments(segs: Seq<Segment>) -> Seq<Segment> {
    keep(segs, yields_error())
}

/// The spans of `s` that the tokens of its scan were read from, in order:
/// one for each token but the closing end-of-input token.
pub open spec fn token_spans(s: Seq<char>) -> Seq<Segment> {
    token_segments(segments(s))
}

/// The spans of `s` that the errors of its scan were found in, in order: one
/// for each error.
pub open spec fn error_spans(s: Seq<char>) -> Seq<Segment> {
    error_segments(segments(s))
}

/// Whether position `p` of `s` holds a whitespace character between lexemes
/// or lies in a comment.
pub open spec fn skipped(s: Seq<char>, p: int) -> bool {
    exists|i: int|
        0 <= i < segments(s).len() && covers(#[trigger] segments(s)[i], p) && (segments(
            s,
        )[i].item is Blank || segments(s)[i].item is Comment)
}

/// The segments from `pos` on are non-empty spans of the text behind `pos`,
/// each the lexeme found at its start, and they stand in order; so there are
/// no more of them than characters.
pub proof fn lemma_segments_from_shape(s: Seq<char>, pos: int)
    requires
        0 <= pos <= s.len(),
    ensures
        forall|i: int|
            0 <= i < segments_from(s, pos).len() ==> {
                let segment = #[trigger] segments_from(s, pos)[i];
                &&& pos <= segment.start < segment.end <= s.len()
                &&& segment == lexeme_at(s, segment.start)
            },
        in_order(segments_from(s, pos)),
        segments_from(s, pos).len() <= s.len() - pos,
    decreases s.len() - pos,
{
    if pos < s.len() {
        lemma_lexeme_bounds(s, pos);
        lemma_segments_from_shape(s, lexeme_at(s, pos).end);
    }
}

/// Every position from `pos` on lies in one of the segments from `pos` on;
/// the result is the index of that segment.
pub proof fn lemma_position_is_covered(s: Seq<char>, pos: int, p: int) -> (i: int)
    requires
        0 <= pos <= p < s.len(),
    ensures
        0 <= i < segments_from(s, pos).len(),
        covers(segments_from(s, pos)[i], p),
    decreases s.len() - pos,
{
    lemma_lexeme_bounds(s, pos);
    let first = lexeme_at(s, pos);
    if p < first.end {
        0
    } else {
        lemma_position_is_covered(s, first.end, p) + 1
    }
}

/// The segments kept from `segs` are exactly its wanted segments, and they
/// keep their order.
pub proof fn lemma_keep(segs: Seq<Segment>, wanted: spec_fn(Segment) -> bool)
    ensures
        forall|k: int|
            0 <= k < keep(segs, wanted).len() ==> wanted(#[trigger] keep(segs, wanted)[k])
                && segs.contains(keep(segs, wanted)[k]),
        forall|i: int|
            0 <= i < segs.len() && wanted(#[trigger] segs[i]) ==> keep(segs, wanted).contains(
                segs[i],
            ),
        in_order(segs) ==> in_order(keep(segs, wanted)),
        keep(segs, wanted).len() <= segs.len(),
    decreases segs.len(),
{
    if segs.len() > 0 {
        // What is kept of `segs` is what is kept of all but its last
        // segment, and then the last segment if it is wanted.
        let init = segs.drop_last();
        let found = keep(segs, wanted);
        let before = keep(init, wanted);
        lemma_keep(init, wanted);
        assert forall|k: int| 0 <= k < found.len() implies wanted(#[trigger] found[k])
            && segs.contains(found[k]) by {
            if k < before.len() {
                let i = choose|i: int| 0 <= i < init.len() && init[i] == before[k];
                assert(segs[i] == found[k]);
            } else {
                assert(segs[segs.len() - 1] == found[k]);
            }
        }
        assert forall|i: int|
            0 <= i < segs.len() && wanted(#[trigger] segs[i]) implies found.contains(segs[i]) by {
            if i < init.len() {
                let k = choose|k: int| 0 <= k < before.len() && before[k] == init[i];
                assert(found[k] == segs[i]);
            } else {
                assert(found[found.len() - 1] == segs[i]);
            }
        }
        if in_order(segs) {
            assert(in_order(init));
            assert forall|i: int, j: int| 0 <= i < j < found.len() implies #[trigger] found[i].end
                <= #[trigger] found[j].start by {
                if j == before.len() {
                    // `found[j]` is the last segment, and `found[i]` stands
                    // before it in `segs`.
                    let m = choose|m: int| 0 <= m < init.len() && init[m] == before[i];
                    assert(segs[m] == found[i]);
                }
            }
        }
    }
}

/// The tokens of `segs` are the tokens of its token segments, one for one.
pub proof fn lemma_tokens_of_token_segments(s: Seq<char>, segs: Seq<Segment>)
    ensures
        tokens_of(s, segs).len() == token_segments(segs).len(),
        forall|k: int|
            0 <= k < token_segments(segs).len() ==> #[trigger] tokens_of(s, segs)[k] == token_of(
                s,
                token_segments(segs)[k],
            ),
    decreases segs.len(),
{
    if segs.len() > 0 {
        lemma_tokens_of_token_segments(s, segs.drop_last());
    }
}

/// The errors of `segs` are the errors of its error segments, one for one.
pub proof fn lemma_errors_of_error_segments(s: Seq<char>, segs: Seq<Segment>)
    ensures
        errors_of(s, segs).len() == error_segments(segs).len(),
        forall|k: int|
            0 <= k < error_segments(segs).len() ==> #[trigger] errors_of(s, segs)[k] == error_of(
                s,
                error_segments(segs)[k],
            ),
    decreases segs.len(),
{
    if segs.len() > 0 {
        lemma_errors_of_error_segments(s, segs.drop_last());
    }
}

/// Where no error is reported, no segment is an error segment.
pub proof fn lemma_no_error_segments(s: Seq<char>, segs: Seq<Segment>)
    requires
        errors_of(s, segs).len() == 0,
    ensures
        forall|i: int| 0 <= i < segs.len() ==> !((#[trigger] segs[i]).item is Error),
    decreases segs.len(),
{
    if segs.len() > 0 {
        let init = segs.drop_last();
        lemma_no_error_segments(s, init);
        assert forall|i: int| 0 <= i < segs.len() implies !((#[trigger] segs[i]).item is Error) by {
            if i < init.len() {
                assert(init[i] == segs[i]);
            }
        }
    }
}

/// Every token of a scan but the last was read from its own span of the
/// source: there is one span for each such token, in the same order; a span
/// is the lexeme found where it starts; the token has the kind of that
/// lexeme, and its line is one more than the number of newline characters
/// before the start of the span. There are no more such tokens than
/// characters.
pub proof fn lemma_tokens_come_from_spans(s: Seq<char>)
    ensures
        scan(s).tokens.len() == token_spans(s).len() + 1,
        scan(s).tokens.len() <= s.len() + 1,
        forall|k: int|
            0 <= k < token_spans(s).len() ==> {
                let span = #[trigger] token_spans(s)[k];
                &&& 0 <= span.start < span.end <= s.len()
                &&& span == lexeme_at(s, span.start)
                &&& span.item is Token
                &&& scan(s).tokens[k].kind == span.item->Token_0
                &&& scan(s).tokens[k].line == 1 + newlines_before(s, span.start)
            },
        in_order(token_spans(s)),
{
    let segs = segments(s);
    lemma_segments_from_shape(s, 0);
    lemma_keep(segs, yields_token());
    lemma_tokens_of_token_segments(s, segs);
    assert forall|k: int| 0 <= k < token_spans(s).len() implies {
        let span = #[trigger] token_spans(s)[k];
        &&& 0 <= span.start < span.end <= s.len()
        &&& span == lexeme_at(s, span.start)
        &&& span.item is Token
        &&& scan(s).tokens[k].kind == span.item->Token_0
        &&& scan(s).tokens[k].line == 1 + newlines_before(s, span.start)
    } by {
        let span = token_spans(s)[k];
        let i = choose|i: int| 0 <= i < segs.len() && segs[i] == span;
        assert(segs[i] == span);
    }
}

/// Every error of a scan was found in its own span of the source: there is
/// one span for each error, in the same order; a span is the lexeme found
/// where it starts; the error has the kind of that lexeme, and its line is
/// one more than the number of newline characters before the end of the
/// span, where the scan goes on. A character that starts no lexeme is a span
/// of its own, reported on its own line; an unterminated string runs to the
/// end of the text. There are no more errors than characters.
pub proof fn lemma_errors_come_from_spans(s: Seq<char>)
    ensures
        scan(s).errors.len() == error_spans(s).len(),
        scan(s).errors.len() <= s.len(),
        forall|k: int|
            0 <= k < error_spans(s).len() ==> {
                let span = #[trigger] error_spans(s)[k];
                &&& 0 <= span.start < span.end <= s.len()
                &&& span == lexeme_at(s, span.start)
                &&& span.item is Error
                &&& scan(s).errors[k].kind == span.item->Error_0
                &&& scan(s).errors[k].line == 1 + newlines_before(s, span.end)
                &&& span.item->Error_0 == ScanErrorKind::UnexpectedCharacter ==> span.end
                    == span.start + 1 && scan(s).errors[k].line == 1 + newlines_before(
                    s,
                    span.start,
                )
                &&& span.item->Error_0 == ScanErrorKind::UnterminatedString ==> span.end
                    == s.len()
            },
        in_order(error_spans(s)),
{
    let segs = segments(s);
    lemma_segments_from_shape(s, 0);
    lemma_keep(segs, yields_error());
    lemma_errors_of_error_segments(s, segs);
    assert forall|k: int| 0 <= k < error_spans(s).len() implies {
        let span = #[trigger] error_spans(s)[k];
        &&& 0 <= span.start < span.end <= s.len()
        &&& span == lexeme_at(s, span.start)
        &&& span.item is Error
        &&& scan(s).errors[k].kind == span.item->Error_0
        &&& scan(s).errors[k].line == 1 + newlines_before(s, span.end)
        &&& span.item->Error_0 == ScanErrorKind::UnexpectedCharacter ==> span.end == span.start
            + 1 && scan(s).errors[k].line == 1 + newlines_before(s, span.start)
        &&& span.item->Error_0 == ScanErrorKind::UnterminatedString ==> span.end == s.len()
    } by {
        let span = error_spans(s)[k];
        let i = choose|i: int| 0 <= i < segs.len() && segs[i] == span;
        assert(segs[i] == span);
    }
}

/// The segments of a text tile it: the first starts at the start of the
/// text, each starts where the one before it ends, and the last ends at the
/// end of the text. An empty text has no segment.
pub proof fn lemma_segments_tile_text(s: Seq<char>)
    ensures
        segments(s).len() == 0 <==> s.len() == 0,
        s.len() > 0 ==> segments(s).first().start == 0 && segments(s).last().end == s.len(),
        forall|i: int, j: int|
            #![trigger segments(s)[i], segments(s)[j]]
            0 <= i < segments(s).len() && j == i + 1 && j < segments(s).len() ==> segments(
                s,
            )[i].end == segments(s)[j].start,
{
    lemma_segments_from_tile(s, 0);
}

/// The segments from `pos` on tile the text from `pos` on.
pub proof fn lemma_segments_from_tile(s: Seq<char>, pos: int)
    requires
        0 <= pos <= s.len(),
    ensures
        segments_from(s, pos).len() == 0 <==> pos == s.len(),
        pos < s.len() ==> segments_from(s, pos).first().start == pos && segments_from(
            s,
            pos,
        ).last().end == s.len(),
        forall|i: int, j: int|
            #![trigger segments_from(s, pos)[i], segments_from(s, pos)[j]]
            0 <= i < segments_from(s, pos).len() && j == i + 1 && j < segments_from(s, pos).len()
                ==> segments_from(s, pos)[i].end == segments_from(s, pos)[j].start,
    decreases s.len() - pos,
{
    if pos < s.len() {
        lemma_lexeme_bounds(s, pos);
        lemma_segments_from_tile(s, lexeme_at(s, pos).end);
    }
}

/// Every scan yields at least one token. The last token is the end-of-input
/// token, on the line that the text ends on, and no token before it is an
/// end-of-input token.
pub proof fn lemma_eof_closes_scan(s: Seq<char>)
    ensures
        scan(s).tokens.len() >= 1,
        scan(s).tokens.last() == eof_token(s),
        scan(s).tokens.last().kind == SpecTokenKind::Eof,
        scan(s).tokens.last().line == 1 + newlines_before(s, s.len() as int),
        forall|k: int|
            0 <= k < scan(s).tokens.len() - 1 ==> (#[trigger] scan(s).tokens[k]).kind
                != SpecTokenKind::Eof,
{
    lemma_tokens_come_from_spans(s);
    assert forall|k: int| 0 <= k < scan(s).tokens.len() - 1 implies (#[trigger] scan(
        s,
    ).tokens[k]).kind != SpecTokenKind::Eof by {
        // The token has the kind of the lexeme at the start of its span, and
        // no lexeme is an end-of-input token.
        let span = token_spans(s)[k];
        assert(span == lexeme_at(s, span.start));
    }
}

/// The lines of the tokens of a scan never decrease in source order.
pub proof fn lemma_lines_never_decrease(s: Seq<char>)
    ensures
        forall|i: int, j: int|
            #![trigger scan(s).tokens[i], scan(s).tokens[j]]
            0 <= i <= j < scan(s).tokens.len() ==> scan(s).tokens[i].line <= scan(
                s,
            ).tokens[j].line,
{
    lemma_tokens_come_from_spans(s);
    let tokens = scan(s).tokens;
    let spans = token_spans(s);
    assert forall|i: int, j: int| 0 <= i < j < tokens.len() implies (#[trigger] tokens[i]).line
        <= (#[trigger] tokens[j]).line by {
        // Token `i` starts before token `j`, or before the end of the text.
        let from = spans[i].start;
        let to = if j < spans.len() {
            spans[j].start
        } else {
            s.len() as int
        };
        lemma_newlines_between_bounds(s, from, to);
    }
}

/// When a scan reports no error, every character of the source that is
/// neither whitespace between lexemes nor part of a comment lies in the span
/// of exactly one token; the result is the index of that token.
pub proof fn lemma_full_coverage(s: Seq<char>, p: int) -> (k: int)
    requires
        scan(s).errors.len() == 0,
        0 <= p < s.len(),
        !skipped(s, p),
    ensures
        0 <= k < token_spans(s).len(),
        k < scan(s).tokens.len() - 1,
        covers(token_spans(s)[k], p),
        forall|j: int|
            0 <= j < token_spans(s).len() && covers(#[trigger] token_spans(s)[j], p) ==> j == k,
{
    let segs = segments(s);
    let i = lemma_position_is_covered(s, 0, p);
    lemma_no_error_segments(s, segs);
    assert(segs[i].item is Token);
    lemma_keep(segs, yields_token());
    let k = choose|k: int| 0 <= k < token_spans(s).len() && token_spans(s)[k] == segs[i];
    lemma_tokens_come_from_spans(s);
    assert forall|j: int|
        0 <= j < token_spans(s).len() && covers(#[trigger] token_spans(s)[j], p) implies j
        == k by {
        lemma_token_spans_are_disjoint(s, p, j, k);
    }
    k
}

/// No character of the source lies in the spans of two tokens.
pub proof fn lemma_token_spans_are_disjoint(s: Seq<char>, p: int, k1: int, k2: int)
    requires
        0 <= k1 < token_spans(s).len(),
        0 <= k2 < token_spans(s).len(),
        covers(token_spans(s)[k1], p),
        covers(token_spans(s)[k2], p),
    ensures
        k1 == k2,
{
    lemma_tokens_come_from_spans(s);
}

/// Whether `text` is a non-empty run of decimal digits.
pub open spec fn is_digits(text: Seq<char>) -> bool {
    text.len() > 0 && forall|i: int| 0 <= i < text.len() ==> is_digit(#[trigger] text[i])
}

/// Whether `text` is digits, a dot at position `dot`, and digits again.
pub open spec fn has_fraction_at(text: Seq<char>, dot: int) -> bool {
    &&& 0 < dot < text.len() - 1
    &&& text[dot] == '.'
    &&& is_digits(text.subrange(0, dot))
    &&& is_digits(text.subrange(dot + 1, text.len() as int))
}

/// Whether `text` is written as a number: digits, with or without a
/// fraction of a dot and digits.
pub open spec fn is_number_text(text: Seq<char>) -> bool {
    is_digits(text) || exists|dot: int| #[trigger] has_fraction_at(text, dot)
}

/// Whether `text` is written as a word: a letter or an underscore, then
/// letters, digits and underscores.
pub open spec fn is_word_text(text: Seq<char>) -> bool {
    &&& text.len() > 0
    &&& starts_word(text[0])
    &&& forall|i: int| 0 <= i < text.len() ==> continues_word(#[trigger] text[i])
}

/// At a digit stands a number: its token carries the text of the lexeme,
/// which is written as a number, and no digit follows the lexeme.
pub proof fn lemma_number_lexeme(s: Seq<char>, pos: int)
    requires
        0 <= pos < s.len(),
        is_digit(s[pos]),
    ensures
        ({
            let segment = lexeme_at(s, pos);
            let text = s.subrange(pos, segment.end);
            &&& segment.item == SpecLexeme::Token(SpecTokenKind::Number(text))
            &&& is_number_text(text)
            &&& segment.end < s.len() ==> !is_digit(s[segment.end])
        }),
{
    let whole = run_end(s, CharClass::Digit, pos);
    lemma_run_is_maximal(s, CharClass::Digit, pos);
    let end = number_end(s, pos);
    let text = s.subrange(pos, end);
    if end == whole {
        assert(is_digits(text));
    } else {
        lemma_run_is_maximal(s, CharClass::Digit, whole + 1);
        let dot = whole - pos;
        assert(text.subrange(0, dot) =~= s.subrange(pos, whole));
        assert(text.subrange(dot + 1, text.len() as int) =~= s.subrange(whole + 1, end));
        assert(has_fraction_at(text, dot));
    }
}

/// At a letter or an underscore stands a word: the lexeme is written as a
/// word and no word character follows it; its token is the keyword that the
/// lexeme spells, or an identifier of that name if it spells none.
pub proof fn lemma_word_lexeme(s: Seq<char>, pos: int)
    requires
        0 <= pos < s.len(),
        starts_word(s[pos]),
    ensures
        ({
            let segment = lexeme_at(s, pos);
            let text = s.subrange(pos, segment.end);
            &&& is_word_text(text)
            &&& segment.end < s.len() ==> !continues_word(s[segment.end])
            &&& segment.item == SpecLexeme::Token(
                match keyword(text) {
                    Some(kind) => kind,
                    None => SpecTokenKind::Identifier(text),
                },
            )
        }),
{
    lemma_run_is_maximal(s, CharClass::WordPart, pos + 1);
}

/// At a double quote stands a string literal. If another double quote
/// follows, the lexeme runs up to the first such quote and its token carries
/// the characters between the two; if none follows, the rest of the text is
/// an unterminated string.
pub proof fn lemma_string_lexeme(s: Seq<char>, pos: int)
    requires
        0 <= pos < s.len(),
        s[pos] == '"',
    ensures
        ({
            let segment = lexeme_at(s, pos);
            let text = s.subrange(pos + 1, segment.end - 1);
            if exists|q: int| pos < q < s.len() && s[q] == '"' {
                &&& pos + 2 <= segment.end <= s.len()
                &&& s[segment.end - 1] == '"'
                &&& segment.item == SpecLexeme::Token(SpecTokenKind::String(text))
                &&& forall|i: int| 0 <= i < text.len() ==> #[trigger] text[i] != '"'
            } else {
                &&& segment.end == s.len()
                &&& segment.item == SpecLexeme::Error(ScanErrorKind::UnterminatedString)
            }
        }),
{
    lemma_run_is_maximal(s, CharClass::StringBody, pos + 1);
}

/// The text of every number token of a scan is written as a number, that of
/// every identifier is written as a word and spells no keyword, and that of
/// every string holds no double quote.
pub proof fn lemma_literal_texts(s: Seq<char>, k: int)
    requires
        0 <= k < scan(s).tokens.len(),
    ensures
        match scan(s).tokens[k].kind {
            SpecTokenKind::Number(text) => is_number_text(text),
            SpecTokenKind::Identifier(text) => is_word_text(text) && keyword(text) is None,
            SpecTokenKind::String(text) => forall|i: int|
                0 <= i < text.len() ==> #[trigger] text[i] != '"',
            _ => true,
        },
{
    lemma_tokens_come_from_spans(s);
    if k < token_spans(s).len() {
        let span = token_spans(s)[k];
        let c = s[span.start];
        if c == '"' {
            lemma_string_lexeme(s, span.start);
        } else if is_digit(c) {
            lemma_number_lexeme(s, span.start);
        } else if starts_word(c) {
            lemma_word_lexeme(s, span.start);
        }
    }
}

} // verus!
