//! The scanner: one forward pass over the characters of a source text.

use crate::grammar::{
    comment_end, errors_of, in_class, lemma_lexeme_bounds, lemma_newlines_between_bounds,
    lexeme_at, line_at, newlines_between, operator, punctuation, run_end, scan, segments,
    segments_from, tokens_of, word_kind, CharClass, Segment, SpecLexeme, SpecOutcome,
};
use crate::laws::{
    covers, in_order, lemma_eof_closes_scan, lemma_full_coverage, lemma_lines_never_decrease,
    lemma_tokens_come_from_spans, skipped, token_spans,
};
use crate::token::{error_views, token_views, ScanErrorKind, ScanningError, Token, TokenKind};
use vstd::prelude::*;
use vstd::std_specs::iter::IteratorSpec;
use vstd::string::StrSliceExecFns;

verus! {

/// `String::push` appends the given character to the end of the string.
pub assume_specification[ std::string::String::push ](text: &mut std::string::String, c: char)
    ensures
        final(text)@ == old(text)@.push(c),
;

/// The characters of `text`, in order.
fn to_chars(text: &str) -> (chars: Vec<char>)
    ensures
        chars@ == text@,
{
    let mut chars: Vec<char> = Vec::new();
    let mut rest = text.chars();
    loop
        invariant
            rest.obeys_prophetic_iter_laws(),
            chars@ + rest.remaining() == text@,
        decreases text@.len() - chars@.len(),
    {
        match rest.next() {
            Some(c) => {
                chars.push(c);
            },
            None => {
                return chars;
            },
        }
    }
}

/// Whether `c` belongs to `class`.
fn char_in_class(class: CharClass, c: char) -> (found: bool)
    ensures
        found == in_class(class, c),
{
    match class {
        CharClass::Digit => '0' <= c && c <= '9',
        CharClass::WordPart => {
            ('a' <= c && c <= 'z') || ('A' <= c && c <= 'Z') || c == '_' || ('0' <= c && c <= '9')
        },
        CharClass::StringBody => c != '"',
    }
}

/// The end of the maximal run of `class` characters that starts at `start`.
/// A run of digits or of word characters holds no newline.
fn end_of_run(src: &[char], class: CharClass, start: usize) -> (end: usize)
    requires
        start <= src@.len(),
    ensures
        end == run_end(src@, class, start as int),
        start <= end <= src@.len(),
        class != CharClass::StringBody ==> newlines_between(src@, start as int, end as int) == 0,
{
    let mut end = start;
    while end < src.len() && char_in_class(class, src[end])
        invariant
            start <= end <= src@.len(),
            run_end(src@, class, end as int) == run_end(src@, class, start as int),
            class != CharClass::StringBody ==> newlines_between(src@, start as int, end as int)
                == 0,
        decreases src@.len() - end,
    {
        end = end + 1;
    }
    end
}

/// The number of newline characters from `from` up to, not including, `to`.
fn count_newlines(src: &[char], from: usize, to: usize) -> (count: usize)
    requires
        from <= to <= src@.len(),
    ensures
        count == newlines_between(src@, from as int, to as int),
{
    let mut count: usize = 0;
    let mut at = from;
    while at < to
        invariant
            from <= at <= to <= src@.len(),
            count == newlines_between(src@, from as int, at as int),
            count <= at - from,
        decreases to - at,
    {
        if src[at] == '\n' {
            count = count + 1;
        }
        at = at + 1;
    }
    count
}

/// Where a block comment ends.
struct CommentEnd {
    /// The position behind the comment.
    end: usize,
    /// The newline characters inside it.
    newlines: usize,
}

/// Skips a block comment whose opening `/*` ends at `start`.
fn skip_block_comment(src: &[char], start: usize) -> (skipped: CommentEnd)
    requires
        start <= src@.len(),
    ensures
        skipped.end == comment_end(src@, start as int, 1),
        start <= skipped.end <= src@.len(),
        skipped.newlines == newlines_between(src@, start as int, skipped.end as int),
{
    let n = src.len();
    let mut at = start;
    let mut depth: usize = 1;
    let mut newlines: usize = 0;
    while depth > 0 && at < n
        invariant
            n == src@.len(),
            start <= at <= n,
            depth <= 1 + (at - start),
            comment_end(src@, at as int, depth as nat) == comment_end(src@, start as int, 1),
            newlines == newlines_between(src@, start as int, at as int),
            newlines <= at - start,
        decreases n - at,
    {
        let c = src[at];
        if c == '*' && at + 1 < n && src[at + 1] == '/' {
            assert(newlines_between(src@, at as int, at + 1) == 0);
            assert(newlines_between(src@, at + 1, at + 2) == 0);
            depth = depth - 1;
            at = at + 2;
        } else if c == '/' && at + 1 < n && src[at + 1] == '*' {
            assert(newlines_between(src@, at as int, at + 1) == 0);
            assert(newlines_between(src@, at + 1, at + 2) == 0);
            depth = depth + 1;
            at = at + 2;
        } else {
            if c == '\n' {
                newlines = newlines + 1;
            }
            at = at + 1;
        }
    }
    CommentEnd { end: at, newlines }
}

/// The body of a string literal.
struct StringBody {
    /// The position of the closing quote, or the end of the text if there is
    /// none.
    close: usize,
    /// The newline characters in the body.
    newlines: usize,
    /// The characters of the body.
    text: String,
}

/// Reads the body of a string literal whose opening quote stands just before
/// `start`.
fn read_string_body(src: &[char], start: usize) -> (body: StringBody)
    requires
        start <= src@.len(),
    ensures
        body.close == run_end(src@, CharClass::StringBody, start as int),
        start <= body.close <= src@.len(),
        body.close < src@.len() ==> src@[body.close as int] == '"',
        body.newlines == newlines_between(src@, start as int, body.close as int),
        body.text@ == src@.subrange(start as int, body.close as int),
{
    let n = src.len();
    let mut at = start;
    let mut newlines: usize = 0;
    let mut text = String::new();
    while at < n && src[at] != '"'
        invariant
            n == src@.len(),
            start <= at <= n,
            run_end(src@, CharClass::StringBody, at as int) == run_end(
                src@,
                CharClass::StringBody,
                start as int,
            ),
            newlines == newlines_between(src@, start as int, at as int),
            newlines <= at - start,
            text@ == src@.subrange(start as int, at as int),
        decreases n - at,
    {
        let c = src[at];
        if c == '\n' {
            newlines = newlines + 1;
        }
        text.push(c);
        at = at + 1;
    }
    StringBody { close: at, newlines, text }
}

/// The characters of `src` from `start` up to, not including, `end`.
fn copy_text(src: &[char], start: usize, end: usize) -> (text: String)
    requires
        start <= end <= src@.len(),
    ensures
        text@ == src@.subrange(start as int, end as int),
{
    let mut text = String::new();
    let mut at = start;
    while at < end
        invariant
            start <= at <= end <= src@.len(),
            text@ == src@.subrange(start as int, at as int),
        decreases end - at,
    {
        text.push(src[at]);
        at = at + 1;
    }
    text
}

/// Whether the characters of `src` from `start` up to, not including, `end`
/// spell `word`.
fn spells(src: &[char], start: usize, end: usize, word: &str) -> (same: bool)
    requires
        start <= end <= src@.len(),
    ensures
        same == (src@.subrange(start as int, end as int) == word@),
{
    let n = word.unicode_len();
    if n != end - start {
        return false;
    }
    let mut at: usize = 0;
    while at < n
        invariant
            start <= end <= src@.len(),
            n == end - start,
            n == word@.len(),
            at <= n,
            forall|i: int| 0 <= i < at ==> src@[start + i] == word@[i],
        decreases n - at,
    {
        if src[start + at] != word.get_char(at) {
            return false;
        }
        at = at + 1;
    }
    assert(src@.subrange(start as int, end as int) =~= word@);
    true
}

/// The token of the word that `src` holds from `start` up to, not including,
/// `end`.
fn classify_word(src: &[char], start: usize, end: usize) -> (kind: TokenKind)
    requires
        start <= end <= src@.len(),
    ensures
        kind@ == word_kind(src@.subrange(start as int, end as int)),
{
    if spells(src, start, end, "and") {
        TokenKind::And
    } else if spells(src, start, end, "class") {
        TokenKind::Class
    } else if spells(src, start, end, "else") {
        TokenKind::Else
    } else if spells(src, start, end, "false") {
        TokenKind::False
    } else if spells(src, start, end, "for") {
        TokenKind::For
    } else if spells(src, start, end, "fun") {
        TokenKind::Fun
    } else if spells(src, start, end, "if") {
        TokenKind::If
    } else if spells(src, start, end, "nil") {
        TokenKind::Nil
    } else if spells(src, start, end, "or") {
        TokenKind::Or
    } else if spells(src, start, end, "print") {
        TokenKind::Print
    } else if spells(src, start, end, "return") {
        TokenKind::Return
    } else if spells(src, start, end, "super") {
        TokenKind::Super
    } else if spells(src, start, end, "this") {
        TokenKind::This
    } else if spells(src, start, end, "true") {
        TokenKind::True
    } else if spells(src, start, end, "var") {
        TokenKind::Var
    } else if spells(src, start, end, "while") {
        TokenKind::While
    } else {
        TokenKind::Identifier(copy_text(src, start, end))
    }
}

/// The token of a punctuation character that always stands alone.
fn punctuation_token(c: char) -> (found: Option<TokenKind>)
    ensures
        match found {
            Some(kind) => punctuation(c) == Some(kind@),
            None => punctuation(c) is None,
        },
{
    if c == '(' {
        Some(TokenKind::LeftParen)
    } else if c == ')' {
        Some(TokenKind::RightParen)
    } else if c == '{' {
        Some(TokenKind::LeftBrace)
    } else if c == '}' {
        Some(TokenKind::RightBrace)
    } else if c == ',' {
        Some(TokenKind::Comma)
    } else if c == '.' {
        Some(TokenKind::Dot)
    } else if c == '-' {
        Some(TokenKind::Minus)
    } else if c == '+' {
        Some(TokenKind::Plus)
    } else if c == ';' {
        Some(TokenKind::Semicolon)
    } else if c == '*' {
        Some(TokenKind::Star)
    } else {
        None
    }
}

/// For a character that forms an operator alone or with a following `=`:
/// the token it forms alone, and the token of the pair.
fn operator_tokens(c: char) -> (found: Option<(TokenKind, TokenKind)>)
    ensures
        match found {
            Some(kinds) => operator(c) == Some((kinds.0@, kinds.1@)),
            None => operator(c) is None,
        },
{
    if c == '!' {
        Some((TokenKind::Bang, TokenKind::BangEqual))
    } else if c == '=' {
        Some((TokenKind::Equal, TokenKind::EqualEqual))
    } else if c == '<' {
        Some((TokenKind::Less, TokenKind::LessEqual))
    } else if c == '>' {
        Some((TokenKind::Greater, TokenKind::GreaterEqual))
    } else {
        None
    }
}

/// What the scanner makes of one segment of the source.
enum Lexeme {
    Token(TokenKind),
    Blank,
    Comment,
    Error(ScanErrorKind),
}

impl View for Lexeme {
    type V = SpecLexeme;

    closed spec fn view(&self) -> SpecLexeme {
        match *self {
            Lexeme::Token(kind) => SpecLexeme::Token(kind@),
            Lexeme::Blank => SpecLexeme::Blank,
            Lexeme::Comment => SpecLexeme::Comment,
            Lexeme::Error(kind) => SpecLexeme::Error(kind),
        }
    }
}

/// One segment as the scanner has read it.
struct Scanned {
    /// What the segment amounts to.
    item: Lexeme,
    /// The position behind the segment.
    end: usize,
    /// The newline characters inside the segment.
    newlines: usize,
}

/// Reads the segment that begins at `pos`.
fn next_lexeme(src: &[char], pos: usize) -> (found: Scanned)
    requires
        pos < src@.len(),
    ensures
        found.item@ == lexeme_at(src@, pos as int).item,
        found.end == lexeme_at(src@, pos as int).end,
        found.newlines == newlines_between(src@, pos as int, found.end as int),
{
    let n = src.len();
    let c = src[pos];
    let next = pos + 1;
    assert(newlines_between(src@, pos as int, next as int) == if c == '\n' {
        1int
    } else {
        0int
    });
    if let Some(kind) = punctuation_token(c) {
        Scanned { item: Lexeme::Token(kind), end: next, newlines: 0 }
    } else if let Some(kinds) = operator_tokens(c) {
        let (alone, with_equal) = kinds;
        if next < n && src[next] == '=' {
            assert(newlines_between(src@, next as int, next + 1) == 0);
            Scanned { item: Lexeme::Token(with_equal), end: next + 1, newlines: 0 }
        } else {
            Scanned { item: Lexeme::Token(alone), end: next, newlines: 0 }
        }
    } else if c == '/' {
        if next < n && src[next] == '/' {
            let newlines = count_newlines(src, pos, n);
            Scanned { item: Lexeme::Comment, end: n, newlines }
        } else if next < n && src[next] == '*' {
            assert(newlines_between(src@, next as int, next + 1) == 0);
            let skipped = skip_block_comment(src, next + 1);
            Scanned { item: Lexeme::Comment, end: skipped.end, newlines: skipped.newlines }
        } else {
            Scanned { item: Lexeme::Token(TokenKind::Slash), end: next, newlines: 0 }
        }
    } else if c == '"' {
        let body = read_string_body(src, next);
        if body.close < n {
            Scanned {
                item: Lexeme::Token(TokenKind::String(body.text)),
                end: body.close + 1,
                newlines: body.newlines,
            }
        } else {
            Scanned {
                item: Lexeme::Error(ScanErrorKind::UnterminatedString),
                end: n,
                newlines: body.newlines,
            }
        }
    } else if char_in_class(CharClass::Digit, c) {
        let whole = end_of_run(src, CharClass::Digit, next);
        let end = if whole < n && whole + 1 < n && src[whole] == '.' && char_in_class(
            CharClass::Digit,
            src[whole + 1],
        ) {
            end_of_run(src, CharClass::Digit, whole + 1)
        } else {
            whole
        };
        Scanned {
            item: Lexeme::Token(TokenKind::Number(copy_text(src, pos, end))),
            end,
            newlines: 0,
        }
    } else if ('a' <= c && c <= 'z') || ('A' <= c && c <= 'Z') || c == '_' {
        let end = end_of_run(src, CharClass::WordPart, next);
        Scanned { item: Lexeme::Token(classify_word(src, pos, end)), end, newlines: 0 }
    } else if c == '\n' {
        Scanned { item: Lexeme::Blank, end: next, newlines: 1 }
    } else if c == ' ' || c == '\r' || c == '\t' {
        Scanned { item: Lexeme::Blank, end: next, newlines: 0 }
    } else {
        Scanned {
            item: Lexeme::Error(ScanErrorKind::UnexpectedCharacter),
            end: next,
            newlines: 0,
        }
    }
}

/// The result of a scan: the tokens and the errors, each in source order.
#[derive(Debug)]
pub struct ScanOutcome {
    /// The tokens, closed by the end-of-input token.
    pub tokens: Vec<Token>,
    /// The lexical errors; empty for a well-formed text.
    pub errors: Vec<ScanningError>,
}

impl View for ScanOutcome {
    type V = SpecOutcome;

    open spec fn view(&self) -> SpecOutcome {
        SpecOutcome { tokens: token_views(self.tokens@), errors: error_views(self.errors@) }
    }
}

/// A scanner that owns the source text it is to scan.
#[derive(Debug)]
pub struct Scanner {
    source: String,
}

impl View for Scanner {
    type V = Seq<char>;

    /// The characters of the source text.
    closed spec fn view(&self) -> Seq<char> {
        self.source@
    }
}

impl Scanner {
    /// A scanner for `source`.
    pub fn from(source: String) -> (scanner: Scanner)
        ensures
            scanner@ == source@,
    {
        Scanner { source }
    }

    /// Scans the whole source text in one pass and returns its tokens and
    /// its errors, as the grammar gives them.
    ///
    /// An error never stops the scan: the span that caused it yields no
    /// token, and scanning goes on behind it. The number of the last line
    /// of the text must fit in a `usize`, as it does for every text of less
    /// than `usize::MAX` characters; [`Scanner::try_scan_tokens`] asks for
    /// nothing and tests the length itself.
    ///
    /// Of the result it holds in particular:
    /// - the last token, and no other, is the end-of-input token, on the line
    ///   that the text ends on;
    /// - the lines of the tokens never decrease, and each token before the
    ///   last stands on the line on which its span of the source starts;
    /// - the spans of the tokens stand in source order and do not overlap;
    /// - if there is no error, every character that is neither whitespace
    ///   between lexemes nor part of a comment lies in the span of a token.
    pub fn scan_tokens(self) -> (outcome: ScanOutcome)
        requires
            line_at(self@, self@.len() as int) <= usize::MAX,
        ensures
            outcome@ == scan(self@),
            outcome.tokens@.len() == token_spans(self@).len() + 1,
            outcome.tokens@.last().kind is Eof,
            outcome.tokens@.last().line == line_at(self@, self@.len() as int),
            forall|k: int|
                0 <= k < outcome.tokens@.len() - 1 ==> {
                    let token = #[trigger] outcome.tokens@[k];
                    !(token.kind is Eof) && token.line == line_at(
                        self@,
                        token_spans(self@)[k].start,
                    )
                },
            forall|i: int, j: int|
                #![trigger outcome.tokens@[i], outcome.tokens@[j]]
                0 <= i <= j < outcome.tokens@.len() ==> outcome.tokens@[i].line
                    <= outcome.tokens@[j].line,
            in_order(token_spans(self@)),
            outcome.errors@.len() == 0 ==> forall|p: int|
                0 <= p < self@.len() && !#[trigger] skipped(self@, p) ==> exists|k: int|
                    0 <= k < token_spans(self@).len() && covers(
                        #[trigger] token_spans(self@)[k],
                        p,
                    ),
    {
        let chars = to_chars(self.source.as_str());
        let src = chars.as_slice();
        let n = src.len();
        let mut tokens: Vec<Token> = Vec::new();
        let mut errors: Vec<ScanningError> = Vec::new();
        let mut pos: usize = 0;
        let mut line: usize = 1;
        let ghost s = src@;
        let ghost mut segs: Seq<Segment> = Seq::empty();
        while pos < n
            invariant
                s == src@,
                n == s.len(),
                line_at(s, n as int) <= usize::MAX,
                pos <= n,
                line == line_at(s, pos as int),
                segs + segments_from(s, pos as int) == segments(s),
                token_views(tokens@) == tokens_of(s, segs),
                error_views(errors@) == errors_of(s, segs),
            decreases n - pos,
        {
            let found = next_lexeme(src, pos);
            let ghost segment = lexeme_at(s, pos as int);
            proof {
                lemma_lexeme_bounds(s, pos as int);
                lemma_newlines_between_bounds(s, found.end as int, n as int);
                assert(segs.push(segment) + segments_from(s, segment.end) =~= segs
                    + segments_from(s, pos as int));
                assert(segs.push(segment).drop_last() =~= segs);
            }
            let end_line = line + found.newlines;
            match found.item {
                Lexeme::Token(kind) => {
                    let token = Token { kind, line };
                    tokens.push(token);
                },
                Lexeme::Error(kind) => {
                    let error = ScanningError { line: end_line, kind };
                    errors.push(error);
                },
                Lexeme::Blank => {},
                Lexeme::Comment => {},
            }
            proof {
                segs = segs.push(segment);
            }
            pos = found.end;
            line = end_line;
        }
        let token = Token { kind: TokenKind::Eof, line };
        assert(token_views(tokens@.push(token)) =~= token_views(tokens@).push(token@));
        tokens.push(token);
        proof {
            lemma_eof_closes_scan(s);
            lemma_tokens_come_from_spans(s);
            lemma_lines_never_decrease(s);
            assert forall|k: int| 0 <= k < tokens@.len() - 1 implies {
                let token = #[trigger] tokens@[k];
                !(token.kind is Eof) && token.line == line_at(s, token_spans(s)[k].start)
            } by {
                assert(tokens@[k]@ == scan(s).tokens[k]);
            }
            assert forall|i: int, j: int| 0 <= i <= j < tokens@.len() implies (
            #[trigger] tokens@[i]).line <= (#[trigger] tokens@[j]).line by {
                assert(tokens@[i]@ == scan(s).tokens[i] && tokens@[j]@ == scan(s).tokens[j]);
            }
            if errors@.len() == 0 {
                assert forall|p: int| 0 <= p < s.len() && !#[trigger] skipped(s, p) implies exists|
                    k: int,
                |
                    0 <= k < token_spans(s).len() && covers(#[trigger] token_spans(s)[k], p) by {
                    let k = lemma_full_coverage(s, p);
                }
            }
        }
        ScanOutcome { tokens, errors }
    }

    /// Scans the source text as [`Scanner::scan_tokens`] does if it has less
    /// than `usize::MAX` characters, and returns `None` if it has not.
    pub fn try_scan_tokens(self) -> (outcome: Option<ScanOutcome>)
        ensures
            outcome is Some <==> self@.len() < usize::MAX,
            outcome matches Some(found) ==> found@ == scan(self@),
    {
        let length = self.source.as_str().unicode_len();
        if length < usize::MAX {
            proof {
                lemma_newlines_between_bounds(self@, 0, length as int);
            }
            Some(self.scan_tokens())
        } else {
            None
        }
    }
}

} // verus!
