use lox::{ScanErrorKind, ScanOutcome, Scanner, ScanningError, Token, TokenKind};

fn scan(text: &str) -> ScanOutcome {
    Scanner::from(text.to_string()).scan_tokens()
}

fn kinds(outcome: &ScanOutcome) -> Vec<TokenKind> {
    outcome.tokens.iter().map(|token| token.kind.clone()).collect()
}

fn lines(outcome: &ScanOutcome) -> Vec<usize> {
    outcome.tokens.iter().map(|token| token.line).collect()
}

fn identifier(name: &str) -> TokenKind {
    TokenKind::Identifier(name.to_string())
}

fn string(text: &str) -> TokenKind {
    TokenKind::String(text.to_string())
}

fn number(text: &str) -> TokenKind {
    TokenKind::Number(text.to_string())
}

fn number_values(outcome: &ScanOutcome) -> Vec<f64> {
    let mut values = Vec::new();
    for token in &outcome.tokens {
        if let TokenKind::Number(text) = &token.kind {
            values.push(text.parse::<f64>().unwrap());
        }
    }
    values
}

#[test]
fn empty_input_yields_only_eof() {
    let outcome = scan("");
    assert_eq!(outcome.tokens, vec![Token { kind: TokenKind::Eof, line: 1 }]);
    assert!(outcome.errors.is_empty());
}

#[test]
fn last_token_is_always_eof() {
    for text in ["", "a", "1 + 2", "\"open", "@#", "// c", "/* c", "a\n\nb\n"] {
        let outcome = scan(text);
        assert!(!outcome.tokens.is_empty());
        assert_eq!(outcome.tokens.last().unwrap().kind, TokenKind::Eof);
        let before_last = &outcome.tokens[..outcome.tokens.len() - 1];
        assert!(before_last.iter().all(|token| token.kind != TokenKind::Eof));
    }
}

#[test]
fn lines_count_the_newlines_before_each_lexeme() {
    let outcome = scan("a\nb\n\nc d\n");
    assert_eq!(
        kinds(&outcome),
        vec![identifier("a"), identifier("b"), identifier("c"), identifier("d"), TokenKind::Eof]
    );
    assert_eq!(lines(&outcome), vec![1, 2, 4, 4, 5]);
}

#[test]
fn lines_never_decrease() {
    let outcome = scan("var a = \"x\ny\";\n/* one\ntwo */ print a; // rest\nignored");
    let found = lines(&outcome);
    assert_eq!(found, vec![1, 1, 1, 1, 2, 4, 4, 4, 5]);
    assert!(found.windows(2).all(|pair| pair[0] <= pair[1]));
}

#[test]
fn every_character_is_accounted_for_without_errors() {
    let outcome = scan("(a+b) /* skip */ <= 12.5");
    assert!(outcome.errors.is_empty());
    assert_eq!(
        kinds(&outcome),
        vec![
            TokenKind::LeftParen,
            identifier("a"),
            TokenKind::Plus,
            identifier("b"),
            TokenKind::RightParen,
            TokenKind::LessEqual,
            number("12.5"),
            TokenKind::Eof,
        ]
    );
}

#[test]
fn two_character_operators_are_greedy() {
    let outcome = scan("!=");
    assert_eq!(kinds(&outcome), vec![TokenKind::BangEqual, TokenKind::Eof]);
    assert!(outcome.errors.is_empty());
    let outcome = scan("! =");
    assert_eq!(kinds(&outcome), vec![TokenKind::Bang, TokenKind::Equal, TokenKind::Eof]);
    assert!(outcome.errors.is_empty());
}

#[test]
fn all_operators() {
    let outcome = scan("! != = == < <= > >=");
    assert_eq!(
        kinds(&outcome),
        vec![
            TokenKind::Bang,
            TokenKind::BangEqual,
            TokenKind::Equal,
            TokenKind::EqualEqual,
            TokenKind::Less,
            TokenKind::LessEqual,
            TokenKind::Greater,
            TokenKind::GreaterEqual,
            TokenKind::Eof,
        ]
    );
    let outcome = scan("===");
    assert_eq!(kinds(&outcome), vec![TokenKind::EqualEqual, TokenKind::Equal, TokenKind::Eof]);
    let outcome = scan("<");
    assert_eq!(kinds(&outcome), vec![TokenKind::Less, TokenKind::Eof]);
}

#[test]
fn all_punctuation() {
    let outcome = scan("(){},.-+;*/");
    assert_eq!(
        kinds(&outcome),
        vec![
            TokenKind::LeftParen,
            TokenKind::RightParen,
            TokenKind::LeftBrace,
            TokenKind::RightBrace,
            TokenKind::Comma,
            TokenKind::Dot,
            TokenKind::Minus,
            TokenKind::Plus,
            TokenKind::Semicolon,
            TokenKind::Star,
            TokenKind::Slash,
            TokenKind::Eof,
        ]
    );
    assert!(outcome.errors.is_empty());
}

#[test]
fn nested_comments() {
    let outcome = scan("/* a /* b */ c */1");
    assert_eq!(kinds(&outcome), vec![number("1"), TokenKind::Eof]);
    assert_eq!(number_values(&outcome), vec![1.0]);
    assert!(outcome.errors.is_empty());
}

#[test]
fn block_comment_closes_only_at_depth_zero() {
    let outcome = scan("/* /* /* */ */ x */ y");
    assert_eq!(kinds(&outcome), vec![identifier("y"), TokenKind::Eof]);
    let outcome = scan("/* /* */ x");
    assert_eq!(kinds(&outcome), vec![TokenKind::Eof]);
    assert!(outcome.errors.is_empty());
}

#[test]
fn unterminated_block_comment_is_no_error() {
    let outcome = scan("1 /* never\nclosed");
    assert_eq!(kinds(&outcome), vec![number("1"), TokenKind::Eof]);
    assert_eq!(lines(&outcome), vec![1, 2]);
    assert!(outcome.errors.is_empty());
}

#[test]
fn comment_delimiters_are_taken_whole() {
    let outcome = scan("/*/ a");
    assert_eq!(kinds(&outcome), vec![TokenKind::Eof]);
    let outcome = scan("/**/ a");
    assert_eq!(kinds(&outcome), vec![identifier("a"), TokenKind::Eof]);
    let outcome = scan("/* * / */ a");
    assert_eq!(kinds(&outcome), vec![identifier("a"), TokenKind::Eof]);
}

#[test]
fn block_comment_counts_each_newline_once() {
    let outcome = scan("/* a\n\nb\n*/ x");
    assert_eq!(
        outcome.tokens,
        vec![Token { kind: identifier("x"), line: 4 }, Token { kind: TokenKind::Eof, line: 4 }]
    );
}

#[test]
fn line_comment_runs_to_the_end_of_the_text() {
    let outcome = scan("a // one\nb\nc");
    assert_eq!(
        outcome.tokens,
        vec![Token { kind: identifier("a"), line: 1 }, Token { kind: TokenKind::Eof, line: 3 }]
    );
    assert!(outcome.errors.is_empty());
}

#[test]
fn slash_alone_is_a_token() {
    let outcome = scan("8 / 2");
    assert_eq!(kinds(&outcome), vec![number("8"), TokenKind::Slash, number("2"), TokenKind::Eof]);
    let outcome = scan("/");
    assert_eq!(kinds(&outcome), vec![TokenKind::Slash, TokenKind::Eof]);
}

#[test]
fn unterminated_string() {
    let outcome = scan("\"abc");
    assert_eq!(outcome.tokens, vec![Token { kind: TokenKind::Eof, line: 1 }]);
    assert_eq!(
        outcome.errors,
        vec![ScanningError { line: 1, kind: ScanErrorKind::UnterminatedString }]
    );
    assert_eq!(outcome.errors[0].message(), "Unterminated string");
}

#[test]
fn unterminated_string_is_reported_on_the_last_line() {
    let outcome = scan("x \"abc\ndef\n");
    assert_eq!(
        outcome.tokens,
        vec![Token { kind: identifier("x"), line: 1 }, Token { kind: TokenKind::Eof, line: 3 }]
    );
    assert_eq!(
        outcome.errors,
        vec![ScanningError { line: 3, kind: ScanErrorKind::UnterminatedString }]
    );
}

#[test]
fn string_literal() {
    let outcome = scan("\"abc\"");
    assert_eq!(kinds(&outcome), vec![string("abc"), TokenKind::Eof]);
    assert!(outcome.errors.is_empty());
    let outcome = scan("\"\"");
    assert_eq!(kinds(&outcome), vec![string(""), TokenKind::Eof]);
    let outcome = scan("\"a b\" \"// no comment\"");
    assert_eq!(kinds(&outcome), vec![string("a b"), string("// no comment"), TokenKind::Eof]);
}

#[test]
fn string_literal_over_several_lines() {
    let outcome = scan("\"a\nb\" c");
    assert_eq!(
        outcome.tokens,
        vec![
            Token { kind: string("a\nb"), line: 1 },
            Token { kind: identifier("c"), line: 2 },
            Token { kind: TokenKind::Eof, line: 2 },
        ]
    );
}

#[test]
fn string_literal_keeps_characters_outside_ascii() {
    let outcome = scan("\"h\u{e9}llo \u{1F600}\"");
    assert_eq!(kinds(&outcome), vec![string("h\u{e9}llo \u{1F600}"), TokenKind::Eof]);
    assert!(outcome.errors.is_empty());
}

#[test]
fn maximal_munch_keywords() {
    let outcome = scan("classy");
    assert_eq!(kinds(&outcome), vec![identifier("classy"), TokenKind::Eof]);
    let outcome = scan("class");
    assert_eq!(kinds(&outcome), vec![TokenKind::Class, TokenKind::Eof]);
}

#[test]
fn keywords_are_case_sensitive() {
    let outcome = scan("Class CLASS nil Nil");
    assert_eq!(
        kinds(&outcome),
        vec![
            identifier("Class"),
            identifier("CLASS"),
            TokenKind::Nil,
            identifier("Nil"),
            TokenKind::Eof,
        ]
    );
}

#[test]
fn all_keywords() {
    let outcome =
        scan("and class else false fun for if nil or print return super this true var while");
    assert_eq!(
        kinds(&outcome),
        vec![
            TokenKind::And,
            TokenKind::Class,
            TokenKind::Else,
            TokenKind::False,
            TokenKind::Fun,
            TokenKind::For,
            TokenKind::If,
            TokenKind::Nil,
            TokenKind::Or,
            TokenKind::Print,
            TokenKind::Return,
            TokenKind::Super,
            TokenKind::This,
            TokenKind::True,
            TokenKind::Var,
            TokenKind::While,
            TokenKind::Eof,
        ]
    );
    assert!(outcome.errors.is_empty());
}

#[test]
fn identifiers_take_letters_digits_and_underscores() {
    let outcome = scan("_foo1_bar x_ __ a1b2 or_ and2");
    assert_eq!(
        kinds(&outcome),
        vec![
            identifier("_foo1_bar"),
            identifier("x_"),
            identifier("__"),
            identifier("a1b2"),
            identifier("or_"),
            identifier("and2"),
            TokenKind::Eof,
        ]
    );
}

#[test]
fn identifier_ends_at_the_first_other_character() {
    let outcome = scan("foo(bar)");
    assert_eq!(
        kinds(&outcome),
        vec![
            identifier("foo"),
            TokenKind::LeftParen,
            identifier("bar"),
            TokenKind::RightParen,
            TokenKind::Eof,
        ]
    );
}

#[test]
fn number_grammar() {
    let outcome = scan("3.14");
    assert_eq!(kinds(&outcome), vec![number("3.14"), TokenKind::Eof]);
    assert_eq!(number_values(&outcome), vec![3.14]);
    let outcome = scan("3.");
    assert_eq!(kinds(&outcome), vec![number("3"), TokenKind::Dot, TokenKind::Eof]);
    assert_eq!(number_values(&outcome), vec![3.0]);
}

#[test]
fn number_takes_one_fraction() {
    let outcome = scan("1.2.3");
    assert_eq!(kinds(&outcome), vec![number("1.2"), TokenKind::Dot, number("3"), TokenKind::Eof]);
    assert_eq!(number_values(&outcome), vec![1.2, 3.0]);
    let outcome = scan(".5");
    assert_eq!(kinds(&outcome), vec![TokenKind::Dot, number("5"), TokenKind::Eof]);
    let outcome = scan("007.250");
    assert_eq!(kinds(&outcome), vec![number("007.250"), TokenKind::Eof]);
    assert_eq!(number_values(&outcome), vec![7.25]);
}

#[test]
fn number_ends_at_the_first_other_character() {
    let outcome = scan("12abc 4;");
    assert_eq!(
        kinds(&outcome),
        vec![number("12"), identifier("abc"), number("4"), TokenKind::Semicolon, TokenKind::Eof]
    );
    let outcome = scan("1.x");
    assert_eq!(kinds(&outcome), vec![number("1"), TokenKind::Dot, identifier("x"), TokenKind::Eof]);
}

#[test]
fn statement_with_trailing_comment() {
    let outcome = scan("var x = 1 + 2; // done");
    assert_eq!(
        kinds(&outcome),
        vec![
            TokenKind::Var,
            identifier("x"),
            TokenKind::Equal,
            number("1"),
            TokenKind::Plus,
            number("2"),
            TokenKind::Semicolon,
            TokenKind::Eof,
        ]
    );
    assert_eq!(number_values(&outcome), vec![1.0, 2.0]);
    assert!(outcome.errors.is_empty());
    assert!(outcome.tokens.iter().all(|token| token.line == 1));
}

#[test]
fn unexpected_character() {
    let outcome = scan("@");
    assert_eq!(outcome.tokens, vec![Token { kind: TokenKind::Eof, line: 1 }]);
    assert_eq!(
        outcome.errors,
        vec![ScanningError { line: 1, kind: ScanErrorKind::UnexpectedCharacter }]
    );
    assert_eq!(outcome.errors[0].message(), "Unexpected character");
}

#[test]
fn errors_do_not_stop_the_scan() {
    let outcome = scan("a @ b\n# c \u{e9}\n\"open");
    assert_eq!(
        outcome.tokens,
        vec![
            Token { kind: identifier("a"), line: 1 },
            Token { kind: identifier("b"), line: 1 },
            Token { kind: identifier("c"), line: 2 },
            Token { kind: TokenKind::Eof, line: 3 },
        ]
    );
    assert_eq!(
        outcome.errors,
        vec![
            ScanningError { line: 1, kind: ScanErrorKind::UnexpectedCharacter },
            ScanningError { line: 2, kind: ScanErrorKind::UnexpectedCharacter },
            ScanningError { line: 2, kind: ScanErrorKind::UnexpectedCharacter },
            ScanningError { line: 3, kind: ScanErrorKind::UnterminatedString },
        ]
    );
}

#[test]
fn whitespace_yields_no_token() {
    let outcome = scan(" \t\r\n \n");
    assert_eq!(outcome.tokens, vec![Token { kind: TokenKind::Eof, line: 3 }]);
    assert!(outcome.errors.is_empty());
}

#[test]
fn other_whitespace_is_unexpected() {
    let outcome = scan("a\u{b}b\u{a0}");
    assert_eq!(kinds(&outcome), vec![identifier("a"), identifier("b"), TokenKind::Eof]);
    assert_eq!(outcome.errors.len(), 2);
}

#[test]
fn try_scan_tokens_scans_what_fits() {
    let text = "print \"hi\";\n@";
    let found = Scanner::from(text.to_string()).try_scan_tokens().unwrap();
    let outcome = scan(text);
    assert_eq!(found.tokens, outcome.tokens);
    assert_eq!(found.errors, outcome.errors);
    assert_eq!(
        kinds(&found),
        vec![TokenKind::Print, string("hi"), TokenKind::Semicolon, TokenKind::Eof]
    );
    assert_eq!(
        found.errors,
        vec![ScanningError { line: 2, kind: ScanErrorKind::UnexpectedCharacter }]
    );
}

#[test]
fn scans_are_independent() {
    let first = scan("a\nb");
    let second = scan("c");
    assert_eq!(lines(&first), vec![1, 2, 2]);
    assert_eq!(second.tokens, vec![
        Token { kind: identifier("c"), line: 1 },
        Token { kind: TokenKind::Eof, line: 1 },
    ]);
}
