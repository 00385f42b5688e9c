use cicaklang::error::{
    LexError, NumberError, SpannedError, StringError, UnicodeEscapeError,
};
use cicaklang::lex::{
    tokenize, tokenize_ident, tokenize_number, tokenize_string, LexToken, NumberToken, ParenSide,
    ParenStatus,
};
use cicaklang::util::{PeekableWithPoint, PointInfo};

fn lex(text: &str) -> Result<Option<Vec<LexToken<'_>>>, SpannedError<LexError>> {
    let mut chars = PeekableWithPoint::new(text);
    assert!(chars.is_scannable());
    tokenize(&mut chars)
}

fn tokens(text: &str) -> Vec<LexToken<'_>> {
    lex(text).unwrap().unwrap()
}

fn fault(text: &str) -> SpannedError<LexError> {
    lex(text).unwrap_err()
}

fn at(line: u32, column: u32) -> PointInfo {
    PointInfo { line, column }
}

fn string_fault(error: StringError, line: u32, column: u32) -> SpannedError<LexError> {
    SpannedError::new(LexError::String(error), at(line, column))
}

fn unicode_fault(error: UnicodeEscapeError, line: u32, column: u32) -> SpannedError<LexError> {
    string_fault(StringError::UnicodeEscape(error), line, column)
}

#[test]
fn empty_input_has_no_tokens() {
    assert_eq!(lex(""), Ok(None));
}

#[test]
fn every_punctuation_character_is_one_token() {
    assert_eq!(
        tokens("/;:,.@=+-<>{}[]"),
        vec![
            LexToken::Slash,
            LexToken::Semicolon,
            LexToken::Colon,
            LexToken::Comma,
            LexToken::Dot,
            LexToken::At,
            LexToken::Equal,
            LexToken::Plus,
            LexToken::Minus,
            LexToken::Comparison(ParenSide::Left),
            LexToken::Comparison(ParenSide::Right),
            LexToken::Brace(ParenStatus::Open),
            LexToken::Brace(ParenStatus::Closed),
            LexToken::Bracket(ParenStatus::Open),
            LexToken::Bracket(ParenStatus::Closed),
        ]
    );
}

#[test]
fn repeated_punctuation_keeps_its_order() {
    assert_eq!(
        tokens("++-+"),
        vec![LexToken::Plus, LexToken::Plus, LexToken::Minus, LexToken::Plus]
    );
}

#[test]
fn identifier_is_the_whole_input() {
    assert_eq!(tokens("_foo_Bar9"), vec![LexToken::Ident("_foo_Bar9")]);
    assert_eq!(tokens("x"), vec![LexToken::Ident("x")]);
    assert_eq!(tokens("_"), vec![LexToken::Ident("_")]);
}

#[test]
fn identifier_stops_at_punctuation() {
    assert_eq!(
        tokens("ab+cd"),
        vec![LexToken::Ident("ab"), LexToken::Plus, LexToken::Ident("cd")]
    );
}

#[test]
fn identifier_goes_on_over_letters_of_other_alphabets() {
    assert_eq!(tokens("a\u{e9}t\u{e9}"), vec![LexToken::Ident("a\u{e9}t\u{e9}")]);
    assert_eq!(
        tokens("a\u{3b1}\u{663};"),
        vec![LexToken::Ident("a\u{3b1}\u{663}"), LexToken::Semicolon]
    );
}

#[test]
fn identifier_does_not_go_on_over_other_symbols() {
    // U+2192 is an arrow: no letter and no number.
    assert_eq!(
        fault("ab\u{2192}"),
        SpannedError::new(LexError::UnexpectedChar, at(1, 2))
    );
}

#[test]
fn identifier_cannot_start_with_a_letter_of_another_alphabet() {
    assert_eq!(
        fault("\u{e9}a"),
        SpannedError::new(LexError::UnexpectedChar, at(1, 0))
    );
}

#[test]
fn integer_and_decimal() {
    assert_eq!(
        tokens("123"),
        vec![LexToken::Number(NumberToken::Integer("123"))]
    );
    assert_eq!(
        tokens("1.5"),
        vec![LexToken::Number(NumberToken::Decimal("1.5"))]
    );
    assert_eq!(
        tokens("7."),
        vec![LexToken::Number(NumberToken::Decimal("7."))]
    );
}

#[test]
fn second_dot_in_a_number_is_a_fault_at_that_dot() {
    assert_eq!(
        fault("1.2.3"),
        SpannedError::new(LexError::Number(NumberError::TooManyDots), at(1, 3))
    );
    assert_eq!(
        fault("ab 1..2"),
        SpannedError::new(LexError::Number(NumberError::TooManyDots), at(1, 5))
    );
}

#[test]
fn sign_is_a_token_of_its_own() {
    assert_eq!(
        tokens("-12+3.0"),
        vec![
            LexToken::Minus,
            LexToken::Number(NumberToken::Integer("12")),
            LexToken::Plus,
            LexToken::Number(NumberToken::Decimal("3.0")),
        ]
    );
}

#[test]
fn number_goes_on_over_digits_of_other_scripts() {
    assert_eq!(
        tokens("1\u{663}2 "),
        vec![
            LexToken::Number(NumberToken::Integer("1\u{663}2")),
            LexToken::Spaces
        ]
    );
}

#[test]
fn number_does_not_go_on_over_letters() {
    assert_eq!(
        tokens("12ab"),
        vec![
            LexToken::Number(NumberToken::Integer("12")),
            LexToken::Ident("ab")
        ]
    );
    assert_eq!(
        fault("1\u{e9}"),
        SpannedError::new(LexError::UnexpectedChar, at(1, 1))
    );
}

#[test]
fn the_sample_line_of_the_program() {
    assert_eq!(
        tokens("\"oo\"o023023 200.000"),
        vec![
            LexToken::String(String::from("oo")),
            LexToken::Ident("o023023"),
            LexToken::Spaces,
            LexToken::Number(NumberToken::Decimal("200.000")),
        ]
    );
}

#[test]
fn run_of_spaces_and_tabs_is_one_token() {
    assert_eq!(tokens(" \t  \t"), vec![LexToken::Spaces]);
    assert_eq!(
        tokens("a  \tb"),
        vec![LexToken::Ident("a"), LexToken::Spaces, LexToken::Ident("b")]
    );
}

#[test]
fn run_of_line_breaks_is_one_token() {
    assert_eq!(tokens("\n"), vec![LexToken::Newlines]);
    assert_eq!(tokens("\r\n\n\r"), vec![LexToken::Newlines]);
    assert_eq!(
        tokens("a\n\n\nb"),
        vec![LexToken::Ident("a"), LexToken::Newlines, LexToken::Ident("b")]
    );
}

#[test]
fn spaces_and_line_breaks_do_not_merge() {
    assert_eq!(
        tokens(" \n \n"),
        vec![
            LexToken::Spaces,
            LexToken::Newlines,
            LexToken::Spaces,
            LexToken::Newlines
        ]
    );
}

#[test]
fn string_holds_its_content() {
    assert_eq!(
        tokens("\"abc\""),
        vec![LexToken::String(String::from("abc"))]
    );
    assert_eq!(tokens("\"\""), vec![LexToken::String(String::new())]);
}

#[test]
fn string_may_hold_any_character() {
    assert_eq!(
        tokens("\"a #\n\u{e9}\t\""),
        vec![LexToken::String(String::from("a #\n\u{e9}\t"))]
    );
}

#[test]
fn simple_escapes_are_resolved() {
    assert_eq!(
        tokens("\"\\n\\t\\r\\0\\\"\\'\\\\\""),
        vec![LexToken::String(String::from("\n\t\r\0\"'\\"))]
    );
    assert_eq!(
        tokens("\"a\\nb\""),
        vec![LexToken::String(String::from("a\nb"))]
    );
}

#[test]
fn unicode_escape_is_resolved() {
    assert_eq!(
        tokens("\"\\u{48}\""),
        vec![LexToken::String(String::from("H"))]
    );
    assert_eq!(
        tokens("\"x\\u{e9}y\\u{1F600}\\u{00041}\\u{aB}\""),
        vec![LexToken::String(String::from("x\u{e9}y\u{1F600}A\u{ab}"))]
    );
    assert_eq!(
        tokens("\"\\u{10FFFF}\\u{0}\\u{D7FF}\\u{E000}\""),
        vec![LexToken::String(String::from(
            "\u{10FFFF}\0\u{D7FF}\u{E000}"
        ))]
    );
    assert_eq!(
        tokens("\"\\u{0000000000000048}\""),
        vec![LexToken::String(String::from("H"))]
    );
}

#[test]
fn tokens_after_a_string_with_wide_characters_are_cut_rightly() {
    assert_eq!(
        tokens("\"\u{e9}\u{1F600}\"ab 12"),
        vec![
            LexToken::String(String::from("\u{e9}\u{1F600}")),
            LexToken::Ident("ab"),
            LexToken::Spaces,
            LexToken::Number(NumberToken::Integer("12")),
        ]
    );
}

#[test]
fn unterminated_string_is_a_fault_at_the_end_of_input() {
    assert_eq!(
        fault("\"abc"),
        string_fault(StringError::UnterminatedStringLiteral, 1, 4)
    );
    assert_eq!(
        fault("\""),
        string_fault(StringError::UnterminatedStringLiteral, 1, 1)
    );
    assert_eq!(
        fault("\"a\nbc"),
        string_fault(StringError::UnterminatedStringLiteral, 2, 2)
    );
}

#[test]
fn unknown_escape_is_a_fault_at_its_character() {
    assert_eq!(
        fault("\"a\\z\""),
        string_fault(StringError::UnknownEscape('z'), 1, 3)
    );
    assert_eq!(
        fault("\"\\N\""),
        string_fault(StringError::UnknownEscape('N'), 1, 2)
    );
}

#[test]
fn backslash_at_the_end_of_input_is_a_fault() {
    assert_eq!(
        fault("\"ab\\"),
        SpannedError::new(LexError::UnexpectedEof, at(1, 4))
    );
}

#[test]
fn unicode_escape_without_opening_brace() {
    assert_eq!(
        fault("\"\\u48\""),
        unicode_fault(UnicodeEscapeError::MissingOpeningBrace, 1, 3)
    );
    assert_eq!(
        fault("\"\\u"),
        unicode_fault(UnicodeEscapeError::MissingOpeningBrace, 1, 3)
    );
}

#[test]
fn unicode_escape_cut_short_by_the_closing_quote() {
    assert_eq!(
        fault("\"\\u{48\""),
        unicode_fault(UnicodeEscapeError::MissingClosingBrace, 1, 6)
    );
    assert_eq!(
        fault("\"\\u{\""),
        unicode_fault(UnicodeEscapeError::MissingClosingBrace, 1, 4)
    );
}

#[test]
fn unicode_escape_with_bad_digits() {
    // no digit at all
    assert_eq!(
        fault("\"\\u{}\""),
        unicode_fault(UnicodeEscapeError::InvalidHex, 1, 4)
    );
    // a character that is no hexadecimal digit
    assert_eq!(
        fault("\"\\u{4G}\""),
        unicode_fault(UnicodeEscapeError::InvalidHex, 1, 5)
    );
    assert_eq!(
        fault("\"\\u{+48}\""),
        unicode_fault(UnicodeEscapeError::InvalidHex, 1, 4)
    );
    // the input ends among the digits
    assert_eq!(
        fault("\"\\u{48"),
        unicode_fault(UnicodeEscapeError::InvalidHex, 1, 6)
    );
    assert_eq!(
        fault("\"\\u{"),
        unicode_fault(UnicodeEscapeError::InvalidHex, 1, 4)
    );
}

#[test]
fn unicode_escape_that_is_no_code_point() {
    // a surrogate
    assert_eq!(
        fault("\"\\u{D800}\""),
        unicode_fault(UnicodeEscapeError::InvalidHex, 1, 8)
    );
    assert_eq!(
        fault("\"\\u{DFFF}\""),
        unicode_fault(UnicodeEscapeError::InvalidHex, 1, 8)
    );
    // past the last code point
    assert_eq!(
        fault("\"\\u{110000}\""),
        unicode_fault(UnicodeEscapeError::InvalidHex, 1, 10)
    );
    // far past what 32 bits hold
    assert_eq!(
        fault("\"\\u{FFFFFFFFFFFFFFFFFFFF}\""),
        unicode_fault(UnicodeEscapeError::InvalidHex, 1, 24)
    );
    assert_eq!(
        fault("\"\\u{100000048}\""),
        unicode_fault(UnicodeEscapeError::InvalidHex, 1, 13)
    );
}

#[test]
fn unexpected_character_is_a_fault_at_its_place() {
    assert_eq!(
        fault("#"),
        SpannedError::new(LexError::UnexpectedChar, at(1, 0))
    );
    assert_eq!(
        fault("ab #"),
        SpannedError::new(LexError::UnexpectedChar, at(1, 3))
    );
    assert_eq!(
        fault("'"),
        SpannedError::new(LexError::UnexpectedChar, at(1, 0))
    );
}

#[test]
fn fault_after_a_line_break_is_on_the_next_line() {
    assert_eq!(
        fault("a\n#"),
        SpannedError::new(LexError::UnexpectedChar, at(2, 0))
    );
    assert_eq!(
        fault("a\n\nbc #"),
        SpannedError::new(LexError::UnexpectedChar, at(3, 3))
    );
}

#[test]
fn tab_moves_the_column_by_four() {
    assert_eq!(
        fault("\t#"),
        SpannedError::new(LexError::UnexpectedChar, at(1, 4))
    );
    assert_eq!(
        fault("a\t\tb#"),
        SpannedError::new(LexError::UnexpectedChar, at(1, 10))
    );
}

#[test]
fn carriage_return_counts_as_a_column() {
    assert_eq!(
        fault("a\r#"),
        SpannedError::new(LexError::UnexpectedChar, at(1, 2))
    );
}

#[test]
fn first_fault_stops_the_scan() {
    assert_eq!(
        fault("a # 1.2.3"),
        SpannedError::new(LexError::UnexpectedChar, at(1, 2))
    );
}

#[test]
fn cursor_stands_at_the_fault() {
    let mut chars = PeekableWithPoint::new("ab 1.2.3");
    assert!(tokenize(&mut chars).is_err());
    assert_eq!(chars.index(), 6);
    assert_eq!(chars.peek(), Some(&'.'));
}

#[test]
fn cursor_stands_at_the_end_after_success() {
    let mut chars = PeekableWithPoint::new("ab 1.2");
    assert!(tokenize(&mut chars).is_ok());
    assert_eq!(chars.index(), 6);
    assert_eq!(chars.peek(), None);
}

#[test]
fn tokenize_goes_on_from_where_the_cursor_stands() {
    let mut chars = PeekableWithPoint::new("ab+c");
    assert_eq!(chars.next(), Some('a'));
    assert_eq!(chars.next(), Some('b'));
    assert_eq!(
        tokenize(&mut chars),
        Ok(Some(vec![LexToken::Plus, LexToken::Ident("c")]))
    );
    assert_eq!(tokenize(&mut chars), Ok(None));
}

#[test]
fn ident_scanner_takes_the_character_before_the_cursor() {
    let mut chars = PeekableWithPoint::new("+abc9_ d");
    chars.next();
    chars.next();
    assert_eq!(tokenize_ident(&mut chars), Ok("abc9_"));
    assert_eq!(chars.index(), 6);
}

#[test]
fn number_scanner_takes_the_character_before_the_cursor() {
    let mut chars = PeekableWithPoint::new("x42.5y");
    chars.next();
    chars.next();
    assert_eq!(tokenize_number(&mut chars), Ok(NumberToken::Decimal("42.5")));
    assert_eq!(chars.index(), 5);
    let mut chars = PeekableWithPoint::new("7");
    chars.next();
    assert_eq!(tokenize_number(&mut chars), Ok(NumberToken::Integer("7")));
}

#[test]
fn string_scanner_starts_after_the_opening_quote() {
    let mut chars = PeekableWithPoint::new("\"a\\tb\" rest");
    chars.next();
    assert_eq!(tokenize_string(&mut chars), Ok(String::from("a\tb")));
    assert_eq!(chars.index(), 6);
    assert_eq!(chars.peek(), Some(&' '));
}

#[test]
fn string_scanner_reports_where_the_input_ends() {
    let mut chars = PeekableWithPoint::new("\"a\tb");
    chars.next();
    assert_eq!(
        tokenize_string(&mut chars),
        Err(string_fault(StringError::UnterminatedStringLiteral, 1, 7))
    );
}
