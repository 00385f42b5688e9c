//! What the tokens of a text are: the rules of the language, stated over
//! sequences of characters.
use crate::error::{LexError, NumberError, StringError, UnicodeEscapeError};
use crate::lex::{ParenSide, ParenStatus};
use crate::trusted::{unicode_alphanumeric, unicode_numeric};
use crate::util::representable;
use vstd::prelude::*;

verus! {

/// A number as the rules see it: its kind and its characters.
pub enum NumberView {
    Decimal(Seq<char>),
    Integer(Seq<char>),
}

/// A token as the rules see it.
pub enum TokenView {
    Slash,
    Spaces,
    Newlines,
    Minus,
    Plus,
    Equal,
    Semicolon,
    Colon,
    Comma,
    Dot,
    At,
    Number(NumberView),
    String(Seq<char>),
    Ident(Seq<char>),
    Bracket(ParenStatus),
    Brace(ParenStatus),
    Comparison(ParenSide),
}

/// What scanning from some position gives: a value and the position at
/// which scanning stopped, or a fault and the position of the character
/// that is at fault (the length of the text where the text ended too soon).
pub enum Scanned<T> {
    Done { value: T, end: int },
    Fault { error: LexError, at: int },
}

impl<T> Scanned<T> {
    /// The position at which scanning stopped: the end of what was scanned,
    /// or the place of the fault.
    pub open spec fn stop(self) -> int {
        match self {
            Scanned::Done { end, .. } => end,
            Scanned::Fault { at, .. } => at,
        }
    }
}

/// Whether a scanner can get to `outcome` on the text `s`: the characters
/// up to where it stops can be counted in a `u32`, and where it stops at a
/// fault, the line and the column of that fault fit in a `u32`, as does
/// every column on the way there.
pub open spec fn reportable<T>(s: Seq<char>, outcome: Scanned<T>) -> bool {
    &&& outcome.stop() <= u32::MAX
    &&& outcome is Fault ==> representable(s.take(outcome.stop()))
}

/// The classes of characters of which runs are formed.
#[derive(Debug, Clone, Copy, PartialEq, Eq)]
pub enum CharClass {
    /// A space or a tab.
    Space,
    /// A carriage return or a line feed.
    Newline,
    /// What may follow the first character of an identifier.
    IdentPart,
    /// What may follow the first digit of a number, the dot aside.
    Digit,
    /// A hexadecimal digit.
    HexDigit,
}

/// Whether `c` is one of the first 128 characters.
pub open spec fn is_ascii(c: char) -> bool {
    c <= '\x7f'
}

/// Whether `c` is a letter of the Latin alphabet, small or capital.
pub open spec fn is_ascii_letter(c: char) -> bool {
    ('a' <= c && c <= 'z') || ('A' <= c && c <= 'Z')
}

/// Whether `c` is one of the ten digits.
pub open spec fn is_ascii_digit(c: char) -> bool {
    '0' <= c && c <= '9'
}

/// Whether `c` is a hexadecimal digit, in either case.
pub open spec fn is_hex_digit(c: char) -> bool {
    is_ascii_digit(c) || ('a' <= c && c <= 'f') || ('A' <= c && c <= 'F')
}

/// The value of a hexadecimal digit.
pub open spec fn hex_digit_value(c: char) -> nat {
    if is_ascii_digit(c) {
        (c as u32 - '0' as u32) as nat
    } else if 'a' <= c && c <= 'f' {
        (c as u32 - 'a' as u32 + 10) as nat
    } else {
        (c as u32 - 'A' as u32 + 10) as nat
    }
}

/// The number that a sequence of hexadecimal digits writes.
pub open spec fn hex_value(digits: Seq<char>) -> nat
    decreases digits.len(),
{
    if digits.len() == 0 {
        0
    } else {
        hex_value(digits.drop_last()) * 16 + hex_digit_value(digits.last())
    }
}

/// Whether `v` is the code point of a character: at most `0x10FFFF`, and
/// none of the surrogates.
pub open spec fn is_code_point(v: nat) -> bool {
    v <= 0x10FFFF && !(0xD800 <= v && v <= 0xDFFF)
}

/// An identifier starts with a letter of the Latin alphabet or an underscore.
pub open spec fn starts_ident(c: char) -> bool {
    c == '_' || is_ascii_letter(c)
}

/// Whether `c` belongs to `class`.
///
/// Of the first 128 characters, the letters of the Latin alphabet, the ten
/// digits and the underscore may stand in an identifier, and the ten digits
/// in a number. Of every other character the Unicode tables decide: it may
/// stand in an identifier where it is a letter or a number, and in a number
/// where it is a number.
pub open spec fn in_class(class: CharClass, c: char) -> bool {
    match class {
        CharClass::Space => c == ' ' || c == '\t',
        CharClass::Newline => c == '\r' || c == '\n',
        CharClass::IdentPart => if is_ascii(c) {
            c == '_' || is_ascii_letter(c) || is_ascii_digit(c)
        } else {
            unicode_alphanumeric(c)
        },
        CharClass::Digit => if is_ascii(c) {
            is_ascii_digit(c)
        } else {
            unicode_numeric(c)
        },
        CharClass::HexDigit => is_hex_digit(c),
    }
}

/// The token that a character is by itself, if it is one.
pub open spec fn punctuation(c: char) -> Option<TokenView> {
    if c == '/' {
        Some(TokenView::Slash)
    } else if c == ';' {
        Some(TokenView::Semicolon)
    } else if c == ':' {
        Some(TokenView::Colon)
    } else if c == ',' {
        Some(TokenView::Comma)
    } else if c == '.' {
        Some(TokenView::Dot)
    } else if c == '@' {
        Some(TokenView::At)
    } else if c == '=' {
        Some(TokenView::Equal)
    } else if c == '+' {
        Some(TokenView::Plus)
    } else if c == '-' {
        Some(TokenView::Minus)
    } else if c == '<' {
        Some(TokenView::Comparison(ParenSide::Left))
    } else if c == '>' {
        Some(TokenView::Comparison(ParenSide::Right))
    } else if c == '{' {
        Some(TokenView::Brace(ParenStatus::Open))
    } else if c == '}' {
        Some(TokenView::Brace(ParenStatus::Closed))
    } else if c == '[' {
        Some(TokenView::Bracket(ParenStatus::Open))
    } else if c == ']' {
        Some(TokenView::Bracket(ParenStatus::Closed))
    } else {
        None
    }
}

/// Where the longest run of characters of `class` that starts at `i` ends.
pub open spec fn run_end(s: Seq<char>, i: int, class: CharClass) -> int
    decreases s.len() - i,
{
    if 0 <= i < s.len() && in_class(class, s[i]) {
        run_end(s, i + 1, class)
    } else {
        i
    }
}

/// The rest of a number from `i` on, where `dotted` says whether a dot was
/// passed already: where the number ends and whether it holds a dot, or the
/// position of a second dot.
pub open spec fn number_tail(s: Seq<char>, i: int, dotted: bool) -> Result<(int, bool), int>
    decreases s.len() - i,
{
    if 0 <= i < s.len() && s[i] == '.' {
        if dotted {
            Err(i)
        } else {
            number_tail(s, i + 1, true)
        }
    } else if 0 <= i < s.len() && in_class(CharClass::Digit, s[i]) {
        number_tail(s, i + 1, dotted)
    } else {
        Ok((i, dotted))
    }
}

/// The number whose first digit stands at `start`: a decimal where it
/// holds a dot, an integer where it holds none. Its characters are those
/// from the first digit to where it ends.
pub open spec fn scan_number(s: Seq<char>, start: int) -> Scanned<NumberView> {
    match number_tail(s, start + 1, false) {
        Ok((end, dotted)) => Scanned::Done {
            value: if dotted {
                NumberView::Decimal(s.subrange(start, end))
            } else {
                NumberView::Integer(s.subrange(start, end))
            },
            end,
        },
        Err(at) => Scanned::Fault { error: LexError::Number(NumberError::TooManyDots), at },
    }
}

/// Where the identifier ends whose first character stands at `start`.
pub open spec fn ident_end(s: Seq<char>, start: int) -> int {
    run_end(s, start + 1, CharClass::IdentPart)
}

/// The character that `\u` stands for together with what follows it from `i`
/// on: an opening brace, hexadecimal digits that write a code point, and a
/// closing brace.
///
/// Where anything but an opening brace comes first, the brace is missing.
/// The digits are the longest run of hexadecimal digits after the brace.
/// Where the closing quote of the literal follows them, the closing brace is
/// missing. In every other case that is not a well-formed escape the digits
/// are at fault: there are none, they write a number that is no code point,
/// the text ends after them, or a character follows that is neither a
/// hexadecimal digit nor a closing brace. Each fault lies at the character
/// that follows what was accepted.
pub open spec fn scan_unicode_escape(s: Seq<char>, i: int) -> Scanned<char> {
    if !(0 <= i < s.len() && s[i] == '{') {
        Scanned::Fault {
            error: LexError::String(
                StringError::UnicodeEscape(UnicodeEscapeError::MissingOpeningBrace),
            ),
            at: i,
        }
    } else {
        let end = run_end(s, i + 1, CharClass::HexDigit);
        let digits = s.subrange(i + 1, end);
        if end < s.len() && s[end] == '}' && digits.len() > 0 && is_code_point(hex_value(digits)) {
            Scanned::Done { value: hex_value(digits) as char, end: end + 1 }
        } else if end < s.len() && s[end] == '"' {
            Scanned::Fault {
                error: LexError::String(
                    StringError::UnicodeEscape(UnicodeEscapeError::MissingClosingBrace),
                ),
                at: end,
            }
        } else {
            Scanned::Fault {
                error: LexError::String(StringError::UnicodeEscape(UnicodeEscapeError::InvalidHex)),
                at: end,
            }
        }
    }
}

/// The character that a backslash stands for together with what follows it
/// from `i` on. A text that ends with the backslash has ended too soon, and
/// a character that starts no escape is at fault itself.
pub open spec fn scan_escape(s: Seq<char>, i: int) -> Scanned<char> {
    if !(0 <= i < s.len()) {
        Scanned::Fault { error: LexError::UnexpectedEof, at: i }
    } else if s[i] == 'n' {
        Scanned::Done { value: '\n', end: i + 1 }
    } else if s[i] == 't' {
        Scanned::Done { value: '\t', end: i + 1 }
    } else if s[i] == 'r' {
        Scanned::Done { value: '\r', end: i + 1 }
    } else if s[i] == '0' {
        Scanned::Done { value: '\0', end: i + 1 }
    } else if s[i] == '"' {
        Scanned::Done { value: '"', end: i + 1 }
    } else if s[i] == '\'' {
        Scanned::Done { value: '\'', end: i + 1 }
    } else if s[i] == '\\' {
        Scanned::Done { value: '\\', end: i + 1 }
    } else if s[i] == 'u' {
        scan_unicode_escape(s, i + 1)
    } else {
        Scanned::Fault { error: LexError::String(StringError::UnknownEscape(s[i])), at: i }
    }
}

/// A run never ends before it starts, nor after the text.
pub proof fn lemma_run_end_bounds(s: Seq<char>, i: int, class: CharClass)
    requires
        0 <= i <= s.len(),
    ensures
        i <= run_end(s, i, class) <= s.len(),
    decreases s.len() - i,
{
    if i < s.len() && in_class(class, s[i]) {
        lemma_run_end_bounds(s, i + 1, class);
    }
}

/// A Unicode escape stops at or after where its opening brace should stand,
/// and inside the text or at its end.
pub proof fn lemma_unicode_escape_bounds(s: Seq<char>, i: int)
    requires
        0 <= i <= s.len(),
    ensures
        i <= scan_unicode_escape(s, i).stop() <= s.len(),
{
    if i < s.len() {
        lemma_run_end_bounds(s, i + 1, CharClass::HexDigit);
    }
}

/// An escape that stands for a character ends after where it starts, and a
/// faulty one has its fault inside the text or at its end.
pub proof fn lemma_escape_bounds(s: Seq<char>, i: int)
    requires
        0 <= i <= s.len(),
    ensures
        match scan_escape(s, i) {
            Scanned::Done { end, .. } => i < end <= s.len(),
            Scanned::Fault { at, .. } => i <= at <= s.len(),
        },
{
    if i < s.len() && s[i] == 'u' && i + 1 < s.len() && s[i + 1] == '{' {
        lemma_run_end_bounds(s, i + 2, CharClass::HexDigit);
    }
}

/// The rest of a string literal from `i` on, where `text` holds what the
/// literal has said so far: what it says in all and where it ends. A
/// literal that the end of the text cuts short is a fault at that end.
pub open spec fn string_tail(s: Seq<char>, i: int, text: Seq<char>) -> Scanned<Seq<char>>
    decreases s.len() - i,
{
    if !(0 <= i < s.len()) {
        Scanned::Fault { error: LexError::String(StringError::UnterminatedStringLiteral), at: i }
    } else if s[i] == '"' {
        Scanned::Done { value: text, end: i + 1 }
    } else if s[i] == '\\' {
        match scan_escape(s, i + 1) {
            Scanned::Done { value, end } => {
                proof {
                    lemma_escape_bounds(s, i + 1);
                }
                string_tail(s, end, text.push(value))
            },
            Scanned::Fault { error, at } => Scanned::Fault { error, at },
        }
    } else {
        string_tail(s, i + 1, text.push(s[i]))
    }
}

/// What the string literal says whose opening quote stands just before `i`.
pub open spec fn scan_string(s: Seq<char>, i: int) -> Scanned<Seq<char>> {
    string_tail(s, i, Seq::empty())
}

/// The token that starts at `i`, which is a position inside the text. A
/// character that starts no token is a fault at that character.
pub open spec fn scan_token(s: Seq<char>, i: int) -> Scanned<TokenView> {
    let c = s[i];
    if punctuation(c) is Some {
        Scanned::Done { value: punctuation(c)->0, end: i + 1 }
    } else if c == '"' {
        match scan_string(s, i + 1) {
            Scanned::Done { value, end } => Scanned::Done { value: TokenView::String(value), end },
            Scanned::Fault { error, at } => Scanned::Fault { error, at },
        }
    } else if in_class(CharClass::Space, c) {
        Scanned::Done { value: TokenView::Spaces, end: run_end(s, i + 1, CharClass::Space) }
    } else if in_class(CharClass::Newline, c) {
        Scanned::Done { value: TokenView::Newlines, end: run_end(s, i + 1, CharClass::Newline) }
    } else if is_ascii_digit(c) {
        match scan_number(s, i) {
            Scanned::Done { value, end } => Scanned::Done { value: TokenView::Number(value), end },
            Scanned::Fault { error, at } => Scanned::Fault { error, at },
        }
    } else if starts_ident(c) {
        let end = ident_end(s, i);
        Scanned::Done { value: TokenView::Ident(s.subrange(i, end)), end }
    } else {
        Scanned::Fault { error: LexError::UnexpectedChar, at: i }
    }
}

/// The end of a number lies after its first digit and inside the text, and
/// so does a second dot.
pub proof fn lemma_number_tail_bounds(s: Seq<char>, i: int, dotted: bool)
    requires
        0 <= i <= s.len(),
    ensures
        match number_tail(s, i, dotted) {
            Ok((end, _)) => i <= end <= s.len(),
            Err(at) => i <= at < s.len(),
        },
    decreases s.len() - i,
{
    if i < s.len() && s[i] == '.' {
        if !dotted {
            lemma_number_tail_bounds(s, i + 1, true);
        }
    } else if i < s.len() && in_class(CharClass::Digit, s[i]) {
        lemma_number_tail_bounds(s, i + 1, dotted);
    }
}

/// A string literal ends after where it starts, and a faulty one has its
/// fault after where it starts too, or at the end of the text.
pub proof fn lemma_string_tail_bounds(s: Seq<char>, i: int, text: Seq<char>)
    requires
        0 <= i <= s.len(),
    ensures
        match string_tail(s, i, text) {
            Scanned::Done { end, .. } => i < end <= s.len(),
            Scanned::Fault { at, .. } => i <= at <= s.len() && (i < s.len() ==> i < at),
        },
    decreases s.len() - i,
{
    if i < s.len() && s[i] != '"' {
        if s[i] == '\\' {
            lemma_escape_bounds(s, i + 1);
            match scan_escape(s, i + 1) {
                Scanned::Done { value, end } => {
                    lemma_string_tail_bounds(s, end, text.push(value));
                },
                Scanned::Fault { .. } => {},
            }
        } else {
            lemma_string_tail_bounds(s, i + 1, text.push(s[i]));
        }
    }
}

/// A token ends after where it starts, and a fault lies at or after it.
pub proof fn lemma_token_bounds(s: Seq<char>, i: int)
    requires
        0 <= i < s.len(),
    ensures
        match scan_token(s, i) {
            Scanned::Done { end, .. } => i < end <= s.len(),
            Scanned::Fault { at, .. } => i <= at <= s.len(),
        },
{
    lemma_string_tail_bounds(s, i + 1, Seq::empty());
    lemma_run_end_bounds(s, i + 1, CharClass::Space);
    lemma_run_end_bounds(s, i + 1, CharClass::Newline);
    lemma_run_end_bounds(s, i + 1, CharClass::IdentPart);
    lemma_number_tail_bounds(s, i + 1, false);
}

/// The tokens of the text from `i` on, in their order, or the first fault:
/// after a fault nothing more is scanned, and no token is kept.
pub open spec fn scan_tokens(s: Seq<char>, i: int) -> Scanned<Seq<TokenView>>
    decreases s.len() - i,
{
    if !(0 <= i < s.len()) {
        Scanned::Done { value: Seq::empty(), end: i }
    } else {
        match scan_token(s, i) {
            Scanned::Done { value, end } => {
                proof {
                    lemma_token_bounds(s, i);
                }
                match scan_tokens(s, end) {
                    Scanned::Done { value: rest, end: last } => Scanned::Done {
                        value: seq![value] + rest,
                        end: last,
                    },
                    Scanned::Fault { error, at } => Scanned::Fault { error, at },
                }
            },
            Scanned::Fault { error, at } => Scanned::Fault { error, at },
        }
    }
}

/// Scanning a whole text either reads it to its end or stops at a fault
/// that lies in it or at its end.
pub proof fn lemma_scan_reaches_the_end(s: Seq<char>, i: int)
    requires
        0 <= i <= s.len(),
    ensures
        match scan_tokens(s, i) {
            Scanned::Done { end, .. } => end == s.len(),
            Scanned::Fault { at, .. } => i <= at <= s.len(),
        },
    decreases s.len() - i,
{
    if i < s.len() {
        lemma_token_bounds(s, i);
        match scan_token(s, i) {
            Scanned::Done { end, .. } => {
                lemma_scan_reaches_the_end(s, end);
            },
            Scanned::Fault { .. } => {},
        }
    }
}

} // verus!
