//! The tokenizer: one pass over a text, from left to right, that gives its
//! tokens or stops at the first fault.
use crate::error::{LexError, NumberError, SpannedError, StringError, UnicodeEscapeError};
use crate::grammar::{
    hex_digit_value, hex_value, ident_end, in_class, is_ascii_digit, is_ascii_letter,
    lemma_escape_bounds, lemma_number_tail_bounds, lemma_run_end_bounds,
    lemma_scan_reaches_the_end, lemma_string_tail_bounds, lemma_token_bounds,
    lemma_unicode_escape_bounds, number_tail,
    punctuation, reportable, run_end, scan_escape, scan_number, scan_string, scan_token,
    scan_tokens, scan_unicode_escape, string_tail, CharClass, NumberView, Scanned, TokenView,
};
use crate::util::{lemma_prefix_representable, representable, PeekableWithPoint};
use vstd::prelude::*;

verus! {

/// Whether a bracket opens or closes.
#[derive(Debug, Clone, Copy, PartialEq, Eq, PartialOrd, Ord)]
pub enum ParenStatus {
    Open,
    Closed,
}

/// The side to which an angle points.
#[derive(Debug, Clone, Copy, PartialEq, Eq, PartialOrd, Ord)]
pub enum ParenSide {
    Left,
    Right,
}

/// A token. Numbers and identifiers borrow their characters from the text;
/// a string holds what the literal says, escapes resolved.
#[derive(Debug, Clone, PartialEq, PartialOrd)]
pub enum LexToken<'a> {
    Slash,
    Spaces,
    Newlines,
    Minus,
    Plus,
    Equal,
    Semicolon,
    Colon,
    Comma,
    Dot,
    At,
    Number(NumberToken<'a>),
    String(String),
    Ident(&'a str),
    Bracket(ParenStatus),
    Brace(ParenStatus),
    Comparison(ParenSide),
}

/// A number, as it is written: with a dot or without one.
#[derive(Debug, Clone, Copy, PartialEq, PartialOrd)]
pub enum NumberToken<'a> {
    Decimal(&'a str),
    Integer(&'a str),
}

impl<'a> View for NumberToken<'a> {
    type V = NumberView;

    open spec fn view(&self) -> NumberView {
        match self {
            NumberToken::Decimal(text) => NumberView::Decimal(text@),
            NumberToken::Integer(text) => NumberView::Integer(text@),
        }
    }
}

impl<'a> View for LexToken<'a> {
    type V = TokenView;

    open spec fn view(&self) -> TokenView {
        match self {
            LexToken::Slash => TokenView::Slash,
            LexToken::Spaces => TokenView::Spaces,
            LexToken::Newlines => TokenView::Newlines,
            LexToken::Minus => TokenView::Minus,
            LexToken::Plus => TokenView::Plus,
            LexToken::Equal => TokenView::Equal,
            LexToken::Semicolon => TokenView::Semicolon,
            LexToken::Colon => TokenView::Colon,
            LexToken::Comma => TokenView::Comma,
            LexToken::Dot => TokenView::Dot,
            LexToken::At => TokenView::At,
            LexToken::Number(number) => TokenView::Number(number@),
            LexToken::String(text) => TokenView::String(text@),
            LexToken::Ident(text) => TokenView::Ident(text@),
            LexToken::Bracket(status) => TokenView::Bracket(*status),
            LexToken::Brace(status) => TokenView::Brace(*status),
            LexToken::Comparison(side) => TokenView::Comparison(*side),
        }
    }
}

/// The tokens of `v` as the rules see them.
pub open spec fn token_views<'a>(v: Seq<LexToken<'a>>) -> Seq<TokenView> {
    v.map_values(|t: LexToken<'a>| t@)
}

/// Whether `e` is the fault `error` raised at the character position `at`
/// of the text `s`.
pub open spec fn raised_at(
    e: SpannedError<LexError>,
    s: Seq<char>,
    error: LexError,
    at: int,
) -> bool {
    e.error == error && e.at.is_after(s.take(at))
}

fn is_letter(c: char) -> (b: bool)
    ensures
        b == is_ascii_letter(c),
{
    ('a' <= c && c <= 'z') || ('A' <= c && c <= 'Z')
}

fn is_digit(c: char) -> (b: bool)
    ensures
        b == is_ascii_digit(c),
{
    '0' <= c && c <= '9'
}

fn class_has(class: CharClass, c: char) -> (b: bool)
    ensures
        b == in_class(class, c),
{
    match class {
        CharClass::Space => c == ' ' || c == '\t',
        CharClass::Newline => c == '\r' || c == '\n',
        CharClass::IdentPart => if c <= '\x7f' {
            c == '_' || is_letter(c) || is_digit(c)
        } else {
            c.is_alphanumeric()
        },
        CharClass::Digit => if c <= '\x7f' {
            is_digit(c)
        } else {
            c.is_numeric()
        },
        CharClass::HexDigit => is_digit(c) || ('a' <= c && c <= 'f') || ('A' <= c && c <= 'F'),
    }
}

/// The character that comes next, which stays unread.
fn ahead(chars: &PeekableWithPoint) -> (r: Option<char>)
    requires
        chars.wf(),
    ensures
        chars.remaining().len() == 0 <==> r is None,
        r matches Some(c) ==> c == chars.source()[chars.position()],
{
    match chars.peek() {
        Some(c) => Some(*c),
        None => None,
    }
}

/// The fault `error` at the position that the cursor has reached.
fn fault<T>(chars: &PeekableWithPoint, error: LexError) -> (r: Result<T, SpannedError<LexError>>)
    requires
        chars.wf(),
        representable(chars.consumed()),
    ensures
        r matches Err(e) && raised_at(e, chars.source(), error, chars.position()),
{
    Err(chars.as_spanned_error(error))
}

/// Reads on to the end of the run of `class` that starts at the cursor.
fn skip_run(chars: &mut PeekableWithPoint, class: CharClass)
    requires
        old(chars).wf(),
        run_end(old(chars).source(), old(chars).position(), class) <= u32::MAX,
    ensures
        final(chars).wf(),
        final(chars).source() == old(chars).source(),
        final(chars).position() == run_end(old(chars).source(), old(chars).position(), class),
{
    let ghost s = chars.source();
    let ghost end = run_end(s, chars.position(), class);
    loop
        invariant
            chars.wf(),
            chars.source() == s,
            s == old(chars).source(),
            end == run_end(s, old(chars).position(), class),
            end == run_end(s, chars.position(), class),
            end <= u32::MAX,
        ensures
            chars.wf(),
            chars.source() == s,
            chars.position() == end,
        decreases s.len() - chars.position(),
    {
        match ahead(chars) {
            Some(c) => {
                if !class_has(class, c) {
                    break ;
                }
            },
            None => {
                break ;
            },
        }
        proof {
            lemma_run_end_bounds(s, chars.position() + 1, class);
        }
        chars.next();
    }
}

/// Reads an identifier whose first character was read just before.
///
/// The identifier runs on over letters, digits and underscores, and is
/// handed out as the part of the text that it covers, first character
/// included. Its characters must be countable in a `u32`.
pub fn tokenize_ident<'a>(chars: &mut PeekableWithPoint<'a>) -> (r: Result<
    &'a str,
    SpannedError<LexError>,
>)
    requires
        old(chars).wf(),
        old(chars).position() >= 1,
        ident_end(old(chars).source(), old(chars).position() - 1) <= u32::MAX,
    ensures
        final(chars).wf(),
        final(chars).source() == old(chars).source(),
        final(chars).position() == ident_end(old(chars).source(), old(chars).position() - 1),
        r matches Ok(text) && text@ == old(chars).source().subrange(
            old(chars).position() - 1,
            final(chars).position(),
        ),
{
    let start = chars.index() - 1;
    let start_byte = chars.previous_offset();
    skip_run(chars, CharClass::IdentPart);
    proof {
        lemma_run_end_bounds(old(chars).source(), old(chars).position(), CharClass::IdentPart);
    }
    Ok(chars.text_since(start, start_byte))
}

/// Reads a number whose first digit was read just before.
///
/// The number runs on over digits and at most one dot, and is handed out as
/// the part of the text that it covers, first digit included. A second dot
/// is a fault, raised at that dot.
pub fn tokenize_number<'a>(chars: &mut PeekableWithPoint<'a>) -> (r: Result<
    NumberToken<'a>,
    SpannedError<LexError>,
>)
    requires
        old(chars).wf(),
        old(chars).position() >= 1,
        reportable(
            old(chars).source(),
            scan_number(old(chars).source(), old(chars).position() - 1),
        ),
    ensures
        final(chars).wf(),
        final(chars).source() == old(chars).source(),
        match scan_number(old(chars).source(), old(chars).position() - 1) {
            Scanned::Done { value, end } => {
                &&& r matches Ok(number)
                &&& number@ == value
                &&& final(chars).position() == end
            },
            Scanned::Fault { error, at } => {
                &&& r matches Err(e)
                &&& raised_at(e, old(chars).source(), error, at)
                &&& final(chars).position() == at
            },
        },
{
    let start = chars.index() - 1;
    let start_byte = chars.previous_offset();
    let ghost s = chars.source();
    let ghost tail = number_tail(s, chars.position(), false);
    let mut dotted = false;
    loop
        invariant
            chars.wf(),
            chars.source() == s,
            s == old(chars).source(),
            old(chars).position() <= chars.position(),
            tail == number_tail(s, old(chars).position(), false),
            tail == number_tail(s, chars.position(), dotted),
            reportable(s, scan_number(s, old(chars).position() - 1)),
        ensures
            chars.wf(),
            chars.source() == s,
            old(chars).position() <= chars.position(),
            tail == Ok::<(int, bool), int>((chars.position(), dotted)),
        decreases s.len() - chars.position(),
    {
        match ahead(chars) {
            Some(c) => {
                if c == '.' {
                    if dotted {
                        return fault(chars, LexError::Number(NumberError::TooManyDots));
                    }
                    dotted = true;
                } else if !class_has(CharClass::Digit, c) {
                    break ;
                }
            },
            None => {
                break ;
            },
        }
        proof {
            lemma_number_tail_bounds(s, chars.position() + 1, dotted);
        }
        chars.next();
    }
    let text = chars.text_since(start, start_byte);
    Ok(
        if dotted {
            NumberToken::Decimal(text)
        } else {
            NumberToken::Integer(text)
        },
    )
}

/// While the digits of a Unicode escape are read, this number stands for
/// itself and for every larger one. It lies past the last code point.
const HEX_LIMIT: u32 = 0x11_0000;

/// The value of the hexadecimal digit `c`.
fn hex_digit(c: char) -> (d: u32)
    requires
        in_class(CharClass::HexDigit, c),
    ensures
        d == hex_digit_value(c),
        d < 16,
{
    if is_digit(c) {
        c as u32 - '0' as u32
    } else if 'a' <= c && c <= 'f' {
        c as u32 - 'a' as u32 + 10
    } else {
        c as u32 - 'A' as u32 + 10
    }
}

/// Reads the rest of a Unicode escape, of which `\u` was read just before:
/// an opening brace, the hexadecimal digits of a code point and a closing
/// brace.
fn tokenize_unicode_escape(chars: &mut PeekableWithPoint) -> (r: Result<
    char,
    SpannedError<LexError>,
>)
    requires
        old(chars).wf(),
        reportable(
            old(chars).source(),
            scan_unicode_escape(old(chars).source(), old(chars).position()),
        ),
    ensures
        final(chars).wf(),
        final(chars).source() == old(chars).source(),
        match scan_unicode_escape(old(chars).source(), old(chars).position()) {
            Scanned::Done { value, end } => {
                &&& r == Ok::<char, SpannedError<LexError>>(value)
                &&& final(chars).position() == end
            },
            Scanned::Fault { error, at } => {
                &&& r matches Err(e)
                &&& raised_at(e, old(chars).source(), error, at)
                &&& final(chars).position() == at
            },
        },
{
    let ghost s = chars.source();
    let ghost outcome = scan_unicode_escape(s, chars.position());
    match ahead(chars) {
        Some('{') => {
            proof {
                lemma_run_end_bounds(s, chars.position() + 1, CharClass::HexDigit);
            }
            chars.next();
        },
        _ => {
            return fault(
                chars,
                LexError::String(StringError::UnicodeEscape(UnicodeEscapeError::MissingOpeningBrace)),
            );
        },
    }
    let ghost first = chars.position();
    let ghost last = run_end(s, first, CharClass::HexDigit);
    assert(s.subrange(first, first) =~= Seq::<char>::empty());
    let mut value: u32 = 0;
    let mut any = false;
    loop
        invariant
            chars.wf(),
            chars.source() == s,
            0 <= first <= chars.position() <= s.len(),
            last == run_end(s, first, CharClass::HexDigit),
            last == run_end(s, chars.position(), CharClass::HexDigit),
            last <= u32::MAX,
            any == (chars.position() > first),
            value <= HEX_LIMIT,
            value < HEX_LIMIT ==> value == hex_value(s.subrange(first, chars.position())),
            value == HEX_LIMIT ==> hex_value(s.subrange(first, chars.position())) >= HEX_LIMIT,
        ensures
            chars.wf(),
            chars.source() == s,
            chars.position() == last,
            first <= chars.position() <= s.len(),
            any == (chars.position() > first),
            value <= HEX_LIMIT,
            value < HEX_LIMIT ==> value == hex_value(s.subrange(first, chars.position())),
            value == HEX_LIMIT ==> hex_value(s.subrange(first, chars.position())) >= HEX_LIMIT,
        decreases s.len() - chars.position(),
    {
        let c = match ahead(chars) {
            Some(c) => c,
            None => {
                break ;
            },
        };
        if !class_has(CharClass::HexDigit, c) {
            break ;
        }
        let digit = hex_digit(c);
        proof {
            let longer = s.subrange(first, chars.position() + 1);
            assert(longer.drop_last() =~= s.subrange(first, chars.position()));
            assert(longer.last() == c);
            lemma_run_end_bounds(s, chars.position() + 1, CharClass::HexDigit);
        }
        value = if value >= HEX_LIMIT / 16 {
            HEX_LIMIT
        } else {
            value * 16 + digit
        };
        any = true;
        chars.next();
    }
    let invalid = LexError::String(StringError::UnicodeEscape(UnicodeEscapeError::InvalidHex));
    match ahead(chars) {
        Some('}') => {
            if !any {
                return fault(chars, invalid);
            }
            match char::from_u32(value) {
                Some(c) => {
                    chars.next();
                    Ok(c)
                },
                None => fault(chars, invalid),
            }
        },
        Some('"') => fault(
            chars,
            LexError::String(StringError::UnicodeEscape(UnicodeEscapeError::MissingClosingBrace)),
        ),
        _ => fault(chars, invalid),
    }
}

/// Reads what follows a backslash in a string literal and gives the
/// character that the escape stands for.
fn tokenize_escape(chars: &mut PeekableWithPoint) -> (r: Result<char, SpannedError<LexError>>)
    requires
        old(chars).wf(),
        reportable(old(chars).source(), scan_escape(old(chars).source(), old(chars).position())),
    ensures
        final(chars).wf(),
        final(chars).source() == old(chars).source(),
        match scan_escape(old(chars).source(), old(chars).position()) {
            Scanned::Done { value, end } => {
                &&& r == Ok::<char, SpannedError<LexError>>(value)
                &&& final(chars).position() == end
            },
            Scanned::Fault { error, at } => {
                &&& r matches Err(e)
                &&& raised_at(e, old(chars).source(), error, at)
                &&& final(chars).position() == at
            },
        },
{
    let c = match ahead(chars) {
        Some(c) => c,
        None => {
            return fault(chars, LexError::UnexpectedEof);
        },
    };
    let value = if c == 'n' {
        '\n'
    } else if c == 't' {
        '\t'
    } else if c == 'r' {
        '\r'
    } else if c == '0' {
        '\0'
    } else if c == '"' {
        '"'
    } else if c == '\'' {
        '\''
    } else if c == '\\' {
        '\\'
    } else if c == 'u' {
        proof {
            lemma_unicode_escape_bounds(chars.source(), chars.position() + 1);
        }
        chars.next();
        return tokenize_unicode_escape(chars);
    } else {
        return fault(chars, LexError::String(StringError::UnknownEscape(c)));
    };
    chars.next();
    Ok(value)
}

/// Reads a string literal whose opening quote was read just before, up to
/// and with its closing quote.
///
/// The result is what the literal says: its characters, with each escape
/// replaced by the character that it stands for.
pub fn tokenize_string(chars: &mut PeekableWithPoint) -> (r: Result<
    String,
    SpannedError<LexError>,
>)
    requires
        old(chars).wf(),
        reportable(old(chars).source(), scan_string(old(chars).source(), old(chars).position())),
    ensures
        final(chars).wf(),
        final(chars).source() == old(chars).source(),
        match scan_string(old(chars).source(), old(chars).position()) {
            Scanned::Done { value, end } => {
                &&& r matches Ok(text)
                &&& text@ == value
                &&& final(chars).position() == end
            },
            Scanned::Fault { error, at } => {
                &&& r matches Err(e)
                &&& raised_at(e, old(chars).source(), error, at)
                &&& final(chars).position() == at
            },
        },
{
    let ghost s = chars.source();
    let ghost outcome = scan_string(s, chars.position());
    let mut text = String::new();
    loop
        invariant
            chars.wf(),
            chars.source() == s,
            s == old(chars).source(),
            outcome == scan_string(s, old(chars).position()),
            outcome == string_tail(s, chars.position(), text@),
            reportable(s, outcome),
        decreases s.len() - chars.position(),
    {
        let c = match ahead(chars) {
            Some(c) => c,
            None => {
                return fault(chars, LexError::String(StringError::UnterminatedStringLiteral));
            },
        };
        proof {
            lemma_string_tail_bounds(s, chars.position(), text@);
        }
        chars.next();
        if c == '"' {
            return Ok(text);
        } else if c == '\\' {
            proof {
                lemma_escape_bounds(s, chars.position());
                match scan_escape(s, chars.position()) {
                    Scanned::Done { value, end } => {
                        lemma_string_tail_bounds(s, end, text@.push(value));
                    },
                    Scanned::Fault { .. } => {},
                }
            }
            match tokenize_escape(chars) {
                Ok(value) => {
                    text.push(value);
                },
                Err(e) => {
                    return Err(e);
                },
            }
        } else {
            text.push(c);
        }
    }
}

/// The token that the character `c` is by itself, if it is one.
fn punctuation_token<'a>(c: char) -> (r: Option<LexToken<'a>>)
    ensures
        match punctuation(c) {
            Some(view) => r matches Some(token) && token@ == view,
            None => r is None,
        },
{
    if c == '/' {
        Some(LexToken::Slash)
    } else if c == ';' {
        Some(LexToken::Semicolon)
    } else if c == ':' {
        Some(LexToken::Colon)
    } else if c == ',' {
        Some(LexToken::Comma)
    } else if c == '.' {
        Some(LexToken::Dot)
    } else if c == '@' {
        Some(LexToken::At)
    } else if c == '=' {
        Some(LexToken::Equal)
    } else if c == '+' {
        Some(LexToken::Plus)
    } else if c == '-' {
        Some(LexToken::Minus)
    } else if c == '<' {
        Some(LexToken::Comparison(ParenSide::Left))
    } else if c == '>' {
        Some(LexToken::Comparison(ParenSide::Right))
    } else if c == '{' {
        Some(LexToken::Brace(ParenStatus::Open))
    } else if c == '}' {
        Some(LexToken::Brace(ParenStatus::Closed))
    } else if c == '[' {
        Some(LexToken::Bracket(ParenStatus::Open))
    } else if c == ']' {
        Some(LexToken::Bracket(ParenStatus::Closed))
    } else {
        None
    }
}

/// Reads the token that starts at the cursor. There must be a character
/// left to read.
fn tokenize_one<'a>(chars: &mut PeekableWithPoint<'a>) -> (r: Result<
    LexToken<'a>,
    SpannedError<LexError>,
>)
    requires
        old(chars).wf(),
        old(chars).remaining().len() > 0,
        reportable(old(chars).source(), scan_token(old(chars).source(), old(chars).position())),
    ensures
        final(chars).wf(),
        final(chars).source() == old(chars).source(),
        match scan_token(old(chars).source(), old(chars).position()) {
            Scanned::Done { value, end } => {
                &&& r matches Ok(token)
                &&& token@ == value
                &&& final(chars).position() == end
            },
            Scanned::Fault { error, at } => {
                &&& r matches Err(e)
                &&& raised_at(e, old(chars).source(), error, at)
                &&& final(chars).position() == at
            },
        },
{
    let c = match ahead(chars) {
        Some(c) => c,
        None => vstd::pervasive::unreached(),
    };
    let ghost s = chars.source();
    let ghost start = chars.position();
    proof {
        lemma_string_tail_bounds(s, start + 1, Seq::empty());
        lemma_run_end_bounds(s, start + 1, CharClass::Space);
        lemma_run_end_bounds(s, start + 1, CharClass::Newline);
        lemma_run_end_bounds(s, start + 1, CharClass::IdentPart);
        lemma_number_tail_bounds(s, start + 1, false);
    }
    if let Some(token) = punctuation_token(c) {
        chars.next();
        Ok(token)
    } else if c == '"' {
        chars.next();
        match tokenize_string(chars) {
            Ok(text) => Ok(LexToken::String(text)),
            Err(e) => Err(e),
        }
    } else if class_has(CharClass::Space, c) {
        chars.next();
        skip_run(chars, CharClass::Space);
        Ok(LexToken::Spaces)
    } else if class_has(CharClass::Newline, c) {
        chars.next();
        skip_run(chars, CharClass::Newline);
        Ok(LexToken::Newlines)
    } else if is_digit(c) {
        chars.next();
        match tokenize_number(chars) {
            Ok(number) => Ok(LexToken::Number(number)),
            Err(e) => Err(e),
        }
    } else if c == '_' || is_letter(c) {
        chars.next();
        match tokenize_ident(chars) {
            Ok(text) => Ok(LexToken::Ident(text)),
            Err(e) => Err(e),
        }
    } else {
        fault(chars, LexError::UnexpectedChar)
    }
}

/// `done`, followed by what `rest` gives.
spec fn after(done: Seq<TokenView>, rest: Scanned<Seq<TokenView>>) -> Scanned<Seq<TokenView>> {
    match rest {
        Scanned::Done { value, end } => Scanned::Done { value: done + value, end },
        Scanned::Fault { error, at } => Scanned::Fault { error, at },
    }
}

/// Whether `r` is what a caller is owed where the rules give `expected`
/// for the text `s`: the tokens in their order, `None` where there are
/// none, or the fault with its position.
pub open spec fn tokenized<'a>(
    r: Result<Option<Vec<LexToken<'a>>>, SpannedError<LexError>>,
    s: Seq<char>,
    expected: Scanned<Seq<TokenView>>,
) -> bool {
    match expected {
        Scanned::Done { value, .. } => if value.len() == 0 {
            r matches Ok(None)
        } else {
            r matches Ok(Some(tokens)) && token_views(tokens@) == value
        },
        Scanned::Fault { error, at } => r matches Err(e) && raised_at(e, s, error, at),
    }
}

/// Reads the rest of the text and gives its tokens in their order, or the
/// first fault with its position. A text without tokens gives `None`.
///
/// On success the cursor stands at the end of the text. On a fault it
/// stands at the character that is at fault, and no token is handed out.
///
/// The scan must be within reach of the machine's integers: see
/// `reportable`. It is for every cursor that `is_scannable` accepts.
pub fn tokenize<'a>(chars: &mut PeekableWithPoint<'a>) -> (r: Result<
    Option<Vec<LexToken<'a>>>,
    SpannedError<LexError>,
>)
    requires
        old(chars).wf(),
        reportable(old(chars).source(), scan_tokens(old(chars).source(), old(chars).position())),
    ensures
        final(chars).wf(),
        final(chars).source() == old(chars).source(),
        final(chars).position() == scan_tokens(
            old(chars).source(),
            old(chars).position(),
        ).stop(),
        tokenized(
            r,
            old(chars).source(),
            scan_tokens(old(chars).source(), old(chars).position()),
        ),
{
    let mut tokens: Vec<LexToken<'a>> = Vec::new();
    let ghost s = chars.source();
    let ghost whole = scan_tokens(s, chars.position());
    assert(token_views(tokens@) =~= Seq::<TokenView>::empty());
    assert(after(token_views(tokens@), whole) == whole) by {
        match whole {
            Scanned::Done { value, end } => {
                assert(Seq::<TokenView>::empty() + value =~= value);
            },
            Scanned::Fault { .. } => {},
        }
    }
    while ahead(chars).is_some()
        invariant
            chars.wf(),
            chars.source() == s,
            s == old(chars).source(),
            whole == scan_tokens(s, old(chars).position()),
            after(token_views(tokens@), scan_tokens(s, chars.position())) == whole,
            reportable(s, whole),
        decreases s.len() - chars.position(),
    {
        let ghost done = token_views(tokens@);
        let ghost start = chars.position();
        proof {
            lemma_token_bounds(s, start);
            match scan_token(s, start) {
                Scanned::Done { end, .. } => {
                    lemma_scan_reaches_the_end(s, end);
                },
                Scanned::Fault { .. } => {},
            }
        }
        match tokenize_one(chars) {
            Ok(token) => {
                tokens.push(token);
                proof {
                    let next = scan_tokens(s, chars.position());
                    assert(token_views(tokens@) =~= done.push(token@));
                    match next {
                        Scanned::Done { value, end } => {
                            assert(done.push(token@) + value =~= done + (seq![token@] + value));
                        },
                        Scanned::Fault { .. } => {},
                    }
                }
            },
            Err(e) => {
                return Err(e);
            },
        }
    }
    proof {
        assert(token_views(tokens@) + Seq::<TokenView>::empty() =~= token_views(tokens@));
    }
    if tokens.len() < 1 {
        return Ok(None);
    }
    Ok(Some(tokens))
}

/// A cursor that is scannable is within reach of every scanner, wherever
/// the scan may stop.
pub proof fn lemma_scannable_suffices(chars: &PeekableWithPoint)
    requires
        chars.scannable(),
    ensures
        reportable(chars.source(), scan_tokens(chars.source(), chars.position())),
        reportable(chars.source(), scan_string(chars.source(), chars.position())),
        chars.position() >= 1 ==> reportable(
            chars.source(),
            scan_number(chars.source(), chars.position() - 1),
        ),
        chars.position() >= 1 ==> ident_end(chars.source(), chars.position() - 1) <= u32::MAX,
{
    let s = chars.source();
    let at = chars.position();
    lemma_scan_reaches_the_end(s, at);
    lemma_string_tail_bounds(s, at, Seq::empty());
    lemma_number_tail_bounds(s, at, false);
    lemma_run_end_bounds(s, at, CharClass::IdentPart);
    lemma_prefix_representable(s, scan_tokens(s, at).stop());
    lemma_prefix_representable(s, scan_string(s, at).stop());
    if at >= 1 {
        lemma_prefix_representable(s, scan_number(s, at - 1).stop());
    }
}

} // verus!
