//! The faults that the tokenizer reports, and how they are put into words.
use crate::util::PointInfo;
use vstd::prelude::*;
use vstd::string::StringExecFns;

verus! {

/// A fault in a `\u{...}` escape.
#[derive(Debug, Clone, Copy, PartialEq, Eq)]
pub enum UnicodeEscapeError {
    MissingOpeningBrace,
    MissingClosingBrace,
    InvalidHex,
}

/// A fault in a string literal.
#[derive(Debug, Clone, Copy, PartialEq, Eq)]
pub enum StringError {
    UnterminatedStringLiteral,
    UnknownEscape(char),
    UnicodeEscape(UnicodeEscapeError),
}

/// A fault in a number.
#[derive(Debug, Clone, Copy, PartialEq, Eq)]
pub enum NumberError {
    TooManyDots,
}

/// Faults of the machine rather than of the text. The tokenizer never
/// raises one: a text whose positions do not fit the machine's integers is
/// not accepted for scanning in the first place.
#[derive(Debug, Clone, Copy, PartialEq, Eq)]
pub enum RuntimeError {
    FailedConvertingToIndependentBits,
}

/// Any fault that stops the tokenizer.
#[derive(Debug, Clone, Copy, PartialEq, Eq)]
pub enum LexError {
    String(StringError),
    Number(NumberError),
    UnexpectedEof,
    UnexpectedChar,
    Runtime(RuntimeError),
}

impl From<UnicodeEscapeError> for StringError {
    fn from(inner: UnicodeEscapeError) -> (r: Self) {
        StringError::UnicodeEscape(inner)
    }
}

impl vstd::std_specs::convert::FromSpecImpl<UnicodeEscapeError> for StringError {
    open spec fn obeys_from_spec() -> bool {
        true
    }

    open spec fn from_spec(inner: UnicodeEscapeError) -> Self {
        StringError::UnicodeEscape(inner)
    }
}

impl From<RuntimeError> for LexError {
    fn from(inner: RuntimeError) -> (r: Self) {
        LexError::Runtime(inner)
    }
}

impl vstd::std_specs::convert::FromSpecImpl<RuntimeError> for LexError {
    open spec fn obeys_from_spec() -> bool {
        true
    }

    open spec fn from_spec(inner: RuntimeError) -> Self {
        LexError::Runtime(inner)
    }
}

/// An error with the position at which it was raised.
#[derive(Debug, Clone, PartialEq, Eq)]
pub struct SpannedError<E> {
    pub error: E,
    pub at: PointInfo,
}

impl<E> SpannedError<E> {
    /// `error`, raised at `at`.
    pub fn new(error: E, at: PointInfo) -> (r: Self)
        ensures
            r.error == error,
            r.at == at,
    {
        Self { error, at }
    }
}

/// The views of a sequence of strings.
pub open spec fn texts(v: Seq<String>) -> Seq<Seq<char>> {
    v.map_values(|s: String| s@)
}

/// An error that can say what went wrong and what caused it.
pub trait Diagnostic {
    /// The error's own message.
    spec fn message_text(&self) -> Seq<char>;

    /// The messages of the errors that led to this one, nearest first.
    spec fn cause_texts(&self) -> Seq<Seq<char>>;

    /// The error's own message.
    fn message(&self) -> (r: String)
        ensures
            r@ == self.message_text(),
    ;

    /// The messages of the errors that led to this one, nearest first.
    fn causes(&self) -> (r: Vec<String>)
        ensures
            texts(r@) == self.cause_texts(),
    ;
}

impl Diagnostic for UnicodeEscapeError {
    open spec fn message_text(&self) -> Seq<char> {
        match self {
            UnicodeEscapeError::MissingOpeningBrace => "Missing opening '{' in Unicode escape"@,
            UnicodeEscapeError::MissingClosingBrace => "Missing closing '}' in Unicode escape"@,
            UnicodeEscapeError::InvalidHex => "Invalid hex digits in Unicode escape"@,
        }
    }

    open spec fn cause_texts(&self) -> Seq<Seq<char>> {
        Seq::empty()
    }

    fn message(&self) -> (r: String) {
        match self {
            UnicodeEscapeError::MissingOpeningBrace => String::from_str(
                "Missing opening '{' in Unicode escape",
            ),
            UnicodeEscapeError::MissingClosingBrace => String::from_str(
                "Missing closing '}' in Unicode escape",
            ),
            UnicodeEscapeError::InvalidHex => String::from_str(
                "Invalid hex digits in Unicode escape",
            ),
        }
    }

    fn causes(&self) -> (r: Vec<String>) {
        let r: Vec<String> = Vec::new();
        assert(texts(r@) =~= Seq::<Seq<char>>::empty());
        r
    }
}

impl Diagnostic for NumberError {
    open spec fn message_text(&self) -> Seq<char> {
        "Too many dots for number"@
    }

    open spec fn cause_texts(&self) -> Seq<Seq<char>> {
        Seq::empty()
    }

    fn message(&self) -> (r: String) {
        String::from_str("Too many dots for number")
    }

    fn causes(&self) -> (r: Vec<String>) {
        let r: Vec<String> = Vec::new();
        assert(texts(r@) =~= Seq::<Seq<char>>::empty());
        r
    }
}

impl Diagnostic for RuntimeError {
    open spec fn message_text(&self) -> Seq<char> {
        "A count does not fit the platform's integers"@
    }

    open spec fn cause_texts(&self) -> Seq<Seq<char>> {
        Seq::empty()
    }

    fn message(&self) -> (r: String) {
        String::from_str("A count does not fit the platform's integers")
    }

    fn causes(&self) -> (r: Vec<String>) {
        let r: Vec<String> = Vec::new();
        assert(texts(r@) =~= Seq::<Seq<char>>::empty());
        r
    }
}

impl Diagnostic for StringError {
    /// The message of a fault in a Unicode escape is that of the fault
    /// itself; the other two have a message of their own.
    open spec fn message_text(&self) -> Seq<char> {
        match self {
            StringError::UnterminatedStringLiteral => "Unterminated string literal"@,
            StringError::UnknownEscape(c) => "Unknown escape: \\"@.push(*c),
            StringError::UnicodeEscape(inner) => inner.message_text(),
        }
    }

    open spec fn cause_texts(&self) -> Seq<Seq<char>> {
        match self {
            StringError::UnicodeEscape(inner) => inner.cause_texts(),
            _ => Seq::empty(),
        }
    }

    fn message(&self) -> (r: String) {
        match self {
            StringError::UnterminatedStringLiteral => String::from_str(
                "Unterminated string literal",
            ),
            StringError::UnknownEscape(c) => {
                let mut r = String::from_str("Unknown escape: \\");
                r.push(*c);
                r
            },
            StringError::UnicodeEscape(inner) => inner.message(),
        }
    }

    fn causes(&self) -> (r: Vec<String>) {
        match self {
            StringError::UnicodeEscape(inner) => inner.causes(),
            _ => {
                let r: Vec<String> = Vec::new();
                assert(texts(r@) =~= Seq::<Seq<char>>::empty());
                r
            },
        }
    }
}

impl Diagnostic for LexError {
    /// A fault in a string or a number only points at its cause; a fault of
    /// the machine speaks for itself.
    open spec fn message_text(&self) -> Seq<char> {
        match self {
            LexError::String(_) => "An error occurred during lexing (see stack)"@,
            LexError::Number(_) => "An error occurred during lexing (see stack)"@,
            LexError::UnexpectedEof => "An error occurred during lexing: Unexpected End of content"@,
            LexError::UnexpectedChar => "An error occurred during lexing: Unexpected character"@,
            LexError::Runtime(inner) => inner.message_text(),
        }
    }

    open spec fn cause_texts(&self) -> Seq<Seq<char>> {
        match self {
            LexError::String(inner) => seq![inner.message_text()] + inner.cause_texts(),
            LexError::Number(inner) => seq![inner.message_text()] + inner.cause_texts(),
            LexError::UnexpectedEof => Seq::empty(),
            LexError::UnexpectedChar => Seq::empty(),
            LexError::Runtime(inner) => inner.cause_texts(),
        }
    }

    fn message(&self) -> (r: String) {
        match self {
            LexError::String(_) => String::from_str("An error occurred during lexing (see stack)"),
            LexError::Number(_) => String::from_str("An error occurred during lexing (see stack)"),
            LexError::UnexpectedEof => String::from_str(
                "An error occurred during lexing: Unexpected End of content",
            ),
            LexError::UnexpectedChar => String::from_str(
                "An error occurred during lexing: Unexpected character",
            ),
            LexError::Runtime(inner) => inner.message(),
        }
    }

    fn causes(&self) -> (r: Vec<String>) {
        match self {
            LexError::String(inner) => chain(inner.message(), inner.causes()),
            LexError::Number(inner) => chain(inner.message(), inner.causes()),
            LexError::Runtime(inner) => inner.causes(),
            _ => {
                let r: Vec<String> = Vec::new();
                assert(texts(r@) =~= Seq::<Seq<char>>::empty());
                r
            },
        }
    }
}

/// `first`, followed by the strings of `rest` in their order.
fn chain(first: String, rest: Vec<String>) -> (r: Vec<String>)
    ensures
        texts(r@) == seq![first@] + texts(rest@),
{
    let mut r: Vec<String> = Vec::new();
    r.push(first);
    let mut rest = rest;
    let ghost tail = rest@;
    r.append(&mut rest);
    assert(texts(r@) =~= seq![first@] + texts(tail));
    r
}

/// The decimal digit for `d`, where `d` is below ten.
pub open spec fn digit_char(d: nat) -> char {
    (48 + d) as u8 as char
}

/// `n` written in decimal, without leading zeros.
pub open spec fn decimal_text(n: nat) -> Seq<char>
    decreases n,
{
    if n < 10 {
        seq![digit_char(n)]
    } else {
        decimal_text(n / 10).push(digit_char(n % 10))
    }
}

/// One line for each cause, in their order.
pub open spec fn cause_lines(causes: Seq<Seq<char>>) -> Seq<char>
    decreases causes.len(),
{
    if causes.len() == 0 {
        Seq::empty()
    } else {
        cause_lines(causes.drop_last()) + "\n\u{2192} caused by: "@ + causes.last()
    }
}

/// Appends `n` in decimal to `out`.
fn push_decimal(out: &mut String, n: u32)
    ensures
        final(out)@ == old(out)@ + decimal_text(n as nat),
    decreases n,
{
    if n >= 10 {
        push_decimal(out, n / 10);
    }
    let digit: u8 = (n % 10) as u8;
    out.push((48u8 + digit) as char);
    assert(final(out)@ =~= old(out)@ + decimal_text(n as nat));
}

impl<E: Diagnostic> SpannedError<E> {
    /// The report of this error: its message, a line for each cause, and
    /// after an empty line the position.
    pub open spec fn render_text(&self) -> Seq<char> {
        self.error.message_text() + cause_lines(self.error.cause_texts()) + "\n\n[ at line "@
            + decimal_text(self.at.line as nat) + ", column "@ + decimal_text(
            self.at.column as nat,
        ) + " ]"@
    }

    /// The report of this error, as `render_text` lays it out.
    pub fn render(&self) -> (r: String)
        ensures
            r@ == self.render_text(),
    {
        let mut out = self.error.message();
        let causes = self.error.causes();
        let ghost head = out@;
        let ghost all = texts(causes@);
        let mut i: usize = 0;
        while i < causes.len()
            invariant
                i <= causes.len(),
                all == texts(causes@),
                out@ == head + cause_lines(all.take(i as int)),
            decreases causes.len() - i,
        {
            let ghost before = out@;
            out.append("\n\u{2192} caused by: ");
            out.append(causes[i].as_str());
            proof {
                let upto = all.take(i + 1);
                assert(upto.drop_last() =~= all.take(i as int));
                assert(upto.last() == causes@[i as int]@);
                assert(out@ =~= head + cause_lines(upto));
            }
            i += 1;
        }
        assert(all.take(i as int) =~= all);
        out.append("\n\n[ at line ");
        push_decimal(&mut out, self.at.line);
        out.append(", column ");
        push_decimal(&mut out, self.at.column);
        out.append(" ]");
        assert(out@ =~= self.render_text());
        out
    }
}

} // verus!
