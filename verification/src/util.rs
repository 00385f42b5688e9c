//! Source positions and the character cursor that the tokenizer reads from.
use crate::error::SpannedError;
use crate::text::{
    byte_len, char_at, char_len_utf8, lemma_byte_len_prefix, lemma_byte_len_step, slice_chars,
};
use core::num::TryFromIntError;
use vstd::prelude::*;
use vstd::std_specs::convert::TryIntoSpec;
use vstd::std_specs::iter::IteratorSpec;
use vstd::string::StringSliceAdditionalSpecFns;

verus! {

/// The number of columns a character occupies: four for a tab, one otherwise.
pub open spec fn char_width(c: char) -> nat {
    if c == '\t' {
        4
    } else {
        1
    }
}

/// The number of line feeds in `s`.
pub open spec fn newline_count(s: Seq<char>) -> nat
    decreases s.len(),
{
    if s.len() == 0 {
        0
    } else if s.last() == '\n' {
        newline_count(s.drop_last()) + 1
    } else {
        newline_count(s.drop_last())
    }
}

/// The 1-based line reached after the characters of `s` have been read.
pub open spec fn line_after(s: Seq<char>) -> nat {
    newline_count(s) + 1
}

/// The 0-based column reached after the characters of `s` have been read:
/// the summed widths of the characters that follow the last line feed.
pub open spec fn column_after(s: Seq<char>) -> nat
    decreases s.len(),
{
    if s.len() == 0 {
        0
    } else if s.last() == '\n' {
        0
    } else {
        column_after(s.drop_last()) + char_width(s.last())
    }
}

/// Every line and column met while reading `s` from its start fits in a `u32`.
pub open spec fn representable(s: Seq<char>) -> bool {
    &&& line_after(s) <= u32::MAX
    &&& forall|k: int| 0 <= k <= s.len() ==> column_after(#[trigger] s.take(k)) <= u32::MAX
}

/// The line number never decreases as more of a text is read.
pub proof fn lemma_line_monotonic(s: Seq<char>, k: int)
    requires
        0 <= k <= s.len(),
    ensures
        line_after(s.take(k)) <= line_after(s),
    decreases s.len(),
{
    if k == s.len() {
        assert(s.take(k) =~= s);
    } else {
        assert(s.drop_last().take(k) =~= s.take(k));
        lemma_line_monotonic(s.drop_last(), k);
    }
}

/// A prefix of a representable text is representable.
pub proof fn lemma_prefix_representable(s: Seq<char>, n: int)
    requires
        representable(s),
        0 <= n <= s.len(),
    ensures
        representable(s.take(n)),
{
    lemma_line_monotonic(s, n);
    assert forall|k: int| 0 <= k <= s.take(n).len() implies column_after(
        #[trigger] s.take(n).take(k),
    ) <= u32::MAX by {
        assert(s.take(n).take(k) =~= s.take(k));
    }
}

/// A position in a text: a 1-based line and a 0-based column.
#[derive(Debug, Clone, Copy, PartialEq, Eq, PartialOrd, Ord, Structural)]
pub struct PointInfo {
    pub line: u32,
    pub column: u32,
}

impl PointInfo {
    /// Whether this is the position reached after reading exactly `s`.
    pub open spec fn is_after(&self, s: Seq<char>) -> bool {
        &&& self.line == line_after(s)
        &&& self.column == column_after(s)
    }
}

/// A text together with the number of its characters that were read.
#[derive(Debug, Clone, Copy, PartialEq, Eq, PartialOrd, Ord)]
pub struct PointLength<'a> {
    pub content: &'a str,
    pub index: u32,
}

impl<'a> PointLength<'a> {
    /// The characters read so far: the first `index` characters of the
    /// content, or all of it where it has fewer.
    pub open spec fn consumed(&self) -> Seq<char> {
        if self.index <= self.content@.len() {
            self.content@.take(self.index as int)
        } else {
            self.content@
        }
    }

    /// A text of which nothing has been read yet.
    pub fn new(content: &'a str) -> (r: Self)
        ensures
            r.content == content,
            r.index == 0,
    {
        Self { content, index: 0 }
    }

    /// Counts one more character as read.
    pub fn increment(&mut self)
        requires
            old(self).index < u32::MAX,
        ensures
            final(self).index == old(self).index + 1,
            final(self).content == old(self).content,
    {
        self.index += 1;
    }

    /// The line and column reached after the characters read so far.
    pub fn to_point_info(&self) -> (r: PointInfo)
        requires
            representable(self.consumed()),
        ensures
            r.is_after(self.consumed()),
    {
        match self.try_to_point_info() {
            Ok(point) => point,
            Err(_) => vstd::pervasive::unreached(),
        }
    }

    /// The line and column reached after the characters read so far, found
    /// by going through those characters once more. The error is for a
    /// machine whose `usize` cannot hold the count; on the machines that are
    /// supported it never comes.
    pub fn try_to_point_info(&self) -> (r: Result<PointInfo, TryFromIntError>)
        requires
            representable(self.consumed()),
        ensures
            r matches Ok(point) && point.is_after(self.consumed()),
    {
        broadcast use vstd::string::group_string_axioms;

        let limit: usize = match usize::try_from(self.index) {
            Ok(n) => n,
            Err(e) => {
                return Err(e);
            },
        };
        let ghost text = self.content@;
        let mut line: u32 = 1;
        let mut column: u32 = 0;
        let mut taken: usize = 0;
        let mut chars = self.content.chars();
        while taken < limit
            invariant
                limit == self.index,
                text == self.content@,
                taken <= limit,
                taken <= text.len(),
                text.take(taken as int) + chars.remaining() == text,
                chars.decrease() is Some,
                line == line_after(text.take(taken as int)),
                column == column_after(text.take(taken as int)),
                representable(self.consumed()),
            ensures
                taken <= limit,
                taken == limit || taken == text.len(),
                taken <= text.len(),
                line == line_after(text.take(taken as int)),
                column == column_after(text.take(taken as int)),
            decreases chars.decrease()->0,
        {
            match chars.next() {
                Some(c) => {
                    proof {
                        let seen = text.take(taken as int);
                        let more = text.take(taken + 1);
                        assert(taken < text.len());
                        assert(text[taken as int] == c);
                        assert(more.drop_last() =~= seen);
                        assert(more.last() == c);
                        assert(self.consumed().take(taken + 1) =~= more);
                        lemma_line_monotonic(self.consumed(), taken + 1);
                    }
                    if c == '\n' {
                        line += 1;
                        column = 0;
                    } else {
                        column += 1;
                        if c == '\t' {
                            column += 3;
                        }
                    }
                    taken += 1;
                },
                None => {
                    assert(text.take(taken as int) =~= text.take(taken as int) + chars.remaining());
                    break;
                },
            }
        }
        assert(text.take(taken as int) =~= self.consumed());
        Ok(PointInfo { line, column })
    }
}

/// A cursor over the characters of a text, with one character of lookahead.
///
/// `point` says how far the cursor has read. A cursor is only of use while
/// `wf` holds: `point` is public, and changing it by hand breaks the link
/// between the position and the characters that are still to come.
pub struct PeekableWithPoint<'a> {
    /// The next character, if the text has one more.
    ahead: Option<char>,
    /// The byte offset of the next character.
    offset: usize,
    /// The byte offset of the character that was read last.
    before: usize,
    pub point: PointLength<'a>,
}

impl<'a> PeekableWithPoint<'a> {
    /// The whole text.
    pub closed spec fn source(&self) -> Seq<char> {
        self.point.content@
    }

    /// The number of characters read so far.
    pub closed spec fn position(&self) -> int {
        self.point.index as int
    }

    /// The private fields agree with `point`: the lookahead holds the
    /// character at the position, and the byte offsets are those of that
    /// character and of the one before it.
    pub closed spec fn synced(&self) -> bool {
        let text = self.point.content@;
        let at = self.point.index as int;
        at <= text.len() ==> {
            &&& self.ahead == if at < text.len() {
                Some(text[at])
            } else {
                None::<char>
            }
            &&& self.offset == byte_len(text.take(at))
            &&& at >= 1 ==> self.before == byte_len(text.take(at - 1))
        }
    }

    /// The cursor stands inside its text and its parts agree.
    pub open spec fn wf(&self) -> bool {
        &&& 0 <= self.position() <= self.source().len()
        &&& self.position() <= u32::MAX
        &&& self.synced()
    }

    /// Any scanner may be run on the cursor: it is well formed, the
    /// characters of its text can be counted in a `u32`, and every position
    /// in its text can be reported.
    pub open spec fn scannable(&self) -> bool {
        &&& self.wf()
        &&& self.source().len() <= u32::MAX
        &&& representable(self.source())
    }

    /// The characters read so far.
    pub open spec fn consumed(&self) -> Seq<char> {
        self.source().take(self.position())
    }

    /// The characters still to come.
    pub open spec fn remaining(&self) -> Seq<char> {
        self.source().skip(self.position())
    }

    /// A cursor at the start of `content`.
    pub fn new(content: &'a str) -> (r: Self)
        ensures
            r.wf(),
            r.source() == content@,
            r.position() == 0,
    {
        assert(content@.take(0) =~= Seq::<char>::empty());
        let ahead = char_at(content, Ghost(0), 0);
        Self { ahead, offset: 0, before: 0, point: PointLength::new(content) }
    }

    /// Tells whether a scanner may be run on the cursor, by counting
    /// through the whole text once.
    pub fn is_scannable(&self) -> (b: bool)
        requires
            self.wf(),
        ensures
            b == self.scannable(),
    {
        broadcast use vstd::string::group_string_axioms;

        let ghost s = self.point.content@;
        let mut line: u32 = 1;
        let mut column: u32 = 0;
        let mut count: u32 = 0;
        let mut chars = self.point.content.chars();
        assert(s.take(0) =~= Seq::<char>::empty());
        loop
            invariant
                self.wf(),
                s == self.source(),
                count <= s.len(),
                s.take(count as int) + chars.remaining() == s,
                chars.decrease() is Some,
                line == line_after(s.take(count as int)),
                column == column_after(s.take(count as int)),
                forall|k: int| 0 <= k <= count ==> column_after(#[trigger] s.take(k)) <= u32::MAX,
            decreases chars.decrease()->0,
        {
            let c = match chars.next() {
                Some(c) => c,
                None => {
                    assert(s.take(count as int) =~= s.take(count as int) + chars.remaining());
                    assert(s.take(count as int) =~= s);
                    return true;
                },
            };
            proof {
                assert(count < s.len());
                assert(s[count as int] == c);
                let more = s.take(count + 1);
                assert(more.drop_last() =~= s.take(count as int));
                assert(more.last() == c);
                lemma_line_monotonic(s, count + 1);
            }
            if count == u32::MAX {
                return false;
            }
            if c == '\n' {
                if line == u32::MAX {
                    return false;
                }
                line += 1;
                column = 0;
            } else {
                let width: u32 = if c == '\t' {
                    4
                } else {
                    1
                };
                if column > u32::MAX - width {
                    return false;
                }
                column += width;
            }
            count += 1;
        }
    }

    /// The next character, which stays unread.
    pub fn peek(&self) -> (r: Option<&char>)
        requires
            self.wf(),
        ensures
            self.remaining().len() == 0 <==> r is None,
            r matches Some(c) ==> *c == self.remaining()[0],
    {
        self.ahead.as_ref()
    }

    /// Reads the next character, if there is one.
    pub fn next(&mut self) -> (r: Option<char>)
        requires
            old(self).wf(),
            old(self).remaining().len() > 0 ==> old(self).position() < u32::MAX,
        ensures
            final(self).wf(),
            final(self).source() == old(self).source(),
            old(self).remaining().len() == 0 ==> r is None && final(self).position() == old(
                self,
            ).position(),
            old(self).remaining().len() > 0 ==> r == Some(old(self).remaining()[0])
                && final(self).position() == old(self).position() + 1,
    {
        let c = match self.ahead {
            Some(c) => c,
            None => {
                return None;
            },
        };
        let size = self.point.content.as_bytes().len();
        proof {
            let text = self.point.content@;
            let at = self.point.index as int;
            lemma_byte_len_step(text, at);
            lemma_byte_len_prefix(text, at + 1);
            assert(size == byte_len(text));
        }
        // `size` bounds the new offset, so the sum fits.
        self.before = self.offset;
        self.offset = self.offset + char_len_utf8(c);
        self.point.increment();
        self.ahead = char_at(self.point.content, Ghost(self.point.index as int), self.offset);
        Some(c)
    }

    /// The number of characters read so far.
    pub fn index(&self) -> (r: u32)
        requires
            self.wf(),
        ensures
            r == self.position(),
    {
        self.point.index
    }

    /// The byte offset in the text of the next character.
    pub fn offset(&self) -> (r: usize)
        requires
            self.wf(),
        ensures
            r == byte_len(self.source().take(self.position())),
    {
        self.offset
    }

    /// The byte offset in the text of the character that was read last.
    pub fn previous_offset(&self) -> (r: usize)
        requires
            self.wf(),
            self.position() >= 1,
        ensures
            r == byte_len(self.source().take(self.position() - 1)),
    {
        self.before
    }

    /// The part of the text from the character position `from`, which lies at
    /// byte `from_byte`, up to the cursor.
    pub fn text_since(&self, from: u32, from_byte: usize) -> (r: &'a str)
        requires
            self.wf(),
            from <= self.position(),
            from_byte == byte_len(self.source().take(from as int)),
        ensures
            r@ == self.source().subrange(from as int, self.position()),
    {
        slice_chars(
            self.point.content,
            Ghost(from as int),
            Ghost(self.point.index as int),
            from_byte,
            self.offset,
        )
    }

    /// Pairs `error` with the position that the cursor has reached.
    pub fn as_spanned_error<T>(&self, error: T) -> (r: SpannedError<T>)
        requires
            self.wf(),
            representable(self.consumed()),
        ensures
            r.error == error,
            r.at.is_after(self.consumed()),
    {
        SpannedError::new(error, self.point.to_point_info())
    }

    /// `num` as a `usize`.
    pub fn num_into_usize<T: TryInto<usize>>(&self, num: T) -> (r: usize)
        requires
            T::obeys_try_into_spec(),
            num.try_into_spec() is Ok,
        ensures
            num.try_into_spec() == Ok::<usize, T::Error>(r),
    {
        let converted: Result<usize, T::Error> = num.try_into();
        match converted {
            Ok(v) => v,
            Err(_) => vstd::pervasive::unreached(),
        }
    }
}

} // verus!
