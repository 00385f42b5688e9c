//! Byte offsets of characters in UTF-8 text, and slicing by them.
use vstd::prelude::*;
use vstd::utf8::*;

verus! {

/// The number of bytes that the UTF-8 encoding of `s` takes.
pub open spec fn byte_len(s: Seq<char>) -> nat {
    encode_utf8(s).len()
}

/// The number of bytes that the UTF-8 encoding of `c` takes.
pub open spec fn utf8_width(c: char) -> nat {
    encode_scalar(c as u32).len()
}

/// Encoding distributes over concatenation.
pub proof fn lemma_encode_concat(a: Seq<char>, b: Seq<char>)
    ensures
        encode_utf8(a + b) == encode_utf8(a) + encode_utf8(b),
    decreases a.len(),
{
    if a.len() == 0 {
        assert(a + b =~= b);
        assert(encode_utf8(a) + encode_utf8(b) =~= encode_utf8(b));
    } else {
        lemma_encode_concat(a.drop_first(), b);
        assert((a + b).drop_first() =~= a.drop_first() + b);
        assert((a + b)[0] == a[0]);
        assert(encode_utf8(a + b) =~= encode_utf8(a) + encode_utf8(b));
    }
}

/// Two texts with the same encoding are the same text.
pub proof fn lemma_encode_injective(a: Seq<char>, b: Seq<char>)
    requires
        encode_utf8(a) == encode_utf8(b),
    ensures
        a == b,
{
    encode_utf8_decode_utf8(a);
    encode_utf8_decode_utf8(b);
}

/// Reading one more character moves the byte offset by that character's width.
pub proof fn lemma_byte_len_step(s: Seq<char>, k: int)
    requires
        0 <= k < s.len(),
    ensures
        byte_len(s.take(k + 1)) == byte_len(s.take(k)) + utf8_width(s[k]),
        1 <= utf8_width(s[k]) <= 4,
{
    let one = seq![s[k]];
    assert(s.take(k + 1) =~= s.take(k) + one);
    lemma_encode_concat(s.take(k), one);
    assert(one.drop_first() =~= Seq::<char>::empty());
    assert(encode_utf8(one) =~= encode_scalar(s[k] as u32)) by {
        reveal_with_fuel(encode_utf8, 2);
    }
}

/// The byte offset of a prefix never exceeds the length of the whole encoding.
pub proof fn lemma_byte_len_prefix(s: Seq<char>, k: int)
    requires
        0 <= k <= s.len(),
    ensures
        byte_len(s.take(k)) <= byte_len(s),
        encode_utf8(s).subrange(0, byte_len(s.take(k)) as int) == encode_utf8(s.take(k)),
        encode_utf8(s).subrange(byte_len(s.take(k)) as int, byte_len(s) as int) == encode_utf8(
            s.skip(k),
        ),
{
    assert(s =~= s.take(k) + s.skip(k));
    lemma_encode_concat(s.take(k), s.skip(k));
    let head = encode_utf8(s.take(k));
    let tail = encode_utf8(s.skip(k));
    assert((head + tail).subrange(0, head.len() as int) =~= head);
    assert((head + tail).subrange(head.len() as int, (head + tail).len() as int) =~= tail);
}

/// The byte offset at which a character of `s` starts, or at which `s` ends,
/// is a character boundary of the encoding of `s`.
pub proof fn lemma_prefix_is_boundary(s: Seq<char>, k: int)
    requires
        0 <= k <= s.len(),
    ensures
        is_char_boundary(encode_utf8(s), byte_len(s.take(k)) as int),
    decreases k,
{
    let bytes = encode_utf8(s);
    encode_utf8_valid_utf8(s);
    if k == 0 {
        assert(s.take(0) =~= Seq::<char>::empty());
    } else {
        let rest = s.drop_first();
        encode_utf8_first_scalar(s);
        assert(pop_first_scalar(bytes) =~= encode_utf8(rest));
        lemma_prefix_is_boundary(rest, k - 1);
        assert(s.take(k) =~= seq![s[0]] + rest.take(k - 1));
        lemma_encode_concat(seq![s[0]], rest.take(k - 1));
        assert(seq![s[0]].drop_first() =~= Seq::<char>::empty());
        assert(encode_utf8(seq![s[0]]) =~= encode_scalar(s[0] as u32)) by {
            reveal_with_fuel(encode_utf8, 2);
        }
        lemma_byte_len_prefix(s, k);
        assert(byte_len(s.take(k)) == encode_scalar(s[0] as u32).len() + byte_len(rest.take(k - 1)));
        assert(length_of_first_scalar(bytes) >= 1);
    }
}

/// The number of bytes in the UTF-8 encoding of `c`.
pub fn char_len_utf8(c: char) -> (n: usize)
    ensures
        n == utf8_width(c),
        1 <= n <= 4,
{
    let code: u32 = c as u32;
    if code < 0x80 {
        1
    } else if code < 0x800 {
        2
    } else if code < 0x1_0000 {
        3
    } else {
        4
    }
}

/// The part of `text` between two character positions, given the byte
/// offsets at which those positions lie.
pub(crate) fn slice_chars<'a>(
    text: &'a str,
    Ghost(from): Ghost<int>,
    Ghost(to): Ghost<int>,
    from_byte: usize,
    to_byte: usize,
) -> (part: &'a str)
    requires
        0 <= from <= to <= text@.len(),
        from_byte == byte_len(text@.take(from)),
        to_byte == byte_len(text@.take(to)),
    ensures
        part@ == text@.subrange(from, to),
{
    let ghost s = text@;
    proof {
        lemma_prefix_is_boundary(s, to);
        lemma_byte_len_prefix(s, to);
    }
    let (head, _) = text.split_at(to_byte);
    proof {
        lemma_encode_injective(head@, s.take(to));
        assert(s.take(to).take(from) =~= s.take(from));
        lemma_prefix_is_boundary(s.take(to), from);
        lemma_byte_len_prefix(s.take(to), from);
        assert(s.take(to).skip(from) =~= s.subrange(from, to));
    }
    let (_, part) = head.split_at(from_byte);
    proof {
        lemma_encode_injective(part@, s.subrange(from, to));
    }
    part
}

/// The character of `text` at the character position `at`, which lies at
/// byte `offset`; `None` where the text ends there.
pub(crate) fn char_at(text: &str, Ghost(at): Ghost<int>, offset: usize) -> (r: Option<char>)
    requires
        0 <= at <= text@.len(),
        offset == byte_len(text@.take(at)),
    ensures
        r == if at < text@.len() {
            Some(text@[at])
        } else {
            None::<char>
        },
{
    broadcast use vstd::string::group_string_axioms;

    let ghost s = text@;
    proof {
        lemma_prefix_is_boundary(s, at);
        lemma_byte_len_prefix(s, at);
    }
    let (_, rest) = text.split_at(offset);
    proof {
        lemma_encode_injective(rest@, s.skip(at));
    }
    let mut chars = rest.chars();
    chars.next()
}

} // verus!
