//! What holds of the tokens of every text of some kind, and of the
//! positions in every text.
use crate::grammar::{
    in_class, is_ascii_digit, is_ascii_letter, punctuation, run_end, scan_token, scan_tokens,
    starts_ident, CharClass, Scanned, TokenView,
};
use crate::util::{char_width, column_after, line_after, representable};
use vstd::prelude::*;

verus! {

/// A run is made of characters of its class only, and it is the longest
/// such: it ends where the text ends or where another character stands.
pub proof fn lemma_run_is_maximal(s: Seq<char>, i: int, class: CharClass)
    requires
        0 <= i <= s.len(),
    ensures
        i <= run_end(s, i, class) <= s.len(),
        forall|k: int| i <= k < run_end(s, i, class) ==> in_class(class, #[trigger] s[k]),
        run_end(s, i, class) < s.len() ==> !in_class(class, s[run_end(s, i, class)]),
    decreases s.len() - i,
{
    if i < s.len() && in_class(class, s[i]) {
        lemma_run_is_maximal(s, i + 1, class);
    }
}

/// A run that meets only characters of its class goes on to the end of the
/// text.
pub proof fn lemma_run_to_the_end(s: Seq<char>, i: int, class: CharClass)
    requires
        0 <= i <= s.len(),
        forall|k: int| i <= k < s.len() ==> in_class(class, #[trigger] s[k]),
    ensures
        run_end(s, i, class) == s.len(),
    decreases s.len() - i,
{
    if i < s.len() {
        lemma_run_to_the_end(s, i + 1, class);
    }
}

/// The tokens of a text that holds punctuation only, from `i` on.
proof fn lemma_punctuation_from(s: Seq<char>, i: int)
    requires
        0 <= i <= s.len(),
        forall|k: int| 0 <= k < s.len() ==> punctuation(#[trigger] s[k]) is Some,
    ensures
        scan_tokens(s, i) == (Scanned::Done {
            value: s.skip(i).map_values(|c: char| punctuation(c)->0),
            end: s.len() as int,
        }),
    decreases s.len() - i,
{
    let token_of = |c: char| punctuation(c)->0;
    if i < s.len() {
        lemma_punctuation_from(s, i + 1);
        assert(seq![token_of(s[i])] + s.skip(i + 1).map_values(token_of) =~= s.skip(i).map_values(
            token_of,
        ));
    } else {
        assert(s.skip(i).map_values(token_of) =~= Seq::<TokenView>::empty());
    }
}

/// A text that holds nothing but characters that are tokens by themselves
/// never fails to scan, and gives one token for each character, in the
/// order of the characters.
pub proof fn lemma_punctuation_only(s: Seq<char>)
    requires
        forall|k: int| 0 <= k < s.len() ==> punctuation(#[trigger] s[k]) is Some,
    ensures
        scan_tokens(s, 0) == (Scanned::Done {
            value: s.map_values(|c: char| punctuation(c)->0),
            end: s.len() as int,
        }),
{
    lemma_punctuation_from(s, 0);
    assert(s.skip(0) =~= s);
}

/// A text that starts with a Latin letter or an underscore and goes on
/// with Latin letters, digits and underscores is one identifier, and that
/// identifier is the whole text.
pub proof fn lemma_identifier_round_trip(s: Seq<char>)
    requires
        s.len() > 0,
        starts_ident(s[0]),
        forall|k: int|
            1 <= k < s.len() ==> {
                let c = #[trigger] s[k];
                c == '_' || is_ascii_letter(c) || is_ascii_digit(c)
            },
    ensures
        scan_tokens(s, 0) == (Scanned::Done {
            value: seq![TokenView::Ident(s)],
            end: s.len() as int,
        }),
{
    assert forall|k: int| 1 <= k < s.len() implies in_class(
        CharClass::IdentPart,
        #[trigger] s[k],
    ) by {
        let c = s[k];
        assert(c == '_' || is_ascii_letter(c) || is_ascii_digit(c));
    }
    lemma_run_to_the_end(s, 1, CharClass::IdentPart);
    assert(s.subrange(0, s.len() as int) =~= s);
    assert(seq![TokenView::Ident(s)] + Seq::<TokenView>::empty() =~= seq![TokenView::Ident(s)]);
    assert(punctuation(s[0]) is None);
    assert(scan_token(s, 0) == (Scanned::Done {
        value: TokenView::Ident(s),
        end: s.len() as int,
    }));
    assert(scan_tokens(s, s.len() as int) == (Scanned::Done {
        value: Seq::<TokenView>::empty(),
        end: s.len() as int,
    }));
}

/// A column is at most four times the number of characters read.
pub proof fn lemma_column_bound(s: Seq<char>)
    ensures
        column_after(s) <= 4 * s.len(),
        line_after(s) <= s.len() + 1,
    decreases s.len(),
{
    if s.len() > 0 {
        lemma_column_bound(s.drop_last());
    }
}

/// Every position in a text of at most `u32::MAX / 4` characters can be
/// reported.
pub proof fn lemma_short_text_representable(s: Seq<char>)
    requires
        4 * s.len() <= u32::MAX,
    ensures
        representable(s),
{
    lemma_column_bound(s);
    assert forall|k: int| 0 <= k <= s.len() implies column_after(#[trigger] s.take(k))
        <= u32::MAX by {
        lemma_column_bound(s.take(k));
    }
}

/// A line feed starts the next line at column zero.
pub proof fn lemma_newline_resets_column(s: Seq<char>)
    ensures
        line_after(s.push('\n')) == line_after(s) + 1,
        column_after(s.push('\n')) == 0,
{
    assert(s.push('\n').drop_last() =~= s);
}

/// Any character but a line feed stays on the line and moves the column
/// on by its width: by four for a tab, by one for every other character.
pub proof fn lemma_char_advances_column(s: Seq<char>, c: char)
    requires
        c != '\n',
    ensures
        line_after(s.push(c)) == line_after(s),
        column_after(s.push(c)) == column_after(s) + char_width(c),
        c == '\t' ==> column_after(s.push(c)) == column_after(s) + 4,
        c != '\t' ==> column_after(s.push(c)) == column_after(s) + 1,
{
    assert(s.push(c).drop_last() =~= s);
}

} // verus!
