//! Byte-level scanning of mesh text: lines, whitespace-separated tokens and
//! slash-separated fields.
use vstd::prelude::*;

verus! {

/// The byte that ends a line.
pub const NEWLINE: u8 = 0x0a;

/// The byte that separates the fields of a face corner.
pub const SLASH: u8 = 0x2f;

/// Bytes that separate tokens within a line: space, tab, carriage return,
/// vertical tab and form feed.
pub open spec fn is_blank(b: u8) -> bool {
    b == 0x20u8 || b == 0x09u8 || b == 0x0du8 || b == 0x0bu8 || b == 0x0cu8
}

/// The index of the first newline at or after `i`, or the length of `s`.
pub open spec fn line_end(s: Seq<u8>, i: int) -> int
    decreases s.len() - i,
{
    if 0 <= i < s.len() && s[i] != NEWLINE {
        line_end(s, i + 1)
    } else {
        i
    }
}

/// The index of the first blank at or after `i`, or the length of `s`.
pub open spec fn word_end(s: Seq<u8>, i: int) -> int
    decreases s.len() - i,
{
    if 0 <= i < s.len() && !is_blank(s[i]) {
        word_end(s, i + 1)
    } else {
        i
    }
}

/// The maximal runs of non-blank bytes of `s` from index `i` on, in order.
pub open spec fn tokens_from(s: Seq<u8>, i: int) -> Seq<Seq<u8>>
    decreases s.len() - i,
    via tokens_from_decreases
{
    if i < 0 || i >= s.len() {
        Seq::empty()
    } else if is_blank(s[i]) {
        tokens_from(s, i + 1)
    } else {
        let e = word_end(s, i);
        seq![s.subrange(i, e)].add(tokens_from(s, e))
    }
}

#[via_fn]
proof fn tokens_from_decreases(s: Seq<u8>, i: int) {
    if 0 <= i < s.len() && !is_blank(s[i]) {
        lemma_word_end_bounds(s, i + 1);
    }
}

/// The tokens of a line: it is trimmed and split on runs of blanks.
pub open spec fn tokens(s: Seq<u8>) -> Seq<Seq<u8>> {
    tokens_from(s, 0)
}

/// The index of the first slash at or after `i`, or the length of `s`.
pub open spec fn slash_at_or_after(s: Seq<u8>, i: int) -> int
    decreases s.len() - i,
{
    if 0 <= i < s.len() && s[i] != SLASH {
        slash_at_or_after(s, i + 1)
    } else {
        i
    }
}

/// The index just after the last slash before `j`, or 0 if there is none.
pub open spec fn after_last_slash(s: Seq<u8>, j: int) -> int
    decreases j,
{
    if 0 < j <= s.len() && s[j - 1] != SLASH {
        after_last_slash(s, j - 1)
    } else if 0 < j <= s.len() {
        j
    } else {
        0
    }
}

/// The text before the first slash of a corner descriptor (all of it when
/// there is no slash).
pub open spec fn first_field(s: Seq<u8>) -> Seq<u8> {
    s.subrange(0, slash_at_or_after(s, 0))
}

/// The text after the last slash of a corner descriptor (all of it when
/// there is no slash).
pub open spec fn last_field(s: Seq<u8>) -> Seq<u8> {
    s.subrange(after_last_slash(s, s.len() as int), s.len() as int)
}

pub proof fn lemma_line_end_bounds(s: Seq<u8>, i: int)
    requires
        0 <= i <= s.len(),
    ensures
        i <= line_end(s, i) <= s.len(),
        line_end(s, i) < s.len() ==> s[line_end(s, i)] == NEWLINE,
    decreases s.len() - i,
{
    if i < s.len() && s[i] != NEWLINE {
        lemma_line_end_bounds(s, i + 1);
    }
}

pub proof fn lemma_word_end_bounds(s: Seq<u8>, i: int)
    requires
        0 <= i <= s.len(),
    ensures
        i <= word_end(s, i) <= s.len(),
    decreases s.len() - i,
{
    if i < s.len() && !is_blank(s[i]) {
        lemma_word_end_bounds(s, i + 1);
    }
}

proof fn lemma_slash_bounds(s: Seq<u8>, i: int)
    requires
        0 <= i <= s.len(),
    ensures
        i <= slash_at_or_after(s, i) <= s.len(),
    decreases s.len() - i,
{
    if i < s.len() && s[i] != SLASH {
        lemma_slash_bounds(s, i + 1);
    }
}

proof fn lemma_after_last_slash_bounds(s: Seq<u8>, j: int)
    requires
        0 <= j <= s.len(),
    ensures
        0 <= after_last_slash(s, j) <= j,
    decreases j,
{
    if 0 < j && s[j - 1] != SLASH {
        lemma_after_last_slash_bounds(s, j - 1);
    }
}

/// A line has no more tokens than bytes.
pub proof fn lemma_tokens_from_len(s: Seq<u8>, i: int)
    requires
        0 <= i <= s.len(),
    ensures
        tokens_from(s, i).len() <= s.len() - i,
    decreases s.len() - i,
{
    if i < s.len() {
        if is_blank(s[i]) {
            lemma_tokens_from_len(s, i + 1);
        } else {
            lemma_word_end_bounds(s, i + 1);
            lemma_tokens_from_len(s, word_end(s, i));
        }
    }
}

/// Finds the end of the line that starts at `start`.
pub fn find_line_end(s: &[u8], start: usize) -> (r: usize)
    requires
        start <= s@.len(),
    ensures
        r == line_end(s@, start as int),
        start <= r <= s@.len(),
{
    let mut j: usize = start;
    while j < s.len() && s[j] != NEWLINE
        invariant
            start <= j <= s@.len(),
            line_end(s@, start as int) == line_end(s@, j as int),
        decreases s@.len() - j,
    {
        j = j + 1;
    }
    j
}

fn is_blank_byte(b: u8) -> (r: bool)
    ensures
        r == is_blank(b),
{
    b == 0x20u8 || b == 0x09u8 || b == 0x0du8 || b == 0x0bu8 || b == 0x0cu8
}

pub open spec fn slice_views(v: Seq<&[u8]>) -> Seq<Seq<u8>> {
    v.map_values(|t: &[u8]| t@)
}

/// Splits a line into its tokens, in order.
pub fn split_tokens(s: &[u8]) -> (r: Vec<&[u8]>)
    ensures
        r@.len() == tokens(s@).len(),
        forall|k: int| 0 <= k < r@.len() ==> (#[trigger] r@[k])@ == tokens(s@)[k],
        slice_views(r@) == tokens(s@),
{
    let mut r: Vec<&[u8]> = Vec::new();
    let mut i: usize = 0;
    while i < s.len()
        invariant
            0 <= i <= s@.len(),
            tokens(s@) == r@.map_values(|t: &[u8]| t@).add(tokens_from(s@, i as int)),
        decreases s@.len() - i,
    {
        if is_blank_byte(s[i]) {
            i = i + 1;
        } else {
            let mut j: usize = i + 1;
            while j < s.len() && !is_blank_byte(s[j])
                invariant
                    i < j <= s@.len(),
                    word_end(s@, i as int) == word_end(s@, j as int),
                decreases s@.len() - j,
            {
                j = j + 1;
            }
            proof {
                lemma_word_end_bounds(s@, j as int);
            }
            let t = &s[i..j];
            let ghost before = r@.map_values(|t: &[u8]| t@);
            r.push(t);
            assert(r@.map_values(|t: &[u8]| t@) =~= before.push(t@));
            assert(tokens_from(s@, i as int) == seq![s@.subrange(i as int, j as int)].add(
                tokens_from(s@, j as int),
            ));
            assert(before.push(t@).add(tokens_from(s@, j as int)) =~= before.add(
                seq![s@.subrange(i as int, j as int)].add(tokens_from(s@, j as int)),
            ));
            i = j;
        }
    }
    assert(r@.map_values(|t: &[u8]| t@).add(tokens_from(s@, i as int)) =~= r@.map_values(
        |t: &[u8]| t@,
    ));
    proof {
        assert forall|k: int| 0 <= k < r@.len() implies (#[trigger] r@[k])@ == tokens(s@)[k] by {
            assert(r@.map_values(|t: &[u8]| t@)[k] == r@[k]@);
        }
    }
    r
}

/// The field before the first slash of a corner descriptor.
pub fn split_first_field(s: &[u8]) -> (r: &[u8])
    ensures
        r@ == first_field(s@),
{
    let mut j: usize = 0;
    while j < s.len() && s[j] != SLASH
        invariant
            0 <= j <= s@.len(),
            slash_at_or_after(s@, 0) == slash_at_or_after(s@, j as int),
        decreases s@.len() - j,
    {
        j = j + 1;
    }
    proof {
        lemma_slash_bounds(s@, j as int);
    }
    &s[0..j]
}

/// The field after the last slash of a corner descriptor.
pub fn split_last_field(s: &[u8]) -> (r: &[u8])
    ensures
        r@ == last_field(s@),
{
    let mut j: usize = s.len();
    while j > 0 && s[j - 1] != SLASH
        invariant
            0 <= j <= s@.len(),
            after_last_slash(s@, s@.len() as int) == after_last_slash(s@, j as int),
        decreases j,
    {
        j = j - 1;
    }
    proof {
        lemma_after_last_slash_bounds(s@, j as int);
    }
    &s[j..s.len()]
}

} // verus!
