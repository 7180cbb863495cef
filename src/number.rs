//! The numeric fields of mesh text: decimal coordinates and 1-based indices.
use vstd::prelude::*;

verus! {

pub open spec fn is_digit(b: u8) -> bool {
    0x30u8 <= b <= 0x39u8
}

pub open spec fn all_digits(s: Seq<u8>) -> bool {
    forall|i: int| 0 <= i < s.len() ==> is_digit(#[trigger] s[i])
}

pub open spec fn is_sign(b: u8) -> bool {
    b == 0x2bu8 || b == 0x2du8
}

/// `s` without its leading `+` or `-`, if it has one.
pub open spec fn unsigned_part(s: Seq<u8>) -> Seq<u8> {
    if s.len() > 0 && is_sign(s[0]) {
        s.subrange(1, s.len() as int)
    } else {
        s
    }
}

pub open spec fn ascii_lower(b: u8) -> u8 {
    if 0x41u8 <= b <= 0x5au8 {
        (b + 0x20u8) as u8
    } else {
        b
    }
}

/// `s` spells the lower-case word `w`, ignoring ASCII case.
pub open spec fn spells(s: Seq<u8>, w: Seq<u8>) -> bool {
    s.len() == w.len() && forall|i: int| 0 <= i < s.len() ==> ascii_lower(#[trigger] s[i]) == w[i]
}

pub open spec fn word_inf() -> Seq<u8> {
    seq![0x69u8, 0x6eu8, 0x66u8]
}

pub open spec fn word_infinity() -> Seq<u8> {
    seq![0x69u8, 0x6eu8, 0x66u8, 0x69u8, 0x6eu8, 0x69u8, 0x74u8, 0x79u8]
}

pub open spec fn word_nan() -> Seq<u8> {
    seq![0x6eu8, 0x61u8, 0x6eu8]
}

pub open spec fn is_dot(b: u8) -> bool {
    b == 0x2eu8
}

pub open spec fn is_exp_marker(b: u8) -> bool {
    b == 0x65u8 || b == 0x45u8
}

/// The index of the first dot at or after `i`, or the length of `s`.
pub open spec fn dot_from(s: Seq<u8>, i: int) -> int
    decreases s.len() - i,
{
    if 0 <= i < s.len() && !is_dot(s[i]) {
        dot_from(s, i + 1)
    } else {
        i
    }
}

/// The index of the first `e` or `E` at or after `i`, or the length of `s`.
pub open spec fn exp_marker_from(s: Seq<u8>, i: int) -> int
    decreases s.len() - i,
{
    if 0 <= i < s.len() && !is_exp_marker(s[i]) {
        exp_marker_from(s, i + 1)
    } else {
        i
    }
}

/// Digits with at most one dot, and at least one digit.
pub open spec fn is_mantissa(s: Seq<u8>) -> bool {
    let d = dot_from(s, 0);
    if d == s.len() {
        s.len() > 0 && all_digits(s)
    } else {
        s.len() > 1 && all_digits(s.subrange(0, d)) && all_digits(s.subrange(d + 1, s.len() as int))
    }
}

/// An optionally signed, non-empty run of digits.
pub open spec fn is_exponent(s: Seq<u8>) -> bool {
    let u = unsigned_part(s);
    u.len() > 0 && all_digits(u)
}

/// A mantissa, then optionally `e` or `E` and an exponent.
pub open spec fn is_decimal(s: Seq<u8>) -> bool {
    let m = exp_marker_from(s, 0);
    is_mantissa(s.subrange(0, m)) && (m == s.len() || is_exponent(s.subrange(m + 1, s.len() as int)))
}

/// The text of a floating-point number as Rust reads one: an optional sign,
/// then `inf`, `infinity` or `nan` in any case, or a decimal number with an
/// optional exponent.
pub open spec fn is_float_text(s: Seq<u8>) -> bool {
    let u = unsigned_part(s);
    spells(u, word_inf()) || spells(u, word_infinity()) || spells(u, word_nan()) || is_decimal(u)
}

/// The text of an index: an optional `+`, then at least one digit.
pub open spec fn is_index_text(s: Seq<u8>) -> bool {
    let u = if s.len() > 0 && s[0] == 0x2bu8 {
        s.subrange(1, s.len() as int)
    } else {
        s
    };
    u.len() > 0 && all_digits(u)
}

/// The value of a run of decimal digits.
pub open spec fn digits_value(s: Seq<u8>) -> nat
    decreases s.len(),
{
    if s.len() == 0 {
        0
    } else {
        digits_value(s.drop_last()) * 10 + (s.last() - 0x30u8) as nat
    }
}

/// The value of an index text.
pub open spec fn index_value(s: Seq<u8>) -> nat {
    if s.len() > 0 && s[0] == 0x2bu8 {
        digits_value(s.subrange(1, s.len() as int))
    } else {
        digits_value(s)
    }
}

/// How an index field resolves against a table of `count` records: the
/// 0-based position, or that the field is no index, or that it names no record.
pub enum IndexResolution {
    At(usize),
    NotANumber,
    OutOfRange,
}

pub open spec fn resolve_spec(s: Seq<u8>, count: nat) -> IndexResolution {
    if !is_index_text(s) {
        IndexResolution::NotANumber
    } else if 1 <= index_value(s) <= count {
        IndexResolution::At((index_value(s) - 1) as usize)
    } else {
        IndexResolution::OutOfRange
    }
}

fn is_digit_byte(b: u8) -> (r: bool)
    ensures
        r == is_digit(b),
{
    0x30u8 <= b && b <= 0x39u8
}

fn all_digits_in(s: &[u8]) -> (r: bool)
    ensures
        r == all_digits(s@),
{
    let mut i: usize = 0;
    while i < s.len()
        invariant
            0 <= i <= s@.len(),
            forall|k: int| 0 <= k < i ==> is_digit(#[trigger] s@[k]),
        decreases s@.len() - i,
    {
        if !is_digit_byte(s[i]) {
            return false;
        }
        i = i + 1;
    }
    true
}

fn strip_sign(s: &[u8]) -> (r: &[u8])
    ensures
        r@ == unsigned_part(s@),
{
    if s.len() > 0 && (s[0] == 0x2bu8 || s[0] == 0x2du8) {
        &s[1..s.len()]
    } else {
        s
    }
}

fn lower_byte(b: u8) -> (r: u8)
    ensures
        r == ascii_lower(b),
{
    if 0x41u8 <= b && b <= 0x5au8 {
        b + 0x20u8
    } else {
        b
    }
}

fn spells_word(s: &[u8], w: &[u8]) -> (r: bool)
    ensures
        r == spells(s@, w@),
{
    if s.len() != w.len() {
        return false;
    }
    let mut i: usize = 0;
    while i < s.len()
        invariant
            0 <= i <= s@.len(),
            s@.len() == w@.len(),
            forall|k: int| 0 <= k < i ==> ascii_lower(#[trigger] s@[k]) == w@[k],
        decreases s@.len() - i,
    {
        if lower_byte(s[i]) != w[i] {
            return false;
        }
        i = i + 1;
    }
    true
}

fn find_dot(s: &[u8]) -> (r: usize)
    ensures
        r == dot_from(s@, 0),
        r <= s@.len(),
{
    let mut j: usize = 0;
    while j < s.len() && s[j] != 0x2eu8
        invariant
            0 <= j <= s@.len(),
            dot_from(s@, 0) == dot_from(s@, j as int),
        decreases s@.len() - j,
    {
        j = j + 1;
    }
    j
}

fn find_exp_marker(s: &[u8]) -> (r: usize)
    ensures
        r == exp_marker_from(s@, 0),
        r <= s@.len(),
{
    let mut j: usize = 0;
    while j < s.len() && s[j] != 0x65u8 && s[j] != 0x45u8
        invariant
            0 <= j <= s@.len(),
            exp_marker_from(s@, 0) == exp_marker_from(s@, j as int),
        decreases s@.len() - j,
    {
        j = j + 1;
    }
    j
}

fn is_mantissa_text(s: &[u8]) -> (r: bool)
    ensures
        r == is_mantissa(s@),
{
    let d = find_dot(s);
    if d == s.len() {
        s.len() > 0 && all_digits_in(s)
    } else {
        s.len() > 1 && all_digits_in(&s[0..d]) && all_digits_in(&s[d + 1..s.len()])
    }
}

fn is_decimal_text(s: &[u8]) -> (r: bool)
    ensures
        r == is_decimal(s@),
{
    let m = find_exp_marker(s);
    if !is_mantissa_text(&s[0..m]) {
        return false;
    }
    if m == s.len() {
        return true;
    }
    let e = strip_sign(&s[m + 1..s.len()]);
    e.len() > 0 && all_digits_in(e)
}

/// Whether a token is the text of a floating-point number.
pub fn is_float_token(s: &[u8]) -> (r: bool)
    ensures
        r == is_float_text(s@),
{
    let inf: [u8; 3] = [0x69u8, 0x6eu8, 0x66u8];
    let infinity: [u8; 8] = [0x69u8, 0x6eu8, 0x66u8, 0x69u8, 0x6eu8, 0x69u8, 0x74u8, 0x79u8];
    let nan: [u8; 3] = [0x6eu8, 0x61u8, 0x6eu8];
    assert(inf@ =~= word_inf());
    assert(infinity@ =~= word_infinity());
    assert(nan@ =~= word_nan());
    let u = strip_sign(s);
    spells_word(u, inf.as_slice()) || spells_word(u, infinity.as_slice()) || spells_word(
        u,
        nan.as_slice(),
    ) || is_decimal_text(u)
}

/// Resolves a 1-based index field against a table of `count` records.
pub fn resolve_index(s: &[u8], count: usize) -> (r: IndexResolution)
    requires
        count < usize::MAX / 2,
    ensures
        r == resolve_spec(s@, count as nat),
{
    let d: &[u8] = if s.len() > 0 && s[0] == 0x2bu8 {
        &s[1..s.len()]
    } else {
        s
    };
    assert(index_value(s@) == digits_value(d@));
    if d.len() == 0 || !all_digits_in(d) {
        return IndexResolution::NotANumber;
    }
    let mut acc: usize = 0;
    let mut over = false;
    let mut i: usize = 0;
    while i < d.len()
        invariant
            0 <= i <= d@.len(),
            count < usize::MAX / 2,
            all_digits(d@),
            !over ==> acc == digits_value(d@.subrange(0, i as int)) && acc <= count,
            over ==> digits_value(d@.subrange(0, i as int)) > count,
        decreases d@.len() - i,
    {
        let ghost prev = d@.subrange(0, i as int);
        assert(d@.subrange(0, i + 1).drop_last() =~= prev);
        assert(is_digit(d@[i as int]));
        let digit = (d[i] - 0x30u8) as usize;
        if over {
            assert(digits_value(d@.subrange(0, i + 1)) >= digits_value(prev)) by (nonlinear_arith)
                requires
                    digits_value(d@.subrange(0, i + 1)) == digits_value(prev) * 10 + digit,
            ;
        } else if acc > count / 10 {
            assert(acc * 10 + digit > count) by (nonlinear_arith)
                requires
                    acc > count / 10,
            ;
            over = true;
        } else {
            assert(acc * 10 + digit <= count + 9) by (nonlinear_arith)
                requires
                    acc <= count / 10,
                    digit <= 9,
            ;
            acc = acc * 10 + digit;
            if acc > count {
                over = true;
            }
        }
        i = i + 1;
    }
    assert(d@.subrange(0, d@.len() as int) =~= d@);
    if over || acc == 0 {
        IndexResolution::OutOfRange
    } else {
        IndexResolution::At(acc - 1)
    }
}

} // verus!
