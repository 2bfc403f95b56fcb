//! Character-level helpers: decimal formatting, string building and the
//! UTF-16 length that spreadsheet limits are measured in.

use vstd::prelude::*;

verus! {

/// The character of a decimal digit.
pub open spec fn digit_char(d: int) -> char {
    (d + 48) as char
}

/// Decimal digits of a natural number, most significant first, no padding.
pub open spec fn nat_digits(n: nat) -> Seq<char>
    decreases n,
{
    if n < 10 {
        seq![digit_char(n as int)]
    } else {
        nat_digits(n / 10).push(digit_char((n % 10) as int))
    }
}

/// Decimal text of an integer, as `{}` prints it.
pub open spec fn signed_text(v: int) -> Seq<char> {
    if v < 0 {
        seq!['-'] + nat_digits((-v) as nat)
    } else {
        nat_digits(v as nat)
    }
}

/// Decimal text of an integer padded with zeros to width two, as `{:02}`
/// prints it: a sign counts toward the width.
pub open spec fn pad_two(v: int) -> Seq<char> {
    if 0 <= v < 10 {
        seq!['0', digit_char(v)]
    } else {
        signed_text(v)
    }
}

/// Number of UTF-16 code units that encode a string.
pub open spec fn utf16_len(s: Seq<char>) -> nat
    decreases s.len(),
{
    if s.len() == 0 {
        0
    } else {
        utf16_len(s.drop_last()) + if (s.last() as u32) >= 0x10000 { 2nat } else { 1nat }
    }
}

/// `String::push`: appends one character.
#[verifier::external_body]
pub(crate) fn push_char(s: &mut String, c: char)
    ensures
        final(s)@ == old(s)@.push(c),
{
    s.push(c);
}

/// The characters of a string in order.
pub(crate) fn chars_of(s: &str) -> (r: Vec<char>)
    ensures
        r@ == s@,
{
    let mut out: Vec<char> = Vec::new();
    for c in it: s.chars()
        invariant
            out@ == it.seq().take(it.index() as int),
    {
        out.push(c);
    }
    out
}

/// Whether two strings have the same characters.
pub(crate) fn same_text(a: &str, b: &str) -> (r: bool)
    ensures
        r == (a@ == b@),
{
    let x = chars_of(a);
    let y = chars_of(b);
    if x.len() != y.len() {
        return false;
    }
    let mut i: usize = 0;
    while i < x.len()
        invariant
            x@ == a@,
            y@ == b@,
            x.len() == y.len(),
            i <= x.len(),
            forall|j: int| 0 <= j < i ==> x@[j] == y@[j],
        decreases x.len() - i,
    {
        if x[i] != y[i] {
            assert(a@[i as int] != b@[i as int]);
            return false;
        }
        i = i + 1;
    }
    assert(a@ =~= b@);
    true
}

/// Ten to the power `k`.
pub open spec fn pow10(k: nat) -> nat
    decreases k,
{
    if k == 0 {
        1
    } else {
        10 * pow10((k - 1) as nat)
    }
}

/// A number below `10^k` has at most `k` digits.
pub proof fn lemma_nat_digits_len(n: nat, k: nat)
    requires
        k >= 1,
        n < pow10(k),
    ensures
        nat_digits(n).len() <= k,
    decreases n,
{
    if n >= 10 {
        assert(k >= 2) by {
            if k == 1 {
                assert(pow10(1) == 10) by { reveal_with_fuel(pow10, 2); }
            }
        }
        assert(pow10(k) == 10 * pow10((k - 1) as nat));
        lemma_nat_digits_len(n / 10, (k - 1) as nat);
    }
}

/// The text of an `i64` has at most 20 characters.
pub proof fn lemma_signed_text_len(v: int)
    requires
        i64::MIN <= v <= i64::MAX,
    ensures
        signed_text(v).len() <= 20,
        pad_two(v).len() <= 20,
{
    assert(pow10(19) == 10000000000000000000nat) by { reveal_with_fuel(pow10, 20); }
    let m: nat = if v < 0 { (-v) as nat } else { v as nat };
    lemma_nat_digits_len(m, 19);
}

/// A string takes at most two UTF-16 code units per character.
pub proof fn lemma_utf16_len_bound(s: Seq<char>)
    ensures
        utf16_len(s) <= 2 * s.len(),
    decreases s.len(),
{
    if s.len() > 0 {
        lemma_utf16_len_bound(s.drop_last());
    }
}

/// The decimal text of a natural number is not empty and starts with a
/// digit, not with `<`.
pub(crate) proof fn lemma_nat_digits_first(n: nat)
    ensures
        nat_digits(n).len() >= 1,
        nat_digits(n)[0] != '<',
    decreases n,
{
    if n >= 10 {
        lemma_nat_digits_first(n / 10);
        assert(nat_digits(n)[0] == nat_digits(n / 10)[0]);
    } else {
        assert(digit_char(n as int) != '<');
    }
}

/// Appends the decimal digits of `n` to `out`.
pub(crate) fn push_nat_digits(out: &mut String, n: u64)
    ensures
        final(out)@ == old(out)@ + nat_digits(n as nat),
    decreases n,
{
    if n >= 10 {
        push_nat_digits(out, n / 10);
    }
    let d: u8 = (n % 10) as u8;
    push_char(out, (d + 48) as char);
    proof {
        if n >= 10 {
            assert(nat_digits(n as nat) == nat_digits((n / 10) as nat).push(digit_char((n % 10) as int)));
        }
    }
}

/// Appends the decimal text of `v`.
pub(crate) fn push_signed_text(out: &mut String, v: i64)
    ensures
        final(out)@ == old(out)@ + signed_text(v as int),
{
    if v < 0 {
        push_char(out, '-');
        let m: u64 = (-(v as i128)) as u64;
        push_nat_digits(out, m);
    } else {
        push_nat_digits(out, v as u64);
    }
}

/// Appends `v` formatted as `{:02}` formats it.
pub(crate) fn push_pad_two(out: &mut String, v: i64)
    ensures
        final(out)@ == old(out)@ + pad_two(v as int),
{
    if 0 <= v && v < 10 {
        push_char(out, '0');
        push_char(out, ((v as u8) + 48) as char);
    } else {
        push_signed_text(out, v);
    }
}

/// Index just past the last character of `s[..i]` that is `d1` or `d2`,
/// or 0 when there is none.
pub open spec fn segment_start(s: Seq<char>, i: int, d1: char, d2: char) -> int
    decreases i,
{
    if i <= 0 {
        0
    } else if s[i - 1] == d1 || s[i - 1] == d2 {
        i
    } else {
        segment_start(s, i - 1, d1, d2)
    }
}

/// The text after the last `d1` or `d2` in `s`, or all of `s`.
pub open spec fn last_segment(s: Seq<char>, d1: char, d2: char) -> Seq<char> {
    s.subrange(segment_start(s, s.len() as int, d1, d2), s.len() as int)
}

pub(crate) proof fn lemma_segment_start(s: Seq<char>, i: int, d1: char, d2: char)
    requires
        0 <= i <= s.len(),
    ensures
        0 <= segment_start(s, i, d1, d2) <= i,
        forall|k: int| segment_start(s, i, d1, d2) <= k < i ==> s[k] != d1 && s[k] != d2,
        segment_start(s, i, d1, d2) > 0 ==> (s[segment_start(s, i, d1, d2) - 1] == d1
            || s[segment_start(s, i, d1, d2) - 1] == d2),
    decreases i,
{
    if i > 0 && !(s[i - 1] == d1 || s[i - 1] == d2) {
        lemma_segment_start(s, i - 1, d1, d2);
    }
}

/// Position just past the last `d1` or `d2` among the characters, or 0.
pub(crate) fn find_segment_start(cs: &Vec<char>, d1: char, d2: char) -> (r: usize)
    ensures
        r == segment_start(cs@, cs@.len() as int, d1, d2),
{
    let mut i = cs.len();
    while i > 0
        invariant
            i <= cs.len(),
            segment_start(cs@, cs@.len() as int, d1, d2) == segment_start(cs@, i as int, d1, d2),
        decreases i,
    {
        if cs[i - 1] == d1 || cs[i - 1] == d2 {
            return i;
        }
        i = i - 1;
    }
    0
}

} // verus!
