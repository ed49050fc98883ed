//! Verified building blocks for rendering rows of text: decimal numbers,
//! two-digit fields, and left-aligned padding to a column width.

use vstd::prelude::*;

verus! {

/// Largest field length (in characters) the renderers lay out; keeps every
/// column-width computation inside `usize`.
pub const MAX_FIELD: usize = 0x1000_0000;

/// The character for one decimal digit.
pub open spec fn digit_char(d: int) -> char {
    ((48 + d) as u8) as char
}

/// The decimal digits of `n`, most significant first, no leading zeros
/// (a single `'0'` for zero).
pub open spec fn dec_str(n: nat) -> Seq<char>
    decreases n,
{
    if n < 10 {
        seq![digit_char(n as int)]
    } else {
        dec_str(n / 10).push(digit_char((n % 10) as int))
    }
}

/// Exactly two decimal digits, zero padded: the fixed-width form used for
/// hours, minutes and day-of-month labels.
pub open spec fn two_digit_str(n: int) -> Seq<char> {
    seq![digit_char(n / 10), digit_char(n % 10)]
}

/// `n` spaces.
pub open spec fn spaces(n: nat) -> Seq<char> {
    Seq::new(n, |i: int| ' ')
}

/// `v` left-aligned in a field of `width` characters: the value followed by
/// as many spaces as the width leaves over (none when the value already
/// fills the field).
pub open spec fn left_aligned(v: Seq<char>, width: nat) -> Seq<char> {
    if v.len() >= width {
        v
    } else {
        v + spaces((width - v.len()) as nat)
    }
}

/// Column widths are the least multiple of the indent unit (four) that
/// strictly exceeds the longest value: `((len / 4) + 1) * 4`.
pub open spec fn field_width(len: nat) -> nat {
    ((len / 4) + 1) * 4
}

/// A decimal rendering never exceeds 20 characters for a 64-bit value.
pub proof fn lemma_dec_str_len(n: nat)
    requires
        n <= u64::MAX,
    ensures
        1 <= dec_str(n).len() <= 20,
{
    assert(pow10(20) == 100000000000000000000) by {
        reveal_with_fuel(pow10, 21);
    }
    lemma_dec_str_len_bound(n, 20);
}

/// A value below `10^k` renders in at most `k` digits.
proof fn lemma_dec_str_len_bound(n: nat, k: nat)
    requires
        n < pow10(k),
        k >= 1,
    ensures
        dec_str(n).len() <= k,
    decreases n,
{
    if n >= 10 {
        assert(pow10(k) == 10 * pow10((k - 1) as nat));
        assert(n / 10 < pow10((k - 1) as nat));
        lemma_dec_str_len_bound(n / 10, (k - 1) as nat);
    }
}

/// Ten to the `k`.
pub open spec fn pow10(k: nat) -> nat
    decreases k,
{
    if k == 0 {
        1
    } else {
        10 * pow10((k - 1) as nat)
    }
}

/// Relies on `String::push` of std: it appends exactly the one character.
#[verifier::external_body]
pub(crate) fn push_char(s: &mut String, c: char)
    ensures
        final(s)@ == old(s)@.push(c),
{
    s.push(c);
}

/// Render `n` in decimal.
pub fn u64_to_string(n: u64) -> (s: String)
    ensures
        s@ == dec_str(n as nat),
    decreases n,
{
    if n < 10 {
        let mut s = String::new();
        push_char(&mut s, (48 + n as u8) as char);
        proof {
            assert(s@ =~= dec_str(n as nat));
        }
        s
    } else {
        let mut s = u64_to_string(n / 10);
        push_char(&mut s, (48 + (n % 10) as u8) as char);
        proof {
            assert(s@ =~= dec_str(n as nat));
        }
        s
    }
}

/// Append `n` as exactly two zero-padded decimal digits.
pub fn push_two_digit(s: &mut String, n: u32)
    requires
        n < 100,
    ensures
        final(s)@ == old(s)@ + two_digit_str(n as int),
{
    push_char(s, (48 + (n / 10) as u8) as char);
    push_char(s, (48 + (n % 10) as u8) as char);
    proof {
        assert(s@ =~= old(s)@ + two_digit_str(n as int));
    }
}

/// Append `n` spaces.
pub fn push_spaces(s: &mut String, n: usize)
    ensures
        final(s)@ == old(s)@ + spaces(n as nat),
{
    let mut i: usize = 0;
    while i < n
        invariant
            i <= n,
            s@ == old(s)@ + spaces(i as nat),
        decreases n - i,
    {
        push_char(s, ' ');
        proof {
            assert(old(s)@ + spaces((i + 1) as nat) =~= (old(s)@ + spaces(i as nat)).push(' '));
        }
        i += 1;
    }
    proof {
        assert(s@ =~= old(s)@ + spaces(n as nat));
    }
}

/// Append `v` left-aligned in a field of `width` characters.
pub fn push_left_aligned(s: &mut String, v: &str, width: usize)
    ensures
        final(s)@ == old(s)@ + left_aligned(v@, width as nat),
{
    let len = v.unicode_len();
    append_str(s, v);
    if len < width {
        push_spaces(s, width - len);
        proof {
            assert(s@ =~= old(s)@ + left_aligned(v@, width as nat));
        }
    }
}

/// Relies on `String::push_str` of std: it appends exactly the given
/// string slice.
#[verifier::external_body]
pub(crate) fn append_str(s: &mut String, other: &str)
    ensures
        final(s)@ == old(s)@ + other@,
{
    s.push_str(other);
}

/// Compute a column width from the longest value in the column.
pub fn compute_field_width(len: usize) -> (w: usize)
    requires
        len <= MAX_FIELD,
    ensures
        w == field_width(len as nat),
{
    (len / 4 + 1) * 4
}

} // verus!
