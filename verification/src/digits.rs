//! Decimal digits: the numeric value of a run of digit characters, and the
//! decimal rendering of a number.  Both directions are used by the tokenizer,
//! by positional `col<N>` column resolution, and by output rendering.

use vstd::prelude::*;
use vstd::string::StringExecFns;

verus! {

/// An ASCII decimal digit.
pub open spec fn is_digit(c: char) -> bool {
    '0' <= c && c <= '9'
}

/// The numeric value of one digit character.
pub open spec fn digit_val(c: char) -> int {
    c as int - '0' as int
}

/// The character for one digit value.
pub open spec fn digit_char(d: int) -> char {
    if d == 0 {
        '0'
    } else if d == 1 {
        '1'
    } else if d == 2 {
        '2'
    } else if d == 3 {
        '3'
    } else if d == 4 {
        '4'
    } else if d == 5 {
        '5'
    } else if d == 6 {
        '6'
    } else if d == 7 {
        '7'
    } else if d == 8 {
        '8'
    } else {
        '9'
    }
}

/// The numeric value of a run of digit characters, most significant first.
pub open spec fn digits_val(s: Seq<char>) -> int
    decreases s.len(),
{
    if s.len() == 0 {
        0
    } else {
        digits_val(s.drop_last()) * 10 + digit_val(s.last())
    }
}

/// A run of digits is worth at least its proper prefix: appending digits
/// never decreases the value.
pub proof fn lemma_digits_val_prefix(s: Seq<char>, k: int)
    requires
        0 <= k <= s.len(),
        forall|i: int| 0 <= i < s.len() ==> is_digit(#[trigger] s[i]),
    ensures
        digits_val(s) >= digits_val(s.subrange(0, k)),
        digits_val(s) >= 0,
    decreases s.len() - k,
{
    if k == s.len() {
        assert(s.subrange(0, k) =~= s);
        lemma_digits_val_nonneg(s);
    } else {
        lemma_digits_val_prefix(s, k + 1);
        let a = s.subrange(0, k);
        let b = s.subrange(0, k + 1);
        assert(b.drop_last() =~= a);
        lemma_digits_val_nonneg(a);
        assert(digits_val(b) == digits_val(a) * 10 + digit_val(b.last()));
        assert(digit_val(b.last()) >= 0);
        assert(digits_val(a) * 10 >= digits_val(a)) by {
            assert(digits_val(a) >= 0);
        }
    }
}

/// The value of a digit run is never negative.
pub proof fn lemma_digits_val_nonneg(s: Seq<char>)
    requires
        forall|i: int| 0 <= i < s.len() ==> is_digit(#[trigger] s[i]),
    ensures
        digits_val(s) >= 0,
    decreases s.len(),
{
    if s.len() > 0 {
        lemma_digits_val_nonneg(s.drop_last());
    }
}

/// The decimal rendering of a non-negative number, without sign.
pub open spec fn spec_nat_str(n: int) -> Seq<char>
    decreases n,
{
    if n < 10 {
        seq![digit_char(if n < 0 { 0 } else { n })]
    } else {
        spec_nat_str(n / 10).push(digit_char(n % 10))
    }
}

/// The decimal rendering of a (possibly negative) number.
pub open spec fn spec_int_str(n: int) -> Seq<char> {
    if n < 0 {
        seq!['-'] + spec_nat_str(-n)
    } else {
        spec_nat_str(n)
    }
}

/// Renders a number in decimal, matching `spec_nat_str`.
pub fn u64_to_string(n: u64) -> (r: String)
    ensures
        r@ == spec_nat_str(n as int),
    decreases n,
{
    if n < 10 {
        let mut s = String::new();
        s.push(digit_to_char((n % 10) as u8));
        assert(s@ =~= spec_nat_str(n as int));
        s
    } else {
        let mut s = u64_to_string(n / 10);
        s.push(digit_to_char((n % 10) as u8));
        s
    }
}

/// Renders a signed 32-bit number in decimal, matching `spec_int_str`.
pub fn i32_to_string(n: i32) -> (r: String)
    ensures
        r@ == spec_int_str(n as int),
{
    if n < 0 {
        let m = -(n as i64);
        let mut s = String::new();
        s.push('-');
        let digits = u64_to_string(m as u64);
        s.append(digits.as_str());
        assert(s@ =~= spec_int_str(n as int));
        s
    } else {
        u64_to_string(n as u64)
    }
}

/// The character for one digit value, matching `digit_char`.
pub fn digit_to_char(d: u8) -> (r: char)
    requires
        d < 10,
    ensures
        r == digit_char(d as int),
{
    if d == 0 {
        '0'
    } else if d == 1 {
        '1'
    } else if d == 2 {
        '2'
    } else if d == 3 {
        '3'
    } else if d == 4 {
        '4'
    } else if d == 5 {
        '5'
    } else if d == 6 {
        '6'
    } else if d == 7 {
        '7'
    } else if d == 8 {
        '8'
    } else {
        '9'
    }
}

} // verus!
