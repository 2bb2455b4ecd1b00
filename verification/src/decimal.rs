//! Decimal rendering and parsing of user identifiers.
//!
//! A user id travels inside a token as the decimal string of its number.
//! `dec_str_of` is the canonical form (no sign, no leading zeros);
//! `u128_to_string` produces it and `parse_u128` accepts exactly it.

use vstd::arithmetic::div_mod::lemma_fundamental_div_mod;
use vstd::prelude::*;
use vstd::string::StringExecFns;
use vstd::string::StrSliceExecFns;

verus! {

/// The character for a single decimal digit value.
pub open spec fn digit_char(d: nat) -> char {
    if d == 0 { '0' } else if d == 1 { '1' } else if d == 2 { '2' }
    else if d == 3 { '3' } else if d == 4 { '4' } else if d == 5 { '5' }
    else if d == 6 { '6' } else if d == 7 { '7' } else if d == 8 { '8' } else { '9' }
}

/// The value of a decimal digit character, or 10 for any other character.
pub open spec fn char_digit(c: char) -> nat {
    if c == '0' { 0 } else if c == '1' { 1 } else if c == '2' { 2 }
    else if c == '3' { 3 } else if c == '4' { 4 } else if c == '5' { 5 }
    else if c == '6' { 6 } else if c == '7' { 7 } else if c == '8' { 8 }
    else if c == '9' { 9 } else { 10 }
}

pub open spec fn is_digit(c: char) -> bool {
    char_digit(c) < 10
}

pub open spec fn all_digits(s: Seq<char>) -> bool {
    forall|i: int| 0 <= i < s.len() ==> is_digit(#[trigger] s[i])
}

/// The canonical decimal string of a number: most significant digit first,
/// no leading zeros.
pub open spec fn dec_str_of(n: nat) -> Seq<char>
    decreases n,
{
    if n < 10 {
        seq![digit_char(n)]
    } else {
        dec_str_of(n / 10).push(digit_char(n % 10))
    }
}

/// The numeric value of a digit string, most significant digit first.
pub open spec fn dec_value(s: Seq<char>) -> nat
    decreases s.len(),
{
    if s.len() == 0 {
        0
    } else {
        dec_value(s.drop_last()) * 10 + char_digit(s.last())
    }
}

/// A string that `dec_str_of` can produce: nonempty, digits only, and
/// without a leading zero unless it is exactly "0".
pub open spec fn is_canonical_dec(s: Seq<char>) -> bool {
    &&& s.len() >= 1
    &&& all_digits(s)
    &&& (s.len() == 1 || s[0] != '0')
}

/// The canonical decimal string of `n` is canonical and evaluates back to `n`.
pub proof fn lemma_dec_str_wf(n: nat)
    ensures
        is_canonical_dec(dec_str_of(n)),
        dec_value(dec_str_of(n)) == n,
        n < 10 ==> dec_str_of(n).len() == 1,
        n >= 10 ==> dec_str_of(n).len() >= 2,
        n >= 1 ==> dec_str_of(n)[0] != '0',
    decreases n,
{
    if n < 10 {
        let s = dec_str_of(n);
        assert(s.len() == 1);
        assert(s.last() == digit_char(n));
        assert(s.drop_last() =~= Seq::<char>::empty());
        assert(dec_value(s.drop_last()) == 0);
        assert(dec_value(s) == dec_value(s.drop_last()) * 10 + char_digit(s.last()));
        assert(char_digit(digit_char(n)) == n);
    } else {
        lemma_dec_str_wf(n / 10);
        let s0 = dec_str_of(n / 10);
        let s = dec_str_of(n);
        assert(s == s0.push(digit_char(n % 10)));
        assert(s.drop_last() =~= s0);
        assert(char_digit(digit_char(n % 10)) == n % 10);
        lemma_fundamental_div_mod(n as int, 10);
        assert(dec_value(s) == (n / 10) * 10 + n % 10);
        assert(s[0] == s0[0]);
        assert(n / 10 >= 1);
        assert forall|i: int| 0 <= i < s.len() implies is_digit(#[trigger] s[i]) by {
            if i < s.len() - 1 {
                assert(s[i] == s0[i]);
            }
        }
    }
}

/// A nonempty digit string without a leading zero has value at least 1.
proof fn lemma_no_leading_zero_pos(s: Seq<char>)
    requires
        s.len() >= 1,
        all_digits(s),
        s[0] != '0',
    ensures
        dec_value(s) >= 1,
    decreases s.len(),
{
    if s.len() == 1 {
        assert(char_digit(s[0]) >= 1);
    } else {
        assert(s.drop_last()[0] == s[0]);
        lemma_no_leading_zero_pos(s.drop_last());
    }
}

/// A canonical digit string is reproduced by `dec_str_of` from its value.
pub proof fn lemma_dec_str_of_value(s: Seq<char>)
    requires
        is_canonical_dec(s),
    ensures
        dec_str_of(dec_value(s)) == s,
    decreases s.len(),
{
    if s.len() == 1 {
        let d = char_digit(s[0]);
        assert(s.drop_last() =~= Seq::<char>::empty());
        assert(dec_value(s.drop_last()) == 0);
        assert(s.last() == s[0]);
        assert(dec_value(s) == dec_value(s.drop_last()) * 10 + char_digit(s.last()));
        assert(dec_value(s) == d);
        assert(digit_char(d) == s[0]);
        assert(dec_str_of(d) =~= s);
    } else {
        let s0 = s.drop_last();
        let d = char_digit(s.last());
        assert(s0[0] == s[0]);
        assert forall|i: int| 0 <= i < s0.len() implies is_digit(#[trigger] s0[i]) by {
            assert(s0[i] == s[i]);
        }
        lemma_dec_str_of_value(s0);
        lemma_no_leading_zero_pos(s0);
        let v0 = dec_value(s0);
        let n = dec_value(s);
        assert(n == v0 * 10 + d);
        assert(v0 * 10 + d >= 10) by (nonlinear_arith)
            requires v0 >= 1, d >= 0;
        assert((v0 * 10 + d) / 10 == v0 && (v0 * 10 + d) % 10 == d) by (nonlinear_arith)
            requires 0 <= d < 10, v0 >= 0;
        assert(digit_char(d) == s.last());
        assert(dec_str_of(n) == dec_str_of(v0).push(digit_char(n % 10)));
        assert(dec_str_of(n) =~= s);
    }
}

/// The value of a prefix never exceeds the value of the whole string.
proof fn lemma_prefix_value_le(s: Seq<char>, i: int)
    requires
        0 <= i <= s.len(),
    ensures
        dec_value(s.subrange(0, i)) <= dec_value(s),
    decreases s.len(),
{
    if i == s.len() {
        assert(s.subrange(0, i) =~= s);
    } else {
        let s0 = s.drop_last();
        assert(s.subrange(0, i) =~= s0.subrange(0, i));
        lemma_prefix_value_le(s0, i);
        assert(dec_value(s0) * 10 >= dec_value(s0)) by (nonlinear_arith)
            requires dec_value(s0) >= 0;
    }
}

/// A one-character string for a single decimal digit value.
fn digit_str(d: u8) -> (r: &'static str)
    requires
        d < 10,
    ensures
        r@ =~= seq![digit_char(d as nat)],
{
    proof {
        reveal_strlit("0");
        reveal_strlit("1");
        reveal_strlit("2");
        reveal_strlit("3");
        reveal_strlit("4");
        reveal_strlit("5");
        reveal_strlit("6");
        reveal_strlit("7");
        reveal_strlit("8");
        reveal_strlit("9");
    }
    match d {
        0 => "0",
        1 => "1",
        2 => "2",
        3 => "3",
        4 => "4",
        5 => "5",
        6 => "6",
        7 => "7",
        8 => "8",
        _ => "9",
    }
}

/// The digit value of a character, or 10 for any other character.
fn char_to_digit(c: char) -> (d: u8)
    ensures
        d as nat == char_digit(c),
{
    match c {
        '0' => 0,
        '1' => 1,
        '2' => 2,
        '3' => 3,
        '4' => 4,
        '5' => 5,
        '6' => 6,
        '7' => 7,
        '8' => 8,
        '9' => 9,
        _ => 10,
    }
}

/// Renders `n` in its canonical decimal form.
pub fn u128_to_string(n: u128) -> (r: String)
    ensures
        r@ == dec_str_of(n as nat),
    decreases n,
{
    if n < 10 {
        let r = String::from_str(digit_str(n as u8));
        r
    } else {
        let mut s = u128_to_string(n / 10);
        let d = digit_str((n % 10) as u8);
        proof {
            assert(dec_str_of(n as nat) == dec_str_of((n as nat) / 10).push(digit_char((n as nat) % 10)));
            assert(s@ + d@ =~= dec_str_of((n as nat) / 10).push(digit_char((n as nat) % 10)));
        }
        s.append(d);
        s
    }
}

/// Parses the canonical decimal form of a `u128`; rejects everything else,
/// including empty strings, non-digits, leading zeros and numbers too large.
pub fn parse_u128(s: &str) -> (r: Option<u128>)
    ensures
        r matches Some(n) ==> s@ == dec_str_of(n as nat),
        r is None ==> forall|n: u128| s@ != dec_str_of(n as nat),
{
    let len = s.unicode_len();
    if len == 0 {
        proof {
            assert forall|n: u128| s@ != dec_str_of(n as nat) by {
                lemma_dec_str_wf(n as nat);
            }
        }
        return None;
    }
    if len > 1 {
        let c0 = char_to_digit(s.get_char(0));
        if c0 == 0 {
            proof {
                assert(s@[0] == '0');
                assert forall|n: u128| s@ != dec_str_of(n as nat) by {
                    lemma_dec_str_wf(n as nat);
                }
            }
            return None;
        }
    }
    let mut acc: u128 = 0;
    let mut i: usize = 0;
    while i < len
        invariant
            0 <= i <= len,
            len == s@.len(),
            all_digits(s@.subrange(0, i as int)),
            acc as nat == dec_value(s@.subrange(0, i as int)),
            len > 1 ==> s@[0] != '0',
        decreases len - i,
    {
        let c = s.get_char(i);
        let d = char_to_digit(c);
        if d >= 10 {
            proof {
                assert(!is_digit(s@[i as int]));
                assert forall|n: u128| s@ != dec_str_of(n as nat) by {
                    lemma_dec_str_wf(n as nat);
                }
            }
            return None;
        }
        let ghost prefix = s@.subrange(0, i as int);
        let ghost prefix1 = s@.subrange(0, i as int + 1);
        proof {
            assert(prefix1 =~= prefix.push(s@[i as int]));
            assert(prefix1.drop_last() =~= prefix);
            assert(dec_value(prefix1) == dec_value(prefix) * 10 + d);
        }
        let step = match acc.checked_mul(10) {
            Some(m) => m.checked_add(d as u128),
            None => None,
        };
        match step {
            Some(next) => {
                acc = next;
            }
            None => {
                proof {
                    assert(dec_value(prefix1) > u128::MAX);
                    assert forall|n: u128| s@ != dec_str_of(n as nat) by {
                        if s@ == dec_str_of(n as nat) {
                            lemma_dec_str_wf(n as nat);
                            lemma_prefix_value_le(s@, i as int + 1);
                            assert(dec_value(s@) == n as nat);
                        }
                    }
                }
                return None;
            }
        }
        i = i + 1;
    }
    proof {
        assert(s@.subrange(0, len as int) =~= s@);
        lemma_dec_str_of_value(s@);
    }
    Some(acc)
}

/// Rendering a number and parsing it back yields the same number, and a
/// canonical digit string survives a round trip through its value.
pub proof fn lemma_decimal_round_trip(n: u128, s: Seq<char>)
    ensures
        dec_value(dec_str_of(n as nat)) == n,
        is_canonical_dec(s) ==> dec_str_of(dec_value(s)) == s,
{
    lemma_dec_str_wf(n as nat);
    if is_canonical_dec(s) {
        lemma_dec_str_of_value(s);
    }
}

/// Two numbers with the same decimal form are the same number, so a
/// subject string pins down one user id.
pub proof fn lemma_dec_str_injective(a: nat, b: nat)
    ensures
        dec_str_of(a) == dec_str_of(b) ==> a == b,
{
    lemma_dec_str_wf(a);
    lemma_dec_str_wf(b);
}

} // verus!
