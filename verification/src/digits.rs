//! Decimal digits: rendering a number as its digit string and reading the
//! value of a digit string back, together with the facts about both that the
//! notation codec needs.

use vstd::prelude::*;
use vstd::arithmetic::div_mod::lemma_fundamental_div_mod;

verus! {

/// Whether `c` is an ASCII decimal digit.
pub open spec fn is_digit_char(c: char) -> bool {
    48 <= c as int <= 57
}

/// The numeric value of an ASCII digit character (garbage outside digits).
pub open spec fn char_digit(c: char) -> int {
    c as int - 48
}

/// The ASCII digit character for a value in 0..10.
pub open spec fn digit_char(d: int) -> char {
    if d == 0 {
        '0'
    } else if d == 1 {
        '1'
    } else if d == 2 {
        '2'
    } else if d == 3 {
        '3'
    } else if d == 4 {
        '4'
    } else if d == 5 {
        '5'
    } else if d == 6 {
        '6'
    } else if d == 7 {
        '7'
    } else if d == 8 {
        '8'
    } else {
        '9'
    }
}

/// The decimal rendering of `n`, most significant digit first, no sign and
/// no leading zero except for `n == 0` itself.
pub open spec fn spec_dec(n: nat) -> Seq<char>
    decreases n,
{
    if n < 10 {
        seq![digit_char(n as int)]
    } else {
        spec_dec(n / 10).push(digit_char((n % 10) as int))
    }
}

/// The numeric value of a digit string (most significant digit first).
pub open spec fn seq_val(s: Seq<char>) -> int
    decreases s.len(),
{
    if s.len() == 0 {
        0
    } else {
        10 * seq_val(s.drop_last()) + char_digit(s.last())
    }
}

/// Whether every character of `s` is an ASCII decimal digit.
pub open spec fn all_digits(s: Seq<char>) -> bool {
    forall|i: int| 0 <= i < s.len() ==> is_digit_char(s[i])
}

pub proof fn lemma_dec_all_digits(n: nat)
    ensures
        all_digits(spec_dec(n)),
        spec_dec(n).len() >= 1,
    decreases n,
{
    if n < 10 {
        assert(is_digit_char(digit_char(n as int)));
    } else {
        lemma_dec_all_digits(n / 10);
        assert(is_digit_char(digit_char((n % 10) as int)));
    }
}

pub proof fn lemma_dec_val(n: nat)
    ensures
        seq_val(spec_dec(n)) == n,
    decreases n,
{
    if n < 10 {
        let s = seq![digit_char(n as int)];
        assert(s.drop_last() =~= Seq::<char>::empty());
        assert(seq_val(s) == 10 * seq_val(s.drop_last()) + char_digit(s.last()));
        assert(char_digit(digit_char(n as int)) == n);
    } else {
        assert(spec_dec(n) == spec_dec(n / 10).push(digit_char((n % 10) as int)));
        lemma_dec_val(n / 10);
        lemma_seq_val_push(spec_dec(n / 10), digit_char((n % 10) as int));
        assert(char_digit(digit_char((n % 10) as int)) == n % 10);
        lemma_fundamental_div_mod(n as int, 10);
    }
}

pub proof fn lemma_dec_len_le(n: nat)
    ensures
        spec_dec(n).len() <= n + 1,
    decreases n,
{
    if n >= 10 {
        lemma_dec_len_le(n / 10);
    }
}

pub proof fn lemma_seq_val_nonneg(s: Seq<char>)
    requires
        all_digits(s),
    ensures
        seq_val(s) >= 0,
    decreases s.len(),
{
    if s.len() > 0 {
        assert(all_digits(s.drop_last()));
        lemma_seq_val_nonneg(s.drop_last());
    }
}

/// The value of a prefix of a digit string never exceeds the whole value.
pub proof fn lemma_seq_val_prefix(s: Seq<char>, j: int)
    requires
        all_digits(s),
        0 <= j <= s.len(),
    ensures
        seq_val(s.take(j)) <= seq_val(s),
    decreases s.len(),
{
    if j == s.len() {
        assert(s.take(j) == s);
    } else {
        let d = s.drop_last();
        assert(all_digits(d));
        assert(d.take(j) == s.take(j));
        lemma_seq_val_prefix(d, j);
        lemma_seq_val_nonneg(d);
    }
}

/// Appending a digit multiplies the value by ten and adds the digit.
pub proof fn lemma_seq_val_push(s: Seq<char>, c: char)
    ensures
        seq_val(s.push(c)) == 10 * seq_val(s) + char_digit(c),
{
    assert(s.push(c).drop_last() == s);
}

/// The one-character string for a digit value.
pub fn digit_str(d: u8) -> (r: &'static str)
    requires
        d < 10,
    ensures
        r@.len() == 1,
        r@[0] == digit_char(d as int),
{
    proof {
        reveal_strlit("0");
        reveal_strlit("1");
        reveal_strlit("2");
        reveal_strlit("3");
        reveal_strlit("4");
        reveal_strlit("5");
        reveal_strlit("6");
        reveal_strlit("7");
        reveal_strlit("8");
        reveal_strlit("9");
    }
    match d {
        0 => "0",
        1 => "1",
        2 => "2",
        3 => "3",
        4 => "4",
        5 => "5",
        6 => "6",
        7 => "7",
        8 => "8",
        _ => "9",
    }
}

/// The decimal rendering of `n` as a string.
pub fn u32_to_dec(n: u32) -> (r: String)
    ensures
        r@ == spec_dec(n as nat),
    decreases n,
{
    if n < 10 {
        let s = String::from_str(digit_str(n as u8));
        proof {
            assert(s@ =~= spec_dec(n as nat));
        }
        s
    } else {
        let mut s = u32_to_dec(n / 10);
        s.append(digit_str((n % 10) as u8));
        proof {
            assert(s@ =~= spec_dec(n as nat));
        }
        s
    }
}

} // verus!
