//! The notation codec: serialising a skill to its compact textual notation
//! and decoding a notation string back into a skill.
//!
//! A notation is a run of digits (a flip count in quarter turns followed by
//! one twist digit per flip segment), a body-shape marker (`o` tuck, `<`
//! pike, `/` straight), an optional `f` for a forward rotation, and an
//! optional `-1` for a skill that lands in a seat drop. Decoding is
//! permissive: it fails only when the string does not contain exactly one
//! kind of shape marker, and any other malformed content degrades gracefully.

use vstd::prelude::*;

use crate::digits::{
    all_digits, char_digit, digit_char, digit_str, is_digit_char, seq_val, spec_dec, u32_to_dec,
};
use crate::difficulty::sum_halves;
use crate::skill::{BodyPart, FlipDirection, Shape, Skill, ceil_quarters, spec_next_orientation};

verus! {

/// The notation marker of a body shape, with its leading separator.
pub open spec fn spec_marker(shape: Shape) -> Seq<char> {
    match shape {
        Shape::Straight => " /"@,
        Shape::Pike => " <"@,
        Shape::Tuck => " o"@,
    }
}

/// The digit characters of a twist sequence, one digit per entry.
pub open spec fn twist_digit_chars(t: Seq<u8>) -> Seq<char> {
    t.map(|i: int, v: u8| digit_char(v as int))
}

impl Skill {
    /// The canonical notation of this skill: flip quarter-count in decimal,
    /// one digit per twist entry, the shape marker, ` f` when rotating
    /// forward, and ` -1` when landing in a seat drop.
    pub open spec fn spec_notation(self) -> Seq<char> {
        spec_dec(self.flip as nat) + twist_digit_chars(self.twist@) + spec_marker(self.shape) + (
        if self.direction == FlipDirection::Forward {
            " f"@
        } else {
            Seq::<char>::empty()
        }) + (if self.to == BodyPart::Seat {
            " -1"@
        } else {
            Seq::<char>::empty()
        })
    }

    /// The canonical cached edit text: the digit run, the shape marker, and
    /// ` f` when rotating forward.
    pub open spec fn spec_edit_text(self) -> Seq<char> {
        spec_dec(self.flip as nat) + twist_digit_chars(self.twist@) + spec_marker(self.shape) + (
        if self.direction == FlipDirection::Forward {
            " f"@
        } else {
            Seq::<char>::empty()
        })
    }

    /// A structurally valid skill: one twist entry per begun flip segment,
    /// every twist entry small enough for one digit, a landing orientation
    /// that is either the forced seat drop or the one the orientation model
    /// derives, and a cached edit text in its canonical form.
    pub open spec fn is_valid(self) -> bool {
        &&& self.twist@.len() == ceil_quarters(self.flip as int)
        &&& (forall|i: int| 0 <= i < self.twist@.len() ==> self.twist@[i] <= 9)
        &&& (self.to == BodyPart::Seat || self.to == spec_next_orientation(
            self.from,
            self.flip as int % 4,
            self.direction,
            sum_halves(self.twist@),
        ))
        &&& self.edit_text@ == self.spec_edit_text()
    }

    /// Serialise this skill to its canonical notation. Each twist entry must
    /// fit a single digit.
    pub fn notation(&self) -> (r: String)
        requires
            forall|i: int| 0 <= i < self.twist@.len() ==> self.twist@[i] <= 9,
        ensures
            r@ == self.spec_notation(),
    {
        let mut r = u32_to_dec(self.flip);
        let ghost dec_part = spec_dec(self.flip as nat);
        let mut i: usize = 0;
        proof {
            assert(twist_digit_chars(self.twist@.take(0)) =~= Seq::<char>::empty());
            assert(r@ =~= dec_part + twist_digit_chars(self.twist@.take(0)));
        }
        while i < self.twist.len()
            invariant
                0 <= i <= self.twist@.len(),
                forall|j: int| 0 <= j < self.twist@.len() ==> self.twist@[j] <= 9,
                r@ == dec_part + twist_digit_chars(self.twist@.take(i as int)),
                dec_part == spec_dec(self.flip as nat),
            decreases self.twist@.len() - i,
        {
            let d = self.twist[i];
            r.append(digit_str(d));
            proof {
                assert(twist_digit_chars(self.twist@.take(i + 1)) =~= twist_digit_chars(
                    self.twist@.take(i as int),
                ).push(digit_char(d as int)));
                assert(r@ =~= dec_part + twist_digit_chars(self.twist@.take(i + 1)));
            }
            i = i + 1;
        }
        proof {
            assert(self.twist@.take(self.twist@.len() as int) =~= self.twist@);
        }
        match self.shape {
            Shape::Straight => r.append(" /"),
            Shape::Pike => r.append(" <"),
            Shape::Tuck => r.append(" o"),
        }
        if let FlipDirection::Forward = self.direction {
            r.append(" f");
        }
        if let BodyPart::Seat = self.to {
            r.append(" -1");
        }
        proof {
            assert(r@ =~= self.spec_notation());
        }
        r
    }
}

/// Whether the notation contains exactly one kind of shape marker; decoding
/// succeeds exactly on such strings.
pub open spec fn spec_decode_ok(n: Seq<char>) -> bool {
    let o = n.contains('o');
    let p = n.contains('<');
    let sl = n.contains('/');
    (o && !p && !sl) || (!o && p && !sl) || (!o && !p && sl)
}

/// The shape read from the notation's marker.
pub open spec fn spec_decode_shape(n: Seq<char>) -> Shape {
    if n.contains('o') {
        Shape::Tuck
    } else if n.contains('<') {
        Shape::Pike
    } else {
        Shape::Straight
    }
}

/// Forward exactly when the letter `f` occurs anywhere in the notation.
pub open spec fn spec_decode_direction(n: Seq<char>) -> FlipDirection {
    if n.contains('f') {
        FlipDirection::Forward
    } else {
        FlipDirection::Backward
    }
}

/// Whether the notation contains the seat-drop marker `-1`.
pub open spec fn spec_has_seat(n: Seq<char>) -> bool {
    exists|i: int| 0 <= i && i + 1 < n.len() && #[trigger] n[i] == '-' && n[i + 1] == '1'
}

/// The notation's digit run: every `-1` pair is removed first, then every
/// remaining non-digit character is discarded.
pub open spec fn strip_digits(s: Seq<char>) -> Seq<char>
    decreases s.len(),
{
    if s.len() == 0 {
        Seq::<char>::empty()
    } else if s[0] == '-' && s.len() >= 2 && s[1] == '1' {
        strip_digits(s.skip(2))
    } else if is_digit_char(s[0]) {
        seq![s[0]] + strip_digits(s.skip(1))
    } else {
        strip_digits(s.skip(1))
    }
}

proof fn lemma_strip_digits_len(s: Seq<char>)
    ensures
        strip_digits(s).len() <= s.len(),
    decreases s.len(),
{
    if s.len() == 0 {
    } else if s[0] == '-' && s.len() >= 2 && s[1] == '1' {
        lemma_strip_digits_len(s.skip(2));
    } else if is_digit_char(s[0]) {
        lemma_strip_digits_len(s.skip(1));
    } else {
        lemma_strip_digits_len(s.skip(1));
    }
}

proof fn lemma_strip_digits_all_digits(s: Seq<char>)
    ensures
        all_digits(strip_digits(s)),
    decreases s.len(),
{
    if s.len() == 0 {
    } else if s[0] == '-' && s.len() >= 2 && s[1] == '1' {
        lemma_strip_digits_all_digits(s.skip(2));
    } else if is_digit_char(s[0]) {
        lemma_strip_digits_all_digits(s.skip(1));
    } else {
        lemma_strip_digits_all_digits(s.skip(1));
    }
}

/// The value a 32-bit signed parse gives to a digit string of value `v`: the
/// value itself while it fits, and zero (the parse failure fallback) beyond.
pub open spec fn clip_parse(v: int) -> int {
    if v <= 2147483647 {
        v
    } else {
        0
    }
}

/// The flip-count candidate read at position `i`: the parsed value of the
/// digit prefix up to and including position `i`.
pub open spec fn potential_at(d: Seq<char>, i: int) -> int {
    clip_parse(seq_val(d.take(i + 1)))
}

/// The greedy-scan acceptance bound at position `i`: four times the number
/// of remaining digits (position `i` included), or the sentinel -1 where
/// that does not fit a 32-bit signed value.
pub open spec fn bound_at(d: Seq<char>, i: int) -> int {
    if 4 * (d.len() - i) <= 2147483647 {
        4 * (d.len() - i)
    } else {
        -1
    }
}

/// The greedy flip-count scan from position `i` with current candidate
/// `num`: walk right while the growing prefix value stays within the bound,
/// and report how many digits were consumed together with the last accepted
/// candidate.
pub open spec fn scan_from(d: Seq<char>, i: nat, num: int) -> (nat, int)
    decreases d.len() - i,
{
    if i >= d.len() {
        (d.len(), num)
    } else if potential_at(d, i as int) > bound_at(d, i as int) {
        ((i + 1) as nat, num)
    } else {
        scan_from(d, i + 1, potential_at(d, i as int))
    }
}

/// Digits consumed by the flip-count scan. A single-digit run is all twist:
/// nothing is consumed.
pub open spec fn spec_consumed(d: Seq<char>) -> nat {
    if d.len() == 1 {
        0
    } else {
        scan_from(d, 0, 0).0
    }
}

/// The flip count, in quarter turns, read from the digit run `d`.
pub open spec fn spec_flip_count(d: Seq<char>) -> int {
    if d.len() == 1 {
        0
    } else {
        scan_from(d, 0, 0).1
    }
}

/// Where the twist digits start inside the digit run.
pub open spec fn spec_skip_count(d: Seq<char>) -> int {
    if spec_consumed(d) == 0 {
        0
    } else {
        spec_consumed(d) - 1
    }
}

/// The flip count, in quarter turns, decoded from the notation `n`.
pub open spec fn spec_decode_flip(n: Seq<char>) -> int {
    spec_flip_count(strip_digits(n))
}

/// The twist sequence, in half-turn units, decoded from the notation `n`.
pub open spec fn spec_decode_twist(n: Seq<char>) -> Seq<u8> {
    let d = strip_digits(n);
    d.skip(spec_skip_count(d)).map(|i: int, c: char| char_digit(c) as u8)
}

/// The landing orientation decoded from the notation `n` for a takeoff from
/// `from`: the seat drop when marked, else the orientation model applied to
/// the fractional part of the flip and the total twist.
pub open spec fn spec_decode_to(n: Seq<char>, from: BodyPart) -> BodyPart {
    if spec_has_seat(n) {
        BodyPart::Seat
    } else {
        spec_next_orientation(
            from,
            spec_decode_flip(n) % 4,
            spec_decode_direction(n),
            sum_halves(spec_decode_twist(n)),
        )
    }
}

/// The canonical edit text rebuilt while decoding `n`.
pub open spec fn spec_decode_edit(n: Seq<char>) -> Seq<char> {
    strip_digits(n) + spec_marker(spec_decode_shape(n)) + (if spec_decode_direction(n)
        == FlipDirection::Forward {
        " f"@
    } else {
        Seq::<char>::empty()
    })
}

/// `sk` is exactly the skill that decoding `n` with takeoff `from` yields.
pub open spec fn is_decoding_of(sk: Skill, n: Seq<char>, from: BodyPart) -> bool {
    &&& sk.flip == spec_decode_flip(n)
    &&& sk.from == from
    &&& sk.to == spec_decode_to(n, from)
    &&& sk.twist@ == spec_decode_twist(n)
    &&& sk.shape == spec_decode_shape(n)
    &&& sk.direction == spec_decode_direction(n)
    &&& sk.edit_text@ == spec_decode_edit(n)
}

/// Whether the character `c` occurs in `s`.
fn contains_char(s: &str, c: char) -> (r: bool)
    ensures
        r == s@.contains(c),
{
    let len = s.unicode_len();
    let mut i: usize = 0;
    while i < len
        invariant
            0 <= i <= len,
            len == s@.len(),
            forall|j: int| 0 <= j < i ==> s@[j] != c,
        decreases len - i,
    {
        if s.get_char(i) == c {
            proof {
                assert(s@.contains(c)) by {
                    assert(s@[i as int] == c);
                }
            }
            return true;
        }
        i = i + 1;
    }
    false
}

/// Whether the two-character seat-drop marker `-1` occurs in `s`.
fn contains_seat_marker(s: &str) -> (r: bool)
    ensures
        r == spec_has_seat(s@),
{
    let len = s.unicode_len();
    if len < 2 {
        return false;
    }
    let mut i: usize = 0;
    while i < len - 1
        invariant
            0 <= i <= len - 1,
            2 <= len == s@.len(),
            forall|j: int| 0 <= j < i ==> !(#[trigger] s@[j] == '-' && s@[j + 1] == '1'),
        decreases len - i,
    {
        if s.get_char(i) == '-' && s.get_char(i + 1) == '1' {
            proof {
                assert(spec_has_seat(s@)) by {
                    assert(s@[i as int] == '-' && s@[i as int + 1] == '1');
                }
            }
            return true;
        }
        i = i + 1;
    }
    false
}

/// An ASCII digit character is recovered from its numeric value.
proof fn lemma_digit_char_of_value(c: char)
    requires
        is_digit_char(c),
    ensures
        digit_char(char_digit(c)) == c,
{
}

/// The digit run of `s`, as text and as one numeric value per digit.
fn extract_digits(s: &str) -> (r: (String, Vec<u8>))
    ensures
        r.0@ == strip_digits(s@),
        r.1@ == strip_digits(s@).map(|i: int, c: char| char_digit(c) as u8),
{
    let ghost n = s@;
    let len = s.unicode_len();
    let mut digits = String::new();
    let mut dvals: Vec<u8> = Vec::new();
    let mut i: usize = 0;
    proof {
        assert(n.skip(0) =~= n);
    }
    while i < len
        invariant
            0 <= i <= len,
            len == n.len(),
            s@ == n,
            strip_digits(n) == digits@ + strip_digits(n.skip(i as int)),
            dvals@.len() == digits@.len(),
            forall|j: int|
                0 <= j < digits@.len() ==> is_digit_char(#[trigger] digits@[j]) && dvals@[j]
                    == char_digit(digits@[j]) as u8,
        decreases len - i,
    {
        let c = s.get_char(i);
        let ghost rest = n.skip(i as int);
        proof {
            assert(rest[0] == n[i as int]);
            assert(rest.len() == len - i);
            if i + 1 < len {
                assert(rest[1] == n[i as int + 1]);
            }
        }
        if c == '-' && i + 1 < len && s.get_char(i + 1) == '1' {
            proof {
                assert(rest.skip(2) =~= n.skip(i as int + 2));
            }
            i = i + 2;
        } else {
            let cv = c as u32;
            if 48 <= cv && cv <= 57 {
                let v = (cv - 48) as u8;
                proof {
                    assert(is_digit_char(c));
                    assert(char_digit(c) == v as int);
                    lemma_digit_char_of_value(c);
                    assert(rest.skip(1) =~= n.skip(i as int + 1));
                    assert(strip_digits(rest) == seq![c] + strip_digits(n.skip(i as int + 1)));
                }
                dvals.push(v);
                digits.append(digit_str(v));
                proof {
                    assert(strip_digits(n) =~= digits@ + strip_digits(n.skip(i as int + 1)));
                }
            } else {
                proof {
                    assert(!is_digit_char(c));
                    assert(rest.skip(1) =~= n.skip(i as int + 1));
                }
            }
            i = i + 1;
        }
    }
    proof {
        assert(n.skip(len as int) =~= Seq::<char>::empty());
        assert(strip_digits(n) =~= digits@);
        assert(dvals@ =~= strip_digits(n).map(|j: int, c: char| char_digit(c) as u8));
    }
    (digits, dvals)
}

/// The greedy flip-count scan over the digit run: how many digits the
/// flip-count prefix takes and the flip count they parse to, including the
/// rule that a single-digit run is all twist.
fn scan_flip_count(dvals: &Vec<u8>, Ghost(dseq): Ghost<Seq<char>>) -> (r: (usize, u32))
    requires
        all_digits(dseq),
        dvals@ == dseq.map(|i: int, c: char| char_digit(c) as u8),
    ensures
        r.0 == spec_consumed(dseq),
        r.1 == spec_flip_count(dseq),
        r.0 <= dvals@.len(),
{
    let dlen = dvals.len();
    let mut num: u32 = 0;
    let mut val: u64 = 0;
    let mut of: bool = false;
    let mut consumed: usize = dlen;
    let mut broke: bool = false;
    let mut i: usize = 0;
    proof {
        assert(dseq.take(0) =~= Seq::<char>::empty());
    }
    while i < dlen && !broke
        invariant
            0 <= i <= dlen,
            dlen == dseq.len(),
            dvals@ == dseq.map(|j: int, c: char| char_digit(c) as u8),
            all_digits(dseq),
            num <= 2147483647,
            !broke ==> {
                &&& scan_from(dseq, 0, 0) == scan_from(dseq, i as nat, num as int)
                &&& consumed == dlen
                &&& (!of ==> val == seq_val(dseq.take(i as int)) && val <= 2147483647)
                &&& (of ==> seq_val(dseq.take(i as int)) > 2147483647)
            },
            broke ==> scan_from(dseq, 0, 0) == ((consumed as nat, num as int)) && consumed <= dlen,
        decreases dlen - i + (if broke {
            0int
        } else {
            1
        }),
    {
        let ghost prefix = dseq.take(i as int);
        let ghost prefix2 = dseq.take(i as int + 1);
        proof {
            assert(prefix2 =~= prefix.push(dseq[i as int]));
            crate::digits::lemma_seq_val_push(prefix, dseq[i as int]);
            assert(all_digits(prefix));
            crate::digits::lemma_seq_val_nonneg(prefix);
            assert(is_digit_char(dseq[i as int]));
            assert(0 <= char_digit(dseq[i as int]) <= 9);
            assert(dvals@[i as int] == char_digit(dseq[i as int]) as u8);
        }
        let di = dvals[i] as u64;
        if !of {
            let v2: u64 = val * 10 + di;
            if v2 > 2147483647 {
                of = true;
            } else {
                val = v2;
            }
        }
        let p: i64 = if of {
            0
        } else {
            val as i64
        };
        proof {
            assert(p == potential_at(dseq, i as int));
        }
        let remaining: usize = dlen - i;
        let b: i64 = if remaining <= 536870911 {
            4 * (remaining as i64)
        } else {
            -1i64
        };
        proof {
            assert(b == bound_at(dseq, i as int));
        }
        if p > b {
            consumed = i + 1;
            broke = true;
            proof {
                assert(scan_from(dseq, i as nat, num as int) == (((i + 1) as nat, num as int)));
            }
        } else {
            proof {
                assert(scan_from(dseq, i as nat, num as int) == scan_from(
                    dseq,
                    (i + 1) as nat,
                    potential_at(dseq, i as int),
                ));
            }
            num = p as u32;
            i = i + 1;
        }
    }
    proof {
        if !broke {
            assert(scan_from(dseq, dlen as nat, num as int) == ((dlen as nat, num as int)));
        }
        assert(scan_from(dseq, 0, 0) == ((consumed as nat, num as int)));
    }
    if dlen == 1 {
        num = 0;
        consumed = 0;
    }
    (consumed, num)
}

/// The parity, in half-turn units, of a total twist.
fn twist_parity(t: &Vec<u8>) -> (p: u64)
    ensures
        p == sum_halves(t@) % 2,
        p <= 1,
{
    let mut par: u64 = 0;
    let mut k: usize = 0;
    proof {
        assert(t@.take(0) =~= Seq::<u8>::empty());
    }
    while k < t.len()
        invariant
            0 <= k <= t@.len(),
            par == sum_halves(t@.take(k as int)) % 2,
        decreases t@.len() - k,
    {
        proof {
            assert(t@.take(k as int + 1).drop_last() =~= t@.take(k as int));
            assert(t@.take(k as int + 1).last() == t@[k as int]);
            let sum_k = sum_halves(t@.take(k as int));
            let x = t@[k as int] as int;
            crate::difficulty::lemma_sum_halves_bound(t@.take(k as int));
            vstd::arithmetic::div_mod::lemma_fundamental_div_mod(sum_k, 2);
            vstd::arithmetic::div_mod::lemma_mod_multiples_vanish(sum_k / 2, sum_k % 2 + x, 2);
        }
        par = (par + t[k] as u64) % 2;
        k = k + 1;
    }
    proof {
        assert(t@.take(t@.len() as int) =~= t@);
    }
    par
}

impl Skill {
    /// Decode a notation string into a skill taking off from `from`.
    ///
    /// Returns nothing exactly when the string does not contain exactly one
    /// kind of shape marker; every other input decodes permissively.
    pub fn from_notation(notation: String, from: BodyPart) -> (r: Option<Skill>)
        ensures
            r is Some <==> spec_decode_ok(notation@),
            r matches Some(sk) ==> is_decoding_of(sk, notation@, from),
            r matches Some(sk) ==> forall|i: int|
                0 <= i < sk.twist@.len() ==> #[trigger] sk.twist@[i] <= 9,
            r matches Some(sk) ==> sk.twist@.len() <= notation@.len(),
    {
        let ghost n = notation@;
        let s = notation.as_str();
        let has_o = contains_char(s, 'o');
        let has_p = contains_char(s, '<');
        let has_sl = contains_char(s, '/');
        let shape: Shape = if has_o && !has_p && !has_sl {
            Shape::Tuck
        } else if !has_o && has_p && !has_sl {
            Shape::Pike
        } else if !has_o && !has_p && has_sl {
            Shape::Straight
        } else {
            return None;
        };
        let forwards = contains_char(s, 'f');
        let seat = contains_seat_marker(s);
        let direction = if forwards {
            FlipDirection::Forward
        } else {
            FlipDirection::Backward
        };

        let (digits, dvals) = extract_digits(s);
        let ghost dseq = strip_digits(n);
        proof {
            lemma_strip_digits_all_digits(n);
        }
        let (consumed, num) = scan_flip_count(&dvals, Ghost(dseq));
        let skipn: usize = if consumed == 0 {
            0
        } else {
            consumed - 1
        };

        // The digits after the consumed flip-count prefix are the twist
        // amounts, one half-turn unit per digit value.
        let dlen = dvals.len();
        let mut twist: Vec<u8> = Vec::new();
        let mut j: usize = skipn;
        while j < dlen
            invariant
                skipn <= j <= dlen,
                dlen == dvals@.len(),
                twist@ =~= dvals@.subrange(skipn as int, j as int),
            decreases dlen - j,
        {
            twist.push(dvals[j]);
            j = j + 1;
        }
        proof {
            assert(twist@ =~= spec_decode_twist(n)) by {
                assert(twist@ =~= dvals@.subrange(skipn as int, dlen as int));
                assert(skipn as int == spec_skip_count(dseq));
                let expected = dseq.skip(spec_skip_count(dseq)).map(
                    |k: int, c: char| char_digit(c) as u8,
                );
                assert forall|k: int| 0 <= k < expected.len() implies expected[k] == twist@[k] by {
                    assert(dseq.skip(skipn as int)[k] == dseq[skipn + k]);
                }
                assert(expected.len() == twist@.len());
            }
        }

        proof {
            lemma_strip_digits_len(n);
        }

        // Only the parity of the total twist affects the orientation model.
        let par = twist_parity(&twist);
        let to: BodyPart = if seat {
            BodyPart::Seat
        } else {
            let r = from.add(num % 4, direction, par);
            proof {
                let total = sum_halves(twist@);
                crate::difficulty::lemma_sum_halves_bound(twist@);
                assert(par as int % 2 == total % 2);
                assert(crate::skill::spec_effective_direction(direction, par as int)
                    == crate::skill::spec_effective_direction(direction, total));
            }
            r
        };
        proof {
            assert(to == spec_decode_to(n, from));
        }

        // The canonical edit text: the digit run, the marker, and the
        // forward flag.
        let mut edit_text = digits;
        match shape {
            Shape::Straight => edit_text.append(" /"),
            Shape::Pike => edit_text.append(" <"),
            Shape::Tuck => edit_text.append(" o"),
        }
        if forwards {
            edit_text.append(" f");
        }
        proof {
            assert(shape == spec_decode_shape(n));
            assert(edit_text@ =~= spec_decode_edit(n));
        }

        Some(
            Skill {
                flip: num,
                from,
                to,
                twist,
                shape,
                direction,
                edit_text,
            },
        )
    }
}

impl Skill {
    /// Keep one twist entry per begun flip segment, as interactive edits of
    /// the flip count require: surplus entries are dropped from the end and
    /// missing ones are added as zero twists.
    pub fn resize_twist(&mut self)
        ensures
            final(self).twist@.len() == ceil_quarters(final(self).flip as int),
            final(self).flip == old(self).flip,
            final(self).from == old(self).from,
            final(self).to == old(self).to,
            final(self).shape == old(self).shape,
            final(self).direction == old(self).direction,
            final(self).edit_text == old(self).edit_text,
            forall|i: int|
                0 <= i < final(self).twist@.len() && i < old(self).twist@.len()
                    ==> final(self).twist@[i] == old(self).twist@[i],
            forall|i: int|
                old(self).twist@.len() <= i < final(self).twist@.len() ==> final(self).twist@[i]
                    == 0,
    {
        let target: usize = (self.flip / 4 + if self.flip % 4 == 0 {
            0
        } else {
            1
        }) as usize;
        proof {
            assert(target == ceil_quarters(self.flip as int));
        }
        if self.twist.len() > target {
            while self.twist.len() > target
                invariant
                    target <= self.twist@.len() <= old(self).twist@.len(),
                    self.flip == old(self).flip,
                    self.from == old(self).from,
                    self.to == old(self).to,
                    self.shape == old(self).shape,
                    self.direction == old(self).direction,
                    self.edit_text == old(self).edit_text,
                    forall|i: int|
                        0 <= i < self.twist@.len() ==> self.twist@[i] == old(self).twist@[i],
                decreases self.twist@.len(),
            {
                self.twist.pop();
            }
        } else {
            while self.twist.len() < target
                invariant
                    old(self).twist@.len() <= self.twist@.len() <= target,
                    self.flip == old(self).flip,
                    self.from == old(self).from,
                    self.to == old(self).to,
                    self.shape == old(self).shape,
                    self.direction == old(self).direction,
                    self.edit_text == old(self).edit_text,
                    forall|i: int|
                        0 <= i < old(self).twist@.len() ==> self.twist@[i] == old(self).twist@[i],
                    forall|i: int|
                        old(self).twist@.len() <= i < self.twist@.len() ==> self.twist@[i] == 0,
                decreases target - self.twist@.len(),
            {
                self.twist.push(0);
            }
        }
    }

    /// Re-serialise the structured fields into the cached edit text, as an
    /// editor must after every structural mutation. Each twist entry must
    /// fit a single digit.
    pub fn refresh_edit_text(&mut self)
        requires
            forall|i: int| 0 <= i < old(self).twist@.len() ==> old(self).twist@[i] <= 9,
        ensures
            final(self).edit_text@ == old(self).spec_notation(),
            final(self).flip == old(self).flip,
            final(self).from == old(self).from,
            final(self).to == old(self).to,
            final(self).twist == old(self).twist,
            final(self).shape == old(self).shape,
            final(self).direction == old(self).direction,
    {
        let text = self.notation();
        self.edit_text = text;
    }
}

} // verus!
