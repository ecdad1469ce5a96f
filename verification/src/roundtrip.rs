//! The codec's central law: decoding the canonical notation of a valid
//! skill recovers the skill exactly.

use vstd::prelude::*;

use crate::digits::{
    all_digits, char_digit, digit_char, is_digit_char, lemma_dec_all_digits, lemma_dec_len_le,
    lemma_dec_val, lemma_seq_val_nonneg, lemma_seq_val_prefix, lemma_seq_val_push, seq_val,
    spec_dec,
};
use crate::skill::{BodyPart, FlipDirection, Shape, Skill};
use crate::codec::{
    bound_at, is_decoding_of, potential_at, scan_from, spec_consumed, spec_decode_direction,
    spec_decode_edit, spec_decode_flip, spec_decode_ok, spec_decode_shape, spec_decode_to,
    spec_decode_twist, spec_flip_count, spec_has_seat, spec_marker, spec_skip_count, strip_digits,
    twist_digit_chars,
};

verus! {

/// A character occurs in a concatenation exactly when it occurs in a part.
proof fn lemma_contains_concat(a: Seq<char>, b: Seq<char>, c: char)
    ensures
        (a + b).contains(c) <==> a.contains(c) || b.contains(c),
{
    if a.contains(c) {
        let i = choose|i: int| 0 <= i < a.len() && a[i] == c;
        assert((a + b)[i] == c);
    }
    if b.contains(c) {
        let i = choose|i: int| 0 <= i < b.len() && b[i] == c;
        assert((a + b)[a.len() + i] == c);
    }
    if (a + b).contains(c) {
        let i = choose|i: int| 0 <= i < (a + b).len() && (a + b)[i] == c;
        if i < a.len() {
            assert(a[i] == c);
        } else {
            assert(b[i - a.len()] == c);
        }
    }
}

/// A digit run contains no non-digit character.
proof fn lemma_digits_not_contains(a: Seq<char>, c: char)
    requires
        all_digits(a),
        !is_digit_char(c),
    ensures
        !a.contains(c),
{
}

/// Stripping starts by passing over a leading character that is neither a
/// digit nor the start of a `-1` pair.
proof fn lemma_strip_skip_one(s: Seq<char>)
    requires
        s.len() >= 1,
        !is_digit_char(s[0]),
        !(s[0] == '-' && s.len() >= 2 && s[1] == '1'),
    ensures
        strip_digits(s) == strip_digits(s.skip(1)),
{
}

/// Stripping removes a leading `-1` pair.
proof fn lemma_strip_skip_pair(s: Seq<char>)
    requires
        s.len() >= 2,
        s[0] == '-',
        s[1] == '1',
    ensures
        strip_digits(s) == strip_digits(s.skip(2)),
{
}

/// Stripping passes an all-digit prefix through unchanged.
proof fn lemma_strip_digit_prefix(a: Seq<char>, b: Seq<char>)
    requires
        all_digits(a),
    ensures
        strip_digits(a + b) == a + strip_digits(b),
    decreases a.len(),
{
    if a.len() == 0 {
        assert(a + b =~= b);
        assert(a + strip_digits(b) =~= strip_digits(b));
    } else {
        let m = a + b;
        assert(m[0] == a[0]);
        assert(is_digit_char(m[0]));
        assert(m.len() >= 1);
        assert(strip_digits(m) == seq![m[0]] + strip_digits(m.skip(1)));
        assert(m.skip(1) =~= a.skip(1) + b);
        assert(all_digits(a.skip(1)));
        lemma_strip_digit_prefix(a.skip(1), b);
        assert(seq![a[0]] + (a.skip(1) + strip_digits(b)) =~= a + strip_digits(b));
    }
}

/// Stripping removes a two-character block of a space and one further
/// non-digit, non-`-` character.
proof fn lemma_strip_space_block(c: char, rest: Seq<char>)
    requires
        !is_digit_char(c),
        c != '-',
    ensures
        strip_digits(seq![' ', c] + rest) == strip_digits(rest),
{
    let m = seq![' ', c] + rest;
    assert(m[0] == ' ');
    assert(!is_digit_char(' '));
    lemma_strip_skip_one(m);
    assert(m.skip(1) =~= seq![c] + rest);
    let m1 = seq![c] + rest;
    assert(m1[0] == c);
    if m1.len() >= 2 {
        assert(!(m1[0] == '-' && m1.len() >= 2 && m1[1] == '1'));
    }
    lemma_strip_skip_one(m1);
    assert(m1.skip(1) =~= rest);
}

/// Stripping removes a trailing seat marker.
proof fn lemma_strip_seat(rest: Seq<char>)
    ensures
        strip_digits(" -1"@ + rest) == strip_digits(rest),
{
    reveal_strlit(" -1");
    let m = " -1"@ + rest;
    assert(m[0] == ' ');
    lemma_strip_skip_one(m);
    assert(m.skip(1) =~= seq!['-', '1'] + rest);
    let m1 = seq!['-', '1'] + rest;
    assert(m1[0] == '-' && m1[1] == '1');
    lemma_strip_skip_pair(m1);
    assert(m1.skip(2) =~= rest);
}

/// The marker, forward flag and seat flag leave no digit behind.
proof fn lemma_strip_marker_suffix(sh: Shape, fwd: bool, seat: bool)
    ensures
        strip_digits(
            spec_marker(sh) + (if fwd {
                " f"@
            } else {
                Seq::<char>::empty()
            }) + (if seat {
                " -1"@
            } else {
                Seq::<char>::empty()
            }),
        ) == Seq::<char>::empty(),
{
    reveal_strlit(" /");
    reveal_strlit(" <");
    reveal_strlit(" o");
    reveal_strlit(" f");
    reveal_strlit(" -1");
    let fpart: Seq<char> = if fwd {
        " f"@
    } else {
        Seq::<char>::empty()
    };
    let spart: Seq<char> = if seat {
        " -1"@
    } else {
        Seq::<char>::empty()
    };
    let mc: char = match sh {
        Shape::Straight => '/',
        Shape::Pike => '<',
        Shape::Tuck => 'o',
    };
    assert(spec_marker(sh) =~= seq![' ', mc]);
    assert(spec_marker(sh) + fpart + spart =~= seq![' ', mc] + (fpart + spart));
    assert(!is_digit_char(mc) && mc != '-');
    lemma_strip_space_block(mc, fpart + spart);
    if fwd {
        assert(fpart + spart =~= seq![' ', 'f'] + spart);
        assert(!is_digit_char('f') && 'f' != '-');
        lemma_strip_space_block('f', spart);
    } else {
        assert(fpart + spart =~= spart);
    }
    if seat {
        assert(spart =~= " -1"@ + Seq::<char>::empty());
        lemma_strip_seat(Seq::<char>::empty());
    }
    assert(strip_digits(Seq::<char>::empty()) =~= Seq::<char>::empty());
}

/// The greedy scan, started anywhere before the first over-bound position
/// `k`, runs up to `k`, breaks there, and reports the candidate accepted
/// just before `k`.
proof fn lemma_scan_to_break(d: Seq<char>, i: nat, num: int, k: int)
    requires
        0 < k < d.len(),
        i <= k,
        forall|j: int| i <= j < k ==> potential_at(d, j) <= #[trigger] bound_at(d, j),
        potential_at(d, k) > bound_at(d, k),
        num == if i == 0 {
            0int
        } else {
            potential_at(d, i as int - 1)
        },
    ensures
        scan_from(d, i, num) == (((k + 1) as nat, potential_at(d, k - 1))),
    decreases k - i,
{
    if i == k as nat {
        assert(scan_from(d, i, num) == (((i + 1) as nat, num)));
    } else {
        assert(potential_at(d, i as int) <= bound_at(d, i as int));
        lemma_scan_to_break(d, i + 1, potential_at(d, i as int), k);
    }
}

/// Scanning the digit run of a canonical notation (the decimal flip count
/// `q` followed by one twist digit per flip segment) consumes the flip
/// count plus one digit and yields exactly `q`.
proof fn lemma_scan_of_encoded(q: nat, t: Seq<char>)
    requires
        1 <= q <= 214748363,
        all_digits(t),
        q <= 4 * t.len(),
        4 * t.len() <= q + 3,
        t.len() >= 1,
    ensures
        scan_from(spec_dec(q) + t, 0, 0) == (((spec_dec(q).len() + 1) as nat, q as int)),
{
    let a = spec_dec(q);
    let d = a + t;
    let k = a.len() as int;
    let tl = t.len() as int;
    lemma_dec_all_digits(q);
    lemma_dec_val(q);
    lemma_dec_len_le(q);
    assert(k >= 1);

    assert forall|j: int| 0 <= j < k implies potential_at(d, j) <= #[trigger] bound_at(d, j) by {
        assert(d.take(j + 1) =~= a.take(j + 1));
        lemma_seq_val_prefix(a, j + 1);
        assert(all_digits(a.take(j + 1)));
        lemma_seq_val_nonneg(a.take(j + 1));
        let v = seq_val(a.take(j + 1));
        assert(0 <= v <= q);
        assert(potential_at(d, j) == v);
        assert(d.len() - j == k + tl - j);
        assert(4 * (k + tl - j) <= 4 * k + 4 * tl);
        assert(4 * k <= 4 * (q + 1));
        assert(4 * (d.len() - j) <= 5 * q + 7 < 2147483647);
        assert(bound_at(d, j) == 4 * (d.len() - j));
        assert(4 * (d.len() - j) >= 4 * tl + 4);
        assert(v <= q <= 4 * tl);
    }

    assert(d.take(k + 1) =~= a.push(t[0]));
    lemma_seq_val_push(a, t[0]);
    assert(is_digit_char(t[0]));
    let cd = char_digit(t[0]);
    assert(0 <= cd <= 9);
    assert(seq_val(d.take(k + 1)) == 10 * q + cd);
    assert(10 * q + cd <= 2147483647);
    assert(potential_at(d, k) == 10 * q + cd);
    assert(d.len() - k == tl);
    assert(4 * tl <= q + 3 < 2147483647);
    assert(bound_at(d, k) == 4 * tl);
    assert(10 * q + cd > 4 * tl);

    assert(d.take(k) =~= a);
    assert(potential_at(d, k - 1) == q);

    lemma_scan_to_break(d, 0, 0, k);
}

/// A twist digit's numeric value is recovered from its character.
proof fn lemma_char_digit_of_digit(v: u8)
    requires
        v <= 9,
    ensures
        char_digit(digit_char(v as int)) == v as int,
        is_digit_char(digit_char(v as int)),
{
}

/// A non-digit character occurs in a notation made of a digit run and the
/// three marker parts exactly when it occurs in one of the marker parts.
proof fn lemma_marker_letter_occurrence(
    digits: Seq<char>,
    mpart: Seq<char>,
    fpart: Seq<char>,
    spart: Seq<char>,
    c: char,
)
    requires
        all_digits(digits),
        !is_digit_char(c),
    ensures
        (digits + (mpart + fpart + spart)).contains(c) <==> mpart.contains(c) || fpart.contains(c)
            || spart.contains(c),
{
    let suffix = mpart + fpart + spart;
    lemma_digits_not_contains(digits, c);
    lemma_contains_concat(digits, suffix, c);
    lemma_contains_concat(mpart, fpart, c);
    lemma_contains_concat(mpart + fpart, spart, c);
    assert(suffix =~= (mpart + fpart) + spart);
}

/// Decoding the canonical notation of a valid skill with at least a quarter
/// somersault recovers every field of the skill: the round-trip law of the
/// codec. (A pure jump serialises to a lone `0` digit, which the permissive
/// decoder reads back as a single zero twist entry rather than an empty
/// twist list, and a flip count beyond what a 32-bit parse can extend by
/// one digit is misread; those inputs are excluded.)
pub proof fn lemma_notation_round_trip(s: Skill)
    requires
        s.is_valid(),
        1 <= s.flip <= 214748363,
    ensures
        spec_decode_ok(s.spec_notation()),
        is_decoding_of(s, s.spec_notation(), s.from),
{
    reveal_strlit(" /");
    reveal_strlit(" <");
    reveal_strlit(" o");
    reveal_strlit(" f");
    reveal_strlit(" -1");
    let q = s.flip as nat;
    let a = spec_dec(q);
    let t = twist_digit_chars(s.twist@);
    let fwd = s.direction == FlipDirection::Forward;
    let seat = s.to == BodyPart::Seat;
    let mpart = spec_marker(s.shape);
    let fpart: Seq<char> = if fwd {
        " f"@
    } else {
        Seq::<char>::empty()
    };
    let spart: Seq<char> = if seat {
        " -1"@
    } else {
        Seq::<char>::empty()
    };
    let n = s.spec_notation();
    let suffix = mpart + fpart + spart;
    assert(n =~= (a + t) + suffix);
    let mc: char = match s.shape {
        Shape::Straight => '/',
        Shape::Pike => '<',
        Shape::Tuck => 'o',
    };
    assert(mpart =~= seq![' ', mc]);

    // The twist digits are digits, and there is one per flip segment.
    assert(all_digits(t)) by {
        assert forall|i: int| 0 <= i < t.len() implies is_digit_char(t[i]) by {
            lemma_char_digit_of_digit(s.twist@[i]);
        }
    }
    let tl = t.len() as int;
    assert(tl == crate::skill::ceil_quarters(q as int));
    vstd::arithmetic::div_mod::lemma_fundamental_div_mod(q as int, 4);
    assert(0 <= q as int % 4 < 4) by {
        vstd::arithmetic::div_mod::lemma_mod_division_less_than_divisor(q as int, 4);
    }
    assert(q <= 4 * tl <= q + 3);
    assert(tl >= 1);
    lemma_dec_all_digits(q);
    assert(all_digits(a + t));

    // The digit run of the notation is the flip count followed by the twist
    // digits.
    lemma_strip_digit_prefix(a + t, suffix);
    lemma_strip_marker_suffix(s.shape, fwd, seat);
    assert(strip_digits(n) =~= a + t);

    // The scan recovers the flip count and leaves exactly the twist digits.
    lemma_scan_of_encoded(q, t);
    let d = a + t;
    assert(d.len() >= 2);
    assert(spec_consumed(d) == a.len() + 1);
    assert(spec_flip_count(d) == q);
    assert(spec_decode_flip(n) == s.flip);
    assert(spec_skip_count(d) == a.len());
    assert(d.skip(a.len() as int) =~= t);
    assert(spec_decode_twist(n) =~= s.twist@) by {
        let decoded = t.map(|i: int, c: char| char_digit(c) as u8);
        assert forall|i: int| 0 <= i < t.len() implies decoded[i] == s.twist@[i] by {
            lemma_char_digit_of_digit(s.twist@[i]);
        }
    }

    // Marker bookkeeping: each marker character occurs exactly for its own
    // flag.
    lemma_marker_letter_occurrence(a + t, mpart, fpart, spart, 'o');
    lemma_marker_letter_occurrence(a + t, mpart, fpart, spart, '<');
    lemma_marker_letter_occurrence(a + t, mpart, fpart, spart, '/');
    lemma_marker_letter_occurrence(a + t, mpart, fpart, spart, 'f');
    lemma_marker_letter_occurrence(a + t, mpart, fpart, spart, '-');
    assert(mpart.contains(mc)) by {
        assert(mpart[1] == mc);
    }
    assert(forall|c: char| mpart.contains(c) ==> c == ' ' || c == mc);
    assert(forall|c: char| fpart.contains(c) ==> c == ' ' || c == 'f');
    assert(forall|c: char| spart.contains(c) ==> c == ' ' || c == '-' || c == '1');
    assert(fwd ==> fpart.contains('f')) by {
        if fwd {
            assert(fpart[1] == 'f');
        }
    }

    assert(spec_decode_shape(n) == s.shape);
    assert(spec_decode_ok(n));
    assert(spec_decode_direction(n) == s.direction);

    // The seat marker is read back exactly when it was written.
    if seat {
        let base = (a + t) + (mpart + fpart);
        assert(n =~= base + " -1"@);
        assert(n[base.len() as int + 1] == '-' && n[base.len() as int + 2] == '1');
        assert(spec_has_seat(n));
    } else {
        assert(!n.contains('-'));
        if spec_has_seat(n) {
            let i = choose|i: int|
                0 <= i && i + 1 < n.len() && #[trigger] n[i] == '-' && n[i + 1] == '1';
            assert(n.contains('-'));
        }
        assert(!spec_has_seat(n));
    }

    // The landing orientation is recovered: forced seat, or the orientation
    // model applied to the same arguments the skill was built from.
    assert(spec_decode_to(n, s.from) == s.to) by {
        if !seat {
            assert(spec_decode_flip(n) % 4 == s.flip as int % 4);
        }
    }

    // The rebuilt edit text is the canonical one.
    assert(spec_decode_edit(n) =~= s.spec_edit_text());
    assert(s.edit_text@ == spec_decode_edit(n));
}

/// The round-trip law in terms of skill equality: whatever decoding the
/// canonical notation of a valid skill yields is equal to that skill.
pub proof fn lemma_round_trip_equality(s: Skill, decoded: Skill)
    requires
        s.is_valid(),
        1 <= s.flip <= 214748363,
        is_decoding_of(decoded, s.spec_notation(), s.from),
    ensures
        vstd::std_specs::cmp::PartialEqSpec::eq_spec(&decoded, &s),
{
    lemma_notation_round_trip(s);
}

} // verus!
