//! Natural-language skill names: a human-curated table of well-known names
//! keyed by canonical notation, with a generative fallback built from
//! fraction words, the rotation direction, the twist amounts, the takeoff
//! and landing orientations, and the shape.

use vstd::prelude::*;

use crate::digits::{spec_dec, u32_to_dec};
use crate::difficulty::sum_halves;
use crate::skill::{BodyPart, FlipDirection, Shape, Skill};

verus! {

/// The English fraction word for a rotation of `q` quarter turns: `half`,
/// `quarter` and `full` for the three commonest amounts, otherwise the
/// whole-turn count followed by a fraction tail.
pub open spec fn spec_fraction(q: nat) -> Seq<char> {
    if q == 2 {
        "half"@
    } else if q == 1 {
        "quarter"@
    } else if q == 4 {
        "full"@
    } else {
        spec_dec(q / 4) + (if q % 4 == 0 {
            Seq::<char>::empty()
        } else if q % 4 == 1 {
            " 1/4"@
        } else if q % 4 == 2 {
            " 1/2"@
        } else {
            " 3/4"@
        })
    }
}

/// The English fraction word for a rotation of `quarters` quarter turns.
pub fn fraction(quarters: u32) -> (r: String)
    ensures
        r@ == spec_fraction(quarters as nat),
{
    if quarters == 2 {
        String::from_str("half")
    } else if quarters == 1 {
        String::from_str("quarter")
    } else if quarters == 4 {
        String::from_str("full")
    } else {
        let mut r = u32_to_dec(quarters / 4);
        let rem = quarters % 4;
        if rem == 1 {
            r.append(" 1/4");
        } else if rem == 2 {
            r.append(" 1/2");
        } else if rem == 3 {
            r.append(" 3/4");
        }
        proof {
            assert(r@ =~= spec_fraction(quarters as nat));
        }
        r
    }
}

/// Whether two string slices hold the same characters.
fn str_eq(a: &str, b: &str) -> (r: bool)
    ensures
        r == (a@ == b@),
{
    let alen = a.unicode_len();
    let blen = b.unicode_len();
    if alen != blen {
        return false;
    }
    let mut i: usize = 0;
    while i < alen
        invariant
            0 <= i <= alen,
            alen == a@.len(),
            alen == b@.len(),
            forall|j: int| 0 <= j < i ==> a@[j] == b@[j],
        decreases alen - i,
    {
        if a.get_char(i) != b.get_char(i) {
            return false;
        }
        i = i + 1;
    }
    proof {
        assert(a@ =~= b@);
    }
    true
}

/// The human-curated table of well-known skill names, keyed by canonical
/// notation.
pub open spec fn spec_named_skill(nt: Seq<char>) -> Option<Seq<char>> {
    if nt == "0 o"@ {
        Some("Tuck Jump"@)
    } else if nt == "0 <"@ {
        Some("Pike Jump"@)
    } else if nt == "0 /"@ {
        Some("Straddle Jump"@)
    } else if nt == "0 o f"@ {
        Some("Tuck Jump"@)
    } else if nt == "0 < f"@ {
        Some("Pike Jump"@)
    } else if nt == "0 / f"@ {
        Some("Straddle Jump"@)
    } else if nt == "41 o f"@ {
        Some("Tuck Barani"@)
    } else if nt == "41 < f"@ {
        Some("Pike Barani"@)
    } else if nt == "41 / f"@ {
        Some("Straight Barani"@)
    } else if nt == "40 o f"@ {
        Some("Tuck Front"@)
    } else if nt == "40 < f"@ {
        Some("Pike Front"@)
    } else if nt == "40 / f"@ {
        Some("Straight Front"@)
    } else if nt == "42 /"@ {
        Some("Full Twist Back"@)
    } else if nt == "44 /"@ {
        Some("Double Twist Back"@)
    } else if nt == "801 o f"@ {
        Some("Tuck Half Out"@)
    } else if nt == "801 < f"@ {
        Some("Pike Half Out"@)
    } else if nt == "801 / f"@ {
        Some("Half Out Layout"@)
    } else {
        None
    }
}

/// Look a canonical notation up in the named-skill table.
pub fn named_skill(nt: &str) -> (r: Option<String>)
    ensures
        r is Some <==> spec_named_skill(nt@) is Some,
        r matches Some(x) ==> Some(x@) == spec_named_skill(nt@),
{
    if str_eq(nt, "0 o") {
        Some(String::from_str("Tuck Jump"))
    } else if str_eq(nt, "0 <") {
        Some(String::from_str("Pike Jump"))
    } else if str_eq(nt, "0 /") {
        Some(String::from_str("Straddle Jump"))
    } else if str_eq(nt, "0 o f") {
        Some(String::from_str("Tuck Jump"))
    } else if str_eq(nt, "0 < f") {
        Some(String::from_str("Pike Jump"))
    } else if str_eq(nt, "0 / f") {
        Some(String::from_str("Straddle Jump"))
    } else if str_eq(nt, "41 o f") {
        Some(String::from_str("Tuck Barani"))
    } else if str_eq(nt, "41 < f") {
        Some(String::from_str("Pike Barani"))
    } else if str_eq(nt, "41 / f") {
        Some(String::from_str("Straight Barani"))
    } else if str_eq(nt, "40 o f") {
        Some(String::from_str("Tuck Front"))
    } else if str_eq(nt, "40 < f") {
        Some(String::from_str("Pike Front"))
    } else if str_eq(nt, "40 / f") {
        Some(String::from_str("Straight Front"))
    } else if str_eq(nt, "42 /") {
        Some(String::from_str("Full Twist Back"))
    } else if str_eq(nt, "44 /") {
        Some(String::from_str("Double Twist Back"))
    } else if str_eq(nt, "801 o f") {
        Some(String::from_str("Tuck Half Out"))
    } else if str_eq(nt, "801 < f") {
        Some(String::from_str("Pike Half Out"))
    } else if str_eq(nt, "801 / f") {
        Some(String::from_str("Half Out Layout"))
    } else {
        None
    }
}

/// The flip-count words of the generative name: a proper word for one to
/// four whole flips, otherwise a fraction word.
pub open spec fn spec_flip_word(q: nat) -> Seq<char> {
    if q == 4 {
        "Single, "@
    } else if q == 8 {
        "Double, "@
    } else if q == 12 {
        "Triple, "@
    } else if q == 16 {
        "Quad, "@
    } else {
        spec_fraction(q) + " flip, "@
    }
}

/// The rotation-direction word of the generative name.
pub open spec fn spec_dir_word(d: FlipDirection) -> Seq<char> {
    match d {
        FlipDirection::Forward => "Forward, "@,
        FlipDirection::Backward => "Backward, "@,
    }
}

/// The contribution of the twist entries after the first nonzero one: each
/// further nonzero entry is introduced by the separator ` twist,`.
pub open spec fn join_rest(t: Seq<u8>) -> Seq<char>
    decreases t.len(),
{
    if t.len() == 0 {
        Seq::<char>::empty()
    } else if t[0] == 0 {
        join_rest(t.skip(1))
    } else {
        " twist,"@ + spec_fraction(2 * t[0] as nat) + join_rest(t.skip(1))
    }
}

/// The nonzero twist fraction words joined by the separator ` twist,`.
pub open spec fn join_nonzero(t: Seq<u8>) -> Seq<char>
    decreases t.len(),
{
    if t.len() == 0 {
        Seq::<char>::empty()
    } else if t[0] == 0 {
        join_nonzero(t.skip(1))
    } else {
        spec_fraction(2 * t[0] as nat) + join_rest(t.skip(1))
    }
}

/// The twist clause of the generative name: with several flip segments, the
/// entry twist (`in`), the middle twists, and `out` when the skill twists on
/// its last segment; with a single segment, a plain `twist` clause.
pub open spec fn spec_twist_part(t: Seq<u8>) -> Seq<char> {
    if t.len() > 1 {
        " "@ + (if t[0] == 0 {
            Seq::<char>::empty()
        } else {
            spec_fraction(2 * t[0] as nat) + " in,"@
        }) + " "@ + join_nonzero(t.skip(1)) + " "@ + (if t.last() == 0 {
            Seq::<char>::empty()
        } else {
            "out"@
        })
    } else if t.len() == 1 {
        if t[0] == 0 {
            Seq::<char>::empty()
        } else {
            " "@ + spec_fraction(2 * t[0] as nat) + " twist"@
        }
    } else {
        Seq::<char>::empty()
    }
}

/// The takeoff/landing clause, present when the flip has a fractional part,
/// the takeoff is not from the feet, or the skill lands in a seat drop.
pub open spec fn spec_from_to_part(s: Skill) -> Seq<char> {
    if s.flip as int % 4 != 0 || s.from != BodyPart::Feet || s.to == BodyPart::Seat {
        ", from "@ + s.from.spec_name() + " to "@ + s.to.spec_name()
    } else {
        Seq::<char>::empty()
    }
}

/// The shape suffix, omitted for a skill without a somersault.
pub open spec fn spec_shape_suffix(s: Skill) -> Seq<char> {
    if s.flip == 0 {
        Seq::<char>::empty()
    } else {
        match s.shape {
            Shape::Straight => " (Straight)"@,
            Shape::Pike => " (Pike)"@,
            Shape::Tuck => " (Tuck)"@,
        }
    }
}

/// The name of a plain jump in the given shape.
pub open spec fn spec_jump_name(shape: Shape) -> Seq<char> {
    match shape {
        Shape::Straight => "Straight Jump"@,
        Shape::Pike => "Pike Jump"@,
        Shape::Tuck => "Tuck Jump"@,
    }
}

/// The generative name, used when the table has no entry.
pub open spec fn spec_generative_name(s: Skill) -> Seq<char> {
    spec_flip_word(s.flip as nat) + spec_dir_word(s.direction) + spec_twist_part(s.twist@)
        + spec_from_to_part(s) + spec_shape_suffix(s)
}

/// The name of a skill: the table entry for its canonical notation when one
/// exists, the short jump name for a twist-free skill without a somersault
/// that does not land in a seat drop, and the generative name otherwise.
pub open spec fn spec_name_of(s: Skill) -> Seq<char> {
    match spec_named_skill(s.spec_notation()) {
        Some(nm) => nm,
        None => if s.flip == 0 && sum_halves(s.twist@) == 0 && s.to != BodyPart::Seat {
            spec_jump_name(s.shape)
        } else {
            spec_generative_name(s)
        },
    }
}

/// A twist total is zero exactly when every entry is zero.
pub proof fn lemma_sum_zero(t: Seq<u8>)
    ensures
        (sum_halves(t) == 0) <==> (forall|i: int| 0 <= i < t.len() ==> t[i] == 0),
    decreases t.len(),
{
    if t.len() > 0 {
        lemma_sum_zero(t.drop_last());
        crate::difficulty::lemma_sum_halves_bound(t.drop_last());
        if sum_halves(t) == 0 {
            assert(forall|i: int| 0 <= i < t.len() - 1 ==> t.drop_last()[i] == t[i]);
            assert(t[t.len() - 1] == t.last());
        }
        if forall|i: int| 0 <= i < t.len() ==> t[i] == 0 {
            assert(forall|i: int| 0 <= i < t.len() - 1 ==> t.drop_last()[i] == 0);
            assert(t.last() == 0);
        }
    }
}

/// Whether the total twist is zero.
fn twist_total_zero(t: &Vec<u8>) -> (z: bool)
    ensures
        z == (sum_halves(t@) == 0),
{
    proof {
        lemma_sum_zero(t@);
    }
    let mut j: usize = 0;
    while j < t.len()
        invariant
            0 <= j <= t@.len(),
            forall|i: int| 0 <= i < j ==> t@[i] == 0,
            (sum_halves(t@) == 0) <==> (forall|i: int| 0 <= i < t@.len() ==> t@[i] == 0),
        decreases t@.len() - j,
    {
        if t[j] != 0 {
            return false;
        }
        j = j + 1;
    }
    true
}

/// Append the joined nonzero middle-and-out twist fractions to `r`.
fn append_twist_join(r: &mut String, t: &Vec<u8>)
    requires
        t@.len() >= 1,
    ensures
        final(r)@ == old(r)@ + join_nonzero(t@.skip(1)),
{
    let mut j: usize = 1;
    let mut seen = false;
    while j < t.len()
        invariant
            1 <= j <= t@.len(),
            !seen ==> r@ + join_nonzero(t@.skip(j as int)) == old(r)@ + join_nonzero(t@.skip(1)),
            seen ==> r@ + join_rest(t@.skip(j as int)) == old(r)@ + join_nonzero(t@.skip(1)),
        decreases t@.len() - j,
    {
        let ghost rem = t@.skip(j as int);
        proof {
            assert(rem[0] == t@[j as int]);
            assert(rem.skip(1) =~= t@.skip(j as int + 1));
        }
        let v = t[j];
        if v != 0 {
            if seen {
                r.append(" twist,");
            }
            let f = fraction(2 * (v as u32));
            r.append(f.as_str());
            proof {
                if seen {
                    assert(join_rest(rem) == " twist,"@ + spec_fraction(2 * rem[0] as nat)
                        + join_rest(rem.skip(1)));
                    assert(r@ + join_rest(t@.skip(j as int + 1)) =~= old(r)@ + join_nonzero(
                        t@.skip(1),
                    ));
                } else {
                    assert(join_nonzero(rem) == spec_fraction(2 * rem[0] as nat) + join_rest(
                        rem.skip(1),
                    ));
                    assert(r@ + join_rest(t@.skip(j as int + 1)) =~= old(r)@ + join_nonzero(
                        t@.skip(1),
                    ));
                }
            }
            seen = true;
        } else {
            proof {
                if seen {
                    assert(join_rest(rem) == join_rest(rem.skip(1)));
                } else {
                    assert(join_nonzero(rem) == join_nonzero(rem.skip(1)));
                }
            }
        }
        j = j + 1;
    }
    proof {
        assert(t@.skip(t@.len() as int) =~= Seq::<u8>::empty());
        assert(r@ =~= old(r)@ + join_nonzero(t@.skip(1)));
    }
}

impl Skill {
    /// The human-readable name of this skill. Each twist entry must fit a
    /// single digit, as for `notation`.
    #[verifier::rlimit(60)]
    pub fn name(&self) -> (r: String)
        requires
            forall|i: int| 0 <= i < self.twist@.len() ==> self.twist@[i] <= 9,
        ensures
            r@ == spec_name_of(*self),
    {
        let nt = self.notation();
        let looked = named_skill(nt.as_str());
        if let Some(nm) = looked {
            return nm;
        }
        let zero_twist = twist_total_zero(&self.twist);
        if self.flip == 0 && zero_twist && !(self.to == BodyPart::Seat) {
            return match self.shape {
                Shape::Straight => String::from_str("Straight Jump"),
                Shape::Pike => String::from_str("Pike Jump"),
                Shape::Tuck => String::from_str("Tuck Jump"),
            };
        }

        let mut r: String = if self.flip == 4 {
            String::from_str("Single, ")
        } else if self.flip == 8 {
            String::from_str("Double, ")
        } else if self.flip == 12 {
            String::from_str("Triple, ")
        } else if self.flip == 16 {
            String::from_str("Quad, ")
        } else {
            let mut w = fraction(self.flip);
            w.append(" flip, ");
            w
        };
        proof {
            assert(r@ =~= spec_flip_word(self.flip as nat));
        }
        match self.direction {
            FlipDirection::Forward => r.append("Forward, "),
            FlipDirection::Backward => r.append("Backward, "),
        }
        let ghost head = spec_flip_word(self.flip as nat) + spec_dir_word(self.direction);
        proof {
            assert(r@ =~= head);
        }

        if self.twist.len() > 1 {
            r.append(" ");
            if self.twist[0] != 0 {
                let f0 = fraction(2 * (self.twist[0] as u32));
                r.append(f0.as_str());
                r.append(" in,");
            }
            r.append(" ");
            append_twist_join(&mut r, &self.twist);
            r.append(" ");
            if self.twist[self.twist.len() - 1] != 0 {
                r.append("out");
            }
            proof {
                assert(self.twist@.last() == self.twist@[self.twist@.len() - 1]);
                assert(r@ =~= head + spec_twist_part(self.twist@));
            }
        } else if self.twist.len() == 1 {
            if self.twist[0] != 0 {
                r.append(" ");
                let f0 = fraction(2 * (self.twist[0] as u32));
                r.append(f0.as_str());
                r.append(" twist");
            }
            proof {
                assert(r@ =~= head + spec_twist_part(self.twist@));
            }
        } else {
            proof {
                assert(r@ =~= head + spec_twist_part(self.twist@));
            }
        }
        let ghost mid = head + spec_twist_part(self.twist@);

        if self.flip % 4 != 0 || !(self.from == BodyPart::Feet) || self.to == BodyPart::Seat {
            r.append(", from ");
            let fname = self.from.name();
            r.append(fname.as_str());
            r.append(" to ");
            let tname = self.to.name();
            r.append(tname.as_str());
        }
        proof {
            assert(r@ =~= mid + spec_from_to_part(*self));
        }

        if self.flip != 0 {
            match self.shape {
                Shape::Straight => r.append(" (Straight)"),
                Shape::Pike => r.append(" (Pike)"),
                Shape::Tuck => r.append(" (Tuck)"),
            }
        }
        proof {
            assert(r@ =~= spec_name_of(*self));
        }
        r
    }
}

} // verus!
