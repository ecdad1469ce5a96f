//! Difficulty scoring: a deterministic FIG-style score computed from the
//! flip count, the twist amounts and the body shape.
//!
//! Scores are exact multiples of a tenth, so they are returned in hundredths
//! of a point: a returned value of 90 means a difficulty of 0.90.

use vstd::prelude::*;
use vstd::arithmetic::div_mod::lemma_div_is_ordered;

use crate::skill::{Shape, Skill};

verus! {

/// The sum of a sequence of twist amounts, in half-turn units.
pub open spec fn sum_halves(t: Seq<u8>) -> int
    decreases t.len(),
{
    if t.len() == 0 {
        0
    } else {
        sum_halves(t.drop_last()) + t.last()
    }
}

pub proof fn lemma_sum_halves_bound(t: Seq<u8>)
    ensures
        0 <= sum_halves(t) <= 255 * t.len(),
    decreases t.len(),
{
    if t.len() > 0 {
        lemma_sum_halves_bound(t.drop_last());
    }
}

/// The difficulty, in hundredths, of a skill with `q` quarter turns of flip,
/// the given twist amounts (half-turn units) and the given shape:
/// a tenth per quarter flip, a tenth per half twist, a tenth per completed
/// flip, and, for the straight and pike shapes only, a tenth for a twist-free
/// full flip, a tenth per completed flip again from the second flip on, and a
/// tenth per completed flip beyond the third.
pub open spec fn spec_difficulty(q: int, twist: Seq<u8>, shape: Shape) -> int {
    let s = sum_halves(twist);
    let base = q * 10 + s * 10 + (q / 4) * 10;
    let bonus = if shape == Shape::Tuck {
        0
    } else {
        (if s == 0 && q >= 4 {
            10int
        } else {
            0
        }) + (if q >= 8 {
            (q / 4) * 10
        } else {
            0
        }) + (if q >= 12 {
            ((q - 12) / 4) * 10
        } else {
            0
        })
    };
    base + bonus
}

/// For a fixed shape and twist sequence the difficulty never decreases when
/// the flip count grows.
pub proof fn lemma_difficulty_monotone(q1: int, q2: int, twist: Seq<u8>, shape: Shape)
    requires
        0 <= q1 <= q2,
    ensures
        spec_difficulty(q1, twist, shape) <= spec_difficulty(q2, twist, shape),
{
    lemma_div_is_ordered(q1, q2, 4);
    lemma_div_is_ordered(0, q1, 4);
    if q2 >= 12 {
        lemma_div_is_ordered(0, q2 - 12, 4);
        if q1 >= 12 {
            lemma_div_is_ordered(q1 - 12, q2 - 12, 4);
        }
    }
    if q2 >= 8 && q1 < 8 {
        lemma_div_is_ordered(0, q2, 4);
    }
}

/// The difficulty is never negative.
pub proof fn lemma_difficulty_nonneg(q: int, twist: Seq<u8>, shape: Shape)
    requires
        q >= 0,
    ensures
        spec_difficulty(q, twist, shape) >= 0,
{
    lemma_difficulty_monotone(0, q, twist, shape);
    lemma_sum_halves_bound(twist);
}

impl Skill {
    /// The difficulty score of this skill, in hundredths of a point.
    ///
    /// The twist list must merely be far from address-space size, so that
    /// the score fits a 64-bit result; every realistic skill qualifies.
    pub fn diff(&self) -> (d: u64)
        requires
            self.twist@.len() < 0x8000000000000,
        ensures
            d == spec_difficulty(self.flip as int, self.twist@, self.shape),
    {
        let q = self.flip as u64;
        let mut sum: u64 = 0;
        let mut i: usize = 0;
        proof {
            assert(self.twist@.take(0) =~= Seq::<u8>::empty());
        }
        while i < self.twist.len()
            invariant
                0 <= i <= self.twist@.len(),
                self.twist@.len() < 0x8000000000000,
                sum == sum_halves(self.twist@.take(i as int)),
                q == self.flip as int,
            decreases self.twist@.len() - i,
        {
            proof {
                lemma_sum_halves_bound(self.twist@.take(i as int));
                assert(self.twist@.take(i + 1).drop_last() =~= self.twist@.take(i as int));
                assert(self.twist@.take(i + 1).last() == self.twist@[i as int]);
            }
            sum = sum + self.twist[i] as u64;
            i = i + 1;
        }
        proof {
            assert(self.twist@.take(self.twist@.len() as int) =~= self.twist@);
            lemma_sum_halves_bound(self.twist@);
        }
        let mut d: u64 = q * 10 + sum * 10 + (q / 4) * 10;
        match self.shape {
            Shape::Tuck => {},
            Shape::Straight | Shape::Pike => {
                if sum == 0 && q >= 4 {
                    d = d + 10;
                }
                if q >= 8 {
                    d = d + (q / 4) * 10;
                }
                if q >= 12 {
                    d = d + ((q - 12) / 4) * 10;
                }
            },
        }
        d
    }
}

} // verus!
