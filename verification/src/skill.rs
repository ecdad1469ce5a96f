//! Core data types: body orientation, flip direction, body shape, and the
//! structured skill value, together with the orientation transition model.
//!
//! All rotation quantities are exact rationals with small denominators, so
//! they are stored as integers:
//! - somersault rotation ("flip") in quarter-turn units (4 = one full flip),
//! - twist rotation in half-turn units (2 = one full twist),
//! - difficulty in hundredths (see `difficulty`).

use vstd::prelude::*;

verus! {

/// Body configuration held during a somersault.
#[derive(Clone, Copy, PartialEq, Eq, Structural, Debug)]
pub enum Shape {
    Straight,
    Pike,
    Tuck,
}

/// The part of the body facing the trampoline bed at takeoff or landing.
#[derive(Clone, Copy, PartialEq, Eq, Structural, Debug)]
pub enum BodyPart {
    Feet,
    Front,
    Back,
    Head,
    Seat,
}

/// Rotation sense of the somersault.
#[derive(Clone, Copy, PartialEq, Eq, Structural, Debug)]
pub enum FlipDirection {
    Forward,
    Backward,
}

/// The opposite rotation sense.
pub open spec fn spec_opposite(d: FlipDirection) -> FlipDirection {
    match d {
        FlipDirection::Forward => FlipDirection::Backward,
        FlipDirection::Backward => FlipDirection::Forward,
    }
}

/// The direction that effectively drives the orientation change: a twist
/// total ending in a half turn has rotated the body 180 degrees about its
/// long axis, which inverts the forward/backward sense.
pub open spec fn spec_effective_direction(d: FlipDirection, twist_halves: int) -> FlipDirection {
    if twist_halves % 2 == 0 {
        d
    } else {
        spec_opposite(d)
    }
}

/// The orientation reached from `p` after rotating `amount` quarter turns
/// (only the fractional part of a somersault count, so 0 to 3) in direction
/// `d`, having accumulated `twist_halves` half twists in total.
///
/// Total: every input combination has a defined result.
pub open spec fn spec_next_orientation(
    p: BodyPart,
    amount: int,
    d: FlipDirection,
    twist_halves: int,
) -> BodyPart {
    let ed = spec_effective_direction(d, twist_halves);
    if amount == 0 {
        p
    } else if amount == 2 {
        match p {
            BodyPart::Back => BodyPart::Front,
            BodyPart::Front => BodyPart::Back,
            BodyPart::Head => BodyPart::Feet,
            BodyPart::Feet => BodyPart::Head,
            BodyPart::Seat => BodyPart::Head,
        }
    } else if amount == 1 {
        match p {
            BodyPart::Back => BodyPart::Feet,
            BodyPart::Front => BodyPart::Feet,
            BodyPart::Feet => if ed == FlipDirection::Forward {
                BodyPart::Front
            } else {
                BodyPart::Back
            },
            BodyPart::Head => if ed == FlipDirection::Forward {
                BodyPart::Back
            } else {
                BodyPart::Front
            },
            BodyPart::Seat => if ed == FlipDirection::Forward {
                BodyPart::Back
            } else {
                BodyPart::Front
            },
        }
    } else {
        match p {
            BodyPart::Back => BodyPart::Feet,
            BodyPart::Front => BodyPart::Feet,
            BodyPart::Feet => if ed == FlipDirection::Forward {
                BodyPart::Back
            } else {
                BodyPart::Front
            },
            BodyPart::Seat => if ed == FlipDirection::Forward {
                BodyPart::Back
            } else {
                BodyPart::Front
            },
            BodyPart::Head => if ed == FlipDirection::Forward {
                BodyPart::Front
            } else {
                BodyPart::Back
            },
        }
    }
}

/// The number of flip segments begun by a flip of `q` quarter turns: one
/// per whole flip, plus one for a trailing partial flip.
pub open spec fn ceil_quarters(q: int) -> int {
    q / 4 + if q % 4 == 0 {
        0int
    } else {
        1int
    }
}

impl BodyPart {
    /// The lower-case English word for this orientation.
    pub open spec fn spec_name(self) -> Seq<char> {
        match self {
            BodyPart::Feet => "feet"@,
            BodyPart::Front => "front"@,
            BodyPart::Back => "back"@,
            BodyPart::Head => "head"@,
            BodyPart::Seat => "seat"@,
        }
    }

    pub fn name(&self) -> (r: String)
        ensures
            r@ == self.spec_name(),
    {
        match self {
            BodyPart::Feet => String::from_str("feet"),
            BodyPart::Front => String::from_str("front"),
            BodyPart::Back => String::from_str("back"),
            BodyPart::Head => String::from_str("head"),
            BodyPart::Seat => String::from_str("seat"),
        }
    }

    /// The orientation after a further rotation of `amount` quarter turns in
    /// direction `direction`, given `total_twist_halves` accumulated half
    /// twists. Total: no input is rejected and no input panics.
    pub fn add(&self, amount: u32, direction: FlipDirection, total_twist_halves: u64) -> (r:
        BodyPart)
        ensures
            r == spec_next_orientation(*self, amount as int, direction, total_twist_halves as int),
    {
        let effective = if total_twist_halves % 2 == 0 {
            direction
        } else {
            match direction {
                FlipDirection::Forward => FlipDirection::Backward,
                FlipDirection::Backward => FlipDirection::Forward,
            }
        };
        if amount == 0 {
            *self
        } else if amount == 2 {
            match self {
                BodyPart::Back => BodyPart::Front,
                BodyPart::Front => BodyPart::Back,
                BodyPart::Head => BodyPart::Feet,
                BodyPart::Feet => BodyPart::Head,
                BodyPart::Seat => BodyPart::Head,
            }
        } else if amount == 1 {
            match self {
                BodyPart::Back => BodyPart::Feet,
                BodyPart::Front => BodyPart::Feet,
                BodyPart::Feet => if effective == FlipDirection::Forward {
                    BodyPart::Front
                } else {
                    BodyPart::Back
                },
                BodyPart::Head => if effective == FlipDirection::Forward {
                    BodyPart::Back
                } else {
                    BodyPart::Front
                },
                BodyPart::Seat => if effective == FlipDirection::Forward {
                    BodyPart::Back
                } else {
                    BodyPart::Front
                },
            }
        } else {
            match self {
                BodyPart::Back => BodyPart::Feet,
                BodyPart::Front => BodyPart::Feet,
                BodyPart::Feet => if effective == FlipDirection::Forward {
                    BodyPart::Back
                } else {
                    BodyPart::Front
                },
                BodyPart::Seat => if effective == FlipDirection::Forward {
                    BodyPart::Back
                } else {
                    BodyPart::Front
                },
                BodyPart::Head => if effective == FlipDirection::Forward {
                    BodyPart::Front
                } else {
                    BodyPart::Back
                },
            }
        }
    }
}

/// A single trampoline skill: one jump, somersault or twist combination.
#[derive(Clone, Debug)]
pub struct Skill {
    /// Somersault rotation in quarter-turn units (4 = one full flip).
    pub flip: u32,
    /// Orientation at takeoff.
    pub from: BodyPart,
    /// Orientation at landing.
    pub to: BodyPart,
    /// Twist amounts in half-turn units, one entry per flip segment.
    pub twist: Vec<u8>,
    /// Body configuration during the flip.
    pub shape: Shape,
    /// Rotation sense of the somersault.
    pub direction: FlipDirection,
    /// Cached textual notation, kept in sync with the structured fields.
    pub edit_text: String,
}

/// Whether two twist vectors hold the same amounts.
fn twist_eq(a: &Vec<u8>, b: &Vec<u8>) -> (r: bool)
    ensures
        r == (a@ == b@),
{
    if a.len() != b.len() {
        return false;
    }
    let mut i: usize = 0;
    while i < a.len()
        invariant
            0 <= i <= a@.len(),
            a@.len() == b@.len(),
            forall|j: int| 0 <= j < i ==> a@[j] == b@[j],
        decreases a@.len() - i,
    {
        if a[i] != b[i] {
            return false;
        }
        i = i + 1;
    }
    proof {
        assert(a@ =~= b@);
    }
    true
}

impl PartialEq for Skill {
    /// Two skills are equal when every structured field and the cached edit
    /// text agree.
    fn eq(&self, other: &Skill) -> (r: bool) {
        self.flip == other.flip && self.from == other.from && self.to == other.to && twist_eq(
            &self.twist,
            &other.twist,
        ) && self.shape == other.shape && self.direction == other.direction && self.edit_text
            == other.edit_text
    }
}

impl vstd::std_specs::cmp::PartialEqSpecImpl for Skill {
    open spec fn obeys_eq_spec() -> bool {
        true
    }

    open spec fn eq_spec(&self, other: &Skill) -> bool {
        &&& self.flip == other.flip
        &&& self.from == other.from
        &&& self.to == other.to
        &&& self.twist@ == other.twist@
        &&& self.shape == other.shape
        &&& self.direction == other.direction
        &&& self.edit_text@ == other.edit_text@
    }
}

} // verus!
