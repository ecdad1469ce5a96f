use trampoline::naming::{fraction, named_skill};
use trampoline::skill::{BodyPart, FlipDirection, Shape, Skill};

fn decode(notation: &str, from: BodyPart) -> Skill {
    Skill::from_notation(notation.to_string(), from).unwrap()
}

#[test]
fn fraction_words() {
    assert_eq!(fraction(2), "half");
    assert_eq!(fraction(1), "quarter");
    assert_eq!(fraction(4), "full");
    assert_eq!(fraction(0), "0");
    assert_eq!(fraction(3), "0 3/4");
    assert_eq!(fraction(5), "1 1/4");
    assert_eq!(fraction(6), "1 1/2");
    assert_eq!(fraction(7), "1 3/4");
    assert_eq!(fraction(8), "2");
    assert_eq!(fraction(18), "4 1/2");
}

#[test]
fn named_table_holds_barani() {
    assert_eq!(named_skill("41 o f").unwrap(), "Tuck Barani");
    assert_eq!(named_skill("801 / f").unwrap(), "Half Out Layout");
    assert!(named_skill("43 o f").is_none());
}

#[test]
fn jump_name_short_circuit() {
    assert_eq!(decode("0 o", BodyPart::Feet).name(), "Tuck Jump");
    assert_eq!(decode("0 <", BodyPart::Feet).name(), "Pike Jump");
}

#[test]
fn straddle_jump_comes_from_table() {
    // A decoded `0 /` re-serialises as `00 /` (the lone digit is a zero
    // twist entry), misses the table, and names generically; the table's
    // straddle name belongs to the twist-free form.
    assert_eq!(decode("0 /", BodyPart::Feet).name(), "Straight Jump");
    let s = Skill {
        flip: 0,
        from: BodyPart::Feet,
        to: BodyPart::Feet,
        twist: Vec::new(),
        shape: Shape::Straight,
        direction: FlipDirection::Backward,
        edit_text: "0 /".to_string(),
    };
    assert_eq!(s.notation(), "0 /");
    assert_eq!(s.name(), "Straddle Jump");
}

#[test]
fn named_table_takes_precedence() {
    // The table entry wins over the generative rules.
    assert_eq!(decode("41 o f", BodyPart::Feet).name(), "Tuck Barani");
    assert_eq!(decode("44 /", BodyPart::Feet).name(), "Double Twist Back");
    assert_eq!(decode("801 o f", BodyPart::Feet).name(), "Tuck Half Out");
}

#[test]
fn generative_name_single_twist() {
    assert_eq!(
        decode("12 o", BodyPart::Feet).name(),
        "quarter flip, Backward,  full twist, from feet to back (Tuck)"
    );
}

#[test]
fn generative_name_lone_twist_digit() {
    assert_eq!(decode("3 o", BodyPart::Feet).name(), "0 flip, Backward,  1 1/2 twist");
}

#[test]
fn generative_name_double_with_out_twist() {
    assert_eq!(
        decode("802 o", BodyPart::Feet).name(),
        "Double, Backward,   full out (Tuck)"
    );
}

#[test]
fn generative_name_with_in_and_out_twists() {
    assert_eq!(
        decode("812 o", BodyPart::Feet).name(),
        "Double, Backward,  half in, full out (Tuck)"
    );
}

#[test]
fn generative_name_seat_landing() {
    assert_eq!(
        decode("41 o -1", BodyPart::Feet).name(),
        "Single, Backward,  half twist, from feet to seat (Tuck)"
    );
}

#[test]
fn generative_name_quad_straight() {
    let s = Skill {
        flip: 16,
        from: BodyPart::Feet,
        to: BodyPart::Feet,
        twist: vec![0, 0, 0, 0],
        shape: Shape::Straight,
        direction: FlipDirection::Forward,
        edit_text: "160000 / f".to_string(),
    };
    assert_eq!(s.name(), "Quad, Forward,     (Straight)");
}

#[test]
fn body_part_names() {
    assert_eq!(BodyPart::Feet.name(), "feet");
    assert_eq!(BodyPart::Front.name(), "front");
    assert_eq!(BodyPart::Back.name(), "back");
    assert_eq!(BodyPart::Head.name(), "head");
    assert_eq!(BodyPart::Seat.name(), "seat");
}
