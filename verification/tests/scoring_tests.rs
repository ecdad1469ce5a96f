use trampoline::skill::{BodyPart, FlipDirection, Shape, Skill};

fn decode(notation: &str, from: BodyPart) -> Skill {
    Skill::from_notation(notation.to_string(), from).unwrap()
}

fn mk(flip: u32, twist: Vec<u8>, shape: Shape) -> Skill {
    let mut s = Skill {
        flip,
        from: BodyPart::Feet,
        to: BodyPart::Feet,
        twist,
        shape,
        direction: FlipDirection::Backward,
        edit_text: String::new(),
    };
    s.refresh_edit_text();
    s
}

#[test]
fn difficulty_of_jump_is_zero() {
    assert_eq!(decode("0 o", BodyPart::Feet).diff(), 0);
}

#[test]
fn difficulty_of_double_twist_back() {
    // One straight flip with a double twist: 0.4 + 2.0 * 0.2 + 0.1 = 0.90,
    // and no twist-free bonus because the skill twists.
    assert_eq!(decode("44 /", BodyPart::Feet).diff(), 90);
}

#[test]
fn difficulty_of_barani() {
    // 0.4 + 0.5 * 0.2 + 0.1 = 0.60 for the tuck shape.
    assert_eq!(decode("41 o f", BodyPart::Feet).diff(), 60);
}

#[test]
fn difficulty_tuck_gets_no_shape_bonus() {
    // A twist-free double: tuck scores 0.8 + 0.2 = 1.0, while straight and
    // pike add the twist-free tenth and the completed-flip tenths again.
    assert_eq!(mk(8, vec![0, 0], Shape::Tuck).diff(), 100);
    assert_eq!(mk(8, vec![0, 0], Shape::Straight).diff(), 130);
    assert_eq!(mk(8, vec![0, 0], Shape::Pike).diff(), 130);
}

#[test]
fn difficulty_triple_and_quad_bonuses() {
    assert_eq!(mk(12, vec![0, 0, 0], Shape::Pike).diff(), 190);
    assert_eq!(mk(16, vec![0, 0, 0, 0], Shape::Straight).diff(), 260);
}

#[test]
fn difficulty_never_decreases_with_flip() {
    // A fixed shape and twist list, a growing flip count.
    let mut last: u64 = 0;
    for q in 5..=8u32 {
        let d = mk(q, vec![0, 0], Shape::Straight).diff();
        assert!(d >= last);
        last = d;
    }
    let mut last_tuck: u64 = 0;
    for q in 1..=16u32 {
        let d = mk(q, vec![3, 0, 0, 0], Shape::Tuck).diff();
        assert!(d >= last_tuck);
        last_tuck = d;
    }
}

#[test]
fn orientation_is_total() {
    // Every combination of orientation, rotation fraction, direction and
    // twist parity yields an orientation; nothing is rejected.
    let parts = [
        BodyPart::Feet,
        BodyPart::Front,
        BodyPart::Back,
        BodyPart::Head,
        BodyPart::Seat,
    ];
    let dirs = [FlipDirection::Forward, FlipDirection::Backward];
    for p in parts {
        for amount in 0..6u32 {
            for d in dirs {
                for halves in 0..4u64 {
                    let r = p.add(amount, d, halves);
                    assert!(parts.contains(&r));
                }
            }
        }
    }
}

#[test]
fn orientation_identity_without_rotation() {
    for p in [
        BodyPart::Feet,
        BodyPart::Front,
        BodyPart::Back,
        BodyPart::Head,
        BodyPart::Seat,
    ] {
        assert_eq!(p.add(0, FlipDirection::Forward, 3), p);
    }
}

#[test]
fn orientation_half_flip_is_direction_free() {
    for d in [FlipDirection::Forward, FlipDirection::Backward] {
        assert_eq!(BodyPart::Back.add(2, d, 0), BodyPart::Front);
        assert_eq!(BodyPart::Front.add(2, d, 0), BodyPart::Back);
        assert_eq!(BodyPart::Head.add(2, d, 0), BodyPart::Feet);
        assert_eq!(BodyPart::Feet.add(2, d, 0), BodyPart::Head);
        assert_eq!(BodyPart::Seat.add(2, d, 0), BodyPart::Head);
    }
}

#[test]
fn orientation_quarter_flip() {
    let f = FlipDirection::Forward;
    let b = FlipDirection::Backward;
    assert_eq!(BodyPart::Back.add(1, f, 0), BodyPart::Feet);
    assert_eq!(BodyPart::Front.add(1, b, 0), BodyPart::Feet);
    assert_eq!(BodyPart::Feet.add(1, f, 0), BodyPart::Front);
    assert_eq!(BodyPart::Feet.add(1, b, 0), BodyPart::Back);
    assert_eq!(BodyPart::Head.add(1, f, 0), BodyPart::Back);
    assert_eq!(BodyPart::Head.add(1, b, 0), BodyPart::Front);
    assert_eq!(BodyPart::Seat.add(1, f, 0), BodyPart::Back);
    assert_eq!(BodyPart::Seat.add(1, b, 0), BodyPart::Front);
}

#[test]
fn orientation_three_quarter_flip_swaps_feet_and_head() {
    let f = FlipDirection::Forward;
    let b = FlipDirection::Backward;
    assert_eq!(BodyPart::Feet.add(3, f, 0), BodyPart::Back);
    assert_eq!(BodyPart::Feet.add(3, b, 0), BodyPart::Front);
    assert_eq!(BodyPart::Head.add(3, f, 0), BodyPart::Front);
    assert_eq!(BodyPart::Head.add(3, b, 0), BodyPart::Back);
    assert_eq!(BodyPart::Seat.add(3, f, 0), BodyPart::Back);
    assert_eq!(BodyPart::Back.add(3, f, 0), BodyPart::Feet);
    assert_eq!(BodyPart::Front.add(3, b, 0), BodyPart::Feet);
}

#[test]
fn orientation_half_twist_inverts_direction() {
    // A quarter forward rotation with an odd half-twist total behaves as a
    // backward one.
    assert_eq!(BodyPart::Feet.add(1, FlipDirection::Forward, 1), BodyPart::Back);
    assert_eq!(BodyPart::Feet.add(1, FlipDirection::Backward, 1), BodyPart::Front);
    assert_eq!(BodyPart::Feet.add(1, FlipDirection::Forward, 2), BodyPart::Front);
}

#[test]
fn routine_chains_landing_into_takeoff() {
    // Ten skills threaded the way a routine is scored: each skill takes off
    // from the previous landing.
    let notations = [
        "12 o", "2 o", "41 o f", "0 o", "44 /", "801 o f", "0 <", "40 o f", "42 /", "41 o -1",
    ];
    let mut from = BodyPart::Feet;
    let mut total: u64 = 0;
    for nt in notations {
        let s = Skill::from_notation(nt.to_string(), from).unwrap();
        total += s.diff();
        from = s.to;
    }
    assert_eq!(from, BodyPart::Seat);
    assert!(total > 0);
}
