use trampoline::skill::{BodyPart, FlipDirection, Shape, Skill};

fn decode(notation: &str, from: BodyPart) -> Option<Skill> {
    Skill::from_notation(notation.to_string(), from)
}

#[test]
fn decode_without_marker_is_none() {
    assert!(decode("12", BodyPart::Feet).is_none());
}

#[test]
fn decode_with_two_markers_is_none() {
    assert!(decode("12 o<", BodyPart::Feet).is_none());
    assert!(decode("4 / <", BodyPart::Feet).is_none());
    assert!(decode("", BodyPart::Feet).is_none());
}

#[test]
fn decode_barani_notation() {
    // One full forward tuck flip with a half twist: a full flip keeps the
    // orientation class, so the landing is back on the feet.
    let s = decode("41 o f", BodyPart::Feet).unwrap();
    assert_eq!(s.flip, 4);
    assert_eq!(s.twist, vec![1]);
    assert_eq!(s.shape, Shape::Tuck);
    assert_eq!(s.direction, FlipDirection::Forward);
    assert_eq!(s.from, BodyPart::Feet);
    assert_eq!(s.to, BodyPart::Feet);
    assert_eq!(s.edit_text, "41 o f");
}

#[test]
fn decode_tuck_jump_notation() {
    // The lone digit is read as a (zero) twist entry, not as a flip count.
    let s = decode("0 o", BodyPart::Feet).unwrap();
    assert_eq!(s.flip, 0);
    assert_eq!(s.twist, vec![0]);
    assert_eq!(s.shape, Shape::Tuck);
    assert_eq!(s.direction, FlipDirection::Backward);
    assert_eq!(s.to, BodyPart::Feet);
    assert_eq!(s.edit_text, "0 o");
}

#[test]
fn decode_lone_nonzero_digit_is_twist() {
    let s = decode("3 o", BodyPart::Feet).unwrap();
    assert_eq!(s.flip, 0);
    assert_eq!(s.twist, vec![3]);
}

#[test]
fn decode_marker_only() {
    let s = decode("o", BodyPart::Feet).unwrap();
    assert_eq!(s.flip, 0);
    assert_eq!(s.twist, Vec::<u8>::new());
    assert_eq!(s.to, BodyPart::Feet);
    assert_eq!(s.edit_text, " o");
}

#[test]
fn decode_half_out_notation() {
    let s = decode("801 o f", BodyPart::Feet).unwrap();
    assert_eq!(s.flip, 8);
    assert_eq!(s.twist, vec![0, 1]);
    assert_eq!(s.direction, FlipDirection::Forward);
    assert_eq!(s.to, BodyPart::Feet);
}

#[test]
fn decode_seat_marker_forces_seat_landing() {
    let s = decode("41 o -1", BodyPart::Feet).unwrap();
    assert_eq!(s.to, BodyPart::Seat);
    assert_eq!(s.flip, 4);
    assert_eq!(s.twist, vec![1]);
    // The seat marker is stripped before the digits are read, and the edit
    // text carries only digits, marker and direction.
    assert_eq!(s.edit_text, "41 o");
}

#[test]
fn decode_quarter_flip_lands_on_back() {
    let s = decode("12 o", BodyPart::Feet).unwrap();
    assert_eq!(s.flip, 1);
    assert_eq!(s.twist, vec![2]);
    assert_eq!(s.to, BodyPart::Back);
    assert_eq!(s.edit_text, "12 o");
}

#[test]
fn decode_discards_garbage_letters() {
    let a = decode("z4x1 o f!", BodyPart::Feet).unwrap();
    let b = decode("41 o f", BodyPart::Feet).unwrap();
    assert_eq!(a, b);
}

#[test]
fn encode_barani_notation() {
    let s = decode("41 o f", BodyPart::Feet).unwrap();
    assert_eq!(s.notation(), "41 o f");
}

#[test]
fn encode_appends_seat_marker() {
    let s = decode("41 o -1", BodyPart::Feet).unwrap();
    assert_eq!(s.notation(), "41 o -1");
}

#[test]
fn encode_double_twist_back() {
    let s = Skill {
        flip: 4,
        from: BodyPart::Feet,
        to: BodyPart::Feet,
        twist: vec![4],
        shape: Shape::Straight,
        direction: FlipDirection::Backward,
        edit_text: "44 /".to_string(),
    };
    assert_eq!(s.notation(), "44 /");
}

#[test]
fn round_trip_backward_pike() {
    // A one-and-a-quarter backward pike flip with a half twist on the first
    // segment: quarter backward rotation with an odd twist total lands on
    // the back.
    let s = Skill {
        flip: 5,
        from: BodyPart::Feet,
        to: BodyPart::Back,
        twist: vec![1, 0],
        shape: Shape::Pike,
        direction: FlipDirection::Forward,
        edit_text: "510 < f".to_string(),
    };
    let back = decode(&s.notation(), s.from).unwrap();
    assert_eq!(back, s);
}

#[test]
fn round_trip_forward_tuck() {
    let s = decode("41 o f", BodyPart::Feet).unwrap();
    let back = decode(&s.notation(), s.from).unwrap();
    assert_eq!(back, s);
}

#[test]
fn round_trip_seat_landing() {
    let s = decode("801 o -1", BodyPart::Feet).unwrap();
    let back = decode(&s.notation(), s.from).unwrap();
    assert_eq!(back, s);
}

#[test]
fn round_trip_from_every_takeoff() {
    for from in [
        BodyPart::Feet,
        BodyPart::Front,
        BodyPart::Back,
        BodyPart::Head,
        BodyPart::Seat,
    ] {
        let s = decode("62 < f", from).unwrap();
        let back = decode(&s.notation(), from).unwrap();
        assert_eq!(back, s);
    }
}

#[test]
fn round_trip_many_segments() {
    // Ten and a quarter flips: an eleven-segment twist list whose digits
    // follow a two-digit flip count.
    let s = Skill {
        flip: 41,
        from: BodyPart::Feet,
        to: BodyPart::Back,
        twist: vec![0, 0, 0, 0, 0, 0, 0, 0, 0, 0, 0],
        shape: Shape::Tuck,
        direction: FlipDirection::Backward,
        edit_text: "4100000000000 o".to_string(),
    };
    assert_eq!(s.notation(), "4100000000000 o");
    let back = decode(&s.notation(), s.from).unwrap();
    assert_eq!(back, s);
}

#[test]
fn resize_twist_tracks_flip_segments() {
    let mut s = decode("41 o f", BodyPart::Feet).unwrap();
    s.flip = 9;
    s.resize_twist();
    assert_eq!(s.twist, vec![1, 0, 0]);
    s.flip = 4;
    s.resize_twist();
    assert_eq!(s.twist, vec![1]);
    s.flip = 0;
    s.resize_twist();
    assert_eq!(s.twist, Vec::<u8>::new());
}

#[test]
fn refresh_edit_text_reserialises() {
    let mut s = decode("41 o f", BodyPart::Feet).unwrap();
    s.twist = vec![2];
    s.refresh_edit_text();
    assert_eq!(s.edit_text, "42 o f");
}
