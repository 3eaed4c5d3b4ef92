use the_numbers::grade::{grade_from_choice, grade_from_stored, grade_text, parse_u8, Grade};

#[test]
fn grade_labels_and_numbers() {
    assert_eq!(Grade::G1.label(), "Grade 1");
    assert_eq!(Grade::G5.label(), "Grade 5");
    assert_eq!(Grade::G4.as_u8(), 4);
    assert_eq!(Grade::from_u8(2), Grade::G2);
    assert_eq!(Grade::from_u8(0), Grade::G5);
    assert_eq!(Grade::from_u8(9), Grade::G5);
}

#[test]
fn stored_grade_defaults_to_three() {
    assert_eq!(grade_from_stored(None), Grade::G3);
    assert_eq!(grade_from_stored(Some("abc")), Grade::G3);
    assert_eq!(grade_from_stored(Some("")), Grade::G3);
    assert_eq!(grade_from_stored(Some("300")), Grade::G3);
    assert_eq!(grade_from_stored(Some("1")), Grade::G1);
    assert_eq!(grade_from_stored(Some("+4")), Grade::G4);
    assert_eq!(grade_from_stored(Some("7")), Grade::G5);
}

#[test]
fn parse_u8_follows_std() {
    for s in ["0", "7", "255", "256", "+3", "+", "", "-1", "003", " 3", "3 ", "12a"] {
        assert_eq!(parse_u8(s), s.parse::<u8>().ok(), "{:?}", s);
    }
}

#[test]
fn grade_text_round_trip() {
    for g in [Grade::G1, Grade::G2, Grade::G3, Grade::G4, Grade::G5] {
        let t = grade_text(g);
        assert_eq!(t, g.as_u8().to_string());
        assert_eq!(grade_from_stored(Some(t.as_str())), g);
    }
}

#[test]
fn grade_menu_choice() {
    assert_eq!(grade_from_choice("1"), Grade::G1);
    assert_eq!(grade_from_choice("4"), Grade::G4);
    assert_eq!(grade_from_choice("5"), Grade::G5);
    assert_eq!(grade_from_choice("+1"), Grade::G5);
}
