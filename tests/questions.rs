use the_numbers::grade::Grade;
use the_numbers::questions::{questions_for, Difficulty};

const GRADES: [Grade; 5] = [Grade::G1, Grade::G2, Grade::G3, Grade::G4, Grade::G5];

#[test]
fn every_day_and_grade_has_a_core_question() {
    for day in 1..=12usize {
        for g in GRADES {
            let qs = questions_for(day, g);
            assert!(qs.iter().any(|q| q.difficulty == Difficulty::Core), "day {} grade {:?}", day, g);
        }
    }
}

#[test]
fn every_day_has_two_core_then_one_stretch() {
    for day in 1..=12usize {
        for g in GRADES {
            let qs = questions_for(day, g);
            assert_eq!(qs.len(), 3);
            assert_eq!(qs[0].difficulty, Difficulty::Core);
            assert_eq!(qs[1].difficulty, Difficulty::Core);
            assert_eq!(qs[2].difficulty, Difficulty::Stretch);
        }
    }
}

#[test]
fn unknown_days_get_a_placeholder() {
    for day in [0usize, 13, 100] {
        let qs = questions_for(day, Grade::G3);
        assert_eq!(qs.len(), 1);
        assert_eq!(qs[0].prompt, "Try another day!");
        assert_eq!(qs[0].answer, "ok");
        assert_eq!(qs[0].difficulty, Difficulty::Core);
    }
}

#[test]
fn bank_content_sample() {
    let qs = questions_for(1, Grade::G1);
    assert_eq!(qs[0].prompt, "What comes next? 1, 2, 3, __");
    assert_eq!(qs[0].answer, "4");
    let qs = questions_for(12, Grade::G5);
    assert_eq!(qs[2].answer, "3/4");
}
