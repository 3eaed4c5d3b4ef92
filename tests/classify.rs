use the_numbers::skill::{classify_lowered, classify_skill, skill_label, Skill};

#[test]
fn word_problem_phrase_wins_over_plus() {
    assert_eq!(classify_skill("How many apples plus 2 more?"), Skill::WordProblem);
}

#[test]
fn classifier_ignores_case() {
    assert_eq!(classify_skill("HOW MANY SIDES?"), Skill::WordProblem);
    assert_eq!(classify_lowered("HOW MANY SIDES?"), Skill::Unknown);
}

#[test]
fn classifier_operations_in_order() {
    assert_eq!(classify_skill("3 + __ = 5"), Skill::Addition);
    assert_eq!(classify_skill("Seven plus two"), Skill::Addition);
    assert_eq!(classify_skill("12 - __ = 5"), Skill::Subtraction);
    assert_eq!(classify_skill("ten MINUS four"), Skill::Subtraction);
    assert_eq!(classify_skill("3 × __ = 12"), Skill::Multiplication);
    assert_eq!(classify_skill("what is 3 x 4"), Skill::Multiplication);
    assert_eq!(classify_skill("36 ÷ __ = 6"), Skill::Division);
    assert_eq!(classify_skill("miles per hour"), Skill::Division);
    assert_eq!(classify_skill("Is 6 even or odd?"), Skill::Unknown);
    assert_eq!(classify_skill("2 + 3 - 1"), Skill::Addition);
    assert_eq!(classify_skill("How much is left?"), Skill::WordProblem);
}

#[test]
fn skill_labels() {
    assert_eq!(skill_label(Skill::WordProblem), "Word Problems");
    assert_eq!(skill_label(Skill::Unknown), "Mixed Skills");
    assert_eq!(skill_label(Skill::Addition), "Addition");
}
