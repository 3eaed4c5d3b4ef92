use the_numbers::ai_day::{AiQuestion, DayResponse, Difficulty};
use the_numbers::days::day_tag;
use the_numbers::skill::Skill;
use the_numbers::stats::{DayCounts, SkillCount};
use the_numbers::summary::{
    focus_next, most_practiced, pct_label, pct_label_from, percent, skills_covered, strongest, total_attempts_for_week,
    total_correct,
};

fn sc(attempts: u32, correct: u32) -> SkillCount {
    SkillCount { attempts, correct }
}

#[test]
fn percent_rounds_half_up() {
    assert_eq!(percent(0, 0), None);
    assert_eq!(percent(3, 2), Some(67));
    assert_eq!(percent(8, 1), Some(13));
    assert_eq!(percent(200, 1), Some(1));
    assert_eq!(percent(3, 1), Some(33));
    assert_eq!(percent(10, 10), Some(100));
}

#[test]
fn percent_labels() {
    assert_eq!(pct_label(0, 0), "—");
    assert_eq!(pct_label(4, 3), "75%");
    assert_eq!(pct_label_from(&sc(3, 2)), "67%");
    assert_eq!(pct_label_from(&sc(0, 0)), "—");
}

#[test]
fn week_totals() {
    let t = DayCounts { addition: sc(3, 2), word: sc(u32::MAX, 1), ..DayCounts::default() };
    assert_eq!(total_attempts_for_week(&t), 3 + u32::MAX as u64);
    assert_eq!(total_correct(&t), 3);
}

#[test]
fn most_practiced_breaks_ties_in_skill_order() {
    let t = DayCounts { subtraction: sc(5, 1), division: sc(5, 5), ..DayCounts::default() };
    assert_eq!(most_practiced(&t), Some(Skill::Subtraction));
    assert_eq!(most_practiced(&DayCounts::default()), None);
}

#[test]
fn strongest_and_focus_need_ten_attempts() {
    let t = DayCounts {
        addition: sc(10, 9),
        subtraction: sc(12, 6),
        multiplication: sc(9, 9),
        division: sc(10, 5),
        ..DayCounts::default()
    };
    assert_eq!(strongest(&t, 10), Some(Skill::Addition));
    assert_eq!(focus_next(&t, 10), Some(Skill::Subtraction));
    assert_eq!(strongest(&DayCounts { addition: sc(9, 9), ..DayCounts::default() }, 10), None);
}

#[test]
fn focus_is_lowest_even_above_threshold() {
    let t = DayCounts { addition: sc(10, 9), mixed: sc(10, 8), ..DayCounts::default() };
    assert_eq!(focus_next(&t, 10), Some(Skill::Unknown));
    assert_eq!(strongest(&t, 3), Some(Skill::Addition));
}

#[test]
fn covered_skills_alphabetical() {
    let q = |p: &str| AiQuestion { prompt: p.to_string(), answer: "1".to_string(), difficulty: Difficulty::Core };
    let d = DayResponse {
        version: 1,
        grade: 3,
        day_id: 1,
        date_ymd: "2024-06-10".to_string(),
        items: vec![q("What is 4 × 5?"), q("How many legs?"), q("2 + 2"), q("3 + 4"), q("Is 6 even?")],
        source: "ai".to_string(),
    };
    assert_eq!(
        skills_covered(Some(&d), "2024-06-10"),
        vec!["Addition", "Mixed Skills", "Multiplication", "Word Problems"]
    );
    assert!(skills_covered(Some(&d), "2024-06-11").is_empty());
    assert!(skills_covered(None, "2024-06-10").is_empty());
}

#[test]
fn day_badges() {
    assert_eq!(day_tag(1), ("🔍", "Detective Day"));
    assert_eq!(day_tag(12).1, "Strategy Day");
    assert_eq!(day_tag(99), ("✨", "Math Day"));
}
