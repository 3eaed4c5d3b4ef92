use the_numbers::ai_day::{needs_refresh, AiQuestion, DayResponse, Difficulty as AiDifficulty};
use the_numbers::grade::Grade;
use the_numbers::questions::questions_for;
use the_numbers::selector::{active_source, choose_pool, pick_from, pick_question, Pick};

fn cached(date: &str, items: Vec<(&str, &str, AiDifficulty)>) -> DayResponse {
    DayResponse {
        version: 1,
        grade: 3,
        day_id: 4,
        date_ymd: date.to_string(),
        items: items
            .into_iter()
            .map(|(p, a, d)| AiQuestion { prompt: p.to_string(), answer: a.to_string(), difficulty: d })
            .collect(),
        source: "ai".to_string(),
    }
}

fn local(day: usize, g: Grade) -> Vec<Pick> {
    questions_for(day, g)
        .iter()
        .map(|q| (q.prompt.to_string(), q.answer.to_string(), q.difficulty == the_numbers::questions::Difficulty::Stretch))
        .collect()
}

#[test]
fn stale_cache_is_not_used() {
    let c = cached("2024-06-09", vec![("AI question", "1", AiDifficulty::Core)]);
    let bank = questions_for(4, Grade::G3);
    let src = active_source(&bank, "2024-06-10", Some(&c));
    assert_eq!(src, local(4, Grade::G3));
    for _ in 0..50 {
        let (p, _, _) = pick_question(4, Grade::G3, "2024-06-10", Some(&c));
        assert_ne!(p, "AI question");
    }
    assert!(needs_refresh(Some(&c), "2024-06-10"));
    assert_eq!(c.date_ymd, "2024-06-09");
}

#[test]
fn fresh_cache_is_used() {
    let c = cached("2024-06-10", vec![("AI question", "1", AiDifficulty::Core)]);
    let bank = questions_for(4, Grade::G3);
    let src = active_source(&bank, "2024-06-10", Some(&c));
    assert_eq!(src, vec![("AI question".to_string(), "1".to_string(), false)]);
    let (p, a, s) = pick_question(4, Grade::G3, "2024-06-10", Some(&c));
    assert_eq!((p.as_str(), a.as_str(), s), ("AI question", "1", false));
    assert!(!needs_refresh(Some(&c), "2024-06-10"));
    assert!(needs_refresh(None, "2024-06-10"));
}

#[test]
fn empty_fresh_cache_falls_back_to_bank() {
    let c = cached("2024-06-10", vec![]);
    let bank = questions_for(2, Grade::G1);
    assert_eq!(active_source(&bank, "2024-06-10", Some(&c)), local(2, Grade::G1));
    assert_eq!(active_source(&bank, "2024-06-10", None), local(2, Grade::G1));
}

#[test]
fn draws_choose_the_pool() {
    let src = local(1, Grade::G2);
    for d in 0..3usize {
        let pool = choose_pool(&src, d);
        assert_eq!(pool.len(), 1);
        assert!(pool[0].2);
    }
    for d in 3..10usize {
        let pool = choose_pool(&src, d);
        assert_eq!(pool.len(), 2);
        assert!(pool.iter().all(|p| !p.2));
    }
}

#[test]
fn empty_kind_falls_back_to_whole_source() {
    let only_stretch: Vec<Pick> = vec![("s".to_string(), "1".to_string(), true)];
    assert_eq!(choose_pool(&only_stretch, 7), only_stretch);
    let only_core: Vec<Pick> = vec![("c".to_string(), "1".to_string(), false)];
    assert_eq!(choose_pool(&only_core, 0), only_core);
}

#[test]
fn stretch_share_is_about_thirty_percent() {
    let src = local(5, Grade::G4);
    let n = 20000;
    let mut stretch = 0;
    for _ in 0..n {
        let p = pick_from(&src);
        assert!(src.contains(&p));
        if p.2 {
            stretch += 1;
        }
    }
    let share = stretch as f64 / n as f64;
    assert!(share > 0.27 && share < 0.33, "share {}", share);
}

#[test]
fn picks_vary_within_the_core_pool() {
    let src = local(3, Grade::G3);
    let mut seen = std::collections::HashSet::new();
    for _ in 0..500 {
        seen.insert(pick_from(&src).0);
    }
    assert_eq!(seen.len(), 3);
}
