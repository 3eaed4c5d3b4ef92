use the_numbers::skill::Skill;
use the_numbers::stats::{last_n_days, record_attempt, sum_days, sum_days_checked, DayCounts, SkillCount, WeeklyStats, MAX_DAYS_TO_KEEP};
use the_numbers::storage::date_text;

fn date(i: u32) -> String {
    // i-th day counted from 2024-01-01, within one year of 28-day months
    date_text(2024, 1 + i / 28, 1 + i % 28)
}

fn empty() -> WeeklyStats {
    WeeklyStats { days: Vec::new() }
}

#[test]
fn skill_count_record() {
    let mut c = SkillCount::default();
    c.record(true);
    c.record(false);
    assert_eq!(c, SkillCount { attempts: 2, correct: 1 });
}

#[test]
fn record_attempt_increments_by_one() {
    let mut st = empty();
    let today = "2024-03-05";
    for k in 0..5u32 {
        let before = st.counts_for(today, Skill::Division);
        let ok = k % 2 == 0;
        record_attempt(&mut st, today, Skill::Division, ok);
        let after = st.counts_for(today, Skill::Division);
        assert_eq!(after.attempts, before.attempts + 1);
        assert_eq!(after.correct, before.correct + if ok { 1 } else { 0 });
    }
    assert_eq!(st.days.len(), 1);
    assert_eq!(st.counts_for(today, Skill::Addition), SkillCount::default());
    assert!(st.is_well_formed());
}

#[test]
fn forty_six_dates_keep_the_newest_forty_five() {
    let mut st = empty();
    for i in 0..46u32 {
        record_attempt(&mut st, &date(i), Skill::Addition, true);
    }
    assert_eq!(st.days.len(), MAX_DAYS_TO_KEEP);
    let kept: Vec<String> = st.days.iter().map(|d| d.0.clone()).collect();
    let expected: Vec<String> = (1..46u32).map(date).collect();
    assert_eq!(kept, expected);
    assert!(!kept.contains(&date(0)));
    assert!(st.is_well_formed());
}

#[test]
fn pruning_keeps_dates_sorted_oldest_first() {
    let mut st = empty();
    for i in [5u32, 2, 9, 1] {
        record_attempt(&mut st, &date(i), Skill::Unknown, false);
    }
    let kept: Vec<String> = st.days.iter().map(|d| d.0.clone()).collect();
    assert_eq!(kept, vec![date(1), date(2), date(5), date(9)]);
}

#[test]
fn last_seven_days_are_newest_first_and_sum() {
    let mut st = empty();
    for i in 0..10u32 {
        for _ in 0..=i {
            record_attempt(&mut st, &date(i), Skill::Subtraction, i % 2 == 0);
        }
    }
    let week = last_n_days(&st, 7);
    let dates: Vec<String> = week.iter().map(|d| d.0.clone()).collect();
    let expected: Vec<String> = (3..10u32).rev().map(date).collect();
    assert_eq!(dates, expected);
    let totals = sum_days(&week);
    // attempts on days 3..=9 are 4 + 5 + ... + 10
    assert_eq!(totals.subtraction.attempts, (4..=10).sum::<u32>());
    // correct only on even days 4, 6, 8: 5 + 7 + 9
    assert_eq!(totals.subtraction.correct, 5 + 7 + 9);
    assert_eq!(totals.addition, SkillCount::default());
}

#[test]
fn last_days_with_fewer_entries() {
    let mut st = empty();
    record_attempt(&mut st, "2024-05-02", Skill::Addition, true);
    record_attempt(&mut st, "2024-05-01", Skill::Addition, false);
    let week = last_n_days(&st, 7);
    assert_eq!(week.len(), 2);
    assert_eq!(week[0].0, "2024-05-02");
    assert_eq!(sum_days(&week).addition, SkillCount { attempts: 2, correct: 1 });
    assert_eq!(last_n_days(&st, 0).len(), 0);
}

#[test]
fn sum_days_checked_reports_overflow() {
    let big = DayCounts { addition: SkillCount { attempts: u32::MAX, correct: 0 }, ..DayCounts::default() };
    let days = vec![("2024-01-01".to_string(), big), ("2024-01-02".to_string(), big)];
    assert!(sum_days_checked(&days).is_none());
    assert!(sum_days_checked(&days[..1]).is_some());
    assert_eq!(sum_days(&[]), DayCounts::default());
}

#[test]
fn well_formedness_check() {
    let c = DayCounts::default();
    let dup = WeeklyStats { days: vec![("2024-01-01".to_string(), c), ("2024-01-01".to_string(), c)] };
    assert!(!dup.is_well_formed());
    let bad = DayCounts { word: SkillCount { attempts: 1, correct: 2 }, ..DayCounts::default() };
    let st = WeeklyStats { days: vec![("2024-01-01".to_string(), bad)] };
    assert!(!st.is_well_formed());
    assert!(WeeklyStats::default().is_well_formed());
}

#[test]
fn skill_mut_updates_one_counter() {
    let mut d = DayCounts::default();
    d.skill_mut(Skill::WordProblem).record(true);
    assert_eq!(d.word, SkillCount { attempts: 1, correct: 1 });
    assert_eq!(d.skill(Skill::WordProblem), d.word);
    assert_eq!(d.addition, SkillCount::default());
}
