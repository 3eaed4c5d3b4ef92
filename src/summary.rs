//! Read-only summaries of the statistics for parents: totals, accuracy
//! labels, the most practiced, strongest and weakest skills, and the skills
//! a day's questions cover.
use vstd::prelude::*;

use crate::ai_day::{AiQuestion, DayResponse};
use crate::skill::{classify_skill, skill_label, skill_name, skill_of, Skill};
use crate::stats::{DayCounts, SkillCount};
use crate::text::{decimal, lower_of, push_decimal, str_eq};

verus! {

/// `correct` out of `attempts` as a whole percentage, rounded half up.
pub open spec fn rounded_percent(correct: int, attempts: int) -> int {
    (200 * correct + attempts) / (2 * attempts)
}

/// Accuracy as a whole percentage, rounded to the nearest; `None` before
/// any attempt.
pub fn percent(attempts: u64, correct: u64) -> (r: Option<u128>)
    ensures
        attempts == 0 ==> r is None,
        attempts > 0 ==> r == Some(rounded_percent(correct as int, attempts as int) as u128),
{
    if attempts == 0 {
        None
    } else {
        let a = attempts as u128;
        let c = correct as u128;
        assert(200 * c + a <= 201 * 0x1_0000_0000_0000_0000) by (nonlinear_arith)
            requires
                c < 0x1_0000_0000_0000_0000,
                a < 0x1_0000_0000_0000_0000,
        ;
        Some((200 * c + a) / (2 * a))
    }
}

/// How an accuracy is shown: "N%", or "—" before any attempt.
pub open spec fn percent_text(attempts: int, correct: int) -> Seq<char> {
    if attempts == 0 {
        "—"@
    } else {
        decimal(rounded_percent(correct, attempts) as nat) + "%"@
    }
}

/// The accuracy label of `correct` out of `attempts`.
pub fn pct_label(attempts: u64, correct: u64) -> (r: String)
    ensures
        r@ == percent_text(attempts as int, correct as int),
{
    match percent(attempts, correct) {
        None => String::from_str("—"),
        Some(p) => {
            let mut r = String::new();
            push_decimal(&mut r, p);
            r.append("%");
            r
        },
    }
}

/// The accuracy label of one skill's counts.
pub fn pct_label_from(sc: &SkillCount) -> (r: String)
    ensures
        r@ == percent_text(sc.attempts as int, sc.correct as int),
{
    pct_label(sc.attempts as u64, sc.correct as u64)
}

/// Sum of the attempts over all skills.
pub open spec fn all_attempts(t: DayCounts) -> int {
    t.addition.attempts + t.subtraction.attempts + t.multiplication.attempts + t.division.attempts
        + t.word.attempts + t.mixed.attempts
}

/// Sum of the correct answers over all skills.
pub open spec fn all_correct(t: DayCounts) -> int {
    t.addition.correct + t.subtraction.correct + t.multiplication.correct + t.division.correct
        + t.word.correct + t.mixed.correct
}

/// Attempts over all skills.
pub fn total_attempts_for_week(t: &DayCounts) -> (r: u64)
    ensures
        r == all_attempts(*t),
{
    t.addition.attempts as u64 + t.subtraction.attempts as u64 + t.multiplication.attempts as u64
        + t.division.attempts as u64 + t.word.attempts as u64 + t.mixed.attempts as u64
}

/// Correct answers over all skills.
pub fn total_correct(t: &DayCounts) -> (r: u64)
    ensures
        r == all_correct(*t),
{
    t.addition.correct as u64 + t.subtraction.correct as u64 + t.multiplication.correct as u64
        + t.division.correct as u64 + t.word.correct as u64 + t.mixed.correct as u64
}

/// The skills in the order in which ties are broken.
pub open spec fn skill_at(i: int) -> Skill {
    if i == 0 {
        Skill::Addition
    } else if i == 1 {
        Skill::Subtraction
    } else if i == 2 {
        Skill::Multiplication
    } else if i == 3 {
        Skill::Division
    } else if i == 4 {
        Skill::WordProblem
    } else {
        Skill::Unknown
    }
}

fn skill_at_index(i: usize) -> (r: Skill)
    ensures
        r == skill_at(i as int),
{
    if i == 0 {
        Skill::Addition
    } else if i == 1 {
        Skill::Subtraction
    } else if i == 2 {
        Skill::Multiplication
    } else if i == 3 {
        Skill::Division
    } else if i == 4 {
        Skill::WordProblem
    } else {
        Skill::Unknown
    }
}

/// A skill takes part in a ranking once it has at least `min` attempts.
pub open spec fn eligible(t: DayCounts, min: u32, i: int) -> bool {
    t.count(skill_at(i)).attempts >= min
}

/// What a skill is ranked by: its attempts, or its rounded accuracy.
pub open spec fn rank_key(t: DayCounts, by_accuracy: bool, i: int) -> int {
    let c = t.count(skill_at(i));
    if by_accuracy {
        rounded_percent(c.correct as int, c.attempts as int)
    } else {
        c.attempts as int
    }
}

pub open spec fn beats(x: int, y: int, highest: bool) -> bool {
    if highest { x > y } else { x < y }
}

/// Skill `i` ranks first: it is eligible, no eligible skill beats it, and it
/// beats every eligible skill listed before it.
pub open spec fn ranks_first(t: DayCounts, min: u32, by_accuracy: bool, highest: bool, i: int) -> bool {
    &&& 0 <= i < 6
    &&& eligible(t, min, i)
    &&& forall|j: int| 0 <= j < 6 && eligible(t, min, j) ==> !beats(#[trigger] rank_key(t, by_accuracy, j), rank_key(t, by_accuracy, i), highest)
    &&& forall|j: int| 0 <= j < i && eligible(t, min, j) ==> beats(rank_key(t, by_accuracy, i), #[trigger] rank_key(t, by_accuracy, j), highest)
}

/// `r` is the skill that ranks first, or `None` when no skill is eligible.
pub open spec fn ranking(t: DayCounts, min: u32, by_accuracy: bool, highest: bool, r: Option<Skill>) -> bool {
    match r {
        None => forall|j: int| 0 <= j < 6 ==> !#[trigger] eligible(t, min, j),
        Some(s) => exists|i: int| #[trigger] ranks_first(t, min, by_accuracy, highest, i) && s == skill_at(i),
    }
}

fn key_of(t: &DayCounts, by_accuracy: bool, i: usize) -> (r: u128)
    requires
        i < 6,
        by_accuracy ==> t.count(skill_at(i as int)).attempts > 0,
    ensures
        r == rank_key(*t, by_accuracy, i as int),
{
    let c = t.skill(skill_at_index(i));
    if by_accuracy {
        percent(c.attempts as u64, c.correct as u64).unwrap()
    } else {
        c.attempts as u128
    }
}

fn first_ranked(t: &DayCounts, min: u32, by_accuracy: bool, highest: bool) -> (r: Option<Skill>)
    requires
        min >= 1,
    ensures
        ranking(*t, min, by_accuracy, highest, r),
{
    let mut best: Option<usize> = None;
    let mut best_key: u128 = 0;
    let mut i: usize = 0;
    while i < 6
        invariant
            min >= 1,
            i <= 6,
            best is None ==> forall|j: int| 0 <= j < i ==> !#[trigger] eligible(*t, min, j),
            best is Some ==> {
                let b = best->0 as int;
                &&& b < i
                &&& eligible(*t, min, b)
                &&& best_key == rank_key(*t, by_accuracy, b)
                &&& forall|j: int| 0 <= j < i && eligible(*t, min, j) ==> !beats(#[trigger] rank_key(*t, by_accuracy, j), rank_key(*t, by_accuracy, b), highest)
                &&& forall|j: int| 0 <= j < b && eligible(*t, min, j) ==> beats(rank_key(*t, by_accuracy, b), #[trigger] rank_key(*t, by_accuracy, j), highest)
            },
        decreases 6 - i,
    {
        let c = t.skill(skill_at_index(i));
        if c.attempts >= min {
            let k = key_of(t, by_accuracy, i);
            let better = match best {
                None => true,
                Some(_) => if highest { k > best_key } else { k < best_key },
            };
            if better {
                best = Some(i);
                best_key = k;
            }
        }
        i = i + 1;
    }
    match best {
        None => None,
        Some(b) => {
            assert(ranks_first(*t, min, by_accuracy, highest, b as int));
            Some(skill_at_index(b))
        },
    }
}

/// The skill with the most attempts (the first such in skill order), or
/// `None` when nothing was attempted.
pub fn most_practiced(t: &DayCounts) -> (r: Option<Skill>)
    ensures
        ranking(*t, 1, false, true, r),
{
    first_ranked(t, 1, false, true)
}

/// Among skills with at least `min_attempts` attempts, the one with the
/// highest rounded accuracy (the first such in skill order).
pub fn strongest(t: &DayCounts, min_attempts: u32) -> (r: Option<Skill>)
    requires
        min_attempts >= 1,
    ensures
        ranking(*t, min_attempts, true, true, r),
{
    first_ranked(t, min_attempts, true, true)
}

/// Among skills with at least `min_attempts` attempts, the one with the
/// lowest rounded accuracy (the first such in skill order): the skill to
/// work on next.
pub fn focus_next(t: &DayCounts, min_attempts: u32) -> (r: Option<Skill>)
    requires
        min_attempts >= 1,
    ensures
        ranking(*t, min_attempts, true, false, r),
{
    first_ranked(t, min_attempts, true, false)
}

/// The skills in alphabetical order of their names.
pub open spec fn alpha_skill(i: int) -> Skill {
    if i == 0 {
        Skill::Addition
    } else if i == 1 {
        Skill::Division
    } else if i == 2 {
        Skill::Unknown
    } else if i == 3 {
        Skill::Multiplication
    } else if i == 4 {
        Skill::Subtraction
    } else {
        Skill::WordProblem
    }
}

fn alpha_skill_at(i: usize) -> (r: Skill)
    ensures
        r == alpha_skill(i as int),
{
    if i == 0 {
        Skill::Addition
    } else if i == 1 {
        Skill::Division
    } else if i == 2 {
        Skill::Unknown
    } else if i == 3 {
        Skill::Multiplication
    } else if i == 4 {
        Skill::Subtraction
    } else {
        Skill::WordProblem
    }
}

/// Some question in `items` is classified as skill `k`.
pub open spec fn covers(items: Seq<AiQuestion>, k: Skill) -> bool {
    exists|j: int| 0 <= j < items.len() && skill_of(lower_of(#[trigger] items[j].prompt@)) == k
}

/// The names of the first `i` skills in alphabetical order that `items` covers.
pub open spec fn covered_names(items: Seq<AiQuestion>, i: int) -> Seq<Seq<char>>
    decreases i,
{
    if i <= 0 {
        Seq::empty()
    } else if covers(items, alpha_skill(i - 1)) {
        covered_names(items, i - 1).push(skill_name(alpha_skill(i - 1)))
    } else {
        covered_names(items, i - 1)
    }
}

pub open spec fn label_views(v: Seq<&'static str>) -> Seq<Seq<char>> {
    v.map_values(|x: &'static str| x@)
}

fn skill_slot(k: Skill) -> (r: usize)
    ensures
        r < 6,
        alpha_skill(r as int) == k,
{
    match k {
        Skill::Addition => 0,
        Skill::Division => 1,
        Skill::Unknown => 2,
        Skill::Multiplication => 3,
        Skill::Subtraction => 4,
        Skill::WordProblem => 5,
    }
}

/// The names of the skills that today's cached questions cover, in
/// alphabetical order, each once; none when the cached set is missing or
/// dated another day.
pub fn skills_covered(cached: Option<&DayResponse>, today: &str) -> (r: Vec<&'static str>)
    ensures
        label_views(r@) == match cached {
            Some(d) => if d.date_ymd@ == today@ {
                covered_names(d.items@, 6)
            } else {
                Seq::empty()
            },
            None => Seq::empty(),
        },
{
    let mut r: Vec<&'static str> = Vec::new();
    let d = match cached {
        None => {
            assert(label_views(r@) =~= Seq::<Seq<char>>::empty());
            return r;
        },
        Some(d) => d,
    };
    if !str_eq(d.date_ymd.as_str(), today) {
        assert(label_views(r@) =~= Seq::<Seq<char>>::empty());
        return r;
    }
    let items = &d.items;
    let mut seen: Vec<bool> = vec![false, false, false, false, false, false];
    let mut j: usize = 0;
    while j < items.len()
        invariant
            j <= items@.len(),
            seen@.len() == 6,
            forall|i: int| 0 <= i < 6 ==> #[trigger] seen@[i] == exists|m: int|
                0 <= m < j && skill_of(lower_of(#[trigger] items@[m].prompt@)) == alpha_skill(i),
        decreases items.len() - j,
    {
        let k = classify_skill(items[j].prompt.as_str());
        let slot = skill_slot(k);
        seen.set(slot, true);
        proof {
            assert forall|i: int| 0 <= i < 6 implies #[trigger] seen@[i] == exists|m: int|
                0 <= m < j + 1 && skill_of(lower_of(#[trigger] items@[m].prompt@)) == alpha_skill(i) by {
                if i == slot as int {
                    assert(skill_of(lower_of(items@[j as int].prompt@)) == alpha_skill(i));
                } else {
                    assert(alpha_skill(i) != alpha_skill(slot as int));
                }
            }
        }
        j = j + 1;
    }
    let mut i: usize = 0;
    while i < 6
        invariant
            i <= 6,
            seen@.len() == 6,
            forall|q: int| 0 <= q < 6 ==> #[trigger] seen@[q] == covers(items@, alpha_skill(q)),
            label_views(r@) == covered_names(items@, i as int),
        decreases 6 - i,
    {
        let ghost prev = label_views(r@);
        if seen[i] {
            let name = skill_label(alpha_skill_at(i));
            r.push(name);
            assert(label_views(r@) =~= prev.push(name@));
        }
        i = i + 1;
    }
    r
}

} // verus!
