//! Weekly statistics: per-day, per-skill attempt counters kept for a rolling
//! window of the most recent dates.
use vstd::prelude::*;

use crate::skill::Skill;
use crate::text::{lemma_lt_asymmetric, lemma_lt_irreflexive, lemma_lt_total, lemma_lt_transitive, seq_lt, str_eq, str_lt};

verus! {

/// How many distinct dates the store keeps.
pub const MAX_DAYS_TO_KEEP: usize = 45;

/// Attempts and correct answers for one skill.
#[derive(Clone, Copy, Debug, PartialEq, Eq, Structural)]
pub struct SkillCount {
    pub attempts: u32,
    pub correct: u32,
}

impl SkillCount {
    /// Never more correct answers than attempts.
    pub open spec fn wf(&self) -> bool {
        self.correct <= self.attempts
    }

    /// The count after one more attempt, correct or not.
    pub open spec fn bumped(self, ok: bool) -> SkillCount {
        SkillCount {
            attempts: (self.attempts + 1) as u32,
            correct: if ok { (self.correct + 1) as u32 } else { self.correct },
        }
    }

    pub open spec fn zero() -> SkillCount {
        SkillCount { attempts: 0, correct: 0 }
    }

    /// Counts one attempt; a correct one also counts as correct.
    pub fn record(&mut self, ok: bool)
        requires
            old(self).wf(),
            old(self).attempts < u32::MAX,
        ensures
            *final(self) == old(self).bumped(ok),
            final(self).wf(),
    {
        self.attempts = self.attempts + 1;
        if ok {
            self.correct = self.correct + 1;
        }
    }
}

impl Default for SkillCount {
    fn default() -> (r: SkillCount)
        ensures
            r == SkillCount::zero(),
    {
        SkillCount { attempts: 0, correct: 0 }
    }
}

/// One day's counts, one per skill.
#[derive(Clone, Copy, Debug, PartialEq, Eq, Structural)]
pub struct DayCounts {
    pub addition: SkillCount,
    pub subtraction: SkillCount,
    pub multiplication: SkillCount,
    pub division: SkillCount,
    pub word: SkillCount,
    pub mixed: SkillCount,
}

impl DayCounts {
    pub open spec fn zero() -> DayCounts {
        DayCounts {
            addition: SkillCount::zero(),
            subtraction: SkillCount::zero(),
            multiplication: SkillCount::zero(),
            division: SkillCount::zero(),
            word: SkillCount::zero(),
            mixed: SkillCount::zero(),
        }
    }

    /// The counter that belongs to skill `s`.
    pub open spec fn count(self, s: Skill) -> SkillCount {
        match s {
            Skill::Addition => self.addition,
            Skill::Subtraction => self.subtraction,
            Skill::Multiplication => self.multiplication,
            Skill::Division => self.division,
            Skill::WordProblem => self.word,
            Skill::Unknown => self.mixed,
        }
    }

    /// These counts with the counter of skill `s` replaced by `c`.
    pub open spec fn with_count(self, s: Skill, c: SkillCount) -> DayCounts {
        match s {
            Skill::Addition => DayCounts { addition: c, ..self },
            Skill::Subtraction => DayCounts { subtraction: c, ..self },
            Skill::Multiplication => DayCounts { multiplication: c, ..self },
            Skill::Division => DayCounts { division: c, ..self },
            Skill::WordProblem => DayCounts { word: c, ..self },
            Skill::Unknown => DayCounts { mixed: c, ..self },
        }
    }

    pub open spec fn wf(self) -> bool {
        &&& self.addition.wf()
        &&& self.subtraction.wf()
        &&& self.multiplication.wf()
        &&& self.division.wf()
        &&& self.word.wf()
        &&& self.mixed.wf()
    }

    /// The counter of skill `s`, for reading.
    pub fn skill(&self, s: Skill) -> (r: SkillCount)
        ensures
            r == self.count(s),
    {
        match s {
            Skill::Addition => self.addition,
            Skill::Subtraction => self.subtraction,
            Skill::Multiplication => self.multiplication,
            Skill::Division => self.division,
            Skill::WordProblem => self.word,
            Skill::Unknown => self.mixed,
        }
    }

    /// The counter of skill `s`, for updating in place.
    pub fn skill_mut(&mut self, s: Skill) -> (r: &mut SkillCount)
        ensures
            *r == old(self).count(s),
            *final(self) == old(self).with_count(s, *final(r)),
    {
        match s {
            Skill::Addition => &mut self.addition,
            Skill::Subtraction => &mut self.subtraction,
            Skill::Multiplication => &mut self.multiplication,
            Skill::Division => &mut self.division,
            Skill::WordProblem => &mut self.word,
            Skill::Unknown => &mut self.mixed,
        }
    }
}

impl Default for DayCounts {
    fn default() -> (r: DayCounts)
        ensures
            r == DayCounts::zero(),
    {
        DayCounts {
            addition: SkillCount::default(),
            subtraction: SkillCount::default(),
            multiplication: SkillCount::default(),
            division: SkillCount::default(),
            word: SkillCount::default(),
            mixed: SkillCount::default(),
        }
    }
}

/// A stored day as the contracts see it: its date text and its counts.
pub type DayEntry = (Seq<char>, DayCounts);

pub open spec fn entry_view(e: (String, DayCounts)) -> DayEntry {
    (e.0@, e.1)
}

pub open spec fn entries(v: Seq<(String, DayCounts)>) -> Seq<DayEntry> {
    v.map_values(|e: (String, DayCounts)| entry_view(e))
}

/// No two entries share a date.
pub open spec fn unique_dates(s: Seq<DayEntry>) -> bool {
    forall|i: int, j: int| 0 <= i < s.len() && 0 <= j < s.len() && i != j ==> #[trigger] s[i].0 != #[trigger] s[j].0
}

pub open spec fn counts_wf(s: Seq<DayEntry>) -> bool {
    forall|i: int| 0 <= i < s.len() ==> (#[trigger] s[i]).1.wf()
}

/// Dates strictly decrease along `s`.
pub open spec fn newest_first(s: Seq<DayEntry>) -> bool {
    forall|i: int, j: int| 0 <= i < j < s.len() ==> seq_lt(#[trigger] s[j].0, #[trigger] s[i].0)
}

/// Dates strictly increase along `s`.
pub open spec fn oldest_first(s: Seq<DayEntry>) -> bool {
    forall|i: int, j: int| 0 <= i < j < s.len() ==> seq_lt(#[trigger] s[i].0, #[trigger] s[j].0)
}

pub open spec fn min_nat(a: nat, b: nat) -> nat {
    if a <= b { a } else { b }
}

/// `r` holds the entries of `src` with the `n` most recent dates (all of
/// them when `src` has fewer): as many as that, each taken from `src`, and
/// every entry of `src` left out is older than every entry kept.
pub open spec fn keeps_newest(src: Seq<DayEntry>, n: nat, r: Seq<DayEntry>) -> bool {
    &&& r.len() == min_nat(n, src.len())
    &&& forall|i: int| 0 <= i < r.len() ==> src.contains(#[trigger] r[i])
    &&& forall|e: DayEntry| #[trigger] src.contains(e) && !r.contains(e) ==> older_than_all(e.0, r)
}

/// `d` comes before every date of `r`.
pub open spec fn older_than_all(d: Seq<char>, r: Seq<DayEntry>) -> bool {
    forall|i: int| 0 <= i < r.len() ==> seq_lt(d, #[trigger] r[i].0)
}

/// Per-day skill counters for the most recent dates.
#[derive(Clone, Debug)]
pub struct WeeklyStats {
    /// Dates ("YYYY-MM-DD") with their counts.
    pub days: Vec<(String, DayCounts)>,
}

impl View for WeeklyStats {
    type V = Seq<DayEntry>;

    open spec fn view(&self) -> Seq<DayEntry> {
        entries(self.days@)
    }
}

impl WeeklyStats {
    /// One entry per date, and every counter consistent.
    pub open spec fn wf(&self) -> bool {
        unique_dates(self@) && counts_wf(self@)
    }
}

impl WeeklyStats {
    /// Whether the stored days meet `wf`: one entry per date and no counter
    /// with more correct answers than attempts.
    pub fn is_well_formed(&self) -> (r: bool)
        ensures
            r == self.wf(),
    {
        let n = self.days.len();
        let mut i: usize = 0;
        while i < n
            invariant
                n == self.days@.len(),
                i <= n,
                forall|a: int, b: int| 0 <= a < i && 0 <= b < n && a != b ==> #[trigger] self@[a].0 != #[trigger] self@[b].0,
                forall|a: int| 0 <= a < i ==> (#[trigger] self@[a]).1.wf(),
            decreases n - i,
        {
            let c = self.days[i].1;
            if !(c.addition.correct <= c.addition.attempts && c.subtraction.correct <= c.subtraction.attempts
                && c.multiplication.correct <= c.multiplication.attempts && c.division.correct <= c.division.attempts
                && c.word.correct <= c.word.attempts && c.mixed.correct <= c.mixed.attempts) {
                assert(!self@[i as int].1.wf());
                return false;
            }
            let mut j: usize = 0;
            while j < n
                invariant
                    n == self.days@.len(),
                    i < n,
                    j <= n,
                    forall|b: int| 0 <= b < j && b != i ==> #[trigger] self@[b].0 != self@[i as int].0,
                decreases n - j,
            {
                if j != i && str_eq(self.days[i].0.as_str(), self.days[j].0.as_str()) {
                    assert(self@[i as int].0 == self@[j as int].0);
                    return false;
                }
                j = j + 1;
            }
            i = i + 1;
        }
        true
    }

    /// The counter of skill `skill` on date `ymd` (zero when that date has no entry).
    pub fn counts_for(&self, ymd: &str, skill: Skill) -> (r: SkillCount)
        requires
            unique_dates(self@),
        ensures
            r == counts_on(self@, ymd@, skill),
    {
        match position_of_date(self, ymd) {
            Some(i) => self.days[i].1.skill(skill),
            None => SkillCount::default(),
        }
    }
}

impl Default for WeeklyStats {
    fn default() -> (r: WeeklyStats)
        ensures
            r@ == Seq::<DayEntry>::empty(),
            r.wf(),
    {
        let r = WeeklyStats { days: Vec::new() };
        assert(r@ =~= Seq::<DayEntry>::empty());
        r
    }
}

/// An owned copy of the stored days.
fn copy_days(days: &Vec<(String, DayCounts)>) -> (r: Vec<(String, DayCounts)>)
    ensures
        entries(r@) == entries(days@),
{
    let mut r: Vec<(String, DayCounts)> = Vec::new();
    let mut i: usize = 0;
    while i < days.len()
        invariant
            i <= days.len(),
            entries(r@) == entries(days@.subrange(0, i as int)),
        decreases days.len() - i,
    {
        let date = days[i].0.clone();
        r.push((date, days[i].1));
        proof {
            assert(entries(days@.subrange(0, i + 1)) =~= entries(days@.subrange(0, i as int)).push(entry_view(days@[i as int])));
            assert(entries(r@) =~= entries(days@.subrange(0, i as int)).push(entry_view(days@[i as int])));
        }
        i = i + 1;
    }
    assert(days@.subrange(0, days@.len() as int) =~= days@);
    r
}

/// Index of an entry whose date no other entry exceeds.
fn newest_index(pool: &Vec<(String, DayCounts)>) -> (m: usize)
    requires
        pool.len() > 0,
    ensures
        m < pool.len(),
        forall|j: int| 0 <= j < pool.len() ==> !seq_lt(#[trigger] entries(pool@)[m as int].0, entries(pool@)[j].0),
{
    let ghost s = entries(pool@);
    let mut m: usize = 0;
    let mut j: usize = 1;
    proof {
        lemma_lt_irreflexive(s[0].0);
    }
    while j < pool.len()
        invariant
            s == entries(pool@),
            m < j <= pool.len(),
            forall|k: int| 0 <= k < j ==> !seq_lt(s[m as int].0, #[trigger] s[k].0),
        decreases pool.len() - j,
    {
        if str_lt(pool[m].0.as_str(), pool[j].0.as_str()) {
            proof {
                assert forall|k: int| 0 <= k < j + 1 implies !seq_lt(s[j as int].0, #[trigger] s[k].0) by {
                    lemma_lt_irreflexive(s[j as int].0);
                    lemma_lt_total(s[k].0, s[m as int].0);
                    lemma_lt_transitive(s[k].0, s[m as int].0, s[j as int].0);
                    lemma_lt_asymmetric(s[k].0, s[j as int].0);
                }
            }
            m = j;
        }
        j = j + 1;
    }
    m
}

/// The entries of `src` with the `n` most recent dates, newest first.
fn take_newest(src: Vec<(String, DayCounts)>, n: usize) -> (r: Vec<(String, DayCounts)>)
    requires
        unique_dates(entries(src@)),
    ensures
        keeps_newest(entries(src@), n as nat, entries(r@)),
        newest_first(entries(r@)),
{
    let ghost s0 = entries(src@);
    let mut pool = src;
    let mut out: Vec<(String, DayCounts)> = Vec::new();
    assert(entries(out@) =~= Seq::<DayEntry>::empty());
    while out.len() < n && pool.len() > 0
        invariant
            unique_dates(entries(pool@)),
            out.len() <= n,
            out.len() + pool.len() == s0.len(),
            newest_first(entries(out@)),
            forall|e: DayEntry| #[trigger] s0.contains(e) <==> (entries(out@).contains(e) || entries(pool@).contains(e)),
            forall|k: int| 0 <= k < pool.len() ==> older_than_all(#[trigger] entries(pool@)[k].0, entries(out@)),
            forall|i: int| 0 <= i < out.len() ==> s0.contains(#[trigger] entries(out@)[i]),
        decreases pool.len(),
    {
        let m = newest_index(&pool);
        let ghost p = entries(pool@);
        let ghost o = entries(out@);
        let x = pool.remove(m);
        out.push(x);
        proof {
            let mi = m as int;
            let rest = entries(pool@);
            let grown = entries(out@);
            let top = p[mi];
            assert(rest =~= p.remove(mi));
            assert(grown =~= o.push(top));
            assert forall|k: int| 0 <= k < rest.len() implies seq_lt(#[trigger] rest[k].0, top.0) by {
                let kk = if k < mi { k } else { k + 1 };
                assert(rest[k] == p[kk]);
                assert(!seq_lt(top.0, p[kk].0));
                lemma_lt_total(p[kk].0, top.0);
            }
            assert forall|e: DayEntry| #[trigger] p.contains(e) <==> (rest.contains(e) || e == top) by {
                if p.contains(e) {
                    let j = choose|j: int| 0 <= j < p.len() && p[j] == e;
                    if j < mi {
                        assert(rest[j] == e);
                    } else if j > mi {
                        assert(rest[j - 1] == e);
                    }
                }
                if rest.contains(e) {
                    let j = choose|j: int| 0 <= j < rest.len() && rest[j] == e;
                    if j < mi {
                        assert(p[j] == e);
                    } else {
                        assert(p[j + 1] == e);
                    }
                }
                if e == top {
                    assert(p[mi] == e);
                }
            }
            assert forall|e: DayEntry| #[trigger] grown.contains(e) <==> (o.contains(e) || e == top) by {
                if grown.contains(e) {
                    let j = choose|j: int| 0 <= j < grown.len() && grown[j] == e;
                    if j < o.len() {
                        assert(o[j] == e);
                    }
                }
                if o.contains(e) {
                    let j = choose|j: int| 0 <= j < o.len() && o[j] == e;
                    assert(grown[j] == e);
                }
                if e == top {
                    assert(grown[o.len() as int] == e);
                }
            }
            assert forall|e: DayEntry| #[trigger] s0.contains(e) <==> (grown.contains(e) || rest.contains(e)) by {
                assert(grown.contains(e) == (o.contains(e) || e == top));
                assert(p.contains(e) == (rest.contains(e) || e == top));
            }
            assert(p.contains(top)) by {
                assert(p[mi] == top);
            }
            assert(s0.contains(top));
            assert forall|k: int| 0 <= k < rest.len() implies older_than_all(#[trigger] rest[k].0, grown) by {
                let kk = if k < mi { k } else { k + 1 };
                assert(rest[k] == p[kk]);
                assert(older_than_all(p[kk].0, o));
                assert(seq_lt(rest[k].0, top.0));
                assert forall|i: int| 0 <= i < grown.len() implies seq_lt(rest[k].0, #[trigger] grown[i].0) by {
                    if i < o.len() {
                        assert(grown[i] == o[i]);
                    }
                }
            }
            assert(older_than_all(top.0, o)) by {
                assert(p[mi] == top);
            }
            assert forall|i: int, j: int| 0 <= i < j < grown.len() implies seq_lt(#[trigger] grown[j].0, #[trigger] grown[i].0) by {
                if j < o.len() {
                    assert(grown[j] == o[j] && grown[i] == o[i]);
                } else {
                    assert(grown[j] == top && grown[i] == o[i]);
                }
            }
            assert forall|i: int| 0 <= i < grown.len() implies s0.contains(#[trigger] grown[i]) by {
                if i < o.len() {
                    assert(grown[i] == o[i]);
                }
            }
            assert forall|i: int, j: int| 0 <= i < rest.len() && 0 <= j < rest.len() && i != j implies #[trigger] rest[i].0 != #[trigger] rest[j].0 by {
                let ii = if i < mi { i } else { i + 1 };
                let jj = if j < mi { j } else { j + 1 };
                assert(rest[i] == p[ii] && rest[j] == p[jj]);
            }
        }
    }
    proof {
        let o = entries(out@);
        let p = entries(pool@);
        assert forall|e: DayEntry| #[trigger] s0.contains(e) && !o.contains(e) implies older_than_all(e.0, o) by {
            assert(p.contains(e));
            let j = choose|j: int| 0 <= j < p.len() && p[j] == e;
            assert(older_than_all(p[j].0, o));
        }
    }
    out
}

/// Position of the entry dated `d`, or -1 when there is none.
pub open spec fn find_date(s: Seq<DayEntry>, d: Seq<char>) -> int {
    if exists|i: int| 0 <= i < s.len() && s[i].0 == d {
        choose|i: int| 0 <= i < s.len() && s[i].0 == d
    } else {
        -1
    }
}

/// The counts of skill `k` on date `d` (zero when the date has no entry).
pub open spec fn counts_on(s: Seq<DayEntry>, d: Seq<char>, k: Skill) -> SkillCount {
    let i = find_date(s, d);
    if i >= 0 {
        s[i].1.count(k)
    } else {
        SkillCount::zero()
    }
}

/// The days after one more attempt at skill `k` on date `d`: the entry of
/// that date is updated, or a new one is appended.
pub open spec fn with_attempt(s: Seq<DayEntry>, d: Seq<char>, k: Skill, ok: bool) -> Seq<DayEntry> {
    let i = find_date(s, d);
    if i >= 0 {
        s.update(i, (d, s[i].1.with_count(k, s[i].1.count(k).bumped(ok))))
    } else {
        s.push((d, DayCounts::zero().with_count(k, SkillCount::zero().bumped(ok))))
    }
}

proof fn lemma_find_date(s: Seq<DayEntry>, d: Seq<char>, i: int)
    requires
        unique_dates(s),
        0 <= i < s.len(),
        s[i].0 == d,
    ensures
        find_date(s, d) == i,
{
}

/// Reversing a selection keeps it a selection, and turns newest-first into
/// oldest-first.
proof fn lemma_reverse_keeps(src: Seq<DayEntry>, n: nat, r: Seq<DayEntry>)
    requires
        keeps_newest(src, n, r),
        newest_first(r),
    ensures
        keeps_newest(src, n, r.reverse()),
        oldest_first(r.reverse()),
{
    let v = r.reverse();
    assert forall|e: DayEntry| #[trigger] r.contains(e) <==> v.contains(e) by {
        if r.contains(e) {
            let j = choose|j: int| 0 <= j < r.len() && r[j] == e;
            assert(v[r.len() - 1 - j] == e);
        }
        if v.contains(e) {
            let j = choose|j: int| 0 <= j < v.len() && v[j] == e;
            assert(r[r.len() - 1 - j] == e);
        }
    }
    assert forall|i: int| 0 <= i < v.len() implies src.contains(#[trigger] v[i]) by {
        assert(v[i] == r[r.len() - 1 - i]);
    }
    assert forall|e: DayEntry| #[trigger] src.contains(e) && !v.contains(e) implies older_than_all(e.0, v) by {
        assert(older_than_all(e.0, r));
        assert forall|i: int| 0 <= i < v.len() implies seq_lt(e.0, #[trigger] v[i].0) by {
            assert(v[i] == r[r.len() - 1 - i]);
        }
    }
    assert forall|i: int, j: int| 0 <= i < j < v.len() implies seq_lt(#[trigger] v[i].0, #[trigger] v[j].0) by {
        assert(v[i] == r[r.len() - 1 - i] && v[j] == r[r.len() - 1 - j]);
    }
}

/// A strictly ordered selection of well-formed entries is well formed.
proof fn lemma_selection_wf(src: Seq<DayEntry>, n: nat, r: Seq<DayEntry>)
    requires
        keeps_newest(src, n, r),
        oldest_first(r),
        counts_wf(src),
    ensures
        unique_dates(r),
        counts_wf(r),
{
    assert forall|i: int, j: int| 0 <= i < r.len() && 0 <= j < r.len() && i != j implies #[trigger] r[i].0 != #[trigger] r[j].0 by {
        if i < j {
            lemma_lt_irreflexive(r[i].0);
        } else {
            lemma_lt_irreflexive(r[j].0);
        }
    }
    assert forall|i: int| 0 <= i < r.len() implies (#[trigger] r[i]).1.wf() by {
        assert(src.contains(r[i]));
        let j = choose|j: int| 0 <= j < src.len() && src[j] == r[i];
        assert(src[j].1.wf());
    }
}

/// The days in the opposite order.
fn reversed(v: Vec<(String, DayCounts)>) -> (r: Vec<(String, DayCounts)>)
    ensures
        entries(r@) == entries(v@).reverse(),
{
    let ghost e0 = entries(v@);
    let mut v = v;
    let mut r: Vec<(String, DayCounts)> = Vec::new();
    while v.len() > 0
        invariant
            entries(v@).len() + entries(r@).len() == e0.len(),
            entries(v@) == e0.subrange(0, entries(v@).len() as int),
            entries(r@) == e0.reverse().subrange(0, entries(r@).len() as int),
        decreases v.len(),
    {
        let ghost before = v@;
        let x = v.pop().unwrap();
        proof {
            assert(before == v@.push(x));
            assert(entries(before)[v@.len() as int] == entry_view(x));
        }
        r.push(x);
        proof {
            assert(entries(v@) =~= e0.subrange(0, entries(v@).len() as int));
            assert(entries(r@) =~= e0.reverse().subrange(0, entries(r@).len() as int));
        }
    }
    assert(entries(r@) =~= e0.reverse());
    r
}

/// Keeps the entries with the most recent `MAX_DAYS_TO_KEEP` dates, oldest first.
fn prune_old_days(st: WeeklyStats) -> (r: WeeklyStats)
    requires
        unique_dates(st@),
    ensures
        keeps_newest(st@, MAX_DAYS_TO_KEEP as nat, r@),
        oldest_first(r@),
        st.wf() ==> r.wf(),
{
    let ghost src = st@;
    let newest = take_newest(st.days, MAX_DAYS_TO_KEEP);
    proof {
        lemma_reverse_keeps(src, MAX_DAYS_TO_KEEP as nat, entries(newest@));
    }
    let r = WeeklyStats { days: reversed(newest) };
    proof {
        if counts_wf(src) {
            lemma_selection_wf(src, MAX_DAYS_TO_KEEP as nat, r@);
        }
    }
    r
}

/// Where the entry dated `ymd` is stored, if anywhere.
fn position_of_date(st: &WeeklyStats, ymd: &str) -> (r: Option<usize>)
    requires
        unique_dates(st@),
    ensures
        r is Some <==> find_date(st@, ymd@) >= 0,
        r is Some ==> r->0 == find_date(st@, ymd@) && r->0 < st.days@.len(),
{
    let mut i: usize = 0;
    while i < st.days.len()
        invariant
            unique_dates(st@),
            i <= st.days.len(),
            forall|k: int| 0 <= k < i ==> (#[trigger] st@[k]).0 != ymd@,
        decreases st.days.len() - i,
    {
        if str_eq(st.days[i].0.as_str(), ymd) {
            proof {
                lemma_find_date(st@, ymd@, i as int);
            }
            return Some(i);
        }
        i = i + 1;
    }
    None
}

/// The counts stored for date `ymd`, created empty when the date is new.
fn get_or_create_day<'a>(st: &'a mut WeeklyStats, ymd: &str) -> (r: &'a mut DayCounts)
    requires
        unique_dates(old(st)@),
    ensures
        find_date(old(st)@, ymd@) >= 0 ==> {
            let i = find_date(old(st)@, ymd@);
            &&& *r == old(st).days@[i].1
            &&& final(st).days@ == old(st).days@.update(i, (old(st).days@[i].0, *final(r)))
        },
        find_date(old(st)@, ymd@) < 0 ==> {
            &&& *r == DayCounts::zero()
            &&& final(st).days@.len() == old(st).days@.len() + 1
            &&& final(st).days@.drop_last() == old(st).days@
            &&& final(st).days@.last().0@ == ymd@
            &&& final(st).days@.last().1 == *final(r)
        },
{
    match position_of_date(st, ymd) {
        Some(i) => &mut st.days[i].1,
        None => {
            st.days.push((String::from_str(ymd), DayCounts::default()));
            let last = st.days.len() - 1;
            &mut st.days[last].1
        },
    }
}

/// The newest `n` days (today included when present), newest first.
pub fn last_n_days(st: &WeeklyStats, n: usize) -> (r: Vec<(String, DayCounts)>)
    requires
        unique_dates(st@),
    ensures
        keeps_newest(st@, n as nat, entries(r@)),
        newest_first(entries(r@)),
{
    take_newest(copy_days(&st.days), n)
}

proof fn lemma_with_attempt_wf(s: Seq<DayEntry>, d: Seq<char>, k: Skill, ok: bool)
    requires
        unique_dates(s),
        counts_wf(s),
        counts_on(s, d, k).attempts < u32::MAX,
    ensures
        unique_dates(with_attempt(s, d, k, ok)),
        counts_wf(with_attempt(s, d, k, ok)),
{
    let w = with_attempt(s, d, k, ok);
    let i = find_date(s, d);
    if i >= 0 {
        assert(s[i].0 == d);
        assert(s[i].1.wf());
        assert forall|a: int, b: int| 0 <= a < w.len() && 0 <= b < w.len() && a != b implies #[trigger] w[a].0 != #[trigger] w[b].0 by {
            assert(w[a].0 == s[a].0 && w[b].0 == s[b].0);
        }
        assert forall|a: int| 0 <= a < w.len() implies (#[trigger] w[a]).1.wf() by {
            if a != i {
                assert(w[a] == s[a]);
            }
        }
    } else {
        assert forall|a: int, b: int| 0 <= a < w.len() && 0 <= b < w.len() && a != b implies #[trigger] w[a].0 != #[trigger] w[b].0 by {
            if a < s.len() && b < s.len() {
                assert(w[a] == s[a] && w[b] == s[b]);
            } else if a < s.len() {
                assert(w[a] == s[a]);
            } else {
                assert(w[b] == s[b]);
            }
        }
        assert forall|a: int| 0 <= a < w.len() implies (#[trigger] w[a]).1.wf() by {
            if a < s.len() {
                assert(w[a] == s[a]);
            }
        }
    }
}

/// The dates stored in `s`.
pub open spec fn dates_of(s: Seq<DayEntry>) -> Set<Seq<char>> {
    s.map_values(|e: DayEntry| e.0).to_set()
}

/// The stored dates that come after `d`.
pub open spec fn newer_dates(s: Seq<DayEntry>, d: Seq<char>) -> Set<Seq<char>> {
    dates_of(s).filter(|x: Seq<char>| seq_lt(d, x))
}

/// An entry survives a selection of the newest `n` when fewer than `n`
/// stored dates are newer than its own.
proof fn lemma_recent_entry_kept(w: Seq<DayEntry>, n: nat, r: Seq<DayEntry>, j: int)
    requires
        unique_dates(w),
        0 <= j < w.len(),
        keeps_newest(w, n, r),
        unique_dates(r),
        newer_dates(w, w[j].0).len() < n,
    ensures
        r.contains(w[j]),
{
    let d = w[j].0;
    if !r.contains(w[j]) {
        assert(w.contains(w[j]));
        assert(older_than_all(d, r));
        let rd = r.map_values(|e: DayEntry| e.0);
        let wd = w.map_values(|e: DayEntry| e.0);
        assert(rd.no_duplicates()) by {
            assert forall|a: int, b: int| 0 <= a < rd.len() && 0 <= b < rd.len() && a != b implies rd[a] != rd[b] by {
                assert(r[a].0 != r[b].0);
            }
        }
        assert(wd.no_duplicates()) by {
            assert forall|a: int, b: int| 0 <= a < wd.len() && 0 <= b < wd.len() && a != b implies wd[a] != wd[b] by {
                assert(w[a].0 != w[b].0);
            }
        }
        rd.unique_seq_to_set();
        wd.unique_seq_to_set();
        vstd::seq_lib::seq_to_set_is_finite(wd);
        let newer = newer_dates(w, d);
        assert(rd.to_set().subset_of(newer)) by {
            assert forall|x: Seq<char>| rd.to_set().contains(x) implies newer.contains(x) by {
                let a = choose|a: int| 0 <= a < rd.len() && rd[a] == x;
                assert(w.contains(r[a]));
                let k = choose|k: int| 0 <= k < w.len() && w[k] == r[a];
                assert(wd[k] == x);
                assert(seq_lt(d, r[a].0));
            }
        }
        assert(newer.subset_of(wd.to_set().remove(d))) by {
            lemma_lt_irreflexive(d);
        }
        assert(wd[j] == d);
        assert(wd.to_set().contains(d));
        vstd::set_lib::lemma_len_subset(newer, wd.to_set().remove(d));
        vstd::set_lib::lemma_len_subset(rd.to_set(), newer);
    }
}

proof fn lemma_with_attempt_newer(s: Seq<DayEntry>, d: Seq<char>, k: Skill, ok: bool)
    ensures
        newer_dates(with_attempt(s, d, k, ok), d) == newer_dates(s, d),
{
    let w = with_attempt(s, d, k, ok);
    let i = find_date(s, d);
    let sd = s.map_values(|e: DayEntry| e.0);
    let wd = w.map_values(|e: DayEntry| e.0);
    lemma_lt_irreflexive(d);
    if i >= 0 {
        assert(s[i].0 == d);
        assert(wd =~= sd);
    } else {
        assert(wd =~= sd.push(d));
        assert forall|x: Seq<char>| #[trigger] wd.to_set().contains(x) <==> (sd.to_set().contains(x) || x == d) by {
            if wd.to_set().contains(x) {
                let a = choose|a: int| 0 <= a < wd.len() && wd[a] == x;
                if a < sd.len() {
                    assert(sd[a] == x);
                }
            }
            if sd.to_set().contains(x) {
                let a = choose|a: int| 0 <= a < sd.len() && sd[a] == x;
                assert(wd[a] == x);
            }
            if x == d {
                assert(wd[sd.len() as int] == x);
            }
        }
    }
    assert(newer_dates(w, d) =~= newer_dates(s, d));
}

/// Records one attempt at `skill` on date `today` (correct when `ok`), then
/// keeps only the most recent `MAX_DAYS_TO_KEEP` dates, oldest first.
pub fn record_attempt(st: &mut WeeklyStats, today: &str, skill: Skill, ok: bool)
    requires
        old(st).wf(),
        counts_on(old(st)@, today@, skill).attempts < u32::MAX,
    ensures
        final(st).wf(),
        keeps_newest(with_attempt(old(st)@, today@, skill, ok), MAX_DAYS_TO_KEEP as nat, final(st)@),
        oldest_first(final(st)@),
        newer_dates(old(st)@, today@).len() < MAX_DAYS_TO_KEEP ==> counts_on(final(st)@, today@, skill)
            == counts_on(old(st)@, today@, skill).bumped(ok),
{
    let ghost s0 = st@;
    let ghost d0 = st.days@;
    let ghost i = find_date(s0, today@);
    {
        let day = get_or_create_day(st, today);
        let c = day.skill_mut(skill);
        proof {
            if i >= 0 {
                assert(s0[i].1.wf());
            }
        }
        c.record(ok);
    }
    proof {
        let w = with_attempt(s0, today@, skill, ok);
        if i >= 0 {
            assert(s0[i].0 == today@);
            assert(st@ =~= w);
        } else {
            assert(st.days@ =~= d0.push(st.days@.last()));
            assert(st@ =~= w);
        }
        lemma_with_attempt_wf(s0, today@, skill, ok);
    }
    let mut owned = WeeklyStats { days: Vec::new() };
    std::mem::swap(st, &mut owned);
    let ghost w = owned@;
    *st = prune_old_days(owned);
    proof {
        if newer_dates(s0, today@).len() < MAX_DAYS_TO_KEEP {
            lemma_with_attempt_newer(s0, today@, skill, ok);
            let j = if i >= 0 { i } else { s0.len() as int };
            assert(w[j].0 == today@);
            assert(w[j].1.count(skill) == counts_on(s0, today@, skill).bumped(ok));
            lemma_recent_entry_kept(w, MAX_DAYS_TO_KEEP as nat, st@, j);
            let r = st@;
            let a = choose|a: int| 0 <= a < r.len() && r[a] == w[j];
            lemma_find_date(r, today@, a);
        }
    }
}

/// Total attempts at skill `k` over the entries of `s`.
pub open spec fn attempts_sum(s: Seq<DayEntry>, k: Skill) -> int
    decreases s.len(),
{
    if s.len() == 0 {
        0
    } else {
        attempts_sum(s.drop_last(), k) + s.last().1.count(k).attempts
    }
}

/// Total correct answers at skill `k` over the entries of `s`.
pub open spec fn correct_sum(s: Seq<DayEntry>, k: Skill) -> int
    decreases s.len(),
{
    if s.len() == 0 {
        0
    } else {
        correct_sum(s.drop_last(), k) + s.last().1.count(k).correct
    }
}

/// Every field-wise total of `s` fits in a counter.
pub open spec fn sums_fit(s: Seq<DayEntry>) -> bool {
    forall|k: Skill| attempts_sum(s, k) <= u32::MAX && correct_sum(s, k) <= u32::MAX
}

/// `t` holds the field-wise totals of `s`.
pub open spec fn is_total(t: DayCounts, s: Seq<DayEntry>) -> bool {
    forall|k: Skill| #[trigger] t.count(k).attempts == attempts_sum(s, k) && t.count(k).correct == correct_sum(s, k)
}

proof fn lemma_sum_prefix(s: Seq<DayEntry>, i: int, k: Skill)
    requires
        0 <= i <= s.len(),
    ensures
        attempts_sum(s.subrange(0, i), k) <= attempts_sum(s, k),
        correct_sum(s.subrange(0, i), k) <= correct_sum(s, k),
    decreases s.len(),
{
    if i < s.len() {
        assert(s.subrange(0, i) =~= s.drop_last().subrange(0, i));
        lemma_sum_prefix(s.drop_last(), i, k);
    } else {
        assert(s.subrange(0, i) =~= s);
    }
}

fn add_skill(a: SkillCount, b: SkillCount) -> (r: Option<SkillCount>)
    ensures
        r is Some <==> a.attempts + b.attempts <= u32::MAX && a.correct + b.correct <= u32::MAX,
        r is Some ==> r->0.attempts == a.attempts + b.attempts && r->0.correct == a.correct + b.correct,
{
    match (a.attempts.checked_add(b.attempts), a.correct.checked_add(b.correct)) {
        (Some(attempts), Some(correct)) => Some(SkillCount { attempts, correct }),
        _ => None,
    }
}

fn add_days(a: DayCounts, b: DayCounts) -> (r: Option<DayCounts>)
    ensures
        r is Some <==> forall|k: Skill|
            #[trigger] a.count(k).attempts + b.count(k).attempts <= u32::MAX && a.count(k).correct + b.count(k).correct <= u32::MAX,
        r is Some ==> forall|k: Skill|
            #[trigger] r->0.count(k).attempts == a.count(k).attempts + b.count(k).attempts
                && r->0.count(k).correct == a.count(k).correct + b.count(k).correct,
{
    let addition = add_skill(a.addition, b.addition);
    let subtraction = add_skill(a.subtraction, b.subtraction);
    let multiplication = add_skill(a.multiplication, b.multiplication);
    let division = add_skill(a.division, b.division);
    let word = add_skill(a.word, b.word);
    let mixed = add_skill(a.mixed, b.mixed);
    match (addition, subtraction, multiplication, division, word, mixed) {
        (Some(addition), Some(subtraction), Some(multiplication), Some(division), Some(word), Some(mixed)) => {
            Some(DayCounts { addition, subtraction, multiplication, division, word, mixed })
        },
        _ => {
            assert(!(a.count(Skill::Addition).attempts + b.count(Skill::Addition).attempts <= u32::MAX
                && a.count(Skill::Addition).correct + b.count(Skill::Addition).correct <= u32::MAX)
                || !(a.count(Skill::Subtraction).attempts + b.count(Skill::Subtraction).attempts <= u32::MAX
                && a.count(Skill::Subtraction).correct + b.count(Skill::Subtraction).correct <= u32::MAX)
                || !(a.count(Skill::Multiplication).attempts + b.count(Skill::Multiplication).attempts <= u32::MAX
                && a.count(Skill::Multiplication).correct + b.count(Skill::Multiplication).correct <= u32::MAX)
                || !(a.count(Skill::Division).attempts + b.count(Skill::Division).attempts <= u32::MAX
                && a.count(Skill::Division).correct + b.count(Skill::Division).correct <= u32::MAX)
                || !(a.count(Skill::WordProblem).attempts + b.count(Skill::WordProblem).attempts <= u32::MAX
                && a.count(Skill::WordProblem).correct + b.count(Skill::WordProblem).correct <= u32::MAX)
                || !(a.count(Skill::Unknown).attempts + b.count(Skill::Unknown).attempts <= u32::MAX
                && a.count(Skill::Unknown).correct + b.count(Skill::Unknown).correct <= u32::MAX));
            None
        },
    }
}

/// Field-wise totals of `days`, or `None` when a total does not fit in a counter.
pub fn sum_days_checked(days: &[(String, DayCounts)]) -> (r: Option<DayCounts>)
    ensures
        r is Some <==> sums_fit(entries(days@)),
        r is Some ==> is_total(r->0, entries(days@)),
{
    let ghost s = entries(days@);
    let mut out = DayCounts::default();
    let mut i: usize = 0;
    assert(entries(days@.subrange(0, 0)) =~= Seq::<DayEntry>::empty());
    while i < days.len()
        invariant
            s == entries(days@),
            i <= days@.len(),
            is_total(out, entries(days@.subrange(0, i as int))),
        decreases days.len() - i,
    {
        let ghost pre = entries(days@.subrange(0, i as int));
        let ghost next = entries(days@.subrange(0, i + 1));
        proof {
            assert(next.drop_last() =~= pre);
            assert(next.last() == s[i as int]);
        }
        match add_days(out, days[i].1) {
            Some(sum) => {
                proof {
                    assert forall|k: Skill| #[trigger] sum.count(k).attempts == attempts_sum(next, k)
                        && sum.count(k).correct == correct_sum(next, k) by {
                        assert(attempts_sum(next, k) == attempts_sum(pre, k) + next.last().1.count(k).attempts);
                        assert(correct_sum(next, k) == correct_sum(pre, k) + next.last().1.count(k).correct);
                    }
                }
                out = sum;
            },
            None => {
                proof {
                    let k = choose|k: Skill| !(#[trigger] out.count(k).attempts + days@[i as int].1.count(k).attempts <= u32::MAX
                        && out.count(k).correct + days@[i as int].1.count(k).correct <= u32::MAX);
                    assert(next =~= s.subrange(0, i + 1));
                    assert(attempts_sum(next, k) == attempts_sum(pre, k) + next.last().1.count(k).attempts);
                    assert(correct_sum(next, k) == correct_sum(pre, k) + next.last().1.count(k).correct);
                    lemma_sum_prefix(s, i + 1, k);
                    assert(!sums_fit(s));
                }
                return None;
            },
        }
        i = i + 1;
    }
    assert(days@.subrange(0, days@.len() as int) =~= days@);
    assert forall|k: Skill| attempts_sum(s, k) <= u32::MAX && correct_sum(s, k) <= u32::MAX by {
        assert(out.count(k).attempts == attempts_sum(s, k));
        assert(out.count(k).correct == correct_sum(s, k));
    }
    Some(out)
}

/// Field-wise totals of `days` (a "week totals" value).
pub fn sum_days(days: &[(String, DayCounts)]) -> (r: DayCounts)
    requires
        sums_fit(entries(days@)),
    ensures
        is_total(r, entries(days@)),
{
    sum_days_checked(days).unwrap()
}

/// Whether `e` is among the entries of `s` with the `n` most recent dates:
/// fewer than `n` stored dates are newer than its own.
pub open spec fn among_newest(s: Seq<DayEntry>, n: nat, e: DayEntry) -> bool {
    newer_dates(s, e.0).len() < n
}

proof fn lemma_sum_remove(b: Seq<DayEntry>, j: int, k: Skill)
    requires
        0 <= j < b.len(),
    ensures
        attempts_sum(b, k) == attempts_sum(b.remove(j), k) + b[j].1.count(k).attempts,
        correct_sum(b, k) == correct_sum(b.remove(j), k) + b[j].1.count(k).correct,
    decreases b.len(),
{
    if j == b.len() - 1 {
        assert(b.remove(j) =~= b.drop_last());
    } else {
        lemma_sum_remove(b.drop_last(), j, k);
        assert(b.remove(j).drop_last() =~= b.drop_last().remove(j));
        assert(b.remove(j).last() == b.last());
    }
}

/// Two duplicate-free sequences with the same entries have the same totals.
proof fn lemma_sum_same_entries(a: Seq<DayEntry>, b: Seq<DayEntry>, k: Skill)
    requires
        a.no_duplicates(),
        b.no_duplicates(),
        forall|e: DayEntry| a.contains(e) <==> b.contains(e),
    ensures
        attempts_sum(a, k) == attempts_sum(b, k),
        correct_sum(a, k) == correct_sum(b, k),
    decreases a.len(),
{
    if a.len() == 0 {
        if b.len() > 0 {
            assert(b.contains(b[0]));
        }
    } else {
        let x = a.last();
        assert(a.contains(x)) by {
            assert(a[a.len() - 1] == x);
        }
        let j = choose|j: int| 0 <= j < b.len() && b[j] == x;
        let a2 = a.drop_last();
        let b2 = b.remove(j);
        assert forall|e: DayEntry| a2.contains(e) <==> b2.contains(e) by {
            if a2.contains(e) {
                let p = choose|p: int| 0 <= p < a2.len() && a2[p] == e;
                assert(a[p] == e);
                assert(e != x);
                assert(b.contains(e));
                let q = choose|q: int| 0 <= q < b.len() && b[q] == e;
                assert(q != j);
                if q < j {
                    assert(b2[q] == e);
                } else {
                    assert(b2[q - 1] == e);
                }
            }
            if b2.contains(e) {
                let q = choose|q: int| 0 <= q < b2.len() && b2[q] == e;
                let qq = if q < j { q } else { q + 1 };
                assert(b[qq] == e);
                assert(qq != j);
                assert(e != x);
                assert(a.contains(e));
                let p = choose|p: int| 0 <= p < a.len() && a[p] == e;
                assert(p != a.len() - 1);
                assert(a2[p] == e);
            }
        }
        assert(b2.no_duplicates()) by {
            assert forall|p: int, q: int| 0 <= p < b2.len() && 0 <= q < b2.len() && p != q implies b2[p] != b2[q] by {
                let pp = if p < j { p } else { p + 1 };
                let qq = if q < j { q } else { q + 1 };
                assert(b2[p] == b[pp] && b2[q] == b[qq]);
            }
        }
        lemma_sum_same_entries(a2, b2, k);
        lemma_sum_remove(b, j, k);
    }
}

proof fn lemma_filter_no_duplicates(s: Seq<DayEntry>, p: spec_fn(DayEntry) -> bool)
    requires
        s.no_duplicates(),
    ensures
        s.filter(p).no_duplicates(),
        forall|e: DayEntry| #[trigger] s.filter(p).contains(e) <==> s.contains(e) && p(e),
    decreases s.len(),
{
    reveal(Seq::filter);
    if s.len() > 0 {
        let t = s.drop_last();
        assert(t.no_duplicates());
        lemma_filter_no_duplicates(t, p);
        assert forall|e: DayEntry| #[trigger] s.contains(e) <==> (t.contains(e) || e == s.last()) by {
            if s.contains(e) {
                let i = choose|i: int| 0 <= i < s.len() && s[i] == e;
                if i < s.len() - 1 {
                    assert(t[i] == e);
                }
            }
            if t.contains(e) {
                let i = choose|i: int| 0 <= i < t.len() && t[i] == e;
                assert(s[i] == e);
            }
            if e == s.last() {
                assert(s[s.len() - 1] == e);
            }
        }
        assert(!t.contains(s.last()));
        let f = t.filter(p);
        if p(s.last()) {
            assert(s.filter(p) == f.push(s.last()));
            assert(!f.contains(s.last()));
            assert forall|a: int, b: int| 0 <= a < f.len() + 1 && 0 <= b < f.len() + 1 && a != b
                implies f.push(s.last())[a] != f.push(s.last())[b] by {
                if a == f.len() {
                    assert(f[b] == f.push(s.last())[b]);
                } else if b == f.len() {
                    assert(f[a] == f.push(s.last())[a]);
                }
            }
            assert forall|e: DayEntry| #[trigger] f.push(s.last()).contains(e) <==> (f.contains(e) || e == s.last()) by {
                if f.push(s.last()).contains(e) {
                    let i = choose|i: int| 0 <= i < f.len() + 1 && f.push(s.last())[i] == e;
                    if i < f.len() {
                        assert(f[i] == e);
                    }
                }
                if f.contains(e) {
                    let i = choose|i: int| 0 <= i < f.len() && f[i] == e;
                    assert(f.push(s.last())[i] == e);
                }
                if e == s.last() {
                    assert(f.push(s.last())[f.len() as int] == e);
                }
            }
        } else {
            assert(s.filter(p) == f);
        }
    }
}

/// Totals over the newest `n` days are the totals recorded on the dates
/// that are among the `n` most recent: for stored days `stats`, a selection
/// `week` of the kind `last_n_days` returns, and its field-wise totals
/// `totals` (what `sum_days` returns), every total equals the sum over the
/// stored entries among the `n` newest.
pub proof fn lemma_week_totals(stats: Seq<DayEntry>, n: nat, week: Seq<DayEntry>, totals: DayCounts)
    requires
        unique_dates(stats),
        keeps_newest(stats, n, week),
        newest_first(week),
        is_total(totals, week),
    ensures
        forall|k: Skill|
            #[trigger] totals.count(k).attempts == attempts_sum(stats.filter(|e: DayEntry| among_newest(stats, n, e)), k)
                && totals.count(k).correct == correct_sum(stats.filter(|e: DayEntry| among_newest(stats, n, e)), k),
{
    let p = |e: DayEntry| among_newest(stats, n, e);
    let recent = stats.filter(p);
    assert(stats.no_duplicates()) by {
        assert forall|a: int, b: int| 0 <= a < stats.len() && 0 <= b < stats.len() && a != b implies stats[a] != stats[b] by {
            assert(stats[a].0 != stats[b].0);
        }
    }
    assert(unique_dates(week)) by {
        assert forall|a: int, b: int| 0 <= a < week.len() && 0 <= b < week.len() && a != b implies #[trigger] week[a].0 != #[trigger] week[b].0 by {
            if a < b {
                lemma_lt_irreflexive(week[b].0);
            } else {
                lemma_lt_irreflexive(week[a].0);
            }
        }
    }
    assert(week.no_duplicates()) by {
        assert forall|a: int, b: int| 0 <= a < week.len() && 0 <= b < week.len() && a != b implies week[a] != week[b] by {
            assert(week[a].0 != week[b].0);
        }
    }
    lemma_filter_no_duplicates(stats, p);
    assert forall|e: DayEntry| week.contains(e) <==> recent.contains(e) by {
        if week.contains(e) {
            let a = choose|a: int| 0 <= a < week.len() && week[a] == e;
            assert(stats.contains(e));
            let wd = week.map_values(|x: DayEntry| x.0);
            assert(wd.no_duplicates()) by {
                assert forall|i: int, j: int| 0 <= i < wd.len() && 0 <= j < wd.len() && i != j implies wd[i] != wd[j] by {
                    assert(week[i].0 != week[j].0);
                }
            }
            wd.unique_seq_to_set();
            vstd::seq_lib::seq_to_set_is_finite(wd);
            assert(wd[a] == e.0);
            assert(newer_dates(stats, e.0).subset_of(wd.to_set().remove(e.0))) by {
                assert forall|x: Seq<char>| newer_dates(stats, e.0).contains(x) implies wd.to_set().remove(e.0).contains(x) by {
                    let sd = stats.map_values(|y: DayEntry| y.0);
                    let b = choose|b: int| 0 <= b < sd.len() && sd[b] == x;
                    assert(stats[b].0 == x);
                    assert(stats.contains(stats[b]));
                    lemma_lt_irreflexive(e.0);
                    if !week.contains(stats[b]) {
                        assert(older_than_all(x, week));
                        assert(seq_lt(x, week[a].0));
                        lemma_lt_asymmetric(x, e.0);
                    } else {
                        let c = choose|c: int| 0 <= c < week.len() && week[c] == stats[b];
                        assert(wd[c] == x);
                    }
                }
            }
            vstd::set_lib::lemma_len_subset(newer_dates(stats, e.0), wd.to_set().remove(e.0));
            assert(p(e));
        }
        if recent.contains(e) {
            assert(stats.contains(e) && p(e));
            let j = choose|j: int| 0 <= j < stats.len() && stats[j] == e;
            lemma_recent_entry_kept(stats, n, week, j);
        }
    }
    assert forall|k: Skill|
        #[trigger] totals.count(k).attempts == attempts_sum(recent, k) && totals.count(k).correct == correct_sum(recent, k) by {
        lemma_sum_same_entries(week, recent, k);
    }
}

/// `kept` is made of the `n` most recent dates of `history` (all of them
/// when it has fewer): as many as that, all from `history`, and every date
/// of `history` left out comes before every date kept.
pub open spec fn newest_dates(history: Set<Seq<char>>, n: nat, kept: Set<Seq<char>>) -> bool {
    &&& kept.subset_of(history)
    &&& kept.len() == min_nat(n, history.len())
    &&& forall|h: Seq<char>, k: Seq<char>| #[trigger] history.contains(h) && !kept.contains(h) && #[trigger] kept.contains(k) ==> seq_lt(h, k)
}

proof fn lemma_dates_len(s: Seq<DayEntry>)
    requires
        unique_dates(s),
    ensures
        dates_of(s).len() == s.len(),
        dates_of(s).finite(),
{
    let d = s.map_values(|e: DayEntry| e.0);
    assert(d.no_duplicates()) by {
        assert forall|a: int, b: int| 0 <= a < d.len() && 0 <= b < d.len() && a != b implies d[a] != d[b] by {
            assert(s[a].0 != s[b].0);
        }
    }
    d.unique_seq_to_set();
    vstd::seq_lib::seq_to_set_is_finite(d);
}

proof fn lemma_date_member(s: Seq<DayEntry>, x: Seq<char>)
    ensures
        dates_of(s).contains(x) <==> exists|i: int| 0 <= i < s.len() && #[trigger] s[i].0 == x,
{
    let d = s.map_values(|e: DayEntry| e.0);
    if dates_of(s).contains(x) {
        let i = choose|i: int| 0 <= i < d.len() && d[i] == x;
        assert(s[i].0 == x);
    }
    if exists|i: int| 0 <= i < s.len() && #[trigger] s[i].0 == x {
        let i = choose|i: int| 0 <= i < s.len() && #[trigger] s[i].0 == x;
        assert(d[i] == x);
    }
}

/// A selection of the newest entries keeps the newest dates.
proof fn lemma_selection_dates(src: Seq<DayEntry>, n: nat, r: Seq<DayEntry>)
    requires
        unique_dates(src),
        unique_dates(r),
        keeps_newest(src, n, r),
    ensures
        newest_dates(dates_of(src), n, dates_of(r)),
{
    lemma_dates_len(src);
    lemma_dates_len(r);
    assert forall|x: Seq<char>| dates_of(r).contains(x) implies dates_of(src).contains(x) by {
        lemma_date_member(r, x);
        let i = choose|i: int| 0 <= i < r.len() && #[trigger] r[i].0 == x;
        assert(src.contains(r[i]));
        let j = choose|j: int| 0 <= j < src.len() && src[j] == r[i];
        lemma_date_member(src, x);
    }
    assert forall|h: Seq<char>, k: Seq<char>| #[trigger] dates_of(src).contains(h) && !dates_of(r).contains(h) && #[trigger] dates_of(r).contains(k) implies seq_lt(h, k) by {
        lemma_date_member(src, h);
        lemma_date_member(r, h);
        lemma_date_member(r, k);
        let i = choose|i: int| 0 <= i < src.len() && #[trigger] src[i].0 == h;
        let j = choose|j: int| 0 <= j < r.len() && #[trigger] r[j].0 == k;
        assert(src.contains(src[i]));
        if r.contains(src[i]) {
            let m = choose|m: int| 0 <= m < r.len() && r[m] == src[i];
            assert(r[m].0 == h);
        }
        assert(older_than_all(h, r));
    }
}

proof fn lemma_with_attempt_dates(s: Seq<DayEntry>, d: Seq<char>, k: Skill, ok: bool)
    ensures
        dates_of(with_attempt(s, d, k, ok)) == dates_of(s).insert(d),
{
    let w = with_attempt(s, d, k, ok);
    let i = find_date(s, d);
    assert forall|x: Seq<char>| dates_of(w).contains(x) <==> dates_of(s).insert(d).contains(x) by {
        lemma_date_member(w, x);
        lemma_date_member(s, x);
        if i >= 0 {
            assert(s[i].0 == d);
            assert forall|j: int| 0 <= j < s.len() implies #[trigger] w[j].0 == s[j].0 by {}
            if x == d {
                assert(w[i].0 == x);
            }
            if dates_of(s).contains(x) {
                let j = choose|j: int| 0 <= j < s.len() && #[trigger] s[j].0 == x;
                assert(w[j].0 == x);
            }
        } else {
            assert(w[s.len() as int].0 == d);
            if dates_of(s).contains(x) {
                let j = choose|j: int| 0 <= j < s.len() && #[trigger] s[j].0 == x;
                assert(w[j].0 == x);
            }
            if dates_of(w).contains(x) {
                let j = choose|j: int| 0 <= j < w.len() && #[trigger] w[j].0 == x;
                if j < s.len() {
                    assert(s[j].0 == x);
                }
            }
        }
    }
    assert(dates_of(w) =~= dates_of(s).insert(d));
}

/// Keeping the newest `n` of the kept dates and one more date keeps the
/// newest `n` of all the dates.
proof fn lemma_newest_dates_step(history: Set<Seq<char>>, n: nat, kept: Set<Seq<char>>, t: Seq<char>, next: Set<Seq<char>>)
    requires
        history.finite(),
        newest_dates(history, n, kept),
        newest_dates(kept.insert(t), n, next),
    ensures
        newest_dates(history.insert(t), n, next),
{
    vstd::set_lib::lemma_len_subset(kept, history);
    vstd::set_lib::lemma_len_subset(next, kept.insert(t));
    let h2 = history.insert(t);
    assert(next.subset_of(h2));
    if kept.contains(t) {
        assert(kept.insert(t) =~= kept);
        assert(h2 =~= history);
    } else if history.contains(t) {
        assert(h2 =~= history);
        assert(kept.subset_of(history.remove(t)));
        vstd::set_lib::lemma_len_subset(kept, history.remove(t));
    }
    assert forall|h: Seq<char>, k: Seq<char>| #[trigger] h2.contains(h) && !next.contains(h) && #[trigger] next.contains(k) implies seq_lt(h, k) by {
        if !kept.insert(t).contains(h) {
            assert(history.contains(h) && !kept.contains(h));
            if kept.contains(k) {
            } else {
                assert(k == t);
                assert(kept.subset_of(history.remove(h)));
                vstd::set_lib::lemma_len_subset(kept, history.remove(h));
                assert(kept.len() == n);
                if forall|w: Seq<char>| kept.contains(w) ==> next.contains(w) {
                    assert(kept.insert(t).subset_of(next));
                    vstd::set_lib::lemma_len_subset(kept.insert(t), next);
                }
                let w0 = choose|w: Seq<char>| kept.contains(w) && !next.contains(w);
                assert(kept.insert(t).contains(w0));
                assert(seq_lt(w0, k));
                assert(seq_lt(h, w0));
                lemma_lt_transitive(h, w0, k);
            }
        }
    }
}

/// Recording keeps a rolling window: when the stored dates are the newest
/// `MAX_DAYS_TO_KEEP` of every date recorded so far (`history`), then after
/// recording on `today` (any skill, right or wrong) the stored dates are the
/// newest `MAX_DAYS_TO_KEEP` of `history` with `today` added. From an empty
/// store and an empty history, this holds after any run of recordings.
pub proof fn lemma_retention_window(
    before: Seq<DayEntry>,
    after: Seq<DayEntry>,
    history: Set<Seq<char>>,
    today: Seq<char>,
    k: Skill,
    ok: bool,
)
    requires
        history.finite(),
        unique_dates(before),
        newest_dates(history, MAX_DAYS_TO_KEEP as nat, dates_of(before)),
        keeps_newest(with_attempt(before, today, k, ok), MAX_DAYS_TO_KEEP as nat, after),
        oldest_first(after),
    ensures
        newest_dates(history.insert(today), MAX_DAYS_TO_KEEP as nat, dates_of(after)),
{
    let w = with_attempt(before, today, k, ok);
    assert(unique_dates(w)) by {
        let i = find_date(before, today);
        if i >= 0 {
            assert(before[i].0 == today);
            assert forall|a: int, b: int| 0 <= a < w.len() && 0 <= b < w.len() && a != b implies #[trigger] w[a].0 != #[trigger] w[b].0 by {
                assert(w[a].0 == before[a].0 && w[b].0 == before[b].0);
            }
        } else {
            assert forall|a: int, b: int| 0 <= a < w.len() && 0 <= b < w.len() && a != b implies #[trigger] w[a].0 != #[trigger] w[b].0 by {
                if a < before.len() {
                    assert(w[a] == before[a]);
                }
                if b < before.len() {
                    assert(w[b] == before[b]);
                }
            }
        }
    }
    assert(unique_dates(after)) by {
        assert forall|a: int, b: int| 0 <= a < after.len() && 0 <= b < after.len() && a != b implies #[trigger] after[a].0 != #[trigger] after[b].0 by {
            if a < b {
                lemma_lt_irreflexive(after[a].0);
            } else {
                lemma_lt_irreflexive(after[b].0);
            }
        }
    }
    lemma_selection_dates(w, MAX_DAYS_TO_KEEP as nat, after);
    lemma_with_attempt_dates(before, today, k, ok);
    lemma_newest_dates_step(history, MAX_DAYS_TO_KEEP as nat, dates_of(before), today, dates_of(after));
}

/// An empty store keeps the newest dates of an empty history.
pub proof fn lemma_retention_start()
    ensures
        newest_dates(Set::<Seq<char>>::empty(), MAX_DAYS_TO_KEEP as nat, dates_of(Seq::<DayEntry>::empty())),
{
    lemma_dates_len(Seq::<DayEntry>::empty());
    assert(dates_of(Seq::<DayEntry>::empty()) =~= Set::<Seq<char>>::empty());
}

} // verus!
