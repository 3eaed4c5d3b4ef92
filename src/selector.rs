//! Choosing a practice question: from today's cached set when there is one,
//! else from the built-in bank; a stretch question three times in ten.
use vstd::prelude::*;

use crate::ai_day::{AiQuestion, DayResponse, Difficulty as AiDifficulty};
use crate::grade::Grade;
use crate::questions::{has_core, questions_for, standard_set, Difficulty, Question};
use crate::text::str_eq;

verus! {

/// A question to show: prompt, accepted answers, and whether it is a stretch question.
pub type Pick = (String, String, bool);

pub type PickView = (Seq<char>, Seq<char>, bool);

pub open spec fn pick_view(p: Pick) -> PickView {
    (p.0@, p.1@, p.2)
}

pub open spec fn picks(s: Seq<Pick>) -> Seq<PickView> {
    s.map_values(|p: Pick| pick_view(p))
}

pub open spec fn local_view(q: Question) -> PickView {
    (q.prompt@, q.answer@, q.difficulty == Difficulty::Stretch)
}

pub open spec fn ai_view(q: AiQuestion) -> PickView {
    (q.prompt@, q.answer@, q.difficulty == AiDifficulty::Stretch)
}

/// The cached set can serve today: it is dated today and not empty.
pub open spec fn usable(cached: Option<DayResponse>, today: Seq<char>) -> bool {
    match cached {
        None => false,
        Some(d) => d.date_ymd@ == today && d.items.len() > 0,
    }
}

pub open spec fn some_ref(cached: Option<&DayResponse>) -> Option<DayResponse> {
    match cached {
        Some(d) => Some(*d),
        None => None,
    }
}

/// The questions to choose from: the cached set when it can serve today,
/// otherwise the built-in ones.
pub open spec fn source_of(bank: Seq<Question>, cached: Option<DayResponse>, today: Seq<char>) -> Seq<PickView> {
    if usable(cached, today) {
        cached->0.items@.map_values(|q: AiQuestion| ai_view(q))
    } else {
        bank.map_values(|q: Question| local_view(q))
    }
}

/// The entries of `s` that are stretch questions (`stretch`) or core ones, in order.
pub open spec fn only(s: Seq<PickView>, stretch: bool) -> Seq<PickView>
    decreases s.len(),
{
    if s.len() == 0 {
        s
    } else if s.last().2 == stretch {
        only(s.drop_last(), stretch).push(s.last())
    } else {
        only(s.drop_last(), stretch)
    }
}

/// The questions one draw from 0 to 9 chooses among: the stretch ones for
/// draws 0, 1 and 2 when there are any, else the core ones; the whole
/// source when the chosen kind has none.
pub open spec fn pool(s: Seq<PickView>, draw: int) -> Seq<PickView> {
    let chosen = if only(s, true).len() > 0 && draw < 3 { only(s, true) } else { only(s, false) };
    if chosen.len() > 0 { chosen } else { s }
}

/// `r` is one of the questions that some draw from 0 to 9 chooses among.
pub open spec fn picked_from(s: Seq<PickView>, r: PickView) -> bool {
    exists|d: int, k: int| 0 <= d < 10 && 0 <= k < pool(s, d).len() && #[trigger] pool(s, d)[k] == r
}

proof fn lemma_only_flags(s: Seq<PickView>, stretch: bool)
    ensures
        forall|i: int| 0 <= i < only(s, stretch).len() ==> (#[trigger] only(s, stretch)[i]).2 == stretch,
    decreases s.len(),
{
    if s.len() > 0 {
        lemma_only_flags(s.drop_last(), stretch);
        let t = only(s.drop_last(), stretch);
        if s.last().2 == stretch {
            assert forall|i: int| 0 <= i < t.len() + 1 implies (#[trigger] t.push(s.last())[i]).2 == stretch by {
                if i < t.len() {
                    assert(t.push(s.last())[i] == t[i]);
                }
            }
        }
    }
}

/// With both kinds present, exactly three of the ten equally likely draws
/// (0, 1 and 2) choose the stretch questions; the other seven choose the
/// core ones.
pub proof fn lemma_stretch_share(s: Seq<PickView>)
    requires
        only(s, true).len() > 0,
        only(s, false).len() > 0,
    ensures
        Set::new(|d: int| 0 <= d < 10 && pool(s, d) == only(s, true)) == set![0int, 1int, 2int],
        Set::new(|d: int| 0 <= d < 10 && pool(s, d) == only(s, false)) == set![3int, 4int, 5int, 6int, 7int, 8int, 9int],
{
    lemma_only_flags(s, true);
    lemma_only_flags(s, false);
    assert(only(s, true)[0].2 != only(s, false)[0].2);
    assert(only(s, true) != only(s, false));
    assert(Set::new(|d: int| 0 <= d < 10 && pool(s, d) == only(s, true)) =~= set![0int, 1int, 2int]);
    assert(Set::new(|d: int| 0 <= d < 10 && pool(s, d) == only(s, false)) =~= set![3int, 4int, 5int, 6int, 7int, 8int, 9int]);
}

/// A cached set dated any other day than today is never the source: the
/// built-in questions are, however the cache could still be read.
pub proof fn lemma_stale_cache_unused(bank: Seq<Question>, cached: DayResponse, today: Seq<char>)
    requires
        cached.date_ymd@ != today,
    ensures
        source_of(bank, Some(cached), today) == bank.map_values(|q: Question| local_view(q)),
{
}

proof fn lemma_pool_nonempty(s: Seq<PickView>, d: int)
    requires
        s.len() > 0,
    ensures
        pool(s, d).len() > 0,
{
}

/// Relies on `rand::Rng::gen_range` on the thread-local generator: a
/// number below `n`, drawn uniformly.
#[verifier::external_body]
fn random_below(n: usize) -> (r: usize)
    requires
        n > 0,
    ensures
        r < n,
{
    rand::Rng::gen_range(&mut rand::thread_rng(), 0..n)
}

/// The questions to choose from, as prompt, answer and stretch flag.
pub fn active_source(bank: &[Question], today: &str, cached: Option<&DayResponse>) -> (r: Vec<Pick>)
    ensures
        picks(r@) == source_of(bank@, some_ref(cached), today@),
{
    let mut r: Vec<Pick> = Vec::new();
    match cached {
        Some(d) => {
            if d.items.len() > 0 && str_eq(d.date_ymd.as_str(), today) {
                let mut i: usize = 0;
                while i < d.items.len()
                    invariant
                        i <= d.items@.len(),
                        picks(r@) == d.items@.subrange(0, i as int).map_values(|q: AiQuestion| ai_view(q)),
                    decreases d.items.len() - i,
                {
                    let q = &d.items[i];
                    let ghost prev = picks(r@);
                    let p: Pick = (q.prompt.clone(), q.answer.clone(), q.difficulty == AiDifficulty::Stretch);
                    assert(pick_view(p) == ai_view(d.items@[i as int]));
                    r.push(p);
                    assert(picks(r@) =~= prev.push(pick_view(p)));
                    assert(picks(r@) =~= d.items@.subrange(0, i + 1).map_values(|q: AiQuestion| ai_view(q)));
                    i = i + 1;
                }
                assert(d.items@.subrange(0, d.items@.len() as int) =~= d.items@);
                return r;
            }
        },
        None => {},
    }
    let mut i: usize = 0;
    while i < bank.len()
        invariant
            i <= bank@.len(),
            picks(r@) == bank@.subrange(0, i as int).map_values(|q: Question| local_view(q)),
        decreases bank.len() - i,
    {
        let q = bank[i];
        let ghost prev = picks(r@);
        let p: Pick = (String::from_str(q.prompt), String::from_str(q.answer), q.difficulty == Difficulty::Stretch);
        assert(pick_view(p) == local_view(bank@[i as int]));
        r.push(p);
        assert(picks(r@) =~= prev.push(pick_view(p)));
        assert(picks(r@) =~= bank@.subrange(0, i + 1).map_values(|q: Question| local_view(q)));
        i = i + 1;
    }
    assert(bank@.subrange(0, bank@.len() as int) =~= bank@);
    r
}

fn copy_pick(p: &Pick) -> (r: Pick)
    ensures
        pick_view(r) == pick_view(*p),
{
    (p.0.clone(), p.1.clone(), p.2)
}

/// The questions that draw `draw` (0 to 9) chooses among.
pub fn choose_pool(src: &Vec<Pick>, draw: usize) -> (r: Vec<Pick>)
    ensures
        picks(r@) == pool(picks(src@), draw as int),
{
    let ghost s = picks(src@);
    let mut stretch: Vec<Pick> = Vec::new();
    let mut core: Vec<Pick> = Vec::new();
    let mut i: usize = 0;
    while i < src.len()
        invariant
            s == picks(src@),
            i <= src@.len(),
            picks(stretch@) == only(s.subrange(0, i as int), true),
            picks(core@) == only(s.subrange(0, i as int), false),
        decreases src.len() - i,
    {
        assert(s.subrange(0, i + 1).drop_last() =~= s.subrange(0, i as int));
        let ghost prev_s = picks(stretch@);
        let ghost prev_c = picks(core@);
        if src[i].2 {
            let p = copy_pick(&src[i]);
            stretch.push(p);
            assert(picks(stretch@) =~= prev_s.push(pick_view(p)));
            assert(picks(stretch@) =~= only(s.subrange(0, i as int), true).push(s[i as int]));
        } else {
            let p = copy_pick(&src[i]);
            core.push(p);
            assert(picks(core@) =~= prev_c.push(pick_view(p)));
            assert(picks(core@) =~= only(s.subrange(0, i as int), false).push(s[i as int]));
        }
        i = i + 1;
    }
    assert(s.subrange(0, s.len() as int) =~= s);
    let chosen = if stretch.len() > 0 && draw < 3 { stretch } else { core };
    if chosen.len() > 0 {
        chosen
    } else {
        let mut all: Vec<Pick> = Vec::new();
        let mut j: usize = 0;
        while j < src.len()
            invariant
                s == picks(src@),
                j <= src@.len(),
                picks(all@) == s.subrange(0, j as int),
            decreases src.len() - j,
        {
            let ghost prev = picks(all@);
            let p = copy_pick(&src[j]);
            all.push(p);
            assert(picks(all@) =~= prev.push(pick_view(p)));
            assert(picks(all@) =~= s.subrange(0, j + 1));
            j = j + 1;
        }
        all
    }
}

/// One question from `src`: a draw from 0 to 9 picks the pool, then a
/// uniform pick within it.
pub fn pick_from(src: &Vec<Pick>) -> (r: Pick)
    requires
        src.len() > 0,
    ensures
        picked_from(picks(src@), pick_view(r)),
{
    let draw = random_below(10);
    let pool_now = choose_pool(src, draw);
    proof {
        lemma_pool_nonempty(picks(src@), draw as int);
    }
    let k = random_below(pool_now.len());
    let r = copy_pick(&pool_now[k]);
    assert(pool(picks(src@), draw as int)[k as int] == pick_view(r));
    r
}

/// A practice question for day `day_id` and `grade`, from `cached` when it
/// is dated `today` and not empty, else from the built-in bank.
pub fn pick_question(day_id: usize, grade: Grade, today: &str, cached: Option<&DayResponse>) -> (r: Pick)
    ensures
        exists|bank: Seq<Question>|
            has_core(bank) && (1 <= day_id <= 12 ==> standard_set(bank))
                && #[trigger] picked_from(source_of(bank, some_ref(cached), today@), pick_view(r)),
{
    let bank = questions_for(day_id, grade);
    let src = active_source(bank.as_slice(), today, cached);
    assert(src@.len() > 0) by {
        assert(picks(src@).len() == src@.len());
    }
    pick_from(&src)
}

} // verus!
