//! What the app keeps on the device: completed days, the grade, the sound
//! setting, the cached day sets; their keys and stored texts.
use vstd::prelude::*;

use crate::grade::{grade_number, Grade};
use crate::text::{decimal, padded, push_char, push_decimal, push_padded, str_eq};

verus! {

pub const KEY_PROGRESS: &'static str = "the_numbers_progress_v1";

pub const KEY_GRADE: &'static str = "the_numbers_grade_v1";

pub const KEY_STATS: &'static str = "the_numbers_stats_week_v1";

pub const KEY_SOUND: &'static str = "the_numbers_sound_v1";

/// The days a student has completed, each at most once.
#[derive(Clone, Debug, PartialEq)]
pub struct Progress {
    pub completed: Vec<usize>,
}

impl Progress {
    pub open spec fn wf(&self) -> bool {
        self.completed@.no_duplicates()
    }

    pub fn new() -> (r: Progress)
        ensures
            r.completed@ == Seq::<usize>::empty(),
            r.wf(),
    {
        Progress { completed: Vec::new() }
    }

    /// Whether day `id` is completed.
    pub fn is_completed(&self, id: usize) -> (r: bool)
        ensures
            r == self.completed@.contains(id),
    {
        let mut i: usize = 0;
        while i < self.completed.len()
            invariant
                i <= self.completed@.len(),
                forall|k: int| 0 <= k < i ==> self.completed@[k] != id,
            decreases self.completed.len() - i,
        {
            if self.completed[i] == id {
                return true;
            }
            i = i + 1;
        }
        false
    }

    /// Marks day `id` completed; a day already completed stays as it is.
    pub fn mark_completed(&mut self, id: usize)
        ensures
            old(self).completed@.contains(id) ==> final(self).completed@ == old(self).completed@,
            !old(self).completed@.contains(id) ==> final(self).completed@ == old(self).completed@.push(id),
            old(self).wf() ==> final(self).wf(),
            final(self).completed@.contains(id),
    {
        if !self.is_completed(id) {
            self.completed.push(id);
            proof {
                let s = self.completed@;
                assert(s[s.len() - 1] == id);
                assert forall|a: int, b: int| 0 <= a < s.len() && 0 <= b < s.len() && a != b && old(self).wf()
                    implies s[a] != s[b] by {
                    if a == s.len() - 1 {
                        assert(s[b] == old(self).completed@[b]);
                    } else if b == s.len() - 1 {
                        assert(s[a] == old(self).completed@[a]);
                    } else {
                        assert(s[a] == old(self).completed@[a] && s[b] == old(self).completed@[b]);
                    }
                }
            }
        }
    }
}

impl Default for Progress {
    fn default() -> (r: Progress)
        ensures
            r.completed@ == Seq::<usize>::empty(),
    {
        Progress::new()
    }
}

/// Completing a day twice leaves the same progress as completing it once.
pub proof fn lemma_completion_idempotent(p: Seq<usize>, id: usize, once: Seq<usize>, twice: Seq<usize>)
    requires
        once == (if p.contains(id) { p } else { p.push(id) }),
        twice == (if once.contains(id) { once } else { once.push(id) }),
    ensures
        twice == once,
{
    if !p.contains(id) {
        assert(once[p.len() as int] == id);
    }
}

/// The storage key of the cached set of `day_id` for `grade`.
pub fn day_cache_key(grade: Grade, day_id: usize) -> (r: String)
    ensures
        r@ == "the_numbers_day_v1_"@ + decimal(grade_number(grade) as nat) + "_"@ + decimal(day_id as nat),
{
    let mut r = String::from_str("the_numbers_day_v1_");
    push_decimal(&mut r, grade.as_u8() as u128);
    r.append("_");
    push_decimal(&mut r, day_id as u128);
    r
}

/// Whether sound is on, from its stored value: on unless the value is
/// there and is not "1".
pub fn sound_enabled(stored: Option<&str>) -> (r: bool)
    ensures
        r == match stored {
            None => true,
            Some(v) => v@ == "1"@,
        },
{
    match stored {
        None => true,
        Some(v) => str_eq(v, "1"),
    }
}

/// The stored value of the sound setting.
pub fn sound_flag(enabled: bool) -> (r: &'static str)
    ensures
        r@ == (if enabled { "1"@ } else { "0"@ }),
{
    if enabled { "1" } else { "0" }
}

/// A calendar date as "YYYY-MM-DD", the year zero-padded to four places
/// (a negative year to three digits after its sign), month and day to two.
pub open spec fn ymd_text(year: int, month: nat, day: nat) -> Seq<char> {
    let y = if year < 0 { seq!['-'] + padded((-year) as nat, 3) } else { padded(year as nat, 4) };
    y + seq!['-'] + padded(month, 2) + seq!['-'] + padded(day, 2)
}

/// The date text that stamps cached sets and statistics.
pub fn date_text(year: i32, month: u32, day: u32) -> (r: String)
    ensures
        r@ == ymd_text(year as int, month as nat, day as nat),
{
    let mut r = String::new();
    if year < 0 {
        push_char(&mut r, '-');
        let magnitude: u128 = if year == i32::MIN { 2147483648u128 } else { (-year) as u128 };
        push_padded(&mut r, magnitude, 3);
    } else {
        push_padded(&mut r, year as u128, 4);
    }
    push_char(&mut r, '-');
    push_padded(&mut r, month as u128, 2);
    push_char(&mut r, '-');
    push_padded(&mut r, day as u128, 2);
    r
}

} // verus!
