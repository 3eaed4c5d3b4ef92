//! A day's question set as the remote question service returns it, and as
//! it is kept in the daily cache.
use vstd::prelude::*;

use crate::text::str_eq;

verus! {

/// How hard a fetched question is meant to be.
#[derive(Clone, Copy, Debug, PartialEq, Eq, Structural)]
pub enum Difficulty {
    Core,
    Stretch,
}

/// A fetched question.
#[derive(Clone, Debug)]
pub struct AiQuestion {
    pub prompt: String,
    pub answer: String,
    pub difficulty: Difficulty,
}

/// The question set of one day for one grade.
#[derive(Clone, Debug)]
pub struct DayResponse {
    pub version: u32,
    pub grade: u8,
    pub day_id: usize,
    /// The local calendar date it was made for, "YYYY-MM-DD".
    pub date_ymd: String,
    pub items: Vec<AiQuestion>,
    /// "ai" or "fallback".
    pub source: String,
}

/// A cached set is refreshed when there is none or it is dated another day.
pub open spec fn refresh_needed(cached: Option<DayResponse>, today: Seq<char>) -> bool {
    match cached {
        None => true,
        Some(d) => d.date_ymd@ != today,
    }
}

/// Whether the cached set of a day must be fetched again today.
pub fn needs_refresh(cached: Option<&DayResponse>, today: &str) -> (r: bool)
    ensures
        r == refresh_needed(
            match cached {
                Some(d) => Some(*d),
                None => None,
            },
            today@,
        ),
{
    match cached {
        None => true,
        Some(d) => !str_eq(d.date_ymd.as_str(), today),
    }
}

impl DayResponse {
    /// Whether the set was written by the question generator rather than
    /// the service's own fallback.
    pub fn from_ai(&self) -> (r: bool)
        ensures
            r == (self.source@ == "ai"@),
    {
        str_eq(self.source.as_str(), "ai")
    }
}

} // verus!
