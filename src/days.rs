//! The badge shown on each day's card.
use vstd::prelude::*;

verus! {

/// The badge of day `day_id`: an emoji and a short name; days outside 1 to
/// 12 get a generic badge.
pub open spec fn badge(day_id: usize) -> (&'static str, &'static str) {
    if day_id == 1 {
        ("🔍", "Detective Day")
    } else if day_id == 2 {
        ("🧩", "Puzzle Day")
    } else if day_id == 3 {
        ("🧱", "Builder Day")
    } else if day_id == 4 {
        ("🧭", "Turn Day")
    } else if day_id == 5 {
        ("📊", "Data Day")
    } else if day_id == 6 {
        ("🧊", "Grid Day")
    } else if day_id == 7 {
        ("🎲", "Chance Day")
    } else if day_id == 8 {
        ("🕵️", "Secret Numbers")
    } else if day_id == 9 {
        ("🧠", "Smart Counting")
    } else if day_id == 10 {
        ("⏱️", "Change Day")
    } else if day_id == 11 {
        ("✅", "Truth Day")
    } else if day_id == 12 {
        ("♟️", "Strategy Day")
    } else {
        ("✨", "Math Day")
    }
}

/// The badge of day `day_id`.
pub fn day_tag(day_id: usize) -> (r: (&'static str, &'static str))
    ensures
        r == badge(day_id),
{
    match day_id {
        1 => ("🔍", "Detective Day"),
        2 => ("🧩", "Puzzle Day"),
        3 => ("🧱", "Builder Day"),
        4 => ("🧭", "Turn Day"),
        5 => ("📊", "Data Day"),
        6 => ("🧊", "Grid Day"),
        7 => ("🎲", "Chance Day"),
        8 => ("🕵️", "Secret Numbers"),
        9 => ("🧠", "Smart Counting"),
        10 => ("⏱️", "Change Day"),
        11 => ("✅", "Truth Day"),
        12 => ("♟️", "Strategy Day"),
        _ => ("✨", "Math Day"),
    }
}

} // verus!
