//! Skill categories and the prompt classifier.
use vstd::prelude::*;

use crate::text::{chars_of, contains_char, contains_text, has_substring, lower_of, to_lowercase};

verus! {

/// The skill a practice question exercises.
#[derive(Clone, Copy, Debug, PartialEq, Eq, Structural, PartialOrd, Ord)]
pub enum Skill {
    Addition,
    Subtraction,
    Multiplication,
    Division,
    WordProblem,
    Unknown,
}

/// The skill of a prompt already in lowercase. Word-problem phrases are
/// looked for first, then the signs and words of the four operations, in
/// the order addition, subtraction, multiplication, division.
pub open spec fn skill_of(p: Seq<char>) -> Skill {
    if has_substring(p, "how many"@) || has_substring(p, "left"@) || has_substring(p, "total"@)
        || has_substring(p, "in all"@) || has_substring(p, "shared"@) || has_substring(p, "altogether"@) {
        Skill::WordProblem
    } else if p.contains('+') || has_substring(p, " plus "@) {
        Skill::Addition
    } else if p.contains('-') || has_substring(p, " minus "@) {
        Skill::Subtraction
    } else if p.contains('×') || has_substring(p, " x "@) || has_substring(p, " times "@) {
        Skill::Multiplication
    } else if p.contains('÷') || has_substring(p, " per "@) || has_substring(p, " each "@) {
        Skill::Division
    } else {
        Skill::Unknown
    }
}

/// The skill of a prompt that is already lowercase.
pub fn classify_lowered(p: &str) -> (r: Skill)
    ensures
        r == skill_of(p@),
{
    let c = chars_of(p);
    if contains_text(&c, "how many") || contains_text(&c, "left") || contains_text(&c, "total")
        || contains_text(&c, "in all") || contains_text(&c, "shared") || contains_text(&c, "altogether") {
        Skill::WordProblem
    } else if contains_char(&c, '+') || contains_text(&c, " plus ") {
        Skill::Addition
    } else if contains_char(&c, '-') || contains_text(&c, " minus ") {
        Skill::Subtraction
    } else if contains_char(&c, '×') || contains_text(&c, " x ") || contains_text(&c, " times ") {
        Skill::Multiplication
    } else if contains_char(&c, '÷') || contains_text(&c, " per ") || contains_text(&c, " each ") {
        Skill::Division
    } else {
        Skill::Unknown
    }
}

/// The skill of a question prompt, matched without regard to case.
pub fn classify_skill(prompt: &str) -> (r: Skill)
    ensures
        r == skill_of(lower_of(prompt@)),
{
    let lowered = to_lowercase(prompt);
    classify_lowered(lowered.as_str())
}

pub open spec fn skill_name(s: Skill) -> Seq<char> {
    match s {
        Skill::Addition => "Addition"@,
        Skill::Subtraction => "Subtraction"@,
        Skill::Multiplication => "Multiplication"@,
        Skill::Division => "Division"@,
        Skill::WordProblem => "Word Problems"@,
        Skill::Unknown => "Mixed Skills"@,
    }
}

/// The name a parent sees for a skill.
pub fn skill_label(s: Skill) -> (r: &'static str)
    ensures
        r@ == skill_name(s),
{
    match s {
        Skill::Addition => "Addition",
        Skill::Subtraction => "Subtraction",
        Skill::Multiplication => "Multiplication",
        Skill::Division => "Division",
        Skill::WordProblem => "Word Problems",
        Skill::Unknown => "Mixed Skills",
    }
}

} // verus!
