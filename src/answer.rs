//! Checking a typed answer against the accepted forms.
use vstd::prelude::*;

use crate::text::{drop_spaces, lower_of, remove_spaces, split_on, split_text, to_lowercase, trim, trimmed, views};

verus! {

/// An answer as it is compared: trimmed, lowercased, with spaces removed.
pub open spec fn normalized(s: Seq<char>) -> Seq<char> {
    drop_spaces(lower_of(trimmed(s)))
}

/// The accepted answer texts are separated by '|'.
pub open spec fn accepted_forms(correct: Seq<char>) -> Seq<Seq<char>> {
    split_on(correct, '|')
}

/// Whether the normalized guess `g` equals one non-empty normalized form in `forms`.
pub open spec fn matches_some(g: Seq<char>, forms: Seq<Seq<char>>) -> bool {
    exists|k: int| 0 <= k < forms.len() && forms[k].len() > 0 && #[trigger] forms[k] == g
}

/// `s` trimmed, lowercased, with spaces removed.
pub fn normalize_answer(s: &str) -> (r: String)
    ensures
        r@ == normalized(s@),
{
    let lowered = to_lowercase(trim(s));
    remove_spaces(lowered.as_str())
}

/// Whether the normalized guess equals one of the non-empty normalized accepted forms.
pub fn matches_normalized(guess: &str, forms: &[String]) -> (r: bool)
    ensures
        r == matches_some(guess@, views(forms@)),
{
    let mut i: usize = 0;
    while i < forms.len()
        invariant
            i <= forms@.len(),
            forall|k: int| 0 <= k < i ==> !(forms@[k]@.len() > 0 && forms@[k]@ == guess@),
        decreases forms.len() - i,
    {
        if forms[i].as_str().unicode_len() > 0 && crate::text::str_eq(forms[i].as_str(), guess) {
            assert(views(forms@)[i as int] == guess@);
            return true;
        }
        i = i + 1;
    }
    assert forall|k: int| 0 <= k < views(forms@).len() implies !(views(forms@)[k].len() > 0 && #[trigger] views(forms@)[k] == guess@) by {
        assert(views(forms@)[k] == forms@[k]@);
    }
    false
}

/// Whether `guess` matches one of the '|'-separated forms of `correct`,
/// ignoring case, surrounding white space and inner spaces; empty forms
/// never match.
pub fn is_correct(guess: &str, correct: &str) -> (r: bool)
    ensures
        r == matches_some(normalized(guess@), accepted_forms(correct@).map_values(|f: Seq<char>| normalized(f))),
{
    let g = normalize_answer(guess);
    let pieces = split_text(correct, '|');
    let mut forms: Vec<String> = Vec::new();
    let mut i: usize = 0;
    while i < pieces.len()
        invariant
            i <= pieces@.len(),
            views(pieces@) == accepted_forms(correct@),
            views(forms@) == views(pieces@).subrange(0, i as int).map_values(|f: Seq<char>| normalized(f)),
        decreases pieces.len() - i,
    {
        let ghost prev = views(forms@);
        let f = normalize_answer(pieces[i].as_str());
        assert(views(pieces@)[i as int] == pieces@[i as int]@);
        forms.push(f);
        assert(views(forms@) =~= prev.push(f@));
        assert(views(forms@) =~= views(pieces@).subrange(0, i + 1).map_values(|f: Seq<char>| normalized(f)));
        i = i + 1;
    }
    assert(views(pieces@).subrange(0, pieces@.len() as int) =~= views(pieces@));
    matches_normalized(g.as_str(), &forms)
}

} // verus!
