//! School grades, and how a grade is stored as text.
use vstd::prelude::*;

use crate::text::{chars_of, decimal, digit_char, push_decimal, str_eq};

verus! {

/// A school grade, 1 to 5.
#[derive(Clone, Copy, PartialEq, Eq, Debug, Structural)]
pub enum Grade {
    G1,
    G2,
    G3,
    G4,
    G5,
}

/// The grade for a number: 1 to 4 give grades 1 to 4, any other number grade 5.
pub open spec fn grade_of(v: u8) -> Grade {
    if v == 1 {
        Grade::G1
    } else if v == 2 {
        Grade::G2
    } else if v == 3 {
        Grade::G3
    } else if v == 4 {
        Grade::G4
    } else {
        Grade::G5
    }
}

pub open spec fn grade_number(g: Grade) -> u8 {
    match g {
        Grade::G1 => 1,
        Grade::G2 => 2,
        Grade::G3 => 3,
        Grade::G4 => 4,
        Grade::G5 => 5,
    }
}

impl Grade {
    /// "Grade 1" to "Grade 5".
    pub fn label(&self) -> (r: &'static str)
        ensures
            r@ == "Grade "@ + decimal(grade_number(*self) as nat),
    {
        proof {
            reveal_strlit("Grade 1");
            reveal_strlit("Grade 2");
            reveal_strlit("Grade 3");
            reveal_strlit("Grade 4");
            reveal_strlit("Grade 5");
            reveal_strlit("Grade ");
        }
        let r = match self {
            Grade::G1 => "Grade 1",
            Grade::G2 => "Grade 2",
            Grade::G3 => "Grade 3",
            Grade::G4 => "Grade 4",
            Grade::G5 => "Grade 5",
        };
        assert(r@ =~= "Grade "@ + decimal(grade_number(*self) as nat));
        r
    }

    pub fn from_u8(v: u8) -> (r: Grade)
        ensures
            r == grade_of(v),
    {
        match v {
            1 => Grade::G1,
            2 => Grade::G2,
            3 => Grade::G3,
            4 => Grade::G4,
            _ => Grade::G5,
        }
    }

    pub fn as_u8(&self) -> (r: u8)
        ensures
            r == grade_number(*self),
            1 <= r <= 5,
    {
        match self {
            Grade::G1 => 1,
            Grade::G2 => 2,
            Grade::G3 => 3,
            Grade::G4 => 4,
            Grade::G5 => 5,
        }
    }
}

/// The value of a decimal digit character.
pub open spec fn digit_value(c: char) -> nat {
    if c == '1' { 1 }
    else if c == '2' { 2 }
    else if c == '3' { 3 }
    else if c == '4' { 4 }
    else if c == '5' { 5 }
    else if c == '6' { 6 }
    else if c == '7' { 7 }
    else if c == '8' { 8 }
    else if c == '9' { 9 }
    else { 0 }
}

pub open spec fn is_digit(c: char) -> bool {
    '0' <= c <= '9'
}

pub open spec fn all_digits(s: Seq<char>) -> bool {
    forall|i: int| 0 <= i < s.len() ==> is_digit(#[trigger] s[i])
}

/// The number written by the decimal digits `s`.
pub open spec fn digits_value(s: Seq<char>) -> nat
    decreases s.len(),
{
    if s.len() == 0 {
        0
    } else {
        digits_value(s.drop_last()) * 10 + digit_value(s.last())
    }
}

/// What `u8::from_str` accepts: an optional '+', then at least one decimal
/// digit, for a value of at most 255.
pub open spec fn parsed_u8(s: Seq<char>) -> Option<u8> {
    let body = if s.len() > 0 && s[0] == '+' { s.drop_first() } else { s };
    if body.len() > 0 && all_digits(body) && digits_value(body) <= 255 {
        Some(digits_value(body) as u8)
    } else {
        None
    }
}

proof fn lemma_digits_value_grows(s: Seq<char>, i: int)
    requires
        0 <= i <= s.len(),
    ensures
        digits_value(s.subrange(0, i)) <= digits_value(s),
    decreases s.len(),
{
    if i < s.len() {
        assert(s.drop_last().subrange(0, i) =~= s.subrange(0, i));
        lemma_digits_value_grows(s.drop_last(), i);
    } else {
        assert(s.subrange(0, i) =~= s);
    }
}

/// The number in `s` as `u8::from_str` reads it, if it reads one.
pub fn parse_u8(s: &str) -> (r: Option<u8>)
    ensures
        r == parsed_u8(s@),
{
    let c = chars_of(s);
    let start: usize = if c.len() > 0 && c[0] == '+' { 1 } else { 0 };
    let ghost body = if s@.len() > 0 && s@[0] == '+' { s@.drop_first() } else { s@ };
    assert(body =~= s@.subrange(start as int, s@.len() as int));
    if start >= c.len() {
        return None;
    }
    let mut v: u32 = 0;
    let mut i: usize = start;
    assert(body.subrange(0, 0) =~= Seq::<char>::empty());
    while i < c.len()
        invariant
            c@ == s@,
            body == s@.subrange(start as int, s@.len() as int),
            body == (if s@.len() > 0 && s@[0] == '+' { s@.drop_first() } else { s@ }),
            start <= i <= c@.len(),
            v <= 255,
            v == digits_value(body.subrange(0, i - start)),
            forall|k: int| 0 <= k < i - start ==> is_digit(#[trigger] body[k]),
        decreases c.len() - i,
    {
        let ch = c[i];
        let ghost pre = body.subrange(0, i - start);
        let ghost next = body.subrange(0, i - start + 1);
        assert(next.drop_last() =~= pre);
        assert(next.last() == ch);
        if !('0' <= ch && ch <= '9') {
            assert(!is_digit(body[i - start]));
            assert(!all_digits(body));
            assert(parsed_u8(s@) is None);
            return None;
        }
        let d: u32 = if ch == '0' { 0 }
            else if ch == '1' { 1 }
            else if ch == '2' { 2 }
            else if ch == '3' { 3 }
            else if ch == '4' { 4 }
            else if ch == '5' { 5 }
            else if ch == '6' { 6 }
            else if ch == '7' { 7 }
            else if ch == '8' { 8 }
            else { 9 };
        assert(d == digit_value(ch));
        let nv = v * 10 + d;
        assert(digits_value(next) == digits_value(pre) * 10 + digit_value(ch));
        if nv > 255 {
            proof {
                lemma_digits_value_grows(body, i - start + 1);
            }
            assert(parsed_u8(s@) is None);
            return None;
        }
        v = nv;
        i = i + 1;
    }
    assert(body.subrange(0, body.len() as int) =~= body);
    assert(all_digits(body));
    Some(v as u8)
}

/// The grade stored as text: the number it holds, 3 when the text is not a
/// number; a missing value is grade 3.
pub open spec fn stored_grade(raw: Option<Seq<char>>) -> Grade {
    match raw {
        None => Grade::G3,
        Some(s) => match parsed_u8(s) {
            Some(v) => grade_of(v),
            None => Grade::G3,
        },
    }
}

/// The grade that a stored value stands for.
pub fn grade_from_stored(raw: Option<&str>) -> (r: Grade)
    ensures
        r == stored_grade(match raw {
            Some(s) => Some(s@),
            None => None,
        }),
{
    match raw {
        None => Grade::G3,
        Some(s) => {
            let v = match parse_u8(s) {
                Some(v) => v,
                None => 3,
            };
            Grade::from_u8(v)
        },
    }
}

/// The text a grade is stored as: its number in decimal.
pub fn grade_text(g: Grade) -> (r: String)
    ensures
        r@ == decimal(grade_number(g) as nat),
{
    let mut r = String::new();
    push_decimal(&mut r, g.as_u8() as u128);
    r
}

/// A stored grade reads back as the same grade.
pub proof fn lemma_grade_text_round_trip(g: Grade)
    ensures
        stored_grade(Some(decimal(grade_number(g) as nat))) == g,
{
    let s = decimal(grade_number(g) as nat);
    let n = grade_number(g) as nat;
    assert(s == seq![digit_char(n)]);
    assert(s.drop_last() =~= Seq::<char>::empty());
    assert(digits_value(s.drop_last()) == 0);
    assert(digits_value(s) == digit_value(digit_char(n)));
    assert(all_digits(s));
}

/// The grade picked in the grade menu: "1" to "4" give grades 1 to 4, any
/// other choice grade 5.
pub fn grade_from_choice(v: &str) -> (r: Grade)
    ensures
        r == (if v@ == "1"@ {
            Grade::G1
        } else if v@ == "2"@ {
            Grade::G2
        } else if v@ == "3"@ {
            Grade::G3
        } else if v@ == "4"@ {
            Grade::G4
        } else {
            Grade::G5
        }),
{
    if str_eq(v, "1") {
        Grade::G1
    } else if str_eq(v, "2") {
        Grade::G2
    } else if str_eq(v, "3") {
        Grade::G3
    } else if str_eq(v, "4") {
        Grade::G4
    } else {
        Grade::G5
    }
}

} // verus!
