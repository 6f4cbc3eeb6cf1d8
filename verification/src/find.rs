//! Looking for a text in another, without regard to the case of ASCII letters.
use vstd::prelude::*;
use vstd::string::*;

use crate::text::chars_of;

verus! {

/// The small form of an ASCII capital; any other character as it is.
pub open spec fn small(c: char) -> char {
    if 'A' <= c <= 'Z' {
        (c as u32 + 32) as char
    } else {
        c
    }
}

/// At `i` the text `s` goes on with `q`, without regard to case.
pub open spec fn starts_at(q: Seq<char>, s: Seq<char>, i: int) -> bool {
    &&& 0 <= i
    &&& i + q.len() <= s.len()
    &&& forall|k: int| 0 <= k < q.len() ==> small(#[trigger] q[k]) == small(s[i + k])
}

/// The text `s` begins with `q`, without regard to case.
pub open spec fn begins_with(q: Seq<char>, s: Seq<char>) -> bool {
    starts_at(q, s, 0)
}

/// The text `s` contains `q`, without regard to case.
pub open spec fn occurs_in(q: Seq<char>, s: Seq<char>) -> bool {
    exists|i: int| starts_at(q, s, i)
}

fn lower(c: char) -> (r: char)
    ensures
        r == small(c),
{
    if c >= 'A' && c <= 'Z' {
        let n: u8 = c as u8;
        (n + 32u8) as char
    } else {
        c
    }
}

fn starts(q: &Vec<char>, s: &Vec<char>, i: usize) -> (r: bool)
    requires
        i <= s@.len(),
    ensures
        r == starts_at(q@, s@, i as int),
{
    if q.len() > s.len() - i {
        return false;
    }
    let mut k: usize = 0;
    while k < q.len()
        invariant
            i + q@.len() <= s.len(),
            k <= q@.len(),
            forall|j: int| 0 <= j < k ==> small(#[trigger] q@[j]) == small(s@[i + j]),
        decreases q@.len() - k,
    {
        if lower(q[k]) != lower(s[i + k]) {
            return false;
        }
        k = k + 1;
    }
    true
}

/// Whether `s` begins with `q`.
pub fn is_beginning(q: &str, s: &str) -> (r: bool)
    ensures
        r == begins_with(q@, s@),
{
    starts(&chars_of(q), &chars_of(s), 0)
}

/// Whether `s` contains `q`.
pub fn is_part(q: &str, s: &str) -> (r: bool)
    ensures
        r == occurs_in(q@, s@),
{
    let qv = chars_of(q);
    let sv = chars_of(s);
    let mut i: usize = 0;
    while i < sv.len()
        invariant
            qv@ == q@,
            sv@ == s@,
            i <= sv@.len(),
            forall|j: int| 0 <= j < i ==> !starts_at(q@, s@, j),
        decreases sv@.len() - i,
    {
        if starts(&qv, &sv, i) {
            return true;
        }
        i = i + 1;
    }
    starts(&qv, &sv, i)
}

/// What a text begins with it contains.
pub proof fn law_beginning_is_part(q: Seq<char>, s: Seq<char>)
    ensures
        begins_with(q, s) ==> occurs_in(q, s),
{
}

/// Case is that of the ASCII letters alone: a capital stands for the letter thirty-two
/// code points above it, and every other character for itself.
pub proof fn law_case_is_that_of_ascii_letters(c: char)
    ensures
        65 <= c as u32 <= 90 ==> small(c) as u32 == c as u32 + 32,
        !(65 <= c as u32 <= 90) ==> small(c) == c,
        small(small(c)) == small(c),
{
}

/// A text contains whatever stands in it, wherever it stands, and begins with what stands
/// at its beginning; how either is capitalised makes no difference.
pub proof fn law_part_is_found_anywhere(
    before: Seq<char>,
    part: Seq<char>,
    behind: Seq<char>,
    q: Seq<char>,
)
    requires
        q.len() == part.len(),
        forall|k: int| 0 <= k < q.len() ==> small(#[trigger] q[k]) == small(part[k]),
    ensures
        occurs_in(q, before + part + behind),
        begins_with(q, part + behind),
{
    let s = before + part + behind;
    assert(starts_at(q, s, before.len() as int));
}

/// What a text contains stands somewhere in it, and what it begins with stands at its
/// beginning, but for the case.
pub proof fn law_found_part_stands_there(q: Seq<char>, s: Seq<char>)
    ensures
        occurs_in(q, s) ==> exists|i: int|
            0 <= i <= s.len() - q.len() && (#[trigger] s.skip(i)).take(q.len() as int).map_values(
                |c: char| small(c),
            ) == q.map_values(|c: char| small(c)),
        begins_with(q, s) ==> q.len() <= s.len() && s.take(q.len() as int).map_values(
            |c: char| small(c),
        ) == q.map_values(|c: char| small(c)),
{
    if occurs_in(q, s) {
        let i = choose|i: int| starts_at(q, s, i);
        let part = s.skip(i).take(q.len() as int);
        assert forall|k: int| 0 <= k < q.len() implies small(#[trigger] part[k]) == small(q[k]) by {
            assert(small(q[k]) == small(s[i + k]));
        }
        assert(part.map_values(|c: char| small(c)) =~= q.map_values(|c: char| small(c)));
    }
    if begins_with(q, s) {
        let part = s.take(q.len() as int);
        assert forall|k: int| 0 <= k < q.len() implies small(#[trigger] part[k]) == small(q[k]) by {
            assert(small(q[k]) == small(s[0 + k]));
        }
        assert(part.map_values(|c: char| small(c)) =~= q.map_values(|c: char| small(c)));
    }
}

} // verus!
