//! The shared data model: puzzle words and feedback clues.
//!
//! A puzzle word is exactly five lowercase ASCII letters.  A clue is a
//! five-symbol code over {`' '`, `'Y'`, `'G'`}: `'G'` marks a letter in the
//! right position, `'Y'` a letter present elsewhere in the goal word, and
//! `' '` a letter that cannot be attributed to the goal at all.

use vstd::prelude::*;

verus! {

/// A lowercase ASCII letter, the only characters a puzzle word may hold.
pub open spec fn lowercase_letter(c: char) -> bool {
    'a' <= c && c <= 'z'
}

/// A valid puzzle word: exactly five lowercase ASCII letters.
pub open spec fn valid_word(s: Seq<char>) -> bool {
    &&& s.len() == 5
    &&& forall|i: int| 0 <= i < s.len() ==> lowercase_letter(#[trigger] s[i])
}

/// A symbol that may appear in a feedback clue.
pub open spec fn clue_symbol(c: char) -> bool {
    c == ' ' || c == 'Y' || c == 'G'
}

/// A valid feedback clue: exactly five clue symbols.
pub open spec fn valid_clue(s: Seq<char>) -> bool {
    &&& s.len() == 5
    &&& forall|i: int| 0 <= i < s.len() ==> clue_symbol(#[trigger] s[i])
}

/// Collects the characters of a string into a vector, in order.
pub fn str_to_chars(s: &str) -> (v: Vec<char>)
    ensures
        v@ == s@,
{
    let mut v: Vec<char> = Vec::new();
    for c in it: s.chars()
        invariant
            v@ == it.seq().subrange(0, it.index() as int),
    {
        v.push(c);
    }
    proof {
        assert(v@ =~= s@);
    }
    v
}

/// Decides whether a string is a valid puzzle word.
pub fn is_valid_word(s: &str) -> (r: bool)
    ensures
        r == valid_word(s@),
{
    let chars = str_to_chars(s);
    if chars.len() != 5 {
        return false;
    }
    for i in 0..5usize
        invariant
            chars@ == s@,
            chars.len() == 5,
            forall|j: int| 0 <= j < i ==> lowercase_letter(#[trigger] s@[j]),
    {
        let c = chars[i];
        if !('a' <= c && c <= 'z') {
            return false;
        }
    }
    true
}

/// Decides whether a string is a valid feedback clue.
pub fn is_valid_clue(s: &str) -> (r: bool)
    ensures
        r == valid_clue(s@),
{
    let chars = str_to_chars(s);
    if chars.len() != 5 {
        return false;
    }
    for i in 0..5usize
        invariant
            chars@ == s@,
            chars.len() == 5,
            forall|j: int| 0 <= j < i ==> clue_symbol(#[trigger] s@[j]),
    {
        let c = chars[i];
        if !(c == ' ' || c == 'Y' || c == 'G') {
            return false;
        }
    }
    true
}

} // verus!
