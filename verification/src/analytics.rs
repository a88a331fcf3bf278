//! Batch analytics over the dictionaries: the letter histogram behind the
//! frequency report.

use vstd::prelude::*;
use crate::game::valid_word_list;
use crate::words::str_to_chars;

verus! {

/// Whether character `c` is the letter of slot `s` (slot 0 is `'a'`,
/// slot 25 is `'z'`).
pub open spec fn letter_matches(c: char, s: int) -> bool {
    c as u32 == 97 + s
}

/// How often the letter of slot `s` occurs in the word `w`.
pub open spec fn letter_count_in(w: Seq<char>, s: int) -> int
    decreases w.len(),
{
    if w.len() == 0 {
        0
    } else {
        letter_count_in(w.drop_last(), s) + if letter_matches(w.last(), s) {
            1int
        } else {
            0int
        }
    }
}

/// How often the letter of slot `s` occurs across the word list.
pub open spec fn letter_tally(ws: Seq<String>, s: int) -> int
    decreases ws.len(),
{
    if ws.len() == 0 {
        0
    } else {
        letter_tally(ws.drop_last(), s) + letter_count_in(ws.last()@, s)
    }
}

/// Tallies how often each letter occurs across a word list: slot 0 holds
/// the count for `'a'`, slot 25 the count for `'z'`.  The length bound
/// keeps the tallies within the counter width: each word holds five
/// letters.
pub fn letter_counts(words: &Vec<String>) -> (counts: Vec<u64>)
    requires
        valid_word_list(words@),
        words@.len() <= 0x1000_0000_0000_0000,
    ensures
        counts@.len() == 26,
        forall|s: int| 0 <= s < 26 ==> counts@[s] == letter_tally(words@, s),
{
    let mut counts: Vec<u64> = Vec::new();
    for z in 0..26usize
        invariant
            counts@.len() == z,
            forall|s: int| 0 <= s < z ==> counts@[s] == 0,
    {
        counts.push(0);
    }
    let n = words.len();
    for i in 0..n
        invariant
            n == words@.len(),
            n <= 0x1000_0000_0000_0000,
            valid_word_list(words@),
            counts@.len() == 26,
            forall|s: int| 0 <= s < 26 ==> counts@[s] == letter_tally(
                words@.subrange(0, i as int),
                s,
            ),
            forall|s: int| 0 <= s < 26 ==> counts@[s] <= 5 * i,
    {
        let ghost prefix = words@.subrange(0, i as int);
        let chars = str_to_chars(words[i].as_str());
        for j in 0..5usize
            invariant
                n == words@.len(),
                n <= 0x1000_0000_0000_0000,
                i < n,
                valid_word_list(words@),
                chars@ == words@[i as int]@,
                chars@.len() == 5,
                counts@.len() == 26,
                forall|s: int| 0 <= s < 26 ==> counts@[s] == letter_tally(prefix, s)
                    + letter_count_in(chars@.subrange(0, j as int), s),
                forall|s: int| 0 <= s < 26 ==> counts@[s] <= 5 * i + j,
        {
            let c = chars[j];
            proof {
                assert('a' <= c && c <= 'z');
            }
            let code = c as u32;
            let slot = (code - 97) as usize;
            let cur = counts[slot];
            counts.set(slot, cur + 1);
            proof {
                assert(chars@.subrange(0, j + 1 as int).drop_last() =~= chars@.subrange(
                    0,
                    j as int,
                ));
                assert(chars@.subrange(0, j + 1 as int).last() == c);
            }
        }
        proof {
            assert(chars@.subrange(0, 5) =~= chars@);
            assert(words@.subrange(0, i + 1 as int).drop_last() =~= prefix);
            assert(words@.subrange(0, i + 1 as int).last() == words@[i as int]);
        }
    }
    proof {
        assert(words@.subrange(0, n as int) =~= words@);
    }
    counts
}

} // verus!
