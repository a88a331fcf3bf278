//! The guess scorer's exact parts: the partition of a candidate pool by
//! feedback code, the number of distinct feedback groups, and the selection
//! policy over scored guesses.
//!
//! The entropy of a partition is a real-valued quantity; a caller computes
//! it from the exact group sizes reported here and hands it back as a
//! fixed-point scaled integer, so that selection and its tie-breaks are
//! decided here with exact arithmetic.

use vstd::prelude::*;
use crate::words::{valid_word, str_to_chars};
use crate::feedback::{spec_compare, compare_chars};
use crate::game::{valid_word_list, lemma_filter_push};

verus! {

/// The numeric value of one clue symbol: blank 0, present 1, correct 2.
pub open spec fn clue_digit(c: char) -> int {
    if c == 'Y' {
        1
    } else if c == 'G' {
        2
    } else {
        0
    }
}

/// A five-symbol clue read as a base-3 numeral, lowest position first.
/// Always lies between 0 and 242.
pub open spec fn clue_index(s: Seq<char>) -> int {
    clue_digit(s[0]) + 3 * clue_digit(s[1]) + 9 * clue_digit(s[2]) + 27 * clue_digit(s[3]) + 81
        * clue_digit(s[4])
}

/// The numeric value of one clue symbol, computed.
fn clue_digit_of(c: char) -> (d: usize)
    ensures
        d == clue_digit(c),
{
    if c == 'Y' {
        1
    } else if c == 'G' {
        2
    } else {
        0
    }
}

/// Converts a feedback code to its partition slot.
pub fn clue_code(marks: &Vec<char>) -> (code: usize)
    requires
        marks@.len() == 5,
    ensures
        code == clue_index(marks@),
        code < 243,
{
    let d0 = clue_digit_of(marks[0]);
    let d1 = clue_digit_of(marks[1]);
    let d2 = clue_digit_of(marks[2]);
    let d3 = clue_digit_of(marks[3]);
    let d4 = clue_digit_of(marks[4]);
    d0 + 3 * d1 + 9 * d2 + 27 * d3 + 81 * d4
}

/// The test for one partition slot, as a predicate value.
pub open spec fn code_pred(guess: Seq<char>, c: int) -> spec_fn(String) -> bool {
    |w: String| clue_index(spec_compare(w@, guess)) == c
}

/// The pool words whose feedback code for `guess` falls in slot `c`.
pub open spec fn clue_group(pool: Seq<String>, guess: Seq<char>, c: int) -> Seq<String> {
    pool.filter(code_pred(guess, c))
}

/// Partitions the pool by the feedback code each word would give for
/// `guess`: slot `c` of the result holds the size of group `c`.
pub fn partition_counts(pool: &Vec<String>, guess: &str) -> (counts: Vec<usize>)
    requires
        valid_word_list(pool@),
        valid_word(guess@),
    ensures
        counts@.len() == 243,
        forall|c: int| 0 <= c < 243 ==> counts@[c] == clue_group(pool@, guess@, c).len(),
{
    let mut counts: Vec<usize> = Vec::new();
    for z in 0..243usize
        invariant
            counts@.len() == z,
            forall|c: int| 0 <= c < z ==> counts@[c] == 0,
    {
        counts.push(0);
    }
    proof {
        assert forall|c: int| 0 <= c < 243 implies counts@[c] == clue_group(
            pool@.subrange(0, 0),
            guess@,
            c,
        ).len() by {
            assert(pool@.subrange(0, 0) =~= Seq::<String>::empty());
        }
    }
    let guess_chars = str_to_chars(guess);
    let n = pool.len();
    for i in 0..n
        invariant
            n == pool@.len(),
            guess_chars@ == guess@,
            valid_word(guess@),
            valid_word_list(pool@),
            counts@.len() == 243,
            forall|c: int| 0 <= c < 243 ==> counts@[c] == clue_group(
                pool@.subrange(0, i as int),
                guess@,
                c,
            ).len(),
            forall|c: int| 0 <= c < 243 ==> counts@[c] <= i,
    {
        let ghost prefix = pool@.subrange(0, i as int);
        let w_chars = str_to_chars(pool[i].as_str());
        let marks = compare_chars(&w_chars, &guess_chars);
        let code = clue_code(&marks);
        let cur = counts[code];
        counts.set(code, cur + 1);
        proof {
            assert(pool@.subrange(0, i + 1 as int) =~= prefix.push(pool@[i as int]));
            assert forall|c: int| 0 <= c < 243 implies counts@[c] == clue_group(
                pool@.subrange(0, i + 1 as int),
                guess@,
                c,
            ).len() by {
                lemma_filter_push(prefix, pool@[i as int], code_pred(guess@, c));
            }
        }
    }
    proof {
        assert(pool@.subrange(0, n as int) =~= pool@);
    }
    counts
}

/// How many slots of a count vector are occupied.
pub open spec fn nonzero_count(s: Seq<usize>) -> int
    decreases s.len(),
{
    if s.len() == 0 {
        0
    } else {
        nonzero_count(s.drop_last()) + if s.last() != 0 {
            1int
        } else {
            0int
        }
    }
}

/// Counts the distinct feedback groups of a partition.
pub fn distinct_groups(counts: &Vec<usize>) -> (k: usize)
    ensures
        k == nonzero_count(counts@),
{
    let mut k: usize = 0;
    let n = counts.len();
    for i in 0..n
        invariant
            n == counts@.len(),
            k <= i,
            k == nonzero_count(counts@.subrange(0, i as int)),
    {
        if counts[i] != 0 {
            k = k + 1;
        }
        proof {
            assert(counts@.subrange(0, i + 1 as int).drop_last() =~= counts@.subrange(0, i as int));
            assert(counts@.subrange(0, i + 1 as int).last() == counts@[i as int]);
        }
    }
    proof {
        assert(counts@.subrange(0, n as int) =~= counts@);
    }
    k
}

/// The figures weighed for one candidate guess: the entropy of the clue
/// partition it induces, as a fixed-point scaled integer; the number of
/// distinct clue groups; and whether the guess itself is still a possible
/// answer.
#[derive(Clone, Copy, Debug, PartialEq, Eq, Structural)]
pub struct GuessScore {
    pub entropy: u64,
    pub groups: usize,
    pub in_pool: bool,
}

/// The selection order against the incumbent figures: strictly higher
/// entropy wins; on equal entropy more distinct groups wins; on equal
/// groups a guess that is itself still a possible answer wins.
pub open spec fn preferred(s: GuessScore, best_entropy: u64, best_groups: usize) -> bool {
    ||| s.entropy > best_entropy
    ||| (s.entropy == best_entropy && s.groups > best_groups)
    ||| (s.entropy == best_entropy && s.groups == best_groups && s.in_pool)
}

/// The index selected after scanning the scores from position `i` onward,
/// with incumbent index `best` (-1 for none) whose figures are `be`, `bg`.
pub open spec fn select_from(scores: Seq<GuessScore>, i: int, best: int, be: u64, bg: usize) -> int
    decreases scores.len() - i,
{
    if i < 0 || i >= scores.len() {
        best
    } else if preferred(scores[i], be, bg) {
        select_from(scores, i + 1, i, scores[i].entropy, scores[i].groups)
    } else {
        select_from(scores, i + 1, best, be, bg)
    }
}

/// The index the scorer recommends: the first index reaching the best
/// figures, starting from an empty incumbent; -1 when nothing qualifies.
pub open spec fn spec_select(scores: Seq<GuessScore>) -> int {
    select_from(scores, 0, -1, 0, 0)
}

/// Picks the best-scored guess.  The winner has maximal entropy among all
/// scores; ties fall to the selection order, scanning in sequence order.
pub fn select_best(scores: &Vec<GuessScore>) -> (r: Option<usize>)
    ensures
        match r {
            Some(i) => i < scores@.len() && i as int == spec_select(scores@) && (forall|j: int|
                0 <= j < scores@.len() ==> scores@[j].entropy <= scores@[i as int].entropy),
            None => spec_select(scores@) == -1 && (forall|j: int|
                0 <= j < scores@.len() ==> !preferred(scores@[j], 0, 0)),
        },
{
    let mut best: usize = 0;
    let mut has: bool = false;
    let mut be: u64 = 0;
    let mut bg: usize = 0;
    let n = scores.len();
    for i in 0..n
        invariant
            n == scores@.len(),
            spec_select(scores@) == select_from(
                scores@,
                i as int,
                if has {
                    best as int
                } else {
                    -1
                },
                be,
                bg,
            ),
            has ==> best < i && scores@[best as int].entropy == be && scores@[best as int].groups
                == bg,
            (!has) ==> be == 0 && bg == 0 && (forall|j: int|
                0 <= j < i ==> !preferred(scores@[j], 0, 0)),
            forall|j: int| 0 <= j < i ==> scores@[j].entropy <= be,
    {
        let s = scores[i];
        if s.entropy > be || (s.entropy == be && s.groups > bg) || (s.entropy == be && s.groups
            == bg && s.in_pool) {
            best = i;
            has = true;
            be = s.entropy;
            bg = s.groups;
        }
    }
    if has {
        Some(best)
    } else {
        None
    }
}

/// Picks the board whose recommendation carries the strictly highest
/// score: the first board reaching the maximum wins, and all-zero scores
/// pick nothing.
pub fn best_board(scores: &Vec<u64>) -> (r: Option<usize>)
    ensures
        match r {
            Some(i) => i < scores@.len() && scores@[i as int] > 0 && (forall|j: int|
                0 <= j < scores@.len() ==> scores@[j] <= scores@[i as int]) && (forall|j: int|
                0 <= j < i ==> scores@[j] < scores@[i as int]),
            None => forall|j: int| 0 <= j < scores@.len() ==> scores@[j] == 0,
        },
{
    let mut best: usize = 0;
    let mut has: bool = false;
    let mut bs: u64 = 0;
    let n = scores.len();
    for i in 0..n
        invariant
            n == scores@.len(),
            has ==> best < i && scores@[best as int] == bs && bs > 0,
            has ==> forall|j: int| 0 <= j < best ==> scores@[j] < bs,
            (!has) ==> bs == 0,
            forall|j: int| 0 <= j < i ==> scores@[j] <= bs,
    {
        if scores[i] > bs {
            best = i;
            has = true;
            bs = scores[i];
        }
    }
    if has {
        Some(best)
    } else {
        None
    }
}

/// All-zero counts occupy no slot.
proof fn lemma_nonzero_count_zero(s: Seq<usize>)
    requires
        forall|j: int| 0 <= j < s.len() ==> s[j] == 0,
    ensures
        nonzero_count(s) == 0,
    decreases s.len(),
{
    if s.len() > 0 {
        lemma_nonzero_count_zero(s.drop_last());
    }
}

/// Counts that occupy exactly one slot count one group.
proof fn lemma_nonzero_count_single(s: Seq<usize>, c: int)
    requires
        0 <= c < s.len(),
        s[c] != 0,
        forall|j: int| 0 <= j < s.len() && j != c ==> s[j] == 0,
    ensures
        nonzero_count(s) == 1,
    decreases s.len(),
{
    if c == s.len() - 1 {
        lemma_nonzero_count_zero(s.drop_last());
    } else {
        lemma_nonzero_count_single(s.drop_last(), c);
    }
}

/// With a single candidate left, every guess induces exactly one feedback
/// group, so the scorer reports the solved sentinel.
pub proof fn lemma_singleton_pool_one_group(
    pool: Seq<String>,
    guess: Seq<char>,
    counts: Seq<usize>,
)
    requires
        pool.len() == 1,
        counts.len() == 243,
        forall|c: int| 0 <= c < 243 ==> counts[c] == clue_group(pool, guess, c).len(),
    ensures
        nonzero_count(counts) == 1,
{
    reveal_with_fuel(Seq::filter, 3);
    let code = clue_index(spec_compare(pool[0]@, guess));
    assert(0 <= code < 243);
    assert forall|c: int| 0 <= c < 243 implies counts[c] == (if c == code {
        1int
    } else {
        0int
    }) by {
        assert(pool.drop_last() =~= Seq::<String>::empty());
        assert(pool.drop_last() == Seq::<String>::empty());
        assert(Seq::<String>::empty().filter(code_pred(guess, c)) =~= Seq::<String>::empty());
        assert(pool.last() == pool[0]);
        assert(code_pred(guess, c)(pool[0]) == (c == code));
        assert(clue_group(pool, guess, c).len() == if c == code {
            1int
        } else {
            0int
        });
    }
    lemma_nonzero_count_single(counts, code);
}

} // verus!
