//! The general laws of the solver, stated once and proved for all inputs:
//! what the feedback engine returns on equal and on letter-disjoint words,
//! and that the candidate filter is sound, idempotent and monotone.

use vstd::prelude::*;
use crate::words::valid_word;
use crate::feedback::{
    spec_compare,
    pass2,
    exact_marks,
    exact_work,
    lemma_first_match,
};
use crate::game::{filtered_pool, clue_pred};

verus! {

/// The all-correct feedback code: every letter in its right place.
pub open spec fn all_correct() -> Seq<char> {
    seq!['G', 'G', 'G', 'G', 'G']
}

/// The all-blank feedback code: no letter attributable to the goal.
pub open spec fn all_blank() -> Seq<char> {
    seq![' ', ' ', ' ', ' ', ' ']
}

/// The second pass changes nothing from a position whose remaining marks
/// are all already claimed.
proof fn lemma_pass2_all_marked(marks: Seq<char>, work: Seq<char>, guess: Seq<char>, i: nat)
    requires
        forall|k: int| i <= k < guess.len() ==> marks[k] != ' ',
    ensures
        pass2(marks, work, guess, i) == (marks, work),
    decreases guess.len() - i,
{
    if i < guess.len() {
        lemma_pass2_all_marked(marks, work, guess, i + 1);
    }
}

/// The second pass changes nothing when no remaining guess letter occurs
/// among the working letters.
proof fn lemma_pass2_no_occurrence(marks: Seq<char>, work: Seq<char>, guess: Seq<char>, i: nat)
    requires
        forall|k: int, j: int| i <= k < guess.len() && 0 <= j < work.len() ==> work[j]
            != guess[k],
    ensures
        pass2(marks, work, guess, i) == (marks, work),
    decreases guess.len() - i,
{
    if i < guess.len() {
        lemma_first_match(work, guess[i as int]);
        lemma_pass2_no_occurrence(marks, work, guess, i + 1);
    }
}

/// Comparing any word against itself yields the all-correct code.
pub proof fn lemma_compare_self(g: Seq<char>)
    requires
        valid_word(g),
    ensures
        spec_compare(g, g) == all_correct(),
{
    assert(exact_marks(g, g) =~= all_correct());
    lemma_pass2_all_marked(exact_marks(g, g), exact_work(g, g), g, 0);
}

/// Comparing two words that share no letter yields the all-blank code.
pub proof fn lemma_compare_disjoint(a: Seq<char>, b: Seq<char>)
    requires
        valid_word(a),
        valid_word(b),
        forall|i: int, j: int| 0 <= i < a.len() && 0 <= j < b.len() ==> a[i] != b[j],
    ensures
        spec_compare(a, b) == all_blank(),
{
    assert(exact_marks(a, b) =~= all_blank());
    assert(exact_work(a, b) =~= a);
    lemma_pass2_no_occurrence(exact_marks(a, b), exact_work(a, b), b, 0);
    assert(exact_marks(a, b) == all_blank());
}

/// A sequence every entry of which satisfies the predicate is its own
/// filtering.
proof fn lemma_filter_all<A>(s: Seq<A>, pred: spec_fn(A) -> bool)
    requires
        forall|k: int| 0 <= k < s.len() ==> pred(#[trigger] s[k]),
    ensures
        s.filter(pred) == s,
    decreases s.len(),
{
    reveal(Seq::filter);
    if s.len() > 0 {
        lemma_filter_all(s.drop_last(), pred);
        assert(s.drop_last().push(s.last()) =~= s);
    }
}

/// Idempotence of the candidate filter: filtering a pool already
/// consistent with a guess/clue pair by the same pair changes nothing.
pub proof fn lemma_filter_idempotent(pool: Seq<String>, guess: Seq<char>, clue: Seq<char>)
    ensures
        filtered_pool(filtered_pool(pool, guess, clue), guess, clue) == filtered_pool(
            pool,
            guess,
            clue,
        ),
{
    broadcast use vstd::seq_lib::group_filter_ensures;

    let f = filtered_pool(pool, guess, clue);
    assert forall|k: int| 0 <= k < f.len() implies clue_pred(guess, clue)(#[trigger] f[k]) by {
        assert(clue_pred(guess, clue)(pool.filter(clue_pred(guess, clue))[k]));
    }
    lemma_filter_all(f, clue_pred(guess, clue));
}

/// Monotonicity of the candidate filter: the pool never grows.
pub proof fn lemma_filter_monotonic(pool: Seq<String>, guess: Seq<char>, clue: Seq<char>)
    ensures
        filtered_pool(pool, guess, clue).len() <= pool.len(),
{
    pool.lemma_filter_len(clue_pred(guess, clue));
}

/// Soundness of the candidate filter: every retained word would produce
/// exactly the received clue for the guess, every pool word that would is
/// retained, and every pool word that would not is gone.
pub proof fn lemma_filter_sound(pool: Seq<String>, guess: Seq<char>, clue: Seq<char>)
    ensures
        forall|k: int| 0 <= k < filtered_pool(pool, guess, clue).len() ==> spec_compare(
            #[trigger] filtered_pool(pool, guess, clue)[k]@,
            guess,
        ) == clue,
        forall|k: int|
            0 <= k < pool.len() && spec_compare(pool[k]@, guess) == clue ==> filtered_pool(
                pool,
                guess,
                clue,
            ).contains(#[trigger] pool[k]),
        forall|k: int|
            0 <= k < pool.len() && spec_compare(pool[k]@, guess) != clue ==> !filtered_pool(
                pool,
                guess,
                clue,
            ).contains(#[trigger] pool[k]),
{
    broadcast use vstd::seq_lib::group_filter_ensures;

    let pred = clue_pred(guess, clue);
    let f = filtered_pool(pool, guess, clue);
    assert forall|k: int| 0 <= k < f.len() implies spec_compare(
        #[trigger] f[k]@,
        guess,
    ) == clue by {
        assert(pred(pool.filter(pred)[k]));
    }
    assert forall|k: int|
        0 <= k < pool.len() && spec_compare(pool[k]@, guess) == clue implies f.contains(
        #[trigger] pool[k],
    ) by {
        assert(pred(pool[k]));
        assert(pool.filter(pred).contains(pool[k]));
    }
    assert forall|k: int|
        0 <= k < pool.len() && spec_compare(pool[k]@, guess) != clue implies !f.contains(
        #[trigger] pool[k],
    ) by {
        if f.contains(pool[k]) {
            let m = choose|m: int| 0 <= m < f.len() && f[m] == pool[k];
            assert(pred(pool.filter(pred)[m]));
        }
    }
}

} // verus!
