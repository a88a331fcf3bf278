//! The feedback engine: comparing a guess against a goal word.
//!
//! `spec_compare` is the mathematical definition of the feedback code, a
//! two-pass derivation that handles repeated letters: the first pass claims
//! exact matches and erases the claimed goal letters, the second pass scans
//! the remaining goal letters left to right and claims the first unclaimed
//! occurrence of each guess letter.  Each goal letter is claimed at most
//! once, so the `'G'`/`'Y'` marks attributed to a letter never exceed its
//! occurrence count in the goal word.

use vstd::prelude::*;
use vstd::string::StringExecFns;
use crate::words::{valid_word, valid_clue, clue_symbol};

verus! {

/// The index of the first occurrence of `c` in `work`, or -1 when absent.
pub open spec fn first_match(work: Seq<char>, c: char) -> int
    decreases work.len(),
{
    if work.len() == 0 {
        -1
    } else if work[0] == c {
        0
    } else {
        let r = first_match(work.drop_first(), c);
        if r < 0 {
            -1
        } else {
            r + 1
        }
    }
}

/// `first_match` finds the first occurrence when one exists and -1 otherwise.
pub proof fn lemma_first_match(work: Seq<char>, c: char)
    ensures
        first_match(work, c) == -1 || (0 <= first_match(work, c) < work.len()
            && work[first_match(work, c)] == c),
        first_match(work, c) == -1 ==> forall|j: int| 0 <= j < work.len() ==> work[j] != c,
        first_match(work, c) >= 0 ==> forall|j: int| 0 <= j < first_match(work, c)
            ==> work[j] != c,
    decreases work.len(),
{
    if work.len() > 0 && work[0] != c {
        lemma_first_match(work.drop_first(), c);
        assert(forall|j: int| 1 <= j < work.len() ==> work[j] == work.drop_first()[j - 1]);
    }
}

/// The marks after the first pass: `'G'` wherever guess and goal agree.
pub open spec fn exact_marks(goal: Seq<char>, guess: Seq<char>) -> Seq<char> {
    Seq::new(goal.len(), |i: int| if goal[i] == guess[i] { 'G' } else { ' ' })
}

/// The goal letters still unclaimed after the first pass; claimed
/// positions are erased to `' '` so they cannot be claimed again.
pub open spec fn exact_work(goal: Seq<char>, guess: Seq<char>) -> Seq<char> {
    Seq::new(goal.len(), |i: int| if goal[i] == guess[i] { ' ' } else { goal[i] })
}

/// The second pass from position `i` on: each still-blank mark claims the
/// first unclaimed goal occurrence of its guess letter, if any, as `'Y'`.
/// Returns the final marks together with the remaining unclaimed letters.
pub open spec fn pass2(marks: Seq<char>, work: Seq<char>, guess: Seq<char>, i: nat) -> (Seq<
    char,
>, Seq<char>)
    decreases guess.len() - i,
{
    if i >= guess.len() {
        (marks, work)
    } else {
        let j = first_match(work, guess[i as int]);
        if marks[i as int] == ' ' && j >= 0 {
            pass2(marks.update(i as int, 'Y'), work.update(j, ' '), guess, i + 1)
        } else {
            pass2(marks, work, guess, i + 1)
        }
    }
}

/// The feedback code for `guess` tried against the hidden word `goal`.
pub open spec fn spec_compare(goal: Seq<char>, guess: Seq<char>) -> Seq<char> {
    pass2(exact_marks(goal, guess), exact_work(goal, guess), guess, 0).0
}

/// Finds the first index of `c` in `work`, scanning left to right.
fn find_first(work: &Vec<char>, c: char) -> (r: Option<usize>)
    ensures
        match r {
            Some(j) => j < work@.len() && work@[j as int] == c && (forall|m: int|
                0 <= m < j ==> work@[m] != c),
            None => forall|m: int| 0 <= m < work@.len() ==> work@[m] != c,
        },
{
    let mut j: usize = 0;
    while j < work.len()
        invariant
            j <= work@.len(),
            forall|m: int| 0 <= m < j ==> work@[m] != c,
        decreases work@.len() - j,
    {
        if work[j] == c {
            return Some(j);
        }
        j = j + 1;
    }
    None
}

/// Computes the feedback code of `guess` against `goal` as a character
/// vector, following the two-pass derivation exactly.
pub fn compare_chars(goal: &Vec<char>, guess: &Vec<char>) -> (marks: Vec<char>)
    requires
        valid_word(goal@),
        valid_word(guess@),
    ensures
        marks@ == spec_compare(goal@, guess@),
        valid_clue(marks@),
{
    let mut marks: Vec<char> = Vec::new();
    let mut work: Vec<char> = Vec::new();
    for i in 0..5usize
        invariant
            goal@.len() == 5,
            guess@.len() == 5,
            marks@.len() == i,
            work@.len() == i,
            forall|k: int| 0 <= k < i ==> marks@[k] == exact_marks(goal@, guess@)[k],
            forall|k: int| 0 <= k < i ==> work@[k] == exact_work(goal@, guess@)[k],
    {
        if goal[i] == guess[i] {
            marks.push('G');
            work.push(' ');
        } else {
            marks.push(' ');
            work.push(goal[i]);
        }
    }
    proof {
        assert(marks@ =~= exact_marks(goal@, guess@));
        assert(work@ =~= exact_work(goal@, guess@));
    }
    let ghost marks0 = marks@;
    let ghost work0 = work@;
    for i in 0..5usize
        invariant
            guess@.len() == 5,
            marks@.len() == 5,
            work@.len() == 5,
            pass2(marks0, work0, guess@, 0) == pass2(marks@, work@, guess@, i as nat),
            forall|k: int| 0 <= k < 5 ==> clue_symbol(#[trigger] marks@[k]),
    {
        let ghost marks_at = marks@;
        let ghost work_at = work@;
        if marks[i] == ' ' {
            let c = guess[i];
            match find_first(&work, c) {
                Some(j) => {
                    proof {
                        lemma_first_match(work@, c);
                        assert(first_match(work@, c) == j as int);
                    }
                    marks.set(i, 'Y');
                    work.set(j, ' ');
                    proof {
                        assert(marks@ == marks_at.update(i as int, 'Y'));
                        assert(work@ == work_at.update(j as int, ' '));
                        assert(pass2(marks_at, work_at, guess@, i as nat) == pass2(
                            marks@,
                            work@,
                            guess@,
                            (i + 1) as nat,
                        ));
                    }
                },
                None => {
                    proof {
                        lemma_first_match(work@, c);
                        assert(first_match(work@, c) == -1);
                        assert(pass2(marks_at, work_at, guess@, i as nat) == pass2(
                            marks@,
                            work@,
                            guess@,
                            (i + 1) as nat,
                        ));
                    }
                },
            }
        } else {
            proof {
                assert(pass2(marks_at, work_at, guess@, i as nat) == pass2(
                    marks@,
                    work@,
                    guess@,
                    (i + 1) as nat,
                ));
            }
        }
    }
    proof {
        assert(pass2(marks@, work@, guess@, 5nat) == (marks@, work@));
        assert(marks@ == spec_compare(goal@, guess@));
    }
    marks
}

/// Renders a feedback code as its five-character string form.
pub fn clue_to_string(marks: &Vec<char>) -> (r: String)
    requires
        forall|k: int| 0 <= k < marks@.len() ==> clue_symbol(#[trigger] marks@[k]),
    ensures
        r@ == marks@,
{
    let mut r = String::new();
    let n = marks.len();
    for i in 0..n
        invariant
            n == marks@.len(),
            forall|k: int| 0 <= k < marks@.len() ==> clue_symbol(#[trigger] marks@[k]),
            r@ == marks@.subrange(0, i as int),
    {
        let c = marks[i];
        if c == 'G' {
            proof {
                reveal_strlit("G");
            }
            r.append("G");
        } else if c == 'Y' {
            proof {
                reveal_strlit("Y");
            }
            r.append("Y");
        } else {
            proof {
                reveal_strlit(" ");
            }
            r.append(" ");
        }
        proof {
            assert(r@ =~= marks@.subrange(0, i + 1 as int));
        }
    }
    proof {
        assert(r@ =~= marks@);
    }
    r
}

} // verus!
