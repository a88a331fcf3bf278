//! A single board: a candidate pool of still-possible solution words,
//! pruned by the feedback received on each guess.
//!
//! The filter is definitional: a word stays in the pool exactly when the
//! feedback it would produce for the guess equals the clue that was
//! actually received.

use vstd::prelude::*;
use crate::words::{valid_word, valid_clue};
use crate::feedback::{spec_compare, compare_chars, clue_to_string};
use crate::words::{str_to_chars, is_valid_word, is_valid_clue};

verus! {

/// The error conditions the solver reports.
#[derive(Debug, Clone, Copy, PartialEq, Eq, Structural)]
pub enum SolverError {
    /// A word was not five lowercase ASCII letters.
    InvalidWord,
    /// A clue was not five symbols over space, `'Y'`, `'G'`.
    InvalidClue,
    /// Filtering left no candidate: the accumulated clues are mutually
    /// inconsistent, so the board cannot be solved.
    EmptyPool,
}

/// Every entry of the list is a valid puzzle word.
pub open spec fn valid_word_list(ws: Seq<String>) -> bool {
    forall|i: int| 0 <= i < ws.len() ==> valid_word(#[trigger] ws[i]@)
}

/// No two entries of the list spell the same word.
pub open spec fn distinct_words(ws: Seq<String>) -> bool {
    forall|i: int, j: int| 0 <= i < j < ws.len() ==> ws[i]@ != ws[j]@
}

/// The word `w` is spelled by some entry of the list.
pub open spec fn word_in(ws: Seq<String>, w: Seq<char>) -> bool {
    exists|i: int| 0 <= i < ws.len() && ws[i]@ == w
}

/// Appending an entry adds exactly its spelling to the membership.
pub proof fn lemma_word_in_push(ws: Seq<String>, x: String)
    ensures
        forall|w: Seq<char>| #![all_triggers] word_in(ws.push(x), w) <==> (word_in(ws, w) || x@
            == w),
{
    assert forall|w: Seq<char>| #![all_triggers] word_in(ws.push(x), w) <==> (word_in(ws, w)
        || x@ == w) by {
        if word_in(ws.push(x), w) {
            let i = choose|i: int| 0 <= i < ws.push(x).len() && ws.push(x)[i]@ == w;
            if i < ws.len() {
                assert(ws[i]@ == w);
            }
        }
        if word_in(ws, w) {
            let i = choose|i: int| 0 <= i < ws.len() && ws[i]@ == w;
            assert(ws.push(x)[i]@ == w);
        }
        if x@ == w {
            assert(ws.push(x)[ws.len() as int]@ == w);
        }
    }
}

/// Membership in a concatenation is membership in either part.
pub proof fn lemma_word_in_concat(a: Seq<String>, b: Seq<String>)
    ensures
        forall|w: Seq<char>| word_in(a + b, w) <==> (word_in(a, w) || word_in(b, w)),
{
    assert forall|w: Seq<char>| word_in(a + b, w) <==> (word_in(a, w) || word_in(b, w)) by {
        if word_in(a + b, w) {
            let i = choose|i: int| 0 <= i < (a + b).len() && (a + b)[i]@ == w;
            if i < a.len() {
                assert(a[i]@ == w);
            } else {
                assert(b[i - a.len()]@ == w);
            }
        }
        if word_in(a, w) {
            let i = choose|i: int| 0 <= i < a.len() && a[i]@ == w;
            assert((a + b)[i]@ == w);
        }
        if word_in(b, w) {
            let i = choose|i: int| 0 <= i < b.len() && b[i]@ == w;
            assert((a + b)[i + a.len()]@ == w);
        }
    }
}

/// The candidate word `w` is consistent with receiving `clue` for `guess`.
pub open spec fn matches_clue(w: String, guess: Seq<char>, clue: Seq<char>) -> bool {
    spec_compare(w@, guess) == clue
}

/// The consistency test for one guess/clue pair, as a predicate value.
pub open spec fn clue_pred(guess: Seq<char>, clue: Seq<char>) -> spec_fn(String) -> bool {
    |w: String| matches_clue(w, guess, clue)
}

/// The pool entries consistent with receiving `clue` for `guess`, in order.
pub open spec fn filtered_pool(pool: Seq<String>, guess: Seq<char>, clue: Seq<char>) -> Seq<
    String,
> {
    pool.filter(clue_pred(guess, clue))
}

/// The word `w` holds the character `c` somewhere.
pub open spec fn word_has_char(w: Seq<char>, c: char) -> bool {
    exists|i: int| 0 <= i < w.len() && w[i] == c
}

/// The word shares at least one letter with some word of `goals`.
pub open spec fn shares_letter(w: Seq<char>, goals: Seq<String>) -> bool {
    exists|i: int, j: int|
        0 <= i < w.len() && 0 <= j < goals.len() && word_has_char(#[trigger] goals[j]@, #[trigger] w[i])
}

/// The relevance test against a goal list, as a predicate value.
pub open spec fn relevant_pred(goals: Seq<String>) -> spec_fn(String) -> bool {
    |w: String| shares_letter(w@, goals)
}

/// Whether the word holds the character `c` somewhere.
fn has_char(s: &String, c: char) -> (r: bool)
    ensures
        r == word_has_char(s@, c),
{
    let chars = str_to_chars(s.as_str());
    let n = chars.len();
    for i in 0..n
        invariant
            n == chars@.len(),
            chars@ == s@,
            forall|j: int| 0 <= j < i ==> s@[j] != c,
    {
        if chars[i] == c {
            return true;
        }
    }
    false
}

/// Whether the word shares a letter with any word of `goals`.
fn shares_any(w: &String, goals: &Vec<String>) -> (r: bool)
    ensures
        r == shares_letter(w@, goals@),
{
    let chars = str_to_chars(w.as_str());
    let n = chars.len();
    for i in 0..n
        invariant
            n == chars@.len(),
            chars@ == w@,
            forall|ii: int, j: int|
                0 <= ii < i && 0 <= j < goals@.len() ==> !word_has_char(
                    #[trigger] goals@[j]@,
                    #[trigger] w@[ii],
                ),
    {
        let m = goals.len();
        for j in 0..m
            invariant
                m == goals@.len(),
                n == chars@.len(),
                chars@ == w@,
                i < n,
                forall|jj: int| 0 <= jj < j ==> !word_has_char(#[trigger] goals@[jj]@, w@[i as int]),
                forall|ii: int, jj: int|
                    0 <= ii < i && 0 <= jj < goals@.len() ==> !word_has_char(
                        #[trigger] goals@[jj]@,
                        #[trigger] w@[ii],
                    ),
        {
            if has_char(&goals[j], chars[i]) {
                return true;
            }
        }
    }
    false
}

/// Tests whether the list spells `w` somewhere.
fn contains_word(ws: &Vec<String>, w: &String) -> (r: bool)
    ensures
        r == word_in(ws@, w@),
{
    let n = ws.len();
    for i in 0..n
        invariant
            n == ws@.len(),
            forall|j: int| 0 <= j < i ==> ws@[j]@ != w@,
    {
        if ws[i] == *w {
            return true;
        }
    }
    false
}

/// One board of the puzzle: the solution dictionary and the candidate pool.
pub struct WordleGame {
    goal_words: Vec<String>,
    word_set: Vec<String>,
}

impl WordleGame {
    /// The solution dictionary, in its given order.
    pub closed spec fn goals(self) -> Seq<String> {
        self.goal_words@
    }

    /// The candidate pool: the words still consistent with every clue
    /// received so far.
    pub closed spec fn pool(self) -> Seq<String> {
        self.word_set@
    }

    /// Well-formedness: all words valid, pool entries pairwise distinct.
    pub open spec fn wf(self) -> bool {
        &&& valid_word_list(self.goals())
        &&& valid_word_list(self.pool())
        &&& distinct_words(self.pool())
    }

    /// Builds a board from the solution dictionary and the extended guess
    /// dictionary.  The starting pool is the union of the two lists with
    /// duplicates dropped; the solution dictionary is kept as given.
    pub fn new(goal_words: Vec<String>, more_words: Vec<String>) -> (game: Self)
        requires
            valid_word_list(goal_words@),
            valid_word_list(more_words@),
        ensures
            game.wf(),
            game.goals() == goal_words@,
            forall|w: Seq<char>| word_in(game.pool(), w) <==> word_in(
                goal_words@ + more_words@,
                w,
            ),
    {
        let mut pool: Vec<String> = Vec::new();
        let gn = goal_words.len();
        for i in 0..gn
            invariant
                gn == goal_words@.len(),
                valid_word_list(goal_words@),
                valid_word_list(pool@),
                distinct_words(pool@),
                forall|w: Seq<char>| word_in(pool@, w) <==> word_in(
                    goal_words@.subrange(0, i as int),
                    w,
                ),
        {
            let ghost prefix = goal_words@.subrange(0, i as int);
            let ghost before = pool@;
            let ghost x = goal_words@[i as int];
            let had = contains_word(&pool, &goal_words[i]);
            if !had {
                pool.push(goal_words[i].clone());
            }
            proof {
                assert(goal_words@.subrange(0, i + 1 as int) =~= prefix.push(x));
                lemma_word_in_push(prefix, x);
                lemma_word_in_push(before, x);
                assert forall|w: Seq<char>|
                    word_in(pool@, w) <==> word_in(prefix.push(x), w) by {
                    if had {
                        assert(pool@ == before);
                        assert(word_in(prefix.push(x), w) <==> (word_in(prefix, w) || x@ == w));
                        assert(word_in(before, x@));
                    } else {
                        assert(pool@ == before.push(x));
                        assert(word_in(before.push(x), w) <==> (word_in(before, w) || x@ == w));
                    }
                }
            }
        }
        proof {
            assert(goal_words@.subrange(0, gn as int) =~= goal_words@);
            assert(more_words@.subrange(0, 0) =~= Seq::<String>::empty());
        }
        let mn = more_words.len();
        for i in 0..mn
            invariant
                mn == more_words@.len(),
                valid_word_list(more_words@),
                valid_word_list(pool@),
                distinct_words(pool@),
                forall|w: Seq<char>| word_in(pool@, w) <==> (word_in(goal_words@, w) || word_in(
                    more_words@.subrange(0, i as int),
                    w,
                )),
        {
            let ghost prefix = more_words@.subrange(0, i as int);
            let ghost before = pool@;
            let ghost x = more_words@[i as int];
            let had = contains_word(&pool, &more_words[i]);
            if !had {
                pool.push(more_words[i].clone());
            }
            proof {
                assert(more_words@.subrange(0, i + 1 as int) =~= prefix.push(x));
                lemma_word_in_push(prefix, x);
                lemma_word_in_push(before, x);
                assert forall|w: Seq<char>|
                    word_in(pool@, w) <==> (word_in(goal_words@, w) || word_in(
                        prefix.push(x),
                        w,
                    )) by {
                    if had {
                        assert(pool@ == before);
                        assert(word_in(prefix.push(x), w) <==> (word_in(prefix, w) || x@ == w));
                        assert(word_in(before, x@));
                    } else {
                        assert(pool@ == before.push(x));
                        assert(word_in(before.push(x), w) <==> (word_in(before, w) || x@ == w));
                    }
                }
            }
        }
        proof {
            assert(more_words@.subrange(0, mn as int) =~= more_words@);
            lemma_word_in_concat(goal_words@, more_words@);
        }
        WordleGame { goal_words, word_set: pool }
    }

    /// The words that may be the goal: the solution dictionary.
    pub fn get_goal_words(&self) -> (r: &Vec<String>)
        ensures
            r@ == self.goals(),
    {
        &self.goal_words
    }

    /// The guess words worth considering against a goal list: those that
    /// share at least one letter with some goal word, in their given order.
    pub fn get_relevant_words(guess_set: &Vec<String>, goal_set: &Vec<String>) -> (relevant: Vec<
        String,
    >)
        ensures
            relevant@ == guess_set@.filter(relevant_pred(goal_set@)),
    {
        let mut relevant: Vec<String> = Vec::new();
        let n = guess_set.len();
        for i in 0..n
            invariant
                n == guess_set@.len(),
                relevant@ == guess_set@.subrange(0, i as int).filter(relevant_pred(goal_set@)),
        {
            let ghost prefix = guess_set@.subrange(0, i as int);
            if shares_any(&guess_set[i], goal_set) {
                relevant.push(guess_set[i].clone());
            }
            proof {
                lemma_filter_push(prefix, guess_set@[i as int], relevant_pred(goal_set@));
                assert(guess_set@.subrange(0, i + 1 as int) =~= prefix.push(
                    guess_set@[i as int],
                ));
            }
        }
        proof {
            assert(guess_set@.subrange(0, n as int) =~= guess_set@);
        }
        relevant
    }

    /// How many candidates are still possible on this board.
    pub fn pool_len(&self) -> (n: usize)
        ensures
            n == self.pool().len(),
    {
        self.word_set.len()
    }

    /// The candidate pool, in its current order.
    pub fn pool_words(&self) -> (r: &Vec<String>)
        ensures
            r@ == self.pool(),
    {
        &self.word_set
    }

    /// Whether the pool still holds the word `w`.
    pub fn pool_contains(&self, w: &String) -> (r: bool)
        ensures
            r == word_in(self.pool(), w@),
    {
        contains_word(&self.word_set, w)
    }

    /// Whether the board is down to its unique answer.
    pub fn is_solved(&self) -> (r: bool)
        ensures
            r == (self.pool().len() == 1),
    {
        self.word_set.len() == 1
    }

    /// Compares a guess against the goal word and returns the feedback
    /// code: `'G'` right letter in the right place, `'Y'` right letter in
    /// the wrong place, `' '` letter not attributable to the goal.
    pub fn compare_words(goal: &str, guess: &str) -> (r: String)
        requires
            valid_word(goal@),
            valid_word(guess@),
        ensures
            r@ == spec_compare(goal@, guess@),
            valid_clue(r@),
    {
        let goal_chars = str_to_chars(goal);
        let guess_chars = str_to_chars(guess);
        let marks = compare_chars(&goal_chars, &guess_chars);
        clue_to_string(&marks)
    }

    /// `compare_words` behind input validation: rejects any input that is
    /// not a five-letter lowercase word.
    pub fn try_compare_words(goal: &str, guess: &str) -> (r: Result<String, SolverError>)
        ensures
            match r {
                Ok(s) => valid_word(goal@) && valid_word(guess@) && s@ == spec_compare(
                    goal@,
                    guess@,
                ),
                Err(e) => e == SolverError::InvalidWord && !(valid_word(goal@) && valid_word(
                    guess@,
                )),
            },
    {
        if !is_valid_word(goal) || !is_valid_word(guess) {
            return Err(SolverError::InvalidWord);
        }
        Ok(Self::compare_words(goal, guess))
    }

    /// Removes from the pool every word inconsistent with receiving `clue`
    /// for `guess`: a word stays exactly when the feedback it would produce
    /// equals `clue`.
    pub fn remove(&mut self, guess: &str, clue: &str)
        requires
            old(self).wf(),
            valid_word(guess@),
            valid_clue(clue@),
        ensures
            final(self).wf(),
            final(self).goals() == old(self).goals(),
            final(self).pool() == filtered_pool(old(self).pool(), guess@, clue@),
    {
        let guess_chars = str_to_chars(guess);
        let clue_chars = str_to_chars(clue);
        let ghost pool0 = self.word_set@;
        let mut kept: Vec<String> = Vec::new();
        let n = self.word_set.len();
        for i in 0..n
            invariant
                n == pool0.len(),
                self.word_set@ == pool0,
                guess_chars@ == guess@,
                clue_chars@ == clue@,
                valid_word(guess@),
                valid_word_list(pool0),
                kept@ == filtered_pool(pool0.subrange(0, i as int), guess@, clue@),
        {
            let ghost prefix = pool0.subrange(0, i as int);
            let w_chars = str_to_chars(self.word_set[i].as_str());
            let marks = compare_chars(&w_chars, &guess_chars);
            let keep = chars_eq(&marks, &clue_chars);
            if keep {
                kept.push(self.word_set[i].clone());
            }
            proof {
                assert(keep == matches_clue(pool0[i as int], guess@, clue@));
                lemma_filter_push(prefix, pool0[i as int], clue_pred(guess@, clue@));
                assert(pool0.subrange(0, i + 1 as int) =~= prefix.push(pool0[i as int]));
            }
        }
        proof {
            assert(pool0.subrange(0, n as int) =~= pool0);
            lemma_filter_valid_words(pool0, clue_pred(guess@, clue@));
            lemma_filter_distinct(pool0, clue_pred(guess@, clue@));
        }
        self.word_set = kept;
    }

    /// `remove` behind input validation.  Reports `InvalidWord` for a bad
    /// guess and `InvalidClue` for a bad clue, leaving the pool untouched;
    /// otherwise filters the pool and returns its new size, or `EmptyPool`
    /// when nothing is left and the board cannot be solved.
    pub fn apply_clue(&mut self, guess: &str, clue: &str) -> (r: Result<usize, SolverError>)
        requires
            old(self).wf(),
        ensures
            final(self).wf(),
            final(self).goals() == old(self).goals(),
            !valid_word(guess@) ==> r == Err::<usize, SolverError>(SolverError::InvalidWord)
                && final(self).pool() == old(self).pool(),
            valid_word(guess@) && !valid_clue(clue@) ==> r == Err::<usize, SolverError>(
                SolverError::InvalidClue,
            ) && final(self).pool() == old(self).pool(),
            valid_word(guess@) && valid_clue(clue@) ==> {
                &&& final(self).pool() == filtered_pool(old(self).pool(), guess@, clue@)
                &&& final(self).pool().len() == 0 ==> r == Err::<usize, SolverError>(
                    SolverError::EmptyPool,
                )
                &&& final(self).pool().len() > 0 ==> r == Ok::<usize, SolverError>(
                    final(self).pool().len() as usize,
                )
            },
    {
        if !is_valid_word(guess) {
            return Err(SolverError::InvalidWord);
        }
        if !is_valid_clue(clue) {
            return Err(SolverError::InvalidClue);
        }
        self.remove(guess, clue);
        let n = self.word_set.len();
        if n == 0 {
            Err(SolverError::EmptyPool)
        } else {
            Ok(n)
        }
    }
}

/// Elementwise equality of two character vectors.
fn chars_eq(a: &Vec<char>, b: &Vec<char>) -> (r: bool)
    ensures
        r == (a@ == b@),
{
    if a.len() != b.len() {
        return false;
    }
    let n = a.len();
    for i in 0..n
        invariant
            n == a@.len(),
            a@.len() == b@.len(),
            forall|j: int| 0 <= j < i ==> a@[j] == b@[j],
    {
        if a[i] != b[i] {
            return false;
        }
    }
    proof {
        assert(a@ =~= b@);
    }
    true
}

/// Filtering a sequence extended by one element keeps the element exactly
/// when the predicate holds of it.
pub proof fn lemma_filter_push<A>(s: Seq<A>, x: A, pred: spec_fn(A) -> bool)
    ensures
        s.push(x).filter(pred) == if pred(x) {
            s.filter(pred).push(x)
        } else {
            s.filter(pred)
        },
{
    reveal(Seq::filter);
    assert(s.push(x).drop_last() =~= s);
    assert(s.push(x).last() == x);
}

/// Every entry of a filtered sequence is an entry of the sequence it
/// was filtered from.
pub proof fn lemma_filter_elements<A>(s: Seq<A>, pred: spec_fn(A) -> bool)
    ensures
        forall|k: int| 0 <= k < s.filter(pred).len() ==> exists|j: int|
            0 <= j < s.len() && #[trigger] s.filter(pred)[k] == s[j],
    decreases s.len(),
{
    reveal(Seq::filter);
    if s.len() > 0 {
        let sd = s.drop_last();
        lemma_filter_elements(sd, pred);
        let f = s.filter(pred);
        let fd = sd.filter(pred);
        assert forall|k: int| 0 <= k < f.len() implies exists|j: int|
            0 <= j < s.len() && #[trigger] f[k] == s[j] by {
            if pred(s.last()) {
                assert(f == fd.push(s.last()));
                if k < fd.len() {
                    assert(f[k] == fd[k]);
                    let j = choose|j: int| 0 <= j < sd.len() && fd[k] == sd[j];
                    assert(f[k] == s[j]);
                } else {
                    assert(f[k] == s[s.len() - 1]);
                }
            } else {
                assert(f == fd);
                let j = choose|j: int| 0 <= j < sd.len() && fd[k] == sd[j];
                assert(f[k] == s[j]);
            }
        }
    }
}

/// Filtering keeps every entry a valid word.
pub proof fn lemma_filter_valid_words(s: Seq<String>, pred: spec_fn(String) -> bool)
    requires
        valid_word_list(s),
    ensures
        valid_word_list(s.filter(pred)),
{
    lemma_filter_elements(s, pred);
    let f = s.filter(pred);
    assert forall|k: int| 0 <= k < f.len() implies valid_word(#[trigger] f[k]@) by {
        let j = choose|j: int| 0 <= j < s.len() && f[k] == s[j];
        assert(valid_word(s[j]@));
    }
}

/// Filtering keeps the entries pairwise distinct.
pub proof fn lemma_filter_distinct(s: Seq<String>, pred: spec_fn(String) -> bool)
    requires
        distinct_words(s),
    ensures
        distinct_words(s.filter(pred)),
    decreases s.len(),
{
    reveal(Seq::filter);
    if s.len() > 0 {
        let sd = s.drop_last();
        assert(distinct_words(sd));
        lemma_filter_distinct(sd, pred);
        lemma_filter_elements(sd, pred);
        let f = s.filter(pred);
        let fd = sd.filter(pred);
        if pred(s.last()) {
            assert(f == fd.push(s.last()));
            assert forall|i: int, j: int| 0 <= i < j < f.len() implies f[i]@ != f[j]@ by {
                if j < fd.len() {
                    assert(f[i] == fd[i] && f[j] == fd[j]);
                } else {
                    assert(f[i] == fd[i]);
                    let m = choose|m: int| 0 <= m < sd.len() && fd[i] == sd[m];
                    assert(s[m]@ != s[s.len() - 1]@);
                }
            }
        } else {
            assert(f == fd);
        }
    }
}

} // verus!
