//! The orchestrator for multi-board play: several boards share each
//! submitted guess, but each receives its own clue and prunes its own
//! candidate pool.  A board whose clue comes back empty is taken as
//! already solved and skipped; a board whose pool empties is reported
//! unsolvable, and the other boards go on.

use vstd::prelude::*;
use crate::words::{valid_word, valid_clue};
use crate::game::{WordleGame, SolverError, filtered_pool, valid_word_list, word_in};

verus! {

/// Clones a word list entry by entry.
fn clone_words(ws: &Vec<String>) -> (r: Vec<String>)
    ensures
        r@ == ws@,
{
    let mut r: Vec<String> = Vec::new();
    let n = ws.len();
    for i in 0..n
        invariant
            n == ws@.len(),
            r@ == ws@.subrange(0, i as int),
    {
        r.push(ws[i].clone());
        proof {
            assert(r@ =~= ws@.subrange(0, i + 1 as int));
        }
    }
    proof {
        assert(ws@.subrange(0, n as int) =~= ws@);
    }
    r
}

/// What one round does to one board: an empty clue means the board is
/// already solved and is skipped; a bad guess or clue leaves the board
/// untouched and is reported; otherwise the pool keeps exactly the words
/// consistent with the clue, and a pool emptied by the clue reports the
/// board unsolvable.
pub open spec fn board_round(
    b0: WordleGame,
    b1: WordleGame,
    guess: Seq<char>,
    clue: Seq<char>,
    outcome: Option<SolverError>,
) -> bool {
    &&& b1.goals() == b0.goals()
    &&& if clue.len() == 0 {
        b1.pool() == b0.pool() && outcome is None
    } else if !valid_word(guess) {
        b1.pool() == b0.pool() && outcome == Some(SolverError::InvalidWord)
    } else if !valid_clue(clue) {
        b1.pool() == b0.pool() && outcome == Some(SolverError::InvalidClue)
    } else {
        &&& b1.pool() == filtered_pool(b0.pool(), guess, clue)
        &&& (b1.pool().len() == 0 ==> outcome == Some(SolverError::EmptyPool))
        &&& (b1.pool().len() > 0 ==> outcome is None)
    }
}

/// A multi-board session: every board consumes the same guess per round
/// but receives its own clue and keeps its own pool.
pub struct Quordle {
    boards: Vec<WordleGame>,
}

impl Quordle {
    /// The boards of the session, in order.
    pub closed spec fn boards_view(self) -> Seq<WordleGame> {
        self.boards@
    }

    /// Every board of the session is well formed.
    pub open spec fn wf(self) -> bool {
        forall|i: int|
            0 <= i < self.boards_view().len() ==> (#[trigger] self.boards_view()[i]).wf()
    }

    /// Opens a session of `n` boards, each starting from the full
    /// candidate pool built from the two dictionaries.
    pub fn new(n: usize, goal_words: &Vec<String>, more_words: &Vec<String>) -> (q: Self)
        requires
            valid_word_list(goal_words@),
            valid_word_list(more_words@),
        ensures
            q.wf(),
            q.boards_view().len() == n,
            forall|i: int| 0 <= i < n ==> (#[trigger] q.boards_view()[i]).goals() == goal_words@,
            forall|i: int, w: Seq<char>|
                0 <= i < n ==> (#[trigger] word_in(q.boards_view()[i].pool(), w) <==> word_in(
                    goal_words@ + more_words@,
                    w,
                )),
    {
        let mut boards: Vec<WordleGame> = Vec::new();
        for k in 0..n
            invariant
                valid_word_list(goal_words@),
                valid_word_list(more_words@),
                boards@.len() == k,
                forall|i: int| 0 <= i < k ==> (#[trigger] boards@[i]).wf(),
                forall|i: int| 0 <= i < k ==> (#[trigger] boards@[i]).goals() == goal_words@,
                forall|i: int, w: Seq<char>|
                    0 <= i < k ==> (#[trigger] word_in(boards@[i].pool(), w) <==> word_in(
                        goal_words@ + more_words@,
                        w,
                    )),
        {
            boards.push(WordleGame::new(clone_words(goal_words), clone_words(more_words)));
        }
        Quordle { boards }
    }

    /// How many boards the session holds.
    pub fn board_count(&self) -> (n: usize)
        ensures
            n == self.boards_view().len(),
    {
        self.boards.len()
    }

    /// The boards, in order, for scoring each one's pool.
    pub fn boards(&self) -> (r: &Vec<WordleGame>)
        ensures
            r@ == self.boards_view(),
    {
        &self.boards
    }

    /// Plays one round: each board takes the shared guess and its own
    /// clue (an empty clue skips the board as already solved), and the
    /// outcome for each board is reported in order.
    pub fn apply_clues(&mut self, guess: &str, clues: &Vec<String>) -> (outcomes: Vec<
        Option<SolverError>,
    >)
        requires
            old(self).wf(),
            clues@.len() == old(self).boards_view().len(),
        ensures
            final(self).wf(),
            final(self).boards_view().len() == old(self).boards_view().len(),
            outcomes@.len() == old(self).boards_view().len(),
            forall|i: int| 0 <= i < outcomes@.len() ==> board_round(
                old(self).boards_view()[i],
                final(self).boards_view()[i],
                guess@,
                clues@[i]@,
                #[trigger] outcomes@[i],
            ),
    {
        let n = self.boards.len();
        let ghost boards0 = self.boards@;
        let mut done: Vec<WordleGame> = Vec::new();
        let mut outcomes: Vec<Option<SolverError>> = Vec::new();
        for i in 0..n
            invariant
                n == boards0.len(),
                clues@.len() == n,
                self.boards@ == boards0.subrange(i as int, n as int),
                done@.len() == i,
                outcomes@.len() == i,
                forall|k: int| 0 <= k < i ==> (#[trigger] done@[k]).wf(),
                forall|k: int| 0 <= k < i ==> board_round(
                    boards0[k],
                    done@[k],
                    guess@,
                    clues@[k]@,
                    #[trigger] outcomes@[k],
                ),
                forall|k: int| 0 <= k < boards0.len() ==> (#[trigger] boards0[k]).wf(),
        {
            let mut b = self.boards.remove(0);
            proof {
                assert(boards0.subrange(i as int, n as int)[0] == boards0[i as int]);
                assert(self.boards@ =~= boards0.subrange(i + 1 as int, n as int));
            }
            if clues[i].as_str().is_empty() {
                outcomes.push(None);
            } else {
                match b.apply_clue(guess, clues[i].as_str()) {
                    Ok(_) => outcomes.push(None),
                    Err(e) => outcomes.push(Some(e)),
                }
            }
            done.push(b);
        }
        self.boards = done;
        outcomes
    }
}

} // verus!
