//! The puzzle data model: a puzzle, a named collection of puzzles, and
//! per-puzzle answer validation.

use vstd::prelude::*;
use vstd::string::*;

verus! {

/// Errors raised while loading or saving a puzzle collection.
#[derive(Debug)]
pub enum PuzzleError {
    /// The document does not match the expected shape.
    InvalidDefinition(String),
    /// The file could not be read or written.
    FileError(String),
}

impl PuzzleError {
    /// The human-readable text of this error.
    pub open spec fn message_spec(&self) -> Seq<char> {
        match self {
            PuzzleError::InvalidDefinition(s) => "Invalid puzzle definition: "@ + s@,
            PuzzleError::FileError(s) => "File error: "@ + s@,
        }
    }

    /// Renders the error as text, exactly as `message_spec` states.
    pub fn message(&self) -> (r: String)
        ensures
            r@ == self.message_spec(),
    {
        match self {
            PuzzleError::InvalidDefinition(s) => {
                String::from_str("Invalid puzzle definition: ").concat(s.as_str())
            },
            PuzzleError::FileError(s) => String::from_str("File error: ").concat(s.as_str()),
        }
    }
}

/// The outcome of validating one puzzle's answers: how many states were
/// answered correctly (`score`) out of how many states the puzzle has
/// (`max_possible_score`).
#[derive(Debug, Clone)]
pub struct PuzzleScore {
    pub puzzle_id: String,
    pub score: u64,
    pub max_possible_score: u64,
}

impl PuzzleScore {
    /// A score never exceeds the number of scoring opportunities.
    pub open spec fn wf(&self) -> bool {
        self.score <= self.max_possible_score
    }

    /// Full credit: every state of the puzzle was answered correctly.
    pub open spec fn is_full_credit(&self) -> bool {
        self.score == self.max_possible_score
    }
}

/// One scoring unit: an ordered sequence of game states, each with one
/// expected solution move. Immutable after load.
#[derive(Debug, Clone)]
pub struct Puzzle {
    pub id: String,
    pub description: String,
    pub game_states: Vec<String>,
    pub solutions: Vec<String>,
}

/// How many of the answers at indices below `upto` match the stored
/// solution at the same index, counting only indices below `n` (the number
/// of game states): extra answers are ignored, not penalized.
pub open spec fn match_count(
    answers: Seq<Seq<char>>,
    solutions: Seq<Seq<char>>,
    upto: int,
    n: int,
) -> int
    decreases upto,
{
    if upto <= 0 {
        0
    } else {
        match_count(answers, solutions, upto - 1, n) + if upto - 1 < n && answers[upto - 1]
            == solutions[upto - 1] {
            1int
        } else {
            0int
        }
    }
}

impl Puzzle {
    /// A puzzle pairs each game state with exactly one expected solution.
    pub open spec fn wf(&self) -> bool {
        self.game_states@.len() == self.solutions@.len()
    }

    /// The score awarded for a full sequence of answers: one point per
    /// state whose answer equals the stored solution.
    pub open spec fn score_spec(&self, answers: Seq<Seq<char>>) -> int {
        match_count(
            answers,
            self.solutions.deep_view(),
            answers.len() as int,
            self.game_states@.len() as int,
        )
    }

    /// Awards one point for each index `i` below the number of game states
    /// where `results[i]` equals the stored solution; answers beyond the
    /// puzzle's state count are ignored, and missing answers simply score
    /// nothing for their slot. `max_possible_score` is always the number of
    /// game states, however many answers were supplied. The caller is
    /// responsible for normalization: this function compares exactly.
    pub fn validate_solution(&self, results: &[String]) -> (r: PuzzleScore)
        requires
            self.wf(),
        ensures
            r.puzzle_id@ == self.id@,
            r.max_possible_score == self.game_states@.len(),
            r.score == self.score_spec(results.deep_view()),
            r.wf(),
    {
        let mut score: u64 = 0;
        let n = self.game_states.len();
        let len = results.len();
        let mut i: usize = 0;
        while i < len
            invariant
                self.wf(),
                len == results@.len(),
                n == self.game_states@.len(),
                i <= len,
                score <= i,
                score == match_count(
                    results.deep_view(),
                    self.solutions.deep_view(),
                    i as int,
                    n as int,
                ),
            decreases len - i,
        {
            if i < n && results[i] == self.solutions[i] {
                score = score + 1;
            }
            i = i + 1;
        }
        proof {
            lemma_match_count_bounds(
                results.deep_view(),
                self.solutions.deep_view(),
                len as int,
                n as int,
            );
        }
        PuzzleScore { puzzle_id: self.id.clone(), score, max_possible_score: n as u64 }
    }
}

/// The count of matches is non-negative and never exceeds `n`, nor `upto`.
proof fn lemma_match_count_bounds(
    answers: Seq<Seq<char>>,
    solutions: Seq<Seq<char>>,
    upto: int,
    n: int,
)
    requires
        0 <= n,
    ensures
        0 <= match_count(answers, solutions, upto, n),
        match_count(answers, solutions, upto, n) <= n,
        match_count(answers, solutions, upto, n) <= upto || upto < 0,
    decreases upto,
{
    if upto > 0 {
        lemma_match_count_bounds(answers, solutions, upto - 1, n);
    }
}

/// A sequence of answers identical to the solutions matches at every index.
proof fn lemma_match_count_echo(solutions: Seq<Seq<char>>, upto: int, n: int)
    requires
        0 <= upto <= n,
        n == solutions.len(),
    ensures
        match_count(solutions, solutions, upto, n) == upto,
    decreases upto,
{
    if upto > 0 {
        lemma_match_count_echo(solutions, upto - 1, n);
    }
}

/// Law: validating a puzzle against its own stored solutions awards full
/// marks, one point per game state.
pub proof fn lemma_perfect_echo_scores_full(p: &Puzzle)
    requires
        p.wf(),
    ensures
        p.score_spec(p.solutions.deep_view()) == p.game_states@.len(),
{
    lemma_match_count_echo(
        p.solutions.deep_view(),
        p.game_states@.len() as int,
        p.game_states@.len() as int,
    );
}

/// Law: for any answer sequence, the score lies between zero and the
/// puzzle's maximum possible score.
pub proof fn lemma_score_bounded(p: &Puzzle, answers: Seq<Seq<char>>)
    requires
        p.wf(),
    ensures
        0 <= p.score_spec(answers),
        p.score_spec(answers) <= p.game_states@.len(),
{
    lemma_match_count_bounds(
        answers,
        p.solutions.deep_view(),
        answers.len() as int,
        p.game_states@.len() as int,
    );
}

/// A named, homogeneous-game-type batch of puzzles plus the shared prompt
/// metadata (goal, rules). Loaded once; read-only for the rest of a run.
#[derive(Debug, Clone)]
pub struct PuzzleCollection {
    pub name: String,
    pub description: String,
    pub game_type: String,
    pub goal: String,
    pub game_rule: String,
    pub puzzles: Vec<Puzzle>,
}

impl PuzzleCollection {
    /// Every puzzle in the collection is well formed.
    pub open spec fn wf(&self) -> bool {
        forall|i: int| 0 <= i < self.puzzles@.len() ==> (#[trigger] self.puzzles@[i]).wf()
    }

    /// Returns references to all puzzles when the requested game type is
    /// the collection's own, and nothing otherwise: a collection holds a
    /// single game type.
    pub fn filter_by_game_type<'a>(&'a self, game_type: &str) -> (r: Vec<&'a Puzzle>)
        ensures
            self.game_type@ == game_type@ ==> r@.len() == self.puzzles@.len() && (forall|i: int|
                0 <= i < r@.len() ==> *#[trigger] r@[i] == self.puzzles@[i]),
            self.game_type@ != game_type@ ==> r@.len() == 0,
    {
        let mut r: Vec<&'a Puzzle> = Vec::new();
        let requested = String::from_str(game_type);
        if self.game_type == requested {
            let mut i: usize = 0;
            let len = self.puzzles.len();
            while i < len
                invariant
                    len == self.puzzles@.len(),
                    i <= len,
                    r@.len() == i,
                    forall|j: int| 0 <= j < i ==> *#[trigger] r@[j] == self.puzzles@[j],
                decreases len - i,
            {
                r.push(&self.puzzles[i]);
                i = i + 1;
            }
        }
        r
    }
}

} // verus!
