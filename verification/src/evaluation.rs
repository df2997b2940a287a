//! The benchmark runner: scoring a whole collection, aggregating per-puzzle
//! scores into overall and per-game-type statistics, and the pass@1 /
//! pass@N metrics for repeated passes.
//!
//! The runner owns the puzzle collection, read-only, for the run's
//! lifetime. Solving (the network exchanges) happens outside the library;
//! the per-state answers are handed in as plain values and everything from
//! there to the final report is verified.

use vstd::arithmetic::div_mod::{lemma_div_is_ordered, lemma_div_multiples_vanish};
use vstd::prelude::*;
use vstd::seq_lib::group_to_multiset_ensures;
use vstd::string::*;

use crate::puzzle::{Puzzle, PuzzleCollection, PuzzleScore};

verus! {

/// The sum of `f` over the elements of `s`.
pub open spec fn sum_by<A>(s: Seq<A>, f: spec_fn(A) -> int) -> int
    decreases s.len(),
{
    if s.len() == 0 {
        0
    } else {
        sum_by(s.drop_last(), f) + f(s.last())
    }
}

/// The score a puzzle earned.
pub open spec fn score_weight() -> spec_fn(PuzzleScore) -> int {
    |p: PuzzleScore| p.score as int
}

/// The score a puzzle could have earned.
pub open spec fn max_weight() -> spec_fn(PuzzleScore) -> int {
    |p: PuzzleScore| p.max_possible_score as int
}

/// How many game states a puzzle has.
pub open spec fn states_weight() -> spec_fn(Puzzle) -> int {
    |p: Puzzle| p.game_states@.len() as int
}

/// The total score earned across a sequence of puzzle scores.
pub open spec fn total_score_of(s: Seq<PuzzleScore>) -> int {
    sum_by(s, score_weight())
}

/// The total score obtainable across a sequence of puzzle scores.
pub open spec fn total_max_of(s: Seq<PuzzleScore>) -> int {
    sum_by(s, max_weight())
}

/// The total number of game states across a sequence of puzzles: the
/// maximum score the collection can award.
pub open spec fn total_states_of(s: Seq<Puzzle>) -> int {
    sum_by(s, states_weight())
}

/// Summing a prefix one element longer adds that element's weight.
proof fn lemma_sum_by_prefix_step<A>(s: Seq<A>, f: spec_fn(A) -> int, i: int)
    requires
        0 <= i < s.len(),
    ensures
        sum_by(s.subrange(0, i + 1), f) == sum_by(s.subrange(0, i), f) + f(s[i]),
{
    assert(s.subrange(0, i + 1).drop_last() =~= s.subrange(0, i));
    assert(s.subrange(0, i + 1).last() == s[i]);
}

/// A sum splits at any cut point.
proof fn lemma_sum_by_split<A>(s: Seq<A>, f: spec_fn(A) -> int, i: int)
    requires
        0 <= i <= s.len(),
    ensures
        sum_by(s, f) == sum_by(s.subrange(0, i), f) + sum_by(s.subrange(i, s.len() as int), f),
    decreases s.len(),
{
    if i == s.len() {
        assert(s.subrange(0, i) =~= s);
        assert(s.subrange(i, s.len() as int) =~= Seq::<A>::empty());
    } else {
        lemma_sum_by_split(s.drop_last(), f, i);
        assert(s.drop_last().subrange(0, i) =~= s.subrange(0, i));
        assert(s.subrange(i, s.len() as int).drop_last() =~= s.drop_last().subrange(
            i,
            s.len() - 1,
        ));
        assert(s.subrange(i, s.len() as int).last() == s.last());
    }
}

/// A sum of non-negative weights is non-negative.
proof fn lemma_sum_by_nonneg<A>(s: Seq<A>, f: spec_fn(A) -> int)
    requires
        forall|k: int| 0 <= k < s.len() ==> f(#[trigger] s[k]) >= 0,
    ensures
        sum_by(s, f) >= 0,
    decreases s.len(),
{
    if s.len() > 0 {
        lemma_sum_by_nonneg(s.drop_last(), f);
    }
}

/// Pointwise smaller weights sum to a smaller total.
proof fn lemma_sum_by_pointwise_le<A>(s: Seq<A>, f: spec_fn(A) -> int, g: spec_fn(A) -> int)
    requires
        forall|k: int| 0 <= k < s.len() ==> f(#[trigger] s[k]) <= g(s[k]),
    ensures
        sum_by(s, f) <= sum_by(s, g),
    decreases s.len(),
{
    if s.len() > 0 {
        lemma_sum_by_pointwise_le(s.drop_last(), f, g);
    }
}

/// Two sequences whose elements carry equal weights pointwise have equal
/// sums.
proof fn lemma_sum_by_pointwise_eq<A, B>(
    s: Seq<A>,
    t: Seq<B>,
    f: spec_fn(A) -> int,
    g: spec_fn(B) -> int,
)
    requires
        s.len() == t.len(),
        forall|k: int| 0 <= k < s.len() ==> f(#[trigger] s[k]) == g(t[k]),
    ensures
        sum_by(s, f) == sum_by(t, g),
    decreases s.len(),
{
    if s.len() > 0 {
        lemma_sum_by_pointwise_eq(s.drop_last(), t.drop_last(), f, g);
    }
}

/// Removing one element removes exactly its weight from the sum.
proof fn lemma_sum_by_remove<A>(s: Seq<A>, f: spec_fn(A) -> int, j: int)
    requires
        0 <= j < s.len(),
    ensures
        sum_by(s.remove(j), f) == sum_by(s, f) - f(s[j]),
    decreases s.len(),
{
    if j == s.len() - 1 {
        assert(s.remove(j) =~= s.drop_last());
    } else {
        assert(s.remove(j).drop_last() =~= s.drop_last().remove(j));
        lemma_sum_by_remove(s.drop_last(), f, j);
        assert(s.remove(j).last() == s.last());
    }
}

/// A sum depends only on the multiset of elements, not on their order.
proof fn lemma_sum_by_permutation<A>(s1: Seq<A>, s2: Seq<A>, f: spec_fn(A) -> int)
    requires
        s1.to_multiset() == s2.to_multiset(),
    ensures
        sum_by(s1, f) == sum_by(s2, f),
    decreases s1.len(),
{
    broadcast use group_to_multiset_ensures;

    assert(s1.to_multiset().len() == s1.len());
    assert(s2.to_multiset().len() == s2.len());
    if s1.len() == 0 {
        assert(s2.len() == 0);
    } else {
        let x = s1.last();
        assert(s1.contains(x));
        assert(s2.to_multiset().count(x) > 0);
        assert(s2.contains(x));
        let j = choose|j: int| 0 <= j < s2.len() && s2[j] == x;
        assert(s1 =~= s1.drop_last().push(x));
        assert(s1.drop_last().push(x).to_multiset() == s1.drop_last().to_multiset().insert(x));
        assert(s2.remove(j).to_multiset() == s2.to_multiset().remove(x));
        assert(s1.drop_last().to_multiset() =~= s2.remove(j).to_multiset());
        lemma_sum_by_permutation(s1.drop_last(), s2.remove(j), f);
        lemma_sum_by_remove(s2, f, j);
    }
}

/// Law: aggregation is order-independent. Two orderings of the same
/// multiset of per-puzzle scores — for instance the source order and the
/// order in which concurrent workers completed — have the same length, the
/// same total score and the same total obtainable score, and therefore the
/// same average.
pub proof fn lemma_aggregation_order_independent(s1: Seq<PuzzleScore>, s2: Seq<PuzzleScore>)
    requires
        s1.to_multiset() == s2.to_multiset(),
    ensures
        s1.len() == s2.len(),
        total_score_of(s1) == total_score_of(s2),
        total_max_of(s1) == total_max_of(s2),
{
    broadcast use group_to_multiset_ensures;

    assert(s1.to_multiset().len() == s1.len());
    assert(s2.to_multiset().len() == s2.len());
    lemma_sum_by_permutation(s1, s2, score_weight());
    lemma_sum_by_permutation(s1, s2, max_weight());
}

/// Every score in the sequence is well formed.
pub open spec fn all_scores_wf(s: Seq<PuzzleScore>) -> bool {
    forall|k: int| 0 <= k < s.len() ==> (#[trigger] s[k]).wf()
}

/// A prefix of the scores sums to no more than the whole.
proof fn lemma_total_max_prefix_le(s: Seq<PuzzleScore>, i: int)
    requires
        0 <= i <= s.len(),
    ensures
        total_max_of(s.subrange(0, i)) <= total_max_of(s),
{
    lemma_sum_by_split(s, max_weight(), i);
    lemma_sum_by_nonneg(s.subrange(i, s.len() as int), max_weight());
}

/// The average score as a fraction of the obtainable score, in
/// thousandths, truncated. Zero when nothing was obtainable, so an empty
/// collection never divides by zero.
pub fn average_permille(total: u64, max: u64) -> (r: u64)
    requires
        total <= max,
    ensures
        max == 0 ==> r == 0,
        max > 0 ==> r as int == total as int * 1000 / max as int,
        r <= 1000,
{
    if max == 0 {
        0
    } else {
        let wide: u128 = (total as u128) * 1000 / (max as u128);
        proof {
            lemma_div_is_ordered(total * 1000, max * 1000, max as int);
            lemma_div_multiples_vanish(1000, max as int);
            assert((max as int) * 1000 == 1000 * (max as int)) by {
                vstd::arithmetic::mul::lemma_mul_is_commutative(max as int, 1000);
            }
        }
        wide as u64
    }
}

/// One bucket of the per-game-type breakdown: how many puzzles of that game
/// type were run and their average score in thousandths.
#[derive(Debug, Clone)]
pub struct GameTypeScore {
    pub game_type: String,
    pub count: usize,
    pub average_score_permille: u64,
}

/// The pass@1 / pass@N metrics of a multi-pass run, over full-credit
/// puzzle solves: how many puzzles were solved completely on the first
/// pass, and on at least one pass, out of how many, with each fraction also
/// given in thousandths.
#[derive(Debug, Clone)]
pub struct PassResults {
    pub pass_at_1_count: u64,
    pub pass_at_n_count: u64,
    pub total_puzzles: u64,
    pub pass_at_1_permille: u64,
    pub pass_at_n_permille: u64,
}

/// The aggregated outcome of one benchmark run. Created once per run and
/// never mutated afterwards.
#[derive(Debug, Clone)]
pub struct BenchmarkResult {
    pub benchmark_name: String,
    pub solver_name: String,
    pub solver_description: String,
    pub total_puzzles: usize,
    pub total_score: u64,
    pub max_possible_score: u64,
    pub average_score_permille: u64,
    pub puzzle_scores: Vec<PuzzleScore>,
    pub game_type_breakdown: Vec<GameTypeScore>,
    pub pass_results: Option<PassResults>,
    pub timestamp: String,
}

/// The name a run is reported under.
pub open spec fn benchmark_name_spec(solver: Seq<char>, collection: Seq<char>, parallel: bool) -> Seq<
    char,
> {
    if parallel {
        solver + " on "@ + collection + " (parallel)"@
    } else {
        solver + " on "@ + collection
    }
}

/// The average in thousandths that a total of `total` out of `max` yields.
pub open spec fn average_permille_spec(total: int, max: int) -> int {
    if max == 0 {
        0
    } else {
        total * 1000 / max
    }
}

/// Relies on chrono's `Utc::now` and `DateTime::to_rfc3339`: the current
/// UTC time rendered as an RFC 3339 / ISO 8601 timestamp. The result
/// depends on the clock, so nothing is assumed about it.
#[verifier::external_body]
fn now_rfc3339() -> String {
    chrono::Utc::now().to_rfc3339()
}

/// The scores table of one pass, as mathematical sequences.
pub open spec fn passes_view(per_pass: Seq<Vec<PuzzleScore>>) -> Seq<Seq<PuzzleScore>> {
    per_pass.map_values(|v: Vec<PuzzleScore>| v@)
}

/// Puzzle `j` earned full credit in pass `i`.
pub open spec fn full_at(pv: Seq<Seq<PuzzleScore>>, i: int, j: int) -> bool {
    pv[i][j].is_full_credit()
}

/// Puzzle `j` earned full credit in at least one pass.
pub open spec fn solved_in_any_pass(pv: Seq<Seq<PuzzleScore>>, j: int) -> bool {
    exists|i: int| 0 <= i < pv.len() && #[trigger] full_at(pv, i, j)
}

/// How many of the first `upto` puzzles earned full credit on the first
/// pass.
pub open spec fn pass1_count(pv: Seq<Seq<PuzzleScore>>, upto: int) -> int
    decreases upto,
{
    if upto <= 0 {
        0
    } else {
        pass1_count(pv, upto - 1) + if full_at(pv, 0, upto - 1) {
            1int
        } else {
            0int
        }
    }
}

/// How many of the first `upto` puzzles earned full credit in at least one
/// pass.
pub open spec fn passn_count(pv: Seq<Seq<PuzzleScore>>, upto: int) -> int
    decreases upto,
{
    if upto <= 0 {
        0
    } else {
        passn_count(pv, upto - 1) + if solved_in_any_pass(pv, upto - 1) {
            1int
        } else {
            0int
        }
    }
}

/// Pass counts lie between zero and the number of puzzles counted.
proof fn lemma_pass_counts_bounded(pv: Seq<Seq<PuzzleScore>>, upto: int)
    requires
        0 <= upto,
    ensures
        0 <= pass1_count(pv, upto) <= upto,
        0 <= passn_count(pv, upto) <= upto,
    decreases upto,
{
    if upto > 0 {
        lemma_pass_counts_bounded(pv, upto - 1);
    }
}

/// The pairs assign one score to every source position below `n`, each
/// position exactly once.
pub open spec fn valid_index_assignment(pairs: Seq<(usize, PuzzleScore)>, n: int) -> bool {
    &&& pairs.len() == n
    &&& forall|k: int| 0 <= k < pairs.len() ==> ((#[trigger] pairs[k]).0 as int) < n
    &&& forall|k1: int, k2: int|
        #![trigger pairs[k1], pairs[k2]]
        0 <= k1 < k2 < pairs.len() ==> pairs[k1].0 != pairs[k2].0
}

/// How many slots are filled.
spec fn count_somes(s: Seq<Option<PuzzleScore>>) -> int
    decreases s.len(),
{
    if s.len() == 0 {
        0
    } else {
        count_somes(s.drop_last()) + if s.last() is Some {
            1int
        } else {
            0int
        }
    }
}

/// The count of filled slots lies between zero and the number of slots.
proof fn lemma_count_somes_le_len(s: Seq<Option<PuzzleScore>>)
    ensures
        0 <= count_somes(s) <= s.len(),
    decreases s.len(),
{
    if s.len() > 0 {
        lemma_count_somes_le_len(s.drop_last());
    }
}

/// When as many slots are filled as there are slots, every slot is filled.
proof fn lemma_count_somes_full(s: Seq<Option<PuzzleScore>>)
    requires
        count_somes(s) == s.len(),
    ensures
        forall|j: int| 0 <= j < s.len() ==> (#[trigger] s[j]) is Some,
    decreases s.len(),
{
    if s.len() > 0 {
        lemma_count_somes_le_len(s.drop_last());
        lemma_count_somes_full(s.drop_last());
        assert(forall|j: int| 0 <= j < s.len() - 1 ==> #[trigger] s[j] == s.drop_last()[j]);
    }
}

/// Filling an empty slot raises the count by one.
proof fn lemma_count_somes_update(s: Seq<Option<PuzzleScore>>, j: int, v: Option<PuzzleScore>)
    requires
        0 <= j < s.len(),
        s[j] is None,
        v is Some,
    ensures
        count_somes(s.update(j, v)) == count_somes(s) + 1,
    decreases s.len(),
{
    if j == s.len() - 1 {
        assert(s.update(j, v).drop_last() =~= s.drop_last());
        assert(s.update(j, v).last() == v);
    } else {
        assert(s.update(j, v).drop_last() =~= s.drop_last().update(j, v));
        assert(s.update(j, v).last() == s.last());
        lemma_count_somes_update(s.drop_last(), j, v);
    }
}

/// Restores source order to scores collected from concurrent workers in
/// completion order: each pair carries the source position its score
/// belongs to. Returns the scores ordered by source position exactly when
/// the pairs cover every position below `n` once, and nothing otherwise, so
/// the report's order never depends on the order in which workers finished.
pub fn order_scores_by_index(pairs: Vec<(usize, PuzzleScore)>, n: usize) -> (r: Option<
    Vec<PuzzleScore>,
>)
    ensures
        match r {
            Some(ordered) => {
                &&& valid_index_assignment(pairs@, n as int)
                &&& ordered@.len() == n
                &&& forall|k: int|
                    0 <= k < pairs@.len() ==> ordered@[(#[trigger] pairs@[k]).0 as int]
                        == pairs@[k].1
            },
            None => !valid_index_assignment(pairs@, n as int),
        },
{
    let ghost orig = pairs@;
    if pairs.len() != n {
        return None;
    }
    let mut slots: Vec<Option<PuzzleScore>> = Vec::new();
    let mut j: usize = 0;
    while j < n
        invariant
            j <= n,
            slots@.len() == j,
            count_somes(slots@) == 0,
            forall|t: int| 0 <= t < j ==> (#[trigger] slots@[t]) is None,
        decreases n - j,
    {
        proof {
            assert(slots@.push(None).drop_last() =~= slots@);
        }
        slots.push(None);
        j = j + 1;
    }
    let mut remaining = pairs;
    let mut failed: bool = false;
    while remaining.len() > 0
        invariant_except_break
            !failed,
            orig.len() == n,
            slots@.len() == n,
            remaining@.len() <= n,
            remaining@ == orig.subrange(0, remaining@.len() as int),
            count_somes(slots@) == n - remaining@.len(),
            forall|t: int|
                remaining@.len() <= t < n ==> ((#[trigger] orig[t]).0 as int) < n && slots@[orig[
                    t
                ].0 as int] == Some(orig[t].1),
            forall|s: int|
                0 <= s < n && (#[trigger] slots@[s]) is Some ==> exists|t: int|
                    remaining@.len() <= t < n && ((#[trigger] orig[t]).0 as int) == s,
            forall|t1: int, t2: int|
                #![trigger orig[t1], orig[t2]]
                remaining@.len() <= t1 < t2 < n ==> orig[t1].0 != orig[t2].0,
        ensures
            failed ==> !valid_index_assignment(orig, n as int),
            !failed ==> {
                &&& slots@.len() == n
                &&& count_somes(slots@) == n
                &&& forall|t: int|
                    0 <= t < n ==> ((#[trigger] orig[t]).0 as int) < n && slots@[orig[
                        t
                    ].0 as int] == Some(orig[t].1)
                &&& forall|t1: int, t2: int|
                    #![trigger orig[t1], orig[t2]]
                    0 <= t1 < t2 < n ==> orig[t1].0 != orig[t2].0
            },
        decreases remaining@.len(),
    {
        let ghost m = remaining@.len() - 1;
        let pair = match remaining.pop() {
            Some(p) => p,
            None => {
                proof {
                    assert(false);
                }
                failed = true;
                break ;
            },
        };
        proof {
            assert(orig.subrange(0, m + 1)[m] == orig[m]);
            assert(pair == orig[m]);
            assert(orig.subrange(0, m + 1).subrange(0, m) =~= orig.subrange(0, m));
            assert(remaining@ == orig.subrange(0, m));
        }
        let idx = pair.0;
        if idx >= n {
            proof {
                assert(!valid_index_assignment(orig, n as int));
            }
            failed = true;
            break ;
        }
        if slots[idx].is_some() {
            proof {
                let t = choose|t: int| m + 1 <= t < n && ((#[trigger] orig[t]).0 as int)
                    == idx as int;
                assert(orig[m].0 == orig[t].0 && m < t < orig.len());
                assert(!valid_index_assignment(orig, n as int));
            }
            failed = true;
            break ;
        }
        let ghost slots_before = slots@;
        slots[idx] = Some(pair.1);
        proof {
            lemma_count_somes_update(slots_before, idx as int, Some(pair.1));
            assert(forall|t: int|
                m + 1 <= t < n ==> ((#[trigger] orig[t]).0 as int) != idx as int);
        }
    }
    if failed {
        return None;
    }
    proof {
        lemma_count_somes_full(slots@);
    }
    let ghost full = slots@;
    let mut ordered: Vec<PuzzleScore> = Vec::new();
    let mut k: usize = 0;
    while k < n
        invariant
            k <= n,
            full.len() == n,
            slots@ == full.subrange(k as int, n as int),
            forall|t: int| 0 <= t < n ==> (#[trigger] full[t]) is Some,
            ordered@.len() == k,
            forall|t: int| 0 <= t < k ==> Some(#[trigger] ordered@[t]) == full[t],
        decreases n - k,
    {
        let item = slots.remove(0);
        proof {
            assert(full.subrange(k as int, n as int).remove(0) =~= full.subrange(
                k + 1 as int,
                n as int,
            ));
            assert(full.subrange(k as int, n as int)[0] == full[k as int]);
        }
        match item {
            Some(score) => ordered.push(score),
            None => {
                proof {
                    assert(false);
                }
                return None;
            },
        }
        k = k + 1;
    }
    proof {
        assert(valid_index_assignment(orig, n as int));
    }
    Some(ordered)
}

/// Drives the benchmark over one collection of puzzles and aggregates the
/// outcome.
pub struct BenchmarkRunner {
    pub puzzles: PuzzleCollection,
}

impl BenchmarkRunner {
    /// Wraps a loaded collection for a run.
    pub fn new(puzzles: PuzzleCollection) -> (r: Self)
        ensures
            r.puzzles == puzzles,
    {
        Self { puzzles }
    }

    /// Validates one answer sequence per puzzle, in source order.
    pub fn collect_scores(&self, answers: &Vec<Vec<String>>) -> (scores: Vec<PuzzleScore>)
        requires
            self.puzzles.wf(),
            answers@.len() == self.puzzles.puzzles@.len(),
        ensures
            scores@.len() == self.puzzles.puzzles@.len(),
            forall|i: int|
                0 <= i < scores@.len() ==> {
                    let p = self.puzzles.puzzles@[i];
                    let sc = #[trigger] scores@[i];
                    &&& sc.puzzle_id@ == p.id@
                    &&& sc.max_possible_score == p.game_states@.len()
                    &&& sc.score == p.score_spec(answers@[i].deep_view())
                    &&& sc.wf()
                },
    {
        let n = self.puzzles.puzzles.len();
        let mut scores: Vec<PuzzleScore> = Vec::new();
        let mut i: usize = 0;
        while i < n
            invariant
                self.puzzles.wf(),
                n == self.puzzles.puzzles@.len(),
                answers@.len() == n,
                i <= n,
                scores@.len() == i,
                forall|k: int|
                    0 <= k < i ==> {
                        let p = self.puzzles.puzzles@[k];
                        let sc = #[trigger] scores@[k];
                        &&& sc.puzzle_id@ == p.id@
                        &&& sc.max_possible_score == p.game_states@.len()
                        &&& sc.score == p.score_spec(answers@[k].deep_view())
                        &&& sc.wf()
                    },
            decreases n - i,
        {
            let row = answers[i].as_slice();
            let score = self.puzzles.puzzles[i].validate_solution(row);
            proof {
                assert(row.deep_view() =~= answers@[i as int].deep_view());
            }
            scores.push(score);
            i = i + 1;
        }
        scores
    }

    /// Aggregates per-puzzle scores into the final report: totals, the
    /// truncated thousandths average (zero when nothing was obtainable, so
    /// an empty collection never divides by zero), and the per-game-type
    /// breakdown, which buckets every score under the collection's single
    /// declared game type. The scores appear in the report exactly as
    /// handed in: callers supply them in source order, whatever order the
    /// workers completed in.
    pub fn aggregate(
        &self,
        solver_name: &str,
        solver_description: &str,
        parallel: bool,
        puzzle_scores: Vec<PuzzleScore>,
        pass_results: Option<PassResults>,
    ) -> (r: BenchmarkResult)
        requires
            all_scores_wf(puzzle_scores@),
            total_max_of(puzzle_scores@) <= u64::MAX,
        ensures
            r.benchmark_name@ == benchmark_name_spec(solver_name@, self.puzzles.name@, parallel),
            r.solver_name@ == solver_name@,
            r.solver_description@ == solver_description@,
            r.total_puzzles == puzzle_scores@.len(),
            r.total_score == total_score_of(puzzle_scores@),
            r.max_possible_score == total_max_of(puzzle_scores@),
            r.average_score_permille == average_permille_spec(
                total_score_of(puzzle_scores@),
                total_max_of(puzzle_scores@),
            ),
            total_max_of(puzzle_scores@) == 0 ==> r.average_score_permille == 0,
            r.puzzle_scores@ == puzzle_scores@,
            puzzle_scores@.len() == 0 ==> r.game_type_breakdown@.len() == 0,
            puzzle_scores@.len() > 0 ==> {
                &&& r.game_type_breakdown@.len() == 1
                &&& r.game_type_breakdown@[0].game_type@ == self.puzzles.game_type@
                &&& r.game_type_breakdown@[0].count == puzzle_scores@.len()
                &&& r.game_type_breakdown@[0].average_score_permille == average_permille_spec(
                    total_score_of(puzzle_scores@),
                    total_max_of(puzzle_scores@),
                )
            },
            r.pass_results == pass_results,
    {
        let len = puzzle_scores.len();
        let mut total_score: u64 = 0;
        let mut max_possible: u64 = 0;
        let mut i: usize = 0;
        while i < len
            invariant
                len == puzzle_scores@.len(),
                i <= len,
                all_scores_wf(puzzle_scores@),
                total_max_of(puzzle_scores@) <= u64::MAX,
                total_score == total_score_of(puzzle_scores@.subrange(0, i as int)),
                max_possible == total_max_of(puzzle_scores@.subrange(0, i as int)),
                total_score <= max_possible,
            decreases len - i,
        {
            proof {
                lemma_sum_by_prefix_step(puzzle_scores@, score_weight(), i as int);
                lemma_sum_by_prefix_step(puzzle_scores@, max_weight(), i as int);
                lemma_total_max_prefix_le(puzzle_scores@, i + 1);
                assert(forall|k: int|
                    0 <= k < puzzle_scores@.subrange(0, i + 1).len() ==> (score_weight())(
                        #[trigger] puzzle_scores@.subrange(0, i + 1)[k],
                    ) <= (max_weight())(puzzle_scores@.subrange(0, i + 1)[k]));
                lemma_sum_by_pointwise_le(
                    puzzle_scores@.subrange(0, i + 1),
                    score_weight(),
                    max_weight(),
                );
            }
            total_score = total_score + puzzle_scores[i].score;
            max_possible = max_possible + puzzle_scores[i].max_possible_score;
            i = i + 1;
        }
        proof {
            assert(puzzle_scores@.subrange(0, len as int) =~= puzzle_scores@);
        }
        let average = average_permille(total_score, max_possible);
        let mut breakdown: Vec<GameTypeScore> = Vec::new();
        if len > 0 {
            breakdown.push(
                GameTypeScore {
                    game_type: self.puzzles.game_type.clone(),
                    count: len,
                    average_score_permille: average,
                },
            );
        }
        let mut benchmark_name = String::from_str(solver_name).concat(" on ").concat(
            self.puzzles.name.as_str(),
        );
        if parallel {
            benchmark_name.append(" (parallel)");
        }
        proof {
            assert(benchmark_name@ =~= benchmark_name_spec(
                solver_name@,
                self.puzzles.name@,
                parallel,
            ));
        }
        let timestamp = now_rfc3339();
        BenchmarkResult {
            benchmark_name,
            solver_name: String::from_str(solver_name),
            solver_description: String::from_str(solver_description),
            total_puzzles: len,
            total_score,
            max_possible_score: max_possible,
            average_score_permille: average,
            puzzle_scores,
            game_type_breakdown: breakdown,
            pass_results,
            timestamp,
        }
    }

    /// Runs one single-pass benchmark over answers already produced by a
    /// solver, one answer sequence per puzzle in source order: validates
    /// every puzzle and aggregates the report.
    pub fn run_benchmark(
        &self,
        solver_name: &str,
        solver_description: &str,
        answers: &Vec<Vec<String>>,
    ) -> (r: BenchmarkResult)
        requires
            self.puzzles.wf(),
            answers@.len() == self.puzzles.puzzles@.len(),
            total_states_of(self.puzzles.puzzles@) <= u64::MAX,
        ensures
            r.benchmark_name@ == benchmark_name_spec(solver_name@, self.puzzles.name@, false),
            r.solver_name@ == solver_name@,
            r.solver_description@ == solver_description@,
            r.total_puzzles == self.puzzles.puzzles@.len(),
            r.puzzle_scores@.len() == self.puzzles.puzzles@.len(),
            forall|i: int|
                0 <= i < r.puzzle_scores@.len() ==> {
                    let p = self.puzzles.puzzles@[i];
                    let sc = #[trigger] r.puzzle_scores@[i];
                    &&& sc.puzzle_id@ == p.id@
                    &&& sc.max_possible_score == p.game_states@.len()
                    &&& sc.score == p.score_spec(answers@[i].deep_view())
                },
            r.total_score == total_score_of(r.puzzle_scores@),
            r.max_possible_score == total_max_of(r.puzzle_scores@),
            r.max_possible_score == total_states_of(self.puzzles.puzzles@),
            r.average_score_permille == average_permille_spec(
                total_score_of(r.puzzle_scores@),
                total_max_of(r.puzzle_scores@),
            ),
            self.puzzles.puzzles@.len() == 0 ==> r.game_type_breakdown@.len() == 0,
            self.puzzles.puzzles@.len() > 0 ==> r.game_type_breakdown@.len() == 1
                && r.game_type_breakdown@[0].game_type@ == self.puzzles.game_type@
                && r.game_type_breakdown@[0].count == self.puzzles.puzzles@.len()
                && r.game_type_breakdown@[0].average_score_permille == r.average_score_permille,
            r.pass_results is None,
    {
        let scores = self.collect_scores(answers);
        proof {
            lemma_sum_by_pointwise_eq(
                scores@,
                self.puzzles.puzzles@,
                max_weight(),
                states_weight(),
            );
        }
        self.aggregate(solver_name, solver_description, false, scores, None)
    }

    /// Aggregates a multi-pass score table into pass@1 / pass@N metrics,
    /// over full-credit solves: pass@1 counts the puzzles answered
    /// completely correctly on the first pass, pass@N those answered
    /// completely correctly on at least one pass.
    pub fn aggregate_passes(per_pass: &Vec<Vec<PuzzleScore>>) -> (r: PassResults)
        requires
            per_pass@.len() >= 1,
            forall|i: int|
                0 <= i < per_pass@.len() ==> (#[trigger] per_pass@[i])@.len()
                    == per_pass@[0]@.len(),
        ensures
            r.total_puzzles == per_pass@[0]@.len(),
            r.pass_at_1_count == pass1_count(passes_view(per_pass@), per_pass@[0]@.len() as int),
            r.pass_at_n_count == passn_count(passes_view(per_pass@), per_pass@[0]@.len() as int),
            r.pass_at_1_permille == average_permille_spec(
                r.pass_at_1_count as int,
                r.total_puzzles as int,
            ),
            r.pass_at_n_permille == average_permille_spec(
                r.pass_at_n_count as int,
                r.total_puzzles as int,
            ),
    {
        let n = per_pass[0].len();
        let passes = per_pass.len();
        let ghost pv = passes_view(per_pass@);
        proof {
            assert(pv.len() == per_pass@.len());
            assert(forall|i: int| 0 <= i < pv.len() ==> pv[i] == (#[trigger] per_pass@[i])@);
        }
        let mut c1: u64 = 0;
        let mut cn: u64 = 0;
        let mut j: usize = 0;
        while j < n
            invariant
                n == per_pass@[0]@.len(),
                passes == per_pass@.len(),
                passes >= 1,
                pv == passes_view(per_pass@),
                pv.len() == passes,
                forall|i: int| 0 <= i < pv.len() ==> (#[trigger] pv[i]).len() == n,
                forall|i: int| 0 <= i < pv.len() ==> pv[i] == (#[trigger] per_pass@[i])@,
                j <= n,
                c1 == pass1_count(pv, j as int),
                cn == passn_count(pv, j as int),
                c1 <= j,
                cn <= j,
            decreases n - j,
        {
            let first = &per_pass[0][j];
            if first.score == first.max_possible_score {
                c1 = c1 + 1;
            }
            let mut any: bool = false;
            let mut i: usize = 0;
            while i < passes
                invariant
                    passes == per_pass@.len(),
                    pv.len() == passes,
                    forall|k: int| 0 <= k < pv.len() ==> (#[trigger] pv[k]).len() == n,
                    forall|k: int| 0 <= k < pv.len() ==> pv[k] == (#[trigger] per_pass@[k])@,
                    j < n,
                    i <= passes,
                    any == exists|k: int| 0 <= k < i && #[trigger] full_at(pv, k, j as int),
                decreases passes - i,
            {
                let s = &per_pass[i][j];
                if s.score == s.max_possible_score {
                    proof {
                        assert(full_at(pv, i as int, j as int));
                    }
                    any = true;
                }
                i = i + 1;
            }
            if any {
                cn = cn + 1;
            }
            proof {
                assert(full_at(pv, 0, j as int) == (per_pass@[0]@[j as int].score == per_pass@[
                    0
                ]@[j as int].max_possible_score));
                assert(solved_in_any_pass(pv, j as int) == (exists|k: int|
                    0 <= k < passes && #[trigger] full_at(pv, k, j as int)));
            }
            j = j + 1;
        }
        proof {
            lemma_pass_counts_bounded(pv, n as int);
        }
        let n64: u64 = n as u64;
        let p1 = average_permille(c1, n64);
        let pn = average_permille(cn, n64);
        PassResults {
            pass_at_1_count: c1,
            pass_at_n_count: cn,
            total_puzzles: n64,
            pass_at_1_permille: p1,
            pass_at_n_permille: pn,
        }
    }

    /// Runs a multi-pass benchmark over a score table already produced by
    /// validating each pass (one row of per-puzzle scores per pass, all in
    /// source order): the report aggregates the first pass, the pass the
    /// pass@1 metric is defined over, and carries the pass@1 / pass@N
    /// metrics computed across all passes.
    pub fn run_benchmark_multiple_passes(
        &self,
        solver_name: &str,
        solver_description: &str,
        per_pass: Vec<Vec<PuzzleScore>>,
    ) -> (r: BenchmarkResult)
        requires
            per_pass@.len() >= 1,
            forall|i: int|
                0 <= i < per_pass@.len() ==> (#[trigger] per_pass@[i])@.len()
                    == per_pass@[0]@.len(),
            all_scores_wf(per_pass@[0]@),
            total_max_of(per_pass@[0]@) <= u64::MAX,
        ensures
            r.benchmark_name@ == benchmark_name_spec(solver_name@, self.puzzles.name@, false),
            r.solver_name@ == solver_name@,
            r.solver_description@ == solver_description@,
            r.total_puzzles == per_pass@[0]@.len(),
            r.puzzle_scores@ == per_pass@[0]@,
            r.total_score == total_score_of(per_pass@[0]@),
            r.max_possible_score == total_max_of(per_pass@[0]@),
            r.average_score_permille == average_permille_spec(
                total_score_of(per_pass@[0]@),
                total_max_of(per_pass@[0]@),
            ),
            r.pass_results is Some,
            r.pass_results->0.total_puzzles == per_pass@[0]@.len(),
            r.pass_results->0.pass_at_1_count == pass1_count(
                passes_view(per_pass@),
                per_pass@[0]@.len() as int,
            ),
            r.pass_results->0.pass_at_n_count == passn_count(
                passes_view(per_pass@),
                per_pass@[0]@.len() as int,
            ),
            r.pass_results->0.pass_at_1_permille == average_permille_spec(
                r.pass_results->0.pass_at_1_count as int,
                r.pass_results->0.total_puzzles as int,
            ),
            r.pass_results->0.pass_at_n_permille == average_permille_spec(
                r.pass_results->0.pass_at_n_count as int,
                r.pass_results->0.total_puzzles as int,
            ),
    {
        let pass_results = Self::aggregate_passes(&per_pass);
        let mut per_pass = per_pass;
        let first = per_pass.remove(0);
        self.aggregate(solver_name, solver_description, false, first, Some(pass_results))
    }
}

} // verus!
