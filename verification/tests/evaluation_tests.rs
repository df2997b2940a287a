use boardgamebench::evaluation::{average_permille, order_scores_by_index, BenchmarkRunner};
use boardgamebench::puzzle::{Puzzle, PuzzleCollection, PuzzleScore};
use boardgamebench::solver::{answer_from_outcome, ApiError};

fn puzzle(id: &str, states: &[&str], solutions: &[&str]) -> Puzzle {
    Puzzle {
        id: id.to_string(),
        description: format!("test puzzle {}", id),
        game_states: states.iter().map(|s| s.to_string()).collect(),
        solutions: solutions.iter().map(|s| s.to_string()).collect(),
    }
}

fn collection(puzzles: Vec<Puzzle>) -> PuzzleCollection {
    PuzzleCollection {
        name: "test collection".to_string(),
        description: "a collection for tests".to_string(),
        game_type: "chess".to_string(),
        goal: "Find the best move to win for current player in the given chess game.".to_string(),
        game_rule: String::new(),
        puzzles,
    }
}

fn score(id: &str, score: u64, max: u64) -> PuzzleScore {
    PuzzleScore {
        puzzle_id: id.to_string(),
        score,
        max_possible_score: max,
    }
}

#[test]
fn single_puzzle_scenario_scores_one_of_one() {
    // One puzzle, one state, solution "e2e4"; the model replied with a
    // marked answer in capitals.
    let runner = BenchmarkRunner::new(collection(vec![puzzle("p1", &["fen-1"], &["e2e4"])]));
    let raw: Result<String, ApiError> = Ok("Analysis...\n**Answer: E2E4**".to_string());
    let answers = vec![vec![answer_from_outcome(&raw)]];
    let result = runner.run_benchmark("test solver", "a scripted solver", &answers);
    assert_eq!(result.total_puzzles, 1);
    assert_eq!(result.total_score, 1);
    assert_eq!(result.max_possible_score, 1);
    assert_eq!(result.average_score_permille, 1000);
    assert_eq!(result.puzzle_scores.len(), 1);
    assert_eq!(result.puzzle_scores[0].puzzle_id, "p1");
    assert_eq!(result.puzzle_scores[0].score, 1);
    assert_eq!(result.benchmark_name, "test solver on test collection");
    assert!(!result.timestamp.is_empty());
}

#[test]
fn failed_model_call_scores_zero_and_the_run_completes() {
    let runner = BenchmarkRunner::new(collection(vec![puzzle("p1", &["fen-1"], &["e2e4"])]));
    let raw: Result<String, ApiError> = Err(ApiError::Transport("timeout".to_string()));
    let answers = vec![vec![answer_from_outcome(&raw)]];
    let result = runner.run_benchmark("test solver", "a scripted solver", &answers);
    assert_eq!(result.total_puzzles, 1);
    assert_eq!(result.total_score, 0);
    assert_eq!(result.max_possible_score, 1);
    assert_eq!(result.average_score_permille, 0);
    assert_eq!(result.puzzle_scores[0].score, 0);
    assert_eq!(result.puzzle_scores[0].max_possible_score, 1);
}

#[test]
fn two_puzzle_totals_and_average() {
    // Two puzzles with maxima 1 and 2 scoring 1 and 1: total 2 of 3,
    // average two thirds (0.667 rounded, 666 in truncated thousandths).
    let runner = BenchmarkRunner::new(collection(vec![
        puzzle("p1", &["s1"], &["a"]),
        puzzle("p2", &["s1", "s2"], &["b", "c"]),
    ]));
    let answers = vec![
        vec!["a".to_string()],
        vec!["b".to_string(), "miss".to_string()],
    ];
    let result = runner.run_benchmark("test solver", "a scripted solver", &answers);
    assert_eq!(result.total_score, 2);
    assert_eq!(result.max_possible_score, 3);
    assert_eq!(result.average_score_permille, 666);
    let average = result.total_score as f64 / result.max_possible_score as f64;
    assert!((average - 0.667).abs() < 0.001);
}

#[test]
fn empty_collection_averages_zero_without_dividing() {
    let runner = BenchmarkRunner::new(collection(vec![]));
    let answers: Vec<Vec<String>> = Vec::new();
    let result = runner.run_benchmark("test solver", "a scripted solver", &answers);
    assert_eq!(result.total_puzzles, 0);
    assert_eq!(result.total_score, 0);
    assert_eq!(result.max_possible_score, 0);
    assert_eq!(result.average_score_permille, 0);
    assert_eq!(result.game_type_breakdown.len(), 0);
}

#[test]
fn average_permille_handles_the_zero_denominator() {
    assert_eq!(average_permille(0, 0), 0);
    assert_eq!(average_permille(1, 2), 500);
    assert_eq!(average_permille(2, 3), 666);
    assert_eq!(average_permille(3, 3), 1000);
}

#[test]
fn aggregation_is_order_independent() {
    let runner = BenchmarkRunner::new(collection(vec![])); // metadata only
    let in_order = vec![score("p1", 1, 1), score("p2", 0, 2), score("p3", 2, 3)];
    let shuffled = vec![score("p3", 2, 3), score("p1", 1, 1), score("p2", 0, 2)];
    let a = runner.aggregate("s", "d", false, in_order, None);
    let b = runner.aggregate("s", "d", false, shuffled, None);
    assert_eq!(a.total_score, b.total_score);
    assert_eq!(a.max_possible_score, b.max_possible_score);
    assert_eq!(a.average_score_permille, b.average_score_permille);
    assert_eq!(a.total_puzzles, b.total_puzzles);
}

#[test]
fn breakdown_buckets_under_the_collection_game_type() {
    let runner = BenchmarkRunner::new(collection(vec![
        puzzle("p1", &["s1"], &["a"]),
        puzzle("p2", &["s1"], &["b"]),
    ]));
    let answers = vec![vec!["a".to_string()], vec!["wrong".to_string()]];
    let result = runner.run_benchmark("test solver", "a scripted solver", &answers);
    assert_eq!(result.game_type_breakdown.len(), 1);
    assert_eq!(result.game_type_breakdown[0].game_type, "chess");
    assert_eq!(result.game_type_breakdown[0].count, 2);
    assert_eq!(result.game_type_breakdown[0].average_score_permille, 500);
}

#[test]
fn parallel_aggregation_is_named_as_such() {
    let runner = BenchmarkRunner::new(collection(vec![]));
    let result = runner.aggregate("test solver", "d", true, Vec::new(), None);
    assert_eq!(result.benchmark_name, "test solver on test collection (parallel)");
}

#[test]
fn scores_are_reported_in_source_order_whatever_the_completion_order() {
    let pairs = vec![
        (2usize, score("p3", 2, 3)),
        (0usize, score("p1", 1, 1)),
        (1usize, score("p2", 0, 2)),
    ];
    let ordered = order_scores_by_index(pairs, 3).expect("each position scored once");
    assert_eq!(ordered[0].puzzle_id, "p1");
    assert_eq!(ordered[1].puzzle_id, "p2");
    assert_eq!(ordered[2].puzzle_id, "p3");
}

#[test]
fn a_duplicated_or_missing_position_is_rejected() {
    let duplicated = vec![(0usize, score("p1", 1, 1)), (0usize, score("p2", 0, 2))];
    assert!(order_scores_by_index(duplicated, 2).is_none());
    let missing = vec![(0usize, score("p1", 1, 1))];
    assert!(order_scores_by_index(missing, 2).is_none());
    let out_of_range = vec![(1usize, score("p1", 1, 1))];
    assert!(order_scores_by_index(out_of_range, 1).is_none());
}

#[test]
fn pass_metrics_count_full_credit_solves() {
    // passes = 3, the puzzle is fully correct only on pass 2:
    // pass@1 = 0 for that puzzle, pass@3 = 1 for that puzzle.
    let runner = BenchmarkRunner::new(collection(vec![puzzle("p1", &["s1"], &["e2e4"])]));
    let per_pass = vec![
        runner.collect_scores(&vec![vec!["miss".to_string()]]),
        runner.collect_scores(&vec![vec!["e2e4".to_string()]]),
        runner.collect_scores(&vec![vec!["miss".to_string()]]),
    ];
    let result = runner.run_benchmark_multiple_passes("test solver", "d", per_pass);
    let pass_results = result.pass_results.expect("multi-pass run carries pass results");
    assert_eq!(pass_results.total_puzzles, 1);
    assert_eq!(pass_results.pass_at_1_count, 0);
    assert_eq!(pass_results.pass_at_n_count, 1);
    assert_eq!(pass_results.pass_at_1_permille, 0);
    assert_eq!(pass_results.pass_at_n_permille, 1000);
    // The report itself aggregates the first pass.
    assert_eq!(result.total_score, 0);
    assert_eq!(result.max_possible_score, 1);
}

#[test]
fn pass_at_n_requires_one_whole_pass_to_succeed() {
    // Two states answered correctly only across *different* passes never
    // count as a full-credit solve.
    let runner = BenchmarkRunner::new(collection(vec![puzzle(
        "p1",
        &["s1", "s2"],
        &["a", "b"],
    )]));
    let per_pass = vec![
        runner.collect_scores(&vec![vec!["a".to_string(), "x".to_string()]]),
        runner.collect_scores(&vec![vec!["x".to_string(), "b".to_string()]]),
    ];
    let result = runner.run_benchmark_multiple_passes("test solver", "d", per_pass);
    let pass_results = result.pass_results.expect("multi-pass run carries pass results");
    assert_eq!(pass_results.pass_at_1_count, 0);
    assert_eq!(pass_results.pass_at_n_count, 0);
}
