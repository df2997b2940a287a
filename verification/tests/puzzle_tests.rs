use boardgamebench::puzzle::{Puzzle, PuzzleCollection, PuzzleError};

fn puzzle(id: &str, states: &[&str], solutions: &[&str]) -> Puzzle {
    Puzzle {
        id: id.to_string(),
        description: format!("test puzzle {}", id),
        game_states: states.iter().map(|s| s.to_string()).collect(),
        solutions: solutions.iter().map(|s| s.to_string()).collect(),
    }
}

fn collection(game_type: &str, puzzles: Vec<Puzzle>) -> PuzzleCollection {
    PuzzleCollection {
        name: "test collection".to_string(),
        description: "a collection for tests".to_string(),
        game_type: game_type.to_string(),
        goal: "Find the best move to win for current player in the given chess game.".to_string(),
        game_rule: String::new(),
        puzzles,
    }
}

#[test]
fn perfect_echo_scores_full_marks() {
    let p = puzzle("p1", &["state-a", "state-b"], &["e2e4", "g8f6"]);
    let answers = vec!["e2e4".to_string(), "g8f6".to_string()];
    let score = p.validate_solution(&answers);
    assert_eq!(score.puzzle_id, "p1");
    assert_eq!(score.score, 2);
    assert_eq!(score.max_possible_score, 2);
}

#[test]
fn score_stays_within_bounds() {
    let p = puzzle("p2", &["s1", "s2", "s3"], &["a", "b", "c"]);
    let answers = vec!["a".to_string(), "wrong".to_string(), "c".to_string()];
    let score = p.validate_solution(&answers);
    assert_eq!(score.score, 2);
    assert_eq!(score.max_possible_score, 3);
    assert!(score.score <= score.max_possible_score);
}

#[test]
fn extra_answers_are_ignored() {
    let p = puzzle("p3", &["s1"], &["a"]);
    let answers = vec!["a".to_string(), "b".to_string(), "c".to_string()];
    let score = p.validate_solution(&answers);
    assert_eq!(score.score, 1);
    assert_eq!(score.max_possible_score, 1);
}

#[test]
fn missing_answers_score_nothing_for_their_slot() {
    let p = puzzle("p4", &["s1", "s2", "s3"], &["a", "b", "c"]);
    let answers = vec!["a".to_string()];
    let score = p.validate_solution(&answers);
    assert_eq!(score.score, 1);
    assert_eq!(score.max_possible_score, 3);
}

#[test]
fn empty_answer_never_matches_a_real_solution() {
    let p = puzzle("p5", &["s1"], &["e2e4"]);
    let answers = vec![String::new()];
    let score = p.validate_solution(&answers);
    assert_eq!(score.score, 0);
    assert_eq!(score.max_possible_score, 1);
}

#[test]
fn comparison_is_exact_without_normalization() {
    let p = puzzle("p6", &["s1"], &["e2e4"]);
    let answers = vec!["E2E4".to_string()];
    let score = p.validate_solution(&answers);
    assert_eq!(score.score, 0);
}

#[test]
fn puzzle_with_no_states_scores_zero_of_zero() {
    let p = puzzle("p7", &[], &[]);
    let answers: Vec<String> = Vec::new();
    let score = p.validate_solution(&answers);
    assert_eq!(score.score, 0);
    assert_eq!(score.max_possible_score, 0);
}

#[test]
fn filter_by_game_type_returns_all_on_match() {
    let c = collection(
        "chess",
        vec![puzzle("p1", &["s"], &["a"]), puzzle("p2", &["s"], &["b"])],
    );
    let filtered = c.filter_by_game_type("chess");
    assert_eq!(filtered.len(), 2);
    assert_eq!(filtered[0].id, "p1");
    assert_eq!(filtered[1].id, "p2");
}

#[test]
fn filter_by_game_type_returns_nothing_on_mismatch() {
    let c = collection("chess", vec![puzzle("p1", &["s"], &["a"])]);
    let filtered = c.filter_by_game_type("go");
    assert_eq!(filtered.len(), 0);
}

#[test]
fn puzzle_error_messages() {
    let invalid = PuzzleError::InvalidDefinition("missing field `id`".to_string());
    assert_eq!(
        invalid.message(),
        "Invalid puzzle definition: missing field `id`"
    );
    let file = PuzzleError::FileError("no such file".to_string());
    assert_eq!(file.message(), "File error: no such file");
}
