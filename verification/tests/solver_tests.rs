use boardgamebench::puzzle::{Puzzle, PuzzleCollection};
use boardgamebench::solver::{
    answer_from_outcome, first_choice_content, ApiError, ConfigError, Solver, PROMPT_ANALYSIS,
    PROMPT_CLOSING, PROMPT_GUIDELINES, PROMPT_INTRO,
};

fn solver() -> Solver {
    Solver::new(
        "deepseek-chat".to_string(),
        Some("test-api-key".to_string()),
        Some("https://api.example.test/v1".to_string()),
    )
    .expect("both credential and endpoint were supplied")
}

#[test]
fn solver_new_fails_without_credential() {
    let r = Solver::new("gpt-4".to_string(), None, Some("https://api.example.test".to_string()));
    match r {
        Err(ConfigError::MissingApiKey) => {}
        _ => panic!("expected MissingApiKey"),
    }
    assert_eq!(
        ConfigError::MissingApiKey.message(),
        "OPENAI_API_KEY environment variable not set"
    );
}

#[test]
fn solver_new_fails_without_endpoint() {
    let r = Solver::new("gpt-4".to_string(), Some("test-api-key".to_string()), None);
    match r {
        Err(ConfigError::MissingBaseUrl) => {}
        _ => panic!("expected MissingBaseUrl"),
    }
}

#[test]
fn solver_announces_its_model() {
    let s = solver();
    assert_eq!(s.name(), "OpenAI Solver (deepseek-chat)");
    assert_eq!(s.description(), "OpenAI API solver using deepseek-chat model");
    assert_eq!(s.model, "deepseek-chat");
}

#[test]
fn build_prompt_fills_the_template_deterministically() {
    let p = Puzzle {
        id: "p1".to_string(),
        description: "one-move puzzle".to_string(),
        game_states: vec!["rnbqkbnr/pppppppp/8/8/8/8/PPPPPPPP/RNBQKBNR w KQkq - 0 1".to_string()],
        solutions: vec!["e2e4".to_string()],
    };
    let c = PuzzleCollection {
        name: "c".to_string(),
        description: "d".to_string(),
        game_type: "chess".to_string(),
        goal: "Find the best move.".to_string(),
        game_rule: String::new(),
        puzzles: vec![],
    };
    let s = solver();
    let prompt = s.build_prompt(&p, &c, 0);
    let expected = format!(
        "{}chess{}chess{}Find the best move.{}rnbqkbnr/pppppppp/8/8/8/8/PPPPPPPP/RNBQKBNR w KQkq - 0 1",
        PROMPT_INTRO, PROMPT_ANALYSIS, PROMPT_GUIDELINES, PROMPT_CLOSING
    );
    assert_eq!(prompt, expected);
    assert!(prompt.contains("**Answer: <your move here>**"));
    assert!(prompt.ends_with("rnbqkbnr/pppppppp/8/8/8/8/PPPPPPPP/RNBQKBNR w KQkq - 0 1"));
    assert_eq!(prompt, s.build_prompt(&p, &c, 0));
}

#[test]
fn first_choice_content_rejects_empty_choice_list() {
    let choices: Vec<Option<String>> = Vec::new();
    match first_choice_content(&choices) {
        Err(ApiError::NoChoices) => {}
        _ => panic!("expected NoChoices"),
    }
    assert_eq!(ApiError::NoChoices.message(), "No choices in response");
}

#[test]
fn first_choice_content_rejects_missing_content() {
    let choices: Vec<Option<String>> = vec![None, Some("late".to_string())];
    match first_choice_content(&choices) {
        Err(ApiError::NoContent) => {}
        _ => panic!("expected NoContent"),
    }
    assert_eq!(ApiError::NoContent.message(), "No content in response");
}

#[test]
fn first_choice_content_takes_the_first_choice() {
    let choices = vec![Some("**Answer: e2e4**".to_string()), Some("ignored".to_string())];
    match first_choice_content(&choices) {
        Ok(content) => assert_eq!(content, "**Answer: e2e4**"),
        _ => panic!("expected Ok"),
    }
}

#[test]
fn successful_outcome_is_parsed() {
    let outcome: Result<String, ApiError> = Ok("thinking...\n**Answer: G1F3**".to_string());
    assert_eq!(answer_from_outcome(&outcome), "g1f3");
}

#[test]
fn failed_outcome_records_an_empty_answer() {
    let outcome: Result<String, ApiError> =
        Err(ApiError::Transport("connection refused".to_string()));
    assert_eq!(answer_from_outcome(&outcome), "");
    assert_eq!(
        ApiError::Transport("connection refused".to_string()).message(),
        "connection refused"
    );
}
