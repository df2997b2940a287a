//! The solver: an immutable configuration value (model name, credential,
//! endpoint) shared across workers, the prompt builder, and the decision
//! logic applied to what the model endpoint returns.
//!
//! The network exchange itself happens outside the library; callers hand
//! the raw outcome of each exchange back in as a plain value.

use vstd::prelude::*;
use vstd::string::*;

use crate::parser::{parse_answer, parse_answer_spec};
use crate::puzzle::{Puzzle, PuzzleCollection};

verus! {

/// A fatal configuration failure found while constructing a solver: the
/// benchmark must not start without a credential and an endpoint.
#[derive(Debug, PartialEq, Eq, Structural)]
pub enum ConfigError {
    MissingApiKey,
    MissingBaseUrl,
}

impl ConfigError {
    /// The human-readable text of this error.
    pub open spec fn message_spec(&self) -> Seq<char> {
        match self {
            ConfigError::MissingApiKey => "OPENAI_API_KEY environment variable not set"@,
            ConfigError::MissingBaseUrl => "OPENAI_BASE_URL environment variable not set"@,
        }
    }

    /// Renders the error as text, exactly as `message_spec` states.
    pub fn message(&self) -> (r: String)
        ensures
            r@ == self.message_spec(),
    {
        match self {
            ConfigError::MissingApiKey => String::from_str(
                "OPENAI_API_KEY environment variable not set",
            ),
            ConfigError::MissingBaseUrl => String::from_str(
                "OPENAI_BASE_URL environment variable not set",
            ),
        }
    }
}

/// A per-call failure of the model endpoint. Every variant is recovered
/// locally by the caller: a failed call scores as a wrong answer and the
/// run continues.
#[derive(Debug)]
pub enum ApiError {
    /// The transport failed: connection refused, timeout, or a non-success
    /// status, with the transport's own description.
    Transport(String),
    /// The endpoint answered with an empty choice list.
    NoChoices,
    /// The first choice carried no content.
    NoContent,
}

impl ApiError {
    /// The human-readable text of this error.
    pub open spec fn message_spec(&self) -> Seq<char> {
        match self {
            ApiError::Transport(s) => s@,
            ApiError::NoChoices => "No choices in response"@,
            ApiError::NoContent => "No content in response"@,
        }
    }

    /// Renders the error as text, exactly as `message_spec` states.
    pub fn message(&self) -> (r: String)
        ensures
            r@ == self.message_spec(),
    {
        match self {
            ApiError::Transport(s) => s.clone(),
            ApiError::NoChoices => String::from_str("No choices in response"),
            ApiError::NoContent => String::from_str("No content in response"),
        }
    }
}

/// The fixed opening of every prompt, up to the first mention of the game
/// type.
pub const PROMPT_INTRO: &'static str = "You are a highly advanced AI specialized in solving abstract board game puzzles.\nYour task is to analyze the given game state and provide a detailed strategic evaluation along with the best possible move.\nFollow these guidelines to ensure optimal performance:\n1. **Understanding the Game Rules**: Begin by thoroughly explaining the rules of ";

/// The template text between the two mentions of the game type.
pub const PROMPT_ANALYSIS: &'static str = " in the context of the current puzzle. Highlight unique aspects like movement patterns of pieces, special moves, and endgame conditions.\n2. **Game State Analysis**: Assess the current state of the ";

/// The template text between the second game-type mention and the goal.
pub const PROMPT_GUIDELINES: &'static str = " board. Identify key factors such as:\n  - Material balance: Compare the pieces on both sides.\n  - Positioning: Evaluate the placement of pieces, control of the center, and potential threats.\n  - Tactical opportunities: Look for immediate tactical shots like forks, pins, or discovered attacks.\n  - Strategic considerations: Discuss long-term plans, weaknesses, and strengths of each side.\n3. **Best Move Recommendation**: Propose several moves based on your analysis. Think of possible responses from the opponent and how to counteract them. Choose the best move that maximizes your advantage or minimizes your losses.\n4. **Goal of the Puzzle**: Keep in mind that the primary objective is: ";

/// The template text between the goal and the game state.
pub const PROMPT_CLOSING: &'static str = ". Tailor your analysis and move recommendations to align with this goal.\n5. **Formatting and Clarity**: Provide your final answer in the following format: **Answer: <your move here>**, where your move is represented in UCI notation, e.g., e2e4, e1g1 (castling), e7e8q (promotion). Ensure your response is separated from the analysis in one line for clarity.\n\nThe puzzle is given by FEN string: ";

/// The full prompt asked of the model for one game state: a deterministic
/// function of the collection's game type and goal and of the state string.
pub open spec fn prompt_spec(game_type: Seq<char>, goal: Seq<char>, state: Seq<char>) -> Seq<
    char,
> {
    PROMPT_INTRO@ + game_type + PROMPT_ANALYSIS@ + game_type + PROMPT_GUIDELINES@ + goal
        + PROMPT_CLOSING@ + state
}

/// The stateless solver configuration: model identifier, credential and
/// endpoint, plus a display name and description. Never mutated after
/// construction, so it may be shared freely across parallel workers.
#[derive(Debug, Clone)]
pub struct Solver {
    pub name: String,
    pub description: String,
    pub model: String,
    pub api_key: String,
    pub base_url: String,
}

impl Solver {
    /// The display name announced by this solver.
    pub open spec fn name_spec(model: Seq<char>) -> Seq<char> {
        "OpenAI Solver ("@ + model + ")"@
    }

    /// The description announced by this solver.
    pub open spec fn description_spec(model: Seq<char>) -> Seq<char> {
        "OpenAI API solver using "@ + model + " model"@
    }

    /// Builds a solver configuration from the model identifier and the
    /// credential and endpoint resolved from the process environment.
    /// Construction fails, before any puzzle is attempted, exactly when the
    /// credential or the endpoint is absent.
    pub fn new(model: String, api_key: Option<String>, base_url: Option<String>) -> (r: Result<
        Solver,
        ConfigError,
    >)
        ensures
            match r {
                Ok(s) => {
                    &&& api_key is Some
                    &&& base_url is Some
                    &&& s.model@ == model@
                    &&& s.api_key@ == api_key->0@
                    &&& s.base_url@ == base_url->0@
                    &&& s.name@ == Self::name_spec(model@)
                    &&& s.description@ == Self::description_spec(model@)
                },
                Err(e) => {
                    &&& (e == ConfigError::MissingApiKey <==> api_key is None)
                    &&& (e == ConfigError::MissingBaseUrl <==> api_key is Some && base_url is None)
                },
            },
    {
        let key = match api_key {
            Some(k) => k,
            None => {
                return Err(ConfigError::MissingApiKey);
            },
        };
        let url = match base_url {
            Some(u) => u,
            None => {
                return Err(ConfigError::MissingBaseUrl);
            },
        };
        let name = String::from_str("OpenAI Solver (").concat(model.as_str()).concat(")");
        let description = String::from_str("OpenAI API solver using ").concat(
            model.as_str(),
        ).concat(" model");
        proof {
            assert(name@ =~= Self::name_spec(model@));
            assert(description@ =~= Self::description_spec(model@));
        }
        Ok(Solver { name, description, model, api_key: key, base_url: url })
    }

    /// The solver's display name.
    pub fn name(&self) -> (r: &str)
        ensures
            r@ == self.name@,
    {
        self.name.as_str()
    }

    /// The solver's description.
    pub fn description(&self) -> (r: &str)
        ensures
            r@ == self.description@,
    {
        self.description.as_str()
    }

    /// Builds the prompt for one game state of a puzzle, embedding the
    /// collection's game type and goal and the state string into the fixed
    /// template. Same inputs always yield the same prompt.
    pub fn build_prompt(
        &self,
        puzzle: &Puzzle,
        puzzle_collection: &PuzzleCollection,
        index: usize,
    ) -> (r: String)
        requires
            index < puzzle.game_states@.len(),
        ensures
            r@ == prompt_spec(
                puzzle_collection.game_type@,
                puzzle_collection.goal@,
                puzzle.game_states@[index as int]@,
            ),
    {
        let mut s = String::from_str(PROMPT_INTRO);
        s.append(puzzle_collection.game_type.as_str());
        s.append(PROMPT_ANALYSIS);
        s.append(puzzle_collection.game_type.as_str());
        s.append(PROMPT_GUIDELINES);
        s.append(puzzle_collection.goal.as_str());
        s.append(PROMPT_CLOSING);
        s.append(puzzle.game_states[index].as_str());
        proof {
            assert(s@ =~= prompt_spec(
                puzzle_collection.game_type@,
                puzzle_collection.goal@,
                puzzle.game_states@[index as int]@,
            ));
        }
        s
    }
}

/// Picks the usable content out of the endpoint's choice list: the content
/// of the first choice. An empty choice list and a first choice without
/// content are the two API-level failures.
pub fn first_choice_content(choices: &Vec<Option<String>>) -> (r: Result<String, ApiError>)
    ensures
        match r {
            Ok(content) => choices@.len() > 0 && choices@[0] is Some && content@
                == choices@[0]->0@,
            Err(e) => match e {
                ApiError::NoChoices => choices@.len() == 0,
                ApiError::NoContent => choices@.len() > 0 && choices@[0] is None,
                ApiError::Transport(_) => false,
            },
        },
{
    if choices.len() == 0 {
        Err(ApiError::NoChoices)
    } else {
        match &choices[0] {
            Some(content) => Ok(content.clone()),
            None => Err(ApiError::NoContent),
        }
    }
}

/// The answer recorded for one game state, given the outcome of the model
/// exchange: the parsed reply on success, and the empty string on any
/// failure, so that a failed call scores as wrong instead of aborting the
/// run.
pub fn answer_from_outcome(outcome: &Result<String, ApiError>) -> (r: String)
    ensures
        r@ == (match outcome {
            Ok(t) => parse_answer_spec(t@),
            Err(_) => Seq::<char>::empty(),
        }),
{
    match outcome {
        Ok(t) => parse_answer(t.as_str()),
        Err(_) => String::new(),
    }
}

} // verus!
