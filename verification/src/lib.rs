//! Per-quizzer performance statistics for quiz competitions.
//!
//! The crate builds a round-by-question lookup grid of question-type codes
//! from answer-key documents, filters an event log down to the four scoring
//! codes, derives a stable quizzer ordering, accumulates four count matrices
//! (attempts, correct, bonus attempts, bonus correct), and renders the result
//! as a tab-delimited report. All of it is pure computation on strings and
//! vectors; reading files and the command line is left to callers.

use vstd::prelude::*;

pub mod aggregate;
pub mod events;
pub mod extract;
pub mod grid;
pub mod laws;
pub mod numbers;
pub mod pipeline;
pub mod quizzers;
pub mod report;
pub mod seqtools;
pub mod types;

verus! {

/// A fatal problem with an answer-key document: its round-number marker is
/// absent, or the digits after the marker do not form a usable round number.
#[derive(Clone, Copy, Debug, PartialEq, Eq, Structural)]
pub enum QuizError {
    MissingRoundNumber,
    InvalidRoundNumber,
}

impl QuizError {
    /// A human-readable description, for callers that report errors.
    pub fn message(&self) -> (r: &'static str)
        ensures
            r@ == self.spec_message(),
    {
        match self {
            QuizError::MissingRoundNumber => "answer key is missing its SET # round marker",
            QuizError::InvalidRoundNumber => "answer key declares an invalid round number",
        }
    }

    pub open spec fn spec_message(&self) -> Seq<char> {
        match self {
            QuizError::MissingRoundNumber => "answer key is missing its SET # round marker"@,
            QuizError::InvalidRoundNumber => "answer key declares an invalid round number"@,
        }
    }
}

} // verus!
