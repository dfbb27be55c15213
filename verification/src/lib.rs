//! A spaced-repetition study tool: a persisted review index schedules
//! plain-text documents for quizzing, and an inline-blank quiz engine
//! produces the score delta that feeds the schedule.
//!
//! The index is a line-oriented ledger, one document per line:
//! `<RFC 3339 date> @ <signed interval/score in days> @ <path>`. A run
//! loads the ledger, quizzes every due document, folds the resulting
//! score delta into the interval, and rewrites the ledger in full,
//! keeping malformed lines byte for byte.
pub mod bytes;
pub mod dates;
pub mod index;
pub mod matcher;
pub mod numbers;
pub mod quiz;
