//! A natural-language task-intent engine for a personal task and notes
//! assistant. Free-text Korean/English messages are classified as task
//! creation, briefing requests, or unsupported; creation messages have a
//! title and a calendar date range extracted from relative keywords,
//! explicit ISO date tokens and a range separator; briefing requests get
//! a bounded textual digest of stored tasks and notes. The dispatcher
//! turns one utterance into one reply or one creation request.

pub mod api;
pub mod classify;
pub mod dates;
pub mod digest;
pub mod dispatch;
pub mod extract;
pub mod text;
