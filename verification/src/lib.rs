//! Search of recorded matches for a pattern of events.
//!
//! A query names groups of conditions on the two players of a match and the
//! number of frames that may lie between one group and the next. The searcher
//! walks the frames of a match and reports every place where the whole chain
//! of groups holds.

pub mod args;
pub mod decimal;
pub mod filter;
pub mod finder;
pub mod frame;
pub mod game;
pub mod query;
pub mod query_text;
pub mod range;
pub mod resolver;
pub mod search_string;

pub use crate::resolver::MatchedPlayers;
