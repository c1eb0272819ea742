//! A short-circuiting fold as the one primitive of a sequence.
//!
//! A sequence type implements [`TryFold::try_fold`]; pulling one element
//! (`next`) and folding all of them (`fold`) are derived from it by choosing
//! a step that always stops ([`Break`]) or never does ([`Continue`]).
pub mod countdown;
pub mod fold;
pub mod laws;
pub mod outcome;

pub use crate::countdown::Countdown;
pub use crate::fold::TryFold;
pub use crate::outcome::Break;
pub use crate::outcome::Continue;
pub use crate::outcome::Outcome;
