//! Account, rate-limit and token-usage status of Codex.
//!
//! The library turns what a backend reports, and what a configuration says, into what is
//! shown: as values for programs, and as lines of text for people.  It compares rate limits
//! with a threshold, decides how to wait for one, and draws token activity.  It does no
//! input and no output.
//!
//! Percentages and other figures are doubles; the library holds them by their bits and
//! calculates with them in whole numbers, rounding as doubles do.

pub mod account;
pub mod activity;
pub mod agents;
pub mod calendar;
pub mod codex;
pub mod double;
pub mod duration;
pub mod figures;
pub mod limits;
pub mod percent;
pub mod permissions;
pub mod sorted;
pub mod status;
pub mod text;
pub mod usage;
pub mod wait;
