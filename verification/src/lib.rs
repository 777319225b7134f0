//! Ban-time aggregation: computes the remaining duration of a moderation
//! penalty from a history of timestamped rule violations, with per-category
//! exponential escalation of repeat violations and a linear decay of old
//! ones.
//!
//! The arithmetic is exact fixed-point over integer nanoseconds; `model`
//! holds the mathematical model the executable code is proved against, and
//! `laws` the properties that relate whole histories.

mod aggregate;
mod laws;
mod model;
mod rules;

pub use aggregate::get_remaining_ban_time;
pub use aggregate::get_remaining_ban_time_at;
pub use laws::lemma_added_warn_monotonic;
pub use laws::lemma_deterministic;
pub use laws::lemma_single_stale_warn;
pub use laws::lemma_single_warn_remaining;
pub use laws::new_warn_contribution;
pub use laws::new_warn_position;
pub use rules::Duration;
pub use rules::PlayerId;
pub use rules::RuleInfo;
pub use rules::Rules;
