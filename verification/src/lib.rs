use vstd::prelude::*;

pub mod approval;
pub mod calendar;
pub mod dates;
pub mod filter;
pub mod hooks;
pub mod keyed;
pub mod keyorder;
pub mod nostr_calendar;
pub mod ordered;
pub mod proto;
pub mod recurrence;
pub mod stake_math;
pub mod text;
pub mod timestamp;
pub mod token_swap;
pub mod uint;
pub mod zk_voting;

verus! {
} // verus!
