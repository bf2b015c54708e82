//! A fact-checking protocol: claims are submitted, staked experts review them,
//! and a stake-weighted consensus settles each claim and prices the rewards
//! and penalties of its experts.
//!
//! The crate holds three state machines. Each owns one kind of record and
//! exposes its operations as methods whose contracts are checked by Verus:
//!
//! * [`claim_registry::ClaimRegistry`]: claims and their status lifecycle;
//! * [`expert_registry::ExpertRegistry`]: experts, stake tiers and reputation;
//! * [`review_consensus::ReviewConsensus`]: reviews, verdicts and settlements.
//!
//! The host supplies what the state machines cannot know: whether the acting
//! identity authorized the call, and the ledger time. Both arrive as plain
//! arguments. Notifications leave through each machine's event outbox.
pub mod address;
pub mod claim_registry;
pub mod consensus;
pub mod error;
pub mod event;
pub mod expert_registry;
pub mod review;
pub mod review_consensus;
pub mod text;
