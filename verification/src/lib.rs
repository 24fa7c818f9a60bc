//! A headless combat-resolution engine for a turn-based card battler.
//!
//! Given a snapshot of battle state (hand, piles, creatures, active status
//! effects), the engine models legal plays, resolves the effects of actions
//! deterministically or probabilistically, and exposes the resulting state
//! transitions to an external decision-maker.

pub mod actions;
pub mod cards;
pub mod communication;
pub mod distribution;
pub mod monsters;
pub mod powers;
pub mod simulation;
pub mod simulation_state;
