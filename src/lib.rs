//! A milestone-based crowdfunding escrow.
//!
//! Backers commit funds toward a goal. Once the goal is reached, each
//! milestone's share is released to the creator after a majority of the
//! raised funds, weighted by amount, has approved it. If the goal is not
//! reached by the deadline, backers may reclaim what they contributed.
//!
//! The engine is a pure state machine: the host supplies the current time
//! index, performs authorisation, storage and asset transfers, and hands the
//! engine plain values.

pub mod types;
pub mod backers;
pub mod engine;
pub mod laws;
