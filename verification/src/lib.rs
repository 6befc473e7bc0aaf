//! A round-based, weighted-quorum consensus state machine for agreeing on a
//! single block per height among a fixed validator set.
//!
//! The engine is a deterministic state machine: it is constructed once per
//! height from [`HeightInfo`] and then driven exclusively through
//! [`Vetomint::progress`], which maps one timestamped event to an ordered list
//! of responses. All timing is event-driven; the engine never reads a clock
//! and never performs I/O.

pub mod types;
pub mod model;
pub mod engine;
pub mod laws;
pub mod dms;

pub use types::{
    BlockIdentifier, ConsensusError, ConsensusEvent, ConsensusParams, ConsensusResponse,
    HeightInfo, Round, Timestamp, ValidatorIndex, Vote, VotingPower,
};
pub use engine::Vetomint;
