//! Plain data carried into and out of the consensus engine.

use vstd::prelude::*;

verus! {

/// Identifies a block candidate for the height.
pub type BlockIdentifier = usize;

/// A round ordinal within a height, starting from 0.
pub type Round = usize;

/// A validator identity: an index into the validator set.
pub type ValidatorIndex = usize;

/// The voting weight of one validator.
pub type VotingPower = u64;

/// An event-supplied timestamp, in milliseconds.
pub type Timestamp = u64;

/// Timing parameters of the height, immutable once the engine is built.
#[derive(Clone, Debug, PartialEq, Eq)]
pub struct ConsensusParams {
    /// The base round timeout in milliseconds; a round's deadline is the
    /// timestamp at which the round started plus this value.
    pub timeout_ms: u64,
    /// The number of initial rounds assigned to validator 0 before
    /// round-robin rotation over the validator set begins.
    pub repeat_round_for_first_leader: usize,
}

/// Everything the engine needs to run one height.
#[derive(Clone, Debug, PartialEq, Eq)]
pub struct HeightInfo {
    /// Voting weight per validator; a validator identity is an index here.
    pub validators: Vec<VotingPower>,
    /// The local validator identity, or `None` for an observer that tallies
    /// and finalizes but never broadcasts.
    pub this_node_index: Option<ValidatorIndex>,
    /// The timestamp at which the height starts.
    pub timestamp: Timestamp,
    /// Timing parameters for the height.
    pub consensus_params: ConsensusParams,
    /// The value the local node proposes when it is the proposer and holds
    /// no lock.
    pub initial_block_candidate: BlockIdentifier,
}

/// One recorded vote: who signed it and which candidate it names
/// (`None` is a nil vote).
#[derive(Clone, Copy, Debug, PartialEq, Eq)]
pub struct Vote {
    pub signer: ValidatorIndex,
    pub target: Option<BlockIdentifier>,
}

/// An input to the engine, delivered through `progress`.
#[derive(Clone, Debug, PartialEq, Eq)]
pub enum ConsensusEvent {
    /// Bootstraps round 0.
    Start,
    /// A proposal observed for `round`, already authenticated upstream.
    BlockProposalReceived {
        proposal: BlockIdentifier,
        /// Whether the proposal passed the caller's validity checks.
        valid: bool,
        /// The round the proposer re-justifies a previously locked value
        /// from, if any.
        valid_round: Option<Round>,
        proposer: ValidatorIndex,
        round: Round,
        /// Whether the local node favors this proposal.
        favor: bool,
    },
    /// A prevote observed for `round` (`proposal` is `None` for nil).
    Prevote {
        proposal: Option<BlockIdentifier>,
        signer: ValidatorIndex,
        round: Round,
    },
    /// A precommit observed for `round` (`proposal` is `None` for nil).
    Precommit {
        proposal: Option<BlockIdentifier>,
        signer: ValidatorIndex,
        round: Round,
    },
    /// An elapsed-time notification synthesized by the caller's timer.
    Timer,
}

/// An output of the engine, to be acted on by the caller in order.
#[derive(Clone, Debug, PartialEq, Eq)]
pub enum ConsensusResponse {
    BroadcastProposal {
        proposal: BlockIdentifier,
        valid_round: Option<Round>,
        round: Round,
    },
    BroadcastPrevote {
        proposal: Option<BlockIdentifier>,
        round: Round,
    },
    BroadcastPrecommit {
        proposal: Option<BlockIdentifier>,
        round: Round,
    },
    /// The height is decided: `proof` lists, in increasing index order, the
    /// signers whose precommits were counted toward the finalizing quorum.
    FinalizeBlock {
        proposal: BlockIdentifier,
        proof: Vec<ValidatorIndex>,
    },
}

/// A typed rejection: the event was refused and the engine state is
/// unchanged.
#[derive(Clone, Copy, Debug, PartialEq, Eq)]
pub enum ConsensusError {
    /// A signer or proposer index is out of range of the validator set.
    InvalidSigner,
    /// The event names a round behind the node's active round.
    StaleRound,
    /// The event arrived after the height finalized.
    AlreadyFinalized,
    /// The caller marked the proposal invalid.
    MalformedProposal,
}

} // verus!
