//! The mathematical model of the engine: a pure transition function `step`
//! from (state, event, timestamp) to (state, responses) or a typed
//! rejection. The executable engine is proved to follow this model exactly,
//! and the protocol laws are proved about it.

use vstd::prelude::*;
use crate::types::{BlockIdentifier, ConsensusError, ConsensusEvent, ConsensusParams, ConsensusResponse, HeightInfo, Round, Timestamp, ValidatorIndex, Vote, VotingPower};

verus! {

/// Ghost mirror of one round's bookkeeping.
#[verifier::ext_equal]
pub ghost struct RoundModel {
    /// The candidate announced for the round, with the round it was
    /// re-justified from, if any.
    pub proposal: Option<(BlockIdentifier, Option<Round>)>,
    /// Prevotes in arrival order; signers are unique within the round.
    pub prevotes: Seq<Vote>,
    /// Precommits in arrival order; signers are unique within the round.
    pub precommits: Seq<Vote>,
    /// The local node has broadcast its prevote for this round.
    pub prevoted: bool,
    /// The local node has broadcast its precommit for this round.
    pub precommitted: bool,
    /// A prevote threshold crossing was already handled for this round.
    pub prevote_quorum: bool,
    /// A precommit threshold crossing was already handled for this round.
    pub precommit_quorum: bool,
}

/// Ghost mirror of the whole engine state.
#[verifier::ext_equal]
pub ghost struct StateModel {
    pub validators: Seq<VotingPower>,
    pub this_node: Option<ValidatorIndex>,
    pub timeout_ms: u64,
    pub repeat_round_for_first_leader: usize,
    pub initial_candidate: BlockIdentifier,
    pub started: bool,
    pub round: Round,
    pub round_start: Timestamp,
    pub rounds: Seq<RoundModel>,
    /// The candidate and round last locked on, if any.
    pub locked: Option<(BlockIdentifier, Round)>,
    /// The finalized candidate and its proof, once terminal.
    pub finalized: Option<(BlockIdentifier, Seq<ValidatorIndex>)>,
}

/// Ghost mirror of a response, with the finalization proof as a sequence.
pub ghost enum ResponseModel {
    Proposal { proposal: BlockIdentifier, valid_round: Option<Round>, round: Round },
    Prevote { proposal: Option<BlockIdentifier>, round: Round },
    Precommit { proposal: Option<BlockIdentifier>, round: Round },
    Finalize { proposal: BlockIdentifier, proof: Seq<ValidatorIndex> },
}

/// What a concrete response states, as a model value.
pub open spec fn abs_response(r: ConsensusResponse) -> ResponseModel {
    match r {
        ConsensusResponse::BroadcastProposal { proposal, valid_round, round } =>
            ResponseModel::Proposal { proposal, valid_round, round },
        ConsensusResponse::BroadcastPrevote { proposal, round } =>
            ResponseModel::Prevote { proposal, round },
        ConsensusResponse::BroadcastPrecommit { proposal, round } =>
            ResponseModel::Precommit { proposal, round },
        ConsensusResponse::FinalizeBlock { proposal, proof } =>
            ResponseModel::Finalize { proposal, proof: proof@ },
    }
}

pub open spec fn abs_responses(rs: Seq<ConsensusResponse>) -> Seq<ResponseModel> {
    rs.map_values(|r: ConsensusResponse| abs_response(r))
}

// ---------------------------------------------------------------------------
// Weights and tallies
// ---------------------------------------------------------------------------

/// Total weight of a validator set.
pub open spec fn sum_weights(v: Seq<VotingPower>) -> int
    decreases v.len(),
{
    if v.len() == 0 {
        0
    } else {
        sum_weights(v.drop_last()) + v.last()
    }
}

/// The weight one vote contributes to the tally for `target`.
pub open spec fn vote_weight(validators: Seq<VotingPower>, v: Vote, target: Option<BlockIdentifier>) -> int {
    if v.target == target {
        validators[v.signer as int] as int
    } else {
        0
    }
}

/// Accumulated signer weight for `target` over a vote sequence.
pub open spec fn tally(
    validators: Seq<VotingPower>,
    votes: Seq<Vote>,
    target: Option<BlockIdentifier>,
) -> int
    decreases votes.len(),
{
    if votes.len() == 0 {
        0
    } else {
        tally(validators, votes.drop_last(), target) + vote_weight(validators, votes.last(), target)
    }
}

/// Strict two-thirds supermajority, in integer weight.
pub open spec fn has_quorum(weight: int, total: int) -> bool {
    3 * weight > 2 * total
}

pub open spec fn contains_signer(votes: Seq<Vote>, signer: ValidatorIndex) -> bool {
    exists|i: int| 0 <= i < votes.len() && votes[i].signer == signer
}

pub open spec fn voted_for(votes: Seq<Vote>, signer: ValidatorIndex, target: Option<BlockIdentifier>) -> bool {
    exists|i: int| 0 <= i < votes.len() && votes[i].signer == signer && votes[i].target == target
}

/// The signers below `upto` whose vote names `target`, in increasing index
/// order: the finalization proof is this sequence over the full set.
pub open spec fn proof_signers(votes: Seq<Vote>, upto: nat, target: Option<BlockIdentifier>) -> Seq<ValidatorIndex>
    decreases upto,
{
    if upto == 0 {
        Seq::empty()
    } else {
        proof_signers(votes, (upto - 1) as nat, target)
            + if voted_for(votes, (upto - 1) as usize, target) {
                seq![(upto - 1) as usize]
            } else {
                Seq::empty()
            }
    }
}

pub open spec fn unique_signers(votes: Seq<Vote>) -> bool {
    forall|i: int, j: int| 0 <= i < j < votes.len() ==> votes[i].signer != votes[j].signer
}

pub open spec fn signers_in_range(votes: Seq<Vote>, n: int) -> bool {
    forall|i: int| 0 <= i < votes.len() ==> votes[i].signer < n
}

// ---------------------------------------------------------------------------
// Proposer rotation
// ---------------------------------------------------------------------------

/// The proposer of a round: validator 0 for the first
/// `repeat_round_for_first_leader` rounds, then round-robin by index.
pub open spec fn spec_leader(round: Round, n: int, repeat: usize) -> int {
    if round < repeat {
        0
    } else if repeat == 0 {
        (round as int) % n
    } else {
        (round - repeat + 1) % n
    }
}

// ---------------------------------------------------------------------------
// State helpers
// ---------------------------------------------------------------------------

pub open spec fn empty_round() -> RoundModel {
    RoundModel {
        proposal: None,
        prevotes: Seq::empty(),
        precommits: Seq::empty(),
        prevoted: false,
        precommitted: false,
        prevote_quorum: false,
        precommit_quorum: false,
    }
}

/// The round table grown so that index `r` exists; existing entries keep
/// their place and new entries are empty rounds.
pub open spec fn extend_rounds(rounds: Seq<RoundModel>, r: Round) -> Seq<RoundModel> {
    if rounds.len() > r {
        rounds
    } else {
        rounds + Seq::new((r + 1 - rounds.len()) as nat, |i: int| empty_round())
    }
}

pub open spec fn upd_round(s: StateModel, r: int, rd: RoundModel) -> StateModel {
    StateModel { rounds: s.rounds.update(r, rd), ..s }
}

pub open spec fn total(s: StateModel) -> int {
    sum_weights(s.validators)
}

pub open spec fn self_is_leader(s: StateModel, r: Round) -> bool {
    match s.this_node {
        Some(me) => spec_leader(r, s.validators.len() as int, s.repeat_round_for_first_leader) == me,
        None => false,
    }
}

/// What the node itself proposes: its locked value with the lock's round as
/// justification, or the initial candidate if it holds no lock.
pub open spec fn propose_value(s: StateModel) -> (BlockIdentifier, Option<Round>) {
    match s.locked {
        Some((v, lr)) => (v, Some(lr)),
        None => (s.initial_candidate, None),
    }
}

/// Lock discipline on a fresh non-nil prevote quorum for `c` in the current
/// round: lock on it unless already locked on the same candidate.
pub open spec fn lock_update(s: StateModel, c: BlockIdentifier) -> StateModel {
    match s.locked {
        Some((lv, lr)) => if lv == c {
            s
        } else {
            StateModel { locked: Some((c, s.round)), ..s }
        },
        None => StateModel { locked: Some((c, s.round)), ..s },
    }
}

/// Whether the lock permits prevoting for `proposal` announced with
/// `valid_round`: no lock, the same value locked, or a matching
/// proof-of-lock-change round.
pub open spec fn lock_permits(s: StateModel, proposal: BlockIdentifier, valid_round: Option<Round>) -> bool {
    match s.locked {
        None => true,
        Some((lv, lr)) => lv == proposal || valid_round == Some(lr),
    }
}

// ---------------------------------------------------------------------------
// Well-formedness
// ---------------------------------------------------------------------------

pub open spec fn round_wf(rd: RoundModel, n: int) -> bool {
    &&& unique_signers(rd.prevotes)
    &&& unique_signers(rd.precommits)
    &&& signers_in_range(rd.prevotes, n)
    &&& signers_in_range(rd.precommits, n)
}

/// A round the node has not reached yet carries no local decisions.
pub open spec fn future_clean(rd: RoundModel) -> bool {
    !rd.prevoted && !rd.precommitted && !rd.prevote_quorum && !rd.precommit_quorum
}

pub open spec fn wf(s: StateModel) -> bool {
    &&& s.validators.len() > 0
    &&& s.validators.len() <= usize::MAX
    &&& forall|i: int| 0 <= i < s.validators.len() ==> s.validators[i] >= 1
    &&& sum_weights(s.validators) <= u64::MAX
    &&& match s.this_node {
        Some(me) => me < s.validators.len(),
        None => true,
    }
    &&& s.round < s.rounds.len()
    &&& forall|r: int| 0 <= r < s.rounds.len() ==> round_wf(#[trigger] s.rounds[r], s.validators.len() as int)
    &&& forall|r: int| s.round < r < s.rounds.len() ==> future_clean(#[trigger] s.rounds[r])
}

/// The state a freshly constructed engine is in.
pub open spec fn init_state(info: HeightInfo) -> StateModel {
    let base = StateModel {
        validators: info.validators@,
        this_node: info.this_node_index,
        timeout_ms: info.consensus_params.timeout_ms,
        repeat_round_for_first_leader: info.consensus_params.repeat_round_for_first_leader,
        initial_candidate: info.initial_block_candidate,
        started: false,
        round: 0,
        round_start: info.timestamp,
        rounds: seq![empty_round()],
        locked: None,
        finalized: None,
    };
    if self_is_leader(base, 0) {
        upd_round(base, 0, RoundModel { proposal: Some((info.initial_block_candidate, None)), ..empty_round() })
    } else {
        base
    }
}

// ---------------------------------------------------------------------------
// The transition cascade
// ---------------------------------------------------------------------------
//
// Threshold crossings are evaluated only when a vote is inserted, for the
// target of that vote, and only while its round is the node's active round;
// each round has one-shot flags so a crossing is handled once.

/// After a precommit for `Some(c)` joined the current round: finalize on a
/// fresh quorum.
pub open spec fn spec_finalize_check(s: StateModel, c: BlockIdentifier) -> (StateModel, Seq<ResponseModel>) {
    let r = s.round as int;
    let rd = s.rounds[r];
    if !rd.precommit_quorum && has_quorum(tally(s.validators, rd.precommits, Some(c)), total(s)) {
        let prf = proof_signers(rd.precommits, s.validators.len(), Some(c));
        let s1 = upd_round(s, r, RoundModel { precommit_quorum: true, ..rd });
        let s2 = StateModel { finalized: Some((c, prf)), ..s1 };
        (s2, seq![ResponseModel::Finalize { proposal: c, proof: prf }])
    } else {
        (s, Seq::empty())
    }
}

/// The node broadcasts and records its own precommit for `Some(c)`, then
/// checks for finalization.
pub open spec fn spec_self_precommit_some(s: StateModel, c: BlockIdentifier) -> (StateModel, Seq<ResponseModel>) {
    let r = s.round as int;
    let rd = s.rounds[r];
    match s.this_node {
        Some(me) => if !rd.precommitted {
            let rd1 = RoundModel {
                precommitted: true,
                precommits: if contains_signer(rd.precommits, me) {
                    rd.precommits
                } else {
                    rd.precommits.push(Vote { signer: me, target: Some(c) })
                },
                ..rd
            };
            let s1 = upd_round(s, r, rd1);
            let (s2, rs) = spec_finalize_check(s1, c);
            (s2, seq![ResponseModel::Precommit { proposal: Some(c), round: s.round }] + rs)
        } else {
            (s, Seq::empty())
        },
        None => (s, Seq::empty()),
    }
}

/// The leader of the new round announces its value (the locked value if it
/// holds a lock) and prevotes for it; its own prevote may complete a quorum.
pub open spec fn spec_self_prevote(s: StateModel, v: BlockIdentifier) -> (StateModel, Seq<ResponseModel>) {
    let r = s.round as int;
    let rd = s.rounds[r];
    match s.this_node {
        Some(me) => if !rd.prevoted {
            let rd1 = RoundModel {
                prevoted: true,
                prevotes: if contains_signer(rd.prevotes, me) {
                    rd.prevotes
                } else {
                    rd.prevotes.push(Vote { signer: me, target: Some(v) })
                },
                ..rd
            };
            let s1 = upd_round(s, r, rd1);
            let rd2 = s1.rounds[r];
            let (s3, rs3) = if !rd2.prevote_quorum
                && has_quorum(tally(s1.validators, rd2.prevotes, Some(v)), total(s1)) {
                let s2a = upd_round(s1, r, RoundModel { prevote_quorum: true, ..rd2 });
                let s2b = lock_update(s2a, v);
                spec_self_precommit_some(s2b, v)
            } else {
                (s1, Seq::empty())
            };
            (s3, seq![ResponseModel::Prevote { proposal: Some(v), round: s.round }] + rs3)
        } else {
            (s, Seq::empty())
        },
        None => (s, Seq::empty()),
    }
}

/// The round counter advances; the new round's proposer re-proposes its
/// locked value, or its initial candidate if it holds none.
pub open spec fn spec_advance(s: StateModel, ts: Timestamp) -> (StateModel, Seq<ResponseModel>) {
    if s.round == usize::MAX {
        (s, Seq::empty())
    } else {
        let r2 = (s.round + 1) as usize;
        let s1 = StateModel { round: r2, round_start: ts, rounds: extend_rounds(s.rounds, r2), ..s };
        if self_is_leader(s1, r2) {
            let (v, vr) = propose_value(s1);
            let rd = s1.rounds[r2 as int];
            let s2 = upd_round(s1, r2 as int, RoundModel { proposal: Some((v, vr)), ..rd });
            let (s3, rs3) = spec_self_prevote(s2, v);
            (s3, seq![ResponseModel::Proposal { proposal: v, valid_round: vr, round: r2 }] + rs3)
        } else {
            (s1, Seq::empty())
        }
    }
}

/// After a nil precommit joined the current round: a fresh nil quorum fails
/// the round and the engine moves on at once.
pub open spec fn spec_nil_precommit_check(s: StateModel, ts: Timestamp) -> (StateModel, Seq<ResponseModel>) {
    let r = s.round as int;
    let rd = s.rounds[r];
    if !rd.precommit_quorum && has_quorum(tally(s.validators, rd.precommits, None), total(s)) {
        let s1 = upd_round(s, r, RoundModel { precommit_quorum: true, ..rd });
        spec_advance(s1, ts)
    } else {
        (s, Seq::empty())
    }
}

/// After a prevote for `target` joined the current round: on a fresh quorum,
/// lock on a non-nil candidate and precommit it, or precommit nil.
pub open spec fn spec_after_prevote(
    s: StateModel,
    target: Option<BlockIdentifier>,
    ts: Timestamp,
) -> (StateModel, Seq<ResponseModel>) {
    let r = s.round as int;
    let rd = s.rounds[r];
    if !rd.prevote_quorum && has_quorum(tally(s.validators, rd.prevotes, target), total(s)) {
        let s1 = upd_round(s, r, RoundModel { prevote_quorum: true, ..rd });
        match target {
            Some(c) => {
                let s2 = lock_update(s1, c);
                spec_self_precommit_some(s2, c)
            },
            None => {
                let rdn = s1.rounds[r];
                match s1.this_node {
                    Some(me) => if !rdn.precommitted {
                        let rd1 = RoundModel {
                            precommitted: true,
                            precommits: if contains_signer(rdn.precommits, me) {
                                rdn.precommits
                            } else {
                                rdn.precommits.push(Vote { signer: me, target: None })
                            },
                            ..rdn
                        };
                        let s2 = upd_round(s1, r, rd1);
                        let (s3, rs3) = spec_nil_precommit_check(s2, ts);
                        (s3, seq![ResponseModel::Precommit { proposal: None, round: s.round }] + rs3)
                    } else {
                        (s1, Seq::empty())
                    },
                    None => (s1, Seq::empty()),
                }
            },
        }
    } else {
        (s, Seq::empty())
    }
}

/// After a precommit for `target` joined the current round.
pub open spec fn spec_after_precommit(
    s: StateModel,
    target: Option<BlockIdentifier>,
    ts: Timestamp,
) -> (StateModel, Seq<ResponseModel>) {
    match target {
        Some(c) => spec_finalize_check(s, c),
        None => spec_nil_precommit_check(s, ts),
    }
}

// ---------------------------------------------------------------------------
// Per-event transitions
// ---------------------------------------------------------------------------

/// Round-0 bootstrap; repeated `Start` events are no-ops.
pub open spec fn spec_start(s: StateModel, ts: Timestamp) -> (StateModel, Seq<ResponseModel>) {
    if s.started {
        (s, Seq::empty())
    } else {
        let s1 = StateModel { started: true, round_start: ts, ..s };
        if self_is_leader(s1, s1.round) {
            let (v, vr) = propose_value(s1);
            let r = s1.round as int;
            let rd = s1.rounds[r];
            let s2 = upd_round(s1, r, RoundModel { proposal: Some((v, vr)), ..rd });
            let (s3, rs3) = spec_self_prevote(s2, v);
            (s3, seq![ResponseModel::Proposal { proposal: v, valid_round: vr, round: s1.round }] + rs3)
        } else {
            (s1, Seq::empty())
        }
    }
}

/// A proposal is recorded first-seen for its round; if it is the active
/// round, the node casts its one prevote for the round, honoring its lock.
pub open spec fn spec_proposal(
    s: StateModel,
    proposal: BlockIdentifier,
    valid: bool,
    valid_round: Option<Round>,
    proposer: ValidatorIndex,
    round: Round,
    favor: bool,
    ts: Timestamp,
) -> Result<(StateModel, Seq<ResponseModel>), ConsensusError> {
    if proposer >= s.validators.len() {
        Err(ConsensusError::InvalidSigner)
    } else if round < s.round {
        Err(ConsensusError::StaleRound)
    } else if !valid {
        Err(ConsensusError::MalformedProposal)
    } else {
        let s1 = StateModel { rounds: extend_rounds(s.rounds, round), ..s };
        let rd = s1.rounds[round as int];
        let s2 = if rd.proposal is None {
            upd_round(s1, round as int, RoundModel { proposal: Some((proposal, valid_round)), ..rd })
        } else {
            s1
        };
        if round == s.round {
            let rd2 = s2.rounds[round as int];
            match s2.this_node {
                Some(me) => if !rd2.prevoted {
                    let target = if favor && lock_permits(s2, proposal, valid_round) {
                        Some(proposal)
                    } else {
                        None
                    };
                    let rd3 = RoundModel {
                        prevoted: true,
                        prevotes: if contains_signer(rd2.prevotes, me) {
                            rd2.prevotes
                        } else {
                            rd2.prevotes.push(Vote { signer: me, target })
                        },
                        ..rd2
                    };
                    let s3 = upd_round(s2, round as int, rd3);
                    let (s4, rs4) = spec_after_prevote(s3, target, ts);
                    Ok((s4, seq![ResponseModel::Prevote { proposal: target, round }] + rs4))
                } else {
                    Ok((s2, Seq::empty()))
                },
                None => Ok((s2, Seq::empty())),
            }
        } else {
            Ok((s2, Seq::empty()))
        }
    }
}

/// A prevote is deduplicated by signer (first seen wins) and tallied;
/// crossings are evaluated only in the active round.
pub open spec fn spec_prevote_ev(
    s: StateModel,
    proposal: Option<BlockIdentifier>,
    signer: ValidatorIndex,
    round: Round,
    ts: Timestamp,
) -> Result<(StateModel, Seq<ResponseModel>), ConsensusError> {
    if signer >= s.validators.len() {
        Err(ConsensusError::InvalidSigner)
    } else if round < s.round {
        Err(ConsensusError::StaleRound)
    } else {
        let s1 = StateModel { rounds: extend_rounds(s.rounds, round), ..s };
        let rd = s1.rounds[round as int];
        if contains_signer(rd.prevotes, signer) {
            Ok((s1, Seq::empty()))
        } else {
            let rd1 = RoundModel { prevotes: rd.prevotes.push(Vote { signer, target: proposal }), ..rd };
            let s2 = upd_round(s1, round as int, rd1);
            if round == s.round {
                Ok(spec_after_prevote(s2, proposal, ts))
            } else {
                Ok((s2, Seq::empty()))
            }
        }
    }
}

/// A precommit, with the same discipline as a prevote.
pub open spec fn spec_precommit_ev(
    s: StateModel,
    proposal: Option<BlockIdentifier>,
    signer: ValidatorIndex,
    round: Round,
    ts: Timestamp,
) -> Result<(StateModel, Seq<ResponseModel>), ConsensusError> {
    if signer >= s.validators.len() {
        Err(ConsensusError::InvalidSigner)
    } else if round < s.round {
        Err(ConsensusError::StaleRound)
    } else {
        let s1 = StateModel { rounds: extend_rounds(s.rounds, round), ..s };
        let rd = s1.rounds[round as int];
        if contains_signer(rd.precommits, signer) {
            Ok((s1, Seq::empty()))
        } else {
            let rd1 = RoundModel { precommits: rd.precommits.push(Vote { signer, target: proposal }), ..rd };
            let s2 = upd_round(s1, round as int, rd1);
            if round == s.round {
                Ok(spec_after_precommit(s2, proposal, ts))
            } else {
                Ok((s2, Seq::empty()))
            }
        }
    }
}

/// The round times out once `timeout_ms` elapsed since it started.
pub open spec fn spec_timer(s: StateModel, ts: Timestamp) -> (StateModel, Seq<ResponseModel>) {
    if s.started && ts >= s.round_start + s.timeout_ms {
        spec_advance(s, ts)
    } else {
        (s, Seq::empty())
    }
}

/// The single transition function of the engine.
pub open spec fn step(
    s: StateModel,
    ev: ConsensusEvent,
    ts: Timestamp,
) -> Result<(StateModel, Seq<ResponseModel>), ConsensusError> {
    if s.finalized is Some {
        Err(ConsensusError::AlreadyFinalized)
    } else {
        match ev {
            ConsensusEvent::Start => Ok(spec_start(s, ts)),
            ConsensusEvent::BlockProposalReceived { proposal, valid, valid_round, proposer, round, favor } =>
                spec_proposal(s, proposal, valid, valid_round, proposer, round, favor, ts),
            ConsensusEvent::Prevote { proposal, signer, round } =>
                spec_prevote_ev(s, proposal, signer, round, ts),
            ConsensusEvent::Precommit { proposal, signer, round } =>
                spec_precommit_ev(s, proposal, signer, round, ts),
            ConsensusEvent::Timer => Ok(spec_timer(s, ts)),
        }
    }
}

/// How a call of `process` must relate to the model.
pub open spec fn step_matches(
    s0: StateModel,
    ev: ConsensusEvent,
    ts: Timestamp,
    s1: StateModel,
    res: Result<Vec<ConsensusResponse>, ConsensusError>,
) -> bool {
    match step(s0, ev, ts) {
        Ok((s2, rs)) => res is Ok && abs_responses(res->Ok_0@) == rs && s1 == s2,
        Err(e) => res == Err::<Vec<ConsensusResponse>, ConsensusError>(e) && s1 == s0,
    }
}

// ---------------------------------------------------------------------------
// Arithmetic lemmas: a round's tally never exceeds the total weight
// ---------------------------------------------------------------------------

pub proof fn lemma_sum_take(v: Seq<VotingPower>, i: int)
    requires
        0 <= i <= v.len(),
    ensures
        sum_weights(v.take(i)) <= sum_weights(v),
    decreases v.len(),
{
    if i == v.len() {
        assert(v.take(i) =~= v);
    } else {
        assert(v.drop_last().take(i) =~= v.take(i));
        lemma_sum_take(v.drop_last(), i);
    }
}

pub proof fn lemma_sum_nonneg(v: Seq<VotingPower>)
    ensures
        0 <= sum_weights(v),
    decreases v.len(),
{
    if v.len() > 0 {
        lemma_sum_nonneg(v.drop_last());
    }
}

pub proof fn lemma_tally_nonneg(validators: Seq<VotingPower>, votes: Seq<Vote>, target: Option<BlockIdentifier>)
    requires
        signers_in_range(votes, validators.len() as int),
    ensures
        0 <= tally(validators, votes, target),
    decreases votes.len(),
{
    if votes.len() > 0 {
        lemma_tally_nonneg(validators, votes.drop_last(), target);
    }
}

pub proof fn lemma_wf_upd(s: StateModel, r: int, rd: RoundModel)
    requires
        wf(s),
        0 <= r < s.rounds.len(),
        round_wf(rd, s.validators.len() as int),
        s.round < r ==> future_clean(rd),
    ensures
        wf(upd_round(s, r, rd)),
{
    let s1 = upd_round(s, r, rd);
    assert forall|k: int| 0 <= k < s1.rounds.len()
        implies round_wf(#[trigger] s1.rounds[k], s1.validators.len() as int) by {
        if k != r {
            assert(s1.rounds[k] == s.rounds[k]);
        }
    }
    assert forall|k: int| s1.round < k < s1.rounds.len()
        implies future_clean(#[trigger] s1.rounds[k]) by {
        if k != r {
            assert(s1.rounds[k] == s.rounds[k]);
        }
    }
}

pub proof fn lemma_vote_push_wf(votes: Seq<Vote>, v: Vote, n: int)
    requires
        unique_signers(votes),
        signers_in_range(votes, n),
        !contains_signer(votes, v.signer),
        v.signer < n,
    ensures
        unique_signers(votes.push(v)),
        signers_in_range(votes.push(v), n),
{
    let vs = votes.push(v);
    assert forall|i: int, j: int| 0 <= i < j < vs.len() implies vs[i].signer != vs[j].signer by {
        if j == votes.len() {
            assert(vs[i] == votes[i]);
            if votes[i].signer == v.signer {
                assert(contains_signer(votes, v.signer));
            }
        } else {
            assert(vs[i] == votes[i] && vs[j] == votes[j]);
        }
    }
    assert forall|i: int| 0 <= i < vs.len() implies vs[i].signer < n by {
        if i < votes.len() {
            assert(vs[i] == votes[i]);
        }
    }
}


/// Weight covered by the signers appearing in `votes`, over the whole set.
pub open spec fn covered_weight(validators: Seq<VotingPower>, votes: Seq<Vote>) -> int
    decreases validators.len(),
{
    if validators.len() == 0 {
        0
    } else {
        covered_weight(validators.drop_last(), votes)
            + if contains_signer(votes, (validators.len() - 1) as usize) {
                validators.last() as int
            } else {
                0
            }
    }
}

proof fn lemma_covered_le_total(validators: Seq<VotingPower>, votes: Seq<Vote>)
    ensures
        covered_weight(validators, votes) <= sum_weights(validators),
    decreases validators.len(),
{
    if validators.len() > 0 {
        lemma_covered_le_total(validators.drop_last(), votes);
    }
}

proof fn lemma_covered_nonneg(validators: Seq<VotingPower>, votes: Seq<Vote>)
    ensures
        0 <= covered_weight(validators, votes),
    decreases validators.len(),
{
    if validators.len() > 0 {
        lemma_covered_nonneg(validators.drop_last(), votes);
    }
}

proof fn lemma_contains_push(votes: Seq<Vote>, v: Vote, s: ValidatorIndex)
    ensures
        contains_signer(votes.push(v), s) <==> (contains_signer(votes, s) || v.signer == s),
{
    if contains_signer(votes, s) {
        let i = choose|i: int| 0 <= i < votes.len() && votes[i].signer == s;
        assert(votes.push(v)[i].signer == s);
    }
    if v.signer == s {
        assert(votes.push(v)[votes.len() as int].signer == s);
    }
    if contains_signer(votes.push(v), s) {
        let i = choose|i: int| 0 <= i < votes.push(v).len() && votes.push(v)[i].signer == s;
        if i < votes.len() {
            assert(votes[i].signer == s);
        }
    }
}

proof fn lemma_covered_push(validators: Seq<VotingPower>, votes: Seq<Vote>, v: Vote)
    requires
        validators.len() <= usize::MAX,
        !contains_signer(votes, v.signer),
    ensures
        covered_weight(validators, votes.push(v)) == covered_weight(validators, votes)
            + if v.signer < validators.len() {
                validators[v.signer as int] as int
            } else {
                0
            },
    decreases validators.len(),
{
    if validators.len() > 0 {
        lemma_covered_push(validators.drop_last(), votes, v);
        lemma_contains_push(votes, v, (validators.len() - 1) as usize);
    }
}

proof fn lemma_tally_le_covered(validators: Seq<VotingPower>, votes: Seq<Vote>, target: Option<BlockIdentifier>)
    requires
        validators.len() <= usize::MAX,
        unique_signers(votes),
        signers_in_range(votes, validators.len() as int),
    ensures
        tally(validators, votes, target) <= covered_weight(validators, votes),
    decreases votes.len(),
{
    lemma_covered_nonneg(validators, votes);
    if votes.len() > 0 {
        let prefix = votes.drop_last();
        let last = votes.last();
        assert(votes[votes.len() - 1] == last);
        assert(last.signer < validators.len());
        lemma_tally_le_covered(validators, prefix, target);
        assert(!contains_signer(prefix, last.signer)) by {
            if contains_signer(prefix, last.signer) {
                let i = choose|i: int| 0 <= i < prefix.len() && prefix[i].signer == last.signer;
                assert(votes[i].signer == votes[votes.len() - 1].signer);
            }
        }
        lemma_covered_push(validators, prefix, last);
        assert(prefix.push(last) =~= votes);
        assert(covered_weight(validators, votes) == covered_weight(validators, prefix)
            + validators[last.signer as int]);
        assert(tally(validators, votes, target) == tally(validators, prefix, target)
            + vote_weight(validators, last, target));
        assert(vote_weight(validators, last, target) <= validators[last.signer as int]);
    }
}

proof fn lemma_tally2_le_covered(
    validators: Seq<VotingPower>,
    votes: Seq<Vote>,
    t1: Option<BlockIdentifier>,
    t2: Option<BlockIdentifier>,
)
    requires
        validators.len() <= usize::MAX,
        unique_signers(votes),
        signers_in_range(votes, validators.len() as int),
        t1 != t2,
    ensures
        tally(validators, votes, t1) + tally(validators, votes, t2) <= covered_weight(validators, votes),
    decreases votes.len(),
{
    lemma_covered_nonneg(validators, votes);
    if votes.len() > 0 {
        let prefix = votes.drop_last();
        let last = votes.last();
        assert(votes[votes.len() - 1] == last);
        assert(last.signer < validators.len());
        lemma_tally2_le_covered(validators, prefix, t1, t2);
        assert(!contains_signer(prefix, last.signer)) by {
            if contains_signer(prefix, last.signer) {
                let i = choose|i: int| 0 <= i < prefix.len() && prefix[i].signer == last.signer;
                assert(votes[i].signer == votes[votes.len() - 1].signer);
            }
        }
        lemma_covered_push(validators, prefix, last);
        assert(prefix.push(last) =~= votes);
        assert(vote_weight(validators, last, t1) + vote_weight(validators, last, t2)
            <= validators[last.signer as int]);
    }
}

/// Two different targets cannot both hold a strict two-thirds quorum in one
/// round: the finalized candidate is unique.
pub proof fn lemma_quorum_unique(
    validators: Seq<VotingPower>,
    votes: Seq<Vote>,
    t1: Option<BlockIdentifier>,
    t2: Option<BlockIdentifier>,
)
    requires
        validators.len() <= usize::MAX,
        unique_signers(votes),
        signers_in_range(votes, validators.len() as int),
        has_quorum(tally(validators, votes, t1), sum_weights(validators)),
        has_quorum(tally(validators, votes, t2), sum_weights(validators)),
    ensures
        t1 == t2,
{
    if t1 != t2 {
        lemma_tally2_le_covered(validators, votes, t1, t2);
        lemma_covered_le_total(validators, votes);
        lemma_sum_nonneg(validators);
    }
}

/// With unique, in-range signers, a tally never exceeds the total weight.
pub proof fn lemma_tally_le_total(validators: Seq<VotingPower>, votes: Seq<Vote>, target: Option<BlockIdentifier>)
    requires
        validators.len() <= usize::MAX,
        unique_signers(votes),
        signers_in_range(votes, validators.len() as int),
    ensures
        0 <= tally(validators, votes, target) <= sum_weights(validators),
{
    lemma_tally_le_covered(validators, votes, target);
    lemma_covered_le_total(validators, votes);
    lemma_tally_nonneg(validators, votes, target);
}

} // verus!
