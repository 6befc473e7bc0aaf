//! The executable consensus engine, proved to follow the transition model
//! in [`crate::model`] exactly.

use vstd::prelude::*;
use crate::types::{BlockIdentifier, ConsensusError, ConsensusEvent, ConsensusParams, ConsensusResponse, HeightInfo, Round, Timestamp, ValidatorIndex, Vote, VotingPower};
use crate::model::{
    abs_response, abs_responses, contains_signer, empty_round, extend_rounds, future_clean,
    has_quorum, init_state, lemma_sum_take, lemma_tally_le_total, lemma_vote_push_wf,
    lemma_wf_upd, lock_permits, lock_update,
    proof_signers, round_wf, self_is_leader, signers_in_range, spec_advance,
    spec_after_precommit, spec_after_prevote, spec_finalize_check, spec_leader,
    spec_nil_precommit_check, spec_precommit_ev, spec_prevote_ev, spec_proposal,
    spec_self_precommit_some, spec_self_prevote, spec_start, spec_timer, step, step_matches,
    sum_weights, tally, unique_signers, upd_round, voted_for, RoundModel, StateModel,
    ResponseModel,
};

verus! {

/// One round's bookkeeping, exclusively owned by the engine.
#[derive(Clone)]
pub struct RoundData {
    pub proposal: Option<(BlockIdentifier, Option<Round>)>,
    pub prevotes: Vec<Vote>,
    pub precommits: Vec<Vote>,
    pub prevoted: bool,
    pub precommitted: bool,
    pub prevote_quorum: bool,
    pub precommit_quorum: bool,
}

impl View for RoundData {
    type V = RoundModel;

    open spec fn view(&self) -> RoundModel {
        RoundModel {
            proposal: self.proposal,
            prevotes: self.prevotes@,
            precommits: self.precommits@,
            prevoted: self.prevoted,
            precommitted: self.precommitted,
            prevote_quorum: self.prevote_quorum,
            precommit_quorum: self.precommit_quorum,
        }
    }
}

pub open spec fn rounds_view(s: Seq<RoundData>) -> Seq<RoundModel> {
    Seq::new(s.len(), |i: int| s[i]@)
}

/// The consensus engine for one height.
#[derive(Clone)]
pub struct Vetomint {
    pub validators: Vec<VotingPower>,
    pub this_node: Option<ValidatorIndex>,
    pub timeout_ms: u64,
    pub repeat_round_for_first_leader: usize,
    pub initial_candidate: BlockIdentifier,
    pub started: bool,
    pub round: Round,
    pub round_start: Timestamp,
    pub rounds: Vec<RoundData>,
    pub locked: Option<(BlockIdentifier, Round)>,
    pub finalized: Option<(BlockIdentifier, Vec<ValidatorIndex>)>,
}

impl View for Vetomint {
    type V = StateModel;

    open spec fn view(&self) -> StateModel {
        StateModel {
            validators: self.validators@,
            this_node: self.this_node,
            timeout_ms: self.timeout_ms,
            repeat_round_for_first_leader: self.repeat_round_for_first_leader,
            initial_candidate: self.initial_candidate,
            started: self.started,
            round: self.round,
            round_start: self.round_start,
            rounds: rounds_view(self.rounds@),
            locked: self.locked,
            finalized: match self.finalized {
                Some((c, prf)) => Some((c, prf@)),
                None => None,
            },
        }
    }
}

// ---------------------------------------------------------------------------
// Small verified primitives
// ---------------------------------------------------------------------------

fn opt_eq(a: Option<BlockIdentifier>, b: Option<BlockIdentifier>) -> (r: bool)
    ensures
        r == (a == b),
{
    match (a, b) {
        (None, None) => true,
        (Some(x), Some(y)) => x == y,
        _ => false,
    }
}

fn contains_signer_exec(votes: &Vec<Vote>, signer: ValidatorIndex) -> (r: bool)
    ensures
        r == contains_signer(votes@, signer),
{
    let mut i: usize = 0;
    while i < votes.len()
        invariant
            i <= votes.len(),
            forall|j: int| 0 <= j < i ==> votes@[j].signer != signer,
        decreases votes.len() - i,
    {
        if votes[i].signer == signer {
            assert(contains_signer(votes@, signer));
            return true;
        }
        i += 1;
    }
    false
}

fn voted_for_exec(votes: &Vec<Vote>, signer: ValidatorIndex, target: Option<BlockIdentifier>) -> (r: bool)
    ensures
        r == voted_for(votes@, signer, target),
{
    let mut i: usize = 0;
    while i < votes.len()
        invariant
            i <= votes.len(),
            forall|j: int| 0 <= j < i ==> !(votes@[j].signer == signer && votes@[j].target == target),
        decreases votes.len() - i,
    {
        if votes[i].signer == signer && opt_eq(votes[i].target, target) {
            assert(voted_for(votes@, signer, target));
            return true;
        }
        i += 1;
    }
    false
}

/// Total weight of the validator set.
fn total_weight(validators: &Vec<VotingPower>) -> (t: u64)
    requires
        sum_weights(validators@) <= u64::MAX,
    ensures
        t as int == sum_weights(validators@),
{
    let mut acc: u64 = 0;
    let mut i: usize = 0;
    while i < validators.len()
        invariant
            i <= validators.len(),
            sum_weights(validators@) <= u64::MAX,
            acc as int == sum_weights(validators@.take(i as int)),
        decreases validators.len() - i,
    {
        proof {
            assert(validators@.take(i + 1).drop_last() =~= validators@.take(i as int));
            assert(validators@.take(i + 1).last() == validators@[i as int]);
            lemma_sum_take(validators@, i + 1);
            crate::model::lemma_sum_nonneg(validators@.take(i + 1));
        }
        acc = acc + validators[i];
        i += 1;
    }
    proof {
        assert(validators@.take(validators@.len() as int) =~= validators@);
    }
    acc
}

/// Accumulated signer weight for `target`.
fn tally_weight(validators: &Vec<VotingPower>, votes: &Vec<Vote>, target: Option<BlockIdentifier>) -> (w: u64)
    requires
        unique_signers(votes@),
        signers_in_range(votes@, validators@.len() as int),
        sum_weights(validators@) <= u64::MAX,
    ensures
        w as int == tally(validators@, votes@, target),
{
    let mut acc: u64 = 0;
    let mut i: usize = 0;
    while i < votes.len()
        invariant
            i <= votes.len(),
            unique_signers(votes@),
            signers_in_range(votes@, validators@.len() as int),
            sum_weights(validators@) <= u64::MAX,
            acc as int == tally(validators@, votes@.take(i as int), target),
        decreases votes.len() - i,
    {
        proof {
            assert(votes@.take(i + 1).drop_last() =~= votes@.take(i as int));
            assert(votes@.take(i + 1).last() == votes@[i as int]);
            assert(unique_signers(votes@.take(i + 1)));
            assert(signers_in_range(votes@.take(i + 1), validators@.len() as int));
            assert(validators@.len() == validators.len());
            lemma_tally_le_total(validators@, votes@.take(i + 1), target);
        }
        let v = votes[i];
        if opt_eq(v.target, target) {
            assert(v.signer < validators@.len());
            acc = acc + validators[v.signer];
        }
        i += 1;
    }
    proof {
        assert(votes@.take(votes@.len() as int) =~= votes@);
    }
    acc
}

/// Strict integer two-thirds test, free of overflow.
fn exceeds_two_thirds(weight: u64, total_w: u64) -> (b: bool)
    ensures
        b == has_quorum(weight as int, total_w as int),
{
    3u128 * (weight as u128) > 2u128 * (total_w as u128)
}

/// The signers among `0 .. n` that voted for `target`, in increasing order.
fn collect_proof(votes: &Vec<Vote>, n: usize, target: Option<BlockIdentifier>) -> (p: Vec<ValidatorIndex>)
    ensures
        p@ == proof_signers(votes@, n as nat, target),
{
    let mut p: Vec<ValidatorIndex> = Vec::new();
    let mut i: usize = 0;
    while i < n
        invariant
            i <= n,
            p@ == proof_signers(votes@, i as nat, target),
        decreases n - i,
    {
        if voted_for_exec(votes, i, target) {
            p.push(i);
        }
        proof {
            if voted_for(votes@, (i) as usize, target) {
                assert(p@ =~= proof_signers(votes@, (i + 1) as nat, target));
            } else {
                assert(p@ =~= proof_signers(votes@, (i + 1) as nat, target));
            }
        }
        i += 1;
    }
    p
}

// ---------------------------------------------------------------------------
// Lemmas connecting concrete mutation to the model
// ---------------------------------------------------------------------------

proof fn lemma_rounds_view_update(s: Seq<RoundData>, i: int, x: RoundData)
    requires
        0 <= i < s.len(),
    ensures
        rounds_view(s.update(i, x)) == rounds_view(s).update(i, x@),
{
    assert(rounds_view(s.update(i, x)) =~= rounds_view(s).update(i, x@));
}

proof fn lemma_abs_push(s: Seq<ConsensusResponse>, r: ConsensusResponse)
    ensures
        abs_responses(s.push(r)) == abs_responses(s).push(abs_response(r)),
{
    assert(abs_responses(s.push(r)) =~= abs_responses(s).push(abs_response(r)));
}

/// Grows the round table in place so that index `r` exists.
fn extend_vec_rounds(rounds: &mut Vec<RoundData>, r: Round)
    ensures
        rounds_view(final(rounds)@) == extend_rounds(rounds_view(old(rounds)@), r),
{
    while rounds.len() <= r
        invariant
            rounds@.len() >= old(rounds)@.len(),
            rounds@.len() <= if old(rounds)@.len() > r { old(rounds)@.len() as int } else { r + 1 },
            forall|i: int| 0 <= i < old(rounds)@.len() ==> rounds@[i] == old(rounds)@[i],
            forall|i: int| old(rounds)@.len() <= i < rounds@.len() ==> (#[trigger] rounds@[i])@ == empty_round(),
        decreases r + 1 - rounds@.len(),
    {
        rounds.push(RoundData {
            proposal: None,
            prevotes: Vec::new(),
            precommits: Vec::new(),
            prevoted: false,
            precommitted: false,
            prevote_quorum: false,
            precommit_quorum: false,
        });
    }
    proof {
        assert(rounds_view(rounds@) =~= extend_rounds(rounds_view(old(rounds)@), r));
    }
}

/// The proposer of a round.
fn leader_of(round: Round, n: usize, repeat: usize) -> (r: usize)
    requires
        n > 0,
    ensures
        r as int == spec_leader(round, n as int, repeat),
        r < n,
{
    if round < repeat {
        0
    } else if repeat == 0 {
        round % n
    } else {
        (round - repeat + 1) % n
    }
}

// ---------------------------------------------------------------------------
// The threshold cascade
// ---------------------------------------------------------------------------

impl Vetomint {
    /// Whether the local node proposes round `r`.
    fn is_self_leader(&self, r: Round) -> (b: bool)
        requires
            self.validators@.len() > 0,
        ensures
            b == self_is_leader(self@, r),
    {
        match self.this_node {
            Some(me) => leader_of(r, self.validators.len(), self.repeat_round_for_first_leader) == me,
            None => false,
        }
    }

    /// Finalizes the height on a fresh non-nil precommit quorum for `c`.
    fn do_finalize_check(&mut self, c: BlockIdentifier, out: &mut Vec<ConsensusResponse>)
        requires
            crate::model::wf(old(self)@),
        ensures
            crate::model::wf(final(self)@),
            ({
                let (s2, rs) = spec_finalize_check(old(self)@, c);
                final(self)@ == s2 && abs_responses(final(out)@) == abs_responses(old(out)@) + rs
            }),
    {
        let ghost s0 = self@;
        let r = self.round;
        assert(r < self.rounds@.len());
        let w = tally_weight(&self.validators, &self.rounds[r].precommits, Some(c));
        let t = total_weight(&self.validators);
        if !self.rounds[r].precommit_quorum && exceeds_two_thirds(w, t) {
            let n = self.validators.len();
            let prf = collect_proof(&self.rounds[r].precommits, n, Some(c));
            let prf2 = collect_proof(&self.rounds[r].precommits, n, Some(c));
                let ghost rvec = self.rounds@;
            {
                let rd = &mut self.rounds[r];
                rd.precommit_quorum = true;
            }
            self.finalized = Some((c, prf2));
            proof {
                let rd1 = RoundModel { precommit_quorum: true, ..s0.rounds[r as int] };
                lemma_rounds_view_update(rvec, r as int, self.rounds@[r as int]);
                let (s2, rs) = spec_finalize_check(s0, c);
                assert(self@ =~~= s2);
                lemma_wf_upd(s0, r as int, rd1);
            }
            out.push(ConsensusResponse::FinalizeBlock { proposal: c, proof: prf });
            proof {
                lemma_abs_push(old(out)@, ConsensusResponse::FinalizeBlock { proposal: c, proof: prf });
                let (s2, rs) = spec_finalize_check(s0, c);
                assert(abs_responses(out@) =~= abs_responses(old(out)@) + rs);
            }
        } else {
            proof {
                assert(abs_responses(out@) =~= abs_responses(old(out)@) + Seq::<ResponseModel>::empty());
            }
        }
    }

    /// Broadcasts and records the node's own precommit for `Some(c)`.
    fn do_self_precommit_some(&mut self, c: BlockIdentifier, out: &mut Vec<ConsensusResponse>)
        requires
            crate::model::wf(old(self)@),
        ensures
            crate::model::wf(final(self)@),
            ({
                let (s2, rs) = spec_self_precommit_some(old(self)@, c);
                final(self)@ == s2 && abs_responses(final(out)@) == abs_responses(old(out)@) + rs
            }),
    {
        let ghost s0 = self@;
        let r = self.round;
        assert(r < self.rounds@.len());
        match self.this_node {
            None => {
                proof {
                    assert(abs_responses(out@) =~= abs_responses(out@) + Seq::<ResponseModel>::empty());
                }
            },
            Some(me) => {
                if !self.rounds[r].precommitted {
                    let seen = contains_signer_exec(&self.rounds[r].precommits, me);
                        let ghost rvec = self.rounds@;
                    {
                        let rd = &mut self.rounds[r];
                        rd.precommitted = true;
                        if !seen {
                            rd.precommits.push(Vote { signer: me, target: Some(c) });
                        }
                    }
                    proof {
                        let rd1 = RoundModel {
                            precommitted: true,
                            precommits: if contains_signer(s0.rounds[r as int].precommits, me) {
                                s0.rounds[r as int].precommits
                            } else {
                                s0.rounds[r as int].precommits.push(Vote { signer: me, target: Some(c) })
                            },
                            ..s0.rounds[r as int]
                        };
                        lemma_rounds_view_update(rvec, r as int, self.rounds@[r as int]);
                        assert(self@ =~~= upd_round(s0, r as int, rd1));
                        if !seen {
                            lemma_vote_push_wf(
                                s0.rounds[r as int].precommits,
                                Vote { signer: me, target: Some(c) },
                                s0.validators.len() as int,
                            );
                        }
                        lemma_wf_upd(s0, r as int, rd1);
                    }
                    out.push(ConsensusResponse::BroadcastPrecommit { proposal: Some(c), round: r });
                    proof {
                        lemma_abs_push(old(out)@, ConsensusResponse::BroadcastPrecommit { proposal: Some(c), round: r });
                    }
                    self.do_finalize_check(c, out);
                    proof {
                        let (s2, rs) = spec_self_precommit_some(s0, c);
                        assert(self@ == s2);
                        assert(abs_responses(out@) =~= abs_responses(old(out)@) + rs);
                    }
                } else {
                    proof {
                        assert(abs_responses(out@) =~= abs_responses(out@) + Seq::<ResponseModel>::empty());
                    }
                }
            },
        }
    }

    /// Broadcasts and records the node's own prevote for `Some(v)`; its own
    /// vote may complete a quorum.
    fn do_self_prevote(&mut self, v: BlockIdentifier, out: &mut Vec<ConsensusResponse>)
        requires
            crate::model::wf(old(self)@),
        ensures
            crate::model::wf(final(self)@),
            ({
                let (s2, rs) = spec_self_prevote(old(self)@, v);
                final(self)@ == s2 && abs_responses(final(out)@) == abs_responses(old(out)@) + rs
            }),
    {
        let ghost s0 = self@;
        let r = self.round;
        assert(r < self.rounds@.len());
        match self.this_node {
            None => {
                proof {
                    assert(abs_responses(out@) =~= abs_responses(out@) + Seq::<ResponseModel>::empty());
                }
            },
            Some(me) => {
                if !self.rounds[r].prevoted {
                    let seen = contains_signer_exec(&self.rounds[r].prevotes, me);
                        let ghost rvec = self.rounds@;
                    {
                        let rd = &mut self.rounds[r];
                        rd.prevoted = true;
                        if !seen {
                            rd.prevotes.push(Vote { signer: me, target: Some(v) });
                        }
                    }
                    proof {
                        let rd1 = RoundModel {
                            prevoted: true,
                            prevotes: if contains_signer(s0.rounds[r as int].prevotes, me) {
                                s0.rounds[r as int].prevotes
                            } else {
                                s0.rounds[r as int].prevotes.push(Vote { signer: me, target: Some(v) })
                            },
                            ..s0.rounds[r as int]
                        };
                        lemma_rounds_view_update(rvec, r as int, self.rounds@[r as int]);
                        assert(self@ =~~= upd_round(s0, r as int, rd1));
                        if !seen {
                            lemma_vote_push_wf(
                                s0.rounds[r as int].prevotes,
                                Vote { signer: me, target: Some(v) },
                                s0.validators.len() as int,
                            );
                        }
                        lemma_wf_upd(s0, r as int, rd1);
                    }
                    out.push(ConsensusResponse::BroadcastPrevote { proposal: Some(v), round: r });
                    proof {
                        lemma_abs_push(old(out)@, ConsensusResponse::BroadcastPrevote { proposal: Some(v), round: r });
                    }
                    let ghost s1 = self@;
                    let w = tally_weight(&self.validators, &self.rounds[r].prevotes, Some(v));
                    let t = total_weight(&self.validators);
                    if !self.rounds[r].prevote_quorum && exceeds_two_thirds(w, t) {
                            let ghost rvec = self.rounds@;
                        {
                            let rd = &mut self.rounds[r];
                            rd.prevote_quorum = true;
                        }
                        proof {
                            let rd2 = RoundModel { prevote_quorum: true, ..s1.rounds[r as int] };
                            lemma_rounds_view_update(rvec, r as int, self.rounds@[r as int]);
                            assert(self@ =~~= upd_round(s1, r as int, rd2));
                            lemma_wf_upd(s1, r as int, rd2);
                        }
                        let do_lock = match self.locked {
                            Some((lv, _)) => lv != v,
                            None => true,
                        };
                        if do_lock {
                            self.locked = Some((v, r));
                        }
                        let ghost s2b = self@;
                        proof {
                            assert(s2b =~~= lock_update(upd_round(s1, r as int, RoundModel { prevote_quorum: true, ..s1.rounds[r as int] }), v));
                        }
                        self.do_self_precommit_some(v, out);
                        proof {
                            let (s2, rs) = spec_self_prevote(s0, v);
                            assert(self@ == s2);
                            assert(abs_responses(out@) =~= abs_responses(old(out)@) + rs);
                        }
                    } else {
                        proof {
                            let (s2, rs) = spec_self_prevote(s0, v);
                            assert(self@ == s2);
                            assert(abs_responses(out@) =~= abs_responses(old(out)@) + rs);
                        }
                    }
                } else {
                    proof {
                        assert(abs_responses(out@) =~= abs_responses(out@) + Seq::<ResponseModel>::empty());
                    }
                }
            },
        }
    }

    /// Moves to the next round; the new proposer re-proposes its locked
    /// value, or its initial candidate.
    fn do_advance(&mut self, ts: Timestamp, out: &mut Vec<ConsensusResponse>)
        requires
            crate::model::wf(old(self)@),
        ensures
            crate::model::wf(final(self)@),
            ({
                let (s2, rs) = spec_advance(old(self)@, ts);
                final(self)@ == s2 && abs_responses(final(out)@) == abs_responses(old(out)@) + rs
            }),
    {
        let ghost s0 = self@;
        if self.round == usize::MAX {
            proof {
                assert(abs_responses(out@) =~= abs_responses(out@) + Seq::<ResponseModel>::empty());
            }
            return;
        }
        let r2 = self.round + 1;
        self.round = r2;
        self.round_start = ts;
        extend_vec_rounds(&mut self.rounds, r2);
        let ghost s1 = StateModel { round: r2, round_start: ts, rounds: extend_rounds(s0.rounds, r2), ..s0 };
        proof {
            assert(self@ =~~= s1);
            assert(s1.rounds.len() > r2);
            assert forall|k: int| 0 <= k < s1.rounds.len()
                implies round_wf(#[trigger] s1.rounds[k], s1.validators.len() as int) by {
                if k < s0.rounds.len() {
                    assert(s1.rounds[k] == s0.rounds[k]);
                } else {
                    assert(s1.rounds[k] == empty_round());
                }
            }
            assert forall|k: int| s1.round < k < s1.rounds.len()
                implies future_clean(#[trigger] s1.rounds[k]) by {
                if k < s0.rounds.len() {
                    assert(s1.rounds[k] == s0.rounds[k]);
                } else {
                    assert(s1.rounds[k] == empty_round());
                }
            }
            assert(crate::model::wf(s1));
        }
        if self.is_self_leader(r2) {
            let (v, vr) = match self.locked {
                Some((lv, lr)) => (lv, Some(lr)),
                None => (self.initial_candidate, None),
            };
                let ghost rvec = self.rounds@;
            {
                let rd = &mut self.rounds[r2];
                rd.proposal = Some((v, vr));
            }
            proof {
                let rd1 = RoundModel { proposal: Some((v, vr)), ..s1.rounds[r2 as int] };
                lemma_rounds_view_update(rvec, r2 as int, self.rounds@[r2 as int]);
                assert(self@ =~~= upd_round(s1, r2 as int, rd1));
                lemma_wf_upd(s1, r2 as int, rd1);
            }
            out.push(ConsensusResponse::BroadcastProposal { proposal: v, valid_round: vr, round: r2 });
            proof {
                lemma_abs_push(old(out)@, ConsensusResponse::BroadcastProposal { proposal: v, valid_round: vr, round: r2 });
            }
            self.do_self_prevote(v, out);
            proof {
                let (s2, rs) = spec_advance(s0, ts);
                assert(self@ == s2);
                assert(abs_responses(out@) =~= abs_responses(old(out)@) + rs);
            }
        } else {
            proof {
                let (s2, rs) = spec_advance(s0, ts);
                assert(self@ == s2);
                assert(abs_responses(out@) =~= abs_responses(old(out)@) + rs);
            }
        }
    }

    /// Fails the round on a fresh nil precommit quorum and moves on.
    fn do_nil_precommit_check(&mut self, ts: Timestamp, out: &mut Vec<ConsensusResponse>)
        requires
            crate::model::wf(old(self)@),
        ensures
            crate::model::wf(final(self)@),
            ({
                let (s2, rs) = spec_nil_precommit_check(old(self)@, ts);
                final(self)@ == s2 && abs_responses(final(out)@) == abs_responses(old(out)@) + rs
            }),
    {
        let ghost s0 = self@;
        let r = self.round;
        assert(r < self.rounds@.len());
        let w = tally_weight(&self.validators, &self.rounds[r].precommits, None);
        let t = total_weight(&self.validators);
        if !self.rounds[r].precommit_quorum && exceeds_two_thirds(w, t) {
                let ghost rvec = self.rounds@;
            {
                let rd = &mut self.rounds[r];
                rd.precommit_quorum = true;
            }
            proof {
                let rd1 = RoundModel { precommit_quorum: true, ..s0.rounds[r as int] };
                lemma_rounds_view_update(rvec, r as int, self.rounds@[r as int]);
                assert(self@ =~~= upd_round(s0, r as int, rd1));
                lemma_wf_upd(s0, r as int, rd1);
            }
            self.do_advance(ts, out);
            proof {
                let (s2, rs) = spec_nil_precommit_check(s0, ts);
                assert(self@ == s2);
                assert(abs_responses(out@) == abs_responses(old(out)@) + rs);
            }
        } else {
            proof {
                assert(abs_responses(out@) =~= abs_responses(out@) + Seq::<ResponseModel>::empty());
            }
        }
    }

    /// Handles a fresh prevote quorum in the active round.
    fn do_after_prevote(&mut self, target: Option<BlockIdentifier>, ts: Timestamp, out: &mut Vec<ConsensusResponse>)
        requires
            crate::model::wf(old(self)@),
        ensures
            crate::model::wf(final(self)@),
            ({
                let (s2, rs) = spec_after_prevote(old(self)@, target, ts);
                final(self)@ == s2 && abs_responses(final(out)@) == abs_responses(old(out)@) + rs
            }),
    {
        let ghost s0 = self@;
        let r = self.round;
        assert(r < self.rounds@.len());
        let w = tally_weight(&self.validators, &self.rounds[r].prevotes, target);
        let t = total_weight(&self.validators);
        if !self.rounds[r].prevote_quorum && exceeds_two_thirds(w, t) {
                let ghost rvec = self.rounds@;
            {
                let rd = &mut self.rounds[r];
                rd.prevote_quorum = true;
            }
            let ghost s1 = upd_round(s0, r as int, RoundModel { prevote_quorum: true, ..s0.rounds[r as int] });
            proof {
                lemma_rounds_view_update(rvec, r as int, self.rounds@[r as int]);
                assert(self@ =~~= s1);
                lemma_wf_upd(s0, r as int, RoundModel { prevote_quorum: true, ..s0.rounds[r as int] });
            }
            match target {
                Some(c) => {
                    let do_lock = match self.locked {
                        Some((lv, _)) => lv != c,
                        None => true,
                    };
                    if do_lock {
                        self.locked = Some((c, r));
                    }
                    proof {
                        assert(self@ =~~= lock_update(s1, c));
                    }
                    self.do_self_precommit_some(c, out);
                    proof {
                        let (s2, rs) = spec_after_prevote(s0, target, ts);
                        assert(self@ == s2);
                        assert(abs_responses(out@) == abs_responses(old(out)@) + rs);
                    }
                },
                None => {
                    match self.this_node {
                        Some(me) => {
                            if !self.rounds[r].precommitted {
                                let seen = contains_signer_exec(&self.rounds[r].precommits, me);
                                    let ghost rvec = self.rounds@;
                                {
                                    let rd = &mut self.rounds[r];
                                    rd.precommitted = true;
                                    if !seen {
                                        rd.precommits.push(Vote { signer: me, target: None });
                                    }
                                }
                                proof {
                                    let rd1 = RoundModel {
                                        precommitted: true,
                                        precommits: if contains_signer(s1.rounds[r as int].precommits, me) {
                                            s1.rounds[r as int].precommits
                                        } else {
                                            s1.rounds[r as int].precommits.push(Vote { signer: me, target: None })
                                        },
                                        ..s1.rounds[r as int]
                                    };
                                    lemma_rounds_view_update(rvec, r as int, self.rounds@[r as int]);
                                    assert(self@ =~~= upd_round(s1, r as int, rd1));
                                    if !seen {
                                        lemma_vote_push_wf(
                                            s1.rounds[r as int].precommits,
                                            Vote { signer: me, target: None },
                                            s1.validators.len() as int,
                                        );
                                    }
                                    lemma_wf_upd(s1, r as int, rd1);
                                }
                                out.push(ConsensusResponse::BroadcastPrecommit { proposal: None, round: r });
                                proof {
                                    lemma_abs_push(old(out)@, ConsensusResponse::BroadcastPrecommit { proposal: None, round: r });
                                }
                                self.do_nil_precommit_check(ts, out);
                                proof {
                                    let (s2, rs) = spec_after_prevote(s0, target, ts);
                                    assert(self@ == s2);
                                    assert(abs_responses(out@) =~= abs_responses(old(out)@) + rs);
                                }
                            } else {
                                proof {
                                    assert(abs_responses(out@) =~= abs_responses(out@) + Seq::<ResponseModel>::empty());
                                }
                            }
                        },
                        None => {
                            proof {
                                assert(abs_responses(out@) =~= abs_responses(out@) + Seq::<ResponseModel>::empty());
                            }
                        },
                    }
                },
            }
        } else {
            proof {
                assert(abs_responses(out@) =~= abs_responses(out@) + Seq::<ResponseModel>::empty());
            }
        }
    }

    /// Handles a fresh precommit quorum in the active round.
    fn do_after_precommit(&mut self, target: Option<BlockIdentifier>, ts: Timestamp, out: &mut Vec<ConsensusResponse>)
        requires
            crate::model::wf(old(self)@),
        ensures
            crate::model::wf(final(self)@),
            ({
                let (s2, rs) = spec_after_precommit(old(self)@, target, ts);
                final(self)@ == s2 && abs_responses(final(out)@) == abs_responses(old(out)@) + rs
            }),
    {
        match target {
            Some(c) => self.do_finalize_check(c, out),
            None => self.do_nil_precommit_check(ts, out),
        }
    }
}

// ---------------------------------------------------------------------------
// Event handlers and the public interface
// ---------------------------------------------------------------------------

impl Vetomint {
    fn handle_start(&mut self, ts: Timestamp, out: &mut Vec<ConsensusResponse>)
        requires
            crate::model::wf(old(self)@),
        ensures
            crate::model::wf(final(self)@),
            ({
                let (s2, rs) = spec_start(old(self)@, ts);
                final(self)@ == s2 && abs_responses(final(out)@) == abs_responses(old(out)@) + rs
            }),
    {
        let ghost s0 = self@;
        if self.started {
            proof {
                assert(abs_responses(out@) =~= abs_responses(out@) + Seq::<ResponseModel>::empty());
            }
            return;
        }
        self.started = true;
        self.round_start = ts;
        let ghost s1 = StateModel { started: true, round_start: ts, ..s0 };
        proof {
            assert(self@ =~~= s1);
        }
        let r = self.round;
        if self.is_self_leader(r) {
            let (v, vr) = match self.locked {
                Some((lv, lr)) => (lv, Some(lr)),
                None => (self.initial_candidate, None),
            };
            let ghost rvec = self.rounds@;
            {
                let rd = &mut self.rounds[r];
                rd.proposal = Some((v, vr));
            }
            proof {
                let rd1 = RoundModel { proposal: Some((v, vr)), ..s1.rounds[r as int] };
                lemma_rounds_view_update(rvec, r as int, self.rounds@[r as int]);
                assert(self@ =~~= upd_round(s1, r as int, rd1));
                lemma_wf_upd(s1, r as int, rd1);
            }
            out.push(ConsensusResponse::BroadcastProposal { proposal: v, valid_round: vr, round: r });
            proof {
                lemma_abs_push(old(out)@, ConsensusResponse::BroadcastProposal { proposal: v, valid_round: vr, round: r });
            }
            self.do_self_prevote(v, out);
            proof {
                let (s2, rs) = spec_start(s0, ts);
                assert(self@ == s2);
                assert(abs_responses(out@) =~= abs_responses(old(out)@) + rs);
            }
        } else {
            proof {
                let (s2, rs) = spec_start(s0, ts);
                assert(self@ == s2);
                assert(abs_responses(out@) =~= abs_responses(old(out)@) + rs);
            }
        }
    }

    fn handle_proposal(
        &mut self,
        proposal: BlockIdentifier,
        valid: bool,
        valid_round: Option<Round>,
        proposer: ValidatorIndex,
        round: Round,
        favor: bool,
        ts: Timestamp,
        out: &mut Vec<ConsensusResponse>,
    ) -> (r: Result<(), ConsensusError>)
        requires
            crate::model::wf(old(self)@),
        ensures
            crate::model::wf(final(self)@),
            (match spec_proposal(old(self)@, proposal, valid, valid_round, proposer, round, favor, ts) {
                Ok((s2, rs)) => r is Ok && final(self)@ == s2
                    && abs_responses(final(out)@) == abs_responses(old(out)@) + rs,
                Err(e) => r == Err::<(), ConsensusError>(e) && final(self)@ == old(self)@
                    && final(out)@ == old(out)@,
            }),
    {
        if proposer >= self.validators.len() {
            return Err(ConsensusError::InvalidSigner);
        }
        if round < self.round {
            return Err(ConsensusError::StaleRound);
        }
        if !valid {
            return Err(ConsensusError::MalformedProposal);
        }
        let ghost s0 = self@;
        extend_vec_rounds(&mut self.rounds, round);
        let ghost s1 = StateModel { rounds: extend_rounds(s0.rounds, round), ..s0 };
        proof {
            assert(self@ =~~= s1);
            assert(s1.rounds.len() > round);
            assert forall|k: int| 0 <= k < s1.rounds.len()
                implies round_wf(#[trigger] s1.rounds[k], s1.validators.len() as int) by {
                if k < s0.rounds.len() {
                    assert(s1.rounds[k] == s0.rounds[k]);
                } else {
                    assert(s1.rounds[k] == empty_round());
                }
            }
            assert forall|k: int| s1.round < k < s1.rounds.len()
                implies future_clean(#[trigger] s1.rounds[k]) by {
                if k < s0.rounds.len() {
                    assert(s1.rounds[k] == s0.rounds[k]);
                } else {
                    assert(s1.rounds[k] == empty_round());
                }
            }
            assert(crate::model::wf(s1));
        }
        let cur_is_none = self.rounds[round].proposal.is_none();
        if cur_is_none {
            let ghost rvec = self.rounds@;
            {
                let rd = &mut self.rounds[round];
                rd.proposal = Some((proposal, valid_round));
            }
            proof {
                let rd1 = RoundModel { proposal: Some((proposal, valid_round)), ..s1.rounds[round as int] };
                lemma_rounds_view_update(rvec, round as int, self.rounds@[round as int]);
                assert(self@ =~~= upd_round(s1, round as int, rd1));
                lemma_wf_upd(s1, round as int, rd1);
            }
        }
        let ghost s2 = if s1.rounds[round as int].proposal is None {
            upd_round(s1, round as int, RoundModel { proposal: Some((proposal, valid_round)), ..s1.rounds[round as int] })
        } else {
            s1
        };
        proof {
            assert(self@ == s2);
            assert(crate::model::wf(s2));
        }
        if round == self.round {
            match self.this_node {
                Some(me) => {
                    if !self.rounds[round].prevoted {
                        let permits = match self.locked {
                            None => true,
                            Some((lv, lr)) => lv == proposal || (match valid_round {
                                Some(vr) => vr == lr,
                                None => false,
                            }),
                        };
                        let target = if favor && permits {
                            Some(proposal)
                        } else {
                            None
                        };
                        proof {
                            assert(permits == lock_permits(s2, proposal, valid_round));
                        }
                        let seen = contains_signer_exec(&self.rounds[round].prevotes, me);
                        let ghost rvec = self.rounds@;
                        {
                            let rd = &mut self.rounds[round];
                            rd.prevoted = true;
                            if !seen {
                                rd.prevotes.push(Vote { signer: me, target });
                            }
                        }
                        proof {
                            let rd3 = RoundModel {
                                prevoted: true,
                                prevotes: if contains_signer(s2.rounds[round as int].prevotes, me) {
                                    s2.rounds[round as int].prevotes
                                } else {
                                    s2.rounds[round as int].prevotes.push(Vote { signer: me, target })
                                },
                                ..s2.rounds[round as int]
                            };
                            lemma_rounds_view_update(rvec, round as int, self.rounds@[round as int]);
                            assert(self@ =~~= upd_round(s2, round as int, rd3));
                            if !seen {
                                lemma_vote_push_wf(
                                    s2.rounds[round as int].prevotes,
                                    Vote { signer: me, target },
                                    s2.validators.len() as int,
                                );
                            }
                            lemma_wf_upd(s2, round as int, rd3);
                        }
                        out.push(ConsensusResponse::BroadcastPrevote { proposal: target, round });
                        proof {
                            lemma_abs_push(old(out)@, ConsensusResponse::BroadcastPrevote { proposal: target, round });
                        }
                        self.do_after_prevote(target, ts, out);
                        proof {
                            let stepped = spec_proposal(s0, proposal, valid, valid_round, proposer, round, favor, ts);
                            let (s4, rs4) = stepped->Ok_0;
                            assert(self@ == s4);
                            assert(abs_responses(out@) =~= abs_responses(old(out)@) + rs4);
                        }
                        Ok(())
                    } else {
                        proof {
                            assert(abs_responses(out@) =~= abs_responses(out@) + Seq::<ResponseModel>::empty());
                        }
                        Ok(())
                    }
                },
                None => {
                    proof {
                        assert(abs_responses(out@) =~= abs_responses(out@) + Seq::<ResponseModel>::empty());
                    }
                    Ok(())
                },
            }
        } else {
            proof {
                assert(abs_responses(out@) =~= abs_responses(out@) + Seq::<ResponseModel>::empty());
            }
            Ok(())
        }
    }

    fn handle_prevote(
        &mut self,
        proposal: Option<BlockIdentifier>,
        signer: ValidatorIndex,
        round: Round,
        ts: Timestamp,
        out: &mut Vec<ConsensusResponse>,
    ) -> (r: Result<(), ConsensusError>)
        requires
            crate::model::wf(old(self)@),
        ensures
            crate::model::wf(final(self)@),
            (match spec_prevote_ev(old(self)@, proposal, signer, round, ts) {
                Ok((s2, rs)) => r is Ok && final(self)@ == s2
                    && abs_responses(final(out)@) == abs_responses(old(out)@) + rs,
                Err(e) => r == Err::<(), ConsensusError>(e) && final(self)@ == old(self)@
                    && final(out)@ == old(out)@,
            }),
    {
        if signer >= self.validators.len() {
            return Err(ConsensusError::InvalidSigner);
        }
        if round < self.round {
            return Err(ConsensusError::StaleRound);
        }
        let ghost s0 = self@;
        extend_vec_rounds(&mut self.rounds, round);
        let ghost s1 = StateModel { rounds: extend_rounds(s0.rounds, round), ..s0 };
        proof {
            assert(self@ =~~= s1);
            assert(s1.rounds.len() > round);
            assert forall|k: int| 0 <= k < s1.rounds.len()
                implies round_wf(#[trigger] s1.rounds[k], s1.validators.len() as int) by {
                if k < s0.rounds.len() {
                    assert(s1.rounds[k] == s0.rounds[k]);
                } else {
                    assert(s1.rounds[k] == empty_round());
                }
            }
            assert forall|k: int| s1.round < k < s1.rounds.len()
                implies future_clean(#[trigger] s1.rounds[k]) by {
                if k < s0.rounds.len() {
                    assert(s1.rounds[k] == s0.rounds[k]);
                } else {
                    assert(s1.rounds[k] == empty_round());
                }
            }
            assert(crate::model::wf(s1));
        }
        let seen = contains_signer_exec(&self.rounds[round].prevotes, signer);
        if seen {
            proof {
                assert(abs_responses(out@) =~= abs_responses(out@) + Seq::<ResponseModel>::empty());
            }
            return Ok(());
        }
        let ghost rvec = self.rounds@;
        {
            let rd = &mut self.rounds[round];
            rd.prevotes.push(Vote { signer, target: proposal });
        }
        proof {
            let rd1 = RoundModel {
                prevotes: s1.rounds[round as int].prevotes.push(Vote { signer, target: proposal }),
                ..s1.rounds[round as int]
            };
            lemma_rounds_view_update(rvec, round as int, self.rounds@[round as int]);
            assert(self@ =~~= upd_round(s1, round as int, rd1));
            lemma_vote_push_wf(
                s1.rounds[round as int].prevotes,
                Vote { signer, target: proposal },
                s1.validators.len() as int,
            );
            lemma_wf_upd(s1, round as int, rd1);
        }
        if round == self.round {
            self.do_after_prevote(proposal, ts, out);
            proof {
                let stepped = spec_prevote_ev(s0, proposal, signer, round, ts);
                let (s4, rs4) = stepped->Ok_0;
                assert(self@ == s4);
                assert(abs_responses(out@) == abs_responses(old(out)@) + rs4);
            }
        } else {
            proof {
                assert(abs_responses(out@) =~= abs_responses(out@) + Seq::<ResponseModel>::empty());
            }
        }
        Ok(())
    }

    fn handle_precommit(
        &mut self,
        proposal: Option<BlockIdentifier>,
        signer: ValidatorIndex,
        round: Round,
        ts: Timestamp,
        out: &mut Vec<ConsensusResponse>,
    ) -> (r: Result<(), ConsensusError>)
        requires
            crate::model::wf(old(self)@),
        ensures
            crate::model::wf(final(self)@),
            (match spec_precommit_ev(old(self)@, proposal, signer, round, ts) {
                Ok((s2, rs)) => r is Ok && final(self)@ == s2
                    && abs_responses(final(out)@) == abs_responses(old(out)@) + rs,
                Err(e) => r == Err::<(), ConsensusError>(e) && final(self)@ == old(self)@
                    && final(out)@ == old(out)@,
            }),
    {
        if signer >= self.validators.len() {
            return Err(ConsensusError::InvalidSigner);
        }
        if round < self.round {
            return Err(ConsensusError::StaleRound);
        }
        let ghost s0 = self@;
        extend_vec_rounds(&mut self.rounds, round);
        let ghost s1 = StateModel { rounds: extend_rounds(s0.rounds, round), ..s0 };
        proof {
            assert(self@ =~~= s1);
            assert(s1.rounds.len() > round);
            assert forall|k: int| 0 <= k < s1.rounds.len()
                implies round_wf(#[trigger] s1.rounds[k], s1.validators.len() as int) by {
                if k < s0.rounds.len() {
                    assert(s1.rounds[k] == s0.rounds[k]);
                } else {
                    assert(s1.rounds[k] == empty_round());
                }
            }
            assert forall|k: int| s1.round < k < s1.rounds.len()
                implies future_clean(#[trigger] s1.rounds[k]) by {
                if k < s0.rounds.len() {
                    assert(s1.rounds[k] == s0.rounds[k]);
                } else {
                    assert(s1.rounds[k] == empty_round());
                }
            }
            assert(crate::model::wf(s1));
        }
        let seen = contains_signer_exec(&self.rounds[round].precommits, signer);
        if seen {
            proof {
                assert(abs_responses(out@) =~= abs_responses(out@) + Seq::<ResponseModel>::empty());
            }
            return Ok(());
        }
        let ghost rvec = self.rounds@;
        {
            let rd = &mut self.rounds[round];
            rd.precommits.push(Vote { signer, target: proposal });
        }
        proof {
            let rd1 = RoundModel {
                precommits: s1.rounds[round as int].precommits.push(Vote { signer, target: proposal }),
                ..s1.rounds[round as int]
            };
            lemma_rounds_view_update(rvec, round as int, self.rounds@[round as int]);
            assert(self@ =~~= upd_round(s1, round as int, rd1));
            lemma_vote_push_wf(
                s1.rounds[round as int].precommits,
                Vote { signer, target: proposal },
                s1.validators.len() as int,
            );
            lemma_wf_upd(s1, round as int, rd1);
        }
        if round == self.round {
            self.do_after_precommit(proposal, ts, out);
            proof {
                let stepped = spec_precommit_ev(s0, proposal, signer, round, ts);
                let (s4, rs4) = stepped->Ok_0;
                assert(self@ == s4);
                assert(abs_responses(out@) == abs_responses(old(out)@) + rs4);
            }
        } else {
            proof {
                assert(abs_responses(out@) =~= abs_responses(out@) + Seq::<ResponseModel>::empty());
            }
        }
        Ok(())
    }

    fn handle_timer(&mut self, ts: Timestamp, out: &mut Vec<ConsensusResponse>)
        requires
            crate::model::wf(old(self)@),
        ensures
            crate::model::wf(final(self)@),
            ({
                let (s2, rs) = spec_timer(old(self)@, ts);
                final(self)@ == s2 && abs_responses(final(out)@) == abs_responses(old(out)@) + rs
            }),
    {
        let expired = self.started && ts >= self.round_start
            && ts - self.round_start >= self.timeout_ms;
        proof {
            assert(expired == (self@.started && ts >= self@.round_start + self@.timeout_ms));
        }
        if expired {
            self.do_advance(ts, out);
        } else {
            proof {
                assert(abs_responses(out@) =~= abs_responses(out@) + Seq::<ResponseModel>::empty());
            }
        }
    }

    /// Builds the engine for one height. Round 0's candidate is pre-seeded
    /// with the initial candidate when the local node proposes round 0.
    pub fn new(height_info: HeightInfo) -> (engine: Vetomint)
        requires
            height_info.validators@.len() > 0,
            forall|i: int| 0 <= i < height_info.validators@.len() ==> height_info.validators@[i] >= 1,
            sum_weights(height_info.validators@) <= u64::MAX,
            match height_info.this_node_index {
                Some(me) => me < height_info.validators@.len(),
                None => true,
            },
        ensures
            engine@ == init_state(height_info),
            crate::model::wf(engine@),
    {
        let n = height_info.validators.len();
        let leader0 = leader_of(0, n, height_info.consensus_params.repeat_round_for_first_leader);
        let seeded = match height_info.this_node_index {
            Some(me) => leader0 == me,
            None => false,
        };
        let mut rounds: Vec<RoundData> = Vec::new();
        rounds.push(RoundData {
            proposal: if seeded {
                Some((height_info.initial_block_candidate, None))
            } else {
                None
            },
            prevotes: Vec::new(),
            precommits: Vec::new(),
            prevoted: false,
            precommitted: false,
            prevote_quorum: false,
            precommit_quorum: false,
        });
        let engine = Vetomint {
            validators: height_info.validators,
            this_node: height_info.this_node_index,
            timeout_ms: height_info.consensus_params.timeout_ms,
            repeat_round_for_first_leader: height_info.consensus_params.repeat_round_for_first_leader,
            initial_candidate: height_info.initial_block_candidate,
            started: false,
            round: 0,
            round_start: height_info.timestamp,
            rounds,
            locked: None,
            finalized: None,
        };
        proof {
            assert(engine@.rounds =~= init_state(height_info).rounds);
            assert(engine@ =~~= init_state(height_info));
        }
        engine
    }

    /// The single state-transition entry point with typed rejections: maps
    /// one event to the model's transition exactly, or reports the model's
    /// rejection and leaves the state unchanged.
    pub fn process(&mut self, event: ConsensusEvent, timestamp: Timestamp) -> (res: Result<Vec<ConsensusResponse>, ConsensusError>)
        requires
            crate::model::wf(old(self)@),
        ensures
            crate::model::wf(final(self)@),
            step_matches(old(self)@, event, timestamp, final(self)@, res),
    {
        if self.finalized.is_some() {
            return Err(ConsensusError::AlreadyFinalized);
        }
        let mut out: Vec<ConsensusResponse> = Vec::new();
        proof {
            assert(abs_responses(out@) =~= Seq::<ResponseModel>::empty());
        }
        let r = match event {
            ConsensusEvent::Start => {
                self.handle_start(timestamp, &mut out);
                Ok(())
            },
            ConsensusEvent::BlockProposalReceived { proposal, valid, valid_round, proposer, round, favor } =>
                self.handle_proposal(proposal, valid, valid_round, proposer, round, favor, timestamp, &mut out),
            ConsensusEvent::Prevote { proposal, signer, round } =>
                self.handle_prevote(proposal, signer, round, timestamp, &mut out),
            ConsensusEvent::Precommit { proposal, signer, round } =>
                self.handle_precommit(proposal, signer, round, timestamp, &mut out),
            ConsensusEvent::Timer => {
                self.handle_timer(timestamp, &mut out);
                Ok(())
            },
        };
        match r {
            Ok(()) => Ok(out),
            Err(e) => Err(e),
        }
    }

    /// The entry point used by callers that act only on responses: on a
    /// typed rejection the state is unchanged and no response is returned.
    pub fn progress(&mut self, event: ConsensusEvent, timestamp: Timestamp) -> (res: Vec<ConsensusResponse>)
        requires
            crate::model::wf(old(self)@),
        ensures
            crate::model::wf(final(self)@),
            (match step(old(self)@, event, timestamp) {
                Ok((s2, rs)) => final(self)@ == s2 && abs_responses(res@) == rs,
                Err(_) => final(self)@ == old(self)@ && res@ == Seq::<ConsensusResponse>::empty(),
            }),
    {
        match self.process(event, timestamp) {
            Ok(v) => v,
            Err(_) => Vec::new(),
        }
    }
}

} // verus!
