//! The protocol laws, proved about the transition model that the executable
//! engine is pinned to: safety of finalization, one-shot quorum handling,
//! vote-once discipline, lock carry-over, and duplicate-signer idempotence.

use vstd::prelude::*;
use crate::types::{BlockIdentifier, ConsensusEvent, Round, Timestamp, ValidatorIndex, Vote};
use crate::model::{
    contains_signer, empty_round, extend_rounds, future_clean, has_quorum, lemma_vote_push_wf,
    lemma_wf_upd, proof_signers, round_wf, spec_advance, spec_after_precommit, spec_after_prevote,
    spec_finalize_check, spec_nil_precommit_check, spec_self_precommit_some, spec_self_prevote,
    spec_start, step, sum_weights, tally, total, upd_round, wf, ResponseModel, RoundModel,
    StateModel,
};

verus! {

// ---------------------------------------------------------------------------
// Traces
// ---------------------------------------------------------------------------

/// A step with rejections flattened: a rejected event leaves the state
/// unchanged and produces no response.
pub open spec fn step_result(s: StateModel, ev: ConsensusEvent, ts: Timestamp) -> (StateModel, Seq<ResponseModel>) {
    match step(s, ev, ts) {
        Ok(p) => p,
        Err(_) => (s, Seq::empty()),
    }
}

/// Runs a whole sequence of timestamped events, concatenating the responses.
pub open spec fn run(s: StateModel, evs: Seq<(ConsensusEvent, Timestamp)>) -> (StateModel, Seq<ResponseModel>)
    decreases evs.len(),
{
    if evs.len() == 0 {
        (s, Seq::empty())
    } else {
        let (s1, rs1) = step_result(s, evs[0].0, evs[0].1);
        let (s2, rs2) = run(s1, evs.drop_first());
        (s2, rs1 + rs2)
    }
}

pub open spec fn is_pv(x: ResponseModel, r: Round) -> bool {
    match x {
        ResponseModel::Prevote { round, .. } => round == r,
        _ => false,
    }
}

pub open spec fn is_pc(x: ResponseModel, r: Round) -> bool {
    match x {
        ResponseModel::Precommit { round, .. } => round == r,
        _ => false,
    }
}

pub open spec fn count_finalizes(rs: Seq<ResponseModel>) -> int
    decreases rs.len(),
{
    if rs.len() == 0 {
        0
    } else {
        count_finalizes(rs.drop_last()) + if rs.last() is Finalize { 1int } else { 0int }
    }
}

pub open spec fn count_pv(rs: Seq<ResponseModel>, r: Round) -> int
    decreases rs.len(),
{
    if rs.len() == 0 {
        0
    } else {
        count_pv(rs.drop_last(), r) + if is_pv(rs.last(), r) { 1int } else { 0int }
    }
}

pub open spec fn count_pc(rs: Seq<ResponseModel>, r: Round) -> int
    decreases rs.len(),
{
    if rs.len() == 0 {
        0
    } else {
        count_pc(rs.drop_last(), r) + if is_pc(rs.last(), r) { 1int } else { 0int }
    }
}

proof fn lemma_counts_concat(a: Seq<ResponseModel>, b: Seq<ResponseModel>, r: Round)
    ensures
        count_finalizes(a + b) == count_finalizes(a) + count_finalizes(b),
        count_pv(a + b, r) == count_pv(a, r) + count_pv(b, r),
        count_pc(a + b, r) == count_pc(a, r) + count_pc(b, r),
    decreases b.len(),
{
    if b.len() == 0 {
        assert(a + b =~= a);
    } else {
        assert((a + b).drop_last() =~= a + b.drop_last());
        assert((a + b).last() == b.last());
        lemma_counts_concat(a, b.drop_last(), r);
    }
}

proof fn lemma_counts_nonneg(rs: Seq<ResponseModel>, r: Round)
    ensures
        count_finalizes(rs) >= 0,
        count_pv(rs, r) >= 0,
        count_pc(rs, r) >= 0,
    decreases rs.len(),
{
    if rs.len() > 0 {
        lemma_counts_nonneg(rs.drop_last(), r);
    }
}

proof fn lemma_counts_one(x: ResponseModel, r: Round)
    ensures
        count_finalizes(seq![x]) == if x is Finalize { 1int } else { 0int },
        count_pv(seq![x], r) == if is_pv(x, r) { 1int } else { 0int },
        count_pc(seq![x], r) == if is_pc(x, r) { 1int } else { 0int },
{
    assert(seq![x].drop_last() =~= Seq::<ResponseModel>::empty());
    assert(seq![x].last() == x);
    assert(count_finalizes(Seq::<ResponseModel>::empty()) == 0);
    assert(count_pv(Seq::<ResponseModel>::empty(), r) == 0);
    assert(count_pc(Seq::<ResponseModel>::empty(), r) == 0);
}

// ---------------------------------------------------------------------------
// What one transition may do: the step portfolio
// ---------------------------------------------------------------------------

pub open spec fn prevoted_at(s: StateModel, r: Round) -> bool {
    r < s.rounds.len() && s.rounds[r as int].prevoted
}

pub open spec fn precommitted_at(s: StateModel, r: Round) -> bool {
    r < s.rounds.len() && s.rounds[r as int].precommitted
}

pub open spec fn pv_quorum_at(s: StateModel, r: Round) -> bool {
    r < s.rounds.len() && s.rounds[r as int].prevote_quorum
}

pub open spec fn pc_quorum_at(s: StateModel, r: Round) -> bool {
    r < s.rounds.len() && s.rounds[r as int].precommit_quorum
}

pub open spec fn prefix_of(a: Seq<Vote>, b: Seq<Vote>) -> bool {
    a.len() <= b.len() && forall|i: int| 0 <= i < a.len() ==> a[i] == b[i]
}

pub open spec fn grow_round(a: RoundModel, b: RoundModel) -> bool {
    &&& (a.prevoted ==> b.prevoted)
    &&& (a.precommitted ==> b.precommitted)
    &&& (a.prevote_quorum ==> b.prevote_quorum)
    &&& (a.precommit_quorum ==> b.precommit_quorum)
    &&& prefix_of(a.prevotes, b.prevotes)
    &&& prefix_of(a.precommits, b.precommits)
}

/// Local decisions and tallies only grow within a step.
pub open spec fn flags_grow(s: StateModel, s1: StateModel) -> bool {
    &&& s1.rounds.len() >= s.rounds.len()
    &&& forall|r: int| 0 <= r < s.rounds.len() ==> grow_round(s.rounds[r], #[trigger] s1.rounds[r])
}

/// A finalized value is justified by a flagged precommit quorum for it.
pub open spec fn finalize_justified(s1: StateModel, c: BlockIdentifier, prf: Seq<ValidatorIndex>) -> bool {
    exists|r: int| 0 <= r < s1.rounds.len()
        && (#[trigger] s1.rounds[r]).precommit_quorum
        && has_quorum(tally(s1.validators, s1.rounds[r].precommits, Some(c)), sum_weights(s1.validators))
        && prf == proof_signers(s1.rounds[r].precommits, s1.validators.len(), Some(c))
}

/// A self-authored proposal always re-proposes the locked value.
pub open spec fn proposal_shape(x: ResponseModel, s: StateModel) -> bool {
    match x {
        ResponseModel::Proposal { proposal, valid_round, .. } => match s.locked {
            Some((lv, lr)) => proposal == lv && valid_round == Some(lr),
            None => true,
        },
        _ => true,
    }
}

pub open spec fn no_proposals(rs: Seq<ResponseModel>) -> bool {
    forall|i: int| 0 <= i < rs.len() ==> !((#[trigger] rs[i]) is Proposal)
}

/// Everything one transition fragment is allowed to do.
pub open spec fn portfolio(s: StateModel, s1: StateModel, rs: Seq<ResponseModel>) -> bool {
    &&& wf(s1)
    &&& s1.round >= s.round
    &&& s1.validators == s.validators
    &&& s1.this_node == s.this_node
    &&& flags_grow(s, s1)
    &&& count_finalizes(rs) == if s1.finalized is Some && s.finalized is None { 1int } else { 0int }
    &&& (s.finalized is None ==> match s1.finalized {
        Some((c, prf)) => finalize_justified(s1, c, prf),
        None => true,
    })
    &&& forall|r: Round| #![trigger count_pv(rs, r)]
        count_pv(rs, r) <= 1 && (count_pv(rs, r) == 1 ==> !prevoted_at(s, r) && prevoted_at(s1, r))
    &&& forall|r: Round| #![trigger count_pc(rs, r)]
        count_pc(rs, r) <= 1 && (count_pc(rs, r) == 1 ==> !precommitted_at(s, r) && precommitted_at(s1, r))
    &&& forall|i: int| 0 <= i < rs.len() ==> proposal_shape(#[trigger] rs[i], s)
}

proof fn lemma_portfolio_refl(s: StateModel)
    requires
        wf(s),
        s.finalized is None,
    ensures
        portfolio(s, s, Seq::empty()),
{
}

/// Composes a fragment that emitted one response with its continuation.
proof fn lemma_portfolio_compose(
    s: StateModel,
    s1: StateModel,
    s2: StateModel,
    x: ResponseModel,
    rs2: Seq<ResponseModel>,
)
    requires
        wf(s1),
        s.finalized is None,
        s1.finalized is None,
        s1.round >= s.round,
        s1.validators == s.validators,
        s1.this_node == s.this_node,
        flags_grow(s, s1),
        portfolio(s1, s2, rs2),
        !(x is Finalize),
        proposal_shape(x, s),
        x matches ResponseModel::Prevote { round: r0, .. } ==> !prevoted_at(s, r0) && prevoted_at(s1, r0),
        x matches ResponseModel::Precommit { round: r0, .. } ==> !precommitted_at(s, r0) && precommitted_at(s1, r0),
        s1.locked == s.locked || no_proposals(rs2),
    ensures
        portfolio(s, s2, seq![x] + rs2),
{
    let rs = seq![x] + rs2;
    assert forall|r: int| 0 <= r < s.rounds.len() implies grow_round(s.rounds[r], #[trigger] s2.rounds[r]) by {
        assert(grow_round(s.rounds[r], s1.rounds[r]));
        assert(grow_round(s1.rounds[r], s2.rounds[r]));
    }
    lemma_counts_concat(seq![x], rs2, 0);
    lemma_counts_one(x, 0);
    assert(count_finalizes(rs) == count_finalizes(rs2));
    assert forall|r: Round| #![trigger count_pv(rs, r)]
        count_pv(rs, r) <= 1 && (count_pv(rs, r) == 1 ==> !prevoted_at(s, r) && prevoted_at(s1, r) || !prevoted_at(s, r) && prevoted_at(s2, r)) by {
        lemma_counts_concat(seq![x], rs2, r);
        lemma_counts_one(x, r);
        if is_pv(x, r) {
            assert(prevoted_at(s1, r));
            lemma_counts_nonneg(rs2, r);
            if count_pv(rs2, r) == 1 {
                assert(!prevoted_at(s1, r));
            }
            assert(count_pv(rs2, r) == 0);
        } else {
            if count_pv(rs2, r) == 1 {
                if prevoted_at(s, r) {
                    assert(grow_round(s.rounds[r as int], s1.rounds[r as int]));
                    assert(prevoted_at(s1, r));
                }
            }
        }
    }
    assert forall|r: Round| #![trigger count_pv(rs, r)]
        count_pv(rs, r) <= 1 && (count_pv(rs, r) == 1 ==> !prevoted_at(s, r) && prevoted_at(s2, r)) by {
        lemma_counts_concat(seq![x], rs2, r);
        lemma_counts_one(x, r);
        if count_pv(rs, r) == 1 {
            if is_pv(x, r) {
                assert(prevoted_at(s1, r));
                assert(r < s1.rounds.len());
                assert(grow_round(s1.rounds[r as int], s2.rounds[r as int]));
                assert(prevoted_at(s2, r));
                assert(!prevoted_at(s, r));
            } else {
                assert(count_pv(rs2, r) == 1);
                assert(prevoted_at(s2, r));
                if prevoted_at(s, r) {
                    assert(grow_round(s.rounds[r as int], s1.rounds[r as int]));
                    assert(prevoted_at(s1, r));
                }
            }
        }
    }
    assert forall|r: Round| #![trigger count_pc(rs, r)]
        count_pc(rs, r) <= 1 && (count_pc(rs, r) == 1 ==> !precommitted_at(s, r) && precommitted_at(s2, r)) by {
        lemma_counts_concat(seq![x], rs2, r);
        lemma_counts_one(x, r);
        if is_pc(x, r) {
            assert(precommitted_at(s1, r));
            lemma_counts_nonneg(rs2, r);
            if count_pc(rs2, r) == 1 {
                assert(!precommitted_at(s1, r));
            }
            assert(count_pc(rs2, r) == 0);
            assert(r < s1.rounds.len());
            assert(grow_round(s1.rounds[r as int], s2.rounds[r as int]));
            assert(precommitted_at(s2, r));
        } else {
            if count_pc(rs, r) == 1 {
                assert(count_pc(rs2, r) == 1);
                if precommitted_at(s, r) {
                    assert(grow_round(s.rounds[r as int], s1.rounds[r as int]));
                    assert(precommitted_at(s1, r));
                }
            }
        }
    }
    assert forall|i: int| 0 <= i < rs.len() implies proposal_shape(#[trigger] rs[i], s) by {
        if i == 0 {
            assert(rs[i] == x);
        } else {
            assert(rs[i] == rs2[i - 1]);
            assert(proposal_shape(rs2[i - 1], s1));
            if s1.locked != s.locked {
                assert(!(rs2[i - 1] is Proposal));
            }
        }
    }
}

/// As `lemma_portfolio_compose`, for a fragment that emitted nothing itself.
proof fn lemma_portfolio_extend_left(
    s: StateModel,
    s1: StateModel,
    s2: StateModel,
    rs2: Seq<ResponseModel>,
)
    requires
        wf(s1),
        s.finalized is None,
        s1.finalized is None,
        s1.round >= s.round,
        s1.validators == s.validators,
        s1.this_node == s.this_node,
        flags_grow(s, s1),
        portfolio(s1, s2, rs2),
        s1.locked == s.locked || no_proposals(rs2),
    ensures
        portfolio(s, s2, rs2),
{
    assert forall|r: int| 0 <= r < s.rounds.len() implies grow_round(s.rounds[r], #[trigger] s2.rounds[r]) by {
        assert(grow_round(s.rounds[r], s1.rounds[r]));
        assert(grow_round(s1.rounds[r], s2.rounds[r]));
    }
    assert forall|r: Round| #![trigger count_pv(rs2, r)]
        count_pv(rs2, r) <= 1 && (count_pv(rs2, r) == 1 ==> !prevoted_at(s, r) && prevoted_at(s2, r)) by {
        if count_pv(rs2, r) == 1 {
            if prevoted_at(s, r) {
                assert(grow_round(s.rounds[r as int], s1.rounds[r as int]));
                assert(prevoted_at(s1, r));
            }
        }
    }
    assert forall|r: Round| #![trigger count_pc(rs2, r)]
        count_pc(rs2, r) <= 1 && (count_pc(rs2, r) == 1 ==> !precommitted_at(s, r) && precommitted_at(s2, r)) by {
        if count_pc(rs2, r) == 1 {
            if precommitted_at(s, r) {
                assert(grow_round(s.rounds[r as int], s1.rounds[r as int]));
                assert(precommitted_at(s1, r));
            }
        }
    }
    assert forall|i: int| 0 <= i < rs2.len() implies proposal_shape(#[trigger] rs2[i], s) by {
        assert(proposal_shape(rs2[i], s1));
        if s1.locked != s.locked {
            assert(!(rs2[i] is Proposal));
        }
    }
}

// ---------------------------------------------------------------------------
// Portfolio lemmas for each fragment of the cascade
// ---------------------------------------------------------------------------

proof fn lemma_portfolio_finalize_check(s: StateModel, c: BlockIdentifier)
    requires
        wf(s),
        s.finalized is None,
    ensures
        ({
            let (s1, rs) = spec_finalize_check(s, c);
            portfolio(s, s1, rs) && no_proposals(rs) && s1.locked == s.locked && s1.round == s.round
        }),
{
    let r = s.round as int;
    let rd = s.rounds[r];
    if !rd.precommit_quorum && has_quorum(tally(s.validators, rd.precommits, Some(c)), total(s)) {
        let rd1 = RoundModel { precommit_quorum: true, ..rd };
        lemma_wf_upd(s, r, rd1);
        let s1 = upd_round(s, r, rd1);
        let prf = proof_signers(rd.precommits, s.validators.len(), Some(c));
        let s2 = StateModel { finalized: Some((c, prf)), ..s1 };
        let x = ResponseModel::Finalize { proposal: c, proof: prf };
        let rs = seq![x];
        assert(wf(s2));
        assert(flags_grow(s, s2)) by {
            assert forall|k: int| 0 <= k < s.rounds.len()
                implies grow_round(s.rounds[k], #[trigger] s2.rounds[k]) by {
                if k != r {
                    assert(s2.rounds[k] == s.rounds[k]);
                }
            }
        }
        lemma_counts_one(x, 0);
        assert(finalize_justified(s2, c, prf)) by {
            assert(0 <= r < s2.rounds.len());
            assert(s2.rounds[r].precommit_quorum);
            assert(s2.rounds[r].precommits == rd.precommits);
        }
        assert forall|rr: Round| #![trigger count_pv(rs, rr)]
            count_pv(rs, rr) <= 1 && (count_pv(rs, rr) == 1 ==> !prevoted_at(s, rr) && prevoted_at(s2, rr)) by {
            lemma_counts_one(x, rr);
        }
        assert forall|rr: Round| #![trigger count_pc(rs, rr)]
            count_pc(rs, rr) <= 1 && (count_pc(rs, rr) == 1 ==> !precommitted_at(s, rr) && precommitted_at(s2, rr)) by {
            lemma_counts_one(x, rr);
        }
    }
}

proof fn lemma_portfolio_self_precommit(s: StateModel, c: BlockIdentifier)
    requires
        wf(s),
        s.finalized is None,
    ensures
        ({
            let (s1, rs) = spec_self_precommit_some(s, c);
            portfolio(s, s1, rs) && no_proposals(rs) && s1.locked == s.locked && s1.round == s.round
        }),
{
    let r = s.round as int;
    let rd = s.rounds[r];
    match s.this_node {
        Some(me) => {
            if !rd.precommitted {
                let rd1 = RoundModel {
                    precommitted: true,
                    precommits: if contains_signer(rd.precommits, me) {
                        rd.precommits
                    } else {
                        rd.precommits.push(Vote { signer: me, target: Some(c) })
                    },
                    ..rd
                };
                if !contains_signer(rd.precommits, me) {
                    lemma_vote_push_wf(rd.precommits, Vote { signer: me, target: Some(c) }, s.validators.len() as int);
                }
                lemma_wf_upd(s, r, rd1);
                let s1 = upd_round(s, r, rd1);
                lemma_portfolio_finalize_check(s1, c);
                let (s2, rsf) = spec_finalize_check(s1, c);
                let x = ResponseModel::Precommit { proposal: Some(c), round: s.round };
                assert(flags_grow(s, s1)) by {
                    assert forall|k: int| 0 <= k < s.rounds.len()
                        implies grow_round(s.rounds[k], #[trigger] s1.rounds[k]) by {
                        if k != r {
                            assert(s1.rounds[k] == s.rounds[k]);
                        } else {
                            assert(prefix_of(rd.precommits, rd1.precommits));
                        }
                    }
                }
                lemma_portfolio_compose(s, s1, s2, x, rsf);
                assert((seq![x] + rsf) =~= spec_self_precommit_some(s, c).1);
            }
        },
        None => {},
    }
}

proof fn lemma_portfolio_self_prevote(s: StateModel, v: BlockIdentifier)
    requires
        wf(s),
        s.finalized is None,
    ensures
        ({
            let (s1, rs) = spec_self_prevote(s, v);
            portfolio(s, s1, rs) && no_proposals(rs) && s1.round == s.round
        }),
{
    let r = s.round as int;
    let rd = s.rounds[r];
    match s.this_node {
        Some(me) => {
            if !rd.prevoted {
                let rd1 = RoundModel {
                    prevoted: true,
                    prevotes: if contains_signer(rd.prevotes, me) {
                        rd.prevotes
                    } else {
                        rd.prevotes.push(Vote { signer: me, target: Some(v) })
                    },
                    ..rd
                };
                if !contains_signer(rd.prevotes, me) {
                    lemma_vote_push_wf(rd.prevotes, Vote { signer: me, target: Some(v) }, s.validators.len() as int);
                }
                lemma_wf_upd(s, r, rd1);
                let s1 = upd_round(s, r, rd1);
                let rd2 = s1.rounds[r];
                let x = ResponseModel::Prevote { proposal: Some(v), round: s.round };
                assert(flags_grow(s, s1)) by {
                    assert forall|k: int| 0 <= k < s.rounds.len()
                        implies grow_round(s.rounds[k], #[trigger] s1.rounds[k]) by {
                        if k != r {
                            assert(s1.rounds[k] == s.rounds[k]);
                        } else {
                            assert(prefix_of(rd.prevotes, rd1.prevotes));
                        }
                    }
                }
                if !rd2.prevote_quorum && has_quorum(tally(s1.validators, rd2.prevotes, Some(v)), total(s1)) {
                    let rd3 = RoundModel { prevote_quorum: true, ..rd2 };
                    lemma_wf_upd(s1, r, rd3);
                    let s2a = upd_round(s1, r, rd3);
                    let s2b = crate::model::lock_update(s2a, v);
                    assert(wf(s2b));
                    lemma_portfolio_self_precommit(s2b, v);
                    let (s3, rse) = spec_self_precommit_some(s2b, v);
                    assert(flags_grow(s, s2b)) by {
                        assert forall|k: int| 0 <= k < s.rounds.len()
                            implies grow_round(s.rounds[k], #[trigger] s2b.rounds[k]) by {
                            if k != r {
                                assert(s2b.rounds[k] == s.rounds[k]);
                            } else {
                                assert(s2b.rounds[k] == rd3);
                                assert(prefix_of(rd.prevotes, rd3.prevotes));
                            }
                        }
                    }
                    assert(prevoted_at(s2b, s.round));
                    lemma_portfolio_compose(s, s2b, s3, x, rse);
                    assert((seq![x] + rse) =~= spec_self_prevote(s, v).1);
                } else {
                    lemma_portfolio_refl(s1);
                    lemma_portfolio_compose(s, s1, s1, x, Seq::empty());
                    assert((seq![x] + Seq::<ResponseModel>::empty()) =~= spec_self_prevote(s, v).1);
                }
            }
        },
        None => {},
    }
}

proof fn lemma_extend_state(s: StateModel, r: Round)
    requires
        wf(s),
    ensures
        ({
            let s1 = StateModel { rounds: extend_rounds(s.rounds, r), ..s };
            wf(s1) && flags_grow(s, s1) && s1.rounds.len() > r
        }),
{
    let s1 = StateModel { rounds: extend_rounds(s.rounds, r), ..s };
    assert forall|k: int| 0 <= k < s1.rounds.len()
        implies round_wf(#[trigger] s1.rounds[k], s1.validators.len() as int) by {
        if k < s.rounds.len() {
            assert(s1.rounds[k] == s.rounds[k]);
        } else {
            assert(s1.rounds[k] == empty_round());
        }
    }
    assert forall|k: int| s1.round < k < s1.rounds.len()
        implies future_clean(#[trigger] s1.rounds[k]) by {
        if k < s.rounds.len() {
            assert(s1.rounds[k] == s.rounds[k]);
        } else {
            assert(s1.rounds[k] == empty_round());
        }
    }
    assert forall|k: int| 0 <= k < s.rounds.len()
        implies grow_round(s.rounds[k], #[trigger] s1.rounds[k]) by {
        assert(s1.rounds[k] == s.rounds[k]);
    }
}

proof fn lemma_portfolio_advance(s: StateModel, ts: Timestamp)
    requires
        wf(s),
        s.finalized is None,
    ensures
        ({
            let (s1, rs) = spec_advance(s, ts);
            portfolio(s, s1, rs)
        }),
{
    if s.round == usize::MAX {
        lemma_portfolio_refl(s);
    } else {
        let r2 = (s.round + 1) as usize;
        lemma_extend_state(s, r2);
        let s1 = StateModel { round: r2, round_start: ts, rounds: extend_rounds(s.rounds, r2), ..s };
        assert(wf(s1)) by {
            let se = StateModel { rounds: extend_rounds(s.rounds, r2), ..s };
            assert forall|k: int| 0 <= k < s1.rounds.len()
                implies round_wf(#[trigger] s1.rounds[k], s1.validators.len() as int) by {
                assert(s1.rounds[k] == se.rounds[k]);
                assert(round_wf(se.rounds[k], se.validators.len() as int));
            }
            assert forall|k: int| s1.round < k < s1.rounds.len()
                implies future_clean(#[trigger] s1.rounds[k]) by {
                assert(s1.rounds[k] == se.rounds[k]);
                assert(future_clean(se.rounds[k]));
            }
        }
        if crate::model::self_is_leader(s1, r2) {
            let (v, vr) = crate::model::propose_value(s1);
            let rd = s1.rounds[r2 as int];
            let rd1 = RoundModel { proposal: Some((v, vr)), ..rd };
            lemma_wf_upd(s1, r2 as int, rd1);
            let s2 = upd_round(s1, r2 as int, rd1);
            lemma_portfolio_self_prevote(s2, v);
            let (s3, rsd) = spec_self_prevote(s2, v);
            let x = ResponseModel::Proposal { proposal: v, valid_round: vr, round: r2 };
            assert(flags_grow(s, s2)) by {
                assert forall|k: int| 0 <= k < s.rounds.len()
                    implies grow_round(s.rounds[k], #[trigger] s2.rounds[k]) by {
                    if k != r2 {
                        assert(s2.rounds[k] == s.rounds[k]);
                    } else {
                        assert(s2.rounds[k] == rd1);
                        assert(rd == s.rounds[k]);
                    }
                }
            }
            lemma_portfolio_compose(s, s2, s3, x, rsd);
            assert((seq![x] + rsd) =~= spec_advance(s, ts).1);
        } else {
            lemma_portfolio_refl(s1);
            lemma_portfolio_extend_left(s, s1, s1, Seq::empty());
        }
    }
}

proof fn lemma_portfolio_nil_check(s: StateModel, ts: Timestamp)
    requires
        wf(s),
        s.finalized is None,
    ensures
        ({
            let (s1, rs) = spec_nil_precommit_check(s, ts);
            portfolio(s, s1, rs)
        }),
{
    let r = s.round as int;
    let rd = s.rounds[r];
    if !rd.precommit_quorum && has_quorum(tally(s.validators, rd.precommits, None), total(s)) {
        let rd1 = RoundModel { precommit_quorum: true, ..rd };
        lemma_wf_upd(s, r, rd1);
        let s1 = upd_round(s, r, rd1);
        assert(flags_grow(s, s1)) by {
            assert forall|k: int| 0 <= k < s.rounds.len()
                implies grow_round(s.rounds[k], #[trigger] s1.rounds[k]) by {
                if k != r {
                    assert(s1.rounds[k] == s.rounds[k]);
                }
            }
        }
        lemma_portfolio_advance(s1, ts);
        let (s2, rs) = spec_advance(s1, ts);
        lemma_portfolio_extend_left(s, s1, s2, rs);
    }
}

proof fn lemma_portfolio_after_prevote(s: StateModel, target: Option<BlockIdentifier>, ts: Timestamp)
    requires
        wf(s),
        s.finalized is None,
    ensures
        ({
            let (s1, rs) = spec_after_prevote(s, target, ts);
            portfolio(s, s1, rs)
        }),
{
    let r = s.round as int;
    let rd = s.rounds[r];
    if !rd.prevote_quorum && has_quorum(tally(s.validators, rd.prevotes, target), total(s)) {
        let rd1 = RoundModel { prevote_quorum: true, ..rd };
        lemma_wf_upd(s, r, rd1);
        let s1 = upd_round(s, r, rd1);
        assert(flags_grow(s, s1)) by {
            assert forall|k: int| 0 <= k < s.rounds.len()
                implies grow_round(s.rounds[k], #[trigger] s1.rounds[k]) by {
                if k != r {
                    assert(s1.rounds[k] == s.rounds[k]);
                }
            }
        }
        match target {
            Some(c) => {
                let s2 = crate::model::lock_update(s1, c);
                assert(wf(s2));
                lemma_portfolio_self_precommit(s2, c);
                let (s3, rse) = spec_self_precommit_some(s2, c);
                assert(flags_grow(s, s2)) by {
                    assert forall|k: int| 0 <= k < s.rounds.len()
                        implies grow_round(s.rounds[k], #[trigger] s2.rounds[k]) by {
                        if k != r {
                            assert(s2.rounds[k] == s.rounds[k]);
                        }
                    }
                }
                lemma_portfolio_extend_left(s, s2, s3, rse);
            },
            None => {
                let rdn = s1.rounds[r];
                match s1.this_node {
                    Some(me) => {
                        if !rdn.precommitted {
                            let rd2 = RoundModel {
                                precommitted: true,
                                precommits: if contains_signer(rdn.precommits, me) {
                                    rdn.precommits
                                } else {
                                    rdn.precommits.push(Vote { signer: me, target: None })
                                },
                                ..rdn
                            };
                            if !contains_signer(rdn.precommits, me) {
                                lemma_vote_push_wf(rdn.precommits, Vote { signer: me, target: None }, s.validators.len() as int);
                            }
                            lemma_wf_upd(s1, r, rd2);
                            let s2 = upd_round(s1, r, rd2);
                            let x = ResponseModel::Precommit { proposal: None, round: s.round };
                            lemma_portfolio_nil_check(s2, ts);
                            let (s3, rsb) = spec_nil_precommit_check(s2, ts);
                            assert(flags_grow(s, s2)) by {
                                assert forall|k: int| 0 <= k < s.rounds.len()
                                    implies grow_round(s.rounds[k], #[trigger] s2.rounds[k]) by {
                                    if k != r {
                                        assert(s2.rounds[k] == s.rounds[k]);
                                    } else {
                                        assert(s2.rounds[k] == rd2);
                                        assert(prefix_of(rd.precommits, rd2.precommits));
                                    }
                                }
                            }
                            assert(precommitted_at(s2, s.round));
                            lemma_portfolio_compose(s, s2, s3, x, rsb);
                            assert((seq![x] + rsb) =~= spec_after_prevote(s, target, ts).1);
                        } else {
                            lemma_portfolio_refl(s1);
                            lemma_portfolio_extend_left(s, s1, s1, Seq::empty());
                        }
                    },
                    None => {
                        lemma_portfolio_refl(s1);
                        lemma_portfolio_extend_left(s, s1, s1, Seq::empty());
                    },
                }
            },
        }
    } else {
        lemma_portfolio_refl(s);
    }
}

proof fn lemma_portfolio_after_precommit(s: StateModel, target: Option<BlockIdentifier>, ts: Timestamp)
    requires
        wf(s),
        s.finalized is None,
    ensures
        ({
            let (s1, rs) = spec_after_precommit(s, target, ts);
            portfolio(s, s1, rs)
        }),
{
    match target {
        Some(c) => {
            lemma_portfolio_finalize_check(s, c);
        },
        None => {
            lemma_portfolio_nil_check(s, ts);
        },
    }
}

// ---------------------------------------------------------------------------
// The frame of a whole step
// ---------------------------------------------------------------------------

/// What any single event delivery may do: a rejected or terminal step
/// changes nothing; otherwise the step obeys the portfolio.
pub proof fn lemma_step_frame(s: StateModel, ev: ConsensusEvent, ts: Timestamp)
    requires
        wf(s),
    ensures
        ({
            let (s1, rs) = step_result(s, ev, ts);
            portfolio(s, s1, rs)
            && (s.finalized is Some ==> s1 == s && rs == Seq::<ResponseModel>::empty())
            && (step(s, ev, ts) is Err ==> s1 == s && rs == Seq::<ResponseModel>::empty())
        }),
{
    if s.finalized is Some {
        lemma_counts_nonneg(Seq::empty(), 0);
        assert(portfolio(s, s, Seq::empty()));
        return;
    }
    match ev {
        ConsensusEvent::Start => {
            if s.started {
                lemma_portfolio_refl(s);
            } else {
                let s1 = StateModel { started: true, round_start: ts, ..s };
                assert(wf(s1));
                assert(flags_grow(s, s1)) by {
                    assert forall|k: int| 0 <= k < s.rounds.len()
                        implies grow_round(s.rounds[k], #[trigger] s1.rounds[k]) by {
                        assert(s1.rounds[k] == s.rounds[k]);
                    }
                }
                if crate::model::self_is_leader(s1, s1.round) {
                    let (v, vr) = crate::model::propose_value(s1);
                    let r = s1.round as int;
                    let rd = s1.rounds[r];
                    let rd1 = RoundModel { proposal: Some((v, vr)), ..rd };
                    lemma_wf_upd(s1, r, rd1);
                    let s2 = upd_round(s1, r, rd1);
                    lemma_portfolio_self_prevote(s2, v);
                    let (s3, rsd) = spec_self_prevote(s2, v);
                    let x = ResponseModel::Proposal { proposal: v, valid_round: vr, round: s1.round };
                    assert(flags_grow(s, s2)) by {
                        assert forall|k: int| 0 <= k < s.rounds.len()
                            implies grow_round(s.rounds[k], #[trigger] s2.rounds[k]) by {
                            if k != r {
                                assert(s2.rounds[k] == s.rounds[k]);
                            }
                        }
                    }
                    lemma_portfolio_compose(s, s2, s3, x, rsd);
                    assert((seq![x] + rsd) =~= spec_start(s, ts).1);
                } else {
                    lemma_portfolio_refl(s1);
                    lemma_portfolio_extend_left(s, s1, s1, Seq::empty());
                }
            }
        },
        ConsensusEvent::BlockProposalReceived { proposal, valid, valid_round, proposer, round, favor } => {
            if proposer >= s.validators.len() || round < s.round || !valid {
                lemma_portfolio_refl(s);
            } else {
                lemma_extend_state(s, round);
                let s1 = StateModel { rounds: extend_rounds(s.rounds, round), ..s };
                let rd = s1.rounds[round as int];
                let s2 = if rd.proposal is None {
                    upd_round(s1, round as int, RoundModel { proposal: Some((proposal, valid_round)), ..rd })
                } else {
                    s1
                };
                if rd.proposal is None {
                    lemma_wf_upd(s1, round as int, RoundModel { proposal: Some((proposal, valid_round)), ..rd });
                }
                assert(wf(s2));
                assert(flags_grow(s, s2)) by {
                    assert forall|k: int| 0 <= k < s.rounds.len()
                        implies grow_round(s.rounds[k], #[trigger] s2.rounds[k]) by {
                        if k != round {
                            assert(s2.rounds[k] == s.rounds[k]);
                        } else {
                            assert(s2.rounds[k].prevotes == s.rounds[k].prevotes);
                            assert(s2.rounds[k].precommits == s.rounds[k].precommits);
                        }
                    }
                }
                if round == s.round {
                    let rd2 = s2.rounds[round as int];
                    match s2.this_node {
                        Some(me) => {
                            if !rd2.prevoted {
                                let target = if favor && crate::model::lock_permits(s2, proposal, valid_round) {
                                    Some(proposal)
                                } else {
                                    None
                                };
                                let rd3 = RoundModel {
                                    prevoted: true,
                                    prevotes: if contains_signer(rd2.prevotes, me) {
                                        rd2.prevotes
                                    } else {
                                        rd2.prevotes.push(Vote { signer: me, target })
                                    },
                                    ..rd2
                                };
                                if !contains_signer(rd2.prevotes, me) {
                                    lemma_vote_push_wf(rd2.prevotes, Vote { signer: me, target }, s.validators.len() as int);
                                }
                                lemma_wf_upd(s2, round as int, rd3);
                                let s3 = upd_round(s2, round as int, rd3);
                                let x = ResponseModel::Prevote { proposal: target, round };
                                lemma_portfolio_after_prevote(s3, target, ts);
                                let (s4, rs4) = spec_after_prevote(s3, target, ts);
                                assert(flags_grow(s, s3)) by {
                                    assert forall|k: int| 0 <= k < s.rounds.len()
                                        implies grow_round(s.rounds[k], #[trigger] s3.rounds[k]) by {
                                        if k != round {
                                            assert(s3.rounds[k] == s.rounds[k]);
                                        } else {
                                            assert(s3.rounds[k] == rd3);
                                            assert(prefix_of(s.rounds[k].prevotes, rd3.prevotes));
                                        }
                                    }
                                }
                                assert(!prevoted_at(s, round));
                                assert(prevoted_at(s3, round));
                                lemma_portfolio_compose(s, s3, s4, x, rs4);
                                assert((seq![x] + rs4) =~= step_result(s, ev, ts).1);
                            } else {
                                lemma_portfolio_refl(s2);
                                lemma_portfolio_extend_left(s, s2, s2, Seq::empty());
                            }
                        },
                        None => {
                            lemma_portfolio_refl(s2);
                            lemma_portfolio_extend_left(s, s2, s2, Seq::empty());
                        },
                    }
                } else {
                    lemma_portfolio_refl(s2);
                    lemma_portfolio_extend_left(s, s2, s2, Seq::empty());
                }
            }
        },
        ConsensusEvent::Prevote { proposal, signer, round } => {
            if signer >= s.validators.len() || round < s.round {
                lemma_portfolio_refl(s);
            } else {
                lemma_extend_state(s, round);
                let s1 = StateModel { rounds: extend_rounds(s.rounds, round), ..s };
                let rd = s1.rounds[round as int];
                if contains_signer(rd.prevotes, signer) {
                    lemma_portfolio_refl(s1);
                    lemma_portfolio_extend_left(s, s1, s1, Seq::empty());
                } else {
                    let rd1 = RoundModel { prevotes: rd.prevotes.push(Vote { signer, target: proposal }), ..rd };
                    lemma_vote_push_wf(rd.prevotes, Vote { signer, target: proposal }, s.validators.len() as int);
                    lemma_wf_upd(s1, round as int, rd1);
                    let s2 = upd_round(s1, round as int, rd1);
                    assert(flags_grow(s, s2)) by {
                        assert forall|k: int| 0 <= k < s.rounds.len()
                            implies grow_round(s.rounds[k], #[trigger] s2.rounds[k]) by {
                            if k != round {
                                assert(s2.rounds[k] == s.rounds[k]);
                            } else {
                                assert(s2.rounds[k] == rd1);
                                assert(prefix_of(s.rounds[k].prevotes, rd1.prevotes));
                            }
                        }
                    }
                    if round == s.round {
                        lemma_portfolio_after_prevote(s2, proposal, ts);
                        let (s3, rs3) = spec_after_prevote(s2, proposal, ts);
                        lemma_portfolio_extend_left(s, s2, s3, rs3);
                    } else {
                        lemma_portfolio_refl(s2);
                        lemma_portfolio_extend_left(s, s2, s2, Seq::empty());
                    }
                }
            }
        },
        ConsensusEvent::Precommit { proposal, signer, round } => {
            if signer >= s.validators.len() || round < s.round {
                lemma_portfolio_refl(s);
            } else {
                lemma_extend_state(s, round);
                let s1 = StateModel { rounds: extend_rounds(s.rounds, round), ..s };
                let rd = s1.rounds[round as int];
                if contains_signer(rd.precommits, signer) {
                    lemma_portfolio_refl(s1);
                    lemma_portfolio_extend_left(s, s1, s1, Seq::empty());
                } else {
                    let rd1 = RoundModel { precommits: rd.precommits.push(Vote { signer, target: proposal }), ..rd };
                    lemma_vote_push_wf(rd.precommits, Vote { signer, target: proposal }, s.validators.len() as int);
                    lemma_wf_upd(s1, round as int, rd1);
                    let s2 = upd_round(s1, round as int, rd1);
                    assert(flags_grow(s, s2)) by {
                        assert forall|k: int| 0 <= k < s.rounds.len()
                            implies grow_round(s.rounds[k], #[trigger] s2.rounds[k]) by {
                            if k != round {
                                assert(s2.rounds[k] == s.rounds[k]);
                            } else {
                                assert(s2.rounds[k] == rd1);
                                assert(prefix_of(s.rounds[k].precommits, rd1.precommits));
                            }
                        }
                    }
                    if round == s.round {
                        lemma_portfolio_after_precommit(s2, proposal, ts);
                        let (s3, rs3) = spec_after_precommit(s2, proposal, ts);
                        lemma_portfolio_extend_left(s, s2, s3, rs3);
                    } else {
                        lemma_portfolio_refl(s2);
                        lemma_portfolio_extend_left(s, s2, s2, Seq::empty());
                    }
                }
            }
        },
        ConsensusEvent::Timer => {
            if s.started && ts >= s.round_start + s.timeout_ms {
                lemma_portfolio_advance(s, ts);
            } else {
                lemma_portfolio_refl(s);
            }
        },
    }
}

// ---------------------------------------------------------------------------
// The protocol laws
// ---------------------------------------------------------------------------

/// A freshly constructed engine is well-formed and not terminal.
pub proof fn lemma_init_wf(info: crate::types::HeightInfo)
    requires
        info.validators@.len() > 0,
        forall|i: int| 0 <= i < info.validators@.len() ==> info.validators@[i] >= 1,
        sum_weights(info.validators@) <= u64::MAX,
        match info.this_node_index {
            Some(me) => me < info.validators@.len(),
            None => true,
        },
    ensures
        wf(crate::model::init_state(info)),
        crate::model::init_state(info).finalized is None,
{
    let s = crate::model::init_state(info);
    assert(info.validators@.len() == info.validators.len());
    assert forall|r: int| 0 <= r < s.rounds.len()
        implies round_wf(#[trigger] s.rounds[r], s.validators.len() as int) by {
        assert(s.rounds[r].prevotes =~= Seq::<Vote>::empty());
        assert(s.rounds[r].precommits =~= Seq::<Vote>::empty());
    }
}

/// Safety: over any sequence of events, at most one finalization is ever
/// emitted; an engine that is already terminal emits none.
pub proof fn lemma_safety(s: StateModel, evs: Seq<(ConsensusEvent, Timestamp)>)
    requires
        wf(s),
    ensures
        count_finalizes(run(s, evs).1) <= if s.finalized is Some { 0int } else { 1int },
    decreases evs.len(),
{
    if evs.len() > 0 {
        let (s1, rs1) = step_result(s, evs[0].0, evs[0].1);
        lemma_step_frame(s, evs[0].0, evs[0].1);
        let (s2, rs2) = run(s1, evs.drop_first());
        lemma_safety(s1, evs.drop_first());
        lemma_counts_concat(rs1, rs2, 0);
        lemma_counts_nonneg(rs1, 0);
        lemma_counts_nonneg(rs2, 0);
    }
}

/// Safety, from the start of a height: an engine built from `info` emits at
/// most one finalization over any sequence of events it is fed.
pub proof fn lemma_safety_from_start(info: crate::types::HeightInfo, evs: Seq<(ConsensusEvent, Timestamp)>)
    requires
        info.validators@.len() > 0,
        forall|i: int| 0 <= i < info.validators@.len() ==> info.validators@[i] >= 1,
        sum_weights(info.validators@) <= u64::MAX,
        match info.this_node_index {
            Some(me) => me < info.validators@.len(),
            None => true,
        },
    ensures
        count_finalizes(run(crate::model::init_state(info), evs).1) <= 1,
{
    lemma_init_wf(info);
    lemma_safety(crate::model::init_state(info), evs);
}

/// Vote-once, from the start of a height: an engine built from `info`
/// broadcasts at most one prevote and one precommit per round, over any
/// sequence of events.
pub proof fn lemma_vote_once_from_start(
    info: crate::types::HeightInfo,
    evs: Seq<(ConsensusEvent, Timestamp)>,
    r: Round,
)
    requires
        info.validators@.len() > 0,
        forall|i: int| 0 <= i < info.validators@.len() ==> info.validators@[i] >= 1,
        sum_weights(info.validators@) <= u64::MAX,
        match info.this_node_index {
            Some(me) => me < info.validators@.len(),
            None => true,
        },
    ensures
        count_pv(run(crate::model::init_state(info), evs).1, r) <= 1,
        count_pc(run(crate::model::init_state(info), evs).1, r) <= 1,
{
    lemma_init_wf(info);
    lemma_vote_once(crate::model::init_state(info), evs, r);
}

/// Safety: whenever a step finalizes, the finalized value is justified by a
/// flagged strict two-thirds precommit quorum, and its proof lists exactly
/// the counted signers.
pub proof fn lemma_finalized_value_justified(s: StateModel, ev: ConsensusEvent, ts: Timestamp)
    requires
        wf(s),
        s.finalized is None,
    ensures
        ({
            let (s1, rs) = step_result(s, ev, ts);
            match s1.finalized {
                Some((c, prf)) => finalize_justified(s1, c, prf),
                None => true,
            }
        }),
{
    lemma_step_frame(s, ev, ts);
}

/// Safety: no other candidate can hold a quorum in the round that justified
/// the finalized value: the finalized candidate is unique.
pub proof fn lemma_finalized_candidate_unique(
    s1: StateModel,
    c: BlockIdentifier,
    prf: Seq<ValidatorIndex>,
    r: int,
    c2: BlockIdentifier,
)
    requires
        wf(s1),
        finalize_justified(s1, c, prf),
        0 <= r < s1.rounds.len(),
        has_quorum(tally(s1.validators, s1.rounds[r].precommits, Some(c)), sum_weights(s1.validators)),
        has_quorum(tally(s1.validators, s1.rounds[r].precommits, Some(c2)), sum_weights(s1.validators)),
    ensures
        c2 == c,
{
    assert(round_wf(s1.rounds[r], s1.validators.len() as int));
    crate::model::lemma_quorum_unique(
        s1.validators,
        s1.rounds[r].precommits,
        Some(c),
        Some(c2),
    );
}

/// Quorum monotonicity: once a prevote threshold crossing has been handled
/// for a round, delivering further prevotes for that round emits nothing.
pub proof fn lemma_prevote_quorum_one_shot(
    s: StateModel,
    p: Option<BlockIdentifier>,
    sg: ValidatorIndex,
    r: Round,
    ts: Timestamp,
)
    requires
        wf(s),
        pv_quorum_at(s, r),
    ensures
        step_result(s, ConsensusEvent::Prevote { proposal: p, signer: sg, round: r }, ts).1
            == Seq::<ResponseModel>::empty(),
{
    let ev = ConsensusEvent::Prevote { proposal: p, signer: sg, round: r };
    if s.finalized is None && sg < s.validators.len() && r >= s.round {
        let s1 = StateModel { rounds: extend_rounds(s.rounds, r), ..s };
        assert(s1.rounds == s.rounds);
        let rd = s1.rounds[r as int];
        if !contains_signer(rd.prevotes, sg) {
            let rd1 = RoundModel { prevotes: rd.prevotes.push(Vote { signer: sg, target: p }), ..rd };
            let s2 = upd_round(s1, r as int, rd1);
            if r == s.round {
                assert(s2.rounds[r as int].prevote_quorum);
                assert(spec_after_prevote(s2, p, ts).1 =~= Seq::<ResponseModel>::empty());
            }
        }
    }
}

/// Quorum monotonicity: once a precommit threshold crossing has been
/// handled for a round, delivering further precommits for that round emits
/// nothing.
pub proof fn lemma_precommit_quorum_one_shot(
    s: StateModel,
    p: Option<BlockIdentifier>,
    sg: ValidatorIndex,
    r: Round,
    ts: Timestamp,
)
    requires
        wf(s),
        pc_quorum_at(s, r),
    ensures
        step_result(s, ConsensusEvent::Precommit { proposal: p, signer: sg, round: r }, ts).1
            == Seq::<ResponseModel>::empty(),
{
    let ev = ConsensusEvent::Precommit { proposal: p, signer: sg, round: r };
    if s.finalized is None && sg < s.validators.len() && r >= s.round {
        let s1 = StateModel { rounds: extend_rounds(s.rounds, r), ..s };
        assert(s1.rounds == s.rounds);
        let rd = s1.rounds[r as int];
        if !contains_signer(rd.precommits, sg) {
            let rd1 = RoundModel { precommits: rd.precommits.push(Vote { signer: sg, target: p }), ..rd };
            let s2 = upd_round(s1, r as int, rd1);
            if r == s.round {
                assert(s2.rounds[r as int].precommit_quorum);
                assert(spec_after_precommit(s2, p, ts).1 =~= Seq::<ResponseModel>::empty());
            }
        }
    }
}

/// Vote-once: over any sequence of events, the node broadcasts at most one
/// prevote and at most one precommit for any given round.
pub proof fn lemma_vote_once(s: StateModel, evs: Seq<(ConsensusEvent, Timestamp)>, r: Round)
    requires
        wf(s),
    ensures
        count_pv(run(s, evs).1, r) <= if prevoted_at(s, r) { 0int } else { 1int },
        count_pc(run(s, evs).1, r) <= if precommitted_at(s, r) { 0int } else { 1int },
    decreases evs.len(),
{
    if evs.len() > 0 {
        let (s1, rs1) = step_result(s, evs[0].0, evs[0].1);
        lemma_step_frame(s, evs[0].0, evs[0].1);
        let (s2, rs2) = run(s1, evs.drop_first());
        lemma_vote_once(s1, evs.drop_first(), r);
        lemma_counts_concat(rs1, rs2, r);
        lemma_counts_nonneg(rs1, r);
        lemma_counts_nonneg(rs2, r);
        if prevoted_at(s, r) {
            assert(grow_round(s.rounds[r as int], s1.rounds[r as int]));
            assert(prevoted_at(s1, r));
        }
        if precommitted_at(s, r) {
            assert(grow_round(s.rounds[r as int], s1.rounds[r as int]));
            assert(precommitted_at(s1, r));
        }
    }
}

/// Lock carry-over: while the node is locked on a value, every
/// self-authored proposal it broadcasts re-proposes that value, justified
/// by the round it was locked in.
pub proof fn lemma_lock_carry_over(
    s: StateModel,
    ev: ConsensusEvent,
    ts: Timestamp,
    v: BlockIdentifier,
    lr: Round,
)
    requires
        wf(s),
        s.locked == Some((v, lr)),
    ensures
        ({
            let (s1, rs) = step_result(s, ev, ts);
            forall|i: int| 0 <= i < rs.len()
                ==> ((#[trigger] rs[i]) matches ResponseModel::Proposal { proposal, valid_round, .. }
                    ==> proposal == v && valid_round == Some(lr))
        }),
{
    lemma_step_frame(s, ev, ts);
    let (s1, rs) = step_result(s, ev, ts);
    assert forall|i: int| 0 <= i < rs.len()
        implies ((#[trigger] rs[i]) matches ResponseModel::Proposal { proposal, valid_round, .. }
            ==> proposal == v && valid_round == Some(lr)) by {
        assert(proposal_shape(rs[i], s));
    }
}

/// Duplicate-signer idempotence: delivering the same prevote twice changes
/// the state only on the first delivery; the second delivery leaves the
/// state unchanged and emits nothing.
pub proof fn lemma_duplicate_prevote(
    s: StateModel,
    p: Option<BlockIdentifier>,
    sg: ValidatorIndex,
    r: Round,
    ts: Timestamp,
    ts2: Timestamp,
)
    requires
        wf(s),
    ensures
        ({
            let ev = ConsensusEvent::Prevote { proposal: p, signer: sg, round: r };
            let (s1, rs1) = step_result(s, ev, ts);
            let (s2, rs2) = step_result(s1, ev, ts2);
            s2 == s1 && rs2 == Seq::<ResponseModel>::empty()
        }),
{
    let ev = ConsensusEvent::Prevote { proposal: p, signer: sg, round: r };
    lemma_step_frame(s, ev, ts);
    let (s1, rs1) = step_result(s, ev, ts);
    lemma_step_frame(s1, ev, ts2);
    let (s2, rs2) = step_result(s1, ev, ts2);
    if step(s, ev, ts) is Err {
        assert(step(s1, ev, ts2) is Err);
    } else {
        if s.finalized is None && sg < s.validators.len() && r >= s.round {
            let se = StateModel { rounds: extend_rounds(s.rounds, r), ..s };
            lemma_extend_state(s, r);
            let rd = se.rounds[r as int];
            if contains_signer(rd.prevotes, sg) {
                assert(s1 == se);
                if s1.finalized is None && r >= s1.round {
                    assert(extend_rounds(s1.rounds, r) == s1.rounds);
                    assert(StateModel { rounds: extend_rounds(s1.rounds, r), ..s1 } == s1);
                }
            } else {
                let rd1 = RoundModel { prevotes: rd.prevotes.push(Vote { signer: sg, target: p }), ..rd };
                lemma_vote_push_wf(rd.prevotes, Vote { signer: sg, target: p }, s.validators.len() as int);
                lemma_wf_upd(se, r as int, rd1);
                let sb = upd_round(se, r as int, rd1);
                let idx = rd.prevotes.len() as int;
                assert(sb.rounds[r as int].prevotes[idx].signer == sg);
                assert(contains_signer(sb.rounds[r as int].prevotes, sg));
                if r == s.round {
                    lemma_portfolio_after_prevote(sb, p, ts);
                    let (s1b, rsb) = spec_after_prevote(sb, p, ts);
                    assert(s1 == s1b);
                    if s1.finalized is None && r >= s1.round {
                        assert(r < sb.rounds.len());
                        assert(grow_round(sb.rounds[r as int], s1.rounds[r as int]));
                        assert(contains_signer(s1.rounds[r as int].prevotes, sg)) by {
                            let i = choose|i: int| 0 <= i < sb.rounds[r as int].prevotes.len()
                                && sb.rounds[r as int].prevotes[i].signer == sg;
                            assert(s1.rounds[r as int].prevotes[i].signer == sg);
                        }
                        assert(r == s1.round);
                        assert(extend_rounds(s1.rounds, r) == s1.rounds);
                        assert(StateModel { rounds: extend_rounds(s1.rounds, r), ..s1 } == s1);
                    }
                } else {
                    assert(s1 == sb);
                    assert(contains_signer(s1.rounds[r as int].prevotes, sg));
                    assert(extend_rounds(s1.rounds, r) == s1.rounds);
                    assert(StateModel { rounds: extend_rounds(s1.rounds, r), ..s1 } == s1);
                }
            }
        }
    }
}

} // verus!
