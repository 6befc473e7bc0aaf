use vetomint::{ConsensusError, ConsensusEvent, ConsensusParams, ConsensusResponse, HeightInfo, Vetomint};

fn small_height(me: Option<usize>) -> HeightInfo {
    HeightInfo {
        validators: vec![1, 1, 1],
        this_node_index: me,
        timestamp: 0,
        consensus_params: ConsensusParams {
            timeout_ms: 100,
            repeat_round_for_first_leader: 0,
        },
        initial_block_candidate: 3,
    }
}

#[test]
fn out_of_range_signer_is_rejected() {
    let mut node = Vetomint::new(small_height(Some(1)));
    node.progress(ConsensusEvent::Start, 0);
    let res = node.process(
        ConsensusEvent::Prevote {
            proposal: Some(3),
            signer: 99,
            round: 0,
        },
        1,
    );
    assert_eq!(res, Err(ConsensusError::InvalidSigner));
    let res = node.process(
        ConsensusEvent::Precommit {
            proposal: Some(3),
            signer: 3,
            round: 0,
        },
        1,
    );
    assert_eq!(res, Err(ConsensusError::InvalidSigner));
}

#[test]
fn stale_round_is_rejected() {
    let mut node = Vetomint::new(small_height(Some(2)));
    node.progress(ConsensusEvent::Start, 0);
    // the round times out, so round 0 falls behind
    let moved = node.progress(ConsensusEvent::Timer, 100);
    assert_eq!(moved, vec![]);
    let res = node.process(
        ConsensusEvent::Prevote {
            proposal: Some(3),
            signer: 0,
            round: 0,
        },
        101,
    );
    assert_eq!(res, Err(ConsensusError::StaleRound));
}

#[test]
fn invalid_proposal_is_rejected() {
    let mut node = Vetomint::new(small_height(Some(1)));
    node.progress(ConsensusEvent::Start, 0);
    let res = node.process(
        ConsensusEvent::BlockProposalReceived {
            proposal: 3,
            valid: false,
            valid_round: None,
            proposer: 0,
            round: 0,
            favor: true,
        },
        1,
    );
    assert_eq!(res, Err(ConsensusError::MalformedProposal));
    // the rejected proposal never drew a prevote
    let res = node.process(
        ConsensusEvent::BlockProposalReceived {
            proposal: 3,
            valid: true,
            valid_round: None,
            proposer: 0,
            round: 0,
            favor: true,
        },
        2,
    );
    assert_eq!(
        res,
        Ok(vec![ConsensusResponse::BroadcastPrevote {
            proposal: Some(3),
            round: 0,
        }])
    );
}

#[test]
fn terminal_engine_rejects_everything() {
    let mut node = Vetomint::new(HeightInfo {
        validators: vec![1],
        this_node_index: Some(0),
        timestamp: 0,
        consensus_params: ConsensusParams {
            timeout_ms: 100,
            repeat_round_for_first_leader: 0,
        },
        initial_block_candidate: 8,
    });
    let responses = node.progress(ConsensusEvent::Start, 0);
    assert!(matches!(
        responses.last(),
        Some(ConsensusResponse::FinalizeBlock { proposal: 8, .. })
    ));
    let res = node.process(ConsensusEvent::Timer, 200);
    assert_eq!(res, Err(ConsensusError::AlreadyFinalized));
    let res = node.process(ConsensusEvent::Start, 200);
    assert_eq!(res, Err(ConsensusError::AlreadyFinalized));
}
