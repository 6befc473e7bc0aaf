use vetomint::{ConsensusEvent, ConsensusParams, ConsensusResponse, HeightInfo, Vetomint};

/// A very normal, desirable, and expected scenario.
#[test]
fn normal_2() {
    let mut height_info = HeightInfo {
        validators: vec![2, 2, 2, 2, 2],
        this_node_index: Some(0),
        timestamp: 0,
        consensus_params: ConsensusParams {
            timeout_ms: 100,
            repeat_round_for_first_leader: 1,
        },
        initial_block_candidate: 0,
    };
    let mut proposer = Vetomint::new(height_info.clone());
    let mut nodes = Vec::new();
    for i in 1..=4 {
        height_info.this_node_index = Some(i);
        nodes.push(Vetomint::new(height_info.clone()));
    }
    let response = proposer.progress(ConsensusEvent::Start, 0);
    assert_eq!(
        response,
        vec![
            ConsensusResponse::BroadcastProposal {
                proposal: 0,
                valid_round: None,
                round: 0,
            },
            ConsensusResponse::BroadcastPrevote {
                proposal: Some(0),
                round: 0
            }
        ]
    );
    for node in nodes.iter_mut() {
        let response = node.progress(ConsensusEvent::Start, 0);
        assert_eq!(response, vec![]);
    }

    for node in nodes.iter_mut() {
        let response = node.progress(
            ConsensusEvent::BlockProposalReceived {
                proposal: 0,
                valid: true,
                valid_round: None,
                proposer: 0,
                round: 0,
                favor: true,
            },
            1,
        );
        assert_eq!(
            response,
            vec![ConsensusResponse::BroadcastPrevote {
                proposal: Some(0),
                round: 0,
            }]
        );
    }

    let mut nodes = vec![vec![proposer], nodes].concat();

    for (i, node) in nodes.iter_mut().enumerate() {
        let response = node.progress(
            ConsensusEvent::Prevote {
                proposal: Some(0),
                signer: (i + 1) % 5,
                round: 0,
            },
            2,
        );
        assert_eq!(response, Vec::new());
        let response = node.progress(
            ConsensusEvent::Prevote {
                proposal: Some(0),
                signer: (i + 2) % 5,
                round: 0,
            },
            2,
        );
        assert_eq!(response, Vec::new());
        let response = node.progress(
            ConsensusEvent::Prevote {
                proposal: Some(0),
                signer: (i + 3) % 5,
                round: 0,
            },
            2,
        );
        assert_eq!(
            response,
            vec![ConsensusResponse::BroadcastPrecommit {
                proposal: Some(0),
                round: 0,
            }]
        );
        let response = node.progress(
            ConsensusEvent::Prevote {
                proposal: Some(0),
                signer: (i + 4) % 5,
                round: 0,
            },
            2,
        );
        assert_eq!(response, Vec::new());
    }

    for (i, node) in nodes.iter_mut().enumerate() {
        let response = node.progress(
            ConsensusEvent::Precommit {
                proposal: Some(0),
                signer: (i + 1) % 5,
                round: 0,
            },
            3,
        );
        assert_eq!(response, Vec::new());
        let response = node.progress(
            ConsensusEvent::Precommit {
                proposal: Some(0),
                signer: (i + 2) % 5,
                round: 0,
            },
            3,
        );
        assert_eq!(response, Vec::new());
        let response = node.progress(
            ConsensusEvent::Precommit {
                proposal: Some(0),
                signer: (i + 3) % 5,
                round: 0,
            },
            3,
        );
        assert_eq!(
            response,
            vec![ConsensusResponse::FinalizeBlock {
                proposal: 0,
                proof: (0..5).into_iter().filter(|x| *x != (i + 4) % 5).collect(),
            }]
        );
    }
}

fn five_twos(me: usize) -> HeightInfo {
    HeightInfo {
        validators: vec![2, 2, 2, 2, 2],
        this_node_index: Some(me),
        timestamp: 0,
        consensus_params: ConsensusParams {
            timeout_ms: 100,
            repeat_round_for_first_leader: 1,
        },
        initial_block_candidate: 7,
    }
}

/// A repeated prevote from the same signer does not retally: the quorum
/// still needs a third distinct signer.
#[test]
fn duplicate_prevote_is_ignored() {
    let mut node = Vetomint::new(five_twos(0));
    let response = node.progress(ConsensusEvent::Start, 0);
    assert_eq!(response.len(), 2);
    let ev = |signer: usize| ConsensusEvent::Prevote {
        proposal: Some(7),
        signer,
        round: 0,
    };
    assert_eq!(node.progress(ev(1), 1), vec![]);
    assert_eq!(node.progress(ev(1), 1), vec![]);
    assert_eq!(node.progress(ev(2), 1), vec![]);
    // weight so far: own 2 + signers 1 and 2 = 6 of 10, not a strict
    // two-thirds; the duplicate must not have counted.
    let response = node.progress(ev(3), 1);
    assert_eq!(
        response,
        vec![ConsensusResponse::BroadcastPrecommit {
            proposal: Some(7),
            round: 0,
        }]
    );
}

/// After locking on a value, the node re-proposes it on a later round it
/// leads, carrying the lock's round as justification.
#[test]
fn lock_is_reproposed_after_timeout() {
    let mut node = Vetomint::new(five_twos(1));
    assert_eq!(node.progress(ConsensusEvent::Start, 0), vec![]);
    let response = node.progress(
        ConsensusEvent::BlockProposalReceived {
            proposal: 42,
            valid: true,
            valid_round: None,
            proposer: 0,
            round: 0,
            favor: true,
        },
        1,
    );
    assert_eq!(
        response,
        vec![ConsensusResponse::BroadcastPrevote {
            proposal: Some(42),
            round: 0,
        }]
    );
    for signer in [0, 2] {
        assert_eq!(
            node.progress(
                ConsensusEvent::Prevote {
                    proposal: Some(42),
                    signer,
                    round: 0,
                },
                2,
            ),
            vec![]
        );
    }
    // third distinct prevote: locked on 42 at round 0, precommit follows
    let response = node.progress(
        ConsensusEvent::Prevote {
            proposal: Some(42),
            signer: 3,
            round: 0,
        },
        2,
    );
    assert_eq!(
        response,
        vec![ConsensusResponse::BroadcastPrecommit {
            proposal: Some(42),
            round: 0,
        }]
    );
    // the round times out; node 1 proposes round 1 and must re-propose 42
    let response = node.progress(ConsensusEvent::Timer, 100);
    assert_eq!(
        response,
        vec![
            ConsensusResponse::BroadcastProposal {
                proposal: 42,
                valid_round: Some(0),
                round: 1,
            },
            ConsensusResponse::BroadcastPrevote {
                proposal: Some(42),
                round: 1,
            }
        ]
    );
}

/// A timer before the round's deadline does nothing; at the deadline the
/// round advances and its proposer announces a candidate.
#[test]
fn early_timer_is_a_no_op() {
    let mut node = Vetomint::new(five_twos(1));
    assert_eq!(node.progress(ConsensusEvent::Start, 0), vec![]);
    assert_eq!(node.progress(ConsensusEvent::Timer, 99), vec![]);
    let response = node.progress(ConsensusEvent::Timer, 100);
    assert_eq!(
        response,
        vec![
            ConsensusResponse::BroadcastProposal {
                proposal: 7,
                valid_round: None,
                round: 1,
            },
            ConsensusResponse::BroadcastPrevote {
                proposal: Some(7),
                round: 1,
            }
        ]
    );
}

/// A single-validator height finalizes in one bootstrap cascade.
#[test]
fn single_validator_finalizes_on_start() {
    let info = HeightInfo {
        validators: vec![1],
        this_node_index: Some(0),
        timestamp: 0,
        consensus_params: ConsensusParams {
            timeout_ms: 50,
            repeat_round_for_first_leader: 0,
        },
        initial_block_candidate: 5,
    };
    let mut node = Vetomint::new(info);
    let response = node.progress(ConsensusEvent::Start, 0);
    assert_eq!(
        response,
        vec![
            ConsensusResponse::BroadcastProposal {
                proposal: 5,
                valid_round: None,
                round: 0,
            },
            ConsensusResponse::BroadcastPrevote {
                proposal: Some(5),
                round: 0,
            },
            ConsensusResponse::BroadcastPrecommit {
                proposal: Some(5),
                round: 0,
            },
            ConsensusResponse::FinalizeBlock {
                proposal: 5,
                proof: vec![0],
            },
        ]
    );
    // terminal: every further event is rejected without effect
    assert_eq!(node.progress(ConsensusEvent::Start, 1), vec![]);
    assert_eq!(
        node.progress(
            ConsensusEvent::Prevote {
                proposal: Some(5),
                signer: 0,
                round: 0,
            },
            1,
        ),
        vec![]
    );
}

/// An observer without a local identity tallies and finalizes but never
/// broadcasts.
#[test]
fn observer_finalizes_without_broadcasting() {
    let info = HeightInfo {
        validators: vec![2, 2, 2, 2, 2],
        this_node_index: None,
        timestamp: 0,
        consensus_params: ConsensusParams {
            timeout_ms: 100,
            repeat_round_for_first_leader: 1,
        },
        initial_block_candidate: 0,
    };
    let mut node = Vetomint::new(info);
    assert_eq!(node.progress(ConsensusEvent::Start, 0), vec![]);
    assert_eq!(
        node.progress(
            ConsensusEvent::BlockProposalReceived {
                proposal: 9,
                valid: true,
                valid_round: None,
                proposer: 0,
                round: 0,
                favor: true,
            },
            1,
        ),
        vec![]
    );
    for signer in [0, 1, 2] {
        assert_eq!(
            node.progress(
                ConsensusEvent::Precommit {
                    proposal: Some(9),
                    signer,
                    round: 0,
                },
                2,
            ),
            vec![]
        );
    }
    let response = node.progress(
        ConsensusEvent::Precommit {
            proposal: Some(9),
            signer: 3,
            round: 0,
        },
        2,
    );
    assert_eq!(
        response,
        vec![ConsensusResponse::FinalizeBlock {
            proposal: 9,
            proof: vec![0, 1, 2, 3],
        }]
    );
}

/// A locked node refuses a conflicting later proposal (nil prevote) but
/// accepts the locked value re-justified from the lock's round.
#[test]
fn lock_constrains_later_prevotes() {
    // two engines in the same situation: node 2 locks on 42 in round 0
    let mut conflicted = Vetomint::new(five_twos(2));
    let mut rejustified = Vetomint::new(five_twos(2));
    for node in [&mut conflicted, &mut rejustified] {
        assert_eq!(node.progress(ConsensusEvent::Start, 0), vec![]);
        node.progress(
            ConsensusEvent::BlockProposalReceived {
                proposal: 42,
                valid: true,
                valid_round: None,
                proposer: 0,
                round: 0,
                favor: true,
            },
            1,
        );
        for signer in [0, 1, 3] {
            node.progress(
                ConsensusEvent::Prevote {
                    proposal: Some(42),
                    signer,
                    round: 0,
                },
                2,
            );
        }
        // locked on (42, round 0); the round then times out
        assert_eq!(node.progress(ConsensusEvent::Timer, 100).len(), 0);
    }
    // a different candidate without justification draws a nil prevote
    let response = conflicted.progress(
        ConsensusEvent::BlockProposalReceived {
            proposal: 99,
            valid: true,
            valid_round: None,
            proposer: 1,
            round: 1,
            favor: true,
        },
        101,
    );
    assert_eq!(
        response,
        vec![ConsensusResponse::BroadcastPrevote {
            proposal: None,
            round: 1,
        }]
    );
    // the locked value itself is favored again
    let response = rejustified.progress(
        ConsensusEvent::BlockProposalReceived {
            proposal: 42,
            valid: true,
            valid_round: Some(0),
            proposer: 1,
            round: 1,
            favor: true,
        },
        101,
    );
    assert_eq!(
        response,
        vec![ConsensusResponse::BroadcastPrevote {
            proposal: Some(42),
            round: 1,
        }]
    );
}

/// Votes for a round ahead of the node are recorded and count once the
/// node reaches that round.
#[test]
fn future_round_votes_are_buffered() {
    let mut node = Vetomint::new(five_twos(4));
    assert_eq!(node.progress(ConsensusEvent::Start, 0), vec![]);
    for signer in [0, 2] {
        assert_eq!(
            node.progress(
                ConsensusEvent::Prevote {
                    proposal: Some(3),
                    signer,
                    round: 1,
                },
                1,
            ),
            vec![]
        );
    }
    assert_eq!(node.progress(ConsensusEvent::Timer, 100), vec![]);
    let response = node.progress(
        ConsensusEvent::BlockProposalReceived {
            proposal: 3,
            valid: true,
            valid_round: None,
            proposer: 1,
            round: 1,
            favor: true,
        },
        101,
    );
    assert_eq!(
        response,
        vec![ConsensusResponse::BroadcastPrevote {
            proposal: Some(3),
            round: 1,
        }]
    );
    // buffered signers 0 and 2 plus the node's own prevote weigh 6; one
    // more distinct prevote crosses the threshold
    let response = node.progress(
        ConsensusEvent::Prevote {
            proposal: Some(3),
            signer: 1,
            round: 1,
        },
        102,
    );
    assert_eq!(
        response,
        vec![ConsensusResponse::BroadcastPrecommit {
            proposal: Some(3),
            round: 1,
        }]
    );
}

/// A nil precommit quorum fails the round at once: the engine moves on
/// without waiting for the timeout.
#[test]
fn nil_precommit_quorum_advances_round() {
    let info = HeightInfo {
        validators: vec![1, 1, 1],
        this_node_index: Some(2),
        timestamp: 0,
        consensus_params: ConsensusParams {
            timeout_ms: 100,
            repeat_round_for_first_leader: 0,
        },
        initial_block_candidate: 0,
    };
    let mut node = Vetomint::new(info);
    assert_eq!(node.progress(ConsensusEvent::Start, 0), vec![]);
    for signer in [0, 1] {
        assert_eq!(
            node.progress(
                ConsensusEvent::Prevote {
                    proposal: None,
                    signer,
                    round: 0,
                },
                1,
            ),
            vec![]
        );
    }
    // the node's own nil prevote completes the quorum, so it precommits nil
    let response = node.progress(
        ConsensusEvent::Prevote {
            proposal: None,
            signer: 2,
            round: 0,
        },
        1,
    );
    assert_eq!(
        response,
        vec![ConsensusResponse::BroadcastPrecommit {
            proposal: None,
            round: 0,
        }]
    );
    // two more nil precommits reach a nil quorum: the round advances, and
    // round-0 events become stale
    assert_eq!(
        node.progress(
            ConsensusEvent::Precommit {
                proposal: None,
                signer: 0,
                round: 0,
            },
            2,
        ),
        vec![]
    );
    assert_eq!(
        node.progress(
            ConsensusEvent::Precommit {
                proposal: None,
                signer: 1,
                round: 0,
            },
            2,
        ),
        vec![]
    );
    assert_eq!(
        node.progress(
            ConsensusEvent::Prevote {
                proposal: Some(0),
                signer: 0,
                round: 0,
            },
            3,
        ),
        vec![]
    );
}
