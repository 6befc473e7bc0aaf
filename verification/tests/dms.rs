use vetomint::dms::{
    branch_kind, branch_messages, commit_application, BranchType, Message, PayloadBranch,
    PayloadCommit, UpdateDecision,
};

#[test]
fn branch_names_classify_by_prefix() {
    assert_eq!(branch_kind(&b"a-agenda".to_vec()), Some(BranchType::Agenda));
    assert_eq!(branch_kind(&b"b-block".to_vec()), Some(BranchType::Block));
    assert_eq!(branch_kind(&b"a-".to_vec()), Some(BranchType::Agenda));
    assert_eq!(branch_kind(&b"main".to_vec()), None);
    assert_eq!(branch_kind(&b"a".to_vec()), None);
    assert_eq!(branch_kind(&b"".to_vec()), None);
}

#[test]
fn agenda_branch_publishes_branch_then_commits() {
    let name = b"a-agenda".to_vec();
    let commits = vec![(11u64, b"first".to_vec()), (12u64, b"second".to_vec())];
    let messages = branch_messages(&name, &commits, 10);
    assert_eq!(
        messages,
        vec![
            Message::Branch(PayloadBranch {
                branch_type: BranchType::Agenda,
                commit_hashes: vec![11, 12],
                branch_name: b"a-agenda".to_vec(),
            }),
            Message::Commit(PayloadCommit {
                commit: b"first".to_vec(),
                hash: 11,
                parent_hash: 10,
            }),
            Message::Commit(PayloadCommit {
                commit: b"second".to_vec(),
                hash: 12,
                parent_hash: 10,
            }),
        ]
    );
}

#[test]
fn block_branch_publishes_block_type() {
    let name = b"b-block".to_vec();
    let commits = vec![(21u64, b"c".to_vec())];
    let messages = branch_messages(&name, &commits, 20);
    assert!(matches!(
        &messages[0],
        Message::Branch(PayloadBranch {
            branch_type: BranchType::Block,
            ..
        })
    ));
    assert_eq!(messages.len(), 2);
}

#[test]
fn other_branches_are_not_published() {
    let name = b"feature".to_vec();
    let commits = vec![(31u64, b"c".to_vec())];
    assert_eq!(branch_messages(&name, &commits, 30), vec![]);
}

#[test]
fn received_commit_placement() {
    let heads = vec![5u64, 6, 7, 6];
    assert_eq!(
        commit_application(9, 9, &heads),
        UpdateDecision::ApplyToFinalized
    );
    // the first branch whose head matches wins
    assert_eq!(
        commit_application(6, 9, &heads),
        UpdateDecision::ApplyToBranch(1)
    );
    assert_eq!(commit_application(8, 9, &heads), UpdateDecision::Defer);
    assert_eq!(commit_application(8, 9, &Vec::new()), UpdateDecision::Defer);
}
