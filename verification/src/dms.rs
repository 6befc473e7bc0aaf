//! Decision kernels of the repository-synchronization layer that carries
//! finalized data between peers as an append-only message log.
//!
//! Receivers get no ordering guarantee, so a sender publishes one branch
//! message naming the ordered commit hashes of a branch, followed by one
//! commit message per hash, and a receiver matches commit content to
//! position through the hashes. The functions here decide what to publish
//! and how to place a received commit; reading and writing the repository
//! and the message log stay with the caller.

use vstd::prelude::*;

verus! {

/// A commit identity, as the plain value the kernels compare.
pub type CommitHash = u64;

/// Which kind of branch a message log entry describes.
#[derive(Clone, Copy, Debug, PartialEq, Eq)]
pub enum BranchType {
    Agenda,
    AgendaProof,
    Block,
}

/// One commit's content together with its identity and the finalized
/// commit it hangs from.
#[derive(Clone, Debug, PartialEq, Eq)]
pub struct PayloadCommit {
    pub commit: Vec<u8>,
    pub hash: CommitHash,
    pub parent_hash: CommitHash,
}

/// The ordered commit hashes of one branch, starting from the next commit
/// of the finalized one, with the name under which to recreate it.
#[derive(Clone, Debug, PartialEq, Eq)]
pub struct PayloadBranch {
    pub branch_type: BranchType,
    pub commit_hashes: Vec<CommitHash>,
    pub branch_name: Vec<u8>,
}

/// One entry of the append-only message log.
#[derive(Clone, Debug, PartialEq, Eq)]
pub enum Message {
    Commit(PayloadCommit),
    Branch(PayloadBranch),
}

/// How a received commit is applied to the local repository.
#[derive(Clone, Copy, Debug, PartialEq, Eq)]
pub enum UpdateDecision {
    /// The commit extends the finalized commit directly.
    ApplyToFinalized,
    /// The commit extends the head of the named existing branch.
    ApplyToBranch(usize),
    /// No known parent yet: wait for the branch message to arrive first.
    Defer,
}

/// Branch names starting `a-` carry agendas and `b-` carry blocks; any
/// other branch is not published.
pub open spec fn spec_branch_kind(name: Seq<u8>) -> Option<BranchType> {
    if name.len() >= 2 && name[0] == 97u8 && name[1] == 45u8 {
        Some(BranchType::Agenda)
    } else if name.len() >= 2 && name[0] == 98u8 && name[1] == 45u8 {
        Some(BranchType::Block)
    } else {
        None
    }
}

/// Classifies a branch name for publication.
pub fn branch_kind(name: &Vec<u8>) -> (r: Option<BranchType>)
    ensures
        r == spec_branch_kind(name@),
{
    if name.len() >= 2 && name[0] == 97u8 && name[1] == 45u8 {
        Some(BranchType::Agenda)
    } else if name.len() >= 2 && name[0] == 98u8 && name[1] == 45u8 {
        Some(BranchType::Block)
    } else {
        None
    }
}

fn copy_bytes(src: &Vec<u8>) -> (r: Vec<u8>)
    ensures
        r@ == src@,
{
    let mut r: Vec<u8> = Vec::new();
    let mut i: usize = 0;
    while i < src.len()
        invariant
            i <= src.len(),
            r@ == src@.take(i as int),
        decreases src.len() - i,
    {
        r.push(src[i]);
        proof {
            assert(r@ =~= src@.take(i + 1));
        }
        i += 1;
    }
    proof {
        assert(src@.take(src@.len() as int) =~= src@);
    }
    r
}

/// What the commit message for one published commit must hold.
pub open spec fn commit_msg_ok(x: Message, entry: (CommitHash, Vec<u8>), parent: CommitHash) -> bool {
    match x {
        Message::Commit(pc) => pc.hash == entry.0
            && pc.commit@ == entry.1@
            && pc.parent_hash == parent,
        Message::Branch(_) => false,
    }
}

/// What the branch message that opens a publication must hold.
pub open spec fn branch_msg_ok(
    x: Message,
    bt: BranchType,
    name: Seq<u8>,
    commits: Seq<(CommitHash, Vec<u8>)>,
) -> bool {
    match x {
        Message::Branch(pb) => pb.branch_type == bt
            && pb.branch_name@ == name
            && pb.commit_hashes@.len() == commits.len()
            && (forall|k: int| 0 <= k < commits.len() ==> pb.commit_hashes@[k] == (#[trigger] commits[k]).0),
        Message::Commit(_) => false,
    }
}

/// The messages that publish one branch: nothing for a branch that is not
/// an agenda or block branch; otherwise the branch message naming the
/// hashes in order, then one commit message per hash, parented on the
/// finalized commit, in the same order.
pub fn branch_messages(
    branch_name: &Vec<u8>,
    commits: &Vec<(CommitHash, Vec<u8>)>,
    last_finalized: CommitHash,
) -> (r: Vec<Message>)
    ensures
        spec_branch_kind(branch_name@) is None ==> r@.len() == 0,
        (match spec_branch_kind(branch_name@) {
            Some(bt) => r@.len() == 1 + commits@.len()
                && branch_msg_ok(r@[0], bt, branch_name@, commits@)
                && forall|i: int| 0 <= i < commits@.len()
                    ==> commit_msg_ok(#[trigger] r@[1 + i], commits@[i], last_finalized),
            None => true,
        }),
{
    let kind = branch_kind(branch_name);
    let bt = match kind {
        None => {
            let r: Vec<Message> = Vec::new();
            return r;
        },
        Some(b) => b,
    };
    let mut r: Vec<Message> = Vec::new();
    let mut hashes: Vec<CommitHash> = Vec::new();
    let mut i: usize = 0;
    while i < commits.len()
        invariant
            i <= commits.len(),
            hashes@.len() == i,
            forall|j: int| 0 <= j < i ==> hashes@[j] == (#[trigger] commits@[j]).0,
        decreases commits.len() - i,
    {
        hashes.push(commits[i].0);
        i += 1;
    }
    r.push(Message::Branch(PayloadBranch {
        branch_type: bt,
        commit_hashes: hashes,
        branch_name: copy_bytes(branch_name),
    }));
    proof {
        assert(branch_msg_ok(r@[0], bt, branch_name@, commits@));
    }
    let mut i: usize = 0;
    while i < commits.len()
        invariant
            i <= commits.len(),
            r@.len() == 1 + i,
            branch_msg_ok(r@[0], bt, branch_name@, commits@),
            forall|j: int| 0 <= j < i
                ==> commit_msg_ok(#[trigger] r@[1 + j], commits@[j], last_finalized),
        decreases commits.len() - i,
    {
        let content = copy_bytes(&commits[i].1);
        let msg = Message::Commit(PayloadCommit {
            commit: content,
            hash: commits[i].0,
            parent_hash: last_finalized,
        });
        let ghost m = msg;
        let ghost rprev = r@;
        r.push(msg);
        proof {
            assert(r@ == rprev.push(m));
            assert(commit_msg_ok(m, commits@[i as int], last_finalized));
            assert forall|j: int| 0 <= j < i + 1
                implies commit_msg_ok(#[trigger] r@[1 + j], commits@[j], last_finalized) by {
                if j < i {
                    assert(r@[1 + j] == rprev[1 + j]);
                    assert(commit_msg_ok(rprev[1 + j], commits@[j], last_finalized));
                } else {
                    assert(r@[1 + j] == m);
                }
            }
        }
        i += 1;
    }
    proof {
        assert(spec_branch_kind(branch_name@) == Some(bt));
    }
    r
}

/// Where a received commit belongs: under the finalized commit when it is
/// its direct child, under the first branch whose head it extends, and
/// nowhere yet otherwise.
pub fn commit_application(
    parent_hash: CommitHash,
    last_finalized: CommitHash,
    branch_heads: &Vec<CommitHash>,
) -> (d: UpdateDecision)
    ensures
        parent_hash == last_finalized ==> d == UpdateDecision::ApplyToFinalized,
        parent_hash != last_finalized ==> (match d {
            UpdateDecision::ApplyToBranch(i) => i < branch_heads@.len()
                && branch_heads@[i as int] == parent_hash
                && forall|j: int| 0 <= j < i ==> branch_heads@[j] != parent_hash,
            UpdateDecision::Defer =>
                forall|j: int| 0 <= j < branch_heads@.len() ==> branch_heads@[j] != parent_hash,
            UpdateDecision::ApplyToFinalized => false,
        }),
{
    if parent_hash == last_finalized {
        return UpdateDecision::ApplyToFinalized;
    }
    let mut i: usize = 0;
    while i < branch_heads.len()
        invariant
            i <= branch_heads.len(),
            parent_hash != last_finalized,
            forall|j: int| 0 <= j < i ==> branch_heads@[j] != parent_hash,
        decreases branch_heads.len() - i,
    {
        if branch_heads[i] == parent_hash {
            return UpdateDecision::ApplyToBranch(i);
        }
        i += 1;
    }
    UpdateDecision::Defer
}

} // verus!
