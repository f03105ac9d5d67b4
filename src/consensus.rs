use vstd::prelude::*;
use vstd::arithmetic::div_mod::lemma_hoist_over_denominator;
use crate::model::{contains_key, has_key, AccountId, GovernanceError, Vote, VoteView, Work, WorkView};

verus! {

/// The fee, in whole currency units, attached to each vote.
pub const VOTE_FEE: u128 = 1;

/// How many of the ballots agree.
pub open spec fn agree_count(votes: Seq<VoteView>) -> nat
    decreases votes.len(),
{
    if votes.len() == 0 {
        0
    } else {
        agree_count(votes.drop_last()) + if votes.last().decision { 1nat } else { 0nat }
    }
}

/// The ballots a group of more than two needs: three quarters of the
/// members other than the author, that is of the collaborators, rounded down.
pub open spec fn quorum_size(collaborators: nat) -> nat {
    (3 * collaborators / 4) as nat
}

/// The caller has voted, and either the group has at most two members or
/// enough votes have been cast.
pub open spec fn quorum_met(votes: Seq<VoteView>, collaborators: nat, caller: Seq<char>) -> bool {
    &&& has_key::<Vote>(votes, caller)
    &&& (collaborators + 1 <= 2 || votes.len() >= quorum_size(collaborators))
}

/// How an open round resolves for `caller`: approved when quorum is met and
/// agreeing ballots outnumber the others.
pub open spec fn consensus(votes: Seq<VoteView>, collaborators: nat, caller: Seq<char>) -> Result<(), GovernanceError> {
    if !quorum_met(votes, collaborators, caller) {
        Err(GovernanceError::QuorumNotMet)
    } else if agree_count(votes) > votes.len() - agree_count(votes) {
        Ok(())
    } else {
        Err(GovernanceError::ConsensusRejected)
    }
}

/// How the round on `w` resolves for `caller`; with no open round, quorum is not met.
pub open spec fn round_outcome(w: WorkView, caller: Seq<char>) -> Result<(), GovernanceError> {
    match w.votes {
        Some(v) => consensus(v, w.collaborators.len(), caller),
        None => Err(GovernanceError::QuorumNotMet),
    }
}

/// The ballots of the open round, or none when no round is open.
pub open spec fn ballots(w: WorkView) -> Seq<VoteView> {
    match w.votes {
        Some(v) => v,
        None => Seq::empty(),
    }
}

/// The work after `voter` casts `decision` at time `now`, opening a round if none is open.
pub open spec fn with_vote(w: WorkView, voter: Seq<char>, decision: bool, now: u64) -> WorkView {
    WorkView {
        votes: Some(ballots(w).push(VoteView { voter, decision, timestamp: now })),
        ..w
    }
}

/// Three quarters of `n`, rounded down, computed without overflow.
pub fn quorum_of(n: usize) -> (r: usize)
    ensures
        r == quorum_size(n as nat),
{
    let a = n / 4;
    let b = n % 4;
    proof {
        lemma_hoist_over_denominator(3 * b as int, 3 * a as int, 4);
        assert(3 * n == 3 * b + (3 * a) * 4);
    }
    a * 3 + b * 3 / 4
}

/// The number of agreeing ballots.
pub fn count_agree(votes: &Vec<Vote>) -> (r: usize)
    ensures
        r == agree_count(votes.deep_view()),
        r <= votes@.len(),
{
    let ghost s = votes.deep_view();
    let mut count: usize = 0;
    let mut i: usize = 0;
    while i < votes.len()
        invariant
            s == votes.deep_view(),
            i <= s.len(),
            count == agree_count(s.take(i as int)),
            count <= i,
        decreases s.len() - i,
    {
        assert(s.take(i + 1).drop_last() =~= s.take(i as int));
        assert(s[i as int] == votes@[i as int].deep_view());
        if votes[i].decision {
            count += 1;
        }
        i += 1;
    }
    assert(s.take(i as int) =~= s);
    count
}

/// Resolves an open round for `caller` on a work with `collaborators` co-owners.
pub fn evaluate_consensus(votes: &Vec<Vote>, collaborators: usize, caller: &AccountId) -> (r: Result<(), GovernanceError>)
    ensures
        r == consensus(votes.deep_view(), collaborators as nat, caller@),
{
    let caller_voted = contains_key(votes, caller);
    let total_votes = votes.len();
    if !(caller_voted && (collaborators <= 1 || total_votes >= quorum_of(collaborators))) {
        return Err(GovernanceError::QuorumNotMet);
    }
    let agree = count_agree(votes);
    if agree > total_votes - agree {
        Ok(())
    } else {
        Err(GovernanceError::ConsensusRejected)
    }
}

/// Resolves the open round of `work` for `caller`.
pub fn resolve_round(work: &Work, caller: &AccountId) -> (r: Result<(), GovernanceError>)
    ensures
        r == round_outcome(work@, caller@),
{
    match &work.votes {
        Some(votes) => evaluate_consensus(votes, work.collaborators.len(), caller),
        None => Err(GovernanceError::QuorumNotMet),
    }
}

/// Casts `voter`'s ballot on `work`, opening a round if none is open.
/// Fails with `AlreadyVoted`, changing nothing, when `voter` already voted in the open round.
pub fn cast_vote(work: &mut Work, voter: &AccountId, decision: bool, now: u64) -> (r: Result<(), GovernanceError>)
    ensures
        has_key::<Vote>(ballots(old(work)@), voter@) ==> r == Err::<(), GovernanceError>(GovernanceError::AlreadyVoted) && final(work)@ == old(work)@,
        !has_key::<Vote>(ballots(old(work)@), voter@) ==> r is Ok && final(work)@ == with_vote(old(work)@, voter@, decision, now),
{
    let ballot = Vote { voter: voter.clone(), decision, timestamp: now };
    match work.votes.take() {
        Some(mut votes) => {
            if contains_key(&votes, voter) {
                work.votes = Some(votes);
                return Err(GovernanceError::AlreadyVoted);
            }
            let ghost prior = votes.deep_view();
            votes.push(ballot);
            assert(votes.deep_view() =~= prior.push(ballot.deep_view()));
            work.votes = Some(votes);
        },
        None => {
            let mut votes: Vec<Vote> = Vec::new();
            votes.push(ballot);
            assert(votes.deep_view() =~= Seq::<VoteView>::empty().push(ballot.deep_view()));
            work.votes = Some(votes);
        },
    }
    Ok(())
}

} // verus!
