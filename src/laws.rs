use vstd::prelude::*;
use crate::model::{
    lemma_register_wf, lemma_same_identities, lemma_user_at, lemma_with_balance, LedgerV,
    MIN_PROPOSAL_BALANCE, REGISTRATION_REWARD,
};
use crate::types::{EcoError, ProposalV, SubmissionV, UserV, VoteChoice};

verus! {

/// Registering one identity twice succeeds at most once: the second call
/// fails with `Unauthorized` and changes nothing, and when the first call
/// succeeds the balance is exactly the registration reward afterwards.
pub proof fn law_register_once(s: LedgerV, id: Seq<u8>, t1: u64, t2: u64)
    requires
        s.wf(),
    ensures
        ({
            let (s1, r1) = s.register(id, t1);
            let (s2, r2) = s1.register(id, t2);
            &&& r2 == Err::<UserV, EcoError>(EcoError::Unauthorized)
            &&& s2 == s1
            &&& !(r1 is Ok && r2 is Ok)
            &&& !s.has_user(id) ==> r1 is Ok && s2.balance_of(id) == REGISTRATION_REWARD
        }),
{
    let s1 = s.register(id, t1).0;
    lemma_register_wf(s, id, t1);
    if !s.has_user(id) {
        let k = s.user_slot(id);
        assert(s1.users[k].principal == id);
        lemma_user_at(s1, k);
    }
}

/// A transfer between two distinct accounts that the sender's balance
/// covers, and that keeps the receiver's balance within `u64`, succeeds:
/// the sender loses exactly `amount`, the receiver gains exactly `amount`,
/// their sum is unchanged, and no other balance moves.
pub proof fn law_transfer_conserves(s: LedgerV, from: Seq<u8>, to: Seq<u8>, amount: u64)
    requires
        s.wf(),
        s.has_user(from),
        s.has_user(to),
        from != to,
        amount <= s.balance_of(from),
        s.balance_of(to) + amount <= u64::MAX,
    ensures
        ({
            let (t, r) = s.transfer(from, to, amount);
            &&& r is Ok
            &&& t.balance_of(from) == s.balance_of(from) - amount
            &&& t.balance_of(to) == s.balance_of(to) + amount
            &&& t.balance_of(from) + t.balance_of(to) == s.balance_of(from) + s.balance_of(to)
            &&& forall|x: Seq<u8>|
                s.has_user(x) && x != from && x != to ==> #[trigger] t.balance_of(x)
                    == s.balance_of(x)
        }),
{
    let d = s.with_balance(from, (s.balance_of(from) - amount) as u64);
    lemma_with_balance(s, from, (s.balance_of(from) - amount) as u64);
    lemma_with_balance(d, to, (d.balance_of(to) + amount) as u64);
}

/// A transfer of more than the sender's balance fails with
/// `InsufficientBalance` and leaves every balance unchanged.
pub proof fn law_transfer_guard(s: LedgerV, from: Seq<u8>, to: Seq<u8>, amount: u64)
    requires
        s.has_user(from),
        amount > s.balance_of(from),
    ensures
        s.transfer(from, to, amount) == (s, Err::<(), EcoError>(EcoError::InsufficientBalance)),
{
}

/// After a successful vote, a second vote by the same identity on the same
/// proposal fails with `AlreadyVoted` and changes nothing, whatever its
/// choice.
pub proof fn law_vote_once(s: LedgerV, v: Seq<u8>, pid: u64, first: VoteChoice, second: VoteChoice)
    requires
        s.wf(),
        s.vote(v, pid, first).1 is Ok,
    ensures
        ({
            let s1 = s.vote(v, pid, first).0;
            s1.vote(v, pid, second) == (s1, Err::<ProposalV, EcoError>(EcoError::AlreadyVoted))
        }),
{
    let p = LedgerV::tallied(s.proposal(pid), v, first);
    let t = LedgerV { proposals: s.proposals.update(pid - 1, p), ..s };
    let s1 = s.vote(v, pid, first).0;
    lemma_same_identities(s, t);
    let i = t.user_index(v);
    assert(s1.users[i].principal == v);
    assert(s1.proposal(pid).voters[p.voters.len() - 1] == v);
}

/// A submitter's attempt to validate their own submission fails with
/// `Unauthorized` and leaves it unvalidated.
pub proof fn law_no_self_validation(s: LedgerV, v: Seq<u8>, sid: u64)
    requires
        s.has_user(v),
        s.has_submission(sid),
        s.submission(sid).submitter == v,
        !s.submission(sid).validated,
    ensures
        s.validate(v, sid) == (s, Err::<SubmissionV, EcoError>(EcoError::Unauthorized)),
{
}

/// After a successful validation, any registered identity that tries to
/// validate the same submission fails with `AlreadyValidated` and changes
/// nothing.
pub proof fn law_validate_once(s: LedgerV, v1: Seq<u8>, v2: Seq<u8>, sid: u64)
    requires
        s.wf(),
        s.validate(v1, sid).1 is Ok,
        s.validate(v1, sid).0.has_user(v2),
    ensures
        ({
            let s1 = s.validate(v1, sid).0;
            s1.validate(v2, sid) == (s1, Err::<SubmissionV, EcoError>(EcoError::AlreadyValidated))
        }),
{
    let d = SubmissionV { validated: true, validator: Some(v1), ..s.submission(sid) };
    let t = LedgerV { submissions: s.submissions.update(sid - 1, d), ..s };
    lemma_same_identities(s, t);
}

/// Creating a proposal with a balance below the minimum fails with
/// `InsufficientBalance` and leaves the proposal counter where it was, so
/// the next successful creation still takes the next id in sequence.
pub proof fn law_min_stake(
    s: LedgerV,
    c: Seq<u8>,
    description: Seq<char>,
    now: u64,
    c2: Seq<u8>,
    description2: Seq<char>,
    now2: u64,
)
    requires
        s.has_user(c),
        s.balance_of(c) < MIN_PROPOSAL_BALANCE,
    ensures
        ({
            let (s1, r1) = s.create(c, description, now);
            let r2 = s1.create(c2, description2, now2).1;
            &&& r1 == Err::<ProposalV, EcoError>(EcoError::InsufficientBalance)
            &&& s1 == s
            &&& r2 is Ok ==> r2->Ok_0.id == s.last_proposal_id + 1
        }),
{
}

} // verus!
