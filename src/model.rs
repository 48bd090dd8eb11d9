use vstd::prelude::*;
use crate::order::{id_lt, lemma_id_irreflexive, lemma_id_total, lemma_id_transitive};
use crate::types::{EcoError, ProposalV, SubmissionV, UserV, VoteChoice};

verus! {

/// The nominal total token supply. It is reported, not enforced.
pub const TOTAL_SUPPLY: u64 = 100_000_000;
/// Credited to a new account.
pub const REGISTRATION_REWARD: u64 = 1_000;
/// Credited to the submitter of a data record.
pub const DATA_SUBMISSION_REWARD: u64 = 50;
/// Credited to the validator of a data record.
pub const VALIDATION_REWARD: u64 = 25;
/// Credited to a voter.
pub const GOVERNANCE_REWARD: u64 = 10;
/// The balance an account needs to create a proposal.
pub const MIN_PROPOSAL_BALANCE: u64 = 1_000;

/// Holds of a submission not validated yet.
pub open spec fn is_unvalidated() -> spec_fn(SubmissionV) -> bool {
    |d: SubmissionV| !d.validated
}

/// Holds of a validated submission.
pub open spec fn is_validated() -> spec_fn(SubmissionV) -> bool {
    |d: SubmissionV| d.validated
}

/// Holds of an active proposal.
pub open spec fn is_active() -> spec_fn(ProposalV) -> bool {
    |p: ProposalV| p.is_active
}

/// Whether accounts are in strictly ascending order of identity.
pub open spec fn sorted_users(users: Seq<UserV>) -> bool {
    forall|i: int, j: int|
        0 <= i < j < users.len() ==> id_lt(
            #[trigger] users[i].principal,
            #[trigger] users[j].principal,
        )
}

/// Whether position `k` is where an account of `id` belongs: after every
/// account that comes before `id`, before every account that comes after it.
pub open spec fn is_slot(users: Seq<UserV>, id: Seq<u8>, k: int) -> bool {
    &&& 0 <= k <= users.len()
    &&& forall|i: int| 0 <= i < k ==> id_lt(#[trigger] users[i].principal, id)
    &&& forall|i: int| k <= i < users.len() ==> id_lt(id, #[trigger] users[i].principal)
}

/// The whole state of the ledger as a mathematical value.
///
/// Accounts are kept in ascending order of identity; proposals and
/// submissions in the order of their ids, which run from 1 without gaps.
pub ghost struct LedgerV {
    pub users: Seq<UserV>,
    pub proposals: Seq<ProposalV>,
    pub submissions: Seq<SubmissionV>,
    /// The last proposal id handed out (0 before the first).
    pub last_proposal_id: u64,
    /// The last submission id handed out (0 before the first).
    pub last_data_id: u64,
}

impl LedgerV {
    pub open spec fn empty() -> LedgerV {
        LedgerV {
            users: Seq::empty(),
            proposals: Seq::empty(),
            submissions: Seq::empty(),
            last_proposal_id: 0,
            last_data_id: 0,
        }
    }

    /// Whether `id` has an account.
    pub open spec fn has_user(self, id: Seq<u8>) -> bool {
        exists|i: int| 0 <= i < self.users.len() && #[trigger] self.users[i].principal == id
    }

    /// The position of the account of `id`.
    pub open spec fn user_index(self, id: Seq<u8>) -> int {
        choose|i: int| 0 <= i < self.users.len() && #[trigger] self.users[i].principal == id
    }

    /// The position at which an account of `id` belongs.
    pub open spec fn user_slot(self, id: Seq<u8>) -> int {
        choose|k: int| is_slot(self.users, id, k)
    }

    /// The account of `id`.
    pub open spec fn user(self, id: Seq<u8>) -> UserV {
        self.users[self.user_index(id)]
    }

    pub open spec fn balance_of(self, id: Seq<u8>) -> u64 {
        self.user(id).balance
    }

    /// Whether crediting `amount` to the account of `id` stays within `u64`.
    pub open spec fn can_credit(self, id: Seq<u8>, amount: u64) -> bool {
        self.balance_of(id) + amount <= u64::MAX
    }

    /// Whether a proposal id names a stored proposal.
    pub open spec fn has_proposal(self, pid: u64) -> bool {
        1 <= pid <= self.proposals.len()
    }

    /// The proposal with id `pid`.
    pub open spec fn proposal(self, pid: u64) -> ProposalV {
        self.proposals[pid - 1]
    }

    /// Whether a submission id names a stored submission.
    pub open spec fn has_submission(self, sid: u64) -> bool {
        1 <= sid <= self.submissions.len()
    }

    /// The submission with id `sid`.
    pub open spec fn submission(self, sid: u64) -> SubmissionV {
        self.submissions[sid - 1]
    }

    pub open spec fn proposal_ok(self, i: int) -> bool {
        let p = self.proposals[i];
        &&& p.id == i + 1
        &&& p.yes_votes + p.no_votes == p.voters.len()
        &&& p.voters.no_duplicates()
        &&& self.has_user(p.creator)
        &&& forall|k: int| 0 <= k < p.voters.len() ==> self.has_user(#[trigger] p.voters[k])
    }

    pub open spec fn submission_ok(self, i: int) -> bool {
        let d = self.submissions[i];
        &&& d.id == i + 1
        &&& self.has_user(d.submitter)
        &&& match d.validator {
            Some(v) => d.validated && v != d.submitter && self.has_user(v),
            None => !d.validated,
        }
    }

    /// The invariants every operation keeps.
    pub open spec fn wf(self) -> bool {
        &&& forall|i: int, j: int|
            0 <= i < j < self.users.len() ==> #[trigger] self.users[i].principal
                != #[trigger] self.users[j].principal
        &&& sorted_users(self.users)
        &&& self.last_proposal_id == self.proposals.len()
        &&& self.last_data_id == self.submissions.len()
        &&& forall|i: int| 0 <= i < self.proposals.len() ==> #[trigger] self.proposal_ok(i)
        &&& forall|i: int| 0 <= i < self.submissions.len() ==> #[trigger] self.submission_ok(i)
    }

    /// The state with the balance of `id` set to `b`.
    pub open spec fn with_balance(self, id: Seq<u8>, b: u64) -> LedgerV {
        let i = self.user_index(id);
        LedgerV { users: self.users.update(i, UserV { balance: b, ..self.users[i] }), ..self }
    }

    /// The state with `amount` credited to `id`.
    pub open spec fn credit(self, id: Seq<u8>, amount: u64) -> LedgerV {
        self.with_balance(id, (self.balance_of(id) + amount) as u64)
    }

    /// Registration of `id` at time `now`.
    pub open spec fn register(self, id: Seq<u8>, now: u64) -> (LedgerV, Result<UserV, EcoError>) {
        if self.has_user(id) {
            (self, Err(EcoError::Unauthorized))
        } else {
            let u = UserV { principal: id, balance: REGISTRATION_REWARD, registered_at: now };
            (LedgerV { users: self.users.insert(self.user_slot(id), u), ..self }, Ok(u))
        }
    }

    /// Submission of `data` by `id` at time `now`.
    pub open spec fn submit(self, id: Seq<u8>, data: Seq<char>, now: u64) -> (
        LedgerV,
        Result<SubmissionV, EcoError>,
    ) {
        if !self.has_user(id) {
            (self, Err(EcoError::UserNotFound))
        } else if self.last_data_id == u64::MAX || !self.can_credit(id, DATA_SUBMISSION_REWARD) {
            (self, Err(EcoError::Overflow))
        } else {
            let d = SubmissionV {
                id: (self.last_data_id + 1) as u64,
                submitter: id,
                data,
                validated: false,
                validator: None,
                submitted_at: now,
            };
            let s = LedgerV {
                submissions: self.submissions.push(d),
                last_data_id: d.id,
                ..self
            };
            (s.credit(id, DATA_SUBMISSION_REWARD), Ok(d))
        }
    }

    /// Validation by `v` of the submission with id `sid`.
    pub open spec fn validate(self, v: Seq<u8>, sid: u64) -> (LedgerV, Result<SubmissionV, EcoError>) {
        if !self.has_user(v) {
            (self, Err(EcoError::UserNotFound))
        } else if !self.has_submission(sid) {
            (self, Err(EcoError::DataNotFound))
        } else if self.submission(sid).validated {
            (self, Err(EcoError::AlreadyValidated))
        } else if self.submission(sid).submitter == v {
            (self, Err(EcoError::Unauthorized))
        } else if !self.can_credit(v, VALIDATION_REWARD) {
            (self, Err(EcoError::Overflow))
        } else {
            let d = SubmissionV { validated: true, validator: Some(v), ..self.submission(sid) };
            let s = LedgerV { submissions: self.submissions.update(sid - 1, d), ..self };
            (s.credit(v, VALIDATION_REWARD), Ok(d))
        }
    }

    /// Creation of a proposal by `c` at time `now`.
    pub open spec fn create(self, c: Seq<u8>, description: Seq<char>, now: u64) -> (
        LedgerV,
        Result<ProposalV, EcoError>,
    ) {
        if !self.has_user(c) {
            (self, Err(EcoError::UserNotFound))
        } else if self.balance_of(c) < MIN_PROPOSAL_BALANCE {
            (self, Err(EcoError::InsufficientBalance))
        } else if self.last_proposal_id == u64::MAX {
            (self, Err(EcoError::Overflow))
        } else {
            let p = ProposalV {
                id: (self.last_proposal_id + 1) as u64,
                creator: c,
                description,
                yes_votes: 0,
                no_votes: 0,
                is_active: true,
                created_at: now,
                voters: Seq::empty(),
            };
            (
                LedgerV { proposals: self.proposals.push(p), last_proposal_id: p.id, ..self },
                Ok(p),
            )
        }
    }

    /// Proposal `p` with one more vote of `choice`, cast by `v`.
    pub open spec fn tallied(p: ProposalV, v: Seq<u8>, choice: VoteChoice) -> ProposalV {
        match choice {
            VoteChoice::Yes => ProposalV {
                yes_votes: (p.yes_votes + 1) as u64,
                voters: p.voters.push(v),
                ..p
            },
            VoteChoice::No => ProposalV {
                no_votes: (p.no_votes + 1) as u64,
                voters: p.voters.push(v),
                ..p
            },
        }
    }

    /// Whether one more vote of `choice` on `p` stays within `u64`.
    pub open spec fn can_tally(p: ProposalV, choice: VoteChoice) -> bool {
        match choice {
            VoteChoice::Yes => p.yes_votes < u64::MAX,
            VoteChoice::No => p.no_votes < u64::MAX,
        }
    }

    /// A vote by `v` of `choice` on the proposal with id `pid`.
    pub open spec fn vote(self, v: Seq<u8>, pid: u64, choice: VoteChoice) -> (
        LedgerV,
        Result<ProposalV, EcoError>,
    ) {
        if !self.has_user(v) {
            (self, Err(EcoError::UserNotFound))
        } else if !self.has_proposal(pid) {
            (self, Err(EcoError::ProposalNotFound))
        } else if !self.proposal(pid).is_active {
            (self, Err(EcoError::ProposalNotActive))
        } else if self.proposal(pid).voters.contains(v) {
            (self, Err(EcoError::AlreadyVoted))
        } else if !Self::can_tally(self.proposal(pid), choice) || !self.can_credit(
            v,
            GOVERNANCE_REWARD,
        ) {
            (self, Err(EcoError::Overflow))
        } else {
            let p = Self::tallied(self.proposal(pid), v, choice);
            let s = LedgerV { proposals: self.proposals.update(pid - 1, p), ..self };
            (s.credit(v, GOVERNANCE_REWARD), Ok(p))
        }
    }

    /// A transfer of `amount` tokens from `from` to `to`. A transfer to oneself
    /// changes nothing.
    pub open spec fn transfer(self, from: Seq<u8>, to: Seq<u8>, amount: u64) -> (
        LedgerV,
        Result<(), EcoError>,
    ) {
        if !self.has_user(from) {
            (self, Err(EcoError::UserNotFound))
        } else if self.balance_of(from) < amount {
            (self, Err(EcoError::InsufficientBalance))
        } else if !self.has_user(to) {
            (self, Err(EcoError::UserNotFound))
        } else if from == to {
            (self, Ok(()))
        } else if !self.can_credit(to, amount) {
            (self, Err(EcoError::Overflow))
        } else {
            let debited = self.with_balance(from, (self.balance_of(from) - amount) as u64);
            (debited.credit(to, amount), Ok(()))
        }
    }

    /// The submissions not validated yet, in id order.
    pub open spec fn unvalidated(self) -> Seq<SubmissionV> {
        self.submissions.filter(is_unvalidated())
    }

    /// The validated submissions, in id order.
    pub open spec fn validated(self) -> Seq<SubmissionV> {
        self.submissions.filter(is_validated())
    }

    /// The active proposals, in id order.
    pub open spec fn active_proposals(self) -> Seq<ProposalV> {
        self.proposals.filter(is_active())
    }
}

/// In a well-formed state, the account at position `i` is the one its
/// identity finds.
pub proof fn lemma_user_at(s: LedgerV, i: int)
    requires
        s.wf(),
        0 <= i < s.users.len(),
    ensures
        s.has_user(s.users[i].principal),
        s.user_index(s.users[i].principal) == i,
{
    let id = s.users[i].principal;
    assert(s.users[i].principal == id);
    let j = s.user_index(id);
    assert(s.users[j].principal == id);
}

/// States whose accounts hold the same identities in the same places find
/// the same accounts.
pub proof fn lemma_same_identities(s: LedgerV, t: LedgerV)
    requires
        s.wf(),
        t.users.len() == s.users.len(),
        forall|i: int| 0 <= i < s.users.len() ==> #[trigger] t.users[i].principal == s.users[i].principal,
    ensures
        forall|i: int, j: int|
            0 <= i < j < t.users.len() ==> #[trigger] t.users[i].principal
                != #[trigger] t.users[j].principal,
        sorted_users(t.users),
        forall|x: Seq<u8>| #[trigger] t.has_user(x) == s.has_user(x),
        forall|x: Seq<u8>| s.has_user(x) ==> #[trigger] t.user_index(x) == s.user_index(x),
{
    assert forall|i: int, j: int| 0 <= i < j < t.users.len() implies id_lt(
        #[trigger] t.users[i].principal,
        #[trigger] t.users[j].principal,
    ) by {
        assert(id_lt(s.users[i].principal, s.users[j].principal));
    }
    assert forall|i: int, j: int| 0 <= i < j < t.users.len() implies #[trigger] t.users[i].principal
        != #[trigger] t.users[j].principal by {
        assert(s.users[i].principal != s.users[j].principal);
    }
    assert forall|x: Seq<u8>| #[trigger] t.has_user(x) == s.has_user(x) by {
        if s.has_user(x) {
            let i = s.user_index(x);
            assert(t.users[i].principal == x);
        }
        if t.has_user(x) {
            let i = t.user_index(x);
            assert(s.users[i].principal == x);
        }
    }
    assert forall|x: Seq<u8>| s.has_user(x) implies #[trigger] t.user_index(x) == s.user_index(x) by {
        let i = s.user_index(x);
        let j = t.user_index(x);
        assert(t.users[i].principal == x);
        assert(s.users[j].principal == x);
    }
}

/// A state whose accounts are unique, that keeps the records and counters of
/// a well-formed state and loses none of its accounts, is well formed.
pub proof fn lemma_wf_kept(s: LedgerV, t: LedgerV)
    requires
        s.wf(),
        forall|i: int, j: int|
            0 <= i < j < t.users.len() ==> #[trigger] t.users[i].principal
                != #[trigger] t.users[j].principal,
        sorted_users(t.users),
        t.proposals == s.proposals,
        t.submissions == s.submissions,
        t.last_proposal_id == s.last_proposal_id,
        t.last_data_id == s.last_data_id,
        forall|x: Seq<u8>| s.has_user(x) ==> #[trigger] t.has_user(x),
    ensures
        t.wf(),
{
    assert forall|i: int| 0 <= i < t.proposals.len() implies #[trigger] t.proposal_ok(i) by {
        assert(s.proposal_ok(i));
        let p = t.proposals[i];
        assert forall|k: int| 0 <= k < p.voters.len() implies t.has_user(#[trigger] p.voters[k]) by {
            assert(s.has_user(p.voters[k]));
        }
    }
    assert forall|i: int| 0 <= i < t.submissions.len() implies #[trigger] t.submission_ok(i) by {
        assert(s.submission_ok(i));
    }
}

/// Setting one balance keeps a well-formed state well formed, keeps which
/// identities have accounts, and changes that one balance only.
pub proof fn lemma_with_balance(s: LedgerV, id: Seq<u8>, b: u64)
    requires
        s.wf(),
        s.has_user(id),
    ensures
        s.with_balance(id, b).wf(),
        forall|x: Seq<u8>| #[trigger] s.with_balance(id, b).has_user(x) == s.has_user(x),
        s.with_balance(id, b).balance_of(id) == b,
        forall|x: Seq<u8>|
            s.has_user(x) && x != id ==> #[trigger] s.with_balance(id, b).balance_of(x)
                == s.balance_of(x),
        s.with_balance(id, b).user(id) == (UserV { balance: b, ..s.user(id) }),
{
    let t = s.with_balance(id, b);
    lemma_same_identities(s, t);
    lemma_wf_kept(s, t);
}

/// In sorted accounts without `id`, some position is where `id` belongs.
pub proof fn lemma_slot_exists(users: Seq<UserV>, id: Seq<u8>)
    requires
        sorted_users(users),
        forall|i: int| 0 <= i < users.len() ==> #[trigger] users[i].principal != id,
    ensures
        exists|k: int| is_slot(users, id, k),
    decreases users.len(),
{
    if users.len() == 0 {
        assert(is_slot(users, id, 0));
    } else {
        let n = users.len() - 1;
        let init = users.drop_last();
        assert forall|i: int| 0 <= i < init.len() implies #[trigger] init[i].principal != id by {
            assert(users[i].principal != id);
        }
        lemma_slot_exists(init, id);
        let k0 = choose|k: int| is_slot(init, id, k);
        let last = users[n].principal;
        assert(last != id);
        if id_lt(last, id) {
            if k0 < n {
                assert(id_lt(id, init[k0].principal));
                assert(id_lt(users[k0].principal, last));
                lemma_id_transitive(id, users[k0].principal, last);
                lemma_id_transitive(id, last, id);
                lemma_id_irreflexive(id);
            }
            assert forall|i: int| 0 <= i < users.len() implies id_lt(#[trigger] users[i].principal, id) by {
                if i < n {
                    assert(id_lt(init[i].principal, id));
                }
            }
            assert(is_slot(users, id, users.len() as int));
        } else {
            lemma_id_total(id, last);
            assert forall|i: int| 0 <= i < k0 implies id_lt(#[trigger] users[i].principal, id) by {
                assert(id_lt(init[i].principal, id));
            }
            assert forall|i: int| k0 <= i < users.len() implies id_lt(id, #[trigger] users[i].principal) by {
                if i < n {
                    assert(id_lt(id, init[i].principal));
                }
            }
            assert(is_slot(users, id, k0));
        }
    }
}

/// Where `id` belongs is one position only.
pub proof fn lemma_slot_unique(users: Seq<UserV>, id: Seq<u8>, k1: int, k2: int)
    requires
        is_slot(users, id, k1),
        is_slot(users, id, k2),
    ensures
        k1 == k2,
{
    if k1 < k2 {
        assert(id_lt(users[k1].principal, id));
        assert(id_lt(id, users[k1].principal));
        lemma_id_transitive(id, users[k1].principal, id);
        lemma_id_irreflexive(id);
    } else if k2 < k1 {
        assert(id_lt(users[k2].principal, id));
        assert(id_lt(id, users[k2].principal));
        lemma_id_transitive(id, users[k2].principal, id);
        lemma_id_irreflexive(id);
    }
}

/// Registration keeps the invariants, and a new account stands at the
/// position where its identity belongs.
pub proof fn lemma_register_wf(s: LedgerV, id: Seq<u8>, now: u64)
    requires
        s.wf(),
    ensures
        s.register(id, now).0.wf(),
        !s.has_user(id) ==> is_slot(s.users, id, s.user_slot(id)),
{
    if !s.has_user(id) {
        assert forall|i: int| 0 <= i < s.users.len() implies #[trigger] s.users[i].principal != id by {
            if s.users[i].principal == id {
                assert(s.has_user(id));
            }
        }
        lemma_slot_exists(s.users, id);
        let k = s.user_slot(id);
        let t = s.register(id, now).0;
        assert(is_slot(s.users, id, k));
        assert forall|x: Seq<u8>| s.has_user(x) implies #[trigger] t.has_user(x) by {
            let i = s.user_index(x);
            if i < k {
                assert(t.users[i].principal == x);
            } else {
                assert(t.users[i + 1].principal == x);
            }
        }
        assert forall|i: int, j: int| 0 <= i < j < t.users.len() implies id_lt(
            #[trigger] t.users[i].principal,
            #[trigger] t.users[j].principal,
        ) by {
            if j < k {
                assert(id_lt(s.users[i].principal, s.users[j].principal));
            } else if j == k {
                assert(id_lt(s.users[i].principal, id));
            } else if i < k {
                assert(id_lt(s.users[i].principal, id));
                assert(id_lt(id, s.users[j - 1].principal));
                lemma_id_transitive(s.users[i].principal, id, s.users[j - 1].principal);
            } else if i == k {
                assert(id_lt(id, s.users[j - 1].principal));
            } else {
                assert(id_lt(s.users[i - 1].principal, s.users[j - 1].principal));
            }
        }
        assert forall|i: int, j: int| 0 <= i < j < t.users.len() implies #[trigger] t.users[i].principal
            != #[trigger] t.users[j].principal by {
            assert(id_lt(t.users[i].principal, t.users[j].principal));
            lemma_id_irreflexive(t.users[i].principal);
        }
        lemma_wf_kept(s, t);
    }
}

/// Submission keeps the invariants.
pub proof fn lemma_submit_wf(s: LedgerV, id: Seq<u8>, data: Seq<char>, now: u64)
    requires
        s.wf(),
    ensures
        s.submit(id, data, now).0.wf(),
{
    if s.has_user(id) && s.last_data_id < u64::MAX && s.can_credit(id, DATA_SUBMISSION_REWARD) {
        let d = SubmissionV {
            id: (s.last_data_id + 1) as u64,
            submitter: id,
            data,
            validated: false,
            validator: None,
            submitted_at: now,
        };
        let t = LedgerV { submissions: s.submissions.push(d), last_data_id: d.id, ..s };
        lemma_same_identities(s, t);
        assert forall|i: int| 0 <= i < t.submissions.len() implies #[trigger] t.submission_ok(i) by {
            if i < s.submissions.len() {
                assert(s.submission_ok(i));
            }
        }
        assert forall|i: int| 0 <= i < t.proposals.len() implies #[trigger] t.proposal_ok(i) by {
            assert(s.proposal_ok(i));
        }
        assert(t.wf());
        lemma_with_balance(t, id, (t.balance_of(id) + DATA_SUBMISSION_REWARD) as u64);
    }
}

/// Validation keeps the invariants.
pub proof fn lemma_validate_wf(s: LedgerV, v: Seq<u8>, sid: u64)
    requires
        s.wf(),
    ensures
        s.validate(v, sid).0.wf(),
{
    if s.has_user(v) && s.has_submission(sid) && !s.submission(sid).validated
        && s.submission(sid).submitter != v && s.can_credit(v, VALIDATION_REWARD) {
        let d = SubmissionV { validated: true, validator: Some(v), ..s.submission(sid) };
        let t = LedgerV { submissions: s.submissions.update(sid - 1, d), ..s };
        lemma_same_identities(s, t);
        assert(s.submission_ok(sid - 1));
        assert forall|i: int| 0 <= i < t.submissions.len() implies #[trigger] t.submission_ok(i) by {
            assert(s.submission_ok(i));
        }
        assert forall|i: int| 0 <= i < t.proposals.len() implies #[trigger] t.proposal_ok(i) by {
            assert(s.proposal_ok(i));
        }
        assert(t.wf());
        lemma_with_balance(t, v, (t.balance_of(v) + VALIDATION_REWARD) as u64);
    }
}

/// Creating a proposal keeps the invariants.
pub proof fn lemma_create_wf(s: LedgerV, c: Seq<u8>, description: Seq<char>, now: u64)
    requires
        s.wf(),
    ensures
        s.create(c, description, now).0.wf(),
{
    let t = s.create(c, description, now).0;
    if t != s {
        lemma_same_identities(s, t);
        assert forall|i: int| 0 <= i < t.proposals.len() implies #[trigger] t.proposal_ok(i) by {
            if i < s.proposals.len() {
                assert(s.proposal_ok(i));
            } else {
                assert(t.proposals[i].voters.no_duplicates());
            }
        }
        assert forall|i: int| 0 <= i < t.submissions.len() implies #[trigger] t.submission_ok(i) by {
            assert(s.submission_ok(i));
        }
    }
}

/// Voting keeps the invariants.
pub proof fn lemma_vote_wf(s: LedgerV, v: Seq<u8>, pid: u64, choice: VoteChoice)
    requires
        s.wf(),
    ensures
        s.vote(v, pid, choice).0.wf(),
{
    if s.has_user(v) && s.has_proposal(pid) && s.proposal(pid).is_active
        && !s.proposal(pid).voters.contains(v) && LedgerV::can_tally(s.proposal(pid), choice)
        && s.can_credit(v, GOVERNANCE_REWARD) {
        let p = LedgerV::tallied(s.proposal(pid), v, choice);
        let t = LedgerV { proposals: s.proposals.update(pid - 1, p), ..s };
        lemma_same_identities(s, t);
        assert(s.proposal_ok(pid - 1));
        assert forall|i: int| 0 <= i < t.proposals.len() implies #[trigger] t.proposal_ok(i) by {
            assert(s.proposal_ok(i));
            if i == pid - 1 {
                let q = s.proposal(pid);
                assert forall|a: int, b: int|
                    0 <= a < b < p.voters.len() implies p.voters[a] != p.voters[b] by {
                    if b == q.voters.len() {
                        assert(q.voters.contains(q.voters[a]));
                    }
                }
                assert forall|k: int| 0 <= k < p.voters.len() implies t.has_user(
                    #[trigger] p.voters[k],
                ) by {
                    if k < q.voters.len() {
                        assert(s.has_user(q.voters[k]));
                    }
                }
            }
        }
        assert forall|i: int| 0 <= i < t.submissions.len() implies #[trigger] t.submission_ok(i) by {
            assert(s.submission_ok(i));
        }
        assert(t.wf());
        lemma_with_balance(t, v, (t.balance_of(v) + GOVERNANCE_REWARD) as u64);
    }
}

/// A transfer keeps the invariants.
pub proof fn lemma_transfer_wf(s: LedgerV, from: Seq<u8>, to: Seq<u8>, amount: u64)
    requires
        s.wf(),
    ensures
        s.transfer(from, to, amount).0.wf(),
{
    if s.has_user(from) && s.balance_of(from) >= amount && s.has_user(to) && from != to
        && s.can_credit(to, amount) {
        let t = s.with_balance(from, (s.balance_of(from) - amount) as u64);
        lemma_with_balance(s, from, (s.balance_of(from) - amount) as u64);
        lemma_with_balance(t, to, (t.balance_of(to) + amount) as u64);
    }
}

} // verus!
