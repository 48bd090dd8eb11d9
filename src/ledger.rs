use vstd::prelude::*;
use crate::model::{
    lemma_create_wf, lemma_register_wf, lemma_submit_wf, lemma_transfer_wf, lemma_user_at,
    lemma_validate_wf, lemma_vote_wf, lemma_with_balance, LedgerV, DATA_SUBMISSION_REWARD,
    GOVERNANCE_REWARD, MIN_PROPOSAL_BALANCE, REGISTRATION_REWARD, VALIDATION_REWARD,
    TOTAL_SUPPLY, is_active, is_unvalidated, is_validated,
};
use crate::model::{is_slot, lemma_same_identities, lemma_slot_unique};
use crate::order::{id_lt, lemma_id_total, lemma_id_transitive};
use crate::types::{
    identities_view, ActionType, DataSubmission, EcoError, Identity, Proposal, ProposalV,
    SubmissionV, User, UserV, VoteChoice,
};

verus! {

/// The mathematical value of an operation's result that carries an account.
pub open spec fn user_result(r: Result<User, EcoError>) -> Result<UserV, EcoError> {
    match r {
        Ok(u) => Ok(u@),
        Err(e) => Err(e),
    }
}

/// The mathematical value of an operation's result that carries a proposal.
pub open spec fn proposal_result(r: Result<Proposal, EcoError>) -> Result<ProposalV, EcoError> {
    match r {
        Ok(p) => Ok(p@),
        Err(e) => Err(e),
    }
}

/// The mathematical value of an operation's result that carries a submission.
pub open spec fn submission_result(r: Result<DataSubmission, EcoError>) -> Result<
    SubmissionV,
    EcoError,
> {
    match r {
        Ok(d) => Ok(d@),
        Err(e) => Err(e),
    }
}

/// The mathematical value of a list of accounts.
pub open spec fn users_view(v: Seq<User>) -> Seq<UserV> {
    v.map_values(|u: User| u@)
}

/// The mathematical value of a list of proposals.
pub open spec fn proposals_view(v: Seq<Proposal>) -> Seq<ProposalV> {
    v.map_values(|p: Proposal| p@)
}

/// The mathematical value of a list of submissions.
pub open spec fn submissions_view(v: Seq<DataSubmission>) -> Seq<SubmissionV> {
    v.map_values(|d: DataSubmission| d@)
}

/// Counts over the whole state.
#[derive(Clone, Copy, Debug, PartialEq, Eq, Structural)]
pub struct SystemStats {
    pub total_users: u64,
    pub total_proposals: u64,
    pub active_proposals: u64,
    pub total_data_submissions: u64,
    pub validated_data: u64,
    pub total_supply: u64,
}

/// The whole state: accounts, submissions, proposals and the two id counters.
pub struct Ledger {
    users: Vec<User>,
    proposals: Vec<Proposal>,
    submissions: Vec<DataSubmission>,
    last_proposal_id: u64,
    last_data_id: u64,
}

impl View for Ledger {
    type V = LedgerV;

    closed spec fn view(&self) -> LedgerV {
        LedgerV {
            users: users_view(self.users@),
            proposals: proposals_view(self.proposals@),
            submissions: submissions_view(self.submissions@),
            last_proposal_id: self.last_proposal_id,
            last_data_id: self.last_data_id,
        }
    }
}

impl Ledger {
    /// The state's invariants.
    pub open spec fn wf(&self) -> bool {
        self@.wf()
    }

    /// An empty ledger: no accounts, no records, both counters at 0.
    pub fn new() -> (r: Ledger)
        ensures
            r.wf(),
            r@ == LedgerV::empty(),
    {
        let r = Ledger {
            users: Vec::new(),
            proposals: Vec::new(),
            submissions: Vec::new(),
            last_proposal_id: 0,
            last_data_id: 0,
        };
        assert(r@.users =~= Seq::<UserV>::empty());
        assert(r@.proposals =~= Seq::<ProposalV>::empty());
        assert(r@.submissions =~= Seq::<SubmissionV>::empty());
        r
    }

    /// The position of the account of `id`, if it has one.
    fn find_user(&self, id: &Identity) -> (r: Option<usize>)
        requires
            self.wf(),
        ensures
            match r {
                Some(i) => self@.has_user(id@) && self@.user_index(id@) == i && i
                    < self@.users.len(),
                None => !self@.has_user(id@),
            },
    {
        let mut i: usize = 0;
        while i < self.users.len()
            invariant
                0 <= i <= self.users@.len(),
                self.wf(),
                forall|j: int| 0 <= j < i ==> self@.users[j].principal != id@,
            decreases self.users@.len() - i,
        {
            if self.users[i].principal.same_as(id) {
                proof {
                    lemma_user_at(self@, i as int);
                }
                return Some(i);
            }
            i += 1;
        }
        None
    }

    /// Sets the balance of the account at position `i`.
    fn set_balance(&mut self, i: usize, b: u64)
        requires
            i < old(self)@.users.len(),
        ensures
            final(self)@ == (LedgerV {
                users: old(self)@.users.update(i as int, UserV { balance: b, ..old(self)@.users[i as int] }),
                ..old(self)@
            }),
    {
        let mut u = self.users.remove(i);
        u.balance = b;
        self.users.insert(i, u);
        proof {
            let want = old(self)@.users.update(i as int, UserV { balance: b, ..old(self)@.users[i as int] });
            assert(self@.users =~= want);
        }
    }
}

/// Whether `id` has an account.
pub fn is_user_registered(ledger: &Ledger, id: &Identity) -> (r: bool)
    requires
        ledger.wf(),
    ensures
        r == ledger@.has_user(id@),
{
    ledger.find_user(id).is_some()
}

/// Registers `caller` at time `now` with the registration reward as its
/// balance; fails with `Unauthorized` when `caller` is already registered.
pub fn register_user(ledger: &mut Ledger, caller: &Identity, now: u64) -> (r: Result<User, EcoError>)
    requires
        old(ledger).wf(),
    ensures
        final(ledger).wf(),
        (final(ledger)@, user_result(r)) == old(ledger)@.register(caller@, now),
        r is Ok ==> final(ledger)@.has_user(caller@) && final(ledger)@.user(caller@) == r->Ok_0@,
        forall|x: Seq<u8>|
            #[trigger] final(ledger)@.has_user(x) == (old(ledger)@.has_user(x) || x == caller@),
        forall|x: Seq<u8>|
            old(ledger)@.has_user(x) ==> #[trigger] final(ledger)@.user(x) == old(ledger)@.user(x),
{
    proof {
        lemma_register_wf(ledger@, caller@, now);
    }
    if ledger.find_user(caller).is_some() {
        return Err(EcoError::Unauthorized);
    }
    let mut k: usize = 0;
    while k < ledger.users.len() && ledger.users[k].principal.precedes(caller)
        invariant
            0 <= k <= ledger.users@.len(),
            ledger@ == old(ledger)@,
            forall|i: int| 0 <= i < k ==> id_lt(#[trigger] ledger@.users[i].principal, caller@),
        decreases ledger.users@.len() - k,
    {
        k += 1;
    }
    proof {
        let users = ledger@.users;
        if k < users.len() {
            assert(users[k as int].principal != caller@);
            lemma_id_total(caller@, users[k as int].principal);
            assert forall|i: int| k <= i < users.len() implies id_lt(
                caller@,
                #[trigger] users[i].principal,
            ) by {
                if i > k {
                    lemma_id_transitive(caller@, users[k as int].principal, users[i].principal);
                }
            }
        }
        assert(is_slot(users, caller@, k as int));
        lemma_slot_unique(users, caller@, k as int, ledger@.user_slot(caller@));
    }
    let user = User { principal: caller.copied(), balance: REGISTRATION_REWARD, registered_at: now };
    let r = user.copied();
    ledger.users.insert(k, user);
    proof {
        assert(ledger@.users =~= old(ledger)@.users.insert(k as int, r@));
        assert(ledger@ == old(ledger)@.register(caller@, now).0);
        lemma_user_at(ledger@, k as int);
        assert forall|x: Seq<u8>| old(ledger)@.has_user(x) implies #[trigger] ledger@.user(x)
            == old(ledger)@.user(x) && ledger@.has_user(x) by {
            let i = old(ledger)@.user_index(x);
            let j = if i < k { i } else { i + 1 };
            assert(ledger@.users[j] == old(ledger)@.users[i]);
            lemma_user_at(ledger@, j);
        }
        assert forall|x: Seq<u8>| #[trigger] ledger@.has_user(x) == (old(ledger)@.has_user(x)
            || x == caller@) by {
            if old(ledger)@.has_user(x) {
                assert(ledger@.user(x) == old(ledger)@.user(x));
            }
            if ledger@.has_user(x) && x != caller@ {
                let j = ledger@.user_index(x);
                if j < k {
                    assert(old(ledger)@.users[j].principal == x);
                } else {
                    assert(old(ledger)@.users[j - 1].principal == x);
                }
            }
        }
    }
    Ok(r)
}

/// Credits `amount` to the account of `id`. Fails with `UserNotFound` when
/// `id` has no account and with `Overflow` when the balance would exceed
/// `u64::MAX`; the kind of action does not change the amount.
pub fn reward_user(ledger: &mut Ledger, id: &Identity, amount: u64, _action: ActionType) -> (r: Result<
    (),
    EcoError,
>)
    requires
        old(ledger).wf(),
    ensures
        final(ledger).wf(),
        r == Ok::<(), EcoError>(()) <==> old(ledger)@.has_user(id@) && old(ledger)@.can_credit(id@, amount),
        r == Err::<(), EcoError>(EcoError::UserNotFound) <==> !old(ledger)@.has_user(id@),
        r == Err::<(), EcoError>(EcoError::Overflow) <==> old(ledger)@.has_user(id@) && !old(ledger)@.can_credit(id@, amount),
        r is Ok ==> final(ledger)@ == old(ledger)@.credit(id@, amount),
        r is Err ==> final(ledger)@ == old(ledger)@,
{
    match ledger.find_user(id) {
        None => Err(EcoError::UserNotFound),
        Some(i) => {
            let b = ledger.users[i].balance;
            if b > u64::MAX - amount {
                return Err(EcoError::Overflow);
            }
            proof {
                lemma_with_balance(ledger@, id@, (b + amount) as u64);
            }
            ledger.set_balance(i, b + amount);
            Ok(())
        },
    }
}

/// Whether `id` is among `voters`.
fn has_voted(voters: &Vec<Identity>, id: &Identity) -> (r: bool)
    ensures
        r == identities_view(voters@).contains(id@),
{
    let mut i: usize = 0;
    while i < voters.len()
        invariant
            0 <= i <= voters@.len(),
            forall|j: int| 0 <= j < i ==> voters@[j]@ != id@,
        decreases voters@.len() - i,
    {
        if voters[i].same_as(id) {
            assert(identities_view(voters@)[i as int] == id@);
            return true;
        }
        i += 1;
    }
    false
}

/// Stores `data` as a new submission of `caller` at time `now`, under the
/// next submission id, and credits the submission reward to `caller`.
pub fn submit_data(ledger: &mut Ledger, caller: &Identity, data: String, now: u64) -> (r: Result<
    DataSubmission,
    EcoError,
>)
    requires
        old(ledger).wf(),
    ensures
        final(ledger).wf(),
        (final(ledger)@, submission_result(r)) == old(ledger)@.submit(caller@, data@, now),
        r is Ok ==> final(ledger)@.balance_of(caller@) == old(ledger)@.balance_of(caller@) + DATA_SUBMISSION_REWARD,
        forall|x: Seq<u8>| #[trigger] final(ledger)@.has_user(x) == old(ledger)@.has_user(x),
        forall|x: Seq<u8>|
            old(ledger)@.has_user(x) && x != caller@ ==> #[trigger] final(ledger)@.balance_of(x)
                == old(ledger)@.balance_of(x),
{
    proof {
        lemma_submit_wf(ledger@, caller@, data@, now);
    }
    let ui = match ledger.find_user(caller) {
        None => return Err(EcoError::UserNotFound),
        Some(i) => i,
    };
    let b = ledger.users[ui].balance;
    if ledger.last_data_id == u64::MAX || b > u64::MAX - DATA_SUBMISSION_REWARD {
        return Err(EcoError::Overflow);
    }
    let id = ledger.last_data_id + 1;
    let submission = DataSubmission {
        id,
        submitter: caller.copied(),
        data,
        validated: false,
        validator: None,
        submitted_at: now,
    };
    let r = submission.copied();
    ledger.submissions.push(submission);
    ledger.last_data_id = id;
    proof {
        let mid = LedgerV {
            submissions: old(ledger)@.submissions.push(r@),
            last_data_id: id,
            ..old(ledger)@
        };
        assert(ledger@.submissions =~= mid.submissions);
        assert(ledger@ == mid);
    }
    ledger.set_balance(ui, b + DATA_SUBMISSION_REWARD);
    proof {
        lemma_same_identities(old(ledger)@, ledger@);
        lemma_user_at(old(ledger)@, ui as int);
    }
    Ok(r)
}

/// Marks the submission with id `submission_id` as validated by `caller` and
/// credits the validation reward to `caller`. A submission is validated once,
/// and never by its own submitter.
pub fn validate_data(ledger: &mut Ledger, caller: &Identity, submission_id: u64) -> (r: Result<
    DataSubmission,
    EcoError,
>)
    requires
        old(ledger).wf(),
    ensures
        final(ledger).wf(),
        (final(ledger)@, submission_result(r)) == old(ledger)@.validate(caller@, submission_id),
        r is Ok ==> final(ledger)@.balance_of(caller@) == old(ledger)@.balance_of(caller@) + VALIDATION_REWARD,
        forall|x: Seq<u8>| #[trigger] final(ledger)@.has_user(x) == old(ledger)@.has_user(x),
        forall|x: Seq<u8>|
            old(ledger)@.has_user(x) && x != caller@ ==> #[trigger] final(ledger)@.balance_of(x)
                == old(ledger)@.balance_of(x),
{
    proof {
        lemma_validate_wf(ledger@, caller@, submission_id);
    }
    let ui = match ledger.find_user(caller) {
        None => return Err(EcoError::UserNotFound),
        Some(i) => i,
    };
    if submission_id == 0 || submission_id > ledger.last_data_id {
        return Err(EcoError::DataNotFound);
    }
    assert(ledger@.submissions.len() == ledger.submissions@.len());
    let n = ledger.submissions.len();
    assert(submission_id <= n);
    let si = (submission_id - 1) as usize;
    assert(ledger@.submissions[si as int] == ledger.submissions@[si as int]@);
    assert(old(ledger)@.submission(submission_id) == ledger.submissions@[si as int]@);
    if ledger.submissions[si].validated {
        return Err(EcoError::AlreadyValidated);
    }
    if ledger.submissions[si].submitter.same_as(caller) {
        return Err(EcoError::Unauthorized);
    }
    let b = ledger.users[ui].balance;
    if b > u64::MAX - VALIDATION_REWARD {
        return Err(EcoError::Overflow);
    }
    let mut submission = ledger.submissions.remove(si);
    submission.validated = true;
    submission.validator = Some(caller.copied());
    let r = submission.copied();
    ledger.submissions.insert(si, submission);
    proof {
        let mid = LedgerV {
            submissions: old(ledger)@.submissions.update(si as int, r@),
            ..old(ledger)@
        };
        assert(ledger@.submissions =~= mid.submissions);
        assert(ledger@ == mid);
    }
    ledger.set_balance(ui, b + VALIDATION_REWARD);
    proof {
        lemma_same_identities(old(ledger)@, ledger@);
        lemma_user_at(old(ledger)@, ui as int);
    }
    Ok(r)
}

/// Stores a new active proposal of `caller`, created at time `now`, under the
/// next proposal id. The caller needs at least the minimum proposal balance.
pub fn create_proposal(ledger: &mut Ledger, caller: &Identity, description: String, now: u64) -> (r:
    Result<Proposal, EcoError>)
    requires
        old(ledger).wf(),
    ensures
        final(ledger).wf(),
        (final(ledger)@, proposal_result(r)) == old(ledger)@.create(caller@, description@, now),
{
    proof {
        lemma_create_wf(ledger@, caller@, description@, now);
    }
    let ui = match ledger.find_user(caller) {
        None => return Err(EcoError::UserNotFound),
        Some(i) => i,
    };
    if ledger.users[ui].balance < MIN_PROPOSAL_BALANCE {
        return Err(EcoError::InsufficientBalance);
    }
    if ledger.last_proposal_id == u64::MAX {
        return Err(EcoError::Overflow);
    }
    let id = ledger.last_proposal_id + 1;
    let proposal = Proposal {
        id,
        creator: caller.copied(),
        description,
        yes_votes: 0,
        no_votes: 0,
        is_active: true,
        created_at: now,
        voters: Vec::new(),
    };
    let r = proposal.copied();
    assert(r@.voters =~= Seq::<Seq<u8>>::empty());
    ledger.proposals.push(proposal);
    ledger.last_proposal_id = id;
    assert(ledger@.proposals =~= old(ledger)@.proposals.push(r@));
    Ok(r)
}

/// Records a vote of `caller` on the proposal with id `proposal_id` and
/// credits the governance reward to `caller`. Each identity votes once on a
/// proposal.
pub fn vote_on_proposal(
    ledger: &mut Ledger,
    caller: &Identity,
    proposal_id: u64,
    vote: VoteChoice,
) -> (r: Result<Proposal, EcoError>)
    requires
        old(ledger).wf(),
    ensures
        final(ledger).wf(),
        (final(ledger)@, proposal_result(r)) == old(ledger)@.vote(caller@, proposal_id, vote),
        r is Ok ==> final(ledger)@.balance_of(caller@) == old(ledger)@.balance_of(caller@) + GOVERNANCE_REWARD,
        forall|x: Seq<u8>| #[trigger] final(ledger)@.has_user(x) == old(ledger)@.has_user(x),
        forall|x: Seq<u8>|
            old(ledger)@.has_user(x) && x != caller@ ==> #[trigger] final(ledger)@.balance_of(x)
                == old(ledger)@.balance_of(x),
{
    proof {
        lemma_vote_wf(ledger@, caller@, proposal_id, vote);
    }
    let ui = match ledger.find_user(caller) {
        None => return Err(EcoError::UserNotFound),
        Some(i) => i,
    };
    if proposal_id == 0 || proposal_id > ledger.last_proposal_id {
        return Err(EcoError::ProposalNotFound);
    }
    assert(ledger@.proposals.len() == ledger.proposals@.len());
    let n = ledger.proposals.len();
    assert(proposal_id <= n);
    let pi = (proposal_id - 1) as usize;
    assert(ledger@.proposals[pi as int] == ledger.proposals@[pi as int]@);
    assert(old(ledger)@.proposal(proposal_id) == ledger.proposals@[pi as int]@);
    if !ledger.proposals[pi].is_active {
        return Err(EcoError::ProposalNotActive);
    }
    if has_voted(&ledger.proposals[pi].voters, caller) {
        return Err(EcoError::AlreadyVoted);
    }
    let tally_full = match vote {
        VoteChoice::Yes => ledger.proposals[pi].yes_votes == u64::MAX,
        VoteChoice::No => ledger.proposals[pi].no_votes == u64::MAX,
    };
    let b = ledger.users[ui].balance;
    if tally_full || b > u64::MAX - GOVERNANCE_REWARD {
        return Err(EcoError::Overflow);
    }
    let mut proposal = ledger.proposals.remove(pi);
    match vote {
        VoteChoice::Yes => proposal.yes_votes = proposal.yes_votes + 1,
        VoteChoice::No => proposal.no_votes = proposal.no_votes + 1,
    }
    let ghost before = proposal.voters@;
    proposal.voters.push(caller.copied());
    assert(identities_view(proposal.voters@) =~= identities_view(before).push(caller@));
    let r = proposal.copied();
    ledger.proposals.insert(pi, proposal);
    proof {
        let mid = LedgerV {
            proposals: old(ledger)@.proposals.update(pi as int, r@),
            ..old(ledger)@
        };
        assert(ledger@.proposals =~= mid.proposals);
        assert(ledger@ == mid);
    }
    ledger.set_balance(ui, b + GOVERNANCE_REWARD);
    proof {
        lemma_same_identities(old(ledger)@, ledger@);
        lemma_user_at(old(ledger)@, ui as int);
    }
    Ok(r)
}

/// Moves `amount` tokens from the account of `caller` to the account of
/// `to`. A transfer to oneself succeeds and changes nothing.
pub fn transfer_tokens(ledger: &mut Ledger, caller: &Identity, to: &Identity, amount: u64) -> (r:
    Result<(), EcoError>)
    requires
        old(ledger).wf(),
    ensures
        final(ledger).wf(),
        (final(ledger)@, r) == old(ledger)@.transfer(caller@, to@, amount),
        forall|x: Seq<u8>| #[trigger] final(ledger)@.has_user(x) == old(ledger)@.has_user(x),
{
    proof {
        lemma_transfer_wf(ledger@, caller@, to@, amount);
    }
    let fi = match ledger.find_user(caller) {
        None => return Err(EcoError::UserNotFound),
        Some(i) => i,
    };
    let fb = ledger.users[fi].balance;
    if fb < amount {
        return Err(EcoError::InsufficientBalance);
    }
    let ti = match ledger.find_user(to) {
        None => return Err(EcoError::UserNotFound),
        Some(i) => i,
    };
    if fi == ti {
        return Ok(());
    }
    let ghost start = ledger@;
    let tb = ledger.users[ti].balance;
    if tb > u64::MAX - amount {
        return Err(EcoError::Overflow);
    }
    proof {
        lemma_with_balance(ledger@, caller@, (fb - amount) as u64);
    }
    ledger.set_balance(fi, fb - amount);
    proof {
        lemma_user_at(ledger@, ti as int);
        lemma_with_balance(ledger@, to@, tb);
    }
    ledger.set_balance(ti, tb + amount);
    proof {
        lemma_same_identities(start, ledger@);
    }
    Ok(())
}

/// The balance of `caller`; fails with `UserNotFound` when it has no account.
pub fn get_user_balance(ledger: &Ledger, caller: &Identity) -> (r: Result<u64, EcoError>)
    requires
        ledger.wf(),
    ensures
        r == (if ledger@.has_user(caller@) {
            Ok::<u64, EcoError>(ledger@.balance_of(caller@))
        } else {
            Err(EcoError::UserNotFound)
        }),
{
    match ledger.find_user(caller) {
        Some(i) => Ok(ledger.users[i].balance),
        None => Err(EcoError::UserNotFound),
    }
}

/// The account of `caller`; fails with `UserNotFound` when it has none.
pub fn get_user_info(ledger: &Ledger, caller: &Identity) -> (r: Result<User, EcoError>)
    requires
        ledger.wf(),
    ensures
        user_result(r) == (if ledger@.has_user(caller@) {
            Ok::<UserV, EcoError>(ledger@.user(caller@))
        } else {
            Err(EcoError::UserNotFound)
        }),
{
    match ledger.find_user(caller) {
        Some(i) => Ok(ledger.users[i].copied()),
        None => Err(EcoError::UserNotFound),
    }
}

/// Every account, in ascending order of identity.
pub fn get_all_users(ledger: &Ledger) -> (r: Vec<User>)
    ensures
        users_view(r@) == ledger@.users,
{
    let mut r: Vec<User> = Vec::new();
    let mut i: usize = 0;
    while i < ledger.users.len()
        invariant
            0 <= i <= ledger.users@.len(),
            r@.len() == i,
            forall|j: int| 0 <= j < i ==> r@[j]@ == ledger.users@[j]@,
        decreases ledger.users@.len() - i,
    {
        r.push(ledger.users[i].copied());
        i += 1;
    }
    assert(users_view(r@) =~= ledger@.users);
    r
}

/// Every proposal, in id order.
pub fn get_all_proposals(ledger: &Ledger) -> (r: Vec<Proposal>)
    ensures
        proposals_view(r@) == ledger@.proposals,
{
    let mut r: Vec<Proposal> = Vec::new();
    let mut i: usize = 0;
    while i < ledger.proposals.len()
        invariant
            0 <= i <= ledger.proposals@.len(),
            r@.len() == i,
            forall|j: int| 0 <= j < i ==> r@[j]@ == ledger.proposals@[j]@,
        decreases ledger.proposals@.len() - i,
    {
        r.push(ledger.proposals[i].copied());
        i += 1;
    }
    assert(proposals_view(r@) =~= ledger@.proposals);
    r
}

/// The proposal with id `proposal_id`; fails with `ProposalNotFound` when
/// there is none.
pub fn get_proposal(ledger: &Ledger, proposal_id: u64) -> (r: Result<Proposal, EcoError>)
    requires
        ledger.wf(),
    ensures
        proposal_result(r) == (if ledger@.has_proposal(proposal_id) {
            Ok::<ProposalV, EcoError>(ledger@.proposal(proposal_id))
        } else {
            Err(EcoError::ProposalNotFound)
        }),
{
    let n = ledger.proposals.len();
    if proposal_id == 0 || proposal_id > ledger.last_proposal_id {
        return Err(EcoError::ProposalNotFound);
    }
    assert(proposal_id <= n);
    let pi = (proposal_id - 1) as usize;
    assert(ledger@.proposals[pi as int] == ledger.proposals@[pi as int]@);
    Ok(ledger.proposals[pi].copied())
}

/// The active proposals, in id order.
pub fn get_active_proposals(ledger: &Ledger) -> (r: Vec<Proposal>)
    ensures
        proposals_view(r@) == ledger@.active_proposals(),
{
    let ghost all = ledger@.proposals;
    let mut r: Vec<Proposal> = Vec::new();
    let mut i: usize = 0;
    while i < ledger.proposals.len()
        invariant
            0 <= i <= ledger.proposals@.len(),
            all == ledger@.proposals,
            proposals_view(r@) == all.take(i as int).filter(is_active()),
        decreases ledger.proposals@.len() - i,
    {
        let ghost before = r@;
        if ledger.proposals[i].is_active {
            r.push(ledger.proposals[i].copied());
            assert(proposals_view(r@) =~= proposals_view(before).push(all[i as int]));
        }
        proof {
            reveal(Seq::filter);
            assert(all.take(i + 1).drop_last() =~= all.take(i as int));
        }
        i += 1;
    }
    assert(all.take(all.len() as int) =~= all);
    r
}

/// The submissions not validated yet, in id order.
pub fn get_unvalidated_data(ledger: &Ledger) -> (r: Vec<DataSubmission>)
    ensures
        submissions_view(r@) == ledger@.unvalidated(),
{
    let ghost all = ledger@.submissions;
    let mut r: Vec<DataSubmission> = Vec::new();
    let mut i: usize = 0;
    while i < ledger.submissions.len()
        invariant
            0 <= i <= ledger.submissions@.len(),
            all == ledger@.submissions,
            submissions_view(r@) == all.take(i as int).filter(is_unvalidated()),
        decreases ledger.submissions@.len() - i,
    {
        let ghost before = r@;
        if !ledger.submissions[i].validated {
            r.push(ledger.submissions[i].copied());
            assert(submissions_view(r@) =~= submissions_view(before).push(all[i as int]));
        }
        proof {
            reveal(Seq::filter);
            assert(all.take(i + 1).drop_last() =~= all.take(i as int));
        }
        i += 1;
    }
    assert(all.take(all.len() as int) =~= all);
    r
}

/// The nominal total token supply.
pub fn get_total_supply() -> (r: u64)
    ensures
        r == TOTAL_SUPPLY,
{
    TOTAL_SUPPLY
}

/// Counts of accounts, proposals, active proposals, submissions and validated
/// submissions, with the nominal total supply.
pub fn get_system_stats(ledger: &Ledger) -> (r: SystemStats)
    ensures
        r.total_users == ledger@.users.len(),
        r.total_proposals == ledger@.proposals.len(),
        r.active_proposals == ledger@.active_proposals().len(),
        r.total_data_submissions == ledger@.submissions.len(),
        r.validated_data == ledger@.validated().len(),
        r.total_supply == TOTAL_SUPPLY,
{
    let ghost props = ledger@.proposals;
    let mut active: u64 = 0;
    let mut i: usize = 0;
    while i < ledger.proposals.len()
        invariant
            0 <= i <= ledger.proposals@.len(),
            props == ledger@.proposals,
            active == props.take(i as int).filter(is_active()).len(),
            active <= i,
        decreases ledger.proposals@.len() - i,
    {
        assert(ledger.proposals@[i as int]@ == props[i as int]);
        if ledger.proposals[i].is_active {
            active += 1;
        }
        proof {
            reveal(Seq::filter);
            assert(props.take(i + 1).drop_last() =~= props.take(i as int));
        }
        i += 1;
    }
    assert(props.take(props.len() as int) =~= props);
    let ghost subs = ledger@.submissions;
    let mut validated: u64 = 0;
    let mut j: usize = 0;
    while j < ledger.submissions.len()
        invariant
            0 <= j <= ledger.submissions@.len(),
            subs == ledger@.submissions,
            validated == subs.take(j as int).filter(is_validated()).len(),
            validated <= j,
        decreases ledger.submissions@.len() - j,
    {
        assert(ledger.submissions@[j as int]@ == subs[j as int]);
        if ledger.submissions[j].validated {
            validated += 1;
        }
        proof {
            reveal(Seq::filter);
            assert(subs.take(j + 1).drop_last() =~= subs.take(j as int));
        }
        j += 1;
    }
    assert(subs.take(subs.len() as int) =~= subs);
    SystemStats {
        total_users: ledger.users.len() as u64,
        total_proposals: ledger.proposals.len() as u64,
        active_proposals: active,
        total_data_submissions: ledger.submissions.len() as u64,
        validated_data: validated,
        total_supply: TOTAL_SUPPLY,
    }
}

} // verus!
