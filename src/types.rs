use vstd::prelude::*;

verus! {

/// An opaque caller identity, held as the bytes of the principal that the
/// hosting environment authenticated.
#[derive(Clone, Debug)]
pub struct Identity {
    pub bytes: Vec<u8>,
}

impl View for Identity {
    type V = Seq<u8>;

    open spec fn view(&self) -> Seq<u8> {
        self.bytes@
    }
}

impl Identity {
    pub fn new(bytes: Vec<u8>) -> (r: Identity)
        ensures
            r@ == bytes@,
    {
        Identity { bytes }
    }

    /// An identity equal to this one.
    pub fn copied(&self) -> (r: Identity)
        ensures
            r@ == self@,
    {
        let bytes = self.bytes.clone();
        assert(bytes@ =~= self.bytes@);
        Identity { bytes }
    }

    /// Whether two identities are the same.
    pub fn same_as(&self, other: &Identity) -> (r: bool)
        ensures
            r == (self@ == other@),
    {
        let n = self.bytes.len();
        if n != other.bytes.len() {
            return false;
        }
        let mut i: usize = 0;
        while i < n
            invariant
                n == self@.len(),
                n == other@.len(),
                0 <= i <= n,
                forall|j: int| 0 <= j < i ==> self@[j] == other@[j],
            decreases n - i,
        {
            if self.bytes[i] != other.bytes[i] {
                return false;
            }
            i += 1;
        }
        assert(self@ =~= other@);
        true
    }
}

/// What a caller's account holds, as a mathematical value.
pub ghost struct UserV {
    pub principal: Seq<u8>,
    pub balance: u64,
    pub registered_at: u64,
}

/// An account: one per registered identity.
#[derive(Debug)]
pub struct User {
    pub principal: Identity,
    pub balance: u64,
    pub registered_at: u64,
}

impl View for User {
    type V = UserV;

    open spec fn view(&self) -> UserV {
        UserV { principal: self.principal@, balance: self.balance, registered_at: self.registered_at }
    }
}

impl User {
    /// An account equal to this one.
    pub fn copied(&self) -> (r: User)
        ensures
            r@ == self@,
    {
        User {
            principal: self.principal.copied(),
            balance: self.balance,
            registered_at: self.registered_at,
        }
    }
}

/// The mathematical value of a list of identities.
pub open spec fn identities_view(v: Seq<Identity>) -> Seq<Seq<u8>> {
    v.map_values(|i: Identity| i@)
}

/// A copy of a list of identities.
pub fn copy_identities(v: &Vec<Identity>) -> (r: Vec<Identity>)
    ensures
        identities_view(r@) == identities_view(v@),
{
    let mut r: Vec<Identity> = Vec::new();
    let mut i: usize = 0;
    while i < v.len()
        invariant
            0 <= i <= v@.len(),
            r@.len() == i,
            forall|j: int| 0 <= j < i ==> r@[j]@ == v@[j]@,
        decreases v@.len() - i,
    {
        r.push(v[i].copied());
        i += 1;
    }
    assert(identities_view(r@) =~= identities_view(v@));
    r
}

/// A proposal as a mathematical value.
pub ghost struct ProposalV {
    pub id: u64,
    pub creator: Seq<u8>,
    pub description: Seq<char>,
    pub yes_votes: u64,
    pub no_votes: u64,
    pub is_active: bool,
    pub created_at: u64,
    pub voters: Seq<Seq<u8>>,
}

/// A governance proposal with its tallies and the identities that voted on it.
#[derive(Debug)]
pub struct Proposal {
    pub id: u64,
    pub creator: Identity,
    pub description: String,
    pub yes_votes: u64,
    pub no_votes: u64,
    pub is_active: bool,
    pub created_at: u64,
    pub voters: Vec<Identity>,
}

impl View for Proposal {
    type V = ProposalV;

    open spec fn view(&self) -> ProposalV {
        ProposalV {
            id: self.id,
            creator: self.creator@,
            description: self.description@,
            yes_votes: self.yes_votes,
            no_votes: self.no_votes,
            is_active: self.is_active,
            created_at: self.created_at,
            voters: identities_view(self.voters@),
        }
    }
}

impl Proposal {
    /// A proposal equal to this one.
    pub fn copied(&self) -> (r: Proposal)
        ensures
            r@ == self@,
    {
        Proposal {
            id: self.id,
            creator: self.creator.copied(),
            description: self.description.clone(),
            yes_votes: self.yes_votes,
            no_votes: self.no_votes,
            is_active: self.is_active,
            created_at: self.created_at,
            voters: copy_identities(&self.voters),
        }
    }
}

/// A data submission as a mathematical value.
pub ghost struct SubmissionV {
    pub id: u64,
    pub submitter: Seq<u8>,
    pub data: Seq<char>,
    pub validated: bool,
    pub validator: Option<Seq<u8>>,
    pub submitted_at: u64,
}

/// A data record submitted for validation by another participant.
#[derive(Debug)]
pub struct DataSubmission {
    pub id: u64,
    pub submitter: Identity,
    pub data: String,
    pub validated: bool,
    pub validator: Option<Identity>,
    pub submitted_at: u64,
}

/// The mathematical value of an optional identity.
pub open spec fn opt_identity_view(o: Option<Identity>) -> Option<Seq<u8>> {
    match o {
        Some(i) => Some(i@),
        None => None,
    }
}

impl View for DataSubmission {
    type V = SubmissionV;

    open spec fn view(&self) -> SubmissionV {
        SubmissionV {
            id: self.id,
            submitter: self.submitter@,
            data: self.data@,
            validated: self.validated,
            validator: opt_identity_view(self.validator),
            submitted_at: self.submitted_at,
        }
    }
}

impl DataSubmission {
    /// A submission equal to this one.
    pub fn copied(&self) -> (r: DataSubmission)
        ensures
            r@ == self@,
    {
        let validator = match &self.validator {
            Some(v) => Some(v.copied()),
            None => None,
        };
        DataSubmission {
            id: self.id,
            submitter: self.submitter.copied(),
            data: self.data.clone(),
            validated: self.validated,
            validator,
            submitted_at: self.submitted_at,
        }
    }
}

/// A vote on a proposal.
#[derive(Clone, Copy, Debug, PartialEq, Eq, Structural)]
pub enum VoteChoice {
    Yes,
    No,
}

/// The workflow a reward is credited for. It is informational only: the
/// amount credited does not depend on it.
#[derive(Clone, Copy, Debug, PartialEq, Eq, Structural)]
pub enum ActionType {
    Registration,
    DataSubmission,
    Validation,
    Governance,
}

/// The failures an operation reports; on each of them the state is unchanged.
#[derive(Clone, Copy, Debug, PartialEq, Eq, Structural)]
pub enum EcoError {
    UserNotFound,
    InsufficientBalance,
    ProposalNotFound,
    ProposalNotActive,
    AlreadyVoted,
    /// The caller is already registered, or tries to validate their own submission.
    Unauthorized,
    DataNotFound,
    AlreadyValidated,
    /// A balance, a tally or an id counter would exceed `u64::MAX`.
    Overflow,
}

} // verus!
