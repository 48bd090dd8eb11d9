use vstd::prelude::*;
use crate::types::Identity;

verus! {

/// Whether `a` comes before `b` bytewise, comparing from position `i` on;
/// meant for sequences of one length.
pub open spec fn lex_lt_from(a: Seq<u8>, b: Seq<u8>, i: int) -> bool
    decreases a.len() - i,
{
    if i < 0 || i >= a.len() || i >= b.len() {
        false
    } else if a[i] != b[i] {
        a[i] < b[i]
    } else {
        lex_lt_from(a, b, i + 1)
    }
}

/// The order of identities: a shorter one comes first, and among those of
/// one length the bytes decide, from the first on.
pub open spec fn id_lt(a: Seq<u8>, b: Seq<u8>) -> bool {
    a.len() < b.len() || (a.len() == b.len() && lex_lt_from(a, b, 0))
}

proof fn lemma_lex_irreflexive(a: Seq<u8>, i: int)
    requires
        0 <= i,
    ensures
        !lex_lt_from(a, a, i),
    decreases a.len() - i,
{
    if i < a.len() {
        lemma_lex_irreflexive(a, i + 1);
    }
}

proof fn lemma_lex_transitive(a: Seq<u8>, b: Seq<u8>, c: Seq<u8>, i: int)
    requires
        0 <= i,
        a.len() == b.len(),
        b.len() == c.len(),
        lex_lt_from(a, b, i),
        lex_lt_from(b, c, i),
    ensures
        lex_lt_from(a, c, i),
    decreases a.len() - i,
{
    if a[i] == b[i] && b[i] == c[i] {
        lemma_lex_transitive(a, b, c, i + 1);
    }
}

proof fn lemma_lex_total(a: Seq<u8>, b: Seq<u8>, i: int)
    requires
        0 <= i <= a.len(),
        a.len() == b.len(),
        a != b,
        forall|j: int| 0 <= j < i ==> a[j] == b[j],
    ensures
        lex_lt_from(a, b, i) || lex_lt_from(b, a, i),
    decreases a.len() - i,
{
    if i == a.len() {
        assert(a =~= b);
    } else if a[i] == b[i] {
        lemma_lex_total(a, b, i + 1);
    }
}

/// No identity comes before itself.
pub proof fn lemma_id_irreflexive(a: Seq<u8>)
    ensures
        !id_lt(a, a),
{
    lemma_lex_irreflexive(a, 0);
}

/// The order of identities is transitive.
pub proof fn lemma_id_transitive(a: Seq<u8>, b: Seq<u8>, c: Seq<u8>)
    requires
        id_lt(a, b),
        id_lt(b, c),
    ensures
        id_lt(a, c),
{
    if a.len() == b.len() && b.len() == c.len() {
        lemma_lex_transitive(a, b, c, 0);
    }
}

/// Of two distinct identities, one comes before the other.
pub proof fn lemma_id_total(a: Seq<u8>, b: Seq<u8>)
    requires
        a != b,
    ensures
        id_lt(a, b) || id_lt(b, a),
{
    if a.len() == b.len() {
        lemma_lex_total(a, b, 0);
    }
}

impl Identity {
    /// Whether this identity comes before `other`.
    pub fn precedes(&self, other: &Identity) -> (r: bool)
        ensures
            r == id_lt(self@, other@),
    {
        let n = self.bytes.len();
        let m = other.bytes.len();
        if n != m {
            return n < m;
        }
        let mut i: usize = 0;
        while i < n
            invariant
                n == self@.len(),
                m == other@.len(),
                n == m,
                0 <= i <= n,
                lex_lt_from(self@, other@, 0) == lex_lt_from(self@, other@, i as int),
            decreases n - i,
        {
            if self.bytes[i] != other.bytes[i] {
                return self.bytes[i] < other.bytes[i];
            }
            i += 1;
        }
        false
    }
}

} // verus!
