use vstd::prelude::*;

use crate::order::{lex_lt, lemma_lex_skip, lemma_lex_irreflexive, KeyOrder, MapKey};

verus! {

/// The most bytes a principal may hold.
pub const MAX_PRINCIPAL_LEN: usize = 29;

/// The textual form of the principal with the given bytes, as
/// `candid::Principal::to_text` writes it (a CRC32 checksum and the bytes in
/// grouped lower-case base32).
pub uninterp spec fn spec_principal_text(bytes: Seq<u8>) -> Seq<char>;

/// The bytes of the principal that `candid::Principal::from_text` reads
/// from the given text, or `None` where it rejects the text.
pub uninterp spec fn spec_principal_from_text(text: Seq<char>) -> Option<Seq<u8>>;

/// The bytes of the anonymous principal.
pub open spec fn anonymous_bytes() -> Seq<u8> {
    seq![4u8]
}

/// Calls `candid::Principal::anonymous` and returns its significant bytes.
/// The crate's source builds it from the single tag byte 4.
#[verifier::external_body]
fn candid_anonymous_bytes() -> (r: Vec<u8>)
    ensures
        r@ == anonymous_bytes(),
{
    candid::Principal::anonymous().as_slice().to_vec()
}

/// Calls `candid::Principal::to_text` on the principal with these bytes.
/// Its result is named by `spec_principal_text`; the source always encodes
/// a four-byte checksum, so the text is never empty.
#[verifier::external_body]
fn candid_principal_text(bytes: &[u8]) -> (r: String)
    requires
        bytes@.len() <= MAX_PRINCIPAL_LEN,
    ensures
        r@ == spec_principal_text(bytes@),
        r@.len() > 0,
{
    candid::Principal::from_slice(bytes).to_text()
}

/// Calls `candid::Principal::from_text` and returns the principal's bytes.
/// Its result is named by `spec_principal_from_text`; the source rejects
/// texts whose data is longer than 29 bytes.
#[verifier::external_body]
fn candid_principal_from_text(text: &str) -> (r: Option<Vec<u8>>)
    ensures
        r matches Some(b) ==> spec_principal_from_text(text@) == Some(b@) && b@.len()
            <= MAX_PRINCIPAL_LEN,
        r is None ==> spec_principal_from_text(text@) is None,
{
    match candid::Principal::from_text(text) {
        Ok(p) => Some(p.as_slice().to_vec()),
        Err(_) => None,
    }
}

/// A principal of the Internet Computer (a user, a canister or a ledger),
/// held as its significant bytes.
pub struct PrincipalId {
    bytes: Vec<u8>,
}

impl View for PrincipalId {
    type V = Seq<u8>;

    closed spec fn view(&self) -> Seq<u8> {
        self.bytes@
    }
}

/// The order of principals: by length first, then byte by byte, which is
/// the order `candid::Principal` derives from its length and its
/// zero-padded bytes.
pub open spec fn principal_rank(v: Seq<u8>) -> Seq<int> {
    Seq::new(v.len() + 1, |i: int| if i == 0 { v.len() as int } else { v[i - 1] as int })
}

/// The bytes as integers.
pub open spec fn byte_ranks(v: Seq<u8>) -> Seq<int> {
    Seq::new(v.len(), |i: int| v[i] as int)
}

/// Compares two byte strings lexicographically.
pub fn compare_bytes(a: &[u8], b: &[u8]) -> (r: KeyOrder)
    ensures
        r == KeyOrder::Less <==> lex_lt(byte_ranks(a@), byte_ranks(b@)),
        r == KeyOrder::Greater <==> lex_lt(byte_ranks(b@), byte_ranks(a@)),
        r == KeyOrder::Equal <==> a@ == b@,
{
    let n = a.len();
    let m = b.len();
    let ghost ra = byte_ranks(a@);
    let ghost rb = byte_ranks(b@);
    let mut i: usize = 0;
    while i < n && i < m
        invariant
            n == a@.len(),
            m == b@.len(),
            ra == byte_ranks(a@),
            rb == byte_ranks(b@),
            i <= n,
            i <= m,
            ra.take(i as int) =~= rb.take(i as int),
        decreases n - i,
    {
        let xa = a[i];
        let xb = b[i];
        if xa != xb {
            proof {
                lemma_lex_skip(ra, rb, i as int);
                lemma_lex_skip(rb, ra, i as int);
                assert(ra.skip(i as int)[0] == xa);
                assert(rb.skip(i as int)[0] == xb);
            }
            if xa < xb {
                return KeyOrder::Less;
            } else {
                return KeyOrder::Greater;
            }
        }
        assert(ra.take(i + 1) =~= rb.take(i + 1)) by {
            assert(ra.take(i + 1) =~= ra.take(i as int).push(ra[i as int]));
            assert(rb.take(i + 1) =~= rb.take(i as int).push(rb[i as int]));
        }
        i = i + 1;
    }
    proof {
        lemma_lex_skip(ra, rb, i as int);
        lemma_lex_skip(rb, ra, i as int);
    }
    if n < m {
        KeyOrder::Less
    } else if m < n {
        KeyOrder::Greater
    } else {
        proof {
            assert(ra =~= ra.take(i as int));
            assert(rb =~= rb.take(i as int));
            assert forall|k: int| 0 <= k < n implies a@[k] == b@[k] by {
                assert(ra[k] == rb[k]);
            }
            assert(a@ =~= b@);
            lemma_lex_irreflexive(ra);
        }
        KeyOrder::Equal
    }
}

impl PrincipalId {
    #[verifier::type_invariant]
    spec fn short_enough(self) -> bool {
        self.bytes@.len() <= MAX_PRINCIPAL_LEN
    }

    /// The principal with these bytes, or `None` where they are longer
    /// than a principal may be.
    pub fn from_slice(bytes: &[u8]) -> (r: Option<PrincipalId>)
        ensures
            bytes@.len() <= MAX_PRINCIPAL_LEN ==> (r matches Some(p) && p@ == bytes@),
            bytes@.len() > MAX_PRINCIPAL_LEN ==> r is None,
    {
        if bytes.len() > MAX_PRINCIPAL_LEN {
            None
        } else {
            Some(PrincipalId { bytes: vstd::slice::slice_to_vec(bytes) })
        }
    }

    /// The principal written in the textual form `text`, or `None` where
    /// the text is not a valid principal.
    pub fn from_text(text: &str) -> (r: Option<PrincipalId>)
        ensures
            r matches Some(p) ==> spec_principal_from_text(text@) == Some(p@),
            r is None ==> spec_principal_from_text(text@) is None,
    {
        match candid_principal_from_text(text) {
            Some(b) => Some(PrincipalId { bytes: b }),
            None => None,
        }
    }

    /// The anonymous principal.
    pub fn anonymous() -> (r: PrincipalId)
        ensures
            r@ == anonymous_bytes(),
    {
        PrincipalId { bytes: candid_anonymous_bytes() }
    }

    /// Whether this is the anonymous principal.
    pub fn is_anonymous(&self) -> (r: bool)
        ensures
            r == (self@ == anonymous_bytes()),
    {
        let anon = candid_anonymous_bytes();
        let c = compare_bytes(self.bytes.as_slice(), anon.as_slice());
        c == KeyOrder::Equal
    }

    /// The significant bytes of the principal.
    pub fn as_bytes(&self) -> (r: &[u8])
        ensures
            r@ == self@,
    {
        self.bytes.as_slice()
    }

    /// The textual form of the principal.
    pub fn to_text(&self) -> (r: String)
        ensures
            r@ == spec_principal_text(self@),
            r@.len() > 0,
    {
        proof {
            use_type_invariant(self);
        }
        candid_principal_text(self.bytes.as_slice())
    }

    /// Whether two principals are the same.
    pub fn same_as(&self, other: &PrincipalId) -> (r: bool)
        ensures
            r == (self@ == other@),
    {
        compare_bytes(self.bytes.as_slice(), other.bytes.as_slice()) == KeyOrder::Equal
    }
}

impl MapKey for PrincipalId {
    open spec fn rank(v: Seq<u8>) -> Seq<int> {
        principal_rank(v)
    }

    proof fn lemma_rank_injective(a: Seq<u8>, b: Seq<u8>) {
        assert(principal_rank(a).len() == principal_rank(b).len());
        assert forall|k: int| 0 <= k < a.len() implies a[k] == b[k] by {
            assert(principal_rank(a)[k + 1] == principal_rank(b)[k + 1]);
        }
        assert(a =~= b);
    }

    fn compare_key(&self, other: &PrincipalId) -> (r: KeyOrder) {
        let ghost ra = principal_rank(self@);
        let ghost rb = principal_rank(other@);
        let n = self.bytes.len();
        let m = other.bytes.len();
        if n != m {
            assert(ra[0] == n && rb[0] == m);
            if n < m {
                KeyOrder::Less
            } else {
                KeyOrder::Greater
            }
        } else {
            let c = compare_bytes(self.bytes.as_slice(), other.bytes.as_slice());
            proof {
                assert(ra.take(1) =~= rb.take(1));
                lemma_lex_skip(ra, rb, 1);
                lemma_lex_skip(rb, ra, 1);
                assert(ra.skip(1) =~= byte_ranks(self@));
                assert(rb.skip(1) =~= byte_ranks(other@));
            }
            c
        }
    }

    fn clone_key(&self) -> (r: PrincipalId) {
        proof {
            use_type_invariant(self);
        }
        PrincipalId { bytes: self.bytes.clone() }
    }
}

/// The text that `{:?}` writes for the `candid::Principal` with these
/// bytes (its derived `Debug`).
pub uninterp spec fn spec_principal_debug(bytes: Seq<u8>) -> Seq<char>;

/// Calls `Debug` of `candid::Principal` (through `format!("{:?}")`) on the
/// principal with these bytes; its result is named by
/// `spec_principal_debug`.
#[verifier::external_body]
fn candid_principal_debug(bytes: &[u8]) -> (r: String)
    requires
        bytes@.len() <= MAX_PRINCIPAL_LEN,
    ensures
        r@ == spec_principal_debug(bytes@),
{
    format!("{:?}", candid::Principal::from_slice(bytes))
}

impl PrincipalId {
    /// The principal as `{:?}` writes a `candid::Principal`.
    pub fn debug_text(&self) -> (r: String)
        ensures
            r@ == spec_principal_debug(self@),
    {
        proof {
            use_type_invariant(self);
        }
        candid_principal_debug(self.bytes.as_slice())
    }
}

} // verus!
