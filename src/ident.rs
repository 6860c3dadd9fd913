use vstd::prelude::*;

verus! {

/// Whether two byte arrays of one length hold the same bytes.
pub fn same_bytes<const N: usize>(a: &[u8; N], b: &[u8; N]) -> (r: bool)
    ensures
        r == (a@ == b@),
{
    let mut i: usize = 0;
    while i < N
        invariant
            0 <= i <= N,
            a@.len() == N,
            b@.len() == N,
            forall|j: int| 0 <= j < i ==> a@[j] == b@[j],
        decreases N - i,
    {
        if a[i] != b[i] {
            assert(a@[i as int] != b@[i as int]);
            return false;
        }
        i = i + 1;
    }
    assert(a@ =~= b@);
    true
}

/// The caller-chosen 32-byte identifier of a listing.
#[derive(Clone, Copy, Debug)]
pub struct ListingId {
    pub bytes: [u8; 32],
}

/// A 20-byte account identity; the all-zero identity stands for "nobody".
#[derive(Clone, Copy, Debug)]
pub struct Account {
    pub bytes: [u8; 20],
}

impl ListingId {
    pub open spec fn view(self) -> Seq<u8> {
        self.bytes@
    }

    pub fn zero() -> (r: ListingId)
        ensures
            r@ == Seq::new(32, |i: int| 0u8),
    {
        let r = ListingId { bytes: [0u8; 32] };
        assert(r@ =~= Seq::new(32, |i: int| 0u8));
        r
    }

    pub fn same(&self, other: &ListingId) -> (r: bool)
        ensures
            r == (self@ == other@),
    {
        same_bytes(&self.bytes, &other.bytes)
    }
}

/// The bytes of the zero identity.
pub open spec fn zero_account() -> Seq<u8> {
    Seq::new(20, |i: int| 0u8)
}

impl Account {
    pub open spec fn view(self) -> Seq<u8> {
        self.bytes@
    }

    pub fn zero() -> (r: Account)
        ensures
            r@ == zero_account(),
    {
        let r = Account { bytes: [0u8; 20] };
        assert(r@ =~= zero_account());
        r
    }

    pub fn same(&self, other: &Account) -> (r: bool)
        ensures
            r == (self@ == other@),
    {
        same_bytes(&self.bytes, &other.bytes)
    }

    pub fn is_zero(&self) -> (r: bool)
        ensures
            r == (self@ == zero_account()),
    {
        let z = Account::zero();
        self.same(&z)
    }
}

} // verus!
