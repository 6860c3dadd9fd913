use crate::amount::Amount;
use crate::ident::{zero_account, Account, ListingId};
use crate::listing::{
    is_fresh_listing, is_settlement, is_unset, payment_error, seller_share, fee_of,
    status_consistent, unset_listing, lemma_unset_listing, Listing, MerchantPayError, Payment, Status,
};
use vstd::prelude::*;

verus! {

/// A listing is addressed by its id together with its seller.
pub type Key = (Seq<u8>, Seq<u8>);

pub open spec fn key_of(id: ListingId, seller: Account) -> Key {
    (id@, seller@)
}

/// The ids of a sequence of listing ids, as byte sequences.
pub open spec fn ids_view(s: Seq<ListingId>) -> Seq<Seq<u8>> {
    s.map_values(|id: ListingId| id@)
}

/// The (seller, id) pairs of the per-seller index, as byte sequences.
pub open spec fn pairs_view(s: Seq<(Account, ListingId)>) -> Seq<(Seq<u8>, Seq<u8>)> {
    s.map_values(|p: (Account, ListingId)| (p.0@, p.1@))
}

/// What the ledger holds: the asset contract, the listings that were written,
/// the ids ever listed, and the (seller, id) pairs ever listed, in order.
pub struct LedgerView {
    pub asset: Seq<u8>,
    pub listings: Map<Key, Listing>,
    pub keys: Seq<Seq<u8>>,
    pub seller_index: Seq<(Seq<u8>, Seq<u8>)>,
}

/// `x` stands at exactly one position of `s`.
pub open spec fn occurs_once<A>(s: Seq<A>, x: A) -> bool {
    exists|i: int| 0 <= i < s.len() && s[i] == x && forall|j: int| 0 <= j < s.len() && s[j] == x ==> j == i
}

/// The listing stored under `k`, or the never-written one.
pub open spec fn current(v: LedgerView, k: Key) -> Listing {
    if v.listings.contains_key(k) {
        v.listings[k]
    } else {
        unset_listing()
    }
}

/// The ids that `seller` has listed, in the order they were first listed.
pub open spec fn seller_ids(index: Seq<(Seq<u8>, Seq<u8>)>, seller: Seq<u8>) -> Seq<Seq<u8>>
    decreases index.len(),
{
    if index.len() == 0 {
        Seq::empty()
    } else {
        let prev = seller_ids(index.drop_last(), seller);
        if index.last().0 == seller {
            prev.push(index.last().1)
        } else {
            prev
        }
    }
}

/// An id is among a seller's ids exactly when the pair stands in the index.
pub proof fn lemma_seller_ids_contains(index: Seq<(Seq<u8>, Seq<u8>)>, seller: Seq<u8>, id: Seq<u8>)
    ensures
        seller_ids(index, seller).contains(id) <==> index.contains((seller, id)),
    decreases index.len(),
{
    if index.len() > 0 {
        let rest = index.drop_last();
        lemma_seller_ids_contains(rest, seller, id);
        let prev = seller_ids(rest, seller);
        if index.contains((seller, id)) {
            let i = choose|i: int| 0 <= i < index.len() && index[i] == (seller, id);
            if i < index.len() - 1 {
                assert(rest[i] == (seller, id));
            }
            if index.last() == (seller, id) {
                assert(prev.push(id)[prev.len() as int] == id);
            } else {
                assert(rest.contains((seller, id)));
                let j = choose|j: int| 0 <= j < prev.len() && prev[j] == id;
                if index.last().0 == seller {
                    assert(prev.push(index.last().1)[j] == id);
                }
            }
        }
        if seller_ids(index, seller).contains(id) {
            if index.last().0 == seller && index.last().1 == id {
                assert(index[index.len() - 1] == (seller, id));
            } else {
                let s = seller_ids(index, seller);
                let j = choose|j: int| 0 <= j < s.len() && s[j] == id;
                if index.last().0 == seller {
                    assert(j < prev.len());
                    assert(prev[j] == id);
                }
                assert(prev.contains(id));
                let k = choose|k: int| 0 <= k < rest.len() && rest[k] == (seller, id);
                assert(index[k] == (seller, id));
            }
        }
    }
}

/// A seller's ids hold no repeat when the index holds no repeated pair.
pub proof fn lemma_seller_ids_unique(index: Seq<(Seq<u8>, Seq<u8>)>, seller: Seq<u8>)
    requires
        index.no_duplicates(),
    ensures
        seller_ids(index, seller).no_duplicates(),
    decreases index.len(),
{
    if index.len() > 0 {
        let rest = index.drop_last();
        assert(rest.no_duplicates()) by {
            assert forall|a: int, b: int| 0 <= a < rest.len() && 0 <= b < rest.len() && a != b implies rest[a]
                != rest[b] by {
                assert(index[a] != index[b]);
            }
        }
        lemma_seller_ids_unique(rest, seller);
        if index.last().0 == seller {
            let prev = seller_ids(rest, seller);
            let x = index.last().1;
            lemma_seller_ids_contains(rest, seller, x);
            if rest.contains((seller, x)) {
                let k = choose|k: int| 0 <= k < rest.len() && rest[k] == (seller, x);
                assert(index[k] == index[index.len() - 1]);
            }
            let s = prev.push(x);
            assert forall|a: int, b: int| 0 <= a < s.len() && 0 <= b < s.len() && a != b implies s[a] != s[b] by {
                if a == prev.len() {
                    assert(!prev.contains(x));
                    assert(s[b] == prev[b]);
                } else if b == prev.len() {
                    assert(!prev.contains(x));
                    assert(s[a] == prev[a]);
                } else {
                    assert(prev[a] != prev[b]);
                }
            }
        }
    }
}

/// The listings of `seller` reached through `index`, keeping those whose seller is not zero.
pub open spec fn listed_for(v: LedgerView, index: Seq<(Seq<u8>, Seq<u8>)>, seller: Seq<u8>) -> Seq<Listing>
    decreases index.len(),
{
    if index.len() == 0 {
        Seq::empty()
    } else {
        let prev = listed_for(v, index.drop_last(), seller);
        let l = current(v, (index.last().1, seller));
        if index.last().0 == seller && l.seller@ != zero_account() {
            prev.push(l)
        } else {
            prev
        }
    }
}

/// In a sequence without repeats, an element that is present stands there once.
pub proof fn lemma_present_once<A>(s: Seq<A>, x: A)
    requires
        s.no_duplicates(),
        s.contains(x),
    ensures
        occurs_once(s, x),
{
    let i = choose|i: int| 0 <= i < s.len() && s[i] == x;
    assert forall|j: int| 0 <= j < s.len() && s[j] == x implies j == i by {
        if j != i {
            assert(s[i] != s[j]);
        }
    }
}

/// What a stored listing holds of its key and its history: its status agrees with its
/// quantity, it has no buyer while pending, and unless its seller is zero (a slot that
/// was never listed) it sits under its own id and seller and has a positive rate.
pub open spec fn listing_fits(k: Key, l: Listing) -> bool {
    &&& status_consistent(l)
    &&& l.status == Status::Pending ==> l.buyer@ == zero_account()
    &&& l.seller@ != zero_account() ==> l.id@ == k.0 && l.seller@ == k.1 && l.rate.value() > 0
}

/// What holds of every state the operations reach from a new ledger: no index holds an
/// entry twice, every id of the per-seller index is in the global one, and every stored
/// listing fits its key and, unless its seller is zero, was listed by that seller.
pub open spec fn reachable(v: LedgerView) -> bool {
    &&& v.keys.no_duplicates()
    &&& v.seller_index.no_duplicates()
    &&& forall|i: int| 0 <= i < v.seller_index.len() ==> v.keys.contains(#[trigger] v.seller_index[i].1)
    &&& forall|k: Key| #[trigger]
        v.listings.contains_key(k) ==> listing_fits(k, v.listings[k]) && (v.listings[k].seller@
            != zero_account() ==> v.seller_index.contains((k.1, k.0)))
}

struct Slot {
    id: ListingId,
    seller: Account,
    listing: Listing,
}

spec fn slot_key(s: Slot) -> Key {
    (s.id@, s.seller@)
}

/// A listing-and-escrow ledger: sellers list quantities at a unit rate, buyers pay for them.
pub struct MerchantPay {
    asset: Account,
    slots: Vec<Slot>,
    listing_keys: Vec<ListingId>,
    address_to_listing: Vec<(Account, ListingId)>,
    stored: Ghost<Map<Key, Listing>>,
}

/// Whether `ids` holds `id`.
pub fn contains_id(ids: &Vec<ListingId>, id: &ListingId) -> (r: bool)
    ensures
        r == ids_view(ids@).contains(id@),
{
    let mut i: usize = 0;
    while i < ids.len()
        invariant
            0 <= i <= ids@.len(),
            forall|j: int| 0 <= j < i ==> ids@[j]@ != id@,
        decreases ids@.len() - i,
    {
        if ids[i].same(id) {
            assert(ids_view(ids@)[i as int] == id@);
            return true;
        }
        i = i + 1;
    }
    assert forall|j: int| 0 <= j < ids_view(ids@).len() implies ids_view(ids@)[j] != id@ by {
        assert(ids@[j]@ != id@);
    }
    false
}

/// Appends `id` to `ids` unless it is there already; says whether it was appended.
pub fn append_new(ids: &mut Vec<ListingId>, id: ListingId) -> (added: bool)
    ensures
        added == !ids_view(old(ids)@).contains(id@),
        ids_view(final(ids)@) == if added {
            ids_view(old(ids)@).push(id@)
        } else {
            ids_view(old(ids)@)
        },
{
    if contains_id(ids, &id) {
        return false;
    }
    let ghost before = ids@;
    ids.push(id);
    assert(ids_view(ids@) =~= ids_view(before).push(id@));
    true
}

/// The listings of `ls` whose seller is not zero, in order.
pub open spec fn keep_found(ls: Seq<Listing>) -> Seq<Listing>
    decreases ls.len(),
{
    if ls.len() == 0 {
        Seq::empty()
    } else if ls.last().seller@ != zero_account() {
        keep_found(ls.drop_last()).push(ls.last())
    } else {
        keep_found(ls.drop_last())
    }
}

/// The listings of `ls` that were found, in order; refused with `ListingNotFound` when
/// none was.
pub fn found_listings(ls: &Vec<Listing>) -> (r: Result<Vec<Listing>, MerchantPayError>)
    ensures
        r is Err <==> keep_found(ls@).len() == 0,
        r is Err ==> r == Err::<Vec<Listing>, MerchantPayError>(MerchantPayError::ListingNotFound),
        r is Ok ==> r->Ok_0@ == keep_found(ls@),
{
    let mut out: Vec<Listing> = Vec::new();
    let mut i: usize = 0;
    while i < ls.len()
        invariant
            0 <= i <= ls@.len(),
            out@ == keep_found(ls@.take(i as int)),
        decreases ls@.len() - i,
    {
        assert(ls@.take(i + 1).drop_last() =~= ls@.take(i as int));
        assert(ls@.take(i + 1).last() == ls@[i as int]);
        if !ls[i].seller.is_zero() {
            out.push(ls[i]);
        }
        i = i + 1;
    }
    assert(ls@.take(i as int) =~= ls@);
    if out.len() == 0 {
        return Err(MerchantPayError::ListingNotFound);
    }
    Ok(out)
}

/// Whether `pairs` holds the pair (`seller`, `id`).
fn contains_pair(pairs: &Vec<(Account, ListingId)>, seller: &Account, id: &ListingId) -> (r: bool)
    ensures
        r == pairs_view(pairs@).contains((seller@, id@)),
{
    let mut i: usize = 0;
    while i < pairs.len()
        invariant
            0 <= i <= pairs@.len(),
            forall|j: int| 0 <= j < i ==> (pairs@[j].0@, pairs@[j].1@) != (seller@, id@),
        decreases pairs@.len() - i,
    {
        if pairs[i].0.same(seller) && pairs[i].1.same(id) {
            assert(pairs_view(pairs@)[i as int] == (seller@, id@));
            return true;
        }
        i = i + 1;
    }
    assert forall|j: int| 0 <= j < pairs_view(pairs@).len() implies pairs_view(pairs@)[j] != (
    seller@,
    id@,
    ) by {
        assert((pairs@[j].0@, pairs@[j].1@) != (seller@, id@));
    }
    false
}

impl MerchantPay {
    pub closed spec fn view(&self) -> LedgerView {
        LedgerView {
            asset: self.asset@,
            listings: self.stored@,
            keys: ids_view(self.listing_keys@),
            seller_index: pairs_view(self.address_to_listing@),
        }
    }

    /// The slots mirror the stored listings, one slot per key, and the indexes
    /// hold no entry twice.
    pub closed spec fn wf(&self) -> bool {
        &&& forall|i: int|
            0 <= i < self.slots@.len() ==> self.stored@.contains_key(slot_key(#[trigger] self.slots@[i]))
                && self.stored@[slot_key(self.slots@[i])] == self.slots@[i].listing
        &&& forall|k: Key| #[trigger]
            self.stored@.contains_key(k) ==> exists|i: int|
                0 <= i < self.slots@.len() && slot_key(#[trigger] self.slots@[i]) == k
        &&& forall|i: int, j: int|
            0 <= i < j < self.slots@.len() ==> slot_key(#[trigger] self.slots@[i]) != slot_key(
                #[trigger] self.slots@[j],
            )
        &&& reachable(self@)
    }

    /// An empty ledger with no asset contract set.
    pub fn new() -> (r: MerchantPay)
        ensures
            r.wf(),
            r@.asset == zero_account(),
            r@.listings == Map::<Key, Listing>::empty(),
            r@.keys == Seq::<Seq<u8>>::empty(),
            r@.seller_index == Seq::<(Seq<u8>, Seq<u8>)>::empty(),
    {
        let r = MerchantPay {
            asset: Account::zero(),
            slots: Vec::new(),
            listing_keys: Vec::new(),
            address_to_listing: Vec::new(),
            stored: Ghost(Map::empty()),
        };
        assert(ids_view(r.listing_keys@) =~= Seq::empty());
        assert(pairs_view(r.address_to_listing@) =~= Seq::empty());
        r
    }

    fn find_slot(&self, id: &ListingId, seller: &Account) -> (r: Option<usize>)
        requires
            self.wf(),
        ensures
            match r {
                Some(i) => i < self.slots@.len() && slot_key(self.slots@[i as int]) == key_of(*id, *seller),
                None => !self.stored@.contains_key(key_of(*id, *seller)),
            },
    {
        let mut i: usize = 0;
        while i < self.slots.len()
            invariant
                0 <= i <= self.slots@.len(),
                forall|j: int| 0 <= j < i ==> slot_key(#[trigger] self.slots@[j]) != key_of(*id, *seller),
            decreases self.slots@.len() - i,
        {
            if self.slots[i].id.same(id) && self.slots[i].seller.same(seller) {
                return Some(i);
            }
            i = i + 1;
        }
        None
    }

    /// The listing stored under (`id`, `seller`), or a never-written one.
    fn lookup(&self, id: &ListingId, seller: &Account) -> (r: Listing)
        requires
            self.wf(),
        ensures
            self@.listings.contains_key(key_of(*id, *seller)) ==> r == self@.listings[key_of(*id, *seller)],
            !self@.listings.contains_key(key_of(*id, *seller)) ==> is_unset(r),
            is_unset(unset_listing()),
    {
        let u = Listing::unset();
        match self.find_slot(id, seller) {
            Some(i) => self.slots[i].listing,
            None => u,
        }
    }
    /// Writes `listing` under (`id`, `seller`), leaving every other key and both indexes as they were.
    fn store(&mut self, id: ListingId, seller: Account, listing: Listing)
        requires
            old(self).wf(),
            listing_fits(key_of(id, seller), listing),
            listing.seller@ != zero_account() ==> old(self)@.seller_index.contains((seller@, id@)),
        ensures
            final(self).wf(),
            final(self)@ == (LedgerView {
                listings: old(self)@.listings.insert(key_of(id, seller), listing),
                ..old(self)@
            }),
    {
        let k = Ghost(key_of(id, seller));
        let slot = Slot { id, seller, listing };
        match self.find_slot(&id, &seller) {
            Some(i) => {
                self.slots.set(i, slot);
                self.stored = Ghost(self.stored@.insert(k@, listing));
                assert forall|k2: Key| #[trigger] self.stored@.contains_key(k2) implies exists|j: int|
                    0 <= j < self.slots@.len() && slot_key(#[trigger] self.slots@[j]) == k2 by {
                    if k2 == k@ {
                        assert(slot_key(self.slots@[i as int]) == k2);
                    } else {
                        assert(old(self).stored@.contains_key(k2));
                        let j = choose|j: int|
                            0 <= j < old(self).slots@.len() && slot_key(#[trigger] old(self).slots@[j]) == k2;
                        assert(slot_key(self.slots@[j]) == k2);
                    }
                }
            },
            None => {
                let ghost n = self.slots@.len() as int;
                self.slots.push(slot);
                self.stored = Ghost(self.stored@.insert(k@, listing));
                assert forall|k2: Key| #[trigger] self.stored@.contains_key(k2) implies exists|j: int|
                    0 <= j < self.slots@.len() && slot_key(#[trigger] self.slots@[j]) == k2 by {
                    if k2 == k@ {
                        assert(slot_key(self.slots@[n]) == k2);
                    } else {
                        assert(old(self).stored@.contains_key(k2));
                        let j = choose|j: int|
                            0 <= j < old(self).slots@.len() && slot_key(#[trigger] old(self).slots@[j]) == k2;
                        assert(slot_key(self.slots@[j]) == k2);
                    }
                }
                assert forall|a: int, b: int|
                    0 <= a < b < self.slots@.len() implies slot_key(#[trigger] self.slots@[a]) != slot_key(
                    #[trigger] self.slots@[b],
                ) by {
                    if b == n {
                        assert(old(self).stored@.contains_key(slot_key(old(self).slots@[a])));
                    }
                }
            },
        }
    }

    /// Records the asset contract that payments are made in. Anyone may call it, any number of times.
    pub fn initialize(&mut self, usdc: Account)
        requires
            old(self).wf(),
        ensures
            final(self).wf(),
            final(self)@ == (LedgerView { asset: usdc@, ..old(self)@ }),
    {
        self.asset = usdc;
    }

    /// The asset contract that payments are made in.
    pub fn asset(&self) -> (r: Account)
        ensures
            r@ == self@.asset,
    {
        self.asset
    }

    /// `caller` lists `quantity` units at `rate` each under `id`, replacing any listing
    /// it had under that id; the id enters each index unless it is there already.
    pub fn add_listing(&mut self, caller: Account, id: ListingId, rate: Amount, quantity: Amount) -> (r: Result<
        (),
        MerchantPayError,
    >)
        requires
            old(self).wf(),
        ensures
            final(self).wf(),
            r is Err <==> (rate.value() == 0 || quantity.value() == 0),
            r is Err ==> r == Err::<(), MerchantPayError>(MerchantPayError::InvalidAmount) && final(self)@
                == old(self)@,
            r is Ok ==> {
                &&& final(self)@.asset == old(self)@.asset
                &&& final(self)@.listings.dom() == old(self)@.listings.dom().insert(key_of(id, caller))
                &&& forall|k: Key|
                    k != key_of(id, caller) && old(self)@.listings.contains_key(k) ==> final(self)@.listings[k]
                        == old(self)@.listings[k]
                &&& is_fresh_listing(final(self)@.listings[key_of(id, caller)], id, caller, rate, quantity)
                &&& final(self)@.keys == if old(self)@.keys.contains(id@) {
                    old(self)@.keys
                } else {
                    old(self)@.keys.push(id@)
                }
                &&& final(self)@.seller_index == if old(self)@.seller_index.contains((caller@, id@)) {
                    old(self)@.seller_index
                } else {
                    old(self)@.seller_index.push((caller@, id@))
                }
                &&& occurs_once(final(self)@.keys, id@)
                &&& occurs_once(final(self)@.seller_index, (caller@, id@))
                &&& occurs_once(seller_ids(final(self)@.seller_index, caller@), id@)
                &&& old(self)@.seller_index.contains((caller@, id@)) ==> final(self)@.keys == old(self)@.keys
                    && final(self)@.seller_index == old(self)@.seller_index
            },
    {
        let listing = match Listing::create(id, caller, rate, quantity) {
            Ok(l) => l,
            Err(e) => {
                return Err(e);
            },
        };
        let ghost start = self@;
        assert(start.seller_index.contains((caller@, id@)) ==> start.keys.contains(id@)) by {
            if start.seller_index.contains((caller@, id@)) {
                let j = choose|j: int| 0 <= j < start.seller_index.len() && start.seller_index[j] == (caller@, id@);
                assert(start.keys.contains(start.seller_index[j].1));
            }
        }
        if !contains_id(&self.listing_keys, &id) {
            let ghost before = self.listing_keys@;
            self.listing_keys.push(id);
            assert(ids_view(self.listing_keys@) =~= ids_view(before).push(id@));
            assert(self@.keys[ids_view(before).len() as int] == id@);
            assert forall|i: int| 0 <= i < self@.seller_index.len() implies self@.keys.contains(
                #[trigger] self@.seller_index[i].1,
            ) by {
                assert(start.keys.contains(start.seller_index[i].1));
                let j = choose|j: int| 0 <= j < start.keys.len() && start.keys[j] == start.seller_index[i].1;
                assert(self@.keys[j] == start.keys[j]);
            }
        }
        assert(self@.keys.contains(id@));
        let ghost mid = self@;
        if !contains_pair(&self.address_to_listing, &caller, &id) {
            let ghost before = self.address_to_listing@;
            self.address_to_listing.push((caller, id));
            assert(pairs_view(self.address_to_listing@) =~= pairs_view(before).push((caller@, id@)));
            assert(self@.seller_index[pairs_view(before).len() as int] == (caller@, id@));
            assert forall|k: Key| #[trigger]
                self@.listings.contains_key(k) && self@.listings[k].seller@ != zero_account() implies self@.seller_index.contains(
                (k.1, k.0),
            ) by {
                let j = choose|j: int| 0 <= j < mid.seller_index.len() && mid.seller_index[j] == (k.1, k.0);
                assert(self@.seller_index[j] == mid.seller_index[j]);
            }
            assert forall|i: int| 0 <= i < self@.seller_index.len() implies self@.keys.contains(
                #[trigger] self@.seller_index[i].1,
            ) by {
                if i < mid.seller_index.len() {
                    assert(self@.seller_index[i] == mid.seller_index[i]);
                    assert(mid.keys.contains(mid.seller_index[i].1));
                }
            }
        }
        assert(self@.seller_index.contains((caller@, id@)));
        assert(self@.listings == start.listings);
        assert(reachable(self@));
        self.store(id, caller, listing);
        proof {
            lemma_present_once(self@.keys, id@);
            lemma_present_once(self@.seller_index, (caller@, id@));
            lemma_seller_ids_contains(self@.seller_index, caller@, id@);
            lemma_seller_ids_unique(self@.seller_index, caller@);
            lemma_present_once(seller_ids(self@.seller_index, caller@), id@);
        }
        Ok(())
    }
    /// Checks a payment of `amount` for `quantity` units of the listing (`id`, `seller`)
    /// and works out the two transfers that would settle it; nothing changes.
    pub fn quote(&self, id: ListingId, seller: Account, quantity: Amount, amount: Amount) -> (r: Result<
        Payment,
        MerchantPayError,
    >)
        requires
            self.wf(),
        ensures
            ({
                let l = current(self@, key_of(id, seller));
                match payment_error(l, quantity.value(), amount.value()) {
                    Some(e) => r == Err::<Payment, MerchantPayError>(e),
                    None => r is Ok && r->Ok_0.fee.value() == fee_of(l.rate.value())
                        && r->Ok_0.to_seller.value() == seller_share(l.rate.value(), quantity.value()),
                }
            }),
    {
        let l = self.lookup(&id, &seller);
        l.quote_payment(&quantity, &amount)
    }

    /// `caller` pays `amount` for `quantity` units of the listing (`id`, `seller`).
    /// `to_seller_done` and `fee_done` report whether the transfer of the seller's
    /// share and that of the fee went through; the listing changes only when the
    /// payment is valid and both did, and the transfers are then returned.
    pub fn pay_for_listing(
        &mut self,
        caller: Account,
        id: ListingId,
        seller: Account,
        quantity: Amount,
        amount: Amount,
        to_seller_done: bool,
        fee_done: bool,
    ) -> (r: Result<Payment, MerchantPayError>)
        requires
            old(self).wf(),
        ensures
            final(self).wf(),
            ({
                let k = key_of(id, seller);
                let l = current(old(self)@, k);
                match payment_error(l, quantity.value(), amount.value()) {
                    Some(e) => r == Err::<Payment, MerchantPayError>(e) && final(self)@ == old(self)@,
                    None => if !(to_seller_done && fee_done) {
                        r == Err::<Payment, MerchantPayError>(MerchantPayError::TransferFailed)
                            && final(self)@ == old(self)@
                    } else {
                        &&& r is Ok
                        &&& r->Ok_0.fee.value() == fee_of(l.rate.value())
                        &&& r->Ok_0.to_seller.value() == seller_share(l.rate.value(), quantity.value())
                        &&& final(self)@.listings == old(self)@.listings.insert(k, final(self)@.listings[k])
                        &&& is_settlement(l, final(self)@.listings[k], caller, quantity.value())
                        &&& final(self)@.asset == old(self)@.asset
                        &&& final(self)@.keys == old(self)@.keys
                        &&& final(self)@.seller_index == old(self)@.seller_index
                    },
                }
            }),
    {
        let l = self.lookup(&id, &seller);
        let payment = match l.quote_payment(&quantity, &amount) {
            Ok(p) => p,
            Err(e) => {
                return Err(e);
            },
        };
        if !to_seller_done || !fee_done {
            return Err(MerchantPayError::TransferFailed);
        }
        let updated = l.settle(caller, &quantity);
        self.store(id, seller, updated);
        Ok(payment)
    }

    /// The listing (`id`, `seller`), refused with `ListingNotFound` when its seller is the zero identity.
    pub fn get_listing(&self, id: ListingId, seller: Account) -> (r: Result<Listing, MerchantPayError>)
        requires
            self.wf(),
        ensures
            ({
                let l = current(self@, key_of(id, seller));
                &&& r is Err <==> l.seller@ == zero_account()
                &&& r is Err ==> r == Err::<Listing, MerchantPayError>(MerchantPayError::ListingNotFound)
                &&& r is Ok ==> r->Ok_0 == l
            }),
    {
        let l = self.lookup(&id, &seller);
        l.check_found()
    }

    /// The listings of `seller`, in the order their ids were first listed, leaving out
    /// those whose seller is the zero identity; refused with `ListingNotFound` when none is left.
    pub fn get_all_listings_for_address(&self, seller: Account) -> (r: Result<Vec<Listing>, MerchantPayError>)
        requires
            self.wf(),
        ensures
            ({
                let found = listed_for(self@, self@.seller_index, seller@);
                &&& r is Err <==> found.len() == 0
                &&& r is Err ==> r == Err::<Vec<Listing>, MerchantPayError>(MerchantPayError::ListingNotFound)
                &&& r is Ok ==> r->Ok_0@ == found
            }),
    {
        let mut listings: Vec<Listing> = Vec::new();
        let ghost index = self@.seller_index;
        let mut i: usize = 0;
        while i < self.address_to_listing.len()
            invariant
                self.wf(),
                index == pairs_view(self.address_to_listing@),
                0 <= i <= self.address_to_listing@.len(),
                listings@ == listed_for(self@, index.take(i as int), seller@),
            decreases self.address_to_listing@.len() - i,
        {
            let entry = self.address_to_listing[i];
            assert(index.take(i + 1).drop_last() =~= index.take(i as int));
            assert(index.take(i + 1).last() == (entry.0@, entry.1@));
            if entry.0.same(&seller) {
                let l = self.lookup(&entry.1, &seller);
                if !l.seller.is_zero() {
                    listings.push(l);
                }
            }
            i = i + 1;
        }
        assert(index.take(i as int) =~= index);
        if listings.len() == 0 {
            return Err(MerchantPayError::ListingNotFound);
        }
        Ok(listings)
    }
}

/// A stored listing is completed exactly when no quantity is left, and none is cancelled:
/// so it reads pending until its first payment and paid while quantity remains.
pub proof fn law_status_matches_quantity(s: &MerchantPay, k: Key)
    requires
        s.wf(),
        s@.listings.contains_key(k),
    ensures
        s@.listings[k].status != Status::Cancelled,
        s@.listings[k].status == Status::Completed <==> s@.listings[k].quantity.value() == 0,
{
}

/// The index of ids, the per-seller index and each seller's sequence of ids hold each
/// entry at most once: an id that was listed stands there exactly once, however often
/// it was listed again.
pub proof fn law_index_entries_unique(s: &MerchantPay, seller: Account, id: ListingId)
    requires
        s.wf(),
    ensures
        s@.keys.contains(id@) ==> occurs_once(s@.keys, id@),
        s@.seller_index.contains((seller@, id@)) ==> occurs_once(s@.seller_index, (seller@, id@)),
        seller_ids(s@.seller_index, seller@).contains(id@) ==> occurs_once(
            seller_ids(s@.seller_index, seller@),
            id@,
        ),
{
    lemma_seller_ids_contains(s@.seller_index, seller@, id@);
    lemma_seller_ids_unique(s@.seller_index, seller@);
    if seller_ids(s@.seller_index, seller@).contains(id@) {
        lemma_present_once(seller_ids(s@.seller_index, seller@), id@);
    }
    if s@.keys.contains(id@) {
        lemma_present_once(s@.keys, id@);
    }
    if s@.seller_index.contains((seller@, id@)) {
        lemma_present_once(s@.seller_index, (seller@, id@));
    }
}

/// Every state the operations reach satisfies `reachable`.
pub proof fn law_reachable(s: &MerchantPay)
    requires
        s.wf(),
    ensures
        reachable(s@),
{
}

/// A listing that is found sits under its own id and seller, has a positive rate, no
/// buyer while pending, a status that agrees with its quantity, and its id stands in
/// the global index and among its seller's ids.
pub proof fn law_found_listing(s: &MerchantPay, id: ListingId, seller: Account)
    requires
        s.wf(),
        current(s@, key_of(id, seller)).seller@ != zero_account(),
    ensures
        ({
            let l = current(s@, key_of(id, seller));
            &&& l.id@ == id@
            &&& l.seller@ == seller@
            &&& l.rate.value() > 0
            &&& l.status != Status::Cancelled
            &&& l.status == Status::Completed <==> l.quantity.value() == 0
            &&& l.status == Status::Pending ==> l.buyer@ == zero_account()
            &&& s@.keys.contains(id@)
            &&& s@.seller_index.contains((seller@, id@))
            &&& seller_ids(s@.seller_index, seller@).contains(id@)
        }),
{
    lemma_unset_listing();
    let k = key_of(id, seller);
    assert(s@.listings.contains_key(k));
    let j = choose|j: int| 0 <= j < s@.seller_index.len() && s@.seller_index[j] == (seller@, id@);
    assert(s@.keys.contains(s@.seller_index[j].1));
    lemma_seller_ids_contains(s@.seller_index, seller@, id@);
}

/// A listing that its seller never listed is not found: its seller field reads as zero,
/// whatever payments were made against it.
pub proof fn law_unlisted_not_found(s: &MerchantPay, id: ListingId, seller: Account)
    requires
        s.wf(),
        !s@.seller_index.contains((seller@, id@)),
    ensures
        current(s@, key_of(id, seller)).seller@ == zero_account(),
{
    lemma_unset_listing();
}

/// Over successive payments against one listing the remaining quantity falls by
/// exactly what each requested, and never rises.
pub proof fn law_payments_compose(
    l0: Listing,
    l1: Listing,
    l2: Listing,
    b1: Account,
    b2: Account,
    q1: nat,
    q2: nat,
)
    requires
        q1 <= l0.quantity.value(),
        q2 <= l1.quantity.value(),
        is_settlement(l0, l1, b1, q1),
        is_settlement(l1, l2, b2, q2),
    ensures
        l2.quantity.value() == l0.quantity.value() - (q1 + q2),
        l2.quantity.value() <= l1.quantity.value() <= l0.quantity.value(),
        l2.id@ == l0.id@ && l2.seller@ == l0.seller@ && l2.rate.value() == l0.rate.value(),
{
}

} // verus!
