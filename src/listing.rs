use crate::amount::{modulus, Amount};
use crate::ident::{zero_account, Account, ListingId};
use vstd::arithmetic::div_mod::lemma_small_mod;
use vstd::array::spec_array_fill_for_copy_type;
use vstd::prelude::*;

verus! {

/// Where a listing stands in its lifecycle.
#[derive(Clone, Copy, Debug, PartialEq, Eq, Structural)]
pub enum Status {
    /// Created and never paid.
    Pending,
    /// Paid at least once, with quantity left.
    Paid,
    /// Its whole quantity has been paid for.
    Completed,
    /// Reserved: no operation leads here.
    Cancelled,
}

/// A seller's offer of `quantity` units at `rate` each.
#[derive(Clone, Copy, Debug)]
pub struct Listing {
    pub id: ListingId,
    pub seller: Account,
    pub buyer: Account,
    pub rate: Amount,
    pub quantity: Amount,
    pub status: Status,
}

/// The failures that an operation reports to its caller.
#[derive(Clone, Copy, Debug, PartialEq, Eq, Structural)]
pub enum MerchantPayError {
    InvalidListing,
    InvalidQuantity,
    InvalidAmount,
    /// Reserved: no operation reports it.
    InvalidSeller,
    TransferFailed,
    ListingNotFound,
    /// Reserved: no operation reports it.
    Unauthorized,
}

/// The two transfers that settle a payment, both drawn from the buyer.
#[derive(Clone, Copy, Debug)]
pub struct Payment {
    /// What the seller receives: the price less the platform's fee.
    pub to_seller: Amount,
    /// What the platform keeps.
    pub fee: Amount,
}

/// The platform fee: a thousandth of the unit rate, rounded down.
pub open spec fn fee_of(rate: nat) -> nat {
    rate / 1000
}

/// The price of `quantity` units.
pub open spec fn price_of(rate: nat, quantity: nat) -> nat {
    rate * quantity
}

/// The seller's part of a payment: the price less the fee, in 256-bit arithmetic
/// (it wraps only where the fee exceeds the price, at quantity zero).
pub open spec fn seller_share(rate: nat, quantity: nat) -> nat {
    ((price_of(rate, quantity) - fee_of(rate)) % (modulus() as int)) as nat
}

/// The reason a payment of `amount` for `quantity` units of `l` is refused, if any.
pub open spec fn payment_error(l: Listing, quantity: nat, amount: nat) -> Option<MerchantPayError> {
    if !(l.status == Status::Pending || l.status == Status::Paid) {
        Some(MerchantPayError::InvalidListing)
    } else if quantity > l.quantity.value() {
        Some(MerchantPayError::InvalidQuantity)
    } else if price_of(l.rate.value(), quantity) >= modulus() || amount < price_of(l.rate.value(), quantity) {
        Some(MerchantPayError::InvalidAmount)
    } else {
        None
    }
}

/// The status that goes with a remaining quantity once a listing has been paid.
pub open spec fn status_after_payment(remaining: nat) -> Status {
    if remaining == 0 {
        Status::Completed
    } else {
        Status::Paid
    }
}

/// `new` is `old` after `buyer` paid for `quantity` units of it.
pub open spec fn is_settlement(old: Listing, new: Listing, buyer: Account, quantity: nat) -> bool {
    &&& new.id@ == old.id@
    &&& new.seller@ == old.seller@
    &&& new.rate.value() == old.rate.value()
    &&& new.buyer == buyer
    &&& new.quantity.value() == old.quantity.value() - quantity
    &&& new.status == status_after_payment(new.quantity.value())
}

/// A fresh listing as `add_listing` stores it.
pub open spec fn is_fresh_listing(l: Listing, id: ListingId, seller: Account, rate: Amount, quantity: Amount) -> bool {
    &&& l.id == id
    &&& l.seller == seller
    &&& l.buyer@ == zero_account()
    &&& l.rate == rate
    &&& l.quantity == quantity
    &&& l.status == Status::Pending
}

/// `l` is what a never-written listing slot reads as: every field zero, status pending.
pub open spec fn is_unset(l: Listing) -> bool {
    &&& l.id@ == Seq::new(32, |i: int| 0u8)
    &&& l.seller@ == zero_account()
    &&& l.buyer@ == zero_account()
    &&& l.rate.value() == 0
    &&& l.quantity.value() == 0
    &&& l.status == Status::Pending
}

/// A listing that reads as never written.
pub open spec fn unset_listing() -> Listing {
    Listing {
        id: ListingId { bytes: spec_array_fill_for_copy_type::<u8, 32>(0u8) },
        seller: Account { bytes: spec_array_fill_for_copy_type::<u8, 20>(0u8) },
        buyer: Account { bytes: spec_array_fill_for_copy_type::<u8, 20>(0u8) },
        rate: Amount { limbs: spec_array_fill_for_copy_type::<u64, 4>(0u64) },
        quantity: Amount { limbs: spec_array_fill_for_copy_type::<u64, 4>(0u64) },
        status: Status::Pending,
    }
}

pub proof fn lemma_unset_listing()
    ensures
        is_unset(unset_listing()),
{
    broadcast use vstd::array::group_array_axioms;

    let l = unset_listing();
    assert(l.id@ =~= Seq::new(32, |i: int| 0u8));
    assert(l.seller@ =~= zero_account());
    assert(l.buyer@ =~= zero_account());
    assert(l.rate.limbs[0] == 0 && l.rate.limbs[1] == 0 && l.rate.limbs[2] == 0 && l.rate.limbs[3] == 0);
    assert(l.quantity.limbs[0] == 0 && l.quantity.limbs[1] == 0 && l.quantity.limbs[2] == 0
        && l.quantity.limbs[3] == 0);
}

/// Whether a listing's status agrees with its remaining quantity.
pub open spec fn status_consistent(l: Listing) -> bool {
    &&& l.status != Status::Cancelled
    &&& (l.status == Status::Completed <==> l.quantity.value() == 0)
}

impl Listing {
    pub fn unset() -> (r: Listing)
        ensures
            is_unset(r),
            is_unset(unset_listing()),
    {
        let r = Listing {
            id: ListingId::zero(),
            seller: Account::zero(),
            buyer: Account::zero(),
            rate: Amount::zero(),
            quantity: Amount::zero(),
            status: Status::Pending,
        };
        assert(is_unset(r));
        proof {
            lemma_unset_listing();
        }
        r
    }

    /// A new pending listing of `quantity` units at `rate`, offered by `seller`;
    /// refused with `InvalidAmount` when the rate or the quantity is zero.
    pub fn create(id: ListingId, seller: Account, rate: Amount, quantity: Amount) -> (r: Result<
        Listing,
        MerchantPayError,
    >)
        ensures
            r is Err <==> (rate.value() == 0 || quantity.value() == 0),
            r is Err ==> r == Err::<Listing, MerchantPayError>(MerchantPayError::InvalidAmount),
            r is Ok ==> is_fresh_listing(r->Ok_0, id, seller, rate, quantity),
    {
        if rate.is_zero() || quantity.is_zero() {
            return Err(MerchantPayError::InvalidAmount);
        }
        Ok(Listing {
            id,
            seller,
            buyer: Account::zero(),
            rate,
            quantity,
            status: Status::Pending,
        })
    }

    /// Checks a payment of `amount` for `quantity` units against this listing and
    /// works out how it is split between seller and platform.
    pub fn quote_payment(&self, quantity: &Amount, amount: &Amount) -> (r: Result<
        Payment,
        MerchantPayError,
    >)
        ensures
            match payment_error(*self, quantity.value(), amount.value()) {
                Some(e) => r == Err::<Payment, MerchantPayError>(e),
                None => r is Ok && r->Ok_0.fee.value() == fee_of(self.rate.value())
                    && r->Ok_0.to_seller.value() == seller_share(
                    self.rate.value(),
                    quantity.value(),
                ),
            },
    {
        match self.status {
            Status::Pending | Status::Paid => {},
            _ => {
                return Err(MerchantPayError::InvalidListing);
            },
        }
        if self.quantity.lt(quantity) {
            return Err(MerchantPayError::InvalidQuantity);
        }
        let (price, overflow) = self.rate.overflowing_mul(quantity);
        if overflow {
            return Err(MerchantPayError::InvalidAmount);
        }
        proof {
            lemma_small_mod(self.rate.value() * quantity.value(), modulus());
        }
        if amount.lt(&price) {
            return Err(MerchantPayError::InvalidAmount);
        }
        let fee = deduct_charge(&self.rate);
        let to_seller = price.wrapping_sub(&fee);
        Ok(Payment { to_seller, fee })
    }

    /// This listing, unless its seller is the zero identity, which marks a slot never written.
    pub fn check_found(&self) -> (r: Result<Listing, MerchantPayError>)
        ensures
            r is Err <==> self.seller@ == zero_account(),
            r is Err ==> r == Err::<Listing, MerchantPayError>(MerchantPayError::ListingNotFound),
            r is Ok ==> r->Ok_0 == *self,
    {
        if self.seller.is_zero() {
            return Err(MerchantPayError::ListingNotFound);
        }
        Ok(*self)
    }

    /// This listing after `buyer` paid for `quantity` of its units.
    pub fn settle(&self, buyer: Account, quantity: &Amount) -> (r: Listing)
        requires
            quantity.value() <= self.quantity.value(),
        ensures
            is_settlement(*self, r, buyer, quantity.value()),
    {
        let remaining = self.quantity.wrapping_sub(quantity);
        proof {
            self.quantity.lemma_value_bounded();
            lemma_small_mod((self.quantity.value() - quantity.value()) as nat, modulus());
        }
        let status = if remaining.is_zero() {
            Status::Completed
        } else {
            Status::Paid
        };
        Listing {
            id: self.id,
            seller: self.seller,
            buyer,
            rate: self.rate,
            quantity: remaining,
            status,
        }
    }
}

/// The platform's charge on a payment at unit rate `amount`: a thousandth of it.
pub fn deduct_charge(amount: &Amount) -> (r: Amount)
    ensures
        r.value() == fee_of(amount.value()),
{
    let thousand = Amount::from_u64(1000);
    amount.div(&thousand)
}

/// For a price that fits in 256 bits and at least one unit, the seller's share and the
/// fee add up to the price; they then add up to the amount paid exactly when nothing
/// was overpaid.
pub proof fn law_fee_split(rate: nat, quantity: nat, amount: nat)
    requires
        quantity >= 1,
        price_of(rate, quantity) < modulus(),
    ensures
        seller_share(rate, quantity) + fee_of(rate) == price_of(rate, quantity),
        (seller_share(rate, quantity) + fee_of(rate) == amount) <==> amount == price_of(rate, quantity),
{
    assert(rate * quantity >= rate) by (nonlinear_arith)
        requires
            quantity >= 1,
    ;
    let d = price_of(rate, quantity) - fee_of(rate);
    lemma_small_mod(d as nat, modulus());
}

} // verus!
