use merchant_pay::amount::Amount;
use merchant_pay::ident::{Account, ListingId};
use merchant_pay::ledger::{append_new, found_listings, MerchantPay};
use merchant_pay::listing::{deduct_charge, Listing, MerchantPayError, Status};

fn id(b: u8) -> ListingId {
    ListingId { bytes: [b; 32] }
}

fn who(b: u8) -> Account {
    Account { bytes: [b; 20] }
}

fn amt(v: u64) -> Amount {
    Amount::from_u64(v)
}

fn limbs(a: &Amount) -> [u64; 4] {
    a.limbs
}

#[test]
fn listing_lifecycle_scenario() {
    let mut m = MerchantPay::new();
    let (s, b, l1) = (who(1), who(2), id(7));
    assert_eq!(m.add_listing(s, l1, amt(100), amt(10)), Ok(()));
    let l = m.get_listing(l1, s).unwrap();
    assert_eq!(limbs(&l.rate), [100, 0, 0, 0]);
    assert_eq!(limbs(&l.quantity), [10, 0, 0, 0]);
    assert_eq!(l.status, Status::Pending);
    assert_eq!(l.buyer.bytes, [0u8; 20]);

    let p = m.pay_for_listing(b, l1, s, amt(4), amt(400), true, true).unwrap();
    assert_eq!(limbs(&p.to_seller), [400, 0, 0, 0]);
    assert_eq!(limbs(&p.fee), [0, 0, 0, 0]);
    let l = m.get_listing(l1, s).unwrap();
    assert_eq!(limbs(&l.quantity), [6, 0, 0, 0]);
    assert_eq!(l.status, Status::Paid);
    assert_eq!(l.buyer.bytes, b.bytes);

    assert!(m.pay_for_listing(b, l1, s, amt(6), amt(600), true, true).is_ok());
    let l = m.get_listing(l1, s).unwrap();
    assert_eq!(limbs(&l.quantity), [0, 0, 0, 0]);
    assert_eq!(l.status, Status::Completed);

    assert_eq!(
        m.pay_for_listing(b, l1, s, amt(1), amt(100), true, true).unwrap_err(),
        MerchantPayError::InvalidListing
    );
}

#[test]
fn fee_is_a_thousandth_of_the_rate() {
    let mut m = MerchantPay::new();
    let (s, b, l1) = (who(1), who(2), id(3));
    m.add_listing(s, l1, amt(5000), amt(10)).unwrap();
    let p = m.pay_for_listing(b, l1, s, amt(2), amt(10000), true, true).unwrap();
    assert_eq!(limbs(&p.to_seller), [9995, 0, 0, 0]);
    assert_eq!(limbs(&p.fee), [5, 0, 0, 0]);
    let q = m.quote(l1, s, amt(1), amt(5000)).unwrap();
    assert_eq!(limbs(&q.fee), [5, 0, 0, 0]);
    assert_eq!(limbs(&q.to_seller), [4995, 0, 0, 0]);
}

#[test]
fn deduct_charge_rounds_down() {
    assert_eq!(limbs(&deduct_charge(&amt(999))), [0, 0, 0, 0]);
    assert_eq!(limbs(&deduct_charge(&amt(1999))), [1, 0, 0, 0]);
    let big = Amount { limbs: [0, 0, 0, 1000] };
    assert_eq!(limbs(&deduct_charge(&big)), [0, 0, 0, 1]);
}

#[test]
fn zero_rate_or_quantity_is_refused() {
    let mut m = MerchantPay::new();
    assert_eq!(m.add_listing(who(1), id(1), amt(0), amt(5)), Err(MerchantPayError::InvalidAmount));
    assert_eq!(m.add_listing(who(1), id(1), amt(5), amt(0)), Err(MerchantPayError::InvalidAmount));
    assert_eq!(m.get_listing(id(1), who(1)).unwrap_err(), MerchantPayError::ListingNotFound);
    assert_eq!(
        m.get_all_listings_for_address(who(1)).unwrap_err(),
        MerchantPayError::ListingNotFound
    );
}

#[test]
fn relisting_resets_and_is_indexed_once() {
    let mut m = MerchantPay::new();
    let (s, b) = (who(1), who(2));
    m.add_listing(s, id(1), amt(10), amt(5)).unwrap();
    m.pay_for_listing(b, id(1), s, amt(2), amt(20), true, true).unwrap();
    m.add_listing(s, id(2), amt(3), amt(3)).unwrap();
    m.add_listing(s, id(1), amt(11), amt(9)).unwrap();
    let all = m.get_all_listings_for_address(s).unwrap();
    assert_eq!(all.len(), 2);
    assert_eq!(all[0].id.bytes, [1u8; 32]);
    assert_eq!(limbs(&all[0].rate), [11, 0, 0, 0]);
    assert_eq!(limbs(&all[0].quantity), [9, 0, 0, 0]);
    assert_eq!(all[0].status, Status::Pending);
    assert_eq!(all[0].buyer.bytes, [0u8; 20]);
    assert_eq!(all[1].id.bytes, [2u8; 32]);
}

#[test]
fn sellers_hold_the_same_id_apart() {
    let mut m = MerchantPay::new();
    m.add_listing(who(1), id(9), amt(10), amt(5)).unwrap();
    m.add_listing(who(2), id(9), amt(20), amt(6)).unwrap();
    assert_eq!(limbs(&m.get_listing(id(9), who(1)).unwrap().rate), [10, 0, 0, 0]);
    assert_eq!(limbs(&m.get_listing(id(9), who(2)).unwrap().rate), [20, 0, 0, 0]);
    assert_eq!(m.get_all_listings_for_address(who(2)).unwrap().len(), 1);
}

#[test]
fn payment_errors_come_in_order() {
    let mut m = MerchantPay::new();
    let (s, b) = (who(1), who(2));
    m.add_listing(s, id(1), amt(100), amt(3)).unwrap();
    assert_eq!(
        m.pay_for_listing(b, id(1), s, amt(4), amt(1000), true, true).unwrap_err(),
        MerchantPayError::InvalidQuantity
    );
    assert_eq!(
        m.pay_for_listing(b, id(1), s, amt(2), amt(199), true, true).unwrap_err(),
        MerchantPayError::InvalidAmount
    );
    assert_eq!(
        m.pay_for_listing(b, id(1), s, amt(2), amt(200), true, false).unwrap_err(),
        MerchantPayError::TransferFailed
    );
    assert_eq!(
        m.pay_for_listing(b, id(1), s, amt(2), amt(200), false, true).unwrap_err(),
        MerchantPayError::TransferFailed
    );
    let l = m.get_listing(id(1), s).unwrap();
    assert_eq!(limbs(&l.quantity), [3, 0, 0, 0]);
    assert_eq!(l.status, Status::Pending);
    assert_eq!(l.buyer.bytes, [0u8; 20]);
}

#[test]
fn overpayment_is_accepted() {
    let mut m = MerchantPay::new();
    m.add_listing(who(1), id(1), amt(100), amt(3)).unwrap();
    let p = m.pay_for_listing(who(2), id(1), who(1), amt(1), amt(1000), true, true).unwrap();
    assert_eq!(limbs(&p.to_seller), [100, 0, 0, 0]);
}

#[test]
fn paying_nothing_for_an_unlisted_slot_stays_hidden() {
    let mut m = MerchantPay::new();
    assert_eq!(
        m.pay_for_listing(who(2), id(5), who(1), amt(1), amt(0), true, true).unwrap_err(),
        MerchantPayError::InvalidQuantity
    );
    assert!(m.pay_for_listing(who(2), id(5), who(1), amt(0), amt(0), true, true).is_ok());
    assert_eq!(m.get_listing(id(5), who(1)).unwrap_err(), MerchantPayError::ListingNotFound);
    assert_eq!(
        m.pay_for_listing(who(2), id(5), who(1), amt(0), amt(0), true, true).unwrap_err(),
        MerchantPayError::InvalidListing
    );
}

#[test]
fn a_price_beyond_256_bits_is_refused() {
    let mut m = MerchantPay::new();
    let rate = Amount { limbs: [0, 0, 0, 1u64 << 63] };
    m.add_listing(who(1), id(1), rate, amt(4)).unwrap();
    // Two units cost 2^256, which no amount covers.
    assert_eq!(m.quote(id(1), who(1), amt(2), amt(0)).unwrap_err(), MerchantPayError::InvalidAmount);
    let most = Amount { limbs: [u64::MAX; 4] };
    assert_eq!(
        m.pay_for_listing(who(2), id(1), who(1), amt(2), most, true, true).unwrap_err(),
        MerchantPayError::InvalidAmount
    );
    assert_eq!(limbs(&m.get_listing(id(1), who(1)).unwrap().quantity), [4, 0, 0, 0]);
    // One unit costs 2^255: one below that is refused, 2^255 itself is accepted.
    let short = Amount { limbs: [u64::MAX, u64::MAX, u64::MAX, (1u64 << 63) - 1] };
    assert_eq!(m.quote(id(1), who(1), amt(1), short).unwrap_err(), MerchantPayError::InvalidAmount);
    let p = m.quote(id(1), who(1), amt(1), rate).unwrap();
    let fee = deduct_charge(&rate);
    assert_eq!(limbs(&fee), [0x72b020c49ba5e353, 0xba5e353f7ced9168, 0xced916872b020c49, 0x20c49ba5e353f7]);
    assert_eq!(limbs(&p.fee), limbs(&fee));
    // 2^255 less the fee.
    assert_eq!(
        limbs(&p.to_seller),
        [0x8d4fdf3b645a1cad, 0x45a1cac083126e97, 0x3126e978d4fdf3b6, 0x7fdf3b645a1cac08]
    );
}

#[test]
fn the_fee_wraps_the_share_at_quantity_zero() {
    let mut m = MerchantPay::new();
    m.add_listing(who(1), id(1), amt(5000), amt(3)).unwrap();
    let p = m.quote(id(1), who(1), amt(0), amt(0)).unwrap();
    assert_eq!(limbs(&p.fee), [5, 0, 0, 0]);
    assert_eq!(limbs(&p.to_seller), [u64::MAX - 4, u64::MAX, u64::MAX, u64::MAX]);
}

#[test]
fn found_listings_keeps_order_and_drops_unset() {
    let a = Listing::create(id(1), who(1), amt(1), amt(1)).unwrap();
    let b = Listing::create(id(2), who(1), amt(2), amt(2)).unwrap();
    let all = found_listings(&vec![a, Listing::unset(), b]).unwrap();
    assert_eq!(all.len(), 2);
    assert_eq!(all[0].id.bytes, [1u8; 32]);
    assert_eq!(all[1].id.bytes, [2u8; 32]);
    assert_eq!(found_listings(&vec![Listing::unset()]).unwrap_err(), MerchantPayError::ListingNotFound);
    assert_eq!(found_listings(&vec![]).unwrap_err(), MerchantPayError::ListingNotFound);
}

#[test]
fn append_new_skips_present_ids() {
    let mut ids = vec![id(1), id(2)];
    assert!(!append_new(&mut ids, id(2)));
    assert_eq!(ids.len(), 2);
    assert!(append_new(&mut ids, id(3)));
    assert_eq!(ids.len(), 3);
    assert_eq!(ids[2].bytes, [3u8; 32]);
}

#[test]
fn quantity_comparison_spans_limbs() {
    let mut m = MerchantPay::new();
    let many = Amount { limbs: [0, 1, 0, 0] };
    m.add_listing(who(1), id(1), amt(1), many).unwrap();
    assert!(m.quote(id(1), who(1), amt(u64::MAX), amt(u64::MAX)).is_ok());
    let more = Amount { limbs: [1, 1, 0, 0] };
    assert_eq!(m.quote(id(1), who(1), more, many).unwrap_err(), MerchantPayError::InvalidQuantity);
    m.pay_for_listing(who(2), id(1), who(1), amt(u64::MAX), amt(u64::MAX), true, true).unwrap();
    let l = m.get_listing(id(1), who(1)).unwrap();
    assert_eq!(limbs(&l.quantity), [1, 0, 0, 0]);
    assert_eq!(l.status, Status::Paid);
    assert!(Amount::zero().is_zero());
    assert!(!Amount { limbs: [0, 0, 1, 0] }.is_zero());
}

#[test]
fn initialize_sets_the_asset() {
    let mut m = MerchantPay::new();
    assert!(m.asset().is_zero());
    m.initialize(who(4));
    m.initialize(who(5));
    assert_eq!(m.asset().bytes, [5u8; 20]);
}

#[test]
fn listing_create_and_settle() {
    let l = Listing::create(id(1), who(1), amt(10), amt(2)).unwrap();
    let l = l.settle(who(3), &amt(2));
    assert_eq!(l.status, Status::Completed);
    assert_eq!(l.buyer.bytes, [3u8; 20]);
    assert!(Listing::unset().seller.is_zero());
}
