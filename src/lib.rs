//! A listing-and-escrow ledger. Sellers list a quantity at a fixed unit rate; buyers
//! pay for part or all of it, and each payment is split between the seller and a
//! platform fee of a thousandth of the rate.
//!
//! - `amount`: unsigned 256-bit amounts and their arithmetic.
//! - `ident`: listing ids and account identities.
//! - `listing`: one listing's lifecycle and the settlement of a payment against it.
//! - `ledger`: the registry of listings with its indexes, and the queries over them.

pub mod amount;
pub mod ident;
pub mod listing;
pub mod ledger;
