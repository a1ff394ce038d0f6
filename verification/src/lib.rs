//! A verified digital-goods marketplace: publishers register and publish game
//! listings with a price, buyers place orders that escrow funds, and
//! publishers fulfill orders to transfer the funds and grant ownership.
//!
//! The heart of the library is the order/escrow lifecycle in [`games`]: the
//! invariants that bind the listing store, the two mirrored order indices and
//! the ownership index, and the currency-hold discipline that keeps funds from
//! being lost or double-spent across the place/fulfill transition.

pub mod games;
pub mod ledger;
pub mod publish;
pub mod store;
pub mod tags;
pub mod types;
