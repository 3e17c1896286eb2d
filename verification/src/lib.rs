//! A verified registry of unique digital collectibles ("kitties") with an
//! optional peer-to-peer marketplace.
//!
//! The crate models the persistent state of the registry — the asset store,
//! the per-account ownership index, and the asset counter — as one explicit
//! struct, [`registry::Pallet`], and gives each of the four operations
//! (mint, transfer, set price, buy) a contract that pins down exactly which
//! inputs succeed, which error each rejected input produces, and how the
//! state changes. A rejected operation provably leaves the state untouched,
//! and every reachable state satisfies the registry invariants: the counter
//! equals the number of live assets, every asset is indexed under exactly
//! its owner, and no account holds more than its capacity.
//!
//! Fund settlement is performed by the host's balance ledger: the buy
//! protocol is split into a read-only validation step that authorizes the
//! purchase and returns the exact amount to move, and a commit step that
//! performs the ownership change once the host has moved the funds.

pub mod dna;
pub mod laws;
pub mod registry;
pub mod types;
