//! Core data types of the collectible registry.

use vstd::prelude::*;

verus! {

/// Account identifier, resolved by the host's authentication layer before
/// any operation runs.
pub type AccountId = u64;

/// Fungible amount, used for asking prices and for settlement.
pub type Balance = u64;

/// The most assets a single account may hold at once.
pub const MAX_OWNED: usize = 100;

/// A unique digital collectible.
///
/// `dna` is the 32-byte identifier of the asset and is globally unique
/// across all live assets; `owner` is the account currently holding it;
/// `price` is `Some` exactly while the owner has listed it for sale.
#[derive(Clone, Copy, Debug, PartialEq, Eq)]
pub struct Kitty {
    pub dna: [u8; 32],
    pub owner: AccountId,
    pub price: Option<Balance>,
}

/// One entry of the ownership index: the identifiers owned by `account`,
/// in order of acquisition, never more than [`MAX_OWNED`] of them.
#[derive(Clone, Debug, PartialEq, Eq)]
pub struct OwnedEntry {
    pub account: AccountId,
    pub ids: Vec<[u8; 32]>,
}

/// Notification returned by a successful operation, for the host to emit.
#[derive(Clone, Copy, Debug, PartialEq, Eq)]
pub enum Event {
    Created { owner: AccountId },
    Transferred { from: AccountId, to: AccountId, kitty_id: [u8; 32] },
    PriceSet { owner: AccountId, kitty_id: [u8; 32], price: Option<Balance> },
    Sold { buyer: AccountId, kitty_id: [u8; 32], price: Balance },
}

/// Reason an operation was rejected. A rejected operation has no effect.
#[derive(Clone, Copy, Debug, PartialEq, Eq)]
pub enum Error {
    /// There are too many kitties in the world.
    TooManyKitties,
    /// The kitty already exists.
    DuplicateKitty,
    /// The user has too many kitties.
    TooManyOwned,
    /// The kitty does not exist.
    NoKitty,
    /// Cannot transfer to self.
    TransferToSelf,
    /// The owner does not match.
    NotOwner,
    /// The kitty is not for sale.
    NotForSale,
    /// Max price is too low.
    MaxPriceTooLow,
}

} // verus!
