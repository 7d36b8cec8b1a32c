//! A small asset ledger: fungible assets shared among many holders and
//! supply-tracked unique assets, with saturating balance arithmetic and a
//! proved supply-conservation invariant.

pub mod balances;
pub mod ids;
pub mod assets;
pub mod nft;
