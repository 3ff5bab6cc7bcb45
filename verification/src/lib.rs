//! Owner-scoped record engines for a replicated ledger: an agent registry
//! (named records with an activate/deactivate lifecycle and a per-owner
//! index) and an agent marketplace (listings sold with an atomic fee-split
//! settlement). Both share a keyed record store with monotonic identifier
//! assignment and cursor-based pagination; every operation is a
//! deterministic state transition with a proved contract.

pub mod decimal;
pub mod pagination;
pub mod response;
pub mod registry;
pub mod marketplace;
