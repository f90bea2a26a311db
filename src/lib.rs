//! A two-party, multi-asset swap protocol with keyless escrow vaults.
//!
//! Participants register an identity entry, an offeror opens a swap record
//! with an offeree, escrows assets into vaults whose only authority is the
//! swap record's derived address, and the swap is then either cancelled
//! (escrow returns to the offeror) or accepted (escrow goes to the offeree and
//! the offeree's committed assets go to the offeror).
pub mod address;
pub mod derive;
pub mod identity;
pub mod laws;
pub mod ledger;
pub mod program;
pub mod search;
pub mod state;
pub mod vault;
