//! Roles, stages, error codes and the persisted records of the protocol.
use vstd::prelude::*;

use crate::address::Address;

verus! {

/// A participant's role in the swap it is engaged in.
#[derive(Clone, Copy, PartialEq, Eq, Structural, Debug)]
pub enum UserEnum {
    /// The participant who makes the offer and escrows assets.
    Offeror,
    /// The participant to whom the offer is made.
    Offeree,
    /// Not engaged in any swap.
    NoRole,
}

impl UserEnum {
    pub open spec fn code_of(self) -> u8 {
        match self {
            UserEnum::Offeror => 1,
            UserEnum::Offeree => 2,
            UserEnum::NoRole => 3,
        }
    }

    /// The one-byte persisted encoding of the role.
    pub fn to_code(&self) -> (r: u8)
        ensures
            r == self.code_of(),
    {
        match self {
            UserEnum::Offeror => 1,
            UserEnum::Offeree => 2,
            UserEnum::NoRole => 3,
        }
    }

    /// Decodes a persisted role byte; codes outside the enum are rejected.
    pub fn from(val: u8) -> (r: Result<UserEnum, ErrorCode>)
        ensures
            (1 <= val <= 3) <==> r is Ok,
            r is Ok ==> r->Ok_0.code_of() == val,
            r is Err ==> r->Err_0 == ErrorCode::InvalidRole,
    {
        match val {
            1 => Ok(UserEnum::Offeror),
            2 => Ok(UserEnum::Offeree),
            3 => Ok(UserEnum::NoRole),
            _ => Err(ErrorCode::InvalidRole),
        }
    }
}

/// Where a vault's escrow goes when it is released.
#[derive(Clone, Copy, PartialEq, Eq, Structural, Debug)]
pub enum CloseEscrowEnum {
    /// Back to the offeror.
    Cancel,
    /// On to the offeree.
    Accept,
}

impl CloseEscrowEnum {
    pub open spec fn code_of(self) -> u8 {
        match self {
            CloseEscrowEnum::Cancel => 1,
            CloseEscrowEnum::Accept => 2,
        }
    }

    pub fn to_code(&self) -> (r: u8)
        ensures
            r == self.code_of(),
    {
        match self {
            CloseEscrowEnum::Cancel => 1,
            CloseEscrowEnum::Accept => 2,
        }
    }

    pub fn from(val: u8) -> (r: Result<CloseEscrowEnum, ErrorCode>)
        ensures
            (1 <= val <= 2) <==> r is Ok,
            r is Ok ==> r->Ok_0.code_of() == val,
            r is Err ==> r->Err_0 == ErrorCode::InvalidCloseKind,
    {
        match val {
            1 => Ok(CloseEscrowEnum::Cancel),
            2 => Ok(CloseEscrowEnum::Accept),
            _ => Err(ErrorCode::InvalidCloseKind),
        }
    }
}

/// Stages of a swap record. `Cancelled` and `Accepted` are terminal.
#[derive(Clone, Copy, PartialEq, Eq, Structural, Debug)]
pub enum SwapStage {
    /// Created; the offeror escrows assets and lists the offeree's.
    Funding,
    /// Terms frozen; waiting for cancellation or acceptance.
    Proposed,
    /// The escrow went to the offeree; the offeree's payment is pending.
    EscrowReleased,
    Cancelled,
    Accepted,
}

impl SwapStage {
    pub open spec fn is_live(self) -> bool {
        !(self is Cancelled || self is Accepted)
    }

    pub fn live(&self) -> (r: bool)
        ensures
            r == self.is_live(),
    {
        match self {
            SwapStage::Cancelled => false,
            SwapStage::Accepted => false,
            _ => true,
        }
    }
}

/// A participant's identity entry: its role and counterparty in the swap it
/// is engaged in.
#[derive(Clone, Copy, Debug)]
pub struct UserState {
    pub user: Address,
    pub user_enum: UserEnum,
    /// Meaningful only while `user_enum` is not `NoRole`.
    pub counter_party: Address,
    pub bump: u8,
}

/// A vault: the escrow of one asset type of a swap, held under the swap
/// record's derived authority.
#[derive(Clone, Copy, Debug)]
pub struct EscrowState {
    /// The vault's derived address.
    pub escrow: Address,
    pub mint: Address,
    /// What the vault holds.
    pub amount: u64,
    pub ata_bump: u8,
    /// Set once the vault was emptied and its storage reclaimed.
    pub closed: bool,
}

/// A swap record: the two participants, what each commits, and the vaults.
#[derive(Debug)]
pub struct SwapState {
    /// The record's derived address, which is also the vaults' authority.
    pub address: Address,
    pub offeror: Address,
    pub offeree: Address,
    pub swap_state_bump: u8,
    /// The asset types expected from the offeree, one unit each.
    pub mints_offeree: Vec<Address>,
    /// One vault per asset type escrowed by the offeror.
    pub escrows: Vec<EscrowState>,
    pub stage: SwapStage,
}

/// Every way an operation of the protocol can fail.
#[derive(Clone, Copy, PartialEq, Eq, Structural, Debug)]
pub enum ErrorCode {
    /// A duplicate registration, swap record or asset entry.
    AlreadyExists,
    /// The signer is not the participant the operation needs.
    Unauthorized,
    /// The record's participants differ from the accounts supplied.
    WrongCounterparty,
    /// Re-deriving an authority did not give the recorded address.
    AuthorityMismatch,
    /// An account holds less than the amount to move.
    InsufficientBalance,
    /// A role code outside the defined roles.
    InvalidRole,
    /// A close code outside the defined kinds.
    InvalidCloseKind,
    /// A participant is already engaged in another swap.
    ParticipantBusy,
    /// The escrow leg of an acceptance ran without the payment leg.
    PartialExecutionInconsistency,
    /// A participant has no identity entry.
    NotRegistered,
    /// No open swap record matches.
    SwapNotFound,
    /// The swap record is not in a stage that allows the operation.
    InvalidStage,
    /// A balance would exceed the largest representable amount.
    Overflow,
    /// No bump gives an off-curve address for the seeds.
    DerivationFailed,
}

} // verus!
