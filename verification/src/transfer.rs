//! The arguments and events of the transfer contract.

use vstd::prelude::*;

verus! {

/// The identifier of a contract.
pub type ModuleId = [u8; 32];

/// The depth of the tree of notes.
pub const TRANSFER_TREE_DEPTH: usize = 17;

/// The note of `phoenix_core`. It is carried, never looked into.
#[verifier::external_type_specification]
#[verifier::external_body]
pub struct ExNote(phoenix_core::Note);

/// The stealth address of `phoenix_core`. It is carried, never looked into.
#[verifier::external_type_specification]
#[verifier::external_body]
pub struct ExStealthAddress(phoenix_core::StealthAddress);

/// The scalar of `dusk_bls12_381`. It is carried, never looked into.
#[verifier::external_type_specification]
#[verifier::external_body]
pub struct ExBlsScalar(dusk_bls12_381::BlsScalar);

/// Copying a note. Nothing is claimed of the copy.
pub assume_specification[ <phoenix_core::Note as Clone>::clone ](
    note: &phoenix_core::Note,
) -> phoenix_core::Note
;

/// Copying a stealth address. Nothing is claimed of the copy.
pub assume_specification[ <phoenix_core::StealthAddress as Clone>::clone ](
    address: &phoenix_core::StealthAddress,
) -> phoenix_core::StealthAddress
;

/// Copying a scalar. Nothing is claimed of the copy.
pub assume_specification[ <dusk_bls12_381::BlsScalar as Clone>::clone ](
    scalar: &dusk_bls12_381::BlsScalar,
) -> dusk_bls12_381::BlsScalar
;

/// A leaf of the tree of notes.
#[derive(Debug, Clone, PartialEq, Eq)]
pub struct TreeLeaf {
    /// The height of the block in which the note entered the tree.
    pub block_height: u64,
    /// The note.
    pub note: phoenix_core::Note,
}

/// Withdraws value from a contract transparently.
#[derive(Debug, Clone, PartialEq, Eq)]
pub struct Wfct {
    /// The value withdrawn.
    pub value: u64,
    /// The note that receives the value.
    pub note: phoenix_core::Note,
    /// The proof of the circuit that allows the withdrawal.
    pub proof: Vec<u8>,
}

/// Mints value to a stealth address.
#[derive(Debug, Clone)]
pub struct Mint {
    /// The address that receives the value.
    pub address: phoenix_core::StealthAddress,
    /// The value minted.
    pub value: u64,
    /// A number used once, against replay.
    pub nonce: dusk_bls12_381::BlsScalar,
}

/// Sends value to a contract transparently.
#[derive(Debug, Clone, PartialEq, Eq)]
pub struct Stct {
    /// The contract that receives the value.
    pub module: ModuleId,
    /// The value sent.
    pub value: u64,
    /// The proof of the circuit that allows the transfer.
    pub proof: Vec<u8>,
}

/// Withdraws value from a contract transparently. The note that receives
/// the value is given in its encoded form.
#[derive(Debug, Clone, PartialEq, Eq)]
pub struct WfctRaw {
    /// The value withdrawn.
    pub value: u64,
    /// The note that receives the value.
    pub note: Vec<u8>,
    /// The proof of the circuit that allows the withdrawal.
    pub proof: Vec<u8>,
}

/// Withdraws value from the calling contract to another contract.
#[derive(Debug, Clone, Copy, PartialEq, Eq)]
pub struct Wfctc {
    /// The contract that receives the value.
    pub module: ModuleId,
    /// The value moved.
    pub value: u64,
}

/// How the economic part of a call ended.
#[derive(Debug, Clone, Copy, PartialEq, Eq, Structural)]
pub enum EconomicResult {
    /// The contract's charge was applied: the contract earns a fee.
    ChargeApplied,
    /// The contract's allowance was applied: the contract pays for the gas.
    AllowanceApplied,
    /// The charge was smaller than what the call cost.
    ChargeNotSufficient,
    /// The allowance did not cover what the call cost.
    AllowanceNotSufficient,
    /// The contract's balance did not cover what the call cost.
    BalanceNotSufficient,
}

impl EconomicResult {
    /// Whether the contract's terms were applied.
    pub fn is_applied(&self) -> (applied: bool)
        ensures
            applied == (*self == EconomicResult::ChargeApplied || *self
                == EconomicResult::AllowanceApplied),
    {
        match self {
            EconomicResult::ChargeApplied => true,
            EconomicResult::AllowanceApplied => true,
            _ => false,
        }
    }
}

/// What is emitted after the economic part of a call.
#[derive(Debug, Clone, Copy, PartialEq, Eq)]
pub struct EconomicEvent {
    /// The contract that the event is about.
    pub module: ModuleId,
    /// The value of the operation.
    pub value: u64,
    /// How the operation ended.
    pub result: EconomicResult,
}

} // verus!
