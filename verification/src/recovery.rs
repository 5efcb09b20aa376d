//! Bringing the network state of a node into place: what is to be done, and
//! whether it worked.

use vstd::prelude::*;

verus! {

/// An amount in the smallest unit.
pub type Dusk = u64;

/// The smallest units in one coin.
pub const LUX_PER_DUSK: u64 = 1_000_000_000;

/// The value of the note that the genesis state starts with.
pub const GENESIS_DUSK: Dusk = 1_000_000_000_000;

/// The value of the faucet's note on a test network.
pub const FAUCET_DUSK: Dusk = 1_000_000_000_000_000_000;

/// The least that a validator may stake.
pub const MINIMUM_STAKE: Dusk = 1_000_000_000_000;

/// What each validator of a test network stakes at genesis.
pub const TESTNET_STAKE: Dusk = 2_000_000_000_000_000;

/// What the caller asks for.
#[derive(Clone, Copy, Debug, PartialEq, Eq, Structural)]
pub struct ExecConfig {
    /// Build the state anew instead of downloading it.
    pub build: bool,
    /// Do so even if a state is in place.
    pub force: bool,
    /// Make the state of a test network.
    pub testnet: bool,
    /// Take the contracts as they were built before, not as they come with
    /// the program.
    pub use_prebuilt_contracts: bool,
}

/// What is to be done to have the state in place.
#[derive(Clone, Copy, Debug, PartialEq, Eq, Structural)]
pub enum ExecPlan {
    /// The state that is there is checked and kept.
    UseExisting,
    /// A new state is built, with or without contracts built before.
    Build { use_prebuilt_contracts: bool },
    /// The state is downloaded.
    Download,
}

/// Why the state is not in place after all.
#[derive(Clone, Copy, Debug, PartialEq, Eq, Structural)]
pub enum StateError {
    MissingState,
    MissingId,
}

/// The stake of each validator at genesis.
pub fn stake_amount(testnet: bool) -> (amount: Dusk)
    ensures
        amount == (if testnet {
            TESTNET_STAKE
        } else {
            MINIMUM_STAKE
        }),
{
    if testnet {
        TESTNET_STAKE
    } else {
        MINIMUM_STAKE
    }
}

/// The balance of the stake contract at genesis: the stake of each of the
/// `provisioners` validators. None if it does not fit in 64 bits.
pub fn genesis_stake_balance(testnet: bool, provisioners: usize) -> (balance: Option<Dusk>)
    ensures
        match balance {
            Some(b) => b == (if testnet {
                TESTNET_STAKE
            } else {
                MINIMUM_STAKE
            }) * provisioners,
            None => (if testnet {
                TESTNET_STAKE
            } else {
                MINIMUM_STAKE
            }) * provisioners > u64::MAX,
        },
{
    stake_amount(testnet).checked_mul(provisioners as u64)
}

/// A state that is there is kept unless the caller forces a new one. Else
/// the state is built if the caller asks for that, and downloaded if not.
pub open spec fn spec_plan(config: ExecConfig, state_exists: bool, id_exists: bool) -> ExecPlan {
    if !config.force && state_exists && id_exists {
        ExecPlan::UseExisting
    } else if config.build {
        ExecPlan::Build { use_prebuilt_contracts: config.use_prebuilt_contracts }
    } else {
        ExecPlan::Download
    }
}

/// Decides what is to be done, given whether the state and its identifier
/// are on disk.
pub fn plan(config: &ExecConfig, state_exists: bool, id_exists: bool) -> (p: ExecPlan)
    ensures
        p == spec_plan(*config, state_exists, id_exists),
{
    if !config.force && state_exists && id_exists {
        ExecPlan::UseExisting
    } else if config.build {
        ExecPlan::Build { use_prebuilt_contracts: config.use_prebuilt_contracts }
    } else {
        ExecPlan::Download
    }
}

/// Whether the contracts have to be downloaded: one of the two is not there.
pub fn contracts_missing(transfer_present: bool, stake_present: bool) -> (missing: bool)
    ensures
        missing == (!transfer_present || !stake_present),
{
    !transfer_present || !stake_present
}

/// Checks that the state and its identifier are on disk after the plan was
/// carried out. The state is looked for first.
pub fn check_in_place(state_exists: bool, id_exists: bool) -> (res: Result<(), StateError>)
    ensures
        res == (if !state_exists {
            Err::<(), StateError>(StateError::MissingState)
        } else if !id_exists {
            Err::<(), StateError>(StateError::MissingId)
        } else {
            Ok::<(), StateError>(())
        }),
{
    if !state_exists {
        Err(StateError::MissingState)
    } else if !id_exists {
        Err(StateError::MissingId)
    } else {
        Ok(())
    }
}

} // verus!
