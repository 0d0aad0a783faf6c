//! Installation-time configuration and the monotonic partial update applied
//! at upgrade: fields left unspecified by an upgrade retain their prior value
//! and are never reset to a default.

use vstd::prelude::*;
use crate::mode::Mode;

verus! {

/// Confirmation depth required of a deposit when installation leaves it open.
pub const DEFAULT_MIN_CONFIRMATIONS: u32 = 6;

/// Screening fee assumed when installation leaves it open.
pub const DEFAULT_CHECK_FEE: u64 = 100;

/// The engine's configuration. Set at install; partially replaceable at
/// upgrade.
#[derive(Clone, Copy, PartialEq, Eq, Structural, Debug)]
pub struct Config {
    /// The process's own principal; a deposit target resolving to it is
    /// rejected unconditionally.
    pub custody_principal: u64,
    /// Identifier of the custody public key that roots address derivation.
    pub custody_key_id: u64,
    /// The fungible-ledger collaborator holding mint and burn authority.
    pub ledger_id: u64,
    /// Smallest amount a withdrawal may request.
    pub retrieve_min_amount: u64,
    /// Confirmation depth a deposit must reach before it is credited.
    pub min_confirmations: u32,
    /// Longest logical time a submitted withdrawal waits before it may be
    /// resubmitted with a bumped fee.
    pub max_time_in_queue: u64,
    /// Compliance-screening fee; a deposit worth no more than this is too
    /// small to credit.
    pub check_fee: u64,
    /// Whether deposits pass compliance screening before minting.
    pub screening_enabled: bool,
    /// Fee estimator: flat part of the transaction fee.
    pub fee_base: u64,
    /// Fee estimator: fee charged per transaction input.
    pub fee_per_input: u64,
}

/// Full configuration given at installation. Optional fields fall back to the
/// declared defaults.
pub struct InitArgs {
    pub custody_principal: u64,
    pub custody_key_id: u64,
    pub ledger_id: u64,
    pub retrieve_min_amount: u64,
    pub max_time_in_queue: u64,
    pub min_confirmations: Option<u32>,
    pub check_fee: Option<u64>,
    pub screening_enabled: bool,
    pub fee_base: u64,
    pub fee_per_input: u64,
    pub mode: Mode,
}

/// Partial configuration given at upgrade. A `None` field keeps its prior
/// value.
pub struct UpgradeArgs {
    pub retrieve_min_amount: Option<u64>,
    pub min_confirmations: Option<u32>,
    pub max_time_in_queue: Option<u64>,
    pub check_fee: Option<u64>,
    pub screening_enabled: Option<bool>,
    pub mode: Option<Mode>,
}

impl Config {
    /// Builds the installed configuration, applying defaults to the optional
    /// fields.
    pub fn from_init(args: &InitArgs) -> (r: Config)
        ensures
            r.custody_principal == args.custody_principal,
            r.custody_key_id == args.custody_key_id,
            r.ledger_id == args.ledger_id,
            r.retrieve_min_amount == args.retrieve_min_amount,
            r.max_time_in_queue == args.max_time_in_queue,
            r.min_confirmations == match args.min_confirmations {
                Some(c) => c,
                None => DEFAULT_MIN_CONFIRMATIONS,
            },
            r.check_fee == match args.check_fee {
                Some(f) => f,
                None => DEFAULT_CHECK_FEE,
            },
            r.screening_enabled == args.screening_enabled,
            r.fee_base == args.fee_base,
            r.fee_per_input == args.fee_per_input,
    {
        Config {
            custody_principal: args.custody_principal,
            custody_key_id: args.custody_key_id,
            ledger_id: args.ledger_id,
            retrieve_min_amount: args.retrieve_min_amount,
            max_time_in_queue: args.max_time_in_queue,
            min_confirmations: match args.min_confirmations {
                Some(c) => c,
                None => DEFAULT_MIN_CONFIRMATIONS,
            },
            check_fee: match args.check_fee {
                Some(f) => f,
                None => DEFAULT_CHECK_FEE,
            },
            screening_enabled: args.screening_enabled,
            fee_base: args.fee_base,
            fee_per_input: args.fee_per_input,
        }
    }

    /// Applies a monotonic partial update: every given field replaces the old
    /// value, every missing field keeps it. The identity of the process, its
    /// custody key, its ledger and its fee policy are fixed for life.
    pub fn apply_upgrade(&mut self, args: &UpgradeArgs)
        ensures
            final(self).custody_principal == old(self).custody_principal,
            final(self).custody_key_id == old(self).custody_key_id,
            final(self).ledger_id == old(self).ledger_id,
            final(self).fee_base == old(self).fee_base,
            final(self).fee_per_input == old(self).fee_per_input,
            final(self).retrieve_min_amount == match args.retrieve_min_amount {
                Some(v) => v,
                None => old(self).retrieve_min_amount,
            },
            final(self).min_confirmations == match args.min_confirmations {
                Some(v) => v,
                None => old(self).min_confirmations,
            },
            final(self).max_time_in_queue == match args.max_time_in_queue {
                Some(v) => v,
                None => old(self).max_time_in_queue,
            },
            final(self).check_fee == match args.check_fee {
                Some(v) => v,
                None => old(self).check_fee,
            },
            final(self).screening_enabled == match args.screening_enabled {
                Some(v) => v,
                None => old(self).screening_enabled,
            },
    {
        if let Some(v) = args.retrieve_min_amount {
            self.retrieve_min_amount = v;
        }
        if let Some(v) = args.min_confirmations {
            self.min_confirmations = v;
        }
        if let Some(v) = args.max_time_in_queue {
            self.max_time_in_queue = v;
        }
        if let Some(v) = args.check_fee {
            self.check_fee = v;
        }
        if let Some(v) = args.screening_enabled {
            self.screening_enabled = v;
        }
    }
}

} // verus!
