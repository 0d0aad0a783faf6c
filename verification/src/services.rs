//! Handles of the deployed collaborator services that surround the engine: a
//! validated registry of their process ids, the request laid out when the
//! host asks the registry's upstream for the remaining upgrade steps, and the
//! decision rule of the host's post-upgrade polling loop.

use vstd::prelude::*;

verus! {

/// The service ids a deployment hands back, each possibly missing when the
/// deployment record is incomplete.
pub struct DeployedServices {
    pub ledger_canister_id: Option<u64>,
    pub governance_canister_id: Option<u64>,
    pub index_canister_id: Option<u64>,
    pub swap_canister_id: Option<u64>,
    pub root_canister_id: Option<u64>,
}

/// The validated registry of collaborator services.
#[derive(Clone, Copy, PartialEq, Eq, Structural, Debug)]
pub struct Sns {
    pub ledger: u64,
    pub governance: u64,
    pub index: u64,
    pub swap: u64,
    pub root: u64,
}

/// The request the host sends to list the upgrade steps that remain from a
/// deployed version.
#[derive(Clone, Copy, PartialEq, Eq, Structural, Debug)]
pub struct UpgradeStepsRequest {
    pub limit: u32,
    pub governance_canister_id: Option<u64>,
    pub starting_at: Option<u64>,
}

impl Sns {
    /// Validates a deployment record: every service id must be present. A
    /// missing id is reported with one fixed message — the ledger's — for
    /// every field.
    pub fn from_deployed(d: &DeployedServices) -> (r: Result<Sns, &'static str>)
        ensures
            match r {
                Ok(s) => {
                    &&& d.ledger_canister_id == Some(s.ledger)
                    &&& d.governance_canister_id == Some(s.governance)
                    &&& d.index_canister_id == Some(s.index)
                    &&& d.swap_canister_id == Some(s.swap)
                    &&& d.root_canister_id == Some(s.root)
                },
                Err(m) => {
                    &&& m@ == "ledger_canister_id not found"@
                    &&& {
                        ||| d.ledger_canister_id is None
                        ||| d.governance_canister_id is None
                        ||| d.index_canister_id is None
                        ||| d.swap_canister_id is None
                        ||| d.root_canister_id is None
                    }
                },
            },
            r is Ok <==> (d.ledger_canister_id is Some && d.governance_canister_id is Some
                && d.index_canister_id is Some && d.swap_canister_id is Some
                && d.root_canister_id is Some),
    {
        let ledger = match d.ledger_canister_id {
            Some(id) => id,
            None => {
                return Err("ledger_canister_id not found");
            }
        };
        let governance = match d.governance_canister_id {
            Some(id) => id,
            None => {
                return Err("ledger_canister_id not found");
            }
        };
        let index = match d.index_canister_id {
            Some(id) => id,
            None => {
                return Err("ledger_canister_id not found");
            }
        };
        let swap = match d.swap_canister_id {
            Some(id) => id,
            None => {
                return Err("ledger_canister_id not found");
            }
        };
        let root = match d.root_canister_id {
            Some(id) => id,
            None => {
                return Err("ledger_canister_id not found");
            }
        };
        Ok(Sns { ledger, governance, index, swap, root })
    }

    /// Lays out the request for the upgrade steps that remain past the
    /// currently deployed version: unlimited, scoped to this registry's
    /// governance service.
    pub fn upgrade_steps_request(&self, deployed_version: Option<u64>) -> (r: UpgradeStepsRequest)
        ensures
            r.limit == 0,
            r.governance_canister_id == Some(self.governance),
            r.starting_at == deployed_version,
    {
        UpgradeStepsRequest {
            limit: 0,
            governance_canister_id: Some(self.governance),
            starting_at: deployed_version,
        }
    }
}

/// What the host's post-upgrade polling loop does next.
#[derive(Clone, Copy, PartialEq, Eq, Structural, Debug)]
pub enum PollAction {
    /// The service answered: stop polling.
    Done,
    /// No answer yet and attempts remain: poll again.
    Retry,
    /// No answer after the last allowed attempt: give up loudly.
    GiveUp,
}

/// The decision rule of the polling loop that waits for a service to come
/// back after an upgrade: stop on the first answer, retry while attempts
/// remain, give up after the last one.
pub fn poll_decision(answered: bool, attempt: u32, last_attempt: u32) -> (r: PollAction)
    ensures
        answered ==> r == PollAction::Done,
        !answered && attempt < last_attempt ==> r == PollAction::Retry,
        !answered && attempt >= last_attempt ==> r == PollAction::GiveUp,
{
    if answered {
        PollAction::Done
    } else if attempt < last_attempt {
        PollAction::Retry
    } else {
        PollAction::GiveUp
    }
}

} // verus!
