//! The operating-mode gate: a four-state access-control machine consulted by
//! both pipelines before any state mutation. Transitions happen only through
//! an authorized configuration update, never implicitly.

use vstd::prelude::*;

verus! {

/// The process-wide operating mode.
pub enum Mode {
    /// Deposits and withdrawals are open to any caller.
    GeneralAvailability,
    /// Every mutating call is rejected as temporarily unavailable.
    ReadOnly,
    /// Deposits and withdrawals are open to the listed principals only.
    RestrictedTo(Vec<u64>),
    /// Deposits are open to the listed principals only; withdrawals stay open
    /// to any caller.
    DepositsRestrictedTo(Vec<u64>),
}

/// Whether a balance update (deposit) by `caller` may proceed.
pub open spec fn spec_allows_deposits(m: &Mode, caller: u64) -> bool {
    match m {
        Mode::GeneralAvailability => true,
        Mode::ReadOnly => false,
        Mode::RestrictedTo(list) => list@.contains(caller),
        Mode::DepositsRestrictedTo(list) => list@.contains(caller),
    }
}

/// Whether a retrieval (withdrawal) by `caller` may proceed.
pub open spec fn spec_allows_withdrawals(m: &Mode, caller: u64) -> bool {
    match m {
        Mode::GeneralAvailability => true,
        Mode::ReadOnly => false,
        Mode::RestrictedTo(list) => list@.contains(caller),
        Mode::DepositsRestrictedTo(_) => true,
    }
}

/// Two modes are the same state with the same allow-list.
pub open spec fn mode_eq(a: &Mode, b: &Mode) -> bool {
    match (a, b) {
        (Mode::GeneralAvailability, Mode::GeneralAvailability) => true,
        (Mode::ReadOnly, Mode::ReadOnly) => true,
        (Mode::RestrictedTo(l1), Mode::RestrictedTo(l2)) => l1@ == l2@,
        (Mode::DepositsRestrictedTo(l1), Mode::DepositsRestrictedTo(l2)) => l1@ == l2@,
        _ => false,
    }
}

fn list_contains(list: &Vec<u64>, x: u64) -> (r: bool)
    ensures
        r == list@.contains(x),
{
    let mut i: usize = 0;
    while i < list.len()
        invariant
            i <= list@.len(),
            forall|j: int| 0 <= j < i ==> list@[j] != x,
        decreases list@.len() - i,
    {
        if list[i] == x {
            return true;
        }
        i += 1;
    }
    false
}

impl Mode {
    /// The deposit column of the dispatch table.
    pub fn allows_deposits(&self, caller: u64) -> (r: bool)
        ensures
            r == spec_allows_deposits(self, caller),
    {
        match self {
            Mode::GeneralAvailability => true,
            Mode::ReadOnly => false,
            Mode::RestrictedTo(list) => list_contains(list, caller),
            Mode::DepositsRestrictedTo(list) => list_contains(list, caller),
        }
    }

    /// The withdrawal column of the dispatch table.
    pub fn allows_withdrawals(&self, caller: u64) -> (r: bool)
        ensures
            r == spec_allows_withdrawals(self, caller),
    {
        match self {
            Mode::GeneralAvailability => true,
            Mode::ReadOnly => false,
            Mode::RestrictedTo(list) => list_contains(list, caller),
            Mode::DepositsRestrictedTo(_) => true,
        }
    }

    pub fn clone_mode(&self) -> (r: Mode)
        ensures
            mode_eq(self, &r),
    {
        match self {
            Mode::GeneralAvailability => Mode::GeneralAvailability,
            Mode::ReadOnly => Mode::ReadOnly,
            Mode::RestrictedTo(list) => Mode::RestrictedTo(clone_list(list)),
            Mode::DepositsRestrictedTo(list) => Mode::DepositsRestrictedTo(clone_list(list)),
        }
    }
}

fn clone_list(list: &Vec<u64>) -> (r: Vec<u64>)
    ensures
        r@ == list@,
{
    let mut out: Vec<u64> = Vec::new();
    let mut i: usize = 0;
    while i < list.len()
        invariant
            i <= list@.len(),
            out@ == list@.subrange(0, i as int),
        decreases list@.len() - i,
    {
        out.push(list[i]);
        i += 1;
        assert(out@ =~= list@.subrange(0, i as int));
    }
    assert(list@.subrange(0, list@.len() as int) =~= list@);
    out
}

} // verus!
