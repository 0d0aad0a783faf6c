//! The upgrade/persistence boundary: before shutdown the engine's whole state
//! is captured into a version-tagged snapshot; on restart the snapshot is
//! rehydrated and every invariant re-checked before the state is accepted. A
//! field added in a later format version is optional in the snapshot, and an
//! older snapshot restores with that field's declared default — never by
//! resetting the rest.

use vstd::prelude::*;
use crate::config::Config;
use crate::mode::{Mode, mode_eq};
use crate::state::CoreState;
use crate::utxo::{LedgerEntry, OutPoint, UtxoLedger, UtxoState, distinct_ops, wf_entries};
use crate::withdrawal::{WithdrawalRequest, WithdrawalStatus, in_flight, wf_queue};

verus! {

/// The current snapshot format version.
pub const SNAPSHOT_VERSION: u32 = 2;

/// A stable capture of the engine's state. Every record is tagged by the
/// format version so a later field addition cannot corrupt older snapshots.
pub struct Snapshot {
    pub version: u32,
    pub entries: Vec<LedgerEntry>,
    pub queue: Vec<WithdrawalRequest>,
    pub next_request_id: u64,
    pub mode: Mode,
    pub custody_principal: u64,
    pub custody_key_id: u64,
    pub ledger_id: u64,
    pub retrieve_min_amount: u64,
    pub min_confirmations: u32,
    pub max_time_in_queue: u64,
    pub check_fee: u64,
    pub fee_base: u64,
    pub fee_per_input: u64,
    /// Added in format version 2; a version-1 snapshot leaves it out and
    /// restores with screening on.
    pub screening_enabled: Option<bool>,
}

/// Why a snapshot was refused.
#[derive(Clone, Copy, PartialEq, Eq, Structural, Debug)]
pub enum RestoreError {
    /// Written by a later format than this engine understands (or a zero
    /// version, which no engine ever wrote).
    UnsupportedVersion,
    /// The snapshot's contents break a custody invariant; restoring it would
    /// mean running on corrupt state.
    InvariantViolation,
}

/// The state a snapshot denotes.
pub open spec fn spec_restored(s: Snapshot) -> CoreState {
    CoreState {
        config: Config {
            custody_principal: s.custody_principal,
            custody_key_id: s.custody_key_id,
            ledger_id: s.ledger_id,
            retrieve_min_amount: s.retrieve_min_amount,
            min_confirmations: s.min_confirmations,
            max_time_in_queue: s.max_time_in_queue,
            check_fee: s.check_fee,
            screening_enabled: match s.screening_enabled {
                Some(b) => b,
                None => true,
            },
            fee_base: s.fee_base,
            fee_per_input: s.fee_per_input,
        },
        mode: s.mode,
        ledger: UtxoLedger { entries: s.entries },
        queue: s.queue,
        next_request_id: s.next_request_id,
    }
}

/// The snapshot a state denotes.
pub open spec fn spec_snapshot(s: CoreState) -> Snapshot {
    Snapshot {
        version: SNAPSHOT_VERSION,
        entries: s.ledger.entries,
        queue: s.queue,
        next_request_id: s.next_request_id,
        mode: s.mode,
        custody_principal: s.config.custody_principal,
        custody_key_id: s.config.custody_key_id,
        ledger_id: s.config.ledger_id,
        retrieve_min_amount: s.config.retrieve_min_amount,
        min_confirmations: s.config.min_confirmations,
        max_time_in_queue: s.config.max_time_in_queue,
        check_fee: s.config.check_fee,
        fee_base: s.config.fee_base,
        fee_per_input: s.config.fee_per_input,
        screening_enabled: Some(s.config.screening_enabled),
    }
}

/// Round-trip persistence: the snapshot of a well-formed state denotes
/// exactly that state, invariants included, so restoring it succeeds and
/// loses nothing.
pub proof fn lemma_snapshot_round_trip(s: CoreState)
    requires
        s.wf(),
    ensures
        spec_restored(spec_snapshot(s)) == s,
        spec_restored(spec_snapshot(s)).wf(),
        1 <= spec_snapshot(s).version <= SNAPSHOT_VERSION,
{
    assert(spec_restored(spec_snapshot(s)).config == s.config);
    assert(spec_restored(spec_snapshot(s)).ledger == s.ledger);
    assert(spec_restored(spec_snapshot(s)) == s);
}

/// The same identity, output and lifecycle state on both sides.
pub open spec fn entry_equiv(a: LedgerEntry, b: LedgerEntry) -> bool {
    &&& a.utxo == b.utxo
    &&& a.owner == b.owner
    &&& a.owner_sub@ == b.owner_sub@
    &&& a.state == b.state
}

/// The same ledger contents on both sides.
pub open spec fn entries_equiv(x: Seq<LedgerEntry>, y: Seq<LedgerEntry>) -> bool {
    &&& x.len() == y.len()
    &&& forall|i: int| 0 <= i < x.len() ==> entry_equiv(#[trigger] x[i], y[i])
}

/// The same request on both sides.
pub open spec fn req_equiv(a: WithdrawalRequest, b: WithdrawalRequest) -> bool {
    &&& a.id == b.id
    &&& a.caller == b.caller
    &&& a.idem_key == b.idem_key
    &&& a.destination@ == b.destination@
    &&& a.amount == b.amount
    &&& a.escrow_block == b.escrow_block
    &&& a.requested_at == b.requested_at
    &&& a.inputs@ == b.inputs@
    &&& a.fee == b.fee
    &&& a.change == b.change
    &&& a.txid == b.txid
    &&& a.submitted_at == b.submitted_at
    &&& a.status == b.status
}

/// The same queue contents on both sides.
pub open spec fn queue_equiv(x: Seq<WithdrawalRequest>, y: Seq<WithdrawalRequest>) -> bool {
    &&& x.len() == y.len()
    &&& forall|i: int| 0 <= i < x.len() ==> req_equiv(#[trigger] x[i], y[i])
}

fn clone_entries(v: &Vec<LedgerEntry>) -> (r: Vec<LedgerEntry>)
    ensures
        entries_equiv(r@, v@),
{
    let mut out: Vec<LedgerEntry> = Vec::new();
    let mut i: usize = 0;
    while i < v.len()
        invariant
            i <= v@.len(),
            out@.len() == i,
            forall|j: int| 0 <= j < i ==> entry_equiv(#[trigger] out@[j], v@[j]),
        decreases v@.len() - i,
    {
        let e = LedgerEntry {
            utxo: v[i].utxo,
            owner: v[i].owner,
            owner_sub: crate::utxo::clone_bytes(&v[i].owner_sub),
            state: v[i].state,
        };
        out.push(e);
        i += 1;
    }
    out
}

fn clone_requests(v: &Vec<WithdrawalRequest>) -> (r: Vec<WithdrawalRequest>)
    ensures
        queue_equiv(r@, v@),
{
    let mut out: Vec<WithdrawalRequest> = Vec::new();
    let mut i: usize = 0;
    while i < v.len()
        invariant
            i <= v@.len(),
            out@.len() == i,
            forall|j: int| 0 <= j < i ==> req_equiv(#[trigger] out@[j], v@[j]),
        decreases v@.len() - i,
    {
        let rq = WithdrawalRequest {
            id: v[i].id,
            caller: v[i].caller,
            idem_key: v[i].idem_key,
            destination: crate::utxo::clone_bytes(&v[i].destination),
            amount: v[i].amount,
            escrow_block: v[i].escrow_block,
            requested_at: v[i].requested_at,
            inputs: crate::utxo::clone_ops(&v[i].inputs),
            fee: v[i].fee,
            change: v[i].change,
            txid: v[i].txid,
            submitted_at: v[i].submitted_at,
            status: v[i].status,
        };
        out.push(rq);
        i += 1;
    }
    out
}

fn ops_contains(v: &Vec<OutPoint>, op: OutPoint) -> (r: bool)
    ensures
        r == v@.contains(op),
{
    let mut i: usize = 0;
    while i < v.len()
        invariant
            i <= v@.len(),
            forall|j: int| 0 <= j < i ==> v@[j] != op,
        decreases v@.len() - i,
    {
        if v[i].txid == op.txid && v[i].vout == op.vout {
            assert(v@[i as int] == op);
            return true;
        }
        i += 1;
    }
    false
}

fn check_entries_unique(v: &Vec<LedgerEntry>) -> (r: bool)
    ensures
        r == wf_entries(v@),
{
    let mut i: usize = 0;
    while i < v.len()
        invariant
            i <= v@.len(),
            forall|a: int, b: int|
                #![trigger v@[a].utxo.outpoint, v@[b].utxo.outpoint]
                0 <= a < i && a < b < v@.len() ==> v@[a].utxo.outpoint != v@[b].utxo.outpoint,
        decreases v@.len() - i,
    {
        let mut j: usize = i + 1;
        while j < v.len()
            invariant
                i < j <= v@.len(),
                i < v@.len(),
                forall|b: int| i < b < j ==> v@[i as int].utxo.outpoint != #[trigger] v@[b].utxo.outpoint,
            decreases v@.len() - j,
        {
            if v[i].utxo.outpoint.txid == v[j].utxo.outpoint.txid
                && v[i].utxo.outpoint.vout == v[j].utxo.outpoint.vout {
                assert(v@[i as int].utxo.outpoint == v@[j as int].utxo.outpoint);
                return false;
            }
            j += 1;
        }
        i += 1;
    }
    true
}

fn check_ops_distinct(v: &Vec<OutPoint>) -> (r: bool)
    ensures
        r == distinct_ops(v@),
{
    let mut i: usize = 0;
    while i < v.len()
        invariant
            i <= v@.len(),
            forall|a: int, b: int|
                #![trigger v@[a], v@[b]]
                0 <= a < i && a < b < v@.len() ==> v@[a] != v@[b],
        decreases v@.len() - i,
    {
        let mut j: usize = i + 1;
        while j < v.len()
            invariant
                i < j <= v@.len(),
                i < v@.len(),
                forall|b: int| i < b < j ==> v@[i as int] != #[trigger] v@[b],
            decreases v@.len() - j,
        {
            if v[i].txid == v[j].txid && v[i].vout == v[j].vout {
                assert(v@[i as int] == v@[j as int]);
                return false;
            }
            j += 1;
        }
        i += 1;
    }
    true
}

fn check_queue_ids(q: &Vec<WithdrawalRequest>, next_id: u64) -> (r: bool)
    ensures
        r == (wf_queue(q@) && forall|k: int| 0 <= k < q@.len()
            ==> (#[trigger] q@[k]).id < next_id),
{
    let mut i: usize = 0;
    while i < q.len()
        invariant
            i <= q@.len(),
            forall|a: int, b: int|
                #![trigger q@[a].id, q@[b].id]
                0 <= a < i && a < b < q@.len() ==> q@[a].id != q@[b].id,
            forall|k: int| 0 <= k < i ==> (#[trigger] q@[k]).id < next_id,
        decreases q@.len() - i,
    {
        if !(q[i].id < next_id) {
            return false;
        }
        let mut j: usize = i + 1;
        while j < q.len()
            invariant
                i < j <= q@.len(),
                i < q@.len(),
                forall|b: int| i < b < j ==> q@[i as int].id != (#[trigger] q@[b]).id,
            decreases q@.len() - j,
        {
            if q[i].id == q[j].id {
                return false;
            }
            j += 1;
        }
        i += 1;
    }
    true
}

/// Whether a request in this status holds reserved inputs.
pub fn is_in_flight(s: WithdrawalStatus) -> (r: bool)
    ensures
        r == in_flight(s),
{
    match s {
        WithdrawalStatus::Selected => true,
        WithdrawalStatus::SigningInFlight => true,
        WithdrawalStatus::Submitted => true,
        WithdrawalStatus::TimedOut => true,
        WithdrawalStatus::Pending => false,
        WithdrawalStatus::Confirmed => false,
    }
}

fn check_request_wf(rq: &WithdrawalRequest) -> (r: bool)
    ensures
        r == rq.wf(),
{
    if matches!(rq.status, WithdrawalStatus::Pending) && rq.inputs.len() != 0 {
        return false;
    }
    if is_in_flight(rq.status) && rq.inputs.len() == 0 {
        return false;
    }
    if !check_ops_distinct(&rq.inputs) {
        return false;
    }
    if matches!(
        rq.status,
        WithdrawalStatus::Submitted | WithdrawalStatus::Confirmed | WithdrawalStatus::TimedOut
    ) && rq.txid.is_none() {
        return false;
    }
    if matches!(rq.status, WithdrawalStatus::Submitted) && rq.submitted_at.is_none() {
        return false;
    }
    true
}

impl CoreState {
    fn check_reserved_backed(&self) -> (r: bool)
        requires
            self.ledger.wf(),
            wf_queue(self.queue@),
        ensures
            r == self.reserved_backed(),
    {
        let mut i: usize = 0;
        while i < self.ledger.entries.len()
            invariant
                self.ledger.wf(),
                wf_queue(self.queue@),
                i <= self.ledger.entries@.len(),
                forall|ii: int| 0 <= ii < i
                    ==> match (#[trigger] self.ledger.entries@[ii]).state {
                        UtxoState::Reserved { request_id } => {
                            &&& crate::withdrawal::spec_req_has(self.queue@, request_id)
                            &&& in_flight(self.queue@[crate::withdrawal::spec_req_index(
                                self.queue@,
                                request_id,
                            )].status)
                            &&& self.queue@[crate::withdrawal::spec_req_index(
                                self.queue@,
                                request_id,
                            )].inputs@.contains(self.ledger.entries@[ii].utxo.outpoint)
                        },
                        _ => true,
                    },
            decreases self.ledger.entries@.len() - i,
    {
            let rid_opt = match self.ledger.entries[i].state {
                UtxoState::Reserved { request_id } => Some(request_id),
                _ => None,
            };
            if let Some(rid) = rid_opt {
                match self.find_request(rid) {
                    Some(k) => {
                        if !is_in_flight(self.queue[k].status) {
                            return false;
                        }
                        if !ops_contains(&self.queue[k].inputs, self.ledger.entries[i].utxo.outpoint) {
                            return false;
                        }
                    }
                    None => {
                        return false;
                    }
                }
            }
            i += 1;
        }
        true
    }

    fn check_inputs_reserved(&self) -> (r: bool)
        requires
            self.ledger.wf(),
        ensures
            r == self.inputs_reserved(),
    {
        let mut k: usize = 0;
        while k < self.queue.len()
            invariant
                self.ledger.wf(),
                k <= self.queue@.len(),
                forall|kk: int, m: int|
                    0 <= kk < k && in_flight(self.queue@[kk].status)
                        && 0 <= m < self.queue@[kk].inputs@.len()
                        ==> crate::utxo::spec_has(
                            self.ledger.entries@,
                            #[trigger] self.queue@[kk].inputs@[m],
                        ) && crate::utxo::spec_state_of(
                            self.ledger.entries@,
                            self.queue@[kk].inputs@[m],
                        ) == (UtxoState::Reserved { request_id: self.queue@[kk].id }),
            decreases self.queue@.len() - k,
        {
            if is_in_flight(self.queue[k].status) {
                let id = self.queue[k].id;
                let mut m: usize = 0;
                while m < self.queue[k].inputs.len()
                    invariant
                        self.ledger.wf(),
                        k < self.queue@.len(),
                        m <= self.queue@[k as int].inputs@.len(),
                        id == self.queue@[k as int].id,
                        in_flight(self.queue@[k as int].status),
                        forall|mm: int| 0 <= mm < m
                            ==> crate::utxo::spec_has(
                                self.ledger.entries@,
                                #[trigger] self.queue@[k as int].inputs@[mm],
                            ) && crate::utxo::spec_state_of(
                                self.ledger.entries@,
                                self.queue@[k as int].inputs@[mm],
                            ) == (UtxoState::Reserved { request_id: id }),
                    decreases self.queue@[k as int].inputs@.len() - m,
                {
                    let op = self.queue[k].inputs[m];
                    match self.ledger.state_of(op) {
                        Some(UtxoState::Reserved { request_id }) => {
                            if request_id != id {
                                return false;
                            }
                        }
                        _ => {
                            return false;
                        }
                    }
                    m += 1;
                }
            }
            k += 1;
        }
        true
    }

    /// Checks the engine's whole invariant on a rehydrated state.
    pub fn check_invariants(&self) -> (r: bool)
        ensures
            r == self.wf(),
    {
        if !check_entries_unique(&self.ledger.entries) {
            return false;
        }
        if !check_queue_ids(&self.queue, self.next_request_id) {
            return false;
        }
        let mut k: usize = 0;
        while k < self.queue.len()
            invariant
                k <= self.queue@.len(),
                forall|j: int| 0 <= j < k ==> (#[trigger] self.queue@[j]).wf(),
            decreases self.queue@.len() - k,
        {
            if !check_request_wf(&self.queue[k]) {
                return false;
            }
            k += 1;
        }
        if !self.check_reserved_backed() {
            return false;
        }
        if !self.check_inputs_reserved() {
            return false;
        }
        true
    }

    /// Captures the whole state — ledger, queue, configuration, mode — into a
    /// snapshot tagged with the current format version.
    pub fn snapshot(&self) -> (s: Snapshot)
        ensures
            s.version == SNAPSHOT_VERSION,
            entries_equiv(s.entries@, self.ledger.entries@),
            queue_equiv(s.queue@, self.queue@),
            s.next_request_id == self.next_request_id,
            mode_eq(&s.mode, &self.mode),
            s.custody_principal == self.config.custody_principal,
            s.custody_key_id == self.config.custody_key_id,
            s.ledger_id == self.config.ledger_id,
            s.retrieve_min_amount == self.config.retrieve_min_amount,
            s.min_confirmations == self.config.min_confirmations,
            s.max_time_in_queue == self.config.max_time_in_queue,
            s.check_fee == self.config.check_fee,
            s.fee_base == self.config.fee_base,
            s.fee_per_input == self.config.fee_per_input,
            s.screening_enabled == Some(self.config.screening_enabled),
    {
        Snapshot {
            version: SNAPSHOT_VERSION,
            entries: clone_entries(&self.ledger.entries),
            queue: clone_requests(&self.queue),
            next_request_id: self.next_request_id,
            mode: self.mode.clone_mode(),
            custody_principal: self.config.custody_principal,
            custody_key_id: self.config.custody_key_id,
            ledger_id: self.config.ledger_id,
            retrieve_min_amount: self.config.retrieve_min_amount,
            min_confirmations: self.config.min_confirmations,
            max_time_in_queue: self.config.max_time_in_queue,
            check_fee: self.config.check_fee,
            fee_base: self.config.fee_base,
            fee_per_input: self.config.fee_per_input,
            screening_enabled: Some(self.config.screening_enabled),
        }
    }

    /// Rehydrates a snapshot: refuses an unknown format version, applies the
    /// declared default to each field the snapshot's version did not carry,
    /// and accepts the state only after every invariant checks out.
    pub fn restore(s: Snapshot) -> (r: Result<CoreState, RestoreError>)
        ensures
            match r {
                Ok(st) => {
                    &&& 1 <= s.version <= SNAPSHOT_VERSION
                    &&& st == spec_restored(s)
                    &&& st.wf()
                },
                Err(RestoreError::UnsupportedVersion) => s.version == 0
                    || s.version > SNAPSHOT_VERSION,
                Err(RestoreError::InvariantViolation) => {
                    &&& 1 <= s.version <= SNAPSHOT_VERSION
                    &&& !spec_restored(s).wf()
                },
            },
            r is Ok <==> (1 <= s.version <= SNAPSHOT_VERSION && spec_restored(s).wf()),
    {
        let ghost s0 = s;
        if s.version == 0 || s.version > SNAPSHOT_VERSION {
            return Err(RestoreError::UnsupportedVersion);
        }
        let screening_enabled = match s.screening_enabled {
            Some(b) => b,
            None => true,
        };
        let st = CoreState {
            config: Config {
                custody_principal: s.custody_principal,
                custody_key_id: s.custody_key_id,
                ledger_id: s.ledger_id,
                retrieve_min_amount: s.retrieve_min_amount,
                min_confirmations: s.min_confirmations,
                max_time_in_queue: s.max_time_in_queue,
                check_fee: s.check_fee,
                screening_enabled,
                fee_base: s.fee_base,
                fee_per_input: s.fee_per_input,
            },
            mode: s.mode,
            ledger: UtxoLedger { entries: s.entries },
            queue: s.queue,
            next_request_id: s.next_request_id,
        };
        assert(st == spec_restored(s0));
        if st.check_invariants() {
            Ok(st)
        } else {
            Err(RestoreError::InvariantViolation)
        }
    }
}

} // verus!
