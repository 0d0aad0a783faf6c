//! The UTXO ledger: the authoritative record of which chain outputs have been
//! credited, which are reserved for an in-flight withdrawal, and which are
//! free. Crediting is keyed by outpoint, which gives the exactly-once mint
//! guarantee; reservation moves an output atomically out of the free pool.

use vstd::prelude::*;

verus! {

/// A chain output reference: transaction id and output index.
#[derive(Clone, Copy, PartialEq, Eq, Structural, Debug)]
pub struct OutPoint {
    pub txid: u64,
    pub vout: u32,
}

/// An unspent chain output: the unit of custody.
#[derive(Clone, Copy, PartialEq, Eq, Structural, Debug)]
pub struct Utxo {
    pub outpoint: OutPoint,
    pub value: u64,
}

/// Where a recorded output stands in its lifecycle. An output is in exactly
/// one state at any time.
#[derive(Clone, Copy, PartialEq, Eq, Structural, Debug)]
pub enum UtxoState {
    /// Reserved locally as minting-in-progress before the external mint call
    /// is issued, so a re-entrant deposit for the same outpoint is rejected.
    MintPending,
    /// Flagged by compliance screening; recorded so it is never minted, yet
    /// stays visible to the caller.
    Tainted,
    /// Credited and available for withdrawal selection.
    Free,
    /// Locked into the in-flight withdrawal with the given request id.
    Reserved { request_id: u64 },
    /// Consumed by a confirmed withdrawal.
    Spent,
}

/// One record of the ledger: the output, the identity it was credited to, and
/// its lifecycle state.
pub struct LedgerEntry {
    pub utxo: Utxo,
    pub owner: u64,
    pub owner_sub: Vec<u8>,
    pub state: UtxoState,
}

/// Whether some entry records `op`.
pub open spec fn spec_has(entries: Seq<LedgerEntry>, op: OutPoint) -> bool {
    exists|i: int| 0 <= i < entries.len() && entries[i].utxo.outpoint == op
}

/// The index of the entry recording `op` (meaningful under `wf_entries`).
pub open spec fn spec_index_of(entries: Seq<LedgerEntry>, op: OutPoint) -> int {
    choose|i: int| 0 <= i < entries.len() && entries[i].utxo.outpoint == op
}

/// The state recorded for `op` (meaningful when `spec_has` holds).
pub open spec fn spec_state_of(entries: Seq<LedgerEntry>, op: OutPoint) -> UtxoState {
    entries[spec_index_of(entries, op)].state
}

/// No outpoint is recorded twice.
pub open spec fn wf_entries(entries: Seq<LedgerEntry>) -> bool {
    forall|i: int, j: int|
        0 <= i < entries.len() && 0 <= j < entries.len() && i != j
            ==> entries[i].utxo.outpoint != entries[j].utxo.outpoint
}

/// The free pool, in ledger order.
pub open spec fn spec_free_list(entries: Seq<LedgerEntry>) -> Seq<Utxo>
    decreases entries.len(),
{
    if entries.len() == 0 {
        Seq::empty()
    } else {
        spec_free_list(entries.drop_last())
            + if entries.last().state is Free {
                seq![entries.last().utxo]
            } else {
                Seq::<Utxo>::empty()
            }
    }
}

/// Total value of a list of outputs.
pub open spec fn spec_total(utxos: Seq<Utxo>) -> int
    decreases utxos.len(),
{
    if utxos.len() == 0 {
        0
    } else {
        spec_total(utxos.drop_last()) + utxos.last().value
    }
}

/// Every recorded outpoint of `pre` is still recorded in `post`: no ledger
/// operation ever forgets a credited output (aborting a failed mint attempt
/// removes only a `MintPending` marker, which was never credited).
pub open spec fn spec_credits_preserved(pre: Seq<LedgerEntry>, post: Seq<LedgerEntry>) -> bool {
    forall|op: OutPoint|
        spec_has(pre, op) && !(spec_state_of(pre, op) is MintPending)
            ==> #[trigger] spec_has(post, op)
}

/// No two listed outputs share an outpoint.
pub open spec fn distinct_outpoints(s: Seq<Utxo>) -> bool {
    forall|i: int, j: int|
        0 <= i < s.len() && 0 <= j < s.len() && i != j ==> s[i].outpoint != s[j].outpoint
}

/// Under uniqueness of outpoints, the free pool lists only free entries'
/// outputs and never repeats an outpoint.
pub proof fn lemma_free_list_props(entries: Seq<LedgerEntry>)
    requires
        wf_entries(entries),
    ensures
        forall|k: int| 0 <= k < spec_free_list(entries).len()
            ==> spec_has(entries, (#[trigger] spec_free_list(entries)[k]).outpoint)
                && spec_state_of(entries, spec_free_list(entries)[k].outpoint) is Free
                && entries[spec_index_of(entries, spec_free_list(entries)[k].outpoint)].utxo
                    == spec_free_list(entries)[k],
        distinct_outpoints(spec_free_list(entries)),
    decreases entries.len(),
{
    if entries.len() > 0 {
        let t = entries.drop_last();
        let f = spec_free_list(entries);
        let ft = spec_free_list(t);
        assert(wf_entries(t));
        lemma_free_list_props(t);
        assert forall|k: int| 0 <= k < f.len()
            implies spec_has(entries, (#[trigger] f[k]).outpoint)
                && spec_state_of(entries, f[k].outpoint) is Free
                && entries[spec_index_of(entries, f[k].outpoint)].utxo == f[k] by {
            if k < ft.len() {
                assert(f[k] == ft[k]);
                let i = spec_index_of(t, ft[k].outpoint);
                assert(0 <= i < t.len() && t[i].utxo.outpoint == ft[k].outpoint);
                assert(entries[i] == t[i]);
                lemma_index_unique(entries, f[k].outpoint, i);
            } else {
                assert(entries.last().state is Free && entries.last().utxo == f[k]);
                lemma_index_unique(entries, f[k].outpoint, entries.len() - 1);
            }
        }
        assert forall|a: int, b: int|
            0 <= a < f.len() && 0 <= b < f.len() && a != b
                implies f[a].outpoint != f[b].outpoint by {
            if a < ft.len() && b < ft.len() {
                assert(f[a] == ft[a] && f[b] == ft[b]);
            } else {
                let (p, q) = if a < ft.len() { (a, b) } else { (b, a) };
                assert(q == ft.len() && p < ft.len());
                assert(f[q] == entries.last().utxo);
                assert(f[p] == ft[p]);
                let i = spec_index_of(t, ft[p].outpoint);
                assert(0 <= i < t.len() && t[i].utxo == ft[p]);
                assert(entries[i].utxo == ft[p]);
                assert(entries[i].utxo.outpoint != entries[entries.len() - 1].utxo.outpoint);
            }
        }
    }
}

/// How a push changes the recorded states: every old record keeps its state,
/// and the new outpoint is recorded with the pushed state.
pub proof fn lemma_states_after_push(pre: Seq<LedgerEntry>, post: Seq<LedgerEntry>, e: LedgerEntry)
    requires
        wf_entries(pre),
        !spec_has(pre, e.utxo.outpoint),
        post == pre.push(e),
    ensures
        wf_entries(post),
        forall|op: OutPoint| #[trigger] spec_has(post, op) <==> (spec_has(pre, op) || op == e.utxo.outpoint),
        forall|op: OutPoint| spec_has(pre, op)
            ==> #[trigger] spec_state_of(post, op) == spec_state_of(pre, op)
                && post[spec_index_of(post, op)] == pre[spec_index_of(pre, op)],
        spec_state_of(post, e.utxo.outpoint) == e.state,
{
    assert forall|i: int, j: int|
        0 <= i < post.len() && 0 <= j < post.len() && i != j
            implies post[i].utxo.outpoint != post[j].utxo.outpoint by {
        if i < pre.len() && j < pre.len() {
        } else {
            let p = if i < pre.len() { i } else { j };
            assert(post[p] == pre[p]);
        }
    }
    assert forall|op: OutPoint| #[trigger] spec_has(post, op)
        implies (spec_has(pre, op) || op == e.utxo.outpoint) by {
        let i = spec_index_of(post, op);
        assert(0 <= i < post.len() && post[i].utxo.outpoint == op);
        if i < pre.len() {
            assert(pre[i].utxo.outpoint == op);
        }
    }
    assert forall|op: OutPoint| spec_has(pre, op) || op == e.utxo.outpoint
        implies #[trigger] spec_has(post, op) by {
        if spec_has(pre, op) {
            let i = spec_index_of(pre, op);
            assert(post[i].utxo.outpoint == op);
        } else {
            assert(post[pre.len() as int].utxo.outpoint == op);
        }
    }
    assert forall|op: OutPoint| spec_has(pre, op)
        implies #[trigger] spec_state_of(post, op) == spec_state_of(pre, op)
            && post[spec_index_of(post, op)] == pre[spec_index_of(pre, op)] by {
        let i = spec_index_of(pre, op);
        assert(0 <= i < pre.len() && pre[i].utxo.outpoint == op);
        assert(post[i] == pre[i]);
        lemma_index_unique(post, op, i);
    }
    assert(post[pre.len() as int] == e);
    lemma_index_unique(post, e.utxo.outpoint, pre.len() as int);
}

/// How updating one entry's state changes the recorded states.
pub proof fn lemma_states_after_update(
    pre: Seq<LedgerEntry>,
    post: Seq<LedgerEntry>,
    i: int,
    state: UtxoState,
)
    requires
        wf_entries(pre),
        0 <= i < pre.len(),
        post == pre.update(i, LedgerEntry { state, ..pre[i] }),
    ensures
        wf_entries(post),
        forall|op: OutPoint| #[trigger] spec_has(post, op) <==> spec_has(pre, op),
        forall|op: OutPoint| spec_has(pre, op) && op != pre[i].utxo.outpoint
            ==> #[trigger] spec_state_of(post, op) == spec_state_of(pre, op)
                && post[spec_index_of(post, op)] == pre[spec_index_of(pre, op)],
        spec_state_of(post, pre[i].utxo.outpoint) == state,
{
    assert forall|op: OutPoint| #[trigger] spec_has(post, op) implies spec_has(pre, op) by {
        let j = spec_index_of(post, op);
        assert(pre[j].utxo.outpoint == op);
    }
    assert forall|op: OutPoint| #[trigger] spec_has(pre, op) implies spec_has(post, op) by {
        let j = spec_index_of(pre, op);
        assert(post[j].utxo.outpoint == op);
    }
    assert forall|op: OutPoint| spec_has(pre, op) && op != pre[i].utxo.outpoint
        implies #[trigger] spec_state_of(post, op) == spec_state_of(pre, op)
            && post[spec_index_of(post, op)] == pre[spec_index_of(pre, op)] by {
        let j = spec_index_of(pre, op);
        assert(0 <= j < pre.len() && pre[j].utxo.outpoint == op);
        assert(j != i);
        assert(post[j] == pre[j]);
        lemma_index_unique(post, op, j);
    }
    assert(post[i].utxo.outpoint == pre[i].utxo.outpoint);
    lemma_index_unique(post, pre[i].utxo.outpoint, i);
}

/// How removing one entry changes the recorded states: every other outpoint
/// keeps its record and state.
pub proof fn lemma_states_after_remove(pre: Seq<LedgerEntry>, post: Seq<LedgerEntry>, i: int)
    requires
        wf_entries(pre),
        0 <= i < pre.len(),
        post == pre.remove(i),
    ensures
        wf_entries(post),
        forall|op: OutPoint| #[trigger] spec_has(post, op)
            <==> (spec_has(pre, op) && op != pre[i].utxo.outpoint),
        forall|op: OutPoint| spec_has(pre, op) && op != pre[i].utxo.outpoint
            ==> #[trigger] spec_state_of(post, op) == spec_state_of(pre, op),
{
    assert forall|a: int, b: int|
        0 <= a < post.len() && 0 <= b < post.len() && a != b
            implies post[a].utxo.outpoint != post[b].utxo.outpoint by {
        let a0 = if a < i { a } else { a + 1 };
        let b0 = if b < i { b } else { b + 1 };
        assert(post[a] == pre[a0] && post[b] == pre[b0]);
    }
    assert forall|op: OutPoint| #[trigger] spec_has(post, op)
        implies (spec_has(pre, op) && op != pre[i].utxo.outpoint) by {
        let j = spec_index_of(post, op);
        let j0 = if j < i { j } else { j + 1 };
        assert(post[j] == pre[j0]);
        assert(pre[j0].utxo.outpoint == op);
        assert(j0 != i);
    }
    assert forall|op: OutPoint| spec_has(pre, op) && op != pre[i].utxo.outpoint
        implies #[trigger] spec_has(post, op) by {
        let j = spec_index_of(pre, op);
        assert(0 <= j < pre.len() && pre[j].utxo.outpoint == op);
        assert(j != i);
        let j1 = if j < i { j } else { j - 1 };
        assert(post[j1] == pre[j]);
        lemma_index_unique(post, op, j1);
    }
    assert forall|op: OutPoint| spec_has(pre, op) && op != pre[i].utxo.outpoint
        implies #[trigger] spec_state_of(post, op) == spec_state_of(pre, op) by {
        let j = spec_index_of(pre, op);
        assert(0 <= j < pre.len() && pre[j].utxo.outpoint == op);
        assert(j != i);
        let j1 = if j < i { j } else { j - 1 };
        assert(post[j1] == pre[j]);
        lemma_index_unique(post, op, j1);
        lemma_index_unique(pre, op, j);
    }
}

/// How an atomic batch move changes the recorded states: listed outpoints are
/// now in `target`, everything else is untouched.
pub proof fn lemma_states_after_batch(
    pre: Seq<LedgerEntry>,
    post: Seq<LedgerEntry>,
    ops: Seq<OutPoint>,
    target: UtxoState,
)
    requires
        wf_entries(pre),
        spec_batch_moved(pre, post, ops, target),
    ensures
        wf_entries(post),
        forall|op: OutPoint| #[trigger] spec_has(post, op) <==> spec_has(pre, op),
        forall|op: OutPoint| spec_has(pre, op) && !ops.contains(op)
            ==> #[trigger] spec_state_of(post, op) == spec_state_of(pre, op)
                && post[spec_index_of(post, op)] == pre[spec_index_of(pre, op)],
        forall|op: OutPoint| spec_has(pre, op) && ops.contains(op)
            ==> #[trigger] spec_state_of(post, op) == target,
{
    assert forall|i: int, j: int|
        0 <= i < post.len() && 0 <= j < post.len() && i != j
            implies post[i].utxo.outpoint != post[j].utxo.outpoint by {
        assert(post[i].utxo.outpoint == pre[i].utxo.outpoint);
        assert(post[j].utxo.outpoint == pre[j].utxo.outpoint);
    }
    assert forall|op: OutPoint| #[trigger] spec_has(post, op) implies spec_has(pre, op) by {
        let j = spec_index_of(post, op);
        assert(post[j].utxo.outpoint == pre[j].utxo.outpoint);
    }
    assert forall|op: OutPoint| #[trigger] spec_has(pre, op) implies spec_has(post, op) by {
        let j = spec_index_of(pre, op);
        assert(post[j].utxo.outpoint == pre[j].utxo.outpoint && pre[j].utxo.outpoint == op);
    }
    assert forall|op: OutPoint| spec_has(pre, op) && !ops.contains(op)
        implies #[trigger] spec_state_of(post, op) == spec_state_of(pre, op)
            && post[spec_index_of(post, op)] == pre[spec_index_of(pre, op)] by {
        let j = spec_index_of(pre, op);
        assert(0 <= j < pre.len() && pre[j].utxo.outpoint == op);
        assert(post[j] == pre[j]);
        lemma_index_unique(post, op, j);
    }
    assert forall|op: OutPoint| spec_has(pre, op) && ops.contains(op)
        implies #[trigger] spec_state_of(post, op) == target by {
        let j = spec_index_of(pre, op);
        assert(0 <= j < pre.len() && pre[j].utxo.outpoint == op);
        assert(post[j] == LedgerEntry { state: target, ..pre[j] });
        lemma_index_unique(post, op, j);
    }
}

/// No outpoint is listed twice.
pub open spec fn distinct_ops(ops: Seq<OutPoint>) -> bool {
    forall|i: int, j: int| 0 <= i < ops.len() && 0 <= j < ops.len() && i != j ==> ops[i] != ops[j]
}

/// Every listed outpoint is recorded in `state`.
pub open spec fn spec_all_in_state(entries: Seq<LedgerEntry>, ops: Seq<OutPoint>, state: UtxoState) -> bool {
    forall|m: int| 0 <= m < ops.len()
        ==> spec_has(entries, #[trigger] ops[m]) && spec_state_of(entries, ops[m]) == state
}

/// `post` is `pre` with exactly the entries of the listed outpoints moved to
/// `target` and every other entry untouched.
pub open spec fn spec_batch_moved(
    pre: Seq<LedgerEntry>,
    post: Seq<LedgerEntry>,
    ops: Seq<OutPoint>,
    target: UtxoState,
) -> bool {
    &&& post.len() == pre.len()
    &&& forall|i: int| 0 <= i < pre.len()
        ==> post[i] == (if ops.contains(pre[i].utxo.outpoint) {
            LedgerEntry { state: target, ..pre[i] }
        } else {
            pre[i]
        })
}

/// No double reservation: outputs already reserved by one withdrawal and
/// outputs still free — the only ones a later selection may take — can never
/// overlap, because an output is recorded in exactly one state. Two
/// withdrawal requests racing for the same coins therefore never both
/// reserve one.
pub proof fn lemma_no_double_reservation(
    entries: Seq<LedgerEntry>,
    held: Seq<OutPoint>,
    candidates: Seq<OutPoint>,
    rid: u64,
)
    requires
        wf_entries(entries),
        spec_all_in_state(entries, held, UtxoState::Reserved { request_id: rid }),
        forall|m: int| 0 <= m < candidates.len()
            ==> spec_state_of(entries, #[trigger] candidates[m]) is Free,
    ensures
        forall|a: int, b: int|
            0 <= a < held.len() && 0 <= b < candidates.len() ==> held[a] != candidates[b],
{
    assert forall|a: int, b: int|
        0 <= a < held.len() && 0 <= b < candidates.len() implies held[a] != candidates[b] by {
        if held[a] == candidates[b] {
            assert(spec_state_of(entries, held[a]) == (UtxoState::Reserved { request_id: rid }));
            assert(spec_state_of(entries, candidates[b]) is Free);
        }
    }
}

/// The UTXO ledger.
pub struct UtxoLedger {
    pub entries: Vec<LedgerEntry>,
}

impl UtxoLedger {
    /// The ledger's well-formedness: every outpoint recorded at most once.
    pub open spec fn wf(&self) -> bool {
        wf_entries(self.entries@)
    }

    pub fn new() -> (r: UtxoLedger)
        ensures
            r.entries@.len() == 0,
            r.wf(),
    {
        UtxoLedger { entries: Vec::new() }
    }

    fn find_index(&self, op: OutPoint) -> (r: Option<usize>)
        ensures
            match r {
                Some(i) => i < self.entries@.len() && self.entries@[i as int].utxo.outpoint == op
                    && spec_has(self.entries@, op),
                None => !spec_has(self.entries@, op),
            },
    {
        let mut i: usize = 0;
        while i < self.entries.len()
            invariant
                i <= self.entries@.len(),
                forall|j: int| 0 <= j < i ==> self.entries@[j].utxo.outpoint != op,
            decreases self.entries@.len() - i,
        {
            if self.entries[i].utxo.outpoint.txid == op.txid
                && self.entries[i].utxo.outpoint.vout == op.vout {
                return Some(i);
            }
            i += 1;
        }
        None
    }

    /// Whether `op` is recorded, in any state.
    pub fn has_outpoint(&self, op: OutPoint) -> (r: bool)
        ensures
            r == spec_has(self.entries@, op),
    {
        self.find_index(op).is_some()
    }

    /// The recorded state of `op`, if any.
    pub fn state_of(&self, op: OutPoint) -> (r: Option<UtxoState>)
        requires
            self.wf(),
        ensures
            match r {
                Some(s) => spec_has(self.entries@, op) && s == spec_state_of(self.entries@, op),
                None => !spec_has(self.entries@, op),
            },
    {
        match self.find_index(op) {
            Some(i) => {
                proof {
                    lemma_index_unique(self.entries@, op, i as int);
                }
                Some(self.entries[i].state)
            }
            None => None,
        }
    }

    /// Records `utxo` as minting-in-progress for the given identity, unless
    /// its outpoint is already recorded. Returns whether the marker was
    /// placed. This is the re-entrancy guard that precedes every external
    /// mint call.
    pub fn record_pending(&mut self, utxo: Utxo, owner: u64, owner_sub: Vec<u8>) -> (r: bool)
        requires
            old(self).wf(),
        ensures
            final(self).wf(),
            r == !spec_has(old(self).entries@, utxo.outpoint),
            r ==> final(self).entries@ == old(self).entries@.push(
                LedgerEntry { utxo, owner, owner_sub, state: UtxoState::MintPending },
            ),
            !r ==> final(self).entries@ == old(self).entries@,
            spec_has(final(self).entries@, utxo.outpoint),
            spec_credits_preserved(old(self).entries@, final(self).entries@),
    {
        self.insert_absent(utxo, owner, owner_sub, UtxoState::MintPending)
    }

    /// Records `utxo` as tainted for the given identity, unless its outpoint
    /// is already recorded. A tainted output is never minted but stays
    /// visible.
    pub fn record_tainted(&mut self, utxo: Utxo, owner: u64, owner_sub: Vec<u8>) -> (r: bool)
        requires
            old(self).wf(),
        ensures
            final(self).wf(),
            r == !spec_has(old(self).entries@, utxo.outpoint),
            r ==> final(self).entries@ == old(self).entries@.push(
                LedgerEntry { utxo, owner, owner_sub, state: UtxoState::Tainted },
            ),
            !r ==> final(self).entries@ == old(self).entries@,
            spec_has(final(self).entries@, utxo.outpoint),
            spec_credits_preserved(old(self).entries@, final(self).entries@),
    {
        self.insert_absent(utxo, owner, owner_sub, UtxoState::Tainted)
    }

    fn insert_absent(&mut self, utxo: Utxo, owner: u64, owner_sub: Vec<u8>, state: UtxoState) -> (r: bool)
        requires
            old(self).wf(),
        ensures
            final(self).wf(),
            r == !spec_has(old(self).entries@, utxo.outpoint),
            r ==> final(self).entries@ == old(self).entries@.push(
                LedgerEntry { utxo, owner, owner_sub, state },
            ),
            !r ==> final(self).entries@ == old(self).entries@,
            spec_has(final(self).entries@, utxo.outpoint),
            spec_credits_preserved(old(self).entries@, final(self).entries@),
    {
        match self.find_index(utxo.outpoint) {
            Some(_) => false,
            None => {
                self.entries.push(LedgerEntry { utxo, owner, owner_sub, state });
                proof {
                    lemma_push_preserves(old(self).entries@, self.entries@);
                }
                assert(spec_has(self.entries@, utxo.outpoint)) by {
                    assert(self.entries@[old(self).entries@.len() as int].utxo.outpoint
                        == utxo.outpoint);
                }
                true
            }
        }
    }

    /// Moves `op` from one state to another, if it is recorded in the source
    /// state; otherwise leaves the ledger unchanged. Returns whether it moved.
    fn transition(&mut self, op: OutPoint, source: UtxoState, target: UtxoState) -> (r: bool)
        requires
            old(self).wf(),
        ensures
            final(self).wf(),
            r == (spec_has(old(self).entries@, op)
                && spec_state_of(old(self).entries@, op) == source),
            r ==> {
                let i = spec_index_of(old(self).entries@, op);
                final(self).entries@ == old(self).entries@.update(
                    i,
                    LedgerEntry { state: target, ..old(self).entries@[i] },
                )
            },
            !r ==> final(self).entries@ == old(self).entries@,
            spec_credits_preserved(old(self).entries@, final(self).entries@),
    {
        match self.find_index(op) {
            Some(i) => {
                proof {
                    lemma_index_unique(self.entries@, op, i as int);
                }
                if state_eq(self.entries[i].state, source) {
                    let e = entry_at_mut(&mut self.entries, i);
                    e.state = target;
                    proof {
                        lemma_update_preserves(old(self).entries@, self.entries@, i as int);
                    }
                    true
                } else {
                    false
                }
            }
            None => false,
        }
    }

    /// Finalizes a successful mint: the pending marker becomes a free,
    /// credited output. Returns whether `op` was pending.
    pub fn finalize_credit(&mut self, op: OutPoint) -> (r: bool)
        requires
            old(self).wf(),
        ensures
            final(self).wf(),
            r == (spec_has(old(self).entries@, op)
                && spec_state_of(old(self).entries@, op) == UtxoState::MintPending),
            r ==> {
                let i = spec_index_of(old(self).entries@, op);
                final(self).entries@ == old(self).entries@.update(
                    i,
                    LedgerEntry { state: UtxoState::Free, ..old(self).entries@[i] },
                )
            },
            !r ==> final(self).entries@ == old(self).entries@,
            spec_credits_preserved(old(self).entries@, final(self).entries@),
    {
        self.transition(op, UtxoState::MintPending, UtxoState::Free)
    }

    /// Withdraws a pending marker after the external mint call failed
    /// cleanly, so a later deposit may try again. Returns whether `op` was
    /// pending.
    pub fn abort_pending(&mut self, op: OutPoint) -> (r: bool)
        requires
            old(self).wf(),
        ensures
            final(self).wf(),
            r == (spec_has(old(self).entries@, op)
                && spec_state_of(old(self).entries@, op) == UtxoState::MintPending),
            r ==> final(self).entries@ == old(self).entries@.remove(
                spec_index_of(old(self).entries@, op),
            ),
            !r ==> final(self).entries@ == old(self).entries@,
            spec_credits_preserved(old(self).entries@, final(self).entries@),
    {
        match self.find_index(op) {
            Some(i) => {
                proof {
                    lemma_index_unique(self.entries@, op, i as int);
                }
                if state_eq(self.entries[i].state, UtxoState::MintPending) {
                    self.entries.remove(i);
                    proof {
                        lemma_remove_preserves(old(self).entries@, self.entries@, i as int);
                    }
                    true
                } else {
                    false
                }
            }
            None => false,
        }
    }

    /// Locks the listed free outputs into the withdrawal with id `rid`,
    /// atomically: either every listed output was free and all are now
    /// reserved, or nothing changed.
    pub fn reserve_all(&mut self, ops: &Vec<OutPoint>, rid: u64) -> (r: bool)
        requires
            old(self).wf(),
            distinct_ops(ops@),
        ensures
            final(self).wf(),
            r == spec_all_in_state(old(self).entries@, ops@, UtxoState::Free),
            r ==> spec_batch_moved(old(self).entries@, final(self).entries@, ops@,
                UtxoState::Reserved { request_id: rid }),
            !r ==> final(self).entries@ == old(self).entries@,
            spec_credits_preserved(old(self).entries@, final(self).entries@),
    {
        self.transition_all(ops, UtxoState::Free, UtxoState::Reserved { request_id: rid })
    }

    /// Returns the outputs reserved by withdrawal `rid` to the free pool,
    /// atomically; used when the withdrawal is abandoned.
    pub fn release_all(&mut self, ops: &Vec<OutPoint>, rid: u64) -> (r: bool)
        requires
            old(self).wf(),
            distinct_ops(ops@),
        ensures
            final(self).wf(),
            r == spec_all_in_state(old(self).entries@, ops@, UtxoState::Reserved { request_id: rid }),
            r ==> spec_batch_moved(old(self).entries@, final(self).entries@, ops@, UtxoState::Free),
            !r ==> final(self).entries@ == old(self).entries@,
            spec_credits_preserved(old(self).entries@, final(self).entries@),
    {
        self.transition_all(ops, UtxoState::Reserved { request_id: rid }, UtxoState::Free)
    }

    /// Marks the outputs reserved by withdrawal `rid` as spent, atomically;
    /// used only after the submitted transaction reached the required
    /// confirmation depth.
    pub fn spend_all(&mut self, ops: &Vec<OutPoint>, rid: u64) -> (r: bool)
        requires
            old(self).wf(),
            distinct_ops(ops@),
        ensures
            final(self).wf(),
            r == spec_all_in_state(old(self).entries@, ops@, UtxoState::Reserved { request_id: rid }),
            r ==> spec_batch_moved(old(self).entries@, final(self).entries@, ops@, UtxoState::Spent),
            !r ==> final(self).entries@ == old(self).entries@,
            spec_credits_preserved(old(self).entries@, final(self).entries@),
    {
        self.transition_all(ops, UtxoState::Reserved { request_id: rid }, UtxoState::Spent)
    }

    /// Moves every listed output from `source` to `target`, or nothing when
    /// some listed output is not recorded in `source`.
    fn transition_all(&mut self, ops: &Vec<OutPoint>, source: UtxoState, target: UtxoState) -> (r: bool)
        requires
            old(self).wf(),
            distinct_ops(ops@),
            source != target,
        ensures
            final(self).wf(),
            r == spec_all_in_state(old(self).entries@, ops@, source),
            r ==> spec_batch_moved(old(self).entries@, final(self).entries@, ops@, target),
            !r ==> final(self).entries@ == old(self).entries@,
            spec_credits_preserved(old(self).entries@, final(self).entries@),
    {
        // Check phase: every listed output must stand in `source`.
        let mut m: usize = 0;
        while m < ops.len()
            invariant
                self == old(self),
                old(self).wf(),
                m <= ops@.len(),
                forall|k: int| 0 <= k < m ==> spec_has(old(self).entries@, #[trigger] ops@[k])
                    && spec_state_of(old(self).entries@, ops@[k]) == source,
            decreases ops@.len() - m,
        {
            match self.state_of(ops[m]) {
                Some(s) => {
                    if !state_eq(s, source) {
                        return false;
                    }
                }
                None => {
                    return false;
                }
            }
            m += 1;
        }
        // Mutation phase: move each listed output; nothing can fail now.
        let ghost orig = self.entries@;
        let mut m: usize = 0;
        while m < ops.len()
            invariant
                self.wf(),
                distinct_ops(ops@),
                source != target,
                self.entries@.len() == orig.len(),
                wf_entries(orig),
                spec_all_in_state(orig, ops@, source),
                m <= ops@.len(),
                forall|i: int| 0 <= i < orig.len()
                    ==> self.entries@[i] == (if ops@.subrange(0, m as int).contains(
                        orig[i].utxo.outpoint,
                    ) {
                        LedgerEntry { state: target, ..orig[i] }
                    } else {
                        orig[i]
                    }),
            decreases ops@.len() - m,
        {
            let op = ops[m];
            let ghost pre = self.entries@;
            proof {
                assert(spec_has(orig, op) && spec_state_of(orig, op) == source);
                let idx = spec_index_of(orig, op);
                assert(orig[idx].utxo.outpoint == op);
                // `op` was not processed yet, so its entry still stands in `source`.
                if ops@.subrange(0, m as int).contains(op) {
                    let k = choose|k: int| 0 <= k < m && #[trigger] ops@.subrange(0, m as int)[k] == op;
                    assert(ops@[k] == op && ops@[m as int] == op && k != m);
                    assert(false);
                }
                assert(pre[idx].utxo.outpoint == op && pre[idx].state == source);
                lemma_index_unique(pre, op, idx);
            }
            let moved = self.transition(op, source, target);
            proof {
                assert(moved);
                let idx = spec_index_of(pre, op);
                assert(self.entries@ == pre.update(idx, LedgerEntry { state: target, ..pre[idx] }));
                assert forall|i: int| 0 <= i < orig.len()
                    implies self.entries@[i] == (if ops@.subrange(0, m + 1).contains(
                        orig[i].utxo.outpoint,
                    ) {
                        LedgerEntry { state: target, ..orig[i] }
                    } else {
                        orig[i]
                    }) by {
                    if i == idx {
                        assert(ops@.subrange(0, m + 1)[m as int] == op);
                        assert(ops@.subrange(0, m + 1).contains(orig[i].utxo.outpoint));
                        assert(pre[idx] == orig[idx]);
                    } else {
                        assert(self.entries@[i] == pre[i]);
                        // An unprocessed entry is covered by the new prefix only
                        // if it is `op`'s entry, and that entry is `idx`.
                        if ops@.subrange(0, m + 1).contains(orig[i].utxo.outpoint) {
                            let k = choose|k: int| 0 <= k < m + 1
                                && #[trigger] ops@.subrange(0, m + 1)[k] == orig[i].utxo.outpoint;
                            if k == m {
                                assert(orig[i].utxo.outpoint == op);
                                assert(orig[idx].utxo.outpoint == op);
                                assert(i == idx);
                            } else {
                                assert(ops@.subrange(0, m as int)[k] == orig[i].utxo.outpoint);
                                assert(ops@.subrange(0, m as int).contains(orig[i].utxo.outpoint));
                            }
                        }
                        if ops@.subrange(0, m as int).contains(orig[i].utxo.outpoint) {
                            let k = choose|k: int| 0 <= k < m
                                && #[trigger] ops@.subrange(0, m as int)[k] == orig[i].utxo.outpoint;
                            assert(ops@.subrange(0, m + 1)[k] == orig[i].utxo.outpoint);
                            assert(ops@.subrange(0, m + 1).contains(orig[i].utxo.outpoint));
                        }
                    }
                }
            }
            m += 1;
        }
        proof {
            assert(ops@.subrange(0, ops@.len() as int) =~= ops@);
            assert(spec_batch_moved(orig, self.entries@, ops@, target));
            assert forall|op: OutPoint|
                spec_has(orig, op) && !(spec_state_of(orig, op) is MintPending)
                    implies #[trigger] spec_has(self.entries@, op) by {
                let j = choose|j: int| 0 <= j < orig.len() && orig[j].utxo.outpoint == op;
                assert(self.entries@[j].utxo.outpoint == op);
            }
        }
        true
    }

    /// The free pool, in ledger order.
    pub fn free_utxos(&self) -> (r: Vec<Utxo>)
        ensures
            r@ == spec_free_list(self.entries@),
    {
        let mut out: Vec<Utxo> = Vec::new();
        let mut i: usize = 0;
        while i < self.entries.len()
            invariant
                i <= self.entries@.len(),
                out@ == spec_free_list(self.entries@.subrange(0, i as int)),
            decreases self.entries@.len() - i,
        {
            let ghost pre = self.entries@.subrange(0, i as int);
            if matches!(self.entries[i].state, UtxoState::Free) {
                out.push(self.entries[i].utxo);
            }
            i += 1;
            proof {
                let cur = self.entries@.subrange(0, i as int);
                assert(cur.drop_last() =~= pre);
                assert(cur.last() == self.entries@[i - 1]);
            }
        }
        proof {
            assert(self.entries@.subrange(0, self.entries@.len() as int) =~= self.entries@);
        }
        out
    }

    /// The secondary index: outputs credited to the given identity, in ledger
    /// order.
    pub fn utxos_of_account(&self, owner: u64, owner_sub: &Vec<u8>) -> (r: Vec<Utxo>)
        ensures
            r@ == spec_account_list(self.entries@, owner, owner_sub@),
    {
        let mut out: Vec<Utxo> = Vec::new();
        let mut i: usize = 0;
        while i < self.entries.len()
            invariant
                i <= self.entries@.len(),
                out@ == spec_account_list(self.entries@.subrange(0, i as int), owner, owner_sub@),
            decreases self.entries@.len() - i,
        {
            let ghost pre = self.entries@.subrange(0, i as int);
            if self.entries[i].owner == owner && bytes_eq(&self.entries[i].owner_sub, owner_sub) {
                out.push(self.entries[i].utxo);
            }
            i += 1;
            proof {
                let cur = self.entries@.subrange(0, i as int);
                assert(cur.drop_last() =~= pre);
                assert(cur.last() == self.entries@[i - 1]);
            }
        }
        proof {
            assert(self.entries@.subrange(0, self.entries@.len() as int) =~= self.entries@);
        }
        out
    }
}

/// Outputs credited to the given identity, in ledger order.
pub open spec fn spec_account_list(entries: Seq<LedgerEntry>, owner: u64, sub: Seq<u8>) -> Seq<Utxo>
    decreases entries.len(),
{
    if entries.len() == 0 {
        Seq::empty()
    } else {
        spec_account_list(entries.drop_last(), owner, sub)
            + if entries.last().owner == owner && entries.last().owner_sub@ == sub {
                seq![entries.last().utxo]
            } else {
                Seq::<Utxo>::empty()
            }
    }
}

/// Copies an outpoint list.
pub fn clone_ops(v: &Vec<OutPoint>) -> (r: Vec<OutPoint>)
    ensures
        r@ == v@,
{
    let mut out: Vec<OutPoint> = Vec::new();
    let mut i: usize = 0;
    while i < v.len()
        invariant
            i <= v@.len(),
            out@ == v@.subrange(0, i as int),
        decreases v@.len() - i,
    {
        out.push(v[i]);
        i += 1;
        assert(out@ =~= v@.subrange(0, i as int));
    }
    assert(v@.subrange(0, v@.len() as int) =~= v@);
    out
}

/// Copies a byte vector.
pub fn clone_bytes(v: &Vec<u8>) -> (r: Vec<u8>)
    ensures
        r@ == v@,
{
    let mut out: Vec<u8> = Vec::new();
    let mut i: usize = 0;
    while i < v.len()
        invariant
            i <= v@.len(),
            out@ == v@.subrange(0, i as int),
        decreases v@.len() - i,
    {
        out.push(v[i]);
        i += 1;
        assert(out@ =~= v@.subrange(0, i as int));
    }
    assert(v@.subrange(0, v@.len() as int) =~= v@);
    out
}

/// Byte-for-byte equality of two byte vectors.
pub fn bytes_eq(a: &Vec<u8>, b: &Vec<u8>) -> (r: bool)
    ensures
        r == (a@ == b@),
{
    if a.len() != b.len() {
        return false;
    }
    let mut i: usize = 0;
    while i < a.len()
        invariant
            a@.len() == b@.len(),
            i <= a@.len(),
            forall|j: int| 0 <= j < i ==> a@[j] == b@[j],
        decreases a@.len() - i,
    {
        if a[i] != b[i] {
            return false;
        }
        i += 1;
    }
    proof {
        assert(a@ =~= b@);
    }
    true
}

fn state_eq(a: UtxoState, b: UtxoState) -> (r: bool)
    ensures
        r == (a == b),
{
    match (a, b) {
        (UtxoState::MintPending, UtxoState::MintPending) => true,
        (UtxoState::Tainted, UtxoState::Tainted) => true,
        (UtxoState::Free, UtxoState::Free) => true,
        (UtxoState::Reserved { request_id: r1 }, UtxoState::Reserved { request_id: r2 }) => r1 == r2,
        (UtxoState::Spent, UtxoState::Spent) => true,
        _ => false,
    }
}

fn entry_at_mut(v: &mut Vec<LedgerEntry>, i: usize) -> (e: &mut LedgerEntry)
    requires
        i < old(v)@.len(),
    ensures
        *e == old(v)@[i as int],
        final(v)@ == old(v)@.update(i as int, *final(e)),
{
    &mut v[i]
}

/// Under uniqueness, the entry found at `i` is the entry of its outpoint.
pub proof fn lemma_index_unique(entries: Seq<LedgerEntry>, op: OutPoint, i: int)
    requires
        wf_entries(entries),
        0 <= i < entries.len(),
        entries[i].utxo.outpoint == op,
    ensures
        spec_index_of(entries, op) == i,
        spec_has(entries, op),
{
    assert(spec_has(entries, op));
    let j = spec_index_of(entries, op);
    assert(0 <= j < entries.len() && entries[j].utxo.outpoint == op);
    if i != j {
        assert(entries[i].utxo.outpoint != entries[j].utxo.outpoint);
    }
}

proof fn lemma_push_preserves(pre: Seq<LedgerEntry>, post: Seq<LedgerEntry>)
    requires
        post.len() == pre.len() + 1,
        forall|i: int| 0 <= i < pre.len() ==> post[i] == pre[i],
        wf_entries(pre),
        forall|i: int| 0 <= i < pre.len()
            ==> pre[i].utxo.outpoint != post[pre.len() as int].utxo.outpoint,
    ensures
        wf_entries(post),
        spec_credits_preserved(pre, post),
{
    assert forall|op: OutPoint|
        spec_has(pre, op) && !(spec_state_of(pre, op) is MintPending)
            implies #[trigger] spec_has(post, op) by {
        let i = choose|i: int| 0 <= i < pre.len() && pre[i].utxo.outpoint == op;
        assert(post[i].utxo.outpoint == op);
    }
}

proof fn lemma_update_preserves(pre: Seq<LedgerEntry>, post: Seq<LedgerEntry>, i: int)
    requires
        0 <= i < pre.len(),
        post.len() == pre.len(),
        forall|j: int| 0 <= j < pre.len() && j != i ==> post[j] == pre[j],
        post[i].utxo.outpoint == pre[i].utxo.outpoint,
        wf_entries(pre),
    ensures
        wf_entries(post),
        spec_credits_preserved(pre, post),
{
    assert forall|op: OutPoint|
        spec_has(pre, op) && !(spec_state_of(pre, op) is MintPending)
            implies #[trigger] spec_has(post, op) by {
        let j = choose|j: int| 0 <= j < pre.len() && pre[j].utxo.outpoint == op;
        assert(post[j].utxo.outpoint == op);
    }
}

proof fn lemma_remove_preserves(pre: Seq<LedgerEntry>, post: Seq<LedgerEntry>, i: int)
    requires
        0 <= i < pre.len(),
        post == pre.remove(i),
        wf_entries(pre),
        pre[i].state is MintPending,
    ensures
        wf_entries(post),
        spec_credits_preserved(pre, post),
{
    assert forall|op: OutPoint|
        spec_has(pre, op) && !(spec_state_of(pre, op) is MintPending)
            implies #[trigger] spec_has(post, op) by {
        let j = choose|j: int| 0 <= j < pre.len() && pre[j].utxo.outpoint == op;
        lemma_index_unique(pre, op, j);
        assert(pre[j].state == spec_state_of(pre, op));
        assert(j != i);
        if j < i {
            assert(post[j] == pre[j]);
        } else {
            assert(post[j - 1] == pre[j]);
        }
    }
}

} // verus!
