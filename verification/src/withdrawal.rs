//! Withdrawal requests and their lifecycle. A request is created only after
//! its burn/escrow succeeded at the ledger collaborator; it then moves through
//! coin selection, threshold signing, submission and confirmation, or times
//! out and is resubmitted with the same reserved outputs.

use vstd::prelude::*;
use crate::utxo::{OutPoint, distinct_ops};

verus! {

/// Where a withdrawal stands in its lifecycle.
#[derive(Clone, Copy, PartialEq, Eq, Structural, Debug)]
pub enum WithdrawalStatus {
    /// Queued with its escrow confirmed; no outputs chosen yet.
    Pending,
    /// Outputs reserved and the unsigned transaction laid out.
    Selected,
    /// Waiting on the threshold signer.
    SigningInFlight,
    /// Broadcast under a transaction id; waiting on confirmations.
    Submitted,
    /// Confirmed at depth; its inputs are spent.
    Confirmed,
    /// Waited longer than the queue allows; keeps its reserved inputs and is
    /// eligible for resubmission with a bumped fee.
    TimedOut,
}

/// A request holds reserved outputs exactly in these states.
pub open spec fn in_flight(s: WithdrawalStatus) -> bool {
    match s {
        WithdrawalStatus::Selected => true,
        WithdrawalStatus::SigningInFlight => true,
        WithdrawalStatus::Submitted => true,
        WithdrawalStatus::TimedOut => true,
        WithdrawalStatus::Pending => false,
        WithdrawalStatus::Confirmed => false,
    }
}

/// One queued withdrawal.
pub struct WithdrawalRequest {
    pub id: u64,
    /// Principal that requested the withdrawal.
    pub caller: u64,
    /// Caller-chosen idempotency key; a second call with the same key while
    /// the first request is live is reported as already processing.
    pub idem_key: u64,
    /// Destination chain address (script bytes).
    pub destination: Vec<u8>,
    /// Amount burned from the caller's ledger balance.
    pub amount: u64,
    /// Ledger block index of the successful burn/escrow that backs this
    /// request. Set at creation: no request exists without its escrow.
    pub escrow_block: u64,
    /// Host logical time at which the request was accepted.
    pub requested_at: u64,
    /// Reserved inputs; empty while `Pending`.
    pub inputs: Vec<OutPoint>,
    /// Transaction fee charged to the recipient; meaningful once `Selected`.
    pub fee: u64,
    /// Leftover input value returned to custody; meaningful once `Selected`.
    pub change: u64,
    /// Transaction id of the broadcast; set once `Submitted`.
    pub txid: Option<u64>,
    /// Host logical time of the broadcast; set once `Submitted`.
    pub submitted_at: Option<u64>,
    pub status: WithdrawalStatus,
}

/// Whether some queued request carries `id`.
pub open spec fn spec_req_has(q: Seq<WithdrawalRequest>, id: u64) -> bool {
    exists|k: int| 0 <= k < q.len() && q[k].id == id
}

/// The index of the request with `id` (meaningful under `wf_queue`).
pub open spec fn spec_req_index(q: Seq<WithdrawalRequest>, id: u64) -> int {
    choose|k: int| 0 <= k < q.len() && q[k].id == id
}

/// No request id repeats.
pub open spec fn wf_queue(q: Seq<WithdrawalRequest>) -> bool {
    forall|i: int, j: int| 0 <= i < q.len() && 0 <= j < q.len() && i != j ==> q[i].id != q[j].id
}

/// A live request: one whose idempotency key still blocks a duplicate call.
pub open spec fn live(s: WithdrawalStatus) -> bool {
    !(s is Confirmed)
}

/// Whether a live request of `caller` with `idem_key` is queued.
pub open spec fn spec_duplicate(q: Seq<WithdrawalRequest>, caller: u64, idem_key: u64) -> bool {
    exists|k: int|
        0 <= k < q.len() && q[k].caller == caller && q[k].idem_key == idem_key
            && live(#[trigger] q[k].status)
}

/// Under uniqueness, the request found at `k` is the request of its id.
pub proof fn lemma_req_index_unique(q: Seq<WithdrawalRequest>, id: u64, k: int)
    requires
        wf_queue(q),
        0 <= k < q.len(),
        q[k].id == id,
    ensures
        spec_req_index(q, id) == k,
        spec_req_has(q, id),
{
    assert(spec_req_has(q, id));
    let j = spec_req_index(q, id);
    if j != k {
        assert(q[j].id != q[k].id);
    }
}

/// How pushing a fresh request changes the queue: every queued id keeps its
/// position, and the new id stands at the end.
pub proof fn lemma_queue_push(
    q: Seq<WithdrawalRequest>,
    q2: Seq<WithdrawalRequest>,
    r: WithdrawalRequest,
)
    requires
        wf_queue(q),
        !spec_req_has(q, r.id),
        q2 == q.push(r),
    ensures
        wf_queue(q2),
        forall|id: u64| #[trigger] spec_req_has(q2, id) <==> (spec_req_has(q, id) || id == r.id),
        forall|id: u64| spec_req_has(q, id)
            ==> #[trigger] spec_req_index(q2, id) == spec_req_index(q, id)
                && q2[spec_req_index(q2, id)] == q[spec_req_index(q, id)],
        spec_req_index(q2, r.id) == q.len(),
{
    assert forall|i: int, j: int|
        0 <= i < q2.len() && 0 <= j < q2.len() && i != j implies q2[i].id != q2[j].id by {
        if i < q.len() && j < q.len() {
        } else {
            let p = if i < q.len() { i } else { j };
            assert(q2[p] == q[p]);
        }
    }
    assert forall|id: u64| #[trigger] spec_req_has(q2, id)
        implies (spec_req_has(q, id) || id == r.id) by {
        let k = spec_req_index(q2, id);
        if k < q.len() {
            assert(q[k].id == id);
        }
    }
    assert forall|id: u64| spec_req_has(q, id) || id == r.id
        implies #[trigger] spec_req_has(q2, id) by {
        if spec_req_has(q, id) {
            let k = spec_req_index(q, id);
            assert(q2[k].id == id);
        } else {
            assert(q2[q.len() as int].id == id);
        }
    }
    assert forall|id: u64| spec_req_has(q, id)
        implies #[trigger] spec_req_index(q2, id) == spec_req_index(q, id)
            && q2[spec_req_index(q2, id)] == q[spec_req_index(q, id)] by {
        let k = spec_req_index(q, id);
        assert(0 <= k < q.len() && q[k].id == id);
        assert(q2[k] == q[k]);
        lemma_req_index_unique(q2, id, k);
    }
    assert(q2[q.len() as int] == r);
    lemma_req_index_unique(q2, r.id, q.len() as int);
}

/// How replacing one request by another with the same id changes the queue:
/// no position and no other request moves.
pub proof fn lemma_queue_update(
    q: Seq<WithdrawalRequest>,
    q2: Seq<WithdrawalRequest>,
    k: int,
)
    requires
        wf_queue(q),
        0 <= k < q.len(),
        q2.len() == q.len(),
        q2[k].id == q[k].id,
        forall|j: int| 0 <= j < q.len() && j != k ==> q2[j] == q[j],
    ensures
        wf_queue(q2),
        forall|id: u64| #[trigger] spec_req_has(q2, id) <==> spec_req_has(q, id),
        forall|id: u64| spec_req_has(q, id)
            ==> #[trigger] spec_req_index(q2, id) == spec_req_index(q, id),
        spec_req_index(q2, q[k].id) == k,
{
    assert forall|i: int, j: int|
        0 <= i < q2.len() && 0 <= j < q2.len() && i != j implies q2[i].id != q2[j].id by {
        assert(q2[i].id == q[i].id && q2[j].id == q[j].id);
    }
    assert forall|id: u64| #[trigger] spec_req_has(q2, id) implies spec_req_has(q, id) by {
        let j = spec_req_index(q2, id);
        assert(q[j].id == id);
    }
    assert forall|id: u64| #[trigger] spec_req_has(q, id) implies spec_req_has(q2, id) by {
        let j = spec_req_index(q, id);
        assert(q2[j].id == id);
    }
    assert forall|id: u64| spec_req_has(q, id)
        implies #[trigger] spec_req_index(q2, id) == spec_req_index(q, id) by {
        let j = spec_req_index(q, id);
        assert(q2[j].id == id);
        lemma_req_index_unique(q2, id, j);
    }
    lemma_req_index_unique(q2, q[k].id, k);
}

/// How removing one request changes the queue: every other id stays, with its
/// request unchanged.
pub proof fn lemma_queue_remove(
    q: Seq<WithdrawalRequest>,
    q2: Seq<WithdrawalRequest>,
    k: int,
)
    requires
        wf_queue(q),
        0 <= k < q.len(),
        q2 == q.remove(k),
    ensures
        wf_queue(q2),
        forall|id: u64| #[trigger] spec_req_has(q2, id) <==> (spec_req_has(q, id) && id != q[k].id),
        forall|id: u64| spec_req_has(q, id) && id != q[k].id
            ==> q2[#[trigger] spec_req_index(q2, id)] == q[spec_req_index(q, id)],
{
    assert forall|a: int, b: int|
        0 <= a < q2.len() && 0 <= b < q2.len() && a != b implies q2[a].id != q2[b].id by {
        let a0 = if a < k { a } else { a + 1 };
        let b0 = if b < k { b } else { b + 1 };
        assert(q2[a] == q[a0] && q2[b] == q[b0]);
    }
    assert forall|id: u64| #[trigger] spec_req_has(q2, id)
        implies (spec_req_has(q, id) && id != q[k].id) by {
        let j = spec_req_index(q2, id);
        let j0 = if j < k { j } else { j + 1 };
        assert(q2[j] == q[j0]);
        assert(q[j0].id == id);
        assert(j0 != k);
    }
    assert forall|id: u64| spec_req_has(q, id) && id != q[k].id
        implies #[trigger] spec_req_has(q2, id) by {
        let j = spec_req_index(q, id);
        assert(0 <= j < q.len() && q[j].id == id);
        assert(j != k);
        let j1 = if j < k { j } else { j - 1 };
        assert(q2[j1] == q[j]);
        lemma_req_index_unique(q2, id, j1);
    }
    assert forall|id: u64| spec_req_has(q, id) && id != q[k].id
        implies q2[#[trigger] spec_req_index(q2, id)] == q[spec_req_index(q, id)] by {
        let j = spec_req_index(q, id);
        assert(0 <= j < q.len() && q[j].id == id);
        assert(j != k);
        let j1 = if j < k { j } else { j - 1 };
        assert(q2[j1] == q[j]);
        lemma_req_index_unique(q2, id, j1);
        lemma_req_index_unique(q, id, j);
    }
}

impl WithdrawalRequest {
    /// A request's internal consistency: inputs appear exactly when the
    /// request is past `Pending`, never repeat, and the broadcast record
    /// appears exactly from `Submitted` on.
    pub open spec fn wf(&self) -> bool {
        &&& (self.status is Pending ==> self.inputs@.len() == 0)
        &&& (in_flight(self.status) ==> self.inputs@.len() > 0)
        &&& distinct_ops(self.inputs@)
        &&& (self.status is Submitted || self.status is Confirmed || self.status is TimedOut
            ==> self.txid is Some)
        &&& (self.status is Submitted ==> self.submitted_at is Some)
    }
}

} // verus!
