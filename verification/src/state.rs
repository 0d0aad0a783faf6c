//! The engine's aggregate state and the two pipelines that mutate it. Every
//! operation is a synchronous step between suspension points: the host
//! performs the external call (indexer query, screening, mint, burn, signing,
//! broadcast) and feeds its result into the next step. State that must not be
//! raced across a suspension — the minting-in-progress marker, the reserved
//! outputs of a withdrawal — is written before the host suspends.

use vstd::prelude::*;
use crate::address::{Address, IdentityKey, derive_deposit_address, spec_derivation_path};
use crate::config::{Config, InitArgs, UpgradeArgs};
use crate::mode::{Mode, spec_allows_deposits, spec_allows_withdrawals};
use crate::utxo::{
    LedgerEntry, OutPoint, Utxo, UtxoLedger, UtxoState, lemma_states_after_push,
    lemma_states_after_remove, lemma_states_after_update, spec_free_list, spec_has, spec_index_of,
    spec_state_of,
};
use crate::withdrawal::{
    WithdrawalRequest, WithdrawalStatus, in_flight, live, spec_duplicate, spec_req_has,
    spec_req_index, wf_queue,
};

verus! {

/// Rejections of a balance update.
#[derive(Clone, Copy, PartialEq, Eq, Structural, Debug)]
pub enum UpdateBalanceError {
    /// The mode gate is closed for this caller; retry later.
    TemporarilyUnavailable,
    /// The resolved target is the process's own custody identity; never valid.
    SelfCustody,
    /// The sub-identity is not 32 bytes.
    MalformedSubIdentity,
}

/// What a balance update decides for one discovered output.
#[derive(Clone, Copy, PartialEq, Eq, Structural, Debug)]
pub enum DepositOutcome {
    /// New, large enough and clean: the minting-in-progress marker is placed
    /// and the host may issue the mint call.
    MintStarted,
    /// Already credited (free, reserved or spent): never minted twice.
    AlreadyMinted,
    /// A mint for this output is in flight; the re-entrant call backs off.
    MintInProgress,
    /// Recorded as flagged by screening; never minted.
    Tainted,
    /// Worth no more than the screening fee; ignored.
    ValueTooSmall,
    /// Seen by the indexer but still short of the configured confirmation
    /// depth; checked again on a later poll.
    NotYetConfirmed,
}

/// The decision a balance update takes for `u`, seen at confirmation depth
/// `depth`, against the recorded ledger.
pub open spec fn spec_deposit_decision(
    entries: Seq<LedgerEntry>,
    check_fee: u64,
    min_confirmations: u32,
    u: Utxo,
    depth: u32,
) -> DepositOutcome {
    if spec_has(entries, u.outpoint) {
        match spec_state_of(entries, u.outpoint) {
            UtxoState::Tainted => DepositOutcome::Tainted,
            UtxoState::MintPending => DepositOutcome::MintInProgress,
            _ => DepositOutcome::AlreadyMinted,
        }
    } else if depth < min_confirmations {
        DepositOutcome::NotYetConfirmed
    } else if u.value <= check_fee {
        DepositOutcome::ValueTooSmall
    } else {
        DepositOutcome::MintStarted
    }
}

/// Exactly-once mint: once an output is recorded with anything other than the
/// transient minting-in-progress marker, every later balance update — after
/// any number of ledger operations, which all preserve recorded credits —
/// refuses to start a second mint for it.
pub proof fn lemma_exactly_once_mint(
    pre: Seq<LedgerEntry>,
    post: Seq<LedgerEntry>,
    u: Utxo,
    check_fee: u64,
    min_confirmations: u32,
    depth: u32,
)
    requires
        spec_has(pre, u.outpoint),
        !(spec_state_of(pre, u.outpoint) is MintPending),
        crate::utxo::spec_credits_preserved(pre, post),
    ensures
        spec_deposit_decision(post, check_fee, min_confirmations, u, depth)
            != DepositOutcome::MintStarted,
{
    assert(spec_has(post, u.outpoint));
}

/// A freshly accepted withdrawal: queued pending, escrow recorded, no
/// outputs chosen, nothing broadcast.
pub open spec fn accepted_request(
    req: WithdrawalRequest,
    id: u64,
    caller: u64,
    idem_key: u64,
    destination: Seq<u8>,
    amount: u64,
    escrow_block: u64,
    now: u64,
) -> bool {
    &&& req.id == id
    &&& req.caller == caller
    &&& req.idem_key == idem_key
    &&& req.destination@ == destination
    &&& req.amount == amount
    &&& req.escrow_block == escrow_block
    &&& req.requested_at == now
    &&& req.inputs@.len() == 0
    &&& req.fee == 0
    &&& req.change == 0
    &&& req.txid is None
    &&& req.submitted_at is None
    &&& req.status is Pending
}

/// The resolved deposit target: the named owner, or the caller itself.
pub open spec fn spec_target(caller: u64, owner: Option<u64>) -> u64 {
    match owner {
        Some(o) => o,
        None => caller,
    }
}

/// The engine's entire mutable state: configuration, mode, UTXO ledger and
/// withdrawal queue, owned exclusively by the single process instance.
pub struct CoreState {
    pub config: Config,
    pub mode: Mode,
    pub ledger: UtxoLedger,
    pub queue: Vec<WithdrawalRequest>,
    pub next_request_id: u64,
}

impl CoreState {
    /// Every reserved output is backed by a queued in-flight request that
    /// lists it among its inputs.
    pub open spec fn reserved_backed(&self) -> bool {
        forall|i: int| 0 <= i < self.ledger.entries@.len()
            ==> match (#[trigger] self.ledger.entries@[i]).state {
                UtxoState::Reserved { request_id } => {
                    &&& spec_req_has(self.queue@, request_id)
                    &&& in_flight(self.queue@[spec_req_index(self.queue@, request_id)].status)
                    &&& self.queue@[spec_req_index(self.queue@, request_id)].inputs@.contains(
                        self.ledger.entries@[i].utxo.outpoint,
                    )
                },
                _ => true,
            }
    }

    /// Every input of an in-flight request is recorded and reserved for
    /// exactly that request.
    pub open spec fn inputs_reserved(&self) -> bool {
        forall|k: int, m: int|
            0 <= k < self.queue@.len() && in_flight(self.queue@[k].status)
                && 0 <= m < self.queue@[k].inputs@.len()
                ==> spec_has(self.ledger.entries@, #[trigger] self.queue@[k].inputs@[m])
                    && spec_state_of(self.ledger.entries@, self.queue@[k].inputs@[m])
                        == (UtxoState::Reserved { request_id: self.queue@[k].id })
    }

    /// The engine's global invariant.
    pub open spec fn wf(&self) -> bool {
        &&& self.ledger.wf()
        &&& wf_queue(self.queue@)
        &&& forall|k: int| 0 <= k < self.queue@.len()
            ==> (#[trigger] self.queue@[k]).id < self.next_request_id
        &&& forall|k: int| 0 <= k < self.queue@.len() ==> (#[trigger] self.queue@[k]).wf()
        &&& self.reserved_backed()
        &&& self.inputs_reserved()
    }

    /// Installs the engine with its initial configuration and mode, an empty
    /// ledger and an empty queue.
    pub fn new(args: InitArgs) -> (r: CoreState)
        ensures
            r.wf(),
            r.mode == args.mode,
            r.config.custody_principal == args.custody_principal,
            r.config.custody_key_id == args.custody_key_id,
            r.config.ledger_id == args.ledger_id,
            r.config.retrieve_min_amount == args.retrieve_min_amount,
            r.config.max_time_in_queue == args.max_time_in_queue,
            r.config.min_confirmations == match args.min_confirmations {
                Some(c) => c,
                None => crate::config::DEFAULT_MIN_CONFIRMATIONS,
            },
            r.config.check_fee == match args.check_fee {
                Some(f) => f,
                None => crate::config::DEFAULT_CHECK_FEE,
            },
            r.config.screening_enabled == args.screening_enabled,
            r.config.fee_base == args.fee_base,
            r.config.fee_per_input == args.fee_per_input,
            r.ledger.entries@.len() == 0,
            r.queue@.len() == 0,
            r.next_request_id == 0,
    {
        let config = Config::from_init(&args);
        CoreState {
            config,
            mode: args.mode,
            ledger: UtxoLedger::new(),
            queue: Vec::new(),
            next_request_id: 0,
        }
    }

    /// Applies an upgrade: a monotonic partial configuration update, plus a
    /// mode change when one is given. Custody state is untouched.
    pub fn upgrade(&mut self, args: UpgradeArgs)
        requires
            old(self).wf(),
        ensures
            final(self).wf(),
            final(self).ledger == old(self).ledger,
            final(self).queue == old(self).queue,
            final(self).next_request_id == old(self).next_request_id,
            final(self).config.custody_principal == old(self).config.custody_principal,
            final(self).config.custody_key_id == old(self).config.custody_key_id,
            final(self).config.ledger_id == old(self).config.ledger_id,
            final(self).config.fee_base == old(self).config.fee_base,
            final(self).config.fee_per_input == old(self).config.fee_per_input,
            final(self).config.retrieve_min_amount == match args.retrieve_min_amount {
                Some(v) => v,
                None => old(self).config.retrieve_min_amount,
            },
            final(self).config.min_confirmations == match args.min_confirmations {
                Some(v) => v,
                None => old(self).config.min_confirmations,
            },
            final(self).config.max_time_in_queue == match args.max_time_in_queue {
                Some(v) => v,
                None => old(self).config.max_time_in_queue,
            },
            final(self).config.check_fee == match args.check_fee {
                Some(v) => v,
                None => old(self).config.check_fee,
            },
            final(self).config.screening_enabled == match args.screening_enabled {
                Some(v) => v,
                None => old(self).config.screening_enabled,
            },
            match args.mode {
                Some(m) => final(self).mode == m,
                None => final(self).mode == old(self).mode,
            },
    {
        self.config.apply_upgrade(&args);
        if let Some(m) = args.mode {
            self.mode = m;
        }
    }

    /// The deposit address of a validated identity: pure, deterministic, and
    /// collision-free across identities.
    pub fn get_deposit_address(&self, key: &IdentityKey) -> (r: Address)
        requires
            key.wf(),
        ensures
            r.path@ == spec_derivation_path(self.config.custody_key_id, key.owner, key.subaccount@),
            r.wf(),
    {
        derive_deposit_address(self.config.custody_key_id, key)
    }

    /// Opens a balance update: rejects a self-custody target unconditionally,
    /// then consults the mode gate, then validates the identity. Returns the
    /// validated identity and the deposit address the host must query at the
    /// indexer. Reads only; a rejected call mutates nothing.
    pub fn update_balance_begin(
        &self,
        caller: u64,
        owner: Option<u64>,
        subaccount: Option<Vec<u8>>,
    ) -> (r: Result<(IdentityKey, Address), UpdateBalanceError>)
        ensures
            match r {
                Ok((key, addr)) => {
                    &&& spec_target(caller, owner) != self.config.custody_principal
                    &&& spec_allows_deposits(&self.mode, caller)
                    &&& key.wf()
                    &&& key.owner == spec_target(caller, owner)
                    &&& (match subaccount {
                        Some(s) => key.subaccount@ == s@,
                        None => key.subaccount@ == Seq::new(
                            crate::address::SUB_IDENTITY_LEN as nat,
                            |i: int| 0u8,
                        ),
                    })
                    &&& addr.path@ == spec_derivation_path(
                        self.config.custody_key_id,
                        key.owner,
                        key.subaccount@,
                    )
                },
                Err(e) => match e {
                    UpdateBalanceError::SelfCustody =>
                        spec_target(caller, owner) == self.config.custody_principal,
                    UpdateBalanceError::TemporarilyUnavailable => {
                        &&& spec_target(caller, owner) != self.config.custody_principal
                        &&& !spec_allows_deposits(&self.mode, caller)
                    },
                    UpdateBalanceError::MalformedSubIdentity => {
                        &&& spec_target(caller, owner) != self.config.custody_principal
                        &&& spec_allows_deposits(&self.mode, caller)
                    },
                },
            },
            r is Err <==> (spec_target(caller, owner) == self.config.custody_principal
                || !spec_allows_deposits(&self.mode, caller)
                || (subaccount matches Some(s) && s@.len() != crate::address::SUB_IDENTITY_LEN)),
    {
        let target: u64 = match owner {
            Some(o) => o,
            None => caller,
        };
        if target == self.config.custody_principal {
            return Err(UpdateBalanceError::SelfCustody);
        }
        if !self.mode.allows_deposits(caller) {
            return Err(UpdateBalanceError::TemporarilyUnavailable);
        }
        match IdentityKey::new(target, subaccount) {
            Ok(key) => {
                let addr = derive_deposit_address(self.config.custody_key_id, &key);
                Ok((key, addr))
            }
            Err(_) => Err(UpdateBalanceError::MalformedSubIdentity),
        }
    }

    /// Filters the outputs the indexer returned down to those not yet
    /// recorded; re-polling while confirmations accumulate is expected and
    /// idempotent.
    pub fn new_utxos(&self, discovered: &Vec<Utxo>) -> (r: Vec<Utxo>)
        ensures
            r@ == spec_new_list(self.ledger.entries@, discovered@),
    {
        let mut out: Vec<Utxo> = Vec::new();
        let mut i: usize = 0;
        while i < discovered.len()
            invariant
                i <= discovered@.len(),
                out@ == spec_new_list(self.ledger.entries@, discovered@.subrange(0, i as int)),
            decreases discovered@.len() - i,
        {
            let ghost pre = discovered@.subrange(0, i as int);
            if !self.ledger.has_outpoint(discovered[i].outpoint) {
                out.push(discovered[i]);
            }
            i += 1;
            proof {
                let cur = discovered@.subrange(0, i as int);
                assert(cur.drop_last() =~= pre);
                assert(cur.last() == discovered@[i - 1]);
            }
        }
        proof {
            assert(discovered@.subrange(0, discovered@.len() as int) =~= discovered@);
        }
        out
    }

    /// Records the screener's verdict for a new output: a flagged output is
    /// recorded as tainted — visible, never minted — and a clean one is left
    /// for `mint_begin`. Returns whether a taint record was added.
    pub fn screen_result(&mut self, utxo: Utxo, key: &IdentityKey, clean: bool) -> (r: bool)
        requires
            old(self).wf(),
            key.wf(),
        ensures
            final(self).wf(),
            r == (!clean && !spec_has(old(self).ledger.entries@, utxo.outpoint)),
            r ==> pushed_entry(
                old(self).ledger.entries@,
                final(self).ledger.entries@,
                utxo,
                key.owner,
                key.subaccount@,
                UtxoState::Tainted,
            ),
            r ==> spec_state_of(final(self).ledger.entries@, utxo.outpoint) == UtxoState::Tainted,
            !r ==> final(self).ledger.entries@ == old(self).ledger.entries@,
            final(self).queue == old(self).queue,
            final(self).config == old(self).config,
            final(self).mode == old(self).mode,
            final(self).next_request_id == old(self).next_request_id,
            crate::utxo::spec_credits_preserved(old(self).ledger.entries@, final(self).ledger.entries@),
    {
        if clean {
            return false;
        }
        let sub = crate::utxo::clone_bytes(&key.subaccount);
        let ghost pre = self.ledger.entries@;
        let r = self.ledger.record_tainted(utxo, key.owner, sub);
        proof {
            if r {
                self.lemma_wf_after_nonreserved_push(old(self));
                lemma_states_after_push(pre, self.ledger.entries@, self.ledger.entries@.last());
            }
        }
        r
    }

    /// Re-establishes the global invariant after a push of a non-reserved
    /// entry: the queue is untouched and no reservation changed.
    proof fn lemma_wf_after_nonreserved_push(&self, pre: &CoreState)
        requires
            pre.wf(),
            self.queue == pre.queue,
            self.next_request_id == pre.next_request_id,
            self.ledger.entries@.len() == pre.ledger.entries@.len() + 1,
            forall|i: int| 0 <= i < pre.ledger.entries@.len()
                ==> self.ledger.entries@[i] == pre.ledger.entries@[i],
            !(self.ledger.entries@.last().state is Reserved),
            self.ledger.wf(),
            !spec_has(pre.ledger.entries@, self.ledger.entries@.last().utxo.outpoint),
        ensures
            self.wf(),
    {
        let n = pre.ledger.entries@.len() as int;
        assert forall|i: int| 0 <= i < self.ledger.entries@.len()
            implies match (#[trigger] self.ledger.entries@[i]).state {
                UtxoState::Reserved { request_id } => {
                    &&& spec_req_has(self.queue@, request_id)
                    &&& in_flight(self.queue@[spec_req_index(self.queue@, request_id)].status)
                    &&& self.queue@[spec_req_index(self.queue@, request_id)].inputs@.contains(
                        self.ledger.entries@[i].utxo.outpoint,
                    )
                },
                _ => true,
            } by {
            if i < n {
                assert(self.ledger.entries@[i] == pre.ledger.entries@[i]);
            }
        }
        assert(self.ledger.entries@ =~= pre.ledger.entries@.push(self.ledger.entries@.last()));
        lemma_states_after_push(pre.ledger.entries@, self.ledger.entries@, self.ledger.entries@.last());
        assert forall|k: int, m: int|
            0 <= k < self.queue@.len() && in_flight(self.queue@[k].status)
                && 0 <= m < self.queue@[k].inputs@.len()
                implies spec_has(self.ledger.entries@, #[trigger] self.queue@[k].inputs@[m])
                    && spec_state_of(self.ledger.entries@, self.queue@[k].inputs@[m])
                        == (UtxoState::Reserved { request_id: self.queue@[k].id }) by {
            assert(spec_has(pre.ledger.entries@, self.queue@[k].inputs@[m]));
        }
    }

    /// Decides one discovered output — seen by the indexer at the given
    /// confirmation depth — and, when it is new, confirmed deeply enough,
    /// large enough and unflagged, places the minting-in-progress marker —
    /// synchronously, before the host suspends for the external mint call, so
    /// a re-entrant balance update for the same outpoint observes the marker
    /// and backs off. Only `MintStarted` mutates the ledger.
    pub fn mint_begin(&mut self, utxo: Utxo, key: &IdentityKey, depth: u32) -> (r: DepositOutcome)
        requires
            old(self).wf(),
            key.wf(),
        ensures
            final(self).wf(),
            r == spec_deposit_decision(
                old(self).ledger.entries@,
                old(self).config.check_fee,
                old(self).config.min_confirmations,
                utxo,
                depth,
            ),
            r == DepositOutcome::MintStarted ==> pushed_entry(
                old(self).ledger.entries@,
                final(self).ledger.entries@,
                utxo,
                key.owner,
                key.subaccount@,
                UtxoState::MintPending,
            ),
            r == DepositOutcome::MintStarted ==> spec_state_of(
                final(self).ledger.entries@,
                utxo.outpoint,
            ) == UtxoState::MintPending,
            r != DepositOutcome::MintStarted ==> final(self).ledger.entries@
                == old(self).ledger.entries@,
            final(self).queue == old(self).queue,
            final(self).config == old(self).config,
            final(self).mode == old(self).mode,
            final(self).next_request_id == old(self).next_request_id,
            crate::utxo::spec_credits_preserved(old(self).ledger.entries@, final(self).ledger.entries@),
    {
        match self.ledger.state_of(utxo.outpoint) {
            Some(UtxoState::Tainted) => DepositOutcome::Tainted,
            Some(UtxoState::MintPending) => DepositOutcome::MintInProgress,
            Some(_) => DepositOutcome::AlreadyMinted,
            None => {
                if depth < self.config.min_confirmations {
                    DepositOutcome::NotYetConfirmed
                } else if utxo.value <= self.config.check_fee {
                    DepositOutcome::ValueTooSmall
                } else {
                    let sub = crate::utxo::clone_bytes(&key.subaccount);
                    let ghost pre = self.ledger.entries@;
                    let placed = self.ledger.record_pending(utxo, key.owner, sub);
                    assert(placed);
                    proof {
                        self.lemma_wf_after_nonreserved_push(old(self));
                        lemma_states_after_push(pre, self.ledger.entries@, self.ledger.entries@.last());
                    }
                    DepositOutcome::MintStarted
                }
            }
        }
    }

    /// Finalizes a successful mint: the marker placed by `mint_begin` becomes
    /// a credited, free output. Returns whether the marker was found.
    pub fn mint_finalize(&mut self, op: OutPoint) -> (r: bool)
        requires
            old(self).wf(),
        ensures
            final(self).wf(),
            r == (spec_has(old(self).ledger.entries@, op)
                && spec_state_of(old(self).ledger.entries@, op) == UtxoState::MintPending),
            r ==> spec_state_of(final(self).ledger.entries@, op) == UtxoState::Free,
            r ==> final(self).ledger.entries@ == old(self).ledger.entries@.update(
                spec_index_of(old(self).ledger.entries@, op),
                LedgerEntry {
                    state: UtxoState::Free,
                    ..old(self).ledger.entries@[spec_index_of(old(self).ledger.entries@, op)]
                },
            ),
            !r ==> final(self).ledger.entries@ == old(self).ledger.entries@,
            final(self).queue == old(self).queue,
            final(self).config == old(self).config,
            final(self).mode == old(self).mode,
            final(self).next_request_id == old(self).next_request_id,
            crate::utxo::spec_credits_preserved(old(self).ledger.entries@, final(self).ledger.entries@),
    {
        let ghost pre = self.ledger.entries@;
        let r = self.ledger.finalize_credit(op);
        proof {
            if r {
                let i = spec_index_of(pre, op);
                lemma_states_after_update(pre, self.ledger.entries@, i, UtxoState::Free);
                self.lemma_wf_after_state_update(old(self), i, UtxoState::Free);
            }
        }
        r
    }

    /// Withdraws the marker after the external mint call failed cleanly, so a
    /// later balance update may try the output again. Returns whether the
    /// marker was found.
    pub fn mint_abort(&mut self, op: OutPoint) -> (r: bool)
        requires
            old(self).wf(),
        ensures
            final(self).wf(),
            r == (spec_has(old(self).ledger.entries@, op)
                && spec_state_of(old(self).ledger.entries@, op) == UtxoState::MintPending),
            r ==> final(self).ledger.entries@ == old(self).ledger.entries@.remove(
                spec_index_of(old(self).ledger.entries@, op),
            ),
            r ==> !spec_has(final(self).ledger.entries@, op),
            !r ==> final(self).ledger.entries@ == old(self).ledger.entries@,
            final(self).queue == old(self).queue,
            final(self).config == old(self).config,
            final(self).mode == old(self).mode,
            final(self).next_request_id == old(self).next_request_id,
            crate::utxo::spec_credits_preserved(old(self).ledger.entries@, final(self).ledger.entries@),
    {
        let ghost pre = self.ledger.entries@;
        let r = self.ledger.abort_pending(op);
        proof {
            if r {
                let i = spec_index_of(pre, op);
                lemma_states_after_remove(pre, self.ledger.entries@, i);
                assert forall|ii: int| 0 <= ii < self.ledger.entries@.len()
                    implies match (#[trigger] self.ledger.entries@[ii]).state {
                        UtxoState::Reserved { request_id } => {
                            &&& spec_req_has(self.queue@, request_id)
                            &&& in_flight(self.queue@[spec_req_index(self.queue@, request_id)].status)
                            &&& self.queue@[spec_req_index(self.queue@, request_id)].inputs@.contains(
                                self.ledger.entries@[ii].utxo.outpoint,
                            )
                        },
                        _ => true,
                    } by {
                    let i0 = if ii < i { ii } else { ii + 1 };
                    assert(self.ledger.entries@[ii] == pre[i0]);
                }
                assert forall|k: int, m: int|
                    0 <= k < self.queue@.len() && in_flight(self.queue@[k].status)
                        && 0 <= m < self.queue@[k].inputs@.len()
                        implies spec_has(self.ledger.entries@, #[trigger] self.queue@[k].inputs@[m])
                            && spec_state_of(self.ledger.entries@, self.queue@[k].inputs@[m])
                                == (UtxoState::Reserved { request_id: self.queue@[k].id }) by {
                    assert(spec_has(pre, self.queue@[k].inputs@[m]));
                    assert(spec_state_of(pre, self.queue@[k].inputs@[m])
                        == (UtxoState::Reserved { request_id: self.queue@[k].id }));
                    if self.queue@[k].inputs@[m] == pre[i].utxo.outpoint {
                        crate::utxo::lemma_index_unique(pre, self.queue@[k].inputs@[m], i);
                        assert(false);
                    }
                }
            }
        }
        r
    }

    /// Re-establishes the global invariant after one entry's state changed to
    /// a non-reserved state from a non-reserved state, with the queue
    /// untouched.
    proof fn lemma_wf_after_state_update(&self, pre: &CoreState, i: int, state: UtxoState)
        requires
            pre.wf(),
            self.queue == pre.queue,
            self.next_request_id == pre.next_request_id,
            0 <= i < pre.ledger.entries@.len(),
            self.ledger.entries@ == pre.ledger.entries@.update(
                i,
                LedgerEntry { state, ..pre.ledger.entries@[i] },
            ),
            !(state is Reserved),
            !(pre.ledger.entries@[i].state is Reserved),
            self.ledger.wf(),
        ensures
            self.wf(),
    {
        lemma_states_after_update(pre.ledger.entries@, self.ledger.entries@, i, state);
        assert forall|ii: int| 0 <= ii < self.ledger.entries@.len()
            implies match (#[trigger] self.ledger.entries@[ii]).state {
                UtxoState::Reserved { request_id } => {
                    &&& spec_req_has(self.queue@, request_id)
                    &&& in_flight(self.queue@[spec_req_index(self.queue@, request_id)].status)
                    &&& self.queue@[spec_req_index(self.queue@, request_id)].inputs@.contains(
                        self.ledger.entries@[ii].utxo.outpoint,
                    )
                },
                _ => true,
            } by {
            if ii != i {
                assert(self.ledger.entries@[ii] == pre.ledger.entries@[ii]);
            }
        }
        assert forall|k: int, m: int|
            0 <= k < self.queue@.len() && in_flight(self.queue@[k].status)
                && 0 <= m < self.queue@[k].inputs@.len()
                implies spec_has(self.ledger.entries@, #[trigger] self.queue@[k].inputs@[m])
                    && spec_state_of(self.ledger.entries@, self.queue@[k].inputs@[m])
                        == (UtxoState::Reserved { request_id: self.queue@[k].id }) by {
            assert(spec_has(pre.ledger.entries@, self.queue@[k].inputs@[m]));
            assert(spec_state_of(pre.ledger.entries@, self.queue@[k].inputs@[m])
                == (UtxoState::Reserved { request_id: self.queue@[k].id }));
            if self.queue@[k].inputs@[m] == pre.ledger.entries@[i].utxo.outpoint {
                assert(pre.ledger.entries@[i].state is Reserved) by {
                    crate::utxo::lemma_index_unique(
                        pre.ledger.entries@,
                        self.queue@[k].inputs@[m],
                        i,
                    );
                }
                assert(false);
            }
        }
    }
}

/// Rejections of a retrieval.
#[derive(Clone, Copy, PartialEq, Eq, Structural, Debug)]
pub enum RetrieveError {
    /// The mode gate is closed for this caller; retry later.
    TemporarilyUnavailable,
    /// The requested amount is below the configured minimum (or zero), or —
    /// at selection time — cannot cover the transaction fee of the coins that
    /// would pay it; in the latter case the escrow is refunded.
    AmountTooLow { min_amount: u64 },
    /// The destination is not a plausible chain address.
    MalformedAddress,
    /// A live request of this caller already carries this idempotency key.
    AlreadyProcessing,
    /// The free pool cannot cover the amount; the escrow is refunded.
    InsufficientFunds,
    /// An unexpected internal condition; the escrow stays safe.
    GenericError,
}

/// A plausible destination address: a script of 20 to 64 bytes.
pub open spec fn spec_valid_destination(d: Seq<u8>) -> bool {
    20 <= d.len() <= 64
}

/// The first rejection a retrieval hits, or `None` when it may proceed:
/// the mode gate, then the minimum amount, then the address shape, then the
/// idempotency key.
pub open spec fn spec_retrieve_error(
    s: &CoreState,
    caller: u64,
    dest: Seq<u8>,
    amount: u64,
    idem_key: u64,
) -> Option<RetrieveError> {
    if !spec_allows_withdrawals(&s.mode, caller) {
        Some(RetrieveError::TemporarilyUnavailable)
    } else if amount < s.config.retrieve_min_amount || amount == 0 {
        Some(RetrieveError::AmountTooLow { min_amount: s.config.retrieve_min_amount })
    } else if !spec_valid_destination(dest) {
        Some(RetrieveError::MalformedAddress)
    } else if spec_duplicate(s.queue@, caller, idem_key) {
        Some(RetrieveError::AlreadyProcessing)
    } else {
        None
    }
}

/// The estimator's transaction fee for a selection of `n` inputs.
pub open spec fn spec_fee(c: Config, n: int) -> int {
    c.fee_base + c.fee_per_input * n
}

/// Total value the recorded entries hold for the listed outpoints.
pub open spec fn spec_inputs_total(entries: Seq<LedgerEntry>, ops: Seq<OutPoint>) -> int
    decreases ops.len(),
{
    if ops.len() == 0 {
        0
    } else {
        spec_inputs_total(entries, ops.drop_last())
            + entries[spec_index_of(entries, ops.last())].utxo.value
    }
}

/// When each listed outpoint is the outpoint of the paired output and the
/// ledger records that output, the recorded total equals the outputs' total.
proof fn lemma_inputs_total_matches(entries: Seq<LedgerEntry>, ops: Seq<OutPoint>, sel: Seq<Utxo>)
    requires
        ops.len() == sel.len(),
        forall|i: int| 0 <= i < ops.len()
            ==> #[trigger] ops[i] == sel[i].outpoint
                && spec_has(entries, sel[i].outpoint)
                && entries[spec_index_of(entries, sel[i].outpoint)].utxo == sel[i],
    ensures
        spec_inputs_total(entries, ops) == crate::utxo::spec_total(sel),
    decreases ops.len(),
{
    if ops.len() > 0 {
        lemma_inputs_total_matches(entries, ops.drop_last(), sel.drop_last());
        assert(ops.last() == sel.last().outpoint);
        assert(entries[spec_index_of(entries, ops.last())].utxo == sel.last());
    }
}

impl CoreState {
    pub(crate) fn find_request(&self, id: u64) -> (r: Option<usize>)
        requires
            wf_queue(self.queue@),
        ensures
            match r {
                Some(k) => k < self.queue@.len() && self.queue@[k as int].id == id
                    && spec_req_has(self.queue@, id)
                    && spec_req_index(self.queue@, id) == k,
                None => !spec_req_has(self.queue@, id),
            },
    {
        let mut k: usize = 0;
        while k < self.queue.len()
            invariant
                wf_queue(self.queue@),
                k <= self.queue@.len(),
                forall|j: int| 0 <= j < k ==> self.queue@[j].id != id,
            decreases self.queue@.len() - k,
        {
            if self.queue[k].id == id {
                proof {
                    crate::withdrawal::lemma_req_index_unique(self.queue@, id, k as int);
                }
                return Some(k);
            }
            k += 1;
        }
        None
    }

    fn is_duplicate(&self, caller: u64, idem_key: u64) -> (r: bool)
        ensures
            r == spec_duplicate(self.queue@, caller, idem_key),
    {
        let mut k: usize = 0;
        while k < self.queue.len()
            invariant
                k <= self.queue@.len(),
                forall|j: int| 0 <= j < k
                    ==> !(self.queue@[j].caller == caller && self.queue@[j].idem_key == idem_key
                        && live(#[trigger] self.queue@[j].status)),
            decreases self.queue@.len() - k,
        {
            if self.queue[k].caller == caller && self.queue[k].idem_key == idem_key
                && !(self.queue[k].status == WithdrawalStatus::Confirmed) {
                return true;
            }
            k += 1;
        }
        false
    }

    fn retrieve_check(&self, caller: u64, dest: &Vec<u8>, amount: u64, idem_key: u64)
        -> (r: Option<RetrieveError>)
        ensures
            r == spec_retrieve_error(self, caller, dest@, amount, idem_key),
    {
        if !self.mode.allows_withdrawals(caller) {
            Some(RetrieveError::TemporarilyUnavailable)
        } else if amount < self.config.retrieve_min_amount || amount == 0 {
            Some(RetrieveError::AmountTooLow { min_amount: self.config.retrieve_min_amount })
        } else if dest.len() < 20 || dest.len() > 64 {
            Some(RetrieveError::MalformedAddress)
        } else if self.is_duplicate(caller, idem_key) {
            Some(RetrieveError::AlreadyProcessing)
        } else {
            None
        }
    }

    /// Opens a retrieval: validates the call without touching any state and
    /// names the amount the host must burn/escrow at the ledger collaborator.
    /// A request abandoned at this point has no side effects.
    pub fn retrieve_begin(&self, caller: u64, dest: &Vec<u8>, amount: u64, idem_key: u64)
        -> (r: Result<u64, RetrieveError>)
        ensures
            match spec_retrieve_error(self, caller, dest@, amount, idem_key) {
                Some(e) => r == Err::<u64, RetrieveError>(e),
                None => r == Ok::<u64, RetrieveError>(amount),
            },
    {
        match self.retrieve_check(caller, dest, amount, idem_key) {
            Some(e) => Err(e),
            None => Ok(amount),
        }
    }

    /// Accepts a retrieval whose burn/escrow succeeded: re-validates the call
    /// and queues the request, with its escrow block recorded and no outputs
    /// chosen yet. Once accepted, the request cannot be cancelled. On a
    /// rejection nothing changes and the host must refund the escrow.
    pub fn retrieve_accept(
        &mut self,
        caller: u64,
        destination: Vec<u8>,
        amount: u64,
        idem_key: u64,
        escrow_block: u64,
        now: u64,
    ) -> (r: Result<u64, RetrieveError>)
        requires
            old(self).wf(),
        ensures
            final(self).wf(),
            match r {
                Ok(id) => {
                    &&& spec_retrieve_error(old(self), caller, destination@, amount, idem_key) is None
                    &&& old(self).next_request_id < u64::MAX
                    &&& id == old(self).next_request_id
                    &&& final(self).next_request_id == old(self).next_request_id + 1
                    &&& final(self).queue@.len() == old(self).queue@.len() + 1
                    &&& (forall|j: int| 0 <= j < old(self).queue@.len()
                        ==> final(self).queue@[j] == old(self).queue@[j])
                    &&& accepted_request(
                        final(self).queue@.last(),
                        id,
                        caller,
                        idem_key,
                        destination@,
                        amount,
                        escrow_block,
                        now,
                    )
                },
                Err(e) => {
                    &&& *final(self) == *old(self)
                    &&& (match spec_retrieve_error(old(self), caller, destination@, amount, idem_key) {
                        Some(e0) => e == e0,
                        None => e == RetrieveError::GenericError
                            && old(self).next_request_id == u64::MAX,
                    })
                },
            },
            final(self).ledger == old(self).ledger,
            final(self).config == old(self).config,
            final(self).mode == old(self).mode,
    {
        if let Some(e) = self.retrieve_check(caller, &destination, amount, idem_key) {
            return Err(e);
        }
        if self.next_request_id == u64::MAX {
            return Err(RetrieveError::GenericError);
        }
        let id = self.next_request_id;
        self.next_request_id = id + 1;
        let ghost preq = self.queue@;
        let req = WithdrawalRequest {
            id,
            caller,
            idem_key,
            destination,
            amount,
            escrow_block,
            requested_at: now,
            inputs: Vec::<OutPoint>::new(),
            fee: 0,
            change: 0,
            txid: None,
            submitted_at: None,
            status: WithdrawalStatus::Pending,
        };
        self.queue.push(req);
        proof {
            assert(!spec_req_has(preq, id));
            crate::withdrawal::lemma_queue_push(preq, self.queue@, self.queue@.last());
            assert forall|i: int| 0 <= i < self.ledger.entries@.len()
                implies match (#[trigger] self.ledger.entries@[i]).state {
                    UtxoState::Reserved { request_id } => {
                        &&& spec_req_has(self.queue@, request_id)
                        &&& in_flight(self.queue@[spec_req_index(self.queue@, request_id)].status)
                        &&& self.queue@[spec_req_index(self.queue@, request_id)].inputs@.contains(
                            self.ledger.entries@[i].utxo.outpoint,
                        )
                    },
                    _ => true,
                } by {
                match self.ledger.entries@[i].state {
                    UtxoState::Reserved { request_id } => {
                        assert(spec_req_has(preq, request_id));
                    }
                    _ => {}
                }
            }
            assert forall|k: int, m: int|
                0 <= k < self.queue@.len() && in_flight(self.queue@[k].status)
                    && 0 <= m < self.queue@[k].inputs@.len()
                    implies spec_has(self.ledger.entries@, #[trigger] self.queue@[k].inputs@[m])
                        && spec_state_of(self.ledger.entries@, self.queue@[k].inputs@[m])
                            == (UtxoState::Reserved { request_id: self.queue@[k].id }) by {
                assert(k < preq.len());
                assert(self.queue@[k] == preq[k]);
            }
        }
        Ok(id)
    }
}

fn req_at_mut(v: &mut Vec<WithdrawalRequest>, k: usize) -> (e: &mut WithdrawalRequest)
    requires
        k < old(v)@.len(),
    ensures
        *e == old(v)@[k as int],
        final(v)@ == old(v)@.update(k as int, *final(e)),
{
    &mut v[k]
}

/// Totals never shrink as a list grows.
proof fn lemma_total_prefix(s: Seq<Utxo>, i: int)
    requires
        0 <= i <= s.len(),
    ensures
        crate::utxo::spec_total(s.subrange(0, i)) <= crate::utxo::spec_total(s),
    decreases s.len(),
{
    if i < s.len() {
        let t = s.drop_last();
        assert(s.subrange(0, i) =~= t.subrange(0, i));
        lemma_total_prefix(t, i);
        assert(crate::utxo::spec_total(s) == crate::utxo::spec_total(t) + s.last().value);
    } else {
        assert(s.subrange(0, i) =~= s);
    }
}

impl CoreState {
    /// Chooses and reserves the coins of an accepted, still-pending request:
    /// deterministic greedy selection over the free pool, the fee laid on the
    /// recipient, the leftover as change back to custody. The outputs move to
    /// reserved and the request to selected atomically, before the host
    /// suspends for signing, so no racing retrieval can select the same coin.
    /// When the free pool cannot cover the amount, or the amount cannot even
    /// cover the transaction fee, the request is dropped from the queue and
    /// the host must refund the escrow. Success is owed exactly when a
    /// pending request with this id exists, the greedy selection over the
    /// free pool covers its amount, and that selection's fee stays below the
    /// amount.
    pub fn select_pending(&mut self, id: u64) -> (r: Result<(), RetrieveError>)
        requires
            old(self).wf(),
        ensures
            final(self).wf(),
            final(self).config == old(self).config,
            final(self).mode == old(self).mode,
            final(self).next_request_id == old(self).next_request_id,
            crate::utxo::spec_credits_preserved(old(self).ledger.entries@, final(self).ledger.entries@),
            r is Ok <==> ({
                let k = spec_req_index(old(self).queue@, id);
                let g = crate::selection::spec_greedy(
                    spec_free_list(old(self).ledger.entries@),
                    old(self).queue@[k].amount as int,
                );
                &&& spec_req_has(old(self).queue@, id)
                &&& old(self).queue@[k].status is Pending
                &&& g is Some
                &&& spec_fee(old(self).config, g->0.len() as int) < old(self).queue@[k].amount
            }),
            match r {
                Ok(()) => {
                    let k = spec_req_index(old(self).queue@, id);
                    let req = final(self).queue@[k];
                    let gsel = crate::selection::spec_greedy(
                        spec_free_list(old(self).ledger.entries@),
                        old(self).queue@[k].amount as int,
                    )->0;
                    &&& spec_req_has(old(self).queue@, id)
                    &&& old(self).queue@[k].status is Pending
                    &&& req.inputs@.len() == gsel.len()
                    &&& (forall|m: int| 0 <= m < gsel.len()
                        ==> #[trigger] req.inputs@[m] == gsel[m].outpoint)
                    &&& final(self).queue@.len() == old(self).queue@.len()
                    &&& (forall|j: int| 0 <= j < old(self).queue@.len() && j != k
                        ==> final(self).queue@[j] == old(self).queue@[j])
                    &&& req.id == id
                    &&& req.caller == old(self).queue@[k].caller
                    &&& req.idem_key == old(self).queue@[k].idem_key
                    &&& req.destination == old(self).queue@[k].destination
                    &&& req.amount == old(self).queue@[k].amount
                    &&& req.escrow_block == old(self).queue@[k].escrow_block
                    &&& req.requested_at == old(self).queue@[k].requested_at
                    &&& req.status is Selected
                    &&& req.inputs@.len() > 0
                    &&& req.fee == old(self).config.fee_base
                        + old(self).config.fee_per_input * req.inputs@.len()
                    &&& req.fee < req.amount
                    &&& spec_inputs_total(old(self).ledger.entries@, req.inputs@)
                        == req.amount + req.change
                    &&& crate::utxo::spec_all_in_state(
                        old(self).ledger.entries@,
                        req.inputs@,
                        UtxoState::Free,
                    )
                    &&& crate::utxo::spec_batch_moved(
                        old(self).ledger.entries@,
                        final(self).ledger.entries@,
                        req.inputs@,
                        UtxoState::Reserved { request_id: id },
                    )
                },
                Err(RetrieveError::InsufficientFunds) => {
                    let k = spec_req_index(old(self).queue@, id);
                    &&& spec_req_has(old(self).queue@, id)
                    &&& old(self).queue@[k].status is Pending
                    &&& final(self).queue@ == old(self).queue@.remove(k)
                    &&& final(self).ledger == old(self).ledger
                    &&& crate::utxo::spec_total(spec_free_list(old(self).ledger.entries@))
                        < old(self).queue@[k].amount
                    &&& crate::selection::spec_greedy(
                        spec_free_list(old(self).ledger.entries@),
                        old(self).queue@[k].amount as int,
                    ) is None
                },
                Err(RetrieveError::AmountTooLow { min_amount }) => {
                    let k = spec_req_index(old(self).queue@, id);
                    let g = crate::selection::spec_greedy(
                        spec_free_list(old(self).ledger.entries@),
                        old(self).queue@[k].amount as int,
                    );
                    &&& spec_req_has(old(self).queue@, id)
                    &&& old(self).queue@[k].status is Pending
                    &&& final(self).queue@ == old(self).queue@.remove(k)
                    &&& final(self).ledger == old(self).ledger
                    &&& min_amount == old(self).config.retrieve_min_amount
                    &&& g is Some
                    &&& spec_fee(old(self).config, g->0.len() as int)
                        >= old(self).queue@[k].amount
                },
                Err(RetrieveError::GenericError) => {
                    &&& *final(self) == *old(self)
                    &&& !(spec_req_has(old(self).queue@, id)
                        && old(self).queue@[spec_req_index(old(self).queue@, id)].status is Pending)
                },
                Err(_) => false,
            },
    {
        let k = match self.find_request(id) {
            Some(k) => k,
            None => {
                return Err(RetrieveError::GenericError);
            }
        };
        if !(self.queue[k].status == WithdrawalStatus::Pending) {
            return Err(RetrieveError::GenericError);
        }
        let amount = self.queue[k].amount;
        let candidates = self.ledger.free_utxos();
        proof {
            crate::utxo::lemma_free_list_props(self.ledger.entries@);
        }
        let sel = match crate::selection::greedy_select(&candidates, amount) {
            Some(sel) => sel,
            None => {
                self.remove_request(k);
                return Err(RetrieveError::InsufficientFunds);
            }
        };
        let n: u64 = sel.len() as u64;
        let fee = match self.config.fee_per_input.checked_mul(n) {
            Some(per) => match self.config.fee_base.checked_add(per) {
                Some(fee) => fee,
                None => {
                    self.remove_request(k);
                    return Err(RetrieveError::AmountTooLow {
                        min_amount: self.config.retrieve_min_amount,
                    });
                }
            },
            None => {
                self.remove_request(k);
                return Err(RetrieveError::AmountTooLow {
                    min_amount: self.config.retrieve_min_amount,
                });
            }
        };
        if fee >= amount {
            self.remove_request(k);
            return Err(RetrieveError::AmountTooLow {
                min_amount: self.config.retrieve_min_amount,
            });
        }
        // The selection covers the amount, so it is not empty and its
        // overshoot is bounded by its last output's value.
        assert(sel@.len() > 0);
        let mut total: u128 = 0;
        let mut i: usize = 0;
        while i < sel.len()
            invariant
                i <= sel@.len(),
                total as int == crate::utxo::spec_total(sel@.subrange(0, i as int)),
                crate::utxo::spec_total(sel@) < amount + 0x1_0000_0000_0000_0000,
                total as int <= crate::utxo::spec_total(sel@),
                amount <= crate::utxo::spec_total(sel@),
            decreases sel@.len() - i,
        {
            let ghost pre = sel@.subrange(0, i as int);
            total = total + (sel[i].value as u128);
            i += 1;
            proof {
                let cur = sel@.subrange(0, i as int);
                assert(cur.drop_last() =~= pre);
                assert(cur.last() == sel@[i - 1]);
                lemma_total_prefix(sel@, i as int);
            }
        }
        proof {
            assert(sel@.subrange(0, sel@.len() as int) =~= sel@);
        }
        let change: u64 = ((total - (amount as u128)) as u64);
        let mut ops: Vec<OutPoint> = Vec::new();
        let mut i: usize = 0;
        while i < sel.len()
            invariant
                i <= sel@.len(),
                ops@.len() == i,
                forall|j: int| 0 <= j < i ==> ops@[j] == sel@[j].outpoint,
            decreases sel@.len() - i,
        {
            ops.push(sel[i].outpoint);
            i += 1;
        }
        let ghost ops_view = ops@;
        let ghost e0 = self.ledger.entries@;
        proof {
            assert forall|m: int| 0 <= m < ops_view.len()
                implies spec_has(e0, #[trigger] ops_view[m])
                    && spec_state_of(e0, ops_view[m]) == UtxoState::Free
                    && e0[spec_index_of(e0, ops_view[m])].utxo == sel@[m] by {
                assert(candidates@.contains(sel@[m]));
                let j = choose|j: int| 0 <= j < candidates@.len() && candidates@[j] == sel@[m];
                assert(candidates@[j] == sel@[m]);
                assert(spec_has(e0, candidates@[j].outpoint));
            }
            assert(crate::utxo::distinct_ops(ops_view)) by {
                assert forall|a: int, b: int|
                    0 <= a < ops_view.len() && 0 <= b < ops_view.len() && a != b
                        implies ops_view[a] != ops_view[b] by {
                    assert(ops_view[a] == sel@[a].outpoint && ops_view[b] == sel@[b].outpoint);
                }
            }
            lemma_inputs_total_matches(e0, ops_view, sel@);
        }
        let reserved = self.ledger.reserve_all(&ops, id);
        assert(reserved);
        let ghost e1 = self.ledger.entries@;
        let ghost q0 = self.queue@;
        let rq = req_at_mut(&mut self.queue, k);
        rq.inputs = ops;
        rq.fee = fee;
        rq.change = change;
        rq.status = WithdrawalStatus::Selected;
        proof {
            let ki = k as int;
            crate::utxo::lemma_states_after_batch(
                e0,
                e1,
                ops_view,
                UtxoState::Reserved { request_id: id },
            );
            crate::withdrawal::lemma_queue_update(q0, self.queue@, ki);
            assert forall|ii: int| 0 <= ii < self.ledger.entries@.len()
                implies match (#[trigger] self.ledger.entries@[ii]).state {
                    UtxoState::Reserved { request_id } => {
                        &&& spec_req_has(self.queue@, request_id)
                        &&& in_flight(self.queue@[spec_req_index(self.queue@, request_id)].status)
                        &&& self.queue@[spec_req_index(self.queue@, request_id)].inputs@.contains(
                            self.ledger.entries@[ii].utxo.outpoint,
                        )
                    },
                    _ => true,
                } by {
                if ops_view.contains(e0[ii].utxo.outpoint) {
                    assert(self.ledger.entries@[ii] == LedgerEntry {
                        state: UtxoState::Reserved { request_id: id },
                        ..e0[ii]
                    });
                    assert(self.queue@[ki].id == id);
                    assert(spec_req_index(self.queue@, id) == ki);
                    assert(self.queue@[ki].inputs@.contains(self.ledger.entries@[ii].utxo.outpoint));
                } else {
                    assert(self.ledger.entries@[ii] == e0[ii]);
                    match e0[ii].state {
                        UtxoState::Reserved { request_id } => {
                            let idx0 = spec_req_index(q0, request_id);
                            assert(spec_req_has(q0, request_id) && in_flight(q0[idx0].status));
                            assert(idx0 != ki);
                            assert(self.queue@[idx0] == q0[idx0]);
                            assert(spec_req_index(self.queue@, request_id) == idx0);
                        }
                        _ => {}
                    }
                }
            }
            assert forall|kk: int, m: int|
                0 <= kk < self.queue@.len() && in_flight(self.queue@[kk].status)
                    && 0 <= m < self.queue@[kk].inputs@.len()
                    implies spec_has(self.ledger.entries@, #[trigger] self.queue@[kk].inputs@[m])
                        && spec_state_of(self.ledger.entries@, self.queue@[kk].inputs@[m])
                            == (UtxoState::Reserved { request_id: self.queue@[kk].id }) by {
                if kk == ki {
                    let op = self.queue@[kk].inputs@[m];
                    assert(op == ops_view[m]);
                    assert(ops_view.contains(op));
                    assert(spec_has(e0, op));
                } else {
                    assert(self.queue@[kk] == q0[kk]);
                    let op = self.queue@[kk].inputs@[m];
                    assert(spec_has(e0, op));
                    assert(spec_state_of(e0, op)
                        == (UtxoState::Reserved { request_id: q0[kk].id }));
                    if ops_view.contains(op) {
                        assert(spec_state_of(e0, op) == UtxoState::Free);
                        assert(false);
                    }
                }
            }
        }
        Ok(())
    }

    /// Drops a queued request; used when selection fails and the escrow is to
    /// be refunded.
    fn remove_request(&mut self, k: usize)
        requires
            old(self).wf(),
            k < old(self).queue@.len(),
            old(self).queue@[k as int].status is Pending,
        ensures
            final(self).wf(),
            final(self).queue@ == old(self).queue@.remove(k as int),
            final(self).ledger == old(self).ledger,
            final(self).config == old(self).config,
            final(self).mode == old(self).mode,
            final(self).next_request_id == old(self).next_request_id,
    {
        let ghost q0 = self.queue@;
        self.queue.remove(k);
        proof {
            let ki = k as int;
            crate::withdrawal::lemma_queue_remove(q0, self.queue@, ki);
            assert forall|ii: int| 0 <= ii < self.ledger.entries@.len()
                implies match (#[trigger] self.ledger.entries@[ii]).state {
                    UtxoState::Reserved { request_id } => {
                        &&& spec_req_has(self.queue@, request_id)
                        &&& in_flight(self.queue@[spec_req_index(self.queue@, request_id)].status)
                        &&& self.queue@[spec_req_index(self.queue@, request_id)].inputs@.contains(
                            self.ledger.entries@[ii].utxo.outpoint,
                        )
                    },
                    _ => true,
                } by {
                match self.ledger.entries@[ii].state {
                    UtxoState::Reserved { request_id } => {
                        let idx0 = spec_req_index(q0, request_id);
                        assert(spec_req_has(q0, request_id) && in_flight(q0[idx0].status));
                        assert(request_id != q0[ki].id) by {
                            if request_id == q0[ki].id {
                                crate::withdrawal::lemma_req_index_unique(q0, request_id, ki);
                                assert(in_flight(q0[ki].status));
                            }
                        }
                        assert(self.queue@[spec_req_index(self.queue@, request_id)] == q0[idx0]);
                    }
                    _ => {}
                }
            }
            assert forall|kk: int, m: int|
                0 <= kk < self.queue@.len() && in_flight(self.queue@[kk].status)
                    && 0 <= m < self.queue@[kk].inputs@.len()
                    implies spec_has(self.ledger.entries@, #[trigger] self.queue@[kk].inputs@[m])
                        && spec_state_of(self.ledger.entries@, self.queue@[kk].inputs@[m])
                            == (UtxoState::Reserved { request_id: self.queue@[kk].id }) by {
                let kk0 = if kk < ki { kk } else { kk + 1 };
                assert(self.queue@[kk] == q0[kk0]);
            }
        }
    }
}

impl CoreState {
    /// Re-establishes the global invariant after one request was replaced by
    /// another with the same id and inputs whose in-flight standing did not
    /// change, with the ledger untouched.
    proof fn lemma_wf_after_request_update(&self, pre: &CoreState, k: int)
        requires
            pre.wf(),
            self.ledger == pre.ledger,
            self.next_request_id == pre.next_request_id,
            0 <= k < pre.queue@.len(),
            self.queue@.len() == pre.queue@.len(),
            forall|j: int| 0 <= j < pre.queue@.len() && j != k ==> self.queue@[j] == pre.queue@[j],
            self.queue@[k].id == pre.queue@[k].id,
            self.queue@[k].inputs == pre.queue@[k].inputs,
            in_flight(self.queue@[k].status) == in_flight(pre.queue@[k].status),
            self.queue@[k].wf(),
        ensures
            self.wf(),
    {
        let q0 = pre.queue@;
        crate::withdrawal::lemma_queue_update(q0, self.queue@, k);
        assert forall|ii: int| 0 <= ii < self.ledger.entries@.len()
            implies match (#[trigger] self.ledger.entries@[ii]).state {
                UtxoState::Reserved { request_id } => {
                    &&& spec_req_has(self.queue@, request_id)
                    &&& in_flight(self.queue@[spec_req_index(self.queue@, request_id)].status)
                    &&& self.queue@[spec_req_index(self.queue@, request_id)].inputs@.contains(
                        self.ledger.entries@[ii].utxo.outpoint,
                    )
                },
                _ => true,
            } by {
            match self.ledger.entries@[ii].state {
                UtxoState::Reserved { request_id } => {
                    let idx0 = spec_req_index(q0, request_id);
                    assert(spec_req_has(q0, request_id) && in_flight(q0[idx0].status));
                    assert(spec_req_index(self.queue@, request_id) == idx0);
                    if idx0 != k {
                        assert(self.queue@[idx0] == q0[idx0]);
                    }
                }
                _ => {}
            }
        }
        assert forall|kk: int, m: int|
            0 <= kk < self.queue@.len() && in_flight(self.queue@[kk].status)
                && 0 <= m < self.queue@[kk].inputs@.len()
                implies spec_has(self.ledger.entries@, #[trigger] self.queue@[kk].inputs@[m])
                    && spec_state_of(self.ledger.entries@, self.queue@[kk].inputs@[m])
                        == (UtxoState::Reserved { request_id: self.queue@[kk].id }) by {
            if kk != k {
                assert(self.queue@[kk] == pre.queue@[kk]);
            } else {
                assert(self.queue@[kk].inputs@ == pre.queue@[kk].inputs@);
                assert(in_flight(pre.queue@[kk].status));
            }
        }
    }

    /// Marks a selected request as waiting on the threshold signer; the host
    /// calls this before suspending for the signing request.
    pub fn mark_signing(&mut self, id: u64) -> (r: bool)
        requires
            old(self).wf(),
        ensures
            final(self).wf(),
            r == (spec_req_has(old(self).queue@, id)
                && old(self).queue@[spec_req_index(old(self).queue@, id)].status is Selected),
            r ==> final(self).queue@ == old(self).queue@.update(
                spec_req_index(old(self).queue@, id),
                WithdrawalRequest {
                    status: WithdrawalStatus::SigningInFlight,
                    ..old(self).queue@[spec_req_index(old(self).queue@, id)]
                },
            ),
            !r ==> *final(self) == *old(self),
            final(self).ledger == old(self).ledger,
            final(self).config == old(self).config,
            final(self).mode == old(self).mode,
            final(self).next_request_id == old(self).next_request_id,
    {
        let k = match self.find_request(id) {
            Some(k) => k,
            None => {
                return false;
            }
        };
        if !(self.queue[k].status == WithdrawalStatus::Selected) {
            return false;
        }
        let rq = req_at_mut(&mut self.queue, k);
        rq.status = WithdrawalStatus::SigningInFlight;
        proof {
            self.lemma_wf_after_request_update(old(self), k as int);
        }
        true
    }

    /// Records the broadcast of the signed transaction: the request enters
    /// `Submitted` under its transaction id at the given logical time.
    pub fn mark_submitted(&mut self, id: u64, txid: u64, now: u64) -> (r: bool)
        requires
            old(self).wf(),
        ensures
            final(self).wf(),
            r == (spec_req_has(old(self).queue@, id)
                && old(self).queue@[spec_req_index(old(self).queue@, id)].status is SigningInFlight),
            r ==> final(self).queue@ == old(self).queue@.update(
                spec_req_index(old(self).queue@, id),
                WithdrawalRequest {
                    status: WithdrawalStatus::Submitted,
                    txid: Some(txid),
                    submitted_at: Some(now),
                    ..old(self).queue@[spec_req_index(old(self).queue@, id)]
                },
            ),
            !r ==> *final(self) == *old(self),
            final(self).ledger == old(self).ledger,
            final(self).config == old(self).config,
            final(self).mode == old(self).mode,
            final(self).next_request_id == old(self).next_request_id,
    {
        let k = match self.find_request(id) {
            Some(k) => k,
            None => {
                return false;
            }
        };
        if !(self.queue[k].status == WithdrawalStatus::SigningInFlight) {
            return false;
        }
        let rq = req_at_mut(&mut self.queue, k);
        rq.status = WithdrawalStatus::Submitted;
        rq.txid = Some(txid);
        rq.submitted_at = Some(now);
        proof {
            self.lemma_wf_after_request_update(old(self), k as int);
        }
        true
    }

    /// The reconciliation sweep's timeout check, run opportunistically on
    /// later calls: a submitted request that has waited past the configured
    /// maximum becomes `TimedOut`. It keeps its reserved inputs — they are
    /// never handed to an unrelated request — and awaits resubmission.
    pub fn check_timeout(&mut self, id: u64, now: u64) -> (r: bool)
        requires
            old(self).wf(),
        ensures
            final(self).wf(),
            r == ({
                let q = old(self).queue@;
                &&& spec_req_has(q, id)
                &&& q[spec_req_index(q, id)].status is Submitted
                &&& (match q[spec_req_index(q, id)].submitted_at {
                    Some(t) => t + old(self).config.max_time_in_queue < now,
                    None => false,
                })
            }),
            r ==> final(self).queue@ == old(self).queue@.update(
                spec_req_index(old(self).queue@, id),
                WithdrawalRequest {
                    status: WithdrawalStatus::TimedOut,
                    submitted_at: None,
                    ..old(self).queue@[spec_req_index(old(self).queue@, id)]
                },
            ),
            !r ==> *final(self) == *old(self),
            final(self).ledger == old(self).ledger,
            final(self).config == old(self).config,
            final(self).mode == old(self).mode,
            final(self).next_request_id == old(self).next_request_id,
    {
        let k = match self.find_request(id) {
            Some(k) => k,
            None => {
                return false;
            }
        };
        if !(self.queue[k].status == WithdrawalStatus::Submitted) {
            return false;
        }
        let t = match self.queue[k].submitted_at {
            Some(t) => t,
            None => {
                proof {
                    assert(self.queue@[k as int].wf());
                }
                return false;
            }
        };
        if !((t as u128) + (self.config.max_time_in_queue as u128) < (now as u128)) {
            return false;
        }
        let rq = req_at_mut(&mut self.queue, k);
        rq.status = WithdrawalStatus::TimedOut;
        rq.submitted_at = None;
        proof {
            self.lemma_wf_after_request_update(old(self), k as int);
        }
        true
    }

    /// Resubmits a timed-out request: the same reserved inputs, a bumped fee
    /// chosen by the host's estimator (still below the burned amount), a new
    /// transaction id. The recipient receives the amount minus the bumped fee.
    pub fn resubmit(&mut self, id: u64, bumped_fee: u64, txid: u64, now: u64) -> (r: bool)
        requires
            old(self).wf(),
        ensures
            final(self).wf(),
            r == ({
                let q = old(self).queue@;
                &&& spec_req_has(q, id)
                &&& q[spec_req_index(q, id)].status is TimedOut
                &&& bumped_fee < q[spec_req_index(q, id)].amount
            }),
            r ==> final(self).queue@ == old(self).queue@.update(
                spec_req_index(old(self).queue@, id),
                WithdrawalRequest {
                    status: WithdrawalStatus::Submitted,
                    fee: bumped_fee,
                    txid: Some(txid),
                    submitted_at: Some(now),
                    ..old(self).queue@[spec_req_index(old(self).queue@, id)]
                },
            ),
            !r ==> *final(self) == *old(self),
            final(self).ledger == old(self).ledger,
            final(self).config == old(self).config,
            final(self).mode == old(self).mode,
            final(self).next_request_id == old(self).next_request_id,
    {
        let k = match self.find_request(id) {
            Some(k) => k,
            None => {
                return false;
            }
        };
        if !(self.queue[k].status == WithdrawalStatus::TimedOut) {
            return false;
        }
        if !(bumped_fee < self.queue[k].amount) {
            return false;
        }
        let rq = req_at_mut(&mut self.queue, k);
        rq.status = WithdrawalStatus::Submitted;
        rq.fee = bumped_fee;
        rq.txid = Some(txid);
        rq.submitted_at = Some(now);
        proof {
            self.lemma_wf_after_request_update(old(self), k as int);
        }
        true
    }

    /// The reconciliation sweep's confirmation step: once the host sees the
    /// submitted transaction at the required depth, the reserved inputs are
    /// spent and the request is `Confirmed`.
    pub fn mark_confirmed(&mut self, id: u64, depth: u32) -> (r: bool)
        requires
            old(self).wf(),
        ensures
            final(self).wf(),
            r == (spec_req_has(old(self).queue@, id)
                && old(self).queue@[spec_req_index(old(self).queue@, id)].status is Submitted
                && depth >= old(self).config.min_confirmations),
            r ==> final(self).queue@ == old(self).queue@.update(
                spec_req_index(old(self).queue@, id),
                WithdrawalRequest {
                    status: WithdrawalStatus::Confirmed,
                    submitted_at: None,
                    ..old(self).queue@[spec_req_index(old(self).queue@, id)]
                },
            ),
            r ==> crate::utxo::spec_batch_moved(
                old(self).ledger.entries@,
                final(self).ledger.entries@,
                old(self).queue@[spec_req_index(old(self).queue@, id)].inputs@,
                UtxoState::Spent,
            ),
            !r ==> *final(self) == *old(self),
            final(self).config == old(self).config,
            final(self).mode == old(self).mode,
            final(self).next_request_id == old(self).next_request_id,
            crate::utxo::spec_credits_preserved(old(self).ledger.entries@, final(self).ledger.entries@),
    {
        let k = match self.find_request(id) {
            Some(k) => k,
            None => {
                return false;
            }
        };
        if !(self.queue[k].status == WithdrawalStatus::Submitted) {
            return false;
        }
        if depth < self.config.min_confirmations {
            return false;
        }
        let ghost e0 = self.ledger.entries@;
        let ghost q0 = self.queue@;
        let ghost ki = k as int;
        proof {
            assert(q0[ki].wf());
            assert(in_flight(q0[ki].status));
        }
        let spent = self.ledger.spend_all(&self.queue[k].inputs, id);
        assert(spent);
        let rq = req_at_mut(&mut self.queue, k);
        rq.status = WithdrawalStatus::Confirmed;
        rq.submitted_at = None;
        proof {
            self.lemma_wf_after_settle(old(self), ki, UtxoState::Spent);
        }
        true
    }

    /// Abandons a withdrawal that was never broadcast or has timed out: its
    /// reserved inputs return to the free pool and the request leaves the
    /// queue. The host must refund the escrow. A submitted request cannot be
    /// abandoned; a confirmed one is settled, not abandoned.
    pub fn abandon(&mut self, id: u64) -> (r: bool)
        requires
            old(self).wf(),
        ensures
            final(self).wf(),
            r == ({
                let q = old(self).queue@;
                &&& spec_req_has(q, id)
                &&& (q[spec_req_index(q, id)].status is Pending
                    || q[spec_req_index(q, id)].status is Selected
                    || q[spec_req_index(q, id)].status is SigningInFlight
                    || q[spec_req_index(q, id)].status is TimedOut)
            }),
            r ==> final(self).queue@ == old(self).queue@.remove(
                spec_req_index(old(self).queue@, id),
            ),
            r ==> crate::utxo::spec_batch_moved(
                old(self).ledger.entries@,
                final(self).ledger.entries@,
                old(self).queue@[spec_req_index(old(self).queue@, id)].inputs@,
                UtxoState::Free,
            ),
            crate::utxo::spec_credits_preserved(old(self).ledger.entries@, final(self).ledger.entries@),
            !r ==> *final(self) == *old(self),
            final(self).config == old(self).config,
            final(self).mode == old(self).mode,
            final(self).next_request_id == old(self).next_request_id,
    {
        let k = match self.find_request(id) {
            Some(k) => k,
            None => {
                return false;
            }
        };
        let ok = match self.queue[k].status {
            WithdrawalStatus::Pending => true,
            WithdrawalStatus::Selected => true,
            WithdrawalStatus::SigningInFlight => true,
            WithdrawalStatus::TimedOut => true,
            _ => false,
        };
        if !ok {
            return false;
        }
        let ghost e0 = self.ledger.entries@;
        let ghost q0 = self.queue@;
        let ghost ki = k as int;
        proof {
            assert(q0[ki].wf());
            if q0[ki].status is Pending {
                assert(q0[ki].inputs@.len() == 0);
                assert(crate::utxo::spec_all_in_state(
                    e0,
                    q0[ki].inputs@,
                    UtxoState::Reserved { request_id: id },
                ));
            }
        }
        let released = self.ledger.release_all(&self.queue[k].inputs, id);
        assert(released);
        self.queue.remove(k);
        proof {
            crate::utxo::lemma_states_after_batch(
                e0,
                self.ledger.entries@,
                q0[ki].inputs@,
                UtxoState::Free,
            );
            crate::withdrawal::lemma_queue_remove(q0, self.queue@, ki);
            assert forall|ii: int| 0 <= ii < self.ledger.entries@.len()
                implies match (#[trigger] self.ledger.entries@[ii]).state {
                    UtxoState::Reserved { request_id } => {
                        &&& spec_req_has(self.queue@, request_id)
                        &&& in_flight(self.queue@[spec_req_index(self.queue@, request_id)].status)
                        &&& self.queue@[spec_req_index(self.queue@, request_id)].inputs@.contains(
                            self.ledger.entries@[ii].utxo.outpoint,
                        )
                    },
                    _ => true,
                } by {
                match self.ledger.entries@[ii].state {
                    UtxoState::Reserved { request_id } => {
                        assert(!q0[ki].inputs@.contains(e0[ii].utxo.outpoint));
                        assert(self.ledger.entries@[ii] == e0[ii]);
                        let idx0 = spec_req_index(q0, request_id);
                        assert(spec_req_has(q0, request_id) && in_flight(q0[idx0].status));
                        assert(request_id != id) by {
                            if request_id == id {
                                crate::withdrawal::lemma_req_index_unique(q0, id, ki);
                                assert(q0[ki].inputs@.contains(e0[ii].utxo.outpoint));
                            }
                        }
                        assert(self.queue@[spec_req_index(self.queue@, request_id)] == q0[idx0]);
                    }
                    _ => {}
                }
            }
            assert forall|kk: int, m: int|
                0 <= kk < self.queue@.len() && in_flight(self.queue@[kk].status)
                    && 0 <= m < self.queue@[kk].inputs@.len()
                    implies spec_has(self.ledger.entries@, #[trigger] self.queue@[kk].inputs@[m])
                        && spec_state_of(self.ledger.entries@, self.queue@[kk].inputs@[m])
                            == (UtxoState::Reserved { request_id: self.queue@[kk].id }) by {
                let kk0 = if kk < ki { kk } else { kk + 1 };
                assert(self.queue@[kk] == q0[kk0]);
                let op = self.queue@[kk].inputs@[m];
                assert(spec_has(e0, op));
                assert(spec_state_of(e0, op) == (UtxoState::Reserved { request_id: q0[kk0].id }));
                if q0[ki].inputs@.contains(op) {
                    assert(spec_state_of(e0, op) == (UtxoState::Reserved { request_id: id }));
                    assert(q0[kk0].id == id);
                    crate::withdrawal::lemma_req_index_unique(q0, id, ki);
                    crate::withdrawal::lemma_req_index_unique(q0, id, kk0);
                    assert(false);
                }
            }
        }
        true
    }

    /// Re-establishes the global invariant after the inputs of the request at
    /// `k` moved out of reservation into a settled state and the request left
    /// the in-flight set, with its id and inputs kept.
    proof fn lemma_wf_after_settle(&self, pre: &CoreState, k: int, settled: UtxoState)
        requires
            pre.wf(),
            self.next_request_id == pre.next_request_id,
            0 <= k < pre.queue@.len(),
            in_flight(pre.queue@[k].status),
            !(settled is Reserved),
            crate::utxo::spec_batch_moved(
                pre.ledger.entries@,
                self.ledger.entries@,
                pre.queue@[k].inputs@,
                settled,
            ),
            self.ledger.wf(),
            self.queue@.len() == pre.queue@.len(),
            forall|j: int| 0 <= j < pre.queue@.len() && j != k ==> self.queue@[j] == pre.queue@[j],
            self.queue@[k].id == pre.queue@[k].id,
            self.queue@[k].inputs == pre.queue@[k].inputs,
            !in_flight(self.queue@[k].status),
            self.queue@[k].wf(),
        ensures
            self.wf(),
    {
        let e0 = pre.ledger.entries@;
        let q0 = pre.queue@;
        let ops = q0[k].inputs@;
        crate::utxo::lemma_states_after_batch(e0, self.ledger.entries@, ops, settled);
        crate::withdrawal::lemma_queue_update(q0, self.queue@, k);
        assert forall|ii: int| 0 <= ii < self.ledger.entries@.len()
            implies match (#[trigger] self.ledger.entries@[ii]).state {
                UtxoState::Reserved { request_id } => {
                    &&& spec_req_has(self.queue@, request_id)
                    &&& in_flight(self.queue@[spec_req_index(self.queue@, request_id)].status)
                    &&& self.queue@[spec_req_index(self.queue@, request_id)].inputs@.contains(
                        self.ledger.entries@[ii].utxo.outpoint,
                    )
                },
                _ => true,
            } by {
            match self.ledger.entries@[ii].state {
                UtxoState::Reserved { request_id } => {
                    assert(!ops.contains(e0[ii].utxo.outpoint));
                    assert(self.ledger.entries@[ii] == e0[ii]);
                    let idx0 = spec_req_index(q0, request_id);
                    assert(spec_req_has(q0, request_id) && in_flight(q0[idx0].status));
                    assert(request_id != q0[k].id) by {
                        if request_id == q0[k].id {
                            crate::withdrawal::lemma_req_index_unique(q0, request_id, k);
                            assert(q0[k].inputs@.contains(e0[ii].utxo.outpoint));
                        }
                    }
                    assert(idx0 != k);
                    assert(self.queue@[idx0] == q0[idx0]);
                    assert(spec_req_index(self.queue@, request_id) == idx0);
                }
                _ => {}
            }
        }
        assert forall|kk: int, m: int|
            0 <= kk < self.queue@.len() && in_flight(self.queue@[kk].status)
                && 0 <= m < self.queue@[kk].inputs@.len()
                implies spec_has(self.ledger.entries@, #[trigger] self.queue@[kk].inputs@[m])
                    && spec_state_of(self.ledger.entries@, self.queue@[kk].inputs@[m])
                        == (UtxoState::Reserved { request_id: self.queue@[kk].id }) by {
            assert(kk != k);
            assert(self.queue@[kk] == q0[kk]);
            let op = self.queue@[kk].inputs@[m];
            assert(spec_has(e0, op));
            assert(spec_state_of(e0, op) == (UtxoState::Reserved { request_id: q0[kk].id }));
            if ops.contains(op) {
                assert(spec_state_of(e0, op) == (UtxoState::Reserved { request_id: q0[k].id }));
                assert(q0[kk].id == q0[k].id);
                assert(false);
            }
        }
    }
}

/// The unsigned transaction laid out for a withdrawal: its reserved inputs,
/// the destination paid the requested amount less the fee, and the leftover
/// returned to custody as change. What the recipient receives is the amount
/// minus the fee, never the amount itself.
pub struct TxPlan {
    pub inputs: Vec<OutPoint>,
    pub destination: Vec<u8>,
    pub payout: u64,
    pub change: u64,
    pub fee: u64,
}

impl CoreState {
    /// Lays out the transaction of an in-flight withdrawal, communicating the
    /// fee-reduced payout back to the caller. Yields nothing for an unknown,
    /// still-pending or settled request.
    pub fn tx_plan(&self, id: u64) -> (r: Option<TxPlan>)
        requires
            self.wf(),
        ensures
            match r {
                Some(p) => {
                    let req = self.queue@[spec_req_index(self.queue@, id)];
                    &&& spec_req_has(self.queue@, id)
                    &&& in_flight(req.status)
                    &&& p.inputs@ == req.inputs@
                    &&& p.destination@ == req.destination@
                    &&& p.fee == req.fee
                    &&& p.change == req.change
                    &&& req.fee < req.amount
                    &&& p.payout == req.amount - req.fee
                },
                None => !spec_req_has(self.queue@, id)
                    || !in_flight(self.queue@[spec_req_index(self.queue@, id)].status)
                    || self.queue@[spec_req_index(self.queue@, id)].fee
                        >= self.queue@[spec_req_index(self.queue@, id)].amount,
            },
    {
        let k = match self.find_request(id) {
            Some(k) => k,
            None => {
                return None;
            }
        };
        if !crate::snapshot::is_in_flight(self.queue[k].status) {
            return None;
        }
        let req = &self.queue[k];
        if req.fee >= req.amount {
            return None;
        }
        Some(TxPlan {
            inputs: crate::utxo::clone_ops(&req.inputs),
            destination: crate::utxo::clone_bytes(&req.destination),
            payout: req.amount - req.fee,
            change: req.change,
            fee: req.fee,
        })
    }
}

/// Escrow before reservation: in any well-formed state, every reserved output
/// is held by a queued in-flight withdrawal that lists it among its inputs,
/// and that request carries the ledger block of its successful burn/escrow —
/// a request enters the queue only through `retrieve_accept`, which demands
/// the escrow. No output is ever reserved without the burn that pays for it.
pub proof fn lemma_escrow_before_reserve(s: &CoreState, i: int)
    requires
        s.wf(),
        0 <= i < s.ledger.entries@.len(),
        s.ledger.entries@[i].state is Reserved,
    ensures
        match s.ledger.entries@[i].state {
            UtxoState::Reserved { request_id } => {
                &&& spec_req_has(s.queue@, request_id)
                &&& in_flight(s.queue@[spec_req_index(s.queue@, request_id)].status)
                &&& s.queue@[spec_req_index(s.queue@, request_id)].inputs@.contains(
                    s.ledger.entries@[i].utxo.outpoint,
                )
                &&& s.queue@[spec_req_index(s.queue@, request_id)].id == request_id
            },
            _ => false,
        },
{
    let rid = match s.ledger.entries@[i].state {
        UtxoState::Reserved { request_id } => request_id,
        _ => arbitrary(),
    };
    assert(spec_req_has(s.queue@, rid));
    assert(s.queue@[spec_req_index(s.queue@, rid)].id == rid);
}

/// `post` is `pre` with one entry appended carrying the given output,
/// identity and state.
pub open spec fn pushed_entry(
    pre: Seq<LedgerEntry>,
    post: Seq<LedgerEntry>,
    utxo: Utxo,
    owner: u64,
    sub: Seq<u8>,
    state: UtxoState,
) -> bool {
    &&& post.len() == pre.len() + 1
    &&& forall|i: int| 0 <= i < pre.len() ==> post[i] == pre[i]
    &&& post.last().utxo == utxo
    &&& post.last().owner == owner
    &&& post.last().owner_sub@ == sub
    &&& post.last().state == state
}

/// The outputs of `discovered` whose outpoints are not yet recorded.
pub open spec fn spec_new_list(entries: Seq<LedgerEntry>, discovered: Seq<Utxo>) -> Seq<Utxo>
    decreases discovered.len(),
{
    if discovered.len() == 0 {
        Seq::empty()
    } else {
        spec_new_list(entries, discovered.drop_last())
            + if !spec_has(entries, discovered.last().outpoint) {
                seq![discovered.last()]
            } else {
                Seq::<Utxo>::empty()
            }
    }
}

} // verus!
