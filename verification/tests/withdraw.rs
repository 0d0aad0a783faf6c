use custody_bridge::config::InitArgs;
use custody_bridge::mode::Mode;
use custody_bridge::state::{CoreState, DepositOutcome, RetrieveError};
use custody_bridge::utxo::{OutPoint, Utxo, UtxoState};
use custody_bridge::withdrawal::WithdrawalStatus;

const CALLER: u64 = 21;
const MINTER: u64 = 999;

fn install() -> CoreState {
    CoreState::new(InitArgs {
        custody_principal: MINTER,
        custody_key_id: 7,
        ledger_id: 11,
        retrieve_min_amount: 100,
        max_time_in_queue: 1_000,
        min_confirmations: Some(6),
        check_fee: Some(100),
        screening_enabled: false,
        fee_base: 100,
        fee_per_input: 10,
        mode: Mode::GeneralAvailability,
    })
}

fn credit(st: &mut CoreState, txid: u64, value: u64) -> OutPoint {
    let (key, _) = st.update_balance_begin(CALLER, None, None).unwrap();
    let u = Utxo { outpoint: OutPoint { txid, vout: 0 }, value };
    assert_eq!(st.mint_begin(u, &key, 6), DepositOutcome::MintStarted);
    assert!(st.mint_finalize(u.outpoint));
    u.outpoint
}

fn dest() -> Vec<u8> {
    vec![7u8; 20]
}

#[test]
fn test_selection_ascending_greedy() {
    let mut st = install();
    let big = credit(&mut st, 3, 10_000);
    let small = credit(&mut st, 1, 5_000);
    let mid = credit(&mut st, 2, 7_000);

    assert_eq!(st.retrieve_begin(CALLER, &dest(), 11_000, 1), Ok(11_000));
    let id = st.retrieve_accept(CALLER, dest(), 11_000, 1, 42, 100).unwrap();
    st.select_pending(id).unwrap();

    // Ascending by value: 5_000 then 7_000 cover 11_000; change is the
    // overshoot, the fee is flat plus per-input.
    let req = &st.queue[0];
    assert_eq!(req.status, WithdrawalStatus::Selected);
    assert_eq!(req.inputs, vec![small, mid]);
    assert_eq!(req.change, 1_000);
    assert_eq!(req.fee, 100 + 2 * 10);
    assert_eq!(req.escrow_block, 42);
    assert_eq!(st.ledger.state_of(small), Some(UtxoState::Reserved { request_id: id }));
    assert_eq!(st.ledger.state_of(mid), Some(UtxoState::Reserved { request_id: id }));
    assert_eq!(st.ledger.state_of(big), Some(UtxoState::Free));
    assert!(st.check_invariants());
}

#[test]
fn test_no_double_reservation() {
    let mut st = install();
    let a = credit(&mut st, 1, 5_000);
    let b = credit(&mut st, 2, 7_000);
    let c = credit(&mut st, 3, 10_000);

    // Two retrievals racing for the same coins never both reserve one.
    let id1 = st.retrieve_accept(CALLER, dest(), 11_000, 1, 42, 100).unwrap();
    st.select_pending(id1).unwrap();
    let id2 = st.retrieve_accept(CALLER, dest(), 9_000, 2, 43, 101).unwrap();
    st.select_pending(id2).unwrap();

    let inputs1 = st.queue[0].inputs.clone();
    let inputs2 = st.queue[1].inputs.clone();
    assert_eq!(inputs1, vec![a, b]);
    assert_eq!(inputs2, vec![c]);
    for op in &inputs1 {
        assert!(!inputs2.contains(op));
    }
    assert_eq!(st.ledger.state_of(a), Some(UtxoState::Reserved { request_id: id1 }));
    assert_eq!(st.ledger.state_of(c), Some(UtxoState::Reserved { request_id: id2 }));

    // Nothing is left for a third request.
    let id3 = st.retrieve_accept(CALLER, dest(), 5_000, 3, 44, 102).unwrap();
    assert_eq!(st.select_pending(id3), Err(RetrieveError::InsufficientFunds));
    assert_eq!(st.queue.len(), 2);
    assert!(st.check_invariants());
}

#[test]
fn test_escrow_before_reserve() {
    let mut st = install();
    let a = credit(&mut st, 1, 50_000);
    // Validation alone reserves nothing: no request exists before the escrow
    // event, and the pool stays free.
    assert_eq!(st.retrieve_begin(CALLER, &dest(), 20_000, 1), Ok(20_000));
    assert_eq!(st.queue.len(), 0);
    assert_eq!(st.ledger.state_of(a), Some(UtxoState::Free));
    // Selection without an escrowed request reserves nothing either.
    assert_eq!(st.select_pending(0), Err(RetrieveError::GenericError));
    assert_eq!(st.ledger.state_of(a), Some(UtxoState::Free));
    // Only after the escrow is recorded may outputs be reserved, and the
    // request carries the escrow's ledger block.
    let id = st.retrieve_accept(CALLER, dest(), 20_000, 1, 77, 100).unwrap();
    assert_eq!(st.queue[0].escrow_block, 77);
    st.select_pending(id).unwrap();
    assert_eq!(st.ledger.state_of(a), Some(UtxoState::Reserved { request_id: id }));
}

#[test]
fn test_withdrawal_lifecycle_confirmed() {
    let mut st = install();
    let a = credit(&mut st, 1, 30_000);
    let id = st.retrieve_accept(CALLER, dest(), 20_000, 1, 42, 100).unwrap();
    st.select_pending(id).unwrap();
    assert!(st.mark_signing(id));
    assert_eq!(st.queue[0].status, WithdrawalStatus::SigningInFlight);
    assert!(st.mark_submitted(id, 555, 200));
    assert_eq!(st.queue[0].status, WithdrawalStatus::Submitted);
    assert_eq!(st.queue[0].txid, Some(555));
    // Below the required depth: nothing happens.
    assert!(!st.mark_confirmed(id, 5));
    assert_eq!(st.queue[0].status, WithdrawalStatus::Submitted);
    // At depth: inputs spent, request confirmed.
    assert!(st.mark_confirmed(id, 6));
    assert_eq!(st.queue[0].status, WithdrawalStatus::Confirmed);
    assert_eq!(st.ledger.state_of(a), Some(UtxoState::Spent));
    assert!(st.check_invariants());
}

#[test]
fn test_timeout_and_resubmit_reuses_inputs() {
    let mut st = install();
    let a = credit(&mut st, 1, 30_000);
    let id = st.retrieve_accept(CALLER, dest(), 20_000, 1, 42, 100).unwrap();
    st.select_pending(id).unwrap();
    assert!(st.mark_signing(id));
    assert!(st.mark_submitted(id, 555, 200));
    // Within the allowed wait: no timeout.
    assert!(!st.check_timeout(id, 1_100));
    // Past it: timed out, inputs stay reserved for this request.
    assert!(st.check_timeout(id, 1_300));
    assert_eq!(st.queue[0].status, WithdrawalStatus::TimedOut);
    assert_eq!(st.ledger.state_of(a), Some(UtxoState::Reserved { request_id: id }));
    // Resubmission bumps the fee and reuses the same inputs.
    let inputs_before = st.queue[0].inputs.clone();
    assert!(st.resubmit(id, 150, 556, 1_400));
    assert_eq!(st.queue[0].status, WithdrawalStatus::Submitted);
    assert_eq!(st.queue[0].fee, 150);
    assert_eq!(st.queue[0].txid, Some(556));
    assert_eq!(st.queue[0].inputs, inputs_before);
    assert!(st.mark_confirmed(id, 6));
    assert_eq!(st.ledger.state_of(a), Some(UtxoState::Spent));
}

#[test]
fn test_abandon_releases_inputs() {
    let mut st = install();
    let a = credit(&mut st, 1, 30_000);
    let id = st.retrieve_accept(CALLER, dest(), 20_000, 1, 42, 100).unwrap();
    st.select_pending(id).unwrap();
    assert!(st.mark_signing(id));
    assert!(st.abandon(id));
    assert_eq!(st.queue.len(), 0);
    assert_eq!(st.ledger.state_of(a), Some(UtxoState::Free));
    assert!(st.check_invariants());
    // A submitted request cannot be abandoned.
    let id = st.retrieve_accept(CALLER, dest(), 20_000, 1, 43, 100).unwrap();
    st.select_pending(id).unwrap();
    assert!(st.mark_signing(id));
    assert!(st.mark_submitted(id, 555, 200));
    assert!(!st.abandon(id));
    assert_eq!(st.queue.len(), 1);
}

#[test]
fn test_tx_plan_communicates_payout() {
    let mut st = install();
    let a = credit(&mut st, 1, 30_000);
    // No plan before a request exists.
    assert!(st.tx_plan(0).is_none());
    let id = st.retrieve_accept(CALLER, dest(), 20_000, 1, 42, 100).unwrap();
    // None while still pending.
    assert!(st.tx_plan(id).is_none());
    st.select_pending(id).unwrap();
    let plan = st.tx_plan(id).unwrap();
    // The recipient receives the amount minus the fee, never the amount.
    assert_eq!(plan.fee, 100 + 10);
    assert_eq!(plan.payout, 20_000 - 110);
    assert_eq!(plan.change, 10_000);
    assert_eq!(plan.inputs, vec![a]);
    assert_eq!(plan.destination, dest());
    // Value conservation: inputs cover payout + change + fee.
    assert_eq!(30_000, plan.payout + plan.change + plan.fee);
}

#[test]
fn test_amount_cannot_cover_fee() {
    // min_amount 100 admits the request, but the fee (base 100 + 10 per
    // input) reaches the amount at selection time: the request is dropped so
    // the escrow can be refunded.
    let mut st = install();
    credit(&mut st, 1, 50_000);
    let id = st.retrieve_accept(CALLER, dest(), 105, 5, 42, 100).unwrap();
    let res = st.select_pending(id);
    assert_eq!(res, Err(RetrieveError::AmountTooLow { min_amount: 100 }));
    assert_eq!(st.queue.len(), 0);
    assert_eq!(st.ledger.state_of(OutPoint { txid: 1, vout: 0 }), Some(UtxoState::Free));
}

#[test]
fn test_retrieve_errors() {
    let mut st = install();
    credit(&mut st, 1, 50_000);
    // Below the minimum.
    let res = st.retrieve_begin(CALLER, &dest(), 99, 1);
    assert_eq!(res, Err(RetrieveError::AmountTooLow { min_amount: 100 }));
    // Malformed destination.
    let res = st.retrieve_begin(CALLER, &vec![7u8; 5], 200, 1);
    assert_eq!(res, Err(RetrieveError::MalformedAddress));
    // Duplicate idempotency key while the first request is live.
    let id = st.retrieve_accept(CALLER, dest(), 20_000, 9, 42, 100).unwrap();
    st.select_pending(id).unwrap();
    let res = st.retrieve_begin(CALLER, &dest(), 20_000, 9);
    assert_eq!(res, Err(RetrieveError::AlreadyProcessing));
    let res = st.retrieve_accept(CALLER, dest(), 20_000, 9, 43, 101);
    assert_eq!(res, Err(RetrieveError::AlreadyProcessing));
    // Insufficient funds: the request is dropped so the escrow can be
    // refunded, and the pool is untouched.
    let entries_before = st.ledger.entries.len();
    let id2 = st.retrieve_accept(CALLER, dest(), 40_000, 10, 44, 102).unwrap();
    assert_eq!(st.select_pending(id2), Err(RetrieveError::InsufficientFunds));
    assert_eq!(st.ledger.entries.len(), entries_before);
    assert_eq!(st.queue.len(), 1);
}
