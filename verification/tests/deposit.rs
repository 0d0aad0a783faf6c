use custody_bridge::config::InitArgs;
use custody_bridge::mode::Mode;
use custody_bridge::state::{CoreState, DepositOutcome, UpdateBalanceError};
use custody_bridge::utxo::{OutPoint, Utxo, UtxoState};

const CALLER: u64 = 21;
const MINTER: u64 = 999;

fn install(screening: bool) -> CoreState {
    CoreState::new(InitArgs {
        custody_principal: MINTER,
        custody_key_id: 7,
        ledger_id: 11,
        retrieve_min_amount: 100,
        max_time_in_queue: 1_000,
        min_confirmations: Some(1),
        check_fee: Some(100),
        screening_enabled: screening,
        fee_base: 100,
        fee_per_input: 10,
        mode: Mode::GeneralAvailability,
    })
}

fn utxo(txid: u64, vout: u32, value: u64) -> Utxo {
    Utxo { outpoint: OutPoint { txid, vout }, value }
}

#[test]
fn test_exactly_once_mint() {
    let mut st = install(false);
    let (key, _) = st.update_balance_begin(CALLER, None, None).unwrap();
    let u = utxo(1, 0, 50_000);

    // First balance update: the mint starts once and is finalized.
    assert_eq!(st.mint_begin(u, &key, 1), DepositOutcome::MintStarted);
    assert!(st.mint_finalize(u.outpoint));
    assert_eq!(st.ledger.state_of(u.outpoint), Some(UtxoState::Free));

    // Any number of later balance updates report AlreadyMinted.
    assert_eq!(st.mint_begin(u, &key, 1), DepositOutcome::AlreadyMinted);
    assert_eq!(st.mint_begin(u, &key, 1), DepositOutcome::AlreadyMinted);
    assert_eq!(st.ledger.entries.len(), 1);
}

#[test]
fn test_reentrant_mint_backs_off() {
    let mut st = install(false);
    let (key, _) = st.update_balance_begin(CALLER, None, None).unwrap();
    let u = utxo(2, 1, 40_000);
    assert_eq!(st.mint_begin(u, &key, 1), DepositOutcome::MintStarted);
    // A concurrent balance update for the same outpoint observes the
    // in-progress marker while the mint call is suspended.
    assert_eq!(st.mint_begin(u, &key, 1), DepositOutcome::MintInProgress);
    assert!(st.mint_finalize(u.outpoint));
    assert_eq!(st.mint_begin(u, &key, 1), DepositOutcome::AlreadyMinted);
}

#[test]
fn test_mint_abort_allows_retry() {
    let mut st = install(false);
    let (key, _) = st.update_balance_begin(CALLER, None, None).unwrap();
    let u = utxo(3, 0, 30_000);
    assert_eq!(st.mint_begin(u, &key, 1), DepositOutcome::MintStarted);
    // The mint call failed cleanly: the marker is withdrawn and a retry works.
    assert!(st.mint_abort(u.outpoint));
    assert_eq!(st.ledger.entries.len(), 0);
    assert_eq!(st.mint_begin(u, &key, 1), DepositOutcome::MintStarted);
    assert!(st.mint_finalize(u.outpoint));
}

#[test]
fn test_tainted_never_minted() {
    let mut st = install(true);
    let (key, _) = st.update_balance_begin(CALLER, None, None).unwrap();
    let u = utxo(4, 0, 60_000);
    // The screener flags it: recorded, visible, never minted.
    assert!(st.screen_result(u, &key, false));
    assert_eq!(st.ledger.state_of(u.outpoint), Some(UtxoState::Tainted));
    assert_eq!(st.mint_begin(u, &key, 1), DepositOutcome::Tainted);
    assert_eq!(st.mint_begin(u, &key, 1), DepositOutcome::Tainted);
    // A clean verdict records nothing.
    let c = utxo(4, 1, 60_000);
    assert!(!st.screen_result(c, &key, true));
    assert_eq!(st.mint_begin(c, &key, 1), DepositOutcome::MintStarted);
}

#[test]
fn test_not_yet_confirmed() {
    let mut st = install(false);
    let (key, _) = st.update_balance_begin(CALLER, None, None).unwrap();
    let u = utxo(8, 0, 50_000);
    // Below the configured depth: reported, nothing recorded, safe to re-poll.
    assert_eq!(st.mint_begin(u, &key, 0), DepositOutcome::NotYetConfirmed);
    assert_eq!(st.ledger.entries.len(), 0);
    // Once deep enough, the mint starts.
    assert_eq!(st.mint_begin(u, &key, 1), DepositOutcome::MintStarted);
}

#[test]
fn test_value_too_small() {
    let mut st = install(false);
    let (key, _) = st.update_balance_begin(CALLER, None, None).unwrap();
    // Worth no more than the screening fee: ignored, not recorded.
    let u = utxo(5, 0, 100);
    assert_eq!(st.mint_begin(u, &key, 1), DepositOutcome::ValueTooSmall);
    assert_eq!(st.ledger.entries.len(), 0);
    let u = utxo(5, 1, 101);
    assert_eq!(st.mint_begin(u, &key, 1), DepositOutcome::MintStarted);
}

#[test]
fn test_new_utxos_filters_recorded() {
    let mut st = install(false);
    let (key, _) = st.update_balance_begin(CALLER, None, None).unwrap();
    let a = utxo(6, 0, 10_000);
    let b = utxo(6, 1, 20_000);
    assert_eq!(st.mint_begin(a, &key, 1), DepositOutcome::MintStarted);
    assert!(st.mint_finalize(a.outpoint));
    let fresh = st.new_utxos(&vec![a, b]);
    assert_eq!(fresh.len(), 1);
    assert_eq!(fresh[0].outpoint, b.outpoint);
}

#[test]
fn test_account_index() {
    let mut st = install(false);
    let (key_a, _) = st.update_balance_begin(CALLER, None, None).unwrap();
    let (key_b, _) = st.update_balance_begin(CALLER, None, Some(vec![1u8; 32])).unwrap();
    let ua = utxo(7, 0, 10_000);
    let ub = utxo(7, 1, 20_000);
    assert_eq!(st.mint_begin(ua, &key_a, 1), DepositOutcome::MintStarted);
    assert!(st.mint_finalize(ua.outpoint));
    assert_eq!(st.mint_begin(ub, &key_b, 1), DepositOutcome::MintStarted);
    assert!(st.mint_finalize(ub.outpoint));
    // The secondary index answers per identity.
    let of_a = st.ledger.utxos_of_account(key_a.owner, &key_a.subaccount);
    assert_eq!(of_a.len(), 1);
    assert_eq!(of_a[0].outpoint, ua.outpoint);
    let of_b = st.ledger.utxos_of_account(key_b.owner, &key_b.subaccount);
    assert_eq!(of_b.len(), 1);
    assert_eq!(of_b[0].outpoint, ub.outpoint);
}

#[test]
fn test_self_custody_rejected() {
    let st = install(false);
    // For an authorized caller naming the custody identity...
    let res = st.update_balance_begin(CALLER, Some(MINTER), None);
    assert!(matches!(res, Err(UpdateBalanceError::SelfCustody)));
    // ... and for the anonymous caller.
    let res = st.update_balance_begin(0, Some(MINTER), None);
    assert!(matches!(res, Err(UpdateBalanceError::SelfCustody)));
    // Rejected regardless of mode: even a closed gate reports self-custody.
    let mut st = install(false);
    st.upgrade(custody_bridge::config::UpgradeArgs {
        retrieve_min_amount: None,
        min_confirmations: None,
        max_time_in_queue: None,
        check_fee: None,
        screening_enabled: None,
        mode: Some(Mode::ReadOnly),
    });
    let res = st.update_balance_begin(CALLER, Some(MINTER), None);
    assert!(matches!(res, Err(UpdateBalanceError::SelfCustody)));
}

#[test]
fn test_malformed_sub_identity() {
    let st = install(false);
    let res = st.update_balance_begin(CALLER, None, Some(vec![1u8; 31]));
    assert!(matches!(res, Err(UpdateBalanceError::MalformedSubIdentity)));
    let res = st.update_balance_begin(CALLER, None, Some(vec![1u8; 32]));
    assert!(res.is_ok());
}
