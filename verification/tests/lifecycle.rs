use custody_bridge::config::{InitArgs, UpgradeArgs};
use custody_bridge::mode::Mode;
use custody_bridge::state::{CoreState, RetrieveError, UpdateBalanceError};

const AUTHORIZED: u64 = 21;
const UNAUTHORIZED: u64 = 22;
const MINTER: u64 = 999;

fn install(mode: Mode) -> CoreState {
    CoreState::new(InitArgs {
        custody_principal: MINTER,
        custody_key_id: 7,
        ledger_id: 11,
        retrieve_min_amount: 0,
        max_time_in_queue: 0,
        min_confirmations: Some(1),
        check_fee: None,
        screening_enabled: false,
        fee_base: 0,
        fee_per_input: 0,
        mode,
    })
}

fn no_upgrade() -> UpgradeArgs {
    UpgradeArgs {
        retrieve_min_amount: None,
        min_confirmations: None,
        max_time_in_queue: None,
        check_fee: None,
        screening_enabled: None,
        mode: None,
    }
}

#[test]
fn test_install_ckbtc_minter_canister() {
    let st = install(Mode::GeneralAvailability);
    assert_eq!(st.config.retrieve_min_amount, 0);
    assert_eq!(st.config.min_confirmations, 1);
    assert_eq!(st.config.max_time_in_queue, 0);
    assert_eq!(st.config.custody_principal, MINTER);
    assert_eq!(st.ledger.entries.len(), 0);
    assert_eq!(st.queue.len(), 0);
    assert!(st.check_invariants());
}

#[test]
fn test_upgrade_read_only() {
    let mut st = install(Mode::GeneralAvailability);
    st.upgrade(UpgradeArgs {
        retrieve_min_amount: Some(100),
        min_confirmations: None,
        max_time_in_queue: Some(100),
        check_fee: None,
        screening_enabled: None,
        mode: Some(Mode::ReadOnly),
    });

    // When the mode is ReadOnly the engine rejects all mutating calls.

    // 1. update_balance
    let res = st.update_balance_begin(AUTHORIZED, None, None);
    assert!(
        matches!(res, Err(UpdateBalanceError::TemporarilyUnavailable)),
        "unexpected result: {:?}",
        res
    );

    // 2. retrieve
    let dest: Vec<u8> = Vec::new();
    let res = st.retrieve_begin(AUTHORIZED, &dest, 10, 1);
    assert!(
        matches!(res, Err(RetrieveError::TemporarilyUnavailable)),
        "unexpected result: {:?}",
        res
    );
}

#[test]
fn test_upgrade_restricted() {
    let mut st = install(Mode::GeneralAvailability);
    st.upgrade(UpgradeArgs {
        retrieve_min_amount: Some(100),
        min_confirmations: None,
        max_time_in_queue: Some(100),
        check_fee: None,
        screening_enabled: None,
        mode: Some(Mode::RestrictedTo(vec![AUTHORIZED])),
    });

    // The unauthorized caller cannot modify state.
    let res = st.update_balance_begin(UNAUTHORIZED, None, None);
    assert!(matches!(res, Err(UpdateBalanceError::TemporarilyUnavailable)));

    let dest: Vec<u8> = Vec::new();
    let res = st.retrieve_begin(UNAUTHORIZED, &dest, 10, 1);
    assert!(matches!(res, Err(RetrieveError::TemporarilyUnavailable)));

    // Restricted deposits only.
    st.upgrade(UpgradeArgs {
        retrieve_min_amount: Some(100),
        min_confirmations: None,
        max_time_in_queue: Some(100),
        check_fee: None,
        screening_enabled: None,
        mode: Some(Mode::DepositsRestrictedTo(vec![AUTHORIZED])),
    });
    let res = st.update_balance_begin(UNAUTHORIZED, None, None);
    assert!(matches!(res, Err(UpdateBalanceError::TemporarilyUnavailable)));
}

#[test]
fn test_illegal_caller() {
    let st = install(Mode::GeneralAvailability);
    // update_balance with the minter's own principal as target must fail for
    // an authorized caller...
    let res = st.update_balance_begin(AUTHORIZED, Some(MINTER), None);
    assert!(res.is_err());
    assert!(matches!(res, Err(UpdateBalanceError::SelfCustody)));
    // ... and for the anonymous caller.
    let anonymous: u64 = 0;
    let res = st.update_balance_begin(anonymous, Some(MINTER), None);
    assert!(res.is_err());
}

#[test]
fn test_minter() {
    let st = CoreState::new(InitArgs {
        custody_principal: MINTER,
        custody_key_id: 32,
        ledger_id: 0,
        retrieve_min_amount: 100_000,
        max_time_in_queue: 100,
        min_confirmations: Some(6),
        check_fee: Some(1001),
        screening_enabled: true,
        fee_base: 0,
        fee_per_input: 0,
        mode: Mode::GeneralAvailability,
    });
    let caller: u64 = 100;
    let (_, addr_1) = st.update_balance_begin(caller, None, None).expect("invalid bitcoin address");
    let (_, addr_2) = st
        .update_balance_begin(caller, None, Some(vec![1u8; 32]))
        .expect("invalid bitcoin address");
    assert_eq!(addr_1.path.len(), 48);
    assert_eq!(addr_2.path.len(), 48);
    assert_ne!(addr_1.path, addr_2.path);
}

#[test]
fn test_mode_gate_table() {
    // GeneralAvailability: both pipelines open to anyone.
    let ga = Mode::GeneralAvailability;
    assert!(ga.allows_deposits(UNAUTHORIZED));
    assert!(ga.allows_withdrawals(UNAUTHORIZED));
    // ReadOnly: both rejected for anyone.
    let ro = Mode::ReadOnly;
    assert!(!ro.allows_deposits(AUTHORIZED));
    assert!(!ro.allows_withdrawals(AUTHORIZED));
    // RestrictedTo: both open to the list only.
    let rt = Mode::RestrictedTo(vec![AUTHORIZED]);
    assert!(rt.allows_deposits(AUTHORIZED));
    assert!(rt.allows_withdrawals(AUTHORIZED));
    assert!(!rt.allows_deposits(UNAUTHORIZED));
    assert!(!rt.allows_withdrawals(UNAUTHORIZED));
    // DepositsRestrictedTo: deposits gated, withdrawals open.
    let dr = Mode::DepositsRestrictedTo(vec![AUTHORIZED]);
    assert!(dr.allows_deposits(AUTHORIZED));
    assert!(!dr.allows_deposits(UNAUTHORIZED));
    assert!(dr.allows_withdrawals(UNAUTHORIZED));
}

#[test]
fn test_read_only_rejects_and_mutates_nothing() {
    let mut st = install(Mode::GeneralAvailability);
    st.upgrade(UpgradeArgs {
        retrieve_min_amount: Some(100),
        min_confirmations: None,
        max_time_in_queue: Some(100),
        check_fee: None,
        screening_enabled: None,
        mode: Some(Mode::ReadOnly),
    });
    let res = st.update_balance_begin(AUTHORIZED, None, None);
    assert!(matches!(res, Err(UpdateBalanceError::TemporarilyUnavailable)));
    let dest: Vec<u8> = Vec::new();
    let res = st.retrieve_begin(AUTHORIZED, &dest, 10, 1);
    assert!(matches!(res, Err(RetrieveError::TemporarilyUnavailable)));
    let res = st.retrieve_accept(AUTHORIZED, vec![7u8; 20], 200, 1, 5, 10);
    assert!(matches!(res, Err(RetrieveError::TemporarilyUnavailable)));
    assert_eq!(st.ledger.entries.len(), 0);
    assert_eq!(st.queue.len(), 0);
}

#[test]
fn test_restricted_caller_reaches_validation() {
    // With RestrictedTo([P]), Q != P gets TemporarilyUnavailable; the same
    // call from P proceeds to normal validation and trips the minimum-amount
    // check instead.
    let mut st = install(Mode::GeneralAvailability);
    st.upgrade(UpgradeArgs {
        retrieve_min_amount: Some(100),
        min_confirmations: None,
        max_time_in_queue: None,
        check_fee: None,
        screening_enabled: None,
        mode: Some(Mode::RestrictedTo(vec![AUTHORIZED])),
    });
    let dest = vec![7u8; 20];
    let res = st.retrieve_begin(UNAUTHORIZED, &dest, 10, 1);
    assert!(matches!(res, Err(RetrieveError::TemporarilyUnavailable)));
    let res = st.retrieve_begin(AUTHORIZED, &dest, 10, 1);
    assert!(matches!(res, Err(RetrieveError::AmountTooLow { min_amount: 100 })));
}

#[test]
fn test_upgrade_keeps_unspecified_fields() {
    let mut st = install(Mode::GeneralAvailability);
    st.upgrade(UpgradeArgs {
        retrieve_min_amount: Some(250),
        ..no_upgrade()
    });
    assert_eq!(st.config.retrieve_min_amount, 250);
    assert_eq!(st.config.min_confirmations, 1);
    assert_eq!(st.config.max_time_in_queue, 0);
    st.upgrade(UpgradeArgs {
        min_confirmations: Some(12),
        ..no_upgrade()
    });
    // The earlier update is retained, never reset to a default.
    assert_eq!(st.config.retrieve_min_amount, 250);
    assert_eq!(st.config.min_confirmations, 12);
}
