use custody_bridge::config::InitArgs;
use custody_bridge::mode::Mode;
use custody_bridge::snapshot::{RestoreError, SNAPSHOT_VERSION};
use custody_bridge::state::{CoreState, DepositOutcome};
use custody_bridge::utxo::{LedgerEntry, OutPoint, Utxo, UtxoState};

const CALLER: u64 = 21;
const MINTER: u64 = 999;

fn populated() -> CoreState {
    let mut st = CoreState::new(InitArgs {
        custody_principal: MINTER,
        custody_key_id: 7,
        ledger_id: 11,
        retrieve_min_amount: 100,
        max_time_in_queue: 1_000,
        min_confirmations: Some(6),
        check_fee: Some(100),
        screening_enabled: true,
        fee_base: 100,
        fee_per_input: 10,
        mode: Mode::RestrictedTo(vec![CALLER]),
    });
    let (key, _) = st.update_balance_begin(CALLER, None, None).unwrap();
    for (txid, value) in [(1u64, 5_000u64), (2, 7_000), (3, 10_000)] {
        let u = Utxo { outpoint: OutPoint { txid, vout: 0 }, value };
        assert_eq!(st.mint_begin(u, &key, 6), DepositOutcome::MintStarted);
        assert!(st.mint_finalize(u.outpoint));
    }
    let id = st.retrieve_accept(CALLER, vec![7u8; 20], 11_000, 1, 42, 100).unwrap();
    st.select_pending(id).unwrap();
    st
}

#[test]
fn test_round_trip_persistence() {
    let st = populated();
    let snap = st.snapshot();
    assert_eq!(snap.version, SNAPSHOT_VERSION);
    let restored = CoreState::restore(snap).expect("a fresh snapshot must restore");

    // Structurally equal to the captured state.
    assert_eq!(restored.ledger.entries.len(), st.ledger.entries.len());
    for (a, b) in restored.ledger.entries.iter().zip(st.ledger.entries.iter()) {
        assert_eq!(a.utxo, b.utxo);
        assert_eq!(a.owner, b.owner);
        assert_eq!(a.owner_sub, b.owner_sub);
        assert_eq!(a.state, b.state);
    }
    assert_eq!(restored.queue.len(), st.queue.len());
    for (a, b) in restored.queue.iter().zip(st.queue.iter()) {
        assert_eq!(a.id, b.id);
        assert_eq!(a.caller, b.caller);
        assert_eq!(a.idem_key, b.idem_key);
        assert_eq!(a.destination, b.destination);
        assert_eq!(a.amount, b.amount);
        assert_eq!(a.escrow_block, b.escrow_block);
        assert_eq!(a.requested_at, b.requested_at);
        assert_eq!(a.inputs, b.inputs);
        assert_eq!(a.fee, b.fee);
        assert_eq!(a.change, b.change);
        assert_eq!(a.txid, b.txid);
        assert_eq!(a.submitted_at, b.submitted_at);
        assert_eq!(a.status, b.status);
    }
    assert_eq!(restored.next_request_id, st.next_request_id);
    assert_eq!(restored.config, st.config);
    match (&restored.mode, &st.mode) {
        (Mode::RestrictedTo(a), Mode::RestrictedTo(b)) => assert_eq!(a, b),
        _ => panic!("mode changed across the round trip"),
    }

    // And every invariant still holds.
    assert!(restored.check_invariants());
}

#[test]
fn test_restore_applies_version_defaults() {
    // A version-1 snapshot has no screening field; it restores with
    // screening on and everything else intact.
    let st = populated();
    let mut snap = st.snapshot();
    snap.version = 1;
    snap.screening_enabled = None;
    let restored = CoreState::restore(snap).unwrap();
    assert!(restored.config.screening_enabled);
    assert_eq!(restored.config.retrieve_min_amount, 100);
}

#[test]
fn test_restore_refuses_future_version() {
    let st = populated();
    let mut snap = st.snapshot();
    snap.version = SNAPSHOT_VERSION + 1;
    assert!(matches!(
        CoreState::restore(snap),
        Err(RestoreError::UnsupportedVersion)
    ));
    let mut snap = st.snapshot();
    snap.version = 0;
    assert!(matches!(
        CoreState::restore(snap),
        Err(RestoreError::UnsupportedVersion)
    ));
}

#[test]
fn test_restore_refuses_broken_invariants() {
    // A snapshot recording the same outpoint twice would double-credit on
    // restore; it is refused loudly.
    let st = populated();
    let mut snap = st.snapshot();
    let dup = LedgerEntry {
        utxo: Utxo { outpoint: OutPoint { txid: 1, vout: 0 }, value: 5_000 },
        owner: CALLER,
        owner_sub: vec![0u8; 32],
        state: UtxoState::Free,
    };
    snap.entries.push(dup);
    assert!(matches!(
        CoreState::restore(snap),
        Err(RestoreError::InvariantViolation)
    ));
    // A reservation without a backing request is refused too.
    let mut snap = st.snapshot();
    snap.entries.push(LedgerEntry {
        utxo: Utxo { outpoint: OutPoint { txid: 9, vout: 0 }, value: 5_000 },
        owner: CALLER,
        owner_sub: vec![0u8; 32],
        state: UtxoState::Reserved { request_id: 777 },
    });
    assert!(matches!(
        CoreState::restore(snap),
        Err(RestoreError::InvariantViolation)
    ));
}
