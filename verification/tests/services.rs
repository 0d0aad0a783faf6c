use custody_bridge::services::{DeployedServices, PollAction, Sns, poll_decision};

fn full() -> DeployedServices {
    DeployedServices {
        ledger_canister_id: Some(1),
        governance_canister_id: Some(2),
        index_canister_id: Some(3),
        swap_canister_id: Some(4),
        root_canister_id: Some(5),
    }
}

#[test]
fn test_registry_from_complete_deployment() {
    let sns = Sns::from_deployed(&full()).unwrap();
    assert_eq!(sns.ledger, 1);
    assert_eq!(sns.governance, 2);
    assert_eq!(sns.index, 3);
    assert_eq!(sns.swap, 4);
    assert_eq!(sns.root, 5);
}

#[test]
fn test_registry_rejects_incomplete_deployment() {
    // The same message is reused for every missing field, the ledger's
    // included.
    let mut d = full();
    d.ledger_canister_id = None;
    assert_eq!(Sns::from_deployed(&d).unwrap_err(), "ledger_canister_id not found");
    let mut d = full();
    d.governance_canister_id = None;
    assert_eq!(Sns::from_deployed(&d).unwrap_err(), "ledger_canister_id not found");
    let mut d = full();
    d.root_canister_id = None;
    assert_eq!(Sns::from_deployed(&d).unwrap_err(), "ledger_canister_id not found");
}

#[test]
fn test_upgrade_steps_request_layout() {
    let sns = Sns::from_deployed(&full()).unwrap();
    let req = sns.upgrade_steps_request(Some(40));
    assert_eq!(req.limit, 0);
    assert_eq!(req.governance_canister_id, Some(2));
    assert_eq!(req.starting_at, Some(40));
    let req = sns.upgrade_steps_request(None);
    assert_eq!(req.starting_at, None);
}

#[test]
fn test_poll_decision() {
    assert_eq!(poll_decision(true, 0, 20), PollAction::Done);
    assert_eq!(poll_decision(true, 20, 20), PollAction::Done);
    assert_eq!(poll_decision(false, 0, 20), PollAction::Retry);
    assert_eq!(poll_decision(false, 19, 20), PollAction::Retry);
    assert_eq!(poll_decision(false, 20, 20), PollAction::GiveUp);
}
