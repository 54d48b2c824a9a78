use b3_wallet::chain::ChainKind;
use b3_wallet::errors::RequestError;
use b3_wallet::ledger::Ledger;
use b3_wallet::request::{RequestArgs, RequestEngine, RequestOp, RequestStatus, Roles};
use b3_wallet::subaccount::{Environment, Subaccount};

fn rename_args(deadline: Option<u64>) -> RequestArgs {
    RequestArgs {
        role: Roles::Admin,
        deadline,
        op: RequestOp::RenameAccount {
            account_id: "default".to_string(),
            new_name: "Savings".to_string(),
        },
    }
}

#[test]
fn submit_yields_strictly_increasing_ids() {
    let mut engine = RequestEngine::new();
    let mut last: Option<u64> = None;
    for _ in 0..5 {
        let id = engine.submit(rename_args(None));
        if let Some(prev) = last {
            assert!(id > prev);
        }
        last = Some(id);
    }
    let snapshot = engine.requests();
    assert_eq!(snapshot.len(), 5);
    for window in snapshot.windows(2) {
        assert!(window[0].id < window[1].id);
    }
}

#[test]
fn expired_requests_are_never_executed() {
    let mut engine = RequestEngine::new();
    let id = engine.submit(rename_args(Some(100)));
    // past the deadline: the request fails with Expired and is evicted
    let r = engine.execute(id, Roles::Admin, 101);
    assert_eq!(r.err(), Some(RequestError::Expired));
    assert!(engine.requests().is_empty());
    // and can never be completed afterwards
    assert_eq!(
        engine.record_outcome(id, true),
        Err(RequestError::RequestNotFound)
    );
}

#[test]
fn deadline_is_inclusive() {
    let mut engine = RequestEngine::new();
    let id = engine.submit(rename_args(Some(100)));
    // exactly at the deadline the request still executes
    assert!(engine.execute(id, Roles::Admin, 100).is_ok());
}

#[test]
fn terminal_requests_fail_with_already_executed() {
    let mut engine = RequestEngine::new();
    let id = engine.submit(rename_args(None));
    let op = engine.execute(id, Roles::Admin, 0).unwrap();
    assert!(matches!(op, RequestOp::RenameAccount { .. }));
    engine.record_outcome(id, true).unwrap();
    // the terminal record leaves the pending snapshot but stays refusable
    assert!(engine.requests().is_empty());
    assert_eq!(engine.execute(id, Roles::Admin, 0).err(), Some(RequestError::AlreadyExecuted));

    let failed = engine.submit(rename_args(None));
    engine.execute(failed, Roles::Admin, 0).unwrap();
    engine.record_outcome(failed, false).unwrap();
    assert_eq!(engine.execute(failed, Roles::Admin, 0).err(), Some(RequestError::AlreadyExecuted));
}

#[test]
fn roles_gate_execution() {
    let mut engine = RequestEngine::new();
    let id = engine.submit(rename_args(None));
    assert_eq!(engine.execute(id, Roles::Signer, 0).err(), Some(RequestError::Forbidden));
    // the request is untouched and an admin can still execute it
    assert!(engine.execute(id, Roles::Admin, 0).is_ok());
}

#[test]
fn unknown_ids_are_rejected() {
    let mut engine = RequestEngine::new();
    assert_eq!(engine.execute(7, Roles::Admin, 0).err(), Some(RequestError::RequestNotFound));
}

#[test]
fn deploy_contract_is_validated_on_submission() {
    let owner: Vec<u8> = vec![1];
    let mut ledger = Ledger::new(Subaccount::new(Environment::Production, 0), &owner);
    let mut engine = RequestEngine::new();
    let args = RequestArgs {
        role: Roles::Admin,
        deadline: None,
        op: RequestOp::DeployContract {
            account_id: "default".to_string(),
            chain_id: 1,
            nonce: 0,
            byte_code: vec![0x60, 0x60],
        },
    };
    // no EVM binding for chain 1 yet: rejected synchronously, nothing queued
    let r = engine.submit_validated(args, &ledger);
    assert_eq!(r.err(), Some(RequestError::ChainNotInitialized));
    assert!(engine.requests().is_empty());

    // a rename needs no binding and is queued
    let ok = engine.submit_validated(rename_args(None), &ledger);
    assert!(ok.is_ok());
    assert_eq!(engine.requests().len(), 1);

    // once a key is set and the chain bound, the deployment queues too
    let mut key = vec![0x02];
    key.extend_from_slice(&[
        0x79, 0xBE, 0x66, 0x7E, 0xF9, 0xDC, 0xBB, 0xAC, 0x55, 0xA0, 0x62, 0x95, 0xCE, 0x87, 0x0B,
        0x07, 0x02, 0x9B, 0xFC, 0xDB, 0x2D, 0xCE, 0x28, 0xD9, 0x59, 0xF2, 0x81, 0x5B, 0x16, 0xF8,
        0x17, 0x98,
    ]);
    ledger.set_ecdsa_public_key(key).unwrap();
    ledger.bind_chain(&ChainKind::Evm(1)).unwrap();
    let args = RequestArgs {
        role: Roles::Admin,
        deadline: None,
        op: RequestOp::DeployContract {
            account_id: "default".to_string(),
            chain_id: 1,
            nonce: 0,
            byte_code: vec![0x60, 0x60],
        },
    };
    assert!(engine.submit_validated(args, &ledger).is_ok());
}

#[test]
fn snapshot_lists_only_pending_requests() {
    let mut engine = RequestEngine::new();
    let first = engine.submit(rename_args(None));
    let second = engine.submit(rename_args(None));
    engine.execute(first, Roles::Admin, 0).unwrap();
    engine.record_outcome(first, true).unwrap();
    // only the still-pending request appears, in id order
    let snapshot = engine.requests();
    assert_eq!(snapshot.len(), 1);
    assert_eq!(snapshot[0].id, second);
    assert_eq!(snapshot[0].status, RequestStatus::Pending);
}
