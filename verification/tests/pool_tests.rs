use order_server::pool::PoolLedger;

#[test]
fn closed_pool_admits_no_job() {
    let mut ledger = PoolLedger::new();
    assert!(ledger.try_submit());
    assert!(ledger.try_submit());
    ledger.close();
    let before = ledger;
    assert!(!ledger.try_submit());
    assert!(!ledger.try_submit());
    assert_eq!(ledger, before);
}

#[test]
fn shutdown_waits_until_every_job_ran() {
    let mut ledger = PoolLedger::new();
    for _ in 0..3 {
        assert!(ledger.try_submit());
    }
    ledger.close();
    assert!(!ledger.drained());
    ledger.complete();
    assert!(!ledger.drained());
    ledger.complete();
    ledger.complete();
    assert!(ledger.drained());
}

#[test]
fn fresh_pool_is_drained_and_open() {
    let ledger = PoolLedger::new();
    assert!(ledger.drained());
    assert_eq!(ledger.submitted, 0);
    assert_eq!(ledger.completed, 0);
    assert!(!ledger.closed);
}
