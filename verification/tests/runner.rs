use argon::runner::{worker_outcome, SlotRunnerError};

#[test]
fn worker_outcome_maps_each_ending() {
    assert!(matches!(worker_outcome(Some(Ok(Ok(())))), Ok(())));
    assert!(matches!(
        worker_outcome(Some(Ok(Err(SlotRunnerError::SlotCrash)))),
        Err(SlotRunnerError::SlotCrash)
    ));
    assert!(matches!(worker_outcome(None), Err(SlotRunnerError::SlotChannelClosed)));

    let runtime = tokio::runtime::Runtime::new().unwrap();
    let task = runtime.spawn(futures::future::pending::<Result<(), SlotRunnerError>>());
    task.abort();
    let ended = runtime.block_on(task);
    assert!(ended.is_err());
    assert!(matches!(worker_outcome(Some(ended)), Err(SlotRunnerError::SlotCrash)));
}
