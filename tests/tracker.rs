use substrate_api_client::error::ClientError;
use substrate_api_client::status::{StatusTracker, StatusUpdate, WaitOutcome, XtStatus};

fn update(status: XtStatus, block: Option<[u8; 32]>) -> StatusUpdate {
    StatusUpdate { status, block }
}

fn progression() -> Vec<StatusUpdate> {
    vec![
        update(XtStatus::Future, None),
        update(XtStatus::Ready, None),
        update(XtStatus::Broadcast, None),
        update(XtStatus::InBlock, Some([7u8; 32])),
        update(XtStatus::Finalized, Some([9u8; 32])),
    ]
}

#[test]
fn finalized_waiter_unblocks_after_last_notification() {
    let mut t = StatusTracker::new(XtStatus::Finalized).unwrap();
    let updates = progression();
    for u in &updates[..4] {
        assert_eq!(t.observe(*u), WaitOutcome::Pending);
    }
    assert_eq!(t.observe(updates[4]), WaitOutcome::Reached(Some([9u8; 32])));
    assert_eq!(t.current(), Some(XtStatus::Finalized));
}

#[test]
fn ready_waiter_unblocks_at_first_ready() {
    let mut t = StatusTracker::new(XtStatus::Ready).unwrap();
    let (read, outcome) = t.drive(&progression());
    assert_eq!(read, 2);
    assert_eq!(outcome, WaitOutcome::Reached(None));
    assert_eq!(t.current(), Some(XtStatus::Ready));
}

#[test]
fn drive_reads_whole_progression_for_finalized() {
    let mut t = StatusTracker::new(XtStatus::Finalized).unwrap();
    let (read, outcome) = t.drive(&progression());
    assert_eq!(read, 5);
    assert_eq!(outcome, WaitOutcome::Reached(Some([9u8; 32])));
}

#[test]
fn in_block_waiter_gets_block_hash() {
    let mut t = StatusTracker::new(XtStatus::InBlock).unwrap();
    let (read, outcome) = t.drive(&progression());
    assert_eq!(read, 4);
    assert_eq!(outcome, WaitOutcome::Reached(Some([7u8; 32])));
}

#[test]
fn broadcast_waiter_gets_no_hash() {
    let mut t = StatusTracker::new(XtStatus::Broadcast).unwrap();
    let (read, outcome) = t.drive(&progression());
    assert_eq!(read, 3);
    assert_eq!(outcome, WaitOutcome::Reached(None));
}

#[test]
fn invalid_unblocks_every_waiter() {
    for target in [XtStatus::Ready, XtStatus::Broadcast, XtStatus::InBlock, XtStatus::Finalized] {
        let mut t = StatusTracker::new(target).unwrap();
        let updates = vec![update(XtStatus::Future, None), update(XtStatus::Invalid, None)];
        let (read, outcome) = t.drive(&updates);
        assert_eq!(read, 2);
        assert_eq!(outcome, WaitOutcome::Failed(XtStatus::Invalid));
    }
}

#[test]
fn invalid_after_ready_fails_finalized_waiter() {
    let mut t = StatusTracker::new(XtStatus::Finalized).unwrap();
    assert_eq!(t.observe(update(XtStatus::Ready, None)), WaitOutcome::Pending);
    assert_eq!(
        t.observe(update(XtStatus::Invalid, None)),
        WaitOutcome::Failed(XtStatus::Invalid)
    );
    assert_eq!(t.current(), Some(XtStatus::Invalid));
}

#[test]
fn out_of_order_notification_is_taken() {
    let mut t = StatusTracker::new(XtStatus::Finalized).unwrap();
    t.observe(update(XtStatus::InBlock, Some([1u8; 32])));
    t.observe(update(XtStatus::Ready, None));
    assert_eq!(t.current(), Some(XtStatus::Ready));
}

#[test]
fn waiting_for_future_is_a_configuration_error() {
    assert!(matches!(
        StatusTracker::new(XtStatus::Future),
        Err(ClientError::ConfigurationError)
    ));
    assert!(matches!(
        StatusTracker::new(XtStatus::Dropped),
        Err(ClientError::ConfigurationError)
    ));
}

#[test]
fn pending_when_no_notification_decides() {
    let mut t = StatusTracker::new(XtStatus::InBlock).unwrap();
    let (read, outcome) = t.drive(&vec![update(XtStatus::Ready, None)]);
    assert_eq!(read, 1);
    assert_eq!(outcome, WaitOutcome::Pending);
    assert_eq!(t.target(), XtStatus::InBlock);
}
