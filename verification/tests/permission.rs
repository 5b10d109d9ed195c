//! Pending permission requests.

use futures::executor::block_on;
use lapce_agent::permission::{
    permission_outcome, reply_counts, PermissionBroker, PermissionOutcome,
};

#[test]
fn reply_resolves_the_matching_request() {
    let mut broker = PermissionBroker::new();
    let (id, rx) = broker.register();
    assert!(broker.reply(id, Some("allow".to_string())));
    assert_eq!(block_on(rx), Ok(Some("allow".to_string())));
}

#[test]
fn reply_goes_to_no_other_request() {
    let mut broker = PermissionBroker::new();
    let (a, rx_a) = broker.register();
    let (b, rx_b) = broker.register();
    assert!(broker.reply(b, None));
    assert!(broker.reply(a, Some("once".to_string())));
    assert_eq!(block_on(rx_a), Ok(Some("once".to_string())));
    assert_eq!(block_on(rx_b), Ok(None));
}

#[test]
fn reply_to_unknown_id_returns_false() {
    let mut broker = PermissionBroker::new();
    assert!(!broker.reply(99, None));
}

#[test]
fn ids_are_unique() {
    let mut broker = PermissionBroker::new();
    let (a, _rx_a) = broker.register();
    let (b, _rx_b) = broker.register();
    assert_ne!(a, b);
}

#[test]
fn ids_count_up_from_zero() {
    let mut broker = PermissionBroker::new();
    for expected in 0..4u64 {
        let (id, _rx) = broker.register();
        assert_eq!(id, expected);
    }
}

#[test]
fn cancel_all_wakes_every_waiter_with_cancelled() {
    let mut broker = PermissionBroker::new();
    let (_, rx1) = broker.register();
    let (_, rx2) = broker.register();
    broker.cancel_all();
    assert!(block_on(rx1).is_err());
    assert!(block_on(rx2).is_err());
}

#[test]
fn a_reply_is_delivered_once() {
    let mut broker = PermissionBroker::new();
    let (id, _rx) = broker.register();
    assert!(broker.reply(id, None));
    assert!(!broker.reply(id, None));
}

#[test]
fn a_reply_that_nobody_waits_for_does_not_count() {
    let mut broker = PermissionBroker::new();
    let (id, rx) = broker.register();
    drop(rx);
    assert!(!broker.reply(id, Some("allow".to_string())));
    assert!(broker.take(id).is_none());
}

#[test]
fn a_reply_counts_when_it_was_handed_over() {
    assert!(reply_counts(Some(Ok(()))));
    assert!(!reply_counts(Some(Err(None))));
    assert!(!reply_counts(None));
}

#[test]
fn the_answer_to_the_agent() {
    assert_eq!(
        permission_outcome(Some(Some("allow".to_string()))),
        PermissionOutcome::Selected("allow".to_string())
    );
    assert_eq!(
        permission_outcome(Some(None)),
        PermissionOutcome::Cancelled
    );
    assert_eq!(permission_outcome(None), PermissionOutcome::Cancelled);
}

#[test]
fn a_reply_counts_only_for_an_open_request() {
    let mut broker = PermissionBroker::new();
    assert!(!broker.reply(0, None));
    let (a, rx_a) = broker.register();
    let (b, rx_b) = broker.register();
    assert_eq!((a, b), (0, 1));
    assert!(broker.reply(b, Some("once".to_string())));
    assert!(!broker.reply(b, Some("again".to_string())));
    broker.cancel_all();
    assert!(!broker.reply(a, Some("late".to_string())));
    let (c, rx_c) = broker.register();
    assert!(!broker.reply(a, None));
    assert!(broker.reply(c, Some("new".to_string())));
    assert!(block_on(rx_a).is_err());
    assert_eq!(block_on(rx_b), Ok(Some("once".to_string())));
    assert_eq!(block_on(rx_c), Ok(Some("new".to_string())));
}
