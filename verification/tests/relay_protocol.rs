use wavegen_relay::relay::RelayChannel;

#[test]
fn one_request_lifecycle() {
    let mut ch = RelayChannel::new();
    assert!(ch.submit(b"first".to_vec()));
    let taken = ch.take_pending().unwrap();
    assert_eq!(taken, b"first".to_vec());
    assert!(ch.fulfill(b"done".to_vec()).is_ok());
    let resp = ch.take_response().unwrap();
    assert_eq!(resp, b"done".to_vec());
}

#[test]
fn second_submit_blocks_until_first_is_fulfilled_and_collected() {
    let mut ch = RelayChannel::new();
    assert!(ch.submit(b"first".to_vec()));
    // Pending: a second submit is refused and the first request survives.
    assert!(!ch.submit(b"second".to_vec()));
    let taken = ch.take_pending().unwrap();
    assert_eq!(taken, b"first".to_vec());
    // Taken but not fulfilled: still refused.
    assert!(!ch.submit(b"second".to_vec()));
    assert!(ch.fulfill(b"done".to_vec()).is_ok());
    // Fulfilled but not collected: still refused.
    assert!(!ch.submit(b"second".to_vec()));
    let resp = ch.take_response().unwrap();
    assert_eq!(resp, b"done".to_vec());
    // Only now is the slot free again.
    assert!(ch.submit(b"second".to_vec()));
    assert_eq!(ch.take_pending().unwrap(), b"second".to_vec());
}

#[test]
fn poll_with_nothing_pending_hands_out_nothing() {
    let mut ch = RelayChannel::new();
    assert!(ch.take_pending().is_none());
    assert!(ch.submit(b"req".to_vec()));
    let _ = ch.take_pending().unwrap();
    // A second poll while the first request awaits its result gets nothing.
    assert!(ch.take_pending().is_none());
}

#[test]
fn fulfill_without_outstanding_request_is_a_protocol_violation() {
    let mut ch = RelayChannel::new();
    assert!(ch.fulfill(b"stray".to_vec()).is_err());
    assert!(ch.submit(b"req".to_vec()));
    // Still pending, not yet handed out: a result cannot belong to it.
    assert!(ch.fulfill(b"stray".to_vec()).is_err());
    let _ = ch.take_pending().unwrap();
    assert!(ch.fulfill(b"done".to_vec()).is_ok());
    // Fulfilling twice is a protocol violation too.
    assert!(ch.fulfill(b"again".to_vec()).is_err());
    assert_eq!(ch.take_response().unwrap(), b"done".to_vec());
}
