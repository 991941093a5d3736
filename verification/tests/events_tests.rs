//! Readiness tokens: packing and unpacking.

use carbon::events::{EpollToken, EpollTokenKind};

#[test]
fn tokens_round_trip_through_the_payload() {
    let cases = [
        EpollToken { kind: EpollTokenKind::NewConnection, id: 0 },
        EpollToken { kind: EpollTokenKind::ClientData, id: 7 },
        EpollToken { kind: EpollTokenKind::ClientData, id: u32::MAX },
        EpollToken { kind: EpollTokenKind::NewInput, id: 0 },
    ];
    for t in cases {
        let raw = t.to_raw();
        let back = EpollToken::from_raw(raw).expect("a packed token unpacks");
        assert_eq!(back, t);
    }
}

#[test]
fn unknown_kind_codes_are_rejected() {
    assert!(EpollToken::from_raw(3).is_none());
    assert!(EpollToken::from_raw(0xFFFF_FFFF).is_none());
}
