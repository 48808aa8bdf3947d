use pm_reader::frame::{bytes_wanted, find_payload, step, SyncState, HEADER, SYNC, TRAILER};

fn payload(first: u8) -> Vec<u8> {
    vec![first, 0x00, 0x96, 0x00, 0x11, 0x22, 0x33, TRAILER]
}

#[test]
fn skips_leading_noise() {
    let d = payload(0x64);
    let mut s = vec![0x00, HEADER, SYNC];
    s.extend_from_slice(&d);
    let f = find_payload(&s).unwrap();
    assert_eq!(f.payload, d);
    assert_eq!(f.end, 11);
}

#[test]
fn recovers_after_bad_trailer() {
    let mut bad = vec![HEADER, SYNC, 1, 2, 3, 4, 5, 6, 7, 0x00];
    let good = payload(0x07);
    bad.push(HEADER);
    bad.push(SYNC);
    bad.extend_from_slice(&good);
    let f = find_payload(&bad).unwrap();
    assert_eq!(f.payload, good);
    assert_eq!(f.end, 20);
}

#[test]
fn only_the_first_packet_is_returned() {
    let mut s = vec![HEADER, SYNC];
    s.extend_from_slice(&payload(1));
    s.push(HEADER);
    s.push(SYNC);
    s.extend_from_slice(&payload(2));
    let f = find_payload(&s).unwrap();
    assert_eq!(f.payload, payload(1));
    assert_eq!(f.end, 10);
    let g = find_payload(&s[f.end..]).unwrap();
    assert_eq!(g.payload, payload(2));
}

#[test]
fn empty_and_short_streams_give_nothing() {
    assert!(find_payload(&[]).is_none());
    assert!(find_payload(&[HEADER]).is_none());
    assert!(find_payload(&[HEADER, SYNC, 1, 2, 3]).is_none());
    let mut s = vec![HEADER, SYNC];
    s.extend_from_slice(&payload(0)[..7]);
    assert!(find_payload(&s).is_none());
}

#[test]
fn failed_sync_does_not_reuse_the_byte() {
    // The second header byte is consumed as the failed sync byte, so the
    // packet that starts there is not recognised.
    let mut s = vec![HEADER, HEADER, SYNC];
    s.extend_from_slice(&payload(9));
    assert!(find_payload(&s).is_none());
}

#[test]
fn payload_bytes_are_not_rescanned() {
    // A wrong trailer drops all eight payload bytes, even one that holds a
    // header and sync pair.
    let mut s = vec![HEADER, SYNC, HEADER, SYNC, 1, 2, 3, 4, 5, 6];
    s.extend_from_slice(&payload(3)[..6]);
    assert!(find_payload(&s).is_none());
}

#[test]
fn step_transitions() {
    assert_eq!(bytes_wanted(SyncState::ScanHeader), 1);
    assert_eq!(bytes_wanted(SyncState::ScanSync), 1);
    assert_eq!(bytes_wanted(SyncState::ReadPayload), 8);

    let (s, p) = step(SyncState::ScanHeader, &[0x00]);
    assert_eq!(s, SyncState::ScanHeader);
    assert!(p.is_none());
    let (s, p) = step(SyncState::ScanHeader, &[HEADER]);
    assert_eq!(s, SyncState::ScanSync);
    assert!(p.is_none());
    let (s, p) = step(SyncState::ScanSync, &[HEADER]);
    assert_eq!(s, SyncState::ScanHeader);
    assert!(p.is_none());
    let (s, p) = step(SyncState::ScanSync, &[SYNC]);
    assert_eq!(s, SyncState::ReadPayload);
    assert!(p.is_none());
    let (s, p) = step(SyncState::ReadPayload, &[1, 2, 3, 4, 5, 6, 7, 8]);
    assert_eq!(s, SyncState::ScanHeader);
    assert!(p.is_none());
    let (s, p) = step(SyncState::ReadPayload, &payload(5));
    assert_eq!(s, SyncState::ScanHeader);
    assert_eq!(p, Some(payload(5)));
}
