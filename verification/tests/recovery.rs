//! Recovery across a simulated restart, and the wire codec it rests on.

use modbot::codec::{
    decode_pinned, decode_timestamp, encode_pinned, encode_timestamp, format_user_id,
    parse_user_id,
};
use modbot::errors::ModError;
use modbot::ledger::PinnedAck;
use modbot::moderator::Moderator;

/// Writes records through the wire codec and reads them back, as a
/// process restart over the persistent store would.
fn persist_and_reload(records: &[(u64, i64)]) -> Vec<(u64, i64)> {
    let mut store: Vec<(Vec<u8>, Vec<u8>)> = Vec::new();
    for (user, expiry) in records {
        store.push((format_user_id(*user), encode_timestamp(*expiry)));
    }
    let mut reloaded = Vec::new();
    for (key, value) in &store {
        let user = parse_user_id(key).expect("stored key is a user id");
        let expiry = decode_timestamp(value).expect("stored value is a timestamp");
        reloaded.push((user, expiry));
    }
    reloaded
}

#[test]
fn recovery_restores_the_schedule() {
    let now = 10_000;
    let records = vec![(1, now + 500), (2, now - 5), (3, now + 900), (4, now)];
    let reloaded = persist_and_reload(&records);
    assert_eq!(reloaded, records);

    let (m, released) = Moderator::load_banned_users(&reloaded, now);
    // Future records keep their exact expiries; none lost, none made up.
    assert_eq!(m.ledger.get(1), Some(now + 500));
    assert_eq!(m.ledger.get(3), Some(now + 900));
    // Past-due records (and the one due exactly now) fired immediately.
    assert_eq!(m.ledger.get(2), None);
    assert_eq!(m.ledger.get(4), None);
    let mut fired = released.clone();
    fired.sort();
    assert_eq!(fired, vec![2, 4]);
}

#[test]
fn recovery_of_empty_ledger() {
    let (m, released) = Moderator::load_banned_users(&Vec::new(), 0);
    assert!(released.is_empty());
    assert_eq!(m.ledger.get(1), None);
}

#[test]
fn list_all_mirrors_the_ledger() {
    let mut m = Moderator::new();
    m.timeout(1, 100, 0);
    m.timeout(2, 200, 0);
    m.timeout(1, 300, 0); // release-then-recreate: still one record
    let mut records = m.ledger.list_all();
    records.sort();
    assert_eq!(records, vec![(1, 300), (2, 200)]);
}

#[test]
fn timestamp_codec_round_trips() {
    for t in [0i64, 1, -1, 1_600_000_000, i64::MAX, i64::MIN, -62_135_596_800] {
        let bytes = encode_timestamp(t);
        assert_eq!(bytes.len(), 8);
        assert_eq!(decode_timestamp(&bytes), Some(t));
    }
}

#[test]
fn timestamp_codec_exact_bytes() {
    assert_eq!(encode_timestamp(1), vec![0, 0, 0, 0, 0, 0, 0, 1]);
    assert_eq!(
        encode_timestamp(0x0102_0304_0506_0708),
        vec![1, 2, 3, 4, 5, 6, 7, 8]
    );
    assert_eq!(encode_timestamp(-1), vec![0xff; 8]);
}

#[test]
fn timestamp_codec_rejects_wrong_length() {
    assert_eq!(decode_timestamp(&[1, 2, 3]), None);
    assert_eq!(decode_timestamp(&[0; 9]), None);
    assert_eq!(decode_timestamp(&[]), None);
}

#[test]
fn pinned_codec_round_trips() {
    let p = PinnedAck { channel: 7, message: 0xdead_beef_0000_0001 };
    let bytes = encode_pinned(&p);
    assert_eq!(bytes.len(), 16);
    assert_eq!(decode_pinned(&bytes), Some(p));
    assert_eq!(decode_pinned(&bytes[..15]), None);
}

#[test]
fn user_id_string_form_round_trips() {
    for u in [0u64, 1, 9, 10, 42, 753785520122757211, u64::MAX] {
        let s = format_user_id(u);
        assert_eq!(parse_user_id(&s), Ok(u));
    }
    assert_eq!(format_user_id(0), b"0".to_vec());
    assert_eq!(format_user_id(42), b"42".to_vec());
    assert_eq!(format_user_id(u64::MAX), b"18446744073709551615".to_vec());
}

#[test]
fn user_id_parse_rejects_garbage() {
    assert_eq!(parse_user_id(b""), Err(ModError::MalformedIdentifier));
    assert_eq!(parse_user_id(b"12a"), Err(ModError::MalformedIdentifier));
    assert_eq!(parse_user_id(b"-1"), Err(ModError::MalformedIdentifier));
    // One past u64::MAX overflows.
    assert_eq!(
        parse_user_id(b"18446744073709551616"),
        Err(ModError::MalformedIdentifier)
    );
    assert_eq!(parse_user_id(b"18446744073709551615"), Ok(u64::MAX));
}

#[test]
fn duration_parse_matches_humantime() {
    let mut m = Moderator::new();
    // "2h 30m" is 9000 seconds; the expiry reflects the parse, not the
    // input string handed back.
    let out = m.timeout_command(b"5", "2h 30m", 1_000).expect("parses");
    assert_eq!(out.expiry, 1_000 + 9_000);
    assert_eq!(
        humantime::parse_duration("2h 30m").unwrap().as_secs(),
        9_000
    );
}

#[test]
fn saturating_expiry_at_range_end() {
    let mut m = Moderator::new();
    let out = m.timeout(1, u64::MAX, 5);
    assert_eq!(out.expiry, i64::MAX);
    assert!(!out.fired);
}
