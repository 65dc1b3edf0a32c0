use hello_old::calendar::{civil_from_days, date_string, format_unix};
use hello_old::crypto::sha3_256;
use hello_old::guard::{build_ts_guard, ts_guard_valid};
use hello_old::harden::ClockAnchor;
use hello_old::ntp::{
    build_request, consensus, drift_ok, parse_reply, unix_now_u64, whole_seconds, Reading,
};
use hello_old::shared::{KEY_LEN, NTP_SERVERS, OPEN_TIMESTAMP_UNIX_SECONDS, PASSWORD};

const S: i128 = 1_000_000_000;

fn reading(now: i128, drift: i128) -> Reading {
    Reading { now, drift }
}

#[test]
fn dates_of_day_numbers() {
    assert_eq!(civil_from_days(0), (1970, 1, 1));
    assert_eq!(civil_from_days(-1), (1969, 12, 31));
    assert_eq!(civil_from_days(59), (1970, 3, 1));
    assert_eq!(civil_from_days(11016), (2000, 2, 29));
    assert_eq!(civil_from_days(11017), (2000, 3, 1));
    assert_eq!(civil_from_days(20312), (2025, 8, 12));
    assert_eq!(civil_from_days(-719468), (0, 3, 1));
    assert_eq!(civil_from_days(-719469), (0, 2, 29));
}

#[test]
fn days_follow_each_other() {
    let mut last = civil_from_days(-200_001);
    let mut days = 0;
    for z in -200_000..200_000 {
        let next = civil_from_days(z);
        assert!(next > last);
        if next.0 == 2000 {
            days += 1;
        }
        let (y, m, d) = last;
        assert!(next == (y, m, d + 1) || next == (y, m + 1, 1) || next == (y + 1, 1, 1));
        last = next;
    }
    assert_eq!(days, 366);
}

#[test]
fn times_as_text() {
    assert_eq!(format_unix(0), "1970-01-01 00:00:00 UTC");
    assert_eq!(format_unix(1_755_000_000), "2025-08-12 12:00:00 UTC");
    assert_eq!(format_unix(951_782_399), "2000-02-28 23:59:59 UTC");
    assert_eq!(format_unix(951_782_400), "2000-02-29 00:00:00 UTC");
    assert_eq!(date_string(1_755_000_000), "2025-08-12");
}

#[test]
fn the_owners_settings() {
    assert_eq!(&PASSWORD, b"114514");
    assert_eq!(KEY_LEN, 64);
    assert_eq!(OPEN_TIMESTAMP_UNIX_SECONDS, 1_755_000_000);
    assert_eq!(NTP_SERVERS[0], "ntp.aliyun.com");
    assert_eq!(NTP_SERVERS.len(), 5);
}

#[test]
fn a_guard_holds_for_its_time_only() {
    for seed in 0..20u64 {
        let g = build_ts_guard(1_755_000_000, seed);
        assert_eq!(g.len(), 168);
        assert!(ts_guard_valid(&g, 1_755_000_000));
        assert!(!ts_guard_valid(&g, 1_755_000_001));
        assert!(!ts_guard_valid(&g, 0));
    }
}

#[test]
fn a_guard_notices_every_stray_byte() {
    let g = build_ts_guard(1_755_000_000, 9);
    assert!(ts_guard_valid(&g, 1_755_000_000));
    for i in 0..168 {
        for stray in [1, 8, 0x80] {
            let mut bad = g.clone();
            bad[i] ^= stray;
            assert!(!ts_guard_valid(&bad, 1_755_000_000));
        }
    }
    assert!(!ts_guard_valid(&g[..167], 1_755_000_000));
    assert!(!ts_guard_valid(b"", 1_755_000_000));
}

#[test]
fn a_request_says_when_it_was_sent() {
    let p = build_request(1_000_000_000);
    assert_eq!(p[0], 0x1B);
    assert_eq!(&p[24..32], &(1_000_000_000u64 + 2_208_988_800).to_be_bytes());
    assert!(p[1..24].iter().all(|b| *b == 0));
    assert!(p[32..].iter().all(|b| *b == 0));
}

#[test]
fn a_reply_gives_time_and_drift() {
    let mut p = [0u8; 48];
    p[40..44].copy_from_slice(&((2_208_988_800u64 + 1_000) as u32).to_be_bytes());
    p[44..48].copy_from_slice(&0x8000_0000u32.to_be_bytes());
    let t1 = 999 * S as i64;
    let t2 = 1001 * S as i64;
    let r = parse_reply(&p, t1, t2).unwrap();
    assert_eq!(r, reading(1001 * S + S / 2, S / 2));
    assert_eq!(parse_reply(&p[..47], t1, t2), None);
}

#[test]
fn drifts_within_ten_seconds_count() {
    assert!(drift_ok(0));
    assert!(drift_ok(10 * S - 1));
    assert!(!drift_ok(10 * S));
    assert!(drift_ok(-10 * S + 1));
    assert!(!drift_ok(-10 * S));
    assert!(!drift_ok(i128::MIN));
}

#[test]
fn the_middle_drift_wins() {
    assert_eq!(consensus(&[]), None);
    assert_eq!(consensus(&[reading(1, 10 * S)]), None);
    assert_eq!(consensus(&[reading(1, 5)]), Some(reading(1, 5)));
    let five = [
        reading(1, -9 * S),
        reading(2, 20 * S),
        reading(3, 4),
        reading(4, -6),
        reading(5, 5),
    ];
    assert_eq!(consensus(&five), Some(reading(4, -6)));
    let two = [reading(1, 3), reading(2, -3)];
    assert_eq!(consensus(&two), Some(reading(2, -3)));
}

#[test]
fn seconds_of_a_clock() {
    assert_eq!(unix_now_u64(1_999_999_999), 1);
    assert_eq!(whole_seconds(5 * S + 999_999_999), 5);
    assert_eq!(whole_seconds(-1), 0);
    assert_eq!(whole_seconds(i128::MAX), u64::MAX);
}

#[test]
fn a_clock_that_jumps_is_noticed() {
    let a = ClockAnchor::new(100, 5_000);
    assert!(a.sane(100, 5_000));
    assert!(a.sane(1_100, 6_000));
    assert!(a.sane(100, 5_000 + 1_999_999_999));
    assert!(!a.sane(100, 5_000 + 2_000_000_000));
    assert!(!a.sane(100, 5_000 - 2_000_000_000));
    assert!(!a.sane(i64::MAX, i64::MIN));
}

/// A guard put together by hand.
fn guard_by_hand(ts: u64, order: [u8; 8]) -> Vec<u8> {
    let masks: Vec<u64> = (0..8u64).map(|i| i.wrapping_mul(0x0123_4567_89ab_cdef)).collect();
    let mut chain = Vec::new();
    for k in order {
        let m = masks[k as usize % 8];
        chain.extend_from_slice(&(ts ^ m).to_le_bytes());
        chain.extend_from_slice(&m.to_le_bytes());
    }
    let mut g = Vec::new();
    for m in &masks {
        g.extend_from_slice(&(ts ^ m).to_le_bytes());
    }
    for m in &masks {
        g.extend_from_slice(&m.to_le_bytes());
    }
    g.extend_from_slice(&order);
    g.extend_from_slice(&sha3_256(&chain));
    g
}

#[test]
fn a_guard_made_by_hand_holds() {
    let g = guard_by_hand(77, [3, 1, 0, 7, 5, 2, 6, 4]);
    assert!(ts_guard_valid(&g, 77));
    assert!(!ts_guard_valid(&g, 78));
}

#[test]
fn a_guard_walks_every_fragment_once() {
    assert!(!ts_guard_valid(&guard_by_hand(77, [0, 1, 2, 3, 4, 5, 6, 6]), 77));
    assert!(!ts_guard_valid(&guard_by_hand(77, [0, 1, 2, 3, 4, 5, 6, 15]), 77));
    for seed in 0..20 {
        let mut order = build_ts_guard(77, seed)[128..136].to_vec();
        order.sort();
        assert_eq!(order, [0, 1, 2, 3, 4, 5, 6, 7]);
    }
}
