//! Retry cookies.

use hmac::{Hmac, KeyInit, Mac};
use zetta_transport::addr::PeerAddr;
use zetta_transport::cookie::{make_retry_cookie, verify_retry_cookie};

fn make_addr() -> PeerAddr {
    PeerAddr::V4 { ip4: u32::from_be_bytes([127, 0, 0, 1]), port4: 8080 }
}

#[test]
fn cookie_verify_valid() {
    let key = [1u8; 32];
    let addr = make_addr();
    let scid = b"client_scid";
    let now = 1000u64;

    let cookie = make_retry_cookie(&key, &addr, scid, now);
    assert!(verify_retry_cookie(&key, &addr, scid, &cookie, now));
}

#[test]
fn cookie_verify_expired() {
    let key = [1u8; 32];
    let addr = make_addr();
    let scid = b"client_scid";
    let cookie = make_retry_cookie(&key, &addr, scid, 1000);
    assert!(!verify_retry_cookie(&key, &addr, scid, &cookie, 6001));
}

#[test]
fn cookie_verify_wrong_ip() {
    let key = [1u8; 32];
    let addr1 = make_addr();
    let addr2 = PeerAddr::V4 { ip4: u32::from_be_bytes([192, 168, 1, 1]), port4: 8080 };
    let scid = b"client_scid";
    let cookie = make_retry_cookie(&key, &addr1, scid, 1000);
    assert!(!verify_retry_cookie(&key, &addr2, scid, &cookie, 1000));
}

#[test]
fn cookie_verify_wrong_scid() {
    let key = [1u8; 32];
    let addr = make_addr();
    let cookie = make_retry_cookie(&key, &addr, b"scid_A", 1000);
    assert!(!verify_retry_cookie(&key, &addr, b"scid_B", &cookie, 1000));
}

#[test]
fn cookie_wrong_length_rejected() {
    let key = [1u8; 32];
    let addr = make_addr();
    assert!(!verify_retry_cookie(&key, &addr, b"scid", b"too_short", 1000));
    assert!(!verify_retry_cookie(&key, &addr, b"scid", &[0u8; 50], 1000));
}

#[test]
fn cookie_timing_boundary() {
    let key = [1u8; 32];
    let addr = make_addr();
    let scid = b"s";
    let cookie = make_retry_cookie(&key, &addr, scid, 1000);
    assert!(verify_retry_cookie(&key, &addr, scid, &cookie, 6000));
    assert!(!verify_retry_cookie(&key, &addr, scid, &cookie, 6001));
}

#[test]
fn cookie_from_the_future_is_refused() {
    let key = [1u8; 32];
    let addr = make_addr();
    let cookie = make_retry_cookie(&key, &addr, b"s", 1000);
    assert!(!verify_retry_cookie(&key, &addr, b"s", &cookie, 999));
}

#[test]
fn cookie_starts_with_its_time_and_binds_every_bit() {
    let key = [7u8; 32];
    let addr = PeerAddr::V6 { ip6: 1, port6: 443, flowinfo: 0, scope_id: 0 };
    let cookie = make_retry_cookie(&key, &addr, b"abc", 0x0102030405060708);
    assert_eq!(&cookie[..8], &[1, 2, 3, 4, 5, 6, 7, 8]);
    for i in 8..40 {
        let mut forged = cookie;
        forged[i] ^= 1;
        assert!(!verify_retry_cookie(&key, &addr, b"abc", &forged, 0x0102030405060708));
    }
    assert!(!verify_retry_cookie(&[8u8; 32], &addr, b"abc", &cookie, 0x0102030405060708));
}

#[test]
fn cookie_holds_the_hmac_of_address_port_id_and_time() {
    let key = [3u8; 32];
    let addr = make_addr();
    let cookie = make_retry_cookie(&key, &addr, b"id", 1000);
    let mut mac = Hmac::<sha2::Sha256>::new_from_slice(&key).unwrap();
    mac.update(&[127, 0, 0, 1]);
    mac.update(&8080u16.to_be_bytes());
    mac.update(b"id");
    mac.update(&1000u64.to_be_bytes());
    assert_eq!(&cookie[8..], &mac.finalize().into_bytes()[..]);
}
