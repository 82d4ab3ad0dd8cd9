//! Retry cookies: proof that a client can be reached at its address.

use crate::addr::PeerAddr;
use crate::crypto::{ct_eq, hmac_sha256};
use crate::wire::{get_u64, put_slice, put_u64};
use vstd::prelude::*;

verus! {

/// Maximum age in milliseconds for a retry cookie to remain valid.
///
/// A tight window limits replay while comfortably covering even high-latency
/// round trips.
pub const COOKIE_MAX_AGE_MS: u64 = 5000;

/// What a cookie vouches for: the client's address, its connection id and the
/// time of issue.
pub open spec fn cookie_claim(addr: PeerAddr, client_scid: Seq<u8>, time: u64) -> Seq<u8> {
    addr.octets() + crate::wire::be16(addr.port()) + client_scid + crate::wire::be64(time)
}

/// The cookie issued at `time`: the time, then the claim's HMAC.
pub open spec fn cookie_value(key: Seq<u8>, addr: PeerAddr, client_scid: Seq<u8>, time: u64) -> Seq<
    u8,
> {
    crate::wire::be64(time) + crate::crypto::hmac_sha256_of(
        key,
        cookie_claim(addr, client_scid, time),
    )
}

/// Whether a cookie is accepted at `now`: it is forty bytes long, was issued for
/// this address and connection id, and not later than now nor more than five
/// seconds ago.
pub open spec fn cookie_accepted(
    key: Seq<u8>,
    addr: PeerAddr,
    client_scid: Seq<u8>,
    cookie: Seq<u8>,
    now: u64,
) -> bool {
    let time = crate::wire::read_be64(cookie);
    &&& cookie.len() == 40
    &&& time <= now <= time + COOKIE_MAX_AGE_MS
    &&& cookie == cookie_value(key, addr, client_scid, time)
}

fn claim(addr: &PeerAddr, client_scid: &[u8], time: u64) -> (r: Vec<u8>)
    ensures
        r@ == cookie_claim(*addr, client_scid@, time),
{
    let mut out: Vec<u8> = Vec::new();
    addr.put(&mut out);
    put_slice(&mut out, client_scid);
    put_u64(&mut out, time);
    assert(out@ =~= cookie_claim(*addr, client_scid@, time));
    out
}

/// Creates an HMAC-based retry cookie that binds the client's address and
/// connection id. It is accepted for five seconds from `now` on, and at no other time.
pub fn make_retry_cookie(
    cookie_key: &[u8; 32],
    addr: &PeerAddr,
    client_scid: &[u8],
    now: u64,
) -> (r: [u8; 40])
    ensures
        r@ == cookie_value(cookie_key@, *addr, client_scid@, now),
        forall|later: u64|
            cookie_accepted(cookie_key@, *addr, client_scid@, r@, later) <==> now <= later <= now
                + COOKIE_MAX_AGE_MS,
{
    let message = claim(addr, client_scid, now);
    let hash = hmac_sha256(cookie_key, message.as_slice());
    let mut time_bytes: Vec<u8> = Vec::new();
    put_u64(&mut time_bytes, now);
    let mut cookie = [0u8; 40];
    let mut i: usize = 0;
    while i < 40
        invariant
            i <= 40,
            time_bytes@ == crate::wire::be64(now),
            forall|j: int|
                0 <= j < i ==> cookie@[j] == if j < 8 {
                    time_bytes@[j]
                } else {
                    hash@[j - 8]
                },
        decreases 40 - i,
    {
        if i < 8 {
            cookie[i] = time_bytes[i];
        } else {
            cookie[i] = hash[i - 8];
        }
        i = i + 1;
    }
    proof {
        assert(cookie@ =~= cookie_value(cookie_key@, *addr, client_scid@, now));
        crate::wire::law_be64_round_trip(now);
        assert(crate::wire::read_be64(cookie@) == crate::wire::read_be64(crate::wire::be64(now)));
    }
    cookie
}

/// Verifies a retry cookie against the client's address and connection id.
pub fn verify_retry_cookie(
    cookie_key: &[u8; 32],
    addr: &PeerAddr,
    client_scid: &[u8],
    cookie: &[u8],
    now: u64,
) -> (r: bool)
    ensures
        r == cookie_accepted(cookie_key@, *addr, client_scid@, cookie@, now),
{
    if cookie.len() != 40 {
        return false;
    }
    let cookie_time: u64 = get_u64(cookie);
    if now < cookie_time || now - cookie_time > COOKIE_MAX_AGE_MS {
        return false;
    }
    let message = claim(addr, client_scid, cookie_time);
    let hash = hmac_sha256(cookie_key, message.as_slice());
    let r = ct_eq(hash.as_slice(), vstd::slice::slice_subrange(cookie, 8, 40));
    proof {
        let want = cookie_value(cookie_key@, *addr, client_scid@, cookie_time);
        crate::wire::law_read_then_write(cookie@);
        assert(hash@.len() == 32);
        if r {
            assert(cookie@ =~= want) by {
                assert forall|i: int| 0 <= i < 40 implies cookie@[i] == want[i] by {
                    if i >= 8 {
                        assert(cookie@[i] == cookie@.subrange(8, 40)[i - 8]);
                    } else {
                        assert(cookie@[i] == cookie@.take(8)[i]);
                    }
                }
            }
        } else if cookie@ == want {
            assert(cookie@.subrange(8, 40) =~= hash@);
        }
    }
    r
}

/// A cookie is good for five seconds. One that is accepted is forty bytes long,
/// begins with the time of its issue, which lies at most 5000 milliseconds back
/// and not ahead, and goes on with the HMAC of address, port, connection id and
/// time; and every such cookie is accepted.
pub proof fn law_cookies_are_good_for_five_seconds(
    key: Seq<u8>,
    addr: PeerAddr,
    client_scid: Seq<u8>,
    time: u64,
    now: u64,
    cookie: Seq<u8>,
)
    requires
        cookie.len() == 40,
        cookie.take(8) == crate::wire::be64(time),
    ensures
        cookie_accepted(key, addr, client_scid, cookie, now) <==> {
            &&& time <= now
            &&& now - time <= 5000
            &&& cookie.skip(8) == crate::crypto::hmac_sha256_of(
                key,
                addr.octets() + crate::wire::be16(addr.port()) + client_scid + crate::wire::be64(
                    time,
                ),
            )
        },
{
    crate::wire::law_be64_round_trip(time);
    assert(crate::wire::read_be64(cookie) == crate::wire::read_be64(cookie.take(8)));
    let mac = crate::crypto::hmac_sha256_of(
        key,
        addr.octets() + crate::wire::be16(addr.port()) + client_scid + crate::wire::be64(time),
    );
    let want = crate::wire::be64(time) + mac;
    if cookie.skip(8) == mac {
        assert(cookie =~= cookie.take(8) + cookie.skip(8));
    }
    if cookie == want {
        assert(want.skip(8) =~= mac);
    }
}

/// Nothing that is not forty bytes long is a cookie.
pub proof fn law_cookies_have_forty_bytes(
    key: Seq<u8>,
    addr: PeerAddr,
    client_scid: Seq<u8>,
    now: u64,
    cookie: Seq<u8>,
)
    ensures
        cookie_accepted(key, addr, client_scid, cookie, now) ==> cookie.len() == 40,
{
}

/// A cookie that was issued spells the time and the claim's HMAC.
pub proof fn law_cookies_begin_with_the_time(
    key: Seq<u8>,
    addr: PeerAddr,
    client_scid: Seq<u8>,
    time: u64,
)
    ensures
        cookie_value(key, addr, client_scid, time).take(8) == crate::wire::be64(time),
        cookie_value(key, addr, client_scid, time).skip(8) == crate::crypto::hmac_sha256_of(
            key,
            addr.octets() + crate::wire::be16(addr.port()) + client_scid + crate::wire::be64(time),
        ),
{
    let mac = crate::crypto::hmac_sha256_of(key, cookie_claim(addr, client_scid, time));
    assert((crate::wire::be64(time) + mac).take(8) =~= crate::wire::be64(time));
    assert((crate::wire::be64(time) + mac).skip(8) =~= mac);
}

} // verus!
