//! Connections that acknowledge cumulatively.
//!
//! A lighter kind of connection: 128 packets of replay history in one word, an
//! acknowledgement that covers everything up to its number, and a sender that
//! keeps whole packets for retransmission. Times are nanoseconds on a monotonic
//! clock.

use crate::addr::PeerAddr;
use crate::config::MILLISECOND;
use crate::congestion::increase;
use crate::connection_state::ConnectionState;
use crate::error::ZtError;
use crate::payload::{bytes_clone, bytes_from_vec, bytes_len};
use crate::ranges::{entries_in_order, first_entry, keys_in_order};
use crate::space::take_packet_number;
use crate::stream_buffer::lay_down;
use crate::totals::key_list;
use bytes::Bytes;
use std::collections::{BTreeMap, HashMap};
use vstd::prelude::*;

verus! {

broadcast use {
    vstd::std_specs::hash::group_hash_axioms,
    vstd::std_specs::btree::group_btree_axioms,
};

/// How many packets the replay mask remembers.
pub const REPLAY_PACKETS: u64 = 128;

/// Whether bit `d` of a mask is set.
pub open spec fn mask_bit(mask: u128, d: u64) -> bool {
    (mask & (1u128 << d)) != 0
}

/// A stream of such a connection.
pub struct StreamState {
    pub expected_rx_offset: u64,
    pub next_tx_offset: u64,
    /// The ring, allocated when the first data arrives.
    pub ring_buffer: Option<Vec<u8>>,
    /// What arrived, from the start of each range to its end.
    pub received_ranges: BTreeMap<u64, u64>,
    pub window_size: u64,
    pub buffered_bytes: usize,
    pub last_acked_offset: u64,
    pub dup_ack_count: u8,
    pub unacked_pns: BTreeMap<u64, u64>,
}

/// A packet that has been sent but not yet acknowledged.
pub struct UnackedPacket {
    pub data: Bytes,
    pub sent_at: u64,
    pub retries: u32,
    pub stream_id: u32,
    pub start_offset: u64,
    pub end_offset: u64,
    pub is_mtu_probe: bool,
}

/// A connection that acknowledges cumulatively.
pub struct ZtConnection {
    pub addr: PeerAddr,
    pub dcid: Vec<u8>,
    pub scid: Vec<u8>,
    pub state: ConnectionState,
    pub next_packet_number: u64,
    pub last_activity: u64,
    pub has_keys: bool,
    pub streams: HashMap<u32, StreamState>,
    pub mtu_probes: HashMap<u64, usize>,
    pub unacked_packets: BTreeMap<u64, UnackedPacket>,
    pub rtt: u64,
    pub rttvar: u64,
    pub rtt_initialized: bool,
    pub local_window: u32,
    pub remote_window: u32,
    pub cwnd: usize,
    pub ssthresh: usize,
    pub bytes_in_flight: usize,
    pub mtu: usize,
    pub highest_processed_pn: Option<u64>,
    pub bytes_received: usize,
    pub bytes_sent: usize,
    pub replay_bitmask: u128,
    pub current_key_epoch: u64,
}

impl StreamState {
    /// What a stream looks like on which nothing has happened.
    pub open spec fn is_fresh(&self) -> bool {
        &&& self.wf()
        &&& self.received_ranges@ == Map::<u64, u64>::empty()
        &&& self.unacked_pns@ == Map::<u64, u64>::empty()
        &&& *self == (StreamState {
            expected_rx_offset: 0,
            next_tx_offset: 0,
            ring_buffer: None,
            received_ranges: self.received_ranges,
            window_size: 1_048_576,
            buffered_bytes: 0,
            last_acked_offset: 0,
            dup_ack_count: 0,
            unacked_pns: self.unacked_pns,
        })
    }

    /// A stream on which nothing has happened, with a window of one mebibyte.
    pub fn new() -> (r: Self)
        ensures
            r.is_fresh(),
    {
        StreamState {
            expected_rx_offset: 0,
            next_tx_offset: 0,
            ring_buffer: None,
            received_ranges: BTreeMap::new(),
            window_size: 1_048_576,
            buffered_bytes: 0,
            last_acked_offset: 0,
            dup_ack_count: 0,
            unacked_pns: BTreeMap::new(),
        }
    }

    /// Allocates the ring if there is none yet.
    pub fn ensure_buffer(&mut self)
        requires
            old(self).window_size <= isize::MAX,
        ensures
            *final(self) == (StreamState { ring_buffer: final(self).ring_buffer, ..*old(self) }),
            final(self).ring_buffer is Some,
            old(self).ring_buffer is Some ==> final(self).ring_buffer == old(self).ring_buffer,
            old(self).ring_buffer is None ==> final(self).ring_buffer->0@ == Seq::new(
                old(self).window_size as nat,
                |i: int| 0u8,
            ),
    {
        if self.ring_buffer.is_none() {
            let ring = vec![0u8; self.window_size as usize];
            assert(ring@ =~= Seq::new(self.window_size as nat, |i: int| 0u8));
            self.ring_buffer = Some(ring);
        }
    }
}

/// What arrived on all streams and is waiting to be handed on.
pub open spec fn total_buffered(streams: Map<u32, StreamState>) -> nat {
    crate::totals::map_total(streams.map_values(|s: StreamState| s.buffered_bytes as nat))
}

impl ZtConnection {
    /// Maximum concurrent streams. With a window of one mebibyte this limits the
    /// memory of a connection to about a hundred.
    pub const MAX_CONCURRENT_STREAMS: usize = 100;

    /// The replay mask agrees with the highest packet number.
    pub open spec fn wf(&self) -> bool {
        match self.highest_processed_pn {
            None => self.replay_bitmask == 0,
            Some(h) => mask_bit(self.replay_bitmask, 0) && forall|d: u64|
                d < REPLAY_PACKETS && #[trigger] mask_bit(self.replay_bitmask, d) ==> d <= h,
        }
    }

    /// The processed packets that the mask remembers.
    pub open spec fn processed(&self) -> Set<u64> {
        Set::new(
            |pn: u64|
                self.highest_processed_pn matches Some(h) && pn <= h && h - pn < REPLAY_PACKETS
                    && mask_bit(self.replay_bitmask, (h - pn) as u64),
        )
    }

    /// A connection on which nothing has happened.
    pub fn new(addr: PeerAddr, scid: Vec<u8>, dcid: Vec<u8>, now: u64) -> (r: Self)
        ensures
            r.wf(),
            r.processed() == Set::<u64>::empty(),
            r.streams@ == Map::<u32, StreamState>::empty(),
            r.mtu_probes@ == Map::<u64, usize>::empty(),
            r.unacked_packets@ == Map::<u64, UnackedPacket>::empty(),
            r == (ZtConnection {
                addr,
                dcid,
                scid,
                state: ConnectionState::Handshaking,
                next_packet_number: 0,
                last_activity: now,
                has_keys: false,
                streams: r.streams,
                mtu_probes: r.mtu_probes,
                unacked_packets: r.unacked_packets,
                rtt: (333 * MILLISECOND) as u64,
                rttvar: (166 * MILLISECOND) as u64,
                rtt_initialized: false,
                local_window: 1_048_576,
                remote_window: 1_048_576,
                cwnd: 12_000,
                ssthresh: 65_536,
                bytes_in_flight: 0,
                mtu: 1200,
                highest_processed_pn: None,
                bytes_received: 0,
                bytes_sent: 0,
                replay_bitmask: 0,
                current_key_epoch: 0,
            }),
    {
        let r = ZtConnection {
            addr,
            dcid,
            scid,
            state: ConnectionState::Handshaking,
            next_packet_number: 0,
            last_activity: now,
            has_keys: false,
            streams: HashMap::new(),
            mtu_probes: HashMap::new(),
            unacked_packets: BTreeMap::new(),
            rtt: 333 * MILLISECOND,
            rttvar: 166 * MILLISECOND,
            rtt_initialized: false,
            local_window: 1_048_576,
            remote_window: 1_048_576,
            cwnd: 10 * 1200,
            ssthresh: 64 * 1024,
            bytes_in_flight: 0,
            mtu: 1200,
            highest_processed_pn: None,
            bytes_received: 0,
            bytes_sent: 0,
            replay_bitmask: 0,
            current_key_epoch: 0,
        };
        assert(r.processed() =~= Set::<u64>::empty());
        r
    }

    /// Whether `pn` is refused: already processed, or too old to tell.
    pub open spec fn refuses(&self, pn: u64) -> bool {
        self.highest_processed_pn matches Some(h) && (pn + REPLAY_PACKETS <= h
            || self.processed().contains(pn))
    }

    /// Whether a packet number must be rejected as a replay.
    pub fn is_replay(&self, pn: u64) -> (r: bool)
        ensures
            r == self.refuses(pn),
    {
        let highest = match self.highest_processed_pn {
            None => {
                return false;
            },
            Some(h) => h,
        };
        if pn <= highest {
            let diff: u64 = highest - pn;
            if diff >= REPLAY_PACKETS {
                return true;
            }
            return (self.replay_bitmask & (1u128 << diff)) != 0;
        }
        false
    }

    /// Records that `pn` was processed. What falls 128 or more behind the
    /// highest is forgotten.
    pub fn mark_processed(&mut self, pn: u64)
        requires
            old(self).wf(),
        ensures
            final(self).wf(),
            *final(self) == (ZtConnection {
                highest_processed_pn: Some(
                    crate::bitmap::raised(old(self).highest_processed_pn, pn),
                ),
                replay_bitmask: final(self).replay_bitmask,
                ..*old(self)
            }),
            forall|x: u64| #[trigger]
                final(self).processed().contains(x) <==> (x == pn || old(self).processed().contains(
                    x,
                )) && x + REPLAY_PACKETS > crate::bitmap::raised(
                    old(self).highest_processed_pn,
                    pn,
                ),
    {
        let ghost m = self.replay_bitmask;
        match self.highest_processed_pn {
            None => {
                self.highest_processed_pn = Some(pn);
                self.replay_bitmask = 1;
                assert forall|d: u64| d < 128 implies (#[trigger] mask_bit(1, d) <==> d == 0) by {
                    assert((1u128 & (1u128 << d)) != 0 <==> d == 0) by (bit_vector)
                        requires
                            d < 128,
                    ;
                }
            },
            Some(highest) => {
                if pn > highest {
                    let diff: u64 = pn - highest;
                    if diff >= REPLAY_PACKETS {
                        self.replay_bitmask = 1;
                        assert forall|d: u64| d < 128 implies (#[trigger] mask_bit(1, d) <==> d
                            == 0) by {
                            assert((1u128 & (1u128 << d)) != 0 <==> d == 0) by (bit_vector)
                                requires
                                    d < 128,
                            ;
                        }
                    } else {
                        self.replay_bitmask = (self.replay_bitmask << diff) | 1;
                        let ghost after = self.replay_bitmask;
                        assert forall|d: u64| d < 128 implies (#[trigger] mask_bit(after, d) <==> d
                            == 0 || (d >= diff && mask_bit(m, (d - diff) as u64))) by {
                            assert((((m << diff) | 1) & (1u128 << d)) != 0 <==> d == 0 || (d >= diff
                                && (m & (1u128 << ((d - diff) as u64))) != 0)) by (bit_vector)
                                requires
                                    d < 128,
                                    0 < diff < 128,
                            ;
                        }
                    }
                    self.highest_processed_pn = Some(pn);
                } else {
                    let diff: u64 = highest - pn;
                    if diff < REPLAY_PACKETS {
                        self.replay_bitmask = self.replay_bitmask | (1u128 << diff);
                        let ghost after = self.replay_bitmask;
                        assert forall|d: u64| d < 128 implies (#[trigger] mask_bit(after, d) <==> d
                            == diff || mask_bit(m, d)) by {
                            assert(((m | (1u128 << diff)) & (1u128 << d)) != 0 <==> d == diff || (m
                                & (1u128 << d)) != 0) by (bit_vector)
                                requires
                                    d < 128,
                                    diff < 128,
                            ;
                        }
                    }
                }
            },
        }
    }

    /// The processed packets below the highest as inclusive ranges, from the
    /// highest down. The highest itself is acknowledged by its number.
    pub fn get_ack_ranges(&self) -> (ranges: Vec<(u64, u64)>)
        requires
            self.wf(),
        ensures
            self.highest_processed_pn is None ==> ranges@.len() == 0,
            self.highest_processed_pn matches Some(h) ==> crate::ack_tracker::lists_runs(
                self.processed().remove(h),
                ranges@.len() + 1,
                ranges@,
            ),
    {
        let mut ranges: Vec<(u64, u64)> = Vec::new();
        let highest = match self.highest_processed_pn {
            None => {
                return ranges;
            },
            Some(h) => h,
        };
        let ghost below = self.processed().remove(highest);
        let mut in_range = false;
        let mut current_end: u64 = 0;
        let mut i: u64 = 1;
        while i < REPLAY_PACKETS && highest >= i
            invariant
                self.wf(),
                self.highest_processed_pn == Some(highest),
                below == self.processed().remove(highest),
                1 <= i <= REPLAY_PACKETS,
                i <= highest + 1,
                in_range ==> 1 <= highest - current_end < i,
                in_range ==> forall|pn: u64|
                    highest - i < pn <= current_end ==> #[trigger] below.contains(pn),
                in_range ==> current_end == highest || !below.contains((current_end + 1) as u64),
                !in_range ==> !below.contains((highest - i + 1) as u64),
                forall|j: int|
                    0 <= j < ranges.len() ==> crate::ack_tracker::is_maximal_run(
                        below,
                        #[trigger] ranges[j],
                    ) && ranges[j].0 as int > if in_range {
                        current_end as int + 1
                    } else {
                        highest - i + 1
                    },
                forall|a: int, b: int|
                    0 <= a < b < ranges.len() ==> (#[trigger] ranges[b]).1 < (
                    #[trigger] ranges[a]).0,
                forall|pn: u64| #[trigger]
                    below.contains(pn) && pn > (if in_range {
                        current_end as int
                    } else {
                        highest - i
                    }) ==> crate::ack_tracker::covers(ranges@, pn),
            decreases REPLAY_PACKETS - i,
        {
            let pn: u64 = highest - i;
            let received = (self.replay_bitmask & (1u128 << i)) != 0;
            assert(below.contains(pn) == received);
            if received {
                if !in_range {
                    in_range = true;
                    current_end = pn;
                }
            } else if in_range {
                let ghost before = ranges@;
                ranges.push((pn + 1, current_end));
                proof {
                    let r = ((pn + 1) as u64, current_end);
                    assert(crate::ack_tracker::is_maximal_run(below, r));
                    assert forall|x: u64| #[trigger]
                        below.contains(x) && x >= pn implies crate::ack_tracker::covers(
                        ranges@,
                        x,
                    ) by {
                        if x > current_end {
                            assert(crate::ack_tracker::covers(before, x));
                            let k = choose|k: int|
                                0 <= k < before.len() && (#[trigger] before[k]).0 <= x
                                    <= before[k].1;
                            assert(ranges@[k] == before[k]);
                        } else {
                            assert(ranges@[before.len() as int] == r);
                        }
                    }
                }
                in_range = false;
            }
            i = i + 1;
        }
        let ghost before = ranges@;
        if in_range {
            let lowest: u64 = highest.saturating_sub(REPLAY_PACKETS - 1);
            ranges.push((lowest, current_end));
            proof {
                let r = (lowest, current_end);
                assert(crate::ack_tracker::is_maximal_run(below, r));
                assert(ranges@[before.len() as int] == r);
            }
        }
        proof {
            assert forall|x: u64| #[trigger] below.contains(x) implies crate::ack_tracker::covers(
                ranges@,
                x,
            ) by {
                assert(highest - x < REPLAY_PACKETS);
                if !in_range || x > current_end {
                    assert(crate::ack_tracker::covers(before, x));
                    let k = choose|k: int|
                        0 <= k < before.len() && (#[trigger] before[k]).0 <= x <= before[k].1;
                    assert(ranges@[k] == before[k]);
                }
            }
        }
        ranges
    }

    /// The next packet number; the last one is never given out.
    pub fn get_next_packet_number(&mut self) -> (r: Result<u64, ZtError>)
        ensures
            *final(self) == (ZtConnection {
                next_packet_number: final(self).next_packet_number,
                ..*old(self)
            }),
            match r {
                Ok(pn) => pn == old(self).next_packet_number && final(self).next_packet_number
                    == pn + 1,
                Err(e) => e is PacketNumberOverflow && old(self).next_packet_number == u64::MAX
                    && final(self).next_packet_number == u64::MAX,
            },
    {
        take_packet_number(&mut self.next_packet_number)
    }

    /// Something happened on the connection.
    pub fn update_activity(&mut self, now: u64)
        ensures
            *final(self) == (ZtConnection { last_activity: now, ..*old(self) }),
    {
        self.last_activity = now;
    }

    /// Reacts to a loss: the threshold is half the window, two packets at least,
    /// and the window is three packets more.
    pub fn handle_loss(&mut self)
        ensures
            *final(self) == old(self).after_loss(),
    {
        let half: usize = self.cwnd / 2;
        let floor: usize = self.mtu.saturating_add(self.mtu);
        self.ssthresh = if half > floor {
            half
        } else {
            floor
        };
        self.cwnd = self.ssthresh.saturating_add(floor.saturating_add(self.mtu));
    }

    /// The connection after a loss.
    pub open spec fn after_loss(&self) -> ZtConnection {
        let ssthresh = crate::congestion::larger(
            self.cwnd / 2,
            crate::congestion::floor_window(self.mtu),
        );
        ZtConnection {
            ssthresh,
            cwnd: crate::congestion::sat_add(
                ssthresh,
                crate::congestion::sat_add(
                    crate::congestion::floor_window(self.mtu),
                    self.mtu,
                ),
            ),
            ..*self
        }
    }
}

/// The part of a connection that an acknowledgement works on.
#[verifier::ext_equal]
pub struct CumTally {
    pub unacked: Map<u64, UnackedPacket>,
    pub probes: Map<u64, usize>,
    pub mtu: usize,
    pub bytes_acked: usize,
    pub sample: Option<u64>,
}

/// The packet `pn` is acknowledged. A probe that got through raises the packet size.
pub open spec fn settle_one(t: CumTally, pn: u64, now: u64) -> CumTally {
    if !t.unacked.contains_key(pn) {
        t
    } else {
        let up = t.unacked[pn];
        let len = crate::payload::contents(up.data).len() as usize;
        CumTally {
            unacked: t.unacked.remove(pn),
            probes: if up.is_mtu_probe {
                t.probes.remove(pn)
            } else {
                t.probes
            },
            mtu: if up.is_mtu_probe && t.probes.contains_key(pn) && len > t.mtu {
                len
            } else {
                t.mtu
            },
            bytes_acked: crate::congestion::sat_add(t.bytes_acked, len),
            sample: if t.sample is None && up.retries == 0 {
                Some(crate::congestion::elapsed(now, up.sent_at))
            } else {
                t.sample
            },
        }
    }
}

/// The packets from `lo` up to but not including `hi` are acknowledged, from the
/// lowest up.
pub open spec fn settle_span(t: CumTally, lo: int, hi: int, now: u64) -> CumTally
    decreases hi - lo,
{
    if hi <= lo {
        t
    } else {
        settle_one(settle_span(t, lo, hi - 1, now), (hi - 1) as u64, now)
    }
}

/// The packets in the inclusive ranges are acknowledged, in order.
pub open spec fn settle_ranges(t: CumTally, ranges: Seq<(u64, u64)>, now: u64) -> CumTally
    decreases ranges.len(),
{
    if ranges.len() == 0 {
        t
    } else {
        settle_span(
            settle_ranges(t, ranges.drop_last(), now),
            ranges.last().0 as int,
            ranges.last().1 + 1,
            now,
        )
    }
}

/// What an acknowledgement has covered so far.
pub struct CumCounts {
    pub bytes_acked: usize,
    pub sample: Option<u64>,
}

proof fn lemma_settle_shrinks(t: CumTally, lo: int, hi: int, now: u64)
    ensures
        forall|k: u64| #[trigger]
            settle_span(t, lo, hi, now).unacked.contains_key(k) ==> t.unacked.contains_key(k),
    decreases hi - lo,
{
    if hi > lo {
        lemma_settle_shrinks(t, lo, hi - 1, now);
        assert forall|k: u64| #[trigger]
            settle_span(t, lo, hi, now).unacked.contains_key(k) implies t.unacked.contains_key(
            k,
        ) by {
            assert(settle_span(t, lo, hi - 1, now).unacked.contains_key(k));
        }
    }
}

/// A stretch without packets changes nothing.
proof fn lemma_settle_idle(t: CumTally, lo: int, mid: int, hi: int, now: u64)
    requires
        0 <= lo <= mid <= hi <= u64::MAX + 1,
        forall|k: u64| mid <= k < hi ==> !#[trigger] t.unacked.contains_key(k),
    ensures
        settle_span(t, lo, hi, now) == settle_span(t, lo, mid, now),
    decreases hi - mid,
{
    if hi > mid {
        lemma_settle_idle(t, lo, mid, hi - 1, now);
        lemma_settle_shrinks(t, lo, hi - 1, now);
        assert(!t.unacked.contains_key((hi - 1) as u64));
    }
}

/// A place clipped to the stretch from `lo` to `hi`.
spec fn clip(x: int, lo: int, hi: int) -> int {
    if x < lo {
        lo
    } else if x > hi {
        hi
    } else {
        x
    }
}

impl ZtConnection {
    /// The part of the connection that an acknowledgement works on.
    pub open spec fn tally(&self, counts: CumCounts) -> CumTally {
        CumTally {
            unacked: self.unacked_packets@,
            probes: self.mtu_probes@,
            mtu: self.mtu,
            bytes_acked: counts.bytes_acked,
            sample: counts.sample,
        }
    }

    fn take_acked(&mut self, pn: u64, now: u64, counts: &mut CumCounts)
        ensures
            *final(self) == (ZtConnection {
                unacked_packets: final(self).unacked_packets,
                mtu_probes: final(self).mtu_probes,
                mtu: final(self).mtu,
                ..*old(self)
            }),
            final(self).tally(*final(counts)) == settle_one(
                old(self).tally(*old(counts)),
                pn,
                now,
            ),
    {
        if let Some(up) = self.unacked_packets.remove(&pn) {
            let len: usize = bytes_len(&up.data);
            counts.bytes_acked = counts.bytes_acked.saturating_add(len);
            if up.retries == 0 && counts.sample.is_none() {
                counts.sample = Some(now.saturating_sub(up.sent_at));
            }
            if up.is_mtu_probe {
                let was_probe = self.mtu_probes.remove(&pn).is_some();
                if was_probe && len > self.mtu {
                    self.mtu = len;
                }
            }
            assert(self.unacked_packets@ =~= old(self).unacked_packets@.remove(pn));
        }
    }

    fn take_between(&mut self, start: u64, end: u64, now: u64, counts: &mut CumCounts)
        ensures
            *final(self) == (ZtConnection {
                unacked_packets: final(self).unacked_packets,
                mtu_probes: final(self).mtu_probes,
                mtu: final(self).mtu,
                ..*old(self)
            }),
            final(self).tally(*final(counts)) == settle_span(
                old(self).tally(*old(counts)),
                start as int,
                end + 1,
                now,
            ),
    {
        if start > end {
            return ;
        }
        let ghost t0 = self.tally(*counts);
        let ghost lo = start as int;
        let ghost hi = end + 1;
        let ghost top = u64::MAX + 1;
        let keys = keys_in_order(&self.unacked_packets);
        let mut i: usize = 0;
        proof {
            let first = clip(crate::ranges::next_key(keys@, 0, top), lo, hi);
            assert forall|k: u64| lo <= k < first implies !#[trigger] t0.unacked.contains_key(
                k,
            ) by {
                if t0.unacked.contains_key(k) {
                    assert(keys@.contains(k));
                    let j = choose|j: int| 0 <= j < keys@.len() && keys@[j] == k;
                    assert(j == 0 || keys@[0] < keys@[j]);
                }
            }
            lemma_settle_idle(t0, lo, lo, first, now);
        }
        while i < keys.len()
            invariant
                i <= keys@.len(),
                lo == start,
                hi == end + 1,
                top == u64::MAX + 1,
                start <= end,
                *self == (ZtConnection {
                    unacked_packets: self.unacked_packets,
                    mtu_probes: self.mtu_probes,
                    mtu: self.mtu,
                    ..*old(self)
                }),
                crate::unacked_window::lists_keys_below(t0.unacked, top, keys@),
                self.tally(*counts) == settle_span(
                    t0,
                    lo,
                    clip(crate::ranges::next_key(keys@, i as int, top), lo, hi),
                    now,
                ),
            decreases keys@.len() - i,
        {
            let pn: u64 = keys[i];
            if start <= pn && pn <= end {
                self.take_acked(pn, now, counts);
            }
            proof {
                crate::ranges::lemma_no_key_between(t0.unacked, top, keys@, i as int);
                let from = clip(pn + 1, lo, hi);
                let next = clip(crate::ranges::next_key(keys@, i + 1, top), lo, hi);
                assert(self.tally(*counts) == settle_span(t0, lo, from, now));
                lemma_settle_idle(t0, lo, from, next, now);
            }
            i = i + 1;
        }
    }

    /// What an acknowledgement does to the connection.
    pub open spec fn acked_by(
        &self,
        largest: u64,
        window_size: u32,
        sack_ranges: Seq<(u64, u64)>,
        now: u64,
        after: &ZtConnection,
    ) -> bool {
        let sacked = settle_ranges(
            self.tally(CumCounts { bytes_acked: 0, sample: None }),
            sack_ranges,
            now,
        );
        let t = settle_span(sacked, 0, largest + 1, now);
        let smoothed = crate::recovery::smoothed(
            self.rtt_initialized,
            self.rtt,
            self.rttvar,
            t.sample->0,
        );
        &&& *after == (ZtConnection {
            unacked_packets: after.unacked_packets,
            mtu_probes: after.mtu_probes,
            mtu: t.mtu,
            bytes_in_flight: crate::congestion::sat_sub(self.bytes_in_flight, t.bytes_acked),
            rtt: if t.sample is Some {
                smoothed.0
            } else {
                self.rtt
            },
            rttvar: if t.sample is Some {
                smoothed.1
            } else {
                self.rttvar
            },
            rtt_initialized: self.rtt_initialized || t.sample is Some,
            cwnd: if t.bytes_acked == 0 {
                self.cwnd
            } else if self.cwnd < self.ssthresh {
                crate::congestion::sat_add(self.cwnd, t.bytes_acked)
            } else {
                crate::congestion::sat_add(
                    self.cwnd,
                    crate::congestion::additive_increase(t.mtu, t.bytes_acked, self.cwnd),
                )
            },
            remote_window: window_size,
            ..*self
        })
        &&& after.unacked_packets@ == t.unacked
        &&& after.mtu_probes@ == t.probes
    }

    /// Processes an acknowledgement: the packets in the ranges and all packets up
    /// to `largest_acked_pn` are done with; round-trip time, window and bytes in
    /// flight follow. Senders that wait for credit should look again afterwards.
    pub fn handle_ack(
        &mut self,
        largest_acked_pn: u64,
        window_size: u32,
        sack_ranges: &[(u64, u64)],
        now: u64,
    )
        requires
            old(self).cwnd > 0 || old(self).mtu > 0,
        ensures
            old(self).acked_by(largest_acked_pn, window_size, sack_ranges@, now, final(self)),
            final(self).cwnd >= old(self).cwnd,
            final(self).mtu >= old(self).mtu,
    {
        let mut counts = CumCounts { bytes_acked: 0, sample: None };
        let ghost t0 = self.tally(counts);
        let mut i: usize = 0;
        assert(sack_ranges@.take(0) =~= Seq::<(u64, u64)>::empty());
        while i < sack_ranges.len()
            invariant
                i <= sack_ranges@.len(),
                *self == (ZtConnection {
                    unacked_packets: self.unacked_packets,
                    mtu_probes: self.mtu_probes,
                    mtu: self.mtu,
                    ..*old(self)
                }),
                self.mtu >= old(self).mtu,
                self.tally(counts) == settle_ranges(t0, sack_ranges@.take(i as int), now),
            decreases sack_ranges@.len() - i,
        {
            let (start, end) = sack_ranges[i];
            let ghost before = self.tally(counts);
            self.take_between(start, end, now, &mut counts);
            proof {
                lemma_settle_grows(before, start as int, end + 1, now);
                assert(sack_ranges@.take(i + 1).drop_last() =~= sack_ranges@.take(i as int));
            }
            i = i + 1;
        }
        assert(sack_ranges@.take(sack_ranges@.len() as int) =~= sack_ranges@);
        let ghost sacked = self.tally(counts);
        self.take_between(0, largest_acked_pn, now, &mut counts);
        proof {
            lemma_settle_grows(sacked, 0, largest_acked_pn + 1, now);
        }
        self.bytes_in_flight = self.bytes_in_flight.saturating_sub(counts.bytes_acked);
        if let Some(rtt) = counts.sample {
            if !self.rtt_initialized {
                self.rtt = rtt;
                self.rttvar = rtt / 2;
                self.rtt_initialized = true;
            } else {
                let error: u64 = if self.rtt > rtt {
                    self.rtt - rtt
                } else {
                    rtt - self.rtt
                };
                self.rttvar = ((self.rttvar as u128 * 3 + error as u128) / 4) as u64;
                self.rtt = ((self.rtt as u128 * 7 + rtt as u128) / 8) as u64;
            }
        }
        if counts.bytes_acked > 0 {
            if self.cwnd < self.ssthresh {
                self.cwnd = self.cwnd.saturating_add(counts.bytes_acked);
            } else {
                let step: usize = increase(self.mtu, counts.bytes_acked, self.cwnd);
                self.cwnd = self.cwnd.saturating_add(step);
            }
        }
        self.remote_window = window_size;
    }

    /// What arrived on all streams and is waiting to be handed on.
    pub fn get_total_buffered_bytes(&self) -> (r: usize)
        ensures
            r == crate::totals::clamped(total_buffered(self.streams@)),
    {
        let ids = key_list(&self.streams);
        let ghost sizes = self.streams@.map_values(|s: StreamState| s.buffered_bytes as nat);
        let mut total: usize = 0;
        let mut i: usize = 0;
        assert(ids@.take(0) =~= Seq::<u32>::empty());
        while i < ids.len()
            invariant
                i <= ids@.len(),
                ids@.to_set() == self.streams@.dom(),
                sizes == self.streams@.map_values(|s: StreamState| s.buffered_bytes as nat),
                total == crate::totals::clamped(
                    crate::totals::listed_total(sizes, ids@.take(i as int)),
                ),
            decreases ids@.len() - i,
        {
            let id: u32 = ids[i];
            assert(ids@.to_set().contains(id));
            if let Some(s) = self.streams.get(&id) {
                total = total.saturating_add(s.buffered_bytes);
            }
            assert(ids@.take(i + 1).drop_last() =~= ids@.take(i as int));
            i = i + 1;
        }
        proof {
            assert(ids@.take(ids@.len() as int) =~= ids@);
            assert(sizes.dom() =~= self.streams@.dom());
            crate::totals::lemma_listed_total(sizes, ids@);
        }
        total
    }
}

/// The packet size only grows.
proof fn lemma_settle_grows(t: CumTally, lo: int, hi: int, now: u64)
    ensures
        settle_span(t, lo, hi, now).mtu >= t.mtu,
    decreases hi - lo,
{
    if hi > lo {
        lemma_settle_grows(t, lo, hi - 1, now);
    }
}

/// After an acknowledgement no packet up to its number is outstanding.
pub proof fn law_cumulative_ack_covers_everything_below(t: CumTally, largest: u64, now: u64)
    ensures
        forall|k: u64| #[trigger]
            settle_span(t, 0, largest + 1, now).unacked.contains_key(k) <==> t.unacked.contains_key(
                k,
            ) && k > largest,
{
    lemma_settled_prefix(t, largest + 1, now);
}

proof fn lemma_settled_prefix(t: CumTally, hi: int, now: u64)
    requires
        0 <= hi <= u64::MAX + 1,
    ensures
        forall|k: u64| #[trigger]
            settle_span(t, 0, hi, now).unacked.contains_key(k) <==> t.unacked.contains_key(k) && k
                >= hi,
    decreases hi,
{
    if hi > 0 {
        lemma_settled_prefix(t, hi - 1, now);
        let before = settle_span(t, 0, hi - 1, now);
        assert forall|k: u64| #[trigger]
            settle_span(t, 0, hi, now).unacked.contains_key(k) <==> t.unacked.contains_key(k) && k
                >= hi by {
            assert(before.unacked.contains_key(k) <==> t.unacked.contains_key(k) && k >= hi - 1);
        }
    }
}

/// Every range of a map has something in it.
pub open spec fn none_empty(ranges: Map<u64, u64>) -> bool {
    forall|k: u64| #[trigger] ranges.contains_key(k) ==> k < ranges[k]
}

/// Whether one of the first `n` entries holds `x`.
spec fn reaches(entries: Seq<(u64, u64)>, n: int, x: int) -> bool {
    exists|j: int| 0 <= j < n && (#[trigger] entries[j]).0 <= x < entries[j].1
}

proof fn lemma_reaches_one_more(entries: Seq<(u64, u64)>, n: int, x: int)
    requires
        0 <= n < entries.len(),
    ensures
        reaches(entries, n + 1, x) <==> reaches(entries, n, x) || entries[n].0 <= x < entries[n].1,
{
    if reaches(entries, n, x) {
        let j = choose|j: int| 0 <= j < n && (#[trigger] entries[j]).0 <= x < entries[j].1;
        assert(entries[j].0 <= x < entries[j].1);
    }
}

proof fn lemma_covered_insert(ranges: Map<u64, u64>, start: u64, end: u64, x: int)
    requires
        !ranges.contains_key(start),
    ensures
        crate::stream_buffer::covered(ranges.insert(start, end)).contains(x)
            <==> crate::stream_buffer::covered(ranges).contains(x) || start <= x < end,
{
    let after = ranges.insert(start, end);
    if crate::stream_buffer::covered(after).contains(x) {
        let k = choose|k: u64| #[trigger] after.contains_key(k) && k <= x < after[k];
        if k != start {
            assert(ranges.contains_key(k));
        }
    }
    if crate::stream_buffer::covered(ranges).contains(x) {
        let k = choose|k: u64| #[trigger] ranges.contains_key(k) && k <= x < ranges[k];
        assert(after.contains_key(k));
    }
    if start <= x < end {
        assert(after.contains_key(start));
    }
}

/// A range that is made longer, or put in anew, adds what it is asked to hold.
proof fn lemma_covered_grown(ranges: Map<u64, u64>, start: u64, own_end: u64, end: u64)
    requires
        end == if ranges.contains_key(start) && ranges[start] > own_end {
            ranges[start]
        } else {
            own_end
        },
    ensures
        crate::stream_buffer::covered(ranges.insert(start, end))
            == crate::stream_buffer::covered(ranges).union(
            crate::stream_buffer::span(start as int, own_end as int),
        ),
{
    let after = ranges.insert(start, end);
    let old_cover = crate::stream_buffer::covered(ranges);
    let new_cover = crate::stream_buffer::covered(after);
    assert forall|x: int| #[trigger] new_cover.contains(x) <==> old_cover.contains(x) || start <= x
        < own_end by {
        if new_cover.contains(x) {
            let k = choose|k: u64| #[trigger] after.contains_key(k) && k <= x < after[k];
            if k != start {
                assert(ranges.contains_key(k));
            } else if !(x < own_end) {
                assert(ranges.contains_key(start));
            }
        }
        if old_cover.contains(x) {
            let k = choose|k: u64| #[trigger] ranges.contains_key(k) && k <= x < ranges[k];
            assert(after.contains_key(k));
        }
        if start <= x < own_end {
            assert(after.contains_key(start));
        }
    }
    assert(new_cover =~= old_cover.union(
        crate::stream_buffer::span(start as int, own_end as int),
    ));
}

proof fn lemma_entries_cover(ranges: Map<u64, u64>, entries: Seq<(u64, u64)>, x: int)
    requires
        crate::ranges::lists_in_order(ranges, entries),
    ensures
        crate::stream_buffer::covered(ranges).contains(x) <==> reaches(
            entries,
            entries.len() as int,
            x,
        ),
{
    if crate::stream_buffer::covered(ranges).contains(x) {
        let k = choose|k: u64| #[trigger] ranges.contains_key(k) && k <= x < ranges[k];
        assert(entries.contains((k, ranges[k])));
        let j = choose|j: int| 0 <= j < entries.len() && entries[j] == (k, ranges[k]);
        assert(entries[j].0 <= x < entries[j].1);
    }
    if reaches(entries, entries.len() as int, x) {
        let j = choose|j: int|
            0 <= j < entries.len() && (#[trigger] entries[j]).0 <= x < entries[j].1;
        assert(entries.contains(entries[j]));
        assert(ranges.contains_key(entries[j].0));
    }
}

/// The same coverage in as few ranges as possible.
pub fn merge_ranges(ranges: &BTreeMap<u64, u64>) -> (merged: BTreeMap<u64, u64>)
    requires
        none_empty(ranges@),
    ensures
        crate::stream_buffer::apart(merged@),
        crate::stream_buffer::covered(merged@) == crate::stream_buffer::covered(ranges@),
{
    let entries = entries_in_order(ranges);
    let mut merged: BTreeMap<u64, u64> = BTreeMap::new();
    if entries.len() == 0 {
        proof {
            assert forall|x: int| !#[trigger] crate::stream_buffer::covered(ranges@).contains(
                x,
            ) by {
                lemma_entries_cover(ranges@, entries@, x);
            }
            assert(crate::stream_buffer::covered(merged@) =~= crate::stream_buffer::covered(
                ranges@,
            ));
        }
        return merged;
    }
    let mut start: u64 = entries[0].0;
    let mut end: u64 = entries[0].1;
    let mut i: usize = 1;
    proof {
        assert(entries@.contains(entries@[0]));
        assert(ranges@.contains_key(start));
        assert forall|x: int| #[trigger] reaches(entries@, 1, x) <==> start <= x < end by {
            lemma_reaches_one_more(entries@, 0, x);
        }
    }
    while i < entries.len()
        invariant
            1 <= i <= entries@.len(),
            none_empty(ranges@),
            crate::ranges::lists_in_order(ranges@, entries@),
            start < end,
            start <= entries@[i - 1].0,
            crate::stream_buffer::apart(merged@),
            forall|k: u64| #[trigger] merged@.contains_key(k) ==> k < start && merged@[k] < start,
            forall|x: int| #[trigger]
                reaches(entries@, i as int, x) <==> crate::stream_buffer::covered(merged@).contains(
                    x,
                ) || start <= x < end,
        decreases entries@.len() - i,
    {
        let s: u64 = entries[i].0;
        let e: u64 = entries[i].1;
        let ghost merged0 = merged@;
        let ghost start0 = start;
        let ghost end0 = end;
        assert(entries@.contains(entries@[i as int]));
        assert(ranges@.contains_key(s));
        assert(entries@[i - 1].0 < entries@[i as int].0);
        if s <= end {
            if e > end {
                end = e;
            }
        } else {
            merged.insert(start, end);
            start = s;
            end = e;
        }
        proof {
            assert forall|x: int| #[trigger]
                reaches(entries@, i + 1, x) <==> crate::stream_buffer::covered(merged@).contains(x)
                    || start <= x < end by {
                lemma_reaches_one_more(entries@, i as int, x);
                lemma_covered_insert(merged0, start0, end0, x);
            }
        }
        i = i + 1;
    }
    let ghost merged0 = merged@;
    merged.insert(start, end);
    proof {
        assert forall|x: int| #[trigger]
            crate::stream_buffer::covered(merged@).contains(x) <==> crate::stream_buffer::covered(
                ranges@,
            ).contains(x) by {
            lemma_covered_insert(merged0, start, end, x);
            lemma_entries_cover(ranges@, entries@, x);
        }
        assert(crate::stream_buffer::covered(merged@) =~= crate::stream_buffer::covered(ranges@));
    }
    merged
}

impl StreamState {
    /// The ring has the window's size, and what arrived lies at or above the
    /// offset that is expected next, in ranges with gaps between them.
    pub open spec fn wf(&self) -> bool {
        &&& 0 < self.window_size <= isize::MAX
        &&& self.ring_buffer is Some ==> self.ring_buffer->0@.len() == self.window_size
        &&& crate::stream_buffer::apart(self.received_ranges@)
        &&& forall|k: u64| #[trigger]
            self.received_ranges@.contains_key(k) ==> self.expected_rx_offset <= k
    }

    /// The ring, all zero where there is none yet.
    pub open spec fn ring(&self) -> Seq<u8> {
        match self.ring_buffer {
            Some(ring) => ring@,
            None => Seq::new(self.window_size as nat, |i: int| 0u8),
        }
    }

    /// How `data` at stream offset `offset` change the stream. What begins below
    /// the expected offset is old and changes nothing.
    pub open spec fn took_in(&self, after: &StreamState, offset: u64, data: Seq<u8>) -> bool {
        if offset < self.expected_rx_offset || data.len() == 0 {
            *after == *self
        } else {
            &&& *after == (StreamState {
                ring_buffer: after.ring_buffer,
                received_ranges: after.received_ranges,
                buffered_bytes: crate::congestion::sat_add(
                    self.buffered_bytes,
                    data.len() as usize,
                ),
                ..*self
            })
            &&& after.ring() == crate::stream_buffer::laid_down(self.ring(), offset as int, data)
            &&& after.received() == self.received().union(
                crate::stream_buffer::span(offset as int, offset + data.len()),
            )
        }
    }

    /// The offsets that have arrived and were not handed on.
    pub open spec fn received(&self) -> Set<int> {
        crate::stream_buffer::covered(self.received_ranges@)
    }

    /// Takes in `data` at stream offset `offset`.
    pub fn take_in(&mut self, offset: u64, data: &[u8])
        requires
            old(self).wf(),
            offset + data@.len() <= u64::MAX,
        ensures
            final(self).wf(),
            old(self).took_in(final(self), offset, data@),
    {
        if offset < self.expected_rx_offset || data.len() == 0 {
            return ;
        }
        self.ensure_buffer();
        if let Some(mut ring) = self.ring_buffer.take() {
            assert(ring@ =~= old(self).ring());
            lay_down(&mut ring, offset, data);
            self.ring_buffer = Some(ring);
        }
        let own_end: u64 = offset + data.len() as u64;
        let end: u64 = match self.received_ranges.get(&offset) {
            Some(e) => if *e > own_end {
                *e
            } else {
                own_end
            },
            None => own_end,
        };
        let ghost ranges = self.received_ranges@.insert(offset, end);
        self.received_ranges.insert(offset, end);
        assert(self.received_ranges@ =~= ranges);
        self.received_ranges = merge_ranges(&self.received_ranges);
        self.buffered_bytes = self.buffered_bytes.saturating_add(data.len());
        proof {
            lemma_covered_grown(old(self).received_ranges@, offset, own_end, end);
            assert forall|k: u64| #[trigger]
                self.received_ranges@.contains_key(k) implies self.expected_rx_offset <= k by {
                assert(crate::stream_buffer::covered(self.received_ranges@).contains(k as int));
                assert(crate::stream_buffer::covered(ranges).contains(k as int));
                let j = choose|j: u64| #[trigger] ranges.contains_key(j) && j <= k < ranges[j];
                assert(j == offset || old(self).received_ranges@.contains_key(j));
            }
        }
    }

    /// How handing data on changes the stream: what arrived from the expected
    /// offset up to the next gap goes out, if there is any and room for it.
    pub open spec fn handed_on(&self, after: &StreamState, room: bool, chunk: Option<Bytes>) -> bool {
        let from = self.expected_rx_offset;
        let to = after.expected_rx_offset;
        &&& chunk is Some <==> room && self.received().contains(from as int)
        &&& chunk is None ==> *after == *self
        &&& chunk is Some ==> {
            &&& crate::stream_buffer::run_ends_at(self.received(), from as int, to as int)
            &&& crate::payload::contents(chunk->0) == crate::stream_buffer::ring_slice(
                self.ring(),
                from as int,
                to as int,
            )
            &&& after.received_ranges@ == self.received_ranges@.remove(from)
            &&& *after == (StreamState {
                expected_rx_offset: to,
                ring_buffer: after.ring_buffer,
                received_ranges: after.received_ranges,
                buffered_bytes: crate::congestion::sat_sub(
                    self.buffered_bytes,
                    (to - from) as usize,
                ),
                ..*self
            })
            &&& after.ring() == self.ring()
        }
    }

    /// Hands out the data from the expected offset up to the next gap, if the
    /// application has room for them.
    pub fn hand_on(&mut self, room: bool) -> (r: Option<Bytes>)
        requires
            old(self).wf(),
        ensures
            final(self).wf(),
            old(self).handed_on(final(self), room, r),
    {
        let ghost ranges = self.received_ranges@;
        let from: u64 = self.expected_rx_offset;
        match first_entry(&self.received_ranges) {
            None => {
                return None;
            },
            Some((start, end)) => {
                proof {
                    if crate::stream_buffer::covered(ranges).contains(from as int) {
                        let j = choose|j: u64| #[trigger]
                            ranges.contains_key(j) && j <= from < ranges[j];
                        assert(start <= j);
                    }
                    if start <= from {
                        assert(crate::stream_buffer::covered(ranges).contains(from as int));
                    }
                }
                if start > from || !room {
                    return None;
                }
                self.ensure_buffer();
                let out = match &self.ring_buffer {
                    Some(ring) => {
                        assert(ring@ =~= old(self).ring());
                        copy_ring(ring, from, end)
                    },
                    None => {
                        return None;
                    },
                };
                self.expected_rx_offset = end;
                self.buffered_bytes = self.buffered_bytes.saturating_sub((end - from) as usize);
                self.received_ranges.remove(&start);
                proof {
                    assert(self.received_ranges@ =~= ranges.remove(from));
                    let all = crate::stream_buffer::covered(ranges);
                    assert forall|x: int| from <= x < end implies #[trigger] all.contains(x) by {
                        assert(ranges.contains_key(start));
                    }
                    if all.contains(end as int) {
                        let j = choose|j: u64| #[trigger]
                            ranges.contains_key(j) && j <= end < ranges[j];
                        assert(ranges.contains_key(start));
                    }
                    assert forall|k: u64| #[trigger]
                        self.received_ranges@.contains_key(k) implies end <= k by {
                        assert(ranges.contains_key(k) && ranges.contains_key(start));
                    }
                }
                Some(out)
            },
        }
    }
}

/// The bytes of a ring at the offsets from `lo` up to but not including `hi`.
fn copy_ring(ring: &Vec<u8>, lo: u64, hi: u64) -> (out: Bytes)
    requires
        lo <= hi,
        ring@.len() > 0,
    ensures
        crate::payload::contents(out) == crate::stream_buffer::ring_slice(
            ring@,
            lo as int,
            hi as int,
        ),
{
    let cap: u64 = ring.len() as u64;
    let mut out: Vec<u8> = Vec::new();
    let mut at: u64 = lo;
    while at < hi
        invariant
            lo <= at <= hi,
            0 < cap == ring@.len() <= usize::MAX,
            out@ == crate::stream_buffer::ring_slice(ring@, lo as int, at as int),
        decreases hi - at,
    {
        let pos: u64 = at % cap;
        out.push(ring[pos as usize]);
        assert(out@ =~= crate::stream_buffer::ring_slice(ring@, lo as int, at + 1));
        at = at + 1;
    }
    bytes_from_vec(out)
}

/// Whether a stream holds, at every offset that arrived, the byte that the peer
/// sent there, and nothing beyond its window.
pub open spec fn faithful(s: &StreamState, sent: spec_fn(int) -> u8) -> bool {
    forall|x: int| #[trigger]
        s.received().contains(x) ==> x < s.expected_rx_offset + s.window_size && s.ring()[x % (
        s.window_size as int)] == sent(x)
}

/// What has arrived lies at or above the offset that is expected next.
proof fn lemma_nothing_old(s: StreamState, x: int)
    requires
        s.wf(),
        s.received().contains(x),
    ensures
        x >= s.expected_rx_offset,
{
    let k = choose|k: u64| #[trigger]
        s.received_ranges@.contains_key(k) && k <= x < s.received_ranges@[k];
    assert(s.expected_rx_offset <= k);
}

/// A fresh stream holds nothing, so nothing false.
pub proof fn law_fresh_stream_is_faithful(s: StreamState, sent: spec_fn(int) -> u8)
    requires
        s.is_fresh(),
    ensures
        faithful(&s, sent),
{
    assert(s.received() =~= Set::<int>::empty());
}

/// Whatever order data arrive in, and however often and in whatever pieces: as
/// long as they are what the peer sent at their offset and keep to the window,
/// the stream holds what the peer sent, and forgets nothing of it.
pub proof fn law_intake_is_faithful(
    before: StreamState,
    after: StreamState,
    offset: u64,
    data: Seq<u8>,
    sent: spec_fn(int) -> u8,
)
    requires
        before.wf(),
        faithful(&before, sent),
        before.took_in(&after, offset, data),
        offset >= before.expected_rx_offset ==> offset + data.len() <= before.expected_rx_offset
            + before.window_size,
        forall|j: int| 0 <= j < data.len() ==> #[trigger] data[j] == sent(offset + j),
    ensures
        faithful(&after, sent),
        before.received().subset_of(after.received()),
{
    if offset >= before.expected_rx_offset && data.len() > 0 {
        assert forall|x: int| #[trigger] after.received().contains(x) implies x
            < after.expected_rx_offset + after.window_size && after.ring()[x % (
        after.window_size as int)] == sent(x) by {
            if before.received().contains(x) {
                lemma_nothing_old(before, x);
            }
            assert(before.received().contains(x) || offset <= x < offset + data.len());
            crate::stream_buffer::lemma_laid_down_at(before.ring(), offset as int, data, x);
            if offset <= x < offset + data.len() {
                assert(data[x - offset] == sent(offset + (x - offset)));
            }
        }
    }
}

/// What is handed on is exactly what the peer sent from the expected offset on:
/// in order, without a gap and without a repetition. The next chunk starts where
/// this one ends.
pub proof fn law_delivery_is_faithful(
    before: StreamState,
    after: StreamState,
    chunk: Bytes,
    sent: spec_fn(int) -> u8,
)
    requires
        before.wf(),
        faithful(&before, sent),
        before.handed_on(&after, true, Some(chunk)),
    ensures
        crate::payload::contents(chunk) == Seq::new(
            (after.expected_rx_offset - before.expected_rx_offset) as nat,
            |i: int| sent(before.expected_rx_offset + i),
        ),
        crate::payload::contents(chunk).len() > 0,
        faithful(&after, sent),
{
    let from = before.expected_rx_offset as int;
    let got = crate::payload::contents(chunk);
    let want = Seq::new(
        (after.expected_rx_offset - before.expected_rx_offset) as nat,
        |i: int| sent(before.expected_rx_offset + i),
    );
    assert forall|i: int| 0 <= i < got.len() implies got[i] == want[i] by {
        assert(before.received().contains(from + i));
    }
    assert(got =~= want);
    assert forall|x: int| #[trigger] after.received().contains(x) implies x
        < after.expected_rx_offset + after.window_size && after.ring()[x % (
    after.window_size as int)] == sent(x) by {
        let k = choose|k: u64| #[trigger]
            after.received_ranges@.contains_key(k) && k <= x < after.received_ranges@[k];
        assert(before.received_ranges@.contains_key(k));
        assert(before.received().contains(x));
    }
}

/// A packet is given up after so many retransmissions.
pub const MAX_RETRIES: u32 = 10;

/// The part of a connection that a look at the timers works on.
#[verifier::ext_equal]
pub struct Expiry {
    pub unacked: Map<u64, UnackedPacket>,
    pub in_flight: usize,
    /// What has to be sent again, from the lowest packet number up.
    pub resend: Seq<Seq<u8>>,
    /// How many packets were given up.
    pub dropped: nat,
    /// Whether any packet was overdue.
    pub due: bool,
}

/// The contents of byte strings, in order.
pub open spec fn contents_of(list: Seq<Bytes>) -> Seq<Seq<u8>> {
    list.map_values(|b: Bytes| crate::payload::contents(b))
}

/// The packet `pn` is looked at. One that has been out for longer than `limit`
/// is sent again, or given up if that has happened too often.
pub open spec fn expire_one(t: Expiry, pn: u64, limit: u128, now: u64) -> Expiry {
    if !t.unacked.contains_key(pn) || crate::congestion::elapsed(now, t.unacked[pn].sent_at)
        <= limit {
        t
    } else {
        let up = t.unacked[pn];
        let data = crate::payload::contents(up.data);
        if up.retries > MAX_RETRIES {
            Expiry {
                unacked: t.unacked.remove(pn),
                in_flight: crate::congestion::sat_sub(t.in_flight, data.len() as usize),
                dropped: t.dropped + 1,
                due: true,
                ..t
            }
        } else {
            Expiry {
                unacked: t.unacked.insert(
                    pn,
                    UnackedPacket { retries: (up.retries + 1) as u32, sent_at: now, ..up },
                ),
                resend: t.resend.push(data),
                due: true,
                ..t
            }
        }
    }
}

/// The packets below `hi` are looked at, from the lowest up.
pub open spec fn expire_below(t: Expiry, hi: int, limit: u128, now: u64) -> Expiry
    decreases hi,
{
    if hi <= 0 {
        t
    } else {
        expire_one(expire_below(t, hi - 1, limit, now), (hi - 1) as u64, limit, now)
    }
}

proof fn lemma_expiry_shrinks(t: Expiry, hi: int, limit: u128, now: u64)
    ensures
        forall|k: u64| #[trigger]
            expire_below(t, hi, limit, now).unacked.contains_key(k) ==> t.unacked.contains_key(k),
    decreases hi,
{
    if hi > 0 {
        lemma_expiry_shrinks(t, hi - 1, limit, now);
        let before = expire_below(t, hi - 1, limit, now);
        assert forall|k: u64| #[trigger]
            expire_below(t, hi, limit, now).unacked.contains_key(k) implies t.unacked.contains_key(
            k,
        ) by {
            if !before.unacked.contains_key(k) {
                assert(k == (hi - 1) as u64);
            }
        }
    }
}

proof fn lemma_expiry_idle(t: Expiry, mid: int, hi: int, limit: u128, now: u64)
    requires
        0 <= mid <= hi <= u64::MAX + 1,
        forall|k: u64| mid <= k < hi ==> !#[trigger] t.unacked.contains_key(k),
    ensures
        expire_below(t, hi, limit, now) == expire_below(t, mid, limit, now),
    decreases hi - mid,
{
    if hi > mid {
        lemma_expiry_idle(t, mid, hi - 1, limit, now);
        lemma_expiry_shrinks(t, hi - 1, limit, now);
        assert(!t.unacked.contains_key((hi - 1) as u64));
    }
}

/// What a look at the timers found.
pub struct Expired {
    pub resend: Vec<Bytes>,
    pub dropped: usize,
    pub due: bool,
}

impl ZtConnection {
    /// The part of the connection that a look at the timers works on.
    pub open spec fn expiry(&self) -> Expiry {
        Expiry {
            unacked: self.unacked_packets@,
            in_flight: self.bytes_in_flight,
            resend: Seq::empty(),
            dropped: 0,
            due: false,
        }
    }

    /// The packets and what follows from them after a look at the timers.
    pub open spec fn expired(&self, limit: u128, now: u64) -> Expiry {
        expire_below(self.expiry(), u64::MAX + 1, limit, now)
    }

    fn look_at(&mut self, pn: u64, limit: u128, now: u64, found: &mut Expired)
        requires
            old(found).dropped < usize::MAX,
        ensures
            *final(self) == (ZtConnection {
                unacked_packets: final(self).unacked_packets,
                bytes_in_flight: final(self).bytes_in_flight,
                ..*old(self)
            }),
            final(self).progress(*final(found)) == expire_one(
                old(self).progress(*old(found)),
                pn,
                limit,
                now,
            ),
            final(found).dropped <= old(found).dropped + 1,
    {
        let overdue = match self.unacked_packets.get(&pn) {
            None => false,
            Some(up) => now.saturating_sub(up.sent_at) as u128 > limit,
        };
        if !overdue {
            return ;
        }
        let ghost before = self.unacked_packets@;
        if let Some(up) = self.unacked_packets.remove(&pn) {
            found.due = true;
            if up.retries > MAX_RETRIES {
                let len: usize = bytes_len(&up.data);
                self.bytes_in_flight = self.bytes_in_flight.saturating_sub(len);
                found.dropped = found.dropped + 1;
                assert(self.unacked_packets@ =~= before.remove(pn));
            } else {
                let ghost sent = contents_of(found.resend@);
                found.resend.push(bytes_clone(&up.data));
                assert(contents_of(found.resend@) =~= sent.push(
                    crate::payload::contents(up.data),
                ));
                self.unacked_packets.insert(
                    pn,
                    UnackedPacket { retries: up.retries + 1, sent_at: now, ..up },
                );
                assert(self.unacked_packets@ =~= before.insert(
                    pn,
                    UnackedPacket { retries: (up.retries + 1) as u32, sent_at: now, ..up },
                ));
            }
        }
    }

    /// How far a look at the timers has come.
    pub open spec fn progress(&self, found: Expired) -> Expiry {
        Expiry {
            unacked: self.unacked_packets@,
            in_flight: self.bytes_in_flight,
            resend: contents_of(found.resend@),
            dropped: found.dropped as nat,
            due: found.due,
        }
    }

    fn expire(&mut self, limit: u128, now: u64) -> (found: Expired)
        ensures
            *final(self) == (ZtConnection {
                unacked_packets: final(self).unacked_packets,
                bytes_in_flight: final(self).bytes_in_flight,
                ..*old(self)
            }),
            final(self).progress(found) == old(self).expired(limit, now),
    {
        let mut found = Expired { resend: Vec::new(), dropped: 0, due: false };
        let ghost t0 = self.expiry();
        let ghost top = u64::MAX + 1;
        assert(contents_of(found.resend@) =~= Seq::empty());
        let keys = keys_in_order(&self.unacked_packets);
        let mut i: usize = 0;
        proof {
            let first = crate::ranges::next_key(keys@, 0, top);
            assert forall|k: u64| k < first implies !#[trigger] t0.unacked.contains_key(k) by {
                if t0.unacked.contains_key(k) {
                    assert(keys@.contains(k));
                    let j = choose|j: int| 0 <= j < keys@.len() && keys@[j] == k;
                    assert(j == 0 || keys@[0] < keys@[j]);
                }
            }
            lemma_expiry_idle(t0, 0, first, limit, now);
        }
        while i < keys.len()
            invariant
                i <= keys@.len(),
                top == u64::MAX + 1,
                found.dropped <= i,
                *self == (ZtConnection {
                    unacked_packets: self.unacked_packets,
                    bytes_in_flight: self.bytes_in_flight,
                    ..*old(self)
                }),
                crate::unacked_window::lists_keys_below(t0.unacked, top, keys@),
                self.progress(found) == expire_below(
                    t0,
                    crate::ranges::next_key(keys@, i as int, top),
                    limit,
                    now,
                ),
            decreases keys@.len() - i,
        {
            let pn: u64 = keys[i];
            self.look_at(pn, limit, now, &mut found);
            proof {
                crate::ranges::lemma_no_key_between(t0.unacked, top, keys@, i as int);
                let next = crate::ranges::next_key(keys@, i + 1, top);
                assert(self.progress(found) == expire_below(t0, pn + 1, limit, now));
                lemma_expiry_idle(t0, pn + 1, next, limit, now);
            }
            i = i + 1;
        }
        found
    }

    /// How long a packet may be out before it is sent again: the round trip and
    /// four times its variation, 50 milliseconds at least.
    pub open spec fn timeout(&self) -> u128 {
        let rto = self.rtt + 4 * self.rttvar;
        if rto > 50_000_000 {
            rto as u128
        } else {
            50_000_000
        }
    }

    /// How long a packet may be out before it is sent again.
    pub fn rto(&self) -> (r: u128)
        ensures
            r == self.timeout(),
    {
        let rto: u128 = self.rtt as u128 + 4 * (self.rttvar as u128);
        if rto > 50_000_000 {
            rto
        } else {
            50_000_000
        }
    }

    /// Finds the packets that are overdue. Those to be sent again are returned;
    /// if there are any the window shrinks. The connection has timed out when as
    /// many packets were given up as are left.
    pub fn handle_retransmits(&mut self, now: u64) -> (r: (Vec<Bytes>, Result<(), ZtError>))
        ensures
            ({
                let t = old(self).expired(old(self).timeout(), now);
                let mid = ZtConnection {
                    unacked_packets: final(self).unacked_packets,
                    bytes_in_flight: t.in_flight,
                    ..*old(self)
                };
                &&& *final(self) == if t.resend.len() > 0 {
                    mid.after_loss()
                } else {
                    mid
                }
                &&& final(self).unacked_packets@ == t.unacked
                &&& contents_of(r.0@) == t.resend
                &&& r.1 == if t.unacked.dom().len() > 0 && t.dropped == t.unacked.dom().len() {
                    Err::<(), ZtError>(ZtError::Timeout)
                } else {
                    Ok::<(), ZtError>(())
                }
            }),
    {
        let limit: u128 = self.rto();
        let found = self.expire(limit, now);
        assert(contents_of(found.resend@).len() == found.resend@.len());
        if found.resend.len() > 0 {
            self.handle_loss();
        }
        let left: usize = self.unacked_packets.len();
        if left > 0 && found.dropped == left {
            return (found.resend, Err(ZtError::Timeout));
        }
        (found.resend, Ok(()))
    }

    /// The periodic scan: packets out for more than four round trips are sent
    /// again or given up, and if there are any the window shrinks.
    pub fn scan_retransmits(&mut self, now: u64) -> (r: Vec<Bytes>)
        ensures
            ({
                let t = old(self).expired((4 * old(self).rtt) as u128, now);
                let mid = ZtConnection {
                    unacked_packets: final(self).unacked_packets,
                    bytes_in_flight: t.in_flight,
                    ..*old(self)
                };
                &&& *final(self) == if t.due {
                    mid.after_loss()
                } else {
                    mid
                }
                &&& final(self).unacked_packets@ == t.unacked
                &&& contents_of(r@) == t.resend
            }),
    {
        let limit: u128 = 4 * (self.rtt as u128);
        let found = self.expire(limit, now);
        if found.due {
            self.handle_loss();
        }
        found.resend
    }
}

/// No packet is ever sent again more often than the limit allows: a packet that
/// was tried too often is given up instead.
pub proof fn law_retries_are_bounded(t: Expiry, hi: int, limit: u128, now: u64)
    requires
        hi <= u64::MAX + 1,
        forall|k: u64| #[trigger]
            t.unacked.contains_key(k) ==> t.unacked[k].retries <= MAX_RETRIES + 1,
    ensures
        forall|k: u64| #[trigger]
            expire_below(t, hi, limit, now).unacked.contains_key(k) ==> expire_below(
                t,
                hi,
                limit,
                now,
            ).unacked[k].retries <= MAX_RETRIES + 1,
    decreases hi,
{
    if hi > 0 {
        law_retries_are_bounded(t, hi - 1, limit, now);
        let before = expire_below(t, hi - 1, limit, now);
        let after = expire_below(t, hi, limit, now);
        assert forall|k: u64| #[trigger] after.unacked.contains_key(k) implies after.unacked[k].retries
            <= MAX_RETRIES + 1 by {
            if before.unacked.contains_key(k) {
                assert(before.unacked[k].retries <= MAX_RETRIES + 1);
            }
            if before.unacked.contains_key((hi - 1) as u64) {
                assert(before.unacked[(hi - 1) as u64].retries <= MAX_RETRIES + 1);
            }
        }
    }
}

/// After a loss the threshold is half the window but two packets at least, and
/// the window is three packets above the threshold. Nothing else changes.
pub proof fn law_loss_leaves_three_packets_above_half(conn: ZtConnection)
    requires
        conn.cwnd + 5 * conn.mtu <= usize::MAX,
    ensures
        ({
            let after = conn.after_loss();
            &&& after.ssthresh >= 2 * conn.mtu
            &&& 2 * after.ssthresh + 1 >= conn.cwnd
            &&& 2 * after.ssthresh <= conn.cwnd || after.ssthresh == 2 * conn.mtu
            &&& after.cwnd == after.ssthresh + 3 * conn.mtu
            &&& after == (ZtConnection { cwnd: after.cwnd, ssthresh: after.ssthresh, ..conn })
        }),
{
}

/// The bytes of a packet.
pub open spec fn packet_bytes() -> spec_fn(UnackedPacket) -> nat {
    |p: UnackedPacket| (crate::payload::contents(p.data).len() as usize) as nat
}

/// How acknowledging packets moves a tally on.
spec fn settled_on(t: CumTally, u: CumTally, now: u64) -> bool {
    &&& u.unacked.dom().finite()
    &&& forall|k: u64| #[trigger]
        u.unacked.contains_key(k) ==> t.unacked.contains_key(k) && u.unacked[k] == t.unacked[k]
    &&& crate::totals::packet_total(u.unacked, packet_bytes()) <= crate::totals::packet_total(
        t.unacked,
        packet_bytes(),
    )
    &&& u.bytes_acked == up_to_max(
        t.bytes_acked + crate::totals::packet_total(t.unacked, packet_bytes())
            - crate::totals::packet_total(u.unacked, packet_bytes()),
    )
    &&& t.sample is Some ==> u.sample == t.sample
    &&& t.sample is None && u.sample is None ==> forall|k: u64| #[trigger]
        t.unacked.contains_key(k) && !u.unacked.contains_key(k) ==> t.unacked[k].retries != 0
    &&& t.sample is None && u.sample is Some ==> exists|k: u64| #[trigger]
        t.unacked.contains_key(k) && !u.unacked.contains_key(k) && t.unacked[k].retries == 0
            && u.sample == Some(crate::congestion::elapsed(now, t.unacked[k].sent_at))
    &&& u.mtu >= t.mtu
    &&& forall|k: u64| #[trigger]
        t.unacked.contains_key(k) && u.unacked.contains_key(k) && t.probes.contains_key(k)
            ==> u.probes.contains_key(k)
    &&& forall|k: u64| #[trigger] u.probes.contains_key(k) ==> t.probes.contains_key(k)
    &&& forall|k: u64| #[trigger]
        t.unacked.contains_key(k) && !u.unacked.contains_key(k) && t.unacked[k].is_mtu_probe
            && t.probes.contains_key(k) ==> u.mtu >= packet_bytes()(t.unacked[k])
    &&& (forall|k: u64| #[trigger]
        t.unacked.contains_key(k) ==> !t.unacked[k].is_mtu_probe) ==> u.mtu == t.mtu && u.probes
        == t.probes
}

/// `n`, or the largest size if that is less.
spec fn up_to_max(n: int) -> int {
    if n > usize::MAX {
        usize::MAX as int
    } else {
        n
    }
}

proof fn lemma_settled_on_step(t: CumTally, pn: u64, now: u64)
    requires
        t.unacked.dom().finite(),
    ensures
        settled_on(t, settle_one(t, pn, now), now),
{
    crate::totals::law_packet_totals_are_sums(t.unacked, packet_bytes(), pn);
    if t.unacked.contains_key(pn) {
        assert(!settle_one(t, pn, now).unacked.contains_key(pn));
    }
}

proof fn lemma_settled_on_again(t: CumTally, u: CumTally, v: CumTally, now: u64)
    requires
        settled_on(t, u, now),
        settled_on(u, v, now),
    ensures
        settled_on(t, v, now),
{
    if t.sample is None && v.sample is Some {
        if u.sample is Some {
            let k = choose|k: u64| #[trigger]
                t.unacked.contains_key(k) && !u.unacked.contains_key(k) && t.unacked[k].retries == 0
                    && u.sample == Some(crate::congestion::elapsed(now, t.unacked[k].sent_at));
            assert(t.unacked.contains_key(k) && !v.unacked.contains_key(k));
        } else {
            let k = choose|k: u64| #[trigger]
                u.unacked.contains_key(k) && !v.unacked.contains_key(k) && u.unacked[k].retries == 0
                    && v.sample == Some(crate::congestion::elapsed(now, u.unacked[k].sent_at));
            assert(t.unacked.contains_key(k) && !v.unacked.contains_key(k));
        }
    }
    if t.sample is None && v.sample is None {
        assert forall|k: u64| #[trigger]
            t.unacked.contains_key(k) && !v.unacked.contains_key(k) implies t.unacked[k].retries
            != 0 by {
            if u.unacked.contains_key(k) {
                assert(u.unacked[k] == t.unacked[k]);
            }
        }
    }
    assert forall|k: u64| #[trigger]
        t.unacked.contains_key(k) && v.unacked.contains_key(k) && t.probes.contains_key(
            k,
        ) implies v.probes.contains_key(k) by {
        assert(u.unacked.contains_key(k));
    }
    assert forall|k: u64| #[trigger]
        t.unacked.contains_key(k) && !v.unacked.contains_key(k) && t.unacked[k].is_mtu_probe
            && t.probes.contains_key(k) implies v.mtu >= packet_bytes()(t.unacked[k]) by {
        if u.unacked.contains_key(k) {
            assert(u.unacked[k] == t.unacked[k]);
        }
    }
    if forall|k: u64| #[trigger] t.unacked.contains_key(k) ==> !t.unacked[k].is_mtu_probe {
        assert forall|k: u64| #[trigger]
            u.unacked.contains_key(k) implies !u.unacked[k].is_mtu_probe by {
            assert(t.unacked.contains_key(k));
        }
    }
}

proof fn lemma_settled_on_span(t: CumTally, lo: int, hi: int, now: u64)
    requires
        t.unacked.dom().finite(),
        0 <= lo,
        hi <= u64::MAX + 1,
    ensures
        settled_on(t, settle_span(t, lo, hi, now), now),
        forall|k: u64|
            #![trigger settle_span(t, lo, hi, now).unacked.contains_key(k)]
            settle_span(t, lo, hi, now).unacked.contains_key(k) <==> t.unacked.contains_key(k) && !(
            lo <= k < hi),
    decreases hi - lo,
{
    if hi > lo {
        lemma_settled_on_span(t, lo, hi - 1, now);
        let u = settle_span(t, lo, hi - 1, now);
        lemma_settled_on_step(u, (hi - 1) as u64, now);
        lemma_settled_on_again(t, u, settle_span(t, lo, hi, now), now);
        assert forall|k: u64|
            #![trigger settle_span(t, lo, hi, now).unacked.contains_key(k)]
            settle_span(t, lo, hi, now).unacked.contains_key(k) <==> t.unacked.contains_key(k) && !(
            lo <= k < hi) by {
            assert(u.unacked.contains_key(k) <==> t.unacked.contains_key(k) && !(lo <= k < hi
                - 1));
        }
    }
}

proof fn lemma_settled_on_ranges(t: CumTally, ranges: Seq<(u64, u64)>, now: u64)
    requires
        t.unacked.dom().finite(),
    ensures
        settled_on(t, settle_ranges(t, ranges, now), now),
        forall|k: u64|
            #![trigger settle_ranges(t, ranges, now).unacked.contains_key(k)]
            settle_ranges(t, ranges, now).unacked.contains_key(k) <==> t.unacked.contains_key(k)
                && !crate::recovery::in_ranges(ranges, k),
    decreases ranges.len(),
{
    if ranges.len() > 0 {
        let fewer = ranges.drop_last();
        let last = ranges.last();
        lemma_settled_on_ranges(t, fewer, now);
        let u = settle_ranges(t, fewer, now);
        let v = settle_ranges(t, ranges, now);
        lemma_settled_on_span(u, last.0 as int, last.1 + 1, now);
        lemma_settled_on_again(t, u, v, now);
        assert forall|k: u64| #[trigger] v.unacked.contains_key(k) <==> t.unacked.contains_key(k)
            && !crate::recovery::in_ranges(ranges, k) by {
            assert(u.unacked.contains_key(k) <==> t.unacked.contains_key(k)
                && !crate::recovery::in_ranges(fewer, k));
            if crate::recovery::in_ranges(ranges, k) {
                let i = choose|i: int|
                    0 <= i < ranges.len() && (#[trigger] ranges[i]).0 <= k <= ranges[i].1;
                if i < fewer.len() {
                    assert(fewer[i] == ranges[i]);
                }
            }
            if crate::recovery::in_ranges(fewer, k) {
                let i = choose|i: int|
                    0 <= i < fewer.len() && (#[trigger] fewer[i]).0 <= k <= fewer[i].1;
                assert(ranges[i] == fewer[i]);
            }
            if last.0 <= k <= last.1 {
                assert(ranges[ranges.len() - 1] == last);
            }
        }
    }
}

/// What an acknowledgement does. Exactly the packets up to the largest and those
/// in the ranges are done with; the bytes in flight go down by their sizes, and the
/// window grows by as much in slow start, or else by the share of one packet that
/// they are of the window. The peer's window is what it says.
pub proof fn law_acknowledged_packets_are_done_with(
    before: ZtConnection,
    largest: u64,
    window_size: u32,
    ranges: Seq<(u64, u64)>,
    now: u64,
    after: ZtConnection,
)
    requires
        before.acked_by(largest, window_size, ranges, now, &after),
        before.unacked_packets@.dom().finite(),
        before.cwnd > 0 || before.mtu > 0,
    ensures
        forall|k: u64| #[trigger]
            after.unacked_packets@.contains_key(k) <==> before.unacked_packets@.contains_key(k) && k
                > largest && (forall|i: int|
                0 <= i < ranges.len() ==> !((#[trigger] ranges[i]).0 <= k <= ranges[i].1)),
        forall|k: u64| #[trigger]
            after.unacked_packets@.contains_key(k) ==> after.unacked_packets@[k]
                == before.unacked_packets@[k],
        forall|p: UnackedPacket| #[trigger]
            packet_bytes()(p) == (crate::payload::contents(p.data).len() as usize) as nat,
        after.remote_window == window_size,
        after.mtu >= before.mtu,
        after == (ZtConnection {
            unacked_packets: after.unacked_packets,
            mtu_probes: after.mtu_probes,
            mtu: after.mtu,
            bytes_in_flight: after.bytes_in_flight,
            rtt: after.rtt,
            rttvar: after.rttvar,
            rtt_initialized: after.rtt_initialized,
            cwnd: after.cwnd,
            remote_window: window_size,
            ..before
        }),
        ({
            let done = crate::totals::packet_total(before.unacked_packets@, packet_bytes())
                - crate::totals::packet_total(after.unacked_packets@, packet_bytes());
            let base: int = if before.cwnd > after.mtu {
                before.cwnd as int
            } else {
                after.mtu as int
            };
            &&& done >= 0
            &&& done <= before.bytes_in_flight ==> after.bytes_in_flight + done
                == before.bytes_in_flight
            &&& done > before.bytes_in_flight ==> after.bytes_in_flight == 0
            &&& done == 0 ==> after.cwnd == before.cwnd
            &&& before.cwnd < before.ssthresh && before.cwnd + done <= usize::MAX ==> after.cwnd
                == before.cwnd + done
            &&& before.cwnd >= before.ssthresh && before.cwnd + done <= usize::MAX ==> after.cwnd
                == before.cwnd + (after.mtu as int * done) / base
        }),
{
    let t = before.tally(CumCounts { bytes_acked: 0, sample: None });
    let sacked = settle_ranges(t, ranges, now);
    let u = settle_span(sacked, 0, largest + 1, now);
    lemma_settled_on_ranges(t, ranges, now);
    lemma_settled_on_span(sacked, 0, largest + 1, now);
    lemma_settled_on_again(t, sacked, u, now);
    assert forall|k: u64| #[trigger]
        after.unacked_packets@.contains_key(k) <==> before.unacked_packets@.contains_key(k) && k
            > largest && (forall|i: int|
            0 <= i < ranges.len() ==> !((#[trigger] ranges[i]).0 <= k <= ranges[i].1)) by {
        assert(u.unacked.contains_key(k) <==> sacked.unacked.contains_key(k) && !(0 <= k < largest
            + 1));
        assert(sacked.unacked.contains_key(k) <==> t.unacked.contains_key(k)
            && !crate::recovery::in_ranges(ranges, k));
    }
    crate::congestion::lemma_additive_increase(after.mtu, u.bytes_acked, before.cwnd);
    if u.bytes_acked == 0 {
        assert(after.mtu as int * 0 == 0);
        let d = crate::congestion::larger(before.cwnd, after.mtu) as int;
        assert(0int / d == 0) by (nonlinear_arith)
            requires
                d > 0,
        ;
    }
}

/// A packet's time out is the round trip, if it was sent once. Without such a
/// packet among those that are done with the estimate stays; with one, it is taken
/// as it is the first time, and by an eighth later; the variation is half of it
/// the first time and moves by a quarter of the distance later.
pub proof fn law_round_trips_are_measured(
    before: ZtConnection,
    largest: u64,
    window_size: u32,
    ranges: Seq<(u64, u64)>,
    now: u64,
    after: ZtConnection,
)
    requires
        before.acked_by(largest, window_size, ranges, now, &after),
        before.unacked_packets@.dom().finite(),
    ensures
        (forall|k: u64| #[trigger]
            before.unacked_packets@.contains_key(k) && !after.unacked_packets@.contains_key(k)
                ==> before.unacked_packets@[k].retries > 0) ==> after.rtt == before.rtt
            && after.rttvar == before.rttvar && after.rtt_initialized == before.rtt_initialized,
        !(forall|k: u64| #[trigger]
            before.unacked_packets@.contains_key(k) && !after.unacked_packets@.contains_key(k)
                ==> before.unacked_packets@[k].retries > 0) ==> after.rtt_initialized && exists|
            k: u64,
        | #[trigger]
            before.unacked_packets@.contains_key(k) && !after.unacked_packets@.contains_key(k)
                && before.unacked_packets@[k].retries == 0 && estimate_took(
                before,
                before.unacked_packets@[k].sent_at,
                now,
                after,
            ),
{
    let t = before.tally(CumCounts { bytes_acked: 0, sample: None });
    let sacked = settle_ranges(t, ranges, now);
    let u = settle_span(sacked, 0, largest + 1, now);
    lemma_settled_on_ranges(t, ranges, now);
    lemma_settled_on_span(sacked, 0, largest + 1, now);
    lemma_settled_on_again(t, sacked, u, now);
    if u.sample is Some {
        let k = choose|k: u64| #[trigger]
            t.unacked.contains_key(k) && !u.unacked.contains_key(k) && t.unacked[k].retries == 0
                && u.sample == Some(crate::congestion::elapsed(now, t.unacked[k].sent_at));
        assert(before.unacked_packets@.contains_key(k) && !after.unacked_packets@.contains_key(k));
        assert(estimate_took(before, before.unacked_packets@[k].sent_at, now, after));
    } else {
        assert forall|k: u64| #[trigger]
            before.unacked_packets@.contains_key(k) && !after.unacked_packets@.contains_key(
                k,
            ) implies before.unacked_packets@[k].retries > 0 by {
            assert(t.unacked.contains_key(k));
        }
    }
}

/// Whether the estimate of `after` is that of `before` with the round trip of a
/// packet sent at `sent_at` taken in at `now`.
pub open spec fn estimate_took(
    before: ZtConnection,
    sent_at: u64,
    now: u64,
    after: ZtConnection,
) -> bool {
    let sample: int = if now < sent_at {
        0
    } else {
        now - sent_at
    };
    let off: int = if before.rtt > sample {
        before.rtt - sample
    } else {
        sample - before.rtt
    };
    &&& !before.rtt_initialized ==> after.rtt == sample && after.rttvar == sample / 2
    &&& before.rtt_initialized ==> after.rtt == (7 * before.rtt + sample) / 8 && after.rttvar == (3
        * before.rttvar + off) / 4
}

/// A probe that is acknowledged makes its size usable; without probes out the
/// packet size stays.
pub proof fn law_acknowledged_probes_raise_the_packet_size(
    before: ZtConnection,
    largest: u64,
    window_size: u32,
    ranges: Seq<(u64, u64)>,
    now: u64,
    after: ZtConnection,
    pn: u64,
)
    requires
        before.acked_by(largest, window_size, ranges, now, &after),
        before.unacked_packets@.dom().finite(),
    ensures
        before.unacked_packets@.contains_key(pn) && pn <= largest
            && before.unacked_packets@[pn].is_mtu_probe && before.mtu_probes@.contains_key(pn)
            ==> after.mtu >= crate::payload::contents(
            before.unacked_packets@[pn].data,
        ).len() as usize,
        (forall|k: u64| #[trigger]
            before.unacked_packets@.contains_key(k) ==> !before.unacked_packets@[k].is_mtu_probe)
            ==> after.mtu == before.mtu,
{
    let t = before.tally(CumCounts { bytes_acked: 0, sample: None });
    let sacked = settle_ranges(t, ranges, now);
    let u = settle_span(sacked, 0, largest + 1, now);
    lemma_settled_on_ranges(t, ranges, now);
    lemma_settled_on_span(sacked, 0, largest + 1, now);
    lemma_settled_on_again(t, sacked, u, now);
    if before.unacked_packets@.contains_key(pn) && pn <= largest {
        assert(u.unacked.contains_key(pn) <==> sacked.unacked.contains_key(pn) && !(0 <= pn
            < largest + 1));
        assert(t.unacked.contains_key(pn));
        assert(packet_bytes()(t.unacked[pn]) == (crate::payload::contents(
            t.unacked[pn].data,
        ).len() as usize) as nat);
    }
}

/// A packet is refused if and only if it was processed, or lies 128 or more below
/// the highest that was. Nothing above the highest is refused, nor anything before
/// the first.
pub proof fn law_only_old_packets_are_refused(conn: ZtConnection, pn: u64)
    ensures
        conn.highest_processed_pn is None ==> !conn.refuses(pn),
        conn.highest_processed_pn matches Some(h) ==> (conn.refuses(pn) <==> pn + 128 <= h
            || conn.processed().contains(pn)),
        conn.highest_processed_pn matches Some(h) ==> (pn > h ==> !conn.refuses(pn)),
        conn.highest_processed_pn matches Some(h) ==> (conn.processed().contains(pn) ==> pn <= h < pn
            + 128),
{
}

/// What is buffered in all is the sum over the streams.
pub proof fn law_buffered_total_is_a_sum(streams: Map<u32, StreamState>, id: u32, s: StreamState)
    requires
        streams.dom().finite(),
    ensures
        total_buffered(Map::empty()) == 0,
        total_buffered(streams.insert(id, s)) == s.buffered_bytes + total_buffered(
            streams.remove(id),
        ),
        streams.contains_key(id) ==> total_buffered(streams) == streams[id].buffered_bytes
            + total_buffered(streams.remove(id)),
{
    let f = |x: StreamState| x.buffered_bytes as nat;
    let more = streams.insert(id, s);
    assert(more.map_values(f).dom() =~= more.dom());
    crate::totals::lemma_map_total_remove(more.map_values(f), id);
    assert(more.map_values(f).remove(id) =~= streams.remove(id).map_values(f));
    if streams.contains_key(id) {
        assert(streams.map_values(f).dom() =~= streams.dom());
        crate::totals::lemma_map_total_remove(streams.map_values(f), id);
        assert(streams.map_values(f).remove(id) =~= streams.remove(id).map_values(f));
    }
    assert(Map::<u32, StreamState>::empty().map_values(f).dom() =~= Set::<u32>::empty());
}

/// Data that begins below the expected offset changes nothing. Other data counts
/// as arrived at its offsets and as buffered, and nothing is handed on yet.
pub proof fn law_arrived_data_is_kept(
    before: StreamState,
    after: StreamState,
    offset: u64,
    data: Seq<u8>,
)
    requires
        before.took_in(&after, offset, data),
    ensures
        offset < before.expected_rx_offset || data.len() == 0 ==> after == before,
        offset >= before.expected_rx_offset && data.len() > 0 ==> ({
            &&& forall|x: int| #[trigger]
                after.received().contains(x) <==> before.received().contains(x) || offset <= x
                    < offset + data.len()
            &&& data.len() <= usize::MAX && before.buffered_bytes + data.len() <= usize::MAX
                ==> after.buffered_bytes == before.buffered_bytes + data.len()
            &&& after.expected_rx_offset == before.expected_rx_offset
            &&& after.next_tx_offset == before.next_tx_offset
            &&& after.window_size == before.window_size
        }),
{
}

/// What can be handed on is handed on: if the expected offset arrived and there is
/// room, the bytes up to the first gap go out, the next offset expected is where
/// they end, and as much less is buffered. Otherwise nothing happens.
pub proof fn law_everything_up_to_the_gap_is_handed_on(
    before: StreamState,
    after: StreamState,
    room: bool,
    chunk: Option<Bytes>,
)
    requires
        before.wf(),
        before.handed_on(&after, room, chunk),
    ensures
        chunk is Some <==> room && before.received().contains(before.expected_rx_offset as int),
        chunk is None ==> after == before,
        chunk is Some ==> ({
            let len = crate::payload::contents(chunk->0).len();
            let from = before.expected_rx_offset;
            &&& len > 0
            &&& after.expected_rx_offset == from + len
            &&& forall|x: int| from <= x < from + len ==> #[trigger] before.received().contains(x)
            &&& !before.received().contains(from + len)
            &&& forall|x: int| #[trigger]
                after.received().contains(x) <==> before.received().contains(x) && x >= from + len
            &&& len <= before.buffered_bytes ==> after.buffered_bytes + len
                == before.buffered_bytes
            &&& after.next_tx_offset == before.next_tx_offset
            &&& after.window_size == before.window_size
        }),
{
    if chunk is Some {
        let from = before.expected_rx_offset;
        let to = after.expected_rx_offset;
        let ranges = before.received_ranges@;
        let first = choose|k: u64| #[trigger] ranges.contains_key(k) && k <= from < ranges[k];
        assert(before.received().contains(from as int));
        assert(first == from);
        if ranges[from] < to {
            let x = ranges[from] as int;
            assert(before.received().contains(x));
            let k = choose|k: u64| #[trigger] ranges.contains_key(k) && k <= x < ranges[k];
            assert(ranges.contains_key(from) && ranges.contains_key(k));
        }
        if ranges[from] > to {
            assert(ranges.contains_key(from));
            assert(before.received().contains(to as int));
        }
        assert forall|x: int| #[trigger] after.received().contains(x) implies before.received().contains(x) && x >= to by {
            let k = choose|k: u64| #[trigger]
                after.received_ranges@.contains_key(k) && k <= x < after.received_ranges@[k];
            assert(ranges.contains_key(k) && ranges.contains_key(from));
        }
    }
}

/// A new stream is empty and has a window of one mebibyte.
pub proof fn law_new_streams_are_empty(s: StreamState)
    requires
        s.is_fresh(),
    ensures
        s.expected_rx_offset == 0 && s.next_tx_offset == 0 && s.buffered_bytes == 0,
        s.window_size == 1_048_576,
        s.ring_buffer is None,
        s.last_acked_offset == 0 && s.dup_ack_count == 0,
        forall|x: int| !#[trigger] s.received().contains(x),
{
}

/// How a look at the timers moves on.
spec fn expiry_on(t: Expiry, u: Expiry) -> bool {
    &&& u.resend.len() >= t.resend.len()
    &&& u.dropped >= t.dropped
    &&& t.due ==> u.due
    &&& u.due <==> t.due || u.resend.len() > t.resend.len() || u.dropped > t.dropped
    &&& u.in_flight <= t.in_flight
    &&& u.dropped == t.dropped ==> u.in_flight == t.in_flight
    &&& forall|x: Seq<u8>| #[trigger] t.resend.contains(x) ==> u.resend.contains(x)
}

proof fn lemma_expiry_below(t: Expiry, hi: int, limit: u128, now: u64)
    ensures
        expiry_on(t, expire_below(t, hi, limit, now)),
    decreases hi,
{
    if hi > 0 {
        lemma_expiry_below(t, hi - 1, limit, now);
        let u = expire_below(t, hi - 1, limit, now);
        let v = expire_below(t, hi, limit, now);
        assert forall|x: Seq<u8>| #[trigger] u.resend.contains(x) implies v.resend.contains(x) by {
            let i = choose|i: int| 0 <= i < u.resend.len() && u.resend[i] == x;
            assert(v.resend[i] == x);
        }
    }
}

proof fn lemma_expiry_of_one(t: Expiry, hi: int, limit: u128, now: u64, k: u64)
    requires
        0 <= hi <= u64::MAX + 1,
        t.unacked.contains_key(k),
    ensures
        ({
            let u = expire_below(t, hi, limit, now);
            let p = t.unacked[k];
            let overdue = k < hi && crate::congestion::elapsed(now, p.sent_at) > limit;
            &&& !overdue ==> u.unacked.contains_key(k) && u.unacked[k] == p
            &&& overdue && p.retries > 10 ==> !u.unacked.contains_key(k)
            &&& overdue && p.retries <= 10 ==> u.unacked.contains_key(k) && u.unacked[k].retries
                == p.retries + 1 && u.unacked[k].sent_at == now && u.unacked[k].data == p.data
                && u.resend.contains(crate::payload::contents(p.data))
        }),
    decreases hi,
{
    if hi > 0 {
        lemma_expiry_of_one(t, hi - 1, limit, now, k);
        let u = expire_below(t, hi - 1, limit, now);
        let v = expire_below(t, hi, limit, now);
        let x = crate::payload::contents(t.unacked[k].data);
        if u.resend.contains(x) {
            let i = choose|i: int| 0 <= i < u.resend.len() && u.resend[i] == x;
            assert(v.resend[i] == x);
        }
        if k == (hi - 1) as u64 && v.resend.len() > u.resend.len() {
            assert(v.resend[u.resend.len() as int] == x);
        }
    }
}

/// What a look at the timers does to one packet. One that has been out for no
/// longer than the limit stays as it is. An overdue one is sent again and counts
/// from now, once more; after ten retries it is given up instead.
pub proof fn law_overdue_packets_are_sent_again(
    conn: ZtConnection,
    limit: u128,
    now: u64,
    pn: u64,
)
    requires
        conn.unacked_packets@.contains_key(pn),
    ensures
        ({
            let p = conn.unacked_packets@[pn];
            let overdue = now - p.sent_at > limit;
            let e = conn.expired(limit, now);
            &&& !overdue ==> e.unacked.contains_key(pn) && e.unacked[pn] == p
            &&& overdue && p.retries <= 10 ==> e.unacked.contains_key(pn)
                && e.unacked[pn].retries == p.retries + 1 && e.unacked[pn].sent_at == now
                && e.unacked[pn].data == p.data && e.resend.contains(
                crate::payload::contents(p.data),
            )
            &&& overdue && p.retries > 10 ==> !e.unacked.contains_key(pn)
        }),
{
    lemma_expiry_of_one(conn.expiry(), u64::MAX + 1, limit, now, pn);
}

/// Nothing else happens on a look at the timers: no packet comes out of nowhere,
/// and if none is overdue nothing is sent, given up or counted.
pub proof fn law_timers_leave_the_rest_alone(conn: ZtConnection, limit: u128, now: u64)
    ensures
        ({
            let e = conn.expired(limit, now);
            &&& forall|k: u64| #[trigger]
                e.unacked.contains_key(k) ==> conn.unacked_packets@.contains_key(k)
            &&& e.due <==> e.resend.len() > 0 || e.dropped > 0
            &&& e.in_flight <= conn.bytes_in_flight
            &&& e.dropped == 0 ==> e.in_flight == conn.bytes_in_flight
            &&& (forall|k: u64| #[trigger]
                conn.unacked_packets@.contains_key(k) ==> now - conn.unacked_packets@[k].sent_at
                    <= limit) ==> !e.due && e.resend.len() == 0 && e.dropped == 0 && e.unacked
                == conn.unacked_packets@
        }),
{
    lemma_expiry_below(conn.expiry(), u64::MAX + 1, limit, now);
    lemma_expiry_shrinks(conn.expiry(), u64::MAX + 1, limit, now);
    if forall|k: u64| #[trigger]
        conn.unacked_packets@.contains_key(k) ==> now - conn.unacked_packets@[k].sent_at <= limit {
        lemma_nothing_overdue(conn.expiry(), u64::MAX + 1, limit, now);
    }
}

proof fn lemma_nothing_overdue(t: Expiry, hi: int, limit: u128, now: u64)
    requires
        forall|k: u64| #[trigger]
            t.unacked.contains_key(k) ==> now - t.unacked[k].sent_at <= limit,
    ensures
        expire_below(t, hi, limit, now) == t,
    decreases hi,
{
    if hi > 0 {
        lemma_nothing_overdue(t, hi - 1, limit, now);
    }
}

/// The timeout is the round-trip time and four times its variation, but fifty
/// milliseconds at least.
pub proof fn law_timeouts_follow_the_round_trip(conn: ZtConnection)
    ensures
        conn.timeout() >= 50_000_000,
        conn.timeout() >= conn.rtt + 4 * conn.rttvar,
        conn.timeout() == 50_000_000 || conn.timeout() == conn.rtt + 4 * conn.rttvar,
{
}

/// Packets that are given up are counted one by one, and the bytes in flight go
/// down by their sizes; packets that are sent again stay in flight.
pub proof fn law_given_up_packets_leave_the_flight(conn: ZtConnection, limit: u128, now: u64)
    requires
        conn.unacked_packets@.dom().finite(),
    ensures
        ({
            let e = conn.expired(limit, now);
            let gone = crate::totals::packet_total(conn.unacked_packets@, packet_bytes())
                - crate::totals::packet_total(e.unacked, packet_bytes());
            &&& e.unacked.dom().len() + e.dropped == conn.unacked_packets@.dom().len()
            &&& gone >= 0
            &&& gone <= conn.bytes_in_flight ==> e.in_flight + gone == conn.bytes_in_flight
            &&& gone > conn.bytes_in_flight ==> e.in_flight == 0
        }),
{
    lemma_given_up_below(conn.expiry(), u64::MAX + 1, limit, now);
}

proof fn lemma_given_up_below(t: Expiry, hi: int, limit: u128, now: u64)
    requires
        t.unacked.dom().finite(),
    ensures
        ({
            let u = expire_below(t, hi, limit, now);
            let gone = crate::totals::packet_total(t.unacked, packet_bytes())
                - crate::totals::packet_total(u.unacked, packet_bytes());
            &&& u.unacked.dom().finite()
            &&& u.unacked.dom().len() + u.dropped == t.unacked.dom().len() + t.dropped
            &&& gone >= 0
            &&& u.in_flight == if t.in_flight >= gone {
                t.in_flight - gone
            } else {
                0
            }
        }),
    decreases hi,
{
    if hi > 0 {
        lemma_given_up_below(t, hi - 1, limit, now);
        let u = expire_below(t, hi - 1, limit, now);
        let v = expire_below(t, hi, limit, now);
        let pn = (hi - 1) as u64;
        crate::totals::law_packet_totals_are_sums(u.unacked, packet_bytes(), pn);
        if u.unacked.contains_key(pn) {
            assert(v.unacked.remove(pn) =~= u.unacked.remove(pn));
            if v.unacked.contains_key(pn) {
                assert(v.unacked.dom() =~= u.unacked.dom());
                crate::totals::law_packet_totals_are_sums(v.unacked, packet_bytes(), pn);
                assert(packet_bytes()(v.unacked[pn]) == packet_bytes()(u.unacked[pn]));
            } else {
                assert(v.unacked.dom() =~= u.unacked.dom().remove(pn));
            }
        }
    }
}

/// The round trip is measured on the first packet: the lowest one of the first
/// range that was sent once, if there is any; without ranges, the lowest of all
/// that is done with.
pub proof fn law_the_first_packet_measures_the_round_trip(
    before: ZtConnection,
    largest: u64,
    window_size: u32,
    ranges: Seq<(u64, u64)>,
    now: u64,
    after: ZtConnection,
    pn: u64,
)
    requires
        before.acked_by(largest, window_size, ranges, now, &after),
        before.unacked_packets@.dom().finite(),
        before.unacked_packets@.contains_key(pn),
        before.unacked_packets@[pn].retries == 0,
        ranges.len() > 0 ==> ranges[0].0 <= pn <= ranges[0].1,
        ranges.len() == 0 ==> pn <= largest,
        forall|k: u64| #[trigger]
            before.unacked_packets@.contains_key(k) && (ranges.len() > 0 ==> ranges[0].0 <= k) && k
                < pn ==> before.unacked_packets@[k].retries > 0,
    ensures
        estimate_took(before, before.unacked_packets@[pn].sent_at, now, after),
        after.rtt_initialized,
{
    let t = before.tally(CumCounts { bytes_acked: 0, sample: None });
    let sacked = settle_ranges(t, ranges, now);
    if ranges.len() > 0 {
        lemma_first_sample_ranges(t, ranges, pn, now);
        lemma_settled_on_ranges(t, ranges, now);
        lemma_settled_on_span(sacked, 0, largest + 1, now);
    } else {
        lemma_first_sample_span(t, 0, largest + 1, pn, now);
    }
}

proof fn lemma_first_sample_span(t: CumTally, lo: int, hi: int, pn: u64, now: u64)
    requires
        t.unacked.dom().finite(),
        t.sample is None,
        0 <= lo <= pn,
        hi <= u64::MAX + 1,
        t.unacked.contains_key(pn),
        t.unacked[pn].retries == 0,
        forall|k: u64| #[trigger]
            t.unacked.contains_key(k) && lo <= k < pn ==> t.unacked[k].retries > 0,
    ensures
        hi <= pn ==> settle_span(t, lo, hi, now).sample is None,
        hi > pn ==> settle_span(t, lo, hi, now).sample == Some(
            crate::congestion::elapsed(now, t.unacked[pn].sent_at),
        ),
    decreases hi - lo,
{
    if hi > lo {
        lemma_first_sample_span(t, lo, hi - 1, pn, now);
        lemma_settled_on_span(t, lo, hi - 1, now);
        let u = settle_span(t, lo, hi - 1, now);
        let k = (hi - 1) as u64;
        assert(u.unacked.contains_key(k) <==> t.unacked.contains_key(k));
        if u.unacked.contains_key(k) {
            assert(u.unacked[k] == t.unacked[k]);
        }
    }
}

proof fn lemma_first_sample_ranges(t: CumTally, ranges: Seq<(u64, u64)>, pn: u64, now: u64)
    requires
        t.unacked.dom().finite(),
        t.sample is None,
        ranges.len() > 0,
        ranges[0].0 <= pn <= ranges[0].1,
        t.unacked.contains_key(pn),
        t.unacked[pn].retries == 0,
        forall|k: u64| #[trigger]
            t.unacked.contains_key(k) && ranges[0].0 <= k < pn ==> t.unacked[k].retries > 0,
    ensures
        settle_ranges(t, ranges, now).sample == Some(
            crate::congestion::elapsed(now, t.unacked[pn].sent_at),
        ),
    decreases ranges.len(),
{
    let fewer = ranges.drop_last();
    let last = ranges.last();
    if ranges.len() == 1 {
        assert(settle_ranges(t, fewer, now) == t);
        lemma_first_sample_span(t, last.0 as int, last.1 + 1, pn, now);
    } else {
        assert(fewer[0] == ranges[0]);
        lemma_first_sample_ranges(t, fewer, pn, now);
        lemma_settled_on_ranges(t, fewer, now);
        lemma_settled_on_span(settle_ranges(t, fewer, now), last.0 as int, last.1 + 1, now);
    }
}

} // verus!
