//! Acknowledgements, loss detection and retransmission.
//!
//! What an acknowledgement does to a connection is a walk over packet numbers
//! in a fixed order. The spec functions describe one step and the walk; the
//! executable code follows them.

use crate::config::MILLISECOND;
use crate::connection::{PathSearch, ZtConnection};
use crate::error::ZtError;
use crate::unacked::{UnackedPacket, UnackedPayload};
use vstd::prelude::*;

verus! {

broadcast use vstd::std_specs::hash::group_hash_axioms;

/// What an acknowledgement has covered so far.
pub struct AckCounts {
    /// Bytes of payload, probes aside.
    pub bytes_acked: usize,
    /// Bytes on the wire.
    pub flight_acked: usize,
    /// How long ago the first packet covered was sent, among those sent once.
    pub sample: Option<u64>,
}

/// The part of a connection that an acknowledgement works on.
#[verifier::ext_equal]
pub struct AckTally {
    pub unacked: Map<u64, UnackedPacket>,
    pub probes: Map<u64, usize>,
    pub search: PathSearch,
    pub bytes_acked: usize,
    pub flight_acked: usize,
    pub sample: Option<u64>,
}

/// The packet `pn` is acknowledged selectively. A probe that got through raises
/// the packet size.
pub open spec fn ack_one(t: AckTally, pn: u64, now: u64) -> AckTally {
    if !t.unacked.contains_key(pn) {
        t
    } else {
        let up = t.unacked[pn];
        let r = retire_one(t, pn, now);
        AckTally {
            probes: if up.is_mtu_probe {
                t.probes.remove(pn)
            } else {
                t.probes
            },
            search: if up.is_mtu_probe && t.probes.contains_key(pn) {
                t.search.passed(up.payload.size() as usize)
            } else {
                t.search
            },
            ..r
        }
    }
}

/// The packet `pn` is done with.
pub open spec fn retire_one(t: AckTally, pn: u64, now: u64) -> AckTally {
    if !t.unacked.contains_key(pn) {
        t
    } else {
        let up = t.unacked[pn];
        AckTally {
            unacked: t.unacked.remove(pn),
            bytes_acked: if up.is_mtu_probe {
                t.bytes_acked
            } else {
                crate::congestion::sat_add(t.bytes_acked, up.payload.size() as usize)
            },
            flight_acked: crate::congestion::sat_add(t.flight_acked, up.sent_bytes),
            sample: if t.sample is None && up.retries == 0 {
                Some(crate::congestion::elapsed(now, up.sent_at))
            } else {
                t.sample
            },
            ..t
        }
    }
}

/// The packets from `lo` up to but not including `hi` are acknowledged selectively.
pub open spec fn ack_span(t: AckTally, lo: int, hi: int, now: u64) -> AckTally
    decreases hi - lo,
{
    if hi <= lo {
        t
    } else {
        ack_one(ack_span(t, lo, hi - 1, now), (hi - 1) as u64, now)
    }
}

/// The packets in the inclusive ranges are acknowledged selectively, in order.
pub open spec fn ack_ranges(t: AckTally, ranges: Seq<(u64, u64)>, now: u64) -> AckTally
    decreases ranges.len(),
{
    if ranges.len() == 0 {
        t
    } else {
        ack_span(
            ack_ranges(t, ranges.drop_last(), now),
            ranges.last().0 as int,
            ranges.last().1 + 1,
            now,
        )
    }
}

/// The packets below `hi` are done with, from the lowest up.
pub open spec fn retire_below(t: AckTally, hi: int, now: u64) -> AckTally
    decreases hi,
{
    if hi <= 0 {
        t
    } else {
        retire_one(retire_below(t, hi - 1, now), (hi - 1) as u64, now)
    }
}

/// The part of a connection that loss detection works on.
#[verifier::ext_equal]
pub struct LossTally {
    pub unacked: Map<u64, UnackedPacket>,
    pub probes: Map<u64, usize>,
    pub search: PathSearch,
    pub in_flight: usize,
    /// What has to be sent again, with the number of times it was.
    pub resend: Seq<(UnackedPayload, u32)>,
    pub detected: bool,
    /// How many packets were lost, probes aside, and how many payloads sent again.
    pub counters: (u64, u64),
}

/// Whether a packet counts as lost once `largest` is acknowledged: three later
/// packets got through, or it has been out for longer than `threshold`.
pub open spec fn is_lost(up: UnackedPacket, pn: u64, largest: u64, now: u64, threshold: u64) -> bool {
    pn < largest && (pn + 3 <= largest || crate::congestion::elapsed(now, up.sent_at) > threshold)
}

/// The packet `pn` is given up if it counts as lost. Its payload is to be sent
/// again, unless it is a probe or a datagram.
pub open spec fn lose_one(t: LossTally, pn: u64, largest: u64, now: u64, threshold: u64) -> LossTally {
    if !t.unacked.contains_key(pn) || !is_lost(t.unacked[pn], pn, largest, now, threshold) {
        t
    } else {
        let up = t.unacked[pn];
        LossTally {
            unacked: t.unacked.remove(pn),
            probes: if up.is_mtu_probe {
                t.probes.remove(pn)
            } else {
                t.probes
            },
            search: if up.is_mtu_probe && t.probes.contains_key(pn) {
                t.search.failed(up.payload.size() as usize)
            } else {
                t.search
            },
            in_flight: crate::congestion::sat_sub(t.in_flight, up.sent_bytes),
            resend: if up.is_mtu_probe || up.payload is Datagram {
                t.resend
            } else {
                t.resend.push((up.payload, up.retries))
            },
            detected: t.detected || !up.is_mtu_probe,
            counters: if up.is_mtu_probe {
                t.counters
            } else if up.payload is Datagram {
                (crate::connection::counted_up(t.counters.0), t.counters.1)
            } else {
                (
                    crate::connection::counted_up(t.counters.0),
                    crate::connection::counted_up(t.counters.1),
                )
            },
        }
    }
}

/// The packets below `hi` that count as lost are given up, from the lowest up.
pub open spec fn lose_below(t: LossTally, hi: int, largest: u64, now: u64, threshold: u64) -> LossTally
    decreases hi,
{
    if hi <= 0 {
        t
    } else {
        lose_one(
            lose_below(t, hi - 1, largest, now, threshold),
            (hi - 1) as u64,
            largest,
            now,
            threshold,
        )
    }
}

/// A round-trip sample less the time that the peer held its acknowledgement
/// back, if that leaves anything.
pub open spec fn adjusted_sample(sample: u64, ack_delay_us: u64) -> u64 {
    if sample > ack_delay_us * 1000 {
        (sample - ack_delay_us * 1000) as u64
    } else {
        sample
    }
}

/// The distance between two durations.
pub open spec fn distance(a: u64, b: u64) -> u64 {
    if a > b {
        (a - b) as u64
    } else {
        (b - a) as u64
    }
}

/// The smoothed round-trip time and its variation after a sample.
pub open spec fn smoothed(initialized: bool, rtt: u64, rttvar: u64, sample: u64) -> (u64, u64) {
    if !initialized {
        (sample, sample / 2)
    } else {
        (
            ((rtt * 7 + sample) / 8) as u64,
            ((rttvar * 3 + distance(rtt, sample)) / 4) as u64,
        )
    }
}

/// How long a packet may be out before it counts as lost.
pub open spec fn loss_threshold(scaled_rtt: u64) -> u64 {
    if scaled_rtt > 15 * MILLISECOND {
        scaled_rtt
    } else {
        (15 * MILLISECOND) as u64
    }
}

/// What an acknowledgement leads to beyond the change of state.
pub struct AckOutcome {
    /// What has to be sent again, with the number of times it was.
    pub fast_retransmits: Vec<(UnackedPayload, u32)>,
    /// The round-trip time to report a loss to the congestion controller with.
    pub loss: Option<u64>,
    /// The payload bytes to report to the congestion controller as acknowledged.
    pub bytes_acked: usize,
    /// Whether senders that wait for credit should look again.
    pub wake_streams: bool,
}

impl ZtConnection {
    /// The part of the connection that an acknowledgement works on.
    pub open spec fn tally(&self, counts: AckCounts) -> AckTally {
        AckTally {
            unacked: self.unacked_packets@,
            probes: self.mtu_probes@,
            search: self.search(),
            bytes_acked: counts.bytes_acked,
            flight_acked: counts.flight_acked,
            sample: counts.sample,
        }
    }

    /// The tally before anything was covered.
    pub open spec fn tally_start(&self) -> AckTally {
        AckTally {
            unacked: self.unacked_packets@,
            probes: self.mtu_probes@,
            search: self.search(),
            bytes_acked: 0,
            flight_acked: 0,
            sample: None,
        }
    }

    /// `after` differs from `self` at most in its packets, its probes and what
    /// the probes have shown.
    pub open spec fn only_acked(&self, after: &ZtConnection) -> bool {
        &&& *after == (ZtConnection {
            unacked_packets: after.unacked_packets,
            mtu_probes: after.mtu_probes,
            ..self.with_search(after.search())
        })
        &&& after.mtu >= self.mtu
    }

    fn take_acked(&mut self, pn: u64, now: u64, counts: &mut AckCounts)
        requires
            old(self).wf(),
        ensures
            final(self).wf(),
            old(self).only_acked(final(self)),
            final(self).tally(*final(counts)) == ack_one(old(self).tally(*old(counts)), pn, now),
    {
        if let Some(up) = self.unacked_packets.remove(pn) {
            count_retired(&up, now, counts);
            if up.is_mtu_probe {
                if self.mtu_probes.remove(&pn).is_some() {
                    self.record_mtu_probe_success(up.payload.len());
                }
            }
        }
    }

    fn take_sacked(&mut self, start: u64, end: u64, now: u64, counts: &mut AckCounts)
        requires
            old(self).wf(),
        ensures
            final(self).wf(),
            old(self).only_acked(final(self)),
            final(self).tally(*final(counts)) == ack_span(
                old(self).tally(*old(counts)),
                start as int,
                end + 1,
                now,
            ),
    {
        let ghost t0 = self.tally(*counts);
        let base: u64 = self.unacked_packets.base_pn;
        let past: u64 = base.saturating_add(self.unacked_packets.deque.len() as u64);
        let lower: u64 = if start > base {
            start
        } else {
            base
        };
        let upper: u64 = if end < past {
            end
        } else {
            past
        };
        proof {
            assert forall|k: u64| #[trigger] t0.unacked.contains_key(k) implies base <= k
                <= past by {}
        }
        if lower > upper {
            proof {
                lemma_ack_span_idle(t0, start as int, end + 1, now);
            }
            return ;
        }
        let mut pn: u64 = lower;
        let mut done = false;
        while !done
            invariant
                self.wf(),
                old(self).only_acked(self),
                lower <= pn <= upper,
                done ==> pn == upper,
                self.tally(*counts) == ack_span(
                    t0,
                    lower as int,
                    pn + if done {
                        1int
                    } else {
                        0int
                    },
                    now,
                ),
            decreases
                upper - pn + if done {
                    0int
                } else {
                    1int
                },
        {
            self.take_acked(pn, now, counts);
            if pn == upper {
                done = true;
            } else {
                pn = pn + 1;
            }
        }
        proof {
            lemma_ack_span_trim(t0, start as int, lower as int, upper + 1, end + 1, now);
        }
    }

    fn take_all_sacked(&mut self, sack_ranges: &[(u64, u64)], now: u64, counts: &mut AckCounts)
        requires
            old(self).wf(),
        ensures
            final(self).wf(),
            old(self).only_acked(final(self)),
            final(self).tally(*final(counts)) == ack_ranges(
                old(self).tally(*old(counts)),
                sack_ranges@,
                now,
            ),
    {
        let ghost t0 = self.tally(*counts);
        let mut i: usize = 0;
        assert(sack_ranges@.take(0) =~= Seq::<(u64, u64)>::empty());
        while i < sack_ranges.len()
            invariant
                i <= sack_ranges@.len(),
                self.wf(),
                old(self).only_acked(self),
                self.tally(*counts) == ack_ranges(t0, sack_ranges@.take(i as int), now),
            decreases sack_ranges@.len() - i,
        {
            let (start, end) = sack_ranges[i];
            self.take_sacked(start, end, now, counts);
            assert(sack_ranges@.take(i + 1).drop_last() =~= sack_ranges@.take(i as int));
            i = i + 1;
        }
        assert(sack_ranges@.take(sack_ranges@.len() as int) =~= sack_ranges@);
    }

    fn take_cumulative(&mut self, limit: u64, now: u64, counts: &mut AckCounts)
        requires
            old(self).wf(),
        ensures
            final(self).wf(),
            *final(self) == (ZtConnection {
                unacked_packets: final(self).unacked_packets,
                ..*old(self)
            }),
            final(self).tally(*final(counts)) == retire_below(
                old(self).tally(*old(counts)),
                limit as int,
                now,
            ),
    {
        let ghost t0 = self.tally(*counts);
        let keys = self.unacked_packets.keys_below(limit);
        let mut i: usize = 0;
        proof {
            lemma_retire_idle(t0, 0, crate::ranges::next_key(keys@, 0, limit as int), now);
        }
        while i < keys.len()
            invariant
                i <= keys@.len(),
                self.wf(),
                *self == (ZtConnection { unacked_packets: self.unacked_packets, ..*old(self) }),
                crate::unacked_window::lists_keys_below(t0.unacked, limit as int, keys@),
                self.tally(*counts) == retire_below(t0, crate::ranges::next_key(keys@, i as int, limit as int), now),
            decreases keys@.len() - i,
        {
            let pn: u64 = keys[i];
            if let Some(up) = self.unacked_packets.remove(pn) {
                count_retired(&up, now, counts);
            }
            proof {
                assert(self.tally(*counts) == retire_below(t0, pn + 1, now));
                crate::ranges::lemma_no_key_between(t0.unacked, limit as int, keys@, i as int);
                lemma_retire_idle(t0, pn + 1, crate::ranges::next_key(keys@, i + 1, limit as int), now);
            }
            i = i + 1;
        }
    }

    /// The part of the connection that loss detection works on.
    pub open spec fn loss_tally(
        &self,
        resend: Seq<(UnackedPayload, u32)>,
        detected: bool,
    ) -> LossTally {
        LossTally {
            unacked: self.unacked_packets@,
            probes: self.mtu_probes@,
            search: self.search(),
            in_flight: self.bytes_in_flight,
            resend,
            detected,
            counters: (self.packets_lost, self.packets_retransmitted),
        }
    }

    fn take_lost(&mut self, largest: u64, now: u64, threshold: u64) -> (r: (
        Vec<(UnackedPayload, u32)>,
        bool,
    ))
        requires
            old(self).wf(),
        ensures
            final(self).wf(),
            *final(self) == (ZtConnection {
                unacked_packets: final(self).unacked_packets,
                mtu_probes: final(self).mtu_probes,
                bytes_in_flight: final(self).bytes_in_flight,
                packets_lost: final(self).packets_lost,
                packets_retransmitted: final(self).packets_retransmitted,
                ..old(self).with_search(final(self).search())
            }),
            final(self).mtu == old(self).mtu,
            final(self).loss_tally(r.0@, r.1) == lose_below(
                old(self).loss_tally(Seq::empty(), false),
                largest as int,
                largest,
                now,
                threshold,
            ),
    {
        let mut resend: Vec<(UnackedPayload, u32)> = Vec::new();
        let mut detected = false;
        let ghost t0 = self.loss_tally(Seq::empty(), false);
        let keys = self.unacked_packets.keys_below(largest);
        let mut i: usize = 0;
        proof {
            assert(resend@ =~= Seq::empty());
            lemma_lose_idle(t0, 0, crate::ranges::next_key(keys@, 0, largest as int), largest, now, threshold);
        }
        while i < keys.len()
            invariant
                i <= keys@.len(),
                self.wf(),
                *self == (ZtConnection {
                    unacked_packets: self.unacked_packets,
                    mtu_probes: self.mtu_probes,
                    bytes_in_flight: self.bytes_in_flight,
                    packets_lost: self.packets_lost,
                    packets_retransmitted: self.packets_retransmitted,
                    ..old(self).with_search(self.search())
                }),
                self.mtu == old(self).mtu,
                crate::unacked_window::lists_keys_below(t0.unacked, largest as int, keys@),
                self.loss_tally(resend@, detected) == lose_below(
                    t0,
                    crate::ranges::next_key(keys@, i as int, largest as int),
                    largest,
                    now,
                    threshold,
                ),
            decreases keys@.len() - i,
        {
            let pn: u64 = keys[i];
            let lost = match self.unacked_packets.get(pn) {
                Some(up) => largest - pn >= 3 || now.saturating_sub(up.sent_at) > threshold,
                None => false,
            };
            if lost {
                if let Some(up) = self.unacked_packets.remove(pn) {
                    self.bytes_in_flight = self.bytes_in_flight.saturating_sub(up.sent_bytes);
                    let UnackedPacket { payload, retries, is_mtu_probe, .. } = up;
                    if is_mtu_probe {
                        if self.mtu_probes.remove(&pn).is_some() {
                            self.record_mtu_probe_failure(payload.len());
                        }
                    } else {
                        detected = true;
                        self.packets_lost = self.packets_lost.saturating_add(1);
                        let datagram = match &payload {
                            UnackedPayload::Datagram { .. } => true,
                            _ => false,
                        };
                        if !datagram {
                            self.packets_retransmitted =
                            self.packets_retransmitted.saturating_add(1);
                            resend.push((payload, retries));
                        }
                    }
                }
            }
            proof {
                assert(self.loss_tally(resend@, detected) =~= lose_below(
                    t0,
                    pn + 1,
                    largest,
                    now,
                    threshold,
                ));
                crate::ranges::lemma_no_key_between(t0.unacked, largest as int, keys@, i as int);
                lemma_lose_idle(
                    t0,
                    pn + 1,
                    crate::ranges::next_key(keys@, i + 1, largest as int),
                    largest,
                    now,
                    threshold,
                );
            }
            i = i + 1;
        }
        (resend, detected)
    }

    fn update_rtt(&mut self, sample: u64, ack_delay_us: u64)
        ensures
            *final(self) == (ZtConnection {
                rtt: smoothed(
                    old(self).rtt_initialized,
                    old(self).rtt,
                    old(self).rttvar,
                    adjusted_sample(sample, ack_delay_us),
                ).0,
                rttvar: smoothed(
                    old(self).rtt_initialized,
                    old(self).rtt,
                    old(self).rttvar,
                    adjusted_sample(sample, ack_delay_us),
                ).1,
                rtt_initialized: true,
                ..*old(self)
            }),
    {
        let delay: u128 = ack_delay_us as u128 * 1000;
        let rtt: u64 = if sample as u128 > delay {
            sample - delay as u64
        } else {
            sample
        };
        if !self.rtt_initialized {
            self.rtt = rtt;
            self.rttvar = rtt / 2;
            self.rtt_initialized = true;
        } else {
            let error: u64 = if self.rtt > rtt {
                self.rtt - rtt
            } else {
                rtt - self.rtt
            };
            self.rttvar = ((self.rttvar as u128 * 3 + error as u128) / 4) as u64;
            self.rtt = ((self.rtt as u128 * 7 + rtt as u128) / 8) as u64;
        }
    }

    /// Processes an acknowledgement: takes the acknowledged packets out, gives
    /// up those that count as lost, and updates the round-trip time, the bytes
    /// in flight and the peer's window.
    ///
    /// `scaled_rtt` is the round-trip time times one and a quarter. What the
    /// congestion controller has to be told is in the result.
    pub fn handle_ack(
        &mut self,
        largest_acked_pn: u64,
        window_size: u64,
        ack_delay_us: u64,
        sack_ranges: &[(u64, u64)],
        now: u64,
        scaled_rtt: u64,
    ) -> (r: AckOutcome)
        requires
            old(self).wf(),
        ensures
            final(self).wf(),
            old(self).acked_by(
                largest_acked_pn,
                window_size,
                ack_delay_us,
                sack_ranges@,
                now,
                scaled_rtt,
                final(self),
                r,
            ),
            forall|pn: u64| #[trigger]
                old(self).unacked_packets@.contains_key(pn) && pn < largest_acked_pn && now
                    - old(self).unacked_packets@[pn].sent_at > scaled_rtt && now
                    - old(self).unacked_packets@[pn].sent_at > 15_000_000 && !in_ranges(
                    sack_ranges@,
                    pn,
                ) ==> !final(self).unacked_packets@.contains_key(pn) && (pn + 2047
                    >= largest_acked_pn && !old(self).unacked_packets@[pn].is_mtu_probe && !(old(
                    self,
                ).unacked_packets@[pn].payload is Datagram) ==> r.fast_retransmits@.contains(
                    (
                        old(self).unacked_packets@[pn].payload,
                        old(self).unacked_packets@[pn].retries,
                    ),
                )),
            final(self).remote_window == window_size,
    {
        let mut counts = AckCounts { bytes_acked: 0, flight_acked: 0, sample: None };
        self.take_all_sacked(sack_ranges, now, &mut counts);
        let oldest_tracked: u64 = largest_acked_pn.saturating_sub(2047);
        self.take_cumulative(oldest_tracked, now, &mut counts);
        let floor: u64 = 15 * MILLISECOND;
        let threshold: u64 = if scaled_rtt > floor {
            scaled_rtt
        } else {
            floor
        };
        let (fast_retransmits, loss_detected) = self.take_lost(largest_acked_pn, now, threshold);
        let loss: Option<u64> = if loss_detected {
            Some(self.rtt)
        } else {
            None
        };
        self.bytes_in_flight = self.bytes_in_flight.saturating_sub(counts.flight_acked);
        if let Some(sample) = counts.sample {
            self.update_rtt(sample, ack_delay_us);
        }
        let old_remote_window: u64 = self.remote_window;
        self.remote_window = window_size;
        let wake_streams = window_size > old_remote_window || counts.bytes_acked > 0;
        let r = AckOutcome { fast_retransmits, loss, bytes_acked: counts.bytes_acked, wake_streams };
        proof {
            let before = *old(self);
            let after = *self;
            assert forall|pn: u64| #[trigger]
                before.unacked_packets@.contains_key(pn) && pn < largest_acked_pn && now
                    - before.unacked_packets@[pn].sent_at > scaled_rtt && now
                    - before.unacked_packets@[pn].sent_at > 15_000_000 && !in_ranges(
                    sack_ranges@,
                    pn,
                ) implies !after.unacked_packets@.contains_key(pn) && (pn + 2047
                >= largest_acked_pn && !before.unacked_packets@[pn].is_mtu_probe && !(
            before.unacked_packets@[pn].payload is Datagram) ==> r.fast_retransmits@.contains(
                (before.unacked_packets@[pn].payload, before.unacked_packets@[pn].retries),
            )) by {
                law_a_packet_out_too_long_is_sent_again(
                    before,
                    largest_acked_pn,
                    window_size,
                    ack_delay_us,
                    sack_ranges@,
                    now,
                    scaled_rtt,
                    after,
                    r,
                    pn,
                );
            }
        }
        r
    }

    /// What an acknowledgement does: `after` and `r` come of `self`.
    pub open spec fn acked_by(
        &self,
        largest: u64,
        window_size: u64,
        ack_delay_us: u64,
        sack_ranges: Seq<(u64, u64)>,
        now: u64,
        scaled_rtt: u64,
        after: &ZtConnection,
        r: AckOutcome,
    ) -> bool {
        let sacked = ack_ranges(self.tally_start(), sack_ranges, now);
        let retired = retire_below(
            sacked,
            if largest < 2047 {
                0
            } else {
                largest - 2047
            },
            now,
        );
        let lost = lose_below(
            LossTally {
                unacked: retired.unacked,
                probes: retired.probes,
                search: retired.search,
                in_flight: self.bytes_in_flight,
                resend: Seq::empty(),
                detected: false,
                counters: (self.packets_lost, self.packets_retransmitted),
            },
            largest as int,
            largest,
            now,
            loss_threshold(scaled_rtt),
        );
        &&& *after == (ZtConnection {
            unacked_packets: after.unacked_packets,
            mtu_probes: after.mtu_probes,
            bytes_in_flight: crate::congestion::sat_sub(lost.in_flight, retired.flight_acked),
            packets_lost: lost.counters.0,
            packets_retransmitted: lost.counters.1,
            rtt: match retired.sample {
                Some(s) => smoothed(
                    self.rtt_initialized,
                    self.rtt,
                    self.rttvar,
                    adjusted_sample(s, ack_delay_us),
                ).0,
                None => self.rtt,
            },
            rttvar: match retired.sample {
                Some(s) => smoothed(
                    self.rtt_initialized,
                    self.rtt,
                    self.rttvar,
                    adjusted_sample(s, ack_delay_us),
                ).1,
                None => self.rttvar,
            },
            rtt_initialized: self.rtt_initialized || retired.sample is Some,
            remote_window: window_size,
            ..self.with_search(lost.search)
        })
        &&& after.unacked_packets@ == lost.unacked
        &&& after.mtu_probes@ == lost.probes
        &&& r.fast_retransmits@ == lost.resend
        &&& r.loss == if lost.detected {
            Some(self.rtt)
        } else {
            None
        }
        &&& r.bytes_acked == retired.bytes_acked
        &&& r.wake_streams == (window_size > self.remote_window || retired.bytes_acked > 0)
    }
}

proof fn lemma_retire_shrinks(t: AckTally, hi: int, now: u64)
    ensures
        forall|k: u64| #[trigger]
            retire_below(t, hi, now).unacked.contains_key(k) ==> t.unacked.contains_key(k),
    decreases hi,
{
    if hi > 0 {
        lemma_retire_shrinks(t, hi - 1, now);
    }
}

/// A stretch without packets changes nothing.
proof fn lemma_retire_idle(t: AckTally, lo: int, hi: int, now: u64)
    requires
        0 <= lo <= hi <= u64::MAX + 1,
        forall|k: u64| lo <= k < hi ==> !#[trigger] t.unacked.contains_key(k),
    ensures
        retire_below(t, hi, now) == retire_below(t, lo, now),
    decreases hi - lo,
{
    if hi > lo {
        lemma_retire_idle(t, lo, hi - 1, now);
        lemma_retire_shrinks(t, hi - 1, now);
        assert(!t.unacked.contains_key((hi - 1) as u64));
    }
}

proof fn lemma_lose_shrinks(t: LossTally, hi: int, largest: u64, now: u64, threshold: u64)
    ensures
        forall|k: u64| #[trigger]
            lose_below(t, hi, largest, now, threshold).unacked.contains_key(k)
                ==> t.unacked.contains_key(k),
    decreases hi,
{
    if hi > 0 {
        lemma_lose_shrinks(t, hi - 1, largest, now, threshold);
        assert forall|k: u64| #[trigger]
            lose_below(t, hi, largest, now, threshold).unacked.contains_key(
                k,
            ) implies t.unacked.contains_key(k) by {
            assert(lose_below(t, hi - 1, largest, now, threshold).unacked.contains_key(k));
        }
    }
}

/// A stretch without packets changes nothing.
proof fn lemma_lose_idle(t: LossTally, lo: int, hi: int, largest: u64, now: u64, threshold: u64)
    requires
        0 <= lo <= hi <= u64::MAX + 1,
        forall|k: u64| lo <= k < hi ==> !#[trigger] t.unacked.contains_key(k),
    ensures
        lose_below(t, hi, largest, now, threshold) == lose_below(t, lo, largest, now, threshold),
    decreases hi - lo,
{
    if hi > lo {
        lemma_lose_idle(t, lo, hi - 1, largest, now, threshold);
        lemma_lose_shrinks(t, hi - 1, largest, now, threshold);
        assert(!t.unacked.contains_key((hi - 1) as u64));
    }
}

fn count_retired(up: &UnackedPacket, now: u64, counts: &mut AckCounts)
    ensures
        final(counts).bytes_acked == if up.is_mtu_probe {
            old(counts).bytes_acked
        } else {
            crate::congestion::sat_add(old(counts).bytes_acked, up.payload.size() as usize)
        },
        final(counts).flight_acked == crate::congestion::sat_add(
            old(counts).flight_acked,
            up.sent_bytes,
        ),
        final(counts).sample == if old(counts).sample is None && up.retries == 0 {
            Some(crate::congestion::elapsed(now, up.sent_at))
        } else {
            old(counts).sample
        },
{
    if !up.is_mtu_probe {
        counts.bytes_acked = counts.bytes_acked.saturating_add(up.payload.len());
    }
    counts.flight_acked = counts.flight_acked.saturating_add(up.sent_bytes);
    if counts.sample.is_none() && up.retries == 0 {
        counts.sample = Some(now.saturating_sub(up.sent_at));
    }
}

/// A stretch without packets changes nothing.
proof fn lemma_ack_span_idle(t: AckTally, lo: int, hi: int, now: u64)
    requires
        0 <= lo,
        hi <= u64::MAX + 1,
        forall|k: u64| lo <= k < hi ==> !#[trigger] t.unacked.contains_key(k),
    ensures
        ack_span(t, lo, hi, now) == t,
    decreases hi - lo,
{
    if hi > lo {
        lemma_ack_span_idle(t, lo, hi - 1, now);
        assert(!t.unacked.contains_key((hi - 1) as u64));
    }
}

/// Acknowledging takes packets away and adds none.
proof fn lemma_ack_span_shrinks(t: AckTally, lo: int, hi: int, now: u64)
    ensures
        forall|k: u64| #[trigger]
            ack_span(t, lo, hi, now).unacked.contains_key(k) ==> t.unacked.contains_key(k),
    decreases hi - lo,
{
    if hi > lo {
        lemma_ack_span_shrinks(t, lo, hi - 1, now);
    }
}

/// One walk is two walks in a row.
proof fn lemma_ack_span_split(t: AckTally, lo: int, mid: int, hi: int, now: u64)
    requires
        lo <= mid <= hi,
    ensures
        ack_span(t, lo, hi, now) == ack_span(ack_span(t, lo, mid, now), mid, hi, now),
    decreases hi - mid,
{
    if hi > mid {
        lemma_ack_span_split(t, lo, mid, hi - 1, now);
    }
}

/// A walk may be cut down to the stretch where the packets are.
proof fn lemma_ack_span_trim(t: AckTally, lo: int, lo2: int, hi2: int, hi: int, now: u64)
    requires
        0 <= lo <= lo2 <= hi2 <= hi + 1,
        lo2 < hi2,
        hi2 <= hi,
        hi <= u64::MAX + 1,
        forall|k: u64| #[trigger] t.unacked.contains_key(k) ==> !(lo <= k < lo2) && !(hi2 <= k < hi),
    ensures
        ack_span(t, lo, hi, now) == ack_span(t, lo2, hi2, now),
{
    lemma_ack_span_split(t, lo, lo2, hi, now);
    lemma_ack_span_idle(t, lo, lo2, now);
    lemma_ack_span_split(t, lo2, hi2, hi, now);
    lemma_ack_span_shrinks(t, lo2, hi2, now);
    lemma_ack_span_idle(ack_span(t, lo2, hi2, now), hi2, hi, now);
}

/// The retransmission timeout: the round-trip time and four times its variation,
/// fifty milliseconds at least.
pub open spec fn retransmission_timeout(rtt: u64, rttvar: u64) -> int {
    if rtt + rttvar * 4 > 50 * MILLISECOND {
        rtt + rttvar * 4
    } else {
        50 * MILLISECOND
    }
}

/// The part of a connection that the retransmission timer works on.
#[verifier::ext_equal]
pub struct TimeoutTally {
    pub unacked: Map<u64, UnackedPacket>,
    pub probes: Map<u64, usize>,
    pub in_flight: usize,
    pub search: PathSearch,
    /// What has to be sent again, with the number of times it will have been.
    pub resend: Seq<(UnackedPayload, u32)>,
    /// Whether a payload was given up after its last retry. Probes and datagrams
    /// are never sent again, so they do not count.
    pub given_up: bool,
    /// How many packets were lost, probes aside, and how many payloads sent again.
    pub counters: (u64, u64),
}

/// The packet `pn` is given up if it has been out for too long. Its payload is
/// to be sent again, unless it is a probe or a datagram, or was sent again often
/// enough. From the fourth time on, packets go back to the base size.
pub open spec fn expire_one(t: TimeoutTally, pn: u64, now: u64, rto: int) -> TimeoutTally {
    if !t.unacked.contains_key(pn) || crate::congestion::elapsed(now, t.unacked[pn].sent_at)
        <= rto {
        t
    } else {
        let up = t.unacked[pn];
        let again = !up.is_mtu_probe && !(up.payload is Datagram) && up.retries <= 10;
        TimeoutTally {
            unacked: t.unacked.remove(pn),
            probes: if up.is_mtu_probe {
                t.probes.remove(pn)
            } else {
                t.probes
            },
            in_flight: crate::congestion::sat_sub(t.in_flight, up.sent_bytes),
            search: if up.is_mtu_probe && t.probes.contains_key(pn) {
                t.search.failed(up.payload.size() as usize)
            } else if again && up.retries >= 3 {
                t.search.fallen_back()
            } else {
                t.search
            },
            resend: if again {
                t.resend.push((up.payload, (up.retries + 1) as u32))
            } else {
                t.resend
            },
            given_up: t.given_up || (!up.is_mtu_probe && !(up.payload is Datagram) && up.retries
                > 10),
            counters: if up.is_mtu_probe {
                t.counters
            } else if !again {
                (crate::connection::counted_up(t.counters.0), t.counters.1)
            } else {
                (
                    crate::connection::counted_up(t.counters.0),
                    crate::connection::counted_up(t.counters.1),
                )
            },
        }
    }
}

/// The packets below `hi` that have been out for too long are given up, from the
/// lowest up.
pub open spec fn expire_below(t: TimeoutTally, hi: int, now: u64, rto: int) -> TimeoutTally
    decreases hi,
{
    if hi <= 0 {
        t
    } else {
        expire_one(expire_below(t, hi - 1, now, rto), (hi - 1) as u64, now, rto)
    }
}

/// When the retransmission timer of a packet runs out: the timeout doubles with
/// every retry, up to 64 times and ten seconds.
pub open spec fn packet_deadline(up: UnackedPacket, rto: int) -> int {
    let wait = rto * backoff(up.retries);
    up.sent_at + if wait > 10_000 * MILLISECOND {
        10_000 * MILLISECOND
    } else {
        wait
    }
}

/// How often the timeout is taken after so many retries.
pub open spec fn backoff(retries: u32) -> int {
    if retries == 0 {
        1
    } else if retries == 1 {
        2
    } else if retries == 2 {
        4
    } else if retries == 3 {
        8
    } else if retries == 4 {
        16
    } else if retries == 5 {
        32
    } else {
        64
    }
}

/// What the retransmission timer leads to.
pub struct RetransmitPlan {
    /// What has to be sent again, with the number of times it will have been.
    pub resend: Vec<(UnackedPayload, u32)>,
    /// The round-trip time to report a loss to the congestion controller with.
    pub loss: Option<u64>,
}

fn backoff_factor(retries: u32) -> (r: u128)
    ensures
        r == backoff(retries),
        1 <= r <= 64,
{
    match retries {
        0 => 1,
        1 => 2,
        2 => 4,
        3 => 8,
        4 => 16,
        5 => 32,
        _ => 64,
    }
}

impl ZtConnection {
    /// The retransmission timeout.
    pub fn rto(&self) -> (r: u128)
        ensures
            r == retransmission_timeout(self.rtt, self.rttvar),
            r <= 5 * u64::MAX,
    {
        let rto: u128 = self.rtt as u128 + self.rttvar as u128 * 4;
        let floor: u128 = 50 * MILLISECOND as u128;
        if rto > floor {
            rto
        } else {
            floor
        }
    }

    /// The part of the connection that the retransmission timer works on.
    pub open spec fn timeout_tally(
        &self,
        resend: Seq<(UnackedPayload, u32)>,
        given_up: bool,
    ) -> TimeoutTally {
        TimeoutTally {
            unacked: self.unacked_packets@,
            probes: self.mtu_probes@,
            in_flight: self.bytes_in_flight,
            search: self.search(),
            resend,
            given_up,
            counters: (self.packets_lost, self.packets_retransmitted),
        }
    }

    /// The connection's share of an expired retransmission timer.
    pub open spec fn expired(&self, now: u64) -> TimeoutTally {
        expire_below(
            self.timeout_tally(Seq::empty(), false),
            u64::MAX + 1,
            now,
            retransmission_timeout(self.rtt, self.rttvar),
        )
    }

    /// Gives up the packets that have been out for too long and says what to
    /// send again. Fails if a payload was given up after its last retry and nothing
    /// else is out or to be sent again. Probes and datagrams that are gone are no
    /// failure.
    pub fn handle_retransmits(&mut self, now: u64) -> (r: Result<RetransmitPlan, ZtError>)
        requires
            old(self).wf(),
        ensures
            final(self).wf(),
            *final(self) == (ZtConnection {
                unacked_packets: final(self).unacked_packets,
                mtu_probes: final(self).mtu_probes,
                bytes_in_flight: old(self).expired(now).in_flight,
                packets_lost: old(self).expired(now).counters.0,
                packets_retransmitted: old(self).expired(now).counters.1,
                ..old(self).with_search(old(self).expired(now).search)
            }),
            final(self).unacked_packets@ == old(self).expired(now).unacked,
            final(self).mtu_probes@ == old(self).expired(now).probes,
            r is Err <==> {
                &&& old(self).expired(now).given_up
                &&& old(self).expired(now).resend.len() == 0
                &&& old(self).expired(now).unacked == Map::<u64, UnackedPacket>::empty()
            },
            match r {
                Err(e) => e is Timeout,
                Ok(plan) => {
                    &&& plan.resend@ == old(self).expired(now).resend
                    &&& plan.loss == if plan.resend@.len() > 0 {
                        Some(old(self).rtt)
                    } else {
                        None
                    }
                },
            },
            final(self).unacked_packets@.dom().len() > 0 ==> r is Ok,
            forall|k: u64|
                old(self).unacked_packets@.contains_key(k) && now
                    - old(self).unacked_packets@[k].sent_at > old(self).rtt + 4 * old(self).rttvar
                    && now - old(self).unacked_packets@[k].sent_at > 50_000_000
                    ==> !#[trigger] final(self).unacked_packets@.contains_key(k),
            r matches Ok(plan) ==> forall|k: u64| #[trigger]
                old(self).unacked_packets@.contains_key(k) && now
                    - old(self).unacked_packets@[k].sent_at > old(self).rtt + 4 * old(self).rttvar
                    && now - old(self).unacked_packets@[k].sent_at > 50_000_000
                    && !old(self).unacked_packets@[k].is_mtu_probe && !(old(
                    self,
                ).unacked_packets@[k].payload is Datagram) && old(
                    self,
                ).unacked_packets@[k].retries <= 10 ==> plan.resend@.contains(
                    (
                        old(self).unacked_packets@[k].payload,
                        (old(self).unacked_packets@[k].retries + 1) as u32,
                    ),
                ),
    {
        let rto: u128 = self.rto();
        let mut resend: Vec<(UnackedPayload, u32)> = Vec::new();
        let ghost t0 = self.timeout_tally(Seq::empty(), false);
        let keys = self.unacked_packets.keys();
        let mut given_up = false;
        let mut i: usize = 0;
        proof {
            assert(resend@ =~= Seq::empty());
            lemma_expire_idle(t0, 0, crate::ranges::next_key(keys@, 0, u64::MAX + 1), now, rto as int);
        }
        while i < keys.len()
            invariant
                i <= keys@.len(),
                self.wf(),
                *self == (ZtConnection {
                    unacked_packets: self.unacked_packets,
                    mtu_probes: self.mtu_probes,
                    bytes_in_flight: self.bytes_in_flight,
                    packets_lost: self.packets_lost,
                    packets_retransmitted: self.packets_retransmitted,
                    ..old(self).with_search(self.search())
                }),
                self.base_mtu == old(self).base_mtu,
                self.mtu == old(self).mtu || self.mtu == self.base_mtu,
                crate::unacked_window::lists_keys_below(t0.unacked, u64::MAX + 1, keys@),
                self.timeout_tally(resend@, given_up) == expire_below(
                    t0,
                    crate::ranges::next_key(keys@, i as int, u64::MAX + 1),
                    now,
                    rto as int,
                ),
            decreases keys@.len() - i,
        {
            let pn: u64 = keys[i];
            let due = match self.unacked_packets.get(pn) {
                Some(up) => now.saturating_sub(up.sent_at) as u128 > rto,
                None => false,
            };
            if due {
                if let Some(up) = self.unacked_packets.remove(pn) {
                    self.bytes_in_flight = self.bytes_in_flight.saturating_sub(up.sent_bytes);
                    let UnackedPacket { payload, retries, is_mtu_probe, .. } = up;
                    let datagram = match &payload {
                        UnackedPayload::Datagram { .. } => true,
                        _ => false,
                    };
                    if is_mtu_probe {
                        if self.mtu_probes.remove(&pn).is_some() {
                            self.record_mtu_probe_failure(payload.len());
                        }
                    } else {
                        self.packets_lost = self.packets_lost.saturating_add(1);
                        if !datagram && retries > 10 {
                            given_up = true;
                        } else if !datagram {
                            let count: u32 = retries + 1;
                            if count > 3 {
                                self.recover_mtu_blackhole();
                            }
                            self.packets_retransmitted =
                            self.packets_retransmitted.saturating_add(1);
                            resend.push((payload, count));
                        }
                    }
                }
            }
            proof {
                assert(self.timeout_tally(resend@, given_up) =~= expire_below(t0, pn + 1, now, rto as int));
                crate::ranges::lemma_no_key_between(t0.unacked, u64::MAX + 1, keys@, i as int);
                lemma_expire_idle(t0, pn + 1, crate::ranges::next_key(keys@, i + 1, u64::MAX + 1), now, rto as int);
            }
            i = i + 1;
        }
        proof {
            law_expired_data_is_sent_again(t0, u64::MAX + 1, now, rto as int);
            assert(self.timeout_tally(resend@, given_up) == old(self).expired(now));
            assert forall|k: u64|
                old(self).unacked_packets@.contains_key(k) && now
                    - old(self).unacked_packets@[k].sent_at > old(self).rtt + 4 * old(self).rttvar
                    && now - old(self).unacked_packets@[k].sent_at
                    > 50_000_000 implies !#[trigger] self.unacked_packets@.contains_key(k) by {
                assert(t0.unacked.contains_key(k));
                assert(!expire_below(t0, u64::MAX + 1, now, rto as int).unacked.contains_key(k));
            }
            assert forall|k: u64| #[trigger]
                old(self).unacked_packets@.contains_key(k) && now
                    - old(self).unacked_packets@[k].sent_at > old(self).rtt + 4 * old(self).rttvar
                    && now - old(self).unacked_packets@[k].sent_at > 50_000_000
                    && !old(self).unacked_packets@[k].is_mtu_probe && !(old(
                    self,
                ).unacked_packets@[k].payload is Datagram) && old(
                    self,
                ).unacked_packets@[k].retries <= 10 implies resend@.contains(
                (
                    old(self).unacked_packets@[k].payload,
                    (old(self).unacked_packets@[k].retries + 1) as u32,
                ),
            ) by {
                assert(t0.unacked.contains_key(k));
            }
        }
        if given_up && resend.len() == 0 && self.unacked_packets.is_empty() {
            return Err(ZtError::Timeout);
        }
        let loss: Option<u64> = if resend.len() > 0 {
            Some(self.rtt)
        } else {
            None
        };
        Ok(RetransmitPlan { resend, loss })
    }

    /// When the retransmission timer runs out next, as far as the clock goes.
    pub fn get_next_rto_deadline(&self) -> (r: Option<u64>)
        requires
            self.wf(),
        ensures
            match r {
                None => self.unacked_packets@ == Map::<u64, UnackedPacket>::empty(),
                Some(d) => {
                    let rto = retransmission_timeout(self.rtt, self.rttvar);
                    &&& exists|k: u64| #[trigger]
                        self.unacked_packets@.contains_key(k) && d == on_clock(
                            packet_deadline(self.unacked_packets@[k], rto),
                        )
                    &&& forall|k: u64| #[trigger]
                        self.unacked_packets@.contains_key(k) ==> d <= on_clock(
                            packet_deadline(self.unacked_packets@[k], rto),
                        )
                },
            },
    {
        let rto: u128 = self.rto();
        let keys = self.unacked_packets.keys();
        let mut best: Option<u64> = None;
        let mut i: usize = 0;
        while i < keys.len()
            invariant
                i <= keys@.len(),
                self.wf(),
                rto == retransmission_timeout(self.rtt, self.rttvar),
                rto <= 5 * u64::MAX,
                crate::unacked_window::lists_keys_below(
                    self.unacked_packets@,
                    u64::MAX + 1,
                    keys@,
                ),
                i == 0 <==> best is None,
                best matches Some(d) ==> exists|j: int|
                    0 <= j < i && d == on_clock(
                        packet_deadline(self.unacked_packets@[#[trigger] keys@[j]], rto as int),
                    ),
                best matches Some(d) ==> forall|j: int|
                    0 <= j < i ==> d <= on_clock(
                        packet_deadline(self.unacked_packets@[#[trigger] keys@[j]], rto as int),
                    ),
            decreases keys@.len() - i,
        {
            let pn: u64 = keys[i];
            if let Some(up) = self.unacked_packets.get(pn) {
                let factor: u128 = backoff_factor(up.retries);
                assert(rto * factor <= 320 * u64::MAX) by (nonlinear_arith)
                    requires
                        0 <= rto <= 5 * u64::MAX,
                        0 <= factor <= 64,
                ;
                let wait: u128 = rto * factor;
                let cap: u128 = 10_000 * MILLISECOND as u128;
                let packet_rto: u64 = if wait > cap {
                    cap as u64
                } else {
                    wait as u64
                };
                let deadline: u64 = up.sent_at.saturating_add(packet_rto);
                assert(deadline == on_clock(
                    packet_deadline(self.unacked_packets@[keys@[i as int]], rto as int),
                ));
                let ghost before = best;
                best = match best {
                    Some(d) => if deadline < d {
                        Some(deadline)
                    } else {
                        Some(d)
                    },
                    None => Some(deadline),
                };
                proof {
                    if before is Some && best == before {
                        let j = choose|j: int|
                            0 <= j < i && before->0 == on_clock(
                                packet_deadline(
                                    self.unacked_packets@[#[trigger] keys@[j]],
                                    rto as int,
                                ),
                            );
                        assert(0 <= j < i + 1 && best->0 == on_clock(
                            packet_deadline(self.unacked_packets@[keys@[j]], rto as int),
                        ));
                    }
                }
            }
            i = i + 1;
        }
        proof {
            if keys@.len() == 0 {
                assert(self.unacked_packets@ =~= Map::<u64, UnackedPacket>::empty()) by {
                    assert forall|k: u64| !self.unacked_packets@.contains_key(k) by {
                        if self.unacked_packets@.contains_key(k) {
                            assert(keys@.contains(k));
                        }
                    }
                }
            } else {
                let j = choose|j: int|
                    0 <= j < keys@.len() && best->0 == on_clock(
                        packet_deadline(self.unacked_packets@[#[trigger] keys@[j]], rto as int),
                    );
                assert(self.unacked_packets@.contains_key(keys@[j]));
                assert forall|k: u64| #[trigger]
                    self.unacked_packets@.contains_key(k) implies best->0 <= on_clock(
                    packet_deadline(self.unacked_packets@[k], rto as int),
                ) by {
                    assert(keys@.contains(k));
                    let m = choose|m: int| 0 <= m < keys@.len() && keys@[m] == k;
                    assert(keys@[m] == k);
                }
            }
        }
        best
    }
}

impl ZtConnection {
    /// Tells the congestion controller of a loss, if there was one. `scaled_cwnd`
    /// is the multiplicative decrease of the present window. Returns whether the
    /// window was reduced.
    pub fn report_loss(&mut self, loss: Option<u64>, now: u64, scaled_cwnd: usize) -> (reduced: bool)
        requires
            old(self).wf(),
        ensures
            final(self).wf(),
            *final(self) == (ZtConnection {
                cc: match loss {
                    Some(rtt) => old(self).cc.after_loss(rtt, now, scaled_cwnd),
                    None => old(self).cc,
                },
                ..*old(self)
            }),
            reduced == (loss is Some && crate::congestion::loss_counts(
                old(self).cc.last_loss(),
                now,
                loss->0,
            )),
    {
        match loss {
            Some(rtt) => self.cc.on_congestion_event(rtt, now, scaled_cwnd),
            None => false,
        }
    }

    /// Tells the congestion controller how much was acknowledged. `curve_target`
    /// is where its growth curve stands.
    pub fn report_acked(&mut self, bytes_acked: usize, now: u64, curve_target: usize)
        requires
            old(self).wf(),
            bytes_acked > 0 ==> old(self).cc.wf(),
        ensures
            final(self).wf(),
            old(self).cc.wf() ==> final(self).cc.wf(),
            *final(self) == (ZtConnection {
                cc: if bytes_acked > 0 {
                    old(self).cc.acked(bytes_acked, old(self).rtt, now, curve_target)
                } else {
                    old(self).cc
                },
                ..*old(self)
            }),
    {
        if bytes_acked > 0 {
            let rtt: u64 = self.rtt;
            self.cc.on_packet_acked(bytes_acked, rtt, now, curve_target);
        }
    }
}

/// A time as the clock shows it; it stops at its largest value.
pub open spec fn on_clock(t: int) -> int {
    if t > u64::MAX {
        u64::MAX as int
    } else {
        t
    }
}

proof fn lemma_expire_shrinks(t: TimeoutTally, hi: int, now: u64, rto: int)
    ensures
        forall|k: u64| #[trigger]
            expire_below(t, hi, now, rto).unacked.contains_key(k) ==> t.unacked.contains_key(k),
    decreases hi,
{
    if hi > 0 {
        lemma_expire_shrinks(t, hi - 1, now, rto);
        assert forall|k: u64| #[trigger]
            expire_below(t, hi, now, rto).unacked.contains_key(k) implies t.unacked.contains_key(
            k,
        ) by {
            assert(expire_below(t, hi - 1, now, rto).unacked.contains_key(k));
        }
    }
}

/// A stretch without packets changes nothing.
proof fn lemma_expire_idle(t: TimeoutTally, lo: int, hi: int, now: u64, rto: int)
    requires
        0 <= lo <= hi <= u64::MAX + 1,
        forall|k: u64| lo <= k < hi ==> !#[trigger] t.unacked.contains_key(k),
    ensures
        expire_below(t, hi, now, rto) == expire_below(t, lo, now, rto),
    decreases hi - lo,
{
    if hi > lo {
        lemma_expire_idle(t, lo, hi - 1, now, rto);
        lemma_expire_shrinks(t, hi - 1, now, rto);
        assert(!t.unacked.contains_key((hi - 1) as u64));
    }
}

/// Whether one of the inclusive ranges holds `pn`.
pub open spec fn in_ranges(ranges: Seq<(u64, u64)>, pn: u64) -> bool {
    exists|i: int| 0 <= i < ranges.len() && (#[trigger] ranges[i]).0 <= pn <= ranges[i].1
}

proof fn lemma_ack_span_covers(t: AckTally, lo: int, hi: int, now: u64)
    requires
        0 <= lo,
        hi <= u64::MAX + 1,
    ensures
        forall|k: u64|
            #![trigger ack_span(t, lo, hi, now).unacked.contains_key(k)]
            ack_span(t, lo, hi, now).unacked.contains_key(k) <==> t.unacked.contains_key(k) && !(lo
                <= k < hi),
        forall|k: u64| #[trigger]
            ack_span(t, lo, hi, now).unacked.contains_key(k) ==> ack_span(
                t,
                lo,
                hi,
                now,
            ).unacked[k] == t.unacked[k],
    decreases hi - lo,
{
    if hi > lo {
        lemma_ack_span_covers(t, lo, hi - 1, now);
        let before = ack_span(t, lo, hi - 1, now);
        assert forall|k: u64|
            #![trigger ack_span(t, lo, hi, now).unacked.contains_key(k)]
            ack_span(t, lo, hi, now).unacked.contains_key(k) <==> t.unacked.contains_key(k) && !(lo
                <= k < hi) by {
            assert(before.unacked.contains_key(k) <==> t.unacked.contains_key(k) && !(lo <= k < hi
                - 1));
        }
    }
}

/// A selective acknowledgement takes exactly the packets in its ranges off the
/// list, and leaves the others as they were.
pub proof fn law_acknowledged_packets_leave(t: AckTally, ranges: Seq<(u64, u64)>, now: u64)
    ensures
        forall|k: u64|
            #![trigger ack_ranges(t, ranges, now).unacked.contains_key(k)]
            ack_ranges(t, ranges, now).unacked.contains_key(k) <==> t.unacked.contains_key(k)
                && !in_ranges(ranges, k),
        forall|k: u64| #[trigger]
            ack_ranges(t, ranges, now).unacked.contains_key(k) ==> ack_ranges(
                t,
                ranges,
                now,
            ).unacked[k] == t.unacked[k],
    decreases ranges.len(),
{
    if ranges.len() > 0 {
        let fewer = ranges.drop_last();
        let last = ranges.last();
        let before = ack_ranges(t, fewer, now);
        law_acknowledged_packets_leave(t, fewer, now);
        lemma_ack_span_covers(before, last.0 as int, last.1 + 1, now);
        assert forall|k: u64| in_ranges(ranges, k) <==> in_ranges(fewer, k) || last.0 <= k
            <= last.1 by {
            if in_ranges(ranges, k) {
                let i = choose|i: int|
                    0 <= i < ranges.len() && (#[trigger] ranges[i]).0 <= k <= ranges[i].1;
                if i < fewer.len() {
                    assert(fewer[i] == ranges[i]);
                }
            }
            if in_ranges(fewer, k) {
                let i = choose|i: int|
                    0 <= i < fewer.len() && (#[trigger] fewer[i]).0 <= k <= fewer[i].1;
                assert(ranges[i] == fewer[i]);
            }
            if last.0 <= k <= last.1 {
                assert(ranges[ranges.len() - 1] == last);
            }
        }
        assert forall|k: u64|
            #![trigger ack_ranges(t, ranges, now).unacked.contains_key(k)]
            ack_ranges(t, ranges, now).unacked.contains_key(k) <==> t.unacked.contains_key(k)
                && !in_ranges(ranges, k) by {
            assert(before.unacked.contains_key(k) <==> t.unacked.contains_key(k) && !in_ranges(
                fewer,
                k,
            ));
        }
        assert forall|k: u64| #[trigger]
            ack_ranges(t, ranges, now).unacked.contains_key(k) implies ack_ranges(
            t,
            ranges,
            now,
        ).unacked[k] == t.unacked[k] by {
            assert(before.unacked.contains_key(k));
        }
    }
}

/// Loss detection loses no data: a packet that counts as lost leaves the list,
/// and its payload is among what is sent again unless it is a probe or a
/// datagram; every other packet stays as it was. Datagrams and probes are never
/// sent again.
pub proof fn law_lost_data_is_sent_again(
    t: LossTally,
    hi: int,
    largest: u64,
    now: u64,
    threshold: u64,
)
    requires
        hi <= u64::MAX + 1,
    ensures
        forall|k: u64| #[trigger]
            t.unacked.contains_key(k) && k < hi && is_lost(
                t.unacked[k],
                k,
                largest,
                now,
                threshold,
            ) && !t.unacked[k].is_mtu_probe && !(t.unacked[k].payload is Datagram) ==> lose_below(
                t,
                hi,
                largest,
                now,
                threshold,
            ).resend.contains((t.unacked[k].payload, t.unacked[k].retries)),
        forall|k: u64|
            #![trigger lose_below(t, hi, largest, now, threshold).unacked.contains_key(k)]
            lose_below(t, hi, largest, now, threshold).unacked.contains_key(k)
                <==> t.unacked.contains_key(k) && !(k < hi && is_lost(
                t.unacked[k],
                k,
                largest,
                now,
                threshold,
            )),
        forall|k: u64| #[trigger]
            lose_below(t, hi, largest, now, threshold).unacked.contains_key(k) ==> lose_below(
                t,
                hi,
                largest,
                now,
                threshold,
            ).unacked[k] == t.unacked[k],
        (forall|i: int| 0 <= i < t.resend.len() ==> !((#[trigger] t.resend[i]).0 is Datagram))
            ==> forall|i: int|
            0 <= i < lose_below(t, hi, largest, now, threshold).resend.len() ==> !((
            #[trigger] lose_below(t, hi, largest, now, threshold).resend[i]).0 is Datagram),
        forall|x: (UnackedPayload, u32)| #[trigger]
            t.resend.contains(x) ==> lose_below(
                t,
                hi,
                largest,
                now,
                threshold,
            ).resend.contains(x),
    decreases hi,
{
    if hi > 0 {
        law_lost_data_is_sent_again(t, hi - 1, largest, now, threshold);
        let before = lose_below(t, hi - 1, largest, now, threshold);
        let after = lose_below(t, hi, largest, now, threshold);
        let pn = (hi - 1) as u64;
        assert(before.unacked.contains_key(pn) <==> t.unacked.contains_key(pn));
        assert forall|x: (UnackedPayload, u32)| #[trigger]
            before.resend.contains(x) implies after.resend.contains(x) by {
            let i = choose|i: int| 0 <= i < before.resend.len() && before.resend[i] == x;
            assert(after.resend[i] == x);
        }
        assert forall|k: u64|
            #![trigger after.unacked.contains_key(k)]
            after.unacked.contains_key(k) <==> t.unacked.contains_key(k) && !(k < hi && is_lost(
                t.unacked[k],
                k,
                largest,
                now,
                threshold,
            )) by {
            assert(before.unacked.contains_key(k) <==> t.unacked.contains_key(k) && !(k < hi - 1
                && is_lost(t.unacked[k], k, largest, now, threshold)));
        }
        assert forall|k: u64| #[trigger] after.unacked.contains_key(k) implies after.unacked[k]
            == t.unacked[k] by {
            assert(before.unacked.contains_key(k));
        }
        assert forall|k: u64| #[trigger]
            t.unacked.contains_key(k) && k < hi && is_lost(
                t.unacked[k],
                k,
                largest,
                now,
                threshold,
            ) && !t.unacked[k].is_mtu_probe && !(
            t.unacked[k].payload is Datagram) implies after.resend.contains(
            (t.unacked[k].payload, t.unacked[k].retries),
        ) by {
            if k == pn {
                assert(before.unacked.contains_key(k));
                assert(after.resend[before.resend.len() as int] == (
                    t.unacked[k].payload,
                    t.unacked[k].retries,
                ));
            } else {
                assert(before.resend.contains((t.unacked[k].payload, t.unacked[k].retries)));
            }
        }
    }
}

/// The retransmission timer loses no data either, until a payload was sent again
/// eleven times: what leaves the list is sent again, counted once more, unless
/// it is a probe or a datagram.
pub proof fn law_expired_data_is_sent_again(t: TimeoutTally, hi: int, now: u64, rto: int)
    requires
        hi <= u64::MAX + 1,
    ensures
        forall|k: u64| #[trigger]
            t.unacked.contains_key(k) && k < hi && crate::congestion::elapsed(
                now,
                t.unacked[k].sent_at,
            ) > rto && !t.unacked[k].is_mtu_probe && !(t.unacked[k].payload is Datagram)
                && t.unacked[k].retries <= 10 ==> expire_below(t, hi, now, rto).resend.contains(
                (t.unacked[k].payload, (t.unacked[k].retries + 1) as u32),
            ),
        forall|k: u64|
            #![trigger expire_below(t, hi, now, rto).unacked.contains_key(k)]
            expire_below(t, hi, now, rto).unacked.contains_key(k) <==> t.unacked.contains_key(k)
                && !(k < hi && crate::congestion::elapsed(now, t.unacked[k].sent_at) > rto),
        forall|k: u64| #[trigger]
            expire_below(t, hi, now, rto).unacked.contains_key(k) ==> expire_below(
                t,
                hi,
                now,
                rto,
            ).unacked[k] == t.unacked[k],
        forall|x: (UnackedPayload, u32)| #[trigger]
            t.resend.contains(x) ==> expire_below(t, hi, now, rto).resend.contains(x),
    decreases hi,
{
    if hi > 0 {
        law_expired_data_is_sent_again(t, hi - 1, now, rto);
        let before = expire_below(t, hi - 1, now, rto);
        let after = expire_below(t, hi, now, rto);
        let pn = (hi - 1) as u64;
        assert(before.unacked.contains_key(pn) <==> t.unacked.contains_key(pn));
        assert forall|x: (UnackedPayload, u32)| #[trigger]
            before.resend.contains(x) implies after.resend.contains(x) by {
            let i = choose|i: int| 0 <= i < before.resend.len() && before.resend[i] == x;
            assert(after.resend[i] == x);
        }
        assert forall|k: u64|
            #![trigger after.unacked.contains_key(k)]
            after.unacked.contains_key(k) <==> t.unacked.contains_key(k) && !(k < hi
                && crate::congestion::elapsed(now, t.unacked[k].sent_at) > rto) by {
            assert(before.unacked.contains_key(k) <==> t.unacked.contains_key(k) && !(k < hi - 1
                && crate::congestion::elapsed(now, t.unacked[k].sent_at) > rto));
        }
        assert forall|k: u64| #[trigger] after.unacked.contains_key(k) implies after.unacked[k]
            == t.unacked[k] by {
            assert(before.unacked.contains_key(k));
        }
        assert forall|k: u64| #[trigger]
            t.unacked.contains_key(k) && k < hi && crate::congestion::elapsed(
                now,
                t.unacked[k].sent_at,
            ) > rto && !t.unacked[k].is_mtu_probe && !(t.unacked[k].payload is Datagram)
                && t.unacked[k].retries <= 10 implies after.resend.contains(
            (t.unacked[k].payload, (t.unacked[k].retries + 1) as u32),
        ) by {
            let x = (t.unacked[k].payload, (t.unacked[k].retries + 1) as u32);
            if k == pn {
                assert(before.unacked.contains_key(k));
                assert(after.resend[before.resend.len() as int] == x);
            } else {
                assert(before.resend.contains(x));
            }
        }
    }
}

/// A quiet connection outlives its probes and datagrams: while nothing else is
/// out, the retransmission timer gives up nothing that could end the connection.
pub proof fn law_lost_probes_and_datagrams_end_nothing(conn: ZtConnection, now: u64)
    requires
        forall|k: u64| #[trigger]
            conn.unacked_packets@.contains_key(k) ==> conn.unacked_packets@[k].is_mtu_probe
                || conn.unacked_packets@[k].payload is Datagram,
    ensures
        !conn.expired(now).given_up,
{
    lemma_nothing_given_up(
        conn.timeout_tally(Seq::empty(), false),
        u64::MAX + 1,
        now,
        retransmission_timeout(conn.rtt, conn.rttvar),
    );
}

proof fn lemma_nothing_given_up(t: TimeoutTally, hi: int, now: u64, rto: int)
    requires
        hi <= u64::MAX + 1,
        !t.given_up,
        forall|k: u64| #[trigger]
            t.unacked.contains_key(k) ==> t.unacked[k].is_mtu_probe
                || t.unacked[k].payload is Datagram,
    ensures
        !expire_below(t, hi, now, rto).given_up,
    decreases hi,
{
    if hi > 0 {
        lemma_nothing_given_up(t, hi - 1, now, rto);
        law_expired_data_is_sent_again(t, hi - 1, now, rto);
    }
}

/// The bytes that a packet took on the wire.
pub open spec fn wire_bytes() -> spec_fn(UnackedPacket) -> nat {
    |p: UnackedPacket| p.sent_bytes as nat
}

/// The bytes of payload in a packet, probes aside.
pub open spec fn payload_bytes() -> spec_fn(UnackedPacket) -> nat {
    |p: UnackedPacket|
        if p.is_mtu_probe {
            0
        } else {
            (p.payload.size() as usize) as nat
        }
}

/// One for a packet that counts as lost when it is, which a probe does not.
pub open spec fn one_lost() -> spec_fn(UnackedPacket) -> nat {
    |p: UnackedPacket|
        if p.is_mtu_probe {
            0
        } else {
            1
        }
}

/// One for a packet whose payload is sent again when it is lost.
pub open spec fn one_resent() -> spec_fn(UnackedPacket) -> nat {
    |p: UnackedPacket|
        if p.is_mtu_probe || p.payload is Datagram {
            0
        } else {
            1
        }
}

/// One for a packet whose payload is sent again when its timer runs out.
pub open spec fn one_retried() -> spec_fn(UnackedPacket) -> nat {
    |p: UnackedPacket|
        if p.is_mtu_probe || p.payload is Datagram || p.retries > 10 {
            0
        } else {
            1
        }
}

/// `n`, or the largest count if that is less.
spec fn counted_to(n: int) -> int {
    if n > u64::MAX {
        u64::MAX as int
    } else {
        n
    }
}

/// `n`, or the largest size if that is less.
spec fn at_most(n: int) -> int {
    if n > usize::MAX {
        usize::MAX as int
    } else {
        n
    }
}

/// How taking packets off the list moves a tally on.
spec fn moved_on(t: AckTally, u: AckTally, now: u64) -> bool {
    &&& u.unacked.dom().finite()
    &&& forall|k: u64| #[trigger]
        u.unacked.contains_key(k) ==> t.unacked.contains_key(k) && u.unacked[k] == t.unacked[k]
    &&& crate::totals::packet_total(u.unacked, wire_bytes()) <= crate::totals::packet_total(t.unacked, wire_bytes())
    &&& crate::totals::packet_total(u.unacked, payload_bytes()) <= crate::totals::packet_total(t.unacked, payload_bytes())
    &&& u.flight_acked == at_most(
        t.flight_acked + crate::totals::packet_total(t.unacked, wire_bytes()) - crate::totals::packet_total(
            u.unacked,
            wire_bytes(),
        ),
    )
    &&& u.bytes_acked == at_most(
        t.bytes_acked + crate::totals::packet_total(t.unacked, payload_bytes()) - crate::totals::packet_total(
            u.unacked,
            payload_bytes(),
        ),
    )
    &&& t.sample is Some ==> u.sample == t.sample
    &&& t.sample is None && u.sample is None ==> forall|k: u64| #[trigger]
        t.unacked.contains_key(k) && !u.unacked.contains_key(k) ==> t.unacked[k].retries != 0
    &&& t.sample is None && u.sample is Some ==> exists|k: u64| #[trigger]
        t.unacked.contains_key(k) && !u.unacked.contains_key(k) && t.unacked[k].retries == 0
            && u.sample == Some(crate::congestion::elapsed(now, t.unacked[k].sent_at))
    &&& u.search.mtu >= t.search.mtu && u.search.mtu_min >= t.search.mtu_min
    &&& u.search.mtu_max == t.search.mtu_max && u.search.base_mtu == t.search.base_mtu
    &&& (forall|k: u64| #[trigger]
        t.unacked.contains_key(k) ==> !t.unacked[k].is_mtu_probe) ==> u.search == t.search
        && u.probes == t.probes
    &&& forall|k: u64| #[trigger] u.probes.contains_key(k) ==> t.probes.contains_key(k)
}

proof fn lemma_moved_on_step(t: AckTally, pn: u64, now: u64)
    requires
        t.unacked.dom().finite(),
    ensures
        moved_on(t, ack_one(t, pn, now), now),
        moved_on(t, retire_one(t, pn, now), now),
{
    crate::totals::law_packet_totals_are_sums(t.unacked, wire_bytes(), pn);
    crate::totals::law_packet_totals_are_sums(t.unacked, payload_bytes(), pn);
    if t.unacked.contains_key(pn) {
        assert(wire_bytes()(t.unacked[pn]) == t.unacked[pn].sent_bytes);
        let a = ack_one(t, pn, now);
        assert(!a.unacked.contains_key(pn));
        assert(!retire_one(t, pn, now).unacked.contains_key(pn));
    }
}

proof fn lemma_moved_on_again(t: AckTally, u: AckTally, v: AckTally, now: u64)
    requires
        moved_on(t, u, now),
        moved_on(u, v, now),
    ensures
        moved_on(t, v, now),
{
    if t.sample is None && v.sample is Some {
        if u.sample is Some {
            let k = choose|k: u64| #[trigger]
                t.unacked.contains_key(k) && !u.unacked.contains_key(k) && t.unacked[k].retries == 0
                    && u.sample == Some(crate::congestion::elapsed(now, t.unacked[k].sent_at));
            assert(t.unacked.contains_key(k) && !v.unacked.contains_key(k));
        } else {
            let k = choose|k: u64| #[trigger]
                u.unacked.contains_key(k) && !v.unacked.contains_key(k) && u.unacked[k].retries == 0
                    && v.sample == Some(crate::congestion::elapsed(now, u.unacked[k].sent_at));
            assert(t.unacked.contains_key(k) && !v.unacked.contains_key(k));
        }
    }
    if t.sample is None && v.sample is None {
        assert forall|k: u64| #[trigger]
            t.unacked.contains_key(k) && !v.unacked.contains_key(k) implies t.unacked[k].retries
            != 0 by {
            assert(u.unacked.contains_key(k) || !u.unacked.contains_key(k));
        }
    }
    if forall|k: u64| #[trigger] t.unacked.contains_key(k) ==> !t.unacked[k].is_mtu_probe {
        assert forall|k: u64| #[trigger]
            u.unacked.contains_key(k) implies !u.unacked[k].is_mtu_probe by {
            assert(t.unacked.contains_key(k));
        }
    }
}

proof fn lemma_moved_on_span(t: AckTally, lo: int, hi: int, now: u64)
    requires
        t.unacked.dom().finite(),
    ensures
        moved_on(t, ack_span(t, lo, hi, now), now),
    decreases hi - lo,
{
    if hi > lo {
        lemma_moved_on_span(t, lo, hi - 1, now);
        let u = ack_span(t, lo, hi - 1, now);
        lemma_moved_on_step(u, (hi - 1) as u64, now);
        lemma_moved_on_again(t, u, ack_span(t, lo, hi, now), now);
    } else {
        lemma_moved_on_not(t, now);
    }
}

proof fn lemma_moved_on_not(t: AckTally, now: u64)
    requires
        t.unacked.dom().finite(),
    ensures
        moved_on(t, t, now),
{
}

proof fn lemma_moved_on_ranges(t: AckTally, ranges: Seq<(u64, u64)>, now: u64)
    requires
        t.unacked.dom().finite(),
    ensures
        moved_on(t, ack_ranges(t, ranges, now), now),
    decreases ranges.len(),
{
    if ranges.len() > 0 {
        lemma_moved_on_ranges(t, ranges.drop_last(), now);
        let u = ack_ranges(t, ranges.drop_last(), now);
        lemma_moved_on_span(u, ranges.last().0 as int, ranges.last().1 + 1, now);
        lemma_moved_on_again(t, u, ack_ranges(t, ranges, now), now);
    } else {
        lemma_moved_on_not(t, now);
    }
}

proof fn lemma_moved_on_below(t: AckTally, hi: int, now: u64)
    requires
        t.unacked.dom().finite(),
        hi <= u64::MAX + 1,
    ensures
        moved_on(t, retire_below(t, hi, now), now),
        retire_below(t, hi, now).search == t.search,
        retire_below(t, hi, now).probes == t.probes,
        forall|k: u64|
            #![trigger retire_below(t, hi, now).unacked.contains_key(k)]
            retire_below(t, hi, now).unacked.contains_key(k) <==> t.unacked.contains_key(k) && k
                >= hi,
    decreases hi,
{
    if hi > 0 {
        lemma_moved_on_below(t, hi - 1, now);
        let u = retire_below(t, hi - 1, now);
        lemma_moved_on_step(u, (hi - 1) as u64, now);
        lemma_moved_on_again(t, u, retire_below(t, hi, now), now);
        assert forall|k: u64|
            #![trigger retire_below(t, hi, now).unacked.contains_key(k)]
            retire_below(t, hi, now).unacked.contains_key(k) <==> t.unacked.contains_key(k) && k
                >= hi by {
            assert(u.unacked.contains_key(k) <==> t.unacked.contains_key(k) && k >= hi - 1);
        }
    } else {
        lemma_moved_on_not(t, now);
    }
}

/// How giving packets up moves a loss tally on.
spec fn lost_on(t: LossTally, u: LossTally) -> bool {
    &&& u.unacked.dom().finite()
    &&& forall|k: u64| #[trigger]
        u.unacked.contains_key(k) ==> t.unacked.contains_key(k) && u.unacked[k] == t.unacked[k]
    &&& crate::totals::packet_total(u.unacked, wire_bytes()) <= crate::totals::packet_total(t.unacked, wire_bytes())
    &&& u.in_flight == at_least(
        t.in_flight - (crate::totals::packet_total(t.unacked, wire_bytes()) - crate::totals::packet_total(
            u.unacked,
            wire_bytes(),
        )),
    )
    &&& u.resend.len() >= t.resend.len()
    &&& forall|i: int| 0 <= i < t.resend.len() ==> #[trigger] u.resend[i] == t.resend[i]
    &&& forall|i: int|
        t.resend.len() <= i < u.resend.len() ==> was_carried(
            t.unacked,
            u.unacked,
            #[trigger] u.resend[i],
        )
    &&& t.detected ==> u.detected
    &&& !t.detected ==> (u.detected <==> exists|k: u64| #[trigger]
        t.unacked.contains_key(k) && !u.unacked.contains_key(k) && !t.unacked[k].is_mtu_probe)
    &&& t.counters.1 + (u.resend.len() - t.resend.len()) <= u64::MAX ==> u.counters.1
        == t.counters.1 + (u.resend.len() - t.resend.len())
    &&& crate::totals::packet_total(u.unacked, one_lost()) <= crate::totals::packet_total(
        t.unacked,
        one_lost(),
    )
    &&& u.counters.0 == counted_to(
        t.counters.0 + crate::totals::packet_total(t.unacked, one_lost())
            - crate::totals::packet_total(u.unacked, one_lost()),
    )
    &&& u.resend.len() - t.resend.len() == crate::totals::packet_total(t.unacked, one_resent())
        - crate::totals::packet_total(u.unacked, one_resent())
    &&& (forall|k: u64| #[trigger]
        t.unacked.contains_key(k) && !u.unacked.contains_key(k) ==> t.unacked[k].is_mtu_probe)
        ==> u.counters == t.counters
    &&& u.search.mtu == t.search.mtu && u.search.mtu_min == t.search.mtu_min
    &&& u.search.mtu_max <= t.search.mtu_max && u.search.base_mtu == t.search.base_mtu
    &&& u.search.mtu_max == t.search.mtu_max || bounded_by_probe(
        t.unacked,
        u.unacked,
        u.search.mtu_max,
    )
    &&& (forall|k: u64| #[trigger]
        t.unacked.contains_key(k) && !u.unacked.contains_key(k) ==> !t.unacked[k].is_mtu_probe)
        ==> u.search == t.search && u.probes == t.probes
    &&& forall|k: u64| #[trigger] u.probes.contains_key(k) ==> t.probes.contains_key(k)
    &&& forall|k: u64| #[trigger]
        t.probes.contains_key(k) && u.unacked.contains_key(k) ==> u.probes.contains_key(k)
    &&& forall|k: u64| #[trigger]
        t.unacked.contains_key(k) && !u.unacked.contains_key(k) && t.unacked[k].is_mtu_probe
            ==> !u.probes.contains_key(k) && (t.probes.contains_key(k) && (
        t.unacked[k].payload.size() as usize) > 0 ==> u.search.mtu_max < t.unacked[k].payload.size() as usize)
}

/// Whether `bound` is just below the size of a probe that left.
spec fn bounded_by_probe(
    before: Map<u64, UnackedPacket>,
    after: Map<u64, UnackedPacket>,
    bound: usize,
) -> bool {
    exists|k: u64| #[trigger]
        before.contains_key(k) && !after.contains_key(k) && before[k].is_mtu_probe && (bound + 1
            == before[k].payload.size() as usize || (bound == 0 && before[k].payload.size() as usize
            == 0))
}

/// Whether `size` is that of a probe that left.
spec fn sized_by_probe(
    before: Map<u64, UnackedPacket>,
    after: Map<u64, UnackedPacket>,
    size: usize,
) -> bool {
    exists|k: u64| #[trigger]
        before.contains_key(k) && !after.contains_key(k) && before[k].is_mtu_probe && size
            == before[k].payload.size() as usize
}

/// Whether a packet that carried `x` left, and is neither a probe nor a datagram.
spec fn was_carried(
    before: Map<u64, UnackedPacket>,
    after: Map<u64, UnackedPacket>,
    x: (UnackedPayload, u32),
) -> bool {
    exists|k: u64| #[trigger]
        before.contains_key(k) && !after.contains_key(k) && !before[k].is_mtu_probe && !(
        before[k].payload is Datagram) && x == (before[k].payload, before[k].retries)
}

/// `n`, or zero if that is negative.
spec fn at_least(n: int) -> int {
    if n < 0 {
        0
    } else {
        n
    }
}

proof fn lemma_lost_on_step(t: LossTally, pn: u64, largest: u64, now: u64, threshold: u64)
    requires
        t.unacked.dom().finite(),
    ensures
        lost_on(t, lose_one(t, pn, largest, now, threshold)),
{
    crate::totals::law_packet_totals_are_sums(t.unacked, wire_bytes(), pn);
    crate::totals::law_packet_totals_are_sums(t.unacked, one_lost(), pn);
    crate::totals::law_packet_totals_are_sums(t.unacked, one_resent(), pn);
    let u = lose_one(t, pn, largest, now, threshold);
    if t.unacked.contains_key(pn) {
        assert(wire_bytes()(t.unacked[pn]) == t.unacked[pn].sent_bytes);
        if u.unacked != t.unacked {
            assert(!u.unacked.contains_key(pn));
            if u.search.mtu_max != t.search.mtu_max {
                assert(bounded_by_probe(t.unacked, u.unacked, u.search.mtu_max));
            }
            if u.resend.len() > t.resend.len() {
                assert(u.resend[t.resend.len() as int] == (
                    t.unacked[pn].payload,
                    t.unacked[pn].retries,
                ));
            }
        }
    }
}

#[verifier::rlimit(40)]
proof fn lemma_lost_on_again(t: LossTally, u: LossTally, v: LossTally)
    requires
        lost_on(t, u),
        lost_on(u, v),
    ensures
        lost_on(t, v),
{
    if v.search.mtu_max != u.search.mtu_max {
        let k = choose|k: u64| #[trigger]
            u.unacked.contains_key(k) && !v.unacked.contains_key(k) && u.unacked[k].is_mtu_probe
                && (v.search.mtu_max + 1 == u.unacked[k].payload.size() as usize || (
            v.search.mtu_max == 0 && u.unacked[k].payload.size() as usize == 0));
        assert(u.unacked[k] == t.unacked[k]);
        assert(t.unacked.contains_key(k) && !v.unacked.contains_key(k));
        assert(bounded_by_probe(t.unacked, v.unacked, v.search.mtu_max));
    } else if u.search.mtu_max != t.search.mtu_max {
        let k = choose|k: u64| #[trigger]
            t.unacked.contains_key(k) && !u.unacked.contains_key(k) && t.unacked[k].is_mtu_probe
                && (u.search.mtu_max + 1 == t.unacked[k].payload.size() as usize || (
            u.search.mtu_max == 0 && t.unacked[k].payload.size() as usize == 0));
        assert(t.unacked.contains_key(k) && !v.unacked.contains_key(k));
        assert(bounded_by_probe(t.unacked, v.unacked, v.search.mtu_max));
    }
    assert forall|i: int| t.resend.len() <= i < v.resend.len() implies was_carried(
        t.unacked,
        v.unacked,
        #[trigger] v.resend[i],
    ) by {
        if i < u.resend.len() {
            assert(v.resend[i] == u.resend[i]);
            assert(was_carried(t.unacked, u.unacked, u.resend[i]));
            let k = choose|k: u64| #[trigger]
                t.unacked.contains_key(k) && !u.unacked.contains_key(k)
                    && !t.unacked[k].is_mtu_probe && !(t.unacked[k].payload is Datagram)
                    && u.resend[i] == (t.unacked[k].payload, t.unacked[k].retries);
            assert(t.unacked.contains_key(k) && !v.unacked.contains_key(k));
        } else {
            assert(was_carried(u.unacked, v.unacked, v.resend[i]));
            let k = choose|k: u64| #[trigger]
                u.unacked.contains_key(k) && !v.unacked.contains_key(k)
                    && !u.unacked[k].is_mtu_probe && !(u.unacked[k].payload is Datagram)
                    && v.resend[i] == (u.unacked[k].payload, u.unacked[k].retries);
            assert(u.unacked[k] == t.unacked[k]);
            assert(t.unacked.contains_key(k) && !v.unacked.contains_key(k));
        }
    }
    assert forall|i: int| 0 <= i < t.resend.len() implies #[trigger] v.resend[i]
        == t.resend[i] by {
        assert(u.resend[i] == t.resend[i]);
    }
    assert forall|k: u64| #[trigger]
        t.unacked.contains_key(k) && !v.unacked.contains_key(k) && t.unacked[k].is_mtu_probe
        implies !v.probes.contains_key(k) && (t.probes.contains_key(k) && (
    t.unacked[k].payload.size() as usize) > 0 ==> v.search.mtu_max
        < t.unacked[k].payload.size() as usize) by {
        if u.unacked.contains_key(k) {
            assert(u.unacked[k] == t.unacked[k]);
        }
    }
    if !t.detected && v.detected {
        if u.detected {
            let k = choose|k: u64| #[trigger]
                t.unacked.contains_key(k) && !u.unacked.contains_key(k)
                    && !t.unacked[k].is_mtu_probe;
            assert(t.unacked.contains_key(k) && !v.unacked.contains_key(k));
        } else {
            let k = choose|k: u64| #[trigger]
                u.unacked.contains_key(k) && !v.unacked.contains_key(k)
                    && !u.unacked[k].is_mtu_probe;
            assert(t.unacked.contains_key(k) && !v.unacked.contains_key(k));
        }
    }
    if !t.detected && !v.detected {
        assert forall|k: u64| #[trigger]
            t.unacked.contains_key(k) && !v.unacked.contains_key(
                k,
            ) implies t.unacked[k].is_mtu_probe by {
            if u.unacked.contains_key(k) {
                assert(u.unacked[k] == t.unacked[k]);
            }
        }
    }
    if forall|k: u64| #[trigger]
        t.unacked.contains_key(k) && !v.unacked.contains_key(k) ==> t.unacked[k].is_mtu_probe {
        assert forall|k: u64| #[trigger]
            t.unacked.contains_key(k) && !u.unacked.contains_key(
                k,
            ) implies t.unacked[k].is_mtu_probe by {
            assert(!v.unacked.contains_key(k));
        }
        assert forall|k: u64| #[trigger]
            u.unacked.contains_key(k) && !v.unacked.contains_key(
                k,
            ) implies u.unacked[k].is_mtu_probe by {
            assert(t.unacked.contains_key(k));
        }
    }
    if forall|k: u64| #[trigger]
        t.unacked.contains_key(k) && !v.unacked.contains_key(k) ==> !t.unacked[k].is_mtu_probe {
        assert forall|k: u64| #[trigger]
            t.unacked.contains_key(k) && !u.unacked.contains_key(
                k,
            ) implies !t.unacked[k].is_mtu_probe by {
            assert(!v.unacked.contains_key(k));
        }
        assert forall|k: u64| #[trigger]
            u.unacked.contains_key(k) && !v.unacked.contains_key(
                k,
            ) implies !u.unacked[k].is_mtu_probe by {
            assert(t.unacked.contains_key(k));
        }
    }
}

proof fn lemma_lost_on_below(t: LossTally, hi: int, largest: u64, now: u64, threshold: u64)
    requires
        t.unacked.dom().finite(),
        hi <= u64::MAX + 1,
    ensures
        lost_on(t, lose_below(t, hi, largest, now, threshold)),
    decreases hi,
{
    if hi > 0 {
        lemma_lost_on_below(t, hi - 1, largest, now, threshold);
        let u = lose_below(t, hi - 1, largest, now, threshold);
        lemma_lost_on_step(u, (hi - 1) as u64, largest, now, threshold);
        lemma_lost_on_again(t, u, lose_below(t, hi, largest, now, threshold));
    }
}

/// What an acknowledgement does to one packet. It leaves if one of the ranges
/// holds it, or if it lies so far below the largest that the peer no longer
/// tracks it. Of the others, one below the largest is lost if three later packets
/// got through, or if it was sent longer ago than both the scaled round-trip time
/// and fifteen milliseconds: it leaves too, the loss is reported, and its payload
/// is sent again unless it is a probe or a datagram. Every other packet stays.
pub proof fn law_a_packet_is_acknowledged_lost_or_still_out(
    before: ZtConnection,
    largest: u64,
    window_size: u64,
    ack_delay_us: u64,
    ranges: Seq<(u64, u64)>,
    now: u64,
    scaled_rtt: u64,
    after: ZtConnection,
    r: AckOutcome,
    pn: u64,
)
    requires
        before.wf(),
        before.acked_by(largest, window_size, ack_delay_us, ranges, now, scaled_rtt, &after, r),
        before.unacked_packets@.contains_key(pn),
    ensures
        ({
            let p = before.unacked_packets@[pn];
            let acknowledged = exists|i: int|
                0 <= i < ranges.len() && (#[trigger] ranges[i]).0 <= pn <= ranges[i].1;
            let forgotten = pn + 2047 < largest;
            let overdue = now - p.sent_at > scaled_rtt && now - p.sent_at > 15_000_000;
            let lost = !acknowledged && !forgotten && pn < largest && (pn + 3 <= largest || overdue);
            let out = after.unacked_packets@;
            &&& out.contains_key(pn) <==> !acknowledged && !forgotten && !lost
            &&& out.contains_key(pn) ==> out[pn] == p
            &&& lost && !p.is_mtu_probe && !(p.payload is Datagram)
                ==> r.fast_retransmits@.contains((p.payload, p.retries))
            &&& lost && !p.is_mtu_probe ==> r.loss == Some(before.rtt)
        }),
{
    let sacked = ack_ranges(before.tally_start(), ranges, now);
    let floor: int = if largest < 2047 {
        0
    } else {
        largest - 2047
    };
    let retired = retire_below(sacked, floor, now);
    let lost = lose_below(
        loss_start(before, retired),
        largest as int,
        largest,
        now,
        loss_threshold(scaled_rtt),
    );
    lemma_ack_walk(before, largest, ranges, now, scaled_rtt, floor, sacked, retired, lost);
    let start = loss_start(before, retired);
    assert(sacked.unacked.contains_key(pn) <==> !in_ranges(ranges, pn));
    assert(retired.unacked.contains_key(pn) <==> sacked.unacked.contains_key(pn) && pn >= floor);
    if retired.unacked.contains_key(pn) {
        assert(retired.unacked[pn] == before.unacked_packets@[pn]);
        assert(start.unacked.contains_key(pn));
    }
    assert(lost.unacked.contains_key(pn) <==> start.unacked.contains_key(pn) && !is_lost(
        start.unacked[pn],
        pn,
        largest,
        now,
        loss_threshold(scaled_rtt),
    ));
}

/// A packet below the largest acknowledged one that was sent longer ago than the
/// larger of the scaled round-trip time and fifteen milliseconds, and was not
/// acknowledged, does not stay out: its payload is sent again, unless it is a
/// probe or a datagram. This holds down to 2047 packets below the largest; what
/// lies further down counts as arrived.
pub proof fn law_a_packet_out_too_long_is_sent_again(
    before: ZtConnection,
    largest: u64,
    window_size: u64,
    ack_delay_us: u64,
    ranges: Seq<(u64, u64)>,
    now: u64,
    scaled_rtt: u64,
    after: ZtConnection,
    r: AckOutcome,
    pn: u64,
)
    requires
        before.wf(),
        before.acked_by(largest, window_size, ack_delay_us, ranges, now, scaled_rtt, &after, r),
        before.unacked_packets@.contains_key(pn),
        pn < largest,
        now > before.unacked_packets@[pn].sent_at + 15_000_000,
        now > before.unacked_packets@[pn].sent_at + scaled_rtt,
        forall|i: int|
            0 <= i < ranges.len() ==> !((#[trigger] ranges[i]).0 <= pn <= ranges[i].1),
    ensures
        !after.unacked_packets@.contains_key(pn),
        pn + 2047 >= largest && !before.unacked_packets@[pn].is_mtu_probe && !(
        before.unacked_packets@[pn].payload is Datagram) ==> r.fast_retransmits@.contains(
            (before.unacked_packets@[pn].payload, before.unacked_packets@[pn].retries),
        ),
        pn + 2047 >= largest && !before.unacked_packets@[pn].is_mtu_probe ==> r.loss == Some(
            before.rtt,
        ),
{
    law_a_packet_is_acknowledged_lost_or_still_out(
        before,
        largest,
        window_size,
        ack_delay_us,
        ranges,
        now,
        scaled_rtt,
        after,
        r,
        pn,
    );
}

/// Nothing is made up: what is out after an acknowledgement was out before, what
/// is sent again was lost, a loss is reported only if a packet other than a probe
/// was lost, and the counters say how much is sent again.
pub proof fn law_only_lost_data_is_sent_again(
    before: ZtConnection,
    largest: u64,
    window_size: u64,
    ack_delay_us: u64,
    ranges: Seq<(u64, u64)>,
    now: u64,
    scaled_rtt: u64,
    after: ZtConnection,
    r: AckOutcome,
)
    requires
        before.wf(),
        before.acked_by(largest, window_size, ack_delay_us, ranges, now, scaled_rtt, &after, r),
    ensures
        forall|k: u64| #[trigger]
            after.unacked_packets@.contains_key(k) ==> before.unacked_packets@.contains_key(k)
                && after.unacked_packets@[k] == before.unacked_packets@[k],
        forall|x: (UnackedPayload, u32)| #[trigger]
            r.fast_retransmits@.contains(x) ==> exists|k: u64| #[trigger]
                before.unacked_packets@.contains_key(k) && !after.unacked_packets@.contains_key(k)
                    && k < largest && k + 2047 >= largest && (k + 3 <= largest || now
                    - before.unacked_packets@[k].sent_at > scaled_rtt && now
                    - before.unacked_packets@[k].sent_at > 15_000_000) && (forall|i: int|
                    0 <= i < ranges.len() ==> !((#[trigger] ranges[i]).0 <= k <= ranges[i].1))
                    && !before.unacked_packets@[k].is_mtu_probe && !(
                before.unacked_packets@[k].payload is Datagram) && x == (
                    before.unacked_packets@[k].payload,
                    before.unacked_packets@[k].retries,
                ),
        after == (ZtConnection {
            unacked_packets: after.unacked_packets,
            mtu_probes: after.mtu_probes,
            bytes_in_flight: after.bytes_in_flight,
            packets_lost: after.packets_lost,
            packets_retransmitted: after.packets_retransmitted,
            rtt: after.rtt,
            rttvar: after.rttvar,
            rtt_initialized: after.rtt_initialized,
            remote_window: after.remote_window,
            mtu: after.mtu,
            mtu_min: after.mtu_min,
            mtu_max: after.mtu_max,
            mtu_probe_successes: after.mtu_probe_successes,
            mtu_probe_failures: after.mtu_probe_failures,
            mtu_blackhole_recoveries: after.mtu_blackhole_recoveries,
            cc: after.cc,
            ..before
        }),
        after.cc.window() == before.cc.window() && after.cc.threshold() == before.cc.threshold(),
        r.loss is Some ==> r.loss == Some(before.rtt),
        r.loss is None ==> r.fast_retransmits@.len() == 0 && after.packets_lost
            == before.packets_lost,
        r.loss is Some ==> exists|k: u64| #[trigger]
            before.unacked_packets@.contains_key(k) && !after.unacked_packets@.contains_key(k) && k
                < largest && !before.unacked_packets@[k].is_mtu_probe && (forall|i: int|
                0 <= i < ranges.len() ==> !((#[trigger] ranges[i]).0 <= k <= ranges[i].1)),
        before.packets_retransmitted + r.fast_retransmits@.len() <= u64::MAX
            ==> after.packets_retransmitted == before.packets_retransmitted
            + r.fast_retransmits@.len(),
{
    let sacked = ack_ranges(before.tally_start(), ranges, now);
    let floor: int = if largest < 2047 {
        0
    } else {
        largest - 2047
    };
    let retired = retire_below(sacked, floor, now);
    let lost = lose_below(
        loss_start(before, retired),
        largest as int,
        largest,
        now,
        loss_threshold(scaled_rtt),
    );
    lemma_ack_walk(before, largest, ranges, now, scaled_rtt, floor, sacked, retired, lost);
    let start = loss_start(before, retired);
    assert forall|k: u64| #[trigger] start.unacked.contains_key(k) implies before.unacked_packets@.contains_key(k)
        && before.unacked_packets@[k] == start.unacked[k] && k >= floor && !in_ranges(
        ranges,
        k,
    ) by {
        assert(retired.unacked.contains_key(k));
        assert(sacked.unacked.contains_key(k));
    }
    assert forall|k: u64| #[trigger]
        after.unacked_packets@.contains_key(k) implies before.unacked_packets@.contains_key(k)
        && after.unacked_packets@[k] == before.unacked_packets@[k] by {
        assert(lost.unacked.contains_key(k));
        assert(start.unacked.contains_key(k));
    }
    assert forall|k: u64| #[trigger]
        start.unacked.contains_key(k) && !lost.unacked.contains_key(k) implies is_lost(
        start.unacked[k],
        k,
        largest,
        now,
        loss_threshold(scaled_rtt),
    ) by {}
    assert forall|x: (UnackedPayload, u32)| #[trigger]
        r.fast_retransmits@.contains(x) implies exists|k: u64| #[trigger]
        before.unacked_packets@.contains_key(k) && !after.unacked_packets@.contains_key(k) && k
            < largest && k + 2047 >= largest && (k + 3 <= largest || now
            - before.unacked_packets@[k].sent_at > scaled_rtt && now
            - before.unacked_packets@[k].sent_at > 15_000_000) && (forall|i: int|
            0 <= i < ranges.len() ==> !((#[trigger] ranges[i]).0 <= k <= ranges[i].1))
            && !before.unacked_packets@[k].is_mtu_probe && !(
        before.unacked_packets@[k].payload is Datagram) && x == (
            before.unacked_packets@[k].payload,
            before.unacked_packets@[k].retries,
        ) by {
        let i = choose|i: int| 0 <= i < lost.resend.len() && lost.resend[i] == x;
        assert(was_carried(start.unacked, lost.unacked, lost.resend[i]));
        let k = choose|k: u64| #[trigger]
            start.unacked.contains_key(k) && !lost.unacked.contains_key(k)
                && !start.unacked[k].is_mtu_probe && !(start.unacked[k].payload is Datagram) && x
                == (start.unacked[k].payload, start.unacked[k].retries);
        assert(before.unacked_packets@.contains_key(k));
    }
    if lost.detected {
        let k = choose|k: u64| #[trigger]
            start.unacked.contains_key(k) && !lost.unacked.contains_key(k)
                && !start.unacked[k].is_mtu_probe;
        assert(before.unacked_packets@.contains_key(k));
    } else {
        if lost.resend.len() > 0 {
            assert(was_carried(start.unacked, lost.unacked, lost.resend[0]));
        }
    }
}

/// The bytes in flight go down by what the packets that left took on the wire.
/// Acknowledged and lost packets count the same, and none counts twice.
pub proof fn law_bytes_in_flight_are_conserved(
    before: ZtConnection,
    largest: u64,
    window_size: u64,
    ack_delay_us: u64,
    ranges: Seq<(u64, u64)>,
    now: u64,
    scaled_rtt: u64,
    after: ZtConnection,
    r: AckOutcome,
)
    requires
        before.wf(),
        before.acked_by(largest, window_size, ack_delay_us, ranges, now, scaled_rtt, &after, r),
    ensures
        forall|p: UnackedPacket| #[trigger] wire_bytes()(p) == p.sent_bytes,
        ({
            let left = crate::totals::packet_total(before.unacked_packets@, wire_bytes()) - crate::totals::packet_total(
                after.unacked_packets@,
                wire_bytes(),
            );
            &&& left >= 0
            &&& left <= before.bytes_in_flight ==> after.bytes_in_flight + left
                == before.bytes_in_flight
            &&& left > before.bytes_in_flight ==> after.bytes_in_flight == 0
        }),
{
    let sacked = ack_ranges(before.tally_start(), ranges, now);
    let floor: int = if largest < 2047 {
        0
    } else {
        largest - 2047
    };
    let retired = retire_below(sacked, floor, now);
    let lost = lose_below(
        loss_start(before, retired),
        largest as int,
        largest,
        now,
        loss_threshold(scaled_rtt),
    );
    lemma_ack_walk(before, largest, ranges, now, scaled_rtt, floor, sacked, retired, lost);
}

/// The congestion controller hears of the payload of exactly the packets that
/// arrived: those in the ranges and those too far below the largest to be
/// tracked, probes aside. `left` are the others. Lost packets do not count.
pub proof fn law_acknowledged_bytes_are_what_arrived(
    before: ZtConnection,
    largest: u64,
    window_size: u64,
    ack_delay_us: u64,
    ranges: Seq<(u64, u64)>,
    now: u64,
    scaled_rtt: u64,
    after: ZtConnection,
    r: AckOutcome,
    left: Map<u64, UnackedPacket>,
)
    requires
        before.wf(),
        before.acked_by(largest, window_size, ack_delay_us, ranges, now, scaled_rtt, &after, r),
        forall|k: u64| #[trigger]
            left.contains_key(k) <==> before.unacked_packets@.contains_key(k) && k + 2047 >= largest
                && (forall|i: int|
                0 <= i < ranges.len() ==> !((#[trigger] ranges[i]).0 <= k <= ranges[i].1)),
        forall|k: u64| #[trigger] left.contains_key(k) ==> left[k] == before.unacked_packets@[k],
    ensures
        forall|p: UnackedPacket| #[trigger]
            payload_bytes()(p) == if p.is_mtu_probe {
                0
            } else {
                (p.payload.size() as usize) as nat
            },
        ({
            let arrived = crate::totals::packet_total(before.unacked_packets@, payload_bytes()) - crate::totals::packet_total(
                left,
                payload_bytes(),
            );
            &&& arrived >= 0
            &&& arrived <= usize::MAX ==> r.bytes_acked == arrived
            &&& arrived > usize::MAX ==> r.bytes_acked == usize::MAX
            &&& r.wake_streams <==> window_size > before.remote_window || arrived > 0
        }),
        after.remote_window == window_size,
{
    let sacked = ack_ranges(before.tally_start(), ranges, now);
    let floor: int = if largest < 2047 {
        0
    } else {
        largest - 2047
    };
    let retired = retire_below(sacked, floor, now);
    let lost = lose_below(
        loss_start(before, retired),
        largest as int,
        largest,
        now,
        loss_threshold(scaled_rtt),
    );
    lemma_ack_walk(before, largest, ranges, now, scaled_rtt, floor, sacked, retired, lost);
    assert forall|k: u64| #[trigger] retired.unacked.contains_key(k) <==> left.contains_key(k) by {
        assert(retired.unacked.contains_key(k) <==> sacked.unacked.contains_key(k) && k >= floor);
        assert(sacked.unacked.contains_key(k) <==> before.unacked_packets@.contains_key(k)
            && !in_ranges(ranges, k));
    }
    assert(retired.unacked =~= left);
}

/// Only packets that were sent once measure the round trip. Without one among
/// those that arrived, the estimate stays. With one, the time since it was sent,
/// less what the peer held its acknowledgement back for where that is less, is
/// taken as it is the first time, and later by an eighth; the variation is half of
/// it the first time, and later moves by a quarter of the distance.
pub proof fn law_round_trips_are_measured_on_packets_sent_once(
    before: ZtConnection,
    largest: u64,
    window_size: u64,
    ack_delay_us: u64,
    ranges: Seq<(u64, u64)>,
    now: u64,
    scaled_rtt: u64,
    after: ZtConnection,
    r: AckOutcome,
)
    requires
        before.wf(),
        before.acked_by(largest, window_size, ack_delay_us, ranges, now, scaled_rtt, &after, r),
    ensures
        (forall|k: u64| #[trigger]
            before.unacked_packets@.contains_key(k) && (k + 2047 < largest || in_ranges(ranges, k))
                ==> before.unacked_packets@[k].retries > 0) ==> after.rtt == before.rtt
            && after.rttvar == before.rttvar && after.rtt_initialized == before.rtt_initialized,
        !(forall|k: u64| #[trigger]
            before.unacked_packets@.contains_key(k) && (k + 2047 < largest || in_ranges(ranges, k))
                ==> before.unacked_packets@[k].retries > 0) ==> after.rtt_initialized && exists|
            k: u64,
        | #[trigger]
            before.unacked_packets@.contains_key(k) && before.unacked_packets@[k].retries == 0 && (k
                + 2047 < largest || in_ranges(ranges, k)) && measured(
                before,
                before.unacked_packets@[k].sent_at,
                ack_delay_us,
                now,
                after,
            ),
{
    let sacked = ack_ranges(before.tally_start(), ranges, now);
    let floor: int = if largest < 2047 {
        0
    } else {
        largest - 2047
    };
    let retired = retire_below(sacked, floor, now);
    let lost = lose_below(
        loss_start(before, retired),
        largest as int,
        largest,
        now,
        loss_threshold(scaled_rtt),
    );
    lemma_ack_walk(before, largest, ranges, now, scaled_rtt, floor, sacked, retired, lost);
    let start = before.tally_start();
    assert forall|k: u64| #[trigger]
        start.unacked.contains_key(k) implies (retired.unacked.contains_key(k) <==> !(k + 2047
        < largest || in_ranges(ranges, k))) by {
        assert(retired.unacked.contains_key(k) <==> sacked.unacked.contains_key(k) && k >= floor);
        assert(sacked.unacked.contains_key(k) <==> !in_ranges(ranges, k));
    }
    if retired.sample is Some {
        let k = choose|k: u64| #[trigger]
            start.unacked.contains_key(k) && !retired.unacked.contains_key(k)
                && start.unacked[k].retries == 0 && retired.sample == Some(
                crate::congestion::elapsed(now, start.unacked[k].sent_at),
            );
        assert(before.unacked_packets@.contains_key(k));
        assert(measured(before, before.unacked_packets@[k].sent_at, ack_delay_us, now, after));
    } else {
        assert forall|k: u64| #[trigger]
            before.unacked_packets@.contains_key(k) && (k + 2047 < largest || in_ranges(
                ranges,
                k,
            )) implies before.unacked_packets@[k].retries > 0 by {
            assert(start.unacked.contains_key(k));
        }
    }
}

/// Whether the estimate of `after` is that of `before` with the round trip of a
/// packet sent at `sent_at` taken in at `now`.
pub open spec fn measured(
    before: ZtConnection,
    sent_at: u64,
    ack_delay_us: u64,
    now: u64,
    after: ZtConnection,
) -> bool {
    let trip: int = if now < sent_at {
        0
    } else {
        now - sent_at
    };
    let sample: int = if trip > 1000 * ack_delay_us {
        trip - 1000 * ack_delay_us
    } else {
        trip
    };
    let off: int = if before.rtt > sample {
        before.rtt - sample
    } else {
        sample - before.rtt
    };
    &&& !before.rtt_initialized ==> after.rtt == sample && after.rttvar == sample / 2
    &&& before.rtt_initialized ==> after.rtt == (7 * before.rtt + sample) / 8 && after.rttvar == (3
        * before.rttvar + off) / 4
}

/// The estimate stays between what it was and the sample, and comes closer to the
/// sample; so does a connection's first sample replace the guess.
pub proof fn law_estimates_move_towards_samples(
    initialized: bool,
    rtt: u64,
    rttvar: u64,
    sample: u64,
)
    ensures
        !initialized ==> smoothed(initialized, rtt, rttvar, sample).0 == sample && 2 * smoothed(
            initialized,
            rtt,
            rttvar,
            sample,
        ).1 <= sample <= 2 * smoothed(initialized, rtt, rttvar, sample).1 + 1,
        initialized ==> ({
            let new = smoothed(initialized, rtt, rttvar, sample);
            &&& rtt <= sample ==> rtt <= new.0 <= sample
            &&& sample <= rtt ==> sample <= new.0 <= rtt
            &&& 8 * new.0 <= 7 * rtt + sample < 8 * new.0 + 8
            &&& rtt >= sample ==> 4 * new.1 <= 3 * rttvar + (rtt - sample) < 4 * new.1 + 4
            &&& rtt <= sample ==> 4 * new.1 <= 3 * rttvar + (sample - rtt) < 4 * new.1 + 4
        }),
{
}

/// The part of a connection that loss detection starts from.
spec fn loss_start(conn: ZtConnection, retired: AckTally) -> LossTally {
    LossTally {
        unacked: retired.unacked,
        probes: retired.probes,
        search: retired.search,
        in_flight: conn.bytes_in_flight,
        resend: Seq::empty(),
        detected: false,
        counters: (conn.packets_lost, conn.packets_retransmitted),
    }
}

proof fn lemma_ack_walk(
    before: ZtConnection,
    largest: u64,
    ranges: Seq<(u64, u64)>,
    now: u64,
    scaled_rtt: u64,
    floor: int,
    sacked: AckTally,
    retired: AckTally,
    lost: LossTally,
)
    requires
        before.wf(),
        floor == if largest < 2047 {
            0
        } else {
            largest - 2047
        },
        sacked == ack_ranges(before.tally_start(), ranges, now),
        retired == retire_below(sacked, floor, now),
        lost == lose_below(
            loss_start(before, retired),
            largest as int,
            largest,
            now,
            loss_threshold(scaled_rtt),
        ),
    ensures
        moved_on(before.tally_start(), sacked, now),
        moved_on(before.tally_start(), retired, now),
        lost_on(loss_start(before, retired), lost),
        retired.search == sacked.search,
        retired.probes == sacked.probes,
        forall|k: u64| #[trigger]
            sacked.unacked.contains_key(k) <==> before.unacked_packets@.contains_key(k)
                && !in_ranges(ranges, k),
        forall|k: u64| #[trigger]
            retired.unacked.contains_key(k) <==> sacked.unacked.contains_key(k) && k >= floor,
        forall|k: u64| #[trigger]
            retired.unacked.contains_key(k) ==> retired.unacked[k] == before.unacked_packets@[k],
        forall|k: u64| #[trigger]
            lost.unacked.contains_key(k) <==> retired.unacked.contains_key(k) && !is_lost(
                retired.unacked[k],
                k,
                largest,
                now,
                loss_threshold(scaled_rtt),
            ),
        forall|k: u64| #[trigger]
            retired.unacked.contains_key(k) && is_lost(
                retired.unacked[k],
                k,
                largest,
                now,
                loss_threshold(scaled_rtt),
            ) && !retired.unacked[k].is_mtu_probe && !(retired.unacked[k].payload is Datagram)
                ==> lost.resend.contains((retired.unacked[k].payload, retired.unacked[k].retries)),
{
    let t = before.tally_start();
    let start = loss_start(before, retired);
    law_acknowledged_packets_leave(t, ranges, now);
    lemma_moved_on_ranges(t, ranges, now);
    lemma_moved_on_below(sacked, floor, now);
    lemma_moved_on_again(t, sacked, retired, now);
    lemma_lost_on_below(start, largest as int, largest, now, loss_threshold(scaled_rtt));
    law_lost_data_is_sent_again(start, largest as int, largest, now, loss_threshold(scaled_rtt));
}

/// How selective acknowledgements settle probes.
spec fn probes_settled(t: AckTally, u: AckTally) -> bool {
    &&& forall|k: u64| #[trigger]
        u.unacked.contains_key(k) ==> t.unacked.contains_key(k) && u.unacked[k] == t.unacked[k]
    &&& u.search.mtu >= t.search.mtu && u.search.mtu_min >= t.search.mtu_min
    &&& u.search.mtu == t.search.mtu || sized_by_probe(t.unacked, u.unacked, u.search.mtu)
    &&& u.search.mtu_min == t.search.mtu_min || sized_by_probe(
        t.unacked,
        u.unacked,
        u.search.mtu_min,
    )
    &&& forall|k: u64| #[trigger] u.probes.contains_key(k) ==> t.probes.contains_key(k)
    &&& forall|k: u64| #[trigger]
        t.unacked.contains_key(k) && u.unacked.contains_key(k) && t.probes.contains_key(k)
            ==> u.probes.contains_key(k)
    &&& forall|k: u64| #[trigger]
        t.unacked.contains_key(k) && !u.unacked.contains_key(k) && t.unacked[k].is_mtu_probe
            ==> !u.probes.contains_key(k) && (t.probes.contains_key(k) ==> u.search.mtu
            >= t.unacked[k].payload.size() as usize && u.search.mtu_min
            >= t.unacked[k].payload.size() as usize)
}

proof fn lemma_probes_settled_again(t: AckTally, u: AckTally, v: AckTally)
    requires
        probes_settled(t, u),
        probes_settled(u, v),
    ensures
        probes_settled(t, v),
{
    if sized_by_probe(t.unacked, u.unacked, u.search.mtu) {
        lemma_sized_by_probe(t.unacked, u.unacked, v.unacked, u.search.mtu);
    }
    if sized_by_probe(t.unacked, u.unacked, u.search.mtu_min) {
        lemma_sized_by_probe(t.unacked, u.unacked, v.unacked, u.search.mtu_min);
    }
    if sized_by_probe(u.unacked, v.unacked, v.search.mtu) {
        lemma_sized_by_probe(t.unacked, u.unacked, v.unacked, v.search.mtu);
    }
    if sized_by_probe(u.unacked, v.unacked, v.search.mtu_min) {
        lemma_sized_by_probe(t.unacked, u.unacked, v.unacked, v.search.mtu_min);
    }
    assert forall|k: u64| #[trigger]
        t.unacked.contains_key(k) && !v.unacked.contains_key(k)
            && t.unacked[k].is_mtu_probe implies !v.probes.contains_key(k) && (
    t.probes.contains_key(k) ==> v.search.mtu >= t.unacked[k].payload.size() as usize
        && v.search.mtu_min >= t.unacked[k].payload.size() as usize) by {
        if u.unacked.contains_key(k) {
            assert(u.unacked[k] == t.unacked[k]);
        }
    }
    assert forall|k: u64| #[trigger]
        t.unacked.contains_key(k) && v.unacked.contains_key(k) && t.probes.contains_key(
            k,
        ) implies v.probes.contains_key(k) by {
        assert(u.unacked.contains_key(k));
    }
}

proof fn lemma_sized_by_probe(
    a: Map<u64, UnackedPacket>,
    b: Map<u64, UnackedPacket>,
    c: Map<u64, UnackedPacket>,
    size: usize,
)
    requires
        sized_by_probe(a, b, size) || sized_by_probe(b, c, size),
        forall|k: u64| #[trigger] b.contains_key(k) ==> a.contains_key(k) && b[k] == a[k],
        forall|k: u64| #[trigger] c.contains_key(k) ==> b.contains_key(k) && c[k] == b[k],
    ensures
        sized_by_probe(a, c, size),
{
    if sized_by_probe(a, b, size) {
        let k = choose|k: u64| #[trigger]
            a.contains_key(k) && !b.contains_key(k) && a[k].is_mtu_probe && size
                == a[k].payload.size() as usize;
        assert(a.contains_key(k) && !c.contains_key(k));
    } else {
        let k = choose|k: u64| #[trigger]
            b.contains_key(k) && !c.contains_key(k) && b[k].is_mtu_probe && size
                == b[k].payload.size() as usize;
        assert(b[k] == a[k]);
        assert(a.contains_key(k) && !c.contains_key(k));
    }
}

proof fn lemma_probes_settled_span(t: AckTally, lo: int, hi: int, now: u64)
    ensures
        probes_settled(t, ack_span(t, lo, hi, now)),
    decreases hi - lo,
{
    if hi > lo {
        lemma_probes_settled_span(t, lo, hi - 1, now);
        let u = ack_span(t, lo, hi - 1, now);
        let pn = (hi - 1) as u64;
        let v = ack_one(u, pn, now);
        if u.unacked.contains_key(pn) {
            assert(!v.unacked.contains_key(pn));
            if u.unacked[pn].is_mtu_probe {
                assert(sized_by_probe(u.unacked, v.unacked, u.unacked[pn].payload.size() as usize));
            }
        }
        assert(probes_settled(u, v));
        lemma_probes_settled_again(t, u, ack_span(t, lo, hi, now));
    }
}

proof fn lemma_probes_settled_ranges(t: AckTally, ranges: Seq<(u64, u64)>, now: u64)
    ensures
        probes_settled(t, ack_ranges(t, ranges, now)),
    decreases ranges.len(),
{
    if ranges.len() > 0 {
        lemma_probes_settled_ranges(t, ranges.drop_last(), now);
        let u = ack_ranges(t, ranges.drop_last(), now);
        lemma_probes_settled_span(u, ranges.last().0 as int, ranges.last().1 + 1, now);
        lemma_probes_settled_again(t, u, ack_ranges(t, ranges, now));
    }
}

/// Probes decide the packet size: one that is acknowledged makes its size usable,
/// one that is lost rules it out. Either is done with. Without probes among the
/// packets that are out, the search does not move; the size in use never shrinks
/// on an acknowledgement, and the upper bound never grows.
pub proof fn law_probes_decide_the_packet_size(
    before: ZtConnection,
    largest: u64,
    window_size: u64,
    ack_delay_us: u64,
    ranges: Seq<(u64, u64)>,
    now: u64,
    scaled_rtt: u64,
    after: ZtConnection,
    r: AckOutcome,
    pn: u64,
)
    requires
        before.wf(),
        before.acked_by(largest, window_size, ack_delay_us, ranges, now, scaled_rtt, &after, r),
        before.unacked_packets@.contains_key(pn),
    ensures
        after.mtu >= before.mtu && after.mtu_min >= before.mtu_min && after.mtu_max
            <= before.mtu_max && after.base_mtu == before.base_mtu,
        before.unacked_packets@[pn].is_mtu_probe && before.mtu_probes@.contains_key(pn) ==> ({
            let p = before.unacked_packets@[pn];
            let size = p.payload.size() as usize;
            let acknowledged = exists|i: int|
                0 <= i < ranges.len() && (#[trigger] ranges[i]).0 <= pn <= ranges[i].1;
            let overdue = now - p.sent_at > scaled_rtt && now - p.sent_at > 15_000_000;
            &&& acknowledged ==> after.mtu >= size && after.mtu_min >= size
                && !after.mtu_probes@.contains_key(pn)
            &&& !acknowledged && pn < largest && pn + 2047 >= largest && (pn + 3 <= largest
                || overdue) && size > 0 ==> after.mtu_max < size && !after.mtu_probes@.contains_key(
                pn,
            )
            &&& after.unacked_packets@.contains_key(pn) ==> after.mtu_probes@.contains_key(pn)
        }),
        after.mtu == before.mtu || exists|k: u64| #[trigger]
            before.unacked_packets@.contains_key(k) && in_ranges(ranges, k)
                && before.unacked_packets@[k].is_mtu_probe && after.mtu
                == before.unacked_packets@[k].payload.size() as usize,
        after.mtu_min == before.mtu_min || exists|k: u64| #[trigger]
            before.unacked_packets@.contains_key(k) && in_ranges(ranges, k)
                && before.unacked_packets@[k].is_mtu_probe && after.mtu_min
                == before.unacked_packets@[k].payload.size() as usize,
        after.mtu_max == before.mtu_max || exists|k: u64| #[trigger]
            before.unacked_packets@.contains_key(k) && !after.unacked_packets@.contains_key(k)
                && !in_ranges(ranges, k) && before.unacked_packets@[k].is_mtu_probe && (
            after.mtu_max + 1 == before.unacked_packets@[k].payload.size() as usize || after.mtu_max
                == 0),
        (forall|k: u64| #[trigger]
            before.unacked_packets@.contains_key(k) ==> !before.unacked_packets@[k].is_mtu_probe)
            ==> after.mtu == before.mtu && after.mtu_min == before.mtu_min && after.mtu_max
            == before.mtu_max && after.mtu_probe_successes == before.mtu_probe_successes
            && after.mtu_probe_failures == before.mtu_probe_failures && after.cc == before.cc,
{
    let sacked = ack_ranges(before.tally_start(), ranges, now);
    let floor: int = if largest < 2047 {
        0
    } else {
        largest - 2047
    };
    let retired = retire_below(sacked, floor, now);
    let lost = lose_below(
        loss_start(before, retired),
        largest as int,
        largest,
        now,
        loss_threshold(scaled_rtt),
    );
    lemma_ack_walk(before, largest, ranges, now, scaled_rtt, floor, sacked, retired, lost);
    let start = loss_start(before, retired);
    let t = before.tally_start();
    lemma_probes_settled_ranges(t, ranges, now);
    if after.mtu != before.mtu {
        let k = choose|k: u64| #[trigger]
            t.unacked.contains_key(k) && !sacked.unacked.contains_key(k) && t.unacked[k].is_mtu_probe
                && sacked.search.mtu == t.unacked[k].payload.size() as usize;
        assert(before.unacked_packets@.contains_key(k) && in_ranges(ranges, k));
    }
    if after.mtu_min != before.mtu_min {
        let k = choose|k: u64| #[trigger]
            t.unacked.contains_key(k) && !sacked.unacked.contains_key(k) && t.unacked[k].is_mtu_probe
                && sacked.search.mtu_min == t.unacked[k].payload.size() as usize;
        assert(before.unacked_packets@.contains_key(k) && in_ranges(ranges, k));
    }
    if after.mtu_max != before.mtu_max {
        assert(bounded_by_probe(start.unacked, lost.unacked, after.mtu_max));
        let k = choose|k: u64| #[trigger]
            start.unacked.contains_key(k) && !lost.unacked.contains_key(k)
                && start.unacked[k].is_mtu_probe && (after.mtu_max + 1
                == start.unacked[k].payload.size() as usize || (after.mtu_max == 0
                && start.unacked[k].payload.size() as usize == 0));
        assert(retired.unacked.contains_key(k));
        assert(sacked.unacked.contains_key(k));
        assert(before.unacked_packets@.contains_key(k));
    }
    assert(t.unacked.contains_key(pn));
    assert(sacked.unacked.contains_key(pn) <==> !in_ranges(ranges, pn));
    assert(retired.unacked.contains_key(pn) <==> sacked.unacked.contains_key(pn) && pn >= floor);
    assert(start.unacked.contains_key(pn) <==> retired.unacked.contains_key(pn));
    assert(lost.unacked.contains_key(pn) <==> retired.unacked.contains_key(pn) && !is_lost(
        retired.unacked[pn],
        pn,
        largest,
        now,
        loss_threshold(scaled_rtt),
    ));
    if before.unacked_packets@[pn].is_mtu_probe && before.mtu_probes@.contains_key(pn) {
        if sacked.unacked.contains_key(pn) {
            assert(start.probes.contains_key(pn));
        } else {
            assert(!start.probes.contains_key(pn));
            assert(!lost.probes.contains_key(pn));
        }
    }
    if forall|k: u64| #[trigger]
        before.unacked_packets@.contains_key(k) ==> !before.unacked_packets@[k].is_mtu_probe {
        assert forall|k: u64| #[trigger]
            start.unacked.contains_key(k) && !lost.unacked.contains_key(
                k,
            ) implies !start.unacked[k].is_mtu_probe by {
            assert(retired.unacked.contains_key(k));
            assert(before.unacked_packets@.contains_key(k));
        }
    }
}

/// The round trip is measured on the first packet: the lowest one of the first
/// range that was sent once, if there is any.
pub proof fn law_the_first_packet_measures_the_round_trip(
    before: ZtConnection,
    largest: u64,
    window_size: u64,
    ack_delay_us: u64,
    ranges: Seq<(u64, u64)>,
    now: u64,
    scaled_rtt: u64,
    after: ZtConnection,
    r: AckOutcome,
    pn: u64,
)
    requires
        before.wf(),
        before.acked_by(largest, window_size, ack_delay_us, ranges, now, scaled_rtt, &after, r),
        ranges.len() > 0,
        ranges[0].0 <= pn <= ranges[0].1,
        before.unacked_packets@.contains_key(pn),
        before.unacked_packets@[pn].retries == 0,
        forall|k: u64| #[trigger]
            before.unacked_packets@.contains_key(k) && ranges[0].0 <= k < pn
                ==> before.unacked_packets@[k].retries > 0,
    ensures
        measured(before, before.unacked_packets@[pn].sent_at, ack_delay_us, now, after),
        after.rtt_initialized,
{
    let t = before.tally_start();
    let sacked = ack_ranges(t, ranges, now);
    let floor: int = if largest < 2047 {
        0
    } else {
        largest - 2047
    };
    lemma_first_sample_ranges(t, ranges, pn, now);
    lemma_moved_on_ranges(t, ranges, now);
    lemma_moved_on_below(sacked, floor, now);
}

proof fn lemma_first_sample_span(t: AckTally, lo: int, hi: int, pn: u64, now: u64)
    requires
        t.unacked.dom().finite(),
        t.sample is None,
        0 <= lo <= pn,
        hi <= u64::MAX + 1,
        t.unacked.contains_key(pn),
        t.unacked[pn].retries == 0,
        forall|k: u64| #[trigger]
            t.unacked.contains_key(k) && lo <= k < pn ==> t.unacked[k].retries > 0,
    ensures
        hi <= pn ==> ack_span(t, lo, hi, now).sample is None,
        hi > pn ==> ack_span(t, lo, hi, now).sample == Some(
            crate::congestion::elapsed(now, t.unacked[pn].sent_at),
        ),
    decreases hi - lo,
{
    if hi > lo {
        lemma_first_sample_span(t, lo, hi - 1, pn, now);
        lemma_ack_span_covers(t, lo, hi - 1, now);
        let u = ack_span(t, lo, hi - 1, now);
        let k = (hi - 1) as u64;
        assert(u.unacked.contains_key(k) <==> t.unacked.contains_key(k));
        if u.unacked.contains_key(k) {
            assert(u.unacked[k] == t.unacked[k]);
        }
    }
}

proof fn lemma_first_sample_ranges(t: AckTally, ranges: Seq<(u64, u64)>, pn: u64, now: u64)
    requires
        t.unacked.dom().finite(),
        t.sample is None,
        ranges.len() > 0,
        ranges[0].0 <= pn <= ranges[0].1,
        t.unacked.contains_key(pn),
        t.unacked[pn].retries == 0,
        forall|k: u64| #[trigger]
            t.unacked.contains_key(k) && ranges[0].0 <= k < pn ==> t.unacked[k].retries > 0,
    ensures
        ack_ranges(t, ranges, now).sample == Some(
            crate::congestion::elapsed(now, t.unacked[pn].sent_at),
        ),
    decreases ranges.len(),
{
    let fewer = ranges.drop_last();
    let last = ranges.last();
    if ranges.len() == 1 {
        assert(ack_ranges(t, fewer, now) == t);
        lemma_first_sample_span(t, last.0 as int, last.1 + 1, pn, now);
    } else {
        assert(fewer[0] == ranges[0]);
        lemma_first_sample_ranges(t, fewer, pn, now);
        lemma_moved_on_ranges(t, fewer, now);
        lemma_moved_on_span(ack_ranges(t, fewer, now), last.0 as int, last.1 + 1, now);
    }
}

/// How an expired retransmission timer moves a tally on.
spec fn expired_on(t: TimeoutTally, u: TimeoutTally) -> bool {
    &&& u.unacked.dom().finite()
    &&& forall|k: u64| #[trigger]
        u.unacked.contains_key(k) ==> t.unacked.contains_key(k) && u.unacked[k] == t.unacked[k]
    &&& crate::totals::packet_total(u.unacked, wire_bytes()) <= crate::totals::packet_total(t.unacked, wire_bytes())
    &&& u.in_flight == at_least(
        t.in_flight - (crate::totals::packet_total(t.unacked, wire_bytes()) - crate::totals::packet_total(
            u.unacked,
            wire_bytes(),
        )),
    )
    &&& u.resend.len() >= t.resend.len()
    &&& forall|i: int| 0 <= i < t.resend.len() ==> #[trigger] u.resend[i] == t.resend[i]
    &&& forall|i: int|
        t.resend.len() <= i < u.resend.len() ==> was_tried(
            t.unacked,
            u.unacked,
            #[trigger] u.resend[i],
        )
    &&& t.given_up ==> u.given_up
    &&& !t.given_up ==> (u.given_up <==> exists|k: u64| #[trigger]
        t.unacked.contains_key(k) && !u.unacked.contains_key(k) && !t.unacked[k].is_mtu_probe && !(
        t.unacked[k].payload is Datagram) && t.unacked[k].retries > 10)
    &&& t.counters.1 + (u.resend.len() - t.resend.len()) <= u64::MAX ==> u.counters.1
        == t.counters.1 + (u.resend.len() - t.resend.len())
    &&& crate::totals::packet_total(u.unacked, one_lost()) <= crate::totals::packet_total(
        t.unacked,
        one_lost(),
    )
    &&& u.counters.0 == counted_to(
        t.counters.0 + crate::totals::packet_total(t.unacked, one_lost())
            - crate::totals::packet_total(u.unacked, one_lost()),
    )
    &&& u.resend.len() - t.resend.len() == crate::totals::packet_total(t.unacked, one_retried())
        - crate::totals::packet_total(u.unacked, one_retried())
    &&& u.search.base_mtu == t.search.base_mtu
    &&& u.search.mtu == t.search.mtu || (u.search.mtu == t.search.base_mtu && t.search.mtu
        > t.search.base_mtu)
    &&& (exists|k: u64| #[trigger]
        t.unacked.contains_key(k) && !u.unacked.contains_key(k) && !t.unacked[k].is_mtu_probe && !(
        t.unacked[k].payload is Datagram) && 3 <= t.unacked[k].retries <= 10) ==> u.search.mtu
        <= t.search.base_mtu
    &&& (forall|k: u64| #[trigger]
        t.unacked.contains_key(k) && !u.unacked.contains_key(k) ==> t.unacked[k].is_mtu_probe
            || t.unacked[k].payload is Datagram || t.unacked[k].retries < 3
            || t.unacked[k].retries > 10) ==> u.search.mtu == t.search.mtu
    &&& forall|k: u64| #[trigger]
        t.unacked.contains_key(k) && !u.unacked.contains_key(k) && t.unacked[k].is_mtu_probe
            ==> !u.probes.contains_key(k)
    &&& forall|k: u64| #[trigger] u.probes.contains_key(k) ==> t.probes.contains_key(k)
}

/// Whether a packet that carried `x` one time less left, and is to be sent again.
spec fn was_tried(
    before: Map<u64, UnackedPacket>,
    after: Map<u64, UnackedPacket>,
    x: (UnackedPayload, u32),
) -> bool {
    exists|k: u64| #[trigger]
        before.contains_key(k) && !after.contains_key(k) && !before[k].is_mtu_probe && !(
        before[k].payload is Datagram) && before[k].retries <= 10 && x.0 == before[k].payload && x.1
            == before[k].retries + 1
}

proof fn lemma_expired_on_step(t: TimeoutTally, pn: u64, now: u64, rto: int)
    requires
        t.unacked.dom().finite(),
    ensures
        expired_on(t, expire_one(t, pn, now, rto)),
{
    crate::totals::law_packet_totals_are_sums(t.unacked, wire_bytes(), pn);
    crate::totals::law_packet_totals_are_sums(t.unacked, one_lost(), pn);
    crate::totals::law_packet_totals_are_sums(t.unacked, one_retried(), pn);
    let u = expire_one(t, pn, now, rto);
    if t.unacked.contains_key(pn) && crate::congestion::elapsed(now, t.unacked[pn].sent_at) > rto {
        assert(wire_bytes()(t.unacked[pn]) == t.unacked[pn].sent_bytes);
        assert(!u.unacked.contains_key(pn));
        assert(t.unacked.contains_key(pn) && !u.unacked.contains_key(pn));
        if u.resend.len() > t.resend.len() {
            assert(was_tried(t.unacked, u.unacked, u.resend[t.resend.len() as int]));
        }
    }
}

#[verifier::rlimit(60)]
proof fn lemma_expired_on_again(t: TimeoutTally, u: TimeoutTally, v: TimeoutTally)
    requires
        expired_on(t, u),
        expired_on(u, v),
    ensures
        expired_on(t, v),
{
    assert forall|i: int| t.resend.len() <= i < v.resend.len() implies was_tried(
        t.unacked,
        v.unacked,
        #[trigger] v.resend[i],
    ) by {
        if i < u.resend.len() {
            assert(v.resend[i] == u.resend[i]);
            assert(was_tried(t.unacked, u.unacked, u.resend[i]));
            let k = choose|k: u64| #[trigger]
                t.unacked.contains_key(k) && !u.unacked.contains_key(k)
                    && !t.unacked[k].is_mtu_probe && !(t.unacked[k].payload is Datagram)
                    && t.unacked[k].retries <= 10 && u.resend[i].0 == t.unacked[k].payload
                    && u.resend[i].1 == t.unacked[k].retries + 1;
            assert(t.unacked.contains_key(k) && !v.unacked.contains_key(k));
        } else {
            assert(was_tried(u.unacked, v.unacked, v.resend[i]));
            let k = choose|k: u64| #[trigger]
                u.unacked.contains_key(k) && !v.unacked.contains_key(k)
                    && !u.unacked[k].is_mtu_probe && !(u.unacked[k].payload is Datagram)
                    && u.unacked[k].retries <= 10 && v.resend[i].0 == u.unacked[k].payload
                    && v.resend[i].1 == u.unacked[k].retries + 1;
            assert(u.unacked[k] == t.unacked[k]);
            assert(t.unacked.contains_key(k) && !v.unacked.contains_key(k));
        }
    }
    assert forall|i: int| 0 <= i < t.resend.len() implies #[trigger] v.resend[i]
        == t.resend[i] by {
        assert(u.resend[i] == t.resend[i]);
    }
    assert forall|k: u64| #[trigger]
        t.unacked.contains_key(k) && !v.unacked.contains_key(
            k,
        ) implies (!u.unacked.contains_key(k)) || (u.unacked.contains_key(k) && u.unacked[k]
        == t.unacked[k]) by {}
    assert forall|k: u64| #[trigger]
        t.unacked.contains_key(k) && !v.unacked.contains_key(k)
            && t.unacked[k].is_mtu_probe implies !v.probes.contains_key(k) by {
        if u.unacked.contains_key(k) {
            assert(u.unacked[k] == t.unacked[k]);
        }
    }
    if !t.given_up {
        if v.given_up {
            if u.given_up {
                let k = choose|k: u64| #[trigger]
                    t.unacked.contains_key(k) && !u.unacked.contains_key(k)
                        && !t.unacked[k].is_mtu_probe && !(t.unacked[k].payload is Datagram)
                        && t.unacked[k].retries > 10;
                assert(t.unacked.contains_key(k) && !v.unacked.contains_key(k));
            } else {
                let k = choose|k: u64| #[trigger]
                    u.unacked.contains_key(k) && !v.unacked.contains_key(k)
                        && !u.unacked[k].is_mtu_probe && !(u.unacked[k].payload is Datagram)
                        && u.unacked[k].retries > 10;
                assert(u.unacked[k] == t.unacked[k]);
                assert(t.unacked.contains_key(k) && !v.unacked.contains_key(k));
            }
        } else {
            assert forall|k: u64| #[trigger]
                t.unacked.contains_key(k) && !v.unacked.contains_key(
                    k,
                ) implies t.unacked[k].is_mtu_probe || t.unacked[k].payload is Datagram
                || t.unacked[k].retries <= 10 by {
                if u.unacked.contains_key(k) {
                    assert(u.unacked[k] == t.unacked[k]);
                }
            }
        }
    }
    if exists|k: u64| #[trigger]
        t.unacked.contains_key(k) && !v.unacked.contains_key(k) && !t.unacked[k].is_mtu_probe && !(
        t.unacked[k].payload is Datagram) && 3 <= t.unacked[k].retries <= 10 {
        let k = choose|k: u64| #[trigger]
            t.unacked.contains_key(k) && !v.unacked.contains_key(k) && !t.unacked[k].is_mtu_probe
                && !(t.unacked[k].payload is Datagram) && 3 <= t.unacked[k].retries <= 10;
        if u.unacked.contains_key(k) {
            assert(u.unacked[k] == t.unacked[k]);
            assert(v.search.mtu <= t.search.base_mtu);
        } else {
            assert(u.search.mtu <= t.search.base_mtu);
        }
    }
    if forall|k: u64| #[trigger]
        t.unacked.contains_key(k) && !v.unacked.contains_key(k) ==> t.unacked[k].is_mtu_probe
            || t.unacked[k].payload is Datagram || t.unacked[k].retries < 3
            || t.unacked[k].retries > 10 {
        assert forall|k: u64| #[trigger]
            t.unacked.contains_key(k) && !u.unacked.contains_key(
                k,
            ) implies t.unacked[k].is_mtu_probe || t.unacked[k].payload is Datagram
            || t.unacked[k].retries < 3 || t.unacked[k].retries > 10 by {
            assert(!v.unacked.contains_key(k));
        }
        assert forall|k: u64| #[trigger]
            u.unacked.contains_key(k) && !v.unacked.contains_key(
                k,
            ) implies u.unacked[k].is_mtu_probe || u.unacked[k].payload is Datagram
            || u.unacked[k].retries < 3 || u.unacked[k].retries > 10 by {
            assert(t.unacked.contains_key(k));
        }
    }
}

proof fn lemma_expired_on_below(t: TimeoutTally, hi: int, now: u64, rto: int)
    requires
        t.unacked.dom().finite(),
        hi <= u64::MAX + 1,
    ensures
        expired_on(t, expire_below(t, hi, now, rto)),
    decreases hi,
{
    if hi > 0 {
        lemma_expired_on_below(t, hi - 1, now, rto);
        let u = expire_below(t, hi - 1, now, rto);
        lemma_expired_on_step(u, (hi - 1) as u64, now, rto);
        lemma_expired_on_again(t, u, expire_below(t, hi, now, rto));
    }
}

/// What the retransmission timer does to one packet. It leaves if it has been out
/// for longer than the round-trip time and four times its variation, fifty
/// milliseconds at least. Its payload is then sent again, counted once more; after
/// eleven times it is given up. Probes and datagrams are neither.
pub proof fn law_a_packet_out_past_the_timeout_is_sent_again(conn: ZtConnection, now: u64, pn: u64)
    requires
        conn.wf(),
        conn.unacked_packets@.contains_key(pn),
    ensures
        ({
            let p = conn.unacked_packets@[pn];
            let out = now - p.sent_at;
            let due = out > conn.rtt + 4 * conn.rttvar && out > 50_000_000;
            let e = conn.expired(now);
            let kept = !p.is_mtu_probe && !(p.payload is Datagram);
            &&& e.unacked.contains_key(pn) <==> !due
            &&& e.unacked.contains_key(pn) ==> e.unacked[pn] == p
            &&& due && kept && p.retries <= 10 ==> e.resend.contains(
                (p.payload, (p.retries + 1) as u32),
            )
            &&& due && kept && p.retries > 10 ==> e.given_up
            &&& due && kept && 3 <= p.retries <= 10 ==> e.search.mtu <= conn.base_mtu
            &&& due && p.is_mtu_probe ==> !e.probes.contains_key(pn)
        }),
{
    let t = conn.timeout_tally(Seq::empty(), false);
    let rto = retransmission_timeout(conn.rtt, conn.rttvar);
    let e = conn.expired(now);
    law_expired_data_is_sent_again(t, u64::MAX + 1, now, rto);
    lemma_expired_on_below(t, u64::MAX + 1, now, rto);
    assert(t.unacked.contains_key(pn));
    assert(e.unacked.contains_key(pn) <==> t.unacked.contains_key(pn)
        && crate::congestion::elapsed(now, t.unacked[pn].sent_at) <= rto);
}

/// The retransmission timer makes nothing up. What is out was out before; what is
/// sent again was out for too long; a payload is given up only after eleven tries;
/// the bytes in flight go down by what left; the packet size falls back to the base
/// size only on account of a payload that was tried at least three times before,
/// and else stays as it is.
pub proof fn law_only_overdue_data_is_sent_again(conn: ZtConnection, now: u64)
    requires
        conn.wf(),
    ensures
        ({
            let e = conn.expired(now);
            let m = conn.unacked_packets@;
            let left = crate::totals::packet_total(m, wire_bytes()) - crate::totals::packet_total(e.unacked, wire_bytes());
            &&& forall|k: u64| #[trigger]
                e.unacked.contains_key(k) ==> m.contains_key(k) && e.unacked[k] == m[k]
            &&& forall|x: (UnackedPayload, u32)| #[trigger]
                e.resend.contains(x) ==> exists|k: u64| #[trigger]
                    m.contains_key(k) && !e.unacked.contains_key(k) && now - m[k].sent_at > conn.rtt
                        + 4 * conn.rttvar && now - m[k].sent_at > 50_000_000 && !m[k].is_mtu_probe
                        && !(m[k].payload is Datagram) && m[k].retries <= 10 && x.0 == m[k].payload
                        && x.1 == m[k].retries + 1
            &&& e.given_up ==> exists|k: u64| #[trigger]
                m.contains_key(k) && !e.unacked.contains_key(k) && !m[k].is_mtu_probe && !(
                m[k].payload is Datagram) && m[k].retries > 10
            &&& left >= 0
            &&& left <= conn.bytes_in_flight ==> e.in_flight + left == conn.bytes_in_flight
            &&& left > conn.bytes_in_flight ==> e.in_flight == 0
            &&& conn.packets_retransmitted + e.resend.len() <= u64::MAX ==> e.counters.1
                == conn.packets_retransmitted + e.resend.len()
            &&& e.resend.len() == crate::totals::packet_total(m, one_retried())
                - crate::totals::packet_total(e.unacked, one_retried())
            &&& ({
                let lost = crate::totals::packet_total(m, one_lost()) - crate::totals::packet_total(
                    e.unacked,
                    one_lost(),
                );
                conn.packets_lost + lost <= u64::MAX ==> e.counters.0 == conn.packets_lost + lost
            })
            &&& e.search.mtu == conn.mtu || e.search.mtu == conn.base_mtu
            &&& e.search.mtu != conn.mtu ==> exists|k: u64| #[trigger]
                m.contains_key(k) && !e.unacked.contains_key(k) && !m[k].is_mtu_probe && !(
                m[k].payload is Datagram) && m[k].retries >= 3
        }),
{
    let t = conn.timeout_tally(Seq::empty(), false);
    let rto = retransmission_timeout(conn.rtt, conn.rttvar);
    let e = conn.expired(now);
    let m = conn.unacked_packets@;
    law_expired_data_is_sent_again(t, u64::MAX + 1, now, rto);
    lemma_expired_on_below(t, u64::MAX + 1, now, rto);
    assert forall|x: (UnackedPayload, u32)| #[trigger] e.resend.contains(x) implies exists|k: u64|
        #[trigger] m.contains_key(k) && !e.unacked.contains_key(k) && now - m[k].sent_at > conn.rtt
            + 4 * conn.rttvar && now - m[k].sent_at > 50_000_000 && !m[k].is_mtu_probe && !(
        m[k].payload is Datagram) && m[k].retries <= 10 && x.0 == m[k].payload && x.1 == m[k].retries
            + 1 by {
        let i = choose|i: int| 0 <= i < e.resend.len() && e.resend[i] == x;
        assert(was_tried(t.unacked, e.unacked, e.resend[i]));
        let k = choose|k: u64| #[trigger]
            m.contains_key(k) && !e.unacked.contains_key(k) && !m[k].is_mtu_probe && !(
            m[k].payload is Datagram) && m[k].retries <= 10 && x.0 == m[k].payload && x.1
                == m[k].retries + 1;
        assert(t.unacked.contains_key(k));
        assert(e.unacked.contains_key(k) <==> crate::congestion::elapsed(now, m[k].sent_at)
            <= rto);
    }
}

/// The timeout is the round-trip time and four times its variation, but fifty
/// milliseconds at least.
pub proof fn law_timeouts_follow_the_round_trip(rtt: u64, rttvar: u64)
    ensures
        retransmission_timeout(rtt, rttvar) >= 50_000_000,
        retransmission_timeout(rtt, rttvar) >= rtt + 4 * rttvar,
        retransmission_timeout(rtt, rttvar) == 50_000_000 || retransmission_timeout(rtt, rttvar)
            == rtt + 4 * rttvar,
{
}

/// A packet's deadline lies one timeout after it was sent, and the wait doubles
/// with every retry up to the sixth. It never exceeds ten seconds.
pub proof fn law_deadlines_back_off(p: UnackedPacket, q: UnackedPacket, rto: int)
    requires
        q == (UnackedPacket { retries: (p.retries + 1) as u32, ..p }),
        p.retries < u32::MAX,
        rto > 0,
    ensures
        packet_deadline(p, rto) <= p.sent_at + 10_000_000_000,
        p.retries == 0 && rto <= 10_000_000_000 ==> packet_deadline(p, rto) == p.sent_at + rto,
        p.retries == 0 && rto > 10_000_000_000 ==> packet_deadline(p, rto) == p.sent_at
            + 10_000_000_000,
        ({
            let wait = packet_deadline(p, rto) - p.sent_at;
            let next = packet_deadline(q, rto) - p.sent_at;
            &&& p.retries < 6 && 2 * wait <= 10_000_000_000 ==> next == 2 * wait
            &&& p.retries < 6 && 2 * wait > 10_000_000_000 ==> next == 10_000_000_000
            &&& p.retries >= 6 ==> next == wait
        }),
{
    assert(rto * (2 * backoff(p.retries)) == 2 * (rto * backoff(p.retries))) by (nonlinear_arith);
    assert(rto * 1 == rto);
}

/// The clock stops at its largest value and otherwise tells the time.
pub proof fn law_the_clock_stops(t: int)
    ensures
        t <= u64::MAX ==> on_clock(t) == t,
        t > u64::MAX ==> on_clock(t) == u64::MAX,
{
}

/// Losses are counted one by one: every lost packet but probes once, and every
/// payload that is sent again once. `left` are the packets that did not arrive.
pub proof fn law_losses_are_counted_one_by_one(
    before: ZtConnection,
    largest: u64,
    window_size: u64,
    ack_delay_us: u64,
    ranges: Seq<(u64, u64)>,
    now: u64,
    scaled_rtt: u64,
    after: ZtConnection,
    r: AckOutcome,
    left: Map<u64, UnackedPacket>,
)
    requires
        before.wf(),
        before.acked_by(largest, window_size, ack_delay_us, ranges, now, scaled_rtt, &after, r),
        forall|k: u64| #[trigger]
            left.contains_key(k) <==> before.unacked_packets@.contains_key(k) && k + 2047 >= largest
                && (forall|i: int|
                0 <= i < ranges.len() ==> !((#[trigger] ranges[i]).0 <= k <= ranges[i].1)),
        forall|k: u64| #[trigger] left.contains_key(k) ==> left[k] == before.unacked_packets@[k],
    ensures
        forall|p: UnackedPacket| #[trigger]
            one_lost()(p) == if p.is_mtu_probe {
                0nat
            } else {
                1nat
            },
        forall|p: UnackedPacket| #[trigger]
            one_resent()(p) == if p.is_mtu_probe || p.payload is Datagram {
                0nat
            } else {
                1nat
            },
        r.fast_retransmits@.len() == crate::totals::packet_total(left, one_resent())
            - crate::totals::packet_total(after.unacked_packets@, one_resent()),
        ({
            let lost = crate::totals::packet_total(left, one_lost()) - crate::totals::packet_total(
                after.unacked_packets@,
                one_lost(),
            );
            &&& lost >= 0
            &&& before.packets_lost + lost <= u64::MAX ==> after.packets_lost == before.packets_lost
                + lost
        }),
{
    let sacked = ack_ranges(before.tally_start(), ranges, now);
    let floor: int = if largest < 2047 {
        0
    } else {
        largest - 2047
    };
    let retired = retire_below(sacked, floor, now);
    let lost = lose_below(
        loss_start(before, retired),
        largest as int,
        largest,
        now,
        loss_threshold(scaled_rtt),
    );
    lemma_ack_walk(before, largest, ranges, now, scaled_rtt, floor, sacked, retired, lost);
    assert forall|k: u64| #[trigger] retired.unacked.contains_key(k) <==> left.contains_key(k) by {
        assert(retired.unacked.contains_key(k) <==> sacked.unacked.contains_key(k) && k >= floor);
        assert(sacked.unacked.contains_key(k) <==> before.unacked_packets@.contains_key(k)
            && !in_ranges(ranges, k));
    }
    assert(retired.unacked =~= left);
}

} // verus!
