//! The state of a single connection to a remote peer.

use crate::ack_tracker::AckTracker;
use crate::addr::PeerAddr;
use crate::config::{ZtConfig, MILLISECOND};
use crate::congestion::{CongestionControlAlgorithm, CongestionController};
use crate::connection_state::{ConnectionState, TerminationReason};
use crate::error::ZtError;
use crate::replay_window::ReplayWindow;
use crate::space::{take_packet_number, PacketSpace};
use crate::stream_state::StreamState;
use crate::totals::key_list;
use crate::unacked::UnackedPayload;
use crate::unacked_window::UnackedWindow;
use bytes::Bytes;
use std::collections::{HashMap, VecDeque};
use vstd::prelude::*;

verus! {

broadcast use {vstd::std_specs::hash::group_hash_axioms, vstd::std_specs::vecdeque::group_vec_dequeue_axioms};

/// A single connection to a remote peer.
///
/// Holds all per-connection state: addressing, streams, packet tracking, and
/// congestion and flow control parameters. Times are nanoseconds on a monotonic
/// clock. The keys themselves live outside; `has_keys` tells whether there are any.
pub struct ZtConnection {
    pub addr: PeerAddr,
    pub dcid: Vec<u8>,
    pub scid: Vec<u8>,
    pub state: ConnectionState,
    pub next_packet_number: u64,
    pub has_keys: bool,
    pub initial_space: PacketSpace,
    pub handshake_space: PacketSpace,
    pub app_space: PacketSpace,
    pub streams: HashMap<u32, StreamState>,
    pub mtu_probes: HashMap<u64, usize>,
    pub unacked_packets: UnackedWindow,
    pub rtt: u64,
    pub rttvar: u64,
    pub rtt_initialized: bool,
    pub local_window: u64,
    pub remote_window: u64,
    pub cc: CongestionController,
    pub bytes_in_flight: usize,
    pub mtu: usize,
    pub mtu_min: usize,
    pub mtu_max: usize,
    pub base_mtu: usize,
    pub bytes_received: usize,
    pub bytes_sent: usize,
    pub conn_tx_offset: u64,
    pub unpaced_queue: VecDeque<(UnackedPayload, u32)>,
    pub queued_bytes: usize,
    pub replay_window: ReplayWindow,
    pub ack_tracker: AckTracker,
    pub current_key_epoch: u64,
    pub packets_since_key_update: u64,
    pub cookie: Option<Bytes>,
    pub handshake_packet: Option<Bytes>,
    pub closed: bool,
    pub largest_acked_received_at: Option<u64>,
    pub local_max_streams: u64,
    pub peer_max_streams: u64,
    pub peer_initial_stream_window: u64,
    pub peer_max_datagram_size: usize,
    pub idle_timeout: u64,
    pub termination: Option<TerminationReason>,
    pub packets_lost: u64,
    pub packets_retransmitted: u64,
    pub mtu_probe_successes: u64,
    pub mtu_probe_failures: u64,
    pub mtu_blackhole_recoveries: u64,
}

/// Each stream's value under `f`.
pub open spec fn per_stream(streams: Map<u32, StreamState>, f: spec_fn(StreamState) -> nat) -> Map<
    u32,
    nat,
> {
    streams.map_values(f)
}

/// What arrived on all streams and is waiting to be handed on.
pub open spec fn total_buffered(streams: Map<u32, StreamState>) -> nat {
    crate::totals::map_total(per_stream(streams, |s: StreamState| s.buffered_bytes as nat))
}

/// The memory that the receive buffers of all streams take.
pub open spec fn total_allocated(streams: Map<u32, StreamState>) -> nat {
    crate::totals::map_total(per_stream(streams, |s: StreamState| s.receive_buffer.capacity()))
}

/// The number `n` counted up, as far as it goes.
pub open spec fn counted_up(n: u64) -> u64 {
    if n == u64::MAX {
        n
    } else {
        (n + 1) as u64
    }
}

/// The first congestion window: ten packets.
pub open spec fn initial_window(mtu: usize) -> usize {
    if 10 * mtu > usize::MAX {
        usize::MAX
    } else {
        (10 * mtu) as usize
    }
}

/// Where the search for the packet size stands.
pub struct PathSearch {
    pub mtu: usize,
    /// The largest size that is known to get through.
    pub mtu_min: usize,
    /// The largest size that may get through.
    pub mtu_max: usize,
    pub base_mtu: usize,
    pub successes: u64,
    pub failures: u64,
    pub recoveries: u64,
}

impl PathSearch {
    /// A packet of this size got through.
    pub open spec fn passed(self, size: usize) -> PathSearch {
        PathSearch {
            successes: counted_up(self.successes),
            mtu_min: crate::congestion::larger(self.mtu_min, size),
            mtu: crate::congestion::larger(self.mtu, size),
            ..self
        }
    }

    /// A packet of this size did not get through.
    pub open spec fn failed(self, size: usize) -> PathSearch {
        PathSearch {
            failures: counted_up(self.failures),
            mtu_max: crate::congestion::smaller(
                self.mtu_max,
                crate::congestion::sat_sub(size, 1),
            ),
            ..self
        }
    }

    /// Packets of the current size stopped getting through.
    pub open spec fn fallen_back(self) -> PathSearch {
        if self.mtu <= self.base_mtu {
            self
        } else {
            PathSearch {
                mtu: self.base_mtu,
                mtu_min: self.base_mtu,
                mtu_max: crate::congestion::larger(
                    crate::congestion::sat_sub(self.mtu, 1),
                    self.base_mtu,
                ),
                recoveries: counted_up(self.recoveries),
                ..self
            }
        }
    }

    /// The size to probe for next, if any.
    pub open spec fn next_size(self) -> Option<usize> {
        let size = (self.mtu_min + (self.mtu_max - self.mtu_min) / 2) as usize;
        if self.mtu_max > self.mtu_min && size > self.mtu {
            Some(size)
        } else {
            None
        }
    }
}

impl ZtConnection {
    /// The parts are sound.
    pub open spec fn wf(&self) -> bool {
        &&& self.unacked_packets.wf()
        &&& self.replay_window.wf()
        &&& self.ack_tracker.wf()
        &&& self.initial_space.wf()
        &&& self.handshake_space.wf()
        &&& self.app_space.wf()
        &&& forall|id: u32| #[trigger] self.streams@.contains_key(id) ==> self.streams@[id].wf()
    }

    /// A connection with the default configuration.
    pub fn new(addr: PeerAddr, scid: Vec<u8>, dcid: Vec<u8>) -> (r: Self)
        ensures
            r.is_fresh(addr, scid@, dcid@, &ZtConfig::standard()),
    {
        Self::new_with_cc(addr, scid, dcid, CongestionControlAlgorithm::Cubic)
    }

    /// A connection with the default configuration but for the congestion controller.
    pub fn new_with_cc(
        addr: PeerAddr,
        scid: Vec<u8>,
        dcid: Vec<u8>,
        cc_algo: CongestionControlAlgorithm,
    ) -> (r: Self)
        ensures
            r.is_fresh(
                addr,
                scid@,
                dcid@,
                &(ZtConfig { cc_algorithm: cc_algo, ..ZtConfig::standard() }),
            ),
    {
        let base: ZtConfig = Default::default();
        let config = ZtConfig { cc_algorithm: cc_algo, ..base };
        Self::new_with_config(addr, scid, dcid, &config)
    }

    /// What a connection looks like on which nothing has happened.
    pub open spec fn is_fresh(
        &self,
        addr: PeerAddr,
        scid: Seq<u8>,
        dcid: Seq<u8>,
        config: &ZtConfig,
    ) -> bool {
        &&& self.wf()
        &&& self.addr == addr
        &&& self.scid@ == scid
        &&& self.dcid@ == dcid
        &&& self.state == ConnectionState::Handshaking
        &&& self.next_packet_number == 0
        &&& !self.has_keys
        &&& self.streams@ == Map::<u32, StreamState>::empty()
        &&& self.mtu_probes@ == Map::<u64, usize>::empty()
        &&& self.unacked_packets@ == Map::<u64, crate::unacked::UnackedPacket>::empty()
        &&& self.unacked_packets.base_pn == 0
        &&& self.initial_space.is_fresh()
        &&& self.handshake_space.is_fresh()
        &&& self.app_space.is_fresh()
        &&& self.rtt == 333 * MILLISECOND
        &&& self.rttvar == 166 * MILLISECOND
        &&& !self.rtt_initialized
        &&& self.local_window == config.initial_max_data
        &&& self.remote_window == config.initial_max_data
        &&& self.cc == CongestionController::fresh(
            config.cc_algorithm,
            initial_window(config.mtu_min),
            config.mtu_min,
        )
        &&& self.bytes_in_flight == 0
        &&& self.mtu == config.mtu_min
        &&& self.mtu_min == config.mtu_min
        &&& self.mtu_max == config.mtu_max
        &&& self.base_mtu == config.mtu_min
        &&& self.bytes_received == 0
        &&& self.bytes_sent == 0
        &&& self.conn_tx_offset == 0
        &&& self.unpaced_queue@ == Seq::<(UnackedPayload, u32)>::empty()
        &&& self.queued_bytes == 0
        &&& self.replay_window.highest_processed is None
        &&& self.replay_window.processed() == Set::<u64>::empty()
        &&& self.ack_tracker.highest_processed is None
        &&& self.ack_tracker.received() == Set::<u64>::empty()
        &&& self.current_key_epoch == 0
        &&& self.packets_since_key_update == 0
        &&& self.cookie is None
        &&& self.handshake_packet is None
        &&& !self.closed
        &&& self.largest_acked_received_at is None
        &&& self.local_max_streams == config.max_concurrent_streams
        &&& self.peer_max_streams == config.max_concurrent_streams
        &&& self.peer_initial_stream_window == config.initial_stream_window
        &&& self.peer_max_datagram_size == crate::congestion::sat_sub(config.mtu_min, 64)
        &&& self.idle_timeout == config.idle_timeout
        &&& self.termination is None
        &&& self.packets_lost == 0
        &&& self.packets_retransmitted == 0
        &&& self.mtu_probe_successes == 0
        &&& self.mtu_probe_failures == 0
        &&& self.mtu_blackhole_recoveries == 0
    }

    /// A connection with the given configuration.
    pub fn new_with_config(
        addr: PeerAddr,
        scid: Vec<u8>,
        dcid: Vec<u8>,
        config: &ZtConfig,
    ) -> (r: Self)
        ensures
            r.is_fresh(addr, scid@, dcid@, config),
    {
        let mtu: usize = config.mtu_min;
        let initial_cwnd: usize = if mtu > usize::MAX / 10 {
            usize::MAX
        } else {
            10 * mtu
        };
        ZtConnection {
            addr,
            dcid,
            scid,
            state: ConnectionState::Handshaking,
            next_packet_number: 0,
            has_keys: false,
            initial_space: PacketSpace::new(),
            handshake_space: PacketSpace::new(),
            app_space: PacketSpace::new(),
            streams: HashMap::new(),
            mtu_probes: HashMap::new(),
            unacked_packets: UnackedWindow::new(),
            rtt: 333 * MILLISECOND,
            rttvar: 166 * MILLISECOND,
            rtt_initialized: false,
            local_window: config.initial_max_data,
            remote_window: config.initial_max_data,
            cc: CongestionController::new(config.cc_algorithm, initial_cwnd, mtu),
            bytes_in_flight: 0,
            mtu,
            mtu_min: config.mtu_min,
            mtu_max: config.mtu_max,
            base_mtu: config.mtu_min,
            bytes_received: 0,
            bytes_sent: 0,
            conn_tx_offset: 0,
            unpaced_queue: VecDeque::new(),
            queued_bytes: 0,
            replay_window: ReplayWindow::new(),
            ack_tracker: AckTracker::new(),
            current_key_epoch: 0,
            packets_since_key_update: 0,
            cookie: None,
            handshake_packet: None,
            closed: false,
            largest_acked_received_at: None,
            local_max_streams: config.max_concurrent_streams,
            peer_max_streams: config.max_concurrent_streams,
            peer_initial_stream_window: config.initial_stream_window,
            peer_max_datagram_size: config.mtu_min.saturating_sub(64),
            idle_timeout: config.idle_timeout,
            termination: None,
            packets_lost: 0,
            packets_retransmitted: 0,
            mtu_probe_successes: 0,
            mtu_probe_failures: 0,
            mtu_blackhole_recoveries: 0,
        }
    }

    /// The next packet number; the last one is never given out.
    pub fn get_next_packet_number(&mut self) -> (r: Result<u64, ZtError>)
        ensures
            *final(self) == (ZtConnection {
                next_packet_number: final(self).next_packet_number,
                ..*old(self)
            }),
            match r {
                Ok(pn) => pn == old(self).next_packet_number && final(self).next_packet_number
                    == pn + 1,
                Err(e) => e is PacketNumberOverflow && old(self).next_packet_number == u64::MAX
                    && final(self).next_packet_number == u64::MAX,
            },
    {
        take_packet_number(&mut self.next_packet_number)
    }

    /// What arrived on all streams and is waiting to be handed on.
    pub fn get_total_buffered_bytes(&self) -> (r: usize)
        ensures
            r == crate::totals::clamped(total_buffered(self.streams@)),
    {
        let ids = key_list(&self.streams);
        let ghost sizes = per_stream(self.streams@, |s: StreamState| s.buffered_bytes as nat);
        let mut total: usize = 0;
        let mut i: usize = 0;
        assert(ids@.take(0) =~= Seq::<u32>::empty());
        while i < ids.len()
            invariant
                i <= ids@.len(),
                ids@.to_set() == self.streams@.dom(),
                sizes == per_stream(self.streams@, |s: StreamState| s.buffered_bytes as nat),
                total == crate::totals::clamped(
                    crate::totals::listed_total(sizes, ids@.take(i as int)),
                ),
            decreases ids@.len() - i,
        {
            let id: u32 = ids[i];
            assert(ids@.to_set().contains(id));
            if let Some(s) = self.streams.get(&id) {
                total = total.saturating_add(s.buffered_bytes);
            }
            assert(ids@.take(i + 1).drop_last() =~= ids@.take(i as int));
            i = i + 1;
        }
        proof {
            assert(ids@.take(ids@.len() as int) =~= ids@);
            assert(sizes.dom() =~= self.streams@.dom());
            crate::totals::lemma_listed_total(sizes, ids@);
        }
        total
    }

    /// The memory that the receive buffers of all streams take.
    pub fn total_allocated_buffer_size(&self) -> (r: usize)
        ensures
            r == crate::totals::clamped(total_allocated(self.streams@)),
    {
        let ids = key_list(&self.streams);
        let ghost sizes = per_stream(
            self.streams@,
            |s: StreamState| s.receive_buffer.capacity(),
        );
        let mut total: usize = 0;
        let mut i: usize = 0;
        assert(ids@.take(0) =~= Seq::<u32>::empty());
        while i < ids.len()
            invariant
                i <= ids@.len(),
                ids@.to_set() == self.streams@.dom(),
                sizes == per_stream(
                    self.streams@,
                    |s: StreamState| s.receive_buffer.capacity(),
                ),
                total == crate::totals::clamped(
                    crate::totals::listed_total(sizes, ids@.take(i as int)),
                ),
            decreases ids@.len() - i,
        {
            let id: u32 = ids[i];
            assert(ids@.to_set().contains(id));
            if let Some(s) = self.streams.get(&id) {
                total = total.saturating_add(s.receive_buffer.buffer.len());
            }
            assert(ids@.take(i + 1).drop_last() =~= ids@.take(i as int));
            i = i + 1;
        }
        proof {
            assert(ids@.take(ids@.len() as int) =~= ids@);
            assert(sizes.dom() =~= self.streams@.dom());
            crate::totals::lemma_listed_total(sizes, ids@);
        }
        total
    }

    /// Where the search for the packet size stands.
    pub open spec fn search(&self) -> PathSearch {
        PathSearch {
            mtu: self.mtu,
            mtu_min: self.mtu_min,
            mtu_max: self.mtu_max,
            base_mtu: self.base_mtu,
            successes: self.mtu_probe_successes,
            failures: self.mtu_probe_failures,
            recoveries: self.mtu_blackhole_recoveries,
        }
    }

    /// The connection with another standing of the search. The congestion
    /// controller follows the packet size.
    pub open spec fn with_search(&self, s: PathSearch) -> ZtConnection {
        ZtConnection {
            mtu: s.mtu,
            mtu_min: s.mtu_min,
            mtu_max: s.mtu_max,
            base_mtu: s.base_mtu,
            mtu_probe_successes: s.successes,
            mtu_probe_failures: s.failures,
            mtu_blackhole_recoveries: s.recoveries,
            cc: if s.mtu != self.mtu {
                self.cc.with_segment(s.mtu)
            } else {
                self.cc
            },
            ..*self
        }
    }

    /// A packet of `target_size` bytes got through.
    pub fn record_mtu_probe_success(&mut self, target_size: usize)
        ensures
            *final(self) == old(self).with_search(old(self).search().passed(target_size)),
    {
        self.mtu_probe_successes = self.mtu_probe_successes.saturating_add(1);
        if target_size > self.mtu_min {
            self.mtu_min = target_size;
        }
        if target_size > self.mtu {
            self.mtu = target_size;
            self.cc.set_mtu(target_size);
        }
    }

    /// A packet of `target_size` bytes did not get through.
    pub fn record_mtu_probe_failure(&mut self, target_size: usize)
        ensures
            *final(self) == old(self).with_search(old(self).search().failed(target_size)),
    {
        self.mtu_probe_failures = self.mtu_probe_failures.saturating_add(1);
        let below: usize = target_size.saturating_sub(1);
        if below < self.mtu_max {
            self.mtu_max = below;
        }
    }

    /// Falls back to the base packet size after larger packets stopped getting
    /// through, and searches anew below the size that failed. Returns whether
    /// there was anything to fall back from.
    pub fn recover_mtu_blackhole(&mut self) -> (r: bool)
        ensures
            r == (old(self).mtu > old(self).base_mtu),
            *final(self) == old(self).with_search(old(self).search().fallen_back()),
    {
        if self.mtu <= self.base_mtu {
            return false;
        }
        let previous_mtu: usize = self.mtu;
        self.mtu = self.base_mtu;
        self.mtu_min = self.base_mtu;
        let below: usize = previous_mtu.saturating_sub(1);
        self.mtu_max = if below > self.base_mtu {
            below
        } else {
            self.base_mtu
        };
        let base: usize = self.base_mtu;
        self.cc.set_mtu(base);
        self.mtu_blackhole_recoveries = self.mtu_blackhole_recoveries.saturating_add(1);
        true
    }

    /// The size to probe for next, if any: half way between the largest size
    /// that is known to get through and the largest that may.
    pub fn next_probe_size(&self) -> (r: Option<usize>)
        ensures
            r == self.search().next_size(),
    {
        if self.mtu_max <= self.mtu_min {
            return None;
        }
        let size: usize = self.mtu_min + (self.mtu_max - self.mtu_min) / 2;
        if size > self.mtu {
            Some(size)
        } else {
            None
        }
    }

    /// Whether a packet number has already been processed, or is too old to tell.
    pub fn is_replay(&self, pn: u64) -> (r: bool)
        requires
            self.wf(),
        ensures
            r == self.replay_window.refuses(pn),
    {
        self.replay_window.is_replay(pn)
    }

    /// Records that `pn` was received and processed at `now`.
    pub fn mark_processed(&mut self, pn: u64, now: u64)
        requires
            old(self).wf(),
        ensures
            final(self).wf(),
            *final(self) == (ZtConnection {
                replay_window: final(self).replay_window,
                ack_tracker: final(self).ack_tracker,
                largest_acked_received_at: if old(self).ack_tracker.highest_processed is None || pn
                    >= old(self).ack_tracker.highest_processed->0 {
                    Some(now)
                } else {
                    old(self).largest_acked_received_at
                },
                ..*old(self)
            }),
            final(self).replay_window.highest_processed == Some(
                crate::bitmap::raised(old(self).replay_window.highest_processed, pn),
            ),
            final(self).replay_window.processed() == crate::bitmap::slide(
                old(self).replay_window.processed(),
                old(self).replay_window.highest_processed,
                pn,
            ),
            final(self).ack_tracker.highest_processed == Some(
                crate::bitmap::raised(old(self).ack_tracker.highest_processed, pn),
            ),
            final(self).ack_tracker.received() == crate::bitmap::slide(
                old(self).ack_tracker.received(),
                old(self).ack_tracker.highest_processed,
                pn,
            ),
    {
        let is_new_highest = match self.ack_tracker.highest_processed {
            None => true,
            Some(h) => pn >= h,
        };
        if is_new_highest {
            self.largest_acked_received_at = Some(now);
        }
        self.replay_window.mark_processed(pn);
        self.ack_tracker.mark_processed(pn);
    }

    /// The received packets as ranges for selective acknowledgement.
    pub fn get_ack_ranges(&self) -> (ranges: Vec<(u64, u64)>)
        requires
            self.wf(),
        ensures
            crate::ack_tracker::lists_runs(
                self.ack_tracker.received(),
                crate::ack_tracker::MAX_ACK_RANGES as nat,
                ranges@,
            ),
    {
        self.ack_tracker.get_ack_ranges()
    }
}

/// Probing outcomes only ever narrow the search: a success raises the lower
/// bound to at least its size, a failure lowers the upper bound below its size.
pub proof fn law_probe_results_narrow_the_search(s: PathSearch, size: usize)
    ensures
        s.passed(size).mtu_min >= size,
        s.passed(size).mtu_min >= s.mtu_min,
        s.passed(size).mtu_max == s.mtu_max,
        size > 0 ==> s.failed(size).mtu_max < size,
        s.failed(size).mtu_max <= s.mtu_max,
        s.failed(size).mtu_min == s.mtu_min,
{
}

/// The search is a binary one: whatever comes of a probe, what is left to search
/// is at most half of what there was, rounded up.
pub proof fn law_every_probe_halves_the_search(s: PathSearch)
    requires
        s.next_size() is Some,
    ensures
        s.mtu_min <= s.next_size()->0 < s.mtu_max,
        ({
            let size = s.next_size()->0;
            let width = s.mtu_max - s.mtu_min;
            let hit = s.passed(size);
            let miss = s.failed(size);
            &&& hit.mtu_max - hit.mtu_min <= (width + 1) / 2
            &&& miss.mtu_max - miss.mtu_min <= (width + 1) / 2
        }),
{
}

/// After a fallback the search starts again from the base size and stays below
/// the size that stopped getting through.
pub proof fn law_fallback_searches_below_the_failed_size(s: PathSearch)
    requires
        s.mtu > s.base_mtu,
    ensures
        s.fallen_back().mtu == s.base_mtu,
        s.fallen_back().mtu_min == s.base_mtu,
        s.fallen_back().mtu_max < s.mtu,
        s.fallen_back().next_size() matches Some(size) ==> s.base_mtu < size < s.mtu,
{
}

/// The totals are sums over the streams: nothing for no stream, and with every
/// stream what that stream holds on top of the others.
pub proof fn law_totals_are_sums(streams: Map<u32, StreamState>, id: u32, s: StreamState)
    requires
        streams.dom().finite(),
    ensures
        total_buffered(Map::empty()) == 0,
        total_allocated(Map::empty()) == 0,
        total_buffered(streams.insert(id, s)) == s.buffered_bytes + total_buffered(
            streams.remove(id),
        ),
        total_allocated(streams.insert(id, s)) == s.receive_buffer.buffer@.len() + total_allocated(
            streams.remove(id),
        ),
        streams.contains_key(id) ==> total_buffered(streams) == streams[id].buffered_bytes
            + total_buffered(streams.remove(id)),
        streams.contains_key(id) ==> total_allocated(streams)
            == streams[id].receive_buffer.buffer@.len() + total_allocated(streams.remove(id)),
{
    let f = |x: StreamState| x.buffered_bytes as nat;
    let g = |x: StreamState| x.receive_buffer.capacity();
    let more = streams.insert(id, s);
    assert(more.remove(id) =~= streams.remove(id));
    lemma_per_stream_total(more, id, f);
    lemma_per_stream_total(more, id, g);
    if streams.contains_key(id) {
        lemma_per_stream_total(streams, id, f);
        lemma_per_stream_total(streams, id, g);
    }
    assert(per_stream(Map::<u32, StreamState>::empty(), f).dom() =~= Set::<u32>::empty());
    assert(per_stream(Map::<u32, StreamState>::empty(), g).dom() =~= Set::<u32>::empty());
}

proof fn lemma_per_stream_total(
    streams: Map<u32, StreamState>,
    id: u32,
    f: spec_fn(StreamState) -> nat,
)
    requires
        streams.dom().finite(),
        streams.contains_key(id),
    ensures
        crate::totals::map_total(per_stream(streams, f)) == f(streams[id])
            + crate::totals::map_total(per_stream(streams.remove(id), f)),
{
    let sizes = per_stream(streams, f);
    assert(sizes.dom() =~= streams.dom());
    crate::totals::lemma_map_total_remove(sizes, id);
    assert(sizes.remove(id) =~= per_stream(streams.remove(id), f));
}

/// What a probe shows is taken to heart, and nothing else: a success makes its
/// size usable at once, a failure rules it out and leaves the size in use.
pub proof fn law_probes_settle_sizes(s: PathSearch, size: usize)
    ensures
        ({
            let hit = s.passed(size);
            &&& hit.mtu >= size && hit.mtu >= s.mtu && (hit.mtu == size || hit.mtu == s.mtu)
            &&& hit.mtu_min >= size && hit.mtu_min >= s.mtu_min && (hit.mtu_min == size
                || hit.mtu_min == s.mtu_min)
            &&& hit.mtu_max == s.mtu_max && hit.base_mtu == s.base_mtu
            &&& s.successes < u64::MAX ==> hit.successes == s.successes + 1
            &&& hit.failures == s.failures && hit.recoveries == s.recoveries
        }),
        ({
            let miss = s.failed(size);
            &&& miss.mtu == s.mtu && miss.mtu_min == s.mtu_min && miss.base_mtu == s.base_mtu
            &&& size > 0 ==> miss.mtu_max < size && miss.mtu_max <= s.mtu_max && (miss.mtu_max + 1
                == size || miss.mtu_max == s.mtu_max)
            &&& s.failures < u64::MAX ==> miss.failures == s.failures + 1
            &&& miss.successes == s.successes && miss.recoveries == s.recoveries
        }),
{
}

/// The next probe is half way between what gets through and what may, and there
/// is one as long as that is above the size in use.
pub proof fn law_probes_go_half_way(s: PathSearch)
    requires
        s.mtu_min <= s.mtu,
    ensures
        s.next_size() matches Some(size) ==> size - s.mtu_min <= s.mtu_max - size <= size
            - s.mtu_min + 1 && size > s.mtu && size < s.mtu_max,
        s.next_size() is None && s.mtu_min < s.mtu_max ==> (s.mtu - s.mtu_min) * 2 + 1 >= s.mtu_max
            - s.mtu_min,
        s.mtu_max <= s.mtu_min ==> s.next_size() is None,
{
}

/// A fallback is counted, and goes all the way to the base size; from there the
/// search goes on up to just below the size that failed. At the base size there is
/// nothing to fall back from.
pub proof fn law_fallbacks_go_to_the_base_size(s: PathSearch)
    ensures
        s.mtu <= s.base_mtu ==> s.fallen_back() == s,
        s.mtu > s.base_mtu ==> ({
            let t = s.fallen_back();
            &&& t.mtu == s.base_mtu && t.mtu_min == s.base_mtu && t.base_mtu == s.base_mtu
            &&& t.mtu_max + 1 == s.mtu
            &&& s.recoveries < u64::MAX ==> t.recoveries == s.recoveries + 1
            &&& t.successes == s.successes && t.failures == s.failures
        }),
{
}

/// The congestion controller counts in packets of the size in use.
pub proof fn law_segments_follow_the_packet_size(conn: ZtConnection, s: PathSearch)
    ensures
        conn.with_search(s).mtu == s.mtu && conn.with_search(s).mtu_min == s.mtu_min
            && conn.with_search(s).mtu_max == s.mtu_max && conn.with_search(s).base_mtu
            == s.base_mtu,
        conn.with_search(s).search() == s,
        conn.with_search(conn.search()) == conn,
        conn.search().mtu == conn.mtu && conn.search().mtu_min == conn.mtu_min
            && conn.search().mtu_max == conn.mtu_max && conn.search().base_mtu == conn.base_mtu,
        conn.search().successes == conn.mtu_probe_successes && conn.search().failures
            == conn.mtu_probe_failures && conn.search().recoveries == conn.mtu_blackhole_recoveries,
        s.mtu != conn.mtu ==> (conn.with_search(s).cc matches CongestionController::Cubic(c)
            ==> c.mtu == s.mtu) && (conn.with_search(s).cc matches CongestionController::Reno(c)
            ==> c.mtu == s.mtu),
        s.mtu == conn.mtu ==> conn.with_search(s).cc == conn.cc,
        conn.with_search(s).unacked_packets == conn.unacked_packets && conn.with_search(s).rtt
            == conn.rtt && conn.with_search(s).streams == conn.streams && conn.with_search(
            s,
        ).bytes_in_flight == conn.bytes_in_flight,
{
}

/// A new connection starts from the configuration: in its handshake, with nothing
/// sent or received, a first guess of 333 milliseconds for the round trip, ten
/// packets of the smallest size to start with, and the windows and limits that
/// the configuration names.
pub proof fn law_new_connections_follow_the_configuration(
    conn: ZtConnection,
    addr: PeerAddr,
    scid: Seq<u8>,
    dcid: Seq<u8>,
    config: &ZtConfig,
)
    requires
        conn.is_fresh(addr, scid, dcid, config),
    ensures
        conn.addr == addr && conn.scid@ == scid && conn.dcid@ == dcid,
        conn.state == ConnectionState::Handshaking && !conn.has_keys && !conn.closed
            && conn.termination is None,
        conn.next_packet_number == 0 && conn.unacked_packets@.dom() == Set::<u64>::empty()
            && conn.streams@.dom() == Set::<u32>::empty() && conn.unpaced_queue@.len() == 0,
        conn.rtt == 333_000_000 && conn.rttvar == 166_000_000 && !conn.rtt_initialized,
        conn.local_window == config.initial_max_data && conn.remote_window
            == config.initial_max_data,
        conn.mtu == config.mtu_min && conn.mtu_min == config.mtu_min && conn.base_mtu
            == config.mtu_min && conn.mtu_max == config.mtu_max,
        10 * config.mtu_min <= usize::MAX ==> conn.cc.window() == 10 * config.mtu_min,
        conn.cc.segment() == config.mtu_min && conn.cc.threshold() == usize::MAX,
        conn.cc is Cubic <==> config.cc_algorithm == CongestionControlAlgorithm::Cubic,
        conn.local_max_streams == config.max_concurrent_streams && conn.peer_max_streams
            == config.max_concurrent_streams,
        conn.peer_initial_stream_window == config.initial_stream_window,
        config.mtu_min >= 64 ==> conn.peer_max_datagram_size + 64 == config.mtu_min,
        conn.idle_timeout == config.idle_timeout,
        conn.bytes_in_flight == 0 && conn.bytes_sent == 0 && conn.bytes_received == 0
            && conn.queued_bytes == 0 && conn.conn_tx_offset == 0,
        conn.current_key_epoch == 0 && conn.packets_since_key_update == 0,
        forall|pn: u64| !#[trigger] conn.replay_window.refuses(pn),
        forall|pn: u64| !#[trigger] conn.ack_tracker.received().contains(pn),
{
}

/// Counters count up by one until they are at their largest.
pub proof fn law_counters_count(n: u64)
    ensures
        n < u64::MAX ==> counted_up(n) == n + 1,
        counted_up(u64::MAX) == u64::MAX,
{
}

} // verus!
