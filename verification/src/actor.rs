//! The owner of a connection: what it sends, and what it keeps of it.
//!
//! The methods decide; the caller encrypts, sends and reports back. A packet is
//! sent in three steps: a plan, the sending itself, and a note that it was sent.

use crate::addr::PeerAddr;
use crate::connection::ZtConnection;
use crate::connection_state::ConnectionState;
use crate::error::ZtError;
use crate::frame::Frame;
use crate::unacked::{UnackedPacket, UnackedPayload};
use crate::wire::copy_bytes;
use vstd::prelude::*;

verus! {

broadcast use {vstd::std_specs::hash::group_hash_axioms, vstd::std_specs::vecdeque::group_vec_dequeue_axioms};

/// Keys are changed after so many packets.
pub const KEY_UPDATE_PACKET_INTERVAL: u64 = 1_048_576;

/// The connection-level receive window is so large when nothing is buffered.
pub const CONNECTION_WINDOW: u64 = 1_048_576;

/// Owns the state of one connection and takes its decisions.
pub struct ZtConnectionActor {
    pub state: ZtConnection,
    pub pending_acks: u32,
    pub is_client: bool,
    pub next_stream_id: u32,
    pub last_active_stream_id: u32,
    /// The receive window of a new stream.
    pub initial_stream_window: u64,
    pub pending_validation_addr: Option<PeerAddr>,
    pub path_validation_token: Option<[u8; 8]>,
    pub path_validation_sent_at: Option<u64>,
    pub path_validation_retries: u32,
    pub socket_blocked: bool,
}

/// How to send a packet.
pub struct SendPlan {
    pub packet_number: u64,
    pub key_phase: bool,
    /// The number relative to which the packet number is shortened.
    pub reference: u64,
    pub dcid: Vec<u8>,
}

/// The lowest number relative to which a packet number is shortened: one below
/// the lowest packet that is out.
pub open spec fn number_reference(unacked: Map<u64, UnackedPacket>, pn: u64, reference: u64) -> bool {
    if unacked == Map::<u64, UnackedPacket>::empty() {
        reference == if pn == 0 {
            0
        } else {
            pn - 1
        }
    } else {
        exists|k: u64| #[trigger]
            unacked.contains_key(k) && (forall|j: u64| #[trigger]
                unacked.contains_key(j) ==> k <= j) && reference == if k == 0 {
                0
            } else {
                k - 1
            }
    }
}

impl ZtConnectionActor {
    /// The connection is sound, a receive window can be allocated, and the next
    /// stream that this side opens has an id of its parity.
    pub open spec fn wf(&self) -> bool {
        &&& self.state.wf()
        &&& self.initial_stream_window <= isize::MAX
        &&& self.next_stream_id % 2 == self.local_parity()
    }

    /// An actor for a connection. Clients use even stream ids, servers odd ones.
    /// Stream 0 is made by the handshake, so a client starts at 2.
    pub fn new(state: ZtConnection, initial_stream_window: u64, is_client: bool) -> (r: Self)
        requires
            state.wf(),
            initial_stream_window <= isize::MAX,
        ensures
            r.wf(),
            r == (ZtConnectionActor {
                state,
                pending_acks: 0,
                is_client,
                next_stream_id: if is_client {
                    2
                } else {
                    1
                },
                last_active_stream_id: 0,
                initial_stream_window,
                pending_validation_addr: None,
                path_validation_token: None,
                path_validation_sent_at: None,
                path_validation_retries: 0,
                socket_blocked: false,
            }),
    {
        let next_stream_id: u32 = if is_client {
            2
        } else {
            1
        };
        ZtConnectionActor {
            state,
            pending_acks: 0,
            is_client,
            next_stream_id,
            last_active_stream_id: 0,
            initial_stream_window,
            pending_validation_addr: None,
            path_validation_token: None,
            path_validation_sent_at: None,
            path_validation_retries: 0,
            socket_blocked: false,
        }
    }

    /// The key phase bit for outgoing packets.
    pub fn current_key_phase(&self) -> (r: bool)
        ensures
            r == (self.state.current_key_epoch % 2 == 1),
    {
        self.state.current_key_epoch % 2 != 0
    }

    /// Whether the keys are due after one more packet.
    pub open spec fn key_update_due(&self) -> bool {
        self.state.state == ConnectionState::Active && self.state.has_keys
            && crate::connection::counted_up(self.state.packets_since_key_update)
            >= KEY_UPDATE_PACKET_INTERVAL
    }

    /// The connection after one more packet was sent: packets are counted, and
    /// the key epoch moves on when they are due.
    pub open spec fn packet_noted(&self) -> ZtConnection {
        if self.state.state != ConnectionState::Active || !self.state.has_keys {
            self.state
        } else if self.key_update_due() {
            ZtConnection {
                current_key_epoch: crate::connection::counted_up(self.state.current_key_epoch),
                packets_since_key_update: 0,
                ..self.state
            }
        } else {
            ZtConnection {
                packets_since_key_update: crate::connection::counted_up(
                    self.state.packets_since_key_update,
                ),
                ..self.state
            }
        }
    }

    /// Notes that a packet was sent. Returns whether the keys have to be rotated.
    pub fn note_packet_sent(&mut self) -> (r: bool)
        ensures
            r == old(self).key_update_due(),
            *final(self) == (ZtConnectionActor { state: old(self).packet_noted(), ..*old(self) }),
    {
        if self.state.state != ConnectionState::Active {
            return false;
        }
        if !self.state.has_keys {
            return false;
        }
        self.state.packets_since_key_update = self.state.packets_since_key_update.saturating_add(1);
        if self.state.packets_since_key_update >= KEY_UPDATE_PACKET_INTERVAL {
            self.state.current_key_epoch = self.state.current_key_epoch.saturating_add(1);
            self.state.packets_since_key_update = 0;
            return true;
        }
        false
    }

    /// Whether a server may send so many bytes to an address that is not
    /// validated yet: at most three times what came from there.
    pub open spec fn within_amplification_limit(&self, total_len: usize) -> bool {
        self.is_client || self.state.state != ConnectionState::Handshaking || self.state.bytes_sent
            + total_len <= 3 * crate::congestion::larger(self.state.bytes_received, 1)
    }

    /// Whether so many bytes may be sent now.
    pub fn may_send(&self, total_len: usize) -> (r: bool)
        ensures
            r == self.within_amplification_limit(total_len),
    {
        let received: u128 = if self.state.bytes_received > 1 {
            self.state.bytes_received as u128
        } else {
            1
        };
        self.is_client || self.state.state != ConnectionState::Handshaking
            || self.state.bytes_sent as u128 + total_len as u128 <= 3 * received
    }

    /// Counts bytes that were sent.
    pub fn record_sent(&mut self, total_len: usize)
        ensures
            *final(self) == (ZtConnectionActor {
                state: ZtConnection {
                    bytes_sent: crate::congestion::sat_add(old(self).state.bytes_sent, total_len),
                    ..old(self).state
                },
                ..*old(self)
            }),
    {
        self.state.bytes_sent = self.state.bytes_sent.saturating_add(total_len);
    }

    /// Takes a packet number and says how to send the packet with it. A number
    /// is used up even if there are no keys to send with.
    pub fn plan_packet(&mut self) -> (r: Result<SendPlan, ZtError>)
        requires
            old(self).wf(),
        ensures
            final(self).wf(),
            *final(self) == (ZtConnectionActor {
                state: ZtConnection {
                    next_packet_number: if old(self).state.next_packet_number == u64::MAX {
                        u64::MAX
                    } else {
                        (old(self).state.next_packet_number + 1) as u64
                    },
                    ..old(self).state
                },
                ..*old(self)
            }),
            match r {
                Err(e) => e == if old(self).state.next_packet_number == u64::MAX {
                    ZtError::PacketNumberOverflow
                } else {
                    ZtError::Unauthorized
                } && (old(self).state.next_packet_number == u64::MAX || !old(self).state.has_keys),
                Ok(p) => {
                    &&& old(self).state.has_keys
                    &&& p.packet_number == old(self).state.next_packet_number < u64::MAX
                    &&& old(self).plan_fits(p)
                },
            },
    {
        let plan = match self.number_packet() {
            Ok(p) => p,
            Err(e) => {
                return Err(e);
            },
        };
        if !self.state.has_keys {
            return Err(ZtError::Unauthorized);
        }
        Ok(plan)
    }

    /// Whether a plan has the connection's key phase, destination and reference.
    pub open spec fn plan_fits(&self, p: SendPlan) -> bool {
        &&& p.key_phase == (self.state.current_key_epoch % 2 == 1)
        &&& p.dcid@ == self.state.dcid@
        &&& number_reference(self.state.unacked_packets@, p.packet_number, p.reference)
    }

    pub(crate) fn number_packet(&mut self) -> (r: Result<SendPlan, ZtError>)
        requires
            old(self).wf(),
        ensures
            final(self).wf(),
            *final(self) == (ZtConnectionActor {
                state: ZtConnection {
                    next_packet_number: if old(self).state.next_packet_number == u64::MAX {
                        u64::MAX
                    } else {
                        (old(self).state.next_packet_number + 1) as u64
                    },
                    ..old(self).state
                },
                ..*old(self)
            }),
            match r {
                Err(e) => e is PacketNumberOverflow && old(self).state.next_packet_number
                    == u64::MAX,
                Ok(p) => p.packet_number == old(self).state.next_packet_number < u64::MAX && old(
                    self,
                ).plan_fits(p),
            },
    {
        let pn: u64 = match self.state.get_next_packet_number() {
            Ok(n) => n,
            Err(e) => {
                return Err(e);
            },
        };
        let lowest: u64 = match self.state.unacked_packets.lowest() {
            Some(k) => k,
            None => pn,
        };
        let key_phase = self.current_key_phase();
        Ok(
            SendPlan {
                packet_number: pn,
                key_phase,
                reference: lowest.saturating_sub(1),
                dcid: copy_bytes(self.state.dcid.as_slice()),
            },
        )
    }

    /// Keeps a sent payload until it is acknowledged. Returns whether the keys
    /// have to be rotated.
    pub fn payload_sent(
        &mut self,
        pn: u64,
        payload: UnackedPayload,
        retries: u32,
        packet_len: usize,
        now: u64,
    ) -> (r: bool)
        requires
            old(self).wf(),
            pn >= old(self).state.unacked_packets.base_pn ==> pn
                - old(self).state.unacked_packets.base_pn < usize::MAX,
        ensures
            final(self).wf(),
            r == old(self).key_update_due(),
            *final(self) == (ZtConnectionActor {
                state: ZtConnection {
                    unacked_packets: final(self).state.unacked_packets,
                    bytes_in_flight: crate::congestion::sat_add(
                        old(self).state.bytes_in_flight,
                        packet_len,
                    ),
                    ..old(self).packet_noted()
                },
                ..*old(self)
            }),
            final(self).state.unacked_packets@ == old(self).with_sent(
                pn,
                UnackedPacket {
                    payload,
                    sent_at: now,
                    retries,
                    is_mtu_probe: payload is MtuProbe,
                    sent_bytes: packet_len,
                },
            ),
    {
        let is_mtu_probe = match &payload {
            UnackedPayload::MtuProbe { .. } => true,
            _ => false,
        };
        self.state.unacked_packets.insert(
            pn,
            UnackedPacket { payload, sent_at: now, retries, is_mtu_probe, sent_bytes: packet_len },
        );
        self.state.bytes_in_flight = self.state.bytes_in_flight.saturating_add(packet_len);
        self.note_packet_sent()
    }

    /// The packets that are out once `packet` was sent with number `pn`; one
    /// numbered below all that are out is not kept.
    pub open spec fn with_sent(&self, pn: u64, packet: UnackedPacket) -> Map<u64, UnackedPacket> {
        if self.state.unacked_packets@.dom().len() == 0 || pn
            >= self.state.unacked_packets.base_pn {
            self.state.unacked_packets@.insert(pn, packet)
        } else {
            self.state.unacked_packets@
        }
    }

    /// The window that is left on the connection: what is not taken by data
    /// waiting to be handed on.
    pub open spec fn window_left(&self) -> u64 {
        let total = crate::connection::total_buffered(self.state.streams@);
        if total >= CONNECTION_WINDOW {
            0
        } else {
            (CONNECTION_WINDOW - total) as u64
        }
    }

    fn refresh_window(&mut self)
        ensures
            *final(self) == (ZtConnectionActor {
                state: ZtConnection { local_window: old(self).window_left(), ..old(self).state },
                ..*old(self)
            }),
    {
        let total: u64 = self.state.get_total_buffered_bytes() as u64;
        self.state.local_window = CONNECTION_WINDOW.saturating_sub(total);
    }

    /// Says how to probe for a larger packet size, if the connection is active
    /// and there is a larger size to try.
    pub fn plan_mtu_probe(&mut self) -> (r: Result<Option<(SendPlan, usize)>, ZtError>)
        requires
            old(self).wf(),
        ensures
            final(self).wf(),
            ({
                let probe = old(self).state.search().next_size();
                let due = old(self).state.state == ConnectionState::Active && probe is Some;
                if !due {
                    r == Ok::<Option<(SendPlan, usize)>, ZtError>(None) && *final(self) == *old(
                        self,
                    )
                } else if old(self).state.next_packet_number == u64::MAX {
                    r == Err::<Option<(SendPlan, usize)>, ZtError>(ZtError::PacketNumberOverflow)
                        && *final(self) == *old(self)
                } else {
                    &&& *final(self) == (ZtConnectionActor {
                        state: ZtConnection {
                            next_packet_number: (old(self).state.next_packet_number + 1) as u64,
                            local_window: old(self).window_left(),
                            ..old(self).state
                        },
                        ..*old(self)
                    })
                    &&& !old(self).state.has_keys ==> r == Err::<
                        Option<(SendPlan, usize)>,
                        ZtError,
                    >(ZtError::Unauthorized)
                    &&& old(self).state.has_keys ==> (r matches Ok(Some((p, size))) && size
                        == probe->0 && p.packet_number == old(self).state.next_packet_number
                        && old(self).plan_fits(p))
                }
            }),
    {
        if self.state.state != ConnectionState::Active {
            return Ok(None);
        }
        let target_size: usize = match self.state.next_probe_size() {
            Some(s) => s,
            None => {
                return Ok(None);
            },
        };
        let plan = match self.number_packet() {
            Ok(p) => p,
            Err(e) => {
                return Err(e);
            },
        };
        self.refresh_window();
        if !self.state.has_keys {
            return Err(ZtError::Unauthorized);
        }
        Ok(Some((plan, target_size)))
    }

    /// Keeps a sent probe until it is acknowledged. Probes do not count as
    /// bytes in flight. Returns whether the keys have to be rotated.
    pub fn mtu_probe_sent(&mut self, pn: u64, target_size: usize, sent_bytes: usize, now: u64) -> (r:
        bool)
        requires
            old(self).wf(),
            pn >= old(self).state.unacked_packets.base_pn ==> pn
                - old(self).state.unacked_packets.base_pn < usize::MAX,
        ensures
            final(self).wf(),
            r == old(self).key_update_due(),
            *final(self) == (ZtConnectionActor {
                state: ZtConnection {
                    unacked_packets: final(self).state.unacked_packets,
                    mtu_probes: final(self).state.mtu_probes,
                    ..old(self).packet_noted()
                },
                ..*old(self)
            }),
            final(self).state.unacked_packets@ == old(self).with_sent(
                pn,
                UnackedPacket {
                    payload: UnackedPayload::MtuProbe { target_size },
                    sent_at: now,
                    retries: 0,
                    is_mtu_probe: true,
                    sent_bytes,
                },
            ),
            final(self).state.mtu_probes@ == old(self).state.mtu_probes@.insert(pn, target_size),
    {
        self.state.unacked_packets.insert(
            pn,
            UnackedPacket {
                payload: UnackedPayload::MtuProbe { target_size },
                sent_at: now,
                retries: 0,
                is_mtu_probe: true,
                sent_bytes,
            },
        );
        self.state.mtu_probes.insert(pn, target_size);
        self.note_packet_sent()
    }

    /// How long the peer's newest packet has been waiting for its
    /// acknowledgement, in microseconds.
    pub open spec fn ack_delay(&self, now: u64) -> u64 {
        match self.state.largest_acked_received_at {
            Some(t) => crate::congestion::elapsed(now, t) / 1000,
            None => 0,
        }
    }

    /// Says what acknowledgement to send and how, if any is pending.
    pub fn plan_acks(&mut self, now: u64) -> (r: Result<Option<(SendPlan, Frame)>, ZtError>)
        requires
            old(self).wf(),
        ensures
            final(self).wf(),
            if old(self).pending_acks == 0 {
                r == Ok::<Option<(SendPlan, Frame)>, ZtError>(None) && *final(self) == *old(self)
            } else if old(self).state.next_packet_number == u64::MAX {
                r == Err::<Option<(SendPlan, Frame)>, ZtError>(ZtError::PacketNumberOverflow)
                    && *final(self) == *old(self)
            } else {
                &&& *final(self) == (ZtConnectionActor {
                    state: ZtConnection {
                        next_packet_number: (old(self).state.next_packet_number + 1) as u64,
                        local_window: old(self).window_left(),
                        ..old(self).state
                    },
                    ..*old(self)
                })
                &&& !old(self).state.has_keys ==> r == Err::<Option<(SendPlan, Frame)>, ZtError>(
                    ZtError::Unauthorized,
                )
                &&& old(self).state.has_keys ==> (r matches Ok(Some((p, frame)))
                    && p.packet_number == old(self).state.next_packet_number && old(
                    self,
                ).plan_fits(p) && old(self).acknowledges(frame, now))
            },
            r matches Ok(Some((p, frame))) ==> ({
                let buffered = crate::connection::total_buffered(old(self).state.streams@);
                &&& frame is Ack
                &&& buffered <= 1_048_576 ==> frame->window_size + buffered == 1_048_576
                &&& buffered > 1_048_576 ==> frame->window_size == 0
            }),
    {
        if self.pending_acks == 0 {
            return Ok(None);
        }
        let plan = match self.number_packet() {
            Ok(p) => p,
            Err(e) => {
                return Err(e);
            },
        };
        self.refresh_window();
        let ack_ranges = self.state.get_ack_ranges();
        if !self.state.has_keys {
            return Err(ZtError::Unauthorized);
        }
        let largest_acked: u64 = match self.state.ack_tracker.highest_processed {
            Some(h) => h,
            None => 0,
        };
        let ack_delay: u64 = match self.state.largest_acked_received_at {
            Some(t) => now.saturating_sub(t) / 1000,
            None => 0,
        };
        let window_size: u64 = self.state.local_window;
        Ok(Some((plan, Frame::Ack { largest_acked, window_size, ack_delay, ack_ranges })))
    }

    /// Whether a frame acknowledges what was received, with the window that is left.
    pub open spec fn acknowledges(&self, frame: Frame, now: u64) -> bool {
        frame matches Frame::Ack { largest_acked, window_size, ack_delay, ack_ranges }
            && largest_acked == (match self.state.ack_tracker.highest_processed {
            Some(h) => h,
            None => 0,
        }) && window_size == self.window_left() && ack_delay == self.ack_delay(now)
            && crate::ack_tracker::lists_runs(
            self.state.ack_tracker.received(),
            crate::ack_tracker::MAX_ACK_RANGES as nat,
            ack_ranges@,
        )
    }

    /// Nothing is left to acknowledge once an acknowledgement went out, or was
    /// tried to. Returns whether the keys have to be rotated.
    pub fn acks_flushed(&mut self, sent: bool) -> (r: bool)
        ensures
            r == (sent && old(self).key_update_due()),
            *final(self) == (ZtConnectionActor {
                state: if sent {
                    old(self).packet_noted()
                } else {
                    old(self).state
                },
                pending_acks: 0,
                ..*old(self)
            }),
    {
        let rotate = if sent {
            self.note_packet_sent()
        } else {
            false
        };
        self.pending_acks = 0;
        rotate
    }
}

/// The window that an acknowledgement announces and what is buffered on all
/// streams add up to one mebibyte; when more is buffered, the window is zero.
pub proof fn law_window_and_buffered_data_add_up(actor: ZtConnectionActor, frame: Frame, now: u64)
    requires
        actor.acknowledges(frame, now),
    ensures
        ({
            let buffered = crate::connection::total_buffered(actor.state.streams@);
            &&& frame is Ack
            &&& buffered <= 1_048_576 ==> frame->window_size + buffered == 1_048_576
            &&& buffered > 1_048_576 ==> frame->window_size == 0
            &&& actor.window_left() == frame->window_size
        }),
{
}

/// The more is buffered on a stream, the less window there is for the peer.
pub proof fn law_buffered_data_takes_window_away(
    less: ZtConnectionActor,
    more: ZtConnectionActor,
    id: u32,
    first: Frame,
    second: Frame,
    now: u64,
)
    requires
        less.acknowledges(first, now),
        more.acknowledges(second, now),
        less.state.streams@.dom().finite(),
        less.state.streams@.contains_key(id),
        more.state.streams@ == less.state.streams@.insert(id, more.state.streams@[id]),
        less.state.streams@[id].buffered_bytes < more.state.streams@[id].buffered_bytes,
    ensures
        second->window_size <= first->window_size,
        first->window_size > 0 ==> second->window_size < first->window_size,
        second->window_size > 0 ==> second->window_size + more.state.streams@[id].buffered_bytes
            == first->window_size + less.state.streams@[id].buffered_bytes,
{
    crate::connection::law_totals_are_sums(less.state.streams@, id, less.state.streams@[id]);
    crate::connection::law_totals_are_sums(more.state.streams@, id, more.state.streams@[id]);
    assert(more.state.streams@.remove(id) =~= less.state.streams@.remove(id));
}

/// An acknowledgement names the highest packet, tells how long that has been
/// waiting in whole microseconds, and lists the runs of received packets from the
/// highest down: nothing that did not arrive, and everything that did unless
/// there are more than 128 runs.
pub proof fn law_acknowledgements_tell_what_arrived(
    actor: ZtConnectionActor,
    frame: Frame,
    now: u64,
)
    requires
        actor.acknowledges(frame, now),
    ensures
        frame is Ack,
        actor.state.ack_tracker.highest_processed is Some ==> frame->largest_acked
            == actor.state.ack_tracker.highest_processed->0,
        actor.state.ack_tracker.highest_processed is None ==> frame->largest_acked == 0,
        actor.state.largest_acked_received_at is None ==> frame->ack_delay == 0,
        actor.state.largest_acked_received_at matches Some(t) ==> (t <= now ==> 1000
            * frame->ack_delay <= now - t < 1000 * frame->ack_delay + 1000),
        actor.state.largest_acked_received_at matches Some(t) ==> (t > now ==> frame->ack_delay
            == 0),
        ({
            let ranges = frame->ack_ranges@;
            let received = actor.state.ack_tracker.received();
            &&& ranges.len() <= 128
            &&& forall|i: int, pn: u64|
                0 <= i < ranges.len() && (#[trigger] ranges[i]).0 <= pn <= ranges[i].1
                    ==> #[trigger] received.contains(pn)
            &&& forall|i: int| 0 <= i < ranges.len() ==> (#[trigger] ranges[i]).0 <= ranges[i].1
            &&& forall|i: int, j: int|
                0 <= i < j < ranges.len() ==> (#[trigger] ranges[j]).1 + 1 < (
                #[trigger] ranges[i]).0
            &&& ranges.len() < 128 ==> forall|pn: u64| #[trigger]
                received.contains(pn) ==> exists|i: int|
                    0 <= i < ranges.len() && (#[trigger] ranges[i]).0 <= pn <= ranges[i].1
        }),
{
    let ranges = frame->ack_ranges@;
    let received = actor.state.ack_tracker.received();
    assert forall|i: int, pn: u64|
        0 <= i < ranges.len() && (#[trigger] ranges[i]).0 <= pn
            <= ranges[i].1 implies #[trigger] received.contains(pn) by {
        assert(crate::ack_tracker::is_maximal_run(received, ranges[i]));
    }
    assert forall|i: int| 0 <= i < ranges.len() implies (#[trigger] ranges[i]).0
        <= ranges[i].1 by {
        assert(crate::ack_tracker::is_maximal_run(received, ranges[i]));
    }
    assert forall|i: int, j: int| 0 <= i < j < ranges.len() implies (#[trigger] ranges[j]).1 + 1 < (
    #[trigger] ranges[i]).0 by {
        assert(crate::ack_tracker::is_maximal_run(received, ranges[i]));
        assert(crate::ack_tracker::is_maximal_run(received, ranges[j]));
        assert(received.contains(ranges[i].0));
        assert(ranges[j].1 < ranges[i].0);
    }
    if ranges.len() < 128 {
        assert forall|pn: u64| #[trigger] received.contains(pn) implies exists|i: int|
            0 <= i < ranges.len() && (#[trigger] ranges[i]).0 <= pn <= ranges[i].1 by {
            assert(crate::ack_tracker::covers(ranges, pn));
        }
    }
}

/// Keys are changed with the packet that makes 1048576 of them: the epoch then
/// moves on by one and the count starts over. Any other packet of an active
/// connection only counts, and without keys or while not active nothing does.
pub proof fn law_keys_change_after_enough_packets(actor: ZtConnectionActor)
    ensures
        ({
            let counting = actor.state.state == ConnectionState::Active && actor.state.has_keys;
            let count = actor.state.packets_since_key_update;
            let after = actor.packet_noted();
            &&& !counting ==> after == actor.state && !actor.key_update_due()
            &&& counting && count + 1 >= 1_048_576 ==> actor.key_update_due()
                && after.packets_since_key_update == 0 && (actor.state.current_key_epoch < u64::MAX
                ==> after.current_key_epoch == actor.state.current_key_epoch + 1)
            &&& counting && count + 1 < 1_048_576 ==> !actor.key_update_due()
                && after.packets_since_key_update == count + 1 && after.current_key_epoch
                == actor.state.current_key_epoch
            &&& after == (ZtConnection {
                packets_since_key_update: after.packets_since_key_update,
                current_key_epoch: after.current_key_epoch,
                ..actor.state
            })
        }),
{
}

/// Before a client's address is validated, a server sends it at most three times
/// what came from there, counting one byte at least. Nobody else is limited.
pub proof fn law_servers_do_not_amplify(actor: ZtConnectionActor, len: usize)
    ensures
        actor.is_client || actor.state.state != ConnectionState::Handshaking
            ==> actor.within_amplification_limit(len),
        !actor.is_client && actor.state.state == ConnectionState::Handshaking
            && actor.state.bytes_received > 0 ==> (actor.within_amplification_limit(len)
            <==> actor.state.bytes_sent + len <= 3 * actor.state.bytes_received),
        !actor.is_client && actor.state.state == ConnectionState::Handshaking
            && actor.state.bytes_received == 0 ==> (actor.within_amplification_limit(len)
            <==> actor.state.bytes_sent + len <= 3),
{
}

/// A packet number is shortened relative to the one below the lowest that is out,
/// so that the peer can tell it from every number that may still arrive.
pub proof fn law_numbers_are_shortened_safely(actor: ZtConnectionActor, p: SendPlan)
    requires
        actor.plan_fits(p),
    ensures
        p.dcid@ == actor.state.dcid@,
        p.key_phase <==> actor.state.current_key_epoch % 2 == 1,
        forall|k: u64| #[trigger]
            actor.state.unacked_packets@.contains_key(k) ==> p.reference < k || k == 0,
        actor.state.unacked_packets@ == Map::<u64, UnackedPacket>::empty() && p.packet_number > 0
            ==> p.reference + 1 == p.packet_number,
        actor.state.unacked_packets@ == Map::<u64, UnackedPacket>::empty() && p.packet_number == 0
            ==> p.reference == 0,
        actor.state.unacked_packets@ != Map::<u64, UnackedPacket>::empty() ==> exists|k: u64|
            #[trigger] actor.state.unacked_packets@.contains_key(k) && (p.reference + 1 == k || (k
                == 0 && p.reference == 0)),
{
}

/// A sent packet is out under its number, and the others stay out as they were.
pub proof fn law_sent_packets_are_kept(actor: ZtConnectionActor, pn: u64, packet: UnackedPacket)
    requires
        pn >= actor.state.unacked_packets.base_pn || actor.state.unacked_packets@.dom().len() == 0,
    ensures
        actor.with_sent(pn, packet).contains_key(pn),
        actor.with_sent(pn, packet)[pn] == packet,
        forall|k: u64|
            k != pn ==> (#[trigger] actor.with_sent(pn, packet).contains_key(k)
                <==> actor.state.unacked_packets@.contains_key(k)),
        forall|k: u64|
            k != pn && #[trigger] actor.state.unacked_packets@.contains_key(k)
                ==> actor.with_sent(pn, packet)[k] == actor.state.unacked_packets@[k],
{
}

/// The streams of a client have even ids and those of a server odd ones, so the
/// two sides never open the same stream.
pub proof fn law_sides_open_different_streams(actor: ZtConnectionActor)
    requires
        actor.wf(),
    ensures
        actor.is_client ==> actor.next_stream_id % 2 == 0 && actor.peer_parity() == 1,
        !actor.is_client ==> actor.next_stream_id % 2 == 1 && actor.peer_parity() == 0,
{
}

/// A packet whose number lies below all that are out is too late to be kept, and
/// changes nothing.
pub proof fn law_late_packets_are_not_kept(
    actor: ZtConnectionActor,
    pn: u64,
    packet: UnackedPacket,
)
    requires
        actor.state.unacked_packets@.dom().len() > 0,
        pn < actor.state.unacked_packets.base_pn,
    ensures
        actor.with_sent(pn, packet) == actor.state.unacked_packets@,
{
}

} // verus!
