//! The owner of a connection that acknowledges cumulatively.
//!
//! The methods decide; the caller encrypts, decrypts, sends and reports back.

use crate::addr::PeerAddr;
use crate::connection_state::ConnectionState;
use crate::crypto::{ed25519_is_key, ed25519_verify};
use crate::cumulative::{StreamState, UnackedPacket, ZtConnection};
use crate::error::{CryptoFault, IoFault, ZtError};
use crate::frame::PacketType;
use crate::payload::{bytes_as_slice, bytes_len};
use crate::wire::copy_bytes;
use bytes::Bytes;
use vstd::prelude::*;

verus! {

broadcast use {
    vstd::std_specs::hash::group_hash_axioms,
    vstd::std_specs::btree::group_btree_axioms,
};

/// Keys are changed after so many packet numbers.
pub const KEY_EPOCH: u64 = 16_000_000;

/// The receive window of a connection on which nothing is buffered.
pub const RECEIVE_WINDOW: u32 = 1_048_576;

/// An acknowledgement goes out at once when so many packets wait for theirs.
pub const ACK_BATCH: u32 = 10;

/// The size of the authentication tag at the end of a packet.
pub const TAG_SIZE: usize = 16;

/// Owns the state of one connection and takes its decisions.
pub struct ZtConnectionActor {
    pub state: ZtConnection,
    pub pending_acks: u32,
    pub last_active_stream_id: u32,
    pub next_stream_id: u32,
}

/// How to send a packet.
pub struct Plan {
    pub packet_number: u64,
    pub key_phase: bool,
    /// Change the keys before the packet is encrypted.
    pub rotate: bool,
    pub dcid: Vec<u8>,
}

/// What a packet carries.
pub enum Frame {
    Stream { id: u32, offset: u64, data: Bytes },
    Ack { largest_acked: u64, window_size: u32, ack_ranges: Vec<(u64, u64)> },
    ConnectionClose,
    StreamClose { id: u32 },
    Other,
}

/// What is left to do after a frame.
pub struct FrameOutcome {
    /// The stream that the frame opened.
    pub opened: Option<u32>,
    /// Data for the application.
    pub chunk: Option<Bytes>,
    /// Whether to acknowledge at once.
    pub flush_acks: bool,
}

/// How a packet is protected.
#[derive(Debug, Clone, Copy, PartialEq, Eq, Structural)]
pub enum Protection {
    /// By keys derived from its destination id.
    Initial,
    /// By the connection's keys, the current or the previous ones.
    Session { previous: bool },
}

/// What to do with a packet whose header was read.
#[derive(Debug, Clone, Copy, PartialEq, Eq, Structural)]
pub enum Route {
    Ignore,
    HandshakeReply,
    Retry,
    /// Change the keys if asked to, then decrypt with the current or the previous ones.
    Open { rotate: bool, previous: bool },
}

/// Whether a number of an epoch of keys is odd.
pub open spec fn odd(epoch: u64) -> bool {
    epoch % 2 == 1
}

/// The number behind an optional packet number.
pub open spec fn or_zero(n: Option<u64>) -> u64 {
    match n {
        Some(h) => h,
        None => 0,
    }
}

/// The next size to probe for, if any: the probe sizes grow from 1200 to 1500.
pub open spec fn next_probe_size(mtu: usize) -> Option<usize> {
    if mtu < 1200 {
        Some(1200)
    } else if mtu < 1350 {
        Some(1350)
    } else if mtu < 1400 {
        Some(1400)
    } else if mtu < 1450 {
        Some(1450)
    } else if mtu < 1500 {
        Some(1500)
    } else {
        None
    }
}

/// The next size to probe for, if any.
fn next_probe_size_after(mtu: usize) -> (r: Option<usize>)
    ensures
        r == next_probe_size(mtu),
{
    if mtu < 1200 {
        Some(1200)
    } else if mtu < 1350 {
        Some(1350)
    } else if mtu < 1400 {
        Some(1400)
    } else if mtu < 1450 {
        Some(1450)
    } else if mtu < 1500 {
        Some(1500)
    } else {
        None
    }
}

impl ZtConnectionActor {
    /// The connection and its streams are sound.
    pub open spec fn wf(&self) -> bool {
        &&& self.state.wf()
        &&& self.state.cwnd > 0 || self.state.mtu > 0
        &&& forall|id: u32| #[trigger]
            self.state.streams@.contains_key(id) ==> self.state.streams@[id].wf()
    }

    /// Whether so many bytes may be sent now. Before the handshake is complete at
    /// most three times what came in is sent.
    pub open spec fn within_amplification_limit(&self, total_len: usize) -> bool {
        self.state.state != ConnectionState::Handshaking || self.state.bytes_sent + total_len <= 3
            * crate::congestion::larger(self.state.bytes_received, 1)
    }

    /// Whether so many bytes may be sent now.
    pub fn may_send(&self, total_len: usize) -> (r: bool)
        ensures
            r == self.within_amplification_limit(total_len),
    {
        let received: u128 = if self.state.bytes_received > 1 {
            self.state.bytes_received as u128
        } else {
            1
        };
        self.state.state != ConnectionState::Handshaking || self.state.bytes_sent as u128
            + total_len as u128 <= 3 * received
    }

    /// Counts bytes that were sent.
    pub fn record_sent(&mut self, total_len: usize)
        ensures
            *final(self) == (ZtConnectionActor {
                state: ZtConnection {
                    bytes_sent: crate::congestion::sat_add(old(self).state.bytes_sent, total_len),
                    ..old(self).state
                },
                ..*old(self)
            }),
    {
        self.state.bytes_sent = self.state.bytes_sent.saturating_add(total_len);
    }

    /// Whether the keys have to be changed before packet `pn` is sent.
    pub open spec fn rotation_due(&self, pn: u64) -> bool {
        pn / KEY_EPOCH > self.state.current_key_epoch && self.state.has_keys
    }

    /// The epoch of keys once packet `pn` is sent.
    pub open spec fn epoch_after(&self, pn: u64) -> u64 {
        if self.rotation_due(pn) {
            pn / KEY_EPOCH
        } else {
            self.state.current_key_epoch
        }
    }

    /// The key phase of packet `pn`, and whether the keys have to be changed
    /// before it is sent.
    pub fn check_key_rotation(&mut self, pn: u64) -> (r: (bool, bool))
        ensures
            r.0 == odd(pn / KEY_EPOCH),
            r.1 == old(self).rotation_due(pn),
            *final(self) == (ZtConnectionActor {
                state: ZtConnection {
                    current_key_epoch: old(self).epoch_after(pn),
                    ..old(self).state
                },
                ..*old(self)
            }),
    {
        let epoch: u64 = pn / KEY_EPOCH;
        let key_phase = epoch % 2 != 0;
        if epoch > self.state.current_key_epoch && self.state.has_keys {
            self.state.current_key_epoch = epoch;
            return (key_phase, true);
        }
        (key_phase, false)
    }

    /// Whether a plan is for the connection's next packet.
    pub open spec fn plan_fits(&self, p: Plan) -> bool {
        let pn = self.state.next_packet_number;
        &&& p.packet_number == pn
        &&& p.key_phase == odd(pn / KEY_EPOCH)
        &&& p.rotate == self.rotation_due(pn)
        &&& p.dcid@ == self.state.dcid@
    }

    /// The connection after a packet number was taken.
    pub open spec fn numbered(&self) -> ZtConnection {
        ZtConnection {
            next_packet_number: (self.state.next_packet_number + 1) as u64,
            current_key_epoch: self.epoch_after(self.state.next_packet_number),
            ..self.state
        }
    }

    fn number_packet(&mut self) -> (r: Result<Plan, ZtError>)
        ensures
            old(self).state.next_packet_number == u64::MAX ==> r is Err && r->Err_0
                == ZtError::PacketNumberOverflow && *final(self) == *old(self),
            old(self).state.next_packet_number < u64::MAX ==> r is Ok && old(self).plan_fits(
                r->Ok_0,
            ) && *final(self) == (ZtConnectionActor { state: old(self).numbered(), ..*old(self) }),
    {
        let packet_number: u64 = match self.state.get_next_packet_number() {
            Ok(n) => n,
            Err(e) => {
                return Err(e);
            },
        };
        let (key_phase, rotate) = self.check_key_rotation(packet_number);
        Ok(
            Plan {
                packet_number,
                key_phase,
                rotate,
                dcid: copy_bytes(self.state.dcid.as_slice()),
            },
        )
    }

    /// What taking a packet number leads to, where `after` is the connection
    /// once that went well: the number is used up even if there are no keys.
    pub open spec fn planned(
        &self,
        after: ZtConnection,
        end: &ZtConnectionActor,
        r: Result<Plan, ZtError>,
    ) -> bool {
        if self.state.next_packet_number == u64::MAX {
            *end == *self && r is Err && r->Err_0 == ZtError::PacketNumberOverflow
        } else {
            &&& *end == (ZtConnectionActor { state: after, ..*self })
            &&& !self.state.has_keys ==> r is Err && r->Err_0 == ZtError::Unauthorized
            &&& self.state.has_keys ==> r is Ok && self.plan_fits(r->Ok_0)
        }
    }

    /// Takes a packet number and says how to send the packet with it.
    pub fn plan_packet(&mut self) -> (r: Result<Plan, ZtError>)
        requires
            old(self).wf(),
        ensures
            final(self).wf(),
            old(self).planned(old(self).numbered(), final(self), r),
    {
        let plan = match self.number_packet() {
            Ok(p) => p,
            Err(e) => {
                return Err(e);
            },
        };
        if !self.state.has_keys {
            return Err(ZtError::Unauthorized);
        }
        Ok(plan)
    }

    /// The window that is left: what is not taken by data waiting to be handed on.
    pub open spec fn window_left(&self) -> u32 {
        let total = crate::cumulative::total_buffered(self.state.streams@);
        if total >= RECEIVE_WINDOW {
            0
        } else {
            (RECEIVE_WINDOW - total) as u32
        }
    }

    fn refresh_window(&mut self)
        ensures
            *final(self) == (ZtConnectionActor {
                state: ZtConnection { local_window: old(self).window_left(), ..old(self).state },
                ..*old(self)
            }),
    {
        let total: usize = self.state.get_total_buffered_bytes();
        self.state.local_window = if total >= RECEIVE_WINDOW as usize {
            0
        } else {
            RECEIVE_WINDOW - total as u32
        };
    }

    /// Says how to probe for a larger packet size, if the connection is active
    /// and there is a larger size to try.
    pub fn plan_mtu_probe(&mut self) -> (r: Option<(usize, Result<Plan, ZtError>)>)
        requires
            old(self).wf(),
        ensures
            final(self).wf(),
            ({
                let size = next_probe_size(old(self).state.mtu);
                if old(self).state.state != ConnectionState::Active || size is None {
                    r is None && *final(self) == *old(self)
                } else {
                    &&& r is Some
                    &&& (r->0).0 == size->0
                    &&& old(self).planned(
                        ZtConnection { local_window: old(self).window_left(), ..old(self).numbered() },
                        final(self),
                        (r->0).1,
                    )
                }
            }),
    {
        if self.state.state != ConnectionState::Active {
            return None;
        }
        let size: usize = match next_probe_size_after(self.state.mtu) {
            Some(s) => s,
            None => {
                return None;
            },
        };
        match self.number_packet() {
            Err(e) => Some((size, Err(e))),
            Ok(plan) => {
                self.refresh_window();
                if !self.state.has_keys {
                    return Some((size, Err(ZtError::Unauthorized)));
                }
                Some((size, Ok(plan)))
            },
        }
    }

    /// Keeps a probe that was sent until it is acknowledged.
    pub fn mtu_probe_sent(&mut self, pn: u64, target_size: usize, packet: Bytes, now: u64)
        requires
            old(self).wf(),
        ensures
            final(self).wf(),
            *final(self) == (ZtConnectionActor {
                state: ZtConnection {
                    unacked_packets: final(self).state.unacked_packets,
                    mtu_probes: final(self).state.mtu_probes,
                    ..old(self).state
                },
                ..*old(self)
            }),
            final(self).state.unacked_packets@ == old(self).state.unacked_packets@.insert(
                pn,
                UnackedPacket {
                    data: packet,
                    sent_at: now,
                    retries: 0,
                    stream_id: 0,
                    start_offset: 0,
                    end_offset: 0,
                    is_mtu_probe: true,
                },
            ),
            final(self).state.mtu_probes@ == old(self).state.mtu_probes@.insert(pn, target_size),
    {
        self.state.unacked_packets.insert(
            pn,
            UnackedPacket {
                data: packet,
                sent_at: now,
                retries: 0,
                stream_id: 0,
                start_offset: 0,
                end_offset: 0,
                is_mtu_probe: true,
            },
        );
        self.state.mtu_probes.insert(pn, target_size);
    }

    /// Keeps a control packet that was sent until it is acknowledged. Such
    /// packets do not count as bytes in flight.
    pub fn control_sent(&mut self, pn: u64, stream_id: u32, packet: Bytes, now: u64)
        requires
            old(self).wf(),
        ensures
            final(self).wf(),
            *final(self) == (ZtConnectionActor {
                state: ZtConnection {
                    unacked_packets: final(self).state.unacked_packets,
                    ..old(self).state
                },
                ..*old(self)
            }),
            final(self).state.unacked_packets@ == old(self).state.unacked_packets@.insert(
                pn,
                UnackedPacket {
                    data: packet,
                    sent_at: now,
                    retries: 0,
                    stream_id,
                    start_offset: 0,
                    end_offset: 0,
                    is_mtu_probe: false,
                },
            ),
    {
        self.state.unacked_packets.insert(
            pn,
            UnackedPacket {
                data: packet,
                sent_at: now,
                retries: 0,
                stream_id,
                start_offset: 0,
                end_offset: 0,
                is_mtu_probe: false,
            },
        );
    }

    /// Says what acknowledgement to send and how, if any is pending.
    pub fn plan_acks(&mut self) -> (r: Option<(Result<Plan, ZtError>, Frame)>)
        requires
            old(self).wf(),
        ensures
            final(self).wf(),
            if old(self).pending_acks == 0 {
                r is None && *final(self) == *old(self)
            } else {
                &&& r is Some
                &&& old(self).planned(
                    ZtConnection { local_window: old(self).window_left(), ..old(self).numbered() },
                    final(self),
                    (r->0).0,
                )
                &&& (r->0).0 is Ok ==> old(self).acknowledges((r->0).1)
            },
    {
        if self.pending_acks == 0 {
            return None;
        }
        let plan = match self.number_packet() {
            Ok(p) => p,
            Err(e) => {
                return Some((Err(e), Frame::Other));
            },
        };
        self.refresh_window();
        assert(self.state.processed() =~= old(self).state.processed());
        let ack_ranges = self.state.get_ack_ranges();
        let largest_acked: u64 = match self.state.highest_processed_pn {
            Some(h) => h,
            None => 0,
        };
        let frame = Frame::Ack { largest_acked, window_size: self.state.local_window, ack_ranges };
        if !self.state.has_keys {
            return Some((Err(ZtError::Unauthorized), frame));
        }
        Some((Ok(plan), frame))
    }

    /// Whether a frame acknowledges what was received, with the window that is left.
    pub open spec fn acknowledges(&self, frame: Frame) -> bool {
        frame matches Frame::Ack { largest_acked, window_size, ack_ranges } && largest_acked
            == or_zero(self.state.highest_processed_pn) && window_size == self.window_left() && (
        self.state.highest_processed_pn is None ==> ack_ranges@.len() == 0) && (
        self.state.highest_processed_pn is Some ==> crate::ack_tracker::lists_runs(
            self.state.processed().remove(self.state.highest_processed_pn->0),
            ack_ranges@.len() + 1,
            ack_ranges@,
        ))
    }

    /// The acknowledgement went out.
    pub fn acks_flushed(&mut self)
        ensures
            *final(self) == (ZtConnectionActor { pending_acks: 0, ..*old(self) }),
    {
        self.pending_acks = 0;
    }
}

/// Whether a packet has a short header.
pub open spec fn is_short(data: Seq<u8>) -> bool {
    data.len() > 0 && data[0] & 0x80 == 0
}

impl ZtConnectionActor {
    /// A packet arrived. Says how it is protected; one with a short header is
    /// protected by the previous keys if its key phase is not the current one.
    pub fn receive_packet(&mut self, data: &[u8]) -> (r: Result<Protection, ZtError>)
        requires
            old(self).wf(),
        ensures
            final(self).wf(),
            *final(self) == (ZtConnectionActor {
                state: ZtConnection {
                    bytes_received: crate::congestion::sat_add(
                        old(self).state.bytes_received,
                        data@.len() as usize,
                    ),
                    ..old(self).state
                },
                ..*old(self)
            }),
            r == if !is_short(data@) {
                Ok::<Protection, ZtError>(Protection::Initial)
            } else if !old(self).state.has_keys {
                Err::<Protection, ZtError>(ZtError::Unauthorized)
            } else {
                Ok::<Protection, ZtError>(
                    Protection::Session {
                        previous: (data@[0] & 0x40 != 0) != odd(old(self).state.current_key_epoch),
                    },
                )
            },
    {
        self.state.bytes_received = self.state.bytes_received.saturating_add(data.len());
        assert(self.state.processed() =~= old(self).state.processed());
        if data.len() > 0 && data[0] & 0x80 == 0 {
            let key_phase = data[0] & 0x40 != 0;
            let expected = self.state.current_key_epoch % 2 != 0;
            if !self.state.has_keys {
                return Err(ZtError::Unauthorized);
            }
            return Ok(Protection::Session { previous: key_phase != expected });
        }
        Ok(Protection::Initial)
    }

    /// Whether a packet shows that the peer has changed its keys.
    pub open spec fn peer_rotated(&self, pn: u64, short: bool, key_phase: bool) -> bool {
        short && key_phase != odd(self.state.current_key_epoch) && pn >= or_zero(
            self.state.highest_processed_pn,
        ) && self.state.has_keys
    }

    /// What to do with a packet whose header was read. `previous` says whether
    /// the previous keys opened its header.
    pub open spec fn route_of(
        &self,
        p_type: PacketType,
        pn: u64,
        short: bool,
        key_phase: bool,
        previous: bool,
        payload_len: usize,
    ) -> Result<Route, ZtError> {
        let rotate = self.peer_rotated(pn, short, key_phase);
        let handshaking = self.state.state == ConnectionState::Handshaking;
        if self.state.refuses(pn) {
            Ok(Route::Ignore)
        } else if p_type == PacketType::Handshake && handshaking {
            Ok(Route::HandshakeReply)
        } else if p_type == PacketType::Retry && handshaking {
            Ok(Route::Retry)
        } else if (p_type == PacketType::Data || p_type == PacketType::MtuProbe || p_type
            == PacketType::Close) && self.state.state == ConnectionState::Active {
            if !self.state.has_keys {
                Err(ZtError::Unauthorized)
            } else if payload_len < TAG_SIZE {
                Ok(Route::Ignore)
            } else {
                Ok(Route::Open { rotate, previous: previous && !rotate })
            }
        } else {
            Ok(Route::Ignore)
        }
    }

    /// Decides on a packet whose header was read. The first result says whether
    /// the peer's change of keys has to be followed, whatever else happens.
    pub fn route_packet(
        &mut self,
        p_type: PacketType,
        pn: u64,
        short: bool,
        key_phase: bool,
        previous: bool,
        payload_len: usize,
    ) -> (r: (bool, Result<Route, ZtError>))
        requires
            old(self).wf(),
        ensures
            final(self).wf(),
            r.0 == (!old(self).state.refuses(pn) && old(self).peer_rotated(pn, short, key_phase)),
            r.1 == old(self).route_of(p_type, pn, short, key_phase, previous, payload_len),
            *final(self) == (ZtConnectionActor {
                state: ZtConnection {
                    current_key_epoch: if r.0 && old(self).state.current_key_epoch < u64::MAX {
                        (old(self).state.current_key_epoch + 1) as u64
                    } else {
                        old(self).state.current_key_epoch
                    },
                    ..old(self).state
                },
                ..*old(self)
            }),
    {
        if self.state.is_replay(pn) {
            return (false, Ok(Route::Ignore));
        }
        let expected = self.state.current_key_epoch % 2 != 0;
        let highest: u64 = match self.state.highest_processed_pn {
            Some(h) => h,
            None => 0,
        };
        let rotate = short && key_phase != expected && pn >= highest && self.state.has_keys;
        if rotate {
            self.state.current_key_epoch = self.state.current_key_epoch.saturating_add(1);
            assert(self.state.processed() =~= old(self).state.processed());
        }
        let active = self.state.state == ConnectionState::Active;
        let handshaking = self.state.state == ConnectionState::Handshaking;
        let route = match p_type {
            PacketType::Handshake => {
                if handshaking {
                    Ok(Route::HandshakeReply)
                } else {
                    Ok(Route::Ignore)
                }
            },
            PacketType::Retry => {
                if handshaking {
                    Ok(Route::Retry)
                } else {
                    Ok(Route::Ignore)
                }
            },
            PacketType::Data | PacketType::MtuProbe | PacketType::Close => {
                if !active {
                    Ok(Route::Ignore)
                } else if !self.state.has_keys {
                    Err(ZtError::Unauthorized)
                } else if payload_len < TAG_SIZE {
                    Ok(Route::Ignore)
                } else {
                    Ok(Route::Open { rotate, previous: previous && !rotate })
                }
            },
            PacketType::Initial => Ok(Route::Ignore),
        };
        (rotate, route)
    }

    /// An authentic packet was decrypted: the peer is where it came from.
    pub fn packet_opened(&mut self, pn: u64, addr: PeerAddr)
        requires
            old(self).wf(),
        ensures
            final(self).wf(),
            *final(self) == (ZtConnectionActor {
                state: ZtConnection {
                    addr,
                    highest_processed_pn: Some(
                        crate::bitmap::raised(old(self).state.highest_processed_pn, pn),
                    ),
                    replay_bitmask: final(self).state.replay_bitmask,
                    ..old(self).state
                },
                ..*old(self)
            }),
            forall|x: u64| #[trigger]
                final(self).state.processed().contains(x) <==> (x == pn || old(
                    self,
                ).state.processed().contains(x)) && x + crate::cumulative::REPLAY_PACKETS
                    > crate::bitmap::raised(old(self).state.highest_processed_pn, pn),
    {
        self.state.addr = addr;
        assert(self.state.processed() =~= old(self).state.processed());
        self.state.mark_processed(pn);
    }

    /// The stream that data for `id` go to: a new one if there is none yet.
    pub open spec fn stream_for(&self, id: u32, s: StreamState) -> bool {
        if self.state.streams@.contains_key(id) {
            s == self.state.streams@[id]
        } else {
            s.is_fresh()
        }
    }

    /// What happens to a stream that `data` arrive for at `offset`.
    pub open spec fn stream_fed(
        s: StreamState,
        offset: u64,
        data: Seq<u8>,
        room: bool,
        mid: StreamState,
        after: StreamState,
        chunk: Option<Bytes>,
    ) -> bool {
        if offset < s.expected_rx_offset {
            after == s && chunk is None
        } else {
            s.took_in(&mid, offset, data) && mid.handed_on(&after, room, chunk)
        }
    }

    /// What a frame with stream data does.
    pub open spec fn data_taken(
        &self,
        id: u32,
        offset: u64,
        data: Seq<u8>,
        room: bool,
        after: &ZtConnectionActor,
        r: FrameOutcome,
    ) -> bool {
        let known = self.state.streams@.contains_key(id);
        let waiting = if self.pending_acks < u32::MAX {
            (self.pending_acks + 1) as u32
        } else {
            u32::MAX
        };
        &&& *after == (ZtConnectionActor {
            state: ZtConnection { streams: after.state.streams, ..self.state },
            pending_acks: waiting,
            next_stream_id: if known || id < self.next_stream_id {
                self.next_stream_id
            } else if id == u32::MAX {
                u32::MAX
            } else {
                (id + 1) as u32
            },
            ..*self
        })
        &&& r.opened == if known {
            None::<u32>
        } else {
            Some(id)
        }
        &&& after.state.streams@ == self.state.streams@.insert(id, after.state.streams@[id])
        &&& exists|s: StreamState, mid: StreamState| #[trigger]
            Self::stream_fed(s, offset, data, room, mid, after.state.streams@[id], r.chunk)
                && self.stream_for(id, s) && r.flush_acks == (offset >= s.expected_rx_offset
                && waiting >= ACK_BATCH)
    }

    /// Takes in stream data, on a new stream if need be.
    pub fn take_stream_data(&mut self, id: u32, offset: u64, data: &[u8], room: bool) -> (r:
        FrameOutcome)
        requires
            old(self).wf(),
            offset + data@.len() <= u64::MAX,
        ensures
            final(self).wf(),
            old(self).data_taken(id, offset, data@, room, final(self), r),
    {
        let ghost streams = self.state.streams@;
        let (mut stream, opened) = match self.state.streams.remove(&id) {
            Some(s) => (s, None),
            None => {
                let next: u32 = id.saturating_add(1);
                if next > self.next_stream_id {
                    self.next_stream_id = next;
                }
                (StreamState::new(), Some(id))
            },
        };
        let ghost s = stream;
        assert(old(self).stream_for(id, s));
        self.pending_acks = self.pending_acks.saturating_add(1);
        let old_data = offset < stream.expected_rx_offset;
        if !old_data {
            stream.take_in(offset, data);
        }
        let ghost mid = stream;
        let chunk = if old_data {
            None
        } else {
            stream.hand_on(room)
        };
        let ghost after = stream;
        self.state.streams.insert(id, stream);
        proof {
            assert(self.state.streams@ =~= streams.insert(id, after));
            assert(self.state.processed() =~= old(self).state.processed());
            if data@.len() == 0 {
                assert(crate::stream_buffer::laid_down(s.ring(), offset as int, data@) == s.ring());
            }
            assert(self.state.streams@[id] == after);
            assert(Self::stream_fed(
                s,
                offset,
                data@,
                room,
                mid,
                self.state.streams@[id],
                chunk,
            ));
        }
        let flush_acks = !old_data && self.pending_acks >= ACK_BATCH;
        FrameOutcome { opened, chunk, flush_acks }
    }

    /// Handles a frame of an authentic packet.
    pub fn handle_frame(&mut self, frame: Frame, room: bool, now: u64) -> (r: FrameOutcome)
        requires
            old(self).wf(),
            frame matches Frame::Stream { offset, data, .. } ==> offset + crate::payload::contents(
                data,
            ).len() <= u64::MAX,
        ensures
            final(self).wf(),
            match frame {
                Frame::Stream { id, offset, data } => old(self).data_taken(
                    id,
                    offset,
                    crate::payload::contents(data),
                    room,
                    final(self),
                    r,
                ),
                Frame::Ack { largest_acked, window_size, ack_ranges } => {
                    &&& *final(self) == (ZtConnectionActor {
                        state: final(self).state,
                        ..*old(self)
                    })
                    &&& old(self).state.acked_by(
                        largest_acked,
                        window_size,
                        ack_ranges@,
                        now,
                        &final(self).state,
                    )
                },
                Frame::ConnectionClose => *final(self) == (ZtConnectionActor {
                    state: ZtConnection { state: ConnectionState::Closed, ..old(self).state },
                    ..*old(self)
                }),
                Frame::StreamClose { id } => {
                    &&& *final(self) == (ZtConnectionActor {
                        state: ZtConnection {
                            streams: final(self).state.streams,
                            ..old(self).state
                        },
                        ..*old(self)
                    })
                    &&& final(self).state.streams@ == old(self).state.streams@.remove(id)
                },
                Frame::Other => *final(self) == *old(self),
            },
            !(frame is Stream) ==> r == (FrameOutcome {
                opened: None,
                chunk: None,
                flush_acks: false,
            }),
    {
        match frame {
            Frame::Stream { id, offset, data } => {
                return self.take_stream_data(id, offset, bytes_as_slice(&data), room);
            },
            Frame::Ack { largest_acked, window_size, ack_ranges } => {
                self.state.handle_ack(largest_acked, window_size, ack_ranges.as_slice(), now);
                assert(self.state.processed() =~= old(self).state.processed());
            },
            Frame::ConnectionClose => {
                self.state.state = ConnectionState::Closed;
            },
            Frame::StreamClose { id } => {
                self.state.streams.remove(&id);
                assert(self.state.streams@ =~= old(self).state.streams@.remove(id));
            },
            Frame::Other => {},
        }
        FrameOutcome { opened: None, chunk: None, flush_acks: false }
    }
}

impl ZtConnectionActor {
    /// Whether data of this size have to wait for the peer or for the network.
    pub open spec fn blocked(&self, len: usize) -> bool {
        self.state.remote_window < len || self.state.bytes_in_flight + len > self.state.cwnd
    }

    /// A stream after data of this size were cut off for sending.
    pub open spec fn advanced(s: StreamState, len: usize) -> StreamState {
        StreamState {
            next_tx_offset: if s.next_tx_offset + len > u64::MAX {
                u64::MAX
            } else {
                (s.next_tx_offset + len) as u64
            },
            ..s
        }
    }

    /// Says how to send data of a stream: the plan and the offsets at which the
    /// data begin and end. Packet number and offsets are used up even if there
    /// are no keys.
    pub fn process_outgoing_data(&mut self, stream_id: u32, len: usize) -> (r: Result<
        (Plan, u64, u64),
        ZtError,
    >)
        requires
            old(self).wf(),
        ensures
            final(self).wf(),
            ({
                let known = old(self).state.streams@.contains_key(stream_id);
                let before = old(self).state.streams@[stream_id];
                if old(self).blocked(len) {
                    r is Err && r->Err_0 == ZtError::Io(IoFault::WouldBlock) && *final(self) == *old(self)
                } else if old(self).state.next_packet_number == u64::MAX {
                    r is Err && r->Err_0 == ZtError::PacketNumberOverflow && *final(self) == *old(
                        self,
                    )
                } else if !known {
                    r is Err && r->Err_0 == ZtError::ActorFailed && *final(self) == (
                    ZtConnectionActor { state: old(self).numbered(), ..*old(self) })
                } else {
                    &&& *final(self) == (ZtConnectionActor {
                        state: ZtConnection {
                            streams: final(self).state.streams,
                            ..old(self).numbered()
                        },
                        ..*old(self)
                    })
                    &&& final(self).state.streams@ == old(self).state.streams@.insert(
                        stream_id,
                        Self::advanced(before, len),
                    )
                    &&& !old(self).state.has_keys ==> r is Err && r->Err_0 == ZtError::Unauthorized
                    &&& old(self).state.has_keys ==> (r matches Ok((plan, start, end)) && old(
                        self,
                    ).plan_fits(plan) && start == before.next_tx_offset && end == Self::advanced(
                        before,
                        len,
                    ).next_tx_offset)
                }
            }),
    {
        if (self.state.remote_window as u64) < len as u64 || (self.state.bytes_in_flight as u128
            + len as u128) > self.state.cwnd as u128 {
            return Err(ZtError::Io(IoFault::WouldBlock));
        }
        let plan = match self.number_packet() {
            Ok(p) => p,
            Err(e) => {
                return Err(e);
            },
        };
        assert(self.state.processed() =~= old(self).state.processed());
        if !self.state.streams.contains_key(&stream_id) {
            return Err(ZtError::ActorFailed);
        }
        let ghost streams = self.state.streams@;
        match self.state.streams.remove(&stream_id) {
            None => Err(ZtError::ActorFailed),
            Some(mut stream) => {
                let start: u64 = stream.next_tx_offset;
                stream.next_tx_offset = stream.next_tx_offset.saturating_add(len as u64);
                let end: u64 = stream.next_tx_offset;
                let ghost after = stream;
                self.state.streams.insert(stream_id, stream);
                assert(self.state.streams@ =~= streams.insert(stream_id, after));
                if !self.state.has_keys {
                    return Err(ZtError::Unauthorized);
                }
                Ok((plan, start, end))
            },
        }
    }

    /// Keeps a packet with `len` bytes of a stream until it is acknowledged, and
    /// takes them off the peer's window.
    pub fn data_sent(
        &mut self,
        plan: &Plan,
        stream_id: u32,
        offsets: (u64, u64),
        len: usize,
        packet: Bytes,
        now: u64,
    )
        requires
            old(self).wf(),
        ensures
            final(self).wf(),
            *final(self) == (ZtConnectionActor {
                state: ZtConnection {
                    unacked_packets: final(self).state.unacked_packets,
                    bytes_in_flight: crate::congestion::sat_add(
                        old(self).state.bytes_in_flight,
                        crate::payload::contents(packet).len() as usize,
                    ),
                    remote_window: if old(self).state.remote_window < len {
                        0
                    } else {
                        (old(self).state.remote_window - len) as u32
                    },
                    ..old(self).state
                },
                ..*old(self)
            }),
            final(self).state.unacked_packets@ == old(self).state.unacked_packets@.insert(
                plan.packet_number,
                UnackedPacket {
                    data: packet,
                    sent_at: now,
                    retries: 0,
                    stream_id,
                    start_offset: offsets.0,
                    end_offset: offsets.1,
                    is_mtu_probe: false,
                },
            ),
    {
        let packet_len: usize = bytes_len(&packet);
        self.state.unacked_packets.insert(
            plan.packet_number,
            UnackedPacket {
                data: packet,
                sent_at: now,
                retries: 0,
                stream_id,
                start_offset: offsets.0,
                end_offset: offsets.1,
                is_mtu_probe: false,
            },
        );
        self.state.bytes_in_flight = self.state.bytes_in_flight.saturating_add(packet_len);
        self.state.remote_window = if (self.state.remote_window as u64) < len as u64 {
            0
        } else {
            self.state.remote_window - len as u32
        };
        assert(self.state.processed() =~= old(self).state.processed());
    }

    /// Opens a stream under the next id.
    pub fn open_stream(&mut self) -> (id: u32)
        requires
            old(self).wf(),
        ensures
            final(self).wf(),
            id == old(self).next_stream_id,
            *final(self) == (ZtConnectionActor {
                state: ZtConnection { streams: final(self).state.streams, ..old(self).state },
                next_stream_id: if id == u32::MAX {
                    id
                } else {
                    (id + 1) as u32
                },
                ..*old(self)
            }),
            final(self).state.streams@ == old(self).state.streams@.insert(
                id,
                final(self).state.streams@[id],
            ),
            final(self).state.streams@[id].is_fresh(),
    {
        let id: u32 = self.next_stream_id;
        self.next_stream_id = id.saturating_add(1);
        self.state.streams.insert(id, StreamState::new());
        id
    }

    /// The application closed a stream. The connection lives on, even without streams.
    pub fn close_stream(&mut self, stream_id: u32)
        requires
            old(self).wf(),
        ensures
            final(self).wf(),
            *final(self) == (ZtConnectionActor {
                state: ZtConnection { streams: final(self).state.streams, ..old(self).state },
                ..*old(self)
            }),
            final(self).state.streams@ == old(self).state.streams@.remove(stream_id),
    {
        self.state.streams.remove(&stream_id);
        assert(self.state.streams@ =~= old(self).state.streams@.remove(stream_id));
    }

    /// Begins to close the connection and says how to send the packet that tells
    /// the peer.
    pub fn initiate_close(&mut self) -> (r: Result<Plan, ZtError>)
        requires
            old(self).wf(),
        ensures
            final(self).wf(),
            (ZtConnectionActor {
                state: ZtConnection { state: ConnectionState::Closing, ..old(self).state },
                ..*old(self)
            }).planned(
                ZtConnection { state: ConnectionState::Closing, ..old(self).numbered() },
                final(self),
                r,
            ),
    {
        self.state.state = ConnectionState::Closing;
        assert(self.state.processed() =~= old(self).state.processed());
        self.plan_packet()
    }

    /// The server answered: its connection id and address apply, keys are agreed on.
    pub fn complete_handshake(&mut self, server_scid: Vec<u8>, addr: PeerAddr, pn: u64)
        requires
            old(self).wf(),
        ensures
            final(self).wf(),
            *final(self) == (ZtConnectionActor {
                state: ZtConnection {
                    dcid: server_scid,
                    has_keys: true,
                    addr,
                    state: ConnectionState::Active,
                    highest_processed_pn: Some(
                        crate::bitmap::raised(old(self).state.highest_processed_pn, pn),
                    ),
                    replay_bitmask: final(self).state.replay_bitmask,
                    ..old(self).state
                },
                ..*old(self)
            }),
            forall|x: u64| #[trigger]
                final(self).state.processed().contains(x) <==> (x == pn || old(
                    self,
                ).state.processed().contains(x)) && x + crate::cumulative::REPLAY_PACKETS
                    > crate::bitmap::raised(old(self).state.highest_processed_pn, pn),
    {
        self.state.dcid = server_scid;
        self.state.has_keys = true;
        self.state.addr = addr;
        self.state.state = ConnectionState::Active;
        assert(self.state.processed() =~= old(self).state.processed());
        self.state.mark_processed(pn);
    }
}

/// What is wrong with a server's reply: the signature has to be good for its
/// ephemeral key.
pub open spec fn reply_fault(key: Seq<u8>, ed_key: Seq<u8>, signature: Seq<u8>) -> Option<ZtError> {
    if !crate::crypto::ed25519_key_ok(ed_key) {
        Some(ZtError::Crypto(CryptoFault::InvalidEdPk))
    } else if !crate::crypto::ed25519_accepts(ed_key, key, signature) {
        Some(ZtError::Crypto(CryptoFault::InvalidSig))
    } else {
        None
    }
}

/// Verifies a server's reply.
pub fn verify_reply(key: &[u8; 32], ed_key: &[u8; 32], signature: &[u8; 64]) -> (r: Result<
    (),
    ZtError,
>)
    ensures
        match r {
            Ok(_) => reply_fault(key@, ed_key@, signature@) is None,
            Err(e) => reply_fault(key@, ed_key@, signature@) == Some(e),
        },
{
    if !ed25519_is_key(ed_key) {
        return Err(ZtError::Crypto(CryptoFault::InvalidEdPk));
    }
    if !ed25519_verify(ed_key, key.as_slice(), signature) {
        return Err(ZtError::Crypto(CryptoFault::InvalidSig));
    }
    Ok(())
}

/// Before the handshake is complete at most three times what came in is sent,
/// counting one byte at least; afterwards there is no such limit.
pub proof fn law_nothing_is_amplified(actor: ZtConnectionActor, len: usize)
    ensures
        actor.state.state != ConnectionState::Handshaking ==> actor.within_amplification_limit(len),
        actor.state.state == ConnectionState::Handshaking && actor.state.bytes_received > 0 ==> (
        actor.within_amplification_limit(len) <==> actor.state.bytes_sent + len <= 3
            * actor.state.bytes_received),
        actor.state.state == ConnectionState::Handshaking && actor.state.bytes_received == 0 ==> (
        actor.within_amplification_limit(len) <==> actor.state.bytes_sent + len <= 3),
{
}

/// Keys are changed every sixteen million packet numbers: a number that is the
/// first of a later stretch brings the epoch up to its own, if there are keys.
pub proof fn law_keys_change_with_packet_numbers(actor: ZtConnectionActor, pn: u64)
    ensures
        ({
            let epoch = actor.state.current_key_epoch;
            let later = pn >= (epoch + 1) * 16_000_000 && actor.state.has_keys;
            &&& actor.rotation_due(pn) <==> later
            &&& later ==> actor.epoch_after(pn) > epoch && actor.epoch_after(pn) * 16_000_000 <= pn
                < (actor.epoch_after(pn) + 1) * 16_000_000
            &&& !later ==> actor.epoch_after(pn) == epoch
        }),
        odd(pn) <==> pn % 2 == 1,
        or_zero(None) == 0,
        or_zero(Some(pn)) == pn,
{
}

/// A plan is for the next packet number, which is then used up; without keys
/// there is no plan, and the last number is never used.
pub proof fn law_plans_use_numbers_in_turn(
    before: ZtConnectionActor,
    end: ZtConnectionActor,
    r: Result<Plan, ZtError>,
)
    requires
        before.planned(before.numbered(), &end, r),
    ensures
        before.state.next_packet_number == u64::MAX ==> end == before && r is Err && r->Err_0
            == ZtError::PacketNumberOverflow,
        before.state.next_packet_number < u64::MAX ==> end.state.next_packet_number
            == before.state.next_packet_number + 1,
        before.state.next_packet_number < u64::MAX && !before.state.has_keys ==> r is Err
            && r->Err_0 == ZtError::Unauthorized,
        before.state.next_packet_number < u64::MAX && before.state.has_keys ==> r is Ok,
        r matches Ok(p) ==> p.packet_number == before.state.next_packet_number && p.dcid@
            == before.state.dcid@ && (p.key_phase <==> p.packet_number / 16_000_000 % 2 == 1) && (
        p.rotate <==> p.packet_number / 16_000_000 > before.state.current_key_epoch),
        r matches Ok(p) ==> (p.rotate ==> end.state.current_key_epoch == p.packet_number
            / 16_000_000),
        r matches Ok(p) ==> (!p.rotate ==> end.state.current_key_epoch
            == before.state.current_key_epoch),
{
}

/// The window that an acknowledgement announces and what is buffered on all
/// streams add up to one mebibyte; when more is buffered, the window is zero. The
/// largest number and the runs below it are what arrived.
pub proof fn law_window_and_buffered_data_add_up(actor: ZtConnectionActor, frame: Frame)
    requires
        actor.acknowledges(frame),
    ensures
        ({
            let buffered = crate::cumulative::total_buffered(actor.state.streams@);
            &&& frame is Ack
            &&& buffered <= 1_048_576 ==> frame->window_size + buffered == 1_048_576
            &&& buffered > 1_048_576 ==> frame->window_size == 0
            &&& actor.window_left() == frame->window_size
            &&& actor.state.highest_processed_pn is Some ==> frame->largest_acked
                == actor.state.highest_processed_pn->0
            &&& actor.state.highest_processed_pn is None ==> frame->largest_acked == 0
                && frame->ack_ranges@.len() == 0
        }),
        actor.state.highest_processed_pn matches Some(h) ==> forall|pn: u64|
            pn != h ==> (#[trigger] actor.state.processed().contains(pn) <==> exists|i: int|
                0 <= i < frame->ack_ranges@.len() && (#[trigger] frame->ack_ranges@[i]).0 <= pn
                    <= frame->ack_ranges@[i].1),
{
    if actor.state.highest_processed_pn is Some {
        let h = actor.state.highest_processed_pn->0;
        let ranges = frame->ack_ranges@;
        let below = actor.state.processed().remove(h);
        assert forall|pn: u64| pn != h implies (#[trigger] actor.state.processed().contains(pn)
            <==> exists|i: int|
            0 <= i < ranges.len() && (#[trigger] ranges[i]).0 <= pn <= ranges[i].1) by {
            if actor.state.processed().contains(pn) {
                assert(below.contains(pn));
                assert(crate::ack_tracker::covers(ranges, pn));
            }
            if exists|i: int| 0 <= i < ranges.len() && (#[trigger] ranges[i]).0 <= pn
                <= ranges[i].1 {
                let i = choose|i: int|
                    0 <= i < ranges.len() && (#[trigger] ranges[i]).0 <= pn <= ranges[i].1;
                assert(crate::ack_tracker::is_maximal_run(below, ranges[i]));
                assert(below.contains(pn));
            }
        }
    }
}

/// The peer has changed its keys if a short packet that is not older than the
/// newest shows the other phase. A packet is opened with the previous keys only if
/// it does not show that.
pub proof fn law_routes_follow_state_and_keys(
    actor: ZtConnectionActor,
    p_type: PacketType,
    pn: u64,
    short: bool,
    key_phase: bool,
    previous: bool,
    payload_len: usize,
)
    ensures
        ({
            let newest = actor.state.highest_processed_pn matches Some(h) ==> pn >= h;
            let other = key_phase != (actor.state.current_key_epoch % 2 == 1);
            let rotated = short && other && newest && actor.state.has_keys;
            let r = actor.route_of(p_type, pn, short, key_phase, previous, payload_len);
            let data = p_type is Data || p_type is MtuProbe || p_type is Close;
            let active = actor.state.state is Active;
            let handshaking = actor.state.state is Handshaking;
            &&& actor.peer_rotated(pn, short, key_phase) <==> rotated
            &&& actor.state.refuses(pn) ==> r == Ok::<Route, ZtError>(Route::Ignore)
            &&& !actor.state.refuses(pn) && p_type is Handshake && handshaking ==> r == Ok::<
                Route,
                ZtError,
            >(Route::HandshakeReply)
            &&& !actor.state.refuses(pn) && p_type is Retry && handshaking ==> r == Ok::<
                Route,
                ZtError,
            >(Route::Retry)
            &&& !actor.state.refuses(pn) && data && active && !actor.state.has_keys ==> r == Err::<
                Route,
                ZtError,
            >(ZtError::Unauthorized)
            &&& !actor.state.refuses(pn) && data && active && actor.state.has_keys && payload_len
                >= 16 ==> r == Ok::<Route, ZtError>(
                Route::Open { rotate: rotated, previous: previous && !rotated },
            )
            &&& (r is Ok && r->Ok_0 is Open) ==> !actor.state.refuses(pn) && data && active
                && actor.state.has_keys && payload_len >= 16
            &&& (r is Ok && r->Ok_0 is HandshakeReply) ==> !actor.state.refuses(pn)
                && p_type is Handshake && handshaking
            &&& (r is Ok && r->Ok_0 is Retry) ==> !actor.state.refuses(pn) && p_type is Retry
                && handshaking
            &&& r is Err ==> !actor.state.refuses(pn) && data && active && !actor.state.has_keys
        }),
{
}

/// The first bit of a packet tells a short header from a long one.
pub proof fn law_first_bit_tells_the_header(data: Seq<u8>)
    requires
        data.len() > 0,
    ensures
        is_short(data) <==> data[0] < 128,
{
    let b = data[0];
    assert((b & 0x80 == 0) <==> b < 128) by (bit_vector);
}

/// Data opens its stream if that is not open, counts for acknowledgement, and
/// leaves the other streams alone. What begins below the offset expected next is
/// not handed on; the acknowledgement goes out at once when ten packets wait.
pub proof fn law_data_goes_to_its_stream(
    before: ZtConnectionActor,
    id: u32,
    offset: u64,
    data: Seq<u8>,
    room: bool,
    after: ZtConnectionActor,
    r: FrameOutcome,
)
    requires
        before.data_taken(id, offset, data, room, &after, r),
        before.pending_acks < u32::MAX,
    ensures
        after.state.streams@.contains_key(id),
        forall|other: u32|
            other != id && #[trigger] before.state.streams@.contains_key(other)
                ==> after.state.streams@.contains_key(other) && after.state.streams@[other]
                == before.state.streams@[other],
        after.pending_acks == before.pending_acks + 1,
        before.state.streams@.contains_key(id) ==> r.opened is None && after.next_stream_id
            == before.next_stream_id,
        !before.state.streams@.contains_key(id) ==> r.opened == Some(id) && (id < u32::MAX
            ==> after.next_stream_id > id) && after.next_stream_id >= before.next_stream_id && (
        after.next_stream_id == before.next_stream_id || after.next_stream_id == id + 1 || id
            == u32::MAX),
        ({
            let expected = if before.state.streams@.contains_key(id) {
                before.state.streams@[id].expected_rx_offset
            } else {
                0
            };
            &&& offset < expected ==> r.chunk is None && !r.flush_acks && after.state.streams@[id]
                == before.state.streams@[id]
            &&& offset >= expected ==> (r.flush_acks <==> before.pending_acks + 1 >= 10)
            &&& !room ==> r.chunk is None
            &&& room && offset == expected && data.len() > 0 ==> r.chunk is Some
                && crate::payload::contents(r.chunk->0).len() >= data.len()
                && after.state.streams@[id].expected_rx_offset >= offset + data.len()
            &&& r.chunk is Some ==> after.state.streams@[id].expected_rx_offset == expected
                + crate::payload::contents(r.chunk->0).len()
        }),
{
    let (s, mid) = choose|s: StreamState, mid: StreamState| #[trigger]
        ZtConnectionActor::stream_fed(s, offset, data, room, mid, after.state.streams@[id], r.chunk)
            && before.stream_for(id, s) && r.flush_acks == (offset >= s.expected_rx_offset
            && after.pending_acks >= ACK_BATCH);
    if room && offset == s.expected_rx_offset && data.len() > 0 {
        let end = after.state.streams@[id].expected_rx_offset as int;
        assert(mid.received().contains(offset as int));
        assert(r.chunk is Some);
        assert(end >= offset + data.len()) by {
            if end < offset + data.len() {
                assert(mid.received().contains(end));
            }
        }
    }
}

/// Data waits if it exceeds the peer's window, or what is in flight and the data
/// exceed the congestion window. What is cut off for sending moves the stream's
/// offset by its size.
pub proof fn law_sending_keeps_to_the_windows(actor: ZtConnectionActor, s: StreamState, len: usize)
    ensures
        actor.blocked(len) <==> len > actor.state.remote_window || len > actor.state.cwnd
            - actor.state.bytes_in_flight,
        s.next_tx_offset + len <= u64::MAX ==> ZtConnectionActor::advanced(s, len).next_tx_offset
            == s.next_tx_offset + len,
        ZtConnectionActor::advanced(s, len) == (StreamState {
            next_tx_offset: ZtConnectionActor::advanced(s, len).next_tx_offset,
            ..s
        }),
{
}

/// Probes ask for more than the size in use, in steps of 150 bytes at most once
/// 1200 are reached, and never for more than 1500; from there on there is none.
pub proof fn law_probe_sizes_go_up_to_1500(mtu: usize)
    ensures
        mtu < 1500 <==> next_probe_size(mtu) is Some,
        next_probe_size(mtu) matches Some(size) ==> mtu < size <= 1500 && size >= 1200,
        next_probe_size(mtu) matches Some(size) ==> (mtu >= 1200 ==> size - mtu <= 150),
        next_probe_size(mtu) matches Some(size) ==> size == 1200 || size == 1350 || size == 1400
            || size == 1450 || size == 1500,
        next_probe_size(mtu) matches Some(size) ==> (mtu >= 1350 ==> size - mtu <= 50),
{
}

/// A reply is good if and only if its signing key is a key and its signature is
/// good for the exchange key under it.
pub proof fn law_replies_sign_their_key(key: Seq<u8>, ed_key: Seq<u8>, signature: Seq<u8>)
    ensures
        reply_fault(key, ed_key, signature) is None <==> crate::crypto::ed25519_key_ok(ed_key)
            && crate::crypto::ed25519_accepts(ed_key, key, signature),
        !crate::crypto::ed25519_key_ok(ed_key) ==> reply_fault(key, ed_key, signature) == Some(
            ZtError::Crypto(CryptoFault::InvalidEdPk),
        ),
        crate::crypto::ed25519_key_ok(ed_key) && !crate::crypto::ed25519_accepts(
            ed_key,
            key,
            signature,
        ) ==> reply_fault(key, ed_key, signature) == Some(ZtError::Crypto(CryptoFault::InvalidSig)),
{
}

} // verus!
