//! What the application asks a connection to send.

use crate::actor::{SendPlan, ZtConnectionActor};
use crate::connection::ZtConnection;
use crate::connection_state::ConnectionState;
use crate::error::{PacketFault, ZtError};
use crate::payload::{bytes_clone, bytes_len};
use crate::stream_state::StreamState;
use crate::stream_type::StreamType;
use crate::totals::key_list;
use crate::unacked::{CloseReason, UnackedPayload};
use bytes::Bytes;
use vstd::prelude::*;

verus! {

broadcast use {vstd::std_specs::hash::group_hash_axioms, vstd::std_specs::vecdeque::group_vec_dequeue_axioms};

/// A packet leaves so many bytes to headers and tags.
pub const PACKET_OVERHEAD: usize = 64;

/// The streams of one side: those whose id has its parity.
pub open spec fn ids_of_parity(streams: Map<u32, StreamState>, parity: u32) -> Set<u32> {
    streams.dom().filter(|id: u32| id % 2 == parity)
}

/// Why an open request failed, and what to tell the peer.
pub struct OpenRefusal {
    pub error: ZtError,
    /// The limit that stands in the way, to be reported to the peer.
    pub blocked_at: Option<u64>,
}

impl ZtConnectionActor {
    /// Why data of `len` bytes cannot be sent on a stream now, if it cannot.
    ///
    /// The connection's window is looked at first, then the stream, then the
    /// congestion window. A stream cannot grow beyond what offsets can count.
    pub open spec fn send_fault(&self, stream_id: u32, len: int) -> Option<ZtError> {
        if self.state.remote_window < len {
            Some(ZtError::FlowControlBlocked)
        } else if !self.state.streams@.contains_key(stream_id) {
            Some(ZtError::ActorFailed)
        } else if self.state.streams@[stream_id].stream_type == StreamType::UnidirectionalIn {
            Some(ZtError::InvalidPacket(PacketFault::ReceiveOnlyStream))
        } else if self.state.streams@[stream_id].tx_window < len
            || self.state.streams@[stream_id].next_tx_offset + len > u64::MAX {
            Some(ZtError::FlowControlBlocked)
        } else if self.state.bytes_in_flight + len + self.state.queued_bytes
            > self.state.cc.window() {
            Some(ZtError::CongestionWindowFull)
        } else {
            None
        }
    }

    /// What taking data for a stream does: `after` and `r` come of `self`.
    pub open spec fn data_taken(
        &self,
        stream_id: u32,
        data: Bytes,
        after: &ZtConnectionActor,
        r: Result<(), ZtError>,
    ) -> bool {
        match r {
            Err(e) => self.send_fault(
                stream_id,
                crate::payload::contents(data).len() as int,
            ) == Some(e) && *after == *self,
            Ok(_) => {
                let len = crate::payload::contents(data).len();
                let stream = self.state.streams@[stream_id];
                &&& self.send_fault(stream_id, len as int) is None
                &&& *after == (ZtConnectionActor {
                    state: ZtConnection {
                        streams: after.state.streams,
                        unpaced_queue: after.state.unpaced_queue,
                        queued_bytes: crate::congestion::sat_add(
                            self.state.queued_bytes,
                            len as usize,
                        ),
                        conn_tx_offset: if self.state.conn_tx_offset + len > u64::MAX {
                            u64::MAX
                        } else {
                            (self.state.conn_tx_offset + len) as u64
                        },
                        remote_window: (self.state.remote_window - len) as u64,
                        ..self.state
                    },
                    ..*self
                })
                &&& after.state.streams@ == self.state.streams@.insert(
                    stream_id,
                    StreamState {
                        next_tx_offset: (stream.next_tx_offset + len) as u64,
                        tx_window: (stream.tx_window - len) as u64,
                        ..stream
                    },
                )
                &&& after.state.unpaced_queue@ == self.state.unpaced_queue@.push(
                    (
                        UnackedPayload::Stream {
                            stream_id,
                            offset: stream.next_tx_offset,
                            stream_type: stream.stream_type,
                            data,
                        },
                        0u32,
                    ),
                )
            },
        }
    }

    /// Takes data for a stream: charges it to the windows of stream and
    /// connection and queues it for sending.
    pub fn process_outgoing_data(&mut self, stream_id: u32, data: Bytes) -> (r: Result<(), ZtError>)
        requires
            old(self).wf(),
        ensures
            final(self).wf(),
            old(self).data_taken(stream_id, data, final(self), r),
    {
        let len: usize = bytes_len(&data);
        let to_send: u64 = len as u64;
        if self.state.remote_window < to_send {
            return Err(ZtError::FlowControlBlocked);
        }
        let (stream_type, tx_window, start) = match self.state.streams.get(&stream_id) {
            None => {
                return Err(ZtError::ActorFailed);
            },
            Some(s) => (s.stream_type, s.tx_window, s.next_tx_offset),
        };
        if stream_type == StreamType::UnidirectionalIn {
            return Err(ZtError::InvalidPacket(PacketFault::ReceiveOnlyStream));
        }
        if tx_window < to_send || start > u64::MAX - to_send {
            return Err(ZtError::FlowControlBlocked);
        }
        let wanted: u128 = self.state.bytes_in_flight as u128 + len as u128
            + self.state.queued_bytes as u128;
        if wanted > self.state.cc.cwnd() as u128 {
            return Err(ZtError::CongestionWindowFull);
        }
        if let Some(mut stream) = self.state.streams.remove(&stream_id) {
            stream.next_tx_offset = start + to_send;
            stream.tx_window = tx_window - to_send;
            self.state.streams.insert(stream_id, stream);
        }
        self.state.conn_tx_offset = self.state.conn_tx_offset.saturating_add(to_send);
        self.state.remote_window = self.state.remote_window - to_send;
        self.state.unpaced_queue.push_back(
            (UnackedPayload::Stream { stream_id, offset: start, stream_type, data }, 0),
        );
        self.state.queued_bytes = self.state.queued_bytes.saturating_add(len);
        assert(self.state.streams@ =~= old(self).state.streams@.insert(
            stream_id,
            self.state.streams@[stream_id],
        ));
        Ok(())
    }

    /// The size of the payload that waits longest for being sent.
    pub fn next_paced_len(&self) -> (r: Option<usize>)
        ensures
            r == if self.state.unpaced_queue@.len() == 0 {
                None::<usize>
            } else {
                Some(self.state.unpaced_queue@[0].0.size() as usize)
            },
    {
        if self.state.unpaced_queue.len() == 0 {
            None
        } else {
            Some(self.state.unpaced_queue[0].0.len())
        }
    }

    /// Takes the payload that waits longest off the queue.
    pub fn take_paced(&mut self) -> (r: Option<(UnackedPayload, u32)>)
        requires
            old(self).wf(),
        ensures
            final(self).wf(),
            *final(self) == (ZtConnectionActor {
                state: ZtConnection {
                    unpaced_queue: final(self).state.unpaced_queue,
                    queued_bytes: final(self).state.queued_bytes,
                    ..old(self).state
                },
                ..*old(self)
            }),
            match r {
                None => old(self).state.unpaced_queue@.len() == 0 && *final(self) == *old(self),
                Some(entry) => {
                    &&& old(self).state.unpaced_queue@.len() > 0
                    &&& entry == old(self).state.unpaced_queue@[0]
                    &&& final(self).state.unpaced_queue@
                        == old(self).state.unpaced_queue@.drop_first()
                    &&& final(self).state.queued_bytes == crate::congestion::sat_sub(
                        old(self).state.queued_bytes,
                        entry.0.size() as usize,
                    )
                },
            },
            r matches Some(entry) ==> seq![entry] + final(self).state.unpaced_queue@
                == old(self).state.unpaced_queue@,
            r is None <==> old(self).state.unpaced_queue@.len() == 0,
    {
        if self.state.unpaced_queue.len() == 0 {
            return None;
        }
        match self.state.unpaced_queue.pop_front() {
            Some(entry) => {
                let len: usize = entry.0.len();
                self.state.queued_bytes = self.state.queued_bytes.saturating_sub(len);
                assert(self.state.unpaced_queue@ =~= old(
                    self,
                ).state.unpaced_queue@.drop_first());
                assert(seq![entry] + self.state.unpaced_queue@ =~= old(self).state.unpaced_queue@);
                Some(entry)
            },
            None => None,
        }
    }

    /// Closes a stream: its state goes, and the peer is told where it ends.
    pub fn close_stream(&mut self, stream_id: u32) -> (payload: UnackedPayload)
        requires
            old(self).wf(),
        ensures
            final(self).wf(),
            *final(self) == (ZtConnectionActor {
                state: ZtConnection { streams: final(self).state.streams, ..old(self).state },
                ..*old(self)
            }),
            final(self).state.streams@ == old(self).state.streams@.remove(stream_id),
            payload == (UnackedPayload::StreamClose {
                stream_id,
                final_offset: if old(self).state.streams@.contains_key(stream_id) {
                    old(self).state.streams@[stream_id].next_tx_offset
                } else {
                    0
                },
            }),
    {
        let final_offset: u64 = match self.state.streams.remove(&stream_id) {
            Some(s) => s.next_tx_offset,
            None => 0,
        };
        UnackedPayload::StreamClose { stream_id, final_offset }
    }

    /// Aborts a stream: its state goes, and the peer is told the error code.
    pub fn reset_stream(&mut self, stream_id: u32, error_code: u64) -> (payload: UnackedPayload)
        requires
            old(self).wf(),
        ensures
            final(self).wf(),
            *final(self) == (ZtConnectionActor {
                state: ZtConnection { streams: final(self).state.streams, ..old(self).state },
                ..*old(self)
            }),
            final(self).state.streams@ == old(self).state.streams@.remove(stream_id),
            payload == (UnackedPayload::StreamReset { stream_id, error_code }),
    {
        self.state.streams.remove(&stream_id);
        UnackedPayload::StreamReset { stream_id, error_code }
    }

    /// Starts to close the connection, with a reason or without.
    pub fn initiate_close(&mut self, error: Option<CloseReason>) -> (payload: UnackedPayload)
        ensures
            *final(self) == (ZtConnectionActor {
                state: ZtConnection { state: ConnectionState::Closing, ..old(self).state },
                ..*old(self)
            }),
            payload == (UnackedPayload::Close { error }),
    {
        self.state.state = ConnectionState::Closing;
        UnackedPayload::Close { error }
    }

    /// The largest datagram that the path and the peer take.
    pub open spec fn datagram_limit(&self) -> usize {
        crate::congestion::smaller(
            crate::congestion::sat_sub(self.state.mtu, PACKET_OVERHEAD),
            self.state.peer_max_datagram_size,
        )
    }

    /// Why a datagram of `len` bytes cannot be sent now, if it cannot.
    pub open spec fn datagram_fault(&self, len: nat) -> Option<ZtError> {
        if len > self.datagram_limit() {
            Some(
                ZtError::InvalidPacket(
                    PacketFault::DatagramTooLarge { limit: self.datagram_limit() },
                ),
            )
        } else if crate::congestion::sat_add(self.state.bytes_in_flight, len as usize)
            > self.state.cc.window() {
            Some(ZtError::CongestionWindowFull)
        } else {
            None
        }
    }

    /// What taking a datagram does: `after` and `r` come of `self`.
    pub open spec fn datagram_taken(
        &self,
        data: Bytes,
        after: &ZtConnectionActor,
        r: Result<(), ZtError>,
    ) -> bool {
        match r {
            Err(e) => self.datagram_fault(crate::payload::contents(data).len()) == Some(e)
                && *after == *self,
            Ok(_) => {
                let len = crate::payload::contents(data).len();
                &&& self.datagram_fault(len) is None
                &&& *after == (ZtConnectionActor {
                    state: ZtConnection {
                        unpaced_queue: after.state.unpaced_queue,
                        queued_bytes: crate::congestion::sat_add(
                            self.state.queued_bytes,
                            len as usize,
                        ),
                        ..self.state
                    },
                    ..*self
                })
                &&& after.state.unpaced_queue@ == self.state.unpaced_queue@.push(
                    (UnackedPayload::Datagram { data }, 0u32),
                )
            },
        }
    }

    /// Takes a datagram and queues it for sending, if it fits into a packet and
    /// into the congestion window.
    pub fn send_datagram(&mut self, data: Bytes) -> (r: Result<(), ZtError>)
        requires
            old(self).wf(),
        ensures
            final(self).wf(),
            old(self).datagram_taken(data, final(self), r),
    {
        let len: usize = bytes_len(&data);
        let path: usize = self.state.mtu.saturating_sub(PACKET_OVERHEAD);
        let limit: usize = if path < self.state.peer_max_datagram_size {
            path
        } else {
            self.state.peer_max_datagram_size
        };
        if len > limit {
            return Err(ZtError::InvalidPacket(PacketFault::DatagramTooLarge { limit }));
        }
        if self.state.bytes_in_flight.saturating_add(len) > self.state.cc.cwnd() {
            return Err(ZtError::CongestionWindowFull);
        }
        self.state.unpaced_queue.push_back((UnackedPayload::Datagram { data }, 0));
        self.state.queued_bytes = self.state.queued_bytes.saturating_add(len);
        Ok(())
    }

    /// The parity of the streams that this side opens.
    pub open spec fn local_parity(&self) -> u32 {
        if self.is_client {
            0
        } else {
            1
        }
    }

    /// How many streams of this side are open.
    pub open spec fn opened_count(&self) -> nat {
        ids_of_parity(self.state.streams@, self.local_parity()).len()
    }

    fn count_opened(&self) -> (r: usize)
        ensures
            r == self.opened_count(),
    {
        let ids = key_list(&self.state.streams);
        let parity: u32 = if self.is_client {
            0
        } else {
            1
        };
        let mut count: usize = 0;
        let mut i: usize = 0;
        let ghost mut seen = Set::<u32>::empty();
        while i < ids.len()
            invariant
                i <= ids@.len(),
                ids@.no_duplicates(),
                count <= i,
                seen.finite(),
                seen.len() == count,
                forall|id: u32| #[trigger]
                    seen.contains(id) <==> id % 2 == parity && exists|j: int|
                        0 <= j < i && #[trigger] ids@[j] == id,
            decreases ids@.len() - i,
        {
            let id: u32 = ids[i];
            let ghost before = seen;
            if id % 2 == parity {
                count = count + 1;
                proof {
                    assert(!before.contains(id));
                    seen = before.insert(id);
                }
            }
            proof {
                assert forall|x: u32| #[trigger]
                    seen.contains(x) <==> x % 2 == parity && exists|j: int|
                        0 <= j < i + 1 && #[trigger] ids@[j] == x by {
                    if before.contains(x) {
                        let j = choose|j: int| 0 <= j < i && #[trigger] ids@[j] == x;
                        assert(0 <= j < i + 1 && ids@[j] == x);
                    }
                    if x == id {
                        assert(ids@[i as int] == x);
                    }
                }
            }
            i = i + 1;
        }
        proof {
            assert(seen =~= ids_of_parity(self.state.streams@, parity)) by {
                assert forall|x: u32| seen.contains(x) <==> ids_of_parity(
                    self.state.streams@,
                    parity,
                ).contains(x) by {
                    if ids_of_parity(self.state.streams@, parity).contains(x) {
                        assert(ids@.to_set().contains(x));
                        let j = choose|j: int| 0 <= j < ids@.len() && ids@[j] == x;
                        assert(ids@[j] == x);
                    }
                    if seen.contains(x) {
                        let j = choose|j: int| 0 <= j < ids@.len() && #[trigger] ids@[j] == x;
                        assert(ids@.contains(x));
                        assert(ids@.to_set().contains(x));
                    }
                }
            }
        }
        count
    }

    /// What a request to open a stream does: `after` and `r` come of `self`.
    pub open spec fn stream_opened(
        &self,
        stream_type: StreamType,
        now: u64,
        after: &ZtConnectionActor,
        r: Result<u32, OpenRefusal>,
    ) -> bool {
        if stream_type == StreamType::UnidirectionalIn {
            *after == *self && (r matches Err(e) && e.blocked_at is None && e.error
                == ZtError::InvalidPacket(PacketFault::ReceiveOnlyStream))
        } else if self.opened_count() >= self.state.peer_max_streams {
            *after == *self && (r matches Err(e) && e.blocked_at == Some(
                self.state.peer_max_streams,
            ) && e.error == (ZtError::TooManyStreams {
                limit: self.state.peer_max_streams as usize,
            }))
        } else if self.next_stream_id + 2 > u32::MAX {
            *after == *self && (r matches Err(e) && e.blocked_at is None && e.error
                == ZtError::ConnectionIdExhausted)
        } else {
            &&& r == Ok::<u32, OpenRefusal>(self.next_stream_id)
            &&& *after == (ZtConnectionActor {
                state: ZtConnection { streams: after.state.streams, ..self.state },
                next_stream_id: (self.next_stream_id + 2) as u32,
                ..*self
            })
            &&& after.state.streams@ == self.state.streams@.insert(
                self.next_stream_id,
                after.state.streams@[self.next_stream_id],
            )
            &&& after.state.streams@[self.next_stream_id].is_fresh(
                stream_type,
                self.initial_stream_window,
                self.state.peer_initial_stream_window,
                now,
            )
        }
    }

    /// Opens a stream. Receive-only streams are the peer's to open, and the
    /// peer limits how many there may be.
    pub fn open_stream(&mut self, stream_type: StreamType, now: u64) -> (r: Result<u32, OpenRefusal>)
        requires
            old(self).wf(),
        ensures
            final(self).wf(),
            old(self).stream_opened(stream_type, now, final(self), r),
            r matches Ok(id) ==> id % 2 == old(self).local_parity(),
    {
        if stream_type == StreamType::UnidirectionalIn {
            return Err(
                OpenRefusal {
                    error: ZtError::InvalidPacket(PacketFault::ReceiveOnlyStream),
                    blocked_at: None,
                },
            );
        }
        let opened: u64 = self.count_opened() as u64;
        let limit: u64 = self.state.peer_max_streams;
        if opened >= limit {
            return Err(
                OpenRefusal {
                    error: ZtError::TooManyStreams { limit: limit as usize },
                    blocked_at: Some(limit),
                },
            );
        }
        let stream_id: u32 = self.next_stream_id;
        match stream_id.checked_add(2) {
            None => Err(OpenRefusal { error: ZtError::ConnectionIdExhausted, blocked_at: None }),
            Some(next) => {
                self.next_stream_id = next;
                self.state.streams.insert(
                    stream_id,
                    StreamState::new(
                        stream_type,
                        self.initial_stream_window,
                        self.state.peer_initial_stream_window,
                        now,
                    ),
                );
                Ok(stream_id)
            },
        }
    }

    /// Numbers an Initial packet, and remembers the cookie that it repeats.
    pub fn plan_initial(&mut self, cookie: &Option<Bytes>) -> (r: Result<SendPlan, ZtError>)
        requires
            old(self).wf(),
        ensures
            final(self).wf(),
            match r {
                Err(e) => e is PacketNumberOverflow && old(self).state.next_packet_number
                    == u64::MAX && *final(self) == *old(self),
                Ok(p) => {
                    &&& p.packet_number == old(self).state.next_packet_number < u64::MAX
                    &&& old(self).plan_fits(p)
                    &&& *final(self) == (ZtConnectionActor {
                        state: ZtConnection {
                            next_packet_number: (old(self).state.next_packet_number + 1) as u64,
                            cookie: final(self).state.cookie,
                            ..old(self).state
                        },
                        ..*old(self)
                    })
                    &&& match *cookie {
                        None => final(self).state.cookie == old(self).state.cookie,
                        Some(c) => final(self).state.cookie is Some && crate::payload::contents(
                            final(self).state.cookie->0,
                        ) == crate::payload::contents(c),
                    }
                },
            },
    {
        let plan = match self.number_packet() {
            Ok(p) => p,
            Err(e) => {
                return Err(e);
            },
        };
        if let Some(c) = cookie {
            self.state.cookie = Some(bytes_clone(c));
        }
        Ok(plan)
    }
}

/// How many of `len` bytes of a stream go into one packet: as many as fit, at
/// least one.
pub fn piece_len(len: usize, mtu: usize) -> (r: usize)
    ensures
        r == crate::congestion::smaller(
            len,
            crate::congestion::larger(crate::congestion::sat_sub(mtu, PACKET_OVERHEAD), 1),
        ),
        r <= len,
        len > 0 ==> r > 0,
        mtu > 64 ==> r + 64 <= mtu,
        r < len ==> r == 1 || r + 64 == mtu,
{
    let fits: usize = if mtu > PACKET_OVERHEAD {
        mtu - PACKET_OVERHEAD
    } else {
        1
    };
    if len < fits {
        len
    } else {
        fits
    }
}

/// How much padding fills an Initial packet of `len` bytes so far up to 1200,
/// with the tag.
pub fn initial_padding(len: usize) -> (r: usize)
    ensures
        r == if len + crate::handshake::TAG_SIZE >= crate::handshake::MIN_INITIAL_SIZE {
            0
        } else {
            crate::handshake::MIN_INITIAL_SIZE - len - crate::handshake::TAG_SIZE
        },
        len + r + 16 >= 1200,
        r > 0 ==> len + r + 16 == 1200,
{
    crate::handshake::MIN_INITIAL_SIZE.saturating_sub(
        len.saturating_add(crate::handshake::TAG_SIZE),
    )
}

/// Credit is neither lost nor made up: what a stream sends is taken off its
/// window, and the offset that the peer allows stays the same. The same goes for
/// the connection, and the other streams are not touched.
pub proof fn law_credit_is_conserved(
    before: ZtConnectionActor,
    after: ZtConnectionActor,
    stream_id: u32,
    data: Bytes,
    r: Result<(), ZtError>,
)
    requires
        before.data_taken(stream_id, data, &after, r),
        r is Ok,
    ensures
        ({
            let s0 = before.state.streams@[stream_id];
            let s1 = after.state.streams@[stream_id];
            let len = crate::payload::contents(data).len();
            &&& s1.next_tx_offset + s1.tx_window == s0.next_tx_offset + s0.tx_window
            &&& s1.next_tx_offset == s0.next_tx_offset + len
            &&& after.state.remote_window + len == before.state.remote_window
        }),
        forall|id: u32|
            id != stream_id && #[trigger] before.state.streams@.contains_key(id)
                ==> after.state.streams@.contains_key(id) && after.state.streams@[id]
                == before.state.streams@[id],
{
}

/// Nothing is ever sent on a stream that only the peer may send on, nor more than
/// the windows of peer and network allow.
pub proof fn law_limits_are_respected(
    before: ZtConnectionActor,
    after: ZtConnectionActor,
    stream_id: u32,
    data: Bytes,
    r: Result<(), ZtError>,
)
    requires
        before.data_taken(stream_id, data, &after, r),
        r is Ok,
    ensures
        before.state.streams@[stream_id].stream_type != StreamType::UnidirectionalIn,
        crate::payload::contents(data).len() <= before.state.remote_window,
        crate::payload::contents(data).len() <= before.state.streams@[stream_id].tx_window,
        before.state.bytes_in_flight + before.state.queued_bytes + crate::payload::contents(
            data,
        ).len() <= before.state.cc.window(),
{
}

/// When data is refused. The peer's window for the connection comes first, then
/// the stream itself, then the peer's window for the stream, then the congestion
/// window, which what is in flight and what is queued share. Whatever the reason,
/// a refusal changes nothing; without a reason, data is taken.
pub proof fn law_data_is_refused_for_a_reason(
    before: ZtConnectionActor,
    after: ZtConnectionActor,
    stream_id: u32,
    data: Bytes,
    r: Result<(), ZtError>,
)
    requires
        before.data_taken(stream_id, data, &after, r),
    ensures
        r is Err ==> after == before,
        ({
            let len = crate::payload::contents(data).len();
            let s = before.state.streams@[stream_id];
            let window = before.state.cc.window();
            if len > before.state.remote_window {
                r == Err::<(), ZtError>(ZtError::FlowControlBlocked)
            } else if !before.state.streams@.contains_key(stream_id) {
                r == Err::<(), ZtError>(ZtError::ActorFailed)
            } else if s.stream_type is UnidirectionalIn {
                r == Err::<(), ZtError>(ZtError::InvalidPacket(PacketFault::ReceiveOnlyStream))
            } else if len > s.tx_window || s.next_tx_offset + len > u64::MAX {
                r == Err::<(), ZtError>(ZtError::FlowControlBlocked)
            } else if len > window - before.state.bytes_in_flight - before.state.queued_bytes {
                r == Err::<(), ZtError>(ZtError::CongestionWindowFull)
            } else {
                r is Ok
            }
        }),
{
}

/// Data that is taken waits at the end of the queue, at the offset where the
/// stream stood, as data that was never sent. The queue keeps its order.
pub proof fn law_data_is_queued_in_order(
    before: ZtConnectionActor,
    after: ZtConnectionActor,
    stream_id: u32,
    data: Bytes,
    r: Result<(), ZtError>,
)
    requires
        before.data_taken(stream_id, data, &after, r),
        r is Ok,
    ensures
        ({
            let q0 = before.state.unpaced_queue@;
            let q1 = after.state.unpaced_queue@;
            let len = crate::payload::contents(data).len();
            &&& q1.len() == q0.len() + 1
            &&& forall|i: int| 0 <= i < q0.len() ==> #[trigger] q1[i] == q0[i]
            &&& q1.last().1 == 0
            &&& q1.last().0 matches UnackedPayload::Stream {
                stream_id: id,
                offset,
                stream_type,
                data: d,
            } && id == stream_id && offset == before.state.streams@[stream_id].next_tx_offset
                && stream_type == before.state.streams@[stream_id].stream_type && d == data
            &&& before.state.queued_bytes + len <= usize::MAX ==> after.state.queued_bytes
                == before.state.queued_bytes + len
            &&& before.state.conn_tx_offset + len <= u64::MAX ==> after.state.conn_tx_offset
                == before.state.conn_tx_offset + len
            &&& after == (ZtConnectionActor {
                state: ZtConnection {
                    streams: after.state.streams,
                    unpaced_queue: after.state.unpaced_queue,
                    queued_bytes: after.state.queued_bytes,
                    conn_tx_offset: after.state.conn_tx_offset,
                    remote_window: after.state.remote_window,
                    ..before.state
                },
                ..before
            })
            &&& after.state.streams@[stream_id] == (StreamState {
                next_tx_offset: after.state.streams@[stream_id].next_tx_offset,
                tx_window: after.state.streams@[stream_id].tx_window,
                ..before.state.streams@[stream_id]
            })
        }),
{
}

/// When a datagram is refused: if it does not fit into one packet, with 64 bytes
/// left to headers and tags, or is more than the peer takes; and if it would
/// exceed the congestion window. A refusal changes nothing. A datagram that is
/// taken waits at the end of the queue, and takes no stream's credit.
pub proof fn law_datagrams_fit_into_one_packet(
    before: ZtConnectionActor,
    after: ZtConnectionActor,
    data: Bytes,
    r: Result<(), ZtError>,
)
    requires
        before.datagram_taken(data, &after, r),
        crate::payload::contents(data).len() <= usize::MAX,
    ensures
        ({
            let len = crate::payload::contents(data).len();
            let large = len + 64 > before.state.mtu && len > 0 || len
                > before.state.peer_max_datagram_size;
            &&& large ==> (r matches Err(ZtError::InvalidPacket(PacketFault::DatagramTooLarge {
                limit,
            })) && limit < len && limit <= before.state.peer_max_datagram_size)
            &&& !large && before.state.bytes_in_flight + len > before.state.cc.window()
                && before.state.bytes_in_flight + len <= usize::MAX ==> r == Err::<(), ZtError>(
                ZtError::CongestionWindowFull,
            )
            &&& !large && before.state.bytes_in_flight + len <= before.state.cc.window() ==> r is Ok
            &&& r is Err ==> after == before
            &&& r is Ok ==> after.state.unpaced_queue@.len() == before.state.unpaced_queue@.len()
                + 1 && after.state.unpaced_queue@.drop_last() == before.state.unpaced_queue@
                && after.state.unpaced_queue@.last() == (UnackedPayload::Datagram { data }, 0u32)
            &&& after == (ZtConnectionActor {
                state: ZtConnection {
                    unpaced_queue: after.state.unpaced_queue,
                    queued_bytes: after.state.queued_bytes,
                    ..before.state
                },
                ..before
            })
            &&& r is Ok && before.state.queued_bytes + len <= usize::MAX
                ==> after.state.queued_bytes == before.state.queued_bytes + len
        }),
{
    if r is Ok {
        assert(after.state.unpaced_queue@.drop_last() =~= before.state.unpaced_queue@);
    }
}

/// What comes of a request for a stream. Only the peer opens streams to receive
/// on; when as many streams of this side are open as the peer allows, it is told
/// so; otherwise the stream gets the next id of this side's parity, starts empty,
/// with the windows of both sides, and the other streams stay as they are.
pub proof fn law_streams_are_opened_in_turn(
    before: ZtConnectionActor,
    stream_type: StreamType,
    now: u64,
    after: ZtConnectionActor,
    r: Result<u32, OpenRefusal>,
)
    requires
        before.wf(),
        before.stream_opened(stream_type, now, &after, r),
    ensures
        ({
            let parity: int = if before.is_client {
                0
            } else {
                1
            };
            let own = before.state.streams@.dom().filter(|id: u32| id as int % 2 == parity);
            let limit = before.state.peer_max_streams;
            &&& r is Err ==> after == before
            &&& stream_type is UnidirectionalIn ==> r is Err && r->Err_0.error
                == ZtError::InvalidPacket(PacketFault::ReceiveOnlyStream) && r->Err_0.blocked_at is None
            &&& !(stream_type is UnidirectionalIn) && own.len() >= limit ==> r is Err
                && r->Err_0.blocked_at == Some(limit) && r->Err_0.error == (ZtError::TooManyStreams {
                limit: limit as usize,
            })
            &&& !(stream_type is UnidirectionalIn) && own.len() < limit && before.next_stream_id
                <= u32::MAX - 2 ==> r is Ok
            &&& !(stream_type is UnidirectionalIn) && own.len() < limit && before.next_stream_id
                > u32::MAX - 2 ==> r is Err && r->Err_0.error == ZtError::ConnectionIdExhausted
                && r->Err_0.blocked_at is None
            &&& r matches Ok(id) ==> id == before.next_stream_id && id as int % 2 == parity
                && after.next_stream_id == id + 2 && after.state.streams@
                == before.state.streams@.insert(id, after.state.streams@[id])
            &&& after == (ZtConnectionActor {
                state: ZtConnection { streams: after.state.streams, ..before.state },
                next_stream_id: after.next_stream_id,
                ..before
            })
            &&& r matches Ok(id) ==> ({
                let s = after.state.streams@[id];
                &&& s.stream_type == stream_type && s.next_tx_offset == 0 && s.expected_rx_offset
                    == 0 && s.buffered_bytes == 0
                &&& s.tx_window == before.state.peer_initial_stream_window
                &&& s.window_size == before.initial_stream_window && s.last_sent_max_data
                    == before.initial_stream_window
                &&& s.final_rx_offset is None && s.receive_buffer.read_head == 0
                &&& s.receive_buffer.received() == Set::<int>::empty()
            })
        }),
{
    let parity: int = if before.is_client {
        0
    } else {
        1
    };
    assert(before.state.streams@.dom().filter(|id: u32| id as int % 2 == parity)
        =~= ids_of_parity(before.state.streams@, before.local_parity()));
}

/// Two streams that one side opens in a row have different ids.
pub proof fn law_stream_ids_are_not_reused(
    a: ZtConnectionActor,
    b: ZtConnectionActor,
    c: ZtConnectionActor,
    first: StreamType,
    second: StreamType,
    t1: u64,
    t2: u64,
    r1: Result<u32, OpenRefusal>,
    r2: Result<u32, OpenRefusal>,
)
    requires
        a.stream_opened(first, t1, &b, r1),
        b.stream_opened(second, t2, &c, r2),
        r1 is Ok,
        r2 is Ok,
    ensures
        r2->Ok_0 == r1->Ok_0 + 2,
        c.state.streams@.contains_key(r1->Ok_0),
        c.state.streams@.contains_key(r2->Ok_0),
{
}

} // verus!
