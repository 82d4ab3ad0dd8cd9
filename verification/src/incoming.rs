//! What arrives from the peer.

use crate::actor::ZtConnectionActor;
use crate::addr::PeerAddr;
use crate::connection::ZtConnection;
use crate::connection_state::{ConnectionState, TerminationReason};
use crate::crypto::random_bytes;
use crate::error::{IoFault, PacketFault, ZtError};
use crate::frame::{Frame, PacketHeader, PacketType};
use crate::payload::bytes_as_slice;
use crate::recovery::AckOutcome;
use crate::stream_state::{Intake, StreamState};
use crate::stream_type::StreamType;
use crate::unacked::{CloseReason, UnackedPayload};
use crate::wire::same_bytes;
use bytes::Bytes;
use vstd::prelude::*;

verus! {

broadcast use vstd::std_specs::hash::group_hash_axioms;

/// An acknowledgement goes out at once when so many packets wait for theirs.
pub const ACK_BATCH: u32 = 10;

/// What came of passing a stream's data on.
pub struct Forwarded {
    /// Data for the application.
    pub chunk: Option<Bytes>,
    /// A new limit to announce to the peer.
    pub announce: Option<u64>,
    /// Whether the stream has come to its end.
    pub finished: bool,
}

/// The limit that a stream's window allows the peer, as far as offsets go.
pub open spec fn window_edge(s: StreamState) -> u64 {
    if s.expected_rx_offset + s.window_size > u64::MAX {
        u64::MAX
    } else {
        (s.expected_rx_offset + s.window_size) as u64
    }
}

/// How far the window moved since the peer was last told.
pub open spec fn window_moved(s: StreamState) -> int {
    if window_edge(s) < s.last_sent_max_data {
        0
    } else {
        window_edge(s) - s.last_sent_max_data
    }
}

/// Whether the window moved far enough to tell the peer: by a quarter.
pub open spec fn worth_announcing(s: StreamState) -> bool {
    window_moved(s) >= s.window_size / 4
}

/// The window that a stream should have once `chunk` was handed on.
pub open spec fn window_after(s: StreamState, chunk: Option<Bytes>, now: u64, rtt: u64) -> Option<
    u64,
> {
    match chunk {
        Some(b) => s.wanted_window(crate::payload::contents(b).len(), now, rtt),
        None => None,
    }
}

/// Whether the application has everything up to the stream's end.
pub open spec fn at_end(s: StreamState) -> bool {
    s.final_rx_offset matches Some(f) && s.expected_rx_offset >= f
}

/// The window that a stream gets: the one it wants, if the buffers of the
/// connection stay within the limit.
pub open spec fn granted_window(
    handed: StreamState,
    wanted: Option<u64>,
    allocated: nat,
    buffer_limit: usize,
) -> Option<u64> {
    match wanted {
        Some(w) if crate::totals::clamped(allocated) + (w - handed.window_size) <= buffer_limit
            && handed.receive_buffer.read_head + handed.window_size <= u64::MAX => Some(w),
        _ => None,
    }
}

/// How a granted window changes a stream.
pub open spec fn retuned(before: StreamState, after: StreamState, granted: Option<u64>) -> bool {
    match granted {
        None => after == before,
        Some(w) => {
            &&& after == (StreamState {
                receive_buffer: after.receive_buffer,
                window_size: w,
                ..before
            })
            &&& after.receive_buffer.capacity() == w
            &&& after.receive_buffer.read_head == before.receive_buffer.read_head
            &&& after.receive_buffer.write_head == before.receive_buffer.write_head
            &&& after.receive_buffer.received_ranges == before.receive_buffer.received_ranges
            &&& forall|x: int|
                before.receive_buffer.read_head <= x < before.receive_buffer.read_head
                    + before.receive_buffer.capacity()
                    ==> #[trigger] after.receive_buffer.buffer@[x % (w as int)]
                    == before.receive_buffer.buffer@[x % (
                before.receive_buffer.capacity() as int)]
        },
    }
}

impl ZtConnectionActor {
    /// What passing a stream's data on does: `after` and `f` come of `self`.
    ///
    /// The data goes out, a busy stream's window may grow, the peer is told when
    /// the window has moved by a quarter, and a stream that came to its end goes.
    pub open spec fn forwards(
        &self,
        stream_id: u32,
        now: u64,
        buffer_limit: usize,
        after: &ZtConnectionActor,
        f: Forwarded,
    ) -> bool {
        let s = self.state.streams@[stream_id];
        &&& *after == (ZtConnectionActor {
            state: ZtConnection { streams: after.state.streams, ..self.state },
            ..*self
        })
        &&& exists|h: StreamState, t: StreamState|
            #![trigger s.handed_on(&h, f.chunk, now), at_end(t)]
            {
                &&& s.handed_on(&h, f.chunk, now)
                &&& retuned(
                    h,
                    t,
                    granted_window(
                        h,
                        window_after(s, f.chunk, now, self.state.rtt),
                        crate::connection::total_allocated(self.state.streams@),
                        buffer_limit,
                    ),
                )
                &&& f.finished == at_end(t)
                &&& f.announce == if !f.finished && f.chunk is Some && worth_announcing(t) {
                    Some(window_edge(t))
                } else {
                    None
                }
                &&& after.state.streams@ == if f.finished {
                    self.state.streams@.remove(stream_id)
                } else if f.announce is Some {
                    self.state.streams@.insert(
                        stream_id,
                        StreamState { last_sent_max_data: window_edge(t), ..t },
                    )
                } else {
                    self.state.streams@.insert(stream_id, t)
                }
            }
    }

    /// What offering a stream's data to the application does: it passes on where
    /// there is room and such a stream, and else nothing happens.
    pub open spec fn offers(
        &self,
        stream_id: u32,
        room: bool,
        now: u64,
        buffer_limit: usize,
        after: &ZtConnectionActor,
        f: Forwarded,
    ) -> bool {
        if room && self.state.streams@.contains_key(stream_id) {
            self.forwards(stream_id, now, buffer_limit, after, f)
        } else {
            *after == *self && f == (Forwarded { chunk: None, announce: None, finished: false })
        }
    }

    /// Passes a stream's data on to the application. `room` tells whether the
    /// application can take any; otherwise the data stays where it is.
    pub fn forward_stream_data(
        &mut self,
        stream_id: u32,
        room: bool,
        now: u64,
        buffer_limit: usize,
    ) -> (f: Forwarded)
        requires
            old(self).wf(),
        ensures
            final(self).wf(),
            old(self).offers(stream_id, room, now, buffer_limit, final(self), f),
            f.chunk is Some && !f.finished ==> ({
                let told = old(self).state.streams@[stream_id].last_sent_max_data;
                let t = final(self).state.streams@[stream_id];
                let limit = t.expected_rx_offset + t.window_size;
                limit <= u64::MAX && limit - told >= t.window_size / 4 ==> f.announce == Some(
                    limit as u64,
                )
            }),
    {
        if !room {
            return Forwarded { chunk: None, announce: None, finished: false };
        }
        if !self.state.streams.contains_key(&stream_id) {
            return Forwarded { chunk: None, announce: None, finished: false };
        }
        let rtt: u64 = self.state.rtt;
        match self.state.streams.remove(&stream_id) {
            None => Forwarded { chunk: None, announce: None, finished: false },
            Some(mut stream) => {
                let ghost s = stream;
                let (chunk, wanted) = stream.hand_on(now, rtt);
                let ghost h = stream;
                let old_window: u64 = stream.window_size;
                if let Some(w) = wanted {
                    let others: usize = self.state.total_allocated_buffer_size();
                    proof {
                        lemma_allocated_without(old(self).state.streams@, stream_id);
                    }
                    let own: usize = stream.receive_buffer.buffer.len();
                    let total: usize = others.saturating_add(own);
                    let added: usize = (w - old_window) as usize;
                    let head: u64 = stream.receive_buffer.read_head;
                    if total as u128 + added as u128 <= buffer_limit as u128 && head <= u64::MAX
                        - old_window {
                        stream.receive_buffer.resize(w as usize);
                        stream.window_size = w;
                    }
                }
                let ghost t = stream;
                proof {
                    assert(retuned(
                        h,
                        t,
                        granted_window(
                            h,
                            wanted,
                            crate::connection::total_allocated(old(self).state.streams@),
                            buffer_limit,
                        ),
                    ));
                }
                let finished = match stream.final_rx_offset {
                    Some(f) => stream.expected_rx_offset >= f,
                    None => false,
                };
                if finished {
                    proof {
                        assert(self.state.streams@ =~= old(self).state.streams@.remove(stream_id));
                        assert(s.handed_on(&h, chunk, now) && at_end(t));
                    }
                    return Forwarded { chunk, announce: None, finished: true };
                }
                let max_data: u64 = stream.expected_rx_offset.saturating_add(stream.window_size);
                let moved: u64 = max_data.saturating_sub(stream.last_sent_max_data);
                let announce: Option<u64> = if chunk.is_some() && moved >= stream.window_size / 4 {
                    stream.last_sent_max_data = max_data;
                    Some(max_data)
                } else {
                    None
                };
                self.state.streams.insert(stream_id, stream);
                proof {
                    assert(s.handed_on(&h, chunk, now) && !at_end(t));
                    assert(self.state.streams@ =~= old(self).state.streams@.insert(
                        stream_id,
                        stream,
                    ));
                }
                Forwarded { chunk, announce, finished: false }
            },
        }
    }
}

/// Why a frame was refused, and what to send on that account.
pub struct FrameFault {
    pub error: ZtError,
    pub close: Option<UnackedPayload>,
}

/// What came of data for a stream.
pub struct StreamOutcome {
    /// The direction of the stream, if it is new.
    pub opened: Option<StreamType>,
    pub forwarded: Forwarded,
    /// Whether to acknowledge at once.
    pub flush_acks: bool,
}

/// What a frame is handled with besides itself.
pub struct FrameContext {
    pub addr: PeerAddr,
    pub now: u64,
    /// The round-trip time times one and a quarter.
    pub scaled_rtt: u64,
    /// Whether the application can take another stream.
    pub accepting: bool,
    /// Whether the application can take data of the frame's stream.
    pub room: bool,
    /// How much memory the buffers of the connection may take.
    pub buffer_limit: usize,
}

/// What is left to do after a frame.
pub enum FrameOutcome {
    Nothing,
    Stream(StreamOutcome),
    Ack(AckOutcome),
    /// The peer closed the connection; everybody who waits should look again.
    PeerClosed,
    /// The stream has come to its end.
    StreamEnded { id: u32 },
    /// The peer aborted the stream.
    StreamReset { id: u32, error_code: u64 },
    /// There is more credit on one stream.
    WakeStream { id: u32 },
    /// There is more credit on all streams.
    WakeAll,
    /// A datagram for the application.
    Datagram { data: Bytes },
    /// A frame to send to an address at once.
    Send { frame: Frame, addr: PeerAddr },
    /// The connection has moved to a validated address.
    Migrated,
}

/// `n` counted up, as far as it goes.
pub open spec fn one_more(n: u32) -> u32 {
    if n == u32::MAX {
        n
    } else {
        (n + 1) as u32
    }
}

impl ZtConnectionActor {
    /// The parity of the streams that the peer opens.
    pub open spec fn peer_parity(&self) -> u32 {
        if self.is_client {
            1
        } else {
            0
        }
    }

    /// Why the peer cannot open a stream, if it cannot, and whether the
    /// connection is closed on that account.
    pub open spec fn open_fault(&self, id: u32, sender_type: StreamType, accepting: bool) -> Option<
        (ZtError, bool),
    > {
        if id % 2 != self.peer_parity() {
            Some((ZtError::InvalidPacket(PacketFault::InvalidStreamParity), true))
        } else if sender_type.seen_by_peer() is None {
            Some((ZtError::InvalidPacket(PacketFault::InvalidStreamDirection), true))
        } else if self.state.streams@.dom().len() >= self.state.local_max_streams {
            Some((ZtError::TooManyStreams { limit: self.state.local_max_streams as usize }, false))
        } else if !accepting {
            Some((ZtError::Io(IoFault::ApplicationGone), true))
        } else {
            None
        }
    }

    /// The actor with its connection closing.
    pub open spec fn closing(&self) -> ZtConnectionActor {
        ZtConnectionActor {
            state: ZtConnection { state: ConnectionState::Closing, ..self.state },
            ..*self
        }
    }

    fn refuse_and_close(&mut self, error: ZtError) -> (r: FrameFault)
        ensures
            *final(self) == old(self).closing(),
            r.error == error,
            r.close == Some(UnackedPayload::Close { error: None }),
    {
        let payload = self.initiate_close(None);
        FrameFault { error, close: Some(payload) }
    }

    /// How the first frame of a stream opens it, or does not.
    pub open spec fn ensures_stream(
        &self,
        id: u32,
        sender_type: StreamType,
        accepting: bool,
        now: u64,
        after: &ZtConnectionActor,
        r: Result<Option<StreamType>, FrameFault>,
    ) -> bool {
        if self.state.streams@.contains_key(id) {
            r == Ok::<Option<StreamType>, FrameFault>(None) && *after == *self
        } else {
            match self.open_fault(id, sender_type, accepting) {
                Some((error, true)) => r is Err && r->Err_0.error == error && r->Err_0.close
                    == Some(UnackedPayload::Close { error: None }) && *after == self.closing(),
                Some((error, false)) => r is Err && r->Err_0.error == error && r->Err_0.close is None
                    && *after == *self,
                None => {
                    &&& r == Ok::<Option<StreamType>, FrameFault>(sender_type.seen_by_peer())
                    &&& *after == (ZtConnectionActor {
                        state: ZtConnection { streams: after.state.streams, ..self.state },
                        ..*self
                    })
                    &&& after.state.streams@ == self.state.streams@.insert(
                        id,
                        after.state.streams@[id],
                    )
                    &&& after.state.streams@[id].is_fresh(
                        sender_type.seen_by_peer()->0,
                        self.initial_stream_window,
                        self.state.peer_initial_stream_window,
                        now,
                    )
                },
            }
        }
    }

    /// Opens a stream for the peer, unless it is open.
    pub fn ensure_stream(
        &mut self,
        id: u32,
        sender_type: StreamType,
        accepting: bool,
        now: u64,
    ) -> (r: Result<Option<StreamType>, FrameFault>)
        requires
            old(self).wf(),
        ensures
            final(self).wf(),
            old(self).ensures_stream(id, sender_type, accepting, now, final(self), r),
    {
        if self.state.streams.contains_key(&id) {
            return Ok(None);
        }
        let expected_parity: u32 = if self.is_client {
            1
        } else {
            0
        };
        if id % 2 != expected_parity {
            return Err(
                self.refuse_and_close(ZtError::InvalidPacket(PacketFault::InvalidStreamParity)),
            );
        }
        let local_type = match sender_type.for_peer() {
            Some(t) => t,
            None => {
                return Err(
                    self.refuse_and_close(
                        ZtError::InvalidPacket(PacketFault::InvalidStreamDirection),
                    ),
                );
            },
        };
        let limit: u64 = self.state.local_max_streams;
        if self.state.streams.len() as u64 >= limit {
            return Err(
                FrameFault {
                    error: ZtError::TooManyStreams { limit: limit as usize },
                    close: None,
                },
            );
        }
        if !accepting {
            return Err(self.refuse_and_close(ZtError::Io(IoFault::ApplicationGone)));
        }
        self.state.streams.insert(
            id,
            StreamState::new(
                local_type,
                self.initial_stream_window,
                self.state.peer_initial_stream_window,
                now,
            ),
        );
        Ok(Some(local_type))
    }

    /// The actor with one stream in another state.
    pub open spec fn stream_is(&self, id: u32, stream: StreamState, after: &ZtConnectionActor) -> bool {
        &&& *after == (ZtConnectionActor {
            state: ZtConnection { streams: after.state.streams, ..self.state },
            ..*self
        })
        &&& after.state.streams@ == self.state.streams@.insert(id, stream)
    }

    /// What data for an open stream does.
    ///
    /// Data that was handed on before is only acknowledged. Data beyond the window
    /// closes the connection. Other data is taken in, passed on and acknowledged,
    /// at once if ten packets wait for it.
    pub open spec fn takes_data(
        &self,
        id: u32,
        offset: u64,
        data: Seq<u8>,
        room: bool,
        now: u64,
        buffer_limit: usize,
        after: &ZtConnectionActor,
        r: Result<StreamOutcome, FrameFault>,
    ) -> bool {
        let s = self.state.streams@[id];
        let nothing = Forwarded { chunk: None, announce: None, finished: false };
        if s.is_stale(offset, data.len()) {
            &&& *after == (ZtConnectionActor { pending_acks: one_more(self.pending_acks), ..*self })
            &&& r == Ok::<StreamOutcome, FrameFault>(
                StreamOutcome { opened: None, forwarded: nothing, flush_acks: false },
            )
        } else if s.is_beyond(offset, data.len()) {
            &&& *after == self.closing()
            &&& r is Err
            &&& r->Err_0.error == ZtError::InvalidPacket(PacketFault::ReceiveWindowExceeded)
            &&& r->Err_0.close == Some(UnackedPayload::Close { error: None })
        } else {
            exists|taken: StreamState, mid: ZtConnectionActor, end: ZtConnectionActor|
                #![trigger self.stream_is(id, taken, &mid), end.wf()]
                {
                    &&& if data.len() > 0 {
                        s.took_in(&taken, offset, data)
                    } else {
                        taken == s
                    }
                    &&& self.stream_is(id, taken, &mid)
                    &&& end.wf()
                    &&& r is Ok
                    &&& r->Ok_0.opened is None
                    &&& if room {
                        mid.forwards(id, now, buffer_limit, &end, r->Ok_0.forwarded)
                    } else {
                        end == mid && r->Ok_0.forwarded == nothing
                    }
                    &&& *after == (ZtConnectionActor {
                        pending_acks: one_more(self.pending_acks),
                        ..end
                    })
                    &&& r->Ok_0.flush_acks == (one_more(self.pending_acks) >= ACK_BATCH)
                }
        }
    }

    /// Takes in data for an open stream.
    pub fn take_stream_data(
        &mut self,
        id: u32,
        offset: u64,
        data: &[u8],
        room: bool,
        now: u64,
        buffer_limit: usize,
    ) -> (r: Result<StreamOutcome, FrameFault>)
        requires
            old(self).wf(),
            old(self).state.streams@.contains_key(id),
        ensures
            final(self).wf(),
            old(self).takes_data(id, offset, data@, room, now, buffer_limit, final(self), r),
    {
        let intake = match self.state.streams.get(&id) {
            None => Intake::Stale,
            Some(stream) => stream.judge(offset, data.len()),
        };
        match intake {
            Intake::Stale => {
                self.pending_acks = self.pending_acks.saturating_add(1);
                Ok(
                    StreamOutcome {
                        opened: None,
                        forwarded: Forwarded { chunk: None, announce: None, finished: false },
                        flush_acks: false,
                    },
                )
            },
            Intake::Beyond => Err(
                self.refuse_and_close(ZtError::InvalidPacket(PacketFault::ReceiveWindowExceeded)),
            ),
            Intake::Taken => {
                if let Some(mut stream) = self.state.streams.remove(&id) {
                    let _ = stream.take_in(offset, data);
                    self.state.streams.insert(id, stream);
                }
                let ghost mid = *self;
                let ghost taken = self.state.streams@[id];
                assert(self.state.streams@ =~= old(self).state.streams@.insert(id, taken));
                let forwarded = self.forward_stream_data(id, room, now, buffer_limit);
                let ghost end = *self;
                self.pending_acks = self.pending_acks.saturating_add(1);
                let flush_acks = self.pending_acks >= ACK_BATCH;
                proof {
                    assert(old(self).stream_is(id, taken, &mid) && end.wf());
                }
                Ok(StreamOutcome { opened: None, forwarded, flush_acks })
            },
        }
    }
}

/// A limit less what was used of it.
pub open spec fn credit(limit: u64, used: u64) -> u64 {
    if limit < used {
        0
    } else {
        (limit - used) as u64
    }
}

/// The connection as a whole is granted at most so much at a time.
pub const MAX_CREDIT: u64 = 4_294_967_295;

/// The connection's limit less what was used of it, as far as it is granted.
pub open spec fn connection_credit(limit: u64, used: u64) -> u64 {
    if credit(limit, used) > MAX_CREDIT {
        MAX_CREDIT
    } else {
        credit(limit, used)
    }
}

impl ZtConnectionActor {
    /// What a frame does: `after` and `r` come of `self`.
    pub open spec fn frame_handled(
        &self,
        frame: Frame,
        ctx: FrameContext,
        after: &ZtConnectionActor,
        r: Result<FrameOutcome, FrameFault>,
    ) -> bool {
        match frame {
            Frame::Stream { id, offset, stream_type, data } => self.stream_frame_handled(
                id,
                offset,
                stream_type,
                crate::payload::contents(data),
                ctx,
                after,
                r,
            ),
            Frame::Ack { largest_acked, window_size, ack_delay, ack_ranges } => {
                &&& *after == (ZtConnectionActor { state: after.state, ..*self })
                &&& r is Ok
                &&& r->Ok_0 is Ack
                &&& self.state.acked_by(
                    largest_acked,
                    window_size,
                    ack_delay,
                    ack_ranges@,
                    ctx.now,
                    ctx.scaled_rtt,
                    &after.state,
                    r->Ok_0->Ack_0,
                )
            },
            Frame::ConnectionClose { error } => {
                &&& r == Ok::<FrameOutcome, FrameFault>(FrameOutcome::PeerClosed)
                &&& *after == (ZtConnectionActor {
                    state: ZtConnection {
                        state: ConnectionState::Closed,
                        closed: true,
                        termination: match error {
                            Some(e) => Some(
                                TerminationReason::ClosedByPeer {
                                    error_code: e.error_code,
                                    reason: e.reason,
                                },
                            ),
                            None => self.state.termination,
                        },
                        ..self.state
                    },
                    ..*self
                })
            },
            Frame::StreamClose { id, final_offset } => self.stream_close_handled(
                id,
                final_offset,
                after,
                r,
            ),
            Frame::StreamReset { id, error_code } => if self.state.streams@.contains_key(id) {
                &&& r == Ok::<FrameOutcome, FrameFault>(
                    FrameOutcome::StreamReset { id, error_code },
                )
                &&& *after == (ZtConnectionActor {
                    state: ZtConnection { streams: after.state.streams, ..self.state },
                    ..*self
                })
                &&& after.state.streams@ == self.state.streams@.remove(id)
            } else {
                r == Ok::<FrameOutcome, FrameFault>(FrameOutcome::Nothing) && *after == *self
            },
            Frame::MaxStreamData { id, max_data } => if self.state.streams@.contains_key(id) {
                let s = self.state.streams@[id];
                let window = credit(max_data, s.next_tx_offset);
                &&& r == Ok::<FrameOutcome, FrameFault>(
                    if window > s.tx_window {
                        FrameOutcome::WakeStream { id }
                    } else {
                        FrameOutcome::Nothing
                    },
                )
                &&& self.stream_is(id, StreamState { tx_window: window, ..s }, after)
            } else {
                r == Ok::<FrameOutcome, FrameFault>(FrameOutcome::Nothing) && *after == *self
            },
            Frame::MaxData { max_data } => {
                let window = connection_credit(max_data, self.state.conn_tx_offset);
                &&& r == Ok::<FrameOutcome, FrameFault>(
                    if window > self.state.remote_window {
                        FrameOutcome::WakeAll
                    } else {
                        FrameOutcome::Nothing
                    },
                )
                &&& *after == (ZtConnectionActor {
                    state: ZtConnection { remote_window: window, ..self.state },
                    ..*self
                })
            },
            Frame::MaxStreams { max_streams } => if max_streams > self.state.peer_max_streams {
                &&& r == Ok::<FrameOutcome, FrameFault>(FrameOutcome::WakeAll)
                &&& *after == (ZtConnectionActor {
                    state: ZtConnection { peer_max_streams: max_streams, ..self.state },
                    ..*self
                })
            } else {
                r == Ok::<FrameOutcome, FrameFault>(FrameOutcome::Nothing) && *after == *self
            },
            Frame::Datagram { data } => r == Ok::<FrameOutcome, FrameFault>(
                FrameOutcome::Datagram { data },
            ) && *after == *self,
            Frame::PathChallenge { token } => r == Ok::<FrameOutcome, FrameFault>(
                FrameOutcome::Send { frame: Frame::PathResponse { token }, addr: ctx.addr },
            ) && *after == *self,
            Frame::PathResponse { token } => if self.validates(token, ctx.addr) {
                &&& r == Ok::<FrameOutcome, FrameFault>(FrameOutcome::Migrated)
                &&& *after == (ZtConnectionActor {
                    state: ZtConnection { addr: ctx.addr, ..self.state },
                    pending_validation_addr: None,
                    path_validation_token: None,
                    path_validation_sent_at: None,
                    path_validation_retries: 0,
                    ..*self
                })
            } else {
                r == Ok::<FrameOutcome, FrameFault>(FrameOutcome::Nothing) && *after == *self
            },
            _ => r == Ok::<FrameOutcome, FrameFault>(FrameOutcome::Nothing) && *after == *self,
        }
    }

    /// Whether a token sent back from an address validates that address.
    pub open spec fn validates(&self, token: [u8; 8], addr: PeerAddr) -> bool {
        &&& self.path_validation_token matches Some(t)
        &&& t@ == token@
        &&& self.pending_validation_addr == Some(addr)
    }

    /// What the first or any other data frame of a stream does.
    pub open spec fn stream_frame_handled(
        &self,
        id: u32,
        offset: u64,
        sender_type: StreamType,
        data: Seq<u8>,
        ctx: FrameContext,
        after: &ZtConnectionActor,
        r: Result<FrameOutcome, FrameFault>,
    ) -> bool {
        exists|mid: ZtConnectionActor, opened: Result<Option<StreamType>, FrameFault>|
            {
                &&& #[trigger] self.ensures_stream(
                    id,
                    sender_type,
                    ctx.accepting,
                    ctx.now,
                    &mid,
                    opened,
                )
                &&& match opened {
                    Err(fault) => r == Err::<FrameOutcome, FrameFault>(fault) && *after == mid,
                    Ok(new_type) => match r {
                        Err(fault) => mid.takes_data(
                            id,
                            offset,
                            data,
                            ctx.room,
                            ctx.now,
                            ctx.buffer_limit,
                            after,
                            Err(fault),
                        ),
                        Ok(FrameOutcome::Stream(out)) => out.opened == new_type && mid.takes_data(
                            id,
                            offset,
                            data,
                            ctx.room,
                            ctx.now,
                            ctx.buffer_limit,
                            after,
                            Ok(StreamOutcome { opened: None, ..out }),
                        ),
                        _ => false,
                    },
                }
            }
    }

    /// What the peer's end of a stream does: the stream goes once the
    /// application has everything up to there.
    pub open spec fn stream_close_handled(
        &self,
        id: u32,
        final_offset: u64,
        after: &ZtConnectionActor,
        r: Result<FrameOutcome, FrameFault>,
    ) -> bool {
        if !self.state.streams@.contains_key(id) {
            r == Ok::<FrameOutcome, FrameFault>(FrameOutcome::Nothing) && *after == *self
        } else if self.state.streams@[id].expected_rx_offset >= final_offset {
            &&& r == Ok::<FrameOutcome, FrameFault>(FrameOutcome::StreamEnded { id })
            &&& *after == (ZtConnectionActor {
                state: ZtConnection { streams: after.state.streams, ..self.state },
                ..*self
            })
            &&& after.state.streams@ == self.state.streams@.remove(id)
        } else {
            &&& r == Ok::<FrameOutcome, FrameFault>(FrameOutcome::Nothing)
            &&& self.stream_is(
                id,
                StreamState {
                    final_rx_offset: Some(final_offset),
                    ..self.state.streams@[id]
                },
                after,
            )
        }
    }

    fn handle_stream_frame(
        &mut self,
        id: u32,
        offset: u64,
        sender_type: StreamType,
        data: &[u8],
        ctx: &FrameContext,
    ) -> (r: Result<FrameOutcome, FrameFault>)
        requires
            old(self).wf(),
        ensures
            final(self).wf(),
            old(self).stream_frame_handled(id, offset, sender_type, data@, *ctx, final(self), r),
    {
        let opened = self.ensure_stream(id, sender_type, ctx.accepting, ctx.now);
        let ghost mid = *self;
        let ghost opened0 = opened;
        let new_type = match opened {
            Err(fault) => {
                assert(old(self).ensures_stream(
                    id,
                    sender_type,
                    ctx.accepting,
                    ctx.now,
                    &mid,
                    opened0,
                ));
                return Err(fault);
            },
            Ok(t) => t,
        };
        let taken = self.take_stream_data(id, offset, data, ctx.room, ctx.now, ctx.buffer_limit);
        let ghost taken0 = taken;
        assert(old(self).ensures_stream(
            id,
            sender_type,
            ctx.accepting,
            ctx.now,
            &mid,
            opened0,
        ));
        match taken {
            Err(fault) => {
                assert(taken0 == Err::<StreamOutcome, FrameFault>(fault));
                Err(fault)
            },
            Ok(out) => {
                let StreamOutcome { opened: _, forwarded, flush_acks } = out;
                assert(taken0 == Ok::<StreamOutcome, FrameFault>(
                    StreamOutcome { opened: None, forwarded, flush_acks },
                ));
                Ok(FrameOutcome::Stream(StreamOutcome { opened: new_type, forwarded, flush_acks }))
            },
        }
    }

    fn handle_stream_close(&mut self, id: u32, final_offset: u64) -> (r: FrameOutcome)
        requires
            old(self).wf(),
        ensures
            final(self).wf(),
            old(self).stream_close_handled(id, final_offset, final(self), Ok(r)),
    {
        let done = match self.state.streams.get(&id) {
            None => {
                return FrameOutcome::Nothing;
            },
            Some(s) => s.expected_rx_offset >= final_offset,
        };
        if let Some(mut stream) = self.state.streams.remove(&id) {
            if done {
                return FrameOutcome::StreamEnded { id };
            }
            stream.final_rx_offset = Some(final_offset);
            self.state.streams.insert(id, stream);
            assert(self.state.streams@ =~= old(self).state.streams@.insert(
                id,
                self.state.streams@[id],
            ));
        }
        FrameOutcome::Nothing
    }

    fn handle_max_stream_data(&mut self, id: u32, max_data: u64) -> (r: FrameOutcome)
        requires
            old(self).wf(),
        ensures
            final(self).wf(),
            if old(self).state.streams@.contains_key(id) {
                let s = old(self).state.streams@[id];
                let window = credit(max_data, s.next_tx_offset);
                &&& r == if window > s.tx_window {
                    FrameOutcome::WakeStream { id }
                } else {
                    FrameOutcome::Nothing
                }
                &&& old(self).stream_is(id, StreamState { tx_window: window, ..s }, final(self))
            } else {
                r == FrameOutcome::Nothing && *final(self) == *old(self)
            },
    {
        if !self.state.streams.contains_key(&id) {
            return FrameOutcome::Nothing;
        }
        let mut wake = false;
        if let Some(mut stream) = self.state.streams.remove(&id) {
            let window: u64 = max_data.saturating_sub(stream.next_tx_offset);
            wake = window > stream.tx_window;
            stream.tx_window = window;
            self.state.streams.insert(id, stream);
            assert(self.state.streams@ =~= old(self).state.streams@.insert(
                id,
                self.state.streams@[id],
            ));
        }
        if wake {
            FrameOutcome::WakeStream { id }
        } else {
            FrameOutcome::Nothing
        }
    }

    fn handle_path_response(&mut self, token: &[u8; 8], addr: PeerAddr) -> (r: FrameOutcome)
        requires
            old(self).wf(),
        ensures
            final(self).wf(),
            if old(self).validates(*token, addr) {
                &&& r == FrameOutcome::Migrated
                &&& *final(self) == (ZtConnectionActor {
                    state: ZtConnection { addr, ..old(self).state },
                    pending_validation_addr: None,
                    path_validation_token: None,
                    path_validation_sent_at: None,
                    path_validation_retries: 0,
                    ..*old(self)
                })
            } else {
                r == FrameOutcome::Nothing && *final(self) == *old(self)
            },
    {
        let token_ok = match &self.path_validation_token {
            Some(t) => same_bytes(t.as_slice(), token.as_slice()),
            None => false,
        };
        let addr_ok = match self.pending_validation_addr {
            Some(a) => a == addr,
            None => false,
        };
        if token_ok && addr_ok {
            self.state.addr = addr;
            self.pending_validation_addr = None;
            self.path_validation_token = None;
            self.path_validation_sent_at = None;
            self.path_validation_retries = 0;
            return FrameOutcome::Migrated;
        }
        FrameOutcome::Nothing
    }

    /// Handles a frame of a packet that was opened.
    pub fn handle_frame(&mut self, frame: Frame, ctx: &FrameContext) -> (r: Result<
        FrameOutcome,
        FrameFault,
    >)
        requires
            old(self).wf(),
        ensures
            final(self).wf(),
            old(self).frame_handled(frame, *ctx, final(self), r),
            frame matches Frame::Datagram { data } ==> *final(self) == *old(self) && r == Ok::<
                FrameOutcome,
                FrameFault,
            >(FrameOutcome::Datagram { data }),
    {
        match frame {
            Frame::Stream { id, offset, stream_type, data } => self.handle_stream_frame(
                id,
                offset,
                stream_type,
                bytes_as_slice(&data),
                ctx,
            ),
            Frame::Ack { largest_acked, window_size, ack_delay, ack_ranges } => {
                let outcome = self.state.handle_ack(
                    largest_acked,
                    window_size,
                    ack_delay,
                    ack_ranges.as_slice(),
                    ctx.now,
                    ctx.scaled_rtt,
                );
                Ok(FrameOutcome::Ack(outcome))
            },
            Frame::ConnectionClose { error } => {
                self.state.state = ConnectionState::Closed;
                self.state.closed = true;
                if let Some(CloseReason { error_code, reason }) = error {
                    self.state.termination = Some(
                        TerminationReason::ClosedByPeer { error_code, reason },
                    );
                }
                Ok(FrameOutcome::PeerClosed)
            },
            Frame::StreamClose { id, final_offset } => Ok(
                self.handle_stream_close(id, final_offset),
            ),
            Frame::StreamReset { id, error_code } => {
                if !self.state.streams.contains_key(&id) {
                    return Ok(FrameOutcome::Nothing);
                }
                self.state.streams.remove(&id);
                Ok(FrameOutcome::StreamReset { id, error_code })
            },
            Frame::MaxStreamData { id, max_data } => Ok(
                self.handle_max_stream_data(id, max_data),
            ),
            Frame::MaxData { max_data } => {
                let left: u64 = max_data.saturating_sub(self.state.conn_tx_offset);
                let window: u64 = if left > MAX_CREDIT {
                    MAX_CREDIT
                } else {
                    left
                };
                let wake = window > self.state.remote_window;
                self.state.remote_window = window;
                if wake {
                    Ok(FrameOutcome::WakeAll)
                } else {
                    Ok(FrameOutcome::Nothing)
                }
            },
            Frame::MaxStreams { max_streams } => {
                if max_streams > self.state.peer_max_streams {
                    self.state.peer_max_streams = max_streams;
                    Ok(FrameOutcome::WakeAll)
                } else {
                    Ok(FrameOutcome::Nothing)
                }
            },
            Frame::Datagram { data } => Ok(FrameOutcome::Datagram { data }),
            Frame::PathChallenge { token } => Ok(
                FrameOutcome::Send { frame: Frame::PathResponse { token }, addr: ctx.addr },
            ),
            Frame::PathResponse { token } => Ok(self.handle_path_response(&token, ctx.addr)),
            _ => Ok(FrameOutcome::Nothing),
        }
    }
}

/// What protects a packet's header.
pub enum Protection {
    /// The keys of the connection.
    Session,
    /// Keys derived from the destination id.
    Initial,
    /// Nothing.
    Bare,
}

/// Whether a packet has a short header.
pub open spec fn is_short_packet(data: Seq<u8>) -> bool {
    data.len() > 0 && data[0] & 0x80 == 0
}

/// Whether a packet with a long header is a Retry.
pub open spec fn is_retry_packet(data: Seq<u8>) -> bool {
    data.len() > 0 && (data[0] >> 2) & 0x0f == 0x0c
}

/// Which keys a packet is opened with.
pub enum KeyChoice {
    Current,
    Previous,
    Next,
}

/// What to do with a packet whose header was read.
pub enum PacketRoute {
    Ignore,
    /// Send the handshake packet again, for the peer did not get it.
    ResendHandshake,
    /// Decrypt and check a server's reply.
    HandshakeReply,
    /// Repeat the Initial packet with the cookie.
    Retry,
    /// Decrypt and handle the frames.
    Open { key: KeyChoice },
}

/// The length of a packet's header, given where its packet number starts.
pub fn header_len(data: &[u8], offset: Option<usize>) -> (r: Result<usize, ZtError>)
    requires
        offset is Some ==> data@.len() > 0,
    ensures
        match offset {
            None => r == Err::<usize, ZtError>(
                ZtError::InvalidPacket(PacketFault::MalformedHeaderOffset),
            ),
            Some(o) => {
                let len = o + (data@[0] & 0x03) + 1;
                if data@.len() < len {
                    r == Err::<usize, ZtError>(ZtError::InvalidPacket(PacketFault::HeaderTruncated))
                } else {
                    r is Ok && r->Ok_0 == len
                }
            },
        },
{
    match offset {
        None => Err(ZtError::InvalidPacket(PacketFault::MalformedHeaderOffset)),
        Some(o) => {
            let pn_len: usize = (data[0] & 0x03) as usize + 1;
            let len: usize = o.saturating_add(pn_len);
            if o > usize::MAX - pn_len || data.len() < len {
                return Err(ZtError::InvalidPacket(PacketFault::HeaderTruncated));
            }
            Ok(len)
        },
    }
}

impl ZtConnectionActor {
    /// Counts a packet's bytes and says what protects its header. Short headers
    /// need the keys of the connection; a Retry is not protected.
    pub fn receive_packet(&mut self, data: &[u8]) -> (r: Result<Protection, ZtError>)
        ensures
            *final(self) == (ZtConnectionActor {
                state: ZtConnection {
                    bytes_received: crate::congestion::sat_add(
                        old(self).state.bytes_received,
                        data@.len() as usize,
                    ),
                    ..old(self).state
                },
                ..*old(self)
            }),
            r == if is_short_packet(data@) {
                if old(self).state.has_keys {
                    Ok(Protection::Session)
                } else {
                    Err::<Protection, ZtError>(ZtError::Unauthorized)
                }
            } else if data@.len() == 0 || is_retry_packet(data@) {
                Ok(Protection::Bare)
            } else {
                Ok(Protection::Initial)
            },
            old(self).state.bytes_received + data@.len() <= usize::MAX ==> final(self).state.bytes_received == old(self).state.bytes_received + data@.len(),
            (r is Ok && r->Ok_0 is Session) ==> data@[0] < 128 && old(self).state.has_keys,
            data@.len() > 0 && data@[0] < 128 && old(self).state.has_keys ==> r is Ok
                && r->Ok_0 is Session,
    {
        proof {
            if data@.len() > 0 {
                law_first_byte_tells_the_header(data@);
            }
        }
        self.state.bytes_received = self.state.bytes_received.saturating_add(data.len());
        if data.len() == 0 {
            return Ok(Protection::Bare);
        }
        if data[0] & 0x80 == 0 {
            if self.state.has_keys {
                return Ok(Protection::Session);
            }
            return Err(ZtError::Unauthorized);
        }
        if (data[0] >> 2) & 0x0f == 0x0c {
            Ok(Protection::Bare)
        } else {
            Ok(Protection::Initial)
        }
    }

    /// The number near which the packet number of an arriving packet is looked for.
    pub fn expansion_base(&self) -> (r: u64)
        ensures
            r == self.highest_seen(),
    {
        match self.state.replay_window.highest_processed {
            Some(h) => h,
            None => 0,
        }
    }

    /// The highest packet number processed, zero if there was none.
    pub open spec fn highest_seen(&self) -> u64 {
        match self.state.replay_window.highest_processed {
            Some(h) => h,
            None => 0,
        }
    }

    /// Which keys open a packet: a phase bit that differs means the next keys on a
    /// new packet and the previous ones on an old packet.
    pub open spec fn key_for(&self, header: PacketHeader, is_short: bool) -> KeyChoice {
        if is_short && header.key_phase != (self.state.current_key_epoch % 2 == 1) {
            if header.packet_number >= self.highest_seen() {
                KeyChoice::Next
            } else {
                KeyChoice::Previous
            }
        } else {
            KeyChoice::Current
        }
    }

    /// Whether the connection takes packets of its own keys: when active, and on
    /// a server also while the handshake is not confirmed.
    pub open spec fn takes_packets(&self) -> bool {
        self.state.state == ConnectionState::Active || (self.state.state
            == ConnectionState::Handshaking && !self.is_client)
    }

    /// Decides what to do with a packet whose header was read.
    pub fn route_packet(&self, header: &PacketHeader, is_short: bool, payload_len: usize) -> (r:
        Result<PacketRoute, ZtError>)
        requires
            self.wf(),
        ensures
            r == if header.p_type == PacketType::Initial && !self.is_client {
                if self.state.handshake_packet is Some {
                    Ok::<PacketRoute, ZtError>(PacketRoute::ResendHandshake)
                } else {
                    Ok(PacketRoute::Ignore)
                }
            } else if self.state.replay_window.refuses(header.packet_number) {
                Ok(PacketRoute::Ignore)
            } else if header.p_type == PacketType::Handshake && self.state.state
                == ConnectionState::Handshaking {
                Ok(PacketRoute::HandshakeReply)
            } else if header.p_type == PacketType::Retry && self.state.state
                == ConnectionState::Handshaking {
                Ok(PacketRoute::Retry)
            } else if (header.p_type == PacketType::Data || header.p_type == PacketType::MtuProbe
                || header.p_type == PacketType::Close) && self.takes_packets() {
                if !self.state.has_keys {
                    Err(ZtError::Unauthorized)
                } else if payload_len < crate::handshake::TAG_SIZE {
                    Ok(PacketRoute::Ignore)
                } else {
                    Ok(PacketRoute::Open { key: self.key_for(*header, is_short) })
                }
            } else {
                Ok(PacketRoute::Ignore)
            },
            (r is Ok && r->Ok_0 is Open) ==> !self.state.replay_window.processed().contains(
                header.packet_number,
            ) && self.state.has_keys && payload_len >= 16 && (self.state.state is Active
                || !self.is_client),
            self.state.state is Active && self.state.has_keys && payload_len >= 16
                && header.p_type is Data && !self.state.replay_window.refuses(header.packet_number)
                ==> r is Ok && r->Ok_0 is Open,
            self.state.state is Closed || self.state.state is Closing ==> r is Ok && (
            r->Ok_0 is Ignore || r->Ok_0 is ResendHandshake),
    {
        if header.p_type == PacketType::Initial && !self.is_client {
            if self.state.handshake_packet.is_some() {
                return Ok(PacketRoute::ResendHandshake);
            }
            return Ok(PacketRoute::Ignore);
        }
        if self.state.is_replay(header.packet_number) {
            return Ok(PacketRoute::Ignore);
        }
        let highest: u64 = self.expansion_base();
        let expected_phase = self.current_key_phase();
        let key = if is_short && header.key_phase != expected_phase {
            if header.packet_number >= highest {
                KeyChoice::Next
            } else {
                KeyChoice::Previous
            }
        } else {
            KeyChoice::Current
        };
        let handshaking = self.state.state == ConnectionState::Handshaking;
        let active = self.state.state == ConnectionState::Active;
        match header.p_type {
            PacketType::Handshake => {
                if handshaking {
                    return Ok(PacketRoute::HandshakeReply);
                }
            },
            PacketType::Retry => {
                if handshaking {
                    return Ok(PacketRoute::Retry);
                }
            },
            PacketType::Data | PacketType::MtuProbe | PacketType::Close => {
                if active || (handshaking && !self.is_client) {
                    if !self.state.has_keys {
                        return Err(ZtError::Unauthorized);
                    }
                    if payload_len < crate::handshake::TAG_SIZE {
                        return Ok(PacketRoute::Ignore);
                    }
                    return Ok(PacketRoute::Open { key });
                }
            },
            PacketType::Initial => {},
        }
        Ok(PacketRoute::Ignore)
    }

    /// Whether a packet from `addr` starts the validation of that address.
    pub open spec fn starts_validation(&self, addr: PeerAddr) -> bool {
        &&& self.takes_packets()
        &&& self.state.addr != addr
        &&& self.pending_validation_addr != Some(addr)
    }

    /// What an opened packet does to the connection, before its frames.
    ///
    /// Packets under the next keys move the key epoch on. A server takes its
    /// handshake for confirmed. A packet from another address has that address
    /// validated. The packet counts as processed.
    pub open spec fn opened_with(
        &self,
        pn: u64,
        addr: PeerAddr,
        rotated: bool,
        token: [u8; 8],
        now: u64,
        after: &ZtConnectionActor,
        r: Option<[u8; 8]>,
    ) -> bool {
        let validate = self.starts_validation(addr);
        &&& *after == (ZtConnectionActor {
            state: ZtConnection {
                current_key_epoch: if rotated {
                    crate::connection::counted_up(self.state.current_key_epoch)
                } else {
                    self.state.current_key_epoch
                },
                packets_since_key_update: if rotated {
                    0
                } else {
                    self.state.packets_since_key_update
                },
                state: ConnectionState::Active,
                replay_window: after.state.replay_window,
                ack_tracker: after.state.ack_tracker,
                largest_acked_received_at: if self.state.ack_tracker.highest_processed is None || pn
                    >= self.state.ack_tracker.highest_processed->0 {
                    Some(now)
                } else {
                    self.state.largest_acked_received_at
                },
                ..self.state
            },
            pending_validation_addr: if validate {
                Some(addr)
            } else {
                self.pending_validation_addr
            },
            path_validation_token: if validate {
                Some(token)
            } else {
                self.path_validation_token
            },
            path_validation_sent_at: if validate {
                Some(now)
            } else {
                self.path_validation_sent_at
            },
            path_validation_retries: if validate {
                0
            } else {
                self.path_validation_retries
            },
            ..*self
        })
        &&& after.state.replay_window.highest_processed == Some(
            crate::bitmap::raised(self.state.replay_window.highest_processed, pn),
        )
        &&& after.state.replay_window.processed() == crate::bitmap::slide(
            self.state.replay_window.processed(),
            self.state.replay_window.highest_processed,
            pn,
        )
        &&& after.state.ack_tracker.highest_processed == Some(
            crate::bitmap::raised(self.state.ack_tracker.highest_processed, pn),
        )
        &&& after.state.ack_tracker.received() == crate::bitmap::slide(
            self.state.ack_tracker.received(),
            self.state.ack_tracker.highest_processed,
            pn,
        )
        &&& r == if validate {
            Some(token)
        } else {
            None
        }
    }

    /// Records a packet that was opened. `token` is used if the packet's address
    /// has to be validated; it is then returned, to be sent there.
    pub fn packet_opened(
        &mut self,
        pn: u64,
        addr: PeerAddr,
        rotated: bool,
        token: [u8; 8],
        now: u64,
    ) -> (r: Option<[u8; 8]>)
        requires
            old(self).wf(),
            old(self).takes_packets(),
        ensures
            final(self).wf(),
            old(self).opened_with(pn, addr, rotated, token, now, final(self), r),
    {
        if rotated {
            self.state.current_key_epoch = self.state.current_key_epoch.saturating_add(1);
            self.state.packets_since_key_update = 0;
        }
        self.state.state = ConnectionState::Active;
        let mut challenge: Option<[u8; 8]> = None;
        if self.state.addr != addr {
            let pending = match self.pending_validation_addr {
                Some(a) => a == addr,
                None => false,
            };
            if !pending {
                self.pending_validation_addr = Some(addr);
                self.path_validation_token = Some(token);
                self.path_validation_sent_at = Some(now);
                self.path_validation_retries = 0;
                challenge = Some(token);
            }
        }
        self.state.mark_processed(pn, now);
        challenge
    }

    /// Records a packet that was opened, with a random token for the validation
    /// of its address.
    pub fn on_packet_opened(&mut self, pn: u64, addr: PeerAddr, rotated: bool, now: u64) -> (r: Option<
        [u8; 8],
    >)
        requires
            old(self).wf(),
            old(self).takes_packets(),
        ensures
            final(self).wf(),
            exists|token: [u8; 8]|
                old(self).opened_with(pn, addr, rotated, token, now, final(self), r),
    {
        let token = random_bytes();
        self.packet_opened(pn, addr, rotated, token, now)
    }
}

/// Only a token that was handed out, sent back from the address it was sent to,
/// moves a connection; no frame but a path response does.
pub proof fn law_only_a_validated_path_migrates(
    before: ZtConnectionActor,
    frame: Frame,
    ctx: FrameContext,
    after: ZtConnectionActor,
    r: Result<FrameOutcome, FrameFault>,
)
    requires
        before.frame_handled(frame, ctx, &after, r),
        after.state.addr != before.state.addr,
    ensures
        frame matches Frame::PathResponse { token } && before.validates(token, ctx.addr),
        after.state.addr == ctx.addr,
        before.pending_validation_addr == Some(ctx.addr),
{
}

/// The number of streams that the peer allows never shrinks.
pub proof fn law_stream_limit_never_shrinks(
    before: ZtConnectionActor,
    frame: Frame,
    ctx: FrameContext,
    after: ZtConnectionActor,
    r: Result<FrameOutcome, FrameFault>,
)
    requires
        before.frame_handled(frame, ctx, &after, r),
    ensures
        after.state.peer_max_streams >= before.state.peer_max_streams,
{
}

/// A packet is handled once: after it was opened, the same number is ignored.
pub proof fn law_no_packet_is_handled_twice(
    before: ZtConnectionActor,
    pn: u64,
    addr: PeerAddr,
    rotated: bool,
    token: [u8; 8],
    now: u64,
    after: ZtConnectionActor,
    r: Option<[u8; 8]>,
)
    requires
        before.opened_with(pn, addr, rotated, token, now, &after, r),
    ensures
        after.state.replay_window.refuses(pn),
{
    crate::replay_window::law_processed_is_refused_for_good(
        before.state.replay_window,
        after.state.replay_window,
        pn,
    );
}

/// The buffers of all streams are those of one and of the others.
proof fn lemma_allocated_without(streams: Map<u32, StreamState>, id: u32)
    requires
        streams.dom().finite(),
        streams.contains_key(id),
    ensures
        crate::connection::total_allocated(streams) == streams[id].receive_buffer.capacity()
            + crate::connection::total_allocated(streams.remove(id)),
{
    let f = |s: StreamState| s.receive_buffer.capacity();
    let sizes = crate::connection::per_stream(streams, f);
    assert(sizes.dom() =~= streams.dom());
    crate::totals::lemma_map_total_remove(sizes, id);
    assert(sizes.remove(id) =~= crate::connection::per_stream(streams.remove(id), f));
}

/// The peer is told of new room in time. When data of a stream that goes on was
/// handed to the application, the limit announced is the read offset plus the
/// window; it is announced if it lies a quarter of the window or more above the
/// last one, and is then the last one. Otherwise nothing is announced, and the
/// last one stays.
pub proof fn law_new_room_is_announced(
    before: ZtConnectionActor,
    stream_id: u32,
    room: bool,
    now: u64,
    buffer_limit: usize,
    after: ZtConnectionActor,
    f: Forwarded,
)
    requires
        before.offers(stream_id, room, now, buffer_limit, &after, f),
    ensures
        f.chunk is None || f.finished ==> f.announce is None,
        f.chunk is Some && !f.finished ==> ({
            let told = before.state.streams@[stream_id].last_sent_max_data;
            let t = after.state.streams@[stream_id];
            let limit = t.expected_rx_offset + t.window_size;
            &&& before.state.streams@.contains_key(stream_id)
            &&& after.state.streams@.contains_key(stream_id)
            &&& limit <= u64::MAX && limit - told >= t.window_size / 4 ==> f.announce == Some(
                limit as u64,
            )
            &&& f.announce is Some && limit <= u64::MAX ==> f.announce->0 == limit && (limit - told
                >= t.window_size / 4 || t.window_size < 4)
            &&& f.announce is Some ==> t.last_sent_max_data == f.announce->0
            &&& f.announce is None ==> t.last_sent_max_data == told
        }),
{
}

/// A peer cannot be left waiting: if it used up its whole limit and the
/// application has read all of it, a limit above it is announced.
pub proof fn law_an_exhausted_limit_is_raised(
    before: ZtConnectionActor,
    stream_id: u32,
    room: bool,
    now: u64,
    buffer_limit: usize,
    after: ZtConnectionActor,
    f: Forwarded,
)
    requires
        before.offers(stream_id, room, now, buffer_limit, &after, f),
        f.chunk is Some,
        !f.finished,
        after.state.streams@[stream_id].expected_rx_offset
            == before.state.streams@[stream_id].last_sent_max_data,
        after.state.streams@[stream_id].window_size > 0,
        before.state.streams@[stream_id].last_sent_max_data
            + after.state.streams@[stream_id].window_size <= u64::MAX,
    ensures
        f.announce is Some,
        f.announce->0 > before.state.streams@[stream_id].last_sent_max_data,
{
}

/// Handing on moves the read offset by exactly what was handed on, takes as much
/// off what is buffered, and ends the stream if and only if the read offset has
/// reached its end. Nothing else of the connection changes.
pub proof fn law_handing_on_accounts_for_every_byte(
    before: ZtConnectionActor,
    stream_id: u32,
    room: bool,
    now: u64,
    buffer_limit: usize,
    after: ZtConnectionActor,
    f: Forwarded,
)
    requires
        before.offers(stream_id, room, now, buffer_limit, &after, f),
        before.wf(),
    ensures
        !room || !before.state.streams@.contains_key(stream_id) ==> after == before && f.chunk is None
            && f.announce is None && !f.finished,
        room && before.state.streams@.contains_key(stream_id) ==> ({
            let s = before.state.streams@[stream_id];
            let head = s.receive_buffer.read_head;
            let len = match f.chunk {
                Some(b) => crate::payload::contents(b).len(),
                None => 0,
            };
            let t = after.state.streams@[stream_id];
            &&& f.chunk is Some ==> len > 0
            &&& f.chunk is Some ==> forall|x: int|
                head <= x < head + len ==> #[trigger] s.receive_buffer.received().contains(x)
            &&& f.chunk is Some ==> !s.receive_buffer.received().contains(head + len)
            &&& s.receive_buffer.received().contains(head as int) && (forall|x: int| #[trigger]
                s.receive_buffer.received().contains(x) ==> x >= head) ==> f.chunk is Some
            &&& f.finished <==> (s.final_rx_offset is Some && head + len >= s.final_rx_offset->0)
            &&& f.finished <==> !after.state.streams@.contains_key(stream_id)
            &&& !f.finished ==> t.expected_rx_offset == head + len && t.receive_buffer.read_head
                == head + len && t.final_rx_offset == s.final_rx_offset && t.next_tx_offset
                == s.next_tx_offset && t.tx_window == s.tx_window && t.stream_type == s.stream_type
            &&& !f.finished && len <= s.buffered_bytes ==> t.buffered_bytes + len
                == s.buffered_bytes
            &&& !f.finished && len > s.buffered_bytes ==> t.buffered_bytes == 0
            &&& forall|id: u32|
                id != stream_id && #[trigger] before.state.streams@.contains_key(id)
                    ==> after.state.streams@.contains_key(id) && after.state.streams@[id]
                    == before.state.streams@[id]
        }),
        after == (ZtConnectionActor {
            state: ZtConnection { streams: after.state.streams, ..before.state },
            ..before
        }),
{
    if room && before.state.streams@.contains_key(stream_id) {
        let s = before.state.streams@[stream_id];
        let head = s.receive_buffer.read_head as int;
        if s.receive_buffer.received().contains(head) && (forall|x: int| #[trigger]
            s.receive_buffer.received().contains(x) ==> x >= head) {
            assert(crate::stream_buffer::readable(s.receive_buffer.received(), head));
        }
        if f.chunk is Some {
            let end = head + crate::payload::contents(f.chunk->0).len();
            assert(s.wf());
            assert(s.receive_buffer.received().contains(end - 1));
        }
    }
}

/// A receive window grows only while the stream is busy: when half a window was
/// handed on in less than two round trips. It then doubles, up to sixteen
/// mebibytes, if the memory for it stays within the limit; it never shrinks.
pub proof fn law_busy_streams_get_larger_windows(
    before: ZtConnectionActor,
    stream_id: u32,
    room: bool,
    now: u64,
    buffer_limit: usize,
    after: ZtConnectionActor,
    f: Forwarded,
)
    requires
        before.offers(stream_id, room, now, buffer_limit, &after, f),
        room,
        before.state.streams@.contains_key(stream_id),
        !f.finished,
        before.wf(),
        before.state.streams@[stream_id].window_size <= 16_777_216,
    ensures
        ({
            let s = before.state.streams@[stream_id];
            let t = after.state.streams@[stream_id];
            let read = s.bytes_read_in_epoch + match f.chunk {
                Some(b) => crate::payload::contents(b).len() as int,
                None => 0,
            };
            let half = f.chunk is Some && read >= s.window_size / 2;
            let quick = before.state.rtt > 0 && now < s.last_window_update + 2 * before.state.rtt;
            let next: int = if s.window_size >= 8_388_608 {
                16_777_216
            } else {
                2 * s.window_size
            };
            let allocated = crate::connection::total_allocated(before.state.streams@);
            let fits = allocated <= usize::MAX && allocated + (next - s.window_size) <= buffer_limit
                && s.receive_buffer.read_head + crate::payload::contents(f.chunk->0).len()
                + s.window_size <= u64::MAX;
            &&& s.window_size <= t.window_size
            &&& t.window_size != s.window_size ==> t.window_size == next && half && quick
                && allocated + (t.window_size - s.window_size) <= buffer_limit
            &&& half && quick && fits && next > s.window_size ==> t.window_size == next
            &&& half ==> t.bytes_read_in_epoch == 0 && t.last_window_update == now
            &&& !half ==> t.bytes_read_in_epoch == read && t.last_window_update
                == s.last_window_update
        }),
{
    let s = before.state.streams@[stream_id];
    if f.chunk is Some {
        let head = s.receive_buffer.read_head as int;
        let end = head + crate::payload::contents(f.chunk->0).len();
        assert(s.wf());
        assert(s.receive_buffer.received().contains(end - 1));
    }
}

/// A datagram is handed up as it came: for every datagram frame the outcome
/// holds exactly the frame's bytes, and the connection stays as it was.
pub proof fn law_datagrams_reach_the_application(
    before: ZtConnectionActor,
    frame: Frame,
    ctx: FrameContext,
    after: ZtConnectionActor,
    r: Result<FrameOutcome, FrameFault>,
)
    requires
        before.frame_handled(frame, ctx, &after, r),
        frame is Datagram,
    ensures
        r is Ok,
        r->Ok_0 is Datagram,
        crate::payload::contents(r->Ok_0->Datagram_data) == crate::payload::contents(
            frame->Datagram_data,
        ),
        r->Ok_0->Datagram_data == frame->Datagram_data,
        after == before,
{
}

/// A datagram comes out of a datagram frame and of no other, a reply to a path
/// challenge out of a challenge, and a migration out of a path response.
pub proof fn law_outcomes_tell_frames_apart(
    before: ZtConnectionActor,
    frame: Frame,
    ctx: FrameContext,
    after: ZtConnectionActor,
    r: Result<FrameOutcome, FrameFault>,
)
    requires
        before.frame_handled(frame, ctx, &after, r),
    ensures
        (r is Ok && r->Ok_0 is Datagram) <==> frame is Datagram,
        (r is Ok && r->Ok_0 is Send) <==> frame is PathChallenge,
        (r is Ok && r->Ok_0 is Ack) <==> frame is Ack,
        (r is Ok && r->Ok_0 is PeerClosed) <==> frame is ConnectionClose,
        (r is Ok && r->Ok_0 is Migrated) ==> frame is PathResponse,
        (r is Ok && r->Ok_0 is Stream) ==> frame is Stream,
        (r is Ok && r->Ok_0 is StreamEnded) ==> frame is StreamClose,
        (r is Ok && r->Ok_0 is StreamReset) ==> frame is StreamReset,
        (r is Ok && r->Ok_0 is WakeStream) ==> frame is MaxStreamData,
        r is Err ==> frame is Stream,
        frame is Padding || frame is StreamsBlocked || frame is Handshake || frame is Cookie
            || frame is Parameters ==> after == before && r == Ok::<FrameOutcome, FrameFault>(
            FrameOutcome::Nothing,
        ),
{
}

/// A path challenge is answered with its own token, to where it came from, and
/// changes nothing.
pub proof fn law_challenges_are_answered_where_they_came_from(
    before: ZtConnectionActor,
    token: [u8; 8],
    ctx: FrameContext,
    after: ZtConnectionActor,
    r: Result<FrameOutcome, FrameFault>,
)
    requires
        before.frame_handled(Frame::PathChallenge { token }, ctx, &after, r),
    ensures
        after == before,
        r matches Ok(FrameOutcome::Send { frame: Frame::PathResponse { token: t }, addr }) && t
            == token && addr == ctx.addr,
{
}

/// A path response moves the connection to its sender if and only if it repeats
/// the token that is outstanding and comes from the address under validation.
/// The validation is then over; otherwise nothing changes.
pub proof fn law_the_right_token_migrates(
    before: ZtConnectionActor,
    token: [u8; 8],
    ctx: FrameContext,
    after: ZtConnectionActor,
    r: Result<FrameOutcome, FrameFault>,
)
    requires
        before.frame_handled(Frame::PathResponse { token }, ctx, &after, r),
    ensures
        ({
            let right = before.path_validation_token is Some && before.path_validation_token->0@
                == token@ && before.pending_validation_addr == Some(ctx.addr);
            &&& right ==> r == Ok::<FrameOutcome, FrameFault>(FrameOutcome::Migrated)
                && after.state.addr == ctx.addr && after.pending_validation_addr is None
                && after.path_validation_token is None && after.path_validation_sent_at is None
                && after.path_validation_retries == 0
            &&& !right ==> r == Ok::<FrameOutcome, FrameFault>(FrameOutcome::Nothing) && after
                == before
        }),
        after == (ZtConnectionActor {
            state: ZtConnection { addr: after.state.addr, ..before.state },
            pending_validation_addr: after.pending_validation_addr,
            path_validation_token: after.path_validation_token,
            path_validation_sent_at: after.path_validation_sent_at,
            path_validation_retries: after.path_validation_retries,
            ..before
        }),
{
}

/// What the peer allows to be sent follows its announcements. After a limit for
/// the connection, the credit and what was sent add up to the limit, unless more
/// was sent or the credit is at its largest; senders are woken if it grew.
pub proof fn law_connection_credit_follows_the_limit(
    before: ZtConnectionActor,
    max_data: u64,
    ctx: FrameContext,
    after: ZtConnectionActor,
    r: Result<FrameOutcome, FrameFault>,
)
    requires
        before.frame_handled(Frame::MaxData { max_data }, ctx, &after, r),
    ensures
        ({
            let sent = before.state.conn_tx_offset;
            let credit = after.state.remote_window;
            &&& max_data <= sent ==> credit == 0
            &&& sent <= max_data <= sent + 4_294_967_295 ==> sent + credit == max_data
            &&& max_data > sent + 4_294_967_295 ==> credit == 4_294_967_295
            &&& r == Ok::<FrameOutcome, FrameFault>(FrameOutcome::WakeAll) <==> credit
                > before.state.remote_window
            &&& r == Ok::<FrameOutcome, FrameFault>(FrameOutcome::WakeAll) || r == Ok::<
                FrameOutcome,
                FrameFault,
            >(FrameOutcome::Nothing)
            &&& after.state == ZtConnection { remote_window: credit, ..before.state }
        }),
{
}

/// After a limit for a stream, the stream's credit and what was sent on it add up
/// to the limit, unless more was sent; its sender is woken if the credit grew.
/// Other streams are not touched, and unknown streams are ignored.
pub proof fn law_stream_credit_follows_the_limit(
    before: ZtConnectionActor,
    id: u32,
    max_data: u64,
    ctx: FrameContext,
    after: ZtConnectionActor,
    r: Result<FrameOutcome, FrameFault>,
)
    requires
        before.frame_handled(Frame::MaxStreamData { id, max_data }, ctx, &after, r),
    ensures
        !before.state.streams@.contains_key(id) ==> after == before && r == Ok::<
            FrameOutcome,
            FrameFault,
        >(FrameOutcome::Nothing),
        before.state.streams@.contains_key(id) ==> ({
            let s = before.state.streams@[id];
            let t = after.state.streams@[id];
            &&& after.state.streams@ == before.state.streams@.insert(id, t)
            &&& max_data <= s.next_tx_offset ==> t.tx_window == 0
            &&& max_data >= s.next_tx_offset ==> s.next_tx_offset + t.tx_window == max_data
            &&& t == StreamState { tx_window: t.tx_window, ..s }
            &&& t.tx_window > s.tx_window ==> r == Ok::<FrameOutcome, FrameFault>(
                FrameOutcome::WakeStream { id },
            )
            &&& t.tx_window <= s.tx_window ==> r == Ok::<FrameOutcome, FrameFault>(
                FrameOutcome::Nothing,
            )
        }),
        after == (ZtConnectionActor {
            state: ZtConnection { streams: after.state.streams, ..before.state },
            ..before
        }),
{
}

/// A limit on streams takes effect if it is above the present one.
pub proof fn law_stream_limit_is_the_highest_announced(
    before: ZtConnectionActor,
    max_streams: u64,
    ctx: FrameContext,
    after: ZtConnectionActor,
    r: Result<FrameOutcome, FrameFault>,
)
    requires
        before.frame_handled(Frame::MaxStreams { max_streams }, ctx, &after, r),
    ensures
        after.state.peer_max_streams >= max_streams,
        after.state.peer_max_streams >= before.state.peer_max_streams,
        after.state.peer_max_streams == max_streams || after == before,
        r == Ok::<FrameOutcome, FrameFault>(FrameOutcome::WakeAll) <==> max_streams
            > before.state.peer_max_streams,
        after.state == (ZtConnection {
            peer_max_streams: after.state.peer_max_streams,
            ..before.state
        }),
{
}

/// A reset ends a stream at once, whatever is still buffered, and tells the
/// application the peer's code; a stream that is not open is ignored.
pub proof fn law_resets_end_streams(
    before: ZtConnectionActor,
    id: u32,
    error_code: u64,
    ctx: FrameContext,
    after: ZtConnectionActor,
    r: Result<FrameOutcome, FrameFault>,
)
    requires
        before.frame_handled(Frame::StreamReset { id, error_code }, ctx, &after, r),
    ensures
        !after.state.streams@.contains_key(id),
        forall|other: u32|
            other != id ==> #[trigger] after.state.streams@.contains_key(other)
                == before.state.streams@.contains_key(other) && after.state.streams@[other]
                == before.state.streams@[other],
        before.state.streams@.contains_key(id) ==> r == Ok::<FrameOutcome, FrameFault>(
            FrameOutcome::StreamReset { id, error_code },
        ),
        !before.state.streams@.contains_key(id) ==> after == before && r == Ok::<
            FrameOutcome,
            FrameFault,
        >(FrameOutcome::Nothing),
        after == (ZtConnectionActor {
            state: ZtConnection { streams: after.state.streams, ..before.state },
            ..before
        }),
{
}

/// A close ends a stream once the application has everything up to the final
/// offset; until then the stream stays and remembers where it ends.
pub proof fn law_closes_wait_for_the_tail(
    before: ZtConnectionActor,
    id: u32,
    final_offset: u64,
    ctx: FrameContext,
    after: ZtConnectionActor,
    r: Result<FrameOutcome, FrameFault>,
)
    requires
        before.frame_handled(Frame::StreamClose { id, final_offset }, ctx, &after, r),
        before.state.streams@.contains_key(id),
    ensures
        ({
            let read = before.state.streams@[id].expected_rx_offset;
            &&& read >= final_offset ==> !after.state.streams@.contains_key(id) && r == Ok::<
                FrameOutcome,
                FrameFault,
            >(FrameOutcome::StreamEnded { id })
            &&& read < final_offset ==> after.state.streams@.contains_key(id)
                && after.state.streams@[id] == (StreamState {
                final_rx_offset: Some(final_offset),
                ..before.state.streams@[id]
            }) && r == Ok::<FrameOutcome, FrameFault>(FrameOutcome::Nothing)
        }),
        forall|other: u32|
            other != id ==> #[trigger] after.state.streams@.contains_key(other)
                == before.state.streams@.contains_key(other) && after.state.streams@[other]
                == before.state.streams@[other],
        after == (ZtConnectionActor {
            state: ZtConnection { streams: after.state.streams, ..before.state },
            ..before
        }),
{
}

/// A peer's close closes the connection for good and keeps the reason, if the
/// peer gave one.
pub proof fn law_a_peer_close_is_final(
    before: ZtConnectionActor,
    error: Option<CloseReason>,
    ctx: FrameContext,
    after: ZtConnectionActor,
    r: Result<FrameOutcome, FrameFault>,
)
    requires
        before.frame_handled(Frame::ConnectionClose { error }, ctx, &after, r),
    ensures
        after.state.state == ConnectionState::Closed,
        after.state.closed,
        r == Ok::<FrameOutcome, FrameFault>(FrameOutcome::PeerClosed),
        error is None ==> after.state.termination == before.state.termination,
        error matches Some(e) ==> (after.state.termination matches Some(
            TerminationReason::ClosedByPeer { error_code, reason },
        ) && error_code == e.error_code && reason@ == e.reason@),
        after == (ZtConnectionActor {
            state: ZtConnection {
                state: ConnectionState::Closed,
                closed: true,
                termination: after.state.termination,
                ..before.state
            },
            ..before
        }),
{
}

/// An acknowledgement frame is processed with the connection's packets, and
/// touches nothing of the actor but the connection.
pub proof fn law_acknowledgements_reach_loss_detection(
    before: ZtConnectionActor,
    frame: Frame,
    ctx: FrameContext,
    after: ZtConnectionActor,
    r: Result<FrameOutcome, FrameFault>,
)
    requires
        before.frame_handled(frame, ctx, &after, r),
        frame is Ack,
    ensures
        r is Ok && r->Ok_0 is Ack,
        before.state.acked_by(
            frame->largest_acked,
            frame->window_size,
            frame->ack_delay,
            frame->ack_ranges@,
            ctx.now,
            ctx.scaled_rtt,
            &after.state,
            r->Ok_0->Ack_0,
        ),
        after == (ZtConnectionActor { state: after.state, ..before }),
        after.state.remote_window == frame->window_size,
{
}

/// Who may open a stream. The peer opens streams of its own parity, odd for a
/// server and even for a client, in a direction in which it sends, as long as
/// there is room for another and the application takes streams. A bad id, a bad
/// direction and an application that is gone end the connection; a full house
/// only refuses. A stream that is open is left alone.
pub proof fn law_the_peer_opens_its_own_streams(
    before: ZtConnectionActor,
    id: u32,
    sender_type: StreamType,
    accepting: bool,
    now: u64,
    after: ZtConnectionActor,
    r: Result<Option<StreamType>, FrameFault>,
)
    requires
        before.ensures_stream(id, sender_type, accepting, now, &after, r),
    ensures
        before.state.streams@.contains_key(id) ==> after == before && r == Ok::<
            Option<StreamType>,
            FrameFault,
        >(None),
        !before.state.streams@.contains_key(id) ==> ({
            let odd = id % 2 == 1;
            let full = before.state.streams@.dom().len() >= before.state.local_max_streams;
            let closed = r is Err && after.state.state == ConnectionState::Closing
                && after.state.streams == before.state.streams && r->Err_0.close == Some(
                UnackedPayload::Close { error: None },
            );
            &&& odd != before.is_client ==> closed && r->Err_0.error == ZtError::InvalidPacket(
                PacketFault::InvalidStreamParity,
            )
            &&& odd == before.is_client && sender_type == StreamType::UnidirectionalIn ==> closed
                && r->Err_0.error == ZtError::InvalidPacket(PacketFault::InvalidStreamDirection)
            &&& odd == before.is_client && sender_type != StreamType::UnidirectionalIn && full
                ==> after == before && r is Err && r->Err_0.close is None && r->Err_0.error == (
            ZtError::TooManyStreams { limit: before.state.local_max_streams as usize })
            &&& odd == before.is_client && sender_type != StreamType::UnidirectionalIn && !full
                && !accepting ==> closed && r->Err_0.error == ZtError::Io(IoFault::ApplicationGone)
            &&& odd == before.is_client && sender_type != StreamType::UnidirectionalIn && !full
                && accepting ==> ({
                let s = after.state.streams@[id];
                &&& r == Ok::<Option<StreamType>, FrameFault>(
                    Some(
                        if sender_type == StreamType::Bidirectional {
                            StreamType::Bidirectional
                        } else {
                            StreamType::UnidirectionalIn
                        },
                    ),
                )
                &&& after.state.streams@ == before.state.streams@.insert(id, s)
                &&& s.expected_rx_offset == 0 && s.next_tx_offset == 0 && s.buffered_bytes == 0
                &&& s.receive_buffer.read_head == 0
                &&& s.receive_buffer.received() == Set::<int>::empty()
                &&& s.window_size == before.initial_stream_window
                &&& s.receive_buffer.buffer@.len() == before.initial_stream_window
                &&& s.last_sent_max_data == before.initial_stream_window
                &&& s.tx_window == before.state.peer_initial_stream_window
                &&& s.final_rx_offset is None && s.stream_type == r->Ok_0->0
                &&& s.last_window_update == now && s.bytes_read_in_epoch == 0
                &&& after.state.state == before.state.state
            })
        }),
{
}

/// What becomes of data on an open stream depends on where it lies: wholly below
/// the read offset it is only counted for acknowledgement; beyond the window it
/// ends the connection; anything else is taken, and acknowledged at once when ten
/// packets wait for it.
pub proof fn law_data_is_judged_by_where_it_lies(
    before: ZtConnectionActor,
    id: u32,
    offset: u64,
    data: Seq<u8>,
    room: bool,
    now: u64,
    buffer_limit: usize,
    after: ZtConnectionActor,
    r: Result<StreamOutcome, FrameFault>,
)
    requires
        before.wf(),
        before.state.streams@.contains_key(id),
        before.takes_data(id, offset, data, room, now, buffer_limit, &after, r),
        before.pending_acks < u32::MAX,
    ensures
        ({
            let s = before.state.streams@[id];
            let head = s.receive_buffer.read_head;
            let end = offset + data.len();
            let stale = end <= head;
            let beyond = data.len() > 0 && !stale && (end > head + s.window_size || head
                + s.window_size > u64::MAX);
            &&& stale ==> r == Ok::<StreamOutcome, FrameFault>(
                StreamOutcome {
                    opened: None,
                    forwarded: Forwarded { chunk: None, announce: None, finished: false },
                    flush_acks: false,
                },
            ) && after.state == before.state
            &&& beyond ==> r is Err && r->Err_0.error == ZtError::InvalidPacket(
                PacketFault::ReceiveWindowExceeded,
            ) && r->Err_0.close == Some(UnackedPayload::Close { error: None }) && after.state.state
                == ConnectionState::Closing && after.state.streams == before.state.streams
            &&& beyond <==> r is Err
            &&& !beyond ==> after.pending_acks == before.pending_acks + 1 && after.state.state
                == before.state.state
            &&& !stale && !beyond ==> (r->Ok_0.flush_acks <==> before.pending_acks + 1 >= 10)
        }),
        r is Ok ==> r->Ok_0.opened is None,
{
}

/// Data that nobody can take yet is kept: its offsets count as received, and its
/// new bytes as buffered.
pub proof fn law_data_waits_for_room(
    before: ZtConnectionActor,
    id: u32,
    offset: u64,
    data: Seq<u8>,
    now: u64,
    buffer_limit: usize,
    after: ZtConnectionActor,
    r: Result<StreamOutcome, FrameFault>,
)
    requires
        before.wf(),
        before.state.streams@.contains_key(id),
        before.takes_data(id, offset, data, false, now, buffer_limit, &after, r),
        r is Ok,
        offset + data.len() > before.state.streams@[id].receive_buffer.read_head,
        data.len() > 0,
    ensures
        ({
            let s = before.state.streams@[id];
            let t = after.state.streams@[id];
            let head = s.receive_buffer.read_head;
            &&& forall|x: int| #[trigger]
                t.receive_buffer.received().contains(x) <==> s.receive_buffer.received().contains(x)
                    || (head <= x && offset <= x < offset + data.len())
            &&& forall|x: int|
                head <= x && offset <= x < offset + data.len() ==> #[trigger]
                t.receive_buffer.buffer@[x % (s.window_size as int)] == data[x - offset]
            &&& t.expected_rx_offset == s.expected_rx_offset && t.receive_buffer.read_head == head
            &&& r->Ok_0.forwarded.chunk is None
            &&& (forall|x: int|
                head <= x && offset <= x < offset + data.len()
                    ==> !#[trigger] s.receive_buffer.received().contains(x)) && s.buffered_bytes
                + data.len() <= usize::MAX && offset >= head ==> t.buffered_bytes
                == s.buffered_bytes + data.len()
            &&& (forall|x: int|
                head <= x && offset <= x < offset + data.len()
                    ==> #[trigger] s.receive_buffer.received().contains(x)) ==> t.buffered_bytes
                == s.buffered_bytes
        }),
{
    let s = before.state.streams@[id];
    let t = after.state.streams@[id];
    let head = s.receive_buffer.read_head;
    let from = s.wanted_from(offset) as int;
    let end = offset + data.len();
    let fresh = crate::stream_buffer::span(from, end).difference(s.receive_buffer.received());
    assert(s.wf());
    assert(s.took_in(&t, offset, data));
    assert forall|x: int|
        head <= x && offset <= x < offset + data.len() implies #[trigger] t.receive_buffer.buffer@[x
        % (s.window_size as int)] == data[x - offset] by {
        crate::stream_buffer::lemma_laid_down_at(
            s.receive_buffer.buffer@,
            from,
            data.skip(from - offset),
            x,
        );
    }
    vstd::set_lib::lemma_int_range(from, end);
    if forall|x: int|
        head <= x && offset <= x < offset + data.len()
            ==> !#[trigger] s.receive_buffer.received().contains(x) {
        assert(fresh =~= crate::stream_buffer::span(from, end));
    }
    if forall|x: int|
        head <= x && offset <= x < offset + data.len()
            ==> #[trigger] s.receive_buffer.received().contains(x) {
        assert(fresh =~= Set::<int>::empty());
    }
}

/// Data that arrives in order reaches the application at once: with nothing
/// buffered and room to take it, the bytes from the read offset on are handed on
/// as they came.
pub proof fn law_data_in_order_is_handed_on_at_once(
    before: ZtConnectionActor,
    id: u32,
    offset: u64,
    data: Seq<u8>,
    now: u64,
    buffer_limit: usize,
    after: ZtConnectionActor,
    r: Result<StreamOutcome, FrameFault>,
)
    requires
        before.wf(),
        before.state.streams@.contains_key(id),
        before.state.streams@[id].receive_buffer.received() == Set::<int>::empty(),
        before.takes_data(id, offset, data, true, now, buffer_limit, &after, r),
        r is Ok,
        offset <= before.state.streams@[id].receive_buffer.read_head < offset + data.len(),
    ensures
        r->Ok_0.forwarded.chunk is Some,
        crate::payload::contents(r->Ok_0.forwarded.chunk->0) == data.skip(
            before.state.streams@[id].receive_buffer.read_head - offset,
        ),
{
    let s = before.state.streams@[id];
    let head = s.receive_buffer.read_head as int;
    let end = offset + data.len();
    let f = r->Ok_0.forwarded;
    let nothing = Forwarded { chunk: None, announce: None, finished: false };
    let (taken, mid, last) = choose|
        taken: StreamState,
        mid: ZtConnectionActor,
        last: ZtConnectionActor,
    |
        #![trigger before.stream_is(id, taken, &mid), last.wf()]
        {
            &&& if data.len() > 0 {
                s.took_in(&taken, offset, data)
            } else {
                taken == s
            }
            &&& before.stream_is(id, taken, &mid)
            &&& last.wf()
            &&& r is Ok
            &&& r->Ok_0.opened is None
            &&& mid.forwards(id, now, buffer_limit, &last, r->Ok_0.forwarded)
            &&& after == (ZtConnectionActor {
                pending_acks: one_more(before.pending_acks),
                ..last
            })
            &&& r->Ok_0.flush_acks == (one_more(before.pending_acks) >= ACK_BATCH)
        };
    assert(s.took_in(&taken, offset, data));
    assert(mid.state.streams@[id] == taken);
    let got = taken.receive_buffer.received();
    assert(forall|x: int| #[trigger] got.contains(x) <==> head <= x < end);
    assert(crate::stream_buffer::readable(got, head));
    let rest = data.skip(head - offset);
    let (h, t) = choose|h: StreamState, t: StreamState|
        #![trigger taken.handed_on(&h, f.chunk, now), at_end(t)]
        taken.handed_on(&h, f.chunk, now) && f.finished == at_end(t);
    assert(f.chunk is Some);
    let chunk = crate::payload::contents(f.chunk->0);
    let new_head = h.receive_buffer.read_head as int;
    assert(new_head == end) by {
        if new_head < end {
            assert(got.contains(new_head));
        }
        if new_head > end {
            assert(got.contains(end));
        }
    }
    assert(s.wf());
    assert forall|i: int| 0 <= i < rest.len() implies chunk[i] == rest[i] by {
        crate::stream_buffer::lemma_laid_down_at(s.receive_buffer.buffer@, head, rest, head + i);
    }
    assert(chunk =~= rest);
}

/// A stream frame first opens its stream, if that is not open, and then hands its
/// data to it; where the stream cannot be opened, that is the outcome.
pub proof fn law_stream_frames_open_and_fill(
    before: ZtConnectionActor,
    id: u32,
    offset: u64,
    stream_type: StreamType,
    data: Bytes,
    ctx: FrameContext,
    after: ZtConnectionActor,
    r: Result<FrameOutcome, FrameFault>,
)
    requires
        before.frame_handled(Frame::Stream { id, offset, stream_type, data }, ctx, &after, r),
    ensures
        before.state.streams@.contains_key(id) && r is Ok ==> r->Ok_0 is Stream
            && r->Ok_0->Stream_0.opened is None && before.takes_data(
            id,
            offset,
            crate::payload::contents(data),
            ctx.room,
            ctx.now,
            ctx.buffer_limit,
            &after,
            Ok(r->Ok_0->Stream_0),
        ),
        before.state.streams@.contains_key(id) && r is Err ==> before.takes_data(
            id,
            offset,
            crate::payload::contents(data),
            ctx.room,
            ctx.now,
            ctx.buffer_limit,
            &after,
            Err(r->Err_0),
        ),
        !before.state.streams@.contains_key(id) && r is Ok ==> r->Ok_0 is Stream
            && r->Ok_0->Stream_0.opened == Some(
            if stream_type == StreamType::Bidirectional {
                StreamType::Bidirectional
            } else {
                StreamType::UnidirectionalIn
            },
        ) && stream_type != StreamType::UnidirectionalIn && (id % 2 == 1) == before.is_client
            && before.state.streams@.dom().len() < before.state.local_max_streams && ctx.accepting,
        !before.state.streams@.contains_key(id) && ((id % 2 == 1) != before.is_client || stream_type
            == StreamType::UnidirectionalIn || before.state.streams@.dom().len()
            >= before.state.local_max_streams || !ctx.accepting) ==> r is Err && after.state.streams
            == before.state.streams,
{
}

/// The first bit of a packet tells a short header from a long one, and the four
/// bits after the next tell a Retry.
pub proof fn law_first_byte_tells_the_header(data: Seq<u8>)
    requires
        data.len() > 0,
    ensures
        is_short_packet(data) <==> data[0] < 128,
        is_retry_packet(data) <==> (data[0] / 4) % 16 == 12,
{
    let b = data[0];
    assert((b & 0x80 == 0) <==> b < 128) by (bit_vector);
    assert(((b >> 2) & 0x0f) == (b / 4) % 16) by (bit_vector);
}

/// Keys follow the phase bit. Packets with long headers and packets of the present
/// phase are opened with the present keys. In the other phase, a packet numbered
/// below the highest one seen was sent before the last change of keys, and any
/// other after the next.
pub proof fn law_keys_follow_the_phase_bit(
    actor: ZtConnectionActor,
    header: PacketHeader,
    is_short: bool,
)
    ensures
        ({
            let same = header.key_phase == (actor.state.current_key_epoch % 2 == 1);
            let late = actor.state.replay_window.highest_processed is Some && header.packet_number
                < actor.state.replay_window.highest_processed->0;
            let key = actor.key_for(header, is_short);
            &&& key is Current <==> !is_short || same
            &&& key is Previous <==> is_short && !same && late
            &&& key is Next <==> is_short && !same && !late
        }),
{
}

/// Packets are taken while the connection is active, and by a server also before
/// its handshake is confirmed; never while it closes or once it is closed.
pub proof fn law_packets_are_taken_while_active(actor: ZtConnectionActor)
    ensures
        actor.state.state == ConnectionState::Active ==> actor.takes_packets(),
        actor.state.state == ConnectionState::Closing || actor.state.state
            == ConnectionState::Closed ==> !actor.takes_packets(),
        actor.state.state == ConnectionState::Handshaking ==> (actor.takes_packets()
            <==> !actor.is_client),
        actor.state.replay_window.highest_processed is None ==> actor.highest_seen() == 0,
        actor.state.replay_window.highest_processed is Some ==> actor.highest_seen()
            == actor.state.replay_window.highest_processed->0,
{
}

/// What an opened packet does. It makes the connection active and is remembered,
/// along with the packets less than 2048 below the highest. Under new keys the
/// epoch moves on by one and the count of packets starts over. From a new address,
/// a validation of that address starts, with the token that is sent there; the
/// connection itself stays where it is.
pub proof fn law_an_opened_packet_is_remembered(
    before: ZtConnectionActor,
    pn: u64,
    addr: PeerAddr,
    rotated: bool,
    token: [u8; 8],
    now: u64,
    after: ZtConnectionActor,
    r: Option<[u8; 8]>,
)
    requires
        before.takes_packets(),
        before.opened_with(pn, addr, rotated, token, now, &after, r),
    ensures
        after.state.state == ConnectionState::Active,
        after == (ZtConnectionActor {
            state: ZtConnection {
                state: ConnectionState::Active,
                current_key_epoch: after.state.current_key_epoch,
                packets_since_key_update: after.state.packets_since_key_update,
                replay_window: after.state.replay_window,
                ack_tracker: after.state.ack_tracker,
                largest_acked_received_at: after.state.largest_acked_received_at,
                ..before.state
            },
            pending_validation_addr: after.pending_validation_addr,
            path_validation_token: after.path_validation_token,
            path_validation_sent_at: after.path_validation_sent_at,
            path_validation_retries: after.path_validation_retries,
            ..before
        }),
        rotated && before.state.current_key_epoch < u64::MAX ==> after.state.current_key_epoch
            == before.state.current_key_epoch + 1,
        rotated ==> after.state.packets_since_key_update == 0,
        !rotated ==> after.state.current_key_epoch == before.state.current_key_epoch
            && after.state.packets_since_key_update == before.state.packets_since_key_update,
        addr != before.state.addr && before.pending_validation_addr != Some(addr) ==> r == Some(
            token,
        ) && after.pending_validation_addr == Some(addr) && after.path_validation_token == Some(
            token,
        ) && after.path_validation_sent_at == Some(now) && after.path_validation_retries == 0,
        addr == before.state.addr || before.pending_validation_addr == Some(addr) ==> r is None
            && after.pending_validation_addr == before.pending_validation_addr
            && after.path_validation_token == before.path_validation_token
            && after.path_validation_sent_at == before.path_validation_sent_at
            && after.path_validation_retries == before.path_validation_retries,
        ({
            let h0 = before.state.ack_tracker.highest_processed;
            let h1 = after.state.ack_tracker.highest_processed;
            &&& h1 is Some && h1->0 >= pn
            &&& h0 is Some ==> h1->0 >= h0->0
            &&& h1->0 == pn || h1 == h0
            &&& forall|x: u64| #[trigger]
                after.state.ack_tracker.received().contains(x) <==> (x == pn
                    || before.state.ack_tracker.received().contains(x)) && x + 2048 > h1->0
            &&& h0 is None || pn >= h0->0 ==> after.state.largest_acked_received_at == Some(now)
            &&& h0 is Some && pn < h0->0 ==> after.state.largest_acked_received_at
                == before.state.largest_acked_received_at
        }),
        ({
            let h0 = before.state.replay_window.highest_processed;
            let h1 = after.state.replay_window.highest_processed;
            &&& h1 is Some && h1->0 >= pn
            &&& h0 is Some ==> h1->0 >= h0->0
            &&& h1->0 == pn || h1 == h0
            &&& forall|x: u64| #[trigger]
                after.state.replay_window.processed().contains(x) <==> (x == pn
                    || before.state.replay_window.processed().contains(x)) && x + 2048 > h1->0
        }),
{
}

/// Data that waits survives: whatever is handed on and however the window grows,
/// the bytes from the new read offset on are the same at their offsets, and as
/// many of them count as received as before.
pub proof fn law_waiting_data_survives(
    before: ZtConnectionActor,
    stream_id: u32,
    now: u64,
    buffer_limit: usize,
    after: ZtConnectionActor,
    f: Forwarded,
    x: int,
)
    requires
        before.wf(),
        before.state.streams@.contains_key(stream_id),
        before.offers(stream_id, true, now, buffer_limit, &after, f),
        !f.finished,
        after.state.streams@[stream_id].receive_buffer.read_head <= x,
        x < before.state.streams@[stream_id].receive_buffer.read_head
            + before.state.streams@[stream_id].receive_buffer.buffer@.len(),
    ensures
        ({
            let s = before.state.streams@[stream_id].receive_buffer;
            let t = after.state.streams@[stream_id].receive_buffer;
            &&& t.received().contains(x) <==> s.received().contains(x)
            &&& t.buffer@[x % (t.buffer@.len() as int)] == s.buffer@[x % (s.buffer@.len() as int)]
            &&& t.buffer@.len() == after.state.streams@[stream_id].window_size
        }),
{
    assert(before.state.streams@[stream_id].wf());
}

/// Windows grow only as far as the memory for all buffers allows.
pub proof fn law_buffers_stay_within_the_limit(
    before: ZtConnectionActor,
    stream_id: u32,
    room: bool,
    now: u64,
    buffer_limit: usize,
    after: ZtConnectionActor,
    f: Forwarded,
)
    requires
        before.wf(),
        before.state.streams@.dom().finite(),
        before.offers(stream_id, room, now, buffer_limit, &after, f),
    ensures
        crate::connection::total_allocated(after.state.streams@)
            <= crate::connection::total_allocated(before.state.streams@)
            || crate::connection::total_allocated(after.state.streams@) <= buffer_limit,
{
    if room && before.state.streams@.contains_key(stream_id) {
        let s = before.state.streams@[stream_id];
        assert(s.wf());
        crate::connection::law_totals_are_sums(before.state.streams@, stream_id, s);
        if !f.finished {
            let t = after.state.streams@[stream_id];
            crate::connection::law_totals_are_sums(before.state.streams@, stream_id, t);
            assert(after.state.streams@ =~= before.state.streams@.insert(stream_id, t));
        } else {
            assert(after.state.streams@ =~= before.state.streams@.remove(stream_id));
        }
    }
}

} // verus!
