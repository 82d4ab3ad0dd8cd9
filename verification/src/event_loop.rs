//! The course of a connection: messages from the application and timers.
//!
//! The caller waits for the next message or timer, hands it in as an event, and
//! does what the step says. Times are nanoseconds on a monotonic clock.

use crate::actor::ZtConnectionActor;
use crate::addr::PeerAddr;
use crate::config::MILLISECOND;
use crate::congestion::CongestionControlAlgorithm;
use crate::connection::ZtConnection;
use crate::connection_state::{ConnectionState, TerminationReason};
use crate::error::ZtError;
use crate::frame::Frame;
use crate::incoming::Forwarded;
use crate::outgoing::OpenRefusal;
use crate::stream_type::StreamType;
use crate::unacked::{CloseReason, UnackedPayload};
use bytes::Bytes;
use vstd::prelude::*;

verus! {

broadcast use vstd::std_specs::hash::group_hash_axioms;

/// A timer that is not set fires after a year.
pub const SLEEP_FOREVER: u64 = 31_536_000_000_000_000;

/// An acknowledgement is held back for so long.
pub const ACK_DELAY: u64 = 25_000_000;

/// A closing connection lingers for so long.
pub const CLOSE_LINGER: u64 = 5_000_000_000;

/// `a + b` as the clock shows it.
pub open spec fn later(a: u64, b: int) -> u64 {
    if a + b > u64::MAX {
        u64::MAX
    } else {
        (a + b) as u64
    }
}

/// When each timer of a connection fires.
#[derive(Debug, Clone, Copy)]
pub struct Timers {
    pub rto: u64,
    pub idle: u64,
    pub ack: u64,
    pub mtu_probe: u64,
    pub pacing: u64,
    pub path_validation: u64,
}

/// How long to wait for a path to answer: twice the round-trip time, taken as
/// fifty milliseconds at least.
pub open spec fn path_wait(rtt: u64) -> int {
    if rtt > 50 * MILLISECOND {
        2 * rtt
    } else {
        100 * MILLISECOND
    }
}

impl Timers {
    /// The timers of a connection that starts at `now`.
    pub fn new(conn: &ZtConnection, mtu_probe_interval: u64, now: u64) -> (r: Timers)
        ensures
            r == (Timers {
                rto: later(now, conn.rtt as int),
                idle: later(now, conn.idle_timeout as int),
                ack: later(now, SLEEP_FOREVER as int),
                mtu_probe: later(now, mtu_probe_interval as int),
                pacing: later(now, SLEEP_FOREVER as int),
                path_validation: later(now, SLEEP_FOREVER as int),
            }),
    {
        let never: u64 = now.saturating_add(SLEEP_FOREVER);
        Timers {
            rto: now.saturating_add(conn.rtt),
            idle: now.saturating_add(conn.idle_timeout),
            ack: never,
            mtu_probe: now.saturating_add(mtu_probe_interval),
            pacing: never,
            path_validation: never,
        }
    }

    /// A message puts the idle timer back.
    pub fn message_arrived(&mut self, idle_timeout: u64, now: u64)
        ensures
            *final(self) == (Timers { idle: later(now, idle_timeout as int), ..*old(self) }),
    {
        self.idle = now.saturating_add(idle_timeout);
    }

    /// With acknowledgements pending, one goes out within the delay.
    pub fn packet_handled(&mut self, pending_acks: u32, now: u64)
        ensures
            *final(self) == (Timers {
                ack: if pending_acks > 0 && old(self).ack > later(now, ACK_DELAY as int) {
                    later(now, ACK_DELAY as int)
                } else {
                    old(self).ack
                },
                ..*old(self)
            }),
            pending_acks > 0 ==> final(self).ack <= now + 25_000_000,
    {
        if pending_acks > 0 {
            let next: u64 = now.saturating_add(ACK_DELAY);
            if self.ack > next {
                self.ack = next;
            }
        }
    }

    /// The pacing queue was worked off as far as it went; `wait` is the time
    /// until the next payload may go.
    pub fn paced(&mut self, wait: Option<u64>, now: u64)
        ensures
            *final(self) == (Timers {
                pacing: match wait {
                    Some(w) => later(now, w as int),
                    None => later(now, SLEEP_FOREVER as int),
                },
                ..*old(self)
            }),
    {
        self.pacing = match wait {
            Some(w) => now.saturating_add(w),
            None => now.saturating_add(SLEEP_FOREVER),
        };
    }

    /// Sets the timers that follow from the connection's state: path validation
    /// after every event, retransmission when packets went out or were acknowledged.
    pub fn rearm(&mut self, actor: &ZtConnectionActor, packets_changed: bool, now: u64)
        requires
            actor.wf(),
        ensures
            final(self).path_validation == match actor.path_validation_sent_at {
                Some(t) => later(t, path_wait(actor.state.rtt)),
                None => later(now, SLEEP_FOREVER as int),
            },
            final(self).rto == old(self).rto || packets_changed,
            packets_changed && actor.state.unacked_packets@ == Map::<
                u64,
                crate::unacked::UnackedPacket,
            >::empty() ==> final(self).rto == later(now, SLEEP_FOREVER as int),
            packets_changed && actor.state.unacked_packets@ != Map::<
                u64,
                crate::unacked::UnackedPacket,
            >::empty() ==> actor.is_next_rto(final(self).rto),
            *final(self) == (Timers {
                rto: final(self).rto,
                path_validation: final(self).path_validation,
                ..*old(self)
            }),
    {
        self.path_validation = match actor.path_validation_sent_at {
            Some(t) => {
                let floor: u64 = 50 * MILLISECOND;
                let rtt: u64 = if actor.state.rtt > floor {
                    actor.state.rtt
                } else {
                    floor
                };
                t.saturating_add(rtt).saturating_add(rtt)
            },
            None => now.saturating_add(SLEEP_FOREVER),
        };
        if packets_changed {
            self.rto = match actor.state.get_next_rto_deadline() {
                Some(d) => d,
                None => now.saturating_add(SLEEP_FOREVER),
            };
        }
    }
}

/// A snapshot of a connection's state.
#[derive(Debug, Clone, Copy, PartialEq, Eq, Structural)]
pub struct ConnectionStats {
    pub rtt: u64,
    pub rttvar: u64,
    pub cwnd: usize,
    pub bytes_in_flight: usize,
    pub bytes_sent: usize,
    pub bytes_received: usize,
    pub active_streams: usize,
    pub key_epoch: u64,
    pub mtu: usize,
    pub cc_algorithm: CongestionControlAlgorithm,
    pub packets_lost: u64,
    pub packets_retransmitted: u64,
    pub mtu_probe_successes: u64,
    pub mtu_probe_failures: u64,
    pub mtu_blackhole_recoveries: u64,
}

/// What the application asks of a connection.
pub enum ActorMessage {
    OutgoingData { stream_id: u32, data: Bytes },
    GetMtu,
    CloseStream { stream_id: u32 },
    ResetStream { stream_id: u32, error_code: u64 },
    OpenStream { stream_type: StreamType },
    SetHandshakePacket { packet: Bytes },
    /// The application took so many bytes of a stream.
    StreamDataRead { stream_id: u32, bytes_read: usize },
    GetStats,
    Close,
    CloseWithError { error_code: u64, reason: Vec<u8> },
    SendDatagram { data: Bytes },
}

/// The answer to a message.
pub enum Reply {
    Silent,
    Done { result: Result<(), ZtError> },
    Mtu { mtu: usize },
    Opened { stream: Result<u32, ZtError> },
    Stats { stats: ConnectionStats },
}

/// What is left to do after an event.
pub struct Step {
    pub reply: Reply,
    /// A payload to send.
    pub send: Option<UnackedPayload>,
    /// A frame to send at once, and where to.
    pub frame: Option<(Frame, PeerAddr)>,
    /// Data for the application.
    pub forwarded: Option<Forwarded>,
    /// Whether to send an acknowledgement.
    pub flush_acks: bool,
    /// Whether to work off the pacing queue.
    pub pace: bool,
    /// Whether packets may have gone out.
    pub packets_changed: bool,
}

/// A step with nothing to do.
pub open spec fn idle_step() -> Step {
    Step {
        reply: Reply::Silent,
        send: None,
        frame: None,
        forwarded: None,
        flush_acks: false,
        pace: false,
        packets_changed: false,
    }
}

fn no_step() -> (r: Step)
    ensures
        r == idle_step(),
{
    Step {
        reply: Reply::Silent,
        send: None,
        frame: None,
        forwarded: None,
        flush_acks: false,
        pace: false,
        packets_changed: false,
    }
}

impl ZtConnectionActor {
    /// Whether `d` is when the next retransmission timer of a packet runs out.
    pub open spec fn is_next_rto(&self, d: u64) -> bool {
        let rto = crate::recovery::retransmission_timeout(self.state.rtt, self.state.rttvar);
        let packets = self.state.unacked_packets@;
        &&& exists|k: u64| #[trigger]
            packets.contains_key(k) && d == crate::recovery::on_clock(
                crate::recovery::packet_deadline(packets[k], rto),
            )
        &&& forall|k: u64| #[trigger]
            packets.contains_key(k) ==> d <= crate::recovery::on_clock(
                crate::recovery::packet_deadline(packets[k], rto),
            )
    }

    /// The snapshot of the present state.
    pub open spec fn snapshot(&self) -> ConnectionStats {
        ConnectionStats {
            rtt: self.state.rtt,
            rttvar: self.state.rttvar,
            cwnd: self.state.cc.window(),
            bytes_in_flight: self.state.bytes_in_flight,
            bytes_sent: self.state.bytes_sent,
            bytes_received: self.state.bytes_received,
            active_streams: self.state.streams@.dom().len() as usize,
            key_epoch: self.state.current_key_epoch,
            mtu: self.state.mtu,
            cc_algorithm: if self.state.cc is Cubic {
                CongestionControlAlgorithm::Cubic
            } else {
                CongestionControlAlgorithm::Reno
            },
            packets_lost: self.state.packets_lost,
            packets_retransmitted: self.state.packets_retransmitted,
            mtu_probe_successes: self.state.mtu_probe_successes,
            mtu_probe_failures: self.state.mtu_probe_failures,
            mtu_blackhole_recoveries: self.state.mtu_blackhole_recoveries,
        }
    }

    /// A snapshot of the present state.
    pub fn stats(&self) -> (r: ConnectionStats)
        ensures
            r == self.snapshot(),
    {
        ConnectionStats {
            rtt: self.state.rtt,
            rttvar: self.state.rttvar,
            cwnd: self.state.cc.cwnd(),
            bytes_in_flight: self.state.bytes_in_flight,
            bytes_sent: self.state.bytes_sent,
            bytes_received: self.state.bytes_received,
            active_streams: self.state.streams.len(),
            key_epoch: self.state.current_key_epoch,
            mtu: self.state.mtu,
            cc_algorithm: self.state.cc.algorithm(),
            packets_lost: self.state.packets_lost,
            packets_retransmitted: self.state.packets_retransmitted,
            mtu_probe_successes: self.state.mtu_probe_successes,
            mtu_probe_failures: self.state.mtu_probe_failures,
            mtu_blackhole_recoveries: self.state.mtu_blackhole_recoveries,
        }
    }

    /// The payload that ends a stream of this side.
    pub open spec fn end_of_stream(&self, stream_id: u32) -> UnackedPayload {
        UnackedPayload::StreamClose {
            stream_id,
            final_offset: if self.state.streams@.contains_key(stream_id) {
                self.state.streams@[stream_id].next_tx_offset
            } else {
                0
            },
        }
    }

    /// What a message does: `after` and `step` come of `self`.
    pub open spec fn message_handled(
        &self,
        message: ActorMessage,
        room: bool,
        buffer_limit: usize,
        now: u64,
        after: &ZtConnectionActor,
        step: Step,
    ) -> bool {
        match message {
            ActorMessage::OutgoingData { stream_id, data } => {
                &&& step == (Step {
                    reply: step.reply,
                    pace: true,
                    packets_changed: true,
                    ..idle_step()
                })
                &&& step.reply is Done
                &&& (ZtConnectionActor { last_active_stream_id: stream_id, ..*self }).data_taken(
                    stream_id,
                    data,
                    after,
                    step.reply->result,
                )
            },
            ActorMessage::GetMtu => *after == *self && step == (Step {
                reply: Reply::Mtu { mtu: self.state.mtu },
                ..idle_step()
            }),
            ActorMessage::CloseStream { stream_id } => {
                &&& step == (Step {
                    send: Some(self.end_of_stream(stream_id)),
                    pace: true,
                    packets_changed: true,
                    ..idle_step()
                })
                &&& self.streams_are(self.state.streams@.remove(stream_id), after)
            },
            ActorMessage::ResetStream { stream_id, error_code } => {
                &&& step == (Step {
                    send: Some(UnackedPayload::StreamReset { stream_id, error_code }),
                    pace: true,
                    packets_changed: true,
                    ..idle_step()
                })
                &&& self.streams_are(self.state.streams@.remove(stream_id), after)
            },
            ActorMessage::OpenStream { stream_type } => exists|
                result: Result<u32, OpenRefusal>,
            |
                {
                    &&& #[trigger] self.stream_opened(stream_type, now, after, result)
                    &&& step == match result {
                        Ok(id) => Step {
                            reply: Reply::Opened { stream: Ok(id) },
                            ..idle_step()
                        },
                        Err(refusal) => Step {
                            reply: Reply::Opened { stream: Err(refusal.error) },
                            frame: match refusal.blocked_at {
                                Some(limit) => Some(
                                    (
                                        Frame::StreamsBlocked { max_streams: limit },
                                        self.state.addr,
                                    ),
                                ),
                                None => None,
                            },
                            ..idle_step()
                        },
                    }
                },
            ActorMessage::SetHandshakePacket { packet } => step == idle_step() && *after == (
            ZtConnectionActor {
                state: ZtConnection { handshake_packet: Some(packet), ..self.state },
                ..*self
            }),
            ActorMessage::StreamDataRead { stream_id, bytes_read } => exists|
                mid: ZtConnectionActor,
                f: Forwarded,
            |
                {
                    &&& #[trigger] self.offers(stream_id, room, now, buffer_limit, &mid, f)
                    &&& step == (Step {
                        forwarded: Some(f),
                        flush_acks: bytes_read > 0,
                        pace: true,
                        packets_changed: bytes_read > 0,
                        ..idle_step()
                    })
                    &&& *after == (ZtConnectionActor {
                        pending_acks: if bytes_read > 0 && self.pending_acks == 0 {
                            1
                        } else {
                            self.pending_acks
                        },
                        ..mid
                    })
                },
            ActorMessage::GetStats => *after == *self && step == (Step {
                reply: Reply::Stats { stats: self.snapshot() },
                ..idle_step()
            }),
            ActorMessage::Close => {
                &&& *after == self.closing()
                &&& step == (Step {
                    send: Some(UnackedPayload::Close { error: None }),
                    pace: true,
                    packets_changed: true,
                    ..idle_step()
                })
            },
            ActorMessage::CloseWithError { error_code, reason } => {
                &&& *after == self.closing()
                &&& step == (Step {
                    send: Some(
                        UnackedPayload::Close { error: Some(CloseReason { error_code, reason }) },
                    ),
                    pace: true,
                    packets_changed: true,
                    ..idle_step()
                })
            },
            ActorMessage::SendDatagram { data } => exists|result: Result<(), ZtError>|
                {
                    &&& #[trigger] self.datagram_taken(data, after, result)
                    &&& step == (Step {
                        reply: Reply::Done { result },
                        pace: result is Ok,
                        packets_changed: result is Ok,
                        ..idle_step()
                    })
                },
        }
    }

    /// The actor with other streams.
    pub open spec fn streams_are(
        &self,
        streams: Map<u32, crate::stream_state::StreamState>,
        after: &ZtConnectionActor,
    ) -> bool {
        &&& *after == (ZtConnectionActor {
            state: ZtConnection { streams: after.state.streams, ..self.state },
            ..*self
        })
        &&& after.state.streams@ == streams
    }

    /// Handles a message from the application. Every message puts the idle timer
    /// back; a close shortens it.
    pub fn handle_message(
        &mut self,
        message: ActorMessage,
        timers: &mut Timers,
        room: bool,
        buffer_limit: usize,
        now: u64,
    ) -> (step: Step)
        requires
            old(self).wf(),
        ensures
            final(self).wf(),
            old(self).message_handled(message, room, buffer_limit, now, final(self), step),
            *final(timers) == (Timers {
                idle: later(
                    now,
                    if message is Close || message is CloseWithError {
                        CLOSE_LINGER as int
                    } else {
                        old(self).state.idle_timeout as int
                    },
                ),
                ..*old(timers)
            }),
            (message is Close || message is CloseWithError) && now + 5_000_000_000 <= u64::MAX
                ==> final(timers).idle == now + 5_000_000_000,
            !(message is Close || message is CloseWithError) && now + old(self).state.idle_timeout
                <= u64::MAX ==> final(timers).idle == now + old(self).state.idle_timeout,
    {
        timers.message_arrived(self.state.idle_timeout, now);
        let mut step = no_step();
        match message {
            ActorMessage::OutgoingData { stream_id, data } => {
                self.last_active_stream_id = stream_id;
                let result = self.process_outgoing_data(stream_id, data);
                step.reply = Reply::Done { result };
                step.pace = true;
                step.packets_changed = true;
            },
            ActorMessage::GetMtu => {
                step.reply = Reply::Mtu { mtu: self.state.mtu };
            },
            ActorMessage::CloseStream { stream_id } => {
                step.send = Some(self.close_stream(stream_id));
                step.pace = true;
                step.packets_changed = true;
            },
            ActorMessage::ResetStream { stream_id, error_code } => {
                step.send = Some(self.reset_stream(stream_id, error_code));
                step.pace = true;
                step.packets_changed = true;
            },
            ActorMessage::OpenStream { stream_type } => {
                let addr = self.state.addr;
                let result = self.open_stream(stream_type, now);
                let ghost result0 = result;
                match result {
                    Ok(id) => {
                        step.reply = Reply::Opened { stream: Ok(id) };
                    },
                    Err(refusal) => {
                        step.reply = Reply::Opened { stream: Err(refusal.error) };
                        if let Some(limit) = refusal.blocked_at {
                            step.frame = Some((Frame::StreamsBlocked { max_streams: limit }, addr));
                        }
                    },
                }
                assert(old(self).stream_opened(stream_type, now, self, result0));
            },
            ActorMessage::SetHandshakePacket { packet } => {
                self.state.handshake_packet = Some(packet);
            },
            ActorMessage::StreamDataRead { stream_id, bytes_read } => {
                let f = self.forward_stream_data(stream_id, room, now, buffer_limit);
                let ghost mid = *self;
                if bytes_read > 0 {
                    if self.pending_acks == 0 {
                        self.pending_acks = 1;
                    }
                    step.flush_acks = true;
                    step.packets_changed = true;
                }
                step.pace = true;
                step.forwarded = Some(f);
                assert(old(self).offers(stream_id, room, now, buffer_limit, &mid, f));
            },
            ActorMessage::GetStats => {
                step.reply = Reply::Stats { stats: self.stats() };
            },
            ActorMessage::Close => {
                step.send = Some(self.initiate_close(None));
                timers.message_arrived(CLOSE_LINGER, now);
                step.pace = true;
                step.packets_changed = true;
            },
            ActorMessage::CloseWithError { error_code, reason } => {
                step.send = Some(self.initiate_close(Some(CloseReason { error_code, reason })));
                timers.message_arrived(CLOSE_LINGER, now);
                step.pace = true;
                step.packets_changed = true;
            },
            ActorMessage::SendDatagram { data } => {
                let result = self.send_datagram(data);
                let done = result.is_ok();
                step.reply = Reply::Done { result };
                step.pace = done;
                step.packets_changed = done;
                assert(old(self).datagram_taken(data, self, result));
            },
        }
        step
    }

    /// The delayed acknowledgement is due. Returns whether to send it; the timer
    /// is put off either way.
    pub fn on_ack_timer(&self, timers: &mut Timers, now: u64) -> (flush: bool)
        ensures
            flush == (self.pending_acks > 0),
            *final(timers) == (Timers { ack: later(now, SLEEP_FOREVER as int), ..*old(timers) }),
    {
        timers.ack = now.saturating_add(SLEEP_FOREVER);
        self.pending_acks > 0
    }

    /// A path probe is due: puts the timer off by the interval.
    pub fn on_mtu_probe_timer(&self, timers: &mut Timers, interval: u64, now: u64)
        ensures
            *final(timers) == (Timers { mtu_probe: later(now, interval as int), ..*old(timers) }),
    {
        timers.mtu_probe = now.saturating_add(interval);
    }

    /// The path that is being validated has not answered in time. The challenge
    /// is sent again, up to `max_retries` times; then the validation is given up.
    pub fn on_path_validation_timer(&mut self, max_retries: u32, now: u64) -> (r: Option<
        (Frame, PeerAddr),
    >)
        requires
            old(self).wf(),
        ensures
            final(self).wf(),
            if old(self).path_validation_retries < max_retries {
                if old(self).pending_validation_addr is Some && old(
                    self,
                ).path_validation_token is Some {
                    &&& r == Some(
                        (
                            Frame::PathChallenge { token: old(self).path_validation_token->0 },
                            old(self).pending_validation_addr->0,
                        ),
                    )
                    &&& *final(self) == (ZtConnectionActor {
                        path_validation_retries: (old(self).path_validation_retries + 1) as u32,
                        path_validation_sent_at: Some(now),
                        ..*old(self)
                    })
                } else {
                    r is None && *final(self) == *old(self)
                }
            } else {
                &&& r is None
                &&& *final(self) == (ZtConnectionActor {
                    pending_validation_addr: None,
                    path_validation_token: None,
                    path_validation_sent_at: None,
                    path_validation_retries: 0,
                    ..*old(self)
                })
            },
            final(self).state == old(self).state,
            final(self).path_validation_retries <= max_retries,
            r is Some ==> final(self).path_validation_retries == old(self).path_validation_retries
                + 1 && final(self).path_validation_token == old(self).path_validation_token,
            r is None && old(self).pending_validation_addr is Some && old(
                self,
            ).path_validation_token is Some ==> final(self).pending_validation_addr is None,
    {
        if self.path_validation_retries < max_retries {
            match self.pending_validation_addr {
                Some(addr) => match self.path_validation_token {
                    Some(token) => {
                        self.path_validation_retries = self.path_validation_retries + 1;
                        self.path_validation_sent_at = Some(now);
                        Some((Frame::PathChallenge { token }, addr))
                    },
                    None => None,
                },
                None => None,
            }
        } else {
            self.pending_validation_addr = None;
            self.path_validation_token = None;
            self.path_validation_sent_at = None;
            self.path_validation_retries = 0;
            None
        }
    }

    /// Nothing happened for too long: the connection ends. Unless it was closing
    /// anyway, idleness is the reason, for its streams too. Returns whether it is.
    pub fn on_idle_timer(&mut self) -> (idle: bool)
        requires
            old(self).wf(),
        ensures
            final(self).wf(),
            idle == (old(self).state.state != ConnectionState::Closing),
            *final(self) == (ZtConnectionActor {
                state: ZtConnection {
                    termination: if idle {
                        Some(TerminationReason::IdleTimeout)
                    } else {
                        old(self).state.termination
                    },
                    ..old(self).state
                },
                ..*old(self)
            }),
            !(old(self).state.state is Closing) ==> final(self).state.termination == Some(
                TerminationReason::IdleTimeout,
            ),
            old(self).state.state is Closing ==> *final(self) == *old(self),
    {
        if self.state.state != ConnectionState::Closing {
            self.state.termination = Some(TerminationReason::IdleTimeout);
            return true;
        }
        false
    }

    /// For how long a closed connection still drains what arrives: three round
    /// trips. Nothing for one that is not closed.
    pub fn linger(&self) -> (r: Option<u64>)
        ensures
            r == if self.state.state == ConnectionState::Closed {
                Some(
                    if 3 * self.state.rtt > u64::MAX {
                        u64::MAX
                    } else {
                        (3 * self.state.rtt) as u64
                    },
                )
            } else {
                None
            },
            r is Some <==> self.state.state is Closed,
            r is Some && 3 * self.state.rtt <= u64::MAX ==> r->0 == self.state.rtt
                + self.state.rtt + self.state.rtt,
    {
        if self.state.state == ConnectionState::Closed {
            Some(self.state.rtt.saturating_add(self.state.rtt).saturating_add(self.state.rtt))
        } else {
            None
        }
    }

    /// Whether a client has to send its Initial packet.
    pub fn must_start(&self) -> (r: bool)
        ensures
            r == (self.is_client && self.state.state == ConnectionState::Handshaking),
    {
        self.is_client && self.state.state == ConnectionState::Handshaking
    }

    /// The connection is over; whoever waits on a stream has to be told.
    pub fn shut_down(&mut self)
        requires
            old(self).wf(),
        ensures
            final(self).wf(),
            *final(self) == (ZtConnectionActor {
                state: ZtConnection { closed: true, ..old(self).state },
                ..*old(self)
            }),
    {
        self.state.closed = true;
    }
}

/// Deadlines lie as far ahead as asked for, as far as the clock goes.
pub proof fn law_deadlines_lie_ahead(a: u64, b: u64)
    ensures
        a + b <= u64::MAX ==> later(a, b as int) == a + b,
        a + b > u64::MAX ==> later(a, b as int) == u64::MAX,
{
}

/// A path gets twice the round-trip time to answer, and a tenth of a second at
/// least.
pub proof fn law_paths_get_two_round_trips(rtt: u64)
    ensures
        path_wait(rtt) >= 100_000_000,
        path_wait(rtt) >= 2 * rtt,
        path_wait(rtt) == 100_000_000 || path_wait(rtt) == 2 * rtt,
{
}

/// The retransmission timer is set for the packet that is due first: a packet
/// sent once is due one timeout after it was sent, ten seconds at the latest, and
/// none is due before the timer fires.
pub proof fn law_the_timer_is_set_for_the_first_packet_due(actor: ZtConnectionActor, d: u64, k: u64)
    requires
        actor.is_next_rto(d),
        actor.state.unacked_packets@.contains_key(k),
    ensures
        ({
            let p = actor.state.unacked_packets@[k];
            let rto: int = if actor.state.rtt + 4 * actor.state.rttvar > 50_000_000 {
                actor.state.rtt + 4 * actor.state.rttvar
            } else {
                50_000_000
            };
            &&& d <= p.sent_at + 10_000_000_000
            &&& p.retries == 0 ==> d <= p.sent_at + rto
            &&& p.retries == 1 ==> d <= p.sent_at + 2 * rto
        }),
        exists|j: u64| #[trigger]
            actor.state.unacked_packets@.contains_key(j) && (d == u64::MAX || d
                >= actor.state.unacked_packets@[j].sent_at + 50_000_000),
{
    let rto = crate::recovery::retransmission_timeout(actor.state.rtt, actor.state.rttvar);
    let packets = actor.state.unacked_packets@;
    let j = choose|j: u64| #[trigger]
        packets.contains_key(j) && d == crate::recovery::on_clock(
            crate::recovery::packet_deadline(packets[j], rto),
        );
    assert(rto * crate::recovery::backoff(packets[j].retries) >= rto) by (nonlinear_arith)
        requires
            rto >= 0,
            crate::recovery::backoff(packets[j].retries) >= 1,
    ;
    assert(rto * 1 == rto && rto * 2 == 2 * rto);
}

/// A snapshot shows the state as it is.
pub proof fn law_snapshots_show_the_state(actor: ZtConnectionActor)
    ensures
        ({
            let s = actor.snapshot();
            &&& s.rtt == actor.state.rtt && s.rttvar == actor.state.rttvar
            &&& actor.state.cc matches crate::congestion::CongestionController::Cubic(c) ==> s.cwnd
                == c.cwnd && s.cc_algorithm == CongestionControlAlgorithm::Cubic
            &&& actor.state.cc matches crate::congestion::CongestionController::Reno(c) ==> s.cwnd
                == c.cwnd && s.cc_algorithm == CongestionControlAlgorithm::Reno
            &&& s.bytes_in_flight == actor.state.bytes_in_flight
            &&& s.bytes_sent == actor.state.bytes_sent && s.bytes_received
                == actor.state.bytes_received
            &&& actor.state.streams@.dom().len() <= usize::MAX ==> s.active_streams
                == actor.state.streams@.dom().len()
            &&& s.key_epoch == actor.state.current_key_epoch && s.mtu == actor.state.mtu
            &&& s.packets_lost == actor.state.packets_lost && s.packets_retransmitted
                == actor.state.packets_retransmitted
            &&& s.mtu_probe_successes == actor.state.mtu_probe_successes && s.mtu_probe_failures
                == actor.state.mtu_probe_failures && s.mtu_blackhole_recoveries
                == actor.state.mtu_blackhole_recoveries
        }),
{
}

/// Every request is answered by what it asks for: data and datagrams by whether
/// they were taken, a request for a stream by its id or the reason against it,
/// questions by the present state, which they leave as it is.
pub proof fn law_requests_are_answered(
    before: ZtConnectionActor,
    message: ActorMessage,
    room: bool,
    buffer_limit: usize,
    now: u64,
    after: ZtConnectionActor,
    step: Step,
)
    requires
        before.message_handled(message, room, buffer_limit, now, &after, step),
    ensures
        message is GetMtu ==> after == before && step.reply == (Reply::Mtu {
            mtu: before.state.mtu,
        }) && step.send is None && !step.flush_acks && !step.pace,
        message is GetStats ==> after == before && step.reply == (Reply::Stats {
            stats: before.snapshot(),
        }) && step.send is None && !step.flush_acks && !step.pace,
        (message is OutgoingData || message is SendDatagram) <==> step.reply is Done,
        message is OpenStream <==> step.reply is Opened,
        step.reply matches Reply::Done { result } ==> (message matches ActorMessage::SendDatagram {
            data,
        } ==> before.datagram_taken(data, &after, result)),
        step.reply matches Reply::Done { result } ==> (message matches ActorMessage::OutgoingData {
            stream_id,
            data,
        } ==> (ZtConnectionActor { last_active_stream_id: stream_id, ..before }).data_taken(
            stream_id,
            data,
            &after,
            result,
        )),
        message is OutgoingData ==> step.pace && step.packets_changed && step.send is None,
        message is SendDatagram ==> (step.pace <==> step.reply->result is Ok) && (
        step.packets_changed <==> step.reply->result is Ok) && step.send is None,
        step.flush_acks ==> message is StreamDataRead,
        step.frame is Some ==> message is OpenStream,
        step.forwarded is Some <==> message is StreamDataRead,
        message matches ActorMessage::OpenStream { stream_type } ==> exists|
            result: Result<u32, OpenRefusal>,
        | #[trigger]
            before.stream_opened(stream_type, now, &after, result) && (result matches Ok(id)
                ==> step.reply == (Reply::Opened { stream: Ok(id) }) && step.frame is None) && (
            result matches Err(refusal) ==> step.reply == (Reply::Opened {
                stream: Err(refusal.error),
            }) && (refusal.blocked_at matches Some(limit) ==> step.frame == Some(
                (Frame::StreamsBlocked { max_streams: limit }, before.state.addr),
            )) && (refusal.blocked_at is None ==> step.frame is None)),
        message matches ActorMessage::SetHandshakePacket { packet } ==> after.state.handshake_packet
            == Some(packet) && after.state.streams == before.state.streams,
{
}

/// Closing a stream tells the peer where it ends, resetting it tells the code;
/// either way the stream is gone here and the other streams are not touched.
/// Closing the connection starts to close it and tells the peer why, if asked to.
pub proof fn law_closing_tells_the_peer(
    before: ZtConnectionActor,
    message: ActorMessage,
    room: bool,
    buffer_limit: usize,
    now: u64,
    after: ZtConnectionActor,
    step: Step,
)
    requires
        before.message_handled(message, room, buffer_limit, now, &after, step),
    ensures
        message matches ActorMessage::CloseStream { stream_id } ==> ({
            &&& !after.state.streams@.contains_key(stream_id)
            &&& step.send matches Some(UnackedPayload::StreamClose { stream_id: id, final_offset })
                && id == stream_id && (before.state.streams@.contains_key(stream_id)
                ==> final_offset == before.state.streams@[stream_id].next_tx_offset) && (
            !before.state.streams@.contains_key(stream_id) ==> final_offset == 0)
            &&& forall|other: u32|
                other != stream_id && #[trigger] before.state.streams@.contains_key(other)
                    ==> after.state.streams@.contains_key(other) && after.state.streams@[other]
                    == before.state.streams@[other]
            &&& after.state.state == before.state.state && step.pace
        }),
        message matches ActorMessage::ResetStream { stream_id, error_code } ==> ({
            &&& !after.state.streams@.contains_key(stream_id)
            &&& step.send == Some(UnackedPayload::StreamReset { stream_id, error_code })
            &&& forall|other: u32|
                other != stream_id && #[trigger] before.state.streams@.contains_key(other)
                    ==> after.state.streams@.contains_key(other) && after.state.streams@[other]
                    == before.state.streams@[other]
            &&& after.state.state == before.state.state && step.pace
        }),
        message is Close ==> after.state.state == ConnectionState::Closing && step.send == Some(
            UnackedPayload::Close { error: None },
        ) && after.state.streams == before.state.streams,
        message matches ActorMessage::CloseWithError { error_code, reason } ==> after.state.state
            == ConnectionState::Closing && (step.send matches Some(
            UnackedPayload::Close { error: Some(e) },
        ) && e.error_code == error_code && e.reason@ == reason@) && after.state.streams
            == before.state.streams,
        after.state.state != before.state.state ==> message is Close || message is CloseWithError,
        message is CloseStream || message is ResetStream ==> after == (ZtConnectionActor {
            state: ZtConnection { streams: after.state.streams, ..before.state },
            ..before
        }),
        message is Close || message is CloseWithError ==> after == (ZtConnectionActor {
            state: ZtConnection { state: ConnectionState::Closing, ..before.state },
            ..before
        }),
{
}

/// When the application has read, more data is offered to it, and the peer is told
/// of the new room at once.
pub proof fn law_reading_makes_room(
    before: ZtConnectionActor,
    stream_id: u32,
    bytes_read: usize,
    room: bool,
    buffer_limit: usize,
    now: u64,
    after: ZtConnectionActor,
    step: Step,
)
    requires
        before.message_handled(
            ActorMessage::StreamDataRead { stream_id, bytes_read },
            room,
            buffer_limit,
            now,
            &after,
            step,
        ),
    ensures
        step.forwarded is Some,
        step.flush_acks <==> bytes_read > 0,
        bytes_read > 0 ==> after.pending_acks > 0,
        bytes_read > 0 && before.pending_acks == 0 ==> after.pending_acks == 1,
        bytes_read == 0 || before.pending_acks > 0 ==> after.pending_acks == before.pending_acks,
        exists|mid: ZtConnectionActor| #[trigger]
            before.offers(stream_id, room, now, buffer_limit, &mid, step.forwarded->0)
                && after.state == mid.state,
        !room ==> after.state == before.state && step.forwarded->0.chunk is None,
{
}

/// What is left to do after a message: what tells the peer of an end is sent, the
/// queue is worked off whenever something may have become ready to go, and whoever
/// did not ask gets no reply.
pub proof fn law_messages_leave_the_right_work(
    before: ZtConnectionActor,
    message: ActorMessage,
    room: bool,
    buffer_limit: usize,
    now: u64,
    after: ZtConnectionActor,
    step: Step,
)
    requires
        before.message_handled(message, room, buffer_limit, now, &after, step),
    ensures
        ({
            let ends = message is CloseStream || message is ResetStream || message is Close
                || message is CloseWithError;
            let queued = message is SendDatagram && step.reply->result is Ok;
            let read = message is StreamDataRead && message->bytes_read > 0;
            &&& step.send is Some <==> ends
            &&& step.pace <==> ends || queued || message is OutgoingData
                || message is StreamDataRead
            &&& step.packets_changed <==> ends || queued || message is OutgoingData || read
            &&& step.flush_acks <==> read
            &&& step.reply is Silent <==> ends || message is SetHandshakePacket
                || message is StreamDataRead
            &&& step.reply is Mtu <==> message is GetMtu
            &&& step.reply is Stats <==> message is GetStats
        }),
        message matches ActorMessage::SetHandshakePacket { packet } ==> after == (
        ZtConnectionActor {
            state: ZtConnection { handshake_packet: Some(packet), ..before.state },
            ..before
        }),
{
}

} // verus!
