//! What is known of one stream.

use crate::payload::bytes_len;
use crate::stream_buffer::StreamReceiveBuffer;
use crate::stream_type::StreamType;
use bytes::Bytes;
use vstd::prelude::*;

verus! {

/// Per-stream receive and transmit state.
pub struct StreamState {
    /// Everything below this offset was handed to the application.
    pub expected_rx_offset: u64,
    /// The offset of the next byte to send.
    pub next_tx_offset: u64,
    pub receive_buffer: StreamReceiveBuffer,
    /// The size of the receive window.
    pub window_size: u64,
    /// How much may still be sent.
    pub tx_window: u64,
    /// How much arrived and is waiting to be handed on.
    pub buffered_bytes: usize,
    pub highest_rx_offset: u64,
    /// Where the peer said the stream ends.
    pub final_rx_offset: Option<u64>,
    pub send_stopped_error: Option<u64>,
    /// The limit last announced to the peer.
    pub last_sent_max_data: u64,
    /// When the receive window was last looked at for tuning.
    pub last_window_update: u64,
    /// How much was handed on since then.
    pub bytes_read_in_epoch: usize,
    pub stream_type: StreamType,
}

impl StreamState {
    /// The receive buffer is sound and as large as the window.
    pub open spec fn wf(&self) -> bool {
        self.receive_buffer.wf() && self.receive_buffer.capacity() == self.window_size
    }

    /// What a stream looks like on which nothing has happened.
    pub open spec fn is_fresh(
        &self,
        stream_type: StreamType,
        receive_window: u64,
        transmit_window: u64,
        now: u64,
    ) -> bool {
        &&& self.wf()
        &&& self.receive_buffer.received() == Set::<int>::empty()
        &&& self.receive_buffer.read_head == 0
        &&& self.receive_buffer.write_head == 0
        &&& self.receive_buffer.buffer@ == Seq::new(receive_window as nat, |i: int| 0u8)
        &&& *self == (StreamState {
            expected_rx_offset: 0,
            next_tx_offset: 0,
            receive_buffer: self.receive_buffer,
            window_size: receive_window,
            tx_window: transmit_window,
            buffered_bytes: 0,
            highest_rx_offset: 0,
            final_rx_offset: None,
            send_stopped_error: None,
            last_sent_max_data: receive_window,
            last_window_update: now,
            bytes_read_in_epoch: 0,
            stream_type,
        })
    }

    /// A stream on which nothing has happened. `now` starts the first tuning epoch.
    pub fn new(
        stream_type: StreamType,
        receive_window: u64,
        transmit_window: u64,
        now: u64,
    ) -> (r: Self)
        requires
            receive_window <= isize::MAX,
        ensures
            r.is_fresh(stream_type, receive_window, transmit_window, now),
    {
        StreamState {
            expected_rx_offset: 0,
            next_tx_offset: 0,
            receive_buffer: StreamReceiveBuffer::new(receive_window as usize),
            window_size: receive_window,
            tx_window: transmit_window,
            buffered_bytes: 0,
            highest_rx_offset: 0,
            final_rx_offset: None,
            send_stopped_error: None,
            last_sent_max_data: receive_window,
            last_window_update: now,
            bytes_read_in_epoch: 0,
            stream_type,
        }
    }

    /// Whether data at `offset` lies wholly below the read position.
    pub open spec fn is_stale(&self, offset: u64, len: nat) -> bool {
        offset + len <= self.receive_buffer.read_head
    }

    /// Whether data at `offset` reaches beyond the receive window.
    pub open spec fn is_beyond(&self, offset: u64, len: nat) -> bool {
        let edge = self.receive_buffer.read_head + self.receive_buffer.capacity();
        len > 0 && !self.is_stale(offset, len) && (offset + len > edge || edge > u64::MAX)
    }

    /// Where the part of the data begins that is still wanted.
    pub open spec fn wanted_from(&self, offset: u64) -> u64 {
        if offset < self.receive_buffer.read_head {
            self.receive_buffer.read_head
        } else {
            offset
        }
    }

    /// How data at `offset` changes the stream: it is laid down from the read
    /// position on, and its new bytes are counted.
    pub open spec fn took_in(&self, after: &StreamState, offset: u64, data: Seq<u8>) -> bool {
        let from = self.wanted_from(offset);
        let end = offset + data.len();
        &&& *after == (StreamState {
            receive_buffer: after.receive_buffer,
            buffered_bytes: crate::congestion::sat_add(
                self.buffered_bytes,
                crate::stream_buffer::span(from as int, end).difference(
                    self.receive_buffer.received(),
                ).len() as usize,
            ),
            ..*self
        })
        &&& after.receive_buffer.read_head == self.receive_buffer.read_head
        &&& after.receive_buffer.write_head == if end > self.receive_buffer.write_head {
            end as u64
        } else {
            self.receive_buffer.write_head
        }
        &&& after.receive_buffer.capacity() == self.receive_buffer.capacity()
        &&& after.receive_buffer.received() == self.receive_buffer.received().union(
            crate::stream_buffer::span(from as int, end),
        )
        &&& after.receive_buffer.buffer@ == crate::stream_buffer::laid_down(
            self.receive_buffer.buffer@,
            from as int,
            data.skip(from - offset),
        )
    }

    /// Tells what would become of `len` bytes at `offset`.
    pub fn judge(&self, offset: u64, len: usize) -> (r: Intake)
        requires
            self.wf(),
        ensures
            r is Stale <==> self.is_stale(offset, len as nat),
            r is Beyond <==> self.is_beyond(offset, len as nat),
    {
        let head: u64 = self.receive_buffer.read_head;
        let len64: u64 = len as u64;
        if offset <= head && len64 <= head - offset {
            return Intake::Stale;
        }
        if len == 0 {
            return Intake::Taken;
        }
        let cap: u64 = self.receive_buffer.buffer.len() as u64;
        if head > u64::MAX - cap {
            return Intake::Beyond;
        }
        let edge: u64 = head + cap;
        if offset > edge || len64 > edge - offset {
            return Intake::Beyond;
        }
        Intake::Taken
    }

    /// Takes in data that arrived at `offset`. What lies below the read position
    /// is left out, since it was handed on before.
    pub fn take_in(&mut self, offset: u64, data: &[u8]) -> (r: Intake)
        requires
            old(self).wf(),
        ensures
            final(self).wf(),
            r is Stale <==> old(self).is_stale(offset, data@.len()),
            r is Beyond <==> old(self).is_beyond(offset, data@.len()),
            r is Stale || r is Beyond || data@.len() == 0 ==> *final(self) == *old(self),
            r is Taken && data@.len() > 0 ==> old(self).took_in(final(self), offset, data@),
    {
        match self.judge(offset, data.len()) {
            Intake::Taken => {},
            other => {
                return other;
            },
        }
        if data.len() == 0 {
            return Intake::Taken;
        }
        let head: u64 = self.receive_buffer.read_head;
        let skip: usize = if offset < head {
            (head - offset) as usize
        } else {
            0
        };
        let from: u64 = offset + skip as u64;
        let wanted = vstd::slice::slice_subrange(data, skip, data.len());
        assert(wanted@ =~= data@.skip(skip as int));
        match self.receive_buffer.write(from, wanted) {
            Some(added) => {
                self.buffered_bytes = self.buffered_bytes.saturating_add(added);
                Intake::Taken
            },
            None => Intake::Beyond,
        }
    }

    /// The window that a busy stream should have after `len` more bytes were
    /// handed on: twice as large, up to sixteen mebibytes, if half a window went
    /// through within two round trips.
    pub open spec fn wanted_window(&self, len: nat, now: u64, rtt: u64) -> Option<u64> {
        let doubled = if self.window_size >= MAX_STREAM_WINDOW / 2 {
            MAX_STREAM_WINDOW
        } else {
            (self.window_size * 2) as u64
        };
        if self.epoch_over(len) && crate::congestion::elapsed(now, self.last_window_update) < rtt
            * 2 && doubled > self.window_size {
            Some(doubled)
        } else {
            None
        }
    }

    /// Whether half a window was handed on since the last look, with `len` more bytes.
    pub open spec fn epoch_over(&self, len: nat) -> bool {
        crate::congestion::sat_add(self.bytes_read_in_epoch, len as usize) >= self.window_size / 2
    }

    /// How handing data on changes the stream.
    pub open spec fn handed_on(&self, after: &StreamState, chunk: Option<Bytes>, now: u64) -> bool {
        match chunk {
            None => {
                &&& !crate::stream_buffer::readable(
                    self.receive_buffer.received(),
                    self.receive_buffer.read_head as int,
                )
                &&& *after == (StreamState {
                    expected_rx_offset: self.receive_buffer.read_head,
                    ..*self
                })
            },
            Some(b) => {
                let data = crate::payload::contents(b);
                &&& crate::stream_buffer::run_ends_at(
                    self.receive_buffer.received(),
                    self.receive_buffer.read_head as int,
                    after.receive_buffer.read_head as int,
                )
                &&& data == crate::stream_buffer::ring_slice(
                    self.receive_buffer.buffer@,
                    self.receive_buffer.read_head as int,
                    after.receive_buffer.read_head as int,
                )
                &&& crate::stream_buffer::readable(
                    self.receive_buffer.received(),
                    self.receive_buffer.read_head as int,
                )
                &&& after.receive_buffer.received() == self.receive_buffer.received().filter(
                    |x: int| x >= after.receive_buffer.read_head,
                )
                &&& after.receive_buffer.buffer@ == self.receive_buffer.buffer@
                &&& after.receive_buffer.write_head == self.receive_buffer.write_head
                &&& *after == (StreamState {
                    receive_buffer: after.receive_buffer,
                    buffered_bytes: crate::congestion::sat_sub(
                        self.buffered_bytes,
                        data.len() as usize,
                    ),
                    expected_rx_offset: after.receive_buffer.read_head,
                    bytes_read_in_epoch: if self.epoch_over(data.len()) {
                        0
                    } else {
                        crate::congestion::sat_add(self.bytes_read_in_epoch, data.len() as usize)
                    },
                    last_window_update: if self.epoch_over(data.len()) {
                        now
                    } else {
                        self.last_window_update
                    },
                    ..*self
                })
            },
        }
    }

    /// Hands on what can be read, and says how large the window should be.
    pub fn hand_on(&mut self, now: u64, rtt: u64) -> (r: (Option<Bytes>, Option<u64>))
        requires
            old(self).wf(),
        ensures
            final(self).wf(),
            old(self).handed_on(final(self), r.0, now),
            r.1 == match r.0 {
                Some(b) => old(self).wanted_window(crate::payload::contents(b).len(), now, rtt),
                None => None,
            },
    {
        match self.receive_buffer.read_contiguous() {
            None => {
                self.expected_rx_offset = self.receive_buffer.read_head;
                (None, None)
            },
            Some(chunk) => {
                let len: usize = bytes_len(&chunk);
                self.buffered_bytes = self.buffered_bytes.saturating_sub(len);
                self.expected_rx_offset = self.receive_buffer.read_head;
                self.bytes_read_in_epoch = self.bytes_read_in_epoch.saturating_add(len);
                let mut wanted: Option<u64> = None;
                if self.bytes_read_in_epoch as u64 >= self.window_size / 2 {
                    let elapsed: u64 = now.saturating_sub(self.last_window_update);
                    if (elapsed as u128) < rtt as u128 * 2 {
                        let doubled: u64 = if self.window_size >= MAX_STREAM_WINDOW / 2 {
                            MAX_STREAM_WINDOW
                        } else {
                            self.window_size * 2
                        };
                        if doubled > self.window_size {
                            wanted = Some(doubled);
                        }
                    }
                    self.bytes_read_in_epoch = 0;
                    self.last_window_update = now;
                }
                (Some(chunk), wanted)
            },
        }
    }
}

/// A stream's receive window does not grow beyond this.
pub const MAX_STREAM_WINDOW: u64 = 16_777_216;

/// What became of data that arrived.
pub enum Intake {
    /// It was all handed on before.
    Stale,
    /// It reaches beyond the window.
    Beyond,
    /// It was taken in.
    Taken,
}

/// Whether a buffer holds, at every received offset from the read position on,
/// the byte that the peer sent there.
pub open spec fn faithful(buf: &StreamReceiveBuffer, sent: spec_fn(int) -> u8) -> bool {
    forall|x: int| #[trigger]
        buf.received().contains(x) && x >= buf.read_head ==> buf.buffer@[x % (
        buf.capacity() as int)] == sent(x)
}

/// A fresh stream holds nothing, so nothing false.
pub proof fn law_fresh_stream_is_faithful(
    stream: StreamState,
    stream_type: StreamType,
    rx: u64,
    tx: u64,
    now: u64,
    sent: spec_fn(int) -> u8,
)
    requires
        stream.is_fresh(stream_type, rx, tx, now),
    ensures
        faithful(&stream.receive_buffer, sent),
{
}

/// Whatever order data arrives in, and however often: as long as it is what the
/// peer sent at its offset, the buffer holds what the peer sent.
pub proof fn law_intake_is_faithful(
    before: StreamState,
    after: StreamState,
    offset: u64,
    data: Seq<u8>,
    sent: spec_fn(int) -> u8,
)
    requires
        before.wf(),
        faithful(&before.receive_buffer, sent),
        data.len() > 0,
        !before.is_stale(offset, data.len()),
        !before.is_beyond(offset, data.len()),
        before.took_in(&after, offset, data),
        forall|j: int| 0 <= j < data.len() ==> #[trigger] data[j] == sent(offset + j),
    ensures
        faithful(&after.receive_buffer, sent),
{
    let buf = before.receive_buffer;
    let from = before.wanted_from(offset) as int;
    let rest = data.skip(from - offset);
    let head = buf.read_head as int;
    let cap = buf.capacity() as int;
    assert forall|x: int| #[trigger]
        after.receive_buffer.received().contains(x) && x
            >= after.receive_buffer.read_head implies after.receive_buffer.buffer@[x % (
    after.receive_buffer.capacity() as int)] == sent(x) by {
        assert(buf.received().contains(x) || from <= x < offset + data.len());
        assert(x < head + cap);
        crate::stream_buffer::law_read_returns_what_was_written(
            buf.buffer@,
            from,
            rest,
            head,
            x + 1,
        );
        let slice = crate::stream_buffer::ring_slice(
            crate::stream_buffer::laid_down(buf.buffer@, from, rest),
            head,
            x + 1,
        );
        let old_slice = crate::stream_buffer::ring_slice(buf.buffer@, head, x + 1);
        assert(slice[x - head] == if from <= x < from + rest.len() {
            rest[x - from]
        } else {
            old_slice[x - head]
        });
        if from <= x < from + rest.len() {
            assert(rest[x - from] == data[x - offset]);
        }
    }
}

/// What is handed on is exactly what the peer sent from the read position on:
/// in order, without a gap and without a repetition. The next chunk starts where
/// this one ends.
pub proof fn law_delivery_is_faithful(
    before: StreamState,
    after: StreamState,
    chunk: Bytes,
    now: u64,
    sent: spec_fn(int) -> u8,
)
    requires
        before.wf(),
        faithful(&before.receive_buffer, sent),
        before.handed_on(&after, Some(chunk), now),
    ensures
        crate::payload::contents(chunk) == Seq::new(
            (after.receive_buffer.read_head - before.receive_buffer.read_head) as nat,
            |i: int| sent(before.receive_buffer.read_head + i),
        ),
        crate::payload::contents(chunk).len() > 0,
        after.expected_rx_offset == after.receive_buffer.read_head,
        faithful(&after.receive_buffer, sent),
{
    let head = before.receive_buffer.read_head as int;
    let want = Seq::new(
        (after.receive_buffer.read_head - before.receive_buffer.read_head) as nat,
        |i: int| sent(before.receive_buffer.read_head + i),
    );
    let got = crate::payload::contents(chunk);
    assert forall|i: int| 0 <= i < got.len() implies got[i] == want[i] by {
        assert(before.receive_buffer.received().contains(head + i));
    }
    assert(got =~= want);
    assert forall|x: int| #[trigger]
        after.receive_buffer.received().contains(x) && x
            >= after.receive_buffer.read_head implies after.receive_buffer.buffer@[x % (
    after.receive_buffer.capacity() as int)] == sent(x) by {
        assert(before.receive_buffer.received().contains(x));
    }
}

/// A larger window holds the same data.
pub proof fn law_resize_is_faithful(
    before: StreamReceiveBuffer,
    after: StreamReceiveBuffer,
    sent: spec_fn(int) -> u8,
)
    requires
        before.wf(),
        faithful(&before, sent),
        after.read_head == before.read_head,
        after.received_ranges == before.received_ranges,
        forall|x: int|
            before.read_head <= x < before.read_head + before.capacity()
                ==> #[trigger] after.buffer@[x % (after.capacity() as int)] == before.buffer@[x % (
            before.capacity() as int)],
    ensures
        faithful(&after, sent),
{
    assert forall|x: int| #[trigger]
        after.received().contains(x) && x >= after.read_head implies after.buffer@[x % (
    after.capacity() as int)] == sent(x) by {
        assert(before.received().contains(x));
    }
}

/// A new stream has sent and received nothing, may be sent on up to the peer's
/// window and takes in up to its own, which counts as announced.
pub proof fn law_new_streams_are_empty(
    s: StreamState,
    stream_type: StreamType,
    receive_window: u64,
    transmit_window: u64,
    now: u64,
)
    requires
        s.is_fresh(stream_type, receive_window, transmit_window, now),
    ensures
        s.expected_rx_offset == 0 && s.next_tx_offset == 0 && s.buffered_bytes == 0,
        s.receive_buffer.read_head == 0 && s.receive_buffer.write_head == 0,
        s.receive_buffer.buffer@.len() == receive_window && s.window_size == receive_window,
        s.last_sent_max_data == receive_window,
        s.tx_window == transmit_window,
        s.final_rx_offset is None && s.send_stopped_error is None,
        s.last_window_update == now && s.bytes_read_in_epoch == 0,
        s.stream_type == stream_type,
        forall|x: int| !#[trigger] s.receive_buffer.received().contains(x),
{
}

} // verus!
