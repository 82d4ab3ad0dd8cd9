//! Connections that repair losses from parity packets.
//!
//! Every four data packets are followed by one that holds their parity. If just
//! one of the four is missing, it is put together again from the others. The
//! functions decide; the caller decrypts, recovers, sends and reports back.

use crate::addr::PeerAddr;
use crate::config::MILLISECOND;
use crate::connection_state::ConnectionState;
use crate::crypto::{random_ratio, sha256, x25519};
use crate::cumulative::ZtConnection;
use crate::error::{CryptoFault, ZtError};
use crate::payload::bytes_clone;
use crate::ranges::keys_in_order;
use crate::wire::{copy_bytes, put_slice, same_bytes};
use bytes::Bytes;
use std::collections::BTreeMap;
use vstd::prelude::*;

verus! {

broadcast use {
    vstd::std_specs::btree::group_btree_axioms,
    vstd::std_specs::hash::group_hash_axioms,
};

/// How many data packets a parity packet covers, and how many are kept for it.
pub const SHARD_GROUP: usize = 4;

/// After so much idleness a connection's send buffers are emptied.
pub const BUFFER_CLEANUP_TIMEOUT: u64 = 60_000_000_000;

/// After so much idleness a connection is forgotten.
pub const SESSION_EXPIRY_TIMEOUT: u64 = 3_600_000_000_000;

/// The kinds of packets.
#[derive(Debug, Clone, Copy, PartialEq, Eq, Structural)]
pub enum PacketKind {
    Initial,
    Handshake,
    Retry,
    Data,
    Ack,
    Fec,
    MtuProbe,
    Close,
}

/// A packet's header.
pub struct Header {
    pub kind: PacketKind,
    pub is_long: bool,
    pub version: u32,
    pub dcid: Vec<u8>,
    pub scid: Vec<u8>,
    pub packet_number: u64,
    pub window_size: u32,
    pub stream_id: u32,
    pub offset: u64,
}

/// A connection that repairs losses.
pub struct ShardedConnection {
    pub core: ZtConnection,
    /// The data packets that a parity packet may refer to, still encrypted.
    pub received_shards: BTreeMap<u64, Bytes>,
    pub sent_shards: Vec<Bytes>,
}

/// What to do with a packet.
pub enum PacketStep {
    Ignore,
    /// Decrypt it and report the outcome.
    Open,
    /// Agree on keys with the peer that sent this one, and report it.
    Agree { peer_key: [u8; 32] },
    /// Send another first packet, with this header and body.
    AnswerRetry { header: Header, body: Vec<u8>, to: PeerAddr },
}

/// What follows from a packet.
pub enum FollowUp {
    Nothing,
    /// Acknowledge the packet; if it holds data, hand them on first.
    Deliver { packet_number: u64, data: Option<Vec<u8>> },
    /// Recover the packet `missing` from the others and the parity, decrypt it
    /// and report the outcome.
    Repair { missing: u64, shards: Vec<Bytes>, parity: Vec<u8> },
    /// Send the handshake and acknowledge the packet.
    Greet { packet_number: u64 },
}

/// What to do with a packet that belongs to no connection.
pub enum Greeting {
    Ignore,
    /// Accept the peer that sent this key.
    Accept { peer_key: [u8; 32] },
    /// Send the cookie back.
    Retry { header: Header, cookie: Vec<u8> },
}

/// The key at the start of a payload.
fn leading_key(payload: &[u8]) -> (r: [u8; 32])
    requires
        payload@.len() >= 32,
    ensures
        r@ == payload@.take(32),
{
    let mut key = [0u8; 32];
    let mut i: usize = 0;
    while i < 32
        invariant
            i <= 32,
            payload@.len() >= 32,
            forall|j: int| 0 <= j < i ==> key@[j] == payload@[j],
        decreases 32 - i,
    {
        key[i] = payload[i];
        i = i + 1;
    }
    assert(key@ =~= payload@.take(32));
    key
}

/// The secret that the holder of a lasting secret key shares with a peer. A peer
/// with a lasting key of its own comes to the same secret.
pub fn session_secret(secret: &[u8; 32], peer_key: &[u8; 32]) -> (r: [u8; 32])
    ensures
        r@ == crate::crypto::x25519_of(secret@, peer_key@),
        forall|other: [u8; 32]|
            peer_key@ == #[trigger] crate::crypto::x25519_public_of(other@) ==> r@
                == crate::crypto::x25519_of(other@, crate::crypto::x25519_public_of(secret@)),
{
    x25519(*secret, *peer_key)
}

/// Whether a packet is to be lost on purpose: in chaos mode one in five is.
pub fn drops_packet(chaos: bool) -> (r: bool)
    ensures
        crate::crypto::ratio_allows(losses(chaos), LOSSES_OUT_OF, r),
        !chaos ==> !r,
{
    let n: u32 = loss_ratio(chaos);
    n > 0 && random_ratio(n, LOSSES_OUT_OF)
}

/// The number of packets among which losses are counted.
pub const LOSSES_OUT_OF: u32 = 10;

/// How many packets in ten are lost on purpose.
pub open spec fn losses(chaos: bool) -> u32 {
    if chaos {
        2
    } else {
        0
    }
}

/// How many packets in ten are lost on purpose.
pub fn loss_ratio(chaos: bool) -> (r: u32)
    ensures
        r == losses(chaos),
{
    if chaos {
        2
    } else {
        0
    }
}

/// The lowest key of a map that has one.
pub open spec fn lowest_key(m: Map<u64, Bytes>) -> u64 {
    choose|k: u64| #[trigger]
        m.contains_key(k) && forall|j: u64| #[trigger] m.contains_key(j) ==> k <= j
}

/// The shards that are kept once `m` is what arrived: the lowest goes when there
/// are too many.
pub open spec fn trimmed(m: Map<u64, Bytes>) -> Map<u64, Bytes> {
    if m.dom().len() > SHARD_GROUP {
        m.remove(lowest_key(m))
    } else {
        m
    }
}

/// The packets that the parity packet `pn` covers.
pub open spec fn covered_by(pn: u64) -> Seq<u64> {
    Seq::new(
        4,
        |i: int|
            if pn >= 4 - i {
                (pn - (4 - i)) as u64
            } else {
                0
            },
    )
}

/// Those of the packets that are there, in order.
pub open spec fn present(m: Map<u64, Bytes>, pns: Seq<u64>) -> Seq<Seq<u8>>
    decreases pns.len(),
{
    if pns.len() == 0 {
        Seq::empty()
    } else if m.contains_key(pns.last()) {
        present(m, pns.drop_last()).push(crate::payload::contents(m[pns.last()]))
    } else {
        present(m, pns.drop_last())
    }
}

/// The last of the packets that is not there, if any.
pub open spec fn last_missing(m: Map<u64, Bytes>, pns: Seq<u64>) -> Option<u64>
    decreases pns.len(),
{
    if pns.len() == 0 {
        None
    } else if m.contains_key(pns.last()) {
        last_missing(m, pns.drop_last())
    } else {
        Some(pns.last())
    }
}

fn number_covered(pn: u64, i: usize) -> (r: u64)
    requires
        i < 4,
    ensures
        r == covered_by(pn)[i as int],
{
    pn.saturating_sub(4 - i as u64)
}

/// What was handed in, if there is anything in it.
pub open spec fn nonempty(data: Vec<u8>) -> Option<Vec<u8>> {
    if data@.len() == 0 {
        None
    } else {
        Some(data)
    }
}

impl ShardedConnection {
    /// The connection is sound, and not too many shards are kept.
    pub open spec fn wf(&self) -> bool {
        &&& self.core.wf()
        &&& self.core.cwnd > 0 || self.core.mtu > 0
        &&& self.received_shards@.dom().len() <= SHARD_GROUP
    }

    /// A connection for a peer that has proved its address: its keys are agreed
    /// on, and it is active at once.
    pub fn accepted(addr: PeerAddr, scid: Vec<u8>, peer_scid: Vec<u8>, now: u64) -> (r: Self)
        ensures
            r.wf(),
            r.received_shards@ == Map::<u64, Bytes>::empty(),
            r.sent_shards@ == Seq::<Bytes>::empty(),
            r.core.processed() == Set::<u64>::empty(),
            r.core.streams@ == Map::<u32, crate::cumulative::StreamState>::empty(),
            r.core.mtu_probes@ == Map::<u64, usize>::empty(),
            r.core.unacked_packets@ == Map::<u64, crate::cumulative::UnackedPacket>::empty(),
            r.core == (ZtConnection {
                addr,
                dcid: peer_scid,
                scid,
                state: ConnectionState::Active,
                next_packet_number: 0,
                last_activity: now,
                has_keys: true,
                streams: r.core.streams,
                mtu_probes: r.core.mtu_probes,
                unacked_packets: r.core.unacked_packets,
                rtt: (333 * MILLISECOND) as u64,
                rttvar: (166 * MILLISECOND) as u64,
                rtt_initialized: false,
                local_window: 1_048_576,
                remote_window: 1_048_576,
                cwnd: 12_000,
                ssthresh: 65_536,
                bytes_in_flight: 0,
                mtu: 1200,
                highest_processed_pn: None,
                bytes_received: 0,
                bytes_sent: 0,
                replay_bitmask: 0,
                current_key_epoch: 0,
            }),
    {
        let mut core = ZtConnection::new(addr, scid, peer_scid, now);
        let ghost fresh = core;
        core.has_keys = true;
        core.state = ConnectionState::Active;
        assert(core.processed() =~= fresh.processed());
        ShardedConnection { core, received_shards: BTreeMap::new(), sent_shards: Vec::new() }
    }

    /// What a packet of this kind calls for, if it is not a replay.
    pub open spec fn wants_opening(&self, kind: PacketKind) -> bool {
        self.core.has_keys && match kind {
            PacketKind::Data | PacketKind::Ack | PacketKind::Fec | PacketKind::MtuProbe =>
                self.core.state == ConnectionState::Active,
            PacketKind::Close => true,
            _ => false,
        }
    }

    /// A packet for this connection arrived. It counts as activity whatever it is.
    pub fn packet_arrived(
        &mut self,
        header: &Header,
        payload: &[u8],
        public_key: &[u8; 32],
        now: u64,
    ) -> (r: PacketStep)
        requires
            old(self).wf(),
        ensures
            final(self).wf(),
            ({
                let fresh = !old(self).core.refuses(header.packet_number);
                let handshaking = old(self).core.state == ConnectionState::Handshaking;
                let agrees = fresh && header.kind == PacketKind::Handshake && payload@.len() >= 32
                    && handshaking;
                let answers = fresh && header.kind == PacketKind::Retry && payload@.len() == 32
                    && handshaking;
                let next = old(self).core.next_packet_number;
                &&& *final(self) == (ShardedConnection {
                    core: ZtConnection {
                        last_activity: now,
                        next_packet_number: if answers && next < u64::MAX {
                            (next + 1) as u64
                        } else {
                            next
                        },
                        ..old(self).core
                    },
                    ..*old(self)
                })
                &&& r is Open <==> fresh && old(self).wants_opening(header.kind)
                &&& r is Agree <==> agrees
                &&& r is AnswerRetry <==> answers
                &&& agrees ==> r->peer_key@ == payload@.take(32)
                &&& answers ==> {
                    &&& r->to == old(self).core.addr
                    &&& r->body@ == public_key@ + payload@
                    &&& r->header.dcid@ == seq![0u8, 0, 0, 0, 0, 0, 0, 0]
                    &&& r->header.scid@ == old(self).core.scid@
                    &&& r->header == (Header {
                        kind: PacketKind::Initial,
                        is_long: true,
                        version: 1,
                        dcid: r->header.dcid,
                        scid: r->header.scid,
                        packet_number: if next < u64::MAX {
                            next
                        } else {
                            0
                        },
                        window_size: old(self).core.local_window,
                        stream_id: 0,
                        offset: 0,
                    })
                }
            }),
    {
        self.core.update_activity(now);
        assert(self.core.processed() =~= old(self).core.processed());
        if self.core.is_replay(header.packet_number) {
            return PacketStep::Ignore;
        }
        match header.kind {
            PacketKind::Data | PacketKind::Ack | PacketKind::Fec | PacketKind::MtuProbe => {
                if self.core.state == ConnectionState::Active && self.core.has_keys {
                    PacketStep::Open
                } else {
                    PacketStep::Ignore
                }
            },
            PacketKind::Close => {
                if self.core.has_keys {
                    PacketStep::Open
                } else {
                    PacketStep::Ignore
                }
            },
            PacketKind::Handshake => {
                if payload.len() >= 32 && self.core.state == ConnectionState::Handshaking {
                    PacketStep::Agree { peer_key: leading_key(payload) }
                } else {
                    PacketStep::Ignore
                }
            },
            PacketKind::Retry => {
                if payload.len() == 32 && self.core.state == ConnectionState::Handshaking {
                    let packet_number: u64 = match self.core.get_next_packet_number() {
                        Ok(n) => n,
                        Err(_) => 0,
                    };
                    let mut body = copy_bytes(public_key.as_slice());
                    put_slice(&mut body, payload);
                    let header = Header {
                        kind: PacketKind::Initial,
                        is_long: true,
                        version: 1,
                        dcid: vec![0u8, 0, 0, 0, 0, 0, 0, 0],
                        scid: copy_bytes(self.core.scid.as_slice()),
                        packet_number,
                        window_size: self.core.local_window,
                        stream_id: 0,
                        offset: 0,
                    };
                    assert(header.dcid@ =~= seq![0u8, 0, 0, 0, 0, 0, 0, 0]);
                    PacketStep::AnswerRetry { header, body, to: self.core.addr }
                } else {
                    PacketStep::Ignore
                }
            },
            PacketKind::Initial => PacketStep::Ignore,
        }
    }
}

impl ShardedConnection {
    fn keep_shard(&mut self, pn: u64, shard: &Bytes)
        requires
            old(self).wf(),
        ensures
            final(self).wf(),
            *final(self) == (ShardedConnection {
                received_shards: final(self).received_shards,
                ..*old(self)
            }),
            exists|kept: Bytes|
                crate::payload::contents(kept) == crate::payload::contents(*shard)
                    && final(self).received_shards@ == #[trigger] trimmed(
                    old(self).received_shards@.insert(pn, kept),
                ),
    {
        let kept = bytes_clone(shard);
        let ghost all = self.received_shards@.insert(pn, kept);
        self.received_shards.insert(pn, kept);
        assert(self.received_shards@ =~= all);
        if self.received_shards.len() > SHARD_GROUP {
            let keys = keys_in_order(&self.received_shards);
            proof {
                assert(all.contains_key(pn));
                assert(keys@.contains(pn));
            }
            let lowest: u64 = keys[0];
            proof {
                assert forall|j: u64| #[trigger] all.contains_key(j) implies lowest <= j by {
                    assert(keys@.contains(j));
                    let n = choose|n: int| 0 <= n < keys@.len() && keys@[n] == j;
                    assert(n == 0 || keys@[0] < keys@[n]);
                }
                assert(keys@.contains(lowest));
                assert(all.contains_key(lowest));
                assert(all.contains_key(lowest_key(all)));
                assert(lowest == lowest_key(all));
            }
            self.received_shards.remove(&lowest);
            assert(self.received_shards@ =~= all.remove(lowest));
        }
        assert(self.received_shards@ == trimmed(all));
    }

    fn collect_shards(&self, pn: u64) -> (r: (Vec<Bytes>, Option<u64>))
        ensures
            crate::cumulative::contents_of(r.0@) == present(
                self.received_shards@,
                covered_by(pn),
            ),
            r.1 == last_missing(self.received_shards@, covered_by(pn)),
    {
        let mut shards: Vec<Bytes> = Vec::new();
        let mut missing: Option<u64> = None;
        let ghost pns = covered_by(pn);
        let mut i: usize = 0;
        assert(pns.take(0) =~= Seq::<u64>::empty());
        assert(crate::cumulative::contents_of(shards@) =~= Seq::<Seq<u8>>::empty());
        while i < 4
            invariant
                i <= 4,
                pns == covered_by(pn),
                crate::cumulative::contents_of(shards@) == present(
                    self.received_shards@,
                    pns.take(i as int),
                ),
                missing == last_missing(self.received_shards@, pns.take(i as int)),
            decreases 4 - i,
        {
            let expected: u64 = number_covered(pn, i);
            let ghost before = crate::cumulative::contents_of(shards@);
            assert(pns.take(i + 1).drop_last() =~= pns.take(i as int));
            match self.received_shards.get(&expected) {
                Some(shard) => {
                    shards.push(bytes_clone(shard));
                    assert(crate::cumulative::contents_of(shards@) =~= before.push(
                        crate::payload::contents(*shard),
                    ));
                },
                None => {
                    missing = Some(expected);
                },
            }
            i = i + 1;
        }
        assert(pns.take(4) =~= pns);
        (shards, missing)
    }

    /// The connection after an authentic packet `pn` came from `addr`.
    pub open spec fn heard_from(&self, pn: u64, addr: PeerAddr, after: &ShardedConnection) -> bool {
        &&& after.core == (ZtConnection {
            addr,
            highest_processed_pn: after.core.highest_processed_pn,
            replay_bitmask: after.core.replay_bitmask,
            ..self.core
        })
        &&& after.core.wf()
        &&& after.core.highest_processed_pn == Some(
            crate::bitmap::raised(self.core.highest_processed_pn, pn),
        )
        &&& forall|x: u64| #[trigger]
            after.core.processed().contains(x) <==> (x == pn || self.core.processed().contains(x))
                && x + crate::cumulative::REPLAY_PACKETS > crate::bitmap::raised(
                self.core.highest_processed_pn,
                pn,
            )
    }

    fn hear(&mut self, pn: u64, addr: PeerAddr)
        requires
            old(self).wf(),
        ensures
            final(self).wf(),
            old(self).heard_from(pn, addr, final(self)),
            final(self).received_shards == old(self).received_shards,
            final(self).sent_shards == old(self).sent_shards,
    {
        self.core.addr = addr;
        assert(self.core.processed() =~= old(self).core.processed());
        self.core.mark_processed(pn);
    }

    /// What follows from a parity packet, given the shards that are there and
    /// the packets that were processed.
    pub open spec fn repairs(&self, pn: u64, parity: Vec<u8>, r: FollowUp) -> bool {
        let have = present(self.received_shards@, covered_by(pn));
        let missing = last_missing(self.received_shards@, covered_by(pn));
        if have.len() == 3 && missing is Some && !self.core.refuses(missing->0) {
            r matches FollowUp::Repair { missing: m, shards, parity: p } && m == missing->0
                && crate::cumulative::contents_of(shards@) == have && p == parity
        } else {
            r is Nothing
        }
    }

    /// What decrypting a packet leads to.
    pub open spec fn opened_by(
        &self,
        header: &Header,
        payload: &Bytes,
        plaintext: Option<Vec<u8>>,
        addr: PeerAddr,
        now: u64,
        after: &ShardedConnection,
        r: Result<FollowUp, ZtError>,
    ) -> bool {
        let pn = header.packet_number;
        match (header.kind, plaintext) {
            (PacketKind::Data, None) => *after == *self && r == Err::<FollowUp, ZtError>(
                ZtError::Crypto(CryptoFault::DecryptionFailed),
            ),
            (PacketKind::Data, Some(data)) => {
                &&& self.heard_from(pn, addr, after)
                &&& after.sent_shards == self.sent_shards
                &&& exists|kept: Bytes|
                    crate::payload::contents(kept) == crate::payload::contents(*payload)
                        && after.received_shards@ == #[trigger] trimmed(
                        self.received_shards@.insert(pn, kept),
                    )
                &&& r == Ok::<FollowUp, ZtError>(
                    FollowUp::Deliver { packet_number: pn, data: nonempty(data) },
                )
            },
            (PacketKind::Ack, Some(_)) => {
                &&& r == Ok::<FollowUp, ZtError>(FollowUp::Nothing)
                &&& after.received_shards == self.received_shards
                &&& after.sent_shards == self.sent_shards
                &&& (ZtConnection { addr, ..self.core }).acked_by(
                    pn,
                    header.window_size,
                    Seq::empty(),
                    now,
                    &after.core,
                )
            },
            (PacketKind::Fec, Some(parity)) => {
                &&& self.heard_from(pn, addr, after)
                &&& after.sent_shards == self.sent_shards
                &&& after.received_shards@ == Map::<u64, Bytes>::empty()
                &&& r is Ok
                &&& (ShardedConnection { core: after.core, ..*self }).repairs(pn, parity, r->Ok_0)
            },
            (PacketKind::Close, Some(_)) => {
                &&& r == Ok::<FollowUp, ZtError>(FollowUp::Nothing)
                &&& after.received_shards == self.received_shards
                &&& after.sent_shards == self.sent_shards
                &&& after.core.state == ConnectionState::Closed
                &&& self.heard_from(
                    pn,
                    addr,
                    &(ShardedConnection {
                        core: ZtConnection { state: self.core.state, ..after.core },
                        ..*after
                    }),
                )
            },
            (PacketKind::MtuProbe, Some(_)) => {
                &&& r == Ok::<FollowUp, ZtError>(
                    FollowUp::Deliver { packet_number: pn, data: None },
                )
                &&& after.received_shards == self.received_shards
                &&& after.sent_shards == self.sent_shards
                &&& self.heard_from(pn, addr, after)
            },
            _ => *after == *self && r == Ok::<FollowUp, ZtError>(FollowUp::Nothing),
        }
    }

    /// The packet was decrypted, or could not be. Only data that cannot be
    /// decrypted are an error; other packets are then ignored.
    pub fn packet_opened(
        &mut self,
        header: &Header,
        payload: &Bytes,
        plaintext: Option<Vec<u8>>,
        addr: PeerAddr,
        now: u64,
    ) -> (r: Result<FollowUp, ZtError>)
        requires
            old(self).wf(),
        ensures
            final(self).wf(),
            old(self).opened_by(header, payload, plaintext, addr, now, final(self), r),
    {
        let pn: u64 = header.packet_number;
        let data = match plaintext {
            Some(d) => d,
            None => {
                if header.kind == PacketKind::Data {
                    return Err(ZtError::Crypto(CryptoFault::DecryptionFailed));
                }
                return Ok(FollowUp::Nothing);
            },
        };
        match header.kind {
            PacketKind::Data => {
                self.hear(pn, addr);
                self.keep_shard(pn, payload);
                let data = if data.len() == 0 {
                    None
                } else {
                    Some(data)
                };
                Ok(FollowUp::Deliver { packet_number: pn, data })
            },
            PacketKind::Ack => {
                self.core.addr = addr;
                let none: [(u64, u64); 0] = [];
                self.core.handle_ack(pn, header.window_size, none.as_slice(), now);
                proof {
                    assert(none@ =~= Seq::<(u64, u64)>::empty());
                    assert(self.core.processed() =~= old(self).core.processed());
                }
                Ok(FollowUp::Nothing)
            },
            PacketKind::Fec => {
                self.hear(pn, addr);
                let (shards, missing) = self.collect_shards(pn);
                assert(crate::cumulative::contents_of(shards@).len() == shards@.len());
                self.received_shards = BTreeMap::new();
                if let Some(m) = missing {
                    if shards.len() == 3 && !self.core.is_replay(m) {
                        return Ok(FollowUp::Repair { missing: m, shards, parity: data });
                    }
                }
                Ok(FollowUp::Nothing)
            },
            PacketKind::Close => {
                self.hear(pn, addr);
                let ghost mid = *self;
                self.core.state = ConnectionState::Closed;
                proof {
                    let back = ZtConnection { state: old(self).core.state, ..self.core };
                    assert(back == mid.core);
                }
                Ok(FollowUp::Nothing)
            },
            PacketKind::MtuProbe => {
                self.hear(pn, addr);
                Ok(FollowUp::Deliver { packet_number: pn, data: None })
            },
            _ => Ok(FollowUp::Nothing),
        }
    }

    /// The header under which a missing packet was sent.
    pub fn repair_header(dcid: &[u8], missing: u64) -> (r: Header)
        ensures
            r.dcid@ == dcid@,
            r.scid@ == Seq::<u8>::empty(),
            r == (Header {
                kind: PacketKind::Data,
                is_long: false,
                version: 0,
                dcid: r.dcid,
                scid: r.scid,
                packet_number: missing,
                window_size: 0,
                stream_id: 0,
                offset: 0,
            }),
    {
        Header {
            kind: PacketKind::Data,
            is_long: false,
            version: 0,
            dcid: copy_bytes(dcid),
            scid: Vec::new(),
            packet_number: missing,
            window_size: 0,
            stream_id: 0,
            offset: 0,
        }
    }

    /// The missing packet was recovered and decrypted, or could not be.
    pub fn packet_repaired(&mut self, missing: u64, plaintext: Option<Vec<u8>>) -> (r: FollowUp)
        requires
            old(self).wf(),
        ensures
            final(self).wf(),
            final(self).received_shards == old(self).received_shards,
            final(self).sent_shards == old(self).sent_shards,
            match plaintext {
                None => *final(self) == *old(self) && r is Nothing,
                Some(data) => old(self).heard_from(missing, old(self).core.addr, final(self)) && r
                    == (FollowUp::Deliver { packet_number: missing, data: nonempty(data) }),
            },
    {
        match plaintext {
            None => FollowUp::Nothing,
            Some(data) => {
                let addr = self.core.addr;
                self.hear(missing, addr);
                let data = if data.len() == 0 {
                    None
                } else {
                    Some(data)
                };
                FollowUp::Deliver { packet_number: missing, data }
            },
        }
    }

    /// The keys are agreed on with the peer that answered the handshake.
    pub fn keys_agreed(&mut self, header: &Header, addr: PeerAddr) -> (r: FollowUp)
        requires
            old(self).wf(),
        ensures
            final(self).wf(),
            final(self).core.dcid@ == header.scid@,
            *final(self) == (ShardedConnection {
                core: ZtConnection {
                    dcid: final(self).core.dcid,
                    has_keys: true,
                    addr,
                    state: ConnectionState::Active,
                    ..old(self).core
                },
                ..*old(self)
            }),
            r == (FollowUp::Greet { packet_number: header.packet_number }),
    {
        self.core.dcid = copy_bytes(header.scid.as_slice());
        self.core.has_keys = true;
        self.core.addr = addr;
        self.core.state = ConnectionState::Active;
        FollowUp::Greet { packet_number: header.packet_number }
    }

    /// Whether the connection has been idle for so long that it is forgotten.
    pub fn session_expired(&self, now: u64) -> (r: bool)
        ensures
            r <==> crate::congestion::elapsed(now, self.core.last_activity)
                >= SESSION_EXPIRY_TIMEOUT,
            r <==> now - self.core.last_activity >= 3_600_000_000_000,
    {
        now.saturating_sub(self.core.last_activity) >= SESSION_EXPIRY_TIMEOUT
    }

    /// Empties the send buffers of a connection that has been idle for long.
    pub fn clean_up(&mut self, now: u64)
        requires
            old(self).wf(),
        ensures
            final(self).wf(),
            ({
                let idle = crate::congestion::elapsed(now, old(self).core.last_activity)
                    > BUFFER_CLEANUP_TIMEOUT;
                if idle {
                    &&& *final(self) == (ShardedConnection {
                        core: ZtConnection {
                            unacked_packets: final(self).core.unacked_packets,
                            ..old(self).core
                        },
                        sent_shards: final(self).sent_shards,
                        ..*old(self)
                    })
                    &&& final(self).core.unacked_packets@ == Map::<
                        u64,
                        crate::cumulative::UnackedPacket,
                    >::empty()
                    &&& final(self).sent_shards@ == Seq::<Bytes>::empty()
                } else {
                    *final(self) == *old(self)
                }
            }),
            now - old(self).core.last_activity <= 60_000_000_000 ==> *final(self) == *old(self),
            now - old(self).core.last_activity > 60_000_000_000 ==> final(self).sent_shards@.len()
                == 0,
            now - old(self).core.last_activity > 60_000_000_000 ==> final(self).core.unacked_packets@
                == Map::<u64, crate::cumulative::UnackedPacket>::empty(),
    {
        if now.saturating_sub(self.core.last_activity) > BUFFER_CLEANUP_TIMEOUT {
            self.core.unacked_packets = BTreeMap::new();
            self.sent_shards = Vec::new();
        }
    }
}

/// What the session cookie is computed from.
pub open spec fn session_claim(secret: Seq<u8>, addr_text: Seq<u8>, scid: Seq<u8>) -> Seq<u8> {
    secret + addr_text + scid
}

/// The cookie that proves a peer's address: it is bound to the address, in text
/// form, and to the peer's connection id.
pub fn session_cookie(secret: &[u8; 32], addr_text: &[u8], scid: &[u8]) -> (r: [u8; 32])
    ensures
        r@ == crate::crypto::sha256_of(session_claim(secret@, addr_text@, scid@)),
{
    let mut message = copy_bytes(secret.as_slice());
    put_slice(&mut message, addr_text);
    put_slice(&mut message, scid);
    sha256(message.as_slice())
}

/// What to do with a first packet, given the cookie that would prove its address.
pub open spec fn greeting_for(header: &Header, payload: Seq<u8>, cookie: Seq<u8>, r: Greeting) -> bool {
    if !header.is_long || header.kind != PacketKind::Initial || payload.len() < 32 {
        r is Ignore
    } else if payload.len() >= 64 && payload.subrange(32, 64) == cookie {
        r is Accept && r->peer_key@ == payload.take(32)
    } else {
        &&& r is Retry
        &&& r->cookie@ == cookie
        &&& r->header.dcid@ == header.scid@
        &&& r->header.scid@ == Seq::<u8>::empty()
        &&& r->header == (Header {
            kind: PacketKind::Retry,
            is_long: true,
            version: 1,
            dcid: r->header.dcid,
            scid: r->header.scid,
            packet_number: header.packet_number,
            window_size: 0,
            stream_id: 0,
            offset: 0,
        })
    }
}

/// Decides on a first packet by the cookie that would prove its address.
pub fn judge_cookie(header: &Header, payload: &[u8], cookie: &[u8; 32]) -> (r: Greeting)
    ensures
        greeting_for(header, payload@, cookie@, r),
{
    if !header.is_long || header.kind != PacketKind::Initial || payload.len() < 32 {
        return Greeting::Ignore;
    }
    if payload.len() >= 64 && same_bytes(
        vstd::slice::slice_subrange(payload, 32, 64),
        cookie.as_slice(),
    ) {
        return Greeting::Accept { peer_key: leading_key(payload) };
    }
    Greeting::Retry {
        header: Header {
            kind: PacketKind::Retry,
            is_long: true,
            version: 1,
            dcid: copy_bytes(header.scid.as_slice()),
            scid: Vec::new(),
            packet_number: header.packet_number,
            window_size: 0,
            stream_id: 0,
            offset: 0,
        },
        cookie: copy_bytes(cookie.as_slice()),
    }
}

/// Decides on a packet that belongs to no connection. A peer that sends its
/// cookie is accepted; one that sends none, or a wrong one, gets its cookie.
pub fn greet(header: &Header, payload: &[u8], secret: &[u8; 32], addr_text: &[u8]) -> (r: Greeting)
    ensures
        greeting_for(
            header,
            payload@,
            crate::crypto::sha256_of(session_claim(secret@, addr_text@, header.scid@)),
            r,
        ),
{
    let cookie = session_cookie(secret, addr_text, header.scid.as_slice());
    judge_cookie(header, payload, &cookie)
}

/// A peer that answers a retry with its key and the cookie it was given is
/// accepted, under that key.
pub proof fn law_retry_answer_is_accepted(
    first: Header,
    payload: Seq<u8>,
    cookie: Seq<u8>,
    asked: Greeting,
    second: Header,
    key: Seq<u8>,
    answered: Greeting,
)
    requires
        cookie.len() == 32,
        key.len() == 32,
        greeting_for(&first, payload, cookie, asked),
        asked is Retry,
        second.is_long,
        second.kind == PacketKind::Initial,
        greeting_for(&second, key + asked->cookie@, cookie, answered),
    ensures
        answered is Accept,
        answered->peer_key@ == key,
{
    let body = key + asked->cookie@;
    assert(body.subrange(32, 64) =~= cookie);
    assert(body.take(32) =~= key);
}

/// What is kept for repair. At most four shards are, and when there would be more
/// it is the one with the lowest number that goes; the others stay as they are.
pub proof fn law_the_lowest_shard_goes_first(m: Map<u64, Bytes>, lowest: u64)
    requires
        m.dom().finite(),
        m.contains_key(lowest),
        forall|k: u64| #[trigger] m.contains_key(k) ==> lowest <= k,
    ensures
        m.dom().len() <= 4 ==> trimmed(m) == m,
        m.dom().len() > 4 ==> trimmed(m) == m.remove(lowest),
        m.dom().len() > 4 ==> trimmed(m).dom().len() == m.dom().len() - 1,
{
    assert(m.contains_key(lowest_key(m)));
    assert(lowest_key(m) == lowest);
}

/// A parity packet covers the four packets before it.
pub proof fn law_parity_covers_the_four_before(pn: u64, i: int)
    requires
        pn >= 4,
        0 <= i < 4,
    ensures
        covered_by(pn).len() == 4,
        covered_by(pn)[i] + 4 == pn + i,
{
}

/// The shards that are there are found, in order, and the last one that is not.
pub proof fn law_shards_are_there_or_missing(m: Map<u64, Bytes>, pns: Seq<u64>, pn: u64)
    ensures
        present(m, Seq::empty()) == Seq::<Seq<u8>>::empty(),
        last_missing(m, Seq::empty()) is None,
        m.contains_key(pn) ==> present(m, pns.push(pn)) == present(m, pns).push(
            crate::payload::contents(m[pn]),
        ),
        m.contains_key(pn) ==> last_missing(m, pns.push(pn)) == last_missing(m, pns),
        !m.contains_key(pn) ==> present(m, pns.push(pn)) == present(m, pns),
        !m.contains_key(pn) ==> last_missing(m, pns.push(pn)) == Some(pn),
{
    assert(pns.push(pn).drop_last() =~= pns);
}

/// One lost packet is repaired. If exactly one of the four packets before a
/// parity packet is missing and was not processed, that one is recovered from the
/// other three and the parity.
pub proof fn law_one_missing_packet_is_repaired(
    conn: ShardedConnection,
    pn: u64,
    parity: Vec<u8>,
    r: FollowUp,
    missing: u64,
)
    requires
        conn.repairs(pn, parity, r),
        pn >= 4,
        pn - 4 <= missing < pn,
        !conn.received_shards@.contains_key(missing),
        forall|k: u64| pn - 4 <= k < pn && k != missing ==> #[trigger] conn.received_shards@.contains_key(k),
        !conn.core.refuses(missing),
    ensures
        r matches FollowUp::Repair { missing: m, shards, parity: p } && m == missing && shards@.len()
            == 3 && p == parity,
        forall|k: u64|
            pn - 4 <= k < missing ==> crate::payload::contents(r->shards@[k - (pn - 4)])
                == crate::payload::contents(#[trigger] conn.received_shards@[k]),
        forall|k: u64|
            missing < k < pn ==> crate::payload::contents(r->shards@[k - (pn - 3)])
                == crate::payload::contents(#[trigger] conn.received_shards@[k]),
{
    lemma_four_before(conn.received_shards@, pn, missing);
    assert(forall|i: int|
        0 <= i < 3 ==> crate::cumulative::contents_of(r->shards@)[i] == crate::payload::contents(
            #[trigger] r->shards@[i],
        ));
    assert(r is Repair);
    assert(crate::cumulative::contents_of(r->shards@).len() == r->shards@.len());
}

/// Nothing is repaired if no packet is missing, if two or more are, or if the
/// missing one was processed.
pub proof fn law_nothing_else_is_repaired(
    conn: ShardedConnection,
    pn: u64,
    parity: Vec<u8>,
    r: FollowUp,
)
    requires
        conn.repairs(pn, parity, r),
        pn >= 4,
    ensures
        r is Repair || r is Nothing,
        r matches FollowUp::Repair { missing, .. } ==> pn - 4 <= missing < pn
            && !conn.received_shards@.contains_key(missing) && !conn.core.refuses(missing),
        r matches FollowUp::Repair { missing, .. } ==> forall|k: u64|
            pn - 4 <= k < pn && k != missing ==> #[trigger] conn.received_shards@.contains_key(k),
{
    if r is Repair {
        lemma_three_of_four(conn.received_shards@, pn);
    }
}

proof fn lemma_covered_steps(m: Map<u64, Bytes>, pn: u64)
    requires
        pn >= 4,
    ensures
        ({
            let a = (pn - 4) as u64;
            let b = (pn - 3) as u64;
            let c = (pn - 2) as u64;
            let d = (pn - 1) as u64;
            let e = Seq::<u64>::empty();
            covered_by(pn) == e.push(a).push(b).push(c).push(d)
        }),
{
    let a = (pn - 4) as u64;
    let b = (pn - 3) as u64;
    let c = (pn - 2) as u64;
    let d = (pn - 1) as u64;
    assert(covered_by(pn) =~= Seq::<u64>::empty().push(a).push(b).push(c).push(d));
}

proof fn lemma_three_of_four(m: Map<u64, Bytes>, pn: u64)
    requires
        pn >= 4,
        present(m, covered_by(pn)).len() == 3,
        last_missing(m, covered_by(pn)) is Some,
    ensures
        ({
            let missing = last_missing(m, covered_by(pn))->0;
            &&& pn - 4 <= missing < pn
            &&& !m.contains_key(missing)
            &&& forall|k: u64| pn - 4 <= k < pn && k != missing ==> #[trigger] m.contains_key(k)
        }),
{
    let a = (pn - 4) as u64;
    let b = (pn - 3) as u64;
    let c = (pn - 2) as u64;
    let d = (pn - 1) as u64;
    let e = Seq::<u64>::empty();
    lemma_covered_steps(m, pn);
    law_shards_are_there_or_missing(m, e, a);
    law_shards_are_there_or_missing(m, e.push(a), b);
    law_shards_are_there_or_missing(m, e.push(a).push(b), c);
    law_shards_are_there_or_missing(m, e.push(a).push(b).push(c), d);
    assert forall|k: u64| pn - 4 <= k < pn && k != last_missing(
        m,
        covered_by(pn),
    )->0 implies #[trigger] m.contains_key(k) by {
        assert(k == a || k == b || k == c || k == d);
    }
}

proof fn lemma_four_before(m: Map<u64, Bytes>, pn: u64, missing: u64)
    requires
        pn >= 4,
        pn - 4 <= missing < pn,
        !m.contains_key(missing),
        forall|k: u64| pn - 4 <= k < pn && k != missing ==> #[trigger] m.contains_key(k),
    ensures
        present(m, covered_by(pn)).len() == 3,
        last_missing(m, covered_by(pn)) == Some(missing),
        forall|k: u64|
            pn - 4 <= k < missing ==> present(m, covered_by(pn))[k - (pn - 4)]
                == crate::payload::contents(#[trigger] m[k]),
        forall|k: u64|
            missing < k < pn ==> present(m, covered_by(pn))[k - (pn - 3)]
                == crate::payload::contents(#[trigger] m[k]),
{
    let a = (pn - 4) as u64;
    let b = (pn - 3) as u64;
    let c = (pn - 2) as u64;
    let d = (pn - 1) as u64;
    let e = Seq::<u64>::empty();
    lemma_covered_steps(m, pn);
    law_shards_are_there_or_missing(m, e, a);
    law_shards_are_there_or_missing(m, e.push(a), b);
    law_shards_are_there_or_missing(m, e.push(a).push(b), c);
    law_shards_are_there_or_missing(m, e.push(a).push(b).push(c), d);
    assert(m.contains_key(a) <==> a != missing);
    assert(m.contains_key(b) <==> b != missing);
    assert(m.contains_key(c) <==> c != missing);
    assert(m.contains_key(d) <==> d != missing);
    let have = present(m, covered_by(pn));
    assert forall|k: u64| pn - 4 <= k < missing implies have[k - (pn - 4)]
        == crate::payload::contents(#[trigger] m[k]) by {
        assert(k == a || k == b || k == c);
        assert(missing == b || missing == c || missing == d);
    }
    assert forall|k: u64| missing < k < pn implies have[k - (pn - 3)]
        == crate::payload::contents(#[trigger] m[k]) by {
        assert(k == b || k == c || k == d);
        assert(missing == a || missing == b || missing == c);
    }
}

/// What follows from an authentic packet. Whatever its kind, the peer is where it
/// came from; data is handed on and kept for repair, unless it is empty; a parity
/// packet clears what was kept; a close closes. Packets that cannot be decrypted
/// change nothing, and only for data that is an error.
pub proof fn law_packets_do_what_their_kind_says(
    before: ShardedConnection,
    header: Header,
    payload: Bytes,
    plaintext: Option<Vec<u8>>,
    addr: PeerAddr,
    now: u64,
    after: ShardedConnection,
    r: Result<FollowUp, ZtError>,
)
    requires
        before.opened_by(&header, &payload, plaintext, addr, now, &after, r),
        before.wf(),
        before.core.unacked_packets@.dom().finite(),
    ensures
        plaintext is None ==> after == before,
        plaintext is None && header.kind is Data ==> r == Err::<FollowUp, ZtError>(
            ZtError::Crypto(CryptoFault::DecryptionFailed),
        ),
        r is Err ==> plaintext is None && header.kind is Data,
        plaintext is None && !(header.kind is Data) ==> r == Ok::<FollowUp, ZtError>(
            FollowUp::Nothing,
        ),
        plaintext is Some && (header.kind is Data || header.kind is Ack || header.kind is Fec
            || header.kind is Close || header.kind is MtuProbe) ==> after.core.addr == addr,
        plaintext is Some && header.kind is Data ==> (r matches Ok(
            FollowUp::Deliver { packet_number, data },
        ) && packet_number == header.packet_number && (plaintext->0@.len() > 0 ==> data
            == plaintext) && (plaintext->0@.len() == 0 ==> data is None)),
        plaintext is Some && header.kind is Data && before.received_shards@.dom().len() < 4
            ==> after.received_shards@.contains_key(header.packet_number)
            && crate::payload::contents(after.received_shards@[header.packet_number])
            == crate::payload::contents(payload),
        plaintext is Some && header.kind is Fec ==> after.received_shards@.dom() == Set::<
            u64,
        >::empty(),
        plaintext is Some && header.kind is Close ==> after.core.state == ConnectionState::Closed,
        plaintext is Some && header.kind is MtuProbe ==> r == Ok::<FollowUp, ZtError>(
            FollowUp::Deliver { packet_number: header.packet_number, data: None },
        ),
        plaintext is Some && header.kind is Ack ==> after.core.remote_window == header.window_size
            && r == Ok::<FollowUp, ZtError>(FollowUp::Nothing) && (forall|k: u64| #[trigger]
            after.core.unacked_packets@.contains_key(k)
                <==> before.core.unacked_packets@.contains_key(k) && k > header.packet_number),
        plaintext is Some && (header.kind is Data || header.kind is Fec || header.kind is Close
            || header.kind is MtuProbe) ==> after.core.refuses(header.packet_number),
        header.kind is Initial || header.kind is Handshake || header.kind is Retry ==> after
            == before && r == Ok::<FollowUp, ZtError>(FollowUp::Nothing),
        after.sent_shards == before.sent_shards,
        plaintext is Some && (header.kind is Data || header.kind is Fec || header.kind is MtuProbe)
            ==> ({
            let h0 = before.core.highest_processed_pn;
            let h1 = after.core.highest_processed_pn;
            &&& h1 is Some && h1->0 >= header.packet_number && (h0 is Some ==> h1->0 >= h0->0) && (
            h1->0 == header.packet_number || h1 == h0)
            &&& forall|x: u64| #[trigger]
                after.core.processed().contains(x) <==> (x == header.packet_number
                    || before.core.processed().contains(x)) && x + 128 > h1->0
            &&& after.core.state == before.core.state && after.core.cwnd == before.core.cwnd
                && after.core.streams == before.core.streams
        }),
{
    if plaintext is Some && header.kind is Data && before.received_shards@.dom().len() < 4 {
        let pn = header.packet_number;
        let kept = choose|kept: Bytes|
            crate::payload::contents(kept) == crate::payload::contents(payload)
                && after.received_shards@ == #[trigger] trimmed(
                before.received_shards@.insert(pn, kept),
            );
        if before.received_shards@.dom().finite() {
            vstd::set_lib::lemma_len_union(before.received_shards@.dom(), set![pn]);
        }
        assert(before.received_shards@.insert(pn, kept).dom() =~= before.received_shards@.dom().insert(
            pn,
        ));
    }
    if plaintext is Some && header.kind is Ack {
        crate::cumulative::law_acknowledged_packets_are_done_with(
            crate::cumulative::ZtConnection { addr, ..before.core },
            header.packet_number,
            header.window_size,
            Seq::empty(),
            now,
            after.core,
        );
    }
    if plaintext is Some && (header.kind is Data || header.kind is Fec || header.kind is MtuProbe) {
        let pn = header.packet_number;
        assert(before.heard_from(pn, addr, &after));
        assert(after.core.processed().contains(pn) || pn + 128 <= after.core.highest_processed_pn->0);
    }
    if plaintext is Some && header.kind is Close {
        let pn = header.packet_number;
        let mid = ShardedConnection {
            core: crate::cumulative::ZtConnection { state: before.core.state, ..after.core },
            ..after
        };
        assert(before.heard_from(pn, addr, &mid));
        assert(mid.core.processed().contains(pn) || pn + 128 <= mid.core.highest_processed_pn->0);
        assert(mid.core.processed() =~= after.core.processed());
    }
}

/// Which packets are decrypted: those of an active connection that has keys, and
/// closes whenever there are keys; never those that make up a handshake.
pub proof fn law_keys_open_packets(conn: ShardedConnection, kind: PacketKind)
    ensures
        conn.wants_opening(kind) ==> conn.core.has_keys,
        conn.core.has_keys && kind is Close ==> conn.wants_opening(kind),
        conn.core.has_keys && conn.core.state is Active && (kind is Data || kind is Ack || kind is Fec
            || kind is MtuProbe) ==> conn.wants_opening(kind),
        !(conn.core.state is Active) && !(kind is Close) ==> !conn.wants_opening(kind),
        kind is Initial || kind is Handshake || kind is Retry ==> !conn.wants_opening(kind),
{
}

/// A first packet is answered by its cookie. It has to be a long Initial with a
/// key of 32 bytes; with the right cookie behind the key the peer is accepted
/// under that key, and with any other or none it is sent the cookie, to its own
/// connection id.
pub proof fn law_peers_prove_their_address(
    header: Header,
    payload: Seq<u8>,
    cookie: Seq<u8>,
    r: Greeting,
)
    requires
        greeting_for(&header, payload, cookie, r),
        cookie.len() == 32,
    ensures
        r is Ignore <==> !header.is_long || !(header.kind is Initial) || payload.len() < 32,
        r is Accept ==> payload.len() >= 64 && (forall|i: int|
            0 <= i < 32 ==> #[trigger] payload[32 + i] == cookie[i]) && r->peer_key@
            == payload.take(32),
        header.is_long && header.kind is Initial && payload.len() >= 64 && (forall|i: int|
            0 <= i < 32 ==> #[trigger] payload[32 + i] == cookie[i]) ==> r is Accept,
        r is Retry ==> r->cookie@ == cookie && r->header.kind is Retry && r->header.dcid@
            == header.scid@ && r->header.packet_number == header.packet_number
            && r->header.is_long && r->header.version == 1 && r->header.scid@.len() == 0,
{
    if payload.len() >= 64 {
        if forall|i: int| 0 <= i < 32 ==> #[trigger] payload[32 + i] == cookie[i] {
            assert forall|i: int| 0 <= i < 32 implies payload.subrange(32, 64)[i] == cookie[i] by {
                assert(payload[32 + i] == cookie[i]);
            }
            assert(payload.subrange(32, 64) =~= cookie);
        }
        if payload.subrange(32, 64) == cookie {
            assert forall|i: int| 0 <= i < 32 implies #[trigger] payload[32 + i] == cookie[i] by {
                assert(payload.subrange(32, 64)[i] == cookie[i]);
            }
        }
    }
}

/// A cookie is bound to the secret, the address and the connection id, in this
/// order; chaos loses two packets in ten, and no chaos none; empty data is none.
pub proof fn law_small_rules_of_sessions(
    secret: Seq<u8>,
    addr_text: Seq<u8>,
    scid: Seq<u8>,
    data: Vec<u8>,
)
    ensures
        session_claim(secret, addr_text, scid) == secret + addr_text + scid,
        losses(true) == 2,
        losses(false) == 0,
        data@.len() == 0 ==> nonempty(data) is None,
        data@.len() > 0 ==> nonempty(data) == Some(data),
{
}

} // verus!
