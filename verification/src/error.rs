//! What can go wrong.

use vstd::prelude::*;

verus! {

/// What is wrong with a packet.
#[derive(Debug, Clone, Copy, PartialEq, Eq, Structural)]
pub enum PacketFault {
    MalformedHeaderOffset,
    HeaderTruncated,
    InvalidTagSize,
    UnsupportedVersion,
    InvalidStreamParity,
    InvalidStreamDirection,
    ReceiveWindowExceeded,
    ReceiveOnlyStream,
    DatagramTooLarge { limit: usize },
    NoHandshakeFrame,
    DuplicateTransportParameters,
    NoTransportParameters,
}

/// What is wrong with a handshake.
#[derive(Debug, Clone, Copy, PartialEq, Eq, Structural)]
pub enum CryptoFault {
    NoHandshake,
    AlpnMismatch,
    InvalidTranscriptHash,
    InvalidPublicKey,
    InvalidSignature,
    /// The server's key, as the client sees it.
    InvalidEdPk,
    /// The server's signature, as the client sees it.
    InvalidSig,
    SecretConsumed,
    DecryptionFailed,
}

/// What stands in the way of passing data on.
#[derive(Debug, Clone, Copy, PartialEq, Eq, Structural)]
pub enum IoFault {
    /// Nobody takes new streams.
    ApplicationGone,
    /// There is no room to send now.
    WouldBlock,
}

/// The errors of the transport.
#[derive(Debug, Clone, Copy, PartialEq, Eq, Structural)]
pub enum ZtError {
    PacketNumberOverflow,
    Unauthorized,
    InvalidPacket(PacketFault),
    Crypto(CryptoFault),
    FlowControlBlocked,
    CongestionWindowFull,
    ActorFailed,
    Timeout,
    TooManyStreams { limit: usize },
    ConnectionIdExhausted,
    Io(IoFault),
}

/// The decimal digit `d`.
pub open spec fn digit(d: nat) -> char {
    if d == 0 {
        '0'
    } else if d == 1 {
        '1'
    } else if d == 2 {
        '2'
    } else if d == 3 {
        '3'
    } else if d == 4 {
        '4'
    } else if d == 5 {
        '5'
    } else if d == 6 {
        '6'
    } else if d == 7 {
        '7'
    } else if d == 8 {
        '8'
    } else {
        '9'
    }
}

/// A number in decimal digits.
pub open spec fn decimal(n: nat) -> Seq<char>
    decreases n,
{
    if n < 10 {
        seq![digit(n)]
    } else {
        decimal(n / 10).push(digit(n % 10))
    }
}

fn digit_text(d: usize) -> (r: &'static str)
    requires
        d < 10,
    ensures
        r@ == seq![digit(d as nat)],
{
    proof {
        reveal_strlit("0");
        reveal_strlit("1");
        reveal_strlit("2");
        reveal_strlit("3");
        reveal_strlit("4");
        reveal_strlit("5");
        reveal_strlit("6");
        reveal_strlit("7");
        reveal_strlit("8");
        reveal_strlit("9");
    }
    let r = match d {
        0 => "0",
        1 => "1",
        2 => "2",
        3 => "3",
        4 => "4",
        5 => "5",
        6 => "6",
        7 => "7",
        8 => "8",
        _ => "9",
    };
    assert(r@ =~= seq![digit(d as nat)]);
    r
}

fn push_decimal(out: &mut String, n: usize)
    ensures
        final(out)@ == old(out)@ + decimal(n as nat),
    decreases n,
{
    if n >= 10 {
        push_decimal(out, n / 10);
    }
    out.append(digit_text(n % 10));
    assert(out@ =~= old(out)@ + decimal(n as nat));
}

impl PacketFault {
    /// The fault in words.
    pub open spec fn words(&self) -> Seq<char> {
        match self {
            PacketFault::MalformedHeaderOffset => "Malformed header offset"@,
            PacketFault::HeaderTruncated => "Header truncated"@,
            PacketFault::InvalidTagSize => "Invalid tag size"@,
            PacketFault::UnsupportedVersion => "Unsupported version"@,
            PacketFault::InvalidStreamParity => "Invalid stream id parity"@,
            PacketFault::InvalidStreamDirection => "Invalid stream direction"@,
            PacketFault::ReceiveWindowExceeded => "Stream receive window exceeded"@,
            PacketFault::ReceiveOnlyStream => "receive-only streams are created by the peer"@,
            PacketFault::DatagramTooLarge { limit } =>
                "Datagram payload exceeds current path limit ("@ + decimal(limit as nat)
                    + " bytes)"@,
            PacketFault::NoHandshakeFrame => "No handshake frame in Initial"@,
            PacketFault::DuplicateTransportParameters => "duplicate transport parameters"@,
            PacketFault::NoTransportParameters => "No transport parameters in Handshake"@,
        }
    }

    /// The fault in words.
    pub fn text(&self) -> (r: String)
        ensures
            r@ == self.words(),
    {
        match self {
            PacketFault::MalformedHeaderOffset => "Malformed header offset".to_owned(),
            PacketFault::HeaderTruncated => "Header truncated".to_owned(),
            PacketFault::InvalidTagSize => "Invalid tag size".to_owned(),
            PacketFault::UnsupportedVersion => "Unsupported version".to_owned(),
            PacketFault::InvalidStreamParity => "Invalid stream id parity".to_owned(),
            PacketFault::InvalidStreamDirection => "Invalid stream direction".to_owned(),
            PacketFault::ReceiveWindowExceeded => "Stream receive window exceeded".to_owned(),
            PacketFault::ReceiveOnlyStream => "receive-only streams are created by the peer".to_owned(),
            PacketFault::DatagramTooLarge { limit } => {
                let mut out = "Datagram payload exceeds current path limit (".to_owned();
                push_decimal(&mut out, *limit);
                out.append(" bytes)");
                out
            },
            PacketFault::NoHandshakeFrame => "No handshake frame in Initial".to_owned(),
            PacketFault::DuplicateTransportParameters => "duplicate transport parameters".to_owned(),
            PacketFault::NoTransportParameters => "No transport parameters in Handshake".to_owned(),
        }
    }
}

impl IoFault {
    /// The fault in words.
    pub fn text(&self) -> (r: &'static str)
        ensures
            r@ == match self {
                IoFault::ApplicationGone => "Application dropped connection handle"@,
                IoFault::WouldBlock => "Window or CWND full"@,
            },
    {
        match self {
            IoFault::ApplicationGone => "Application dropped connection handle",
            IoFault::WouldBlock => "Window or CWND full",
        }
    }
}

impl CryptoFault {
    /// The fault in words.
    pub fn text(&self) -> (r: &'static str)
        ensures
            r@ == match self {
                CryptoFault::NoHandshake => "No handshake"@,
                CryptoFault::AlpnMismatch => "ALPN negotiation failed"@,
                CryptoFault::InvalidTranscriptHash => "Invalid Transcript Hash"@,
                CryptoFault::InvalidPublicKey => "Invalid Ed25519 Public Key"@,
                CryptoFault::InvalidSignature => "Invalid Handshake Signature"@,
                CryptoFault::InvalidEdPk => "Invalid EdPK"@,
                CryptoFault::InvalidSig => "Invalid Sig"@,
                CryptoFault::SecretConsumed => "Ephemeral secret already consumed"@,
                CryptoFault::DecryptionFailed => "Decryption failed"@,
            },
    {
        match self {
            CryptoFault::NoHandshake => "No handshake",
            CryptoFault::AlpnMismatch => "ALPN negotiation failed",
            CryptoFault::InvalidTranscriptHash => "Invalid Transcript Hash",
            CryptoFault::InvalidPublicKey => "Invalid Ed25519 Public Key",
            CryptoFault::InvalidSignature => "Invalid Handshake Signature",
            CryptoFault::InvalidEdPk => "Invalid EdPK",
            CryptoFault::InvalidSig => "Invalid Sig",
            CryptoFault::SecretConsumed => "Ephemeral secret already consumed",
            CryptoFault::DecryptionFailed => "Decryption failed",
        }
    }
}

/// Decimal digits spell their number: the last one is the remainder by ten, the
/// ones before it spell the rest, and there is no leading zero.
pub proof fn law_digits_spell_the_number(n: nat)
    ensures
        decimal(n).len() > 0,
        decimal(n).last() as int == '0' as int + n % 10,
        n < 10 ==> decimal(n).len() == 1,
        n >= 10 ==> decimal(n).drop_last() == decimal(n / 10),
        n > 0 ==> decimal(n)[0] != '0',
    decreases n,
{
    if n >= 10 {
        law_digits_spell_the_number(n / 10);
        assert(decimal(n).drop_last() =~= decimal(n / 10));
    }
}

/// Every fault of a packet reads differently from every other.
pub proof fn law_faults_read_differently(a: PacketFault, b: PacketFault)
    requires
        !(a is DatagramTooLarge),
        !(b is DatagramTooLarge),
        a != b,
    ensures
        a.words() != b.words(),
{
    reveal_strlit("Malformed header offset");
    reveal_strlit("Header truncated");
    reveal_strlit("Invalid tag size");
    reveal_strlit("Unsupported version");
    reveal_strlit("Invalid stream id parity");
    reveal_strlit("Invalid stream direction");
    reveal_strlit("Stream receive window exceeded");
    reveal_strlit("receive-only streams are created by the peer");
    reveal_strlit("No handshake frame in Initial");
    reveal_strlit("duplicate transport parameters");
    reveal_strlit("No transport parameters in Handshake");
    assert(a.words().len() != b.words().len() || a.words()[0] != b.words()[0] || a.words()[15]
        != b.words()[15]);
}

} // verus!
