//! The decisions of the two packet pumps. Each pump is a loop around
//! blocking I/O and calls into the encryption gateway; the loop hands each
//! outcome to a step function here as an event, and performs the action that
//! comes back.
use vstd::prelude::*;
use crate::envelope::{
    encode, encode_spec, frame_status, lemma_envelope_self_delimiting, FrameReader, FrameStatus,
    HEADER_LEN, MAX_PAYLOAD, MTU,
};

verus! {

/// An outcome reported to the inbound pump (TUN endpoint to peers).
pub enum InboundEvent {
    /// The TUN endpoint delivered one raw packet.
    TunPacket(Vec<u8>),
    /// Reading the TUN endpoint failed.
    TunFailed,
    /// The gateway encrypted the packet into this ciphertext.
    Encrypted(Vec<u8>),
    /// The gateway could not encrypt the packet.
    EncryptFailed,
}

/// What the inbound pump does next.
pub enum InboundAction {
    /// Read the next packet from the TUN endpoint.
    ReadTun,
    /// Hand this packet to the gateway for encryption.
    Encrypt(Vec<u8>),
    /// Send this envelope to each target peer.
    Send(Vec<u8>),
}

/// One step of the inbound pump. Device errors, packets over the MTU,
/// encryption failures and ciphertexts too long for an envelope drop the
/// packet and the pump reads on.
pub fn inbound_step(event: InboundEvent) -> (r: InboundAction)
    ensures
        match event {
            InboundEvent::TunPacket(p) => if p@.len() <= MTU {
                r matches InboundAction::Encrypt(q) && q@ == p@
            } else {
                r matches InboundAction::ReadTun
            },
            InboundEvent::Encrypted(c) => if c@.len() <= MAX_PAYLOAD {
                r matches InboundAction::Send(e) && e@ == encode_spec(c@)
            } else {
                r matches InboundAction::ReadTun
            },
            InboundEvent::TunFailed => r matches InboundAction::ReadTun,
            InboundEvent::EncryptFailed => r matches InboundAction::ReadTun,
        },
{
    match event {
        InboundEvent::TunPacket(p) => {
            if p.len() <= MTU {
                InboundAction::Encrypt(p)
            } else {
                InboundAction::ReadTun
            }
        },
        InboundEvent::Encrypted(c) => match encode(c.as_slice()) {
            Ok(e) => InboundAction::Send(e),
            Err(_) => InboundAction::ReadTun,
        },
        InboundEvent::TunFailed => InboundAction::ReadTun,
        InboundEvent::EncryptFailed => InboundAction::ReadTun,
    }
}

/// Why a peer connection ends.
#[derive(Clone, Copy, Debug, PartialEq, Eq, Structural)]
pub enum CloseReason {
    /// The peer closed the stream between envelopes.
    Orderly,
    /// The peer closed the stream in the middle of an envelope.
    Truncated,
    /// An envelope header declared too long a payload; the stream cannot be
    /// resynchronised.
    Malformed,
    /// Reading the socket failed.
    SocketError,
}

/// An outcome reported to the outbound pump (one peer to the TUN endpoint).
pub enum OutboundEvent {
    /// A socket read returned these bytes; none means the peer closed.
    Received(Vec<u8>),
    /// Reading the socket failed.
    Failed,
    /// The gateway decrypted the last ciphertext into this raw packet.
    Decrypted(Vec<u8>),
    /// The gateway could not decrypt the last ciphertext.
    DecryptFailed,
    /// The last packet was written to the TUN endpoint (or the write failed).
    Written,
}

/// What the outbound pump does next.
pub enum OutboundAction {
    /// Read more bytes from the peer.
    Read,
    /// Hand this ciphertext to the gateway for decryption.
    Decrypt(Vec<u8>),
    /// Write this raw packet to the TUN endpoint.
    WriteTun(Vec<u8>),
    /// End the connection: drop the peer from the registry and close it.
    Close(CloseReason),
}

/// The pump looks at the first envelope in `before`; `after` is what stays
/// pending and `a` what it does.
pub open spec fn polled(before: Seq<u8>, after: Seq<u8>, a: OutboundAction) -> bool {
    match frame_status(before) {
        FrameStatus::Incomplete => a matches OutboundAction::Read && after == before,
        FrameStatus::Oversized => a == OutboundAction::Close(CloseReason::Malformed) && after
            == before,
        FrameStatus::Complete(n) => (a matches OutboundAction::Decrypt(c) && c@ == before.subrange(
            HEADER_LEN as int,
            HEADER_LEN + n,
        )) && after == before.subrange(HEADER_LEN + n, before.len() as int),
    }
}

/// The state of the outbound pump of one peer: the bytes received and not
/// yet taken as an envelope.
pub struct OutboundPump {
    reader: FrameReader,
}

impl View for OutboundPump {
    type V = Seq<u8>;

    closed spec fn view(&self) -> Seq<u8> {
        self.reader@
    }
}

impl OutboundPump {
    /// A pump with nothing pending.
    pub fn new() -> (r: OutboundPump)
        ensures
            r@ == Seq::<u8>::empty(),
    {
        OutboundPump { reader: FrameReader::new() }
    }

    /// Takes the next whole envelope, if there is one.
    fn poll(&mut self) -> (r: OutboundAction)
        ensures
            polled(old(self)@, final(self)@, r),
    {
        match self.reader.next_envelope() {
            Ok(Some(c)) => OutboundAction::Decrypt(c),
            Ok(None) => OutboundAction::Read,
            Err(_) => OutboundAction::Close(CloseReason::Malformed),
        }
    }

    /// One step of the outbound pump. A ciphertext that does not decrypt is
    /// dropped and the pump goes on with the next envelope; an end of stream
    /// or a socket error ends the connection.
    pub fn step(&mut self, event: OutboundEvent) -> (r: OutboundAction)
        ensures
            match event {
                OutboundEvent::Received(d) => if d@.len() == 0 {
                    final(self)@ == old(self)@ && r == OutboundAction::Close(
                        if old(self)@.len() == 0 {
                            CloseReason::Orderly
                        } else {
                            CloseReason::Truncated
                        },
                    )
                } else {
                    polled(old(self)@ + d@, final(self)@, r)
                },
                OutboundEvent::Failed => final(self)@ == old(self)@ && r == OutboundAction::Close(
                    CloseReason::SocketError,
                ),
                OutboundEvent::Decrypted(p) => final(self)@ == old(self)@ && (r matches OutboundAction::WriteTun(
                    q,
                ) && q@ == p@),
                OutboundEvent::DecryptFailed => polled(old(self)@, final(self)@, r),
                OutboundEvent::Written => polled(old(self)@, final(self)@, r),
            },
    {
        match event {
            OutboundEvent::Received(d) => {
                if d.len() == 0 {
                    match self.reader.finish() {
                        Ok(()) => OutboundAction::Close(CloseReason::Orderly),
                        Err(_) => OutboundAction::Close(CloseReason::Truncated),
                    }
                } else {
                    self.reader.push(d.as_slice());
                    self.poll()
                }
            },
            OutboundEvent::Failed => OutboundAction::Close(CloseReason::SocketError),
            OutboundEvent::Decrypted(p) => OutboundAction::WriteTun(p),
            OutboundEvent::DecryptFailed => self.poll(),
            OutboundEvent::Written => self.poll(),
        }
    }
}

/// In-order delivery: when the bytes pending at a peer's outbound pump start
/// with the envelope of ciphertext `c`, the pump hands exactly `c` to the
/// gateway and keeps the bytes that follow for the next envelope.
pub proof fn lemma_pump_takes_first_envelope(
    c: Seq<u8>,
    rest: Seq<u8>,
    after: Seq<u8>,
    a: OutboundAction,
)
    requires
        c.len() <= MAX_PAYLOAD,
        polled(encode_spec(c) + rest, after, a),
    ensures
        a matches OutboundAction::Decrypt(d) && d@ == c,
        after == rest,
{
    lemma_envelope_self_delimiting(c, rest);
}

} // verus!
