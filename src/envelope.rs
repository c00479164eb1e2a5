//! The packet envelope: a length-delimited frame holding one ciphertext.
//!
//! Layout: the payload length as a 64-bit little-endian integer, then the
//! payload bytes. A payload holds at most `MAX_PAYLOAD` bytes, so only the two
//! low bytes of the length may be non-zero.
use vstd::prelude::*;

verus! {

/// Largest raw IP packet that a TUN endpoint reads or writes.
pub const MTU: usize = 1500;

/// Number of bytes in the length prefix of an envelope.
pub const HEADER_LEN: usize = 8;

/// Largest payload an envelope may carry.
pub const MAX_PAYLOAD: usize = 65535;

/// Why a byte sequence is not one well-formed envelope.
#[derive(Clone, Copy, Debug, PartialEq, Eq, Structural)]
pub enum FormatError {
    /// The bytes end before the header or the declared payload does.
    Truncated,
    /// The header declares a payload longer than `MAX_PAYLOAD`.
    Oversized,
    /// Bytes follow the declared payload.
    TrailingBytes,
}

/// What the start of a byte stream holds.
pub enum FrameStatus {
    /// Not yet a whole envelope: more bytes are needed.
    Incomplete,
    /// A header that declares a payload longer than `MAX_PAYLOAD`.
    Oversized,
    /// A whole envelope whose payload has the given length.
    Complete(nat),
}

/// The length prefix for a payload of `n` bytes (`n <= MAX_PAYLOAD`).
pub open spec fn header_of(n: nat) -> Seq<u8> {
    seq![(n % 256) as u8, (n / 256) as u8, 0u8, 0u8, 0u8, 0u8, 0u8, 0u8]
}

/// The envelope of payload `p`.
pub open spec fn encode_spec(p: Seq<u8>) -> Seq<u8> {
    header_of(p.len()) + p
}

/// The header at the start of `b` declares at most `MAX_PAYLOAD` bytes.
pub open spec fn header_in_range(b: Seq<u8>) -> bool {
    b[2] == 0 && b[3] == 0 && b[4] == 0 && b[5] == 0 && b[6] == 0 && b[7] == 0
}

/// The payload length read from the two low bytes of the header.
pub open spec fn declared_len(b: Seq<u8>) -> nat {
    (b[0] as nat) + 256 * (b[1] as nat)
}

/// Classifies the start of the stream `b`.
pub open spec fn frame_status(b: Seq<u8>) -> FrameStatus {
    if b.len() < HEADER_LEN {
        FrameStatus::Incomplete
    } else if !header_in_range(b) {
        FrameStatus::Oversized
    } else if b.len() < HEADER_LEN + declared_len(b) {
        FrameStatus::Incomplete
    } else {
        FrameStatus::Complete(declared_len(b))
    }
}

/// Decodes `b` taken as exactly one envelope.
pub open spec fn decode_spec(b: Seq<u8>) -> Result<Seq<u8>, FormatError> {
    match frame_status(b) {
        FrameStatus::Incomplete => Err(FormatError::Truncated),
        FrameStatus::Oversized => Err(FormatError::Oversized),
        FrameStatus::Complete(n) => if b.len() == HEADER_LEN + n {
            Ok(b.subrange(HEADER_LEN as int, b.len() as int))
        } else {
            Err(FormatError::TrailingBytes)
        },
    }
}

/// Copies `b[start..end]` into a new vector.
fn copy_range(b: &[u8], start: usize, end: usize) -> (r: Vec<u8>)
    requires
        start <= end <= b@.len(),
    ensures
        r@ == b@.subrange(start as int, end as int),
{
    let mut r: Vec<u8> = Vec::with_capacity(end - start);
    let mut i: usize = start;
    while i < end
        invariant
            start <= i <= end,
            end <= b@.len(),
            r@ == b@.subrange(start as int, i as int),
        decreases end - i,
    {
        r.push(b[i]);
        i = i + 1;
        assert(r@ =~= b@.subrange(start as int, i as int));
    }
    r
}

/// Frames `payload` as one envelope; a payload over `MAX_PAYLOAD` bytes is refused.
pub fn encode(payload: &[u8]) -> (r: Result<Vec<u8>, FormatError>)
    ensures
        payload@.len() <= MAX_PAYLOAD ==> (r matches Ok(v) && v@ == encode_spec(payload@)),
        payload@.len() > MAX_PAYLOAD ==> r == Err::<Vec<u8>, FormatError>(FormatError::Oversized),
{
    let n = payload.len();
    if n > MAX_PAYLOAD {
        return Err(FormatError::Oversized);
    }
    let mut v: Vec<u8> = Vec::with_capacity(HEADER_LEN + n);
    v.push((n % 256) as u8);
    v.push((n / 256) as u8);
    let mut k: usize = 0;
    while k < 6
        invariant
            k <= 6,
            v@.len() == 2 + k,
            v@[0] == (n % 256) as u8,
            v@[1] == (n / 256) as u8,
            forall|j: int| 2 <= j < 2 + k ==> v@[j] == 0u8,
        decreases 6 - k,
    {
        v.push(0u8);
        k = k + 1;
    }
    assert(v@ =~= header_of(n as nat));
    let mut i: usize = 0;
    while i < n
        invariant
            i <= n,
            n == payload@.len(),
            v@ == header_of(n as nat) + payload@.subrange(0, i as int),
        decreases n - i,
    {
        v.push(payload[i]);
        i = i + 1;
        assert(v@ =~= header_of(n as nat) + payload@.subrange(0, i as int));
    }
    assert(payload@.subrange(0, n as int) =~= payload@);
    Ok(v)
}

/// Classifies the start of `b`: the executable counterpart of `frame_status`.
pub fn frame_status_of(b: &[u8]) -> (r: Result<usize, FormatError>)
    ensures
        match frame_status(b@) {
            FrameStatus::Incomplete => r == Err::<usize, FormatError>(FormatError::Truncated),
            FrameStatus::Oversized => r == Err::<usize, FormatError>(FormatError::Oversized),
            FrameStatus::Complete(n) => r == Ok::<usize, FormatError>(n as usize) && n
                <= MAX_PAYLOAD,
        },
{
    if b.len() < HEADER_LEN {
        return Err(FormatError::Truncated);
    }
    if !(b[2] == 0 && b[3] == 0 && b[4] == 0 && b[5] == 0 && b[6] == 0 && b[7] == 0) {
        return Err(FormatError::Oversized);
    }
    let n: usize = (b[0] as usize) + 256 * (b[1] as usize);
    if b.len() - HEADER_LEN < n {
        return Err(FormatError::Truncated);
    }
    Ok(n)
}

/// Decodes `b` as exactly one envelope and returns its payload.
pub fn decode(b: &[u8]) -> (r: Result<Vec<u8>, FormatError>)
    ensures
        match r {
            Ok(v) => decode_spec(b@) == Ok::<Seq<u8>, FormatError>(v@),
            Err(e) => decode_spec(b@) == Err::<Seq<u8>, FormatError>(e),
        },
{
    match frame_status_of(b) {
        Err(e) => Err(e),
        Ok(n) => {
            if b.len() != HEADER_LEN + n {
                Err(FormatError::TrailingBytes)
            } else {
                Ok(copy_range(b, HEADER_LEN, b.len()))
            }
        },
    }
}

/// Reassembles envelopes from the bytes of a stream, whatever the sizes of
/// the reads that deliver them.
pub struct FrameReader {
    pending: Vec<u8>,
}

impl View for FrameReader {
    type V = Seq<u8>;

    /// The bytes received and not yet taken as an envelope.
    closed spec fn view(&self) -> Seq<u8> {
        self.pending@
    }
}

impl FrameReader {
    /// A reader with nothing pending.
    pub fn new() -> (r: FrameReader)
        ensures
            r@ == Seq::<u8>::empty(),
    {
        FrameReader { pending: Vec::new() }
    }

    /// Appends the bytes of one read.
    pub fn push(&mut self, data: &[u8])
        ensures
            final(self)@ == old(self)@ + data@,
    {
        self.pending.extend_from_slice(data);
        assert(self.pending@ =~= old(self)@ + data@);
    }

    /// Number of bytes pending.
    pub fn pending_len(&self) -> (r: usize)
        ensures
            r == self@.len(),
    {
        self.pending.len()
    }

    /// Takes the first envelope off the pending bytes and returns its payload;
    /// `Ok(None)` while it is not whole; `Err(Oversized)`, with nothing taken,
    /// where its header declares too long a payload.
    pub fn next_envelope(&mut self) -> (r: Result<Option<Vec<u8>>, FormatError>)
        ensures
            match frame_status(old(self)@) {
                FrameStatus::Incomplete => r == Ok::<Option<Vec<u8>>, FormatError>(None)
                    && final(self)@ == old(self)@,
                FrameStatus::Oversized => r == Err::<Option<Vec<u8>>, FormatError>(
                    FormatError::Oversized,
                ) && final(self)@ == old(self)@,
                FrameStatus::Complete(n) => (r matches Ok(Some(p)) && p@ == old(self)@.subrange(
                    HEADER_LEN as int,
                    HEADER_LEN + n,
                )) && final(self)@ == old(self)@.subrange(HEADER_LEN + n, old(self)@.len() as int),
            },
    {
        match frame_status_of(self.pending.as_slice()) {
            Err(FormatError::Oversized) => Err(FormatError::Oversized),
            Err(_) => Ok(None),
            Ok(n) => {
                let end = HEADER_LEN + n;
                let payload = copy_range(self.pending.as_slice(), HEADER_LEN, end);
                let rest = copy_range(self.pending.as_slice(), end, self.pending.len());
                self.pending = rest;
                Ok(Some(payload))
            },
        }
    }

    /// Ends the stream: bytes still pending are a truncated envelope.
    pub fn finish(&self) -> (r: Result<(), FormatError>)
        ensures
            r == (if self@.len() == 0 {
                Ok::<(), FormatError>(())
            } else {
                Err::<(), FormatError>(FormatError::Truncated)
            }),
    {
        if self.pending.len() == 0 {
            Ok(())
        } else {
            Err(FormatError::Truncated)
        }
    }
}

/// The header of an encoded payload reads back the payload's length.
proof fn lemma_header_reads_back(p: Seq<u8>, rest: Seq<u8>)
    requires
        p.len() <= MAX_PAYLOAD,
    ensures
        header_in_range(encode_spec(p) + rest),
        declared_len(encode_spec(p) + rest) == p.len(),
{
    let b = encode_spec(p) + rest;
    let n = p.len();
    assert(b[0] == (n % 256) as u8);
    assert(b[1] == (n / 256) as u8);
    assert((n % 256) + 256 * (n / 256) == n) by (nonlinear_arith);
    assert(n / 256 < 256) by (nonlinear_arith)
        requires n <= 65535;
}

/// Envelope round trip: decoding the envelope of a payload of at most
/// `MAX_PAYLOAD` bytes gives the payload back.
pub proof fn lemma_envelope_round_trip(p: Seq<u8>)
    requires
        p.len() <= MAX_PAYLOAD,
    ensures
        decode_spec(encode_spec(p)) == Ok::<Seq<u8>, FormatError>(p),
{
    let b = encode_spec(p);
    lemma_header_reads_back(p, Seq::empty());
    assert(b + Seq::empty() =~= b);
    assert(b.subrange(HEADER_LEN as int, b.len() as int) =~= p);
}

/// Envelopes are self-delimiting: whatever follows an envelope in a stream,
/// the start of the stream is recognised as exactly that envelope.
pub proof fn lemma_envelope_self_delimiting(p: Seq<u8>, rest: Seq<u8>)
    requires
        p.len() <= MAX_PAYLOAD,
    ensures
        frame_status(encode_spec(p) + rest) == FrameStatus::Complete(p.len()),
        (encode_spec(p) + rest).subrange(HEADER_LEN as int, HEADER_LEN + p.len()) == p,
        (encode_spec(p) + rest).subrange(HEADER_LEN + p.len(), (encode_spec(p) + rest).len() as int)
            == rest,
{
    let b = encode_spec(p) + rest;
    lemma_header_reads_back(p, rest);
    assert(b.subrange(HEADER_LEN as int, HEADER_LEN + p.len()) =~= p);
    assert(b.subrange(HEADER_LEN + p.len(), b.len() as int) =~= rest);
}

} // verus!
