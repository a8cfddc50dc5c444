use tokio_util::codec::{Decoder, Encoder, LengthDelimitedCodec};
use vstd::prelude::*;

verus! {

/// Largest payload of one unit on a tunnel connection (8 MiB).
pub const MAX_UNIT_LEN: usize = 8 * 1024 * 1024;

/// Why a unit could not be written or read.
#[derive(PartialEq, Eq, Structural, Debug, Clone, Copy)]
pub enum FramingError {
    /// The payload, or the length that a received prefix declares, exceeds
    /// the largest unit.
    TooLong,
}

/// The four bytes of `n`, most significant first.
pub open spec fn be32_bytes(n: u32) -> Seq<u8> {
    seq![(n >> 24u32) as u8, (n >> 16u32) as u8, (n >> 8u32) as u8, n as u8]
}

/// The number that the first four bytes of `b` spell, most significant first.
pub open spec fn be32_value(b: Seq<u8>) -> u32 {
    ((b[0] as u32) << 24u32) | ((b[1] as u32) << 16u32) | ((b[2] as u32) << 8u32) | (b[3] as u32)
}

/// One unit on the wire: the payload's length as a 4-byte big-endian prefix,
/// then the payload itself.
pub open spec fn unit_encoding(b: Seq<u8>) -> Seq<u8> {
    be32_bytes(b.len() as u32) + b
}

/// What reading one unit from the front of the buffered bytes gives: `Ok(None)`
/// while the prefix or the payload is incomplete, an error when the prefix
/// declares more than the largest unit, otherwise the payload.
pub open spec fn front_unit(buf: Seq<u8>) -> Result<Option<Seq<u8>>, FramingError> {
    if buf.len() < 4 {
        Ok(None)
    } else if be32_value(buf) > MAX_UNIT_LEN {
        Err(FramingError::TooLong)
    } else if buf.len() < 4 + be32_value(buf) {
        Ok(None)
    } else {
        Ok(Some(buf.subrange(4, 4 + be32_value(buf))))
    }
}

/// Relies on tokio_util's `LengthDelimitedCodec::new` and its `Encoder<&[u8]>`:
/// with the default settings it refuses a payload over 8 MiB and otherwise
/// writes the length as 4 big-endian bytes followed by the payload.
#[verifier::external_body]
fn codec_encode(payload: &[u8]) -> (r: Option<Vec<u8>>)
    ensures
        match r {
            Some(v) => payload@.len() <= MAX_UNIT_LEN && v@ == unit_encoding(payload@),
            None => payload@.len() > MAX_UNIT_LEN,
        },
{
    let mut dst = bytes::BytesMut::new();
    LengthDelimitedCodec::new().encode(payload, &mut dst).ok().map(|_| dst.to_vec())
}

/// Relies on tokio_util's `LengthDelimitedCodec::new` and its `Decoder`, on a
/// fresh codec: under 4 bytes it waits; a big-endian length prefix over
/// 8 MiB is an error; it waits until the whole payload is there, then
/// returns the payload that follows the prefix.
#[verifier::external_body]
fn codec_decode(buffered: &[u8]) -> (r: Result<Option<Vec<u8>>, FramingError>)
    ensures
        match r {
            Ok(Some(v)) => front_unit(buffered@) == Ok::<Option<Seq<u8>>, FramingError>(Some(v@)),
            Ok(None) => front_unit(buffered@) == Ok::<Option<Seq<u8>>, FramingError>(None),
            Err(e) => front_unit(buffered@) == Err::<Option<Seq<u8>>, FramingError>(e),
        },
{
    let mut src = bytes::BytesMut::from(buffered);
    match LengthDelimitedCodec::new().decode(&mut src) {
        Ok(unit) => Ok(unit.map(|b| b.to_vec())),
        Err(_) => Err(FramingError::TooLong),
    }
}

/// Writes `frame` as one unit of the tunnel stream.
pub fn encode_unit(frame: &[u8]) -> (r: Result<Vec<u8>, FramingError>)
    ensures
        match r {
            Ok(v) => frame@.len() <= MAX_UNIT_LEN && v@ == unit_encoding(frame@),
            Err(e) => frame@.len() > MAX_UNIT_LEN && e == FramingError::TooLong,
        },
{
    match codec_encode(frame) {
        Some(v) => Ok(v),
        None => Err(FramingError::TooLong),
    }
}

/// Reassembles units from a byte stream that arrives in arbitrary chunks.
pub struct UnitDecoder {
    buffered: Vec<u8>,
}

impl View for UnitDecoder {
    type V = Seq<u8>;

    closed spec fn view(&self) -> Seq<u8> {
        self.buffered@
    }
}

impl UnitDecoder {
    /// A decoder with nothing buffered.
    pub fn new() -> (r: UnitDecoder)
        ensures
            r@ == Seq::<u8>::empty(),
    {
        UnitDecoder { buffered: Vec::new() }
    }

    /// How many bytes are buffered.
    pub fn buffered_len(&self) -> (r: usize)
        ensures
            r == self@.len(),
    {
        self.buffered.len()
    }

    /// Appends bytes received from the stream.
    pub fn push(&mut self, chunk: &[u8])
        requires
            old(self)@.len() + chunk@.len() <= usize::MAX,
        ensures
            final(self)@ == old(self)@ + chunk@,
    {
        let mut i: usize = 0;
        while i < chunk.len()
            invariant
                i <= chunk@.len(),
                self@ == old(self)@ + chunk@.subrange(0, i as int),
            decreases chunk@.len() - i,
        {
            self.buffered.push(chunk[i]);
            i += 1;
            assert(chunk@.subrange(0, i as int) == chunk@.subrange(0, i - 1) + seq![chunk@[i - 1]]);
        }
        assert(chunk@.subrange(0, chunk@.len() as int) == chunk@);
    }

    /// Takes the next complete unit off the front of the buffered bytes, if
    /// one is there; leaves the bytes alone while it is incomplete or when
    /// its prefix is refused.
    pub fn next_unit(&mut self) -> (r: Result<Option<Vec<u8>>, FramingError>)
        ensures
            match r {
                Ok(Some(v)) => front_unit(old(self)@) == Ok::<Option<Seq<u8>>, FramingError>(
                    Some(v@),
                ) && final(self)@ == old(self)@.subrange(4 + v@.len() as int, old(self)@.len() as int),
                Ok(None) => front_unit(old(self)@) == Ok::<Option<Seq<u8>>, FramingError>(None)
                    && final(self)@ == old(self)@,
                Err(e) => front_unit(old(self)@) == Err::<Option<Seq<u8>>, FramingError>(e)
                    && final(self)@ == old(self)@,
            },
    {
        match codec_decode(self.buffered.as_slice()) {
            Ok(Some(unit)) => {
                let consumed: usize = 4 + unit.len();
                let rest = self.buffered.split_off(consumed);
                self.buffered = rest;
                Ok(Some(unit))
            },
            Ok(None) => Ok(None),
            Err(e) => Err(e),
        }
    }
}

/// The bytes of a sequence of chunks, in order.
pub open spec fn concat_chunks(chunks: Seq<Seq<u8>>) -> Seq<u8>
    decreases chunks.len(),
{
    if chunks.len() == 0 {
        Seq::empty()
    } else {
        concat_chunks(chunks.drop_last()) + chunks.last()
    }
}

proof fn lemma_be32_round_trip(n: u32)
    ensures
        be32_value(be32_bytes(n)) == n,
{
    let b = be32_bytes(n);
    assert(b[0] == (n >> 24u32) as u8 && b[1] == (n >> 16u32) as u8 && b[2] == (n >> 8u32) as u8
        && b[3] == n as u8);
    assert(((((n >> 24u32) as u8) as u32) << 24u32) | ((((n >> 16u32) as u8) as u32) << 16u32) | ((
    ((n >> 8u32) as u8) as u32) << 8u32) | ((n as u8) as u32) == n) by (bit_vector);
}

/// Encoding a payload of at most the largest unit and reading it back from
/// the stream gives the payload again, however the stream was cut into
/// chunks and whatever follows the unit; the bytes that follow stay
/// buffered. Before the last byte of the unit has arrived, nothing is read.
pub proof fn lemma_framing_round_trip(b: Seq<u8>, chunks: Seq<Seq<u8>>, rest: Seq<u8>)
    requires
        b.len() <= MAX_UNIT_LEN,
        concat_chunks(chunks) == unit_encoding(b),
    ensures
        front_unit(concat_chunks(chunks) + rest) == Ok::<Option<Seq<u8>>, FramingError>(Some(b)),
        (concat_chunks(chunks) + rest).subrange(4 + b.len() as int, (concat_chunks(chunks) + rest).len() as int)
            == rest,
        forall|k: int|
            0 <= k < unit_encoding(b).len() ==> front_unit(#[trigger] unit_encoding(b).subrange(0, k))
                == Ok::<Option<Seq<u8>>, FramingError>(None),
{
    let n = b.len() as u32;
    lemma_be32_round_trip(n);
    let e = unit_encoding(b);
    let s = e + rest;
    assert(s.subrange(0, 4) == be32_bytes(n));
    assert(be32_value(s) == be32_value(be32_bytes(n)));
    assert(be32_value(s) == b.len());
    assert(s.subrange(4, 4 + b.len() as int) =~= b);
    assert(s.subrange(4 + b.len() as int, s.len() as int) =~= rest);
    assert forall|k: int| 0 <= k < e.len() implies front_unit(#[trigger] e.subrange(0, k))
        == Ok::<Option<Seq<u8>>, FramingError>(None) by {
        let p = e.subrange(0, k);
        if p.len() >= 4 {
            assert(be32_value(p) == be32_value(be32_bytes(n)));
        }
    }
}

/// All frames fit in one unit.
pub open spec fn all_fit(frames: Seq<Seq<u8>>) -> bool {
    forall|i: int| 0 <= i < frames.len() ==> (#[trigger] frames[i]).len() <= MAX_UNIT_LEN
}

/// The stream that carries `frames`, one unit each, in order.
pub open spec fn stream_of(frames: Seq<Seq<u8>>) -> Seq<u8>
    decreases frames.len(),
{
    if frames.len() == 0 {
        Seq::empty()
    } else {
        unit_encoding(frames[0]) + stream_of(frames.drop_first())
    }
}

/// The first `n` units read one after another off the front of `buf`,
/// stopping early at the first that is incomplete or refused.
pub open spec fn read_units(buf: Seq<u8>, n: nat) -> Seq<Seq<u8>>
    decreases n,
{
    if n == 0 {
        Seq::empty()
    } else {
        match front_unit(buf) {
            Ok(Some(u)) => seq![u] + read_units(buf.subrange(4 + u.len() as int, buf.len() as int), (n - 1) as nat),
            _ => Seq::empty(),
        }
    }
}

/// Frames written to the stream in order `f1, ..., fn` are read back from it
/// as the same frames in the same order.
pub proof fn lemma_stream_order(frames: Seq<Seq<u8>>)
    requires
        all_fit(frames),
    ensures
        read_units(stream_of(frames), frames.len()) == frames,
    decreases frames.len(),
{
    if frames.len() == 0 {
        assert(read_units(stream_of(frames), 0) =~= frames);
    } else {
        let f = frames[0];
        let tail = frames.drop_first();
        assert(all_fit(tail)) by {
            assert forall|i: int| 0 <= i < tail.len() implies (#[trigger] tail[i]).len() <= MAX_UNIT_LEN by {
                assert(tail[i] == frames[i + 1]);
            }
        }
        assert(f.len() <= MAX_UNIT_LEN);
        let chunks = seq![unit_encoding(f)];
        assert(concat_chunks(chunks.drop_last()) == Seq::<u8>::empty());
        assert(concat_chunks(chunks) =~= unit_encoding(f));
        lemma_framing_round_trip(f, chunks, stream_of(tail));
        lemma_stream_order(tail);
        let s = stream_of(frames);
        assert(s == unit_encoding(f) + stream_of(tail));
        assert(read_units(s, frames.len()) == seq![f] + read_units(stream_of(tail), tail.len()));
        assert(read_units(s, frames.len()) =~= frames);
    }
}

} // verus!
