//! The fixed 32-byte raster header: encoding, decoding, and the proof that
//! the two are inverse.
//!
//! On the wire the header is big-endian and fixed width: version (1 byte),
//! width (4), height (4), bit depth (1), minimum physical value (4), physical
//! units per code step (4), then zero-filled reserved padding up to 32 bytes.
//! The two physical-value fields are IEEE-754 single-precision numbers; the
//! library carries them as their 32-bit patterns, so the codec never has to
//! do any floating-point work and the round trip is exact.

use vstd::prelude::*;

use crate::EtoError;
use crate::FORMAT_VERSION;
use crate::HEADER_SIZE;

verus! {

/// Number of zero bytes that pad the encoded header out to 32 bytes.
pub const RESERVED_LEN: usize = 14;

/// The decoded form of a raster file header.
#[derive(Clone, Copy, Debug, PartialEq, Eq, Structural)]
pub struct Header {
    /// Format version; only `FORMAT_VERSION` is ever written or accepted.
    pub version: u8,
    /// Raster width in pixels.
    pub width: u32,
    /// Raster height in pixels.
    pub height: u32,
    /// Bits per payload sample; 8 for every quantized raster.
    pub bit_depth: u8,
    /// IEEE-754 bit pattern of the physical value of quantized code 0
    /// (one tenth of the scan minimum).
    pub minimum_eto_bits: u32,
    /// IEEE-754 bit pattern of the physical units per quantized code step
    /// (one tenth of the quantization scale).
    pub scaling_factor_bits: u32,
}

/// The four big-endian bytes of a 32-bit value, most significant first.
pub open spec fn be32(v: u32) -> Seq<u8> {
    seq![(v >> 24) as u8, (v >> 16) as u8, (v >> 8) as u8, v as u8]
}

/// A 32-bit value reassembled from its four big-endian bytes at `at` in `s`.
pub open spec fn read_be32(s: Seq<u8>, at: int) -> u32 {
    (((s[at] as u32) << 24) | ((s[at + 1] as u32) << 16) | ((s[at + 2] as u32) << 8) | (s[at
        + 3] as u32))
}

/// The exact 32 bytes that encode `h`.
pub open spec fn spec_encode(h: Header) -> Seq<u8> {
    seq![h.version] + be32(h.width) + be32(h.height) + seq![h.bit_depth] + be32(h.minimum_eto_bits)
        + be32(h.scaling_factor_bits) + Seq::new(RESERVED_LEN as nat, |i: int| 0u8)
}

/// The header read back from 32 encoded bytes, reserved padding ignored.
pub open spec fn spec_decode(s: Seq<u8>) -> Header {
    Header {
        version: s[0],
        width: read_be32(s, 1),
        height: read_be32(s, 5),
        bit_depth: s[9],
        minimum_eto_bits: read_be32(s, 10),
        scaling_factor_bits: read_be32(s, 14),
    }
}

/// Reassembling the four big-endian bytes of `v` gives back `v`.
proof fn lemma_be32_round_trip(v: u32)
    ensures
        ((((v >> 24) as u8) as u32) << 24) | ((((v >> 16) as u8) as u32) << 16) | ((((v
            >> 8) as u8) as u32) << 8) | ((v as u8) as u32) == v,
{
    assert(((((v >> 24) as u8) as u32) << 24) | ((((v >> 16) as u8) as u32) << 16) | ((((v
        >> 8) as u8) as u32) << 8) | ((v as u8) as u32) == v) by (bit_vector);
}

/// Decoding an encoding gives back the encoded header: the round-trip law
/// for every header whose version the decoder recognizes.
pub proof fn lemma_header_round_trip(h: Header)
    requires
        h.version == FORMAT_VERSION,
    ensures
        spec_encode(h).len() == HEADER_SIZE,
        spec_decode(spec_encode(h)) == h,
{
    let s = spec_encode(h);
    assert(s.len() == 32);
    assert(s[0] == h.version);
    assert(s[9] == h.bit_depth);
    lemma_be32_round_trip(h.width);
    assert(s[1] == (h.width >> 24) as u8 && s[2] == (h.width >> 16) as u8 && s[3] == (h.width
        >> 8) as u8 && s[4] == h.width as u8);
    lemma_be32_round_trip(h.height);
    assert(s[5] == (h.height >> 24) as u8 && s[6] == (h.height >> 16) as u8 && s[7] == (h.height
        >> 8) as u8 && s[8] == h.height as u8);
    lemma_be32_round_trip(h.minimum_eto_bits);
    assert(s[10] == (h.minimum_eto_bits >> 24) as u8 && s[11] == (h.minimum_eto_bits >> 16) as u8
        && s[12] == (h.minimum_eto_bits >> 8) as u8 && s[13] == h.minimum_eto_bits as u8);
    lemma_be32_round_trip(h.scaling_factor_bits);
    assert(s[14] == (h.scaling_factor_bits >> 24) as u8 && s[15] == (h.scaling_factor_bits
        >> 16) as u8 && s[16] == (h.scaling_factor_bits >> 8) as u8 && s[17]
        == h.scaling_factor_bits as u8);
}

/// Appends the four big-endian bytes of `v` to `out`.
fn push_be32(out: &mut Vec<u8>, v: u32)
    ensures
        final(out)@ == old(out)@ + be32(v),
{
    out.push((v >> 24) as u8);
    out.push((v >> 16) as u8);
    out.push((v >> 8) as u8);
    out.push(v as u8);
    proof {
        assert(out@ =~= old(out)@ + be32(v));
    }
}

impl Header {
    /// Serializes the header into its fixed 32-byte wire form.
    pub fn encode(&self) -> (r: Vec<u8>)
        ensures
            r@ == spec_encode(*self),
            r@.len() == HEADER_SIZE,
    {
        let mut out: Vec<u8> = Vec::new();
        out.push(self.version);
        push_be32(&mut out, self.width);
        push_be32(&mut out, self.height);
        out.push(self.bit_depth);
        push_be32(&mut out, self.minimum_eto_bits);
        push_be32(&mut out, self.scaling_factor_bits);
        let mut i: usize = 0;
        while i < RESERVED_LEN
            invariant
                i <= RESERVED_LEN,
                out@ == seq![self.version] + be32(self.width) + be32(self.height) + seq![
                    self.bit_depth,
                ] + be32(self.minimum_eto_bits) + be32(self.scaling_factor_bits) + Seq::new(
                    i as nat,
                    |k: int| 0u8,
                ),
            decreases RESERVED_LEN - i,
        {
            out.push(0u8);
            proof {
                assert(Seq::new((i + 1) as nat, |k: int| 0u8) =~= Seq::new(i as nat, |k: int| 0u8)
                    + seq![0u8]);
                assert(out@ =~= seq![self.version] + be32(self.width) + be32(self.height) + seq![
                    self.bit_depth,
                ] + be32(self.minimum_eto_bits) + be32(self.scaling_factor_bits) + Seq::new(
                    (i + 1) as nat,
                    |k: int| 0u8,
                ));
            }
            i += 1;
        }
        proof {
            assert(out@ =~= spec_encode(*self));
        }
        out
    }

    /// Parses a 32-byte wire header. Fails with `FormatError` when fewer or
    /// more than 32 bytes are supplied or the version byte is unrecognized;
    /// succeeds on everything else.
    pub fn decode(bytes: &Vec<u8>) -> (r: Result<Header, EtoError>)
        ensures
            bytes@.len() != HEADER_SIZE ==> r == Err::<Header, EtoError>(EtoError::FormatError),
            bytes@.len() == HEADER_SIZE && bytes@[0] != FORMAT_VERSION ==> r == Err::<
                Header,
                EtoError,
            >(EtoError::FormatError),
            bytes@.len() == HEADER_SIZE && bytes@[0] == FORMAT_VERSION ==> r == Ok::<
                Header,
                EtoError,
            >(spec_decode(bytes@)),
    {
        if bytes.len() != HEADER_SIZE {
            return Err(EtoError::FormatError);
        }
        let version = bytes[0];
        if version != FORMAT_VERSION {
            return Err(EtoError::FormatError);
        }
        let h = Header {
            version,
            width: read_be32_exec(bytes, 1),
            height: read_be32_exec(bytes, 5),
            bit_depth: bytes[9],
            minimum_eto_bits: read_be32_exec(bytes, 10),
            scaling_factor_bits: read_be32_exec(bytes, 14),
        };
        Ok(h)
    }
}

/// Reads the 32-bit big-endian value at `at` in `bytes`.
fn read_be32_exec(bytes: &Vec<u8>, at: usize) -> (r: u32)
    requires
        at + 4 <= bytes@.len(),
    ensures
        r == read_be32(bytes@, at as int),
{
    // Binding the length shows the index arithmetic below that the whole
    // buffer fits in a machine word.
    let _n: usize = bytes.len();
    ((bytes[at] as u32) << 24) | ((bytes[at + 1] as u32) << 16) | ((bytes[at + 2] as u32) << 8) | (
    bytes[at + 3] as u32)
}

} // verus!
