//! Packet codec: encodes and decodes one input event to and from its compact
//! binary form.
//!
//! Layout: byte 0 is the tag (`0` pointer move, `1` key down, `2` key up).
//! A pointer move carries two 8-byte little-endian IEEE-754 bit patterns,
//! x then y; a key transition carries one code byte. The total length is
//! implied by the tag and is not stored separately.
//!
//! Pointer coordinates are held as the raw 64-bit patterns of their IEEE-754
//! values, so that encoding is exact and byte-for-byte deterministic;
//! converting between a native floating-point coordinate and its bit pattern
//! is the caller's concern.

use vstd::bytes::lemma_auto_spec_u64_to_from_le_bytes;
use vstd::bytes::spec_u64_from_le_bytes;
use vstd::bytes::spec_u64_to_le_bytes;
use vstd::bytes::u64_from_le_bytes;
use vstd::bytes::u64_to_le_bytes;
use vstd::prelude::*;
use vstd::slice::slice_index_get;
use vstd::slice::slice_subrange;

verus! {

/// Tag byte of a pointer-move packet.
pub const TAG_MOUSE_MOVE: u8 = 0;

/// Tag byte of a key-press packet.
pub const TAG_KEY_DOWN: u8 = 1;

/// Tag byte of a key-release packet.
pub const TAG_KEY_UP: u8 = 2;

/// One input event, the unit of the wire protocol.
#[derive(Clone, Copy, PartialEq, Eq, Structural, Debug)]
pub enum Packet {
    /// Pointer coordinates, each the raw bit pattern of an IEEE-754 value.
    MouseMove { x_bits: u64, y_bits: u64 },
    /// A key identifier pressed.
    KeyDown { code: u8 },
    /// A key identifier released.
    KeyUp { code: u8 },
}

/// Why a byte sequence is not a packet.
#[derive(Clone, Copy, PartialEq, Eq, Structural, Debug)]
pub enum DecodeError {
    /// The input ends before the length its tag implies.
    Truncated,
    /// The first byte is not a known tag.
    UnknownTag,
}

/// Whether a byte is one of the three packet tags.
pub open spec fn known_tag(tag: u8) -> bool {
    tag == TAG_MOUSE_MOVE || tag == TAG_KEY_DOWN || tag == TAG_KEY_UP
}

/// The total encoded length that a tag implies, header byte included.
pub open spec fn spec_implied_len(tag: u8) -> int
    recommends
        known_tag(tag),
{
    if tag == TAG_MOUSE_MOVE {
        17
    } else {
        2
    }
}

/// The unique encoding of a packet.
pub open spec fn spec_encode(p: Packet) -> Seq<u8> {
    match p {
        Packet::MouseMove { x_bits, y_bits } => seq![TAG_MOUSE_MOVE] + spec_u64_to_le_bytes(
            x_bits,
        ) + spec_u64_to_le_bytes(y_bits),
        Packet::KeyDown { code } => seq![TAG_KEY_DOWN, code],
        Packet::KeyUp { code } => seq![TAG_KEY_UP, code],
    }
}

/// What decoding a byte sequence yields: the packet whose encoding the
/// sequence begins with, or the reason there is none. Bytes beyond the
/// length the tag implies are ignored.
pub open spec fn spec_decode(s: Seq<u8>) -> Result<Packet, DecodeError> {
    if s.len() == 0 {
        Err(DecodeError::Truncated)
    } else if !known_tag(s[0]) {
        Err(DecodeError::UnknownTag)
    } else if s.len() < spec_implied_len(s[0]) {
        Err(DecodeError::Truncated)
    } else if s[0] == TAG_MOUSE_MOVE {
        Ok(
            Packet::MouseMove {
                x_bits: spec_u64_from_le_bytes(s.subrange(1, 9)),
                y_bits: spec_u64_from_le_bytes(s.subrange(9, 17)),
            },
        )
    } else if s[0] == TAG_KEY_DOWN {
        Ok(Packet::KeyDown { code: s[1] })
    } else {
        Ok(Packet::KeyUp { code: s[1] })
    }
}

impl Packet {
    /// Encodes the packet. Total: every packet has exactly one encoding and
    /// encoding never fails.
    pub fn to_bytes(&self) -> (r: Vec<u8>)
        ensures
            r@ == spec_encode(*self),
            r@.len() == spec_implied_len(r@[0]),
    {
        match self {
            Packet::MouseMove { x_bits, y_bits } => {
                let mut r: Vec<u8> = Vec::new();
                r.push(TAG_MOUSE_MOVE);
                let mut xb = u64_to_le_bytes(*x_bits);
                let mut yb = u64_to_le_bytes(*y_bits);
                r.append(&mut xb);
                r.append(&mut yb);
                proof {
                    assert(r@ =~= spec_encode(*self));
                }
                r
            },
            Packet::KeyDown { code } => {
                let mut r: Vec<u8> = Vec::new();
                r.push(TAG_KEY_DOWN);
                r.push(*code);
                proof {
                    assert(r@ =~= spec_encode(*self));
                }
                r
            },
            Packet::KeyUp { code } => {
                let mut r: Vec<u8> = Vec::new();
                r.push(TAG_KEY_UP);
                r.push(*code);
                proof {
                    assert(r@ =~= spec_encode(*self));
                }
                r
            },
        }
    }

    /// Decodes a byte sequence, rejecting truncated input and unknown tags
    /// rather than failing.
    pub fn from_bytes(buf: &[u8]) -> (r: Result<Packet, DecodeError>)
        ensures
            r == spec_decode(buf@),
    {
        if buf.len() == 0 {
            return Err(DecodeError::Truncated);
        }
        let tag = *slice_index_get(buf, 0);
        if tag == TAG_MOUSE_MOVE {
            if buf.len() < 17 {
                return Err(DecodeError::Truncated);
            }
            let x_bits = u64_from_le_bytes(slice_subrange(buf, 1, 9));
            let y_bits = u64_from_le_bytes(slice_subrange(buf, 9, 17));
            Ok(Packet::MouseMove { x_bits, y_bits })
        } else if tag == TAG_KEY_DOWN {
            if buf.len() < 2 {
                return Err(DecodeError::Truncated);
            }
            Ok(Packet::KeyDown { code: *slice_index_get(buf, 1) })
        } else if tag == TAG_KEY_UP {
            if buf.len() < 2 {
                return Err(DecodeError::Truncated);
            }
            Ok(Packet::KeyUp { code: *slice_index_get(buf, 1) })
        } else {
            Err(DecodeError::UnknownTag)
        }
    }
}

/// Round trip: decoding the encoding of any packet yields that packet.
pub proof fn lemma_round_trip(p: Packet)
    ensures
        spec_decode(spec_encode(p)) == Ok::<Packet, DecodeError>(p),
{
    let s = spec_encode(p);
    if let Packet::MouseMove { x_bits, y_bits } = p {
        lemma_auto_spec_u64_to_from_le_bytes();
        assert(s.subrange(1, 9) =~= spec_u64_to_le_bytes(x_bits));
        assert(s.subrange(9, 17) =~= spec_u64_to_le_bytes(y_bits));
    }
}

/// Robustness: any byte sequence shorter than the length its tag implies
/// (or empty) decodes to `Truncated`, never to a packet or a crash.
pub proof fn lemma_truncated_rejected(s: Seq<u8>)
    requires
        s.len() == 0 || (known_tag(s[0]) && s.len() < spec_implied_len(s[0])),
    ensures
        spec_decode(s) == Err::<Packet, DecodeError>(DecodeError::Truncated),
{
}

} // verus!
