use vstd::prelude::*;

verus! {

/// The largest payload a frame may carry, in bytes.
pub const MAX_FRAME_LEN: usize = 1_048_576;

/// The four-byte big-endian encoding of `n`.
pub open spec fn be32(n: nat) -> Seq<u8> {
    seq![
        ((n / 16777216) % 256) as u8,
        ((n / 65536) % 256) as u8,
        ((n / 256) % 256) as u8,
        (n % 256) as u8,
    ]
}

/// The number that four big-endian bytes denote.
pub open spec fn be32_value(bytes: Seq<u8>) -> nat {
    (bytes[0] as nat) * 16777216 + (bytes[1] as nat) * 65536 + (bytes[2] as nat) * 256
        + (bytes[3] as nat)
}

/// The header of a frame for `payload`: its length as four big-endian
/// bytes, or `None` when the payload exceeds `MAX_FRAME_LEN` and must be
/// rejected before anything is written.
pub fn frame_header(payload: &[u8]) -> (header: Option<[u8; 4]>)
    ensures
        match header {
            None => payload@.len() > MAX_FRAME_LEN,
            Some(bytes) => payload@.len() <= MAX_FRAME_LEN && bytes@ == be32(payload@.len()),
        },
{
    let len = payload.len();
    if len > MAX_FRAME_LEN {
        return None;
    }
    let n = len as u32;
    let bytes: [u8; 4] = [
        ((n / 16777216) % 256) as u8,
        ((n / 65536) % 256) as u8,
        ((n / 256) % 256) as u8,
        (n % 256) as u8,
    ];
    assert(bytes@ =~= be32(payload@.len()));
    Some(bytes)
}

/// Decoding the four header bytes gives back the length they encode; every
/// payload length that a frame admits fits in them.
pub proof fn law_header_round_trip(n: nat)
    requires
        n < 0x1_0000_0000,
    ensures
        be32_value(be32(n)) == n,
{
    assert(be32_value(be32(n)) == n) by (nonlinear_arith)
        requires
            n < 0x1_0000_0000,
    {
    }
}

} // verus!
