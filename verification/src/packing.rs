//! Lossless packing of four 6-bit identity codes into three bytes.

use crate::error::CompositeError;
use vstd::prelude::*;

verus! {

/// Largest value an identity code may take and still fit in six bits.
pub const MAX_CODE: u8 = 63;

/// The three bytes that hold four 6-bit codes, low bits first.
pub open spec fn pack_spec(c0: u8, c1: u8, c2: u8, c3: u8) -> (u8, u8, u8) {
    (
        c0 | ((c1 & 0b000011) << 6),
        ((c1 & 0b111100) >> 2) | ((c2 & 0b001111) << 4),
        ((c2 & 0b110000) >> 4) | ((c3 & 0b111111) << 2),
    )
}

/// The four 6-bit codes held by three packed bytes.
pub open spec fn unpack_spec(b0: u8, b1: u8, b2: u8) -> (u8, u8, u8, u8) {
    (
        b0 & 0b111111,
        ((b0 >> 6) & 0b000011) | ((b1 & 0b001111) << 2),
        ((b1 >> 4) & 0b001111) | ((b2 & 0b000011) << 4),
        (b2 >> 2) & 0b111111,
    )
}

/// The first of four codes that does not fit in six bits, if there is one.
pub open spec fn first_overflow(c0: u8, c1: u8, c2: u8, c3: u8) -> Option<u8> {
    if c0 > MAX_CODE {
        Some(c0)
    } else if c1 > MAX_CODE {
        Some(c1)
    } else if c2 > MAX_CODE {
        Some(c2)
    } else if c3 > MAX_CODE {
        Some(c3)
    } else {
        None
    }
}

/// Packs four identity codes into three bytes. A code above 63 is never
/// truncated: the first such code is reported as an error.
pub fn pack(c0: u8, c1: u8, c2: u8, c3: u8) -> (packed: Result<(u8, u8, u8), CompositeError>)
    ensures
        match first_overflow(c0, c1, c2, c3) {
            Some(code) => packed == Err::<(u8, u8, u8), CompositeError>(
                CompositeError::PackingOverflow(code),
            ),
            None => packed == Ok::<(u8, u8, u8), CompositeError>(pack_spec(c0, c1, c2, c3)),
        },
{
    if c0 > MAX_CODE {
        return Err(CompositeError::PackingOverflow(c0));
    }
    if c1 > MAX_CODE {
        return Err(CompositeError::PackingOverflow(c1));
    }
    if c2 > MAX_CODE {
        return Err(CompositeError::PackingOverflow(c2));
    }
    if c3 > MAX_CODE {
        return Err(CompositeError::PackingOverflow(c3));
    }
    let b0: u8 = c0 | ((c1 & 0b000011) << 6);
    let b1: u8 = ((c1 & 0b111100) >> 2) | ((c2 & 0b001111) << 4);
    let b2: u8 = ((c2 & 0b110000) >> 4) | ((c3 & 0b111111) << 2);
    Ok((b0, b1, b2))
}

/// Recovers the four codes from three packed bytes.
pub fn unpack(b0: u8, b1: u8, b2: u8) -> (codes: (u8, u8, u8, u8))
    ensures
        codes == unpack_spec(b0, b1, b2),
        codes.0 <= MAX_CODE,
        codes.1 <= MAX_CODE,
        codes.2 <= MAX_CODE,
        codes.3 <= MAX_CODE,
{
    let c0: u8 = b0 & 0b111111;
    let c1: u8 = ((b0 >> 6) & 0b000011) | ((b1 & 0b001111) << 2);
    let c2: u8 = ((b1 >> 4) & 0b001111) | ((b2 & 0b000011) << 4);
    let c3: u8 = (b2 >> 2) & 0b111111;
    assert(b0 & 0b111111 <= 63) by (bit_vector);
    assert((((b0 >> 6) & 0b000011) | ((b1 & 0b001111) << 2)) <= 63) by (bit_vector);
    assert((((b1 >> 4) & 0b001111) | ((b2 & 0b000011) << 4)) <= 63) by (bit_vector);
    assert((b2 >> 2) & 0b111111 <= 63) by (bit_vector);
    (c0, c1, c2, c3)
}

/// Unpacking what was packed gives back the four codes, whenever each fits
/// in six bits.
pub proof fn lemma_unpack_pack(c0: u8, c1: u8, c2: u8, c3: u8)
    requires
        c0 <= MAX_CODE,
        c1 <= MAX_CODE,
        c2 <= MAX_CODE,
        c3 <= MAX_CODE,
    ensures
        ({
            let p = pack_spec(c0, c1, c2, c3);
            unpack_spec(p.0, p.1, p.2) == (c0, c1, c2, c3)
        }),
{
    assert((c0 | ((c1 & 0b000011) << 6)) & 0b111111 == c0) by (bit_vector)
        requires
            c0 <= 63,
    ;
    assert((((c0 | ((c1 & 0b000011) << 6)) >> 6) & 0b000011) | (((((c1 & 0b111100) >> 2) | ((c2
        & 0b001111) << 4)) & 0b001111) << 2) == c1) by (bit_vector)
        requires
            c0 <= 63,
            c1 <= 63,
    ;
    assert(((((((c1 & 0b111100) >> 2) | ((c2 & 0b001111) << 4))) >> 4) & 0b001111) | ((((((c2
        & 0b110000) >> 4) | ((c3 & 0b111111) << 2))) & 0b000011) << 4) == c2) by (bit_vector)
        requires
            c1 <= 63,
            c2 <= 63,
    ;
    assert((((((c2 & 0b110000) >> 4) | ((c3 & 0b111111) << 2))) >> 2) & 0b111111 == c3)
        by (bit_vector)
        requires
            c2 <= 63,
            c3 <= 63,
    ;
}

} // verus!
