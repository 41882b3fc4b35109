//! CRC-8 checksum shared by both drivers (polynomial 0x31, seed 0xFF,
//! no reflection, no final XOR).

use vstd::prelude::*;

verus! {

/// Generator polynomial of the frame checksum.
pub const CRC8_POLYNOMIAL: u8 = 0x31;

/// Initial register value of the frame checksum.
pub const CRC8_SEED: u8 = 0xff;

/// The CRC-8 (width 8, no reflection, no final XOR) of `data` with the given
/// polynomial and seed, as computed by `crc_all`.
pub uninterp spec fn crc8_of(poly: u8, seed: u8, data: Seq<u8>) -> u8;

/// The checksum that both sensors append to their frames.
pub open spec fn frame_crc(data: Seq<u8>) -> u8 {
    crc8_of(CRC8_POLYNOMIAL, CRC8_SEED, data)
}

/// Relies on `crc_all::CrcAlgo::<u8>::{new, init_crc, update_crc}`: with width 8,
/// no reflection and a zero final XOR, the result depends on the polynomial,
/// the seed and the bytes alone.
#[verifier::external_body]
fn crc8_with(poly: u8, seed: u8, data: &[u8]) -> (r: u8)
    ensures
        r == crc8_of(poly, seed, data@),
{
    let algo = crc_all::CrcAlgo::<u8>::new(poly, 8, seed, 0x00, false);
    let mut crc: u8 = 0;
    algo.init_crc(&mut crc);
    algo.update_crc(&mut crc, data)
}

/// Computes the frame checksum of `data`.
pub fn crc8(data: &[u8]) -> (r: u8)
    ensures
        r == frame_crc(data@),
{
    crc8_with(CRC8_POLYNOMIAL, CRC8_SEED, data)
}

/// Whether `frame` ends in the checksum of the bytes before it.
pub open spec fn frame_valid(frame: Seq<u8>) -> bool {
    frame.len() >= 1 && frame_crc(frame.drop_last()) == frame.last()
}

/// The checksum is a function of the bytes alone: two computations over equal
/// byte sequences give the same value.
pub proof fn lemma_checksum_deterministic(a: Seq<u8>, b: Seq<u8>)
    requires
        a == b,
    ensures
        frame_crc(a) == frame_crc(b),
{
}

} // verus!
