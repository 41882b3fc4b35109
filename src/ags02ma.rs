//! Driver for the AGS02MA gas/TVOC sensor: one command byte, a fixed settle
//! time, then a 5-byte frame of four big-endian data bytes and a checksum.

use vstd::prelude::*;
use crate::bus::{recorded_since, DelayMs, I2cBus, Transfer};
use crate::checksum::{crc8, frame_crc};

verus! {

/// Bus address of the sensor.
pub const AGS02MA_ADDRESS: u8 = 0x1a;

/// Command that selects the gas resistance reading.
pub const CMD_GAS_RESISTANCE: u8 = 0x20;

/// Command that selects the TVOC reading.
pub const CMD_TVOC: u8 = 0x00;

/// Time the sensor needs between a command and its response frame.
pub const SETTLE_MS: u16 = 1500;

/// Length of a response frame.
pub const FRAME_LEN: usize = 5;

/// A gas sensor bound to a bus and a delay for one operation.
pub struct Ags02ma<I2C, D> {
    pub i2c: I2C,
    pub delay: D,
}

/// Why a reading failed.
#[derive(Debug, PartialEq, Eq, Structural)]
pub enum Ags02maError {
    /// Writing the command failed.
    BusWriteError,
    /// Reading the response frame failed.
    BusReadError,
    /// The frame's checksum byte (`expected`) differs from the checksum
    /// computed over its data bytes (`actual`).
    CrcError { expected: u8, actual: u8 },
}

/// The unsigned integer whose big-endian bytes are `b0 b1 b2 b3`.
pub open spec fn be_u32(b0: u8, b1: u8, b2: u8, b3: u8) -> u32 {
    (b0 as int * 0x1000000 + b1 as int * 0x10000 + b2 as int * 0x100 + b3 as int) as u32
}

/// What a response frame stands for once the checksum of its data bytes is
/// `computed`: a checksum error when that differs from the frame's last
/// byte, else the 32-bit value of its data bytes.
pub open spec fn gas_frame_decode(frame: Seq<u8>, computed: u8) -> Result<u32, Ags02maError> {
    if computed != frame[4] {
        Err(Ags02maError::CrcError { expected: frame[4], actual: computed })
    } else {
        Ok(be_u32(frame[0], frame[1], frame[2], frame[3]))
    }
}

/// What a response frame read from the sensor stands for: the read failed,
/// its checksum does not match, or the 32-bit value of its data bytes.
pub open spec fn gas_frame_result(ok: bool, frame: Seq<u8>) -> Result<u32, Ags02maError> {
    if !ok {
        Err(Ags02maError::BusReadError)
    } else {
        gas_frame_decode(frame, frame_crc(frame.subrange(0, 4)))
    }
}

/// The outcome of one exchange with the sensor, given the transfers `t` and
/// waits `w` it left behind: `None` when they are not those of the exchange
/// (write `cmd`; on success wait `ms` and read a frame), else the raw result.
pub open spec fn gas_exchange(cmd: Seq<u8>, ms: u16, t: Seq<Transfer>, w: Seq<u16>) -> Option<
    Result<u32, Ags02maError>,
> {
    if t.len() == 1 && w.len() == 0 && t[0] == (Transfer::Write {
        addr: AGS02MA_ADDRESS,
        out: cmd,
        ok: false,
    }) {
        Some(Err(Ags02maError::BusWriteError))
    } else if t.len() == 2 && w == seq![ms] && t[0] == (Transfer::Write {
        addr: AGS02MA_ADDRESS,
        out: cmd,
        ok: true,
    }) {
        match t[1] {
            Transfer::Read { addr, data, ok } => if addr == AGS02MA_ADDRESS && data.len()
                == FRAME_LEN {
                Some(gas_frame_result(ok, data))
            } else {
                None
            },
            _ => None,
        }
    } else {
        None
    }
}

/// Gas resistance in ohms for a raw reading: the raw value times 100, which
/// always fits in 64 bits.
pub open spec fn resistance_of(raw: u32) -> u64 {
    (raw as nat * 100) as u64
}

/// TVOC count for a raw reading: its lowest 24 bits.
pub open spec fn tvoc_of(raw: u32) -> u32 {
    (raw as nat % 0x100_0000) as u32
}

/// The result of an operation that post-processes the raw value with `f`.
pub open spec fn map_raw(
    raw: Option<Result<u32, Ags02maError>>,
    f: spec_fn(u32) -> u32,
) -> Option<Result<u32, Ags02maError>> {
    match raw {
        Some(Ok(v)) => Some(Ok(f(v))),
        other => other,
    }
}

proof fn lemma_be_u32(b0: u8, b1: u8, b2: u8, b3: u8)
    ensures
        ((((((b0 as u32) << 8u32) | b1 as u32) << 8u32) | b2 as u32) << 8u32) | b3 as u32
            == be_u32(b0, b1, b2, b3),
{
    assert(((((((b0 as u32) << 8u32) | b1 as u32) << 8u32) | b2 as u32) << 8u32) | b3 as u32
        == (b0 as u32) * 0x1000000 + (b1 as u32) * 0x10000 + (b2 as u32) * 0x100 + b3 as u32)
        by (bit_vector);
}

/// Checks a response frame against the checksum `computed` over its data
/// bytes and decodes the big-endian value of those bytes.
pub fn decode_frame(frame: &[u8; 5], computed: u8) -> (r: Result<u32, Ags02maError>)
    ensures
        r == gas_frame_decode(frame@, computed),
{
    if computed != frame[4] {
        return Err(Ags02maError::CrcError { expected: frame[4], actual: computed });
    }
    let mut temp: u32 = frame[0] as u32;
    temp <<= 8;
    temp |= frame[1] as u32;
    temp <<= 8;
    temp |= frame[2] as u32;
    temp <<= 8;
    temp |= frame[3] as u32;
    proof {
        lemma_be_u32(frame[0], frame[1], frame[2], frame[3]);
    }
    Ok(temp)
}

/// A frame that ends in the checksum of its four data bytes is accepted and
/// decoded; one whose last byte is anything else is rejected with a checksum
/// error that reports the received byte as `expected` and the computed
/// checksum as `actual`, which then differ.
pub proof fn lemma_gas_frame_round_trip(data: Seq<u8>, c: u8)
    requires
        data.len() == 4,
    ensures
        gas_frame_result(true, data.push(frame_crc(data))) == Ok::<u32, Ags02maError>(
            be_u32(data[0], data[1], data[2], data[3]),
        ),
        c != frame_crc(data) ==> gas_frame_result(true, data.push(c)) == Err::<
            u32,
            Ags02maError,
        >(Ags02maError::CrcError { expected: c, actual: frame_crc(data) }),
{
    assert(data.push(frame_crc(data)).subrange(0, 4) =~= data);
    assert(data.push(c).subrange(0, 4) =~= data);
}

impl<I2C: I2cBus, D: DelayMs> Ags02ma<I2C, D> {
    /// Reads the gas resistance in ohms: command `0x20`, 1500 ms settle time,
    /// raw value times 100.
    pub fn read_gas(&mut self) -> (r: Result<u64, Ags02maError>)
        ensures
            old(self).i2c.transfers().is_prefix_of(final(self).i2c.transfers()),
            old(self).delay.waits().is_prefix_of(final(self).delay.waits()),
            match gas_exchange(
                seq![CMD_GAS_RESISTANCE],
                SETTLE_MS,
                recorded_since(old(self).i2c.transfers(), final(self).i2c.transfers()),
                recorded_since(old(self).delay.waits(), final(self).delay.waits()),
            ) {
                Some(Ok(v)) => r == Ok::<u64, Ags02maError>(resistance_of(v)),
                Some(Err(e)) => r == Err::<u64, Ags02maError>(e),
                None => false,
            },
    {
        let cmd = [CMD_GAS_RESISTANCE];
        let res = self.execute(SETTLE_MS, &cmd);
        proof {
            assert(cmd@ =~= seq![CMD_GAS_RESISTANCE]);
        }
        match res {
            Ok(v) => Ok((v as u64) * 100),
            Err(e) => Err(e),
        }
    }

    /// Reads the TVOC count: command `0x00`, 1500 ms settle time, lowest 24
    /// bits of the raw value.
    pub fn read_tvoc(&mut self) -> (r: Result<u32, Ags02maError>)
        ensures
            old(self).i2c.transfers().is_prefix_of(final(self).i2c.transfers()),
            old(self).delay.waits().is_prefix_of(final(self).delay.waits()),
            map_raw(
                gas_exchange(
                    seq![CMD_TVOC],
                    SETTLE_MS,
                    recorded_since(old(self).i2c.transfers(), final(self).i2c.transfers()),
                    recorded_since(old(self).delay.waits(), final(self).delay.waits()),
                ),
                |v: u32| tvoc_of(v),
            ) == Some(r),
    {
        let cmd = [CMD_TVOC];
        let res = self.execute(SETTLE_MS, &cmd);
        proof {
            assert(cmd@ =~= seq![CMD_TVOC]);
        }
        match res {
            Ok(v) => {
                let masked = v & 0xff_ffff;
                assert(v & 0xff_ffff == v % 0x100_0000) by (bit_vector);
                Ok(masked)
            },
            Err(e) => Err(e),
        }
    }

    /// Writes `cmd`, waits `delay_ms`, reads and checks a frame, and returns
    /// the big-endian value of its data bytes.
    fn execute(&mut self, delay_ms: u16, cmd: &[u8]) -> (r: Result<u32, Ags02maError>)
        ensures
            old(self).i2c.transfers().is_prefix_of(final(self).i2c.transfers()),
            old(self).delay.waits().is_prefix_of(final(self).delay.waits()),
            gas_exchange(
                cmd@,
                delay_ms,
                recorded_since(old(self).i2c.transfers(), final(self).i2c.transfers()),
                recorded_since(old(self).delay.waits(), final(self).delay.waits()),
            ) == Some(r),
    {
        let ghost t0 = self.i2c.transfers();
        let ghost w0 = self.delay.waits();
        let mut buf = [0u8; 5];
        if self.i2c.write(AGS02MA_ADDRESS, cmd).is_err() {
            assert(recorded_since(t0, self.i2c.transfers()) =~= seq![self.i2c.transfers().last()]);
            assert(recorded_since(w0, self.delay.waits()) =~= seq![]);
            return Err(Ags02maError::BusWriteError);
        }
        self.delay.delay_ms(delay_ms);
        let read_ok = self.i2c.read(AGS02MA_ADDRESS, &mut buf).is_ok();
        let ghost t = self.i2c.transfers();
        proof {
            assert(recorded_since(t0, t) =~= seq![t[t.len() - 2], t[t.len() - 1]]);
            assert(recorded_since(w0, self.delay.waits()) =~= seq![delay_ms]);
        }
        if !read_ok {
            return Err(Ags02maError::BusReadError);
        }
        let crc_res = crc8(vstd::slice::slice_subrange(&buf, 0, 4));
        decode_frame(&buf, crc_res)
    }
}

} // verus!
