use std::collections::VecDeque;

use sensor_drivers::ags02ma::{decode_frame, Ags02ma, Ags02maError};
use sensor_drivers::bus::{DelayMs, I2cBus};
use sensor_drivers::checksum::crc8;

#[derive(Debug, Clone, PartialEq)]
enum Op {
    Write(u8, Vec<u8>),
    Read(u8, usize),
}

#[derive(Default)]
struct FakeBus {
    ops: Vec<Op>,
    frames: VecDeque<Vec<u8>>,
    fail_write: bool,
    fail_read: bool,
}

impl I2cBus for &mut FakeBus {
    type Error = ();

    fn write(&mut self, addr: u8, out: &[u8]) -> Result<(), ()> {
        self.ops.push(Op::Write(addr, out.to_vec()));
        if self.fail_write {
            Err(())
        } else {
            Ok(())
        }
    }

    fn read(&mut self, addr: u8, buf: &mut [u8]) -> Result<(), ()> {
        self.ops.push(Op::Read(addr, buf.len()));
        if self.fail_read {
            return Err(());
        }
        let frame = self.frames.pop_front().expect("no frame queued");
        buf.copy_from_slice(&frame);
        Ok(())
    }

    fn write_read(&mut self, _addr: u8, _out: &[u8], _buf: &mut [u8]) -> Result<(), ()> {
        panic!("the gas sensor makes no combined transfer")
    }
}

#[derive(Default)]
struct FakeDelay {
    waits: Vec<u16>,
}

impl DelayMs for &mut FakeDelay {
    fn delay_ms(&mut self, ms: u16) {
        self.waits.push(ms);
    }
}

fn frame_with_crc(data: [u8; 4]) -> Vec<u8> {
    let mut f = data.to_vec();
    f.push(crc8(&data));
    f
}

fn bus_with(frame: Vec<u8>) -> FakeBus {
    let mut bus = FakeBus::default();
    bus.frames.push_back(frame);
    bus
}

#[test]
fn checksum_check_value() {
    assert_eq!(crc8(b"123456789"), 0xF7);
    assert_eq!(crc8(&[]), 0xFF);
}

#[test]
fn checksum_is_deterministic() {
    let data = [0x21u8, 0x02, 0x03, 0x76];
    assert_eq!(crc8(&data), crc8(&data));
    let copy = data.to_vec();
    assert_eq!(crc8(&data), crc8(&copy));
}

#[test]
fn checksum_detects_single_bit_flips() {
    let base = [0x21u8, 0x02, 0x03, 0x76];
    let c = crc8(&base);
    let mut cases = 0;
    for byte in 0..base.len() {
        for bit in 0..8 {
            let mut flipped = base;
            flipped[byte] ^= 1 << bit;
            assert_ne!(crc8(&flipped), c, "flip of bit {} in byte {}", bit, byte);
            cases += 1;
        }
    }
    assert!(cases >= 16);
}

#[test]
fn frame_round_trip_accepts_matching_checksum() {
    let data = [0x21u8, 0x02, 0x03, 0x76];
    let c = crc8(&data);
    assert_eq!(c, 0xC3);
    let mut frame = data.to_vec();
    frame.push(c);
    let f: [u8; 5] = [frame[0], frame[1], frame[2], frame[3], frame[4]];
    assert_eq!(decode_frame(&f, c), Ok(0x2102_0376));

    let mut bus = bus_with(frame.clone());
    let mut delay = FakeDelay::default();
    let mut dev = Ags02ma { i2c: &mut bus, delay: &mut delay };
    assert_eq!(dev.read_tvoc(), Ok(0x02_0376));
}

#[test]
fn frame_round_trip_rejects_corrupted_checksum() {
    let data = [0x21u8, 0x02, 0x03, 0x76];
    let c = crc8(&data);
    for delta in [1u8, 2, 0x40, 0x80, 0xFF] {
        let bad = c.wrapping_add(delta);
        let mut frame = data.to_vec();
        frame.push(bad);
        let mut bus = bus_with(frame);
        let mut delay = FakeDelay::default();
        let mut dev = Ags02ma { i2c: &mut bus, delay: &mut delay };
        let r = dev.read_gas();
        assert_eq!(r, Err(Ags02maError::CrcError { expected: bad, actual: c }));
        if let Err(Ags02maError::CrcError { expected, actual }) = r {
            assert_ne!(expected, actual);
        }
    }
}

#[test]
fn decode_gas_values() {
    let raw = [0x00u8, 0x00, 0x01, 0x00];
    let f = frame_with_crc(raw);
    let arr: [u8; 5] = [f[0], f[1], f[2], f[3], f[4]];
    assert_eq!(decode_frame(&arr, f[4]), Ok(256));

    let mut bus = bus_with(f.clone());
    let mut delay = FakeDelay::default();
    let mut dev = Ags02ma { i2c: &mut bus, delay: &mut delay };
    assert_eq!(dev.read_gas(), Ok(25600));

    let mut bus = bus_with(f);
    let mut delay = FakeDelay::default();
    let mut dev = Ags02ma { i2c: &mut bus, delay: &mut delay };
    assert_eq!(dev.read_tvoc(), Ok(256));
}

#[test]
fn gas_exchange_sequence() {
    let mut bus = bus_with(frame_with_crc([0, 0, 0, 7]));
    let mut delay = FakeDelay::default();
    {
        let mut dev = Ags02ma { i2c: &mut bus, delay: &mut delay };
        assert_eq!(dev.read_gas(), Ok(700));
    }
    assert_eq!(bus.ops, vec![Op::Write(0x1a, vec![0x20]), Op::Read(0x1a, 5)]);
    assert_eq!(delay.waits, vec![1500]);

    let mut bus = bus_with(frame_with_crc([0, 0, 0, 7]));
    let mut delay = FakeDelay::default();
    {
        let mut dev = Ags02ma { i2c: &mut bus, delay: &mut delay };
        assert_eq!(dev.read_tvoc(), Ok(7));
    }
    assert_eq!(bus.ops, vec![Op::Write(0x1a, vec![0x00]), Op::Read(0x1a, 5)]);
    assert_eq!(delay.waits, vec![1500]);
}

#[test]
fn tvoc_keeps_low_24_bits() {
    let mut bus = bus_with(frame_with_crc([0x12, 0x34, 0x56, 0x78]));
    let mut delay = FakeDelay::default();
    let mut dev = Ags02ma { i2c: &mut bus, delay: &mut delay };
    assert_eq!(dev.read_tvoc(), Ok(0x34_5678));
}

#[test]
fn resistance_keeps_full_product() {
    let mut bus = bus_with(frame_with_crc([0xFF, 0xFF, 0xFF, 0xFF]));
    let mut delay = FakeDelay::default();
    let mut dev = Ags02ma { i2c: &mut bus, delay: &mut delay };
    assert_eq!(dev.read_gas(), Ok(429_496_729_500));

    let mut bus = bus_with(frame_with_crc([0x21, 0x02, 0x03, 0x76]));
    let mut delay = FakeDelay::default();
    let mut dev = Ags02ma { i2c: &mut bus, delay: &mut delay };
    assert_eq!(dev.read_gas(), Ok(0x2102_0376u64 * 100));
}

#[test]
fn gas_write_failure() {
    let mut bus = FakeBus { fail_write: true, ..FakeBus::default() };
    let mut delay = FakeDelay::default();
    {
        let mut dev = Ags02ma { i2c: &mut bus, delay: &mut delay };
        assert_eq!(dev.read_gas(), Err(Ags02maError::BusWriteError));
    }
    assert_eq!(bus.ops.len(), 1);
    assert!(delay.waits.is_empty());
}

#[test]
fn gas_read_failure() {
    let mut bus = FakeBus { fail_read: true, ..FakeBus::default() };
    let mut delay = FakeDelay::default();
    {
        let mut dev = Ags02ma { i2c: &mut bus, delay: &mut delay };
        assert_eq!(dev.read_tvoc(), Err(Ags02maError::BusReadError));
    }
    assert_eq!(bus.ops.len(), 2);
    assert_eq!(delay.waits, vec![1500]);
}
