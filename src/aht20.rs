//! Driver for the AHT20 humidity/temperature sensor. The driver keeps no state
//! of its own: each operation reads the device's status to decide how to go on.

use vstd::prelude::*;
use crate::bus::{lemma_recorded_since_concat, recorded_since, DelayMs, I2cBus, Transfer};
use crate::checksum::{crc8, frame_crc, frame_valid};

verus! {

/// Bus address of the sensor.
pub const AHT20_ADDRESS: u8 = 0x38;

/// Byte written to request the status byte.
pub const STATUS_REQUEST: u8 = 0x00;

/// Wait between two status queries while the sensor is busy.
pub const POLL_INTERVAL_MS: u16 = 10;

/// Most status queries made while waiting for the sensor to become idle
/// (one second of polling; a measurement takes about 80 ms).
pub const MAX_STATUS_POLLS: u32 = 100;

/// Settle time after a soft reset.
pub const RESET_SETTLE_MS: u16 = 20;

/// Wait after each step of a register reset.
pub const REGISTER_STEP_MS: u16 = 10;

/// The status byte of the sensor; its bits are named by the masks below.
#[derive(Debug, Clone, Copy, PartialEq, Eq, Structural)]
pub struct StatusFlags {
    pub bits: u8,
}

/// Busy with a measurement or calibration.
pub const BUSY: u8 = 0x80;

/// Working mode (two bits).
pub const MODE: u8 = 0x60;

/// CRC enabled.
pub const CRC: u8 = 0x10;

/// Calibration enabled.
pub const CALIBRATION_ENABLE: u8 = 0x08;

/// FIFO enabled.
pub const FIFO_ENABLE: u8 = 0x04;

/// FIFO full.
pub const FIFO_FULL: u8 = 0x02;

/// FIFO empty.
pub const FIFO_EMPTY: u8 = 0x01;

/// Whether every bit of `flags` is set in `bits`.
pub open spec fn has_flags(bits: u8, flags: u8) -> bool {
    bits & flags == flags
}

/// Whether a status byte reports the sensor busy.
pub open spec fn status_busy(bits: u8) -> bool {
    has_flags(bits, BUSY)
}

/// Whether a status byte reports the sensor calibrated.
pub open spec fn status_calibrated(bits: u8) -> bool {
    has_flags(bits, CALIBRATION_ENABLE)
}

impl StatusFlags {
    /// Whether every bit of the mask `flags` is set.
    pub fn contains(&self, flags: u8) -> (r: bool)
        ensures
            r == has_flags(self.bits, flags),
    {
        self.bits & flags == flags
    }
}

/// Why an operation failed.
#[derive(Debug, Clone, Copy)]
pub enum Error<E> {
    /// The sensor does not report itself calibrated.
    Uncalibrated,
    /// The bus failed.
    Bus(E),
    /// The measurement frame failed its checksum.
    Checksum,
    /// The sensor stayed busy through every allowed status query.
    Timeout,
}

/// Whether `r` is a failure of the bus.
pub open spec fn is_bus_failure<T, E>(r: Result<T, Error<E>>) -> bool {
    match r {
        Err(Error::Bus(_)) => true,
        _ => false,
    }
}

/// Whether a transfer succeeded.
pub open spec fn transfer_ok(t: Transfer) -> bool {
    match t {
        Transfer::Write { ok, .. } => ok,
        Transfer::Read { ok, .. } => ok,
        Transfer::WriteRead { ok, .. } => ok,
    }
}

/// Whether `t` is a status query to the sensor.
pub open spec fn is_status_query(t: Transfer) -> bool {
    match t {
        Transfer::WriteRead { addr, out, data, .. } => addr == AHT20_ADDRESS && out == seq![
            STATUS_REQUEST,
        ] && data.len() == 1,
        _ => false,
    }
}

/// The status byte that a status query brought back.
pub open spec fn status_reply(t: Transfer) -> u8 {
    match t {
        Transfer::WriteRead { data, .. } => data[0],
        _ => 0,
    }
}

/// Whether a status query succeeded and reported the sensor busy.
pub open spec fn reported_busy(t: Transfer) -> bool {
    transfer_ok(t) && status_busy(status_reply(t))
}

/// `n` waits of the polling interval.
pub open spec fn poll_waits(n: nat) -> Seq<u16> {
    Seq::new(n, |i: int| POLL_INTERVAL_MS)
}

/// Whether the transfers `p` and waits `w` are those of waiting for the
/// sensor: status queries, one polling interval apart, while it reports busy,
/// ending at the first query that fails or finds it idle, or when the allowed
/// number of queries is spent.
pub open spec fn busy_poll(p: Seq<Transfer>, w: Seq<u16>) -> bool {
    &&& 1 <= p.len() <= MAX_STATUS_POLLS
    &&& forall|i: int| 0 <= i < p.len() ==> is_status_query(#[trigger] p[i])
    &&& forall|i: int| 0 <= i < p.len() - 1 ==> reported_busy(#[trigger] p[i])
    &&& reported_busy(p.last()) ==> p.len() == MAX_STATUS_POLLS
    &&& w == poll_waits((p.len() - 1) as nat)
}

/// What waiting for the sensor gives, after the queries `p`: the bus failed,
/// it timed out, or the status byte of the query that found it idle.
pub open spec fn poll_result<E>(p: Seq<Transfer>, r: Result<StatusFlags, Error<E>>) -> bool {
    if !transfer_ok(p.last()) {
        is_bus_failure(r)
    } else if status_busy(status_reply(p.last())) {
        r == Err::<StatusFlags, Error<E>>(Error::Timeout)
    } else {
        r == Ok::<StatusFlags, Error<E>>(StatusFlags { bits: status_reply(p.last()) })
    }
}

/// Whether `t` is a write of `out` to the sensor.
pub open spec fn is_write_of(t: Transfer, out: Seq<u8>) -> bool {
    match t {
        Transfer::Write { addr, out: o, .. } => addr == AHT20_ADDRESS && o == out,
        _ => false,
    }
}

/// Command that starts a calibration.
pub open spec fn calibrate_command() -> Seq<u8> {
    seq![0xE1u8, 0x08u8, 0x00u8]
}

/// Command that starts a measurement.
pub open spec fn measure_command() -> Seq<u8> {
    seq![0xACu8, 0x33u8, 0x00u8]
}

/// Whether `t` and `w` are the transfers and waits of a calibration and `r`
/// its result: the calibration command; if it was taken, waiting for the
/// sensor, whose last status byte must then report it calibrated.
pub open spec fn calibrate_run<E>(t: Seq<Transfer>, w: Seq<u16>, r: Result<(), Error<E>>) -> bool {
    &&& t.len() >= 1
    &&& is_write_of(t[0], calibrate_command())
    &&& if !transfer_ok(t[0]) {
        t.len() == 1 && w.len() == 0 && is_bus_failure(r)
    } else {
        let p = t.drop_first();
        &&& busy_poll(p, w)
        &&& if !transfer_ok(p.last()) {
            is_bus_failure(r)
        } else if status_busy(status_reply(p.last())) {
            r matches Err(Error::Timeout)
        } else if status_calibrated(status_reply(p.last())) {
            r matches Ok(())
        } else {
            r matches Err(Error::Uncalibrated)
        }
    }
}

/// Length of a measurement frame: status, five data bytes, checksum.
pub const MEASUREMENT_FRAME_LEN: usize = 7;

/// The 20-bit humidity reading of a measurement frame: bytes 1 and 2 and the
/// high half of byte 3.
pub open spec fn humidity_raw(frame: Seq<u8>) -> u32 {
    (frame[1] as int * 0x1000 + frame[2] as int * 0x10 + frame[3] as int / 0x10) as u32
}

/// The 20-bit temperature reading of a measurement frame: the low half of
/// byte 3 and bytes 4 and 5.
pub open spec fn temperature_raw(frame: Seq<u8>) -> u32 {
    (frame[3] as int % 0x10 * 0x10000 + frame[4] as int * 0x100 + frame[5] as int) as u32
}

/// What a measurement frame gives once the checksum of its first six bytes
/// is `computed`: a checksum error when that differs from the frame's last
/// byte, an uncalibrated sensor when its status byte lacks the calibration
/// flag, else the two readings.
pub open spec fn measurement_decode<E>(
    frame: Seq<u8>,
    computed: u8,
    r: Result<(Humidity, Temperature), Error<E>>,
) -> bool {
    if computed != frame[6] {
        r matches Err(Error::Checksum)
    } else if !status_calibrated(frame[0]) {
        r matches Err(Error::Uncalibrated)
    } else {
        r matches Ok((h, tv)) && h@ == humidity_raw(frame) && tv@ == temperature_raw(frame)
    }
}

/// What a measurement frame read from the sensor gives: the read failed, the
/// checksum does not match, the sensor is not calibrated, or the readings.
pub open spec fn measurement_frame_result<E>(
    ok: bool,
    frame: Seq<u8>,
    r: Result<(Humidity, Temperature), Error<E>>,
) -> bool {
    if !ok {
        is_bus_failure(r)
    } else {
        measurement_decode(frame, frame_crc(frame.subrange(0, 6)), r)
    }
}

/// Whether `t` and `w` are the transfers and waits of a measurement and `r`
/// its result: the measurement command; if it was taken, waiting for the
/// sensor; if it became idle, reading a frame.
pub open spec fn measurement_run<E>(
    t: Seq<Transfer>,
    w: Seq<u16>,
    r: Result<(Humidity, Temperature), Error<E>>,
) -> bool {
    &&& t.len() >= 1
    &&& is_write_of(t[0], measure_command())
    &&& if !transfer_ok(t[0]) {
        t.len() == 1 && w.len() == 0 && is_bus_failure(r)
    } else {
        match t.last() {
            Transfer::Read { addr, data, ok } => {
                let p = t.subrange(1, t.len() - 1);
                &&& busy_poll(p, w)
                &&& transfer_ok(p.last())
                &&& !status_busy(status_reply(p.last()))
                &&& addr == AHT20_ADDRESS
                &&& data.len() == MEASUREMENT_FRAME_LEN
                &&& measurement_frame_result(ok, data, r)
            },
            _ => {
                let p = t.drop_first();
                &&& busy_poll(p, w)
                &&& if !transfer_ok(p.last()) {
                    is_bus_failure(r)
                } else {
                    status_busy(status_reply(p.last())) && r matches Err(Error::Timeout)
                }
            },
        }
    }
}

proof fn lemma_unpack_frame(b1: u8, b2: u8, b3: u8, b4: u8, b5: u8)
    ensures
        ((b1 as u32) << 12u32) | ((b2 as u32) << 4u32) | ((b3 as u32) >> 4u32) == (b1 as u32)
            * 0x1000 + (b2 as u32) * 0x10 + (b3 as u32) / 0x10,
        (((b3 as u32) & 0x0f) << 16u32) | ((b4 as u32) << 8u32) | (b5 as u32) == (b3 as u32)
            % 0x10 * 0x10000 + (b4 as u32) * 0x100 + (b5 as u32),
{
    assert(((b1 as u32) << 12u32) | ((b2 as u32) << 4u32) | ((b3 as u32) >> 4u32) == (b1 as u32)
        * 0x1000 + (b2 as u32) * 0x10 + (b3 as u32) / 0x10) by (bit_vector);
    assert((((b3 as u32) & 0x0f) << 16u32) | ((b4 as u32) << 8u32) | (b5 as u32) == (b3 as u32)
        % 0x10 * 0x10000 + (b4 as u32) * 0x100 + (b5 as u32)) by (bit_vector);
}

/// The probe written first when resetting register `reg`.
pub open spec fn register_probe(reg: u8) -> Seq<u8> {
    seq![reg, 0x00u8, 0x00u8]
}

/// The write that puts back into register `reg` the bytes read from it.
pub open spec fn register_rewrite(reg: u8, data: Seq<u8>) -> Seq<u8> {
    seq![0xB0u8 | reg, data[1], data[2]]
}

/// Whether `t` is a read of `len` bytes from the sensor.
pub open spec fn is_read_from(t: Transfer, len: nat) -> bool {
    match t {
        Transfer::Read { addr, data, .. } => addr == AHT20_ADDRESS && data.len() == len,
        _ => false,
    }
}

/// The bytes that a read brought back.
pub open spec fn read_data(t: Transfer) -> Seq<u8> {
    match t {
        Transfer::Read { data, .. } => data,
        _ => Seq::empty(),
    }
}

/// `n` waits of a register reset step.
pub open spec fn step_waits(n: nat) -> Seq<u16> {
    Seq::new(n, |i: int| REGISTER_STEP_MS)
}

/// How many of the transfers at the head of `t` one register reset makes:
/// it stops at its first failed transfer, and makes three at most.
pub open spec fn register_reset_len(t: Seq<Transfer>) -> nat {
    if t.len() >= 1 && !transfer_ok(t[0]) {
        1
    } else if t.len() >= 2 && !transfer_ok(t[1]) {
        2
    } else {
        3
    }
}

/// Whether `t` and `w` are the transfers and waits of resetting register
/// `reg`, and `ok` whether it succeeded: write the probe, wait, read three
/// bytes, wait, write them back behind the rewrite command, wait; stopping at
/// the first failed transfer.
pub open spec fn register_reset_run(reg: u8, t: Seq<Transfer>, w: Seq<u16>, ok: bool) -> bool {
    &&& t.len() == register_reset_len(t)
    &&& is_write_of(t[0], register_probe(reg))
    &&& t.len() >= 2 ==> is_read_from(t[1], 3)
    &&& t.len() == 3 ==> is_write_of(t[2], register_rewrite(reg, read_data(t[1])))
    &&& ok == (t.len() == 3 && transfer_ok(t[2]))
    &&& w == step_waits(if ok { 3 } else { (t.len() - 1) as nat })
}

/// Whether `t` and `w` are the transfers and waits of resetting the registers
/// `regs` in turn, stopping at the first that fails, and `ok` whether all
/// succeeded.
pub open spec fn register_resets_run(regs: Seq<u8>, t: Seq<Transfer>, w: Seq<u16>, ok: bool) -> bool
    decreases regs.len(),
{
    if regs.len() == 0 {
        t.len() == 0 && w.len() == 0 && ok
    } else {
        let n = register_reset_len(t) as int;
        let first_ok = n == 3 && t.len() >= 3 && transfer_ok(t[2]);
        let m = if first_ok {
            3
        } else {
            n - 1
        };
        &&& n <= t.len()
        &&& m <= w.len()
        &&& register_reset_run(regs[0], t.take(n), w.take(m), first_ok)
        &&& if first_ok {
            register_resets_run(regs.drop_first(), t.skip(n), w.skip(m), ok)
        } else {
            t.len() == n && w.len() == m && !ok
        }
    }
}

/// The registers whose calibration constants are rewritten.
pub open spec fn calibration_registers() -> Seq<u8> {
    seq![0x1Bu8, 0x1Cu8, 0x1Eu8]
}

proof fn lemma_register_resets_cons(
    reg: u8,
    regs: Seq<u8>,
    t1: Seq<Transfer>,
    w1: Seq<u16>,
    ok1: bool,
    t2: Seq<Transfer>,
    w2: Seq<u16>,
    ok: bool,
)
    requires
        register_reset_run(reg, t1, w1, ok1),
        ok1 ==> register_resets_run(regs, t2, w2, ok),
        !ok1 ==> t2.len() == 0 && w2.len() == 0 && !ok,
    ensures
        register_resets_run(seq![reg] + regs, t1 + t2, w1 + w2, ok),
{
    let rs = seq![reg] + regs;
    let t = t1 + t2;
    let w = w1 + w2;
    assert(rs[0] == reg);
    assert(rs.drop_first() =~= regs);
    assert(t.take(t1.len() as int) =~= t1);
    assert(t.skip(t1.len() as int) =~= t2);
    assert(w.take(w1.len() as int) =~= w1);
    assert(w.skip(w1.len() as int) =~= w2);
    assert(t[0] == t1[0]);
    if t1.len() >= 2 {
        assert(t[1] == t1[1]);
    }
    if t1.len() >= 3 {
        assert(t[2] == t1[2]);
    }
    assert(register_reset_len(t) == t1.len());
}

/// Whether the device behind the transfers `t` (a command followed by what
/// came after it) answers every transfer, and reports busy to exactly the
/// status queries that stand among the first `n` transfers after the command.
pub open spec fn busy_for(t: Seq<Transfer>, n: nat) -> bool {
    &&& forall|i: int| 0 <= i < t.len() ==> transfer_ok(#[trigger] t[i])
    &&& forall|i: int|
        1 <= i < t.len() && is_status_query(#[trigger] t[i]) ==> (status_busy(status_reply(t[i]))
            <==> i <= n)
}

/// Whether no status byte that the device sent in `t`, from a status query or
/// at the head of a frame, has the calibration flag.
pub open spec fn never_calibrated(t: Seq<Transfer>) -> bool {
    forall|i: int|
        0 <= i < t.len() ==> (is_status_query(#[trigger] t[i]) ==> !status_calibrated(
            status_reply(t[i]),
        )) && (read_data(t[i]).len() > 0 ==> !status_calibrated(read_data(t[i])[0]))
}

proof fn lemma_poll_length(t: Seq<Transfer>, p: Seq<Transfer>, w: Seq<u16>, n: nat)
    requires
        busy_for(t, n),
        n < MAX_STATUS_POLLS,
        busy_poll(p, w),
        p.len() + 1 <= t.len(),
        forall|j: int| 0 <= j < p.len() ==> p[j] == t[j + 1],
    ensures
        p.len() == n + 1,
        w.len() == n,
{
    if p.len() > n + 1 {
        assert(p[n as int] == t[n + 1 as int]);
        assert(reported_busy(p[n as int]));
        assert(is_status_query(t[n + 1 as int]));
    }
    if p.len() < n + 1 {
        let k = p.len() - 1;
        assert(p[k] == t[k + 1 as int]);
        assert(is_status_query(p[k]));
        assert(transfer_ok(t[k + 1 as int]));
        assert(reported_busy(p.last()));
    }
}

/// A calibration against a device that stays busy for exactly `n` status
/// queries, within the allowed number, makes exactly `n + 1` status queries
/// after its command, and waits between them `n` times.
pub proof fn lemma_calibrate_poll_count<E>(
    t: Seq<Transfer>,
    w: Seq<u16>,
    r: Result<(), Error<E>>,
    n: nat,
)
    requires
        calibrate_run(t, w, r),
        busy_for(t, n),
        n < MAX_STATUS_POLLS,
    ensures
        t.len() == n + 2,
        !is_status_query(t[0]),
        forall|i: int| 1 <= i < t.len() ==> is_status_query(#[trigger] t[i]),
        w.len() == n,
{
    assert(transfer_ok(t[0]));
    let p = t.drop_first();
    lemma_poll_length(t, p, w, n);
    assert forall|i: int| 1 <= i < t.len() implies is_status_query(#[trigger] t[i]) by {
        assert(t[i] == p[i - 1]);
    }
}

/// A measurement against a device that stays busy for exactly `n` status
/// queries, within the allowed number, makes exactly `n + 1` status queries
/// after its command, waits between them `n` times, and then reads a frame.
pub proof fn lemma_read_poll_count<E>(
    t: Seq<Transfer>,
    w: Seq<u16>,
    r: Result<(Humidity, Temperature), Error<E>>,
    n: nat,
)
    requires
        measurement_run(t, w, r),
        busy_for(t, n),
        n < MAX_STATUS_POLLS,
    ensures
        t.len() == n + 3,
        !is_status_query(t[0]),
        forall|i: int| 1 <= i <= n + 1 ==> is_status_query(#[trigger] t[i]),
        is_read_from(t[n + 2 as int], MEASUREMENT_FRAME_LEN as nat),
        w.len() == n,
{
    assert(transfer_ok(t[0]));
    assert(transfer_ok(t.last()));
    match t.last() {
        Transfer::Read { .. } => {
            let p = t.subrange(1, t.len() - 1);
            lemma_poll_length(t, p, w, n);
            assert forall|i: int| 1 <= i <= n + 1 implies is_status_query(#[trigger] t[i]) by {
                assert(t[i] == p[i - 1]);
            }
        },
        _ => {
            let p = t.drop_first();
            lemma_poll_length(t, p, w, n);
            assert(p.last() == t[n + 1 as int]);
            assert(is_status_query(t[n + 1 as int]));
        },
    }
}

/// A calibration against a device that answers everything, stops being busy
/// within the allowed number of status queries, and never sets the
/// calibration flag, fails as uncalibrated.
pub proof fn lemma_calibrate_uncalibrated<E>(
    t: Seq<Transfer>,
    w: Seq<u16>,
    r: Result<(), Error<E>>,
    n: nat,
)
    requires
        calibrate_run(t, w, r),
        busy_for(t, n),
        n < MAX_STATUS_POLLS,
        never_calibrated(t),
    ensures
        r matches Err(Error::Uncalibrated),
{
    lemma_calibrate_poll_count(t, w, r, n);
    let p = t.drop_first();
    assert(p.last() == t[n + 1 as int]);
    assert(is_status_query(t[n + 1 as int]));
}

/// A measurement against a device that answers everything, stops being busy
/// within the allowed number of status queries, sends a frame whose checksum
/// matches, and never sets the calibration flag, fails as uncalibrated.
pub proof fn lemma_read_uncalibrated<E>(
    t: Seq<Transfer>,
    w: Seq<u16>,
    r: Result<(Humidity, Temperature), Error<E>>,
    n: nat,
)
    requires
        measurement_run(t, w, r),
        busy_for(t, n),
        n < MAX_STATUS_POLLS,
        never_calibrated(t),
        frame_valid(read_data(t.last())),
    ensures
        r matches Err(Error::Uncalibrated),
{
    lemma_read_poll_count(t, w, r, n);
    assert(t.last() == t[n + 2 as int]);
    assert(read_data(t[n + 2 as int]).len() > 0);
}

/// Humidity reading.
pub struct Humidity {
    h: u32,
}

impl View for Humidity {
    type V = u32;

    closed spec fn view(&self) -> u32 {
        self.h
    }
}

impl Humidity {
    /// Raw 20-bit humidity reading; relative humidity in % is
    /// `100 * raw / 2^20`.
    pub fn raw(&self) -> (r: u32)
        ensures
            r == self@,
    {
        self.h
    }
}

/// Temperature reading.
pub struct Temperature {
    t: u32,
}

impl View for Temperature {
    type V = u32;

    closed spec fn view(&self) -> u32 {
        self.t
    }
}

impl Temperature {
    /// Raw 20-bit temperature reading; degrees Celsius are
    /// `200 * raw / 2^20 - 50`.
    pub fn raw(&self) -> (r: u32)
        ensures
            r == self@,
    {
        self.t
    }
}

/// Checks a measurement frame against the checksum `computed` over its first
/// six bytes and against its calibration flag, and unpacks the humidity and
/// temperature readings.
pub fn decode_measurement<E>(frame: &[u8; 7], computed: u8) -> (r: Result<
    (Humidity, Temperature),
    Error<E>,
>)
    ensures
        measurement_decode(frame@, computed, r),
{
    if computed != frame[6] {
        return Err(Error::Checksum);
    }
    let status = StatusFlags { bits: frame[0] };
    if !status.contains(CALIBRATION_ENABLE) {
        return Err(Error::Uncalibrated);
    }
    let hum = ((frame[1] as u32) << 12u32) | ((frame[2] as u32) << 4u32) | ((frame[3] as u32)
        >> 4u32);
    let temp = (((frame[3] as u32) & 0x0f) << 16u32) | ((frame[4] as u32) << 8u32) | (
    frame[5] as u32);
    proof {
        lemma_unpack_frame(frame[1], frame[2], frame[3], frame[4], frame[5]);
    }
    Ok((Humidity { h: hum }, Temperature { t: temp }))
}

/// An AHT20 sensor bound to a bus and a delay.
pub struct Aht20<I2C, D> {
    i2c: I2C,
    delay: D,
}

impl<I2C: I2cBus, D: DelayMs> Aht20<I2C, D> {
    /// The transfers made on the sensor's bus so far.
    pub closed spec fn transfers(&self) -> Seq<Transfer> {
        self.i2c.transfers()
    }

    /// The waits made on the sensor's delay so far.
    pub closed spec fn waits(&self) -> Seq<u16> {
        self.delay.waits()
    }

    /// Binds a sensor to `i2c` and `delay`; talks to neither.
    pub fn new(i2c: I2C, delay: D) -> (r: Result<Self, Error<I2C::Error>>)
        ensures
            r matches Ok(dev) && dev.transfers() == i2c.transfers() && dev.waits()
                == delay.waits(),
    {
        let dev = Aht20 { i2c, delay };
        Ok(dev)
    }

    /// Reads the status byte: writes the status request and reads one byte
    /// back in one transaction.
    pub fn status(&mut self) -> (r: Result<StatusFlags, I2C::Error>)
        ensures
            final(self).waits() == old(self).waits(),
            final(self).transfers().len() == old(self).transfers().len() + 1,
            final(self).transfers().drop_last() == old(self).transfers(),
            is_status_query(final(self).transfers().last()),
            transfer_ok(final(self).transfers().last()) == r is Ok,
            r matches Ok(s) ==> s.bits == status_reply(final(self).transfers().last()),
    {
        let req = [STATUS_REQUEST];
        let mut buf = [0u8; 1];
        let res = self.i2c.write_read(AHT20_ADDRESS, &req, &mut buf);
        proof {
            assert(req@ =~= seq![STATUS_REQUEST]);
            assert(self.i2c.transfers().drop_last() =~= old(self).i2c.transfers());
        }
        match res {
            Ok(()) => Ok(StatusFlags { bits: buf[0] }),
            Err(e) => Err(e),
        }
    }

    /// Queries the status until the sensor is no longer busy, waiting the
    /// polling interval between queries, for at most the allowed number of
    /// queries.
    fn wait_until_idle(&mut self) -> (r: Result<StatusFlags, Error<I2C::Error>>)
        ensures
            old(self).transfers().is_prefix_of(final(self).transfers()),
            old(self).waits().is_prefix_of(final(self).waits()),
            busy_poll(
                recorded_since(old(self).transfers(), final(self).transfers()),
                recorded_since(old(self).waits(), final(self).waits()),
            ),
            poll_result(recorded_since(old(self).transfers(), final(self).transfers()), r),
    {
        let ghost t0 = self.transfers();
        let ghost w0 = self.waits();
        let mut polls: u32 = 0;
        loop
            invariant
                polls < MAX_STATUS_POLLS,
                t0 == old(self).transfers(),
                w0 == old(self).waits(),
                t0.is_prefix_of(self.transfers()),
                w0.is_prefix_of(self.waits()),
                recorded_since(t0, self.transfers()).len() == polls,
                forall|i: int|
                    0 <= i < polls ==> is_status_query(
                        #[trigger] recorded_since(t0, self.transfers())[i],
                    ) && reported_busy(recorded_since(t0, self.transfers())[i]),
                recorded_since(w0, self.waits()) == poll_waits(polls as nat),
            decreases MAX_STATUS_POLLS - polls,
        {
            let ghost tb = self.transfers();
            let ghost wb = self.waits();
            let res = self.status();
            let ghost p = recorded_since(t0, self.transfers());
            proof {
                assert(p =~= recorded_since(t0, tb).push(self.transfers().last()));
                assert(self.transfers().subrange(0, t0.len() as int) =~= tb.subrange(
                    0,
                    t0.len() as int,
                ));
                assert(t0.is_prefix_of(self.transfers()));
                assert(self.waits() == wb);
            }
            let s = match res {
                Ok(s) => s,
                Err(e) => {
                    return Err(Error::Bus(e));
                },
            };
            if !s.contains(BUSY) {
                return Ok(s);
            }
            polls = polls + 1;
            if polls == MAX_STATUS_POLLS {
                return Err(Error::Timeout);
            }
            self.delay.delay_ms(POLL_INTERVAL_MS);
            proof {
                assert(self.waits() == wb.push(POLL_INTERVAL_MS));
                assert(recorded_since(w0, self.waits()) =~= recorded_since(w0, wb).push(
                    POLL_INTERVAL_MS,
                ));
                assert(poll_waits(polls as nat) =~= poll_waits((polls - 1) as nat).push(
                    POLL_INTERVAL_MS,
                ));
                assert(recorded_since(w0, self.waits()) =~= poll_waits(polls as nat));
                assert(self.waits().subrange(0, w0.len() as int) =~= wb.subrange(
                    0,
                    w0.len() as int,
                ));
            }
        }
    }

    /// Rewrites the calibration constants of register `reg`: writes a probe,
    /// reads the register's three bytes back, and writes two of them back
    /// behind the rewrite command, waiting after each step.
    pub fn reset_register(&mut self, reg: u8) -> (r: Result<(), I2C::Error>)
        ensures
            old(self).transfers().is_prefix_of(final(self).transfers()),
            old(self).waits().is_prefix_of(final(self).waits()),
            register_reset_run(
                reg,
                recorded_since(old(self).transfers(), final(self).transfers()),
                recorded_since(old(self).waits(), final(self).waits()),
                r is Ok,
            ),
    {
        let ghost t0 = self.transfers();
        let ghost w0 = self.waits();
        let probe = [reg, 0x00u8, 0x00u8];
        let res = self.i2c.write(AHT20_ADDRESS, &probe);
        let ghost ta = self.transfers();
        proof {
            assert(probe@ =~= register_probe(reg));
            assert(recorded_since(t0, ta) =~= seq![ta[ta.len() - 1]]);
            assert(recorded_since(w0, self.waits()) =~= step_waits(0));
        }
        if let Err(e) = res {
            return Err(e);
        }
        self.delay.delay_ms(REGISTER_STEP_MS);
        let mut buf = [0u8; 3];
        let res = self.i2c.read(AHT20_ADDRESS, &mut buf);
        let ghost tb = self.transfers();
        proof {
            assert(recorded_since(t0, tb) =~= seq![ta[ta.len() - 1], tb[tb.len() - 1]]);
            assert(recorded_since(w0, self.waits()) =~= step_waits(1));
        }
        if let Err(e) = res {
            return Err(e);
        }
        self.delay.delay_ms(REGISTER_STEP_MS);
        let rewrite = [0xB0u8 | reg, buf[1], buf[2]];
        let res = self.i2c.write(AHT20_ADDRESS, &rewrite);
        let ghost tc = self.transfers();
        proof {
            assert(rewrite@ =~= register_rewrite(reg, buf@));
            assert(recorded_since(t0, tc) =~= seq![
                ta[ta.len() - 1],
                tb[tb.len() - 1],
                tc[tc.len() - 1],
            ]);
            assert(recorded_since(w0, self.waits()) =~= step_waits(2));
        }
        if let Err(e) = res {
            return Err(e);
        }
        self.delay.delay_ms(REGISTER_STEP_MS);
        proof {
            assert(recorded_since(w0, self.waits()) =~= step_waits(3));
        }
        Ok(())
    }

    /// Rewrites the calibration constants of registers 0x1B, 0x1C and 0x1E in
    /// turn, stopping at the first failure.
    pub fn reset_registers(&mut self) -> (r: Result<(), I2C::Error>)
        ensures
            old(self).transfers().is_prefix_of(final(self).transfers()),
            old(self).waits().is_prefix_of(final(self).waits()),
            register_resets_run(
                calibration_registers(),
                recorded_since(old(self).transfers(), final(self).transfers()),
                recorded_since(old(self).waits(), final(self).waits()),
                r is Ok,
            ),
    {
        let ghost t0 = self.transfers();
        let ghost w0 = self.waits();
        let ghost regs = calibration_registers();
        let r1 = self.reset_register(0x1B);
        let ghost t1 = self.transfers();
        let ghost w1 = self.waits();
        if r1.is_err() {
            proof {
                assert(regs =~= seq![0x1Bu8] + regs.drop_first());
                assert(recorded_since(t0, t1) + Seq::<Transfer>::empty() =~= recorded_since(t0, t1));
                assert(recorded_since(w0, w1) + Seq::<u16>::empty() =~= recorded_since(w0, w1));
                lemma_register_resets_cons(
                    0x1B,
                    regs.drop_first(),
                    recorded_since(t0, t1),
                    recorded_since(w0, w1),
                    false,
                    Seq::empty(),
                    Seq::empty(),
                    false,
                );
            }
            return r1;
        }
        let r2 = self.reset_register(0x1C);
        let ghost t2 = self.transfers();
        let ghost w2 = self.waits();
        if r2.is_err() {
            proof {
                assert(regs =~= seq![0x1Bu8] + (seq![0x1Cu8] + seq![0x1Eu8]));
                lemma_recorded_since_concat(t0, t1, t2);
                lemma_recorded_since_concat(w0, w1, w2);
                assert(recorded_since(t1, t2) + Seq::<Transfer>::empty() =~= recorded_since(t1, t2));
                assert(recorded_since(w1, w2) + Seq::<u16>::empty() =~= recorded_since(w1, w2));
                lemma_register_resets_cons(
                    0x1C,
                    seq![0x1Eu8],
                    recorded_since(t1, t2),
                    recorded_since(w1, w2),
                    false,
                    Seq::empty(),
                    Seq::empty(),
                    false,
                );
                lemma_register_resets_cons(
                    0x1B,
                    seq![0x1Cu8] + seq![0x1Eu8],
                    recorded_since(t0, t1),
                    recorded_since(w0, w1),
                    true,
                    recorded_since(t1, t2),
                    recorded_since(w1, w2),
                    false,
                );
            }
            return r2;
        }
        let r3 = self.reset_register(0x1E);
        let ghost t3 = self.transfers();
        let ghost w3 = self.waits();
        proof {
            let ok = r3 is Ok;
            assert(regs =~= seq![0x1Bu8] + (seq![0x1Cu8] + (seq![0x1Eu8] + Seq::empty())));
            lemma_recorded_since_concat(t0, t1, t2);
            lemma_recorded_since_concat(w0, w1, w2);
            lemma_recorded_since_concat(t1, t2, t3);
            lemma_recorded_since_concat(w1, w2, w3);
            lemma_recorded_since_concat(t0, t1, t3);
            lemma_recorded_since_concat(w0, w1, w3);
            assert(recorded_since(t2, t3) + Seq::<Transfer>::empty() =~= recorded_since(t2, t3));
            assert(recorded_since(w2, w3) + Seq::<u16>::empty() =~= recorded_since(w2, w3));
            assert(register_resets_run(Seq::empty(), Seq::empty(), Seq::empty(), true));
            lemma_register_resets_cons(
                0x1E,
                Seq::empty(),
                recorded_since(t2, t3),
                recorded_since(w2, w3),
                ok,
                Seq::empty(),
                Seq::empty(),
                ok,
            );
            lemma_register_resets_cons(
                0x1C,
                seq![0x1Eu8] + Seq::empty(),
                recorded_since(t1, t2),
                recorded_since(w1, w2),
                true,
                recorded_since(t2, t3),
                recorded_since(w2, w3),
                ok,
            );
            lemma_register_resets_cons(
                0x1B,
                seq![0x1Cu8] + (seq![0x1Eu8] + Seq::empty()),
                recorded_since(t0, t1),
                recorded_since(w0, w1),
                true,
                recorded_since(t1, t3),
                recorded_since(w1, w3),
                ok,
            );
        }
        r3
    }

    /// Starts a calibration, waits until the sensor is no longer busy, and
    /// checks that it then reports itself calibrated.
    pub fn calibrate(&mut self) -> (r: Result<(), Error<I2C::Error>>)
        ensures
            old(self).transfers().is_prefix_of(final(self).transfers()),
            old(self).waits().is_prefix_of(final(self).waits()),
            calibrate_run(
                recorded_since(old(self).transfers(), final(self).transfers()),
                recorded_since(old(self).waits(), final(self).waits()),
                r,
            ),
    {
        let cmd = [0xE1u8, 0x08u8, 0x00u8];
        let res = self.i2c.write(AHT20_ADDRESS, &cmd);
        let ghost t1 = self.transfers();
        let ghost w1 = self.waits();
        proof {
            assert(cmd@ =~= calibrate_command());
            assert(recorded_since(old(self).transfers(), t1) =~= seq![t1.last()]);
            assert(old(self).transfers().is_prefix_of(t1));
            assert(recorded_since(old(self).waits(), w1) =~= seq![]);
        }
        if let Err(e) = res {
            return Err(Error::Bus(e));
        }
        let polled = self.wait_until_idle();
        proof {
            lemma_recorded_since_concat(old(self).transfers(), t1, self.transfers());
            lemma_recorded_since_concat(old(self).waits(), w1, self.waits());
            let t = recorded_since(old(self).transfers(), self.transfers());
            assert(t.drop_first() =~= recorded_since(t1, self.transfers()));
            assert(recorded_since(old(self).waits(), self.waits()) =~= recorded_since(
                w1,
                self.waits(),
            ));
        }
        let status = match polled {
            Ok(s) => s,
            Err(e) => {
                return Err(e);
            },
        };
        if !status.contains(CALIBRATION_ENABLE) {
            return Err(Error::Uncalibrated);
        }
        Ok(())
    }

    /// Starts a measurement, waits until the sensor is no longer busy, reads
    /// the frame, checks its checksum and the calibration flag, and unpacks
    /// the humidity and temperature readings.
    pub fn read(&mut self) -> (r: Result<(Humidity, Temperature), Error<I2C::Error>>)
        ensures
            old(self).transfers().is_prefix_of(final(self).transfers()),
            old(self).waits().is_prefix_of(final(self).waits()),
            measurement_run(
                recorded_since(old(self).transfers(), final(self).transfers()),
                recorded_since(old(self).waits(), final(self).waits()),
                r,
            ),
    {
        let cmd = [0xACu8, 0x33u8, 0x00u8];
        let res = self.i2c.write(AHT20_ADDRESS, &cmd);
        let ghost t1 = self.transfers();
        let ghost w1 = self.waits();
        proof {
            assert(cmd@ =~= measure_command());
            assert(recorded_since(old(self).transfers(), t1) =~= seq![t1.last()]);
            assert(old(self).transfers().is_prefix_of(t1));
            assert(recorded_since(old(self).waits(), w1) =~= seq![]);
        }
        if let Err(e) = res {
            return Err(Error::Bus(e));
        }
        let polled = self.wait_until_idle();
        let ghost t2 = self.transfers();
        let ghost w2 = self.waits();
        proof {
            lemma_recorded_since_concat(old(self).transfers(), t1, t2);
            lemma_recorded_since_concat(old(self).waits(), w1, w2);
            let t = recorded_since(old(self).transfers(), t2);
            assert(t.drop_first() =~= recorded_since(t1, t2));
            assert(recorded_since(old(self).waits(), w2) =~= recorded_since(w1, w2));
        }
        if let Err(e) = polled {
            return Err(e);
        }
        let mut buf = [0u8; 7];
        let read = self.i2c.read(AHT20_ADDRESS, &mut buf);
        proof {
            let t = recorded_since(old(self).transfers(), self.transfers());
            assert(self.transfers() == t2.push(self.transfers().last()));
            assert(self.waits() == w2);
            assert(t =~= recorded_since(old(self).transfers(), t2).push(self.transfers().last()));
            assert(t.subrange(1, t.len() - 1) =~= recorded_since(t1, t2));
            assert(old(self).transfers().is_prefix_of(self.transfers()));
        }
        if let Err(e) = read {
            return Err(Error::Bus(e));
        }
        let crc = crc8(vstd::slice::slice_subrange(&buf, 0, 6));
        decode_measurement(&buf, crc)
    }

    /// Soft-resets the sensor: writes the reset command and waits its settle
    /// time.
    pub fn reset(&mut self) -> (r: Result<(), I2C::Error>)
        ensures
            final(self).transfers() == old(self).transfers().push(
                Transfer::Write { addr: AHT20_ADDRESS, out: seq![0xBAu8], ok: r is Ok },
            ),
            final(self).waits() == if r is Ok {
                old(self).waits().push(RESET_SETTLE_MS)
            } else {
                old(self).waits()
            },
    {
        let cmd = [0xBAu8];
        let res = self.i2c.write(AHT20_ADDRESS, &cmd);
        proof {
            assert(cmd@ =~= seq![0xBAu8]);
        }
        match res {
            Ok(()) => {
                self.delay.delay_ms(RESET_SETTLE_MS);
                Ok(())
            },
            Err(e) => Err(e),
        }
    }
}

} // verus!
