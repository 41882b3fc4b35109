//! The two capabilities that the drivers borrow: a byte-addressed I2C bus and a
//! blocking millisecond delay. Each keeps a ghost record of what was done with
//! it, over which the drivers state their contracts.

use vstd::prelude::*;

verus! {

/// One exchange on the bus, as seen by the controller.
pub enum Transfer {
    /// Bytes written to a device.
    Write { addr: u8, out: Seq<u8>, ok: bool },
    /// Bytes read back from a device (what the buffer held afterwards).
    Read { addr: u8, data: Seq<u8>, ok: bool },
    /// A write followed, in one transaction, by a read.
    WriteRead { addr: u8, out: Seq<u8>, data: Seq<u8>, ok: bool },
}

/// A blocking I2C bus with write, read and combined write-then-read.
pub trait I2cBus {
    /// What the bus reports when a transfer fails.
    type Error;

    /// Every transfer made on this bus so far, oldest first. This record is
    /// ghost state for the contracts. A verified implementation overrides it
    /// with a log that it keeps; one written outside verified code cannot
    /// build such a log and takes this default, which the contracts below
    /// never meet: it is trusted to act as if it kept the log.
    closed spec fn transfers(&self) -> Seq<Transfer> {
        Seq::empty()
    }

    /// Writes `out` to the device at `addr`.
    fn write(&mut self, addr: u8, out: &[u8]) -> (r: Result<(), Self::Error>)
        ensures
            final(self).transfers() == old(self).transfers().push(
                Transfer::Write { addr, out: out@, ok: r is Ok },
            ),
    ;

    /// Fills `buf` from the device at `addr`.
    fn read(&mut self, addr: u8, buf: &mut [u8]) -> (r: Result<(), Self::Error>)
        ensures
            final(buf)@.len() == old(buf)@.len(),
            final(self).transfers() == old(self).transfers().push(
                Transfer::Read { addr, data: final(buf)@, ok: r is Ok },
            ),
    ;

    /// Writes `out` to the device at `addr`, then fills `buf` from it.
    fn write_read(&mut self, addr: u8, out: &[u8], buf: &mut [u8]) -> (r: Result<(), Self::Error>)
        ensures
            final(buf)@.len() == old(buf)@.len(),
            final(self).transfers() == old(self).transfers().push(
                Transfer::WriteRead { addr, out: out@, data: final(buf)@, ok: r is Ok },
            ),
    ;
}

/// A blocking delay.
pub trait DelayMs {
    /// Every wait made so far, in milliseconds, oldest first; ghost state
    /// for the contracts, like the record of a bus: an implementation outside
    /// verified code takes this default and is trusted to act as if it kept
    /// the log.
    closed spec fn waits(&self) -> Seq<u16> {
        Seq::empty()
    }

    /// Blocks for `ms` milliseconds.
    fn delay_ms(&mut self, ms: u16)
        ensures
            final(self).waits() == old(self).waits().push(ms),
    ;
}

} // verus!

verus! {

/// The entries of `after` that follow its first `before.len()` ones: what was
/// recorded between two observations of a log.
pub open spec fn recorded_since<T>(before: Seq<T>, after: Seq<T>) -> Seq<T> {
    after.subrange(before.len() as int, after.len() as int)
}

/// What was recorded over two consecutive stretches is what was recorded over
/// the first followed by what was recorded over the second.
pub proof fn lemma_recorded_since_concat<T>(a: Seq<T>, b: Seq<T>, c: Seq<T>)
    requires
        a.is_prefix_of(b),
        b.is_prefix_of(c),
    ensures
        a.is_prefix_of(c),
        recorded_since(a, c) == recorded_since(a, b) + recorded_since(b, c),
{
    assert(c.subrange(0, a.len() as int) =~= b.subrange(0, a.len() as int));
    assert(recorded_since(a, c) =~= recorded_since(a, b) + recorded_since(b, c));
}

} // verus!
