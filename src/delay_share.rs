//! Lending one delay to a driver for the span of one operation.

use vstd::prelude::*;
use crate::bus::DelayMs;

verus! {

/// A delay borrowed for one driver's operation. While it lives, the delay it
/// lends cannot be used by anyone else: two drivers cannot hold it at once.
pub struct DelayShare<'a, D> {
    delay_bit: &'a mut D,
}

impl<'a, D: DelayMs> DelayShare<'a, D> {
    /// Lends `delay_bit` until the share is dropped.
    pub fn new(delay_bit: &'a mut D) -> (r: Self)
        ensures
            r.waits() == old(delay_bit).waits(),
    {
        DelayShare { delay_bit }
    }
}

impl<'a, D: DelayMs> DelayMs for DelayShare<'a, D> {
    closed spec fn waits(&self) -> Seq<u16> {
        self.delay_bit.waits()
    }

    fn delay_ms(&mut self, ms: u16) {
        self.delay_bit.delay_ms(ms);
    }
}

} // verus!
