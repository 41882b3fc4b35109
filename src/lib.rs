//! Drivers for an AGS02MA gas/TVOC sensor and an AHT20 humidity/temperature
//! sensor, written against small bus and delay abstractions so that every
//! exchange with the device is described by the drivers' contracts.

pub mod aht20;
pub mod ags02ma;
pub mod bus;
pub mod checksum;
pub mod delay_share;
