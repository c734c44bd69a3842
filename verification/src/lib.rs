//! Verified driver for a 64,000-byte serial EEPROM on a two-wire bus.
//!
//! The driver validates address ranges, splits multi-byte writes at the
//! device's internal 128-byte page boundaries, sequences a hardware
//! write-protect line around every write transaction, and waits out the
//! device's write-cycle latency after each page write. A ghost history
//! of bus events lets the contracts pin down exactly which transactions
//! each operation issues and what each read returned.



pub mod bus;
pub mod driver;
pub mod laws;
pub mod model;
