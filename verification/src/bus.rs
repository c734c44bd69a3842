//! The bus transport capability the driver is parameterized over.

use vstd::prelude::*;

verus! {

/// A two-wire bus master able to address the device: it can write a
/// byte buffer, and it can perform a combined write-then-read
/// transaction. Implementations supply the real bus (a hardware
/// peripheral, or a test double); the driver promises nothing about
/// whether a transaction succeeds.
pub trait I2cTransport {
    /// Error of a plain write transaction.
    type WriteError;

    /// Error of a combined write-then-read transaction.
    type ReadError;

    /// Write `bytes` to the device at `address` in one transaction.
    fn transport_write(&mut self, address: u8, bytes: &[u8]) -> Result<(), Self::WriteError>;

    /// Write `written` to the device at `address`, then read exactly
    /// `read_len` bytes back, in one combined transaction.
    ///
    /// A successful result carries one byte per byte requested: the
    /// destination buffer is sized by the caller, so the bus cannot
    /// return more or fewer.
    fn transport_write_read(&mut self, address: u8, written: &[u8], read_len: usize) -> (r:
        Result<Vec<u8>, Self::ReadError>)
        ensures
            r matches Ok(v) ==> v@.len() == read_len,
    ;
}

} // verus!
