//! Ghost model of the driver's interaction with its collaborators.
//!
//! Every call the driver makes to the bus transport, the write-protect
//! line, or the time source is recorded as a [`BusEvent`] in a ghost
//! history. The spec functions here describe the exact event sequences
//! each operation produces, the page-splitting of multi-byte writes,
//! the write-protect discipline, and an interpretation of write
//! transactions on a device memory whose write pointer wraps within a
//! page, used to state the read-back law.

use vstd::prelude::*;

verus! {

/// Total number of addressable bytes on the device.
pub const AVAILABLE_STORAGE: usize = 64000;

/// Size of one internal page: a single write transaction must not
/// cross a boundary between two pages.
pub const PAGESIZE: usize = 128;

/// Default bus address of the device.
pub const DEFAULT_ADDRESS: u8 = 0x50;

/// Duration, in milliseconds, of the settle wait after a page write.
pub const SETTLE_MILLISECONDS: u32 = 5;

/// One observable action of the driver towards its collaborators.
pub enum BusEvent {
    /// The write-protect line was driven to the "writes enabled" level.
    WpEnable,
    /// The write-protect line was driven to the "writes disabled" level.
    WpDisable,
    /// A write transaction carrying `bytes` was issued to bus address `address`.
    BusWrite { address: u8, bytes: Seq<u8> },
    /// A combined write-then-read transaction: `written` was sent to
    /// `address` with `read_len` bytes requested back, and the
    /// transport answered with `read` — one byte per byte requested on
    /// success, empty when the transaction failed.
    BusWriteRead { address: u8, written: Seq<u8>, read_len: nat, read: Seq<u8> },
    /// The driver blocked on the time source for the settle duration.
    SettleWait,
}

/// The big-endian two-byte encoding of a device offset.
pub open spec fn be_bytes(offset: int) -> Seq<u8> {
    seq![(offset / 256) as u8, (offset % 256) as u8]
}

/// The offset encoded by two big-endian bytes.
pub open spec fn be_offset(hi: u8, lo: u8) -> int {
    hi * 256 + lo
}

/// Length of the next write chunk: the remaining data, clipped so the
/// chunk does not run past the end of the page containing `offset`.
pub open spec fn chunk_len(offset: int, remaining: int) -> int {
    let room: int = PAGESIZE - offset % (PAGESIZE as int);
    if remaining < room {
        remaining
    } else {
        room
    }
}

/// One physical write transaction of a multi-byte write: `payload`
/// is to be stored starting at device offset `start`.
pub struct Chunk {
    pub start: int,
    pub payload: Seq<u8>,
}

/// The chunks a write of `data` starting at `offset` is split into.
pub open spec fn chunks_of(offset: int, data: Seq<u8>) -> Seq<Chunk>
    decreases data.len(),
{
    if data.len() == 0 {
        Seq::empty()
    } else {
        let l: int = chunk_len(offset, data.len() as int);
        seq![Chunk { start: offset, payload: data.take(l) }] + chunks_of(offset + l, data.skip(l))
    }
}

/// Concatenation of the payloads of a chunk sequence.
pub open spec fn concat_payloads(cs: Seq<Chunk>) -> Seq<u8>
    decreases cs.len(),
{
    if cs.len() == 0 {
        Seq::empty()
    } else {
        cs[0].payload + concat_payloads(cs.skip(1))
    }
}

/// Events of one successfully written chunk: enable write-protect
/// override, issue the transaction, wait out the write cycle, restore
/// write protection.
pub open spec fn chunk_ok_events(address: u8, offset: int, payload: Seq<u8>) -> Seq<BusEvent> {
    seq![
        BusEvent::WpEnable,
        BusEvent::BusWrite { address, bytes: be_bytes(offset) + payload },
        BusEvent::SettleWait,
        BusEvent::WpDisable,
    ]
}

/// Events of a chunk whose transaction failed: write protection is
/// restored immediately, without the settle wait.
pub open spec fn chunk_err_events(address: u8, offset: int, payload: Seq<u8>) -> Seq<BusEvent> {
    seq![
        BusEvent::WpEnable,
        BusEvent::BusWrite { address, bytes: be_bytes(offset) + payload },
        BusEvent::WpDisable,
    ]
}

/// The full event sequence of a multi-byte write that succeeds.
pub open spec fn write_data_events(address: u8, offset: int, data: Seq<u8>) -> Seq<BusEvent>
    decreases data.len(),
{
    if data.len() == 0 {
        Seq::empty()
    } else {
        let l: int = chunk_len(offset, data.len() as int);
        chunk_ok_events(address, offset, data.take(l)) + write_data_events(
            address,
            offset + l,
            data.skip(l),
        )
    }
}

/// Holds when `es` is the event sequence of a multi-byte write that was
/// cut short by a transport failure: zero or more complete chunks in
/// offset order, then one chunk whose transaction failed.
pub open spec fn is_partial_write_events(
    address: u8,
    offset: int,
    data: Seq<u8>,
    es: Seq<BusEvent>,
) -> bool
    decreases data.len(),
{
    if data.len() == 0 {
        false
    } else {
        let l: int = chunk_len(offset, data.len() as int);
        let p: Seq<u8> = data.take(l);
        es == chunk_err_events(address, offset, p) || (es.len() >= 4 && es.take(4)
            == chunk_ok_events(address, offset, p) && is_partial_write_events(
            address,
            offset + l,
            data.skip(l),
            es.skip(4),
        ))
    }
}

/// The event sequence of a single-byte write (no settle wait).
pub open spec fn write_byte_events(address: u8, offset: int, value: u8) -> Seq<BusEvent> {
    seq![
        BusEvent::WpEnable,
        BusEvent::BusWrite { address, bytes: be_bytes(offset).push(value) },
        BusEvent::WpDisable,
    ]
}

/// The event sequence of a read of `read_len` bytes from `offset` to
/// which the transport answered `read`.
pub open spec fn read_events(address: u8, offset: int, read_len: nat, read: Seq<u8>) -> Seq<
    BusEvent,
> {
    seq![BusEvent::BusWriteRead { address, written: be_bytes(offset), read_len, read }]
}

/// The events of writing each chunk in turn, all successfully.
pub open spec fn events_of_chunks(address: u8, cs: Seq<Chunk>) -> Seq<BusEvent>
    decreases cs.len(),
{
    if cs.len() == 0 {
        Seq::empty()
    } else {
        chunk_ok_events(address, cs[0].start, cs[0].payload) + events_of_chunks(
            address,
            cs.skip(1),
        )
    }
}

/// Level of the write-protect override after `es`, starting from `init`
/// (`true` means writes are enabled).
pub open spec fn wp_enabled_after(init: bool, es: Seq<BusEvent>) -> bool
    decreases es.len(),
{
    if es.len() == 0 {
        init
    } else {
        let next: bool = match es[0] {
            BusEvent::WpEnable => true,
            BusEvent::WpDisable => false,
            _ => init,
        };
        wp_enabled_after(next, es.skip(1))
    }
}

/// Holds when every write transaction in `es` is issued while the
/// write-protect override is at the "writes enabled" level.
pub open spec fn writes_protected(init: bool, es: Seq<BusEvent>) -> bool
    decreases es.len(),
{
    if es.len() == 0 {
        true
    } else {
        let next: bool = match es[0] {
            BusEvent::WpEnable => true,
            BusEvent::WpDisable => false,
            _ => init,
        };
        (es[0] is BusWrite ==> init) && writes_protected(next, es.skip(1))
    }
}

/// The write-protect discipline over a whole history: every write
/// transaction happens under an enable that precedes it, and the line
/// is back at the protected level once the history is over.
pub open spec fn wp_discipline(es: Seq<BusEvent>) -> bool {
    writes_protected(false, es) && !wp_enabled_after(false, es)
}

/// `mem` with `data` stored at offsets `offset ..`.
pub open spec fn splice(mem: Seq<u8>, offset: int, data: Seq<u8>) -> Seq<u8> {
    mem.take(offset) + data + mem.skip(offset + data.len())
}

/// Where the `i`th payload byte of a write transaction starting at
/// `start` lands: the device's internal write pointer wraps within the
/// page of `start`, so a transaction that runs past the page boundary
/// folds back to the beginning of that same page.
pub open spec fn wrapped_index(start: int, i: int) -> int {
    let base: int = start - start % (PAGESIZE as int);
    base + (start % (PAGESIZE as int) + i) % (PAGESIZE as int)
}

/// `mem` after payload bytes `p` at positions `i` and beyond are stored
/// from `start` with the wrapping write pointer. A byte whose wrapped
/// position falls outside memory is dropped.
pub open spec fn store_wrapped_from(mem: Seq<u8>, start: int, p: Seq<u8>, i: int) -> Seq<u8>
    decreases p.len() - i,
{
    if i < 0 || i >= p.len() {
        mem
    } else {
        let j: int = wrapped_index(start, i);
        let next: Seq<u8> = if 0 <= j < mem.len() {
            mem.update(j, p[i])
        } else {
            mem
        };
        store_wrapped_from(next, start, p, i + 1)
    }
}

/// `mem` after one write transaction of payload `p` starting at
/// `start`, with the wrapping write pointer.
pub open spec fn store_wrapped(mem: Seq<u8>, start: int, p: Seq<u8>) -> Seq<u8> {
    store_wrapped_from(mem, start, p, 0)
}

/// Effect of one write transaction's byte buffer on a device whose
/// memory is `mem`: the first two bytes select the starting offset, and
/// the rest is stored from there with the wrapping write pointer. A
/// buffer without the two offset bytes changes nothing.
pub open spec fn apply_write(mem: Seq<u8>, bytes: Seq<u8>) -> Seq<u8> {
    if bytes.len() >= 2 {
        store_wrapped(mem, be_offset(bytes[0], bytes[1]), bytes.skip(2))
    } else {
        mem
    }
}

/// Device memory after the write transactions of `es` are applied, in
/// order, to a device whose memory was `mem`.
pub open spec fn mem_after(mem: Seq<u8>, es: Seq<BusEvent>) -> Seq<u8>
    decreases es.len(),
{
    if es.len() == 0 {
        mem
    } else {
        let next: Seq<u8> = match es[0] {
            BusEvent::BusWrite { address: _, bytes } => apply_write(mem, bytes),
            _ => mem,
        };
        mem_after(next, es.skip(1))
    }
}

/// Holds when every answered write-then-read transaction in `es`
/// returned exactly the device memory at the offset it addressed, as
/// left by the transactions before it. This is what a correct device
/// does; the driver cannot enforce it, only reason under it.
pub open spec fn device_faithful_from(mem: Seq<u8>, es: Seq<BusEvent>) -> bool
    decreases es.len(),
{
    if es.len() == 0 {
        true
    } else {
        let head_ok: bool = match es[0] {
            BusEvent::BusWriteRead { address: _, written, read_len: _, read } => read.len() > 0
                ==> (written.len() == 2 && {
                let o: int = be_offset(written[0], written[1]);
                o + read.len() <= mem.len() && read == mem.subrange(o, o + read.len())
            }),
            _ => true,
        };
        let next: Seq<u8> = match es[0] {
            BusEvent::BusWrite { address: _, bytes } => apply_write(mem, bytes),
            _ => mem,
        };
        head_ok && device_faithful_from(next, es.skip(1))
    }
}

} // verus!
