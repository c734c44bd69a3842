//! Proved laws about the event model: how the write-protect discipline
//! and the device-memory interpretation compose over event sequences,
//! the page-split law, and the read-back (round-trip) law.

use vstd::prelude::*;

use crate::model::AVAILABLE_STORAGE;
use crate::model::BusEvent;
use crate::model::PAGESIZE;
use crate::model::apply_write;
use crate::model::be_bytes;
use crate::model::be_offset;
use crate::model::chunk_err_events;
use crate::model::chunk_len;
use crate::model::chunk_ok_events;
use crate::model::chunks_of;
use crate::model::device_faithful_from;
use crate::model::concat_payloads;
use crate::model::events_of_chunks;
use crate::model::is_partial_write_events;
use crate::model::mem_after;
use crate::model::read_events;
use crate::model::splice;
use crate::model::store_wrapped_from;
use crate::model::wrapped_index;
use crate::model::wp_discipline;
use crate::model::wp_enabled_after;
use crate::model::write_byte_events;
use crate::model::write_data_events;
use crate::model::writes_protected;

verus! {

/// The write-protect level after `a + b` is the level after running `b`
/// from the level reached after `a`.
pub proof fn lemma_wp_enabled_after_concat(init: bool, a: Seq<BusEvent>, b: Seq<BusEvent>)
    ensures
        wp_enabled_after(init, a + b) == wp_enabled_after(wp_enabled_after(init, a), b),
    decreases a.len(),
{
    if a.len() == 0 {
        assert(a + b =~= b);
    } else {
        let next: bool = match a[0] {
            BusEvent::WpEnable => true,
            BusEvent::WpDisable => false,
            _ => init,
        };
        assert((a + b).skip(1) =~= a.skip(1) + b);
        lemma_wp_enabled_after_concat(next, a.skip(1), b);
    }
}

/// Write protection over `a + b` decomposes at the junction.
pub proof fn lemma_writes_protected_concat(init: bool, a: Seq<BusEvent>, b: Seq<BusEvent>)
    ensures
        writes_protected(init, a + b) == (writes_protected(init, a) && writes_protected(
            wp_enabled_after(init, a),
            b,
        )),
    decreases a.len(),
{
    if a.len() == 0 {
        assert(a + b =~= b);
    } else {
        let next: bool = match a[0] {
            BusEvent::WpEnable => true,
            BusEvent::WpDisable => false,
            _ => init,
        };
        assert((a + b).skip(1) =~= a.skip(1) + b);
        lemma_writes_protected_concat(next, a.skip(1), b);
    }
}

/// The events of one completed chunk keep the write transaction under
/// an asserted enable and end with protection restored.
pub proof fn lemma_chunk_ok_events_scoped(address: u8, offset: int, payload: Seq<u8>)
    ensures
        writes_protected(false, chunk_ok_events(address, offset, payload)),
        !wp_enabled_after(false, chunk_ok_events(address, offset, payload)),
{
    let es = chunk_ok_events(address, offset, payload);
    let s1 = seq![
        BusEvent::BusWrite { address, bytes: be_bytes(offset) + payload },
        BusEvent::SettleWait,
        BusEvent::WpDisable,
    ];
    let s2 = seq![BusEvent::SettleWait, BusEvent::WpDisable];
    let s3 = seq![BusEvent::WpDisable];
    let s4 = Seq::<BusEvent>::empty();
    assert(es.skip(1) =~= s1);
    assert(s1.skip(1) =~= s2);
    assert(s2.skip(1) =~= s3);
    assert(s3.skip(1) =~= s4);
    assert(writes_protected(false, s4) && !wp_enabled_after(false, s4));
    assert(writes_protected(true, s3) && !wp_enabled_after(true, s3));
    assert(writes_protected(true, s2) && !wp_enabled_after(true, s2));
    assert(writes_protected(true, s1) && !wp_enabled_after(true, s1));
}

/// The events of a chunk whose transaction failed likewise keep the
/// write under the enable and end with protection restored.
pub proof fn lemma_chunk_err_events_scoped(address: u8, offset: int, payload: Seq<u8>)
    ensures
        writes_protected(false, chunk_err_events(address, offset, payload)),
        !wp_enabled_after(false, chunk_err_events(address, offset, payload)),
{
    let es = chunk_err_events(address, offset, payload);
    let s1 = seq![
        BusEvent::BusWrite { address, bytes: be_bytes(offset) + payload },
        BusEvent::WpDisable,
    ];
    let s2 = seq![BusEvent::WpDisable];
    let s3 = Seq::<BusEvent>::empty();
    assert(es.skip(1) =~= s1);
    assert(s1.skip(1) =~= s2);
    assert(s2.skip(1) =~= s3);
    assert(writes_protected(false, s3) && !wp_enabled_after(false, s3));
    assert(writes_protected(true, s2) && !wp_enabled_after(true, s2));
    assert(writes_protected(true, s1) && !wp_enabled_after(true, s1));
}

/// A single-byte write keeps its transaction under the enable and ends
/// with protection restored.
pub proof fn lemma_write_byte_events_scoped(address: u8, offset: int, value: u8)
    ensures
        writes_protected(false, write_byte_events(address, offset, value)),
        !wp_enabled_after(false, write_byte_events(address, offset, value)),
{
    let es = write_byte_events(address, offset, value);
    let s1 = seq![
        BusEvent::BusWrite { address, bytes: be_bytes(offset).push(value) },
        BusEvent::WpDisable,
    ];
    let s2 = seq![BusEvent::WpDisable];
    let s3 = Seq::<BusEvent>::empty();
    assert(es.skip(1) =~= s1);
    assert(s1.skip(1) =~= s2);
    assert(s2.skip(1) =~= s3);
    assert(writes_protected(false, s3) && !wp_enabled_after(false, s3));
    assert(writes_protected(true, s2) && !wp_enabled_after(true, s2));
    assert(writes_protected(true, s1) && !wp_enabled_after(true, s1));
}

/// A read issues no write transaction and leaves the line untouched.
pub proof fn lemma_read_events_scoped(address: u8, offset: int, read_len: nat, read: Seq<u8>)
    ensures
        writes_protected(false, read_events(address, offset, read_len, read)),
        !wp_enabled_after(false, read_events(address, offset, read_len, read)),
{
    let es = read_events(address, offset, read_len, read);
    let s1 = Seq::<BusEvent>::empty();
    assert(es.skip(1) =~= s1);
    assert(!wp_enabled_after(false, s1));
    assert(writes_protected(false, s1));
}

/// Write-protect law, complete writes: every write transaction of a
/// multi-byte write happens while the enable is asserted, and the line
/// is back at the protected level when the operation is over.
pub proof fn lemma_write_data_events_scoped(address: u8, offset: int, data: Seq<u8>)
    ensures
        writes_protected(false, write_data_events(address, offset, data)),
        !wp_enabled_after(false, write_data_events(address, offset, data)),
    decreases data.len(),
{
    if data.len() == 0 {
    } else {
        let l: int = chunk_len(offset, data.len() as int);
        let first = chunk_ok_events(address, offset, data.take(l));
        let rest = write_data_events(address, offset + l, data.skip(l));
        lemma_chunk_ok_events_scoped(address, offset, data.take(l));
        lemma_write_data_events_scoped(address, offset + l, data.skip(l));
        lemma_writes_protected_concat(false, first, rest);
        lemma_wp_enabled_after_concat(false, first, rest);
    }
}

/// Write-protect law, failed writes: even when a transport failure cuts
/// a multi-byte write short, every transaction issued up to that point
/// was under the enable, and protection is restored at the end.
pub proof fn lemma_partial_write_events_scoped(
    address: u8,
    offset: int,
    data: Seq<u8>,
    es: Seq<BusEvent>,
)
    requires
        is_partial_write_events(address, offset, data, es),
    ensures
        writes_protected(false, es),
        !wp_enabled_after(false, es),
    decreases data.len(),
{
    let l: int = chunk_len(offset, data.len() as int);
    let p: Seq<u8> = data.take(l);
    if es == chunk_err_events(address, offset, p) {
        lemma_chunk_err_events_scoped(address, offset, p);
    } else {
        assert(es =~= es.take(4) + es.skip(4));
        lemma_chunk_ok_events_scoped(address, offset, p);
        lemma_partial_write_events_scoped(address, offset + l, data.skip(l), es.skip(4));
        lemma_writes_protected_concat(false, es.take(4), es.skip(4));
        lemma_wp_enabled_after_concat(false, es.take(4), es.skip(4));
    }
}

/// A history obeying the write-protect discipline still obeys it after
/// a well-scoped suffix is appended.
pub proof fn lemma_wp_discipline_append(h: Seq<BusEvent>, es: Seq<BusEvent>)
    requires
        wp_discipline(h),
        writes_protected(false, es),
        !wp_enabled_after(false, es),
    ensures
        wp_discipline(h + es),
{
    lemma_writes_protected_concat(false, h, es);
    lemma_wp_enabled_after_concat(false, h, es);
}

/// Used to grow a failed-write event suffix chunk by chunk: a partial
/// write of the data past the first chunk, prefixed with that chunk's
/// completed events, is a partial write of the whole data.
pub proof fn lemma_partial_extend(address: u8, offset: int, data: Seq<u8>, tail: Seq<BusEvent>)
    requires
        data.len() > 0,
        is_partial_write_events(
            address,
            offset + chunk_len(offset, data.len() as int),
            data.skip(chunk_len(offset, data.len() as int)),
            tail,
        ),
    ensures
        is_partial_write_events(
            address,
            offset,
            data,
            chunk_ok_events(address, offset, data.take(chunk_len(offset, data.len() as int)))
                + tail,
        ),
{
    let l: int = chunk_len(offset, data.len() as int);
    let ok = chunk_ok_events(address, offset, data.take(l));
    let es = ok + tail;
    assert(es.take(4) =~= ok);
    assert(es.skip(4) =~= tail);
}

/// The write transactions a multi-byte write issues are exactly those
/// of its chunks, in chunk order.
pub proof fn lemma_write_events_follow_chunks(address: u8, offset: int, data: Seq<u8>)
    ensures
        write_data_events(address, offset, data) == events_of_chunks(
            address,
            chunks_of(offset, data),
        ),
    decreases data.len(),
{
    if data.len() == 0 {
        assert(events_of_chunks(address, chunks_of(offset, data))
            =~= write_data_events(address, offset, data));
    } else {
        let l: int = chunk_len(offset, data.len() as int);
        lemma_write_events_follow_chunks(address, offset + l, data.skip(l));
        let cs = chunks_of(offset, data);
        assert(cs.skip(1) =~= chunks_of(offset + l, data.skip(l)));
    }
}

/// Device memory after `a + b` is memory after `a`, then `b`.
pub proof fn lemma_mem_after_concat(mem: Seq<u8>, a: Seq<BusEvent>, b: Seq<BusEvent>)
    ensures
        mem_after(mem, a + b) == mem_after(mem_after(mem, a), b),
    decreases a.len(),
{
    if a.len() == 0 {
        assert(a + b =~= b);
    } else {
        let next: Seq<u8> = match a[0] {
            BusEvent::BusWrite { address: _, bytes } => apply_write(mem, bytes),
            _ => mem,
        };
        assert((a + b).skip(1) =~= a.skip(1) + b);
        lemma_mem_after_concat(next, a.skip(1), b);
    }
}

/// A payload that stays within the page of its starting offset is
/// stored linearly: the wrapping write pointer never comes into play.
proof fn lemma_store_from_in_page(mem: Seq<u8>, start: int, p: Seq<u8>, i: int)
    requires
        0 <= start,
        start % (PAGESIZE as int) + p.len() <= PAGESIZE as int,
        start + p.len() <= mem.len(),
        0 <= i <= p.len(),
    ensures
        store_wrapped_from(mem, start, p, i) == Seq::new(
            mem.len(),
            |j: int|
                if start + i <= j < start + p.len() {
                    p[j - start]
                } else {
                    mem[j]
                },
        ),
    decreases p.len() - i,
{
    let target = Seq::new(
        mem.len(),
        |j: int|
            if start + i <= j < start + p.len() {
                p[j - start]
            } else {
                mem[j]
            },
    );
    if i == p.len() {
        assert(target =~= mem);
    } else {
        assert(0 <= start % (PAGESIZE as int) < PAGESIZE as int);
        assert((start % (PAGESIZE as int) + i) % (PAGESIZE as int) == start % (PAGESIZE as int)
            + i) by {
            vstd::arithmetic::div_mod::lemma_small_mod(
                (start % (PAGESIZE as int) + i) as nat,
                PAGESIZE as nat,
            );
        }
        let j0: int = wrapped_index(start, i);
        assert(j0 == start + i);
        let next = mem.update(j0, p[i]);
        lemma_store_from_in_page(next, start, p, i + 1);
        assert(Seq::new(
            next.len(),
            |j: int|
                if start + i + 1 <= j < start + p.len() {
                    p[j - start]
                } else {
                    next[j]
                },
        ) =~= target);
    }
}

/// One in-page chunk's transaction stores its payload at its offset and
/// touches nothing else.
pub proof fn lemma_mem_after_chunk_ok(mem: Seq<u8>, address: u8, offset: int, payload: Seq<u8>)
    requires
        0 <= offset,
        0 < payload.len(),
        offset % (PAGESIZE as int) + payload.len() <= PAGESIZE as int,
        offset + payload.len() <= mem.len(),
        mem.len() <= 65536,
    ensures
        mem_after(mem, chunk_ok_events(address, offset, payload)) == splice(mem, offset, payload),
{
    let bytes = be_bytes(offset) + payload;
    let es = chunk_ok_events(address, offset, payload);
    let s1 = seq![
        BusEvent::BusWrite { address, bytes },
        BusEvent::SettleWait,
        BusEvent::WpDisable,
    ];
    let s2 = seq![BusEvent::SettleWait, BusEvent::WpDisable];
    let s3 = seq![BusEvent::WpDisable];
    let s4 = Seq::<BusEvent>::empty();
    assert(es.skip(1) =~= s1);
    assert(s1.skip(1) =~= s2);
    assert(s2.skip(1) =~= s3);
    assert(s3.skip(1) =~= s4);
    vstd::arithmetic::div_mod::lemma_fundamental_div_mod(offset, 256);
    assert(0 <= offset / 256 < 256);
    assert(bytes[0] == (offset / 256) as u8 && bytes[1] == (offset % 256) as u8);
    assert(be_offset(bytes[0], bytes[1]) == offset);
    assert(bytes.skip(2) =~= payload);
    lemma_store_from_in_page(mem, offset, payload, 0);
    let stored = apply_write(mem, bytes);
    assert(stored =~= splice(mem, offset, payload));
    assert(mem_after(stored, s4) == stored);
    assert(mem_after(stored, s3) == stored);
    assert(mem_after(stored, s2) == stored);
    assert(mem_after(mem, s1) == mem_after(stored, s2));
    assert(mem_after(mem, es) == mem_after(mem, s1));
}

/// Applying all transactions of a multi-byte write stores the data at
/// the write's offset and touches nothing else.
pub proof fn lemma_mem_after_write_data(mem: Seq<u8>, address: u8, offset: int, data: Seq<u8>)
    requires
        0 <= offset,
        offset + data.len() <= mem.len(),
        mem.len() <= 65536,
    ensures
        mem_after(mem, write_data_events(address, offset, data)) == splice(mem, offset, data),
    decreases data.len(),
{
    if data.len() == 0 {
        assert(splice(mem, offset, data) =~= mem);
    } else {
        let l: int = chunk_len(offset, data.len() as int);
        let p: Seq<u8> = data.take(l);
        let first = chunk_ok_events(address, offset, p);
        let rest = write_data_events(address, offset + l, data.skip(l));
        assert(1 <= l && l <= data.len());
        assert(offset % (PAGESIZE as int) + p.len() <= PAGESIZE as int);
        lemma_mem_after_concat(mem, first, rest);
        lemma_mem_after_chunk_ok(mem, address, offset, p);
        lemma_mem_after_write_data(splice(mem, offset, p), address, offset + l, data.skip(l));
        assert(splice(splice(mem, offset, p), offset + l, data.skip(l)) =~= splice(
            mem,
            offset,
            data,
        ));
    }
}

/// Round-trip law: on a device whose internal write pointer wraps
/// within a page, the transactions of a multi-byte write of `data` at
/// `offset` store exactly `data` at that range — the chunking keeps
/// every transaction inside one page, so the pointer never wraps — and
/// a read of the same range returns it, with every byte outside the
/// range untouched.
pub proof fn lemma_round_trip(mem: Seq<u8>, address: u8, offset: int, data: Seq<u8>)
    requires
        mem.len() == AVAILABLE_STORAGE as int,
        0 <= offset,
        offset + data.len() <= AVAILABLE_STORAGE as int,
    ensures
        mem_after(mem, write_data_events(address, offset, data)).len() == mem.len(),
        mem_after(mem, write_data_events(address, offset, data)).subrange(
            offset,
            offset + data.len() as int,
        ) == data,
        forall|i: int|
            0 <= i < mem.len() && !(offset <= i < offset + data.len()) ==> #[trigger] mem_after(
                mem,
                write_data_events(address, offset, data),
            )[i] == mem[i],
{
    lemma_mem_after_write_data(mem, address, offset, data);
    assert(splice(mem, offset, data).subrange(offset, offset + data.len() as int) =~= data);
}

/// A device answers `a + b` faithfully exactly when it answers `a`
/// faithfully and then answers `b` from the memory `a` leaves behind.
pub proof fn lemma_device_faithful_concat(mem: Seq<u8>, a: Seq<BusEvent>, b: Seq<BusEvent>)
    ensures
        device_faithful_from(mem, a + b) == (device_faithful_from(mem, a)
            && device_faithful_from(mem_after(mem, a), b)),
    decreases a.len(),
{
    if a.len() == 0 {
        assert(a + b =~= b);
    } else {
        let next: Seq<u8> = match a[0] {
            BusEvent::BusWrite { address: _, bytes } => apply_write(mem, bytes),
            _ => mem,
        };
        assert((a + b).skip(1) =~= a.skip(1) + b);
        lemma_device_faithful_concat(next, a.skip(1), b);
    }
}

/// Round-trip law, read half: when a faithful device answers a
/// multi-byte write of `data` at `offset` followed by a read of the
/// same range, the answered bytes are exactly `data`.
pub proof fn lemma_read_after_write(
    mem: Seq<u8>,
    address: u8,
    offset: int,
    data: Seq<u8>,
    read: Seq<u8>,
)
    requires
        mem.len() == AVAILABLE_STORAGE as int,
        0 <= offset,
        offset + data.len() <= AVAILABLE_STORAGE as int,
        read.len() == data.len(),
        device_faithful_from(
            mem,
            write_data_events(address, offset, data) + read_events(
                address,
                offset,
                data.len(),
                read,
            ),
        ),
    ensures
        read == data,
{
    let w = write_data_events(address, offset, data);
    let re = read_events(address, offset, data.len(), read);
    lemma_device_faithful_concat(mem, w, re);
    lemma_round_trip(mem, address, offset, data);
    let stored = mem_after(mem, w);
    assert(re.skip(1) =~= Seq::<BusEvent>::empty());
    if read.len() > 0 {
        let written = be_bytes(offset);
        vstd::arithmetic::div_mod::lemma_fundamental_div_mod(offset, 256);
        assert(0 <= offset / 256 < 256);
        assert(be_offset(written[0], written[1]) == offset);
        assert(read == stored.subrange(offset, offset + read.len()));
    } else {
        assert(read =~= data);
    }
}

/// Page-split law: the chunks of a write of `data` at `offset` never
/// run past a page boundary, are never empty, start where the write
/// says, and concatenate back to exactly `data`.
pub proof fn lemma_page_split(offset: int, data: Seq<u8>)
    requires
        0 <= offset,
    ensures
        concat_payloads(chunks_of(offset, data)) == data,
        data.len() > 0 ==> chunks_of(offset, data).len() > 0 && chunks_of(offset, data)[0].start
            == offset,
        forall|i: int|
            0 <= i < chunks_of(offset, data).len() ==> {
                let c = #[trigger] chunks_of(offset, data)[i];
                0 < c.payload.len() && c.payload.len() <= PAGESIZE - c.start % (PAGESIZE as int)
            },
    decreases data.len(),
{
    if data.len() == 0 {
        assert(concat_payloads(chunks_of(offset, data)) =~= data);
    } else {
        let l: int = chunk_len(offset, data.len() as int);
        lemma_page_split(offset + l, data.skip(l));
        let cs = chunks_of(offset, data);
        let rest = chunks_of(offset + l, data.skip(l));
        assert(cs.skip(1) =~= rest);
        assert(concat_payloads(cs) == data.take(l) + concat_payloads(rest));
        assert(data.take(l) + data.skip(l) =~= data);
        assert(forall|i: int|
            0 <= i < cs.len() ==> {
                let c = #[trigger] cs[i];
                0 < c.payload.len() && c.payload.len() <= PAGESIZE - c.start % (PAGESIZE as int)
            }) by {
            assert(forall|i: int| 1 <= i < cs.len() ==> #[trigger] cs[i] == rest[i - 1]);
        }
    }
}

} // verus!
