//! The EEPROM driver: bounds validation, page-aware write chunking,
//! write-protect sequencing and the post-write settle wait.
//!
//! The driver is generic over the bus transport (an [`I2cTransport`]),
//! the write-protect output pin (`embedded_hal`'s `OutputPin`), and the
//! time source (`embedded_time`'s `Clock`). Every call it makes to
//! those collaborators is recorded in a ghost history of [`BusEvent`]s,
//! and each operation's contract states exactly which events it
//! appends.

use vstd::prelude::*;

use embedded_hal::digital::v2::OutputPin;
use embedded_time::Clock;
use embedded_time::duration::Milliseconds;

use crate::bus::I2cTransport;
use crate::laws::lemma_partial_extend;
use crate::laws::lemma_partial_write_events_scoped;
use crate::laws::lemma_read_events_scoped;
use crate::laws::lemma_wp_discipline_append;
use crate::laws::lemma_write_byte_events_scoped;
use crate::laws::lemma_write_data_events_scoped;
use crate::model::AVAILABLE_STORAGE;
use crate::model::BusEvent;
use crate::model::DEFAULT_ADDRESS;
use crate::model::PAGESIZE;
use crate::model::SETTLE_MILLISECONDS;
use crate::model::be_bytes;
use crate::model::chunk_len;
use crate::model::chunk_ok_events;
use crate::model::chunk_err_events;
use crate::model::is_partial_write_events;
use crate::model::read_events;
use crate::model::wp_discipline;
use crate::model::wp_enabled_after;
use crate::model::writes_protected;
use crate::model::write_byte_events;
use crate::model::write_data_events;

verus! {

/// Why an operation failed: the requested range does not fit the
/// device, or the bus transaction itself failed, carrying the
/// transport's own error for the write or the write-then-read path.
pub enum Error<EW, ER> {
    /// The starting offset exceeds the device capacity.
    OutOfRange,
    /// The end of the requested range exceeds the device capacity.
    TooMuchData,
    /// A combined write-then-read transaction failed.
    I2cWriteRead(ER),
    /// A write transaction failed.
    I2cWrite(EW),
}

/// Relies on `embedded_hal::digital::v2::OutputPin::set_low`: drives
/// the write-protect line low, the "writes enabled" level. A failure of
/// the line is deliberately ignored (best-effort signaling).
#[verifier::external_body]
fn pin_set_low<WP: OutputPin>(wp: &mut WP) {
    let _ = wp.set_low();
}

/// Relies on `embedded_hal::digital::v2::OutputPin::set_high`: drives
/// the write-protect line high, the "writes disabled" level. A failure
/// of the line is deliberately ignored (best-effort signaling).
#[verifier::external_body]
fn pin_set_high<WP: OutputPin>(wp: &mut WP) {
    let _ = wp.set_high();
}

/// Relies on `embedded_time`'s `Clock::new_timer`, `Timer::start` and
/// `Timer::wait`: blocks until a one-shot countdown timer of `ms`
/// milliseconds, run on `clock`, has elapsed. A failure of the time
/// source aborts the program.
#[verifier::external_body]
fn clock_wait<CLOCK: Clock>(clock: &CLOCK, ms: u32) {
    clock.new_timer(Milliseconds::new(ms)).start().ok().unwrap().wait().ok().unwrap();
}

/// Driver for the EEPROM device: owns the bus transport and the
/// write-protect pin, borrows the time source, and keeps a ghost
/// history of every action towards them.
pub struct Eeprom<'a, I2C, WP, CLOCK> {
    address: u8,
    i2c: I2C,
    wp: WP,
    clock: &'a CLOCK,
    events: Ghost<Seq<BusEvent>>,
}

impl<'a, I2C, WP, CLOCK> Eeprom<'a, I2C, WP, CLOCK> {
    /// Every action the driver has taken towards the bus, the
    /// write-protect line and the time source, oldest first.
    pub closed spec fn history(&self) -> Seq<BusEvent> {
        self.events@
    }

    /// The device's bus address.
    pub closed spec fn bus_address(&self) -> u8 {
        self.address
    }
}

impl<'a, I2C: I2cTransport, WP: OutputPin, CLOCK: Clock> Eeprom<'a, I2C, WP, CLOCK> {
    /// A driver for the device at the default bus address, with an
    /// empty history.
    pub fn new(i2c: I2C, wp: WP, clock: &'a CLOCK) -> (eeprom: Self)
        ensures
            eeprom.history() == Seq::<BusEvent>::empty(),
            eeprom.bus_address() == DEFAULT_ADDRESS,
            wp_discipline(eeprom.history()),
    {
        let eeprom = Eeprom {
            i2c,
            address: DEFAULT_ADDRESS,
            wp,
            clock,
            events: Ghost(Seq::empty()),
        };
        proof {
            assert(wp_discipline(eeprom.history()));
        }
        eeprom
    }

    /// Drive the write-protect line to the "writes enabled" level.
    fn wp_enable(&mut self)
        ensures
            final(self).events@ == old(self).events@.push(BusEvent::WpEnable),
            final(self).address == old(self).address,
            final(self).i2c == old(self).i2c,
            final(self).clock == old(self).clock,
    {
        pin_set_low(&mut self.wp);
        self.events = Ghost(self.events@.push(BusEvent::WpEnable));
    }

    /// Drive the write-protect line back to the "writes disabled" level.
    fn wp_disable(&mut self)
        ensures
            final(self).events@ == old(self).events@.push(BusEvent::WpDisable),
            final(self).address == old(self).address,
            final(self).i2c == old(self).i2c,
            final(self).clock == old(self).clock,
    {
        pin_set_high(&mut self.wp);
        self.events = Ghost(self.events@.push(BusEvent::WpDisable));
    }

    /// Issue one write transaction carrying `bytes` to the device.
    fn bus_write(&mut self, bytes: &Vec<u8>) -> (r: Result<
        (),
        Error<I2C::WriteError, I2C::ReadError>,
    >)
        ensures
            final(self).events@ == old(self).events@.push(
                BusEvent::BusWrite { address: old(self).address, bytes: bytes@ },
            ),
            final(self).address == old(self).address,
            final(self).clock == old(self).clock,
            r is Err ==> (r matches Err(e) && e is I2cWrite),
    {
        let r = match self.i2c.transport_write(self.address, bytes.as_slice()) {
            Ok(()) => Ok(()),
            Err(e) => Err(Error::I2cWrite(e)),
        };
        self.events = Ghost(
            self.events@.push(BusEvent::BusWrite { address: self.address, bytes: bytes@ }),
        );
        r
    }

    /// Issue one combined write-then-read transaction: send `written`,
    /// read `read_len` bytes back. The event records the bytes the
    /// transport answered with; a failed transaction records an empty
    /// answer.
    fn bus_write_read(&mut self, written: &Vec<u8>, read_len: usize) -> (r: Result<
        Vec<u8>,
        Error<I2C::WriteError, I2C::ReadError>,
    >)
        ensures
            final(self).address == old(self).address,
            final(self).clock == old(self).clock,
            r matches Ok(v) ==> v@.len() == read_len && final(self).events@ == old(self).events@.push(
                BusEvent::BusWriteRead {
                    address: old(self).address,
                    written: written@,
                    read_len: read_len as nat,
                    read: v@,
                },
            ),
            r is Err ==> (r matches Err(e) && e is I2cWriteRead) && final(self).events@ == old(self).events@.push(
                BusEvent::BusWriteRead {
                    address: old(self).address,
                    written: written@,
                    read_len: read_len as nat,
                    read: Seq::empty(),
                },
            ),
    {
        match self.i2c.transport_write_read(self.address, written.as_slice(), read_len) {
            Ok(v) => {
                self.events = Ghost(
                    self.events@.push(
                        BusEvent::BusWriteRead {
                            address: self.address,
                            written: written@,
                            read_len: read_len as nat,
                            read: v@,
                        },
                    ),
                );
                Ok(v)
            },
            Err(e) => {
                self.events = Ghost(
                    self.events@.push(
                        BusEvent::BusWriteRead {
                            address: self.address,
                            written: written@,
                            read_len: read_len as nat,
                            read: Seq::empty(),
                        },
                    ),
                );
                Err(Error::I2cWriteRead(e))
            },
        }
    }

    /// Block until the device's internal write cycle has settled.
    ///
    /// This is a fixed delay standing in for true acknowledgment
    /// polling: the device is simply given [`SETTLE_MILLISECONDS`] to
    /// commit the page before it is addressed again.
    pub fn ack_polling(&mut self) -> (r: Result<(), Error<I2C::WriteError, I2C::ReadError>>)
        ensures
            r is Ok,
            final(self).history() == old(self).history().push(BusEvent::SettleWait),
            final(self).bus_address() == old(self).bus_address(),
            wp_discipline(old(self).history()) ==> wp_discipline(final(self).history()),
    {
        clock_wait(self.clock, SETTLE_MILLISECONDS);
        self.events = Ghost(self.events@.push(BusEvent::SettleWait));
        proof {
            if wp_discipline(old(self).history()) {
                let tail = seq![BusEvent::SettleWait];
                assert(tail.skip(1) =~= Seq::<BusEvent>::empty());
                assert(writes_protected(false, Seq::<BusEvent>::empty()));
                assert(!wp_enabled_after(false, Seq::<BusEvent>::empty()));
                assert(writes_protected(false, tail));
                assert(!wp_enabled_after(false, tail));
                assert(self.history() =~= old(self).history() + tail);
                lemma_wp_discipline_append(old(self).history(), tail);
            }
        }
        Ok(())
    }

    /// The two-byte big-endian encoding of a device offset.
    fn offset_bytes(offset: u16) -> (r: (u8, u8))
        ensures
            seq![r.0, r.1] == be_bytes(offset as int),
    {
        let hi: u16 = offset >> 8u16;
        let lo: u16 = offset & 0xffu16;
        proof {
            assert(offset >> 8u16 == offset / 256 && offset & 0xffu16 == offset % 256)
                by (bit_vector);
            assert(seq![(hi as u8), (lo as u8)] =~= be_bytes(offset as int));
        }
        (hi as u8, lo as u8)
    }

    /// Write one byte at `addr`: validate the one-byte range, then
    /// issue a single write transaction of the big-endian offset
    /// followed by the byte, under the write-protect sequence.
    pub fn write_byte(&mut self, addr: u16, byte: u8) -> (r: Result<
        (),
        Error<I2C::WriteError, I2C::ReadError>,
    >)
        ensures
            final(self).bus_address() == old(self).bus_address(),
            (r matches Err(Error::OutOfRange)) <==> addr as int > AVAILABLE_STORAGE as int,
            (r matches Err(Error::TooMuchData)) <==> (addr as int <= AVAILABLE_STORAGE as int
                && addr as int + 1 > AVAILABLE_STORAGE as int),
            addr as int + 1 > AVAILABLE_STORAGE as int ==> final(self).history() == old(self).history(),
            addr as int + 1 <= AVAILABLE_STORAGE as int ==> final(self).history() == old(self).history() + write_byte_events(old(self).bus_address(), addr as int, byte),
            addr as int + 1 <= AVAILABLE_STORAGE as int && r is Err ==> (r matches Err(e)
                && e is I2cWrite),
            wp_discipline(old(self).history()) ==> wp_discipline(final(self).history()),
    {
        if addr as usize > AVAILABLE_STORAGE {
            return Err(Error::OutOfRange);
        }
        if addr as usize + 1 > AVAILABLE_STORAGE {
            return Err(Error::TooMuchData);
        }
        let (hi, lo) = Self::offset_bytes(addr);
        let mut buffer: Vec<u8> = Vec::new();
        buffer.push(hi);
        buffer.push(lo);
        buffer.push(byte);
        self.wp_enable();
        let r = self.bus_write(&buffer);
        self.wp_disable();
        proof {
            assert(buffer@ =~= be_bytes(addr as int).push(byte));
            assert(self.history() =~= old(self).history() + write_byte_events(
                old(self).bus_address(),
                addr as int,
                byte,
            ));
            if wp_discipline(old(self).history()) {
                lemma_write_byte_events_scoped(old(self).bus_address(), addr as int, byte);
                lemma_wp_discipline_append(
                    old(self).history(),
                    write_byte_events(old(self).bus_address(), addr as int, byte),
                );
            }
        }
        r
    }

    /// Write `data` starting at `addr`: validate the whole range, then
    /// write it as a sequence of transactions, each clipped so it never
    /// crosses a page boundary, each under the write-protect sequence
    /// and followed by the settle wait. On a transport failure the
    /// remaining chunks are abandoned; chunks already written stay
    /// written.
    pub fn write_data(&mut self, addr: u16, data: &[u8]) -> (r: Result<
        (),
        Error<I2C::WriteError, I2C::ReadError>,
    >)
        ensures
            final(self).bus_address() == old(self).bus_address(),
            (r matches Err(Error::OutOfRange)) <==> addr as int > AVAILABLE_STORAGE as int,
            (r matches Err(Error::TooMuchData)) <==> (addr as int <= AVAILABLE_STORAGE as int
                && addr as int + data@.len() > AVAILABLE_STORAGE as int),
            addr as int + data@.len() > AVAILABLE_STORAGE as int ==> final(self).history() == old(self).history(),
            r is Ok && addr as int + data@.len() <= AVAILABLE_STORAGE as int ==> final(self).history() == old(self).history() + write_data_events(
                old(self).bus_address(),
                addr as int,
                data@,
            ),
            addr as int + data@.len() <= AVAILABLE_STORAGE as int && r is Err ==> (r matches Err(e)
                && e is I2cWrite) && final(self).history().len() > old(self).history().len()
                && final(self).history().take(old(self).history().len() as int) == old(self).history() && is_partial_write_events(
                old(self).bus_address(),
                addr as int,
                data@,
                final(self).history().skip(old(self).history().len() as int),
            ),
            wp_discipline(old(self).history()) ==> wp_discipline(final(self).history()),
    {
        if addr as usize > AVAILABLE_STORAGE {
            return Err(Error::OutOfRange);
        }
        let len: usize = data.len();
        if len > AVAILABLE_STORAGE - addr as usize {
            return Err(Error::TooMuchData);
        }
        let ghost h0: Seq<BusEvent> = self.events@;
        let ghost a: u8 = self.address;
        let ghost mut done: Seq<BusEvent> = Seq::empty();
        let mut cur: u16 = addr;
        let mut wrptr: usize = 0;
        proof {
            assert(data@.skip(0) =~= data@);
            assert(Seq::<BusEvent>::empty() + write_data_events(a, addr as int, data@)
                =~= write_data_events(a, addr as int, data@));
            assert forall|tail: Seq<BusEvent>|
                #[trigger] is_partial_write_events(a, addr as int, data@.skip(0), tail)
                    implies is_partial_write_events(
                    a,
                    addr as int,
                    data@,
                    Seq::<BusEvent>::empty() + tail,
                ) by {
                assert(Seq::<BusEvent>::empty() + tail =~= tail);
            }
        }
        #[verifier::loop_isolation(false)]
        while wrptr < len
            invariant
                len == data@.len(),
                wrptr <= len,
                addr as int + len as int <= AVAILABLE_STORAGE as int,
                cur as int == addr as int + wrptr as int,
                self.address == a,
                self.events@ == h0 + done,
                done + write_data_events(a, cur as int, data@.skip(wrptr as int))
                    == write_data_events(a, addr as int, data@),
                forall|tail: Seq<BusEvent>|
                    #[trigger] is_partial_write_events(
                        a,
                        cur as int,
                        data@.skip(wrptr as int),
                        tail,
                    ) ==> is_partial_write_events(a, addr as int, data@, done + tail),
            decreases len - wrptr,
        {
            let index: usize = cur as usize;
            let maxsize: usize = PAGESIZE - index % PAGESIZE;
            let remaining: usize = len - wrptr;
            let pagesize: usize = if remaining < maxsize {
                remaining
            } else {
                maxsize
            };
            let ghost rest: Seq<u8> = data@.skip(wrptr as int);
            let ghost l: int = chunk_len(cur as int, rest.len() as int);
            proof {
                assert(l == pagesize as int);
            }
            let (hi, lo) = Self::offset_bytes(cur);
            let mut buffer: Vec<u8> = Vec::new();
            buffer.push(hi);
            buffer.push(lo);
            proof {
                assert(buffer@ =~= be_bytes(cur as int) + data@.subrange(
                    wrptr as int,
                    wrptr as int,
                ));
            }
            let mut i: usize = 0;
            #[verifier::loop_isolation(false)]
            while i < pagesize
                invariant
                    i <= pagesize,
                    len == data@.len(),
                    wrptr + pagesize <= len,
                    buffer@ == be_bytes(cur as int) + data@.subrange(
                        wrptr as int,
                        wrptr as int + i as int,
                    ),
                decreases pagesize - i,
            {
                let b: u8 = data[wrptr + i];
                buffer.push(b);
                proof {
                    assert(buffer@ =~= be_bytes(cur as int) + data@.subrange(
                        wrptr as int,
                        wrptr as int + i as int + 1,
                    ));
                }
                i = i + 1;
            }
            let ghost payload: Seq<u8> = data@.subrange(wrptr as int, wrptr as int + l);
            proof {
                assert(payload =~= rest.take(l));
                assert(buffer@ == be_bytes(cur as int) + payload);
            }
            self.wp_enable();
            let r = self.bus_write(&buffer);
            match r {
                Err(e) => {
                    self.wp_disable();
                    proof {
                        let err_tail = chunk_err_events(a, cur as int, payload);
                        assert(self.events@ =~= h0 + (done + err_tail));
                        assert(is_partial_write_events(a, cur as int, rest, err_tail));
                        assert(is_partial_write_events(a, addr as int, data@, done + err_tail));
                        let added = done + err_tail;
                        assert((h0 + added).skip(h0.len() as int) =~= added);
                        assert((h0 + added).take(h0.len() as int) =~= h0);
                        lemma_partial_write_events_scoped(a, addr as int, data@, added);
                        if wp_discipline(h0) {
                            lemma_wp_discipline_append(h0, added);
                        }
                    }
                    return Err(e);
                },
                Ok(()) => {},
            }
            let _ = self.ack_polling();
            self.wp_disable();
            proof {
                let ok_chunk = chunk_ok_events(a, cur as int, payload);
                assert(self.events@ =~= h0 + (done + ok_chunk));
                assert(rest.skip(l) =~= data@.skip(wrptr as int + l));
                assert(write_data_events(a, cur as int, rest) == ok_chunk + write_data_events(
                    a,
                    cur as int + l,
                    rest.skip(l),
                ));
                assert((done + ok_chunk) + write_data_events(a, cur as int + l, rest.skip(l))
                    =~= done + (ok_chunk + write_data_events(a, cur as int + l, rest.skip(l))));
                assert forall|tail: Seq<BusEvent>|
                    #[trigger] is_partial_write_events(
                        a,
                        cur as int + l,
                        data@.skip(wrptr as int + l),
                        tail,
                    ) implies is_partial_write_events(
                        a,
                        addr as int,
                        data@,
                        (done + ok_chunk) + tail,
                    ) by {
                    lemma_partial_extend(a, cur as int, rest, tail);
                    assert(is_partial_write_events(a, cur as int, rest, ok_chunk + tail));
                    assert((done + ok_chunk) + tail =~= done + (ok_chunk + tail));
                }
                done = done + ok_chunk;
            }
            cur = cur + pagesize as u16;
            wrptr = wrptr + pagesize;
        }
        proof {
            assert(data@.skip(len as int) =~= Seq::<u8>::empty());
            assert(write_data_events(a, cur as int, Seq::<u8>::empty()) =~= Seq::<BusEvent>::empty());
            assert(done + Seq::<BusEvent>::empty() =~= done);
            assert(done == write_data_events(a, addr as int, data@));
            assert(self.history() == old(self).history() + write_data_events(
                old(self).bus_address(),
                addr as int,
                data@,
            ));
            if wp_discipline(old(self).history()) {
                lemma_write_data_events_scoped(a, addr as int, data@);
                lemma_wp_discipline_append(h0, done);
            }
        }
        Ok(())
    }

    /// Read one byte from `addr`: validate the one-byte range, then
    /// issue a single combined write-then-read transaction of the
    /// big-endian offset, reading one byte back. The returned byte is
    /// exactly the transport's answer, recorded in the history.
    pub fn read_byte(&mut self, addr: u16) -> (r: Result<
        u8,
        Error<I2C::WriteError, I2C::ReadError>,
    >)
        ensures
            final(self).bus_address() == old(self).bus_address(),
            (r matches Err(Error::OutOfRange)) <==> addr as int > AVAILABLE_STORAGE as int,
            (r matches Err(Error::TooMuchData)) <==> (addr as int <= AVAILABLE_STORAGE as int
                && addr as int + 1 > AVAILABLE_STORAGE as int),
            addr as int + 1 > AVAILABLE_STORAGE as int ==> final(self).history() == old(self).history(),
            r matches Ok(b) ==> final(self).history() == old(self).history() + read_events(
                old(self).bus_address(),
                addr as int,
                1,
                seq![b],
            ),
            addr as int + 1 <= AVAILABLE_STORAGE as int && r is Err ==> (r matches Err(e)
                && e is I2cWriteRead) && final(self).history() == old(self).history()
                + read_events(old(self).bus_address(), addr as int, 1, Seq::empty()),
            wp_discipline(old(self).history()) ==> wp_discipline(final(self).history()),
    {
        if addr as usize > AVAILABLE_STORAGE {
            return Err(Error::OutOfRange);
        }
        if addr as usize + 1 > AVAILABLE_STORAGE {
            return Err(Error::TooMuchData);
        }
        let (hi, lo) = Self::offset_bytes(addr);
        let mut written: Vec<u8> = Vec::new();
        written.push(hi);
        written.push(lo);
        let r = self.bus_write_read(&written, 1);
        proof {
            assert(written@ =~= be_bytes(addr as int));
        }
        match r {
            Ok(v) => {
                let b: u8 = v[0];
                proof {
                    assert(v@ =~= seq![b]);
                    assert(self.history() =~= old(self).history() + read_events(
                        old(self).bus_address(),
                        addr as int,
                        1,
                        v@,
                    ));
                    if wp_discipline(old(self).history()) {
                        lemma_read_events_scoped(old(self).bus_address(), addr as int, 1, v@);
                        lemma_wp_discipline_append(
                            old(self).history(),
                            read_events(old(self).bus_address(), addr as int, 1, v@),
                        );
                    }
                }
                Ok(b)
            },
            Err(e) => {
                proof {
                    assert(self.history() =~= old(self).history() + read_events(
                        old(self).bus_address(),
                        addr as int,
                        1,
                        Seq::empty(),
                    ));
                    if wp_discipline(old(self).history()) {
                        lemma_read_events_scoped(
                            old(self).bus_address(),
                            addr as int,
                            1,
                            Seq::empty(),
                        );
                        lemma_wp_discipline_append(
                            old(self).history(),
                            read_events(old(self).bus_address(), addr as int, 1, Seq::empty()),
                        );
                    }
                }
                Err(e)
            },
        }
    }

    /// Read `data.len()` bytes starting at `addr` into `data`: validate
    /// the range, then issue a single combined write-then-read
    /// transaction — reads are not split at page boundaries. The
    /// buffer's length is never changed, and on success it holds
    /// exactly the transport's answer, recorded in the history.
    pub fn read_data(&mut self, addr: u16, data: &mut Vec<u8>) -> (r: Result<
        (),
        Error<I2C::WriteError, I2C::ReadError>,
    >)
        ensures
            final(self).bus_address() == old(self).bus_address(),
            final(data)@.len() == old(data)@.len(),
            (r matches Err(Error::OutOfRange)) <==> addr as int > AVAILABLE_STORAGE as int,
            (r matches Err(Error::TooMuchData)) <==> (addr as int <= AVAILABLE_STORAGE as int
                && addr as int + old(data)@.len() > AVAILABLE_STORAGE as int),
            addr as int + old(data)@.len() > AVAILABLE_STORAGE as int ==> final(self).history()
                == old(self).history() && final(data)@ == old(data)@,
            r is Ok ==> final(self).history() == old(self).history() + read_events(
                old(self).bus_address(),
                addr as int,
                old(data)@.len(),
                final(data)@,
            ),
            addr as int + old(data)@.len() <= AVAILABLE_STORAGE as int && r is Err ==> (
            r matches Err(e) && e is I2cWriteRead) && final(data)@ == old(data)@ && final(self).history() == old(self).history() + read_events(
                old(self).bus_address(),
                addr as int,
                old(data)@.len(),
                Seq::empty(),
            ),
            wp_discipline(old(self).history()) ==> wp_discipline(final(self).history()),
    {
        if addr as usize > AVAILABLE_STORAGE {
            return Err(Error::OutOfRange);
        }
        let len: usize = data.len();
        if len > AVAILABLE_STORAGE - addr as usize {
            return Err(Error::TooMuchData);
        }
        let (hi, lo) = Self::offset_bytes(addr);
        let mut written: Vec<u8> = Vec::new();
        written.push(hi);
        written.push(lo);
        let r = self.bus_write_read(&written, len);
        proof {
            assert(written@ =~= be_bytes(addr as int));
        }
        match r {
            Ok(v) => {
                proof {
                    assert(self.history() =~= old(self).history() + read_events(
                        old(self).bus_address(),
                        addr as int,
                        len as nat,
                        v@,
                    ));
                    if wp_discipline(old(self).history()) {
                        lemma_read_events_scoped(
                            old(self).bus_address(),
                            addr as int,
                            len as nat,
                            v@,
                        );
                        lemma_wp_discipline_append(
                            old(self).history(),
                            read_events(old(self).bus_address(), addr as int, len as nat, v@),
                        );
                    }
                }
                *data = v;
                Ok(())
            },
            Err(e) => {
                proof {
                    assert(self.history() =~= old(self).history() + read_events(
                        old(self).bus_address(),
                        addr as int,
                        len as nat,
                        Seq::empty(),
                    ));
                    if wp_discipline(old(self).history()) {
                        lemma_read_events_scoped(
                            old(self).bus_address(),
                            addr as int,
                            len as nat,
                            Seq::empty(),
                        );
                        lemma_wp_discipline_append(
                            old(self).history(),
                            read_events(
                                old(self).bus_address(),
                                addr as int,
                                len as nat,
                                Seq::empty(),
                            ),
                        );
                    }
                }
                Err(e)
            },
        }
    }
}

} // verus!
