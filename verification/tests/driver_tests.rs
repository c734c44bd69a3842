use std::cell::Cell;
use std::cell::RefCell;
use std::rc::Rc;

use embedded_time::Instant;
use embedded_time::clock::Error as ClockError;
use embedded_time::fraction::Fraction;

use mcp24lc512::bus::I2cTransport;
use mcp24lc512::driver::Eeprom;
use mcp24lc512::driver::Error;

const CAPACITY: usize = 64000;

/// One observable action towards the fake hardware.
#[derive(Debug, Clone, PartialEq, Eq)]
enum Action {
    PinLow,
    PinHigh,
    Write(Vec<u8>),
    Read(Vec<u8>, usize),
}

#[derive(Default)]
struct Harness {
    mem: Vec<u8>,
    log: Vec<Action>,
    writes_seen: usize,
    fail_write_at: Option<usize>,
    fail_read: bool,
}

impl Harness {
    fn fresh() -> Rc<RefCell<Harness>> {
        Rc::new(RefCell::new(Harness { mem: vec![0u8; CAPACITY], ..Harness::default() }))
    }

    fn write_transactions(&self) -> Vec<Vec<u8>> {
        self.log
            .iter()
            .filter_map(|a| match a {
                Action::Write(b) => Some(b.clone()),
                _ => None,
            })
            .collect()
    }

    fn read_transactions(&self) -> Vec<(Vec<u8>, usize)> {
        self.log
            .iter()
            .filter_map(|a| match a {
                Action::Read(w, n) => Some((w.clone(), *n)),
                _ => None,
            })
            .collect()
    }
}

struct MemBus(Rc<RefCell<Harness>>);

impl I2cTransport for MemBus {
    type WriteError = &'static str;
    type ReadError = &'static str;

    fn transport_write(&mut self, _address: u8, bytes: &[u8]) -> Result<(), &'static str> {
        let mut h = self.0.borrow_mut();
        h.log.push(Action::Write(bytes.to_vec()));
        h.writes_seen += 1;
        if let Some(n) = h.fail_write_at {
            if h.writes_seen == n {
                return Err("write transaction failed");
            }
        }
        // the device's internal write pointer wraps within the page of
        // the starting offset, as the real chip's does
        let off = ((bytes[0] as usize) << 8) | bytes[1] as usize;
        let base = off - off % 128;
        for (i, b) in bytes[2..].iter().enumerate() {
            h.mem[base + (off % 128 + i) % 128] = *b;
        }
        Ok(())
    }

    fn transport_write_read(
        &mut self,
        _address: u8,
        written: &[u8],
        read_len: usize,
    ) -> Result<Vec<u8>, &'static str> {
        let mut h = self.0.borrow_mut();
        h.log.push(Action::Read(written.to_vec(), read_len));
        if h.fail_read {
            return Err("read transaction failed");
        }
        let off = ((written[0] as usize) << 8) | written[1] as usize;
        Ok(h.mem[off..off + read_len].to_vec())
    }
}

struct SharedPin(Rc<RefCell<Harness>>);

impl embedded_hal::digital::v2::OutputPin for SharedPin {
    type Error = ();

    fn set_low(&mut self) -> Result<(), ()> {
        self.0.borrow_mut().log.push(Action::PinLow);
        Ok(())
    }

    fn set_high(&mut self) -> Result<(), ()> {
        self.0.borrow_mut().log.push(Action::PinHigh);
        Ok(())
    }
}

struct MockClock {
    ticks: Cell<u64>,
}

impl MockClock {
    fn new() -> MockClock {
        MockClock { ticks: Cell::new(0) }
    }
}

impl embedded_time::Clock for MockClock {
    type T = u64;

    const SCALING_FACTOR: Fraction = Fraction::new(1, 1000);

    fn try_now(&self) -> Result<Instant<Self>, ClockError> {
        self.ticks.set(self.ticks.get() + 1);
        Ok(Instant::new(self.ticks.get()))
    }
}

#[test]
fn write_of_one_page_at_zero_is_one_transaction() {
    let h = Harness::fresh();
    let clock = MockClock::new();
    let mut eeprom = Eeprom::new(MemBus(h.clone()), SharedPin(h.clone()), &clock);
    let data: Vec<u8> = (0..128u32).map(|i| i as u8).collect();
    assert!(eeprom.write_data(0, &data).is_ok());
    let writes = h.borrow().write_transactions();
    assert_eq!(writes.len(), 1);
    assert_eq!(writes[0].len(), 130);
    assert_eq!(&writes[0][0..2], &[0, 0]);
    assert_eq!(&writes[0][2..], &data[..]);
}

#[test]
fn write_of_129_bytes_at_zero_is_two_transactions() {
    let h = Harness::fresh();
    let clock = MockClock::new();
    let mut eeprom = Eeprom::new(MemBus(h.clone()), SharedPin(h.clone()), &clock);
    let data: Vec<u8> = (0..129u32).map(|i| (i % 251) as u8).collect();
    assert!(eeprom.write_data(0, &data).is_ok());
    let writes = h.borrow().write_transactions();
    assert_eq!(writes.len(), 2);
    assert_eq!(writes[0].len(), 130);
    assert_eq!(writes[1].len(), 3);
    assert_eq!(&writes[1][0..2], &[0, 128]);
    assert_eq!(writes[1][2], data[128]);
}

#[test]
fn write_of_10_bytes_at_126_splits_2_then_8() {
    let h = Harness::fresh();
    let clock = MockClock::new();
    let mut eeprom = Eeprom::new(MemBus(h.clone()), SharedPin(h.clone()), &clock);
    let data: Vec<u8> = vec![10, 20, 30, 40, 50, 60, 70, 80, 90, 100];
    assert!(eeprom.write_data(126, &data).is_ok());
    let writes = h.borrow().write_transactions();
    assert_eq!(writes.len(), 2);
    assert_eq!(writes[0].len(), 4);
    assert_eq!(&writes[0][0..2], &[0, 126]);
    assert_eq!(&writes[0][2..], &data[0..2]);
    assert_eq!(writes[1].len(), 10);
    assert_eq!(&writes[1][0..2], &[0, 128]);
    assert_eq!(&writes[1][2..], &data[2..]);
    // the issued payloads concatenate back to exactly the data
    let mut joined: Vec<u8> = writes[0][2..].to_vec();
    joined.extend_from_slice(&writes[1][2..]);
    assert_eq!(joined, data);
}

#[test]
fn capacity_boundary_is_inclusive_at_last_byte() {
    let h = Harness::fresh();
    let clock = MockClock::new();
    let mut eeprom = Eeprom::new(MemBus(h.clone()), SharedPin(h.clone()), &clock);
    assert!(eeprom.write_data(63999, &[7u8]).is_ok());
    assert!(matches!(eeprom.write_data(64000, &[7u8]), Err(Error::TooMuchData)));
    assert!(matches!(eeprom.write_data(63999, &[7u8, 8u8]), Err(Error::TooMuchData)));
    assert!(matches!(eeprom.write_data(64001, &[7u8]), Err(Error::OutOfRange)));
    // failed validations issue no transaction at all
    assert_eq!(h.borrow().write_transactions().len(), 1);
}

#[test]
fn read_of_length_zero_succeeds_and_reaches_the_bus() {
    let h = Harness::fresh();
    let clock = MockClock::new();
    let mut eeprom = Eeprom::new(MemBus(h.clone()), SharedPin(h.clone()), &clock);
    let mut empty: Vec<u8> = Vec::new();
    assert!(eeprom.read_data(0, &mut empty).is_ok());
    assert!(eeprom.read_data(63999, &mut empty).is_ok());
    assert!(empty.is_empty());
    let reads = h.borrow().read_transactions();
    assert_eq!(reads.len(), 2);
    assert_eq!(reads[0], (vec![0, 0], 0));
    assert_eq!(reads[1], (vec![0xF9, 0xFF], 0));
}

#[test]
fn round_trip_returns_what_was_written() {
    let h = Harness::fresh();
    let clock = MockClock::new();
    let mut eeprom = Eeprom::new(MemBus(h.clone()), SharedPin(h.clone()), &clock);
    let data: Vec<u8> = (0..200u32).map(|i| (i * 7 % 256) as u8).collect();
    assert!(eeprom.write_data(100, &data).is_ok());
    let mut back: Vec<u8> = vec![0u8; 200];
    assert!(eeprom.read_data(100, &mut back).is_ok());
    assert_eq!(back, data);
}

#[test]
fn byte_round_trip_and_transaction_shape() {
    let h = Harness::fresh();
    let clock = MockClock::new();
    let mut eeprom = Eeprom::new(MemBus(h.clone()), SharedPin(h.clone()), &clock);
    assert!(eeprom.write_byte(513, 0xAB).is_ok());
    assert_eq!(eeprom.read_byte(513).ok(), Some(0xAB));
    let log = h.borrow().log.clone();
    assert_eq!(
        log,
        vec![
            Action::PinLow,
            Action::Write(vec![2, 1, 0xAB]),
            Action::PinHigh,
            Action::Read(vec![2, 1], 1),
        ],
    );
}

#[test]
fn byte_operations_validate_bounds() {
    let h = Harness::fresh();
    let clock = MockClock::new();
    let mut eeprom = Eeprom::new(MemBus(h.clone()), SharedPin(h.clone()), &clock);
    assert!(eeprom.write_byte(63999, 1).is_ok());
    assert!(matches!(eeprom.write_byte(64000, 1), Err(Error::TooMuchData)));
    assert!(matches!(eeprom.write_byte(64001, 1), Err(Error::OutOfRange)));
    assert!(eeprom.read_byte(63999).is_ok());
    assert!(matches!(eeprom.read_byte(64000), Err(Error::TooMuchData)));
    assert!(matches!(eeprom.read_byte(64001), Err(Error::OutOfRange)));
}

#[test]
fn transport_failure_mid_write_stops_and_restores_protection() {
    let h = Harness::fresh();
    h.borrow_mut().fail_write_at = Some(2);
    let clock = MockClock::new();
    let mut eeprom = Eeprom::new(MemBus(h.clone()), SharedPin(h.clone()), &clock);
    let data: Vec<u8> = (0..300u32).map(|i| (i % 256) as u8).collect();
    let r = eeprom.write_data(0, &data);
    assert!(matches!(r, Err(Error::I2cWrite(_))));
    let hb = h.borrow();
    // the first chunk stays written, nothing past the failed chunk is attempted
    assert_eq!(hb.write_transactions().len(), 2);
    assert_eq!(&hb.mem[0..128], &data[0..128]);
    assert_eq!(&hb.mem[128..300], &vec![0u8; 172][..]);
    // write protection is restored on the failure path
    assert_eq!(hb.log.last(), Some(&Action::PinHigh));
    let lows = hb.log.iter().filter(|a| **a == Action::PinLow).count();
    let highs = hb.log.iter().filter(|a| **a == Action::PinHigh).count();
    assert_eq!(lows, highs);
}

#[test]
fn every_write_transaction_sits_between_enable_and_disable() {
    let h = Harness::fresh();
    let clock = MockClock::new();
    let mut eeprom = Eeprom::new(MemBus(h.clone()), SharedPin(h.clone()), &clock);
    let data: Vec<u8> = (0..260u32).map(|i| (i % 256) as u8).collect();
    assert!(eeprom.write_data(60, &data).is_ok());
    let log = h.borrow().log.clone();
    let mut enabled = false;
    for action in &log {
        match action {
            Action::PinLow => enabled = true,
            Action::PinHigh => enabled = false,
            Action::Write(_) => assert!(enabled, "write issued while protected"),
            Action::Read(_, _) => {}
        }
    }
    assert!(!enabled, "write protection left disabled");
}

#[test]
fn read_failure_is_wrapped_and_buffer_untouched() {
    let h = Harness::fresh();
    h.borrow_mut().fail_read = true;
    let clock = MockClock::new();
    let mut eeprom = Eeprom::new(MemBus(h.clone()), SharedPin(h.clone()), &clock);
    let mut buffer: Vec<u8> = vec![9u8; 4];
    assert!(matches!(eeprom.read_data(10, &mut buffer), Err(Error::I2cWriteRead(_))));
    assert_eq!(buffer, vec![9u8; 4]);
    assert!(matches!(eeprom.read_byte(10), Err(Error::I2cWriteRead(_))));
}

#[test]
fn ack_polling_blocks_on_the_time_source() {
    let h = Harness::fresh();
    let clock = MockClock::new();
    let mut eeprom = Eeprom::new(MemBus(h.clone()), SharedPin(h.clone()), &clock);
    assert!(eeprom.ack_polling().is_ok());
    assert!(clock.ticks.get() > 0, "the settle wait never consulted the clock");
}
