use std::sync::{Arc, Mutex};

use hyperbug::i2c::{I2cBus, I2cTargetDevice};

struct EchoTarget {
    last_write: Vec<u8>,
}

impl I2cTargetDevice for EchoTarget {
    fn i2c_write(&mut self, data: &[u8]) {
        self.last_write = data.to_vec();
    }
    fn i2c_read(&mut self, len: usize) -> Vec<u8> {
        let mut out = self.last_write.clone();
        out.resize(len, 0xff);
        out
    }
}

#[test]
fn a_registered_device_answers_at_its_address_and_nothing_answers_elsewhere() {
    let mut bus = I2cBus::new();
    bus.register(0x50, Arc::new(Mutex::new(EchoTarget { last_write: Vec::new() }))).unwrap();

    assert!(bus.get(0x50).is_some());
    assert!(bus.get(0x51).is_none(), "an unregistered address must NAK");

    let dev = bus.get(0x50).unwrap();
    dev.lock().unwrap().i2c_write(&[0xAB]);
    assert_eq!(dev.lock().unwrap().i2c_read(2), vec![0xAB, 0xff]);
}

#[test]
fn registering_two_devices_at_the_same_address_is_refused() {
    let mut bus = I2cBus::new();
    bus.register(0x50, Arc::new(Mutex::new(EchoTarget { last_write: Vec::new() }))).unwrap();
    let err = bus
        .register(0x50, Arc::new(Mutex::new(EchoTarget { last_write: Vec::new() })))
        .expect_err("a second device at the same address must be refused");
    assert!(err.contains("already occupied"), "got: {err}");
}

#[test]
fn an_address_past_the_7_bit_range_is_refused() {
    let mut bus = I2cBus::new();
    let err = bus
        .register(0x80, Arc::new(Mutex::new(EchoTarget { last_write: Vec::new() })))
        .expect_err("an 8-bit address must be refused");
    assert!(err.contains("7-bit"), "got: {err}");
}

#[test]
fn the_highest_address_is_allowed() {
    let mut bus: I2cBus<u32> = I2cBus::new();
    assert_eq!(bus.register(0x7f, 1), Ok(()));
    assert_eq!(bus.get(0x7f), Some(&1));
    assert_eq!(bus.register(0x7f, 2).unwrap_err(), "I2C address 0x7f is already occupied by another device");
    assert_eq!(bus.get(0x7f), Some(&1));
    assert_eq!(bus.register(0xff, 2).unwrap_err(), "I2C address 0xff exceeds the 7-bit maximum 0x7f");
}
