//! A virtual I2C bus: targets at 7-bit addresses, reached message by message.

use std::collections::HashMap;

use vstd::prelude::*;
use vstd::string::*;

use crate::text::{cat3, hex0x, hex0x_string};

verus! {

/// The highest 7-bit I2C address.
pub const MAX_I2C_ADDRESS: u8 = 0x7f;

/// A target on the bus.
pub trait I2cTargetDevice {
    /// Handles a message written to the target.
    fn i2c_write(&mut self, data: &[u8]);

    /// Handles a message read from the target: up to `len` bytes.
    fn i2c_read(&mut self, len: usize) -> Vec<u8>;
}

/// The message for an address that does not exist.
pub open spec fn address_too_high(addr: u8) -> Seq<char> {
    "I2C address "@ + hex0x(addr as nat) + " exceeds the 7-bit maximum 0x7f"@
}

/// The message for an address that is taken.
pub open spec fn address_taken(addr: u8) -> Seq<char> {
    "I2C address "@ + hex0x(addr as nat) + " is already occupied by another device"@
}

/// The targets of a bus, by address. A target is held by whatever `T` is: a
/// value, or a handle to one that is shared.
pub struct I2cBus<T> {
    targets: HashMap<u8, T>,
}

impl<T> View for I2cBus<T> {
    type V = Map<u8, T>;

    closed spec fn view(&self) -> Map<u8, T> {
        self.targets@
    }
}

impl<T> I2cBus<T> {
    /// A bus without targets.
    pub fn new() -> (r: Self)
        ensures
            r@ == Map::<u8, T>::empty(),
    {
        I2cBus { targets: HashMap::new() }
    }

    /// Attaches `device` at `addr`. An address that does not exist or that is
    /// taken is an error, and nothing is then attached.
    pub fn register(&mut self, addr: u8, device: T) -> (r: Result<(), String>)
        ensures
            match r {
                Ok(_) => {
                    &&& addr <= MAX_I2C_ADDRESS
                    &&& !old(self)@.contains_key(addr)
                    &&& final(self)@ == old(self)@.insert(addr, device)
                },
                Err(e) => {
                    &&& final(self)@ == old(self)@
                    &&& if addr > MAX_I2C_ADDRESS {
                        e@ == address_too_high(addr)
                    } else {
                        old(self)@.contains_key(addr) && e@ == address_taken(addr)
                    }
                },
            },
    {
        broadcast use vstd::std_specs::hash::group_hash_axioms;

        if addr > MAX_I2C_ADDRESS {
            let a = hex0x_string(addr as u64);
            return Err(cat3("I2C address ", a.as_str(), " exceeds the 7-bit maximum 0x7f"));
        }
        if self.targets.contains_key(&addr) {
            let a = hex0x_string(addr as u64);
            return Err(cat3("I2C address ", a.as_str(), " is already occupied by another device"));
        }
        self.targets.insert(addr, device);
        Ok(())
    }

    /// The target at `addr`, if there is one.
    pub fn get(&self, addr: u8) -> (r: Option<&T>)
        ensures
            match r {
                Some(t) => self@.contains_key(addr) && *t == self@[addr],
                None => !self@.contains_key(addr),
            },
    {
        broadcast use vstd::std_specs::hash::group_hash_axioms;

        self.targets.get(&addr)
    }
}

/// A target answers at the address that it was registered at, and nobody else
/// does. A second one at the same address, or one past the last address, is
/// refused and changes nothing.
pub proof fn law_targets_answer_at_their_address<T>(
    bus: &mut I2cBus<T>,
    addr: u8,
    device: T,
    r: Result<(), String>,
    later: &I2cBus<T>,
    at: u8,
    found: Option<&T>,
)
    requires
        call_ensures(I2cBus::<T>::register, (bus, addr, device), r),
        later@ == final(bus)@,
        call_ensures(I2cBus::<T>::get, (later, at), found),
    ensures
        r is Ok <==> addr <= 0x7f && !old(bus)@.contains_key(addr),
        r is Ok && at == addr ==> found == Some(&device),
        r is Err || at != addr ==> (found is Some <==> old(bus)@.contains_key(at)),
        r is Err || at != addr ==> (found matches Some(t) ==> *t == old(bus)@[at]),
{
}

} // verus!
