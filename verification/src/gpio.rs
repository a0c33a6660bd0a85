//! A bank of GPIO lines, and the lines that fired since they were last asked
//! for.

use vstd::prelude::*;

verus! {

/// The line has no direction.
pub const DIRECTION_NONE: u8 = 0x00;

/// The guest drives the line.
pub const DIRECTION_OUT: u8 = 0x01;

/// The guest reads the line.
pub const DIRECTION_IN: u8 = 0x02;

/// One GPIO chip.
pub trait GpioBank {
    /// How many lines it has.
    fn ngpio(&self) -> u16;

    /// The names of the lines; none is offered if there are none.
    fn names(&self) -> (r: Vec<String>)
        default_ensures
            r@.len() == 0,
    {
        Vec::new()
    }

    /// One of the three directions.
    fn get_direction(&mut self, line: u16) -> u8;

    /// Sets one of the three directions.
    fn set_direction(&mut self, line: u16, direction: u8);

    /// 0 or 1.
    fn get_value(&mut self, line: u16) -> u8;

    /// Sets 0 or 1.
    fn set_value(&mut self, line: u16, value: u8);

    /// The lines that fired since the last call.
    fn take_fired_irqs(&mut self) -> (r: Vec<u16>)
        default_ensures
            r@.len() == 0,
    {
        Vec::new()
    }
}

/// The lines of a bank that fired and were not asked for yet.
pub struct FiredLines {
    lines: Vec<u16>,
}

impl View for FiredLines {
    type V = Seq<u16>;

    closed spec fn view(&self) -> Seq<u16> {
        self.lines@
    }
}

impl FiredLines {
    /// None fired.
    pub fn new() -> (r: Self)
        ensures
            r@.len() == 0,
    {
        FiredLines { lines: Vec::new() }
    }

    /// The line `line` fired.
    pub fn raise_irq(&mut self, line: u16)
        ensures
            final(self)@ == old(self)@.push(line),
    {
        self.lines.push(line);
    }

    /// The lines that fired, in order; they are forgotten.
    pub fn take(&mut self) -> (r: Vec<u16>)
        ensures
            r@ == old(self)@,
            final(self)@.len() == 0,
    {
        let mut out: Vec<u16> = Vec::new();
        core::mem::swap(&mut out, &mut self.lines);
        out
    }
}

} // verus!
