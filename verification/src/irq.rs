//! The interrupt lines of a machine, by number.

use std::collections::HashMap;

use vstd::prelude::*;

verus! {

/// Every line that a machine has. A line is whatever `L` is: what raises the
/// interrupt when it is signalled.
pub struct IrqRegistry<L> {
    lines: HashMap<u32, L>,
}

impl<L> View for IrqRegistry<L> {
    type V = Map<u32, L>;

    closed spec fn view(&self) -> Map<u32, L> {
        self.lines@
    }
}

impl<L> IrqRegistry<L> {
    /// No lines.
    pub fn new() -> (r: Self)
        ensures
            r@ == Map::<u32, L>::empty(),
    {
        IrqRegistry { lines: HashMap::new() }
    }

    /// Whether a line for `gsi` still has to be made. Several devices may
    /// share one.
    pub fn is_missing(&self, gsi: u32) -> (r: bool)
        ensures
            r == !self@.contains_key(gsi),
    {
        broadcast use vstd::std_specs::hash::group_hash_axioms;

        !self.lines.contains_key(&gsi)
    }

    /// Adds the line for `gsi`, unless there is one already.
    pub fn register(&mut self, gsi: u32, line: L)
        ensures
            final(self)@ == (if old(self)@.contains_key(gsi) {
                old(self)@
            } else {
                old(self)@.insert(gsi, line)
            }),
    {
        broadcast use vstd::std_specs::hash::group_hash_axioms;

        if !self.lines.contains_key(&gsi) {
            self.lines.insert(gsi, line);
        }
    }

    /// The line to signal for `gsi`. None is a mistake of the machine's, not
    /// of the guest's.
    pub fn line(&self, gsi: u32) -> (r: Option<&L>)
        ensures
            match r {
                Some(l) => self@.contains_key(gsi) && *l == self@[gsi],
                None => !self@.contains_key(gsi),
            },
    {
        broadcast use vstd::std_specs::hash::group_hash_axioms;

        self.lines.get(&gsi)
    }
}

/// A line is found under its number once it is registered; a second one under
/// the same number does not replace it, and no other is touched.
pub proof fn law_lines_are_found<L>(
    reg: &mut IrqRegistry<L>,
    gsi: u32,
    line: L,
    later: &IrqRegistry<L>,
    at: u32,
    found: Option<&L>,
    missing: bool,
)
    requires
        call_ensures(IrqRegistry::<L>::register, (reg, gsi, line), ()),
        later@ == final(reg)@,
        call_ensures(IrqRegistry::<L>::line, (later, at), found),
        call_ensures(IrqRegistry::<L>::is_missing, (later, at), missing),
    ensures
        missing <==> found is None,
        at == gsi && !old(reg)@.contains_key(gsi) ==> found == Some(&line),
        old(reg)@.contains_key(at) ==> (found matches Some(l) && *l == old(reg)@[at]),
        at != gsi ==> (found is Some <==> old(reg)@.contains_key(at)),
{
}

} // verus!
