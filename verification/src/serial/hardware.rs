//! The pin-level hardware capability the Microwire driver runs on, together
//! with the event history its contracts are stated over.

use vstd::prelude::*;

verus! {

/// The three output pins driven towards the EEPROM.
#[derive(Clone, Copy, PartialEq, Eq, Structural, Debug)]
pub struct OutPins {
    pub chip_select: bool,
    pub clock: bool,
    pub data: bool,
}

/// One observable interaction with the pins, in order of occurrence:
/// driving the output pins, sampling the input pin (with the value seen),
/// or pausing for one clock half-edge.
#[derive(Clone, Copy, PartialEq, Eq, Structural, Debug)]
pub enum PinEvent {
    Drive(OutPins),
    Sample(bool),
    Pause,
}

/// The pin-event history of one hardware implementation, as its `history`
/// view returns it.
pub type PinHistory = Seq<PinEvent>;

/// Pin-level access to one Microwire EEPROM.
///
/// An implementation drives three output pins, samples the one input pin,
/// and pauses for at least one clock half-edge (at least 250 ns) on
/// `delay`; a pause that can return early must re-sleep until the time has
/// really passed, since a short pause violates the device's setup times.
///
/// The `history` view records every interaction in order.  Each method
/// appends exactly its own event; the driver's contracts are stated over
/// this history, so they hold for every implementation that appends
/// faithfully, whatever the device answers.
pub trait Hardware: Sized {
    spec fn history(&self) -> Seq<PinEvent>;

    fn set_pins(&mut self, pins: OutPins)
        ensures
            final(self).history() == old(self).history().push(PinEvent::Drive(pins)),
    ;

    fn read_pin(&mut self) -> (r: bool)
        ensures
            final(self).history() == old(self).history().push(PinEvent::Sample(r)),
    ;

    fn delay(&mut self)
        ensures
            final(self).history() == old(self).history().push(PinEvent::Pause),
    ;
}

/// `h` extends `h0`: everything in `h0` has already happened, in order.
pub open spec fn extends(h: Seq<PinEvent>, h0: Seq<PinEvent>) -> bool {
    h0.is_prefix_of(h)
}

} // verus!
