//! Control events, and the two things that an engine takes from outside:
//! the decoding of MIDI messages and the draw of random numbers.

use rand::Rng;
use vstd::prelude::*;
use crate::decimal::Decimal;

verus! {

/// A control event.
#[derive(Clone, Copy, Debug, PartialEq, Eq, Structural)]
pub enum Event {
    /// A note is struck: note and velocity.
    NoteOn(u8, u8),
    /// A note ends: note and velocity.
    NoteOff(u8, u8),
    /// A controller changes: controller and value.
    ControlChange(u8, u8),
    /// Any other message.  Engines pass over it.
    Other,
}

impl Event {
    /// Notes, velocities, controllers and values are seven-bit numbers.
    pub open spec fn wf(self) -> bool {
        match self {
            Event::NoteOn(note, velocity) => note <= 127 && velocity <= 127,
            Event::NoteOff(note, velocity) => note <= 127 && velocity <= 127,
            Event::ControlChange(controller, value) => controller <= 127 && value <= 127,
            Event::Other => true,
        }
    }

    /// Whether the numbers of the event are seven-bit numbers.
    pub fn is_wf(&self) -> (r: bool)
        ensures
            r == self.wf(),
    {
        match *self {
            Event::NoteOn(note, velocity) => note <= 127 && velocity <= 127,
            Event::NoteOff(note, velocity) => note <= 127 && velocity <= 127,
            Event::ControlChange(controller, value) => controller <= 127 && value <= 127,
            Event::Other => true,
        }
    }
}

/// wmidi's `MidiMessage`.  Trusted: the verifier knows the type by name
/// only, and sees nothing inside a message.
#[verifier::external_type_specification]
#[verifier::external_body]
pub struct ExMidiMessage<'a>(wmidi::MidiMessage<'a>);

/// The event that a MIDI message stands for: a note-on, note-off or control
/// change of wmidi becomes the event of the same name, with the numbers of
/// its note, velocity, controller and value and without its channel; every
/// other message becomes [`Event::Other`].  The verifier sees nothing
/// inside a message, so it knows this event by name only.
pub uninterp spec fn event_named(msg: wmidi::MidiMessage) -> Event;

/// The event that a MIDI message stands for.
///
/// Takes wmidi's `MidiMessage` apart and calls `u8::from` on its fields.
/// The variants `NoteOn`, `NoteOff` and `ControlChange` become the events
/// of the same name, without their channel; every other variant becomes
/// [`Event::Other`].  Trusted: the result is the event named by the
/// message, the same for the same message.
#[verifier::external_body]
pub(crate) fn event_of(msg: &wmidi::MidiMessage) -> (e: Event)
    ensures
        e == event_named(*msg),
{
    match msg {
        wmidi::MidiMessage::NoteOn(_, note, velocity) => Event::NoteOn(u8::from(*note), u8::from(*velocity)),
        wmidi::MidiMessage::NoteOff(_, note, velocity) => Event::NoteOff(u8::from(*note), u8::from(*velocity)),
        wmidi::MidiMessage::ControlChange(_, number, value) => Event::ControlChange(u8::from(*number), u8::from(*value)),
        _ => Event::Other,
    }
}

/// A random number below `bound`.
///
/// Calls `gen_range(0, bound)` on rand's `thread_rng()`.  Trusted: the
/// result lies in `0 .. bound`.  Nothing else is known of it; two calls
/// may differ.
#[verifier::external_body]
pub(crate) fn random_below(bound: u32) -> (r: u32)
    requires
        bound > 0,
    ensures
        r < bound,
{
    rand::thread_rng().gen_range(0, bound)
}

/// `d` is a random draw: a decimal in `0 .. 1`.
pub open spec fn is_draw(d: Decimal) -> bool {
    0 <= d.billionths < 1_000_000_000
}

/// A random draw, uniform over the billionths of `0 .. 1`.
pub fn random_draw() -> (d: Decimal)
    ensures
        is_draw(d),
{
    Decimal::new(random_below(1_000_000_000) as i64)
}

} // verus!
