//! Note events and the composite events handed to the playback engine.

use vstd::prelude::*;

use crate::fraction::{frac_le, frac_lt, frac_wf, Fraction};

verus! {

/// The identifier of an instrument, assigned by the host.
pub type InstrumentId = usize;

/// A pitch on the chromatic scale, or the explicit note-off marker.
#[derive(Clone, Copy, Debug, PartialEq, Eq)]
pub enum Note {
    /// Stops whatever sounds in the slot.
    Off,
    /// A key number on the chromatic scale, starting twelve keys per octave
    /// from key 0.
    Key(u8),
}

/// A note names a key on the 128-key chromatic range, or is the off marker.
pub open spec fn note_wf(n: Note) -> bool {
    match n {
        Note::Off => true,
        Note::Key(k) => k <= 127,
    }
}

/// One note in a note stack: which instrument plays which note, and how.
#[derive(Clone, Copy, Debug, PartialEq, Eq)]
pub struct NoteEvent {
    /// The instrument to play the note on; `None` leaves the host's choice.
    pub instrument: Option<InstrumentId>,
    /// The note itself, or the off marker.
    pub note: Note,
    /// Playback volume, in `[0, 1]`.
    pub volume: Fraction,
    /// Stereo panning, in `[-1, 1]`; `0` is centre.
    pub panning: Fraction,
    /// Delay within the event's own step, in `[0, 1)` of the step length.
    pub delay: Fraction,
}

/// The volume `1`.
pub open spec fn frac_one() -> Fraction {
    Fraction { num: 1, den: 1 }
}

/// The value `0`.
pub open spec fn frac_zero() -> Fraction {
    Fraction { num: 0, den: 1 }
}

/// The value `-1`.
pub open spec fn frac_minus_one() -> Fraction {
    Fraction { num: -1 as i32, den: 1 }
}

/// A note event is well formed when its note is and all its properties lie
/// in their documented ranges.
pub open spec fn note_event_wf(e: NoteEvent) -> bool {
    &&& note_wf(e.note)
    &&& frac_wf(e.volume)
    &&& frac_wf(e.panning)
    &&& frac_wf(e.delay)
    &&& frac_le(frac_zero(), e.volume) && frac_le(e.volume, frac_one())
    &&& frac_le(frac_minus_one(), e.panning) && frac_le(e.panning, frac_one())
    &&& frac_le(frac_zero(), e.delay) && frac_lt(e.delay, frac_one())
}

/// The note event a freshly resolved note starts from: full volume, centred,
/// no delay, no instrument.
pub open spec fn spec_new_note(note: Note) -> Option<NoteEvent> {
    Some(
        NoteEvent {
            instrument: None,
            note,
            volume: frac_one(),
            panning: frac_zero(),
            delay: frac_zero(),
        },
    )
}

/// Builds a filled note-stack slot with the default properties: volume `1`,
/// panning `0`, delay `0`, instrument unset.
pub fn new_note(note: Note) -> (r: Option<NoteEvent>)
    ensures
        r == spec_new_note(note),
        note_wf(note) ==> note_event_wf(r->Some_0),
{
    Some(
        NoteEvent {
            instrument: None,
            note,
            volume: Fraction::new(1, 1),
            panning: Fraction::new(0, 1),
            delay: Fraction::new(0, 1),
        },
    )
}

/// What a composite event carries: a note stack, one optional note event per
/// voice slot.  `None` in a slot means "no change", unlike an explicit off.
#[derive(Clone, Debug, PartialEq, Eq)]
pub enum Event {
    NoteEvents(Vec<Option<NoteEvent>>),
}

/// One unit returned to the playback engine: a note stack together with the
/// exact fractional start and length of its instant inside the cycle.
#[derive(Clone, Debug, PartialEq, Eq)]
pub struct EmitterEvent {
    pub event: Event,
    pub start: Fraction,
    pub length: Fraction,
}

/// The mathematical shape of an [`EmitterEvent`].
pub ghost struct EmitterEventModel {
    pub stack: Seq<Option<NoteEvent>>,
    pub start: Fraction,
    pub length: Fraction,
}

impl View for EmitterEvent {
    type V = EmitterEventModel;

    open spec fn view(&self) -> EmitterEventModel {
        match self.event {
            Event::NoteEvents(stack) => EmitterEventModel {
                stack: stack@,
                start: self.start,
                length: self.length,
            },
        }
    }
}

} // verus!
