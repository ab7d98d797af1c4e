//! Default resolution of one symbolic pattern value into a note stack.

use vstd::prelude::*;
use vstd::string::StrSliceExecFns;

use crate::note::{new_note, spec_new_note, Note, NoteEvent};
use crate::text::str_concat3;
use crate::text::str_eq;
use crate::value::{CycleValue, ValueModel};

verus! {

/// A key number clamped to the 128-key chromatic range.
pub open spec fn spec_clamp_key(k: int) -> u8 {
    if k < 0 {
        0u8
    } else if k > 127 {
        127u8
    } else {
        k as u8
    }
}

/// The intervals of a chord mode, in keys above the root, or `None` for an
/// unknown mode name.
pub open spec fn spec_chord_intervals(mode: Seq<char>) -> Option<Seq<u8>> {
    if mode == "maj"@ || mode == "major"@ {
        Some(seq![0u8, 4u8, 7u8])
    } else if mode == "min"@ || mode == "minor"@ {
        Some(seq![0u8, 3u8, 7u8])
    } else if mode == "maj7"@ {
        Some(seq![0u8, 4u8, 7u8, 11u8])
    } else if mode == "min7"@ {
        Some(seq![0u8, 3u8, 7u8, 10u8])
    } else if mode == "7"@ || mode == "dom7"@ {
        Some(seq![0u8, 4u8, 7u8, 10u8])
    } else if mode == "dim"@ {
        Some(seq![0u8, 3u8, 6u8])
    } else if mode == "dim7"@ {
        Some(seq![0u8, 3u8, 6u8, 9u8])
    } else if mode == "aug"@ {
        Some(seq![0u8, 4u8, 8u8])
    } else if mode == "sus2"@ {
        Some(seq![0u8, 2u8, 7u8])
    } else if mode == "sus4"@ {
        Some(seq![0u8, 5u8, 7u8])
    } else if mode == "6"@ {
        Some(seq![0u8, 4u8, 7u8, 9u8])
    } else if mode == "min6"@ {
        Some(seq![0u8, 3u8, 7u8, 9u8])
    } else if mode == "5"@ {
        Some(seq![0u8, 7u8])
    } else if mode == "maj9"@ {
        Some(seq![0u8, 4u8, 7u8, 11u8, 14u8])
    } else if mode == "min9"@ {
        Some(seq![0u8, 3u8, 7u8, 10u8, 14u8])
    } else {
        None
    }
}

/// The intervals of a chord mode.
fn chord_intervals(mode: &str) -> (r: Option<Vec<u8>>)
    ensures
        (match (r, spec_chord_intervals(mode@)) {
            (Some(v), Some(s)) => v@ == s,
            (None, None) => true,
            _ => false,
        }),
{
    if str_eq(mode, "maj") || str_eq(mode, "major") {
        Some(vec![0u8, 4u8, 7u8])
    } else if str_eq(mode, "min") || str_eq(mode, "minor") {
        Some(vec![0u8, 3u8, 7u8])
    } else if str_eq(mode, "maj7") {
        Some(vec![0u8, 4u8, 7u8, 11u8])
    } else if str_eq(mode, "min7") {
        Some(vec![0u8, 3u8, 7u8, 10u8])
    } else if str_eq(mode, "7") || str_eq(mode, "dom7") {
        Some(vec![0u8, 4u8, 7u8, 10u8])
    } else if str_eq(mode, "dim") {
        Some(vec![0u8, 3u8, 6u8])
    } else if str_eq(mode, "dim7") {
        Some(vec![0u8, 3u8, 6u8, 9u8])
    } else if str_eq(mode, "aug") {
        Some(vec![0u8, 4u8, 8u8])
    } else if str_eq(mode, "sus2") {
        Some(vec![0u8, 2u8, 7u8])
    } else if str_eq(mode, "sus4") {
        Some(vec![0u8, 5u8, 7u8])
    } else if str_eq(mode, "6") {
        Some(vec![0u8, 4u8, 7u8, 9u8])
    } else if str_eq(mode, "min6") {
        Some(vec![0u8, 3u8, 7u8, 9u8])
    } else if str_eq(mode, "5") {
        Some(vec![0u8, 7u8])
    } else if str_eq(mode, "maj9") {
        Some(vec![0u8, 4u8, 7u8, 11u8, 14u8])
    } else if str_eq(mode, "min9") {
        Some(vec![0u8, 3u8, 7u8, 10u8, 14u8])
    } else {
        None
    }
}

/// Case-insensitive match for the token "off".
pub open spec fn is_off_name(s: Seq<char>) -> bool {
    &&& s.len() == 3
    &&& (s[0] == 'o' || s[0] == 'O')
    &&& (s[1] == 'f' || s[1] == 'F')
    &&& (s[2] == 'f' || s[2] == 'F')
}

/// The error for an unknown chord mode; it names the offending mode.
pub open spec fn msg_unknown_mode(mode: Seq<char>) -> Seq<char> {
    "unknown chord mode: '"@ + mode + "'"@
}

/// The note stack a chord expands to: one note per interval, each the root
/// transposed by that interval and clamped to the chromatic range.
pub open spec fn spec_chord_stack(root: u8, intervals: Seq<u8>) -> Seq<Option<NoteEvent>> {
    Seq::new(
        intervals.len(),
        |k: int| spec_new_note(Note::Key(spec_clamp_key(root as int + intervals[k] as int))),
    )
}

/// What one symbolic value resolves to by default, before any mapping-table
/// override and before inline targets are applied.
///
/// Hold, Float, a bare Target and an unrecognised Name carry no note of
/// their own; Rest and the name "off" (in any case) are an explicit off;
/// an Integer is clamped to the chromatic range; a Chord expands to one
/// note per interval of its mode, and an unknown mode is the one failure.
pub open spec fn spec_resolve(v: ValueModel) -> Result<Seq<Option<NoteEvent>>, Seq<char>> {
    match v {
        ValueModel::Hold => Ok(seq![None]),
        ValueModel::Rest => Ok(seq![spec_new_note(Note::Off)]),
        ValueModel::Float(_) => Ok(seq![None]),
        ValueModel::Integer(i) => Ok(seq![spec_new_note(Note::Key(spec_clamp_key(i as int)))]),
        ValueModel::Pitch(p) => Ok(seq![spec_new_note(Note::Key(spec_clamp_key(p as int)))]),
        ValueModel::Chord(root, mode) => match spec_chord_intervals(mode) {
            Some(intervals) => Ok(spec_chord_stack(root, intervals)),
            None => Err(msg_unknown_mode(mode)),
        },
        ValueModel::Target(_) => Ok(seq![None]),
        ValueModel::Name(s) => if is_off_name(s) {
            Ok(seq![spec_new_note(Note::Off)])
        } else {
            Ok(seq![None])
        },
    }
}

/// The view of a resolved note stack.
pub open spec fn stack_result_view(r: Result<Vec<Option<NoteEvent>>, String>) -> Result<
    Seq<Option<NoteEvent>>,
    Seq<char>,
> {
    match r {
        Ok(v) => Ok(v@),
        Err(m) => Err(m@),
    }
}

/// A one-slot note stack.
fn singleton(x: Option<NoteEvent>) -> (r: Vec<Option<NoteEvent>>)
    ensures
        r@ == seq![x],
{
    let mut v: Vec<Option<NoteEvent>> = Vec::new();
    v.push(x);
    proof {
        assert(v@ =~= seq![x]);
    }
    v
}

/// Resolves one symbolic value into its default note stack.
///
/// Returns an error naming the mode when a chord mode is unknown.
pub fn note_stack_from_value(value: &CycleValue) -> (r: Result<Vec<Option<NoteEvent>>, String>)
    ensures
        stack_result_view(r) == spec_resolve(value@),
{
    match value {
        CycleValue::Hold => Ok(singleton(None)),
        CycleValue::Rest => Ok(singleton(new_note(Note::Off))),
        CycleValue::Float(_) => Ok(singleton(None)),
        CycleValue::Integer(i) => {
            let key: u8 = if *i < 0 {
                0u8
            } else if *i > 127 {
                127u8
            } else {
                *i as u8
            };
            Ok(singleton(new_note(Note::Key(key))))
        },
        CycleValue::Pitch(p) => {
            let key: u8 = if *p > 127 {
                127u8
            } else {
                *p
            };
            Ok(singleton(new_note(Note::Key(key))))
        },
        CycleValue::Chord(root, mode) => {
            match chord_intervals(mode.as_str()) {
                None => Err(str_concat3("unknown chord mode: '", mode.as_str(), "'")),
                Some(intervals) => {
                    let ghost spec_stack = spec_chord_stack(*root, intervals@);
                    let mut stack: Vec<Option<NoteEvent>> = Vec::new();
                    let mut k: usize = 0;
                    while k < intervals.len()
                        invariant
                            k <= intervals.len(),
                            spec_stack == spec_chord_stack(*root, intervals@),
                            spec_stack.len() == intervals@.len(),
                            stack@.len() == k as int,
                            forall|j: int| 0 <= j < k as int ==> stack@[j] == spec_stack[j],
                        decreases intervals.len() - k,
                    {
                        let sum: u32 = (*root as u32) + (intervals[k] as u32);
                        let key: u8 = if sum > 127 {
                            127u8
                        } else {
                            sum as u8
                        };
                        stack.push(new_note(Note::Key(key)));
                        k = k + 1;
                    }
                    assert(stack@ =~= spec_stack);
                    Ok(stack)
                },
            }
        },
        CycleValue::Target(_) => Ok(singleton(None)),
        CycleValue::Name(s) => {
            let st = s.as_str();
            let is_off = st.unicode_len() == 3 && {
                let c0 = st.get_char(0);
                let c1 = st.get_char(1);
                let c2 = st.get_char(2);
                (c0 == 'o' || c0 == 'O') && (c1 == 'f' || c1 == 'F') && (c2 == 'f' || c2 == 'F')
            };
            if is_off {
                Ok(singleton(new_note(Note::Off)))
            } else {
                Ok(singleton(None))
            }
        },
    }
}

} // verus!
