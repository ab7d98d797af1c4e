//! Unit tests of the components: exact fractions, the property applier, the
//! value resolver and the per-pass accumulator.

use cycle_emitter::accumulator::CycleNoteEvents;
use cycle_emitter::fraction::Fraction;
use cycle_emitter::note::{new_note, Event, Note, NoteEvent};
use cycle_emitter::properties::{apply_cycle_note_properties, integer_value_in_range};
use cycle_emitter::resolver::note_stack_from_value;
use cycle_emitter::value::{CycleTarget, CycleValue};

fn plain_note(key: u8) -> Option<NoteEvent> {
    new_note(Note::Key(key))
}

fn volume_target(num: i32, den: i32) -> CycleTarget {
    CycleTarget::Named("v".to_string(), Some(Fraction::new(num, den)))
}

#[test]
fn fractions_compare_by_value() {
    let half = Fraction::new(1, 2);
    let two_quarters = Fraction::new(2, 4);
    let third = Fraction::new(1, 3);
    assert!(half.eq_value(&two_quarters));
    assert!(third.lt(&half));
    assert!(third.le(&two_quarters));
    assert!(!half.lt(&two_quarters));
    assert!(half.min_value(third).eq_value(&third));
}

#[test]
fn applying_no_targets_is_a_noop() {
    let mut stack = vec![plain_note(60), None];
    let before = stack.clone();
    assert!(apply_cycle_note_properties(&mut stack, &[]).is_ok());
    assert_eq!(stack, before);
}

#[test]
fn applying_to_empty_stack_is_a_noop() {
    // even an invalid target is not validated when there is nothing to touch
    let mut stack: Vec<Option<NoteEvent>> = vec![];
    let bad = CycleTarget::Named("zzz".to_string(), None);
    assert!(apply_cycle_note_properties(&mut stack, &[bad]).is_ok());
    assert!(stack.is_empty());
}

#[test]
fn property_bounds_are_exact() {
    let fresh = || vec![plain_note(60)];

    // delay 1.0 is rejected: the upper bound is strictly exclusive
    let mut stack = fresh();
    let delay_one = CycleTarget::Named("d".to_string(), Some(Fraction::new(1, 1)));
    assert!(apply_cycle_note_properties(&mut stack, &[delay_one]).is_err());

    // delay 999/1000 is accepted
    let mut stack = fresh();
    let delay_under = CycleTarget::Named("d".to_string(), Some(Fraction::new(999, 1000)));
    assert!(apply_cycle_note_properties(&mut stack, &[delay_under]).is_ok());
    assert!(stack[0].unwrap().delay.eq_value(&Fraction::new(999, 1000)));

    // volume 1.0 accepted, 11/10 rejected
    let mut stack = fresh();
    assert!(apply_cycle_note_properties(&mut stack, &[volume_target(1, 1)]).is_ok());
    let mut stack = fresh();
    assert!(apply_cycle_note_properties(&mut stack, &[volume_target(11, 10)]).is_err());

    // panning -1.0 and 1.0 both accepted
    for num in [-1i32, 1i32] {
        let mut stack = fresh();
        let pan = CycleTarget::Named("p".to_string(), Some(Fraction::new(num, 1)));
        assert!(apply_cycle_note_properties(&mut stack, &[pan]).is_ok());
        assert!(stack[0].unwrap().panning.eq_value(&Fraction::new(num, 1)));
    }
}

#[test]
fn later_target_overwrites_earlier() {
    let mut stack = vec![plain_note(60)];
    let targets = [volume_target(1, 4), volume_target(3, 4)];
    assert!(apply_cycle_note_properties(&mut stack, &targets).is_ok());
    assert!(stack[0].unwrap().volume.eq_value(&Fraction::new(3, 4)));
}

#[test]
fn property_errors_name_the_property() {
    let mut stack = vec![plain_note(60)];
    let unknown = CycleTarget::Named("q".to_string(), Some(Fraction::new(1, 2)));
    let err = apply_cycle_note_properties(&mut stack, &[unknown]).unwrap_err();
    assert!(err.contains("invalid note property: 'q'"));
    assert!(err.contains("instrument"));

    let mut stack = vec![plain_note(60)];
    let missing = CycleTarget::Named("v".to_string(), None);
    let err = apply_cycle_note_properties(&mut stack, &[missing]).unwrap_err();
    assert!(err.contains("volume property must be a number value"));

    let mut stack = vec![plain_note(60)];
    let negative = CycleTarget::Index(-1);
    let err = apply_cycle_note_properties(&mut stack, &[negative]).unwrap_err();
    assert!(err.contains("instrument property is out of range"));

    // on an error the stack is left untouched
    assert_eq!(stack, vec![plain_note(60)]);
}

#[test]
fn instrument_applies_to_every_populated_slot() {
    let mut stack = vec![plain_note(60), None, plain_note(64)];
    assert!(apply_cycle_note_properties(&mut stack, &[CycleTarget::Index(7)]).is_ok());
    assert_eq!(stack[0].unwrap().instrument, Some(7));
    assert_eq!(stack[1], None);
    assert_eq!(stack[2].unwrap().instrument, Some(7));
}

#[test]
fn integer_range_check_reports_out_of_range() {
    assert_eq!(integer_value_in_range(5, "instrument", 0, 100), Ok(5));
    let err = integer_value_in_range(-3, "instrument", 0, 100).unwrap_err();
    assert!(err.contains("instrument property is out of range"));
}

#[test]
fn resolver_maps_every_value_kind() {
    assert_eq!(
        note_stack_from_value(&CycleValue::Hold).unwrap(),
        vec![None]
    );
    assert_eq!(
        note_stack_from_value(&CycleValue::Rest).unwrap(),
        vec![new_note(Note::Off)]
    );
    assert_eq!(
        note_stack_from_value(&CycleValue::Float(Fraction::new(1, 2))).unwrap(),
        vec![None]
    );
    assert_eq!(
        note_stack_from_value(&CycleValue::Integer(130)).unwrap(),
        vec![plain_note(127)]
    );
    assert_eq!(
        note_stack_from_value(&CycleValue::Pitch(64)).unwrap(),
        vec![plain_note(64)]
    );
    assert_eq!(
        note_stack_from_value(&CycleValue::Target(CycleTarget::Index(1))).unwrap(),
        vec![None]
    );
    assert_eq!(
        note_stack_from_value(&CycleValue::Name("off".to_string())).unwrap(),
        vec![new_note(Note::Off)]
    );
    assert_eq!(
        note_stack_from_value(&CycleValue::Name("bd".to_string())).unwrap(),
        vec![None]
    );
}

#[test]
fn chord_modes_resolve_their_intervals() {
    let stack = note_stack_from_value(&CycleValue::Chord(48, "min7".to_string())).unwrap();
    assert_eq!(
        stack,
        vec![plain_note(48), plain_note(51), plain_note(55), plain_note(58)]
    );
    // a chord near the top of the range clamps per note
    let high = note_stack_from_value(&CycleValue::Chord(125, "maj".to_string())).unwrap();
    assert_eq!(high, vec![plain_note(125), plain_note(127), plain_note(127)]);
    let err = note_stack_from_value(&CycleValue::Chord(48, "weird".to_string())).unwrap_err();
    assert_eq!(err, "unknown chord mode: 'weird'");
}

#[test]
fn accumulator_keeps_one_entry_per_start() {
    let mut acc = CycleNoteEvents::new();
    // two contributions of the same channel at the same instant, written
    // with different denominators: the second overwrites, the shorter
    // length wins
    acc.add(0, Fraction::new(1, 2), Fraction::new(1, 2), vec![plain_note(60)]);
    acc.add(0, Fraction::new(2, 4), Fraction::new(1, 4), vec![plain_note(72)]);
    let events = acc.into_event_iter_items();
    assert_eq!(events.len(), 1);
    assert!(events[0].length.eq_value(&Fraction::new(1, 4)));
    match &events[0].event {
        Event::NoteEvents(stack) => assert_eq!(stack, &vec![plain_note(72)]),
    }
}

#[test]
fn accumulator_orders_and_pads_channels() {
    let mut acc = CycleNoteEvents::new();
    // channel 1 fires late in the pass with a two-note stack; channel 0
    // fires earlier with one note; inserts arrive out of order
    acc.add(1, Fraction::new(1, 2), Fraction::new(1, 2), vec![plain_note(70), plain_note(74)]);
    acc.add(0, Fraction::new(0, 1), Fraction::new(1, 2), vec![plain_note(60)]);
    let events = acc.into_event_iter_items();
    assert_eq!(events.len(), 2);
    // ascending start order is restored
    assert!(events[0].start.eq_value(&Fraction::new(0, 1)));
    assert!(events[1].start.eq_value(&Fraction::new(1, 2)));
    // both events are 1 + 2 slots wide: silent channels pad with None
    match &events[0].event {
        Event::NoteEvents(stack) => {
            assert_eq!(stack, &vec![plain_note(60), None, None]);
        }
    }
    match &events[1].event {
        Event::NoteEvents(stack) => {
            assert_eq!(stack, &vec![None, plain_note(70), plain_note(74)]);
        }
    }
}

#[test]
fn accumulator_pads_short_stacks_with_offs() {
    let mut acc = CycleNoteEvents::new();
    // the channel's maximum width is two, so its one-note instant is padded
    // with an explicit off, not with silence
    acc.add(0, Fraction::new(0, 2), Fraction::new(1, 2), vec![plain_note(60), plain_note(64)]);
    acc.add(0, Fraction::new(1, 2), Fraction::new(1, 2), vec![plain_note(67)]);
    let events = acc.into_event_iter_items();
    assert_eq!(events.len(), 2);
    match &events[1].event {
        Event::NoteEvents(stack) => {
            assert_eq!(stack, &vec![plain_note(67), new_note(Note::Off)]);
        }
    }
}

#[test]
fn default_parameter_type_is_float() {
    assert_eq!(
        cycle_emitter::ParameterType::default(),
        cycle_emitter::ParameterType::Float
    );
}
