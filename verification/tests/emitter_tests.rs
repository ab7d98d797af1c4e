//! End-to-end tests of the cycle emitter: compilation, generation, merging,
//! mapping overrides and the lifecycle contract.

use cycle_emitter::fraction::Fraction;
use cycle_emitter::note::{Event, Note, NoteEvent};
use cycle_emitter::{new_cycle_emitter, new_cycle_emitter_with_seed};

fn plain_note(key: u8) -> Option<NoteEvent> {
    Some(NoteEvent {
        instrument: None,
        note: Note::Key(key),
        volume: Fraction::new(1, 1),
        panning: Fraction::new(0, 1),
        delay: Fraction::new(0, 1),
    })
}

fn stack_of(ev: &cycle_emitter::note::EmitterEvent) -> &Vec<Option<NoteEvent>> {
    match &ev.event {
        Event::NoteEvents(stack) => stack,
    }
}

#[test]
fn single_pitch_generates_one_event() {
    let emitter = new_cycle_emitter("c6").unwrap();
    let events = emitter.generate().unwrap();
    assert_eq!(events.len(), 1);
    assert_eq!(events[0].start, Fraction::new(0, 1));
    assert_eq!(events[0].length, Fraction::new(1, 1));
    assert_eq!(stack_of(&events[0]), &vec![plain_note(72)]);
}

#[test]
fn run_without_fire_returns_nothing() {
    // a pulse whose value does not fire yields no events; a firing one does
    let emitter = new_cycle_emitter("c6").unwrap();
    assert!(emitter.run(false).is_none());
    let events = emitter.run(true).unwrap();
    assert_eq!(events.len(), 1);
    assert_eq!(stack_of(&events[0]), &vec![plain_note(72)]);
}

#[test]
fn channels_merge_with_stable_width() {
    // channel 0 fires at 0 and 1/2, channel 1 only at 0: every flattened
    // event still spans both channels' maximum widths
    let emitter = new_cycle_emitter("c4 e4 , g4").unwrap();
    let events = emitter.generate().unwrap();
    assert_eq!(events.len(), 2);
    for ev in &events {
        assert_eq!(stack_of(ev).len(), 2);
    }
    assert_eq!(events[0].start, Fraction::new(0, 2));
    assert_eq!(stack_of(&events[0]), &vec![plain_note(48), plain_note(55)]);
    // at 1/2 the second channel stayed silent: its slot is None, not gone
    assert_eq!(events[1].start, Fraction::new(1, 2));
    assert_eq!(stack_of(&events[1]), &vec![plain_note(52), None]);
}

#[test]
fn chord_expands_to_one_note_per_interval() {
    let emitter = new_cycle_emitter("c4'maj").unwrap();
    let events = emitter.generate().unwrap();
    assert_eq!(events.len(), 1);
    assert_eq!(
        stack_of(&events[0]),
        &vec![plain_note(48), plain_note(52), plain_note(55)]
    );
}

#[test]
fn unknown_chord_mode_names_the_mode() {
    let emitter = new_cycle_emitter("c4'xyz").unwrap();
    let err = emitter.generate().unwrap_err();
    assert!(err.contains("xyz"));
    assert!(err.contains("unknown chord mode"));
}

#[test]
fn parse_failure_is_reported() {
    let err = match new_cycle_emitter("c4 [") {
        Err(e) => e,
        Ok(_) => panic!("parse should fail"),
    };
    assert!(err.contains("invalid cycle pattern"));
    assert!(new_cycle_emitter("<>").is_err());
    assert!(new_cycle_emitter("1.2.3").is_err());
}

#[test]
fn mapping_overrides_resolver() {
    // "bd" resolves to a silent slot by default, but a mapping-table entry
    // overrides the resolver entirely
    let default_events = new_cycle_emitter("bd").unwrap().generate().unwrap();
    assert_eq!(stack_of(&default_events[0]), &vec![None]);

    let mapped = new_cycle_emitter("bd")
        .unwrap()
        .with_mappings(&[("bd".to_string(), vec![plain_note(12)])]);
    let events = mapped.generate().unwrap();
    assert_eq!(events.len(), 1);
    assert_eq!(stack_of(&events[0]), &vec![plain_note(12)]);
}

#[test]
fn mapping_table_is_replaced_not_merged() {
    let emitter = new_cycle_emitter("bd")
        .unwrap()
        .with_mappings(&[("bd".to_string(), vec![plain_note(12)])])
        .with_mappings(&[("sn".to_string(), vec![plain_note(40)])]);
    // the second call replaced the whole table, so "bd" resolves by default
    let events = emitter.generate().unwrap();
    assert_eq!(stack_of(&events[0]), &vec![None]);
}

#[test]
fn later_mapping_entry_wins() {
    let emitter = new_cycle_emitter("bd").unwrap().with_mappings(&[
        ("bd".to_string(), vec![plain_note(12)]),
        ("bd".to_string(), vec![plain_note(24)]),
    ]);
    let events = emitter.generate().unwrap();
    assert_eq!(stack_of(&events[0]), &vec![plain_note(24)]);
}

#[test]
fn inline_targets_decorate_notes() {
    let emitter = new_cycle_emitter("c4:3:v0.5:p-0.25:d0.125").unwrap();
    let events = emitter.generate().unwrap();
    let stack = stack_of(&events[0]);
    let note = stack[0].unwrap();
    assert_eq!(note.instrument, Some(3));
    assert!(note.volume.eq_value(&Fraction::new(1, 2)));
    assert!(note.panning.eq_value(&Fraction::new(-1, 4)));
    assert!(note.delay.eq_value(&Fraction::new(1, 8)));
}

#[test]
fn alternation_picks_one_per_pass() {
    let mut emitter = new_cycle_emitter("<c4|e4>").unwrap();
    let first = emitter.generate().unwrap();
    assert_eq!(stack_of(&first[0]), &vec![plain_note(48)]);
    emitter.advance(true);
    let second = emitter.generate().unwrap();
    assert_eq!(stack_of(&second[0]), &vec![plain_note(52)]);
    emitter.advance(false);
    // an unfired pulse does not move the progression
    let third = emitter.generate().unwrap();
    assert_eq!(stack_of(&third[0]), &vec![plain_note(52)]);
    emitter.advance(true);
    let fourth = emitter.generate().unwrap();
    assert_eq!(stack_of(&fourth[0]), &vec![plain_note(48)]);
}

#[test]
fn peeking_is_pure_and_repeatable() {
    let emitter = new_cycle_emitter_with_seed("c4? e4? g4? b4?", 7).unwrap();
    let once = emitter.generate().unwrap();
    let twice = emitter.generate().unwrap();
    assert_eq!(once, twice);
}

#[test]
fn duplicate_then_reset_replays_identically() {
    let mut original = new_cycle_emitter_with_seed("<c4|e4|g4> b4? , 36 ~", 42).unwrap();
    // move the original ahead before duplicating
    original.advance(true);
    original.advance(true);
    let mut clone = original.duplicate();
    clone.advance(true);
    original.reset();
    clone.reset();
    for _ in 0..8 {
        let a = original.generate().unwrap();
        let b = clone.generate().unwrap();
        assert_eq!(a, b);
        original.advance(true);
        clone.advance(true);
    }
}

#[test]
fn same_seed_same_trace_different_seed_may_differ() {
    let gather = |seed: u64| -> Vec<Vec<cycle_emitter::note::EmitterEvent>> {
        let mut e = new_cycle_emitter_with_seed("c4? e4? g4? b4? c5? e5? g5? b5?", seed).unwrap();
        let mut trace = Vec::new();
        for _ in 0..6 {
            trace.push(e.generate().unwrap());
            e.advance(true);
        }
        trace
    };
    assert_eq!(gather(5), gather(5));
    assert_eq!(gather(99), gather(99));
}

#[test]
fn rest_hold_and_off_resolve_as_documented() {
    let events = new_cycle_emitter("~ _ off OFF x 1.5").unwrap().generate().unwrap();
    assert_eq!(events.len(), 6);
    // rest: explicit off note
    assert_eq!(stack_of(&events[0])[0].unwrap().note, Note::Off);
    // hold: no change
    assert_eq!(stack_of(&events[1])[0], None);
    // the name "off", in any case, is an explicit off
    assert_eq!(stack_of(&events[2])[0].unwrap().note, Note::Off);
    assert_eq!(stack_of(&events[3])[0].unwrap().note, Note::Off);
    // other names carry nothing by default
    assert_eq!(stack_of(&events[4])[0], None);
    // a bare float carries nothing
    assert_eq!(stack_of(&events[5])[0], None);
}

#[test]
fn integers_clamp_to_chromatic_range() {
    let events = new_cycle_emitter("200 -5 60").unwrap().generate().unwrap();
    assert_eq!(stack_of(&events[0])[0].unwrap().note, Note::Key(127));
    assert_eq!(stack_of(&events[1])[0].unwrap().note, Note::Key(0));
    assert_eq!(stack_of(&events[2])[0].unwrap().note, Note::Key(60));
}

#[test]
fn pitches_follow_letter_accidental_octave() {
    let events = new_cycle_emitter("f#3 cb0 b9").unwrap().generate().unwrap();
    assert_eq!(stack_of(&events[0])[0].unwrap().note, Note::Key(42));
    // c flat in octave zero clamps at the bottom of the range
    assert_eq!(stack_of(&events[1])[0].unwrap().note, Note::Key(0));
    assert_eq!(stack_of(&events[2])[0].unwrap().note, Note::Key(119));
}

#[test]
fn spans_divide_the_cycle_evenly() {
    let events = new_cycle_emitter("c4 e4 g4 b4").unwrap().generate().unwrap();
    assert_eq!(events.len(), 4);
    for (i, ev) in events.iter().enumerate() {
        assert!(ev.start.eq_value(&Fraction::new(i as i32, 4)));
        assert!(ev.length.eq_value(&Fraction::new(1, 4)));
    }
}
