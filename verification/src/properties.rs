//! Applies inline modifiers (instrument, volume, panning, delay) to a note
//! stack, validating each value against its documented range.

use vstd::prelude::*;

use crate::fraction::{frac_le, frac_lt, frac_wf, Fraction};
use crate::note::{frac_minus_one, frac_one, frac_zero, NoteEvent};
use crate::text::{str_concat, str_concat3, str_eq};
use crate::value::{targets_view, CycleTarget, TargetModel};

verus! {

/// A validated property assignment.
#[derive(Clone, Copy, Debug, PartialEq, Eq)]
pub enum NoteProperty {
    Instrument(usize),
    Volume(Fraction),
    Panning(Fraction),
    Delay(Fraction),
}

/// The error for a named property without a numeric value.
pub open spec fn msg_must_be_number(name: Seq<char>) -> Seq<char> {
    name + " property must be a number value"@
}

/// The error for a property value outside its documented range.
pub open spec fn msg_out_of_range(name: Seq<char>) -> Seq<char> {
    name + " property is out of range"@
}

/// The error for an unknown property name; it names the offending property
/// and the accepted set.
pub open spec fn msg_invalid_property(name: Seq<char>) -> Seq<char> {
    "invalid note property: '"@ + name
        + "'. expecting number values with '#' (instrument), 'v' (volume), 'p' (panning) or 'd' (delay) prefixes here."@
}

/// Validates one inline target.
///
/// An instrument index must be non-negative; volume lies in `[0, 1]`,
/// panning in `[-1, 1]` and delay in `[0, 1)` - the upper bound is strictly
/// exclusive, since a full-step delay would collide with the next step.
/// Any other property name is rejected.
pub open spec fn spec_validate_target(t: TargetModel) -> Result<NoteProperty, Seq<char>> {
    match t {
        TargetModel::Index(i) => if i >= 0 {
            Ok(NoteProperty::Instrument(i as usize))
        } else {
            Err(msg_out_of_range("instrument"@))
        },
        TargetModel::Named(name, value) => if name == "v"@ {
            match spec_validate_fraction(value, "volume"@, frac_zero(), frac_one(), false) {
                Ok(x) => Ok(NoteProperty::Volume(x)),
                Err(m) => Err(m),
            }
        } else if name == "p"@ {
            match spec_validate_fraction(value, "panning"@, frac_minus_one(), frac_one(), false) {
                Ok(x) => Ok(NoteProperty::Panning(x)),
                Err(m) => Err(m),
            }
        } else if name == "d"@ {
            match spec_validate_fraction(value, "delay"@, frac_zero(), frac_one(), true) {
                Ok(x) => Ok(NoteProperty::Delay(x)),
                Err(m) => Err(m),
            }
        } else {
            Err(msg_invalid_property(name))
        },
    }
}

/// Validates a numeric property value against `[min, max]`, or `[min, max)`
/// when the upper bound is exclusive.
pub open spec fn spec_validate_fraction(
    value: Option<Fraction>,
    name: Seq<char>,
    min: Fraction,
    max: Fraction,
    max_exclusive: bool,
) -> Result<Fraction, Seq<char>> {
    match value {
        None => Err(msg_must_be_number(name)),
        Some(x) => if frac_wf(x) && frac_le(min, x) && (if max_exclusive {
            frac_lt(x, max)
        } else {
            frac_le(x, max)
        }) {
            Ok(x)
        } else {
            Err(msg_out_of_range(name))
        },
    }
}

/// Wraps a validated fraction into the property the name selects.
pub open spec fn spec_named_property(name: Seq<char>, x: Fraction) -> NoteProperty {
    if name == "v"@ {
        NoteProperty::Volume(x)
    } else if name == "p"@ {
        NoteProperty::Panning(x)
    } else {
        NoteProperty::Delay(x)
    }
}

/// One note event with one property assigned.
pub open spec fn spec_set_property(ev: NoteEvent, p: NoteProperty) -> NoteEvent {
    match p {
        NoteProperty::Instrument(id) => NoteEvent { instrument: Some(id), ..ev },
        NoteProperty::Volume(v) => NoteEvent { volume: v, ..ev },
        NoteProperty::Panning(v) => NoteEvent { panning: v, ..ev },
        NoteProperty::Delay(v) => NoteEvent { delay: v, ..ev },
    }
}

/// A property assigned to every populated slot of a note stack; empty slots
/// stay untouched.
pub open spec fn spec_apply_property(
    stack: Seq<Option<NoteEvent>>,
    p: NoteProperty,
) -> Seq<Option<NoteEvent>> {
    Seq::new(
        stack.len(),
        |i: int|
            match stack[i] {
                Some(ev) => Some(spec_set_property(ev, p)),
                None => None,
            },
    )
}

/// Properties applied in target order, so a later target overwrites an
/// earlier one for the same property; the first invalid target decides the
/// error.
pub open spec fn spec_apply_targets(
    stack: Seq<Option<NoteEvent>>,
    ts: Seq<TargetModel>,
) -> Result<Seq<Option<NoteEvent>>, Seq<char>>
    decreases ts.len(),
{
    if ts.len() == 0 {
        Ok(stack)
    } else {
        match spec_validate_target(ts[0]) {
            Err(m) => Err(m),
            Ok(p) => spec_apply_targets(spec_apply_property(stack, p), ts.skip(1)),
        }
    }
}

/// What applying inline targets to a note stack returns and leaves behind:
/// with no targets or an empty stack it is a no-op that succeeds without
/// even validating; otherwise the targets are validated and applied in order.
pub open spec fn spec_apply_note_properties(
    stack: Seq<Option<NoteEvent>>,
    ts: Seq<TargetModel>,
) -> Result<Seq<Option<NoteEvent>>, Seq<char>> {
    if ts.len() == 0 || stack.len() == 0 {
        Ok(stack)
    } else {
        spec_apply_targets(stack, ts)
    }
}

/// Applying properties with no targets or to an empty note stack succeeds
/// and mutates nothing, whatever the targets hold.
pub proof fn lemma_apply_empty_is_noop(stack: Seq<Option<NoteEvent>>, ts: Seq<TargetModel>)
    requires
        ts.len() == 0 || stack.len() == 0,
    ensures
        spec_apply_note_properties(stack, ts) == Ok::<_, Seq<char>>(stack),
{
}

/// The view of a validation result.
pub open spec fn prop_result_view(r: Result<NoteProperty, String>) -> Result<
    NoteProperty,
    Seq<char>,
> {
    match r {
        Ok(p) => Ok(p),
        Err(m) => Err(m@),
    }
}

/// Checks that a value is in range; the error message names the property.
///
/// The range is inclusive on both ends.
pub fn integer_value_in_range(value: i32, name: &str, min: i32, max: i32) -> (r: Result<
    i32,
    String,
>)
    ensures
        min <= value <= max ==> r == Ok::<i32, String>(value),
        !(min <= value <= max) ==> r is Err && r->Err_0@ == msg_out_of_range(name@),
{
    if min <= value && value <= max {
        Ok(value)
    } else {
        Err(str_concat(name, " property is out of range"))
    }
}

/// Checks that an optional numeric property value is present and in range.
fn fraction_value_in_range(
    value: &Option<Fraction>,
    name: &str,
    min: Fraction,
    max: Fraction,
    max_exclusive: bool,
) -> (r: Result<Fraction, String>)
    requires
        frac_wf(min),
        frac_wf(max),
    ensures
        (match (r, spec_validate_fraction(*value, name@, min, max, max_exclusive)) {
            (Ok(x), Ok(y)) => x == y,
            (Err(m), Err(s)) => m@ == s,
            _ => false,
        }),
{
    match value {
        None => Err(str_concat(name, " property must be a number value")),
        Some(x) => {
            let in_range = x.den() > 0 && min.le(x) && (if max_exclusive {
                x.lt(&max)
            } else {
                x.le(&max)
            });
            if in_range {
                Ok(*x)
            } else {
                Err(str_concat(name, " property is out of range"))
            }
        },
    }
}

/// Validates one inline target into a property assignment.
fn validate_target(t: &CycleTarget) -> (r: Result<NoteProperty, String>)
    ensures
        prop_result_view(r) == spec_validate_target(t@),
{
    match t {
        CycleTarget::Index(i) => {
            match integer_value_in_range(*i, "instrument", 0, 0x7fff_ffff) {
                Ok(idx) => Ok(NoteProperty::Instrument(idx as usize)),
                Err(m) => Err(m),
            }
        },
        CycleTarget::Named(name, value) => {
            if str_eq(name.as_str(), "v") {
                match fraction_value_in_range(
                    value,
                    "volume",
                    Fraction::new(0, 1),
                    Fraction::new(1, 1),
                    false,
                ) {
                    Ok(x) => Ok(NoteProperty::Volume(x)),
                    Err(m) => Err(m),
                }
            } else if str_eq(name.as_str(), "p") {
                match fraction_value_in_range(
                    value,
                    "panning",
                    Fraction::new(-1 as i32, 1),
                    Fraction::new(1, 1),
                    false,
                ) {
                    Ok(x) => Ok(NoteProperty::Panning(x)),
                    Err(m) => Err(m),
                }
            } else if str_eq(name.as_str(), "d") {
                match fraction_value_in_range(
                    value,
                    "delay",
                    Fraction::new(0, 1),
                    Fraction::new(1, 1),
                    true,
                ) {
                    Ok(x) => Ok(NoteProperty::Delay(x)),
                    Err(m) => Err(m),
                }
            } else {
                Err(
                    str_concat3(
                        "invalid note property: '",
                        name.as_str(),
                        "'. expecting number values with '#' (instrument), 'v' (volume), 'p' (panning) or 'd' (delay) prefixes here.",
                    ),
                )
            }
        },
    }
}

/// If every target up to the failing one validates, the whole application
/// fails with that target's error, whatever the stack holds.
proof fn lemma_apply_targets_err(
    stack: Seq<Option<NoteEvent>>,
    ts: Seq<TargetModel>,
    i: int,
    m: Seq<char>,
)
    requires
        0 <= i < ts.len(),
        forall|j: int| 0 <= j < i ==> #[trigger] spec_validate_target(ts[j]) is Ok,
        spec_validate_target(ts[i]) == Err::<NoteProperty, Seq<char>>(m),
    ensures
        spec_apply_targets(stack, ts) == Err::<Seq<Option<NoteEvent>>, Seq<char>>(m),
    decreases i,
{
    if i == 0 {
    } else {
        let p = spec_validate_target(ts[0])->Ok_0;
        assert(ts.skip(1)[i - 1] == ts[i]);
        assert(forall|j: int|
            0 <= j < i - 1 ==> #[trigger] spec_validate_target(ts.skip(1)[j])
                == spec_validate_target(ts[j + 1]));
        lemma_apply_targets_err(spec_apply_property(stack, p), ts.skip(1), i - 1, m);
    }
}

/// Applying all properties one by one, front first.
pub open spec fn spec_apply_properties(
    stack: Seq<Option<NoteEvent>>,
    props: Seq<NoteProperty>,
) -> Seq<Option<NoteEvent>>
    decreases props.len(),
{
    if props.len() == 0 {
        stack
    } else {
        spec_apply_properties(spec_apply_property(stack, props[0]), props.skip(1))
    }
}

/// When every target validates, applying the targets is applying their
/// properties in order.
proof fn lemma_apply_targets_ok(
    stack: Seq<Option<NoteEvent>>,
    ts: Seq<TargetModel>,
    props: Seq<NoteProperty>,
)
    requires
        ts.len() == props.len(),
        forall|j: int|
            0 <= j < ts.len() ==> #[trigger] spec_validate_target(ts[j]) == Ok::<
                NoteProperty,
                Seq<char>,
            >(props[j]),
    ensures
        spec_apply_targets(stack, ts) == Ok::<_, Seq<char>>(spec_apply_properties(stack, props)),
    decreases ts.len(),
{
    if ts.len() == 0 {
    } else {
        assert(forall|j: int|
            0 <= j < ts.len() - 1 ==> #[trigger] spec_validate_target(ts.skip(1)[j])
                == spec_validate_target(ts[j + 1]));
        assert(forall|j: int| 0 <= j < props.len() - 1 ==> props.skip(1)[j] == props[j + 1]);
        lemma_apply_targets_ok(spec_apply_property(stack, props[0]), ts.skip(1), props.skip(1));
    }
}

/// Assigns one property to every populated slot of the stack.
fn apply_property(note_events: &mut Vec<Option<NoteEvent>>, p: NoteProperty)
    ensures
        final(note_events)@ == spec_apply_property(old(note_events)@, p),
{
    let ghost orig = note_events@;
    let mut out: Vec<Option<NoteEvent>> = Vec::new();
    let mut k: usize = 0;
    while k < note_events.len()
        invariant
            k <= note_events.len(),
            note_events@ == orig,
            out@.len() == k as int,
            forall|j: int| 0 <= j < k as int ==> out@[j] == spec_apply_property(orig, p)[j],
        decreases note_events.len() - k,
    {
        match note_events[k] {
            Some(ev) => {
                let updated = match p {
                    NoteProperty::Instrument(id) => NoteEvent { instrument: Some(id), ..ev },
                    NoteProperty::Volume(v) => NoteEvent { volume: v, ..ev },
                    NoteProperty::Panning(v) => NoteEvent { panning: v, ..ev },
                    NoteProperty::Delay(v) => NoteEvent { delay: v, ..ev },
                };
                out.push(Some(updated));
            },
            None => {
                out.push(None);
            },
        }
        k = k + 1;
    }
    assert(out@ =~= spec_apply_property(orig, p));
    *note_events = out;
}

/// Applies inline targets as note properties to the given note events.
///
/// With no targets or an empty stack this is a no-op that succeeds.
/// Otherwise every target is validated first, so on an error the stack is
/// left unchanged; then the properties are applied in target order, a later
/// target overwriting an earlier one for the same property.
pub fn apply_cycle_note_properties(
    note_events: &mut Vec<Option<NoteEvent>>,
    targets: &[CycleTarget],
) -> (r: Result<(), String>)
    ensures
        (match spec_apply_note_properties(old(note_events)@, targets_view(targets@)) {
            Ok(s) => r is Ok && final(note_events)@ == s,
            Err(m) => r is Err && r->Err_0@ == m && final(note_events)@ == old(note_events)@,
        }),
{
    let ghost ts = targets_view(targets@);
    if targets.len() == 0 || note_events.len() == 0 {
        return Ok(());
    }
    let mut props: Vec<NoteProperty> = Vec::new();
    let mut i: usize = 0;
    while i < targets.len()
        invariant
            i <= targets.len(),
            ts == targets_view(targets@),
            ts.len() == targets@.len(),
            old(note_events)@.len() > 0,
            note_events@ == old(note_events)@,
            props@.len() == i as int,
            forall|j: int|
                0 <= j < i as int ==> #[trigger] spec_validate_target(ts[j]) == Ok::<
                    NoteProperty,
                    Seq<char>,
                >(props@[j]),
        decreases targets.len() - i,
    {
        assert(ts[i as int] == targets@[i as int]@);
        match validate_target(&targets[i]) {
            Ok(p) => {
                props.push(p);
            },
            Err(m) => {
                proof {
                    lemma_apply_targets_err(old(note_events)@, ts, i as int, m@);
                }
                return Err(m);
            },
        }
        i = i + 1;
    }
    proof {
        lemma_apply_targets_ok(old(note_events)@, ts, props@);
        assert(props@.skip(0) =~= props@);
    }
    let ghost stack0 = note_events@;
    let ghost goal = spec_apply_properties(stack0, props@);
    let mut k: usize = 0;
    while k < props.len()
        invariant
            k <= props.len(),
            spec_apply_note_properties(old(note_events)@, targets_view(targets@)) == Ok::<
                _,
                Seq<char>,
            >(goal),
            goal == spec_apply_properties(note_events@, props@.skip(k as int)),
        decreases props.len() - k,
    {
        let ghost before = note_events@;
        apply_property(note_events, props[k]);
        proof {
            assert(props@.skip(k as int)[0] == props@[k as int]);
            assert(props@.skip(k as int).skip(1) =~= props@.skip(k as int + 1));
        }
        k = k + 1;
    }
    proof {
        assert(props@.skip(props@.len() as int) =~= Seq::<NoteProperty>::empty());
        assert(spec_apply_properties(note_events@, Seq::<NoteProperty>::empty()) == note_events@);
    }
    Ok(())
}

} // verus!
