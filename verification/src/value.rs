//! Symbolic per-channel pattern values and their inline modifiers.
//!
//! These are what the pattern generator produces for each step of a pass:
//! a tagged value, the raw token it came from, an ordered list of inline
//! targets, and the exact fractional span of the step.

use vstd::prelude::*;

use crate::fraction::Fraction;

verus! {

/// One inline modifier attached to a pattern value.
#[derive(Clone, Debug, PartialEq, Eq)]
pub enum CycleTarget {
    /// A bare non-negative index selecting an instrument.
    Index(i32),
    /// A named property ("v", "p" or "d") with an optional numeric value.
    Named(String, Option<Fraction>),
}

/// One symbolic pattern value.
#[derive(Clone, Debug, PartialEq, Eq)]
pub enum CycleValue {
    /// Extends the previous step: no change at this slot.
    Hold,
    /// An explicit rest: a note-off.
    Rest,
    /// A bare number with a fractional part; reserved, carries no note.
    Float(Fraction),
    /// An integer, taken as a key number clamped to the chromatic range.
    Integer(i32),
    /// A pitch, already resolved to its key number.
    Pitch(u8),
    /// A chord: a root key number and the name of a chord mode.
    Chord(u8, String),
    /// A bare modifier with no note of its own.
    Target(CycleTarget),
    /// A free-form token, resolved through the mapping table or to nothing.
    Name(String),
}

/// One produced event: the raw token, its value, its inline targets and the
/// exact span it covers inside the unit interval of the cycle.
#[derive(Clone, Debug, PartialEq, Eq)]
pub struct CycleEvent {
    pub string: String,
    pub value: CycleValue,
    pub targets: Vec<CycleTarget>,
    pub start: Fraction,
    pub length: Fraction,
}

/// The mathematical shape of a [`CycleTarget`].
pub ghost enum TargetModel {
    Index(i32),
    Named(Seq<char>, Option<Fraction>),
}

/// The mathematical shape of a [`CycleValue`].
pub ghost enum ValueModel {
    Hold,
    Rest,
    Float(Fraction),
    Integer(i32),
    Pitch(u8),
    Chord(u8, Seq<char>),
    Target(TargetModel),
    Name(Seq<char>),
}

/// The mathematical shape of a [`CycleEvent`].
pub ghost struct CycleEventModel {
    pub string: Seq<char>,
    pub value: ValueModel,
    pub targets: Seq<TargetModel>,
    pub start: Fraction,
    pub length: Fraction,
}

impl View for CycleTarget {
    type V = TargetModel;

    open spec fn view(&self) -> TargetModel {
        match self {
            CycleTarget::Index(i) => TargetModel::Index(*i),
            CycleTarget::Named(name, value) => TargetModel::Named(name@, *value),
        }
    }
}

impl View for CycleValue {
    type V = ValueModel;

    open spec fn view(&self) -> ValueModel {
        match self {
            CycleValue::Hold => ValueModel::Hold,
            CycleValue::Rest => ValueModel::Rest,
            CycleValue::Float(f) => ValueModel::Float(*f),
            CycleValue::Integer(i) => ValueModel::Integer(*i),
            CycleValue::Pitch(p) => ValueModel::Pitch(*p),
            CycleValue::Chord(root, mode) => ValueModel::Chord(*root, mode@),
            CycleValue::Target(t) => ValueModel::Target(t@),
            CycleValue::Name(s) => ValueModel::Name(s@),
        }
    }
}

/// The views of a sequence of targets, in order.
pub open spec fn targets_view(s: Seq<CycleTarget>) -> Seq<TargetModel> {
    Seq::new(s.len(), |i: int| s[i]@)
}

impl View for CycleEvent {
    type V = CycleEventModel;

    open spec fn view(&self) -> CycleEventModel {
        CycleEventModel {
            string: self.string@,
            value: self.value@,
            targets: targets_view(self.targets@),
            start: self.start,
            length: self.length,
        }
    }
}

} // verus!
