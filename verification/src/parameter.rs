//! Value kinds of host-visible template parameters.
//!
//! A parameter cell itself lives with the host - its value is a float the
//! host edits during playback - but the kind of value it holds, which
//! decides how it is displayed and rounded, is plain data and lives here.

use vstd::prelude::*;

verus! {

/// Value representation of a parameter: how its stored number is read.
#[derive(Debug, Copy, Clone, PartialEq, Eq, Structural)]
pub enum ParameterType {
    /// A switch: anything above one half reads as on.
    Boolean,
    /// A plain continuous value.
    Float,
    /// A value rounded to the nearest whole number.
    Integer,
    /// An index into a fixed list of named values.
    Enum,
}

impl Default for ParameterType {
    /// The default kind is a plain continuous value.
    fn default() -> (r: ParameterType)
        ensures
            r == ParameterType::Float,
    {
        ParameterType::Float
    }
}

} // verus!
