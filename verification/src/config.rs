//! Comparison configuration: strength, case level and numeric collation,
//! plus the three-way comparison result and the library's error type.

use vstd::prelude::*;

verus! {

/// Precision of a comparison: which weight levels take part.
///
/// `Primary` distinguishes base letters only; `Secondary` adds diacritics;
/// `Tertiary` adds case and variant distinctions; `Quaternary` adds
/// otherwise-ignorable characters such as spaces.
#[derive(Clone, Copy, PartialEq, Eq, Structural, Debug)]
pub enum Strength {
    Primary,
    Secondary,
    Tertiary,
    Quaternary,
}

impl Strength {
    /// Numeric rank of this strength, used to compare precisions.
    pub open spec fn rank(self) -> int {
        match self {
            Strength::Primary => 1,
            Strength::Secondary => 2,
            Strength::Tertiary => 3,
            Strength::Quaternary => 4,
        }
    }
}

/// Independent toggle that surfaces upper-case/lower-case distinctions in a
/// dedicated pass between the secondary and tertiary passes, without
/// raising the overall strength.  At primary strength the comparison stops
/// before that pass, so the toggle has no effect there.
#[derive(Clone, Copy, PartialEq, Eq, Structural, Debug)]
pub enum CaseLevel {
    Off,
    On,
}

/// Immutable comparison configuration, fixed for a whole sort.
///
/// `numeric` replaces each maximal run of decimal digits by a single
/// synthetic weight ordered by the run's integer value.
#[derive(Clone, Copy, PartialEq, Eq, Structural, Debug)]
pub struct Config {
    pub strength: Strength,
    pub case_level: CaseLevel,
    pub numeric: bool,
}

impl Default for Config {
    /// The default configuration: tertiary strength, case level off,
    /// numeric collation off.
    fn default() -> (r: Config)
        ensures
            r == (Config {
                strength: Strength::Tertiary,
                case_level: CaseLevel::Off,
                numeric: false,
            }),
    {
        Config { strength: Strength::Tertiary, case_level: CaseLevel::Off, numeric: false }
    }
}

/// Three-way result of a comparison.
#[derive(Clone, Copy, PartialEq, Eq, Structural, Debug)]
pub enum Rank {
    Less,
    Equal,
    Greater,
}

/// Errors a sort can surface.
///
/// `InvalidText` marks malformed input text; the verified core works on
/// already-decoded characters, which are valid by construction, so it never
/// produces this value itself.  `UnsupportedConfiguration` is reserved for
/// defensive validation of option combinations.  `DataUnavailable` marks a
/// weight table that could not be built.
#[derive(Clone, Copy, PartialEq, Eq, Structural, Debug)]
pub enum CollateError {
    InvalidText,
    UnsupportedConfiguration,
    DataUnavailable,
}

} // verus!
