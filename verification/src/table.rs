//! Weight table: the immutable mapping from code-point sequences to
//! collation elements for the Greek repertoire.
//!
//! Most keys of the bundled table are single code points.  The exceptions
//! are the length-marked vowels: a vowel followed by a macron or vrachy
//! matches as a two-code-point contraction whose absorbed length mark
//! carries a primary weight, so vowel length is a primary distinction.
//! Lookup is longest-match-first: the contraction wins over the vowel's
//! own single-code-point entry.  Code points outside the supported
//! repertoire get no entry; the collation element generator then falls
//! back to a weight derived from the code point's numeric value, which
//! keeps the ordering total.

use vstd::prelude::*;

use crate::config::CollateError;
use crate::normalize::ccc;
use crate::normalize::ccc_spec;

verus! {

/// One collation element: four ordered weights plus a case flag.
///
/// A zero weight means the element is ignorable at that level and takes no
/// part in the comparison pass for it.
#[derive(Clone, Copy, PartialEq, Eq, Structural, Debug)]
pub struct WeightEntry {
    pub primary: u64,
    pub secondary: u64,
    pub tertiary: u64,
    pub quaternary: u64,
    pub upper: bool,
}

/// First primary weight of the base letters.
pub const LETTER_PRIMARY_BASE: u64 = 256;

/// First primary weight of the decimal digits; digits order before letters.
pub const DIGIT_PRIMARY_BASE: u64 = 16;

/// Primary weight of the synthetic numeric-run element; greater than every
/// digit weight and smaller than every letter weight, so a longer
/// significant-digit sequence (a greater integer value) wins before the
/// digits themselves are compared, and numbers order before letters.
pub const NUMERIC_RUN_PRIMARY: u64 = 32;

/// First primary weight of the fallback range for unsupported code points.
pub const FALLBACK_PRIMARY_BASE: u64 = 0x200000;

/// Primary weight of an absorbed length mark (macron; the vrachy takes
/// the next value): above digits and the numeric-run weight, and below
/// every letter weight, so a length-marked vowel orders after the bare
/// vowel but still before any following letter decides.
pub const LENGTH_PRIMARY_BASE: u64 = 64;

/// Quaternary weight of the space character, greater than the quaternary
/// weight of every letter and mark, so a token with a space orders after an
/// otherwise-equal token without one.
pub const SPACE_QUATERNARY: u64 = 2;

/// Secondary weight of each combining mark the table knows.  Breathing
/// marks order before accents, accents before length marks and dialytika,
/// and the iota subscript last.
pub open spec fn mark_secondary(c: char) -> u64 {
    let u = c as u32;
    if u == 0x313 {
        16
    } else if u == 0x314 {
        17
    } else if u == 0x300 {
        18
    } else if u == 0x301 {
        19
    } else if u == 0x342 {
        20
    } else if u == 0x304 {
        32
    } else if u == 0x306 {
        33
    } else if u == 0x308 {
        34
    } else {
        48
    }
}

/// The bundled table as a mapping: the collation element list of a single
/// code point, or `None` for a code point outside the supported repertoire
/// (the unassigned scalar in the capital-letter range included).
///
/// Base letters share a primary weight across case (final sigma shares the
/// primary of sigma and differs at the tertiary level; upper-case letters
/// differ at the tertiary level and in the case flag).  Free-standing
/// combining marks are primary-ignorable and carry only secondary
/// differences.  The space is ignorable through the tertiary level and
/// counts only at the quaternary level.
pub open spec fn elems_of(c: char) -> Option<Seq<WeightEntry>> {
    let u = c as u32;
    if 0x3B1 <= u && u <= 0x3C9 {
        let idx: int = if u == 0x3C2 {
            0x12
        } else {
            u - 0x3B1
        };
        Some(
            seq![
                WeightEntry {
                    primary: (256 + idx) as u64,
                    secondary: 1,
                    tertiary: if u == 0x3C2 {
                        2
                    } else {
                        1
                    },
                    quaternary: 1,
                    upper: false,
                },
            ],
        )
    } else if 0x391 <= u && u <= 0x3A9 && u != 0x3A2 {
        Some(
            seq![
                WeightEntry {
                    primary: (256 + (u - 0x391)) as u64,
                    secondary: 1,
                    tertiary: 3,
                    quaternary: 1,
                    upper: true,
                },
            ],
        )
    } else if 0x30 <= u && u <= 0x39 {
        Some(
            seq![
                WeightEntry {
                    primary: (16 + (u - 0x30)) as u64,
                    secondary: 1,
                    tertiary: 1,
                    quaternary: 1,
                    upper: false,
                },
            ],
        )
    } else if ccc_spec(c) != 0 {
        Some(
            seq![
                WeightEntry {
                    primary: 0,
                    secondary: mark_secondary(c),
                    tertiary: 1,
                    quaternary: 1,
                    upper: false,
                },
            ],
        )
    } else if u == 0x20 {
        Some(seq![WeightEntry { primary: 0, secondary: 0, tertiary: 0, quaternary: 2, upper: false }])
    } else {
        None
    }
}

/// Whether `u` is a vowel that forms a contraction with a following
/// length mark: alpha, iota and upsilon, in both cases.
pub open spec fn is_long_vowel(u: u32) -> bool {
    u == 0x3B1 || u == 0x3B9 || u == 0x3C5 || u == 0x391 || u == 0x399 || u == 0x3A5
}

/// Whether `u` is a length mark: the macron or the vrachy.
pub open spec fn is_length_mark(u: u32) -> bool {
    u == 0x304 || u == 0x306
}

/// The element an absorbed length mark contributes inside a contraction.
/// Unlike a free-standing combining mark it carries a primary weight, so
/// vowel length distinguishes words at primary strength already.
pub open spec fn length_elem(c: char) -> WeightEntry {
    WeightEntry {
        primary: if c as u32 == 0x304 {
            64
        } else {
            65
        },
        secondary: mark_secondary(c),
        tertiary: 1,
        quaternary: 1,
        upper: false,
    }
}

/// Longest-match lookup in the bundled table, as a mapping: at position
/// `i`, a long vowel followed by a length mark matches as a two-code-point
/// contraction; otherwise the single code point's own entry matches; a
/// code point without an entry yields `None`.
pub open spec fn lookup_spec(s: Seq<char>, i: int) -> Option<(int, Seq<WeightEntry>)> {
    if i + 1 < s.len() && is_long_vowel(s[i] as u32) && is_length_mark(s[i + 1] as u32) {
        Some((2int, elems_of(s[i])->Some_0 + seq![length_elem(s[i + 1])]))
    } else {
        match elems_of(s[i]) {
            Some(es) => Some((1int, es)),
            None => None,
        }
    }
}

/// The weight table value the comparator works with.  The bundled Greek
/// data is total and immutable, so the value itself carries no state; it
/// exists so that construction is an explicit step whose result the caller
/// owns and passes to the generator.
pub struct WeightTable {}

impl WeightTable {
    /// Builds the bundled Greek weight table.  Construction is a fallible
    /// step by design; the bundled data always validates, so the result is
    /// always `Ok`.
    pub fn try_new() -> (r: Result<WeightTable, CollateError>)
        ensures
            r == Ok::<WeightTable, CollateError>(WeightTable {  }),
    {
        Ok(WeightTable {  })
    }

    /// Longest-match lookup at position `pos` of `text`: returns how many
    /// code points the match consumed together with their collation
    /// elements, or `None` for a code point outside the supported
    /// repertoire.  A long vowel followed by a length mark matches as a
    /// two-code-point contraction and wins over the vowel's own entry;
    /// every other match consumes one code point.
    pub fn lookup(&self, text: &Vec<char>, pos: usize) -> (r: Option<(usize, Vec<WeightEntry>)>)
        requires
            pos < text@.len(),
        ensures
            match r {
                Some(m) => 1 <= m.0 && pos + m.0 <= text@.len() && lookup_spec(
                    text@,
                    pos as int,
                ) == Some((m.0 as int, m.1@)),
                None => lookup_spec(text@, pos as int) is None,
            },
    {
        let n = text.len();
        let c = text[pos];
        let u = c as u32;
        let mut v: Vec<WeightEntry> = Vec::new();
        if pos + 1 < n && (u == 0x3B1 || u == 0x3B9 || u == 0x3C5 || u == 0x391 || u == 0x399 || u
            == 0x3A5) {
            let um = text[pos + 1] as u32;
            if um == 0x304 || um == 0x306 {
                let lower = u >= 0x3B1;
                v.push(
                    WeightEntry {
                        primary: 256 + ((if lower {
                            u - 0x3B1
                        } else {
                            u - 0x391
                        }) as u64),
                        secondary: 1,
                        tertiary: if lower {
                            1
                        } else {
                            3
                        },
                        quaternary: 1,
                        upper: !lower,
                    },
                );
                v.push(
                    WeightEntry {
                        primary: if um == 0x304 {
                            64
                        } else {
                            65
                        },
                        secondary: if um == 0x304 {
                            32
                        } else {
                            33
                        },
                        tertiary: 1,
                        quaternary: 1,
                        upper: false,
                    },
                );
                proof {
                    assert(v@ =~= elems_of(text@[pos as int])->Some_0 + seq![
                        length_elem(text@[pos as int + 1]),
                    ]);
                    assert(lookup_spec(text@, pos as int) == Some((2int, v@)));
                }
                return Some((2, v));
            }
        }
        if 0x3B1 <= u && u <= 0x3C9 {
            let idx: u64 = if u == 0x3C2 {
                0x12
            } else {
                (u - 0x3B1) as u64
            };
            let ter: u64 = if u == 0x3C2 {
                2
            } else {
                1
            };
            v.push(
                WeightEntry {
                    primary: 256 + idx,
                    secondary: 1,
                    tertiary: ter,
                    quaternary: 1,
                    upper: false,
                },
            );
            proof {
                assert(lookup_spec(text@, pos as int) == Some((1int, v@))) by {
                    assert(v@ =~= elems_of(text@[pos as int])->Some_0);
                }
            }
            Some((1, v))
        } else if 0x391 <= u && u <= 0x3A9 && u != 0x3A2 {
            v.push(
                WeightEntry {
                    primary: 256 + ((u - 0x391) as u64),
                    secondary: 1,
                    tertiary: 3,
                    quaternary: 1,
                    upper: true,
                },
            );
            proof {
                assert(lookup_spec(text@, pos as int) == Some((1int, v@))) by {
                    assert(v@ =~= elems_of(text@[pos as int])->Some_0);
                }
            }
            Some((1, v))
        } else if 0x30 <= u && u <= 0x39 {
            v.push(
                WeightEntry {
                    primary: 16 + ((u - 0x30) as u64),
                    secondary: 1,
                    tertiary: 1,
                    quaternary: 1,
                    upper: false,
                },
            );
            proof {
                assert(lookup_spec(text@, pos as int) == Some((1int, v@))) by {
                    assert(v@ =~= elems_of(text@[pos as int])->Some_0);
                }
            }
            Some((1, v))
        } else if ccc(c) != 0 {
            let sec: u64 = if u == 0x313 {
                16
            } else if u == 0x314 {
                17
            } else if u == 0x300 {
                18
            } else if u == 0x301 {
                19
            } else if u == 0x342 {
                20
            } else if u == 0x304 {
                32
            } else if u == 0x306 {
                33
            } else if u == 0x308 {
                34
            } else {
                48
            };
            v.push(
                WeightEntry { primary: 0, secondary: sec, tertiary: 1, quaternary: 1, upper: false },
            );
            proof {
                assert(lookup_spec(text@, pos as int) == Some((1int, v@))) by {
                    assert(v@ =~= elems_of(text@[pos as int])->Some_0);
                }
            }
            Some((1, v))
        } else if u == 0x20 {
            v.push(
                WeightEntry { primary: 0, secondary: 0, tertiary: 0, quaternary: 2, upper: false },
            );
            proof {
                assert(lookup_spec(text@, pos as int) == Some((1int, v@))) by {
                    assert(v@ =~= elems_of(text@[pos as int])->Some_0);
                }
            }
            Some((1, v))
        } else {
            None
        }
    }
}

} // verus!
