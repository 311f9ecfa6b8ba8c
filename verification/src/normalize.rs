//! Normalizer: canonical decomposition for Greek-script text.
//!
//! Each precomposed accented letter is split into its base letter followed
//! by combining marks, and runs of combining marks are put into canonical
//! combining-class order.  The pass is a pure function of its input and is
//! idempotent ([`lemma_normalize_idempotent`]).

use vstd::prelude::*;

verus! {

/// Canonical combining class of a character, for the Greek repertoire:
/// the polytonic diacritics carry class 230, the iota subscript class 240,
/// and every other character (base letters included) class 0.
pub open spec fn ccc_spec(c: char) -> int {
    let u = c as u32;
    if u == 0x300 || u == 0x301 || u == 0x304 || u == 0x306 || u == 0x308 || u == 0x313 || u
        == 0x314 || u == 0x342 {
        230
    } else if u == 0x345 {
        240
    } else {
        0
    }
}

/// Executable combining class, matching [`ccc_spec`].
pub fn ccc(c: char) -> (r: u32)
    ensures
        r as int == ccc_spec(c),
{
    let u = c as u32;
    if u == 0x300 || u == 0x301 || u == 0x304 || u == 0x306 || u == 0x308 || u == 0x313 || u
        == 0x314 || u == 0x342 {
        230
    } else if u == 0x345 {
        240
    } else {
        0
    }
}

/// Whether `u` lies in the regular breathing-and-accent region of the
/// Greek Extended block, whose decompositions follow one arithmetic rule.
pub open spec fn in_ext_regular(u: u32) -> bool {
    0x1F00 <= u <= 0x1F6F && !ext_regular_gap(u)
}

/// The scalar values inside the breathing-and-accent region that carry no
/// character; they have no decomposition and stand for themselves.
pub open spec fn ext_regular_gap(u: u32) -> bool {
    u == 0x1F16 || u == 0x1F17 || u == 0x1F1E || u == 0x1F1F || u == 0x1F46 || u == 0x1F47 || u
        == 0x1F4E || u == 0x1F4F || u == 0x1F58 || u == 0x1F5A || u == 0x1F5C || u == 0x1F5E
}

/// Whether `u` is one of the vowel-with-varia/oxia pairs of the Greek
/// Extended block.
pub open spec fn in_ext_pair(u: u32) -> bool {
    0x1F70 <= u <= 0x1F7D
}

/// Whether `u` is a breathing-and-accent form that also carries an iota
/// subscript.
pub open spec fn in_ext_iota(u: u32) -> bool {
    0x1F80 <= u <= 0x1FAF
}

/// Base letter of a character in the regular breathing-and-accent region:
/// the region is laid out in rows of sixteen per vowel, lower case in the
/// first half of each row.
pub open spec fn ext_regular_base(u: u32) -> char {
    let k = u - 0x1F00;
    let b = k / 16;
    let up = k % 16 >= 8;
    if b == 0 {
        if up {
            '\u{0391}'
        } else {
            '\u{03B1}'
        }
    } else if b == 1 {
        if up {
            '\u{0395}'
        } else {
            '\u{03B5}'
        }
    } else if b == 2 {
        if up {
            '\u{0397}'
        } else {
            '\u{03B7}'
        }
    } else if b == 3 {
        if up {
            '\u{0399}'
        } else {
            '\u{03B9}'
        }
    } else if b == 4 {
        if up {
            '\u{039F}'
        } else {
            '\u{03BF}'
        }
    } else if b == 5 {
        if up {
            '\u{03A5}'
        } else {
            '\u{03C5}'
        }
    } else {
        if up {
            '\u{03A9}'
        } else {
            '\u{03C9}'
        }
    }
}

/// Decomposition of a character in the regular breathing-and-accent region:
/// base letter, breathing mark (psili on even positions, dasia on odd), and
/// an optional accent selected by the position within the row.
pub open spec fn ext_regular_decomp(u: u32) -> Seq<char> {
    let k = u - 0x1F00;
    let breathing = if k % 2 == 0 {
        '\u{0313}'
    } else {
        '\u{0314}'
    };
    let head = seq![ext_regular_base(u), breathing];
    let a = (k % 8) / 2;
    if a == 1 {
        head.push('\u{0300}')
    } else if a == 2 {
        head.push('\u{0301}')
    } else if a == 3 {
        head.push('\u{0342}')
    } else {
        head
    }
}

/// Base-and-accent character for the varia/oxia pairs: vowels in
/// alphabetical order, varia on even positions, oxia on odd.
pub open spec fn ext_pair_decomp(u: u32) -> Seq<char> {
    let j = u - 0x1F70;
    let v = j / 2;
    let letter = if v == 0 {
        '\u{03B1}'
    } else if v == 1 {
        '\u{03B5}'
    } else if v == 2 {
        '\u{03B7}'
    } else if v == 3 {
        '\u{03B9}'
    } else if v == 4 {
        '\u{03BF}'
    } else if v == 5 {
        '\u{03C5}'
    } else {
        '\u{03C9}'
    };
    let accent = if j % 2 == 0 {
        '\u{0300}'
    } else {
        '\u{0301}'
    };
    seq![letter, accent]
}

/// Code point of the iota-subscript-free counterpart of a
/// breathing-and-accent form with iota subscript.
pub open spec fn ext_iota_base(u: u32) -> u32 {
    if u < 0x1F90 {
        (u - 0x80) as u32
    } else if u < 0x1FA0 {
        (u - 0x70) as u32
    } else {
        (u - 0x40) as u32
    }
}

/// Hand-listed decompositions: the accented letters of the Greek block and
/// the length-mark, iota-subscript and bare-accent rows of the Greek
/// Extended block.  Characters without a listed decomposition stand for
/// themselves.
pub open spec fn listed_decomp(c: char) -> Seq<char> {
    match c {
        '\u{0386}' => seq!['\u{0391}', '\u{0301}'],
        '\u{0388}' => seq!['\u{0395}', '\u{0301}'],
        '\u{0389}' => seq!['\u{0397}', '\u{0301}'],
        '\u{038A}' => seq!['\u{0399}', '\u{0301}'],
        '\u{038C}' => seq!['\u{039F}', '\u{0301}'],
        '\u{038E}' => seq!['\u{03A5}', '\u{0301}'],
        '\u{038F}' => seq!['\u{03A9}', '\u{0301}'],
        '\u{0390}' => seq!['\u{03B9}', '\u{0308}', '\u{0301}'],
        '\u{03AA}' => seq!['\u{0399}', '\u{0308}'],
        '\u{03AB}' => seq!['\u{03A5}', '\u{0308}'],
        '\u{03AC}' => seq!['\u{03B1}', '\u{0301}'],
        '\u{03AD}' => seq!['\u{03B5}', '\u{0301}'],
        '\u{03AE}' => seq!['\u{03B7}', '\u{0301}'],
        '\u{03AF}' => seq!['\u{03B9}', '\u{0301}'],
        '\u{03B0}' => seq!['\u{03C5}', '\u{0308}', '\u{0301}'],
        '\u{03CA}' => seq!['\u{03B9}', '\u{0308}'],
        '\u{03CB}' => seq!['\u{03C5}', '\u{0308}'],
        '\u{03CC}' => seq!['\u{03BF}', '\u{0301}'],
        '\u{03CD}' => seq!['\u{03C5}', '\u{0301}'],
        '\u{03CE}' => seq!['\u{03C9}', '\u{0301}'],
        '\u{1FB0}' => seq!['\u{03B1}', '\u{0306}'],
        '\u{1FB1}' => seq!['\u{03B1}', '\u{0304}'],
        '\u{1FB2}' => seq!['\u{03B1}', '\u{0300}', '\u{0345}'],
        '\u{1FB3}' => seq!['\u{03B1}', '\u{0345}'],
        '\u{1FB4}' => seq!['\u{03B1}', '\u{0301}', '\u{0345}'],
        '\u{1FB6}' => seq!['\u{03B1}', '\u{0342}'],
        '\u{1FB7}' => seq!['\u{03B1}', '\u{0342}', '\u{0345}'],
        '\u{1FB8}' => seq!['\u{0391}', '\u{0306}'],
        '\u{1FB9}' => seq!['\u{0391}', '\u{0304}'],
        '\u{1FBA}' => seq!['\u{0391}', '\u{0300}'],
        '\u{1FBB}' => seq!['\u{0391}', '\u{0301}'],
        '\u{1FBC}' => seq!['\u{0391}', '\u{0345}'],
        '\u{1FC2}' => seq!['\u{03B7}', '\u{0300}', '\u{0345}'],
        '\u{1FC3}' => seq!['\u{03B7}', '\u{0345}'],
        '\u{1FC4}' => seq!['\u{03B7}', '\u{0301}', '\u{0345}'],
        '\u{1FC6}' => seq!['\u{03B7}', '\u{0342}'],
        '\u{1FC7}' => seq!['\u{03B7}', '\u{0342}', '\u{0345}'],
        '\u{1FC8}' => seq!['\u{0395}', '\u{0300}'],
        '\u{1FC9}' => seq!['\u{0395}', '\u{0301}'],
        '\u{1FCA}' => seq!['\u{0397}', '\u{0300}'],
        '\u{1FCB}' => seq!['\u{0397}', '\u{0301}'],
        '\u{1FCC}' => seq!['\u{0397}', '\u{0345}'],
        '\u{1FD0}' => seq!['\u{03B9}', '\u{0306}'],
        '\u{1FD1}' => seq!['\u{03B9}', '\u{0304}'],
        '\u{1FD2}' => seq!['\u{03B9}', '\u{0308}', '\u{0300}'],
        '\u{1FD3}' => seq!['\u{03B9}', '\u{0308}', '\u{0301}'],
        '\u{1FD6}' => seq!['\u{03B9}', '\u{0342}'],
        '\u{1FD7}' => seq!['\u{03B9}', '\u{0308}', '\u{0342}'],
        '\u{1FD8}' => seq!['\u{0399}', '\u{0306}'],
        '\u{1FD9}' => seq!['\u{0399}', '\u{0304}'],
        '\u{1FDA}' => seq!['\u{0399}', '\u{0300}'],
        '\u{1FDB}' => seq!['\u{0399}', '\u{0301}'],
        '\u{1FE0}' => seq!['\u{03C5}', '\u{0306}'],
        '\u{1FE1}' => seq!['\u{03C5}', '\u{0304}'],
        '\u{1FE2}' => seq!['\u{03C5}', '\u{0308}', '\u{0300}'],
        '\u{1FE3}' => seq!['\u{03C5}', '\u{0308}', '\u{0301}'],
        '\u{1FE4}' => seq!['\u{03C1}', '\u{0313}'],
        '\u{1FE5}' => seq!['\u{03C1}', '\u{0314}'],
        '\u{1FE6}' => seq!['\u{03C5}', '\u{0342}'],
        '\u{1FE7}' => seq!['\u{03C5}', '\u{0308}', '\u{0342}'],
        '\u{1FE8}' => seq!['\u{03A5}', '\u{0306}'],
        '\u{1FE9}' => seq!['\u{03A5}', '\u{0304}'],
        '\u{1FEA}' => seq!['\u{03A5}', '\u{0300}'],
        '\u{1FEB}' => seq!['\u{03A5}', '\u{0301}'],
        '\u{1FEC}' => seq!['\u{03A1}', '\u{0314}'],
        '\u{1FF2}' => seq!['\u{03C9}', '\u{0300}', '\u{0345}'],
        '\u{1FF3}' => seq!['\u{03C9}', '\u{0345}'],
        '\u{1FF4}' => seq!['\u{03C9}', '\u{0301}', '\u{0345}'],
        '\u{1FF6}' => seq!['\u{03C9}', '\u{0342}'],
        '\u{1FF7}' => seq!['\u{03C9}', '\u{0342}', '\u{0345}'],
        '\u{1FF8}' => seq!['\u{039F}', '\u{0300}'],
        '\u{1FF9}' => seq!['\u{039F}', '\u{0301}'],
        '\u{1FFA}' => seq!['\u{03A9}', '\u{0300}'],
        '\u{1FFB}' => seq!['\u{03A9}', '\u{0301}'],
        '\u{1FFC}' => seq!['\u{03A9}', '\u{0345}'],
        _ => seq![c],
    }
}

/// Full canonical decomposition of one character.  Characters outside the
/// Greek decomposition ranges decompose to themselves.
pub open spec fn decomp_spec(c: char) -> Seq<char> {
    let u = c as u32;
    if in_ext_regular(u) {
        ext_regular_decomp(u)
    } else if in_ext_pair(u) {
        ext_pair_decomp(u)
    } else if in_ext_iota(u) {
        ext_regular_decomp(ext_iota_base(u)).push('\u{0345}')
    } else {
        listed_decomp(c)
    }
}

/// Executable counterpart of [`ext_regular_decomp`] combined with the
/// optional iota subscript; `u` must lie in the regular region.
fn ext_regular_decomp_x(u: u32, iota: bool) -> (r: Vec<char>)
    requires
        in_ext_regular(u),
    ensures
        iota ==> r@ == ext_regular_decomp(u).push('\u{0345}'),
        !iota ==> r@ == ext_regular_decomp(u),
{
    let k = u - 0x1F00;
    let b = k / 16;
    let up = k % 16 >= 8;
    let base: char = if b == 0 {
        if up {
            '\u{0391}'
        } else {
            '\u{03B1}'
        }
    } else if b == 1 {
        if up {
            '\u{0395}'
        } else {
            '\u{03B5}'
        }
    } else if b == 2 {
        if up {
            '\u{0397}'
        } else {
            '\u{03B7}'
        }
    } else if b == 3 {
        if up {
            '\u{0399}'
        } else {
            '\u{03B9}'
        }
    } else if b == 4 {
        if up {
            '\u{039F}'
        } else {
            '\u{03BF}'
        }
    } else if b == 5 {
        if up {
            '\u{03A5}'
        } else {
            '\u{03C5}'
        }
    } else {
        if up {
            '\u{03A9}'
        } else {
            '\u{03C9}'
        }
    };
    let mut r: Vec<char> = Vec::new();
    r.push(base);
    if k % 2 == 0 {
        r.push('\u{0313}');
    } else {
        r.push('\u{0314}');
    }
    let a = (k % 8) / 2;
    if a == 1 {
        r.push('\u{0300}');
    } else if a == 2 {
        r.push('\u{0301}');
    } else if a == 3 {
        r.push('\u{0342}');
    }
    if iota {
        r.push('\u{0345}');
    }
    r
}

/// Executable decomposition of one character, matching [`decomp_spec`].
#[verifier::rlimit(40)]
pub fn decomp_char(c: char) -> (r: Vec<char>)
    ensures
        r@ == decomp_spec(c),
{
    let u = c as u32;
    let gap = u == 0x1F16 || u == 0x1F17 || u == 0x1F1E || u == 0x1F1F || u == 0x1F46 || u
        == 0x1F47 || u == 0x1F4E || u == 0x1F4F || u == 0x1F58 || u == 0x1F5A || u == 0x1F5C || u
        == 0x1F5E;
    if 0x1F00 <= u && u <= 0x1F6F && !gap {
        ext_regular_decomp_x(u, false)
    } else if 0x1F70 <= u && u <= 0x1F7D {
        let j = u - 0x1F70;
        let v = j / 2;
        let letter: char = if v == 0 {
            '\u{03B1}'
        } else if v == 1 {
            '\u{03B5}'
        } else if v == 2 {
            '\u{03B7}'
        } else if v == 3 {
            '\u{03B9}'
        } else if v == 4 {
            '\u{03BF}'
        } else if v == 5 {
            '\u{03C5}'
        } else {
            '\u{03C9}'
        };
        let mut r: Vec<char> = Vec::new();
        r.push(letter);
        if j % 2 == 0 {
            r.push('\u{0300}');
        } else {
            r.push('\u{0301}');
        }
        r
    } else if 0x1F80 <= u && u <= 0x1FAF {
        let base = if u < 0x1F90 {
            u - 0x80
        } else if u < 0x1FA0 {
            u - 0x70
        } else {
            u - 0x40
        };
        ext_regular_decomp_x(base, true)
    } else {
        listed_decomp_x(c)
    }
}

/// Executable counterpart of [`listed_decomp`].
#[verifier::rlimit(100)]
fn listed_decomp_x(c: char) -> (r: Vec<char>)
    ensures
        r@ == listed_decomp(c),
{
    let u = c as u32;
    let mut r: Vec<char> = Vec::new();
    if u == 0x0386 {
        r.push('\u{0391}');
        r.push('\u{0301}');
    } else if u == 0x0388 {
        r.push('\u{0395}');
        r.push('\u{0301}');
    } else if u == 0x0389 {
        r.push('\u{0397}');
        r.push('\u{0301}');
    } else if u == 0x038A {
        r.push('\u{0399}');
        r.push('\u{0301}');
    } else if u == 0x038C {
        r.push('\u{039F}');
        r.push('\u{0301}');
    } else if u == 0x038E {
        r.push('\u{03A5}');
        r.push('\u{0301}');
    } else if u == 0x038F {
        r.push('\u{03A9}');
        r.push('\u{0301}');
    } else if u == 0x0390 {
        r.push('\u{03B9}');
        r.push('\u{0308}');
        r.push('\u{0301}');
    } else if u == 0x03AA {
        r.push('\u{0399}');
        r.push('\u{0308}');
    } else if u == 0x03AB {
        r.push('\u{03A5}');
        r.push('\u{0308}');
    } else if u == 0x03AC {
        r.push('\u{03B1}');
        r.push('\u{0301}');
    } else if u == 0x03AD {
        r.push('\u{03B5}');
        r.push('\u{0301}');
    } else if u == 0x03AE {
        r.push('\u{03B7}');
        r.push('\u{0301}');
    } else if u == 0x03AF {
        r.push('\u{03B9}');
        r.push('\u{0301}');
    } else if u == 0x03B0 {
        r.push('\u{03C5}');
        r.push('\u{0308}');
        r.push('\u{0301}');
    } else if u == 0x03CA {
        r.push('\u{03B9}');
        r.push('\u{0308}');
    } else if u == 0x03CB {
        r.push('\u{03C5}');
        r.push('\u{0308}');
    } else if u == 0x03CC {
        r.push('\u{03BF}');
        r.push('\u{0301}');
    } else if u == 0x03CD {
        r.push('\u{03C5}');
        r.push('\u{0301}');
    } else if u == 0x03CE {
        r.push('\u{03C9}');
        r.push('\u{0301}');
    } else if u == 0x1FB0 {
        r.push('\u{03B1}');
        r.push('\u{0306}');
    } else if u == 0x1FB1 {
        r.push('\u{03B1}');
        r.push('\u{0304}');
    } else if u == 0x1FB2 {
        r.push('\u{03B1}');
        r.push('\u{0300}');
        r.push('\u{0345}');
    } else if u == 0x1FB3 {
        r.push('\u{03B1}');
        r.push('\u{0345}');
    } else if u == 0x1FB4 {
        r.push('\u{03B1}');
        r.push('\u{0301}');
        r.push('\u{0345}');
    } else if u == 0x1FB6 {
        r.push('\u{03B1}');
        r.push('\u{0342}');
    } else if u == 0x1FB7 {
        r.push('\u{03B1}');
        r.push('\u{0342}');
        r.push('\u{0345}');
    } else if u == 0x1FB8 {
        r.push('\u{0391}');
        r.push('\u{0306}');
    } else if u == 0x1FB9 {
        r.push('\u{0391}');
        r.push('\u{0304}');
    } else if u == 0x1FBA {
        r.push('\u{0391}');
        r.push('\u{0300}');
    } else if u == 0x1FBB {
        r.push('\u{0391}');
        r.push('\u{0301}');
    } else if u == 0x1FBC {
        r.push('\u{0391}');
        r.push('\u{0345}');
    } else if u == 0x1FC2 {
        r.push('\u{03B7}');
        r.push('\u{0300}');
        r.push('\u{0345}');
    } else if u == 0x1FC3 {
        r.push('\u{03B7}');
        r.push('\u{0345}');
    } else if u == 0x1FC4 {
        r.push('\u{03B7}');
        r.push('\u{0301}');
        r.push('\u{0345}');
    } else if u == 0x1FC6 {
        r.push('\u{03B7}');
        r.push('\u{0342}');
    } else if u == 0x1FC7 {
        r.push('\u{03B7}');
        r.push('\u{0342}');
        r.push('\u{0345}');
    } else if u == 0x1FC8 {
        r.push('\u{0395}');
        r.push('\u{0300}');
    } else if u == 0x1FC9 {
        r.push('\u{0395}');
        r.push('\u{0301}');
    } else if u == 0x1FCA {
        r.push('\u{0397}');
        r.push('\u{0300}');
    } else if u == 0x1FCB {
        r.push('\u{0397}');
        r.push('\u{0301}');
    } else if u == 0x1FCC {
        r.push('\u{0397}');
        r.push('\u{0345}');
    } else if u == 0x1FD0 {
        r.push('\u{03B9}');
        r.push('\u{0306}');
    } else if u == 0x1FD1 {
        r.push('\u{03B9}');
        r.push('\u{0304}');
    } else if u == 0x1FD2 {
        r.push('\u{03B9}');
        r.push('\u{0308}');
        r.push('\u{0300}');
    } else if u == 0x1FD3 {
        r.push('\u{03B9}');
        r.push('\u{0308}');
        r.push('\u{0301}');
    } else if u == 0x1FD6 {
        r.push('\u{03B9}');
        r.push('\u{0342}');
    } else if u == 0x1FD7 {
        r.push('\u{03B9}');
        r.push('\u{0308}');
        r.push('\u{0342}');
    } else if u == 0x1FD8 {
        r.push('\u{0399}');
        r.push('\u{0306}');
    } else if u == 0x1FD9 {
        r.push('\u{0399}');
        r.push('\u{0304}');
    } else if u == 0x1FDA {
        r.push('\u{0399}');
        r.push('\u{0300}');
    } else if u == 0x1FDB {
        r.push('\u{0399}');
        r.push('\u{0301}');
    } else if u == 0x1FE0 {
        r.push('\u{03C5}');
        r.push('\u{0306}');
    } else if u == 0x1FE1 {
        r.push('\u{03C5}');
        r.push('\u{0304}');
    } else if u == 0x1FE2 {
        r.push('\u{03C5}');
        r.push('\u{0308}');
        r.push('\u{0300}');
    } else if u == 0x1FE3 {
        r.push('\u{03C5}');
        r.push('\u{0308}');
        r.push('\u{0301}');
    } else if u == 0x1FE4 {
        r.push('\u{03C1}');
        r.push('\u{0313}');
    } else if u == 0x1FE5 {
        r.push('\u{03C1}');
        r.push('\u{0314}');
    } else if u == 0x1FE6 {
        r.push('\u{03C5}');
        r.push('\u{0342}');
    } else if u == 0x1FE7 {
        r.push('\u{03C5}');
        r.push('\u{0308}');
        r.push('\u{0342}');
    } else if u == 0x1FE8 {
        r.push('\u{03A5}');
        r.push('\u{0306}');
    } else if u == 0x1FE9 {
        r.push('\u{03A5}');
        r.push('\u{0304}');
    } else if u == 0x1FEA {
        r.push('\u{03A5}');
        r.push('\u{0300}');
    } else if u == 0x1FEB {
        r.push('\u{03A5}');
        r.push('\u{0301}');
    } else if u == 0x1FEC {
        r.push('\u{03A1}');
        r.push('\u{0314}');
    } else if u == 0x1FF2 {
        r.push('\u{03C9}');
        r.push('\u{0300}');
        r.push('\u{0345}');
    } else if u == 0x1FF3 {
        r.push('\u{03C9}');
        r.push('\u{0345}');
    } else if u == 0x1FF4 {
        r.push('\u{03C9}');
        r.push('\u{0301}');
        r.push('\u{0345}');
    } else if u == 0x1FF6 {
        r.push('\u{03C9}');
        r.push('\u{0342}');
    } else if u == 0x1FF7 {
        r.push('\u{03C9}');
        r.push('\u{0342}');
        r.push('\u{0345}');
    } else if u == 0x1FF8 {
        r.push('\u{039F}');
        r.push('\u{0300}');
    } else if u == 0x1FF9 {
        r.push('\u{039F}');
        r.push('\u{0301}');
    } else if u == 0x1FFA {
        r.push('\u{03A9}');
        r.push('\u{0300}');
    } else if u == 0x1FFB {
        r.push('\u{03A9}');
        r.push('\u{0301}');
    } else if u == 0x1FFC {
        r.push('\u{03A9}');
        r.push('\u{0345}');
    } else {
        r.push(c);
    }
    r
}

/// Decomposition of a whole character sequence, in input order.
pub open spec fn decompose_spec(s: Seq<char>) -> Seq<char>
    decreases s.len(),
{
    if s.len() == 0 {
        Seq::empty()
    } else {
        decompose_spec(s.drop_last()) + decomp_spec(s.last())
    }
}

/// A character that decomposes to itself.
pub open spec fn plain(c: char) -> bool {
    decomp_spec(c) == seq![c]
}

/// Whether `c` is a Greek base letter or one of the combining marks the
/// table knows: exactly the characters the listed decompositions produce.
pub open spec fn base_or_mark(c: char) -> bool {
    let u = c as u32;
    (0x391 <= u <= 0x3A9) || (0x3B1 <= u <= 0x3C9) || ccc_spec(c) != 0
}

/// Every Greek base letter and combining mark decomposes to itself.
#[verifier::rlimit(60)]
pub proof fn lemma_base_or_mark_plain(c: char)
    requires
        base_or_mark(c),
    ensures
        plain(c),
{
    assert(decomp_spec(c) =~= seq![c]);
}

/// Every character a decomposition produces is itself undecomposable.
#[verifier::rlimit(100)]
pub proof fn lemma_decomp_chars_plain(c: char, i: int)
    requires
        0 <= i < decomp_spec(c).len(),
    ensures
        plain(decomp_spec(c)[i]),
{
    let u = c as u32;
    if in_ext_regular(u) || in_ext_pair(u) || in_ext_iota(u) {
        assert(base_or_mark(decomp_spec(c)[i]));
        lemma_base_or_mark_plain(decomp_spec(c)[i]);
    } else if decomp_spec(c) =~= seq![c] {
        assert(plain(c));
    } else {
        assert(base_or_mark(decomp_spec(c)[i]));
        lemma_base_or_mark_plain(decomp_spec(c)[i]);
    }
}

/// Decomposing a sequence of undecomposable characters returns it unchanged.
pub proof fn lemma_decompose_plain_id(s: Seq<char>)
    requires
        forall|i: int| 0 <= i < s.len() ==> plain(#[trigger] s[i]),
    ensures
        decompose_spec(s) == s,
    decreases s.len(),
{
    if s.len() == 0 {
        assert(decompose_spec(s) =~= s);
    } else {
        lemma_decompose_plain_id(s.drop_last());
        assert(decomp_spec(s.last()) == seq![s.last()]);
        assert(decompose_spec(s) =~= s);
    }
}

/// Every character of a decomposed sequence is undecomposable.
pub proof fn lemma_decompose_chars_plain(s: Seq<char>, i: int)
    requires
        0 <= i < decompose_spec(s).len(),
    ensures
        plain(decompose_spec(s)[i]),
    decreases s.len(),
{
    if s.len() > 0 {
        let front = decompose_spec(s.drop_last());
        if i < front.len() {
            lemma_decompose_chars_plain(s.drop_last(), i);
        } else {
            lemma_decomp_chars_plain(s.last(), i - front.len());
        }
    }
}

/// Places one character into an already-reordered sequence: a combining
/// mark moves left past marks of a strictly greater combining class, and
/// every other character is appended.
pub open spec fn insert_mark(s: Seq<char>, c: char) -> Seq<char>
    decreases s.len(),
{
    if ccc_spec(c) == 0 {
        s.push(c)
    } else if s.len() > 0 && ccc_spec(s.last()) > ccc_spec(c) {
        insert_mark(s.drop_last(), c).push(s.last())
    } else {
        s.push(c)
    }
}

/// Canonical reordering of a decomposed sequence: combining marks are put
/// into ascending combining-class order, stably, without crossing any
/// class-zero character.
pub open spec fn reorder_spec(s: Seq<char>) -> Seq<char>
    decreases s.len(),
{
    if s.len() == 0 {
        Seq::empty()
    } else {
        insert_mark(reorder_spec(s.drop_last()), s.last())
    }
}

/// A sequence in canonical combining-class order: no combining mark stands
/// directly after a mark of a greater class.
pub open spec fn is_ordered(s: Seq<char>) -> bool {
    forall|i: int|
        1 <= i < s.len() && ccc_spec(s[i]) > 0 ==> ccc_spec(s[i - 1]) <= ccc_spec(#[trigger] s[i])
}

/// Shape of [`insert_mark`]: it inserts exactly one character, and the last
/// character of the result is the inserted one or the old last one.
pub proof fn lemma_insert_mark_shape(s: Seq<char>, c: char)
    ensures
        insert_mark(s, c).len() == s.len() + 1,
        insert_mark(s, c).last() == c || (s.len() > 0 && insert_mark(s, c).last() == s.last()),
    decreases s.len(),
{
    if !(ccc_spec(c) == 0) && s.len() > 0 && ccc_spec(s.last()) > ccc_spec(c) {
        lemma_insert_mark_shape(s.drop_last(), c);
    }
}

/// [`insert_mark`] keeps a sequence canonically ordered.
pub proof fn lemma_insert_mark_ordered(s: Seq<char>, c: char)
    requires
        is_ordered(s),
    ensures
        is_ordered(insert_mark(s, c)),
    decreases s.len(),
{
    if ccc_spec(c) == 0 {
        assert(is_ordered(s.push(c)));
    } else if s.len() > 0 && ccc_spec(s.last()) > ccc_spec(c) {
        assert(is_ordered(s.drop_last()));
        lemma_insert_mark_ordered(s.drop_last(), c);
        lemma_insert_mark_shape(s.drop_last(), c);
        let inner = insert_mark(s.drop_last(), c);
        let p = inner.push(s.last());
        assert forall|i: int| 1 <= i < p.len() && ccc_spec(#[trigger] p[i]) > 0 implies ccc_spec(
            p[i - 1],
        ) <= ccc_spec(p[i]) by {
            if i < inner.len() {
                assert(ccc_spec(inner[i - 1]) <= ccc_spec(inner[i]));
            } else {
                if inner.last() == c {
                    assert(ccc_spec(inner[i - 1]) <= ccc_spec(s.last()));
                } else {
                    assert(s.len() >= 2);
                    assert(ccc_spec(s[s.len() - 2]) <= ccc_spec(s.last()));
                }
            }
        }
    } else {
        assert(is_ordered(s.push(c)));
    }
}

/// The reordered sequence is canonically ordered.
pub proof fn lemma_reorder_ordered(s: Seq<char>)
    ensures
        is_ordered(reorder_spec(s)),
    decreases s.len(),
{
    if s.len() > 0 {
        lemma_reorder_ordered(s.drop_last());
        lemma_insert_mark_ordered(reorder_spec(s.drop_last()), s.last());
    }
}

/// Reordering a canonically ordered sequence returns it unchanged.
pub proof fn lemma_reorder_ordered_id(s: Seq<char>)
    requires
        is_ordered(s),
    ensures
        reorder_spec(s) == s,
    decreases s.len(),
{
    if s.len() > 0 {
        assert(is_ordered(s.drop_last()));
        lemma_reorder_ordered_id(s.drop_last());
        if ccc_spec(s.last()) > 0 && s.len() >= 2 {
            assert(ccc_spec(s[s.len() - 2]) <= ccc_spec(s.last()));
        }
        assert(insert_mark(s.drop_last(), s.last()) =~= s);
    }
}

/// [`insert_mark`] adds exactly the inserted character to the contents.
pub proof fn lemma_insert_mark_multiset(s: Seq<char>, c: char)
    ensures
        insert_mark(s, c).to_multiset() == s.to_multiset().insert(c),
    decreases s.len(),
{
    broadcast use vstd::seq_lib::group_to_multiset_ensures;

    if ccc_spec(c) == 0 {
    } else if s.len() > 0 && ccc_spec(s.last()) > ccc_spec(c) {
        lemma_insert_mark_multiset(s.drop_last(), c);
        assert(s.drop_last().push(s.last()) =~= s);
        assert(s.to_multiset() =~= s.drop_last().to_multiset().insert(s.last()));
        assert(insert_mark(s, c).to_multiset() =~= insert_mark(
            s.drop_last(),
            c,
        ).to_multiset().insert(s.last()));
        assert(s.drop_last().to_multiset().insert(c).insert(s.last())
            =~= s.drop_last().to_multiset().insert(s.last()).insert(c));
    } else {
    }
}

/// Reordering keeps exactly the same characters.
pub proof fn lemma_reorder_multiset(s: Seq<char>)
    ensures
        reorder_spec(s).to_multiset() == s.to_multiset(),
    decreases s.len(),
{
    broadcast use vstd::seq_lib::group_to_multiset_ensures;

    if s.len() > 0 {
        lemma_reorder_multiset(s.drop_last());
        lemma_insert_mark_multiset(reorder_spec(s.drop_last()), s.last());
        assert(s.drop_last().push(s.last()) =~= s);
        assert(s.to_multiset() =~= s.drop_last().to_multiset().insert(s.last()));
    }
}

/// Canonical normalization: full decomposition followed by canonical
/// reordering of the combining marks.
pub open spec fn normalize_spec(s: Seq<char>) -> Seq<char> {
    reorder_spec(decompose_spec(s))
}

/// Normalization is idempotent: normalizing an already-normalized sequence
/// returns an identical sequence.
pub proof fn lemma_normalize_idempotent(s: Seq<char>)
    ensures
        normalize_spec(normalize_spec(s)) == normalize_spec(s),
{
    broadcast use vstd::seq_lib::group_to_multiset_ensures;

    let d = decompose_spec(s);
    let y = reorder_spec(d);
    lemma_reorder_multiset(d);
    assert forall|i: int| 0 <= i < y.len() implies plain(#[trigger] y[i]) by {
        assert(y.to_multiset().count(y[i]) > 0);
        assert(d.contains(y[i]));
        let j = choose|j: int| 0 <= j < d.len() && d[j] == y[i];
        lemma_decompose_chars_plain(s, j);
    }
    lemma_decompose_plain_id(y);
    lemma_reorder_ordered(d);
    lemma_reorder_ordered_id(y);
}

/// A sequence of undecomposable characters without combining marks is
/// already normalized.
pub proof fn lemma_normalize_plain_id(s: Seq<char>)
    requires
        forall|i: int| 0 <= i < s.len() ==> plain(#[trigger] s[i]),
        forall|i: int| 0 <= i < s.len() ==> ccc_spec(#[trigger] s[i]) == 0,
    ensures
        normalize_spec(s) == s,
{
    lemma_decompose_plain_id(s);
    assert(is_ordered(s));
    lemma_reorder_ordered_id(s);
}

/// Exact description of the executable insertion scan: inserting before
/// the maximal tail of greater-class marks realizes [`insert_mark`].
proof fn lemma_insert_mark_at(s: Seq<char>, c: char, j: int)
    requires
        ccc_spec(c) > 0,
        0 <= j <= s.len(),
        forall|k: int| j <= k < s.len() ==> ccc_spec(#[trigger] s[k]) > ccc_spec(c),
        j > 0 ==> ccc_spec(s[j - 1]) <= ccc_spec(c),
    ensures
        insert_mark(s, c) == s.insert(j, c),
    decreases s.len(),
{
    if j == s.len() {
        assert(insert_mark(s, c) =~= s.insert(j, c));
    } else {
        assert(ccc_spec(s[s.len() - 1]) > ccc_spec(c));
        lemma_insert_mark_at(s.drop_last(), c, j);
        assert(insert_mark(s.drop_last(), c).push(s.last()) =~= s.insert(j, c));
    }
}

/// Executable canonical reordering, matching [`reorder_spec`].
fn reorder(text: &Vec<char>) -> (r: Vec<char>)
    ensures
        r@ == reorder_spec(text@),
{
    let mut out: Vec<char> = Vec::new();
    let mut i: usize = 0;
    while i < text.len()
        invariant
            0 <= i <= text.len(),
            out@ == reorder_spec(text@.take(i as int)),
        decreases text.len() - i,
    {
        let c = text[i];
        let cl = ccc(c);
        if cl == 0 {
            out.push(c);
        } else {
            let mut j: usize = out.len();
            while j > 0 && ccc(out[j - 1]) > cl
                invariant
                    0 <= j <= out.len(),
                    cl as int == ccc_spec(c),
                    forall|k: int| j <= k < out@.len() ==> ccc_spec(#[trigger] out@[k]) > ccc_spec(c),
                decreases j,
            {
                j = j - 1;
            }
            proof {
                lemma_insert_mark_at(out@, c, j as int);
            }
            out.insert(j, c);
        }
        proof {
            assert(text@.take(i + 1 as int).drop_last() =~= text@.take(i as int));
            assert(text@.take(i + 1 as int).last() == text@[i as int]);
        }
        i = i + 1;
    }
    proof {
        assert(text@.take(text@.len() as int) =~= text@);
    }
    out
}

/// Executable full decomposition, matching [`decompose_spec`].
fn decompose(text: &Vec<char>) -> (r: Vec<char>)
    ensures
        r@ == decompose_spec(text@),
{
    let mut out: Vec<char> = Vec::new();
    let mut i: usize = 0;
    while i < text.len()
        invariant
            0 <= i <= text.len(),
            out@ == decompose_spec(text@.take(i as int)),
        decreases text.len() - i,
    {
        let d = decomp_char(text[i]);
        let mut k: usize = 0;
        while k < d.len()
            invariant
                0 <= k <= d.len(),
                out@ == decompose_spec(text@.take(i as int)) + d@.take(k as int),
            decreases d.len() - k,
        {
            out.push(d[k]);
            proof {
                assert(d@.take(k + 1 as int) =~= d@.take(k as int).push(d@[k as int]));
            }
            k = k + 1;
        }
        proof {
            assert(text@.take(i + 1 as int).drop_last() =~= text@.take(i as int));
            assert(text@.take(i + 1 as int).last() == text@[i as int]);
            assert(d@.take(d@.len() as int) =~= d@);
        }
        i = i + 1;
    }
    proof {
        assert(text@.take(text@.len() as int) =~= text@);
    }
    out
}

/// Normalizes a character sequence to its canonical decomposed form.
///
/// Precomposed Greek letters are split into base letter plus combining
/// marks, and marks are put into canonical combining-class order.  The
/// result is a pure function of the input, and normalizing it again
/// returns it unchanged.
pub fn normalize(text: &Vec<char>) -> (r: Vec<char>)
    ensures
        r@ == normalize_spec(text@),
{
    let d = decompose(text);
    reorder(&d)
}

} // verus!
