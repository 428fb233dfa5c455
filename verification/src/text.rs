//! Reading the source text: the character at an offset, whitespace, and
//! the leaves of expressions.

use vstd::prelude::*;
use vstd::slice::*;
use vstd::string::*;
use vstd::utf8::*;
use crate::grammar::Atom;
use crate::semantics::Scene;

verus! {

/// The character whose encoding begins at `at`, as its scalar value and the
/// number of bytes it takes; nothing where no well-formed encoding of a
/// character begins there.
pub fn scalar_at(Ghost(scene): Ghost<Scene>, bytes: &[u8], at: usize) -> (found: Option<
    (u32, usize),
>)
    requires
        scene.bytes == bytes@,
        at <= bytes.len(),
    ensures
        match found {
            Some((scalar, width)) => scene.scalar_at(at as int) == Some((scalar, width as int)),
            None => scene.scalar_at(at as int) is None,
        },
{
    let len = bytes.len();
    let ghost rest = scene.rest(at as int);
    if at >= len {
        return None;
    }
    let first = bytes[at];
    assert(rest[0] == first);
    if first <= 0x7f {
        let scalar = (first & 0x7F) as u32;
        if 0xD800 <= scalar && scalar <= 0xDFFF {
            None
        } else {
            Some((scalar, 1))
        }
    } else if 0xc0 <= first && first <= 0xdf {
        if len - at < 2 {
            return None;
        }
        let second = bytes[at + 1];
        assert(rest[1] == second);
        if !(0x80 <= second && second <= 0xbf) {
            return None;
        }
        let scalar = (((first & 0x1F) as u32) << 6) | ((second & 0x3f) as u32);
        if scalar < 0x80 || (0xD800 <= scalar && scalar <= 0xDFFF) {
            None
        } else {
            Some((scalar, 2))
        }
    } else if 0xe0 <= first && first <= 0xef {
        if len - at < 3 {
            return None;
        }
        let second = bytes[at + 1];
        let third = bytes[at + 2];
        assert(rest[1] == second);
        assert(rest[2] == third);
        if !(0x80 <= second && second <= 0xbf) || !(0x80 <= third && third <= 0xbf) {
            return None;
        }
        let scalar = (((first & 0x0F) as u32) << 12) | (((second & 0x3f) as u32) << 6) | ((third
            & 0x3f) as u32);
        if scalar < 0x800 || (0xD800 <= scalar && scalar <= 0xDFFF) {
            None
        } else {
            Some((scalar, 3))
        }
    } else if 0xf0 <= first && first <= 0xf7 {
        if len - at < 4 {
            return None;
        }
        let second = bytes[at + 1];
        let third = bytes[at + 2];
        let fourth = bytes[at + 3];
        assert(rest[1] == second);
        assert(rest[2] == third);
        assert(rest[3] == fourth);
        if !(0x80 <= second && second <= 0xbf) || !(0x80 <= third && third <= 0xbf) || !(0x80
            <= fourth && fourth <= 0xbf) {
            return None;
        }
        let scalar = (((first & 0x07) as u32) << 18) | (((second & 0x3f) as u32) << 12) | (((third
            & 0x3f) as u32) << 6) | ((fourth & 0x3f) as u32);
        if scalar < 0x10000 || scalar > 0x10ffff || (0xD800 <= scalar && scalar <= 0xDFFF) {
            None
        } else {
            Some((scalar, 4))
        }
    } else {
        None
    }
}

/// Whether `scalar` is one of the whitespace characters.
pub fn is_blank(Ghost(scene): Ghost<Scene>, blanks: &Vec<char>, scalar: u32) -> (blank: bool)
    requires
        scene.blanks == blanks@,
    ensures
        blank == scene.is_blank(scalar),
{
    let mut i: usize = 0;
    while i < blanks.len()
        invariant
            i <= blanks.len(),
            scene.blanks == blanks@,
            forall|j: int| 0 <= j < i ==> #[trigger] blanks@[j] as u32 != scalar,
        decreases blanks.len() - i,
    {
        if blanks[i] as u32 == scalar {
            return true;
        }
        i = i + 1;
    }
    false
}

/// The first offset from `at` on at which no whitespace character begins.
pub fn skip(Ghost(scene): Ghost<Scene>, blanks: &Vec<char>, bytes: &[u8], at: usize) -> (end:
    usize)
    requires
        scene.bytes == bytes@,
        scene.blanks == blanks@,
        at <= bytes.len(),
    ensures
        end == scene.skip(at as int),
        at <= end <= bytes.len(),
{
    let mut end = at;
    loop
        invariant
            scene.bytes == bytes@,
            scene.blanks == blanks@,
            at <= end <= bytes.len(),
            scene.skip(at as int) == scene.skip(end as int),
        ensures
            end == scene.skip(at as int),
            at <= end <= bytes.len(),
        decreases bytes.len() - end,
    {
        match scalar_at(Ghost(scene), bytes, end) {
            Some((scalar, width)) => {
                if is_blank(Ghost(scene), blanks, scalar) {
                    end = end + width;
                } else {
                    break ;
                }
            },
            None => {
                break ;
            },
        }
    }
    end
}

/// Where a leaf other than a rule name ends if it matches at `at`.
pub fn leaf(Ghost(scene): Ghost<Scene>, atom: &Atom, bytes: &[u8], at: usize) -> (end: Option<
    usize,
>)
    requires
        scene.bytes == bytes@,
        at <= bytes.len(),
    ensures
        match end {
            Some(end) => scene.leaf(atom@, at as int) == Some(end as int),
            None => scene.leaf(atom@, at as int) is None,
        },
{
    match atom {
        Atom::Ident(_, _) => None,
        Atom::Str(text) => {
            let wanted = text.as_str().as_bytes();
            if wanted.len() > bytes.len() - at {
                return None;
            }
            let mut i: usize = 0;
            while i < wanted.len()
                invariant
                    i <= wanted.len(),
                    at + wanted.len() <= bytes.len(),
                    scene.bytes == bytes@,
                    atom == Atom::Str(*text),
                    wanted@ == encode_utf8(text@),
                    forall|j: int| 0 <= j < i ==> bytes@[at + j] == wanted@[j],
                decreases wanted.len() - i,
            {
                if bytes[at + i] != wanted[i] {
                    proof {
                        let cut = scene.bytes.subrange(at as int, at + wanted.len());
                        assert(cut[i as int] != wanted@[i as int]);
                    }
                    return None;
                }
                i = i + 1;
            }
            assert(scene.bytes.subrange(at as int, at + wanted.len()) =~= wanted@);
            Some(at + wanted.len())
        },
        Atom::Char(c) => match scalar_at(Ghost(scene), bytes, at) {
            Some((scalar, width)) => if scalar == *c as u32 {
                Some(at + width)
            } else {
                None
            },
            None => None,
        },
        Atom::Range(low, high) => match scalar_at(Ghost(scene), bytes, at) {
            Some((scalar, width)) => if *low as u32 <= scalar && scalar <= *high as u32 {
                Some(at + width)
            } else {
                None
            },
            None => None,
        },
    }
}

} // verus!
