//! Boundary splitting for 16-bit (UTF-16-like) argument values.
//!
//! On platforms whose native argument values are sequences of 16-bit code
//! units, validity means correct surrogate pairing: every high surrogate is
//! immediately followed by a low surrogate and every low surrogate is
//! immediately preceded by a high surrogate. `split_valid` cuts a unit
//! sequence at the first position that violates this pairing.

use crate::bytes::{clone_units, copy_range};
use vstd::prelude::*;

verus! {

/// What a 16-bit code unit is with respect to surrogate pairing.
#[derive(Debug, Clone, Copy, PartialEq, Eq, Structural)]
pub enum Kind {
    LowSurrogate,
    HighSurrogate,
    Rest,
}

impl Kind {
    /// The kind of a unit, by its numeric range.
    pub open spec fn spec_of(unit: u16) -> Kind {
        if 0xD800 <= unit && unit <= 0xDBFF {
            Kind::HighSurrogate
        } else if 0xDC00 <= unit && unit <= 0xDFFF {
            Kind::LowSurrogate
        } else {
            Kind::Rest
        }
    }

    pub fn of(unit: u16) -> (k: Kind)
        ensures
            k == Kind::spec_of(unit),
    {
        if 0xD800 <= unit && unit <= 0xDBFF {
            Kind::HighSurrogate
        } else if 0xDC00 <= unit && unit <= 0xDFFF {
            Kind::LowSurrogate
        } else {
            Kind::Rest
        }
    }
}

/// Position `i` of `s` respects surrogate pairing: a high surrogate has a
/// low surrogate right after it, a low surrogate has a high surrogate right
/// before it, and any other unit stands on its own.
pub open spec fn unit_ok(s: Seq<u16>, i: int) -> bool {
    match Kind::spec_of(s[i]) {
        Kind::HighSurrogate => i + 1 < s.len() && Kind::spec_of(s[i + 1]) is LowSurrogate,
        Kind::LowSurrogate => 1 <= i && Kind::spec_of(s[i - 1]) is HighSurrogate,
        Kind::Rest => true,
    }
}

/// The whole sequence respects surrogate pairing.
pub open spec fn is_utf16(s: Seq<u16>) -> bool {
    forall|j: int| 0 <= j < s.len() ==> unit_ok(s, j)
}

/// Scans for the first position that violates surrogate pairing: a leading
/// lone low surrogate is invalid at position 0, a trailing lone high
/// surrogate is invalid at the last position.
pub fn find_first_invalid(units: &Vec<u16>) -> (r: Option<usize>)
    ensures
        r matches Some(i) ==> i < units@.len() && !unit_ok(units@, i as int) && (forall|j: int|
            0 <= j < i ==> unit_ok(units@, j)),
        r is None ==> is_utf16(units@),
{
    let n = units.len();
    if n == 0 {
        return None;
    }
    if Kind::of(units[0]) == Kind::LowSurrogate {
        return Some(0);
    }
    let mut i: usize = 0;
    while i + 1 < n
        invariant
            n == units@.len(),
            0 <= i < n,
            forall|j: int| 0 <= j < i ==> unit_ok(units@, j),
            Kind::spec_of(units@[i as int]) is LowSurrogate ==> 1 <= i && Kind::spec_of(
                units@[i - 1],
            ) is HighSurrogate,
        decreases n - i,
    {
        let first = Kind::of(units[i]);
        let second = Kind::of(units[i + 1]);
        if first == Kind::HighSurrogate && second != Kind::LowSurrogate {
            return Some(i);
        }
        if first != Kind::HighSurrogate && second == Kind::LowSurrogate {
            return Some(i + 1);
        }
        i = i + 1;
    }
    if Kind::of(units[n - 1]) == Kind::HighSurrogate {
        return Some(n - 1);
    }
    None
}

/// Splits a 16-bit argument into its longest prefix with correct surrogate
/// pairing and the opaque remainder from the first lone surrogate on. Total:
/// never fails, an argument that starts with a lone low surrogate yields an
/// empty prefix.
pub fn split_valid(s: &Vec<u16>) -> (r: (Vec<u16>, Vec<u16>))
    ensures
        r.0@ + r.1@ == s@,
        is_utf16(r.0@),
        r.1@.len() > 0 ==> !unit_ok(s@, r.0@.len() as int),
        r.1@.len() == 0 ==> is_utf16(s@),
{
    match find_first_invalid(s) {
        None => {
            let head = clone_units(s);
            let tail: Vec<u16> = Vec::new();
            proof {
                assert(head@ + tail@ =~= s@);
            }
            (head, tail)
        },
        Some(i) => {
            let head = copy_range(s, 0, i);
            let tail = copy_range(s, i, s.len());
            proof {
                assert(head@ + tail@ =~= s@);
                lemma_prefix_utf16(s@, i as int);
            }
            (head, tail)
        },
    }
}

/// If every position before `i` pairs correctly and position `i` does not,
/// the prefix `s[..i]` pairs correctly on its own: no surrogate pair can
/// straddle the cut, because a high surrogate just before an invalid
/// position would make that position a paired low surrogate.
proof fn lemma_prefix_utf16(s: Seq<u16>, i: int)
    requires
        0 <= i < s.len(),
        !unit_ok(s, i),
        forall|j: int| 0 <= j < i ==> unit_ok(s, j),
    ensures
        is_utf16(s.take(i)),
{
    let t = s.take(i);
    assert forall|j: int| 0 <= j < t.len() implies unit_ok(t, j) by {
        assert(unit_ok(s, j));
        assert(t[j] == s[j]);
        if 1 <= j {
            assert(t[j - 1] == s[j - 1]);
        }
        if Kind::spec_of(s[j]) is HighSurrogate {
            assert(Kind::spec_of(s[j + 1]) is LowSurrogate);
            if j + 1 == i {
                assert(unit_ok(s, i));
                assert(false);
            }
            assert(t[j + 1] == s[j + 1]);
        }
    }
}

} // verus!
