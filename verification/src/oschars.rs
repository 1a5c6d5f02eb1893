//! Boundary splitting for byte-oriented (POSIX-like) argument values.
//!
//! An argument is an arbitrary byte sequence. `split_valid` cuts it into the
//! longest prefix that is well-formed UTF-8 and the opaque remainder from the
//! first undecodable byte on.

use crate::bytes::{clone_units, copy_range};
use vstd::prelude::*;

verus! {

/// True for UTF-8 continuation bytes (`0b10xxxxxx`).
pub open spec fn is_cont_byte(b: u8) -> bool {
    0x80 <= b && b <= 0xBF
}

/// Byte length of the well-formed UTF-8 encoded character starting at
/// position `i` of `s`, or 0 if no well-formed character starts there.
/// The ranges follow the UTF-8 definition: overlong encodings, surrogate
/// code points and values above U+10FFFF are excluded.
pub open spec fn utf8_step(s: Seq<u8>, i: int) -> int {
    if i < 0 || i >= s.len() {
        0
    } else {
        let b0 = s[i];
        if b0 <= 0x7F {
            1
        } else if 0xC2 <= b0 && b0 <= 0xDF {
            if i + 2 <= s.len() && is_cont_byte(s[i + 1]) {
                2
            } else {
                0
            }
        } else if b0 == 0xE0 {
            if i + 3 <= s.len() && 0xA0 <= s[i + 1] && s[i + 1] <= 0xBF && is_cont_byte(s[i + 2]) {
                3
            } else {
                0
            }
        } else if 0xE1 <= b0 && b0 <= 0xEC {
            if i + 3 <= s.len() && is_cont_byte(s[i + 1]) && is_cont_byte(s[i + 2]) {
                3
            } else {
                0
            }
        } else if b0 == 0xED {
            if i + 3 <= s.len() && 0x80 <= s[i + 1] && s[i + 1] <= 0x9F && is_cont_byte(s[i + 2]) {
                3
            } else {
                0
            }
        } else if 0xEE <= b0 && b0 <= 0xEF {
            if i + 3 <= s.len() && is_cont_byte(s[i + 1]) && is_cont_byte(s[i + 2]) {
                3
            } else {
                0
            }
        } else if b0 == 0xF0 {
            if i + 4 <= s.len() && 0x90 <= s[i + 1] && s[i + 1] <= 0xBF && is_cont_byte(s[i + 2])
                && is_cont_byte(s[i + 3]) {
                4
            } else {
                0
            }
        } else if 0xF1 <= b0 && b0 <= 0xF3 {
            if i + 4 <= s.len() && is_cont_byte(s[i + 1]) && is_cont_byte(s[i + 2])
                && is_cont_byte(s[i + 3]) {
                4
            } else {
                0
            }
        } else if b0 == 0xF4 {
            if i + 4 <= s.len() && 0x80 <= s[i + 1] && s[i + 1] <= 0x8F && is_cont_byte(s[i + 2])
                && is_cont_byte(s[i + 3]) {
                4
            } else {
                0
            }
        } else {
            0
        }
    }
}

/// Where the longest well-formed UTF-8 prefix of `s` ends when scanning
/// starts at position `i`.
pub open spec fn valid_prefix_len_from(s: Seq<u8>, i: int) -> int
    decreases s.len() - i when 0 <= i <= s.len()
{
    if i >= s.len() {
        i
    } else if utf8_step(s, i) == 0 {
        i
    } else {
        valid_prefix_len_from(s, i + utf8_step(s, i))
    }
}

/// Length of the longest prefix of `s` that is well-formed UTF-8.
pub open spec fn valid_prefix_len(s: Seq<u8>) -> int {
    valid_prefix_len_from(s, 0)
}

/// `s` is well-formed UTF-8 from beginning to end.
pub open spec fn is_utf8(s: Seq<u8>) -> bool {
    valid_prefix_len(s) == s.len()
}

pub proof fn lemma_valid_prefix_len_from_bounds(s: Seq<u8>, i: int)
    requires
        0 <= i <= s.len(),
    ensures
        i <= valid_prefix_len_from(s, i) <= s.len(),
    decreases s.len() - i,
{
    if i < s.len() && utf8_step(s, i) != 0 {
        lemma_valid_prefix_len_from_bounds(s, i + utf8_step(s, i));
    }
}

/// Shifting the start of the sequence shifts `utf8_step` along with it.
pub proof fn lemma_utf8_step_skip(s: Seq<u8>, j: int, i: int)
    requires
        0 <= j <= s.len(),
        0 <= i,
    ensures
        utf8_step(s.skip(j), i) == utf8_step(s, j + i),
{
    let t = s.skip(j);
    assert(t.len() == s.len() - j);
    if i < t.len() {
        assert(t[i] == s[j + i]);
        if i + 1 < t.len() {
            assert(t[i + 1] == s[j + i + 1]);
        }
        if i + 2 < t.len() {
            assert(t[i + 2] == s[j + i + 2]);
        }
        if i + 3 < t.len() {
            assert(t[i + 3] == s[j + i + 3]);
        }
    }
}

pub proof fn lemma_vplf_skip(s: Seq<u8>, j: int, i: int)
    requires
        0 <= j,
        0 <= i,
        j + i <= s.len(),
    ensures
        valid_prefix_len_from(s.skip(j), i) == valid_prefix_len_from(s, j + i) - j,
    decreases s.len() - j - i,
{
    lemma_utf8_step_skip(s, j, i);
    let st = utf8_step(s, j + i);
    if j + i < s.len() && st != 0 {
        lemma_vplf_skip(s, j, i + st);
    }
}

/// A well-formed tail, cut at a character boundary, is well-formed on its own.
pub proof fn lemma_utf8_suffix(s: Seq<u8>, j: int)
    requires
        0 <= j <= s.len(),
        valid_prefix_len_from(s, j) == s.len(),
    ensures
        is_utf8(s.skip(j)),
{
    lemma_vplf_skip(s, j, 0);
}

/// Truncating after a whole character does not change the step taken at `i`.
pub proof fn lemma_utf8_step_take(s: Seq<u8>, k: int, i: int)
    requires
        0 <= k <= s.len(),
        0 <= i,
        utf8_step(s, i) > 0,
        i + utf8_step(s, i) <= k,
    ensures
        utf8_step(s.take(k), i) == utf8_step(s, i),
{
    let t = s.take(k);
    assert(t.len() == k);
    assert(t[i] == s[i]);
    if i + 1 < k {
        assert(t[i + 1] == s[i + 1]);
    }
    if i + 2 < k {
        assert(t[i + 2] == s[i + 2]);
    }
    if i + 3 < k {
        assert(t[i + 3] == s[i + 3]);
    }
}

proof fn lemma_vplf_take_at(s: Seq<u8>, k: int, i: int)
    requires
        0 <= i <= k <= s.len(),
        valid_prefix_len_from(s, i) == k,
    ensures
        valid_prefix_len_from(s.take(k), i) == k,
    decreases k - i,
{
    if i < k {
        let st = utf8_step(s, i);
        assert(st != 0);
        lemma_valid_prefix_len_from_bounds(s, i + st);
        lemma_utf8_step_take(s, k, i);
        lemma_vplf_take_at(s, k, i + st);
    }
}

/// The longest well-formed prefix is itself well-formed UTF-8.
pub proof fn lemma_valid_prefix_is_utf8(s: Seq<u8>)
    ensures
        is_utf8(s.take(valid_prefix_len(s))),
{
    lemma_valid_prefix_len_from_bounds(s, 0);
    lemma_vplf_take_at(s, valid_prefix_len(s), 0);
}

/// An ASCII byte can never sit in the middle of an encoded character, so a
/// position holding one is a character boundary, and cutting there keeps
/// both sides well-formed.
proof fn lemma_vplf_take_at_ascii(s: Seq<u8>, e: int, i: int)
    requires
        0 <= i <= e <= s.len(),
        valid_prefix_len_from(s, i) == s.len(),
        e < s.len() ==> s[e] <= 0x7F,
    ensures
        valid_prefix_len_from(s.take(e), i) == e,
    decreases e - i,
{
    if i < e {
        let st = utf8_step(s, i);
        assert(st != 0);
        if i < e < i + st {
            assert(0x80 <= s[e]);
            assert(false);
        }
        lemma_utf8_step_take(s, e, i);
        lemma_vplf_take_at_ascii(s, e, i + st);
    }
}

/// Cutting a well-formed sequence just before an ASCII byte (or at its end)
/// leaves a well-formed prefix.
pub proof fn lemma_utf8_take_at_ascii(s: Seq<u8>, e: int)
    requires
        is_utf8(s),
        0 <= e <= s.len(),
        e < s.len() ==> s[e] <= 0x7F,
    ensures
        is_utf8(s.take(e)),
        valid_prefix_len_from(s, e) == s.len(),
{
    lemma_vplf_take_at_ascii(s, e, 0);
    lemma_vplf_boundary(s, e, 0);
}

/// In a well-formed sequence, scanning restarted anywhere behind an ASCII
/// byte still reaches the end. Helper: every boundary position scans to the
/// end; an ASCII position is a boundary because no step can jump over it.
proof fn lemma_vplf_boundary(s: Seq<u8>, e: int, i: int)
    requires
        0 <= i <= e <= s.len(),
        valid_prefix_len_from(s, i) == s.len(),
        e < s.len() ==> s[e] <= 0x7F,
    ensures
        valid_prefix_len_from(s, e) == s.len(),
    decreases e - i,
{
    if i < e {
        let st = utf8_step(s, i);
        assert(st != 0);
        if i < e < i + st {
            assert(0x80 <= s[e]);
            assert(false);
        }
        lemma_vplf_boundary(s, e, i + st);
    }
}

/// Putting one ASCII byte in front of well-formed UTF-8 gives well-formed
/// UTF-8.
pub proof fn lemma_utf8_ascii_prepend(b: u8, r: Seq<u8>)
    requires
        b <= 0x7F,
        is_utf8(r),
    ensures
        is_utf8(seq![b] + r),
{
    let t = seq![b] + r;
    assert(t.skip(1) =~= r);
    lemma_vplf_skip(t, 1, 0);
    assert(utf8_step(t, 0) == 1);
}

/// A single well-formed character, taken on its own, is well-formed UTF-8.
pub proof fn lemma_utf8_char_subrange(s: Seq<u8>, i: int)
    requires
        0 <= i,
        utf8_step(s, i) > 0,
    ensures
        is_utf8(s.subrange(i, i + utf8_step(s, i))),
{
    let n = utf8_step(s, i);
    let t = s.subrange(i, i + n);
    assert(t.len() == n);
    assert(t[0] == s[i]);
    if 1 < n {
        assert(t[1] == s[i + 1]);
    }
    if 2 < n {
        assert(t[2] == s[i + 2]);
    }
    if 3 < n {
        assert(t[3] == s[i + 3]);
    }
    assert(utf8_step(t, 0) == n);
    assert(valid_prefix_len_from(t, n) == n);
    assert(valid_prefix_len_from(t, 0) == valid_prefix_len_from(t, n));
}

/// Reads the bytes of `v` at `i` and reports the length of the well-formed
/// UTF-8 character starting there, or 0 if there is none.
pub(crate) fn utf8_step_at(v: &Vec<u8>, i: usize) -> (r: usize)
    requires
        i < v@.len(),
    ensures
        r == utf8_step(v@, i as int),
{
    let n = v.len();
    let b0 = v[i];
    if b0 <= 0x7F {
        1
    } else if 0xC2 <= b0 && b0 <= 0xDF {
        if n - i >= 2 && 0x80 <= v[i + 1] && v[i + 1] <= 0xBF {
            2
        } else {
            0
        }
    } else if b0 == 0xE0 {
        if n - i >= 3 && 0xA0 <= v[i + 1] && v[i + 1] <= 0xBF && 0x80 <= v[i + 2] && v[i + 2] <= 0xBF {
            3
        } else {
            0
        }
    } else if 0xE1 <= b0 && b0 <= 0xEC {
        if n - i >= 3 && 0x80 <= v[i + 1] && v[i + 1] <= 0xBF && 0x80 <= v[i + 2] && v[i + 2] <= 0xBF {
            3
        } else {
            0
        }
    } else if b0 == 0xED {
        if n - i >= 3 && 0x80 <= v[i + 1] && v[i + 1] <= 0x9F && 0x80 <= v[i + 2] && v[i + 2] <= 0xBF {
            3
        } else {
            0
        }
    } else if 0xEE <= b0 && b0 <= 0xEF {
        if n - i >= 3 && 0x80 <= v[i + 1] && v[i + 1] <= 0xBF && 0x80 <= v[i + 2] && v[i + 2] <= 0xBF {
            3
        } else {
            0
        }
    } else if b0 == 0xF0 {
        if n - i >= 4 && 0x90 <= v[i + 1] && v[i + 1] <= 0xBF && 0x80 <= v[i + 2] && v[i + 2] <= 0xBF
            && 0x80 <= v[i + 3] && v[i + 3] <= 0xBF {
            4
        } else {
            0
        }
    } else if 0xF1 <= b0 && b0 <= 0xF3 {
        if n - i >= 4 && 0x80 <= v[i + 1] && v[i + 1] <= 0xBF && 0x80 <= v[i + 2] && v[i + 2] <= 0xBF
            && 0x80 <= v[i + 3] && v[i + 3] <= 0xBF {
            4
        } else {
            0
        }
    } else if b0 == 0xF4 {
        if n - i >= 4 && 0x80 <= v[i + 1] && v[i + 1] <= 0x8F && 0x80 <= v[i + 2] && v[i + 2] <= 0xBF
            && 0x80 <= v[i + 3] && v[i + 3] <= 0xBF {
            4
        } else {
            0
        }
    } else {
        0
    }
}

/// Scans `v` and returns the length of its longest well-formed UTF-8 prefix.
pub fn valid_up_to(v: &Vec<u8>) -> (r: usize)
    ensures
        r == valid_prefix_len(v@),
{
    let mut i: usize = 0;
    while i < v.len()
        invariant
            0 <= i <= v@.len(),
            valid_prefix_len(v@) == valid_prefix_len_from(v@, i as int),
        decreases v@.len() - i,
    {
        let st = utf8_step_at(v, i);
        if st == 0 {
            return i;
        }
        proof {
            lemma_valid_prefix_len_from_bounds(v@, i + st);
        }
        i = i + st;
    }
    i
}

/// True exactly when the whole of `v` is well-formed UTF-8.
pub fn is_valid_text(v: &Vec<u8>) -> (r: bool)
    ensures
        r == is_utf8(v@),
{
    let k = valid_up_to(v);
    k == v.len()
}

/// Splits an argument into its longest well-formed UTF-8 prefix and the
/// opaque remainder from the first undecodable byte on. Total: an argument
/// that starts with an undecodable byte yields an empty prefix, never an
/// error.
pub fn split_valid(s: &Vec<u8>) -> (r: (Vec<u8>, Vec<u8>))
    ensures
        r.0@ == s@.take(valid_prefix_len(s@)),
        r.1@ == s@.skip(valid_prefix_len(s@)),
        is_utf8(r.0@),
        r.0@ + r.1@ == s@,
{
    proof {
        lemma_valid_prefix_len_from_bounds(s@, 0);
        lemma_valid_prefix_is_utf8(s@);
    }
    let k = valid_up_to(s);
    let head = copy_range(s, 0, k);
    let tail = copy_range(s, k, s.len());
    proof {
        assert(head@ + tail@ =~= s@);
    }
    (head, tail)
}

/// Appends one undecodable byte (0xFF, never part of well-formed UTF-8) to
/// `prefix`; used to build arguments with an opaque tail.
pub fn bad_text(prefix: &Vec<u8>) -> (r: Vec<u8>)
    ensures
        r@ == prefix@ + seq![0xFFu8],
{
    let mut r = clone_units(prefix);
    r.push(0xFF);
    proof {
        assert(prefix@ + seq![0xFFu8] =~= prefix@.push(0xFFu8));
    }
    r
}

} // verus!
