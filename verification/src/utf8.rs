//! UTF-8 validity: the mathematical definition over byte sequences and
//! its executable checker. A text constant whose bytes fail this check is
//! a decode fault.
use vstd::prelude::*;

verus! {

/// A UTF-8 continuation byte: high bits `10`.
pub open spec fn is_cont(b: u8) -> bool {
    0x80 <= b <= 0xBF
}

/// Whether `s` is a well-formed UTF-8 byte sequence: ASCII bytes stand
/// alone; leading bytes `C2`..`F4` open two- to four-byte characters with
/// the ranges that shut out overlong forms, surrogates and code points
/// past `10FFFF`.
pub open spec fn is_utf8(s: Seq<u8>) -> bool
    decreases s.len(),
{
    if s.len() == 0 {
        true
    } else {
        let b0 = s[0];
        if b0 < 0x80 {
            is_utf8(s.skip(1))
        } else if b0 < 0xC2 {
            false
        } else if b0 < 0xE0 {
            s.len() >= 2 && is_cont(s[1]) && is_utf8(s.skip(2))
        } else if b0 == 0xE0 {
            s.len() >= 3 && 0xA0 <= s[1] <= 0xBF && is_cont(s[2]) && is_utf8(s.skip(3))
        } else if b0 == 0xED {
            s.len() >= 3 && 0x80 <= s[1] <= 0x9F && is_cont(s[2]) && is_utf8(s.skip(3))
        } else if b0 < 0xF0 {
            s.len() >= 3 && is_cont(s[1]) && is_cont(s[2]) && is_utf8(s.skip(3))
        } else if b0 == 0xF0 {
            s.len() >= 4 && 0x90 <= s[1] <= 0xBF && is_cont(s[2]) && is_cont(s[3]) && is_utf8(
                s.skip(4),
            )
        } else if b0 < 0xF4 {
            s.len() >= 4 && is_cont(s[1]) && is_cont(s[2]) && is_cont(s[3]) && is_utf8(s.skip(4))
        } else if b0 == 0xF4 {
            s.len() >= 4 && 0x80 <= s[1] <= 0x8F && is_cont(s[2]) && is_cont(s[3]) && is_utf8(
                s.skip(4),
            )
        } else {
            false
        }
    }
}

/// Executable twin of `is_utf8` on a byte vector.
pub fn validate_utf8(bytes: &Vec<u8>) -> (r: bool)
    ensures
        r == is_utf8(bytes@),
{
    let n = bytes.len();
    let mut i: usize = 0;
    proof {
        assert(bytes@.skip(0) =~= bytes@);
    }
    while i < n
        invariant
            i <= n,
            n == bytes@.len(),
            is_utf8(bytes@) == is_utf8(bytes@.skip(i as int)),
        decreases n - i,
    {
        let ghost tail = bytes@.skip(i as int);
        let b0 = bytes[i];
        let step: usize;
        if b0 < 0x80 {
            step = 1;
        } else if b0 < 0xC2 {
            return false;
        } else if b0 < 0xE0 {
            if !(n - i >= 2 && is_cont_byte(bytes[i + 1])) {
                return false;
            }
            step = 2;
        } else if b0 == 0xE0 {
            if !(n - i >= 3 && 0xA0 <= bytes[i + 1] && bytes[i + 1] <= 0xBF && is_cont_byte(
                bytes[i + 2],
            )) {
                return false;
            }
            step = 3;
        } else if b0 == 0xED {
            if !(n - i >= 3 && 0x80 <= bytes[i + 1] && bytes[i + 1] <= 0x9F && is_cont_byte(
                bytes[i + 2],
            )) {
                return false;
            }
            step = 3;
        } else if b0 < 0xF0 {
            if !(n - i >= 3 && is_cont_byte(bytes[i + 1]) && is_cont_byte(bytes[i + 2])) {
                return false;
            }
            step = 3;
        } else if b0 == 0xF0 {
            if !(n - i >= 4 && 0x90 <= bytes[i + 1] && bytes[i + 1] <= 0xBF && is_cont_byte(
                bytes[i + 2],
            ) && is_cont_byte(bytes[i + 3])) {
                return false;
            }
            step = 4;
        } else if b0 < 0xF4 {
            if !(n - i >= 4 && is_cont_byte(bytes[i + 1]) && is_cont_byte(bytes[i + 2])
                && is_cont_byte(bytes[i + 3])) {
                return false;
            }
            step = 4;
        } else if b0 == 0xF4 {
            if !(n - i >= 4 && 0x80 <= bytes[i + 1] && bytes[i + 1] <= 0x8F && is_cont_byte(
                bytes[i + 2],
            ) && is_cont_byte(bytes[i + 3])) {
                return false;
            }
            step = 4;
        } else {
            return false;
        }
        proof {
            assert(tail.len() >= step);
            assert forall|k: int| 0 <= k < tail.len() implies tail[k] == bytes@[i + k] by {}
            assert(tail.skip(step as int) =~= bytes@.skip(i + step));
            assert(is_utf8(tail) == is_utf8(bytes@.skip(i + step)));
        }
        i = i + step;
    }
    proof {
        assert(bytes@.skip(n as int) =~= Seq::<u8>::empty());
    }
    true
}

/// Executable twin of `is_cont`.
fn is_cont_byte(b: u8) -> (r: bool)
    ensures
        r == is_cont(b),
{
    0x80 <= b && b <= 0xBF
}

} // verus!
