//! UTF-8 validation for string fields: the wire carries raw bytes, and a
//! string field only accepts byte sequences that this predicate admits.

use vstd::prelude::*;

verus! {

/// A UTF-8 continuation byte: high bits `10`.
pub open spec fn is_cont(b: u8) -> bool {
    0x80 <= b && b < 0xC0
}

/// The length of a well-formed UTF-8 character starting at `s[i]`, or 0 if
/// no well-formed character starts there.  Overlong forms, surrogates and
/// values above U+10FFFF are all rejected, as Rust's `str` does.
pub open spec fn utf8_char_len_at(s: Seq<u8>, i: int) -> int {
    let b0 = s[i];
    if b0 < 0x80 {
        1
    } else if b0 < 0xC2 {
        0
    } else if b0 < 0xE0 {
        if i + 2 <= s.len() && is_cont(s[i + 1]) {
            2
        } else {
            0
        }
    } else if b0 < 0xF0 {
        if i + 3 <= s.len() && is_cont(s[i + 1]) && is_cont(s[i + 2]) && (b0 != 0xE0 || s[i + 1]
            >= 0xA0) && (b0 != 0xED || s[i + 1] < 0xA0) {
            3
        } else {
            0
        }
    } else if b0 < 0xF5 {
        if i + 4 <= s.len() && is_cont(s[i + 1]) && is_cont(s[i + 2]) && is_cont(s[i + 3]) && (b0
            != 0xF0 || s[i + 1] >= 0x90) && (b0 != 0xF4 || s[i + 1] < 0x90) {
            4
        } else {
            0
        }
    } else {
        0
    }
}

/// The bytes from `i` on form a well-formed sequence of UTF-8 characters.
pub open spec fn is_utf8_from(s: Seq<u8>, i: int) -> bool
    decreases s.len() - i,
{
    if i < 0 {
        false
    } else if i >= s.len() {
        true
    } else {
        let l = utf8_char_len_at(s, i);
        if l == 0 {
            false
        } else {
            is_utf8_from(s, i + l)
        }
    }
}

/// The whole byte sequence is well-formed UTF-8.
pub open spec fn is_utf8(s: Seq<u8>) -> bool {
    is_utf8_from(s, 0)
}

/// Decides [`is_utf8`] over a byte vector.
pub fn validate_utf8(v: &Vec<u8>) -> (r: bool)
    ensures
        r == is_utf8(v@),
{
    let n = v.len();
    let mut i: usize = 0;
    while i < n
        invariant
            i <= n,
            n == v@.len(),
            is_utf8(v@) == is_utf8_from(v@, i as int),
        decreases n - i,
    {
        let b0 = v[i];
        if b0 < 0x80 {
            assert(utf8_char_len_at(v@, i as int) == 1);
            i = i + 1;
        } else if b0 < 0xC2 {
            assert(utf8_char_len_at(v@, i as int) == 0);
            return false;
        } else if b0 < 0xE0 {
            if n - i >= 2 && is_cont_byte(v[i + 1]) {
                assert(utf8_char_len_at(v@, i as int) == 2);
                i = i + 2;
            } else {
                assert(utf8_char_len_at(v@, i as int) == 0);
                return false;
            }
        } else if b0 < 0xF0 {
            if n - i >= 3 && is_cont_byte(v[i + 1]) && is_cont_byte(v[i + 2]) && (b0 != 0xE0 || v[i
                + 1] >= 0xA0) && (b0 != 0xED || v[i + 1] < 0xA0) {
                assert(utf8_char_len_at(v@, i as int) == 3);
                i = i + 3;
            } else {
                assert(utf8_char_len_at(v@, i as int) == 0);
                return false;
            }
        } else if b0 < 0xF5 {
            if n - i >= 4 && is_cont_byte(v[i + 1]) && is_cont_byte(v[i + 2]) && is_cont_byte(
                v[i + 3],
            ) && (b0 != 0xF0 || v[i + 1] >= 0x90) && (b0 != 0xF4 || v[i + 1] < 0x90) {
                assert(utf8_char_len_at(v@, i as int) == 4);
                i = i + 4;
            } else {
                assert(utf8_char_len_at(v@, i as int) == 0);
                return false;
            }
        } else {
            assert(utf8_char_len_at(v@, i as int) == 0);
            return false;
        }
    }
    true
}

fn is_cont_byte(b: u8) -> (r: bool)
    ensures
        r == is_cont(b),
{
    0x80 <= b && b < 0xC0
}

} // verus!
