//! UTF-8 validation for symbol and class names.
//!
//! `is_utf8` states byte-exact well-formedness as std defines it for `str`:
//! one-byte sequences below `0x80`; two-byte sequences `C2..DF` plus one
//! continuation byte; three-byte sequences `E0/E1..EC/ED/EE..EF` with their
//! tightened second-byte ranges (no overlong forms, no surrogates); four-byte
//! sequences `F0/F1..F3/F4` likewise (nothing above `U+10FFFF`).

use vstd::prelude::*;

verus! {

/// Is `b` a UTF-8 continuation byte?
pub open spec fn is_cont_byte(b: u8) -> bool {
    0x80 <= b <= 0xBF
}

/// Are `s`'s bytes well-formed UTF-8?
pub open spec fn is_utf8(s: Seq<u8>) -> bool
    decreases s.len(),
{
    if s.len() == 0 {
        true
    } else {
        let b0 = s[0];
        if b0 < 0x80 {
            is_utf8(s.skip(1))
        } else if 0xC2 <= b0 <= 0xDF {
            s.len() >= 2 && is_cont_byte(s[1]) && is_utf8(s.skip(2))
        } else if b0 == 0xE0 {
            s.len() >= 3 && 0xA0 <= s[1] <= 0xBF && is_cont_byte(s[2]) && is_utf8(s.skip(3))
        } else if 0xE1 <= b0 <= 0xEC {
            s.len() >= 3 && is_cont_byte(s[1]) && is_cont_byte(s[2]) && is_utf8(s.skip(3))
        } else if b0 == 0xED {
            s.len() >= 3 && 0x80 <= s[1] <= 0x9F && is_cont_byte(s[2]) && is_utf8(s.skip(3))
        } else if 0xEE <= b0 <= 0xEF {
            s.len() >= 3 && is_cont_byte(s[1]) && is_cont_byte(s[2]) && is_utf8(s.skip(3))
        } else if b0 == 0xF0 {
            s.len() >= 4 && 0x90 <= s[1] <= 0xBF && is_cont_byte(s[2]) && is_cont_byte(s[3])
                && is_utf8(s.skip(4))
        } else if 0xF1 <= b0 <= 0xF3 {
            s.len() >= 4 && is_cont_byte(s[1]) && is_cont_byte(s[2]) && is_cont_byte(s[3])
                && is_utf8(s.skip(4))
        } else if b0 == 0xF4 {
            s.len() >= 4 && 0x80 <= s[1] <= 0x8F && is_cont_byte(s[2]) && is_cont_byte(s[3])
                && is_utf8(s.skip(4))
        } else {
            false
        }
    }
}

/// Checks whether `bytes` is well-formed UTF-8.
pub fn check_utf8(bytes: &Vec<u8>) -> (r: bool)
    ensures
        r == is_utf8(bytes@),
{
    let n: usize = bytes.len();
    let mut i: usize = 0;
    proof {
        assert(bytes@.skip(0) =~= bytes@);
    }
    while i < n
        invariant
            0 <= i <= n,
            n == bytes@.len(),
            is_utf8(bytes@) == is_utf8(bytes@.skip(i as int)),
        decreases n - i,
    {
        let ghost tail = bytes@.skip(i as int);
        let b0: u8 = bytes[i];
        proof {
            assert(tail[0] == bytes@[i as int]);
        }
        // how many bytes this sequence needs, and the second byte's range
        let (need, lo, hi): (usize, u8, u8) = if b0 < 0x80 {
            (1, 0, 0)
        } else if 0xC2 <= b0 && b0 <= 0xDF {
            (2, 0x80, 0xBF)
        } else if b0 == 0xE0 {
            (3, 0xA0, 0xBF)
        } else if 0xE1 <= b0 && b0 <= 0xEC {
            (3, 0x80, 0xBF)
        } else if b0 == 0xED {
            (3, 0x80, 0x9F)
        } else if 0xEE <= b0 && b0 <= 0xEF {
            (3, 0x80, 0xBF)
        } else if b0 == 0xF0 {
            (4, 0x90, 0xBF)
        } else if 0xF1 <= b0 && b0 <= 0xF3 {
            (4, 0x80, 0xBF)
        } else if b0 == 0xF4 {
            (4, 0x80, 0x8F)
        } else {
            return false;
        };
        if need > n - i {
            proof {
                assert(!is_utf8(tail));
            }
            return false;
        }
        if need >= 2 {
            let b1: u8 = bytes[i + 1];
            proof {
                assert(tail[1] == bytes@[i as int + 1]);
            }
            if !(lo <= b1 && b1 <= hi) {
                proof {
                    assert(!is_utf8(tail));
                }
                return false;
            }
        }
        if need >= 3 {
            let b2: u8 = bytes[i + 2];
            proof {
                assert(tail[2] == bytes@[i as int + 2]);
            }
            if !(0x80 <= b2 && b2 <= 0xBF) {
                proof {
                    assert(!is_utf8(tail));
                }
                return false;
            }
        }
        if need >= 4 {
            let b3: u8 = bytes[i + 3];
            proof {
                assert(tail[3] == bytes@[i as int + 3]);
            }
            if !(0x80 <= b3 && b3 <= 0xBF) {
                proof {
                    assert(!is_utf8(tail));
                }
                return false;
            }
        }
        proof {
            assert(tail.skip(need as int) =~= bytes@.skip(i as int + need as int));
            assert(is_utf8(tail) == is_utf8(tail.skip(need as int)));
        }
        i = i + need;
    }
    proof {
        assert(bytes@.skip(n as int) =~= Seq::<u8>::empty());
    }
    true
}

} // verus!
