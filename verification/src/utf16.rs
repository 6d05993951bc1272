//! UTF-16 encoding and decoding of character sequences, used by the wire
//! value decoder for string payloads.

use vstd::prelude::*;

use crate::strutil::{char_from_u32, push_char};

verus! {

pub open spec fn is_high_surrogate(u: u16) -> bool {
    0xD800 <= u < 0xDC00
}

pub open spec fn is_low_surrogate(u: u16) -> bool {
    0xDC00 <= u < 0xE000
}

/// The UTF-16 code units of one character: the code point itself for the
/// basic plane, a surrogate pair above it.
pub open spec fn char_utf16_units(c: char) -> Seq<u16> {
    if (c as u32) < 0x10000 {
        seq![(c as u32) as u16]
    } else {
        let v = (c as u32) - 0x10000;
        seq![(0xD800 + v / 0x400) as u16, (0xDC00 + v % 0x400) as u16]
    }
}

pub open spec fn encode_utf16(s: Seq<char>) -> Seq<u16>
    decreases s.len(),
{
    if s.len() == 0 {
        Seq::empty()
    } else {
        char_utf16_units(s[0]) + encode_utf16(s.drop_first())
    }
}

/// Decoding of a unit sequence; `None` on a lone or misordered surrogate.
pub open spec fn decode_utf16(u: Seq<u16>) -> Option<Seq<char>>
    decreases u.len(),
{
    if u.len() == 0 {
        Some(Seq::empty())
    } else if !is_high_surrogate(u[0]) && !is_low_surrogate(u[0]) {
        match decode_utf16(u.drop_first()) {
            Some(rest) => Some(seq![(u[0] as u32) as char] + rest),
            None => None,
        }
    } else if is_high_surrogate(u[0]) && u.len() >= 2 && is_low_surrogate(u[1]) {
        let cp = 0x10000 + (u[0] - 0xD800) * 0x400 + (u[1] - 0xDC00);
        match decode_utf16(u.skip(2)) {
            Some(rest) => Some(seq![(cp as u32) as char] + rest),
            None => None,
        }
    } else {
        None
    }
}

proof fn lemma_encode_utf16_push(s: Seq<char>, c: char)
    ensures
        encode_utf16(s.push(c)) == encode_utf16(s) + char_utf16_units(c),
    decreases s.len(),
{
    if s.len() == 0 {
        assert(s.push(c).drop_first() =~= Seq::<char>::empty());
        assert(s.push(c)[0] == c);
        assert(encode_utf16(s.push(c)) == char_utf16_units(c) + encode_utf16(
            Seq::<char>::empty(),
        ));
        assert(char_utf16_units(c) + Seq::<u16>::empty() =~= char_utf16_units(c));
        assert(encode_utf16(s) + char_utf16_units(c) =~= char_utf16_units(c));
    } else {
        assert(s.push(c).drop_first() =~= s.drop_first().push(c));
        lemma_encode_utf16_push(s.drop_first(), c);
        assert(encode_utf16(s.push(c)) =~= encode_utf16(s) + char_utf16_units(c));
    }
}

/// Every character sequence decodes back from its encoding.
pub proof fn lemma_decode_encode_utf16(s: Seq<char>)
    ensures
        decode_utf16(encode_utf16(s)) == Some(s),
    decreases s.len(),
{
    broadcast use vstd::utf8::char_is_scalar, vstd::utf8::char_u32_cast;

    if s.len() == 0 {
        assert(decode_utf16(encode_utf16(s)) == Some(Seq::<char>::empty()));
        assert(s =~= Seq::<char>::empty());
    } else {
        let c = s[0];
        let u = encode_utf16(s);
        let rest = encode_utf16(s.drop_first());
        lemma_decode_encode_utf16(s.drop_first());
        if (c as u32) < 0x10000 {
            let unit = (c as u32) as u16;
            vstd::utf8::char_is_scalar(c);
            assert(unit == c as u32);
            assert(!is_high_surrogate(unit) && !is_low_surrogate(unit));
            assert(u.drop_first() =~= rest);
            vstd::utf8::char_u32_cast(c, unit as u32);
            assert((seq![(unit as u32) as char] + s.drop_first()) =~= s);
        } else {
            let v = (c as u32) - 0x10000;
            vstd::utf8::char_is_scalar(c);
            vstd::arithmetic::div_mod::lemma_fundamental_div_mod(v, 0x400);
            assert(0 <= v % 0x400 < 0x400) by {
                vstd::arithmetic::div_mod::lemma_mod_bound(v, 0x400);
            }
            assert(0 <= v / 0x400 <= 0x3FF) by {
                vstd::arithmetic::div_mod::lemma_div_pos_is_pos(v, 0x400);
                vstd::arithmetic::div_mod::lemma_div_is_ordered(v, 0xFFFFF, 0x400);
                assert(0xFFFFF as int / 0x400 == 0x3FF);
            }
            let hi = (0xD800 + v / 0x400) as u16;
            let lo = (0xDC00 + v % 0x400) as u16;
            assert(hi == 0xD800 + v / 0x400);
            assert(lo == 0xDC00 + v % 0x400);
            assert(is_high_surrogate(hi));
            assert(is_low_surrogate(lo));
            assert(u.len() >= 2);
            assert(u[0] == hi && u[1] == lo);
            let cp = 0x10000 + (hi - 0xD800) * 0x400 + (lo - 0xDC00);
            assert(cp == c as u32);
            vstd::utf8::char_u32_cast(c, cp as u32);
            assert(u.skip(2) =~= rest);
            assert((seq![(cp as u32) as char] + s.drop_first()) =~= s);
        }
    }
}

/// The UTF-16 code units of a string's characters, in order.
pub fn utf16_encode(s: &str) -> (r: Vec<u16>)
    ensures
        r@ == encode_utf16(s@),
{
    let n = s.unicode_len();
    let mut r: Vec<u16> = Vec::new();
    let mut i: usize = 0;
    proof {
        assert(s@.take(0) =~= Seq::<char>::empty());
    }
    while i < n
        invariant
            i <= n,
            n == s@.len(),
            r@ == encode_utf16(s@.take(i as int)),
        decreases n - i,
    {
        let c = s.get_char(i);
        let v = c as u32;
        proof {
            broadcast use vstd::utf8::char_is_scalar;

            lemma_encode_utf16_push(s@.take(i as int), c);
            assert(s@.take(i + 1) =~= s@.take(i as int).push(s@[i as int]));
        }
        if v < 0x10000 {
            r.push(v as u16);
        } else {
            let w = v - 0x10000;
            r.push(0xD800 + (w / 0x400) as u16);
            r.push(0xDC00 + (w % 0x400) as u16);
        }
        i = i + 1;
    }
    proof {
        assert(s@.take(n as int) =~= s@);
    }
    r
}

/// Decodes UTF-16 code units into a string; `None` where the sequence is not
/// well formed.
pub fn utf16_decode(u: &[u16]) -> (r: Option<String>)
    ensures
        match decode_utf16(u@) {
            Some(cs) => r is Some && r->0@ == cs,
            None => r is None,
        },
{
    let n = u.len();
    let mut out = String::new();
    let mut i: usize = 0;
    proof {
        assert(u@.skip(0) =~= u@);
        match decode_utf16(u@) {
            Some(rest) => {
                assert(out@ + rest =~= rest);
            },
            None => {},
        }
    }
    while i < n
        invariant
            i <= n,
            n == u@.len(),
            match decode_utf16(u@.skip(i as int)) {
                Some(rest) => decode_utf16(u@) == Some(out@ + rest),
                None => decode_utf16(u@) is None,
            },
        decreases n - i,
    {
        let x = u[i];
        let ghost tail = u@.skip(i as int);
        let ghost prev = out@;
        proof {
            assert(tail.len() > 0);
            assert(tail[0] == u@[i as int]);
        }
        if x < 0xD800 || x >= 0xE000 {
            let c = char_from_u32(x as u32).unwrap();
            push_char(&mut out, c);
            proof {
                assert(tail.drop_first() =~= u@.skip(i + 1));
                match decode_utf16(u@.skip(i + 1)) {
                    Some(r2) => {
                        assert(decode_utf16(tail) == Some(
                            seq![(tail[0] as u32) as char] + r2,
                        ));
                        assert(prev + (seq![(tail[0] as u32) as char] + r2) =~= out@ + r2);
                    },
                    None => {
                        assert(decode_utf16(tail) is None);
                    },
                }
            }
            i = i + 1;
        } else if x < 0xDC00 && i + 1 < n && 0xDC00 <= u[i + 1] && u[i + 1] < 0xE000 {
            let y = u[i + 1];
            let cp: u32 = 0x10000 + ((x - 0xD800) as u32) * 0x400 + ((y - 0xDC00) as u32);
            proof {
                assert(tail.len() >= 2);
                assert(tail[1] == u@[i + 1]);
                assert(is_high_surrogate(tail[0]) && is_low_surrogate(tail[1]));
                assert(cp == 0x10000 + (tail[0] - 0xD800) * 0x400 + (tail[1] - 0xDC00));
            }
            let c = char_from_u32(cp).unwrap();
            push_char(&mut out, c);
            proof {
                assert(tail.skip(2) =~= u@.skip(i + 2));
                match decode_utf16(u@.skip(i + 2)) {
                    Some(r2) => {
                        assert(decode_utf16(tail) == Some(seq![(cp as u32) as char] + r2));
                        assert(prev + (seq![(cp as u32) as char] + r2) =~= out@ + r2);
                    },
                    None => {
                        assert(decode_utf16(tail) is None);
                    },
                }
            }
            i = i + 2;
        } else {
            proof {
                assert(decode_utf16(tail) is None);
            }
            return None;
        }
    }
    proof {
        assert(u@.skip(n as int) =~= Seq::<u16>::empty());
        match decode_utf16(u@) {
            Some(rest) => {
                assert(out@ + Seq::<char>::empty() =~= out@);
            },
            None => {},
        }
    }
    Some(out)
}

} // verus!
