//! The hotkey identifier and its bidirectional mapping to canonical names.
//!
//! A key is a closed tagged variant: the insert key, a function key, a
//! letter, or an unmapped key carried by its raw code.  Names are matched
//! without regard to ASCII case; an unmapped key serializes to an explicit
//! `Unknown(code)` form, which no name parses back to.
use vstd::prelude::*;
use crate::num::{all_digits, dec_digits, digits_val, is_digit, parse_u64_digits, u64_to_digits};
use crate::bytes::bytes_eq;

verus! {

#[derive(Clone, Copy, PartialEq, Eq, Structural, Debug)]
pub enum Key {
    Insert,
    /// A function key: `F(n)` for `F1` through `F12`.
    F(u8),
    /// A letter key, held as its upper-case ASCII code.
    Letter(u8),
    /// Any other key, by a raw platform code.
    Unknown(u32),
}

/// The variants a canonical name exists for, within their ranges.
pub open spec fn key_wf(k: Key) -> bool {
    match k {
        Key::Insert => true,
        Key::F(n) => 1 <= n <= 12,
        Key::Letter(b) => 65 <= b <= 90,
        Key::Unknown(_) => false,
    }
}

/// The canonical name of a key, as written to the settings file.
pub open spec fn key_bytes(k: Key) -> Seq<u8> {
    match k {
        Key::Insert => seq![73u8, 110u8, 115u8, 101u8, 114u8, 116u8],  // "Insert"
        Key::F(n) => seq![70u8] + dec_digits(n as int),  // "F" ++ digits
        Key::Letter(b) => seq![b],
        Key::Unknown(c) => seq![85u8, 110u8, 107u8, 110u8, 111u8, 119u8, 110u8, 40u8] + dec_digits(
            c as int,
        ) + seq![41u8],  // "Unknown(" ++ digits ++ ")"
    }
}

pub open spec fn lower(b: u8) -> u8 {
    if 65 <= b <= 90 {
        (b + 32) as u8
    } else {
        b
    }
}

pub open spec fn upper(b: u8) -> u8 {
    if 97 <= b <= 122 {
        (b - 32) as u8
    } else {
        b
    }
}

pub open spec fn lower_seq(s: Seq<u8>) -> Seq<u8> {
    s.map_values(|b: u8| lower(b))
}

/// "insert", the lower-cased canonical name of the insert key.
pub open spec fn insert_lower() -> Seq<u8> {
    seq![105u8, 110u8, 115u8, 101u8, 114u8, 116u8]
}

/// The key a name denotes, matched case-insensitively: "insert", "f1"
/// through "f12", or a single letter.  Anything else denotes no key.
pub open spec fn key_of_bytes(s: Seq<u8>) -> Option<Key> {
    let l = lower_seq(s);
    if l == insert_lower() {
        Some(Key::Insert)
    } else if l.len() >= 2 && l[0] == 102 && all_digits(l.skip(1)) && l.skip(1) == dec_digits(
        digits_val(l.skip(1)),
    ) && 1 <= digits_val(l.skip(1)) <= 12 {
        Some(Key::F(digits_val(l.skip(1)) as u8))
    } else if s.len() == 1 && 65 <= upper(s[0]) <= 90 {
        Some(Key::Letter(upper(s[0])))
    } else {
        None
    }
}

fn lower_vec(s: &[u8]) -> (r: Vec<u8>)
    ensures
        r@ == lower_seq(s@),
{
    let mut r: Vec<u8> = Vec::new();
    let mut i: usize = 0;
    while i < s.len()
        invariant
            0 <= i <= s@.len(),
            r@.len() == i,
            forall|j: int| 0 <= j < i ==> r@[j] == lower(s@[j]),
        decreases s@.len() - i,
    {
        let b = s[i];
        if b >= 65 && b <= 90 {
            r.push(b + 32);
        } else {
            r.push(b);
        }
        i = i + 1;
    }
    proof {
        assert(r@ =~= lower_seq(s@));
    }
    r
}

pub fn key_from_bytes(s: &[u8]) -> (r: Option<Key>)
    ensures
        r == key_of_bytes(s@),
        match r {
            Some(k) => key_wf(k),
            None => true,
        },
{
    let l = lower_vec(s);
    let insert_name: [u8; 6] = [105, 110, 115, 101, 114, 116];
    if bytes_eq(l.as_slice(), insert_name.as_slice()) {
        proof {
            assert(insert_name@ =~= insert_lower());
        }
        return Some(Key::Insert);
    }
    proof {
        assert(insert_name@ =~= insert_lower());
    }
    if l.len() >= 2 && l[0] == 102 {
        let rest = crate::bytes::copy_range(l.as_slice(), 1, l.len());
        proof {
            assert(rest@ =~= l@.skip(1));
        }
        match parse_u64_digits(rest.as_slice()) {
            Some(v) => {
                if 1 <= v && v <= 12 {
                    let canon = u64_to_digits(v);
                    if bytes_eq(canon.as_slice(), rest.as_slice()) {
                        return Some(Key::F(v as u8));
                    }
                }
                return None;
            },
            None => {
                proof {
                    if all_digits(rest@) && rest@.len() >= 1 {
                        crate::num::lemma_digits_val_nonneg(rest@);
                    }
                }
                return None;
            },
        }
    }
    if s.len() == 1 {
        let b = s[0];
        let u = if b >= 97 && b <= 122 {
            b - 32
        } else {
            b
        };
        if u >= 65 && u <= 90 {
            return Some(Key::Letter(u));
        }
    }
    None
}

pub fn key_to_bytes(k: &Key) -> (r: Vec<u8>)
    ensures
        r@ == key_bytes(*k),
{
    match k {
        Key::Insert => {
            let mut r: Vec<u8> = Vec::new();
            let name: [u8; 6] = [73, 110, 115, 101, 114, 116];
            crate::bytes::push_bytes(&mut r, name.as_slice());
            proof {
                assert(r@ =~= key_bytes(*k));
            }
            r
        },
        Key::F(n) => {
            let mut r: Vec<u8> = Vec::new();
            r.push(70);
            let d = u64_to_digits(*n as u64);
            crate::bytes::push_bytes(&mut r, d.as_slice());
            proof {
                assert(r@ =~= key_bytes(*k));
            }
            r
        },
        Key::Letter(b) => {
            let mut r: Vec<u8> = Vec::new();
            r.push(*b);
            proof {
                assert(r@ =~= key_bytes(*k));
            }
            r
        },
        Key::Unknown(c) => {
            let mut r: Vec<u8> = Vec::new();
            let head: [u8; 8] = [85, 110, 107, 110, 111, 119, 110, 40];
            crate::bytes::push_bytes(&mut r, head.as_slice());
            let d = u64_to_digits(*c as u64);
            crate::bytes::push_bytes(&mut r, d.as_slice());
            r.push(41);
            proof {
                assert(r@ =~= key_bytes(*k));
            }
            r
        },
    }
}

/// The canonical name of a well-formed key names that key and no other.
pub proof fn lemma_key_name_round_trip(k: Key)
    requires
        key_wf(k),
    ensures
        key_of_bytes(key_bytes(k)) == Some(k),
{
    match k {
        Key::Insert => {
            assert(lower_seq(key_bytes(k)) =~= insert_lower());
        },
        Key::F(n) => {
            crate::num::lemma_dec_digits(n as int);
            let d = dec_digits(n as int);
            let l = lower_seq(key_bytes(k));
            assert(l.len() == 1 + d.len());
            assert(l[0] == 102);
            assert(forall|j: int| 0 <= j < d.len() ==> is_digit(d[j]) && lower(d[j]) == d[j]);
            assert(l.skip(1) =~= d);
            assert(l != insert_lower());
        },
        Key::Letter(b) => {
            let l = lower_seq(key_bytes(k));
            assert(l =~= seq![lower(b)]);
            assert(l != insert_lower());
            assert(upper(key_bytes(k)[0]) == b);
        },
        Key::Unknown(_) => {},
    }
}

} // verus!
