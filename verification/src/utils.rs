//! Small text utilities: the rotation cipher used by the usage-history
//! store, identifier substitution in paths, and wide-string conversion.

use vstd::prelude::*;
use crate::strutil::push_char;
use crate::strutil::replace_spec;
use crate::strutil::replace_all;
use crate::strutil::utf16_lossy;
use crate::strutil::utf16_lossy_of;

verus! {

/// One character under the thirteen-place rotation: letters of either case
/// rotate within their alphabet half, everything else stays.
pub open spec fn rot13_char(c: char) -> char {
    let v = c as u32;
    if (65 <= v <= 77) || (97 <= v <= 109) {
        ((v + 13) as u8) as char
    } else if (78 <= v <= 90) || (110 <= v <= 122) {
        ((v - 13) as u8) as char
    } else {
        c
    }
}

/// A text under the thirteen-place rotation, character by character.
pub open spec fn rot13_spec(s: Seq<char>) -> Seq<char> {
    Seq::new(s.len(), |i: int| rot13_char(s[i]))
}

/// Applies the thirteen-place rotation to each letter of the text.
pub fn rot13(text: &str) -> (r: String)
    ensures
        r@ == rot13_spec(text@),
{
    let n = text.unicode_len();
    let mut out = String::new();
    let mut i: usize = 0;
    while i < n
        invariant
            0 <= i <= n,
            n == text@.len(),
            out@.len() == i,
            forall|j: int| 0 <= j < i ==> out@[j] == rot13_char(text@[j]),
        decreases n - i,
    {
        let c = text.get_char(i);
        let v = c as u32;
        let mapped: char = if (65 <= v && v <= 77) || (97 <= v && v <= 109) {
            ((v + 13) as u8) as char
        } else if (78 <= v && v <= 90) || (110 <= v && v <= 122) {
            ((v - 13) as u8) as char
        } else {
            c
        };
        push_char(&mut out, mapped);
        i = i + 1;
    }
    proof {
        assert(out@ =~= rot13_spec(text@));
    }
    out
}

/// Replaces every braced occurrence of the identifier in the path by the
/// resolved text.
pub fn replace_guid_in_path(input: &str, guid: &str, guid_str: &str) -> (r: Option<String>)
    ensures
        r matches Some(s) && s@ == replace_spec(
            input@,
            seq!['{'] + guid@ + seq!['}'],
            guid_str@,
        ),
{
    let mut pat = String::new();
    push_char(&mut pat, '{');
    pat.append(guid);
    push_char(&mut pat, '}');
    proof {
        assert(pat@ =~= seq!['{'] + guid@ + seq!['}']);
    }
    Some(replace_all(input, pat.as_str(), guid_str))
}

/// The 16-bit units of one character: scalar values below the supplementary
/// planes stand as themselves, the rest as a surrogate pair.
pub open spec fn utf16_char_units(c: char) -> Seq<u16> {
    let v = c as u32;
    if v < 0x10000 {
        seq![v as u16]
    } else {
        let w = (v - 0x10000) as u32;
        seq![(0xd800 + (w >> 10)) as u16, (0xdc00 + (w & 0x3ff)) as u16]
    }
}

/// The 16-bit encoding of a text.
pub open spec fn utf16_encode(s: Seq<char>) -> Seq<u16>
    decreases s.len(),
{
    if s.len() == 0 {
        Seq::empty()
    } else {
        utf16_char_units(s[0]) + utf16_encode(s.skip(1))
    }
}

/// Encodes a text as null-terminated 16-bit units.
pub fn to_pwstr(val: &str) -> (r: Vec<u16>)
    ensures
        r@ == utf16_encode(val@) + seq![0u16],
{
    let n = val.unicode_len();
    let mut out: Vec<u16> = Vec::new();
    let mut i: usize = 0;
    proof {
        assert(val@.skip(0) =~= val@);
        assert(out@ + utf16_encode(val@.skip(0)) =~= utf16_encode(val@));
    }
    while i < n
        invariant
            0 <= i <= n,
            n == val@.len(),
            utf16_encode(val@) == out@ + utf16_encode(val@.skip(i as int)),
        decreases n - i,
    {
        proof {
            assert(val@.skip(i as int)[0] == val@[i as int]);
            assert(val@.skip(i as int).skip(1) =~= val@.skip(i + 1));
        }
        let ghost prev = out@;
        let c = val.get_char(i);
        let v = c as u32;
        if v < 0x10000 {
            out.push(v as u16);
            proof {
                assert(out@ =~= prev + utf16_char_units(val@[i as int]));
            }
        } else {
            let w: u32 = v - 0x10000;
            proof {
                assert(w >> 10 <= 0x3ff && w & 0x3ff <= 0x3ff) by (bit_vector)
                    requires
                        w <= 0xfffff,
                ;
            }
            out.push((0xd800 + (w >> 10)) as u16);
            out.push((0xdc00 + (w & 0x3ff)) as u16);
            proof {
                assert(out@ =~= prev + utf16_char_units(val@[i as int]));
            }
        }
        proof {
            assert(out@ + utf16_encode(val@.skip(i + 1)) =~= prev + utf16_encode(
                val@.skip(i as int),
            ));
        }
        i = i + 1;
    }
    proof {
        assert(val@.skip(n as int) =~= Seq::<char>::empty());
        assert(out@ + utf16_encode(val@.skip(n as int)) =~= out@);
    }
    out.push(0);
    proof {
        assert(out@ =~= utf16_encode(val@) + seq![0u16]);
    }
    out
}

/// Decodes 16-bit units as text, unpaired surrogates replaced.
pub fn from_pwstr(val: &[u16]) -> (r: String)
    ensures
        r@ == utf16_lossy_of(val@),
{
    utf16_lossy(val)
}

/// A zero-filled byte buffer of the given size.
pub fn vec_with_capacity(capacity: usize) -> (r: Vec<u8>)
    ensures
        r@.len() == capacity,
        forall|i: int| 0 <= i < capacity ==> r@[i] == 0u8,
{
    let v = vec![0u8; capacity];
    v
}


/// Whether a character may appear inside a braced identifier: a decimal
/// digit, a hexadecimal letter of either case, or a hyphen.
pub open spec fn guid_class(c: char) -> bool {
    let v = c as u32;
    crate::strutil::is_dec_digit(c) || (65 <= v <= 70) || (97 <= v <= 102) || c == '-'
}

/// Whether a braced 36-character identifier starts at position `i`.
pub open spec fn guid_at(s: Seq<char>, i: int) -> bool {
    &&& 0 <= i
    &&& i + 38 <= s.len()
    &&& s[i] == '{'
    &&& s[i + 37] == '}'
    &&& forall|k: int| i + 1 <= k < i + 37 ==> guid_class(#[trigger] s[k])
}

/// The first position at or after `i` where a braced identifier starts.
pub open spec fn first_guid_from(s: Seq<char>, i: int) -> Option<int>
    decreases s.len() + 1 - i,
{
    if i < 0 || i + 38 > s.len() {
        None
    } else if guid_at(s, i) {
        Some(i)
    } else {
        first_guid_from(s, i + 1)
    }
}

/// What extraction yields: the 36 characters inside the first braced
/// identifier, or nothing when the text holds none.
pub open spec fn extract_guid_spec(s: Seq<char>) -> Option<Seq<char>> {
    match first_guid_from(s, 0) {
        Some(i) => Some(s.subrange(i + 1, i + 37)),
        None => None,
    }
}

/// Decides whether a braced identifier starts at `i`.
fn guid_at_exec(s: &str, i: usize) -> (r: bool)
    requires
        i + 38 <= s@.len(),
    ensures
        r == guid_at(s@, i as int),
{
    let _bound = s.unicode_len();
    if s.get_char(i) != '{' || s.get_char(i + 37) != '}' {
        return false;
    }
    let end = i + 37;
    let mut k: usize = i + 1;
    while k < end
        invariant
            i + 1 <= k <= end,
            end == i + 37,
            i + 38 <= s@.len(),
            forall|m: int| i + 1 <= m < k ==> guid_class(#[trigger] s@[m]),
        decreases end - k,
    {
        let c = s.get_char(k);
        let v = c as u32;
        let in_class = (48 <= v && v <= 57) || (65 <= v && v <= 70) || (97 <= v && v <= 102) || c
            == '-';
        if !in_class {
            return false;
        }
        k = k + 1;
    }
    true
}

/// Finds the first braced 36-character identifier in the text and returns
/// the characters between the braces.
pub fn extract_guid(input: &str) -> (r: Option<String>)
    ensures
        match r {
            Some(g) => extract_guid_spec(input@) == Some(g@),
            None => extract_guid_spec(input@) is None,
        },
{
    let n = input.unicode_len();
    if n < 38 {
        return None;
    }
    let mut i: usize = 0;
    while i <= n - 38
        invariant
            0 <= i <= n - 37,
            n >= 38,
            n == input@.len(),
            first_guid_from(input@, 0) == first_guid_from(input@, i as int),
        decreases n - i,
    {
        if guid_at_exec(input, i) {
            let inner = input.substring_char(i + 1, i + 37);
            let mut out = String::new();
            out.append(inner);
            return Some(out);
        }
        i = i + 1;
    }
    None
}

} // verus!
