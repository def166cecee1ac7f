//! Text utilities shared across the crate: lossy byte-to-text decoding at the
//! store boundary, decimal rendering and parsing, and verified substring
//! search and replacement.

use vstd::prelude::*;

verus! {

/// What `String::from_utf8_lossy` returns for an arbitrary byte string.
pub uninterp spec fn utf8_lossy_of(b: Seq<u8>) -> Seq<char>;

/// What `String::from_utf16_lossy` returns for an arbitrary unit string.
pub uninterp spec fn utf16_lossy_of(u: Seq<u16>) -> Seq<char>;

/// Relies on `String::from_utf8_lossy`: the result is a function of the bytes
/// alone, and ASCII bytes are valid UTF-8, so they decode to themselves.
#[verifier::external_body]
pub fn utf8_lossy(b: &[u8]) -> (r: String)
    ensures
        r@ == utf8_lossy_of(b@),
        (forall|i: int| 0 <= i < b@.len() ==> b@[i] < 0x80) ==> (r@.len() == b@.len() && forall|
            i: int,
        |
            0 <= i < b@.len() ==> r@[i] == b@[i] as char),
{
    String::from_utf8_lossy(b).into_owned()
}

/// Relies on `String::from_utf16_lossy`: the result is a function of the
/// units alone, and units below the surrogate range decode to the scalar
/// value they hold.
#[verifier::external_body]
pub fn utf16_lossy(u: &[u16]) -> (r: String)
    ensures
        r@ == utf16_lossy_of(u@),
        (forall|i: int| 0 <= i < u@.len() ==> u@[i] < 0xd800) ==> (r@.len() == u@.len() && forall|
            i: int,
        |
            0 <= i < u@.len() ==> r@[i] as u32 == u@[i] as u32),
{
    String::from_utf16_lossy(u)
}

/// Relies on `String::push`: appends exactly the one character.
#[verifier::external_body]
pub fn push_char(s: &mut String, c: char)
    ensures
        final(s)@ == old(s)@.push(c),
{
    s.push(c);
}

/// The decimal digit character for a value below ten.
pub open spec fn digit_char(d: int) -> char {
    if d == 0 { '0' }
    else if d == 1 { '1' }
    else if d == 2 { '2' }
    else if d == 3 { '3' }
    else if d == 4 { '4' }
    else if d == 5 { '5' }
    else if d == 6 { '6' }
    else if d == 7 { '7' }
    else if d == 8 { '8' }
    else { '9' }
}

/// The decimal rendering of a nonnegative integer, without padding.
pub open spec fn dec_str(n: int) -> Seq<char>
    decreases n,
{
    if n < 10 {
        seq![digit_char(n)]
    } else {
        dec_str(n / 10).push(digit_char(n % 10))
    }
}

/// The decimal rendering of a signed integer.
pub open spec fn dec_str_signed(n: int) -> Seq<char> {
    if n >= 0 {
        dec_str(n)
    } else {
        seq!['-'] + dec_str(-n)
    }
}

fn digit_exec(d: u64) -> (c: char)
    requires
        d < 10,
    ensures
        c == digit_char(d as int),
{
    if d == 0 { '0' }
    else if d == 1 { '1' }
    else if d == 2 { '2' }
    else if d == 3 { '3' }
    else if d == 4 { '4' }
    else if d == 5 { '5' }
    else if d == 6 { '6' }
    else if d == 7 { '7' }
    else if d == 8 { '8' }
    else { '9' }
}

/// Renders a nonnegative integer in decimal.
pub fn u64_to_string(n: u64) -> (r: String)
    ensures
        r@ == dec_str(n as int),
    decreases n,
{
    if n < 10 {
        let mut s = String::new();
        push_char(&mut s, digit_exec(n));
        proof {
            assert(s@ =~= dec_str(n as int));
        }
        s
    } else {
        let mut s = u64_to_string(n / 10);
        push_char(&mut s, digit_exec(n % 10));
        s
    }
}

/// Renders a signed integer in decimal.
pub fn i64_to_string(n: i64) -> (r: String)
    ensures
        r@ == dec_str_signed(n as int),
{
    if n >= 0 {
        u64_to_string(n as u64)
    } else {
        let mag: u64 = (-(n as i128)) as u64;
        let mut s = String::new();
        push_char(&mut s, '-');
        let digits = u64_to_string(mag);
        let r = s.concat(digits.as_str());
        proof {
            assert(r@ =~= dec_str_signed(n as int));
        }
        r
    }
}

/// Renders a value below one hundred as exactly two decimal digits.
pub open spec fn two_digits(n: int) -> Seq<char> {
    seq![digit_char(n / 10), digit_char(n % 10)]
}

pub fn two_digits_exec(n: u64) -> (r: String)
    requires
        n < 100,
    ensures
        r@ == two_digits(n as int),
{
    let mut s = String::new();
    push_char(&mut s, digit_exec(n / 10));
    push_char(&mut s, digit_exec(n % 10));
    proof {
        assert(s@ =~= two_digits(n as int));
    }
    s
}

pub open spec fn is_dec_digit(c: char) -> bool {
    48 <= c as u32 <= 57
}

pub open spec fn digit_val(c: char) -> int {
    c as u32 - 48
}

/// The numeric value of a digit string, most significant digit first.
pub open spec fn digits_val(s: Seq<char>) -> int
    decreases s.len(),
{
    if s.len() == 0 {
        0
    } else {
        digits_val(s.drop_last()) * 10 + digit_val(s.last())
    }
}

/// The digit part of a decimal string: everything after an optional
/// leading plus sign.
pub open spec fn parse_body(s: Seq<char>) -> Seq<char> {
    if s.len() > 0 && s[0] == '+' {
        s.skip(1)
    } else {
        s
    }
}

pub open spec fn all_dec_digits(s: Seq<char>) -> bool {
    forall|i: int| 0 <= i < s.len() ==> is_dec_digit(#[trigger] s[i])
}

/// What `str::parse::<u32>` returns: an optional leading plus sign, then at
/// least one decimal digit, and a value that fits in 32 bits.
pub open spec fn parse_u32_spec(s: Seq<char>) -> Option<u32> {
    if parse_body(s).len() == 0 || !all_dec_digits(parse_body(s)) || digits_val(parse_body(s))
        > u32::MAX {
        None
    } else {
        Some(digits_val(parse_body(s)) as u32)
    }
}

proof fn lemma_digits_val_bounds(s: Seq<char>)
    requires
        forall|i: int| 0 <= i < s.len() ==> is_dec_digit(s[i]),
    ensures
        digits_val(s) >= 0,
    decreases s.len(),
{
    if s.len() > 0 {
        lemma_digits_val_bounds(s.drop_last());
    }
}

/// Parses a decimal string the way the standard `u32` parser does, returning
/// `None` for an empty body, a non-digit, or overflow.
pub fn parse_u32_name(s: &str) -> (r: Option<u32>)
    ensures
        r == parse_u32_spec(s@),
{
    let len = s.unicode_len();
    let start: usize = if len > 0 && s.get_char(0) == '+' {
        1
    } else {
        0
    };
    let ghost body = parse_body(s@);
    if len == start {
        return None;
    }
    let mut i: usize = start;
    let mut acc: u64 = 0;
    while i < len
        invariant
            start <= i <= len,
            start <= 1,
            len == s@.len(),
            body == parse_body(s@),
            body.len() == len - start,
            forall|j: int| 0 <= j < i - start ==> is_dec_digit(#[trigger] body[j]),
            acc == digits_val(body.take(i - start)),
            acc <= u32::MAX,
        decreases len - i,
    {
        let c = s.get_char(i);
        let v = c as u32;
        proof {
            assert(body[i - start] == s@[i as int]);
        }
        if v < 48 || v > 57 {
            proof {
                assert(!is_dec_digit(body[i - start]));
                assert(!all_dec_digits(body));
            }
            return None;
        }
        let d = (v - 48) as u64;
        let next = acc * 10 + d;
        proof {
            assert(body.take(i - start + 1).drop_last() =~= body.take(i - start));
            assert(body.take(i - start + 1).last() == body[i - start]);
        }
        if next > 0xffff_ffff {
            proof {
                lemma_digits_val_overflow(body, i - start + 1);
                if all_dec_digits(body) {
                    assert(digits_val(body) > u32::MAX);
                }
            }
            return None;
        }
        acc = next;
        i = i + 1;
    }
    proof {
        assert(body.take(len - start) =~= body);
    }
    Some(acc as u32)
}

/// Once a digit prefix exceeds the 32-bit range, the whole digit string does.
proof fn lemma_digits_val_overflow(s: Seq<char>, k: int)
    requires
        0 < k <= s.len(),
        digits_val(s.take(k)) > u32::MAX,
        forall|i: int| 0 <= i < k ==> is_dec_digit(#[trigger] s[i]),
    ensures
        digits_val(s) > u32::MAX || !all_dec_digits(s),
    decreases s.len() - k,
{
    if k == s.len() {
        assert(s.take(k) =~= s);
    } else {
        if is_dec_digit(s[k]) {
            assert(s.take(k + 1).drop_last() =~= s.take(k));
            assert(digits_val(s.take(k + 1)) == digits_val(s.take(k)) * 10 + digit_val(s.take(k
                + 1).last()));
            lemma_digits_val_overflow(s, k + 1);
        }
    }
}

/// Compares two string slices character by character.
pub fn str_eq(a: &str, b: &str) -> (r: bool)
    ensures
        r == (a@ == b@),
{
    let alen = a.unicode_len();
    let blen = b.unicode_len();
    if alen != blen {
        proof {
            assert(a@ != b@);
        }
        return false;
    }
    let mut i: usize = 0;
    while i < alen
        invariant
            0 <= i <= alen,
            alen == a@.len() == b@.len(),
            forall|j: int| 0 <= j < i ==> a@[j] == b@[j],
        decreases alen - i,
    {
        if a.get_char(i) != b.get_char(i) {
            return false;
        }
        i = i + 1;
    }
    proof {
        assert(a@ =~= b@);
    }
    true
}

/// Whether `pat` occurs in `s` at position `i`.
pub open spec fn match_at(s: Seq<char>, pat: Seq<char>, i: int) -> bool {
    0 <= i && i + pat.len() <= s.len() && s.subrange(i, i + pat.len()) == pat
}

/// The first position at or after `i` where `pat` occurs in `s`.
pub open spec fn first_match_from(s: Seq<char>, pat: Seq<char>, i: int) -> Option<int>
    decreases s.len() + 1 - i,
{
    if i < 0 || i + pat.len() > s.len() {
        None
    } else if s.subrange(i, i + pat.len()) == pat {
        Some(i)
    } else {
        first_match_from(s, pat, i + 1)
    }
}

pub proof fn lemma_first_match_from_valid(s: Seq<char>, pat: Seq<char>, i: int)
    requires
        first_match_from(s, pat, i) is Some,
    ensures
        match_at(s, pat, first_match_from(s, pat, i)->0),
        first_match_from(s, pat, i)->0 >= i,
    decreases s.len() + 1 - i,
{
    if !(i < 0 || i + pat.len() > s.len()) && s.subrange(i, i + pat.len()) != pat {
        lemma_first_match_from_valid(s, pat, i + 1);
    }
}

/// Whether `pat` occurs at `i` in `s`, decided character by character.
fn match_at_exec(s: &str, pat: &str, i: usize) -> (r: bool)
    requires
        i + pat@.len() <= s@.len(),
    ensures
        r == match_at(s@, pat@, i as int),
{
    let slen = s.unicode_len();
    let plen = pat.unicode_len();
    let mut j: usize = 0;
    while j < plen
        invariant
            0 <= j <= plen,
            plen == pat@.len(),
            slen == s@.len(),
            i + plen <= slen,
            forall|k: int| 0 <= k < j ==> s@[i + k] == pat@[k],
        decreases plen - j,
    {
        if s.get_char(i + j) != pat.get_char(j) {
            proof {
                assert(s@.subrange(i as int, i + pat@.len())[j as int] != pat@[j as int]);
            }
            return false;
        }
        j = j + 1;
    }
    proof {
        assert(s@.subrange(i as int, i + pat@.len()) =~= pat@);
    }
    true
}

/// Finds the first occurrence of `pat` in `s` at or after `from`.
pub fn find_from(s: &str, pat: &str, from: usize) -> (r: Option<usize>)
    ensures
        match r {
            Some(i) => Some(i as int) == first_match_from(s@, pat@, from as int),
            None => first_match_from(s@, pat@, from as int) is None,
        },
{
    let slen = s.unicode_len();
    let plen = pat.unicode_len();
    if from > slen || plen > slen - from {
        return None;
    }
    if plen == 0 {
        proof {
            assert(s@.subrange(from as int, from as int) =~= pat@);
        }
        return Some(from);
    }
    let mut i: usize = from;
    while i <= slen - plen
        invariant
            from <= i,
            1 <= plen <= slen,
            i <= slen - plen + 1,
            slen == s@.len(),
            plen == pat@.len(),
            first_match_from(s@, pat@, from as int) == first_match_from(s@, pat@, i as int),
        decreases slen - i,
    {
        if match_at_exec(s, pat, i) {
            return Some(i);
        }
        i = i + 1;
    }
    None
}

/// Whether `s` begins with `pre`.
pub open spec fn has_prefix(s: Seq<char>, pre: Seq<char>) -> bool {
    match_at(s, pre, 0)
}

/// Decides whether `s` begins with `pre`.
pub fn starts_with_exec(s: &str, pre: &str) -> (r: bool)
    ensures
        r == has_prefix(s@, pre@),
{
    let slen = s.unicode_len();
    let plen = pre.unicode_len();
    if plen > slen {
        return false;
    }
    match_at_exec(s, pre, 0)
}

/// The result of replacing the first occurrence of `pat` in `s` by `to`,
/// or `s` unchanged when `pat` does not occur.
pub open spec fn replace_first_spec(s: Seq<char>, pat: Seq<char>, to: Seq<char>) -> Seq<char> {
    match first_match_from(s, pat, 0) {
        Some(i) => s.take(i) + to + s.skip(i + pat.len()),
        None => s,
    }
}

/// The result of replacing every occurrence of `pat` in `s` by `to`,
/// scanning left to right.
pub open spec fn replace_spec(s: Seq<char>, pat: Seq<char>, to: Seq<char>) -> Seq<char>
    decreases s.len(),
    when pat.len() > 0
{
    match first_match_from(s, pat, 0) {
        Some(i) => {
            proof {
                lemma_first_match_from_valid(s, pat, 0);
            }
            s.take(i) + to + replace_spec(s.skip(i + pat.len()), pat, to)
        },
        None => s,
    }
}

/// Replaces the first occurrence of `pat` in `s` by `to`.
pub fn replace_first(s: &str, pat: &str, to: &str) -> (r: String)
    ensures
        r@ == replace_first_spec(s@, pat@, to@),
{
    let slen = s.unicode_len();
    match find_from(s, pat, 0) {
        None => {
            let mut out = String::new();
            out.append(s);
            out
        },
        Some(i) => {
            proof {
                lemma_first_match_from_valid(s@, pat@, 0);
            }
            let plen = pat.unicode_len();
            let mut out = String::new();
            out.append(s.substring_char(0, i));
            out.append(to);
            out.append(s.substring_char(i + plen, slen));
            proof {
                assert(s@.subrange(0, i as int) =~= s@.take(i as int));
                assert(s@.subrange(i + plen, slen as int) =~= s@.skip(i + pat@.len()));
                assert(out@ =~= replace_first_spec(s@, pat@, to@));
            }
            out
        },
    }
}

/// Replaces every occurrence of `pat` in `s` by `to`.
pub fn replace_all(s: &str, pat: &str, to: &str) -> (r: String)
    requires
        pat@.len() > 0,
    ensures
        r@ == replace_spec(s@, pat@, to@),
{
    let mut out = String::new();
    let mut cur: &str = s;
    proof {
        assert(out@ + replace_spec(cur@, pat@, to@) =~= replace_spec(s@, pat@, to@));
    }
    loop
        invariant_except_break
            pat@.len() > 0,
            out@ + replace_spec(cur@, pat@, to@) == replace_spec(s@, pat@, to@),
        ensures
            out@ == replace_spec(s@, pat@, to@),
        decreases cur@.len(),
    {
        let curlen = cur.unicode_len();
        match find_from(cur, pat, 0) {
            None => {
                out.append(cur);
                proof {
                    assert(replace_spec(cur@, pat@, to@) == cur@);
                }
                break ;
            },
            Some(i) => {
                proof {
                    lemma_first_match_from_valid(cur@, pat@, 0);
                }
                let plen = pat.unicode_len();
                let ghost prev = cur@;
                let ghost prev_out = out@;
                out.append(cur.substring_char(0, i));
                out.append(to);
                cur = cur.substring_char(i + plen, curlen);
                proof {
                    assert(prev.subrange(0, i as int) =~= prev.take(i as int));
                    assert(cur@ =~= prev.skip(i + pat@.len()));
                    assert(replace_spec(prev, pat@, to@) == prev.take(i as int) + to@
                        + replace_spec(prev.skip(i + pat@.len()), pat@, to@));
                    assert(out@ + replace_spec(cur@, pat@, to@) =~= prev_out + replace_spec(
                        prev,
                        pat@,
                        to@,
                    ));
                }
            },
        }
    }
    out
}

} // verus!
