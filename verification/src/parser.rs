//! Byte-level helpers for the wire protocol: scanning for the CR LF line
//! terminator and reading decimal numbers.

use vstd::prelude::*;

verus! {

pub const CR: u8 = 13;
pub const LF: u8 = 10;

/// The two-byte line terminator used by every frame.
pub open spec fn crlf() -> Seq<u8> {
    seq![CR, LF]
}

pub open spec fn is_digit(b: u8) -> bool {
    48 <= b <= 57
}

pub open spec fn all_digits(s: Seq<u8>) -> bool {
    forall|i: int| 0 <= i < s.len() ==> is_digit(#[trigger] s[i])
}

/// Canonical decimal representation of a natural number, most significant
/// digit first, no leading zeroes.
pub open spec fn dec_digits(n: nat) -> Seq<u8>
    decreases n,
{
    if n < 10 {
        seq![(48 + n) as u8]
    } else {
        dec_digits(n / 10) + seq![(48 + n % 10) as u8]
    }
}

/// Canonical decimal representation of an integer: a minus sign where
/// negative, then the digits of the magnitude.
pub open spec fn int_digits(i: int) -> Seq<u8> {
    if i < 0 {
        seq![45u8] + dec_digits((-i) as nat)
    } else {
        dec_digits(i as nat)
    }
}

/// The numeric value of a digit string.
pub open spec fn dec_value(s: Seq<u8>) -> nat
    decreases s.len(),
{
    if s.len() == 0 {
        0
    } else {
        (dec_value(s.drop_last()) * 10 + (s.last() - 48)) as nat
    }
}

pub proof fn lemma_dec_digits_digits(n: nat)
    ensures
        all_digits(dec_digits(n)),
        dec_digits(n).len() >= 1,
    decreases n,
{
    if n >= 10 {
        lemma_dec_digits_digits(n / 10);
    }
}

pub proof fn lemma_dec_value_of_digits(n: nat)
    ensures
        dec_value(dec_digits(n)) == n,
    decreases n,
{
    if n < 10 {
        assert(dec_digits(n) =~= seq![(48 + n) as u8]);
        assert(dec_digits(n).drop_last() =~= Seq::<u8>::empty());
        assert(dec_value(Seq::<u8>::empty()) == 0);
        assert(dec_value(dec_digits(n)) == n);
    } else {
        lemma_dec_value_of_digits(n / 10);
        let a = dec_digits(n / 10);
        let d = (48 + n % 10) as u8;
        assert(dec_digits(n) == a + seq![d]);
        assert((a + seq![d]).drop_last() =~= a);
        assert((a + seq![d]).last() == d);
        assert(dec_value(a + seq![d]) == dec_value(a) * 10 + (d - 48));
        assert(n / 10 * 10 + n % 10 == n);
    }
}

/// The leading digit of a canonical representation is zero only for zero
/// itself.
pub proof fn lemma_dec_digits_no_leading_zero(n: nat)
    ensures
        n > 0 ==> dec_digits(n)[0] != 48,
    decreases n,
{
    if n >= 10 {
        lemma_dec_digits_no_leading_zero(n / 10);
    }
}

/// Position of the first CR LF pair at or after `from`, if any.
pub open spec fn spec_find_crlf(s: Seq<u8>, from: nat) -> Option<nat>
    decreases s.len() - from,
    when from <= s.len()
{
    if from + 2 > s.len() {
        None
    } else if s[from as int] == CR && s[from as int + 1] == LF {
        Some(from)
    } else {
        spec_find_crlf(s, from + 1)
    }
}

/// Whatever `spec_find_crlf` returns lies in range and really is the first
/// CR LF pair at or after `from`.
pub proof fn lemma_find_crlf_props(s: Seq<u8>, from: nat)
    requires
        from <= s.len(),
    ensures
        match spec_find_crlf(s, from) {
            Some(k) => {
                &&& from <= k
                &&& k + 2 <= s.len()
                &&& s[k as int] == CR
                &&& s[k as int + 1] == LF
                &&& forall|j: int| from <= j < k ==> !(#[trigger] s[j] == CR && s[j + 1] == LF)
            },
            None => forall|j: int|
                from <= j && j + 2 <= s.len() ==> !(#[trigger] s[j] == CR && s[j + 1] == LF),
        },
    decreases s.len() - from,
{
    if from + 2 > s.len() {
    } else if s[from as int] == CR && s[from as int + 1] == LF {
    } else {
        lemma_find_crlf_props(s, from + 1);
    }
}

/// In a buffer laid out as `head + CR LF + tail` where `head` holds no CR,
/// the first CR LF pair is exactly at the end of `head`.
pub proof fn lemma_find_crlf_after_clean(s: Seq<u8>, from: nat, k: nat)
    requires
        from <= k,
        k + 2 <= s.len(),
        s[k as int] == CR,
        s[k as int + 1] == LF,
        forall|j: int| from <= j < k ==> s[j] != CR,
    ensures
        spec_find_crlf(s, from) == Some(k),
    decreases k - from,
{
    if from < k {
        lemma_find_crlf_after_clean(s, from + 1, k);
    }
}

/// Scan for the line terminator, as the decoder does: the line is everything
/// before the first CR LF pair, and the count includes the terminator.
pub fn read_until_crlf(buffer: &[u8]) -> (r: Option<(&[u8], usize)>)
    ensures
        match r {
            Some((line, consumed)) => {
                &&& spec_find_crlf(buffer@, 0) == Some((consumed - 2) as nat)
                &&& 2 <= consumed <= buffer@.len()
                &&& line@ == buffer@.subrange(0, consumed - 2)
            },
            None => spec_find_crlf(buffer@, 0) is None,
        },
{
    let mut i: usize = 0;
    loop
        invariant
            i <= buffer@.len(),
            spec_find_crlf(buffer@, 0) == spec_find_crlf(buffer@, i as nat),
        decreases buffer@.len() - i,
    {
        if buffer.len() < 2 || i > buffer.len() - 2 {
            return None;
        }
        if buffer[i] == CR && buffer[i + 1] == LF {
            let line = vstd::slice::slice_subrange(buffer, 0, i);
            return Some((line, i + 2));
        }
        i = i + 1;
    }
}

/// Scan for the line terminator starting at `from`, reporting the position of
/// the CR byte.
pub fn find_crlf_from(buffer: &[u8], from: usize) -> (r: Option<usize>)
    requires
        from <= buffer@.len(),
    ensures
        match r {
            Some(k) => {
                &&& spec_find_crlf(buffer@, from as nat) == Some(k as nat)
                &&& from <= k
                &&& k + 2 <= buffer@.len()
            },
            None => spec_find_crlf(buffer@, from as nat) is None,
        },
{
    let mut i: usize = from;
    loop
        invariant
            from <= i <= buffer@.len(),
            spec_find_crlf(buffer@, from as nat) == spec_find_crlf(buffer@, i as nat),
        decreases buffer@.len() - i,
    {
        if buffer.len() < 2 || i > buffer.len() - 2 {
            return None;
        }
        if buffer[i] == CR && buffer[i + 1] == LF {
            return Some(i);
        }
        i = i + 1;
    }
}

/// Reads an unsigned decimal number from a full digit string. Returns the
/// value exactly when the bytes are all digits, there is at least one, and
/// the value fits in a `u64`.
pub fn parse_int(buffer: &[u8]) -> (r: Option<u64>)
    ensures
        match r {
            Some(v) => {
                &&& all_digits(buffer@)
                &&& buffer@.len() >= 1
                &&& v as nat == dec_value(buffer@)
            },
            None => !(all_digits(buffer@) && buffer@.len() >= 1 && dec_value(buffer@)
                <= u64::MAX),
        },
{
    if buffer.len() == 0 {
        return None;
    }
    let mut acc: u64 = 0;
    let mut i: usize = 0;
    while i < buffer.len()
        invariant
            i <= buffer@.len(),
            all_digits(buffer@.subrange(0, i as int)),
            acc as nat == dec_value(buffer@.subrange(0, i as int)),
        decreases buffer@.len() - i,
    {
        let b = buffer[i];
        if b < 48 || b > 57 {
            assert(!is_digit(buffer@[i as int]));
            return None;
        }
        let d = (b - 48) as u64;
        if acc > (u64::MAX - d) / 10 {
            proof {
                if all_digits(buffer@) {
                    lemma_prefix_value_bounds(buffer@, i as int);
                }
            }
            return None;
        }
        proof {
            assert(buffer@.subrange(0, i + 1).drop_last() =~= buffer@.subrange(0, i as int));
        }
        acc = acc * 10 + d;
        i = i + 1;
    }
    proof {
        assert(buffer@.subrange(0, buffer@.len() as int) =~= buffer@);
    }
    Some(acc)
}

/// A digit string's value only grows as more digits are appended, so a prefix
/// already past `u64::MAX / 10` dooms the whole string.
proof fn lemma_prefix_value_bounds(s: Seq<u8>, i: int)
    requires
        0 <= i < s.len(),
        all_digits(s),
        dec_value(s.subrange(0, i)) * 10 + (s[i] - 48) > u64::MAX,
    ensures
        dec_value(s) > u64::MAX,
{
    lemma_value_monotonic(s, i + 1);
    assert(s.subrange(0, i + 1).drop_last() =~= s.subrange(0, i));
    assert(dec_value(s.subrange(0, i + 1)) > u64::MAX);
}

/// The value of a strict prefix never exceeds the value of the whole digit
/// string.
proof fn lemma_value_monotonic(s: Seq<u8>, i: int)
    requires
        0 <= i <= s.len(),
        all_digits(s),
    ensures
        dec_value(s.subrange(0, i)) <= dec_value(s),
    decreases s.len() - i,
{
    if i == s.len() {
        assert(s.subrange(0, i) =~= s);
    } else {
        lemma_value_monotonic(s, i + 1);
        assert(s.subrange(0, i + 1).drop_last() =~= s.subrange(0, i));
        assert(dec_value(s.subrange(0, i + 1)) == dec_value(s.subrange(0, i)) * 10 + (s[i]
            - 48));
    }
}

/// Renders a natural number in decimal, matching `dec_digits`.
pub fn u64_to_dec(n: u64) -> (r: Vec<u8>)
    ensures
        r@ == dec_digits(n as nat),
    decreases n,
{
    if n < 10 {
        let mut v: Vec<u8> = Vec::new();
        v.push((48 + n) as u8);
        assert(v@ =~= dec_digits(n as nat));
        v
    } else {
        let mut v = u64_to_dec(n / 10);
        v.push((48 + n % 10) as u8);
        assert(v@ =~= dec_digits(n as nat));
        v
    }
}

/// Renders a signed number in decimal, matching `int_digits`.
pub fn i64_to_dec(i: i64) -> (r: Vec<u8>)
    ensures
        r@ == int_digits(i as int),
{
    if i >= 0 {
        u64_to_dec(i as u64)
    } else {
        let mag: u64 = (-(i as i128)) as u64;
        let mut v: Vec<u8> = Vec::new();
        v.push(45u8);
        let mut digits = u64_to_dec(mag);
        v.append(&mut digits);
        assert(v@ =~= int_digits(i as int));
        v
    }
}


/// Value of a digit string as a `u64`, if it is one.
pub open spec fn spec_parse_u64(s: Seq<u8>) -> Option<u64> {
    if all_digits(s) && s.len() >= 1 && dec_value(s) <= u64::MAX {
        Some(dec_value(s) as u64)
    } else {
        None
    }
}

/// Position of the first occurrence of `b` at or after `from`, if any.
pub open spec fn spec_find_byte(s: Seq<u8>, b: u8, from: nat) -> Option<nat>
    decreases s.len() - from,
    when from <= s.len()
{
    if from >= s.len() {
        None
    } else if s[from as int] == b {
        Some(from)
    } else {
        spec_find_byte(s, b, from + 1)
    }
}

pub proof fn lemma_find_byte_props(s: Seq<u8>, b: u8, from: nat)
    requires
        from <= s.len(),
    ensures
        match spec_find_byte(s, b, from) {
            Some(k) => {
                &&& from <= k < s.len()
                &&& s[k as int] == b
                &&& forall|j: int| from <= j < k ==> #[trigger] s[j] != b
            },
            None => forall|j: int| from <= j < s.len() ==> #[trigger] s[j] != b,
        },
    decreases s.len() - from,
{
    if from >= s.len() {
    } else if s[from as int] == b {
    } else {
        lemma_find_byte_props(s, b, from + 1);
    }
}

/// Scan for the first occurrence of a byte.
pub fn find_byte(buffer: &[u8], b: u8) -> (r: Option<usize>)
    ensures
        match r {
            Some(k) => spec_find_byte(buffer@, b, 0) == Some(k as nat) && k < buffer@.len(),
            None => spec_find_byte(buffer@, b, 0) is None,
        },
{
    let mut i: usize = 0;
    loop
        invariant
            i <= buffer@.len(),
            spec_find_byte(buffer@, b, 0) == spec_find_byte(buffer@, b, i as nat),
        decreases buffer@.len() - i,
    {
        if i >= buffer.len() {
            return None;
        }
        if buffer[i] == b {
            return Some(i);
        }
        i = i + 1;
    }
}

/// Reads a whole digit string as a `u64`, exactly as `spec_parse_u64` says.
pub fn parse_u64(buffer: &[u8]) -> (r: Option<u64>)
    ensures
        r == spec_parse_u64(buffer@),
{
    parse_int(buffer)
}

} // verus!
