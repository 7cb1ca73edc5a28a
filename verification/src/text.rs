//! Text scanning shared by the front ends: Unicode whitespace, trimming, and
//! unsigned 32-bit numbers written in decimal or with a `0x` prefix in hex.
use vstd::prelude::*;

verus! {

/// Unicode `White_Space`, the set `char::is_whitespace` tests.
pub open spec fn is_ws(c: char) -> bool {
    let n = c as u32;
    (0x9 <= n <= 0xD) || n == 0x20 || n == 0x85 || n == 0xA0 || n == 0x1680 || (0x2000 <= n
        <= 0x200A) || n == 0x2028 || n == 0x2029 || n == 0x202F || n == 0x205F || n == 0x3000
}

/// `s` without its leading whitespace.
pub open spec fn trim_start(s: Seq<char>) -> Seq<char>
    decreases s.len(),
{
    if s.len() > 0 && is_ws(s[0]) {
        trim_start(s.drop_first())
    } else {
        s
    }
}

/// `s` without its trailing whitespace.
pub open spec fn trim_end(s: Seq<char>) -> Seq<char>
    decreases s.len(),
{
    if s.len() > 0 && is_ws(s.last()) {
        trim_end(s.drop_last())
    } else {
        s
    }
}

/// `s` without leading and trailing whitespace (`str::trim`).
pub open spec fn trim(s: Seq<char>) -> Seq<char> {
    trim_end(trim_start(s))
}

/// Why a number did not parse; the kinds `u32::from_str_radix` reports.
#[derive(Debug, Clone, Copy, PartialEq, Eq, Structural)]
pub enum NumError {
    /// Nothing to parse.
    Empty,
    /// A character that is not a digit of the radix, or a lone sign.
    InvalidDigit,
    /// The value does not fit in 32 bits.
    PosOverflow,
}

/// The value of an ASCII digit in radix 10 (`hex` false) or 16 (`hex` true).
pub open spec fn digit_of(c: char, hex: bool) -> Option<u32> {
    let n = c as u32;
    if 0x30 <= n <= 0x39 {
        Some((n - 0x30) as u32)
    } else if hex && 0x61 <= n <= 0x66 {
        Some((n - 0x61 + 10) as u32)
    } else if hex && 0x41 <= n <= 0x46 {
        Some((n - 0x41 + 10) as u32)
    } else {
        None
    }
}

/// Digits read left to right onto `acc`; the first character that is no
/// digit, or the first digit that takes the value past `u32::MAX`, fails.
pub open spec fn digits_value(ds: Seq<char>, hex: bool, acc: int) -> Result<u32, NumError>
    decreases ds.len(),
{
    if ds.len() == 0 {
        Ok(acc as u32)
    } else {
        match digit_of(ds[0], hex) {
            None => Err(NumError::InvalidDigit),
            Some(d) => {
                let v = if hex {
                    acc * 16 + d
                } else {
                    acc * 10 + d
                };
                if v > u32::MAX {
                    Err(NumError::PosOverflow)
                } else {
                    digits_value(ds.drop_first(), hex, v)
                }
            },
        }
    }
}

/// `u32::from_str_radix(s, 16 or 10)`: an optional `+`, then digits.
pub open spec fn radix_value(s: Seq<char>, hex: bool) -> Result<u32, NumError> {
    if s.len() == 0 {
        Err(NumError::Empty)
    } else if (s[0] == '+' || s[0] == '-') && s.len() == 1 {
        Err(NumError::InvalidDigit)
    } else if s[0] == '+' {
        digits_value(s.drop_first(), hex, 0)
    } else {
        digits_value(s, hex, 0)
    }
}

/// Whether `t` begins with `0x` or `0X`.
pub open spec fn has_hex_prefix(t: Seq<char>) -> bool {
    t.len() >= 2 && t[0] == '0' && (t[1] == 'x' || t[1] == 'X')
}

/// A number as the command lines take it: surrounding whitespace is ignored,
/// `0x` or `0X` introduces hex digits, anything else is decimal.
pub open spec fn number_value(s: Seq<char>) -> Result<u32, NumError> {
    let t = trim(s);
    if has_hex_prefix(t) {
        radix_value(t.subrange(2, t.len() as int), true)
    } else {
        radix_value(t, false)
    }
}

/// The `Ok` value of a result, as an option.
pub open spec fn ok_of(r: Result<u32, NumError>) -> Option<u32> {
    match r {
        Ok(v) => Some(v),
        Err(_) => None,
    }
}

pub fn is_ws_char(c: char) -> (r: bool)
    ensures
        r == is_ws(c),
{
    let n = c as u32;
    (0x9 <= n && n <= 0xD) || n == 0x20 || n == 0x85 || n == 0xA0 || n == 0x1680 || (0x2000 <= n
        && n <= 0x200A) || n == 0x2028 || n == 0x2029 || n == 0x202F || n == 0x205F || n == 0x3000
}

/// The characters of `s`.
pub fn chars_of(s: &str) -> (r: Vec<char>)
    ensures
        r@ == s@,
{
    let n = s.unicode_len();
    let mut out: Vec<char> = Vec::new();
    let mut i: usize = 0;
    while i < n
        invariant
            n == s@.len(),
            i <= n,
            out@ == s@.subrange(0, i as int),
        decreases n - i,
    {
        out.push(s.get_char(i));
        i = i + 1;
    }
    out
}

/// The bounds of `s[lo..hi]` without its surrounding whitespace.
pub fn trim_range(s: &[char], lo: usize, hi: usize) -> (r: (usize, usize))
    requires
        lo <= hi <= s@.len(),
    ensures
        lo <= r.0 <= r.1 <= hi,
        s@.subrange(r.0 as int, r.1 as int) == trim(s@.subrange(lo as int, hi as int)),
{
    let mut i = lo;
    while i < hi
        invariant
            lo <= i <= hi <= s@.len(),
            trim_start(s@.subrange(lo as int, hi as int)) == trim_start(s@.subrange(i as int, hi as int)),
        ensures
            lo <= i <= hi,
            trim_start(s@.subrange(lo as int, hi as int)) == s@.subrange(i as int, hi as int),
        decreases hi - i,
    {
        if is_ws_char(s[i]) {
            assert(s@.subrange(i as int, hi as int).drop_first() =~= s@.subrange(i + 1, hi as int));
            i = i + 1;
        } else {
            break;
        }
    }
    let mut j = hi;
    while j > i
        invariant
            i <= j <= hi <= s@.len(),
            trim_end(s@.subrange(i as int, hi as int)) == trim_end(s@.subrange(i as int, j as int)),
        ensures
            i <= j <= hi,
            trim_end(s@.subrange(i as int, hi as int)) == s@.subrange(i as int, j as int),
        decreases j,
    {
        if is_ws_char(s[j - 1]) {
            assert(s@.subrange(i as int, j as int).drop_last() =~= s@.subrange(i as int, j - 1));
            j = j - 1;
        } else {
            break;
        }
    }
    (i, j)
}

/// Digits of `s[lo..hi]`, read onto zero.
fn digits_in(s: &[char], lo: usize, hi: usize, hex: bool) -> (r: Result<u32, NumError>)
    requires
        lo <= hi <= s@.len(),
    ensures
        r == digits_value(s@.subrange(lo as int, hi as int), hex, 0),
{
    let mut acc: u32 = 0;
    let mut i = lo;
    while i < hi
        invariant
            lo <= i <= hi <= s@.len(),
            digits_value(s@.subrange(lo as int, hi as int), hex, 0) == digits_value(
                s@.subrange(i as int, hi as int),
                hex,
                acc as int,
            ),
        decreases hi - i,
    {
        let c = s[i];
        let n = c as u32;
        assert(s@.subrange(i as int, hi as int)[0] == c);
        assert(s@.subrange(i as int, hi as int).drop_first() =~= s@.subrange(i + 1, hi as int));
        let d: u32 = if 0x30 <= n && n <= 0x39 {
            n - 0x30
        } else if hex && 0x61 <= n && n <= 0x66 {
            n - 0x61 + 10
        } else if hex && 0x41 <= n && n <= 0x46 {
            n - 0x41 + 10
        } else {
            return Err(NumError::InvalidDigit);
        };
        let v: u64 = if hex {
            acc as u64 * 16 + d as u64
        } else {
            acc as u64 * 10 + d as u64
        };
        if v > 0xFFFF_FFFF {
            return Err(NumError::PosOverflow);
        }
        acc = v as u32;
        i = i + 1;
    }
    Ok(acc)
}

/// `u32::from_str_radix` on `s[lo..hi]`, radix 16 when `hex`, else 10.
pub fn radix_in(s: &[char], lo: usize, hi: usize, hex: bool) -> (r: Result<u32, NumError>)
    requires
        lo <= hi <= s@.len(),
    ensures
        r == radix_value(s@.subrange(lo as int, hi as int), hex),
{
    let ghost t = s@.subrange(lo as int, hi as int);
    if lo == hi {
        return Err(NumError::Empty);
    }
    let c = s[lo];
    assert(t[0] == c);
    if (c == '+' || c == '-') && hi - lo == 1 {
        Err(NumError::InvalidDigit)
    } else if c == '+' {
        assert(t.drop_first() =~= s@.subrange(lo + 1, hi as int));
        digits_in(s, lo + 1, hi, hex)
    } else {
        digits_in(s, lo, hi, hex)
    }
}

/// A number in `s[lo..hi]` as the command lines take it (see `number_value`).
pub fn number_in(s: &[char], lo: usize, hi: usize) -> (r: Result<u32, NumError>)
    requires
        lo <= hi <= s@.len(),
    ensures
        r == number_value(s@.subrange(lo as int, hi as int)),
{
    let (a, b) = trim_range(s, lo, hi);
    let ghost t = s@.subrange(a as int, b as int);
    if b - a >= 2 && s[a] == '0' && (s[a + 1] == 'x' || s[a + 1] == 'X') {
        assert(t[0] == s@[a as int] && t[1] == s@[a + 1]);
        assert(t.subrange(2, t.len() as int) =~= s@.subrange(a + 2, b as int));
        radix_in(s, a + 2, b, true)
    } else {
        assert(b - a >= 2 ==> t[0] == s@[a as int] && t[1] == s@[a + 1]);
        radix_in(s, a, b, false)
    }
}

/// Parses an address or count: decimal, or hex after `0x`/`0X`, with
/// surrounding whitespace ignored.
pub fn parse_u32(s: &str) -> (r: Result<u32, NumError>)
    ensures
        r == number_value(s@),
{
    let v = chars_of(s);
    assert(v@.subrange(0, v@.len() as int) =~= v@);
    number_in(v.as_slice(), 0, v.len())
}

/// `parse_u32`, with the error dropped.
pub fn parse_num(s: &str) -> (r: Option<u32>)
    ensures
        r == ok_of(number_value(s@)),
{
    match parse_u32(s) {
        Ok(v) => Some(v),
        Err(_) => None,
    }
}

/// An address typed into the viewer: decimal, or hex after `0x`/`0X`.
pub fn parse_hex(s: &str) -> (r: Option<u32>)
    ensures
        r == ok_of(number_value(s@)),
{
    parse_num(s)
}

/// Whether `s[lo..hi]` is exactly the characters of `lit`.
pub fn range_is(s: &[char], lo: usize, hi: usize, lit: &str) -> (r: bool)
    requires
        lo <= hi <= s@.len(),
    ensures
        r == (s@.subrange(lo as int, hi as int) == lit@),
{
    let n = lit.unicode_len();
    if hi - lo != n {
        return false;
    }
    let mut k: usize = 0;
    while k < n
        invariant
            n == lit@.len(),
            hi - lo == n,
            lo <= hi <= s@.len(),
            k <= n,
            forall|q: int| 0 <= q < k ==> s@[lo + q] == lit@[q],
        decreases n - k,
    {
        if s[lo + k] != lit.get_char(k) {
            assert(s@.subrange(lo as int, hi as int)[k as int] != lit@[k as int]);
            return false;
        }
        k = k + 1;
    }
    assert(s@.subrange(lo as int, hi as int) =~= lit@);
    true
}

/// Whether `s[lo..hi]` begins with the characters of `lit`.
pub fn range_starts_with(s: &[char], lo: usize, hi: usize, lit: &str) -> (r: bool)
    requires
        lo <= hi <= s@.len(),
    ensures
        r == (hi - lo >= lit@.len() && s@.subrange(lo as int, lo + lit@.len()) == lit@),
{
    let n = lit.unicode_len();
    if hi - lo < n {
        return false;
    }
    range_is(s, lo, lo + n, lit)
}

} // verus!
