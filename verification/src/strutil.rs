//! Small string utilities shared by the lexer, evaluator and importers:
//! character-sequence conversion, equality, decimal parsing and formatting,
//! hexadecimal color formatting, and a deterministic 64-bit string hash.

use vstd::prelude::*;

verus! {

/// Whether two string slices hold the same characters.
pub fn str_eq(a: &str, b: &str) -> (r: bool)
    ensures
        r == (a@ == b@),
{
    let sa = a.to_owned();
    let sb = b.to_owned();
    sa == sb
}

/// The characters of a string slice, in order.
pub fn chars_of(s: &str) -> (r: Vec<char>)
    ensures
        r@ == s@,
{
    let n = s.unicode_len();
    let mut v: Vec<char> = Vec::new();
    let mut i: usize = 0;
    while i < n
        invariant
            i <= n,
            n == s@.len(),
            v@ == s@.subrange(0, i as int),
        decreases n - i,
    {
        let c = s.get_char(i);
        v.push(c);
        proof {
            assert(v@ =~= s@.subrange(0, i + 1));
        }
        i = i + 1;
    }
    proof {
        assert(v@ =~= s@);
    }
    v
}

/// Builds the string whose characters are exactly those of `v`.
/// Relies on `String`'s `FromIterator<char>`: collecting characters yields
/// the string of those characters in order.
#[verifier::external_body]
pub fn string_from_chars(v: &Vec<char>) -> (r: String)
    ensures
        r@ == v@,
{
    v.iter().collect()
}

/// Whether `c` is a decimal digit.
pub open spec fn is_digit(c: char) -> bool {
    '0' <= c && c <= '9'
}

/// The value of a decimal digit.
pub open spec fn digit_val(c: char) -> int {
    c as int - '0' as int
}

/// Whether every character of `s` is a decimal digit.
pub open spec fn all_digits(s: Seq<char>) -> bool {
    forall|i: int| 0 <= i < s.len() ==> is_digit(#[trigger] s[i])
}

/// The number denoted by a sequence of decimal digits.
pub open spec fn digits_val(s: Seq<char>) -> int
    decreases s.len(),
{
    if s.len() == 0 {
        0
    } else {
        digits_val(s.drop_last()) * 10 + digit_val(s.last())
    }
}

/// A digit string denotes a nonnegative number.
pub proof fn lemma_digits_val_nonneg(s: Seq<char>)
    requires
        all_digits(s),
    ensures
        digits_val(s) >= 0,
    decreases s.len(),
{
    if s.len() > 0 {
        assert(all_digits(s.drop_last()));
        lemma_digits_val_nonneg(s.drop_last());
    }
}

/// What parsing an integer literal means: an optional sign followed by one
/// or more decimal digits, whose value fits in `i32`.
pub open spec fn parse_i32_spec(s: Seq<char>) -> Option<i32> {
    if s.len() == 0 {
        None
    } else if s[0] == '-' || s[0] == '+' {
        let d = s.subrange(1, s.len() as int);
        let v = if s[0] == '-' {
            -digits_val(d)
        } else {
            digits_val(d)
        };
        if d.len() > 0 && all_digits(d) && i32::MIN <= v <= i32::MAX {
            Some(v as i32)
        } else {
            None
        }
    } else {
        if all_digits(s) && digits_val(s) <= i32::MAX {
            Some(digits_val(s) as i32)
        } else {
            None
        }
    }
}

/// Parse a sequence of characters as an `i32`, accepting exactly what
/// `parse_i32_spec` describes.
pub fn parse_i32(v: &Vec<char>) -> (r: Option<i32>)
    ensures
        r == parse_i32_spec(v@),
{
    let n = v.len();
    if n == 0 {
        return None;
    }
    let c0 = v[0];
    let neg = c0 == '-';
    let signed = neg || c0 == '+';
    let start: usize = if signed {
        1
    } else {
        0
    };
    if start >= n {
        return None;
    }
    let ghost d = v@.subrange(start as int, n as int);
    proof {
        if !signed {
            assert(d =~= v@);
        }
    }
    let mut acc: i64 = 0;
    let mut i: usize = start;
    while i < n
        invariant
            start <= i <= n,
            n == v@.len(),
            start < n,
            signed ==> start == 1,
            !signed ==> start == 0 && d == v@,
            neg ==> v@[0] == '-',
            signed && !neg ==> v@[0] == '+',
            !signed ==> !(v@[0] == '-' || v@[0] == '+'),
            d == v@.subrange(start as int, n as int),
            all_digits(d.subrange(0, i - start)),
            acc == digits_val(d.subrange(0, i - start)),
            0 <= acc <= 0x8000_0000i64,
        decreases n - i,
    {
        let c = v[i];
        proof {
            assert(d[i - start] == c);
        }
        if !(c >= '0' && c <= '9') {
            proof {
                assert(!is_digit(d[i - start]));
                assert(!all_digits(d));
            }
            return None;
        }
        let dv: i64 = (c as u32 as i64) - 48;
        proof {
            let pre = d.subrange(0, i - start);
            let post = d.subrange(0, i + 1 - start);
            assert(post.drop_last() =~= pre);
            assert(post.last() == c);
            lemma_digits_val_nonneg(pre);
            assert(all_digits(post));
        }
        let next: i64 = acc * 10 + dv;
        if next > 0x8000_0000i64 {
            proof {
                if all_digits(d) {
                    lemma_prefix_bounds(d, i + 1 - start);
                    lemma_digits_val_nonneg(d);
                }
            }
            return None;
        }
        acc = next;
        i = i + 1;
    }
    proof {
        assert(d.subrange(0, n - start) =~= d);
    }
    if neg {
        Some((-acc) as i32)
    } else {
        if acc > 0x7fff_ffffi64 {
            return None;
        }
        Some(acc as i32)
    }
}

/// A digit string's value is at least the value of any of its prefixes.
proof fn lemma_prefix_bounds(d: Seq<char>, k: int)
    requires
        0 <= k <= d.len(),
        all_digits(d.subrange(0, k)),
        all_digits(d),
    ensures
        digits_val(d) >= digits_val(d.subrange(0, k)),
    decreases d.len() - k,
{
    if k < d.len() {
        let p = d.subrange(0, k);
        let q = d.subrange(0, k + 1);
        assert(q.drop_last() =~= p);
        lemma_digits_val_nonneg(p);
        assert(is_digit(q.last()));
        assert(digits_val(q) == digits_val(p) * 10 + digit_val(d[k]));
        assert(digits_val(q) >= digits_val(p));
        assert(all_digits(q));
        lemma_prefix_bounds(d, k + 1);
        assert(d.subrange(0, d.len() as int) =~= d);
    } else {
        assert(d.subrange(0, d.len() as int) =~= d);
    }
}

/// The decimal digit character for a value below ten.
pub open spec fn digit_char(v: int) -> char {
    seq!['0', '1', '2', '3', '4', '5', '6', '7', '8', '9'][v]
}

/// The decimal rendering of a nonnegative number.
pub open spec fn nat_dec_spec(n: int) -> Seq<char>
    decreases n,
{
    if n < 10 {
        seq![digit_char(n)]
    } else {
        nat_dec_spec(n / 10).push(digit_char(n % 10))
    }
}

/// The decimal rendering of an `i32`: a minus sign for negative values,
/// then the digits of the magnitude.
pub open spec fn i32_dec_spec(n: int) -> Seq<char> {
    if n < 0 {
        seq!['-'] + nat_dec_spec(-n)
    } else {
        nat_dec_spec(n)
    }
}

fn digit_char_exec(v: u32) -> (c: char)
    requires
        v < 10,
    ensures
        c == digit_char(v as int),
{
    let c = match v {
        0 => '0',
        1 => '1',
        2 => '2',
        3 => '3',
        4 => '4',
        5 => '5',
        6 => '6',
        7 => '7',
        8 => '8',
        _ => '9',
    };
    c
}

fn push_nat_dec(n: u64, out: &mut Vec<char>)
    ensures
        final(out)@ == old(out)@ + nat_dec_spec(n as int),
    decreases n,
{
    if n < 10 {
        let c = digit_char_exec((n % 10) as u32);
        out.push(c);
        proof {
            assert(out@ =~= old(out)@ + nat_dec_spec(n as int));
        }
    } else {
        push_nat_dec(n / 10, out);
        let c = digit_char_exec((n % 10) as u32);
        out.push(c);
        proof {
            assert(out@ =~= old(out)@ + nat_dec_spec(n as int));
        }
    }
}

/// Render a machine-sized count in decimal.
pub fn usize_to_string(n: usize) -> (r: String)
    ensures
        r@ == nat_dec_spec(n as int),
{
    let mut out: Vec<char> = Vec::new();
    push_nat_dec(n as u64, &mut out);
    proof {
        assert(out@ =~= nat_dec_spec(n as int));
    }
    string_from_chars(&out)
}

/// Render an `i32` in decimal.
pub fn i32_to_string(n: i32) -> (r: String)
    ensures
        r@ == i32_dec_spec(n as int),
{
    let mut out: Vec<char> = Vec::new();
    if n < 0 {
        out.push('-');
        let mag: u64 = (-(n as i64)) as u64;
        push_nat_dec(mag, &mut out);
        proof {
            assert(out@ =~= i32_dec_spec(n as int));
        }
    } else {
        push_nat_dec(n as u64, &mut out);
        proof {
            assert(out@ =~= i32_dec_spec(n as int));
        }
    }
    string_from_chars(&out)
}

/// The lowercase hexadecimal digit character for a value below sixteen.
pub open spec fn hex_digit_char(v: int) -> char {
    seq![
        '0',
        '1',
        '2',
        '3',
        '4',
        '5',
        '6',
        '7',
        '8',
        '9',
        'a',
        'b',
        'c',
        'd',
        'e',
        'f',
    ][v]
}

/// Six lowercase hexadecimal digits of the low 24 bits of `h`,
/// most significant first.
pub open spec fn hex6_spec(h: u32) -> Seq<char> {
    seq![
        hex_digit_char(((h >> 20u32) & 0xfu32) as int),
        hex_digit_char(((h >> 16u32) & 0xfu32) as int),
        hex_digit_char(((h >> 12u32) & 0xfu32) as int),
        hex_digit_char(((h >> 8u32) & 0xfu32) as int),
        hex_digit_char(((h >> 4u32) & 0xfu32) as int),
        hex_digit_char((h & 0xfu32) as int),
    ]
}

fn hex_digit_char_exec(v: u32) -> (c: char)
    requires
        v < 16,
    ensures
        c == hex_digit_char(v as int),
{
    let c = match v {
        0 => '0',
        1 => '1',
        2 => '2',
        3 => '3',
        4 => '4',
        5 => '5',
        6 => '6',
        7 => '7',
        8 => '8',
        9 => '9',
        10 => 'a',
        11 => 'b',
        12 => 'c',
        13 => 'd',
        14 => 'e',
        _ => 'f',
    };
    c
}

/// Render the low 24 bits of `h` as six lowercase hexadecimal digits.
pub fn hex6(h: u32) -> (r: Vec<char>)
    ensures
        r@ == hex6_spec(h),
{
    let mut out: Vec<char> = Vec::new();
    proof {
        assert((h >> 20u32) & 0xfu32 < 16 && (h >> 16u32) & 0xfu32 < 16 && (h >> 12u32) & 0xfu32
            < 16 && (h >> 8u32) & 0xfu32 < 16 && (h >> 4u32) & 0xfu32 < 16 && h & 0xfu32 < 16)
            by (bit_vector);
    }
    let d0 = hex_digit_char_exec((h >> 20u32) & 0xfu32);
    let d1 = hex_digit_char_exec((h >> 16u32) & 0xfu32);
    let d2 = hex_digit_char_exec((h >> 12u32) & 0xfu32);
    let d3 = hex_digit_char_exec((h >> 8u32) & 0xfu32);
    let d4 = hex_digit_char_exec((h >> 4u32) & 0xfu32);
    let d5 = hex_digit_char_exec(h & 0xfu32);
    out.push(d0);
    out.push(d1);
    out.push(d2);
    out.push(d3);
    out.push(d4);
    out.push(d5);
    proof {
        assert(out@ =~= hex6_spec(h));
    }
    out
}

/// One step of the 64-bit FNV-1a hash: fold a character into the state.
pub open spec fn fnv_step(h: u64, c: char) -> u64 {
    vstd::wrapping::u64_specs::wrapping_mul(h ^ (c as u64), 0x100000001b3u64)
}

/// The 64-bit FNV-1a hash of a character sequence.
pub open spec fn fnv1a64_spec(s: Seq<char>) -> u64
    decreases s.len(),
{
    if s.len() == 0 {
        0xcbf29ce484222325u64
    } else {
        fnv_step(fnv1a64_spec(s.drop_last()), s.last())
    }
}

/// The 64-bit FNV-1a hash of the characters of a string: a deterministic
/// function of the text alone, the same in every run.
pub fn fnv1a64(v: &Vec<char>) -> (r: u64)
    ensures
        r == fnv1a64_spec(v@),
{
    let mut h: u64 = 0xcbf29ce484222325u64;
    let mut i: usize = 0;
    while i < v.len()
        invariant
            i <= v@.len(),
            h == fnv1a64_spec(v@.subrange(0, i as int)),
        decreases v@.len() - i,
    {
        let c = v[i];
        h = (h ^ (c as u64)).wrapping_mul(0x100000001b3u64);
        proof {
            let pre = v@.subrange(0, i as int);
            let post = v@.subrange(0, i + 1);
            assert(post.drop_last() =~= pre);
            assert(post.last() == c);
        }
        i = i + 1;
    }
    proof {
        assert(v@.subrange(0, v@.len() as int) =~= v@);
    }
    h
}

} // verus!
