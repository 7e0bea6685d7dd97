//! Numbers written in decimal, and read back.
use vstd::prelude::*;
use crate::text::{chars_of, digits_value, is_digit, push_char, unsigned_body};

verus! {

/// The digit of a number below 10.
pub open spec fn digit_char(d: int) -> char {
    if d == 0 {
        '0'
    } else if d == 1 {
        '1'
    } else if d == 2 {
        '2'
    } else if d == 3 {
        '3'
    } else if d == 4 {
        '4'
    } else if d == 5 {
        '5'
    } else if d == 6 {
        '6'
    } else if d == 7 {
        '7'
    } else if d == 8 {
        '8'
    } else {
        '9'
    }
}

/// A number in decimal, without leading zeros (as `format!("{}")` writes it).
pub open spec fn decimal_spec(n: nat) -> Seq<char>
    decreases n,
{
    if n < 10 {
        seq![digit_char(n as int)]
    } else {
        decimal_spec(n / 10).push(digit_char((n % 10) as int))
    }
}

fn digit_of(d: u64) -> (c: char)
    requires
        d < 10,
    ensures
        c == digit_char(d as int),
{
    if d == 0 {
        '0'
    } else if d == 1 {
        '1'
    } else if d == 2 {
        '2'
    } else if d == 3 {
        '3'
    } else if d == 4 {
        '4'
    } else if d == 5 {
        '5'
    } else if d == 6 {
        '6'
    } else if d == 7 {
        '7'
    } else if d == 8 {
        '8'
    } else {
        '9'
    }
}

/// A number in decimal.
pub fn decimal(n: u64) -> (r: String)
    ensures
        r@ == decimal_spec(n as nat),
    decreases n,
{
    if n < 10 {
        let mut s = String::new();
        push_char(&mut s, digit_of(n));
        s
    } else {
        let mut s = decimal(n / 10);
        push_char(&mut s, digit_of(n % 10));
        s
    }
}

/// What `str::parse::<u32>` gives: an optional '+' then at least one digit,
/// with a value that fits in 32 bits.
pub open spec fn parse_u32_spec(s: Seq<char>) -> Option<u32> {
    let d = unsigned_body(s);
    if d.len() > 0 && (forall|i: int| 0 <= i < d.len() ==> is_digit(#[trigger] d[i]))
        && digits_value(d) <= u32::MAX {
        Some(digits_value(d) as u32)
    } else {
        None
    }
}

proof fn lemma_digits_prefix_le(s: Seq<char>, k: int)
    requires
        0 <= k <= s.len(),
        forall|i: int| 0 <= i < s.len() ==> is_digit(#[trigger] s[i]),
    ensures
        digits_value(s.subrange(0, k)) <= digits_value(s),
    decreases s.len() - k,
{
    if k < s.len() {
        lemma_digits_prefix_le(s, k + 1);
        let t = s.subrange(0, k + 1);
        assert(t.drop_last() =~= s.subrange(0, k));
    } else {
        assert(s.subrange(0, k) =~= s);
    }
}

/// Decimal parsing of an unsigned 32-bit number, as `str::parse::<u32>`
/// does it.
pub fn parse_u32(s: &str) -> (r: Option<u32>)
    ensures
        r == parse_u32_spec(s@),
{
    let cs = chars_of(s);
    let n = cs.len();
    let start: usize = if n > 0 && cs[0] == '+' {
        1
    } else {
        0
    };
    let ghost d = unsigned_body(s@);
    assert(d =~= cs@.subrange(start as int, n as int));
    if start >= n {
        return None;
    }
    let mut v: u64 = 0;
    let mut i: usize = start;
    while i < n
        invariant
            n == cs@.len(),
            cs@ == s@,
            d == cs@.subrange(start as int, n as int),
            d == unsigned_body(s@),
            start <= i <= n,
            forall|j: int| start <= j < i ==> is_digit(#[trigger] cs@[j]),
            v == digits_value(cs@.subrange(start as int, i as int)),
            v <= u32::MAX,
        decreases n - i,
    {
        let c = cs[i];
        if !('0' <= c && c <= '9') {
            assert(!is_digit(d[i - start]));
            return None;
        }
        let ghost pre = cs@.subrange(start as int, i as int);
        let ghost nxt = cs@.subrange(start as int, i + 1);
        assert(nxt.drop_last() =~= pre);
        let dv = ((c as u32) - ('0' as u32)) as u64;
        v = v * 10 + dv;
        i = i + 1;
        if v > 4294967295 {
            proof {
                if forall|j: int| 0 <= j < d.len() ==> is_digit(#[trigger] d[j]) {
                    lemma_digits_prefix_le(d, i - start);
                    assert(d.subrange(0, i - start) =~= nxt);
                }
            }
            return None;
        }
    }
    assert(cs@.subrange(start as int, n as int) =~= d);
    Some(v as u32)
}

/// The little-endian bytes of a 32-bit word: least significant first.
pub open spec fn le_bytes(x: u32) -> Seq<u8> {
    seq![(x % 256) as u8, ((x / 256) % 256) as u8, ((x / 65536) % 256) as u8, (x / 16777216) as u8]
}

/// The bytes of a one-word message, in little-endian order.
pub fn convert(data: &[u32; 1]) -> (r: [u8; 4])
    ensures
        r@ == le_bytes(data@[0]),
{
    let x = data[0];
    let res: [u8; 4] = [(x % 256) as u8, ((x / 256) % 256) as u8, ((x / 65536) % 256) as u8, (x / 16777216) as u8];
    assert(res@ =~= le_bytes(x));
    res
}

} // verus!
