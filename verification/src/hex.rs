use vstd::prelude::*;

use crate::card_effects::parse::push_char;

verus! {

pub open spec fn is_hex_digit(c: char) -> bool {
    (48 <= c as u32 <= 57) || (97 <= c as u32 <= 102) || (65 <= c as u32 <= 70)
}

pub open spec fn hex_digit_value(c: char) -> nat {
    if 48 <= c as u32 <= 57 {
        (c as u32 - 48) as nat
    } else if 97 <= c as u32 <= 102 {
        (c as u32 - 87) as nat
    } else {
        (c as u32 - 55) as nat
    }
}

pub open spec fn hex_value(s: Seq<char>) -> nat
    decreases s.len(),
{
    if s.len() == 0 {
        0
    } else {
        hex_value(s.drop_last()) * 16 + hex_digit_value(s.last())
    }
}

pub open spec fn all_hex(s: Seq<char>) -> bool {
    forall|i: int| 0 <= i < s.len() ==> is_hex_digit(#[trigger] s[i])
}

/// The digits of a number text: after an optional `+`.
pub open spec fn hex_digits(s: Seq<char>) -> Seq<char> {
    if s.len() > 0 && s[0] == '+' {
        s.drop_first()
    } else {
        s
    }
}

/// What `u16::from_str_radix(s, 16)` gives: an optional `+`, then at least one hex digit of
/// either case, with a value that fits.
pub open spec fn spec_parse_hex(s: Seq<char>) -> Option<u16> {
    let d = hex_digits(s);
    if d.len() > 0 && all_hex(d) && hex_value(d) <= u16::MAX {
        Some(hex_value(d) as u16)
    } else {
        None
    }
}

/// The text without every leading copy of a prefix.
pub open spec fn trim_start_prefix(s: Seq<char>, p: Seq<char>) -> Seq<char>
    decreases s.len(),
{
    if p.len() > 0 && s.len() >= p.len() && s.take(p.len() as int) == p {
        trim_start_prefix(s.skip(p.len() as int), p)
    } else {
        s
    }
}

pub open spec fn hex_char(d: nat) -> char {
    if d < 10 {
        (48 + d) as char
    } else {
        (87 + d) as char
    }
}

/// The four lower-case hex digits of a number, as `{:04x}` writes a `u16`.
pub open spec fn hex4(n: u16) -> Seq<char> {
    seq![
        hex_char((n / 4096) as nat),
        hex_char(((n / 256) % 16) as nat),
        hex_char(((n / 16) % 16) as nat),
        hex_char((n % 16) as nat),
    ]
}

fn char_at(s: &str, i: usize) -> (c: char)
    requires
        i < s@.len(),
    ensures
        c == s@[i as int],
{
    s.get_char(i)
}

/// Reads a hex number, from the character `start` on.
pub fn parse_hex_from(s: &str, start: usize) -> (res: Option<u16>)
    requires
        start <= s@.len(),
    ensures
        res == spec_parse_hex(s@.skip(start as int)),
{
    let n = s.unicode_len();
    let ghost t = s@.skip(start as int);
    let first: usize = if start < n && char_at(s, start) == '+' {
        start + 1
    } else {
        start
    };
    let ghost d = hex_digits(t);
    assert(d =~= s@.subrange(first as int, n as int));
    if first >= n {
        return None;
    }
    let mut value: u32 = 0;
    let mut i: usize = first;
    while i < n
        invariant
            n == s@.len(),
            first <= i <= n,
            d == s@.subrange(first as int, n as int),
            d == hex_digits(s@.skip(start as int)),
            forall|j: int| first <= j < i ==> is_hex_digit(#[trigger] s@[j]),
            value == hex_value(s@.subrange(first as int, i as int)),
            value <= 0xffff,
        decreases n - i,
    {
        let c = char_at(s, i);
        let cv = c as u32;
        let dv: u32 = if 48 <= cv && cv <= 57 {
            cv - 48
        } else if 97 <= cv && cv <= 102 {
            cv - 87
        } else if 65 <= cv && cv <= 70 {
            cv - 55
        } else {
            assert(d[i - first] == c);
            assert(!is_hex_digit(d[i - first]));
            return None;
        };
        let ghost prev = s@.subrange(first as int, i as int);
        assert(s@.subrange(first as int, i + 1).drop_last() =~= prev);
        assert(hex_value(s@.subrange(first as int, i + 1)) == value * 16 + dv);
        if value > 4095 || value * 16 + dv > 0xffff {
            // the value only grows from here
            proof {
                lemma_hex_value_grows(s@.subrange(first as int, n as int), (i + 1 - first) as int);
                assert(s@.subrange(first as int, n as int).take((i + 1 - first) as int) =~= s@.subrange(
                    first as int,
                    i + 1,
                ));
            }
            return None;
        }
        value = value * 16 + dv;
        i = i + 1;
    }
    assert(all_hex(d)) by {
        assert forall|j: int| 0 <= j < d.len() implies is_hex_digit(#[trigger] d[j]) by {
            assert(d[j] == s@[first + j]);
        }
    }
    Some(value as u16)
}

/// A longer text of hex digits has at least the value of its beginning.
proof fn lemma_hex_value_grows(s: Seq<char>, k: int)
    requires
        0 <= k <= s.len(),
    ensures
        !all_hex(s) || hex_value(s) >= hex_value(s.take(k)),
    decreases s.len() - k,
{
    if k < s.len() && all_hex(s) {
        lemma_hex_value_grows(s, k + 1);
        assert(s.take(k + 1).drop_last() =~= s.take(k));
        assert(s.take(k + 1).last() == s[k]);
        assert(is_hex_digit(s[k]));
    } else if k == s.len() {
        assert(s.take(k) =~= s);
    }
}

/// The position after every leading copy of a prefix.
pub fn skip_prefixes(s: &str, p: &str) -> (res: usize)
    ensures
        res <= s@.len(),
        s@.skip(res as int) == trim_start_prefix(s@, p@),
{
    let n = s.unicode_len();
    let m = p.unicode_len();
    let mut i: usize = 0;
    assert(s@.skip(0) =~= s@);
    if m == 0 {
        return 0;
    }
    while m <= n - i
        invariant
            n == s@.len(),
            m == p@.len(),
            m > 0,
            i <= n,
            trim_start_prefix(s@.skip(i as int), p@) == trim_start_prefix(s@, p@),
        decreases n - i,
    {
        let mut j: usize = 0;
        while j < m
            invariant
                n == s@.len(),
                m == p@.len(),
                i + m <= n,
                0 <= j <= m,
                trim_start_prefix(s@.skip(i as int), p@) == trim_start_prefix(s@, p@),
                forall|k: int| 0 <= k < j ==> s@[i + k] == p@[k],
            decreases m - j,
        {
            if char_at(s, i + j) != char_at(p, j) {
                proof {
                    assert(s@.skip(i as int).take(m as int)[j as int] != p@[j as int]);
                }
                return i;
            }
            j = j + 1;
        }
        proof {
            assert(s@.skip(i as int).take(m as int) =~= p@);
            assert(s@.skip(i as int).skip(m as int) =~= s@.skip(i + m));
        }
        i = i + m;
    }
    i
}

/// Writes the four lower-case hex digits of a number.
pub fn push_hex4(out: &mut String, n: u16)
    ensures
        final(out)@ == old(out)@ + hex4(n),
{
    let ghost o = out@;
    push_char(out, hex_digit_char(n / 4096));
    push_char(out, hex_digit_char((n / 256) % 16));
    push_char(out, hex_digit_char((n / 16) % 16));
    push_char(out, hex_digit_char(n % 16));
    assert(out@ =~= o + hex4(n));
}

fn hex_digit_char(d: u16) -> (c: char)
    requires
        d < 16,
    ensures
        c == hex_char(d as nat),
{
    if d < 10 {
        (48u8 + d as u8) as char
    } else {
        (87u8 + d as u8) as char
    }
}

/// Reading the four hex digits of a number gives the number back.
pub proof fn lemma_hex4_round_trip(n: u16)
    ensures
        spec_parse_hex(hex4(n)) == Some(n),
        hex4(n).len() == 4,
{
    let s = hex4(n);
    let a = (n / 4096) as nat;
    let b = ((n / 256) % 16) as nat;
    let c = ((n / 16) % 16) as nat;
    let d = (n % 16) as nat;
    assert(hex_digit_value(hex_char(a)) == a);
    assert(hex_digit_value(hex_char(b)) == b);
    assert(hex_digit_value(hex_char(c)) == c);
    assert(hex_digit_value(hex_char(d)) == d);
    assert(s.drop_last().drop_last().drop_last().drop_last() =~= Seq::<char>::empty());
    assert(s.drop_last().drop_last().drop_last() =~= seq![hex_char(a)]);
    assert(s.drop_last().drop_last() =~= seq![hex_char(a), hex_char(b)]);
    assert(s.drop_last() =~= seq![hex_char(a), hex_char(b), hex_char(c)]);
    reveal_with_fuel(hex_value, 5);
    assert(hex_value(s) == ((a * 16 + b) * 16 + c) * 16 + d);
    assert(((a * 16 + b) * 16 + c) * 16 + d == n) by (nonlinear_arith)
        requires
            a == n / 4096,
            b == (n / 256) % 16,
            c == (n / 16) % 16,
            d == n % 16,
            n <= 0xffff,
    ;
    assert(s[0] != '+');
    assert(hex_digits(s) == s);
    assert(all_hex(s));
}

} // verus!
