//! The text form in which the OpenXR instance and session handles are kept across reinjection: a
//! handle is stored as `0x`-prefixed lowercase hexadecimal, and read back only when it parses and
//! is not zero. The environment-variable I/O lives with the caller.
use crate::text::{char_is_whitespace, chars_of, is_white_space, string_from_chars};
use vstd::prelude::*;

verus! {

/// The lowercase hexadecimal digit for `d` (below 16).
pub open spec fn hex_digit_char(d: nat) -> char {
    if d < 10 {
        (48 + d) as char
    } else {
        (87 + d) as char
    }
}

/// The lowercase hexadecimal digits of `n`, without leading zeros.
pub open spec fn hex_lower(n: nat) -> Seq<char>
    decreases n,
{
    if n < 16 {
        seq![hex_digit_char(n)]
    } else {
        hex_lower(n / 16).push(hex_digit_char(n % 16))
    }
}

/// A handle as stored: `0x` and its lowercase hexadecimal digits (the `{:#x}` form).
pub open spec fn handle_text_of(raw: u64) -> Seq<char> {
    "0x"@ + hex_lower(raw as nat)
}

/// The value of a hexadecimal digit character, if it is one (either case).
pub open spec fn hex_char_value(c: char) -> Option<nat> {
    if '0' <= c && c <= '9' {
        Some(((c as int) - 48) as nat)
    } else if 'a' <= c && c <= 'f' {
        Some(((c as int) - 87) as nat)
    } else if 'A' <= c && c <= 'F' {
        Some(((c as int) - 55) as nat)
    } else {
        None
    }
}

/// The value of a string of hexadecimal digits, if every character is one.
pub open spec fn hex_text_value(d: Seq<char>) -> Option<nat>
    decreases d.len(),
{
    if d.len() == 0 {
        Some(0)
    } else {
        match (hex_text_value(d.drop_last()), hex_char_value(d.last())) {
            (Some(a), Some(b)) => Some(a * 16 + b),
            _ => None,
        }
    }
}

/// A text with whitespace removed from both ends.
pub open spec fn trim_text(s: Seq<char>) -> Seq<char>
    decreases s.len(),
{
    if s.len() > 0 && is_white_space(s[0]) {
        trim_text(s.drop_first())
    } else if s.len() > 0 && is_white_space(s.last()) {
        trim_text(s.drop_last())
    } else {
        s
    }
}

/// A text with every leading `0x` removed.
pub open spec fn strip_hex_prefixes(s: Seq<char>) -> Seq<char>
    decreases s.len(),
{
    if s.len() >= 2 && s[0] == '0' && s[1] == 'x' {
        strip_hex_prefixes(s.skip(2))
    } else {
        s
    }
}

/// A stored handle read back: trimmed, every leading `0x` removed, then read as a `u64` the way
/// `u64::from_str_radix(_, 16)` reads it (an optional `+`, then one or more hexadecimal digits
/// whose value fits); zero counts as no handle.
pub open spec fn handle_of_text(text: Seq<char>) -> Option<u64> {
    let t = strip_hex_prefixes(trim_text(text));
    let d = if t.len() > 0 && t[0] == '+' {
        t.drop_first()
    } else {
        t
    };
    if d.len() == 0 {
        None
    } else {
        match hex_text_value(d) {
            Some(v) => if v == 0 || v > u64::MAX {
                None
            } else {
                Some(v as u64)
            },
            None => None,
        }
    }
}

/// Store a handle (see `handle_text_of`).
pub fn handle_text(raw: u64) -> (s: String)
    ensures
        s@ == handle_text_of(raw),
{
    let mut digits: Vec<char> = Vec::new();
    let mut x = raw;
    loop
        invariant_except_break
            hex_lower(raw as nat) == hex_lower(x as nat) + digits@,
        ensures
            hex_lower(raw as nat) == digits@,
        decreases x,
    {
        let d = (x % 16) as u8;
        let c: char = if d < 10 {
            (48u8 + d) as char
        } else {
            (87u8 + d) as char
        };
        proof {
            assert(c == hex_digit_char((x % 16) as nat));
        }
        if x < 16 {
            proof {
                assert(hex_lower(x as nat) =~= seq![c]);
            }
            digits.insert(0, c);
            proof {
                assert(digits@ =~= hex_lower(raw as nat));
            }
            break;
        }
        proof {
            assert(hex_lower(x as nat) == hex_lower((x / 16) as nat).push(c));
            assert(hex_lower((x / 16) as nat).push(c) + digits@ =~= hex_lower((x / 16) as nat) + (
            seq![c] + digits@));
        }
        digits.insert(0, c);
        x = x / 16;
    }
    let mut out: Vec<char> = Vec::new();
    out.push('0');
    out.push('x');
    let ghost prefix = out@;
    let mut i: usize = 0;
    while i < digits.len()
        invariant
            i <= digits@.len(),
            out@ == prefix + digits@.take(i as int),
            prefix == seq!['0', 'x'],
        decreases digits@.len() - i,
    {
        out.push(digits[i]);
        proof {
            assert(digits@.take(i + 1) =~= digits@.take(i as int).push(digits@[i as int]));
            assert(out@ =~= prefix + digits@.take(i + 1));
        }
        i = i + 1;
    }
    proof {
        reveal_strlit("0x");
        assert(digits@.take(digits@.len() as int) =~= digits@);
        assert(out@ =~= handle_text_of(raw));
    }
    string_from_chars(&out)
}

/// The bounds of `s` with whitespace removed from both ends.
fn trim_bounds(s: &Vec<char>) -> (r: (usize, usize))
    ensures
        r.0 <= r.1 <= s@.len(),
        s@.subrange(r.0 as int, r.1 as int) == trim_text(s@),
{
    let mut a: usize = 0;
    let mut b: usize = s.len();
    proof {
        assert(s@.subrange(0, s@.len() as int) =~= s@);
    }
    while a < b && (char_is_whitespace(s[a]) || char_is_whitespace(s[b - 1]))
        invariant
            a <= b <= s@.len(),
            trim_text(s@) == trim_text(s@.subrange(a as int, b as int)),
        decreases b - a,
    {
        let ghost cur = s@.subrange(a as int, b as int);
        if char_is_whitespace(s[a]) {
            proof {
                assert(cur.drop_first() =~= s@.subrange(a + 1, b as int));
            }
            a = a + 1;
        } else {
            proof {
                assert(cur.drop_last() =~= s@.subrange(a as int, b - 1));
            }
            b = b - 1;
        }
    }
    proof {
        let cur = s@.subrange(a as int, b as int);
        if cur.len() > 0 {
            assert(cur[0] == s@[a as int]);
            assert(cur.last() == s@[b - 1]);
        }
    }
    (a, b)
}

/// Where the text `s[a..b]` starts once every leading `0x` is removed.
fn strip_hex_prefix_start(s: &Vec<char>, a: usize, b: usize) -> (r: usize)
    requires
        a <= b <= s@.len(),
    ensures
        a <= r <= b,
        s@.subrange(r as int, b as int) == strip_hex_prefixes(s@.subrange(a as int, b as int)),
{
    let mut i = a;
    while b - i >= 2 && s[i] == '0' && s[i + 1] == 'x'
        invariant
            a <= i <= b <= s@.len(),
            strip_hex_prefixes(s@.subrange(a as int, b as int)) == strip_hex_prefixes(
                s@.subrange(i as int, b as int),
            ),
        decreases b - i,
    {
        proof {
            assert(s@.subrange(i as int, b as int).skip(2) =~= s@.subrange(i + 2, b as int));
        }
        i = i + 2;
    }
    proof {
        let t = s@.subrange(i as int, b as int);
        if t.len() >= 2 {
            assert(t[0] == s@[i as int] && t[1] == s@[i + 1]);
        }
    }
    i
}

/// The value of the hexadecimal digits `s[a..b]`, where every one is a digit and the value fits
/// in a `u64`.
fn hex_digits_value(s: &Vec<char>, a: usize, b: usize) -> (r: Option<u64>)
    requires
        a <= b <= s@.len(),
    ensures
        r == (match hex_text_value(s@.subrange(a as int, b as int)) {
            Some(v) => if v <= u64::MAX {
                Some(v as u64)
            } else {
                None
            },
            None => None,
        }),
{
    let ghost d = s@.subrange(a as int, b as int);
    let mut value: u64 = 0;
    let mut i = a;
    proof {
        assert(s@.subrange(a as int, a as int) =~= Seq::<char>::empty());
    }
    while i < b
        invariant
            a <= i <= b <= s@.len(),
            d == s@.subrange(a as int, b as int),
            hex_text_value(s@.subrange(a as int, i as int)) == Some(value as nat),
        decreases b - i,
    {
        let c = s[i];
        let ghost p = s@.subrange(a as int, i + 1);
        proof {
            assert(p.drop_last() =~= s@.subrange(a as int, i as int));
            assert(p.last() == c);
            assert(d.subrange(0, i + 1 - a) =~= p);
        }
        let dv: u64 = if '0' <= c && c <= '9' {
            c as u64 - 48
        } else if 'a' <= c && c <= 'f' {
            c as u64 - 87
        } else if 'A' <= c && c <= 'F' {
            c as u64 - 55
        } else {
            proof {
                lemma_hex_text_prefix_none(p, d);
            }
            return None;
        };
        if value > (u64::MAX - dv) / 16 {
            proof {
                assert(value * 16 + dv > u64::MAX) by (nonlinear_arith)
                    requires
                        value > (u64::MAX - dv) / 16,
                        dv <= 15,
                ;
                lemma_hex_text_grows(p, d);
            }
            return None;
        }
        value = value * 16 + dv;
        i = i + 1;
    }
    Some(value)
}

/// Read a stored handle back (see `handle_of_text`).
pub fn parse_handle(text: &str) -> (r: Option<u64>)
    ensures
        r == handle_of_text(text@),
{
    let s = chars_of(text);
    let (a0, b) = trim_bounds(&s);
    let a1 = strip_hex_prefix_start(&s, a0, b);
    let ghost t = s@.subrange(a1 as int, b as int);
    let mut a = a1;
    if a < b && s[a] == '+' {
        a = a + 1;
    }
    proof {
        let d = s@.subrange(a as int, b as int);
        if t.len() > 0 && t[0] == '+' {
            assert(t[0] == s@[a1 as int]);
            assert(t.drop_first() =~= d);
        } else {
            if t.len() > 0 {
                assert(t[0] == s@[a1 as int]);
            }
            assert(t =~= d);
        }
    }
    if a == b {
        return None;
    }
    match hex_digits_value(&s, a, b) {
        Some(v) => if v == 0 {
            None
        } else {
            Some(v)
        },
        None => None,
    }
}

proof fn lemma_hex_text_prefix_none(p: Seq<char>, s: Seq<char>)
    requires
        p.len() <= s.len(),
        hex_text_value(p) is None,
        s.subrange(0, p.len() as int) == p,
    ensures
        hex_text_value(s) is None,
    decreases s.len(),
{
    if p.len() < s.len() {
        assert(s.drop_last().subrange(0, p.len() as int) =~= p);
        lemma_hex_text_prefix_none(p, s.drop_last());
    } else {
        assert(p =~= s);
    }
}

proof fn lemma_hex_text_grows(p: Seq<char>, s: Seq<char>)
    requires
        p.len() <= s.len(),
        s.subrange(0, p.len() as int) == p,
        hex_text_value(p) is Some,
    ensures
        hex_text_value(s) matches Some(v) ==> v >= hex_text_value(p).unwrap(),
    decreases s.len(),
{
    if p.len() < s.len() {
        assert(s.drop_last().subrange(0, p.len() as int) =~= p);
        lemma_hex_text_grows(p, s.drop_last());
    } else {
        assert(p =~= s);
    }
}

/// The digits of `hex_lower(n)` read back as `n`, and none of them is whitespace, a `+` or an `x`.
proof fn lemma_hex_lower(n: nat)
    ensures
        hex_text_value(hex_lower(n)) == Some(n),
        hex_lower(n).len() > 0,
        forall|i: int|
            0 <= i < hex_lower(n).len() ==> !is_white_space(#[trigger] hex_lower(n)[i])
                && hex_lower(n)[i] != '+' && hex_lower(n)[i] != 'x',
    decreases n,
{
    if n < 16 {
        let c = hex_digit_char(n);
        let h = hex_lower(n);
        assert(h =~= seq![c]);
        assert(h.drop_last() =~= Seq::<char>::empty());
        assert(hex_text_value(Seq::<char>::empty()) == Some(0nat));
        assert(h.last() == c);
        lemma_digit_char(n);
        assert(hex_text_value(h) == Some(n));
    } else {
        lemma_hex_lower(n / 16);
        lemma_digit_char(n % 16);
        let h = hex_lower(n);
        assert(h.drop_last() =~= hex_lower(n / 16));
        assert forall|i: int| 0 <= i < h.len() implies !is_white_space(#[trigger] h[i]) && h[i] != '+'
            && h[i] != 'x' by {
            if i < h.len() - 1 {
                assert(h[i] == hex_lower(n / 16)[i]);
            }
        }
    }
}

proof fn lemma_digit_char(d: nat)
    requires
        d < 16,
    ensures
        hex_char_value(hex_digit_char(d)) == Some(d),
        !is_white_space(hex_digit_char(d)),
        hex_digit_char(d) != '+',
        hex_digit_char(d) != 'x',
{
    let c = hex_digit_char(d);
    if d < 10 {
        assert(c as int == 48 + d);
    } else {
        assert(c as int == 87 + d);
    }
    assert((c as u32) as int == c as int);
}

/// A stored handle reads back as itself, and a zero handle reads back as none.
pub proof fn law_handle_round_trip(raw: u64)
    ensures
        handle_of_text(handle_text_of(raw)) == (if raw == 0 {
            None
        } else {
            Some(raw)
        }),
{
    reveal_strlit("0x");
    lemma_hex_lower(raw as nat);
    let h = hex_lower(raw as nat);
    let s = handle_text_of(raw);
    assert(s[0] == '0' && s[1] == 'x');
    assert(!is_white_space('0')) by {
        assert(('0' as u32) as int == 48);
    }
    assert(s.len() > 0 && !is_white_space(s[0]));
    assert(!is_white_space(s.last())) by {
        assert(s.last() == h[h.len() - 1]);
    }
    assert(trim_text(s) == s);
    assert(s.skip(2) =~= h);
    assert(strip_hex_prefixes(s) == strip_hex_prefixes(h));
    if h.len() >= 2 {
        assert(h[1] != 'x');
    }
    assert(strip_hex_prefixes(h) == h);
    assert(!(h.len() > 0 && h[0] == '+'));
}

} // verus!
