use vstd::prelude::*;
use vstd::string::StringSliceAdditionalSpecFns;

verus! {

/// The value of an ASCII digit or letter as a digit (`'0'..='9'` are 0 to 9,
/// letters of either case are 10 to 35); 36 for any other byte, which is a
/// digit in no radix.
pub open spec fn digit_value(c: u8) -> nat {
    if 48 <= c <= 57 {
        (c - 48) as nat
    } else if 97 <= c <= 122 {
        (c - 97 + 10) as nat
    } else if 65 <= c <= 90 {
        (c - 65 + 10) as nat
    } else {
        36
    }
}

/// The value of a string of digits in `radix`, most significant first, or
/// `None` if one of them is no digit in that radix.
pub open spec fn digits_value(d: Seq<u8>, radix: nat) -> Option<nat>
    decreases d.len(),
{
    if d.len() == 0 {
        Some(0)
    } else {
        match digits_value(d.drop_last(), radix) {
            Some(v) => if digit_value(d.last()) < radix {
                Some(v * radix + digit_value(d.last()))
            } else {
                None
            },
            None => None,
        }
    }
}

/// An unsigned number in `radix`: an optional leading `+`, then at least one
/// digit, with a value that fits in a `u64`.
pub open spec fn parse_unsigned(s: Seq<u8>, radix: nat) -> Option<u64> {
    let d = if s.len() > 0 && s[0] == 43 {
        s.drop_first()
    } else {
        s
    };
    if d.len() == 0 {
        None
    } else {
        match digits_value(d, radix) {
            Some(v) => if v <= u64::MAX {
                Some(v as u64)
            } else {
                None
            },
            None => None,
        }
    }
}

/// An offset as written on a command line: hexadecimal after a `0x` prefix,
/// decimal otherwise, and 0 where the text is no such number.
pub open spec fn offset_value(s: Seq<u8>) -> u64 {
    let r = if s.len() >= 2 && s[0] == 48 && s[1] == 120 {
        parse_unsigned(s.subrange(2, s.len() as int), 16)
    } else {
        parse_unsigned(s, 10)
    };
    match r {
        Some(v) => v,
        None => 0,
    }
}

/// The bytes written by the first `k` two-character groups of `s`: each group
/// that reads as a hexadecimal byte gives that byte; any other is skipped.
pub open spec fn hex_groups(s: Seq<u8>, k: nat) -> Seq<u8>
    decreases k,
{
    if k == 0 {
        seq![]
    } else {
        let prev = hex_groups(s, (k - 1) as nat);
        match parse_unsigned(s.subrange(2 * k - 2, 2 * k as int), 16) {
            Some(v) => prev.push(v as u8),
            None => prev,
        }
    }
}

/// The bytes a hex string stands for: one per complete two-character group
/// that reads as a hexadecimal byte. A trailing odd character is ignored.
pub open spec fn hex_value(s: Seq<u8>) -> Seq<u8> {
    hex_groups(s, s.len() / 2)
}

/// A digit string that has a value extends only to larger values; one with
/// no value extends to none.
proof fn lemma_digits_prefix(d: Seq<u8>, k: int, radix: nat)
    requires
        0 <= k <= d.len(),
        radix >= 1,
    ensures
        match digits_value(d.take(k), radix) {
            Some(v) => digits_value(d, radix) is None || digits_value(d, radix)->Some_0 >= v,
            None => digits_value(d, radix) is None,
        },
    decreases d.len(),
{
    if k == d.len() {
        assert(d.take(k) =~= d);
    } else {
        lemma_digits_prefix(d.drop_last(), k, radix);
        assert(d.drop_last().take(k) =~= d.take(k));
        match digits_value(d.drop_last(), radix) {
            Some(w) => {
                assert(w * radix + digit_value(d.last()) >= w) by (nonlinear_arith)
                    requires
                        radix >= 1,
                ;
            },
            None => {},
        }
    }
}

/// The digit value of one byte.
fn digit_of(c: u8) -> (r: u64)
    ensures
        r == digit_value(c),
{
    if 48 <= c && c <= 57 {
        (c - 48) as u64
    } else if 97 <= c && c <= 122 {
        (c - 97 + 10) as u64
    } else if 65 <= c && c <= 90 {
        (c - 65 + 10) as u64
    } else {
        36
    }
}

/// Parses `b[start..end]` as an unsigned number in `radix`.
fn parse_unsigned_at(b: &[u8], start: usize, end: usize, radix: u64) -> (r: Option<u64>)
    requires
        start <= end <= b@.len(),
        2 <= radix <= 36,
    ensures
        r == parse_unsigned(b@.subrange(start as int, end as int), radix as nat),
{
    let ghost s = b@.subrange(start as int, end as int);
    let mut first = start;
    if start < end && b[start] == 43 {
        first = start + 1;
    }
    let ghost d = b@.subrange(first as int, end as int);
    assert(d =~= (if s.len() > 0 && s[0] == 43 {
        s.drop_first()
    } else {
        s
    }));
    if first == end {
        return None;
    }
    let mut acc: u64 = 0;
    let mut i: usize = first;
    assert(d.take(0) =~= seq![]);
    while i < end
        invariant
            start <= first <= i <= end <= b@.len(),
            s == b@.subrange(start as int, end as int),
            2 <= radix <= 36,
            d == b@.subrange(first as int, end as int),
            d.len() > 0,
            parse_unsigned(s, radix as nat) == match digits_value(d, radix as nat) {
                Some(v) => if v <= u64::MAX {
                    Some(v as u64)
                } else {
                    None
                },
                None => None,
            },
            digits_value(d.take(i - first), radix as nat) == Some(acc as nat),
        decreases end - i,
    {
        let x = digit_of(b[i]);
        assert(d.take(i + 1 - first).drop_last() =~= d.take(i - first));
        assert(d.take(i + 1 - first).last() == b@[i as int]);
        if x >= radix {
            assert(digits_value(d.take(i + 1 - first), radix as nat) is None);
            proof {
                lemma_digits_prefix(d, i + 1 - first, radix as nat);
            }
            return None;
        }
        assert((acc as u128) * (radix as u128) + (x as u128) <= 0xFFFF_FFFF_FFFF_FFFF * 36 + 36)
            by (nonlinear_arith)
            requires
                acc <= 0xFFFF_FFFF_FFFF_FFFF,
                radix <= 36,
                x < radix,
        ;
        let next: u128 = acc as u128 * radix as u128 + x as u128;
        assert(digits_value(d.take(i + 1 - first), radix as nat) == Some(next as nat));
        if next > 0xFFFF_FFFF_FFFF_FFFF {
            proof {
                lemma_digits_prefix(d, i + 1 - first, radix as nat);
            }
            return None;
        }
        acc = next as u64;
        i = i + 1;
    }
    assert(d.take(i - first) =~= d);
    Some(acc)
}

/// Reads an offset: hexadecimal after a `0x` prefix, decimal otherwise. Text
/// that is no such number, or one too large for a `u64`, reads as 0.
pub fn parse_offset(s: &str) -> (r: u64)
    ensures
        r == offset_value(s.spec_bytes()),
{
    let b = s.as_bytes();
    let parsed = if b.len() >= 2 && b[0] == 48 && b[1] == 120 {
        parse_unsigned_at(b, 2, b.len(), 16)
    } else {
        parse_unsigned_at(b, 0, b.len(), 10)
    };
    assert(b@.subrange(0, b@.len() as int) =~= b@);
    match parsed {
        Some(v) => v,
        None => 0,
    }
}

/// The value of a group read as a hexadecimal byte fits in eight bits.
proof fn lemma_hex_group_fits(g: Seq<u8>)
    requires
        g.len() == 2,
    ensures
        parse_unsigned(g, 16) matches Some(v) ==> v <= 255,
{
    if g[0] == 43 {
        let d = g.drop_first();
        assert(d.drop_last() =~= seq![]);
        assert(digits_value(d.drop_last(), 16) == Some(0nat));
        assert(d.last() == g[1]);
    } else {
        let h = g.drop_last();
        assert(h.drop_last() =~= seq![]);
        assert(h.last() == g[0]);
        assert(g.last() == g[1]);
        if digit_value(g[0]) < 16 && digit_value(g[1]) < 16 {
            let v0 = digit_value(g[0]);
            let v1 = digit_value(g[1]);
            assert(digits_value(h.drop_last(), 16) == Some(0nat));
            assert(digits_value(h, 16) == Some(0 * 16 + v0));
            assert(digits_value(g, 16) == Some((0 * 16 + v0) * 16 + v1));
            assert((0 * 16 + v0) * 16 + v1 <= 255) by (nonlinear_arith)
                requires
                    v0 < 16,
                    v1 < 16,
            ;
        }
    }
}

/// Turns a hex string into bytes, two characters per byte. A group that is no
/// hexadecimal byte is skipped, and a trailing odd character is ignored.
pub fn hex_to_bytes(hex: &str) -> (r: Vec<u8>)
    ensures
        r@ == hex_value(hex.spec_bytes()),
{
    let b = hex.as_bytes();
    let n = b.len();
    let groups = n / 2;
    let mut out: Vec<u8> = Vec::new();
    let mut k: usize = 0;
    while k < groups
        invariant
            n == b@.len(),
            groups == n / 2,
            k <= groups,
            out@ == hex_groups(b@, k as nat),
        decreases groups - k,
    {
        let parsed = parse_unsigned_at(b, 2 * k, 2 * k + 2, 16);
        proof {
            lemma_hex_group_fits(b@.subrange(2 * k as int, 2 * k + 2));
        }
        match parsed {
            Some(v) => out.push(v as u8),
            None => {},
        }
        k = k + 1;
    }
    out
}

} // verus!
