//! Lenient reading of the text fields of a record: numbers and addresses that
//! do not read cleanly become zero instead of failing.

use vstd::prelude::*;
use vstd::utf8::encode_utf8;

verus! {

/// The bytes of a text field, as UTF-8.
pub open spec fn text_bytes(s: Seq<char>) -> Seq<u8> {
    encode_utf8(s)
}

/// `b` is one of the ASCII digits `0` to `9`.
pub open spec fn is_decimal_digit(b: u8) -> bool {
    0x30 <= b <= 0x39
}

pub open spec fn all_decimal_digits(s: Seq<u8>) -> bool {
    forall|i: int| 0 <= i < s.len() ==> is_decimal_digit(#[trigger] s[i])
}

/// The number that a run of ASCII digits spells, most significant first.
pub open spec fn decimal_value(s: Seq<u8>) -> nat
    decreases s.len(),
{
    if s.len() == 0 {
        0
    } else {
        decimal_value(s.drop_last()) * 10 + (s.last() - 0x30) as nat
    }
}

/// What a numeric field reads as: the value of a non-empty run of ASCII
/// digits when it is at most `max`, and zero for any other text.
pub open spec fn value_or_zero(s: Seq<u8>, max: nat) -> nat {
    if s.len() > 0 && all_decimal_digits(s) && decimal_value(s) <= max {
        decimal_value(s)
    } else {
        0
    }
}

/// A prefix of a run of digits never spells more than the whole run.
proof fn lemma_prefix_value_le(s: Seq<u8>, k: int)
    requires
        all_decimal_digits(s),
        0 <= k <= s.len(),
    ensures
        decimal_value(s.subrange(0, k)) <= decimal_value(s),
    decreases s.len(),
{
    if k < s.len() {
        let t = s.drop_last();
        assert(all_decimal_digits(t)) by {
            assert forall|i: int| 0 <= i < t.len() implies is_decimal_digit(#[trigger] t[i]) by {
                assert(t[i] == s[i]);
            }
        }
        lemma_prefix_value_le(t, k);
        assert(t.subrange(0, k) =~= s.subrange(0, k));
    } else {
        assert(s.subrange(0, k) =~= s);
    }
}

/// Reads a decimal number of up to 128 bits; empty text, any byte that is not
/// an ASCII digit (a sign included) and a value above `u128::MAX` read as zero.
pub fn parse_u128(s: &str) -> (r: u128)
    ensures
        r == value_or_zero(text_bytes(s@), u128::MAX as nat),
{
    let b = s.as_bytes();
    if b.len() == 0 {
        return 0;
    }
    let mut acc: u128 = 0;
    let mut i: usize = 0;
    while i < b.len()
        invariant
            0 <= i <= b@.len(),
            b@ == text_bytes(s@),
            all_decimal_digits(b@.subrange(0, i as int)),
            acc == decimal_value(b@.subrange(0, i as int)),
        decreases b@.len() - i,
    {
        let c = b[i];
        if c < 0x30 || c > 0x39 {
            assert(!is_decimal_digit(b@[i as int]));
            return 0;
        }
        let d = (c - 0x30) as u128;
        let ghost next = b@.subrange(0, i + 1);
        assert(next.drop_last() =~= b@.subrange(0, i as int));
        assert(all_decimal_digits(next)) by {
            assert forall|j: int| 0 <= j < next.len() implies is_decimal_digit(#[trigger] next[j]) by {
                if j < i {
                    assert(next[j] == b@.subrange(0, i as int)[j]);
                }
            }
        }
        if acc > (u128::MAX - d) / 10 {
            proof {
                if all_decimal_digits(b@) {
                    lemma_prefix_value_le(b@, i + 1);
                }
            }
            return 0;
        }
        acc = acc * 10 + d;
        i = i + 1;
    }
    assert(b@.subrange(0, i as int) =~= b@);
    acc
}

/// Reads a decimal number of up to 64 bits, with the same leniency as
/// [`parse_u128`]: text that is not a number in range reads as zero.
pub fn parse_u64(s: &str) -> (r: u64)
    ensures
        r == value_or_zero(text_bytes(s@), u64::MAX as nat),
{
    let wide = parse_u128(s);
    if wide <= u64::MAX as u128 {
        wide as u64
    } else {
        0
    }
}

/// A numeric text field read as a number of up to 128 bits, zero if it does
/// not read as one.
pub open spec fn field_u128(s: Seq<char>) -> nat {
    value_or_zero(text_bytes(s), u128::MAX as nat)
}

/// A numeric text field read as a number of up to 64 bits, zero if it does
/// not read as one.
pub open spec fn field_u64(s: Seq<char>) -> nat {
    value_or_zero(text_bytes(s), u64::MAX as nat)
}

/// `b` is a hexadecimal digit, in either case.
pub open spec fn is_hex_digit(b: u8) -> bool {
    (0x30 <= b <= 0x39) || (0x61 <= b <= 0x66) || (0x41 <= b <= 0x46)
}

pub open spec fn hex_digit_value(b: u8) -> nat {
    if 0x30 <= b <= 0x39 {
        (b - 0x30) as nat
    } else if 0x61 <= b <= 0x66 {
        (b - 0x57) as nat
    } else {
        (b - 0x37) as nat
    }
}

/// The text of an address without its optional `0x` prefix.
pub open spec fn strip_hex_prefix(s: Seq<u8>) -> Seq<u8> {
    if s.len() >= 2 && s[0] == 0x30 && s[1] == 0x78 {
        s.subrange(2, s.len() as int)
    } else {
        s
    }
}

/// Byte `i` of an address spelled by the hex text `h`: the pair of digits at
/// `2 * i`, or zero where that pair is missing or is not two hex digits.
pub open spec fn address_byte(h: Seq<u8>, i: int) -> u8 {
    if 2 * i + 1 < h.len() && is_hex_digit(h[2 * i]) && is_hex_digit(h[2 * i + 1]) {
        (hex_digit_value(h[2 * i]) * 16 + hex_digit_value(h[2 * i + 1])) as u8
    } else {
        0
    }
}

/// The 20 bytes that an address text stands for.
pub open spec fn address_of(s: Seq<u8>) -> Seq<u8> {
    Seq::new(20, |i: int| address_byte(strip_hex_prefix(s), i))
}

fn hex_digit(b: u8) -> (r: Option<u8>)
    ensures
        r == (if is_hex_digit(b) {
            Some(hex_digit_value(b) as u8)
        } else {
            None::<u8>
        }),
{
    if 0x30 <= b && b <= 0x39 {
        Some(b - 0x30)
    } else if 0x61 <= b && b <= 0x66 {
        Some(b - 0x57)
    } else if 0x41 <= b && b <= 0x46 {
        Some(b - 0x37)
    } else {
        None
    }
}

/// Decodes an account address written in hex, with or without `0x`, into 20
/// bytes. Never fails: a pair that is missing or not hex gives a zero byte.
pub fn decode_address(addr: &str) -> (r: [u8; 20])
    ensures
        r@ == address_of(text_bytes(addr@)),
{
    let b = addr.as_bytes();
    let start: usize = if b.len() >= 2 && b[0] == 0x30 && b[1] == 0x78 {
        2
    } else {
        0
    };
    let ghost h = strip_hex_prefix(b@);
    assert(h =~= b@.subrange(start as int, b@.len() as int));
    let mut bytes = [0u8; 20];
    let mut i: usize = 0;
    while i < 20
        invariant
            i <= 20,
            start <= 2,
            start <= b@.len(),
            h == b@.subrange(start as int, b@.len() as int),
            b@ == text_bytes(addr@),
            bytes@.len() == 20,
            forall|j: int| 0 <= j < i ==> bytes@[j] == address_byte(h, j),
        decreases 20 - i,
    {
        let p = start + 2 * i;
        let mut v: u8 = 0;
        if p + 1 < b.len() {
            let hi = hex_digit(b[p]);
            let lo = hex_digit(b[p + 1]);
            match (hi, lo) {
                (Some(x), Some(y)) => {
                    v = x * 16 + y;
                },
                _ => {},
            }
        }
        assert(v == address_byte(h, i as int));
        bytes[i] = v;
        i = i + 1;
    }
    assert(bytes@ =~= address_of(b@));
    bytes
}

} // verus!
