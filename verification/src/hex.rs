//! Bytes as hexadecimal text, two digits each.

use vstd::prelude::*;
use vstd::string::*;

use crate::text::{digit_char, digit_value, to_chars};

verus! {

/// The hexadecimal text of `data`, lower case.
pub open spec fn hex_text(data: Seq<u8>) -> Seq<char> {
    Seq::new(
        2 * data.len(),
        |k: int| digit_char(if k % 2 == 0 { data[k / 2] / 16 } else { data[k / 2] % 16 } as int),
    )
}

/// Whether `s` is hexadecimal text, of either case.
pub open spec fn is_hex_text(s: Seq<char>) -> bool {
    &&& s.len() % 2 == 0
    &&& forall|k: int| 0 <= k < s.len() ==> digit_value(#[trigger] s[k], 16) is Some
}

/// The bytes that hexadecimal text stands for.
pub open spec fn hex_bytes(s: Seq<char>) -> Seq<u8> {
    Seq::new(
        s.len() / 2,
        |i: int| (16 * digit_value(s[2 * i], 16)->0 + digit_value(s[2 * i + 1], 16)->0) as u8,
    )
}

/// The value of a hexadecimal digit.
pub fn hex_value(b: u8) -> (r: Option<u8>)
    ensures
        match digit_value(b as char, 16) {
            Some(d) => r == Some(d as u8) && d < 16,
            None => r is None,
        },
{
    if 0x30 <= b && b <= 0x39 {
        Some(b - 0x30)
    } else if 0x61 <= b && b <= 0x66 {
        Some(b - 0x61 + 10)
    } else if 0x41 <= b && b <= 0x46 {
        Some(b - 0x41 + 10)
    } else {
        None
    }
}

fn char_value(c: char) -> (r: Option<u8>)
    ensures
        match digit_value(c, 16) {
            Some(d) => r == Some(d as u8) && d < 16,
            None => r is None,
        },
{
    if (c as u32) < 128 {
        let b: u8 = c as u8;
        assert(b as char == c);
        hex_value(b)
    } else {
        None
    }
}

fn digit(d: u8) -> (r: &'static str)
    requires
        d < 16,
    ensures
        r@ == seq![digit_char(d as int)],
{
    crate::text::digit_str(d as u64)
}

/// Appends the hexadecimal text of `data`.
pub fn write_hex(data: &[u8], out: &mut String)
    ensures
        final(out)@ == old(out)@ + hex_text(data@),
{
    let mut i: usize = 0;
    let ghost start = out@;
    assert(out@ =~= start + hex_text(data@.take(0)));
    while i < data.len()
        invariant
            i <= data@.len(),
            start == old(out)@,
            out@ == start + hex_text(data@.take(i as int)),
        decreases data@.len() - i,
    {
        let ghost before = out@;
        let b: u8 = data[i];
        out.append(digit(b / 16));
        out.append(digit(b % 16));
        i += 1;
        proof {
            let t = data@.take(i as int);
            let u = data@.take(i as int - 1);
            assert forall|k: int| 0 <= k < 2 * u.len() implies hex_text(t)[k] == hex_text(u)[k] by {
                assert(t[k / 2] == u[k / 2]);
            }
            let n = 2 * u.len() as int;
            assert(n / 2 == i - 1 && n % 2 == 0 && (n + 1) / 2 == i - 1 && (n + 1) % 2 == 1);
            assert(t[i - 1] == b);
            assert(hex_text(t)[n] == digit_char((b / 16) as int));
            assert(hex_text(t)[n + 1] == digit_char((b % 16) as int));
            assert(out@ =~= start + hex_text(t));
        }
    }
    assert(data@.take(i as int) =~= data@);
}

/// The hexadecimal text of `data`.
pub fn to_hex(data: &[u8]) -> (r: String)
    ensures
        r@ == hex_text(data@),
{
    let mut s = String::new();
    write_hex(data, &mut s);
    assert(s@ =~= hex_text(data@));
    s
}

/// The bytes that `s` stands for; `None` unless `s` is an even number of
/// hexadecimal digits.
pub fn from_hex(s: &str) -> (r: Option<Vec<u8>>)
    ensures
        match r {
            Some(v) => is_hex_text(s@) && v@ == hex_bytes(s@),
            None => !is_hex_text(s@),
        },
{
    let c: Vec<char> = to_chars(s);
    if c.len() % 2 != 0 {
        return None;
    }
    let mut out: Vec<u8> = Vec::new();
    let mut i: usize = 0;
    while i < c.len()
        invariant
            i <= c@.len(),
            i % 2 == 0,
            c@.len() % 2 == 0,
            c@ == s@,
            out@.len() * 2 == i,
            forall|k: int| 0 <= k < i ==> digit_value(#[trigger] c@[k], 16) is Some,
            forall|k: int| 0 <= k < out@.len() ==> out@[k] == #[trigger] hex_bytes(s@)[k],
        decreases c@.len() - i,
    {
        let hi: u8 = match char_value(c[i]) {
            Some(d) => d,
            None => {
                assert(digit_value(s@[i as int], 16) is None);
                return None;
            },
        };
        let lo: u8 = match char_value(c[i + 1]) {
            Some(d) => d,
            None => {
                assert(digit_value(s@[i + 1], 16) is None);
                return None;
            },
        };
        out.push(16 * hi + lo);
        i += 2;
    }
    assert(out@ =~= hex_bytes(s@));
    Some(out)
}

proof fn lemma_digit(d: int)
    requires
        0 <= d < 16,
    ensures
        digit_value(digit_char(d), 16) == Some(d as nat),
{
}

/// The text of bytes stands for those bytes.
pub proof fn law_hex_round_trip(data: Seq<u8>)
    ensures
        is_hex_text(hex_text(data)),
        hex_bytes(hex_text(data)) == data,
{
    let s = hex_text(data);
    assert forall|k: int| 0 <= k < s.len() implies digit_value(#[trigger] s[k], 16) is Some by {
        lemma_digit(if k % 2 == 0 { data[k / 2] / 16 } else { data[k / 2] % 16 } as int);
    }
    assert forall|i: int| 0 <= i < data.len() implies hex_bytes(s)[i] == data[i] by {
        assert((2 * i) / 2 == i && (2 * i) % 2 == 0 && (2 * i + 1) / 2 == i && (2 * i + 1) % 2 == 1);
        lemma_digit((data[i] / 16) as int);
        lemma_digit((data[i] % 16) as int);
    }
    assert(hex_bytes(s) =~= data);
}

/// Two digits stand for each byte, the upper half first, and letters are small;
/// reading takes letters of either case.
pub proof fn law_two_digits_a_byte(data: Seq<u8>, s: Seq<char>, i: int)
    ensures
        hex_text(data).len() == 2 * data.len(),
        0 <= i < data.len() ==> {
            &&& hex_text(data)[2 * i] as u32 == (if data[i] / 16 < 10 {
                0x30 + data[i] / 16
            } else {
                0x57 + data[i] / 16
            })
            &&& hex_text(data)[2 * i + 1] as u32 == (if data[i] % 16 < 10 {
                0x30 + data[i] % 16
            } else {
                0x57 + data[i] % 16
            })
        },
        hex_bytes(s).len() == s.len() / 2,
        is_hex_text(s) && 0 <= i < s.len() / 2 ==> hex_bytes(s)[i] == 16 * digit_value(s[2 * i], 16)->0
            + digit_value(s[2 * i + 1], 16)->0,
{
    if 0 <= i < data.len() {
        assert((2 * i) / 2 == i && (2 * i + 1) / 2 == i && (2 * i) % 2 == 0 && (2 * i + 1) % 2 == 1);
        crate::text::law_digits(data[i] as int / 16, 'a', 16);
        crate::text::law_digits(data[i] as int % 16, 'a', 16);
    }
    if is_hex_text(s) && 0 <= i < s.len() / 2 {
        assert(digit_value(s[2 * i], 16) is Some);
        assert(digit_value(s[2 * i + 1], 16) is Some);
    }
}

} // verus!
