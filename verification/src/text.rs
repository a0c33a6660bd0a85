//! Text: numerals in base ten and sixteen, fields between separators, and
//! strings put together from pieces.

use vstd::prelude::*;
use vstd::string::*;
use vstd::utf8::*;

verus! {

/// The digit for `d`, `0` to `9` and then `a` to `f`.
pub open spec fn digit_char(d: int) -> char {
    if d == 0 { '0' } else if d == 1 { '1' } else if d == 2 { '2' } else if d == 3 { '3' }
    else if d == 4 { '4' } else if d == 5 { '5' } else if d == 6 { '6' } else if d == 7 { '7' }
    else if d == 8 { '8' } else if d == 9 { '9' } else if d == 10 { 'a' } else if d == 11 { 'b' }
    else if d == 12 { 'c' } else if d == 13 { 'd' } else if d == 14 { 'e' } else { 'f' }
}

/// The numeral of `n` in base `radix`, without leading zeros.
pub open spec fn numeral(n: nat, radix: nat) -> Seq<char>
    decreases n,
{
    if radix < 2 || n < radix {
        seq![digit_char(n as int)]
    } else {
        proof {
            assert(n / radix < n) by (nonlinear_arith)
                requires
                    n >= radix,
                    radix >= 2,
            ;
        }
        numeral(n / radix, radix).push(digit_char((n % radix) as int))
    }
}

/// `n` in base ten.
pub open spec fn dec(n: nat) -> Seq<char> {
    numeral(n, 10)
}

/// `n` in base sixteen, lower case.
pub open spec fn hex(n: nat) -> Seq<char> {
    numeral(n, 16)
}

/// `n` in base sixteen behind `0x`.
pub open spec fn hex0x(n: nat) -> Seq<char> {
    "0x"@ + hex(n)
}

pub(crate) fn digit_str(d: u64) -> (r: &'static str)
    requires
        d < 16,
    ensures
        r@ == seq![digit_char(d as int)],
{
    proof {
        reveal_strlit("0"); reveal_strlit("1"); reveal_strlit("2"); reveal_strlit("3");
        reveal_strlit("4"); reveal_strlit("5"); reveal_strlit("6"); reveal_strlit("7");
        reveal_strlit("8"); reveal_strlit("9"); reveal_strlit("a"); reveal_strlit("b");
        reveal_strlit("c"); reveal_strlit("d"); reveal_strlit("e"); reveal_strlit("f");
    }
    let r = if d == 0 { "0" } else if d == 1 { "1" } else if d == 2 { "2" } else if d == 3 { "3" }
        else if d == 4 { "4" } else if d == 5 { "5" } else if d == 6 { "6" } else if d == 7 { "7" }
        else if d == 8 { "8" } else if d == 9 { "9" } else if d == 10 { "a" } else if d == 11 { "b" }
        else if d == 12 { "c" } else if d == 13 { "d" } else if d == 14 { "e" } else { "f" };
    assert(r@ =~= seq![digit_char(d as int)]);
    r
}

fn push_numeral(out: &mut String, n: u64, radix: u64)
    requires
        2 <= radix <= 16,
    ensures
        final(out)@ == old(out)@ + numeral(n as nat, radix as nat),
    decreases n,
{
    if n < radix {
        out.append(digit_str(n));
    } else {
        assert(n / radix < n) by (nonlinear_arith)
            requires
                n >= radix,
                radix >= 2,
        ;
        push_numeral(out, n / radix, radix);
        let ghost mid = out@;
        out.append(digit_str(n % radix));
        assert(out@ =~= old(out)@ + numeral(n as nat, radix as nat));
    }
}

/// Appends `n` in base ten.
pub fn push_dec(out: &mut String, n: u64)
    ensures
        final(out)@ == old(out)@ + dec(n as nat),
{
    push_numeral(out, n, 10)
}

/// Appends `n` in base sixteen.
pub fn push_hex(out: &mut String, n: u64)
    ensures
        final(out)@ == old(out)@ + hex(n as nat),
{
    push_numeral(out, n, 16)
}

/// `n` in base ten.
pub fn dec_string(n: u64) -> (r: String)
    ensures
        r@ == dec(n as nat),
{
    let mut s = String::new();
    push_dec(&mut s, n);
    assert(s@ =~= dec(n as nat));
    s
}

/// `n` in base sixteen behind `0x`.
pub fn hex0x_string(n: u64) -> (r: String)
    ensures
        r@ == hex0x(n as nat),
{
    let mut s = "0x".to_owned();
    push_hex(&mut s, n);
    s
}

/// Two pieces put together.
pub fn cat2(a: &str, b: &str) -> (r: String)
    ensures
        r@ == a@ + b@,
{
    let mut s = a.to_owned();
    s.append(b);
    s
}

/// Three pieces put together.
pub fn cat3(a: &str, b: &str, c: &str) -> (r: String)
    ensures
        r@ == a@ + b@ + c@,
{
    let mut s = cat2(a, b);
    s.append(c);
    s
}

/// Four pieces put together.
pub fn cat4(a: &str, b: &str, c: &str, d: &str) -> (r: String)
    ensures
        r@ == a@ + b@ + c@ + d@,
{
    let mut s = cat3(a, b, c);
    s.append(d);
    s
}

/// Five pieces put together.
pub fn cat5(a: &str, b: &str, c: &str, d: &str, e: &str) -> (r: String)
    ensures
        r@ == a@ + b@ + c@ + d@ + e@,
{
    let mut s = cat4(a, b, c, d);
    s.append(e);
    s
}

/// What `{:?}` writes for the string `s`: `s` between double quotes, with
/// the characters that need it escaped.
pub uninterp spec fn quoted(s: Seq<char>) -> Seq<char>;

/// `s` as std's `Debug` for `str` writes it. The result is named and not
/// spelled out: which characters are escaped, and how, is std's table.
#[verifier::external_body]
pub(crate) fn quote(s: &str) -> (r: String)
    ensures
        r@ == quoted(s@),
{
    format!("{:?}", s)
}

/// Whether two strings hold the same characters.
pub fn str_eq(a: &str, b: &str) -> (r: bool)
    ensures
        r == (a@ == b@),
{
    proof {
        encode_utf8_decode_utf8(a@);
        encode_utf8_decode_utf8(b@);
    }
    crate::bytes::bytes_eq(a.as_bytes(), b.as_bytes())
}

/// The characters of `s`.
pub fn to_chars(s: &str) -> (r: Vec<char>)
    ensures
        r@ == s@,
{
    let mut v: Vec<char> = Vec::new();
    for c in it: s.chars()
        invariant
            it.seq() == s@,
            v@ == s@.subrange(0, it.index()),
    {
        v.push(c);
        assert(v@ =~= s@.subrange(0, it.index() + 1));
    }
    assert(v@ =~= s@);
    v
}

/// The value of the digit `c` in base `radix`, either case.
pub open spec fn digit_value(c: char, radix: nat) -> Option<nat> {
    let v = if '0' <= c <= '9' {
        Some((c as u32 - '0' as u32) as nat)
    } else if 'a' <= c <= 'z' {
        Some((c as u32 - 'a' as u32 + 10) as nat)
    } else if 'A' <= c <= 'Z' {
        Some((c as u32 - 'A' as u32 + 10) as nat)
    } else {
        None
    };
    match v {
        Some(d) => if d < radix { Some(d) } else { None },
        None => None,
    }
}

/// Why a string is no numeral of the integer type it is read as.
#[derive(Clone, Copy, Debug, PartialEq, Eq, Structural)]
pub enum IntError {
    /// There is nothing to read.
    Empty,
    /// A character that is no digit, or a sign alone.
    InvalidDigit,
    /// The number is greater than the type's largest.
    PosOverflow,
}

/// The text of `e`.
pub open spec fn int_error_text(e: IntError) -> Seq<char> {
    match e {
        IntError::Empty => "cannot parse integer from empty string"@,
        IntError::InvalidDigit => "invalid digit found in string"@,
        IntError::PosOverflow => "number too large to fit in target type"@,
    }
}

impl IntError {
    /// The error in words.
    pub fn text(self) -> (r: &'static str)
        ensures
            r@ == int_error_text(self),
    {
        match self {
            IntError::Empty => "cannot parse integer from empty string",
            IntError::InvalidDigit => "invalid digit found in string",
            IntError::PosOverflow => "number too large to fit in target type",
        }
    }
}

/// What the digits `s` bring `acc` to, read from the left; the first
/// character that is no digit or that takes the number past `max` decides.
pub open spec fn digits_from(s: Seq<char>, radix: nat, max: nat, acc: nat) -> Result<nat, IntError>
    decreases s.len(),
{
    if s.len() == 0 {
        Ok(acc)
    } else {
        match digit_value(s[0], radix) {
            None => Err(IntError::InvalidDigit),
            Some(d) => if acc * radix + d > max {
                Err(IntError::PosOverflow)
            } else {
                digits_from(s.skip(1), radix, max, acc * radix + d)
            },
        }
    }
}

/// The unsigned number no greater than `max` that `s` denotes in base
/// `radix`: digits of either case behind an optional `+`.
pub open spec fn parse_uint(s: Seq<char>, radix: nat, max: nat) -> Result<nat, IntError> {
    if s.len() == 0 {
        Err(IntError::Empty)
    } else if s.len() == 1 && (s[0] == '+' || s[0] == '-') {
        Err(IntError::InvalidDigit)
    } else if s[0] == '+' {
        digits_from(s.skip(1), radix, max, 0)
    } else {
        digits_from(s, radix, max, 0)
    }
}

fn digit_of(c: char, radix: u64) -> (r: Option<u64>)
    ensures
        match digit_value(c, radix as nat) {
            Some(d) => r == Some(d as u64) && d < radix,
            None => r is None,
        },
{
    let v: u64 = if '0' <= c && c <= '9' {
        (c as u32 - '0' as u32) as u64
    } else if 'a' <= c && c <= 'z' {
        (c as u32 - 'a' as u32 + 10) as u64
    } else if 'A' <= c && c <= 'Z' {
        (c as u32 - 'A' as u32 + 10) as u64
    } else {
        return None;
    };
    if v < radix {
        Some(v)
    } else {
        None
    }
}

/// Reads an unsigned number no greater than `max`.
pub fn read_uint(s: &str, radix: u64, max: u64) -> (r: Result<u64, IntError>)
    requires
        2 <= radix <= 36,
    ensures
        match parse_uint(s@, radix as nat, max as nat) {
            Ok(n) => r == Ok::<u64, IntError>(n as u64) && n <= max,
            Err(e) => r == Err::<u64, IntError>(e),
        },
{
    let v: Vec<char> = to_chars(s);
    if v.len() == 0 {
        return Err(IntError::Empty);
    }
    if v.len() == 1 && (v[0] == '+' || v[0] == '-') {
        return Err(IntError::InvalidDigit);
    }
    let mut i: usize = if v[0] == '+' { 1 } else { 0 };
    let mut acc: u64 = 0;
    proof {
        assert(v@.skip(0) =~= v@);
    }
    while i < v.len()
        invariant
            i <= v.len(),
            v@ == s@,
            2 <= radix <= 36,
            acc <= max,
            parse_uint(s@, radix as nat, max as nat) == digits_from(
                v@.skip(i as int),
                radix as nat,
                max as nat,
                acc as nat,
            ),
        decreases v.len() - i,
    {
        assert(v@.skip(i as int)[0] == v@[i as int]);
        assert(v@.skip(i as int).skip(1) =~= v@.skip(i as int + 1));
        let d: u64 = match digit_of(v[i], radix) {
            Some(d) => d,
            None => { return Err(IntError::InvalidDigit); },
        };
        assert(acc * radix <= u64::MAX * 36) by (nonlinear_arith)
            requires
                acc <= u64::MAX,
                radix <= 36,
        ;
        let next: u128 = acc as u128 * radix as u128 + d as u128;
        if next > max as u128 {
            return Err(IntError::PosOverflow);
        }
        acc = next as u64;
        i += 1;
    }
    Ok(acc)
}

/// The fields of `s` between the separators `c`.
pub open spec fn split(s: Seq<char>, c: char) -> Seq<Seq<char>>
    decreases s.len(),
{
    if s.len() == 0 {
        seq![s]
    } else {
        let rest = split(s.drop_last(), c);
        if s.last() == c {
            rest.push(seq![])
        } else {
            rest.drop_last().push(rest.last().push(s.last()))
        }
    }
}

/// The views of a list of strings.
pub open spec fn views(v: Seq<&str>) -> Seq<Seq<char>> {
    v.map_values(|s: &str| s@)
}

/// The views of a list of owned strings.
pub open spec fn string_views(v: Seq<String>) -> Seq<Seq<char>> {
    v.map_values(|s: String| s@)
}

/// There is always at least one field.
pub proof fn lemma_split_nonempty(s: Seq<char>, c: char)
    ensures
        split(s, c).len() > 0,
    decreases s.len(),
{
    if s.len() > 0 {
        lemma_split_nonempty(s.drop_last(), c);
    }
}

/// Splits `s` at every `c`.
pub fn split_at_char<'a>(s: &'a str, c: char) -> (r: Vec<&'a str>)
    ensures
        views(r@) == split(s@, c),
        r.len() > 0,
{
    let v: Vec<char> = to_chars(s);
    let mut out: Vec<&'a str> = Vec::new();
    let mut start: usize = 0;
    let mut i: usize = 0;
    let ghost e: Seq<Seq<char>> = seq![];
    assert(v@.take(0) =~= seq![]);
    assert(split(v@.take(0), c) =~= views(out@).push(v@.subrange(0, 0)));
    while i < v.len()
        invariant
            start <= i <= v.len(),
            v@ == s@,
            split(v@.take(i as int), c) == views(out@).push(v@.subrange(start as int, i as int)),
        decreases v.len() - i,
    {
        assert(v@.take(i as int + 1).drop_last() =~= v@.take(i as int));
        assert(v@.take(i as int + 1).last() == v@[i as int]);
        let ghost before = split(v@.take(i as int), c);
        if v[i] == c {
            let ghost prev = views(out@);
            out.push(s.substring_char(start, i));
            assert(views(out@) =~= before);
            start = i + 1;
            assert(v@.subrange(start as int, i as int + 1) =~= seq![]);
        } else {
            assert(before.drop_last() =~= views(out@));
            assert(before.last().push(v@[i as int]) =~= v@.subrange(start as int, i as int + 1));
        }
        i += 1;
        assert(split(v@.take(i as int), c) =~= views(out@).push(
            v@.subrange(start as int, i as int),
        ));
    }
    assert(v@.take(i as int) =~= s@);
    let ghost prev = views(out@);
    out.push(s.substring_char(start, i));
    assert(views(out@) =~= prev.push(v@.subrange(start as int, i as int)));
    out
}

/// The position of the first `c` in `s`, if there is one.
pub open spec fn find_char(s: Seq<char>, c: char) -> Option<nat>
    decreases s.len(),
{
    if s.len() == 0 {
        None
    } else if s[0] == c {
        Some(0)
    } else {
        match find_char(s.skip(1), c) {
            Some(i) => Some(i + 1),
            None => None,
        }
    }
}

/// Finds the first `c`.
pub fn position(s: &str, c: char) -> (r: Option<usize>)
    ensures
        match find_char(s@, c) {
            Some(i) => r == Some(i as usize) && i < s@.len(),
            None => r is None,
        },
{
    let v: Vec<char> = to_chars(s);
    let mut i: usize = 0;
    assert(v@.skip(0) =~= v@);
    while i < v.len()
        invariant
            i <= v.len(),
            v@ == s@,
            match find_char(v@.skip(i as int), c) {
                Some(k) => find_char(s@, c) == Some((i + k) as nat),
                None => find_char(s@, c) is None,
            },
        decreases v.len() - i,
    {
        assert(v@.skip(i as int)[0] == v@[i as int]);
        assert(v@.skip(i as int).skip(1) =~= v@.skip(i as int + 1));
        if v[i] == c {
            return Some(i);
        }
        i += 1;
    }
    None
}

/// Whether `s` begins with `prefix`.
pub open spec fn starts_with(s: Seq<char>, prefix: Seq<char>) -> bool {
    s.len() >= prefix.len() && s.take(prefix.len() as int) == prefix
}

/// What follows `prefix` in `s`, if `s` begins with it.
pub fn strip_prefix<'a>(s: &'a str, prefix: &str) -> (r: Option<&'a str>)
    ensures
        match r {
            Some(t) => starts_with(s@, prefix@) && t@ == s@.skip(prefix@.len() as int),
            None => !starts_with(s@, prefix@),
        },
{
    let n: usize = s.unicode_len();
    let m: usize = prefix.unicode_len();
    if n < m {
        return None;
    }
    if str_eq(s.substring_char(0, m), prefix) {
        let t = s.substring_char(m, n);
        assert(t@ =~= s@.skip(m as int));
        Some(t)
    } else {
        None
    }
}

/// `s` before and after the first `c`.
pub open spec fn split_first(s: Seq<char>, c: char) -> Option<(Seq<char>, Seq<char>)> {
    match find_char(s, c) {
        Some(i) => Some((s.take(i as int), s.skip(i as int + 1))),
        None => None,
    }
}

/// Splits `s` at the first `c`.
pub fn split_once<'a>(s: &'a str, c: char) -> (r: Option<(&'a str, &'a str)>)
    ensures
        match r {
            Some((a, b)) => split_first(s@, c) == Some((a@, b@)),
            None => split_first(s@, c) is None,
        },
{
    match position(s, c) {
        Some(i) => {
            let n: usize = s.unicode_len();
            let a = s.substring_char(0, i);
            let b = s.substring_char(i + 1, n);
            assert(a@ =~= s@.take(i as int));
            assert(b@ =~= s@.skip(i as int + 1));
            Some((a, b))
        },
        None => None,
    }
}

/// The number that `s` denotes in base sixteen, if it fits in 64 bits.
pub open spec fn hex_number(s: Seq<char>) -> Option<u64> {
    match parse_uint(s, 16, u64::MAX as nat) {
        Ok(n) => Some(n as u64),
        Err(_) => None,
    }
}

/// Reads a number in base sixteen.
pub fn read_hex(s: &str) -> (r: Option<u64>)
    ensures
        r == hex_number(s@),
{
    match read_uint(s, 16, u64::MAX) {
        Ok(n) => Some(n),
        Err(_) => None,
    }
}

/// `s` without its first character.
pub fn rest<'a>(s: &'a str) -> (r: &'a str)
    requires
        s@.len() > 0,
    ensures
        r@ == s@.skip(1),
{
    let n: usize = s.unicode_len();
    let r = s.substring_char(1, n);
    assert(r@ =~= s@.skip(1));
    r
}

/// The text that std reads bytes as, with a replacement character for what is
/// no UTF-8.
pub uninterp spec fn lossy_text(bytes: Seq<u8>) -> Seq<char>;

/// `bytes` as std's `String::from_utf8_lossy` reads them. Valid UTF-8 is
/// decoded as it is; how the rest is replaced is std's own and only named.
#[verifier::external_body]
pub(crate) fn lossy(bytes: &[u8]) -> (r: String)
    ensures
        r@ == lossy_text(bytes@),
        valid_utf8(bytes@) ==> r@ == decode_utf8(bytes@),
{
    String::from_utf8_lossy(bytes).into_owned()
}

/// Whether `c` is white space.
pub open spec fn is_white(c: char) -> bool {
    let n = c as u32;
    ||| 0x9 <= n <= 0xd
    ||| n == 0x20
    ||| n == 0x85
    ||| n == 0xa0
    ||| n == 0x1680
    ||| 0x2000 <= n <= 0x200a
    ||| n == 0x2028
    ||| n == 0x2029
    ||| n == 0x202f
    ||| n == 0x205f
    ||| n == 0x3000
}

/// The words of `s`: its longest parts without white space.
pub open spec fn words(s: Seq<char>) -> Seq<Seq<char>>
    decreases s.len(),
{
    if s.len() == 0 {
        seq![]
    } else {
        let before = words(s.drop_last());
        if is_white(s.last()) {
            before
        } else if s.len() == 1 || is_white(s[s.len() - 2]) {
            before.push(seq![s.last()])
        } else {
            before.drop_last().push(before.last().push(s.last()))
        }
    }
}

fn white(c: char) -> (r: bool)
    ensures
        r == is_white(c),
{
    let n: u32 = c as u32;
    (0x9 <= n && n <= 0xd) || n == 0x20 || n == 0x85 || n == 0xa0 || n == 0x1680 || (0x2000 <= n && n
        <= 0x200a) || n == 0x2028 || n == 0x2029 || n == 0x202f || n == 0x205f || n == 0x3000
}

/// Splits `s` at white space.
pub fn split_words<'a>(s: &'a str) -> (r: Vec<&'a str>)
    ensures
        views(r@) == words(s@),
{
    let v: Vec<char> = to_chars(s);
    let mut out: Vec<&'a str> = Vec::new();
    let mut start: usize = 0;
    let mut i: usize = 0;
    assert(v@.take(0) =~= seq![]);
    assert(views(out@) =~= seq![]);
    while i < v.len()
        invariant
            start <= i <= v.len(),
            v@ == s@,
            forall|k: int| start <= k < i ==> !is_white(#[trigger] v@[k]),
            start < i ==> words(v@.take(i as int)) == views(out@).push(
                v@.subrange(start as int, i as int),
            ),
            start == i ==> words(v@.take(i as int)) == views(out@) && (i == 0 || is_white(v@[i - 1])),
        decreases v.len() - i,
    {
        let ghost t = v@.take(i as int + 1);
        let ghost before = views(out@);
        assert(t.drop_last() =~= v@.take(i as int));
        assert(t.last() == v@[i as int]);
        assert(i > 0 ==> t[t.len() - 2] == v@[i - 1]);
        if white(v[i]) {
            if start < i {
                out.push(s.substring_char(start, i));
                assert(views(out@) =~= before.push(v@.subrange(start as int, i as int)));
            }
            start = i + 1;
        } else {
            if start == i {
                assert(v@.subrange(start as int, i as int + 1) =~= seq![v@[i as int]]);
            } else {
                let ghost w = words(v@.take(i as int));
                assert(w.drop_last() =~= before);
                assert(w.last().push(v@[i as int]) =~= v@.subrange(start as int, i as int + 1));
            }
        }
        i += 1;
    }
    assert(v@.take(i as int) =~= s@);
    let ghost before = views(out@);
    if start < i {
        out.push(s.substring_char(start, i));
        assert(views(out@) =~= before.push(v@.subrange(start as int, i as int)));
    }
    out
}

/// A word behind a space is one more word.
pub proof fn lemma_words_push(s: Seq<char>, t: Seq<char>)
    requires
        t.len() > 0,
        forall|k: int| 0 <= k < t.len() ==> !is_white(#[trigger] t[k]),
    ensures
        words(s + seq![' '] + t) == words(s).push(t),
    decreases t.len(),
{
    let a = s + seq![' '];
    let all = a + t;
    assert(a.drop_last() =~= s);
    assert(words(a) == words(s));
    let u = t.drop_last();
    assert(all.drop_last() =~= a + u);
    assert(all.last() == t.last());
    assert(!is_white(t[t.len() - 1]));
    if t.len() == 1 {
        assert(a + u =~= a);
        assert(all[all.len() - 2] == ' ');
        assert(t =~= seq![t.last()]);
    } else {
        assert forall|k: int| 0 <= k < u.len() implies !is_white(#[trigger] u[k]) by {
            assert(u[k] == t[k]);
        }
        lemma_words_push(s, u);
        assert(all[all.len() - 2] == t[t.len() - 2]);
        let before = words(s).push(u);
        assert(before.drop_last() =~= words(s));
        assert(u.push(t.last()) =~= t);
    }
}

proof fn lemma_digits_step(s: Seq<char>, d: char, radix: nat, max: nat, acc: nat)
    ensures
        digits_from(s.push(d), radix, max, acc) == (match digits_from(s, radix, max, acc) {
            Ok(n) => digits_from(seq![d], radix, max, n),
            Err(e) => Err(e),
        }),
    decreases s.len(),
{
    if s.len() == 0 {
        assert(s.push(d) =~= seq![d]);
    } else {
        assert(s.push(d).skip(1) =~= s.skip(1).push(d));
        if let Some(x) = digit_value(s[0], radix) {
            if acc * radix + x <= max {
                lemma_digits_step(s.skip(1), d, radix, max, acc * radix + x);
            }
        }
    }
}

proof fn lemma_numeral_digits(n: nat, radix: nat, max: nat)
    requires
        2 <= radix <= 16,
        n <= max,
    ensures
        digits_from(numeral(n, radix), radix, max, 0) == Ok::<nat, IntError>(n),
        numeral(n, radix).len() > 0,
        forall|k: int| 0 <= k < numeral(n, radix).len() ==> digit_value(#[trigger] numeral(n, radix)[k], radix) is Some,
    decreases n,
{
    reveal_with_fuel(digits_from, 2);
    if n < radix {
        let t = numeral(n, radix);
        assert(t.skip(1) =~= seq![]);
        assert(0 * radix + n == n) by (nonlinear_arith);
        assert(digit_value(digit_char(n as int), radix) == Some(n));
    } else {
        assert(n / radix < n && (n / radix) * radix + n % radix == n && n % radix < radix) by (nonlinear_arith)
            requires
                n >= radix,
                radix >= 2,
        ;
        lemma_numeral_digits(n / radix, radix, max);
        let d = digit_char((n % radix) as int);
        assert(digit_value(d, radix) == Some((n % radix) as nat));
        let s = numeral(n / radix, radix);
        lemma_digits_step(s, d, radix, max, 0);
        assert(seq![d].skip(1) =~= seq![]);
        assert forall|k: int| 0 <= k < numeral(n, radix).len() implies digit_value(#[trigger] numeral(n, radix)[k], radix) is Some by {
            if k < s.len() {
                assert(numeral(n, radix)[k] == s[k]);
            }
        }
    }
}

/// The numeral of a number reads as that number, and holds digits only.
pub proof fn law_numeral_round_trip(n: nat, radix: nat, max: nat)
    requires
        2 <= radix <= 16,
        n <= max,
    ensures
        parse_uint(numeral(n, radix), radix, max) == Ok::<nat, IntError>(n),
        numeral(n, radix).len() > 0,
        forall|k: int| 0 <= k < numeral(n, radix).len() ==> digit_value(#[trigger] numeral(n, radix)[k], radix) is Some,
{
    lemma_numeral_digits(n, radix, max);
    let s = numeral(n, radix);
    assert(digit_value(s[0], radix) is Some);
}

/// The digits are those of the usual notation: the value of a digit is its
/// distance from `0`, or ten more than that from `a`, and letters count the
/// same in either case.
pub proof fn law_digits(d: int, c: char, radix: nat)
    requires
        0 <= d < 16,
        2 <= radix <= 36,
    ensures
        digit_char(d) as u32 == (if d < 10 { 0x30 + d } else { 0x61 + d - 10 }),
        digit_value(c, radix) == (if 0x30 <= c as u32 <= 0x39 && c as u32 - 0x30 < radix {
            Some((c as u32 - 0x30) as nat)
        } else if 0x61 <= c as u32 <= 0x7a && c as u32 - 0x61 + 10 < radix {
            Some((c as u32 - 0x61 + 10) as nat)
        } else if 0x41 <= c as u32 <= 0x5a && c as u32 - 0x41 + 10 < radix {
            Some((c as u32 - 0x41 + 10) as nat)
        } else {
            None
        }),
{
}

/// A numeral is positional, with the highest digit first and no zero in front:
/// its last digit is the remainder, and the digits in front of that are the
/// numeral of the quotient.
pub proof fn law_numerals_are_positional(n: nat)
    ensures
        dec(n).last() as u32 == 0x30 + n % 10,
        n < 10 ==> dec(n).len() == 1,
        n >= 10 ==> dec(n).drop_last() == dec(n / 10),
        hex(n).last() as u32 == (if n % 16 < 10 { 0x30 + n % 16 } else { 0x57 + n % 16 }),
        n < 16 ==> hex(n).len() == 1,
        n >= 16 ==> hex(n).drop_last() == hex(n / 16),
        hex0x(n).len() == 2 + hex(n).len(),
        hex0x(n)[0] == '0',
        hex0x(n)[1] == 'x',
        hex0x(n).skip(2) == hex(n),
{
    reveal_strlit("0x");
    assert(hex0x(n).skip(2) =~= hex(n));
    if n >= 10 {
        assert(dec(n).drop_last() =~= dec(n / 10));
    }
    if n >= 16 {
        assert(hex(n).drop_last() =~= hex(n / 16));
    }
}

/// Numbers are read digit by digit: one more digit makes the number so far
/// `radix` times as large and adds the digit; one that is no digit is an
/// error, and so is a number past the limit. A plus sign in front changes
/// nothing, a minus sign is no digit, and no digits at all are an error.
#[verifier::spinoff_prover]
pub proof fn law_numbers_are_read_by_digits(s: Seq<char>, c: char, radix: nat, max: nat)
    requires
        2 <= radix <= 36,
    ensures
        parse_uint(seq![], radix, max) == Err::<nat, IntError>(IntError::Empty),
        parse_uint(seq![c], radix, max) == (match digit_value(c, radix) {
            Some(d) => if d <= max {
                Ok::<nat, IntError>(d)
            } else {
                Err::<nat, IntError>(IntError::PosOverflow)
            },
            None => Err::<nat, IntError>(IntError::InvalidDigit),
        }),
        s.len() > 0 ==> (match parse_uint(s, radix, max) {
            Ok(n) => parse_uint(s.push(c), radix, max) == (match digit_value(c, radix) {
                Some(d) => if n * radix + d <= max {
                    Ok::<nat, IntError>(n * radix + d)
                } else {
                    Err::<nat, IntError>(IntError::PosOverflow)
                },
                None => Err::<nat, IntError>(IntError::InvalidDigit),
            }),
            Err(_) => s != seq!['+'] ==> parse_uint(s.push(c), radix, max) == parse_uint(s, radix, max),
        }),
        s.len() > 0 && s[0] != '+' ==> parse_uint(seq!['+'] + s, radix, max) == digits_from(s, radix, max, 0),
        s.len() > 0 && s[0] != '+' && s != seq!['-'] ==> parse_uint(s, radix, max) == digits_from(s, radix, max, 0),
        s.len() > 0 && s[0] == '-' ==> parse_uint(s, radix, max) == Err::<nat, IntError>(IntError::InvalidDigit),
{
    reveal_with_fuel(digits_from, 2);
    assert(seq![c].skip(1) =~= seq![]);
    if s.len() > 0 {
        let t = s.push(c);
        assert(t[0] == s[0]);
        assert(t.skip(1) =~= s.skip(1).push(c));
        lemma_digits_step(s, c, radix, max, 0);
        lemma_digits_step(s.skip(1), c, radix, max, 0);
        if s.len() == 1 {
            assert(s =~= seq![s[0]]);
            assert(s.skip(1) =~= seq![]);
        }
        let p = seq!['+'] + s;
        assert(p.skip(1) =~= s);
    }
}

/// The first place of a character: it stands there and nowhere before; and if
/// there is no such place, it stands nowhere.
pub proof fn law_first_place(s: Seq<char>, c: char)
    ensures
        match find_char(s, c) {
            Some(i) => i < s.len() && s[i as int] == c && forall|k: int| 0 <= k < i ==> #[trigger] s[k] != c,
            None => !s.contains(c),
        },
    decreases s.len(),
{
    if s.len() > 0 && s[0] != c {
        law_first_place(s.skip(1), c);
        match find_char(s.skip(1), c) {
            Some(i) => {
                assert forall|k: int| 0 <= k < i + 1 implies #[trigger] s[k] != c by {
                    if k > 0 {
                        assert(s.skip(1)[k - 1] == s[k]);
                    }
                }
            },
            None => {
                assert forall|k: int| 0 <= k < s.len() implies s[k] != c by {
                    if k > 0 {
                        assert(s.skip(1)[k - 1] == s[k]);
                    }
                }
            },
        }
    }
}

/// Splitting once takes a text apart at the first separator: what is in front
/// of it, and all that is behind it, further separators included.
pub proof fn law_split_once(a: Seq<char>, b: Seq<char>, c: char)
    requires
        !a.contains(c),
    ensures
        split_first(a + seq![c] + b, c) == Some((a, b)),
        split_first(a, c) is None,
{
    let s = a + seq![c] + b;
    law_first_place(a, c);
    law_first_place(s, c);
    assert(s[a.len() as int] == c);
    let i = find_char(s, c)->0;
    if i < a.len() {
        assert(a[i as int] == c);
    }
    assert(s.take(i as int) =~= a);
    assert(s.skip(i as int + 1) =~= b);
    if find_char(a, c) is Some {
        assert(a.contains(a[find_char(a, c)->0 as int]));
    }
}

/// Splitting takes a text apart at every separator: a text without one is one
/// part, and the parts of two texts with a separator between them are those of
/// the one and then those of the other.
pub proof fn law_split_everywhere(a: Seq<char>, b: Seq<char>, c: char)
    ensures
        !a.contains(c) ==> split(a, c) == seq![a],
        split(a + seq![c] + b, c) == split(a, c) + split(b, c),
    decreases a.len() + b.len(),
{
    if a.len() > 0 && !a.contains(c) {
        let d = a.drop_last();
        assert(a.last() != c) by {
            assert(a.contains(a[a.len() - 1]));
        }
        assert forall|k: int| 0 <= k < d.len() implies d[k] != c by {
            assert(a.contains(a[k]));
        }
        lemma_split_none(d, c);
        assert(split(a, c) =~= seq![a]) by {
            assert(split(d, c).last().push(a.last()) =~= a);
        }
    }
    let s = a + seq![c] + b;
    if b.len() == 0 {
        assert(s.drop_last() =~= a);
        assert(b =~= seq![]);
        assert(split(s, c) =~= split(a, c) + split(b, c));
    } else {
        let e = b.drop_last();
        assert(s.drop_last() =~= a + seq![c] + e);
        law_split_everywhere(a, e, c);
        lemma_split_nonempty(e, c);
        assert(split(s, c) =~= split(a, c) + split(b, c));
    }
}

proof fn lemma_split_none(a: Seq<char>, c: char)
    requires
        !a.contains(c),
    ensures
        split(a, c) == seq![a],
    decreases a.len(),
{
    if a.len() > 0 {
        let d = a.drop_last();
        assert(a.last() != c) by {
            assert(a.contains(a[a.len() - 1]));
        }
        assert forall|k: int| 0 <= k < d.len() implies d[k] != c by {
            assert(a.contains(a[k]));
        }
        lemma_split_none(d, c);
        assert(split(d, c).last().push(a.last()) =~= a);
        assert(split(a, c) =~= seq![a]);
    }
}

/// A prefix is what a text begins with.
pub proof fn law_prefixes(a: Seq<char>, b: Seq<char>, s: Seq<char>)
    ensures
        starts_with(a + b, a),
        (a + b).skip(a.len() as int) == b,
        starts_with(s, a) ==> s == a + s.skip(a.len() as int),
{
    assert((a + b).take(a.len() as int) =~= a);
    assert((a + b).skip(a.len() as int) =~= b);
    if starts_with(s, a) {
        assert(s =~= s.take(a.len() as int) + s.skip(a.len() as int));
    }
}

/// White space is what Unicode lists as such.
pub proof fn law_white_space(c: char)
    ensures
        is_white(c) <==> seq![
            0x9u32, 0xau32, 0xbu32, 0xcu32, 0xdu32, 0x20u32, 0x85u32, 0xa0u32, 0x1680u32, 0x2000u32, 0x2001u32,
            0x2002u32, 0x2003u32, 0x2004u32, 0x2005u32, 0x2006u32, 0x2007u32, 0x2008u32, 0x2009u32, 0x200au32,
            0x2028u32, 0x2029u32, 0x202fu32, 0x205fu32, 0x3000u32,
        ].contains(c as u32),
{
    let list = seq![
        0x9u32, 0xau32, 0xbu32, 0xcu32, 0xdu32, 0x20u32, 0x85u32, 0xa0u32, 0x1680u32, 0x2000u32, 0x2001u32,
        0x2002u32, 0x2003u32, 0x2004u32, 0x2005u32, 0x2006u32, 0x2007u32, 0x2008u32, 0x2009u32, 0x200au32,
        0x2028u32, 0x2029u32, 0x202fu32, 0x205fu32, 0x3000u32,
    ];
    let n = c as u32;
    if is_white(c) {
        let k: int = if n <= 0xd {
            n - 9
        } else if n == 0x20 {
            5
        } else if n == 0x85 {
            6
        } else if n == 0xa0 {
            7
        } else if n == 0x1680 {
            8
        } else if n <= 0x200a {
            9 + (n - 0x2000)
        } else if n == 0x2028 {
            20
        } else if n == 0x2029 {
            21
        } else if n == 0x202f {
            22
        } else if n == 0x205f {
            23
        } else {
            24
        };
        assert(list[k] == n);
    }
}

/// The words of a text: white space in front of it or behind it makes no
/// difference, one word is itself, and two texts with white space between
/// them have the words of the one and then those of the other.
pub proof fn law_words(a: Seq<char>, w: char, b: Seq<char>)
    requires
        is_white(w),
    ensures
        words(a + seq![w] + b) == words(a) + words(b),
        words(seq![]).len() == 0,
        a.len() > 0 && (forall|k: int| 0 <= k < a.len() ==> !is_white(#[trigger] a[k])) ==> words(a) == seq![a],
    decreases b.len(),
{
    let s = a + seq![w] + b;
    if b.len() == 0 {
        assert(s.drop_last() =~= a);
        assert(b =~= seq![]);
        assert(words(s) =~= words(a) + words(b));
    } else {
        let e = b.drop_last();
        assert(s.drop_last() =~= a + seq![w] + e);
        law_words(a, w, e);
        assert(s.last() == b.last());
        assert(b.len() >= 2 ==> s[s.len() - 2] == b[b.len() - 2]);
        assert(b.len() == 1 ==> s[s.len() - 2] == w);
        if !is_white(b.last()) && b.len() >= 2 && !is_white(b[b.len() - 2]) {
            lemma_words_end(e);
        }
        assert(words(s) =~= words(a) + words(b));
    }
    if a.len() > 0 && (forall|k: int| 0 <= k < a.len() ==> !is_white(#[trigger] a[k])) {
        lemma_one_word(a);
    }
}

proof fn lemma_words_end(s: Seq<char>)
    requires
        s.len() > 0,
        !is_white(s.last()),
    ensures
        words(s).len() > 0,
{
}

proof fn lemma_one_word(a: Seq<char>)
    requires
        a.len() > 0,
        forall|k: int| 0 <= k < a.len() ==> !is_white(#[trigger] a[k]),
    ensures
        words(a) == seq![a],
    decreases a.len(),
{
    let d = a.drop_last();
    assert(!is_white(a[a.len() - 1]));
    if a.len() == 1 {
        assert(words(d) =~= seq![]);
        assert(a =~= seq![a.last()]);
    } else {
        assert forall|k: int| 0 <= k < d.len() implies !is_white(#[trigger] d[k]) by {
            assert(d[k] == a[k]);
        }
        assert(!is_white(a[a.len() - 2]));
        lemma_one_word(d);
        assert(words(d).last().push(a.last()) =~= a);
        assert(words(a) =~= seq![a]);
    }
}

} // verus!
