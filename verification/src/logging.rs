//! Leveled log lines, one to a line and easy to take apart:
//! `[hyperbug] <seconds.millis> <LEVEL> <module::path>: <message>`.

use vstd::prelude::*;
use vstd::string::*;

use crate::text::{dec, dec_string, to_chars};

verus! {

/// How grave a message is, the gravest first.
#[derive(Clone, Copy, Debug, PartialEq, Eq, PartialOrd, Ord, Structural)]
pub enum Level {
    Error,
    Warn,
    Info,
    Debug,
    Trace,
}

/// The place of a level in the order of gravity.
pub open spec fn rank(l: Level) -> int {
    match l {
        Level::Error => 0,
        Level::Warn => 1,
        Level::Info => 2,
        Level::Debug => 3,
        Level::Trace => 4,
    }
}

/// The name of a level.
pub open spec fn level_name(l: Level) -> Seq<char> {
    match l {
        Level::Error => "ERROR"@,
        Level::Warn => "WARN"@,
        Level::Info => "INFO"@,
        Level::Debug => "DEBUG"@,
        Level::Trace => "TRACE"@,
    }
}

/// `c`, if it is an ASCII capital then the small letter.
pub open spec fn lower_char(c: char) -> char {
    if 'A' <= c <= 'Z' {
        ((c as u32 + 32) as u8) as char
    } else {
        c
    }
}

/// `s` with its ASCII capitals made small.
pub open spec fn lower(s: Seq<char>) -> Seq<char> {
    Seq::new(s.len(), |i: int| lower_char(s[i]))
}

/// The level that a name denotes, in any mix of cases.
pub open spec fn level_of(s: Seq<char>) -> Option<Level> {
    let l = lower(s);
    if l == "error"@ {
        Some(Level::Error)
    } else if l == "warn"@ || l == "warning"@ {
        Some(Level::Warn)
    } else if l == "info"@ {
        Some(Level::Info)
    } else if l == "debug"@ {
        Some(Level::Debug)
    } else if l == "trace"@ {
        Some(Level::Trace)
    } else {
        None
    }
}

fn lower_of(c: char) -> (r: char)
    ensures
        r == lower_char(c),
{
    if 'A' <= c && c <= 'Z' {
        (c as u8 + 32) as char
    } else {
        c
    }
}

fn matches_lower(s: &Vec<char>, word: &str) -> (r: bool)
    ensures
        r == (lower(s@) == word@),
{
    let w: Vec<char> = to_chars(word);
    if s.len() != w.len() {
        return false;
    }
    let mut i: usize = 0;
    while i < s.len()
        invariant
            i <= s@.len() == w@.len(),
            w@ == word@,
            forall|k: int| 0 <= k < i ==> lower_char(#[trigger] s@[k]) == w@[k],
        decreases s@.len() - i,
    {
        if lower_of(s[i]) != w[i] {
            assert(lower(s@)[i as int] != word@[i as int]);
            return false;
        }
        i += 1;
    }
    assert(lower(s@) =~= word@);
    true
}

impl Level {
    /// The name of the level.
    pub fn as_str(self) -> (r: &'static str)
        ensures
            r@ == level_name(self),
    {
        match self {
            Level::Error => "ERROR",
            Level::Warn => "WARN",
            Level::Info => "INFO",
            Level::Debug => "DEBUG",
            Level::Trace => "TRACE",
        }
    }

    /// The level that `s` denotes.
    pub fn parse(s: &str) -> (r: Option<Level>)
        ensures
            r == level_of(s@),
    {
        let v: Vec<char> = to_chars(s);
        if matches_lower(&v, "error") {
            Some(Level::Error)
        } else if matches_lower(&v, "warn") || matches_lower(&v, "warning") {
            Some(Level::Warn)
        } else if matches_lower(&v, "info") {
            Some(Level::Info)
        } else if matches_lower(&v, "debug") {
            Some(Level::Debug)
        } else if matches_lower(&v, "trace") {
            Some(Level::Trace)
        } else {
            None
        }
    }

    fn rank_of(self) -> (r: u8)
        ensures
            r == rank(self),
    {
        match self {
            Level::Error => 0,
            Level::Warn => 1,
            Level::Info => 2,
            Level::Debug => 3,
            Level::Trace => 4,
        }
    }
}

/// The least grave level that is logged: what `setting` denotes, or `Info`.
pub fn max_level(setting: Option<&str>) -> (r: Level)
    ensures
        r == (match setting {
            Some(s) => match level_of(s@) {
                Some(l) => l,
                None => Level::Info,
            },
            None => Level::Info,
        }),
{
    match setting {
        Some(s) => match Level::parse(s) {
            Some(l) => l,
            None => Level::Info,
        },
        None => Level::Info,
    }
}

/// Whether messages of `level` are logged when `max` is the least grave level
/// that is.
pub fn enabled(level: Level, max: Level) -> (r: bool)
    ensures
        r == (rank(level) <= rank(max)),
{
    level.rank_of() <= max.rank_of()
}

/// `s` with blanks in front, up to `width` characters.
pub open spec fn pad_left(s: Seq<char>, width: nat, blank: char) -> Seq<char> {
    if s.len() >= width {
        s
    } else {
        Seq::new((width - s.len()) as nat, |i: int| blank) + s
    }
}

/// `s` with blanks behind, up to `width` characters.
pub open spec fn pad_right(s: Seq<char>, width: nat) -> Seq<char> {
    if s.len() >= width {
        s
    } else {
        s + Seq::new((width - s.len()) as nat, |i: int| ' ')
    }
}

/// A log line.
pub open spec fn line_text(level: Level, secs: u64, millis: u32, target: Seq<char>, message: Seq<char>) -> Seq<char> {
    "[hyperbug] "@ + pad_left(dec(secs as nat), 6, ' ') + "."@ + pad_left(dec(millis as nat), 3, '0') + " "@
        + pad_right(level_name(level), 5) + " "@ + target + ": "@ + message
}

fn push_repeat(out: &mut String, unit: &str, n: usize)
    requires
        unit@.len() == 1,
    ensures
        final(out)@ == old(out)@ + Seq::new(n as nat, |i: int| unit@[0]),
{
    let mut i: usize = 0;
    let ghost start = out@;
    assert(out@ =~= start + Seq::new(0, |i: int| unit@[0]));
    while i < n
        invariant
            i <= n,
            unit@.len() == 1,
            out@ == start + Seq::new(i as nat, |i: int| unit@[0]),
        decreases n - i,
    {
        out.append(unit);
        i += 1;
        assert(out@ =~= start + Seq::new(i as nat, |i: int| unit@[0]));
    }
}

fn push_padded(out: &mut String, s: &str, width: usize, unit: &str)
    requires
        unit@.len() == 1,
    ensures
        final(out)@ == old(out)@ + pad_left(s@, width as nat, unit@[0]),
{
    let n: usize = s.unicode_len();
    if n < width {
        push_repeat(out, unit, width - n);
    }
    let ghost mid = out@;
    out.append(s);
    assert(out@ =~= old(out)@ + pad_left(s@, width as nat, unit@[0]));
}

/// The line for a message that came `secs` seconds and `millis` milliseconds
/// after the start.
pub fn log_line(level: Level, secs: u64, millis: u32, target: &str, message: &str) -> (r: String)
    ensures
        r@ == line_text(level, secs, millis, target@, message@),
{
    proof {
        reveal_strlit(" ");
        reveal_strlit("0");
    }
    let mut out = "[hyperbug] ".to_owned();
    let s = dec_string(secs);
    push_padded(&mut out, s.as_str(), 6, " ");
    out.append(".");
    let m = dec_string(millis as u64);
    push_padded(&mut out, m.as_str(), 3, "0");
    out.append(" ");
    let name = level.as_str();
    let ghost before = out@;
    out.append(name);
    let n: usize = name.unicode_len();
    if n < 5 {
        push_repeat(&mut out, " ", 5 - n);
    }
    assert(out@ =~= before + pad_right(name@, 5));
    out.append(" ");
    out.append(target);
    out.append(": ");
    out.append(message);
    out
}

/// A flag that fires once.
pub struct OnceFlag {
    fired: bool,
}

impl View for OnceFlag {
    type V = bool;

    closed spec fn view(&self) -> bool {
        self.fired
    }
}

impl OnceFlag {
    /// A flag that has not fired.
    pub fn new() -> (r: Self)
        ensures
            !r@,
    {
        OnceFlag { fired: false }
    }

    /// Whether this is the first call.
    pub fn take(&mut self) -> (r: bool)
        ensures
            r == !old(self)@,
            final(self)@,
    {
        let first = !self.fired;
        self.fired = true;
        first
    }
}

/// The levels are in order of gravity, no two alike, and a level's own name, in
/// any mix of cases, denotes it.
pub proof fn law_levels(l: Level, m: Level, s: Seq<char>)
    ensures
        rank(Level::Error) < rank(Level::Warn) < rank(Level::Info) < rank(Level::Debug) < rank(Level::Trace),
        rank(l) == rank(m) ==> l == m,
        lower(s) == lower(level_name(l)) ==> level_of(s) == Some(l),
        lower(s) == lower("WARNING"@) ==> level_of(s) == Some(Level::Warn),
        level_of(s) == Some(l) ==> lower(s) == lower(level_name(l)) || lower(s) == "warning"@,
{
    reveal_strlit("ERROR");
    reveal_strlit("WARN");
    reveal_strlit("WARNING");
    reveal_strlit("INFO");
    reveal_strlit("DEBUG");
    reveal_strlit("TRACE");
    reveal_strlit("error");
    reveal_strlit("warn");
    reveal_strlit("warning");
    reveal_strlit("info");
    reveal_strlit("debug");
    reveal_strlit("trace");
    assert(lower("ERROR"@) =~= "error"@);
    assert(lower("WARN"@) =~= "warn"@);
    assert(lower("WARNING"@) =~= "warning"@);
    assert(lower("INFO"@) =~= "info"@);
    assert(lower("DEBUG"@) =~= "debug"@);
    assert(lower("TRACE"@) =~= "trace"@);
    assert("error"@[0] == 'e' && "warn"@[0] == 'w' && "info"@[0] == 'i' && "debug"@[0] == 'd' && "trace"@[0] == 't'
        && "warning"@[0] == 'w');
    assert("warn"@.len() == 4 && "warning"@.len() == 7);
}

/// Small letters are made of the ASCII capitals and of nothing else, each of
/// its own.
pub proof fn law_lower_case(s: Seq<char>, i: int)
    requires
        0 <= i < s.len(),
    ensures
        lower(s).len() == s.len(),
        0x41 <= s[i] as u32 <= 0x5a ==> lower(s)[i] as u32 == s[i] as u32 + 32,
        !(0x41 <= s[i] as u32 <= 0x5a) ==> lower(s)[i] == s[i],
{
}

/// Padding only fills up to the width, on the one side, and keeps the text.
pub proof fn law_padding(s: Seq<char>, width: nat, blank: char, k: int)
    ensures
        ({
            let l = pad_left(s, width, blank);
            let r = pad_right(s, width);
            let n = if s.len() < width { (width - s.len()) as int } else { 0int };
            &&& l.len() == n + s.len()
            &&& r.len() == n + s.len()
            &&& l.skip(n) == s
            &&& r.take(s.len() as int) == s
            &&& 0 <= k < n ==> l[k] == blank && r[s.len() + k] == ' '
        }),
{
    let n = if s.len() < width { (width - s.len()) as int } else { 0int };
    assert(pad_left(s, width, blank).skip(n) =~= s);
    assert(pad_right(s, width).take(s.len() as int) =~= s);
}

/// A log line begins with the program's name, then has the seconds in six
/// places, three of milliseconds, the level in five, where it comes from, and
/// the message, all of it and last.
pub proof fn law_log_lines(level: Level, secs: u64, millis: u32, target: Seq<char>, message: Seq<char>)
    requires
        secs < 1_000_000,
        millis < 1000,
    ensures
        ({
            let t = line_text(level, secs, millis, target, message);
            &&& t.take(11) == "[hyperbug] "@
            &&& t.subrange(11, 17) == pad_left(dec(secs as nat), 6, ' ')
            &&& t[17] == '.'
            &&& t.subrange(18, 21) == pad_left(dec(millis as nat), 3, '0')
            &&& t[21] == ' '
            &&& t.subrange(22, 27) == pad_right(level_name(level), 5)
            &&& t[27] == ' '
            &&& t.skip(28) == target + ": "@ + message
        }),
{
    reveal_strlit("[hyperbug] ");
    reveal_strlit(".");
    reveal_strlit(" ");
    reveal_strlit("ERROR");
    reveal_strlit("WARN");
    reveal_strlit("INFO");
    reveal_strlit("DEBUG");
    reveal_strlit("TRACE");
    lemma_short_numeral(secs as nat, 6);
    lemma_short_numeral(millis as nat, 3);
    let t = line_text(level, secs, millis, target, message);
    let a = pad_left(dec(secs as nat), 6, ' ');
    let b = pad_left(dec(millis as nat), 3, '0');
    let c = pad_right(level_name(level), 5);
    assert(a.len() == 6 && b.len() == 3 && c.len() == 5);
    assert(t.take(11) =~= "[hyperbug] "@);
    assert(t.subrange(11, 17) =~= a);
    assert(t.subrange(18, 21) =~= b);
    assert(t.subrange(22, 27) =~= c);
    assert(t.skip(28) =~= target + ": "@ + message);
}

proof fn lemma_short_numeral(n: nat, digits: nat)
    requires
        digits == 6 ==> n < 1_000_000,
        digits == 3 ==> n < 1000,
        digits == 3 || digits == 6,
    ensures
        dec(n).len() <= digits,
{
    reveal_with_fuel(crate::text::numeral, 7);
    assert(n >= 10 ==> n / 10 < n);
    let n1 = n / 10;
    let n2 = n1 / 10;
    let n3 = n2 / 10;
    let n4 = n3 / 10;
    let n5 = n4 / 10;
    assert(digits == 3 ==> n2 < 10);
    assert(digits == 6 ==> n5 < 10);
}

} // verus!
