//! The control socket's protocol: newline-terminated text, one command per
//! line, addresses and data in hexadecimal, so that a running guest can be
//! inspected and changed from a script or by hand.
//!
//! - `read_mem <hex_addr> <len>` gives `OK <hex_bytes>` or `ERR <message>`
//! - `write_mem <hex_addr> <hex_bytes>` gives `OK` or `ERR <message>`
//! - `regs` gives `OK rip=<hex> rsp=<hex> ...`, every register, or
//!   `ERR <message>`
//! - `write_regs <field>=<hex> [<field>=<hex> ...]` gives `OK` or
//!   `ERR <message>`. A register that is not named keeps its value. What
//!   `regs` prints can be handed straight back.
//! - `snapshot <path>` gives `OK` or `ERR <message>`
//! - `fork <path>`, `migrate <host:port>`, `reload_device <plugin>` and
//!   `reset_device <plugin>` concern the whole machine, and are read by
//!   `machine_command`
//! - anything else gives `ERR unknown command`
//!
//! Sockets, registers and snapshots are the caller's: a command that needs
//! one of them returns a `CommandOutcome` that says so.

use vstd::prelude::*;
use vstd::string::*;
use vstd::utf8::*;

pub use crate::hex::{from_hex, hex_value, write_hex};
use crate::hex::{hex_bytes, hex_text, is_hex_text};
use crate::bytes::{copy_range, push_slice, splice};
use crate::machine::PluginSelector;
use crate::mem::GuestMemory;
use crate::regs::Regs;
use crate::text::{cat2, cat4, cat5, dec, dec_string, digit_value, find_char, hex, hex0x, hex0x_string, hex_number, is_white, law_numeral_round_trip, lemma_words_push, lossy, lossy_text, parse_uint, quote, quoted, read_hex, read_uint, split_first, split_once, split_words, str_eq, views, words};

verus! {

/// The longest command line accepted, in bytes.
pub const MAX_LINE: usize = 1 << 20;

/// The most bytes that one `read_mem` returns.
pub const MAX_READ_LEN: u64 = 1 << 20;

/// How many connections may be attached at once.
pub const MAX_CLIENTS: usize = 8;

/// Whether one more connection may be attached beside `attached` others.
pub fn admits(attached: usize) -> (r: bool)
    ensures
        r == (attached < MAX_CLIENTS),
{
    attached < MAX_CLIENTS
}

/// The position of the first newline in `s`.
pub open spec fn newline_at(s: Seq<u8>) -> Option<nat>
    decreases s.len(),
{
    if s.len() == 0 {
        None
    } else if s[0] == 0x0a {
        Some(0)
    } else {
        match newline_at(s.skip(1)) {
            Some(i) => Some(i + 1),
            None => None,
        }
    }
}

/// What one connection has sent and is not yet answered.
pub struct Client {
    buf: Vec<u8>,
}

impl View for Client {
    type V = Seq<u8>;

    closed spec fn view(&self) -> Seq<u8> {
        self.buf@
    }
}

impl Client {
    /// A connection that has sent nothing.
    pub fn new() -> (r: Self)
        ensures
            r@.len() == 0,
    {
        Client { buf: Vec::new() }
    }

    /// Takes bytes that the connection sent. `false` if it has now sent more
    /// than any line may hold without being answered: it is to be dropped.
    pub fn receive(&mut self, chunk: &[u8]) -> (r: bool)
        ensures
            final(self)@ == old(self)@ + chunk@,
            r == (old(self)@.len() + chunk@.len() <= MAX_LINE),
    {
        push_slice(&mut self.buf, chunk);
        self.buf.len() <= MAX_LINE
    }

    /// Takes the next complete line off the front, without its newline.
    pub fn next_line(&mut self) -> (r: Option<String>)
        ensures
            match newline_at(old(self)@) {
                Some(i) => {
                    let line = old(self)@.take(i as int);
                    &&& r matches Some(s) && s@ == lossy_text(line) && (valid_utf8(line) ==> s@
                        == decode_utf8(line))
                    &&& final(self)@ == old(self)@.skip(i as int + 1)
                },
                None => r is None && final(self)@ == old(self)@,
            },
    {
        let n: usize = self.buf.len();
        let mut i: usize = 0;
        assert(self.buf@.skip(0) =~= self.buf@);
        while i < n
            invariant
                i <= n == self.buf@.len(),
                self.buf@ == old(self)@,
                match newline_at(self.buf@.skip(i as int)) {
                    Some(k) => newline_at(self.buf@) == Some((i + k) as nat),
                    None => newline_at(self.buf@) is None,
                },
            decreases n - i,
        {
            let ghost t = self.buf@.skip(i as int);
            assert(t[0] == self.buf@[i as int]);
            assert(t.skip(1) =~= self.buf@.skip(i as int + 1));
            if self.buf[i] == 0x0a {
                let line: Vec<u8> = copy_range(self.buf.as_slice(), 0, i);
                let rest: Vec<u8> = copy_range(self.buf.as_slice(), i + 1, n);
                assert(line@ =~= old(self)@.take(i as int));
                assert(rest@ =~= old(self)@.skip(i as int + 1));
                self.buf = rest;
                return Some(lossy(line.as_slice()));
            }
            i += 1;
        }
        None
    }
}

/// A line that is complete is the same line whatever arrives behind it: how
/// the bytes are cut into chunks does not matter.
pub proof fn law_chunks_do_not_matter(buf: Seq<u8>, more: Seq<u8>)
    requires
        newline_at(buf) is Some,
    ensures
        newline_at(buf + more) == newline_at(buf),
        newline_at(buf)->0 < buf.len(),
        (buf + more).take(newline_at(buf)->0 as int) == buf.take(newline_at(buf)->0 as int),
        (buf + more).skip(newline_at(buf)->0 as int + 1) == buf.skip(newline_at(buf)->0 as int + 1)
            + more,
    decreases buf.len(),
{
    if buf[0] != 0x0a {
        assert((buf + more).skip(1) =~= buf.skip(1) + more);
        law_chunks_do_not_matter(buf.skip(1), more);
    }
    let i = newline_at(buf)->0 as int;
    assert((buf + more).take(i) =~= buf.take(i));
    assert((buf + more).skip(i + 1) =~= buf.skip(i + 1) + more);
}

/// `s` without the `0x` in front, however often it is repeated.
pub open spec fn without_0x(s: Seq<char>) -> Seq<char>
    decreases s.len(),
{
    if s.len() >= 2 && s[0] == '0' && s[1] == 'x' {
        without_0x(s.skip(2))
    } else {
        s
    }
}

/// The address that `s` denotes, in hexadecimal with or without `0x`.
pub open spec fn address_of(s: Seq<char>) -> Option<u64> {
    hex_number(without_0x(s))
}

/// Reads an address, in hexadecimal with or without `0x`.
pub fn parse_addr(s: &str) -> (r: Option<u64>)
    ensures
        r == address_of(s@),
{
    let n: usize = s.unicode_len();
    let v: Vec<char> = crate::text::to_chars(s);
    let mut i: usize = 0;
    assert(s@.skip(0) =~= s@);
    while n - i >= 2 && v[i] == '0' && v[i + 1] == 'x'
        invariant
            i <= n == v@.len(),
            v@ == s@,
            without_0x(s@) == without_0x(s@.skip(i as int)),
        decreases n - i,
    {
        assert(s@.skip(i as int).skip(2) =~= s@.skip(i as int + 2));
        i += 2;
    }
    let t = s.substring_char(i, n);
    assert(t@ =~= s@.skip(i as int));
    read_hex(t)
}

/// `r` with the register `name` set to `v`, if there is such a register.
#[verifier::opaque]
pub open spec fn reg_set(r: Regs, name: Seq<char>, v: u64) -> Option<Regs> {
    if name == "rip"@ { Some(Regs { rip: v, ..r }) }
    else if name == "rsp"@ { Some(Regs { rsp: v, ..r }) }
    else if name == "rbp"@ { Some(Regs { rbp: v, ..r }) }
    else if name == "rflags"@ { Some(Regs { rflags: v, ..r }) }
    else if name == "rax"@ { Some(Regs { rax: v, ..r }) }
    else if name == "rbx"@ { Some(Regs { rbx: v, ..r }) }
    else if name == "rcx"@ { Some(Regs { rcx: v, ..r }) }
    else if name == "rdx"@ { Some(Regs { rdx: v, ..r }) }
    else if name == "rsi"@ { Some(Regs { rsi: v, ..r }) }
    else if name == "rdi"@ { Some(Regs { rdi: v, ..r }) }
    else if name == "r8"@ { Some(Regs { r8: v, ..r }) }
    else if name == "r9"@ { Some(Regs { r9: v, ..r }) }
    else if name == "r10"@ { Some(Regs { r10: v, ..r }) }
    else if name == "r11"@ { Some(Regs { r11: v, ..r }) }
    else if name == "r12"@ { Some(Regs { r12: v, ..r }) }
    else if name == "r13"@ { Some(Regs { r13: v, ..r }) }
    else if name == "r14"@ { Some(Regs { r14: v, ..r }) }
    else if name == "r15"@ { Some(Regs { r15: v, ..r }) }
    else { None }
}

/// Sets the register `name`. `false` if there is no such register.
fn set_reg(r: &mut Regs, name: &str, v: u64) -> (ok: bool)
    ensures
        match reg_set(*old(r), name@, v) {
            Some(n) => ok && *final(r) == n,
            None => !ok && *final(r) == *old(r),
        },
{
    proof {
        reveal(reg_set);
    }
    if str_eq(name, "rip") { r.rip = v; }
    else if str_eq(name, "rsp") { r.rsp = v; }
    else if str_eq(name, "rbp") { r.rbp = v; }
    else if str_eq(name, "rflags") { r.rflags = v; }
    else if str_eq(name, "rax") { r.rax = v; }
    else if str_eq(name, "rbx") { r.rbx = v; }
    else if str_eq(name, "rcx") { r.rcx = v; }
    else if str_eq(name, "rdx") { r.rdx = v; }
    else if str_eq(name, "rsi") { r.rsi = v; }
    else if str_eq(name, "rdi") { r.rdi = v; }
    else if str_eq(name, "r8") { r.r8 = v; }
    else if str_eq(name, "r9") { r.r9 = v; }
    else if str_eq(name, "r10") { r.r10 = v; }
    else if str_eq(name, "r11") { r.r11 = v; }
    else if str_eq(name, "r12") { r.r12 = v; }
    else if str_eq(name, "r13") { r.r13 = v; }
    else if str_eq(name, "r14") { r.r14 = v; }
    else if str_eq(name, "r15") { r.r15 = v; }
    else { return false; }
    true
}

/// `r` after one assignment, or why there is none.
pub open spec fn assigned(r: Regs, item: Seq<char>) -> Result<Regs, Seq<char>> {
    match split_first(item, '=') {
        None => Err("expected <field>=<hex>, got "@ + quoted(item)),
        Some((name, value)) => match address_of(value) {
            None => Err("bad hex value "@ + quoted(value) + " for register "@ + quoted(name)),
            Some(v) => match reg_set(r, name, v) {
                None => Err("unknown register "@ + quoted(name)),
                Some(n) => Ok(n),
            },
        },
    }
}

/// `r` after the assignments `items` up to the first that fails, and that
/// failure.
pub open spec fn all_assigned(r: Regs, items: Seq<Seq<char>>) -> (Regs, Option<Seq<char>>)
    decreases items.len(),
{
    if items.len() == 0 {
        (r, None)
    } else {
        let (before, e) = all_assigned(r, items.drop_last());
        if e is Some {
            (before, e)
        } else {
            match assigned(before, items.last()) {
                Ok(n) => (n, None),
                Err(m) => (before, Some(m)),
            }
        }
    }
}

/// `r` after `items`, of which there must be one, and what failed.
pub open spec fn reg_assignments(r: Regs, items: Seq<Seq<char>>) -> (Regs, Option<Seq<char>>) {
    if items.len() == 0 {
        (r, Some("usage: write_regs <field>=<hex> [<field>=<hex> ...]"@))
    } else {
        all_assigned(r, items)
    }
}

proof fn lemma_assign_stops(r: Regs, items: Seq<Seq<char>>, k: int)
    requires
        0 <= k <= items.len(),
        all_assigned(r, items.take(k)).1 is Some,
    ensures
        all_assigned(r, items) == all_assigned(r, items.take(k)),
    decreases items.len() - k,
{
    if k < items.len() {
        assert(items.take(k + 1).drop_last() =~= items.take(k));
        lemma_assign_stops(r, items, k + 1);
    } else {
        assert(items.take(k) =~= items);
    }
}

/// Applies `field=hex` assignments one after the other. The first that cannot
/// be applied ends it, with those before it in effect.
pub fn apply_reg_assignments(regs: &mut Regs, assignments: &[&str]) -> (r: Result<(), String>)
    ensures
        ({
            let (n, e) = reg_assignments(*old(regs), views(assignments@));
            &&& *final(regs) == n
            &&& match r {
                Ok(_) => e is None,
                Err(m) => e == Some(m@),
            }
        }),
{
    let ghost items = views(assignments@);
    if assignments.len() == 0 {
        return Err("usage: write_regs <field>=<hex> [<field>=<hex> ...]".to_owned());
    }
    let mut i: usize = 0;
    assert(items.take(0) =~= seq![]);
    while i < assignments.len()
        invariant
            i <= assignments@.len(),
            items == views(assignments@),
            all_assigned(*old(regs), items.take(i as int)) == (*regs, None::<Seq<char>>),
        decreases assignments@.len() - i,
    {
        let item = assignments[i];
        proof {
            assert(items.take(i as int + 1).drop_last() =~= items.take(i as int));
            assert(items.take(i as int + 1).last() == item@);
            if all_assigned(*old(regs), items.take(i as int + 1)).1 is Some {
                lemma_assign_stops(*old(regs), items, i as int + 1);
            }
        }
        let (name, value) = match split_once(item, '=') {
            Some(p) => p,
            None => {
                let q = quote(item);
                return Err(cat2("expected <field>=<hex>, got ", q.as_str()));
            },
        };
        let parsed: u64 = match parse_addr(value) {
            Some(v) => v,
            None => {
                let q = quote(value);
                let n = quote(name);
                return Err(cat4("bad hex value ", q.as_str(), " for register ", n.as_str()));
            },
        };
        if !set_reg(regs, name, parsed) {
            let n = quote(name);
            return Err(cat2("unknown register ", n.as_str()));
        }
        i += 1;
    }
    assert(items.take(i as int) =~= items);
    Ok(())
}

/// `acc` with one more register: a space, its name, `=` and its value.
pub open spec fn reg_field(acc: Seq<char>, name: Seq<char>, v: u64) -> Seq<char> {
    acc + seq![' '] + (name + seq!['='] + hex0x(v as nat))
}

/// The reply to `regs`.
pub open spec fn regs_text(r: Regs) -> Seq<char> {
    let t = "OK"@;
    let t = reg_field(t, "rip"@, r.rip);
    let t = reg_field(t, "rsp"@, r.rsp);
    let t = reg_field(t, "rbp"@, r.rbp);
    let t = reg_field(t, "rflags"@, r.rflags);
    let t = reg_field(t, "rax"@, r.rax);
    let t = reg_field(t, "rbx"@, r.rbx);
    let t = reg_field(t, "rcx"@, r.rcx);
    let t = reg_field(t, "rdx"@, r.rdx);
    let t = reg_field(t, "rsi"@, r.rsi);
    let t = reg_field(t, "rdi"@, r.rdi);
    let t = reg_field(t, "r8"@, r.r8);
    let t = reg_field(t, "r9"@, r.r9);
    let t = reg_field(t, "r10"@, r.r10);
    let t = reg_field(t, "r11"@, r.r11);
    let t = reg_field(t, "r12"@, r.r12);
    let t = reg_field(t, "r13"@, r.r13);
    let t = reg_field(t, "r14"@, r.r14);
    let t = reg_field(t, "r15"@, r.r15);
    t
}

fn push_reg(out: &mut String, name: &str, v: u64)
    ensures
        final(out)@ == reg_field(old(out)@, name@, v),
{
    proof {
        reveal_strlit(" ");
        reveal_strlit("=");
        assert(" "@ =~= seq![' ']);
        assert("="@ =~= seq!['=']);
    }
    out.append(" ");
    out.append(name);
    out.append("=");
    let h = hex0x_string(v);
    out.append(h.as_str());
    assert(out@ =~= reg_field(old(out)@, name@, v));
}

fn regs_reply(r: &Regs) -> (s: String)
    ensures
        s@ == regs_text(*r),
{
    let mut out = "OK".to_owned();
    push_reg(&mut out, "rip", r.rip);
    push_reg(&mut out, "rsp", r.rsp);
    push_reg(&mut out, "rbp", r.rbp);
    push_reg(&mut out, "rflags", r.rflags);
    push_reg(&mut out, "rax", r.rax);
    push_reg(&mut out, "rbx", r.rbx);
    push_reg(&mut out, "rcx", r.rcx);
    push_reg(&mut out, "rdx", r.rdx);
    push_reg(&mut out, "rsi", r.rsi);
    push_reg(&mut out, "rdi", r.rdi);
    push_reg(&mut out, "r8", r.r8);
    push_reg(&mut out, "r9", r.r9);
    push_reg(&mut out, "r10", r.r10);
    push_reg(&mut out, "r11", r.r11);
    push_reg(&mut out, "r12", r.r12);
    push_reg(&mut out, "r13", r.r13);
    push_reg(&mut out, "r14", r.r14);
    push_reg(&mut out, "r15", r.r15);
    out
}

/// What a command comes to.
#[derive(Debug)]
pub enum CommandOutcome {
    /// Send this reply.
    Reply(String),
    /// Set these registers, then send `set_regs_reply` of the outcome.
    SetRegs(Regs),
    /// Save the machine to this path, then send `snapshot_reply` of the
    /// outcome.
    Snapshot(String),
}

/// What an outcome holds.
pub enum OutcomeView {
    Reply(Seq<char>),
    SetRegs(Regs),
    Snapshot(Seq<char>),
}

impl View for CommandOutcome {
    type V = OutcomeView;

    open spec fn view(&self) -> OutcomeView {
        match *self {
            CommandOutcome::Reply(s) => OutcomeView::Reply(s@),
            CommandOutcome::SetRegs(r) => OutcomeView::SetRegs(r),
            CommandOutcome::Snapshot(p) => OutcomeView::Snapshot(p@),
        }
    }
}

/// The reply to `read_mem` with the arguments `args`.
pub open spec fn read_mem_reply(mem: Seq<u8>, args: Seq<Seq<char>>) -> Seq<char> {
    if args.len() < 2 {
        "ERR usage: read_mem <hex_addr> <len>"@
    } else {
        match (address_of(args[0]), parse_uint(args[1], 10, u64::MAX as nat)) {
            (Some(addr), Ok(len)) => if len > MAX_READ_LEN {
                "ERR read_mem length "@ + dec(len) + " exceeds the 1048576-byte limit"@
            } else if addr + len > mem.len() {
                "ERR read_mem("@ + hex0x(addr as nat) + ", "@ + dec(len) + ") is out of bounds"@
            } else {
                "OK "@ + hex_text(mem.subrange(addr as int, addr + len))
            },
            _ => "ERR bad address or length"@,
        }
    }
}

/// Memory and the reply after `write_mem` with the arguments `args`.
pub open spec fn write_mem_effect(mem: Seq<u8>, args: Seq<Seq<char>>) -> (Seq<u8>, Seq<char>) {
    if args.len() < 2 {
        (mem, "ERR usage: write_mem <hex_addr> <hex_bytes>"@)
    } else {
        match address_of(args[0]) {
            None => (mem, "ERR bad address"@),
            Some(addr) => if !is_hex_text(args[1]) {
                (mem, "ERR bad hex data"@)
            } else {
                let data = hex_bytes(args[1]);
                if addr + data.len() > mem.len() {
                    (
                        mem,
                        "ERR write_mem("@ + hex0x(addr as nat) + ", "@ + dec(data.len())
                            + " bytes) is out of bounds"@,
                    )
                } else {
                    (splice(mem, addr as int, data), "OK"@)
                }
            },
        }
    }
}

/// Memory and the outcome after a command line. `regs` are the registers, or
/// why they could not be read.
pub open spec fn command_effect(line: Seq<char>, mem: Seq<u8>, regs: Result<Regs, Seq<char>>) -> (
    Seq<u8>,
    OutcomeView,
) {
    let w = words(line);
    if w.len() == 0 {
        (mem, OutcomeView::Reply("ERR unknown command"@))
    } else {
        let args = w.skip(1);
        if w[0] == "read_mem"@ {
            (mem, OutcomeView::Reply(read_mem_reply(mem, args)))
        } else if w[0] == "write_mem"@ {
            let (m, reply) = write_mem_effect(mem, args);
            (m, OutcomeView::Reply(reply))
        } else if w[0] == "regs"@ {
            match regs {
                Ok(r) => (mem, OutcomeView::Reply(regs_text(r))),
                Err(e) => (mem, OutcomeView::Reply("ERR KVM_GET_REGS failed: "@ + e)),
            }
        } else if w[0] == "write_regs"@ {
            match regs {
                Ok(r) => match reg_assignments(r, args) {
                    (n, None) => (mem, OutcomeView::SetRegs(n)),
                    (n, Some(e)) => (mem, OutcomeView::Reply("ERR "@ + e)),
                },
                Err(e) => (mem, OutcomeView::Reply("ERR KVM_GET_REGS failed: "@ + e)),
            }
        } else if w[0] == "snapshot"@ {
            if args.len() == 0 {
                (mem, OutcomeView::Reply("ERR usage: snapshot <path>"@))
            } else {
                (mem, OutcomeView::Snapshot(args[0]))
            }
        } else {
            (mem, OutcomeView::Reply("ERR unknown command"@))
        }
    }
}

fn reply(s: &str) -> (r: CommandOutcome)
    ensures
        r@ == OutcomeView::Reply(s@),
{
    CommandOutcome::Reply(s.to_owned())
}

fn read_mem(mem: &GuestMemory, parts: &Vec<&str>) -> (r: CommandOutcome)
    requires
        parts@.len() > 0,
    ensures
        r@ == OutcomeView::Reply(read_mem_reply(mem@, views(parts@).skip(1))),
{
    let ghost args = views(parts@).skip(1);
    if parts.len() < 3 {
        return reply("ERR usage: read_mem <hex_addr> <len>");
    }
    assert(args[0] == parts@[1]@ && args[1] == parts@[2]@);
    let (addr, len) = match (parse_addr(parts[1]), read_uint(parts[2], 10, u64::MAX)) {
        (Some(a), Ok(l)) => (a, l),
        _ => {
            return reply("ERR bad address or length");
        },
    };
    let n = dec_string(len);
    if len > MAX_READ_LEN {
        let m = crate::text::cat3("ERR read_mem length ", n.as_str(), " exceeds the 1048576-byte limit");
        return CommandOutcome::Reply(m);
    }
    let data: Vec<u8> = match mem.read_vec(addr, len) {
        Some(d) => d,
        None => {
            let a = hex0x_string(addr);
            let m = cat5("ERR read_mem(", a.as_str(), ", ", n.as_str(), ") is out of bounds");
            return CommandOutcome::Reply(m);
        },
    };
    let mut out = "OK ".to_owned();
    write_hex(data.as_slice(), &mut out);
    CommandOutcome::Reply(out)
}

fn write_mem(mem: &mut GuestMemory, parts: &Vec<&str>) -> (r: CommandOutcome)
    requires
        parts@.len() > 0,
    ensures
        ({
            let (m, s) = write_mem_effect(old(mem)@, views(parts@).skip(1));
            final(mem)@ == m && r@ == OutcomeView::Reply(s)
        }),
{
    let ghost args = views(parts@).skip(1);
    if parts.len() < 3 {
        return reply("ERR usage: write_mem <hex_addr> <hex_bytes>");
    }
    assert(args[0] == parts@[1]@ && args[1] == parts@[2]@);
    let addr: u64 = match parse_addr(parts[1]) {
        Some(a) => a,
        None => {
            return reply("ERR bad address");
        },
    };
    let data: Vec<u8> = match from_hex(parts[2]) {
        Some(d) => d,
        None => {
            return reply("ERR bad hex data");
        },
    };
    if !mem.write_checked(addr, data.as_slice()) {
        let a = hex0x_string(addr);
        let n = dec_string(data.len() as u64);
        let m = cat5("ERR write_mem(", a.as_str(), ", ", n.as_str(), " bytes) is out of bounds");
        return CommandOutcome::Reply(m);
    }
    reply("OK")
}

/// Handles one command line. `regs` are the registers of the CPU, or why they
/// could not be read.
pub fn handle_command(line: &str, mem: &mut GuestMemory, regs: Result<Regs, String>) -> (r: CommandOutcome)
    ensures
        ({
            let known = match regs {
                Ok(x) => Ok::<Regs, Seq<char>>(x),
                Err(e) => Err(e@),
            };
            (final(mem)@, r@) == command_effect(line@, old(mem)@, known)
        }),
{
    let parts: Vec<&str> = split_words(line);
    if parts.len() == 0 {
        return reply("ERR unknown command");
    }
    let ghost args = views(parts@).skip(1);
    let cmd = parts[0];
    assert(words(line@)[0] == cmd@);
    if str_eq(cmd, "read_mem") {
        read_mem(mem, &parts)
    } else if str_eq(cmd, "write_mem") {
        write_mem(mem, &parts)
    } else if str_eq(cmd, "regs") {
        match regs {
            Ok(r) => CommandOutcome::Reply(regs_reply(&r)),
            Err(e) => CommandOutcome::Reply(cat2("ERR KVM_GET_REGS failed: ", e.as_str())),
        }
    } else if str_eq(cmd, "write_regs") {
        let mut r: Regs = match regs {
            Ok(r) => r,
            Err(e) => {
                return CommandOutcome::Reply(cat2("ERR KVM_GET_REGS failed: ", e.as_str()));
            },
        };
        let items = vstd::slice::slice_subrange(parts.as_slice(), 1, parts.len());
        assert(views(items@) =~= args);
        match apply_reg_assignments(&mut r, items) {
            Ok(_) => CommandOutcome::SetRegs(r),
            Err(m) => CommandOutcome::Reply(cat2("ERR ", m.as_str())),
        }
    } else if str_eq(cmd, "snapshot") {
        if parts.len() < 2 {
            return reply("ERR usage: snapshot <path>");
        }
        assert(args[0] == parts@[1]@);
        CommandOutcome::Snapshot(parts[1].to_owned())
    } else {
        reply("ERR unknown command")
    }
}

/// A command that concerns the whole machine, and that is served before any
/// other.
#[derive(Debug)]
pub enum MachineCommand {
    /// Clone the guest, with a control socket at this path.
    Fork(String),
    /// Move the guest to the process that listens here.
    Migrate(String),
    /// Load a plugin's file again.
    Reload(PluginSelector),
    /// Return a plugin to its initial state.
    Reset(PluginSelector),
    /// Send this reply: the command is not complete.
    Usage(String),
}

/// What a command for the machine holds.
pub enum MachineCommandView {
    Fork(Seq<char>),
    Migrate(Seq<char>),
    Reload(PluginSelector),
    Reset(PluginSelector),
    Usage(Seq<char>),
}

impl View for MachineCommand {
    type V = MachineCommandView;

    open spec fn view(&self) -> MachineCommandView {
        match *self {
            MachineCommand::Fork(p) => MachineCommandView::Fork(p@),
            MachineCommand::Migrate(a) => MachineCommandView::Migrate(a@),
            MachineCommand::Reload(s) => MachineCommandView::Reload(s),
            MachineCommand::Reset(s) => MachineCommandView::Reset(s),
            MachineCommand::Usage(u) => MachineCommandView::Usage(u@),
        }
    }
}

/// The plugin that the words behind a command name: `mmio` and a base address,
/// or `pci` and a device number.
pub open spec fn selector_of(w: Seq<Seq<char>>) -> Option<PluginSelector> {
    if w.len() != 3 {
        None
    } else if w[1] == "mmio"@ {
        match address_of(w[2]) {
            Some(base) => Some(PluginSelector::Mmio(base)),
            None => None,
        }
    } else if w[1] == "pci"@ {
        match parse_uint(w[2], 10, u8::MAX as nat) {
            Ok(n) => Some(PluginSelector::Pci(n as u8)),
            Err(_) => None,
        }
    } else {
        None
    }
}

/// The command for the machine that a line is, if it is one.
pub open spec fn machine_command_of(line: Seq<char>) -> Option<MachineCommandView> {
    let w = words(line);
    if w.len() == 0 {
        None
    } else if w[0] == "fork"@ {
        Some(
            if w.len() < 2 {
                MachineCommandView::Usage("ERR usage: fork <new-control-socket-path>"@)
            } else {
                MachineCommandView::Fork(w[1])
            },
        )
    } else if w[0] == "migrate"@ {
        Some(
            if w.len() < 2 {
                MachineCommandView::Usage("ERR usage: migrate <host:port>"@)
            } else {
                MachineCommandView::Migrate(w[1])
            },
        )
    } else if w[0] == "reload_device"@ {
        Some(
            match selector_of(w) {
                Some(s) => MachineCommandView::Reload(s),
                None => MachineCommandView::Usage("ERR usage: reload_device mmio <hex_addr> | pci <number>"@),
            },
        )
    } else if w[0] == "reset_device"@ {
        Some(
            match selector_of(w) {
                Some(s) => MachineCommandView::Reset(s),
                None => MachineCommandView::Usage("ERR usage: reset_device mmio <hex_addr> | pci <number>"@),
            },
        )
    } else {
        None
    }
}

fn selector(parts: &Vec<&str>) -> (r: Option<PluginSelector>)
    ensures
        r == selector_of(views(parts@)),
{
    if parts.len() != 3 {
        return None;
    }
    let ghost w = views(parts@);
    assert(w[1] == parts@[1]@ && w[2] == parts@[2]@);
    if str_eq(parts[1], "mmio") {
        match parse_addr(parts[2]) {
            Some(base) => Some(PluginSelector::Mmio(base)),
            None => None,
        }
    } else if str_eq(parts[1], "pci") {
        match read_uint(parts[2], 10, u8::MAX as u64) {
            Ok(n) => Some(PluginSelector::Pci(n as u8)),
            Err(_) => None,
        }
    } else {
        None
    }
}

/// Reads a command for the machine. None for any other line, which
/// `handle_command` serves.
pub fn machine_command(line: &str) -> (r: Option<MachineCommand>)
    ensures
        match (r, machine_command_of(line@)) {
            (Some(c), Some(v)) => c@ == v,
            (None, None) => true,
            _ => false,
        },
{
    let parts: Vec<&str> = split_words(line);
    if parts.len() == 0 {
        return None;
    }
    let ghost w = words(line@);
    let cmd = parts[0];
    assert(w[0] == cmd@);
    assert(parts@.len() >= 2 ==> w[1] == parts@[1]@);
    if str_eq(cmd, "fork") {
        if parts.len() < 2 {
            Some(MachineCommand::Usage("ERR usage: fork <new-control-socket-path>".to_owned()))
        } else {
            Some(MachineCommand::Fork(parts[1].to_owned()))
        }
    } else if str_eq(cmd, "migrate") {
        if parts.len() < 2 {
            Some(MachineCommand::Usage("ERR usage: migrate <host:port>".to_owned()))
        } else {
            Some(MachineCommand::Migrate(parts[1].to_owned()))
        }
    } else if str_eq(cmd, "reload_device") {
        match selector(&parts) {
            Some(s) => Some(MachineCommand::Reload(s)),
            None => Some(
                MachineCommand::Usage("ERR usage: reload_device mmio <hex_addr> | pci <number>".to_owned()),
            ),
        }
    } else if str_eq(cmd, "reset_device") {
        match selector(&parts) {
            Some(s) => Some(MachineCommand::Reset(s)),
            None => Some(
                MachineCommand::Usage("ERR usage: reset_device mmio <hex_addr> | pci <number>".to_owned()),
            ),
        }
    } else {
        None
    }
}

/// The reply to `write_regs` once the registers were set, or could not be.
pub fn set_regs_reply(outcome: Result<(), String>) -> (r: String)
    ensures
        r@ == (match outcome {
            Ok(_) => "OK"@,
            Err(e) => "ERR KVM_SET_REGS failed: "@ + e@,
        }),
{
    match outcome {
        Ok(_) => "OK".to_owned(),
        Err(e) => cat2("ERR KVM_SET_REGS failed: ", e.as_str()),
    }
}

/// The reply to `snapshot` once the machine was saved, or could not be.
pub fn snapshot_reply(outcome: Result<(), String>) -> (r: String)
    ensures
        r@ == (match outcome {
            Ok(_) => "OK"@,
            Err(e) => "ERR "@ + e@,
        }),
{
    match outcome {
        Ok(_) => "OK".to_owned(),
        Err(e) => cat2("ERR ", e.as_str()),
    }
}

proof fn lemma_find_char(a: Seq<char>, b: Seq<char>, c: char)
    requires
        !a.contains(c),
    ensures
        find_char(a + seq![c] + b, c) == Some(a.len()),
    decreases a.len(),
{
    let s = a + seq![c] + b;
    if a.len() > 0 {
        assert(s[0] == a[0]);
        assert(a.contains(a[0]));
        assert(s.skip(1) =~= a.skip(1) + seq![c] + b);
        assert forall|i: int| 0 <= i < a.skip(1).len() implies a.skip(1)[i] != c by {
            assert(a.skip(1)[i] == a[i + 1]);
        }
        lemma_find_char(a.skip(1), b, c);
    }
}

/// A number as `regs` prints it reads as that number.
pub proof fn law_address_round_trip(v: u64)
    ensures
        address_of(hex0x(v as nat)) == Some(v),
{
    reveal_strlit("0x");
    let h = hex(v as nat);
    law_numeral_round_trip(v as nat, 16, u64::MAX as nat);
    let s = hex0x(v as nat);
    assert(s[0] == '0' && s[1] == 'x');
    assert(s.skip(2) =~= h);
    if h.len() >= 2 {
        assert(digit_value(h[1], 16) is Some);
    }
    assert(without_0x(h) == h);
}

/// A name that can stand in an assignment.
spec fn plain_name(name: Seq<char>) -> bool {
    &&& name.len() > 0
    &&& forall|k: int| 0 <= k < name.len() ==> 'a' <= #[trigger] name[k] <= 'z' || '0' <= name[k] <= '9'
}

proof fn lemma_field(acc: Seq<char>, name: Seq<char>, v: u64, start: Regs, before: Regs)
    requires
        plain_name(name),
        words(acc).len() >= 1,
        all_assigned(start, words(acc).skip(1)) == (before, None::<Seq<char>>),
        reg_set(before, name, v) is Some,
    ensures
        words(reg_field(acc, name, v)).len() >= 2,
        all_assigned(start, words(reg_field(acc, name, v)).skip(1)) == (
            reg_set(before, name, v)->0,
            None::<Seq<char>>,
        ),
{
    let value = hex0x(v as nat);
    let item = name + seq!['='] + value;
    law_numeral_round_trip(v as nat, 16, u64::MAX as nat);
    reveal_strlit("0x");
    assert forall|k: int| 0 <= k < item.len() implies !is_white(#[trigger] item[k]) by {
        if k < name.len() {
            assert(item[k] == name[k]);
        } else if k > name.len() + 2 {
            assert(item[k] == hex(v as nat)[k - name.len() - 3]);
            assert(digit_value(hex(v as nat)[k - name.len() - 3], 16) is Some);
        }
    }
    lemma_words_push(acc, item);
    assert(words(reg_field(acc, name, v)) == words(acc).push(item));
    let items = words(acc).push(item).skip(1);
    assert(items.drop_last() =~= words(acc).skip(1));
    assert(items.last() == item);
    assert(!name.contains('='));
    lemma_find_char(name, value, '=');
    assert(item.take(name.len() as int) =~= name);
    assert(item.skip(name.len() as int + 1) =~= value);
    law_address_round_trip(v);
}

proof fn lemma_reg_names(b: Regs, v: u64)
    ensures
        plain_name("rip"@),
        plain_name("rsp"@),
        plain_name("rbp"@),
        plain_name("rflags"@),
        plain_name("rax"@),
        plain_name("rbx"@),
        plain_name("rcx"@),
        plain_name("rdx"@),
        plain_name("rsi"@),
        plain_name("rdi"@),
        plain_name("r8"@),
        plain_name("r9"@),
        plain_name("r10"@),
        plain_name("r11"@),
        plain_name("r12"@),
        plain_name("r13"@),
        plain_name("r14"@),
        plain_name("r15"@),
        reg_set(b, "rip"@, v) == Some(Regs { rip: v, ..b }),
        reg_set(b, "rsp"@, v) == Some(Regs { rsp: v, ..b }),
        reg_set(b, "rbp"@, v) == Some(Regs { rbp: v, ..b }),
        reg_set(b, "rflags"@, v) == Some(Regs { rflags: v, ..b }),
        reg_set(b, "rax"@, v) == Some(Regs { rax: v, ..b }),
        reg_set(b, "rbx"@, v) == Some(Regs { rbx: v, ..b }),
        reg_set(b, "rcx"@, v) == Some(Regs { rcx: v, ..b }),
        reg_set(b, "rdx"@, v) == Some(Regs { rdx: v, ..b }),
        reg_set(b, "rsi"@, v) == Some(Regs { rsi: v, ..b }),
        reg_set(b, "rdi"@, v) == Some(Regs { rdi: v, ..b }),
        reg_set(b, "r8"@, v) == Some(Regs { r8: v, ..b }),
        reg_set(b, "r9"@, v) == Some(Regs { r9: v, ..b }),
        reg_set(b, "r10"@, v) == Some(Regs { r10: v, ..b }),
        reg_set(b, "r11"@, v) == Some(Regs { r11: v, ..b }),
        reg_set(b, "r12"@, v) == Some(Regs { r12: v, ..b }),
        reg_set(b, "r13"@, v) == Some(Regs { r13: v, ..b }),
        reg_set(b, "r14"@, v) == Some(Regs { r14: v, ..b }),
        reg_set(b, "r15"@, v) == Some(Regs { r15: v, ..b }),
{
    reveal(reg_set);
    reveal_strlit("rip");
    reveal_strlit("rsp");
    reveal_strlit("rbp");
    reveal_strlit("rflags");
    reveal_strlit("rax");
    reveal_strlit("rbx");
    reveal_strlit("rcx");
    reveal_strlit("rdx");
    reveal_strlit("rsi");
    reveal_strlit("rdi");
    reveal_strlit("r8");
    reveal_strlit("r9");
    reveal_strlit("r10");
    reveal_strlit("r11");
    reveal_strlit("r12");
    reveal_strlit("r13");
    reveal_strlit("r14");
    reveal_strlit("r15");
    assert("rip"@.len() == 3 && "rip"@[0] == 'r' && "rip"@[1] == 'i' && "rip"@[2] == 'p');
    assert("rsp"@.len() == 3 && "rsp"@[0] == 'r' && "rsp"@[1] == 's' && "rsp"@[2] == 'p');
    assert("rbp"@.len() == 3 && "rbp"@[0] == 'r' && "rbp"@[1] == 'b' && "rbp"@[2] == 'p');
    assert("rflags"@.len() == 6 && "rflags"@[0] == 'r' && "rflags"@[1] == 'f' && "rflags"@[2] == 'l' && "rflags"@[3] == 'a' && "rflags"@[4] == 'g' && "rflags"@[5] == 's');
    assert("rax"@.len() == 3 && "rax"@[0] == 'r' && "rax"@[1] == 'a' && "rax"@[2] == 'x');
    assert("rbx"@.len() == 3 && "rbx"@[0] == 'r' && "rbx"@[1] == 'b' && "rbx"@[2] == 'x');
    assert("rcx"@.len() == 3 && "rcx"@[0] == 'r' && "rcx"@[1] == 'c' && "rcx"@[2] == 'x');
    assert("rdx"@.len() == 3 && "rdx"@[0] == 'r' && "rdx"@[1] == 'd' && "rdx"@[2] == 'x');
    assert("rsi"@.len() == 3 && "rsi"@[0] == 'r' && "rsi"@[1] == 's' && "rsi"@[2] == 'i');
    assert("rdi"@.len() == 3 && "rdi"@[0] == 'r' && "rdi"@[1] == 'd' && "rdi"@[2] == 'i');
    assert("r8"@.len() == 2 && "r8"@[0] == 'r' && "r8"@[1] == '8');
    assert("r9"@.len() == 2 && "r9"@[0] == 'r' && "r9"@[1] == '9');
    assert("r10"@.len() == 3 && "r10"@[0] == 'r' && "r10"@[1] == '1' && "r10"@[2] == '0');
    assert("r11"@.len() == 3 && "r11"@[0] == 'r' && "r11"@[1] == '1' && "r11"@[2] == '1');
    assert("r12"@.len() == 3 && "r12"@[0] == 'r' && "r12"@[1] == '1' && "r12"@[2] == '2');
    assert("r13"@.len() == 3 && "r13"@[0] == 'r' && "r13"@[1] == '1' && "r13"@[2] == '3');
    assert("r14"@.len() == 3 && "r14"@[0] == 'r' && "r14"@[1] == '1' && "r14"@[2] == '4');
    assert("r15"@.len() == 3 && "r15"@[0] == 'r' && "r15"@[1] == '1' && "r15"@[2] == '5');
}

/// What `regs` prints can be handed straight back: its fields, taken as the
/// assignments of `write_regs`, bring any registers to those that were
/// printed.
pub proof fn law_regs_handed_back(r: Regs, other: Regs)
    ensures
        reg_assignments(other, words(regs_text(r)).skip(1)) == (r, None::<Seq<char>>),
{
    let t = "OK"@;
    let n = other;
    assert(words(t).len() == 1 && words(t).skip(1) =~= seq![]) by {
        reveal_strlit("OK");
        reveal_with_fuel(words, 3);
        assert(t.drop_last().drop_last() =~= seq![]);
    }
    lemma_reg_names(n, r.rip);
    lemma_field(t, "rip"@, r.rip, other, n);
    let t = reg_field(t, "rip"@, r.rip);
    let n = Regs { rip: r.rip, ..n };
    lemma_reg_names(n, r.rsp);
    lemma_field(t, "rsp"@, r.rsp, other, n);
    let t = reg_field(t, "rsp"@, r.rsp);
    let n = Regs { rsp: r.rsp, ..n };
    lemma_reg_names(n, r.rbp);
    lemma_field(t, "rbp"@, r.rbp, other, n);
    let t = reg_field(t, "rbp"@, r.rbp);
    let n = Regs { rbp: r.rbp, ..n };
    lemma_reg_names(n, r.rflags);
    lemma_field(t, "rflags"@, r.rflags, other, n);
    let t = reg_field(t, "rflags"@, r.rflags);
    let n = Regs { rflags: r.rflags, ..n };
    lemma_reg_names(n, r.rax);
    lemma_field(t, "rax"@, r.rax, other, n);
    let t = reg_field(t, "rax"@, r.rax);
    let n = Regs { rax: r.rax, ..n };
    lemma_reg_names(n, r.rbx);
    lemma_field(t, "rbx"@, r.rbx, other, n);
    let t = reg_field(t, "rbx"@, r.rbx);
    let n = Regs { rbx: r.rbx, ..n };
    lemma_reg_names(n, r.rcx);
    lemma_field(t, "rcx"@, r.rcx, other, n);
    let t = reg_field(t, "rcx"@, r.rcx);
    let n = Regs { rcx: r.rcx, ..n };
    lemma_reg_names(n, r.rdx);
    lemma_field(t, "rdx"@, r.rdx, other, n);
    let t = reg_field(t, "rdx"@, r.rdx);
    let n = Regs { rdx: r.rdx, ..n };
    lemma_reg_names(n, r.rsi);
    lemma_field(t, "rsi"@, r.rsi, other, n);
    let t = reg_field(t, "rsi"@, r.rsi);
    let n = Regs { rsi: r.rsi, ..n };
    lemma_reg_names(n, r.rdi);
    lemma_field(t, "rdi"@, r.rdi, other, n);
    let t = reg_field(t, "rdi"@, r.rdi);
    let n = Regs { rdi: r.rdi, ..n };
    lemma_reg_names(n, r.r8);
    lemma_field(t, "r8"@, r.r8, other, n);
    let t = reg_field(t, "r8"@, r.r8);
    let n = Regs { r8: r.r8, ..n };
    lemma_reg_names(n, r.r9);
    lemma_field(t, "r9"@, r.r9, other, n);
    let t = reg_field(t, "r9"@, r.r9);
    let n = Regs { r9: r.r9, ..n };
    lemma_reg_names(n, r.r10);
    lemma_field(t, "r10"@, r.r10, other, n);
    let t = reg_field(t, "r10"@, r.r10);
    let n = Regs { r10: r.r10, ..n };
    lemma_reg_names(n, r.r11);
    lemma_field(t, "r11"@, r.r11, other, n);
    let t = reg_field(t, "r11"@, r.r11);
    let n = Regs { r11: r.r11, ..n };
    lemma_reg_names(n, r.r12);
    lemma_field(t, "r12"@, r.r12, other, n);
    let t = reg_field(t, "r12"@, r.r12);
    let n = Regs { r12: r.r12, ..n };
    lemma_reg_names(n, r.r13);
    lemma_field(t, "r13"@, r.r13, other, n);
    let t = reg_field(t, "r13"@, r.r13);
    let n = Regs { r13: r.r13, ..n };
    lemma_reg_names(n, r.r14);
    lemma_field(t, "r14"@, r.r14, other, n);
    let t = reg_field(t, "r14"@, r.r14);
    let n = Regs { r14: r.r14, ..n };
    lemma_reg_names(n, r.r15);
    lemma_field(t, "r15"@, r.r15, other, n);
    let t = reg_field(t, "r15"@, r.r15);
    let n = Regs { r15: r.r15, ..n };
    assert(n == r);
    assert(t == regs_text(r));
}

/// What `write_mem` wrote, `read_mem` gives back: with the address spelled the
/// same way and the number of bytes in decimal, for every write that fits and
/// that one reply can hold.
pub proof fn law_what_is_written_is_read(mem: Seq<u8>, address: Seq<char>, data: Seq<char>)
    requires
        address_of(address) is Some,
        is_hex_text(data),
        address_of(address)->0 + hex_bytes(data).len() <= mem.len(),
        hex_bytes(data).len() <= MAX_READ_LEN,
    ensures
        ({
            let bytes = hex_bytes(data);
            let (after, reply) = write_mem_effect(mem, seq![address, data]);
            &&& reply == "OK"@
            &&& after.len() == mem.len()
            &&& read_mem_reply(after, seq![address, dec(bytes.len())]) == "OK "@ + hex_text(bytes)
        }),
{
    let bytes = hex_bytes(data);
    let addr = address_of(address)->0 as int;
    crate::text::law_numeral_round_trip(bytes.len(), 10, u64::MAX as nat);
    let after = splice(mem, addr, bytes);
    assert(after.subrange(addr, addr + bytes.len()) =~= bytes);
    let args = seq![address, dec(bytes.len())];
    assert(args[0] == address && args[1] == dec(bytes.len()));
    let wargs = seq![address, data];
    assert(wargs[0] == address && wargs[1] == data);
}

/// A line ends at the first newline.
pub proof fn law_lines_end_at_newlines(s: Seq<u8>)
    ensures
        match newline_at(s) {
            Some(i) => i < s.len() && s[i as int] == '\n' as u8 && forall|k: int|
                0 <= k < i ==> #[trigger] s[k] != '\n' as u8,
            None => forall|k: int| 0 <= k < s.len() ==> #[trigger] s[k] != '\n' as u8,
        },
    decreases s.len(),
{
    if s.len() > 0 && s[0] != 0x0a {
        let t = s.skip(1);
        law_lines_end_at_newlines(t);
        match newline_at(t) {
            Some(i) => {
                assert forall|k: int| 0 <= k < i + 1 implies #[trigger] s[k] != '\n' as u8 by {
                    if k > 0 {
                        assert(t[k - 1] == s[k]);
                    }
                }
            },
            None => {
                assert forall|k: int| 0 <= k < s.len() implies #[trigger] s[k] != '\n' as u8 by {
                    if k > 0 {
                        assert(t[k - 1] == s[k]);
                    }
                }
            },
        }
    }
}

/// An address is a number in base sixteen, with or without `0x` in front.
pub proof fn law_addresses(v: u64)
    ensures
        address_of(hex(v as nat)) == Some(v),
        address_of(hex0x(v as nat)) == Some(v),
{
    law_address_round_trip(v);
    let h = hex(v as nat);
    law_numeral_round_trip(v as nat, 16, u64::MAX as nat);
    if h.len() >= 2 {
        assert(digit_value(h[1], 16) is Some);
    }
    assert(without_0x(h) == h);
}

/// Whether a text is one word.
pub open spec fn is_word(s: Seq<char>) -> bool {
    s.len() > 0 && forall|k: int| 0 <= k < s.len() ==> !is_white(#[trigger] s[k])
}

proof fn lemma_words_of(a: Seq<char>, b: Seq<char>, c: Seq<char>)
    requires
        is_word(a),
        is_word(b),
        is_word(c),
    ensures
        words(a) == seq![a],
        words(a + seq![' '] + b) == seq![a, b],
        words(a + seq![' '] + b + seq![' '] + c) == seq![a, b, c],
{
    crate::text::law_words(a, ' ', b);
    crate::text::law_words(b, ' ', a);
    crate::text::law_words(c, ' ', a);
    let ab = a + seq![' '] + b;
    assert(words(ab) =~= seq![a, b]);
    crate::text::law_words(ab, ' ', c);
    assert(words(ab + seq![' '] + c) =~= seq![a, b, c]);
}

proof fn lemma_numerals_are_words(n: nat)
    ensures
        is_word(hex(n)),
        is_word(hex0x(n)),
        is_word(dec(n)),
{
    law_numeral_round_trip(n, 16, n);
    law_numeral_round_trip(n, 10, n);
    reveal_strlit("0x");
    assert forall|k: int| 0 <= k < hex(n).len() implies !is_white(#[trigger] hex(n)[k]) by {
        assert(digit_value(hex(n)[k], 16) is Some);
    }
    assert forall|k: int| 0 <= k < dec(n).len() implies !is_white(#[trigger] dec(n)[k]) by {
        assert(digit_value(dec(n)[k], 10) is Some);
    }
    let s = hex0x(n);
    assert forall|k: int| 0 <= k < s.len() implies !is_white(#[trigger] s[k]) by {
        if k >= 2 {
            assert(s[k] == hex(n)[k - 2]);
        }
    }
}

proof fn lemma_command_names()
    ensures
        is_word("read_mem"@),
        is_word("write_mem"@),
        is_word("regs"@),
        is_word("write_regs"@),
        is_word("snapshot"@),
        is_word("fork"@),
        is_word("migrate"@),
        is_word("reload_device"@),
        is_word("reset_device"@),
        is_word("mmio"@),
        is_word("pci"@),
        "read_mem"@[0] == 'r' && "read_mem"@.len() == 8,
        "write_mem"@[0] == 'w' && "write_mem"@.len() == 9,
        "regs"@[0] == 'r' && "regs"@.len() == 4,
        "write_regs"@[0] == 'w' && "write_regs"@.len() == 10,
        "snapshot"@[0] == 's' && "snapshot"@.len() == 8,
        "fork"@[0] == 'f' && "fork"@.len() == 4,
        "migrate"@[0] == 'm' && "migrate"@.len() == 7,
        "reload_device"@[0] == 'r' && "reload_device"@.len() == 13,
        "reset_device"@[0] == 'r' && "reset_device"@.len() == 12,
        "mmio"@.len() == 4,
        "pci"@.len() == 3,
{
    reveal_strlit("read_mem");
    reveal_strlit("write_mem");
    reveal_strlit("regs");
    reveal_strlit("write_regs");
    reveal_strlit("snapshot");
    reveal_strlit("fork");
    reveal_strlit("migrate");
    reveal_strlit("reload_device");
    reveal_strlit("reset_device");
    reveal_strlit("mmio");
    reveal_strlit("pci");
}

/// `read_mem` answers with the bytes at the address that was asked for, as many
/// as were asked for, in hex, and changes nothing. More than 1 MiB, or more
/// than there is, is an error.
#[verifier::spinoff_prover]
pub proof fn law_read_mem_command(mem: Seq<u8>, regs: Result<Regs, Seq<char>>, addr: u64, len: u64)
    ensures
        ({
            let line = "read_mem"@ + seq![' '] + hex(addr as nat) + seq![' '] + dec(len as nat);
            let (after, answer) = command_effect(line, mem, regs);
            &&& after == mem
            &&& answer matches OutcomeView::Reply(text) && if len <= 0x10_0000 && addr + len <= mem.len() {
                &&& crate::text::starts_with(text, "OK "@)
                &&& is_hex_text(text.skip(3))
                &&& hex_bytes(text.skip(3)) == mem.subrange(addr as int, addr + len)
            } else {
                crate::text::starts_with(text, "ERR "@)
            }
        }),
{
    lemma_command_names();
    lemma_numerals_are_words(addr as nat);
    lemma_numerals_are_words(len as nat);
    let (h, d) = (hex(addr as nat), dec(len as nat));
    let line = "read_mem"@ + seq![' '] + h + seq![' '] + d;
    lemma_words_of("read_mem"@, h, d);
    let w = words(line);
    assert(w.skip(1) =~= seq![h, d]);
    law_addresses(addr);
    law_numeral_round_trip(len as nat, 10, u64::MAX as nat);
    assert(1u64 << 20 == 0x10_0000u64) by (bit_vector);
    reveal_strlit("OK ");
    reveal_strlit("ERR ");
    reveal_strlit("ERR read_mem length ");
    reveal_strlit("ERR read_mem(");
    let (after, answer) = command_effect(line, mem, regs);
    let text = answer->Reply_0;
    if len <= 0x10_0000 && addr + len <= mem.len() {
        let bytes = mem.subrange(addr as int, addr + len);
        crate::hex::law_hex_round_trip(bytes);
        assert(text == "OK "@ + hex_text(bytes));
        assert(text.take(3) =~= "OK "@);
        assert(text.skip(3) =~= hex_text(bytes));
    } else {
        assert(text.take(4) =~= "ERR "@);
    }
}

#[verifier::spinoff_prover]
proof fn lemma_write_effect(mem: Seq<u8>, addr: u64, data: Seq<u8>)
    ensures
        ({
            let (after, text) = write_mem_effect(mem, seq![hex(addr as nat), hex_text(data)]);
            if addr + data.len() <= mem.len() {
                after == splice(mem, addr as int, data) && text == "OK"@
            } else {
                after == mem && crate::text::starts_with(text, "ERR "@)
            }
        }),
{
    let args = seq![hex(addr as nat), hex_text(data)];
    assert(args[0] == hex(addr as nat) && args[1] == hex_text(data));
    crate::hex::law_hex_round_trip(data);
    law_addresses(addr);
    reveal_strlit("ERR ");
    reveal_strlit("ERR write_mem(");
    let text = write_mem_effect(mem, args).1;
    if addr + data.len() > mem.len() {
        assert(text.take(4) =~= "ERR "@);
    }
}

proof fn lemma_digits_are_a_word(s: Seq<char>)
    requires
        is_hex_text(s),
        s.len() > 0,
    ensures
        is_word(s),
{
    assert forall|k: int| 0 <= k < s.len() implies !is_white(#[trigger] s[k]) by {
        assert(digit_value(s[k], 16) is Some);
    }
}

proof fn lemma_write_line(addr: u64, d: Seq<char>)
    requires
        is_word(d),
    ensures
        words("write_mem"@ + seq![' '] + hex(addr as nat) + seq![' '] + d) == seq!["write_mem"@, hex(addr as nat), d],
{
    lemma_command_names();
    lemma_numerals_are_words(addr as nat);
    lemma_words_of("write_mem"@, hex(addr as nat), d);
}

proof fn lemma_write_command(mem: Seq<u8>, regs: Result<Regs, Seq<char>>, addr: u64, d: Seq<char>)
    requires
        is_word(d),
    ensures
        ({
            let line = "write_mem"@ + seq![' '] + hex(addr as nat) + seq![' '] + d;
            let (after, text) = write_mem_effect(mem, seq![hex(addr as nat), d]);
            command_effect(line, mem, regs) == (after, OutcomeView::Reply(text))
        }),
{
    lemma_write_line(addr, d);
    lemma_command_names();
    let w = seq!["write_mem"@, hex(addr as nat), d];
    assert(w.skip(1) =~= seq![hex(addr as nat), d]);
}

proof fn lemma_hex_word(data: Seq<u8>)
    requires
        data.len() > 0,
    ensures
        is_word(hex_text(data)),
{
    crate::hex::law_hex_round_trip(data);
    lemma_digits_are_a_word(hex_text(data));
}

/// `write_mem` puts the bytes at the address, and nowhere else, and says so.
/// What does not fit is an error and changes nothing.
#[verifier::spinoff_prover]
pub proof fn law_write_mem_command(mem: Seq<u8>, regs: Result<Regs, Seq<char>>, addr: u64, data: Seq<u8>, i: int)
    requires
        data.len() > 0,
        0 <= i < mem.len(),
    ensures
        ({
            let line = "write_mem"@ + seq![' '] + hex(addr as nat) + seq![' '] + hex_text(data);
            let (after, answer) = command_effect(line, mem, regs);
            &&& after.len() == mem.len()
            &&& if addr + data.len() <= mem.len() {
                &&& answer == OutcomeView::Reply("OK"@)
                &&& after[i] == (if addr <= i < addr + data.len() { data[i - addr] } else { mem[i] })
            } else {
                &&& answer matches OutcomeView::Reply(text) && crate::text::starts_with(text, "ERR "@)
                &&& after == mem
            }
        }),
{
    lemma_hex_word(data);
    lemma_write_command(mem, regs, addr, hex_text(data));
    lemma_write_effect(mem, addr, data);
}

/// Every register goes by its own name, and no other name is one.
pub proof fn law_register_names(r: Regs, v: u64, name: Seq<char>)
    ensures
        reg_set(r, "rip"@, v) == Some(Regs { rip: v, ..r }),
        reg_set(r, "rsp"@, v) == Some(Regs { rsp: v, ..r }),
        reg_set(r, "rbp"@, v) == Some(Regs { rbp: v, ..r }),
        reg_set(r, "rflags"@, v) == Some(Regs { rflags: v, ..r }),
        reg_set(r, "rax"@, v) == Some(Regs { rax: v, ..r }),
        reg_set(r, "rbx"@, v) == Some(Regs { rbx: v, ..r }),
        reg_set(r, "rcx"@, v) == Some(Regs { rcx: v, ..r }),
        reg_set(r, "rdx"@, v) == Some(Regs { rdx: v, ..r }),
        reg_set(r, "rsi"@, v) == Some(Regs { rsi: v, ..r }),
        reg_set(r, "rdi"@, v) == Some(Regs { rdi: v, ..r }),
        reg_set(r, "r8"@, v) == Some(Regs { r8: v, ..r }),
        reg_set(r, "r9"@, v) == Some(Regs { r9: v, ..r }),
        reg_set(r, "r10"@, v) == Some(Regs { r10: v, ..r }),
        reg_set(r, "r11"@, v) == Some(Regs { r11: v, ..r }),
        reg_set(r, "r12"@, v) == Some(Regs { r12: v, ..r }),
        reg_set(r, "r13"@, v) == Some(Regs { r13: v, ..r }),
        reg_set(r, "r14"@, v) == Some(Regs { r14: v, ..r }),
        reg_set(r, "r15"@, v) == Some(Regs { r15: v, ..r }),
        reg_set(r, name, v) is Some ==> {
            ||| name == "rip"@ || name == "rsp"@ || name == "rbp"@ || name == "rflags"@ || name == "rax"@
            ||| name == "rbx"@ || name == "rcx"@ || name == "rdx"@ || name == "rsi"@ || name == "rdi"@
            ||| name == "r8"@ || name == "r9"@ || name == "r10"@ || name == "r11"@ || name == "r12"@
            ||| name == "r13"@ || name == "r14"@ || name == "r15"@
        },
{
    lemma_reg_names(r, v);
    assert(reg_set(r, name, v) is Some ==> {
        ||| name == "rip"@ || name == "rsp"@ || name == "rbp"@ || name == "rflags"@ || name == "rax"@
        ||| name == "rbx"@ || name == "rcx"@ || name == "rdx"@ || name == "rsi"@ || name == "rdi"@
        ||| name == "r8"@ || name == "r9"@ || name == "r10"@ || name == "r11"@ || name == "r12"@
        ||| name == "r13"@ || name == "r14"@ || name == "r15"@
    }) by {
        reveal(reg_set);
    }
}

/// An assignment sets the register that it names to the value that it gives. A
/// row of assignments is made one after the other, and the first that is wrong
/// ends it.
pub proof fn law_assignments(r: Regs, name: Seq<char>, v: u64, a: Seq<Seq<char>>, b: Seq<Seq<char>>)
    ensures
        !name.contains('=') && reg_set(r, name, v) is Some ==> assigned(r, name + seq!['='] + hex0x(v as nat)) == Ok::<
            Regs,
            Seq<char>,
        >(reg_set(r, name, v)->0),
        !name.contains('=') && reg_set(r, name, v) is None ==> assigned(r, name + seq!['='] + hex0x(v as nat)) is Err,
        !name.contains('=') ==> assigned(r, name) is Err,
        all_assigned(r, a + b) == (if all_assigned(r, a).1 is None {
            all_assigned(all_assigned(r, a).0, b)
        } else {
            all_assigned(r, a)
        }),
        all_assigned(r, seq![name]) == (match assigned(r, name) {
            Ok(n) => (n, None::<Seq<char>>),
            Err(m) => (r, Some(m)),
        }),
        reg_assignments(r, seq![]).1 is Some,
        a.len() > 0 ==> reg_assignments(r, a) == all_assigned(r, a),
    decreases b.len(),
{
    let item = name + seq!['='] + hex0x(v as nat);
    if !name.contains('=') {
        crate::text::law_split_once(name, hex0x(v as nat), '=');
        law_addresses(v);
    }
    let all = a + b;
    if b.len() == 0 {
        assert(all =~= a);
        assert(b =~= seq![]);
    } else {
        assert(all.drop_last() =~= a + b.drop_last());
        law_assignments(r, name, v, a, b.drop_last());
    }
    let one = seq![name];
    assert(one.drop_last() =~= seq![]);
    reveal_with_fuel(all_assigned, 2);
}

/// `write_regs` sets all that it was given if every assignment is right, and
/// nothing otherwise. `regs` prints, and changes nothing. `snapshot` names the
/// file. Without registers to work on there is an error.
#[verifier::spinoff_prover]
pub proof fn law_other_commands(mem: Seq<u8>, r: Regs, e: Seq<char>, item: Seq<char>, path: Seq<char>)
    requires
        is_word(item),
        is_word(path),
    ensures
        command_effect("write_regs"@ + seq![' '] + item, mem, Ok(r)) == (
            mem,
            match assigned(r, item) {
                Ok(n) => OutcomeView::SetRegs(n),
                Err(m) => OutcomeView::Reply("ERR "@ + m),
            },
        ),
        command_effect("regs"@, mem, Ok(r)) == (mem, OutcomeView::Reply(regs_text(r))),
        command_effect("snapshot"@ + seq![' '] + path, mem, Ok(r)) == (mem, OutcomeView::Snapshot(path)),
        command_effect("regs"@, mem, Err(e)) == (mem, OutcomeView::Reply("ERR KVM_GET_REGS failed: "@ + e)),
        command_effect("write_regs"@ + seq![' '] + item, mem, Err(e)) == (
            mem,
            OutcomeView::Reply("ERR KVM_GET_REGS failed: "@ + e),
        ),
        command_effect(seq![], mem, Ok(r)) == (mem, OutcomeView::Reply("ERR unknown command"@)),
        path != "read_mem"@ && path != "write_mem"@ && path != "regs"@ && path != "write_regs"@ && path != "snapshot"@
            ==> command_effect(path, mem, Ok(r)) == (mem, OutcomeView::Reply("ERR unknown command"@)),
{
    lemma_command_names();
    lemma_words_of("write_regs"@, item, path);
    lemma_words_of("regs"@, item, path);
    lemma_words_of("snapshot"@, path, item);
    lemma_words_of(path, item, item);
    let w = words("write_regs"@ + seq![' '] + item);
    assert(w.skip(1) =~= seq![item]);
    law_assignments(r, item, 0, seq![item], seq![]);
    let s = words("snapshot"@ + seq![' '] + path);
    assert(s.skip(1) =~= seq![path]);
    crate::text::law_words(path, ' ', item);
}

/// The commands that act on the whole machine: `fork` and `migrate` with where
/// to. Without that they are answered with their usage. Other lines are none
/// of them.
#[verifier::spinoff_prover]
pub proof fn law_machine_commands(to: Seq<char>, other: Seq<char>)
    requires
        is_word(to),
        is_word(other),
        other != "fork"@,
        other != "migrate"@,
        other != "reload_device"@,
        other != "reset_device"@,
    ensures
        machine_command_of("fork"@ + seq![' '] + to) == Some(MachineCommandView::Fork(to)),
        machine_command_of("migrate"@ + seq![' '] + to) == Some(MachineCommandView::Migrate(to)),
        machine_command_of("fork"@) matches Some(MachineCommandView::Usage(_)),
        machine_command_of("migrate"@) matches Some(MachineCommandView::Usage(_)),
        machine_command_of(other) is None,
        machine_command_of(other + seq![' '] + to) is None,
        machine_command_of(seq![]) is None,
{
    lemma_command_names();
    lemma_words_of("fork"@, to, to);
    lemma_words_of("migrate"@, to, to);
    lemma_words_of(other, to, to);
    crate::text::law_words(to, ' ', to);
}

proof fn lemma_plugin_line(command: Seq<char>, base: u64, number: u8)
    requires
        is_word(command),
    ensures
        words(command + seq![' '] + "mmio"@ + seq![' '] + hex0x(base as nat)) == seq![
            command,
            "mmio"@,
            hex0x(base as nat),
        ],
        words(command + seq![' '] + "pci"@ + seq![' '] + dec(number as nat)) == seq![
            command,
            "pci"@,
            dec(number as nat),
        ],
        words(command) == seq![command],
        selector_of(seq![command, "mmio"@, hex0x(base as nat)]) == Some(PluginSelector::Mmio(base)),
        selector_of(seq![command, "pci"@, dec(number as nat)]) == Some(PluginSelector::Pci(number)),
        selector_of(seq![command]) is None,
{
    lemma_command_names();
    lemma_numerals_are_words(base as nat);
    lemma_numerals_are_words(number as nat);
    law_addresses(base);
    law_numeral_round_trip(number as nat, 10, u8::MAX as nat);
    lemma_words_of(command, "mmio"@, hex0x(base as nat));
    lemma_words_of(command, "pci"@, dec(number as nat));
}

/// The commands that act on one plugin: `reload_device` and `reset_device` name
/// it by its address, or by its number on the PCI bus. Without that they are
/// answered with their usage.
#[verifier::spinoff_prover]
pub proof fn law_plugin_commands(base: u64, number: u8)
    ensures
        machine_command_of("reload_device"@ + seq![' '] + "mmio"@ + seq![' '] + hex0x(base as nat)) == Some(
            MachineCommandView::Reload(PluginSelector::Mmio(base)),
        ),
        machine_command_of("reload_device"@ + seq![' '] + "pci"@ + seq![' '] + dec(number as nat)) == Some(
            MachineCommandView::Reload(PluginSelector::Pci(number)),
        ),
        machine_command_of("reset_device"@ + seq![' '] + "mmio"@ + seq![' '] + hex0x(base as nat)) == Some(
            MachineCommandView::Reset(PluginSelector::Mmio(base)),
        ),
        machine_command_of("reset_device"@ + seq![' '] + "pci"@ + seq![' '] + dec(number as nat)) == Some(
            MachineCommandView::Reset(PluginSelector::Pci(number)),
        ),
        machine_command_of("reload_device"@) matches Some(MachineCommandView::Usage(_)),
        machine_command_of("reset_device"@) matches Some(MachineCommandView::Usage(_)),
{
    lemma_command_names();
    lemma_plugin_line("reload_device"@, base, number);
    lemma_plugin_line("reset_device"@, base, number);
}

/// Bytes wait in the order in which they came, and lines are taken off the
/// front one by one, each without its newline; what is left stays. At most
/// eight clients are attached, and none may send 1 MiB without a newline.
pub proof fn law_lines_are_taken_in_order(
    a: &mut Client,
    chunk: &[u8],
    keep: bool,
    b: &mut Client,
    line: Option<String>,
    attached: usize,
    admitted: bool,
)
    requires
        call_ensures(Client::receive, (a, chunk), keep),
        call_ensures(Client::next_line, (b,), line),
        call_ensures(admits, (attached,), admitted),
    ensures
        final(a)@ == old(a)@ + chunk@,
        keep <==> old(a)@.len() + chunk@.len() <= 0x10_0000,
        line is Some <==> old(b)@.contains('\n' as u8),
        line is None ==> final(b)@ == old(b)@,
        line is Some ==> final(b)@.len() < old(b)@.len() && old(b)@[old(b)@.len() - final(b)@.len() - 1] == '\n' as u8
            && old(b)@.skip(old(b)@.len() - final(b)@.len()) == final(b)@,
        admitted <==> attached < 8,
{
    assert(1usize << 20 == 0x10_0000usize) by (bit_vector);
    let s = old(b)@;
    law_lines_end_at_newlines(s);
    if let Some(i) = newline_at(s) {
        assert(s.contains(s[i as int]));
    }
}

} // verus!
