//! What is kept for a look at a guest after it crashed: the last exits of each
//! CPU, and the dump that is written of them and of the registers.

use std::collections::VecDeque;

use vstd::prelude::*;
use vstd::string::*;

use crate::regs::{Regs, Sregs};
use crate::text::{dec, dec_string, hex0x, hex0x_string, push_dec, quote, quoted};

verus! {

/// What a virtual CPU exited for.
#[derive(Clone, Copy, Debug, PartialEq, Eq, Structural)]
pub enum ExitKind {
    IoOut,
    IoIn,
    MmioRead,
    MmioWrite,
    Hlt,
    Other,
}

impl ExitKind {
    /// The name of the kind.
    pub open spec fn words(self) -> Seq<char> {
        match self {
            ExitKind::IoOut => "IoOut"@,
            ExitKind::IoIn => "IoIn"@,
            ExitKind::MmioRead => "MmioRead"@,
            ExitKind::MmioWrite => "MmioWrite"@,
            ExitKind::Hlt => "Hlt"@,
            ExitKind::Other => "Other"@,
        }
    }

    /// The name of the kind.
    pub fn name(self) -> (r: &'static str)
        ensures
            r@ == self.words(),
    {
        match self {
            ExitKind::IoOut => "IoOut",
            ExitKind::IoIn => "IoIn",
            ExitKind::MmioRead => "MmioRead",
            ExitKind::MmioWrite => "MmioWrite",
            ExitKind::Hlt => "Hlt",
            ExitKind::Other => "Other",
        }
    }
}

/// One exit, in short.
#[derive(Clone, Copy, Debug, PartialEq, Eq, Structural)]
pub struct ExitRecord {
    pub kind: ExitKind,
    pub addr: u64,
}

/// How many exits are remembered.
pub const HISTORY_LEN: usize = 32;

/// The last exits of a CPU, oldest first.
pub struct ExitHistory {
    records: VecDeque<ExitRecord>,
}

impl View for ExitHistory {
    type V = Seq<ExitRecord>;

    closed spec fn view(&self) -> Seq<ExitRecord> {
        self.records@
    }
}

/// The history `h` after one more exit: the oldest makes room if need be.
pub open spec fn remembered(h: Seq<ExitRecord>, r: ExitRecord) -> Seq<ExitRecord> {
    if h.len() == HISTORY_LEN {
        h.skip(1).push(r)
    } else {
        h.push(r)
    }
}

/// The history after all of `rs`, from an empty one.
pub open spec fn history_of(rs: Seq<ExitRecord>) -> Seq<ExitRecord>
    decreases rs.len(),
{
    if rs.len() == 0 {
        seq![]
    } else {
        remembered(history_of(rs.drop_last()), rs.last())
    }
}

impl Default for ExitHistory {
    fn default() -> (r: Self)
        ensures
            r@.len() == 0,
    {
        ExitHistory { records: VecDeque::new() }
    }
}

impl ExitHistory {
    /// An empty history.
    pub fn new() -> (r: Self)
        ensures
            r@.len() == 0,
    {
        ExitHistory { records: VecDeque::new() }
    }

    /// Remembers one more exit.
    pub fn push(&mut self, record: ExitRecord)
        ensures
            final(self)@ == remembered(old(self)@, record),
    {
        if self.records.len() == HISTORY_LEN {
            self.records.pop_front();
            assert(self.records@ =~= old(self)@.skip(1));
        }
        self.records.push_back(record);
    }

    /// The remembered exits, oldest first.
    pub fn iter(&self) -> (r: Vec<ExitRecord>)
        ensures
            r@ == self@,
    {
        let mut v: Vec<ExitRecord> = Vec::new();
        let n: usize = self.records.len();
        let mut i: usize = 0;
        assert(v@ =~= self@.take(0));
        while i < n
            invariant
                i <= n == self.records@.len(),
                v@ == self@.take(i as int),
            decreases n - i,
        {
            v.push(self.records[i]);
            i += 1;
            assert(v@ =~= self@.take(i as int));
        }
        assert(v@ =~= self@);
        v
    }
}

/// A history holds the most recent exits and no others: all of them while
/// they are few, the last ones in their order when they are more.
pub proof fn law_most_recent_are_kept(rs: Seq<ExitRecord>)
    ensures
        history_of(rs) == (if rs.len() <= HISTORY_LEN {
            rs
        } else {
            rs.skip(rs.len() - HISTORY_LEN)
        }),
    decreases rs.len(),
{
    if rs.len() == 0 {
        assert(history_of(rs) =~= rs);
    } else {
        law_most_recent_are_kept(rs.drop_last());
        if rs.len() <= HISTORY_LEN {
            assert(history_of(rs) =~= rs);
        } else {
            assert(history_of(rs) =~= rs.skip(rs.len() - HISTORY_LEN));
        }
    }
}

/// Where the dump of CPU `cpu_id` of process `pid` goes; the current directory
/// unless one is given.
pub fn dump_path(dir: Option<&str>, cpu_id: u8, pid: u32) -> (r: String)
    ensures
        r@ == (match dir {
            Some(d) => d@,
            None => "."@,
        }) + "/hyperbug-crash-cpu"@ + dec(cpu_id as nat) + "-"@ + dec(pid as nat) + ".json"@,
{
    let d = match dir {
        Some(d) => d,
        None => ".",
    };
    let mut s = d.to_owned();
    s.append("/hyperbug-crash-cpu");
    push_dec(&mut s, cpu_id as u64);
    s.append("-");
    push_dec(&mut s, pid as u64);
    s.append(".json");
    s
}

/// One exit as the dump writes it.
pub open spec fn record_text(r: ExitRecord) -> Seq<char> {
    "{\"kind\":\""@ + r.kind.words() + "\",\"addr\":\""@ + hex0x(r.addr as nat) + "\"}"@
}

/// The first `n` exits of `rs`, with commas between them.
pub open spec fn records_text(rs: Seq<ExitRecord>, n: nat) -> Seq<char>
    decreases n,
{
    if n == 0 {
        "["@
    } else {
        let before = records_text(rs, (n - 1) as nat);
        (if n > 1 { before + ","@ } else { before }) + record_text(rs[n - 1])
    }
}

/// `acc` with one more register.
pub open spec fn field(acc: Seq<char>, label: Seq<char>, v: u64) -> Seq<char> {
    acc + label + hex0x(v as nat)
}

/// The general-purpose registers as the dump writes them, behind `acc`.
pub open spec fn regs_text(acc: Seq<char>, r: Regs) -> Seq<char> {
    let t = field(acc, "\"regs\":{\"rip\":\""@, r.rip);
    let t = field(t, "\",\"rsp\":\""@, r.rsp);
    let t = field(t, "\",\"rbp\":\""@, r.rbp);
    let t = field(t, "\",\"rflags\":\""@, r.rflags);
    let t = field(t, "\",\"rax\":\""@, r.rax);
    let t = field(t, "\",\"rbx\":\""@, r.rbx);
    let t = field(t, "\",\"rcx\":\""@, r.rcx);
    let t = field(t, "\",\"rdx\":\""@, r.rdx);
    let t = field(t, "\",\"rsi\":\""@, r.rsi);
    let t = field(t, "\",\"rdi\":\""@, r.rdi);
    let t = field(t, "\",\"r8\":\""@, r.r8);
    let t = field(t, "\",\"r9\":\""@, r.r9);
    let t = field(t, "\",\"r10\":\""@, r.r10);
    let t = field(t, "\",\"r11\":\""@, r.r11);
    let t = field(t, "\",\"r12\":\""@, r.r12);
    let t = field(t, "\",\"r13\":\""@, r.r13);
    let t = field(t, "\",\"r14\":\""@, r.r14);
    let t = field(t, "\",\"r15\":\""@, r.r15);
    t + "\"},\n"@
}

/// The control registers as the dump writes them, behind `acc`.
pub open spec fn sregs_text(acc: Seq<char>, s: Sregs) -> Seq<char> {
    let t = field(acc, "\"sregs\":{\"cr0\":\""@, s.cr0);
    let t = field(t, "\",\"cr2\":\""@, s.cr2);
    let t = field(t, "\",\"cr3\":\""@, s.cr3);
    let t = field(t, "\",\"cr4\":\""@, s.cr4);
    let t = field(t, "\",\"efer\":\""@, s.efer);
    let t = field(t, "\",\"cs_selector\":\""@, s.cs.selector as u64);
    t + "\",\"cs_long_mode\":"@ + (if s.cs.l != 0 { "true"@ } else { "false"@ }) + "},\n"@
}

/// The dump of CPU `cpu_id`: why, the registers, the last exits.
pub open spec fn dump_text(cpu_id: u8, reason: Seq<char>, r: Regs, s: Sregs, history: Seq<ExitRecord>) -> Seq<char> {
    let t = "{\n\"reason\":"@ + quoted(reason) + ",\n\"cpu_id\":"@ + dec(cpu_id as nat) + ",\n"@;
    let t = sregs_text(regs_text(t, r), s);
    t + "\"recent_exits\":"@ + (records_text(history, history.len()) + "]"@) + "\n}\n"@
}

fn push_field(out: &mut String, label: &str, v: u64)
    ensures
        final(out)@ == field(old(out)@, label@, v),
{
    out.append(label);
    let h = hex0x_string(v);
    out.append(h.as_str());
}

fn push_regs(out: &mut String, r: &Regs)
    ensures
        final(out)@ == regs_text(old(out)@, *r),
{
    push_field(out, "\"regs\":{\"rip\":\"", r.rip);
    push_field(out, "\",\"rsp\":\"", r.rsp);
    push_field(out, "\",\"rbp\":\"", r.rbp);
    push_field(out, "\",\"rflags\":\"", r.rflags);
    push_field(out, "\",\"rax\":\"", r.rax);
    push_field(out, "\",\"rbx\":\"", r.rbx);
    push_field(out, "\",\"rcx\":\"", r.rcx);
    push_field(out, "\",\"rdx\":\"", r.rdx);
    push_field(out, "\",\"rsi\":\"", r.rsi);
    push_field(out, "\",\"rdi\":\"", r.rdi);
    push_field(out, "\",\"r8\":\"", r.r8);
    push_field(out, "\",\"r9\":\"", r.r9);
    push_field(out, "\",\"r10\":\"", r.r10);
    push_field(out, "\",\"r11\":\"", r.r11);
    push_field(out, "\",\"r12\":\"", r.r12);
    push_field(out, "\",\"r13\":\"", r.r13);
    push_field(out, "\",\"r14\":\"", r.r14);
    push_field(out, "\",\"r15\":\"", r.r15);
    out.append("\"},\n");
}

fn push_sregs(out: &mut String, s: &Sregs)
    ensures
        final(out)@ == sregs_text(old(out)@, *s),
{
    push_field(out, "\"sregs\":{\"cr0\":\"", s.cr0);
    push_field(out, "\",\"cr2\":\"", s.cr2);
    push_field(out, "\",\"cr3\":\"", s.cr3);
    push_field(out, "\",\"cr4\":\"", s.cr4);
    push_field(out, "\",\"efer\":\"", s.efer);
    push_field(out, "\",\"cs_selector\":\"", s.cs.selector as u64);
    out.append("\",\"cs_long_mode\":");
    out.append(if s.cs.l != 0 { "true" } else { "false" });
    out.append("},\n");
}

/// The dump of CPU `cpu_id`.
pub fn build_dump_json(cpu_id: u8, reason: &str, r: &Regs, s: &Sregs, history: &ExitHistory) -> (out: String)
    ensures
        out@ == dump_text(cpu_id, reason@, *r, *s, history@),
{
    let rs: Vec<ExitRecord> = history.iter();
    let mut recent = "[".to_owned();
    let mut i: usize = 0;
    while i < rs.len()
        invariant
            i <= rs@.len(),
            recent@ == records_text(rs@, i as nat),
        decreases rs@.len() - i,
    {
        if i > 0 {
            recent.append(",");
        }
        let ghost before = recent@;
        let rec: ExitRecord = rs[i];
        let h = hex0x_string(rec.addr);
        let one = crate::text::cat5("{\"kind\":\"", rec.kind.name(), "\",\"addr\":\"", h.as_str(), "\"}");
        recent.append(one.as_str());
        i += 1;
    }
    recent.append("]");
    let q = quote(reason);
    let c = dec_string(cpu_id as u64);
    let mut out = crate::text::cat5("{\n\"reason\":", q.as_str(), ",\n\"cpu_id\":", c.as_str(), ",\n");
    push_regs(&mut out, r);
    push_sregs(&mut out, s);
    out.append("\"recent_exits\":");
    out.append(recent.as_str());
    out.append("\n}\n");
    out
}

/// Whether `part` stands somewhere in `s`.
pub open spec fn occurs(s: Seq<char>, part: Seq<char>) -> bool {
    exists|i: int| 0 <= i && i + part.len() <= s.len() && #[trigger] s.subrange(i, i + part.len()) == part
}

proof fn lemma_occurs_more(s: Seq<char>, part: Seq<char>, more: Seq<char>)
    requires
        occurs(s, part),
    ensures
        occurs(s + more, part),
{
    let i = choose|i: int| 0 <= i && i + part.len() <= s.len() && #[trigger] s.subrange(i, i + part.len()) == part;
    assert((s + more).subrange(i, i + part.len()) =~= part);
}

proof fn lemma_occurs_at_end(s: Seq<char>, part: Seq<char>)
    ensures
        occurs(s + part, part),
{
    let i = s.len() as int;
    assert((s + part).subrange(i, i + part.len()) =~= part);
}

proof fn lemma_field_occurs(acc: Seq<char>, label: Seq<char>, v: u64, part: Seq<char>)
    ensures
        occurs(field(acc, label, v), label + hex0x(v as nat)),
        occurs(acc, part) ==> occurs(field(acc, label, v), part),
{
    let own = label + hex0x(v as nat);
    assert(field(acc, label, v) =~= acc + own);
    lemma_occurs_at_end(acc, own);
    if occurs(acc, part) {
        lemma_occurs_more(acc, part, own);
    }
}

/// The part of a dump that gives the general register number `k` under its
/// name.
pub open spec fn register_part(r: Regs, k: int) -> Seq<char> {
    if k == 0 {
        "\"regs\":{\"rip\":\""@ + hex0x(r.rip as nat)
    } else if k == 1 {
        "\",\"rsp\":\""@ + hex0x(r.rsp as nat)
    } else if k == 2 {
        "\",\"rbp\":\""@ + hex0x(r.rbp as nat)
    } else if k == 3 {
        "\",\"rflags\":\""@ + hex0x(r.rflags as nat)
    } else if k == 4 {
        "\",\"rax\":\""@ + hex0x(r.rax as nat)
    } else if k == 5 {
        "\",\"rbx\":\""@ + hex0x(r.rbx as nat)
    } else if k == 6 {
        "\",\"rcx\":\""@ + hex0x(r.rcx as nat)
    } else if k == 7 {
        "\",\"rdx\":\""@ + hex0x(r.rdx as nat)
    } else if k == 8 {
        "\",\"rsi\":\""@ + hex0x(r.rsi as nat)
    } else if k == 9 {
        "\",\"rdi\":\""@ + hex0x(r.rdi as nat)
    } else if k == 10 {
        "\",\"r8\":\""@ + hex0x(r.r8 as nat)
    } else if k == 11 {
        "\",\"r9\":\""@ + hex0x(r.r9 as nat)
    } else if k == 12 {
        "\",\"r10\":\""@ + hex0x(r.r10 as nat)
    } else if k == 13 {
        "\",\"r11\":\""@ + hex0x(r.r11 as nat)
    } else if k == 14 {
        "\",\"r12\":\""@ + hex0x(r.r12 as nat)
    } else if k == 15 {
        "\",\"r13\":\""@ + hex0x(r.r13 as nat)
    } else if k == 16 {
        "\",\"r14\":\""@ + hex0x(r.r14 as nat)
    } else {
        "\",\"r15\":\""@ + hex0x(r.r15 as nat)
    }
}

#[verifier::spinoff_prover]
proof fn lemma_regs_occur(acc: Seq<char>, r: Regs, k: int)
    requires
        0 <= k < 18,
    ensures
        occurs(regs_text(acc, r), register_part(r, k)),
{
    let p = register_part(r, k);
    let t = field(acc, "\"regs\":{\"rip\":\""@, r.rip);
    lemma_field_occurs(acc, "\"regs\":{\"rip\":\""@, r.rip, p);
    let u = field(t, "\",\"rsp\":\""@, r.rsp);
    lemma_field_occurs(t, "\",\"rsp\":\""@, r.rsp, p);
    let t = field(u, "\",\"rbp\":\""@, r.rbp);
    lemma_field_occurs(u, "\",\"rbp\":\""@, r.rbp, p);
    let u = field(t, "\",\"rflags\":\""@, r.rflags);
    lemma_field_occurs(t, "\",\"rflags\":\""@, r.rflags, p);
    let t = field(u, "\",\"rax\":\""@, r.rax);
    lemma_field_occurs(u, "\",\"rax\":\""@, r.rax, p);
    let u = field(t, "\",\"rbx\":\""@, r.rbx);
    lemma_field_occurs(t, "\",\"rbx\":\""@, r.rbx, p);
    let t = field(u, "\",\"rcx\":\""@, r.rcx);
    lemma_field_occurs(u, "\",\"rcx\":\""@, r.rcx, p);
    let u = field(t, "\",\"rdx\":\""@, r.rdx);
    lemma_field_occurs(t, "\",\"rdx\":\""@, r.rdx, p);
    let t = field(u, "\",\"rsi\":\""@, r.rsi);
    lemma_field_occurs(u, "\",\"rsi\":\""@, r.rsi, p);
    let u = field(t, "\",\"rdi\":\""@, r.rdi);
    lemma_field_occurs(t, "\",\"rdi\":\""@, r.rdi, p);
    let t = field(u, "\",\"r8\":\""@, r.r8);
    lemma_field_occurs(u, "\",\"r8\":\""@, r.r8, p);
    let u = field(t, "\",\"r9\":\""@, r.r9);
    lemma_field_occurs(t, "\",\"r9\":\""@, r.r9, p);
    let t = field(u, "\",\"r10\":\""@, r.r10);
    lemma_field_occurs(u, "\",\"r10\":\""@, r.r10, p);
    let u = field(t, "\",\"r11\":\""@, r.r11);
    lemma_field_occurs(t, "\",\"r11\":\""@, r.r11, p);
    let t = field(u, "\",\"r12\":\""@, r.r12);
    lemma_field_occurs(u, "\",\"r12\":\""@, r.r12, p);
    let u = field(t, "\",\"r13\":\""@, r.r13);
    lemma_field_occurs(t, "\",\"r13\":\""@, r.r13, p);
    let t = field(u, "\",\"r14\":\""@, r.r14);
    lemma_field_occurs(u, "\",\"r14\":\""@, r.r14, p);
    let u = field(t, "\",\"r15\":\""@, r.r15);
    lemma_field_occurs(t, "\",\"r15\":\""@, r.r15, p);
    lemma_occurs_more(u, p, "\"},\n"@);
}

/// The part of a dump that gives the system register number `k` under its name.
pub open spec fn system_register_part(s: Sregs, k: int) -> Seq<char> {
    if k == 0 {
        "\"sregs\":{\"cr0\":\""@ + hex0x(s.cr0 as nat)
    } else if k == 1 {
        "\",\"cr2\":\""@ + hex0x(s.cr2 as nat)
    } else if k == 2 {
        "\",\"cr3\":\""@ + hex0x(s.cr3 as nat)
    } else if k == 3 {
        "\",\"cr4\":\""@ + hex0x(s.cr4 as nat)
    } else if k == 4 {
        "\",\"efer\":\""@ + hex0x(s.efer as nat)
    } else if k == 5 {
        "\",\"cs_selector\":\""@ + hex0x(s.cs.selector as nat)
    } else if s.cs.l != 0 {
        "\",\"cs_long_mode\":true},"@
    } else {
        "\",\"cs_long_mode\":false},"@
    }
}

#[verifier::spinoff_prover]
proof fn lemma_sregs_occur(acc: Seq<char>, s: Sregs, k: int, part: Seq<char>)
    requires
        0 <= k < 7,
    ensures
        occurs(sregs_text(acc, s), system_register_part(s, k)),
        occurs(acc, part) ==> occurs(sregs_text(acc, s), part),
{
    let p = system_register_part(s, k);
    let t0 = field(acc, "\"sregs\":{\"cr0\":\""@, s.cr0);
    lemma_field_occurs(acc, "\"sregs\":{\"cr0\":\""@, s.cr0, p);
    lemma_field_occurs(acc, "\"sregs\":{\"cr0\":\""@, s.cr0, part);
    let t1 = field(t0, "\",\"cr2\":\""@, s.cr2);
    lemma_field_occurs(t0, "\",\"cr2\":\""@, s.cr2, p);
    lemma_field_occurs(t0, "\",\"cr2\":\""@, s.cr2, part);
    let t2 = field(t1, "\",\"cr3\":\""@, s.cr3);
    lemma_field_occurs(t1, "\",\"cr3\":\""@, s.cr3, p);
    lemma_field_occurs(t1, "\",\"cr3\":\""@, s.cr3, part);
    let t3 = field(t2, "\",\"cr4\":\""@, s.cr4);
    lemma_field_occurs(t2, "\",\"cr4\":\""@, s.cr4, p);
    lemma_field_occurs(t2, "\",\"cr4\":\""@, s.cr4, part);
    let t4 = field(t3, "\",\"efer\":\""@, s.efer);
    lemma_field_occurs(t3, "\",\"efer\":\""@, s.efer, p);
    lemma_field_occurs(t3, "\",\"efer\":\""@, s.efer, part);
    let t5 = field(t4, "\",\"cs_selector\":\""@, s.cs.selector as u64);
    lemma_field_occurs(t4, "\",\"cs_selector\":\""@, s.cs.selector as u64, p);
    lemma_field_occurs(t4, "\",\"cs_selector\":\""@, s.cs.selector as u64, part);
    let tail = "\",\"cs_long_mode\":"@ + (if s.cs.l != 0 { "true"@ } else { "false"@ }) + "},\n"@;
    assert(sregs_text(acc, s) =~= t5 + tail);
    if k < 6 {
        lemma_occurs_more(t5, p, tail);
    } else {
        reveal_strlit("\",\"cs_long_mode\":true},");
        reveal_strlit("\",\"cs_long_mode\":false},");
        reveal_strlit("\",\"cs_long_mode\":");
        reveal_strlit("true");
        reveal_strlit("false");
        reveal_strlit("},\n");
        assert(tail =~= p + seq!['\n']);
        lemma_occurs_at_end(t5, p);
        lemma_occurs_more(t5 + p, p, seq!['\n']);
        assert(t5 + p + seq!['\n'] =~= t5 + tail);
    }
    if occurs(acc, part) {
        lemma_occurs_more(t5, part, tail);
    }
}

/// How a dump names an exit.
pub open spec fn exit_part(r: ExitRecord) -> Seq<char> {
    (match r.kind {
        ExitKind::IoOut => "{\"kind\":\"IoOut\",\"addr\":\""@,
        ExitKind::IoIn => "{\"kind\":\"IoIn\",\"addr\":\""@,
        ExitKind::MmioRead => "{\"kind\":\"MmioRead\",\"addr\":\""@,
        ExitKind::MmioWrite => "{\"kind\":\"MmioWrite\",\"addr\":\""@,
        ExitKind::Hlt => "{\"kind\":\"Hlt\",\"addr\":\""@,
        ExitKind::Other => "{\"kind\":\"Other\",\"addr\":\""@,
    }) + hex0x(r.addr as nat) + "\"}"@
}

proof fn lemma_record_text(r: ExitRecord)
    ensures
        record_text(r) == exit_part(r),
{
    reveal_strlit("{\"kind\":\"");
    reveal_strlit("\",\"addr\":\"");
    reveal_strlit("IoOut");
    reveal_strlit("IoIn");
    reveal_strlit("MmioRead");
    reveal_strlit("MmioWrite");
    reveal_strlit("Hlt");
    reveal_strlit("Other");
    reveal_strlit("{\"kind\":\"IoOut\",\"addr\":\"");
    reveal_strlit("{\"kind\":\"IoIn\",\"addr\":\"");
    reveal_strlit("{\"kind\":\"MmioRead\",\"addr\":\"");
    reveal_strlit("{\"kind\":\"MmioWrite\",\"addr\":\"");
    reveal_strlit("{\"kind\":\"Hlt\",\"addr\":\"");
    reveal_strlit("{\"kind\":\"Other\",\"addr\":\"");
    assert(record_text(r) =~= exit_part(r));
}

proof fn lemma_records_occur(rs: Seq<ExitRecord>, n: nat, k: int)
    requires
        0 <= k < n <= rs.len(),
    ensures
        occurs(records_text(rs, n), exit_part(rs[k])),
    decreases n,
{
    let m = (n - 1) as nat;
    let before = records_text(rs, m);
    let joined = if n > 1 { before + ","@ } else { before };
    lemma_record_text(rs[n - 1]);
    if k == n - 1 {
        lemma_occurs_at_end(joined, exit_part(rs[k]));
    } else {
        lemma_records_occur(rs, m, k);
        lemma_occurs_more(before, exit_part(rs[k]), ","@);
        lemma_occurs_more(joined, exit_part(rs[k]), record_text(rs[n - 1]));
    }
}

/// A dump holds everything that it is for: each general register and each
/// system register under its own name, and every exit that is remembered, by
/// its kind and address. It begins with the reason and the CPU.
#[verifier::spinoff_prover]
pub proof fn law_a_dump_holds_everything(
    cpu_id: u8,
    reason: Seq<char>,
    r: Regs,
    s: Sregs,
    history: Seq<ExitRecord>,
    i: int,
    j: int,
    k: int,
)
    requires
        0 <= i < 18,
        0 <= j < 7,
    ensures
        ({
            let d = dump_text(cpu_id, reason, r, s, history);
            &&& occurs(d, register_part(r, i))
            &&& occurs(d, system_register_part(s, j))
            &&& 0 <= k < history.len() ==> occurs(d, exit_part(history[k]))
            &&& crate::text::starts_with(
                d,
                "{\n\"reason\":"@ + quoted(reason) + ",\n\"cpu_id\":"@ + dec(cpu_id as nat) + ",\n"@,
            )
        }),
{
    let t = "{\n\"reason\":"@ + quoted(reason) + ",\n\"cpu_id\":"@ + dec(cpu_id as nat) + ",\n"@;
    let u = regs_text(t, r);
    let v = sregs_text(u, s);
    let list = records_text(history, history.len()) + "]"@;
    let d = dump_text(cpu_id, reason, r, s, history);
    let w = v + "\"recent_exits\":"@;
    assert(d == w + list + "\n}\n"@);
    lemma_regs_occur(t, r, i);
    lemma_sregs_occur(u, s, j, register_part(r, i));
    lemma_occurs_more(v, register_part(r, i), "\"recent_exits\":"@);
    lemma_occurs_more(w, register_part(r, i), list);
    lemma_occurs_more(w + list, register_part(r, i), "\n}\n"@);
    lemma_occurs_more(v, system_register_part(s, j), "\"recent_exits\":"@);
    lemma_occurs_more(w, system_register_part(s, j), list);
    lemma_occurs_more(w + list, system_register_part(s, j), "\n}\n"@);
    if 0 <= k < history.len() {
        let p = exit_part(history[k]);
        lemma_records_occur(history, history.len(), k);
        lemma_occurs_more(records_text(history, history.len()), p, "]"@);
        lemma_occurs_behind(w, list, p);
        lemma_occurs_more(w + list, p, "\n}\n"@);
    }
    lemma_front(t, r, s);
    assert(d.take(t.len() as int) =~= v.take(t.len() as int));
}

proof fn lemma_occurs_behind(front: Seq<char>, s: Seq<char>, part: Seq<char>)
    requires
        occurs(s, part),
    ensures
        occurs(front + s, part),
{
    let i = choose|i: int| 0 <= i && i + part.len() <= s.len() && #[trigger] s.subrange(i, i + part.len()) == part;
    let n = front.len() as int;
    assert((front + s).subrange(n + i, n + i + part.len()) =~= part);
}

proof fn lemma_front(t: Seq<char>, r: Regs, s: Sregs)
    ensures
        sregs_text(regs_text(t, r), s).len() >= t.len(),
        sregs_text(regs_text(t, r), s).take(t.len() as int) == t,
{
    let u = regs_text(t, r);
    let v = sregs_text(u, s);
    assert(u.len() >= t.len());
    assert(u.take(t.len() as int) =~= t);
    assert(v.take(u.len() as int) =~= u);
    assert(v.take(t.len() as int) =~= u.take(t.len() as int));
}

} // verus!
