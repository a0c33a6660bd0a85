use hyperbug::crashdump::{build_dump_json, dump_path, ExitHistory, ExitKind, ExitRecord, HISTORY_LEN};
use hyperbug::regs::{Regs, Sregs};

#[test]
fn history_keeps_only_the_most_recent_entries() {
    let mut h = ExitHistory::new();
    for i in 0..(HISTORY_LEN as u64 + 5) {
        h.push(ExitRecord { kind: ExitKind::Hlt, addr: i });
    }
    let addrs: Vec<u64> = h.iter().iter().map(|r| r.addr).collect();
    assert_eq!(addrs.len(), HISTORY_LEN);
    assert_eq!(addrs[0], 5, "the oldest 5 entries should have been evicted");
    assert_eq!(*addrs.last().unwrap(), HISTORY_LEN as u64 + 4);
}

#[test]
fn a_crash_dump_is_written_as_valid_looking_json_with_the_recent_history() {
    let mut history = ExitHistory::new();
    history.push(ExitRecord { kind: ExitKind::IoOut, addr: 0x3f8 });
    let regs = Regs { rip: 0xdead_beef, ..Default::default() };
    let contents = build_dump_json(0, "TripleFault", &regs, &Sregs::default(), &history);
    assert!(contents.contains("0xdeadbeef"), "got: {contents}");
    assert!(contents.contains("TripleFault"));
    assert!(contents.contains("0x3f8"), "the recent-exit history should be included");
}

#[test]
fn a_reason_is_quoted() {
    let dump = build_dump_json(1, "bad \"exit\"", &Regs::default(), &Sregs::default(), &ExitHistory::new());
    assert!(dump.starts_with("{\n\"reason\":\"bad \\\"exit\\\"\",\n\"cpu_id\":1,\n"), "got: {dump}");
    assert!(dump.ends_with("\"recent_exits\":[]\n}\n"), "got: {dump}");
}

#[test]
fn exits_are_listed_oldest_first() {
    let mut history = ExitHistory::new();
    history.push(ExitRecord { kind: ExitKind::MmioRead, addr: 16 });
    history.push(ExitRecord { kind: ExitKind::IoIn, addr: 1 });
    let dump = build_dump_json(0, "x", &Regs::default(), &Sregs::default(), &history);
    assert!(dump.contains("[{\"kind\":\"MmioRead\",\"addr\":\"0x10\"},{\"kind\":\"IoIn\",\"addr\":\"0x1\"}]"));
}

#[test]
fn a_dump_names_its_cpu_and_process() {
    assert_eq!(dump_path(Some("/var/crash"), 3, 4711), "/var/crash/hyperbug-crash-cpu3-4711.json");
    assert_eq!(dump_path(None, 0, 1), "./hyperbug-crash-cpu0-1.json");
}
