use hyperbug::cgroup::{CgroupStep, PluginCgroup};
use hyperbug::config::ResourceLimits;

/// `create` is a real no-op (no filesystem touched, no warning
/// printed) when nothing was actually requested.
#[test]
fn create_is_a_no_op_when_no_limits_are_requested() {
    assert!(PluginCgroup::create(&ResourceLimits::default(), 1, 0).is_none());
}

#[test]
fn create_lists_what_sets_the_limits() {
    let limits = ResourceLimits { mem_limit_mb: Some(64), cpu_quota_percent: Some(50) };
    let (group, steps) = PluginCgroup::create(&limits, 4711, 2).unwrap();
    assert_eq!(group.path, "/sys/fs/cgroup/hyperbug-plugins/plugin-4711-2");
    assert_eq!(group.procs_path(), "/sys/fs/cgroup/hyperbug-plugins/plugin-4711-2/cgroup.procs");
    assert_eq!(steps.len(), 7);
    assert!(matches!(&steps[5], CgroupStep::Limit(p, v) if p.ends_with("/memory.max") && v == "67108864"));
    assert!(matches!(&steps[6], CgroupStep::Limit(p, v) if p.ends_with("/cpu.max") && v == "50000 100000"));
}

#[test]
fn a_limit_past_the_address_space_saturates() {
    let limits = ResourceLimits { mem_limit_mb: Some(u64::MAX), cpu_quota_percent: None };
    let (_, steps) = PluginCgroup::create(&limits, 1, 1).unwrap();
    assert!(matches!(steps.last(), Some(CgroupStep::Limit(_, v)) if v == "18446744073709551615"));
}

/// On a host without cgroups v2 (or without permission to use it), the
/// group is given up instead of an error that the caller would have to handle
/// specially: whichever required step is denied.
#[test]
fn create_degrades_to_none_rather_than_panicking_when_unavailable_or_denied() {
    let limits = ResourceLimits { mem_limit_mb: Some(64), cpu_quota_percent: Some(50) };
    for denied in 0..7 {
        let (group, steps) = PluginCgroup::create(&limits, 1, 0).unwrap();
        let mut failed = vec![false; denied];
        failed.push(true);
        let best_effort = denied == 2 || denied == 3;
        assert_eq!(steps[denied].is_required(), !best_effort);
        assert_eq!(group.keep(&steps, &failed).is_some(), best_effort, "step {denied}: {:?}", steps[denied]);
    }
    let (group, steps) = PluginCgroup::create(&limits, 1, 0).unwrap();
    assert!(group.keep(&steps, &vec![false; 7]).is_some());
}
