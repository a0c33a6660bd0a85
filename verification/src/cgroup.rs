//! Resource limits of a sandboxed plugin: which control group it gets, and
//! what is written there. The file system is the caller's.

use vstd::prelude::*;
use vstd::string::*;

use crate::config::ResourceLimits;
use crate::text::{cat2, cat4, dec, dec_string};

verus! {

/// The period of a CPU quota, in microseconds.
pub const PERIOD_US: u64 = 100_000;

/// One thing to do to set up a control group.
#[derive(Debug)]
pub enum CgroupStep {
    /// Give up, without limits, unless this path exists.
    Need(String),
    /// Create this directory and those above it, or give up.
    CreateAll(String),
    /// Create this directory, or give up.
    Create(String),
    /// Write this text to this path; a failure does not matter.
    Write(String, String),
    /// Write this limit to this path, or give up: a group without one of its
    /// limits is not kept.
    Limit(String, String),
}

/// What a step holds.
pub enum StepView {
    Need(Seq<char>),
    CreateAll(Seq<char>),
    Create(Seq<char>),
    Write(Seq<char>, Seq<char>),
    Limit(Seq<char>, Seq<char>),
}

/// Whether a group is given up where a step fails: only the writes that hand
/// controllers down may fail.
pub open spec fn required(s: StepView) -> bool {
    !(s is Write)
}

impl CgroupStep {
    /// Whether the group is given up where this fails.
    pub fn is_required(&self) -> (r: bool)
        ensures
            r == required(self@),
    {
        match self {
            CgroupStep::Write(_, _) => false,
            _ => true,
        }
    }
}

impl View for CgroupStep {
    type V = StepView;

    open spec fn view(&self) -> StepView {
        match *self {
            CgroupStep::Need(p) => StepView::Need(p@),
            CgroupStep::CreateAll(p) => StepView::CreateAll(p@),
            CgroupStep::Create(p) => StepView::Create(p@),
            CgroupStep::Write(p, t) => StepView::Write(p@, t@),
            CgroupStep::Limit(p, t) => StepView::Limit(p@, t@),
        }
    }
}

/// The views of a list of steps.
pub open spec fn step_views(s: Seq<CgroupStep>) -> Seq<StepView> {
    s.map_values(|x: CgroupStep| x@)
}

/// The directory of the plugin number `id` of process `pid`.
pub open spec fn group_path(pid: u32, id: u64) -> Seq<char> {
    "/sys/fs/cgroup/hyperbug-plugins/plugin-"@ + dec(pid as nat) + "-"@ + dec(id as nat)
}

/// A memory limit in bytes, as far as it goes.
pub open spec fn memory_bytes(mb: u64) -> nat {
    if mb * 1048576 > u64::MAX {
        u64::MAX as nat
    } else {
        (mb * 1048576) as nat
    }
}

/// A CPU quota for each period, in microseconds.
pub open spec fn cpu_quota(pct: u32) -> nat {
    (100_000 * pct / 100) as nat
}

/// What is written for the limits, behind what sets up the group.
pub open spec fn limit_steps(path: Seq<char>, limits: ResourceLimits) -> Seq<StepView> {
    (match limits.mem_limit_mb {
        Some(mb) => seq![StepView::Limit(path + "/memory.max"@, dec(memory_bytes(mb)))],
        None => seq![],
    }) + (match limits.cpu_quota_percent {
        Some(pct) => seq![
            StepView::Limit(path + "/cpu.max"@, dec(cpu_quota(pct)) + " 100000"@),
        ],
        None => seq![],
    })
}

/// What sets up the group, in order.
pub open spec fn setup_steps(path: Seq<char>) -> Seq<StepView> {
    seq![
        StepView::Need("/sys/fs/cgroup/cgroup.controllers"@),
        StepView::CreateAll("/sys/fs/cgroup/hyperbug-plugins"@),
        StepView::Write("/sys/fs/cgroup/cgroup.subtree_control"@, "+memory +cpu"@),
        StepView::Write("/sys/fs/cgroup/hyperbug-plugins/cgroup.subtree_control"@, "+memory +cpu"@),
        StepView::Create(path),
    ]
}

/// The control group of one plugin.
#[derive(Debug)]
pub struct PluginCgroup {
    pub path: String,
}

impl PluginCgroup {
    /// The group for the plugin number `id` of process `pid`, and what sets it
    /// up. None if no limit is asked for: nothing is then touched.
    pub fn create(limits: &ResourceLimits, pid: u32, id: u64) -> (r: Option<(Self, Vec<CgroupStep>)>)
        ensures
            match r {
                None => limits.mem_limit_mb is None && limits.cpu_quota_percent is None,
                Some((g, steps)) => {
                    &&& limits.mem_limit_mb is Some || limits.cpu_quota_percent is Some
                    &&& g.path@ == group_path(pid, id)
                    &&& step_views(steps@) == setup_steps(g.path@) + limit_steps(g.path@, *limits)
                },
            },
    {
        if limits.mem_limit_mb.is_none() && limits.cpu_quota_percent.is_none() {
            return None;
        }
        let p = dec_string(pid as u64);
        let n = dec_string(id);
        let path = cat4("/sys/fs/cgroup/hyperbug-plugins/plugin-", p.as_str(), "-", n.as_str());
        let mut steps: Vec<CgroupStep> = Vec::new();
        steps.push(CgroupStep::Need("/sys/fs/cgroup/cgroup.controllers".to_owned()));
        steps.push(CgroupStep::CreateAll("/sys/fs/cgroup/hyperbug-plugins".to_owned()));
        steps.push(
            CgroupStep::Write("/sys/fs/cgroup/cgroup.subtree_control".to_owned(), "+memory +cpu".to_owned()),
        );
        steps.push(
            CgroupStep::Write(
                "/sys/fs/cgroup/hyperbug-plugins/cgroup.subtree_control".to_owned(),
                "+memory +cpu".to_owned(),
            ),
        );
        steps.push(CgroupStep::Create(path.clone()));
        assert(step_views(steps@) =~= setup_steps(path@));
        if let Some(mb) = limits.mem_limit_mb {
            let bytes: u64 = match mb.checked_mul(1048576) {
                Some(b) => b,
                None => u64::MAX,
            };
            steps.push(CgroupStep::Limit(cat2(path.as_str(), "/memory.max"), dec_string(bytes)));
        }
        if let Some(pct) = limits.cpu_quota_percent {
            let quota: u64 = PERIOD_US * (pct as u64) / 100;
            let q = dec_string(quota);
            steps.push(CgroupStep::Limit(cat2(path.as_str(), "/cpu.max"), cat2(q.as_str(), " 100000")));
        }
        assert(step_views(steps@) =~= setup_steps(path@) + limit_steps(path@, *limits));
        Some((PluginCgroup { path }, steps))
    }

    /// The group once its steps were made, as far as they were: `failed` says
    /// of each step so far whether it failed. None where one that is required
    /// did: the plugin then runs without limits.
    pub fn keep(self, steps: &Vec<CgroupStep>, failed: &Vec<bool>) -> (r: Option<Self>)
        requires
            failed@.len() <= steps@.len(),
        ensures
            match r {
                Some(g) => g == self && forall|k: int|
                    0 <= k < failed@.len() && #[trigger] failed@[k] ==> !required(steps@[k]@),
                None => exists|k: int|
                    0 <= k < failed@.len() && #[trigger] failed@[k] && required(steps@[k]@),
            },
    {
        let mut i: usize = 0;
        while i < failed.len()
            invariant
                i <= failed@.len() <= steps@.len(),
                forall|k: int| 0 <= k < i && #[trigger] failed@[k] ==> !required(steps@[k]@),
            decreases failed@.len() - i,
        {
            if failed[i] && steps[i].is_required() {
                return None;
            }
            i += 1;
        }
        Some(self)
    }

    /// Where a process writes its number to join the group.
    pub fn procs_path(&self) -> (r: String)
        ensures
            r@ == self.path@ + "/cgroup.procs"@,
    {
        cat2(self.path.as_str(), "/cgroup.procs")
    }
}

/// A group that is kept has every limit that was asked for: the step that
/// writes one is required.
pub proof fn law_every_limit_is_required(path: Seq<char>, limits: ResourceLimits, k: int)
    requires
        0 <= k < limit_steps(path, limits).len(),
    ensures
        limit_steps(path, limits)[k] is Limit,
        required(limit_steps(path, limits)[k]),
{
}

/// The limits that are written are those that were asked for: as many bytes as
/// that many MiB have, or the most that can be said, and that share of every
/// 100 ms. A limit that was not asked for is not written, and the group is made
/// before any is.
pub proof fn law_limits_are_those_asked_for(path: Seq<char>, limits: ResourceLimits, mb: u64, pct: u32)
    ensures
        mb <= u64::MAX / 1048576 ==> memory_bytes(mb) == mb * 1048576,
        mb > u64::MAX / 1048576 ==> memory_bytes(mb) == u64::MAX,
        cpu_quota(pct) * 100 == pct * 100_000,
        ({
            let steps = limit_steps(path, limits);
            &&& steps.len() == (if limits.mem_limit_mb is Some { 1nat } else { 0nat }) + (
            if limits.cpu_quota_percent is Some { 1nat } else { 0nat })
            &&& limits.mem_limit_mb matches Some(m) ==> steps[0] == StepView::Limit(
                path + "/memory.max"@,
                dec(memory_bytes(m)),
            )
            &&& limits.cpu_quota_percent matches Some(p) ==> steps.last() == StepView::Limit(
                path + "/cpu.max"@,
                dec(cpu_quota(p)) + " 100000"@,
            )
        }),
        setup_steps(path).last() == StepView::Create(path),
        forall|k: int| 0 <= k < setup_steps(path).len() ==> !(#[trigger] setup_steps(path)[k] is Limit),
{
}

/// Every step is required, but for those that only switch controllers on.
pub proof fn law_required_steps(s: StepView)
    ensures
        !required(s) <==> s is Write,
{
}

/// No two plugins of one process share a group.
pub proof fn law_groups_are_apart(pid: u32, a: u64, b: u64)
    ensures
        group_path(pid, a) == group_path(pid, b) ==> a == b,
{
    let front = "/sys/fs/cgroup/hyperbug-plugins/plugin-"@ + dec(pid as nat) + "-"@;
    let n = front.len() as int;
    crate::text::law_numeral_round_trip(a as nat, 10, u64::MAX as nat);
    crate::text::law_numeral_round_trip(b as nat, 10, u64::MAX as nat);
    assert(group_path(pid, a).skip(n) =~= dec(a as nat));
    assert(group_path(pid, b).skip(n) =~= dec(b as nat));
}

/// A plugin without limits gets no group; one with limits gets a group of its
/// own, and its processes join that group.
pub proof fn law_limited_plugins_get_a_group(
    limits: &ResourceLimits,
    pid: u32,
    id: u64,
    r: Option<(PluginCgroup, Vec<CgroupStep>)>,
    g: &PluginCgroup,
    procs: String,
)
    requires
        call_ensures(PluginCgroup::create, (limits, pid, id), r),
        call_ensures(PluginCgroup::procs_path, (g,), procs),
    ensures
        r is Some <==> limits.mem_limit_mb is Some || limits.cpu_quota_percent is Some,
        r matches Some((h, steps)) ==> h.path@ == "/sys/fs/cgroup/hyperbug-plugins/plugin-"@ + dec(pid as nat) + "-"@
            + dec(id as nat),
        procs@ == g.path@ + "/cgroup.procs"@,
{
}

} // verus!
