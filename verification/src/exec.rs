//! The decision core of the applier.
//!
//! The loop that runs scripts lives outside the library, because it
//! spawns processes; everything it decides is here, as functions from
//! plain values to plain values: which machines a run touches and in
//! what order, whether a planned change is skipped, counted as
//! unchanged, or attempted, and how an attempt's outcome is recorded in
//! the machine's lock.

use vstd::prelude::*;

use crate::hashes::fingerprint_of;
use crate::omap::{assoc_find, assoc_upsert, OMap};
use crate::planner::{action_for, desired_hash, effective_state, hash_desired_state};
use crate::strutil::str_eq;
use crate::template::opt_view;
use crate::types::{
    target_names, ApplyResult, ExecutionPlan, ForjarConfig, Machine, ParamValue, PlanAction,
    PlannedChange, Resource, ResourceLock, ResourceStatus, StateLock,
};

verus! {

/// Every machine name any resource targets, first appearance first.
pub open spec fn dedup(s: Seq<Seq<char>>) -> Seq<Seq<char>>
    decreases s.len(),
{
    if s.len() == 0 {
        Seq::empty()
    } else {
        let d = dedup(s.drop_last());
        if d.contains(s.last()) {
            d
        } else {
            d.push(s.last())
        }
    }
}

/// The concatenation of every resource's target list, in declaration
/// order.
pub open spec fn flat_targets(res: Seq<(Seq<char>, Resource)>) -> Seq<Seq<char>>
    decreases res.len(),
{
    if res.len() == 0 {
        Seq::empty()
    } else {
        flat_targets(res.drop_last()) + target_names(res.last().1.machine)
    }
}

/// Collect the machine names referenced by resources, deduplicated,
/// first appearance first.
pub fn collect_machines(config: &ForjarConfig) -> (r: Vec<String>)
    ensures
        r@.map_values(|s: String| s@) == dedup(flat_targets(config.resources@)),
{
    let ghost res = config.resources@;
    let mut out: Vec<String> = Vec::new();
    let n = config.resources.len();
    let mut i: usize = 0;
    while i < n
        invariant
            n == res.len(),
            i <= n,
            res == config.resources@,
            out@.map_values(|s: String| s@) == dedup(flat_targets(res.take(i as int))),
        decreases n - i,
    {
        let resource = config.resources.val_at(i);
        let targets = resource.machine.to_vec();
        let ghost tnames = target_names(resource.machine);
        let ghost base = flat_targets(res.take(i as int));
        let tn = targets.len();
        let mut j: usize = 0;
        while j < tn
            invariant
                tn == targets@.len(),
                j <= tn,
                tnames == targets@.map_values(|s: String| s@),
                out@.map_values(|s: String| s@) == dedup(base + tnames.take(j as int)),
            decreases tn - j,
        {
            let m = &targets[j];
            let ghost pre = out@;
            if !contains_str(&out, m.as_str()) {
                out.push(m.clone());
            }
            proof {
                let f = |s: String| s@;
                assert(tnames[j as int] == targets@[j as int]@);
                assert((base + tnames.take(j + 1)).drop_last() =~= base + tnames.take(j as int));
                assert((base + tnames.take(j + 1)).last() == tnames[j as int]);
                if pre.map_values(f).contains(tnames[j as int]) {
                    assert(out@.map_values(f) == dedup(base + tnames.take(j + 1)));
                } else {
                    assert(out@.map_values(f) =~= pre.map_values(f).push(tnames[j as int]));
                    assert(out@.map_values(f) == dedup(base + tnames.take(j + 1)));
                }
            }
            j += 1;
        }
        proof {
            assert(tnames.take(tn as int) =~= tnames);
            assert(res.take(i + 1).drop_last() =~= res.take(i as int));
            assert(res.take(i + 1).last() == res[i as int]);
            assert(flat_targets(res.take(i + 1)) == base + tnames);
        }
        i += 1;
    }
    proof {
        assert(res.take(n as int) =~= res);
    }
    out
}

/// Whether `needle` occurs in the vector.
fn contains_str(v: &Vec<String>, needle: &str) -> (r: bool)
    ensures
        r == v@.map_values(|s: String| s@).contains(needle@),
{
    let n = v.len();
    let mut i: usize = 0;
    while i < n
        invariant
            n == v.len(),
            i <= n,
            forall|j: int| 0 <= j < i ==> (#[trigger] v@[j])@ != needle@,
        decreases n - i,
    {
        if str_eq(v[i].as_str(), needle) {
            assert(v@.map_values(|s: String| s@)[i as int] == needle@);
            return true;
        }
        i += 1;
    }
    proof {
        let m = v@.map_values(|s: String| s@);
        if m.contains(needle@) {
            let j = choose|j: int| 0 <= j < m.len() && m[j] == needle@;
            assert(v@[j]@ == needle@);
            assert(false);
        }
    }
    false
}

/// The record synthesized for the reserved machine name `localhost` when
/// it is targeted without being declared.
pub fn localhost_machine() -> (r: Machine)
    ensures
        r.hostname@ == "localhost"@,
        r.addr@ == "127.0.0.1"@,
        r.user@ == "root"@,
        r.arch@ == "x86_64"@,
        r.ssh_key is None,
        r.roles@.len() == 0,
{
    Machine {
        hostname: crate::strutil::str_to_string("localhost"),
        addr: crate::strutil::str_to_string("127.0.0.1"),
        user: crate::strutil::str_to_string("root"),
        arch: crate::strutil::str_to_string("x86_64"),
        ssh_key: None,
        roles: Vec::new(),
    }
}

/// The planned changes that concern one machine, in plan order.
pub open spec fn changes_for_machine(changes: Seq<PlannedChange>, machine: Seq<char>) -> Seq<
    PlannedChange,
>
    decreases changes.len(),
{
    if changes.len() == 0 {
        Seq::empty()
    } else {
        changes_for_machine(changes.drop_last(), machine) + (if changes.last().machine@
            == machine {
            seq![changes.last()]
        } else {
            Seq::empty()
        })
    }
}

/// Filter a plan's changes to one machine, preserving plan order.
pub fn filter_changes(plan: &ExecutionPlan, machine_name: &str) -> (r: Vec<PlannedChange>)
    ensures
        r@ == changes_for_machine(plan.changes@, machine_name@),
{
    let ghost cs = plan.changes@;
    let mut out: Vec<PlannedChange> = Vec::new();
    let n = plan.changes.len();
    let mut i: usize = 0;
    while i < n
        invariant
            n == cs.len(),
            cs == plan.changes@,
            i <= n,
            out@ =~= changes_for_machine(cs.take(i as int), machine_name@),
        decreases n - i,
    {
        let c = &plan.changes[i];
        if str_eq(c.machine.as_str(), machine_name) {
            out.push(dup_change(c));
        }
        proof {
            assert(cs.take(i + 1).drop_last() =~= cs.take(i as int));
            assert(cs.take(i + 1).last() == cs[i as int]);
            assert(out@ =~= changes_for_machine(cs.take(i + 1), machine_name@));
        }
        i += 1;
    }
    proof {
        assert(cs.take(n as int) =~= cs);
    }
    out
}

fn dup_change(c: &PlannedChange) -> (r: PlannedChange)
    ensures
        r == *c,
{
    PlannedChange {
        resource_id: c.resource_id.clone(),
        machine: c.machine.clone(),
        resource_type: c.resource_type,
        action: c.action,
        description: c.description.clone(),
    }
}

/// What becomes of a planned change before any script runs.
#[derive(Debug, Clone, Copy, PartialEq, Eq, Structural)]
pub enum PreDecision {
    /// Filtered out by the resource filter: not attempted, not counted.
    Skip,
    /// A no-op that is not forced: counted as unchanged.
    Unchanged,
    /// Everything else: scripts run.
    Proceed,
}

/// Decide a change's fate before execution: a set resource filter that
/// does not name it skips it; an unforced no-op is unchanged; anything
/// else proceeds.
pub fn pre_decision(change: &PlannedChange, resource_filter: Option<&String>, force: bool) -> (r:
    PreDecision)
    ensures
        r == (match resource_filter {
            Some(f) => {
                if change.resource_id@ != f@ {
                    PreDecision::Skip
                } else if change.action == PlanAction::NoOp && !force {
                    PreDecision::Unchanged
                } else {
                    PreDecision::Proceed
                }
            },
            None => {
                if change.action == PlanAction::NoOp && !force {
                    PreDecision::Unchanged
                } else {
                    PreDecision::Proceed
                }
            },
        }),
{
    match resource_filter {
        Some(f) => {
            if !str_eq(change.resource_id.as_str(), f.as_str()) {
                return PreDecision::Skip;
            }
        },
        None => {},
    }
    let noop = match change.action {
        PlanAction::NoOp => true,
        _ => false,
    };
    if noop && !force {
        PreDecision::Unchanged
    } else {
        PreDecision::Proceed
    }
}

/// The single synthetic result a dry run reports: nothing converged or
/// failed, and the plan's unchanged count carried over.
pub fn dry_run_result(plan: &ExecutionPlan) -> (r: ApplyResult)
    ensures
        r.machine@ == "dry-run"@,
        r.resources_converged == 0,
        r.resources_unchanged == plan.unchanged,
        r.resources_failed == 0,
        r.total_millis == 0,
{
    ApplyResult {
        machine: crate::strutil::str_to_string("dry-run"),
        resources_converged: 0,
        resources_unchanged: plan.unchanged,
        resources_failed: 0,
        total_millis: 0,
    }
}



/// An optional detail entry: the key bound to a string value.
pub open spec fn opt_detail(key: Seq<char>, v: Option<Seq<char>>) -> Seq<(Seq<char>, Seq<char>)> {
    match v {
        Some(t) => seq![(key, t)],
        None => Seq::empty(),
    }
}

/// The detail entries recorded for a converged resource, in order: the
/// path, the fingerprint of the inline content, owner, group, mode, and
/// the service name.
pub open spec fn detail_entries(r: Resource) -> Seq<(Seq<char>, Seq<char>)> {
    opt_detail("path"@, opt_view(r.path)) + (match r.content {
        Some(c) => seq![("content_hash"@, fingerprint_of(c@))],
        None => Seq::empty(),
    }) + opt_detail("owner"@, opt_view(r.owner)) + opt_detail("group"@, opt_view(r.group))
        + opt_detail("mode"@, opt_view(r.mode)) + opt_detail("service_name"@, opt_view(r.name))
}

/// The text of a details bag whose values are all strings.
pub open spec fn details_text(d: Seq<(Seq<char>, ParamValue)>) -> Seq<(Seq<char>, Seq<char>)> {
    d.map_values(|p: (Seq<char>, ParamValue)| (p.0, crate::types::scalar_text(p.1)))
}

proof fn lemma_detail_keys()
    ensures
        "path"@ != "content_hash"@,
        "path"@ != "owner"@,
        "path"@ != "group"@,
        "path"@ != "mode"@,
        "path"@ != "service_name"@,
        "path"@ != "live_hash"@,
        "content_hash"@ != "owner"@,
        "content_hash"@ != "group"@,
        "content_hash"@ != "mode"@,
        "content_hash"@ != "service_name"@,
        "content_hash"@ != "live_hash"@,
        "owner"@ != "group"@,
        "owner"@ != "mode"@,
        "owner"@ != "service_name"@,
        "owner"@ != "live_hash"@,
        "group"@ != "mode"@,
        "group"@ != "service_name"@,
        "group"@ != "live_hash"@,
        "mode"@ != "service_name"@,
        "mode"@ != "live_hash"@,
        "service_name"@ != "live_hash"@,
{
    reveal_strlit("path");
    reveal_strlit("content_hash");
    reveal_strlit("owner");
    reveal_strlit("group");
    reveal_strlit("mode");
    reveal_strlit("service_name");
    reveal_strlit("live_hash");
    assert("path"@.len() == 4);
    assert("content_hash"@.len() == 12);
    assert("owner"@.len() == 5);
    assert("group"@.len() == 5);
    assert("mode"@.len() == 4);
    assert("service_name"@.len() == 12);
    assert("live_hash"@.len() == 9);
    assert("path"@[0] == 'p' && "mode"@[0] == 'm');
    assert("owner"@[0] == 'o' && "group"@[0] == 'g');
    assert("content_hash"@[0] == 'c' && "service_name"@[0] == 's');
}

/// Insert a fresh string detail, shifting nothing.
fn push_detail(details: &mut OMap<ParamValue>, key: &str, value: String)
    requires
        old(details).wf(),
        forall|j: int| 0 <= j < old(details)@.len() ==> (#[trigger] old(details)@[j]).0 != key@,
    ensures
        final(details).wf(),
        final(details)@ == old(details)@ + seq![(key@, ParamValue::Str(value))],
{
    proof {
        crate::omap::lemma_assoc_find_none(details@, key@);
        crate::omap::lemma_assoc_upsert_missing(details@, key@, ParamValue::Str(value));
    }
    details.insert(crate::strutil::str_to_string(key), ParamValue::Str(value));
}

/// Build the detail bag recorded for a converged resource: path, content
/// fingerprint, owner, group, mode and service name, whichever apply.
/// Every value is a string.
#[verifier::rlimit(100)]
pub fn build_resource_details(resource: &Resource) -> (r: OMap<ParamValue>)
    ensures
        r.wf(),
        details_text(r@) == detail_entries(*resource),
        forall|j: int| 0 <= j < r@.len() ==> (#[trigger] r@[j]).1 is Str,
        forall|j: int| 0 <= j < r@.len() ==> (#[trigger] r@[j]).0 != "live_hash"@,
{
    proof {
        lemma_detail_keys();
    }
    let mut details: OMap<ParamValue> = OMap::new();
    if let Some(p) = &resource.path {
        push_detail(&mut details, "path", p.clone());
    }
    proof {
        assert(details_text(details@) =~= opt_detail("path"@, opt_view(resource.path)));
        assert(forall|j: int|
            0 <= j < details@.len() ==> (#[trigger] details@[j]).0 == "path"@);
    }
    if let Some(c) = &resource.content {
        let h = crate::hashes::hash_string(c.as_str());
        push_detail(&mut details, "content_hash", h);
    }
    proof {
        assert(details_text(details@) =~= opt_detail("path"@, opt_view(resource.path)) + (
        match resource.content {
            Some(c) => seq![("content_hash"@, fingerprint_of(c@))],
            None => Seq::<(Seq<char>, Seq<char>)>::empty(),
        }));
        assert(forall|j: int|
            0 <= j < details@.len() ==> (#[trigger] details@[j]).0 == "path"@ || details@[j].0
                == "content_hash"@);
    }
    if let Some(o) = &resource.owner {
        push_detail(&mut details, "owner", o.clone());
    }
    proof {
        assert(forall|j: int|
            0 <= j < details@.len() ==> (#[trigger] details@[j]).0 == "path"@ || details@[j].0
                == "content_hash"@ || details@[j].0 == "owner"@);
    }
    if let Some(g) = &resource.group {
        push_detail(&mut details, "group", g.clone());
    }
    proof {
        assert(forall|j: int|
            0 <= j < details@.len() ==> (#[trigger] details@[j]).0 == "path"@ || details@[j].0
                == "content_hash"@ || details@[j].0 == "owner"@ || details@[j].0 == "group"@);
    }
    if let Some(m) = &resource.mode {
        push_detail(&mut details, "mode", m.clone());
    }
    proof {
        assert(forall|j: int|
            0 <= j < details@.len() ==> (#[trigger] details@[j]).0 == "path"@ || details@[j].0
                == "content_hash"@ || details@[j].0 == "owner"@ || details@[j].0 == "group"@
                || details@[j].0 == "mode"@);
    }
    if let Some(n) = &resource.name {
        push_detail(&mut details, "service_name", n.clone());
    }
    proof {
        assert(forall|j: int|
            0 <= j < details@.len() ==> (#[trigger] details@[j]).0 == "path"@ || details@[j].0
                == "content_hash"@ || details@[j].0 == "owner"@ || details@[j].0 == "group"@
                || details@[j].0 == "mode"@ || details@[j].0 == "service_name"@);
        assert(details_text(details@) =~= detail_entries(*resource));
    }
    details
}

/// Record a successful application: the lock gains (or updates in place)
/// an entry with status converged, the desired-state fingerprint of the
/// resolved resource, the detail bag, and the live fingerprint when one
/// was obtained.  Every other lock entry keeps its binding.
pub fn record_success(
    lock: &mut StateLock,
    resource_id: &str,
    resource: &Resource,
    resolved: &Resource,
    live_hash: Option<String>,
    applied_at: String,
    duration_millis: u64,
)
    requires
        old(lock).resources.wf(),
    ensures
        final(lock).resources.wf(),
        final(lock).schema == old(lock).schema,
        final(lock).machine == old(lock).machine,
        final(lock).hostname == old(lock).hostname,
        final(lock).generated_at == old(lock).generated_at,
        exists|rl: ResourceLock|
            {
                &&& final(lock).resources@ == assoc_upsert(
                    old(lock).resources@,
                    resource_id@,
                    rl,
                )
                &&& rl.resource_type == resource.resource_type
                &&& rl.status == ResourceStatus::Converged
                &&& rl.applied_at == Some(applied_at)
                &&& rl.duration_millis == Some(duration_millis)
                &&& rl.hash@ == desired_hash(*resolved)
                &&& details_text(rl.details@) == detail_entries(*resolved) + (match live_hash {
                    Some(lh) => seq![("live_hash"@, lh@)],
                    None => Seq::<(Seq<char>, Seq<char>)>::empty(),
                })
            },
{
    let desired = hash_desired_state(resolved);
    let mut details = build_resource_details(resolved);
    match live_hash {
        Some(lh) => {
            proof {
                lemma_detail_keys();
            }
            push_detail(&mut details, "live_hash", lh);
            proof {
                assert(details_text(details@) =~= detail_entries(*resolved) + seq![
                    ("live_hash"@, details@.last().1->Str_0@),
                ]);
            }
        },
        None => {
            proof {
                assert(detail_entries(*resolved) + Seq::<(Seq<char>, Seq<char>)>::empty()
                    =~= detail_entries(*resolved));
            }
        },
    }
    let entry = ResourceLock {
        resource_type: resource.resource_type,
        status: ResourceStatus::Converged,
        applied_at: Some(applied_at),
        duration_millis: Some(duration_millis),
        hash: desired,
        details,
    };
    lock.resources.insert(crate::strutil::str_to_string(resource_id), entry);
}

/// Record a failed application: the lock gains (or updates in place) an
/// entry with status failed, an empty fingerprint and no details.
/// Returns whether the stop-on-first policy halts the machine.
pub fn record_failure(
    lock: &mut StateLock,
    resource_id: &str,
    resource_type: crate::types::ResourceType,
    applied_at: String,
    duration_millis: u64,
    stop_on_first: bool,
) -> (r: bool)
    requires
        old(lock).resources.wf(),
    ensures
        final(lock).resources.wf(),
        final(lock).schema == old(lock).schema,
        final(lock).machine == old(lock).machine,
        final(lock).hostname == old(lock).hostname,
        final(lock).generated_at == old(lock).generated_at,
        r == stop_on_first,
        exists|rl: ResourceLock|
            {
                &&& final(lock).resources@ == assoc_upsert(
                    old(lock).resources@,
                    resource_id@,
                    rl,
                )
                &&& rl.resource_type == resource_type
                &&& rl.status == ResourceStatus::Failed
                &&& rl.applied_at == Some(applied_at)
                &&& rl.duration_millis == Some(duration_millis)
                &&& rl.hash@.len() == 0
                &&& rl.details@.len() == 0
            },
{
    let entry = ResourceLock {
        resource_type,
        status: ResourceStatus::Failed,
        applied_at: Some(applied_at),
        duration_millis: Some(duration_millis),
        hash: String::new(),
        details: OMap::new(),
    };
    lock.resources.insert(crate::strutil::str_to_string(resource_id), entry);
    stop_on_first
}

/// Fingerprint parity between planner and applier: the fingerprint the
/// applier stores for a resolved resource is exactly the fingerprint the
/// planner compared against the lock, whenever the resource resolves.
pub proof fn lemma_plan_apply_hash_parity(
    resource: Resource,
    resolved: Resource,
    params: Seq<(Seq<char>, ParamValue)>,
    machines: Seq<(Seq<char>, crate::types::Machine)>,
)
    requires
        crate::template::first_field_err(resource, params, machines) is None,
        resolved.resource_type == resource.resource_type,
        resolved.state == resource.state,
        resolved.provider == resource.provider,
        resolved.packages@ == resource.packages@,
        resolved.fs_type == resource.fs_type,
        crate::template::field_result(resource.path, params, machines) == Ok::<_,
        crate::template::TErr>(opt_view(resolved.path)),
        crate::template::field_result(resource.content, params, machines) == Ok::<_,
        crate::template::TErr>(opt_view(resolved.content)),
        crate::template::field_result(resource.source, params, machines) == Ok::<_,
        crate::template::TErr>(opt_view(resolved.source)),
        crate::template::field_result(resource.name, params, machines) == Ok::<_,
        crate::template::TErr>(opt_view(resolved.name)),
        crate::template::field_result(resource.owner, params, machines) == Ok::<_,
        crate::template::TErr>(opt_view(resolved.owner)),
        crate::template::field_result(resource.group, params, machines) == Ok::<_,
        crate::template::TErr>(opt_view(resolved.group)),
        crate::template::field_result(resource.mode, params, machines) == Ok::<_,
        crate::template::TErr>(opt_view(resolved.mode)),
        crate::template::field_result(resource.options, params, machines) == Ok::<_,
        crate::template::TErr>(opt_view(resolved.options)),
    ensures
        desired_hash(resolved) == crate::planner::planned_hash(resource, params, machines),
{
    assert(crate::planner::desired_components(resolved) == crate::planner::planned_components(
        resource,
        params,
        machines,
    ));
}

/// Idempotence of convergence: once a machine's lock records a resource
/// as converged under the fingerprint the planner computes for it, the
/// planner's next action for that resource on that machine is a no-op —
/// so a second run attempts nothing that the first run converged.
pub proof fn lemma_converged_replans_noop(
    id: Seq<char>,
    r: Resource,
    h: Seq<char>,
    machine: Seq<char>,
    locks: Seq<(Seq<char>, StateLock)>,
    l: StateLock,
    rl: ResourceLock,
)
    requires
        assoc_find(locks, machine) == Some(l),
        assoc_find(l.resources@, id) == Some(rl),
        rl.status == ResourceStatus::Converged,
        rl.hash@ == h,
        effective_state(r) != "absent"@,
    ensures
        action_for(id, r, h, machine, locks) == PlanAction::NoOp,
{
}

} // verus!
