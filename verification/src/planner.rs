//! Plan generation: diff the desired state against the per-machine locks.
//!
//! For each resource in execution order, templates are resolved first so
//! that the hash the planner compares is the hash the applier will store;
//! when resolution fails the unresolved resource is hashed instead.  The
//! action is `Destroy`/`NoOp` for `absent` state, `NoOp`/`Update` for a
//! locked resource depending on status and hash, and `Create` otherwise.

use vstd::prelude::*;

use crate::hashes::{fingerprint_of, hash_string};
use crate::omap::{assoc_find, OMap};
use crate::strutil::{join_sep, push_joined, str_eq, str_to_string};
use crate::template::{field_result, first_field_err, opt_view, resolve_resource_templates};
use crate::types::{
    target_names, type_label, ExecutionPlan, ForjarConfig, Machine, ParamValue, PlanAction,
    PlannedChange, Resource, ResourceStatus, ResourceType, StateLock,
};

verus! {

/// An optional component contributes itself or nothing.
pub open spec fn opt_part(o: Option<Seq<char>>) -> Seq<Seq<char>> {
    match o {
        Some(v) => seq![v],
        None => Seq::empty(),
    }
}

/// The ordered component list of the desired-state fingerprint: kind,
/// state, provider, each package, path, content, source, name, owner,
/// group, mode, filesystem type, options — present fields only.
pub open spec fn desired_components(r: Resource) -> Seq<Seq<char>> {
    seq![type_label(r.resource_type)] + opt_part(opt_view(r.state)) + opt_part(opt_view(r.provider))
        + r.packages@.map_values(|s: String| s@) + opt_part(opt_view(r.path)) + opt_part(
        opt_view(r.content),
    ) + opt_part(opt_view(r.source)) + opt_part(opt_view(r.name)) + opt_part(opt_view(r.owner))
        + opt_part(opt_view(r.group)) + opt_part(opt_view(r.mode)) + opt_part(opt_view(r.fs_type))
        + opt_part(opt_view(r.options))
}

/// The desired-state fingerprint of a resource as given: the components
/// joined with NUL separators, hashed.  Field order is part of the
/// contract — reordering fields changes the fingerprint.
pub open spec fn desired_hash(r: Resource) -> Seq<char> {
    fingerprint_of(join_sep(desired_components(r), seq!['\0']))
}

/// Append an optional component.
fn push_opt_component(components: &mut Vec<String>, o: &Option<String>)
    ensures
        final(components)@.map_values(|s: String| s@) == old(components)@.map_values(
            |s: String| s@,
        ) + opt_part(opt_view(*o)),
{
    match o {
        Some(s) => {
            components.push(s.clone());
            proof {
                assert(final(components)@.map_values(|s: String| s@) =~= old(components)@
                    .map_values(|s: String| s@) + opt_part(opt_view(*o)));
            }
        },
        None => {
            proof {
                assert(final(components)@.map_values(|s: String| s@) =~= old(components)@
                    .map_values(|s: String| s@) + opt_part(opt_view(*o)));
            }
        },
    }
}

/// Compute the desired-state fingerprint of a resource.
pub fn hash_desired_state(resource: &Resource) -> (r: String)
    ensures
        r@ == desired_hash(*resource),
{
    let mut components: Vec<String> = Vec::new();
    components.push(str_to_string(resource.resource_type.label()));
    proof {
        assert(components@.map_values(|s: String| s@) =~= seq![
            type_label(resource.resource_type),
        ]);
    }
    push_opt_component(&mut components, &resource.state);
    push_opt_component(&mut components, &resource.provider);
    let ghost before_pkgs = components@.map_values(|s: String| s@);
    let pn = resource.packages.len();
    let mut i: usize = 0;
    while i < pn
        invariant
            pn == resource.packages@.len(),
            i <= pn,
            components@.map_values(|s: String| s@) == before_pkgs + resource.packages@.take(
                i as int,
            ).map_values(|s: String| s@),
        decreases pn - i,
    {
        components.push(resource.packages[i].clone());
        proof {
            let f = |s: String| s@;
            let pv = resource.packages@[i as int]@;
            assert(resource.packages@.take(i + 1).map_values(f) =~= resource.packages@.take(
                i as int,
            ).map_values(f).push(pv));
            assert(components@.map_values(f) =~= (before_pkgs + resource.packages@.take(
                i as int,
            ).map_values(f)).push(pv));
            assert((before_pkgs + resource.packages@.take(i as int).map_values(f)).push(pv)
                =~= before_pkgs + resource.packages@.take(i as int).map_values(f).push(pv));
        }
        i += 1;
    }
    proof {
        assert(resource.packages@.take(pn as int) =~= resource.packages@);
    }
    push_opt_component(&mut components, &resource.path);
    push_opt_component(&mut components, &resource.content);
    push_opt_component(&mut components, &resource.source);
    push_opt_component(&mut components, &resource.name);
    push_opt_component(&mut components, &resource.owner);
    push_opt_component(&mut components, &resource.group);
    push_opt_component(&mut components, &resource.mode);
    push_opt_component(&mut components, &resource.fs_type);
    push_opt_component(&mut components, &resource.options);
    proof {
        assert(components@.map_values(|s: String| s@) == desired_components(*resource));
    }
    let mut text = String::new();
    push_joined(&mut text, &components, "\0");
    proof {
        reveal_strlit("\0");
        assert("\0"@ =~= seq!['\0']);
    }
    hash_string(text.as_str())
}

/// The fingerprint depends on the listed fields alone: two resources that
/// agree on kind, state, provider, packages, path, content, source, name,
/// owner, group, mode, filesystem type and options fingerprint alike,
/// whatever their machines, edges, targets or flags.
pub proof fn lemma_hash_ignores_unlisted(a: Resource, b: Resource)
    requires
        a.resource_type == b.resource_type,
        opt_view(a.state) == opt_view(b.state),
        opt_view(a.provider) == opt_view(b.provider),
        a.packages@.map_values(|s: String| s@) == b.packages@.map_values(|s: String| s@),
        opt_view(a.path) == opt_view(b.path),
        opt_view(a.content) == opt_view(b.content),
        opt_view(a.source) == opt_view(b.source),
        opt_view(a.name) == opt_view(b.name),
        opt_view(a.owner) == opt_view(b.owner),
        opt_view(a.group) == opt_view(b.group),
        opt_view(a.mode) == opt_view(b.mode),
        opt_view(a.fs_type) == opt_view(b.fs_type),
        opt_view(a.options) == opt_view(b.options),
    ensures
        desired_hash(a) == desired_hash(b),
{
    assert(desired_components(a) == desired_components(b));
}

/// The effective state of a resource: the declared state, or the kind's
/// default (`present`, `file`, `running`, `mounted`).
pub open spec fn effective_state(r: Resource) -> Seq<char> {
    match r.state {
        Some(s) => s@,
        None => match r.resource_type {
            ResourceType::Package => "present"@,
            ResourceType::File => "file"@,
            ResourceType::Service => "running"@,
            ResourceType::Mount => "mounted"@,
            _ => "present"@,
        },
    }
}

/// The action the plan prescribes, given the resolved resource's
/// fingerprint `h`: `absent` destroys what is locked and skips what is
/// not; a converged lock with a matching fingerprint is a no-op; any other
/// lock entry is updated; everything else is created.
pub open spec fn action_for(
    id: Seq<char>,
    r: Resource,
    h: Seq<char>,
    machine: Seq<char>,
    locks: Seq<(Seq<char>, StateLock)>,
) -> PlanAction {
    if effective_state(r) == "absent"@ {
        match assoc_find(locks, machine) {
            Some(l) => if crate::omap::assoc_has(l.resources@, id) {
                PlanAction::Destroy
            } else {
                PlanAction::NoOp
            },
            None => PlanAction::NoOp,
        }
    } else {
        match assoc_find(locks, machine) {
            Some(l) => match assoc_find(l.resources@, id) {
                Some(rl) => if rl.status == ResourceStatus::Converged && rl.hash@ == h {
                    PlanAction::NoOp
                } else {
                    PlanAction::Update
                },
                None => PlanAction::Create,
            },
            None => PlanAction::Create,
        }
    }
}

/// Determine the action for one resource on one machine.  `resource` is
/// the (resolved) resource whose fingerprint is compared against the lock.
pub fn determine_action(
    resource_id: &str,
    resource: &Resource,
    machine_name: &str,
    locks: &OMap<StateLock>,
) -> (r: PlanAction)
    ensures
        r == action_for(resource_id@, *resource, desired_hash(*resource), machine_name@, locks@),
{
    let state: String = match &resource.state {
        Some(s) => s.clone(),
        None => match resource.resource_type {
            ResourceType::Package => str_to_string("present"),
            ResourceType::File => str_to_string("file"),
            ResourceType::Service => str_to_string("running"),
            ResourceType::Mount => str_to_string("mounted"),
            _ => str_to_string("present"),
        },
    };
    if str_eq(state.as_str(), "absent") {
        match locks.get(machine_name) {
            Some(l) => {
                if l.resources.contains_key(resource_id) {
                    PlanAction::Destroy
                } else {
                    PlanAction::NoOp
                }
            },
            None => PlanAction::NoOp,
        }
    } else {
        match locks.get(machine_name) {
            Some(l) => {
                match l.resources.get(resource_id) {
                    Some(rl) => {
                        let is_converged = match rl.status {
                            ResourceStatus::Converged => true,
                            _ => false,
                        };
                        if is_converged {
                            let h = hash_desired_state(resource);
                            if str_eq(rl.hash.as_str(), h.as_str()) {
                                PlanAction::NoOp
                            } else {
                                PlanAction::Update
                            }
                        } else {
                            PlanAction::Update
                        }
                    },
                    None => PlanAction::Create,
                }
            },
            None => PlanAction::Create,
        }
    }
}

/// The human description attached to a planned change.
pub open spec fn describe_spec(id: Seq<char>, r: Resource, a: PlanAction) -> Seq<char> {
    match a {
        PlanAction::Create => match r.resource_type {
            ResourceType::Package => id + ": install "@ + join_sep(
                r.packages@.map_values(|s: String| s@),
                ", "@,
            ),
            ResourceType::File => id + ": create "@ + (match r.path {
                Some(p) => p@,
                None => "?"@,
            }),
            ResourceType::Service => id + ": start "@ + (match r.name {
                Some(n) => n@,
                None => "?"@,
            }),
            ResourceType::Mount => id + ": mount "@ + (match r.path {
                Some(p) => p@,
                None => "?"@,
            }),
            _ => id + ": create"@,
        },
        PlanAction::Update => id + ": update (state changed)"@,
        PlanAction::Destroy => id + ": destroy"@,
        PlanAction::NoOp => id + ": no changes"@,
    }
}

/// Render the human description of a planned action.
pub fn describe_action(resource_id: &str, resource: &Resource, action: &PlanAction) -> (r: String)
    ensures
        r@ == describe_spec(resource_id@, *resource, *action),
{
    let mut out = str_to_string(resource_id);
    match action {
        PlanAction::Create => {
            match resource.resource_type {
                ResourceType::Package => {
                    out.append(": install ");
                    push_joined(&mut out, &resource.packages, ", ");
                },
                ResourceType::File => {
                    out.append(": create ");
                    match &resource.path {
                        Some(p) => out.append(p.as_str()),
                        None => out.append("?"),
                    }
                },
                ResourceType::Service => {
                    out.append(": start ");
                    match &resource.name {
                        Some(n) => out.append(n.as_str()),
                        None => out.append("?"),
                    }
                },
                ResourceType::Mount => {
                    out.append(": mount ");
                    match &resource.path {
                        Some(p) => out.append(p.as_str()),
                        None => out.append("?"),
                    }
                },
                _ => {
                    out.append(": create");
                },
            }
        },
        PlanAction::Update => {
            out.append(": update (state changed)");
        },
        PlanAction::Destroy => {
            out.append(": destroy");
        },
        PlanAction::NoOp => {
            out.append(": no changes");
        },
    }
    out
}

/// The components of the fingerprint the planner compares: the templated
/// fields substituted when the whole resource resolves, the raw resource
/// otherwise (resolution failures fall back to the unresolved resource).
pub open spec fn planned_components(
    r: Resource,
    params: Seq<(Seq<char>, ParamValue)>,
    machines: Seq<(Seq<char>, Machine)>,
) -> Seq<Seq<char>> {
    if first_field_err(r, params, machines) is Some {
        desired_components(r)
    } else {
        seq![type_label(r.resource_type)] + opt_part(opt_view(r.state)) + opt_part(
            opt_view(r.provider),
        ) + r.packages@.map_values(|s: String| s@) + opt_part(
            field_result(r.path, params, machines)->Ok_0,
        ) + opt_part(field_result(r.content, params, machines)->Ok_0) + opt_part(
            field_result(r.source, params, machines)->Ok_0,
        ) + opt_part(field_result(r.name, params, machines)->Ok_0) + opt_part(
            field_result(r.owner, params, machines)->Ok_0,
        ) + opt_part(field_result(r.group, params, machines)->Ok_0) + opt_part(
            field_result(r.mode, params, machines)->Ok_0,
        ) + opt_part(opt_view(r.fs_type)) + opt_part(
            field_result(r.options, params, machines)->Ok_0,
        )
    }
}

/// The fingerprint the planner compares against the lock for a resource.
pub open spec fn planned_hash(
    r: Resource,
    params: Seq<(Seq<char>, ParamValue)>,
    machines: Seq<(Seq<char>, Machine)>,
) -> Seq<char> {
    fingerprint_of(join_sep(planned_components(r, params, machines), seq!['\0']))
}

/// The action depends on the resource only through its effective state.
pub proof fn lemma_action_state_only(
    id: Seq<char>,
    a: Resource,
    b: Resource,
    h: Seq<char>,
    machine: Seq<char>,
    locks: Seq<(Seq<char>, StateLock)>,
)
    requires
        effective_state(a) == effective_state(b),
    ensures
        action_for(id, a, h, machine, locks) == action_for(id, b, h, machine, locks),
{
}

/// One planned change, abstractly.
pub struct ChangeV {
    pub id: Seq<char>,
    pub machine: Seq<char>,
    pub rt: ResourceType,
    pub action: PlanAction,
    pub desc: Seq<char>,
}

/// The abstraction of a concrete planned change.
pub open spec fn change_view(c: PlannedChange) -> ChangeV {
    ChangeV {
        id: c.resource_id@,
        machine: c.machine@,
        rt: c.resource_type,
        action: c.action,
        desc: c.description@,
    }
}

/// The planned changes one resource id contributes: one per target
/// machine, in target order; ids not in the resource table contribute
/// nothing.
pub open spec fn changes_for_id(
    id: Seq<char>,
    res: Seq<(Seq<char>, Resource)>,
    params: Seq<(Seq<char>, ParamValue)>,
    machines: Seq<(Seq<char>, Machine)>,
    locks: Seq<(Seq<char>, StateLock)>,
) -> Seq<ChangeV> {
    match assoc_find(res, id) {
        None => Seq::empty(),
        Some(r) => target_names(r.machine).map_values(
            |m: Seq<char>|
                {
                    let act = action_for(id, r, planned_hash(r, params, machines), m, locks);
                    ChangeV {
                        id: id,
                        machine: m,
                        rt: r.resource_type,
                        action: act,
                        desc: describe_spec(id, r, act),
                    }
                },
        ),
    }
}

/// All planned changes, following the execution order.
pub open spec fn plan_changes(
    order: Seq<Seq<char>>,
    res: Seq<(Seq<char>, Resource)>,
    params: Seq<(Seq<char>, ParamValue)>,
    machines: Seq<(Seq<char>, Machine)>,
    locks: Seq<(Seq<char>, StateLock)>,
) -> Seq<ChangeV>
    decreases order.len(),
{
    if order.len() == 0 {
        Seq::empty()
    } else {
        changes_for_id(order[0], res, params, machines, locks) + plan_changes(
            order.drop_first(),
            res,
            params,
            machines,
            locks,
        )
    }
}

/// How many of the changes prescribe the given action.
pub open spec fn count_action(cs: Seq<ChangeV>, a: PlanAction) -> nat
    decreases cs.len(),
{
    if cs.len() == 0 {
        0
    } else {
        count_action(cs.drop_last(), a) + if cs.last().action == a {
            1nat
        } else {
            0nat
        }
    }
}

/// A count clamped to what a 32-bit counter can hold.
pub open spec fn sat32(n: nat) -> nat {
    if n > u32::MAX {
        u32::MAX as nat
    } else {
        n
    }
}

/// Add one to a counter, saturating.
fn bump(c: u32) -> (r: u32)
    ensures
        r as nat == sat32(c as nat + 1),
{
    if c == u32::MAX {
        c
    } else {
        c + 1
    }
}

/// Generate the execution plan: one change per resource id in execution
/// order and per target machine, with summary counters per action
/// (saturating at the counter's width).
pub fn plan(config: &ForjarConfig, execution_order: &Vec<String>, locks: &OMap<StateLock>) -> (r:
    ExecutionPlan)
    ensures
        r.name@ == config.name@,
        r.execution_order@.map_values(|s: String| s@) == execution_order@.map_values(
            |s: String| s@,
        ),
        r.changes@.map_values(|c: PlannedChange| change_view(c)) == plan_changes(
            execution_order@.map_values(|s: String| s@),
            config.resources@,
            config.params@,
            config.machines@,
            locks@,
        ),
        r.to_create as nat == sat32(
            count_action(r.changes@.map_values(|c: PlannedChange| change_view(c)), PlanAction::Create),
        ),
        r.to_update as nat == sat32(
            count_action(r.changes@.map_values(|c: PlannedChange| change_view(c)), PlanAction::Update),
        ),
        r.to_destroy as nat == sat32(
            count_action(
                r.changes@.map_values(|c: PlannedChange| change_view(c)),
                PlanAction::Destroy,
            ),
        ),
        r.unchanged as nat == sat32(
            count_action(r.changes@.map_values(|c: PlannedChange| change_view(c)), PlanAction::NoOp),
        ),
{
    let ghost res = config.resources@;
    let ghost pv = config.params@;
    let ghost mv = config.machines@;
    let ghost lv = locks@;
    let ghost ordv = execution_order@.map_values(|s: String| s@);

    let mut changes: Vec<PlannedChange> = Vec::new();
    let mut to_create: u32 = 0;
    let mut to_update: u32 = 0;
    let mut to_destroy: u32 = 0;
    let mut unchanged: u32 = 0;

    let n = execution_order.len();
    let mut i: usize = 0;
    proof {
        assert(ordv.skip(0) =~= ordv);
        assert(changes@.map_values(|c: PlannedChange| change_view(c)) =~= Seq::<ChangeV>::empty());
        assert(Seq::<ChangeV>::empty() + plan_changes(ordv, res, pv, mv, lv) =~= plan_changes(
            ordv,
            res,
            pv,
            mv,
            lv,
        ));
    }
    while i < n
        invariant
            n == execution_order@.len(),
            i <= n,
            res == config.resources@,
            pv == config.params@,
            mv == config.machines@,
            lv == locks@,
            ordv == execution_order@.map_values(|s: String| s@),
            plan_changes(ordv, res, pv, mv, lv) == changes@.map_values(
                |c: PlannedChange| change_view(c),
            ) + plan_changes(ordv.skip(i as int), res, pv, mv, lv),
            to_create as nat == sat32(
                count_action(
                    changes@.map_values(|c: PlannedChange| change_view(c)),
                    PlanAction::Create,
                ),
            ),
            to_update as nat == sat32(
                count_action(
                    changes@.map_values(|c: PlannedChange| change_view(c)),
                    PlanAction::Update,
                ),
            ),
            to_destroy as nat == sat32(
                count_action(
                    changes@.map_values(|c: PlannedChange| change_view(c)),
                    PlanAction::Destroy,
                ),
            ),
            unchanged as nat == sat32(
                count_action(changes@.map_values(|c: PlannedChange| change_view(c)), PlanAction::NoOp),
            ),
        decreases n - i,
    {
        let resource_id = &execution_order[i];
        let ghost idv = ordv[i as int];
        proof {
            assert(ordv.skip(i as int)[0] == idv);
            assert(ordv.skip(i as int).drop_first() =~= ordv.skip(i + 1));
        }
        match config.resources.get(resource_id.as_str()) {
            None => {
                proof {
                    assert(changes_for_id(idv, res, pv, mv, lv) =~= Seq::<ChangeV>::empty());
                    assert(changes@.map_values(|c: PlannedChange| change_view(c)) + (Seq::<
                        ChangeV,
                    >::empty() + plan_changes(ordv.skip(i + 1), res, pv, mv, lv)) =~= changes@
                        .map_values(|c: PlannedChange| change_view(c)) + plan_changes(
                        ordv.skip(i + 1),
                        res,
                        pv,
                        mv,
                        lv,
                    ));
                }
            },
            Some(resource) => {
                // Resolve templates first so the compared fingerprint is the
                // fingerprint the applier will store.
                let resolved = match resolve_resource_templates(
                    resource,
                    &config.params,
                    &config.machines,
                ) {
                    Ok(rr) => rr,
                    Err(_) => resource.dup(),
                };
                let h = hash_desired_state(&resolved);
                proof {
                    if first_field_err(*resource, pv, mv) is Some {
                        lemma_hash_ignores_unlisted(resolved, *resource);
                        assert(h@ == planned_hash(*resource, pv, mv));
                    } else {
                        assert(desired_components(resolved) == planned_components(
                            *resource,
                            pv,
                            mv,
                        ));
                        assert(h@ == planned_hash(*resource, pv, mv));
                    }
                }
                let targets = resource.machine.to_vec();
                let ghost tnames = target_names(resource.machine);
                let ghost added = changes_for_id(idv, res, pv, mv, lv);
                let ghost base = changes@.map_values(|c: PlannedChange| change_view(c));
                let tn = targets.len();
                let mut j: usize = 0;
                while j < tn
                    invariant
                        tn == targets@.len(),
                        j <= tn,
                        res == config.resources@,
                        pv == config.params@,
                        mv == config.machines@,
                        lv == locks@,
                        tnames == target_names(resource.machine),
                        tnames == targets@.map_values(|s: String| s@),
                        added == changes_for_id(idv, res, pv, mv, lv),
                        assoc_find(res, idv) == Some(*resource),
                        h@ == planned_hash(*resource, pv, mv),
                        desired_hash(resolved) == h@,
                        effective_state(resolved) == effective_state(*resource),
                        idv == resource_id@,
                        added.len() == tnames.len(),
                        changes@.map_values(|c: PlannedChange| change_view(c)) == base
                            + added.take(j as int),
                        to_create as nat == sat32(
                            count_action(
                                changes@.map_values(|c: PlannedChange| change_view(c)),
                                PlanAction::Create,
                            ),
                        ),
                        to_update as nat == sat32(
                            count_action(
                                changes@.map_values(|c: PlannedChange| change_view(c)),
                                PlanAction::Update,
                            ),
                        ),
                        to_destroy as nat == sat32(
                            count_action(
                                changes@.map_values(|c: PlannedChange| change_view(c)),
                                PlanAction::Destroy,
                            ),
                        ),
                        unchanged as nat == sat32(
                            count_action(
                                changes@.map_values(|c: PlannedChange| change_view(c)),
                                PlanAction::NoOp,
                            ),
                        ),
                    decreases tn - j,
                {
                    let machine_name = &targets[j];
                    let action = determine_action(
                        resource_id.as_str(),
                        &resolved,
                        machine_name.as_str(),
                        locks,
                    );
                    proof {
                        lemma_action_state_only(
                            idv,
                            resolved,
                            *resource,
                            h@,
                            machine_name@,
                            lv,
                        );
                        assert(tnames[j as int] == machine_name@);
                        assert(added[j as int] == ChangeV {
                            id: idv,
                            machine: machine_name@,
                            rt: resource.resource_type,
                            action: action,
                            desc: describe_spec(idv, *resource, action),
                        });
                    }
                    let description = describe_action(resource_id.as_str(), resource, &action);
                    match action {
                        PlanAction::Create => {
                            to_create = bump(to_create);
                        },
                        PlanAction::Update => {
                            to_update = bump(to_update);
                        },
                        PlanAction::Destroy => {
                            to_destroy = bump(to_destroy);
                        },
                        PlanAction::NoOp => {
                            unchanged = bump(unchanged);
                        },
                    }
                    let ghost prev_map = changes@.map_values(|c: PlannedChange| change_view(c));
                    changes.push(
                        PlannedChange {
                            resource_id: resource_id.clone(),
                            machine: machine_name.clone(),
                            resource_type: resource.resource_type,
                            action,
                            description,
                        },
                    );
                    proof {
                        let cv = |c: PlannedChange| change_view(c);
                        assert(changes@.map_values(cv) =~= prev_map.push(
                            change_view(changes@.last()),
                        ));
                        assert(change_view(changes@.last()) == added[j as int]);
                        assert(prev_map.push(added[j as int]) =~= base + added.take(j + 1));
                        assert(changes@.map_values(cv) == base + added.take(j + 1));
                        assert((base + added.take(j + 1)).drop_last() =~= base + added.take(
                            j as int,
                        ));
                    }
                    j += 1;
                }
                proof {
                    assert(added.take(tn as int) =~= added);
                    assert(base + (added + plan_changes(ordv.skip(i + 1), res, pv, mv, lv))
                        =~= (base + added) + plan_changes(ordv.skip(i + 1), res, pv, mv, lv));
                }
            },
        }
        i += 1;
    }
    proof {
        assert(ordv.skip(n as int) =~= Seq::<Seq<char>>::empty());
        assert(changes@.map_values(|c: PlannedChange| change_view(c)) + Seq::<ChangeV>::empty()
            =~= changes@.map_values(|c: PlannedChange| change_view(c)));
    }
    ExecutionPlan {
        name: config.name.clone(),
        changes,
        execution_order: crate::types::clone_strs(execution_order),
        to_create,
        to_update,
        to_destroy,
        unchanged,
    }
}

} // verus!
