//! Structural and referential validation of a configuration.
//!
//! Validation never stops at the first fault: every diagnostic is
//! collected, in document order — schema version, name, then each
//! resource's machine references, dependency references and
//! kind-specific required fields.

use vstd::prelude::*;

use crate::omap::assoc_has;
use crate::strutil::{str_eq, str_to_string};
use crate::types::{
    target_names, ForjarConfig, Machine, Resource, ResourceType, ValidationError,
};

verus! {

/// `version must be "1.0", got "<v>"`.
pub open spec fn msg_version(v: Seq<char>) -> Seq<char> {
    "version must be \"1.0\", got \""@ + v + "\""@
}

/// `resource '<id>' references unknown machine '<m>'`.
pub open spec fn msg_unknown_machine(id: Seq<char>, m: Seq<char>) -> Seq<char> {
    "resource '"@ + id + "' references unknown machine '"@ + m + "'"@
}

/// `resource '<id>' depends on unknown resource '<dep>'`.
pub open spec fn msg_unknown_dep(id: Seq<char>, dep: Seq<char>) -> Seq<char> {
    "resource '"@ + id + "' depends on unknown resource '"@ + dep + "'"@
}

/// `resource '<id>' depends on itself`.
pub open spec fn msg_self_dep(id: Seq<char>) -> Seq<char> {
    "resource '"@ + id + "' depends on itself"@
}

/// The diagnostics for a resource's machine references, in target order:
/// any name that is neither a declared machine nor the reserved
/// `localhost`.
pub open spec fn machine_ref_errs(
    machines: Seq<(Seq<char>, Machine)>,
    id: Seq<char>,
    ms: Seq<Seq<char>>,
) -> Seq<Seq<char>>
    decreases ms.len(),
{
    if ms.len() == 0 {
        Seq::empty()
    } else {
        machine_ref_errs(machines, id, ms.drop_last()) + (if !assoc_has(machines, ms.last())
            && ms.last() != "localhost"@ {
            seq![msg_unknown_machine(id, ms.last())]
        } else {
            Seq::empty()
        })
    }
}

/// The diagnostics for a resource's dependency edges, in edge order: an
/// undeclared dependency, then a self-dependency, per edge.
pub open spec fn dep_errs(
    res: Seq<(Seq<char>, Resource)>,
    id: Seq<char>,
    deps: Seq<Seq<char>>,
) -> Seq<Seq<char>>
    decreases deps.len(),
{
    if deps.len() == 0 {
        Seq::empty()
    } else {
        dep_errs(res, id, deps.drop_last()) + (if !assoc_has(res, deps.last()) {
            seq![msg_unknown_dep(id, deps.last())]
        } else {
            Seq::empty()
        }) + (if deps.last() == id {
            seq![msg_self_dep(id)]
        } else {
            Seq::empty()
        })
    }
}

/// The diagnostics for a resource's kind-specific required fields.
pub open spec fn type_errs(id: Seq<char>, r: Resource) -> Seq<Seq<char>> {
    match r.resource_type {
        ResourceType::Package => (if r.packages@.len() == 0 {
            seq!["resource '"@ + id + "' (package) has no packages"@]
        } else {
            Seq::empty()
        }) + (if r.provider is None {
            seq!["resource '"@ + id + "' (package) has no provider"@]
        } else {
            Seq::empty()
        }),
        ResourceType::File => if r.path is None {
            seq!["resource '"@ + id + "' (file) has no path"@]
        } else {
            Seq::empty()
        },
        ResourceType::Service => if r.name is None {
            seq!["resource '"@ + id + "' (service) has no name"@]
        } else {
            Seq::empty()
        },
        ResourceType::Mount => if r.source is None && r.path is None {
            seq!["resource '"@ + id + "' (mount) needs source and target path"@]
        } else {
            Seq::empty()
        },
        _ => Seq::empty(),
    }
}

/// All diagnostics of one resource.
pub open spec fn resource_errs(c: ForjarConfig, id: Seq<char>, r: Resource) -> Seq<Seq<char>> {
    machine_ref_errs(c.machines@, id, target_names(r.machine)) + dep_errs(
        c.resources@,
        id,
        r.depends_on@.map_values(|s: String| s@),
    ) + type_errs(id, r)
}

/// All diagnostics of a resource-table prefix, in declaration order.
pub open spec fn resources_errs(c: ForjarConfig, res: Seq<(Seq<char>, Resource)>) -> Seq<Seq<char>>
    decreases res.len(),
{
    if res.len() == 0 {
        Seq::empty()
    } else {
        resources_errs(c, res.drop_last()) + resource_errs(c, res.last().0, res.last().1)
    }
}

/// Every diagnostic a configuration earns: version, name, then each
/// resource in order.  Empty means valid.
pub open spec fn validation_msgs(c: ForjarConfig) -> Seq<Seq<char>> {
    (if c.version@ != "1.0"@ {
        seq![msg_version(c.version@)]
    } else {
        Seq::empty()
    }) + (if c.name@.len() == 0 {
        seq!["name must not be empty"@]
    } else {
        Seq::empty()
    }) + resources_errs(c, c.resources@)
}

/// The message views of collected errors.
pub open spec fn msgs_of(errors: Seq<ValidationError>) -> Seq<Seq<char>> {
    errors.map_values(|e: ValidationError| e.message@)
}

fn push_err(errors: &mut Vec<ValidationError>, message: String)
    ensures
        msgs_of(final(errors)@) == msgs_of(old(errors)@) + seq![message@],
{
    let ghost m = message@;
    errors.push(ValidationError { message });
    proof {
        assert(msgs_of(errors@) =~= msgs_of(old(errors)@) + seq![m]);
    }
}

/// Validate machine and dependency references for a single resource.
pub fn validate_resource_refs(
    config: &ForjarConfig,
    id: &str,
    resource: &Resource,
    errors: &mut Vec<ValidationError>,
)
    ensures
        msgs_of(final(errors)@) == msgs_of(old(errors)@) + machine_ref_errs(
            config.machines@,
            id@,
            target_names(resource.machine),
        ) + dep_errs(
            config.resources@,
            id@,
            resource.depends_on@.map_values(|s: String| s@),
        ),
{
    let ghost base = msgs_of(errors@);
    let ghost tnames = target_names(resource.machine);
    let targets = resource.machine.to_vec();
    let tn = targets.len();
    let mut i: usize = 0;
    while i < tn
        invariant
            tn == targets@.len(),
            tnames == targets@.map_values(|s: String| s@),
            tnames == target_names(resource.machine),
            i <= tn,
            msgs_of(errors@) == base + machine_ref_errs(config.machines@, id@, tnames.take(i as int)),
        decreases tn - i,
    {
        let m = &targets[i];
        if !config.machines.contains_key(m.as_str()) && !str_eq(m.as_str(), "localhost") {
            let mut msg = str_to_string("resource '");
            msg.append(id);
            msg.append("' references unknown machine '");
            msg.append(m.as_str());
            msg.append("'");
            push_err(errors, msg);
        }
        proof {
            assert(tnames.take(i + 1).drop_last() =~= tnames.take(i as int));
            assert(tnames.take(i + 1).last() == tnames[i as int]);
            assert(msgs_of(errors@) =~= base + machine_ref_errs(
                config.machines@,
                id@,
                tnames.take(i + 1),
            ));
        }
        i += 1;
    }
    proof {
        assert(tnames.take(tn as int) =~= tnames);
    }
    let ghost mid = msgs_of(errors@);
    let ghost dnames = resource.depends_on@.map_values(|s: String| s@);
    let dn = resource.depends_on.len();
    let mut k: usize = 0;
    while k < dn
        invariant
            dn == resource.depends_on@.len(),
            dnames == resource.depends_on@.map_values(|s: String| s@),
            k <= dn,
            msgs_of(errors@) == mid + dep_errs(config.resources@, id@, dnames.take(k as int)),
        decreases dn - k,
    {
        let dep = &resource.depends_on[k];
        if !config.resources.contains_key(dep.as_str()) {
            let mut msg = str_to_string("resource '");
            msg.append(id);
            msg.append("' depends on unknown resource '");
            msg.append(dep.as_str());
            msg.append("'");
            push_err(errors, msg);
        }
        if str_eq(dep.as_str(), id) {
            let mut msg = str_to_string("resource '");
            msg.append(id);
            msg.append("' depends on itself");
            push_err(errors, msg);
        }
        proof {
            assert(dnames.take(k + 1).drop_last() =~= dnames.take(k as int));
            assert(dnames.take(k + 1).last() == dnames[k as int]);
            assert(msgs_of(errors@) =~= mid + dep_errs(config.resources@, id@, dnames.take(k + 1)));
        }
        k += 1;
    }
    proof {
        assert(dnames.take(dn as int) =~= dnames);
    }
}

/// Validate kind-specific required fields for a resource.
pub fn validate_resource_type(id: &str, resource: &Resource, errors: &mut Vec<ValidationError>)
    ensures
        msgs_of(final(errors)@) == msgs_of(old(errors)@) + type_errs(id@, *resource),
{
    let ghost base = msgs_of(errors@);
    match resource.resource_type {
        ResourceType::Package => {
            if resource.packages.len() == 0 {
                let mut msg = str_to_string("resource '");
                msg.append(id);
                msg.append("' (package) has no packages");
                push_err(errors, msg);
            }
            if resource.provider.is_none() {
                let mut msg = str_to_string("resource '");
                msg.append(id);
                msg.append("' (package) has no provider");
                push_err(errors, msg);
            }
            proof {
                assert(msgs_of(errors@) =~= base + type_errs(id@, *resource));
            }
        },
        ResourceType::File => {
            if resource.path.is_none() {
                let mut msg = str_to_string("resource '");
                msg.append(id);
                msg.append("' (file) has no path");
                push_err(errors, msg);
            }
            proof {
                assert(msgs_of(errors@) =~= base + type_errs(id@, *resource));
            }
        },
        ResourceType::Service => {
            if resource.name.is_none() {
                let mut msg = str_to_string("resource '");
                msg.append(id);
                msg.append("' (service) has no name");
                push_err(errors, msg);
            }
            proof {
                assert(msgs_of(errors@) =~= base + type_errs(id@, *resource));
            }
        },
        ResourceType::Mount => {
            if resource.source.is_none() && resource.path.is_none() {
                let mut msg = str_to_string("resource '");
                msg.append(id);
                msg.append("' (mount) needs source and target path");
                push_err(errors, msg);
            }
            proof {
                assert(msgs_of(errors@) =~= base + type_errs(id@, *resource));
            }
        },
        _ => {
            proof {
                assert(msgs_of(errors@) =~= base + type_errs(id@, *resource));
            }
        },
    }
}

/// Validate a configuration.  The returned list holds every diagnostic,
/// in document order; an empty list means the configuration is valid.
pub fn validate_config(config: &ForjarConfig) -> (r: Vec<ValidationError>)
    ensures
        msgs_of(r@) == validation_msgs(*config),
{
    let mut errors: Vec<ValidationError> = Vec::new();

    if !str_eq(config.version.as_str(), "1.0") {
        let mut msg = str_to_string("version must be \"1.0\", got \"");
        msg.append(config.version.as_str());
        msg.append("\"");
        push_err(&mut errors, msg);
    }
    if config.name.as_str().unicode_len() == 0 {
        push_err(&mut errors, str_to_string("name must not be empty"));
    }
    let ghost head = msgs_of(errors@);
    proof {
        assert(head =~= (if config.version@ != "1.0"@ {
            seq![msg_version(config.version@)]
        } else {
            Seq::<Seq<char>>::empty()
        }) + (if config.name@.len() == 0 {
            seq!["name must not be empty"@]
        } else {
            Seq::<Seq<char>>::empty()
        }));
    }

    let rn = config.resources.len();
    let mut i: usize = 0;
    while i < rn
        invariant
            rn == config.resources@.len(),
            i <= rn,
            msgs_of(errors@) == head + resources_errs(*config, config.resources@.take(i as int)),
        decreases rn - i,
    {
        let id = config.resources.key_at(i);
        let resource = config.resources.val_at(i);
        validate_resource_refs(config, id.as_str(), resource, &mut errors);
        validate_resource_type(id.as_str(), resource, &mut errors);
        proof {
            let res = config.resources@;
            assert(res.take(i + 1).drop_last() =~= res.take(i as int));
            assert(res.take(i + 1).last() == res[i as int]);
            assert(msgs_of(errors@) =~= head + resources_errs(*config, res.take(i + 1)));
        }
        i += 1;
    }
    proof {
        assert(config.resources@.take(rn as int) =~= config.resources@);
        assert(msgs_of(errors@) =~= validation_msgs(*config));
    }
    errors
}

} // verus!
