//! Script generation: dispatch to the handler for each resource kind.
//!
//! Package, file, service and mount resources have handlers; the other
//! kinds are declared in the schema but have no generator yet, so asking
//! for their scripts is an error.

use vstd::prelude::*;

use crate::resources::{file, mount, package, service};
use crate::strutil::str_to_string;
use crate::types::{type_label, Resource, ResourceType};

verus! {

/// Whether a resource kind has a script generator.
pub open spec fn has_handler(t: ResourceType) -> bool {
    t == ResourceType::Package || t == ResourceType::File || t == ResourceType::Service || t
        == ResourceType::Mount
}

/// The message reported for a kind without a generator.
pub open spec fn unsupported_msg(t: ResourceType) -> Seq<char> {
    "codegen not implemented for "@ + type_label(t) + " (Phase 2+)"@
}

fn unsupported(t: ResourceType) -> (r: String)
    ensures
        r@ == unsupported_msg(t),
{
    let mut m = str_to_string("codegen not implemented for ");
    m.append(t.label());
    m.append(" (Phase 2+)");
    m
}

/// The check script of a resource, per its kind's handler.
pub open spec fn check_spec(r: Resource) -> Seq<char> {
    match r.resource_type {
        ResourceType::Package => package::package_check_spec(r),
        ResourceType::File => file::file_check_spec(file::path_or_null(r), file::file_state(r)),
        ResourceType::Service => service::service_check_spec(service::unit_name(r)),
        ResourceType::Mount => mount::mount_check_spec(mount::mount_target(r)),
        _ => Seq::empty(),
    }
}

/// Generate a check script, or report the kind as unsupported.
pub fn check_script(resource: &Resource) -> (r: Result<String, String>)
    ensures
        if has_handler(resource.resource_type) {
            r is Ok && r->Ok_0@ == check_spec(*resource)
        } else {
            r is Err && r->Err_0@ == unsupported_msg(resource.resource_type)
        },
{
    match resource.resource_type {
        ResourceType::Package => Ok(package::check_script(resource)),
        ResourceType::File => Ok(file::check_script(resource)),
        ResourceType::Service => Ok(service::check_script(resource)),
        ResourceType::Mount => Ok(mount::check_script(resource)),
        other => Err(unsupported(other)),
    }
}

/// The apply script of a resource, per its kind's handler.
pub open spec fn apply_spec(r: Resource) -> Seq<char> {
    match r.resource_type {
        ResourceType::Package => package::package_apply_spec(r),
        ResourceType::File => file::file_apply_spec(r),
        ResourceType::Service => service::service_apply_spec(r),
        ResourceType::Mount => mount::mount_apply_spec(r),
        _ => Seq::empty(),
    }
}

/// Generate an apply script, or report the kind as unsupported.
pub fn apply_script(resource: &Resource) -> (r: Result<String, String>)
    ensures
        if has_handler(resource.resource_type) {
            r is Ok && r->Ok_0@ == apply_spec(*resource)
        } else {
            r is Err && r->Err_0@ == unsupported_msg(resource.resource_type)
        },
{
    match resource.resource_type {
        ResourceType::Package => Ok(package::apply_script(resource)),
        ResourceType::File => Ok(file::apply_script(resource)),
        ResourceType::Service => Ok(service::apply_script(resource)),
        ResourceType::Mount => Ok(mount::apply_script(resource)),
        other => Err(unsupported(other)),
    }
}

/// The state query script of a resource, per its kind's handler.
pub open spec fn query_spec(r: Resource) -> Seq<char> {
    match r.resource_type {
        ResourceType::Package => package::package_query_spec(r),
        ResourceType::File => file::file_query_spec(file::path_or_null(r)),
        ResourceType::Service => service::service_query_spec(service::unit_name(r)),
        ResourceType::Mount => mount::mount_query_spec(mount::mount_target(r)),
        _ => Seq::empty(),
    }
}

/// Generate a state query script, or report the kind as unsupported.
pub fn state_query_script(resource: &Resource) -> (r: Result<String, String>)
    ensures
        if has_handler(resource.resource_type) {
            r is Ok && r->Ok_0@ == query_spec(*resource)
        } else {
            r is Err && r->Err_0@ == unsupported_msg(resource.resource_type)
        },
{
    match resource.resource_type {
        ResourceType::Package => Ok(package::state_query_script(resource)),
        ResourceType::File => Ok(file::state_query_script(resource)),
        ResourceType::Service => Ok(service::state_query_script(resource)),
        ResourceType::Mount => Ok(mount::state_query_script(resource)),
        other => Err(unsupported(other)),
    }
}

} // verus!
