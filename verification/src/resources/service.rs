//! Systemd service resources.

use vstd::prelude::*;

use crate::strutil::{str_eq, str_to_string};
use crate::types::Resource;

verus! {

/// The unit name of a service resource, `unknown` when none is declared.
pub open spec fn unit_name(r: Resource) -> Seq<char> {
    match r.name {
        Some(n) => n@,
        None => "unknown"@,
    }
}

/// The declared state of a service resource, `running` by default.
pub open spec fn service_state(r: Resource) -> Seq<char> {
    match r.state {
        Some(s) => s@,
        None => "running"@,
    }
}

/// Whether the unit should be enabled on boot (the default).
pub open spec fn service_enabled(r: Resource) -> bool {
    match r.enabled {
        Some(b) => b,
        None => true,
    }
}

/// The check script: probe activity and boot enablement.
pub open spec fn service_check_spec(n: Seq<char>) -> Seq<char> {
    "systemctl is-active '"@ + n + "' 2>/dev/null && echo 'active:"@ + n + "' || echo 'inactive:"@
        + n + "'\nsystemctl is-enabled '"@ + n + "' 2>/dev/null && echo 'enabled:"@ + n
        + "' || echo 'disabled:"@ + n + "'"@
}

/// Generate shell to check service state.
pub fn check_script(resource: &Resource) -> (r: String)
    ensures
        r@ == service_check_spec(unit_name(*resource)),
{
    let n: &str = match &resource.name {
        Some(s) => s.as_str(),
        None => "unknown",
    };
    let mut out = str_to_string("systemctl is-active '");
    out.append(n);
    out.append("' 2>/dev/null && echo 'active:");
    out.append(n);
    out.append("' || echo 'inactive:");
    out.append(n);
    out.append("'\nsystemctl is-enabled '");
    out.append(n);
    out.append("' 2>/dev/null && echo 'enabled:");
    out.append(n);
    out.append("' || echo 'disabled:");
    out.append(n);
    out.append("'");
    out
}

/// The apply script: start or stop as declared, enable or disable on
/// boot, and reload after watched resources changed.
pub open spec fn service_apply_spec(r: Resource) -> Seq<char> {
    let n = unit_name(r);
    let state = service_state(r);
    "set -euo pipefail"@ + (if state == "running"@ {
        "\nif ! systemctl is-active --quiet '"@ + n + "'; then\n  systemctl start '"@ + n
            + "'\nfi"@
    } else if state == "stopped"@ {
        "\nif systemctl is-active --quiet '"@ + n + "'; then\n  systemctl stop '"@ + n + "'\nfi"@
    } else {
        Seq::empty()
    }) + (if service_enabled(r) {
        "\nif ! systemctl is-enabled --quiet '"@ + n + "'; then\n  systemctl enable '"@ + n
            + "'\nfi"@
    } else {
        "\nif systemctl is-enabled --quiet '"@ + n + "'; then\n  systemctl disable '"@ + n
            + "'\nfi"@
    }) + (if r.restart_on@.len() > 0 {
        "\nsystemctl reload-or-restart '"@ + n + "'"@
    } else {
        Seq::empty()
    })
}

/// Generate shell to converge a service to its desired state.
#[verifier::rlimit(60)]
pub fn apply_script(resource: &Resource) -> (r: String)
    ensures
        r@ == service_apply_spec(*resource),
{
    let n: &str = match &resource.name {
        Some(s) => s.as_str(),
        None => "unknown",
    };
    let state: &str = match &resource.state {
        Some(s) => s.as_str(),
        None => "running",
    };
    let enabled: bool = match resource.enabled {
        Some(b) => b,
        None => true,
    };
    let mut out = str_to_string("set -euo pipefail");
    if str_eq(state, "running") {
        out.append("\nif ! systemctl is-active --quiet '");
        out.append(n);
        out.append("'; then\n  systemctl start '");
        out.append(n);
        out.append("'\nfi");
    } else if str_eq(state, "stopped") {
        out.append("\nif systemctl is-active --quiet '");
        out.append(n);
        out.append("'; then\n  systemctl stop '");
        out.append(n);
        out.append("'\nfi");
    }
    if enabled {
        out.append("\nif ! systemctl is-enabled --quiet '");
        out.append(n);
        out.append("'; then\n  systemctl enable '");
        out.append(n);
        out.append("'\nfi");
    } else {
        out.append("\nif systemctl is-enabled --quiet '");
        out.append(n);
        out.append("'; then\n  systemctl disable '");
        out.append(n);
        out.append("'\nfi");
    }
    if resource.restart_on.len() > 0 {
        out.append("\nsystemctl reload-or-restart '");
        out.append(n);
        out.append("'");
    }
    out
}

/// The state query script: report activity and enablement for hashing.
pub open spec fn service_query_spec(n: Seq<char>) -> Seq<char> {
    "echo \"active=$(systemctl is-active '"@ + n
        + "' 2>/dev/null || echo 'unknown')\"\necho \"enabled=$(systemctl is-enabled '"@ + n
        + "' 2>/dev/null || echo 'unknown')\""@
}

/// Generate shell to query service state for fingerprinting.
pub fn state_query_script(resource: &Resource) -> (r: String)
    ensures
        r@ == service_query_spec(unit_name(*resource)),
{
    let n: &str = match &resource.name {
        Some(s) => s.as_str(),
        None => "unknown",
    };
    let mut out = str_to_string("echo \"active=$(systemctl is-active '");
    out.append(n);
    out.append("' 2>/dev/null || echo 'unknown')\"\necho \"enabled=$(systemctl is-enabled '");
    out.append(n);
    out.append("' 2>/dev/null || echo 'unknown')\"");
    out
}

} // verus!
