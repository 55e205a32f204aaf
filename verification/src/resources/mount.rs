//! Mount resources: NFS, bind and other filesystem mounts.

use vstd::prelude::*;

use crate::strutil::{str_eq, str_to_string};
use crate::types::Resource;

verus! {

/// The mount target of a mount resource, `/mnt/unknown` by default.
pub open spec fn mount_target(r: Resource) -> Seq<char> {
    match r.path {
        Some(p) => p@,
        None => "/mnt/unknown"@,
    }
}

/// The mount source, `none` by default.
pub open spec fn mount_source(r: Resource) -> Seq<char> {
    match r.source {
        Some(s) => s@,
        None => "none"@,
    }
}

/// The filesystem type, `auto` by default.
pub open spec fn mount_fstype(r: Resource) -> Seq<char> {
    match r.fs_type {
        Some(f) => f@,
        None => "auto"@,
    }
}

/// The mount options, `defaults` by default.
pub open spec fn mount_options(r: Resource) -> Seq<char> {
    match r.options {
        Some(o) => o@,
        None => "defaults"@,
    }
}

/// The declared state of a mount resource, `mounted` by default.
pub open spec fn mount_state(r: Resource) -> Seq<char> {
    match r.state {
        Some(s) => s@,
        None => "mounted"@,
    }
}

/// The check script: probe whether the target is a mountpoint.
pub open spec fn mount_check_spec(t: Seq<char>) -> Seq<char> {
    "mountpoint -q '"@ + t + "' 2>/dev/null && echo 'mounted:"@ + t + "' || echo 'unmounted:"@ + t
        + "'"@
}

/// Generate shell to check mount state.
pub fn check_script(resource: &Resource) -> (r: String)
    ensures
        r@ == mount_check_spec(mount_target(*resource)),
{
    let t: &str = match &resource.path {
        Some(p) => p.as_str(),
        None => "/mnt/unknown",
    };
    let mut out = str_to_string("mountpoint -q '");
    out.append(t);
    out.append("' 2>/dev/null && echo 'mounted:");
    out.append(t);
    out.append("' || echo 'unmounted:");
    out.append(t);
    out.append("'");
    out
}

/// The `mkdir -p` line for the mount target.
pub open spec fn mkdir_line(t: Seq<char>) -> Seq<char> {
    "\nmkdir -p '"@ + t + "'"@
}

/// The guarded `mount` invocation.
pub open spec fn mount_line(s: Seq<char>, t: Seq<char>, f: Seq<char>, o: Seq<char>) -> Seq<char> {
    "\nif ! mountpoint -q '"@ + t + "'; then\n  mount -t '"@ + f + "' -o '"@ + o + "' '"@ + s
        + "' '"@ + t + "'\nfi"@
}

/// The guarded fstab persistence line.
pub open spec fn fstab_line(s: Seq<char>, t: Seq<char>, f: Seq<char>, o: Seq<char>) -> Seq<char> {
    "\nif ! grep -q '"@ + t + "' /etc/fstab 2>/dev/null; then\n  echo '"@ + s + " "@ + t + " "@ + f
        + " "@ + o + " 0 0' >> /etc/fstab\nfi"@
}

/// The guarded `umount` invocation.
pub open spec fn umount_line(t: Seq<char>) -> Seq<char> {
    "\nif mountpoint -q '"@ + t + "'; then\n  umount '"@ + t + "'\nfi"@
}

/// The fstab scrub line used when the mount is removed for good.
pub open spec fn fstab_scrub_line(t: Seq<char>) -> Seq<char> {
    "\nsed -i '\\|"@ + t + "|d' /etc/fstab 2>/dev/null || true"@
}

/// The apply script: mount and persist in fstab, unmount, or unmount and
/// scrub from fstab.
pub open spec fn mount_apply_spec(r: Resource) -> Seq<char> {
    let s = mount_source(r);
    let t = mount_target(r);
    let f = mount_fstype(r);
    let o = mount_options(r);
    let state = mount_state(r);
    "set -euo pipefail"@ + (if state == "mounted"@ {
        mkdir_line(t) + mount_line(s, t, f, o) + fstab_line(s, t, f, o)
    } else if state == "unmounted"@ {
        umount_line(t)
    } else if state == "absent"@ {
        umount_line(t) + fstab_scrub_line(t)
    } else {
        Seq::empty()
    })
}

fn push_mount_line(out: &mut String, s: &str, t: &str, f: &str, o: &str)
    ensures
        final(out)@ == old(out)@ + mount_line(s@, t@, f@, o@),
{
    out.append("\nif ! mountpoint -q '");
    out.append(t);
    out.append("'; then\n  mount -t '");
    out.append(f);
    out.append("' -o '");
    out.append(o);
    out.append("' '");
    out.append(s);
    out.append("' '");
    out.append(t);
    out.append("'\nfi");
}

fn push_fstab_line(out: &mut String, s: &str, t: &str, f: &str, o: &str)
    ensures
        final(out)@ == old(out)@ + fstab_line(s@, t@, f@, o@),
{
    out.append("\nif ! grep -q '");
    out.append(t);
    out.append("' /etc/fstab 2>/dev/null; then\n  echo '");
    out.append(s);
    out.append(" ");
    out.append(t);
    out.append(" ");
    out.append(f);
    out.append(" ");
    out.append(o);
    out.append(" 0 0' >> /etc/fstab\nfi");
}

fn push_umount_line(out: &mut String, t: &str)
    ensures
        final(out)@ == old(out)@ + umount_line(t@),
{
    out.append("\nif mountpoint -q '");
    out.append(t);
    out.append("'; then\n  umount '");
    out.append(t);
    out.append("'\nfi");
}

/// Generate shell to converge a mount to its desired state.
pub fn apply_script(resource: &Resource) -> (r: String)
    ensures
        r@ == mount_apply_spec(*resource),
{
    let s: &str = crate::strutil::opt_or(&resource.source, "none");
    let t: &str = crate::strutil::opt_or(&resource.path, "/mnt/unknown");
    let f: &str = crate::strutil::opt_or(&resource.fs_type, "auto");
    let o: &str = crate::strutil::opt_or(&resource.options, "defaults");
    let state: &str = crate::strutil::opt_or(&resource.state, "mounted");
    let mut out = str_to_string("set -euo pipefail");
    if str_eq(state, "mounted") {
        out.append("\nmkdir -p '");
        out.append(t);
        out.append("'");
        push_mount_line(&mut out, s, t, f, o);
        push_fstab_line(&mut out, s, t, f, o);
    } else if str_eq(state, "unmounted") {
        push_umount_line(&mut out, t);
    } else if str_eq(state, "absent") {
        push_umount_line(&mut out, t);
        out.append("\nsed -i '\\|");
        out.append(t);
        out.append("|d' /etc/fstab 2>/dev/null || true");
    }
    out
}

/// The state query script: report source, type and options for hashing.
pub open spec fn mount_query_spec(t: Seq<char>) -> Seq<char> {
    "if mountpoint -q '"@ + t + "'; then\nfindmnt -n -o SOURCE,FSTYPE,OPTIONS '"@ + t
        + "' 2>/dev/null\nelse\necho 'UNMOUNTED'\nfi"@
}

/// Generate shell to query mount state for fingerprinting.
pub fn state_query_script(resource: &Resource) -> (r: String)
    ensures
        r@ == mount_query_spec(mount_target(*resource)),
{
    let t: &str = match &resource.path {
        Some(p) => p.as_str(),
        None => "/mnt/unknown",
    };
    let mut out = str_to_string("if mountpoint -q '");
    out.append(t);
    out.append("'; then\nfindmnt -n -o SOURCE,FSTYPE,OPTIONS '");
    out.append(t);
    out.append("' 2>/dev/null\nelse\necho 'UNMOUNTED'\nfi");
    out
}

} // verus!
