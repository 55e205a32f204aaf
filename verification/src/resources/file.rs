//! File and directory resources: regular files with inline content,
//! directories, symlinks, and removal.

use vstd::prelude::*;

use crate::strutil::str_to_string;
use crate::types::Resource;

verus! {

/// The path a file resource acts on, `/dev/null` when none is declared.
pub open spec fn path_or_null(r: Resource) -> Seq<char> {
    match r.path {
        Some(p) => p@,
        None => "/dev/null"@,
    }
}

/// The declared state of a file resource, `file` by default.
pub open spec fn file_state(r: Resource) -> Seq<char> {
    match r.state {
        Some(s) => s@,
        None => "file"@,
    }
}

/// The check script: probe for the expected kind of entry.
pub open spec fn file_check_spec(path: Seq<char>, state: Seq<char>) -> Seq<char> {
    if state == "directory"@ {
        "test -d '"@ + path + "' && echo 'exists:directory' || echo 'missing:directory'"@
    } else if state == "absent"@ {
        "test -e '"@ + path + "' && echo 'exists:present' || echo 'missing:absent'"@
    } else if state == "symlink"@ {
        "test -L '"@ + path + "' && echo 'exists:symlink' || echo 'missing:symlink'"@
    } else {
        "test -f '"@ + path + "' && echo 'exists:file' || echo 'missing:file'"@
    }
}

/// Generate shell to check file state.
pub fn check_script(resource: &Resource) -> (r: String)
    ensures
        r@ == file_check_spec(path_or_null(*resource), file_state(*resource)),
{
    let path: &str = match &resource.path {
        Some(p) => p.as_str(),
        None => "/dev/null",
    };
    let state: &str = match &resource.state {
        Some(s) => s.as_str(),
        None => "file",
    };
    let mut out: String;
    if crate::strutil::str_eq(state, "directory") {
        out = str_to_string("test -d '");
        out.append(path);
        out.append("' && echo 'exists:directory' || echo 'missing:directory'");
    } else if crate::strutil::str_eq(state, "absent") {
        out = str_to_string("test -e '");
        out.append(path);
        out.append("' && echo 'exists:present' || echo 'missing:absent'");
    } else if crate::strutil::str_eq(state, "symlink") {
        out = str_to_string("test -L '");
        out.append(path);
        out.append("' && echo 'exists:symlink' || echo 'missing:symlink'");
    } else {
        out = str_to_string("test -f '");
        out.append(path);
        out.append("' && echo 'exists:file' || echo 'missing:file'");
    }
    out
}

/// The chown/chmod lines appended after a file or directory is put in
/// place: `chown 'owner[:group]' 'path'` when an owner is declared, then
/// `chmod 'mode' 'path'` when a mode is.
pub open spec fn ownership_spec(r: Resource, path: Seq<char>) -> Seq<char> {
    (match r.owner {
        Some(o) => match r.group {
            Some(g) => "\nchown '"@ + o@ + ":"@ + g@ + "' '"@ + path + "'"@,
            None => "\nchown '"@ + o@ + "' '"@ + path + "'"@,
        },
        None => Seq::empty(),
    }) + (match r.mode {
        Some(m) => "\nchmod '"@ + m@ + "' '"@ + path + "'"@,
        None => Seq::empty(),
    })
}

fn push_ownership(out: &mut String, resource: &Resource, path: &str)
    ensures
        final(out)@ == old(out)@ + ownership_spec(*resource, path@),
{
    let ghost base = out@;
    match &resource.owner {
        Some(o) => {
            match &resource.group {
                Some(g) => {
                    out.append("\nchown '");
                    out.append(o.as_str());
                    out.append(":");
                    out.append(g.as_str());
                    out.append("' '");
                    out.append(path);
                    out.append("'");
                },
                None => {
                    out.append("\nchown '");
                    out.append(o.as_str());
                    out.append("' '");
                    out.append(path);
                    out.append("'");
                },
            }
        },
        None => {},
    }
    let ghost mid = out@;
    match &resource.mode {
        Some(m) => {
            out.append("\nchmod '");
            out.append(m.as_str());
            out.append("' '");
            out.append(path);
            out.append("'");
        },
        None => {},
    }
    proof {
        assert(final(out)@ =~= base + ownership_spec(*resource, path@));
    }
}

/// The parent directory of an absolute path: everything before the last
/// `/`, or nothing when the path has no parent worth creating.
pub open spec fn mkdir_parent_spec(path: Seq<char>) -> Seq<char> {
    match crate::template::find1(path.reverse(), '/') {
        Some(ri) => {
            let cut = path.len() - 1 - ri;
            if cut > 0 {
                "\nmkdir -p '"@ + path.take(cut as int) + "'"@
            } else {
                Seq::empty()
            }
        },
        None => Seq::empty(),
    }
}

/// Append `mkdir -p` for the path's parent directory, unless the parent
/// is the root or the path has none.
fn push_mkdir_parent(out: &mut String, path: &str)
    ensures
        final(out)@ == old(out)@ + mkdir_parent_spec(path@),
{
    let n = path.unicode_len();
    let mut last: Option<usize> = None;
    let mut i: usize = 0;
    while i < n
        invariant
            n == path@.len(),
            i <= n,
            match last {
                Some(k) => k < i && path@[k as int] == '/' && forall|j: int|
                    k < j < i ==> path@[j] != '/',
                None => forall|j: int| 0 <= j < i ==> path@[j] != '/',
            },
        decreases n - i,
    {
        if path.get_char(i) == '/' {
            last = Some(i);
        }
        i += 1;
    }
    match last {
        None => {
            proof {
                crate::template::lemma_find1_props(path@.reverse(), '/');
                if crate::template::find1(path@.reverse(), '/') is Some {
                    let ri = crate::template::find1(path@.reverse(), '/')->0;
                    assert(path@.reverse()[ri] == '/');
                    assert(path@[n - 1 - ri] == '/');
                    assert(false);
                }
            }
        },
        Some(k) => {
            proof {
                assert(path@.reverse()[n - 1 - k as int] == path@[k as int]);
                assert forall|j: int| 0 <= j < n - 1 - k as int implies path@.reverse()[j]
                    != '/' by {
                    assert(path@.reverse()[j] == path@[n - 1 - j]);
                }
                crate::template::lemma_find1_complete(path@.reverse(), '/', n - 1 - k as int);
            }
            if k > 0 {
                out.append("\nmkdir -p '");
                out.append(path.substring_char(0, k));
                out.append("'");
                proof {
                    assert(path@.subrange(0, k as int) =~= path@.take(k as int));
                }
            }
        },
    }
}

/// The apply script for a file resource.
pub open spec fn file_apply_spec(r: Resource) -> Seq<char> {
    let path = path_or_null(r);
    let state = file_state(r);
    if state == "directory"@ {
        "set -euo pipefail\nmkdir -p '"@ + path + "'"@ + ownership_spec(r, path)
    } else if state == "absent"@ {
        "set -euo pipefail\nrm -rf '"@ + path + "'"@
    } else if state == "symlink"@ {
        let target = match r.target {
            Some(t) => t@,
            None => "/dev/null"@,
        };
        "set -euo pipefail\nln -sfn '"@ + target + "' '"@ + path + "'"@
    } else {
        "set -euo pipefail"@ + mkdir_parent_spec(path) + (match r.content {
            Some(c) => "\ncat > '"@ + path + "' <<'FORJAR_EOF'\n"@ + c@ + "\nFORJAR_EOF"@,
            None => Seq::empty(),
        }) + ownership_spec(r, path)
    }
}

/// Generate shell to converge a file resource to its desired state.
pub fn apply_script(resource: &Resource) -> (r: String)
    ensures
        r@ == file_apply_spec(*resource),
{
    let path: &str = match &resource.path {
        Some(p) => p.as_str(),
        None => "/dev/null",
    };
    let state: &str = match &resource.state {
        Some(s) => s.as_str(),
        None => "file",
    };
    let mut out: String;
    if crate::strutil::str_eq(state, "directory") {
        out = str_to_string("set -euo pipefail\nmkdir -p '");
        out.append(path);
        out.append("'");
        push_ownership(&mut out, resource, path);
    } else if crate::strutil::str_eq(state, "absent") {
        out = str_to_string("set -euo pipefail\nrm -rf '");
        out.append(path);
        out.append("'");
    } else if crate::strutil::str_eq(state, "symlink") {
        let target: &str = match &resource.target {
            Some(t) => t.as_str(),
            None => "/dev/null",
        };
        out = str_to_string("set -euo pipefail\nln -sfn '");
        out.append(target);
        out.append("' '");
        out.append(path);
        out.append("'");
    } else {
        out = str_to_string("set -euo pipefail");
        push_mkdir_parent(&mut out, path);
        match &resource.content {
            Some(c) => {
                out.append("\ncat > '");
                out.append(path);
                out.append("' <<'FORJAR_EOF'\n");
                out.append(c.as_str());
                out.append("\nFORJAR_EOF");
            },
            None => {},
        }
        push_ownership(&mut out, resource, path);
    }
    out
}

/// The state query script: stat the entry and hash regular-file content.
pub open spec fn file_query_spec(path: Seq<char>) -> Seq<char> {
    "if [ -e '"@ + path + "' ]; then\nstat -c 'owner=%U group=%G mode=%a size=%s' '"@ + path
        + "' 2>/dev/null || stat -f 'owner=%Su group=%Sg mode=%Lp size=%z' '"@ + path
        + "' 2>/dev/null\nif [ -f '"@ + path + "' ]; then\ncat '"@ + path
        + "' | blake3sum 2>/dev/null || sha256sum '"@ + path
        + "' | cut -d' ' -f1\nfi\nelse\necho 'MISSING'\nfi"@
}

/// Generate shell to query a file's observable state.
pub fn state_query_script(resource: &Resource) -> (r: String)
    ensures
        r@ == file_query_spec(path_or_null(*resource)),
{
    let path: &str = match &resource.path {
        Some(p) => p.as_str(),
        None => "/dev/null",
    };
    let mut out = str_to_string("if [ -e '");
    out.append(path);
    out.append("' ]; then\nstat -c 'owner=%U group=%G mode=%a size=%s' '");
    out.append(path);
    out.append("' 2>/dev/null || stat -f 'owner=%Su group=%Sg mode=%Lp size=%z' '");
    out.append(path);
    out.append("' 2>/dev/null\nif [ -f '");
    out.append(path);
    out.append("' ]; then\ncat '");
    out.append(path);
    out.append("' | blake3sum 2>/dev/null || sha256sum '");
    out.append(path);
    out.append("' | cut -d' ' -f1\nfi\nelse\necho 'MISSING'\nfi");
    out
}

} // verus!
