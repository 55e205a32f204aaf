//! Package resources, with apt and cargo providers.

use vstd::prelude::*;

use crate::strutil::{join_sep, str_eq, str_to_string};
use crate::types::Resource;

verus! {

/// The provider of a package resource, `apt` by default.
pub open spec fn provider_of(r: Resource) -> Seq<char> {
    match r.provider {
        Some(p) => p@,
        None => "apt"@,
    }
}

/// The declared state of a package resource, `present` by default.
pub open spec fn package_state(r: Resource) -> Seq<char> {
    match r.state {
        Some(s) => s@,
        None => "present"@,
    }
}

/// One apt presence probe.
pub open spec fn apt_check_line(p: Seq<char>) -> Seq<char> {
    "dpkg -l '"@ + p + "' >/dev/null 2>&1 && echo 'installed:"@ + p + "' || echo 'missing:"@ + p
        + "'"@
}

/// One cargo presence probe.
pub open spec fn cargo_check_line(p: Seq<char>) -> Seq<char> {
    "command -v '"@ + p + "' >/dev/null 2>&1 && echo 'installed:"@ + p + "' || echo 'missing:"@ + p
        + "'"@
}

/// A package name in single quotes.
pub open spec fn quoted(p: Seq<char>) -> Seq<char> {
    "'"@ + p + "'"@
}

/// One conditional cargo install block.
pub open spec fn cargo_install_block(p: Seq<char>) -> Seq<char> {
    "if ! command -v '"@ + p + "' >/dev/null 2>&1; then\n  cargo install '"@ + p + "'\nfi"@
}

/// One apt version query line.
pub open spec fn apt_query_line(p: Seq<char>) -> Seq<char> {
    "dpkg-query -W -f '${Package}=${Version}\\n' '"@ + p + "' 2>/dev/null || echo '"@ + p
        + "=MISSING'"@
}

/// One cargo presence query line.
pub open spec fn cargo_query_line(p: Seq<char>) -> Seq<char> {
    "command -v '"@ + p + "' >/dev/null 2>&1 && echo '"@ + p + "=installed' || echo '"@ + p
        + "=MISSING'"@
}

/// The package views of a resource.
pub open spec fn pkg_views(r: Resource) -> Seq<Seq<char>> {
    r.packages@.map_values(|s: String| s@)
}

fn push_apt_check_line(out: &mut String, p: &str)
    ensures
        final(out)@ == old(out)@ + apt_check_line(p@),
{
    out.append("dpkg -l '");
    out.append(p);
    out.append("' >/dev/null 2>&1 && echo 'installed:");
    out.append(p);
    out.append("' || echo 'missing:");
    out.append(p);
    out.append("'");
}

fn push_cargo_check_line(out: &mut String, p: &str)
    ensures
        final(out)@ == old(out)@ + cargo_check_line(p@),
{
    out.append("command -v '");
    out.append(p);
    out.append("' >/dev/null 2>&1 && echo 'installed:");
    out.append(p);
    out.append("' || echo 'missing:");
    out.append(p);
    out.append("'");
}

fn push_cargo_install_block(out: &mut String, p: &str)
    ensures
        final(out)@ == old(out)@ + cargo_install_block(p@),
{
    out.append("if ! command -v '");
    out.append(p);
    out.append("' >/dev/null 2>&1; then\n  cargo install '");
    out.append(p);
    out.append("'\nfi");
}

fn push_apt_query_line(out: &mut String, p: &str)
    ensures
        final(out)@ == old(out)@ + apt_query_line(p@),
{
    out.append("dpkg-query -W -f '${Package}=${Version}\\n' '");
    out.append(p);
    out.append("' 2>/dev/null || echo '");
    out.append(p);
    out.append("=MISSING'");
}

fn push_cargo_query_line(out: &mut String, p: &str)
    ensures
        final(out)@ == old(out)@ + cargo_query_line(p@),
{
    out.append("command -v '");
    out.append(p);
    out.append("' >/dev/null 2>&1 && echo '");
    out.append(p);
    out.append("=installed' || echo '");
    out.append(p);
    out.append("=MISSING'");
}

fn push_quoted(out: &mut String, p: &str)
    ensures
        final(out)@ == old(out)@ + quoted(p@),
{
    out.append("'");
    out.append(p);
    out.append("'");
}

/// Which per-package line a joined list is built from.
enum LineKind {
    AptCheck,
    CargoCheck,
    CargoInstall,
    AptQuery,
    CargoQuery,
    Quoted,
}

impl LineKind {
    /// The line this kind yields for one package.
    spec fn line(self, p: Seq<char>) -> Seq<char> {
        match self {
            LineKind::AptCheck => apt_check_line(p),
            LineKind::CargoCheck => cargo_check_line(p),
            LineKind::CargoInstall => cargo_install_block(p),
            LineKind::AptQuery => apt_query_line(p),
            LineKind::CargoQuery => cargo_query_line(p),
            LineKind::Quoted => quoted(p),
        }
    }
}

/// Append one line per package, separated by `sep`.
fn push_lines(out: &mut String, pkgs: &Vec<String>, kind: LineKind, sep: &str)
    ensures
        final(out)@ == old(out)@ + join_sep(
            pkgs@.map_values(|s: String| s@).map_values(|p: Seq<char>| kind.line(p)),
            sep@,
        ),
{
    let ghost base = out@;
    let ghost lines = pkgs@.map_values(|s: String| s@).map_values(|p: Seq<char>| kind.line(p));
    let n = pkgs.len();
    let mut i: usize = 0;
    while i < n
        invariant
            n == pkgs@.len(),
            i <= n,
            lines == pkgs@.map_values(|s: String| s@).map_values(|p: Seq<char>| kind.line(p)),
            lines.len() == n,
            out@ == base + join_sep(lines.take(i as int), sep@),
        decreases n - i,
    {
        if i > 0 {
            out.append(sep);
        }
        match kind {
            LineKind::AptCheck => push_apt_check_line(out, pkgs[i].as_str()),
            LineKind::CargoCheck => push_cargo_check_line(out, pkgs[i].as_str()),
            LineKind::CargoInstall => push_cargo_install_block(out, pkgs[i].as_str()),
            LineKind::AptQuery => push_apt_query_line(out, pkgs[i].as_str()),
            LineKind::CargoQuery => push_cargo_query_line(out, pkgs[i].as_str()),
            LineKind::Quoted => push_quoted(out, pkgs[i].as_str()),
        }
        proof {
            assert(lines[i as int] == kind.line(pkgs@[i as int]@));
            assert(lines.take(i + 1).drop_last() =~= lines.take(i as int));
            assert(lines.take(i + 1).last() == lines[i as int]);
            if i == 0 {
                assert(out@ =~= base + join_sep(lines.take(1), sep@));
            } else {
                assert(out@ =~= base + join_sep(lines.take(i + 1), sep@));
            }
        }
        i += 1;
    }
    proof {
        assert(lines.take(n as int) =~= lines);
    }
}

/// Each line kind applied over a package list agrees with its named
/// per-package line.
proof fn lemma_lines_eq(r: Resource)
    ensures
        pkg_views(r).map_values(|p: Seq<char>| LineKind::AptCheck.line(p)) == pkg_views(
            r,
        ).map_values(|p: Seq<char>| apt_check_line(p)),
        pkg_views(r).map_values(|p: Seq<char>| LineKind::CargoCheck.line(p)) == pkg_views(
            r,
        ).map_values(|p: Seq<char>| cargo_check_line(p)),
        pkg_views(r).map_values(|p: Seq<char>| LineKind::CargoInstall.line(p)) == pkg_views(
            r,
        ).map_values(|p: Seq<char>| cargo_install_block(p)),
        pkg_views(r).map_values(|p: Seq<char>| LineKind::AptQuery.line(p)) == pkg_views(
            r,
        ).map_values(|p: Seq<char>| apt_query_line(p)),
        pkg_views(r).map_values(|p: Seq<char>| LineKind::CargoQuery.line(p)) == pkg_views(
            r,
        ).map_values(|p: Seq<char>| cargo_query_line(p)),
        pkg_views(r).map_values(|p: Seq<char>| LineKind::Quoted.line(p)) == pkg_views(
            r,
        ).map_values(|p: Seq<char>| quoted(p)),
{
    assert(pkg_views(r).map_values(|p: Seq<char>| LineKind::AptCheck.line(p)) =~= pkg_views(
        r,
    ).map_values(|p: Seq<char>| apt_check_line(p)));
    assert(pkg_views(r).map_values(|p: Seq<char>| LineKind::CargoCheck.line(p)) =~= pkg_views(
        r,
    ).map_values(|p: Seq<char>| cargo_check_line(p)));
    assert(pkg_views(r).map_values(|p: Seq<char>| LineKind::CargoInstall.line(p)) =~= pkg_views(
        r,
    ).map_values(|p: Seq<char>| cargo_install_block(p)));
    assert(pkg_views(r).map_values(|p: Seq<char>| LineKind::AptQuery.line(p)) =~= pkg_views(
        r,
    ).map_values(|p: Seq<char>| apt_query_line(p)));
    assert(pkg_views(r).map_values(|p: Seq<char>| LineKind::CargoQuery.line(p)) =~= pkg_views(
        r,
    ).map_values(|p: Seq<char>| cargo_query_line(p)));
    assert(pkg_views(r).map_values(|p: Seq<char>| LineKind::Quoted.line(p)) =~= pkg_views(
        r,
    ).map_values(|p: Seq<char>| quoted(p)));
}

/// The check script: one presence probe per package.
pub open spec fn package_check_spec(r: Resource) -> Seq<char> {
    let prov = provider_of(r);
    if prov == "apt"@ {
        join_sep(pkg_views(r).map_values(|p: Seq<char>| apt_check_line(p)), "\n"@)
    } else if prov == "cargo"@ {
        join_sep(pkg_views(r).map_values(|p: Seq<char>| cargo_check_line(p)), "\n"@)
    } else {
        "echo 'unsupported provider: "@ + prov + "'"@
    }
}

/// Generate shell to check whether the packages are installed.
pub fn check_script(resource: &Resource) -> (r: String)
    ensures
        r@ == package_check_spec(*resource),
{
    let provider: &str = match &resource.provider {
        Some(p) => p.as_str(),
        None => "apt",
    };
    let mut out = String::new();
    if str_eq(provider, "apt") {
        push_lines(&mut out, &resource.packages, LineKind::AptCheck, "\n");
        proof {
            lemma_lines_eq(*resource);
        }
    } else if str_eq(provider, "cargo") {
        push_lines(&mut out, &resource.packages, LineKind::CargoCheck, "\n");
        proof {
            lemma_lines_eq(*resource);
        }
    } else {
        out.append("echo 'unsupported provider: ");
        out.append(provider);
        out.append("'");
    }
    out
}

/// The single-quoted, space-separated package list.
pub open spec fn quoted_list(r: Resource) -> Seq<char> {
    join_sep(pkg_views(r).map_values(|p: Seq<char>| quoted(p)), " "@)
}

/// The apply script: install, remove, or report an unsupported pairing.
pub open spec fn package_apply_spec(r: Resource) -> Seq<char> {
    let prov = provider_of(r);
    let state = package_state(r);
    if prov == "apt"@ && state == "present"@ {
        "set -euo pipefail\nNEED_INSTALL=0\nfor pkg in "@ + quoted_list(r)
            + "; do\ndpkg -l \"$pkg\" >/dev/null 2>&1 || NEED_INSTALL=1\ndone\nif [ \"$NEED_INSTALL\" = \"1\" ]; then\napt-get update -qq\nDEBIAN_FRONTEND=noninteractive apt-get install -y -qq "@
            + quoted_list(r)
            + "\nfi\n# Postcondition: all packages installed\nfor pkg in "@ + quoted_list(r)
            + "; do\ndpkg -l \"$pkg\" >/dev/null 2>&1\ndone"@
    } else if prov == "apt"@ && state == "absent"@ {
        "set -euo pipefail\nNEED_REMOVE=0\nfor pkg in "@ + quoted_list(r)
            + "; do\ndpkg -l \"$pkg\" >/dev/null 2>&1 && NEED_REMOVE=1\ndone\nif [ \"$NEED_REMOVE\" = \"1\" ]; then\nDEBIAN_FRONTEND=noninteractive apt-get remove -y -qq "@
            + quoted_list(r) + "\nfi"@
    } else if prov == "cargo"@ && state == "present"@ {
        "set -euo pipefail\n"@ + join_sep(
            pkg_views(r).map_values(|p: Seq<char>| cargo_install_block(p)),
            "\n"@,
        )
    } else {
        "echo 'unsupported: provider="@ + prov + ", state="@ + state + "'"@
    }
}

/// Generate shell to converge the packages to the desired state.
#[verifier::rlimit(60)]
pub fn apply_script(resource: &Resource) -> (r: String)
    ensures
        r@ == package_apply_spec(*resource),
{
    let provider: &str = match &resource.provider {
        Some(p) => p.as_str(),
        None => "apt",
    };
    let state: &str = match &resource.state {
        Some(s) => s.as_str(),
        None => "present",
    };
    let mut out = String::new();
    proof {
        lemma_lines_eq(*resource);
    }
    if str_eq(provider, "apt") && str_eq(state, "present") {
        out.append("set -euo pipefail\nNEED_INSTALL=0\nfor pkg in ");
        push_lines(&mut out, &resource.packages, LineKind::Quoted, " ");
        out.append(
            "; do\ndpkg -l \"$pkg\" >/dev/null 2>&1 || NEED_INSTALL=1\ndone\nif [ \"$NEED_INSTALL\" = \"1\" ]; then\napt-get update -qq\nDEBIAN_FRONTEND=noninteractive apt-get install -y -qq ",
        );
        push_lines(&mut out, &resource.packages, LineKind::Quoted, " ");
        out.append("\nfi\n# Postcondition: all packages installed\nfor pkg in ");
        push_lines(&mut out, &resource.packages, LineKind::Quoted, " ");
        out.append("; do\ndpkg -l \"$pkg\" >/dev/null 2>&1\ndone");
    } else if str_eq(provider, "apt") && str_eq(state, "absent") {
        out.append("set -euo pipefail\nNEED_REMOVE=0\nfor pkg in ");
        push_lines(&mut out, &resource.packages, LineKind::Quoted, " ");
        out.append(
            "; do\ndpkg -l \"$pkg\" >/dev/null 2>&1 && NEED_REMOVE=1\ndone\nif [ \"$NEED_REMOVE\" = \"1\" ]; then\nDEBIAN_FRONTEND=noninteractive apt-get remove -y -qq ",
        );
        push_lines(&mut out, &resource.packages, LineKind::Quoted, " ");
        out.append("\nfi");
    } else if str_eq(provider, "cargo") && str_eq(state, "present") {
        out.append("set -euo pipefail\n");
        push_lines(&mut out, &resource.packages, LineKind::CargoInstall, "\n");
    } else {
        out.append("echo 'unsupported: provider=");
        out.append(provider);
        out.append(", state=");
        out.append(state);
        out.append("'");
    }
    out
}

/// The state query script: one version or presence probe per package.
pub open spec fn package_query_spec(r: Resource) -> Seq<char> {
    let prov = provider_of(r);
    if prov == "apt"@ {
        join_sep(pkg_views(r).map_values(|p: Seq<char>| apt_query_line(p)), "\n"@)
    } else if prov == "cargo"@ {
        join_sep(pkg_views(r).map_values(|p: Seq<char>| cargo_query_line(p)), "\n"@)
    } else {
        "echo 'unknown'"@
    }
}

/// Generate shell to query installed versions for fingerprinting.
pub fn state_query_script(resource: &Resource) -> (r: String)
    ensures
        r@ == package_query_spec(*resource),
{
    let provider: &str = match &resource.provider {
        Some(p) => p.as_str(),
        None => "apt",
    };
    let mut out = String::new();
    proof {
        lemma_lines_eq(*resource);
    }
    if str_eq(provider, "apt") {
        push_lines(&mut out, &resource.packages, LineKind::AptQuery, "\n");
    } else if str_eq(provider, "cargo") {
        push_lines(&mut out, &resource.packages, LineKind::CargoQuery, "\n");
    } else {
        out.append("echo 'unknown'");
    }
    out
}

} // verus!
