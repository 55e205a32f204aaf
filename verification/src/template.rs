//! Template resolution.
//!
//! Input strings may contain `{{ key }}` spans, where the key names either
//! a global parameter (`params.X`) or a machine field
//! (`machine.NAME.FIELD`).  Substitution scans left to right; after a
//! replacement the search resumes just past the substituted value, so
//! values containing `{{` are never re-interpreted.  An opening `{{` with
//! no closing `}}` is an error, as is any unknown key.

use vstd::prelude::*;

use crate::omap::{assoc_find, OMap};
use crate::strutil::{dec_str, push_dec_u128, str_eq, str_to_string};
use crate::types::{scalar_text, Machine, ParamValue, Resource};

verus! {

/// The first index where the two-character pattern `a b` begins, if any.
pub open spec fn find2(s: Seq<char>, a: char, b: char) -> Option<int>
    decreases s.len(),
{
    if s.len() < 2 {
        None
    } else if s[0] == a && s[1] == b {
        Some(0)
    } else {
        match find2(s.drop_first(), a, b) {
            Some(j) => Some(j + 1),
            None => None,
        }
    }
}

/// The first index of the character `c`, if any.
pub open spec fn find1(s: Seq<char>, c: char) -> Option<int>
    decreases s.len(),
{
    if s.len() == 0 {
        None
    } else if s[0] == c {
        Some(0)
    } else {
        match find1(s.drop_first(), c) {
            Some(j) => Some(j + 1),
            None => None,
        }
    }
}

pub proof fn lemma_find2_props(s: Seq<char>, a: char, b: char)
    ensures
        match find2(s, a, b) {
            Some(i) => {
                &&& 0 <= i
                &&& i + 1 < s.len()
                &&& s[i] == a && s[i + 1] == b
                &&& forall|j: int| #![trigger s[j]] 0 <= j < i ==> !(s[j] == a && s[j + 1] == b)
            },
            None => forall|j: int| #![trigger s[j]] 0 <= j && j + 1 < s.len() ==> !(s[j] == a && s[j + 1] == b),
        },
    decreases s.len(),
{
    if s.len() < 2 {
    } else if s[0] == a && s[1] == b {
    } else {
        let t = s.drop_first();
        lemma_find2_props(t, a, b);
        match find2(t, a, b) {
            Some(j) => {
                assert forall|j2: int| #![trigger s[j2]] 0 <= j2 < j + 1 implies !(s[j2] == a
                    && s[j2 + 1] == b) by {
                    if j2 > 0 {
                        assert(t[j2 - 1] == s[j2]);
                        assert(t[j2] == s[j2 + 1]);
                    }
                }
            },
            None => {
                assert forall|j2: int| #![trigger s[j2]] 0 <= j2 && j2 + 1 < s.len() implies !(
                s[j2] == a && s[j2 + 1] == b) by {
                    if j2 > 0 {
                        assert(t[j2 - 1] == s[j2]);
                        assert(t[j2] == s[j2 + 1]);
                    }
                }
            },
        }
    }
}

pub proof fn lemma_find2_complete(s: Seq<char>, a: char, b: char, i: int)
    requires
        0 <= i,
        i + 1 < s.len(),
        s[i] == a && s[i + 1] == b,
        forall|j: int| #![trigger s[j]] 0 <= j < i ==> !(s[j] == a && s[j + 1] == b),
    ensures
        find2(s, a, b) == Some(i),
    decreases i,
{
    if i > 0 {
        lemma_find2_complete(s.drop_first(), a, b, i - 1);
    }
}

pub proof fn lemma_find1_props(s: Seq<char>, c: char)
    ensures
        match find1(s, c) {
            Some(i) => {
                &&& 0 <= i < s.len()
                &&& s[i] == c
                &&& forall|j: int| 0 <= j < i ==> s[j] != c
            },
            None => forall|j: int| 0 <= j < s.len() ==> s[j] != c,
        },
    decreases s.len(),
{
    if s.len() == 0 {
    } else if s[0] == c {
    } else {
        let t = s.drop_first();
        lemma_find1_props(t, c);
        match find1(t, c) {
            Some(j) => {
                assert forall|j2: int| 0 <= j2 < j + 1 implies s[j2] != c by {
                    if j2 > 0 {
                        assert(t[j2 - 1] == s[j2]);
                    }
                }
            },
            None => {
                assert forall|j2: int| 0 <= j2 < s.len() implies s[j2] != c by {
                    if j2 > 0 {
                        assert(t[j2 - 1] == s[j2]);
                    }
                }
            },
        }
    }
}

pub proof fn lemma_find1_complete(s: Seq<char>, c: char, i: int)
    requires
        0 <= i < s.len(),
        s[i] == c,
        forall|j: int| 0 <= j < i ==> s[j] != c,
    ensures
        find1(s, c) == Some(i),
    decreases i,
{
    if i > 0 {
        lemma_find1_complete(s.drop_first(), c, i - 1);
    }
}

/// Find the first occurrence of the two-character pattern `a b`.
pub fn find_pair(s: &str, a: char, b: char) -> (r: Option<usize>)
    ensures
        match r {
            Some(i) => find2(s@, a, b) == Some(i as int),
            None => find2(s@, a, b) is None,
        },
{
    let n = s.unicode_len();
    if n < 2 {
        proof {
            lemma_find2_props(s@, a, b);
            if find2(s@, a, b) is Some {
                assert(false);
            }
        }
        return None;
    }
    let mut i: usize = 0;
    while i < n - 1
        invariant
            n == s@.len(),
            n >= 2,
            i <= n,
            forall|j: int| #![trigger s@[j]] 0 <= j < i ==> !(s@[j] == a && s@[j + 1] == b),
        decreases n - i,
    {
        let c0 = s.get_char(i);
        let c1 = s.get_char(i + 1);
        if c0 == a && c1 == b {
            proof {
                lemma_find2_complete(s@, a, b, i as int);
            }
            return Some(i);
        }
        i += 1;
    }
    proof {
        lemma_find2_props(s@, a, b);
        if find2(s@, a, b) is Some {
            assert(false);
        }
    }
    None
}

/// Find the first occurrence of the character `c`.
fn find_char(s: &str, c: char) -> (r: Option<usize>)
    ensures
        match r {
            Some(i) => find1(s@, c) == Some(i as int),
            None => find1(s@, c) is None,
        },
{
    let n = s.unicode_len();
    let mut i: usize = 0;
    while i < n
        invariant
            n == s@.len(),
            i <= n,
            forall|j: int| 0 <= j < i ==> s@[j] != c,
        decreases n - i,
    {
        if s.get_char(i) == c {
            proof {
                lemma_find1_complete(s@, c, i as int);
            }
            return Some(i);
        }
        i += 1;
    }
    proof {
        lemma_find1_props(s@, c);
        if find1(s@, c) is Some {
            assert(false);
        }
    }
    None
}

/// Whether `pat` occurs in `s` beginning at `j`.
pub open spec fn match_at(s: Seq<char>, pat: Seq<char>, j: int) -> bool {
    s.subrange(j, j + pat.len() as int) == pat
}

/// The first index where `pat` occurs as a substring, if any.
pub open spec fn find_sub(s: Seq<char>, pat: Seq<char>) -> Option<int>
    decreases s.len(),
{
    if pat.len() == 0 {
        Some(0)
    } else if s.len() < pat.len() {
        None
    } else if s.take(pat.len() as int) == pat {
        Some(0)
    } else {
        match find_sub(s.drop_first(), pat) {
            Some(j) => Some(j + 1),
            None => None,
        }
    }
}

pub proof fn lemma_find_sub_props(s: Seq<char>, pat: Seq<char>)
    requires
        pat.len() > 0,
    ensures
        match find_sub(s, pat) {
            Some(i) => {
                &&& 0 <= i
                &&& i + pat.len() <= s.len()
                &&& s.subrange(i, i + pat.len() as int) == pat
                &&& forall|j: int| 0 <= j < i && j + pat.len() <= s.len() ==> !match_at(s, pat, j)
            },
            None => forall|j: int| 0 <= j && j + pat.len() <= s.len() ==> !match_at(s, pat, j),
        },
    decreases s.len(),
{
    if s.len() < pat.len() {
    } else if s.take(pat.len() as int) == pat {
        assert(s.subrange(0, pat.len() as int) == s.take(pat.len() as int));
    } else {
        let t = s.drop_first();
        lemma_find_sub_props(t, pat);
        assert forall|j: int|
            1 <= j && j + pat.len() <= s.len() implies (match_at(s, pat, j) == match_at(
            t,
            pat,
            j - 1,
        )) by {
            assert(s.subrange(j, j + pat.len() as int) =~= t.subrange(
                j - 1,
                j - 1 + pat.len() as int,
            ));
        }
        assert(s.subrange(0, pat.len() as int) == s.take(pat.len() as int));
        match find_sub(t, pat) {
            Some(j) => {
                assert forall|j2: int|
                    0 <= j2 < j + 1 && j2 + pat.len() <= s.len() implies !match_at(
                    s,
                    pat,
                    j2,
                ) by {
                    if j2 == 0 {
                        assert(s.subrange(0, pat.len() as int) == s.take(pat.len() as int));
                    } else {
                        assert(!match_at(t, pat, j2 - 1));
                    }
                }
            },
            None => {
                assert forall|j2: int|
                    0 <= j2 && j2 + pat.len() <= s.len() implies !match_at(s, pat, j2) by {
                    if j2 == 0 {
                        assert(s.subrange(0, pat.len() as int) == s.take(pat.len() as int));
                    } else {
                        assert(!match_at(t, pat, j2 - 1));
                    }
                }
            },
        }
    }
}

pub proof fn lemma_find_sub_complete(s: Seq<char>, pat: Seq<char>, i: int)
    requires
        pat.len() > 0,
        0 <= i,
        i + pat.len() <= s.len(),
        s.subrange(i, i + pat.len() as int) == pat,
        forall|j: int| 0 <= j < i ==> !match_at(s, pat, j),
    ensures
        find_sub(s, pat) == Some(i),
    decreases i,
{
    if i == 0 {
        assert(s.take(pat.len() as int) == s.subrange(0, pat.len() as int));
    } else {
        let t = s.drop_first();
        assert forall|j: int| 0 <= j < i - 1 implies !match_at(t, pat, j) by {
            assert(t.subrange(j, j + pat.len() as int) =~= s.subrange(
                j + 1,
                j + 1 + pat.len() as int,
            ));
            assert(!match_at(s, pat, j + 1));
        }
        assert(t.subrange(i - 1, i - 1 + pat.len() as int) =~= s.subrange(i, i + pat.len() as int));
        lemma_find_sub_complete(t, pat, i - 1);
        assert(s.take(pat.len() as int) == s.subrange(0, pat.len() as int));
        assert(!match_at(s, pat, 0));
        assert(s.take(pat.len() as int) != pat);
        assert(find_sub(s, pat) == (match find_sub(t, pat) {
            Some(j) => Some(j + 1),
            None => None,
        }));
    }
}

/// Find the first occurrence of `pat` as a substring.
pub fn find_pattern(s: &str, pat: &str) -> (r: Option<usize>)
    requires
        pat@.len() > 0,
    ensures
        match r {
            Some(i) => find_sub(s@, pat@) == Some(i as int),
            None => find_sub(s@, pat@) is None,
        },
{
    let n = s.unicode_len();
    let pn = pat.unicode_len();
    if n < pn {
        proof {
            lemma_find_sub_props(s@, pat@);
            if find_sub(s@, pat@) is Some {
                assert(false);
            }
        }
        return None;
    }
    let mut i: usize = 0;
    while i <= n - pn
        invariant
            n == s@.len(),
            pn == pat@.len(),
            pn > 0,
            pn <= n,
            i <= n - pn + 1,
            forall|j: int| 0 <= j < i ==> !match_at(s@, pat@, j),
        decreases n - i,
    {
        if crate::strutil::str_eq(s.substring_char(i, i + pn), pat) {
            proof {
                assert(s@.subrange(i as int, i + pn as int) == pat@);
                lemma_find_sub_complete(s@, pat@, i as int);
            }
            return Some(i);
        }
        proof {
            assert(!match_at(s@, pat@, i as int));
        }
        i += 1;
    }
    proof {
        lemma_find_sub_props(s@, pat@);
        if find_sub(s@, pat@) is Some {
            let k = find_sub(s@, pat@)->0;
            assert(s@.subrange(k, k + pat@.len() as int) == pat@);
            assert(match_at(s@, pat@, k));
            assert(!match_at(s@, pat@, k));
            assert(false);
        }
    }
    None
}

/// ASCII whitespace, as trimmed around template keys.
pub open spec fn is_space(c: char) -> bool {
    c == ' ' || c == '\t' || c == '\n' || c == '\r'
}

/// `s` without leading whitespace.
pub open spec fn trim_start(s: Seq<char>) -> Seq<char>
    decreases s.len(),
{
    if s.len() > 0 && is_space(s[0]) {
        trim_start(s.drop_first())
    } else {
        s
    }
}

/// `s` without trailing whitespace.
pub open spec fn trim_end(s: Seq<char>) -> Seq<char>
    decreases s.len(),
{
    if s.len() > 0 && is_space(s.last()) {
        trim_end(s.drop_last())
    } else {
        s
    }
}

/// `s` without leading or trailing whitespace.
pub open spec fn trim(s: Seq<char>) -> Seq<char> {
    trim_end(trim_start(s))
}

proof fn lemma_trim_start_skip(s: Seq<char>, lo: int)
    requires
        0 <= lo <= s.len(),
        forall|j: int| 0 <= j < lo ==> is_space(s[j]),
        lo == s.len() || !is_space(s[lo]),
    ensures
        trim_start(s) =~= s.skip(lo),
    decreases lo,
{
    if lo == 0 {
        assert(s.skip(0) =~= s);
    } else {
        lemma_trim_start_skip(s.drop_first(), lo - 1);
        assert(s.drop_first().skip(lo - 1) =~= s.skip(lo));
    }
}

proof fn lemma_trim_end_take(s: Seq<char>, hi: int)
    requires
        0 <= hi <= s.len(),
        forall|j: int| hi <= j < s.len() ==> is_space(s[j]),
        hi == 0 || !is_space(s[hi - 1]),
    ensures
        trim_end(s) =~= s.take(hi),
    decreases s.len() - hi,
{
    if hi == s.len() {
        assert(s.take(hi) =~= s);
    } else {
        lemma_trim_end_take(s.drop_last(), hi);
        assert(s.drop_last().take(hi) =~= s.take(hi));
    }
}

fn is_space_char(c: char) -> (r: bool)
    ensures
        r == is_space(c),
{
    c == ' ' || c == '\t' || c == '\n' || c == '\r'
}

/// A copy of `s` with surrounding whitespace removed.
pub fn trim_str(s: &str) -> (r: String)
    ensures
        r@ == trim(s@),
{
    let n = s.unicode_len();
    let mut lo: usize = 0;
    while lo < n && is_space_char(s.get_char(lo))
        invariant
            n == s@.len(),
            lo <= n,
            forall|j: int| 0 <= j < lo ==> is_space(s@[j]),
        decreases n - lo,
    {
        lo += 1;
    }
    let mut hi: usize = n;
    while hi > lo && is_space_char(s.get_char(hi - 1))
        invariant
            n == s@.len(),
            lo <= hi <= n,
            forall|j: int| 0 <= j < lo ==> is_space(s@[j]),
            forall|j: int| hi <= j < n ==> is_space(s@[j]),
        decreases hi,
    {
        hi -= 1;
    }
    proof {
        lemma_trim_start_skip(s@, lo as int);
        if hi == lo {
            lemma_trim_end_take(s@.skip(lo as int), 0);
        } else {
            lemma_trim_end_take(s@.skip(lo as int), hi - lo);
        }
        assert(s@.skip(lo as int).take(hi - lo) =~= s@.subrange(lo as int, hi as int));
    }
    str_to_string(s.substring_char(lo, hi))
}

/// Why a template failed to resolve.
pub enum TErr {
    /// `{{` with no matching `}}`, at this position of the working string.
    Unclosed(nat),
    /// `params.X` where `X` is not a declared parameter.
    UnknownParam(Seq<char>),
    /// `machine.NAME.FIELD` where `NAME` is not a declared machine.
    UnknownMachine(Seq<char>),
    /// `machine.NAME.FIELD` with a field other than addr, hostname, user, arch.
    UnknownField(Seq<char>),
    /// `machine.X` with no field part.
    BadMachineRef(Seq<char>),
    /// A key that names neither a parameter nor a machine field.
    UnknownVar(Seq<char>),
}

/// The diagnostic text reported for each failure.
pub open spec fn err_message(e: TErr) -> Seq<char> {
    match e {
        TErr::Unclosed(p) => "unclosed template at position "@ + dec_str(p),
        TErr::UnknownParam(k) => "unknown param: "@ + k,
        TErr::UnknownMachine(m) => "unknown machine: "@ + m,
        TErr::UnknownField(f) => "unknown machine field: "@ + f,
        TErr::BadMachineRef(k) => "invalid machine ref: "@ + k,
        TErr::UnknownVar(k) => "unknown template variable: "@ + k,
    }
}

/// The replacement text for a trimmed template key, or why there is none.
pub open spec fn lookup_key(
    key: Seq<char>,
    params: Seq<(Seq<char>, ParamValue)>,
    machines: Seq<(Seq<char>, Machine)>,
) -> Result<Seq<char>, TErr> {
    if key.len() >= 7 && key.take(7) == "params."@ {
        let pk = key.skip(7);
        match assoc_find(params, pk) {
            Some(v) => Ok(scalar_text(v)),
            None => Err(TErr::UnknownParam(pk)),
        }
    } else if key.len() >= 8 && key.take(8) == "machine."@ {
        let rest = key.skip(8);
        match find1(rest, '.') {
            None => Err(TErr::BadMachineRef(key)),
            Some(d) => {
                let mname = rest.take(d);
                let field = rest.skip(d + 1);
                match assoc_find(machines, mname) {
                    None => Err(TErr::UnknownMachine(mname)),
                    Some(m) => {
                        if field == "addr"@ {
                            Ok(m.addr@)
                        } else if field == "hostname"@ {
                            Ok(m.hostname@)
                        } else if field == "user"@ {
                            Ok(m.user@)
                        } else if field == "arch"@ {
                            Ok(m.arch@)
                        } else {
                            Err(TErr::UnknownField(field))
                        }
                    },
                }
            },
        }
    } else {
        Err(TErr::UnknownVar(key))
    }
}

/// The left-to-right substitution of every `{{ key }}` span in `s`, with
/// `off` the position of `s` within the working string (for diagnostics).
/// Substituted values are never re-scanned.
pub open spec fn subst(
    s: Seq<char>,
    params: Seq<(Seq<char>, ParamValue)>,
    machines: Seq<(Seq<char>, Machine)>,
    off: nat,
) -> Result<Seq<char>, TErr>
    decreases s.len(),
{
    match find2(s, '{', '{') {
        None => Ok(s),
        Some(open) => {
            match find2(s.skip(open), '}', '}') {
                None => Err(TErr::Unclosed((off + open) as nat)),
                Some(crel) => {
                    let cut = open + crel + 2;
                    if 0 <= open && open < cut && cut <= s.len() {
                        let key = trim(s.subrange(open + 2, open + crel));
                        match lookup_key(key, params, machines) {
                            Err(e) => Err(e),
                            Ok(val) => {
                                match subst(
                                    s.skip(cut),
                                    params,
                                    machines,
                                    (off + open + val.len()) as nat,
                                ) {
                                    Ok(t) => Ok(s.take(open) + val + t),
                                    Err(e) => Err(e),
                                }
                            },
                        }
                    } else {
                        Ok(s)
                    }
                },
            }
        },
    }
}

/// The replacement for a key, with failures rendered as messages.
fn lookup_value(key: &str, params: &OMap<ParamValue>, machines: &OMap<Machine>) -> (r: Result<
    String,
    String,
>)
    ensures
        match lookup_key(key@, params@, machines@) {
            Ok(t) => r is Ok && r->Ok_0@ == t,
            Err(e) => r is Err && r->Err_0@ == err_message(e),
        },
{
    let n = key.unicode_len();
    if n >= 7 && str_eq(key.substring_char(0, 7), "params.") {
        let pk = key.substring_char(7, n);
        match params.get(pk) {
            Some(v) => Ok(crate::types::yaml_value_to_string(v)),
            None => {
                let mut m = str_to_string("unknown param: ");
                m.append(pk);
                Err(m)
            },
        }
    } else if n >= 8 && str_eq(key.substring_char(0, 8), "machine.") {
        let rest = key.substring_char(8, n);
        match find_char(rest, '.') {
            None => {
                let mut m = str_to_string("invalid machine ref: ");
                m.append(key);
                Err(m)
            },
            Some(d) => {
                proof {
                    lemma_find1_props(rest@, '.');
                }
                let rn = rest.unicode_len();
                let mname = rest.substring_char(0, d);
                let field = rest.substring_char(d + 1, rn);
                match machines.get(mname) {
                    None => {
                        let mut m = str_to_string("unknown machine: ");
                        m.append(mname);
                        Err(m)
                    },
                    Some(mach) => {
                        if str_eq(field, "addr") {
                            Ok(mach.addr.clone())
                        } else if str_eq(field, "hostname") {
                            Ok(mach.hostname.clone())
                        } else if str_eq(field, "user") {
                            Ok(mach.user.clone())
                        } else if str_eq(field, "arch") {
                            Ok(mach.arch.clone())
                        } else {
                            let mut m = str_to_string("unknown machine field: ");
                            m.append(field);
                            Err(m)
                        }
                    },
                }
            },
        }
    } else {
        let mut m = str_to_string("unknown template variable: ");
        m.append(key);
        Err(m)
    }
}

/// Lift a step result over an already-substituted prefix.
pub open spec fn with_prefix(prefix: Seq<char>, r: Result<Seq<char>, TErr>) -> Result<
    Seq<char>,
    TErr,
> {
    match r {
        Ok(t) => Ok(prefix + t),
        Err(e) => Err(e),
    }
}

/// Resolve every template span in a string.  Returns the substituted text,
/// or the diagnostic for the first failure (scanning left to right).
pub fn resolve_template(template: &str, params: &OMap<ParamValue>, machines: &OMap<Machine>) -> (r:
    Result<String, String>)
    ensures
        match subst(template@, params@, machines@, 0) {
            Ok(t) => r is Ok && r->Ok_0@ == t,
            Err(e) => r is Err && r->Err_0@ == err_message(e),
        },
{
    let mut out = String::new();
    let mut rest = str_to_string(template);
    loop
        invariant
            subst(template@, params@, machines@, 0) == with_prefix(
                out@,
                subst(rest@, params@, machines@, out@.len() as nat),
            ),
        decreases rest@.len(),
    {
        let ghost prev = out@;
        let ghost off = out@.len() as nat;
        let ghost full = subst(template@, params@, machines@, 0);
        match find_pair(rest.as_str(), '{', '{') {
            None => {
                proof {
                    assert(subst(rest@, params@, machines@, off) == Ok::<Seq<char>, TErr>(rest@));
                }
                out.append(rest.as_str());
                proof {
                    assert(full == Ok::<Seq<char>, TErr>(prev + rest@));
                }
                return Ok(out);
            },
            Some(open) => {
                let n = rest.unicode_len();
                proof {
                    lemma_find2_props(rest@, '{', '{');
                }
                let after_open = rest.as_str().substring_char(open, n);
                proof {
                    assert(after_open@ =~= rest@.skip(open as int));
                }
                match find_pair(after_open, '}', '}') {
                    None => {
                        proof {
                            assert(subst(rest@, params@, machines@, off) == Err::<
                                Seq<char>,
                                TErr,
                            >(TErr::Unclosed((off + open) as nat)));
                        }
                        let mut m = str_to_string("unclosed template at position ");
                        let pos: u128 = out.as_str().unicode_len() as u128 + open as u128;
                        push_dec_u128(&mut m, pos);
                        return Err(m);
                    },
                    Some(crel) => {
                        proof {
                            lemma_find2_props(after_open@, '}', '}');
                            // `}}` cannot begin inside the opening `{{`
                            assert(after_open@[0] == '{');
                            assert(after_open@[1] == '{');
                            assert(crel >= 2);
                            assert(crel + 1 < n - open);
                            assert(open + crel + 2 <= n);
                        }
                        let key_raw = rest.as_str().substring_char(open + 2, open + crel);
                        let key = trim_str(key_raw);
                        proof {
                            assert(rest@.skip(open as int).subrange(2, crel as int) =~= rest@
                                .subrange(open + 2, open + crel));
                            assert(key@ == trim(rest@.subrange(open + 2, open + crel)));
                        }
                        match lookup_value(key.as_str(), params, machines) {
                            Err(m) => {
                                proof {
                                    let e = lookup_key(key@, params@, machines@)->Err_0;
                                    assert(subst(rest@, params@, machines@, off) == Err::<
                                        Seq<char>,
                                        TErr,
                                    >(e));
                                }
                                return Err(m);
                            },
                            Ok(val) => {
                                let ghost vspec = lookup_key(key@, params@, machines@)->Ok_0;
                                let prefix = rest.as_str().substring_char(0, open);
                                out.append(prefix);
                                out.append(val.as_str());
                                let tail = str_to_string(
                                    rest.as_str().substring_char(open + crel + 2, n),
                                );
                                proof {
                                    let cut = open + crel + 2;
                                    assert(rest@.subrange(0, open as int) =~= rest@.take(
                                        open as int,
                                    ));
                                    assert(tail@ =~= rest@.skip(cut as int));
                                    assert(out@ == prev + rest@.take(open as int) + vspec);
                                    assert(out@.len() == off + open + vspec.len());
                                    let inner = subst(
                                        tail@,
                                        params@,
                                        machines@,
                                        (off + open + vspec.len()) as nat,
                                    );
                                    assert(subst(rest@, params@, machines@, off) == (match inner {
                                        Ok(t) => Ok::<Seq<char>, TErr>(
                                            rest@.take(open as int) + vspec + t,
                                        ),
                                        Err(e) => Err(e),
                                    }));
                                    match inner {
                                        Ok(t) => {
                                            assert(prev + (rest@.take(open as int) + vspec + t)
                                                =~= out@ + t);
                                        },
                                        Err(e) => {},
                                    }
                                }
                                rest = tail;
                            },
                        }
                    },
                }
            },
        }
    }
}

/// The character view of an optional string field.
pub open spec fn opt_view(o: Option<String>) -> Option<Seq<char>> {
    match o {
        Some(s) => Some(s@),
        None => None,
    }
}

/// What substitution makes of one optional field: absent fields stay
/// absent, present ones are resolved.
pub open spec fn field_result(
    o: Option<String>,
    params: Seq<(Seq<char>, ParamValue)>,
    machines: Seq<(Seq<char>, Machine)>,
) -> Result<Option<Seq<char>>, TErr> {
    match o {
        None => Ok(None),
        Some(t) => match subst(t@, params, machines, 0) {
            Ok(r) => Ok(Some(r)),
            Err(e) => Err(e),
        },
    }
}

/// The first failure among a resource's templated fields, checked in the
/// order content, source, path, target, owner, group, mode, name, options.
pub open spec fn first_field_err(
    r: Resource,
    params: Seq<(Seq<char>, ParamValue)>,
    machines: Seq<(Seq<char>, Machine)>,
) -> Option<TErr> {
    if field_result(r.content, params, machines) is Err {
        Some(field_result(r.content, params, machines)->Err_0)
    } else if field_result(r.source, params, machines) is Err {
        Some(field_result(r.source, params, machines)->Err_0)
    } else if field_result(r.path, params, machines) is Err {
        Some(field_result(r.path, params, machines)->Err_0)
    } else if field_result(r.target, params, machines) is Err {
        Some(field_result(r.target, params, machines)->Err_0)
    } else if field_result(r.owner, params, machines) is Err {
        Some(field_result(r.owner, params, machines)->Err_0)
    } else if field_result(r.group, params, machines) is Err {
        Some(field_result(r.group, params, machines)->Err_0)
    } else if field_result(r.mode, params, machines) is Err {
        Some(field_result(r.mode, params, machines)->Err_0)
    } else if field_result(r.name, params, machines) is Err {
        Some(field_result(r.name, params, machines)->Err_0)
    } else if field_result(r.options, params, machines) is Err {
        Some(field_result(r.options, params, machines)->Err_0)
    } else {
        None
    }
}

/// Resolve one optional field, or report the failure's message.
fn resolve_opt_field(
    o: &Option<String>,
    params: &OMap<ParamValue>,
    machines: &OMap<Machine>,
) -> (r: Result<Option<String>, String>)
    ensures
        match field_result(*o, params@, machines@) {
            Ok(t) => r is Ok && opt_view(r->Ok_0) == t,
            Err(e) => r is Err && r->Err_0@ == err_message(e),
        },
{
    match o {
        None => Ok(None),
        Some(t) => match resolve_template(t.as_str(), params, machines) {
            Ok(v) => Ok(Some(v)),
            Err(m) => Err(m),
        },
    }
}

/// Resolve the templated string fields of a resource: `content`, `source`,
/// `path`, `target`, `owner`, `group`, `mode`, `name` and `options` are
/// substituted; every other field carries over unchanged.  The first
/// failing field's diagnostic is returned.
pub fn resolve_resource_templates(
    resource: &Resource,
    params: &OMap<ParamValue>,
    machines: &OMap<Machine>,
) -> (r: Result<Resource, String>)
    ensures
        match r {
            Ok(rr) => {
                &&& first_field_err(*resource, params@, machines@) is None
                &&& rr.resource_type == resource.resource_type
                &&& crate::types::target_names(rr.machine) == crate::types::target_names(
                    resource.machine,
                )
                &&& rr.state == resource.state
                &&& rr.depends_on@ == resource.depends_on@
                &&& rr.provider == resource.provider
                &&& rr.packages@ == resource.packages@
                &&& rr.enabled == resource.enabled
                &&& rr.restart_on@ == resource.restart_on@
                &&& rr.fs_type == resource.fs_type
                &&& field_result(resource.content, params@, machines@) == Ok::<_, TErr>(
                    opt_view(rr.content),
                )
                &&& field_result(resource.source, params@, machines@) == Ok::<_, TErr>(
                    opt_view(rr.source),
                )
                &&& field_result(resource.path, params@, machines@) == Ok::<_, TErr>(
                    opt_view(rr.path),
                )
                &&& field_result(resource.target, params@, machines@) == Ok::<_, TErr>(
                    opt_view(rr.target),
                )
                &&& field_result(resource.owner, params@, machines@) == Ok::<_, TErr>(
                    opt_view(rr.owner),
                )
                &&& field_result(resource.group, params@, machines@) == Ok::<_, TErr>(
                    opt_view(rr.group),
                )
                &&& field_result(resource.mode, params@, machines@) == Ok::<_, TErr>(
                    opt_view(rr.mode),
                )
                &&& field_result(resource.name, params@, machines@) == Ok::<_, TErr>(
                    opt_view(rr.name),
                )
                &&& field_result(resource.options, params@, machines@) == Ok::<_, TErr>(
                    opt_view(rr.options),
                )
            },
            Err(m) => {
                &&& first_field_err(*resource, params@, machines@) is Some
                &&& m@ == err_message(first_field_err(*resource, params@, machines@)->0)
            },
        },
{
    let content = match resolve_opt_field(&resource.content, params, machines) {
        Ok(v) => v,
        Err(m) => {
            return Err(m);
        },
    };
    let source = match resolve_opt_field(&resource.source, params, machines) {
        Ok(v) => v,
        Err(m) => {
            return Err(m);
        },
    };
    let path = match resolve_opt_field(&resource.path, params, machines) {
        Ok(v) => v,
        Err(m) => {
            return Err(m);
        },
    };
    let target = match resolve_opt_field(&resource.target, params, machines) {
        Ok(v) => v,
        Err(m) => {
            return Err(m);
        },
    };
    let owner = match resolve_opt_field(&resource.owner, params, machines) {
        Ok(v) => v,
        Err(m) => {
            return Err(m);
        },
    };
    let group = match resolve_opt_field(&resource.group, params, machines) {
        Ok(v) => v,
        Err(m) => {
            return Err(m);
        },
    };
    let mode = match resolve_opt_field(&resource.mode, params, machines) {
        Ok(v) => v,
        Err(m) => {
            return Err(m);
        },
    };
    let name = match resolve_opt_field(&resource.name, params, machines) {
        Ok(v) => v,
        Err(m) => {
            return Err(m);
        },
    };
    let options = match resolve_opt_field(&resource.options, params, machines) {
        Ok(v) => v,
        Err(m) => {
            return Err(m);
        },
    };
    Ok(
        Resource {
            resource_type: resource.resource_type,
            machine: resource.machine.dup(),
            state: crate::types::clone_opt(&resource.state),
            depends_on: crate::types::clone_strs(&resource.depends_on),
            provider: crate::types::clone_opt(&resource.provider),
            packages: crate::types::clone_strs(&resource.packages),
            path,
            content,
            source,
            target,
            owner,
            group,
            mode,
            name,
            enabled: resource.enabled,
            restart_on: crate::types::clone_strs(&resource.restart_on),
            fs_type: crate::types::clone_opt(&resource.fs_type),
            options,
        },
    )
}

} // verus!
