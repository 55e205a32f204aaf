//! Dependency graph and deterministic topological order.
//!
//! Every `depends_on` entry draws an edge from the dependency to the
//! dependent.  The execution order is computed by repeatedly emitting the
//! lexicographically smallest resource whose dependencies have all been
//! emitted, which makes the order a pure function of the configuration.
//! A reference to an undeclared resource is an error; so is a cycle,
//! reported with its member ids.

use vstd::prelude::*;

use crate::omap::{assoc_find, assoc_has};
use crate::strutil::{join_sep, push_joined, str_eq, str_to_string};
use crate::types::{ForjarConfig, Resource};

verus! {

/// Strict lexicographic order on character sequences (by scalar value).
pub open spec fn lex_lt(a: Seq<char>, b: Seq<char>) -> bool
    decreases a.len(),
{
    if b.len() == 0 {
        false
    } else if a.len() == 0 {
        true
    } else if a[0] != b[0] {
        a[0] < b[0]
    } else {
        lex_lt(a.drop_first(), b.drop_first())
    }
}

/// Whether `a` sorts strictly before `b`.
pub fn str_lt(a: &str, b: &str) -> (r: bool)
    ensures
        r == lex_lt(a@, b@),
{
    let an = a.unicode_len();
    let bn = b.unicode_len();
    let mut i: usize = 0;
    proof {
        assert(a@.skip(0) =~= a@);
        assert(b@.skip(0) =~= b@);
    }
    loop
        invariant
            an == a@.len(),
            bn == b@.len(),
            i <= an,
            i <= bn,
            lex_lt(a@, b@) == lex_lt(a@.skip(i as int), b@.skip(i as int)),
        decreases an - i,
    {
        if i == bn {
            proof {
                assert(b@.skip(i as int).len() == 0);
            }
            return false;
        }
        if i == an {
            proof {
                assert(a@.skip(i as int).len() == 0);
                assert(b@.skip(i as int).len() > 0);
            }
            return true;
        }
        let ca = a.get_char(i);
        let cb = b.get_char(i);
        if ca != cb {
            proof {
                assert(a@.skip(i as int)[0] == ca);
                assert(b@.skip(i as int)[0] == cb);
            }
            return ca < cb;
        }
        proof {
            assert(a@.skip(i as int).drop_first() =~= a@.skip(i + 1));
            assert(b@.skip(i as int).drop_first() =~= b@.skip(i + 1));
        }
        i += 1;
    }
}

/// The dependency ids of the resource registered under `id` (empty when
/// `id` is not registered).
pub open spec fn deps_of(res: Seq<(Seq<char>, Resource)>, id: Seq<char>) -> Seq<Seq<char>> {
    match assoc_find(res, id) {
        Some(r) => r.depends_on@.map_values(|s: String| s@),
        None => Seq::empty(),
    }
}

/// The first dependency reference that names no declared resource,
/// scanning resources in declaration order and their edges in order:
/// `(dependent id, missing dependency)`.
pub open spec fn first_missing_from(res: Seq<(Seq<char>, Resource)>, i: int, k: int) -> Option<
    (Seq<char>, Seq<char>),
>
    decreases res.len() - i, (if 0 <= i < res.len() {
        res[i].1.depends_on@.len() - k
    } else {
        0
    }) when 0 <= i && 0 <= k
{
    if i >= res.len() {
        None
    } else {
        let deps = res[i].1.depends_on@;
        if k >= deps.len() {
            first_missing_from(res, i + 1, 0)
        } else if !assoc_has(res, deps[k]@) {
            Some((res[i].0, deps[k]@))
        } else {
            first_missing_from(res, i, k + 1)
        }
    }
}

/// A node is ready when none of its dependencies is still pending.
pub open spec fn ready_at(rem: Seq<Seq<char>>, res: Seq<(Seq<char>, Resource)>, i: int) -> bool {
    forall|k: int|
        0 <= k < deps_of(res, rem[i]).len() ==> !rem.contains(#[trigger] deps_of(res, rem[i])[k])
}

/// The index of the lexicographically smallest ready node at or after
/// position `i`, if any.
pub open spec fn pick_from(rem: Seq<Seq<char>>, res: Seq<(Seq<char>, Resource)>, i: int) -> Option<
    int,
>
    decreases rem.len() - i when 0 <= i
{
    if i >= rem.len() {
        None
    } else {
        let rest = pick_from(rem, res, i + 1);
        if ready_at(rem, res, i) {
            match rest {
                None => Some(i),
                Some(j) => if 0 <= j < rem.len() && lex_lt(rem[j], rem[i]) {
                    Some(j)
                } else {
                    Some(i)
                },
            }
        } else {
            rest
        }
    }
}

/// The deterministic topological order of the pending ids, or, when no
/// pending node is ready, the pending ids themselves (a cycle).
pub open spec fn kahn_order(rem: Seq<Seq<char>>, res: Seq<(Seq<char>, Resource)>) -> Result<
    Seq<Seq<char>>,
    Seq<Seq<char>>,
>
    decreases rem.len(),
{
    if rem.len() == 0 {
        Ok(Seq::empty())
    } else {
        match pick_from(rem, res, 0) {
            None => Err(rem),
            Some(i) => {
                if 0 <= i < rem.len() {
                    match kahn_order(rem.remove(i), res) {
                        Ok(t) => Ok(seq![rem[i]] + t),
                        Err(e) => Err(e),
                    }
                } else {
                    Err(rem)
                }
            },
        }
    }
}

/// The id sequence of a resource table.
pub open spec fn keys_of(res: Seq<(Seq<char>, Resource)>) -> Seq<Seq<char>> {
    res.map_values(|p: (Seq<char>, Resource)| p.0)
}

/// `lex_lt` is asymmetric.
pub proof fn lemma_lex_asym(a: Seq<char>, b: Seq<char>)
    requires
        lex_lt(a, b),
    ensures
        !lex_lt(b, a),
    decreases a.len(),
{
    if b.len() == 0 {
    } else if a.len() == 0 {
    } else if a[0] != b[0] {
    } else {
        lemma_lex_asym(a.drop_first(), b.drop_first());
    }
}

/// Any two character sequences are equal or strictly ordered.
pub proof fn lemma_lex_trichotomy(a: Seq<char>, b: Seq<char>)
    ensures
        a == b || lex_lt(a, b) || lex_lt(b, a),
    decreases a.len(),
{
    if a.len() == 0 && b.len() == 0 {
        assert(a =~= b);
    } else if a.len() == 0 || b.len() == 0 {
    } else if a[0] != b[0] {
    } else {
        lemma_lex_trichotomy(a.drop_first(), b.drop_first());
        if a.drop_first() == b.drop_first() {
            assert(a.drop_first().len() == a.len() - 1);
            assert(b.drop_first().len() == b.len() - 1);
            assert forall|idx: int| 0 <= idx < a.len() implies a[idx] == b[idx] by {
                if idx > 0 {
                    assert(a.drop_first()[idx - 1] == a[idx]);
                    assert(b.drop_first()[idx - 1] == b[idx]);
                }
            }
            assert(a =~= b);
        }
    }
}

/// `lex_lt` is transitive.
pub proof fn lemma_lex_trans(a: Seq<char>, b: Seq<char>, c: Seq<char>)
    requires
        lex_lt(a, b),
        lex_lt(b, c),
    ensures
        lex_lt(a, c),
    decreases a.len(),
{
    if c.len() == 0 {
    } else if b.len() == 0 {
    } else if a.len() == 0 {
    } else if a[0] == b[0] && b[0] == c[0] {
        lemma_lex_trans(a.drop_first(), b.drop_first(), c.drop_first());
    }
}

/// What `pick_from` returns is in range, ready, and lexicographically
/// least among all ready pending nodes — ties among ready nodes always
/// fall to the smallest id.
pub proof fn lemma_pick_min(rem: Seq<Seq<char>>, res: Seq<(Seq<char>, Resource)>, i: int)
    requires
        0 <= i,
    ensures
        match pick_from(rem, res, i) {
            Some(p) => {
                &&& i <= p < rem.len()
                &&& ready_at(rem, res, p)
                &&& forall|j: int|
                    i <= j < rem.len() && ready_at(rem, res, j) && j != p ==> !lex_lt(
                        rem[j],
                        rem[p],
                    )
            },
            None => forall|j: int| i <= j < rem.len() ==> !ready_at(rem, res, j),
        },
    decreases rem.len() - i,
{
    if i >= rem.len() {
    } else {
        lemma_pick_min(rem, res, i + 1);
        let rest = pick_from(rem, res, i + 1);
        if ready_at(rem, res, i) {
            match rest {
                None => {},
                Some(j) => {
                    if 0 <= j < rem.len() && lex_lt(rem[j], rem[i]) {
                        lemma_lex_asym(rem[j], rem[i]);
                    } else {
                        assert forall|k: int|
                            i <= k < rem.len() && ready_at(rem, res, k) && k != i implies !lex_lt(
                            rem[k],
                            rem[i],
                        ) by {
                            if k == j {
                            } else {
                                lemma_lex_trichotomy(rem[k], rem[j]);
                                if lex_lt(rem[k], rem[i]) {
                                    if rem[k] == rem[j] {
                                    } else if lex_lt(rem[j], rem[k]) {
                                        lemma_lex_trans(rem[j], rem[k], rem[i]);
                                    }
                                }
                            }
                        }
                    }
                },
            }
        }
    }
}

/// Whether `needle` occurs in the vector.
fn contains_str(v: &Vec<String>, needle: &str) -> (r: bool)
    ensures
        r == v@.map_values(|s: String| s@).contains(needle@),
{
    let n = v.len();
    let mut i: usize = 0;
    while i < n
        invariant
            n == v.len(),
            i <= n,
            forall|j: int| 0 <= j < i ==> (#[trigger] v@[j])@ != needle@,
        decreases n - i,
    {
        if str_eq(v[i].as_str(), needle) {
            assert(v@.map_values(|s: String| s@)[i as int] == needle@);
            return true;
        }
        i += 1;
    }
    proof {
        let m = v@.map_values(|s: String| s@);
        if m.contains(needle@) {
            let j = choose|j: int| 0 <= j < m.len() && m[j] == needle@;
            assert(v@[j]@ == needle@);
            assert(false);
        }
    }
    false
}

/// Whether every dependency of the resource pending at index `i` has
/// already been emitted.
fn is_ready(rem: &Vec<String>, config: &ForjarConfig, i: usize) -> (r: bool)
    requires
        i < rem@.len(),
    ensures
        r == ready_at(rem@.map_values(|s: String| s@), config.resources@, i as int),
{
    let ghost rems = rem@.map_values(|s: String| s@);
    let ghost res = config.resources@;
    match config.resources.get(rem[i].as_str()) {
        None => {
            proof {
                assert(deps_of(res, rems[i as int]).len() == 0);
            }
            true
        },
        Some(resource) => {
            let ghost deps = deps_of(res, rems[i as int]);
            let dn = resource.depends_on.len();
            let mut k: usize = 0;
            while k < dn
                invariant
                    dn == resource.depends_on@.len(),
                    k <= dn,
                    res == config.resources@,
                    deps == deps_of(res, rems[i as int]),
                    deps == resource.depends_on@.map_values(|s: String| s@),
                    rems == rem@.map_values(|s: String| s@),
                    i < rem@.len(),
                    forall|j: int| 0 <= j < k ==> !rems.contains(#[trigger] deps[j]),
                decreases dn - k,
            {
                if contains_str(rem, resource.depends_on[k].as_str()) {
                    proof {
                        assert(!ready_at(rems, res, i as int)) by {
                            assert(deps[k as int] == resource.depends_on@[k as int]@);
                            assert(rems.contains(deps_of(res, rems[i as int])[k as int]));
                        }
                    }
                    return false;
                }
                k += 1;
            }
            true
        },
    }
}

/// The index of the lexicographically smallest ready pending node.
fn pick_ready(rem: &Vec<String>, config: &ForjarConfig) -> (r: Option<usize>)
    ensures
        match r {
            Some(i) => i < rem@.len() && pick_from(
                rem@.map_values(|s: String| s@),
                config.resources@,
                0,
            ) == Some(i as int),
            None => pick_from(rem@.map_values(|s: String| s@), config.resources@, 0) is None,
        },
{
    let ghost rems = rem@.map_values(|s: String| s@);
    let ghost res = config.resources@;
    let n = rem.len();
    let mut best: Option<usize> = None;
    let mut i = n;
    while i > 0
        invariant
            n == rem@.len(),
            i <= n,
            rems == rem@.map_values(|s: String| s@),
            res == config.resources@,
            match best {
                Some(b) => b < n && pick_from(rems, res, i as int) == Some(b as int),
                None => pick_from(rems, res, i as int) is None,
            },
        decreases i,
    {
        i -= 1;
        if is_ready(rem, config, i) {
            match best {
                None => {
                    best = Some(i);
                },
                Some(b) => {
                    if str_lt(rem[b].as_str(), rem[i].as_str()) {
                        best = Some(b);
                    } else {
                        best = Some(i);
                    }
                },
            }
        }
    }
    best
}

/// Lift a step result over the already-emitted prefix.
pub open spec fn order_with_prefix(prefix: Seq<Seq<char>>, r: Result<
    Seq<Seq<char>>,
    Seq<Seq<char>>,
>) -> Result<Seq<Seq<char>>, Seq<Seq<char>>> {
    match r {
        Ok(t) => Ok(prefix + t),
        Err(e) => Err(e),
    }
}

/// Build the execution order for a configuration.
///
/// The order is a pure function of the resource table: among pending
/// resources whose dependencies are all emitted, the lexicographically
/// smallest id is emitted next, so every run and every implementation of
/// this contract produces the same sequence.  A dependency on an
/// undeclared resource, or a dependency cycle, is an error.
pub fn build_execution_order(config: &ForjarConfig) -> (r: Result<Vec<String>, String>)
    ensures
        match first_missing_from(config.resources@, 0, 0) {
            Some(p) => r is Err && r->Err_0@ == "resource '"@ + p.0 + "' depends on unknown '"@
                + p.1 + "'"@,
            None => match kahn_order(keys_of(config.resources@), config.resources@) {
                Ok(ord) => r is Ok && r->Ok_0@.map_values(|s: String| s@) == ord,
                Err(rem) => r is Err && r->Err_0@ == "dependency cycle detected involving: "@
                    + join_sep(rem, ", "@),
            },
        },
{
    let ghost res = config.resources@;
    // First pass: every edge must point at a declared resource.
    let rn = config.resources.len();
    let mut i: usize = 0;
    while i < rn
        invariant
            rn == res.len(),
            i <= rn,
            res == config.resources@,
            first_missing_from(res, 0, 0) == first_missing_from(res, i as int, 0),
        decreases rn - i,
    {
        let resource = config.resources.val_at(i);
        let dn = resource.depends_on.len();
        let mut k: usize = 0;
        while k < dn
            invariant
                rn == res.len(),
                i < rn,
                res == config.resources@,
                dn == resource.depends_on@.len(),
                k <= dn,
                *resource == res[i as int].1,
                first_missing_from(res, 0, 0) == first_missing_from(res, i as int, k as int),
            decreases dn - k,
        {
            let dep = &resource.depends_on[k];
            if !config.resources.contains_key(dep.as_str()) {
                let id = config.resources.key_at(i);
                let mut m = str_to_string("resource '");
                m.append(id.as_str());
                m.append("' depends on unknown '");
                m.append(dep.as_str());
                m.append("'");
                return Err(m);
            }
            k += 1;
        }
        i += 1;
    }
    proof {
        assert(first_missing_from(res, 0, 0) is None);
    }

    // Pending ids, in declaration order.
    let mut rem: Vec<String> = Vec::new();
    let mut j: usize = 0;
    while j < rn
        invariant
            rn == res.len(),
            j <= rn,
            res == config.resources@,
            rem@.len() == j,
            forall|idx: int| 0 <= idx < j ==> (#[trigger] rem@[idx])@ == keys_of(res)[idx],
        decreases rn - j,
    {
        let key = config.resources.key_at(j);
        rem.push(key.clone());
        j += 1;
    }
    proof {
        assert(rem@.map_values(|s: String| s@) =~= keys_of(res));
    }

    let mut order: Vec<String> = Vec::new();
    loop
        invariant
            res == config.resources@,
            first_missing_from(res, 0, 0) is None,
            kahn_order(keys_of(res), res) == order_with_prefix(
                order@.map_values(|s: String| s@),
                kahn_order(rem@.map_values(|s: String| s@), res),
            ),
        decreases rem@.len(),
    {
        let ghost rems = rem@.map_values(|s: String| s@);
        let ghost prefix = order@.map_values(|s: String| s@);
        if rem.len() == 0 {
            proof {
                assert(kahn_order(rems, res) == Ok::<_, Seq<Seq<char>>>(Seq::<Seq<char>>::empty()));
                assert(prefix + Seq::<Seq<char>>::empty() =~= prefix);
            }
            return Ok(order);
        }
        match pick_ready(&rem, config) {
            None => {
                proof {
                    assert(kahn_order(rems, res) == Err::<Seq<Seq<char>>, _>(rems));
                }
                let mut m = str_to_string("dependency cycle detected involving: ");
                push_joined(&mut m, &rem, ", ");
                return Err(m);
            },
            Some(p) => {
                let picked = rem.remove(p);
                order.push(picked);
                proof {
                    assert(order@.map_values(|s: String| s@) =~= prefix + seq![rems[p as int]]);
                    assert(rem@.map_values(|s: String| s@) =~= rems.remove(p as int));
                    let inner = kahn_order(rems.remove(p as int), res);
                    match inner {
                        Ok(t) => {
                            assert(prefix + (seq![rems[p as int]] + t) =~= (prefix + seq![
                                rems[p as int],
                            ]) + t);
                        },
                        Err(e) => {},
                    }
                }
            },
        }
    }
}

/// Determinism of the execution order: the order is a function of the
/// resource table alone, so two configurations with the same table — in
/// particular, the same configuration on two runs — order identically.
pub proof fn lemma_order_deterministic(c1: ForjarConfig, c2: ForjarConfig)
    requires
        c1.resources@ == c2.resources@,
    ensures
        first_missing_from(c1.resources@, 0, 0) == first_missing_from(c2.resources@, 0, 0),
        kahn_order(keys_of(c1.resources@), c1.resources@) == kahn_order(
            keys_of(c2.resources@),
            c2.resources@,
        ),
{
}

} // verus!
