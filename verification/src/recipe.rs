//! Recipes: reusable, parameterized resource bundles.
//!
//! A recipe declares typed inputs and an ordered resource map.  Expansion
//! validates the provided inputs against the declarations, substitutes
//! `{{inputs.X}}` in text fields, namespaces internal references as
//! `RECIPE_ID/NAME`, propagates the target machine, and hangs any
//! external dependencies on the first resource — and only the first.

use vstd::prelude::*;

use crate::omap::{assoc_find, assoc_has, OMap};
use crate::strutil::{int_str, join_sep, push_joined, str_eq, str_to_string};
use crate::template::{find2, find_sub, trim};
use crate::types::{
    scalar_text, target_names, MachineTarget, ParamValue, Resource,
};

verus! {

/// Where a recipe is loaded from.
#[derive(Debug, Clone, PartialEq)]
pub enum RecipeSource {
    Local { path: String },
    Git { git: String, git_ref: Option<String>, path: Option<String> },
}

/// One declared recipe input: its kind (`string`, `int`, `bool`, `path`
/// or `enum`), an optional default, bounds for ints, choices for enums.
#[derive(Debug, Clone, PartialEq)]
pub struct RecipeInput {
    pub input_type: String,
    pub description: Option<String>,
    pub default: Option<ParamValue>,
    pub min: Option<i64>,
    pub max: Option<i64>,
    pub choices: Vec<String>,
}

/// A recipe this recipe builds on.
#[derive(Debug, Clone, PartialEq)]
pub struct RecipeRequirement {
    pub recipe: String,
}

/// Recipe metadata: name, declared inputs, required recipes.
pub struct RecipeMetadata {
    pub name: String,
    pub version: Option<String>,
    pub description: Option<String>,
    pub inputs: OMap<RecipeInput>,
    pub needs: Vec<RecipeRequirement>,
}

/// A parsed recipe: metadata plus the ordered resource map.
pub struct RecipeFile {
    pub recipe: RecipeMetadata,
    pub resources: OMap<Resource>,
}

/// The stringification and check of one provided value against one input
/// declaration, or the diagnostic refusing it.
pub open spec fn input_check(
    name: Seq<char>,
    decl: RecipeInput,
    v: ParamValue,
) -> Result<Seq<char>, Seq<char>> {
    let t = decl.input_type@;
    if t == "string"@ {
        Ok(scalar_text(v))
    } else if t == "int"@ {
        match v {
            ParamValue::Int(n) => if decl.min is Some && n < decl.min->0 {
                Err("input '"@ + name + "' must be >= "@ + int_str(decl.min->0 as int))
            } else if decl.max is Some && n > decl.max->0 {
                Err("input '"@ + name + "' must be <= "@ + int_str(decl.max->0 as int))
            } else {
                Ok(int_str(n as int))
            },
            _ => Err("input '"@ + name + "' must be an integer"@),
        }
    } else if t == "bool"@ {
        match v {
            ParamValue::Bool(b) => Ok(if b {
                "true"@
            } else {
                "false"@
            }),
            _ => Err("input '"@ + name + "' must be a boolean"@),
        }
    } else if t == "path"@ {
        match v {
            ParamValue::Str(p) => if p@.len() > 0 && p@[0] == '/' {
                Ok(p@)
            } else {
                Err("input '"@ + name + "' must be an absolute path"@)
            },
            _ => Err("input '"@ + name + "' must be a path string"@),
        }
    } else if t == "enum"@ {
        match v {
            ParamValue::Str(c) => if decl.choices@.len() > 0 && !decl.choices@.map_values(
                |s: String| s@,
            ).contains(c@) {
                Err(
                    "input '"@ + name + "' must be one of: "@ + join_sep(
                        decl.choices@.map_values(|s: String| s@),
                        ", "@,
                    ),
                )
            } else {
                Ok(c@)
            },
            _ => Err("input '"@ + name + "' must be a string"@),
        }
    } else {
        Err("unknown input type '"@ + t + "' for '"@ + name + "'"@)
    }
}

/// The resolution of one declared input: the provided value, else the
/// default, else a diagnostic that the input is required.
pub open spec fn input_value(
    rname: Seq<char>,
    name: Seq<char>,
    decl: RecipeInput,
    provided: Seq<(Seq<char>, ParamValue)>,
) -> Result<ParamValue, Seq<char>> {
    match assoc_find(provided, name) {
        Some(v) => Ok(v),
        None => match decl.default {
            Some(d) => Ok(d),
            None => Err(
                "recipe '"@ + rname + "' requires input '"@ + name + "' (type: "@
                    + decl.input_type@ + ")"@,
            ),
        },
    }
}

/// The resolved, stringified inputs of a declaration prefix, or the first
/// diagnostic, in declaration order.
pub open spec fn inputs_result(
    rname: Seq<char>,
    decls: Seq<(Seq<char>, RecipeInput)>,
    provided: Seq<(Seq<char>, ParamValue)>,
) -> Result<Seq<(Seq<char>, Seq<char>)>, Seq<char>>
    decreases decls.len(),
{
    if decls.len() == 0 {
        Ok(Seq::empty())
    } else {
        match inputs_result(rname, decls.drop_last(), provided) {
            Err(e) => Err(e),
            Ok(done) => {
                let name = decls.last().0;
                let decl = decls.last().1;
                match input_value(rname, name, decl, provided) {
                    Err(e) => Err(e),
                    Ok(v) => match input_check(name, decl, v) {
                        Err(e) => Err(e),
                        Ok(sv) => Ok(done.push((name, sv))),
                    },
                }
            },
        }
    }
}

/// Validate one provided value against its declaration, yielding the
/// stringified value.
pub fn validate_input_type(
    name: &str,
    kind_name: &str,
    value: &ParamValue,
    decl: &RecipeInput,
) -> (r: Result<String, String>)
    requires
        kind_name@ == decl.input_type@,
    ensures
        match input_check(name@, *decl, *value) {
            Ok(t) => r is Ok && r->Ok_0@ == t,
            Err(e) => r is Err && r->Err_0@ == e,
        },
{
    if str_eq(kind_name, "string") {
        Ok(crate::types::yaml_value_to_string(value))
    } else if str_eq(kind_name, "int") {
        match value {
            ParamValue::Int(n) => {
                match decl.min {
                    Some(lo) if *n < lo => {
                        let mut m = str_to_string("input '");
                        m.append(name);
                        m.append("' must be >= ");
                        let lo_text = crate::strutil::i64_to_dec(lo);
                        m.append(lo_text.as_str());
                        Err(m)
                    },
                    _ => {
                        match decl.max {
                            Some(hi) if *n > hi => {
                                let mut m = str_to_string("input '");
                                m.append(name);
                                m.append("' must be <= ");
                                let hi_text = crate::strutil::i64_to_dec(hi);
                                m.append(hi_text.as_str());
                                Err(m)
                            },
                            _ => Ok(crate::strutil::i64_to_dec(*n)),
                        }
                    },
                }
            },
            _ => {
                let mut m = str_to_string("input '");
                m.append(name);
                m.append("' must be an integer");
                Err(m)
            },
        }
    } else if str_eq(kind_name, "bool") {
        match value {
            ParamValue::Bool(b) => {
                if *b {
                    Ok(str_to_string("true"))
                } else {
                    Ok(str_to_string("false"))
                }
            },
            _ => {
                let mut m = str_to_string("input '");
                m.append(name);
                m.append("' must be a boolean");
                Err(m)
            },
        }
    } else if str_eq(kind_name, "path") {
        match value {
            ParamValue::Str(p) => {
                if p.as_str().unicode_len() > 0 && p.as_str().get_char(0) == '/' {
                    Ok(p.clone())
                } else {
                    let mut m = str_to_string("input '");
                    m.append(name);
                    m.append("' must be an absolute path");
                    Err(m)
                }
            },
            _ => {
                let mut m = str_to_string("input '");
                m.append(name);
                m.append("' must be a path string");
                Err(m)
            },
        }
    } else if str_eq(kind_name, "enum") {
        match value {
            ParamValue::Str(c) => {
                if decl.choices.len() > 0 && !contains_string(&decl.choices, c.as_str()) {
                    let mut m = str_to_string("input '");
                    m.append(name);
                    m.append("' must be one of: ");
                    push_joined(&mut m, &decl.choices, ", ");
                    Err(m)
                } else {
                    Ok(c.clone())
                }
            },
            _ => {
                let mut m = str_to_string("input '");
                m.append(name);
                m.append("' must be a string");
                Err(m)
            },
        }
    } else {
        let mut m = str_to_string("unknown input type '");
        m.append(kind_name);
        m.append("' for '");
        m.append(name);
        m.append("'");
        Err(m)
    }
}

fn contains_string(v: &Vec<String>, needle: &str) -> (r: bool)
    ensures
        r == v@.map_values(|s: String| s@).contains(needle@),
{
    let n = v.len();
    let mut i: usize = 0;
    while i < n
        invariant
            n == v.len(),
            i <= n,
            forall|j: int| 0 <= j < i ==> (#[trigger] v@[j])@ != needle@,
        decreases n - i,
    {
        if str_eq(v[i].as_str(), needle) {
            assert(v@.map_values(|s: String| s@)[i as int] == needle@);
            return true;
        }
        i += 1;
    }
    proof {
        let m = v@.map_values(|s: String| s@);
        if m.contains(needle@) {
            let j = choose|j: int| 0 <= j < m.len() && m[j] == needle@;
            assert(v@[j]@ == needle@);
            assert(false);
        }
    }
    false
}

/// Validate the provided inputs against the declarations, defaulting
/// absent ones.  Yields the stringified inputs in declaration order, or
/// the first diagnostic.
pub fn validate_inputs(recipe: &RecipeMetadata, provided: &OMap<ParamValue>) -> (r: Result<
    OMap<String>,
    String,
>)
    requires
        recipe.inputs.wf(),
    ensures
        match inputs_result(recipe.name@, recipe.inputs@, provided@) {
            Ok(entries) => r is Ok && r->Ok_0@.map_values(|p: (Seq<char>, String)| (p.0, p.1@))
                == entries && r->Ok_0.wf(),
            Err(e) => r is Err && r->Err_0@ == e,
        },
{
    let ghost decls = recipe.inputs@;
    let mut resolved: OMap<String> = OMap::new();
    proof {
        assert(decls.take(0) =~= Seq::<(Seq<char>, RecipeInput)>::empty());
        assert(resolved@.map_values(|p: (Seq<char>, String)| (p.0, p.1@)) =~= Seq::<
            (Seq<char>, Seq<char>),
        >::empty());
    }
    let n = recipe.inputs.len();
    let mut i: usize = 0;
    while i < n
        invariant
            n == decls.len(),
            decls == recipe.inputs@,
            crate::omap::distinct_keys(decls),
            i <= n,
            resolved.wf(),
            inputs_result(recipe.name@, decls.take(i as int), provided@) == Ok::<_, Seq<char>>(
                resolved@.map_values(|p: (Seq<char>, String)| (p.0, p.1@)),
            ),
        decreases n - i,
    {
        let name = recipe.inputs.key_at(i);
        let decl = recipe.inputs.val_at(i);
        let value: ParamValue = match provided.get(name.as_str()) {
            Some(v) => v.dup(),
            None => {
                match &decl.default {
                    Some(d) => d.dup(),
                    None => {
                        let mut m = str_to_string("recipe '");
                        m.append(recipe.name.as_str());
                        m.append("' requires input '");
                        m.append(name.as_str());
                        m.append("' (type: ");
                        m.append(decl.input_type.as_str());
                        m.append(")");
                        proof {
                            lemma_inputs_err_at(recipe.name@, decls, provided@, i as int, m@);
                        }
                        return Err(m);
                    },
                }
            },
        };
        let sv = match validate_input_type(
            name.as_str(),
            decl.input_type.as_str(),
            &value,
            decl,
        ) {
            Ok(sv) => sv,
            Err(m) => {
                proof {
                    lemma_inputs_err_at(recipe.name@, decls, provided@, i as int, m@);
                }
                return Err(m);
            },
        };
        let ghost before = resolved@.map_values(|p: (Seq<char>, String)| (p.0, p.1@));
        proof {
            lemma_inputs_keys(recipe.name@, decls.take(i as int), provided@, before);
            assert forall|j: int| 0 <= j < resolved@.len() implies (#[trigger] resolved@[j]).0
                != name@ by {
                assert(before[j].0 == resolved@[j].0);
                assert(before[j].0 == decls.take(i as int)[j].0);
                assert(decls[j].0 != decls[i as int].0);
            }
            crate::omap::lemma_assoc_find_none(resolved@, name@);
            crate::omap::lemma_assoc_upsert_missing(resolved@, name@, sv);
        }
        resolved.insert(name.clone(), sv);
        proof {
            assert(decls.take(i + 1).drop_last() =~= decls.take(i as int));
            assert(decls.take(i + 1).last() == decls[i as int]);
            assert(resolved@.map_values(|p: (Seq<char>, String)| (p.0, p.1@)) =~= before.push(
                (decls[i as int].0, sv@),
            ));
        }
        i += 1;
    }
    proof {
        assert(decls.take(n as int) =~= decls);
    }
    Ok(resolved)
}

/// When step `i` fails, the whole input resolution reports that failure.
proof fn lemma_inputs_err_at(
    rname: Seq<char>,
    decls: Seq<(Seq<char>, RecipeInput)>,
    provided: Seq<(Seq<char>, ParamValue)>,
    i: int,
    e: Seq<char>,
)
    requires
        0 <= i < decls.len(),
        inputs_result(rname, decls.take(i), provided) is Ok,
        match input_value(rname, decls[i].0, decls[i].1, provided) {
            Err(e2) => e2 == e,
            Ok(v) => input_check(decls[i].0, decls[i].1, v) == Err::<Seq<char>, Seq<char>>(e),
        },
    ensures
        inputs_result(rname, decls, provided) == Err::<Seq<(Seq<char>, Seq<char>)>, Seq<char>>(e),
    decreases decls.len(),
{
    if decls.len() == i + 1 {
        assert(decls.drop_last() =~= decls.take(i));
    } else {
        assert(decls.drop_last().take(i) =~= decls.take(i));
        lemma_inputs_err_at(rname, decls.drop_last(), provided, i, e);
    }
}

/// The names in a resolved-input prefix are the declared names.
proof fn lemma_inputs_keys(
    rname: Seq<char>,
    decls: Seq<(Seq<char>, RecipeInput)>,
    provided: Seq<(Seq<char>, ParamValue)>,
    entries: Seq<(Seq<char>, Seq<char>)>,
)
    requires
        inputs_result(rname, decls, provided) == Ok::<_, Seq<char>>(entries),
    ensures
        entries.len() == decls.len(),
        forall|j: int| 0 <= j < decls.len() ==> (#[trigger] entries[j].0) == decls[j].0,
    decreases decls.len(),
{
    if decls.len() > 0 {
        match inputs_result(rname, decls.drop_last(), provided) {
            Err(_) => {},
            Ok(done) => {
                lemma_inputs_keys(rname, decls.drop_last(), provided, done);
            },
        }
    }
}



/// The string views of a resolved-inputs table.
pub open spec fn inputs_view(s: Seq<(Seq<char>, String)>) -> Seq<(Seq<char>, Seq<char>)> {
    s.map_values(|p: (Seq<char>, String)| (p.0, p.1@))
}

proof fn lemma_find_strval(s: Seq<(Seq<char>, String)>, k: Seq<char>)
    ensures
        match assoc_find(s, k) {
            Some(v) => assoc_find(inputs_view(s), k) == Some(v@),
            None => assoc_find(inputs_view(s), k) is None,
        },
    decreases s.len(),
{
    if s.len() > 0 {
        assert(inputs_view(s).drop_first() =~= inputs_view(s.drop_first()));
        if s[0].0 == k {
        } else {
            lemma_find_strval(s.drop_first(), k);
        }
    } else {
        assert(inputs_view(s).len() == 0);
    }
}

/// The left-to-right substitution of every `{{inputs.X}}` span, with
/// `off` the position of `s` within the working string.  Failures carry
/// their diagnostic text.
pub open spec fn subst_inputs(
    s: Seq<char>,
    inputs: Seq<(Seq<char>, Seq<char>)>,
    off: nat,
) -> Result<Seq<char>, Seq<char>>
    decreases s.len(),
{
    match find_sub(s, "{{inputs."@) {
        None => Ok(s),
        Some(open) => {
            match find2(s.skip(open), '}', '}') {
                None => Err(
                    "unclosed template at position "@ + crate::strutil::dec_str((off + open) as nat),
                ),
                Some(crel) => {
                    let cut = open + crel + 2;
                    if 0 <= open && open + 9 <= open + crel && cut <= s.len() {
                        let key = trim(s.subrange(open + 9, open + crel));
                        match assoc_find(inputs, key) {
                            None => Err("unknown input: "@ + key),
                            Some(val) => {
                                match subst_inputs(s.skip(cut), inputs, (off + open
                                    + val.len()) as nat) {
                                    Ok(t) => Ok(s.take(open) + val + t),
                                    Err(e) => Err(e),
                                }
                            },
                        }
                    } else {
                        Ok(s)
                    }
                },
            }
        },
    }
}

/// Lift a step result over an already-substituted prefix.
pub open spec fn inputs_with_prefix(prefix: Seq<char>, r: Result<Seq<char>, Seq<char>>) -> Result<
    Seq<char>,
    Seq<char>,
> {
    match r {
        Ok(t) => Ok(prefix + t),
        Err(e) => Err(e),
    }
}

/// Resolve every `{{inputs.X}}` span in a string against the resolved
/// inputs; unknown inputs and unclosed spans are diagnostics.
pub fn resolve_input_template(template: &str, inputs: &OMap<String>) -> (r: Result<String, String>)
    ensures
        match subst_inputs(template@, inputs_view(inputs@), 0) {
            Ok(t) => r is Ok && r->Ok_0@ == t,
            Err(e) => r is Err && r->Err_0@ == e,
        },
{
    let ghost iv = inputs_view(inputs@);
    let mut out = String::new();
    let mut rest = str_to_string(template);
    loop
        invariant
            iv == inputs_view(inputs@),
            subst_inputs(template@, iv, 0) == inputs_with_prefix(
                out@,
                subst_inputs(rest@, iv, out@.len() as nat),
            ),
        decreases rest@.len(),
    {
        let ghost prev = out@;
        let ghost off = out@.len() as nat;
        proof {
            reveal_strlit("{{inputs.");
        }
        match crate::template::find_pattern(rest.as_str(), "{{inputs.") {
            None => {
                proof {
                    assert(subst_inputs(rest@, iv, off) == Ok::<Seq<char>, Seq<char>>(rest@));
                }
                out.append(rest.as_str());
                return Ok(out);
            },
            Some(open) => {
                let n = rest.unicode_len();
                proof {
                    crate::template::lemma_find_sub_props(rest@, "{{inputs."@);
                    reveal_strlit("{{inputs.");
                }
                let after_open = rest.as_str().substring_char(open, n);
                proof {
                    assert(after_open@ =~= rest@.skip(open as int));
                }
                match crate::template::find_pair(after_open, '}', '}') {
                    None => {
                        proof {
                            assert(subst_inputs(rest@, iv, off) == Err::<Seq<char>, Seq<char>>(
                                "unclosed template at position "@ + crate::strutil::dec_str(
                                    (off + open) as nat,
                                ),
                            ));
                        }
                        let mut m = str_to_string("unclosed template at position ");
                        let pos: u128 = out.as_str().unicode_len() as u128 + open as u128;
                        crate::strutil::push_dec_u128(&mut m, pos);
                        return Err(m);
                    },
                    Some(crel) => {
                        proof {
                            crate::template::lemma_find2_props(after_open@, '}', '}');
                            // `}}` cannot begin inside the `{{inputs.` opener
                            assert forall|j: int| 0 <= j < 9 implies after_open@[j] == (
                            "{{inputs."@)[j] by {
                                assert(rest@.subrange(open as int, open + 9) == "{{inputs."@);
                                assert(rest@.subrange(open as int, open + 9)[j] == rest@[open + j]);
                            }
                            assert(crel >= 9);
                            assert(open + crel + 2 <= n);
                        }
                        let key_raw = rest.as_str().substring_char(open + 9, open + crel);
                        let key = crate::template::trim_str(key_raw);
                        proof {
                            assert(rest@.skip(open as int).subrange(9, crel as int) =~= rest@
                                .subrange(open + 9, open + crel));
                            assert(key@ == trim(rest@.subrange(open + 9, open + crel)));
                            lemma_find_strval(inputs@, key@);
                        }
                        match inputs.get(key.as_str()) {
                            None => {
                                let mut m = str_to_string("unknown input: ");
                                m.append(key.as_str());
                                return Err(m);
                            },
                            Some(val0) => {
                                let val = val0.clone();
                                let ghost vspec = val@;
                                let prefix = rest.as_str().substring_char(0, open);
                                out.append(prefix);
                                out.append(val.as_str());
                                let tail = str_to_string(
                                    rest.as_str().substring_char(open + crel + 2, n),
                                );
                                proof {
                                    let cut = open + crel + 2;
                                    assert(rest@.subrange(0, open as int) =~= rest@.take(
                                        open as int,
                                    ));
                                    assert(tail@ =~= rest@.skip(cut as int));
                                    assert(out@ == prev + rest@.take(open as int) + vspec);
                                    assert(out@.len() == off + open + vspec.len());
                                    let inner = subst_inputs(
                                        tail@,
                                        iv,
                                        (off + open + vspec.len()) as nat,
                                    );
                                    assert(subst_inputs(rest@, iv, off) == (match inner {
                                        Ok(t) => Ok::<Seq<char>, Seq<char>>(
                                            rest@.take(open as int) + vspec + t,
                                        ),
                                        Err(e) => Err(e),
                                    }));
                                    match inner {
                                        Ok(t) => {
                                            assert(prev + (rest@.take(open as int) + vspec + t)
                                                =~= out@ + t);
                                        },
                                        Err(e) => {},
                                    }
                                }
                                rest = tail;
                            },
                        }
                    },
                }
            },
        }
    }
}



/// What input substitution makes of one optional field.
pub open spec fn ifield_result(o: Option<String>, inputs: Seq<(Seq<char>, Seq<char>)>) -> Result<
    Option<Seq<char>>,
    Seq<char>,
> {
    match o {
        None => Ok(None),
        Some(t) => match subst_inputs(t@, inputs, 0) {
            Ok(r) => Ok(Some(r)),
            Err(e) => Err(e),
        },
    }
}

/// The first failure among a resource's input-templated fields, in the
/// order path, content, source, target, options.
pub open spec fn first_ifield_err(r: Resource, inputs: Seq<(Seq<char>, Seq<char>)>) -> Option<
    Seq<char>,
> {
    if ifield_result(r.path, inputs) is Err {
        Some(ifield_result(r.path, inputs)->Err_0)
    } else if ifield_result(r.content, inputs) is Err {
        Some(ifield_result(r.content, inputs)->Err_0)
    } else if ifield_result(r.source, inputs) is Err {
        Some(ifield_result(r.source, inputs)->Err_0)
    } else if ifield_result(r.target, inputs) is Err {
        Some(ifield_result(r.target, inputs)->Err_0)
    } else if ifield_result(r.options, inputs) is Err {
        Some(ifield_result(r.options, inputs)->Err_0)
    } else {
        None
    }
}

fn resolve_ifield(o: &Option<String>, inputs: &OMap<String>) -> (r: Result<Option<String>, String>)
    ensures
        match ifield_result(*o, inputs_view(inputs@)) {
            Ok(t) => r is Ok && crate::template::opt_view(r->Ok_0) == t,
            Err(e) => r is Err && r->Err_0@ == e,
        },
{
    match o {
        None => Ok(None),
        Some(t) => match resolve_input_template(t.as_str(), inputs) {
            Ok(v) => Ok(Some(v)),
            Err(m) => Err(m),
        },
    }
}

/// Substitute `{{inputs.X}}` in a resource's path, content, source,
/// target and options; every other field carries over unchanged.
pub fn resolve_resource_inputs(resource: &Resource, inputs: &OMap<String>) -> (r: Result<
    Resource,
    String,
>)
    ensures
        match r {
            Ok(rr) => {
                &&& first_ifield_err(*resource, inputs_view(inputs@)) is None
                &&& rr.resource_type == resource.resource_type
                &&& target_names(rr.machine) == target_names(resource.machine)
                &&& rr.state == resource.state
                &&& rr.depends_on@ == resource.depends_on@
                &&& rr.provider == resource.provider
                &&& rr.packages@ == resource.packages@
                &&& rr.owner == resource.owner
                &&& rr.group == resource.group
                &&& rr.mode == resource.mode
                &&& rr.name == resource.name
                &&& rr.enabled == resource.enabled
                &&& rr.restart_on@ == resource.restart_on@
                &&& rr.fs_type == resource.fs_type
                &&& ifield_result(resource.path, inputs_view(inputs@)) == Ok::<_, Seq<char>>(
                    crate::template::opt_view(rr.path),
                )
                &&& ifield_result(resource.content, inputs_view(inputs@)) == Ok::<_, Seq<char>>(
                    crate::template::opt_view(rr.content),
                )
                &&& ifield_result(resource.source, inputs_view(inputs@)) == Ok::<_, Seq<char>>(
                    crate::template::opt_view(rr.source),
                )
                &&& ifield_result(resource.target, inputs_view(inputs@)) == Ok::<_, Seq<char>>(
                    crate::template::opt_view(rr.target),
                )
                &&& ifield_result(resource.options, inputs_view(inputs@)) == Ok::<_, Seq<char>>(
                    crate::template::opt_view(rr.options),
                )
            },
            Err(m) => {
                &&& first_ifield_err(*resource, inputs_view(inputs@)) is Some
                &&& m@ == first_ifield_err(*resource, inputs_view(inputs@))->0
            },
        },
{
    let path = match resolve_ifield(&resource.path, inputs) {
        Ok(v) => v,
        Err(m) => {
            return Err(m);
        },
    };
    let content = match resolve_ifield(&resource.content, inputs) {
        Ok(v) => v,
        Err(m) => {
            return Err(m);
        },
    };
    let source = match resolve_ifield(&resource.source, inputs) {
        Ok(v) => v,
        Err(m) => {
            return Err(m);
        },
    };
    let target = match resolve_ifield(&resource.target, inputs) {
        Ok(v) => v,
        Err(m) => {
            return Err(m);
        },
    };
    let options = match resolve_ifield(&resource.options, inputs) {
        Ok(v) => v,
        Err(m) => {
            return Err(m);
        },
    };
    Ok(
        Resource {
            resource_type: resource.resource_type,
            machine: resource.machine.dup(),
            state: crate::types::clone_opt(&resource.state),
            depends_on: crate::types::clone_strs(&resource.depends_on),
            provider: crate::types::clone_opt(&resource.provider),
            packages: crate::types::clone_strs(&resource.packages),
            path,
            content,
            source,
            target,
            owner: crate::types::clone_opt(&resource.owner),
            group: crate::types::clone_opt(&resource.group),
            mode: crate::types::clone_opt(&resource.mode),
            name: crate::types::clone_opt(&resource.name),
            enabled: resource.enabled,
            restart_on: crate::types::clone_strs(&resource.restart_on),
            fs_type: crate::types::clone_opt(&resource.fs_type),
            options,
        },
    )
}

/// `RECIPE_ID/NAME`.
pub open spec fn namespaced(rid: Seq<char>, name: Seq<char>) -> Seq<char> {
    rid + "/"@ + name
}

/// A sibling reference becomes its namespaced id; anything else is left.
pub open spec fn map_ref(
    res: Seq<(Seq<char>, Resource)>,
    rid: Seq<char>,
    d: Seq<char>,
) -> Seq<char> {
    if assoc_has(res, d) {
        namespaced(rid, d)
    } else {
        d
    }
}

/// The namespaced rewrite of a reference list.
pub open spec fn mapped_refs(
    res: Seq<(Seq<char>, Resource)>,
    rid: Seq<char>,
    ds: Seq<Seq<char>>,
) -> Seq<Seq<char>> {
    ds.map_values(|d: Seq<char>| map_ref(res, rid, d))
}

/// Build `RECIPE_ID/NAME`.
fn namespace_id(rid: &str, name: &str) -> (r: String)
    ensures
        r@ == namespaced(rid@, name@),
{
    let mut out = str_to_string(rid);
    out.append("/");
    out.append(name);
    out
}

/// Rewrite references to sibling recipe resources as namespaced ids.
fn map_deps(refs: &Vec<String>, recipe_file: &RecipeFile, rid: &str) -> (r: Vec<String>)
    ensures
        r@.map_values(|s: String| s@) == mapped_refs(
            recipe_file.resources@,
            rid@,
            refs@.map_values(|s: String| s@),
        ),
{
    let ghost res = recipe_file.resources@;
    let ghost rv = refs@.map_values(|s: String| s@);
    let mut out: Vec<String> = Vec::new();
    let n = refs.len();
    let mut i: usize = 0;
    while i < n
        invariant
            n == refs@.len(),
            i <= n,
            res == recipe_file.resources@,
            rv == refs@.map_values(|s: String| s@),
            out@.map_values(|s: String| s@) =~= mapped_refs(res, rid@, rv).take(i as int),
        decreases n - i,
    {
        let d = &refs[i];
        let ghost pre = out@;
        if recipe_file.resources.contains_key(d.as_str()) {
            out.push(namespace_id(rid, d.as_str()));
        } else {
            out.push(d.clone());
        }
        proof {
            let f = |s: String| s@;
            let m = mapped_refs(res, rid@, rv);
            assert(rv[i as int] == refs@[i as int]@);
            assert(m[i as int] == map_ref(res, rid@, rv[i as int]));
            assert(out@.last()@ == m[i as int]);
            assert(out@.map_values(f) =~= pre.map_values(f).push(out@.last()@));
            assert(pre.map_values(f).push(m[i as int]) =~= m.take(i as int).push(m[i as int]));
            assert(m.take(i as int).push(m[i as int]) =~= m.take(i + 1));
        }
        i += 1;
    }
    proof {
        assert(mapped_refs(res, rid@, rv).take(n as int) =~= mapped_refs(res, rid@, rv));
    }
    out
}

/// The first diagnostic expansion would report: an input fault, else the
/// first field fault walking resources in declaration order.
pub open spec fn first_expand_err(
    rname: Seq<char>,
    decls: Seq<(Seq<char>, RecipeInput)>,
    provided: Seq<(Seq<char>, ParamValue)>,
    res: Seq<(Seq<char>, Resource)>,
) -> Option<Seq<char>> {
    match inputs_result(rname, decls, provided) {
        Err(e) => Some(e),
        Ok(entries) => first_res_err(res, entries, 0),
    }
}

/// The first field fault at or after resource index `i`.
pub open spec fn first_res_err(
    res: Seq<(Seq<char>, Resource)>,
    inputs: Seq<(Seq<char>, Seq<char>)>,
    i: int,
) -> Option<Seq<char>>
    decreases res.len() - i when 0 <= i
{
    if i >= res.len() {
        None
    } else {
        match first_ifield_err(res[i].1, inputs) {
            Some(e) => Some(e),
            None => first_res_err(res, inputs, i + 1),
        }
    }
}

/// One expanded entry is correct: namespaced id, resolved fields, the
/// target machine propagated, sibling references namespaced, and the
/// external dependencies appended exactly on the first resource.
pub open spec fn expanded_entry_ok(
    res: Seq<(Seq<char>, Resource)>,
    inputs: Seq<(Seq<char>, Seq<char>)>,
    rid: Seq<char>,
    machine: MachineTarget,
    ext: Seq<Seq<char>>,
    j: int,
    entry: (Seq<char>, Resource),
) -> bool {
    let orig = res[j].1;
    let rr = entry.1;
    &&& entry.0 == namespaced(rid, res[j].0)
    &&& rr.resource_type == orig.resource_type
    &&& target_names(rr.machine) == target_names(machine)
    &&& rr.state == orig.state
    &&& rr.provider == orig.provider
    &&& rr.packages@ == orig.packages@
    &&& rr.owner == orig.owner
    &&& rr.group == orig.group
    &&& rr.mode == orig.mode
    &&& rr.name == orig.name
    &&& rr.enabled == orig.enabled
    &&& rr.fs_type == orig.fs_type
    &&& rr.depends_on@.map_values(|s: String| s@) == mapped_refs(
        res,
        rid,
        orig.depends_on@.map_values(|s: String| s@),
    ) + (if j == 0 && ext.len() > 0 {
        ext
    } else {
        Seq::empty()
    })
    &&& rr.restart_on@.map_values(|s: String| s@) == mapped_refs(
        res,
        rid,
        orig.restart_on@.map_values(|s: String| s@),
    )
    &&& ifield_result(orig.path, inputs) == Ok::<_, Seq<char>>(crate::template::opt_view(rr.path))
    &&& ifield_result(orig.content, inputs) == Ok::<_, Seq<char>>(
        crate::template::opt_view(rr.content),
    )
    &&& ifield_result(orig.source, inputs) == Ok::<_, Seq<char>>(
        crate::template::opt_view(rr.source),
    )
    &&& ifield_result(orig.target, inputs) == Ok::<_, Seq<char>>(
        crate::template::opt_view(rr.target),
    )
    &&& ifield_result(orig.options, inputs) == Ok::<_, Seq<char>>(
        crate::template::opt_view(rr.options),
    )
}

/// Concatenating a shared prefix preserves distinctness of names.
proof fn lemma_namespaced_injective(rid: Seq<char>, a: Seq<char>, b: Seq<char>)
    requires
        namespaced(rid, a) == namespaced(rid, b),
    ensures
        a == b,
{
    let pa = namespaced(rid, a);
    let pb = namespaced(rid, b);
    reveal_strlit("/");
    assert(pa.len() == rid.len() + 1 + a.len());
    assert(pb.len() == rid.len() + 1 + b.len());
    assert(a =~= pa.skip(rid.len() + 1 as int));
    assert(b =~= pb.skip(rid.len() + 1 as int));
}

/// Expand a recipe instance into namespaced resources.  Inputs are
/// validated and substituted, the target machine is propagated, sibling
/// references are namespaced, and the external dependencies are hung on
/// the first resource of the recipe — and only the first.
pub fn expand_recipe(
    recipe_id: &str,
    recipe_file: &RecipeFile,
    machine: &MachineTarget,
    provided_inputs: &OMap<ParamValue>,
    external_depends_on: &Vec<String>,
) -> (r: Result<OMap<Resource>, String>)
    requires
        recipe_file.recipe.inputs.wf(),
        recipe_file.resources.wf(),
    ensures
        match r {
            Ok(out) => {
                &&& first_expand_err(
                    recipe_file.recipe.name@,
                    recipe_file.recipe.inputs@,
                    provided_inputs@,
                    recipe_file.resources@,
                ) is None
                &&& out.wf()
                &&& out@.len() == recipe_file.resources@.len()
                &&& forall|j: int|
                    0 <= j < out@.len() ==> expanded_entry_ok(
                        recipe_file.resources@,
                        inputs_result(
                            recipe_file.recipe.name@,
                            recipe_file.recipe.inputs@,
                            provided_inputs@,
                        )->Ok_0,
                        recipe_id@,
                        *machine,
                        external_depends_on@.map_values(|s: String| s@),
                        j,
                        #[trigger] out@[j],
                    )
            },
            Err(m) => {
                &&& first_expand_err(
                    recipe_file.recipe.name@,
                    recipe_file.recipe.inputs@,
                    provided_inputs@,
                    recipe_file.resources@,
                ) == Some(m@)
            },
        },
{
    let ghost res = recipe_file.resources@;
    let ghost ext = external_depends_on@.map_values(|s: String| s@);
    let resolved_inputs = match validate_inputs(&recipe_file.recipe, provided_inputs) {
        Ok(v) => v,
        Err(m) => {
            return Err(m);
        },
    };
    let ghost entries = inputs_result(
        recipe_file.recipe.name@,
        recipe_file.recipe.inputs@,
        provided_inputs@,
    )->Ok_0;
    proof {
        assert(inputs_view(resolved_inputs@) == entries);
    }

    let mut expanded: OMap<Resource> = OMap::new();
    let n = recipe_file.resources.len();
    let mut i: usize = 0;
    let mut first: bool = true;
    while i < n
        invariant
            n == res.len(),
            i <= n,
            res == recipe_file.resources@,
            crate::omap::distinct_keys(res),
            ext == external_depends_on@.map_values(|s: String| s@),
            entries == inputs_view(resolved_inputs@),
            inputs_result(
                recipe_file.recipe.name@,
                recipe_file.recipe.inputs@,
                provided_inputs@,
            ) == Ok::<_, Seq<char>>(entries),
            first == (i == 0 || ext.len() == 0),
            first_res_err(res, entries, 0) == first_res_err(res, entries, i as int),
            expanded.wf(),
            expanded@.len() == i,
            forall|j: int|
                0 <= j < i ==> expanded_entry_ok(
                    res,
                    entries,
                    recipe_id@,
                    *machine,
                    ext,
                    j,
                    #[trigger] expanded@[j],
                ),
        decreases n - i,
    {
        let res_name = recipe_file.resources.key_at(i);
        let resource = recipe_file.resources.val_at(i);
        let namespaced_id = namespace_id(recipe_id, res_name.as_str());
        let resolved = match resolve_resource_inputs(resource, &resolved_inputs) {
            Ok(rr) => rr,
            Err(m) => {
                proof {
                    assert(first_res_err(res, entries, i as int) == Some(m@));
                }
                return Err(m);
            },
        };
        let mut new_deps = map_deps(&resolved.depends_on, recipe_file, recipe_id);
        if first && external_depends_on.len() > 0 {
            let ghost base_deps = new_deps@.map_values(|s: String| s@);
            let en = external_depends_on.len();
            let mut k: usize = 0;
            while k < en
                invariant
                    en == external_depends_on@.len(),
                    k <= en,
                    ext == external_depends_on@.map_values(|s: String| s@),
                    new_deps@.map_values(|s: String| s@) =~= base_deps + ext.take(k as int),
                decreases en - k,
            {
                let ghost pre = new_deps@;
                new_deps.push(external_depends_on[k].clone());
                proof {
                    let f = |s: String| s@;
                    assert(ext[k as int] == external_depends_on@[k as int]@);
                    assert(new_deps@.last()@ == ext[k as int]);
                    assert(new_deps@.map_values(f) =~= pre.map_values(f).push(ext[k as int]));
                    assert(pre.map_values(f).push(ext[k as int]) =~= (base_deps + ext.take(
                        k as int,
                    )).push(ext[k as int]));
                    assert((base_deps + ext.take(k as int)).push(ext[k as int]) =~= base_deps
                        + ext.take(k + 1));
                }
                k += 1;
            }
            proof {
                assert(ext.take(en as int) =~= ext);
            }
            first = false;
        }
        let new_restart = map_deps(&resolved.restart_on, recipe_file, recipe_id);
        let entry = Resource {
            resource_type: resolved.resource_type,
            machine: machine.dup(),
            state: resolved.state,
            depends_on: new_deps,
            provider: resolved.provider,
            packages: resolved.packages,
            path: resolved.path,
            content: resolved.content,
            source: resolved.source,
            target: resolved.target,
            owner: resolved.owner,
            group: resolved.group,
            mode: resolved.mode,
            name: resolved.name,
            enabled: resolved.enabled,
            restart_on: new_restart,
            fs_type: resolved.fs_type,
            options: resolved.options,
        };
        let ghost before = expanded@;
        proof {
            assert forall|j: int| 0 <= j < expanded@.len() implies (#[trigger] expanded@[j]).0
                != namespaced_id@ by {
                assert(expanded@[j].0 == namespaced(recipe_id@, res[j].0));
                if expanded@[j].0 == namespaced_id@ {
                    lemma_namespaced_injective(recipe_id@, res[j].0, res[i as int].0);
                }
            }
            crate::omap::lemma_assoc_find_none(expanded@, namespaced_id@);
            crate::omap::lemma_assoc_upsert_missing(expanded@, namespaced_id@, entry);
        }
        expanded.insert(namespaced_id, entry);
        proof {
            assert(expanded@ =~= before.push((namespaced(recipe_id@, res[i as int].0), entry)));
            assert(expanded_entry_ok(
                res,
                entries,
                recipe_id@,
                *machine,
                ext,
                i as int,
                expanded@[i as int],
            ));
        }
        i += 1;
    }
    proof {
        assert(first_res_err(res, entries, n as int) is None);
    }
    Ok(expanded)
}

/// The namespaced id of the last resource in a recipe, the natural
/// anchor for dependents of the whole recipe.
pub fn recipe_terminal_id(recipe_id: &str, recipe_file: &RecipeFile) -> (r: Option<String>)
    ensures
        match r {
            Some(t) => recipe_file.resources@.len() > 0 && t@ == namespaced(
                recipe_id@,
                recipe_file.resources@.last().0,
            ),
            None => recipe_file.resources@.len() == 0,
        },
{
    let n = recipe_file.resources.len();
    if n == 0 {
        None
    } else {
        let name = recipe_file.resources.key_at(n - 1);
        Some(namespace_id(recipe_id, name.as_str()))
    }
}

/// With a non-empty external dependency list, an expanded resource's
/// dependencies contain every external id exactly when it is the first
/// resource of the recipe — provided none of the external ids collides
/// with a reference the resource already had.
pub proof fn lemma_external_dep_locality(
    mapped: Seq<Seq<char>>,
    ext: Seq<Seq<char>>,
    j: int,
    deps_j: Seq<Seq<char>>,
)
    requires
        ext.len() > 0,
        deps_j == mapped + (if j == 0 {
            ext
        } else {
            Seq::<Seq<char>>::empty()
        }),
        j != 0 ==> forall|e: Seq<char>| ext.contains(e) ==> !mapped.contains(e),
    ensures
        (forall|e: Seq<char>| ext.contains(e) ==> deps_j.contains(e)) <==> j == 0,
{
    if j == 0 {
        assert forall|e: Seq<char>| ext.contains(e) implies deps_j.contains(e) by {
            let k = choose|k: int| 0 <= k < ext.len() && ext[k] == e;
            assert(deps_j[mapped.len() + k] == e);
        }
    } else {
        assert(deps_j =~= mapped);
        assert(ext.contains(ext[0]));
        assert(!deps_j.contains(ext[0]));
    }
}

} // verus!
