//! The Terraform root module of a stack: the variables and outputs that its claims' modules
//! contribute, and the dependency map that wires a variable whose default refers to another
//! claim to that claim's output or variable.
use vstd::prelude::*;
use crate::casing::{camel_case, snake_case, to_camel_case, to_snake_case};
use crate::manifest::{ErrorView, ModuleError, TfOutput, TfVariable};
use crate::stack::ClaimModule;
use crate::value::{copy_value, model, object_get, same_opt_value, Value};
use crate::json::{json_text, json_text_of};
use crate::resolver::prefixed;
use crate::text::{append_range, append_str, find_first, first_occ, from_chars, to_chars, trim, trim_chars};

verus! {

/// The first `{{ ... }}` of a string, as the pattern `(.*?)\{\{\s*(.*?)\s*\}\}(.*)` finds it
/// in a line: the text before the first `{{`, the trimmed text up to the first `}}` after it,
/// and the rest of the string.
pub open spec fn braces(s: Seq<char>) -> Option<(Seq<char>, Seq<char>, Seq<char>)> {
    match first_occ(s, "{{"@, 0) {
        Some(i) => match first_occ(s, "}}"@, i + 2) {
            Some(j) => Some((s.subrange(0, i), trim(s.subrange(i + 2, j)), s.subrange(j + 2, s.len() as int))),
            None => None,
        },
        None => None,
    }
}

/// The pieces of `e` around `::` where there are exactly three, as `str::split("::")` gives them.
pub open spec fn three_parts(e: Seq<char>) -> Option<(Seq<char>, Seq<char>, Seq<char>)> {
    match first_occ(e, "::"@, 0) {
        Some(i) => match first_occ(e, "::"@, i + 2) {
            Some(j) => if first_occ(e, "::"@, j + 2) is None {
                Some((e.subrange(0, i), e.subrange(i + 2, j), e.subrange(j + 2, e.len() as int)))
            } else {
                None
            },
            None => None,
        },
        None => None,
    }
}

/// The text of a key before its first `__` (all of it where there is none).
pub open spec fn head_segment(key: Seq<char>) -> Seq<char> {
    match first_occ(key, "__"@, 0) {
        Some(i) => key.subrange(0, i),
        None => key,
    }
}

/// `target` alone where the reference was the whole JSON string (`"` before and after it),
/// else the text around it with `${target}` in the reference's place.
pub open spec fn wrap_target(before: Seq<char>, after: Seq<char>, target: Seq<char>) -> Seq<char> {
    if before == "\""@ && after == "\""@ {
        target
    } else {
        before + "${"@ + target + "}"@ + after
    }
}

/// What the default of one variable adds to the dependency map: nothing where its JSON text holds
/// no `{{ Kind::claim::field }}`; else the stack variable, output or variable it refers to (in
/// that order of lookup), or the error that names what was not found.
pub open spec fn dep_entry(
    key: Seq<char>,
    var_name: Seq<char>,
    ser: Seq<char>,
    vkeys: Seq<Seq<char>>,
    okeys: Seq<Seq<char>>,
) -> Result<Option<Seq<char>>, ErrorView> {
    match braces(ser) {
        None => Ok(None),
        Some((before, expr, after)) => match three_parts(expr) {
            None => Ok(None),
            Some((kind, claim, field)) => {
                let fs = snake_case(field);
                let not_found = ErrorView::OutputKeyNotFound(
                    camel_case(head_segment(key)),
                    camel_case(var_name),
                    ser,
                    field,
                    claim,
                );
                if kind == "Stack"@ && claim == "variables"@ {
                    let sk = "stack__"@ + fs;
                    if vkeys.contains(sk) {
                        Ok(Some(wrap_target(before, after, "var."@ + sk)))
                    } else {
                        Err(not_found)
                    }
                } else {
                    let ok = snake_case(claim) + "__"@ + fs;
                    if okeys.contains(ok) {
                        Ok(Some(wrap_target(before, after, "module."@ + snake_case(claim) + "."@ + fs)))
                    } else if vkeys.contains(ok) {
                        Ok(Some(wrap_target(before, after, "var."@ + ok)))
                    } else {
                        Err(not_found)
                    }
                }
            },
        },
    }
}

pub open spec fn var_keys_of(vs: Seq<(String, TfVariable)>) -> Seq<Seq<char>> {
    vs.map_values(|e: (String, TfVariable)| e.0@)
}

pub open spec fn out_keys_of(os: Seq<(String, TfOutput)>) -> Seq<Seq<char>> {
    os.map_values(|e: (String, TfOutput)| e.0@)
}

/// The JSON text of a default, as `serde_json::to_string` writes it.
pub open spec fn default_text(d: Option<Value>) -> Option<Seq<char>> {
    match d {
        Some(v) => Some(json_text_of(model(v))),
        None => None,
    }
}

/// The dependency map of the first `n` variables: for each whose default (as JSON text) refers
/// to another claim or to a stack variable, its key and the expression that replaces it; or the
/// first error.
pub open spec fn dependency_map_upto(
    vs: Seq<(String, TfVariable)>,
    okeys: Seq<Seq<char>>,
    n: int,
) -> Result<Seq<(Seq<char>, Seq<char>)>, ErrorView>
    decreases n,
{
    if n <= 0 {
        Ok(Seq::empty())
    } else {
        match dependency_map_upto(vs, okeys, n - 1) {
            Err(e) => Err(e),
            Ok(m) => match default_text(vs[n - 1].1.default) {
                None => Ok(m),
                Some(ser) => match dep_entry(vs[n - 1].0@, vs[n - 1].1.name@, ser, var_keys_of(vs), okeys) {
                    Err(e) => Err(e),
                    Ok(None) => Ok(m),
                    Ok(Some(t)) => Ok(m.push((vs[n - 1].0@, t))),
                },
            },
        }
    }
}

pub open spec fn pairs_view(v: Seq<(String, String)>) -> Seq<(Seq<char>, Seq<char>)> {
    v.map_values(|p: (String, String)| (p.0@, p.1@))
}

fn keys_contain_vars(vs: &Vec<(String, TfVariable)>, k: &Vec<char>) -> (b: bool)
    ensures
        b == var_keys_of(vs@).contains(k@),
{
    let mut i: usize = 0;
    while i < vs.len()
        invariant
            i <= vs@.len(),
            forall|j: int| 0 <= j < i ==> vs@[j].0@ != k@,
        decreases vs.len() - i,
    {
        let kc = to_chars(vs[i].0.as_str());
        if vec_eq(&kc, k) {
            assert(var_keys_of(vs@)[i as int] == k@);
            return true;
        }
        i = i + 1;
    }
    assert(!var_keys_of(vs@).contains(k@)) by {
        if var_keys_of(vs@).contains(k@) {
            let j = choose|j: int| 0 <= j < var_keys_of(vs@).len() && var_keys_of(vs@)[j] == k@;
            assert(vs@[j].0@ == k@);
        }
    }
    false
}

fn keys_contain_outs(os: &Vec<(String, TfOutput)>, k: &Vec<char>) -> (b: bool)
    ensures
        b == out_keys_of(os@).contains(k@),
{
    let mut i: usize = 0;
    while i < os.len()
        invariant
            i <= os@.len(),
            forall|j: int| 0 <= j < i ==> os@[j].0@ != k@,
        decreases os.len() - i,
    {
        let kc = to_chars(os[i].0.as_str());
        if vec_eq(&kc, k) {
            assert(out_keys_of(os@)[i as int] == k@);
            return true;
        }
        i = i + 1;
    }
    assert(!out_keys_of(os@).contains(k@)) by {
        if out_keys_of(os@).contains(k@) {
            let j = choose|j: int| 0 <= j < out_keys_of(os@).len() && out_keys_of(os@)[j] == k@;
            assert(os@[j].0@ == k@);
        }
    }
    false
}

pub(crate) fn vec_eq(a: &Vec<char>, b: &Vec<char>) -> (r: bool)
    ensures
        r == (a@ == b@),
{
    if a.len() != b.len() {
        return false;
    }
    let mut i: usize = 0;
    while i < a.len()
        invariant
            a@.len() == b@.len(),
            i <= a@.len(),
            forall|j: int| 0 <= j < i ==> a@[j] == b@[j],
        decreases a.len() - i,
    {
        if a[i] != b[i] {
            return false;
        }
        i = i + 1;
    }
    assert(a@ =~= b@);
    true
}

pub(crate) fn slice_of(cs: &Vec<char>, lo: usize, hi: usize) -> (r: Vec<char>)
    requires
        lo <= hi <= cs@.len(),
    ensures
        r@ == cs@.subrange(lo as int, hi as int),
{
    let mut r: Vec<char> = Vec::new();
    append_range(&mut r, cs.as_slice(), lo, hi);
    assert(r@ =~= cs@.subrange(lo as int, hi as int));
    r
}

fn braces_exec(s: &Vec<char>) -> (r: Option<(Vec<char>, Vec<char>, Vec<char>)>)
    ensures
        match braces(s@) {
            Some((b, e, a)) => r is Some && r->Some_0.0@ == b && r->Some_0.1@ == e && r->Some_0.2@ == a,
            None => r is None,
        },
{
    proof {
        reveal_strlit("{{");
        reveal_strlit("}}");
        assert("{{"@.len() == 2);
        assert("}}"@.len() == 2);
    }
    let n = s.len();
    match find_first(s, "{{", 0) {
        None => None,
        Some(i) => {
            match find_first(s, "}}", i + 2) {
                None => None,
                Some(j) => {
                    let before = slice_of(s, 0, i);
                    let mid = slice_of(s, i + 2, j);
                    let expr = trim_chars(mid.as_slice());
                    let after = slice_of(s, j + 2, s.len());
                    Some((before, expr, after))
                },
            }
        },
    }
}

fn three_parts_exec(e: &Vec<char>) -> (r: Option<(Vec<char>, Vec<char>, Vec<char>)>)
    ensures
        match three_parts(e@) {
            Some((k, c, f)) => r is Some && r->Some_0.0@ == k && r->Some_0.1@ == c && r->Some_0.2@ == f,
            None => r is None,
        },
{
    proof {
        reveal_strlit("::");
        assert("::"@.len() == 2);
    }
    let n = e.len();
    match find_first(e, "::", 0) {
        None => None,
        Some(i) => match find_first(e, "::", i + 2) {
            None => None,
            Some(j) => match find_first(e, "::", j + 2) {
                Some(_) => None,
                None => Some((slice_of(e, 0, i), slice_of(e, i + 2, j), slice_of(e, j + 2, e.len()))),
            },
        },
    }
}

pub(crate) fn head_segment_exec(key: &Vec<char>) -> (r: Vec<char>)
    ensures
        r@ == head_segment(key@),
{
    proof {
        reveal_strlit("__");
        assert("__"@.len() == 2);
    }
    match find_first(key, "__", 0) {
        Some(i) => slice_of(key, 0, i),
        None => {
            assert(key@.subrange(0, key@.len() as int) =~= key@);
            slice_of(key, 0, key.len())
        },
    }
}

fn wrap_target_exec(before: &Vec<char>, after: &Vec<char>, target: &Vec<char>) -> (r: String)
    ensures
        r@ == wrap_target(before@, after@, target@),
{
    let quote = to_chars("\"");
    if vec_eq(before, &quote) && vec_eq(after, &quote) {
        return from_chars(target.as_slice());
    }
    let mut out: Vec<char> = Vec::new();
    append_range(&mut out, before.as_slice(), 0, before.len());
    append_str(&mut out, "${");
    append_range(&mut out, target.as_slice(), 0, target.len());
    append_str(&mut out, "}");
    append_range(&mut out, after.as_slice(), 0, after.len());
    assert(before@.subrange(0, before@.len() as int) =~= before@);
    assert(target@.subrange(0, target@.len() as int) =~= target@);
    assert(after@.subrange(0, after@.len() as int) =~= after@);
    from_chars(out.as_slice())
}

fn dep_entry_exec(
    key: &String,
    var_name: &String,
    ser: &String,
    vs: &Vec<(String, TfVariable)>,
    os: &Vec<(String, TfOutput)>,
) -> (r: Result<Option<String>, ModuleError>)
    ensures
        match dep_entry(key@, var_name@, ser@, var_keys_of(vs@), out_keys_of(os@)) {
            Ok(None) => r is Ok && r->Ok_0 is None,
            Ok(Some(t)) => r is Ok && r->Ok_0 is Some && r->Ok_0->Some_0@ == t,
            Err(e) => r is Err && r->Err_0@ == e,
        },
{
    let sc = to_chars(ser.as_str());
    let (before, expr, after) = match braces_exec(&sc) {
        None => {
            return Ok(None);
        },
        Some(x) => x,
    };
    let (kind, claim, field) = match three_parts_exec(&expr) {
        None => {
            return Ok(None);
        },
        Some(x) => x,
    };
    let field_s = from_chars(field.as_slice());
    let claim_s = from_chars(claim.as_slice());
    let fs = to_snake_case(field_s.as_str());
    let stack_c = to_chars("Stack");
    let vars_c = to_chars("variables");
    let is_stack = vec_eq(&kind, &stack_c) && vec_eq(&claim, &vars_c);
    let mut target: Vec<char> = Vec::new();
    let found: bool;
    if is_stack {
        let mut sk: Vec<char> = Vec::new();
        append_str(&mut sk, "stack__");
        append_str(&mut sk, fs.as_str());
        found = keys_contain_vars(vs, &sk);
        append_str(&mut target, "var.");
        append_range(&mut target, sk.as_slice(), 0, sk.len());
        assert(sk@.subrange(0, sk@.len() as int) =~= sk@);
    } else {
        let sc_claim = to_snake_case(claim_s.as_str());
        let mut ok: Vec<char> = Vec::new();
        append_str(&mut ok, sc_claim.as_str());
        append_str(&mut ok, "__");
        append_str(&mut ok, fs.as_str());
        if keys_contain_outs(os, &ok) {
            found = true;
            append_str(&mut target, "module.");
            append_str(&mut target, sc_claim.as_str());
            append_str(&mut target, ".");
            append_str(&mut target, fs.as_str());
        } else {
            found = keys_contain_vars(vs, &ok);
            append_str(&mut target, "var.");
            append_range(&mut target, ok.as_slice(), 0, ok.len());
            assert(ok@.subrange(0, ok@.len() as int) =~= ok@);
        }
    }
    if found {
        Ok(Some(wrap_target_exec(&before, &after, &target)))
    } else {
        let kc = to_chars(key.as_str());
        let head = from_chars(head_segment_exec(&kc).as_slice());
        Err(
            ModuleError::OutputKeyNotFound(
                to_camel_case(head.as_str()),
                to_camel_case(var_name.as_str()),
                ser.clone(),
                field_s,
                claim_s,
            ),
        )
    }
}

/// Maps each variable whose default (as JSON text) refers to another claim
/// (`{{ Kind::claim::field }}`) or to a stack variable, to the expression that replaces it:
/// `module.claim.field`, `var.claim__field` or `var.stack__field`, or a template with it where
/// the reference is part of a longer text. A reference to nothing known is the error.
pub fn generate_dependency_map(
    variable_collection: &Vec<(String, TfVariable)>,
    output_collection: &Vec<(String, TfOutput)>,
) -> (r: Result<Vec<(String, String)>, ModuleError>)
    ensures
        match dependency_map_upto(
            variable_collection@,
            out_keys_of(output_collection@),
            variable_collection@.len() as int,
        ) {
            Ok(m) => r is Ok && pairs_view(r->Ok_0@) == m,
            Err(e) => r is Err && r->Err_0@ == e,
        },
{
    let ghost vs = variable_collection@;
    let ghost ok = out_keys_of(output_collection@);
    let mut out: Vec<(String, String)> = Vec::new();
    assert(pairs_view(out@) =~= Seq::<(Seq<char>, Seq<char>)>::empty());
    let mut i: usize = 0;
    while i < variable_collection.len()
        invariant
            vs == variable_collection@,
            ok == out_keys_of(output_collection@),
            i <= vs.len(),
            dependency_map_upto(vs, ok, i as int) == Ok::<Seq<(Seq<char>, Seq<char>)>, ErrorView>(pairs_view(out@)),
        decreases variable_collection.len() - i,
    {
        match &variable_collection[i].1.default {
            None => {},
            Some(d) => {
                let ser = json_text(d);
                match dep_entry_exec(&variable_collection[i].0, &variable_collection[i].1.name, &ser, variable_collection, output_collection) {
                    Err(e) => {
                        proof {
                            lemma_dep_map_err_stays(vs, ok, i + 1, vs.len() as int);
                        }
                        return Err(e);
                    },
                    Ok(None) => {},
                    Ok(Some(t)) => {
                        let ghost before = pairs_view(out@);
                        let ghost tv = t@;
                        out.push((variable_collection[i].0.clone(), t));
                        assert(pairs_view(out@) =~= before.push((vs[i as int].0@, tv)));
                    },
                }
            },
        }
        i = i + 1;
    }
    Ok(out)
}

proof fn lemma_dep_map_err_stays(
    vs: Seq<(String, TfVariable)>,
    ok: Seq<Seq<char>>,
    n: int,
    m: int,
)
    requires
        0 <= n <= m,
        dependency_map_upto(vs, ok, n) is Err,
    ensures
        dependency_map_upto(vs, ok, m) == dependency_map_upto(vs, ok, n),
    decreases m - n,
{
    if n < m {
        lemma_dep_map_err_stays(vs, ok, n, m - 1);
    }
}

/// The default a module variable takes in a stack: the claim's value for it (the claim names it
/// in camelCase) where the claim gives one, else the module's default.
pub open spec fn claim_default(claim_vars: Value, v: TfVariable) -> Option<Value> {
    match object_get(claim_vars, camel_case(v.name@)) {
        Some(x) => Some(x),
        None => v.default,
    }
}

/// The variables one claim contributes: `claim__variable`, the module's variable, its default.
pub open spec fn claim_var_entries(cm: ClaimModule) -> Seq<(Seq<char>, TfVariable, Option<Value>)> {
    cm.1.tf_variables@.map_values(
        |v: TfVariable| (prefixed(cm.0.metadata.name@, v.name@), v, claim_default(cm.0.spec.variables, v)),
    )
}

/// The variables of all claims, claim by claim.
pub open spec fn var_entries(cms: Seq<ClaimModule>) -> Seq<(Seq<char>, TfVariable, Option<Value>)>
    decreases cms.len(),
{
    if cms.len() == 0 {
        Seq::empty()
    } else {
        var_entries(cms.drop_last()) + claim_var_entries(cms.last())
    }
}

/// The stack's own variables: `stack__variable` in snake_case.
pub open spec fn stack_var_entries(svs: Seq<TfVariable>) -> Seq<(Seq<char>, TfVariable, Option<Value>)> {
    svs.map_values(|v: TfVariable| ("stack__"@ + snake_case(v.name@), v, v.default))
}

/// `out` is the variable `v` with the default `d`.
pub open spec fn var_like(out: TfVariable, v: TfVariable, d: Option<Value>) -> bool {
    &&& out.name@ == v.name@
    &&& out.description@ == v.description@
    &&& out.sensitive == v.sensitive
    &&& out.nullable == v.nullable
    &&& out.var_type@ == v.var_type@
    &&& same_opt_value(out.default, d)
}

pub open spec fn vars_match(r: Seq<(String, TfVariable)>, es: Seq<(Seq<char>, TfVariable, Option<Value>)>) -> bool {
    r.len() == es.len() && forall|i: int| 0 <= i < r.len() ==> (#[trigger] r[i]).0@ == es[i].0 && var_like(r[i].1, es[i].1, es[i].2)
}

proof fn lemma_vars_match_concat(
    a: Seq<(String, TfVariable)>,
    ea: Seq<(Seq<char>, TfVariable, Option<Value>)>,
    b: Seq<(String, TfVariable)>,
    eb: Seq<(Seq<char>, TfVariable, Option<Value>)>,
)
    requires
        vars_match(a, ea),
        vars_match(b, eb),
    ensures
        vars_match(a + b, ea + eb),
{
    assert forall|i: int| 0 <= i < (a + b).len() implies (#[trigger] (a + b)[i]).0@ == (ea + eb)[i].0 && var_like((a + b)[i].1, (ea + eb)[i].1, (ea + eb)[i].2) by {
        if i < a.len() {
            assert((a + b)[i] == a[i]);
            assert((ea + eb)[i] == ea[i]);
        } else {
            assert((a + b)[i] == b[i - a.len()]);
            assert((ea + eb)[i] == eb[i - a.len()]);
        }
    }
}

pub(crate) fn copy_opt_value(d: &Option<Value>) -> (r: Option<Value>)
    ensures
        same_opt_value(r, *d),
{
    match d {
        Some(x) => Some(copy_value(x)),
        None => None,
    }
}

pub(crate) fn variable_with_default(v: &TfVariable, d: Option<Value>) -> (r: TfVariable)
    ensures
        r.name@ == v.name@,
        r.description@ == v.description@,
        r.sensitive == v.sensitive,
        r.nullable == v.nullable,
        r.var_type@ == v.var_type@,
        r.default == d,
{
    TfVariable {
        name: v.name.clone(),
        description: v.description.clone(),
        default: d,
        sensitive: v.sensitive,
        nullable: v.nullable,
        var_type: v.var_type.clone(),
    }
}

/// Looks a claim variable up by name.
fn lookup_claim_value<'a>(vars: &'a Value, key: &String) -> (r: Option<&'a Value>)
    ensures
        match r {
            Some(x) => object_get(*vars, key@) == Some(*x),
            None => object_get(*vars, key@) is None,
        },
{
    crate::value::get_entry(vars, key.as_str())
}

/// Appends the variables that one claim contributes.
fn push_claim_variables(cm: &ClaimModule, out: &mut Vec<(String, TfVariable)>)
    ensures
        final(out)@.len() == old(out)@.len() + claim_var_entries(*cm).len(),
        final(out)@.subrange(0, old(out)@.len() as int) == old(out)@,
        vars_match(final(out)@.subrange(old(out)@.len() as int, final(out)@.len() as int), claim_var_entries(*cm)),
{
    let ghost o0 = out@;
    let ghost es = claim_var_entries(*cm);
    let claim = &cm.0;
    let module = &cm.1;
    let mut j: usize = 0;
    while j < module.tf_variables.len()
        invariant
            o0 == old(out)@,
            es == claim_var_entries(*cm),
            *claim == cm.0,
            *module == cm.1,
            j <= module.tf_variables@.len(),
            out@.len() == o0.len() + j,
            out@.subrange(0, o0.len() as int) == o0,
            vars_match(out@.subrange(o0.len() as int, out@.len() as int), es.take(j as int)),
        decreases module.tf_variables.len() - j,
    {
        let v = &module.tf_variables[j];
        let key = crate::resolver::TfInputResolver::prefix_name(claim.metadata.name.as_str(), v.name.as_str());
        let camel = to_camel_case(v.name.as_str());
        let d = match lookup_claim_value(&claim.spec.variables, &camel) {
            Some(x) => Some(copy_value(x)),
            None => copy_opt_value(&v.default),
        };
        assert(same_opt_value(d, claim_default(claim.spec.variables, *v)));
        let nv = variable_with_default(v, d);
        assert(var_like(nv, *v, claim_default(claim.spec.variables, *v)));
        let ghost before = out@;
        out.push((key, nv));
        proof {
            let tail0 = before.subrange(o0.len() as int, before.len() as int);
            let tail1 = out@.subrange(o0.len() as int, out@.len() as int);
            assert(tail1 =~= tail0.push(out@.last()));
            assert(es.take(j + 1) =~= es.take(j as int).push(es[j as int]));
            assert(es[j as int] == (prefixed(claim.metadata.name@, v.name@), *v, claim_default(claim.spec.variables, *v)));
            assert(out@.subrange(0, o0.len() as int) =~= o0);
            assert(vars_match(tail1, es.take(j + 1))) by {
                assert forall|i: int| 0 <= i < tail1.len() implies (#[trigger] tail1[i]).0@ == es.take(j + 1)[i].0 && var_like(tail1[i].1, es.take(j + 1)[i].1, es.take(j + 1)[i].2) by {
                    if i < j {
                        assert(tail1[i] == tail0[i]);
                        assert(es.take(j + 1)[i] == es.take(j as int)[i]);
                    }
                }
            }
        }
        j = j + 1;
    }
    assert(es.take(es.len() as int) =~= es);
}

/// The variables of the stack's root module: each module variable of each claim as
/// `claim__variable` (the claim's value for it, where it gives one, as its default), then the
/// stack's own variables as `stack__variable`.
pub fn collect_module_variables_with_stack(
    claim_modules: &Vec<ClaimModule>,
    stack_variable_definitions: Option<&Vec<TfVariable>>,
) -> (r: Vec<(String, TfVariable)>)
    ensures
        vars_match(
            r@,
            var_entries(claim_modules@) + match stack_variable_definitions {
                Some(svs) => stack_var_entries(svs@),
                None => Seq::empty(),
            },
        ),
{
    let ghost cms = claim_modules@;
    let mut out: Vec<(String, TfVariable)> = Vec::new();
    let mut i: usize = 0;
    while i < claim_modules.len()
        invariant
            cms == claim_modules@,
            i <= cms.len(),
            vars_match(out@, var_entries(cms.take(i as int))),
        decreases claim_modules.len() - i,
    {
        let ghost before = out@;
        push_claim_variables(&claim_modules[i], &mut out);
        proof {
            assert(cms.take(i + 1).drop_last() =~= cms.take(i as int));
            assert(cms.take(i + 1).last() == cms[i as int]);
            let tail = out@.subrange(before.len() as int, out@.len() as int);
            assert(out@ =~= before + tail);
            lemma_vars_match_concat(before, var_entries(cms.take(i as int)), tail, claim_var_entries(cms[i as int]));
        }
        i = i + 1;
    }
    assert(cms.take(cms.len() as int) =~= cms);
    match stack_variable_definitions {
        Some(svs) => {
            let ghost before = out@;
            let ghost es = stack_var_entries(svs@);
            let mut j: usize = 0;
            while j < svs.len()
                invariant
                    before == out@.subrange(0, before.len() as int),
                    vars_match(before, var_entries(cms)),
                    es == stack_var_entries(svs@),
                    j <= svs@.len(),
                    out@.len() == before.len() + j,
                    vars_match(out@.subrange(before.len() as int, out@.len() as int), es.take(j as int)),
                decreases svs.len() - j,
            {
                let v = &svs[j];
                let sn = to_snake_case(v.name.as_str());
                let mut kc: Vec<char> = Vec::new();
                append_str(&mut kc, "stack__");
                append_str(&mut kc, sn.as_str());
                let key = from_chars(kc.as_slice());
                let d = copy_opt_value(&v.default);
                let nv = variable_with_default(v, d);
                assert(var_like(nv, *v, v.default));
                assert(es[j as int] == ("stack__"@ + snake_case(v.name@), *v, v.default));
                let ghost prev = out@;
                out.push((key, nv));
                proof {
                    let tail0 = prev.subrange(before.len() as int, prev.len() as int);
                    let tail1 = out@.subrange(before.len() as int, out@.len() as int);
                    assert(tail1 =~= tail0.push(out@.last()));
                    assert(es.take(j + 1) =~= es.take(j as int).push(es[j as int]));
                    assert(out@.subrange(0, before.len() as int) =~= before);
                    assert(vars_match(tail1, es.take(j + 1))) by {
                        assert forall|i: int| 0 <= i < tail1.len() implies (#[trigger] tail1[i]).0@ == es.take(j + 1)[i].0 && var_like(tail1[i].1, es.take(j + 1)[i].1, es.take(j + 1)[i].2) by {
                            if i < j {
                                assert(tail1[i] == tail0[i]);
                                assert(es.take(j + 1)[i] == es.take(j as int)[i]);
                            }
                        }
                    }
                }
                j = j + 1;
            }
            proof {
                assert(es.take(es.len() as int) =~= es);
                let tail = out@.subrange(before.len() as int, out@.len() as int);
                assert(out@ =~= before + tail);
                lemma_vars_match_concat(before, var_entries(cms), tail, es);
            }
        },
        None => {
            assert(var_entries(cms) + Seq::<(Seq<char>, TfVariable, Option<Value>)>::empty() =~= var_entries(cms));
        },
    }
    out
}

/// The variables of the stack's root module, without stack variables.
pub fn collect_module_variables(claim_modules: &Vec<ClaimModule>) -> (r: Vec<(String, TfVariable)>)
    ensures
        vars_match(r@, var_entries(claim_modules@)),
{
    let r = collect_module_variables_with_stack(claim_modules, None);
    assert(var_entries(claim_modules@) + Seq::<(Seq<char>, TfVariable, Option<Value>)>::empty() =~= var_entries(claim_modules@));
    r
}

/// The outputs one claim contributes: `claim__output`, with the output's name and description.
pub open spec fn claim_out_entries(cm: ClaimModule) -> Seq<(Seq<char>, Seq<char>, Seq<char>)> {
    cm.1.tf_outputs@.map_values(|o: TfOutput| (prefixed(cm.0.metadata.name@, o.name@), o.name@, o.description@))
}

pub open spec fn out_entries(cms: Seq<ClaimModule>) -> Seq<(Seq<char>, Seq<char>, Seq<char>)>
    decreases cms.len(),
{
    if cms.len() == 0 {
        Seq::empty()
    } else {
        out_entries(cms.drop_last()) + claim_out_entries(cms.last())
    }
}

pub open spec fn outs_view(r: Seq<(String, TfOutput)>) -> Seq<(Seq<char>, Seq<char>, Seq<char>)> {
    r.map_values(|e: (String, TfOutput)| (e.0@, e.1.name@, e.1.description@))
}

/// The outputs of the stack's root module: each output of each claim's module as
/// `claim__output`, claim by claim.
pub fn collect_module_outputs(claim_modules: &Vec<ClaimModule>) -> (r: Vec<(String, TfOutput)>)
    ensures
        outs_view(r@) == out_entries(claim_modules@),
{
    let ghost cms = claim_modules@;
    let mut out: Vec<(String, TfOutput)> = Vec::new();
    let mut i: usize = 0;
    assert(outs_view(out@) =~= Seq::<(Seq<char>, Seq<char>, Seq<char>)>::empty());
    while i < claim_modules.len()
        invariant
            cms == claim_modules@,
            i <= cms.len(),
            outs_view(out@) == out_entries(cms.take(i as int)),
        decreases claim_modules.len() - i,
    {
        let claim = &claim_modules[i].0;
        let module = &claim_modules[i].1;
        let ghost base = outs_view(out@);
        let ghost es = claim_out_entries(cms[i as int]);
        let mut j: usize = 0;
        while j < module.tf_outputs.len()
            invariant
                cms == claim_modules@,
                i < cms.len(),
                *claim == cms[i as int].0,
                *module == cms[i as int].1,
                es == claim_out_entries(cms[i as int]),
                j <= module.tf_outputs@.len(),
                outs_view(out@) == base + es.take(j as int),
            decreases module.tf_outputs.len() - j,
        {
            let o = &module.tf_outputs[j];
            let key = crate::resolver::TfInputResolver::prefix_name(claim.metadata.name.as_str(), o.name.as_str());
            let no = TfOutput { name: o.name.clone(), description: o.description.clone() };
            let ghost before = outs_view(out@);
            out.push((key, no));
            assert(outs_view(out@) =~= before.push(es[j as int]));
            assert(es.take(j + 1) =~= es.take(j as int).push(es[j as int]));
            j = j + 1;
        }
        assert(es.take(es.len() as int) =~= es);
        assert(cms.take(i + 1).drop_last() =~= cms.take(i as int));
        assert(cms.take(i + 1).last() == cms[i as int]);
        i = i + 1;
    }
    assert(cms.take(cms.len() as int) =~= cms);
    out
}

/// `claim__variable`, the key of a claim's variable in the stack.
pub fn get_variable_name(claim_name: &str, variable_name: &str) -> (r: String)
    ensures
        r@ == prefixed(claim_name@, variable_name@),
{
    crate::resolver::TfInputResolver::prefix_name(claim_name, variable_name)
}

/// `claim__output`, the key of a claim's output in the stack.
pub fn get_output_name(claim_name: &str, output_name: &str) -> (r: String)
    ensures
        r@ == prefixed(claim_name@, output_name@),
{
    crate::resolver::TfInputResolver::prefix_name(claim_name, output_name)
}

/// The Terraform block that exposes a stack output `claim__output` as the claim module's output.
pub open spec fn output_block(key: Seq<char>) -> Seq<char> {
    let i = first_occ(key, "__"@, 0)->Some_0;
    let claim = key.subrange(0, i);
    let rest = key.subrange(i + 2, key.len() as int);
    let output = match first_occ(rest, "__"@, 0) {
        Some(k) => rest.subrange(0, k),
        None => rest,
    };
    "\noutput \""@ + key + "\" {\n  value = module."@ + claim + "."@ + output + "\n}"@
}

/// The Terraform block of one stack output; the key holds `__`.
pub fn generate_terraform_output_single(output_name: &str) -> (r: String)
    requires
        first_occ(output_name@, "__"@, 0) is Some,
    ensures
        r@ == output_block(output_name@),
{
    proof {
        reveal_strlit("__");
        assert("__"@.len() == 2);
    }
    let key = to_chars(output_name);
    let n = key.len();
    let i = match find_first(&key, "__", 0) {
        Some(i) => i,
        None => {
            return String::new();
        },
    };
    let rest = slice_of(&key, i + 2, n);
    let output = head_segment_exec(&rest);
    let mut out: Vec<char> = Vec::new();
    append_str(&mut out, "\noutput \"");
    append_range(&mut out, key.as_slice(), 0, n);
    append_str(&mut out, "\" {\n  value = module.");
    append_range(&mut out, key.as_slice(), 0, i);
    append_str(&mut out, ".");
    append_range(&mut out, output.as_slice(), 0, output.len());
    append_str(&mut out, "\n}");
    assert(key@.subrange(0, n as int) =~= key@);
    assert(output@.subrange(0, output@.len() as int) =~= output@);
    assert(out@ =~= output_block(output_name@));
    from_chars(out.as_slice())
}

} // verus!
