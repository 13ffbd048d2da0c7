//! The claims of a stack: the references between them, their dependency graph, and the
//! checks that a stack's claims must pass before the stack is published.
use vstd::prelude::*;
use crate::casing::{camel_case, snake_case, to_snake_case};
use crate::refs::{find_refs, matches_view, refs_in, RefSpan};
use crate::value::Value;
use crate::manifest::{DeploymentManifest, ErrorView, ModuleResp};
use crate::graph::{has_edge, next_of};

verus! {

/// The strings that one value holds at its top level: itself, or the strings among the items
/// of a list or among the values of a mapping.
pub open spec fn strings_one_level(v: Value) -> Seq<Seq<char>> {
    match v {
        Value::Text(s) => seq![s@],
        Value::List(items) => text_items(items@),
        Value::Object(entries) => text_entries(entries@),
        _ => Seq::empty(),
    }
}

pub open spec fn text_items(items: Seq<Value>) -> Seq<Seq<char>>
    decreases items.len(),
{
    if items.len() == 0 {
        Seq::empty()
    } else {
        let prev = text_items(items.drop_last());
        match items.last() {
            Value::Text(s) => prev.push(s@),
            _ => prev,
        }
    }
}

pub open spec fn text_entries(entries: Seq<(String, Value)>) -> Seq<Seq<char>>
    decreases entries.len(),
{
    if entries.len() == 0 {
        Seq::empty()
    } else {
        let prev = text_entries(entries.drop_last());
        match entries.last().1 {
            Value::Text(s) => prev.push(s@),
            _ => prev,
        }
    }
}

/// The strings of each top-level value of a mapping, one level deep, in order.
pub open spec fn strings_of_entries(entries: Seq<(String, Value)>) -> Seq<Seq<char>>
    decreases entries.len(),
{
    if entries.len() == 0 {
        Seq::empty()
    } else {
        strings_of_entries(entries.drop_last()) + strings_one_level(entries.last().1)
    }
}

pub open spec fn top_level_strings(vars: Value) -> Seq<Seq<char>> {
    match vars {
        Value::Object(entries) => strings_of_entries(entries@),
        _ => Seq::empty(),
    }
}

/// A dependency that a reference names: (kind, claim, field in snake_case).
pub open spec fn dep_of(m: RefSpan) -> (Seq<char>, Seq<char>, Seq<char>) {
    (m.kind, m.claim, snake_case(m.field))
}

pub open spec fn deps_of_strings(ss: Seq<Seq<char>>) -> Seq<(Seq<char>, Seq<char>, Seq<char>)>
    decreases ss.len(),
{
    if ss.len() == 0 {
        Seq::empty()
    } else {
        deps_of_strings(ss.drop_last()) + refs_in(ss.last()).map_values(|m: RefSpan| dep_of(m))
    }
}

/// The dependencies that the variables of a claim name.
pub open spec fn claim_deps(vars: Value) -> Seq<(Seq<char>, Seq<char>, Seq<char>)> {
    deps_of_strings(top_level_strings(vars))
}

pub open spec fn strs_view(v: Seq<String>) -> Seq<Seq<char>> {
    v.map_values(|s: String| s@)
}

fn push_texts_of(v: &Value, out: &mut Vec<String>)
    ensures
        strs_view(final(out)@) == strs_view(old(out)@) + strings_one_level(*v),
{
    let ghost o0 = strs_view(out@);
    match v {
        Value::Text(s) => {
            out.push(s.clone());
            assert(strs_view(out@) =~= o0 + seq![s@]);
        },
        Value::List(items) => {
            let mut i: usize = 0;
            while i < items.len()
                invariant
                    i <= items@.len(),
                    strs_view(out@) == o0 + text_items(items@.take(i as int)),
                decreases items.len() - i,
            {
                assert(items@.take(i + 1).drop_last() =~= items@.take(i as int));
                let ghost before = strs_view(out@);
                match &items[i] {
                    Value::Text(s) => {
                        out.push(s.clone());
                        assert(strs_view(out@) =~= before.push(s@));
                        assert(o0 + text_items(items@.take(i as int)).push(s@) =~= (o0 + text_items(items@.take(i as int))).push(s@));
                    },
                    _ => {},
                }
                i = i + 1;
            }
            assert(items@.take(items@.len() as int) =~= items@);
        },
        Value::Object(entries) => {
            let mut i: usize = 0;
            while i < entries.len()
                invariant
                    i <= entries@.len(),
                    strs_view(out@) == o0 + text_entries(entries@.take(i as int)),
                decreases entries.len() - i,
            {
                assert(entries@.take(i + 1).drop_last() =~= entries@.take(i as int));
                let ghost before = strs_view(out@);
                match &entries[i].1 {
                    Value::Text(s) => {
                        out.push(s.clone());
                        assert(strs_view(out@) =~= before.push(s@));
                        assert(o0 + text_entries(entries@.take(i as int)).push(s@) =~= (o0 + text_entries(entries@.take(i as int))).push(s@));
                    },
                    _ => {},
                }
                i = i + 1;
            }
            assert(entries@.take(entries@.len() as int) =~= entries@);
        },
        _ => {
            assert(strs_view(out@) =~= o0 + Seq::<Seq<char>>::empty());
        },
    }
}

/// The strings that a claim's variables hold at their top level and one level below it.
pub fn top_level_string_values(vars: &Value) -> (r: Vec<String>)
    ensures
        strs_view(r@) == top_level_strings(*vars),
{
    let mut out: Vec<String> = Vec::new();
    match vars {
        Value::Object(entries) => {
            let mut i: usize = 0;
            while i < entries.len()
                invariant
                    i <= entries@.len(),
                    strs_view(out@) == strings_of_entries(entries@.take(i as int)),
                decreases entries.len() - i,
            {
                assert(entries@.take(i + 1).drop_last() =~= entries@.take(i as int));
                push_texts_of(&entries[i].1, &mut out);
                i = i + 1;
            }
            assert(entries@.take(entries@.len() as int) =~= entries@);
        },
        _ => {
            assert(strs_view(out@) =~= Seq::<Seq<char>>::empty());
        },
    }
    out
}

pub open spec fn deps_view(v: Seq<(String, String, String)>) -> Seq<(Seq<char>, Seq<char>, Seq<char>)> {
    v.map_values(|d: (String, String, String)| (d.0@, d.1@, d.2@))
}

/// All `{{ Kind::claim::field }}` references in the strings of a claim's variables (top-level
/// strings, strings in top-level lists, strings in top-level mappings), as
/// (kind, claim, field in snake_case), in order.
pub fn extract_top_level_deps(vars: &Value) -> (r: Vec<(String, String, String)>)
    ensures
        deps_view(r@) == claim_deps(*vars),
{
    let strings = top_level_string_values(vars);
    let ghost ss = strs_view(strings@);
    let mut r: Vec<(String, String, String)> = Vec::new();
    let mut i: usize = 0;
    while i < strings.len()
        invariant
            i <= strings@.len(),
            ss == strs_view(strings@),
            ss == top_level_strings(*vars),
            deps_view(r@) == deps_of_strings(ss.take(i as int)),
        decreases strings.len() - i,
    {
        assert(ss.take(i + 1).drop_last() =~= ss.take(i as int));
        assert(ss.take(i + 1).last() == strings@[i as int]@);
        let ms = find_refs(strings[i].as_str());
        let ghost r0 = deps_view(r@);
        let ghost mdeps = refs_in(strings@[i as int]@).map_values(|m: RefSpan| dep_of(m));
        let mut k: usize = 0;
        while k < ms.len()
            invariant
                k <= ms@.len(),
                matches_view(ms@) == refs_in(strings@[i as int]@),
                mdeps == refs_in(strings@[i as int]@).map_values(|m: RefSpan| dep_of(m)),
                deps_view(r@) == r0 + mdeps.take(k as int),
            decreases ms.len() - k,
        {
            let field = to_snake_case(ms[k].field.as_str());
            let ghost before = deps_view(r@);
            assert(matches_view(ms@)[k as int] == crate::refs::match_view(ms@[k as int]));
            r.push((ms[k].kind.clone(), ms[k].claim.clone(), field));
            assert(deps_view(r@) =~= before.push(mdeps[k as int]));
            assert(mdeps.take(k + 1) =~= mdeps.take(k as int).push(mdeps[k as int]));
            k = k + 1;
        }
        assert(mdeps.take(ms@.len() as int) =~= mdeps);
        i = i + 1;
    }
    assert(ss.take(strings@.len() as int) =~= ss);
    r
}

pub type ClaimModule = (DeploymentManifest, ModuleResp);

/// The last claim of the given name: the one whose module a name lookup finds.
pub open spec fn claim_index(cms: Seq<ClaimModule>, name: Seq<char>) -> Option<int>
    decreases cms.len(),
{
    if cms.len() == 0 {
        None
    } else if cms.last().0.metadata.name@ == name {
        Some(cms.len() - 1)
    } else {
        claim_index(cms.drop_last(), name)
    }
}

pub open spec fn has_output(m: ModuleResp, field: Seq<char>) -> bool {
    exists|k: int| 0 <= k < m.tf_outputs@.len() && (#[trigger] m.tf_outputs@[k]).name@ == field
}

pub open spec fn has_variable(m: ModuleResp, field: Seq<char>) -> bool {
    exists|k: int| 0 <= k < m.tf_variables@.len() && (#[trigger] m.tf_variables@[k]).name@ == field
}

/// The claim of that name exists, its module is of that kind, and the module has an output or a
/// variable of that name.
pub open spec fn reference_exists(cms: Seq<ClaimModule>, kind: Seq<char>, claim: Seq<char>, field: Seq<char>) -> bool {
    match claim_index(cms, claim) {
        Some(i) => (has_output(cms[i].1, field) || has_variable(cms[i].1, field)) && cms[i].1.module_name@ == kind,
        None => false,
    }
}

fn find_claim(claim_modules: &Vec<ClaimModule>, name: &String) -> (r: Option<usize>)
    ensures
        match r {
            Some(i) => claim_index(claim_modules@, name@) == Some(i as int) && i < claim_modules@.len(),
            None => claim_index(claim_modules@, name@) is None,
        },
{
    let mut i: usize = claim_modules.len();
    assert(claim_modules@.take(i as int) =~= claim_modules@);
    while i > 0
        invariant
            i <= claim_modules@.len(),
            claim_index(claim_modules@, name@) == claim_index(claim_modules@.take(i as int), name@),
        decreases i,
    {
        let ghost t = claim_modules@.take(i as int);
        assert(t.drop_last() =~= claim_modules@.take(i - 1));
        if claim_modules[i - 1].0.metadata.name == *name {
            return Some(i - 1);
        }
        i = i - 1;
    }
    None
}

fn module_has_field(m: &ModuleResp, field: &String) -> (b: bool)
    ensures
        b == (has_output(*m, field@) || has_variable(*m, field@)),
{
    let mut k: usize = 0;
    while k < m.tf_outputs.len()
        invariant
            k <= m.tf_outputs@.len(),
            forall|q: int| 0 <= q < k ==> (#[trigger] m.tf_outputs@[q]).name@ != field@,
        decreases m.tf_outputs.len() - k,
    {
        if m.tf_outputs[k].name == *field {
            return true;
        }
        k = k + 1;
    }
    let mut k: usize = 0;
    while k < m.tf_variables.len()
        invariant
            k <= m.tf_variables@.len(),
            !has_output(*m, field@),
            forall|q: int| 0 <= q < k ==> (#[trigger] m.tf_variables@[q]).name@ != field@,
        decreases m.tf_variables.len() - k,
    {
        if m.tf_variables[k].name == *field {
            return true;
        }
        k = k + 1;
    }
    false
}

/// Whether the named claim exists, is of the given kind, and its module exports the field
/// as an output or a variable.
pub fn claim_reference_exists(
    claim_modules: &Vec<ClaimModule>,
    kind_name: &String,
    claim_name: &String,
    field_name: &String,
) -> (b: bool)
    ensures
        b == reference_exists(claim_modules@, kind_name@, claim_name@, field_name@),
{
    match find_claim(claim_modules, claim_name) {
        Some(i) => module_has_field(&claim_modules[i].1, field_name) && claim_modules[i].1.module_name
            == *kind_name,
        None => false,
    }
}

pub open spec fn is_stack_variable_ref(d: (Seq<char>, Seq<char>, Seq<char>)) -> bool {
    d.0 == "Stack"@ && d.1 == "variables"@
}

/// What is wrong with one dependency of the claim at position `i`: a reference to the claim
/// itself, or to a claim, kind and field that do not exist. Stack variables are not checked.
pub open spec fn dep_problem(cms: Seq<ClaimModule>, i: int, d: (Seq<char>, Seq<char>, Seq<char>)) -> Option<ErrorView> {
    let c = cms[i].0;
    if is_stack_variable_ref(d) {
        None
    } else if c.metadata.name@ == d.1 && c.kind@ == d.0 {
        Some(ErrorView::SelfReferencingClaim(c.kind@, c.metadata.name@, camel_case(d.2)))
    } else if !reference_exists(cms, d.0, d.1, d.2) {
        Some(ErrorView::StackClaimReferenceNotFound(c.metadata.name@, d.0, d.1, camel_case(d.2)))
    } else {
        None
    }
}

/// The first problem among the given dependencies of the claim at position `i`.
pub open spec fn first_dep_problem(
    cms: Seq<ClaimModule>,
    i: int,
    ds: Seq<(Seq<char>, Seq<char>, Seq<char>)>,
) -> Option<ErrorView>
    decreases ds.len(),
{
    if ds.len() == 0 {
        None
    } else {
        match first_dep_problem(cms, i, ds.drop_last()) {
            Some(e) => Some(e),
            None => dep_problem(cms, i, ds.last()),
        }
    }
}

/// The first reference problem of the first `n` claims.
pub open spec fn first_reference_problem(cms: Seq<ClaimModule>, n: int) -> Option<ErrorView>
    decreases n,
{
    if n <= 0 {
        None
    } else {
        match first_reference_problem(cms, n - 1) {
            Some(e) => Some(e),
            None => first_dep_problem(cms, n - 1, claim_deps(cms[n - 1].0.spec.variables)),
        }
    }
}

pub open spec fn is_claim_name(cms: Seq<ClaimModule>, name: Seq<char>) -> bool {
    exists|j: int| 0 <= j < cms.len() && (#[trigger] cms[j]).0.metadata.name@ == name
}

/// Some dependency among `ds` that is not a stack variable names the claim `b`.
pub open spec fn names_dep(ds: Seq<(Seq<char>, Seq<char>, Seq<char>)>, b: Seq<char>) -> bool {
    exists|k: int| 0 <= k < ds.len() && !is_stack_variable_ref(#[trigger] ds[k]) && ds[k].1 == b
}

/// Claim `a` depends on claim `b`: a claim named `a` refers to `b`, which is the name of a claim,
/// by a reference that is not to a stack variable.
pub open spec fn depends_on(cms: Seq<ClaimModule>, a: Seq<char>, b: Seq<char>) -> bool {
    &&& is_claim_name(cms, b)
    &&& exists|i: int|
        0 <= i < cms.len() && #[trigger] cms[i].0.metadata.name@ == a && names_dep(
            claim_deps(cms[i].0.spec.variables),
            b,
        )
}

/// The claims form a cycle of dependencies.
pub open spec fn is_dependency_cycle(cms: Seq<ClaimModule>, c: Seq<Seq<char>>) -> bool {
    c.len() > 0 && forall|k: int| 0 <= k < c.len() ==> #[trigger] depends_on(cms, c[k], c[next_of(c.len() as int, k)])
}

fn copy_s(s: &String) -> (r: String)
    ensures
        r@ == s@,
{
    s.clone()
}

/// The claims that the claim at position `i` refers to, each time it refers to one.
fn claim_targets(claim_modules: &Vec<ClaimModule>, i: usize) -> (t: Vec<String>)
    requires
        i < claim_modules@.len(),
    ensures
        forall|b: Seq<char>|
            #![trigger strs_view(t@).contains(b)]
            strs_view(t@).contains(b) <==> (is_claim_name(claim_modules@, b) && names_dep(
                claim_deps(claim_modules@[i as int].0.spec.variables),
                b,
            )),
{
    let ghost cms = claim_modules@;
    let deps = extract_top_level_deps(&claim_modules[i].0.spec.variables);
    let ghost ds = claim_deps(cms[i as int].0.spec.variables);
    let mut targets: Vec<String> = Vec::new();
    let mut k: usize = 0;
    while k < deps.len()
        invariant
            cms == claim_modules@,
            i < cms.len(),
            ds == claim_deps(cms[i as int].0.spec.variables),
            deps_view(deps@) == ds,
            k <= deps@.len(),
            forall|b: Seq<char>|
                #![trigger strs_view(targets@).contains(b)]
                strs_view(targets@).contains(b) <==> (is_claim_name(cms, b) && names_dep(ds.take(k as int), b)),
        decreases deps.len() - k,
    {
        let ghost t0 = strs_view(targets@);
        let ghost dk = ds[k as int];
        assert(dk == (deps@[k as int].0@, deps@[k as int].1@, deps@[k as int].2@));
        assert(ds.take(k + 1) =~= ds.take(k as int).push(dk));
        let stack_var = deps[k].0 == String::from_str("Stack") && deps[k].1 == String::from_str("variables");
        let mut pushed = false;
        if !stack_var {
            match find_claim(claim_modules, &deps[k].1) {
                Some(j) => {
                    proof {
                        lemma_claim_index_name(cms, dk.1);
                    }
                    assert(cms[j as int].0.metadata.name@ == dk.1);
                    assert(is_claim_name(cms, dk.1));
                    targets.push(copy_s(&deps[k].1));
                    pushed = true;
                },
                None => {
                    proof {
                        lemma_claim_index_none(cms, dk.1);
                    }
                },
            }
        }
        proof {
            if pushed {
                assert(strs_view(targets@) =~= t0.push(dk.1));
            } else {
                assert(strs_view(targets@) =~= t0);
            }
            assert forall|b: Seq<char>| #![trigger strs_view(targets@).contains(b)]
                strs_view(targets@).contains(b) <==> (is_claim_name(cms, b) && names_dep(ds.take(k + 1), b)) by {
                let s1 = ds.take(k + 1);
                if names_dep(s1, b) {
                    let kk = choose|kk: int| 0 <= kk < s1.len() && !is_stack_variable_ref(#[trigger] s1[kk]) && s1[kk].1 == b;
                    if kk < k {
                        assert(ds.take(k as int)[kk] == s1[kk]);
                    }
                }
                if names_dep(ds.take(k as int), b) {
                    let kk = choose|kk: int| 0 <= kk < k && !is_stack_variable_ref(#[trigger] ds.take(k as int)[kk]) && ds.take(k as int)[kk].1 == b;
                    assert(s1[kk] == ds.take(k as int)[kk]);
                }
                if pushed && b == dk.1 {
                    assert(strs_view(targets@)[t0.len() as int] == b);
                    assert(s1[k as int] == dk);
                }
                if t0.contains(b) {
                    let jj = choose|jj: int| 0 <= jj < t0.len() && t0[jj] == b;
                    assert(strs_view(targets@)[jj] == b);
                }
            }
        }
        k = k + 1;
    }
    assert(ds.take(deps@.len() as int) =~= ds);
    targets
}

/// The dependency graph of the claims: for each claim, the claims that it refers to.
pub(crate) fn dependency_graph(claim_modules: &Vec<ClaimModule>) -> (g: Vec<(String, Vec<String>)>)
    ensures
        forall|a: Seq<char>, b: Seq<char>| has_edge(g@, a, b) <==> depends_on(claim_modules@, a, b),
{
    let ghost cms = claim_modules@;
    let mut g: Vec<(String, Vec<String>)> = Vec::new();
    let mut i: usize = 0;
    while i < claim_modules.len()
        invariant
            cms == claim_modules@,
            i <= cms.len(),
            g@.len() == i,
            forall|q: int| 0 <= q < i ==> (#[trigger] g@[q]).0@ == cms[q].0.metadata.name@,
            forall|q: int, b: Seq<char>|
                0 <= q < i ==> (#[trigger] strs_view(g@[q].1@).contains(b) <==> (is_claim_name(cms, b)
                    && names_dep(claim_deps(cms[q].0.spec.variables), b))),
        decreases claim_modules.len() - i,
    {
        let targets = claim_targets(claim_modules, i);
        let ghost g0 = g@;
        g.push((copy_s(&claim_modules[i].0.metadata.name), targets));
        proof {
            assert forall|q: int, b: Seq<char>| 0 <= q < i + 1 implies (#[trigger] strs_view(g@[q].1@).contains(b) <==> (is_claim_name(cms, b)
                    && names_dep(claim_deps(cms[q].0.spec.variables), b))) by {
                if q < i {
                    assert(g@[q] == g0[q]);
                }
            }
        }
        i = i + 1;
    }
    proof {
        assert forall|a: Seq<char>, b: Seq<char>| has_edge(g@, a, b) implies depends_on(cms, a, b) by {
            let (q, j) = choose|q: int, j: int| 0 <= q < g@.len() && 0 <= j < g@[q].1@.len() && #[trigger] g@[q].0@ == a && (#[trigger] g@[q].1@[j])@ == b;
            assert(strs_view(g@[q].1@)[j] == b);
            assert(strs_view(g@[q].1@).contains(b));
            assert(cms[q].0.metadata.name@ == a);
        }
        assert forall|a: Seq<char>, b: Seq<char>| depends_on(cms, a, b) implies has_edge(g@, a, b) by {
            let q = choose|q: int| 0 <= q < cms.len() && #[trigger] cms[q].0.metadata.name@ == a && names_dep(claim_deps(cms[q].0.spec.variables), b);
            assert(strs_view(g@[q].1@).contains(b));
            let j = choose|j: int| 0 <= j < strs_view(g@[q].1@).len() && strs_view(g@[q].1@)[j] == b;
            assert(g@[q].1@[j]@ == b);
            assert(g@[q].0@ == a);
        }
    }
    g
}

proof fn lemma_claim_index_name(cms: Seq<ClaimModule>, name: Seq<char>)
    ensures
        match claim_index(cms, name) {
            Some(i) => 0 <= i < cms.len() && cms[i].0.metadata.name@ == name,
            None => true,
        },
    decreases cms.len(),
{
    if cms.len() > 0 && cms.last().0.metadata.name@ != name {
        lemma_claim_index_name(cms.drop_last(), name);
    }
}

proof fn lemma_claim_index_none(cms: Seq<ClaimModule>, name: Seq<char>)
    requires
        claim_index(cms, name) is None,
    ensures
        !is_claim_name(cms, name),
    decreases cms.len(),
{
    if cms.len() > 0 {
        lemma_claim_index_none(cms.drop_last(), name);
        assert forall|j: int| 0 <= j < cms.len() implies (#[trigger] cms[j]).0.metadata.name@ != name by {
            if j < cms.len() - 1 {
                assert(cms.drop_last()[j] == cms[j]);
            }
        }
    }
}

} // verus!
