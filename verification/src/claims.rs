//! The checks that the claims of a stack pass before the stack is published: unique names,
//! camelCase variables that the claim's module has, the fields of a claim inside a stack, the
//! references between claims, and no circular dependency.
use vstd::prelude::*;
use crate::casing::{camel_case, snake_case, to_camel_case, to_snake_case};
use crate::graph::{detect_cycle, distinct_names, has_edge, is_cycle, names_view, next_of};
use crate::manifest::{DeploymentManifest, ErrorView, ModuleError, ModuleResp};
use crate::names::{
    is_lower_alnum_name, region_is_na, validate_stack_module_claim_name, validate_stack_module_claim_region_is_na,
};
use crate::stack::{claim_deps, claim_reference_exists, dep_problem, dependency_graph, depends_on, deps_view, extract_top_level_deps, first_dep_problem, first_reference_problem, is_dependency_cycle, ClaimModule};
use crate::stack::has_variable;

use crate::value::Value;

verus! {

fn copy_str(s: &String) -> (r: String)
    ensures
        r@ == s@,
{
    s.clone()
}

/// Checks every reference of every claim, in order: a reference to a stack variable is not
/// checked; a reference of a claim to itself, or to a claim, kind and field that do not exist,
/// is the error.
fn check_references(claim_modules: &Vec<ClaimModule>) -> (r: Result<(), ModuleError>)
    ensures
        match r {
            Ok(()) => first_reference_problem(claim_modules@, claim_modules@.len() as int) is None,
            Err(e) => first_reference_problem(claim_modules@, claim_modules@.len() as int) == Some(e@),
        },
{
    let ghost cms = claim_modules@;
    let mut i: usize = 0;
    while i < claim_modules.len()
        invariant
            cms == claim_modules@,
            i <= cms.len(),
            first_reference_problem(cms, i as int) is None,
        decreases claim_modules.len() - i,
    {
        let claim = &claim_modules[i].0;
        let deps = extract_top_level_deps(&claim.spec.variables);
        let ghost ds = claim_deps(cms[i as int].0.spec.variables);
        let mut k: usize = 0;
        while k < deps.len()
            invariant
                cms == claim_modules@,
                i < cms.len(),
                *claim == cms[i as int].0,
                ds == claim_deps(cms[i as int].0.spec.variables),
                deps_view(deps@) == ds,
                k <= deps@.len(),
                first_reference_problem(cms, i as int) is None,
                first_dep_problem(cms, i as int, ds.take(k as int)) is None,
            decreases deps.len() - k,
        {
            let ghost dk = ds[k as int];
            assert(dk == (deps@[k as int].0@, deps@[k as int].1@, deps@[k as int].2@));
            assert(ds.take(k + 1).drop_last() =~= ds.take(k as int));
            assert(ds.take(k + 1).last() == dk);
            let (ref_kind, ref_claim, ref_field) = (&deps[k].0, &deps[k].1, &deps[k].2);
            let stack_var = *ref_kind == String::from_str("Stack") && *ref_claim == String::from_str("variables");
            if !stack_var {
                if claim.metadata.name == *ref_claim && claim.kind == *ref_kind {
                    let e = ModuleError::SelfReferencingClaim(
                        copy_str(&claim.kind),
                        copy_str(&claim.metadata.name),
                        to_camel_case(ref_field.as_str()),
                    );
                    proof {
                        lemma_first_problem_stops(cms, i as int, ds, k as int);
                    }
                    return Err(e);
                }
                if !claim_reference_exists(claim_modules, ref_kind, ref_claim, ref_field) {
                    let e = ModuleError::StackClaimReferenceNotFound(
                        copy_str(&claim.metadata.name),
                        copy_str(ref_kind),
                        copy_str(ref_claim),
                        to_camel_case(ref_field.as_str()),
                    );
                    proof {
                        lemma_first_problem_stops(cms, i as int, ds, k as int);
                    }
                    return Err(e);
                }
            }
            k = k + 1;
        }
        assert(ds.take(deps@.len() as int) =~= ds);
        i = i + 1;
    }
    Ok(())
}

/// Once the claims before `i`, and the dependencies of claim `i` before `k`, have no problem,
/// the first problem of the claims up to `i` is that of dependency `k`.
proof fn lemma_first_problem_stops(cms: Seq<ClaimModule>, i: int, ds: Seq<(Seq<char>, Seq<char>, Seq<char>)>, k: int)
    requires
        0 <= i < cms.len(),
        ds == claim_deps(cms[i].0.spec.variables),
        0 <= k < ds.len(),
        first_reference_problem(cms, i) is None,
        first_dep_problem(cms, i, ds.take(k)) is None,
        dep_problem(cms, i, ds[k]) is Some,
    ensures
        first_reference_problem(cms, cms.len() as int) == dep_problem(cms, i, ds[k]),
{
    assert(ds.take(k + 1).drop_last() =~= ds.take(k));
    lemma_dep_problem_prefix(cms, i, ds, k + 1);
    lemma_reference_problem_prefix(cms, i + 1, cms.len() as int);
}

/// A problem among the first `k` dependencies is the problem of all of them.
proof fn lemma_dep_problem_prefix(cms: Seq<ClaimModule>, i: int, ds: Seq<(Seq<char>, Seq<char>, Seq<char>)>, k: int)
    requires
        0 <= k <= ds.len(),
        first_dep_problem(cms, i, ds.take(k)) is Some,
    ensures
        first_dep_problem(cms, i, ds) == first_dep_problem(cms, i, ds.take(k)),
    decreases ds.len() - k,
{
    if k < ds.len() {
        assert(ds.take(k + 1).drop_last() =~= ds.take(k));
        lemma_dep_problem_prefix(cms, i, ds, k + 1);
    } else {
        assert(ds.take(k) =~= ds);
    }
}

/// A problem among the first `n` claims is the problem of the first `m >= n` claims.
proof fn lemma_reference_problem_prefix(cms: Seq<ClaimModule>, n: int, m: int)
    requires
        0 <= n <= m,
        first_reference_problem(cms, n) is Some,
    ensures
        first_reference_problem(cms, m) == first_reference_problem(cms, n),
    decreases m - n,
{
    if n < m {
        lemma_reference_problem_prefix(cms, n, m - 1);
    }
}

/// The references between the claims of a stack are valid and no claims depend on each other
/// in a cycle. The first invalid reference, in the order of the claims and of the references
/// in each claim, is the error; else a cycle of dependencies, if there is one.
pub fn validate_dependencies(claim_modules: &Vec<ClaimModule>) -> (r: Result<(), ModuleError>)
    ensures
        match first_reference_problem(claim_modules@, claim_modules@.len() as int) {
            Some(e) => r is Err && r->Err_0@ == e,
            None => match r {
                Ok(()) => forall|c: Seq<Seq<char>>| !is_dependency_cycle(claim_modules@, c),
                Err(e) => exists|c: Seq<Seq<char>>|
                    e@ == ErrorView::CircularDependency(c) && #[trigger] is_dependency_cycle(claim_modules@, c)
                        && distinct_names(c),
            },
        },
{
    match check_references(claim_modules) {
        Err(e) => {
            return Err(e);
        },
        Ok(()) => {},
    }
    let ghost cms = claim_modules@;
    let g = dependency_graph(claim_modules);
    match detect_cycle(&g) {
        Some(cycle) => {
            let ghost c = names_view(cycle@);
            assert forall|k: int| 0 <= k < c.len() implies #[trigger] depends_on(cms, c[k], c[next_of(c.len() as int, k)]) by {
                assert(has_edge(g@, c[k], c[next_of(c.len() as int, k)]));
            }
            assert(is_dependency_cycle(cms, c));
            let e = ModuleError::CircularDependency(cycle);
            assert(e@ == ErrorView::CircularDependency(c));
            Err(e)
        },
        None => {
            assert forall|c: Seq<Seq<char>>| !is_dependency_cycle(cms, c) by {
                assert(!is_cycle(g@, c));
                if is_dependency_cycle(cms, c) {
                    assert forall|k: int| 0 <= k < c.len() implies has_edge(g@, #[trigger] c[k], c[next_of(c.len() as int, k)]) by {
                        assert(depends_on(cms, c[k], c[next_of(c.len() as int, k)]));
                    }
                }
            }
            Ok(())
        },
    }
}

/// The names of the claims, in order.
pub open spec fn claim_names(cms: Seq<ClaimModule>) -> Seq<Seq<char>> {
    cms.map_values(|cm: ClaimModule| cm.0.metadata.name@)
}

/// The first name that equals a name before it.
pub open spec fn first_duplicate(names: Seq<Seq<char>>) -> Option<Seq<char>>
    decreases names.len(),
{
    if names.len() == 0 {
        None
    } else {
        match first_duplicate(names.drop_last()) {
            Some(d) => Some(d),
            None => if names.drop_last().contains(names.last()) {
                Some(names.last())
            } else {
                None
            },
        }
    }
}

/// The keys of a claim's variables, in order; none where the variables are not a mapping.
pub open spec fn var_keys(v: Value) -> Seq<Seq<char>> {
    match v {
        Value::Object(entries) => entries@.map_values(|e: (String, Value)| e.0@),
        _ => Seq::empty(),
    }
}

/// The first key that is not in camelCase.
pub open spec fn first_not_camel(keys: Seq<Seq<char>>) -> Option<Seq<char>>
    decreases keys.len(),
{
    if keys.len() == 0 {
        None
    } else {
        match first_not_camel(keys.drop_last()) {
            Some(k) => Some(k),
            None => if keys.last() != camel_case(keys.last()) {
                Some(keys.last())
            } else {
                None
            },
        }
    }
}

/// The first key whose snake_case is not a variable of the module.
pub open spec fn first_unknown_var(m: ModuleResp, keys: Seq<Seq<char>>) -> Option<Seq<char>>
    decreases keys.len(),
{
    if keys.len() == 0 {
        None
    } else {
        match first_unknown_var(m, keys.drop_last()) {
            Some(k) => Some(k),
            None => if !has_variable(m, snake_case(keys.last())) {
                Some(keys.last())
            } else {
                None
            },
        }
    }
}

/// What is wrong with one claim inside a stack, in the order the checks run: a variable not in
/// camelCase, a variable that its module does not have, no module version, a claim name that
/// is not lowercase letters and digits, a region other than `N/A`, a namespace that is set.
pub open spec fn claim_problem(cm: ClaimModule) -> Option<ErrorView> {
    let c = cm.0;
    let name = c.metadata.name@;
    let keys = var_keys(c.spec.variables);
    match first_not_camel(keys) {
        Some(k) => Some(ErrorView::ClaimVariableNotCamelCase(name, k)),
        None => match first_unknown_var(cm.1, keys) {
            Some(k) => Some(ErrorView::ClaimVariableNotFound(name, snake_case(k))),
            None => if c.spec.module_version is None {
                Some(ErrorView::ModuleVersionNotSet(name))
            } else if !is_lower_alnum_name(name) {
                Some(ErrorView::InvalidClaimName(name))
            } else if !region_is_na(c.spec.region@) {
                Some(ErrorView::ClaimRegionNotNa(name, c.spec.region@))
            } else if c.metadata.namespace is Some {
                Some(ErrorView::StackModuleNamespaceIsSet(name))
            } else {
                None
            },
        },
    }
}

/// The first problem among the first `n` claims.
pub open spec fn first_claim_problem(cms: Seq<ClaimModule>, n: int) -> Option<ErrorView>
    decreases n,
{
    if n <= 0 {
        None
    } else {
        match first_claim_problem(cms, n - 1) {
            Some(e) => Some(e),
            None => claim_problem(cms[n - 1]),
        }
    }
}

/// What is wrong with the claims of a stack short of a circular dependency: a duplicate name,
/// else the first problem of a claim, else the first invalid reference.
pub open spec fn stack_claims_problem(cms: Seq<ClaimModule>) -> Option<ErrorView> {
    match first_duplicate(claim_names(cms)) {
        Some(d) => Some(ErrorView::DuplicateClaimNames(d)),
        None => match first_claim_problem(cms, cms.len() as int) {
            Some(e) => Some(e),
            None => first_reference_problem(cms, cms.len() as int),
        },
    }
}

fn find_duplicate(claim_modules: &Vec<ClaimModule>) -> (r: Option<String>)
    ensures
        match r {
            Some(d) => first_duplicate(claim_names(claim_modules@)) == Some(d@),
            None => first_duplicate(claim_names(claim_modules@)) is None,
        },
{
    let ghost names = claim_names(claim_modules@);
    let mut i: usize = 0;
    while i < claim_modules.len()
        invariant
            names == claim_names(claim_modules@),
            i <= claim_modules@.len(),
            first_duplicate(names.take(i as int)) is None,
        decreases claim_modules.len() - i,
    {
        let ghost t = names.take(i + 1);
        assert(t.drop_last() =~= names.take(i as int));
        assert(t.last() == claim_modules@[i as int].0.metadata.name@);
        let mut j: usize = 0;
        while j < i
            invariant
                names == claim_names(claim_modules@),
                j <= i < claim_modules@.len(),
                first_duplicate(names.take(i as int)) is None,
                forall|q: int| 0 <= q < j ==> names[q] != names[i as int],
            decreases i - j,
        {
            if claim_modules[j].0.metadata.name == claim_modules[i].0.metadata.name {
                assert(names.take(i as int)[j as int] == names[i as int]);
                assert(names.take(i as int).contains(names[i as int]));
                proof {
                    assert(names.take(i + 1).drop_last() =~= names.take(i as int));
                    lemma_duplicate_prefix(names, i + 1);
                }
                return Some(copy_str(&claim_modules[i].0.metadata.name));
            }
            j = j + 1;
        }
        assert(!names.take(i as int).contains(names[i as int])) by {
            if names.take(i as int).contains(names[i as int]) {
                let q = choose|q: int| 0 <= q < i && names.take(i as int)[q] == names[i as int];
                assert(names[q] == names[i as int]);
            }
        }
        i = i + 1;
    }
    assert(names.take(claim_modules@.len() as int) =~= names);
    None
}

/// A duplicate among the first `n` names is the first duplicate of all of them.
proof fn lemma_duplicate_prefix(names: Seq<Seq<char>>, n: int)
    requires
        0 <= n <= names.len(),
        first_duplicate(names.take(n)) is Some,
    ensures
        first_duplicate(names) == first_duplicate(names.take(n)),
    decreases names.len() - n,
{
    if n < names.len() {
        assert(names.take(n + 1).drop_last() =~= names.take(n));
        lemma_duplicate_prefix(names, n + 1);
    } else {
        assert(names.take(n) =~= names);
    }
}

fn entry_keys(v: &Value) -> (r: Vec<String>)
    ensures
        crate::stack::strs_view(r@) == var_keys(*v),
{
    let mut out: Vec<String> = Vec::new();
    match v {
        Value::Object(entries) => {
            let mut i: usize = 0;
            while i < entries.len()
                invariant
                    i <= entries@.len(),
                    crate::stack::strs_view(out@) == entries@.take(i as int).map_values(|e: (String, Value)| e.0@),
                decreases entries.len() - i,
            {
                let ghost before = crate::stack::strs_view(out@);
                out.push(copy_str(&entries[i].0));
                assert(crate::stack::strs_view(out@) =~= before.push(entries@[i as int].0@));
                assert(entries@.take(i + 1) =~= entries@.take(i as int).push(entries@[i as int]));
                assert(entries@.take(i + 1).map_values(|e: (String, Value)| e.0@) =~= entries@.take(i as int).map_values(|e: (String, Value)| e.0@).push(entries@[i as int].0@));
                i = i + 1;
            }
            assert(entries@.take(entries@.len() as int) =~= entries@);
        },
        _ => {
            assert(crate::stack::strs_view(out@) =~= Seq::<Seq<char>>::empty());
        },
    }
    out
}

fn module_has_variable(m: &ModuleResp, name: &String) -> (b: bool)
    ensures
        b == has_variable(*m, name@),
{
    let mut k: usize = 0;
    while k < m.tf_variables.len()
        invariant
            k <= m.tf_variables@.len(),
            forall|q: int| 0 <= q < k ==> (#[trigger] m.tf_variables@[q]).name@ != name@,
        decreases m.tf_variables.len() - k,
    {
        if m.tf_variables[k].name == *name {
            return true;
        }
        k = k + 1;
    }
    false
}

/// Checks one claim inside a stack against its module.
fn check_claim(claim: &DeploymentManifest, module: &ModuleResp) -> (r: Result<(), ModuleError>)
    ensures
        match claim_problem((*claim, *module)) {
            Some(e) => r is Err && r->Err_0@ == e,
            None => r is Ok,
        },
{
    let keys = entry_keys(&claim.spec.variables);
    let ghost ks = var_keys(claim.spec.variables);
    let mut i: usize = 0;
    while i < keys.len()
        invariant
            crate::stack::strs_view(keys@) == ks,
            ks == var_keys(claim.spec.variables),
            i <= keys@.len(),
            first_not_camel(ks.take(i as int)) is None,
        decreases keys.len() - i,
    {
        assert(ks.take(i + 1).drop_last() =~= ks.take(i as int));
        assert(ks.take(i + 1).last() == keys@[i as int]@);
        let camel = to_camel_case(keys[i].as_str());
        if keys[i] != camel {
            proof {
                assert(keys@[i as int]@ != camel_case(keys@[i as int]@));
                assert(first_not_camel(ks.take(i + 1)) == Some(keys@[i as int]@));
                lemma_not_camel_prefix(ks, i + 1);
            }
            return Err(ModuleError::ClaimVariableNotCamelCase(copy_str(&claim.metadata.name), copy_str(&keys[i])));
        }
        i = i + 1;
    }
    assert(ks.take(keys@.len() as int) =~= ks);
    let mut i: usize = 0;
    while i < keys.len()
        invariant
            crate::stack::strs_view(keys@) == ks,
            ks == var_keys(claim.spec.variables),
            first_not_camel(ks) is None,
            i <= keys@.len(),
            first_unknown_var(*module, ks.take(i as int)) is None,
        decreases keys.len() - i,
    {
        assert(ks.take(i + 1).drop_last() =~= ks.take(i as int));
        assert(ks.take(i + 1).last() == keys@[i as int]@);
        let snake = to_snake_case(keys[i].as_str());
        if !module_has_variable(module, &snake) {
            proof {
                assert(!has_variable(*module, snake_case(keys@[i as int]@)));
                assert(first_unknown_var(*module, ks.take(i + 1)) == Some(keys@[i as int]@));
                lemma_unknown_var_prefix(*module, ks, i + 1);
            }
            return Err(ModuleError::ClaimVariableNotFound(copy_str(&claim.metadata.name), snake));
        }
        i = i + 1;
    }
    assert(ks.take(keys@.len() as int) =~= ks);
    if claim.spec.module_version.is_none() {
        return Err(ModuleError::ModuleVersionNotSet(copy_str(&claim.metadata.name)));
    }
    match validate_stack_module_claim_name(claim) {
        Err(e) => {
            return Err(e);
        },
        Ok(()) => {},
    }
    match validate_stack_module_claim_region_is_na(claim) {
        Err(e) => {
            return Err(e);
        },
        Ok(()) => {},
    }
    if claim.metadata.namespace.is_some() {
        return Err(ModuleError::StackModuleNamespaceIsSet(copy_str(&claim.metadata.name)));
    }
    Ok(())
}

proof fn lemma_not_camel_prefix(keys: Seq<Seq<char>>, n: int)
    requires
        0 <= n <= keys.len(),
        first_not_camel(keys.take(n)) is Some,
    ensures
        first_not_camel(keys) == first_not_camel(keys.take(n)),
    decreases keys.len() - n,
{
    if n < keys.len() {
        assert(keys.take(n + 1).drop_last() =~= keys.take(n));
        lemma_not_camel_prefix(keys, n + 1);
    } else {
        assert(keys.take(n) =~= keys);
    }
}

proof fn lemma_unknown_var_prefix(m: ModuleResp, keys: Seq<Seq<char>>, n: int)
    requires
        0 <= n <= keys.len(),
        first_unknown_var(m, keys.take(n)) is Some,
    ensures
        first_unknown_var(m, keys) == first_unknown_var(m, keys.take(n)),
    decreases keys.len() - n,
{
    if n < keys.len() {
        assert(keys.take(n + 1).drop_last() =~= keys.take(n));
        lemma_unknown_var_prefix(m, keys, n + 1);
    } else {
        assert(keys.take(n) =~= keys);
    }
}

proof fn lemma_claim_problem_prefix(cms: Seq<ClaimModule>, n: int, m: int)
    requires
        0 <= n <= m,
        first_claim_problem(cms, n) is Some,
    ensures
        first_claim_problem(cms, m) == first_claim_problem(cms, n),
    decreases m - n,
{
    if n < m {
        lemma_claim_problem_prefix(cms, n, m - 1);
    }
}

/// Validates the claims of a stack with their modules: claim names are unique; each claim uses
/// camelCase variables that its module has, sets a module version, has a lowercase alphanumeric
/// name, the region `N/A` and no namespace; the references between claims are valid; and no
/// claims depend on each other in a cycle. The first problem found in that order is the error.
pub fn validate_claim_modules(claim_modules: &Vec<ClaimModule>) -> (r: Result<(), ModuleError>)
    ensures
        match stack_claims_problem(claim_modules@) {
            Some(e) => r is Err && r->Err_0@ == e,
            None => match r {
                Ok(()) => forall|c: Seq<Seq<char>>| !is_dependency_cycle(claim_modules@, c),
                Err(e) => exists|c: Seq<Seq<char>>|
                    e@ == ErrorView::CircularDependency(c) && #[trigger] is_dependency_cycle(claim_modules@, c)
                        && distinct_names(c),
            },
        },
        r is Ok ==> forall|i: int| 0 <= i < claim_modules@.len() ==> region_is_na(#[trigger] claim_modules@[i].0.spec.region@),
{
    let ghost cms = claim_modules@;
    match find_duplicate(claim_modules) {
        Some(d) => {
            return Err(ModuleError::DuplicateClaimNames(d));
        },
        None => {},
    }
    let mut i: usize = 0;
    while i < claim_modules.len()
        invariant
            cms == claim_modules@,
            i <= cms.len(),
            first_duplicate(claim_names(cms)) is None,
            first_claim_problem(cms, i as int) is None,
        decreases claim_modules.len() - i,
    {
        match check_claim(&claim_modules[i].0, &claim_modules[i].1) {
            Err(e) => {
                proof {
                    assert(cms[i as int] == (claim_modules@[i as int].0, claim_modules@[i as int].1));
                    assert(first_claim_problem(cms, i + 1) == claim_problem(cms[i as int]));
                    lemma_claim_problem_prefix(cms, i + 1, cms.len() as int);
                }
                return Err(e);
            },
            Ok(()) => {},
        }
        assert(cms[i as int] == (claim_modules@[i as int].0, claim_modules@[i as int].1));
        i = i + 1;
    }
    proof {
        lemma_no_claim_problem_upto(cms, cms.len() as int);
        assert forall|k: int| 0 <= k < cms.len() implies region_is_na(#[trigger] claim_modules@[k].0.spec.region@) by {
            assert(claim_problem(cms[k]) is None);
        }
    }
    validate_dependencies(claim_modules)
}

/// No problem among the first `n` claims means no problem with any one of them.
proof fn lemma_no_claim_problem_upto(cms: Seq<ClaimModule>, n: int)
    requires
        0 <= n <= cms.len(),
        first_claim_problem(cms, n) is None,
    ensures
        forall|i: int| 0 <= i < n ==> #[trigger] claim_problem(cms[i]) is None,
    decreases n,
{
    if n > 0 {
        lemma_no_claim_problem_upto(cms, n - 1);
    }
}

/// No duplicate among the names means they are pairwise distinct.
proof fn lemma_no_duplicate_distinct(names: Seq<Seq<char>>)
    requires
        first_duplicate(names) is None,
    ensures
        forall|i: int, j: int| 0 <= i < j < names.len() ==> names[i] != names[j],
    decreases names.len(),
{
    if names.len() > 0 {
        let init = names.drop_last();
        lemma_no_duplicate_distinct(init);
        assert forall|i: int, j: int| 0 <= i < j < names.len() implies names[i] != names[j] by {
            if j == names.len() - 1 {
                assert(init[i] == names[i]);
                assert(!init.contains(names.last()));
            } else {
                assert(init[i] == names[i] && init[j] == names[j]);
            }
        }
    }
}

/// No key out of camelCase means each key is its own camelCase.
proof fn lemma_all_camel(keys: Seq<Seq<char>>)
    requires
        first_not_camel(keys) is None,
    ensures
        forall|i: int| 0 <= i < keys.len() ==> #[trigger] keys[i] == camel_case(keys[i]),
    decreases keys.len(),
{
    if keys.len() > 0 {
        lemma_all_camel(keys.drop_last());
        assert forall|i: int| 0 <= i < keys.len() implies #[trigger] keys[i] == camel_case(keys[i]) by {
            if i < keys.len() - 1 {
                assert(keys.drop_last()[i] == keys[i]);
            }
        }
    }
}

/// No unknown key means the module has the snake_case of each key as a variable.
proof fn lemma_all_known(m: ModuleResp, keys: Seq<Seq<char>>)
    requires
        first_unknown_var(m, keys) is None,
    ensures
        forall|i: int| 0 <= i < keys.len() ==> has_variable(m, snake_case(#[trigger] keys[i])),
    decreases keys.len(),
{
    if keys.len() > 0 {
        lemma_all_known(m, keys.drop_last());
        assert forall|i: int| 0 <= i < keys.len() implies has_variable(m, snake_case(#[trigger] keys[i])) by {
            if i < keys.len() - 1 {
                assert(keys.drop_last()[i] == keys[i]);
            }
        }
    }
}

/// The claims of a stack that pass validation have distinct names, and each claim has a name
/// of lowercase letters and digits, sets a module version, has the region `N/A` (in any letter
/// case), sets no namespace, and names each variable in camelCase with its snake_case a
/// variable of the claim's module.
pub proof fn law_accepted_claims_are_well_formed(cms: Seq<ClaimModule>)
    requires
        stack_claims_problem(cms) is None,
    ensures
        forall|i: int, j: int| 0 <= i < j < cms.len() ==> cms[i].0.metadata.name@ != cms[j].0.metadata.name@,
        forall|i: int| 0 <= i < cms.len() ==> region_is_na(#[trigger] cms[i].0.spec.region@),
        forall|i: int| 0 <= i < cms.len() ==> (#[trigger] cms[i]).0.metadata.namespace is None,
        forall|i: int| 0 <= i < cms.len() ==> (#[trigger] cms[i]).0.spec.module_version is Some,
        forall|i: int| 0 <= i < cms.len() ==> is_lower_alnum_name((#[trigger] cms[i]).0.metadata.name@),
        forall|i: int, k: int| 0 <= i < cms.len() && 0 <= k < var_keys(cms[i].0.spec.variables).len() ==> {
            let key = #[trigger] var_keys(cms[i].0.spec.variables)[k];
            key == camel_case(key) && has_variable(cms[i].1, snake_case(key))
        },
{
    lemma_no_duplicate_distinct(claim_names(cms));
    assert forall|i: int, j: int| 0 <= i < j < cms.len() implies cms[i].0.metadata.name@ != cms[j].0.metadata.name@ by {
        assert(claim_names(cms)[i] == cms[i].0.metadata.name@);
        assert(claim_names(cms)[j] == cms[j].0.metadata.name@);
    }
    lemma_no_claim_problem_upto(cms, cms.len() as int);
    assert forall|i: int| 0 <= i < cms.len() implies region_is_na(#[trigger] cms[i].0.spec.region@) by {
        assert(claim_problem(cms[i]) is None);
    }
    assert forall|i: int| 0 <= i < cms.len() implies (#[trigger] cms[i]).0.metadata.namespace is None by {
        assert(claim_problem(cms[i]) is None);
    }
    assert forall|i: int| 0 <= i < cms.len() implies (#[trigger] cms[i]).0.spec.module_version is Some by {
        assert(claim_problem(cms[i]) is None);
    }
    assert forall|i: int| 0 <= i < cms.len() implies is_lower_alnum_name((#[trigger] cms[i]).0.metadata.name@) by {
        assert(claim_problem(cms[i]) is None);
    }
    assert forall|i: int, k: int| 0 <= i < cms.len() && 0 <= k < var_keys(cms[i].0.spec.variables).len() implies {
        let key = #[trigger] var_keys(cms[i].0.spec.variables)[k];
        key == camel_case(key) && has_variable(cms[i].1, snake_case(key))
    } by {
        assert(claim_problem(cms[i]) is None);
        let keys = var_keys(cms[i].0.spec.variables);
        lemma_all_camel(keys);
        lemma_all_known(cms[i].1, keys);
        assert(keys[k] == camel_case(keys[k]));
        assert(has_variable(cms[i].1, snake_case(keys[k])));
    }
}

} // verus!
