//! The decisions of publishing a stack that read the stack's own settings: the provider code
//! that the stack's `locals` override, the module calls that the stack's own Terraform code
//! already makes, and the provider variables that the locals set.
use vstd::prelude::*;
use crate::blocks::{
    attr_models, block_model, block_models, copy_block, copy_blocks, copy_expr, copy_strings, expr_model, expr_models, lemma_attr_models,
    lemma_block_models, lemma_expr_models, strs_model, BlockModel, ExprModel, HclBlock,
};
use crate::casing::{camel_case, snake_case, to_camel_case, to_snake_case};
use crate::manifest::TfVariable;
use crate::publishing::{copies_of, copy_variable};
use crate::tfcode::var_like;
use crate::resolver::{expr_of, resolvable, string_result, HclExpr, StrExprView, TfInputResolver};
use crate::value::Value;
use crate::hcl_code::{format_terraform, hcl_blocks, hcl_text, heredoc_delimiter, parse_terraform};
use crate::provider_mgmt::{built, merge_terraform_ok};
use crate::manifest::{ErrorView, ModuleError};
use crate::provider_mgmt::TfProviderMgmt;

verus! {

/// The position of the first local named `key`.
pub open spec fn local_index(locals: Seq<(String, Value)>, key: Seq<char>, i: int) -> Option<int>
    decreases locals.len() - i,
{
    if i < 0 || i >= locals.len() {
        None
    } else if locals[i].0@ == key {
        Some(i)
    } else {
        local_index(locals, key, i + 1)
    }
}

proof fn lemma_local_index(locals: Seq<(String, Value)>, key: Seq<char>, i: int)
    requires
        0 <= i <= locals.len(),
    ensures
        match local_index(locals, key, i) {
            Some(j) => i <= j < locals.len() && locals[j].0@ == key && forall|q: int| i <= q < j ==> locals[q].0@ != key,
            None => forall|q: int| i <= q < locals.len() ==> locals[q].0@ != key,
        },
    decreases locals.len() - i,
{
    if i < locals.len() && locals[i].0@ != key {
        lemma_local_index(locals, key, i + 1);
    }
}

/// The data of the expression that a resolved string is.
pub open spec fn str_model(x: StrExprView) -> ExprModel {
    match x {
        StrExprView::Str(s) => ExprModel::Str(s),
        StrExprView::Traversal(root, attrs) => ExprModel::Traversal(root, attrs),
        StrExprView::Quoted(s) => ExprModel::Quoted(s),
        StrExprView::Heredoc(s) => ExprModel::Heredoc(s),
    }
}

/// The data of the expression that a value resolves to (see `expr_of`): null, booleans and
/// numbers as they are, strings as `string_result` says, lists and mappings part by part.
pub open spec fn resolved_model(v: Value, vars: Seq<Seq<char>>, outs: Seq<Seq<char>>) -> ExprModel
    decreases v,
{
    match v {
        Value::Null => ExprModel::Null,
        Value::Bool(b) => ExprModel::Bool(b),
        Value::Number(n) => ExprModel::Number(n@),
        Value::Text(t) => match string_result(t@, vars, outs) {
            Ok(x) => str_model(x),
            Err(_) => ExprModel::Null,
        },
        Value::List(items) => ExprModel::Array(resolved_items(items@, vars, outs)),
        Value::Object(entries) => ExprModel::Object(resolved_entries(entries@, vars, outs)),
    }
}

pub open spec fn resolved_items(items: Seq<Value>, vars: Seq<Seq<char>>, outs: Seq<Seq<char>>) -> Seq<ExprModel>
    decreases items,
{
    if items.len() == 0 {
        Seq::empty()
    } else {
        resolved_items(items.drop_last(), vars, outs).push(resolved_model(items.last(), vars, outs))
    }
}

pub open spec fn resolved_entries(entries: Seq<(String, Value)>, vars: Seq<Seq<char>>, outs: Seq<Seq<char>>) -> Seq<(Seq<char>, ExprModel)>
    decreases entries,
{
    if entries.len() == 0 {
        Seq::empty()
    } else {
        resolved_entries(entries.drop_last(), vars, outs).push((entries.last().0@, resolved_model(entries.last().1, vars, outs)))
    }
}

proof fn lemma_resolved_items(items: Seq<Value>, vars: Seq<Seq<char>>, outs: Seq<Seq<char>>)
    ensures
        resolved_items(items, vars, outs).len() == items.len(),
        forall|i: int| 0 <= i < items.len() ==> #[trigger] resolved_items(items, vars, outs)[i] == resolved_model(items[i], vars, outs),
    decreases items.len(),
{
    if items.len() > 0 {
        lemma_resolved_items(items.drop_last(), vars, outs);
    }
}

proof fn lemma_resolved_entries(entries: Seq<(String, Value)>, vars: Seq<Seq<char>>, outs: Seq<Seq<char>>)
    ensures
        resolved_entries(entries, vars, outs).len() == entries.len(),
        forall|i: int| 0 <= i < entries.len() ==> #[trigger] resolved_entries(entries, vars, outs)[i] == (entries[i].0@, resolved_model(entries[i].1, vars, outs)),
    decreases entries.len(),
{
    if entries.len() > 0 {
        lemma_resolved_entries(entries.drop_last(), vars, outs);
    }
}

/// An expression that a value resolves to has the data `resolved_model` says.
pub proof fn lemma_expr_of_model(v: Value, e: HclExpr, vars: Seq<Seq<char>>, outs: Seq<Seq<char>>)
    requires
        expr_of(v, e, vars, outs),
    ensures
        expr_model(e) == resolved_model(v, vars, outs),
    decreases v,
{
    match v {
        Value::Text(t) => {
            match e {
                HclExpr::Traversal(r, a) => {
                    assert(strs_model(a@) =~= crate::stack::strs_view(a@));
                },
                _ => {},
            }
        },
        Value::List(items) => {
            let es = e->Array_0;
            lemma_expr_models(es@);
            lemma_resolved_items(items@, vars, outs);
            assert forall|i: int| 0 <= i < items@.len() implies expr_models(es@)[i] == resolved_items(items@, vars, outs)[i] by {
                assert(expr_of(items@[i], es@[i], vars, outs));
                lemma_expr_of_model(items@[i], es@[i], vars, outs);
            }
            assert(expr_models(es@) =~= resolved_items(items@, vars, outs));
        },
        Value::Object(entries) => {
            let es = e->Object_0;
            lemma_attr_models(es@);
            lemma_resolved_entries(entries@, vars, outs);
            assert forall|i: int| 0 <= i < entries@.len() implies attr_models(es@)[i] == resolved_entries(entries@, vars, outs)[i] by {
                assert(expr_of(entries@[i].1, es@[i].1, vars, outs));
                lemma_expr_of_model(entries@[i].1, es@[i].1, vars, outs);
            }
            assert(attr_models(es@) =~= resolved_entries(entries@, vars, outs));
        },
        _ => {},
    }
}

/// Every attribute of `b` that a local names (by its camelCase name) resolves.
pub open spec fn locals_resolve(b: HclBlock, locals: Seq<(String, Value)>, vars: Seq<Seq<char>>, outs: Seq<Seq<char>>) -> bool {
    forall|i: int|
        0 <= i < b.attributes@.len() ==> match local_index(locals, camel_case((#[trigger] b.attributes@[i]).0@), 0) {
            Some(j) => resolvable(locals[j].1, vars, outs),
            None => true,
        }
}

/// `r` is the `locals` block `b` with each attribute that a local names set to the local's
/// resolved value, and the other attributes, the labels and the nested blocks kept.
pub open spec fn overridden_by_locals(
    r: HclBlock,
    b: HclBlock,
    locals: Seq<(String, Value)>,
    vars: Seq<Seq<char>>,
    outs: Seq<Seq<char>>,
) -> bool {
    &&& r.identifier@ == b.identifier@
    &&& strs_model(r.labels@) == strs_model(b.labels@)
    &&& block_models(r.blocks@) == block_models(b.blocks@)
    &&& r.attributes@.len() == b.attributes@.len()
    &&& forall|i: int|
        0 <= i < r.attributes@.len() ==> {
            &&& (#[trigger] r.attributes@[i]).0@ == b.attributes@[i].0@
            &&& match local_index(locals, camel_case(b.attributes@[i].0@), 0) {
                Some(j) => expr_of(locals[j].1, r.attributes@[i].1, vars, outs),
                None => expr_model(r.attributes@[i].1) == expr_model(b.attributes@[i].1),
            }
        }
}

fn find_local(locals: &Vec<(String, Value)>, key: &String) -> (r: Option<usize>)
    ensures
        match r {
            Some(j) => local_index(locals@, key@, 0) == Some(j as int),
            None => local_index(locals@, key@, 0) is None,
        },
{
    proof {
        lemma_local_index(locals@, key@, 0);
    }
    let mut i: usize = 0;
    while i < locals.len()
        invariant
            i <= locals@.len(),
            forall|q: int| 0 <= q < i ==> locals@[q].0@ != key@,
            local_index(locals@, key@, 0) == local_index(locals@, key@, i as int),
        decreases locals.len() - i,
    {
        if locals[i].0 == *key {
            return Some(i);
        }
        i = i + 1;
    }
    None
}

/// The `locals` block of a provider with the stack's locals put in (see `overridden_by_locals`).
fn override_locals(b: &HclBlock, locals: &Vec<(String, Value)>, resolver: &TfInputResolver) -> (r: HclBlock)
    requires
        locals_resolve(*b, locals@, resolver.vars(), resolver.outs()),
    ensures
        overridden_by_locals(r, *b, locals@, resolver.vars(), resolver.outs()),
{
    let mut attrs: Vec<(String, HclExpr)> = Vec::new();
    let mut i: usize = 0;
    while i < b.attributes.len()
        invariant
            i <= b.attributes@.len(),
            attrs@.len() == i,
            locals_resolve(*b, locals@, resolver.vars(), resolver.outs()),
            forall|q: int|
                0 <= q < i ==> {
                    &&& (#[trigger] attrs@[q]).0@ == b.attributes@[q].0@
                    &&& match local_index(locals@, camel_case(b.attributes@[q].0@), 0) {
                        Some(j) => expr_of(locals@[j].1, attrs@[q].1, resolver.vars(), resolver.outs()),
                        None => expr_model(attrs@[q].1) == expr_model(b.attributes@[q].1),
                    }
                },
        decreases b.attributes.len() - i,
    {
        let key = &b.attributes[i].0;
        let camel = to_camel_case(key.as_str());
        let e = match find_local(locals, &camel) {
            Some(j) => {
                proof {
                    lemma_local_index(locals@, camel@, 0);
                    assert(resolvable(locals@[j as int].1, resolver.vars(), resolver.outs())) by {
                        assert(b.attributes@[i as int].0@ == key@);
                    }
                }
                resolver.resolve_ref(&locals[j].1)
            },
            None => copy_expr(&b.attributes[i].1),
        };
        attrs.push((key.clone(), e));
        i = i + 1;
    }
    HclBlock {
        identifier: b.identifier.clone(),
        labels: copy_strings(&b.labels),
        attributes: attrs,
        blocks: copy_blocks(&b.blocks),
    }
}

/// The attributes of a `locals` block with each one that a local names (by its camelCase name)
/// set to the data of the local's resolved value.
pub open spec fn locals_attrs(
    attrs: Seq<(Seq<char>, ExprModel)>,
    locals: Seq<(String, Value)>,
    vars: Seq<Seq<char>>,
    outs: Seq<Seq<char>>,
) -> Seq<(Seq<char>, ExprModel)> {
    attrs.map_values(
        |a: (Seq<char>, ExprModel)|
            match local_index(locals, camel_case(a.0), 0) {
                Some(j) => (a.0, resolved_model(locals[j].1, vars, outs)),
                None => a,
            },
    )
}

/// The stack's locals, where it has any.
pub open spec fn opt_locals(locals: Option<Vec<(String, Value)>>) -> Option<Seq<(String, Value)>> {
    match locals {
        Some(ls) => Some(ls@),
        None => None,
    }
}

/// How the stack uses a block of a provider's code, as data: see `stack_provider_block`.
pub open spec fn provider_block_use(
    b: BlockModel,
    locals: Option<Seq<(String, Value)>>,
    vars: Seq<Seq<char>>,
    outs: Seq<Seq<char>>,
) -> Option<BlockModel> {
    match locals {
        None => Some(b),
        Some(ls) => if b.identifier == "variable"@ {
            if local_index(ls, camel_case(b.labels[0]), 0) is Some {
                None
            } else {
                Some(b)
            }
        } else if b.identifier == "locals"@ {
            Some(BlockModel { attributes: locals_attrs(b.attributes, ls, vars, outs), ..b })
        } else {
            Some(b)
        },
    }
}

proof fn lemma_overridden_model(
    r: HclBlock,
    b: HclBlock,
    locals: Seq<(String, Value)>,
    vars: Seq<Seq<char>>,
    outs: Seq<Seq<char>>,
)
    requires
        overridden_by_locals(r, b, locals, vars, outs),
    ensures
        block_model(r) == (BlockModel { attributes: locals_attrs(block_model(b).attributes, locals, vars, outs), ..block_model(b) }),
{
    lemma_attr_models(r.attributes@);
    lemma_attr_models(b.attributes@);
    let ra = attr_models(r.attributes@);
    let target = locals_attrs(attr_models(b.attributes@), locals, vars, outs);
    assert forall|i: int| 0 <= i < ra.len() implies ra[i] == target[i] by {
        assert(ra[i] == (r.attributes@[i].0@, expr_model(r.attributes@[i].1)));
        match local_index(locals, camel_case(b.attributes@[i].0@), 0) {
            Some(j) => {
                lemma_expr_of_model(locals[j].1, r.attributes@[i].1, vars, outs);
            },
            None => {},
        }
    }
    assert(ra =~= target);
}

/// How the stack uses a block of a provider's code: `None` where the block is left out. Without
/// locals every block is kept as it is. With locals, a `variable` block whose name (in
/// camelCase) is a local is left out, since the local sets it; a `locals` block gets the
/// stack's value for each of its attributes that a local names (see `overridden_by_locals`);
/// any other block is kept as it is.
pub fn stack_provider_block(
    block: &HclBlock,
    locals: &Option<Vec<(String, Value)>>,
    resolver: &TfInputResolver,
) -> (r: Option<HclBlock>)
    requires
        locals is Some && block.identifier@ == "variable"@ ==> block.labels@.len() > 0,
        locals is Some && block.identifier@ == "locals"@ ==> locals_resolve(
            *block,
            locals->Some_0@,
            resolver.vars(),
            resolver.outs(),
        ),
    ensures
        match locals {
            Some(ls) => if block.identifier@ == "variable"@ {
                if local_index(ls@, camel_case(block.labels@[0]@), 0) is Some {
                    r is None
                } else {
                    r is Some && block_model(r->Some_0) == block_model(*block)
                }
            } else if block.identifier@ == "locals"@ {
                r is Some && overridden_by_locals(r->Some_0, *block, ls@, resolver.vars(), resolver.outs())
            } else {
                r is Some && block_model(r->Some_0) == block_model(*block)
            },
            None => r is Some && block_model(r->Some_0) == block_model(*block),
        },
        match r {
            Some(x) => provider_block_use(block_model(*block), opt_locals(*locals), resolver.vars(), resolver.outs())
                == Some(block_model(x)),
            None => provider_block_use(block_model(*block), opt_locals(*locals), resolver.vars(), resolver.outs()) is None,
        },
{
    proof {
        reveal_strlit("variable");
        reveal_strlit("locals");
    }
    match locals {
        None => Some(copy_block(block)),
        Some(ls) => {
            if block.identifier == String::from_str("variable") {
                let camel = to_camel_case(block.labels[0].as_str());
                match find_local(ls, &camel) {
                    Some(_) => None,
                    None => Some(copy_block(block)),
                }
            } else if block.identifier == String::from_str("locals") {
                let r = override_locals(block, ls, resolver);
                proof {
                    lemma_overridden_model(r, *block, ls@, resolver.vars(), resolver.outs());
                }
                Some(r)
            } else {
                Some(copy_block(block))
            }
        },
    }
}

/// Some block among `root_modules` has `name` as a label.
pub open spec fn labelled_with(root_modules: Seq<HclBlock>, name: Seq<char>) -> bool {
    exists|i: int, j: int| 0 <= i < root_modules.len() && 0 <= j < root_modules[i].labels@.len() && (
    #[trigger] root_modules[i].labels@[j])@ == name
}

/// Whether the stack's own code already calls the module of the claim named `name`; such a
/// claim gets no module call of its own.
pub fn is_imported(name: &String, root_modules: &Vec<HclBlock>) -> (b: bool)
    ensures
        b == labelled_with(root_modules@, name@),
{
    let mut i: usize = 0;
    while i < root_modules.len()
        invariant
            i <= root_modules@.len(),
            forall|p: int, q: int|
                0 <= p < i && 0 <= q < root_modules@[p].labels@.len() ==> (#[trigger] root_modules@[p].labels@[q])@ != name@,
        decreases root_modules.len() - i,
    {
        let labels = &root_modules[i].labels;
        let mut j: usize = 0;
        while j < labels.len()
            invariant
                i < root_modules@.len(),
                *labels == root_modules@[i as int].labels,
                j <= labels@.len(),
                forall|q: int| 0 <= q < j ==> (#[trigger] labels@[q])@ != name@,
            decreases labels.len() - j,
        {
            if labels[j] == *name {
                assert(root_modules@[i as int].labels@[j as int]@ == name@);
                return true;
            }
            j = j + 1;
        }
        i = i + 1;
    }
    false
}

/// The names (in snake_case) of the variables that the stack's locals set.
pub open spec fn local_variable_names(locals: Seq<(String, Value)>) -> Seq<Seq<char>> {
    locals.map_values(|e: (String, Value)| snake_case(e.0@))
}

/// The variables, in order, but those whose names are in `removed`.
pub open spec fn kept_variables(vs: Seq<TfVariable>, removed: Seq<Seq<char>>) -> Seq<TfVariable>
    decreases vs.len(),
{
    if vs.len() == 0 {
        Seq::empty()
    } else if removed.contains(vs.last().name@) {
        kept_variables(vs.drop_last(), removed)
    } else {
        kept_variables(vs.drop_last(), removed).push(vs.last())
    }
}

/// A provider's variables without those that the stack's locals set: a local named in camelCase
/// sets the variable of the same name in snake_case.
pub fn without_local_variables(tf_variables: &Vec<TfVariable>, locals: &Vec<(String, Value)>) -> (r: Vec<TfVariable>)
    ensures
        copies_of(r@, kept_variables(tf_variables@, local_variable_names(locals@))),
{
    let ghost removed = local_variable_names(locals@);
    let mut names: Vec<String> = Vec::new();
    let mut k: usize = 0;
    while k < locals.len()
        invariant
            k <= locals@.len(),
            names@.len() == k,
            forall|q: int| 0 <= q < k ==> (#[trigger] names@[q])@ == snake_case(locals@[q].0@),
        decreases locals.len() - k,
    {
        names.push(to_snake_case(locals[k].0.as_str()));
        k = k + 1;
    }
    assert(strs_model(names@) =~= removed);
    let ghost vs = tf_variables@;
    let mut kept: Vec<TfVariable> = Vec::new();
    let mut i: usize = 0;
    while i < tf_variables.len()
        invariant
            vs == tf_variables@,
            i <= vs.len(),
            strs_model(names@) == removed,
            copies_of(kept@, kept_variables(vs.take(i as int), removed)),
        decreases tf_variables.len() - i,
    {
        assert(vs.take(i + 1).drop_last() =~= vs.take(i as int));
        assert(vs.take(i + 1).last() == vs[i as int]);
        let v = &tf_variables[i];
        if !contains_name(&names, &v.name) {
            let ghost before = kept@;
            let ghost target = kept_variables(vs.take(i as int), removed);
            kept.push(copy_variable(v));
            assert forall|q: int| 0 <= q < kept@.len() implies var_like(#[trigger] kept@[q], target.push(*v)[q], target.push(*v)[q].default) by {
                if q < before.len() {
                    assert(kept@[q] == before[q]);
                }
            }
        }
        i = i + 1;
    }
    assert(vs.take(vs.len() as int) =~= vs);
    kept
}

fn contains_name(names: &Vec<String>, n: &String) -> (b: bool)
    ensures
        b == strs_model(names@).contains(n@),
{
    let mut i: usize = 0;
    while i < names.len()
        invariant
            i <= names@.len(),
            forall|q: int| 0 <= q < i ==> names@[q]@ != n@,
        decreases names.len() - i,
    {
        if names[i] == *n {
            assert(strs_model(names@)[i as int] == n@);
            return true;
        }
        i = i + 1;
    }
    assert(!strs_model(names@).contains(n@)) by {
        if strs_model(names@).contains(n@) {
            let q = choose|q: int| 0 <= q < strs_model(names@).len() && strs_model(names@)[q] == n@;
            assert(names@[q]@ == n@);
        }
    }
    false
}

proof fn lemma_kept_variables_skip_removed(vs: Seq<TfVariable>, removed: Seq<Seq<char>>)
    ensures
        forall|i: int|
            0 <= i < kept_variables(vs, removed).len() ==> !removed.contains(
                (#[trigger] kept_variables(vs, removed)[i]).name@,
            ),
    decreases vs.len(),
{
    if vs.len() > 0 {
        lemma_kept_variables_skip_removed(vs.drop_last(), removed);
    }
}

/// A local of the stack replaces the provider variable that it names, on both sides of the
/// stack's code: for a local whose camelCase name comes back from its snake_case name, the
/// provider's `variable` block of that snake_case name is left out (see
/// `stack_provider_block`), and no variable of that name remains among the provider's variables
/// (see `without_local_variables`).
pub proof fn law_local_replaces_provider_variable(locals: Seq<(String, Value)>, vars: Seq<TfVariable>, k: int)
    requires
        0 <= k < locals.len(),
        camel_case(snake_case(locals[k].0@)) == locals[k].0@,
    ensures
        local_index(locals, camel_case(snake_case(locals[k].0@)), 0) is Some,
        forall|i: int|
            0 <= i < kept_variables(vars, local_variable_names(locals)).len() ==> (#[trigger] kept_variables(
                vars,
                local_variable_names(locals),
            )[i]).name@ != snake_case(locals[k].0@),
{
    lemma_local_index(locals, locals[k].0@, 0);
    let removed = local_variable_names(locals);
    assert(removed[k] == snake_case(locals[k].0@));
    assert(removed.contains(snake_case(locals[k].0@)));
    lemma_kept_variables_skip_removed(vars, removed);
}

/// Whether every attribute of `b` that a local names resolves (see `locals_resolve`).
pub fn locals_resolve_check(b: &HclBlock, locals: &Vec<(String, Value)>, resolver: &TfInputResolver) -> (ok: bool)
    ensures
        ok == locals_resolve(*b, locals@, resolver.vars(), resolver.outs()),
{
    let mut i: usize = 0;
    while i < b.attributes.len()
        invariant
            i <= b.attributes@.len(),
            forall|q: int|
                0 <= q < i ==> match local_index(locals@, camel_case((#[trigger] b.attributes@[q]).0@), 0) {
                    Some(j) => resolvable(locals@[j].1, resolver.vars(), resolver.outs()),
                    None => true,
                },
        decreases b.attributes.len() - i,
    {
        let camel = to_camel_case(b.attributes[i].0.as_str());
        match find_local(locals, &camel) {
            Some(j) => {
                proof {
                    lemma_local_index(locals@, camel@, 0);
                }
                if !resolver.value_resolves(&locals[j].1) {
                    assert(!locals_resolve(*b, locals@, resolver.vars(), resolver.outs())) by {
                        assert(b.attributes@[i as int].0@ == b.attributes[i as int].0@);
                    }
                    return false;
                }
            },
            None => {},
        }
        i = i + 1;
    }
    true
}

/// Every attribute of the block that a local names resolves (as `locals_resolve`, over data).
pub open spec fn locals_resolve_model(b: BlockModel, locals: Seq<(String, Value)>, vars: Seq<Seq<char>>, outs: Seq<Seq<char>>) -> bool {
    forall|i: int|
        0 <= i < b.attributes.len() ==> match local_index(locals, camel_case((#[trigger] b.attributes[i]).0), 0) {
            Some(j) => resolvable(locals[j].1, vars, outs),
            None => true,
        }
}

proof fn lemma_locals_resolve_model(b: HclBlock, locals: Seq<(String, Value)>, vars: Seq<Seq<char>>, outs: Seq<Seq<char>>)
    ensures
        locals_resolve(b, locals, vars, outs) == locals_resolve_model(block_model(b), locals, vars, outs),
{
    lemma_attr_models(b.attributes@);
    let am = attr_models(b.attributes@);
    if locals_resolve(b, locals, vars, outs) {
        assert forall|i: int| 0 <= i < am.len() implies match local_index(locals, camel_case((#[trigger] am[i]).0), 0) {
            Some(j) => resolvable(locals[j].1, vars, outs),
            None => true,
        } by {
            assert(am[i].0 == b.attributes@[i].0@);
        }
    }
    if locals_resolve_model(block_model(b), locals, vars, outs) {
        assert forall|i: int| 0 <= i < b.attributes@.len() implies match local_index(locals, camel_case((#[trigger] b.attributes@[i]).0@), 0) {
            Some(j) => resolvable(locals[j].1, vars, outs),
            None => true,
        } by {
            assert(am[i].0 == b.attributes@[i].0@);
        }
    }
}

/// Why the stack cannot use a block of a provider's code, where it has locals: a `variable`
/// without a name, or a `locals` block with a local that does not resolve.
pub open spec fn block_problem(
    b: BlockModel,
    locals: Option<Seq<(String, Value)>>,
    vars: Seq<Seq<char>>,
    outs: Seq<Seq<char>>,
) -> Option<Seq<char>> {
    match locals {
        None => None,
        Some(ls) => if b.identifier == "variable"@ && b.labels.len() == 0 {
            Some("a provider variable has no name"@)
        } else if b.identifier == "locals"@ && !locals_resolve_model(b, ls, vars, outs) {
            Some("a local does not resolve"@)
        } else {
            None
        },
    }
}

/// The blocks of one provider text as the stack uses them (see `provider_block_use`), or the
/// first block's problem.
pub open spec fn text_use(
    bs: Seq<BlockModel>,
    locals: Option<Seq<(String, Value)>>,
    vars: Seq<Seq<char>>,
    outs: Seq<Seq<char>>,
) -> Result<Seq<BlockModel>, Seq<char>>
    decreases bs.len(),
{
    if bs.len() == 0 {
        Ok(Seq::empty())
    } else {
        match text_use(bs.drop_last(), locals, vars, outs) {
            Err(p) => Err(p),
            Ok(used) => match block_problem(bs.last(), locals, vars, outs) {
                Some(p) => Err(p),
                None => Ok(
                    match provider_block_use(bs.last(), locals, vars, outs) {
                        Some(x) => used.push(x),
                        None => used,
                    },
                ),
            },
        }
    }
}

/// The blocks of the provider texts, one after the other, as the stack uses them; the first
/// text that hcl-rs cannot read is an `UnreadableTerraform` error, the first block problem an
/// `InvalidTerraformCode` error.
pub open spec fn providers_use(
    texts: Seq<String>,
    locals: Option<Seq<(String, Value)>>,
    vars: Seq<Seq<char>>,
    outs: Seq<Seq<char>>,
) -> Result<Seq<BlockModel>, ErrorView>
    decreases texts.len(),
{
    if texts.len() == 0 {
        Ok(Seq::empty())
    } else {
        match providers_use(texts.drop_last(), locals, vars, outs) {
            Err(e) => Err(e),
            Ok(used) => match hcl_blocks(texts.last()@) {
                None => Err(ErrorView::UnreadableTerraform("provider"@)),
                Some(bs) => match text_use(bs, locals, vars, outs) {
                    Err(p) => Err(ErrorView::InvalidTerraformCode(p)),
                    Ok(u) => Ok(used + u),
                },
            },
        }
    }
}

proof fn lemma_text_use_prefix(bs: Seq<BlockModel>, locals: Option<Seq<(String, Value)>>, vars: Seq<Seq<char>>, outs: Seq<Seq<char>>, k: int)
    requires
        0 <= k <= bs.len(),
        text_use(bs.take(k), locals, vars, outs) is Err,
    ensures
        text_use(bs, locals, vars, outs) == text_use(bs.take(k), locals, vars, outs),
    decreases bs.len(),
{
    if k < bs.len() {
        assert(bs.drop_last().take(k) =~= bs.take(k));
        lemma_text_use_prefix(bs.drop_last(), locals, vars, outs, k);
    } else {
        assert(bs.take(k) =~= bs);
    }
}

proof fn lemma_providers_use_prefix(texts: Seq<String>, locals: Option<Seq<(String, Value)>>, vars: Seq<Seq<char>>, outs: Seq<Seq<char>>, k: int)
    requires
        0 <= k <= texts.len(),
        providers_use(texts.take(k), locals, vars, outs) is Err,
    ensures
        providers_use(texts, locals, vars, outs) == providers_use(texts.take(k), locals, vars, outs),
    decreases texts.len(),
{
    if k < texts.len() {
        assert(texts.drop_last().take(k) =~= texts.take(k));
        lemma_providers_use_prefix(texts.drop_last(), locals, vars, outs, k);
    } else {
        assert(texts.take(k) =~= texts);
    }
}

/// The blocks that are not `module` blocks, in order.
pub open spec fn non_module_blocks(bs: Seq<BlockModel>) -> Seq<BlockModel>
    decreases bs.len(),
{
    if bs.len() == 0 {
        Seq::empty()
    } else if bs.last().identifier == "module"@ {
        non_module_blocks(bs.drop_last())
    } else {
        non_module_blocks(bs.drop_last()).push(bs.last())
    }
}

/// The `module` blocks, in order.
pub open spec fn module_blocks_in(bs: Seq<BlockModel>) -> Seq<BlockModel>
    decreases bs.len(),
{
    if bs.len() == 0 {
        Seq::empty()
    } else if bs.last().identifier == "module"@ {
        module_blocks_in(bs.drop_last()).push(bs.last())
    } else {
        module_blocks_in(bs.drop_last())
    }
}

/// Some block has `name` as a label.
pub open spec fn labelled(bs: Seq<BlockModel>, name: Seq<char>) -> bool {
    exists|i: int, j: int| 0 <= i < bs.len() && 0 <= j < bs[i].labels.len() && #[trigger] bs[i].labels[j] == name
}

proof fn lemma_labelled(hs: Seq<HclBlock>, name: Seq<char>)
    ensures
        labelled_with(hs, name) == labelled(block_models(hs), name),
{
    lemma_block_models(hs);
    let bm = block_models(hs);
    if labelled_with(hs, name) {
        let (i, j) = choose|i: int, j: int| 0 <= i < hs.len() && 0 <= j < hs[i].labels@.len() && (#[trigger] hs[i].labels@[j])@ == name;
        assert(bm[i] == block_model(hs[i]));
        assert(bm[i].labels[j] == hs[i].labels@[j]@);
    }
    if labelled(bm, name) {
        let (i, j) = choose|i: int, j: int| 0 <= i < bm.len() && 0 <= j < bm[i].labels.len() && #[trigger] bm[i].labels[j] == name;
        assert(bm[i] == block_model(hs[i]));
        assert(bm[i].labels[j] == hs[i].labels@[j]@);
    }
}

/// The claims' module calls that the stack's own code does not make already, in order.
pub open spec fn calls_not_imported(calls: Seq<(String, HclBlock)>, imported: Seq<BlockModel>) -> Seq<BlockModel>
    decreases calls.len(),
{
    if calls.len() == 0 {
        Seq::empty()
    } else if labelled(imported, calls.last().0@) {
        calls_not_imported(calls.drop_last(), imported)
    } else {
        calls_not_imported(calls.drop_last(), imported).push(block_model(calls.last().1))
    }
}

/// The collected code of a stack's root module: the stack's own blocks but its module calls,
/// the providers' blocks as the stack uses them, its variable blocks, then its output blocks.
pub open spec fn stack_root_model(
    stack_blocks: Seq<BlockModel>,
    used: Seq<BlockModel>,
    variable_blocks: Seq<BlockModel>,
    output_blocks: Seq<BlockModel>,
) -> crate::provider_mgmt::MgmtModel {
    crate::merge_laws::collected(non_module_blocks(stack_blocks) + used + variable_blocks + output_blocks)
}

/// A stack's root module as code and as text.
pub struct StackRootCode {
    /// The blocks of the stack's own Terraform text.
    pub stack_blocks: Vec<HclBlock>,
    /// The module calls: those of the stack's own code, then those of its claims that it does
    /// not make already.
    pub module_calls: Vec<HclBlock>,
    /// The collected code built (`providers.tf`).
    pub providers: Vec<HclBlock>,
    pub providers_text: String,
    pub main_text: String,
}

fn add_all(mgmt: &mut TfProviderMgmt, bs: &Vec<HclBlock>, Ghost(base): Ghost<Seq<BlockModel>>)
    requires
        old(mgmt)@ == crate::merge_laws::collected(base),
    ensures
        final(mgmt)@ == crate::merge_laws::collected(base + block_models(bs@)),
{
    let ghost bm = block_models(bs@);
    proof {
        lemma_block_models(bs@);
    }
    assert(base + bm.take(0) =~= base);
    let mut i: usize = 0;
    while i < bs.len()
        invariant
            i <= bs@.len(),
            bm == block_models(bs@),
            bm.len() == bs@.len(),
            forall|q: int| 0 <= q < bs@.len() ==> #[trigger] bm[q] == block_model(bs@[q]),
            mgmt@ == crate::merge_laws::collected(base + bm.take(i as int)),
        decreases bs.len() - i,
    {
        mgmt.add_block(&bs[i]);
        assert((base + bm.take(i + 1)).drop_last() =~= base + bm.take(i as int));
        assert((base + bm.take(i + 1)).last() == block_model(bs@[i as int]));
        i = i + 1;
    }
    assert(bm.take(bm.len() as int) =~= bm);
}

/// The root module of a stack from texts, as hcl-rs reads them: the stack's own Terraform code
/// (`stack_tf`), whose module blocks stay module calls, and the providers' code, each block as
/// the stack uses it (see `providers_use`); with the stack's variable and output blocks this is
/// the collected code (`stack_root_model`), built. The module calls are the stack's own, then
/// those of its claims (`claim_calls`, by claim name) that its code does not make already. Both
/// parts are written as hcl-rs writes them (`hcl_text`). Unreadable code is an
/// `UnreadableTerraform` error, a problem of a provider block an `InvalidTerraformCode` error,
/// and so is a provider required again without a version.
pub fn stack_root_code(
    stack_tf: &str,
    provider_tfs: &Vec<String>,
    locals: &Option<Vec<(String, Value)>>,
    resolver: &TfInputResolver,
    variable_blocks: &Vec<HclBlock>,
    output_blocks: &Vec<HclBlock>,
    claim_calls: &Vec<(String, HclBlock)>,
) -> (r: Result<StackRootCode, ModuleError>)
    ensures
        match hcl_blocks(stack_tf@) {
            None => r matches Err(e) && e@ == ErrorView::UnreadableTerraform("stack"@),
            Some(sbs) => match providers_use(provider_tfs@, opt_locals(*locals), resolver.vars(), resolver.outs()) {
                Err(x) => r matches Err(e) && e@ == x,
                Ok(used) => {
                    let m = stack_root_model(sbs, used, block_models(variable_blocks@), block_models(output_blocks@));
                    if !merge_terraform_ok(m.terraform) {
                        r matches Err(e) && e@ == ErrorView::InvalidTerraformCode("a provider is required again without a version"@)
                    } else {
                        r is Ok && {
                            let c = r->Ok_0;
                            &&& block_models(c.stack_blocks@) == sbs
                            &&& block_models(c.providers@) == built(m)
                            &&& block_models(c.module_calls@) == module_blocks_in(sbs) + calls_not_imported(claim_calls@, module_blocks_in(sbs))
                            &&& c.providers_text@ == hcl_text(block_models(c.providers@), heredoc_delimiter())
                            &&& c.main_text@ == hcl_text(block_models(c.module_calls@), heredoc_delimiter())
                        }
                    }
                },
            },
        },
{
    proof {
        reveal_strlit("module");
        reveal_strlit("variable");
        reveal_strlit("locals");
    }
    let ghost vars = resolver.vars();
    let ghost outs = resolver.outs();
    let ghost ol = opt_locals(*locals);
    let stack_blocks = match parse_terraform(stack_tf) {
        None => {
            return Err(ModuleError::UnreadableTerraform(String::from_str("stack")));
        },
        Some(bs) => bs,
    };
    let ghost sbs = block_models(stack_blocks@);
    proof {
        lemma_block_models(stack_blocks@);
    }
    let mut mgmt = TfProviderMgmt::new();
    let mut imported: Vec<HclBlock> = Vec::new();
    assert(block_models(imported@) =~= Seq::<BlockModel>::empty());
    assert(crate::merge_laws::collected(Seq::<BlockModel>::empty()) == mgmt@);
    let mut i: usize = 0;
    while i < stack_blocks.len()
        invariant
            i <= stack_blocks@.len(),
            sbs == block_models(stack_blocks@),
            sbs.len() == stack_blocks@.len(),
            forall|q: int| 0 <= q < stack_blocks@.len() ==> #[trigger] sbs[q] == block_model(stack_blocks@[q]),
            block_models(imported@) == module_blocks_in(sbs.take(i as int)),
            mgmt@ == crate::merge_laws::collected(non_module_blocks(sbs.take(i as int))),
        decreases stack_blocks.len() - i,
    {
        assert(sbs.take(i + 1).drop_last() =~= sbs.take(i as int));
        assert(sbs.take(i + 1).last() == sbs[i as int]);
        if stack_blocks[i].identifier == String::from_str("module") {
            let ghost before = imported@;
            imported.push(copy_block(&stack_blocks[i]));
            assert(imported@.drop_last() =~= before);
            assert(block_models(imported@) == block_models(before).push(block_model(stack_blocks@[i as int])));
        } else {
            mgmt.add_block(&stack_blocks[i]);
            assert(non_module_blocks(sbs.take(i + 1)).drop_last() =~= non_module_blocks(sbs.take(i as int)));
        }
        i = i + 1;
    }
    assert(sbs.take(sbs.len() as int) =~= sbs);
    let ghost nm = non_module_blocks(sbs);
    let ghost mut used: Seq<BlockModel> = Seq::empty();
    assert(nm + used =~= nm);
    assert(provider_tfs@.take(0) =~= Seq::<String>::empty());
    let mut t: usize = 0;
    while t < provider_tfs.len()
        invariant
            t <= provider_tfs@.len(),
            hcl_blocks(stack_tf@) == Some(sbs),
            nm == non_module_blocks(sbs),
            vars == resolver.vars(),
            outs == resolver.outs(),
            ol == opt_locals(*locals),
            providers_use(provider_tfs@.take(t as int), ol, vars, outs) == Ok::<Seq<BlockModel>, ErrorView>(used),
            mgmt@ == crate::merge_laws::collected(nm + used),
            block_models(imported@) == module_blocks_in(sbs),
        decreases provider_tfs.len() - t,
    {
        assert(provider_tfs@.take(t + 1).drop_last() =~= provider_tfs@.take(t as int));
        assert(provider_tfs@.take(t + 1).last() == provider_tfs@[t as int]);
        let blocks = match parse_terraform(provider_tfs[t].as_str()) {
            None => {
                proof {
                    lemma_providers_use_prefix(provider_tfs@, ol, vars, outs, t + 1);
                }
                return Err(ModuleError::UnreadableTerraform(String::from_str("provider")));
            },
            Some(bs) => bs,
        };
        let ghost bm = block_models(blocks@);
        proof {
            lemma_block_models(blocks@);
        }
        let ghost mut u: Seq<BlockModel> = Seq::empty();
        assert(bm.take(0) =~= Seq::<BlockModel>::empty());
        assert(nm + used + u =~= nm + used);
        let mut j: usize = 0;
        while j < blocks.len()
            invariant
                j <= blocks@.len(),
                bm == block_models(blocks@),
                bm.len() == blocks@.len(),
                forall|q: int| 0 <= q < blocks@.len() ==> #[trigger] bm[q] == block_model(blocks@[q]),
                vars == resolver.vars(),
                outs == resolver.outs(),
                ol == opt_locals(*locals),
                text_use(bm.take(j as int), ol, vars, outs) == Ok::<Seq<BlockModel>, Seq<char>>(u),
                mgmt@ == crate::merge_laws::collected(nm + used + u),
                hcl_blocks(provider_tfs@[t as int]@) == Some(bm),
                providers_use(provider_tfs@.take(t as int), ol, vars, outs) == Ok::<Seq<BlockModel>, ErrorView>(used),
                provider_tfs@.take(t + 1).drop_last() == provider_tfs@.take(t as int),
                provider_tfs@.take(t + 1).last() == provider_tfs@[t as int],
                t < provider_tfs@.len(),
                hcl_blocks(stack_tf@) == Some(sbs),
            decreases blocks.len() - j,
        {
            assert(bm.take(j + 1).drop_last() =~= bm.take(j as int));
            assert(bm.take(j + 1).last() == bm[j as int]);
            let b = &blocks[j];
            match locals {
                Some(ls) => {
                    if b.identifier == String::from_str("variable") && b.labels.len() == 0 {
                        proof {
                            assert(block_problem(bm[j as int], ol, vars, outs) == Some("a provider variable has no name"@));
                            lemma_text_use_prefix(bm, ol, vars, outs, j + 1);
                            assert(text_use(bm, ol, vars, outs) == Err::<Seq<BlockModel>, Seq<char>>("a provider variable has no name"@));
                            assert(providers_use(provider_tfs@.take(t + 1), ol, vars, outs) == Err::<Seq<BlockModel>, ErrorView>(
                                ErrorView::InvalidTerraformCode("a provider variable has no name"@),
                            ));
                            lemma_providers_use_prefix(provider_tfs@, ol, vars, outs, t + 1);
                        }
                        return Err(ModuleError::InvalidTerraformCode(String::from_str("a provider variable has no name")));
                    }
                    if b.identifier == String::from_str("locals") && !locals_resolve_check(b, ls, resolver) {
                        proof {
                            lemma_locals_resolve_model(*b, ls@, vars, outs);
                            assert(block_problem(bm[j as int], ol, vars, outs) == Some("a local does not resolve"@));
                            lemma_text_use_prefix(bm, ol, vars, outs, j + 1);
                            assert(text_use(bm, ol, vars, outs) == Err::<Seq<BlockModel>, Seq<char>>("a local does not resolve"@));
                            assert(providers_use(provider_tfs@.take(t + 1), ol, vars, outs) == Err::<Seq<BlockModel>, ErrorView>(
                                ErrorView::InvalidTerraformCode("a local does not resolve"@),
                            ));
                            lemma_providers_use_prefix(provider_tfs@, ol, vars, outs, t + 1);
                        }
                        return Err(ModuleError::InvalidTerraformCode(String::from_str("a local does not resolve")));
                    }
                    proof {
                        if b.identifier@ == "locals"@ {
                            lemma_locals_resolve_model(*b, ls@, vars, outs);
                        }
                    }
                },
                None => {},
            }
            assert(block_problem(bm[j as int], ol, vars, outs) is None);
            match stack_provider_block(b, locals, resolver) {
                Some(x) => {
                    mgmt.add_block(&x);
                    proof {
                        assert((nm + used + u.push(block_model(x))).drop_last() =~= nm + used + u);
                        u = u.push(block_model(x));
                    }
                },
                None => {},
            }
            j = j + 1;
        }
        assert(bm.take(bm.len() as int) =~= bm);
        proof {
            assert(nm + (used + u) =~= nm + used + u);
            used = used + u;
        }
        t = t + 1;
    }
    assert(provider_tfs@.take(provider_tfs@.len() as int) =~= provider_tfs@);
    add_all(&mut mgmt, variable_blocks, Ghost(nm + used));
    add_all(&mut mgmt, output_blocks, Ghost(nm + used + block_models(variable_blocks@)));
    let ghost imported_view = module_blocks_in(sbs);
    let mut calls = copy_blocks(&imported);
    assert(imported_view + calls_not_imported(claim_calls@.take(0), imported_view) =~= imported_view);
    let mut c: usize = 0;
    while c < claim_calls.len()
        invariant
            c <= claim_calls@.len(),
            block_models(imported@) == imported_view,
            block_models(calls@) == imported_view + calls_not_imported(claim_calls@.take(c as int), imported_view),
        decreases claim_calls.len() - c,
    {
        assert(claim_calls@.take(c + 1).drop_last() =~= claim_calls@.take(c as int));
        assert(claim_calls@.take(c + 1).last() == claim_calls@[c as int]);
        proof {
            lemma_labelled(imported@, claim_calls@[c as int].0@);
        }
        if !is_imported(&claim_calls[c].0, &imported) {
            let ghost before = calls@;
            let copied = copy_block(&claim_calls[c].1);
            calls.push(copied);
            assert(calls@.drop_last() =~= before);
            assert(block_models(calls@) == block_models(before).push(block_model(claim_calls@[c as int].1)));
            assert(imported_view + calls_not_imported(claim_calls@.take(c + 1), imported_view) =~= (imported_view
                + calls_not_imported(claim_calls@.take(c as int), imported_view)).push(block_model(claim_calls@[c as int].1)));
        }
        c = c + 1;
    }
    assert(claim_calls@.take(claim_calls@.len() as int) =~= claim_calls@);
    if !mgmt.terraform_merges() {
        return Err(
            ModuleError::InvalidTerraformCode(
                String::from_str("a provider is required again without a version"),
            ),
        );
    }
    let providers = mgmt.build();
    let providers_text = format_terraform(&providers);
    let main_text = format_terraform(&calls);
    Ok(StackRootCode { stack_blocks, module_calls: calls, providers, providers_text, main_text })
}

} // verus!
