//! Properties of merging: Terraform code collected into a root module, provider requirements,
//! and variable mappings never hold two entries of the same identity, and adding the same block
//! twice changes nothing more than adding it once.
use vstd::prelude::*;
use crate::blocks::{BlockModel, ExprModel};
use crate::mapping::{key_index, lemma_key_index, model_insert, model_lookup, split_once, variable_mapping};
use crate::provider_mgmt::{
    add_block_model, add_local_attrs, add_locals, add_provider, add_terraform, add_unique, alias_of,
    built, labels_taken, locals_blocks, merge_attrs, merge_blocks, merge_terraform, provider_step, provider_taken,
    terraform_blocks, MgmtModel,
};
use crate::value::ValueModel;

verus! {

/// No two entries have the same key.
pub open spec fn distinct_keys<V>(m: Seq<(Seq<char>, V)>) -> bool {
    forall|i: int, j: int| 0 <= i < j < m.len() ==> m[i].0 != m[j].0
}

/// No two blocks have the same labels.
pub open spec fn distinct_labels(bs: Seq<BlockModel>) -> bool {
    forall|i: int, j: int| 0 <= i < j < bs.len() ==> bs[i].labels != bs[j].labels
}

/// No two provider configurations are of the same provider with the same alias.
pub open spec fn distinct_providers(ps: Seq<BlockModel>) -> bool {
    forall|i: int, j: int| 0 <= i < j < ps.len() ==> !(ps[i].labels == ps[j].labels && alias_of(ps[i]) == alias_of(ps[j]))
}

/// The merged code holds each variable, output, data source, provider configuration and local
/// once.
pub open spec fn merged_unique(m: MgmtModel) -> bool {
    &&& distinct_labels(m.variables)
    &&& distinct_labels(m.output)
    &&& distinct_labels(m.data)
    &&& distinct_providers(m.providers)
    &&& distinct_keys(m.locals)
}

proof fn lemma_key_index_none<V>(m: Seq<(Seq<char>, V)>, k: Seq<char>, i: int)
    requires
        0 <= i,
        key_index(m, k, i) is None,
    ensures
        forall|j: int| i <= j < m.len() ==> m[j].0 != k,
    decreases m.len() - i,
{
    if i < m.len() {
        lemma_key_index_none(m, k, i + 1);
    }
}

proof fn lemma_key_index_found<V>(m: Seq<(Seq<char>, V)>, k: Seq<char>, q: int)
    requires
        0 <= q < m.len(),
        m[q].0 == k,
    ensures
        key_index(m, k, 0) is Some,
{
    if key_index(m, k, 0) is None {
        lemma_key_index_none(m, k, 0);
    }
}

proof fn lemma_insert_distinct<V>(m: Seq<(Seq<char>, V)>, k: Seq<char>, v: V)
    requires
        distinct_keys(m),
    ensures
        distinct_keys(model_insert(m, k, v)),
{
    lemma_key_index(m, k, 0);
    match key_index(m, k, 0) {
        Some(q) => {
            let r = m.update(q, (k, v));
            assert forall|i: int, j: int| 0 <= i < j < r.len() implies r[i].0 != r[j].0 by {
                assert(r[i].0 == m[i].0);
                assert(r[j].0 == m[j].0);
            }
        },
        None => {
            lemma_key_index_none(m, k, 0);
        },
    }
}

proof fn lemma_update_same_key_distinct<V>(m: Seq<(Seq<char>, V)>, q: int, e: (Seq<char>, V))
    requires
        distinct_keys(m),
        0 <= q < m.len(),
        e.0 == m[q].0,
    ensures
        distinct_keys(m.update(q, e)),
{
    let r = m.update(q, e);
    assert forall|i: int, j: int| 0 <= i < j < r.len() implies r[i].0 != r[j].0 by {
        assert(r[i].0 == m[i].0);
        assert(r[j].0 == m[j].0);
    }
}

/// The variables a deployment is keyed by hold each key once.
pub proof fn law_variable_mapping_keys_distinct(is_stack: bool, es: Seq<(Seq<char>, ValueModel)>)
    ensures
        distinct_keys(variable_mapping(is_stack, es)),
    decreases es.len(),
{
    if es.len() > 0 {
        law_variable_mapping_keys_distinct(is_stack, es.drop_last());
        let acc = variable_mapping(is_stack, es.drop_last());
        let (k, v) = es.last();
        match split_once(k) {
            Some((claim, var)) => {
                if is_stack {
                    match model_lookup(acc, claim) {
                        None => lemma_insert_distinct(acc, claim, ValueModel::Object(seq![(crate::casing::camel_case(var), v)])),
                        Some(ValueModel::Object(inner)) => lemma_insert_distinct(
                            acc,
                            claim,
                            ValueModel::Object(model_insert(inner, crate::casing::camel_case(var), v)),
                        ),
                        Some(_) => {},
                    }
                } else {
                    lemma_insert_distinct(acc, crate::casing::camel_case(k), v);
                }
            },
            None => lemma_insert_distinct(acc, crate::casing::camel_case(k), v),
        }
    }
}

proof fn lemma_provider_step_distinct(acc: Seq<(Seq<char>, ExprModel)>, a: (Seq<char>, ExprModel))
    requires
        distinct_keys(acc),
    ensures
        distinct_keys(provider_step(acc, a)),
{
    lemma_key_index(acc, a.0, 0);
    match a.1 {
        ExprModel::Object(map) => match key_index(acc, a.0, 0) {
            Some(q) => match acc[q].1 {
                ExprModel::Object(m) => lemma_update_same_key_distinct(
                    acc,
                    q,
                    (a.0, ExprModel::Object(crate::provider_mgmt::merge_provider(m, map))),
                ),
                _ => {},
            },
            None => {
                lemma_key_index_none(acc, a.0, 0);
            },
        },
        _ => {},
    }
}

proof fn lemma_merge_attrs_distinct(acc: Seq<(Seq<char>, ExprModel)>, attrs: Seq<(Seq<char>, ExprModel)>)
    requires
        distinct_keys(acc),
    ensures
        distinct_keys(merge_attrs(acc, attrs)),
    decreases attrs.len(),
{
    if attrs.len() > 0 {
        lemma_merge_attrs_distinct(acc, attrs.drop_last());
        lemma_provider_step_distinct(merge_attrs(acc, attrs.drop_last()), attrs.last());
    }
}

proof fn lemma_merge_blocks_distinct(acc: Seq<(Seq<char>, ExprModel)>, bs: Seq<BlockModel>)
    requires
        distinct_keys(acc),
    ensures
        distinct_keys(merge_blocks(acc, bs)),
    decreases bs.len(),
{
    if bs.len() > 0 {
        lemma_merge_blocks_distinct(acc, bs.drop_last());
        if bs.last().identifier == "required_providers"@ {
            lemma_merge_attrs_distinct(merge_blocks(acc, bs.drop_last()), bs.last().attributes);
        }
    }
}

/// The merged provider requirements name each provider once.
pub proof fn law_required_providers_distinct(ts: Seq<BlockModel>)
    ensures
        distinct_keys(merge_terraform(ts)),
    decreases ts.len(),
{
    if ts.len() > 0 {
        law_required_providers_distinct(ts.drop_last());
        lemma_merge_blocks_distinct(merge_terraform(ts.drop_last()), ts.last().blocks);
    }
}

proof fn lemma_add_unique_distinct(t: Seq<BlockModel>, id: Seq<char>, b: BlockModel)
    requires
        distinct_labels(t),
    ensures
        distinct_labels(add_unique(t, id, b)),
{
    if !(b.identifier != id || labels_taken(t, b.labels)) {
        let r = t.push(b);
        assert forall|i: int, j: int| 0 <= i < j < r.len() implies r[i].labels != r[j].labels by {
            if j == t.len() {
                if r[i].labels == b.labels {
                    assert(t[i].labels == b.labels);
                    assert(labels_taken(t, b.labels));
                }
            }
        }
    }
}

proof fn lemma_add_local_attrs_distinct(ls: Seq<(Seq<char>, ExprModel)>, attrs: Seq<(Seq<char>, ExprModel)>)
    requires
        distinct_keys(ls),
    ensures
        distinct_keys(add_local_attrs(ls, attrs)),
    decreases attrs.len(),
{
    if attrs.len() > 0 {
        lemma_add_local_attrs_distinct(ls, attrs.drop_last());
        let prev = add_local_attrs(ls, attrs.drop_last());
        if key_index(prev, attrs.last().0, 0) is None {
            lemma_key_index_none(prev, attrs.last().0, 0);
        }
    }
}

/// Adding a block keeps the merged code free of duplicates: each variable, output and data
/// source once by its labels, each provider configuration once by its labels and alias, and
/// each local once by its name.
pub proof fn law_merged_code_stays_unique(m: MgmtModel, b: BlockModel)
    requires
        merged_unique(m),
    ensures
        merged_unique(add_block_model(m, b)),
{
    lemma_add_unique_distinct(m.variables, "variable"@, b);
    lemma_add_unique_distinct(m.output, "output"@, b);
    lemma_add_unique_distinct(m.data, "data"@, b);
    if b.identifier == "locals"@ {
        lemma_add_local_attrs_distinct(m.locals, b.attributes);
    }
    let ps = m.providers;
    if !(b.identifier != "provider"@ || provider_taken(ps, b)) {
        let r = ps.push(b);
        assert forall|i: int, j: int| 0 <= i < j < r.len() implies !(r[i].labels == r[j].labels && alias_of(r[i]) == alias_of(r[j])) by {
            if j == ps.len() {
                if r[i].labels == b.labels && alias_of(r[i]) == alias_of(b) {
                    assert(ps[i] == r[i]);
                    assert(provider_taken(ps, b));
                }
            }
        }
    }
}

proof fn lemma_key_index_push<V>(m: Seq<(Seq<char>, V)>, k: Seq<char>, e: (Seq<char>, V))
    requires
        key_index(m, k, 0) is Some,
    ensures
        key_index(m.push(e), k, 0) is Some,
{
    lemma_key_index(m, k, 0);
    let q = key_index(m, k, 0)->Some_0;
    assert(m.push(e)[q] == m[q]);
    lemma_key_index_found(m.push(e), k, q);
}

/// After the locals of a block are added, each of their names is present.
proof fn lemma_add_local_attrs_present(ls: Seq<(Seq<char>, ExprModel)>, attrs: Seq<(Seq<char>, ExprModel)>, k: Seq<char>)
    requires
        key_index(ls, k, 0) is Some || exists|i: int| 0 <= i < attrs.len() && attrs[i].0 == k,
    ensures
        key_index(add_local_attrs(ls, attrs), k, 0) is Some,
    decreases attrs.len(),
{
    if attrs.len() > 0 {
        let prev = add_local_attrs(ls, attrs.drop_last());
        if key_index(ls, k, 0) is Some || exists|i: int| 0 <= i < attrs.drop_last().len() && attrs.drop_last()[i].0 == k {
            lemma_add_local_attrs_present(ls, attrs.drop_last(), k);
            if key_index(prev, attrs.last().0, 0) is None {
                lemma_key_index_push(prev, k, attrs.last());
            }
        } else {
            let i = choose|i: int| 0 <= i < attrs.len() && attrs[i].0 == k;
            if i < attrs.len() - 1 {
                assert(attrs.drop_last()[i].0 == k);
            }
            assert(attrs.last().0 == k);
            if key_index(prev, k, 0) is None {
                let r = prev.push(attrs.last());
                assert(r[prev.len() as int].0 == k);
                lemma_key_index_found(r, k, prev.len() as int);
            }
        }
    }
}

/// Adding locals whose names are all present changes nothing.
proof fn lemma_add_local_attrs_present_noop(ls: Seq<(Seq<char>, ExprModel)>, attrs: Seq<(Seq<char>, ExprModel)>)
    requires
        forall|i: int| 0 <= i < attrs.len() ==> key_index(ls, #[trigger] attrs[i].0, 0) is Some,
    ensures
        add_local_attrs(ls, attrs) == ls,
    decreases attrs.len(),
{
    if attrs.len() > 0 {
        assert forall|i: int| 0 <= i < attrs.drop_last().len() implies key_index(ls, #[trigger] attrs.drop_last()[i].0, 0) is Some by {
            assert(attrs.drop_last()[i] == attrs[i]);
        }
        lemma_add_local_attrs_present_noop(ls, attrs.drop_last());
        assert(key_index(ls, attrs[attrs.len() - 1].0, 0) is Some);
    }
}

/// Adding the same block a second time changes nothing, except for a `terraform` block, whose
/// settings are combined each time it is added.
pub proof fn law_adding_a_block_twice(m: MgmtModel, b: BlockModel)
    requires
        b.identifier != "terraform"@,
    ensures
        add_block_model(add_block_model(m, b), b) == add_block_model(m, b),
{
    let m1 = add_block_model(m, b);
    assert(add_unique(m1.variables, "variable"@, b) == m1.variables) by {
        if b.identifier == "variable"@ && !labels_taken(m.variables, b.labels) {
            let t = m.variables.push(b);
            assert(t[m.variables.len() as int].labels == b.labels);
            assert(labels_taken(t, b.labels));
        }
    }
    assert(add_unique(m1.output, "output"@, b) == m1.output) by {
        if b.identifier == "output"@ && !labels_taken(m.output, b.labels) {
            let t = m.output.push(b);
            assert(t[m.output.len() as int].labels == b.labels);
            assert(labels_taken(t, b.labels));
        }
    }
    assert(add_unique(m1.data, "data"@, b) == m1.data) by {
        if b.identifier == "data"@ && !labels_taken(m.data, b.labels) {
            let t = m.data.push(b);
            assert(t[m.data.len() as int].labels == b.labels);
            assert(labels_taken(t, b.labels));
        }
    }
    assert(add_provider(m1.providers, b) == m1.providers) by {
        if b.identifier == "provider"@ && !provider_taken(m.providers, b) {
            let t = m.providers.push(b);
            assert(t[m.providers.len() as int] == b);
            assert(provider_taken(t, b));
        }
    }
    assert(add_locals(m1.locals, b) == m1.locals) by {
        if b.identifier == "locals"@ {
            assert forall|i: int| 0 <= i < b.attributes.len() implies key_index(
                add_local_attrs(m.locals, b.attributes),
                #[trigger] b.attributes[i].0,
                0,
            ) is Some by {
                lemma_add_local_attrs_present(m.locals, b.attributes, b.attributes[i].0);
            }
            lemma_add_local_attrs_present_noop(add_local_attrs(m.locals, b.attributes), b.attributes);
        }
    }
    assert(add_terraform(m1.terraform, b) == m1.terraform);
}

/// What a collection holds after the blocks were added one by one to an empty one.
pub open spec fn collected(bs: Seq<BlockModel>) -> MgmtModel
    decreases bs.len(),
{
    if bs.len() == 0 {
        MgmtModel {
            terraform: Seq::empty(),
            providers: Seq::empty(),
            variables: Seq::empty(),
            locals: Seq::empty(),
            output: Seq::empty(),
            data: Seq::empty(),
        }
    } else {
        add_block_model(collected(bs.drop_last()), bs.last())
    }
}

/// Every block of the sequence has the identifier.
pub open spec fn all_of_kind(bs: Seq<BlockModel>, identifier: Seq<char>) -> bool {
    forall|i: int| 0 <= i < bs.len() ==> (#[trigger] bs[i]).identifier == identifier
}

/// An identifier that the merged code keeps.
pub open spec fn merged_kind(identifier: Seq<char>) -> bool {
    identifier == "terraform"@ || identifier == "provider"@ || identifier == "locals"@ || identifier == "variable"@
        || identifier == "data"@ || identifier == "output"@
}

pub open spec fn kinds_in_place(m: MgmtModel) -> bool {
    &&& all_of_kind(m.providers, "provider"@)
    &&& all_of_kind(m.variables, "variable"@)
    &&& all_of_kind(m.data, "data"@)
    &&& all_of_kind(m.output, "output"@)
}

proof fn lemma_kinds_in_place(bs: Seq<BlockModel>)
    ensures
        kinds_in_place(collected(bs)),
    decreases bs.len(),
{
    if bs.len() > 0 {
        lemma_kinds_in_place(bs.drop_last());
        let m = collected(bs.drop_last());
        let b = bs.last();
        let m2 = add_block_model(m, b);
        assert(all_of_kind(m2.providers, "provider"@)) by {
            if !(b.identifier != "provider"@ || provider_taken(m.providers, b)) {
                assert forall|i: int| 0 <= i < m2.providers.len() implies (#[trigger] m2.providers[i]).identifier == "provider"@ by {
                    if i < m.providers.len() {
                        assert(m2.providers[i] == m.providers[i]);
                    }
                }
            }
        }
        assert forall|k: Seq<char>, t: Seq<BlockModel>| all_of_kind(t, k) implies #[trigger] all_of_kind(add_unique(t, k, b), k) by {
            if !(b.identifier != k || labels_taken(t, b.labels)) {
                assert forall|i: int| 0 <= i < add_unique(t, k, b).len() implies (#[trigger] add_unique(t, k, b)[i]).identifier == k by {
                    if i < t.len() {
                        assert(add_unique(t, k, b)[i] == t[i]);
                    }
                }
            }
        }
        assert(all_of_kind(m2.variables, "variable"@));
        assert(all_of_kind(m2.data, "data"@));
        assert(all_of_kind(m2.output, "output"@));
    }
}

/// The merged code of blocks added one by one is its `terraform` block, the provider
/// configurations, the `locals` block, the variables, the data sources and the outputs, in that
/// order; and a block of any other kind (a `resource`, a `module`, ...) is not in it.
pub proof fn law_build_keeps_only_merged_kinds(bs: Seq<BlockModel>)
    ensures
        built(collected(bs)) == terraform_blocks(collected(bs).terraform) + collected(bs).providers + locals_blocks(
            collected(bs).locals,
        ) + collected(bs).variables + collected(bs).data + collected(bs).output,
        forall|i: int| 0 <= i < built(collected(bs)).len() ==> merged_kind((#[trigger] built(collected(bs))[i]).identifier),
{
    lemma_kinds_in_place(bs);
    let m = collected(bs);
    let t = terraform_blocks(m.terraform);
    let l = locals_blocks(m.locals);
    let all = built(m);
    assert forall|i: int| 0 <= i < all.len() implies merged_kind((#[trigger] all[i]).identifier) by {
        let n0 = t.len() as int;
        let n1 = n0 + m.providers.len();
        let n2 = n1 + l.len();
        let n3 = n2 + m.variables.len();
        let n4 = n3 + m.data.len();
        if i < n0 {
            assert(all[i] == t[i]);
        } else if i < n1 {
            assert(all[i] == m.providers[i - n0]);
        } else if i < n2 {
            assert(all[i] == l[i - n1]);
        } else if i < n3 {
            assert(all[i] == m.variables[i - n2]);
        } else if i < n4 {
            assert(all[i] == m.data[i - n3]);
        } else {
            assert(all[i] == m.output[i - n4]);
        }
    }
}

/// Two provider configurations configure the same provider under the same alias.
pub open spec fn same_configuration(a: BlockModel, b: BlockModel) -> bool {
    a.labels == b.labels && alias_of(a) == alias_of(b)
}

/// The `j`-th block is a provider configuration that no earlier provider configuration
/// configures already.
pub open spec fn first_configuration(bs: Seq<BlockModel>, j: int) -> bool {
    &&& bs[j].identifier == "provider"@
    &&& forall|k: int| 0 <= k < j ==> !((#[trigger] bs[k]).identifier == "provider"@ && same_configuration(bs[k], bs[j]))
}

/// The provider configurations of the blocks, each the first of its provider and alias, in
/// order.
pub open spec fn first_configurations(bs: Seq<BlockModel>) -> Seq<BlockModel>
    decreases bs.len(),
{
    if bs.len() == 0 {
        Seq::empty()
    } else if first_configuration(bs, bs.len() - 1) {
        first_configurations(bs.drop_last()).push(bs.last())
    } else {
        first_configurations(bs.drop_last())
    }
}

/// The provider configurations kept when the blocks are added one by one.
pub open spec fn configured(bs: Seq<BlockModel>) -> Seq<BlockModel>
    decreases bs.len(),
{
    if bs.len() == 0 {
        Seq::empty()
    } else {
        add_provider(configured(bs.drop_last()), bs.last())
    }
}

proof fn lemma_first_configurations(bs: Seq<BlockModel>)
    ensures
        forall|i: int| 0 <= i < first_configurations(bs).len() ==> exists|k: int| 0 <= k < bs.len() && #[trigger] first_configurations(bs)[i] == bs[k] && bs[k].identifier == "provider"@,
        forall|k: int| 0 <= k < bs.len() && (#[trigger] bs[k]).identifier == "provider"@ ==> exists|i: int|
            0 <= i < first_configurations(bs).len() && same_configuration(#[trigger] first_configurations(bs)[i], bs[k]),
    decreases bs.len(),
{
    if bs.len() > 0 {
        let p = bs.drop_last();
        lemma_first_configurations(p);
        let f = first_configurations(bs);
        let fp = first_configurations(p);
        let n = bs.len() - 1;
        assert forall|k: int| 0 <= k < p.len() implies #[trigger] p[k] == bs[k] by {}
        if first_configuration(bs, n) {
            assert(f == fp.push(bs.last()));
            assert forall|i: int| 0 <= i < f.len() implies exists|k: int| 0 <= k < bs.len() && #[trigger] f[i] == bs[k] && bs[k].identifier == "provider"@ by {
                if i < fp.len() {
                    let k = choose|k: int| 0 <= k < p.len() && fp[i] == p[k] && p[k].identifier == "provider"@;
                    assert(f[i] == bs[k]);
                } else {
                    assert(f[i] == bs[n]);
                }
            }
            assert forall|k: int| 0 <= k < bs.len() && (#[trigger] bs[k]).identifier == "provider"@ implies exists|i: int|
                0 <= i < f.len() && same_configuration(#[trigger] f[i], bs[k]) by {
                if k < n {
                    assert(p[k] == bs[k]);
                    let i = choose|i: int| 0 <= i < fp.len() && same_configuration(#[trigger] fp[i], p[k]);
                    assert(f[i] == fp[i]);
                } else {
                    assert(f[fp.len() as int] == bs[k]);
                }
            }
        } else {
            assert(f == fp);
            assert forall|i: int| 0 <= i < f.len() implies exists|k: int| 0 <= k < bs.len() && #[trigger] f[i] == bs[k] && bs[k].identifier == "provider"@ by {
                let k = choose|k: int| 0 <= k < p.len() && fp[i] == p[k] && p[k].identifier == "provider"@;
                assert(f[i] == bs[k]);
            }
            assert forall|k: int| 0 <= k < bs.len() && (#[trigger] bs[k]).identifier == "provider"@ implies exists|i: int|
                0 <= i < f.len() && same_configuration(#[trigger] f[i], bs[k]) by {
                if k < n {
                    assert(p[k] == bs[k]);
                    let i = choose|i: int| 0 <= i < fp.len() && same_configuration(#[trigger] fp[i], p[k]);
                } else {
                    let k0 = choose|k0: int| 0 <= k0 < n && (#[trigger] bs[k0]).identifier == "provider"@ && same_configuration(bs[k0], bs[n]);
                    assert(p[k0] == bs[k0]);
                    let i = choose|i: int| 0 <= i < fp.len() && same_configuration(#[trigger] fp[i], p[k0]);
                    assert(same_configuration(fp[i], bs[n]));
                }
            }
        }
    }
}

/// Provider configurations added one by one keep, in order, each provider configuration that
/// no earlier one configures already (the same provider under the same alias): a second
/// configuration of a provider without an alias is dropped, one with a new alias kept.
pub proof fn law_provider_configurations(bs: Seq<BlockModel>)
    ensures
        configured(bs) == first_configurations(bs),
    decreases bs.len(),
{
    if bs.len() > 0 {
        let p = bs.drop_last();
        law_provider_configurations(p);
        lemma_first_configurations(p);
        let b = bs.last();
        let n = bs.len() - 1;
        let fp = first_configurations(p);
        assert forall|k: int| 0 <= k < p.len() implies #[trigger] p[k] == bs[k] by {}
        if b.identifier == "provider"@ {
            if provider_taken(fp, b) {
                let i = choose|i: int| 0 <= i < fp.len() && (#[trigger] fp[i]).labels == b.labels && alias_of(fp[i]) == alias_of(b);
                let k = choose|k: int| 0 <= k < p.len() && fp[i] == p[k] && p[k].identifier == "provider"@;
                assert(bs[k] == p[k]);
                assert(!first_configuration(bs, n));
            } else {
                assert forall|k: int| 0 <= k < n implies !((#[trigger] bs[k]).identifier == "provider"@ && same_configuration(bs[k], bs[n])) by {
                    if bs[k].identifier == "provider"@ && same_configuration(bs[k], bs[n]) {
                        assert(p[k] == bs[k]);
                        let i = choose|i: int| 0 <= i < fp.len() && same_configuration(#[trigger] fp[i], p[k]);
                        assert(fp[i].labels == b.labels && alias_of(fp[i]) == alias_of(b));
                    }
                }
                assert(first_configuration(bs, n));
            }
        }
    }
}

} // verus!
