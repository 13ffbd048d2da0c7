//! Merging the Terraform code of several modules and providers into the root module of a stack:
//! `terraform` settings are combined, provider configurations, variables, outputs and data
//! sources are kept once per identity, and locals once per name.
use vstd::prelude::*;
use crate::blocks::{
    attr_models, block_model, block_models, copy_attrs, copy_block, copy_blocks, copy_expr,
    expr_models, exprs_equal, expr_model, lemma_attr_models, push_attr, lemma_block_models, strings_equal, strs_model,
    BlockModel, ExprModel, HclBlock,
};
use crate::mapping::{key_index, lemma_key_index, model_lookup};
use crate::publishing::joined;
use crate::resolver::HclExpr;
use crate::text::{append_str, from_chars};

verus! {

/// What the merged Terraform code holds so far.
pub struct MgmtModel {
    pub terraform: Seq<BlockModel>,
    pub providers: Seq<BlockModel>,
    pub variables: Seq<BlockModel>,
    pub locals: Seq<(Seq<char>, ExprModel)>,
    pub output: Seq<BlockModel>,
    pub data: Seq<BlockModel>,
}

/// Some block has these labels.
pub open spec fn labels_taken(bs: Seq<BlockModel>, labels: Seq<Seq<char>>) -> bool {
    exists|i: int| 0 <= i < bs.len() && (#[trigger] bs[i]).labels == labels
}

/// A block of the given kind is added unless a block with the same labels is there already;
/// blocks of other kinds are not added.
pub open spec fn add_unique(target: Seq<BlockModel>, identifier: Seq<char>, b: BlockModel) -> Seq<BlockModel> {
    if b.identifier != identifier || labels_taken(target, b.labels) {
        target
    } else {
        target.push(b)
    }
}

/// The `alias` of a provider configuration, if it sets one.
pub open spec fn alias_of(b: BlockModel) -> Option<ExprModel> {
    model_lookup(b.attributes, "alias"@)
}

/// A configuration of the same provider with the same alias is there already.
pub open spec fn provider_taken(ps: Seq<BlockModel>, b: BlockModel) -> bool {
    exists|i: int| 0 <= i < ps.len() && (#[trigger] ps[i]).labels == b.labels && alias_of(ps[i]) == alias_of(b)
}

pub open spec fn add_provider(ps: Seq<BlockModel>, b: BlockModel) -> Seq<BlockModel> {
    if b.identifier != "provider"@ || provider_taken(ps, b) {
        ps
    } else {
        ps.push(b)
    }
}

/// The locals with the attributes of a `locals` block added, each unless one of that name is
/// there already.
pub open spec fn add_local_attrs(ls: Seq<(Seq<char>, ExprModel)>, attrs: Seq<(Seq<char>, ExprModel)>) -> Seq<(Seq<char>, ExprModel)>
    decreases attrs.len(),
{
    if attrs.len() == 0 {
        ls
    } else {
        let prev = add_local_attrs(ls, attrs.drop_last());
        if key_index(prev, attrs.last().0, 0) is Some {
            prev
        } else {
            prev.push(attrs.last())
        }
    }
}

pub open spec fn add_locals(ls: Seq<(Seq<char>, ExprModel)>, b: BlockModel) -> Seq<(Seq<char>, ExprModel)> {
    if b.identifier == "locals"@ {
        add_local_attrs(ls, b.attributes)
    } else {
        ls
    }
}

pub open spec fn add_terraform(ts: Seq<BlockModel>, b: BlockModel) -> Seq<BlockModel> {
    if b.identifier == "terraform"@ {
        ts.push(b)
    } else {
        ts
    }
}

/// Adding a block of any kind: it goes where its identifier says.
pub open spec fn add_block_model(m: MgmtModel, b: BlockModel) -> MgmtModel {
    MgmtModel {
        terraform: add_terraform(m.terraform, b),
        providers: add_provider(m.providers, b),
        variables: add_unique(m.variables, "variable"@, b),
        locals: add_locals(m.locals, b),
        output: add_unique(m.output, "output"@, b),
        data: add_unique(m.data, "data"@, b),
    }
}

/// The `locals` block of the merged code: none without locals.
pub open spec fn locals_blocks(ls: Seq<(Seq<char>, ExprModel)>) -> Seq<BlockModel> {
    if ls.len() == 0 {
        Seq::empty()
    } else {
        seq![BlockModel { identifier: "locals"@, labels: Seq::empty(), attributes: ls, blocks: Seq::empty() }]
    }
}

/// The `required_version` constraints (string values) among attributes, in order.
pub open spec fn version_constraints(attrs: Seq<(Seq<char>, ExprModel)>) -> Seq<Seq<char>>
    decreases attrs.len(),
{
    if attrs.len() == 0 {
        Seq::empty()
    } else {
        let prev = version_constraints(attrs.drop_last());
        match attrs.last().1 {
            ExprModel::Str(s) => if attrs.last().0 == "required_version"@ {
                prev.push(s)
            } else {
                prev
            },
            _ => prev,
        }
    }
}

/// The `required_version` constraints of all `terraform` blocks, in order.
pub open spec fn terraform_constraints(ts: Seq<BlockModel>) -> Seq<Seq<char>>
    decreases ts.len(),
{
    if ts.len() == 0 {
        Seq::empty()
    } else {
        terraform_constraints(ts.drop_last()) + version_constraints(ts.last().attributes)
    }
}

/// One `required_version` that all constraints must meet, where there are any.
pub open spec fn required_version(ts: Seq<BlockModel>) -> Seq<(Seq<char>, ExprModel)> {
    let cs = terraform_constraints(ts);
    if cs.len() == 0 {
        Seq::empty()
    } else {
        seq![("required_version"@, ExprModel::Str(joined(cs)))]
    }
}

/// A provider requirement with another version constraint: appended to a string constraint,
/// set where there is none.
pub open spec fn merge_version(m: Seq<(Seq<char>, ExprModel)>, ver: Seq<char>) -> Seq<(Seq<char>, ExprModel)> {
    match key_index(m, "version"@, 0) {
        Some(p) => match m[p].1 {
            ExprModel::Str(cur) => m.update(p, ("version"@, ExprModel::Str(cur + ", "@ + ver))),
            _ => m,
        },
        None => m.push(("version"@, ExprModel::Str(ver))),
    }
}

/// A provider requirement with more configured aliases: the lists joined, set where there is
/// none.
pub open spec fn merge_aliases(m: Seq<(Seq<char>, ExprModel)>, new_expr: ExprModel) -> Seq<(Seq<char>, ExprModel)> {
    match key_index(m, "configured_aliases"@, 0) {
        Some(p) => match (m[p].1, new_expr) {
            (ExprModel::Array(arr), ExprModel::Array(new_arr)) => m.update(p, ("configured_aliases"@, ExprModel::Array(arr + new_arr))),
            _ => m,
        },
        None => m.push(("configured_aliases"@, new_expr)),
    }
}

/// A provider requirement merged with another one for the same provider.
pub open spec fn merge_provider(m: Seq<(Seq<char>, ExprModel)>, map: Seq<(Seq<char>, ExprModel)>) -> Seq<(Seq<char>, ExprModel)> {
    let m1 = match model_lookup(map, "version"@) {
        Some(ExprModel::Str(ver)) => merge_version(m, ver),
        _ => m,
    };
    match model_lookup(map, "configured_aliases"@) {
        Some(e) => merge_aliases(m1, e),
        None => m1,
    }
}

/// The provider requirements with one more `name = { ... }` attribute of a
/// `required_providers` block: a new provider is added, a known one merged.
pub open spec fn provider_step(acc: Seq<(Seq<char>, ExprModel)>, a: (Seq<char>, ExprModel)) -> Seq<(Seq<char>, ExprModel)> {
    match a.1 {
        ExprModel::Object(map) => match key_index(acc, a.0, 0) {
            Some(q) => match acc[q].1 {
                ExprModel::Object(m) => acc.update(q, (a.0, ExprModel::Object(merge_provider(m, map)))),
                _ => acc,
            },
            None => acc.push((a.0, ExprModel::Object(map))),
        },
        _ => acc,
    }
}

/// A requirement of a provider that is known already must give a version.
pub open spec fn provider_step_ok(acc: Seq<(Seq<char>, ExprModel)>, a: (Seq<char>, ExprModel)) -> bool {
    match a.1 {
        ExprModel::Object(map) => key_index(acc, a.0, 0) is Some ==> model_lookup(map, "version"@) is Some,
        _ => true,
    }
}

pub open spec fn merge_attrs(acc: Seq<(Seq<char>, ExprModel)>, attrs: Seq<(Seq<char>, ExprModel)>) -> Seq<(Seq<char>, ExprModel)>
    decreases attrs.len(),
{
    if attrs.len() == 0 {
        acc
    } else {
        provider_step(merge_attrs(acc, attrs.drop_last()), attrs.last())
    }
}

pub open spec fn merge_attrs_ok(acc: Seq<(Seq<char>, ExprModel)>, attrs: Seq<(Seq<char>, ExprModel)>) -> bool
    decreases attrs.len(),
{
    if attrs.len() == 0 {
        true
    } else {
        merge_attrs_ok(acc, attrs.drop_last()) && provider_step_ok(merge_attrs(acc, attrs.drop_last()), attrs.last())
    }
}

/// The requirements of the `required_providers` blocks among blocks merged in.
pub open spec fn merge_blocks(acc: Seq<(Seq<char>, ExprModel)>, bs: Seq<BlockModel>) -> Seq<(Seq<char>, ExprModel)>
    decreases bs.len(),
{
    if bs.len() == 0 {
        acc
    } else {
        let prev = merge_blocks(acc, bs.drop_last());
        if bs.last().identifier == "required_providers"@ {
            merge_attrs(prev, bs.last().attributes)
        } else {
            prev
        }
    }
}

pub open spec fn merge_blocks_ok(acc: Seq<(Seq<char>, ExprModel)>, bs: Seq<BlockModel>) -> bool
    decreases bs.len(),
{
    if bs.len() == 0 {
        true
    } else {
        &&& merge_blocks_ok(acc, bs.drop_last())
        &&& (bs.last().identifier == "required_providers"@ ==> merge_attrs_ok(merge_blocks(acc, bs.drop_last()), bs.last().attributes))
    }
}

/// The requirements of all `terraform` blocks merged, in the order the providers first appear.
pub open spec fn merge_terraform(ts: Seq<BlockModel>) -> Seq<(Seq<char>, ExprModel)>
    decreases ts.len(),
{
    if ts.len() == 0 {
        Seq::empty()
    } else {
        merge_blocks(merge_terraform(ts.drop_last()), ts.last().blocks)
    }
}

/// Every requirement of a provider that appeared before gives a version.
pub open spec fn merge_terraform_ok(ts: Seq<BlockModel>) -> bool
    decreases ts.len(),
{
    if ts.len() == 0 {
        true
    } else {
        merge_terraform_ok(ts.drop_last()) && merge_blocks_ok(merge_terraform(ts.drop_last()), ts.last().blocks)
    }
}

pub open spec fn required_providers(ts: Seq<BlockModel>) -> Seq<BlockModel> {
    let merged = merge_terraform(ts);
    if merged.len() == 0 {
        Seq::empty()
    } else {
        seq![BlockModel { identifier: "required_providers"@, labels: Seq::empty(), attributes: merged, blocks: Seq::empty() }]
    }
}

/// The blocks with the given identifier, in order.
pub open spec fn blocks_named(bs: Seq<BlockModel>, id: Seq<char>) -> Seq<BlockModel>
    decreases bs.len(),
{
    if bs.len() == 0 {
        Seq::empty()
    } else if bs.last().identifier == id {
        blocks_named(bs.drop_last(), id).push(bs.last())
    } else {
        blocks_named(bs.drop_last(), id)
    }
}

/// The `provider_meta` blocks of all `terraform` blocks, in order.
pub open spec fn provider_meta(ts: Seq<BlockModel>) -> Seq<BlockModel>
    decreases ts.len(),
{
    if ts.len() == 0 {
        Seq::empty()
    } else {
        provider_meta(ts.drop_last()) + blocks_named(ts.last().blocks, "provider_meta"@)
    }
}

/// The one `terraform` block of the merged code: the joined version constraint, the merged
/// provider requirements and the provider metadata; none without `terraform` blocks.
pub open spec fn terraform_blocks(ts: Seq<BlockModel>) -> Seq<BlockModel> {
    if ts.len() == 0 {
        Seq::empty()
    } else {
        seq![BlockModel {
            identifier: "terraform"@,
            labels: Seq::empty(),
            attributes: required_version(ts),
            blocks: required_providers(ts) + provider_meta(ts),
        }]
    }
}

/// The merged code, block by block: `terraform`, providers, locals, variables, data, outputs.
pub open spec fn built(m: MgmtModel) -> Seq<BlockModel> {
    terraform_blocks(m.terraform) + m.providers + locals_blocks(m.locals) + m.variables + m.data + m.output
}

/// Collects the Terraform code of modules and providers into one root module.
pub struct TfProviderMgmt {
    terraform: Vec<HclBlock>,
    providers: Vec<HclBlock>,
    variables: Vec<HclBlock>,
    locals: Vec<(String, HclExpr)>,
    output: Vec<HclBlock>,
    data: Vec<HclBlock>,
}

impl Default for TfProviderMgmt {
    fn default() -> (r: Self)
        ensures
            r@ == (MgmtModel {
                terraform: Seq::empty(),
                providers: Seq::empty(),
                variables: Seq::empty(),
                locals: Seq::empty(),
                output: Seq::empty(),
                data: Seq::empty(),
            }),
    {
        TfProviderMgmt::new()
    }
}

impl View for TfProviderMgmt {
    type V = MgmtModel;

    closed spec fn view(&self) -> MgmtModel {
        MgmtModel {
            terraform: block_models(self.terraform@),
            providers: block_models(self.providers@),
            variables: block_models(self.variables@),
            locals: attr_models(self.locals@),
            output: block_models(self.output@),
            data: block_models(self.data@),
        }
    }
}

fn find_attr(attrs: &Vec<(String, HclExpr)>, key: &str) -> (r: Option<usize>)
    ensures
        match r {
            Some(q) => key_index(attr_models(attrs@), key@, 0) == Some(q as int) && q < attrs@.len(),
            None => key_index(attr_models(attrs@), key@, 0) is None,
        },
{
    let ghost am = attr_models(attrs@);
    proof {
        lemma_attr_models(attrs@);
    }
    let ks = String::from_str(key);
    let mut i: usize = 0;
    while i < attrs.len()
        invariant
            ks@ == key@,
            am == attr_models(attrs@),
            am.len() == attrs@.len(),
            forall|j: int| 0 <= j < attrs@.len() ==> #[trigger] am[j] == (attrs@[j].0@, expr_model(attrs@[j].1)),
            i <= attrs@.len(),
            key_index(am, key@, 0) == key_index(am, key@, i as int),
        decreases attrs.len() - i,
    {
        if attrs[i].0 == ks {
            assert(am[i as int].0 == key@);
            return Some(i);
        }
        assert(am[i as int].0 != key@);
        i = i + 1;
    }
    None
}

fn labels_found(target: &Vec<HclBlock>, labels: &Vec<String>) -> (r: bool)
    ensures
        r == labels_taken(block_models(target@), strs_model(labels@)),
{
    proof {
        lemma_block_models(target@);
    }
    let mut i: usize = 0;
    while i < target.len()
        invariant
            i <= target@.len(),
            block_models(target@).len() == target@.len(),
            forall|j: int| 0 <= j < target@.len() ==> #[trigger] block_models(target@)[j] == block_model(target@[j]),
            forall|j: int| 0 <= j < i ==> (#[trigger] block_models(target@)[j]).labels != strs_model(labels@),
        decreases target.len() - i,
    {
        if strings_equal(&target[i].labels, labels) {
            assert(block_models(target@)[i as int].labels == strs_model(labels@));
            return true;
        }
        i = i + 1;
    }
    false
}

fn push_block(target: &mut Vec<HclBlock>, b: &HclBlock)
    ensures
        block_models(final(target)@) == block_models(old(target)@).push(block_model(*b)),
{
    let c = copy_block(b);
    let ghost prev = target@;
    target.push(c);
    assert(target@.drop_last() =~= prev);
}

fn add_check_duplicate_on_labels(target: &mut Vec<HclBlock>, identifier: &str, new_block: &HclBlock)
    ensures
        block_models(final(target)@) == add_unique(block_models(old(target)@), identifier@, block_model(*new_block)),
{
    if new_block.identifier != String::from_str(identifier) {
        return;
    }
    if !labels_found(target, &new_block.labels) {
        push_block(target, new_block);
    }
}

/// The `alias` attribute of a block, if it has one.
fn get_alias(b: &HclBlock) -> (r: Option<&HclExpr>)
    ensures
        match r {
            Some(e) => alias_of(block_model(*b)) == Some(expr_model(*e)),
            None => alias_of(block_model(*b)) is None,
        },
{
    proof {
        lemma_attr_models(b.attributes@);
    }
    match find_attr(&b.attributes, "alias") {
        Some(q) => Some(&b.attributes[q].1),
        None => None,
    }
}

fn same_alias(a: Option<&HclExpr>, b: Option<&HclExpr>) -> (r: bool)
    ensures
        r == (match (a, b) {
            (Some(x), Some(y)) => expr_model(*x) == expr_model(*y),
            (None, None) => true,
            _ => false,
        }),
{
    match (a, b) {
        (Some(x), Some(y)) => exprs_equal(x, y),
        (None, None) => true,
        _ => false,
    }
}

fn replace_attr(m: &mut Vec<(String, HclExpr)>, p: usize, key: String, e: HclExpr)
    requires
        p < old(m)@.len(),
    ensures
        attr_models(final(m)@) == attr_models(old(m)@).update(p as int, (key@, expr_model(e))),
{
    let ghost before = m@;
    m.remove(p);
    m.insert(p, (key, e));
    proof {
        assert(m@ =~= before.update(p as int, m@[p as int]));
        lemma_attr_models(before);
        lemma_attr_models(m@);
        assert(attr_models(m@) =~= attr_models(before).update(p as int, (m@[p as int].0@, expr_model(m@[p as int].1))));
    }
}

fn lookup_attr(attrs: &Vec<(String, HclExpr)>, key: &str) -> (r: Option<usize>)
    ensures
        match r {
            Some(q) => q < attrs@.len() && model_lookup(attr_models(attrs@), key@) == Some(expr_model(attrs@[q as int].1))
                && key_index(attr_models(attrs@), key@, 0) == Some(q as int) && attrs@[q as int].0@ == key@,
            None => model_lookup(attr_models(attrs@), key@) is None && key_index(attr_models(attrs@), key@, 0) is None,
        },
{
    let r = find_attr(attrs, key);
    proof {
        lemma_attr_models(attrs@);
        lemma_key_index(attr_models(attrs@), key@, 0);
    }
    r
}

fn concat_exprs(a: &Vec<HclExpr>, b: &Vec<HclExpr>) -> (r: Vec<HclExpr>)
    ensures
        expr_models(r@) == expr_models(a@) + expr_models(b@),
{
    let mut out: Vec<HclExpr> = Vec::new();
    let mut i: usize = 0;
    while i < a.len()
        invariant
            i <= a@.len(),
            expr_models(out@) == expr_models(a@.take(i as int)),
        decreases a.len() - i,
    {
        let c = copy_expr(&a[i]);
        let ghost prev = out@;
        out.push(c);
        assert(out@.drop_last() =~= prev);
        assert(a@.take(i + 1).drop_last() =~= a@.take(i as int));
        i = i + 1;
    }
    assert(a@.take(a@.len() as int) =~= a@);
    let mut j: usize = 0;
    while j < b.len()
        invariant
            j <= b@.len(),
            expr_models(out@) == expr_models(a@) + expr_models(b@.take(j as int)),
        decreases b.len() - j,
    {
        let c = copy_expr(&b[j]);
        let ghost prev = out@;
        out.push(c);
        assert(out@.drop_last() =~= prev);
        assert(b@.take(j + 1).drop_last() =~= b@.take(j as int));
        assert(expr_models(b@.take(j + 1)) == expr_models(b@.take(j as int)).push(expr_model(b@[j as int])));
        assert(expr_models(a@) + expr_models(b@.take(j + 1)) =~= (expr_models(a@) + expr_models(b@.take(j as int))).push(expr_model(b@[j as int])));
        j = j + 1;
    }
    assert(b@.take(b@.len() as int) =~= b@);
    out
}

fn merge_provider_into(m: &mut Vec<(String, HclExpr)>, map: &Vec<(String, HclExpr)>)
    ensures
        attr_models(final(m)@) == merge_provider(attr_models(old(m)@), attr_models(map@)),
{
    proof {
        reveal_strlit("version");
        reveal_strlit("configured_aliases");
        reveal_strlit(", ");
    }
    let ghost m0 = attr_models(m@);
    match lookup_attr(map, "version") {
        Some(vi) => match &map[vi].1 {
            HclExpr::Str(ver) => {
                match lookup_attr(m, "version") {
                    Some(p) => {
                        let cur_text: Option<String> = match &m[p].1 {
                            HclExpr::Str(cur) => Some(cur.clone()),
                            _ => None,
                        };
                        match cur_text {
                            Some(cur) => {
                                let mut out: Vec<char> = Vec::new();
                                append_str(&mut out, cur.as_str());
                                append_str(&mut out, ", ");
                                append_str(&mut out, ver.as_str());
                                let joined_text = from_chars(out.as_slice());
                                replace_attr(m, p, String::from_str("version"), HclExpr::Str(joined_text));
                            },
                            None => {},
                        }
                    },
                    None => {
                        push_attr(m, String::from_str("version"), HclExpr::Str(ver.clone()));
                    },
                }
            },
            _ => {},
        },
        None => {},
    }
    let ghost m1 = attr_models(m@);
    assert(m1 == match model_lookup(attr_models(map@), "version"@) {
        Some(ExprModel::Str(ver)) => merge_version(m0, ver),
        _ => m0,
    });
    match lookup_attr(map, "configured_aliases") {
        Some(ai) => {
            match lookup_attr(m, "configured_aliases") {
                Some(p) => {
                    let joined_items: Option<Vec<HclExpr>> = match (&m[p].1, &map[ai].1) {
                        (HclExpr::Array(arr), HclExpr::Array(new_arr)) => Some(concat_exprs(arr, new_arr)),
                        _ => None,
                    };
                    match joined_items {
                        Some(items) => {
                            replace_attr(m, p, String::from_str("configured_aliases"), HclExpr::Array(items));
                        },
                        None => {},
                    }
                },
                None => {
                    let c = copy_expr(&map[ai].1);
                    push_attr(m, String::from_str("configured_aliases"), c);
                },
            }
        },
        None => {},
    }
}

fn merge_attrs_into(acc: &mut Vec<(String, HclExpr)>, attrs: &Vec<(String, HclExpr)>)
    ensures
        attr_models(final(acc)@) == merge_attrs(attr_models(old(acc)@), attr_models(attrs@)),
{
    let ghost acc0 = attr_models(acc@);
    let ghost am = attr_models(attrs@);
    proof {
        lemma_attr_models(attrs@);
    }
    let mut i: usize = 0;
    while i < attrs.len()
        invariant
            i <= attrs@.len(),
            am == attr_models(attrs@),
            am.len() == attrs@.len(),
            forall|j: int| 0 <= j < attrs@.len() ==> #[trigger] am[j] == (attrs@[j].0@, expr_model(attrs@[j].1)),
            attr_models(acc@) == merge_attrs(acc0, am.take(i as int)),
        decreases attrs.len() - i,
    {
        assert(am.take(i + 1).drop_last() =~= am.take(i as int));
        assert(am.take(i + 1).last() == am[i as int]);
        let ghost before = attr_models(acc@);
        match &attrs[i].1 {
            HclExpr::Object(map) => {
                match lookup_attr(acc, attrs[i].0.as_str()) {
                    None => {
                        let c = copy_expr(&attrs[i].1);
                        push_attr(acc, attrs[i].0.clone(), c);
                    },
                    Some(q) => {
                        let ghost acc_before = acc@;
                        proof {
                            lemma_attr_models(acc_before);
                        }
                        let (ck, cv) = acc.remove(q);
                        match cv {
                            HclExpr::Object(mut m) => {
                                merge_provider_into(&mut m, map);
                                acc.insert(q, (ck, HclExpr::Object(m)));
                            },
                            other => {
                                acc.insert(q, (ck, other));
                            },
                        }
                        proof {
                            assert(acc@ =~= acc_before.update(q as int, acc@[q as int]));
                            lemma_attr_models(acc@);
                            assert(attr_models(acc@) =~= before.update(q as int, (attrs@[i as int].0@, expr_model(acc@[q as int].1))));
                            match before[q as int].1 {
                                ExprModel::Object(m) => {},
                                _ => {
                                    assert(before.update(q as int, (attrs@[i as int].0@, expr_model(acc@[q as int].1))) =~= before);
                                },
                            }
                        }
                    },
                }
            },
            _ => {},
        }
        i = i + 1;
    }
    assert(am.take(am.len() as int) =~= am);
}

fn merge_blocks_into(acc: &mut Vec<(String, HclExpr)>, bs: &Vec<HclBlock>)
    ensures
        attr_models(final(acc)@) == merge_blocks(attr_models(old(acc)@), block_models(bs@)),
{
    let ghost acc0 = attr_models(acc@);
    let ghost bm = block_models(bs@);
    proof {
        lemma_block_models(bs@);
        reveal_strlit("required_providers");
    }
    let mut i: usize = 0;
    while i < bs.len()
        invariant
            i <= bs@.len(),
            bm == block_models(bs@),
            bm.len() == bs@.len(),
            forall|j: int| 0 <= j < bs@.len() ==> #[trigger] bm[j] == block_model(bs@[j]),
            attr_models(acc@) == merge_blocks(acc0, bm.take(i as int)),
        decreases bs.len() - i,
    {
        assert(bm.take(i + 1).drop_last() =~= bm.take(i as int));
        assert(bm.take(i + 1).last() == bm[i as int]);
        if bs[i].identifier == String::from_str("required_providers") {
            merge_attrs_into(acc, &bs[i].attributes);
        }
        i = i + 1;
    }
    assert(bm.take(bm.len() as int) =~= bm);
}

proof fn lemma_merge_attrs_ok_prefix(acc: Seq<(Seq<char>, ExprModel)>, attrs: Seq<(Seq<char>, ExprModel)>, k: int)
    requires
        merge_attrs_ok(acc, attrs),
        0 <= k <= attrs.len(),
    ensures
        merge_attrs_ok(acc, attrs.take(k)),
    decreases attrs.len(),
{
    if k < attrs.len() {
        assert(attrs.drop_last().take(k) =~= attrs.take(k));
        lemma_merge_attrs_ok_prefix(acc, attrs.drop_last(), k);
    } else {
        assert(attrs.take(k) =~= attrs);
    }
}

proof fn lemma_merge_blocks_ok_prefix(acc: Seq<(Seq<char>, ExprModel)>, bs: Seq<BlockModel>, k: int)
    requires
        merge_blocks_ok(acc, bs),
        0 <= k <= bs.len(),
    ensures
        merge_blocks_ok(acc, bs.take(k)),
    decreases bs.len(),
{
    if k < bs.len() {
        assert(bs.drop_last().take(k) =~= bs.take(k));
        lemma_merge_blocks_ok_prefix(acc, bs.drop_last(), k);
    } else {
        assert(bs.take(k) =~= bs);
    }
}

proof fn lemma_merge_terraform_ok_prefix(ts: Seq<BlockModel>, k: int)
    requires
        merge_terraform_ok(ts),
        0 <= k <= ts.len(),
    ensures
        merge_terraform_ok(ts.take(k)),
    decreases ts.len(),
{
    if k < ts.len() {
        assert(ts.drop_last().take(k) =~= ts.take(k));
        lemma_merge_terraform_ok_prefix(ts.drop_last(), k);
    } else {
        assert(ts.take(k) =~= ts);
    }
}

/// Merges the attributes of a `required_providers` block into `acc`, where each requirement of
/// a provider that is known already gives a version; `false` where one does not.
fn merge_attrs_checked(acc: &mut Vec<(String, HclExpr)>, attrs: &Vec<(String, HclExpr)>) -> (ok: bool)
    ensures
        ok == merge_attrs_ok(attr_models(old(acc)@), attr_models(attrs@)),
        ok ==> attr_models(final(acc)@) == merge_attrs(attr_models(old(acc)@), attr_models(attrs@)),
{
    let ghost acc0 = attr_models(acc@);
    let ghost am = attr_models(attrs@);
    proof {
        lemma_attr_models(attrs@);
    }
    let mut i: usize = 0;
    while i < attrs.len()
        invariant
            i <= attrs@.len(),
            am == attr_models(attrs@),
            am.len() == attrs@.len(),
            forall|j: int| 0 <= j < attrs@.len() ==> #[trigger] am[j] == (attrs@[j].0@, expr_model(attrs@[j].1)),
            acc0 == attr_models(old(acc)@),
            attr_models(acc@) == merge_attrs(acc0, am.take(i as int)),
            merge_attrs_ok(acc0, am.take(i as int)),
        decreases attrs.len() - i,
    {
        assert(am.take(i + 1).drop_last() =~= am.take(i as int));
        assert(am.take(i + 1).last() == am[i as int]);
        match &attrs[i].1 {
            HclExpr::Object(map) => {
                let known = lookup_attr(acc, attrs[i].0.as_str());
                let version = lookup_attr(map, "version");
                if known.is_some() && version.is_none() {
                    proof {
                        assert(!provider_step_ok(merge_attrs(acc0, am.take(i as int)), am[i as int]));
                        assert(!merge_attrs_ok(acc0, am.take(i + 1)));
                        assert(!merge_attrs_ok(acc0, am)) by {
                            if merge_attrs_ok(acc0, am) {
                                lemma_merge_attrs_ok_prefix(acc0, am, i + 1);
                            }
                        }
                    }
                    return false;
                }
            },
            _ => {},
        }
        let ghost before = attr_models(acc@);
        let mut single: Vec<(String, HclExpr)> = Vec::new();
        single.push((attrs[i].0.clone(), copy_expr(&attrs[i].1)));
        proof {
            lemma_attr_models(single@);
            assert(attr_models(single@) =~= seq![am[i as int]]);
            assert(seq![am[i as int]].drop_last() =~= Seq::<(Seq<char>, ExprModel)>::empty());
        }
        merge_attrs_into(acc, &single);
        assert(merge_attrs(before, Seq::<(Seq<char>, ExprModel)>::empty()) == before);
        assert(seq![am[i as int]].last() == am[i as int]);
        assert(merge_attrs(before, seq![am[i as int]]) == provider_step(
            merge_attrs(before, seq![am[i as int]].drop_last()),
            seq![am[i as int]].last(),
        ));
        assert(merge_attrs(before, seq![am[i as int]]) == provider_step(before, am[i as int]));
        assert(merge_attrs(acc0, am.take(i + 1)) == provider_step(merge_attrs(acc0, am.take(i as int)), am[i as int]));
        assert(merge_attrs_ok(acc0, am.take(i + 1)));
        i = i + 1;
    }
    assert(am.take(am.len() as int) =~= am);
    true
}

/// Merges the `required_providers` blocks among `bs` into `acc` (see `merge_attrs_checked`).
fn merge_blocks_checked(acc: &mut Vec<(String, HclExpr)>, bs: &Vec<HclBlock>) -> (ok: bool)
    ensures
        ok == merge_blocks_ok(attr_models(old(acc)@), block_models(bs@)),
        ok ==> attr_models(final(acc)@) == merge_blocks(attr_models(old(acc)@), block_models(bs@)),
{
    let ghost acc0 = attr_models(acc@);
    let ghost bm = block_models(bs@);
    proof {
        lemma_block_models(bs@);
        reveal_strlit("required_providers");
    }
    let mut i: usize = 0;
    while i < bs.len()
        invariant
            i <= bs@.len(),
            bm == block_models(bs@),
            bm.len() == bs@.len(),
            forall|j: int| 0 <= j < bs@.len() ==> #[trigger] bm[j] == block_model(bs@[j]),
            acc0 == attr_models(old(acc)@),
            attr_models(acc@) == merge_blocks(acc0, bm.take(i as int)),
            merge_blocks_ok(acc0, bm.take(i as int)),
        decreases bs.len() - i,
    {
        assert(bm.take(i + 1).drop_last() =~= bm.take(i as int));
        assert(bm.take(i + 1).last() == bm[i as int]);
        if bs[i].identifier == String::from_str("required_providers") {
            let ghost before = attr_models(acc@);
            if !merge_attrs_checked(acc, &bs[i].attributes) {
                proof {
                    assert(bm[i as int].attributes == attr_models(bs@[i as int].attributes@));
                    assert(!merge_attrs_ok(merge_blocks(acc0, bm.take(i as int)), bm[i as int].attributes));
                    assert(!merge_blocks_ok(acc0, bm.take(i + 1)));
                    assert(!merge_blocks_ok(acc0, bm)) by {
                        if merge_blocks_ok(acc0, bm) {
                            lemma_merge_blocks_ok_prefix(acc0, bm, i + 1);
                        }
                    }
                }
                return false;
            }
        }
        i = i + 1;
    }
    assert(bm.take(bm.len() as int) =~= bm);
    true
}

fn append_blocks(out: &mut Vec<HclBlock>, bs: &Vec<HclBlock>)
    ensures
        block_models(final(out)@) == block_models(old(out)@) + block_models(bs@),
{
    let ghost base = block_models(out@);
    let mut i: usize = 0;
    while i < bs.len()
        invariant
            i <= bs@.len(),
            block_models(out@) == base + block_models(bs@.take(i as int)),
        decreases bs.len() - i,
    {
        let ghost prev = block_models(out@);
        push_block(out, &bs[i]);
        assert(bs@.take(i + 1).drop_last() =~= bs@.take(i as int));
        assert(base + block_models(bs@.take(i + 1)) =~= (base + block_models(bs@.take(i as int))).push(block_model(bs@[i as int])));
        i = i + 1;
    }
    assert(bs@.take(bs@.len() as int) =~= bs@);
}

/// The strings joined by `, `.
fn join_strings(cs: &Vec<String>) -> (r: String)
    ensures
        r@ == joined(strs_model(cs@)),
{
    let ghost s = strs_model(cs@);
    proof {
        reveal_strlit(", ");
    }
    let mut out: Vec<char> = Vec::new();
    let mut k: usize = 0;
    while k < cs.len()
        invariant
            s == strs_model(cs@),
            s.len() == cs@.len(),
            k <= cs@.len(),
            out@ == joined(s.take(k as int)),
        decreases cs.len() - k,
    {
        assert(s.take(k + 1).drop_last() =~= s.take(k as int));
        assert(s.take(k + 1).last() == cs@[k as int]@);
        if k > 0 {
            append_str(&mut out, ", ");
        } else {
            assert(s.take(0) =~= Seq::<Seq<char>>::empty());
            assert(out@ =~= Seq::<char>::empty());
        }
        append_str(&mut out, cs[k].as_str());
        k = k + 1;
    }
    assert(s.take(s.len() as int) =~= s);
    from_chars(out.as_slice())
}

fn single_block(identifier: &str, attributes: Vec<(String, HclExpr)>, blocks: Vec<HclBlock>) -> (r: Vec<HclBlock>)
    ensures
        block_models(r@) == seq![BlockModel {
            identifier: identifier@,
            labels: Seq::empty(),
            attributes: attr_models(attributes@),
            blocks: block_models(blocks@),
        }],
{
    let b = HclBlock { identifier: String::from_str(identifier), labels: Vec::new(), attributes, blocks };
    assert(strs_model(b.labels@) =~= Seq::<Seq<char>>::empty());
    let ghost bm = block_model(b);
    let r = vec![b];
    proof {
        assert(r@.drop_last() =~= Seq::<HclBlock>::empty());
        assert(block_models(r@) == block_models(r@.drop_last()).push(block_model(r@.last())));
        assert(block_models(r@) =~= seq![bm]);
    }
    r
}

impl TfProviderMgmt {
    /// Nothing collected yet.
    pub fn new() -> (r: Self)
        ensures
            r@ == (MgmtModel {
                terraform: Seq::empty(),
                providers: Seq::empty(),
                variables: Seq::empty(),
                locals: Seq::empty(),
                output: Seq::empty(),
                data: Seq::empty(),
            }),
    {
        let r = TfProviderMgmt {
            terraform: Vec::new(),
            providers: Vec::new(),
            variables: Vec::new(),
            locals: Vec::new(),
            output: Vec::new(),
            data: Vec::new(),
        };
        assert(block_models(r.terraform@) =~= Seq::<BlockModel>::empty());
        r
    }

    /// Keeps a `terraform` block; other blocks are ignored.
    pub fn add_terraform(&mut self, new_block: &HclBlock)
        ensures
            final(self)@ == (MgmtModel { terraform: add_terraform(old(self)@.terraform, block_model(*new_block)), ..old(self)@ }),
    {
        if new_block.identifier == String::from_str("terraform") {
            push_block(&mut self.terraform, new_block);
        }
    }

    /// Keeps a `provider` block unless a configuration of the same provider with the same alias
    /// is kept already; other blocks are ignored.
    pub fn add_provider_configuration(&mut self, new_block: &HclBlock)
        ensures
            final(self)@ == (MgmtModel { providers: add_provider(old(self)@.providers, block_model(*new_block)), ..old(self)@ }),
    {
        if new_block.identifier != String::from_str("provider") {
            return;
        }
        proof {
            lemma_block_models(self.providers@);
        }
        let alias = get_alias(new_block);
        let mut i: usize = 0;
        while i < self.providers.len()
            invariant
                i <= self.providers@.len(),
                self.providers@ == old(self).providers@,
                block_models(self.providers@).len() == self.providers@.len(),
                forall|j: int| 0 <= j < self.providers@.len() ==> #[trigger] block_models(self.providers@)[j] == block_model(self.providers@[j]),
                match alias {
                    Some(e) => alias_of(block_model(*new_block)) == Some(expr_model(*e)),
                    None => alias_of(block_model(*new_block)) is None,
                },
                forall|j: int| 0 <= j < i ==> !(#[trigger] block_models(self.providers@)[j].labels == block_model(*new_block).labels
                    && alias_of(block_models(self.providers@)[j]) == alias_of(block_model(*new_block))),
            decreases self.providers.len() - i,
        {
            if strings_equal(&self.providers[i].labels, &new_block.labels) {
                let other = get_alias(&self.providers[i]);
                if same_alias(other, alias) {
                    assert(block_models(self.providers@)[i as int].labels == block_model(*new_block).labels);
                    assert(alias_of(block_models(self.providers@)[i as int]) == alias_of(block_model(*new_block)));
                    return;
                }
            }
            i = i + 1;
        }
        push_block(&mut self.providers, new_block);
    }

    /// The provider configurations kept.
    pub fn provider_configuration(&self) -> (r: Vec<HclBlock>)
        ensures
            block_models(r@) == self@.providers,
    {
        copy_blocks(&self.providers)
    }

    /// Keeps a `variable` block unless one with the same labels is kept already.
    pub fn add_variable(&mut self, new_block: &HclBlock)
        ensures
            final(self)@ == (MgmtModel { variables: add_unique(old(self)@.variables, "variable"@, block_model(*new_block)), ..old(self)@ }),
    {
        add_check_duplicate_on_labels(&mut self.variables, "variable", new_block);
    }

    /// The variables kept.
    pub fn variables(&self) -> (r: Vec<HclBlock>)
        ensures
            block_models(r@) == self@.variables,
    {
        copy_blocks(&self.variables)
    }

    /// Keeps each local of a `locals` block unless one of the same name is kept already.
    pub fn add_locals(&mut self, new_block: &HclBlock)
        ensures
            final(self)@ == (MgmtModel { locals: add_locals(old(self)@.locals, block_model(*new_block)), ..old(self)@ }),
    {
        if new_block.identifier != String::from_str("locals") {
            return;
        }
        let ghost base = attr_models(self.locals@);
        let ghost attrs = attr_models(new_block.attributes@);
        proof {
            lemma_attr_models(new_block.attributes@);
        }
        let mut i: usize = 0;
        while i < new_block.attributes.len()
            invariant
                i <= new_block.attributes@.len(),
                attrs == attr_models(new_block.attributes@),
                attrs.len() == new_block.attributes@.len(),
                forall|j: int| 0 <= j < new_block.attributes@.len() ==> #[trigger] attrs[j] == (new_block.attributes@[j].0@, expr_model(new_block.attributes@[j].1)),
                attr_models(self.locals@) == add_local_attrs(base, attrs.take(i as int)),
                self.terraform@ == old(self).terraform@,
                self.providers@ == old(self).providers@,
                self.variables@ == old(self).variables@,
                self.output@ == old(self).output@,
                self.data@ == old(self).data@,
            decreases new_block.attributes.len() - i,
        {
            assert(attrs.take(i + 1).drop_last() =~= attrs.take(i as int));
            assert(attrs.take(i + 1).last() == attrs[i as int]);
            let found = find_attr(&self.locals, new_block.attributes[i].0.as_str());
            if found.is_none() {
                let c = copy_expr(&new_block.attributes[i].1);
                let ghost prev = self.locals@;
                self.locals.push((new_block.attributes[i].0.clone(), c));
                assert(self.locals@.drop_last() =~= prev);
            }
            i = i + 1;
        }
        assert(attrs.take(attrs.len() as int) =~= attrs);
    }

    /// The `locals` block of the kept locals, if there are any.
    pub fn locals(&self) -> (r: Vec<HclBlock>)
        ensures
            block_models(r@) == locals_blocks(self@.locals),
    {
        if self.locals.len() == 0 {
            let r: Vec<HclBlock> = Vec::new();
            assert(block_models(r@) =~= Seq::<BlockModel>::empty());
            return r;
        }
        let b = HclBlock {
            identifier: String::from_str("locals"),
            labels: Vec::new(),
            attributes: copy_attrs(&self.locals),
            blocks: Vec::new(),
        };
        proof {
            reveal_strlit("locals");
            assert(strs_model(b.labels@) =~= Seq::<Seq<char>>::empty());
            assert(block_models(b.blocks@) =~= Seq::<BlockModel>::empty());
        }
        let ghost bm = block_model(b);
        assert(bm == BlockModel { identifier: "locals"@, labels: Seq::empty(), attributes: self@.locals, blocks: Seq::empty() });
        let r = vec![b];
        proof {
            assert(r@.drop_last() =~= Seq::<HclBlock>::empty());
            assert(block_models(r@) == block_models(r@.drop_last()).push(block_model(r@.last())));
            assert(block_models(r@) =~= seq![bm]);
        }
        r
    }

    /// Keeps an `output` block unless one with the same labels is kept already.
    pub fn add_output(&mut self, new_block: &HclBlock)
        ensures
            final(self)@ == (MgmtModel { output: add_unique(old(self)@.output, "output"@, block_model(*new_block)), ..old(self)@ }),
    {
        add_check_duplicate_on_labels(&mut self.output, "output", new_block);
    }

    /// The outputs kept.
    pub fn output(&self) -> (r: Vec<HclBlock>)
        ensures
            block_models(r@) == self@.output,
    {
        copy_blocks(&self.output)
    }

    /// Keeps a `data` block unless one with the same labels is kept already.
    pub fn add_data(&mut self, new_block: &HclBlock)
        ensures
            final(self)@ == (MgmtModel { data: add_unique(old(self)@.data, "data"@, block_model(*new_block)), ..old(self)@ }),
    {
        add_check_duplicate_on_labels(&mut self.data, "data", new_block);
    }

    /// The data sources kept.
    pub fn data(&self) -> (r: Vec<HclBlock>)
        ensures
            block_models(r@) == self@.data,
    {
        copy_blocks(&self.data)
    }

    /// Adds a block of any kind where its identifier says.
    pub fn add_block(&mut self, new_block: &HclBlock)
        ensures
            final(self)@ == add_block_model(old(self)@, block_model(*new_block)),
    {
        self.add_terraform(new_block);
        self.add_provider_configuration(new_block);
        self.add_locals(new_block);
        self.add_variable(new_block);
        self.add_data(new_block);
        self.add_output(new_block);
    }

    /// Whether the collected `terraform` blocks merge: each requirement of a provider that an
    /// earlier one requires already gives a version (what `terraform` and `build` need).
    pub fn terraform_merges(&self) -> (b: bool)
        ensures
            b == merge_terraform_ok(self@.terraform),
    {
        let ghost tm = block_models(self.terraform@);
        proof {
            lemma_block_models(self.terraform@);
        }
        let mut acc: Vec<(String, HclExpr)> = Vec::new();
        assert(attr_models(acc@) =~= Seq::<(Seq<char>, ExprModel)>::empty());
        let mut i: usize = 0;
        while i < self.terraform.len()
            invariant
                i <= self.terraform@.len(),
                tm == block_models(self.terraform@),
                tm.len() == self.terraform@.len(),
                forall|j: int| 0 <= j < self.terraform@.len() ==> #[trigger] tm[j] == block_model(self.terraform@[j]),
                attr_models(acc@) == merge_terraform(tm.take(i as int)),
                merge_terraform_ok(tm.take(i as int)),
            decreases self.terraform.len() - i,
        {
            assert(tm.take(i + 1).drop_last() =~= tm.take(i as int));
            assert(tm.take(i + 1).last() == tm[i as int]);
            if !merge_blocks_checked(&mut acc, &self.terraform[i].blocks) {
                proof {
                    assert(tm[i as int].blocks == block_models(self.terraform@[i as int].blocks@));
                    assert(!merge_terraform_ok(tm.take(i + 1)));
                    assert(!merge_terraform_ok(tm)) by {
                        if merge_terraform_ok(tm) {
                            lemma_merge_terraform_ok_prefix(tm, i + 1);
                        }
                    }
                }
                return false;
            }
            i = i + 1;
        }
        assert(tm.take(tm.len() as int) =~= tm);
        true
    }

    /// The one `terraform` block of the collected code (see `terraform_blocks`). A provider
    /// requirement that follows another one for the same provider must give a version.
    pub fn terraform(&self) -> (r: Vec<HclBlock>)
        requires
            merge_terraform_ok(self@.terraform),
        ensures
            block_models(r@) == terraform_blocks(self@.terraform),
    {
        let ghost tm = block_models(self.terraform@);
        proof {
            lemma_block_models(self.terraform@);
            reveal_strlit("required_version");
            reveal_strlit("provider_meta");
            reveal_strlit("terraform");
            reveal_strlit("required_providers");
        }
        if self.terraform.len() == 0 {
            let r: Vec<HclBlock> = Vec::new();
            assert(block_models(r@) =~= Seq::<BlockModel>::empty());
            return r;
        }
        let mut cs: Vec<String> = Vec::new();
        let mut acc: Vec<(String, HclExpr)> = Vec::new();
        let mut pm: Vec<HclBlock> = Vec::new();
        assert(block_models(pm@) =~= Seq::<BlockModel>::empty());
        assert(strs_model(cs@) =~= Seq::<Seq<char>>::empty());
        assert(attr_models(acc@) =~= Seq::<(Seq<char>, ExprModel)>::empty());
        let mut i: usize = 0;
        while i < self.terraform.len()
            invariant
                i <= self.terraform@.len(),
                tm == block_models(self.terraform@),
                tm.len() == self.terraform@.len(),
                forall|j: int| 0 <= j < self.terraform@.len() ==> #[trigger] tm[j] == block_model(self.terraform@[j]),
                strs_model(cs@) == terraform_constraints(tm.take(i as int)),
                attr_models(acc@) == merge_terraform(tm.take(i as int)),
                block_models(pm@) == provider_meta(tm.take(i as int)),
            decreases self.terraform.len() - i,
        {
            let tb = &self.terraform[i];
            assert(tm.take(i + 1).drop_last() =~= tm.take(i as int));
            assert(tm.take(i + 1).last() == tm[i as int]);
            let ghost am = attr_models(tb.attributes@);
            let ghost cs0 = strs_model(cs@);
            proof {
                lemma_attr_models(tb.attributes@);
            }
            let mut j: usize = 0;
            while j < tb.attributes.len()
                invariant
                    j <= tb.attributes@.len(),
                    am == attr_models(tb.attributes@),
                    am.len() == tb.attributes@.len(),
                    forall|q: int| 0 <= q < tb.attributes@.len() ==> #[trigger] am[q] == (tb.attributes@[q].0@, expr_model(tb.attributes@[q].1)),
                    strs_model(cs@) == cs0 + version_constraints(am.take(j as int)),
                decreases tb.attributes.len() - j,
            {
                assert(am.take(j + 1).drop_last() =~= am.take(j as int));
                assert(am.take(j + 1).last() == am[j as int]);
                let ghost prev = cs@;
                match &tb.attributes[j].1 {
                    HclExpr::Str(s) => {
                        if tb.attributes[j].0 == String::from_str("required_version") {
                            cs.push(s.clone());
                            assert(strs_model(cs@) =~= strs_model(prev).push(s@));
                        }
                    },
                    _ => {},
                }
                assert(cs0 + version_constraints(am.take(j + 1)) =~= strs_model(cs@));
                j = j + 1;
            }
            assert(am.take(am.len() as int) =~= am);
            merge_blocks_into(&mut acc, &tb.blocks);
            let ghost bm = block_models(tb.blocks@);
            let ghost pm0 = block_models(pm@);
            proof {
                lemma_block_models(tb.blocks@);
            }
            let mut k: usize = 0;
            while k < tb.blocks.len()
                invariant
                    k <= tb.blocks@.len(),
                    bm == block_models(tb.blocks@),
                    bm.len() == tb.blocks@.len(),
                    forall|q: int| 0 <= q < tb.blocks@.len() ==> #[trigger] bm[q] == block_model(tb.blocks@[q]),
                    block_models(pm@) == pm0 + blocks_named(bm.take(k as int), "provider_meta"@),
                decreases tb.blocks.len() - k,
            {
                assert(bm.take(k + 1).drop_last() =~= bm.take(k as int));
                assert(bm.take(k + 1).last() == bm[k as int]);
                let ghost prev = block_models(pm@);
                if tb.blocks[k].identifier == String::from_str("provider_meta") {
                    push_block(&mut pm, &tb.blocks[k]);
                }
                assert(pm0 + blocks_named(bm.take(k + 1), "provider_meta"@) =~= block_models(pm@));
                k = k + 1;
            }
            assert(bm.take(bm.len() as int) =~= bm);
            i = i + 1;
        }
        assert(tm.take(tm.len() as int) =~= tm);
        let mut attributes: Vec<(String, HclExpr)> = Vec::new();
        if cs.len() > 0 {
            let text = join_strings(&cs);
            push_attr(&mut attributes, String::from_str("required_version"), HclExpr::Str(text));
        }
        assert(attr_models(attributes@) =~= required_version(tm));
        let mut blocks: Vec<HclBlock> = if acc.len() > 0 {
            let none: Vec<HclBlock> = Vec::new();
            assert(block_models(none@) =~= Seq::<BlockModel>::empty());
            single_block("required_providers", acc, none)
        } else {
            let none: Vec<HclBlock> = Vec::new();
            assert(block_models(none@) =~= Seq::<BlockModel>::empty());
            none
        };
        assert(block_models(blocks@) =~= required_providers(tm));
        append_blocks(&mut blocks, &pm);
        single_block("terraform", attributes, blocks)
    }

    /// The collected code: the `terraform` block, provider configurations, the `locals` block,
    /// variables, data sources and outputs.
    pub fn build(&self) -> (r: Vec<HclBlock>)
        requires
            merge_terraform_ok(self@.terraform),
        ensures
            block_models(r@) == built(self@),
    {
        let mut out = self.terraform();
        append_blocks(&mut out, &self.providers);
        let ls = self.locals();
        append_blocks(&mut out, &ls);
        append_blocks(&mut out, &self.variables);
        append_blocks(&mut out, &self.data);
        append_blocks(&mut out, &self.output);
        out
    }
}

/// The provider configurations kept when each block is handed in turn to
/// `add_provider_configuration` of a new collection (see `configured` and
/// `law_provider_configurations`).
pub fn provider_configurations_of(blocks: &Vec<HclBlock>) -> (r: Vec<HclBlock>)
    ensures
        block_models(r@) == crate::merge_laws::configured(block_models(blocks@)),
{
    let ghost bm = block_models(blocks@);
    proof {
        lemma_block_models(blocks@);
    }
    let mut m = TfProviderMgmt::new();
    assert(bm.take(0) =~= Seq::<BlockModel>::empty());
    let mut i: usize = 0;
    while i < blocks.len()
        invariant
            i <= blocks@.len(),
            bm == block_models(blocks@),
            bm.len() == blocks@.len(),
            forall|q: int| 0 <= q < blocks@.len() ==> #[trigger] bm[q] == block_model(blocks@[q]),
            m@.providers == crate::merge_laws::configured(bm.take(i as int)),
        decreases blocks.len() - i,
    {
        assert(bm.take(i + 1).drop_last() =~= bm.take(i as int));
        assert(bm.take(i + 1).last() == bm[i as int]);
        m.add_provider_configuration(&blocks[i]);
        i = i + 1;
    }
    assert(bm.take(bm.len() as int) =~= bm);
    m.provider_configuration()
}

/// The code collected when each block is handed in turn to `add_block` of a new collection,
/// built (see `collected`, `built` and `law_build_keeps_only_merged_kinds`); `None` where its
/// `terraform` blocks do not merge.
pub fn build_from_blocks(blocks: &Vec<HclBlock>) -> (r: Option<Vec<HclBlock>>)
    ensures
        match r {
            Some(x) => merge_terraform_ok(crate::merge_laws::collected(block_models(blocks@)).terraform)
                && block_models(x@) == built(crate::merge_laws::collected(block_models(blocks@))),
            None => !merge_terraform_ok(crate::merge_laws::collected(block_models(blocks@)).terraform),
        },
{
    let ghost bm = block_models(blocks@);
    proof {
        lemma_block_models(blocks@);
    }
    let mut m = TfProviderMgmt::new();
    assert(bm.take(0) =~= Seq::<BlockModel>::empty());
    let mut i: usize = 0;
    while i < blocks.len()
        invariant
            i <= blocks@.len(),
            bm == block_models(blocks@),
            bm.len() == blocks@.len(),
            forall|q: int| 0 <= q < blocks@.len() ==> #[trigger] bm[q] == block_model(blocks@[q]),
            m@ == crate::merge_laws::collected(bm.take(i as int)),
        decreases blocks.len() - i,
    {
        assert(bm.take(i + 1).drop_last() =~= bm.take(i as int));
        assert(bm.take(i + 1).last() == bm[i as int]);
        m.add_block(&blocks[i]);
        i = i + 1;
    }
    assert(bm.take(bm.len() as int) =~= bm);
    if m.terraform_merges() {
        Some(m.build())
    } else {
        None
    }
}

} // verus!
