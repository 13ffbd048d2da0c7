//! The blocks of a stack's root module that come from its claims: a variable for each module
//! variable that no reference sets, an output for each module output, and the provider
//! requirements that the merged code gives.
use vstd::prelude::*;
use crate::blocks::{
    append_attrs, attr_models, block_model, block_models, expr_model, lemma_attr_models,
    lemma_block_models, push_attr, strs_model, BlockModel, ExprModel, HclBlock,
};
use crate::grouping::{split_by, split_str};
use crate::manifest::{TfOutput, TfRequiredProvider, TfVariable};
use crate::mapping::{key_index, model_lookup};
use crate::resolver::HclExpr;
use crate::tfcode::copy_opt_value;
use crate::value::Value;

verus! {

/// The expression of a JSON value: null, booleans, numbers and strings as they are, lists and
/// mappings item by item.
pub open spec fn json_expr(v: Value) -> ExprModel
    decreases v,
{
    match v {
        Value::Null => ExprModel::Null,
        Value::Bool(b) => ExprModel::Bool(b),
        Value::Number(n) => ExprModel::Number(n@),
        Value::Text(t) => ExprModel::Str(t@),
        Value::List(items) => ExprModel::Array(json_exprs(items@)),
        Value::Object(entries) => ExprModel::Object(json_entries(entries@)),
    }
}

pub open spec fn json_exprs(items: Seq<Value>) -> Seq<ExprModel>
    decreases items,
{
    if items.len() == 0 {
        Seq::empty()
    } else {
        json_exprs(items.drop_last()).push(json_expr(items.last()))
    }
}

pub open spec fn json_entries(entries: Seq<(String, Value)>) -> Seq<(Seq<char>, ExprModel)>
    decreases entries,
{
    if entries.len() == 0 {
        Seq::empty()
    } else {
        json_entries(entries.drop_last()).push((entries.last().0@, json_expr(entries.last().1)))
    }
}

/// The HCL expression of a JSON value (see `json_expr`).
pub fn json_to_hcl(value: &Value) -> (r: HclExpr)
    ensures
        expr_model(r) == json_expr(*value),
    decreases value,
{
    match value {
        Value::Null => HclExpr::Null,
        Value::Bool(b) => HclExpr::Bool(*b),
        Value::Number(n) => HclExpr::Number(n.clone()),
        Value::Text(t) => HclExpr::Str(t.clone()),
        Value::List(items) => {
            let mut out: Vec<HclExpr> = Vec::new();
            let mut i: usize = 0;
            while i < items.len()
                invariant
                    *value == Value::List(*items),
                    i <= items@.len(),
                    crate::blocks::expr_models(out@) == json_exprs(items@.take(i as int)),
                decreases items.len() - i,
            {
                proof {
                    assert(decreases_to!(*value => (*value)->List_0));
                    assert(decreases_to!((*value)->List_0 => (*value)->List_0@));
                    assert(decreases_to!((*value)->List_0@ => items@[i as int]));
                }
                let e = json_to_hcl(&items[i]);
                let ghost prev = out@;
                let ghost em = expr_model(e);
                out.push(e);
                assert(out@.drop_last() =~= prev);
                assert(crate::blocks::expr_models(out@) == crate::blocks::expr_models(prev).push(em));
                assert(items@.take(i + 1).drop_last() =~= items@.take(i as int));
                i = i + 1;
            }
            assert(items@.take(items@.len() as int) =~= items@);
            HclExpr::Array(out)
        },
        Value::Object(entries) => {
            let mut out: Vec<(String, HclExpr)> = Vec::new();
            let mut i: usize = 0;
            while i < entries.len()
                invariant
                    *value == Value::Object(*entries),
                    i <= entries@.len(),
                    attr_models(out@) == json_entries(entries@.take(i as int)),
                decreases entries.len() - i,
            {
                proof {
                    assert(decreases_to!(*value => (*value)->Object_0));
                    assert(decreases_to!((*value)->Object_0 => (*value)->Object_0@));
                    assert(decreases_to!((*value)->Object_0@ => entries@[i as int]));
                    assert(decreases_to!(entries@[i as int] => entries@[i as int].1));
                }
                let e = json_to_hcl(&entries[i].1);
                push_attr(&mut out, entries[i].0.clone(), e);
                assert(entries@.take(i + 1).drop_last() =~= entries@.take(i as int));
                i = i + 1;
            }
            assert(entries@.take(entries@.len() as int) =~= entries@);
            HclExpr::Object(out)
        },
    }
}

/// The variable block of the stack's root module for one module variable: its description,
/// whether it is nullable and sensitive, and its default where it has one.
pub open spec fn variable_block_model(name: Seq<char>, v: TfVariable) -> BlockModel {
    BlockModel {
        identifier: "variable"@,
        labels: seq![name],
        attributes: seq![
            ("description"@, ExprModel::Str(v.description@)),
            ("nullable"@, ExprModel::Bool(v.nullable)),
            ("sensitive"@, ExprModel::Bool(v.sensitive)),
        ] + match v.default {
            Some(d) => seq![("default"@, json_expr(d))],
            None => Seq::empty(),
        },
        blocks: Seq::empty(),
    }
}

fn single_label(name: &String) -> (r: Vec<String>)
    ensures
        strs_model(r@) == seq![name@],
{
    let r = vec![name.clone()];
    assert(r@.drop_last() =~= Seq::<String>::empty());
    assert(strs_model(r@) =~= seq![name@]);
    r
}

pub fn variable_block(name: &String, v: &TfVariable) -> (r: HclBlock)
    ensures
        block_model(r) == variable_block_model(name@, *v),
{
    proof {
        reveal_strlit("variable");
        reveal_strlit("description");
        reveal_strlit("nullable");
        reveal_strlit("sensitive");
        reveal_strlit("default");
    }
    let mut attributes: Vec<(String, HclExpr)> = Vec::new();
    assert(attr_models(attributes@) =~= Seq::<(Seq<char>, ExprModel)>::empty());
    push_attr(&mut attributes, String::from_str("description"), HclExpr::Str(v.description.clone()));
    push_attr(&mut attributes, String::from_str("nullable"), HclExpr::Bool(v.nullable));
    push_attr(&mut attributes, String::from_str("sensitive"), HclExpr::Bool(v.sensitive));
    match &v.default {
        Some(d) => {
            let e = json_to_hcl(d);
            push_attr(&mut attributes, String::from_str("default"), e);
        },
        None => {},
    }
    let blocks: Vec<HclBlock> = Vec::new();
    assert(block_models(blocks@) =~= Seq::<BlockModel>::empty());
    let r = HclBlock { identifier: String::from_str("variable"), labels: single_label(name), attributes, blocks };
    assert(attr_models(r.attributes@) =~= variable_block_model(name@, *v).attributes);
    r
}

pub open spec fn strs_contain(ks: Seq<Seq<char>>, k: Seq<char>) -> bool {
    ks.contains(k)
}

/// The variable blocks of the stack's root module: one for each variable of the collection that
/// no reference sets (whose key is not among `set_by_reference`), in order.
pub open spec fn variable_blocks_model(vars: Seq<(String, TfVariable)>, set_by_reference: Seq<Seq<char>>) -> Seq<BlockModel>
    decreases vars.len(),
{
    if vars.len() == 0 {
        Seq::empty()
    } else {
        let prev = variable_blocks_model(vars.drop_last(), set_by_reference);
        if strs_contain(set_by_reference, vars.last().0@) {
            prev
        } else {
            prev.push(variable_block_model(vars.last().0@, vars.last().1))
        }
    }
}

fn contains_key(keys: &Vec<String>, k: &String) -> (b: bool)
    ensures
        b == strs_contain(strs_model(keys@), k@),
{
    let mut i: usize = 0;
    while i < keys.len()
        invariant
            i <= keys@.len(),
            forall|j: int| 0 <= j < i ==> keys@[j]@ != k@,
        decreases keys.len() - i,
    {
        if keys[i] == *k {
            assert(strs_model(keys@)[i as int] == k@);
            return true;
        }
        i = i + 1;
    }
    assert(!strs_model(keys@).contains(k@)) by {
        if strs_model(keys@).contains(k@) {
            let j = choose|j: int| 0 <= j < strs_model(keys@).len() && strs_model(keys@)[j] == k@;
            assert(keys@[j]@ == k@);
        }
    }
    false
}

pub fn variable_blocks(variable_collection: &Vec<(String, TfVariable)>, set_by_reference: &Vec<String>) -> (r: Vec<HclBlock>)
    ensures
        block_models(r@) == variable_blocks_model(variable_collection@, strs_model(set_by_reference@)),
{
    let ghost vs = variable_collection@;
    let mut out: Vec<HclBlock> = Vec::new();
    assert(block_models(out@) =~= Seq::<BlockModel>::empty());
    let mut i: usize = 0;
    while i < variable_collection.len()
        invariant
            vs == variable_collection@,
            i <= vs.len(),
            block_models(out@) == variable_blocks_model(vs.take(i as int), strs_model(set_by_reference@)),
        decreases variable_collection.len() - i,
    {
        assert(vs.take(i + 1).drop_last() =~= vs.take(i as int));
        assert(vs.take(i + 1).last() == vs[i as int]);
        if !contains_key(set_by_reference, &variable_collection[i].0) {
            let b = variable_block(&variable_collection[i].0, &variable_collection[i].1);
            let ghost prev = out@;
            let ghost bm = block_model(b);
            out.push(b);
            assert(out@.drop_last() =~= prev);
            assert(block_models(out@) == block_models(prev).push(bm));
        }
        i = i + 1;
    }
    assert(vs.take(vs.len() as int) =~= vs);
    out
}

/// The output block of the stack's root module for one output `claim__output`: its
/// description, and its value `module.claim.output`.
pub open spec fn output_block_model(name: Seq<char>, description: Seq<char>) -> BlockModel {
    BlockModel {
        identifier: "output"@,
        labels: seq![name],
        attributes: seq![
            ("description"@, ExprModel::Str(description)),
            ("value"@, ExprModel::Traversal("module"@, split_str(name, "__"@))),
        ],
        blocks: Seq::empty(),
    }
}

pub fn output_block(output_name: &String, output: &TfOutput) -> (r: HclBlock)
    ensures
        block_model(r) == output_block_model(output_name@, output.description@),
{
    proof {
        reveal_strlit("output");
        reveal_strlit("description");
        reveal_strlit("value");
        reveal_strlit("module");
        reveal_strlit("__");
    }
    let parts = split_by(output_name.as_str(), "__");
    assert(strs_model(parts@) =~= split_str(output_name@, "__"@));
    let mut attributes: Vec<(String, HclExpr)> = Vec::new();
    assert(attr_models(attributes@) =~= Seq::<(Seq<char>, ExprModel)>::empty());
    push_attr(&mut attributes, String::from_str("description"), HclExpr::Str(output.description.clone()));
    push_attr(&mut attributes, String::from_str("value"), HclExpr::Traversal(String::from_str("module"), parts));
    let blocks: Vec<HclBlock> = Vec::new();
    assert(block_models(blocks@) =~= Seq::<BlockModel>::empty());
    let r = HclBlock { identifier: String::from_str("output"), labels: single_label(output_name), attributes, blocks };
    assert(attr_models(r.attributes@) =~= output_block_model(output_name@, output.description@).attributes);
    r
}

/// The output blocks of the stack's root module, one per output of the collection, in order.
pub fn output_blocks(output_collection: &Vec<(String, TfOutput)>) -> (r: Vec<HclBlock>)
    ensures
        block_models(r@) == output_collection@.map_values(|o: (String, TfOutput)| output_block_model(o.0@, o.1.description@)),
{
    let ghost os = output_collection@;
    let mut out: Vec<HclBlock> = Vec::new();
    let mut i: usize = 0;
    while i < output_collection.len()
        invariant
            os == output_collection@,
            i <= os.len(),
            block_models(out@) == os.take(i as int).map_values(|o: (String, TfOutput)| output_block_model(o.0@, o.1.description@)),
        decreases output_collection.len() - i,
    {
        let b = output_block(&output_collection[i].0, &output_collection[i].1);
        let ghost prev = out@;
        let ghost bm = block_model(b);
        out.push(b);
        assert(out@.drop_last() =~= prev);
        assert(block_models(out@) == block_models(prev).push(bm));
        assert(os.take(i + 1).map_values(|o: (String, TfOutput)| output_block_model(o.0@, o.1.description@)) =~= os.take(
            i as int,
        ).map_values(|o: (String, TfOutput)| output_block_model(o.0@, o.1.description@)).push(bm));
        i = i + 1;
    }
    assert(os.take(os.len() as int) =~= os);
    out
}

/// The variables of the stack as a whole: each variable of the collection that no reference
/// sets, named by its key (`claim__variable`), in order.
pub open spec fn stack_variables_model(vars: Seq<(String, TfVariable)>, set_by_reference: Seq<Seq<char>>) -> Seq<(Seq<char>, TfVariable)>
    decreases vars.len(),
{
    if vars.len() == 0 {
        Seq::empty()
    } else {
        let prev = stack_variables_model(vars.drop_last(), set_by_reference);
        if strs_contain(set_by_reference, vars.last().0@) {
            prev
        } else {
            prev.push((vars.last().0@, vars.last().1))
        }
    }
}

pub fn stack_variables(variable_collection: &Vec<(String, TfVariable)>, set_by_reference: &Vec<String>) -> (r: Vec<TfVariable>)
    ensures
        r@.len() == stack_variables_model(variable_collection@, strs_model(set_by_reference@)).len(),
        forall|i: int| 0 <= i < r@.len() ==> {
            let e = stack_variables_model(variable_collection@, strs_model(set_by_reference@))[i];
            &&& (#[trigger] r@[i]).name@ == e.0
            &&& r@[i].description@ == e.1.description@
            &&& r@[i].nullable == e.1.nullable
            &&& r@[i].sensitive == e.1.sensitive
            &&& r@[i].var_type@ == e.1.var_type@
            &&& crate::value::same_opt_value(r@[i].default, e.1.default)
        },
{
    let ghost vs = variable_collection@;
    let mut out: Vec<TfVariable> = Vec::new();
    let mut i: usize = 0;
    while i < variable_collection.len()
        invariant
            vs == variable_collection@,
            i <= vs.len(),
            out@.len() == stack_variables_model(vs.take(i as int), strs_model(set_by_reference@)).len(),
            forall|j: int| 0 <= j < out@.len() ==> {
                let e = stack_variables_model(vs.take(i as int), strs_model(set_by_reference@))[j];
                &&& (#[trigger] out@[j]).name@ == e.0
                &&& out@[j].description@ == e.1.description@
                &&& out@[j].nullable == e.1.nullable
                &&& out@[j].sensitive == e.1.sensitive
                &&& out@[j].var_type@ == e.1.var_type@
                &&& crate::value::same_opt_value(out@[j].default, e.1.default)
            },
        decreases variable_collection.len() - i,
    {
        assert(vs.take(i + 1).drop_last() =~= vs.take(i as int));
        assert(vs.take(i + 1).last() == vs[i as int]);
        let (key, v) = (&variable_collection[i].0, &variable_collection[i].1);
        if !contains_key(set_by_reference, key) {
            let d = copy_opt_value(&v.default);
            out.push(TfVariable {
                name: key.clone(),
                description: v.description.clone(),
                default: d,
                sensitive: v.sensitive,
                nullable: v.nullable,
                var_type: v.var_type.clone(),
            });
        }
        i = i + 1;
    }
    assert(vs.take(vs.len() as int) =~= vs);
    out
}

/// The attributes of the blocks with the given identifier, in order.
pub open spec fn attrs_of_named(bs: Seq<BlockModel>, id: Seq<char>) -> Seq<(Seq<char>, ExprModel)>
    decreases bs.len(),
{
    if bs.len() == 0 {
        Seq::empty()
    } else if bs.last().identifier == id {
        attrs_of_named(bs.drop_last(), id) + bs.last().attributes
    } else {
        attrs_of_named(bs.drop_last(), id)
    }
}

/// The attributes of the `required_providers` blocks inside the blocks, in order.
pub open spec fn required_attrs(ts: Seq<BlockModel>) -> Seq<(Seq<char>, ExprModel)>
    decreases ts.len(),
{
    if ts.len() == 0 {
        Seq::empty()
    } else {
        required_attrs(ts.drop_last()) + attrs_of_named(ts.last().blocks, "required_providers"@)
    }
}

/// One requirement `name = { source = "...", version = "..." }`: its name, source and version,
/// or what is wrong with it.
pub open spec fn requirement_of(a: (Seq<char>, ExprModel)) -> Result<(Seq<char>, Seq<char>, Seq<char>), Seq<char>> {
    match a.1 {
        ExprModel::Object(m) => match model_lookup(m, "source"@) {
            Some(ExprModel::Str(source)) => match model_lookup(m, "version"@) {
                Some(ExprModel::Str(version)) => Ok((a.0, source, version)),
                _ => Err("Missing version for required_provider \""@ + a.0 + "\""@),
            },
            _ => Err("Missing source for required_provider \""@ + a.0 + "\""@),
        },
        _ => Err("required_provider "@ + a.0 + " has and incorrect body"@),
    }
}

/// The requirements in order, or the problem of the first one that has one.
pub open spec fn requirements_of(attrs: Seq<(Seq<char>, ExprModel)>) -> Result<Seq<(Seq<char>, Seq<char>, Seq<char>)>, Seq<char>>
    decreases attrs.len(),
{
    if attrs.len() == 0 {
        Ok(Seq::empty())
    } else {
        match requirements_of(attrs.drop_last()) {
            Err(e) => Err(e),
            Ok(list) => match requirement_of(attrs.last()) {
                Ok(r) => Ok(list.push(r)),
                Err(e) => Err(e),
            },
        }
    }
}

pub open spec fn provider_triple(p: TfRequiredProvider) -> (Seq<char>, Seq<char>, Seq<char>) {
    (p.name@, p.source@, p.version@)
}

fn collect_required_attrs(terraform: &Vec<HclBlock>) -> (r: Vec<(String, HclExpr)>)
    ensures
        attr_models(r@) == required_attrs(block_models(terraform@)),
{
    let ghost tm = block_models(terraform@);
    proof {
        lemma_block_models(terraform@);
        reveal_strlit("required_providers");
    }
    let mut flat: Vec<(String, HclExpr)> = Vec::new();
    assert(attr_models(flat@) =~= Seq::<(Seq<char>, ExprModel)>::empty());
    let mut i: usize = 0;
    while i < terraform.len()
        invariant
            i <= terraform@.len(),
            tm == block_models(terraform@),
            tm.len() == terraform@.len(),
            forall|j: int| 0 <= j < terraform@.len() ==> #[trigger] tm[j] == block_model(terraform@[j]),
            attr_models(flat@) == required_attrs(tm.take(i as int)),
        decreases terraform.len() - i,
    {
        assert(tm.take(i + 1).drop_last() =~= tm.take(i as int));
        assert(tm.take(i + 1).last() == tm[i as int]);
        let inner = &terraform[i].blocks;
        let ghost bm = block_models(inner@);
        let ghost base = attr_models(flat@);
        proof {
            lemma_block_models(inner@);
        }
        let mut k: usize = 0;
        while k < inner.len()
            invariant
                k <= inner@.len(),
                bm == block_models(inner@),
                bm.len() == inner@.len(),
                forall|q: int| 0 <= q < inner@.len() ==> #[trigger] bm[q] == block_model(inner@[q]),
                attr_models(flat@) == base + attrs_of_named(bm.take(k as int), "required_providers"@),
            decreases inner.len() - k,
        {
            proof {
                reveal_strlit("required_providers");
            }
            assert(bm.take(k + 1).drop_last() =~= bm.take(k as int));
            assert(bm.take(k + 1).last() == bm[k as int]);
            if inner[k].identifier == String::from_str("required_providers") {
                append_attrs(&mut flat, &inner[k].attributes);
                assert(base + attrs_of_named(bm.take(k + 1), "required_providers"@) =~= base + attrs_of_named(bm.take(k as int), "required_providers"@) + bm[k as int].attributes);
            }
            k = k + 1;
        }
        assert(bm.take(bm.len() as int) =~= bm);
        i = i + 1;
    }
    assert(tm.take(tm.len() as int) =~= tm);
    flat
}

fn text_value(m: &Vec<(String, HclExpr)>, key: &str) -> (r: Option<String>)
    ensures
        match model_lookup(attr_models(m@), key@) {
            Some(ExprModel::Str(s)) => r matches Some(t) && t@ == s,
            _ => r is None,
        },
{
    proof {
        lemma_attr_models(m@);
    }
    let ks = String::from_str(key);
    let mut i: usize = 0;
    while i < m.len()
        invariant
            ks@ == key@,
            i <= m@.len(),
            attr_models(m@).len() == m@.len(),
            forall|j: int| 0 <= j < m@.len() ==> #[trigger] attr_models(m@)[j] == (m@[j].0@, expr_model(m@[j].1)),
            key_index(attr_models(m@), key@, 0) == key_index(attr_models(m@), key@, i as int),
        decreases m.len() - i,
    {
        if m[i].0 == ks {
            assert(attr_models(m@)[i as int].0 == key@);
            return match &m[i].1 {
                HclExpr::Str(s) => Some(s.clone()),
                _ => None,
            };
        }
        assert(attr_models(m@)[i as int].0 != key@);
        i = i + 1;
    }
    None
}

fn message(a: &str, b: &str, c: &str) -> (r: String)
    ensures
        r@ == a@ + b@ + c@,
{
    let mut out: Vec<char> = Vec::new();
    crate::text::append_str(&mut out, a);
    crate::text::append_str(&mut out, b);
    crate::text::append_str(&mut out, c);
    crate::text::from_chars(out.as_slice())
}

/// The provider requirements of the merged `terraform` blocks (see `requirements_of`).
pub fn required_providers_of(terraform: &Vec<HclBlock>) -> (r: Result<Vec<TfRequiredProvider>, String>)
    ensures
        match requirements_of(required_attrs(block_models(terraform@))) {
            Ok(list) => r is Ok && r->Ok_0@.map_values(|p: TfRequiredProvider| provider_triple(p)) == list,
            Err(e) => r is Err && r->Err_0@ == e,
        },
{
    let flat = collect_required_attrs(terraform);
    let ghost am = attr_models(flat@);
    proof {
        lemma_attr_models(flat@);
        reveal_strlit("source");
        reveal_strlit("version");
    }
    let mut out: Vec<TfRequiredProvider> = Vec::new();
    assert(am.take(0) =~= Seq::<(Seq<char>, ExprModel)>::empty());
    assert(out@.map_values(|p: TfRequiredProvider| provider_triple(p)) =~= Seq::<(Seq<char>, Seq<char>, Seq<char>)>::empty());
    let mut i: usize = 0;
    while i < flat.len()
        invariant
            i <= flat@.len(),
            am == attr_models(flat@),
            am == required_attrs(block_models(terraform@)),
            am.len() == flat@.len(),
            forall|j: int| 0 <= j < flat@.len() ==> #[trigger] am[j] == (flat@[j].0@, expr_model(flat@[j].1)),
            requirements_of(am.take(i as int)) == Ok::<Seq<(Seq<char>, Seq<char>, Seq<char>)>, Seq<char>>(out@.map_values(|p: TfRequiredProvider| provider_triple(p))),
        decreases flat.len() - i,
    {
        assert(am.take(i + 1).drop_last() =~= am.take(i as int));
        assert(am.take(i + 1).last() == am[i as int]);
        proof {
            reveal_strlit("Missing version for required_provider \"");
            reveal_strlit("Missing source for required_provider \"");
            reveal_strlit("\"");
            reveal_strlit("required_provider ");
            reveal_strlit(" has and incorrect body");
            reveal_strlit("source");
            reveal_strlit("version");
        }
        let name = &flat[i].0;
        match &flat[i].1 {
            HclExpr::Object(m) => {
                assert(am[i as int] == (name@, ExprModel::Object(attr_models(m@))));
                match text_value(m, "source") {
                    Some(source) => match text_value(m, "version") {
                        Some(version) => {
                            let ghost prev = out@;
                            out.push(TfRequiredProvider { name: name.clone(), source, version });
                            assert(out@.map_values(|p: TfRequiredProvider| provider_triple(p)) =~= prev.map_values(
                                |p: TfRequiredProvider| provider_triple(p),
                            ).push(provider_triple(out@.last())));
                        },
                        None => {
                            let e = message("Missing version for required_provider \"", name.as_str(), "\"");
                            assert(requirement_of(am[i as int]) == Err::<(Seq<char>, Seq<char>, Seq<char>), Seq<char>>(e@));
                            assert(requirements_of(am.take(i + 1)) == Err::<Seq<(Seq<char>, Seq<char>, Seq<char>)>, Seq<char>>(e@));
                            proof {
                                lemma_requirements_stop(am, i as int + 1);
                            }
                            return Err(e);
                        },
                    },
                    None => {
                        let e = message("Missing source for required_provider \"", name.as_str(), "\"");
                        assert(requirement_of(am[i as int]) == Err::<(Seq<char>, Seq<char>, Seq<char>), Seq<char>>(e@));
                        assert(requirements_of(am.take(i + 1)) == Err::<Seq<(Seq<char>, Seq<char>, Seq<char>)>, Seq<char>>(e@));
                        proof {
                            lemma_requirements_stop(am, i as int + 1);
                        }
                        return Err(e);
                    },
                }
            },
            _ => {
                let e = message("required_provider ", name.as_str(), " has and incorrect body");
                proof {
                    lemma_requirements_stop(am, i as int + 1);
                }
                return Err(e);
            },
        }
        i = i + 1;
    }
    assert(am.take(am.len() as int) =~= am);
    Ok(out)
}

/// Once a prefix has a problem, every longer prefix has the same one.
proof fn lemma_requirements_stop(attrs: Seq<(Seq<char>, ExprModel)>, n: int)
    requires
        0 <= n <= attrs.len(),
        requirements_of(attrs.take(n)) is Err,
    ensures
        requirements_of(attrs) == requirements_of(attrs.take(n)),
    decreases attrs.len() - n,
{
    if n < attrs.len() {
        assert(attrs.take(n + 1).drop_last() =~= attrs.take(n));
        lemma_requirements_stop(attrs, n + 1);
    } else {
        assert(attrs.take(n) =~= attrs);
    }
}

} // verus!
