//! The module calls of a stack's root module: one `module` block per claim, with the claim's
//! values (or the stack's variables) as inputs, the providers it is given, and the claims it
//! depends on.
use vstd::prelude::*;
use crate::blocks::{append_attrs, attr_models, block_model, expr_model, lemma_attr_models, push_attr, strs_model, BlockModel, ExprModel, HclBlock};
use crate::casing::{camel_case, to_camel_case};
use crate::manifest::DeploymentManifest;
use crate::publishing::{configuration_name, ProviderConfig};
use crate::resolver::{expr_of, ref_target, resolvable, string_result, HclExpr, StrExprView, TfInputResolver};
use crate::text::{append_str, from_chars, lemma_split_on_nonempty, split_chars, split_on, to_chars};
use crate::value::{get_entry, object_get, Value};

verus! {

/// The expression holds no reference to anything: no template and no traversal with
/// attributes, in none of its items.
pub open spec fn expr_can_be_variable(e: HclExpr) -> bool
    decreases e,
{
    match e {
        HclExpr::Array(items) => forall|i: int| 0 <= i < items@.len() ==> expr_can_be_variable(#[trigger] items@[i]),
        HclExpr::Object(es) => forall|i: int| 0 <= i < es@.len() ==> expr_can_be_variable(#[trigger] es@[i].1),
        HclExpr::Quoted(_) => false,
        HclExpr::Heredoc(_) => false,
        HclExpr::Traversal(_, attrs) => attrs@.len() == 0,
        _ => true,
    }
}

/// Whether an expression can be replaced by a variable (see `expr_can_be_variable`).
pub fn can_be_variable(e: &HclExpr) -> (r: bool)
    ensures
        r == expr_can_be_variable(*e),
    decreases e,
{
    match e {
        HclExpr::Array(items) => {
            let mut i: usize = 0;
            while i < items.len()
                invariant
                    *e == HclExpr::Array(*items),
                    i <= items@.len(),
                    forall|j: int| 0 <= j < i ==> expr_can_be_variable(#[trigger] items@[j]),
                decreases items.len() - i,
            {
                proof {
                    assert(decreases_to!(*e => (*e)->Array_0));
                    assert(decreases_to!((*e)->Array_0 => (*e)->Array_0@));
                    assert(decreases_to!((*e)->Array_0@ => items@[i as int]));
                }
                if !can_be_variable(&items[i]) {
                    return false;
                }
                i = i + 1;
            }
            true
        },
        HclExpr::Object(es) => {
            let mut i: usize = 0;
            while i < es.len()
                invariant
                    *e == HclExpr::Object(*es),
                    i <= es@.len(),
                    forall|j: int| 0 <= j < i ==> expr_can_be_variable(#[trigger] es@[j].1),
                decreases es.len() - i,
            {
                proof {
                    assert(decreases_to!(*e => (*e)->Object_0));
                    assert(decreases_to!((*e)->Object_0 => (*e)->Object_0@));
                    assert(decreases_to!((*e)->Object_0@ => es@[i as int]));
                    assert(decreases_to!(es@[i as int] => es@[i as int].1));
                }
                if !can_be_variable(&es[i].1) {
                    return false;
                }
                i = i + 1;
            }
            true
        },
        HclExpr::Quoted(_) => false,
        HclExpr::Heredoc(_) => false,
        HclExpr::Traversal(_, attrs) => attrs.len() == 0,
        _ => true,
    }
}

/// A claim value whose expression holds no reference: every string in it is a plain string.
pub open spec fn value_can_be_variable(v: Value, vars: Seq<Seq<char>>, outs: Seq<Seq<char>>) -> bool
    decreases v,
{
    match v {
        Value::Text(s) => string_result(s@, vars, outs) matches Ok(StrExprView::Str(_)),
        Value::List(items) => forall|i: int| 0 <= i < items@.len() ==> value_can_be_variable(#[trigger] items@[i], vars, outs),
        Value::Object(es) => forall|i: int| 0 <= i < es@.len() ==> value_can_be_variable(#[trigger] es@[i].1, vars, outs),
        _ => true,
    }
}

proof fn lemma_can_be_variable(v: Value, e: HclExpr, vars: Seq<Seq<char>>, outs: Seq<Seq<char>>)
    requires
        expr_of(v, e, vars, outs),
    ensures
        expr_can_be_variable(e) == value_can_be_variable(v, vars, outs),
    decreases v,
{
    match v {
        Value::List(items) => {
            assert(e is Array);
            let es = e->Array_0;
            assert(es@.len() == items@.len());
            assert forall|i: int| 0 <= i < items@.len() implies expr_can_be_variable(#[trigger] es@[i]) == value_can_be_variable(items@[i], vars, outs) by {
                assert(decreases_to!(v => v->List_0));
                assert(decreases_to!(v->List_0 => items@));
                assert(decreases_to!(items@ => items@[i]));
                lemma_can_be_variable(items@[i], es@[i], vars, outs);
            }
            if expr_can_be_variable(e) {
                assert forall|i: int| 0 <= i < items@.len() implies value_can_be_variable(#[trigger] items@[i], vars, outs) by {
                    assert(expr_can_be_variable(es@[i]));
                }
                assert(value_can_be_variable(v, vars, outs));
            } else {
                assert(!(forall|i: int| 0 <= i < es@.len() ==> expr_can_be_variable(#[trigger] es@[i])));
                let i = choose|i: int| 0 <= i < es@.len() && !expr_can_be_variable(#[trigger] es@[i]);
                assert(!value_can_be_variable(items@[i], vars, outs));
                assert(!value_can_be_variable(v, vars, outs));
            }
        },
        Value::Object(entries) => {
            assert(e is Object);
            let es = e->Object_0;
            assert(es@.len() == entries@.len());
            assert forall|i: int| 0 <= i < entries@.len() implies expr_can_be_variable(#[trigger] es@[i].1) == value_can_be_variable(entries@[i].1, vars, outs) by {
                assert(decreases_to!(v => v->Object_0));
                assert(decreases_to!(v->Object_0 => entries@));
                assert(decreases_to!(entries@ => entries@[i]));
                assert(decreases_to!(entries@[i] => entries@[i].1));
                lemma_can_be_variable(entries@[i].1, es@[i].1, vars, outs);
            }
            if expr_can_be_variable(e) {
                assert forall|i: int| 0 <= i < entries@.len() implies value_can_be_variable(#[trigger] entries@[i].1, vars, outs) by {
                    assert(expr_can_be_variable(es@[i].1));
                }
            } else {
                let i = choose|i: int| 0 <= i < es@.len() && !expr_can_be_variable(#[trigger] es@[i].1);
                assert(!value_can_be_variable(entries@[i].1, vars, outs));
            }
        },
        Value::Text(s) => {
            match string_result(s@, vars, outs) {
                Ok(StrExprView::Traversal(root, attrs)) => {
                    let ms = crate::refs::refs_in(s@);
                    assert(ref_target(ms[0], vars, outs) == Ok::<(Seq<char>, Seq<Seq<char>>), Seq<char>>((root, attrs)));
                    assert(attrs.len() > 0);
                    let a = e->Traversal_1;
                    assert(crate::stack::strs_view(a@).len() == a@.len());
                },
                _ => {},
            }
        },
        _ => {},
    }
}

/// The expression is `var.<name>`.
pub open spec fn is_var_ref(e: HclExpr, name: Seq<char>) -> bool {
    e matches HclExpr::Traversal(root, attrs) && root@ == "var"@ && strs_model(attrs@) == seq![name]
}

fn var_ref(name: &String) -> (e: HclExpr)
    ensures
        is_var_ref(e, name@),
{
    let attrs = vec![name.clone()];
    proof {
        reveal_strlit("var");
        assert(attrs@.drop_last() =~= Seq::<String>::empty());
        assert(strs_model(attrs@) =~= seq![name@]);
    }
    HclExpr::Traversal(String::from_str("var"), attrs)
}

/// The value a claim gives for a module input, by the input's camelCase name.
pub open spec fn claim_value(deployment: DeploymentManifest, input_name: Seq<char>) -> Option<Value> {
    object_get(deployment.spec.variables, camel_case(input_name))
}

/// Each value the claim gives for an input resolves.
pub open spec fn inputs_resolvable(module_inputs: Seq<(String, String)>, deployment: DeploymentManifest, vars: Seq<Seq<char>>, outs: Seq<Seq<char>>) -> bool {
    forall|i: int| 0 <= i < module_inputs.len() ==> match claim_value(deployment, (#[trigger] module_inputs[i]).0@) {
        Some(v) => resolvable(v, vars, outs),
        None => true,
    }
}

/// The input is what the claim gives for it, resolved, where that holds a reference; else the
/// stack variable `fq_name`.
pub open spec fn input_is(e: HclExpr, value: Option<Value>, fq_name: Seq<char>, vars: Seq<Seq<char>>, outs: Seq<Seq<char>>) -> bool {
    match value {
        Some(v) => if value_can_be_variable(v, vars, outs) {
            is_var_ref(e, fq_name)
        } else {
            expr_of(v, e, vars, outs)
        },
        None => is_var_ref(e, fq_name),
    }
}

/// The inputs of a claim's module call: for each (input, stack variable) pair, the claim's
/// value for the input where it refers to another claim or to the stack, else the stack
/// variable. Each value the claim gives must resolve.
pub fn variables(module_inputs: &Vec<(String, String)>, deployment: &DeploymentManifest, input_resolver: &TfInputResolver) -> (r: Vec<(String, HclExpr)>)
    requires
        inputs_resolvable(module_inputs@, *deployment, input_resolver.vars(), input_resolver.outs()),
    ensures
        r@.len() == module_inputs@.len(),
        forall|i: int| 0 <= i < r@.len() ==> {
            &&& (#[trigger] r@[i]).0@ == module_inputs@[i].0@
            &&& input_is(r@[i].1, claim_value(*deployment, module_inputs@[i].0@), module_inputs@[i].1@, input_resolver.vars(), input_resolver.outs())
        },
{
    let mut out: Vec<(String, HclExpr)> = Vec::new();
    let mut i: usize = 0;
    while i < module_inputs.len()
        invariant
            i <= module_inputs@.len(),
            inputs_resolvable(module_inputs@, *deployment, input_resolver.vars(), input_resolver.outs()),
            out@.len() == i,
            forall|j: int| 0 <= j < i ==> {
                &&& (#[trigger] out@[j]).0@ == module_inputs@[j].0@
                &&& input_is(out@[j].1, claim_value(*deployment, module_inputs@[j].0@), module_inputs@[j].1@, input_resolver.vars(), input_resolver.outs())
            },
        decreases module_inputs.len() - i,
    {
        let name = &module_inputs[i].0;
        let fq = &module_inputs[i].1;
        let camel = to_camel_case(name.as_str());
        let e = match get_entry(&deployment.spec.variables, camel.as_str()) {
            Some(val) => {
                assert(claim_value(*deployment, module_inputs@[i as int].0@) == Some(*val));
                let resolved = input_resolver.resolve_ref(val);
                proof {
                    lemma_can_be_variable(*val, resolved, input_resolver.vars(), input_resolver.outs());
                }
                if can_be_variable(&resolved) {
                    var_ref(fq)
                } else {
                    resolved
                }
            },
            None => var_ref(fq),
        };
        out.push((name.clone(), e));
        i = i + 1;
    }
    out
}

/// The expression of a provider configuration name: `provider` or `provider.alias`, split at
/// each `.`.
pub open spec fn config_expr(name: Seq<char>) -> ExprModel {
    let parts = split_on(name, '.');
    ExprModel::Traversal(parts[0], parts.drop_first())
}

fn config_name_to_expression(provider_name: &String) -> (e: HclExpr)
    ensures
        expr_model(e) == config_expr(provider_name@),
{
    let parts = split_chars(to_chars(provider_name.as_str()).as_slice(), '.');
    let ghost ps = split_on(provider_name@, '.');
    proof {
        lemma_split_on_nonempty(provider_name@, '.');
    }
    let root = from_chars(parts[0].as_slice());
    let mut attrs: Vec<String> = Vec::new();
    let mut k: usize = 1;
    while k < parts.len()
        invariant
            1 <= k <= parts@.len(),
            parts@.len() == ps.len(),
            forall|q: int| 0 <= q < parts@.len() ==> #[trigger] parts@[q]@ == ps[q],
            attrs@.len() == k - 1,
            forall|q: int| 0 <= q < k - 1 ==> (#[trigger] attrs@[q])@ == ps[q + 1],
        decreases parts.len() - k,
    {
        attrs.push(from_chars(parts[k].as_slice()));
        k = k + 1;
    }
    assert(strs_model(attrs@) =~= ps.drop_first());
    HclExpr::Traversal(root, attrs)
}

/// The providers a module call passes on: each configuration name to itself.
pub open spec fn providers_model(ps: Seq<ProviderConfig>) -> Seq<(Seq<char>, ExprModel)> {
    ps.map_values(|p: ProviderConfig| (configuration_name(p), config_expr(configuration_name(p))))
}

fn configuration_text(p: &ProviderConfig) -> (r: String)
    ensures
        r@ == configuration_name(*p),
{
    match &p.alias {
        Some(a) => {
            let mut out: Vec<char> = Vec::new();
            append_str(&mut out, p.provider.as_str());
            append_str(&mut out, ".");
            append_str(&mut out, a.as_str());
            from_chars(out.as_slice())
        },
        None => p.provider.clone(),
    }
}

/// The `providers` entries of a module call: each provider configuration (`provider` or
/// `provider.alias`) passed on as itself; the key is the configuration name.
pub fn providers(tf_providers: &Vec<ProviderConfig>) -> (r: Vec<(String, HclExpr)>)
    ensures
        attr_models(r@) == providers_model(tf_providers@),
{
    let mut out: Vec<(String, HclExpr)> = Vec::new();
    let mut i: usize = 0;
    while i < tf_providers.len()
        invariant
            i <= tf_providers@.len(),
            attr_models(out@) == providers_model(tf_providers@.take(i as int)),
        decreases tf_providers.len() - i,
    {
        let name = configuration_text(&tf_providers[i]);
        let e = config_name_to_expression(&name);
        let ghost prev = out@;
        out.push((name, e));
        assert(out@.drop_last() =~= prev);
        assert(providers_model(tf_providers@.take(i + 1)) =~= providers_model(tf_providers@.take(i as int)).push(
            (configuration_name(tf_providers@[i as int]), config_expr(configuration_name(tf_providers@[i as int]))),
        ));
        i = i + 1;
    }
    assert(tf_providers@.take(tf_providers@.len() as int) =~= tf_providers@);
    out
}

/// `depends_on = [module.a, module.b, ...]`, where there are dependencies.
pub open spec fn dependencies_model(deps: Seq<Seq<char>>) -> Seq<(Seq<char>, ExprModel)> {
    if deps.len() == 0 {
        Seq::empty()
    } else {
        seq![("depends_on"@, ExprModel::Array(deps.map_values(|d: Seq<char>| ExprModel::Traversal("module"@, seq![d]))))]
    }
}

fn dependencies_attributes(dependencies: &Vec<String>) -> (r: Vec<(String, HclExpr)>)
    ensures
        attr_models(r@) == dependencies_model(strs_model(dependencies@)),
{
    let mut out: Vec<(String, HclExpr)> = Vec::new();
    if dependencies.len() == 0 {
        assert(attr_models(out@) =~= Seq::<(Seq<char>, ExprModel)>::empty());
        return out;
    }
    proof {
        reveal_strlit("module");
        reveal_strlit("depends_on");
    }
    let mut items: Vec<HclExpr> = Vec::new();
    let mut i: usize = 0;
    while i < dependencies.len()
        invariant
            i <= dependencies@.len(),
            "module"@.len() == 6,
            crate::blocks::expr_models(items@) == strs_model(dependencies@.take(i as int)).map_values(
                |d: Seq<char>| ExprModel::Traversal("module"@, seq![d]),
            ),
        decreases dependencies.len() - i,
    {
        let attrs = vec![dependencies[i].clone()];
        assert(attrs@.drop_last() =~= Seq::<String>::empty());
        assert(strs_model(attrs@) =~= seq![dependencies@[i as int]@]);
        let t = HclExpr::Traversal(String::from_str("module"), attrs);
        assert(expr_model(t) == ExprModel::Traversal("module"@, seq![dependencies@[i as int]@]));
        let ghost prev = items@;
        let ghost tm = expr_model(t);
        items.push(t);
        assert(items@.drop_last() =~= prev);
        assert(crate::blocks::expr_models(items@) == crate::blocks::expr_models(prev).push(tm));
        assert(strs_model(dependencies@.take(i + 1)).map_values(|d: Seq<char>| ExprModel::Traversal("module"@, seq![d]))
            =~= strs_model(dependencies@.take(i as int)).map_values(|d: Seq<char>| ExprModel::Traversal("module"@, seq![d])).push(
            ExprModel::Traversal("module"@, seq![dependencies@[i as int]@]),
        ));
        i = i + 1;
    }
    assert(dependencies@.take(dependencies@.len() as int) =~= dependencies@);
    out.push((String::from_str("depends_on"), HclExpr::Array(items)));
    proof {
        lemma_attr_models(out@);
        assert(attr_models(out@) =~= dependencies_model(strs_model(dependencies@)));
    }
    out
}

/// The module call of a claim: labelled with the claim's name, its source `./<kind>-<version>`,
/// then the inputs, the providers it is given and what it depends on. The claim must name a
/// module version.
pub open spec fn module_call_model(
    name: Seq<char>,
    kind: Seq<char>,
    version: Seq<char>,
    variables: Seq<(Seq<char>, ExprModel)>,
    providers: Seq<(Seq<char>, ExprModel)>,
    dependencies: Seq<Seq<char>>,
) -> BlockModel {
    BlockModel {
        identifier: "module"@,
        labels: seq![name],
        attributes: seq![("source"@, ExprModel::Str("./"@ + kind + "-"@ + version))] + variables + seq![
            ("providers"@, ExprModel::Object(providers)),
        ] + dependencies_model(dependencies),
        blocks: Seq::empty(),
    }
}

pub open spec fn module_block_model(
    deployment: DeploymentManifest,
    variables: Seq<(Seq<char>, ExprModel)>,
    providers: Seq<(Seq<char>, ExprModel)>,
    dependencies: Seq<Seq<char>>,
) -> BlockModel {
    module_call_model(
        deployment.metadata.name@,
        deployment.kind@,
        deployment.spec.module_version->Some_0@,
        variables,
        providers,
        dependencies,
    )
}

pub fn module_block(
    deployment: &DeploymentManifest,
    variables: &Vec<(String, HclExpr)>,
    providers: &Vec<(String, HclExpr)>,
    dependencies: &Vec<String>,
) -> (r: HclBlock)
    requires
        deployment.spec.module_version is Some,
    ensures
        block_model(r) == module_block_model(*deployment, attr_models(variables@), attr_models(providers@), strs_model(dependencies@)),
{
    proof {
        reveal_strlit("module");
        reveal_strlit("source");
        reveal_strlit("providers");
    }
    let version = match &deployment.spec.module_version {
        Some(v) => v,
        None => {
            return HclBlock { identifier: String::new(), labels: Vec::new(), attributes: Vec::new(), blocks: Vec::new() };
        },
    };
    let mut src: Vec<char> = Vec::new();
    append_str(&mut src, "./");
    append_str(&mut src, deployment.kind.as_str());
    append_str(&mut src, "-");
    append_str(&mut src, version.as_str());
    let mut attributes: Vec<(String, HclExpr)> = Vec::new();
    assert(attr_models(attributes@) =~= Seq::<(Seq<char>, ExprModel)>::empty());
    push_attr(&mut attributes, String::from_str("source"), HclExpr::Str(from_chars(src.as_slice())));
    append_attrs(&mut attributes, variables);
    let pv = crate::blocks::copy_attrs(providers);
    push_attr(&mut attributes, String::from_str("providers"), HclExpr::Object(pv));
    let deps = dependencies_attributes(dependencies);
    append_attrs(&mut attributes, &deps);
    let labels = vec![deployment.metadata.name.clone()];
    proof {
        assert(labels@.drop_last() =~= Seq::<String>::empty());
        assert(strs_model(labels@) =~= seq![deployment.metadata.name@]);
    }
    let blocks: Vec<HclBlock> = Vec::new();
    assert(crate::blocks::block_models(blocks@) =~= Seq::<BlockModel>::empty());
    let r = HclBlock {
        identifier: String::from_str("module"),
        labels,
        attributes,
        blocks,
    };
    assert(attr_models(r.attributes@) =~= seq![("source"@, ExprModel::Str("./"@ + deployment.kind@ + "-"@ + deployment.spec.module_version->Some_0@))]
        + attr_models(variables@) + seq![("providers"@, ExprModel::Object(attr_models(providers@)))] + dependencies_model(strs_model(dependencies@)));
    r
}

} // verus!
