//! The root module that a published module is wrapped in: the providers' code, the module's
//! variables, its outputs exposed from the module call, and the module call itself.
use vstd::prelude::*;
use crate::blocks::{
    attr_models, block_model, block_models, copy_attrs, copy_block, copy_blocks, lemma_attr_models,
    lemma_block_models, strs_model, BlockModel, ExprModel, HclBlock,
};
use crate::manifest::{DeploymentManifest, DeploymentMetadata, DeploymentSpec};
use crate::mapping::key_index;
use crate::provider_mgmt::{add_block_model, blocks_named, MgmtModel, TfProviderMgmt};
use crate::publishing::ProviderConfig;
use crate::resolver::{HclExpr, TfInputResolver};
use crate::root_module::{claim_value, is_var_ref, module_block, module_call_model, providers, providers_model, variables};
use crate::value::Value;

verus! {

/// The entries without the first one with key `k`.
pub open spec fn remove_first_key<V>(m: Seq<(Seq<char>, V)>, k: Seq<char>) -> Seq<(Seq<char>, V)> {
    match key_index(m, k, 0) {
        Some(q) => m.remove(q),
        None => m,
    }
}

/// The entries with the first one with key `k` set to `v`.
pub open spec fn set_first_key<V>(m: Seq<(Seq<char>, V)>, k: Seq<char>, v: V) -> Seq<(Seq<char>, V)> {
    match key_index(m, k, 0) {
        Some(q) => m.update(q, (k, v)),
        None => m,
    }
}

/// An output of the module as the root module exposes it: its value is the module call's
/// output of the same name, and it has no `depends_on` (the module's resources are not visible
/// from the root module).
pub open spec fn remapped_output(module: Seq<char>, b: BlockModel) -> BlockModel {
    BlockModel {
        attributes: set_first_key(
            remove_first_key(b.attributes, "depends_on"@),
            "value"@,
            ExprModel::Traversal("module"@, seq![module, b.labels[0]]),
        ),
        ..b
    }
}

/// The output has a name and a value.
pub open spec fn output_remappable(b: BlockModel) -> bool {
    b.labels.len() >= 1 && key_index(remove_first_key(b.attributes, "depends_on"@), "value"@, 0) is Some
}

fn find_key(attrs: &Vec<(String, HclExpr)>, key: &str) -> (r: Option<usize>)
    ensures
        match r {
            Some(q) => key_index(attr_models(attrs@), key@, 0) == Some(q as int) && q < attrs@.len(),
            None => key_index(attr_models(attrs@), key@, 0) is None,
        },
{
    let ghost am = attr_models(attrs@);
    proof {
        lemma_attr_models(attrs@);
    }
    let ks = String::from_str(key);
    let mut i: usize = 0;
    while i < attrs.len()
        invariant
            ks@ == key@,
            am == attr_models(attrs@),
            am.len() == attrs@.len(),
            forall|j: int| 0 <= j < attrs@.len() ==> #[trigger] am[j] == (attrs@[j].0@, crate::blocks::expr_model(attrs@[j].1)),
            i <= attrs@.len(),
            key_index(am, key@, 0) == key_index(am, key@, i as int),
        decreases attrs.len() - i,
    {
        if attrs[i].0 == ks {
            assert(am[i as int].0 == key@);
            return Some(i);
        }
        assert(am[i as int].0 != key@);
        i = i + 1;
    }
    None
}

/// Whether an output has a name and a value (see `output_remappable`).
pub fn is_output_remappable(b: &HclBlock) -> (r: bool)
    ensures
        r == output_remappable(block_model(*b)),
{
    proof {
        reveal_strlit("depends_on");
        reveal_strlit("value");
    }
    let mut attributes = copy_attrs(&b.attributes);
    let ghost a0 = attr_models(attributes@);
    match find_key(&attributes, "depends_on") {
        Some(q) => {
            let ghost before = attributes@;
            attributes.remove(q);
            proof {
                lemma_attr_models(before);
                lemma_attr_models(attributes@);
                assert(attr_models(attributes@) =~= a0.remove(q as int));
            }
        },
        None => {},
    }
    assert(attr_models(attributes@) == remove_first_key(attr_models(b.attributes@), "depends_on"@));
    b.labels.len() >= 1 && find_key(&attributes, "value").is_some()
}

/// The output block as the root module exposes it (see `remapped_output`).
pub fn remap_module_output(module_name: &str, b: &HclBlock) -> (r: HclBlock)
    requires
        output_remappable(block_model(*b)),
    ensures
        block_model(r) == remapped_output(module_name@, block_model(*b)),
{
    proof {
        reveal_strlit("depends_on");
        reveal_strlit("value");
        reveal_strlit("module");
    }
    let mut attributes = copy_attrs(&b.attributes);
    let ghost a0 = attr_models(attributes@);
    match find_key(&attributes, "depends_on") {
        Some(q) => {
            let ghost before = attributes@;
            attributes.remove(q);
            proof {
                lemma_attr_models(before);
                lemma_attr_models(attributes@);
                assert(attr_models(attributes@) =~= a0.remove(q as int));
            }
        },
        None => {},
    }
    let ghost a1 = attr_models(attributes@);
    assert(a1 == remove_first_key(attr_models(b.attributes@), "depends_on"@));
    let label = b.labels[0].clone();
    let path = vec![String::from_str(module_name), label];
    assert(strs_model(path@) =~= seq![module_name@, b.labels@[0]@]);
    let target = HclExpr::Traversal(String::from_str("module"), path);
    match find_key(&attributes, "value") {
        Some(q) => {
            let ghost before = attributes@;
            attributes.remove(q);
            attributes.insert(q, (String::from_str("value"), target));
            proof {
                assert(attributes@ =~= before.update(q as int, attributes@[q as int]));
                lemma_attr_models(before);
                lemma_attr_models(attributes@);
                assert(attr_models(attributes@) =~= a1.update(q as int, ("value"@, ExprModel::Traversal("module"@, seq![module_name@, b.labels@[0]@]))));
            }
        },
        None => {},
    }
    let r = HclBlock {
        identifier: b.identifier.clone(),
        labels: crate::blocks::copy_strings(&b.labels),
        attributes,
        blocks: copy_blocks(&b.blocks),
    };
    r
}

/// One block of the module's own code added to the root module: an output as the root module
/// exposes it, a variable as it is; other blocks are not added.
pub open spec fn collect_step(m: MgmtModel, module: Seq<char>, b: BlockModel) -> MgmtModel {
    if b.identifier == "output"@ {
        add_block_model(m, remapped_output(module, b))
    } else if b.identifier == "variable"@ {
        add_block_model(m, b)
    } else {
        m
    }
}

pub open spec fn collect_module(m: MgmtModel, module: Seq<char>, bs: Seq<BlockModel>) -> MgmtModel
    decreases bs.len(),
{
    if bs.len() == 0 {
        m
    } else {
        collect_step(collect_module(m, module, bs.drop_last()), module, bs.last())
    }
}

/// Adds the variables and outputs of a module's code to its root module (see
/// `collect_step`) and gives the variables, which become the inputs of the module call.
/// Each output must have a name and a value.
pub fn collect_module_blocks(mgmt: &mut TfProviderMgmt, module_name: &str, module_blocks: &Vec<HclBlock>) -> (inputs: Vec<HclBlock>)
    requires
        forall|i: int| 0 <= i < module_blocks@.len() ==> (#[trigger] block_model(module_blocks@[i])).identifier == "output"@
            ==> output_remappable(block_model(module_blocks@[i])),
    ensures
        final(mgmt)@ == collect_module(old(mgmt)@, module_name@, block_models(module_blocks@)),
        block_models(inputs@) == blocks_named(block_models(module_blocks@), "variable"@),
{
    let ghost m0 = mgmt@;
    let ghost bm = block_models(module_blocks@);
    proof {
        lemma_block_models(module_blocks@);
        reveal_strlit("output");
        reveal_strlit("variable");
    }
    let mut inputs: Vec<HclBlock> = Vec::new();
    assert(block_models(inputs@) =~= Seq::<BlockModel>::empty());
    let mut i: usize = 0;
    while i < module_blocks.len()
        invariant
            i <= module_blocks@.len(),
            bm == block_models(module_blocks@),
            bm.len() == module_blocks@.len(),
            forall|j: int| 0 <= j < module_blocks@.len() ==> #[trigger] bm[j] == block_model(module_blocks@[j]),
            forall|j: int| 0 <= j < module_blocks@.len() ==> (#[trigger] block_model(module_blocks@[j])).identifier == "output"@
                ==> output_remappable(block_model(module_blocks@[j])),
            mgmt@ == collect_module(m0, module_name@, bm.take(i as int)),
            block_models(inputs@) == blocks_named(bm.take(i as int), "variable"@),
        decreases module_blocks.len() - i,
    {
        proof {
            reveal_strlit("output");
            reveal_strlit("variable");
        }
        assert(bm.take(i + 1).drop_last() =~= bm.take(i as int));
        assert(bm.take(i + 1).last() == bm[i as int]);
        let b = &module_blocks[i];
        if b.identifier == String::from_str("output") {
            assert(block_model(module_blocks@[i as int]).identifier == "output"@);
            let remapped = remap_module_output(module_name, b);
            mgmt.add_block(&remapped);
        } else if b.identifier == String::from_str("variable") {
            let ghost prev = inputs@;
            let c = copy_block(b);
            let ghost cm = block_model(c);
            inputs.push(c);
            assert(inputs@.drop_last() =~= prev);
            assert(block_models(inputs@) == block_models(prev).push(cm));
            mgmt.add_block(b);
        }
        i = i + 1;
    }
    assert(bm.take(bm.len() as int) =~= bm);
    inputs
}

/// Each input of the module call is passed from the root module's variable of the same name.
pub open spec fn inputs_as_vars(bs: Seq<BlockModel>) -> Seq<(Seq<char>, ExprModel)> {
    bs.map_values(|b: BlockModel| (b.labels[0], ExprModel::Traversal("var"@, seq![b.labels[0]])))
}

/// The module call of a module's root module: the module under its name, from
/// `./<module name>-<version>`, with every input passed from the variable of the same name and
/// every provider configuration passed on. Each input must have a name.
pub fn module_call(name: &String, module_name: &String, version: &String, inputs: &Vec<HclBlock>, tf_providers: &Vec<ProviderConfig>) -> (r: HclBlock)
    requires
        forall|i: int| 0 <= i < inputs@.len() ==> (#[trigger] inputs@[i]).labels@.len() >= 1,
    ensures
        block_model(r) == module_call_model(
            name@,
            module_name@,
            version@,
            inputs_as_vars(block_models(inputs@)),
            providers_model(tf_providers@),
            Seq::empty(),
        ),
{
    let deployment = DeploymentManifest {
        api_version: String::from_str("infraweave.io/v1"),
        kind: module_name.clone(),
        metadata: DeploymentMetadata { name: name.clone(), namespace: None },
        spec: DeploymentSpec {
            module_version: Some(version.clone()),
            stack_version: None,
            region: String::from_str("N/A"),
            reference: None,
            variables: Value::Object(Vec::new()),
            dependencies: None,
        },
    };
    let mut pairs: Vec<(String, String)> = Vec::new();
    let mut i: usize = 0;
    while i < inputs.len()
        invariant
            i <= inputs@.len(),
            forall|j: int| 0 <= j < inputs@.len() ==> (#[trigger] inputs@[j]).labels@.len() >= 1,
            pairs@.len() == i,
            forall|j: int| 0 <= j < i ==> (#[trigger] pairs@[j]).0@ == inputs@[j].labels@[0]@ && pairs@[j].1@ == inputs@[j].labels@[0]@,
        decreases inputs.len() - i,
    {
        let n = inputs[i].labels[0].clone();
        pairs.push((n.clone(), n));
        i = i + 1;
    }
    let resolver = TfInputResolver::new(Vec::new(), Vec::new());
    assert forall|j: int| 0 <= j < pairs@.len() implies (match claim_value(deployment, (#[trigger] pairs@[j]).0@) {
        Some(v) => crate::resolver::resolvable(v, resolver.vars(), resolver.outs()),
        None => true,
    }) by {
        assert(claim_value(deployment, pairs@[j].0@) is None);
    }
    let vars = variables(&pairs, &deployment, &resolver);
    let provs = providers(tf_providers);
    let deps: Vec<String> = Vec::new();
    let r = module_block(&deployment, &vars, &provs, &deps);
    proof {
        lemma_block_models(inputs@);
        lemma_attr_models(vars@);
        assert forall|j: int| 0 <= j < vars@.len() implies #[trigger] attr_models(vars@)[j] == inputs_as_vars(block_models(inputs@))[j] by {
            assert(claim_value(deployment, pairs@[j].0@) is None);
            assert(is_var_ref(vars@[j].1, pairs@[j].1@));
        }
        assert(attr_models(vars@) =~= inputs_as_vars(block_models(inputs@)));
        assert(strs_model(deps@) =~= Seq::<Seq<char>>::empty());
    }
    r
}

} // verus!
