//! The root module that a published module is wrapped in, from the Terraform texts of its
//! providers and of the module itself to the two texts of the root module: the providers'
//! code with the module's variables and outputs, and the module call.
use vstd::prelude::*;
use crate::blocks::{block_model, block_models, copy_block, lemma_block_models, BlockModel, HclBlock};
use crate::hcl_code::{format_terraform, hcl_blocks, hcl_text, heredoc_delimiter, parse_terraform};
use crate::manifest::{ErrorView, ModuleError};
use crate::merge_laws::collected;
use crate::module_root::{collect_module, collect_module_blocks, inputs_as_vars, is_output_remappable, module_call, output_remappable};
use crate::provider_mgmt::{add_block_model, blocks_named, built, merge_terraform_ok, TfProviderMgmt};
use crate::publishing::ProviderConfig;
use crate::root_module::{module_call_model, providers_model};

verus! {

/// A module's root module: the code that was read, the root module's provider code and
/// module call, and both written as Terraform text.
pub struct RootModuleCode {
    /// The blocks of the providers' texts, in order.
    pub provider_blocks: Vec<HclBlock>,
    /// The blocks of the module's text.
    pub module_blocks: Vec<HclBlock>,
    /// The providers' code with the module's variables and outputs (`providers.tf`).
    pub providers: Vec<HclBlock>,
    /// The call of the module (`main.tf`).
    pub module_call: HclBlock,
    pub providers_text: String,
    pub main_text: String,
}

/// The blocks of the texts, one text after the other, as hcl-rs reads them; `None` where it
/// cannot read one of them.
pub open spec fn code_of_texts(texts: Seq<String>) -> Option<Seq<BlockModel>>
    decreases texts.len(),
{
    if texts.len() == 0 {
        Some(Seq::empty())
    } else {
        match (code_of_texts(texts.drop_last()), hcl_blocks(texts.last()@)) {
            (Some(a), Some(b)) => Some(a + b),
            _ => None,
        }
    }
}

proof fn lemma_code_of_texts_prefix(texts: Seq<String>, k: int)
    requires
        code_of_texts(texts) is Some,
        0 <= k <= texts.len(),
    ensures
        code_of_texts(texts.take(k)) is Some,
    decreases texts.len(),
{
    if k < texts.len() {
        assert(texts.drop_last().take(k) =~= texts.take(k));
        lemma_code_of_texts_prefix(texts.drop_last(), k);
    } else {
        assert(texts.take(k) =~= texts);
    }
}

/// Every `output` block has a name and a value.
pub open spec fn outputs_remappable(bs: Seq<BlockModel>) -> bool {
    forall|i: int| 0 <= i < bs.len() && (#[trigger] bs[i]).identifier == "output"@ ==> output_remappable(bs[i])
}

/// Every block has a name.
pub open spec fn all_named(bs: Seq<BlockModel>) -> bool {
    forall|i: int| 0 <= i < bs.len() ==> (#[trigger] bs[i]).labels.len() >= 1
}

/// The collected code of a module's root module: the providers' blocks, then the module's
/// outputs and variables (see `collect_module`).
pub open spec fn module_root_model(provider_blocks: Seq<BlockModel>, module: Seq<char>, module_blocks: Seq<BlockModel>) -> crate::provider_mgmt::MgmtModel {
    collect_module(collected(provider_blocks), module, module_blocks)
}

/// Why no root module can be built from code that was read, in this order: an output without a
/// name or a value, a variable without a name, a provider required again without a version.
pub open spec fn module_code_problem(
    provider_blocks: Seq<BlockModel>,
    module: Seq<char>,
    module_blocks: Seq<BlockModel>,
) -> Option<Seq<char>> {
    if !outputs_remappable(module_blocks) {
        Some("an output has no name or no value"@)
    } else if !all_named(blocks_named(module_blocks, "variable"@)) {
        Some("a variable has no name"@)
    } else if !merge_terraform_ok(module_root_model(provider_blocks, module, module_blocks).terraform) {
        Some("a provider is required again without a version"@)
    } else {
        None
    }
}

/// The root module of the module `name` (`module_name` at `version`) from the texts of its
/// providers' code and of its own code, as hcl-rs reads them (`code_of_texts`,
/// `hcl_blocks`). Its provider code is the collected code (see `module_root_model`) built; the
/// module call passes each variable on and names the providers; both are written as hcl-rs
/// writes them (`hcl_text`). Code that hcl-rs cannot read is an `UnreadableTerraform` error
/// (the providers' first); code with a problem (see `module_code_problem`) is an
/// `InvalidTerraformCode` error with its reason.
pub fn module_root_code(
    name: &String,
    module_name: &String,
    version: &String,
    module_tf: &str,
    provider_tfs: &Vec<String>,
    tf_providers: &Vec<ProviderConfig>,
) -> (r: Result<RootModuleCode, ModuleError>)
    ensures
        match (code_of_texts(provider_tfs@), hcl_blocks(module_tf@)) {
            (None, _) => r matches Err(e) && e@ == ErrorView::UnreadableTerraform("provider"@),
            (Some(_), None) => r matches Err(e) && e@ == ErrorView::UnreadableTerraform("module"@),
            (Some(pbs), Some(mbs)) => match module_code_problem(pbs, name@, mbs) {
                Some(reason) => r matches Err(e) && e@ == ErrorView::InvalidTerraformCode(reason),
                None => r is Ok && {
                    let c = r->Ok_0;
                    &&& block_models(c.provider_blocks@) == pbs
                    &&& block_models(c.module_blocks@) == mbs
                    &&& block_models(c.providers@) == built(module_root_model(pbs, name@, mbs))
                    &&& block_model(c.module_call) == module_call_model(
                        name@,
                        module_name@,
                        version@,
                        inputs_as_vars(blocks_named(mbs, "variable"@)),
                        providers_model(tf_providers@),
                        Seq::empty(),
                    )
                    &&& c.providers_text@ == hcl_text(block_models(c.providers@), heredoc_delimiter())
                    &&& c.main_text@ == hcl_text(seq![block_model(c.module_call)], heredoc_delimiter())
                },
            },
        },
{
    proof {
        reveal_strlit("output");
        reveal_strlit("variable");
    }
    let mut mgmt = TfProviderMgmt::new();
    let mut provider_blocks: Vec<HclBlock> = Vec::new();
    assert(block_models(provider_blocks@) =~= Seq::<BlockModel>::empty());
    assert(provider_tfs@.take(0) =~= Seq::<String>::empty());
    let mut t: usize = 0;
    while t < provider_tfs.len()
        invariant
            t <= provider_tfs@.len(),
            code_of_texts(provider_tfs@.take(t as int)) == Some(block_models(provider_blocks@)),
            mgmt@ == collected(block_models(provider_blocks@)),
        decreases provider_tfs.len() - t,
    {
        assert(provider_tfs@.take(t + 1).drop_last() =~= provider_tfs@.take(t as int));
        assert(provider_tfs@.take(t + 1).last() == provider_tfs@[t as int]);
        let blocks = match parse_terraform(provider_tfs[t].as_str()) {
            None => {
                proof {
                    assert(code_of_texts(provider_tfs@.take(t + 1)) is None);
                    if code_of_texts(provider_tfs@) is Some {
                        lemma_code_of_texts_prefix(provider_tfs@, t + 1);
                    }
                }
                return Err(ModuleError::UnreadableTerraform(String::from_str("provider")));
            },
            Some(bs) => bs,
        };
        let ghost base = block_models(provider_blocks@);
        let ghost bm = block_models(blocks@);
        proof {
            lemma_block_models(blocks@);
        }
        assert(base + bm.take(0) =~= base);
        let mut j: usize = 0;
        while j < blocks.len()
            invariant
                j <= blocks@.len(),
                bm == block_models(blocks@),
                bm.len() == blocks@.len(),
                forall|q: int| 0 <= q < blocks@.len() ==> #[trigger] bm[q] == block_model(blocks@[q]),
                block_models(provider_blocks@) == base + bm.take(j as int),
                mgmt@ == collected(block_models(provider_blocks@)),
            decreases blocks.len() - j,
        {
            let ghost before = provider_blocks@;
            mgmt.add_block(&blocks[j]);
            let c = copy_block(&blocks[j]);
            provider_blocks.push(c);
            assert(provider_blocks@.drop_last() =~= before);
            assert(block_models(provider_blocks@) == block_models(before).push(block_model(blocks@[j as int])));
            assert(block_models(provider_blocks@).drop_last() =~= block_models(before));
            assert(collected(block_models(provider_blocks@)) == add_block_model(
                collected(block_models(before)),
                block_model(blocks@[j as int]),
            ));
            assert(base + bm.take(j + 1) =~= (base + bm.take(j as int)).push(bm[j as int]));
            j = j + 1;
        }
        assert(bm.take(bm.len() as int) =~= bm);
        t = t + 1;
    }
    assert(provider_tfs@.take(provider_tfs@.len() as int) =~= provider_tfs@);
    let ghost pbs = block_models(provider_blocks@);
    let module_blocks = match parse_terraform(module_tf) {
        None => {
            return Err(ModuleError::UnreadableTerraform(String::from_str("module")));
        },
        Some(bs) => bs,
    };
    let ghost mbs = block_models(module_blocks@);
    proof {
        lemma_block_models(module_blocks@);
    }
    let mut k: usize = 0;
    while k < module_blocks.len()
        invariant
            k <= module_blocks@.len(),
            mbs == block_models(module_blocks@),
            mbs.len() == module_blocks@.len(),
            forall|q: int| 0 <= q < module_blocks@.len() ==> #[trigger] mbs[q] == block_model(module_blocks@[q]),
            forall|q: int| 0 <= q < k && (#[trigger] mbs[q]).identifier == "output"@ ==> output_remappable(mbs[q]),
            code_of_texts(provider_tfs@) == Some(pbs),
            hcl_blocks(module_tf@) == Some(mbs),
        decreases module_blocks.len() - k,
    {
        if module_blocks[k].identifier == String::from_str("output") && !is_output_remappable(&module_blocks[k]) {
            assert(mbs[k as int].identifier == "output"@);
            assert(!outputs_remappable(mbs));
            return Err(ModuleError::InvalidTerraformCode(String::from_str("an output has no name or no value")));
        }
        k = k + 1;
    }
    assert(outputs_remappable(mbs));
    assert forall|i: int| 0 <= i < module_blocks@.len() && (#[trigger] block_model(module_blocks@[i])).identifier == "output"@
        implies output_remappable(block_model(module_blocks@[i])) by {
        assert(mbs[i] == block_model(module_blocks@[i]));
    }
    let inputs = collect_module_blocks(&mut mgmt, name.as_str(), &module_blocks);
    let ghost vbs = block_models(inputs@);
    proof {
        lemma_block_models(inputs@);
    }
    let mut v: usize = 0;
    while v < inputs.len()
        invariant
            v <= inputs@.len(),
            vbs == block_models(inputs@),
            vbs.len() == inputs@.len(),
            forall|q: int| 0 <= q < inputs@.len() ==> #[trigger] vbs[q] == block_model(inputs@[q]),
            forall|q: int| 0 <= q < v ==> (#[trigger] inputs@[q]).labels@.len() >= 1,
            code_of_texts(provider_tfs@) == Some(pbs),
            hcl_blocks(module_tf@) == Some(mbs),
            vbs == blocks_named(mbs, "variable"@),
            outputs_remappable(mbs),
        decreases inputs.len() - v,
    {
        if inputs[v].labels.len() == 0 {
            assert(vbs[v as int].labels.len() == 0);
            assert(!all_named(vbs));
            return Err(ModuleError::InvalidTerraformCode(String::from_str("a variable has no name")));
        }
        v = v + 1;
    }
    assert(all_named(vbs)) by {
        assert forall|i: int| 0 <= i < vbs.len() implies (#[trigger] vbs[i]).labels.len() >= 1 by {
            assert(vbs[i] == block_model(inputs@[i]));
        }
    }
    if !mgmt.terraform_merges() {
        return Err(
            ModuleError::InvalidTerraformCode(
                String::from_str("a provider is required again without a version"),
            ),
        );
    }
    let providers = mgmt.build();
    let call = module_call(name, module_name, version, &inputs, tf_providers);
    let providers_text = format_terraform(&providers);
    let mut main: Vec<HclBlock> = Vec::new();
    main.push(copy_block(&call));
    proof {
        lemma_block_models(main@);
        assert(block_models(main@) =~= seq![block_model(call)]);
    }
    let main_text = format_terraform(&main);
    let module_copy = crate::blocks::copy_blocks(&module_blocks);
    Ok(
        RootModuleCode {
            provider_blocks,
            module_blocks: module_copy,
            providers,
            module_call: call,
            providers_text,
            main_text,
        },
    )
}

} // verus!
