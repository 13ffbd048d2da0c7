//! The Terraform root module of a stack as text: one `module` block per claim, a `variable`
//! block per input that no other claim supplies, an `output` block per claim output, and the
//! `terraform` block that pins the newest locked version of each provider.
use vstd::prelude::*;
use crate::blocks::strs_model;
use crate::manifest::{opt_str_view, ErrorView, ModuleError, ModuleResp, TfLockProvider, TfOutput, TfRequiredProvider, TfVariable};
use crate::casing::{snake_case, to_snake_case};
use crate::resolver::prefixed;
use crate::stack::ClaimModule;
use crate::blocks::copy_strings;
use crate::value::{lemma_same_value_model, Value};
use crate::json::json_text;
use crate::versions::{newer_version, semver_newer, semver_valid};
use crate::text::{append_range, append_str, find_first, first_occ, from_chars, lemma_split_on_nonempty, occurs_at, split_chars, split_on, to_chars};
use crate::textgen::{indent, indent_text, join_strings, joined_with, lemma_sort_strs_members, sort_strings, sort_strs};
use crate::tfcode::{
    claim_var_entries, collect_module_outputs, collect_module_variables, copy_opt_value, default_text, dep_entry, dependency_map_upto,
    generate_dependency_map, out_entries, outs_view, var_entries, var_keys_of, var_like, variable_with_default,
    generate_terraform_output_single, head_segment, head_segment_exec, out_keys_of, output_block, pairs_view, slice_of, vec_eq,
};

verus! {

/// What serde_json and hcl-rs make of a text: the text read as a JSON value and written as an
/// HCL value, or nothing where the text is not JSON.
pub uninterp spec fn hcl_of_json(text: Seq<char>) -> Option<Seq<char>>;

/// Reads `text` with `serde_json::from_str` as a `serde_json::Value`, turns it into an
/// `hcl::Value` with `hcl::to_value` and writes that with its `Display`. Claimed: the result is
/// `hcl_of_json` of the text; nothing else is claimed of it.
#[verifier::external_body]
fn json_text_as_hcl(text: &str) -> (r: Option<String>)
    ensures
        opt_str_view(r) == hcl_of_json(text@),
{
    match serde_json::from_str::<serde_json::Value>(text) {
        Ok(v) => match hcl::to_value(v) {
            Ok(h) => Some(h.to_string()),
            Err(_) => None,
        },
        Err(_) => None,
    }
}

/// The HCL text of a JSON text, or the text itself where it is not JSON.
pub open spec fn hcl_or_raw(text: Seq<char>) -> Seq<char> {
    match hcl_of_json(text) {
        Some(h) => h,
        None => text,
    }
}

/// The HCL text of a JSON text, or the text itself where it is not JSON (see `hcl_or_raw`).
pub fn json_or_raw_as_hcl(text: &str) -> (r: String)
    ensures
        r@ == hcl_or_raw(text@),
{
    match json_text_as_hcl(text) {
        Some(h) => h,
        None => text.to_string(),
    }
}

/// `true` or `false`.
pub open spec fn bool_text(b: bool) -> Seq<char> {
    if b {
        "true"@
    } else {
        "false"@
    }
}

/// The line that gives a variable its default, indented one level, where it has one.
pub open spec fn default_line(default: Option<Seq<char>>) -> Seq<char> {
    match default {
        Some(h) => "\n"@ + indent_text("default = "@ + h, 1),
        None => Seq::empty(),
    }
}

/// What a `variable` block and the dependency map read of a stack input: its key, the module
/// variable's name, type and description, whether it is nullable and sensitive, and the JSON
/// text of its default where it has one.
pub struct VarHead {
    pub key: Seq<char>,
    pub name: Seq<char>,
    pub var_type: Seq<char>,
    pub description: Seq<char>,
    pub nullable: bool,
    pub sensitive: bool,
    pub default: Option<Seq<char>>,
}

pub open spec fn head_of(key: Seq<char>, v: TfVariable, default: Option<Value>) -> VarHead {
    VarHead {
        key,
        name: v.name@,
        var_type: v.var_type@,
        description: v.description@,
        nullable: v.nullable,
        sensitive: v.sensitive,
        default: default_text(default),
    }
}

/// The heads of a variable collection, in order.
pub open spec fn var_heads(vs: Seq<(String, TfVariable)>) -> Seq<VarHead> {
    vs.map_values(|e: (String, TfVariable)| head_of(e.0@, e.1, e.1.default))
}

/// The heads of the variables that the claims of a stack contribute (each with the claim's value
/// as its default, where the claim gives one), in order.
pub open spec fn entry_heads(es: Seq<(Seq<char>, TfVariable, Option<Value>)>) -> Seq<VarHead> {
    es.map_values(|e: (Seq<char>, TfVariable, Option<Value>)| head_of(e.0, e.1, e.2))
}

pub open spec fn head_keys(hs: Seq<VarHead>) -> Seq<Seq<char>> {
    hs.map_values(|h: VarHead| h.key)
}

/// The `variable` block of a stack input, with its default (as HCL text) where it has one.
pub open spec fn variable_block(h: VarHead, default: Option<Seq<char>>) -> Seq<char> {
    "\nvariable \""@ + h.key + "\" {\n  type = "@ + h.var_type + default_line(default)
        + "\n  description = \""@ + h.description + "\"\n  nullable = "@ + bool_text(h.nullable)
        + "\n  sensitive = "@ + bool_text(h.sensitive) + "\n}"@
}

/// The `variable` block of an input that the environment sets.
pub open spec fn env_variable_block(name: Seq<char>) -> Seq<char> {
    "\nvariable \""@ + name
        + "\" {\n  type = string\n  description = \"This is set by environment variables automatically and should not be set in the claim\"\n  default = \"\"\n}"@
}

/// The expression that the dependency map gives a key: its last entry for the key.
pub open spec fn dep_lookup(dep: Seq<(Seq<char>, Seq<char>)>, key: Seq<char>) -> Option<Seq<char>>
    decreases dep.len(),
{
    if dep.len() == 0 {
        None
    } else if dep.last().0 == key {
        Some(dep.last().1)
    } else {
        dep_lookup(dep.drop_last(), key)
    }
}

/// No later entry has the key of entry `i`: entry `i` is the one a map keeps.
pub open spec fn last_of_key(keys: Seq<Seq<char>>, i: int) -> bool {
    forall|j: int| i < j < keys.len() ==> keys[j] != keys[i]
}

/// The default of a stack input, as HCL text, from its JSON text.
pub open spec fn default_hcl(h: VarHead) -> Option<Seq<char>> {
    match h.default {
        Some(s) => Some(hcl_or_raw(s)),
        None => None,
    }
}

/// The `variable` blocks of the first `n` variables: one for each key (its last variable), but
/// none for a key that the dependency map wires to another claim.
pub open spec fn variable_blocks(
    hs: Seq<VarHead>,
    dep: Seq<(Seq<char>, Seq<char>)>,
    n: int,
) -> Seq<Seq<char>>
    decreases n,
{
    if n <= 0 {
        Seq::empty()
    } else {
        let prev = variable_blocks(hs, dep, n - 1);
        if last_of_key(head_keys(hs), n - 1) && dep_lookup(dep, hs[n - 1].key) is None {
            prev.push(variable_block(hs[n - 1], default_hcl(hs[n - 1])))
        } else {
            prev
        }
    }
}

/// The variables part of a stack's root module: the `variable` blocks of the inputs and of the
/// environment's inputs, in lexicographic order, one per line.
pub open spec fn variables_code(
    hs: Seq<VarHead>,
    dep: Seq<(Seq<char>, Seq<char>)>,
    envs: Seq<Seq<char>>,
) -> Seq<char> {
    joined_with(
        sort_strs(variable_blocks(hs, dep, hs.len() as int) + envs.map_values(|e: Seq<char>| env_variable_block(e))),
        "\n"@,
    )
}

fn bool_str(b: bool) -> (r: &'static str)
    ensures
        r@ == bool_text(b),
{
    if b {
        "true"
    } else {
        "false"
    }
}

/// The `variable` block of one stack input (see `variable_block`).
fn variable_block_text(key: &str, v: &TfVariable, default: &Option<String>) -> (r: String)
    ensures
        r@ == variable_block(head_of(key@, *v, v.default), opt_str_view(*default)),
{
    let mut out: Vec<char> = Vec::new();
    append_str(&mut out, "\nvariable \"");
    append_str(&mut out, key);
    append_str(&mut out, "\" {\n  type = ");
    append_str(&mut out, v.var_type.as_str());
    match default {
        Some(h) => {
            let mut line: Vec<char> = Vec::new();
            append_str(&mut line, "default = ");
            append_str(&mut line, h.as_str());
            let line_s = from_chars(line.as_slice());
            let ind = indent(line_s.as_str(), 1);
            append_str(&mut out, "\n");
            append_str(&mut out, ind.as_str());
        },
        None => {},
    }
    append_str(&mut out, "\n  description = \"");
    append_str(&mut out, v.description.as_str());
    append_str(&mut out, "\"\n  nullable = ");
    append_str(&mut out, bool_str(v.nullable));
    append_str(&mut out, "\n  sensitive = ");
    append_str(&mut out, bool_str(v.sensitive));
    append_str(&mut out, "\n}");
    let r = from_chars(out.as_slice());
    assert(r@ =~= variable_block(head_of(key@, *v, v.default), opt_str_view(*default)));
    r
}

/// The `variable` block of one input that the environment sets (see `env_variable_block`).
fn env_variable_block_text(name: &str) -> (r: String)
    ensures
        r@ == env_variable_block(name@),
{
    let mut out: Vec<char> = Vec::new();
    append_str(&mut out, "\nvariable \"");
    append_str(&mut out, name);
    append_str(
        &mut out,
        "\" {\n  type = string\n  description = \"This is set by environment variables automatically and should not be set in the claim\"\n  default = \"\"\n}",
    );
    let r = from_chars(out.as_slice());
    assert(r@ =~= env_variable_block(name@));
    r
}

/// The expression the dependency map gives `key` (see `dep_lookup`).
pub fn dependency_of(dep: &Vec<(String, String)>, key: &str) -> (r: Option<String>)
    ensures
        opt_str_view(r) == dep_lookup(pairs_view(dep@), key@),
{
    let ghost pv = pairs_view(dep@);
    let mut i: usize = dep.len();
    assert(pv.take(dep@.len() as int) =~= pv);
    while i > 0
        invariant
            pv == pairs_view(dep@),
            i <= dep@.len(),
            dep_lookup(pv, key@) == dep_lookup(pv.take(i as int), key@),
        decreases i,
    {
        let ghost t = pv.take(i as int);
        assert(t.drop_last() =~= pv.take(i - 1));
        assert(t.last() == (dep@[i - 1].0@, dep@[i - 1].1@));
        if vec_eq(&to_chars(dep[i - 1].0.as_str()), &to_chars(key)) {
            return Some(dep[i - 1].1.clone());
        }
        i = i - 1;
    }
    None
}

/// Whether no later variable has the key of variable `i`.
fn var_is_last(vs: &Vec<(String, TfVariable)>, i: usize) -> (r: bool)
    requires
        i < vs@.len(),
    ensures
        r == last_of_key(head_keys(var_heads(vs@)), i as int),
{
    let ghost keys = head_keys(var_heads(vs@));
    let n = vs.len();
    let mut j: usize = i + 1;
    while j < vs.len()
        invariant
            keys == head_keys(var_heads(vs@)),
            i < j <= vs@.len(),
            forall|k: int| i < k < j ==> keys[k] != keys[i as int],
        decreases vs.len() - j,
    {
        assert(keys[j as int] == vs@[j as int].0@ && keys[i as int] == vs@[i as int].0@);
        if vs[j].0 == vs[i].0 {
            return false;
        }
        j = j + 1;
    }
    true
}

/// The variables part of a stack's root module (see `variables_code`).
pub fn generate_terraform_variables(
    variable_collection: &Vec<(String, TfVariable)>,
    dependency_map: &Vec<(String, String)>,
    tf_extra_environment_variables: &Vec<String>,
) -> (r: String)
    ensures
        r@ == variables_code(
            var_heads(variable_collection@),
            pairs_view(dependency_map@),
            strs_model(tf_extra_environment_variables@),
        ),
{
    let ghost vs = variable_collection@;
    let ghost hs = var_heads(vs);
    let ghost dep = pairs_view(dependency_map@);
    let mut blocks: Vec<String> = Vec::new();
    let mut i: usize = 0;
    assert(strs_model(blocks@) =~= Seq::<Seq<char>>::empty());
    while i < variable_collection.len()
        invariant
            vs == variable_collection@,
            hs == var_heads(vs),
            dep == pairs_view(dependency_map@),
            i <= vs.len(),
            strs_model(blocks@) == variable_blocks(hs, dep, i as int),
        decreases variable_collection.len() - i,
    {
        let key = &variable_collection[i].0;
        assert(hs[i as int] == head_of(key@, vs[i as int].1, vs[i as int].1.default));
        let last = var_is_last(variable_collection, i);
        let wired = dependency_of(dependency_map, key.as_str());
        if last && wired.is_none() {
            let default: Option<String> = match &variable_collection[i].1.default {
                Some(d) => {
                    let s = json_text(d);
                    Some(json_or_raw_as_hcl(s.as_str()))
                },
                None => None,
            };
            assert(opt_str_view(default) == default_hcl(hs[i as int]));
            let b = variable_block_text(key.as_str(), &variable_collection[i].1, &default);
            let ghost before = strs_model(blocks@);
            blocks.push(b);
            assert(strs_model(blocks@) =~= before.push(b@));
        }
        i = i + 1;
    }
    let ghost envs = strs_model(tf_extra_environment_variables@);
    let ghost base = strs_model(blocks@);
    let mut k: usize = 0;
    while k < tf_extra_environment_variables.len()
        invariant
            envs == strs_model(tf_extra_environment_variables@),
            k <= envs.len(),
            strs_model(blocks@) == base + envs.take(k as int).map_values(|e: Seq<char>| env_variable_block(e)),
        decreases tf_extra_environment_variables.len() - k,
    {
        let b = env_variable_block_text(tf_extra_environment_variables[k].as_str());
        let ghost before = strs_model(blocks@);
        blocks.push(b);
        assert(strs_model(blocks@) =~= before.push(b@));
        assert(envs.take(k + 1).map_values(|e: Seq<char>| env_variable_block(e)) =~= envs.take(k as int).map_values(
            |e: Seq<char>| env_variable_block(e),
        ).push(env_variable_block(envs[k as int])));
        k = k + 1;
    }
    assert(envs.take(envs.len() as int) =~= envs);
    let sorted = sort_strings(blocks);
    join_strings(&sorted, "\n")
}

/// The `output` blocks of the first `n` output keys: one for each key.
pub open spec fn output_blocks(keys: Seq<Seq<char>>, n: int) -> Seq<Seq<char>>
    decreases n,
{
    if n <= 0 {
        Seq::empty()
    } else {
        let prev = output_blocks(keys, n - 1);
        if last_of_key(keys, n - 1) {
            prev.push(output_block(keys[n - 1]))
        } else {
            prev
        }
    }
}

/// The outputs part of a stack's root module: the `output` blocks of the output keys in
/// lexicographic order, one per line.
pub open spec fn outputs_code(keys: Seq<Seq<char>>) -> Seq<char> {
    joined_with(sort_strs(output_blocks(keys, keys.len() as int)), "\n"@)
}

fn out_is_last(os: &Vec<(String, TfOutput)>, i: usize) -> (r: bool)
    requires
        i < os@.len(),
    ensures
        r == last_of_key(out_keys_of(os@), i as int),
{
    let ghost keys = out_keys_of(os@);
    let n = os.len();
    let mut j: usize = i + 1;
    while j < os.len()
        invariant
            keys == out_keys_of(os@),
            i < j <= os@.len(),
            forall|k: int| i < k < j ==> keys[k] != keys[i as int],
        decreases os.len() - j,
    {
        if os[j].0 == os[i].0 {
            assert(keys[j as int] == keys[i as int]);
            return false;
        }
        j = j + 1;
    }
    true
}

/// The outputs part of a stack's root module (see `outputs_code`); each key is
/// `claim__output`.
pub fn generate_terraform_outputs(output_collection: &Vec<(String, TfOutput)>) -> (r: String)
    requires
        all_keyed(out_keys_of(output_collection@)),
    ensures
        r@ == outputs_code(out_keys_of(output_collection@)),
{
    let ghost os = output_collection@;
    let mut blocks: Vec<String> = Vec::new();
    let mut i: usize = 0;
    assert(strs_model(blocks@) =~= Seq::<Seq<char>>::empty());
    while i < output_collection.len()
        invariant
            os == output_collection@,
            all_keyed(out_keys_of(os)),
            i <= os.len(),
            strs_model(blocks@) == output_blocks(out_keys_of(os), i as int),
        decreases output_collection.len() - i,
    {
        if out_is_last(output_collection, i) {
            assert(out_keys_of(os)[i as int] == os[i as int].0@);
            assert(first_occ(out_keys_of(os)[i as int], "__"@, 0) is Some);
            let b = generate_terraform_output_single(output_collection[i].0.as_str());
            let ghost before = strs_model(blocks@);
            blocks.push(b);
            assert(strs_model(blocks@) =~= before.push(b@));
        }
        i = i + 1;
    }
    let sorted = sort_strings(blocks);
    join_strings(&sorted, "\n")
}

/// What the `module` and `terraform` blocks read of a module version: where its package is
/// stored, the variables that the environment sets, its locked providers (source, version) and
/// its required providers (source, local name).
pub struct ModuleShape {
    pub s3_key: Seq<char>,
    pub envs: Seq<Seq<char>>,
    pub locks: Seq<(Seq<char>, Seq<char>)>,
    pub reqs: Seq<(Seq<char>, Seq<char>)>,
}

pub open spec fn module_shape(m: ModuleResp) -> ModuleShape {
    ModuleShape {
        s3_key: m.s3_key@,
        envs: strs_model(m.tf_extra_environment_variables@),
        locks: m.tf_lock_providers@.map_values(|l: TfLockProvider| (l.source@, l.version@)),
        reqs: m.tf_required_providers@.map_values(|p: TfRequiredProvider| (p.source@, p.name@)),
    }
}

/// A module collection (claim name in snake_case, module version) as shapes.
pub open spec fn collection_shapes(mc: Seq<(String, ModuleResp)>) -> Seq<(Seq<char>, ModuleShape)> {
    mc.map_values(|e: (String, ModuleResp)| (e.0@, module_shape(e.1)))
}

pub open spec fn shape_keys(ms: Seq<(Seq<char>, ModuleShape)>) -> Seq<Seq<char>> {
    ms.map_values(|e: (Seq<char>, ModuleShape)| e.0)
}

/// `s` without every trailing `.zip`.
pub open spec fn strip_zip(s: Seq<char>) -> Seq<char>
    decreases s.len(),
{
    if s.len() >= 4 && s.subrange(s.len() - 4, s.len() as int) == ".zip"@ {
        strip_zip(s.subrange(0, s.len() - 4))
    } else {
        s
    }
}

/// The directory of a module's code in a stack: the last `/`-separated part of its package
/// key, without `.zip`.
pub open spec fn module_source(s3_key: Seq<char>) -> Seq<char> {
    strip_zip(split_on(s3_key, '/').last())
}

/// The second `__`-separated part of a key: the module variable that a stack input sets.
pub open spec fn key_variable(key: Seq<char>) -> Seq<char> {
    let i = first_occ(key, "__"@, 0)->Some_0;
    head_segment(key.subrange(i + 2, key.len() as int))
}

/// Every key holds `__`.
pub open spec fn all_keyed(keys: Seq<Seq<char>>) -> bool {
    forall|i: int| 0 <= i < keys.len() ==> first_occ(#[trigger] keys[i], "__"@, 0) is Some
}

/// The line of a `module` block that sets one variable: from the dependency map where it wires
/// the key to another claim (as HCL where the expression is JSON), else from the stack input.
pub open spec fn module_var_line(key: Seq<char>, dep: Seq<(Seq<char>, Seq<char>)>) -> Seq<char> {
    "\n  "@ + key_variable(key) + " = "@ + match dep_lookup(dep, key) {
        Some(d) => hcl_or_raw(d),
        None => "var."@ + key,
    }
}

/// The variable lines of a claim's `module` block: one for each key of the claim, in the order
/// of `keys`.
pub open spec fn module_var_lines(keys: Seq<Seq<char>>, claim: Seq<char>, dep: Seq<(Seq<char>, Seq<char>)>) -> Seq<char>
    decreases keys.len(),
{
    if keys.len() == 0 {
        Seq::empty()
    } else {
        let prev = module_var_lines(keys.drop_last(), claim, dep);
        if head_segment(keys.last()) == claim {
            prev + module_var_line(keys.last(), dep)
        } else {
            prev
        }
    }
}

/// The lines of a `module` block that pass on the variables the environment sets.
pub open spec fn env_lines(envs: Seq<Seq<char>>) -> Seq<char>
    decreases envs.len(),
{
    if envs.len() == 0 {
        Seq::empty()
    } else {
        env_lines(envs.drop_last()) + "\n  "@ + envs.last() + " = var."@ + envs.last()
    }
}

/// The `module` block of a claim: its source directory, one line per stack input of the claim
/// (in the order of `keys`) and one per variable that the environment sets.
pub open spec fn module_block(
    claim: Seq<char>,
    m: ModuleShape,
    keys: Seq<Seq<char>>,
    dep: Seq<(Seq<char>, Seq<char>)>,
) -> Seq<char> {
    "\nmodule \""@ + snake_case(claim) + "\" {\n  source = \"./"@ + module_source(m.s3_key) + "\"\n"@
        + module_var_lines(keys, claim, dep) + env_lines(m.envs) + "\n}"@
}

/// The keys that a map keeps of the first `n` entries (the last entry of each key), in order.
pub open spec fn kept_keys(keys: Seq<Seq<char>>, n: int) -> Seq<Seq<char>>
    decreases n,
{
    if n <= 0 {
        Seq::empty()
    } else {
        let prev = kept_keys(keys, n - 1);
        if last_of_key(keys, n - 1) {
            prev.push(keys[n - 1])
        } else {
            prev
        }
    }
}

pub proof fn lemma_first_occ_some(s: Seq<char>, p: Seq<char>, from: int, i: int)
    requires
        0 <= from <= i,
        occurs_at(s, p, i),
    ensures
        first_occ(s, p, from) is Some,
    decreases i - from,
{
    if from < i && !occurs_at(s, p, from) {
        lemma_first_occ_some(s, p, from + 1, i);
    }
}

/// A key `claim__field` holds `__`.
pub proof fn lemma_prefixed_keyed(claim: Seq<char>, field: Seq<char>)
    ensures
        first_occ(prefixed(claim, field), "__"@, 0) is Some,
{
    reveal_strlit("__");
    let k = prefixed(claim, field);
    let i = snake_case(claim).len() as int;
    assert(k.subrange(i, i + 2) =~= "__"@);
    lemma_first_occ_some(k, "__"@, 0, i);
}

proof fn lemma_kept_keys_from(keys: Seq<Seq<char>>, n: int)
    requires
        0 <= n <= keys.len(),
    ensures
        forall|i: int| 0 <= i < kept_keys(keys, n).len() ==> keys.contains(#[trigger] kept_keys(keys, n)[i]),
    decreases n,
{
    if n > 0 {
        lemma_kept_keys_from(keys, n - 1);
        let prev = kept_keys(keys, n - 1);
        assert forall|i: int| 0 <= i < kept_keys(keys, n).len() implies keys.contains(#[trigger] kept_keys(keys, n)[i]) by {
            if i < prev.len() {
                assert(kept_keys(keys, n)[i] == prev[i]);
            } else {
                assert(kept_keys(keys, n)[i] == keys[n - 1]);
            }
        }
    }
}

/// The directory of a module's code in a stack (see `module_source`).
fn module_source_text(s3_key: &str) -> (r: String)
    ensures
        r@ == module_source(s3_key@),
{
    proof {
        reveal_strlit(".zip");
        lemma_split_on_nonempty(s3_key@, '/');
    }
    let parts = split_chars(to_chars(s3_key).as_slice(), '/');
    let last = &parts[parts.len() - 1];
    let ghost l = last@;
    assert(l == split_on(s3_key@, '/').last());
    let mut end: usize = last.len();
    assert(l.subrange(0, end as int) =~= l);
    while end >= 4 && last[end - 4] == '.' && last[end - 3] == 'z' && last[end - 2] == 'i' && last[end - 1] == 'p'
        invariant
            l == last@,
            end <= l.len(),
            strip_zip(l) == strip_zip(l.subrange(0, end as int)),
        decreases end,
    {
        proof {
            reveal_strlit(".zip");
        }
        let ghost t = l.subrange(0, end as int);
        assert(".zip"@ =~= seq!['.', 'z', 'i', 'p']);
        assert(t.subrange(t.len() - 4, t.len() as int) =~= seq![l[end - 4], l[end - 3], l[end - 2], l[end - 1]]);
        assert(t.subrange(t.len() - 4, t.len() as int) =~= ".zip"@);
        assert(t.subrange(0, t.len() - 4) =~= l.subrange(0, end - 4));
        end = end - 4;
    }
    proof {
        let t = l.subrange(0, end as int);
        assert(".zip"@ =~= seq!['.', 'z', 'i', 'p']);
        if t.len() >= 4 && t.subrange(t.len() - 4, t.len() as int) == ".zip"@ {
            assert(t.subrange(t.len() - 4, t.len() as int)[0] == '.');
            assert(t.subrange(t.len() - 4, t.len() as int)[1] == 'z');
            assert(t.subrange(t.len() - 4, t.len() as int)[2] == 'i');
            assert(t.subrange(t.len() - 4, t.len() as int)[3] == 'p');
        }
    }
    let kept = slice_of(last, 0, end);
    from_chars(kept.as_slice())
}

/// The module variable that a stack input sets (see `key_variable`).
fn key_variable_text(key: &Vec<char>) -> (r: Vec<char>)
    requires
        first_occ(key@, "__"@, 0) is Some,
    ensures
        r@ == key_variable(key@),
{
    proof {
        reveal_strlit("__");
        assert("__"@.len() == 2);
    }
    let n = key.len();
    let i = match find_first(key, "__", 0) {
        Some(i) => i,
        None => {
            return Vec::new();
        },
    };
    let rest = slice_of(key, i + 2, n);
    head_segment_exec(&rest)
}

/// The variable lines of a claim's `module` block (see `module_var_lines`).
fn module_var_lines_text(keys: &Vec<String>, claim: &str, dep: &Vec<(String, String)>, out: &mut Vec<char>)
    requires
        all_keyed(strs_model(keys@)),
    ensures
        final(out)@ == old(out)@ + module_var_lines(strs_model(keys@), claim@, pairs_view(dep@)),
{
    let ghost ks = strs_model(keys@);
    let ghost o0 = out@;
    let claim_cs = to_chars(claim);
    let mut j: usize = 0;
    assert(ks.take(0) =~= Seq::<Seq<char>>::empty());
    assert(out@ =~= o0 + module_var_lines(ks.take(0), claim@, pairs_view(dep@)));
    while j < keys.len()
        invariant
            ks == strs_model(keys@),
            all_keyed(ks),
            claim_cs@ == claim@,
            j <= ks.len(),
            out@ == o0 + module_var_lines(ks.take(j as int), claim@, pairs_view(dep@)),
        decreases keys.len() - j,
    {
        let ghost t = ks.take(j + 1);
        assert(t.drop_last() =~= ks.take(j as int));
        assert(t.last() == keys@[j as int]@);
        let kc = to_chars(keys[j].as_str());
        assert(first_occ(ks[j as int], "__"@, 0) is Some);
        let head = head_segment_exec(&kc);
        let ghost before = out@;
        if vec_eq(&head, &claim_cs) {
            let var = key_variable_text(&kc);
            append_str(out, "\n  ");
            append_range(out, var.as_slice(), 0, var.len());
            append_str(out, " = ");
            match dependency_of(dep, keys[j].as_str()) {
                Some(d) => {
                    let h = json_or_raw_as_hcl(d.as_str());
                    append_str(out, h.as_str());
                },
                None => {
                    append_str(out, "var.");
                    append_str(out, keys[j].as_str());
                },
            }
            assert(var@.subrange(0, var@.len() as int) =~= var@);
            assert(out@ =~= before + module_var_line(ks[j as int], pairs_view(dep@)));
        }
        j = j + 1;
    }
    assert(ks.take(ks.len() as int) =~= ks);
}

/// The lines of a `module` block that pass on the variables the environment sets.
fn env_lines_text(envs: &Vec<String>, out: &mut Vec<char>)
    ensures
        final(out)@ == old(out)@ + env_lines(strs_model(envs@)),
{
    let ghost es = strs_model(envs@);
    let ghost o0 = out@;
    let mut j: usize = 0;
    assert(es.take(0) =~= Seq::<Seq<char>>::empty());
    assert(out@ =~= o0 + env_lines(es.take(0)));
    while j < envs.len()
        invariant
            es == strs_model(envs@),
            j <= es.len(),
            out@ == o0 + env_lines(es.take(j as int)),
        decreases envs.len() - j,
    {
        let ghost t = es.take(j + 1);
        assert(t.drop_last() =~= es.take(j as int));
        assert(t.last() == envs@[j as int]@);
        append_str(out, "\n  ");
        append_str(out, envs[j].as_str());
        append_str(out, " = var.");
        append_str(out, envs[j].as_str());
        assert(out@ =~= o0 + env_lines(t));
        j = j + 1;
    }
    assert(es.take(es.len() as int) =~= es);
}

/// The `module` block of a claim (see `module_block`).
fn module_block_text(claim: &str, m: &ModuleResp, keys: &Vec<String>, dep: &Vec<(String, String)>) -> (r: String)
    requires
        all_keyed(strs_model(keys@)),
    ensures
        r@ == module_block(claim@, module_shape(*m), strs_model(keys@), pairs_view(dep@)),
{
    let mut out: Vec<char> = Vec::new();
    append_str(&mut out, "\nmodule \"");
    let sn = to_snake_case(claim);
    append_str(&mut out, sn.as_str());
    append_str(&mut out, "\" {\n  source = \"./");
    let src = module_source_text(m.s3_key.as_str());
    append_str(&mut out, src.as_str());
    append_str(&mut out, "\"\n");
    module_var_lines_text(keys, claim, dep, &mut out);
    env_lines_text(&m.tf_extra_environment_variables, &mut out);
    append_str(&mut out, "\n}");
    let r = from_chars(out.as_slice());
    assert(r@ =~= module_block(claim@, module_shape(*m), strs_model(keys@), pairs_view(dep@)));
    r
}

/// The module blocks of the first `n` entries of a module collection (the last entry of each
/// claim).
pub open spec fn module_blocks(
    ms: Seq<(Seq<char>, ModuleShape)>,
    keys: Seq<Seq<char>>,
    dep: Seq<(Seq<char>, Seq<char>)>,
    n: int,
) -> Seq<Seq<char>>
    decreases n,
{
    if n <= 0 {
        Seq::empty()
    } else {
        let prev = module_blocks(ms, keys, dep, n - 1);
        if last_of_key(shape_keys(ms), n - 1) {
            prev.push(module_block(ms[n - 1].0, ms[n - 1].1, keys, dep))
        } else {
            prev
        }
    }
}

/// The shapes of the modules that a map keeps of the first `n` entries, in order.
pub open spec fn kept_shapes(ms: Seq<(Seq<char>, ModuleShape)>, n: int) -> Seq<ModuleShape>
    decreases n,
{
    if n <= 0 {
        Seq::empty()
    } else {
        let prev = kept_shapes(ms, n - 1);
        if last_of_key(shape_keys(ms), n - 1) {
            prev.push(ms[n - 1].1)
        } else {
            prev
        }
    }
}

/// The locked providers (source, version) of the modules, module by module.
pub open spec fn lock_list(shapes: Seq<ModuleShape>) -> Seq<(Seq<char>, Seq<char>)>
    decreases shapes.len(),
{
    if shapes.len() == 0 {
        Seq::empty()
    } else {
        lock_list(shapes.drop_last()) + shapes.last().locks
    }
}

/// The required providers (source, local name) of the modules, module by module.
pub open spec fn req_list(shapes: Seq<ModuleShape>) -> Seq<(Seq<char>, Seq<char>)>
    decreases shapes.len(),
{
    if shapes.len() == 0 {
        Seq::empty()
    } else {
        req_list(shapes.drop_last()) + shapes.last().reqs
    }
}

/// The first position at or after `k` of an entry with the source `src`.
pub open spec fn source_from(acc: Seq<(Seq<char>, Seq<char>)>, src: Seq<char>, k: int) -> Option<int>
    decreases acc.len() - k,
{
    if k < 0 || k >= acc.len() {
        None
    } else if acc[k].0 == src {
        Some(k)
    } else {
        source_from(acc, src, k + 1)
    }
}

/// One lock taken into the newest locks so far: a new source is added; for a known source the
/// lock replaces the kept one where its version is newer. Where either version is not a
/// semantic version, the error.
pub open spec fn lock_step(acc: Seq<(Seq<char>, Seq<char>)>, p: (Seq<char>, Seq<char>)) -> Result<
    Seq<(Seq<char>, Seq<char>)>,
    ErrorView,
> {
    match source_from(acc, p.0, 0) {
        None => Ok(acc.push(p)),
        Some(k) => if semver_valid(p.1) && semver_valid(acc[k].1) {
            if semver_newer(p.1, acc[k].1) {
                Ok(acc.update(k, p))
            } else {
                Ok(acc)
            }
        } else {
            Err(ErrorView::InvalidProviderVersion(p.1, acc[k].1))
        },
    }
}

/// The newest locked version of each provider source, sources in the order they first appear,
/// or the first error of `lock_step`.
pub open spec fn latest_locks(locks: Seq<(Seq<char>, Seq<char>)>) -> Result<Seq<(Seq<char>, Seq<char>)>, ErrorView>
    decreases locks.len(),
{
    if locks.len() == 0 {
        Ok(Seq::empty())
    } else {
        match latest_locks(locks.drop_last()) {
            Err(e) => Err(e),
            Ok(acc) => lock_step(acc, locks.last()),
        }
    }
}

/// Each newest lock as a required provider (local name, source, version), named by the last
/// module that requires its source; a source that no module requires is the error.
pub open spec fn named_providers(
    latest: Seq<(Seq<char>, Seq<char>)>,
    reqs: Seq<(Seq<char>, Seq<char>)>,
) -> Result<Seq<(Seq<char>, Seq<char>, Seq<char>)>, ErrorView>
    decreases latest.len(),
{
    if latest.len() == 0 {
        Ok(Seq::empty())
    } else {
        match named_providers(latest.drop_last(), reqs) {
            Err(e) => Err(e),
            Ok(ps) => match dep_lookup(reqs, latest.last().0) {
                None => Err(ErrorView::MissingProviderName(latest.last().0)),
                Some(n) => Ok(ps.push((n, latest.last().0, latest.last().1))),
            },
        }
    }
}

/// The entries of the `required_providers` block.
pub open spec fn provider_entries(ps: Seq<(Seq<char>, Seq<char>, Seq<char>)>) -> Seq<char>
    decreases ps.len(),
{
    if ps.len() == 0 {
        Seq::empty()
    } else {
        provider_entries(ps.drop_last()) + "\n  "@ + ps.last().0 + " = {\n    source = \""@ + ps.last().1
            + "\"\n    version = \""@ + ps.last().2 + "\"\n  }"@
    }
}

/// The `terraform` block that requires the providers.
pub open spec fn terraform_block(ps: Seq<(Seq<char>, Seq<char>, Seq<char>)>) -> Seq<char> {
    "\nterraform {\n  required_providers {"@ + indent_text(provider_entries(ps), 2) + "\n  }\n}\n"@
}

/// The required providers of a module collection: the newest lock of each source among the
/// modules that the collection keeps, named (see `latest_locks`, `named_providers`).
pub open spec fn providers_of(ms: Seq<(Seq<char>, ModuleShape)>) -> Result<Seq<(Seq<char>, Seq<char>, Seq<char>)>, ErrorView> {
    let kept = kept_shapes(ms, ms.len() as int);
    match latest_locks(lock_list(kept)) {
        Err(e) => Err(e),
        Ok(latest) => named_providers(latest, req_list(kept)),
    }
}

/// The modules part of a stack's root module and its required providers: the `terraform`
/// block, then the `module` blocks in lexicographic order, one per line; each block sets its
/// claim's inputs in the lexicographic order of their keys.
pub open spec fn modules_code(
    ms: Seq<(Seq<char>, ModuleShape)>,
    var_keys: Seq<Seq<char>>,
    dep: Seq<(Seq<char>, Seq<char>)>,
) -> Result<(Seq<char>, Seq<(Seq<char>, Seq<char>, Seq<char>)>), ErrorView> {
    match providers_of(ms) {
        Err(e) => Err(e),
        Ok(ps) => {
            let keys = sort_strs(kept_keys(var_keys, var_keys.len() as int));
            Ok((terraform_block(ps) + joined_with(sort_strs(module_blocks(ms, keys, dep, ms.len() as int)), "\n"@), ps))
        },
    }
}

/// A required provider as (local name, source, version).
pub open spec fn providers_view(ps: Seq<TfRequiredProvider>) -> Seq<(Seq<char>, Seq<char>, Seq<char>)> {
    ps.map_values(|p: TfRequiredProvider| (p.name@, p.source@, p.version@))
}

fn module_is_last(mc: &Vec<(String, ModuleResp)>, i: usize) -> (r: bool)
    requires
        i < mc@.len(),
    ensures
        r == last_of_key(shape_keys(collection_shapes(mc@)), i as int),
{
    let ghost keys = shape_keys(collection_shapes(mc@));
    let n = mc.len();
    let mut j: usize = i + 1;
    while j < mc.len()
        invariant
            keys == shape_keys(collection_shapes(mc@)),
            i < j <= mc@.len(),
            forall|k: int| i < k < j ==> keys[k] != keys[i as int],
        decreases mc.len() - j,
    {
        assert(keys[j as int] == mc@[j as int].0@ && keys[i as int] == mc@[i as int].0@);
        if mc[j].0 == mc[i].0 {
            return false;
        }
        j = j + 1;
    }
    true
}

fn find_source(acc: &Vec<(String, String)>, src: &String) -> (r: Option<usize>)
    ensures
        match r {
            Some(k) => k < acc@.len() && source_from(pairs_view(acc@), src@, 0) == Some(k as int),
            None => source_from(pairs_view(acc@), src@, 0) is None,
        },
{
    let ghost pv = pairs_view(acc@);
    let mut k: usize = 0;
    while k < acc.len()
        invariant
            pv == pairs_view(acc@),
            k <= acc@.len(),
            source_from(pv, src@, 0) == source_from(pv, src@, k as int),
        decreases acc.len() - k,
    {
        assert(pv[k as int].0 == acc@[k as int].0@);
        if acc[k].0 == *src {
            return Some(k);
        }
        k = k + 1;
    }
    None
}

/// Where no error was met yet: the newest locks so far are `acc`; else the error.
pub open spec fn lock_state(err: Option<ModuleError>, acc: Seq<(String, String)>, res: Result<Seq<(Seq<char>, Seq<char>)>, ErrorView>) -> bool {
    match err {
        Some(e) => res == Err::<Seq<(Seq<char>, Seq<char>)>, ErrorView>(e@),
        None => res == Ok::<Seq<(Seq<char>, Seq<char>)>, ErrorView>(pairs_view(acc)),
    }
}

fn take_lock(acc: &mut Vec<(String, String)>, err: &mut Option<ModuleError>, l: &TfLockProvider)
    ensures
        match *old(err) {
            Some(e) => *final(err) == *old(err) && final(acc)@ == old(acc)@,
            None => lock_state(*final(err), final(acc)@, lock_step(pairs_view(old(acc)@), (l.source@, l.version@))),
        },
{
    if err.is_some() {
        return;
    }
    let ghost pv = pairs_view(acc@);
    match find_source(acc, &l.source) {
        None => {
            acc.push((l.source.clone(), l.version.clone()));
            assert(pairs_view(acc@) =~= pv.push((l.source@, l.version@)));
        },
        Some(k) => {
            assert(pv[k as int].1 == acc@[k as int].1@);
            match newer_version(l.version.as_str(), acc[k].1.as_str()) {
                None => {
                    *err = Some(ModuleError::InvalidProviderVersion(l.version.clone(), acc[k].1.clone()));
                },
                Some(true) => {
                    acc.set(k, (l.source.clone(), l.version.clone()));
                    assert(pairs_view(acc@) =~= pv.update(k as int, (l.source@, l.version@)));
                },
                Some(false) => {},
            }
        },
    }
}

/// The newest lock of each provider source among the modules that the collection keeps (see
/// `latest_locks`).
fn latest_lock_versions(mc: &Vec<(String, ModuleResp)>) -> (r: Result<Vec<(String, String)>, ModuleError>)
    ensures
        match latest_locks(lock_list(kept_shapes(collection_shapes(mc@), mc@.len() as int))) {
            Ok(acc) => r is Ok && pairs_view(r->Ok_0@) == acc,
            Err(e) => r is Err && r->Err_0@ == e,
        },
{
    let ghost ms = collection_shapes(mc@);
    let mut acc: Vec<(String, String)> = Vec::new();
    let mut err: Option<ModuleError> = None;
    assert(pairs_view(acc@) =~= Seq::<(Seq<char>, Seq<char>)>::empty());
    let mut i: usize = 0;
    while i < mc.len()
        invariant
            ms == collection_shapes(mc@),
            i <= mc@.len(),
            lock_state(err, acc@, latest_locks(lock_list(kept_shapes(ms, i as int)))),
        decreases mc.len() - i,
    {
        let ghost done = lock_list(kept_shapes(ms, i as int));
        if module_is_last(mc, i) {
            let locks = &mc[i].1.tf_lock_providers;
            let ghost ls = ms[i as int].1.locks;
            assert(kept_shapes(ms, i + 1) == kept_shapes(ms, i as int).push(ms[i as int].1));
            assert(kept_shapes(ms, i + 1).drop_last() =~= kept_shapes(ms, i as int));
            assert(lock_list(kept_shapes(ms, i + 1)) == done + ls);
            let mut j: usize = 0;
            assert(done + ls.take(0) =~= done);
            while j < locks.len()
                invariant
                    ls == locks@.map_values(|l: TfLockProvider| (l.source@, l.version@)),
                    j <= locks@.len(),
                    lock_state(err, acc@, latest_locks(done + ls.take(j as int))),
                decreases locks.len() - j,
            {
                let ghost before = done + ls.take(j as int);
                let ghost after = done + ls.take(j + 1);
                assert(after.drop_last() =~= before);
                assert(after.last() == (locks@[j as int].source@, locks@[j as int].version@));
                take_lock(&mut acc, &mut err, &locks[j]);
                j = j + 1;
            }
            assert(ls.take(ls.len() as int) =~= ls);
        } else {
            assert(kept_shapes(ms, i + 1) == kept_shapes(ms, i as int));
        }
        i = i + 1;
    }
    match err {
        Some(e) => Err(e),
        None => Ok(acc),
    }
}

/// The required providers (source, local name) of the modules that the collection keeps, in
/// order (see `req_list`).
fn required_sources(mc: &Vec<(String, ModuleResp)>) -> (r: Vec<(String, String)>)
    ensures
        pairs_view(r@) == req_list(kept_shapes(collection_shapes(mc@), mc@.len() as int)),
{
    let ghost ms = collection_shapes(mc@);
    let mut out: Vec<(String, String)> = Vec::new();
    assert(pairs_view(out@) =~= Seq::<(Seq<char>, Seq<char>)>::empty());
    let mut i: usize = 0;
    while i < mc.len()
        invariant
            ms == collection_shapes(mc@),
            i <= mc@.len(),
            pairs_view(out@) == req_list(kept_shapes(ms, i as int)),
        decreases mc.len() - i,
    {
        let ghost done = req_list(kept_shapes(ms, i as int));
        if module_is_last(mc, i) {
            let reqs = &mc[i].1.tf_required_providers;
            let ghost rs = ms[i as int].1.reqs;
            assert(kept_shapes(ms, i + 1).drop_last() =~= kept_shapes(ms, i as int));
            assert(req_list(kept_shapes(ms, i + 1)) == done + rs);
            let mut j: usize = 0;
            assert(done + rs.take(0) =~= done);
            while j < reqs.len()
                invariant
                    rs == reqs@.map_values(|p: TfRequiredProvider| (p.source@, p.name@)),
                    j <= reqs@.len(),
                    pairs_view(out@) == done + rs.take(j as int),
                decreases reqs.len() - j,
            {
                let ghost before = pairs_view(out@);
                out.push((reqs[j].source.clone(), reqs[j].name.clone()));
                assert(pairs_view(out@) =~= before.push(rs[j as int]));
                assert(done + rs.take(j + 1) =~= (done + rs.take(j as int)).push(rs[j as int]));
                j = j + 1;
            }
            assert(rs.take(rs.len() as int) =~= rs);
        } else {
            assert(kept_shapes(ms, i + 1) == kept_shapes(ms, i as int));
        }
        i = i + 1;
    }
    out
}

proof fn lemma_named_err_stays(
    latest: Seq<(Seq<char>, Seq<char>)>,
    reqs: Seq<(Seq<char>, Seq<char>)>,
    n: int,
    m: int,
)
    requires
        0 <= n <= m <= latest.len(),
        named_providers(latest.take(n), reqs) is Err,
    ensures
        named_providers(latest.take(m), reqs) == named_providers(latest.take(n), reqs),
    decreases m - n,
{
    if n < m {
        lemma_named_err_stays(latest, reqs, n, m - 1);
        assert(latest.take(m).drop_last() =~= latest.take(m - 1));
    }
}

/// Each newest lock as a required provider (see `named_providers`).
fn name_providers(latest: &Vec<(String, String)>, reqs: &Vec<(String, String)>) -> (r: Result<Vec<TfRequiredProvider>, ModuleError>)
    ensures
        match named_providers(pairs_view(latest@), pairs_view(reqs@)) {
            Ok(ps) => r is Ok && providers_view(r->Ok_0@) == ps,
            Err(e) => r is Err && r->Err_0@ == e,
        },
{
    let ghost lv = pairs_view(latest@);
    let ghost rv = pairs_view(reqs@);
    let mut out: Vec<TfRequiredProvider> = Vec::new();
    assert(providers_view(out@) =~= Seq::<(Seq<char>, Seq<char>, Seq<char>)>::empty());
    assert(lv.take(0) =~= Seq::<(Seq<char>, Seq<char>)>::empty());
    let mut k: usize = 0;
    while k < latest.len()
        invariant
            lv == pairs_view(latest@),
            rv == pairs_view(reqs@),
            k <= lv.len(),
            named_providers(lv.take(k as int), rv) == Ok::<Seq<(Seq<char>, Seq<char>, Seq<char>)>, ErrorView>(providers_view(out@)),
        decreases latest.len() - k,
    {
        let ghost t = lv.take(k + 1);
        assert(t.drop_last() =~= lv.take(k as int));
        assert(t.last() == (latest@[k as int].0@, latest@[k as int].1@));
        match dependency_of(reqs, latest[k].0.as_str()) {
            None => {
                proof {
                    lemma_named_err_stays(lv, rv, k + 1, lv.len() as int);
                    assert(lv.take(lv.len() as int) =~= lv);
                }
                return Err(ModuleError::MissingProviderName(latest[k].0.clone()));
            },
            Some(n) => {
                let ghost before = providers_view(out@);
                out.push(TfRequiredProvider { name: n, source: latest[k].0.clone(), version: latest[k].1.clone() });
                assert(providers_view(out@) =~= before.push((n@, latest@[k as int].0@, latest@[k as int].1@)));
            },
        }
        k = k + 1;
    }
    assert(lv.take(lv.len() as int) =~= lv);
    Ok(out)
}

/// The `terraform` block that requires the providers (see `terraform_block`).
fn terraform_block_text(ps: &Vec<TfRequiredProvider>) -> (r: String)
    ensures
        r@ == terraform_block(providers_view(ps@)),
{
    let ghost pv = providers_view(ps@);
    let mut entries: Vec<char> = Vec::new();
    let mut k: usize = 0;
    assert(pv.take(0) =~= Seq::<(Seq<char>, Seq<char>, Seq<char>)>::empty());
    assert(entries@ =~= provider_entries(pv.take(0)));
    while k < ps.len()
        invariant
            pv == providers_view(ps@),
            k <= pv.len(),
            entries@ == provider_entries(pv.take(k as int)),
        decreases ps.len() - k,
    {
        let ghost t = pv.take(k + 1);
        assert(t.drop_last() =~= pv.take(k as int));
        assert(t.last() == (ps@[k as int].name@, ps@[k as int].source@, ps@[k as int].version@));
        append_str(&mut entries, "\n  ");
        append_str(&mut entries, ps[k].name.as_str());
        append_str(&mut entries, " = {\n    source = \"");
        append_str(&mut entries, ps[k].source.as_str());
        append_str(&mut entries, "\"\n    version = \"");
        append_str(&mut entries, ps[k].version.as_str());
        append_str(&mut entries, "\"\n  }");
        assert(entries@ =~= provider_entries(t));
        k = k + 1;
    }
    assert(pv.take(pv.len() as int) =~= pv);
    let entries_s = from_chars(entries.as_slice());
    let ind = indent(entries_s.as_str(), 2);
    let mut out: Vec<char> = Vec::new();
    append_str(&mut out, "\nterraform {\n  required_providers {");
    append_str(&mut out, ind.as_str());
    append_str(&mut out, "\n  }\n}\n");
    let r = from_chars(out.as_slice());
    assert(r@ =~= terraform_block(pv));
    r
}

/// The keys of the variables that a map keeps, in lexicographic order.
fn sorted_variable_keys(variable_collection: &Vec<(String, TfVariable)>) -> (r: Vec<String>)
    ensures
        strs_model(r@) == sort_strs(kept_keys(head_keys(var_heads(variable_collection@)), variable_collection@.len() as int)),
{
    let ghost keys = head_keys(var_heads(variable_collection@));
    let mut out: Vec<String> = Vec::new();
    assert(strs_model(out@) =~= Seq::<Seq<char>>::empty());
    let mut i: usize = 0;
    while i < variable_collection.len()
        invariant
            keys == head_keys(var_heads(variable_collection@)),
            i <= variable_collection@.len(),
            strs_model(out@) == kept_keys(keys, i as int),
        decreases variable_collection.len() - i,
    {
        if var_is_last(variable_collection, i) {
            let ghost before = strs_model(out@);
            out.push(variable_collection[i].0.clone());
            assert(keys[i as int] == variable_collection@[i as int].0@);
            assert(strs_model(out@) =~= before.push(keys[i as int]));
        }
        i = i + 1;
    }
    sort_strings(out)
}

/// The modules part of a stack's root module and its required providers (see `modules_code`).
/// `module_collection` holds each claim's name in snake_case with its module version.
pub fn generate_terraform_modules(
    module_collection: &Vec<(String, ModuleResp)>,
    variable_collection: &Vec<(String, TfVariable)>,
    dependency_map: &Vec<(String, String)>,
) -> (r: Result<(String, Vec<TfRequiredProvider>), ModuleError>)
    requires
        module_collection@.len() > 0 ==> all_keyed(head_keys(var_heads(variable_collection@))),
    ensures
        match modules_code(
            collection_shapes(module_collection@),
            head_keys(var_heads(variable_collection@)),
            pairs_view(dependency_map@),
        ) {
            Ok((code, ps)) => r is Ok && r->Ok_0.0@ == code && providers_view(r->Ok_0.1@) == ps,
            Err(e) => r is Err && r->Err_0@ == e,
        },
{
    let ghost ms = collection_shapes(module_collection@);
    let ghost dep = pairs_view(dependency_map@);
    let latest = match latest_lock_versions(module_collection) {
        Ok(l) => l,
        Err(e) => {
            return Err(e);
        },
    };
    let reqs = required_sources(module_collection);
    let providers = match name_providers(&latest, &reqs) {
        Ok(p) => p,
        Err(e) => {
            return Err(e);
        },
    };
    let block = terraform_block_text(&providers);
    let keys = sorted_variable_keys(variable_collection);
    proof {
        let hk = head_keys(var_heads(variable_collection@));
        let kk = kept_keys(hk, hk.len() as int);
        lemma_kept_keys_from(hk, hk.len() as int);
        lemma_sort_strs_members(kk);
        if module_collection@.len() > 0 {
            assert forall|i: int| 0 <= i < strs_model(keys@).len() implies first_occ(#[trigger] strs_model(keys@)[i], "__"@, 0) is Some by {
                let y = strs_model(keys@)[i];
                assert(kk.contains(y));
                let q = choose|q: int| 0 <= q < kk.len() && kk[q] == y;
                assert(hk.contains(kk[q]));
                let p = choose|p: int| 0 <= p < hk.len() && hk[p] == kk[q];
                assert(first_occ(hk[p], "__"@, 0) is Some);
            }
        }
    }
    let mut blocks: Vec<String> = Vec::new();
    assert(strs_model(blocks@) =~= Seq::<Seq<char>>::empty());
    let mut i: usize = 0;
    while i < module_collection.len()
        invariant
            ms == collection_shapes(module_collection@),
            dep == pairs_view(dependency_map@),
            module_collection@.len() > 0 ==> all_keyed(strs_model(keys@)),
            i <= module_collection@.len(),
            strs_model(blocks@) == module_blocks(ms, strs_model(keys@), dep, i as int),
        decreases module_collection.len() - i,
    {
        if module_is_last(module_collection, i) {
            let b = module_block_text(module_collection[i].0.as_str(), &module_collection[i].1, &keys, dependency_map);
            let ghost before = strs_model(blocks@);
            blocks.push(b);
            assert(strs_model(blocks@) =~= before.push(b@));
        }
        i = i + 1;
    }
    let sorted = sort_strings(blocks);
    let joined = join_strings(&sorted, "\n");
    let mut out: Vec<char> = Vec::new();
    append_str(&mut out, block.as_str());
    append_str(&mut out, joined.as_str());
    let code = from_chars(out.as_slice());
    Ok((code, providers))
}

/// A copy of a module version.
fn copy_module_resp(m: &ModuleResp) -> (r: ModuleResp)
    ensures
        module_shape(r) == module_shape(*m),
{
    let mut vars: Vec<TfVariable> = Vec::new();
    let mut i: usize = 0;
    while i < m.tf_variables.len()
        invariant
            i <= m.tf_variables@.len(),
        decreases m.tf_variables.len() - i,
    {
        let v = &m.tf_variables[i];
        vars.push(variable_with_default(v, copy_opt_value(&v.default)));
        i = i + 1;
    }
    let mut outs: Vec<TfOutput> = Vec::new();
    let mut i: usize = 0;
    while i < m.tf_outputs.len()
        invariant
            i <= m.tf_outputs@.len(),
        decreases m.tf_outputs.len() - i,
    {
        outs.push(TfOutput { name: m.tf_outputs[i].name.clone(), description: m.tf_outputs[i].description.clone() });
        i = i + 1;
    }
    let ghost rv = m.tf_required_providers@.map_values(|p: TfRequiredProvider| (p.source@, p.name@));
    let mut reqs: Vec<TfRequiredProvider> = Vec::new();
    let mut i: usize = 0;
    while i < m.tf_required_providers.len()
        invariant
            rv == m.tf_required_providers@.map_values(|p: TfRequiredProvider| (p.source@, p.name@)),
            i <= m.tf_required_providers@.len(),
            reqs@.map_values(|p: TfRequiredProvider| (p.source@, p.name@)) == rv.take(i as int),
        decreases m.tf_required_providers.len() - i,
    {
        let p = &m.tf_required_providers[i];
        let ghost before = reqs@.map_values(|p: TfRequiredProvider| (p.source@, p.name@));
        reqs.push(TfRequiredProvider { name: p.name.clone(), source: p.source.clone(), version: p.version.clone() });
        assert(reqs@.map_values(|p: TfRequiredProvider| (p.source@, p.name@)) =~= before.push(rv[i as int]));
        assert(rv.take(i + 1) =~= rv.take(i as int).push(rv[i as int]));
        i = i + 1;
    }
    assert(rv.take(rv.len() as int) =~= rv);
    let ghost lv = m.tf_lock_providers@.map_values(|l: TfLockProvider| (l.source@, l.version@));
    let mut locks: Vec<TfLockProvider> = Vec::new();
    let mut i: usize = 0;
    while i < m.tf_lock_providers.len()
        invariant
            lv == m.tf_lock_providers@.map_values(|l: TfLockProvider| (l.source@, l.version@)),
            i <= m.tf_lock_providers@.len(),
            locks@.map_values(|l: TfLockProvider| (l.source@, l.version@)) == lv.take(i as int),
        decreases m.tf_lock_providers.len() - i,
    {
        let l = &m.tf_lock_providers[i];
        let ghost before = locks@.map_values(|l: TfLockProvider| (l.source@, l.version@));
        locks.push(TfLockProvider { source: l.source.clone(), version: l.version.clone() });
        assert(locks@.map_values(|l: TfLockProvider| (l.source@, l.version@)) =~= before.push(lv[i as int]));
        assert(lv.take(i + 1) =~= lv.take(i as int).push(lv[i as int]));
        i = i + 1;
    }
    assert(lv.take(lv.len() as int) =~= lv);
    let r = ModuleResp {
        module: m.module.clone(),
        module_name: m.module_name.clone(),
        module_type: m.module_type.clone(),
        version: m.version.clone(),
        track: m.track.clone(),
        timestamp: m.timestamp.clone(),
        description: m.description.clone(),
        reference: m.reference.clone(),
        s3_key: m.s3_key.clone(),
        tf_variables: vars,
        tf_outputs: outs,
        tf_required_providers: reqs,
        tf_lock_providers: locks,
        tf_extra_environment_variables: copy_strings(&m.tf_extra_environment_variables),
        cpu: m.cpu.clone(),
        memory: m.memory.clone(),
        deprecated: m.deprecated,
        deprecated_message: match &m.deprecated_message {
            Some(t) => Some(t.clone()),
            None => None,
        },
    };
    assert(module_shape(r) =~= module_shape(*m));
    r
}

/// The claims of a stack as a module collection: each claim's name in snake_case with its
/// module version.
pub open spec fn claim_shapes(cms: Seq<ClaimModule>) -> Seq<(Seq<char>, ModuleShape)> {
    cms.map_values(|cm: ClaimModule| (snake_case(cm.0.metadata.name@), module_shape(cm.1)))
}

/// The module collection of a stack's claims: each claim's name in snake_case with (a copy of)
/// its module version.
pub fn collect_modules(claim_modules: &Vec<ClaimModule>) -> (r: Vec<(String, ModuleResp)>)
    ensures
        collection_shapes(r@) == claim_shapes(claim_modules@),
{
    let ghost cs = claim_shapes(claim_modules@);
    let mut out: Vec<(String, ModuleResp)> = Vec::new();
    let mut i: usize = 0;
    while i < claim_modules.len()
        invariant
            cs == claim_shapes(claim_modules@),
            i <= claim_modules@.len(),
            collection_shapes(out@) == cs.take(i as int),
        decreases claim_modules.len() - i,
    {
        let name = to_snake_case(claim_modules[i].0.metadata.name.as_str());
        let m = copy_module_resp(&claim_modules[i].1);
        let ghost before = collection_shapes(out@);
        out.push((name, m));
        assert(collection_shapes(out@) =~= before.push(cs[i as int]));
        assert(cs.take(i + 1) =~= cs.take(i as int).push(cs[i as int]));
        i = i + 1;
    }
    assert(cs.take(cs.len() as int) =~= cs);
    out
}

/// The variables that the environment sets, claim by claim.
pub open spec fn env_list(cms: Seq<ClaimModule>) -> Seq<Seq<char>>
    decreases cms.len(),
{
    if cms.len() == 0 {
        Seq::empty()
    } else {
        env_list(cms.drop_last()) + strs_model(cms.last().1.tf_extra_environment_variables@)
    }
}

/// The first `n` strings without repeats: each where it first occurs.
pub open spec fn first_occurrences(s: Seq<Seq<char>>, n: int) -> Seq<Seq<char>>
    decreases n,
{
    if n <= 0 {
        Seq::empty()
    } else {
        let prev = first_occurrences(s, n - 1);
        if s.take(n - 1).contains(s[n - 1]) {
            prev
        } else {
            prev.push(s[n - 1])
        }
    }
}

/// The variables that the environment sets for a stack: each once, in the order of the claims.
pub open spec fn stack_envs(cms: Seq<ClaimModule>) -> Seq<Seq<char>> {
    first_occurrences(env_list(cms), env_list(cms).len() as int)
}

/// The variables that the environment sets for a stack (see `stack_envs`).
pub fn extra_environment_variables(claim_modules: &Vec<ClaimModule>) -> (r: Vec<String>)
    ensures
        strs_model(r@) == stack_envs(claim_modules@),
{
    let ghost cms = claim_modules@;
    let mut all: Vec<String> = Vec::new();
    let mut i: usize = 0;
    assert(strs_model(all@) =~= env_list(cms.take(0)));
    while i < claim_modules.len()
        invariant
            cms == claim_modules@,
            i <= cms.len(),
            strs_model(all@) == env_list(cms.take(i as int)),
        decreases claim_modules.len() - i,
    {
        let envs = &claim_modules[i].1.tf_extra_environment_variables;
        let ghost base = strs_model(all@);
        let ghost es = strs_model(envs@);
        let mut j: usize = 0;
        assert(base + es.take(0) =~= base);
        while j < envs.len()
            invariant
                es == strs_model(envs@),
                j <= es.len(),
                strs_model(all@) == base + es.take(j as int),
            decreases envs.len() - j,
        {
            let ghost before = strs_model(all@);
            all.push(envs[j].clone());
            assert(strs_model(all@) =~= before.push(es[j as int]));
            assert(base + es.take(j + 1) =~= (base + es.take(j as int)).push(es[j as int]));
            j = j + 1;
        }
        assert(es.take(es.len() as int) =~= es);
        assert(cms.take(i + 1).drop_last() =~= cms.take(i as int));
        assert(cms.take(i + 1).last() == cms[i as int]);
        i = i + 1;
    }
    assert(cms.take(cms.len() as int) =~= cms);
    let ghost s = strs_model(all@);
    let mut out: Vec<String> = Vec::new();
    assert(strs_model(out@) =~= Seq::<Seq<char>>::empty());
    let mut k: usize = 0;
    while k < all.len()
        invariant
            s == strs_model(all@),
            k <= s.len(),
            strs_model(out@) == first_occurrences(s, k as int),
        decreases all.len() - k,
    {
        let mut seen = false;
        let mut q: usize = 0;
        while q < k
            invariant
                s == strs_model(all@),
                k < s.len(),
                q <= k,
                seen == s.take(q as int).contains(s[k as int]),
            decreases k - q,
        {
            assert(s.take(q + 1) =~= s.take(q as int).push(s[q as int]));
            if all[q] == all[k] {
                assert(s.take(q + 1)[q as int] == s[k as int]);
                seen = true;
            } else {
                proof {
                    assert(s[q as int] != s[k as int]);
                    let t = s.take(q + 1);
                    if t.contains(s[k as int]) {
                        let w = choose|w: int| 0 <= w < t.len() && #[trigger] t[w] == s[k as int];
                        assert(s.take(q as int)[w] == s[k as int]);
                    }
                }
            }
            q = q + 1;
        }
        if !seen {
            let ghost before = strs_model(out@);
            out.push(all[k].clone());
            assert(strs_model(out@) =~= before.push(s[k as int]));
        }
        k = k + 1;
    }
    out
}

/// The dependency map of the first `n` variable heads (see `dependency_map_upto`).
pub open spec fn dep_map_of_heads(
    hs: Seq<VarHead>,
    okeys: Seq<Seq<char>>,
    n: int,
) -> Result<Seq<(Seq<char>, Seq<char>)>, ErrorView>
    decreases n,
{
    if n <= 0 {
        Ok(Seq::empty())
    } else {
        match dep_map_of_heads(hs, okeys, n - 1) {
            Err(e) => Err(e),
            Ok(m) => match hs[n - 1].default {
                None => Ok(m),
                Some(ser) => match dep_entry(hs[n - 1].key, hs[n - 1].name, ser, head_keys(hs), okeys) {
                    Err(e) => Err(e),
                    Ok(None) => Ok(m),
                    Ok(Some(t)) => Ok(m.push((hs[n - 1].key, t))),
                },
            },
        }
    }
}

proof fn lemma_dep_map_heads(vs: Seq<(String, TfVariable)>, ok: Seq<Seq<char>>, n: int)
    requires
        0 <= n <= vs.len(),
    ensures
        dependency_map_upto(vs, ok, n) == dep_map_of_heads(var_heads(vs), ok, n),
    decreases n,
{
    assert(var_keys_of(vs) =~= head_keys(var_heads(vs)));
    if n > 0 {
        lemma_dep_map_heads(vs, ok, n - 1);
        assert(var_heads(vs)[n - 1] == head_of(vs[n - 1].0@, vs[n - 1].1, vs[n - 1].1.default));
    }
}

proof fn lemma_var_entries_keyed(cms: Seq<ClaimModule>)
    ensures
        all_keyed(head_keys(entry_heads(var_entries(cms)))),
    decreases cms.len(),
{
    if cms.len() > 0 {
        lemma_var_entries_keyed(cms.drop_last());
        let a = var_entries(cms.drop_last());
        let b = claim_var_entries(cms.last());
        let ks = head_keys(entry_heads(var_entries(cms)));
        assert forall|i: int| 0 <= i < ks.len() implies first_occ(#[trigger] ks[i], "__"@, 0) is Some by {
            if i < a.len() {
                assert(ks[i] == head_keys(entry_heads(a))[i]);
            } else {
                let v = cms.last().1.tf_variables@[i - a.len()];
                assert(ks[i] == prefixed(cms.last().0.metadata.name@, v.name@));
                lemma_prefixed_keyed(cms.last().0.metadata.name@, v.name@);
            }
        }
    }
}

proof fn lemma_out_entries_keyed(cms: Seq<ClaimModule>)
    ensures
        all_keyed(out_entries(cms).map_values(|e: (Seq<char>, Seq<char>, Seq<char>)| e.0)),
    decreases cms.len(),
{
    if cms.len() > 0 {
        lemma_out_entries_keyed(cms.drop_last());
        let a = out_entries(cms.drop_last());
        let ks = out_entries(cms).map_values(|e: (Seq<char>, Seq<char>, Seq<char>)| e.0);
        let ka = a.map_values(|e: (Seq<char>, Seq<char>, Seq<char>)| e.0);
        assert forall|i: int| 0 <= i < ks.len() implies first_occ(#[trigger] ks[i], "__"@, 0) is Some by {
            if i < a.len() {
                assert(ks[i] == ka[i]);
            } else {
                let o = cms.last().1.tf_outputs@[i - a.len()];
                assert(ks[i] == prefixed(cms.last().0.metadata.name@, o.name@));
                lemma_prefixed_keyed(cms.last().0.metadata.name@, o.name@);
            }
        }
    }
}

/// The Terraform root module of a stack, in three parts, with the providers it requires and
/// the variables that the environment sets.
pub struct ModuleStackData {
    pub terraform_module_code: String,
    pub terraform_variable_code: String,
    pub terraform_output_code: String,
    pub providers: Vec<TfRequiredProvider>,
    pub tf_extra_environment_variables: Vec<String>,
}

/// The root module of a stack: the dependency map of its variables (or its error), then the
/// modules part with its providers (or its error), the variables part without the wired inputs,
/// the outputs part and the variables that the environment sets.
pub open spec fn full_module(cms: Seq<ClaimModule>) -> Result<
    (Seq<char>, Seq<char>, Seq<char>, Seq<(Seq<char>, Seq<char>, Seq<char>)>, Seq<Seq<char>>),
    ErrorView,
> {
    let hs = entry_heads(var_entries(cms));
    let okeys = out_entries(cms).map_values(|e: (Seq<char>, Seq<char>, Seq<char>)| e.0);
    match dep_map_of_heads(hs, okeys, hs.len() as int) {
        Err(e) => Err(e),
        Ok(dep) => match modules_code(claim_shapes(cms), head_keys(hs), dep) {
            Err(e) => Err(e),
            Ok((code, ps)) => {
                let envs = stack_envs(cms);
                Ok((code, variables_code(hs, dep, envs), outputs_code(okeys), ps, envs))
            },
        },
    }
}

/// The Terraform root module of a stack (see `full_module`).
pub fn generate_full_terraform_module(claim_modules: &Vec<ClaimModule>) -> (r: Result<ModuleStackData, ModuleError>)
    ensures
        match full_module(claim_modules@) {
            Ok((code, vars, outs, ps, envs)) => r is Ok && {
                let d = r->Ok_0;
                &&& d.terraform_module_code@ == code
                &&& d.terraform_variable_code@ == vars
                &&& d.terraform_output_code@ == outs
                &&& providers_view(d.providers@) == ps
                &&& strs_model(d.tf_extra_environment_variables@) == envs
            },
            Err(e) => r is Err && r->Err_0@ == e,
        },
{
    let ghost cms = claim_modules@;
    let ghost es = var_entries(cms);
    let ghost hs = entry_heads(es);
    let ghost okeys = out_entries(cms).map_values(|e: (Seq<char>, Seq<char>, Seq<char>)| e.0);
    let variable_collection = collect_module_variables(claim_modules);
    let output_collection = collect_module_outputs(claim_modules);
    let module_collection = collect_modules(claim_modules);
    proof {
        let vs = variable_collection@;
        assert(var_heads(vs) =~= hs) by {
            assert forall|i: int| 0 <= i < vs.len() implies #[trigger] var_heads(vs)[i] == hs[i] by {
                assert(vs[i].0@ == es[i].0 && var_like(vs[i].1, es[i].1, es[i].2));
                match (vs[i].1.default, es[i].2) {
                    (Some(a), Some(b)) => lemma_same_value_model(a, b),
                    _ => {},
                }
            }
        }
        let os = output_collection@;
        assert(out_keys_of(os) =~= okeys) by {
            assert forall|i: int| 0 <= i < os.len() implies #[trigger] out_keys_of(os)[i] == okeys[i] by {
                assert(outs_view(os)[i] == out_entries(cms)[i]);
            }
        }
        lemma_dep_map_heads(vs, okeys, vs.len() as int);
        lemma_var_entries_keyed(cms);
        lemma_out_entries_keyed(cms);
    }
    let dependency_map = match generate_dependency_map(&variable_collection, &output_collection) {
        Ok(m) => m,
        Err(e) => {
            return Err(e);
        },
    };
    let (terraform_module_code, providers) = match generate_terraform_modules(
        &module_collection,
        &variable_collection,
        &dependency_map,
    ) {
        Ok(x) => x,
        Err(e) => {
            return Err(e);
        },
    };
    let tf_extra_environment_variables = extra_environment_variables(claim_modules);
    let terraform_variable_code = generate_terraform_variables(
        &variable_collection,
        &dependency_map,
        &tf_extra_environment_variables,
    );
    let terraform_output_code = generate_terraform_outputs(&output_collection);
    Ok(
        ModuleStackData {
            terraform_module_code,
            terraform_variable_code,
            terraform_output_code,
            providers,
            tf_extra_environment_variables,
        },
    )
}

} // verus!
