//! The record under which a module or stack version is published, and the checks made before
//! it is written: a module must name a provider and its code must require one, and either must
//! have a version.
use vstd::prelude::*;
use crate::manifest::{ErrorView, ModuleError, ModuleManifest, ModuleResp, TfLockProvider, TfOutput, TfRequiredProvider, TfVariable};
use crate::examples::{first_invalid_module_example, validate_module_examples};
use crate::names::check_name_free;
use crate::text::{append_str, from_chars};
use crate::versions::{
    check_error_text, check_stable_version, check_version_against_latest, opt_string, opt_text, prerelease, semver_build, semver_pre,
    semver_valid, version_check, CheckOutcome, VersionCheckError,
};
use crate::infra::{get_default_cpu, get_default_memory};
use crate::publishing::{is_environment_variable_exec, copies_of, environment_variable_names, package_s3_key, split_environment_variables, user_variables};

verus! {

/// Why a version cannot be published, checked in this order: a module that names no provider
/// that the catalog has, a module whose code requires no provider, and a manifest without a
/// version. Stacks take their providers from their claims and skip the first two checks.
pub open spec fn publish_problem(
    name: Seq<char>,
    is_stack: bool,
    provider_count: int,
    required_provider_count: int,
    version: Option<Seq<char>>,
) -> Option<ErrorView> {
    if !is_stack && provider_count == 0 {
        Some(ErrorView::NoProvidersDefined(name))
    } else if !is_stack && required_provider_count == 0 {
        Some(ErrorView::NoRequiredProvidersDefined(name))
    } else if version is None {
        Some(ErrorView::ModuleVersionMissing(name))
    } else {
        None
    }
}

/// The record of a version to publish: the name, the module or stack name, `module` or
/// `stack`, the version, the track, when it was published, its description and reference, the CPU units and memory of its
/// jobs (1024 and 2048 where the manifest sets none), where its package is stored (`<name>/<name>-<version>.zip`), the variables that users
/// set, the names of those that the environment sets (`INFRAWEAVE_...`), the outputs, the
/// required and the locked providers, and not deprecated. It fails as `publish_problem` says.
pub fn publish_record(
    name: &String,
    module_name: &String,
    is_stack: bool,
    version: &Option<String>,
    track: &str,
    provider_count: usize,
    tf_variables: &Vec<TfVariable>,
    tf_outputs: Vec<TfOutput>,
    tf_required_providers: Vec<TfRequiredProvider>,
    tf_lock_providers: Vec<TfLockProvider>,
    cpu: &Option<String>,
    memory: &Option<String>,
    timestamp: &str,
    description: &str,
    reference: &str,
) -> (r: Result<ModuleResp, ModuleError>)
    ensures
        match publish_problem(
            name@,
            is_stack,
            provider_count as int,
            tf_required_providers@.len() as int,
            match version {
                Some(v) => Some(v@),
                None => None,
            },
        ) {
            Some(e) => r matches Err(x) && x@ == e,
            None => r is Ok && {
                let m = r->Ok_0;
                let v = version->Some_0@;
                &&& m.module@ == name@
                &&& m.module_name@ == module_name@
                &&& m.module_type@ == (if is_stack { "stack"@ } else { "module"@ })
                &&& m.timestamp@ == timestamp@
                &&& m.description@ == description@
                &&& m.reference@ == reference@
                &&& m.cpu@ == match cpu {
                    Some(c) => c@,
                    None => "1024"@,
                }
                &&& m.memory@ == match memory {
                    Some(x) => x@,
                    None => "2048"@,
                }
                &&& m.version@ == v
                &&& m.track@ == track@
                &&& m.s3_key@ == name@ + "/"@ + name@ + "-"@ + v + ".zip"@
                &&& copies_of(m.tf_variables@, user_variables(tf_variables@))
                &&& m.tf_extra_environment_variables@.map_values(|s: String| s@) == environment_variable_names(tf_variables@)
                &&& m.tf_outputs == tf_outputs
                &&& m.tf_required_providers == tf_required_providers
                &&& m.tf_lock_providers == tf_lock_providers
                &&& !m.deprecated
                &&& m.deprecated_message is None
            },
        },
{
    if !is_stack && provider_count == 0 {
        return Err(ModuleError::NoProvidersDefined(name.clone()));
    }
    if !is_stack && tf_required_providers.len() == 0 {
        return Err(ModuleError::NoRequiredProvidersDefined(name.clone()));
    }
    let v = match version {
        None => {
            return Err(ModuleError::ModuleVersionMissing(name.clone()));
        },
        Some(v) => v,
    };
    let (users, env) = split_environment_variables(tf_variables);
    Ok(
        make_record(
            name,
            module_name,
            is_stack,
            v,
            track,
            users,
            env,
            tf_outputs,
            tf_required_providers,
            tf_lock_providers,
            cpu,
            memory,
            timestamp,
            description,
            reference,
        ),
    )
}

/// The record's fields (see `publish_record`), from variables already split.
fn make_record(
    name: &String,
    module_name: &String,
    is_stack: bool,
    version: &String,
    track: &str,
    users: Vec<TfVariable>,
    env: Vec<String>,
    tf_outputs: Vec<TfOutput>,
    tf_required_providers: Vec<TfRequiredProvider>,
    tf_lock_providers: Vec<TfLockProvider>,
    cpu: &Option<String>,
    memory: &Option<String>,
    timestamp: &str,
    description: &str,
    reference: &str,
) -> (m: ModuleResp)
    ensures
        m.description@ == description@,
        m.reference@ == reference@,
        m.module@ == name@,
        m.module_name@ == module_name@,
        m.module_type@ == (if is_stack { "stack"@ } else { "module"@ }),
        m.timestamp@ == timestamp@,
        m.cpu@ == match cpu {
            Some(c) => c@,
            None => "1024"@,
        },
        m.memory@ == match memory {
            Some(x) => x@,
            None => "2048"@,
        },
        m.version@ == version@,
        m.track@ == track@,
        m.s3_key@ == name@ + "/"@ + name@ + "-"@ + version@ + ".zip"@,
        m.tf_variables == users,
        m.tf_extra_environment_variables == env,
        m.tf_outputs == tf_outputs,
        m.tf_required_providers == tf_required_providers,
        m.tf_lock_providers == tf_lock_providers,
        !m.deprecated,
        m.deprecated_message is None,
{
    ModuleResp {
        module: name.clone(),
        module_name: module_name.clone(),
        module_type: if is_stack {
            String::from_str("stack")
        } else {
            String::from_str("module")
        },
        version: version.clone(),
        track: String::from_str(track),
        timestamp: String::from_str(timestamp),
        description: String::from_str(description),
        reference: String::from_str(reference),
        s3_key: package_s3_key(name.as_str(), version.as_str()),
        tf_variables: users,
        tf_outputs,
        tf_required_providers,
        tf_lock_providers,
        tf_extra_environment_variables: env,
        cpu: match cpu {
            Some(c) => c.clone(),
            None => get_default_cpu(),
        },
        memory: match memory {
            Some(x) => x.clone(),
            None => get_default_memory(),
        },
        deprecated: false,
        deprecated_message: None,
    }
}

/// The version to publish: the one given on the command line, else the manifest's. Giving one
/// where the manifest already sets one is refused (`requires`).
pub fn version_to_publish(manifest_version: &Option<String>, version_arg: Option<&str>) -> (r: Option<String>)
    requires
        !(version_arg is Some && manifest_version is Some),
    ensures
        match version_arg {
            Some(a) => r matches Some(v) && v@ == a@,
            None => match manifest_version {
                Some(m) => r matches Some(v) && v@ == m@,
                None => r is None,
            },
        },
{
    match version_arg {
        Some(a) => Some(String::from_str(a)),
        None => match manifest_version {
            Some(m) => Some(m.clone()),
            None => None,
        },
    }
}

/// The variables of a module split into those users set and the names of those set from the
/// environment, each in order, moving the variables.
fn split_owned(vs: Vec<TfVariable>) -> (r: (Vec<TfVariable>, Vec<String>))
    ensures
        r.0@ == user_variables(vs@),
        r.1@.map_values(|s: String| s@) == environment_variable_names(vs@),
{
    let ghost orig = vs@;
    assert(orig.len() == vs.len());
    let mut rest = vs;
    let mut users: Vec<TfVariable> = Vec::new();
    let mut env: Vec<String> = Vec::new();
    let mut k: usize = 0;
    while rest.len() > 0
        invariant
            k <= orig.len(),
            rest@ == orig.skip(k as int),
            k + rest@.len() == orig.len(),
            orig.len() <= usize::MAX,
            users@ == user_variables(orig.take(k as int)),
            env@.map_values(|s: String| s@) == environment_variable_names(orig.take(k as int)),
        decreases rest.len(),
    {
        let v = rest.remove(0);
        assert(orig.take(k + 1).drop_last() =~= orig.take(k as int));
        assert(orig.take(k + 1).last() == v);
        assert(rest@ =~= orig.skip(k + 1));
        if is_environment_variable_exec(&v.name) {
            let ghost before = env@.map_values(|s: String| s@);
            env.push(v.name.clone());
            assert(env@.map_values(|s: String| s@) =~= before.push(v.name@));
        } else {
            users.push(v);
        }
        k = k + 1;
    }
    assert(orig.take(k as int) =~= orig);
    (users, env)
}

/// What the checks of a module's package made with other tools found: `None` where a check
/// passed, else its reason. They read the Terraform lock file, hold the manifest to the
/// module schema, take variable and output names through the snake_case/camelCase round
/// trip, and match the version against the track.
pub struct PackageChecks {
    pub lockfile_error: Option<String>,
    pub schema_error: Option<String>,
    pub variable_naming_error: Option<String>,
    pub output_naming_error: Option<String>,
    pub track_error: Option<String>,
}

/// `Module '<name>': <reason>`.
pub open spec fn naming_reason(name: Seq<char>, reason: Seq<char>) -> Seq<char> {
    "Module '"@ + name + "': "@ + reason
}

/// The version check against the newest version of the track failed.
pub open spec fn check_failed(o: CheckOutcome) -> bool {
    !(o is Unreleased || o is First || o is Newer)
}

/// Why a module version cannot be published, checked in this order: no provider that the
/// catalog has; no readable lock file; a manifest that does not fit the schema; no required
/// provider; a variable name, then an output name, that does not survive the case round trip
/// (the reason prefixed with `Module '<name>': `); no version; a version that is not a
/// semantic version; a version that does not belong in the track; an invalid example (checked
/// against the module's user variables followed by its providers' variables); a version that
/// may not follow the newest of the track; a stack that has the module's name.
pub open spec fn module_publish_problem(
    m: ModuleManifest,
    provider_count: int,
    c: PackageChecks,
    required_provider_count: int,
    version: Option<Seq<char>>,
    track: Seq<char>,
    example_variables: Seq<TfVariable>,
    latest: Option<Seq<char>>,
    stack_exists: bool,
) -> Option<ErrorView> {
    if provider_count == 0 {
        Some(ErrorView::NoProvidersDefined(m.name@))
    } else if c.lockfile_error is Some {
        Some(ErrorView::TerraformNoLockfile(c.lockfile_error->Some_0@))
    } else if c.schema_error is Some {
        Some(ErrorView::InvalidModuleSchema(c.schema_error->Some_0@))
    } else if required_provider_count == 0 {
        Some(ErrorView::NoRequiredProvidersDefined(m.name@))
    } else if c.variable_naming_error is Some {
        Some(ErrorView::InvalidVariableNaming(naming_reason(m.name@, c.variable_naming_error->Some_0@)))
    } else if c.output_naming_error is Some {
        Some(ErrorView::InvalidOutputNaming(naming_reason(m.name@, c.output_naming_error->Some_0@)))
    } else if version is None {
        Some(ErrorView::ModuleVersionMissing(m.name@))
    } else if !semver_valid(version->Some_0) {
        Some(ErrorView::InvalidModuleVersion(version->Some_0))
    } else if c.track_error is Some {
        Some(ErrorView::TrackMismatch(c.track_error->Some_0@))
    } else if m.examples is Some && first_invalid_module_example(example_variables, m.examples->Some_0@) is Some {
        Some(ErrorView::InvalidExampleVariable(first_invalid_module_example(example_variables, m.examples->Some_0@)->Some_0))
    } else if check_failed(version_check("Module"@, version->Some_0, Some(track), latest)) {
        Some(
            ErrorView::ModuleVersionExists(
                version->Some_0,
                check_error_text(version_check("Module"@, version->Some_0, Some(track), latest)),
            ),
        )
    } else if stack_exists {
        Some(ErrorView::NameTakenByStack(m.name@))
    } else {
        None
    }
}

fn reason_with_name(name: &String, reason: &String) -> (r: String)
    ensures
        r@ == naming_reason(name@, reason@),
{
    let mut out: Vec<char> = Vec::new();
    append_str(&mut out, "Module '");
    append_str(&mut out, name.as_str());
    append_str(&mut out, "': ");
    append_str(&mut out, reason.as_str());
    from_chars(out.as_slice())
}

/// Publishing a module once its package was read: the checks of `module_publish_problem` in
/// their order, then the record of `publish_record` (as a module), whose variables are those
/// that users set. `tf_variables` are the module's own variables (without its providers'),
/// `provider_variables` its providers', `latest` the newest version of the track, and
/// `stack_exists` whether a stack has the module's name.
pub fn prepare_module_publish(
    manifest: &ModuleManifest,
    version: &Option<String>,
    track: &str,
    provider_count: usize,
    checks: &PackageChecks,
    tf_variables: Vec<TfVariable>,
    provider_variables: Vec<TfVariable>,
    tf_outputs: Vec<TfOutput>,
    tf_required_providers: Vec<TfRequiredProvider>,
    tf_lock_providers: Vec<TfLockProvider>,
    latest: Option<&str>,
    stack_exists: bool,
    cpu: &Option<String>,
    memory: &Option<String>,
    timestamp: &str,
) -> (r: Result<ModuleResp, ModuleError>)
    requires
        match manifest.examples {
            Some(exs) => forall|i: int| 0 <= i < exs@.len() ==> (#[trigger] exs@[i].variables) is Object,
            None => true,
        },
    ensures
        match module_publish_problem(
            *manifest,
            provider_count as int,
            *checks,
            tf_required_providers@.len() as int,
            opt_string(*version),
            track@,
            user_variables(tf_variables@) + provider_variables@,
            opt_text(latest),
            stack_exists,
        ) {
            Some(e) => r matches Err(x) && x@ == e,
            None => r is Ok && {
                let m = r->Ok_0;
                let v = version->Some_0@;
                &&& m.module@ == manifest.name@
                &&& m.module_name@ == manifest.module_name@
                &&& m.module_type@ == "module"@
                &&& m.version@ == v
                &&& m.track@ == track@
                &&& m.timestamp@ == timestamp@
                &&& m.description@ == manifest.description@
                &&& m.reference@ == manifest.reference@
                &&& m.s3_key@ == manifest.name@ + "/"@ + manifest.name@ + "-"@ + v + ".zip"@
                &&& m.tf_variables@ == user_variables(tf_variables@)
                &&& m.tf_extra_environment_variables@.map_values(|s: String| s@) == environment_variable_names(tf_variables@)
                &&& m.tf_outputs == tf_outputs
                &&& m.tf_required_providers == tf_required_providers
                &&& m.tf_lock_providers == tf_lock_providers
                &&& m.cpu@ == match cpu {
                    Some(c) => c@,
                    None => "1024"@,
                }
                &&& m.memory@ == match memory {
                    Some(x) => x@,
                    None => "2048"@,
                }
                &&& !m.deprecated
                &&& m.deprecated_message is None
            },
        },
{
    let name = &manifest.name;
    if provider_count == 0 {
        return Err(ModuleError::NoProvidersDefined(name.clone()));
    }
    match &checks.lockfile_error {
        Some(e) => {
            return Err(ModuleError::TerraformNoLockfile(e.clone()));
        },
        None => {},
    }
    match &checks.schema_error {
        Some(e) => {
            return Err(ModuleError::InvalidModuleSchema(e.clone()));
        },
        None => {},
    }
    if tf_required_providers.len() == 0 {
        return Err(ModuleError::NoRequiredProvidersDefined(name.clone()));
    }
    match &checks.variable_naming_error {
        Some(e) => {
            return Err(ModuleError::InvalidVariableNaming(reason_with_name(name, e)));
        },
        None => {},
    }
    match &checks.output_naming_error {
        Some(e) => {
            return Err(ModuleError::InvalidOutputNaming(reason_with_name(name, e)));
        },
        None => {},
    }
    let v = match version {
        None => {
            return Err(ModuleError::ModuleVersionMissing(name.clone()));
        },
        Some(v) => v,
    };
    match prerelease(v.as_str()) {
        None => {
            return Err(ModuleError::InvalidModuleVersion(v.clone()));
        },
        Some(_) => {},
    }
    match &checks.track_error {
        Some(e) => {
            return Err(ModuleError::TrackMismatch(e.clone()));
        },
        None => {},
    }
    let (users, env) = split_owned(tf_variables);
    let ghost user_view = users@;
    let n = users.len();
    let mut all = users;
    let mut pv = provider_variables;
    all.append(&mut pv);
    match validate_module_examples(&all, &manifest.examples) {
        Err(e) => {
            return Err(e);
        },
        Ok(()) => {},
    }
    all.truncate(n);
    assert(all@ =~= user_view);
    match check_version_against_latest("Module", v.as_str(), Some(track), latest) {
        Err(e) => {
            return Err(ModuleError::ModuleVersionExists(v.clone(), e.message()));
        },
        Ok(_) => {},
    }
    match check_name_free(name.as_str(), false, stack_exists) {
        Err(e) => {
            return Err(e);
        },
        Ok(()) => {},
    }
    Ok(
        make_record(
            name,
            &manifest.module_name,
            false,
            v,
            track,
            all,
            env,
            tf_outputs,
            tf_required_providers,
            tf_lock_providers,
            cpu,
            memory,
            timestamp,
            manifest.description.as_str(),
            manifest.reference.as_str(),
        ),
    )
}

/// A provider version to publish: its name, version, when it was published, the variables
/// that users set, the names of those that the environment sets, and where its package is
/// stored (`<name>/<name>-<version>.zip`).
pub struct ProviderRecord {
    pub name: String,
    pub version: String,
    pub timestamp: String,
    pub tf_variables: Vec<TfVariable>,
    pub tf_extra_environment_variables: Vec<String>,
    pub s3_key: String,
}

/// Why a provider version cannot be published, checked in this order: no version; a version
/// that is not a semantic version; one with a pre-release part or build metadata; one that may
/// not follow the newest version of the provider.
pub open spec fn provider_publish_problem(name: Seq<char>, version: Option<Seq<char>>, latest: Option<Seq<char>>) -> Option<ErrorView> {
    match version {
        None => Some(ErrorView::ModuleVersionMissing(name)),
        Some(v) => if !semver_valid(v) {
            Some(ErrorView::InvalidModuleVersion(v))
        } else if semver_pre(v).len() != 0 || semver_build(v).len() != 0 {
            Some(ErrorView::InvalidStableVersion(v))
        } else if check_failed(version_check("Provider"@, v, None, latest)) {
            Some(ErrorView::ModuleVersionExists(v, check_error_text(version_check("Provider"@, v, None, latest))))
        } else {
            None
        },
    }
}

/// Publishing a provider once its package was read: the checks of `provider_publish_problem`,
/// then its record (see `ProviderRecord`); `latest` is the provider's newest version.
pub fn prepare_provider_publish(
    name: &String,
    version: &Option<String>,
    tf_variables: Vec<TfVariable>,
    latest: Option<&str>,
    timestamp: &str,
) -> (r: Result<ProviderRecord, ModuleError>)
    ensures
        match provider_publish_problem(name@, opt_string(*version), opt_text(latest)) {
            Some(e) => r matches Err(x) && x@ == e,
            None => r is Ok && {
                let p = r->Ok_0;
                let v = version->Some_0@;
                &&& p.name@ == name@
                &&& p.version@ == v
                &&& p.timestamp@ == timestamp@
                &&& p.tf_variables@ == user_variables(tf_variables@)
                &&& p.tf_extra_environment_variables@.map_values(|s: String| s@) == environment_variable_names(tf_variables@)
                &&& p.s3_key@ == name@ + "/"@ + name@ + "-"@ + v + ".zip"@
            },
        },
{
    let v = match version {
        None => {
            return Err(ModuleError::ModuleVersionMissing(name.clone()));
        },
        Some(v) => v,
    };
    match check_stable_version(v.as_str()) {
        Err(VersionCheckError::InvalidVersion(_)) => {
            return Err(ModuleError::InvalidModuleVersion(v.clone()));
        },
        Err(_) => {
            return Err(ModuleError::InvalidStableVersion(v.clone()));
        },
        Ok(()) => {},
    }
    match check_version_against_latest("Provider", v.as_str(), None, latest) {
        Err(e) => {
            return Err(ModuleError::ModuleVersionExists(v.clone(), e.message()));
        },
        Ok(_) => {},
    }
    let (users, env) = split_owned(tf_variables);
    Ok(
        ProviderRecord {
            name: name.clone(),
            version: v.clone(),
            timestamp: String::from_str(timestamp),
            tf_variables: users,
            tf_extra_environment_variables: env,
            s3_key: package_s3_key(name.as_str(), v.as_str()),
        },
    )
}

} // verus!
