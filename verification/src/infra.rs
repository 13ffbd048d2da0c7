//! The decisions around deploying a claim: defaults, the deployment's identity, whether a claim
//! deploys a module or a stack, the dependencies it declares, and the deprecation rule.
use vstd::prelude::*;
use crate::value::Value;
use crate::manifest::{DependencyRef, DeploymentManifest};
use crate::names::{is_deployment_name, validate_name};
use crate::stdwrap::{lowercase_of, to_lowercase_string};
use crate::text::{append_range, append_str, find_first, first_occ, from_chars, to_chars};

verus! {

/// The CPU units a job gets when its module sets none (one vCPU).
pub fn get_default_cpu() -> (r: String)
    ensures
        r@ == "1024"@,
{
    String::from_str("1024")
}

/// The memory (MB) a job gets when its module sets none.
pub fn get_default_memory() -> (r: String)
    ensures
        r@ == "2048"@,
{
    String::from_str("2048")
}

/// The environment variable that holds the region, for the cloud provider named by the
/// `PROVIDER` setting (`aws` where it is not set).
pub open spec fn region_env_var_of(provider: Option<Seq<char>>) -> Seq<char> {
    let p = match provider {
        Some(p) => p,
        None => "aws"@,
    };
    if p == "aws"@ {
        "AWS_REGION"@
    } else if p == "azure"@ {
        "AZURE_REGION"@
    } else {
        "REGION"@
    }
}

pub fn get_region_env_var(provider: Option<&str>) -> (r: &'static str)
    ensures
        r@ == region_env_var_of(match provider {
            Some(p) => Some(p@),
            None => None,
        }),
{
    let p = match provider {
        Some(p) => String::from_str(p),
        None => String::from_str("aws"),
    };
    if p == String::from_str("aws") {
        "AWS_REGION"
    } else if p == String::from_str("azure") {
        "AZURE_REGION"
    } else {
        "REGION"
    }
}

/// The namespace a Python deployment runs in: `python/<name>` unless the name already has a
/// launcher part (holds `/`).
pub open spec fn namespace_of(arg: Seq<char>) -> Seq<char> {
    if arg.contains('/') {
        arg
    } else {
        "python/"@ + arg
    }
}

pub fn get_namespace(namespace_arg: &str) -> (r: String)
    ensures
        r@ == namespace_of(namespace_arg@),
{
    let cs = to_chars(namespace_arg);
    let mut i: usize = 0;
    while i < cs.len()
        invariant
            cs@ == namespace_arg@,
            i <= cs@.len(),
            forall|j: int| 0 <= j < i ==> cs@[j] != '/',
        decreases cs.len() - i,
    {
        if cs[i] == '/' {
            return String::from_str(namespace_arg);
        }
        i = i + 1;
    }
    let mut out: Vec<char> = Vec::new();
    append_str(&mut out, "python/");
    append_str(&mut out, namespace_arg);
    from_chars(out.as_slice())
}

/// Why a claim cannot be deployed.
#[derive(Debug)]
pub enum ClaimError {
    /// The claim's `apiVersion` is not `infraweave.io/v1`.
    UnsupportedApiVersion(String),
    /// The namespace of the environment is not a valid deployment name.
    InvalidDeploymentName(String),
    /// Both `moduleVersion` and `stackVersion` are set.
    BothVersionsSet,
    /// Neither `moduleVersion` nor `stackVersion` is set.
    NoVersionSet,
    /// The module or stack version is deprecated and the deployment is new: the message.
    Deprecated(String),
    /// The claimed version of the module (`false`) or stack (`true`) does not exist.
    VersionNotFound(bool, String),
}

/// The namespace of an environment `<launcher>/<namespace>`: all after the first `/`, nothing
/// where there is none.
pub open spec fn namespace_part(environment: Seq<char>) -> Seq<char> {
    match first_occ(environment, "/"@, 0) {
        Some(i) => environment.subrange(i + 1, environment.len() as int),
        None => Seq::empty(),
    }
}

/// The identity of a deployment: (region, environment, deployment id `<module>/<name>`,
/// module = the claim's kind in lowercase, name), where the environment's namespace is a valid
/// deployment name.
pub open spec fn deployment_details_of(environment: Seq<char>, m: DeploymentManifest) -> Option<(Seq<char>, Seq<char>, Seq<char>, Seq<char>, Seq<char>)> {
    if is_deployment_name(namespace_part(environment)) {
        Some((
            m.spec.region@,
            environment,
            lowercase_of(m.kind@) + "/"@ + m.metadata.name@,
            lowercase_of(m.kind@),
            m.metadata.name@,
        ))
    } else {
        None
    }
}

pub fn get_deployment_details(environment: &str, deployment_manifest: &DeploymentManifest) -> (r: Result<(String, String, String, String, String), ClaimError>)
    ensures
        match deployment_details_of(environment@, *deployment_manifest) {
            Some(d) => r is Ok && r->Ok_0.0@ == d.0 && r->Ok_0.1@ == d.1 && r->Ok_0.2@ == d.2 && r->Ok_0.3@ == d.3 && r->Ok_0.4@ == d.4,
            None => r is Err && (r->Err_0 matches ClaimError::InvalidDeploymentName(n) && n@ == namespace_part(environment@)),
        },
{
    proof {
        reveal_strlit("/");
        assert("/"@.len() == 1);
    }
    let module = to_lowercase_string(deployment_manifest.kind.as_str());
    let mut id: Vec<char> = Vec::new();
    append_str(&mut id, module.as_str());
    append_str(&mut id, "/");
    append_str(&mut id, deployment_manifest.metadata.name.as_str());
    let deployment_id = from_chars(id.as_slice());
    let env = to_chars(environment);
    let n = env.len();
    let mut ns: Vec<char> = Vec::new();
    match find_first(&env, "/", 0) {
        Some(i) => {
            append_range(&mut ns, env.as_slice(), i + 1, n);
        },
        None => {},
    }
    let namespace = from_chars(ns.as_slice());
    assert(namespace@ =~= namespace_part(environment@));
    if !validate_name(namespace.as_str()) {
        return Err(ClaimError::InvalidDeploymentName(namespace));
    }
    Ok((
        deployment_manifest.spec.region.clone(),
        String::from_str(environment),
        deployment_id,
        module,
        deployment_manifest.metadata.name.clone(),
    ))
}

/// A claim is for infraweave's API.
pub fn check_api_version(api_version: &str) -> (r: Result<(), ClaimError>)
    ensures
        match r {
            Ok(()) => api_version@ == "infraweave.io/v1"@,
            Err(e) => api_version@ != "infraweave.io/v1"@ && (e matches ClaimError::UnsupportedApiVersion(v) && v@ == api_version@),
        },
{
    if String::from_str(api_version) != String::from_str("infraweave.io/v1") {
        return Err(ClaimError::UnsupportedApiVersion(String::from_str(api_version)));
    }
    Ok(())
}

/// Whether a claim deploys a stack (`stackVersion` set) or a module (`moduleVersion` set), and
/// its version; setting both or neither is an error.
pub fn claim_version(module_version: &Option<String>, stack_version: &Option<String>) -> (r: Result<(bool, String), ClaimError>)
    ensures
        match (*module_version, *stack_version) {
            (Some(m), None) => r is Ok && !r->Ok_0.0 && r->Ok_0.1@ == m@,
            (None, Some(s)) => r is Ok && r->Ok_0.0 && r->Ok_0.1@ == s@,
            (Some(_), Some(_)) => r is Err && r->Err_0 is BothVersionsSet,
            (None, None) => r is Err && r->Err_0 is NoVersionSet,
        },
{
    match (module_version, stack_version) {
        (Some(m), None) => Ok((false, m.clone())),
        (None, Some(s)) => Ok((true, s.clone())),
        (Some(_), Some(_)) => Err(ClaimError::BothVersionsSet),
        (None, None) => Err(ClaimError::NoVersionSet),
    }
}

/// A dependency of a deployment, as the job receives it.
#[derive(Debug)]
pub struct Dependency {
    pub project_id: String,
    pub region: String,
    pub deployment_id: String,
    pub environment: String,
}

/// The dependencies of a claim: each in the claim's project, region and environment, with the
/// deployment id `<deployment id>/<environment>` of the claimed dependency in lowercase.
/// `r` holds the dependencies that the claim declares, in the claim's project, region and
/// environment (see `claim_dependencies`).
pub open spec fn dependencies_of(
    r: Seq<Dependency>,
    dependencies: Option<Vec<DependencyRef>>,
    project_id: Seq<char>,
    region: Seq<char>,
    environment: Seq<char>,
) -> bool {
    match dependencies {
        None => r.len() == 0,
        Some(ds) => r.len() == ds@.len() && forall|i: int| 0 <= i < r.len() ==> {
            &&& (#[trigger] r[i]).project_id@ == project_id
            &&& r[i].region@ == region
            &&& r[i].environment@ == environment
            &&& r[i].deployment_id@ == lowercase_of(ds@[i].deployment_id@) + "/"@ + lowercase_of(ds@[i].environment@)
        },
    }
}

pub fn claim_dependencies(
    dependencies: &Option<Vec<DependencyRef>>,
    project_id: &str,
    region: &str,
    environment: &str,
) -> (r: Vec<Dependency>)
    ensures
        dependencies_of(r@, *dependencies, project_id@, region@, environment@),
{
    let mut r: Vec<Dependency> = Vec::new();
    match dependencies {
        None => {},
        Some(ds) => {
            let mut i: usize = 0;
            while i < ds.len()
                invariant
                    i <= ds@.len(),
                    r@.len() == i,
                    forall|q: int| 0 <= q < i ==> {
                        &&& (#[trigger] r@[q]).project_id@ == project_id@
                        &&& r@[q].region@ == region@
                        &&& r@[q].environment@ == environment@
                        &&& r@[q].deployment_id@ == lowercase_of(ds@[q].deployment_id@) + "/"@ + lowercase_of(ds@[q].environment@)
                    },
                decreases ds.len() - i,
            {
                let a = to_lowercase_string(ds[i].deployment_id.as_str());
                let b = to_lowercase_string(ds[i].environment.as_str());
                let mut id: Vec<char> = Vec::new();
                append_str(&mut id, a.as_str());
                append_str(&mut id, "/");
                append_str(&mut id, b.as_str());
                r.push(Dependency {
                    project_id: String::from_str(project_id),
                    region: String::from_str(region),
                    deployment_id: from_chars(id.as_slice()),
                    environment: String::from_str(environment),
                });
                i = i + 1;
            }
        },
    }
    r
}

/// `Module` or `Stack`.
pub open spec fn kind_word(is_stack: bool) -> Seq<char> {
    if is_stack { "Stack"@ } else { "Module"@ }
}

/// The message for a deprecated version that a new deployment asks for.
pub open spec fn deprecation_message(is_stack: bool, module: Seq<char>, version: Seq<char>, reason: Option<Seq<char>>) -> Seq<char> {
    kind_word(is_stack) + " "@ + module + " version "@ + version + " has been deprecated and cannot be used for new deployments."@
        + match reason {
            Some(m) => "\nReason: "@ + m,
            None => Seq::empty(),
        } + "\nPlease use a different version."@
}

/// A deprecated module or stack version may keep serving existing deployments but not new ones.
pub fn check_deprecation(
    deprecated: bool,
    deprecated_message: &Option<String>,
    is_stack: bool,
    module: &str,
    module_version: &str,
    deployment_exists: bool,
) -> (r: Result<(), ClaimError>)
    ensures
        match r {
            Ok(()) => !deprecated || deployment_exists,
            Err(e) => deprecated && !deployment_exists && (e matches ClaimError::Deprecated(msg) && msg@ == deprecation_message(
                is_stack,
                module@,
                module_version@,
                match *deprecated_message {
                    Some(m) => Some(m@),
                    None => None,
                },
            )),
        },
{
    if !deprecated || deployment_exists {
        return Ok(());
    }
    let mut out: Vec<char> = Vec::new();
    if is_stack {
        append_str(&mut out, "Stack");
    } else {
        append_str(&mut out, "Module");
    }
    append_str(&mut out, " ");
    append_str(&mut out, module);
    append_str(&mut out, " version ");
    append_str(&mut out, module_version);
    append_str(&mut out, " has been deprecated and cannot be used for new deployments.");
    match deprecated_message {
        Some(m) => {
            append_str(&mut out, "\nReason: ");
            append_str(&mut out, m.as_str());
        },
        None => {},
    }
    append_str(&mut out, "\nPlease use a different version.");
    Err(ClaimError::Deprecated(from_chars(out.as_slice())))
}

/// A deployment status that means a job for it is under way.
pub open spec fn busy_status(status: Seq<char>) -> bool {
    status == "requested"@ || status == "initiated"@
}

/// Whether a deployment status means a job for it is under way (`requested` or `initiated`).
pub fn is_busy_status(status: &str) -> (r: bool)
    ensures
        r == busy_status(status@),
{
    let cs = to_chars(status);
    let a = to_chars("requested");
    let b = to_chars("initiated");
    chars_equal(&cs, &a) || chars_equal(&cs, &b)
}

fn chars_equal(a: &Vec<char>, b: &Vec<char>) -> (r: bool)
    ensures
        r == (a@ == b@),
{
    if a.len() != b.len() {
        return false;
    }
    let mut i: usize = 0;
    while i < a.len()
        invariant
            a@.len() == b@.len(),
            i <= a@.len(),
            forall|j: int| 0 <= j < i ==> a@[j] == b@[j],
        decreases a.len() - i,
    {
        if a[i] != b[i] {
            return false;
        }
        i = i + 1;
    }
    assert(a@ =~= b@);
    true
}

/// Whether a deployment is in progress: the answer, the job to wait for (empty where none), and
/// the deployment's status (empty where no deployment was found).
pub struct DeploymentProgress {
    pub in_progress: bool,
    pub job_id: String,
    pub status: String,
    pub found: bool,
}

/// The next step of finding out whether a deployment is in progress.
pub enum ProgressStep {
    /// The answer is known.
    Done(DeploymentProgress),
    /// The deployment is busy by its status, and whether its job still runs must be asked.
    AskJob,
}

/// The answer once the deployment was looked up (`None` where none was found or the lookup
/// failed; else its status and job id): no deployment is not in progress; a busy status means in
/// progress, unless `job_check` asks to confirm that the job still runs; any other status is not
/// in progress.
pub open spec fn progress_after_lookup_spec(
    deployment: Option<(Seq<char>, Seq<char>)>,
    job_check: bool,
) -> Option<(bool, Seq<char>, Seq<char>, bool)> {
    match deployment {
        None => Some((false, Seq::empty(), Seq::empty(), false)),
        Some((status, job)) => if busy_status(status) {
            if job_check {
                None
            } else {
                Some((true, job, status, true))
            }
        } else {
            Some((false, Seq::empty(), status, true))
        },
    }
}

pub open spec fn progress_view(p: DeploymentProgress) -> (bool, Seq<char>, Seq<char>, bool) {
    (p.in_progress, p.job_id@, p.status@, p.found)
}

pub open spec fn step_view(s: ProgressStep) -> Option<(bool, Seq<char>, Seq<char>, bool)> {
    match s {
        ProgressStep::Done(p) => Some(progress_view(p)),
        ProgressStep::AskJob => None,
    }
}

/// The first step of finding out whether a deployment is in progress (see
/// `progress_after_lookup_spec`); `deployment` is its status and job id where it was found.
pub fn progress_after_lookup(deployment: Option<(&str, &str)>, job_check: bool) -> (r: ProgressStep)
    ensures
        step_view(r) == progress_after_lookup_spec(
            match deployment {
                Some((s, j)) => Some((s@, j@)),
                None => None,
            },
            job_check,
        ),
{
    match deployment {
        None => ProgressStep::Done(
            DeploymentProgress { in_progress: false, job_id: String::new(), status: String::new(), found: false },
        ),
        Some((status, job)) => {
            if is_busy_status(status) {
                if job_check {
                    ProgressStep::AskJob
                } else {
                    ProgressStep::Done(
                        DeploymentProgress {
                            in_progress: true,
                            job_id: job.to_string(),
                            status: status.to_string(),
                            found: true,
                        },
                    )
                }
            } else {
                ProgressStep::Done(
                    DeploymentProgress { in_progress: false, job_id: String::new(), status: status.to_string(), found: true },
                )
            }
        },
    }
}

/// The answer for a busy deployment once its job was asked about (`Some(running)` where the job
/// was found, `None` where it was not or the question failed): a job that is known to have
/// stopped frees the deployment; otherwise it stays in progress.
pub open spec fn progress_after_job_spec(
    status: Seq<char>,
    job: Seq<char>,
    job_running: Option<bool>,
) -> (bool, Seq<char>, Seq<char>, bool) {
    match job_running {
        Some(false) => (false, Seq::empty(), status, true),
        _ => (true, job, status, true),
    }
}

/// The second step of finding out whether a deployment is in progress (see
/// `progress_after_job_spec`).
pub fn progress_after_job(status: &str, job: &str, job_running: Option<bool>) -> (r: DeploymentProgress)
    ensures
        progress_view(r) == progress_after_job_spec(status@, job@, job_running),
{
    match job_running {
        Some(false) => DeploymentProgress { in_progress: false, job_id: String::new(), status: status.to_string(), found: true },
        _ => DeploymentProgress { in_progress: true, job_id: job.to_string(), status: status.to_string(), found: true },
    }
}

/// Why a version may not be deprecated, once it was looked up (`None` where it was not found;
/// else whether it is deprecated already): it must exist and not be deprecated yet.
pub open spec fn deprecation_precheck_spec(
    is_stack: bool,
    name: Seq<char>,
    version: Seq<char>,
    track: Seq<char>,
    existing_deprecated: Option<bool>,
) -> Option<Seq<char>> {
    match existing_deprecated {
        None => Some(kind_word(is_stack) + " "@ + name + " version "@ + version + " not found in track "@ + track),
        Some(true) => Some(kind_word(is_stack) + " "@ + name + " version "@ + version + " is already deprecated"@),
        Some(false) => None,
    }
}

pub open spec fn err_text(r: Result<(), String>) -> Option<Seq<char>> {
    match r {
        Ok(()) => None,
        Err(m) => Some(m@),
    }
}

fn kind_text(is_stack: bool, out: &mut Vec<char>)
    ensures
        final(out)@ == old(out)@ + kind_word(is_stack),
{
    if is_stack {
        append_str(out, "Stack");
    } else {
        append_str(out, "Module");
    }
}

/// The first step of deprecating a version of a module (`is_stack` false) or a stack (see
/// `deprecation_precheck_spec`).
pub fn deprecation_precheck(
    is_stack: bool,
    name: &str,
    version: &str,
    track: &str,
    existing_deprecated: Option<bool>,
) -> (r: Result<(), String>)
    ensures
        err_text(r) == deprecation_precheck_spec(is_stack, name@, version@, track@, existing_deprecated),
{
    let mut out: Vec<char> = Vec::new();
    match existing_deprecated {
        Some(false) => Ok(()),
        Some(true) => {
            kind_text(is_stack, &mut out);
            append_str(&mut out, " ");
            append_str(&mut out, name);
            append_str(&mut out, " version ");
            append_str(&mut out, version);
            append_str(&mut out, " is already deprecated");
            let m = from_chars(out.as_slice());
            assert(m@ =~= kind_word(is_stack) + " "@ + name@ + " version "@ + version@ + " is already deprecated"@);
            Err(m)
        },
        None => {
            kind_text(is_stack, &mut out);
            append_str(&mut out, " ");
            append_str(&mut out, name);
            append_str(&mut out, " version ");
            append_str(&mut out, version);
            append_str(&mut out, " not found in track ");
            append_str(&mut out, track);
            let m = from_chars(out.as_slice());
            assert(m@ =~= kind_word(is_stack) + " "@ + name@ + " version "@ + version@ + " not found in track "@ + track@);
            Err(m)
        },
    }
}

/// Why a version may not be deprecated, once the newest version of its track was looked up:
/// the newest version may not be deprecated.
pub open spec fn deprecation_latest_check_spec(
    is_stack: bool,
    name: Seq<char>,
    version: Seq<char>,
    track: Seq<char>,
    latest_version: Option<Seq<char>>,
) -> Option<Seq<char>> {
    match latest_version {
        Some(l) => if l == version {
            Some(
                "Cannot deprecate the latest version ("@ + version + ") of "@ + (if is_stack {
                    "stack"@
                } else {
                    "module"@
                }) + " "@ + name + " in track "@ + track
                    + ".\nPlease publish a new version that resolves the issue before deprecating this version."@,
            )
        } else {
            None
        },
        None => None,
    }
}

/// The second step of deprecating a version (see `deprecation_latest_check_spec`).
pub fn deprecation_latest_check(
    is_stack: bool,
    name: &str,
    version: &str,
    track: &str,
    latest_version: Option<&str>,
) -> (r: Result<(), String>)
    ensures
        err_text(r) == deprecation_latest_check_spec(
            is_stack,
            name@,
            version@,
            track@,
            match latest_version {
                Some(l) => Some(l@),
                None => None,
            },
        ),
{
    match latest_version {
        None => Ok(()),
        Some(l) => {
            if !chars_equal(&to_chars(l), &to_chars(version)) {
                return Ok(());
            }
            let mut out: Vec<char> = Vec::new();
            append_str(&mut out, "Cannot deprecate the latest version (");
            append_str(&mut out, version);
            append_str(&mut out, ") of ");
            if is_stack {
                append_str(&mut out, "stack");
            } else {
                append_str(&mut out, "module");
            }
            append_str(&mut out, " ");
            append_str(&mut out, name);
            append_str(&mut out, " in track ");
            append_str(&mut out, track);
            append_str(
                &mut out,
                ".\nPlease publish a new version that resolves the issue before deprecating this version.",
            );
            let m = from_chars(out.as_slice());
            assert(m@ =~= deprecation_latest_check_spec(is_stack, name@, version@, track@, Some(l@))->Some_0);
            Err(m)
        },
    }
}

/// A claim checked before its module or stack version is looked up: the deployment's identity,
/// whether it deploys a stack, which version, the reference, and its dependencies.
pub struct ClaimPlan {
    pub region: String,
    pub environment: String,
    pub deployment_id: String,
    pub module: String,
    pub name: String,
    pub is_stack: bool,
    pub module_version: String,
    pub reference: String,
    pub dependencies: Vec<Dependency>,
}

/// The first step of deploying a claim, before its version is looked up, in this order: the API
/// version must be `infraweave.io/v1`; the environment's namespace must be a deployment name;
/// exactly one of `moduleVersion` and `stackVersion` must be set. The reference is the claim's,
/// else `reference_fallback`.
pub fn plan_claim(
    api_version: &str,
    claim: &DeploymentManifest,
    environment: &str,
    project_id: &str,
    reference_fallback: &str,
) -> (r: Result<ClaimPlan, ClaimError>)
    ensures
        api_version@ != "infraweave.io/v1"@ ==> (r matches Err(ClaimError::UnsupportedApiVersion(v)) && v@ == api_version@),
        api_version@ == "infraweave.io/v1"@ && deployment_details_of(environment@, *claim) is None ==> (r matches Err(
            ClaimError::InvalidDeploymentName(n),
        ) && n@ == namespace_part(environment@)),
        api_version@ == "infraweave.io/v1"@ && deployment_details_of(environment@, *claim) is Some ==> match (
            claim.spec.module_version,
            claim.spec.stack_version,
        ) {
            (Some(_), Some(_)) => r matches Err(ClaimError::BothVersionsSet),
            (None, None) => r matches Err(ClaimError::NoVersionSet),
            (mv, sv) => r is Ok && {
                let p = r->Ok_0;
                let d = deployment_details_of(environment@, *claim)->Some_0;
                &&& p.region@ == d.0 && p.environment@ == d.1 && p.deployment_id@ == d.2 && p.module@ == d.3 && p.name@ == d.4
                &&& p.is_stack == sv is Some
                &&& p.module_version@ == match (mv, sv) {
                    (Some(m), _) => m@,
                    (_, Some(v)) => v@,
                    _ => Seq::empty(),
                }
                &&& p.reference@ == match claim.spec.reference {
                    Some(x) => x@,
                    None => reference_fallback@,
                }
                &&& dependencies_of(p.dependencies@, claim.spec.dependencies, project_id@, d.0, d.1)
            },
        },
{
    match check_api_version(api_version) {
        Err(e) => {
            return Err(e);
        },
        Ok(()) => {},
    }
    let (region, env, deployment_id, module, name) = match get_deployment_details(environment, claim) {
        Err(e) => {
            return Err(e);
        },
        Ok(d) => d,
    };
    let (is_stack, module_version) = match claim_version(&claim.spec.module_version, &claim.spec.stack_version) {
        Err(e) => {
            return Err(e);
        },
        Ok(v) => v,
    };
    let dependencies = claim_dependencies(&claim.spec.dependencies, project_id, region.as_str(), env.as_str());
    let reference = match &claim.spec.reference {
        Some(x) => x.clone(),
        None => String::from_str(reference_fallback),
    };
    Ok(ClaimPlan { region, environment: env, deployment_id, module, name, is_stack, module_version, reference, dependencies })
}

/// What the deployment job of a claim is asked to do.
pub struct ApiInfraPayload {
    pub command: String,
    pub flags: Vec<String>,
    pub module: String,
    pub module_type: String,
    pub module_version: String,
    pub module_track: String,
    pub name: String,
    pub environment: String,
    pub deployment_id: String,
    pub project_id: String,
    pub region: String,
    pub next_drift_check_epoch: i64,
    pub dependencies: Vec<Dependency>,
    pub cpu: String,
    pub memory: String,
    pub reference: String,
    /// The claim's variables as the job reads them.
    pub variables: Value,
    /// The user on whose behalf the job runs.
    pub initiated_by: String,
}

/// The version that was looked up for a claim, as far as the claim's job reads it.
pub struct FoundVersion {
    pub deprecated: bool,
    pub deprecated_message: Option<String>,
    pub cpu: String,
    pub memory: String,
}

fn copy_dependencies(ds: &Vec<Dependency>) -> (r: Vec<Dependency>)
    ensures
        r@.len() == ds@.len(),
        forall|i: int| 0 <= i < r@.len() ==> {
            &&& (#[trigger] r@[i]).project_id@ == ds@[i].project_id@
            &&& r@[i].region@ == ds@[i].region@
            &&& r@[i].environment@ == ds@[i].environment@
            &&& r@[i].deployment_id@ == ds@[i].deployment_id@
        },
{
    let mut r: Vec<Dependency> = Vec::new();
    let mut i: usize = 0;
    while i < ds.len()
        invariant
            i <= ds@.len(),
            r@.len() == i,
            forall|q: int| 0 <= q < i ==> {
                &&& (#[trigger] r@[q]).project_id@ == ds@[q].project_id@
                &&& r@[q].region@ == ds@[q].region@
                &&& r@[q].environment@ == ds@[q].environment@
                &&& r@[q].deployment_id@ == ds@[q].deployment_id@
            },
        decreases ds.len() - i,
    {
        let d = &ds[i];
        r.push(Dependency {
            project_id: d.project_id.clone(),
            region: d.region.clone(),
            deployment_id: d.deployment_id.clone(),
            environment: d.environment.clone(),
        });
        i = i + 1;
    }
    r
}

/// The second step of deploying a claim, once its version was looked up (`None` where it does
/// not exist) in the version's track: the version must exist, and a deprecated one may serve
/// only a deployment that exists already (see `check_deprecation`). The payload then names the
/// command and flags, the module (the claim's kind in lowercase, from the plan), `stack` or `module`, the version and its track,
/// the deployment, the project, the region, the dependencies, the job's CPU and memory from the
/// version, the reference, and a next drift check at -1, so that the deployment is not checked
/// for drift while its job runs, then the claim's variables (as the caller converted them) and
/// the user on whose behalf it runs.
pub fn claim_payload(
    plan: &ClaimPlan,
    command: &str,
    flags: &Vec<String>,
    track: &str,
    project_id: &str,
    found: &Option<FoundVersion>,
    deployment_exists: bool,
    variables: Value,
    initiated_by: &str,
) -> (r: Result<ApiInfraPayload, ClaimError>)
    ensures
        match *found {
            None => r matches Err(ClaimError::VersionNotFound(s, v)) && s == plan.is_stack && v@ == plan.module_version@,
            Some(f) => if f.deprecated && !deployment_exists {
                r matches Err(ClaimError::Deprecated(msg)) && msg@ == deprecation_message(
                    plan.is_stack,
                    plan.module@,
                    plan.module_version@,
                    match f.deprecated_message {
                        Some(m) => Some(m@),
                        None => None,
                    },
                )
            } else {
                r is Ok && {
                    let p = r->Ok_0;
                    &&& p.command@ == command@
                    &&& crate::blocks::strs_model(p.flags@) == crate::blocks::strs_model(flags@)
                    &&& p.module@ == plan.module@
                    &&& p.module_type@ == (if plan.is_stack { "stack"@ } else { "module"@ })
                    &&& p.module_version@ == plan.module_version@
                    &&& p.module_track@ == track@
                    &&& p.name@ == plan.name@
                    &&& p.environment@ == plan.environment@
                    &&& p.deployment_id@ == plan.deployment_id@
                    &&& p.project_id@ == project_id@
                    &&& p.region@ == plan.region@
                    &&& p.next_drift_check_epoch == -1
                    &&& p.dependencies@.len() == plan.dependencies@.len()
                    &&& forall|i: int| 0 <= i < p.dependencies@.len() ==> {
                        &&& (#[trigger] p.dependencies@[i]).project_id@ == plan.dependencies@[i].project_id@
                        &&& p.dependencies@[i].region@ == plan.dependencies@[i].region@
                        &&& p.dependencies@[i].environment@ == plan.dependencies@[i].environment@
                        &&& p.dependencies@[i].deployment_id@ == plan.dependencies@[i].deployment_id@
                    }
                    &&& p.cpu@ == f.cpu@
                    &&& p.memory@ == f.memory@
                    &&& p.reference@ == plan.reference@
                    &&& p.variables == variables
                    &&& p.initiated_by@ == initiated_by@
                }
            },
        },
{
    let f = match found {
        None => {
            return Err(ClaimError::VersionNotFound(plan.is_stack, plan.module_version.clone()));
        },
        Some(f) => f,
    };
    match check_deprecation(
        f.deprecated,
        &f.deprecated_message,
        plan.is_stack,
        plan.module.as_str(),
        plan.module_version.as_str(),
        deployment_exists,
    ) {
        Err(e) => {
            return Err(e);
        },
        Ok(()) => {},
    }
    let fl = crate::blocks::copy_strings(flags);
    Ok(
        ApiInfraPayload {
            command: String::from_str(command),
            flags: fl,
            module: plan.module.clone(),
            module_type: if plan.is_stack {
                String::from_str("stack")
            } else {
                String::from_str("module")
            },
            module_version: plan.module_version.clone(),
            module_track: String::from_str(track),
            name: plan.name.clone(),
            environment: plan.environment.clone(),
            deployment_id: plan.deployment_id.clone(),
            project_id: String::from_str(project_id),
            region: plan.region.clone(),
            next_drift_check_epoch: -1,
            dependencies: copy_dependencies(&plan.dependencies),
            cpu: f.cpu.clone(),
            memory: f.memory.clone(),
            reference: plan.reference.clone(),
            variables,
            initiated_by: String::from_str(initiated_by),
        },
    )
}

/// What a drift check of a deployment runs: remediating applies the deployment's code again,
/// on behalf of the user who asked; otherwise a plan with `-refresh-only` only reports the
/// drift, on behalf of whoever started the deployment.
pub struct DriftJob {
    pub command: String,
    pub flags: Vec<String>,
    pub initiated_by: String,
}

/// The drift check's job (see `DriftJob`).
pub fn drift_job(remediate: bool, deployment_initiated_by: &str, current_user: &str) -> (r: DriftJob)
    ensures
        r.command@ == (if remediate { "apply"@ } else { "plan"@ }),
        crate::blocks::strs_model(r.flags@) == (if remediate { Seq::<Seq<char>>::empty() } else { seq!["-refresh-only"@] }),
        r.initiated_by@ == (if remediate { current_user@ } else { deployment_initiated_by@ }),
{
    if remediate {
        let flags: Vec<String> = Vec::new();
        assert(crate::blocks::strs_model(flags@) =~= Seq::<Seq<char>>::empty());
        DriftJob { command: String::from_str("apply"), flags, initiated_by: String::from_str(current_user) }
    } else {
        let mut flags: Vec<String> = Vec::new();
        flags.push(String::from_str("-refresh-only"));
        assert(crate::blocks::strs_model(flags@) =~= seq!["-refresh-only"@]);
        DriftJob { command: String::from_str("plan"), flags, initiated_by: String::from_str(deployment_initiated_by) }
    }
}

/// A deployment as it is recorded, as far as a drift check of it reads it.
pub struct DeployedState {
    pub module: String,
    pub module_version: String,
    pub module_type: String,
    pub module_track: String,
    pub environment: String,
    pub project_id: String,
    pub region: String,
    pub dependencies: Vec<Dependency>,
    pub initiated_by: String,
    pub cpu: String,
    pub memory: String,
    pub reference: String,
    pub variables: Value,
}

/// The job of a drift check of the deployment `deployment_id`, where it is recorded
/// (`deployment`): the command, flags and initiator of `drift_job`; the deployment's module in
/// lowercase, its version, type and track; no name; its environment, project, region,
/// dependencies, CPU, memory, reference and variables; and a next drift check at -1, so that
/// the deployment is not checked again while the job runs. A deployment that is not recorded
/// is an error.
pub fn drift_payload(
    deployment: &Option<DeployedState>,
    deployment_id: &str,
    remediate: bool,
    current_user: &str,
) -> (r: Result<ApiInfraPayload, String>)
    ensures
        match *deployment {
            None => r matches Err(m) && m@ == "Failed to describe deployment, deployment was not found"@,
            Some(d) => r is Ok && {
                let p = r->Ok_0;
                &&& p.command@ == (if remediate { "apply"@ } else { "plan"@ })
                &&& crate::blocks::strs_model(p.flags@) == (if remediate {
                    Seq::<Seq<char>>::empty()
                } else {
                    seq!["-refresh-only"@]
                })
                &&& p.initiated_by@ == (if remediate { current_user@ } else { d.initiated_by@ })
                &&& p.module@ == lowercase_of(d.module@)
                &&& p.module_type@ == d.module_type@
                &&& p.module_version@ == d.module_version@
                &&& p.module_track@ == d.module_track@
                &&& p.name@ == Seq::<char>::empty()
                &&& p.environment@ == d.environment@
                &&& p.deployment_id@ == deployment_id@
                &&& p.project_id@ == d.project_id@
                &&& p.region@ == d.region@
                &&& p.next_drift_check_epoch == -1
                &&& p.dependencies@.len() == d.dependencies@.len()
                &&& forall|i: int| 0 <= i < p.dependencies@.len() ==> {
                    &&& (#[trigger] p.dependencies@[i]).project_id@ == d.dependencies@[i].project_id@
                    &&& p.dependencies@[i].region@ == d.dependencies@[i].region@
                    &&& p.dependencies@[i].environment@ == d.dependencies@[i].environment@
                    &&& p.dependencies@[i].deployment_id@ == d.dependencies@[i].deployment_id@
                }
                &&& p.cpu@ == d.cpu@
                &&& p.memory@ == d.memory@
                &&& p.reference@ == d.reference@
                &&& crate::value::same_value(p.variables, d.variables)
            },
        },
{
    let d = match deployment {
        None => {
            return Err(String::from_str("Failed to describe deployment, deployment was not found"));
        },
        Some(d) => d,
    };
    let job = drift_job(remediate, d.initiated_by.as_str(), current_user);
    Ok(
        ApiInfraPayload {
            command: job.command,
            flags: job.flags,
            module: to_lowercase_string(d.module.as_str()),
            module_type: d.module_type.clone(),
            module_version: d.module_version.clone(),
            module_track: d.module_track.clone(),
            name: String::new(),
            environment: d.environment.clone(),
            deployment_id: String::from_str(deployment_id),
            project_id: d.project_id.clone(),
            region: d.region.clone(),
            next_drift_check_epoch: -1,
            dependencies: copy_dependencies(&d.dependencies),
            cpu: d.cpu.clone(),
            memory: d.memory.clone(),
            reference: d.reference.clone(),
            variables: crate::value::copy_value(&d.variables),
            initiated_by: job.initiated_by,
        },
    )
}

} // verus!
