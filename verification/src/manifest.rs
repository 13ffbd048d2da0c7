//! The manifests that the library reads: deployment claims, module versions and their
//! Terraform variables and outputs, and the errors that validating them gives.
use vstd::prelude::*;
use crate::value::Value;

verus! {

#[derive(Debug)]
pub struct DeploymentMetadata {
    pub name: String,
    pub namespace: Option<String>,
}

#[derive(Debug)]
pub struct DeploymentSpec {
    pub module_version: Option<String>,
    pub stack_version: Option<String>,
    pub region: String,
    pub reference: Option<String>,
    /// The claim's variables: an object whose keys are camelCase names.
    pub variables: Value,
    /// Other deployments this claim depends on.
    pub dependencies: Option<Vec<DependencyRef>>,
}

/// A deployment that a claim depends on, as the claim names it.
#[derive(Debug)]
pub struct DependencyRef {
    pub deployment_id: String,
    pub environment: String,
}

/// A deployment claim: which module or stack to deploy, where, and with which variables.
#[derive(Debug)]
pub struct DeploymentManifest {
    pub api_version: String,
    pub kind: String,
    pub metadata: DeploymentMetadata,
    pub spec: DeploymentSpec,
}

/// An example deployment of a module or stack, shown to its users.
#[derive(Debug)]
pub struct ModuleExample {
    pub name: String,
    pub variables: Value,
}

/// The `module.yaml` of a module, as far as validation reads it.
#[derive(Debug)]
pub struct ModuleManifest {
    pub kind: String,
    /// `metadata.name`
    pub name: String,
    /// `spec.moduleName`
    pub module_name: String,
    pub version: Option<String>,
    /// `spec.description`
    pub description: String,
    /// `spec.reference`: where the module's code is kept.
    pub reference: String,
    pub examples: Option<Vec<ModuleExample>>,
}

/// The `stack.yaml` of a stack, as far as validation reads it.
#[derive(Debug)]
pub struct StackManifest {
    pub kind: String,
    /// `metadata.name`
    pub name: String,
    /// `spec.stackName`
    pub stack_name: String,
    pub version: Option<String>,
    pub examples: Option<Vec<ModuleExample>>,
}

/// A Terraform input variable of a module.
#[derive(Debug)]
pub struct TfVariable {
    pub name: String,
    pub description: String,
    pub default: Option<Value>,
    pub sensitive: bool,
    pub nullable: bool,
    pub var_type: String,
}

/// A Terraform output of a module.
#[derive(Debug)]
pub struct TfOutput {
    pub name: String,
    pub description: String,
}

/// A provider that a module's Terraform code requires: its local name, source and version
/// constraint.
#[derive(Debug)]
pub struct TfRequiredProvider {
    pub name: String,
    pub source: String,
    pub version: String,
}

/// A provider version pinned in a module's lock file.
#[derive(Debug)]
pub struct TfLockProvider {
    pub source: String,
    pub version: String,
}

/// A published module (or stack) version, as far as the library reads it.
#[derive(Debug)]
pub struct ModuleResp {
    pub module: String,
    pub module_name: String,
    /// `module` or `stack`.
    pub module_type: String,
    pub version: String,
    pub track: String,
    /// When the version was published.
    pub timestamp: String,
    pub description: String,
    /// Where the code is kept.
    pub reference: String,
    /// Where the module's package is stored: `<module>/<module>-<version>.zip`.
    pub s3_key: String,
    pub tf_variables: Vec<TfVariable>,
    pub tf_outputs: Vec<TfOutput>,
    pub tf_required_providers: Vec<TfRequiredProvider>,
    pub tf_lock_providers: Vec<TfLockProvider>,
    /// Variables that the environment sets (`INFRAWEAVE_...`).
    pub tf_extra_environment_variables: Vec<String>,
    /// The CPU units and the memory (MB) of the version's jobs.
    pub cpu: String,
    pub memory: String,
    pub deprecated: bool,
    pub deprecated_message: Option<String>,
}

/// The errors of validating modules, stacks and the claims inside stacks.
#[derive(Debug)]
pub enum ModuleError {
    /// The metadata name is not lowercase letters and digits (starting with a letter).
    InvalidName(String),
    /// The module or stack name does not start with an uppercase character.
    NameNotCapitalized(String),
    /// The module or stack name holds a character that is not alphanumeric.
    NameNotAlphanumeric(String),
    /// The metadata name is not the lowercase of the module or stack name: (name, module or stack name).
    NameMismatch(String, String),
    /// The manifest kind is not the expected one: (expected, found).
    InvalidKind(String, String),
    /// Two claims of a stack share this name.
    DuplicateClaimNames(String),
    /// A claim variable is not written in camelCase: (claim, variable).
    ClaimVariableNotCamelCase(String, String),
    /// A claim variable is not a variable of the claim's module: (claim, variable).
    ClaimVariableNotFound(String, String),
    /// A claim inside a stack does not set `moduleVersion`.
    ModuleVersionNotSet(String),
    /// A claim name inside a stack is not lowercase letters and digits.
    InvalidClaimName(String),
    /// A claim inside a stack has a region other than `N/A`: (claim, region).
    ClaimRegionNotNa(String, String),
    /// A claim inside a stack sets a namespace.
    StackModuleNamespaceIsSet(String),
    /// A claim refers to itself: (kind, claim, field).
    SelfReferencingClaim(String, String, String),
    /// A reference names no claim of that kind with that output or variable:
    /// (referring claim, kind, referred claim, field).
    StackClaimReferenceNotFound(String, String, String, String),
    /// The claims depend on each other in a cycle.
    CircularDependency(Vec<String>),
    /// A reference could not be resolved: (reference, key looked up).
    UnresolvedReference(String, String),
    /// An example's variables do not fit the variables of the module or stack: the reason.
    InvalidExampleVariable(String),
    /// A variable's default refers to an output or variable that no claim of the stack has:
    /// (referring claim, variable, the default as JSON, field, referred claim).
    OutputKeyNotFound(String, String, String, String, String),
    /// Two locked versions of one provider could not both be read as semantic versions:
    /// (the version met later, the version kept so far).
    InvalidProviderVersion(String, String),
    /// A locked provider's source is required by no module, so it has no local name.
    MissingProviderName(String),
    /// A stack cannot be published under this name: a module has it.
    NameTakenByModule(String),
    /// A module cannot be published under this name: a stack has it.
    NameTakenByStack(String),
    /// The module names no provider that the catalog has.
    NoProvidersDefined(String),
    /// The module's Terraform code requires no provider.
    NoRequiredProvidersDefined(String),
    /// The manifest gives no version, and none was given to publish it under.
    ModuleVersionMissing(String),
    /// The package has no readable Terraform lock file: the reason.
    TerraformNoLockfile(String),
    /// The manifest does not fit the module schema: the reason.
    InvalidModuleSchema(String),
    /// A variable name does not survive the snake_case/camelCase round trip: the reason.
    InvalidVariableNaming(String),
    /// An output name does not survive the snake_case/camelCase round trip: the reason.
    InvalidOutputNaming(String),
    /// The version to publish is not a semantic version.
    InvalidModuleVersion(String),
    /// The version does not belong in the track: the reason.
    TrackMismatch(String),
    /// The version may not be published over the newest of its track: (version, reason).
    ModuleVersionExists(String, String),
    /// Terraform code could not be read: whose code (`module` or `provider`).
    UnreadableTerraform(String),
    /// Terraform code was read but a root module cannot be built from it: the reason.
    InvalidTerraformCode(String),
    /// A provider version has a pre-release part or build metadata.
    InvalidStableVersion(String),
}

/// The spec view of a `ModuleError`.
pub enum ErrorView {
    InvalidName(Seq<char>),
    NameNotCapitalized(Seq<char>),
    NameNotAlphanumeric(Seq<char>),
    NameMismatch(Seq<char>, Seq<char>),
    InvalidKind(Seq<char>, Seq<char>),
    DuplicateClaimNames(Seq<char>),
    ClaimVariableNotCamelCase(Seq<char>, Seq<char>),
    ClaimVariableNotFound(Seq<char>, Seq<char>),
    ModuleVersionNotSet(Seq<char>),
    InvalidClaimName(Seq<char>),
    ClaimRegionNotNa(Seq<char>, Seq<char>),
    StackModuleNamespaceIsSet(Seq<char>),
    SelfReferencingClaim(Seq<char>, Seq<char>, Seq<char>),
    StackClaimReferenceNotFound(Seq<char>, Seq<char>, Seq<char>, Seq<char>),
    CircularDependency(Seq<Seq<char>>),
    UnresolvedReference(Seq<char>, Seq<char>),
    InvalidExampleVariable(Seq<char>),
    OutputKeyNotFound(Seq<char>, Seq<char>, Seq<char>, Seq<char>, Seq<char>),
    InvalidProviderVersion(Seq<char>, Seq<char>),
    MissingProviderName(Seq<char>),
    NameTakenByModule(Seq<char>),
    NameTakenByStack(Seq<char>),
    NoProvidersDefined(Seq<char>),
    NoRequiredProvidersDefined(Seq<char>),
    ModuleVersionMissing(Seq<char>),
    TerraformNoLockfile(Seq<char>),
    InvalidModuleSchema(Seq<char>),
    InvalidVariableNaming(Seq<char>),
    InvalidOutputNaming(Seq<char>),
    InvalidModuleVersion(Seq<char>),
    TrackMismatch(Seq<char>),
    ModuleVersionExists(Seq<char>, Seq<char>),
    UnreadableTerraform(Seq<char>),
    InvalidTerraformCode(Seq<char>),
    InvalidStableVersion(Seq<char>),
}

pub open spec fn opt_str_view(o: Option<String>) -> Option<Seq<char>> {
    match o {
        Some(s) => Some(s@),
        None => None,
    }
}

impl View for ModuleError {
    type V = ErrorView;

    open spec fn view(&self) -> ErrorView {
        match self {
            ModuleError::InvalidName(a) => ErrorView::InvalidName(a@),
            ModuleError::NameNotCapitalized(a) => ErrorView::NameNotCapitalized(a@),
            ModuleError::NameNotAlphanumeric(a) => ErrorView::NameNotAlphanumeric(a@),
            ModuleError::NameMismatch(a, b) => ErrorView::NameMismatch(a@, b@),
            ModuleError::InvalidKind(a, b) => ErrorView::InvalidKind(a@, b@),
            ModuleError::DuplicateClaimNames(a) => ErrorView::DuplicateClaimNames(a@),
            ModuleError::ClaimVariableNotCamelCase(a, b) => ErrorView::ClaimVariableNotCamelCase(a@, b@),
            ModuleError::ClaimVariableNotFound(a, b) => ErrorView::ClaimVariableNotFound(a@, b@),
            ModuleError::ModuleVersionNotSet(a) => ErrorView::ModuleVersionNotSet(a@),
            ModuleError::InvalidClaimName(a) => ErrorView::InvalidClaimName(a@),
            ModuleError::ClaimRegionNotNa(a, b) => ErrorView::ClaimRegionNotNa(a@, b@),
            ModuleError::StackModuleNamespaceIsSet(a) => ErrorView::StackModuleNamespaceIsSet(a@),
            ModuleError::SelfReferencingClaim(a, b, c) => ErrorView::SelfReferencingClaim(a@, b@, c@),
            ModuleError::StackClaimReferenceNotFound(a, b, c, d) => ErrorView::StackClaimReferenceNotFound(
                a@,
                b@,
                c@,
                d@,
            ),
            ModuleError::CircularDependency(c) => ErrorView::CircularDependency(
                c@.map_values(|s: String| s@),
            ),
            ModuleError::UnresolvedReference(a, b) => ErrorView::UnresolvedReference(a@, b@),
            ModuleError::InvalidExampleVariable(p) => ErrorView::InvalidExampleVariable(p@),
            ModuleError::OutputKeyNotFound(a, b, c, d, e) => ErrorView::OutputKeyNotFound(a@, b@, c@, d@, e@),
            ModuleError::InvalidProviderVersion(a, b) => ErrorView::InvalidProviderVersion(a@, b@),
            ModuleError::MissingProviderName(a) => ErrorView::MissingProviderName(a@),
            ModuleError::NameTakenByModule(a) => ErrorView::NameTakenByModule(a@),
            ModuleError::NameTakenByStack(a) => ErrorView::NameTakenByStack(a@),
            ModuleError::NoProvidersDefined(a) => ErrorView::NoProvidersDefined(a@),
            ModuleError::NoRequiredProvidersDefined(a) => ErrorView::NoRequiredProvidersDefined(a@),
            ModuleError::ModuleVersionMissing(a) => ErrorView::ModuleVersionMissing(a@),
            ModuleError::TerraformNoLockfile(a) => ErrorView::TerraformNoLockfile(a@),
            ModuleError::InvalidModuleSchema(a) => ErrorView::InvalidModuleSchema(a@),
            ModuleError::InvalidVariableNaming(a) => ErrorView::InvalidVariableNaming(a@),
            ModuleError::InvalidOutputNaming(a) => ErrorView::InvalidOutputNaming(a@),
            ModuleError::InvalidModuleVersion(a) => ErrorView::InvalidModuleVersion(a@),
            ModuleError::TrackMismatch(a) => ErrorView::TrackMismatch(a@),
            ModuleError::ModuleVersionExists(a, b) => ErrorView::ModuleVersionExists(a@, b@),
            ModuleError::UnreadableTerraform(a) => ErrorView::UnreadableTerraform(a@),
            ModuleError::InvalidTerraformCode(a) => ErrorView::InvalidTerraformCode(a@),
            ModuleError::InvalidStableVersion(a) => ErrorView::InvalidStableVersion(a@),
        }
    }
}

} // verus!
