use infraweave::blocks::{copy_block, HclBlock};
use infraweave::changes::FileChange;
use infraweave::grouping::{GroupKey, GroupedFile};
use infraweave::infra::{claim_payload, drift_job, drift_payload, plan_claim, ClaimError, ClaimPlan, DeployedState, FoundVersion};
use infraweave::manifest::{
    DependencyRef, DeploymentManifest, DeploymentMetadata, DeploymentSpec, ModuleError, ModuleManifest, TfOutput,
    TfRequiredProvider, TfVariable,
};
use infraweave::binding::{deployment_of, merge_variables, set_variables};
use infraweave::changes::changes_to_process;
use infraweave::provider_mgmt::{build_from_blocks, provider_configurations_of};
use infraweave::hcl_code::{format_terraform, parse_terraform};
use infraweave::module_code::module_root_code;
use infraweave::publishing::ProviderConfig;
use infraweave::module_publish::{prepare_module_publish, prepare_provider_publish, publish_record, version_to_publish, PackageChecks};
use infraweave::names::check_name_free;
use infraweave::push::{group_step, rename_output, GroupStep};
use infraweave::refs::find_refs;
use infraweave::resolver::{HclExpr, TfInputResolver};
use infraweave::stack_publish::{is_imported, stack_provider_block, stack_root_code, without_local_variables};
use infraweave::value::Value;
use infraweave::versions::{check_stable_version, VersionCheckError};

fn claim(kind: &str, name: &str, module_version: Option<&str>, stack_version: Option<&str>) -> DeploymentManifest {
    DeploymentManifest {
        api_version: "infraweave.io/v1".to_string(),
        kind: kind.to_string(),
        metadata: DeploymentMetadata { name: name.to_string(), namespace: None },
        spec: DeploymentSpec {
            module_version: module_version.map(|s| s.to_string()),
            stack_version: stack_version.map(|s| s.to_string()),
            region: "us-west-2".to_string(),
            reference: None,
            variables: Value::Object(vec![]),
            dependencies: Some(vec![DependencyRef {
                deployment_id: "S3Bucket/Logs".to_string(),
                environment: "Dev/Team".to_string(),
            }]),
        },
    }
}

fn plan_of(r: Result<ClaimPlan, ClaimError>) -> ClaimPlan {
    match r {
        Ok(p) => p,
        Err(e) => panic!("expected a plan, got {:?}", e),
    }
}

#[test]
fn plan_claim_checks_the_api_version_first() {
    let c = claim("S3Bucket", "bucket1", Some("0.1.0"), Some("0.2.0"));
    match plan_claim("infraweave.io/v2", &c, "github/bad_Namespace", "123", "https://ref") {
        Err(ClaimError::UnsupportedApiVersion(v)) => assert_eq!(v, "infraweave.io/v2"),
        _ => panic!("expected an unsupported api version"),
    }
}

#[test]
fn plan_claim_checks_the_namespace_before_the_versions() {
    let c = claim("S3Bucket", "bucket1", Some("0.1.0"), Some("0.2.0"));
    match plan_claim("infraweave.io/v1", &c, "github/bad_Namespace", "123", "https://ref") {
        Err(ClaimError::InvalidDeploymentName(n)) => assert_eq!(n, "bad_Namespace"),
        _ => panic!("expected an invalid deployment name"),
    }
}

#[test]
fn plan_claim_rejects_both_or_neither_version() {
    let both = claim("S3Bucket", "bucket1", Some("0.1.0"), Some("0.2.0"));
    assert!(matches!(plan_claim("infraweave.io/v1", &both, "github/team", "123", "r"), Err(ClaimError::BothVersionsSet)));
    let neither = claim("S3Bucket", "bucket1", None, None);
    assert!(matches!(plan_claim("infraweave.io/v1", &neither, "github/team", "123", "r"), Err(ClaimError::NoVersionSet)));
}

#[test]
fn plan_claim_names_the_deployment_and_falls_back_to_the_given_reference() {
    let c = claim("S3Bucket", "bucket1", Some("0.1.0"), None);
    let p = plan_of(plan_claim("infraweave.io/v1", &c, "github/team", "123", "https://github.com/org/repo"));
    assert_eq!(p.region, "us-west-2");
    assert_eq!(p.environment, "github/team");
    assert_eq!(p.deployment_id, "s3bucket/bucket1");
    assert_eq!(p.module, "s3bucket");
    assert_eq!(p.name, "bucket1");
    assert!(!p.is_stack);
    assert_eq!(p.module_version, "0.1.0");
    assert_eq!(p.reference, "https://github.com/org/repo");
    assert_eq!(p.dependencies.len(), 1);
    assert_eq!(p.dependencies[0].deployment_id, "s3bucket/logs/dev/team");
    assert_eq!(p.dependencies[0].project_id, "123");
    assert_eq!(p.dependencies[0].region, "us-west-2");
    assert_eq!(p.dependencies[0].environment, "github/team");
}

#[test]
fn plan_claim_of_a_stack_uses_the_stack_version() {
    let mut c = claim("BucketStack", "stack1", None, Some("1.0.0"));
    c.spec.reference = Some("https://own".to_string());
    let p = plan_of(plan_claim("infraweave.io/v1", &c, "github/team", "123", "https://fallback"));
    assert!(p.is_stack);
    assert_eq!(p.module_version, "1.0.0");
    assert_eq!(p.reference, "https://own");
}

fn found(deprecated: bool) -> Option<FoundVersion> {
    Some(FoundVersion {
        deprecated,
        deprecated_message: None,
        cpu: "1024".to_string(),
        memory: "2048".to_string(),
    })
}

#[test]
fn claim_payload_needs_the_version_to_exist() {
    let c = claim("S3Bucket", "bucket1", Some("0.1.0"), None);
    let p = plan_of(plan_claim("infraweave.io/v1", &c, "github/team", "123", "r"));
    match claim_payload(&p, "apply", &vec![], "stable", "123", &None, false, Value::Null, "alice") {
        Err(ClaimError::VersionNotFound(is_stack, v)) => {
            assert!(!is_stack);
            assert_eq!(v, "0.1.0");
        },
        _ => panic!("expected a missing version"),
    }
}

#[test]
fn claim_payload_refuses_a_deprecated_version_only_for_a_new_deployment() {
    let c = claim("S3Bucket", "bucket1", Some("0.1.0"), None);
    let p = plan_of(plan_claim("infraweave.io/v1", &c, "github/team", "123", "r"));
    assert!(matches!(
        claim_payload(&p, "apply", &vec![], "stable", "123", &found(true), false, Value::Null, "alice"),
        Err(ClaimError::Deprecated(_))
    ));
    assert!(claim_payload(&p, "apply", &vec![], "stable", "123", &found(true), true, Value::Null, "alice").is_ok());
}

#[test]
fn claim_payload_fills_in_the_job() {
    let c = claim("S3Bucket", "bucket1", Some("0.1.0"), None);
    let p = plan_of(plan_claim("infraweave.io/v1", &c, "github/team", "123", "r"));
    let flags = vec!["-destroy".to_string()];
    match claim_payload(&p, "plan", &flags, "stable", "123", &found(false), false, Value::Object(vec![("bucket_name".to_string(), Value::Text("b".to_string()))]), "alice") {
        Ok(x) => {
            assert_eq!(x.command, "plan");
            assert_eq!(x.flags, vec!["-destroy".to_string()]);
            assert_eq!(x.module, "s3bucket");
            assert_eq!(x.module_type, "module");
            assert_eq!(x.module_version, "0.1.0");
            assert_eq!(x.module_track, "stable");
            assert_eq!(x.deployment_id, "s3bucket/bucket1");
            assert_eq!(x.next_drift_check_epoch, -1);
            assert_eq!(x.cpu, "1024");
            assert_eq!(x.memory, "2048");
            assert_eq!(x.reference, "r");
            assert_eq!(x.dependencies.len(), 1);
            assert_eq!(x.initiated_by, "alice");
            assert!(matches!(&x.variables, Value::Object(v) if v.len() == 1 && v[0].0 == "bucket_name"));
        },
        Err(e) => panic!("expected a payload, got {:?}", e),
    }
}

fn group(active: bool, deleted: bool, renamed: bool) -> GroupedFile {
    let f = || Some((FileChange { path: "claims/a.yaml".to_string(), content: String::new() }, String::new()));
    GroupedFile {
        key: GroupKey {
            api_version: "infraweave.io/v1".to_string(),
            kind: "S3Bucket".to_string(),
            name: "a".to_string(),
            namespace: "default".to_string(),
            region: "us-west-2".to_string(),
        },
        active: if active { f() } else { None },
        deleted: if deleted { f() } else { None },
        renamed: if renamed { f() } else { None },
    }
}

#[test]
fn group_step_applies_on_the_default_branch_and_plans_elsewhere() {
    match group_step(&group(true, false, false), true, "refs/heads/main", "main") {
        GroupStep::RunJob(c, f, d) => {
            assert_eq!(c, "apply");
            assert!(f.is_empty());
            assert!(!d);
        },
        _ => panic!("expected a job"),
    }
    match group_step(&group(true, false, false), true, "refs/heads/feature", "main") {
        GroupStep::RunJob(c, f, d) => {
            assert_eq!(c, "plan");
            assert!(f.is_empty());
            assert!(!d);
        },
        _ => panic!("expected a job"),
    }
}

#[test]
fn group_step_destroys_a_removed_claim() {
    match group_step(&group(false, true, false), true, "refs/heads/main", "main") {
        GroupStep::RunJob(c, f, d) => {
            assert_eq!(c, "destroy");
            assert!(f.is_empty());
            assert!(d);
        },
        _ => panic!("expected a job"),
    }
    match group_step(&group(false, true, false), true, "refs/heads/feature", "main") {
        GroupStep::RunJob(c, f, d) => {
            assert_eq!(c, "plan");
            assert_eq!(f, vec!["-destroy".to_string()]);
            assert!(d);
        },
        _ => panic!("expected a job"),
    }
}

#[test]
fn group_step_needs_a_project_and_only_updates_a_renamed_claim() {
    assert!(matches!(group_step(&group(true, false, false), false, "refs/heads/main", "main"), GroupStep::MissingProject));
    assert!(matches!(group_step(&group(false, false, true), true, "refs/heads/main", "main"), GroupStep::UpdateReference));
    assert!(matches!(group_step(&group(false, false, false), false, "refs/heads/main", "main"), GroupStep::Nothing));
}

#[test]
fn rename_output_reports_the_reference_update() {
    let o = rename_output("claims/b.yaml", "s3bucket/b");
    assert_eq!(o.title, "Renamed file");
    assert_eq!(
        o.summary,
        "File `claims/b.yaml` has been renamed; the reference has been updated for `s3bucket/b`."
    );
    assert_eq!(o.text.as_deref(), Some("No run has been triggered, only the reference has been updated."));
}

#[test]
fn check_stable_version_refuses_prerelease_and_build_parts() {
    assert!(check_stable_version("1.2.3").is_ok());
    assert!(matches!(check_stable_version("1.2.3-beta.1"), Err(VersionCheckError::NotStable(v)) if v == "1.2.3-beta.1"));
    assert!(matches!(check_stable_version("1.2.3+build.5"), Err(VersionCheckError::NotStable(_))));
    assert!(matches!(check_stable_version("not-a-version"), Err(VersionCheckError::InvalidVersion(_))));
}

fn block(identifier: &str, labels: &[&str], attributes: Vec<(String, HclExpr)>) -> HclBlock {
    HclBlock {
        identifier: identifier.to_string(),
        labels: labels.iter().map(|s| s.to_string()).collect(),
        attributes,
        blocks: vec![],
    }
}

#[test]
fn stack_provider_block_leaves_out_variables_that_locals_set() {
    let resolver = TfInputResolver::new(vec![], vec![]);
    let locals = Some(vec![("instanceName".to_string(), Value::Text("x".to_string()))]);
    let set = block("variable", &["instance_name"], vec![]);
    assert!(stack_provider_block(&set, &locals, &resolver).is_none());
    let other = block("variable", &["region"], vec![]);
    let kept = stack_provider_block(&other, &locals, &resolver).unwrap();
    assert_eq!(kept.labels, vec!["region".to_string()]);
    assert!(stack_provider_block(&set, &None, &resolver).is_some());
}

#[test]
fn stack_provider_block_puts_locals_into_the_locals_block() {
    let resolver = TfInputResolver::new(vec![], vec![]);
    let locals = Some(vec![("instanceName".to_string(), Value::Text("from-stack".to_string()))]);
    let b = block(
        "locals",
        &[],
        vec![
            ("instance_name".to_string(), HclExpr::Str("default".to_string())),
            ("other".to_string(), HclExpr::Bool(true)),
        ],
    );
    let r = stack_provider_block(&b, &locals, &resolver).unwrap();
    assert_eq!(r.identifier, "locals");
    assert_eq!(r.attributes.len(), 2);
    assert_eq!(r.attributes[0].0, "instance_name");
    assert!(matches!(&r.attributes[0].1, HclExpr::Str(s) if s == "from-stack"));
    assert!(matches!(&r.attributes[1].1, HclExpr::Bool(true)));
}

#[test]
fn is_imported_looks_at_the_labels_of_the_stack_code() {
    let modules = vec![block("module", &["bucket1"], vec![])];
    assert!(is_imported(&"bucket1".to_string(), &modules));
    assert!(!is_imported(&"bucket2".to_string(), &modules));
    assert!(!is_imported(&"bucket1".to_string(), &vec![]));
}

fn variable(name: &str) -> TfVariable {
    TfVariable {
        name: name.to_string(),
        description: String::new(),
        default: None,
        sensitive: false,
        nullable: true,
        var_type: "string".to_string(),
    }
}

#[test]
fn without_local_variables_drops_the_variables_that_locals_set() {
    let vars = vec![variable("instance_name"), variable("region"), variable("tags")];
    let locals = vec![("instanceName".to_string(), Value::Null), ("tags".to_string(), Value::Null)];
    let kept = without_local_variables(&vars, &locals);
    assert_eq!(kept.len(), 1);
    assert_eq!(kept[0].name, "region");
}

#[test]
fn modules_and_stacks_cannot_share_a_name() {
    assert!(check_name_free("bucket", true, false).is_ok());
    let e = check_name_free("bucket", true, true).unwrap_err();
    assert!(matches!(&e, ModuleError::NameTakenByModule(n) if n == "bucket"));
    assert_eq!(
        e.validation_message(true).unwrap(),
        "A module with the name 'bucket' already exists. Modules and stacks cannot share the same name."
    );
    let e = check_name_free("bucket", false, true).unwrap_err();
    assert_eq!(
        e.validation_message(false).unwrap(),
        "A stack with the name 'bucket' already exists. Modules and stacks cannot share the same name."
    );
}

#[test]
fn validation_messages_name_the_manifest_field() {
    let e = ModuleError::NameNotCapitalized("s3bucket".to_string());
    assert_eq!(e.validation_message(false).unwrap(), "The moduleName s3bucket must start with an uppercase character.");
    assert_eq!(e.validation_message(true).unwrap(), "The stackName s3bucket must start with an uppercase character.");
    let e = ModuleError::InvalidName("S3-bucket".to_string());
    assert_eq!(e.validation_message(false).unwrap(), "Module name S3-bucket must only use lowercase characters and numbers.");
    let e = ModuleError::InvalidKind("Module".to_string(), "Stack".to_string());
    assert_eq!(e.validation_message(false).unwrap(), "The kind field in module.yaml must be 'Module', but found 'Stack'.");
    let e = ModuleError::NameMismatch("bucket".to_string(), "S3Bucket".to_string());
    assert_eq!(
        e.validation_message(false).unwrap(),
        "The name bucket must exactly match lowercase of the moduleName specified under spec S3Bucket."
    );
    assert!(ModuleError::DuplicateClaimNames("a".to_string()).validation_message(true).is_none());
}

#[test]
fn publish_record_checks_providers_then_version() {
    let name = "s3bucket".to_string();
    let module_name = "S3Bucket".to_string();
    let none = publish_record(&name, &module_name, false, &Some("1.0.0".to_string()), "stable", 0, &vec![], vec![], vec![], vec![], &None, &None, "2024-01-01T00:00:00Z", "", "");
    assert!(matches!(none, Err(ModuleError::NoProvidersDefined(n)) if n == "s3bucket"));
    let no_required = publish_record(&name, &module_name, false, &Some("1.0.0".to_string()), "stable", 1, &vec![], vec![], vec![], vec![], &None, &None, "2024-01-01T00:00:00Z", "", "");
    assert!(matches!(no_required, Err(ModuleError::NoRequiredProvidersDefined(_))));
    let no_version = publish_record(&name, &module_name, true, &None, "stable", 0, &vec![], vec![], vec![], vec![], &None, &None, "2024-01-01T00:00:00Z", "", "");
    assert!(matches!(no_version, Err(ModuleError::ModuleVersionMissing(n)) if n == "s3bucket"));
}

#[test]
fn publish_record_splits_the_variables_and_names_the_package() {
    let name = "bucketstack".to_string();
    let vars = vec![variable("bucket_name"), variable("INFRAWEAVE_GIT_SHA")];
    let outputs = vec![TfOutput { name: "bucket_arn".to_string(), description: String::new() }];
    let r = publish_record(&name, &"BucketStack".to_string(), true, &Some("0.2.0".to_string()), "dev", 0, &vars, outputs, vec![], vec![], &Some("512".to_string()), &None, "2024-01-01T00:00:00Z", "A stack of buckets", "https://github.com/org/stacks")
        .unwrap();
    assert_eq!(r.module, "bucketstack");
    assert_eq!(r.module_name, "BucketStack");
    assert_eq!(r.version, "0.2.0");
    assert_eq!(r.track, "dev");
    assert_eq!(r.s3_key, "bucketstack/bucketstack-0.2.0.zip");
    assert_eq!(r.tf_variables.len(), 1);
    assert_eq!(r.tf_variables[0].name, "bucket_name");
    assert_eq!(r.tf_extra_environment_variables, vec!["INFRAWEAVE_GIT_SHA".to_string()]);
    assert_eq!(r.tf_outputs.len(), 1);
    assert_eq!(r.module_type, "stack");
    assert_eq!(r.cpu, "512");
    assert_eq!(r.memory, "2048");
    assert_eq!(r.timestamp, "2024-01-01T00:00:00Z");
    assert_eq!(r.description, "A stack of buckets");
    assert_eq!(r.reference, "https://github.com/org/stacks");
    assert!(!r.deprecated);
}

#[test]
fn a_local_replaces_the_provider_variable_on_both_sides() {
    let resolver = TfInputResolver::new(vec![], vec![]);
    let locals = || vec![("bucketPrefix".to_string(), Value::Text("team".to_string()))];
    let block_of_variable = block("variable", &["bucket_prefix"], vec![]);
    assert!(stack_provider_block(&block_of_variable, &Some(locals()), &resolver).is_none());
    let kept = without_local_variables(&vec![variable("bucket_prefix")], &locals());
    assert!(kept.is_empty());
}

#[test]
fn references_take_unicode_word_characters_as_the_pattern_does() {
    let found = find_refs("prefix-{{ Module::bücket1::bucketArn }}-{{ Stack::a-b::c }}");
    assert_eq!(found.len(), 1);
    assert_eq!(found[0].kind, "Module");
    assert_eq!(found[0].claim, "bücket1");
    assert_eq!(found[0].field, "bucketArn");
    assert_eq!(found[0].start, 7);
}

#[test]
fn parse_terraform_reads_blocks_and_refuses_what_is_not_hcl() {
    let blocks = parse_terraform(
        r#"
variable "bucket_name" {
  type    = string
  default = "logs"
}

output "arn" {
  value = aws_s3_bucket.b.arn
}
"#,
    )
    .unwrap();
    assert_eq!(blocks.len(), 2);
    assert_eq!(blocks[0].identifier, "variable");
    assert_eq!(blocks[0].labels, vec!["bucket_name".to_string()]);
    assert_eq!(blocks[0].attributes[0].0, "type");
    assert!(matches!(&blocks[0].attributes[1].1, HclExpr::Str(s) if s == "logs"));
    assert!(matches!(&blocks[1].attributes[0].1, HclExpr::Traversal(root, attrs) if root == "aws_s3_bucket" && attrs.len() == 2));
    assert!(parse_terraform("variable \"x\" {").is_none());
}

#[test]
fn format_terraform_writes_what_parse_terraform_reads_back() {
    let blocks = parse_terraform(
        r#"
module "bucket" {
  source = "./s3bucket-1.0.0"
  bucket_name = var.bucket_name
  tags = { Team = "core" }
}
"#,
    )
    .unwrap();
    let text = format_terraform(&blocks);
    assert!(text.contains("module \"bucket\""));
    let again = parse_terraform(&text).unwrap();
    assert_eq!(format!("{:?}", again), format!("{:?}", blocks));
}

#[test]
fn module_publish_checks_run_in_order() {
    let manifest = ModuleManifest {
        kind: "Module".to_string(),
        name: "s3bucket".to_string(),
        module_name: "S3Bucket".to_string(),
        version: Some("1.0.0".to_string()),
        description: "Buckets".to_string(),
        reference: "https://github.com/org/modules".to_string(),
        examples: None,
    };
    let passing = || PackageChecks {
        lockfile_error: None,
        schema_error: None,
        variable_naming_error: None,
        output_naming_error: None,
        track_error: None,
    };
    let required = || vec![TfRequiredProvider { name: "aws".to_string(), source: "hashicorp/aws".to_string(), version: ">= 5".to_string() }];
    let run = |providers: usize, checks: PackageChecks, version: Option<&str>, latest: Option<&str>, stack_exists: bool| {
        prepare_module_publish(
            &manifest,
            &version.map(|v| v.to_string()),
            "stable",
            providers,
            &checks,
            vec![variable("bucket_name"), variable("INFRAWEAVE_GIT_SHA")],
            vec![variable("region")],
            vec![],
            required(),
            vec![],
            latest,
            stack_exists,
            &None,
            &None,
            "2024-01-01T00:00:00Z",
        )
    };
    let mut no_lock = passing();
    no_lock.lockfile_error = Some("no lock file".to_string());
    assert!(matches!(run(0, passing(), Some("1.0.0"), None, false), Err(ModuleError::NoProvidersDefined(_))));
    assert!(matches!(run(1, no_lock, Some("1.0.0"), None, false), Err(ModuleError::TerraformNoLockfile(e)) if e == "no lock file"));
    let mut bad_names = passing();
    bad_names.variable_naming_error = Some("bucket__name".to_string());
    assert!(matches!(run(1, bad_names, Some("1.0.0"), None, false), Err(ModuleError::InvalidVariableNaming(e)) if e == "Module 's3bucket': bucket__name"));
    assert!(matches!(run(1, passing(), None, None, false), Err(ModuleError::ModuleVersionMissing(_))));
    assert!(matches!(run(1, passing(), Some("one"), None, false), Err(ModuleError::InvalidModuleVersion(v)) if v == "one"));
    assert!(matches!(run(1, passing(), Some("1.0.0"), Some("1.2.0"), false), Err(ModuleError::ModuleVersionExists(v, _)) if v == "1.0.0"));
    assert!(matches!(run(1, passing(), Some("1.0.0"), None, true), Err(ModuleError::NameTakenByStack(_))));
    let m = run(1, passing(), Some("1.3.0"), Some("1.2.0"), false).unwrap();
    assert_eq!(m.module_type, "module");
    assert_eq!(m.reference, "https://github.com/org/modules");
    assert_eq!(m.cpu, "1024");
    assert_eq!(m.memory, "2048");
    assert_eq!(m.s3_key, "s3bucket/s3bucket-1.3.0.zip");
    assert_eq!(m.tf_variables.len(), 1);
    assert_eq!(m.tf_variables[0].name, "bucket_name");
    assert_eq!(m.tf_extra_environment_variables, vec!["INFRAWEAVE_GIT_SHA".to_string()]);
}

#[test]
fn a_version_argument_is_used_unless_the_manifest_sets_one() {
    assert_eq!(version_to_publish(&None, Some("1.0.0")), Some("1.0.0".to_string()));
    assert_eq!(version_to_publish(&Some("0.9.0".to_string()), None), Some("0.9.0".to_string()));
    assert_eq!(version_to_publish(&None, None), None);
}

#[test]
fn drift_checks_plan_refresh_only_unless_remediating() {
    let check = drift_job(false, "alice", "bob");
    assert_eq!(check.command, "plan");
    assert_eq!(check.flags, vec!["-refresh-only".to_string()]);
    assert_eq!(check.initiated_by, "alice");
    let fix = drift_job(true, "alice", "bob");
    assert_eq!(fix.command, "apply");
    assert!(fix.flags.is_empty());
    assert_eq!(fix.initiated_by, "bob");
}

#[test]
fn a_deployment_takes_exactly_one_of_module_and_stack() {
    assert_eq!(deployment_of("b1", Some("s3bucket"), None), Ok(("s3bucket/b1".to_string(), false)));
    assert_eq!(deployment_of("b1", None, Some("bucketstack")), Ok(("bucketstack/b1".to_string(), true)));
    assert_eq!(deployment_of("b1", None, None), Err("Either module or stack must be provided".to_string()));
    assert_eq!(deployment_of("b1", Some("a"), Some("b")), Err("Only one of module or stack must be provided".to_string()));
}

#[test]
fn setting_variables_merges_key_by_key() {
    let existing = Value::Object(vec![
        ("bucketName".to_string(), Value::Text("a".to_string())),
        ("tags".to_string(), Value::Null),
    ]);
    let new = Value::Object(vec![
        ("tags".to_string(), Value::Bool(true)),
        ("region".to_string(), Value::Text("eu".to_string())),
    ]);
    match merge_variables(existing, new) {
        Value::Object(es) => {
            assert_eq!(es.len(), 3);
            assert_eq!(es[0].0, "bucketName");
            assert_eq!(es[1].0, "tags");
            assert!(matches!(es[1].1, Value::Bool(true)));
            assert_eq!(es[2].0, "region");
        },
        _ => panic!("expected a mapping"),
    }
    assert!(matches!(merge_variables(Value::Null, Value::Text("x".to_string())), Value::Text(_)));
    assert!(matches!(merge_variables(Value::Null, Value::Object(vec![])), Value::Object(v) if v.is_empty()));
}

const PROVIDER_TF: &str = r#"
terraform {
  required_providers {
    aws = {
      source  = "hashicorp/aws"
      version = "~> 5.0"
    }
  }
}

variable "region" {
  type = string
}

provider "aws" {
  region = var.region
}
"#;

const MODULE_TF: &str = r#"
resource "aws_s3_bucket" "b" {
  bucket = var.bucket_name
}

variable "bucket_name" {
  type = string
}

output "bucket_arn" {
  value      = aws_s3_bucket.b.arn
  depends_on = [aws_s3_bucket.b]
}
"#;

#[test]
fn module_root_code_wraps_the_module_with_its_providers() {
    let providers = vec![ProviderConfig { name: "aws-5".to_string(), provider: "aws".to_string(), alias: None }];
    let code = module_root_code(
        &"s3bucket".to_string(),
        &"S3Bucket".to_string(),
        &"1.0.0".to_string(),
        MODULE_TF,
        &vec![PROVIDER_TF.to_string()],
        &providers,
    )
    .unwrap();
    assert_eq!(code.module_call.identifier, "module");
    assert_eq!(code.module_call.labels, vec!["s3bucket".to_string()]);
    assert!(code.providers.iter().any(|b| b.identifier == "output" && b.labels == vec!["bucket_arn".to_string()]));
    assert!(!code.providers.iter().any(|b| b.identifier == "resource"));
    let output = code.providers.iter().find(|b| b.identifier == "output").unwrap();
    assert!(output.attributes.iter().all(|(k, _)| k != "depends_on"));
    assert!(code.providers_text.contains("module.s3bucket.bucket_arn"));
    assert!(code.main_text.contains("module \"s3bucket\""));
    assert!(code.main_text.contains("bucket_name = var.bucket_name"));
}

#[test]
fn module_root_code_reports_unreadable_and_invalid_code() {
    let providers: Vec<ProviderConfig> = vec![];
    let name = "s3bucket".to_string();
    let unreadable = module_root_code(&name, &"S3Bucket".to_string(), &"1.0.0".to_string(), "output {", &vec![], &providers);
    assert!(matches!(unreadable, Err(ModuleError::UnreadableTerraform(w)) if w == "module"));
    let no_value = module_root_code(&name, &"S3Bucket".to_string(), &"1.0.0".to_string(), "output \"x\" {\n}\n", &vec![], &providers);
    assert!(matches!(no_value, Err(ModuleError::InvalidTerraformCode(_))));
}

#[test]
fn stack_root_code_skips_claims_that_the_stack_code_calls_already() {
    let resolver = TfInputResolver::new(vec![], vec![]);
    let stack_tf = "module \"bucket1\" {\n  source = \"./custom\"\n}\n";
    let call = |name: &str| block("module", &[name], vec![("source".to_string(), HclExpr::Str(format!("./{}", name)))]);
    let claim_calls = vec![("bucket1".to_string(), call("bucket1")), ("bucket2".to_string(), call("bucket2"))];
    let locals = Some(vec![("region".to_string(), Value::Text("eu-west-1".to_string()))]);
    let code = stack_root_code(stack_tf, &vec![PROVIDER_TF.to_string()], &locals, &resolver, &vec![], &vec![], &claim_calls)
        .unwrap();
    assert_eq!(code.module_calls.len(), 2);
    assert_eq!(code.module_calls[0].labels, vec!["bucket1".to_string()]);
    assert!(matches!(&code.module_calls[0].attributes[0].1, HclExpr::Str(s) if s == "./custom"));
    assert_eq!(code.module_calls[1].labels, vec!["bucket2".to_string()]);
    assert!(!code.providers.iter().any(|b| b.identifier == "variable" && b.labels == vec!["region".to_string()]));
    assert!(code.main_text.contains("module \"bucket2\""));
    assert!(matches!(
        stack_root_code("module {", &vec![], &None, &resolver, &vec![], &vec![], &vec![]),
        Err(ModuleError::UnreadableTerraform(_))
    ));
}

#[test]
fn provider_publish_needs_a_newer_stable_version() {
    let name = "aws-5".to_string();
    let vars = || vec![variable("region"), variable("INFRAWEAVE_REGION")];
    assert!(matches!(prepare_provider_publish(&name, &None, vars(), None, "t"), Err(ModuleError::ModuleVersionMissing(_))));
    assert!(matches!(
        prepare_provider_publish(&name, &Some("x".to_string()), vars(), None, "t"),
        Err(ModuleError::InvalidModuleVersion(_))
    ));
    assert!(matches!(
        prepare_provider_publish(&name, &Some("1.0.0-beta".to_string()), vars(), None, "t"),
        Err(ModuleError::InvalidStableVersion(v)) if v == "1.0.0-beta"
    ));
    assert!(matches!(
        prepare_provider_publish(&name, &Some("1.0.0".to_string()), vars(), Some("1.1.0"), "t"),
        Err(ModuleError::ModuleVersionExists(v, _)) if v == "1.0.0"
    ));
    let p = prepare_provider_publish(&name, &Some("1.2.0".to_string()), vars(), Some("1.1.0"), "t").unwrap();
    assert_eq!(p.s3_key, "aws-5/aws-5-1.2.0.zip");
    assert_eq!(p.tf_variables.len(), 1);
    assert_eq!(p.tf_extra_environment_variables, vec!["INFRAWEAVE_REGION".to_string()]);
}

#[test]
fn module_root_code_writes_what_it_builds() {
    let providers = vec![ProviderConfig { name: "aws-5".to_string(), provider: "aws".to_string(), alias: None }];
    let code = module_root_code(
        &"s3bucket".to_string(),
        &"S3Bucket".to_string(),
        &"1.0.0".to_string(),
        MODULE_TF,
        &vec![PROVIDER_TF.to_string()],
        &providers,
    )
    .unwrap();
    assert_eq!(code.providers_text, format_terraform(&code.providers));
    assert_eq!(code.main_text, format_terraform(&vec![copy_block(&code.module_call)]));
    assert_eq!(format!("{:?}", code.module_blocks), format!("{:?}", parse_terraform(MODULE_TF).unwrap()));
    assert_eq!(format!("{:?}", code.provider_blocks), format!("{:?}", parse_terraform(PROVIDER_TF).unwrap()));
}

#[test]
fn module_root_code_refuses_a_provider_required_again_without_a_version() {
    let again = "terraform {\n  required_providers {\n    aws = {\n      source = \"hashicorp/aws\"\n    }\n  }\n}\n";
    let r = module_root_code(
        &"s3bucket".to_string(),
        &"S3Bucket".to_string(),
        &"1.0.0".to_string(),
        MODULE_TF,
        &vec![PROVIDER_TF.to_string(), again.to_string()],
        &vec![],
    );
    assert!(matches!(r, Err(ModuleError::InvalidTerraformCode(m)) if m == "a provider is required again without a version"));
}

#[test]
fn stack_root_code_refuses_a_local_that_does_not_resolve() {
    let resolver = TfInputResolver::new(vec![], vec![]);
    let provider = "locals {\n  region = \"x\"\n}\n";
    let locals = Some(vec![("region".to_string(), Value::Text("{{ Module::missing::out }}".to_string()))]);
    let r = stack_root_code("", &vec![provider.to_string()], &locals, &resolver, &vec![], &vec![], &vec![]);
    assert!(matches!(r, Err(ModuleError::InvalidTerraformCode(m)) if m == "a local does not resolve"));
}

#[test]
fn setting_no_variables_is_an_error_that_keeps_them() {
    let mut vars = Value::Object(vec![("a".to_string(), Value::Bool(true))]);
    assert_eq!(set_variables(&mut vars, None), Err("No variables provided".to_string()));
    assert!(matches!(&vars, Value::Object(v) if v.len() == 1));
    assert_eq!(set_variables(&mut vars, Some(Value::Object(vec![("b".to_string(), Value::Null)]))), Ok(()));
    assert!(matches!(&vars, Value::Object(v) if v.len() == 2 && v[1].0 == "b"));
}

#[test]
fn drift_payload_reports_a_missing_deployment_and_keeps_the_deployment_otherwise() {
    assert_eq!(
        drift_payload(&None, "s3bucket/b1", false, "bob").err(),
        Some("Failed to describe deployment, deployment was not found".to_string())
    );
    let d = DeployedState {
        module: "S3Bucket".to_string(),
        module_version: "1.0.0".to_string(),
        module_type: "module".to_string(),
        module_track: "stable".to_string(),
        environment: "github/team".to_string(),
        project_id: "123".to_string(),
        region: "us-west-2".to_string(),
        dependencies: vec![],
        initiated_by: "alice".to_string(),
        cpu: "1024".to_string(),
        memory: "2048".to_string(),
        reference: "r".to_string(),
        variables: Value::Null,
    };
    let p = match drift_payload(&Some(d), "s3bucket/b1", false, "bob") {
        Ok(p) => p,
        Err(e) => panic!("{}", e),
    };
    assert_eq!(p.command, "plan");
    assert_eq!(p.flags, vec!["-refresh-only".to_string()]);
    assert_eq!(p.module, "s3bucket");
    assert_eq!(p.name, "");
    assert_eq!(p.deployment_id, "s3bucket/b1");
    assert_eq!(p.next_drift_check_epoch, -1);
    assert_eq!(p.initiated_by, "alice");
}

#[test]
fn without_a_prefix_setting_every_change_is_processed() {
    let changes = || vec![("A".to_string(), "claims/a.yaml".to_string()), ("M".to_string(), "other/b.yaml".to_string())];
    assert_eq!(changes_to_process(changes(), None).len(), 2);
    let kept = changes_to_process(changes(), Some("claims/"));
    assert_eq!(kept, vec![("A".to_string(), "claims/a.yaml".to_string())]);
}

#[test]
fn provider_configurations_keep_the_first_of_each_provider_and_alias() {
    let blocks = parse_terraform(
        "provider \"aws\" {\n  region = \"a\"\n}\nprovider \"aws\" {\n  region = \"b\"\n}\nprovider \"aws\" {\n  alias = \"east\"\n}\nvariable \"x\" {}\n",
    )
    .unwrap();
    let kept = provider_configurations_of(&blocks);
    assert_eq!(kept.len(), 2);
    assert!(matches!(&kept[0].attributes[0].1, HclExpr::Str(s) if s == "a"));
    assert_eq!(kept[1].attributes[0].0, "alias");
}

#[test]
fn built_code_has_only_the_merged_kinds() {
    let blocks = parse_terraform(
        "resource \"aws_s3_bucket\" \"b\" {}\nvariable \"x\" {}\noutput \"y\" {\n  value = 1\n}\nmodule \"m\" {}\n",
    )
    .unwrap();
    let built = build_from_blocks(&blocks).unwrap();
    let kinds: Vec<&str> = built.iter().map(|b| b.identifier.as_str()).collect();
    assert_eq!(kinds, vec!["variable", "output"]);
}
