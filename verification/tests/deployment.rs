use infraweave::infra::{
    check_api_version, check_deprecation, claim_dependencies, claim_version, get_default_cpu,
    get_default_memory, get_deployment_details, get_namespace, get_region_env_var, ClaimError,
};
use infraweave::manifest::{
    DependencyRef, DeploymentManifest, DeploymentMetadata, DeploymentSpec, TfVariable,
};
use infraweave::names::{is_lower_alnum, validate_name};
use infraweave::oci::{registry_protocol, OCIRegistryProvider, RegistryCredentials, RegistryProtocol};
use infraweave::publishing::{
    effective_concurrency_limit, is_test_mode, package_s3_key, parse_usize,
    split_environment_variables,
};
use infraweave::value::Value;

fn manifest(kind: &str, name: &str, region: &str) -> DeploymentManifest {
    DeploymentManifest {
        api_version: "infraweave.io/v1".to_string(),
        kind: kind.to_string(),
        metadata: DeploymentMetadata { name: name.to_string(), namespace: None },
        spec: DeploymentSpec {
            module_version: Some("0.0.21".to_string()),
            stack_version: None,
            region: region.to_string(),
            reference: None,
            variables: Value::Object(vec![]),
            dependencies: None,
        },
    }
}

#[test]
fn defaults_for_cpu_and_memory() {
    assert_eq!(get_default_cpu(), "1024");
    assert_eq!(get_default_memory(), "2048");
}

#[test]
fn region_variable_follows_the_provider() {
    assert_eq!(get_region_env_var(None), "AWS_REGION");
    assert_eq!(get_region_env_var(Some("aws")), "AWS_REGION");
    assert_eq!(get_region_env_var(Some("azure")), "AZURE_REGION");
    assert_eq!(get_region_env_var(Some("gcp")), "REGION");
}

#[test]
fn python_namespace_gets_a_launcher_once() {
    assert_eq!(get_namespace("dev"), "python/dev");
    assert_eq!(get_namespace("python/dev"), "python/dev");
    assert_eq!(get_namespace(&get_namespace("team-a")), "python/team-a");
}

#[test]
fn deployment_details_of_a_claim() {
    let m = manifest("S3Bucket", "bucket1a", "eu-west-1");
    let (region, environment, deployment_id, module, name) =
        get_deployment_details("cli/my-namespace", &m).unwrap();
    assert_eq!(region, "eu-west-1");
    assert_eq!(environment, "cli/my-namespace");
    assert_eq!(deployment_id, "s3bucket/bucket1a");
    assert_eq!(module, "s3bucket");
    assert_eq!(name, "bucket1a");
}

#[test]
fn deployment_details_refuse_a_bad_namespace() {
    let m = manifest("S3Bucket", "bucket1a", "eu-west-1");
    match get_deployment_details("cli/Bad_Namespace", &m) {
        Err(ClaimError::InvalidDeploymentName(ns)) => assert_eq!(ns, "Bad_Namespace"),
        other => panic!("unexpected result: {:?}", other),
    }
    assert!(matches!(get_deployment_details("no-launcher", &m), Err(ClaimError::InvalidDeploymentName(_))));
}

#[test]
fn deployment_names() {
    assert!(validate_name("my-namespace"));
    assert!(validate_name("a"));
    assert!(!validate_name(""));
    assert!(!validate_name("-leading"));
    assert!(!validate_name("trailing-"));
    assert!(!validate_name("Upper"));
    assert!(!validate_name(&"a".repeat(64)));
    assert!(validate_name(&"a".repeat(63)));
    assert!(is_lower_alnum("s3bucket"));
    assert!(!is_lower_alnum("3bucket"));
    assert!(!is_lower_alnum("s3-bucket"));
}

#[test]
fn api_version_and_claim_version() {
    assert!(check_api_version("infraweave.io/v1").is_ok());
    match check_api_version("infraweave.io/v2") {
        Err(ClaimError::UnsupportedApiVersion(v)) => assert_eq!(v, "infraweave.io/v2"),
        other => panic!("unexpected result: {:?}", other),
    }
    assert_eq!(claim_version(&Some("1.0.0".to_string()), &None).unwrap(), (false, "1.0.0".to_string()));
    assert_eq!(claim_version(&None, &Some("2.0.0".to_string())).unwrap(), (true, "2.0.0".to_string()));
    assert!(matches!(claim_version(&None, &None), Err(ClaimError::NoVersionSet)));
    assert!(matches!(
        claim_version(&Some("1".to_string()), &Some("2".to_string())),
        Err(ClaimError::BothVersionsSet)
    ));
}

#[test]
fn dependencies_take_the_claim_context() {
    let deps = Some(vec![DependencyRef {
        deployment_id: "S3Bucket/Bucket1".to_string(),
        environment: "CLI/Dev".to_string(),
    }]);
    let r = claim_dependencies(&deps, "123456789012", "eu-west-1", "cli/dev");
    assert_eq!(r.len(), 1);
    assert_eq!(r[0].project_id, "123456789012");
    assert_eq!(r[0].region, "eu-west-1");
    assert_eq!(r[0].environment, "cli/dev");
    assert_eq!(r[0].deployment_id, "s3bucket/bucket1/cli/dev");
    assert!(claim_dependencies(&None, "p", "r", "e").is_empty());
}

#[test]
fn deprecated_versions_serve_only_existing_deployments() {
    assert!(check_deprecation(false, &None, false, "s3bucket", "1.0.0", false).is_ok());
    assert!(check_deprecation(true, &None, false, "s3bucket", "1.0.0", true).is_ok());
    match check_deprecation(true, &Some("use 2.0".to_string()), true, "webapp", "1.0.0", false) {
        Err(ClaimError::Deprecated(msg)) => assert_eq!(
            msg,
            "Stack webapp version 1.0.0 has been deprecated and cannot be used for new deployments.\nReason: use 2.0\nPlease use a different version."
        ),
        other => panic!("unexpected result: {:?}", other),
    }
    match check_deprecation(true, &None, false, "s3bucket", "1.0.0", false) {
        Err(ClaimError::Deprecated(msg)) => assert_eq!(
            msg,
            "Module s3bucket version 1.0.0 has been deprecated and cannot be used for new deployments.\nPlease use a different version."
        ),
        other => panic!("unexpected result: {:?}", other),
    }
}

#[test]
fn oci_registry_references_and_credentials() {
    let anon = OCIRegistryProvider::new("ghcr.io/org/modules".to_string(), None, None);
    assert!(matches!(anon.credentials(), RegistryCredentials::Anonymous));
    assert_eq!(anon.module_reference("s3bucket", "0.1.0+build.5"), "ghcr.io/org/modules:s3bucket-0.1.0-build.5");
    assert_eq!(anon.pull_reference("org/s3bucket:tag"), "ghcr.io/org/modules/org/s3bucket:tag");
    let basic = OCIRegistryProvider::new("r".to_string(), Some("user".to_string()), Some("pw".to_string()));
    match basic.credentials() {
        RegistryCredentials::Basic(u, p) => {
            assert_eq!(u, "user");
            assert_eq!(p, "pw");
        }
        other => panic!("unexpected credentials: {:?}", other),
    }
    assert_eq!(registry_protocol(true), RegistryProtocol::Http);
    assert_eq!(registry_protocol(false), RegistryProtocol::Https);
}

fn var(name: &str) -> TfVariable {
    TfVariable {
        name: name.to_string(),
        description: String::new(),
        default: Some(Value::Text("d".to_string())),
        sensitive: false,
        nullable: true,
        var_type: "string".to_string(),
    }
}

#[test]
fn environment_variables_are_split_off() {
    let vars = vec![var("bucket_name"), var("INFRAWEAVE_DEPLOYMENT_ID"), var("tags"), var("INFRAWEAVE_ENVIRONMENT")];
    let (users, env) = split_environment_variables(&vars);
    assert_eq!(users.iter().map(|v| v.name.clone()).collect::<Vec<_>>(), vec!["bucket_name", "tags"]);
    assert_eq!(env, vec!["INFRAWEAVE_DEPLOYMENT_ID".to_string(), "INFRAWEAVE_ENVIRONMENT".to_string()]);
    assert_eq!(users.len() + env.len(), vars.len());
}

#[test]
fn numbers_and_settings() {
    assert_eq!(parse_usize("42"), Some(42));
    assert_eq!(parse_usize("+7"), Some(7));
    assert_eq!(parse_usize("007"), Some(7));
    assert_eq!(parse_usize(""), None);
    assert_eq!(parse_usize("+"), None);
    assert_eq!(parse_usize("-1"), None);
    assert_eq!(parse_usize("1a"), None);
    assert_eq!(parse_usize("99999999999999999999999"), None);
    assert!(is_test_mode(Some("TRUE")));
    assert!(is_test_mode(Some("1")));
    assert!(!is_test_mode(Some("yes")));
    assert!(!is_test_mode(None));
    assert_eq!(effective_concurrency_limit(false, None, 50), 10);
    assert_eq!(effective_concurrency_limit(false, Some("4"), 50), 4);
    assert_eq!(effective_concurrency_limit(false, Some("many"), 50), 10);
    assert_eq!(effective_concurrency_limit(true, Some("4"), 50), 1);
    assert_eq!(effective_concurrency_limit(false, Some("20"), 3), 3);
    assert_eq!(package_s3_key("s3bucket", "0.0.21"), "s3bucket/s3bucket-0.0.21.zip");
}
