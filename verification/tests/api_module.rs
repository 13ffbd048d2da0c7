use infraweave::examples::{is_all_module_example_variables_valid, validate_module_examples};
use infraweave::manifest::{ModuleError, ModuleExample, ModuleManifest, TfVariable};
use infraweave::names::{validate_module_kind, validate_module_name};
use infraweave::publishing::{shared_configuration, validate_providers, ProviderConfig};
use infraweave::value::Value;

fn from_yaml(v: &serde_yaml::Value) -> Value {
    match v {
        serde_yaml::Value::Null => Value::Null,
        serde_yaml::Value::Bool(b) => Value::Bool(*b),
        serde_yaml::Value::Number(n) => Value::Number(n.to_string()),
        serde_yaml::Value::String(s) => Value::Text(s.clone()),
        serde_yaml::Value::Sequence(items) => Value::List(items.iter().map(from_yaml).collect()),
        serde_yaml::Value::Mapping(m) => Value::Object(
            m.iter()
                .map(|(k, v)| (k.as_str().unwrap_or_default().to_string(), from_yaml(v)))
                .collect(),
        ),
        serde_yaml::Value::Tagged(t) => from_yaml(&t.value),
    }
}

fn yaml(text: &str) -> Value {
    let v: serde_yaml::Value = serde_yaml::from_str(text).unwrap();
    from_yaml(&v)
}

fn text_at(v: &serde_yaml::Value, path: &[&str]) -> Option<String> {
    let mut cur = v;
    for p in path {
        cur = cur.get(*p)?;
    }
    match cur {
        serde_yaml::Value::String(s) => Some(s.clone()),
        serde_yaml::Value::Number(n) => Some(n.to_string()),
        _ => None,
    }
}

fn module_manifest(text: &str) -> ModuleManifest {
    let v: serde_yaml::Value = serde_yaml::from_str(text).unwrap();
    ModuleManifest {
        kind: text_at(&v, &["kind"]).unwrap(),
        name: text_at(&v, &["metadata", "name"]).unwrap(),
        module_name: text_at(&v, &["spec", "moduleName"]).unwrap(),
        version: text_at(&v, &["spec", "version"]),
        description: text_at(&v, &["spec", "description"]).unwrap_or_default(),
        reference: text_at(&v, &["spec", "reference"]).unwrap_or_default(),
        examples: None,
    }
}

fn var(name: &str, description: &str, default: Option<Value>, nullable: bool, ty: &str) -> TfVariable {
    TfVariable {
        name: name.to_string(),
        description: description.to_string(),
        default,
        sensitive: false,
        nullable,
        var_type: ty.to_string(),
    }
}

fn provider(name: &str, provider: &str, alias: Option<&str>) -> ProviderConfig {
    ProviderConfig {
        name: name.to_string(),
        provider: provider.to_string(),
        alias: alias.map(|a| a.to_string()),
    }
}

#[test]
fn api_module_test_is_example_variables_valid() {
    let tf_variables = vec![
        var("bucket_name", "The name of the bucket", None, false, "string"),
        var("tags", "The tags to apply to the bucket", None, false, "map"),
        var("port_mapping", "The port mapping", None, false, "list"),
    ];
    let example_variables = yaml(
        r#"
bucket_name: some-bucket-name
tags:
  oneTag: value1
  anotherTag: value2
port_mapping:
  - containerPort: 80
    hostPort: 80
"#,
    );
    let (is_valid, _error) = is_all_module_example_variables_valid(&tf_variables, &example_variables);
    assert_eq!(is_valid, true);
}

#[test]
fn test_is_example_variables_valid_true_has_default() {
    let tf_variables = vec![
        var("instance_name", "Instance name", Some(Value::Text("my-instance".to_string())), false, "string"),
        var("bucket_name", "Bucket name", None, false, "string"),
    ];
    let example_variables = yaml("\nbucket_name: some-bucket-name\n");
    let (is_valid, _error) = is_all_module_example_variables_valid(&tf_variables, &example_variables);
    assert_eq!(is_valid, true);
}

#[test]
fn test_is_example_variables_valid_false_has_no_default() {
    let tf_variables = vec![
        var("instance_name", "Instance name", None, false, "string"),
        var("bucket_name", "Bucket name", None, false, "string"),
    ];
    let example_variables = yaml("\nbucket_name: some-bucket-name\n");
    let (is_valid, error) = is_all_module_example_variables_valid(&tf_variables, &example_variables);
    assert_eq!(is_valid, false);
    assert_eq!(error, "Required variable instance_name is missing");
}

#[test]
fn test_is_example_variables_valid_true_has_no_default_but_nullable() {
    let tf_variables = vec![
        var("instance_name", "Instance name", None, true, "string"),
        var("bucket_name", "Bucket name", None, false, "string"),
    ];
    let example_variables = yaml("\nbucket_name: some-bucket-name\n");
    let (is_valid, _error) = is_all_module_example_variables_valid(&tf_variables, &example_variables);
    assert_eq!(is_valid, true);
}

#[test]
fn test_is_example_variables_valid_false_required_missing() {
    let tf_variables = vec![var("bucket_name", "The name of the bucket", None, false, "string")];
    let example_variables = yaml(
        r#"
tags:
  oneTag: value1
  anotherTag: value2
port_mapping:
  - containerPort: 80
    hostPort: 80
"#,
    );
    let (is_valid, _error) = is_all_module_example_variables_valid(&tf_variables, &example_variables);
    assert_eq!(is_valid, false);
}

#[test]
fn test_is_example_variables_snake_case_false() {
    let tf_variables = vec![var("bucketName", "Bucket name", None, false, "string")];
    let example_variables = yaml("\nbucketName: some-bucket-name\n");
    let (is_valid, error) = is_all_module_example_variables_valid(&tf_variables, &example_variables);
    assert_eq!(is_valid, false);
    assert_eq!(error, "Example variable bucketName is not snake_case like the terraform variable");
}

#[test]
fn module_example_errors_for_unknown_and_null_variables() {
    let tf_variables = vec![var("bucket_name", "Bucket name", None, false, "string")];
    let (ok, error) = is_all_module_example_variables_valid(&tf_variables, &yaml("color: red\n"));
    assert!(!ok);
    assert_eq!(error, "Example variable color does not exist");

    let (ok, error) = is_all_module_example_variables_valid(&tf_variables, &yaml("bucket_name: null\n"));
    assert!(!ok);
    assert_eq!(error, "Required variable bucket_name is null but mandatory");

    let examples = Some(vec![ModuleExample { name: "simple".to_string(), variables: yaml("color: red\n") }]);
    match validate_module_examples(&tf_variables, &examples) {
        Err(ModuleError::InvalidExampleVariable(reason)) => assert_eq!(reason, "Example variable color does not exist"),
        other => panic!("unexpected result: {:?}", other),
    }
    let good = Some(vec![ModuleExample { name: "simple".to_string(), variables: yaml("bucket_name: b\n") }]);
    assert!(validate_module_examples(&tf_variables, &good).is_ok());
}

const MODULE_S3: &str = r#"
        apiVersion: infraweave.io/v1
        kind: Module
        metadata:
            name: s3bucket
        spec:
            moduleName: S3Bucket
            version: 0.2.1
            providers: []
            reference: https://github.com/your-org/s3bucket
            description: "S3Bucket description here..."
        "#;

#[test]
fn test_validate_module_name_valid() {
    let m = module_manifest(MODULE_S3);
    assert_eq!(validate_module_name(&m).is_ok(), true);
}

#[test]
fn test_validate_module_name_invalid() {
    let m = module_manifest(&MODULE_S3.replace("name: s3bucket", "name: s3-bucket"));
    let result = validate_module_name(&m);
    assert_eq!(result.is_err(), true);
    assert!(matches!(result, Err(ModuleError::InvalidName(_))));
}

#[test]
fn test_validate_module_name_invalid_must_be_lowercase_identical() {
    let m = module_manifest(&MODULE_S3.replace("name: s3bucket", "name: bucket"));
    assert_eq!(validate_module_name(&m).is_err(), true);
}

#[test]
fn test_validate_module_kind_valid() {
    let m = module_manifest(MODULE_S3);
    assert_eq!(validate_module_kind(&m).is_ok(), true);
}

#[test]
fn test_validate_module_kind_invalid() {
    let m = module_manifest(&MODULE_S3.replace("kind: Module", "kind: Manifest"));
    let result = validate_module_kind(&m);
    assert_eq!(result.is_err(), true);
    match result {
        Err(ModuleError::InvalidKind(expected, found)) => {
            assert_eq!(expected, "Module");
            assert_eq!(found, "Manifest");
        }
        other => panic!("unexpected result: {:?}", other),
    }
}

#[test]
fn test_validate_module_name_must_start_with_uppercase() {
    let m = module_manifest(&MODULE_S3.replace("moduleName: S3Bucket", "moduleName: s3Bucket"));
    let result = validate_module_name(&m);
    assert_eq!(result.is_err(), true);
    assert!(matches!(result, Err(ModuleError::NameNotCapitalized(_))));
}

#[test]
fn test_validate_module_name_must_be_alphanumeric() {
    let m = module_manifest(&MODULE_S3.replace("moduleName: S3Bucket", "moduleName: S3-Bucket"));
    let result = validate_module_name(&m);
    assert_eq!(result.is_err(), true);
    assert!(matches!(result, Err(ModuleError::NameNotAlphanumeric(_))));
}

#[test]
fn test_validate_module_name_must_be_alphanumeric_no_underscore() {
    let m = module_manifest(
        &MODULE_S3
            .replace("name: s3bucket", "name: s3_bucket")
            .replace("moduleName: S3Bucket", "moduleName: S3_Bucket"),
    );
    assert_eq!(validate_module_name(&m).is_err(), true);
}

#[test]
fn test_validate_providers_all_ok() {
    let tf_providers = vec![
        provider("helm", "helm", Some("us-east-1")),
        provider("aws2", "aws", Some("us-east-1")),
    ];
    validate_or_panic(&tf_providers);
}

#[test]
fn test_validate_ok_same_name_different_alias() {
    let tf_providers = vec![
        provider("aws1", "aws", Some("us-east-1")),
        provider("aws2", "aws", Some("us-east-2")),
    ];
    validate_or_panic(&tf_providers);
}

#[test]
#[should_panic]
fn test_validate_panic_on_duplicate_config_name() {
    let tf_providers = vec![
        provider("aws1", "aws", Some("us-east-1")),
        provider("aws2", "aws", Some("us-east-1")),
    ];
    validate_or_panic(&tf_providers);
}

#[test]
fn duplicate_configuration_message_names_all_providers() {
    let tf_providers = vec![
        provider("aws1", "aws", None),
        provider("helm", "helm", None),
        provider("aws2", "aws", None),
    ];
    assert_eq!(
        shared_configuration(&tf_providers).unwrap(),
        "configuration name \"aws\" occurs in multiple providers [aws1, aws2], this is not allowed, update providers in module.yaml"
    );
}

/// Validates providers as publishing does: two providers with one configuration stop it.
fn validate_or_panic(tf_providers: &Vec<ProviderConfig>) {
    if let Some(message) = shared_configuration(tf_providers) {
        panic!("{}", message);
    }
    validate_providers(tf_providers);
}
