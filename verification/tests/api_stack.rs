use infraweave::casing::{to_camel_case, to_snake_case};
use infraweave::claims::validate_claim_modules;
use infraweave::examples::{is_all_stack_example_variables_valid, validate_examples};
use infraweave::manifest::{
    DependencyRef, DeploymentManifest, DeploymentMetadata, DeploymentSpec, ModuleError,
    ModuleExample, ModuleResp, StackManifest, TfLockProvider, TfOutput, TfRequiredProvider, TfVariable,
};
use infraweave::preview::{
    collect_modules, extra_environment_variables, generate_full_terraform_module, generate_terraform_modules,
    generate_terraform_outputs, generate_terraform_variables,
};
use infraweave::names::{
    validate_stack_kind, validate_stack_module_claim_name,
    validate_stack_module_claim_region_is_na, validate_stack_name,
};
use infraweave::tfcode::{
    collect_module_outputs, collect_module_variables, generate_dependency_map,
    generate_terraform_output_single, get_output_name, get_variable_name,
};
use infraweave::value::Value;
use std::collections::{BTreeMap, HashMap};

fn from_yaml(v: &serde_yaml::Value) -> Value {
    match v {
        serde_yaml::Value::Null => Value::Null,
        serde_yaml::Value::Bool(b) => Value::Bool(*b),
        serde_yaml::Value::Number(n) => Value::Number(n.to_string()),
        serde_yaml::Value::String(s) => Value::Text(s.clone()),
        serde_yaml::Value::Sequence(items) => Value::List(items.iter().map(from_yaml).collect()),
        serde_yaml::Value::Mapping(m) => Value::Object(
            m.iter()
                .map(|(k, v)| (key_text(k), from_yaml(v)))
                .collect(),
        ),
        serde_yaml::Value::Tagged(t) => from_yaml(&t.value),
    }
}

fn key_text(k: &serde_yaml::Value) -> String {
    match k {
        serde_yaml::Value::String(s) => s.clone(),
        serde_yaml::Value::Number(n) => n.to_string(),
        serde_yaml::Value::Bool(b) => b.to_string(),
        _ => String::new(),
    }
}

fn to_json(v: &Value) -> serde_json::Value {
    match v {
        Value::Null => serde_json::Value::Null,
        Value::Bool(b) => serde_json::Value::Bool(*b),
        Value::Number(n) => serde_json::from_str(n).unwrap(),
        Value::Text(s) => serde_json::Value::String(s.clone()),
        Value::List(items) => serde_json::Value::Array(items.iter().map(to_json).collect()),
        Value::Object(entries) => {
            let mut m = serde_json::Map::new();
            for (k, v) in entries {
                m.insert(k.clone(), to_json(v));
            }
            serde_json::Value::Object(m)
        }
    }
}

fn yaml(text: &str) -> Value {
    let v: serde_yaml::Value = serde_yaml::from_str(text).unwrap();
    from_yaml(&v)
}

fn json(text: &str) -> Value {
    let v: serde_yaml::Value = serde_yaml::from_str(text).unwrap();
    from_yaml(&v)
}

fn text_at(v: &serde_yaml::Value, path: &[&str]) -> Option<String> {
    let mut cur = v;
    for p in path {
        cur = cur.get(*p)?;
    }
    match cur {
        serde_yaml::Value::String(s) => Some(s.clone()),
        serde_yaml::Value::Number(n) => Some(n.to_string()),
        serde_yaml::Value::Bool(b) => Some(b.to_string()),
        _ => None,
    }
}

fn claim(text: &str) -> DeploymentManifest {
    let v: serde_yaml::Value = serde_yaml::from_str(text).unwrap();
    let variables = v
        .get("spec")
        .and_then(|s| s.get("variables"))
        .map(from_yaml)
        .unwrap_or(Value::Object(vec![]));
    let dependencies = v
        .get("spec")
        .and_then(|s| s.get("dependencies"))
        .and_then(|d| d.as_sequence())
        .map(|ds| {
            ds.iter()
                .map(|d| DependencyRef {
                    deployment_id: text_at(d, &["deploymentId"]).unwrap_or_default(),
                    environment: text_at(d, &["environment"]).unwrap_or_default(),
                })
                .collect()
        });
    DeploymentManifest {
        api_version: text_at(&v, &["apiVersion"]).unwrap(),
        kind: text_at(&v, &["kind"]).unwrap(),
        metadata: DeploymentMetadata {
            name: text_at(&v, &["metadata", "name"]).unwrap(),
            namespace: text_at(&v, &["metadata", "namespace"]),
        },
        spec: DeploymentSpec {
            module_version: text_at(&v, &["spec", "moduleVersion"]),
            stack_version: text_at(&v, &["spec", "stackVersion"]),
            region: text_at(&v, &["spec", "region"]).unwrap(),
            reference: text_at(&v, &["spec", "reference"]),
            variables,
            dependencies,
        },
    }
}

fn stack_manifest(text: &str) -> StackManifest {
    let v: serde_yaml::Value = serde_yaml::from_str(text).unwrap();
    StackManifest {
        kind: text_at(&v, &["kind"]).unwrap(),
        name: text_at(&v, &["metadata", "name"]).unwrap(),
        stack_name: text_at(&v, &["spec", "stackName"]).unwrap(),
        version: text_at(&v, &["spec", "version"]),
        examples: None,
    }
}

fn var(name: &str, description: &str, default: Option<Value>, nullable: bool, ty: &str) -> TfVariable {
    TfVariable {
        name: name.to_string(),
        description: description.to_string(),
        default,
        sensitive: false,
        nullable,
        var_type: ty.to_string(),
    }
}

fn out(name: &str, description: &str) -> TfOutput {
    TfOutput { name: name.to_string(), description: description.to_string() }
}

fn module(module: &str, module_name: &str, version: &str, tf_variables: Vec<TfVariable>, tf_outputs: Vec<TfOutput>) -> ModuleResp {
    ModuleResp {
        module: module.to_string(),
        module_name: module_name.to_string(),
        module_type: "module".to_string(),
        version: version.to_string(),
        track: "dev".to_string(),
        timestamp: String::new(),
        description: String::new(),
        reference: String::new(),
        s3_key: format!("{}/{}-{}.zip", module, module, version),
        tf_variables,
        tf_outputs,
        tf_required_providers: vec![],
        tf_lock_providers: vec![],
        tf_extra_environment_variables: vec![],
        cpu: "1024".to_string(),
        memory: "2048".to_string(),
        deprecated: false,
        deprecated_message: None,
    }
}

fn default_tags() -> Value {
    json(r#"{"Test": "hej", "AnotherTag": "something"}"#)
}

fn module_bucket_0_0_21(outputs: Vec<TfOutput>) -> ModuleResp {
    module(
        "s3bucket",
        "S3Bucket",
        "0.0.21",
        vec![
            var("bucket_name", "Name of the S3 bucket", None, false, "string"),
            var("tags", "Tags to apply to the S3 bucket", Some(default_tags()), true, "map(string)"),
        ],
        outputs,
    )
}

fn s3bucket_module_version(version: &str) -> ModuleResp {
    module(
        "s3bucket",
        "S3Bucket",
        version,
        vec![
            var("bucket_name", "Name of the S3 bucket", None, false, "string"),
            var("tags", "Tags to apply to the S3 bucket", Some(default_tags()), true, "map(string)"),
            var("input_list", "Some arbitrary input list", None, true, "list(string)"),
        ],
        vec![out("bucket_arn", "ARN of the bucket"), out("list_of_strings", "Made up list of strings")],
    )
}

fn get_example_claim_modules() -> Vec<(DeploymentManifest, ModuleResp)> {
    let bucket1a = claim(
        r#"
    apiVersion: infraweave.io/v1
    kind: S3Bucket
    metadata:
        name: bucket1a
    spec:
        region: N/A
        moduleVersion: 0.0.21
        variables: {}
    "#,
    );
    let bucket2 = claim(
        r#"
    apiVersion: infraweave.io/v1
    kind: S3Bucket
    metadata:
        name: bucket2
    spec:
        region: N/A
        moduleVersion: 0.0.22
        variables:
            bucketName: "{{ S3Bucket::bucket1a::bucketName }}-after"
            inputList: "{{ S3Bucket::bucket1a::listOfStrings }}"
            tags:
                Name234: my-s3bucket-bucket2
                dependentOn: "prefix-{{ S3Bucket::bucket1a::bucketArn }}-suffix"
    "#,
    );
    vec![(bucket1a, s3bucket_module()), (bucket2, s3bucket_module_upgraded())]
}

fn s3bucket_module() -> ModuleResp {
    let mut m = s3bucket_module_version("0.0.21");
    m.tf_required_providers = vec![TfRequiredProvider {
        name: "aws".to_string(),
        source: "hashicorp/aws".to_string(),
        version: "~> 5.0".to_string(),
    }];
    m.tf_lock_providers = vec![TfLockProvider { source: "hashicorp/aws".to_string(), version: "5.81.0".to_string() }];
    m
}

fn s3bucket_module_upgraded() -> ModuleResp {
    let mut m = s3bucket_module_version("0.0.22");
    m.tf_required_providers = vec![TfRequiredProvider {
        name: "aws".to_string(),
        source: "hashicorp/aws".to_string(),
        version: "~> 5.0".to_string(),
    }];
    m.tf_lock_providers = vec![TfLockProvider { source: "hashicorp/aws".to_string(), version: "5.95.0".to_string() }];
    m.tf_extra_environment_variables = vec!["INFRAWEAVE_MODULE_VERSION".to_string()];
    m
}

fn stack_var(name: &str, nullable: bool, ty: &str) -> TfVariable {
    var(name, "", None, nullable, ty)
}

#[test]
fn api_stack_test_is_example_variables_valid() {
    let tf_variables = vec![
        var("bucket1a__bucket_name", "The name of the bucket", None, false, "string"),
        var("bucket1a__tags", "The tags to apply to the bucket", None, true, "map"),
        var("bucket2__port_mapping", "The port mapping", None, true, "list"),
    ];
    let example_variables = yaml(
        r#"
            bucket1a:
                bucketName: some-bucket-name
            bucket2:
                portMapping:
                    - port: 80
                      name: http
"#,
    );
    let (is_valid, _error) = is_all_stack_example_variables_valid(&tf_variables, &example_variables);
    assert_eq!(is_valid, true);
}

#[test]
fn test_is_example_variables_invalid_snake_case() {
    let tf_variables = vec![var("bucket1a__bucket_name", "The name of the bucket", None, false, "string")];
    let example_variables = yaml(
        r#"
            bucket1a:
                bucket_name: some-bucket-name
"#,
    );
    let (is_valid, _error) = is_all_stack_example_variables_valid(&tf_variables, &example_variables);
    assert_eq!(is_valid, false);
}

#[test]
fn test_is_example_variables_invalid_missing_required() {
    let tf_variables = vec![
        var("bucket1a__bucket_name", "The name of the bucket", None, false, "string"),
        var("bucket1a__tags", "The tags to apply to the bucket", None, true, "map"),
    ];
    let example_variables = yaml(
        r#"
            bucket1a:
                tags:
                    env: dev
                    department: engineering
"#,
    );
    let (is_valid, _error) = is_all_stack_example_variables_valid(&tf_variables, &example_variables);
    assert_eq!(is_valid, false);
}

#[test]
fn stack_example_errors_name_the_variable_and_claim() {
    let tf_variables = vec![
        var("bucket1a__bucket_name", "The name of the bucket", None, false, "string"),
        var("bucket1a__tags", "The tags to apply to the bucket", None, true, "map"),
    ];
    let missing = yaml("bucket1a:\n  tags:\n    env: dev\n");
    let (ok, error) = is_all_stack_example_variables_valid(&tf_variables, &missing);
    assert!(!ok);
    assert_eq!(error, "Example variable bucket_name under bucket1a is required but is not set");

    let unknown = yaml("bucket1a:\n  bucketName: x\n  color: red\n");
    let (ok, error) = is_all_stack_example_variables_valid(&tf_variables, &unknown);
    assert!(!ok);
    assert_eq!(
        error,
        "Example variable color does not exist under bucket1a (or maybe it is already set in claim?)"
    );

    let examples = Some(vec![ModuleExample { name: "simple".to_string(), variables: missing }]);
    match validate_examples(&tf_variables, &examples) {
        Err(ModuleError::InvalidExampleVariable(reason)) => {
            assert_eq!(reason, "Example variable bucket_name under bucket1a is required but is not set")
        }
        other => panic!("unexpected result: {:?}", other),
    }
    assert!(validate_examples(&tf_variables, &None).is_ok());
}

#[test]
fn test_snake_case_conversion() {
    assert_eq!(to_snake_case("bucketName"), "bucket_name");
    assert_eq!(to_snake_case("BucketName"), "bucket_name");
    assert_eq!(to_snake_case("bucket1a"), "bucket1a");
    assert_eq!(to_snake_case("bucket2"), "bucket2");
    assert_eq!(to_camel_case("bucket_name"), "bucketName");
}

#[test]
fn case_conversions_round_trip_on_plain_names() {
    for name in ["bucket_name", "input_list", "vpc_id", "a_b_c"] {
        assert_eq!(to_snake_case(&to_camel_case(name)), name);
    }
    for name in ["bucketName", "inputList", "vpcId"] {
        assert_eq!(to_camel_case(&to_snake_case(name)), name);
    }
}

fn variable_rows(vars: &[(String, TfVariable)]) -> BTreeMap<String, (String, String, Option<serde_json::Value>, bool, bool, String)> {
    vars.iter()
        .map(|(k, v)| {
            (
                k.clone(),
                (
                    v.name.clone(),
                    v.description.clone(),
                    v.default.as_ref().map(to_json),
                    v.nullable,
                    v.sensitive,
                    v.var_type.clone(),
                ),
            )
        })
        .collect()
}

#[test]
fn test_collect_module_variables() {
    let claim_modules = get_example_claim_modules();
    let generated = collect_module_variables(&claim_modules);
    let expected = vec![
        (
            "bucket2__bucket_name".to_string(),
            var(
                "bucket_name",
                "Name of the S3 bucket",
                Some(Value::Text("{{ S3Bucket::bucket1a::bucketName }}-after".to_string())),
                false,
                "string",
            ),
        ),
        (
            "bucket2__input_list".to_string(),
            var(
                "input_list",
                "Some arbitrary input list",
                Some(Value::Text("{{ S3Bucket::bucket1a::listOfStrings }}".to_string())),
                true,
                "list(string)",
            ),
        ),
        (
            "bucket2__tags".to_string(),
            var(
                "tags",
                "Tags to apply to the S3 bucket",
                Some(json(
                    r#"{"Name234": "my-s3bucket-bucket2", "dependentOn": "prefix-{{ S3Bucket::bucket1a::bucketArn }}-suffix"}"#,
                )),
                true,
                "map(string)",
            ),
        ),
        ("bucket1a__bucket_name".to_string(), var("bucket_name", "Name of the S3 bucket", None, false, "string")),
        (
            "bucket1a__input_list".to_string(),
            var("input_list", "Some arbitrary input list", None, true, "list(string)"),
        ),
        (
            "bucket1a__tags".to_string(),
            var("tags", "Tags to apply to the S3 bucket", Some(default_tags()), true, "map(string)"),
        ),
    ];
    assert_eq!(generated.len(), expected.len());
    assert_eq!(variable_rows(&generated), variable_rows(&expected));
}

#[test]
fn test_collect_module_outputs() {
    let claim_modules = get_example_claim_modules();
    let generated = collect_module_outputs(&claim_modules);
    let generated: BTreeMap<String, (String, String)> =
        generated.into_iter().map(|(k, o)| (k, (o.name, o.description))).collect();
    let mut expected = BTreeMap::new();
    expected.insert(
        "bucket2__bucket_arn".to_string(),
        ("bucket_arn".to_string(), "ARN of the bucket".to_string()),
    );
    expected.insert(
        "bucket2__list_of_strings".to_string(),
        ("list_of_strings".to_string(), "Made up list of strings".to_string()),
    );
    expected.insert(
        "bucket1a__bucket_arn".to_string(),
        ("bucket_arn".to_string(), "ARN of the bucket".to_string()),
    );
    expected.insert(
        "bucket1a__list_of_strings".to_string(),
        ("list_of_strings".to_string(), "Made up list of strings".to_string()),
    );
    assert_eq!(generated, expected);
}


#[test]
fn test_generate_dependency_map() {
    let claim_modules = get_example_claim_modules();
    let variables = collect_module_variables(&claim_modules);
    let outputs = collect_module_outputs(&claim_modules);
    let generated: HashMap<String, String> =
        generate_dependency_map(&variables, &outputs).unwrap().into_iter().collect();

    let mut expected = HashMap::new();
    expected.insert(
        "bucket2__bucket_name".to_string(),
        "\"${var.bucket1a__bucket_name}-after\"".to_string(),
    );
    expected.insert("bucket2__input_list".to_string(), "module.bucket1a.list_of_strings".to_string());
    expected.insert(
        "bucket2__tags".to_string(),
        "{\"Name234\":\"my-s3bucket-bucket2\",\"dependentOn\":\"prefix-${module.bucket1a.bucket_arn}-suffix\"}".to_string(),
    );
    assert_eq!(generated, expected);
}

#[test]
fn dependency_map_reports_a_reference_to_nothing() {
    let claim_modules = get_example_claim_modules();
    let variables = vec![(
        "bucket2__bucket_name".to_string(),
        var(
            "bucket_name",
            "Name of the S3 bucket",
            Some(Value::Text("{{ S3Bucket::bucket9::bucketArn }}".to_string())),
            false,
            "string",
        ),
    )];
    let outputs = collect_module_outputs(&claim_modules);
    match generate_dependency_map(&variables, &outputs) {
        Err(ModuleError::OutputKeyNotFound(claim, variable, _default, field, referred)) => {
            assert_eq!(claim, "bucket2");
            assert_eq!(variable, "bucketName");
            assert_eq!(field, "bucketArn");
            assert_eq!(referred, "bucket9");
        }
        other => panic!("unexpected result: {:?}", other),
    }
}

#[test]
fn dependency_map_reaches_stack_variables() {
    let variables = vec![
        (
            "bucket1__bucket_name".to_string(),
            var("bucket_name", "", Some(Value::Text("{{ Stack::variables::bucketPrefix }}".to_string())), false, "string"),
        ),
        ("stack__bucket_prefix".to_string(), stack_var("bucket_prefix", false, "string")),
    ];
    let generated = generate_dependency_map(&variables, &vec![]).unwrap();
    assert_eq!(generated, vec![("bucket1__bucket_name".to_string(), "var.stack__bucket_prefix".to_string())]);
}

#[test]
fn output_and_variable_names_are_prefixed_by_the_claim() {
    assert_eq!(get_variable_name("bucket1a", "bucket_name"), "bucket1a__bucket_name");
    assert_eq!(get_output_name("bucket2", "bucket_arn"), "bucket2__bucket_arn");
    assert_eq!(
        generate_terraform_output_single("bucket2__bucket_arn"),
        "\noutput \"bucket2__bucket_arn\" {\n  value = module.bucket2.bucket_arn\n}"
    );
}

#[test]
fn test_validate_claim_modules_valid() {
    let bucket2 = claim(
        r#"
        apiVersion: infraweave.io/v1
        kind: S3Bucket
        metadata:
            name: bucket2
        spec:
            region: N/A
            moduleVersion: 0.0.21
            variables:
                bucketName: "some-name"
                tags:
                    Name234: my-s3bucket-bucket2
                    Environment: "dev"
        "#,
    );
    let claim_modules = vec![(bucket2, module_bucket_0_0_21(vec![]))];
    let result = validate_claim_modules(&claim_modules);
    assert_eq!(result.is_ok(), true);
}

const STACK_WEBPAGE: &str = r#"
        apiVersion: infraweave.io/v1
        kind: Stack
        metadata:
            name: webpagerunner
        spec:
            stackName: WebpageRunner
            version: 0.2.1
            reference: https://github.com/your-org/webpage-runner
            description: "Webpage runner description here..."
        "#;

#[test]
fn test_validate_stack_name_valid() {
    let stack = stack_manifest(STACK_WEBPAGE);
    assert_eq!(validate_stack_name(&stack).is_ok(), true);
}

#[test]
fn test_validate_stack_name_invalid() {
    let stack = stack_manifest(&STACK_WEBPAGE.replace("name: webpagerunner", "name: webpage-runner"));
    assert_eq!(validate_stack_name(&stack).is_err(), true);
}

#[test]
fn test_validate_stack_name_invalid_must_be_lowercase_identical() {
    let stack = stack_manifest(&STACK_WEBPAGE.replace("name: webpagerunner", "name: runner"));
    let result = validate_stack_name(&stack);
    assert_eq!(result.is_err(), true);
    match result {
        Err(ModuleError::NameMismatch(name, stack_name)) => {
            assert_eq!(name, "runner");
            assert_eq!(stack_name, "WebpageRunner");
        }
        other => panic!("unexpected result: {:?}", other),
    }
}

#[test]
fn test_validate_stack_kind_valid() {
    let stack = stack_manifest(STACK_WEBPAGE);
    assert_eq!(validate_stack_kind(&stack).is_ok(), true);
}

#[test]
fn test_validate_stack_kind_invalid() {
    let stack = stack_manifest(&STACK_WEBPAGE.replace("kind: Stack", "kind: Module"));
    assert_eq!(validate_stack_kind(&stack).is_err(), true);
}

#[test]
fn test_validate_stack_name_must_start_with_uppercase() {
    let stack = stack_manifest(&STACK_WEBPAGE.replace("stackName: WebpageRunner", "stackName: webpageRunner"));
    assert_eq!(validate_stack_name(&stack).is_err(), true);
}

#[test]
fn test_validate_stack_name_must_be_alphanumeric() {
    let stack = stack_manifest(
        &STACK_WEBPAGE
            .replace("name: webpagerunner", "name: webpage-runner")
            .replace("stackName: WebpageRunner", "stackName: Webpage-Runner"),
    );
    assert_eq!(validate_stack_name(&stack).is_err(), true);
}

#[test]
fn test_validate_stack_name_must_be_alphanumeric_no_underscore() {
    let stack = stack_manifest(
        &STACK_WEBPAGE
            .replace("name: webpagerunner", "name: webpage_runner")
            .replace("stackName: WebpageRunner", "stackName: Webpage_Runner"),
    );
    assert_eq!(validate_stack_name(&stack).is_err(), true);
}

const CLAIM_S3: &str = r#"
        apiVersion: infraweave.io/v1
        kind: S3Bucket
        metadata:
            name: s3bucket
        spec:
            region: N/A
            moduleVersion: 0.0.21
            variables:
                bucketName: "some-name"
        "#;

#[test]
fn test_validate_stack_module_claim_valid() {
    let c = claim(CLAIM_S3);
    assert_eq!(validate_stack_module_claim_name(&c).is_ok(), true);
}

#[test]
fn test_validate_stack_module_claim_name_should_be_lowercase_alphanumeric() {
    let c = claim(&CLAIM_S3.replace("name: s3bucket", "name: s3-bucket"));
    assert_eq!(validate_stack_module_claim_name(&c).is_err(), true);
}

#[test]
fn test_validate_stack_module_claim_invalid_region() {
    let c = claim(&CLAIM_S3.replace("region: N/A", "region: eu-west-1"));
    let result = validate_stack_module_claim_region_is_na(&c);
    assert_eq!(result.is_err(), true);
    assert!(validate_stack_module_claim_region_is_na(&claim(CLAIM_S3)).is_ok());
}

#[test]
fn test_validate_claim_modules_namespace_should_not_be_set() {
    let bucket2 = claim(
        r#"
        apiVersion: infraweave.io/v1
        kind: S3Bucket
        metadata:
            name: bucket2
            namespace: this-should-not-be-set-in-claim-for-stack
        spec:
            region: N/A
            moduleVersion: 0.0.21
            variables:
                bucketName: "some-name"
                tags:
                    Name234: my-s3bucket-bucket2
                    Environment: "dev"
        "#,
    );
    let claim_modules = vec![(bucket2, module_bucket_0_0_21(vec![]))];
    let result = validate_claim_modules(&claim_modules);
    assert_eq!(result.is_err(), true);
    match result {
        Err(ModuleError::StackModuleNamespaceIsSet(name)) => assert_eq!(name, "bucket2"),
        other => panic!("unexpected result: {:?}", other),
    }
}

fn bucket_claim(name: &str, bucket_name: &str, tags: &str) -> DeploymentManifest {
    claim(&format!(
        r#"
        apiVersion: infraweave.io/v1
        kind: S3Bucket
        metadata:
            name: {}
        spec:
            region: N/A
            moduleVersion: 0.0.21
            variables:
                bucketName: "{}"
{}
        "#,
        name, bucket_name, tags
    ))
}

#[test]
fn test_validate_claim_modules_duplicate_claim_names() {
    let claim_modules = vec![
        (bucket_claim("bucket1", "some-name", ""), module_bucket_0_0_21(vec![])),
        (bucket_claim("bucket2", "some-other-name", ""), module_bucket_0_0_21(vec![])),
        (bucket_claim("bucket2", "some-name-duplicate", ""), module_bucket_0_0_21(vec![])),
    ];
    let result = validate_claim_modules(&claim_modules);
    assert_eq!(result.is_ok(), false);
    let error = result.unwrap_err();
    if let ModuleError::DuplicateClaimNames(duplicate_name) = error {
        assert_eq!(duplicate_name, "bucket2");
    } else {
        panic!("Unexpected error variant: {:?}", error);
    }
}

const TAGS_1: &str = "                tags:\n                    Name234: my-s3bucket-bucket1";

fn tags_with(name: &str, dependent_on: &str) -> String {
    format!(
        "                tags:\n                    Name234: my-s3bucket-{}\n                    dependentOn: \"{}\"",
        name, dependent_on
    )
}

#[test]
fn test_validate_claim_modules_multiple_with_dependency_missing_output_variable() {
    let claim_modules = vec![
        (bucket_claim("bucket1a", "some-name", TAGS_1), module_bucket_0_0_21(vec![])),
        (
            bucket_claim("bucket2", "some-name", &tags_with("bucket2", "prefix-{{ S3Bucket::bucket1a::bucketArn }}-suffix")),
            module_bucket_0_0_21(vec![]),
        ),
    ];
    let result = validate_claim_modules(&claim_modules);
    assert_eq!(result.is_ok(), false);
    let error = result.unwrap_err();
    if let ModuleError::StackClaimReferenceNotFound(source_claim, kind_ref, claim_ref, variable_ref) = error {
        assert_eq!(source_claim, "bucket2");
        assert_eq!(kind_ref, "S3Bucket");
        assert_eq!(claim_ref, "bucket1a");
        assert_eq!(variable_ref, "bucketArn".to_string());
    } else {
        panic!("Unexpected error variant: {:?}", error);
    }
}

#[test]
fn test_validate_claim_modules_multiple_with_dependency_missing_output_kind() {
    let claim_modules = vec![
        (bucket_claim("bucket1a", "some-name", TAGS_1), module_bucket_0_0_21(vec![])),
        (
            bucket_claim("bucket2", "some-name", &tags_with("bucket2", "prefix-{{ UnknownKind::bucket1a::bucketName }}-suffix")),
            module_bucket_0_0_21(vec![]),
        ),
    ];
    let result = validate_claim_modules(&claim_modules);
    assert_eq!(result.is_ok(), false);
    let error = result.unwrap_err();
    if let ModuleError::StackClaimReferenceNotFound(source_claim, kind_ref, claim_ref, variable_ref) = error {
        assert_eq!(source_claim, "bucket2");
        assert_eq!(kind_ref, "UnknownKind");
        assert_eq!(claim_ref, "bucket1a");
        assert_eq!(variable_ref, "bucketName".to_string());
    } else {
        panic!("Unexpected error variant: {:?}", error);
    }
}

#[test]
fn test_validate_claim_modules_multiple_with_dependency_correct_output() {
    let arn = || vec![out("bucket_arn", "ARN of the bucket")];
    let claim_modules = vec![
        (bucket_claim("bucket1a", "some-name", TAGS_1), module_bucket_0_0_21(arn())),
        (
            bucket_claim("bucket2", "some-name", &tags_with("bucket2", "prefix-{{ S3Bucket::bucket1a::bucketArn }}-suffix")),
            module_bucket_0_0_21(arn()),
        ),
    ];
    let result = validate_claim_modules(&claim_modules);
    assert_eq!(result.is_ok(), true);
}

#[test]
fn test_validate_claim_modules_multiple_with_self_reference() {
    let arn = || vec![out("bucket_arn", "ARN of the bucket")];
    let claim_modules = vec![
        (bucket_claim("bucket1a", "some-name", TAGS_1), module_bucket_0_0_21(arn())),
        (
            bucket_claim("bucket2", "some-name", &tags_with("bucket2", "prefix-{{ S3Bucket::bucket2::bucketArn }}-suffix")),
            module_bucket_0_0_21(arn()),
        ),
    ];
    let result = validate_claim_modules(&claim_modules);
    assert_eq!(result.is_ok(), false);
    let error = result.unwrap_err();
    if let ModuleError::SelfReferencingClaim(kind, claim, ref_field) = error {
        assert_eq!(kind, "S3Bucket");
        assert_eq!(claim, "bucket2");
        assert_eq!(ref_field, "bucketArn".to_string());
    } else {
        panic!("Unexpected error variant: {:?}", error);
    }
}

#[test]
fn test_validate_claim_modules_multiple_with_circular_dependency() {
    let arn = || vec![out("bucket_arn", "ARN of the bucket")];
    let claim_modules = vec![
        (
            bucket_claim("bucket1", "some-bucket-name-1", &tags_with("bucket1", "prefix-{{ S3Bucket::bucket3::bucketArn }}-suffix")),
            module_bucket_0_0_21(arn()),
        ),
        (
            bucket_claim("bucket2", "some-bucket-name-2", &tags_with("bucket2", "prefix-{{ S3Bucket::bucket1::bucketArn }}-suffix")),
            module_bucket_0_0_21(arn()),
        ),
        (
            bucket_claim("bucket3", "some-bucket-name-3", &tags_with("bucket3", "prefix-{{ S3Bucket::bucket2::bucketArn }}-suffix")),
            module_bucket_0_0_21(arn()),
        ),
        (
            bucket_claim("bucket4", "some-bucket-name-4", &tags_with("bucket4", "prefix-{{ S3Bucket::bucket2::bucketArn }}-suffix")),
            module_bucket_0_0_21(arn()),
        ),
    ];
    let result = validate_claim_modules(&claim_modules);
    assert_eq!(result.is_ok(), false);
    let error = result.unwrap_err();
    if let ModuleError::CircularDependency(circular_dependencies) = error {
        assert_eq!(circular_dependencies.len(), 3);
        assert_eq!(circular_dependencies.contains(&"bucket1".to_string()), true);
        assert_eq!(circular_dependencies.contains(&"bucket2".to_string()), true);
        assert_eq!(circular_dependencies.contains(&"bucket3".to_string()), true);
    } else {
        panic!("Unexpected error variant: {:?}", error);
    }
}

#[test]
fn test_validate_claim_modules_ec2_vpc_dependency_correct_output() {
    let vpc = claim(
        r#"
    apiVersion: infraweave.io/v1
    kind: VPC
    metadata:
      name: vpc1
    spec:
      region: N/A
      moduleVersion: 0.0.1
      variables:
        cidr: "10.0.0.0/16"
    "#,
    );
    let ec2 = claim(
        r#"
    apiVersion: infraweave.io/v1
    kind: EC2
    metadata:
      name: ec2instance
    spec:
      region: N/A
      moduleVersion: 0.0.1
      variables:
        instanceType: "t2.micro"
        vpcId: "{{ VPC::vpc1::vpcId }}"
    "#,
    );
    let module_vpc = module(
        "vpc",
        "VPC",
        "0.0.1",
        vec![var("cidr", "", Some(Value::Text("10.0.0.0/16".to_string())), false, "string")],
        vec![out("vpc_id", "")],
    );
    let module_ec2 = module(
        "ec2",
        "EC2",
        "0.0.1",
        vec![
            var("instance_type", "", Some(Value::Text("t2.micro".to_string())), false, "string"),
            var("vpc_id", "", None, false, "string"),
        ],
        vec![],
    );
    let claim_modules = vec![(vpc, module_vpc), (ec2, module_ec2)];
    let result = validate_claim_modules(&claim_modules);
    assert_eq!(result.is_ok(), true);
}

fn single_var_module() -> ModuleResp {
    module(
        "s3bucket",
        "S3Bucket",
        "0.0.21",
        vec![var("bucket_name", "Name of the S3 bucket", None, false, "string")],
        vec![],
    )
}

#[test]
fn test_validate_claim_modules_nonexisting_variable() {
    let c = claim(
        r#"
        apiVersion: infraweave.io/v1
        kind: S3Bucket
        metadata:
            name: bucket2
        spec:
            region: N/A
            moduleVersion: 0.0.21
            variables:
                bucketName: "some-name"
                someVariableThatDoesNotExist: "some-value"
        "#,
    );
    let result = validate_claim_modules(&vec![(c, single_var_module())]);
    assert_eq!(result.is_err(), true);
    match result {
        Err(ModuleError::ClaimVariableNotFound(claim, variable)) => {
            assert_eq!(claim, "bucket2");
            assert_eq!(variable, "some_variable_that_does_not_exist");
        }
        other => panic!("unexpected result: {:?}", other),
    }
}

#[test]
fn test_validate_claim_modules_nonexisting_variable_wrongcase() {
    let c = claim(
        r#"
        apiVersion: infraweave.io/v1
        kind: S3Bucket
        metadata:
            name: bucket2
        spec:
            region: N/A
            moduleVersion: 0.0.21
            variables:
                bucket_name: "some-name"
        "#,
    );
    let result = validate_claim_modules(&vec![(c, single_var_module())]);
    assert_eq!(result.is_err(), true);
    assert!(matches!(result, Err(ModuleError::ClaimVariableNotCamelCase(_, _))));
}

#[test]
fn claim_modules_need_a_module_version() {
    let c = claim(&CLAIM_S3.replace("moduleVersion: 0.0.21", "reference: x"));
    let result = validate_claim_modules(&vec![(c, single_var_module())]);
    match result {
        Err(ModuleError::ModuleVersionNotSet(name)) => assert_eq!(name, "s3bucket"),
        other => panic!("unexpected result: {:?}", other),
    }
}

const EXPECTED_MODULES: &str = r#"
terraform {
  required_providers {    
      aws = {
        source = "hashicorp/aws"
        version = "5.95.0"
      }
  }
}

module "bucket1a" {
  source = "./s3bucket-0.0.21"

  bucket_name = var.bucket1a__bucket_name
  input_list = var.bucket1a__input_list
  tags = var.bucket1a__tags
}

module "bucket2" {
  source = "./s3bucket-0.0.22"

  bucket_name = "${var.bucket1a__bucket_name}-after"
  input_list = module.bucket1a.list_of_strings
  tags = {
  "Name234" = "my-s3bucket-bucket2"
  "dependentOn" = "prefix-${module.bucket1a.bucket_arn}-suffix"
}
  INFRAWEAVE_MODULE_VERSION = var.INFRAWEAVE_MODULE_VERSION
}"#;

const EXPECTED_VARIABLES: &str = r#"
variable "INFRAWEAVE_MODULE_VERSION" {
  type = string
  description = "This is set by environment variables automatically and should not be set in the claim"
  default = ""
}

variable "bucket1a__bucket_name" {
  type = string
  description = "Name of the S3 bucket"
  nullable = false
  sensitive = false
}

variable "bucket1a__input_list" {
  type = list(string)
  description = "Some arbitrary input list"
  nullable = true
  sensitive = false
}

variable "bucket1a__tags" {
  type = map(string)
  default = {
    "Test" = "hej"
    "AnotherTag" = "something"
  }
  description = "Tags to apply to the S3 bucket"
  nullable = true
  sensitive = false
}"#;

const EXPECTED_OUTPUTS: &str = r#"
output "bucket1a__bucket_arn" {
  value = module.bucket1a.bucket_arn
}

output "bucket1a__list_of_strings" {
  value = module.bucket1a.list_of_strings
}

output "bucket2__bucket_arn" {
  value = module.bucket2.bucket_arn
}

output "bucket2__list_of_strings" {
  value = module.bucket2.list_of_strings
}"#;

#[test]
fn test_generate_terraform_variables() {
    let claim_modules = get_example_claim_modules();
    let variables = collect_module_variables(&claim_modules);
    let outputs = collect_module_outputs(&claim_modules);
    let dependency_map = generate_dependency_map(&variables, &outputs).unwrap();
    let envs = extra_environment_variables(&claim_modules);
    let generated = generate_terraform_variables(&variables, &dependency_map, &envs);
    assert_eq!(generated, EXPECTED_VARIABLES);
}

#[test]
fn test_generate_terraform_outputs() {
    let claim_modules = get_example_claim_modules();
    let outputs = collect_module_outputs(&claim_modules);
    let generated = generate_terraform_outputs(&outputs);
    assert_eq!(generated, EXPECTED_OUTPUTS);
}

#[test]
fn test_generate_terraform_modules() {
    let claim_modules = get_example_claim_modules();
    let variables = collect_module_variables(&claim_modules);
    let outputs = collect_module_outputs(&claim_modules);
    let modules = collect_modules(&claim_modules);
    let dependency_map = generate_dependency_map(&variables, &outputs).unwrap();
    let (generated, providers) = generate_terraform_modules(&modules, &variables, &dependency_map).unwrap();
    assert_eq!(generated, EXPECTED_MODULES);
    assert_eq!(providers.len(), 1);
    assert_eq!(providers[0].version, "5.95.0");
}

#[test]
fn test_generate_full_terraform_module() {
    let claim_modules = get_example_claim_modules();
    let data = generate_full_terraform_module(&claim_modules).unwrap();
    let generated = format!(
        "{}\n{}\n{}",
        data.terraform_module_code, data.terraform_variable_code, data.terraform_output_code
    );
    assert_eq!(generated, format!("{}\n{}\n{}", EXPECTED_MODULES, EXPECTED_VARIABLES, EXPECTED_OUTPUTS));
    assert_eq!(data.tf_extra_environment_variables, vec!["INFRAWEAVE_MODULE_VERSION".to_string()]);
}

fn lock_module(name: &str, required: Vec<(&str, &str)>, locks: Vec<(&str, &str)>) -> ModuleResp {
    let mut m = module(name, name, "1.0.0", vec![], vec![]);
    m.tf_required_providers = required
        .into_iter()
        .map(|(n, s)| TfRequiredProvider { name: n.to_string(), source: s.to_string(), version: ">= 1".to_string() })
        .collect();
    m.tf_lock_providers =
        locks.into_iter().map(|(s, v)| TfLockProvider { source: s.to_string(), version: v.to_string() }).collect();
    m
}

#[test]
fn the_newest_lock_of_each_provider_is_required_whatever_the_order() {
    let modules = vec![
        ("a".to_string(), lock_module("a", vec![("aws", "hashicorp/aws")], vec![("hashicorp/aws", "5.95.0")])),
        (
            "b".to_string(),
            lock_module(
                "b",
                vec![("aws", "hashicorp/aws"), ("random", "hashicorp/random")],
                vec![("hashicorp/aws", "5.81.0"), ("hashicorp/random", "3.6.0")],
            ),
        ),
    ];
    let (code, providers) = generate_terraform_modules(&modules, &vec![], &vec![]).unwrap();
    assert_eq!(providers.len(), 2);
    assert_eq!(providers[0].name, "aws");
    assert_eq!(providers[0].version, "5.95.0");
    assert_eq!(providers[1].name, "random");
    assert_eq!(providers[1].version, "3.6.0");
    assert!(code.starts_with("\nterraform {\n  required_providers {    \n      aws = {"));
}

#[test]
fn a_lock_that_is_not_a_version_is_an_error() {
    let modules = vec![
        ("a".to_string(), lock_module("a", vec![("aws", "hashicorp/aws")], vec![("hashicorp/aws", "5.x")])),
        ("b".to_string(), lock_module("b", vec![("aws", "hashicorp/aws")], vec![("hashicorp/aws", "5.81.0")])),
    ];
    match generate_terraform_modules(&modules, &vec![], &vec![]) {
        Err(ModuleError::InvalidProviderVersion(new, kept)) => {
            assert_eq!(new, "5.81.0");
            assert_eq!(kept, "5.x");
        }
        other => panic!("unexpected result: {:?}", other.map(|(c, _)| c)),
    }
}

#[test]
fn a_locked_provider_that_no_module_requires_is_an_error() {
    let modules = vec![("a".to_string(), lock_module("a", vec![], vec![("hashicorp/aws", "5.81.0")]))];
    match generate_terraform_modules(&modules, &vec![], &vec![]) {
        Err(ModuleError::MissingProviderName(source)) => assert_eq!(source, "hashicorp/aws"),
        other => panic!("unexpected result: {:?}", other.map(|(c, _)| c)),
    }
}

#[test]
fn a_module_block_takes_its_source_from_the_package_key() {
    let mut m = lock_module("s3bucket", vec![], vec![]);
    m.s3_key = "modules/s3bucket/s3bucket-1.2.3.zip.zip".to_string();
    let variables = vec![
        ("bucket__name".to_string(), var("name", "", None, false, "string")),
        ("other__name".to_string(), var("name", "", None, false, "string")),
    ];
    let dependency_map = vec![("bucket__name".to_string(), "module.other.name".to_string())];
    let (code, _) = generate_terraform_modules(&vec![("bucket".to_string(), m)], &variables, &dependency_map).unwrap();
    assert!(code.ends_with("\nmodule \"bucket\" {\n  source = \"./s3bucket-1.2.3\"\n\n  name = module.other.name\n}"));
}

#[test]
fn a_wired_variable_gets_no_variable_block() {
    let variables = vec![
        ("bucket__name".to_string(), var("name", "The name", Some(Value::Text("x".to_string())), false, "string")),
        ("bucket__size".to_string(), var("size", "The size", Some(Value::Number("3".to_string())), true, "number")),
    ];
    let dependency_map = vec![("bucket__name".to_string(), "module.other.name".to_string())];
    let code = generate_terraform_variables(&variables, &dependency_map, &vec![]);
    assert_eq!(
        code,
        "\nvariable \"bucket__size\" {\n  type = number\n  default = 3\n  description = \"The size\"\n  nullable = true\n  sensitive = false\n}"
    );
}

#[test]
fn json_text_writes_compact_json_as_serde_json_does() {
    let v = json(r#"{"Name": "a\"b", "list": [1, true, null], "nested": {"x": "tab\there"}}"#);
    let expected = serde_json::to_string(&to_json(&v)).unwrap();
    assert_eq!(infraweave::json::json_text(&v), expected);
    assert_eq!(
        infraweave::json::json_text(&Value::Text("\u{1}é\\".to_string())),
        serde_json::to_string(&serde_json::Value::String("\u{1}é\\".to_string())).unwrap()
    );
}
