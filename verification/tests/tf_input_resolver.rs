use infraweave::manifest::ModuleError;
use infraweave::resolver::{HclExpr, TfInputResolver};
use infraweave::value::Value;
use std::collections::HashSet;

/// How the expression reads in Terraform.
fn format_expr(e: &HclExpr) -> String {
    match e {
        HclExpr::Null => "null".to_string(),
        HclExpr::Bool(b) => b.to_string(),
        HclExpr::Number(n) => n.clone(),
        HclExpr::Str(s) => format!("{:?}", s),
        HclExpr::Traversal(root, attrs) => {
            let mut out = root.clone();
            for a in attrs {
                out.push('.');
                out.push_str(a);
            }
            out
        }
        HclExpr::Quoted(t) => format!("\"{}\"", t),
        HclExpr::Heredoc(t) => format!("<<EOF\n{}\nEOF", t),
        HclExpr::Other(t) => t.clone(),
        HclExpr::Array(items) => format!("[{}]", items.iter().map(format_expr).collect::<Vec<_>>().join(", ")),
        HclExpr::Object(entries) => format!(
            "{{{}}}",
            entries.iter().map(|(k, v)| format!("{} = {}", k, format_expr(v))).collect::<Vec<_>>().join(", ")
        ),
    }
}

fn text(s: &str) -> Value {
    Value::Text(s.to_string())
}

#[test]
fn no_reference_just_converts() {
    let tf_input_resolver = TfInputResolver::new(Vec::with_capacity(0), Vec::with_capacity(0));
    let expr = tf_input_resolver.resolve(text("hello"));
    assert!(expr.is_ok(), "Didn't return a result");
    if let HclExpr::Str(val) = expr.unwrap() {
        assert_eq!("hello".to_string(), val)
    } else {
        panic!("Expression isn't a string")
    }
}

#[test]
fn reference_without_target_throw_error() {
    let tf_input_resolver = TfInputResolver::new(Vec::with_capacity(0), Vec::with_capacity(0));
    let expr = tf_input_resolver.resolve(text("{{ S3Bucket::bucket1a::bucketName }}"));
    assert!(expr.is_err(), "Didn't error out");
    if let ModuleError::UnresolvedReference(reference, seach_key) = expr.err().unwrap() {
        assert_eq!(reference, "{{ S3Bucket::bucket1a::bucketName }}");
        assert_eq!(seach_key, "bucket1a__bucket_name");
    } else {
        panic!("Incorrect error type");
    }
}

#[test]
fn reference_to_output_direct() {
    let tf_input_resolver = TfInputResolver::new(Vec::with_capacity(0), vec![String::from("bucket1a__bucket_name")]);
    let expr = tf_input_resolver.resolve(text("{{ S3Bucket::bucket1a::bucketName }}"));
    assert!(expr.is_ok(), "Didn't return a result");
    let expr = expr.unwrap();
    if let HclExpr::Traversal(_, _) = &expr {
        assert_eq!(format_expr(&expr), "module.bucket1a.bucket_name")
    } else {
        panic!("Didn't return a traversal")
    }
}

#[test]
fn reference_to_output_template() {
    let tf_input_resolver = TfInputResolver::new(Vec::with_capacity(0), vec![String::from("bucket1a__bucket_name")]);
    let expr = tf_input_resolver.resolve(text("{{ S3Bucket::bucket1a::bucketName }}-after"));
    assert!(expr.is_ok(), "Didn't return a result");
    let expr = expr.unwrap();
    if let HclExpr::Quoted(_) = &expr {
        assert_eq!(format_expr(&expr), "\"${module.bucket1a.bucket_name}-after\"")
    } else {
        panic!("Didn't return a template")
    }
}

#[test]
fn reference_to_variable_direct() {
    let tf_input_resolver = TfInputResolver::new(vec![String::from("bucket1a__bucket_name")], Vec::with_capacity(0));
    let expr = tf_input_resolver.resolve(text("{{ S3Bucket::bucket1a::bucketName }}"));
    assert!(expr.is_ok(), "Didn't return a result");
    let expr = expr.unwrap();
    if let HclExpr::Traversal(_, _) = &expr {
        assert_eq!(format_expr(&expr), "var.bucket1a__bucket_name")
    } else {
        panic!("Didn't return a traversal")
    }
}

#[test]
fn reference_to_variable_template() {
    let tf_input_resolver = TfInputResolver::new(vec![String::from("bucket1a__bucket_name")], Vec::with_capacity(0));
    let expr = tf_input_resolver.resolve(text("{{ S3Bucket::bucket1a::bucketName }}-after"));
    assert!(expr.is_ok(), "Didn't return a result");
    let expr = expr.unwrap();
    if let HclExpr::Quoted(_) = &expr {
        assert_eq!(format_expr(&expr), "\"${var.bucket1a__bucket_name}-after\"")
    } else {
        panic!("Didn't return a template")
    }
}

#[test]
fn reference_template_output_and_variable() {
    let tf_input_resolver = TfInputResolver::new(
        vec![String::from("bucket1a__bucket_name")],
        vec![String::from("bucket1b__bucket_name")],
    );
    let expr = tf_input_resolver
        .resolve(text("{{ S3Bucket::bucket1a::bucketName }}-{{ S3Bucket::bucket1b::bucketName }}"));
    assert!(expr.is_ok(), "Didn't return a result");
    let expr = expr.unwrap();
    if let HclExpr::Quoted(_) = &expr {
        assert_eq!(format_expr(&expr), "\"${var.bucket1a__bucket_name}-${module.bucket1b.bucket_name}\"")
    } else {
        panic!("Didn't return a template")
    }
}

#[test]
fn reference_in_yaml_mapping() {
    let tf_input_resolver = TfInputResolver::new(
        vec![String::from("bucket1a__bucket_name")],
        vec![String::from("bucket1b__bucket_name")],
    );
    let expr = tf_input_resolver.resolve(Value::Object(vec![
        ("from_var".to_string(), text("{{ S3Bucket::bucket1a::bucketName }}-should_be_variable")),
        ("from_output".to_string(), text("{{ S3Bucket::bucket1b::bucketName }}-should_be_output")),
    ]));
    assert!(expr.is_ok(), "Didn't return a result");
    if let HclExpr::Object(map) = expr.unwrap() {
        let get = |k: &str| map.iter().find(|(key, _)| key == k).map(|(_, v)| v).unwrap();
        if let HclExpr::Quoted(_) = get("from_var") {
            assert_eq!(format_expr(get("from_var")), "\"${var.bucket1a__bucket_name}-should_be_variable\"");
        } else {
            panic!("Didn't return Template for key \"from_var\"");
        }
        if let HclExpr::Quoted(_) = get("from_output") {
            assert_eq!(format_expr(get("from_output")), "\"${module.bucket1b.bucket_name}-should_be_output\"");
        } else {
            panic!("Didn't return Template for key \"from_output\"");
        }
    } else {
        panic!("Didn't return an object");
    }
}

#[test]
fn reference_in_yaml_list() {
    let tf_input_resolver = TfInputResolver::new(
        vec![String::from("bucket1a__bucket_name")],
        vec![String::from("bucket1b__bucket_name")],
    );
    let expr = tf_input_resolver.resolve(Value::List(vec![
        text("{{ S3Bucket::bucket1a::bucketName }}-should_be_variable"),
        text("{{ S3Bucket::bucket1b::bucketName }}-should_be_output"),
    ]));
    assert!(expr.is_ok(), "Didn't return a result");
    if let HclExpr::Array(arr) = expr.unwrap() {
        assert_eq!(
            arr.iter().map(format_expr).collect::<HashSet<String>>(),
            HashSet::from_iter(vec![
                "\"${var.bucket1a__bucket_name}-should_be_variable\"".to_string(),
                "\"${module.bucket1b.bucket_name}-should_be_output\"".to_string()
            ])
        );
    } else {
        panic!("Didn't return an array");
    }
}

#[test]
fn reference_in_multiline_string() {
    let tf_input_resolver = TfInputResolver::new(Vec::with_capacity(0), vec![String::from("s3bucket__bucket_arn")]);
    let policy_json = r#"{
  "Version": "2012-10-17",
  "Statement": [
    {
      "Effect": "Allow",
      "Action": "s3:ListBucket",
      "Resource": "{{ S3Bucket::s3bucket::bucketArn }}"
    }
  ]
}"#;
    let expr = tf_input_resolver.resolve(text(policy_json));
    assert!(expr.is_ok(), "Didn't return a result");
    match expr.unwrap() {
        HclExpr::Heredoc(template) => {
            assert!(template.contains("${module.s3bucket.bucket_arn}"), "got: {}", template);
            assert!(template.contains("s3:ListBucket"), "got: {}", template);
            assert!(template.contains('\n'));
        }
        HclExpr::Quoted(_) => panic!("Multiline strings with references must use a heredoc"),
        other => panic!("Expected a template, got: {:?}", other),
    }
}

#[test]
fn stack_variables_resolve_to_stack_prefixed_variables() {
    let resolver = TfInputResolver::new(vec![String::from("stack__bucket_prefix")], vec![]);
    let direct = resolver.resolve(text("{{ Stack::variables::bucketPrefix }}")).unwrap();
    assert_eq!(format_expr(&direct), "var.stack__bucket_prefix");
    let templ = resolver.resolve(text("{{ Stack::variables::bucketPrefix }}-x")).unwrap();
    assert_eq!(format_expr(&templ), "\"${var.stack__bucket_prefix}-x\"");
    match resolver.resolve(text("{{ Stack::variables::other }}")) {
        Err(ModuleError::UnresolvedReference(reference, key)) => {
            assert_eq!(reference, "{{ Stack::variables::other }}");
            assert_eq!(key, "stack__other");
        }
        other => panic!("unexpected result: {:?}", other),
    }
}

#[test]
fn scalars_pass_through_and_names_are_prefixed() {
    let resolver = TfInputResolver::new(vec![], vec![]);
    assert!(matches!(resolver.resolve(Value::Null), Ok(HclExpr::Null)));
    assert!(matches!(resolver.resolve(Value::Bool(true)), Ok(HclExpr::Bool(true))));
    match resolver.resolve(Value::Number("42".to_string())) {
        Ok(HclExpr::Number(n)) => assert_eq!(n, "42"),
        other => panic!("unexpected result: {:?}", other),
    }
    assert_eq!(TfInputResolver::prefix_name("bucketOne", "bucket_name"), "bucket_one__bucket_name");
}
