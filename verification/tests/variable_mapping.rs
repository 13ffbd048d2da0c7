use infraweave::mapping::get_variable_mapping;
use infraweave::value::Value;

fn from_json(v: &serde_json::Value) -> Value {
    match v {
        serde_json::Value::Null => Value::Null,
        serde_json::Value::Bool(b) => Value::Bool(*b),
        serde_json::Value::Number(n) => Value::Number(n.to_string()),
        serde_json::Value::String(s) => Value::Text(s.clone()),
        serde_json::Value::Array(items) => Value::List(items.iter().map(from_json).collect()),
        serde_json::Value::Object(m) => Value::Object(m.iter().map(|(k, v)| (k.clone(), from_json(v))).collect()),
    }
}

fn to_json(v: &Value) -> serde_json::Value {
    match v {
        Value::Null => serde_json::Value::Null,
        Value::Bool(b) => serde_json::Value::Bool(*b),
        Value::Number(n) => serde_json::from_str(n).unwrap(),
        Value::Text(s) => serde_json::Value::String(s.clone()),
        Value::List(items) => serde_json::Value::Array(items.iter().map(to_json).collect()),
        Value::Object(entries) => {
            let mut m = serde_json::Map::new();
            for (k, v) in entries {
                m.insert(k.clone(), to_json(v));
            }
            serde_json::Value::Object(m)
        }
    }
}

fn json(text: &str) -> serde_json::Value {
    serde_json::from_str(text).unwrap()
}

#[test]
fn test_module_variable_case_conversion() {
    let variables = json(
        r#"{
            "bucket_name": "some_bucket_name",
            "enable_acl": false,
            "tags": {
                "tag_environment": "some_value1",
                "tag_name": "some_value2"
            }
        }"#,
    );
    let expected_variables = json(
        r#"{
            "bucketName": "some_bucket_name",
            "enableAcl": false,
            "tags": {
                "tag_environment": "some_value1",
                "tag_name": "some_value2"
            }
        }"#,
    );
    assert_eq!(expected_variables, to_json(&get_variable_mapping(false, &from_json(&variables))));
}

#[test]
fn test_stack_variable_case_conversion() {
    let variables = json(
        r#"{
            "bucket1__bucket_name": "some_bucket_name",
            "bucket1__enable_acl": false,
            "bucket1__tags": {
                "tag_environment": "some_value1",
                "tag_name": "some_value2"
            }
        }"#,
    );
    let expected_variables = json(
        r#"{
            "bucket1": {
                "bucketName": "some_bucket_name",
                "enableAcl": false,
                "tags": {
                    "tag_environment": "some_value1",
                    "tag_name": "some_value2"
                }
            }
        }"#,
    );
    assert_eq!(expected_variables, to_json(&get_variable_mapping(true, &from_json(&variables))));
}

#[test]
fn stack_mapping_keeps_plain_keys_and_later_values_win() {
    let variables = Value::Object(vec![
        ("region_name".to_string(), Value::Text("eu".to_string())),
        ("b1__x_y".to_string(), Value::Number("1".to_string())),
        ("b2__z".to_string(), Value::Bool(true)),
        ("b1__x_y".to_string(), Value::Number("2".to_string())),
    ]);
    let r = to_json(&get_variable_mapping(true, &variables));
    assert_eq!(r, json(r#"{"regionName": "eu", "b1": {"xY": 2}, "b2": {"z": true}}"#));
    let m = to_json(&get_variable_mapping(false, &variables));
    assert_eq!(m, json(r#"{"regionName": "eu", "b1XY": 2, "b2Z": true}"#));
}
