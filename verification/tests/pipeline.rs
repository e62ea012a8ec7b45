//! End-to-end tests of `process_hcl`: conversion, projection, formatting,
//! quote style, merging and validation over named document texts.
use hcl2json::{process_hcl, Config, Document, Error};

fn config() -> Config {
    Config {
        pretty: false,
        indent: 2,
        validate: false,
        single_quotes: false,
        deep_merge: false,
        property: None,
    }
}

fn terraform_tfvars() -> &'static str {
    r#"
region = "us-west-2"
instance_type = "t3.micro"
enable_monitoring = true
tags = {
  Environment = "production"
  Project = "web-app"
}
database = {
  engine = "mysql"
  version = "8.0"
}
"#
}

fn doc(name: &str, text: &str) -> Document {
    Document {
        name: name.to_string(),
        text: text.to_string(),
    }
}

#[test]
fn test_entire_file_conversion() {
    let out = process_hcl(config(), vec![doc("test_data/terraform.tfvars", terraform_tfvars())], None)
        .unwrap();
    assert!(out.contains("region"));
    assert!(out.contains("us-west-2"));
    assert!(out.contains("instance_type"));
    assert!(out.contains("t3.micro"));
    assert!(out.contains("enable_monitoring"));
}

#[test]
fn test_single_property_extraction() {
    let mut cfg = config();
    cfg.property = Some("tags".to_string());
    let out = process_hcl(cfg, vec![doc("test_data/terraform.tfvars", terraform_tfvars())], None)
        .unwrap();
    assert!(out.contains("Environment"));
    assert!(out.contains("production"));
    assert!(out.contains("Project"));
    assert!(out.contains("web-app"));
    assert_eq!(out, r#"{"Environment":"production","Project":"web-app"}"#);
}

#[test]
fn test_nested_property_extraction() {
    let mut cfg = config();
    cfg.property = Some("database.engine".to_string());
    let out = process_hcl(cfg, vec![doc("test_data/terraform.tfvars", terraform_tfvars())], None)
        .unwrap();
    assert_eq!(out, "\"mysql\"");
}

#[test]
fn test_pretty_format() {
    let mut cfg = config();
    cfg.pretty = true;
    cfg.property = Some("tags".to_string());
    let out = process_hcl(cfg, vec![doc("test_data/terraform.tfvars", terraform_tfvars())], None)
        .unwrap();
    assert!(out.contains("  \"Environment\": \"production\""));
    assert_eq!(
        out,
        "{\n  \"Environment\": \"production\",\n  \"Project\": \"web-app\"\n}"
    );
}

#[test]
fn test_single_quotes() {
    let mut cfg = config();
    cfg.single_quotes = true;
    cfg.property = Some("region".to_string());
    let out = process_hcl(cfg, vec![doc("test_data/terraform.tfvars", terraform_tfvars())], None)
        .unwrap();
    assert_eq!(out, "'us-west-2'");
}

#[test]
fn test_stdin_input() {
    let mut cfg = config();
    cfg.property = Some("tags".to_string());
    let out = process_hcl(cfg, vec![], Some(terraform_tfvars().to_string())).unwrap();
    assert!(out.contains("Environment"));
    assert!(out.contains("production"));
    assert!(out.contains("Project"));
    assert!(out.contains("web-app"));
}

#[test]
fn test_validation_mode_valid() {
    let mut cfg = config();
    cfg.validate = true;
    let out = process_hcl(cfg, vec![doc("test_data/terraform.tfvars", terraform_tfvars())], None)
        .unwrap();
    assert!(out.contains("VALID: test_data/terraform.tfvars"));
}

#[test]
fn test_validation_mode_invalid() {
    let mut cfg = config();
    cfg.validate = true;
    let err = process_hcl(
        cfg,
        vec![doc("test_data/malformed.hcl", "invalid hcl content {{{")],
        None,
    )
    .unwrap_err();
    match &err {
        Error::Validation { report } => {
            assert!(report.contains("INVALID: test_data/malformed.hcl"));
        }
        _ => panic!("expected a validation failure"),
    }
    assert_eq!(
        err.message(),
        "Validation failed: one or more files contain invalid HCL"
    );
}

#[test]
fn test_custom_indentation() {
    let mut cfg = config();
    cfg.pretty = true;
    cfg.indent = 4;
    cfg.property = Some("tags".to_string());
    let out = process_hcl(cfg, vec![doc("test_data/terraform.tfvars", terraform_tfvars())], None)
        .unwrap();
    assert!(out.contains("    \"Environment\": \"production\""));
    assert_eq!(
        out,
        "{\n    \"Environment\": \"production\",\n    \"Project\": \"web-app\"\n}"
    );
}

#[test]
fn test_merge_multiple_files() {
    let network = "vpc_cidr = \"10.0.0.0/16\"\n";
    let out = process_hcl(
        config(),
        vec![
            doc("test_data/terraform.tfvars", terraform_tfvars()),
            doc("test_data/network.tfvars", network),
        ],
        None,
    )
    .unwrap();
    assert!(out.contains("region"));
    assert!(out.contains("us-west-2"));
    assert!(out.contains("vpc_cidr"));
    assert!(out.contains("10.0.0.0/16"));
}

#[test]
fn test_property_not_found_error() {
    let mut cfg = config();
    cfg.property = Some("nonexistent".to_string());
    let err = process_hcl(cfg, vec![doc("test_data/terraform.tfvars", terraform_tfvars())], None)
        .unwrap_err();
    let msg = err.message();
    assert!(msg.contains("Property 'nonexistent' not found"));
    assert!(msg.contains("available properties:"));
}

#[test]
fn test_deep_merge_multiple_files() {
    let config1 = r#"
app_settings = {
  timeout = 30
  retries = 3
}
shared_config = {
  database = {
    engine = "mysql"
  }
  logging = {
    level = "info"
  }
}
"#;
    let config2 = r#"
network_settings = {
  vpc_cidr = "10.0.0.0/16"
}
shared_config = {
  cache = {
    type = "redis"
  }
  monitoring = {
    enabled = true
  }
}
"#;
    let mut cfg = config();
    cfg.deep_merge = true;
    let out = process_hcl(
        cfg,
        vec![
            doc("test_data/config1.tfvars", config1),
            doc("test_data/config2.tfvars", config2),
        ],
        None,
    )
    .unwrap();
    assert!(out.contains("app_settings"));
    assert!(out.contains("timeout"));
    assert!(out.contains("30"));
    assert!(out.contains("network_settings"));
    assert!(out.contains("vpc_cidr"));
    assert!(out.contains("10.0.0.0/16"));
    // the shared object keeps both sides' nested sections
    let parsed: serde_json::Value = serde_json::from_str(&out).unwrap();
    let shared = &parsed["shared_config"];
    assert_eq!(shared["database"]["engine"], serde_json::Value::String("mysql".to_string()));
    assert_eq!(shared["logging"]["level"], serde_json::Value::String("info".to_string()));
    assert_eq!(shared["cache"]["type"], serde_json::Value::String("redis".to_string()));
    assert_eq!(shared["monitoring"]["enabled"], serde_json::Value::Bool(true));
}

#[test]
fn test_single_quotes_with_embedded_quotes() {
    let quotes = "message = \"He said \\\"Hello World\\\" to everyone\"\n";
    let mut cfg = config();
    cfg.single_quotes = true;
    cfg.property = Some("message".to_string());
    let out = process_hcl(cfg, vec![doc("test_data/quotes.tfvars", quotes)], None).unwrap();
    assert_eq!(out, "'He said \\\"Hello World\\\" to everyone'");
}

#[test]
fn numbers_keep_their_integer_or_float_form() {
    let out = process_hcl(config(), vec![doc("nums.tfvars", "x = 2.5\ny = 10\nz = -3\n")], None)
        .unwrap();
    assert_eq!(out, r#"{"x":2.5,"y":10,"z":-3}"#);
}

#[test]
fn arrays_keep_order() {
    let out = process_hcl(config(), vec![doc("arr.tfvars", "xs = [3, 1, 2]\n")], None).unwrap();
    assert_eq!(out, r#"{"xs":[3,1,2]}"#);
}

#[test]
fn empty_property_is_identity() {
    let mut cfg = config();
    cfg.property = Some(String::new());
    let out = process_hcl(cfg, vec![doc("one.tfvars", "x = 1\n")], None).unwrap();
    assert_eq!(out, r#"{"x":1}"#);
}

#[test]
fn no_input_errors() {
    let err = process_hcl(config(), vec![], None).unwrap_err();
    assert_eq!(err.message(), "No input provided");
    let mut cfg = config();
    cfg.validate = true;
    let err = process_hcl(cfg, vec![], None).unwrap_err();
    assert_eq!(err.message(), "No files or input provided for validation");
}

#[test]
fn parse_error_names_document_and_line_count() {
    let err = process_hcl(config(), vec![doc("bad.hcl", "a = {\nb = \n")], None).unwrap_err();
    assert_eq!(
        err.message(),
        "Failed to parse HCL in bad.hcl: syntax error (file has 2 lines)"
    );
}

#[test]
fn shallow_merge_of_two_objects_succeeds() {
    let a = "x = 1\n";
    let merged = process_hcl(
        config(),
        vec![doc("one.tfvars", a), doc("two.tfvars", a)],
        None,
    );
    assert_eq!(merged.unwrap(), r#"{"x":1}"#);
}

#[test]
fn validation_reports_every_input_in_order() {
    // three named inputs, the second malformed: all reported, overall failure
    let mut cfg = config();
    cfg.validate = true;
    let err = process_hcl(
        cfg,
        vec![
            doc("first.tfvars", "a = 1\n"),
            doc("second.tfvars", "this is { not hcl"),
            doc("third.tfvars", "c = 3\n"),
        ],
        None,
    )
    .unwrap_err();
    match err {
        Error::Validation { report } => {
            let first = report.find("VALID: first.tfvars").unwrap();
            let second = report.find("INVALID: second.tfvars").unwrap();
            let third = report.find("VALID: third.tfvars").unwrap();
            assert!(first < second && second < third);
        }
        _ => panic!("expected a validation failure"),
    }

    // the per-input verdicts themselves: all three recorded, in input order
    let docs = vec![
        doc("first.tfvars", "a = 1\n"),
        doc("second.tfvars", "this is { not hcl"),
        doc("third.tfvars", "c = 3\n"),
    ];
    let (entries, all_valid) = hcl2json::validate(&docs);
    assert!(!all_valid);
    assert_eq!(entries.len(), 3);
    assert_eq!(entries[0].name, "first.tfvars");
    assert!(entries[0].error.is_none());
    assert_eq!(entries[1].name, "second.tfvars");
    assert!(entries[1].error.is_some());
    assert_eq!(entries[2].name, "third.tfvars");
    assert!(entries[2].error.is_none());
}
