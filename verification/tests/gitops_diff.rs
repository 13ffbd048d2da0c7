use infraweave::changes::{
    file_status_kind, filter_changes_by_prefixes, is_yaml_file, parse_changed_files,
    parse_path_prefixes, reads_content_after, reads_content_before, should_process_file, FileChange, FileStatusKind, ProcessedFiles,
};

fn owned(pairs: &[(&str, &str)]) -> Vec<(String, String)> {
    pairs.iter().map(|(a, b)| (a.to_string(), b.to_string())).collect()
}

#[test]
fn test_path_prefix_filtering() {
    let files = owned(&[
        ("A", "claims/bucket.yaml"),
        ("A", "modules/vpc.yaml"),
        ("A", "stacks/infrastructure.yaml"),
        ("A", "docs/README.md"),
    ]);

    // FILE_PATH_PREFIX="claims/,modules/"
    let prefixes = parse_path_prefixes("claims/,modules/");
    assert_eq!(prefixes, vec!["claims/".to_string(), "modules/".to_string()]);

    let filtered = filter_changes_by_prefixes(files, &prefixes);

    assert_eq!(filtered.len(), 2);
    assert!(filtered.iter().any(|(_, p)| p.contains("claims/bucket.yaml")));
    assert!(filtered.iter().any(|(_, p)| p.contains("modules/vpc.yaml")));
    assert!(!filtered.iter().any(|(_, p)| p.contains("stacks/")));
    assert!(!filtered.iter().any(|(_, p)| p.contains("docs/")));
}

#[test]
fn test_file_status_classification() {
    let statuses = vec![("A", true), ("M", true), ("D", false), ("R", false)];

    for (status, should_be_active) in statuses {
        let kind = file_status_kind(status);
        let is_active = matches!(kind, FileStatusKind::Added | FileStatusKind::Modified);
        assert_eq!(is_active, should_be_active);
    }
    assert_eq!(file_status_kind("D"), FileStatusKind::Deleted);
    assert_eq!(file_status_kind("R"), FileStatusKind::Ignored);
}

#[test]
fn test_file_change_structure() {
    let file = FileChange {
        path: "claims/test.yaml".to_string(),
        content: "apiVersion: infraweave.io/v1\nkind: S3Bucket".to_string(),
    };

    assert_eq!(file.path, "claims/test.yaml");
    assert!(file.content.contains("apiVersion"));
}

#[test]
fn test_processed_files_empty() {
    let processed = ProcessedFiles { active_files: vec![], deleted_files: vec![] };

    assert_eq!(processed.active_files.len(), 0);
    assert_eq!(processed.deleted_files.len(), 0);
}

#[test]
fn test_processed_files_with_data() {
    let active = FileChange {
        path: "claims/bucket.yaml".to_string(),
        content: "apiVersion: infraweave.io/v1\nkind: S3Bucket".to_string(),
    };

    let deleted = FileChange {
        path: "claims/old-bucket.yaml".to_string(),
        content: "apiVersion: infraweave.io/v1\nkind: S3Bucket".to_string(),
    };

    let processed = ProcessedFiles { active_files: vec![active], deleted_files: vec![deleted] };

    assert_eq!(processed.active_files.len(), 1);
    assert_eq!(processed.deleted_files.len(), 1);
    assert_eq!(processed.active_files[0].path, "claims/bucket.yaml");
    assert_eq!(processed.deleted_files[0].path, "claims/old-bucket.yaml");
}

#[test]
fn test_parse_git_diff_output() {
    let diff_output = "A\tclaims/new-bucket.yaml\nM\tclaims/existing-bucket.yaml\nD\tclaims/old-bucket.yaml\nM\tREADME.md\n";

    let changes = parse_changed_files(diff_output);

    assert_eq!(changes.len(), 3);
    assert_eq!(changes[0], ("A".to_string(), "claims/new-bucket.yaml".to_string()));
    assert_eq!(changes[1], ("M".to_string(), "claims/existing-bucket.yaml".to_string()));
    assert_eq!(changes[2], ("D".to_string(), "claims/old-bucket.yaml".to_string()));
}

#[test]
fn test_yaml_file_filter() {
    let files = ["claims/bucket.yaml", "claims/bucket.yml", "README.md", "claims/test.txt"];

    let yaml_files: Vec<&str> = files.iter().filter(|f| is_yaml_file(f)).copied().collect();

    assert_eq!(yaml_files.len(), 2);
    assert!(yaml_files.contains(&"claims/bucket.yaml"));
    assert!(yaml_files.contains(&"claims/bucket.yml"));
}

#[test]
fn parse_changed_files_skips_lines_without_a_path() {
    let changes = parse_changed_files("A\n\nM\tx.yml\r\nR100\ta.yaml\tb.yaml\n");
    assert_eq!(
        changes,
        vec![("M".to_string(), "x.yml".to_string())]
    );
}

#[test]
fn blank_prefix_filter_processes_every_yaml_file() {
    assert!(should_process_file("a/b.yaml", Some("  \t ")));
    assert!(!should_process_file("a/b.json", Some("")));
    assert!(should_process_file("infra/x.yml", Some(" infra/ ")));
}

#[test]
fn parse_changed_files_keeps_only_added_modified_and_deleted() {
    let diff_output = "A\tclaims/new-bucket.yaml\nM\tREADME.md\nR100\tclaims/old.yaml\tclaims/renamed.yaml\nC75\tclaims/a.yaml\tclaims/b.yaml\nD\tclaims/gone.yml\n";
    let changes = parse_changed_files(diff_output);
    assert_eq!(
        changes,
        vec![
            ("A".to_string(), "claims/new-bucket.yaml".to_string()),
            ("D".to_string(), "claims/gone.yml".to_string()),
        ]
    );
}

#[test]
fn which_contents_of_a_change_are_read() {
    assert!(reads_content_after("A") && reads_content_after("M"));
    assert!(!reads_content_after("D") && !reads_content_after("R100"));
    assert!(reads_content_before("D", false));
    assert!(reads_content_before("M", true) && !reads_content_before("M", false));
    assert!(!reads_content_before("A", true));
}
