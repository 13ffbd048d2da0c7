use infraweave::changes::should_process_file;
use infraweave::signature::verify_signature;

const SECRET: &str = "my-github-webhook-secret";

const REQUEST: &str = r#"
{
    "headers": {
        "x-hub-signature-256": "sha256=d797845b50ccfea741edebe2bfd841735e7aa265dc6466d1afc0a59616a07d33"
    },
    "version": "2.0",
    "routeKey": "POST /webhook",
    "rawPath": "/webhook",
    "body": "{\"ref\":\"refs/heads/main\",\"before\":\"placeholder_before_commit\",\"after\":\"placeholder_after_commit\",\"repository\":{\"id\":123456789,\"node_id\":\"R_placeholder_node\",\"name\":\"example-repo\",\"full_name\":\"ExampleUser/example-repo\",\"private\":true,\"owner\":{\"name\":\"ExampleUser\",\"email\":\"example@example.com\",\"login\":\"ExampleUser\",\"id\":987654321,\"node_id\":\"U_placeholder\",\"avatar_url\":\"https://avatars.githubusercontent.com/u/987654321?v=4\",\"gravatar_id\":\"\",\"url\":\"https://api.github.com/users/ExampleUser\",\"html_url\":\"https://github.com/ExampleUser\",\"followers_url\":\"https://api.github.com/users/ExampleUser/followers\",\"following_url\":\"https://api.github.com/users/ExampleUser/following{/other_user}\",\"gists_url\":\"https://api.github.com/users/ExampleUser/gists{/gist_id}\",\"starred_url\":\"https://api.github.com/users/ExampleUser/starred{/owner}{/repo}\",\"subscriptions_url\":\"https://api.github.com/users/ExampleUser/subscriptions\",\"organizations_url\":\"https://api.github.com/users/ExampleUser/orgs\",\"repos_url\":\"https://api.github.com/users/ExampleUser/repos\",\"events_url\":\"https://api.github.com/users/ExampleUser/events{/privacy}\",\"received_events_url\":\"https://api.github.com/users/ExampleUser/received_events\",\"type\":\"User\",\"user_view_type\":\"public\",\"site_admin\":false},\"html_url\":\"https://github.com/ExampleUser/example-repo\",\"description\":null,\"fork\":false,\"url\":\"https://github.com/ExampleUser/example-repo\",\"forks_url\":\"https://api.github.com/repos/ExampleUser/example-repo/forks\",\"keys_url\":\"https://api.github.com/repos/ExampleUser/example-repo/keys{/key_id}\",\"collaborators_url\":\"https://api.github.com/repos/ExampleUser/example-repo/collaborators{/collaborator}\",\"teams_url\":\"https://api.github.com/repos/ExampleUser/example-repo/teams\",\"hooks_url\":\"https://api.github.com/repos/ExampleUser/example-repo/hooks\",\"issue_events_url\":\"https://api.github.com/repos/ExampleUser/example-repo/issues/events{/number}\",\"events_url\":\"https://api.github.com/repos/ExampleUser/example-repo/events\",\"assignees_url\":\"https://api.github.com/repos/ExampleUser/example-repo/assignees{/user}\",\"branches_url\":\"https://api.github.com/repos/ExampleUser/example-repo/branches{/branch}\",\"tags_url\":\"https://api.github.com/repos/ExampleUser/example-repo/tags\",\"blobs_url\":\"https://api.github.com/repos/ExampleUser/example-repo/git/blobs{/sha}\",\"git_tags_url\":\"https://api.github.com/repos/ExampleUser/example-repo/git/tags{/sha}\",\"git_refs_url\":\"https://api.github.com/repos/ExampleUser/example-repo/git/refs{/sha}\",\"trees_url\":\"https://api.github.com/repos/ExampleUser/example-repo/git/trees{/sha}\",\"statuses_url\":\"https://api.github.com/repos/ExampleUser/example-repo/statuses/{sha}\",\"languages_url\":\"https://api.github.com/repos/ExampleUser/example-repo/languages\",\"stargazers_url\":\"https://api.github.com/repos/ExampleUser/example-repo/stargazers\",\"contributors_url\":\"https://api.github.com/repos/ExampleUser/example-repo/contributors\",\"subscribers_url\":\"https://api.github.com/repos/ExampleUser/example-repo/subscribers\",\"subscription_url\":\"https://api.github.com/repos/ExampleUser/example-repo/subscription\",\"commits_url\":\"https://api.github.com/repos/ExampleUser/example-repo/commits{/sha}\",\"git_commits_url\":\"https://api.github.com/repos/ExampleUser/example-repo/git/commits{/sha}\",\"comments_url\":\"https://api.github.com/repos/ExampleUser/example-repo/comments{/number}\",\"issue_comment_url\":\"https://api.github.com/repos/ExampleUser/example-repo/issues/comments{/number}\",\"contents_url\":\"https://api.github.com/repos/ExampleUser/example-repo/contents/{+path}\",\"compare_url\":\"https://api.github.com/repos/ExampleUser/example-repo/compare/{base}...{head}\",\"merges_url\":\"https://api.github.com/repos/ExampleUser/example-repo/merges\",\"archive_url\":\"https://api.github.com/repos/ExampleUser/example-repo/{archive_format}{/ref}\",\"downloads_url\":\"https://api.github.com/repos/ExampleUser/example-repo/downloads\",\"issues_url\":\"https://api.github.com/repos/ExampleUser/example-repo/issues{/number}\",\"pulls_url\":\"https://api.github.com/repos/ExampleUser/example-repo/pulls{/number}\",\"milestones_url\":\"https://api.github.com/repos/ExampleUser/example-repo/milestones{/number}\",\"notifications_url\":\"https://api.github.com/repos/ExampleUser/example-repo/notifications{?since,all,participating}\",\"labels_url\":\"https://api.github.com/repos/ExampleUser/example-repo/labels{/name}\",\"releases_url\":\"https://api.github.com/repos/ExampleUser/example-repo/releases{/id}\",\"deployments_url\":\"https://api.github.com/repos/ExampleUser/example-repo/deployments\",\"created_at\":1600000000,\"updated_at\":\"2025-02-25T20:55:48Z\",\"pushed_at\":1600000500,\"git_url\":\"git://github.com/ExampleUser/example-repo.git\",\"ssh_url\":\"git@github.com:ExampleUser/example-repo.git\",\"clone_url\":\"https://github.com/ExampleUser/example-repo.git\",\"svn_url\":\"https://github.com/ExampleUser/example-repo\",\"homepage\":null,\"size\":1234,\"stargazers_count\":10,\"watchers_count\":10,\"language\":\"Rust\",\"has_issues\":true,\"has_projects\":true,\"has_downloads\":true,\"has_wiki\":false,\"has_pages\":false,\"has_discussions\":false,\"forks_count\":2,\"mirror_url\":null,\"archived\":false,\"disabled\":false,\"open_issues_count\":0,\"license\":null,\"allow_forking\":true,\"is_template\":false,\"web_commit_signoff_required\":false,\"topics\":[\"rust\",\"webhook\"],\"visibility\":\"private\",\"forks\":2,\"open_issues\":1,\"watchers\":15,\"default_branch\":\"main\",\"stargazers\":10,\"master_branch\":\"main\"},\"pusher\":{\"name\":\"ExampleUser\",\"email\":\"example@example.com\"},\"sender\":{\"login\":\"ExampleUser\",\"id\":987654321,\"node_id\":\"U_placeholder\",\"avatar_url\":\"https://avatars.githubusercontent.com/u/987654321?v=4\",\"gravatar_id\":\"\",\"url\":\"https://api.github.com/users/ExampleUser\",\"html_url\":\"https://github.com/ExampleUser\",\"followers_url\":\"https://api.github.com/users/ExampleUser/followers\",\"following_url\":\"https://api.github.com/users/ExampleUser/following{/other_user}\",\"gists_url\":\"https://api.github.com/users/ExampleUser/gists{/gist_id}\",\"starred_url\":\"https://api.github.com/users/ExampleUser/starred{/owner}{/repo}\",\"subscriptions_url\":\"https://api.github.com/users/ExampleUser/subscriptions\",\"organizations_url\":\"https://api.github.com/users/ExampleUser/orgs\",\"repos_url\":\"https://api.github.com/users/ExampleUser/repos\",\"events_url\":\"https://api.github.com/users/ExampleUser/events{/privacy}\",\"received_events_url\":\"https://api.github.com/users/ExampleUser/received_events\",\"type\":\"User\",\"user_view_type\":\"public\",\"site_admin\":false},\"installation\":{\"id\":11111111,\"node_id\":\"I_placeholder\"},\"created\":false,\"deleted\":false,\"forced\":false,\"base_ref\":null,\"compare\":\"https://github.com/ExampleUser/example-repo/compare/placeholder_before_commit...placeholder_after_commit\",\"commits\":[{\"id\":\"17a6dafbf2d4c318f16102f8840c5f3c4f9e367c\",\"tree_id\":\"placeholder_tree_id\",\"distinct\":true,\"message\":\"Update README\",\"timestamp\":\"2025-02-25T21:58:49+01:00\",\"url\":\"https://github.com/ExampleUser/example-repo/commit/placeholder_commit_id\",\"author\":{\"name\":\"ExampleUser\",\"email\":\"example@example.com\",\"username\":\"ExampleUser\"},\"committer\":{\"name\":\"GitHub\",\"email\":\"noreply@example.com\",\"username\":\"web-flow\"},\"added\":[],\"removed\":[],\"modified\":[\"README.md\"]}],\"head_commit\":{\"id\":\"17a6dafbf2d4c318f16102f8840c5f3c4f9e367c\",\"tree_id\":\"placeholder_tree_id\",\"distinct\":true,\"message\":\"Update README\",\"timestamp\":\"2025-02-25T21:58:49+01:00\",\"url\":\"https://github.com/ExampleUser/example-repo/commit/placeholder_commit_id\",\"author\":{\"name\":\"ExampleUser\",\"email\":\"example@example.com\",\"username\":\"ExampleUser\"},\"committer\":{\"name\":\"GitHub\",\"email\":\"noreply@example.com\",\"username\":\"web-flow\"},\"added\":[],\"removed\":[],\"modified\":[\"README.md\"]}}",
    "isBase64Encoded": false
}
"#; // Realistic request but some values are removed

#[test]
fn test_github_request_signature_verification() {
    let request: serde_json::Value = serde_json::from_str(REQUEST).unwrap();
    let body_str = request["body"].as_str().unwrap();
    let signature = request["headers"]["x-hub-signature-256"].as_str().unwrap();
    assert_eq!(verify_signature(body_str.as_bytes(), signature, SECRET), true);
}

#[test]
fn signature_is_refused_for_another_body_secret_or_form() {
    let request: serde_json::Value = serde_json::from_str(REQUEST).unwrap();
    let body_str = request["body"].as_str().unwrap();
    let signature = request["headers"]["x-hub-signature-256"].as_str().unwrap();
    let mut other_body = body_str.as_bytes().to_vec();
    other_body.push(b' ');
    assert_eq!(verify_signature(&other_body, signature, SECRET), false);
    assert_eq!(verify_signature(body_str.as_bytes(), signature, "another-secret"), false);
    assert_eq!(verify_signature(body_str.as_bytes(), &signature.to_uppercase(), SECRET), false);
    assert_eq!(verify_signature(body_str.as_bytes(), "", SECRET), false);
    assert_eq!(verify_signature(body_str.as_bytes(), &signature[7..], SECRET), false);
}

#[test]
fn signature_of_a_known_message() {
    // HMAC-SHA256 with key "key" of "The quick brown fox jumps over the lazy dog".
    assert!(verify_signature(
        b"The quick brown fox jumps over the lazy dog",
        "sha256=f7bc83f430538424b13298e6aa6fb143ef4d59a14946175997479dbc2d1a3cd8",
        "key"
    ));
}

#[test]
fn test_should_process_file_yaml_extensions() {
    // Test .yaml extension with no prefix filter
    assert_eq!(should_process_file("deployment.yaml", None), true);
    assert_eq!(should_process_file("infra/config.yaml", None), true);
    assert_eq!(should_process_file("path/to/file.yaml", None), true);

    // Test .yml extension
    assert_eq!(should_process_file("deployment.yml", None), true);
    assert_eq!(should_process_file("infra/config.yml", None), true);
    assert_eq!(should_process_file("path/to/file.yml", None), true);

    // Test non-YAML files
    assert_eq!(should_process_file("README.md", None), false);
    assert_eq!(should_process_file("script.sh", None), false);
    assert_eq!(should_process_file("main.rs", None), false);
    assert_eq!(should_process_file("config.json", None), false);
    assert_eq!(should_process_file("Dockerfile", None), false);
    assert_eq!(should_process_file("file.txt", None), false);
    assert_eq!(should_process_file("infra/README.md", None), false);
}

#[test]
fn test_should_process_file_with_prefix() {
    // Test with "infra/" prefix
    let prefix = Some("infra/");

    // Should process: YAML files in infra/
    assert_eq!(should_process_file("infra/deployment.yaml", prefix), true);
    assert_eq!(should_process_file("infra/config.yml", prefix), true);
    assert_eq!(
        should_process_file("infra/nested/service.yaml", prefix),
        true
    );

    // Should NOT process: YAML files outside infra/
    assert_eq!(should_process_file("deployment.yaml", prefix), false);
    assert_eq!(should_process_file("config.yml", prefix), false);
    assert_eq!(should_process_file("other/deployment.yaml", prefix), false);
    assert_eq!(should_process_file("claims/service.yml", prefix), false);

    // Should NOT process: non-YAML files in infra/
    assert_eq!(should_process_file("infra/README.md", prefix), false);
    assert_eq!(should_process_file("infra/script.sh", prefix), false);
}

#[test]
fn test_should_process_file_with_different_prefixes() {
    // Test with "claims/" prefix
    assert_eq!(
        should_process_file("claims/deployment.yaml", Some("claims/")),
        true
    );
    assert_eq!(
        should_process_file("infra/deployment.yaml", Some("claims/")),
        false
    );
    assert_eq!(
        should_process_file("deployment.yaml", Some("claims/")),
        false
    );

    // Test with nested prefix
    assert_eq!(
        should_process_file("config/production/service.yaml", Some("config/production/")),
        true
    );
    assert_eq!(
        should_process_file("config/service.yaml", Some("config/production/")),
        false
    );
    assert_eq!(
        should_process_file("production/service.yaml", Some("config/production/")),
        false
    );

    // Test with prefix without trailing slash
    assert_eq!(should_process_file("stacks/app.yaml", Some("stacks")), true);
    assert_eq!(
        should_process_file("stacks-old/app.yaml", Some("stacks")),
        true
    ); // starts_with matches
    assert_eq!(
        should_process_file("modules/app.yaml", Some("stacks")),
        false
    );
}

#[test]
fn test_should_process_file_empty_prefix() {
    // Empty prefix should process all YAML files
    assert_eq!(should_process_file("deployment.yaml", Some("")), true);
    assert_eq!(should_process_file("infra/deployment.yaml", Some("")), true);
    assert_eq!(should_process_file("any/path/config.yml", Some("")), true);
    assert_eq!(should_process_file("README.md", Some("")), false);

    // Whitespace-only prefix should also process all YAML files
    assert_eq!(should_process_file("deployment.yaml", Some("   ")), true);
    assert_eq!(
        should_process_file("infra/deployment.yaml", Some("   ")),
        true
    );
}

#[test]
fn test_should_process_file_no_prefix_env_var() {
    // When prefix is None, should process all YAML files
    assert_eq!(should_process_file("deployment.yaml", None), true);
    assert_eq!(should_process_file("infra/deployment.yaml", None), true);
    assert_eq!(should_process_file("claims/service.yml", None), true);
    assert_eq!(should_process_file("any/path/file.yaml", None), true);
    assert_eq!(should_process_file("README.md", None), false);
    assert_eq!(should_process_file("script.sh", None), false);
}

#[test]
fn test_should_process_file_edge_cases() {
    // Files with YAML-like names but wrong extension
    assert_eq!(should_process_file("file.yaml.bak", None), false);
    assert_eq!(should_process_file("yaml.txt", None), false);
    assert_eq!(should_process_file("deployment.yaml.old", None), false);

    // Hidden YAML files
    assert_eq!(should_process_file(".github/workflows/ci.yaml", None), true);
    assert_eq!(should_process_file(".config.yml", None), true);

    // YAML files with no directory
    assert_eq!(should_process_file("config.yaml", None), true);
    assert_eq!(should_process_file("service.yml", None), true);

    // Multiple extensions (only last matters)
    assert_eq!(should_process_file("file.tar.gz", None), false);
    assert_eq!(should_process_file("backup.yaml.gz", None), false);

    // Test with prefix
    assert_eq!(
        should_process_file("infra/.hidden.yaml", Some("infra/")),
        true
    );
    assert_eq!(should_process_file(".hidden.yaml", Some("infra/")), false);
}

#[test]
fn test_should_process_file_cross_boundary_moves() {
    let prefix = Some("infra/");

    // Scenario 1: File moved FROM outside TO inside the prefix
    // Expected: Only the new location is processed (treated as ADD)
    assert_eq!(should_process_file("other/deployment.yaml", prefix), false);
    assert_eq!(should_process_file("infra/deployment.yaml", prefix), true);

    // Scenario 2: File moved FROM inside TO outside the prefix
    // Expected: Only the old location is processed (treated as DELETE)
    assert_eq!(should_process_file("infra/deployment.yaml", prefix), true);
    assert_eq!(should_process_file("other/deployment.yaml", prefix), false);

    // Scenario 3: File moved within the prefix (normal rename)
    // Expected: Both locations match, rename detection works normally
    assert_eq!(should_process_file("infra/old.yaml", prefix), true);
    assert_eq!(should_process_file("infra/new.yaml", prefix), true);

    // Scenario 4: File moved outside the prefix (ignored)
    // Expected: Neither location is processed, entire operation ignored
    assert_eq!(should_process_file("other/old.yaml", prefix), false);
    assert_eq!(should_process_file("other/new.yaml", prefix), false);
}
