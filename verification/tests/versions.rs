use infraweave::infra::{
    deprecation_latest_check, deprecation_precheck, is_busy_status, progress_after_job, progress_after_lookup, ProgressStep,
};
use infraweave::versions::{check_version_against_latest, VersionCheck, VersionCheckError};

#[test]
fn unreleased_versions_are_not_checked() {
    let r = check_version_against_latest("Module", "0.0.0-dev", Some("dev"), Some("1.2.3"));
    assert!(matches!(r, Ok(VersionCheck::Unreleased)));
}

#[test]
fn the_first_version_of_a_track_passes() {
    let r = check_version_against_latest("Module", "1.0.0", Some("stable"), None);
    assert!(matches!(r, Ok(VersionCheck::First)));
}

#[test]
fn a_newer_version_passes() {
    let r = check_version_against_latest("Module", "1.2.0", Some("stable"), Some("1.1.9"));
    assert!(matches!(r, Ok(VersionCheck::Newer)));
    let r = check_version_against_latest("Module", "1.0.0", Some("stable"), Some("1.0.0-rc.1"));
    assert!(matches!(r, Ok(VersionCheck::Newer)));
}

#[test]
fn the_same_version_with_another_build_passes() {
    let r = check_version_against_latest("Module", "1.0.0+build.2", Some("dev"), Some("1.0.0+build.1"));
    assert!(matches!(r, Ok(VersionCheck::Newer)));
}

#[test]
fn the_same_version_and_build_is_refused() {
    let r = check_version_against_latest("Stack", "1.0.0+b1", Some("dev"), Some("1.0.0+b1"));
    match r {
        Err(e) => {
            assert!(matches!(e, VersionCheckError::AlreadyExists(_, _, _)));
            assert_eq!(e.message(), "Stack version 1.0.0+b1 already exists in track dev");
        }
        Ok(_) => panic!("expected an error"),
    }
}

#[test]
fn an_older_version_is_refused() {
    let r = check_version_against_latest("Provider", "1.0.0", None, Some("1.2.0"));
    match r {
        Err(e) => {
            assert!(matches!(e, VersionCheckError::OlderThanLatest(_, _, _, None)));
            assert_eq!(e.message(), "Provider version 1.0.0 is older than the latest version 1.2.0");
        }
        Ok(_) => panic!("expected an error"),
    }
}

#[test]
fn a_version_that_is_not_semver_is_refused() {
    let r = check_version_against_latest("Module", "1.0", Some("dev"), Some("1.2.0"));
    match r {
        Err(VersionCheckError::InvalidVersion(v)) => assert_eq!(v, "1.0"),
        _ => panic!("expected an invalid version"),
    }
    let r = check_version_against_latest("Module", "1.0.1", Some("dev"), Some("latest"));
    match r {
        Err(VersionCheckError::InvalidVersion(v)) => assert_eq!(v, "latest"),
        _ => panic!("expected an invalid version"),
    }
}

#[test]
fn busy_statuses_are_requested_and_initiated() {
    assert!(is_busy_status("requested"));
    assert!(is_busy_status("initiated"));
    assert!(!is_busy_status("successful"));
    assert!(!is_busy_status("Requested"));
}

#[test]
fn a_missing_deployment_is_not_in_progress() {
    match progress_after_lookup(None, true) {
        ProgressStep::Done(p) => {
            assert!(!p.in_progress);
            assert!(!p.found);
            assert_eq!(p.status, "");
        }
        ProgressStep::AskJob => panic!("nothing to ask"),
    }
}

#[test]
fn a_busy_deployment_is_in_progress_unless_its_job_stopped() {
    match progress_after_lookup(Some(("requested", "job-1")), false) {
        ProgressStep::Done(p) => {
            assert!(p.in_progress);
            assert_eq!(p.job_id, "job-1");
        }
        ProgressStep::AskJob => panic!("no job check was asked for"),
    }
    assert!(matches!(progress_after_lookup(Some(("initiated", "job-1")), true), ProgressStep::AskJob));
    let stopped = progress_after_job("initiated", "job-1", Some(false));
    assert!(!stopped.in_progress);
    assert_eq!(stopped.job_id, "");
    assert_eq!(stopped.status, "initiated");
    let running = progress_after_job("initiated", "job-1", Some(true));
    assert!(running.in_progress);
    let unknown = progress_after_job("initiated", "job-1", None);
    assert!(unknown.in_progress);
    assert_eq!(unknown.job_id, "job-1");
}

#[test]
fn an_idle_deployment_is_not_in_progress() {
    match progress_after_lookup(Some(("successful", "job-9")), true) {
        ProgressStep::Done(p) => {
            assert!(!p.in_progress);
            assert_eq!(p.job_id, "");
            assert_eq!(p.status, "successful");
            assert!(p.found);
        }
        ProgressStep::AskJob => panic!("not busy"),
    }
}

#[test]
fn only_an_existing_version_that_is_not_deprecated_may_be_deprecated() {
    assert_eq!(
        deprecation_precheck(false, "s3bucket", "1.0.0", "stable", None),
        Err("Module s3bucket version 1.0.0 not found in track stable".to_string())
    );
    assert_eq!(
        deprecation_precheck(true, "network", "1.0.0", "stable", Some(true)),
        Err("Stack network version 1.0.0 is already deprecated".to_string())
    );
    assert_eq!(deprecation_precheck(true, "network", "1.0.0", "stable", Some(false)), Ok(()));
}

#[test]
fn the_newest_version_may_not_be_deprecated() {
    assert_eq!(
        deprecation_latest_check(false, "s3bucket", "1.2.0", "dev", Some("1.2.0")),
        Err("Cannot deprecate the latest version (1.2.0) of module s3bucket in track dev.\nPlease publish a new version that resolves the issue before deprecating this version.".to_string())
    );
    assert_eq!(deprecation_latest_check(true, "network", "1.1.0", "dev", Some("1.2.0")), Ok(()));
    assert_eq!(deprecation_latest_check(true, "network", "1.1.0", "dev", None), Ok(()));
}
