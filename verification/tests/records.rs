use cargo_install_upgrade::crateversion::{
    decide, parse_cratesio, manifest_field, CrateVersion, PackageSource, RemoteObservation,
    UpgradeAction,
};
use cargo_install_upgrade::error::UpgradeError;
use cargo_install_upgrade::version::Version;

fn record(name: &str, ver: &str) -> CrateVersion {
    CrateVersion::new_fromstr(name, ver).expect("record should build")
}

#[test]
fn fresh_record_starts_in_sync() {
    let cv = record("demo", "0.4.1");
    assert_eq!(cv.name, "demo");
    assert!(!cv.version.lt(&cv.remote_version));
    assert!(!cv.remote_version.lt(&cv.version));
    assert!(cv.is_cratesio());
    assert!(!cv.new_remote_version());
    assert!(cv.binaries.is_empty());
    assert!(cv.features.is_empty());
}

#[test]
fn fresh_record_rejects_bad_version() {
    assert!(CrateVersion::new_fromstr("demo", "0.4").is_none());
}

#[test]
fn set_repo_syncs_the_commits() {
    let mut cv = record("demo", "0.1.0");
    cv.set_repo("https://example.org/demo.git", "0123456789abcdef");
    match &cv.source {
        PackageSource::Git { url, commit, remote_commit } => {
            assert_eq!(url, "https://example.org/demo.git");
            assert_eq!(commit, remote_commit);
        }
        _ => panic!("source should be git"),
    }
    assert!(!cv.is_cratesio());
}

#[test]
fn set_binaries_and_features_append() {
    let mut cv = record("demo", "0.1.0");
    cv.set_binaries(&vec!["/r/bin/a".to_owned()]);
    cv.set_binaries(&vec!["/r/bin/b".to_owned()]);
    assert_eq!(cv.binaries, vec!["/r/bin/a".to_owned(), "/r/bin/b".to_owned()]);
    cv.set_features(&vec!["tls".to_owned()]);
    assert_eq!(cv.features, vec!["tls".to_owned()]);
}

#[test]
fn new_remote_version_follows_the_ordering() {
    let mut cv = record("demo", "1.2.3");
    cv.remote_version = Version::parse("1.10.0").unwrap();
    assert!(cv.new_remote_version());
    cv.remote_version = Version::parse("1.0.0").unwrap();
    assert!(!cv.new_remote_version());
}

#[test]
fn decision_matrix_all_eight_rows() {
    assert_eq!(decide(true, true, true), UpgradeAction::Upgrade);
    assert_eq!(decide(true, true, false), UpgradeAction::Upgrade);
    assert_eq!(decide(true, false, true), UpgradeAction::Upgrade);
    assert_eq!(decide(true, false, false), UpgradeAction::Upgrade);
    assert_eq!(decide(false, true, false), UpgradeAction::Upgrade);
    assert_eq!(decide(false, false, false), UpgradeAction::SkipNeedsForce);
    assert_eq!(decide(false, true, true), UpgradeAction::SkipUpToDate);
    assert_eq!(decide(false, false, true), UpgradeAction::SkipUpToDate);
}

#[test]
fn search_output_yields_the_quoted_version() {
    let out = "demo = \"0.2.0\"    # a demo tool\ndemons = \"9.9.9\"\n";
    assert_eq!(parse_cratesio("demo", out).unwrap(), "0.2.0");
}

#[test]
fn search_output_picks_the_line_of_the_package() {
    let out = "demons = \"9.9.9\"\ndemo = \"0.3.1\"\n";
    assert_eq!(parse_cratesio("demo", out).unwrap(), "0.3.1");
}

#[test]
fn search_without_the_package_is_no_crate() {
    let out = "other = \"1.0.0\"\n";
    match parse_cratesio("demo", out) {
        Err(UpgradeError::NoCrate(n)) => assert_eq!(n, "demo"),
        _ => panic!("a missing line should report NoCrate"),
    }
}

#[test]
fn search_line_without_quotes_is_a_parse_error() {
    let out = "demo 0.2.0 without quotes\n";
    match parse_cratesio("demo", out) {
        Err(UpgradeError::Parse(w)) => assert_eq!(w, "CratesIo"),
        _ => panic!("a line without a quoted token should report Parse"),
    }
}

#[test]
fn search_output_with_crlf_lines_still_parses() {
    let out = "demons = \"9.9.9\"\r\ndemo = \"0.3.1\"\r\n";
    assert_eq!(parse_cratesio("demo", out).unwrap(), "0.3.1");
}

#[test]
fn error_messages_carry_their_text() {
    assert_eq!(UpgradeError::Parse("CratesIo".to_owned()).message(), "Parse Error CratesIo");
    assert_eq!(UpgradeError::NoCrate("demo".to_owned()).message(), "demo");
    assert_eq!(UpgradeError::general("broken").message(), "broken");
}

#[test]
fn registry_resolution_updates_the_remote_version() {
    let mut cv = record("demo", "0.1.0");
    let obs = RemoteObservation::Registry {
        search_output: "demo = \"0.2.0\"    # a demo tool\n".to_owned(),
    };
    cv.get_remote_version(&obs);
    assert_eq!(cv.remote_version.render(), "0.2.0");
    assert!(cv.new_remote_version());
    assert_eq!(cv.version.render(), "0.1.0");
}

#[test]
fn malformed_search_output_changes_nothing() {
    let mut cv = record("demo", "0.1.0");
    let obs = RemoteObservation::Registry { search_output: "nothing useful here".to_owned() };
    cv.get_remote_version(&obs);
    assert_eq!(cv.remote_version.render(), "0.1.0");
    assert!(!cv.new_remote_version());
}

#[test]
fn unparsable_version_token_changes_nothing() {
    let mut cv = record("demo", "0.1.0");
    let obs = RemoteObservation::Registry { search_output: "demo = \"latest\"\n".to_owned() };
    cv.get_remote_version(&obs);
    assert_eq!(cv.remote_version.render(), "0.1.0");
}

#[test]
fn git_resolution_reads_manifest_and_head() {
    let mut cv = record("demo", "0.1.0");
    cv.set_repo("https://example.org/demo.git", "aaaaaaaaaaaaaaaaaaaaaaaaaaaaaaaaaaaaaaaa");
    let obs = RemoteObservation::Git {
        manifest: Some("{\"name\": \"demo\", \"version\": \"0.5.0\"}".to_owned()),
        head_output: Some(
            "bbbbbbbbbbbbbbbbbbbbbbbbbbbbbbbbbbbbbbbb\tHEAD\n".to_owned(),
        ),
    };
    cv.get_remote_version(&obs);
    assert_eq!(cv.remote_version.render(), "0.5.0");
    match &cv.source {
        PackageSource::Git { commit, remote_commit, .. } => {
            assert_eq!(commit, "aaaaaaaaaaaaaaaaaaaaaaaaaaaaaaaaaaaaaaaa");
            assert_eq!(remote_commit, "bbbbbbbbbbbbbbbbbbbbbbbbbbbbbbbbbbbbbbbb");
        }
        _ => panic!("source should be git"),
    }
}

#[test]
fn failed_clone_changes_nothing() {
    let mut cv = record("demo", "0.1.0");
    cv.set_repo("https://example.org/demo.git", "aaaaaaaaaaaaaaaaaaaaaaaaaaaaaaaaaaaaaaaa");
    let obs = RemoteObservation::Git { manifest: None, head_output: None };
    cv.get_remote_version(&obs);
    assert_eq!(cv.remote_version.render(), "0.1.0");
    match &cv.source {
        PackageSource::Git { commit, remote_commit, .. } => assert_eq!(commit, remote_commit),
        _ => panic!("source should be git"),
    }
}

#[test]
fn short_head_output_keeps_the_commit() {
    let mut cv = record("demo", "0.1.0");
    cv.set_repo("https://example.org/demo.git", "aaaaaaaaaaaaaaaaaaaaaaaaaaaaaaaaaaaaaaaa");
    let obs = RemoteObservation::Git { manifest: None, head_output: Some("short".to_owned()) };
    cv.get_remote_version(&obs);
    match &cv.source {
        PackageSource::Git { remote_commit, .. } => {
            assert_eq!(remote_commit, "aaaaaaaaaaaaaaaaaaaaaaaaaaaaaaaaaaaaaaaa")
        }
        _ => panic!("source should be git"),
    }
}

#[test]
fn local_resolution_reads_the_manifest() {
    let mut cv = record("demo", "0.1.0");
    cv.set_path("/tmp/p");
    let obs = RemoteObservation::Local {
        manifest: Some("{\"version\": \"0.9.0\"}".to_owned()),
    };
    cv.get_remote_version(&obs);
    assert_eq!(cv.remote_version.render(), "0.9.0");
}

#[test]
fn mismatched_observation_changes_nothing() {
    let mut cv = record("demo", "0.1.0");
    let obs = RemoteObservation::Local {
        manifest: Some("{\"version\": \"0.9.0\"}".to_owned()),
    };
    cv.get_remote_version(&obs);
    assert_eq!(cv.remote_version.render(), "0.1.0");
}

#[test]
fn manifest_field_reads_only_string_fields() {
    assert_eq!(
        manifest_field("{\"name\": \"demo\", \"version\": \"1.4.2\"}", "version").unwrap(),
        "1.4.2"
    );
    assert!(manifest_field("{\"version\": 5}", "version").is_err());
    assert!(manifest_field("{\"name\": \"demo\"}", "version").is_err());
    assert!(manifest_field("not json", "version").is_err());
    match manifest_field("[]", "version") {
        Err(UpgradeError::Parse(w)) => assert_eq!(w, "Cargo.toml"),
        _ => panic!("a non-object manifest should report Parse"),
    }
}

#[test]
fn render_writes_the_status_line() {
    let mut cv = record("demo", "0.1.0");
    cv.remote_version = Version::parse("0.2.0").unwrap();
    cv.set_features(&vec!["tls".to_owned(), "cli".to_owned()]);
    assert_eq!(cv.render(), "demo [tls,cli] (0.1.0) -> (0.2.0)");
    let mut git = record("demo2", "1.0.0");
    git.set_repo("https://y", "abc");
    assert_eq!(git.render(), "demo2 [] (1.0.0):abc -> (1.0.0):abc https://y");
    let mut local = record("demo3", "2.0.0");
    local.set_path("/tmp/p");
    assert_eq!(local.render(), "demo3 [] (2.0.0) -> (2.0.0) /tmp/p");
}
