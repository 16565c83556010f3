use cargo_install_upgrade::config::{Config, PackageMode};
use cargo_install_upgrade::crateversion::PackageSource;
use cargo_install_upgrade::error::UpgradeError;
use cargo_install_upgrade::inventory::read_installed_packages;

fn config(root: &str) -> Config {
    Config {
        upgrade: true,
        force: false,
        verbose: false,
        mode: PackageMode::All,
        cpath: root.to_owned(),
    }
}

const GIT_COMMIT: &str = "0123456789abcdef0123456789abcdef01234567";

#[test]
fn legacy_document_yields_three_typed_records() {
    let doc = format!(
        "[v1]\n\
         \"demo 0.1.0 (registry+https://x)\" = [\"demo\"]\n\
         \"demo2 0.2.0 (git+https://y#{})\" = [\"demo2\"]\n\
         \"demo3 0.3.0 (path+file:///tmp/p)\" = [\"demo3\"]\n",
        GIT_COMMIT
    );
    let cfg = config("/root/.cargo");
    let records = read_installed_packages(&cfg, None, Some(&doc), false).unwrap();
    assert_eq!(records.len(), 3);

    assert_eq!(records[0].name, "demo");
    assert_eq!(records[0].version.render(), "0.1.0");
    assert!(matches!(records[0].source, PackageSource::CratesIo));
    assert_eq!(records[0].binaries, vec!["/root/.cargo/bin/demo".to_owned()]);

    assert_eq!(records[1].name, "demo2");
    assert_eq!(records[1].version.render(), "0.2.0");
    match &records[1].source {
        PackageSource::Git { url, commit, remote_commit } => {
            assert_eq!(url, "https://y");
            assert_eq!(commit, GIT_COMMIT);
            assert_eq!(remote_commit, GIT_COMMIT);
        }
        _ => panic!("second record should be a git source"),
    }
    assert_eq!(records[1].binaries, vec!["/root/.cargo/bin/demo2".to_owned()]);

    assert_eq!(records[2].name, "demo3");
    match &records[2].source {
        PackageSource::Local { path } => assert_eq!(path, "/tmp/p"),
        _ => panic!("third record should be a local source"),
    }
    assert_eq!(records[2].binaries, vec!["/root/.cargo/bin/demo3".to_owned()]);
}

#[test]
fn structured_document_yields_records_with_features() {
    let doc = "{\n  \"installs\": {\n    \"demo 0.1.0 (registry+https://x)\": {\n      \"bins\": [\"demo\", \"demo-helper\"],\n      \"features\": [\"tls\"]\n    }\n  }\n}";
    let cfg = config("/r");
    let records = read_installed_packages(&cfg, Some(doc), None, false).unwrap();
    assert_eq!(records.len(), 1);
    assert_eq!(records[0].name, "demo");
    assert_eq!(
        records[0].binaries,
        vec!["/r/bin/demo".to_owned(), "/r/bin/demo-helper".to_owned()]
    );
    assert_eq!(records[0].features, vec!["tls".to_owned()]);
    assert_eq!(records[0].remote_version.render(), records[0].version.render());
}

#[test]
fn structured_document_wins_over_legacy() {
    let structured = "{\"installs\": {\"a 1.0.0 (registry+https://x)\": {\"bins\": []}}}";
    let legacy = "\"b 1.0.0 (registry+https://x)\" = []\n";
    let cfg = config("/r");
    let records = read_installed_packages(&cfg, Some(structured), Some(legacy), false).unwrap();
    assert_eq!(records.len(), 1);
    assert_eq!(records[0].name, "a");
}

#[test]
fn missing_documents_fail_the_read() {
    let cfg = config("/r");
    match read_installed_packages(&cfg, None, None, false) {
        Err(UpgradeError::Gen(m)) => assert_eq!(m, "inventory not found"),
        _ => panic!("no document at all should fail"),
    }
}

#[test]
fn unparsable_document_fails_the_read() {
    let cfg = config("/r");
    match read_installed_packages(&cfg, Some("{ not json"), None, false) {
        Err(UpgradeError::Parse(m)) => assert_eq!(m, "inventory"),
        _ => panic!("an unparsable document should fail"),
    }
}

#[test]
fn document_without_installs_fails_the_read() {
    let cfg = config("/r");
    match read_installed_packages(&cfg, Some("{\"other\": {}}"), None, false) {
        Err(UpgradeError::Gen(m)) => assert_eq!(m, "json not valid"),
        _ => panic!("a document without installs should fail"),
    }
}

#[test]
fn malformed_entry_aborts_the_whole_parse() {
    let doc = "{\"installs\": {\
        \"good 1.0.0 (registry+https://x)\": {\"bins\": []},\
        \"bad-entry-without-fields\": {\"bins\": []}\
    }}";
    let cfg = config("/r");
    match read_installed_packages(&cfg, Some(doc), None, false) {
        Err(UpgradeError::Parse(m)) => assert_eq!(m, "entry"),
        _ => panic!("one malformed entry should abort the parse"),
    }
}

#[test]
fn unknown_source_tag_is_malformed() {
    let doc = "{\"installs\": {\"demo 1.0.0 (carrier+https://x)\": {\"bins\": []}}}";
    let cfg = config("/r");
    assert!(read_installed_packages(&cfg, Some(doc), None, false).is_err());
}

#[test]
fn git_entry_without_commit_is_malformed() {
    let doc = "{\"installs\": {\"demo 1.0.0 (git+https://y)\": {\"bins\": []}}}";
    let cfg = config("/r");
    assert!(read_installed_packages(&cfg, Some(doc), None, false).is_err());
}

#[test]
fn entry_with_bad_version_is_malformed() {
    let doc = "{\"installs\": {\"demo 1.0 (registry+https://x)\": {\"bins\": []}}}";
    let cfg = config("/r");
    assert!(read_installed_packages(&cfg, Some(doc), None, false).is_err());
}

#[test]
fn details_must_be_an_object() {
    let doc = "{\"installs\": {\"demo 1.0.0 (registry+https://x)\": 7}}";
    let cfg = config("/r");
    match read_installed_packages(&cfg, Some(doc), None, false) {
        Err(UpgradeError::Gen(m)) => assert_eq!(m, "details-segment not valid"),
        _ => panic!("non-object details should fail"),
    }
}

#[test]
fn local_path_strips_the_scheme_per_platform() {
    let doc = "{\"installs\": {\"demo 1.0.0 (path+file:///tmp/p)\": {\"bins\": []}}}";
    let cfg = config("/r");
    let unix = read_installed_packages(&cfg, Some(doc), None, false).unwrap();
    match &unix[0].source {
        PackageSource::Local { path } => assert_eq!(path, "/tmp/p"),
        _ => panic!("source should be local"),
    }
    let windows = read_installed_packages(&cfg, Some(doc), None, true).unwrap();
    match &windows[0].source {
        PackageSource::Local { path } => assert_eq!(path, "tmp/p"),
        _ => panic!("source should be local"),
    }
}

#[test]
fn entry_with_extra_fields_is_malformed() {
    let doc = "{\"installs\": {\"demo 1.0.0 (registry+https://x) extra\": {\"bins\": []}}}";
    let cfg = config("/r");
    assert!(read_installed_packages(&cfg, Some(doc), None, false).is_err());
}

#[test]
fn empty_installs_object_reads_as_no_packages() {
    let doc = "{\"installs\": {}}";
    let cfg = config("/r");
    let records = read_installed_packages(&cfg, Some(doc), None, false).unwrap();
    assert!(records.is_empty());
}
