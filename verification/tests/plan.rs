use std::collections::HashMap;

use cargo_install_upgrade::config::{Config, PackageMode};
use cargo_install_upgrade::crateversion::CrateVersion;
use cargo_install_upgrade::plan::{FileOp, UpgradePlan};

fn config(root: &str, upgrade: bool) -> Config {
    Config {
        upgrade,
        force: false,
        verbose: false,
        mode: PackageMode::All,
        cpath: root.to_owned(),
    }
}

fn record_with_bins(name: &str, ver: &str, bins: &[&str]) -> CrateVersion {
    let mut cv = CrateVersion::new_fromstr(name, ver).unwrap();
    cv.set_binaries(&bins.iter().map(|b| b.to_string()).collect::<Vec<String>>());
    cv
}

#[test]
fn uninstall_args_name_the_package() {
    let cv = CrateVersion::new_fromstr("demo", "0.1.0").unwrap();
    assert_eq!(cv.uninstall_args(), vec!["cargo", "uninstall", "demo"]);
}

#[test]
fn install_args_follow_the_source() {
    let cv = CrateVersion::new_fromstr("demo", "0.1.0").unwrap();
    assert_eq!(cv.install_args(), vec!["cargo", "install", "demo"]);

    let mut git = CrateVersion::new_fromstr("demo2", "0.1.0").unwrap();
    git.set_repo("https://y", "abc");
    assert_eq!(git.install_args(), vec!["cargo", "install", "--git", "https://y"]);

    let mut local = CrateVersion::new_fromstr("demo3", "0.1.0").unwrap();
    local.set_path("/tmp/p");
    assert_eq!(local.install_args(), vec!["cargo", "install", "--path", "/tmp/p"]);
}

#[test]
fn install_args_append_the_joined_features() {
    let mut cv = CrateVersion::new_fromstr("demo", "0.1.0").unwrap();
    cv.set_features(&vec!["tls".to_owned(), "cli".to_owned()]);
    assert_eq!(
        cv.install_args(),
        vec!["cargo", "install", "demo", "--features", "tls,cli"]
    );
}

#[test]
fn dry_run_plans_nothing() {
    let cv = record_with_bins("demo", "0.1.0", &["/r/bin/demo"]);
    assert!(cv.upgrade(&config("/r", false), "/snap", false).is_none());
}

fn op_pair(op: &FileOp) -> (bool, String, String) {
    match op {
        FileOp::Copy { src, dst } => (false, src.clone(), dst.clone()),
        FileOp::Rename { src, dst } => (true, src.clone(), dst.clone()),
    }
}

#[test]
fn copy_based_plan_lists_every_file() {
    let cv = record_with_bins("demo", "0.1.0", &["/r/bin/demo", "/r/bin/demo-helper"]);
    let plan = cv.upgrade(&config("/r", true), "/snap", false).unwrap();
    let backup: Vec<(bool, String, String)> = plan.backup.iter().map(op_pair).collect();
    assert_eq!(
        backup,
        vec![
            (false, "/r/bin/demo".to_owned(), "/snap/bin/demo".to_owned()),
            (false, "/r/bin/demo-helper".to_owned(), "/snap/bin/demo-helper".to_owned()),
            (false, "/r/.crates.toml".to_owned(), "/snap/.crates.toml".to_owned()),
            (false, "/r/.crates2.json".to_owned(), "/snap/.crates2.json".to_owned()),
        ]
    );
    let restore: Vec<(bool, String, String)> = plan.restore.iter().map(op_pair).collect();
    assert_eq!(
        restore,
        vec![
            (false, "/snap/bin/demo".to_owned(), "/r/bin/demo".to_owned()),
            (false, "/snap/bin/demo-helper".to_owned(), "/r/bin/demo-helper".to_owned()),
            (false, "/snap/.crates.toml".to_owned(), "/r/.crates.toml".to_owned()),
            (false, "/snap/.crates2.json".to_owned(), "/r/.crates2.json".to_owned()),
        ]
    );
}

#[test]
fn rename_based_plan_keeps_the_live_binary_in_place() {
    let cv = record_with_bins("demo", "0.1.0", &["/r/bin/demo"]);
    let plan = cv.upgrade(&config("/r", true), "/snap", true).unwrap();
    let backup: Vec<(bool, String, String)> = plan.backup.iter().map(op_pair).collect();
    assert_eq!(
        backup,
        vec![
            (true, "/r/bin/demo".to_owned(), "/snap/bin/demo".to_owned()),
            (false, "/snap/bin/demo".to_owned(), "/r/bin/demo".to_owned()),
            (false, "/r/.crates.toml".to_owned(), "/snap/.crates.toml".to_owned()),
            (false, "/r/.crates2.json".to_owned(), "/snap/.crates2.json".to_owned()),
        ]
    );
    let restore: Vec<(bool, String, String)> = plan.restore.iter().map(op_pair).collect();
    assert_eq!(
        restore,
        vec![
            (true, "/snap/bin/demo".to_owned(), "/r/bin/demo".to_owned()),
            (false, "/snap/.crates.toml".to_owned(), "/r/.crates.toml".to_owned()),
            (false, "/snap/.crates2.json".to_owned(), "/r/.crates2.json".to_owned()),
        ]
    );
}

/// Runs a plan's operations against an in-memory store of files.
fn run_ops(fs: &mut HashMap<String, Vec<u8>>, ops: &[FileOp]) {
    for op in ops {
        match op {
            FileOp::Copy { src, dst } => {
                if let Some(bytes) = fs.get(src).cloned() {
                    fs.insert(dst.clone(), bytes);
                }
            }
            FileOp::Rename { src, dst } => {
                if let Some(bytes) = fs.remove(src) {
                    fs.insert(dst.clone(), bytes);
                }
            }
        }
    }
}

fn round_trip(rename_first: bool) {
    let cv = record_with_bins("demo", "0.1.0", &["/r/bin/demo", "/r/bin/demo-helper"]);
    let plan: UpgradePlan = cv.upgrade(&config("/r", true), "/snap", rename_first).unwrap();

    let mut fs: HashMap<String, Vec<u8>> = HashMap::new();
    fs.insert("/r/bin/demo".to_owned(), vec![1, 2, 3]);
    fs.insert("/r/bin/demo-helper".to_owned(), vec![4, 5]);
    fs.insert("/r/.crates.toml".to_owned(), vec![6]);
    fs.insert("/r/.crates2.json".to_owned(), vec![7, 8]);
    let original = fs.clone();

    run_ops(&mut fs, &plan.backup);
    assert_eq!(fs.get("/r/bin/demo"), Some(&vec![1, 2, 3]));

    // A failed install mangles the originals; the snapshot stays put.
    fs.insert("/r/bin/demo".to_owned(), vec![9, 9]);
    fs.remove("/r/bin/demo-helper");
    fs.insert("/r/.crates.toml".to_owned(), vec![0]);
    fs.insert("/r/.crates2.json".to_owned(), vec![0, 0]);

    run_ops(&mut fs, &plan.restore);
    for path in [
        "/r/bin/demo",
        "/r/bin/demo-helper",
        "/r/.crates.toml",
        "/r/.crates2.json",
    ] {
        assert_eq!(fs.get(path), original.get(path), "bytes at {}", path);
    }
}

#[test]
fn backup_then_restore_reproduces_the_files() {
    round_trip(false);
}

#[test]
fn rename_based_backup_then_restore_reproduces_the_files() {
    round_trip(true);
}
