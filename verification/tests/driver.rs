use cargo_install_upgrade::config::PackageMode;
use cargo_install_upgrade::crateversion::CrateVersion;
use cargo_install_upgrade::driver::{filter_packages, missing_packages};
use cargo_install_upgrade::json::{parse_json, Json};
use cargo_install_upgrade::text::{split_chars, str_to_chars};

fn records(names: &[&str]) -> Vec<CrateVersion> {
    names
        .iter()
        .map(|n| CrateVersion::new_fromstr(n, "1.0.0").unwrap())
        .collect()
}

fn names(records: &[CrateVersion]) -> Vec<String> {
    records.iter().map(|r| r.name.clone()).collect()
}

#[test]
fn all_mode_keeps_everything() {
    let kept = filter_packages(records(&["a", "b"]), &PackageMode::All);
    assert_eq!(names(&kept), vec!["a", "b"]);
}

#[test]
fn include_mode_keeps_only_the_named() {
    let mode = PackageMode::Include(vec!["b".to_owned(), "c".to_owned()]);
    let kept = filter_packages(records(&["a", "b", "c"]), &mode);
    assert_eq!(names(&kept), vec!["b", "c"]);
}

#[test]
fn exclude_mode_drops_the_named() {
    let mode = PackageMode::Exclude(vec!["b".to_owned()]);
    let kept = filter_packages(records(&["a", "b", "c"]), &mode);
    assert_eq!(names(&kept), vec!["a", "c"]);
}

#[test]
fn missing_packages_lists_what_the_inventory_lacks() {
    let inst = records(&["a", "c"]);
    let wanted = vec!["a".to_owned(), "b".to_owned(), "d".to_owned()];
    assert_eq!(missing_packages(&wanted, &inst), vec!["b", "d"]);
}

#[test]
fn missing_packages_is_empty_when_everything_is_installed() {
    let inst = records(&["a", "b"]);
    let wanted = vec!["a".to_owned()];
    assert!(missing_packages(&wanted, &inst).is_empty());
}

#[test]
fn split_chars_keeps_empty_pieces() {
    let chars = str_to_chars("a,,b");
    assert_eq!(split_chars(&chars, ','), vec!["a", "", "b"]);
    let empty = str_to_chars("");
    assert_eq!(split_chars(&empty, ','), vec![""]);
}

#[test]
fn json_reader_handles_nesting_and_escapes() {
    let doc = "{\"a\": [1, true, null, \"x\\n\\\"y\"], \"b\": {\"c\": \"d\"}}";
    let v = parse_json(doc).unwrap();
    match v.get("a") {
        Some(Json::Arr(items)) => {
            assert_eq!(items.len(), 4);
            assert!(matches!(items[1], Json::Bool(true)));
            assert!(matches!(items[2], Json::Null));
            match &items[3] {
                Json::Str(s) => assert_eq!(s, "x\n\"y"),
                _ => panic!("fourth element should be a string"),
            }
        }
        _ => panic!("member a should be an array"),
    }
    match v.get("b") {
        Some(inner) => match inner.get("c") {
            Some(Json::Str(s)) => assert_eq!(s, "d"),
            _ => panic!("member c should be a string"),
        },
        None => panic!("member b should exist"),
    }
}

#[test]
fn json_reader_rejects_trailing_garbage() {
    assert!(parse_json("{} extra").is_none());
    assert!(parse_json("{\"a\": }").is_none());
    assert!(parse_json("").is_none());
    assert!(parse_json("\"unterminated").is_none());
}
