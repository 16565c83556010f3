use cargo_install_upgrade::version::Version;

fn v(s: &str) -> Version {
    Version::parse(s).expect("version text should parse")
}

#[test]
fn parse_plain_version() {
    let a = v("1.2.3");
    assert_eq!(a.major, 1);
    assert_eq!(a.minor, 2);
    assert_eq!(a.patch, 3);
    assert!(a.pre.is_empty());
    assert_eq!(a.build, "");
}

#[test]
fn parse_pre_release_and_build() {
    let a = v("1.0.0-alpha.1+build5");
    assert_eq!(a.major, 1);
    assert_eq!(a.pre, vec!["alpha".to_owned(), "1".to_owned()]);
    assert_eq!(a.build, "build5");
}

#[test]
fn parse_rejects_bad_versions() {
    assert!(Version::parse("1.0").is_none());
    assert!(Version::parse("1.0.01").is_none());
    assert!(Version::parse("").is_none());
    assert!(Version::parse("1.0.0-").is_none());
    assert!(Version::parse("not a version").is_none());
}

#[test]
fn numeric_components_order_numerically() {
    assert!(v("1.2.3").lt(&v("1.10.0")));
    assert!(!v("1.10.0").lt(&v("1.2.3")));
    assert!(v("0.9.9").lt(&v("1.0.0")));
    assert!(v("1.2.3").lt(&v("1.2.10")));
}

#[test]
fn pre_release_sorts_before_release() {
    assert!(v("1.0.0-alpha").lt(&v("1.0.0")));
    assert!(!v("1.0.0").lt(&v("1.0.0-alpha")));
}

#[test]
fn ordering_is_irreflexive_on_equal_versions() {
    assert!(!v("1.2.3").lt(&v("1.2.3")));
    assert!(!v("1.0.0-alpha.1").lt(&v("1.0.0-alpha.1")));
}

#[test]
fn pre_release_chain_orders_as_the_standard_gives() {
    let chain = [
        "1.0.0-alpha",
        "1.0.0-alpha.1",
        "1.0.0-alpha.beta",
        "1.0.0-beta",
        "1.0.0-beta.2",
        "1.0.0-beta.11",
        "1.0.0-rc.1",
        "1.0.0",
    ];
    for i in 0..chain.len() {
        for j in 0..chain.len() {
            assert_eq!(
                v(chain[i]).lt(&v(chain[j])),
                i < j,
                "ordering of {} and {}",
                chain[i],
                chain[j]
            );
        }
    }
}

#[test]
fn build_metadata_never_counts() {
    assert!(!v("1.0.0+aaa").lt(&v("1.0.0+bbb")));
    assert!(!v("1.0.0+bbb").lt(&v("1.0.0+aaa")));
    assert!(!v("1.20.0+c144a98").lt(&v("1.20.0")));
}

#[test]
fn render_writes_the_canonical_text() {
    assert_eq!(v("1.2.3").render(), "1.2.3");
    assert_eq!(v("1.0.0-rc.1+x7").render(), "1.0.0-rc.1+x7");
    assert_eq!(v("0.10.0-alpha").render(), "0.10.0-alpha");
    assert_eq!(v("12.0.5+only.build").render(), "12.0.5+only.build");
}

#[test]
fn render_handles_the_largest_components() {
    let a = Version {
        major: u64::MAX,
        minor: 0,
        patch: 10,
        pre: Vec::new(),
        build: String::new(),
    };
    assert_eq!(a.render(), "18446744073709551615.0.10");
    assert_eq!(v("0.0.0").render(), "0.0.0");
}

#[test]
fn clone_keeps_the_value() {
    let a = v("1.0.0-beta.11+m");
    let b = a.clone();
    assert_eq!(a.major, b.major);
    assert_eq!(a.minor, b.minor);
    assert_eq!(a.patch, b.patch);
    assert_eq!(a.pre, b.pre);
    assert_eq!(a.build, b.build);
}
