use systemd_boot_friend::version::Version;

#[test]
fn test_aosc_version() {
    assert_eq!(
        Version::parse("5.12.0-rc3-aosc-main").unwrap(),
        Version {
            major: 5,
            minor: 12,
            patch: 0,
            rc: Some(3),
            rel: None,
            localversion: "-aosc-main".to_owned(),
        }
    );
    assert_eq!(
        Version::parse("5.12-aosc-main").unwrap(),
        Version {
            major: 5,
            minor: 12,
            patch: 0,
            rc: None,
            rel: None,
            localversion: "-aosc-main".to_owned(),
        }
    );
}

#[test]
fn test_fedora_version() {
    assert_eq!(
        Version::parse("5.15.12-100.fc34.x86_64").unwrap(),
        Version {
            major: 5,
            minor: 15,
            patch: 12,
            rc: None,
            rel: None,
            localversion: "-100.fc34.x86_64".to_owned(),
        }
    );
}

#[test]
fn test_debian_version() {
    assert_eq!(
        Version::parse("5.10.0-11-amd64").unwrap(),
        Version {
            major: 5,
            minor: 10,
            patch: 0,
            rc: None,
            rel: Some(11),
            localversion: "-amd64".to_owned(),
        }
    );
}

#[test]
fn test_invalid_names_are_rejected() {
    assert!(Version::parse("").is_err());
    assert!(Version::parse("linux").is_err());
    assert!(Version::parse("5").is_err());
    assert!(Version::parse("5-rc3").is_err());
    assert!(Version::parse("v5.12.0").is_err());
}

#[test]
fn test_numeric_order_dominates() {
    let newer = Version::parse("5.15.0-rc1-x").unwrap();
    let older = Version::parse("5.14.9-x").unwrap();
    assert!(older.lt(&newer));
    assert!(!newer.lt(&older));

    let a = Version::parse("6.1.0").unwrap();
    let b = Version::parse("5.19.17").unwrap();
    assert!(b.lt(&a));
}

#[test]
fn test_final_release_ranks_above_candidate() {
    let final_release = Version::parse("5.12.0-aosc-main").unwrap();
    let candidate = Version::parse("5.12.0-rc3-aosc-main").unwrap();
    assert!(candidate.lt(&final_release));
    assert!(!final_release.lt(&candidate));

    let rc2 = Version::parse("5.12.0-rc2").unwrap();
    let rc3 = Version::parse("5.12.0-rc3").unwrap();
    assert!(rc2.lt(&rc3));
}

#[test]
fn test_local_suffix_breaks_equality_not_order() {
    let a = Version::parse("5.12.0-aosc-main").unwrap();
    let b = Version::parse("5.12.0-generic").unwrap();
    assert!(a != b);
    assert!(!a.lt(&b));
    assert!(!b.lt(&a));
}

#[test]
fn test_render_canonical_form() {
    let v = Version::parse("5.12.0-rc3-aosc-main").unwrap();
    assert_eq!(v.render(), "5.12.0-rc3-aosc-main");
    let short = Version::parse("5.12-aosc-main").unwrap();
    assert_eq!(short.render(), "5.12.0-aosc-main");
    let debian = Version::parse("5.10.0-11-amd64").unwrap();
    assert_eq!(debian.render(), "5.10.0-11-amd64");
}

#[test]
fn test_render_parse_round_trip() {
    for name in [
        "5.12.0-rc3-aosc-main",
        "5.12-aosc-main",
        "5.15.12-100.fc34.x86_64",
        "5.10.0-11-amd64",
        "4.19.325",
        "6.6.8-rc1",
        "5.10.0-011-amd64",
    ] {
        let parsed = Version::parse(name).unwrap();
        let reparsed = Version::parse(parsed.render().as_str()).unwrap();
        assert_eq!(parsed, reparsed);
    }
}
