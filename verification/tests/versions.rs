use rudder_package::ordering::outranks;
use rudder_package::versions::{
    ArchiveVersion, PluginVersion, RudderVersion, RudderVersionMode, VersionErrorKind,
};

fn check_rudder_version(raw: &str, major: u32, minor: u32, patch: u32, mode: &str) {
    let v = RudderVersion::from_str(raw).unwrap();
    assert_eq!(v.major, major);
    assert_eq!(v.minor, minor);
    assert_eq!(v.patch, patch);
    assert_eq!(v.mode, RudderVersionMode::from_str(mode).unwrap());
}

#[test]
fn test_rudder_version_parsing() {
    check_rudder_version("7.0.0~alpha2", 7, 0, 0, "~alpha2");
    check_rudder_version("7.0.0", 7, 0, 0, "");
    check_rudder_version("8.0.1~rc1", 8, 0, 1, "~rc1");
}

#[test]
fn test_rudder_version_parsing_errors() {
    assert!(RudderVersion::from_str("7.0.0-alpha2").is_err());
    assert!(RudderVersion::from_str("7.0.0.0~alpha2").is_err());
    assert!(RudderVersion::from_str("7.0.0alpha2").is_err());
}

#[test]
fn test_plugin_version_greater_than() {
    for (a, b) in [("11.0", "2.99"), ("1.20", "1.12"), ("2.3", "2.3-nightly")] {
        let left = PluginVersion::from_str(a).unwrap();
        let right = PluginVersion::from_str(b).unwrap();
        assert!(left > right, "{:?} is not less than {:?}", left, right);
        assert!(right < left);
        assert!(outranks(&left, &right));
        assert!(!outranks(&right, &left));
    }
}

#[test]
fn test_rpkg_version() {
    let hosts = [
        "8.0.0", "8.0.0~alpha1", "8.0.0~alpha2", "8.0.0~beta1", "8.0.0~beta2", "8.0.0~beta3",
        "8.0.0~beta4", "8.0.0~rc1", "8.0.0~rc2", "8.0.0~rc3", "8.0.1", "8.0.2",
    ];
    let plugins = [
        "1.1", "1.1-nightly", "1.12", "1.12-nightly", "2.0-nightly", "2.1", "2.1-nightly", "2.2",
        "2.2-nightly", "2.3", "2.4", "2.4-nightly", "2.6", "2.7", "2.9", "2.9-nightly",
    ];
    for host in hosts {
        for plugin in plugins {
            let raw = format!("{}-{}", host, plugin);
            let v = ArchiveVersion::from_str(&raw).unwrap();
            assert_eq!(v.rudder_version, RudderVersion::from_str(host).unwrap());
            assert_eq!(v.plugin_version, PluginVersion::from_str(plugin).unwrap());
        }
    }
}

#[test]
fn host_version_stages() {
    let v = RudderVersion::from_str("8.1.12~beta3").unwrap();
    assert_eq!(
        v,
        RudderVersion { major: 8, minor: 1, patch: 12, mode: RudderVersionMode::Beta { version: 3 } }
    );
    assert_eq!(
        RudderVersion::from_str("7.3.0~alpha10").unwrap().mode,
        RudderVersionMode::Alpha { version: 10 }
    );
    assert_eq!(
        RudderVersion::from_str("7.3.0~rc2").unwrap().mode,
        RudderVersionMode::Rc { version: 2 }
    );
    assert_eq!(RudderVersion::from_str("7.3.0").unwrap().mode, RudderVersionMode::Final);
}

#[test]
fn nightly_host_version_is_final() {
    let v = RudderVersion::from_str("8.0.4~git202310120202").unwrap();
    assert_eq!(
        v,
        RudderVersion { major: 8, minor: 0, patch: 4, mode: RudderVersionMode::Final }
    );
}

#[test]
fn leading_zeros_are_read_as_numbers() {
    let v = RudderVersion::from_str("08.00.010").unwrap();
    assert_eq!((v.major, v.minor, v.patch), (8, 0, 10));
}

#[test]
fn unrecognized_suffixes_are_refused() {
    for raw in [
        "8.0.0~", "8.0.0~alpha", "8.0.0~gamma1", "8.0.0~alpha1x", "8.0.0~rc1~git5", "8.0.0 ",
        "8.0.0~git", "8.0.0~Alpha1", "8.0.0~beta-1", "8.0.0\n",
    ] {
        let e = RudderVersion::from_str(raw).unwrap_err();
        assert_eq!(e.kind, VersionErrorKind::RudderVersionMode, "{:?}", raw);
        assert_eq!(e.input, raw);
    }
}

#[test]
fn malformed_host_versions_are_refused() {
    for raw in ["", "8", "8.0", "8.0.", ".0.0", "a.b.c", "8..0", "8.0.x", "v8.0.0", "-8.0.0"] {
        let e = RudderVersion::from_str(raw).unwrap_err();
        assert_eq!(e.kind, VersionErrorKind::RudderVersion, "{:?}", raw);
    }
}

#[test]
fn numbers_beyond_32_bits_are_refused() {
    assert_eq!(RudderVersion::from_str("4294967295.0.0").unwrap().major, u32::MAX);
    for raw in ["4294967296.0.0", "1.4294967296.0", "1.0.99999999999", "1.0.0~alpha4294967296"] {
        let e = RudderVersion::from_str(raw).unwrap_err();
        assert_eq!(e.kind, VersionErrorKind::NumberTooLarge, "{:?}", raw);
    }
    assert_eq!(
        PluginVersion::from_str("1.4294967296").unwrap_err().kind,
        VersionErrorKind::NumberTooLarge
    );
    assert_eq!(
        RudderVersion::from_str("1.0.0~git99999999999999").unwrap().mode,
        RudderVersionMode::Final
    );
}

#[test]
fn mode_alone() {
    assert_eq!(RudderVersionMode::from_str("").unwrap(), RudderVersionMode::Final);
    assert_eq!(
        RudderVersionMode::from_str("~alpha2").unwrap(),
        RudderVersionMode::Alpha { version: 2 }
    );
    assert_eq!(RudderVersionMode::from_str("~git7").unwrap(), RudderVersionMode::Final);
    assert_eq!(
        RudderVersionMode::from_str("alpha2").unwrap_err().kind,
        VersionErrorKind::RudderVersionMode
    );
    assert_eq!(RudderVersionMode::parse(b"~rc12"), Ok(RudderVersionMode::Rc { version: 12 }));
}

#[test]
fn plugin_versions() {
    assert_eq!(
        PluginVersion::from_str("2.3").unwrap(),
        PluginVersion { major: 2, minor: 3, nightly: false }
    );
    assert_eq!(
        PluginVersion::from_str("2.3-nightly").unwrap(),
        PluginVersion { major: 2, minor: 3, nightly: true }
    );
    for raw in ["", "2", "2.", "2.3.4", "2.3-night", "2.3-nightly ", "2.3nightly", "2.3-nightly1"] {
        let e = PluginVersion::from_str(raw).unwrap_err();
        assert_eq!(e.kind, VersionErrorKind::PluginVersion, "{:?}", raw);
        assert_eq!(e.input, raw);
    }
}

#[test]
fn archive_version_splits_at_the_first_dash() {
    let v = ArchiveVersion::from_str("8.0.0~rc1-2.4-nightly").unwrap();
    assert_eq!(
        v.rudder_version,
        RudderVersion { major: 8, minor: 0, patch: 0, mode: RudderVersionMode::Rc { version: 1 } }
    );
    assert_eq!(v.plugin_version, PluginVersion { major: 2, minor: 4, nightly: true });
    assert_eq!(
        ArchiveVersion::from_str("8.0.0").unwrap_err().kind,
        VersionErrorKind::ArchiveVersion
    );
    assert_eq!(
        ArchiveVersion::from_str("8.0-2.4").unwrap_err().kind,
        VersionErrorKind::RudderVersion
    );
    assert_eq!(
        ArchiveVersion::from_str("8.0.0-2").unwrap_err().kind,
        VersionErrorKind::PluginVersion
    );
    assert_eq!(
        ArchiveVersion::from_str("8.0.0~x-2.1").unwrap_err().kind,
        VersionErrorKind::RudderVersionMode
    );
}

#[test]
fn compatibility_looks_at_major_and_minor_only() {
    let built_for = RudderVersion::from_str("8.0.0~beta1").unwrap();
    assert!(built_for.is_compatible(&RudderVersion::from_str("8.0.7").unwrap()));
    assert!(built_for.is_compatible(&RudderVersion::from_str("8.0.0~git1").unwrap()));
    assert!(!built_for.is_compatible(&RudderVersion::from_str("8.1.0").unwrap()));
    assert!(!built_for.is_compatible(&RudderVersion::from_str("7.0.0").unwrap()));
}

#[test]
fn nightly_orders_below_release_of_the_same_version() {
    let release = PluginVersion { major: 2, minor: 3, nightly: false };
    let nightly = PluginVersion { major: 2, minor: 3, nightly: true };
    assert!(nightly < release);
    assert!(!(release < nightly));
    assert_eq!(nightly.partial_cmp(&release), Some(std::cmp::Ordering::Less));
    assert_eq!(release.partial_cmp(&release), Some(std::cmp::Ordering::Equal));
    assert_eq!(release.partial_cmp(&nightly), Some(std::cmp::Ordering::Greater));
}

#[test]
fn numbers_decide_before_the_nightly_flag() {
    let older_release = PluginVersion { major: 2, minor: 3, nightly: false };
    let newer_nightly = PluginVersion { major: 2, minor: 4, nightly: true };
    assert!(older_release < newer_nightly);
    let big_minor = PluginVersion { major: 1, minor: 99, nightly: false };
    let next_major = PluginVersion { major: 2, minor: 0, nightly: true };
    assert!(big_minor < next_major);
}

#[test]
fn versions_are_written_as_they_are_read() {
    for raw in ["8.0.0", "7.3.12~alpha1", "8.1.0~beta22", "10.0.1~rc3", "0.0.0"] {
        assert_eq!(RudderVersion::from_str(raw).unwrap().render(), raw);
    }
    assert_eq!(RudderVersion::from_str("8.0.0~git123").unwrap().render(), "8.0.0");
    assert_eq!(RudderVersion::from_str("08.00.010").unwrap().render(), "8.0.10");
    assert_eq!(
        RudderVersion { major: u32::MAX, minor: 0, patch: 1, mode: RudderVersionMode::Final }
            .render(),
        "4294967295.0.1"
    );
    for raw in ["2.3", "2.3-nightly", "0.0", "11.120-nightly"] {
        assert_eq!(PluginVersion::from_str(raw).unwrap().render(), raw);
    }
    for raw in ["8.0.0-2.3", "8.0.0~rc1-2.3-nightly", "7.1.4~alpha2-1.12"] {
        let v = ArchiveVersion::from_str(raw).unwrap();
        assert_eq!(v.render(), raw);
        assert_eq!(ArchiveVersion::from_str(&v.render()).unwrap(), v);
    }
}

#[test]
fn numbers_are_written_in_base_ten() {
    for n in [0u32, 1, 9, 10, 11, 99, 100, 101, 4096, 1_000_000, u32::MAX] {
        assert_eq!(rudder_package::versions::number_text(n), n.to_string());
    }
}

#[test]
fn versions_are_read_from_bytes() {
    assert_eq!(
        RudderVersion::parse(b"8.0.1~beta2"),
        Ok(RudderVersion { major: 8, minor: 0, patch: 1, mode: RudderVersionMode::Beta { version: 2 } })
    );
    assert_eq!(RudderVersion::parse(b"8.0"), Err(VersionErrorKind::RudderVersion));
    assert_eq!(RudderVersion::parse(&[0xff, b'.', b'0', b'.', b'0']), Err(VersionErrorKind::RudderVersion));
    assert_eq!(RudderVersion::parse(&[b'1', b'.', b'0', b'.', b'0', 0xc3]), Err(VersionErrorKind::RudderVersionMode));
    assert_eq!(
        PluginVersion::parse(b"3.14-nightly"),
        Ok(PluginVersion { major: 3, minor: 14, nightly: true })
    );
    assert_eq!(PluginVersion::parse(b""), Err(VersionErrorKind::PluginVersion));
    assert_eq!(
        ArchiveVersion::parse(b"8.0.0-3.14").map(|v| v.plugin_version.minor),
        Ok(14)
    );
    assert_eq!(ArchiveVersion::parse(b"-"), Err(VersionErrorKind::RudderVersion));
    assert_eq!(ArchiveVersion::parse(b""), Err(VersionErrorKind::ArchiveVersion));
}

#[test]
fn the_running_version_is_read_from_its_file() {
    let read = rudder_package::versions::running_version;
    let expected = RudderVersion::from_str("8.0.1~rc2").unwrap();
    assert_eq!(read("8.0.1~rc2").unwrap(), expected);
    assert_eq!(read("  8.0.1~rc2\n").unwrap(), expected);
    assert_eq!(read("rudder_version=8.0.1~rc2\n").unwrap(), expected);
    assert_eq!(read("# comment\r\n\t rudder_version=8.0.1~rc2 \r\nrudder_version=9.0.0\n").unwrap(), expected);
    assert_eq!(read("a=b\nrudder_version=8.0.1~rc2").unwrap(), expected);
    assert_eq!(read("xrudder_version=8.0.1~rc2").unwrap_err().input, "xrudder_version=8.0.1~rc2");
    let e = read("rudder_version= 8.0.1\n").unwrap_err();
    assert_eq!(e.kind, VersionErrorKind::RudderVersion);
    assert_eq!(e.input, " 8.0.1");
    let e = read("rudder_version=\n8.0.1").unwrap_err();
    assert_eq!(e.input, "");
    assert_eq!(read("").unwrap_err().kind, VersionErrorKind::RudderVersion);
    assert_eq!(read("rudder_version").unwrap_err().input, "rudder_version");
    for content in ["8.0.1", " rudder_version=1.2.3~git4 ", "x\ny\n", "rudder_version=é", "\n\n7.0.0\n\n"] {
        let text = content
            .lines()
            .find_map(|line| line.trim().strip_prefix("rudder_version="))
            .unwrap_or(content.trim());
        assert_eq!(read(content).ok(), RudderVersion::from_str(text).ok(), "{:?}", content);
    }
}
