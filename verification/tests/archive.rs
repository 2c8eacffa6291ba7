use rudder_package::archive::{read_metadata, ArchiveError, PackageType, Rpkg};
use rudder_package::bundle::{decompress, list, relative_files, BundleError};
use rudder_package::config::PACKAGES_FOLDER;
use rudder_package::container::{is_plain, Container, ContainerFault};
use rudder_package::metadata::{Metadata, MetadataError};
use rudder_package::text::{ends_with, join_path, same_text};
use rudder_package::versions::{
    ArchiveVersion, PluginVersion, RudderVersion, RudderVersionMode, VersionErrorKind,
};

const METADATA: &str = r#"{
  "type": "plugin",
  "name": "rudder-plugin-notify",
  "version": "8.0.0-2.2",
  "build-date": "2023-10-13T09:44:54+00:00",
  "depends": null,
  "build-commit": "81edd3edb4b825a8c2b1f4e491e6bf5ad6e2e26d",
  "content": { "files.txz": "/opt/rudder" },
  "jar-files": []
}"#;

fn tar_of(entries: &[(&str, Option<&[u8]>)]) -> Vec<u8> {
    let mut builder = tar::Builder::new(Vec::new());
    for (path, content) in entries {
        let mut header = tar::Header::new_gnu();
        match content {
            None => {
                header.set_entry_type(tar::EntryType::Directory);
                header.set_mode(0o755);
                header.set_size(0);
                builder.append_data(&mut header, path, std::io::empty()).unwrap();
            }
            Some(bytes) => {
                header.set_mode(0o644);
                header.set_size(bytes.len() as u64);
                builder.append_data(&mut header, path, *bytes).unwrap();
            }
        }
    }
    builder.into_inner().unwrap()
}

fn xz(data: &[u8]) -> Vec<u8> {
    let mut input = data;
    let mut out = Vec::new();
    lzma_rs::xz_compress(&mut input, &mut out).unwrap();
    out
}

fn container_of(members: &[(&str, &[u8])]) -> Vec<u8> {
    let mut builder = ar::Builder::new(Vec::new());
    for (name, data) in members {
        let header = ar::Header::new(name.as_bytes().to_vec(), data.len() as u64);
        builder.append(&header, *data).unwrap();
    }
    builder.into_inner().unwrap()
}

fn files_bundle() -> Vec<u8> {
    xz(&tar_of(&[
        ("share/", None),
        ("share/python/", None),
        ("share/python/glpi.py", Some(b"print('glpi')\n")),
        ("share/python/notifyd.py", Some(b"print('notifyd')\n")),
    ]))
}

fn scripts_bundle() -> Vec<u8> {
    xz(&tar_of(&[("postinst", Some(b"#!/bin/sh\nexit 0\n"))]))
}

fn notify_rpkg() -> Vec<u8> {
    container_of(&[
        ("metadata", METADATA.as_bytes()),
        ("scripts.txz", &scripts_bundle()),
        ("files.txz", &files_bundle()),
    ])
}

fn open(bytes: &[u8]) -> Rpkg {
    Rpkg::from_path("./tests/archive/rudder-plugin-notify-8.0.0-2.2.rpkg", bytes).unwrap()
}

#[test]
fn test_read_rpkg_metadata() {
    let malformed = container_of(&[("metadata", b"{ \"name\": 12 ")]);
    let without = container_of(&[("files.txz", &files_bundle())]);
    assert!(read_metadata(&Container::read(&malformed)).is_err());
    assert!(read_metadata(&Container::read(&without)).is_err());
    read_metadata(&Container::read(&notify_rpkg())).unwrap();
}

#[test]
fn test_get_relative_file_list_of_txz() {
    let r = open(&notify_rpkg());
    assert_eq!(
        r.get_relative_file_list_of_txz("files.txz").unwrap(),
        vec!["share/", "share/python/", "share/python/glpi.py", "share/python/notifyd.py"]
    );
    assert_eq!(r.get_relative_file_list_of_txz("scripts.txz").unwrap(), vec!["postinst"]);
}

#[test]
fn test_get_absolute_file_list_of_txz() {
    let r = open(&notify_rpkg());
    assert_eq!(
        r.get_absolute_file_list_of_txz("files.txz", PACKAGES_FOLDER).unwrap(),
        vec![
            "/opt/rudder/share/",
            "/opt/rudder/share/python/",
            "/opt/rudder/share/python/glpi.py",
            "/opt/rudder/share/python/notifyd.py"
        ]
    );
    assert_eq!(
        r.get_absolute_file_list_of_txz("scripts.txz", PACKAGES_FOLDER).unwrap(),
        vec!["/var/rudder/packages/postinst"]
    );
}

#[test]
fn test_get_archive_installed_filed() {
    let r = open(&notify_rpkg());
    assert_eq!(
        r.get_archive_installed_files(PACKAGES_FOLDER).unwrap(),
        vec![
            "/opt/rudder/share/",
            "/opt/rudder/share/python/",
            "/opt/rudder/share/python/glpi.py",
            "/opt/rudder/share/python/notifyd.py"
        ]
    );
}

#[test]
fn test_extract_txz_from_rpkg() {
    let r = open(&notify_rpkg());
    let bundle = r.embedded_txz("files.txz").unwrap().unwrap();
    let tar = decompress(bundle).unwrap();
    let mut archive = tar::Archive::new(&tar[..]);
    let mut seen = Vec::new();
    for entry in archive.entries().unwrap() {
        let mut entry = entry.unwrap();
        let path = entry.path().unwrap().to_string_lossy().into_owned();
        let mut content = Vec::new();
        std::io::Read::read_to_end(&mut entry, &mut content).unwrap();
        seen.push((path, content));
    }
    assert_eq!(
        seen,
        vec![
            ("share/".to_string(), Vec::new()),
            ("share/python/".to_string(), Vec::new()),
            ("share/python/glpi.py".to_string(), b"print('glpi')\n".to_vec()),
            ("share/python/notifyd.py".to_string(), b"print('notifyd')\n".to_vec()),
        ]
    );
    assert_eq!(r.get_txz_dst("files.txz", PACKAGES_FOLDER).unwrap(), "/opt/rudder");
}

#[test]
fn metadata_is_read_from_the_container() {
    let r = open(&notify_rpkg());
    assert_eq!(r.path, "./tests/archive/rudder-plugin-notify-8.0.0-2.2.rpkg");
    assert_eq!(r.metadata.name, "rudder-plugin-notify");
    assert_eq!(
        r.metadata.version,
        ArchiveVersion {
            rudder_version: RudderVersion {
                major: 8,
                minor: 0,
                patch: 0,
                mode: RudderVersionMode::Final
            },
            plugin_version: PluginVersion { major: 2, minor: 2, nightly: false },
        }
    );
    assert_eq!(r.metadata.depends, None);
    assert_eq!(r.metadata.content, vec![("files.txz".to_string(), "/opt/rudder".to_string())]);
    assert_eq!(r.metadata.jar_files, Some(vec![]));
}

#[test]
fn missing_and_malformed_metadata_are_told_apart() {
    let without = container_of(&[("scripts.txz", &scripts_bundle())]);
    let e = Rpkg::from_path("a.rpkg", &without).unwrap_err();
    assert_eq!(e.cause, ArchiveError::NoMetadata);
    assert_eq!(e.path, "a.rpkg");

    let not_json = container_of(&[("metadata", b"name = notify")]);
    let e = Rpkg::from_path("b.rpkg", &not_json).unwrap_err();
    assert_eq!(e.cause, ArchiveError::Metadata(MetadataError::Document));

    let wrong_schema = container_of(&[("metadata", br#"{"name": "x", "version": 3}"#)]);
    let e = Rpkg::from_path("c.rpkg", &wrong_schema).unwrap_err();
    assert_eq!(e.cause, ArchiveError::Metadata(MetadataError::Version));

    let not_text = container_of(&[("metadata", &[0xff, 0xfe, 0x7b])]);
    let e = Rpkg::from_path("d.rpkg", &not_text).unwrap_err();
    assert_eq!(e.cause, ArchiveError::MetadataEncoding);
}

#[test]
fn metadata_schema() {
    let ok = Metadata::from_json(
        r#"{"name":"a","version":"8.0.1~rc1-1.3-nightly","content":{"b.txz":"/b","a.txz":"/a"},
            "depends":["x","y"],"jar-files":["/opt/a.jar"],"extra":{"ignored":true}}"#,
    )
    .unwrap();
    assert_eq!(ok.name, "a");
    assert_eq!(ok.version.plugin_version, PluginVersion { major: 1, minor: 3, nightly: true });
    assert_eq!(
        ok.content,
        vec![("b.txz".to_string(), "/b".to_string()), ("a.txz".to_string(), "/a".to_string())]
    );
    assert_eq!(ok.depends, Some(vec!["x".to_string(), "y".to_string()]));
    assert_eq!(ok.jar_files, Some(vec!["/opt/a.jar".to_string()]));

    let minimal = Metadata::from_json(r#"{"name":"a","version":"8.0.0-1.0","content":{}}"#).unwrap();
    assert_eq!(minimal.depends, None);
    assert_eq!(minimal.jar_files, None);
    assert!(minimal.content.is_empty());

    let cases = [
        (r#"[1,2]"#, MetadataError::Document),
        (r#"{"name":"a""#, MetadataError::Document),
        (r#"{"version":"8.0.0-1.0","content":{}}"#, MetadataError::Name),
        (r#"{"name":null,"version":"8.0.0-1.0","content":{}}"#, MetadataError::Name),
        (r#"{"name":"a","content":{}}"#, MetadataError::Version),
        (
            r#"{"name":"a","version":"8.0.0","content":{}}"#,
            MetadataError::UnparsableVersion(VersionErrorKind::ArchiveVersion),
        ),
        (
            r#"{"name":"a","version":"8.0.0-1","content":{}}"#,
            MetadataError::UnparsableVersion(VersionErrorKind::PluginVersion),
        ),
        (r#"{"name":"a","version":"8.0.0-1.0"}"#, MetadataError::Content),
        (r#"{"name":"a","version":"8.0.0-1.0","content":["a"]}"#, MetadataError::Content),
        (r#"{"name":"a","version":"8.0.0-1.0","content":{"a.txz":1}}"#, MetadataError::Content),
        (
            r#"{"name":"a","version":"8.0.0-1.0","content":{},"depends":"x"}"#,
            MetadataError::Depends,
        ),
        (
            r#"{"name":"a","version":"8.0.0-1.0","content":{},"depends":["x",1]}"#,
            MetadataError::Depends,
        ),
        (
            r#"{"name":"a","version":"8.0.0-1.0","content":{},"jar-files":{}}"#,
            MetadataError::JarFiles,
        ),
    ];
    for (doc, expected) in cases {
        assert_eq!(Metadata::from_json(doc).unwrap_err(), expected, "{}", doc);
    }
}

#[test]
fn metadata_from_fields() {
    let m = Metadata::from_fields(
        Some("a".to_string()),
        Some("8.0.0-1.0".to_string()),
        Some(vec![("f.txz".to_string(), "/f".to_string())]),
        Some(None),
        Some(Some(vec!["j.jar".to_string()])),
    )
    .unwrap();
    assert_eq!(m.name, "a");
    assert_eq!(m.depends, None);
    assert_eq!(m.jar_files, Some(vec!["j.jar".to_string()]));
    assert_eq!(m.duplicate(), m);
    assert_eq!(
        Metadata::from_fields(None, None, None, None, None).unwrap_err(),
        MetadataError::Name
    );
    assert_eq!(
        Metadata::from_fields(
            Some("a".to_string()),
            Some("8.0.0-1.0".to_string()),
            Some(vec![]),
            Some(None),
            None
        )
        .unwrap_err(),
        MetadataError::JarFiles
    );
}

#[test]
fn bundles_are_listed_in_container_order() {
    let bytes = container_of(&[
        ("z.txz", &files_bundle()),
        ("metadata", METADATA.as_bytes()),
        ("readme", b"hello"),
        ("scripts.txz", &scripts_bundle()),
        ("a.txz", &files_bundle()),
        ("txz", b""),
    ]);
    let r = open(&bytes);
    assert_eq!(r.get_txz_list().unwrap(), vec!["z.txz", "scripts.txz", "a.txz"]);
}

#[test]
fn absent_bundle_lists_nothing_and_extracts_nothing() {
    let r = open(&notify_rpkg());
    assert_eq!(r.get_relative_file_list_of_txz("other.txz").unwrap(), Vec::<String>::new());
    assert_eq!(r.embedded_txz("other.txz").unwrap(), None);
}

#[test]
fn unmapped_bundle_has_no_destination() {
    let r = open(&notify_rpkg());
    assert_eq!(r.get_txz_dst("other.txz", PACKAGES_FOLDER).unwrap_err(), ArchiveError::Unmapped);
    assert_eq!(
        r.get_absolute_file_list_of_txz("other.txz", PACKAGES_FOLDER).unwrap_err(),
        ArchiveError::Unmapped
    );
    assert_eq!(r.get_txz_dst("scripts.txz", "/tmp/scripts").unwrap(), "/tmp/scripts");

    let bytes = container_of(&[
        ("metadata", METADATA.as_bytes()),
        ("files.txz", &files_bundle()),
        ("more.txz", &files_bundle()),
    ]);
    let r = open(&bytes);
    assert_eq!(
        r.get_archive_installed_files(PACKAGES_FOLDER).unwrap_err(),
        ArchiveError::Unmapped
    );
}

#[test]
fn joins_destination_and_relative_path() {
    let metadata = METADATA.replace("\"/opt/rudder\"", "\"/opt/rudder/share\"");
    let bytes =
        container_of(&[("metadata", metadata.as_bytes()), ("files.txz", &files_bundle())]);
    let r = open(&bytes);
    assert_eq!(
        r.get_archive_installed_files(PACKAGES_FOLDER).unwrap(),
        vec![
            "/opt/rudder/share/share/",
            "/opt/rudder/share/share/python/",
            "/opt/rudder/share/share/python/glpi.py",
            "/opt/rudder/share/share/python/notifyd.py"
        ]
    );
}

#[test]
fn damaged_bundles_are_reported() {
    let bytes = container_of(&[
        ("metadata", METADATA.as_bytes()),
        ("files.txz", b"this is no xz stream"),
    ]);
    let r = open(&bytes);
    assert_eq!(
        r.get_relative_file_list_of_txz("files.txz").unwrap_err(),
        ArchiveError::Bundle(BundleError::Compression)
    );
    assert_eq!(
        r.get_archive_installed_files(PACKAGES_FOLDER).unwrap_err(),
        ArchiveError::Bundle(BundleError::Compression)
    );
    let no_tar = xz(&[7u8; 700]);
    let bytes = container_of(&[("metadata", METADATA.as_bytes()), ("files.txz", &no_tar)]);
    let r = open(&bytes);
    assert_eq!(
        r.get_relative_file_list_of_txz("files.txz").unwrap_err(),
        ArchiveError::Bundle(BundleError::Tar)
    );
}

#[test]
fn bundle_functions() {
    let tar = tar_of(&[("a/", None), ("a/b", Some(b"b"))]);
    let packed = xz(&tar);
    assert_ne!(packed, tar);
    assert_eq!(decompress(&packed).unwrap(), tar);
    assert_eq!(decompress(&tar).unwrap_err(), BundleError::Compression);
    assert_eq!(list(&tar).unwrap(), vec!["a/", "a/b"]);
    assert_eq!(list(&[1u8; 600]).unwrap_err(), BundleError::Tar);
    assert_eq!(relative_files(&packed).unwrap(), vec!["a/", "a/b"]);
    assert_eq!(relative_files(&xz(&[])).unwrap(), Vec::<String>::new());
}

#[test]
fn container_members() {
    let c = Container::read(&container_of(&[("one", b"1"), ("two", b"22"), ("three", b"")]));
    assert_eq!(c.fault, None);
    let members: Vec<(&str, &[u8])> =
        c.entries.iter().map(|e| (e.name.as_str(), e.data.as_slice())).collect();
    assert_eq!(
        members,
        vec![("one", &b"1"[..]), ("two", &b"22"[..]), ("three", &b""[..])]
    );

    let empty = Container::read(b"!<arch>\n");
    assert!(empty.entries.is_empty());
    assert_eq!(empty.fault, None);

    let not_an_archive = Container::read(b"hello, world");
    assert!(not_an_archive.entries.is_empty());
    assert_eq!(not_an_archive.fault, Some(ContainerFault::Malformed));
}

fn member_header(name: &[u8], size: &[u8]) -> Vec<u8> {
    let mut header = vec![b' '; 60];
    header[..name.len()].copy_from_slice(name);
    header[16] = b'0';
    header[28] = b'0';
    header[34] = b'0';
    header[40] = b'0';
    header[48..48 + size.len()].copy_from_slice(size);
    header[58] = b'`';
    header[59] = b'\n';
    header
}

#[test]
fn containers_that_cannot_be_handed_on_are_refused() {
    let mut reference = b"!<arch>\n".to_vec();
    reference.extend(member_header(b"/5", b"0"));
    assert!(!is_plain(&reference));
    let c = Container::read(&reference);
    assert!(c.entries.is_empty());
    assert_eq!(c.fault, Some(ContainerFault::Unsupported));
    assert_eq!(
        Rpkg::from_path("x", &reference).unwrap_err().cause,
        ArchiveError::Container(ContainerFault::Unsupported)
    );

    let mut behind_the_table = b"!<arch>\n".to_vec();
    behind_the_table.extend(member_header(b"//", b"4"));
    behind_the_table.extend(b"ab/\n");
    behind_the_table.extend(member_header(b"/5", b"0"));
    assert!(!is_plain(&behind_the_table));

    let mut odd_reference = b"!<arch>\n".to_vec();
    odd_reference.extend(member_header(b"//", b"4"));
    odd_reference.extend(b"ab/\n");
    odd_reference.extend(member_header(b"/+1", b"0"));
    assert!(!is_plain(&odd_reference));

    let mut long_table = b"!<arch>\n".to_vec();
    long_table.extend(member_header(b"//", b"9999999999"));
    long_table.extend(b"ab/\n");
    assert!(!is_plain(&long_table));

    let mut long_name = b"!<arch>\n".to_vec();
    long_name.extend(member_header(b"#1/999", b"9999"));
    long_name.extend(vec![b'a'; 24]);
    assert!(!is_plain(&long_name));

    let mut odd_length = b"!<arch>\n".to_vec();
    odd_length.extend(member_header(b"#1/2x", b"24"));
    odd_length.extend(vec![b'a'; 24]);
    assert!(!is_plain(&odd_length));

    for size in [&b""[..], b"1x", b" 1", b"+1", b"1 2"] {
        let mut odd_size = b"!<arch>\n".to_vec();
        odd_size.extend(member_header(b"name", size));
        assert!(!is_plain(&odd_size), "{:?}", size);
    }

    let mut symbols = b"!<arch>\n".to_vec();
    symbols.extend(member_header(b"#1/4", b"6"));
    symbols.extend(b"ab\0\0cd");
    symbols.extend(member_header(b"__.SYMDEF", b"2"));
    symbols.extend(b"xy");
    assert!(!is_plain(&symbols));

    assert!(is_plain(&notify_rpkg()));
    assert!(is_plain(b""));
    assert!(is_plain(b"!<arch>\n"));
}

#[test]
fn names_kept_in_a_table_are_read() {
    let long = b"a-bundle-with-a-long-name.txz".to_vec();
    let names = vec![b"metadata".to_vec(), long.clone(), b"files.txz".to_vec()];
    let mut builder = ar::GnuBuilder::new(Vec::new(), names);
    builder
        .append(&ar::Header::new(b"metadata".to_vec(), METADATA.len() as u64), METADATA.as_bytes())
        .unwrap();
    builder.append(&ar::Header::new(long, 3), &b"abc"[..]).unwrap();
    builder.append(&ar::Header::new(b"files.txz".to_vec(), 2), &b"xy"[..]).unwrap();
    let bytes = builder.into_inner().unwrap();
    assert!(is_plain(&bytes));
    let c = Container::read(&bytes);
    assert_eq!(c.fault, None);
    let members: Vec<(&str, &[u8])> =
        c.entries.iter().map(|e| (e.name.as_str(), e.data.as_slice())).collect();
    assert_eq!(
        members,
        vec![
            ("metadata", METADATA.as_bytes()),
            ("a-bundle-with-a-long-name.txz", &b"abc"[..]),
            ("files.txz", &b"xy"[..])
        ]
    );
    let r = Rpkg::from_path("x", &bytes).unwrap();
    assert_eq!(r.get_txz_list().unwrap(), vec!["a-bundle-with-a-long-name.txz", "files.txz"]);
}

#[test]
fn names_kept_in_front_of_the_data_are_read() {
    let bytes = container_of(&[
        ("a-bundle-with-a-long-name.txz", b"abc"),
        ("metadata", METADATA.as_bytes()),
        ("with space.txz", b"1234"),
        ("odd.txz", b"12345"),
        ("__.SYMDEF", b"xy"),
    ]);
    assert!(!is_plain(&bytes));
    let bytes = container_of(&[
        ("a-bundle-with-a-long-name.txz", b"abc"),
        ("metadata", METADATA.as_bytes()),
        ("with space.txz", b"1234"),
        ("odd.txz", b"12345"),
        ("/slash", b"xy"),
    ]);
    assert!(is_plain(&bytes));
    let c = Container::read(&bytes);
    assert_eq!(c.fault, None);
    let members: Vec<(&str, &[u8])> =
        c.entries.iter().map(|e| (e.name.as_str(), e.data.as_slice())).collect();
    assert_eq!(
        members,
        vec![
            ("a-bundle-with-a-long-name.txz", &b"abc"[..]),
            ("metadata", METADATA.as_bytes()),
            ("with space.txz", &b"1234"[..]),
            ("odd.txz", &b"12345"[..]),
            ("/slash", &b"xy"[..])
        ]
    );
}

#[test]
fn symbol_tables_are_passed_over() {
    let mut bytes = b"!<arch>\n".to_vec();
    bytes.extend(member_header(b"/", b"3"));
    bytes.extend(b"abc\n");
    bytes.extend(member_header(b"//", b"0"));
    bytes.extend(member_header(b"metadata/", b"2"));
    bytes.extend(b"{}");
    assert!(is_plain(&bytes));
    let c = Container::read(&bytes);
    assert_eq!(c.fault, None);
    assert_eq!(c.entries.len(), 1);
    assert_eq!(c.entries[0].name, "metadata");
    assert_eq!(c.entries[0].data, b"{}");
}

#[test]
fn bundles_with_four_ff_bytes_in_a_row_are_not_decoded() {
    let empty: Vec<u8> = vec![
        0xfd, 0x37, 0x7a, 0x58, 0x5a, 0x00, 0x00, 0x04, 0xe6, 0xd6, 0xb4, 0x46, 0x00, 0x00, 0x00,
        0x00, 0x1c, 0xdf, 0x44, 0x21, 0x1f, 0xb6, 0xf3, 0x7d, 0x01, 0x00, 0x00, 0x00, 0x00, 0x04,
        0x59, 0x5a,
    ];
    assert_eq!(decompress(&xz(&[])).unwrap(), Vec::<u8>::new());
    assert!(!rudder_package::bundle::has_ff_run(&empty));
    assert_eq!(decompress(&empty).unwrap(), Vec::<u8>::new());
    let mut footer = empty.clone();
    footer[24..28].copy_from_slice(&[0xff; 4]);
    assert!(rudder_package::bundle::has_ff_run(&footer));
    assert_eq!(decompress(&footer).unwrap_err(), BundleError::Unsupported);
    assert_eq!(relative_files(&footer).unwrap_err(), BundleError::Unsupported);
    let mut three = empty.clone();
    three[24..27].copy_from_slice(&[0xff; 3]);
    assert!(!rudder_package::bundle::has_ff_run(&three));
    assert_eq!(decompress(&three).unwrap_err(), BundleError::Compression);
    assert!(rudder_package::bundle::has_ff_run(&[0, 0xff, 0xff, 0xff, 0xff]));
    assert!(rudder_package::bundle::has_ff_run(&[0xff, 0xff, 0xff, 0xff]));
    assert!(!rudder_package::bundle::has_ff_run(&[0xff, 0xff, 0xff]));
    assert!(!rudder_package::bundle::has_ff_run(&[0xff, 0xff, 0, 0xff, 0xff]));
    assert!(!rudder_package::bundle::has_ff_run(&[]));

    let bytes = container_of(&[("metadata", METADATA.as_bytes()), ("files.txz", &footer)]);
    let r = open(&bytes);
    assert_eq!(
        r.get_relative_file_list_of_txz("files.txz").unwrap_err(),
        ArchiveError::Bundle(BundleError::Unsupported)
    );
}

#[test]
fn gnu_style_short_names_are_read() {
    let mut bytes = b"!<arch>\n".to_vec();
    bytes.extend(member_header(b"metadata/", b"5"));
    bytes.extend(b"hello\n");
    bytes.extend(member_header(b"files.txz/", b"2"));
    bytes.extend(b"ab");
    let c = Container::read(&bytes);
    assert_eq!(c.fault, None);
    let names: Vec<&str> = c.entries.iter().map(|e| e.name.as_str()).collect();
    assert_eq!(names, vec!["metadata", "files.txz"]);
    assert_eq!(c.entries[0].data, b"hello");
    assert_eq!(c.entries[1].data, b"ab");
}

#[test]
fn faults_end_the_reading() {
    let mut bytes = container_of(&[("metadata", METADATA.as_bytes())]);
    if bytes.len() % 2 == 1 {
        bytes.push(b'\n');
    }
    bytes.extend(member_header(b"bad\xff", b"0"));
    let c = Container::read(&bytes);
    assert_eq!(c.entries.len(), 1);
    assert_eq!(c.fault, Some(ContainerFault::EntryName));
    let r = Rpkg::from_path("x", &bytes).unwrap();
    assert_eq!(
        r.get_txz_list().unwrap_err(),
        ArchiveError::Container(ContainerFault::EntryName)
    );
    assert_eq!(
        r.get_relative_file_list_of_txz("files.txz").unwrap_err(),
        ArchiveError::Container(ContainerFault::EntryName)
    );
    assert_eq!(
        r.embedded_txz("files.txz").unwrap_err(),
        ArchiveError::Container(ContainerFault::EntryName)
    );

    let mut truncated = container_of(&[("files.txz", &files_bundle())]);
    truncated.extend(b"garbage that is shorter than a header");
    let c = Container::read(&truncated);
    assert_eq!(c.entries.len(), 1);
    assert_eq!(c.fault, Some(ContainerFault::Malformed));
    assert_eq!(
        Rpkg::from_path("x", &truncated).unwrap_err().cause,
        ArchiveError::Container(ContainerFault::Malformed)
    );
}

#[test]
fn text_helpers() {
    assert!(same_text("metadata", "metadata"));
    assert!(!same_text("metadata", "metadatb"));
    assert!(!same_text("metadata", "metadata "));
    assert!(same_text("", ""));
    assert!(ends_with("files.txz", ".txz"));
    assert!(ends_with(".txz", ".txz"));
    assert!(!ends_with("txz", ".txz"));
    assert!(!ends_with("files.txz.sig", ".txz"));
    assert!(ends_with("é.txz", ".txz"));
    assert_eq!(join_path("/opt/rudder", "share/"), "/opt/rudder/share/");
    assert_eq!(join_path("/opt/rudder/", "share"), "/opt/rudder/share");
    assert_eq!(join_path("/opt/rudder", "/etc/passwd"), "/etc/passwd");
    assert_eq!(join_path("", "share"), "share");
    assert_eq!(join_path("/opt", ""), "/opt/");
    assert_eq!(
        join_path("/opt/rudder", "share/"),
        std::path::Path::new("/opt/rudder").join("share/").to_str().unwrap()
    );
    assert_eq!(join_path("/opt", ""), std::path::Path::new("/opt").join("").to_str().unwrap());
}

#[test]
fn package_type_name() {
    assert_eq!(PackageType::Plugin.name(), "plugin");
}

#[test]
fn members_get_their_names_as_text() {
    let members = vec![
        rudder_package::container::Member { name: b"metadata".to_vec(), data: b"{}".to_vec() },
        rudder_package::container::Member { name: "é.txz".as_bytes().to_vec(), data: vec![1, 2] },
        rudder_package::container::Member { name: vec![0xc3], data: vec![3] },
        rudder_package::container::Member { name: b"late.txz".to_vec(), data: vec![] },
    ];
    let c = Container::from_members(members, true);
    assert_eq!(c.fault, Some(ContainerFault::EntryName));
    assert_eq!(c.entries.len(), 2);
    assert_eq!(c.entries[0].name, "metadata");
    assert_eq!(c.entries[0].data, b"{}");
    assert_eq!(c.entries[1].name, "é.txz");
    assert_eq!(c.entries[1].data, vec![1, 2]);

    let c = Container::from_members(vec![], true);
    assert_eq!(c.fault, Some(ContainerFault::Malformed));
    let c = Container::from_members(vec![], false);
    assert_eq!(c.fault, None);
    assert!(c.entries.is_empty());
}

#[test]
fn json_documents_are_taken_apart() {
    let members = rudder_package::json::object_members(r#"{"b": [1, "x"], "a": {"k": null}}"#)
        .unwrap();
    assert_eq!(
        members,
        vec![
            ("b".to_string(), r#"[1,"x"]"#.to_string()),
            ("a".to_string(), r#"{"k":null}"#.to_string())
        ]
    );
    assert_eq!(rudder_package::json::find(&members, "a").unwrap(), r#"{"k":null}"#);
    assert!(rudder_package::json::find(&members, "c").is_none());
    assert_eq!(
        rudder_package::json::array_items(r#"[1, "x", {}]"#).unwrap(),
        vec!["1", "\"x\"", "{}"]
    );
    assert_eq!(rudder_package::json::string_text(r#""a\"bé""#).unwrap(), "a\"bé");
    assert!(rudder_package::json::string_text("12").is_none());
    assert!(rudder_package::json::holds_null(" null "));
    assert!(!rudder_package::json::holds_null("0"));
    assert!(!rudder_package::json::holds_null("nul"));
    assert_eq!(
        rudder_package::json::string_list(r#"["a", "b"]"#).unwrap(),
        vec!["a".to_string(), "b".to_string()]
    );
    assert!(rudder_package::json::string_list(r#"["a", 1]"#).is_none());
    assert!(rudder_package::json::string_list(r#"{"a": "b"}"#).is_none());
    assert_eq!(
        rudder_package::json::string_map(r#"{"z": "1", "a": "2"}"#).unwrap(),
        vec![("z".to_string(), "1".to_string()), ("a".to_string(), "2".to_string())]
    );
    assert!(rudder_package::json::string_map(r#"{"z": 1}"#).is_none());
    assert!(rudder_package::json::object_members("[]").is_none());
    assert!(rudder_package::json::object_members("{").is_none());
}

#[test]
fn json_documents_are_put_together() {
    let texts = vec!["a".to_string(), "b\"c".to_string()];
    assert_eq!(rudder_package::json::write_strings(&texts), r#"["a","b\"c"]"#);
    assert_eq!(rudder_package::json::write_strings(&vec![]), "[]");
    assert_eq!(rudder_package::json::write_optional_strings(&None), "null");
    assert_eq!(rudder_package::json::write_optional_strings(&Some(vec![])), "[]");
    assert_eq!(
        rudder_package::json::write_string_map(&vec![
            ("k".to_string(), "v".to_string()),
            ("a b".to_string(), "\n".to_string())
        ]),
        r#"{"k":"v","a b":"\n"}"#
    );
    assert_eq!(rudder_package::json::write_member("k", "[1]"), r#""k":[1]"#);
    assert_eq!(rudder_package::json::separate(&vec!["1".to_string()]), "1");
    assert_eq!(rudder_package::json::separate(&vec![]), "");
    assert_eq!(
        rudder_package::json::write_array(&vec!["1".to_string(), "{}".to_string()]),
        "[1,{}]"
    );
    assert_eq!(rudder_package::json::write_object(&vec![]), "{}");
}

#[test]
fn paths_are_joined_one_by_one() {
    let relative = vec!["a".to_string(), "/b".to_string(), "c/".to_string()];
    assert_eq!(
        rudder_package::text::join_all("/opt", &relative),
        vec!["/opt/a".to_string(), "/b".to_string(), "/opt/c/".to_string()]
    );
    assert!(rudder_package::text::join_all("/opt", &vec![]).is_empty());
}
