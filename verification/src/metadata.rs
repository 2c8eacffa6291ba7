//! The metadata document of a plugin: its name, the version it declares, what
//! it depends on, where each of its bundles is unpacked, and the resources that
//! the host has to load.

use crate::json::{
    find, holds_null, json_null, json_object, json_quoted, json_string, object_members, pairs,
    quote, spec_member, spec_object, spec_string_list, spec_string_map,
    spec_write_optional_strings, spec_write_string_map, string_list, string_map, string_text,
    write_member, write_object, write_optional_strings, write_string_map,
};
use crate::text::{lookup, views};
use crate::versions::{
    spec_archive_version, spec_render_archive, ArchiveVersion, VersionErrorKind,
};
use vstd::prelude::*;
use vstd::utf8::{decode_utf8, encode_utf8};

verus! {

/// The metadata of a plugin.
#[derive(Debug, Clone, PartialEq, Eq)]
pub struct Metadata {
    pub name: String,
    pub version: ArchiveVersion,
    /// The names of the plugins that must be installed first.
    pub depends: Option<Vec<String>>,
    /// The directory that each bundle is unpacked into, by the name of the
    /// bundle, in the order of the document.
    pub content: Vec<(String, String)>,
    /// The resources that the host is told to load after installation.
    pub jar_files: Option<Vec<String>>,
}

/// The metadata of a plugin as plain values.
pub struct MetadataView {
    pub name: Seq<char>,
    pub version: ArchiveVersion,
    pub depends: Option<Seq<Seq<char>>>,
    pub content: Seq<(Seq<char>, Seq<char>)>,
    pub jar_files: Option<Seq<Seq<char>>>,
}

/// Why a metadata document was refused.
#[derive(Debug, Clone, Copy, PartialEq, Eq, Structural)]
pub enum MetadataError {
    /// The document is not a JSON object.
    Document,
    /// `name` is missing or is not a string.
    Name,
    /// `version` is missing or is not a string.
    Version,
    /// `version` is a string that denotes no archive version.
    UnparsableVersion(VersionErrorKind),
    /// `content` is missing or is not an object of strings.
    Content,
    /// `depends` is neither missing, `null` nor an array of strings.
    Depends,
    /// `jar-files` is neither missing, `null` nor an array of strings.
    JarFiles,
}

/// The views of the texts of an optional list.
pub open spec fn list_view(list: Option<Vec<String>>) -> Option<Seq<Seq<char>>> {
    match list {
        Some(texts) => Some(views(texts@)),
        None => None,
    }
}

/// The view of an optional list that may also be invalid (`None`).
pub open spec fn field_view(field: Option<Option<Vec<String>>>) -> Option<Option<Seq<Seq<char>>>> {
    match field {
        Some(list) => Some(list_view(list)),
        None => None,
    }
}

/// The view of an optional text.
pub open spec fn text_view(text: Option<String>) -> Option<Seq<char>> {
    match text {
        Some(t) => Some(t@),
        None => None,
    }
}

/// The view of an optional map of texts.
pub open spec fn map_view(map: Option<Vec<(String, String)>>) -> Option<
    Seq<(Seq<char>, Seq<char>)>,
> {
    match map {
        Some(m) => Some(pairs(m@)),
        None => None,
    }
}

impl View for Metadata {
    type V = MetadataView;

    open spec fn view(&self) -> MetadataView {
        MetadataView {
            name: self.name@,
            version: self.version,
            depends: list_view(self.depends),
            content: pairs(self.content@),
            jar_files: list_view(self.jar_files),
        }
    }
}

/// The metadata that the fields of a document make up. A field that the
/// document must hold is `None` where it is missing or of the wrong kind; an
/// optional list is `None` where it is of the wrong kind and `Some(None)` where
/// the document leaves it out.
pub open spec fn spec_from_fields(
    name: Option<Seq<char>>,
    version: Option<Seq<char>>,
    content: Option<Seq<(Seq<char>, Seq<char>)>>,
    depends: Option<Option<Seq<Seq<char>>>>,
    jar_files: Option<Option<Seq<Seq<char>>>>,
) -> Result<MetadataView, MetadataError> {
    if name is None {
        Err(MetadataError::Name)
    } else if version is None {
        Err(MetadataError::Version)
    } else if let Err(kind) = spec_archive_version(encode_utf8(version->0)) {
        Err(MetadataError::UnparsableVersion(kind))
    } else if content is None {
        Err(MetadataError::Content)
    } else if depends is None {
        Err(MetadataError::Depends)
    } else if jar_files is None {
        Err(MetadataError::JarFiles)
    } else {
        Ok(
            MetadataView {
                name: name->0,
                version: spec_archive_version(encode_utf8(version->0))->Ok_0,
                depends: depends->0,
                content: content->0,
                jar_files: jar_files->0,
            },
        )
    }
}

/// The text of the member `key`, if it is a string.
pub open spec fn required_text(members: Seq<(Seq<char>, Seq<char>)>, key: Seq<char>) -> Option<
    Seq<char>,
> {
    match lookup(members, key) {
        Some(value) => json_string(value),
        None => None,
    }
}

/// The member `key`, if it is an object of strings.
pub open spec fn required_map(members: Seq<(Seq<char>, Seq<char>)>, key: Seq<char>) -> Option<
    Seq<(Seq<char>, Seq<char>)>,
> {
    match lookup(members, key) {
        Some(value) => spec_string_map(value),
        None => None,
    }
}

/// The member `key` as an optional list of strings: left out where the member
/// is missing or `null`, invalid (`None`) where it is anything but an array of
/// strings.
pub open spec fn optional_list(members: Seq<(Seq<char>, Seq<char>)>, key: Seq<char>) -> Option<
    Option<Seq<Seq<char>>>,
> {
    match lookup(members, key) {
        None => Some(None),
        Some(value) => if json_null(value) {
            Some(None)
        } else {
            match spec_string_list(value) {
                Some(texts) => Some(Some(texts)),
                None => None,
            }
        },
    }
}

/// The metadata that the JSON document `doc` denotes, or why it denotes none.
pub open spec fn spec_from_json(doc: Seq<char>) -> Result<MetadataView, MetadataError> {
    match json_object(doc) {
        None => Err(MetadataError::Document),
        Some(members) => spec_from_fields(
            required_text(members, "name"@),
            required_text(members, "version"@),
            required_map(members, "content"@),
            optional_list(members, "depends"@),
            optional_list(members, "jar-files"@),
        ),
    }
}

/// `out` is the metadata `expected`, or the same error.
pub open spec fn yields(
    out: Result<Metadata, MetadataError>,
    expected: Result<MetadataView, MetadataError>,
) -> bool {
    match out {
        Ok(metadata) => expected == Ok::<MetadataView, MetadataError>(metadata@),
        Err(e) => expected == Err::<MetadataView, MetadataError>(e),
    }
}

/// Copies a list of texts.
pub fn copy_texts(texts: &Vec<String>) -> (r: Vec<String>)
    ensures
        views(r@) == views(texts@),
{
    let mut out: Vec<String> = Vec::new();
    let mut i: usize = 0;
    while i < texts.len()
        invariant
            i <= texts.len(),
            out@.len() == i,
            forall|j: int| 0 <= j < i ==> (#[trigger] out@[j])@ == texts@[j]@,
        decreases texts.len() - i,
    {
        out.push(texts[i].clone());
        i += 1;
    }
    assert(views(out@) =~= views(texts@));
    out
}

/// Copies a list of pairs of texts.
pub fn copy_pairs(map: &Vec<(String, String)>) -> (r: Vec<(String, String)>)
    ensures
        pairs(r@) == pairs(map@),
{
    let mut out: Vec<(String, String)> = Vec::new();
    let mut i: usize = 0;
    while i < map.len()
        invariant
            i <= map.len(),
            out@.len() == i,
            forall|j: int|
                0 <= j < i ==> (#[trigger] out@[j]).0@ == map@[j].0@ && out@[j].1@ == map@[j].1@,
        decreases map.len() - i,
    {
        out.push((map[i].0.clone(), map[i].1.clone()));
        i += 1;
    }
    assert(pairs(out@) =~= pairs(map@));
    out
}

/// Copies an optional list of texts.
pub fn copy_list(list: &Option<Vec<String>>) -> (r: Option<Vec<String>>)
    ensures
        list_view(r) == list_view(*list),
{
    match list {
        Some(texts) => Some(copy_texts(texts)),
        None => None,
    }
}

/// Reads the member `key` as an optional list of strings.
fn read_optional_list(members: &Vec<(String, String)>, key: &str) -> (r: Option<
    Option<Vec<String>>,
>)
    ensures
        field_view(r) == optional_list(pairs(members@), key@),
{
    match find(members, key) {
        None => Some(None),
        Some(value) => {
            if holds_null(value.as_str()) {
                Some(None)
            } else {
                match string_list(value.as_str()) {
                    Some(texts) => Some(Some(texts)),
                    None => None,
                }
            }
        },
    }
}

impl Metadata {
    /// Puts the metadata together from the fields of a document.
    pub fn from_fields(
        name: Option<String>,
        version: Option<String>,
        content: Option<Vec<(String, String)>>,
        depends: Option<Option<Vec<String>>>,
        jar_files: Option<Option<Vec<String>>>,
    ) -> (r: Result<Metadata, MetadataError>)
        ensures
            yields(
                r,
                spec_from_fields(
                    text_view(name),
                    text_view(version),
                    map_view(content),
                    field_view(depends),
                    field_view(jar_files),
                ),
            ),
    {
        let name = match name {
            None => { return Err(MetadataError::Name); },
            Some(name) => name,
        };
        let version = match version {
            None => { return Err(MetadataError::Version); },
            Some(version) => version,
        };
        let version = match ArchiveVersion::parse(version.as_str().as_bytes()) {
            Err(kind) => { return Err(MetadataError::UnparsableVersion(kind)); },
            Ok(version) => version,
        };
        let content = match content {
            None => { return Err(MetadataError::Content); },
            Some(content) => content,
        };
        let depends = match depends {
            None => { return Err(MetadataError::Depends); },
            Some(depends) => depends,
        };
        let jar_files = match jar_files {
            None => { return Err(MetadataError::JarFiles); },
            Some(jar_files) => jar_files,
        };
        Ok(Metadata { name, version, depends, content, jar_files })
    }

    /// Reads the metadata from a JSON document.
    pub fn from_json(doc: &str) -> (r: Result<Metadata, MetadataError>)
        ensures
            yields(r, spec_from_json(doc@)),
    {
        let members = match object_members(doc) {
            None => { return Err(MetadataError::Document); },
            Some(members) => members,
        };
        let name = match find(&members, "name") {
            Some(value) => string_text(value.as_str()),
            None => None,
        };
        let version = match find(&members, "version") {
            Some(value) => string_text(value.as_str()),
            None => None,
        };
        let content = match find(&members, "content") {
            Some(value) => string_map(value.as_str()),
            None => None,
        };
        let depends = read_optional_list(&members, "depends");
        let jar_files = read_optional_list(&members, "jar-files");
        Metadata::from_fields(name, version, content, depends, jar_files)
    }

    /// Copies the metadata.
    pub fn duplicate(&self) -> (r: Metadata)
        ensures
            r@ == self@,
    {
        Metadata {
            name: self.name.clone(),
            version: self.version,
            depends: copy_list(&self.depends),
            content: copy_pairs(&self.content),
            jar_files: copy_list(&self.jar_files),
        }
    }
}

/// The JSON document that holds the metadata `metadata`.
pub open spec fn spec_to_json(metadata: MetadataView) -> Seq<char> {
    spec_object(
        seq![
            spec_member("name"@, json_quoted(metadata.name)),
            spec_member(
                "version"@,
                json_quoted(decode_utf8(spec_render_archive(metadata.version))),
            ),
            spec_member("depends"@, spec_write_optional_strings(metadata.depends)),
            spec_member("content"@, spec_write_string_map(metadata.content)),
            spec_member("jar-files"@, spec_write_optional_strings(metadata.jar_files)),
        ],
    )
}

impl Metadata {
    /// Writes the metadata as a JSON document.
    pub fn to_json(&self) -> (r: String)
        ensures
            r@ == spec_to_json(self@),
    {
        let version = self.version.render();
        proof {
            vstd::utf8::encode_utf8_decode_utf8(version@);
        }
        let mut members: Vec<String> = Vec::new();
        members.push(write_member("name", quote(self.name.as_str()).as_str()));
        members.push(write_member("version", quote(version.as_str()).as_str()));
        members.push(write_member("depends", write_optional_strings(&self.depends).as_str()));
        members.push(write_member("content", write_string_map(&self.content).as_str()));
        members.push(write_member("jar-files", write_optional_strings(&self.jar_files).as_str()));
        assert(views(members@) =~= seq![
            spec_member("name"@, json_quoted(self@.name)),
            spec_member(
                "version"@,
                json_quoted(decode_utf8(spec_render_archive(self@.version))),
            ),
            spec_member("depends"@, spec_write_optional_strings(self@.depends)),
            spec_member("content"@, spec_write_string_map(self@.content)),
            spec_member("jar-files"@, spec_write_optional_strings(self@.jar_files)),
        ]);
        write_object(&members)
    }
}

} // verus!
