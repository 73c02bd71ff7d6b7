//! `repository.toml`: the description of an SDK repository as the library
//! keeps it once fetched, read from and written to a TOML document.
use vstd::prelude::*;
use crate::repository::{
    channel_from_text, channel_text, empty_archive, empty_package, empty_repository, Archive,
    ArchiveView, BitSizeType, ChannelType, RemotePackage, RemotePackageView, RepositoryXml,
    RepositoryXmlView,
};
use crate::revision::{revision_from_text, revision_text, Revision, RevisionParseError, RevisionParseErrorKind};
use crate::strs::str_to_string;
use crate::tomldoc::{
    item_bool, item_int, item_str, item_tables, item_value, item_view, parse_toml, render_toml,
    table_get, tables_view, toml_parsed, toml_rendered, TomlItem, TomlItemView, TomlTable,
    TomlTableView, TomlValue, TomlValueView,
};

verus! {

/// Why `repository.toml` could not be read.
#[derive(Debug, Clone, PartialEq, Eq)]
pub enum RepositoryTomlError {
    /// The text is not TOML; `toml_edit`'s message.
    Toml(String),
    /// A table lacks a key: the key and the position of the table.
    Missing(&'static str, usize),
    /// The version of a package is not a revision.
    Version(RevisionParseError),
}

/// The model of an error.
pub enum RepositoryTomlErrorView {
    Toml(Seq<char>),
    Missing(Seq<char>, usize),
    Version(RevisionParseErrorKind),
}

impl View for RepositoryTomlError {
    type V = RepositoryTomlErrorView;

    open spec fn view(&self) -> RepositoryTomlErrorView {
        match self {
            RepositoryTomlError::Toml(m) => RepositoryTomlErrorView::Toml(m@),
            RepositoryTomlError::Missing(k, p) => RepositoryTomlErrorView::Missing(k@, *p),
            RepositoryTomlError::Version(e) => RepositoryTomlErrorView::Version(e.kind),
        }
    }
}

/// The text of an item read leniently: a string value gives its text, an
/// item that is not a value gives the empty text, and any other value
/// cannot be read (`None`).
pub open spec fn lenient_text(i: TomlItemView) -> Option<Seq<char>> {
    match item_value(i) {
        Some(TomlValueView::Str(s)) => Some(s),
        Some(_) => None,
        None => Some(Seq::empty()),
    }
}

/// The bits an integer stands for: 64 and 32, anything else unset.
pub open spec fn bits_of(n: i64) -> BitSizeType {
    if n == 64 {
        BitSizeType::Bit64
    } else if n == 32 {
        BitSizeType::Bit32
    } else {
        BitSizeType::Unset
    }
}

/// The archive of an `[[archive]]` table; `None` where a key holds a value
/// of the wrong type.
pub open spec fn archive_from_doc(t: TomlTableView) -> Option<ArchiveView> {
    let url = match table_get(t, "url"@) {
        Some(i) => item_str(i),
        None => Some(Seq::empty()),
    };
    let checksum = match table_get(t, "checksum"@) {
        Some(i) => item_str(i),
        None => Some(Seq::empty()),
    };
    let os = match table_get(t, "os"@) {
        Some(i) => item_str(i),
        None => Some(Seq::empty()),
    };
    let size = match table_get(t, "size"@) {
        Some(i) => match item_int(i) {
            Some(n) => Some(n as usize),
            None => None,
        },
        None => Some(0usize),
    };
    let bits = match table_get(t, "bits"@) {
        Some(i) => match item_int(i) {
            Some(n) => Some(bits_of(n)),
            None => None,
        },
        None => Some(BitSizeType::Unset),
    };
    if url is Some && checksum is Some && os is Some && size is Some && bits is Some {
        Some(
            ArchiveView {
                size: size.unwrap(),
                checksum: checksum.unwrap(),
                url: url.unwrap(),
                host_os: os.unwrap(),
                host_bits: bits.unwrap(),
            },
        )
    } else {
        None
    }
}

/// The archives of `[[archive]]` tables, in their order.
pub open spec fn archives_from_doc(ts: Seq<TomlTableView>) -> Option<Seq<ArchiveView>>
    decreases ts.len(),
{
    if ts.len() == 0 {
        Some(Seq::empty())
    } else {
        match archives_from_doc(ts.drop_last()) {
            None => None,
            Some(xs) => match archive_from_doc(ts.last()) {
                None => None,
                Some(a) => Some(xs.push(a)),
            },
        }
    }
}

/// The package of a `[[remote_package]]` table: the error where a required
/// key is missing or the version is not a revision; `None` where a key
/// holds a value of the wrong type.
pub open spec fn package_from_doc(t: TomlTableView) -> Option<Result<RemotePackageView, RepositoryTomlErrorView>> {
    let pos = match t.position {
        Some(p) => p,
        None => 0,
    };
    match table_get(t, "path"@) {
        None => Some(Err(RepositoryTomlErrorView::Missing("path"@, pos))),
        Some(pi) => match lenient_text(pi) {
            None => None,
            Some(path) => match table_get(t, "version"@) {
                None => Some(Err(RepositoryTomlErrorView::Missing("version"@, pos))),
                Some(vi) => match item_str(vi) {
                    None => None,
                    Some(v) => match revision_from_text(v) {
                        Err(k) => Some(Err(RepositoryTomlErrorView::Version(k))),
                        Ok(revision) => match table_get(t, "display_name"@) {
                            None => Some(Err(RepositoryTomlErrorView::Missing("display_name"@, pos))),
                            Some(ni) => match lenient_text(ni) {
                                None => None,
                                Some(name) => {
                                    let license = match table_get(t, "license"@) {
                                        Some(i) => lenient_text(i),
                                        None => Some(Seq::empty()),
                                    };
                                    let channel = match table_get(t, "channel"@) {
                                        Some(i) => match item_str(i) {
                                            Some(c) => Some(channel_from_text(c)),
                                            None => None,
                                        },
                                        None => Some(empty_package().channel),
                                    };
                                    let archives = match table_get(t, "archive"@) {
                                        Some(i) => match item_tables(i) {
                                            Some(ts) => archives_from_doc(ts),
                                            None => None,
                                        },
                                        None => Some(Seq::empty()),
                                    };
                                    let obsolete = match table_get(t, "obsolete"@) {
                                        Some(i) => item_bool(i),
                                        None => Some(false),
                                    };
                                    if license is Some && channel is Some && archives is Some
                                        && obsolete is Some {
                                        Some(
                                            Ok(
                                                RemotePackageView {
                                                    path,
                                                    obsolete: obsolete.unwrap(),
                                                    name,
                                                    channel: channel.unwrap(),
                                                    uses_license: license.unwrap(),
                                                    archives: archives.unwrap(),
                                                    revision,
                                                },
                                            ),
                                        )
                                    } else {
                                        None
                                    }
                                },
                            },
                        },
                    },
                },
            },
        },
    }
}

/// The packages of `[[remote_package]]` tables, in their order, up to the
/// first that cannot be read.
pub open spec fn packages_from_doc(ts: Seq<TomlTableView>) -> Option<Result<Seq<RemotePackageView>, RepositoryTomlErrorView>>
    decreases ts.len(),
{
    if ts.len() == 0 {
        Some(Ok(Seq::empty()))
    } else {
        match packages_from_doc(ts.drop_last()) {
            None => None,
            Some(Err(e)) => Some(Err(e)),
            Some(Ok(ps)) => match package_from_doc(ts.last()) {
                None => None,
                Some(Err(e)) => Some(Err(e)),
                Some(Ok(p)) => Some(Ok(ps.push(p))),
            },
        }
    }
}

/// The repository a document describes: its name, its url and its
/// packages, with no license texts. `None` where a key holds a value of the
/// wrong type before any error.
pub open spec fn repository_from_doc(doc: TomlTableView) -> Option<Result<RepositoryXmlView, RepositoryTomlErrorView>> {
    match table_get(doc, "name"@) {
        None => Some(Err(RepositoryTomlErrorView::Missing("name"@, 0))),
        Some(ni) => match lenient_text(ni) {
            None => None,
            Some(name) => match table_get(doc, "url"@) {
                None => Some(Err(RepositoryTomlErrorView::Missing("path"@, 0))),
                Some(ui) => match lenient_text(ui) {
                    None => None,
                    Some(url) => {
                        let tables = match table_get(doc, "remote_package"@) {
                            Some(i) => match item_tables(i) {
                                Some(ts) => ts,
                                None => Seq::empty(),
                            },
                            None => Seq::empty(),
                        };
                        match packages_from_doc(tables) {
                            None => None,
                            Some(Err(e)) => Some(Err(e)),
                            Some(Ok(ps)) => Some(
                                Ok(
                                    RepositoryXmlView {
                                        name,
                                        url,
                                        remote_packages: ps,
                                        licenses: Seq::empty(),
                                    },
                                ),
                            ),
                        }
                    },
                },
            },
        },
    }
}

/// The repository a text describes, `None` where a key holds a value of
/// the wrong type.
pub open spec fn repository_from_text(s: Seq<char>) -> Option<Result<RepositoryXmlView, RepositoryTomlErrorView>> {
    match toml_parsed(s) {
        Err(m) => Some(Err(RepositoryTomlErrorView::Toml(m))),
        Ok(doc) => repository_from_doc(doc),
    }
}


fn lenient_str(i: &TomlItem) -> (r: Option<String>)
    ensures
        match lenient_text(i@) {
            Some(s) => r matches Some(x) && x@ == s,
            None => r is None,
        },
{
    match i.as_value() {
        Some(TomlValue::Str(s)) => Some(s.clone()),
        Some(_) => None,
        None => Some(String::new()),
    }
}

fn archive_of(t: &TomlTable) -> (r: Option<Archive>)
    ensures
        match archive_from_doc(t@) {
            Some(a) => r matches Some(x) && x@ == a,
            None => r is None,
        },
{
    let mut archive = Archive::default();
    if let Some(url) = t.get("url") {
        match url.as_str() {
            Some(u) => archive.set_url(u.clone()),
            None => {
                return None;
            },
        }
    }
    if let Some(checksum) = t.get("checksum") {
        match checksum.as_str() {
            Some(c) => archive.set_checksum(c.clone()),
            None => {
                return None;
            },
        }
    }
    if let Some(os) = t.get("os") {
        match os.as_str() {
            Some(o) => archive.set_host_os(o.clone()),
            None => {
                return None;
            },
        }
    }
    if let Some(size) = t.get("size") {
        match size.as_integer() {
            Some(n) => archive.set_size(n as usize),
            None => {
                return None;
            },
        }
    }
    if let Some(bits) = t.get("bits") {
        match bits.as_integer() {
            Some(n) => archive.set_host_bits(
                if n == 64 {
                    BitSizeType::Bit64
                } else if n == 32 {
                    BitSizeType::Bit32
                } else {
                    BitSizeType::Unset
                },
            ),
            None => {
                return None;
            },
        }
    }
    Some(archive)
}

fn archives_of(ts: &Vec<TomlTable>) -> (r: Option<Vec<Archive>>)
    ensures
        match archives_from_doc(tables_view(ts@)) {
            Some(xs) => r matches Some(v) && crate::repository::archives_view(v@) == xs,
            None => r is None,
        },
{
    let ghost tv = tables_view(ts@);
    let mut out: Vec<Archive> = Vec::new();
    let mut i: usize = 0;
    assert(tv.take(0) =~= Seq::<TomlTableView>::empty());
    assert(crate::repository::archives_view(out@) =~= Seq::<ArchiveView>::empty());
    while i < ts.len()
        invariant
            i <= ts.len(),
            tv == tables_view(ts@),
            archives_from_doc(tv.take(i as int)) == Some(crate::repository::archives_view(out@)),
        decreases ts.len() - i,
    {
        proof {
            assert(tv.take(i + 1).drop_last() == tv.take(i as int));
            assert(tv.take(i + 1).last() == ts@[i as int]@);
        }
        match archive_of(&ts[i]) {
            Some(a) => {
                let ghost before = out@;
                out.push(a);
                proof {
                    assert(crate::repository::archives_view(out@) =~= crate::repository::archives_view(
                        before,
                    ).push(a@));
                }
            },
            None => {
                proof {
                    lemma_archives_none_prefix(tv, i + 1);
                }
                return None;
            },
        }
        i += 1;
    }
    proof {
        assert(tv.take(ts.len() as int) == tv);
    }
    Some(out)
}

proof fn lemma_archives_none_prefix(ts: Seq<TomlTableView>, n: int)
    requires
        0 <= n <= ts.len(),
        archives_from_doc(ts.take(n)) is None,
    ensures
        archives_from_doc(ts) is None,
    decreases ts.len() - n,
{
    if n < ts.len() {
        assert(ts.take(n + 1).drop_last() == ts.take(n));
        lemma_archives_none_prefix(ts, n + 1);
    } else {
        assert(ts.take(n) == ts);
    }
}

proof fn lemma_packages_stop_prefix(ts: Seq<TomlTableView>, n: int)
    requires
        0 <= n <= ts.len(),
        !(packages_from_doc(ts.take(n)) matches Some(Ok(_))),
    ensures
        packages_from_doc(ts) == packages_from_doc(ts.take(n)),
    decreases ts.len() - n,
{
    if n < ts.len() {
        assert(ts.take(n + 1).drop_last() == ts.take(n));
        lemma_packages_stop_prefix(ts, n + 1);
    } else {
        assert(ts.take(n) == ts);
    }
}

fn package_of(t: &TomlTable) -> (r: Option<Result<RemotePackage, RepositoryTomlError>>)
    ensures
        match package_from_doc(t@) {
            Some(Ok(p)) => r matches Some(Ok(x)) && x@ == p,
            Some(Err(e)) => r matches Some(Err(x)) && x@ == e,
            None => r is None,
        },
{
    let pos: usize = match t.position {
        Some(p) => p,
        None => 0,
    };
    let mut package = RemotePackage::new();
    match t.get("path") {
        None => {
            return Some(Err(RepositoryTomlError::Missing("path", pos)));
        },
        Some(i) => match lenient_str(i) {
            None => {
                return None;
            },
            Some(path) => package.set_path(path),
        },
    }
    match t.get("version") {
        None => {
            return Some(Err(RepositoryTomlError::Missing("version", pos)));
        },
        Some(i) => match i.as_str() {
            None => {
                return None;
            },
            Some(v) => match Revision::from_str(v.as_str()) {
                Err(e) => {
                    return Some(Err(RepositoryTomlError::Version(e)));
                },
                Ok(revision) => package.set_revision(revision),
            },
        },
    }
    match t.get("display_name") {
        None => {
            return Some(Err(RepositoryTomlError::Missing("display_name", pos)));
        },
        Some(i) => match lenient_str(i) {
            None => {
                return None;
            },
            Some(name) => package.set_display_name(name),
        },
    }
    if let Some(i) = t.get("license") {
        match lenient_str(i) {
            None => {
                return None;
            },
            Some(license) => package.set_license(license),
        }
    }
    if let Some(i) = t.get("channel") {
        match i.as_str() {
            None => {
                return None;
            },
            Some(c) => package.set_channel(ChannelType::from_str(c.as_str())),
        }
    }
    if let Some(i) = t.get("archive") {
        match i.as_tables() {
            None => {
                return None;
            },
            Some(ts) => match archives_of(ts) {
                None => {
                    return None;
                },
                Some(archives) => {
                    let mut k: usize = 0;
                    let ghost start = package@;
                    while k < archives.len()
                        invariant
                            k <= archives.len(),
                            package@ == (RemotePackageView {
                                archives: start.archives + crate::repository::archives_view(
                                    archives@.take(k as int),
                                ),
                                ..start
                            }),
                        decreases archives.len() - k,
                    {
                        package.add_archive(archives[k].clone());
                        proof {
                            assert(crate::repository::archives_view(archives@.take(k + 1))
                                =~= crate::repository::archives_view(archives@.take(k as int)).push(
                                archives@[k as int]@,
                            ));
                        }
                        k += 1;
                    }
                    proof {
                        assert(archives@.take(archives.len() as int) == archives@);
                        assert(start.archives =~= Seq::<ArchiveView>::empty());
                    }
                },
            },
        }
    }
    if let Some(i) = t.get("obsolete") {
        match i.as_bool() {
            None => {
                return None;
            },
            Some(b) => package.set_obsolete(b),
        }
    }
    Some(Ok(package))
}

/// Reads a repository out of a `repository.toml` document: its name, its
/// url and its packages. `None` where a key holds a value of the wrong type
/// (a string where one is needed, an integer for a size or bits, a boolean
/// for `obsolete`, tables for `archive`).
pub fn repository_from_toml(doc: &TomlTable) -> (r: Option<Result<RepositoryXml, RepositoryTomlError>>)
    ensures
        match repository_from_doc(doc@) {
            Some(Ok(x)) => r matches Some(Ok(y)) && y@ == x,
            Some(Err(e)) => r matches Some(Err(y)) && y@ == e,
            None => r is None,
        },
{
    let mut repo = RepositoryXml::new();
    match doc.get("name") {
        None => {
            return Some(Err(RepositoryTomlError::Missing("name", 0)));
        },
        Some(i) => match lenient_str(i) {
            None => {
                return None;
            },
            Some(name) => repo.set_name(name),
        },
    }
    match doc.get("url") {
        None => {
            return Some(Err(RepositoryTomlError::Missing("path", 0)));
        },
        Some(i) => match lenient_str(i) {
            None => {
                return None;
            },
            Some(url) => repo.set_url(url),
        },
    }
    let ghost tables = match table_get(doc@, "remote_package"@) {
        Some(i) => match item_tables(i) {
            Some(ts) => ts,
            None => Seq::empty(),
        },
        None => Seq::empty(),
    };
    let ghost head = repo@;
    let empty: Vec<TomlTable> = Vec::new();
    let ts: &Vec<TomlTable> = match doc.get("remote_package") {
        Some(i) => match i.as_tables() {
            Some(ts) => ts,
            None => &empty,
        },
        None => &empty,
    };
    proof {
        assert(tables_view(ts@) =~= tables);
        assert(head.remote_packages =~= Seq::<RemotePackageView>::empty());
        assert(head.licenses =~= Seq::<(Seq<char>, Seq<char>)>::empty());
    }
    let mut i: usize = 0;
    assert(tables.take(0) =~= Seq::<TomlTableView>::empty());
    while i < ts.len()
        invariant
            i <= ts.len(),
            tables == tables_view(ts@),
            repository_from_doc(doc@) == match packages_from_doc(tables) {
                None => None,
                Some(Err(e)) => Some(Err(e)),
                Some(Ok(ps)) => Some(Ok(RepositoryXmlView { remote_packages: ps, ..head })),
            },
            packages_from_doc(tables.take(i as int)) matches Some(Ok(ps)) && repo@ == (
            RepositoryXmlView { remote_packages: ps, ..head }),
        decreases ts.len() - i,
    {
        proof {
            assert(tables.take(i + 1).drop_last() == tables.take(i as int));
            assert(tables.take(i + 1).last() == ts@[i as int]@);
        }
        match package_of(&ts[i]) {
            None => {
                proof {
                    lemma_packages_stop_prefix(tables, i + 1);
                }
                return None;
            },
            Some(Err(e)) => {
                proof {
                    lemma_packages_stop_prefix(tables, i + 1);
                }
                return Some(Err(e));
            },
            Some(Ok(p)) => repo.add_remote_package(p),
        }
        i += 1;
    }
    proof {
        assert(tables.take(ts.len() as int) == tables);
    }
    Some(Ok(repo))
}

/// Reads a repository out of the text of `repository.toml`.
pub fn parse_repository_toml(text: &str) -> (r: Result<RepositoryXml, RepositoryTomlError>)
    requires
        repository_from_text(text@) is Some,
    ensures
        match repository_from_text(text@) {
            Some(Ok(x)) => r matches Ok(y) && y@ == x,
            Some(Err(e)) => r matches Err(y) && y@ == e,
            None => false,
        },
{
    match parse_toml(text) {
        Err(e) => Err(RepositoryTomlError::Toml(e.message)),
        Ok(doc) => match repository_from_toml(&doc) {
            Some(r) => r,
            None => Err(RepositoryTomlError::Missing("name", 0)),
        },
    }
}

/// `parse_repository_toml`, or `None` where a key of the document holds a
/// value of the wrong type.
pub fn try_parse_repository_toml(text: &str) -> (r: Option<Result<RepositoryXml, RepositoryTomlError>>)
    ensures
        match repository_from_text(text@) {
            Some(Ok(x)) => r matches Some(Ok(y)) && y@ == x,
            Some(Err(e)) => r matches Some(Err(y)) && y@ == e,
            None => r is None,
        },
{
    let readable = match parse_toml(text) {
        Err(_) => true,
        Ok(doc) => repository_from_toml(&doc).is_some(),
    };
    if readable {
        Some(parse_repository_toml(text))
    } else {
        None
    }
}


pub open spec fn text_item(t: Seq<char>) -> TomlItemView {
    TomlItemView::Value(TomlValueView::Str(t))
}

/// The table an archive is written as: its url, checksum and size, its
/// operating system where it has one and its bits where they are set.
pub open spec fn archive_table(a: ArchiveView) -> TomlTableView {
    TomlTableView {
        entries: seq![
            ("url"@, text_item(a.url)),
            ("checksum"@, text_item(a.checksum)),
            ("size"@, TomlItemView::Value(TomlValueView::Int(a.size as i64))),
        ] + (if a.host_os.len() > 0 {
            seq![("os"@, text_item(a.host_os))]
        } else {
            Seq::empty()
        }) + (match a.host_bits {
            BitSizeType::Bit64 => seq![("bits"@, TomlItemView::Value(TomlValueView::Int(64)))],
            BitSizeType::Bit32 => seq![("bits"@, TomlItemView::Value(TomlValueView::Int(32)))],
            BitSizeType::Unset => Seq::empty(),
        }),
        position: None,
    }
}

/// The table a package is written as.
pub open spec fn package_table(p: RemotePackageView) -> TomlTableView {
    TomlTableView {
        entries: seq![
            ("path"@, text_item(p.path)),
            ("version"@, text_item(revision_text(p.revision))),
            ("display_name"@, text_item(p.name)),
            ("license"@, text_item(p.uses_license)),
            ("channel"@, text_item(channel_text(p.channel))),
            ("archive"@, TomlItemView::Tables(p.archives.map_values(|a: ArchiveView| archive_table(a)))),
        ] + (if p.obsolete {
            seq![("obsolete"@, TomlItemView::Value(TomlValueView::Bool(true)))]
        } else {
            Seq::empty()
        }),
        position: None,
    }
}

/// The document a repository is written as: its name, its url and its
/// packages (its license texts are kept apart).
pub open spec fn repository_doc(r: RepositoryXmlView) -> TomlTableView {
    TomlTableView {
        entries: seq![
            ("name"@, text_item(r.name)),
            ("url"@, text_item(r.url)),
            (
                "remote_package"@,
                TomlItemView::Tables(r.remote_packages.map_values(|p: RemotePackageView| package_table(p))),
            ),
        ],
        position: None,
    }
}

fn text_entry(key: &str, value: String) -> (r: (String, TomlItem))
    ensures
        r.0@ == key@,
        r.1@ == text_item(value@),
{
    (str_to_string(key), TomlItem::Value(TomlValue::Str(value)))
}

fn archive_table_of(a: &Archive) -> (t: TomlTable)
    ensures
        t@ == archive_table(a@),
{
    let mut es: Vec<(String, TomlItem)> = Vec::new();
    es.push(text_entry("url", a.get_url().clone()));
    es.push(text_entry("checksum", a.get_checksum().clone()));
    es.push((str_to_string("size"), TomlItem::Value(TomlValue::Int(a.get_size() as i64))));
    if a.get_host_os().as_str().unicode_len() > 0 {
        es.push(text_entry("os", a.get_host_os().clone()));
    }
    match a.get_host_bits() {
        BitSizeType::Bit64 => {
            es.push((str_to_string("bits"), TomlItem::Value(TomlValue::Int(64))));
        },
        BitSizeType::Bit32 => {
            es.push((str_to_string("bits"), TomlItem::Value(TomlValue::Int(32))));
        },
        BitSizeType::Unset => {},
    }
    let t = TomlTable { entries: es, position: None };
    proof {
        crate::tomldoc::lemma_table_entries(t);
        assert(t@.entries =~= archive_table(a@).entries);
    }
    t
}

fn package_table_of(p: &RemotePackage) -> (t: TomlTable)
    ensures
        t@ == package_table(p@),
{
    let mut archives: Vec<TomlTable> = Vec::new();
    let xs = p.get_archives();
    let mut i: usize = 0;
    while i < xs.len()
        invariant
            i <= xs.len(),
            crate::repository::archives_view(xs@) == p@.archives,
            archives@.len() == i,
            forall|j: int| 0 <= j < i ==> #[trigger] archives@[j]@ == archive_table(xs@[j]@),
        decreases xs.len() - i,
    {
        archives.push(archive_table_of(&xs[i]));
        i += 1;
    }
    let ghost av = tables_view(archives@);
    proof {
        assert(av =~= p@.archives.map_values(|a: ArchiveView| archive_table(a)));
        assert(item_view(TomlItem::Tables(archives))->Tables_0 =~= av);
    }
    let mut es: Vec<(String, TomlItem)> = Vec::new();
    es.push(text_entry("path", p.get_path().clone()));
    es.push(text_entry("version", p.get_revision().to_string()));
    es.push(text_entry("display_name", p.get_display_name().clone()));
    es.push(text_entry("license", p.get_uses_license().clone()));
    es.push(text_entry("channel", p.get_channel().to_string()));
    es.push((str_to_string("archive"), TomlItem::Tables(archives)));
    if p.is_obsolete() {
        es.push((str_to_string("obsolete"), TomlItem::Value(TomlValue::Bool(true))));
    }
    let t = TomlTable { entries: es, position: None };
    proof {
        crate::tomldoc::lemma_table_entries(t);
        assert(t@.entries =~= package_table(p@).entries);
    }
    t
}

/// The document `repository.toml` holds for a repository.
pub fn repository_toml_doc(repo: &RepositoryXml) -> (doc: TomlTable)
    ensures
        doc@ == repository_doc(repo@),
{
    let ps = repo.get_remote_packages();
    let mut tables: Vec<TomlTable> = Vec::new();
    let mut i: usize = 0;
    while i < ps.len()
        invariant
            i <= ps.len(),
            crate::repository::packages_view(ps@) == repo@.remote_packages,
            tables@.len() == i,
            forall|j: int| 0 <= j < i ==> #[trigger] tables@[j]@ == package_table(ps@[j]@),
        decreases ps.len() - i,
    {
        tables.push(package_table_of(&ps[i]));
        i += 1;
    }
    let ghost tv = tables_view(tables@);
    proof {
        assert(tv =~= repo@.remote_packages.map_values(|p: RemotePackageView| package_table(p)));
        assert(item_view(TomlItem::Tables(tables))->Tables_0 =~= tv);
    }
    let mut es: Vec<(String, TomlItem)> = Vec::new();
    es.push(text_entry("name", repo.get_name().clone()));
    es.push(text_entry("url", repo.get_url().clone()));
    es.push((str_to_string("remote_package"), TomlItem::Tables(tables)));
    let doc = TomlTable { entries: es, position: None };
    proof {
        crate::tomldoc::lemma_table_entries(doc);
        assert(doc@.entries =~= repository_doc(repo@).entries);
    }
    doc
}

/// The text of `repository.toml` for a repository.
pub fn repository_toml_text(repo: &RepositoryXml) -> (r: String)
    ensures
        r@ == toml_rendered(repository_doc(repo@)),
{
    render_toml(&repository_toml_doc(repo))
}


proof fn lemma_get_at(t: TomlTableView, key: Seq<char>, i: int)
    requires
        0 <= i < t.entries.len(),
        t.entries[i].0 == key,
        forall|j: int| 0 <= j < i ==> t.entries[j].0 != key,
    ensures
        table_get(t, key) == Some(t.entries[i].1),
{
    crate::assoc::lemma_key_index_at(t.entries, key, i);
}

proof fn lemma_get_none(t: TomlTableView, key: Seq<char>)
    requires
        forall|j: int| 0 <= j < t.entries.len() ==> t.entries[j].0 != key,
    ensures
        table_get(t, key) is None,
{
    crate::assoc::lemma_key_index_none(t.entries, key);
}

/// Whether a channel is read back as itself from its name: every channel
/// but an unknown one named like a known channel or not named at all.
pub open spec fn channel_named(c: crate::repository::ChannelView) -> bool {
    match c {
        crate::repository::ChannelView::Unknown(s) => s.len() > 0 && s != "stable"@ && s != "beta"@
            && s != "dev"@ && s != "canary"@,
        _ => true,
    }
}

/// Whether a package is written in a way that reads back as itself.
pub open spec fn package_round_trips(p: RemotePackageView) -> bool {
    &&& channel_named(p.channel)
    &&& forall|k: int| 0 <= k < p.archives.len() ==> #[trigger] p.archives[k].size <= i64::MAX
}

pub(crate) proof fn lemma_channel_round_trip(c: crate::repository::ChannelView)
    requires
        channel_named(c),
    ensures
        channel_from_text(channel_text(c)) == c,
{
    reveal_strlit("stable");
    reveal_strlit("beta");
    reveal_strlit("dev");
    reveal_strlit("canary");
    assert("stable"@.len() == 6);
    assert("beta"@.len() == 4);
    assert("dev"@.len() == 3);
    assert("canary"@.len() == 6);
    assert("stable"@ != "canary"@) by {
        assert("stable"@[0] != "canary"@[0]);
    }
}

proof fn lemma_archive_round_trip(a: ArchiveView)
    requires
        a.size <= i64::MAX,
    ensures
        archive_from_doc(archive_table(a)) == Some(a),
{
    reveal_strlit("url");
    reveal_strlit("checksum");
    reveal_strlit("size");
    reveal_strlit("os");
    reveal_strlit("bits");
    let t = archive_table(a);
    let e = t.entries;
    assert((a.size as i64) as usize == a.size);
    assert(e[0].0 == "url"@ && e[1].0 == "checksum"@ && e[2].0 == "size"@);
    assert("url"@ != "checksum"@ && "url"@ != "size"@ && "checksum"@ != "size"@) by {
        assert("url"@[0] != "checksum"@[0]);
        assert("url"@[0] != "size"@[0]);
        assert("checksum"@[0] != "size"@[0]);
    }
    assert("os"@ != "url"@ && "os"@ != "checksum"@ && "os"@ != "size"@ && "bits"@ != "os"@) by {
        assert("os"@[0] != "url"@[0]);
        assert("os"@[0] != "checksum"@[0]);
        assert("os"@[0] != "size"@[0]);
        assert("bits"@[0] != "os"@[0]);
    }
    assert("bits"@ != "url"@ && "bits"@ != "checksum"@ && "bits"@ != "size"@) by {
        assert("bits"@[0] != "url"@[0]);
        assert("bits"@[0] != "checksum"@[0]);
        assert("bits"@[0] != "size"@[0]);
    }
    lemma_get_at(t, "url"@, 0);
    lemma_get_at(t, "checksum"@, 1);
    lemma_get_at(t, "size"@, 2);
    if a.host_os.len() > 0 {
        assert(e[3].0 == "os"@);
        lemma_get_at(t, "os"@, 3);
        match a.host_bits {
            BitSizeType::Unset => {
                assert(e.len() == 4);
                lemma_get_none(t, "bits"@);
            },
            _ => {
                assert(e[4].0 == "bits"@);
                lemma_get_at(t, "bits"@, 4);
            },
        }
    } else {
        match a.host_bits {
            BitSizeType::Unset => {
                assert(e.len() == 3);
                lemma_get_none(t, "bits"@);
            },
            _ => {
                assert(e.len() == 4);
                assert(e[3].0 == "bits"@);
                lemma_get_at(t, "bits"@, 3);
            },
        }
        lemma_get_none(t, "os"@);
        assert(a.host_os =~= Seq::<char>::empty());
    }
    assert(bits_of(64) == BitSizeType::Bit64);
    assert(bits_of(32) == BitSizeType::Bit32);
}

proof fn lemma_archives_round_trip(xs: Seq<ArchiveView>)
    requires
        forall|k: int| 0 <= k < xs.len() ==> #[trigger] xs[k].size <= i64::MAX,
    ensures
        archives_from_doc(xs.map_values(|a: ArchiveView| archive_table(a))) == Some(xs),
    decreases xs.len(),
{
    if xs.len() > 0 {
        let ts = xs.map_values(|a: ArchiveView| archive_table(a));
        assert(ts.drop_last() =~= xs.drop_last().map_values(|a: ArchiveView| archive_table(a)));
        assert(ts.last() == archive_table(xs.last()));
        assert(xs[xs.len() - 1].size <= i64::MAX);
        assert forall|k: int| 0 <= k < xs.drop_last().len() implies #[trigger] xs.drop_last()[k].size
            <= i64::MAX by {
            assert(xs.drop_last()[k] == xs[k]);
        }
        lemma_archives_round_trip(xs.drop_last());
        lemma_archive_round_trip(xs.last());
        assert(xs.drop_last().push(xs.last()) =~= xs);
    } else {
        assert(xs =~= Seq::<ArchiveView>::empty());
    }
}

proof fn lemma_package_round_trip(p: RemotePackageView)
    requires
        package_round_trips(p),
    ensures
        package_from_doc(package_table(p)) == Some(Ok::<RemotePackageView, RepositoryTomlErrorView>(p)),
{
    reveal_strlit("path");
    reveal_strlit("version");
    reveal_strlit("display_name");
    reveal_strlit("license");
    reveal_strlit("channel");
    reveal_strlit("archive");
    reveal_strlit("obsolete");
    let t = package_table(p);
    let e = t.entries;
    crate::revision::lemma_revision_text_round_trip(p.revision);
    lemma_channel_round_trip(p.channel);
    lemma_archives_round_trip(p.archives);
    let keys = seq!["path"@, "version"@, "display_name"@, "license"@, "channel"@, "archive"@, "obsolete"@];
    assert(keys[0][0] == 'p' && keys[1][0] == 'v' && keys[2][0] == 'd' && keys[3][0] == 'l');
    assert(keys[4][0] == 'c' && keys[5][0] == 'a' && keys[6][0] == 'o');
    assert forall|i: int, j: int| 0 <= i < j < 7 implies keys[i] != keys[j] by {
        assert(keys[i][0] != keys[j][0]);
    }
    assert forall|i: int| 0 <= i < 6 implies e[i].0 == keys[i] by {}
    lemma_get_at(t, "path"@, 0);
    lemma_get_at(t, "version"@, 1);
    lemma_get_at(t, "display_name"@, 2);
    lemma_get_at(t, "license"@, 3);
    lemma_get_at(t, "channel"@, 4);
    lemma_get_at(t, "archive"@, 5);
    if p.obsolete {
        assert(e[6].0 == "obsolete"@);
        lemma_get_at(t, "obsolete"@, 6);
    } else {
        assert(e.len() == 6);
        lemma_get_none(t, "obsolete"@);
    }
}

proof fn lemma_packages_round_trip(ps: Seq<RemotePackageView>)
    requires
        forall|k: int| 0 <= k < ps.len() ==> package_round_trips(#[trigger] ps[k]),
    ensures
        packages_from_doc(ps.map_values(|p: RemotePackageView| package_table(p))) == Some(
            Ok::<Seq<RemotePackageView>, RepositoryTomlErrorView>(ps),
        ),
    decreases ps.len(),
{
    if ps.len() > 0 {
        let ts = ps.map_values(|p: RemotePackageView| package_table(p));
        assert(ts.drop_last() =~= ps.drop_last().map_values(|p: RemotePackageView| package_table(p)));
        assert(ts.last() == package_table(ps.last()));
        assert forall|k: int| 0 <= k < ps.drop_last().len() implies package_round_trips(
            #[trigger] ps.drop_last()[k],
        ) by {
            assert(ps.drop_last()[k] == ps[k]);
        }
        assert(package_round_trips(ps[ps.len() - 1]));
        lemma_packages_round_trip(ps.drop_last());
        lemma_package_round_trip(ps.last());
        assert(ps.drop_last().push(ps.last()) =~= ps);
    } else {
        assert(ps =~= Seq::<RemotePackageView>::empty());
    }
}

/// The document a repository is written as reads back as that repository,
/// without its license texts (which are kept apart), where its archive
/// sizes fit an `i64` and its channels are written by a name of their own.
pub proof fn lemma_repository_doc_round_trip(r: RepositoryXmlView)
    requires
        forall|k: int| 0 <= k < r.remote_packages.len() ==> package_round_trips(#[trigger] r.remote_packages[k]),
    ensures
        repository_from_doc(repository_doc(r)) == Some(
            Ok::<RepositoryXmlView, RepositoryTomlErrorView>(
                RepositoryXmlView { licenses: Seq::empty(), ..r },
            ),
        ),
{
    reveal_strlit("name");
    reveal_strlit("url");
    reveal_strlit("remote_package");
    let d = repository_doc(r);
    lemma_packages_round_trip(r.remote_packages);
    assert("name"@[0] != "url"@[0] && "name"@[0] != "remote_package"@[0] && "url"@[0] != "remote_package"@[0]);
    lemma_get_at(d, "name"@, 0);
    lemma_get_at(d, "url"@, 1);
    lemma_get_at(d, "remote_package"@, 2);
}

} // verus!
