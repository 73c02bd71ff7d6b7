//! The event-driven parser of `repository.xml`.
use vstd::prelude::*;
use crate::assoc::{assoc_insert, insert_key, pairs_view};
use crate::repository::{
    archives_view, channel_from_text, empty_archive, empty_package, empty_repository,
    resolve_package, Archive, ArchiveView, BitSizeType, ChannelType, ChannelView,
    RemotePackage, RemotePackageView, RepositoryXml, RepositoryXmlView,
};
use crate::revision::{rev, u32_max, Revision};
use crate::strs::{chars_of, parse_uint, parse_uint_range, str_eq, IntFailure};
use crate::xml::{
    events_view, is_end_of, lemma_event_view, some_events, start_name, tag_attribute, xml_events, xml_events_of,
    XmlEvent, XmlEventView, XmlReadError, XmlTag,
};

verus! {

/// Where the parser is in the document.
#[derive(Clone, Copy, Debug, PartialEq, Eq, Structural)]
pub enum ParserState {
    /// <sdk:sdk-repository>
    SdkRepository,
    /// <channel id=""></channel>
    Channel,
    /// <remotePackage>
    RemotePackage(RemotePackageState),
    /// <license></license>
    License,
}

#[derive(Clone, Copy, Debug, PartialEq, Eq, Structural)]
pub enum RemotePackageState {
    RemotePackage,
    ReadDisplayName,
    Archives(ArchiveState),
    Revision(RevisionState),
}

#[derive(Clone, Copy, Debug, PartialEq, Eq, Structural)]
pub enum ArchiveState {
    Archives,
    Archive,
    ReadSize,
    ReadChecksum,
    ReadUrl,
    ReadHostOs,
    ReadHostBits,
}

#[derive(Clone, Copy, Debug, PartialEq, Eq, Structural)]
pub enum RevisionState {
    Revision,
    ReadMajor,
    ReadMinor,
    ReadMicro,
    ReadPreview,
}

/// Which number of the document could not be read.
#[derive(Clone, Copy, Debug, PartialEq, Eq)]
pub enum RepositoryNumber {
    Major,
    Minor,
    Micro,
    Preview,
    Size,
    HostBits,
}

/// Why an event of `repository.xml` could not be processed.
#[derive(Clone, Copy, Debug, PartialEq, Eq)]
pub enum RepositoryXmlError {
    /// A text has an entity that could not be resolved.
    Text,
    /// The attributes of a tag could not be read.
    Attributes,
    /// A number could not be read.
    Number(RepositoryNumber, IntFailure),
    /// `<remotePackage>` without `path`.
    MissingPath,
    /// `<license>` without `id`.
    MissingLicenseId,
    /// `<channelRef/>` without `ref`.
    MissingChannelRef,
    /// `<uses-license/>` without `ref`.
    MissingLicenseRef,
    /// `</channel>` of a channel without `id`.
    MissingChannelId,
}

/// The model of the parser.
pub struct RepositoryXmlParserView {
    pub repo: RepositoryXmlView,
    pub state: ParserState,
    pub channel_id: Option<Seq<char>>,
    pub channel_type: Option<ChannelView>,
    pub package: RemotePackageView,
    pub archive: ArchiveView,
    pub revision: Revision,
    pub license_id: Option<Seq<char>>,
    pub channels: Seq<(Seq<char>, ChannelView)>,
}

/// Parses android repository xml for sdk manager
pub struct RepositoryXmlParser {
    repo: RepositoryXml,
    state: ParserState,
    /// Holds the current channel id attribute
    current_channel_id: Option<String>,
    current_channel_type: Option<ChannelType>,
    /// The current remotePackage type being handled
    current_package: RemotePackage,
    /// The current archive being read
    current_archive: Archive,
    /// The current revision we are working with
    current_revision: Revision,
    current_license_id: Option<String>,
    /// A reference table for channels
    channels: Vec<(String, ChannelType)>,
}

pub open spec fn opt_text(o: Option<String>) -> Option<Seq<char>> {
    match o {
        Some(s) => Some(s@),
        None => None,
    }
}

pub open spec fn opt_channel(o: Option<ChannelType>) -> Option<ChannelView> {
    match o {
        Some(c) => Some(c@),
        None => None,
    }
}

impl View for RepositoryXmlParser {
    type V = RepositoryXmlParserView;

    closed spec fn view(&self) -> RepositoryXmlParserView {
        RepositoryXmlParserView {
            repo: self.repo@,
            state: self.state,
            channel_id: opt_text(self.current_channel_id),
            channel_type: opt_channel(self.current_channel_type),
            package: self.current_package@,
            archive: self.current_archive@,
            revision: self.current_revision,
            license_id: opt_text(self.current_license_id),
            channels: pairs_view(self.channels@),
        }
    }
}

/// The parser before the first event.
pub open spec fn initial_parser() -> RepositoryXmlParserView {
    RepositoryXmlParserView {
        repo: empty_repository(),
        state: ParserState::SdkRepository,
        channel_id: None,
        channel_type: None,
        package: empty_package(),
        archive: empty_archive(),
        revision: rev(0, 0, 0, 0),
        license_id: None,
        channels: Seq::empty(),
    }
}

/// A number read from the text of an element.
pub open spec fn number_of(t: Seq<char>, max: int, which: RepositoryNumber) -> Result<int, RepositoryXmlError> {
    match parse_uint(t, max) {
        Ok(n) => Ok(n),
        Err(e) => Err(RepositoryXmlError::Number(which, e)),
    }
}

/// A revision number read from `ev` while inside `<which>`: `Ok(None)` when
/// `ev` is no text.
pub open spec fn revision_field(ev: XmlEvent, which: RepositoryNumber) -> Result<Option<int>, RepositoryXmlError> {
    match ev {
        XmlEvent::Text(None) => Err(RepositoryXmlError::Text),
        XmlEvent::Text(Some(t)) => match number_of(t@, u32_max(), which) {
            Ok(n) => Ok(Some(n)),
            Err(e) => Err(e),
        },
        _ => Ok(None),
    }
}

/// One step inside `<revision>`.
pub open spec fn revision_step(p: RepositoryXmlParserView, st: RevisionState, ev: XmlEvent) -> (RepositoryXmlParserView, Result<RevisionState, RepositoryXmlError>) {
    match st {
        RevisionState::Revision => (p, Ok(
            if start_name(ev) == Some("major"@) {
                RevisionState::ReadMajor
            } else if start_name(ev) == Some("minor"@) {
                RevisionState::ReadMinor
            } else if start_name(ev) == Some("micro"@) {
                RevisionState::ReadMicro
            } else if start_name(ev) == Some("preview"@) {
                RevisionState::ReadPreview
            } else {
                RevisionState::Revision
            },
        )),
        RevisionState::ReadMajor => if is_end_of(ev, "major"@) {
            (p, Ok(RevisionState::Revision))
        } else {
            match revision_field(ev, RepositoryNumber::Major) {
                Err(e) => (p, Err(e)),
                Ok(None) => (p, Ok(st)),
                Ok(Some(n)) => (
                    RepositoryXmlParserView { revision: Revision { major: n as u32, ..p.revision }, ..p },
                    Ok(st),
                ),
            }
        },
        RevisionState::ReadMinor => if is_end_of(ev, "minor"@) {
            (p, Ok(RevisionState::Revision))
        } else {
            match revision_field(ev, RepositoryNumber::Minor) {
                Err(e) => (p, Err(e)),
                Ok(None) => (p, Ok(st)),
                Ok(Some(n)) => (
                    RepositoryXmlParserView { revision: Revision { minor: n as u32, ..p.revision }, ..p },
                    Ok(st),
                ),
            }
        },
        RevisionState::ReadMicro => if is_end_of(ev, "micro"@) {
            (p, Ok(RevisionState::Revision))
        } else {
            match revision_field(ev, RepositoryNumber::Micro) {
                Err(e) => (p, Err(e)),
                Ok(None) => (p, Ok(st)),
                Ok(Some(n)) => (
                    RepositoryXmlParserView { revision: Revision { micro: n as u32, ..p.revision }, ..p },
                    Ok(st),
                ),
            }
        },
        RevisionState::ReadPreview => if is_end_of(ev, "preview"@) {
            (p, Ok(RevisionState::Revision))
        } else {
            match revision_field(ev, RepositoryNumber::Preview) {
                Err(e) => (p, Err(e)),
                Ok(None) => (p, Ok(st)),
                Ok(Some(n)) => (
                    RepositoryXmlParserView {
                        revision: Revision { preview: n as u32, ..p.revision },
                        ..p
                    },
                    Ok(st),
                ),
            }
        },
    }
}

/// The archive after a text event while inside one of its elements.
pub open spec fn archive_text(a: ArchiveView, st: ArchiveState, t: Seq<char>) -> Result<ArchiveView, RepositoryXmlError> {
    match st {
        ArchiveState::ReadSize => match number_of(t, usize::MAX as int, RepositoryNumber::Size) {
            Ok(n) => Ok(ArchiveView { size: n as usize, ..a }),
            Err(e) => Err(e),
        },
        ArchiveState::ReadChecksum => Ok(ArchiveView { checksum: t, ..a }),
        ArchiveState::ReadUrl => Ok(ArchiveView { url: t, ..a }),
        ArchiveState::ReadHostOs => Ok(ArchiveView { host_os: t, ..a }),
        ArchiveState::ReadHostBits => match number_of(t, 255, RepositoryNumber::HostBits) {
            Ok(n) => Ok(
                ArchiveView {
                    host_bits: if n == 32 {
                        BitSizeType::Bit32
                    } else if n == 64 {
                        BitSizeType::Bit64
                    } else {
                        BitSizeType::Unset
                    },
                    ..a
                },
            ),
            Err(e) => Err(e),
        },
        _ => Ok(a),
    }
}

/// The name of the element that each reading state of an archive is inside.
pub open spec fn archive_element(st: ArchiveState) -> Seq<char> {
    match st {
        ArchiveState::ReadSize => "size"@,
        ArchiveState::ReadChecksum => "checksum"@,
        ArchiveState::ReadUrl => "url"@,
        ArchiveState::ReadHostOs => "host-os"@,
        ArchiveState::ReadHostBits => "host-bits"@,
        ArchiveState::Archive => "archive"@,
        ArchiveState::Archives => "archives"@,
    }
}

/// One step inside `<archives>`.
pub open spec fn archive_step(p: RepositoryXmlParserView, st: ArchiveState, ev: XmlEvent) -> (RepositoryXmlParserView, Result<ArchiveState, RepositoryXmlError>) {
    match st {
        ArchiveState::Archives => if start_name(ev) == Some("archive"@) {
            (RepositoryXmlParserView { archive: empty_archive(), ..p }, Ok(ArchiveState::Archive))
        } else {
            (p, Ok(st))
        },
        ArchiveState::Archive => if start_name(ev) == Some("size"@) {
            (p, Ok(ArchiveState::ReadSize))
        } else if start_name(ev) == Some("checksum"@) {
            (p, Ok(ArchiveState::ReadChecksum))
        } else if start_name(ev) == Some("url"@) {
            (p, Ok(ArchiveState::ReadUrl))
        } else if start_name(ev) == Some("host-os"@) {
            (p, Ok(ArchiveState::ReadHostOs))
        } else if start_name(ev) == Some("host-bits"@) {
            (p, Ok(ArchiveState::ReadHostBits))
        } else if is_end_of(ev, "archive"@) {
            (
                RepositoryXmlParserView {
                    package: RemotePackageView {
                        archives: p.package.archives.push(p.archive),
                        ..p.package
                    },
                    ..p
                },
                Ok(ArchiveState::Archives),
            )
        } else {
            (p, Ok(st))
        },
        _ => if is_end_of(ev, archive_element(st)) {
            (p, Ok(ArchiveState::Archive))
        } else {
            match ev {
                XmlEvent::Text(None) => (p, Err(RepositoryXmlError::Text)),
                XmlEvent::Text(Some(t)) => match archive_text(p.archive, st, t@) {
                    Ok(a) => (RepositoryXmlParserView { archive: a, ..p }, Ok(st)),
                    Err(e) => (p, Err(e)),
                },
                _ => (p, Ok(st)),
            }
        },
    }
}

/// One step inside `<remotePackage>`, before its end tag.
pub open spec fn package_step(p: RepositoryXmlParserView, st: RemotePackageState, ev: XmlEvent) -> (RepositoryXmlParserView, Result<RemotePackageState, RepositoryXmlError>) {
    match st {
        RemotePackageState::RemotePackage => match ev {
            XmlEvent::Start(t) => if t.name@ == "display-name"@ {
                (p, Ok(RemotePackageState::ReadDisplayName))
            } else if t.name@ == "archives"@ {
                (p, Ok(RemotePackageState::Archives(ArchiveState::Archives)))
            } else if t.name@ == "revision"@ {
                (
                    RepositoryXmlParserView { revision: rev(0, 0, 0, 0), ..p },
                    Ok(RemotePackageState::Revision(RevisionState::Revision)),
                )
            } else {
                (p, Ok(st))
            },
            XmlEvent::Empty(t) => if t.name@ == "channelRef"@ {
                match tag_attribute(t, "ref"@) {
                    Err(()) => (p, Err(RepositoryXmlError::Attributes)),
                    Ok(None) => (p, Err(RepositoryXmlError::MissingChannelRef)),
                    Ok(Some(v)) => (
                        RepositoryXmlParserView {
                            package: RemotePackageView {
                                channel: ChannelView::Unknown(v),
                                ..p.package
                            },
                            ..p
                        },
                        Ok(st),
                    ),
                }
            } else if t.name@ == "uses-license"@ {
                match tag_attribute(t, "ref"@) {
                    Err(()) => (p, Err(RepositoryXmlError::Attributes)),
                    Ok(None) => (p, Err(RepositoryXmlError::MissingLicenseRef)),
                    Ok(Some(v)) => (
                        RepositoryXmlParserView {
                            package: RemotePackageView { uses_license: v, ..p.package },
                            ..p
                        },
                        Ok(st),
                    ),
                }
            } else {
                (p, Ok(st))
            },
            _ => (p, Ok(st)),
        },
        RemotePackageState::ReadDisplayName => if is_end_of(ev, "display-name"@) {
            (p, Ok(RemotePackageState::RemotePackage))
        } else {
            match ev {
                XmlEvent::Text(None) => (p, Err(RepositoryXmlError::Text)),
                XmlEvent::Text(Some(t)) => (
                    RepositoryXmlParserView {
                        package: RemotePackageView { name: t@, ..p.package },
                        ..p
                    },
                    Ok(st),
                ),
                _ => (p, Ok(st)),
            }
        },
        RemotePackageState::Archives(a) => if is_end_of(ev, "archives"@) {
            (p, Ok(RemotePackageState::RemotePackage))
        } else {
            let (q, r) = archive_step(p, a, ev);
            match r {
                Ok(b) => (q, Ok(RemotePackageState::Archives(b))),
                Err(e) => (q, Err(e)),
            }
        },
        RemotePackageState::Revision(rs) => if is_end_of(ev, "revision"@) {
            (
                RepositoryXmlParserView {
                    package: RemotePackageView { revision: p.revision, ..p.package },
                    ..p
                },
                Ok(RemotePackageState::RemotePackage),
            )
        } else {
            let (q, r) = revision_step(p, rs, ev);
            match r {
                Ok(b) => (q, Ok(RemotePackageState::Revision(b))),
                Err(e) => (q, Err(e)),
            }
        },
    }
}

/// Whether processing `ev` would stop the program: the end of a channel
/// that has an id but no name.
pub open spec fn repo_step_panics(p: RepositoryXmlParserView, ev: XmlEvent) -> bool {
    &&& p.state == ParserState::Channel
    &&& is_end_of(ev, "channel"@)
    &&& p.channel_id is Some
    &&& p.channel_type is None
}

/// The parser after one event, and whether the event was accepted. A
/// refused event leaves the state where it was.
pub open spec fn repo_step(p: RepositoryXmlParserView, ev: XmlEvent) -> (RepositoryXmlParserView, Result<(), RepositoryXmlError>) {
    match p.state {
        ParserState::SdkRepository => match ev {
            XmlEvent::Start(t) => if t.name@ == "channel"@ {
                match tag_attribute(t, "id"@) {
                    Err(()) => (p, Err(RepositoryXmlError::Attributes)),
                    Ok(id) => (
                        RepositoryXmlParserView { channel_id: id, state: ParserState::Channel, ..p },
                        Ok(()),
                    ),
                }
            } else if t.name@ == "remotePackage"@ {
                let q = RepositoryXmlParserView { package: empty_package(), ..p };
                match tag_attribute(t, "path"@) {
                    Err(()) => (q, Err(RepositoryXmlError::Attributes)),
                    Ok(None) => (q, Err(RepositoryXmlError::MissingPath)),
                    Ok(Some(path)) => {
                        let q2 = RepositoryXmlParserView {
                            package: RemotePackageView { path: path, ..empty_package() },
                            ..p
                        };
                        match tag_attribute(t, "obsolete"@) {
                            Err(()) => (q2, Err(RepositoryXmlError::Attributes)),
                            Ok(o) => (
                                RepositoryXmlParserView {
                                    package: RemotePackageView {
                                        obsolete: o == Some("true"@),
                                        ..q2.package
                                    },
                                    state: ParserState::RemotePackage(
                                        RemotePackageState::RemotePackage,
                                    ),
                                    ..q2
                                },
                                Ok(()),
                            ),
                        }
                    },
                }
            } else if t.name@ == "license"@ {
                match tag_attribute(t, "id"@) {
                    Err(()) => (p, Err(RepositoryXmlError::Attributes)),
                    Ok(None) => (p, Err(RepositoryXmlError::MissingLicenseId)),
                    Ok(Some(id)) => (
                        RepositoryXmlParserView {
                            license_id: Some(id),
                            state: ParserState::License,
                            ..p
                        },
                        Ok(()),
                    ),
                }
            } else {
                (p, Ok(()))
            },
            _ => (p, Ok(())),
        },
        ParserState::Channel => if is_end_of(ev, "channel"@) {
            match (p.channel_id, p.channel_type) {
                (None, _) => (p, Err(RepositoryXmlError::MissingChannelId)),
                (Some(id), Some(c)) => (
                    RepositoryXmlParserView {
                        channels: assoc_insert(p.channels, id, c),
                        channel_id: None,
                        channel_type: None,
                        state: ParserState::SdkRepository,
                        ..p
                    },
                    Ok(()),
                ),
                (Some(_), None) => (p, Ok(())),
            }
        } else {
            match ev {
                XmlEvent::Text(None) => (p, Err(RepositoryXmlError::Text)),
                XmlEvent::Text(Some(t)) => (
                    RepositoryXmlParserView { channel_type: Some(channel_from_text(t@)), ..p },
                    Ok(()),
                ),
                _ => (p, Ok(())),
            }
        },
        ParserState::RemotePackage(st) => if is_end_of(ev, "remotePackage"@) {
            (
                RepositoryXmlParserView {
                    repo: RepositoryXmlView {
                        remote_packages: p.repo.remote_packages.push(p.package),
                        ..p.repo
                    },
                    package: empty_package(),
                    state: ParserState::SdkRepository,
                    ..p
                },
                Ok(()),
            )
        } else {
            let (q, r) = package_step(p, st, ev);
            match r {
                Ok(s) => (RepositoryXmlParserView { state: ParserState::RemotePackage(s), ..q }, Ok(())),
                Err(e) => (q, Err(e)),
            }
        },
        ParserState::License => if is_end_of(ev, "license"@) {
            (
                RepositoryXmlParserView { license_id: None, state: ParserState::SdkRepository, ..p },
                Ok(()),
            )
        } else {
            match ev {
                XmlEvent::Text(None) => (p, Err(RepositoryXmlError::Text)),
                XmlEvent::Text(Some(t)) => match p.license_id {
                    Some(id) => (
                        RepositoryXmlParserView {
                            repo: RepositoryXmlView {
                                licenses: assoc_insert(p.repo.licenses, id, t@),
                                ..p.repo
                            },
                            ..p
                        },
                        Ok(()),
                    ),
                    None => (p, Ok(())),
                },
                _ => (p, Ok(())),
            }
        },
    }
}


/// Reads the text `t` as a number no larger than `max`.
fn read_number(t: &String, max: u64, which: RepositoryNumber) -> (r: Result<u64, RepositoryXmlError>)
    ensures
        match number_of(t@, max as int, which) {
            Ok(n) => r == Ok::<u64, RepositoryXmlError>(n as u64),
            Err(e) => r == Err::<u64, RepositoryXmlError>(e),
        },
{
    let v = chars_of(t.as_str());
    assert(v@.subrange(0, v@.len() as int) == v@);
    match parse_uint_range(&v, 0, v.len(), max) {
        Ok(n) => Ok(n),
        Err(e) => Err(RepositoryXmlError::Number(which, e)),
    }
}

/// Whether `ev` is the start tag `<name ...>`.
fn is_start(ev: &XmlEvent, name: &str) -> (r: bool)
    ensures
        r == (start_name(*ev) == Some(name@)),
{
    crate::xml::starts(ev, name)
}

/// Whether `ev` is the end tag `</name>`.
fn is_end(ev: &XmlEvent, name: &str) -> (r: bool)
    ensures
        r == is_end_of(*ev, name@),
{
    crate::xml::ends(ev, name)
}

impl RepositoryXmlParser {
    /// A parser at the start of a document.
    pub fn new() -> (r: Self)
        ensures
            r@ == initial_parser(),
    {
        let r = Self {
            repo: RepositoryXml::default(),
            state: ParserState::SdkRepository,
            current_channel_id: None,
            current_channel_type: None,
            current_license_id: None,
            current_package: RemotePackage::default(),
            current_revision: Revision::default(),
            current_archive: Archive::default(),
            channels: Vec::new(),
        };
        assert(pairs_view(r.channels@) =~= Seq::<(Seq<char>, ChannelView)>::empty());
        r
    }

    fn parse_revision(&mut self, state: RevisionState, event: XmlEvent) -> (r: Result<RevisionState, RepositoryXmlError>)
        ensures
            (final(self)@, r) == revision_step(old(self)@, state, event),
    {
        match state {
            RevisionState::Revision => {
                if is_start(&event, "major") {
                    Ok(RevisionState::ReadMajor)
                } else if is_start(&event, "minor") {
                    Ok(RevisionState::ReadMinor)
                } else if is_start(&event, "micro") {
                    Ok(RevisionState::ReadMicro)
                } else if is_start(&event, "preview") {
                    Ok(RevisionState::ReadPreview)
                } else {
                    Ok(RevisionState::Revision)
                }
            },
            _ => {
                let (tag, which) = match state {
                    RevisionState::ReadMajor => ("major", RepositoryNumber::Major),
                    RevisionState::ReadMinor => ("minor", RepositoryNumber::Minor),
                    RevisionState::ReadMicro => ("micro", RepositoryNumber::Micro),
                    _ => ("preview", RepositoryNumber::Preview),
                };
                if is_end(&event, tag) {
                    return Ok(RevisionState::Revision);
                }
                match event {
                    XmlEvent::Text(None) => Err(RepositoryXmlError::Text),
                    XmlEvent::Text(Some(t)) => {
                        let n = read_number(&t, 0xffff_ffffu64, which)?;
                        proof {
                            crate::strs::lemma_parse_uint_bound(t@, u32_max());
                        }
                        let n = n as u32;
                        match state {
                            RevisionState::ReadMajor => {
                                self.current_revision.major = n;
                            },
                            RevisionState::ReadMinor => {
                                self.current_revision.minor = n;
                            },
                            RevisionState::ReadMicro => {
                                self.current_revision.micro = n;
                            },
                            _ => {
                                self.current_revision.preview = n;
                            },
                        }
                        Ok(state)
                    },
                    _ => Ok(state),
                }
            },
        }
    }

    fn parse_archive(&mut self, state: ArchiveState, event: XmlEvent) -> (r: Result<ArchiveState, RepositoryXmlError>)
        ensures
            (final(self)@, r) == archive_step(old(self)@, state, event),
    {
        match state {
            ArchiveState::Archives => {
                if is_start(&event, "archive") {
                    self.current_archive = Archive::default();
                    Ok(ArchiveState::Archive)
                } else {
                    Ok(ArchiveState::Archives)
                }
            },
            ArchiveState::Archive => {
                if is_start(&event, "size") {
                    Ok(ArchiveState::ReadSize)
                } else if is_start(&event, "checksum") {
                    Ok(ArchiveState::ReadChecksum)
                } else if is_start(&event, "url") {
                    Ok(ArchiveState::ReadUrl)
                } else if is_start(&event, "host-os") {
                    Ok(ArchiveState::ReadHostOs)
                } else if is_start(&event, "host-bits") {
                    Ok(ArchiveState::ReadHostBits)
                } else if is_end(&event, "archive") {
                    let a = self.current_archive.clone();
                    self.current_package.add_archive(a);
                    Ok(ArchiveState::Archives)
                } else {
                    Ok(ArchiveState::Archive)
                }
            },
            _ => {
                let tag = match state {
                    ArchiveState::ReadSize => "size",
                    ArchiveState::ReadChecksum => "checksum",
                    ArchiveState::ReadUrl => "url",
                    ArchiveState::ReadHostOs => "host-os",
                    _ => "host-bits",
                };
                assert(tag@ == archive_element(state));
                if is_end(&event, tag) {
                    return Ok(ArchiveState::Archive);
                }
                match event {
                    XmlEvent::Text(None) => Err(RepositoryXmlError::Text),
                    XmlEvent::Text(Some(t)) => {
                        match state {
                            ArchiveState::ReadSize => {
                                proof {
                                    crate::strs::lemma_parse_uint_bound(t@, usize::MAX as int);
                                }
                                let n = read_number(&t, usize::MAX as u64, RepositoryNumber::Size)?;
                                self.current_archive.set_size(n as usize);
                            },
                            ArchiveState::ReadChecksum => {
                                self.current_archive.set_checksum(t);
                            },
                            ArchiveState::ReadUrl => {
                                self.current_archive.set_url(t);
                            },
                            ArchiveState::ReadHostOs => {
                                self.current_archive.set_host_os(t);
                            },
                            _ => {
                                proof {
                                    crate::strs::lemma_parse_uint_bound(t@, 255);
                                }
                                let n = read_number(&t, 255, RepositoryNumber::HostBits)?;
                                if n == 32 {
                                    self.current_archive.set_host_bits(BitSizeType::Bit32);
                                } else if n == 64 {
                                    self.current_archive.set_host_bits(BitSizeType::Bit64);
                                } else {
                                    self.current_archive.set_host_bits(BitSizeType::Unset);
                                }
                            },
                        }
                        Ok(state)
                    },
                    _ => Ok(state),
                }
            },
        }
    }

    fn process_remote_package(&mut self, state: RemotePackageState, event: XmlEvent) -> (r: Result<RemotePackageState, RepositoryXmlError>)
        ensures
            (final(self)@, r) == package_step(old(self)@, state, event),
    {
        match state {
            RemotePackageState::RemotePackage => match event {
                XmlEvent::Start(t) => {
                    if str_eq(t.name.as_str(), "display-name") {
                        Ok(RemotePackageState::ReadDisplayName)
                    } else if str_eq(t.name.as_str(), "archives") {
                        Ok(RemotePackageState::Archives(ArchiveState::Archives))
                    } else if str_eq(t.name.as_str(), "revision") {
                        self.current_revision = Revision::default();
                        Ok(RemotePackageState::Revision(RevisionState::Revision))
                    } else {
                        Ok(RemotePackageState::RemotePackage)
                    }
                },
                XmlEvent::Empty(t) => {
                    if str_eq(t.name.as_str(), "channelRef") {
                        match t.attribute("ref") {
                            Err(_) => Err(RepositoryXmlError::Attributes),
                            Ok(None) => Err(RepositoryXmlError::MissingChannelRef),
                            Ok(Some(v)) => {
                                self.current_package.set_channel(ChannelType::Unknown(v));
                                Ok(RemotePackageState::RemotePackage)
                            },
                        }
                    } else if str_eq(t.name.as_str(), "uses-license") {
                        match t.attribute("ref") {
                            Err(_) => Err(RepositoryXmlError::Attributes),
                            Ok(None) => Err(RepositoryXmlError::MissingLicenseRef),
                            Ok(Some(v)) => {
                                self.current_package.set_license(v);
                                Ok(RemotePackageState::RemotePackage)
                            },
                        }
                    } else {
                        Ok(RemotePackageState::RemotePackage)
                    }
                },
                _ => Ok(RemotePackageState::RemotePackage),
            },
            RemotePackageState::ReadDisplayName => {
                if is_end(&event, "display-name") {
                    return Ok(RemotePackageState::RemotePackage);
                }
                match event {
                    XmlEvent::Text(None) => Err(RepositoryXmlError::Text),
                    XmlEvent::Text(Some(t)) => {
                        self.current_package.set_display_name(t);
                        Ok(RemotePackageState::ReadDisplayName)
                    },
                    _ => Ok(RemotePackageState::ReadDisplayName),
                }
            },
            RemotePackageState::Archives(a) => {
                if is_end(&event, "archives") {
                    return Ok(RemotePackageState::RemotePackage);
                }
                let b = self.parse_archive(a, event)?;
                Ok(RemotePackageState::Archives(b))
            },
            RemotePackageState::Revision(rs) => {
                if is_end(&event, "revision") {
                    let rv = self.current_revision;
                    self.current_package.set_revision(rv);
                    return Ok(RemotePackageState::RemotePackage);
                }
                let b = self.parse_revision(rs, event)?;
                Ok(RemotePackageState::Revision(b))
            },
        }
    }

    /// Whether processing `event` would stop the program, as the end of a
    /// channel with an id but no name does.
    pub fn would_panic(&self, event: &XmlEvent) -> (r: bool)
        ensures
            r == repo_step_panics(self@, *event),
    {
        self.state == ParserState::Channel && is_end(event, "channel")
            && self.current_channel_id.is_some() && self.current_channel_type.is_none()
    }

    /// Processes one event of the document.
    pub fn process(&mut self, event: XmlEvent) -> (r: Result<(), RepositoryXmlError>)
        requires
            !repo_step_panics(old(self)@, event),
        ensures
            (final(self)@, r) == repo_step(old(self)@, event),
    {
        match self.state {
            ParserState::SdkRepository => match event {
                XmlEvent::Start(t) => {
                    if str_eq(t.name.as_str(), "channel") {
                        match t.attribute("id") {
                            Err(_) => Err(RepositoryXmlError::Attributes),
                            Ok(id) => {
                                self.current_channel_id = id;
                                self.state = ParserState::Channel;
                                Ok(())
                            },
                        }
                    } else if str_eq(t.name.as_str(), "remotePackage") {
                        self.current_package = RemotePackage::default();
                        match t.attribute("path") {
                            Err(_) => {
                                return Err(RepositoryXmlError::Attributes);
                            },
                            Ok(None) => {
                                return Err(RepositoryXmlError::MissingPath);
                            },
                            Ok(Some(path)) => {
                                self.current_package.set_path(path);
                            },
                        }
                        match t.attribute("obsolete") {
                            Err(_) => {
                                return Err(RepositoryXmlError::Attributes);
                            },
                            Ok(o) => {
                                if let Some(v) = o {
                                    if str_eq(v.as_str(), "true") {
                                        self.current_package.set_obsolete(true);
                                    }
                                }
                            },
                        }
                        self.state = ParserState::RemotePackage(RemotePackageState::RemotePackage);
                        Ok(())
                    } else if str_eq(t.name.as_str(), "license") {
                        match t.attribute("id") {
                            Err(_) => Err(RepositoryXmlError::Attributes),
                            Ok(None) => Err(RepositoryXmlError::MissingLicenseId),
                            Ok(Some(id)) => {
                                self.current_license_id = Some(id);
                                self.state = ParserState::License;
                                Ok(())
                            },
                        }
                    } else {
                        Ok(())
                    }
                },
                _ => Ok(()),
            },
            ParserState::Channel => {
                if is_end(&event, "channel") {
                    match (&self.current_channel_id, &self.current_channel_type) {
                        (None, _) => {
                            return Err(RepositoryXmlError::MissingChannelId);
                        },
                        (Some(id), Some(c)) => {
                            let id = id.clone();
                            let c = c.clone();
                            insert_key(&mut self.channels, id, c);
                        },
                        (Some(_), None) => {
                            return Ok(());
                        },
                    }
                    self.current_channel_id = None;
                    self.current_channel_type = None;
                    self.state = ParserState::SdkRepository;
                    return Ok(());
                }
                match event {
                    XmlEvent::Text(None) => Err(RepositoryXmlError::Text),
                    XmlEvent::Text(Some(t)) => {
                        self.current_channel_type = Some(ChannelType::from_str(t.as_str()));
                        Ok(())
                    },
                    _ => Ok(()),
                }
            },
            ParserState::RemotePackage(st) => {
                if is_end(&event, "remotePackage") {
                    let p = self.current_package.clone();
                    self.repo.add_remote_package(p);
                    self.current_package = RemotePackage::default();
                    self.state = ParserState::SdkRepository;
                    return Ok(());
                }
                let s = self.process_remote_package(st, event)?;
                self.state = ParserState::RemotePackage(s);
                Ok(())
            },
            ParserState::License => {
                if is_end(&event, "license") {
                    self.current_license_id = None;
                    self.state = ParserState::SdkRepository;
                    return Ok(());
                }
                match event {
                    XmlEvent::Text(None) => Err(RepositoryXmlError::Text),
                    XmlEvent::Text(Some(t)) => {
                        match &self.current_license_id {
                            Some(id) => {
                                let id = id.clone();
                                self.repo.add_license(id, t);
                            },
                            None => {},
                        }
                        Ok(())
                    },
                    _ => Ok(()),
                }
            },
        }
    }

    /// Returns the complete repository with all channels resolved to their value
    pub fn get_repository(self) -> (r: RepositoryXml)
        ensures
            r@ == (RepositoryXmlView {
                remote_packages: self@.repo.remote_packages.map_values(
                    |p: RemotePackageView| resolve_package(p, self@.channels),
                ),
                ..self@.repo
            }),
    {
        let mut repo = self.repo;
        repo.resolve_channels(&self.channels);
        repo
    }
}

impl Default for RepositoryXmlParser {
    fn default() -> (r: Self)
        ensures
            r@ == initial_parser(),
    {
        Self::new()
    }
}

proof fn lemma_repo_step_view(p: RepositoryXmlParserView, a: XmlEvent, b: XmlEvent)
    requires
        a@ == b@,
    ensures
        repo_step(p, a) == repo_step(p, b),
        repo_step_panics(p, a) == repo_step_panics(p, b),
{
    lemma_event_view(a, b);
    match p.state {
        ParserState::RemotePackage(st) => {
            match st {
                RemotePackageState::Archives(x) => assert(archive_step(p, x, a) == archive_step(p, x, b)),
                RemotePackageState::Revision(x) => {
                    assert forall|w: RepositoryNumber| #[trigger] revision_field(a, w) == revision_field(b, w) by {}
                    assert(revision_step(p, x, a) == revision_step(p, x, b));
                },
                _ => {},
            }
            assert(package_step(p, st, a) == package_step(p, st, b));
        },
        _ => {},
    }
}

/// Why reading the events of a `repository.xml` document stopped.
#[derive(Clone, Copy, Debug, PartialEq, Eq)]
pub enum RepositoryRunError {
    /// A channel has an id but no name.
    UnnamedChannel,
    /// An event could not be processed.
    Xml(RepositoryXmlError),
}

/// The parser after the events `evs`, one after the other, or why it
/// stopped.
pub open spec fn repo_run(p: RepositoryXmlParserView, evs: Seq<XmlEvent>) -> Result<RepositoryXmlParserView, RepositoryRunError>
    decreases evs.len(),
{
    if evs.len() == 0 {
        Ok(p)
    } else if repo_step_panics(p, evs[0]) {
        Err(RepositoryRunError::UnnamedChannel)
    } else {
        match repo_step(p, evs[0]) {
            (np, Ok(())) => repo_run(np, evs.drop_first()),
            (_, Err(e)) => Err(RepositoryRunError::Xml(e)),
        }
    }
}

/// Two runs over events with the same models end alike.
pub proof fn lemma_repo_run_view(p: RepositoryXmlParserView, a: Seq<XmlEvent>, b: Seq<XmlEvent>)
    requires
        events_view(a) == events_view(b),
    ensures
        repo_run(p, a) == repo_run(p, b),
    decreases a.len(),
{
    assert(a.len() == events_view(a).len());
    assert(b.len() == events_view(b).len());
    if a.len() > 0 {
        assert(events_view(a)[0] == a[0]@);
        assert(events_view(b)[0] == b[0]@);
        lemma_repo_step_view(p, a[0], b[0]);
        assert(events_view(a.drop_first()) =~= events_view(a).drop_first());
        assert(events_view(b.drop_first()) =~= events_view(b).drop_first());
        match repo_step(p, a[0]) {
            (np, Ok(())) => lemma_repo_run_view(np, a.drop_first(), b.drop_first()),
            _ => {},
        }
    }
}

/// Why a `repository.xml` document could not be read.
#[derive(Clone, Debug, PartialEq, Eq)]
pub enum RepositoryReadError {
    /// The document is not well-formed XML.
    Xml(XmlReadError),
    /// Reading its events stopped.
    Repository(RepositoryRunError),
}

/// The repository a finished parser holds, its packages' channels
/// resolved.
pub open spec fn finished_repository(p: RepositoryXmlParserView) -> RepositoryXmlView {
    RepositoryXmlView {
        remote_packages: p.repo.remote_packages.map_values(|x: RemotePackageView| resolve_package(x, p.channels)),
        ..p.repo
    }
}

/// What reading a `repository.xml` document whose events are `evs` gives;
/// an XML error where the document could not be read as XML.
pub open spec fn spec_repository_text(evs: Result<Seq<XmlEventView>, ()>) -> Result<RepositoryXmlView, Option<RepositoryRunError>> {
    match evs {
        Err(()) => Err(None),
        Ok(e) => match repo_run(initial_parser(), some_events(e)) {
            Ok(p) => Ok(finished_repository(p)),
            Err(x) => Err(Some(x)),
        },
    }
}

/// Reads the events of a `repository.xml` document in document order; then
/// the packages' channels are resolved.
pub fn parse_repository_events(events: Vec<XmlEvent>) -> (r: Result<RepositoryXml, RepositoryRunError>)
    ensures
        match repo_run(initial_parser(), events@) {
            Ok(p) => r matches Ok(y) && y@ == finished_repository(p),
            Err(e) => r == Err::<RepositoryXml, RepositoryRunError>(e),
        },
{
    let mut parser = RepositoryXmlParser::new();
    let ghost start = parser@;
    let ghost all = events@;
    let mut rest = events;
    let ghost mut i: int = 0;
    assert(all.skip(0) == all);
    while rest.len() > 0
        invariant
            0 <= i <= all.len(),
            rest@ == all.skip(i),
            repo_run(start, all) == repo_run(parser@, all.skip(i)),
            all == events@,
            start == initial_parser(),
        decreases rest.len(),
    {
        proof {
            assert(all.skip(i)[0] == all[i]);
            assert(all.skip(i).drop_first() == all.skip(i + 1));
        }
        let ev = rest.remove(0);
        assert(ev == all.skip(i)[0]);
        if parser.would_panic(&ev) {
            assert(repo_run(parser@, all.skip(i)) == Err::<RepositoryXmlParserView, RepositoryRunError>(
                RepositoryRunError::UnnamedChannel,
            ));
            return Err(RepositoryRunError::UnnamedChannel);
        }
        let ghost before = parser@;
        match parser.process(ev) {
            Ok(()) => {},
            Err(e) => {
                assert(repo_step(before, all.skip(i)[0]).1 == Err::<(), RepositoryXmlError>(e));
                assert(repo_run(before, all.skip(i)) == Err::<RepositoryXmlParserView, RepositoryRunError>(
                    RepositoryRunError::Xml(e),
                ));
                return Err(RepositoryRunError::Xml(e));
            },
        }
        proof {
            i = i + 1;
        }
    }
    Ok(parser.get_repository())
}

/// Reads the text of a `repository.xml` document: its events, read by
/// `quick_xml`, processed in document order; then the packages' channels
/// are resolved.
pub fn parse_repository_xml_text(text: &str) -> (r: Result<RepositoryXml, RepositoryReadError>)
    ensures
        match spec_repository_text(xml_events_of(text@)) {
            Ok(x) => r matches Ok(y) && y@ == x,
            Err(None) => r matches Err(RepositoryReadError::Xml(_)),
            Err(Some(e)) => r == Err::<RepositoryXml, RepositoryReadError>(RepositoryReadError::Repository(e)),
        },
{
    match xml_events(text) {
        Err(e) => Err(RepositoryReadError::Xml(e)),
        Ok(events) => {
            proof {
                let evs = events_view(events@);
                assert(events_view(some_events(evs)) == evs);
                lemma_repo_run_view(initial_parser(), some_events(evs), events@);
            }
            match parse_repository_events(events) {
                Ok(x) => Ok(x),
                Err(e) => Err(RepositoryReadError::Repository(e)),
            }
        },
    }
}

proof fn lemma_revision_names_distinct()
    ensures
        "major"@ != "minor"@,
        "major"@ != "micro"@,
        "major"@ != "preview"@,
        "major"@ != "remotePackage"@,
        "major"@ != "revision"@,
        "minor"@ != "micro"@,
        "minor"@ != "preview"@,
        "minor"@ != "remotePackage"@,
        "minor"@ != "revision"@,
        "micro"@ != "preview"@,
        "micro"@ != "remotePackage"@,
        "micro"@ != "revision"@,
        "preview"@ != "remotePackage"@,
        "preview"@ != "revision"@,
        "remotePackage"@ != "revision"@,
{
    reveal_strlit("major");
    reveal_strlit("minor");
    reveal_strlit("micro");
    reveal_strlit("preview");
    reveal_strlit("remotePackage");
    reveal_strlit("revision");
    assert("major"@[1] != "minor"@[1]);
    assert("major"@[1] != "micro"@[1]);
    assert("major"@[0] != "preview"@[0]);
    assert("major"@[0] != "remotePackage"@[0]);
    assert("major"@[0] != "revision"@[0]);
    assert("minor"@[2] != "micro"@[2]);
    assert("minor"@[0] != "preview"@[0]);
    assert("minor"@[0] != "remotePackage"@[0]);
    assert("minor"@[0] != "revision"@[0]);
    assert("micro"@[0] != "preview"@[0]);
    assert("micro"@[0] != "remotePackage"@[0]);
    assert("micro"@[0] != "revision"@[0]);
    assert("preview"@[0] != "remotePackage"@[0]);
    assert("preview"@[0] != "revision"@[0]);
    assert("remotePackage"@.len() != "revision"@.len());
}

/// Inside `<revision>`, a `<major>` element whose text reads as the
/// number `n` makes `n` the major number of the revision, leaves its other
/// numbers as they were, and returns to the revision.
pub proof fn lemma_revision_major(p: RepositoryXmlParserView, tag: XmlTag, t: String, end: String, n: int)
    requires
        p.state == ParserState::RemotePackage(RemotePackageState::Revision(RevisionState::Revision)),
        tag.name@ == "major"@,
        end@ == "major"@,
        parse_uint(t@, u32_max()) == Ok::<int, IntFailure>(n),
    ensures
        repo_run(p, seq![XmlEvent::Start(tag), XmlEvent::Text(Some(t)), XmlEvent::End(end)]) == Ok::<
            RepositoryXmlParserView,
            RepositoryRunError,
        >(RepositoryXmlParserView { revision: Revision { major: n as u32, ..p.revision }, ..p }),
{
    lemma_revision_names_distinct();
    let evs = seq![XmlEvent::Start(tag), XmlEvent::Text(Some(t)), XmlEvent::End(end)];
    assert(evs[0] == XmlEvent::Start(tag));
    assert(evs.drop_first()[0] == XmlEvent::Text(Some(t)));
    assert(evs.drop_first().drop_first()[0] == XmlEvent::End(end));
    assert(evs.drop_first().drop_first().drop_first() =~= Seq::<XmlEvent>::empty());
    let p1 = repo_step(p, evs[0]).0;
    assert(repo_step(p, evs[0]).1 is Ok);
    let p2 = repo_step(p1, evs.drop_first()[0]).0;
    assert(repo_step(p1, evs.drop_first()[0]).1 is Ok);
    let p3 = repo_step(p2, evs.drop_first().drop_first()[0]).0;
    assert(repo_step(p2, evs.drop_first().drop_first()[0]).1 is Ok);
    assert(repo_run(p3, evs.drop_first().drop_first().drop_first()) == Ok::<RepositoryXmlParserView, RepositoryRunError>(p3));
    assert(repo_run(p2, evs.drop_first().drop_first()) == Ok::<RepositoryXmlParserView, RepositoryRunError>(p3));
    assert(repo_run(p1, evs.drop_first()) == Ok::<RepositoryXmlParserView, RepositoryRunError>(p3));
}

/// Inside `<revision>`, a `<minor>` element whose text reads as the
/// number `n` makes `n` the minor number of the revision, leaves its other
/// numbers as they were, and returns to the revision.
pub proof fn lemma_revision_minor(p: RepositoryXmlParserView, tag: XmlTag, t: String, end: String, n: int)
    requires
        p.state == ParserState::RemotePackage(RemotePackageState::Revision(RevisionState::Revision)),
        tag.name@ == "minor"@,
        end@ == "minor"@,
        parse_uint(t@, u32_max()) == Ok::<int, IntFailure>(n),
    ensures
        repo_run(p, seq![XmlEvent::Start(tag), XmlEvent::Text(Some(t)), XmlEvent::End(end)]) == Ok::<
            RepositoryXmlParserView,
            RepositoryRunError,
        >(RepositoryXmlParserView { revision: Revision { minor: n as u32, ..p.revision }, ..p }),
{
    lemma_revision_names_distinct();
    let evs = seq![XmlEvent::Start(tag), XmlEvent::Text(Some(t)), XmlEvent::End(end)];
    assert(evs[0] == XmlEvent::Start(tag));
    assert(evs.drop_first()[0] == XmlEvent::Text(Some(t)));
    assert(evs.drop_first().drop_first()[0] == XmlEvent::End(end));
    assert(evs.drop_first().drop_first().drop_first() =~= Seq::<XmlEvent>::empty());
    let p1 = repo_step(p, evs[0]).0;
    assert(repo_step(p, evs[0]).1 is Ok);
    let p2 = repo_step(p1, evs.drop_first()[0]).0;
    assert(repo_step(p1, evs.drop_first()[0]).1 is Ok);
    let p3 = repo_step(p2, evs.drop_first().drop_first()[0]).0;
    assert(repo_step(p2, evs.drop_first().drop_first()[0]).1 is Ok);
    assert(repo_run(p3, evs.drop_first().drop_first().drop_first()) == Ok::<RepositoryXmlParserView, RepositoryRunError>(p3));
    assert(repo_run(p2, evs.drop_first().drop_first()) == Ok::<RepositoryXmlParserView, RepositoryRunError>(p3));
    assert(repo_run(p1, evs.drop_first()) == Ok::<RepositoryXmlParserView, RepositoryRunError>(p3));
}

/// Inside `<revision>`, a `<micro>` element whose text reads as the
/// number `n` makes `n` the micro number of the revision, leaves its other
/// numbers as they were, and returns to the revision.
pub proof fn lemma_revision_micro(p: RepositoryXmlParserView, tag: XmlTag, t: String, end: String, n: int)
    requires
        p.state == ParserState::RemotePackage(RemotePackageState::Revision(RevisionState::Revision)),
        tag.name@ == "micro"@,
        end@ == "micro"@,
        parse_uint(t@, u32_max()) == Ok::<int, IntFailure>(n),
    ensures
        repo_run(p, seq![XmlEvent::Start(tag), XmlEvent::Text(Some(t)), XmlEvent::End(end)]) == Ok::<
            RepositoryXmlParserView,
            RepositoryRunError,
        >(RepositoryXmlParserView { revision: Revision { micro: n as u32, ..p.revision }, ..p }),
{
    lemma_revision_names_distinct();
    let evs = seq![XmlEvent::Start(tag), XmlEvent::Text(Some(t)), XmlEvent::End(end)];
    assert(evs[0] == XmlEvent::Start(tag));
    assert(evs.drop_first()[0] == XmlEvent::Text(Some(t)));
    assert(evs.drop_first().drop_first()[0] == XmlEvent::End(end));
    assert(evs.drop_first().drop_first().drop_first() =~= Seq::<XmlEvent>::empty());
    let p1 = repo_step(p, evs[0]).0;
    assert(repo_step(p, evs[0]).1 is Ok);
    let p2 = repo_step(p1, evs.drop_first()[0]).0;
    assert(repo_step(p1, evs.drop_first()[0]).1 is Ok);
    let p3 = repo_step(p2, evs.drop_first().drop_first()[0]).0;
    assert(repo_step(p2, evs.drop_first().drop_first()[0]).1 is Ok);
    assert(repo_run(p3, evs.drop_first().drop_first().drop_first()) == Ok::<RepositoryXmlParserView, RepositoryRunError>(p3));
    assert(repo_run(p2, evs.drop_first().drop_first()) == Ok::<RepositoryXmlParserView, RepositoryRunError>(p3));
    assert(repo_run(p1, evs.drop_first()) == Ok::<RepositoryXmlParserView, RepositoryRunError>(p3));
}

/// Inside `<revision>`, a `<preview>` element whose text reads as the
/// number `n` makes `n` the preview number of the revision, leaves its other
/// numbers as they were, and returns to the revision.
pub proof fn lemma_revision_preview(p: RepositoryXmlParserView, tag: XmlTag, t: String, end: String, n: int)
    requires
        p.state == ParserState::RemotePackage(RemotePackageState::Revision(RevisionState::Revision)),
        tag.name@ == "preview"@,
        end@ == "preview"@,
        parse_uint(t@, u32_max()) == Ok::<int, IntFailure>(n),
    ensures
        repo_run(p, seq![XmlEvent::Start(tag), XmlEvent::Text(Some(t)), XmlEvent::End(end)]) == Ok::<
            RepositoryXmlParserView,
            RepositoryRunError,
        >(RepositoryXmlParserView { revision: Revision { preview: n as u32, ..p.revision }, ..p }),
{
    lemma_revision_names_distinct();
    let evs = seq![XmlEvent::Start(tag), XmlEvent::Text(Some(t)), XmlEvent::End(end)];
    assert(evs[0] == XmlEvent::Start(tag));
    assert(evs.drop_first()[0] == XmlEvent::Text(Some(t)));
    assert(evs.drop_first().drop_first()[0] == XmlEvent::End(end));
    assert(evs.drop_first().drop_first().drop_first() =~= Seq::<XmlEvent>::empty());
    let p1 = repo_step(p, evs[0]).0;
    assert(repo_step(p, evs[0]).1 is Ok);
    let p2 = repo_step(p1, evs.drop_first()[0]).0;
    assert(repo_step(p1, evs.drop_first()[0]).1 is Ok);
    let p3 = repo_step(p2, evs.drop_first().drop_first()[0]).0;
    assert(repo_step(p2, evs.drop_first().drop_first()[0]).1 is Ok);
    assert(repo_run(p3, evs.drop_first().drop_first().drop_first()) == Ok::<RepositoryXmlParserView, RepositoryRunError>(p3));
    assert(repo_run(p2, evs.drop_first().drop_first()) == Ok::<RepositoryXmlParserView, RepositoryRunError>(p3));
    assert(repo_run(p1, evs.drop_first()) == Ok::<RepositoryXmlParserView, RepositoryRunError>(p3));
}

proof fn lemma_archive_names_distinct()
    ensures
        "size"@ != "checksum"@,
        "size"@ != "url"@,
        "size"@ != "host-os"@,
        "size"@ != "host-bits"@,
        "size"@ != "archive"@,
        "size"@ != "archives"@,
        "size"@ != "remotePackage"@,
        "checksum"@ != "url"@,
        "checksum"@ != "host-os"@,
        "checksum"@ != "host-bits"@,
        "checksum"@ != "archive"@,
        "checksum"@ != "archives"@,
        "checksum"@ != "remotePackage"@,
        "url"@ != "host-os"@,
        "url"@ != "host-bits"@,
        "url"@ != "archive"@,
        "url"@ != "archives"@,
        "url"@ != "remotePackage"@,
        "host-os"@ != "host-bits"@,
        "host-os"@ != "archive"@,
        "host-os"@ != "archives"@,
        "host-os"@ != "remotePackage"@,
        "host-bits"@ != "archive"@,
        "host-bits"@ != "archives"@,
        "host-bits"@ != "remotePackage"@,
        "archive"@ != "archives"@,
        "archive"@ != "remotePackage"@,
        "archives"@ != "remotePackage"@,
{
    reveal_strlit("size");
    reveal_strlit("checksum");
    reveal_strlit("url");
    reveal_strlit("host-os");
    reveal_strlit("host-bits");
    reveal_strlit("archive");
    reveal_strlit("archives");
    reveal_strlit("remotePackage");
    assert("size"@[0] != "checksum"@[0]);
    assert("size"@[0] != "url"@[0]);
    assert("size"@[0] != "host-os"@[0]);
    assert("size"@[0] != "host-bits"@[0]);
    assert("size"@[0] != "archive"@[0]);
    assert("size"@[0] != "archives"@[0]);
    assert("size"@[0] != "remotePackage"@[0]);
    assert("checksum"@[0] != "url"@[0]);
    assert("checksum"@[0] != "host-os"@[0]);
    assert("checksum"@[0] != "host-bits"@[0]);
    assert("checksum"@[0] != "archive"@[0]);
    assert("checksum"@[0] != "archives"@[0]);
    assert("checksum"@[0] != "remotePackage"@[0]);
    assert("url"@[0] != "host-os"@[0]);
    assert("url"@[0] != "host-bits"@[0]);
    assert("url"@[0] != "archive"@[0]);
    assert("url"@[0] != "archives"@[0]);
    assert("url"@[0] != "remotePackage"@[0]);
    assert("host-os"@.len() != "host-bits"@.len());
    assert("host-os"@[0] != "archive"@[0]);
    assert("host-os"@[0] != "archives"@[0]);
    assert("host-os"@[0] != "remotePackage"@[0]);
    assert("host-bits"@[0] != "archive"@[0]);
    assert("host-bits"@[0] != "archives"@[0]);
    assert("host-bits"@[0] != "remotePackage"@[0]);
    assert("archive"@.len() != "archives"@.len());
    assert("archive"@[0] != "remotePackage"@[0]);
    assert("archives"@[0] != "remotePackage"@[0]);
}

/// Inside an `<archive>`, a `<url>` element whose text is `t`
/// makes it the archive's url and leaves the rest of the archive as it was.
pub proof fn lemma_archive_url(p: RepositoryXmlParserView, tag: XmlTag, t: String, end: String)
    requires
        p.state == ParserState::RemotePackage(RemotePackageState::Archives(ArchiveState::Archive)),
        tag.name@ == "url"@,
        end@ == "url"@,
    ensures
        repo_run(p, seq![XmlEvent::Start(tag), XmlEvent::Text(Some(t)), XmlEvent::End(end)]) == Ok::<
            RepositoryXmlParserView,
            RepositoryRunError,
        >(RepositoryXmlParserView { archive: ArchiveView { url: t@, ..p.archive }, ..p }),
{
    lemma_archive_names_distinct();
    let evs = seq![XmlEvent::Start(tag), XmlEvent::Text(Some(t)), XmlEvent::End(end)];
    assert(evs[0] == XmlEvent::Start(tag));
    assert(evs.drop_first()[0] == XmlEvent::Text(Some(t)));
    assert(evs.drop_first().drop_first()[0] == XmlEvent::End(end));
    assert(evs.drop_first().drop_first().drop_first() =~= Seq::<XmlEvent>::empty());
    let p1 = repo_step(p, evs[0]).0;
    assert(repo_step(p, evs[0]).1 is Ok);
    let p2 = repo_step(p1, evs.drop_first()[0]).0;
    assert(repo_step(p1, evs.drop_first()[0]).1 is Ok);
    let p3 = repo_step(p2, evs.drop_first().drop_first()[0]).0;
    assert(repo_step(p2, evs.drop_first().drop_first()[0]).1 is Ok);
    assert(repo_run(p3, evs.drop_first().drop_first().drop_first()) == Ok::<RepositoryXmlParserView, RepositoryRunError>(p3));
    assert(repo_run(p2, evs.drop_first().drop_first()) == Ok::<RepositoryXmlParserView, RepositoryRunError>(p3));
    assert(repo_run(p1, evs.drop_first()) == Ok::<RepositoryXmlParserView, RepositoryRunError>(p3));
}

/// Inside an `<archive>`, a `<checksum>` element whose text is `t`
/// makes it the archive's checksum and leaves the rest of the archive as it was.
pub proof fn lemma_archive_checksum(p: RepositoryXmlParserView, tag: XmlTag, t: String, end: String)
    requires
        p.state == ParserState::RemotePackage(RemotePackageState::Archives(ArchiveState::Archive)),
        tag.name@ == "checksum"@,
        end@ == "checksum"@,
    ensures
        repo_run(p, seq![XmlEvent::Start(tag), XmlEvent::Text(Some(t)), XmlEvent::End(end)]) == Ok::<
            RepositoryXmlParserView,
            RepositoryRunError,
        >(RepositoryXmlParserView { archive: ArchiveView { checksum: t@, ..p.archive }, ..p }),
{
    lemma_archive_names_distinct();
    let evs = seq![XmlEvent::Start(tag), XmlEvent::Text(Some(t)), XmlEvent::End(end)];
    assert(evs[0] == XmlEvent::Start(tag));
    assert(evs.drop_first()[0] == XmlEvent::Text(Some(t)));
    assert(evs.drop_first().drop_first()[0] == XmlEvent::End(end));
    assert(evs.drop_first().drop_first().drop_first() =~= Seq::<XmlEvent>::empty());
    let p1 = repo_step(p, evs[0]).0;
    assert(repo_step(p, evs[0]).1 is Ok);
    let p2 = repo_step(p1, evs.drop_first()[0]).0;
    assert(repo_step(p1, evs.drop_first()[0]).1 is Ok);
    let p3 = repo_step(p2, evs.drop_first().drop_first()[0]).0;
    assert(repo_step(p2, evs.drop_first().drop_first()[0]).1 is Ok);
    assert(repo_run(p3, evs.drop_first().drop_first().drop_first()) == Ok::<RepositoryXmlParserView, RepositoryRunError>(p3));
    assert(repo_run(p2, evs.drop_first().drop_first()) == Ok::<RepositoryXmlParserView, RepositoryRunError>(p3));
    assert(repo_run(p1, evs.drop_first()) == Ok::<RepositoryXmlParserView, RepositoryRunError>(p3));
}

/// Inside an `<archive>`, a `<host-os>` element whose text is `t`
/// makes it the archive's host os and leaves the rest of the archive as it was.
pub proof fn lemma_archive_host_os(p: RepositoryXmlParserView, tag: XmlTag, t: String, end: String)
    requires
        p.state == ParserState::RemotePackage(RemotePackageState::Archives(ArchiveState::Archive)),
        tag.name@ == "host-os"@,
        end@ == "host-os"@,
    ensures
        repo_run(p, seq![XmlEvent::Start(tag), XmlEvent::Text(Some(t)), XmlEvent::End(end)]) == Ok::<
            RepositoryXmlParserView,
            RepositoryRunError,
        >(RepositoryXmlParserView { archive: ArchiveView { host_os: t@, ..p.archive }, ..p }),
{
    lemma_archive_names_distinct();
    let evs = seq![XmlEvent::Start(tag), XmlEvent::Text(Some(t)), XmlEvent::End(end)];
    assert(evs[0] == XmlEvent::Start(tag));
    assert(evs.drop_first()[0] == XmlEvent::Text(Some(t)));
    assert(evs.drop_first().drop_first()[0] == XmlEvent::End(end));
    assert(evs.drop_first().drop_first().drop_first() =~= Seq::<XmlEvent>::empty());
    let p1 = repo_step(p, evs[0]).0;
    assert(repo_step(p, evs[0]).1 is Ok);
    let p2 = repo_step(p1, evs.drop_first()[0]).0;
    assert(repo_step(p1, evs.drop_first()[0]).1 is Ok);
    let p3 = repo_step(p2, evs.drop_first().drop_first()[0]).0;
    assert(repo_step(p2, evs.drop_first().drop_first()[0]).1 is Ok);
    assert(repo_run(p3, evs.drop_first().drop_first().drop_first()) == Ok::<RepositoryXmlParserView, RepositoryRunError>(p3));
    assert(repo_run(p2, evs.drop_first().drop_first()) == Ok::<RepositoryXmlParserView, RepositoryRunError>(p3));
    assert(repo_run(p1, evs.drop_first()) == Ok::<RepositoryXmlParserView, RepositoryRunError>(p3));
}

/// Inside an `<archive>`, a `<size>` element whose text is `t`
/// makes it the archive's size and leaves the rest of the archive as it was.
pub proof fn lemma_archive_size(p: RepositoryXmlParserView, tag: XmlTag, t: String, end: String, n: int)
    requires
        p.state == ParserState::RemotePackage(RemotePackageState::Archives(ArchiveState::Archive)),
        tag.name@ == "size"@,
        end@ == "size"@,
        parse_uint(t@, usize::MAX as int) == Ok::<int, IntFailure>(n),
    ensures
        repo_run(p, seq![XmlEvent::Start(tag), XmlEvent::Text(Some(t)), XmlEvent::End(end)]) == Ok::<
            RepositoryXmlParserView,
            RepositoryRunError,
        >(RepositoryXmlParserView { archive: ArchiveView { size: n as usize, ..p.archive }, ..p }),
{
    lemma_archive_names_distinct();
    let evs = seq![XmlEvent::Start(tag), XmlEvent::Text(Some(t)), XmlEvent::End(end)];
    assert(evs[0] == XmlEvent::Start(tag));
    assert(evs.drop_first()[0] == XmlEvent::Text(Some(t)));
    assert(evs.drop_first().drop_first()[0] == XmlEvent::End(end));
    assert(evs.drop_first().drop_first().drop_first() =~= Seq::<XmlEvent>::empty());
    let p1 = repo_step(p, evs[0]).0;
    assert(repo_step(p, evs[0]).1 is Ok);
    let p2 = repo_step(p1, evs.drop_first()[0]).0;
    assert(repo_step(p1, evs.drop_first()[0]).1 is Ok);
    let p3 = repo_step(p2, evs.drop_first().drop_first()[0]).0;
    assert(repo_step(p2, evs.drop_first().drop_first()[0]).1 is Ok);
    assert(repo_run(p3, evs.drop_first().drop_first().drop_first()) == Ok::<RepositoryXmlParserView, RepositoryRunError>(p3));
    assert(repo_run(p2, evs.drop_first().drop_first()) == Ok::<RepositoryXmlParserView, RepositoryRunError>(p3));
    assert(repo_run(p1, evs.drop_first()) == Ok::<RepositoryXmlParserView, RepositoryRunError>(p3));
}


/// A `<remotePackage>` start tag begins a package with the `path` its
/// attribute gives, obsolete exactly where its `obsolete` attribute is
/// `true`; one without a `path` is refused.
pub proof fn lemma_remote_package_start(p: RepositoryXmlParserView, tag: XmlTag, o: Option<Seq<char>>)
    requires
        p.state == ParserState::SdkRepository,
        tag.name@ == "remotePackage"@,
        tag_attribute(tag, "obsolete"@) == Ok::<Option<Seq<char>>, ()>(o),
    ensures
        tag_attribute(tag, "path"@) matches Ok(Some(path)) ==> repo_run(p, seq![XmlEvent::Start(tag)]) == Ok::<
            RepositoryXmlParserView,
            RepositoryRunError,
        >(
            RepositoryXmlParserView {
                package: RemotePackageView { path: path, obsolete: o == Some("true"@), ..empty_package() },
                state: ParserState::RemotePackage(RemotePackageState::RemotePackage),
                ..p
            },
        ),
        tag_attribute(tag, "path"@) == Ok::<Option<Seq<char>>, ()>(None) ==> repo_run(p, seq![XmlEvent::Start(tag)])
            == Err::<RepositoryXmlParserView, RepositoryRunError>(
            RepositoryRunError::Xml(RepositoryXmlError::MissingPath),
        ),
{
    reveal_strlit("remotePackage");
    reveal_strlit("channel");
    assert("remotePackage"@[0] != "channel"@[0]);
    let evs = seq![XmlEvent::Start(tag)];
    assert(evs[0] == XmlEvent::Start(tag));
    assert(evs.drop_first() =~= Seq::<XmlEvent>::empty());
    let p1 = repo_step(p, evs[0]).0;
    assert(repo_run(p1, evs.drop_first()) == Ok::<RepositoryXmlParserView, RepositoryRunError>(p1));
}

/// A `</remotePackage>` end tag adds the package read to the end of the
/// repository's packages and goes back to the repository.
pub proof fn lemma_remote_package_end(p: RepositoryXmlParserView, st: RemotePackageState, end: String)
    requires
        p.state == ParserState::RemotePackage(st),
        end@ == "remotePackage"@,
    ensures
        repo_run(p, seq![XmlEvent::End(end)]) == Ok::<RepositoryXmlParserView, RepositoryRunError>(
            RepositoryXmlParserView {
                repo: RepositoryXmlView { remote_packages: p.repo.remote_packages.push(p.package), ..p.repo },
                package: empty_package(),
                state: ParserState::SdkRepository,
                ..p
            },
        ),
{
    let evs = seq![XmlEvent::End(end)];
    assert(evs[0] == XmlEvent::End(end));
    assert(evs.drop_first() =~= Seq::<XmlEvent>::empty());
    let p1 = repo_step(p, evs[0]).0;
    assert(repo_run(p1, evs.drop_first()) == Ok::<RepositoryXmlParserView, RepositoryRunError>(p1));
}

} // verus!
