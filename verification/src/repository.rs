//! The Android SDK repository description (`repository.xml`): its packages,
//! their archives and revisions, channels and licenses.
use vstd::prelude::*;
use crate::assoc::{assoc_get, assoc_insert, insert_key, find_key, pairs_view, key_index, lemma_key_index};
use crate::revision::Revision;
use crate::strs::{chars_of, is_ws, str_eq, str_to_string, trim, trim_range, string_from};

verus! {

/// The release channel of a package.
#[derive(Debug, PartialEq, Eq, Hash)]
pub enum ChannelType {
    Stable,
    Beta,
    Dev,
    Canary,
    Unknown(String),
    Unset,
}

/// The model of a channel.
pub enum ChannelView {
    Stable,
    Beta,
    Dev,
    Canary,
    Unknown(Seq<char>),
    Unset,
}

impl View for ChannelType {
    type V = ChannelView;

    open spec fn view(&self) -> ChannelView {
        match self {
            ChannelType::Stable => ChannelView::Stable,
            ChannelType::Beta => ChannelView::Beta,
            ChannelType::Dev => ChannelView::Dev,
            ChannelType::Canary => ChannelView::Canary,
            ChannelType::Unknown(s) => ChannelView::Unknown(s@),
            ChannelType::Unset => ChannelView::Unset,
        }
    }
}

/// The channel a name stands for: the four known names, the empty name for
/// no channel, and any other name as an unknown channel.
pub open spec fn channel_from_text(s: Seq<char>) -> ChannelView {
    if s == "stable"@ {
        ChannelView::Stable
    } else if s == "beta"@ {
        ChannelView::Beta
    } else if s == "dev"@ {
        ChannelView::Dev
    } else if s == "canary"@ {
        ChannelView::Canary
    } else if s.len() == 0 {
        ChannelView::Unset
    } else {
        ChannelView::Unknown(s)
    }
}

/// The name of a channel.
pub open spec fn channel_text(c: ChannelView) -> Seq<char> {
    match c {
        ChannelView::Stable => "stable"@,
        ChannelView::Beta => "beta"@,
        ChannelView::Dev => "dev"@,
        ChannelView::Canary => "canary"@,
        ChannelView::Unset => Seq::empty(),
        ChannelView::Unknown(s) => s,
    }
}

impl Clone for ChannelType {
    fn clone(&self) -> (r: Self)
        ensures
            r == *self,
    {
        match self {
            ChannelType::Stable => ChannelType::Stable,
            ChannelType::Beta => ChannelType::Beta,
            ChannelType::Dev => ChannelType::Dev,
            ChannelType::Canary => ChannelType::Canary,
            ChannelType::Unknown(s) => ChannelType::Unknown(s.clone()),
            ChannelType::Unset => ChannelType::Unset,
        }
    }
}

impl Default for ChannelType {
    fn default() -> (r: Self)
        ensures
            r == ChannelType::Unset,
    {
        ChannelType::Unset
    }
}

impl ChannelType {
    /// The channel a name stands for.
    pub fn from_str(s: &str) -> (r: ChannelType)
        ensures
            r@ == channel_from_text(s@),
    {
        proof {
            reveal_strlit("stable");
            reveal_strlit("beta");
            reveal_strlit("dev");
            reveal_strlit("canary");
        }
        if str_eq(s, "stable") {
            ChannelType::Stable
        } else if str_eq(s, "beta") {
            ChannelType::Beta
        } else if str_eq(s, "dev") {
            ChannelType::Dev
        } else if str_eq(s, "canary") {
            ChannelType::Canary
        } else if s.unicode_len() == 0 {
            ChannelType::Unset
        } else {
            ChannelType::Unknown(str_to_string(s))
        }
    }

    /// The name of the channel.
    pub fn to_string(&self) -> (r: String)
        ensures
            r@ == channel_text(self@),
    {
        match self {
            ChannelType::Stable => str_to_string("stable"),
            ChannelType::Beta => str_to_string("beta"),
            ChannelType::Dev => str_to_string("dev"),
            ChannelType::Canary => str_to_string("canary"),
            ChannelType::Unset => String::new(),
            ChannelType::Unknown(s) => s.clone(),
        }
    }

    /// Whether two channels are the same.
    pub fn same_as(&self, other: &ChannelType) -> (r: bool)
        ensures
            r == (self@ == other@),
    {
        match (self, other) {
            (ChannelType::Stable, ChannelType::Stable) => true,
            (ChannelType::Beta, ChannelType::Beta) => true,
            (ChannelType::Dev, ChannelType::Dev) => true,
            (ChannelType::Canary, ChannelType::Canary) => true,
            (ChannelType::Unset, ChannelType::Unset) => true,
            (ChannelType::Unknown(a), ChannelType::Unknown(b)) => str_eq(a.as_str(), b.as_str()),
            _ => false,
        }
    }
}

/// A host operating system of an archive.
#[derive(Debug, Clone, Copy, PartialEq, Eq)]
pub enum OsType {
    Linux,
    Macosx,
    Windows,
}

impl OsType {
    /// The system a name stands for; any unknown name stands for Linux.
    pub fn from_name(value: &str) -> (r: OsType)
        ensures
            r == (if value@ == "linux"@ {
                OsType::Linux
            } else if value@ == "macosx"@ {
                OsType::Macosx
            } else if value@ == "windows"@ {
                OsType::Windows
            } else {
                OsType::Linux
            }),
    {
        proof {
            reveal_strlit("linux");
            reveal_strlit("macosx");
            reveal_strlit("windows");
        }
        if str_eq(value, "linux") {
            OsType::Linux
        } else if str_eq(value, "macosx") {
            OsType::Macosx
        } else if str_eq(value, "windows") {
            OsType::Windows
        } else {
            OsType::Linux
        }
    }
}

/// The word size of a host.
#[derive(Debug, Clone, Copy, PartialEq, Eq, Hash, Structural)]
pub enum BitSizeType {
    Bit64,
    Bit32,
    Unset,
}

impl Default for BitSizeType {
    fn default() -> (r: Self)
        ensures
            r == BitSizeType::Unset,
    {
        BitSizeType::Unset
    }
}

/// A character in lower case, for the ASCII letters.
pub open spec fn ascii_lower(c: char) -> char {
    if 'A' <= c && c <= 'Z' {
        ((c as u32) + 32) as char
    } else {
        c
    }
}

pub open spec fn lower_text(s: Seq<char>) -> Seq<char> {
    s.map_values(|c: char| ascii_lower(c))
}

/// What a bit width reads as: `32`, `32bit` or `32 bit` (and the same for
/// 64) in any case and with whitespace around it, or nothing at all.
pub open spec fn bit_size_from_text(s: Seq<char>) -> Option<BitSizeType> {
    let t = trim(lower_text(s));
    if t == "32"@ || t == "32bit"@ || t == "32 bit"@ {
        Some(BitSizeType::Bit32)
    } else if t == "64"@ || t == "64bit"@ || t == "64 bit"@ {
        Some(BitSizeType::Bit64)
    } else if t.len() == 0 {
        Some(BitSizeType::Unset)
    } else {
        None
    }
}

/// A bit width that is not known.
#[derive(Debug, Clone, PartialEq, Eq)]
pub struct BitSizeError {
    /// The text that was read.
    pub text: String,
}

impl BitSizeType {
    /// Reads a bit width.
    pub fn from_str(s: &str) -> (r: Result<BitSizeType, BitSizeError>)
        ensures
            match bit_size_from_text(s@) {
                Some(b) => r == Ok::<BitSizeType, BitSizeError>(b),
                None => r matches Err(e) && e.text@ == s@,
            },
    {
        let v = chars_of(s);
        let mut lower: Vec<char> = Vec::new();
        let mut i: usize = 0;
        while i < v.len()
            invariant
                i <= v.len(),
                v@ == s@,
                lower@ == lower_text(v@.take(i as int)),
            decreases v.len() - i,
        {
            let c = v[i];
            let l = if 'A' <= c && c <= 'Z' {
                ((c as u32) + 32) as u8 as char
            } else {
                c
            };
            assert(l == ascii_lower(c));
            lower.push(l);
            assert(v@.take(i + 1) == v@.take(i as int).push(c));
            assert(lower_text(v@.take(i + 1)) =~= lower_text(v@.take(i as int)).push(ascii_lower(c)));
            i += 1;
        }
        assert(v@.take(v.len() as int) == v@);
        let (lo, hi) = trim_range(&lower, 0, lower.len());
        assert(lower@.subrange(0, lower@.len() as int) == lower@);
        let t = string_from(&lower, lo, hi);
        let ts = t.as_str();
        proof {
            reveal_strlit("32");
            reveal_strlit("32bit");
            reveal_strlit("32 bit");
            reveal_strlit("64");
            reveal_strlit("64bit");
            reveal_strlit("64 bit");
        }
        if str_eq(ts, "32") || str_eq(ts, "32bit") || str_eq(ts, "32 bit") {
            Ok(BitSizeType::Bit32)
        } else if str_eq(ts, "64") || str_eq(ts, "64bit") || str_eq(ts, "64 bit") {
            Ok(BitSizeType::Bit64)
        } else if lo == hi {
            Ok(BitSizeType::Unset)
        } else {
            Err(BitSizeError { text: str_to_string(s) })
        }
    }

    /// `64`, `32`, or nothing.
    pub fn to_string(&self) -> (r: String)
        ensures
            r@ == (match self {
                BitSizeType::Bit64 => "64"@,
                BitSizeType::Bit32 => "32"@,
                BitSizeType::Unset => Seq::<char>::empty(),
            }),
    {
        match self {
            BitSizeType::Bit64 => str_to_string("64"),
            BitSizeType::Bit32 => str_to_string("32"),
            BitSizeType::Unset => String::new(),
        }
    }
}

/// The model of an archive.
pub struct ArchiveView {
    pub size: usize,
    pub checksum: Seq<char>,
    pub url: Seq<char>,
    pub host_os: Seq<char>,
    pub host_bits: BitSizeType,
}

/// A file archive of a package.
#[derive(Debug, Hash, PartialEq, Eq)]
pub struct Archive {
    size: usize,
    checksum: String,
    url: String,
    host_os: String,
    host_bits: BitSizeType,
}

impl View for Archive {
    type V = ArchiveView;

    closed spec fn view(&self) -> ArchiveView {
        ArchiveView {
            size: self.size,
            checksum: self.checksum@,
            url: self.url@,
            host_os: self.host_os@,
            host_bits: self.host_bits,
        }
    }
}

/// The archive with nothing set.
pub open spec fn empty_archive() -> ArchiveView {
    ArchiveView {
        size: 0,
        checksum: Seq::empty(),
        url: Seq::empty(),
        host_os: Seq::empty(),
        host_bits: BitSizeType::Unset,
    }
}

impl Clone for Archive {
    fn clone(&self) -> (r: Self)
        ensures
            r@ == self@,
    {
        Archive {
            size: self.size,
            checksum: self.checksum.clone(),
            url: self.url.clone(),
            host_os: self.host_os.clone(),
            host_bits: self.host_bits,
        }
    }
}

impl Default for Archive {
    fn default() -> (r: Self)
        ensures
            r@ == empty_archive(),
    {
        Archive {
            size: 0,
            checksum: String::new(),
            url: String::new(),
            host_os: String::new(),
            host_bits: BitSizeType::Unset,
        }
    }
}

impl Archive {
    pub fn get_size(&self) -> (r: usize)
        ensures
            r == self@.size,
    {
        self.size
    }

    pub fn get_checksum(&self) -> (r: &String)
        ensures
            r@ == self@.checksum,
    {
        &self.checksum
    }

    pub fn get_url(&self) -> (r: &String)
        ensures
            r@ == self@.url,
    {
        &self.url
    }

    pub fn get_host_os(&self) -> (r: &String)
        ensures
            r@ == self@.host_os,
    {
        &self.host_os
    }

    pub fn get_host_bits(&self) -> (r: BitSizeType)
        ensures
            r == self@.host_bits,
    {
        self.host_bits
    }

    pub fn set_size(&mut self, value: usize)
        ensures
            final(self)@ == (ArchiveView { size: value, ..old(self)@ }),
    {
        self.size = value;
    }

    pub fn set_checksum(&mut self, value: String)
        ensures
            final(self)@ == (ArchiveView { checksum: value@, ..old(self)@ }),
    {
        self.checksum = value;
    }

    pub fn set_url(&mut self, value: String)
        ensures
            final(self)@ == (ArchiveView { url: value@, ..old(self)@ }),
    {
        self.url = value;
    }

    pub fn set_host_os(&mut self, value: String)
        ensures
            final(self)@ == (ArchiveView { host_os: value@, ..old(self)@ }),
    {
        self.host_os = value;
    }

    pub fn set_host_bits(&mut self, value: BitSizeType)
        ensures
            final(self)@ == (ArchiveView { host_bits: value, ..old(self)@ }),
    {
        self.host_bits = value;
    }
}

/// The model of a package.
pub struct RemotePackageView {
    pub path: Seq<char>,
    pub obsolete: bool,
    pub name: Seq<char>,
    pub channel: ChannelView,
    pub uses_license: Seq<char>,
    pub archives: Seq<ArchiveView>,
    pub revision: Revision,
}

/// A package that the repository offers.
#[derive(Debug, PartialEq, Eq, Hash)]
pub struct RemotePackage {
    path: String,
    /// An optional element indicating the package is obsolete.
    /// The string content is however currently not defined and ignored.
    obsolete: bool,
    name: String,
    channel: ChannelType,
    /// The optional license of this package. If present, users will have to agree to it before downloading.
    uses_license: String,
    /// A list of file archives for this package.
    archives: Vec<Archive>,
    revision: Revision,
}

pub open spec fn archives_view(s: Seq<Archive>) -> Seq<ArchiveView> {
    s.map_values(|a: Archive| a@)
}

impl View for RemotePackage {
    type V = RemotePackageView;

    closed spec fn view(&self) -> RemotePackageView {
        RemotePackageView {
            path: self.path@,
            obsolete: self.obsolete,
            name: self.name@,
            channel: self.channel@,
            uses_license: self.uses_license@,
            archives: archives_view(self.archives@),
            revision: self.revision,
        }
    }
}

/// The package with nothing set.
pub open spec fn empty_package() -> RemotePackageView {
    RemotePackageView {
        path: Seq::empty(),
        obsolete: false,
        name: Seq::empty(),
        channel: ChannelView::Unset,
        uses_license: Seq::empty(),
        archives: Seq::empty(),
        revision: Revision { major: 0, minor: 0, micro: 0, preview: 0 },
    }
}

fn clone_archives(v: &Vec<Archive>) -> (r: Vec<Archive>)
    ensures
        archives_view(r@) == archives_view(v@),
{
    let mut out: Vec<Archive> = Vec::new();
    let mut i: usize = 0;
    while i < v.len()
        invariant
            i <= v.len(),
            out@.len() == i,
            archives_view(out@) == archives_view(v@.take(i as int)),
        decreases v.len() - i,
    {
        let a = v[i].clone();
        assert(a@ == v@[i as int]@);
        let ghost before = out@;
        out.push(a);
        assert(v@.take(i + 1) == v@.take(i as int).push(v@[i as int]));
        assert(out@ == before.push(a));
        assert forall|j: int| 0 <= j < i + 1 implies #[trigger] archives_view(out@)[j] == archives_view(v@.take(i + 1))[j] by {
            if j < i {
                assert(archives_view(before)[j] == archives_view(v@.take(i as int))[j]);
            }
        }
        assert(archives_view(out@) =~= archives_view(v@.take(i + 1)));
        i += 1;
    }
    assert(v@.take(v.len() as int) == v@);
    out
}

impl Clone for RemotePackage {
    fn clone(&self) -> (r: Self)
        ensures
            r@ == self@,
    {
        RemotePackage {
            path: self.path.clone(),
            obsolete: self.obsolete,
            name: self.name.clone(),
            channel: self.channel.clone(),
            uses_license: self.uses_license.clone(),
            archives: clone_archives(&self.archives),
            revision: self.revision,
        }
    }
}

impl Default for RemotePackage {
    fn default() -> (r: Self)
        ensures
            r@ == empty_package(),
    {
        Self::new()
    }
}

impl RemotePackage {
    pub fn new() -> (r: Self)
        ensures
            r@ == empty_package(),
    {
        let r = Self {
            path: String::new(),
            obsolete: false,
            name: String::new(),
            uses_license: String::new(),
            archives: Vec::new(),
            revision: Revision::default(),
            channel: ChannelType::Unset,
        };
        assert(archives_view(r.archives@) =~= Seq::empty());
        r
    }

    pub fn set_path(&mut self, path: String)
        ensures
            final(self)@ == (RemotePackageView { path: path@, ..old(self)@ }),
    {
        self.path = path;
    }

    pub fn set_obsolete(&mut self, obsolete: bool)
        ensures
            final(self)@ == (RemotePackageView { obsolete: obsolete, ..old(self)@ }),
    {
        self.obsolete = obsolete;
    }

    pub fn set_display_name(&mut self, name: String)
        ensures
            final(self)@ == (RemotePackageView { name: name@, ..old(self)@ }),
    {
        self.name = name;
    }

    pub fn set_channel(&mut self, channel: ChannelType)
        ensures
            final(self)@ == (RemotePackageView { channel: channel@, ..old(self)@ }),
    {
        self.channel = channel;
    }

    pub fn set_license(&mut self, license_ref: String)
        ensures
            final(self)@ == (RemotePackageView { uses_license: license_ref@, ..old(self)@ }),
    {
        self.uses_license = license_ref;
    }

    pub fn set_revision(&mut self, revision: Revision)
        ensures
            final(self)@ == (RemotePackageView { revision: revision, ..old(self)@ }),
    {
        self.revision = revision;
    }

    pub fn get_path(&self) -> (r: &String)
        ensures
            r@ == self@.path,
    {
        &self.path
    }

    pub fn is_obsolete(&self) -> (r: bool)
        ensures
            r == self@.obsolete,
    {
        self.obsolete
    }

    pub fn get_display_name(&self) -> (r: &String)
        ensures
            r@ == self@.name,
    {
        &self.name
    }

    pub fn get_channel(&self) -> (r: &ChannelType)
        ensures
            r@ == self@.channel,
    {
        &self.channel
    }

    pub fn get_revision(&self) -> (r: &Revision)
        ensures
            *r == self@.revision,
    {
        &self.revision
    }

    pub fn get_archives(&self) -> (r: &Vec<Archive>)
        ensures
            archives_view(r@) == self@.archives,
    {
        &self.archives
    }

    pub fn get_uses_license(&self) -> (r: &String)
        ensures
            r@ == self@.uses_license,
    {
        &self.uses_license
    }

    /// Adds am archive entry
    pub fn add_archive(&mut self, archive: Archive)
        ensures
            final(self)@ == (RemotePackageView {
                archives: old(self)@.archives.push(archive@),
                ..old(self)@
            }),
    {
        self.archives.push(archive);
        assert(archives_view(self.archives@) =~= old(self)@.archives.push(archive@));
    }

}

/// The model of a repository description.
pub struct RepositoryXmlView {
    pub name: Seq<char>,
    pub url: Seq<char>,
    pub remote_packages: Seq<RemotePackageView>,
    /// License texts by license id.
    pub licenses: Seq<(Seq<char>, Seq<char>)>,
}

/// The packages and licenses of a repository.
#[derive(Debug)]
pub struct RepositoryXml {
    /// The name the repository is known by
    name: String,
    /// Where the repository is fetched from
    url: String,
    remote_packages: Vec<RemotePackage>,
    /// List of licenses, by id.
    licenses: Vec<(String, String)>,
}

pub open spec fn packages_view(s: Seq<RemotePackage>) -> Seq<RemotePackageView> {
    s.map_values(|p: RemotePackage| p@)
}

impl View for RepositoryXml {
    type V = RepositoryXmlView;

    closed spec fn view(&self) -> RepositoryXmlView {
        RepositoryXmlView {
            name: self.name@,
            url: self.url@,
            remote_packages: packages_view(self.remote_packages@),
            licenses: pairs_view(self.licenses@),
        }
    }
}

pub open spec fn empty_repository() -> RepositoryXmlView {
    RepositoryXmlView {
        name: Seq::empty(),
        url: Seq::empty(),
        remote_packages: Seq::empty(),
        licenses: Seq::empty(),
    }
}

impl Default for RepositoryXml {
    fn default() -> (r: Self)
        ensures
            r@ == empty_repository(),
    {
        Self::new()
    }
}

impl RepositoryXml {
    pub fn new() -> (r: Self)
        ensures
            r@ == empty_repository(),
    {
        let r = Self {
            name: String::new(),
            url: String::new(),
            remote_packages: Vec::new(),
            licenses: Vec::new(),
        };
        assert(packages_view(r.remote_packages@) =~= Seq::empty());
        assert(pairs_view(r.licenses@) =~= Seq::<(Seq<char>, Seq<char>)>::empty());
        r
    }

    pub fn add_remote_package(&mut self, package: RemotePackage)
        ensures
            final(self)@ == (RepositoryXmlView {
                remote_packages: old(self)@.remote_packages.push(package@),
                ..old(self)@
            }),
    {
        self.remote_packages.push(package);
        assert(packages_view(self.remote_packages@) =~= old(self)@.remote_packages.push(package@));
    }

    pub fn get_remote_packages(&self) -> (r: &Vec<RemotePackage>)
        ensures
            packages_view(r@) == self@.remote_packages,
    {
        &self.remote_packages
    }

    /// Records the text of a license; a later text for the same id replaces
    /// the earlier one.
    pub fn add_license(&mut self, id: String, license: String)
        ensures
            final(self)@ == (RepositoryXmlView {
                licenses: assoc_insert(old(self)@.licenses, id@, license@),
                ..old(self)@
            }),
    {
        insert_key(&mut self.licenses, id, license);
    }

    pub fn set_name(&mut self, name: String)
        ensures
            final(self)@ == (RepositoryXmlView { name: name@, ..old(self)@ }),
    {
        self.name = name;
    }

    pub fn set_url(&mut self, url: String)
        ensures
            final(self)@ == (RepositoryXmlView { url: url@, ..old(self)@ }),
    {
        self.url = url;
    }

    pub fn get_name(&self) -> (r: &String)
        ensures
            r@ == self@.name,
    {
        &self.name
    }

    pub fn get_url(&self) -> (r: &String)
        ensures
            r@ == self@.url,
    {
        &self.url
    }

    /// The license texts, by id.
    pub fn get_licenses(&self) -> (r: &Vec<(String, String)>)
        ensures
            pairs_view(r@) == self@.licenses,
    {
        &self.licenses
    }
}


/// The channel of a package after resolving channel references: a package
/// whose channel is an unknown name takes the channel recorded under that
/// name, if one is.
pub open spec fn resolved_channel(c: ChannelView, channels: Seq<(Seq<char>, ChannelView)>) -> ChannelView {
    match c {
        ChannelView::Unknown(id) => match assoc_get(channels, id) {
            Some(d) => d,
            None => c,
        },
        _ => c,
    }
}

pub open spec fn resolve_package(p: RemotePackageView, channels: Seq<(Seq<char>, ChannelView)>) -> RemotePackageView {
    RemotePackageView { channel: resolved_channel(p.channel, channels), ..p }
}

impl RepositoryXml {
    /// Resolves the channel references of all packages against `channels`.
    pub(crate) fn resolve_channels(&mut self, channels: &Vec<(String, ChannelType)>)
        ensures
            final(self)@ == (RepositoryXmlView {
                remote_packages: old(self)@.remote_packages.map_values(
                    |p: RemotePackageView| resolve_package(p, pairs_view(channels@)),
                ),
                ..old(self)@
            }),
    {
        let mut out: Vec<RemotePackage> = Vec::new();
        let mut i: usize = 0;
        let ghost old_pkgs = packages_view(self.remote_packages@);
        while i < self.remote_packages.len()
            invariant
                i <= self.remote_packages.len(),
                out@.len() == i,
                old_pkgs == packages_view(self.remote_packages@),
                forall|j: int| 0 <= j < i ==> #[trigger] out@[j]@ == resolve_package(old_pkgs[j], pairs_view(channels@)),
            decreases self.remote_packages.len() - i,
        {
            let mut p = self.remote_packages[i].clone();
            assert(p@ == old_pkgs[i as int]);
            let ghost pv = p@;
            let ghost cs = pairs_view(channels@);
            let resolved = match &p.channel {
                ChannelType::Unknown(id) => {
                    proof {
                        lemma_key_index(cs, id@);
                    }
                    match find_key(channels, id.as_str()) {
                        Some(k) => {
                            let c = channels[k].1.clone();
                            assert(cs[k as int].1 == c@);
                            assert(pv.channel == ChannelView::Unknown(id@));
                            assert(key_index(cs, id@) == Some(k as int));
                            assert(assoc_get(cs, id@) == Some(c@));
                            assert(resolved_channel(pv.channel, cs) == c@);
                            Some(c)
                        },
                        None => {
                            assert(resolved_channel(pv.channel, cs) == pv.channel);
                            None
                        },
                    }
                },
                _ => {
                    assert(resolved_channel(pv.channel, cs) == pv.channel);
                    None
                },
            };
            if let Some(c) = resolved {
                p.channel = c;
            }
            assert(p@ == resolve_package(pv, cs));
            out.push(p);
            i += 1;
        }
        self.remote_packages = out;
        assert(packages_view(self.remote_packages@) =~= old_pkgs.map_values(
            |p: RemotePackageView| resolve_package(p, pairs_view(channels@)),
        ));
    }
}

} // verus!
