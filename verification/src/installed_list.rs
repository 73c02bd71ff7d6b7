//! The list of installed SDK packages (`installed.toml`): the packages with
//! where they came from, and the repositories with the licenses that were
//! accepted for them.
use vstd::prelude::*;
use crate::assoc::{assoc_get, assoc_insert, find_key, insert_key, key_index, keys_distinct, lemma_insert_distinct, lemma_key_index, pairs_view};
use crate::package_id::{id_text, ToId};
use crate::plugin_config::{texts, RepositoryInfo, RepositoryInfoView};
use crate::repository::{channel_from_text, channel_text, ChannelType, ChannelView};
use crate::revision::{
    revision_from_text, revision_text, Revision, RevisionParseError, RevisionParseErrorKind,
};
use crate::strs::{append_str, decimal, decimal_text, str_eq, str_to_string};
use crate::tomldoc::{
    item_array, item_str, item_tables, parse_toml, render_toml, table_get, tables_view,
    toml_parsed, toml_rendered, values_view, item_view, TomlItem, TomlItemView, TomlTable, TomlTableView,
    TomlValue, TomlValueView,
};

verus! {

/// An installed SDK package.
#[derive(Debug, PartialEq, Eq, Hash, Clone)]
pub struct InstalledPackage {
    pub repository_name: String,
    pub path: String,
    pub version: Revision,
    pub channel: ChannelType,
    pub url: String,
    pub directory: Option<String>,
}

/// The model of an installed package.
pub struct InstalledPackageView {
    pub repository_name: Seq<char>,
    pub path: Seq<char>,
    pub version: Revision,
    pub channel: ChannelView,
    pub url: Seq<char>,
    pub directory: Option<Seq<char>>,
}

impl View for InstalledPackage {
    type V = InstalledPackageView;

    open spec fn view(&self) -> InstalledPackageView {
        InstalledPackageView {
            repository_name: self.repository_name@,
            path: self.path@,
            version: self.version,
            channel: self.channel@,
            url: self.url@,
            directory: match self.directory {
                Some(d) => Some(d@),
                None => None,
            },
        }
    }
}

/// A package with nothing set: empty texts, revision 0, no channel.
pub open spec fn empty_package() -> InstalledPackageView {
    InstalledPackageView {
        repository_name: Seq::empty(),
        path: Seq::empty(),
        version: Revision { major: 0, minor: 0, micro: 0, preview: 0 },
        channel: ChannelView::Unset,
        url: Seq::empty(),
        directory: None,
    }
}

/// The id of a package: `path:version:channel`.
pub open spec fn package_id(p: InstalledPackageView) -> Seq<char> {
    id_text(p.path, p.version, p.channel)
}

pub open spec fn packages_view(s: Seq<InstalledPackage>) -> Seq<InstalledPackageView> {
    s.map_values(|p: InstalledPackage| p@)
}

impl Default for InstalledPackage {
    fn default() -> (r: Self)
        ensures
            r@ == empty_package(),
    {
        InstalledPackage {
            repository_name: String::new(),
            path: String::new(),
            version: Revision { major: 0, minor: 0, micro: 0, preview: 0 },
            channel: ChannelType::Unset,
            url: String::new(),
            directory: None,
        }
    }
}

impl ToId for InstalledPackage {
    open spec fn id_parts(&self) -> (Seq<char>, Revision, ChannelView) {
        (self@.path, self@.version, self@.channel)
    }

    fn create_id(&self) -> (r: (&String, &Revision, &ChannelType)) {
        (&self.path, &self.version, &self.channel)
    }
}

impl InstalledPackage {
    pub fn new(path: String, version: Revision, channel: ChannelType, repository_name: String) -> (r: Self)
        ensures
            r@ == (InstalledPackageView {
                repository_name: repository_name@,
                path: path@,
                version,
                channel: channel@,
                url: Seq::empty(),
                directory: None,
            }),
    {
        InstalledPackage { repository_name, path, version, channel, url: String::new(), directory: None }
    }

    /// A copy of the package.
    pub fn copy(&self) -> (r: Self)
        ensures
            r@ == self@,
    {
        InstalledPackage {
            repository_name: self.repository_name.clone(),
            path: self.path.clone(),
            version: self.version,
            channel: self.channel.clone(),
            url: self.url.clone(),
            directory: match &self.directory {
                Some(d) => Some(d.clone()),
                None => None,
            },
        }
    }

    /// Whether two packages are equal in every field.
    pub fn same_as(&self, other: &InstalledPackage) -> (r: bool)
        ensures
            r == (self@ == other@),
    {
        let dir = match (&self.directory, &other.directory) {
            (Some(a), Some(b)) => str_eq(a.as_str(), b.as_str()),
            (None, None) => true,
            _ => false,
        };
        let r = str_eq(self.repository_name.as_str(), other.repository_name.as_str())
            && str_eq(self.path.as_str(), other.path.as_str()) && self.version.major
            == other.version.major && self.version.minor == other.version.minor
            && self.version.micro == other.version.micro && self.version.preview
            == other.version.preview && self.channel.same_as(&other.channel) && str_eq(
            self.url.as_str(),
            other.url.as_str(),
        ) && dir;
        proof {
            if r {
                assert(self@.directory == other@.directory);
            }
        }
        r
    }
}


/// The installed packages and the repositories they came from.
#[derive(Debug)]
pub struct InstalledList {
    pub packages: Vec<InstalledPackage>,
    /// The repositories by name, each name once.
    pub repositories: Vec<(String, RepositoryInfo)>,
}

/// The model of the list.
pub struct InstalledListView {
    pub packages: Seq<InstalledPackageView>,
    pub repositories: Seq<(Seq<char>, RepositoryInfoView)>,
}

impl View for InstalledList {
    type V = InstalledListView;

    open spec fn view(&self) -> InstalledListView {
        InstalledListView {
            packages: packages_view(self.packages@),
            repositories: pairs_view(self.repositories@),
        }
    }
}

/// The position of the first package whose id is `id`.
pub open spec fn id_index(s: Seq<InstalledPackageView>, id: Seq<char>) -> Option<int>
    decreases s.len(),
{
    if s.len() == 0 {
        None
    } else if package_id(s[0]) == id {
        Some(0)
    } else {
        match id_index(s.drop_first(), id) {
            Some(i) => Some(i + 1),
            None => None,
        }
    }
}

/// The position of the first package whose path is `path`.
pub open spec fn path_index(s: Seq<InstalledPackageView>, path: Seq<char>) -> Option<int>
    decreases s.len(),
{
    if s.len() == 0 {
        None
    } else if s[0].path == path {
        Some(0)
    } else {
        match path_index(s.drop_first(), path) {
            Some(i) => Some(i + 1),
            None => None,
        }
    }
}

/// The packages of `s` whose path is `path`, in their order.
pub open spec fn with_path(s: Seq<InstalledPackageView>, path: Seq<char>) -> Seq<InstalledPackageView>
    decreases s.len(),
{
    if s.len() == 0 {
        Seq::empty()
    } else {
        let rest = with_path(s.drop_last(), path);
        if s.last().path == path {
            rest.push(s.last())
        } else {
            rest
        }
    }
}

/// The packages by id, a later package of an id replacing an earlier one.
pub open spec fn id_map(s: Seq<InstalledPackageView>) -> Seq<(Seq<char>, InstalledPackageView)>
    decreases s.len(),
{
    if s.len() == 0 {
        Seq::empty()
    } else {
        assoc_insert(id_map(s.drop_last()), package_id(s.last()), s.last())
    }
}

/// The list after `insert_installed_package(p)`: `p` replaces the first
/// package of its id, or comes last.
pub open spec fn list_insert(s: Seq<InstalledPackageView>, p: InstalledPackageView) -> Seq<InstalledPackageView> {
    match id_index(s, package_id(p)) {
        Some(i) => s.update(i, p),
        None => s.push(p),
    }
}

/// The list after `remove_installed_package(p)`: the first package of the
/// id of `p` is gone.
pub open spec fn list_remove(s: Seq<InstalledPackageView>, p: InstalledPackageView) -> Seq<InstalledPackageView> {
    match id_index(s, package_id(p)) {
        Some(i) => s.remove(i),
        None => s,
    }
}

/// `license` added to a set of licenses held as a list.
pub open spec fn set_insert(s: Seq<Seq<char>>, license: Seq<char>) -> Seq<Seq<char>> {
    if s.contains(license) {
        s
    } else {
        s.push(license)
    }
}

/// The repositories after accepting `license` for repository `name`.
pub open spec fn repos_accept(
    rs: Seq<(Seq<char>, RepositoryInfoView)>,
    name: Seq<char>,
    license: Seq<char>,
) -> Seq<(Seq<char>, RepositoryInfoView)> {
    match key_index(rs, name) {
        Some(i) => rs.update(
            i,
            (
                name,
                RepositoryInfoView {
                    accepted_licenses: set_insert(rs[i].1.accepted_licenses, license),
                    ..rs[i].1
                },
            ),
        ),
        None => rs,
    }
}

pub proof fn lemma_id_index(s: Seq<InstalledPackageView>, id: Seq<char>)
    ensures
        match id_index(s, id) {
            Some(i) => 0 <= i < s.len() && package_id(s[i]) == id && forall|j: int|
                0 <= j < i ==> package_id(s[j]) != id,
            None => forall|j: int| 0 <= j < s.len() ==> package_id(s[j]) != id,
        },
    decreases s.len(),
{
    if s.len() > 0 {
        lemma_id_index(s.drop_first(), id);
        assert(forall|j: int| 0 < j < s.len() ==> s[j] == s.drop_first()[j - 1]);
    }
}

pub proof fn lemma_path_index(s: Seq<InstalledPackageView>, path: Seq<char>)
    ensures
        match path_index(s, path) {
            Some(i) => 0 <= i < s.len() && s[i].path == path && forall|j: int|
                0 <= j < i ==> s[j].path != path,
            None => forall|j: int| 0 <= j < s.len() ==> s[j].path != path,
        },
    decreases s.len(),
{
    if s.len() > 0 {
        lemma_path_index(s.drop_first(), path);
        assert(forall|j: int| 0 < j < s.len() ==> s[j] == s.drop_first()[j - 1]);
    }
}

proof fn lemma_id_index_at(s: Seq<InstalledPackageView>, id: Seq<char>, i: int)
    requires
        0 <= i < s.len(),
        package_id(s[i]) == id,
        forall|j: int| 0 <= j < i ==> package_id(s[j]) != id,
    ensures
        id_index(s, id) == Some(i),
{
    lemma_id_index(s, id);
}

proof fn lemma_path_index_at(s: Seq<InstalledPackageView>, path: Seq<char>, i: int)
    requires
        0 <= i < s.len(),
        s[i].path == path,
        forall|j: int| 0 <= j < i ==> s[j].path != path,
    ensures
        path_index(s, path) == Some(i),
{
    lemma_path_index(s, path);
}

impl Default for InstalledList {
    fn default() -> (r: Self)
        ensures
            r@.packages.len() == 0,
            r@.repositories.len() == 0,
    {
        InstalledList::new()
    }
}

impl InstalledList {
    pub fn new() -> (r: Self)
        ensures
            r@.packages.len() == 0,
            r@.repositories.len() == 0,
            keys_distinct(r@.repositories),
    {
        InstalledList { packages: Vec::new(), repositories: Vec::new() }
    }

    /// The position of the first package with the id of `package`.
    fn find_id(&self, package: &InstalledPackage) -> (r: Option<usize>)
        ensures
            match id_index(self@.packages, package_id(package@)) {
                Some(i) => r matches Some(k) && k as int == i,
                None => r is None,
            },
    {
        let id = package.to_id();
        let ghost s = self@.packages;
        let mut i: usize = 0;
        while i < self.packages.len()
            invariant
                i <= self.packages.len(),
                s == self@.packages,
                id@ == package_id(package@),
                forall|j: int| 0 <= j < i ==> package_id(s[j]) != id@,
            decreases self.packages.len() - i,
        {
            let other = self.packages[i].to_id();
            if str_eq(other.as_str(), id.as_str()) {
                proof {
                    lemma_id_index_at(s, id@, i as int);
                }
                return Some(i);
            }
            i += 1;
        }
        proof {
            lemma_id_index(s, id@);
        }
        None
    }

    /// The packages by id; a later package of an id replaces an earlier one.
    pub fn get_hash_map(&self) -> (r: Vec<(String, InstalledPackage)>)
        ensures
            pairs_view(r@) == id_map(self@.packages),
    {
        let ghost s = self@.packages;
        let mut out: Vec<(String, InstalledPackage)> = Vec::new();
        let mut i: usize = 0;
        while i < self.packages.len()
            invariant
                i <= self.packages.len(),
                s == self@.packages,
                pairs_view(out@) == id_map(s.take(i as int)),
            decreases self.packages.len() - i,
        {
            proof {
                assert(s.take(i + 1).drop_last() == s.take(i as int));
                assert(s.take(i + 1).last() == s[i as int]);
            }
            insert_key(&mut out, self.packages[i].to_id(), self.packages[i].copy());
            i += 1;
        }
        proof {
            assert(s.take(self.packages.len() as int) == s);
        }
        out
    }

    /// Whether a package equal to `package` is in the list.
    pub fn contains(&self, package: &InstalledPackage) -> (r: bool)
        ensures
            r == self@.packages.contains(package@),
    {
        let ghost s = self@.packages;
        let mut i: usize = 0;
        while i < self.packages.len()
            invariant
                i <= self.packages.len(),
                s == self@.packages,
                forall|j: int| 0 <= j < i ==> s[j] != package@,
            decreases self.packages.len() - i,
        {
            if self.packages[i].same_as(package) {
                proof {
                    assert(s[i as int] == package@);
                }
                return true;
            }
            i += 1;
        }
        false
    }

    /// Searches for a package with a given path id. Returns first match.
    pub fn contains_path(&self, path: &String) -> (r: Option<&InstalledPackage>)
        ensures
            match path_index(self@.packages, path@) {
                Some(i) => r == Some(&self.packages@[i]),
                None => r is None,
            },
    {
        let ghost s = self@.packages;
        let mut i: usize = 0;
        while i < self.packages.len()
            invariant
                i <= self.packages.len(),
                s == self@.packages,
                forall|j: int| 0 <= j < i ==> s[j].path != path@,
            decreases self.packages.len() - i,
        {
            if str_eq(self.packages[i].path.as_str(), path.as_str()) {
                proof {
                    lemma_path_index_at(s, path@, i as int);
                }
                return Some(&self.packages[i]);
            }
            i += 1;
        }
        proof {
            lemma_path_index(s, path@);
        }
        None
    }

    /// Searches for the packages with a given path id. Returns all matches.
    pub fn contains_paths(&self, path: &String) -> (r: Vec<&InstalledPackage>)
        ensures
            r@.map_values(|p: &InstalledPackage| p@) == with_path(self@.packages, path@),
    {
        let ghost s = self@.packages;
        let mut out: Vec<&InstalledPackage> = Vec::new();
        let mut i: usize = 0;
        while i < self.packages.len()
            invariant
                i <= self.packages.len(),
                s == self@.packages,
                out@.map_values(|p: &InstalledPackage| p@) == with_path(s.take(i as int), path@),
            decreases self.packages.len() - i,
        {
            proof {
                assert(s.take(i + 1).drop_last() == s.take(i as int));
                assert(s.take(i + 1).last() == s[i as int]);
            }
            if str_eq(self.packages[i].path.as_str(), path.as_str()) {
                let ghost before = out@;
                out.push(&self.packages[i]);
                proof {
                    assert(out@.map_values(|p: &InstalledPackage| p@) =~= before.map_values(
                        |p: &InstalledPackage| p@,
                    ).push(s[i as int]));
                }
            }
            i += 1;
        }
        proof {
            assert(s.take(self.packages.len() as int) == s);
        }
        out
    }

    /// Searches for the first package with the id of `package`.
    pub fn contains_id(&self, package: &InstalledPackage) -> (r: Option<&InstalledPackage>)
        ensures
            match id_index(self@.packages, package_id(package@)) {
                Some(i) => r == Some(&self.packages@[i]),
                None => r is None,
            },
    {
        proof {
            lemma_id_index(self@.packages, package_id(package@));
        }
        match self.find_id(package) {
            Some(i) => Some(&self.packages[i]),
            None => None,
        }
    }

    /// This will push a package to the end of the list without checking for its existence
    pub fn add_installed_package(&mut self, package: InstalledPackage)
        ensures
            final(self)@.packages == old(self)@.packages.push(package@),
            final(self)@.repositories == old(self)@.repositories,
    {
        let ghost before = self.packages@;
        self.packages.push(package);
        proof {
            assert(packages_view(self.packages@) =~= packages_view(before).push(package@));
        }
    }

    /// Replaces the first package with the id of `package` by it, or adds it
    /// at the end of the list where there is none.
    pub fn insert_installed_package(&mut self, package: InstalledPackage)
        ensures
            final(self)@.packages == list_insert(old(self)@.packages, package@),
            final(self)@.repositories == old(self)@.repositories,
    {
        let ghost before = self.packages@;
        proof {
            lemma_id_index(self@.packages, package_id(package@));
        }
        match self.find_id(&package) {
            Some(i) => {
                let ghost p = package@;
                self.packages.set(i, package);
                proof {
                    assert(packages_view(self.packages@) =~= packages_view(before).update(i as int, p));
                }
            },
            None => {
                self.add_installed_package(package);
            },
        }
    }

    /// Removes the first package with the id of `package` from the list.
    pub fn remove_installed_package(&mut self, package: &InstalledPackage)
        ensures
            final(self)@.packages == list_remove(old(self)@.packages, package@),
            final(self)@.repositories == old(self)@.repositories,
    {
        let ghost before = self.packages@;
        proof {
            lemma_id_index(self@.packages, package_id(package@));
        }
        match self.find_id(package) {
            Some(i) => {
                self.packages.remove(i);
                proof {
                    assert(packages_view(self.packages@) =~= packages_view(before).remove(i as int));
                }
            },
            None => {},
        }
    }

    /// Whether the user accepted `license_id` for repository `name`; `None`
    /// where the list has no such repository.
    pub fn has_accepted(&self, name: &str, license_id: &String) -> (r: Option<bool>)
        ensures
            match assoc_get(self@.repositories, name@) {
                Some(info) => r == Some(info.accepted_licenses.contains(license_id@)),
                None => r is None,
            },
    {
        proof {
            lemma_key_index(self@.repositories, name@);
        }
        match find_key(&self.repositories, name) {
            Some(k) => {
                let licenses = &self.repositories[k].1.accepted_licenses;
                let ghost ls = texts(licenses@);
                proof {
                    assert(ls == self@.repositories[k as int].1.accepted_licenses);
                    assert(assoc_get(self@.repositories, name@) == Some(self@.repositories[k as int].1));
                }
                let mut i: usize = 0;
                while i < licenses.len()
                    invariant
                        i <= licenses.len(),
                        ls == texts(licenses@),
                        ls == self@.repositories[k as int].1.accepted_licenses,
                        assoc_get(self@.repositories, name@) == Some(self@.repositories[k as int].1),
                        forall|j: int| 0 <= j < i ==> ls[j] != license_id@,
                    decreases licenses.len() - i,
                {
                    if str_eq(licenses[i].as_str(), license_id.as_str()) {
                        proof {
                            assert(ls[i as int] == license_id@);
                        }
                        return Some(true);
                    }
                    i += 1;
                }
                Some(false)
            },
            None => None,
        }
    }

    /// Marks a license as accepted for repository `name`; nothing changes
    /// where the list has no such repository.
    pub fn accept_license(&mut self, name: &str, license_id: String)
        ensures
            final(self)@.repositories == repos_accept(old(self)@.repositories, name@, license_id@),
            final(self)@.packages == old(self)@.packages,
            keys_distinct(old(self)@.repositories) ==> keys_distinct(final(self)@.repositories),
    {
        proof {
            lemma_key_index(self@.repositories, name@);
        }
        match find_key(&self.repositories, name) {
            Some(k) => {
                let ghost before = self@.repositories;
                let accepted = self.has_accepted(name, &license_id);
                let (key, mut info) = self.repositories.remove(k);
                if accepted != Some(true) {
                    let ghost ls = info.accepted_licenses@;
                    info.accepted_licenses.push(license_id);
                    proof {
                        assert(texts(info.accepted_licenses@) =~= texts(ls).push(license_id@));
                    }
                }
                let ghost entry = (key@, info@);
                self.repositories.insert(k, (key, info));
                proof {
                    assert(pairs_view(self.repositories@) =~= before.update(k as int, entry));
                }
            },
            None => {},
        }
    }
}


impl InstalledList {
    /// Searches for the first package with the id of `package`, to change it
    /// in place.
    pub fn contains_id_mut(&mut self, package: &InstalledPackage) -> (r: Option<&mut InstalledPackage>)
        ensures
            match id_index(old(self)@.packages, package_id(package@)) {
                Some(i) => r matches Some(p) && *p == old(self).packages@[i]
                    && final(self).packages@ == old(self).packages@.update(i, *final(p))
                    && final(self).repositories == old(self).repositories,
                None => r is None && *final(self) == *old(self),
            },
    {
        proof {
            lemma_id_index(self@.packages, package_id(package@));
        }
        match self.find_id(package) {
            Some(i) => Some(&mut self.packages[i]),
            None => None,
        }
    }
}


/// What is wrong with a table of `installed.toml`.
#[derive(Debug, Clone, Copy, PartialEq, Eq)]
pub enum InstalledListErrKind {
    /// A required key in toml is missing
    MissingKey(&'static str, usize),
    /// Failed converting a toml value to string
    ToStringErr(&'static str, usize),
    /// Failed to read license id entry as string
    LicenseIdStrError(&'static str, usize),
}

/// The model of an error kind.
pub enum ErrKindView {
    MissingKey(Seq<char>, usize),
    ToStringErr(Seq<char>, usize),
    LicenseIdStrError(Seq<char>, usize),
}

impl View for InstalledListErrKind {
    type V = ErrKindView;

    open spec fn view(&self) -> ErrKindView {
        match self {
            InstalledListErrKind::MissingKey(k, p) => ErrKindView::MissingKey(k@, *p),
            InstalledListErrKind::ToStringErr(k, p) => ErrKindView::ToStringErr(k@, *p),
            InstalledListErrKind::LicenseIdStrError(k, p) => ErrKindView::LicenseIdStrError(k@, *p),
        }
    }
}

/// An error of `installed.toml`: its kind and the file it is in.
#[derive(Debug, Clone, PartialEq, Eq)]
pub struct InstalledListErr {
    kind: InstalledListErrKind,
    file: Option<String>,
}

impl InstalledListErr {
    pub fn new(kind: InstalledListErrKind, file: Option<String>) -> (r: Self)
        ensures
            r.kind() == kind,
            r.file() == file,
    {
        InstalledListErr { kind, file }
    }

    pub closed spec fn kind(&self) -> InstalledListErrKind {
        self.kind
    }

    pub closed spec fn file(&self) -> Option<String> {
        self.file
    }

    /// The kind of the error.
    pub fn get_kind(&self) -> (r: InstalledListErrKind)
        ensures
            r == self.kind(),
    {
        self.kind
    }

    /// The message of the error: the file (`[unknown]` where it is not
    /// known), what went wrong, and where.
    pub fn to_string(&self) -> (r: String)
        ensures
            r@ == list_error_text(self.kind()@, match self.file() {
                Some(f) => f@,
                None => "[unknown]"@,
            }),
    {
        let mut s = match &self.file {
            Some(f) => f.clone(),
            None => str_to_string("[unknown]"),
        };
        let (middle, key, tail, n) = match self.kind {
            InstalledListErrKind::MissingKey(k, p) => (": Missing ", k, " in table at position ", p),
            InstalledListErrKind::ToStringErr(k, p) => (": Failed to parse ", k, " value as string on table at position ", p),
            InstalledListErrKind::LicenseIdStrError(k, p) => (": Failed to parse ", k, " value as string at index ", p),
        };
        append_str(&mut s, middle);
        append_str(&mut s, key);
        append_str(&mut s, tail);
        let d = decimal_text(n as u64);
        append_str(&mut s, d.as_str());
        s
    }
}

/// The message of an error of the kind `k` in the file `file`.
pub open spec fn list_error_text(k: ErrKindView, file: Seq<char>) -> Seq<char> {
    match k {
        ErrKindView::MissingKey(key, p) => file + ": Missing "@ + key + " in table at position "@ + decimal(p as nat),
        ErrKindView::ToStringErr(key, p) => file + ": Failed to parse "@ + key
            + " value as string on table at position "@ + decimal(p as nat),
        ErrKindView::LicenseIdStrError(key, p) => file + ": Failed to parse "@ + key + " value as string at index "@
            + decimal(p as nat),
    }
}

/// Why `installed.toml` could not be read.
#[derive(Debug, Clone, PartialEq, Eq)]
pub enum InstalledListError {
    /// The text is not TOML; `toml_edit`'s message.
    Toml(String),
    /// A table of the list is not as it should be.
    List(InstalledListErr),
    /// The version of a package is not a revision.
    Version(RevisionParseError),
}

/// The model of an error of the list.
pub enum ListErrorView {
    Toml(Seq<char>),
    List(ErrKindView),
    Version(RevisionParseErrorKind),
}

/// The kind of error an error of the list has, as its model.
pub open spec fn list_error_view(e: InstalledListError) -> ListErrorView {
    match e {
        InstalledListError::Toml(m) => ListErrorView::Toml(m@),
        InstalledListError::List(x) => ListErrorView::List(x.kind()@),
        InstalledListError::Version(v) => ListErrorView::Version(v.kind),
    }
}

/// A required text of a table: its value, or the error with the key `err_key`
/// and the position `pos` where it is missing or not a text.
pub open spec fn required_text(t: TomlTableView, key: Seq<char>, err_key: Seq<char>, pos: usize) -> Result<Seq<char>, ErrKindView> {
    match table_get(t, key) {
        None => Err(ErrKindView::MissingKey(err_key, pos)),
        Some(i) => match item_str(i) {
            Some(s) => Ok(s),
            None => Err(ErrKindView::ToStringErr(err_key, pos)),
        },
    }
}

/// The accepted licenses of a list of values: each a text, each kept once.
pub open spec fn licenses_from(vs: Seq<TomlValueView>) -> Result<Seq<Seq<char>>, ErrKindView>
    decreases vs.len(),
{
    if vs.len() == 0 {
        Ok(Seq::empty())
    } else {
        match licenses_from(vs.drop_last()) {
            Err(e) => Err(e),
            Ok(ls) => match vs.last() {
                TomlValueView::Str(id) => Ok(set_insert(ls, id)),
                _ => Err(ErrKindView::LicenseIdStrError("accepted_licenses"@, (vs.len() - 1) as usize)),
            },
        }
    }
}

/// The repository of the `[[repository]]` table at index `i`.
pub open spec fn repo_from(t: TomlTableView, i: usize) -> Result<(Seq<char>, RepositoryInfoView), ErrKindView> {
    match required_text(t, "name"@, "path"@, i) {
        Err(e) => Err(e),
        Ok(name) => match required_text(t, "path"@, "path"@, i) {
            Err(e) => Err(e),
            Ok(path) => match required_text(t, "url"@, "path"@, i) {
                Err(e) => Err(e),
                Ok(url) => {
                    let licenses = match table_get(t, "accepted_licenses"@) {
                        Some(it) => match item_array(it) {
                            Some(vs) => licenses_from(vs),
                            None => Ok(Seq::empty()),
                        },
                        None => Ok(Seq::empty()),
                    };
                    match licenses {
                        Err(e) => Err(e),
                        Ok(ls) => Ok((name, RepositoryInfoView { url, accepted_licenses: ls, path })),
                    }
                },
            },
        },
    }
}

/// The repositories of the `[[repository]]` tables, by name.
pub open spec fn repos_from(ts: Seq<TomlTableView>) -> Result<Seq<(Seq<char>, RepositoryInfoView)>, ErrKindView>
    decreases ts.len(),
{
    if ts.len() == 0 {
        Ok(Seq::empty())
    } else {
        match repos_from(ts.drop_last()) {
            Err(e) => Err(e),
            Ok(rs) => match repo_from(ts.last(), (ts.len() - 1) as usize) {
                Err(e) => Err(e),
                Ok(r) => Ok(assoc_insert(rs, r.0, r.1)),
            },
        }
    }
}

/// The package of a `[[package]]` table.
pub open spec fn package_from(t: TomlTableView) -> Result<InstalledPackageView, ListErrorView> {
    let pos = match t.position {
        Some(p) => p,
        None => 0,
    };
    match required_text(t, "path"@, "path"@, pos) {
        Err(e) => Err(ListErrorView::List(e)),
        Ok(path) => match required_text(t, "repository_name"@, "path"@, pos) {
            Err(e) => Err(ListErrorView::List(e)),
            Ok(repository_name) => match required_text(t, "url"@, "url"@, pos) {
                Err(e) => Err(ListErrorView::List(e)),
                Ok(url) => match required_text(t, "version"@, "version"@, pos) {
                    Err(e) => Err(ListErrorView::List(e)),
                    Ok(v) => match revision_from_text(v) {
                        Err(k) => Err(ListErrorView::Version(k)),
                        Ok(version) => match required_text(t, "channel"@, "channel"@, pos) {
                            Err(e) => Err(ListErrorView::List(e)),
                            Ok(c) => {
                                let directory = match table_get(t, "directory"@) {
                                    None => Ok(None),
                                    Some(i) => match item_str(i) {
                                        Some(d) => Ok(Some(d)),
                                        None => Err(ErrKindView::ToStringErr("directory"@, pos)),
                                    },
                                };
                                match directory {
                                    Err(e) => Err(ListErrorView::List(e)),
                                    Ok(d) => Ok(
                                        InstalledPackageView {
                                            repository_name,
                                            path,
                                            version,
                                            channel: channel_from_text(c),
                                            url,
                                            directory: d,
                                        },
                                    ),
                                }
                            },
                        },
                    },
                },
            },
        },
    }
}

/// The packages of the `[[package]]` tables, in their order.
pub open spec fn packages_from(ts: Seq<TomlTableView>) -> Result<Seq<InstalledPackageView>, ListErrorView>
    decreases ts.len(),
{
    if ts.len() == 0 {
        Ok(Seq::empty())
    } else {
        match packages_from(ts.drop_last()) {
            Err(e) => Err(e),
            Ok(ps) => match package_from(ts.last()) {
                Err(e) => Err(e),
                Ok(p) => Ok(ps.push(p)),
            },
        }
    }
}

/// The arrays of tables of a document under `key`, none where it holds no
/// array of tables.
pub open spec fn tables_under(doc: TomlTableView, key: Seq<char>) -> Seq<TomlTableView> {
    match table_get(doc, key) {
        Some(i) => match item_tables(i) {
            Some(ts) => ts,
            None => Seq::empty(),
        },
        None => Seq::empty(),
    }
}

/// The list a document describes: its repositories first, then its
/// packages; the first table that is not as it should be is the error.
pub open spec fn list_from_doc(doc: TomlTableView) -> Result<InstalledListView, ListErrorView> {
    match repos_from(tables_under(doc, "repository"@)) {
        Err(e) => Err(ListErrorView::List(e)),
        Ok(rs) => match packages_from(tables_under(doc, "package"@)) {
            Err(e) => Err(e),
            Ok(ps) => Ok(InstalledListView { packages: ps, repositories: rs }),
        },
    }
}

/// The list a text describes.
pub open spec fn list_from_text(s: Seq<char>) -> Result<InstalledListView, ListErrorView> {
    match toml_parsed(s) {
        Err(m) => Err(ListErrorView::Toml(m)),
        Ok(doc) => list_from_doc(doc),
    }
}


proof fn lemma_licenses_err_prefix(vs: Seq<TomlValueView>, n: int)
    requires
        0 <= n <= vs.len(),
        licenses_from(vs.take(n)) is Err,
    ensures
        licenses_from(vs) == licenses_from(vs.take(n)),
    decreases vs.len() - n,
{
    if n < vs.len() {
        assert(vs.take(n + 1).drop_last() == vs.take(n));
        lemma_licenses_err_prefix(vs, n + 1);
    } else {
        assert(vs.take(n) == vs);
    }
}

proof fn lemma_repos_err_prefix(ts: Seq<TomlTableView>, n: int)
    requires
        0 <= n <= ts.len(),
        repos_from(ts.take(n)) is Err,
    ensures
        repos_from(ts) == repos_from(ts.take(n)),
    decreases ts.len() - n,
{
    if n < ts.len() {
        assert(ts.take(n + 1).drop_last() == ts.take(n));
        lemma_repos_err_prefix(ts, n + 1);
    } else {
        assert(ts.take(n) == ts);
    }
}

proof fn lemma_packages_err_prefix(ts: Seq<TomlTableView>, n: int)
    requires
        0 <= n <= ts.len(),
        packages_from(ts.take(n)) is Err,
    ensures
        packages_from(ts) == packages_from(ts.take(n)),
    decreases ts.len() - n,
{
    if n < ts.len() {
        assert(ts.take(n + 1).drop_last() == ts.take(n));
        lemma_packages_err_prefix(ts, n + 1);
    } else {
        assert(ts.take(n) == ts);
    }
}

/// A required text of a table.
fn required_str(t: &TomlTable, key: &str, err_key: &'static str, pos: usize) -> (r: Result<String, InstalledListErrKind>)
    ensures
        match required_text(t@, key@, err_key@, pos) {
            Ok(s) => r matches Ok(x) && x@ == s,
            Err(e) => r matches Err(x) && x@ == e,
        },
{
    match t.get(key) {
        None => Err(InstalledListErrKind::MissingKey(err_key, pos)),
        Some(i) => match i.as_str() {
            Some(s) => Ok(s.clone()),
            None => Err(InstalledListErrKind::ToStringErr(err_key, pos)),
        },
    }
}

/// The accepted licenses of a list of values.
fn licenses_of(vs: &Vec<TomlValue>) -> (r: Result<Vec<String>, InstalledListErrKind>)
    ensures
        match licenses_from(values_view(vs@)) {
            Ok(ls) => r matches Ok(x) && texts(x@) == ls,
            Err(e) => r matches Err(x) && x@ == e,
        },
{
    let ghost vv = values_view(vs@);
    let mut out: Vec<String> = Vec::new();
    let mut i: usize = 0;
    assert(vv.take(0) =~= Seq::<TomlValueView>::empty());
    assert(texts(out@) =~= Seq::<Seq<char>>::empty());
    while i < vs.len()
        invariant
            i <= vs.len(),
            vv == values_view(vs@),
            licenses_from(vv.take(i as int)) == Ok::<Seq<Seq<char>>, ErrKindView>(texts(out@)),
        decreases vs.len() - i,
    {
        proof {
            assert(vv.take(i + 1).drop_last() == vv.take(i as int));
            assert(vv.take(i + 1).last() == vs@[i as int]@);
        }
        match vs[i].as_str() {
            Some(id) => {
                let ghost ls = texts(out@);
                let mut seen = false;
                let mut j: usize = 0;
                while j < out.len()
                    invariant
                        j <= out.len(),
                        ls == texts(out@),
                        seen <==> exists|k: int| 0 <= k < j && ls[k] == id@,
                    decreases out.len() - j,
                {
                    proof {
                        assert(ls[j as int] == out@[j as int]@);
                    }
                    if str_eq(out[j].as_str(), id.as_str()) {
                        seen = true;
                    }
                    j += 1;
                }
                if !seen {
                    out.push(id.clone());
                    proof {
                        assert(texts(out@) =~= ls.push(id@));
                    }
                } else {
                    proof {
                        let k = choose|k: int| 0 <= k < out.len() && ls[k] == id@;
                        assert(ls.contains(id@));
                    }
                }
            },
            None => {
                proof {
                    lemma_licenses_err_prefix(vv, i + 1);
                }
                return Err(InstalledListErrKind::LicenseIdStrError("accepted_licenses", i));
            },
        }
        i += 1;
    }
    proof {
        assert(vv.take(vs.len() as int) == vv);
    }
    Ok(out)
}

/// The repository of a `[[repository]]` table.
fn repo_of(t: &TomlTable, i: usize) -> (r: Result<(String, RepositoryInfo), InstalledListErrKind>)
    ensures
        match repo_from(t@, i) {
            Ok(x) => r matches Ok(y) && y.0@ == x.0 && y.1@ == x.1,
            Err(e) => r matches Err(x) && x@ == e,
        },
{
    let name = match required_str(t, "name", "path", i) {
        Ok(s) => s,
        Err(e) => {
            return Err(e);
        },
    };
    let path = match required_str(t, "path", "path", i) {
        Ok(s) => s,
        Err(e) => {
            return Err(e);
        },
    };
    let url = match required_str(t, "url", "path", i) {
        Ok(s) => s,
        Err(e) => {
            return Err(e);
        },
    };
    let mut accepted_licenses: Vec<String> = Vec::new();
    match t.get("accepted_licenses") {
        Some(it) => match it.as_array() {
            Some(vs) => match licenses_of(vs) {
                Ok(ls) => {
                    accepted_licenses = ls;
                },
                Err(e) => {
                    return Err(e);
                },
            },
            None => {},
        },
        None => {},
    }
    proof {
        if accepted_licenses@.len() == 0 {
            assert(texts(accepted_licenses@) =~= Seq::<Seq<char>>::empty());
        }
    }
    Ok((name, RepositoryInfo { url, accepted_licenses, path }))
}

/// The package of a `[[package]]` table.
fn package_of(t: &TomlTable) -> (r: Result<InstalledPackage, InstalledListError>)
    ensures
        match package_from(t@) {
            Ok(p) => r matches Ok(x) && x@ == p,
            Err(e) => r matches Err(x) && list_error_view(x) == e,
        },
{
    let pos: usize = match t.position {
        Some(p) => p,
        None => 0,
    };
    let path = match required_str(t, "path", "path", pos) {
        Ok(s) => s,
        Err(e) => {
            return Err(InstalledListError::List(InstalledListErr::new(e, Some(str_to_string("installed.toml")))));
        },
    };
    let repository_name = match required_str(t, "repository_name", "path", pos) {
        Ok(s) => s,
        Err(e) => {
            return Err(InstalledListError::List(InstalledListErr::new(e, Some(str_to_string("installed.toml")))));
        },
    };
    let url = match required_str(t, "url", "url", pos) {
        Ok(s) => s,
        Err(e) => {
            return Err(InstalledListError::List(InstalledListErr::new(e, Some(str_to_string("installed.toml")))));
        },
    };
    let v = match required_str(t, "version", "version", pos) {
        Ok(s) => s,
        Err(e) => {
            return Err(InstalledListError::List(InstalledListErr::new(e, Some(str_to_string("installed.toml")))));
        },
    };
    let version = match Revision::from_str(v.as_str()) {
        Ok(r) => r,
        Err(e) => {
            return Err(InstalledListError::Version(e));
        },
    };
    let c = match required_str(t, "channel", "channel", pos) {
        Ok(s) => s,
        Err(e) => {
            return Err(InstalledListError::List(InstalledListErr::new(e, Some(str_to_string("installed.toml")))));
        },
    };
    let directory = match t.get("directory") {
        None => None,
        Some(i) => match i.as_str() {
            Some(d) => Some(d.clone()),
            None => {
                return Err(
                    InstalledListError::List(
                        InstalledListErr::new(
                            InstalledListErrKind::ToStringErr("directory", pos),
                            Some(str_to_string("installed.toml")),
                        ),
                    ),
                );
            },
        },
    };
    Ok(
        InstalledPackage {
            repository_name,
            path,
            version,
            channel: ChannelType::from_str(c.as_str()),
            url,
            directory,
        },
    )
}

/// The tables of a document under `key`, where it holds an array of tables.
fn tables_of<'a>(doc: &'a TomlTable, key: &str) -> (r: Option<&'a Vec<TomlTable>>)
    ensures
        match r {
            Some(ts) => tables_view(ts@) == tables_under(doc@, key@),
            None => tables_under(doc@, key@).len() == 0,
        },
{
    match doc.get(key) {
        Some(i) => i.as_tables(),
        None => None,
    }
}

impl InstalledList {
    /// Reads the list out of a TOML document.
    pub fn from_toml(doc: &TomlTable) -> (r: Result<InstalledList, InstalledListError>)
        ensures
            match list_from_doc(doc@) {
                Ok(l) => r matches Ok(x) && x@ == l,
                Err(e) => r matches Err(x) && list_error_view(x) == e,
            },
            r matches Ok(x) ==> keys_distinct(x@.repositories),
    {
        let mut repositories: Vec<(String, RepositoryInfo)> = Vec::new();
        let ghost rts = tables_under(doc@, "repository"@);
        match tables_of(doc, "repository") {
            Some(repos) => {
                let mut i: usize = 0;
                assert(rts.take(0) =~= Seq::<TomlTableView>::empty());
                assert(pairs_view(repositories@) =~= Seq::<(Seq<char>, RepositoryInfoView)>::empty());
                while i < repos.len()
                    invariant
                        i <= repos.len(),
                        rts == tables_view(repos@),
                        rts == tables_under(doc@, "repository"@),
                        repos_from(rts.take(i as int)) == Ok::<
                            Seq<(Seq<char>, RepositoryInfoView)>,
                            ErrKindView,
                        >(pairs_view(repositories@)),
                        keys_distinct(pairs_view(repositories@)),
                    decreases repos.len() - i,
                {
                    proof {
                        assert(rts.take(i + 1).drop_last() == rts.take(i as int));
                        assert(rts.take(i + 1).last() == repos@[i as int]@);
                    }
                    match repo_of(&repos[i], i) {
                        Ok((name, info)) => {
                            proof {
                                lemma_insert_distinct(pairs_view(repositories@), name@, info@);
                            }
                            insert_key(&mut repositories, name, info);
                        },
                        Err(e) => {
                            proof {
                                lemma_repos_err_prefix(rts, i + 1);
                            }
                            return Err(
                                InstalledListError::List(InstalledListErr::new(e, Some(str_to_string("installed.toml")))),
                            );
                        },
                    }
                    i += 1;
                }
                proof {
                    assert(rts.take(repos.len() as int) == rts);
                }
            },
            None => {
                proof {
                    assert(rts =~= Seq::<TomlTableView>::empty());
                    assert(pairs_view(repositories@) =~= Seq::<(Seq<char>, RepositoryInfoView)>::empty());
                }
            },
        }
        let mut packages: Vec<InstalledPackage> = Vec::new();
        let ghost pts = tables_under(doc@, "package"@);
        match tables_of(doc, "package") {
            Some(ts) => {
                let mut i: usize = 0;
                assert(pts.take(0) =~= Seq::<TomlTableView>::empty());
                assert(packages_view(packages@) =~= Seq::<InstalledPackageView>::empty());
                while i < ts.len()
                    invariant
                        i <= ts.len(),
                        pts == tables_view(ts@),
                        pts == tables_under(doc@, "package"@),
                        repos_from(tables_under(doc@, "repository"@)) == Ok::<
                            Seq<(Seq<char>, RepositoryInfoView)>,
                            ErrKindView,
                        >(pairs_view(repositories@)),
                        keys_distinct(pairs_view(repositories@)),
                        packages_from(pts.take(i as int)) == Ok::<Seq<InstalledPackageView>, ListErrorView>(
                            packages_view(packages@),
                        ),
                    decreases ts.len() - i,
                {
                    proof {
                        assert(pts.take(i + 1).drop_last() == pts.take(i as int));
                        assert(pts.take(i + 1).last() == ts@[i as int]@);
                    }
                    match package_of(&ts[i]) {
                        Ok(p) => {
                            let ghost before = packages@;
                            packages.push(p);
                            proof {
                                assert(packages_view(packages@) =~= packages_view(before).push(p@));
                            }
                        },
                        Err(e) => {
                            proof {
                                lemma_packages_err_prefix(pts, i + 1);
                            }
                            return Err(e);
                        },
                    }
                    i += 1;
                }
                proof {
                    assert(pts.take(ts.len() as int) == pts);
                }
            },
            None => {
                proof {
                    assert(pts =~= Seq::<TomlTableView>::empty());
                    assert(packages_view(packages@) =~= Seq::<InstalledPackageView>::empty());
                }
            },
        }
        Ok(InstalledList { packages, repositories })
    }

    /// Reads the list out of the text of `installed.toml`.
    pub fn from_str(s: &str) -> (r: Result<InstalledList, InstalledListError>)
        ensures
            match list_from_text(s@) {
                Ok(l) => r matches Ok(x) && x@ == l,
                Err(e) => r matches Err(x) && list_error_view(x) == e,
            },
            r matches Ok(x) ==> keys_distinct(x@.repositories),
    {
        match parse_toml(s) {
            Ok(doc) => InstalledList::from_toml(&doc),
            Err(e) => Err(InstalledListError::Toml(e.message)),
        }
    }
}

impl core::str::FromStr for InstalledList {
    type Err = InstalledListError;

    fn from_str(s: &str) -> (r: Result<InstalledList, InstalledListError>)
        ensures
            match list_from_text(s@) {
                Ok(l) => r matches Ok(x) && x@ == l,
                Err(e) => r matches Err(x) && list_error_view(x) == e,
            },
            r matches Ok(x) ==> keys_distinct(x@.repositories),
    {
        InstalledList::from_str(s)
    }
}


/// Whether text `a` comes no later than text `b` in the order of `String`:
/// character by character (which is the order of their UTF-8 bytes), a
/// prefix first.
pub open spec fn text_le(a: Seq<char>, b: Seq<char>) -> bool
    decreases a.len(),
{
    if a.len() == 0 {
        true
    } else if b.len() == 0 {
        false
    } else if (a[0] as int) < (b[0] as int) {
        true
    } else if a[0] == b[0] {
        text_le(a.drop_first(), b.drop_first())
    } else {
        false
    }
}

/// Where an insertion puts `x` into the ordered `s`: after every text that
/// comes no later than it.
pub open spec fn text_pos(s: Seq<Seq<char>>, x: Seq<char>) -> int
    decreases s.len(),
{
    if s.len() == 0 {
        0
    } else if text_le(s.last(), x) {
        s.len() as int
    } else {
        text_pos(s.drop_last(), x)
    }
}

/// Texts in the order of `String`, by insertion.
pub open spec fn sort_texts(s: Seq<Seq<char>>) -> Seq<Seq<char>>
    decreases s.len(),
{
    if s.len() == 0 {
        s
    } else {
        let t = sort_texts(s.drop_last());
        t.insert(text_pos(t, s.last()), s.last())
    }
}

/// Whether texts are in the order of `String`.
pub open spec fn texts_sorted(s: Seq<Seq<char>>) -> bool {
    forall|i: int, j: int| 0 <= i < j < s.len() ==> text_le(s[i], s[j])
}

pub proof fn lemma_text_le_total(a: Seq<char>, b: Seq<char>)
    ensures
        text_le(a, b) || text_le(b, a),
    decreases a.len(),
{
    if a.len() > 0 && b.len() > 0 && a[0] == b[0] {
        lemma_text_le_total(a.drop_first(), b.drop_first());
    }
}

pub proof fn lemma_text_le_trans(a: Seq<char>, b: Seq<char>, c: Seq<char>)
    requires
        text_le(a, b),
        text_le(b, c),
    ensures
        text_le(a, c),
    decreases a.len(),
{
    if a.len() > 0 && b.len() > 0 && c.len() > 0 && a[0] == b[0] && b[0] == c[0] {
        lemma_text_le_trans(a.drop_first(), b.drop_first(), c.drop_first());
    }
}

proof fn lemma_text_pos(s: Seq<Seq<char>>, x: Seq<char>)
    requires
        texts_sorted(s),
    ensures
        0 <= text_pos(s, x) <= s.len(),
        forall|k: int| 0 <= k < text_pos(s, x) ==> text_le(s[k], x),
        forall|k: int| text_pos(s, x) <= k < s.len() ==> !text_le(s[k], x),
    decreases s.len(),
{
    if s.len() > 0 {
        let t = s.drop_last();
        assert(texts_sorted(t));
        lemma_text_pos(t, x);
        if text_le(s.last(), x) {
            assert forall|k: int| 0 <= k < s.len() implies text_le(s[k], x) by {
                if k < s.len() - 1 {
                    lemma_text_le_trans(s[k], s[s.len() - 1], x);
                }
            }
        } else {
            let p = text_pos(t, x);
            assert forall|k: int| 0 <= k < p implies text_le(s[k], x) by {
                assert(s[k] == t[k]);
            }
            assert forall|k: int| p <= k < s.len() implies !text_le(s[k], x) by {
                if k < s.len() - 1 {
                    assert(s[k] == t[k]);
                }
            }
        }
    }
}

/// The licenses are written in the order of `String`, and they are the
/// licenses that were accepted.
pub proof fn lemma_sort_texts(s: Seq<Seq<char>>)
    ensures
        texts_sorted(sort_texts(s)),
        sort_texts(s).to_multiset() =~= s.to_multiset(),
        sort_texts(s).len() == s.len(),
    decreases s.len(),
{
    broadcast use vstd::seq_lib::group_to_multiset_ensures;

    if s.len() > 0 {
        let t = sort_texts(s.drop_last());
        let x = s.last();
        lemma_sort_texts(s.drop_last());
        lemma_text_pos(t, x);
        let p = text_pos(t, x);
        let u = t.insert(p, x);
        assert forall|i: int, j: int| 0 <= i < j < u.len() implies text_le(u[i], u[j]) by {
            if j < p {
            } else if j == p {
            } else if i < p {
                assert(text_le(t[i], x));
                lemma_text_le_total(t[j - 1], x);
                lemma_text_le_trans(t[i], x, t[j - 1]);
            } else if i == p {
                lemma_text_le_total(t[j - 1], x);
            } else {
            }
        }
        assert(u.remove(p) =~= t);
        assert(u[p] == x);
        assert(u.remove(p).to_multiset() =~= u.to_multiset().remove(x));
        assert(u.to_multiset().count(x) > 0) by {
            assert(u.contains(x));
        }
        assert(s.drop_last().push(x) =~= s);
        assert(u.to_multiset() =~= t.to_multiset().insert(x));
    }
}

/// Whether `a` comes no later than `b` in the order of `String`.
fn text_le_exec(a: &String, b: &String) -> (r: bool)
    ensures
        r == text_le(a@, b@),
{
    let x = crate::strs::chars_of(a.as_str());
    let y = crate::strs::chars_of(b.as_str());
    let mut i: usize = 0;
    assert(a@.skip(0) == a@);
    assert(b@.skip(0) == b@);
    while i < x.len()
        invariant
            i <= x.len(),
            x@ == a@,
            y@ == b@,
            i <= y.len(),
            x@.take(i as int) == y@.take(i as int),
            text_le(a@, b@) == text_le(a@.skip(i as int), b@.skip(i as int)),
        decreases x.len() - i,
    {
        proof {
            assert(a@.skip(i as int).drop_first() == a@.skip(i + 1));
        }
        if i >= y.len() {
            return false;
        }
        proof {
            assert(b@.skip(i as int).drop_first() == b@.skip(i + 1));
            assert(a@.skip(i as int)[0] == x@[i as int]);
            assert(b@.skip(i as int)[0] == y@[i as int]);
        }
        if x[i] < y[i] {
            return true;
        }
        if x[i] != y[i] {
            return false;
        }
        proof {
            assert(x@.take(i + 1) =~= x@.take(i as int).push(x@[i as int]));
            assert(y@.take(i + 1) =~= y@.take(i as int).push(y@[i as int]));
        }
        i += 1;
    }
    true
}

/// The texts in the order of `String`.
fn sorted_texts(v: &Vec<String>) -> (out: Vec<String>)
    ensures
        texts(out@) == sort_texts(texts(v@)),
{
    let ghost vv = texts(v@);
    let mut out: Vec<String> = Vec::new();
    let mut i: usize = 0;
    while i < v.len()
        invariant
            i <= v.len(),
            vv == texts(v@),
            texts(out@) == sort_texts(vv.take(i as int)),
        decreases v.len() - i,
    {
        let x = v[i].clone();
        let ghost s = texts(out@);
        let mut j = out.len();
        assert(s.take(j as int) == s);
        while j > 0 && !text_le_exec(&out[j - 1], &x)
            invariant
                j <= out.len(),
                s == texts(out@),
                text_pos(s, x@) == text_pos(s.take(j as int), x@),
            decreases j,
        {
            proof {
                assert(s.take(j as int).drop_last() == s.take(j - 1));
                assert(s.take(j as int).last() == out@[j - 1]@);
            }
            j -= 1;
        }
        proof {
            if j > 0 {
                assert(s.take(j as int).last() == out@[j - 1]@);
                assert(s.take(j as int).len() == j);
            }
            assert(vv.take(i + 1).drop_last() == vv.take(i as int));
            assert(vv.take(i + 1).last() == v@[i as int]@);
        }
        out.insert(j, x);
        proof {
            assert(texts(out@) =~= s.insert(j as int, x@));
        }
        i += 1;
    }
    proof {
        assert(vv.take(v.len() as int) == vv);
    }
    out
}


/// A text item.
pub open spec fn text_item(t: Seq<char>) -> TomlItemView {
    TomlItemView::Value(TomlValueView::Str(t))
}

/// The table a repository is written as; its licenses in the order of
/// `String`.
pub open spec fn repo_table(name: Seq<char>, r: RepositoryInfoView) -> TomlTableView {
    TomlTableView {
        entries: seq![
            ("name"@, text_item(name)),
            ("url"@, text_item(r.url)),
            ("path"@, text_item(r.path)),
            (
                "accepted_licenses"@,
                TomlItemView::Value(
                    TomlValueView::Array(
                        sort_texts(r.accepted_licenses).map_values(|t: Seq<char>| TomlValueView::Str(t)),
                        Seq::empty(),
                    ),
                ),
            ),
        ],
        position: None,
    }
}

/// The table a package is written as.
pub open spec fn package_table(p: InstalledPackageView) -> TomlTableView {
    TomlTableView {
        entries: seq![
            ("repository_name"@, text_item(p.repository_name)),
            ("path"@, text_item(p.path)),
            ("version"@, text_item(revision_text(p.version))),
            ("channel"@, text_item(channel_text(p.channel))),
        ] + (match p.directory {
            Some(d) => seq![("directory"@, text_item(d))],
            None => Seq::empty(),
        }) + seq![("url"@, text_item(p.url))],
        position: None,
    }
}

/// The document a list is written as: its repositories, then its packages.
pub open spec fn list_doc(l: InstalledListView) -> TomlTableView {
    TomlTableView {
        entries: seq![
            (
                "repository"@,
                TomlItemView::Tables(
                    l.repositories.map_values(|r: (Seq<char>, RepositoryInfoView)| repo_table(r.0, r.1)),
                ),
            ),
            ("package"@, TomlItemView::Tables(l.packages.map_values(|p: InstalledPackageView| package_table(p)))),
        ],
        position: None,
    }
}

fn text_entry(key: &str, value: String) -> (r: (String, TomlItem))
    ensures
        r.0@ == key@,
        r.1@ == text_item(value@),
{
    (str_to_string(key), TomlItem::Value(TomlValue::Str(value)))
}

fn repo_table_of(name: &String, r: &RepositoryInfo) -> (t: TomlTable)
    ensures
        t@ == repo_table(name@, r@),
{
    let ids = sorted_texts(&r.accepted_licenses);
    let mut xs: Vec<TomlValue> = Vec::new();
    let mut i: usize = 0;
    while i < ids.len()
        invariant
            i <= ids.len(),
            xs@.len() == i,
            forall|j: int| 0 <= j < i ==> #[trigger] xs@[j]@ == TomlValueView::Str(ids@[j]@),
        decreases ids.len() - i,
    {
        xs.push(TomlValue::Str(ids[i].clone()));
        i += 1;
    }
    let ghost xv = values_view(xs@);
    let shown: Vec<String> = Vec::new();
    proof {
        crate::tomldoc::lemma_array_view(xs, shown);
        assert(xv =~= sort_texts(r@.accepted_licenses).map_values(|t: Seq<char>| TomlValueView::Str(t)));
        assert(shown@.map_values(|t: String| t@) =~= Seq::<Seq<char>>::empty());
    }
    let mut es: Vec<(String, TomlItem)> = Vec::new();
    es.push(text_entry("name", name.clone()));
    es.push(text_entry("url", r.url.clone()));
    es.push(text_entry("path", r.path.clone()));
    es.push((str_to_string("accepted_licenses"), TomlItem::Value(TomlValue::Array(xs, shown))));
    let t = TomlTable { entries: es, position: None };
    proof {
        crate::tomldoc::lemma_table_entries(t);
        assert(t@.entries =~= repo_table(name@, r@).entries);
    }
    t
}

fn package_table_of(p: &InstalledPackage) -> (t: TomlTable)
    ensures
        t@ == package_table(p@),
{
    let mut es: Vec<(String, TomlItem)> = Vec::new();
    es.push(text_entry("repository_name", p.repository_name.clone()));
    es.push(text_entry("path", p.path.clone()));
    es.push(text_entry("version", p.version.to_string()));
    es.push(text_entry("channel", p.channel.to_string()));
    if let Some(d) = &p.directory {
        es.push(text_entry("directory", d.clone()));
    }
    es.push(text_entry("url", p.url.clone()));
    let t = TomlTable { entries: es, position: None };
    proof {
        crate::tomldoc::lemma_table_entries(t);
        assert(t@.entries =~= package_table(p@).entries);
    }
    t
}

impl InstalledList {
    /// The text of `installed.toml` for this list.
    pub fn to_string(&self) -> (r: String)
        ensures
            r@ == toml_rendered(list_doc(self@)),
    {
        let mut repos: Vec<TomlTable> = Vec::new();
        let mut i: usize = 0;
        while i < self.repositories.len()
            invariant
                i <= self.repositories.len(),
                repos@.len() == i,
                forall|j: int|
                    0 <= j < i ==> #[trigger] repos@[j]@ == repo_table(
                        self.repositories@[j].0@,
                        self.repositories@[j].1@,
                    ),
            decreases self.repositories.len() - i,
        {
            repos.push(repo_table_of(&self.repositories[i].0, &self.repositories[i].1));
            i += 1;
        }
        let mut packages: Vec<TomlTable> = Vec::new();
        let mut i: usize = 0;
        while i < self.packages.len()
            invariant
                i <= self.packages.len(),
                packages@.len() == i,
                forall|j: int| 0 <= j < i ==> #[trigger] packages@[j]@ == package_table(self.packages@[j]@),
            decreases self.packages.len() - i,
        {
            packages.push(package_table_of(&self.packages[i]));
            i += 1;
        }
        let ghost rv = tables_view(repos@);
        let ghost pv = tables_view(packages@);
        let mut es: Vec<(String, TomlItem)> = Vec::new();
        es.push((str_to_string("repository"), TomlItem::Tables(repos)));
        es.push((str_to_string("package"), TomlItem::Tables(packages)));
        let doc = TomlTable { entries: es, position: None };
        proof {
            crate::tomldoc::lemma_table_entries(doc);
            assert(rv =~= self@.repositories.map_values(
                |r: (Seq<char>, RepositoryInfoView)| repo_table(r.0, r.1),
            ));
            assert(pv =~= self@.packages.map_values(|p: InstalledPackageView| package_table(p)));
            assert(item_view(TomlItem::Tables(repos))->Tables_0 =~= rv);
            assert(item_view(TomlItem::Tables(packages))->Tables_0 =~= pv);
            assert(doc@.entries =~= list_doc(self@).entries);
        }
        render_toml(&doc)
    }
}

/// A list that its document gives back: its repositories have distinct
/// names and no license twice, and the channels of its packages are written
/// by names of their own.
pub open spec fn list_reads_back(l: InstalledListView) -> bool {
    &&& crate::assoc::keys_distinct(l.repositories)
    &&& forall|k: int| 0 <= k < l.repositories.len() ==> (#[trigger] l.repositories[k]).1.accepted_licenses.no_duplicates()
    &&& forall|k: int| 0 <= k < l.packages.len() ==> crate::repository_toml::channel_named(
        #[trigger] l.packages[k].channel,
    )
}

/// A repository with its licenses in the order they are written in.
pub open spec fn licenses_sorted(r: (Seq<char>, RepositoryInfoView)) -> (Seq<char>, RepositoryInfoView) {
    (r.0, RepositoryInfoView { accepted_licenses: sort_texts(r.1.accepted_licenses), ..r.1 })
}

proof fn lemma_get_first(t: TomlTableView, key: Seq<char>, i: int)
    requires
        0 <= i < t.entries.len(),
        t.entries[i].0 == key,
        forall|j: int| 0 <= j < i ==> t.entries[j].0 != key,
    ensures
        table_get(t, key) == Some(t.entries[i].1),
{
    crate::assoc::lemma_key_index_at(t.entries, key, i);
}

proof fn lemma_licenses_round_trip(ls: Seq<Seq<char>>)
    requires
        ls.no_duplicates(),
    ensures
        licenses_from(ls.map_values(|t: Seq<char>| TomlValueView::Str(t))) == Ok::<Seq<Seq<char>>, ErrKindView>(ls),
    decreases ls.len(),
{
    if ls.len() > 0 {
        let vs = ls.map_values(|t: Seq<char>| TomlValueView::Str(t));
        let init = ls.drop_last();
        assert(vs.drop_last() =~= init.map_values(|t: Seq<char>| TomlValueView::Str(t)));
        assert(init.no_duplicates());
        lemma_licenses_round_trip(init);
        assert(!init.contains(ls.last())) by {
            if init.contains(ls.last()) {
                let j = choose|j: int| 0 <= j < init.len() && init[j] == ls.last();
                assert(ls[j] == ls[ls.len() - 1]);
            }
        }
        assert(init.push(ls.last()) =~= ls);
    } else {
        assert(ls =~= Seq::<Seq<char>>::empty());
    }
}

proof fn lemma_sorted_distinct(ls: Seq<Seq<char>>)
    requires
        ls.no_duplicates(),
    ensures
        sort_texts(ls).no_duplicates(),
{
    lemma_sort_texts(ls);
    ls.lemma_multiset_has_no_duplicates();
    sort_texts(ls).lemma_multiset_has_no_duplicates_conv();
}

proof fn lemma_repo_round_trip(name: Seq<char>, r: RepositoryInfoView, i: usize)
    requires
        r.accepted_licenses.no_duplicates(),
    ensures
        repo_from(repo_table(name, r), i) == Ok::<(Seq<char>, RepositoryInfoView), ErrKindView>(
            licenses_sorted((name, r)),
        ),
{
    reveal_strlit("name");
    reveal_strlit("url");
    reveal_strlit("path");
    reveal_strlit("accepted_licenses");
    let t = repo_table(name, r);
    let keys = seq!["name"@, "url"@, "path"@, "accepted_licenses"@];
    assert forall|a: int, b: int| 0 <= a < 4 && 0 <= b < 4 && a != b implies keys[a] != keys[b] by {
        assert(keys[a][0] != keys[b][0]);
    }
    assert forall|k: int| 0 <= k < 4 implies #[trigger] table_get(t, keys[k]) == Some(t.entries[k].1) by {
        assert forall|j: int| 0 <= j < k implies t.entries[j].0 != keys[k] by {
            assert(t.entries[j].0 == keys[j]);
        }
        lemma_get_first(t, keys[k], k);
    }
    assert(table_get(t, "name"@) == Some(t.entries[0].1));
    assert(table_get(t, "url"@) == Some(t.entries[1].1));
    assert(table_get(t, "path"@) == Some(t.entries[2].1));
    assert(table_get(t, "accepted_licenses"@) == Some(t.entries[3].1));
    lemma_sorted_distinct(r.accepted_licenses);
    lemma_licenses_round_trip(sort_texts(r.accepted_licenses));
}

proof fn lemma_repos_round_trip(rs: Seq<(Seq<char>, RepositoryInfoView)>)
    requires
        crate::assoc::keys_distinct(rs),
        forall|k: int| 0 <= k < rs.len() ==> (#[trigger] rs[k]).1.accepted_licenses.no_duplicates(),
    ensures
        repos_from(rs.map_values(|r: (Seq<char>, RepositoryInfoView)| repo_table(r.0, r.1))) == Ok::<
            Seq<(Seq<char>, RepositoryInfoView)>,
            ErrKindView,
        >(rs.map_values(|r: (Seq<char>, RepositoryInfoView)| licenses_sorted(r))),
    decreases rs.len(),
{
    let ts = rs.map_values(|r: (Seq<char>, RepositoryInfoView)| repo_table(r.0, r.1));
    let out = rs.map_values(|r: (Seq<char>, RepositoryInfoView)| licenses_sorted(r));
    if rs.len() > 0 {
        let init = rs.drop_last();
        let n = rs.len() - 1;
        assert(ts.drop_last() =~= init.map_values(|r: (Seq<char>, RepositoryInfoView)| repo_table(r.0, r.1)));
        assert forall|k: int| 0 <= k < init.len() implies (#[trigger] init[k]).1.accepted_licenses.no_duplicates() by {
            assert(init[k] == rs[k]);
        }
        assert(crate::assoc::keys_distinct(init)) by {
            assert forall|a: int, b: int| 0 <= a < b < init.len() implies init[a].0 != init[b].0 by {
                assert(init[a] == rs[a] && init[b] == rs[b]);
            }
        }
        lemma_repos_round_trip(init);
        let prev = init.map_values(|r: (Seq<char>, RepositoryInfoView)| licenses_sorted(r));
        assert(rs[n].1.accepted_licenses.no_duplicates());
        lemma_repo_round_trip(rs[n].0, rs[n].1, n as usize);
        assert forall|j: int| 0 <= j < prev.len() implies prev[j].0 != rs[n].0 by {
            assert(prev[j].0 == rs[j].0);
        }
        crate::assoc::lemma_key_index_none(prev, rs[n].0);
        assert(prev.push(licenses_sorted(rs[n])) =~= out);
    } else {
        assert(out =~= Seq::<(Seq<char>, RepositoryInfoView)>::empty());
    }
}

proof fn lemma_package_round_trip(p: InstalledPackageView)
    requires
        crate::repository_toml::channel_named(p.channel),
    ensures
        package_from(package_table(p)) == Ok::<InstalledPackageView, ListErrorView>(p),
{
    reveal_strlit("repository_name");
    reveal_strlit("path");
    reveal_strlit("version");
    reveal_strlit("channel");
    reveal_strlit("directory");
    reveal_strlit("url");
    let t = package_table(p);
    let e = t.entries;
    let keys = seq!["repository_name"@, "path"@, "version"@, "channel"@, "directory"@, "url"@];
    assert forall|a: int, b: int| 0 <= a < 6 && 0 <= b < 6 && a != b implies keys[a] != keys[b] by {
        assert(keys[a][0] != keys[b][0]);
    }
    assert forall|k: int| 0 <= k < 4 implies e[k].0 == keys[k] by {}
    assert forall|k: int| 0 <= k < 4 implies #[trigger] table_get(t, keys[k]) == Some(e[k].1) by {
        assert forall|j: int| 0 <= j < k implies e[j].0 != keys[k] by {
            assert(e[j].0 == keys[j]);
        }
        lemma_get_first(t, keys[k], k);
    }
    let n: int = if p.directory is Some { 5 } else { 4 };
    assert(e.len() == n + 1);
    assert(e[n].0 == keys[5]);
    assert forall|j: int| 0 <= j < n implies e[j].0 != keys[5] by {
        if j < 4 {
            assert(e[j].0 == keys[j]);
        } else {
            assert(e[j].0 == keys[4]);
        }
    }
    lemma_get_first(t, keys[5], n);
    if p.directory is Some {
        assert(e[4].0 == keys[4]);
        assert forall|j: int| 0 <= j < 4 implies e[j].0 != keys[4] by {
            assert(e[j].0 == keys[j]);
        }
        lemma_get_first(t, keys[4], 4);
    } else {
        assert forall|j: int| 0 <= j < e.len() implies e[j].0 != keys[4] by {
            if j < 4 {
                assert(e[j].0 == keys[j]);
            } else {
                assert(e[j].0 == keys[5]);
            }
        }
        crate::assoc::lemma_key_index_none(e, keys[4]);
    }
    assert(table_get(t, "repository_name"@) == Some(e[0].1));
    assert(table_get(t, "path"@) == Some(e[1].1));
    assert(table_get(t, "version"@) == Some(e[2].1));
    assert(table_get(t, "channel"@) == Some(e[3].1));
    crate::revision::lemma_revision_text_round_trip(p.version);
    crate::repository_toml::lemma_channel_round_trip(p.channel);
}

proof fn lemma_packages_round_trip(ps: Seq<InstalledPackageView>)
    requires
        forall|k: int| 0 <= k < ps.len() ==> crate::repository_toml::channel_named(#[trigger] ps[k].channel),
    ensures
        packages_from(ps.map_values(|p: InstalledPackageView| package_table(p))) == Ok::<
            Seq<InstalledPackageView>,
            ListErrorView,
        >(ps),
    decreases ps.len(),
{
    if ps.len() > 0 {
        let ts = ps.map_values(|p: InstalledPackageView| package_table(p));
        let init = ps.drop_last();
        assert(ts.drop_last() =~= init.map_values(|p: InstalledPackageView| package_table(p)));
        assert forall|k: int| 0 <= k < init.len() implies crate::repository_toml::channel_named(
            #[trigger] init[k].channel,
        ) by {
            assert(init[k] == ps[k]);
        }
        lemma_packages_round_trip(init);
        assert(crate::repository_toml::channel_named(ps[ps.len() - 1].channel));
        lemma_package_round_trip(ps.last());
        assert(init.push(ps.last()) =~= ps);
    } else {
        assert(ps =~= Seq::<InstalledPackageView>::empty());
    }
}

/// The document an installed list is written as reads back as that list,
/// with the licenses of each repository in the order they are written in.
pub proof fn lemma_list_doc_round_trip(l: InstalledListView)
    requires
        list_reads_back(l),
    ensures
        list_from_doc(list_doc(l)) == Ok::<InstalledListView, ListErrorView>(
            InstalledListView {
                repositories: l.repositories.map_values(
                    |r: (Seq<char>, RepositoryInfoView)| licenses_sorted(r),
                ),
                ..l
            },
        ),
{
    reveal_strlit("repository");
    reveal_strlit("package");
    let d = list_doc(l);
    assert("repository"@ != "package"@) by {
        assert("repository"@[0] != "package"@[0]);
    }
    lemma_get_first(d, "repository"@, 0);
    lemma_get_first(d, "package"@, 1);
    lemma_repos_round_trip(l.repositories);
    lemma_packages_round_trip(l.packages);
}

/// After `insert_installed_package(p)`, the first package of the id of `p`
/// is `p` itself.
pub proof fn lemma_insert_then_found(s: Seq<InstalledPackageView>, p: InstalledPackageView)
    ensures
        id_index(list_insert(s, p), package_id(p)) matches Some(i) && list_insert(s, p)[i] == p,
{
    let id = package_id(p);
    let t = list_insert(s, p);
    lemma_id_index(s, id);
    lemma_id_index(t, id);
    match id_index(s, id) {
        Some(i) => {
            assert(t[i] == p);
            assert forall|j: int| 0 <= j < i implies package_id(t[j]) != id by {
                assert(t[j] == s[j]);
            }
        },
        None => {
            assert(t[s.len() as int] == p);
            assert forall|j: int| 0 <= j < s.len() implies package_id(t[j]) != id by {
                assert(t[j] == s[j]);
            }
        },
    }
}

/// Removing a package that was just inserted, where no package of its id
/// was there before, gives the list back.
pub proof fn lemma_remove_undoes_insert(s: Seq<InstalledPackageView>, p: InstalledPackageView)
    requires
        id_index(s, package_id(p)) is None,
    ensures
        list_remove(list_insert(s, p), p) == s,
{
    lemma_insert_then_found(s, p);
    lemma_id_index(s, package_id(p));
    let t = s.push(p);
    lemma_id_index(t, package_id(p));
    assert forall|j: int| 0 <= j < s.len() implies package_id(t[j]) != package_id(p) by {
        assert(t[j] == s[j]);
    }
    assert(t.remove(s.len() as int) =~= s);
}

/// After `accept_license(name, license)` on a list that has a repository
/// `name`, that repository has accepted the license.
pub proof fn lemma_accept_then_accepted(
    rs: Seq<(Seq<char>, RepositoryInfoView)>,
    name: Seq<char>,
    license: Seq<char>,
)
    requires
        assoc_get(rs, name) is Some,
    ensures
        assoc_get(repos_accept(rs, name, license), name) matches Some(info)
            && info.accepted_licenses.contains(license),
{
    lemma_key_index(rs, name);
    let i = key_index(rs, name)->Some_0;
    let t = repos_accept(rs, name, license);
    assert forall|j: int| 0 <= j < i implies t[j].0 != name by {
        assert(t[j] == rs[j]);
    }
    crate::assoc::lemma_key_index_at(t, name, i);
    let ls = rs[i].1.accepted_licenses;
    if !ls.contains(license) {
        assert(ls.push(license)[ls.len() as int] == license);
    }
}

} // verus!
