//! `maven-metadata.xml`: the versions a repository holds of an artifact,
//! the choice of one of them for a version requirement, and the
//! event-driven parser of the document.
use vstd::prelude::*;
use crate::constraint::{empty_constraint, range_op, range_op_exec, spec_within, within_defined, Constraint, ConstraintView};
use crate::containment::{all_comparable, comparable, spec_contain, strings_view, versions_of};
use crate::verorder::{
    compare_versions, compare_versions_to, spec_version_compare, spec_version_compare_to,
    VersionRel,
};
use crate::version::{ranges_view, RangeKind, RequirementView, VersionRange, VersionRequirement};
use crate::strs::str_eq;
use crate::xml::{
    ends, events_view, is_end_of, lemma_event_view, some_events, start_name, starts, xml_events, xml_events_of,
    XmlEvent, XmlEventView, XmlReadError, XmlTag,
};

verus! {

/// The maven metadata xml object
#[derive(Debug, PartialEq, Eq)]
pub struct MavenMetadata {
    /// `<groupId></groupId>`
    pub group_id: String,
    /// `<artifactId></artifactId>`
    pub artifact_id: String,
    /// The `<version>` entries under `<versions>`, in document order.
    pub versions: Vec<String>,
    /// `<version></version>` under `<metadata>`
    pub version: Option<String>,
    /// `<latest></latest>`
    pub latest: Option<String>,
    /// `<release></release>`
    pub release: Option<String>,
}

/// The model of a metadata document.
pub struct MavenMetadataView {
    pub group_id: Seq<char>,
    pub artifact_id: Seq<char>,
    pub versions: Seq<Seq<char>>,
    pub version: Option<Seq<char>>,
    pub latest: Option<Seq<char>>,
    pub release: Option<Seq<char>>,
}

pub open spec fn opt_view(o: Option<String>) -> Option<Seq<char>> {
    match o {
        Some(s) => Some(s@),
        None => None,
    }
}

impl View for MavenMetadata {
    type V = MavenMetadataView;

    open spec fn view(&self) -> MavenMetadataView {
        MavenMetadataView {
            group_id: self.group_id@,
            artifact_id: self.artifact_id@,
            versions: strings_view(self.versions@),
            version: opt_view(self.version),
            latest: opt_view(self.latest),
            release: opt_view(self.release),
        }
    }
}

/// The metadata of an artifact of which nothing is known but its name.
pub open spec fn empty_metadata(group_id: Seq<char>, artifact_id: Seq<char>) -> MavenMetadataView {
    MavenMetadataView {
        group_id,
        artifact_id,
        versions: Seq::empty(),
        version: None,
        latest: None,
        release: None,
    }
}

impl Default for MavenMetadata {
    fn default() -> (r: Self)
        ensures
            r@ == empty_metadata(Seq::empty(), Seq::empty()),
    {
        MavenMetadata::new(String::new(), String::new())
    }
}

/// Why no version could be chosen, or a document could not be read.
#[derive(Clone, Copy, Debug, PartialEq, Eq)]
pub enum MetadataError {
    /// No version of the metadata meets the requirement.
    NoSelectableVersion,
    /// A text of the document has an entity that could not be resolved.
    Text,
}

/// Whether version `vs[i]` is older than none of `vs`.
pub open spec fn is_newest(vs: Seq<Seq<char>>, i: int) -> bool {
    forall|j: int| 0 <= j < vs.len() ==> spec_version_compare(vs[i], vs[j]) != Some(VersionRel::Lt)
}

/// The first position from `k` on whose version is older than none of `vs`,
/// or 0 where there is none (which an order of versions never leaves).
pub open spec fn newest_from(vs: Seq<Seq<char>>, k: int) -> int
    decreases vs.len() - k,
{
    if k < 0 || k >= vs.len() {
        0
    } else if is_newest(vs, k) {
        k
    } else {
        newest_from(vs, k + 1)
    }
}

/// The newest of the versions `vs`.
pub open spec fn newest(vs: Seq<Seq<char>>) -> Seq<char> {
    vs[newest_from(vs, 0)]
}

/// Whether version `v` meets every range of `rs`; a comparison that cannot
/// be made counts as not met.
pub open spec fn meets_all(v: Seq<char>, rs: Seq<(RangeKind, Seq<char>)>) -> bool {
    forall|k: int|
        0 <= k < rs.len() ==> #[trigger] spec_version_compare_to(v, rs[k].1, range_op(rs[k].0))
            == Some(true)
}

/// The versions of `vs` that meet every range of `rs`, in their order.
pub open spec fn matching(vs: Seq<Seq<char>>, rs: Seq<(RangeKind, Seq<char>)>) -> Seq<Seq<char>>
    decreases vs.len(),
{
    if vs.len() == 0 {
        Seq::empty()
    } else {
        let rest = matching(vs.drop_last(), rs);
        if meets_all(vs.last(), rs) {
            rest.push(vs.last())
        } else {
            rest
        }
    }
}

/// The version chosen from metadata `m` for requirement `req`: a soft
/// version as it is; with no requirement the release, else the latest, else
/// the newest listed version; with hard ranges the newest listed version
/// that meets them all.
pub open spec fn spec_select(m: MavenMetadataView, req: RequirementView) -> Result<Seq<char>, MetadataError> {
    match req {
        RequirementView::Soft(v) => if v == "RELEASE"@ && m.release is Some {
            Ok(m.release->0)
        } else if v == "LATEST"@ && m.latest is Some {
            Ok(m.latest->0)
        } else {
            Ok(v)
        },
        RequirementView::Unset => match m.release {
            Some(r) => Ok(r),
            None => match m.latest {
                Some(l) => Ok(l),
                None => if m.versions.len() == 0 {
                    Err(MetadataError::NoSelectableVersion)
                } else {
                    Ok(newest(m.versions))
                },
            },
        },
        RequirementView::Hard(rs) => {
            let cands = matching(m.versions, rs);
            if cands.len() == 0 {
                Err(MetadataError::NoSelectableVersion)
            } else {
                Ok(newest(cands))
            }
        },
    }
}

/// Whether choosing a version for `req` orders the listed versions among
/// themselves, which takes every two of them to be comparable.
pub open spec fn select_sorts_all(m: MavenMetadataView, req: RequirementView) -> bool {
    &&& req is Unset
    &&& m.release is None
    &&& m.latest is None
    &&& m.versions.len() >= 2
}

proof fn lemma_matching_len(vs: Seq<Seq<char>>, rs: Seq<(RangeKind, Seq<char>)>)
    ensures
        matching(vs, rs).len() <= vs.len(),
        forall|i: int|
            0 <= i < matching(vs, rs).len() ==> vs.contains(#[trigger] matching(vs, rs)[i])
                && meets_all(matching(vs, rs)[i], rs),
    decreases vs.len(),
{
    if vs.len() > 0 {
        lemma_matching_len(vs.drop_last(), rs);
        let rest = matching(vs.drop_last(), rs);
        assert forall|i: int| 0 <= i < matching(vs, rs).len() implies vs.contains(
            #[trigger] matching(vs, rs)[i],
        ) && meets_all(matching(vs, rs)[i], rs) by {
            if i < rest.len() {
                let x = rest[i];
                assert(vs.drop_last().contains(x));
                let k = choose|k: int| 0 <= k < vs.drop_last().len() && vs.drop_last()[k] == x;
                assert(vs[k] == x);
            } else {
                assert(vs[vs.len() - 1] == vs.last());
            }
        }
    }
}

proof fn lemma_newest_from_bounds(vs: Seq<Seq<char>>, k: int)
    requires
        vs.len() > 0,
    ensures
        0 <= newest_from(vs, k) < vs.len(),
        0 <= k && (exists|i: int| k <= i < vs.len() && is_newest(vs, i)) ==> is_newest(
            vs,
            newest_from(vs, k),
        ),
    decreases vs.len() - k,
{
    if 0 <= k < vs.len() && !is_newest(vs, k) {
        lemma_newest_from_bounds(vs, k + 1);
        if exists|i: int| k <= i < vs.len() && is_newest(vs, i) {
            let i = choose|i: int| k <= i < vs.len() && is_newest(vs, i);
            assert(k + 1 <= i);
        }
    }
}

/// The version chosen for hard ranges is one of the listed versions, and it
/// meets every range.
pub proof fn lemma_selected_meets_ranges(m: MavenMetadataView, rs: Seq<(RangeKind, Seq<char>)>)
    requires
        spec_select(m, RequirementView::Hard(rs)) is Ok,
    ensures
        m.versions.contains(spec_select(m, RequirementView::Hard(rs))->Ok_0),
        meets_all(spec_select(m, RequirementView::Hard(rs))->Ok_0, rs),
{
    let cands = matching(m.versions, rs);
    lemma_matching_len(m.versions, rs);
    lemma_newest_from_bounds(cands, 0);
    assert(cands[newest_from(cands, 0)] == newest(cands));
}

/// Where some version of `vs` is older than none of them, the newest chosen
/// is such a version.
pub proof fn lemma_newest_is_newest(vs: Seq<Seq<char>>)
    requires
        exists|i: int| 0 <= i < vs.len() && is_newest(vs, i),
    ensures
        exists|i: int| 0 <= i < vs.len() && i == newest_from(vs, 0) && is_newest(vs, i),
        forall|j: int| 0 <= j < vs.len() ==> spec_version_compare(newest(vs), vs[j]) != Some(VersionRel::Lt),
{
    lemma_newest_from_bounds(vs, 0);
}

impl MavenMetadata {
    pub fn new(group_id: String, artifact_id: String) -> (r: Self)
        ensures
            r@ == empty_metadata(group_id@, artifact_id@),
    {
        let r = MavenMetadata {
            group_id,
            artifact_id,
            versions: Vec::new(),
            version: None,
            latest: None,
            release: None,
        };
        proof {
            assert(r@.versions =~= Seq::<Seq<char>>::empty());
        }
        r
    }
}


/// Whether no version of `vs` is newer than `vs[k]`.
fn newest_at(vs: &Vec<String>, k: usize) -> (r: bool)
    requires
        k < vs.len(),
    ensures
        r == is_newest(strings_view(vs@), k as int),
{
    let ghost sv = strings_view(vs@);
    let mut j: usize = 0;
    while j < vs.len()
        invariant
            k < vs.len(),
            j <= vs.len(),
            sv == strings_view(vs@),
            forall|jj: int| 0 <= jj < j ==> spec_version_compare(sv[k as int], sv[jj]) != Some(VersionRel::Lt),
        decreases vs.len() - j,
    {
        proof {
            assert(sv[k as int] == vs@[k as int]@);
            assert(sv[j as int] == vs@[j as int]@);
        }
        match compare_versions(vs[k].as_str(), vs[j].as_str()) {
            Some(VersionRel::Lt) => {
                return false;
            },
            _ => {},
        }
        j += 1;
    }
    true
}

/// The position of the newest version of `vs`, as `newest_from` finds it.
fn newest_index(vs: &Vec<String>) -> (r: usize)
    requires
        vs.len() > 0,
    ensures
        r as int == newest_from(strings_view(vs@), 0),
        r < vs.len(),
{
    let ghost sv = strings_view(vs@);
    let mut k: usize = 0;
    while k < vs.len()
        invariant
            k <= vs.len(),
            vs.len() > 0,
            sv == strings_view(vs@),
            newest_from(sv, 0) == newest_from(sv, k as int),
        decreases vs.len() - k,
    {
        if newest_at(vs, k) {
            return k;
        }
        k += 1;
    }
    0
}

/// Whether version `v` meets every range of `rs`.
fn meets_ranges(v: &String, rs: &Vec<VersionRange>) -> (r: bool)
    ensures
        r == meets_all(v@, ranges_view(rs@)),
{
    let ghost rv = ranges_view(rs@);
    let mut k: usize = 0;
    while k < rs.len()
        invariant
            k <= rs.len(),
            rv == ranges_view(rs@),
            forall|kk: int|
                0 <= kk < k ==> #[trigger] spec_version_compare_to(v@, rv[kk].1, range_op(rv[kk].0))
                    == Some(true),
        decreases rs.len() - k,
    {
        proof {
            assert(rv[k as int] == rs@[k as int]@);
        }
        let met = compare_versions_to(
            v.as_str(),
            rs[k].version().as_str(),
            range_op_exec(rs[k].kind()),
        );
        match met {
            Some(true) => {},
            _ => {
                return false;
            },
        }
        k += 1;
    }
    true
}

/// The versions of `vs` that meet every range of `rs`, in their order.
fn matching_versions(vs: &Vec<String>, rs: &Vec<VersionRange>) -> (r: Vec<String>)
    ensures
        strings_view(r@) == matching(strings_view(vs@), ranges_view(rs@)),
{
    let ghost sv = strings_view(vs@);
    let ghost rv = ranges_view(rs@);
    let mut out: Vec<String> = Vec::new();
    let mut i: usize = 0;
    while i < vs.len()
        invariant
            i <= vs.len(),
            sv == strings_view(vs@),
            rv == ranges_view(rs@),
            strings_view(out@) == matching(sv.take(i as int), rv),
        decreases vs.len() - i,
    {
        proof {
            assert(sv.take(i + 1).drop_last() == sv.take(i as int));
            assert(sv.take(i + 1).last() == vs@[i as int]@);
        }
        if meets_ranges(&vs[i], rs) {
            out.push(vs[i].clone());
            proof {
                assert(strings_view(out@) == strings_view(out@.drop_last()).push(vs@[i as int]@));
            }
        }
        i += 1;
    }
    proof {
        assert(sv.take(vs.len() as int) == sv);
    }
    out
}

impl MavenMetadata {
    /// Chooses a version for `constraints`: a soft version as it is, but for
    /// `RELEASE` and `LATEST`, which stand for the release and the latest
    /// version where the metadata names them; with no
    /// requirement the release version, else the latest one, else the newest
    /// listed; with hard ranges the newest listed version that meets them
    /// all. Fails when there is nothing to choose from.
    pub fn select_version(&self, constraints: &VersionRequirement) -> (r: Result<String, MetadataError>)
        requires
            select_sorts_all(self@, constraints@) ==> comparable(self@.versions),
        ensures
            match spec_select(self@, constraints@) {
                Ok(v) => r matches Ok(s) && s@ == v,
                Err(e) => r == Err::<String, MetadataError>(e),
            },
    {
        match constraints {
            VersionRequirement::Soft(version) => {
                if crate::strs::str_eq(version.as_str(), "RELEASE") && self.release.is_some() {
                    match &self.release {
                        Some(r) => Ok(r.clone()),
                        None => Ok(version.clone()),
                    }
                } else if crate::strs::str_eq(version.as_str(), "LATEST") && self.latest.is_some() {
                    match &self.latest {
                        Some(l) => Ok(l.clone()),
                        None => Ok(version.clone()),
                    }
                } else {
                    Ok(version.clone())
                }
            },
            VersionRequirement::Unset => {
                if let Some(release) = &self.release {
                    Ok(release.clone())
                } else if let Some(latest) = &self.latest {
                    Ok(latest.clone())
                } else if self.versions.len() == 0 {
                    Err(MetadataError::NoSelectableVersion)
                } else {
                    let k = newest_index(&self.versions);
                    proof {
                        assert(strings_view(self.versions@)[k as int] == self.versions@[k as int]@);
                    }
                    Ok(self.versions[k].clone())
                }
            },
            VersionRequirement::Hard(ranges) => {
                let candidates = matching_versions(&self.versions, ranges);
                if candidates.len() == 0 {
                    Err(MetadataError::NoSelectableVersion)
                } else {
                    let k = newest_index(&candidates);
                    proof {
                        assert(strings_view(candidates@)[k as int] == candidates@[k as int]@);
                    }
                    Ok(candidates[k].clone())
                }
            },
        }
    }

    /// `select_version`, or `None` where the choice would have to order
    /// listed versions of which two cannot be compared.
    pub fn try_select_version(&self, constraints: &VersionRequirement) -> (r: Option<Result<String, MetadataError>>)
        ensures
            r is None <==> (select_sorts_all(self@, constraints@) && !comparable(self@.versions)),
            r matches Some(x) ==> match spec_select(self@, constraints@) {
                Ok(v) => x matches Ok(s) && s@ == v,
                Err(e) => x == Err::<String, MetadataError>(e),
            },
    {
        let sorts_all = constraints.is_unset() && self.release.is_none() && self.latest.is_none()
            && self.versions.len() >= 2;
        if sorts_all && !all_comparable(&self.versions) {
            None
        } else {
            Some(self.select_version(constraints))
        }
    }
}


/// Where the parser is inside `<versions>`.
#[derive(Clone, Copy, Debug, PartialEq, Eq, Structural)]
pub enum VersionsState {
    /// `<versions></versions>`
    Versions,
    /// `<version></version>` under `<versions>`
    ReadVersion,
}

/// Where the parser is inside `<versioning>`.
#[derive(Clone, Copy, Debug, PartialEq, Eq, Structural)]
pub enum VersioningState {
    /// `<versioning></versioning>`
    Versioning,
    /// `<latest></latest>`
    ReadLatest,
    /// `<release></release>`
    ReadRelease,
    /// Inside `<versions>`
    Versions(VersionsState),
}

/// Where the parser is in the document.
#[derive(Clone, Copy, Debug, PartialEq, Eq, Structural)]
pub enum ParserState {
    /// `<metadata></metadata>`, the top level
    Metadata,
    /// `<groupId></groupId>`
    ReadGroupId,
    /// `<artifactId></artifactId>`
    ReadArtifactId,
    /// `<version></version>` under `<metadata>`
    ReadVersion,
    /// Inside `<versioning>`
    Versioning(VersioningState),
}

/// The event-driven parser of `maven-metadata.xml`.
pub struct Parser {
    metadata: MavenMetadata,
    /// Tracks the parsing state of the metadata
    state: ParserState,
    /// Tracks the current version read under versioning
    current_version: String,
}

/// The model of the parser.
pub struct MetadataParserView {
    pub metadata: MavenMetadataView,
    pub state: ParserState,
    pub current_version: Seq<char>,
}

impl View for Parser {
    type V = MetadataParserView;

    closed spec fn view(&self) -> MetadataParserView {
        MetadataParserView {
            metadata: self.metadata@,
            state: self.state,
            current_version: self.current_version@,
        }
    }
}

/// The text an event carries: `None` for an event that is not text, an
/// error for a text whose entities could not be resolved.
pub open spec fn text_of(ev: XmlEvent) -> Option<Result<Seq<char>, MetadataError>> {
    match ev {
        XmlEvent::Text(Some(t)) => Some(Ok(t@)),
        XmlEvent::Text(None) => Some(Err(MetadataError::Text)),
        _ => None,
    }
}

/// One event inside `<versions>`.
pub open spec fn versions_step(p: MetadataParserView, ev: XmlEvent, st: VersionsState) -> Result<
    (MetadataParserView, VersionsState),
    MetadataError,
> {
    match st {
        VersionsState::Versions => if start_name(ev) == Some("version"@) {
            Ok((p, VersionsState::ReadVersion))
        } else {
            Ok((p, VersionsState::Versions))
        },
        VersionsState::ReadVersion => if is_end_of(ev, "version"@) {
            Ok(
                (
                    MetadataParserView {
                        metadata: MavenMetadataView {
                            versions: p.metadata.versions.push(p.current_version),
                            ..p.metadata
                        },
                        ..p
                    },
                    VersionsState::Versions,
                ),
            )
        } else {
            match text_of(ev) {
                Some(Ok(t)) => Ok((MetadataParserView { current_version: t, ..p }, VersionsState::ReadVersion)),
                Some(Err(e)) => Err(e),
                None => Ok((p, VersionsState::ReadVersion)),
            }
        },
    }
}

/// One event inside `<versioning>`.
pub open spec fn versioning_step(p: MetadataParserView, ev: XmlEvent, st: VersioningState) -> Result<
    (MetadataParserView, VersioningState),
    MetadataError,
> {
    match st {
        VersioningState::Versioning => if start_name(ev) == Some("latest"@) {
            Ok((p, VersioningState::ReadLatest))
        } else if start_name(ev) == Some("release"@) {
            Ok((p, VersioningState::ReadRelease))
        } else if start_name(ev) == Some("versions"@) {
            Ok((p, VersioningState::Versions(VersionsState::Versions)))
        } else {
            Ok((p, VersioningState::Versioning))
        },
        VersioningState::ReadLatest => if is_end_of(ev, "latest"@) {
            Ok((p, VersioningState::Versioning))
        } else {
            match text_of(ev) {
                Some(Ok(t)) => Ok(
                    (
                        MetadataParserView {
                            metadata: MavenMetadataView { latest: Some(t), ..p.metadata },
                            ..p
                        },
                        VersioningState::ReadLatest,
                    ),
                ),
                Some(Err(e)) => Err(e),
                None => Ok((p, VersioningState::ReadLatest)),
            }
        },
        VersioningState::ReadRelease => if is_end_of(ev, "release"@) {
            Ok((p, VersioningState::Versioning))
        } else {
            match text_of(ev) {
                Some(Ok(t)) => Ok(
                    (
                        MetadataParserView {
                            metadata: MavenMetadataView { release: Some(t), ..p.metadata },
                            ..p
                        },
                        VersioningState::ReadRelease,
                    ),
                ),
                Some(Err(e)) => Err(e),
                None => Ok((p, VersioningState::ReadRelease)),
            }
        },
        VersioningState::Versions(s) => if is_end_of(ev, "versions"@) {
            Ok((p, VersioningState::Versioning))
        } else {
            match versions_step(p, ev, s) {
                Ok((np, ns)) => Ok((np, VersioningState::Versions(ns))),
                Err(e) => Err(e),
            }
        },
    }
}

/// One event of the document: the parser after it, or why it could not be
/// processed (the parser is then left as it was).
pub open spec fn metadata_step(p: MetadataParserView, ev: XmlEvent) -> Result<MetadataParserView, MetadataError> {
    match p.state {
        ParserState::Metadata => {
            let next = if start_name(ev) == Some("groupId"@) {
                ParserState::ReadGroupId
            } else if start_name(ev) == Some("artifactId"@) {
                ParserState::ReadArtifactId
            } else if start_name(ev) == Some("version"@) {
                ParserState::ReadVersion
            } else if start_name(ev) == Some("versioning"@) {
                ParserState::Versioning(VersioningState::Versioning)
            } else {
                ParserState::Metadata
            };
            Ok(MetadataParserView { state: next, ..p })
        },
        ParserState::ReadGroupId => if is_end_of(ev, "groupId"@) {
            Ok(MetadataParserView { state: ParserState::Metadata, ..p })
        } else {
            match text_of(ev) {
                Some(Ok(t)) => Ok(
                    MetadataParserView { metadata: MavenMetadataView { group_id: t, ..p.metadata }, ..p },
                ),
                Some(Err(e)) => Err(e),
                None => Ok(p),
            }
        },
        ParserState::ReadArtifactId => if is_end_of(ev, "artifactId"@) {
            Ok(MetadataParserView { state: ParserState::Metadata, ..p })
        } else {
            match text_of(ev) {
                Some(Ok(t)) => Ok(
                    MetadataParserView {
                        metadata: MavenMetadataView { artifact_id: t, ..p.metadata },
                        ..p
                    },
                ),
                Some(Err(e)) => Err(e),
                None => Ok(p),
            }
        },
        ParserState::ReadVersion => if is_end_of(ev, "version"@) {
            Ok(MetadataParserView { state: ParserState::Metadata, ..p })
        } else {
            match text_of(ev) {
                Some(Ok(t)) => Ok(
                    MetadataParserView {
                        metadata: MavenMetadataView { version: Some(t), ..p.metadata },
                        ..p
                    },
                ),
                Some(Err(e)) => Err(e),
                None => Ok(p),
            }
        },
        ParserState::Versioning(s) => if is_end_of(ev, "versioning"@) {
            Ok(MetadataParserView { state: ParserState::Metadata, ..p })
        } else {
            match versioning_step(p, ev, s) {
                Ok((np, ns)) => Ok(MetadataParserView { state: ParserState::Versioning(ns), ..np }),
                Err(e) => Err(e),
            }
        },
    }
}

/// The parser after the events `evs`, one after the other, or the first
/// error.
pub open spec fn metadata_run(p: MetadataParserView, evs: Seq<XmlEvent>) -> Result<MetadataParserView, MetadataError>
    decreases evs.len(),
{
    if evs.len() == 0 {
        Ok(p)
    } else {
        match metadata_step(p, evs[0]) {
            Ok(np) => metadata_run(np, evs.drop_first()),
            Err(e) => Err(e),
        }
    }
}

proof fn lemma_metadata_step_view(p: MetadataParserView, a: XmlEvent, b: XmlEvent)
    requires
        a@ == b@,
    ensures
        metadata_step(p, a) == metadata_step(p, b),
{
    lemma_event_view(a, b);
    assert(text_of(a) == text_of(b));
    match p.state {
        ParserState::Versioning(s) => {
            match s {
                VersioningState::Versions(vs) => {
                    assert(versions_step(p, a, vs) == versions_step(p, b, vs));
                },
                _ => {},
            }
            assert(versioning_step(p, a, s) == versioning_step(p, b, s));
        },
        _ => {},
    }
}

/// Two runs over events with the same models end alike.
pub proof fn lemma_metadata_run_view(p: MetadataParserView, a: Seq<XmlEvent>, b: Seq<XmlEvent>)
    requires
        events_view(a) == events_view(b),
    ensures
        metadata_run(p, a) == metadata_run(p, b),
    decreases a.len(),
{
    assert(a.len() == events_view(a).len());
    assert(b.len() == events_view(b).len());
    if a.len() > 0 {
        assert(events_view(a)[0] == a[0]@);
        assert(events_view(b)[0] == b[0]@);
        lemma_metadata_step_view(p, a[0], b[0]);
        assert(events_view(a.drop_first()) =~= events_view(a).drop_first());
        assert(events_view(b.drop_first()) =~= events_view(b).drop_first());
        match metadata_step(p, a[0]) {
            Ok(np) => lemma_metadata_run_view(np, a.drop_first(), b.drop_first()),
            Err(_) => {},
        }
    }
}

/// The parser before any event, around the metadata `m`.
pub open spec fn parser_start(m: MavenMetadataView) -> MetadataParserView {
    MetadataParserView { metadata: m, state: ParserState::Metadata, current_version: Seq::empty() }
}

/// The text of `ev`, if it is a text event.
fn event_text(ev: &XmlEvent) -> (r: Option<Result<String, MetadataError>>)
    ensures
        match text_of(*ev) {
            Some(Ok(t)) => r matches Some(Ok(s)) && s@ == t,
            Some(Err(e)) => r == Some(Err::<String, MetadataError>(e)),
            None => r is None,
        },
{
    match ev {
        XmlEvent::Text(Some(t)) => Some(Ok(t.clone())),
        XmlEvent::Text(None) => Some(Err(MetadataError::Text)),
        _ => None,
    }
}


impl Parser {
    pub fn new(metadata: MavenMetadata) -> (r: Self)
        ensures
            r@ == parser_start(metadata@),
    {
        Parser { metadata, state: ParserState::Metadata, current_version: String::new() }
    }

    /// The metadata read so far.
    pub fn metadata(&self) -> (r: &MavenMetadata)
        ensures
            r@ == self@.metadata,
    {
        &self.metadata
    }

    /// The metadata read, giving the parser up.
    pub fn into_metadata(self) -> (r: MavenMetadata)
        ensures
            r@ == self@.metadata,
    {
        self.metadata
    }

    fn parse_versions(&mut self, event: &XmlEvent, state: VersionsState) -> (r: Result<VersionsState, MetadataError>)
        ensures
            match versions_step(old(self)@, *event, state) {
                Ok((np, ns)) => r == Ok::<VersionsState, MetadataError>(ns) && final(self)@ == np,
                Err(e) => r == Err::<VersionsState, MetadataError>(e) && final(self)@ == old(self)@,
            },
    {
        match state {
            VersionsState::Versions => if starts(event, "version") {
                Ok(VersionsState::ReadVersion)
            } else {
                Ok(VersionsState::Versions)
            },
            VersionsState::ReadVersion => if ends(event, "version") {
                let v = self.current_version.clone();
                let ghost before = self.metadata.versions@;
                self.metadata.versions.push(v);
                proof {
                    assert(strings_view(self.metadata.versions@) == strings_view(before).push(
                        self.current_version@,
                    ));
                }
                Ok(VersionsState::Versions)
            } else {
                match event_text(event) {
                    Some(Ok(t)) => {
                        self.current_version = t;
                        Ok(VersionsState::ReadVersion)
                    },
                    Some(Err(e)) => Err(e),
                    None => Ok(VersionsState::ReadVersion),
                }
            },
        }
    }

    fn parse_versioning(&mut self, event: &XmlEvent, state: VersioningState) -> (r: Result<VersioningState, MetadataError>)
        ensures
            match versioning_step(old(self)@, *event, state) {
                Ok((np, ns)) => r == Ok::<VersioningState, MetadataError>(ns) && final(self)@ == np,
                Err(e) => r == Err::<VersioningState, MetadataError>(e) && final(self)@ == old(self)@,
            },
    {
        match state {
            VersioningState::Versioning => if starts(event, "latest") {
                Ok(VersioningState::ReadLatest)
            } else if starts(event, "release") {
                Ok(VersioningState::ReadRelease)
            } else if starts(event, "versions") {
                Ok(VersioningState::Versions(VersionsState::Versions))
            } else {
                Ok(VersioningState::Versioning)
            },
            VersioningState::ReadLatest => if ends(event, "latest") {
                Ok(VersioningState::Versioning)
            } else {
                match event_text(event) {
                    Some(Ok(t)) => {
                        self.metadata.latest = Some(t);
                        Ok(VersioningState::ReadLatest)
                    },
                    Some(Err(e)) => Err(e),
                    None => Ok(VersioningState::ReadLatest),
                }
            },
            VersioningState::ReadRelease => if ends(event, "release") {
                Ok(VersioningState::Versioning)
            } else {
                match event_text(event) {
                    Some(Ok(t)) => {
                        self.metadata.release = Some(t);
                        Ok(VersioningState::ReadRelease)
                    },
                    Some(Err(e)) => Err(e),
                    None => Ok(VersioningState::ReadRelease),
                }
            },
            VersioningState::Versions(s) => if ends(event, "versions") {
                Ok(VersioningState::Versioning)
            } else {
                match self.parse_versions(event, s) {
                    Ok(ns) => Ok(VersioningState::Versions(ns)),
                    Err(e) => Err(e),
                }
            },
        }
    }

    /// Processes one event of the document; on an error the parser is left
    /// as it was.
    pub fn process(&mut self, event: &XmlEvent) -> (r: Result<(), MetadataError>)
        ensures
            match metadata_step(old(self)@, *event) {
                Ok(np) => r is Ok && final(self)@ == np,
                Err(e) => r == Err::<(), MetadataError>(e) && final(self)@ == old(self)@,
            },
    {
        match self.state {
            ParserState::Metadata => {
                if starts(event, "groupId") {
                    self.state = ParserState::ReadGroupId;
                } else if starts(event, "artifactId") {
                    self.state = ParserState::ReadArtifactId;
                } else if starts(event, "version") {
                    self.state = ParserState::ReadVersion;
                } else if starts(event, "versioning") {
                    self.state = ParserState::Versioning(VersioningState::Versioning);
                }
                Ok(())
            },
            ParserState::ReadGroupId => if ends(event, "groupId") {
                self.state = ParserState::Metadata;
                Ok(())
            } else {
                match event_text(event) {
                    Some(Ok(t)) => {
                        self.metadata.group_id = t;
                        Ok(())
                    },
                    Some(Err(e)) => Err(e),
                    None => Ok(()),
                }
            },
            ParserState::ReadArtifactId => if ends(event, "artifactId") {
                self.state = ParserState::Metadata;
                Ok(())
            } else {
                match event_text(event) {
                    Some(Ok(t)) => {
                        self.metadata.artifact_id = t;
                        Ok(())
                    },
                    Some(Err(e)) => Err(e),
                    None => Ok(()),
                }
            },
            ParserState::ReadVersion => if ends(event, "version") {
                self.state = ParserState::Metadata;
                Ok(())
            } else {
                match event_text(event) {
                    Some(Ok(t)) => {
                        self.metadata.version = Some(t);
                        Ok(())
                    },
                    Some(Err(e)) => Err(e),
                    None => Ok(()),
                }
            },
            ParserState::Versioning(s) => if ends(event, "versioning") {
                self.state = ParserState::Metadata;
                Ok(())
            } else {
                match self.parse_versioning(event, s) {
                    Ok(ns) => {
                        self.state = ParserState::Versioning(ns);
                        Ok(())
                    },
                    Err(e) => Err(e),
                }
            },
        }
    }
}

/// Reads the metadata out of the events of a `maven-metadata.xml` document,
/// in document order and up to its end: the first event that cannot be
/// processed is the error.
pub fn parse_maven_metadata(events: &Vec<XmlEvent>) -> (r: Result<MavenMetadata, MetadataError>)
    ensures
        match metadata_run(parser_start(empty_metadata(Seq::empty(), Seq::empty())), events@) {
            Ok(p) => r matches Ok(m) && m@ == p.metadata,
            Err(e) => r == Err::<MavenMetadata, MetadataError>(e),
        },
{
    let mut parser = Parser::new(MavenMetadata::default());
    let ghost start = parser@;
    let mut i: usize = 0;
    assert(events@.skip(0) == events@);
    while i < events.len()
        invariant
            i <= events.len(),
            start == parser_start(empty_metadata(Seq::empty(), Seq::empty())),
            metadata_run(start, events@) == metadata_run(parser@, events@.skip(i as int)),
        decreases events.len() - i,
    {
        proof {
            assert(events@.skip(i as int)[0] == events@[i as int]);
            assert(events@.skip(i as int).drop_first() == events@.skip(i + 1));
        }
        let ghost before = parser@;
        match parser.process(&events[i]) {
            Ok(()) => {},
            Err(e) => {
                assert(metadata_run(before, events@.skip(i as int)) == Err::<
                    MetadataParserView,
                    MetadataError,
                >(e));
                return Err(e);
            },
        }
        i += 1;
    }
    proof {
        assert(events@.skip(events.len() as int).len() == 0);
    }
    Ok(parser.into_metadata())
}

/// Why a `maven-metadata.xml` document could not be read.
#[derive(Clone, Debug, PartialEq, Eq)]
pub enum MetadataReadError {
    /// The document is not well-formed XML.
    Xml(XmlReadError),
    /// An event of the document could not be processed.
    Metadata(MetadataError),
}

/// What reading a `maven-metadata.xml` document whose events are `evs`
/// gives; an XML error where the document could not be read as XML.
pub open spec fn spec_metadata_text(evs: Result<Seq<XmlEventView>, ()>) -> Result<MavenMetadataView, Option<MetadataError>> {
    match evs {
        Err(()) => Err(None),
        Ok(e) => match metadata_run(parser_start(empty_metadata(Seq::empty(), Seq::empty())), some_events(e)) {
            Ok(p) => Ok(p.metadata),
            Err(x) => Err(Some(x)),
        },
    }
}

/// Reads the text of a `maven-metadata.xml` document: its events, read by
/// `quick_xml`, processed in document order.
pub fn parse_maven_metadata_text(text: &str) -> (r: Result<MavenMetadata, MetadataReadError>)
    ensures
        match spec_metadata_text(xml_events_of(text@)) {
            Ok(m) => r matches Ok(x) && x@ == m,
            Err(None) => r matches Err(MetadataReadError::Xml(_)),
            Err(Some(e)) => r == Err::<MavenMetadata, MetadataReadError>(MetadataReadError::Metadata(e)),
        },
{
    match xml_events(text) {
        Err(e) => Err(MetadataReadError::Xml(e)),
        Ok(events) => {
            proof {
                let evs = events_view(events@);
                let es = some_events(evs);
                assert(events_view(es) == evs);
                lemma_metadata_run_view(parser_start(empty_metadata(Seq::empty(), Seq::empty())), es, events@);
            }
            match parse_maven_metadata(&events) {
                Ok(m) => Ok(m),
                Err(e) => Err(MetadataReadError::Metadata(e)),
            }
        },
    }
}

/// Whether the constraint `c` admits the version `v`.
pub open spec fn admits(c: ConstraintView, v: Seq<char>) -> bool {
    within_defined(c, RequirementView::Soft(v)) && spec_within(c, RequirementView::Soft(v)) == Some(true)
}

/// The versions of `vs` that the constraint `c` admits, in their order.
pub open spec fn admitted(vs: Seq<Seq<char>>, c: ConstraintView) -> Seq<Seq<char>>
    decreases vs.len(),
{
    if vs.len() == 0 {
        Seq::empty()
    } else {
        let rest = admitted(vs.drop_last(), c);
        if admits(c, vs.last()) {
            rest.push(vs.last())
        } else {
            rest
        }
    }
}

/// The version a resolver chooses for `req` from the metadata: for version
/// ranges, the newest listed version that the constraint the ranges make
/// admits (so that ranges joined by a comma admit what either admits);
/// otherwise as `select_version` chooses. Nothing where versions that the
/// choice compares cannot be compared.
pub open spec fn spec_choose(m: MavenMetadataView, req: RequirementView) -> Option<Result<Seq<char>, MetadataError>> {
    match req {
        RequirementView::Hard(_) => if !comparable(versions_of(empty_constraint(), req)) {
            None
        } else {
            match spec_contain(empty_constraint(), req) {
                (_, Err(_)) => Some(Err(MetadataError::NoSelectableVersion)),
                (c, Ok(())) => {
                    let a = admitted(m.versions, c);
                    if a.len() == 0 {
                        Some(Err(MetadataError::NoSelectableVersion))
                    } else {
                        Some(Ok(newest(a)))
                    }
                },
            }
        },
        _ => if select_sorts_all(m, req) && !comparable(m.versions) {
            None
        } else {
            Some(spec_select(m, req))
        },
    }
}

impl MavenMetadata {
    /// The version a resolver chooses for `req`: version ranges are read as
    /// the constraint they make, and the newest listed version that it
    /// admits is chosen; any other requirement as `select_version` chooses.
    /// `None` where versions that the choice compares cannot be compared.
    pub fn choose_version(&self, req: &VersionRequirement) -> (r: Option<Result<String, MetadataError>>)
        ensures
            match spec_choose(self@, req@) {
                None => r is None,
                Some(Ok(v)) => r matches Some(Ok(s)) && s@ == v,
                Some(Err(e)) => r == Some(Err::<String, MetadataError>(e)),
            },
    {
        match req {
            VersionRequirement::Hard(_) => {
                let base = Constraint::default();
                match base.try_contain(req) {
                    None => None,
                    Some(Err(_)) => Some(Err(MetadataError::NoSelectableVersion)),
                    Some(Ok(c)) => {
                        let ghost sv = strings_view(self.versions@);
                        let mut cands: Vec<String> = Vec::new();
                        let mut i: usize = 0;
                        while i < self.versions.len()
                            invariant
                                i <= self.versions.len(),
                                sv == strings_view(self.versions@),
                                strings_view(cands@) == admitted(sv.take(i as int), c@),
                            decreases self.versions.len() - i,
                        {
                            proof {
                                assert(sv.take(i + 1).drop_last() == sv.take(i as int));
                                assert(sv.take(i + 1).last() == self.versions@[i as int]@);
                            }
                            let v = self.versions[i].clone();
                            let ok = match c.within_checked(&VersionRequirement::Soft(self.versions[i].clone())) {
                                Some(Ok(b)) => b,
                                _ => false,
                            };
                            if ok {
                                let ghost before = cands@;
                                cands.push(v);
                                proof {
                                    assert(strings_view(cands@) =~= strings_view(before).push(self.versions@[i as int]@));
                                }
                            }
                            i += 1;
                        }
                        proof {
                            assert(sv.take(self.versions.len() as int) == sv);
                        }
                        if cands.len() == 0 {
                            Some(Err(MetadataError::NoSelectableVersion))
                        } else {
                            let k = newest_index(&cands);
                            proof {
                                assert(strings_view(cands@)[k as int] == cands@[k as int]@);
                            }
                            Some(Ok(cands[k].clone()))
                        }
                    },
                }
            },
            _ => self.try_select_version(req),
        }
    }
}

proof fn lemma_admitted(vs: Seq<Seq<char>>, c: ConstraintView)
    ensures
        forall|x: Seq<char>| #[trigger] admitted(vs, c).contains(x) <==> (vs.contains(x) && admits(c, x)),
    decreases vs.len(),
{
    if vs.len() > 0 {
        let rest = vs.drop_last();
        lemma_admitted(rest, c);
        let r = admitted(rest, c);
        assert forall|x: Seq<char>| #[trigger] admitted(vs, c).contains(x) <==> (vs.contains(x) && admits(c, x)) by {
            if vs.contains(x) && admits(c, x) {
                let k = choose|k: int| 0 <= k < vs.len() && vs[k] == x;
                if k < vs.len() - 1 {
                    assert(rest[k] == x);
                    assert(r.contains(x));
                    let j = choose|j: int| 0 <= j < r.len() && r[j] == x;
                    if admits(c, vs.last()) {
                        assert(r.push(vs.last())[j] == x);
                    }
                } else {
                    assert(r.push(vs.last())[r.len() as int] == x);
                }
            }
            if admitted(vs, c).contains(x) {
                let j = choose|j: int| 0 <= j < admitted(vs, c).len() && admitted(vs, c)[j] == x;
                if j < r.len() {
                    assert(r[j] == x);
                    assert(r.contains(x));
                    let k = choose|k: int| 0 <= k < rest.len() && rest[k] == x;
                    assert(vs[k] == x);
                } else {
                    assert(vs[vs.len() - 1] == x);
                }
            }
        }
    }
}

/// The version chosen for version ranges is one of the listed versions that
/// the constraint the ranges make admits, and, where the admitted versions
/// have a newest one, it is newest: older than none of them. A choice is
/// made wherever the versions the ranges name can be compared.
pub proof fn lemma_choose_is_newest_admitted(m: MavenMetadataView, req: RequirementView)
    requires
        req is Hard,
        spec_contain(empty_constraint(), req).1 is Ok,
        exists|i: int|
            0 <= i < m.versions.len() && admits(spec_contain(empty_constraint(), req).0, m.versions[i]) && forall|j: int|
                0 <= j < m.versions.len() && admits(spec_contain(empty_constraint(), req).0, m.versions[j])
                    ==> spec_version_compare(m.versions[i], #[trigger] m.versions[j]) != Some(VersionRel::Lt),
    ensures
        spec_choose(m, req) matches Some(Ok(s)) ==> {
            &&& m.versions.contains(s)
            &&& admits(spec_contain(empty_constraint(), req).0, s)
            &&& forall|j: int|
                0 <= j < m.versions.len() && admits(spec_contain(empty_constraint(), req).0, m.versions[j])
                    ==> spec_version_compare(s, #[trigger] m.versions[j]) != Some(VersionRel::Lt)
        },
        spec_choose(m, req) is Some ==> spec_choose(m, req)->0 is Ok,
        comparable(versions_of(empty_constraint(), req)) ==> spec_choose(m, req) is Some,
{
    let c = spec_contain(empty_constraint(), req).0;
    let a = admitted(m.versions, c);
    lemma_admitted(m.versions, c);
    let i = choose|i: int|
        0 <= i < m.versions.len() && admits(c, m.versions[i]) && forall|j: int|
            0 <= j < m.versions.len() && admits(c, m.versions[j]) ==> spec_version_compare(
                m.versions[i],
                #[trigger] m.versions[j],
            ) != Some(VersionRel::Lt);
    let w = m.versions[i];
    assert(m.versions.contains(w));
    assert(a.contains(w));
    let ia = choose|ia: int| 0 <= ia < a.len() && a[ia] == w;
    assert(is_newest(a, ia)) by {
        assert forall|j: int| 0 <= j < a.len() implies spec_version_compare(a[ia], a[j]) != Some(VersionRel::Lt) by {
            assert(a.contains(a[j]));
            let k = choose|k: int| 0 <= k < m.versions.len() && m.versions[k] == a[j];
        }
    }
    lemma_newest_is_newest(a);
    let n = newest_from(a, 0);
    assert forall|j: int|
        0 <= j < m.versions.len() && admits(c, m.versions[j]) implies spec_version_compare(
            a[n],
            #[trigger] m.versions[j],
        ) != Some(VersionRel::Lt) by {
        assert(m.versions.contains(m.versions[j]));
        assert(a.contains(m.versions[j]));
        let k = choose|k: int| 0 <= k < a.len() && a[k] == m.versions[j];
    }
    assert(a.contains(a[n]));
}

proof fn lemma_metadata_names_distinct()
    ensures
        "groupId"@ != "artifactId"@,
        "groupId"@ != "version"@,
        "groupId"@ != "versioning"@,
        "groupId"@ != "latest"@,
        "groupId"@ != "release"@,
        "groupId"@ != "versions"@,
        "artifactId"@ != "version"@,
        "artifactId"@ != "versioning"@,
        "artifactId"@ != "latest"@,
        "artifactId"@ != "release"@,
        "artifactId"@ != "versions"@,
        "version"@ != "versioning"@,
        "version"@ != "latest"@,
        "version"@ != "release"@,
        "version"@ != "versions"@,
        "versioning"@ != "latest"@,
        "versioning"@ != "release"@,
        "versioning"@ != "versions"@,
        "latest"@ != "release"@,
        "latest"@ != "versions"@,
        "release"@ != "versions"@,
{
    reveal_strlit("groupId");
    reveal_strlit("artifactId");
    reveal_strlit("version");
    reveal_strlit("versioning");
    reveal_strlit("latest");
    reveal_strlit("release");
    reveal_strlit("versions");
    assert("groupId"@[0] != "artifactId"@[0]);
    assert("groupId"@[0] != "version"@[0]);
    assert("groupId"@[0] != "versioning"@[0]);
    assert("groupId"@[0] != "latest"@[0]);
    assert("groupId"@[0] != "release"@[0]);
    assert("groupId"@[0] != "versions"@[0]);
    assert("artifactId"@[0] != "version"@[0]);
    assert("artifactId"@[0] != "versioning"@[0]);
    assert("artifactId"@[0] != "latest"@[0]);
    assert("artifactId"@[0] != "release"@[0]);
    assert("artifactId"@[0] != "versions"@[0]);
    assert("version"@.len() != "versioning"@.len());
    assert("version"@[0] != "latest"@[0]);
    assert("version"@[0] != "release"@[0]);
    assert("version"@.len() != "versions"@.len());
    assert("versioning"@[0] != "latest"@[0]);
    assert("versioning"@[0] != "release"@[0]);
    assert("versioning"@.len() != "versions"@.len());
    assert("latest"@[0] != "release"@[0]);
    assert("latest"@[0] != "versions"@[0]);
    assert("release"@[0] != "versions"@[0]);
}

/// A `<groupId>` element whose text is `t`, where the metadata has one,
/// makes `t` its group id and leaves the rest as it was.
pub proof fn lemma_metadata_group_id(p: MetadataParserView, tag: XmlTag, t: String, end: String)
    requires
        p.state == ParserState::Metadata,
        tag.name@ == "groupId"@,
        end@ == "groupId"@,
    ensures
        metadata_run(p, seq![XmlEvent::Start(tag), XmlEvent::Text(Some(t)), XmlEvent::End(end)]) == Ok::<
            MetadataParserView,
            MetadataError,
        >(MetadataParserView { metadata: MavenMetadataView { group_id: t@, ..p.metadata }, ..p }),
{
    lemma_metadata_names_distinct();
    let evs = seq![XmlEvent::Start(tag), XmlEvent::Text(Some(t)), XmlEvent::End(end)];
    assert(evs[0] == XmlEvent::Start(tag));
    assert(evs.drop_first()[0] == XmlEvent::Text(Some(t)));
    assert(evs.drop_first().drop_first()[0] == XmlEvent::End(end));
    assert(evs.drop_first().drop_first().drop_first() =~= Seq::<XmlEvent>::empty());
    let p1 = metadata_step(p, evs[0])->Ok_0;
    assert(metadata_step(p, evs[0]) is Ok);
    let p2 = metadata_step(p1, evs.drop_first()[0])->Ok_0;
    assert(metadata_step(p1, evs.drop_first()[0]) is Ok);
    let p3 = metadata_step(p2, evs.drop_first().drop_first()[0])->Ok_0;
    assert(metadata_step(p2, evs.drop_first().drop_first()[0]) is Ok);
    assert(metadata_run(p3, evs.drop_first().drop_first().drop_first()) == Ok::<MetadataParserView, MetadataError>(p3));
    assert(metadata_run(p2, evs.drop_first().drop_first()) == Ok::<MetadataParserView, MetadataError>(p3));
    assert(metadata_run(p1, evs.drop_first()) == Ok::<MetadataParserView, MetadataError>(p3));
}

/// A `<artifactId>` element whose text is `t`, where the metadata has one,
/// makes `t` its artifact id and leaves the rest as it was.
pub proof fn lemma_metadata_artifact_id(p: MetadataParserView, tag: XmlTag, t: String, end: String)
    requires
        p.state == ParserState::Metadata,
        tag.name@ == "artifactId"@,
        end@ == "artifactId"@,
    ensures
        metadata_run(p, seq![XmlEvent::Start(tag), XmlEvent::Text(Some(t)), XmlEvent::End(end)]) == Ok::<
            MetadataParserView,
            MetadataError,
        >(MetadataParserView { metadata: MavenMetadataView { artifact_id: t@, ..p.metadata }, ..p }),
{
    lemma_metadata_names_distinct();
    let evs = seq![XmlEvent::Start(tag), XmlEvent::Text(Some(t)), XmlEvent::End(end)];
    assert(evs[0] == XmlEvent::Start(tag));
    assert(evs.drop_first()[0] == XmlEvent::Text(Some(t)));
    assert(evs.drop_first().drop_first()[0] == XmlEvent::End(end));
    assert(evs.drop_first().drop_first().drop_first() =~= Seq::<XmlEvent>::empty());
    let p1 = metadata_step(p, evs[0])->Ok_0;
    assert(metadata_step(p, evs[0]) is Ok);
    let p2 = metadata_step(p1, evs.drop_first()[0])->Ok_0;
    assert(metadata_step(p1, evs.drop_first()[0]) is Ok);
    let p3 = metadata_step(p2, evs.drop_first().drop_first()[0])->Ok_0;
    assert(metadata_step(p2, evs.drop_first().drop_first()[0]) is Ok);
    assert(metadata_run(p3, evs.drop_first().drop_first().drop_first()) == Ok::<MetadataParserView, MetadataError>(p3));
    assert(metadata_run(p2, evs.drop_first().drop_first()) == Ok::<MetadataParserView, MetadataError>(p3));
    assert(metadata_run(p1, evs.drop_first()) == Ok::<MetadataParserView, MetadataError>(p3));
}

/// A `<latest>` element whose text is `t`, where the metadata has one,
/// makes `t` its latest and leaves the rest as it was.
pub proof fn lemma_metadata_latest(p: MetadataParserView, tag: XmlTag, t: String, end: String)
    requires
        p.state == ParserState::Versioning(VersioningState::Versioning),
        tag.name@ == "latest"@,
        end@ == "latest"@,
    ensures
        metadata_run(p, seq![XmlEvent::Start(tag), XmlEvent::Text(Some(t)), XmlEvent::End(end)]) == Ok::<
            MetadataParserView,
            MetadataError,
        >(MetadataParserView { metadata: MavenMetadataView { latest: Some(t@), ..p.metadata }, ..p }),
{
    lemma_metadata_names_distinct();
    let evs = seq![XmlEvent::Start(tag), XmlEvent::Text(Some(t)), XmlEvent::End(end)];
    assert(evs[0] == XmlEvent::Start(tag));
    assert(evs.drop_first()[0] == XmlEvent::Text(Some(t)));
    assert(evs.drop_first().drop_first()[0] == XmlEvent::End(end));
    assert(evs.drop_first().drop_first().drop_first() =~= Seq::<XmlEvent>::empty());
    let p1 = metadata_step(p, evs[0])->Ok_0;
    assert(metadata_step(p, evs[0]) is Ok);
    let p2 = metadata_step(p1, evs.drop_first()[0])->Ok_0;
    assert(metadata_step(p1, evs.drop_first()[0]) is Ok);
    let p3 = metadata_step(p2, evs.drop_first().drop_first()[0])->Ok_0;
    assert(metadata_step(p2, evs.drop_first().drop_first()[0]) is Ok);
    assert(metadata_run(p3, evs.drop_first().drop_first().drop_first()) == Ok::<MetadataParserView, MetadataError>(p3));
    assert(metadata_run(p2, evs.drop_first().drop_first()) == Ok::<MetadataParserView, MetadataError>(p3));
    assert(metadata_run(p1, evs.drop_first()) == Ok::<MetadataParserView, MetadataError>(p3));
}

/// A `<release>` element whose text is `t`, where the metadata has one,
/// makes `t` its release and leaves the rest as it was.
pub proof fn lemma_metadata_release(p: MetadataParserView, tag: XmlTag, t: String, end: String)
    requires
        p.state == ParserState::Versioning(VersioningState::Versioning),
        tag.name@ == "release"@,
        end@ == "release"@,
    ensures
        metadata_run(p, seq![XmlEvent::Start(tag), XmlEvent::Text(Some(t)), XmlEvent::End(end)]) == Ok::<
            MetadataParserView,
            MetadataError,
        >(MetadataParserView { metadata: MavenMetadataView { release: Some(t@), ..p.metadata }, ..p }),
{
    lemma_metadata_names_distinct();
    let evs = seq![XmlEvent::Start(tag), XmlEvent::Text(Some(t)), XmlEvent::End(end)];
    assert(evs[0] == XmlEvent::Start(tag));
    assert(evs.drop_first()[0] == XmlEvent::Text(Some(t)));
    assert(evs.drop_first().drop_first()[0] == XmlEvent::End(end));
    assert(evs.drop_first().drop_first().drop_first() =~= Seq::<XmlEvent>::empty());
    let p1 = metadata_step(p, evs[0])->Ok_0;
    assert(metadata_step(p, evs[0]) is Ok);
    let p2 = metadata_step(p1, evs.drop_first()[0])->Ok_0;
    assert(metadata_step(p1, evs.drop_first()[0]) is Ok);
    let p3 = metadata_step(p2, evs.drop_first().drop_first()[0])->Ok_0;
    assert(metadata_step(p2, evs.drop_first().drop_first()[0]) is Ok);
    assert(metadata_run(p3, evs.drop_first().drop_first().drop_first()) == Ok::<MetadataParserView, MetadataError>(p3));
    assert(metadata_run(p2, evs.drop_first().drop_first()) == Ok::<MetadataParserView, MetadataError>(p3));
    assert(metadata_run(p1, evs.drop_first()) == Ok::<MetadataParserView, MetadataError>(p3));
}

/// A `<version>` element whose text is `t`, where the metadata has one,
/// makes `t` its listed version and leaves the rest as it was.
pub proof fn lemma_metadata_listed_version(p: MetadataParserView, tag: XmlTag, t: String, end: String)
    requires
        p.state == ParserState::Versioning(VersioningState::Versions(VersionsState::Versions)),
        tag.name@ == "version"@,
        end@ == "version"@,
    ensures
        metadata_run(p, seq![XmlEvent::Start(tag), XmlEvent::Text(Some(t)), XmlEvent::End(end)]) == Ok::<
            MetadataParserView,
            MetadataError,
        >(MetadataParserView { metadata: MavenMetadataView { versions: p.metadata.versions.push(t@), ..p.metadata }, current_version: t@, ..p }),
{
    lemma_metadata_names_distinct();
    let evs = seq![XmlEvent::Start(tag), XmlEvent::Text(Some(t)), XmlEvent::End(end)];
    assert(evs[0] == XmlEvent::Start(tag));
    assert(evs.drop_first()[0] == XmlEvent::Text(Some(t)));
    assert(evs.drop_first().drop_first()[0] == XmlEvent::End(end));
    assert(evs.drop_first().drop_first().drop_first() =~= Seq::<XmlEvent>::empty());
    let p1 = metadata_step(p, evs[0])->Ok_0;
    assert(metadata_step(p, evs[0]) is Ok);
    let p2 = metadata_step(p1, evs.drop_first()[0])->Ok_0;
    assert(metadata_step(p1, evs.drop_first()[0]) is Ok);
    let p3 = metadata_step(p2, evs.drop_first().drop_first()[0])->Ok_0;
    assert(metadata_step(p2, evs.drop_first().drop_first()[0]) is Ok);
    assert(metadata_run(p3, evs.drop_first().drop_first().drop_first()) == Ok::<MetadataParserView, MetadataError>(p3));
    assert(metadata_run(p2, evs.drop_first().drop_first()) == Ok::<MetadataParserView, MetadataError>(p3));
    assert(metadata_run(p1, evs.drop_first()) == Ok::<MetadataParserView, MetadataError>(p3));
}


proof fn lemma_matching_contains(vs: Seq<Seq<char>>, rs: Seq<(RangeKind, Seq<char>)>)
    ensures
        forall|x: Seq<char>| #[trigger] matching(vs, rs).contains(x) <==> (vs.contains(x) && meets_all(x, rs)),
    decreases vs.len(),
{
    lemma_matching_len(vs, rs);
    if vs.len() > 0 {
        let rest = vs.drop_last();
        lemma_matching_contains(rest, rs);
        let r = matching(rest, rs);
        assert forall|x: Seq<char>| #[trigger] matching(vs, rs).contains(x) <==> (vs.contains(x) && meets_all(x, rs)) by {
            if vs.contains(x) && meets_all(x, rs) {
                let k = choose|k: int| 0 <= k < vs.len() && vs[k] == x;
                if k < vs.len() - 1 {
                    assert(rest[k] == x);
                    assert(r.contains(x));
                    let j = choose|j: int| 0 <= j < r.len() && r[j] == x;
                    if meets_all(vs.last(), rs) {
                        assert(r.push(vs.last())[j] == x);
                    }
                } else {
                    assert(r.push(vs.last())[r.len() as int] == x);
                }
            }
            if matching(vs, rs).contains(x) {
                let j = choose|j: int| 0 <= j < matching(vs, rs).len() && matching(vs, rs)[j] == x;
                assert(vs.contains(matching(vs, rs)[j]));
            }
        }
    }
}

/// With version ranges, `select_version` gives, where the listed versions
/// that meet every range have a newest one, a listed version that meets
/// every range and is older than none of the listed versions that do.
pub proof fn lemma_select_is_newest_meeting(m: MavenMetadataView, rs: Seq<(RangeKind, Seq<char>)>)
    requires
        exists|i: int|
            0 <= i < m.versions.len() && meets_all(m.versions[i], rs) && forall|j: int|
                0 <= j < m.versions.len() && meets_all(m.versions[j], rs) ==> spec_version_compare(
                    m.versions[i],
                    #[trigger] m.versions[j],
                ) != Some(VersionRel::Lt),
    ensures
        spec_select(m, RequirementView::Hard(rs)) is Ok,
        m.versions.contains(spec_select(m, RequirementView::Hard(rs))->Ok_0),
        meets_all(spec_select(m, RequirementView::Hard(rs))->Ok_0, rs),
        forall|j: int|
            0 <= j < m.versions.len() && meets_all(m.versions[j], rs) ==> spec_version_compare(
                spec_select(m, RequirementView::Hard(rs))->Ok_0,
                #[trigger] m.versions[j],
            ) != Some(VersionRel::Lt),
{
    let a = matching(m.versions, rs);
    lemma_matching_contains(m.versions, rs);
    let i = choose|i: int|
        0 <= i < m.versions.len() && meets_all(m.versions[i], rs) && forall|j: int|
            0 <= j < m.versions.len() && meets_all(m.versions[j], rs) ==> spec_version_compare(
                m.versions[i],
                #[trigger] m.versions[j],
            ) != Some(VersionRel::Lt);
    let w = m.versions[i];
    assert(m.versions.contains(w));
    assert(a.contains(w));
    let ia = choose|ia: int| 0 <= ia < a.len() && a[ia] == w;
    assert(is_newest(a, ia)) by {
        assert forall|j: int| 0 <= j < a.len() implies spec_version_compare(a[ia], a[j]) != Some(VersionRel::Lt) by {
            assert(a.contains(a[j]));
            let k = choose|k: int| 0 <= k < m.versions.len() && m.versions[k] == a[j];
        }
    }
    lemma_newest_is_newest(a);
    lemma_selected_meets_ranges(m, rs);
    let n = newest_from(a, 0);
    assert forall|j: int|
        0 <= j < m.versions.len() && meets_all(m.versions[j], rs) implies spec_version_compare(
            a[n],
            #[trigger] m.versions[j],
        ) != Some(VersionRel::Lt) by {
        assert(m.versions.contains(m.versions[j]));
        assert(a.contains(m.versions[j]));
        let k = choose|k: int| 0 <= k < a.len() && a[k] == m.versions[j];
    }
}

/// Without a requirement, `select_version` gives the release the metadata
/// names, failing that its latest; a soft version other than `RELEASE` and
/// `LATEST` is kept as it is, and those two give the release and the latest
/// where the metadata names them.
pub proof fn lemma_select_defaults(m: MavenMetadataView, v: Seq<char>)
    ensures
        m.release matches Some(r) ==> spec_select(m, RequirementView::Unset) == Ok::<Seq<char>, MetadataError>(r),
        m.release is None && m.latest is Some ==> spec_select(m, RequirementView::Unset) == Ok::<
            Seq<char>,
            MetadataError,
        >(m.latest->0),
        m.release is None && m.latest is None && m.versions.len() == 0 ==> spec_select(m, RequirementView::Unset)
            == Err::<Seq<char>, MetadataError>(MetadataError::NoSelectableVersion),
        v != "RELEASE"@ && v != "LATEST"@ ==> spec_select(m, RequirementView::Soft(v)) == Ok::<
            Seq<char>,
            MetadataError,
        >(v),
        m.release matches Some(r) ==> spec_select(m, RequirementView::Soft("RELEASE"@)) == Ok::<
            Seq<char>,
            MetadataError,
        >(r),
        m.latest matches Some(l) ==> spec_select(m, RequirementView::Soft("LATEST"@)) == Ok::<
            Seq<char>,
            MetadataError,
        >(l),
{
    reveal_strlit("RELEASE");
    reveal_strlit("LATEST");
    assert("RELEASE"@ != "LATEST"@) by {
        assert("RELEASE"@[0] != "LATEST"@[0]);
    }
}

} // verus!
