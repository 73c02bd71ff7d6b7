//! Filtering and ranking the packages of an SDK repository: by the text
//! typed for their name or version (ranked by a fuzzy match), by whether
//! they are installed or obsolete, and by channel.
use vstd::prelude::*;
use std::rc::Rc;
use crate::installed_list::{id_index, InstalledList, InstalledPackage};
use crate::package_id::id_text;
use crate::repository::{
    packages_view, ChannelType, ChannelView, RemotePackage, RemotePackageView, RepositoryXml,
    RepositoryXmlView,
};
use crate::revision::revision_text;
use crate::strs::str_eq;

verus! {

/// A filter on the packages of a repository.
#[derive(Debug, PartialEq, Eq, Hash)]
pub enum SdkFilters {
    /// Filter by display name
    Name(String),
    /// Filter by version
    Version(String),
    /// Select only packages that matches this obsolete state
    Obsolete(bool),
    /// Filter by installed packages
    Installed,
}

pub enum FilterView {
    Name(Seq<char>),
    Version(Seq<char>),
    Obsolete(bool),
    Installed,
}

impl View for SdkFilters {
    type V = FilterView;

    open spec fn view(&self) -> FilterView {
        match self {
            SdkFilters::Name(n) => FilterView::Name(n@),
            SdkFilters::Version(v) => FilterView::Version(v@),
            SdkFilters::Obsolete(b) => FilterView::Obsolete(*b),
            SdkFilters::Installed => FilterView::Installed,
        }
    }
}

pub open spec fn filters_view(s: Seq<SdkFilters>) -> Seq<FilterView> {
    s.map_values(|f: SdkFilters| f@)
}

/// The score of the fuzzy match of `pattern` in `line` by
/// `fuzzy_matcher::clangd::fuzzy_match`, the larger the better; nothing where
/// it does not match.
pub uninterp spec fn spec_fuzzy_match(line: Seq<char>, pattern: Seq<char>) -> Option<i64>;

/// Calls `fuzzy_matcher::clangd::fuzzy_match`, which matches the characters
/// of `pattern` in order against `line`, ignoring case, and scores the match.
/// Its result is named by `spec_fuzzy_match`; nothing else is claimed of it.
#[verifier::external_body]
fn fuzzy_score(line: &str, pattern: &str) -> (r: Option<i64>)
    ensures
        r == spec_fuzzy_match(line@, pattern@),
{
    fuzzy_matcher::clangd::fuzzy_match(line, pattern)
}

/// Whether a package passes the singleton filters and the channel: it is
/// installed (where that is asked), its obsolete state is the one asked, and
/// its channel is the one chosen.
pub open spec fn passes(
    p: RemotePackageView,
    singles: Seq<FilterView>,
    installed: Seq<crate::installed_list::InstalledPackageView>,
    channel: Option<ChannelView>,
) -> bool {
    &&& forall|k: int|
        0 <= k < singles.len() ==> match #[trigger] singles[k] {
            FilterView::Installed => id_index(installed, id_text(p.path, p.revision, p.channel)) is Some,
            FilterView::Obsolete(b) => p.obsolete == b,
            _ => true,
        }
    &&& match channel {
        Some(c) => p.channel == c,
        None => true,
    }
}

/// The rank the first matching name or version filter gives a package;
/// 1 where there are no such filters to match.
pub open spec fn rank_from(p: RemotePackageView, filters: Seq<FilterView>, k: int) -> Option<i64>
    decreases filters.len() - k,
{
    if k < 0 || k >= filters.len() {
        None
    } else {
        let here = match filters[k] {
            FilterView::Name(n) => match spec_fuzzy_match(p.name, n) {
                Some(r) => Some(r),
                None => spec_fuzzy_match(p.path, n),
            },
            FilterView::Version(v) => spec_fuzzy_match(revision_text(p.revision), v),
            _ => None,
        };
        match here {
            Some(r) => Some(r),
            None => rank_from(p, filters, k + 1),
        }
    }
}

pub open spec fn rank_of(p: RemotePackageView, filters: Seq<FilterView>) -> Option<i64> {
    if filters.len() == 0 {
        Some(1)
    } else {
        rank_from(p, filters, 0)
    }
}

/// The packages that pass, with their ranks, in repository order.
pub open spec fn ranked(
    ps: Seq<RemotePackageView>,
    filters: Seq<FilterView>,
    singles: Seq<FilterView>,
    installed: Seq<crate::installed_list::InstalledPackageView>,
    channel: Option<ChannelView>,
) -> Seq<(i64, RemotePackageView)>
    decreases ps.len(),
{
    if ps.len() == 0 {
        Seq::empty()
    } else {
        let rest = ranked(ps.drop_last(), filters, singles, installed, channel);
        let p = ps.last();
        if passes(p, singles, installed, channel) {
            match rank_of(p, filters) {
                Some(r) => rest.push((r, p)),
                None => rest,
            }
        } else {
            rest
        }
    }
}

/// Where a stable insertion by decreasing rank puts `x` into `s`.
pub open spec fn rank_pos(s: Seq<(i64, RemotePackageView)>, x: (i64, RemotePackageView)) -> int
    decreases s.len(),
{
    if s.len() == 0 {
        0
    } else if s.last().0 < x.0 {
        rank_pos(s.drop_last(), x)
    } else {
        s.len() as int
    }
}

/// Ranked packages by decreasing rank, those of equal rank in their order.
pub open spec fn by_rank(s: Seq<(i64, RemotePackageView)>) -> Seq<(i64, RemotePackageView)>
    decreases s.len(),
{
    if s.len() == 0 {
        s
    } else {
        let t = by_rank(s.drop_last());
        t.insert(rank_pos(t, s.last()), s.last())
    }
}

pub open spec fn rank_sorted(s: Seq<(i64, RemotePackageView)>) -> bool {
    forall|i: int, j: int| 0 <= i < j < s.len() ==> s[i].0 >= s[j].0
}

proof fn lemma_rank_pos(s: Seq<(i64, RemotePackageView)>, x: (i64, RemotePackageView))
    requires
        rank_sorted(s),
    ensures
        0 <= rank_pos(s, x) <= s.len(),
        forall|k: int| 0 <= k < rank_pos(s, x) ==> s[k].0 >= x.0,
        forall|k: int| rank_pos(s, x) <= k < s.len() ==> s[k].0 < x.0,
    decreases s.len(),
{
    if s.len() > 0 {
        let t = s.drop_last();
        assert(rank_sorted(t));
        lemma_rank_pos(t, x);
        if s.last().0 < x.0 {
            let p = rank_pos(t, x);
            assert forall|k: int| 0 <= k < p implies s[k].0 >= x.0 by {
                assert(s[k] == t[k]);
            }
            assert forall|k: int| p <= k < s.len() implies s[k].0 < x.0 by {
                if k < s.len() - 1 {
                    assert(s[k] == t[k]);
                }
            }
        } else {
            assert forall|k: int| 0 <= k < s.len() implies s[k].0 >= x.0 by {
                if k < s.len() - 1 {
                    assert(s[k].0 >= s[s.len() - 1].0);
                }
            }
        }
    }
}

/// The packages come out by decreasing rank, and they are the ranked
/// packages.
pub proof fn lemma_by_rank(s: Seq<(i64, RemotePackageView)>)
    ensures
        rank_sorted(by_rank(s)),
        by_rank(s).to_multiset() =~= s.to_multiset(),
        by_rank(s).len() == s.len(),
    decreases s.len(),
{
    broadcast use vstd::seq_lib::group_to_multiset_ensures;

    if s.len() > 0 {
        let t = by_rank(s.drop_last());
        let x = s.last();
        lemma_by_rank(s.drop_last());
        lemma_rank_pos(t, x);
        let p = rank_pos(t, x);
        let u = t.insert(p, x);
        assert forall|i: int, j: int| 0 <= i < j < u.len() implies u[i].0 >= u[j].0 by {
            if j < p {
            } else if j == p {
            } else if i < p {
                assert(t[i].0 >= x.0);
            } else if i == p {
                assert(t[j - 1].0 < x.0);
            } else {
                assert(t[i - 1].0 >= t[j - 1].0);
            }
        }
        assert(u.remove(p) =~= t);
        assert(u[p] == x);
        assert(u.remove(p).to_multiset() =~= u.to_multiset().remove(x));
        assert(u.to_multiset().count(x) > 0) by {
            assert(u.contains(x));
        }
        assert(s.drop_last().push(x) =~= s);
        assert(u.to_multiset() =~= t.to_multiset().insert(x));
    }
}

/// The packages of a repository as filtered.
pub struct FilteredPackages {
    /// The repository to filter from
    pub repo: Rc<RepositoryXml>,
    /// The packages that the filters let through, best match first
    pub packages: Vec<RemotePackage>,
    /// List of filters to apply
    pub filters: Vec<SdkFilters>,
    /// These are singleton filters applied to all entries, each once
    pub single_filters: Vec<SdkFilters>,
    pub installed: InstalledList,
    /// The channel to show packages for. If set to None all channels are shown
    pub channel: Option<ChannelType>,
}

pub open spec fn opt_channel(c: Option<ChannelType>) -> Option<ChannelView> {
    match c {
        Some(x) => Some(x@),
        None => None,
    }
}

/// Whether two filters are the same.
fn same_filter(a: &SdkFilters, b: &SdkFilters) -> (r: bool)
    ensures
        r == (a@ == b@),
{
    match (a, b) {
        (SdkFilters::Name(x), SdkFilters::Name(y)) => str_eq(x.as_str(), y.as_str()),
        (SdkFilters::Version(x), SdkFilters::Version(y)) => str_eq(x.as_str(), y.as_str()),
        (SdkFilters::Obsolete(x), SdkFilters::Obsolete(y)) => *x == *y,
        (SdkFilters::Installed, SdkFilters::Installed) => true,
        _ => false,
    }
}

/// The position of the first filter of `s` equal to `f`.
fn filter_index(s: &Vec<SdkFilters>, f: &SdkFilters) -> (r: Option<usize>)
    ensures
        match r {
            Some(k) => k < s.len() && s@[k as int]@ == f@ && forall|j: int| 0 <= j < k ==> s@[j]@ != f@,
            None => forall|j: int| 0 <= j < s.len() ==> s@[j]@ != f@,
        },
{
    let mut i: usize = 0;
    while i < s.len()
        invariant
            i <= s.len(),
            forall|j: int| 0 <= j < i ==> s@[j]@ != f@,
        decreases s.len() - i,
    {
        if same_filter(&s[i], f) {
            return Some(i);
        }
        i += 1;
    }
    None
}

/// The singleton filters as a set: what `filters` holds, each at most once.
pub open spec fn filter_set(s: Seq<SdkFilters>) -> Set<FilterView> {
    filters_view(s).to_set()
}

impl FilteredPackages {
    /// The singleton filters hold no filter twice.
    pub open spec fn wf(&self) -> bool {
        filters_view(self.single_filters@).no_duplicates()
    }

    pub fn new(repo: Rc<RepositoryXml>, installed: InstalledList) -> (r: Self)
        ensures
            r.wf(),
            r.repo == repo,
            r.installed == installed,
            r.packages@.len() == 0,
            r.filters@.len() == 0,
            r.single_filters@.len() == 0,
            r.channel is None,
    {
        let r = FilteredPackages {
            repo,
            installed,
            packages: Vec::new(),
            filters: Vec::new(),
            single_filters: Vec::new(),
            channel: None,
        };
        assert(filters_view(r.single_filters@) =~= Seq::<FilterView>::empty());
        r
    }

    /// Adds filter to the list of available filters
    pub fn push_filter(&mut self, filter: SdkFilters)
        ensures
            final(self).filters@ == old(self).filters@.push(filter),
            final(self).single_filters == old(self).single_filters,
            final(self).channel == old(self).channel,
            final(self).packages == old(self).packages,
            final(self).repo == old(self).repo,
            final(self).installed == old(self).installed,
    {
        self.filters.push(filter);
    }

    /// Adds a singleton filter, unless an equal one is there already.
    /// Singleton filters are "AND"ed together
    pub fn insert_singleton_filter(&mut self, filter: SdkFilters)
        requires
            old(self).wf(),
        ensures
            final(self).wf(),
            filter_set(final(self).single_filters@) == filter_set(old(self).single_filters@).insert(filter@),
            (exists|j: int| 0 <= j < old(self).single_filters@.len() && old(self).single_filters@[j]@ == filter@)
                ==> final(self).single_filters@ == old(self).single_filters@,
            (forall|j: int| 0 <= j < old(self).single_filters@.len() ==> old(self).single_filters@[j]@ != filter@)
                ==> final(self).single_filters@ == old(self).single_filters@.push(filter),
            final(self).filters == old(self).filters,
            final(self).channel == old(self).channel,
            final(self).packages == old(self).packages,
            final(self).repo == old(self).repo,
            final(self).installed == old(self).installed,
    {
        let ghost before = self.single_filters@;
        match filter_index(&self.single_filters, &filter) {
            Some(k) => {
                proof {
                    assert(filters_view(before)[k as int] == filter@);
                    assert(filter_set(before).insert(filter@) =~= filter_set(before));
                }
            },
            None => {
                let ghost fv = filter@;
                self.single_filters.push(filter);
                proof {
                    let v = filters_view(before);
                    assert(filters_view(self.single_filters@) =~= v.push(fv));
                    assert forall|j: int| 0 <= j < v.len() implies v[j] != fv by {
                        assert(v[j] == before[j]@);
                    }
                    v.lemma_push_to_set_commute(fv);
                }
            },
        }
    }

    /// Removes a singleton filter; whether there was one to remove.
    pub fn remove_singleton_filter(&mut self, filter: &SdkFilters) -> (r: bool)
        requires
            old(self).wf(),
        ensures
            final(self).wf(),
            r == filter_set(old(self).single_filters@).contains(filter@),
            filter_set(final(self).single_filters@) == filter_set(old(self).single_filters@).remove(filter@),
            !r ==> final(self).single_filters@ == old(self).single_filters@,
            r ==> exists|j: int|
                0 <= j < old(self).single_filters@.len() && old(self).single_filters@[j]@ == filter@
                    && final(self).single_filters@ == old(self).single_filters@.remove(j),
            final(self).filters == old(self).filters,
            final(self).channel == old(self).channel,
            final(self).packages == old(self).packages,
            final(self).repo == old(self).repo,
            final(self).installed == old(self).installed,
    {
        let ghost before = self.single_filters@;
        let ghost v = filters_view(before);
        match filter_index(&self.single_filters, filter) {
            Some(k) => {
                self.single_filters.remove(k);
                proof {
                    assert(v[k as int] == filter@);
                    let w = filters_view(self.single_filters@);
                    assert(w =~= v.remove(k as int));
                    assert forall|x: FilterView| #[trigger] filter_set(self.single_filters@).contains(x)
                        <==> filter_set(before).remove(filter@).contains(x) by {
                        if w.contains(x) {
                            let i = choose|i: int| 0 <= i < w.len() && w[i] == x;
                            if i < k {
                                assert(v[i] == x);
                            } else {
                                assert(v[i + 1] == x);
                            }
                        }
                        if v.contains(x) && x != filter@ {
                            let i = choose|i: int| 0 <= i < v.len() && v[i] == x;
                            if i < k {
                                assert(w[i] == x);
                            } else {
                                assert(i != k);
                                assert(w[i - 1] == x);
                            }
                        }
                    }
                    assert(filter_set(self.single_filters@) =~= filter_set(before).remove(filter@));
                    assert(v.contains(filter@));
                }
                true
            },
            None => {
                proof {
                    assert(!v.contains(filter@)) by {
                        if v.contains(filter@) {
                            let i = choose|i: int| 0 <= i < v.len() && v[i] == filter@;
                            assert(before[i]@ == filter@);
                        }
                    }
                    assert(filter_set(before).remove(filter@) =~= filter_set(before));
                }
                false
            },
        }
    }

    /// removes and returns the last filter
    pub fn pop_filter(&mut self) -> (r: Option<SdkFilters>)
        ensures
            old(self).filters@.len() > 0 ==> r == Some(old(self).filters@.last()) && final(self).filters@
                == old(self).filters@.drop_last(),
            old(self).filters@.len() == 0 ==> r is None && final(self).filters@ == old(self).filters@,
            final(self).single_filters == old(self).single_filters,
            final(self).channel == old(self).channel,
            final(self).packages == old(self).packages,
            final(self).repo == old(self).repo,
            final(self).installed == old(self).installed,
    {
        self.filters.pop()
    }

    pub fn set_channel(&mut self, channel: Option<ChannelType>)
        ensures
            final(self).channel == channel,
            final(self).filters == old(self).filters,
            final(self).single_filters == old(self).single_filters,
            final(self).packages == old(self).packages,
            final(self).repo == old(self).repo,
            final(self).installed == old(self).installed,
    {
        self.channel = channel;
    }

    pub fn get_channel(&self) -> (r: &Option<ChannelType>)
        ensures
            *r == self.channel,
    {
        &self.channel
    }

    /// Returns true if there are filters available
    pub fn has_filters(&self) -> (r: bool)
        ensures
            r == (self.filters@.len() > 0),
    {
        self.filters.len() > 0
    }

    /// The packages to show: the filtered ones where there are filters, all
    /// the packages of the repository otherwise. Filters take effect with
    /// `apply`.
    pub fn get_packages(&self) -> (r: &Vec<RemotePackage>)
        ensures
            (self.filters@.len() > 0 || self.single_filters@.len() > 0) ==> r == &self.packages,
            (self.filters@.len() == 0 && self.single_filters@.len() == 0) ==> packages_view(r@)
                == self.repo@.remote_packages,
    {
        if self.filters.len() > 0 || self.single_filters.len() > 0 {
            &self.packages
        } else {
            self.repo.get_remote_packages()
        }
    }
}


/// The rank the filters give a package, if they let it through.
fn rank_package(p: &RemotePackage, filters: &Vec<SdkFilters>) -> (r: Option<i64>)
    ensures
        r == rank_of(p@, filters_view(filters@)),
{
    let ghost fv = filters_view(filters@);
    if filters.len() == 0 {
        return Some(1);
    }
    let mut k: usize = 0;
    while k < filters.len()
        invariant
            k <= filters.len(),
            fv == filters_view(filters@),
            filters.len() > 0,
            rank_of(p@, fv) == rank_from(p@, fv, k as int),
        decreases filters.len() - k,
    {
        proof {
            assert(fv[k as int] == filters@[k as int]@);
        }
        let here = match &filters[k] {
            SdkFilters::Name(n) => match fuzzy_score(p.get_display_name().as_str(), n.as_str()) {
                Some(r) => Some(r),
                None => fuzzy_score(p.get_path().as_str(), n.as_str()),
            },
            SdkFilters::Version(v) => fuzzy_score(p.get_revision().to_string().as_str(), v.as_str()),
            _ => None,
        };
        if here.is_some() {
            return here;
        }
        k += 1;
    }
    None
}

impl FilteredPackages {
    /// Whether a package passes the singleton filters and the channel.
    fn passes_filters(&self, p: &RemotePackage) -> (r: bool)
        ensures
            r == passes(
                p@,
                filters_view(self.single_filters@),
                self.installed@.packages,
                opt_channel(self.channel),
            ),
    {
        let ghost sv = filters_view(self.single_filters@);
        let mut k: usize = 0;
        while k < self.single_filters.len()
            invariant
                k <= self.single_filters.len(),
                sv == filters_view(self.single_filters@),
                forall|kk: int|
                    0 <= kk < k ==> match #[trigger] sv[kk] {
                        FilterView::Installed => id_index(
                            self.installed@.packages,
                            id_text(p@.path, p@.revision, p@.channel),
                        ) is Some,
                        FilterView::Obsolete(b) => p@.obsolete == b,
                        _ => true,
                    },
            decreases self.single_filters.len() - k,
        {
            proof {
                assert(sv[k as int] == self.single_filters@[k as int]@);
            }
            match &self.single_filters[k] {
                SdkFilters::Installed => {
                    let package = InstalledPackage::new(
                        p.get_path().clone(),
                        *p.get_revision(),
                        p.get_channel().clone(),
                        String::new(),
                    );
                    if self.installed.contains_id(&package).is_none() {
                        return false;
                    }
                },
                SdkFilters::Obsolete(obsolete) => {
                    if p.is_obsolete() != *obsolete {
                        return false;
                    }
                },
                _ => {},
            }
            k += 1;
        }
        match &self.channel {
            Some(c) => p.get_channel().same_as(c),
            None => true,
        }
    }

    /// Applies the filters: where there are any, keeps the packages that they
    /// let through, best match first (by decreasing rank, those of equal rank
    /// in repository order), and returns how many there are; where there are
    /// none, returns the number of packages of the repository.
    pub fn apply(&mut self) -> (r: usize)
        ensures
            (old(self).filters@.len() == 0 && old(self).single_filters@.len() == 0) ==> r
                == old(self).repo@.remote_packages.len() && final(self).packages == old(self).packages,
            (old(self).filters@.len() > 0 || old(self).single_filters@.len() > 0) ==> packages_view(
                final(self).packages@,
            ) == by_rank(
                ranked(
                    old(self).repo@.remote_packages,
                    filters_view(old(self).filters@),
                    filters_view(old(self).single_filters@),
                    old(self).installed@.packages,
                    opt_channel(old(self).channel),
                ),
            ).map_values(|x: (i64, RemotePackageView)| x.1) && r == final(self).packages@.len(),
            final(self).repo == old(self).repo,
            final(self).filters == old(self).filters,
            final(self).single_filters == old(self).single_filters,
            final(self).installed == old(self).installed,
            final(self).channel == old(self).channel,
    {
        if self.filters.len() == 0 && self.single_filters.len() == 0 {
            return self.repo.get_remote_packages().len();
        }
        let ps = self.repo.get_remote_packages();
        let ghost pv = packages_view(ps@);
        let ghost fv = filters_view(self.filters@);
        let ghost sv = filters_view(self.single_filters@);
        let ghost inst = self.installed@.packages;
        let ghost ch = opt_channel(self.channel);
        let mut candidates: Vec<(i64, RemotePackage)> = Vec::new();
        let mut i: usize = 0;
        while i < ps.len()
            invariant
                i <= ps.len(),
                pv == packages_view(ps@),
                fv == filters_view(self.filters@),
                sv == filters_view(self.single_filters@),
                inst == self.installed@.packages,
                ch == opt_channel(self.channel),
                candidates@.map_values(|x: (i64, RemotePackage)| (x.0, x.1@)) == ranked(
                    pv.take(i as int),
                    fv,
                    sv,
                    inst,
                    ch,
                ),
            decreases ps.len() - i,
        {
            proof {
                assert(pv.take(i + 1).drop_last() == pv.take(i as int));
                assert(pv.take(i + 1).last() == ps@[i as int]@);
            }
            if self.passes_filters(&ps[i]) {
                match rank_package(&ps[i], &self.filters) {
                    Some(rank) => {
                        let ghost before = candidates@;
                        candidates.push((rank, ps[i].clone()));
                        proof {
                            assert(candidates@.map_values(|x: (i64, RemotePackage)| (x.0, x.1@))
                                =~= before.map_values(|x: (i64, RemotePackage)| (x.0, x.1@)).push(
                                (rank, ps@[i as int]@),
                            ));
                        }
                    },
                    None => {},
                }
            }
            i += 1;
        }
        proof {
            assert(pv.take(ps.len() as int) == pv);
        }
        let ghost cv = candidates@.map_values(|x: (i64, RemotePackage)| (x.0, x.1@));
        let mut out: Vec<(i64, RemotePackage)> = Vec::new();
        let mut i: usize = 0;
        while i < candidates.len()
            invariant
                i <= candidates.len(),
                cv == candidates@.map_values(|x: (i64, RemotePackage)| (x.0, x.1@)),
                out@.map_values(|x: (i64, RemotePackage)| (x.0, x.1@)) == by_rank(cv.take(i as int)),
            decreases candidates.len() - i,
        {
            let x = (candidates[i].0, candidates[i].1.clone());
            let ghost s = out@.map_values(|x: (i64, RemotePackage)| (x.0, x.1@));
            let ghost xv = (x.0, x.1@);
            let mut j = out.len();
            assert(s.take(j as int) == s);
            while j > 0 && out[j - 1].0 < x.0
                invariant
                    j <= out.len(),
                    s == out@.map_values(|x: (i64, RemotePackage)| (x.0, x.1@)),
                    xv == (x.0, x.1@),
                    rank_pos(s, xv) == rank_pos(s.take(j as int), xv),
                decreases j,
            {
                proof {
                    assert(s.take(j as int).drop_last() == s.take(j - 1));
                    assert(s.take(j as int).last() == (out@[j - 1].0, out@[j - 1].1@));
                }
                j -= 1;
            }
            proof {
                if j > 0 {
                    assert(s.take(j as int).last() == (out@[j - 1].0, out@[j - 1].1@));
                    assert(s.take(j as int).len() == j);
                }
                assert(cv.take(i + 1).drop_last() == cv.take(i as int));
                assert(cv.take(i + 1).last() == xv);
            }
            out.insert(j, x);
            proof {
                assert(out@.map_values(|x: (i64, RemotePackage)| (x.0, x.1@)) =~= s.insert(j as int, xv));
            }
            i += 1;
        }
        proof {
            assert(cv.take(candidates.len() as int) == cv);
        }
        let ghost ov = out@.map_values(|x: (i64, RemotePackage)| (x.0, x.1@));
        let mut packages: Vec<RemotePackage> = Vec::new();
        let mut k: usize = 0;
        while k < out.len()
            invariant
                k <= out.len(),
                ov == out@.map_values(|x: (i64, RemotePackage)| (x.0, x.1@)),
                packages_view(packages@) == ov.take(k as int).map_values(|x: (i64, RemotePackageView)| x.1),
            decreases out.len() - k,
        {
            let ghost before = packages@;
            packages.push(out[k].1.clone());
            proof {
                assert(packages_view(packages@) =~= packages_view(before).push(out@[k as int].1@));
                assert(ov.take(k + 1) =~= ov.take(k as int).push(ov[k as int]));
                assert(ov.take(k + 1).map_values(|x: (i64, RemotePackageView)| x.1) =~= ov.take(
                    k as int,
                ).map_values(|x: (i64, RemotePackageView)| x.1).push(ov[k as int].1));
            }
            k += 1;
        }
        proof {
            assert(ov.take(out.len() as int) == ov);
        }
        self.packages = packages;
        self.packages.len()
    }
}

/// Popping a filter right after pushing one gives that filter back and
/// leaves the filters as they were.
pub proof fn lemma_pop_returns_pushed(fs: Seq<SdkFilters>, f: SdkFilters)
    ensures
        fs.push(f).len() > 0,
        fs.push(f).last() == f,
        fs.push(f).drop_last() == fs,
{
    assert(fs.push(f).drop_last() =~= fs);
}

/// Removing a singleton filter right after inserting one that was not there
/// reports it as found and leaves the singleton filters as they were.
pub proof fn lemma_remove_undoes_insert(s: Seq<SdkFilters>, f: SdkFilters)
    requires
        filters_view(s).no_duplicates(),
        !filter_set(s).contains(f@),
    ensures
        filter_set(s).insert(f@).contains(f@),
        filter_set(s).insert(f@).remove(f@) == filter_set(s),
{
    assert(filter_set(s).insert(f@).remove(f@) =~= filter_set(s));
}

proof fn lemma_ranked_pass(
    ps: Seq<RemotePackageView>,
    filters: Seq<FilterView>,
    singles: Seq<FilterView>,
    installed: Seq<crate::installed_list::InstalledPackageView>,
    channel: Option<ChannelView>,
)
    ensures
        forall|i: int|
            0 <= i < ranked(ps, filters, singles, installed, channel).len() ==> ps.contains(
                (#[trigger] ranked(ps, filters, singles, installed, channel)[i]).1,
            ) && passes(ranked(ps, filters, singles, installed, channel)[i].1, singles, installed, channel),
    decreases ps.len(),
{
    if ps.len() > 0 {
        let rest = ps.drop_last();
        lemma_ranked_pass(rest, filters, singles, installed, channel);
        let r = ranked(rest, filters, singles, installed, channel);
        assert forall|i: int| 0 <= i < r.len() implies ps.contains((#[trigger] r[i]).1) by {
            let x = r[i].1;
            assert(rest.contains(x));
            let k = choose|k: int| 0 <= k < rest.len() && rest[k] == x;
            assert(ps[k] == x);
        }
        assert(ps[ps.len() - 1] == ps.last());
    }
}

/// Every package that `apply` keeps is a package of the repository that has
/// what the singleton filters ask for: the obsolete state of an `Obsolete`
/// filter, an installed copy for the `Installed` filter, and the chosen
/// channel, where one is chosen.
pub proof fn lemma_kept_packages_obey_filters(
    ps: Seq<RemotePackageView>,
    filters: Seq<FilterView>,
    singles: Seq<FilterView>,
    installed: Seq<crate::installed_list::InstalledPackageView>,
    channel: Option<ChannelView>,
)
    ensures
        forall|i: int|
            0 <= i < by_rank(ranked(ps, filters, singles, installed, channel)).len() ==> {
                let p = (#[trigger] by_rank(ranked(ps, filters, singles, installed, channel))[i]).1;
                &&& ps.contains(p)
                &&& forall|k: int|
                    0 <= k < singles.len() ==> match #[trigger] singles[k] {
                        FilterView::Obsolete(wanted) => wanted == p.obsolete,
                        FilterView::Installed => id_index(installed, id_text(p.path, p.revision, p.channel)) is Some,
                        _ => true,
                    }
                &&& (channel matches Some(c) ==> p.channel == c)
            },
{
    broadcast use vstd::seq_lib::group_to_multiset_ensures;

    let r = ranked(ps, filters, singles, installed, channel);
    lemma_ranked_pass(ps, filters, singles, installed, channel);
    lemma_by_rank(r);
    let b = by_rank(r);
    assert forall|i: int| 0 <= i < b.len() implies {
        let p = (#[trigger] b[i]).1;
        &&& ps.contains(p)
        &&& forall|k: int|
            0 <= k < singles.len() ==> match #[trigger] singles[k] {
                FilterView::Obsolete(o) => p.obsolete == o,
                FilterView::Installed => id_index(installed, id_text(p.path, p.revision, p.channel)) is Some,
                _ => true,
            }
        &&& (channel matches Some(c) ==> p.channel == c)
    } by {
        let x = b[i];
        assert(b.contains(x));
        assert(b.to_multiset().count(x) > 0);
        assert(r.to_multiset().count(x) > 0);
        assert(r.contains(x));
        let j = choose|j: int| 0 <= j < r.len() && r[j] == x;
        assert(passes(r[j].1, singles, installed, channel));
        assert forall|k: int| 0 <= k < singles.len() implies match #[trigger] singles[k] {
            FilterView::Obsolete(o) => x.1.obsolete == o,
            FilterView::Installed => id_index(installed, id_text(x.1.path, x.1.revision, x.1.channel)) is Some,
            _ => true,
        } by {
            let _ = singles[k];
        }
    }
}


proof fn lemma_ranked_complete(
    ps: Seq<RemotePackageView>,
    filters: Seq<FilterView>,
    singles: Seq<FilterView>,
    installed: Seq<crate::installed_list::InstalledPackageView>,
    channel: Option<ChannelView>,
)
    ensures
        forall|i: int|
            0 <= i < ps.len() && passes(#[trigger] ps[i], singles, installed, channel) && rank_of(ps[i], filters)
                is Some ==> ranked(ps, filters, singles, installed, channel).contains(
                (rank_of(ps[i], filters)->0, ps[i]),
            ),
    decreases ps.len(),
{
    if ps.len() > 0 {
        let rest = ps.drop_last();
        lemma_ranked_complete(rest, filters, singles, installed, channel);
        let r = ranked(rest, filters, singles, installed, channel);
        assert forall|i: int|
            0 <= i < ps.len() && passes(#[trigger] ps[i], singles, installed, channel) && rank_of(ps[i], filters)
                is Some implies ranked(ps, filters, singles, installed, channel).contains(
            (rank_of(ps[i], filters)->0, ps[i]),
        ) by {
            let x = (rank_of(ps[i], filters)->0, ps[i]);
            if i < ps.len() - 1 {
                assert(rest[i] == ps[i]);
                assert(r.contains(x));
                let j = choose|j: int| 0 <= j < r.len() && r[j] == x;
                if passes(ps.last(), singles, installed, channel) && rank_of(ps.last(), filters) is Some {
                    assert(r.push((rank_of(ps.last(), filters)->0, ps.last()))[j] == x);
                }
            } else {
                assert(ps.last() == ps[i]);
                let u = r.push(x);
                assert(u[r.len() as int] == x);
            }
        }
    }
}

/// Every package of the repository that has what the singleton filters and
/// the chosen channel ask for, and that the name and version filters match
/// (as every package does where there are none), is kept by `apply`.
pub proof fn lemma_passing_packages_kept(
    ps: Seq<RemotePackageView>,
    filters: Seq<FilterView>,
    singles: Seq<FilterView>,
    installed: Seq<crate::installed_list::InstalledPackageView>,
    channel: Option<ChannelView>,
)
    ensures
        filters.len() == 0 ==> forall|p: RemotePackageView| #[trigger] rank_of(p, filters) == Some(1i64),
        forall|i: int|
            0 <= i < ps.len() && passes(#[trigger] ps[i], singles, installed, channel) && rank_of(ps[i], filters)
                is Some ==> exists|j: int|
                0 <= j < by_rank(ranked(ps, filters, singles, installed, channel)).len() && (#[trigger] by_rank(
                    ranked(ps, filters, singles, installed, channel),
                )[j]).1 == ps[i],
{
    broadcast use vstd::seq_lib::group_to_multiset_ensures;

    let r = ranked(ps, filters, singles, installed, channel);
    lemma_ranked_complete(ps, filters, singles, installed, channel);
    lemma_by_rank(r);
    let b = by_rank(r);
    assert forall|i: int|
        0 <= i < ps.len() && passes(#[trigger] ps[i], singles, installed, channel) && rank_of(ps[i], filters)
            is Some implies exists|j: int| 0 <= j < b.len() && (#[trigger] b[j]).1 == ps[i] by {
        let x = (rank_of(ps[i], filters)->0, ps[i]);
        assert(r.contains(x));
        assert(r.to_multiset().count(x) > 0);
        assert(b.to_multiset().count(x) > 0);
        assert(b.contains(x));
        let j = choose|j: int| 0 <= j < b.len() && b[j] == x;
        assert(b[j].1 == ps[i]);
    }
}

} // verus!
