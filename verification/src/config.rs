//! The project file `Labt.toml` and the resolvers it configures: the
//! built-in resolvers, overridden or extended by the configured ones and
//! ordered by priority.
use vstd::prelude::*;
use crate::strs::{str_eq, str_to_string};

verus! {

/// The project details
#[derive(Debug, PartialEq, Eq)]
pub struct Project {
    /// Name of the project
    pub name: String,
    /// A brief description of the project
    pub description: String,
    /// Android project version number
    pub version_number: i32,
    /// Android project version name
    pub version: String,
    /// The application package name
    pub package: String,
}

/// A project build dependency
#[derive(Debug, PartialEq, Eq)]
pub struct Dependency {
    /// The artifact id where it differs from the key of the dependency
    pub artifact_id: Option<String>,
    /// The project group id
    pub group_id: String,
    /// Project version
    pub version: String,
    /// The project dependency type i.e. jar, aar etc.
    pub dep_type: Option<String>,
    /// Where to fetch the project
    pub resolver: Option<String>,
}

/// A resolver table: `central = {url = "...", priority = 1}`
#[derive(Debug, PartialEq, Eq)]
pub struct ResolverTable {
    /// The repo url
    pub url: String,
    /// Resolvers of higher priority are asked first; 0 where not given
    pub priority: i32,
}

/// The plugin toml table; either a url or a path is its location
#[derive(Debug, PartialEq, Eq)]
pub struct PluginTable {
    /// The repo url or local path where to fetch the plugin
    pub location: Option<String>,
    /// The plugin version to fetch
    pub version: String,
}

/// The entire project toml file: the project, its dependencies, resolvers
/// and plugins, each table keyed as in the file, in the order read.
#[derive(Debug, PartialEq, Eq)]
pub struct LabToml {
    /// Project details
    pub project: Project,
    /// `[dependencies]`: `artifactId = {dependency inline table}`
    pub dependencies: Option<Vec<(String, Dependency)>>,
    /// `[resolvers]`: `central = {url= "https://repo1.maven.org/maven2", priority = 1}`
    pub resolvers: Option<Vec<(String, ResolverTable)>>,
    /// `[plugins]`: `core-java = {location = "...", version = "v0.1.0"}`
    pub plugins: Option<Vec<(String, PluginTable)>>,
}

/// Where a resolver fetches projects from.
#[derive(Debug, PartialEq, Eq)]
pub enum ResolverSource {
    /// The local cache of fetched projects
    Cache,
    /// A maven repository at this base url
    Net(String),
}

/// A resolver to set up: its name, where it fetches from and its priority.
#[derive(Debug, PartialEq, Eq)]
pub struct ResolverEntry {
    pub name: String,
    pub source: ResolverSource,
    pub priority: i32,
}

pub enum SourceView {
    Cache,
    Net(Seq<char>),
}

/// The model of a resolver entry.
pub struct EntryView {
    pub name: Seq<char>,
    pub source: SourceView,
    pub priority: i32,
}

impl View for ResolverEntry {
    type V = EntryView;

    open spec fn view(&self) -> EntryView {
        EntryView {
            name: self.name@,
            source: match self.source {
                ResolverSource::Cache => SourceView::Cache,
                ResolverSource::Net(u) => SourceView::Net(u@),
            },
            priority: self.priority,
        }
    }
}

pub open spec fn entries_view(s: Seq<ResolverEntry>) -> Seq<EntryView> {
    s.map_values(|e: ResolverEntry| e@)
}

/// The configured resolvers as (name, url, priority).
pub open spec fn tables_view(s: Seq<(String, ResolverTable)>) -> Seq<(Seq<char>, Seq<char>, i32)> {
    s.map_values(|p: (String, ResolverTable)| (p.0@, p.1.url@, p.1.priority))
}

/// The built-in resolvers: the cache first, then Google's and Maven
/// Central's repositories.
pub open spec fn default_entries() -> Seq<EntryView> {
    seq![
        EntryView { name: "cache"@, source: SourceView::Cache, priority: 10 },
        EntryView { name: "google"@, source: SourceView::Net("https://maven.google.com"@), priority: 5 },
        EntryView {
            name: "central"@,
            source: SourceView::Net("https://repo1.maven.org/maven2"@),
            priority: 1,
        },
    ]
}

/// The position of the first resolver called `name`.
pub open spec fn index_of_name(s: Seq<EntryView>, name: Seq<char>) -> Option<int>
    decreases s.len(),
{
    if s.len() == 0 {
        None
    } else {
        match index_of_name(s.drop_last(), name) {
            Some(i) => Some(i),
            None => if s.last().name == name {
                Some(s.len() - 1)
            } else {
                None
            },
        }
    }
}

/// Adds a configured resolver: it replaces the first resolver of its name,
/// or comes last where there is none.
pub open spec fn add_configured(s: Seq<EntryView>, t: (Seq<char>, Seq<char>, i32)) -> Seq<EntryView> {
    let e = EntryView { name: t.0, source: SourceView::Net(t.1), priority: t.2 };
    match index_of_name(s, t.0) {
        Some(i) => s.update(i, e),
        None => s.push(e),
    }
}

/// Adds the configured resolvers `cfg` to `s`, one after the other.
pub open spec fn add_all_configured(s: Seq<EntryView>, cfg: Seq<(Seq<char>, Seq<char>, i32)>) -> Seq<EntryView>
    decreases cfg.len(),
{
    if cfg.len() == 0 {
        s
    } else {
        add_configured(add_all_configured(s, cfg.drop_last()), cfg.last())
    }
}

/// Where a stable insertion puts `x` into `s` ordered by decreasing
/// priority: after every resolver whose priority is not lower.
pub open spec fn priority_pos(s: Seq<EntryView>, x: EntryView) -> int
    decreases s.len(),
{
    if s.len() == 0 {
        0
    } else if s.last().priority < x.priority {
        priority_pos(s.drop_last(), x)
    } else {
        s.len() as int
    }
}

/// Stable sort by decreasing priority.
pub open spec fn by_priority(s: Seq<EntryView>) -> Seq<EntryView>
    decreases s.len(),
{
    if s.len() == 0 {
        s
    } else {
        let t = by_priority(s.drop_last());
        t.insert(priority_pos(t, s.last()), s.last())
    }
}

/// The resolvers that a project configuration sets up.
pub open spec fn spec_resolvers(cfg: Option<Seq<(Seq<char>, Seq<char>, i32)>>) -> Seq<EntryView> {
    match cfg {
        Some(c) => by_priority(add_all_configured(default_entries(), c)),
        None => by_priority(default_entries()),
    }
}

/// Whether `s` is ordered by decreasing priority.
pub open spec fn priority_sorted(s: Seq<EntryView>) -> bool {
    forall|i: int, j: int| 0 <= i < j < s.len() ==> s[i].priority >= s[j].priority
}

proof fn lemma_priority_pos(s: Seq<EntryView>, x: EntryView)
    requires
        priority_sorted(s),
    ensures
        0 <= priority_pos(s, x) <= s.len(),
        forall|k: int| 0 <= k < priority_pos(s, x) ==> s[k].priority >= x.priority,
        forall|k: int| priority_pos(s, x) <= k < s.len() ==> s[k].priority < x.priority,
    decreases s.len(),
{
    if s.len() > 0 {
        let t = s.drop_last();
        assert(priority_sorted(t));
        lemma_priority_pos(t, x);
        if s.last().priority < x.priority {
            let p = priority_pos(t, x);
            assert forall|k: int| 0 <= k < p implies s[k].priority >= x.priority by {
                assert(s[k] == t[k]);
            }
            assert forall|k: int| p <= k < s.len() implies s[k].priority < x.priority by {
                if k < s.len() - 1 {
                    assert(s[k] == t[k]);
                }
            }
        } else {
            assert forall|k: int| 0 <= k < s.len() implies s[k].priority >= x.priority by {
                if k < s.len() - 1 {
                    assert(s[k].priority >= s[s.len() - 1].priority);
                }
            }
        }
    }
}

/// The resolvers come out ordered by decreasing priority, and they are the
/// resolvers that were put in.
pub proof fn lemma_by_priority(s: Seq<EntryView>)
    ensures
        priority_sorted(by_priority(s)),
        by_priority(s).to_multiset() =~= s.to_multiset(),
        by_priority(s).len() == s.len(),
    decreases s.len(),
{
    broadcast use vstd::seq_lib::group_to_multiset_ensures;

    if s.len() > 0 {
        let t = by_priority(s.drop_last());
        let x = s.last();
        lemma_by_priority(s.drop_last());
        lemma_priority_pos(t, x);
        let p = priority_pos(t, x);
        let u = t.insert(p, x);
        assert forall|i: int, j: int| 0 <= i < j < u.len() implies u[i].priority >= u[j].priority by {
            if j < p {
            } else if j == p {
            } else if i < p {
                assert(t[i].priority >= x.priority);
            } else if i == p {
                assert(t[j - 1].priority < x.priority);
            } else {
                assert(t[i - 1].priority >= t[j - 1].priority);
            }
        }
        assert(u.remove(p) =~= t);
        assert(u[p] == x);
        assert(u.remove(p).to_multiset() =~= u.to_multiset().remove(x));
        assert(u.to_multiset().count(x) > 0) by {
            assert(u.contains(x));
        }
        assert(s.drop_last().push(x) =~= s);
        assert(u.to_multiset() =~= t.to_multiset().insert(x));
    }
}


proof fn lemma_index_of_name_prefix(s: Seq<EntryView>, name: Seq<char>, n: int)
    requires
        0 <= n <= s.len(),
        index_of_name(s.take(n), name) is Some,
    ensures
        index_of_name(s, name) == index_of_name(s.take(n), name),
    decreases s.len() - n,
{
    if n < s.len() {
        assert(s.take(n + 1).drop_last() == s.take(n));
        lemma_index_of_name_prefix(s, name, n + 1);
    } else {
        assert(s.take(n) == s);
    }
}

proof fn lemma_index_of_name_bounds(s: Seq<EntryView>, name: Seq<char>)
    ensures
        index_of_name(s, name) matches Some(i) ==> 0 <= i < s.len() && s[i].name == name,
    decreases s.len(),
{
    if s.len() > 0 {
        lemma_index_of_name_bounds(s.drop_last(), name);
    }
}

fn clone_entry(e: &ResolverEntry) -> (r: ResolverEntry)
    ensures
        r@ == e@,
{
    ResolverEntry {
        name: e.name.clone(),
        source: match &e.source {
            ResolverSource::Cache => ResolverSource::Cache,
            ResolverSource::Net(u) => ResolverSource::Net(u.clone()),
        },
        priority: e.priority,
    }
}

/// The built-in resolvers.
pub fn default_resolvers() -> (r: Vec<ResolverEntry>)
    ensures
        entries_view(r@) == default_entries(),
{
    let mut r: Vec<ResolverEntry> = Vec::new();
    r.push(ResolverEntry { name: str_to_string("cache"), source: ResolverSource::Cache, priority: 10 });
    r.push(
        ResolverEntry {
            name: str_to_string("google"),
            source: ResolverSource::Net(str_to_string("https://maven.google.com")),
            priority: 5,
        },
    );
    r.push(
        ResolverEntry {
            name: str_to_string("central"),
            source: ResolverSource::Net(str_to_string("https://repo1.maven.org/maven2")),
            priority: 1,
        },
    );
    proof {
        assert(entries_view(r@) =~= default_entries());
    }
    r
}

/// The position of the first resolver of `s` called `name`.
fn find_by_name(s: &Vec<ResolverEntry>, name: &String) -> (r: Option<usize>)
    ensures
        match index_of_name(entries_view(s@), name@) {
            Some(i) => r == Some(i as usize),
            None => r is None,
        },
{
    let ghost sv = entries_view(s@);
    let mut i: usize = 0;
    assert(sv.take(0) =~= Seq::<EntryView>::empty());
    while i < s.len()
        invariant
            i <= s.len(),
            sv == entries_view(s@),
            index_of_name(sv.take(i as int), name@) is None,
        decreases s.len() - i,
    {
        proof {
            assert(sv.take(i + 1).drop_last() == sv.take(i as int));
            assert(sv.take(i + 1).last() == s@[i as int]@);
        }
        if str_eq(s[i].name.as_str(), name.as_str()) {
            proof {
                lemma_index_of_name_prefix(sv, name@, i + 1);
            }
            return Some(i);
        }
        i += 1;
    }
    proof {
        assert(sv.take(s.len() as int) == sv);
    }
    None
}

/// Adds the configured resolver `name`: it replaces the first resolver of
/// that name, or comes last.
fn add_resolver(s: &mut Vec<ResolverEntry>, name: &String, t: &ResolverTable)
    ensures
        entries_view(final(s)@) == add_configured(entries_view(old(s)@), (name@, t.url@, t.priority)),
{
    let e = ResolverEntry { name: name.clone(), source: ResolverSource::Net(t.url.clone()), priority: t.priority };
    let ghost sv = entries_view(s@);
    proof {
        lemma_index_of_name_bounds(sv, name@);
    }
    match find_by_name(s, name) {
        Some(i) => {
            s.set(i, e);
            proof {
                assert(entries_view(s@) =~= sv.update(i as int, e@));
            }
        },
        None => {
            s.push(e);
            proof {
                assert(entries_view(s@) =~= sv.push(e@));
            }
        },
    }
}

/// Sorts resolvers by decreasing priority, keeping the order of those of
/// equal priority.
fn sort_by_priority(v: &Vec<ResolverEntry>) -> (out: Vec<ResolverEntry>)
    ensures
        entries_view(out@) == by_priority(entries_view(v@)),
{
    let ghost vv = entries_view(v@);
    let mut out: Vec<ResolverEntry> = Vec::new();
    let mut i: usize = 0;
    while i < v.len()
        invariant
            i <= v.len(),
            vv == entries_view(v@),
            entries_view(out@) == by_priority(vv.take(i as int)),
        decreases v.len() - i,
    {
        let x = clone_entry(&v[i]);
        let ghost s = entries_view(out@);
        let mut j = out.len();
        assert(s.take(j as int) == s);
        while j > 0 && out[j - 1].priority < x.priority
            invariant
                j <= out.len(),
                s == entries_view(out@),
                priority_pos(s, x@) == priority_pos(s.take(j as int), x@),
            decreases j,
        {
            proof {
                assert(s.take(j as int).drop_last() == s.take(j - 1));
                assert(s.take(j as int).last() == out@[j - 1]@);
            }
            j -= 1;
        }
        proof {
            if j > 0 {
                assert(s.take(j as int).last() == out@[j - 1]@);
                assert(s.take(j as int).len() == j);
            }
            assert(vv.take(i + 1).drop_last() == vv.take(i as int));
            assert(vv.take(i + 1).last() == v@[i as int]@);
        }
        out.insert(j, x);
        proof {
            assert(entries_view(out@) =~= s.insert(j as int, x@));
        }
        i += 1;
    }
    proof {
        assert(vv.take(v.len() as int) == vv);
    }
    out
}

/// The configured resolvers of `config`, if it has a `[resolvers]` table.
pub open spec fn configured(config: LabToml) -> Option<Seq<(Seq<char>, Seq<char>, i32)>> {
    match config.resolvers {
        Some(v) => Some(tables_view(v@)),
        None => None,
    }
}

/// The resolvers that `config` sets up: the built-in ones, each configured
/// resolver replacing the one of its name or added after them, all ordered
/// by decreasing priority with ties in that order.
pub fn get_resolvers_from_config(config: &LabToml) -> (r: Vec<ResolverEntry>)
    ensures
        entries_view(r@) == spec_resolvers(configured(*config)),
{
    let mut resolvers = default_resolvers();
    if let Some(config_resolvers) = &config.resolvers {
        let ghost cfg = tables_view(config_resolvers@);
        let mut i: usize = 0;
        assert(cfg.take(0) =~= Seq::<(Seq<char>, Seq<char>, i32)>::empty());
        while i < config_resolvers.len()
            invariant
                i <= config_resolvers.len(),
                cfg == tables_view(config_resolvers@),
                entries_view(resolvers@) == add_all_configured(default_entries(), cfg.take(i as int)),
            decreases config_resolvers.len() - i,
        {
            let (name, table) = &config_resolvers[i];
            add_resolver(&mut resolvers, name, table);
            proof {
                assert(cfg.take(i + 1).drop_last() == cfg.take(i as int));
                assert(cfg.take(i + 1).last() == cfg[i as int]);
            }
            i += 1;
        }
        proof {
            assert(cfg.take(config_resolvers.len() as int) == cfg);
        }
    }
    sort_by_priority(&resolvers)
}


proof fn lemma_add_all_split(
    s: Seq<EntryView>,
    a: Seq<(Seq<char>, Seq<char>, i32)>,
    b: Seq<(Seq<char>, Seq<char>, i32)>,
)
    ensures
        add_all_configured(s, a + b) == add_all_configured(add_all_configured(s, a), b),
    decreases b.len(),
{
    if b.len() == 0 {
        assert(a + b =~= a);
    } else {
        assert((a + b).drop_last() =~= a + b.drop_last());
        assert((a + b).last() == b.last());
        lemma_add_all_split(s, a, b.drop_last());
    }
}

proof fn lemma_add_all_keeps(s: Seq<EntryView>, cfg: Seq<(Seq<char>, Seq<char>, i32)>, p: int)
    requires
        0 <= p < s.len(),
        forall|j: int| 0 <= j < cfg.len() ==> cfg[j].0 != s[p].name,
    ensures
        p < add_all_configured(s, cfg).len(),
        add_all_configured(s, cfg)[p] == s[p],
    decreases cfg.len(),
{
    if cfg.len() > 0 {
        lemma_add_all_keeps(s, cfg.drop_last(), p);
        let x = add_all_configured(s, cfg.drop_last());
        lemma_index_of_name_bounds(x, cfg.last().0);
    }
}

/// A configured resolver whose name is not configured again after it is
/// among the resolvers set up, with its url and priority.
pub proof fn lemma_configured_resolver_present(cfg: Seq<(Seq<char>, Seq<char>, i32)>, k: int)
    requires
        0 <= k < cfg.len(),
        forall|j: int| k < j < cfg.len() ==> cfg[j].0 != cfg[k].0,
    ensures
        spec_resolvers(Some(cfg)).contains(
            EntryView { name: cfg[k].0, source: SourceView::Net(cfg[k].1), priority: cfg[k].2 },
        ),
{
    broadcast use vstd::seq_lib::group_to_multiset_ensures;

    let e = EntryView { name: cfg[k].0, source: SourceView::Net(cfg[k].1), priority: cfg[k].2 };
    let x = add_all_configured(default_entries(), cfg.take(k));
    lemma_index_of_name_bounds(x, cfg[k].0);
    assert(cfg.take(k + 1).drop_last() == cfg.take(k));
    let y = add_all_configured(default_entries(), cfg.take(k + 1));
    let p = match index_of_name(x, cfg[k].0) {
        Some(i) => i,
        None => x.len() as int,
    };
    assert(y[p] == e);
    let rest = cfg.skip(k + 1);
    assert(cfg.take(k + 1) + rest =~= cfg);
    lemma_add_all_split(default_entries(), cfg.take(k + 1), rest);
    assert forall|j: int| 0 <= j < rest.len() implies rest[j].0 != y[p].name by {
        assert(rest[j] == cfg[k + 1 + j]);
    }
    lemma_add_all_keeps(y, rest, p);
    let z = add_all_configured(default_entries(), cfg);
    assert(z[p] == e);
    assert(z.contains(e));
    lemma_by_priority(z);
    assert(by_priority(z).to_multiset().count(e) > 0);
}

/// A built-in resolver that no configured resolver is named after is among
/// the resolvers set up, unchanged.
pub proof fn lemma_default_resolver_kept(cfg: Seq<(Seq<char>, Seq<char>, i32)>, p: int)
    requires
        0 <= p < default_entries().len(),
        forall|j: int| 0 <= j < cfg.len() ==> cfg[j].0 != default_entries()[p].name,
    ensures
        spec_resolvers(Some(cfg)).contains(default_entries()[p]),
{
    broadcast use vstd::seq_lib::group_to_multiset_ensures;

    lemma_add_all_keeps(default_entries(), cfg, p);
    let z = add_all_configured(default_entries(), cfg);
    assert(z.contains(default_entries()[p]));
    lemma_by_priority(z);
    assert(by_priority(z).to_multiset().count(default_entries()[p]) > 0);
}

/// The resolvers for the project whose configuration was read as `config`;
/// a configuration that could not be read is passed on as it came.
pub fn get_resolvers<E>(config: Result<LabToml, E>) -> (r: Result<Vec<ResolverEntry>, E>)
    ensures
        match config {
            Ok(c) => r matches Ok(v) && entries_view(v@) == spec_resolvers(configured(c)),
            Err(e) => r matches Err(x) && x == e,
        },
{
    match config {
        Ok(c) => Ok(get_resolvers_from_config(&c)),
        Err(e) => Err(e),
    }
}

/// A plugin to fetch: its name, where from and which version.
#[derive(Debug, PartialEq, Eq)]
pub struct PluginFetch {
    pub name: String,
    pub location: String,
    pub version: String,
}

/// The fetch of a configured plugin, taking `home` as its location where
/// the plugin gives none.
pub open spec fn plugin_fetch(p: (String, PluginTable), home: Seq<char>) -> (Seq<char>, Seq<char>, Seq<char>) {
    (p.0@, match p.1.location {
        Some(l) => l@,
        None => home,
    }, p.1.version@)
}

pub open spec fn fetches_view(s: Seq<PluginFetch>) -> Seq<(Seq<char>, Seq<char>, Seq<char>)> {
    s.map_values(|f: PluginFetch| (f.name@, f.location@, f.version@))
}

/// Whether some configured plugin gives no location of its own, so that it
/// is fetched from the Labt home.
pub open spec fn needs_home(ps: Seq<(String, PluginTable)>) -> bool {
    exists|i: int| 0 <= i < ps.len() && (#[trigger] ps[i]).1.location is None
}

/// The Labt home as far as it was found; nothing where it was not.
pub open spec fn home_view<E>(home: Result<String, E>) -> Seq<char> {
    match home {
        Ok(h) => h@,
        Err(_) => Seq::empty(),
    }
}

/// The plugins that the configuration asks for, in its order, each to be
/// fetched from its location or, where it gives none, from the Labt home.
/// The Labt home is consulted only for plugins that give no location: a home
/// that could not be found fails the whole only when such a plugin is
/// configured.
pub fn fetch_plugins_from_config<E>(config: &LabToml, home: Result<String, E>) -> (r: Result<Vec<PluginFetch>, E>)
    ensures
        match config.plugins {
            Some(ps) => match home {
                Err(e) if needs_home(ps@) => r matches Err(x) && x == e,
                _ => r matches Ok(v) && fetches_view(v@) == ps@.map_values(
                    |p: (String, PluginTable)| plugin_fetch(p, home_view(home)),
                ),
            },
            None => r matches Ok(v) && v@.len() == 0,
        },
{
    let mut out: Vec<PluginFetch> = Vec::new();
    match &config.plugins {
        Some(ps) => {
            let mut needed = false;
            let mut k: usize = 0;
            while k < ps.len()
                invariant
                    k <= ps.len(),
                    needed == exists|j: int| 0 <= j < k && (#[trigger] ps@[j]).1.location is None,
                decreases ps.len() - k,
            {
                if ps[k].1.location.is_none() {
                    needed = true;
                }
                k += 1;
            }
            let h = match home {
                Ok(h) => h,
                Err(e) => {
                    if needed {
                        return Err(e);
                    }
                    String::new()
                },
            };
            let ghost hv = home_view(home);
            assert(h@ == hv);
            let mut i: usize = 0;
            while i < ps.len()
                invariant
                    i <= ps.len(),
                    h@ == hv,
                    fetches_view(out@) == ps@.take(i as int).map_values(
                        |p: (String, PluginTable)| plugin_fetch(p, hv),
                    ),
                decreases ps.len() - i,
            {
                let (name, table) = &ps[i];
                let location = match &table.location {
                    Some(l) => l.clone(),
                    None => h.clone(),
                };
                let ghost before = out@;
                out.push(PluginFetch { name: name.clone(), location, version: table.version.clone() });
                proof {
                    assert(ps@.take(i + 1) =~= ps@.take(i as int).push(ps@[i as int]));
                    assert(fetches_view(out@) =~= fetches_view(before).push(plugin_fetch(ps@[i as int], hv)));
                }
                i += 1;
            }
            proof {
                assert(ps@.take(ps.len() as int) =~= ps@);
            }
            Ok(out)
        },
        None => Ok(out),
    }
}

} // verus!
