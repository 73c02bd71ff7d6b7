//! The lock file (`Labt.lock`): the resolved dependencies of a project, as
//! an array of `[[project]]` tables.
use vstd::prelude::*;
use crate::constraint::{Constraint, ConstraintView, RangeV};
use crate::pom::{Scope, ScopeView};
use crate::repository::lower_text;
use crate::resolve::{base_url_of, empty_dep, root_url, texts_view, ProjectDep, ProjectDepView};
use crate::assoc::{key_index, lemma_key_index, lemma_key_index_at, lemma_key_index_concat, lemma_key_index_none, pairs_view};
use crate::strs::{
    chars_of, find_char, find_char_in, lemma_find_char, push_char, split_first, str_eq,
    str_to_string, string_from, trim, trim_range, trim_start_char,
};
use crate::tomldoc::{
    entries_array, entries_str, item_array, item_str_or, item_table_like, item_tables,
    item_view, parse_toml, render_toml, table_get, toml_parsed, toml_rendered, value_str_or, values_view,
    tables_view, TomlError, TomlItem, TomlItemView, TomlTable, TomlTableView, TomlValue,
    TomlValueView,
};
use crate::version::{
    bare_version, lemma_bare_trim, lemma_range_text_round_trip, range_reads_back, range_text,
    spec_parse_range, RangeKind, RangeParseError, VersionRange,
};

verus! {

/// The resolved dependencies of a project.
#[derive(Debug)]
pub struct LabtLock {
    pub resolved: Vec<ProjectDep>,
}

pub open spec fn deps_view(s: Seq<ProjectDep>) -> Seq<ProjectDepView> {
    s.map_values(|d: ProjectDep| d@)
}

impl View for LabtLock {
    type V = Seq<ProjectDepView>;

    open spec fn view(&self) -> Seq<ProjectDepView> {
        deps_view(self.resolved@)
    }
}

impl Default for LabtLock {
    fn default() -> (r: Self)
        ensures
            r@ == Seq::<ProjectDepView>::empty(),
    {
        let r = LabtLock { resolved: Vec::new() };
        assert(r@ =~= Seq::<ProjectDepView>::empty());
        r
    }
}

/// A key that every `[[project]]` table must have.
#[derive(Clone, Copy, Debug, PartialEq, Eq)]
pub enum LockKey {
    ArtifactId,
    GroupId,
    Version,
    Url,
}

/// Why a lock file could not be read.
#[derive(Clone, Debug, PartialEq, Eq)]
pub enum LockError {
    /// The text is not TOML; `toml_edit`'s message.
    Toml(String),
    /// A `[[project]]` table lacks a key; the table's position.
    Missing(LockKey, usize),
    /// An excluded region has no end.
    NoExcludeEnd,
    /// The start of an excluded region is not a version range.
    BadExcludeStart(RangeParseError),
    /// The end of an excluded region is not a version range.
    BadExcludeEnd(RangeParseError),
}

/// The model of a lock error.
pub enum LockErrorView {
    Toml(Seq<char>),
    Missing(LockKey, usize),
    NoExcludeEnd,
    BadExcludeStart(RangeParseError),
    BadExcludeEnd(RangeParseError),
}

impl View for LockError {
    type V = LockErrorView;

    open spec fn view(&self) -> LockErrorView {
        match self {
            LockError::Toml(m) => LockErrorView::Toml(m@),
            LockError::Missing(k, p) => LockErrorView::Missing(*k, *p),
            LockError::NoExcludeEnd => LockErrorView::NoExcludeEnd,
            LockError::BadExcludeStart(e) => LockErrorView::BadExcludeStart(*e),
            LockError::BadExcludeEnd(e) => LockErrorView::BadExcludeEnd(*e),
        }
    }
}

/// The scope a lock file names: the six scope names in any case; any other
/// value stands for `compile`.
pub open spec fn lock_scope(s: Seq<char>) -> ScopeView {
    let l = lower_text(s);
    if l == "compile"@ {
        ScopeView::Compile
    } else if l == "test"@ {
        ScopeView::Test
    } else if l == "runtime"@ {
        ScopeView::Runtime
    } else if l == "system"@ {
        ScopeView::System
    } else if l == "provided"@ {
        ScopeView::Provided
    } else if l == "import"@ {
        ScopeView::Import
    } else {
        ScopeView::Compile
    }
}

/// A bound of a constraint as the lock file writes it: `=v` for an
/// inclusive bound, `v` for an exclusive one.
pub open spec fn bound_from_text(m: Option<Seq<char>>) -> Option<(bool, Seq<char>)> {
    match m {
        Some(t) => if t.len() > 0 && t[0] == '=' {
            Some((true, trim(trim_start_char(t, '='))))
        } else {
            Some((false, t))
        },
        None => None,
    }
}

/// An excluded region, written `start,end`.
pub open spec fn exclusion_from_text(t: Seq<char>) -> Result<(RangeV, RangeV), LockErrorView> {
    let (first, rest) = split_first(t, ',');
    match spec_parse_range(first) {
        Err(e) => Err(LockErrorView::BadExcludeStart(e)),
        Ok(start) => match rest {
            None => Err(LockErrorView::NoExcludeEnd),
            Some(r) => match spec_parse_range(split_first(r, ',').0) {
                Err(e) => Err(LockErrorView::BadExcludeEnd(e)),
                Ok(end) => Ok((start, end)),
            },
        },
    }
}

/// The excluded regions of the string values among `xs`, in order; other
/// values are passed over.
pub open spec fn exclusions_from(xs: Seq<TomlValueView>) -> Result<Seq<(RangeV, RangeV)>, LockErrorView>
    decreases xs.len(),
{
    if xs.len() == 0 {
        Ok(Seq::empty())
    } else {
        match exclusions_from(xs.drop_last()) {
            Err(e) => Err(e),
            Ok(ex) => match xs.last() {
                TomlValueView::Str(t) => match exclusion_from_text(t) {
                    Err(e) => Err(e),
                    Ok(p) => Ok(ex.push(p)),
                },
                _ => Ok(ex),
            },
        }
    }
}

/// The constraint of a `[[project]]` table, from its `constraints` table.
pub open spec fn constraint_from(i: Option<TomlItemView>) -> Result<Option<ConstraintView>, LockErrorView> {
    match i {
        None => Ok(None),
        Some(item) => match item_table_like(item) {
            None => Ok(None),
            Some(es) => {
                let ex = match entries_array(es, "excludes"@) {
                    Some(xs) => exclusions_from(xs),
                    None => Ok(Seq::empty()),
                };
                match ex {
                    Err(e) => Err(e),
                    Ok(exclusions) => if es.len() == 0 {
                        Ok(None)
                    } else {
                        Ok(
                            Some(
                                ConstraintView {
                                    min: bound_from_text(entries_str(es, "min"@)),
                                    max: bound_from_text(entries_str(es, "max"@)),
                                    exact: entries_str(es, "exact"@),
                                    exclusions: exclusions,
                                },
                            ),
                        )
                    },
                }
            },
        },
    }
}

/// The dependencies a `[[project]]` table lists.
pub open spec fn deps_from(i: Option<TomlItemView>) -> Seq<Seq<char>> {
    match i {
        Some(item) => match item_array(item) {
            Some(xs) => xs.map_values(|x: TomlValueView| value_str_or(x, Seq::empty())),
            None => Seq::empty(),
        },
        None => Seq::empty(),
    }
}

/// The dependency a `[[project]]` table describes.
pub open spec fn dep_from_table(t: TomlTableView) -> Result<ProjectDepView, LockErrorView> {
    let pos: usize = match t.position {
        Some(p) => p,
        None => 0,
    };
    match (
        table_get(t, "artifact_id"@),
        table_get(t, "group_id"@),
        table_get(t, "version"@),
        table_get(t, "url"@),
    ) {
        (None, _, _, _) => Err(LockErrorView::Missing(LockKey::ArtifactId, pos)),
        (Some(_), None, _, _) => Err(LockErrorView::Missing(LockKey::GroupId, pos)),
        (Some(_), Some(_), None, _) => Err(LockErrorView::Missing(LockKey::Version, pos)),
        (Some(_), Some(_), Some(_), None) => Err(LockErrorView::Missing(LockKey::Url, pos)),
        (Some(a), Some(g), Some(v), Some(u)) => {
            let d0 = ProjectDepView {
                artifact_id: item_str_or(a, Seq::empty()),
                group_id: item_str_or(g, Seq::empty()),
                version: item_str_or(v, Seq::empty()),
                scope: match table_get(t, "scope"@) {
                    Some(s) => lock_scope(item_str_or(s, "compile"@)),
                    None => ScopeView::Compile,
                },
                ..empty_dep()
            };
            match constraint_from(table_get(t, "constraints"@)) {
                Err(e) => Err(e),
                Ok(c) => Ok(
                    ProjectDepView {
                        base_url: base_url_of(d0, item_str_or(u, Seq::empty())),
                        packaging: match table_get(t, "packaging"@) {
                            Some(p) => item_str_or(p, "jar"@),
                            None => "jar"@,
                        },
                        dependencies: deps_from(table_get(t, "dependencies"@)),
                        constraints: c,
                        ..d0
                    },
                ),
            }
        },
    }
}

/// The dependencies of the tables `ts`, in order, or the first error.
pub open spec fn deps_from_tables(ts: Seq<TomlTableView>) -> Result<Seq<ProjectDepView>, LockErrorView>
    decreases ts.len(),
{
    if ts.len() == 0 {
        Ok(Seq::empty())
    } else {
        match deps_from_tables(ts.drop_last()) {
            Err(e) => Err(e),
            Ok(ds) => match dep_from_table(ts.last()) {
                Err(e) => Err(e),
                Ok(d) => Ok(ds.push(d)),
            },
        }
    }
}

/// What a lock document holds: the dependencies of its `[[project]]`
/// tables, or none when it has no such array of tables.
pub open spec fn lock_from_doc(doc: TomlTableView) -> Result<Seq<ProjectDepView>, LockErrorView> {
    match table_get(doc, "project"@) {
        Some(i) => match item_tables(i) {
            Some(ts) => deps_from_tables(ts),
            None => Ok(Seq::empty()),
        },
        None => Ok(Seq::empty()),
    }
}

/// What a lock file text holds.
pub open spec fn lock_from_text(s: Seq<char>) -> Result<Seq<ProjectDepView>, LockErrorView> {
    match toml_parsed(s) {
        Err(m) => Err(LockErrorView::Toml(m)),
        Ok(doc) => lock_from_doc(doc),
    }
}


/// Reads a bound of a constraint.
fn bound_from(m: Option<&String>) -> (r: Option<(bool, String)>)
    ensures
        crate::constraint::bound_view(r) == bound_from_text(match m {
            Some(t) => Some(t@),
            None => None,
        }),
{
    match m {
        None => None,
        Some(t) => {
            let v = chars_of(t.as_str());
            if v.len() > 0 && v[0] == '=' {
                let mut k: usize = 0;
                assert(v@.subrange(0, v@.len() as int) == v@);
                while k < v.len() && v[k] == '='
                    invariant
                        k <= v.len(),
                        trim_start_char(v@, '=') == trim_start_char(v@.subrange(k as int, v@.len() as int), '='),
                    decreases v.len() - k,
                {
                    let ghost rest = v@.subrange(k as int, v@.len() as int);
                    assert(rest.drop_first() == v@.subrange(k + 1, v@.len() as int));
                    k += 1;
                }
                let ghost rest = v@.subrange(k as int, v@.len() as int);
                assert(trim_start_char(rest, '=') == rest);
                let (lo, hi) = trim_range(&v, k, v.len());
                Some((true, string_from(&v, lo, hi)))
            } else {
                Some((false, t.clone()))
            }
        },
    }
}

/// The text before the first `,` of `v[from..]`, and where the text after
/// that `,` begins.
fn piece_from(v: &Vec<char>, from: usize) -> (r: (String, Option<usize>))
    requires
        from <= v.len(),
    ensures
        ({
            let (p, rest) = split_first(v@.subrange(from as int, v@.len() as int), ',');
            &&& r.0@ == p
            &&& match rest {
                Some(t) => r.1 matches Some(k) && from < k <= v.len() && t == v@.subrange(
                    k as int,
                    v@.len() as int,
                ),
                None => r.1 is None,
            }
        }),
{
    let len = v.len();
    let ghost t = v@.subrange(from as int, len as int);
    let c = find_char_in(v, from, len, ',');
    proof {
        lemma_find_char(t, ',');
    }
    let end = match c {
        Some(i) => i,
        None => len,
    };
    proof {
        if let Some(i) = c {
            assert(t.subrange(0, i - from) =~= v@.subrange(from as int, i as int));
            assert(t.subrange(i - from + 1, t.len() as int) =~= v@.subrange(i + 1, len as int));
        } else {
            assert(t =~= v@.subrange(from as int, end as int));
        }
    }
    let p = string_from(v, from, end);
    let rest = match c {
        Some(i) => Some(i + 1),
        None => None,
    };
    (p, rest)
}

/// Reads an excluded region `start,end`.
fn exclusion_from(t: &String) -> (r: Result<(VersionRange, VersionRange), LockError>)
    ensures
        match exclusion_from_text(t@) {
            Ok(p) => r matches Ok(x) && x.0@ == p.0 && x.1@ == p.1,
            Err(e) => r matches Err(x) && x@ == e,
        },
{
    let v = chars_of(t.as_str());
    assert(v@.subrange(0, v@.len() as int) == v@);
    let (first, rest) = piece_from(&v, 0);
    let start = match VersionRange::from_str(first.as_str()) {
        Ok(x) => x,
        Err(e) => {
            return Err(LockError::BadExcludeStart(e));
        },
    };
    let k = match rest {
        None => {
            return Err(LockError::NoExcludeEnd);
        },
        Some(k) => k,
    };
    let (second, _) = piece_from(&v, k);
    match VersionRange::from_str(second.as_str()) {
        Ok(x) => Ok((start, x)),
        Err(e) => Err(LockError::BadExcludeEnd(e)),
    }
}

pub proof fn lemma_exclusions_prefix(xs: Seq<TomlValueView>, n: int)
    requires
        0 <= n <= xs.len(),
        exclusions_from(xs.take(n)) is Err,
    ensures
        exclusions_from(xs) == exclusions_from(xs.take(n)),
    decreases xs.len() - n,
{
    if n < xs.len() {
        assert(xs.take(n + 1).drop_last() =~= xs.take(n));
        lemma_exclusions_prefix(xs, n + 1);
    } else {
        assert(xs.take(n) =~= xs);
    }
}

pub proof fn lemma_tables_prefix(ts: Seq<TomlTableView>, n: int)
    requires
        0 <= n <= ts.len(),
        deps_from_tables(ts.take(n)) is Err,
    ensures
        deps_from_tables(ts) == deps_from_tables(ts.take(n)),
    decreases ts.len() - n,
{
    if n < ts.len() {
        assert(ts.take(n + 1).drop_last() =~= ts.take(n));
        lemma_tables_prefix(ts, n + 1);
    } else {
        assert(ts.take(n) =~= ts);
    }
}

/// Reads the excluded regions of the string values among `xs`.
fn exclusions_from_values(xs: &Vec<TomlValue>) -> (r: Result<Vec<(VersionRange, VersionRange)>, LockError>)
    ensures
        match exclusions_from(values_view(xs@)) {
            Ok(ex) => r matches Ok(x) && crate::constraint::exclusions_view(x@) == ex,
            Err(e) => r matches Err(x) && x@ == e,
        },
{
    let mut out: Vec<(VersionRange, VersionRange)> = Vec::new();
    let mut i: usize = 0;
    while i < xs.len()
        invariant
            i <= xs.len(),
            exclusions_from(values_view(xs@.take(i as int))) matches Ok(ex)
                && crate::constraint::exclusions_view(out@) == ex,
        decreases xs.len() - i,
    {
        assert(values_view(xs@.take(i + 1)).drop_last() =~= values_view(xs@.take(i as int)));
        assert(values_view(xs@.take(i + 1)).last() == xs@[i as int]@);
        match xs[i].as_str() {
            Some(t) => {
                let p = match exclusion_from(t) {
                    Ok(p) => p,
                    Err(e) => {
                        proof {
                            assert(values_view(xs@.take(i + 1)) =~= values_view(xs@).take(i + 1));
                            lemma_exclusions_prefix(values_view(xs@), i + 1);
                            assert(values_view(xs@.take(xs.len() as int)) == values_view(xs@));
                        }
                        return Err(e);
                    },
                };
                out.push(p);
                assert(crate::constraint::exclusions_view(out@) =~= exclusions_from(
                    values_view(xs@.take(i + 1)),
                )->Ok_0);
            },
            None => {},
        }
        i += 1;
    }
    assert(xs@.take(xs.len() as int) == xs@);
    Ok(out)
}

/// Reads the constraint of a `[[project]]` table.
fn constraint_from_item(i: Option<&TomlItem>) -> (r: Result<Option<Constraint>, LockError>)
    ensures
        match constraint_from(match i {
            Some(x) => Some(x@),
            None => None,
        }) {
            Ok(c) => r matches Ok(x) && crate::resolve::opt_constraint(x) == c,
            Err(e) => r matches Err(x) && x@ == e,
        },
{
    let item = match i {
        None => {
            return Ok(None);
        },
        Some(x) => x,
    };
    if item_table_like_exec(item).is_none() {
        return Ok(None);
    }
    let exclusions = match item.like_array("excludes") {
        Some(xs) => exclusions_from_values(xs)?,
        None => {
            let e: Vec<(VersionRange, VersionRange)> = Vec::new();
            assert(crate::constraint::exclusions_view(e@) =~= Seq::<(RangeV, RangeV)>::empty());
            e
        },
    };
    if item.like_is_empty() {
        return Ok(None);
    }
    let min = bound_from(item.like_str("min"));
    let max = bound_from(item.like_str("max"));
    let exact = match item.like_str("exact") {
        Some(e) => Some(e.clone()),
        None => None,
    };
    Ok(Some(Constraint { min, max, exact, exclusions }))
}

/// Whether an item is a table or an inline table.
fn item_table_like_exec(i: &TomlItem) -> (r: Option<()>)
    ensures
        r is Some == item_table_like(i@) is Some,
{
    match i {
        TomlItem::Table(_) => Some(()),
        TomlItem::Value(TomlValue::Inline(_)) | TomlItem::LineValue(TomlValue::Inline(_)) => Some(()),
        _ => None,
    }
}

/// The scope a lock file names.
fn lock_scope_of(s: &str) -> (r: Scope)
    ensures
        r@ == lock_scope(s@),
{
    let v = chars_of(s);
    let mut lower: Vec<char> = Vec::new();
    let mut i: usize = 0;
    while i < v.len()
        invariant
            i <= v.len(),
            v@ == s@,
            lower@ == lower_text(v@.take(i as int)),
        decreases v.len() - i,
    {
        let c = v[i];
        let l = if 'A' <= c && c <= 'Z' {
            ((c as u32) + 32) as u8 as char
        } else {
            c
        };
        assert(l == crate::repository::ascii_lower(c));
        lower.push(l);
        assert(v@.take(i + 1) == v@.take(i as int).push(c));
        assert(lower_text(v@.take(i + 1)) =~= lower_text(v@.take(i as int)).push(
            crate::repository::ascii_lower(c),
        ));
        i += 1;
    }
    assert(v@.take(v.len() as int) == v@);
    let t = crate::strs::string_of(&lower);
    let ts = t.as_str();
    if str_eq(ts, "compile") {
        Scope::COMPILE
    } else if str_eq(ts, "test") {
        Scope::TEST
    } else if str_eq(ts, "runtime") {
        Scope::RUNTIME
    } else if str_eq(ts, "system") {
        Scope::SYSTEM
    } else if str_eq(ts, "provided") {
        Scope::PROVIDED
    } else if str_eq(ts, "import") {
        Scope::IMPORT
    } else {
        Scope::COMPILE
    }
}

/// The text of an item if it is a string value, else `default`.
fn str_or(i: &TomlItem, default: &str) -> (r: String)
    ensures
        r@ == item_str_or(i@, default@),
{
    match i.as_str() {
        Some(s) => s.clone(),
        None => str_to_string(default),
    }
}

/// Reads the dependency a `[[project]]` table describes.
fn dep_from(t: &TomlTable) -> (r: Result<ProjectDep, LockError>)
    ensures
        match dep_from_table(t@) {
            Ok(d) => r matches Ok(x) && x@ == d,
            Err(e) => r matches Err(x) && x@ == e,
        },
{
    let pos: usize = match t.position {
        Some(p) => p,
        None => 0,
    };
    let a = match t.get("artifact_id") {
        Some(x) => x,
        None => {
            return Err(LockError::Missing(LockKey::ArtifactId, pos));
        },
    };
    let g = match t.get("group_id") {
        Some(x) => x,
        None => {
            return Err(LockError::Missing(LockKey::GroupId, pos));
        },
    };
    let v = match t.get("version") {
        Some(x) => x,
        None => {
            return Err(LockError::Missing(LockKey::Version, pos));
        },
    };
    let u = match t.get("url") {
        Some(x) => x,
        None => {
            return Err(LockError::Missing(LockKey::Url, pos));
        },
    };
    let mut project = ProjectDep::default();
    project.artifact_id = str_or(a, "");
    project.group_id = str_or(g, "");
    project.version = str_or(v, "");
    proof {
        reveal_strlit("");
        assert(""@ =~= Seq::<char>::empty());
    }
    match t.get("scope") {
        Some(x) => {
            let st = str_or(x, "compile");
            project.scope = lock_scope_of(st.as_str());
        },
        None => {},
    }
    let ghost d0 = project@;
    let url = str_or(u, "");
    project.set_base_url_from_root(url);
    project.packaging = match t.get("packaging") {
        Some(x) => str_or(x, "jar"),
        None => str_to_string("jar"),
    };
    match t.get("dependencies") {
        Some(x) => match x.as_array() {
            Some(xs) => {
                let mut deps: Vec<String> = Vec::new();
                let mut k: usize = 0;
                while k < xs.len()
                    invariant
                        k <= xs.len(),
                        deps@.len() == k,
                        forall|j: int| 0 <= j < k ==> #[trigger] deps@[j]@ == value_str_or(xs@[j]@, Seq::empty()),
                    decreases xs.len() - k,
                {
                    let d = match xs[k].as_str() {
                        Some(s) => s.clone(),
                        None => String::new(),
                    };
                    deps.push(d);
                    k += 1;
                }
                assert(texts_view(deps@) =~= values_view(xs@).map_values(
                    |y: TomlValueView| value_str_or(y, Seq::empty()),
                ));
                project.dependencies = deps;
            },
            None => {},
        },
        None => {},
    }
    project.constraints = constraint_from_item(t.get("constraints"))?;
    Ok(project)
}

impl LabtLock {
    /// Reads the dependencies of a lock document.
    pub fn from_toml(doc: &TomlTable) -> (r: Result<LabtLock, LockError>)
        ensures
            match lock_from_doc(doc@) {
                Ok(ds) => r matches Ok(l) && l@ == ds,
                Err(e) => r matches Err(x) && x@ == e,
            },
    {
        let mut lock = LabtLock::default();
        let tables = match doc.get("project") {
            Some(i) => match i.as_tables() {
                Some(ts) => ts,
                None => {
                    return Ok(lock);
                },
            },
            None => {
                return Ok(lock);
            },
        };
        let mut i: usize = 0;
        while i < tables.len()
            invariant
                i <= tables.len(),
                lock_from_doc(doc@) == deps_from_tables(tables_view(tables@)),
                deps_from_tables(tables_view(tables@.take(i as int))) matches Ok(ds) && lock@ == ds,
            decreases tables.len() - i,
        {
            assert(tables_view(tables@.take(i + 1)).drop_last() =~= tables_view(tables@.take(i as int)));
            assert(tables_view(tables@.take(i + 1)).last() == tables@[i as int]@);
            let d = match dep_from(&tables[i]) {
                Ok(d) => d,
                Err(e) => {
                    proof {
                        assert(dep_from_table(tables@[i as int]@) == Err::<ProjectDepView, LockErrorView>(e@));
                        assert(deps_from_tables(tables_view(tables@.take(i + 1))) == Err::<Seq<ProjectDepView>, LockErrorView>(e@));
                        assert(tables_view(tables@.take(i + 1)) =~= tables_view(tables@).take(i + 1));
                        lemma_tables_prefix(tables_view(tables@), i + 1);
                        assert(tables_view(tables@.take(tables.len() as int)) == tables_view(tables@));
                    }
                    return Err(e);
                },
            };
            lock.resolved.push(d);
            assert(lock@ =~= deps_from_tables(tables_view(tables@.take(i + 1)))->Ok_0);
            i += 1;
        }
        assert(tables@.take(tables.len() as int) == tables@);
        Ok(lock)
    }

    /// Reads a lock file.
    pub fn from_str(s: &str) -> (r: Result<LabtLock, LockError>)
        ensures
            match lock_from_text(s@) {
                Ok(ds) => r matches Ok(l) && l@ == ds,
                Err(e) => r matches Err(x) && x@ == e,
            },
    {
        match parse_toml(s) {
            Ok(doc) => LabtLock::from_toml(&doc),
            Err(e) => Err(LockError::Toml(e.message)),
        }
    }
}

impl core::str::FromStr for LabtLock {
    type Err = LockError;

    fn from_str(s: &str) -> (r: Result<LabtLock, LockError>)
        ensures
            match lock_from_text(s@) {
                Ok(ds) => r matches Ok(l) && l@ == ds,
                Err(e) => r matches Err(x) && x@ == e,
            },
    {
        LabtLock::from_str(s)
    }
}


/// A bound as the lock file writes it.
pub open spec fn bound_text(inclusive: bool, v: Seq<char>) -> Seq<char> {
    if inclusive {
        seq!['='] + v
    } else {
        v
    }
}

/// An excluded region as the lock file writes it: `start,end`.
pub open spec fn exclusion_text(p: (RangeV, RangeV)) -> Seq<char> {
    range_text(p.0) + seq![','] + range_text(p.1)
}

/// The inline table a constraint is written as.
pub open spec fn constraint_entries(c: ConstraintView) -> Seq<(Seq<char>, TomlValueView)> {
    (match c.min {
        Some((inc, m)) => seq![("min"@, TomlValueView::Str(bound_text(inc, m)))],
        None => Seq::empty(),
    }) + (match c.max {
        Some((inc, m)) => seq![("max"@, TomlValueView::Str(bound_text(inc, m)))],
        None => Seq::empty(),
    }) + (match c.exact {
        Some(e) => seq![("exact"@, TomlValueView::Str(e))],
        None => Seq::empty(),
    }) + (if c.exclusions.len() > 0 {
        seq![
            ("excludes"@, TomlValueView::Array(
                c.exclusions.map_values(|p: (RangeV, RangeV)| TomlValueView::Str(exclusion_text(p))),
                Seq::empty(),
            )),
        ]
    } else {
        Seq::empty()
    })
}

/// The `[[project]]` table a dependency is written as.
pub open spec fn dep_table(d: ProjectDepView) -> TomlTableView {
    TomlTableView {
        entries: seq![
            ("artifact_id"@, TomlItemView::Value(TomlValueView::Str(d.artifact_id))),
            ("group_id"@, TomlItemView::Value(TomlValueView::Str(d.group_id))),
            ("version"@, TomlItemView::Value(TomlValueView::Str(d.version))),
            ("scope"@, TomlItemView::Value(TomlValueView::Str(crate::pom::scope_text(d.scope)))),
            ("url"@, TomlItemView::Value(TomlValueView::Str(root_url(d)))),
            ("packaging"@, TomlItemView::Value(TomlValueView::Str(d.packaging))),
        ] + (match d.constraints {
            Some(c) => seq![("constraints"@, TomlItemView::Value(TomlValueView::Inline(constraint_entries(c))))],
            None => Seq::empty(),
        }) + seq![
            ("dependencies"@, TomlItemView::LineValue(
                TomlValueView::Array(
                    d.dependencies.map_values(|t: Seq<char>| TomlValueView::Str(t)),
                    Seq::empty(),
                ),
            )),
        ],
        position: None,
    }
}

/// The lock document of a list of dependencies.
pub open spec fn lock_doc(ds: Seq<ProjectDepView>) -> TomlTableView {
    TomlTableView {
        entries: seq![("project"@, TomlItemView::Tables(ds.map_values(|d: ProjectDepView| dep_table(d))))],
        position: None,
    }
}

/// A value holding a copy of a text.
fn str_value(s: &str) -> (r: TomlValue)
    ensures
        r@ == TomlValueView::Str(s@),
{
    TomlValue::Str(str_to_string(s))
}

/// The inline table of a constraint.
fn constraint_inline(c: &Constraint) -> (r: Vec<(String, TomlValue)>)
    ensures
        pairs_view(r@) == constraint_entries(c@),
{
    let mut es: Vec<(String, TomlValue)> = Vec::new();
    let ghost e0 = pairs_view(es@);
    if let Some((inclusive, min)) = &c.min {
        let mut t = String::new();
        if *inclusive {
            push_char(&mut t, '=');
        }
        crate::strs::append_str(&mut t, min.as_str());
        es.push((str_to_string("min"), TomlValue::Str(t)));
    }
    let ghost e1 = pairs_view(es@);
    if let Some((inclusive, max)) = &c.max {
        let mut t = String::new();
        if *inclusive {
            push_char(&mut t, '=');
        }
        crate::strs::append_str(&mut t, max.as_str());
        es.push((str_to_string("max"), TomlValue::Str(t)));
    }
    let ghost e2 = pairs_view(es@);
    if let Some(exact) = &c.exact {
        es.push((str_to_string("exact"), TomlValue::Str(exact.clone())));
    }
    let ghost e3 = pairs_view(es@);
    if c.exclusions.len() > 0 {
        let mut xs: Vec<TomlValue> = Vec::new();
        let mut i: usize = 0;
        while i < c.exclusions.len()
            invariant
                i <= c.exclusions.len(),
                xs@.len() == i,
                forall|j: int| 0 <= j < i ==> #[trigger] xs@[j]@ == TomlValueView::Str(exclusion_text(c@.exclusions[j])),
            decreases c.exclusions.len() - i,
        {
            let (a, b) = &c.exclusions[i];
            let mut t = a.to_string();
            push_char(&mut t, ',');
            let u = b.to_string();
            crate::strs::append_str(&mut t, u.as_str());
            assert(c@.exclusions[i as int] == (a@, b@));
            assert(t@ =~= exclusion_text(c@.exclusions[i as int]));
            xs.push(TomlValue::Str(t));
            i += 1;
        }
        let shown: Vec<String> = Vec::new();
        proof {
            crate::tomldoc::lemma_array_view(xs, shown);
            assert(values_view(xs@) =~= c@.exclusions.map_values(|p: (RangeV, RangeV)| TomlValueView::Str(exclusion_text(p))));
            assert(shown@.map_values(|t: String| t@) =~= Seq::<Seq<char>>::empty());
        }
        es.push((str_to_string("excludes"), TomlValue::Array(xs, shown)));
    }
    proof {
        let x = c@;
        assert(e1 =~= e0 + (match x.min {
            Some((inc, m)) => seq![("min"@, TomlValueView::Str(bound_text(inc, m)))],
            None => Seq::empty(),
        }));
        assert(e2 =~= e1 + (match x.max {
            Some((inc, m)) => seq![("max"@, TomlValueView::Str(bound_text(inc, m)))],
            None => Seq::empty(),
        }));
        assert(e3 =~= e2 + (match x.exact {
            Some(e) => seq![("exact"@, TomlValueView::Str(e))],
            None => Seq::empty(),
        }));
        assert(pairs_view(es@) =~= constraint_entries(x));
    }
    es
}


/// The `[[project]]` table of a dependency.
fn dep_table_of(d: &ProjectDep) -> (r: TomlTable)
    ensures
        r@ == dep_table(d@),
{
    let mut es: Vec<(String, TomlItem)> = Vec::new();
    es.push((str_to_string("artifact_id"), TomlItem::Value(TomlValue::Str(d.artifact_id.clone()))));
    es.push((str_to_string("group_id"), TomlItem::Value(TomlValue::Str(d.group_id.clone()))));
    es.push((str_to_string("version"), TomlItem::Value(TomlValue::Str(d.version.clone()))));
    es.push((str_to_string("scope"), TomlItem::Value(TomlValue::Str(d.scope.to_string()))));
    es.push((str_to_string("url"), TomlItem::Value(TomlValue::Str(d.get_root_url()))));
    es.push((str_to_string("packaging"), TomlItem::Value(TomlValue::Str(d.packaging.clone()))));
    let ghost e6 = pairs_view(es@);
    if let Some(c) = &d.constraints {
        let inline = constraint_inline(c);
        proof {
            crate::tomldoc::lemma_inline_view(inline);
        }
        es.push((str_to_string("constraints"), TomlItem::Value(TomlValue::Inline(inline))));
    }
    let ghost e7 = pairs_view(es@);
    let mut xs: Vec<TomlValue> = Vec::new();
    let mut i: usize = 0;
    while i < d.dependencies.len()
        invariant
            i <= d.dependencies.len(),
            xs@.len() == i,
            forall|j: int| 0 <= j < i ==> #[trigger] xs@[j]@ == TomlValueView::Str(d.dependencies@[j]@),
        decreases d.dependencies.len() - i,
    {
        xs.push(TomlValue::Str(d.dependencies[i].clone()));
        i += 1;
    }
    let shown: Vec<String> = Vec::new();
    proof {
        crate::tomldoc::lemma_array_view(xs, shown);
        assert(values_view(xs@) =~= d@.dependencies.map_values(|t: Seq<char>| TomlValueView::Str(t)));
        assert(shown@.map_values(|t: String| t@) =~= Seq::<Seq<char>>::empty());
    }
    es.push((str_to_string("dependencies"), TomlItem::LineValue(TomlValue::Array(xs, shown))));
    let r = TomlTable { entries: es, position: None };
    proof {
        crate::tomldoc::lemma_table_entries(r);
        assert(e7 =~= e6 + (match d@.constraints {
            Some(c) => seq![("constraints"@, TomlItemView::Value(TomlValueView::Inline(constraint_entries(c))))],
            None => Seq::empty(),
        }));
        assert(r@.entries =~= dep_table(d@).entries);
    }
    r
}

impl LabtLock {
    /// The text of the lock file: a `[[project]]` table for each dependency.
    pub fn to_string(&self) -> (r: String)
        ensures
            r@ == toml_rendered(lock_doc(self@)),
    {
        let mut ts: Vec<TomlTable> = Vec::new();
        let mut i: usize = 0;
        while i < self.resolved.len()
            invariant
                i <= self.resolved.len(),
                ts@.len() == i,
                forall|j: int| 0 <= j < i ==> #[trigger] ts@[j]@ == dep_table(self.resolved@[j]@),
            decreases self.resolved.len() - i,
        {
            ts.push(dep_table_of(&self.resolved[i]));
            i += 1;
        }
        let mut es: Vec<(String, TomlItem)> = Vec::new();
        let ghost tv = tables_view(ts@);
        es.push((str_to_string("project"), TomlItem::Tables(ts)));
        let doc = TomlTable { entries: es, position: None };
        proof {
            crate::tomldoc::lemma_table_entries(doc);
            assert(tv =~= self@.map_values(|d: ProjectDepView| dep_table(d)));
            assert(item_view(TomlItem::Tables(ts))->Tables_0 =~= tv);
            assert(doc@.entries =~= lock_doc(self@).entries);
        }
        render_toml(&doc)
    }
}

/// A bound that reads back as itself: its version does not start with `=`,
/// and an inclusive one has no whitespace around it.
pub open spec fn bound_reads_back(b: Option<(bool, Seq<char>)>) -> bool {
    match b {
        Some((inc, m)) => (m.len() == 0 || m[0] != '=') && (inc ==> trim(m) == m),
        None => true,
    }
}

/// An excluded region that reads back as itself: both ranges read back and
/// their versions hold no `,`.
pub open spec fn exclusion_reads_back(p: (RangeV, RangeV)) -> bool {
    range_reads_back(p.0) && range_reads_back(p.1) && !p.0.1.contains(',') && !p.1.1.contains(',')
}

/// A constraint that reads back as itself: it sets something, and its
/// bounds and excluded regions read back.
pub open spec fn constraint_reads_back(c: ConstraintView) -> bool {
    &&& c.min is Some || c.max is Some || c.exact is Some || c.exclusions.len() > 0
    &&& bound_reads_back(c.min)
    &&& bound_reads_back(c.max)
    &&& forall|k: int| 0 <= k < c.exclusions.len() ==> exclusion_reads_back(#[trigger] c.exclusions[k])
}

/// A resolved dependency that the lock file gives back as it was written:
/// not a cache hit, of a known scope, with a base url that ends with `/`
/// and does not itself hold the package path, and with a constraint that
/// reads back.
pub open spec fn dep_reads_back(d: ProjectDepView) -> bool {
    &&& !d.cache_hit
    &&& !(d.scope is Unknown)
    &&& crate::resolve::base_url_reads_back(d)
    &&& match d.constraints {
        Some(c) => constraint_reads_back(c),
        None => true,
    }
}

proof fn lemma_bound_round_trip(b: Option<(bool, Seq<char>)>)
    requires
        bound_reads_back(b),
    ensures
        bound_from_text(match b {
            Some((inc, m)) => Some(bound_text(inc, m)),
            None => None,
        }) == b,
{
    if let Some((inc, m)) = b {
        if inc {
            let t = seq!['='] + m;
            assert(t.drop_first() =~= m);
            assert(crate::strs::trim_start_char(m, '=') == m);
            assert(crate::strs::trim_start_char(t, '=') == crate::strs::trim_start_char(t.drop_first(), '='));
        }
    }
}

proof fn lemma_range_text_no_comma(r: RangeV)
    requires
        !r.1.contains(','),
    ensures
        forall|j: int| 0 <= j < range_text(r).len() ==> range_text(r)[j] != ',',
{
    let t = range_text(r);
    assert forall|j: int| 0 <= j < t.len() implies t[j] != ',' by {
        let k: int = t.len() - r.1.len();
        if j >= k {
            assert(t[j] == r.1[j - k]);
        }
    }
}

proof fn lemma_exclusion_round_trip(p: (RangeV, RangeV))
    requires
        exclusion_reads_back(p),
    ensures
        exclusion_from_text(exclusion_text(p)) == Ok::<(RangeV, RangeV), LockErrorView>(p),
{
    let a = range_text(p.0);
    let b = range_text(p.1);
    let t = exclusion_text(p);
    lemma_range_text_no_comma(p.0);
    lemma_range_text_no_comma(p.1);
    assert(t[a.len() as int] == ',');
    assert forall|j: int| 0 <= j < a.len() implies t[j] != ',' by {
        assert(t[j] == a[j]);
    }
    crate::strs::lemma_find_char_at(t, ',', a.len() as int);
    assert(t.subrange(0, a.len() as int) =~= a);
    assert(t.subrange(a.len() as int + 1, t.len() as int) =~= b);
    crate::strs::lemma_find_char_none(b, ',');
    lemma_range_text_round_trip(p.0);
    lemma_range_text_round_trip(p.1);
}

proof fn lemma_exclusions_round_trip(ex: Seq<(RangeV, RangeV)>)
    requires
        forall|k: int| 0 <= k < ex.len() ==> exclusion_reads_back(#[trigger] ex[k]),
    ensures
        exclusions_from(ex.map_values(|p: (RangeV, RangeV)| TomlValueView::Str(exclusion_text(p))))
            == Ok::<Seq<(RangeV, RangeV)>, LockErrorView>(ex),
    decreases ex.len(),
{
    let xs = ex.map_values(|p: (RangeV, RangeV)| TomlValueView::Str(exclusion_text(p)));
    if ex.len() > 0 {
        let init = ex.drop_last();
        assert(xs.drop_last() =~= init.map_values(|p: (RangeV, RangeV)| TomlValueView::Str(exclusion_text(p))));
        assert forall|k: int| 0 <= k < init.len() implies exclusion_reads_back(#[trigger] init[k]) by {
            assert(init[k] == ex[k]);
        }
        lemma_exclusions_round_trip(init);
        assert(exclusion_reads_back(ex[ex.len() - 1]));
        lemma_exclusion_round_trip(ex.last());
        assert(init.push(ex.last()) =~= ex);
    } else {
        assert(ex =~= Seq::<(RangeV, RangeV)>::empty());
    }
}

proof fn lemma_single_key<V>(k: Seq<char>, v: V, key: Seq<char>)
    ensures
        key_index(seq![(k, v)], key) == (if k == key {
            Some(0int)
        } else {
            None
        }),
{
    lemma_key_index(seq![(k, v)], key);
}

proof fn lemma_constraint_round_trip(c: ConstraintView)
    requires
        constraint_reads_back(c),
    ensures
        constraint_from(Some(TomlItemView::Value(TomlValueView::Inline(constraint_entries(c)))))
            == Ok::<Option<ConstraintView>, LockErrorView>(Some(c)),
{
    reveal_strlit("min");
    reveal_strlit("max");
    reveal_strlit("exact");
    reveal_strlit("excludes");
    let f = |e: (Seq<char>, TomlValueView)| (e.0, TomlItemView::Value(e.1));
    let a: Seq<(Seq<char>, TomlValueView)> = match c.min {
        Some((inc, m)) => seq![("min"@, TomlValueView::Str(bound_text(inc, m)))],
        None => Seq::empty(),
    };
    let b: Seq<(Seq<char>, TomlValueView)> = match c.max {
        Some((inc, m)) => seq![("max"@, TomlValueView::Str(bound_text(inc, m)))],
        None => Seq::empty(),
    };
    let x: Seq<(Seq<char>, TomlValueView)> = match c.exact {
        Some(e) => seq![("exact"@, TomlValueView::Str(e))],
        None => Seq::empty(),
    };
    let d: Seq<(Seq<char>, TomlValueView)> = if c.exclusions.len() > 0 {
        seq![
            ("excludes"@, TomlValueView::Array(
                c.exclusions.map_values(|p: (RangeV, RangeV)| TomlValueView::Str(exclusion_text(p))),
                Seq::empty(),
            )),
        ]
    } else {
        Seq::empty()
    };
    assert(constraint_entries(c) == a + b + x + d);
    let ia = a.map_values(f);
    let ib = b.map_values(f);
    let ix = x.map_values(f);
    let id = d.map_values(f);
    let es = crate::tomldoc::inline_entries(constraint_entries(c));
    assert(es =~= ia + ib + ix + id);
    assert("min"@ != "max"@) by {
        assert("min"@[1] != "max"@[1]);
    }
    assert("exact"@ != "excludes"@) by {
        assert("exact"@[2] != "excludes"@[2]);
    }
    assert("min"@ != "exact"@ && "min"@ != "excludes"@ && "max"@ != "exact"@ && "max"@ != "excludes"@) by {
        assert("min"@[0] != "exact"@[0]);
        assert("max"@[0] != "exact"@[0]);
    }
    let keys = seq!["min"@, "max"@, "exact"@, "excludes"@];
    assert forall|i: int| 0 <= i < 4 implies #[trigger] key_index(ia, keys[i]) == (if ia.len() > 0 && i == 0 {
        Some(0int)
    } else {
        None
    }) by {
        if ia.len() > 0 {
            lemma_single_key(ia[0].0, ia[0].1, keys[i]);
            assert(ia =~= seq![(ia[0].0, ia[0].1)]);
        } else {
            lemma_key_index_none(ia, keys[i]);
        }
    }
    assert forall|i: int| 0 <= i < 4 implies #[trigger] key_index(ib, keys[i]) == (if ib.len() > 0 && i == 1 {
        Some(0int)
    } else {
        None
    }) by {
        if ib.len() > 0 {
            lemma_single_key(ib[0].0, ib[0].1, keys[i]);
            assert(ib =~= seq![(ib[0].0, ib[0].1)]);
        } else {
            lemma_key_index_none(ib, keys[i]);
        }
    }
    assert forall|i: int| 0 <= i < 4 implies #[trigger] key_index(ix, keys[i]) == (if ix.len() > 0 && i == 2 {
        Some(0int)
    } else {
        None
    }) by {
        if ix.len() > 0 {
            lemma_single_key(ix[0].0, ix[0].1, keys[i]);
            assert(ix =~= seq![(ix[0].0, ix[0].1)]);
        } else {
            lemma_key_index_none(ix, keys[i]);
        }
    }
    assert forall|i: int| 0 <= i < 4 implies #[trigger] key_index(id, keys[i]) == (if id.len() > 0 && i == 3 {
        Some(0int)
    } else {
        None
    }) by {
        if id.len() > 0 {
            lemma_single_key(id[0].0, id[0].1, keys[i]);
            assert(id =~= seq![(id[0].0, id[0].1)]);
        } else {
            lemma_key_index_none(id, keys[i]);
        }
    }
    assert forall|i: int| 0 <= i < 4 implies #[trigger] crate::assoc::assoc_get(es, keys[i]) == (if i == 0 {
        crate::assoc::assoc_get(ia, keys[i])
    } else if i == 1 {
        crate::assoc::assoc_get(ib, keys[i])
    } else if i == 2 {
        crate::assoc::assoc_get(ix, keys[i])
    } else {
        crate::assoc::assoc_get(id, keys[i])
    }) by {
        lemma_key_index_concat(ia, ib, keys[i]);
        lemma_key_index_concat(ia + ib, ix, keys[i]);
        lemma_key_index_concat(ia + ib + ix, id, keys[i]);
        assert(key_index(ia, keys[i]) == (if ia.len() > 0 && i == 0 { Some(0int) } else { None }));
        assert(key_index(ib, keys[i]) == (if ib.len() > 0 && i == 1 { Some(0int) } else { None }));
        assert(key_index(ix, keys[i]) == (if ix.len() > 0 && i == 2 { Some(0int) } else { None }));
        assert(key_index(id, keys[i]) == (if id.len() > 0 && i == 3 { Some(0int) } else { None }));
    }
    assert(crate::assoc::assoc_get(es, keys[0]) == crate::assoc::assoc_get(ia, keys[0]));
    assert(crate::assoc::assoc_get(es, keys[1]) == crate::assoc::assoc_get(ib, keys[1]));
    assert(crate::assoc::assoc_get(es, keys[2]) == crate::assoc::assoc_get(ix, keys[2]));
    assert(crate::assoc::assoc_get(es, keys[3]) == crate::assoc::assoc_get(id, keys[3]));
    assert(key_index(ia, keys[0]) == (if ia.len() > 0 { Some(0int) } else { None }));
    assert(key_index(ib, keys[1]) == (if ib.len() > 0 { Some(0int) } else { None }));
    assert(key_index(ix, keys[2]) == (if ix.len() > 0 { Some(0int) } else { None }));
    assert(key_index(id, keys[3]) == (if id.len() > 0 { Some(0int) } else { None }));
    lemma_bound_round_trip(c.min);
    lemma_bound_round_trip(c.max);
    lemma_exclusions_round_trip(c.exclusions);
    assert(es.len() > 0);
}

proof fn lemma_scope_round_trip(sc: ScopeView)
    requires
        !(sc is Unknown),
    ensures
        lock_scope(crate::pom::scope_text(sc)) == sc,
{
    reveal_strlit("compile");
    reveal_strlit("test");
    reveal_strlit("runtime");
    reveal_strlit("system");
    reveal_strlit("provided");
    reveal_strlit("import");
    assert(lower_text("compile"@) =~= "compile"@);
    assert(lower_text("test"@) =~= "test"@);
    assert(lower_text("runtime"@) =~= "runtime"@);
    assert(lower_text("system"@) =~= "system"@);
    assert(lower_text("provided"@) =~= "provided"@);
    assert(lower_text("import"@) =~= "import"@);
    assert("system"@ != "compile"@ && "system"@ != "runtime"@) by {
        assert("system"@[0] != "compile"@[0] && "system"@[0] != "runtime"@[0]);
    }
    assert("provided"@ != "compile"@ && "provided"@ != "runtime"@ && "provided"@ != "system"@) by {
        assert("provided"@[0] != "compile"@[0] && "provided"@[0] != "runtime"@[0] && "provided"@[0] != "system"@[0]);
    }
    assert("import"@ != "compile"@ && "import"@ != "runtime"@ && "import"@ != "system"@ && "import"@ != "provided"@) by {
        assert("import"@[0] != "compile"@[0] && "import"@[0] != "runtime"@[0] && "import"@[0] != "system"@[0] && "import"@[0] != "provided"@[0]);
    }
    assert("runtime"@ != "compile"@ && "runtime"@ != "test"@) by {
        assert("runtime"@[0] != "compile"@[0] && "runtime"@[0] != "test"@[0]);
    }
}

proof fn lemma_dep_round_trip(d: ProjectDepView)
    requires
        dep_reads_back(d),
    ensures
        dep_from_table(dep_table(d)) == Ok::<ProjectDepView, LockErrorView>(d),
{
    reveal_strlit("artifact_id");
    reveal_strlit("group_id");
    reveal_strlit("version");
    reveal_strlit("scope");
    reveal_strlit("url");
    reveal_strlit("packaging");
    reveal_strlit("constraints");
    reveal_strlit("dependencies");
    reveal_strlit("/");
    let t = dep_table(d);
    let e = t.entries;
    let keys = seq![
        "artifact_id"@,
        "group_id"@,
        "version"@,
        "scope"@,
        "url"@,
        "packaging"@,
        "constraints"@,
        "dependencies"@,
    ];
    assert forall|i: int, j: int| 0 <= i < 8 && 0 <= j < 8 && i != j implies keys[i] != keys[j] by {
        assert(keys[i][0] != keys[j][0]);
    }
    assert forall|i: int| 0 <= i < 6 implies e[i].0 == keys[i] by {}
    let n: int = if d.constraints is Some { 7 } else { 6 };
    assert(e.len() == n + 1);
    assert(e[n].0 == keys[7]);
    assert forall|i: int| 0 <= i <= n implies (e[i].0 == keys[i] || (i == n && e[i].0 == keys[7])) by {}
    assert forall|k: int| 0 <= k < 6 implies #[trigger] table_get(t, keys[k]) == Some(e[k].1) by {
        assert forall|j: int| 0 <= j < k implies e[j].0 != keys[k] by {
            assert(e[j].0 == keys[j]);
        }
        lemma_key_index_at(e, keys[k], k);
    }
    assert forall|j: int| 0 <= j < n implies e[j].0 != keys[7] by {
        if j < 6 {
            assert(e[j].0 == keys[j]);
        } else {
            assert(e[j].0 == keys[6]);
        }
    }
    lemma_key_index_at(e, keys[7], n);
    if d.constraints is Some {
        assert(e[6].0 == keys[6]);
        assert forall|j: int| 0 <= j < 6 implies e[j].0 != keys[6] by {
            assert(e[j].0 == keys[j]);
        }
        lemma_key_index_at(e, keys[6], 6);
    } else {
        assert forall|j: int| 0 <= j < e.len() implies e[j].0 != keys[6] by {
            if j < 6 {
                assert(e[j].0 == keys[j]);
            } else {
                assert(e[j].0 == keys[7]);
            }
        }
        lemma_key_index_none(e, keys[6]);
    }
    assert(table_get(t, "artifact_id"@) == Some(e[0].1));
    assert(table_get(t, "group_id"@) == Some(e[1].1));
    assert(table_get(t, "version"@) == Some(e[2].1));
    assert(table_get(t, "scope"@) == Some(e[3].1));
    assert(table_get(t, "url"@) == Some(e[4].1));
    assert(table_get(t, "packaging"@) == Some(e[5].1));
    lemma_scope_round_trip(d.scope);
    match d.constraints {
        Some(c) => lemma_constraint_round_trip(c),
        None => {},
    }
    crate::resolve::lemma_base_url_round_trip(d);
    let xs = d.dependencies.map_values(|t: Seq<char>| TomlValueView::Str(t));
    assert(xs.map_values(|x: TomlValueView| value_str_or(x, Seq::empty())) =~= d.dependencies);
}

proof fn lemma_deps_round_trip(ds: Seq<ProjectDepView>)
    requires
        forall|k: int| 0 <= k < ds.len() ==> dep_reads_back(#[trigger] ds[k]),
    ensures
        deps_from_tables(ds.map_values(|d: ProjectDepView| dep_table(d))) == Ok::<
            Seq<ProjectDepView>,
            LockErrorView,
        >(ds),
    decreases ds.len(),
{
    if ds.len() > 0 {
        let ts = ds.map_values(|d: ProjectDepView| dep_table(d));
        let init = ds.drop_last();
        assert(ts.drop_last() =~= init.map_values(|d: ProjectDepView| dep_table(d)));
        assert forall|k: int| 0 <= k < init.len() implies dep_reads_back(#[trigger] init[k]) by {
            assert(init[k] == ds[k]);
        }
        lemma_deps_round_trip(init);
        assert(dep_reads_back(ds[ds.len() - 1]));
        lemma_dep_round_trip(ds.last());
        assert(init.push(ds.last()) =~= ds);
    } else {
        assert(ds =~= Seq::<ProjectDepView>::empty());
    }
}

/// The lock document written for a list of resolved dependencies reads
/// back as that list, where each dependency is one that the lock file gives
/// back as written (see `dep_reads_back`).
pub proof fn lemma_lock_doc_round_trip(ds: Seq<ProjectDepView>)
    requires
        forall|k: int| 0 <= k < ds.len() ==> dep_reads_back(#[trigger] ds[k]),
    ensures
        lock_from_doc(lock_doc(ds)) == Ok::<Seq<ProjectDepView>, LockErrorView>(ds),
{
    reveal_strlit("project");
    let doc = lock_doc(ds);
    lemma_key_index_at(doc.entries, "project"@, 0);
    lemma_deps_round_trip(ds);
}

} // verus!
