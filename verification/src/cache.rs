//! The cache of fetched files under the LABt home: where each file of a
//! project goes, and the properties file that records what was resolved
//! for a project.
use vstd::prelude::*;
use crate::paths::{path_join, push_path};
use crate::resolve::{texts_view, ProjectDep, ProjectDepView};
use crate::strs::{append_str, str_eq, str_to_string};
use crate::tomldoc::{
    item_array, item_str, parse_toml, render_toml, table_get, toml_parsed, toml_rendered,
    values_view, TomlItem, TomlItemView, TomlTable, TomlTableView, TomlValue, TomlValueView,
};

verus! {

/// The kind of a cached file.
#[derive(Debug, PartialEq, Eq)]
pub enum CacheType {
    POM,
    AAR,
    JAR,
    SOURCE,
    PROPERTIES,
    UNKNOWN(String),
}

pub enum CacheTypeView {
    POM,
    AAR,
    JAR,
    SOURCE,
    PROPERTIES,
    UNKNOWN(Seq<char>),
}

impl View for CacheType {
    type V = CacheTypeView;

    open spec fn view(&self) -> CacheTypeView {
        match self {
            CacheType::POM => CacheTypeView::POM,
            CacheType::AAR => CacheTypeView::AAR,
            CacheType::JAR => CacheTypeView::JAR,
            CacheType::SOURCE => CacheTypeView::SOURCE,
            CacheType::PROPERTIES => CacheTypeView::PROPERTIES,
            CacheType::UNKNOWN(s) => CacheTypeView::UNKNOWN(s@),
        }
    }
}

/// The kind of file a packaging name stands for.
pub open spec fn cache_type_from(s: Seq<char>) -> CacheTypeView {
    if s == "pom"@ {
        CacheTypeView::POM
    } else if s == "aar"@ {
        CacheTypeView::AAR
    } else if s == "jar"@ {
        CacheTypeView::JAR
    } else if s == "source"@ {
        CacheTypeView::SOURCE
    } else if s == "toml"@ {
        CacheTypeView::PROPERTIES
    } else {
        CacheTypeView::UNKNOWN(s)
    }
}

/// The name of the cached file of kind `t` of version `version` of
/// `artifact`.
pub open spec fn cache_file_name(artifact: Seq<char>, version: Seq<char>, t: CacheTypeView) -> Seq<char> {
    let stem = artifact + "-"@ + version;
    match t {
        CacheTypeView::POM => stem + ".pom"@,
        CacheTypeView::AAR => stem + ".aar"@,
        CacheTypeView::JAR => stem + ".jar"@,
        CacheTypeView::SOURCE => stem + "-source.jar"@,
        CacheTypeView::UNKNOWN(ext) => stem + "."@ + ext,
        CacheTypeView::PROPERTIES => stem + ".toml"@,
    }
}

impl Clone for CacheType {
    fn clone(&self) -> (r: Self)
        ensures
            r == *self,
    {
        match self {
            CacheType::POM => CacheType::POM,
            CacheType::AAR => CacheType::AAR,
            CacheType::JAR => CacheType::JAR,
            CacheType::SOURCE => CacheType::SOURCE,
            CacheType::PROPERTIES => CacheType::PROPERTIES,
            CacheType::UNKNOWN(s) => CacheType::UNKNOWN(s.clone()),
        }
    }
}

impl CacheType {
    /// The kind of file a packaging name stands for.
    pub fn from_packaging(value: String) -> (r: CacheType)
        ensures
            r@ == cache_type_from(value@),
    {
        if str_eq(value.as_str(), "pom") {
            CacheType::POM
        } else if str_eq(value.as_str(), "aar") {
            CacheType::AAR
        } else if str_eq(value.as_str(), "jar") {
            CacheType::JAR
        } else if str_eq(value.as_str(), "source") {
            CacheType::SOURCE
        } else if str_eq(value.as_str(), "toml") {
            CacheType::PROPERTIES
        } else {
            CacheType::UNKNOWN(value)
        }
    }
}

/// A cached file: the project it belongs to, its kind, and the cache
/// directory it is under, once that is known.
#[derive(Debug)]
pub struct Cache {
    group_id: String,
    artifact_id: String,
    version: String,
    cache_type: CacheType,
    path: Option<String>,
}

/// The model of a cache entry.
pub struct CacheView {
    pub group_id: Seq<char>,
    pub artifact_id: Seq<char>,
    pub version: Seq<char>,
    pub cache_type: CacheTypeView,
    pub path: Option<Seq<char>>,
}

impl View for Cache {
    type V = CacheView;

    closed spec fn view(&self) -> CacheView {
        CacheView {
            group_id: self.group_id@,
            artifact_id: self.artifact_id@,
            version: self.version@,
            cache_type: self.cache_type@,
            path: match self.path {
                Some(p) => Some(p@),
                None => None,
            },
        }
    }
}

/// The cache directory has not been set.
#[derive(Debug, Clone, Copy, PartialEq, Eq)]
pub struct NoCacheDir;

/// Where the file of a cache entry is: under the cache directory, in the
/// directories of its group, artifact and version.
pub open spec fn cache_file_path(c: CacheView, base: Seq<char>) -> Seq<char> {
    path_join(
        path_join(path_join(path_join(base, c.group_id), c.artifact_id), c.version),
        cache_file_name(c.artifact_id, c.version, c.cache_type),
    )
}

impl Cache {
    pub fn new(group_id: String, artifact_id: String, version: String, cache_type: CacheType) -> (r: Cache)
        ensures
            r@ == (CacheView {
                group_id: group_id@,
                artifact_id: artifact_id@,
                version: version@,
                cache_type: cache_type@,
                path: None,
            }),
    {
        Cache { group_id, artifact_id, version, cache_type, path: None }
    }

    /// The cache entry of the file of a resolved dependency, of the kind its
    /// packaging names.
    pub fn from_dep(value: &ProjectDep) -> (r: Cache)
        ensures
            r@ == (CacheView {
                group_id: value.group_id@,
                artifact_id: value.artifact_id@,
                version: value.version@,
                cache_type: cache_type_from(value.packaging@),
                path: None,
            }),
    {
        Cache::new(
            value.group_id.clone(),
            value.artifact_id.clone(),
            value.version.clone(),
            CacheType::from_packaging(value.packaging.clone()),
        )
    }

    /// The same entry with no file behind it.
    pub fn from_cache(cache: &Cache) -> (r: Cache)
        ensures
            r@ == cache@,
    {
        Cache {
            group_id: cache.group_id.clone(),
            artifact_id: cache.artifact_id.clone(),
            version: cache.version.clone(),
            cache_type: cache.cache_type.clone(),
            path: match &cache.path {
                Some(p) => Some(p.clone()),
                None => None,
            },
        }
    }

    pub fn get_cache_path(&self) -> (r: Option<String>)
        ensures
            match r {
                Some(p) => self@.path == Some(p@),
                None => self@.path is None,
            },
    {
        match &self.path {
            Some(p) => Some(p.clone()),
            None => None,
        }
    }

    pub fn set_cache_path(&mut self, path: Option<String>)
        ensures
            final(self)@ == (CacheView {
                path: match path {
                    Some(p) => Some(p@),
                    None => None,
                },
                ..old(self)@
            }),
    {
        self.path = path;
    }

    /// Puts the entry under the `cache` directory of the LABt home `home`.
    pub fn use_labt_home(&mut self, home: &str)
        ensures
            final(self)@ == (CacheView { path: Some(path_join(home@, "cache"@)), ..old(self)@ }),
    {
        let mut p = str_to_string(home);
        push_path(&mut p, "cache");
        self.path = Some(p);
    }

    /// The name of the cached file: `artifact-version` and the extension of
    /// its kind.
    pub fn get_name_from_type(&self) -> (r: String)
        ensures
            r@ == cache_file_name(self@.artifact_id, self@.version, self@.cache_type),
    {
        let mut s = self.artifact_id.clone();
        append_str(&mut s, "-");
        append_str(&mut s, self.version.as_str());
        match &self.cache_type {
            CacheType::POM => append_str(&mut s, ".pom"),
            CacheType::AAR => append_str(&mut s, ".aar"),
            CacheType::JAR => append_str(&mut s, ".jar"),
            CacheType::SOURCE => append_str(&mut s, "-source.jar"),
            CacheType::UNKNOWN(ext) => {
                append_str(&mut s, ".");
                append_str(&mut s, ext.as_str());
            },
            CacheType::PROPERTIES => append_str(&mut s, ".toml"),
        }
        s
    }

    /// Where the cached file is expected to be; an error where the cache
    /// directory has not been set.
    pub fn get_path(&self) -> (r: Result<String, NoCacheDir>)
        ensures
            match self@.path {
                Some(base) => r matches Ok(p) && p@ == cache_file_path(self@, base),
                None => r == Err::<String, NoCacheDir>(NoCacheDir),
            },
    {
        match &self.path {
            None => Err(NoCacheDir),
            Some(base) => {
                let mut p = base.clone();
                push_path(&mut p, self.group_id.as_str());
                push_path(&mut p, self.artifact_id.as_str());
                push_path(&mut p, self.version.as_str());
                let name = self.get_name_from_type();
                push_path(&mut p, name.as_str());
                Ok(p)
            },
        }
    }
}

/// Why the properties of a cached project could not be read.
#[derive(Debug, Clone, PartialEq, Eq)]
pub enum PropertiesError {
    ParseError,
    IOError(String),
    LabtHomeError,
    LabtVersionError,
}

/// The message of a properties error.
pub open spec fn properties_error_text(e: PropertiesError) -> Seq<char> {
    match e {
        PropertiesError::LabtHomeError => "Labt home not initialized therefore missing cache folder\n"@,
        PropertiesError::ParseError => "Failed to parse properties toml file\n"@,
        PropertiesError::IOError(msg) => msg@ + "\n"@,
        PropertiesError::LabtVersionError => "Current labt version is incompatible with properties version.\n"@,
    }
}

impl PropertiesError {
    /// The message of the error.
    pub fn to_string(&self) -> (r: String)
        ensures
            r@ == properties_error_text(*self),
    {
        match self {
            PropertiesError::LabtHomeError => str_to_string(
                "Labt home not initialized therefore missing cache folder\n",
            ),
            PropertiesError::ParseError => str_to_string("Failed to parse properties toml file\n"),
            PropertiesError::IOError(msg) => {
                let mut s = msg.clone();
                append_str(&mut s, "\n");
                s
            },
            PropertiesError::LabtVersionError => str_to_string(
                "Current labt version is incompatible with properties version.\n",
            ),
        }
    }
}

pub open spec fn text_item(t: Seq<char>) -> TomlItemView {
    TomlItemView::Value(TomlValueView::Str(t))
}

/// The properties a project is cached with: the version of LABt that wrote
/// them, its coordinates, the url it was fetched from, its packaging and
/// its dependencies.
pub open spec fn properties_table(p: ProjectDepView, labt_version: Seq<char>) -> TomlTableView {
    TomlTableView {
        entries: seq![
            ("labt_version"@, text_item(labt_version)),
            ("group_id"@, text_item(p.group_id)),
            ("artifact_id"@, text_item(p.artifact_id)),
            ("version"@, text_item(p.version)),
            ("url"@, text_item(p.base_url)),
            ("packaging"@, text_item(p.packaging)),
            (
                "dependencies"@,
                TomlItemView::Value(
                    TomlValueView::Array(
                        p.dependencies.map_values(|d: Seq<char>| TomlValueView::Str(d)),
                        Seq::empty(),
                    ),
                ),
            ),
        ],
        position: None,
    }
}

/// The text of a value that should be a string, `""` where it is not one.
pub open spec fn value_text_or_empty(v: TomlValueView) -> Seq<char> {
    match v {
        TomlValueView::Str(s) => s,
        _ => Seq::empty(),
    }
}

/// The project after reading cached properties into it: its url, its
/// packaging (`jar` where it is not a text) and its dependencies, where the
/// properties have them. Unless told to ignore it, properties written by
/// another version of LABt are refused.
pub open spec fn apply_properties(
    p: ProjectDepView,
    doc: TomlTableView,
    labt_version: Seq<char>,
    ignore_version: bool,
) -> Result<ProjectDepView, PropertiesError> {
    let version_ok = ignore_version || match table_get(doc, "labt_version"@) {
        Some(i) => match item_str(i) {
            Some(v) => v == labt_version,
            None => Seq::<char>::empty() == labt_version,
        },
        None => true,
    };
    if !version_ok {
        Err(PropertiesError::LabtVersionError)
    } else {
        let url = match table_get(doc, "url"@) {
            Some(i) => match item_str(i) {
                Some(u) => u,
                None => Seq::empty(),
            },
            None => p.base_url,
        };
        let packaging = match table_get(doc, "packaging"@) {
            Some(i) => match item_str(i) {
                Some(k) => k,
                None => "jar"@,
            },
            None => p.packaging,
        };
        let dependencies = match table_get(doc, "dependencies"@) {
            Some(i) => match item_array(i) {
                Some(vs) => vs.map_values(|v: TomlValueView| value_text_or_empty(v)),
                None => p.dependencies,
            },
            None => p.dependencies,
        };
        Ok(ProjectDepView { base_url: url, packaging, dependencies, ..p })
    }
}

/// The project after reading the cached properties text `s` into it.
pub open spec fn apply_properties_text(
    p: ProjectDepView,
    s: Seq<char>,
    labt_version: Seq<char>,
    ignore_version: bool,
) -> Result<ProjectDepView, PropertiesError> {
    match toml_parsed(s) {
        Err(_) => Err(PropertiesError::ParseError),
        Ok(doc) => apply_properties(p, doc, labt_version, ignore_version),
    }
}

fn text_entry(key: &str, value: String) -> (r: (String, TomlItem))
    ensures
        r.0@ == key@,
        r.1@ == text_item(value@),
{
    (str_to_string(key), TomlItem::Value(TomlValue::Str(value)))
}

/// The document of the properties a project is cached with.
pub fn properties_doc(project: &ProjectDep, labt_version: &str) -> (doc: TomlTable)
    ensures
        doc@ == properties_table(project@, labt_version@),
{
    let mut xs: Vec<TomlValue> = Vec::new();
    let mut i: usize = 0;
    while i < project.dependencies.len()
        invariant
            i <= project.dependencies.len(),
            xs@.len() == i,
            forall|j: int| 0 <= j < i ==> #[trigger] xs@[j]@ == TomlValueView::Str(project.dependencies@[j]@),
        decreases project.dependencies.len() - i,
    {
        xs.push(TomlValue::Str(project.dependencies[i].clone()));
        i += 1;
    }
    let shown: Vec<String> = Vec::new();
    proof {
        crate::tomldoc::lemma_array_view(xs, shown);
        assert(values_view(xs@) =~= project@.dependencies.map_values(|d: Seq<char>| TomlValueView::Str(d)));
        assert(shown@.map_values(|t: String| t@) =~= Seq::<Seq<char>>::empty());
    }
    let mut es: Vec<(String, TomlItem)> = Vec::new();
    es.push(text_entry("labt_version", str_to_string(labt_version)));
    es.push(text_entry("group_id", project.group_id.clone()));
    es.push(text_entry("artifact_id", project.artifact_id.clone()));
    es.push(text_entry("version", project.version.clone()));
    es.push(text_entry("url", project.base_url.clone()));
    es.push(text_entry("packaging", project.packaging.clone()));
    es.push((str_to_string("dependencies"), TomlItem::Value(TomlValue::Array(xs, shown))));
    let doc = TomlTable { entries: es, position: None };
    proof {
        crate::tomldoc::lemma_table_entries(doc);
        assert(doc@.entries =~= properties_table(project@, labt_version@).entries);
    }
    doc
}

/// The text of the properties a project is cached with.
pub fn properties_text(project: &ProjectDep, labt_version: &str) -> (r: String)
    ensures
        r@ == toml_rendered(properties_table(project@, labt_version@)),
{
    render_toml(&properties_doc(project, labt_version))
}

/// Reads cached properties into `project`; on an error the project is left
/// as it was.
pub fn read_properties_doc(
    project: &mut ProjectDep,
    doc: &TomlTable,
    labt_version: &str,
    ignore_version: bool,
) -> (r: Result<(), PropertiesError>)
    ensures
        match apply_properties(old(project)@, doc@, labt_version@, ignore_version) {
            Ok(p) => r is Ok && final(project)@ == p,
            Err(e) => r == Err::<(), PropertiesError>(e) && final(project)@ == old(project)@,
        },
{
    proof {
        reveal_strlit("");
        assert(""@ =~= Seq::<char>::empty());
    }
    let ghost p0 = project@;
    if !ignore_version {
        if let Some(v) = doc.get("labt_version") {
            let same = match v.as_str() {
                Some(s) => str_eq(s.as_str(), labt_version),
                None => str_eq("", labt_version),
            };
            if !same {
                return Err(PropertiesError::LabtVersionError);
            }
        }
    }
    if let Some(url) = doc.get("url") {
        project.base_url = match url.as_str() {
            Some(u) => u.clone(),
            None => String::new(),
        };
    }
    if let Some(packaging) = doc.get("packaging") {
        project.packaging = match packaging.as_str() {
            Some(k) => k.clone(),
            None => str_to_string("jar"),
        };
    }
    if let Some(dependencies) = doc.get("dependencies") {
        if let Some(array) = dependencies.as_array() {
            let mut deps: Vec<String> = Vec::new();
            let mut i: usize = 0;
            while i < array.len()
                invariant
                    i <= array.len(),
                    deps@.len() == i,
                    forall|j: int|
                        0 <= j < i ==> #[trigger] deps@[j]@ == value_text_or_empty(array@[j]@),
                decreases array.len() - i,
            {
                let d = match array[i].as_str() {
                    Some(s) => s.clone(),
                    None => String::new(),
                };
                deps.push(d);
                i += 1;
            }
            proof {
                assert(texts_view(deps@) =~= values_view(array@).map_values(
                    |v: TomlValueView| value_text_or_empty(v),
                ));
            }
            project.dependencies = deps;
        }
    }
    proof {
        let q = apply_properties(p0, doc@, labt_version@, ignore_version)->Ok_0;
        assert(project@.base_url == q.base_url);
        assert(project@.packaging == q.packaging);
        assert(project@.dependencies == q.dependencies);
    }
    Ok(())
}

/// Reads the cached properties text `text` into `project`, refusing
/// properties written by another version of LABt than `labt_version`; on
/// an error the project is left as it was.
pub fn read_properties_version(
    project: &mut ProjectDep,
    text: &str,
    labt_version: &str,
    ignore_version: bool,
) -> (r: Result<(), PropertiesError>)
    ensures
        match apply_properties_text(old(project)@, text@, labt_version@, ignore_version) {
            Ok(p) => r is Ok && final(project)@ == p,
            Err(e) => r == Err::<(), PropertiesError>(e) && final(project)@ == old(project)@,
        },
{
    match parse_toml(text) {
        Err(_) => Err(PropertiesError::ParseError),
        Ok(doc) => read_properties_doc(project, &doc, labt_version, ignore_version),
    }
}

/// `read_properties_version` that refuses properties of another version.
pub fn read_properties(project: &mut ProjectDep, text: &str, labt_version: &str) -> (r: Result<(), PropertiesError>)
    ensures
        match apply_properties_text(old(project)@, text@, labt_version@, false) {
            Ok(p) => r is Ok && final(project)@ == p,
            Err(e) => r == Err::<(), PropertiesError>(e) && final(project)@ == old(project)@,
        },
{
    read_properties_version(project, text, labt_version, false)
}


/// Reading the properties a project was cached with into a project gives it
/// the url, packaging and dependencies of the cached project, whatever it
/// had before.
pub proof fn lemma_properties_round_trip(
    cached: ProjectDepView,
    p: ProjectDepView,
    labt_version: Seq<char>,
    ignore_version: bool,
)
    ensures
        apply_properties(p, properties_table(cached, labt_version), labt_version, ignore_version) == Ok::<
            ProjectDepView,
            PropertiesError,
        >(
            ProjectDepView {
                base_url: cached.base_url,
                packaging: cached.packaging,
                dependencies: cached.dependencies,
                ..p
            },
        ),
{
    reveal_strlit("labt_version");
    reveal_strlit("group_id");
    reveal_strlit("artifact_id");
    reveal_strlit("version");
    reveal_strlit("url");
    reveal_strlit("packaging");
    reveal_strlit("dependencies");
    let t = properties_table(cached, labt_version);
    let e = t.entries;
    let keys = seq!["labt_version"@, "group_id"@, "artifact_id"@, "version"@, "url"@, "packaging"@, "dependencies"@];
    assert(keys[0][0] == 'l' && keys[1][0] == 'g' && keys[2][0] == 'a' && keys[3][0] == 'v');
    assert(keys[4][0] == 'u' && keys[5][0] == 'p' && keys[6][0] == 'd');
    assert forall|i: int, j: int| 0 <= i < j < 7 implies keys[i] != keys[j] by {
        assert(keys[i][0] != keys[j][0]);
    }
    assert forall|i: int| 0 <= i < 7 implies e[i].0 == keys[i] by {}
    crate::assoc::lemma_key_index_at(e, "labt_version"@, 0);
    crate::assoc::lemma_key_index_at(e, "url"@, 4);
    crate::assoc::lemma_key_index_at(e, "packaging"@, 5);
    crate::assoc::lemma_key_index_at(e, "dependencies"@, 6);
    assert(cached.dependencies.map_values(|d: Seq<char>| TomlValueView::Str(d)).map_values(
        |v: TomlValueView| value_text_or_empty(v),
    ) =~= cached.dependencies);
}

} // verus!
