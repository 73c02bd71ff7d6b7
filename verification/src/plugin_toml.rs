//! Reading and writing `plugin.toml`.
use vstd::prelude::*;
use crate::assoc::{
    assoc_get, assoc_insert, insert_key, key_index, lemma_key_index, lemma_key_index_at, lemma_key_index_concat,
    lemma_key_index_none, pairs_view,
};
use crate::plugin_config::{
    all_steps, default_sdk, opt_texts, sdks_view, stages_view, step_at, step_text, texts,
    PluginInit, PluginStage, PluginStageView, PluginToml, PluginTomlView, RepositoryInfo,
    RepositoryInfoView, SdkEntry, SdkEntryView, Step, stage_of,
};
use crate::repository::{channel_from_text, channel_text, ChannelType};
use crate::revision::{revision_from_text, revision_text, Revision};
use crate::strs::{append_str, decimal, decimal_text, splitn_char, splitn_text, str_to_string};
use crate::tomldoc::{
    entries_str, item_bool, item_int, item_shown, item_str, item_table, item_table_like,
    item_tables, parse_toml, table_get, tables_view, toml_parsed, TomlItem, TomlItemView,
    TomlTable, TomlTableView, TomlValue, TomlValueView,
};
use crate::version::{spec_parse_range, RangeKind, RangeParseError, VersionRange};

verus! {

/// Why a plugin description could not be read.
#[derive(Debug, Clone, PartialEq, Eq)]
pub enum PluginTomlErrorKind {
    /// A required key is missing
    MissingKey(&'static str),
    /// A required key of a table is missing: the key, the table, and the
    /// position of the table in its array
    MissingTableKey(&'static str, String, Option<usize>),
    /// Failed to convert a value to string
    ToStringErr(&'static str, Option<&'static str>, Option<usize>),
    /// Failed to convert a value to bool
    ToBoolErr(&'static str, Option<&'static str>, Option<usize>),
    /// Invalid sdk string entry
    InvalidSdkKey(String, String),
    /// Invalid version string
    InvalidSdkVersionString(String),
    /// Invalid channel name
    InvalidChannel(String),
    /// The text is not TOML; `toml_edit`'s message
    Toml(String),
    /// The required Labt version is not a version range
    LabtVersion(RangeParseError),
}

/// A plugin description that could not be read.
#[derive(Debug, Clone, PartialEq, Eq)]
pub struct PluginTomlError {
    pub kind: PluginTomlErrorKind,
}

impl PluginTomlError {
    pub fn new(kind: PluginTomlErrorKind) -> (r: Self)
        ensures
            r.kind == kind,
    {
        Self { kind }
    }
}

/// The model of an error.
pub enum PluginErr {
    MissingKey(Seq<char>),
    MissingTableKey(Seq<char>, Seq<char>, Option<usize>),
    ToStringErr(Seq<char>, Option<Seq<char>>, Option<usize>),
    ToBoolErr(Seq<char>, Option<Seq<char>>, Option<usize>),
    InvalidSdkKey(Seq<char>, Seq<char>),
    InvalidSdkVersionString(Seq<char>),
    InvalidChannel(Seq<char>),
    Toml(Seq<char>),
    LabtVersion(RangeParseError),
}

pub open spec fn opt_str(o: Option<&'static str>) -> Option<Seq<char>> {
    match o {
        Some(s) => Some(s@),
        None => None,
    }
}

impl View for PluginTomlError {
    type V = PluginErr;

    open spec fn view(&self) -> PluginErr {
        match self.kind {
            PluginTomlErrorKind::MissingKey(k) => PluginErr::MissingKey(k@),
            PluginTomlErrorKind::MissingTableKey(k, t, p) => PluginErr::MissingTableKey(k@, t@, p),
            PluginTomlErrorKind::ToStringErr(k, t, p) => PluginErr::ToStringErr(k@, opt_str(t), p),
            PluginTomlErrorKind::ToBoolErr(k, t, p) => PluginErr::ToBoolErr(k@, opt_str(t), p),
            PluginTomlErrorKind::InvalidSdkKey(k, v) => PluginErr::InvalidSdkKey(k@, v@),
            PluginTomlErrorKind::InvalidSdkVersionString(k) => PluginErr::InvalidSdkVersionString(k@),
            PluginTomlErrorKind::InvalidChannel(k) => PluginErr::InvalidChannel(k@),
            PluginTomlErrorKind::Toml(m) => PluginErr::Toml(m@),
            PluginTomlErrorKind::LabtVersion(e) => PluginErr::LabtVersion(e),
        }
    }
}

/// A required text of a table: an error `missing` without the key, and
/// `not_str` when the value is not a string.
pub open spec fn required_str(t: TomlTableView, key: Seq<char>, missing: PluginErr, not_str: PluginErr) -> Result<Seq<char>, PluginErr> {
    match table_get(t, key) {
        None => Err(missing),
        Some(i) => match item_str(i) {
            Some(s) => Ok(s),
            None => Err(not_str),
        },
    }
}

/// The message of an error reading `plugin.toml`.
pub open spec fn plugin_error_text(e: PluginErr) -> Seq<char> {
    match e {
        PluginErr::MissingKey(k) => "Missing "@ + k + " which is required!"@,
        PluginErr::MissingTableKey(k, t, Some(p)) => "Missing "@ + k + " for array table \""@ + t
            + "\" at position "@ + decimal(p as nat) + " which is required"@,
        PluginErr::MissingTableKey(k, t, None) => "Missing "@ + k + " for table \""@ + t
            + "\" which is required."@,
        PluginErr::ToStringErr(k, Some(t), Some(p)) => "Failed to convert "@ + k
            + " value as string in the table \""@ + t + "\" at position "@ + decimal(p as nat) + "."@,
        PluginErr::ToStringErr(k, None, _) => "Failed to convert "@ + k + " value as string."@,
        PluginErr::ToBoolErr(k, Some(t), Some(p)) => "Failed to convert "@ + k
            + " value as Boolean in the table \""@ + t + "\" at position "@ + decimal(p as nat) + "."@,
        PluginErr::ToBoolErr(k, None, _) => "Failed to convert "@ + k + " value as boolean."@,
        PluginErr::InvalidSdkVersionString(k) => "Invalid version string for sdk dependency "@ + k,
        PluginErr::InvalidSdkKey(k, v) => "Invalid sdk key value for "@ + k
            + ". Expected format is path:version:channel but found "@ + v + "."@,
        PluginErr::InvalidChannel(k) => "Invalid channel name for "@ + k + " sdk dependency"@,
        PluginErr::Toml(m) => m,
        PluginErr::LabtVersion(_) => "Invalid LABt version requirement"@,
        _ => "Unhandled error occured while parsing plugin.toml"@,
    }
}

impl PluginTomlError {
    /// The message of the error.
    pub fn to_string(&self) -> (r: String)
        ensures
            r@ == plugin_error_text(self@),
    {
        let mut s = String::new();
        proof {
            reveal_strlit("");
        }
        match &self.kind {
            PluginTomlErrorKind::MissingKey(k) => {
                append_str(&mut s, "Missing ");
                append_str(&mut s, k);
                append_str(&mut s, " which is required!");
            },
            PluginTomlErrorKind::MissingTableKey(k, t, Some(p)) => {
                append_str(&mut s, "Missing ");
                append_str(&mut s, k);
                append_str(&mut s, " for array table \"");
                append_str(&mut s, t.as_str());
                append_str(&mut s, "\" at position ");
                let d = decimal_text(*p as u64);
                append_str(&mut s, d.as_str());
                append_str(&mut s, " which is required");
            },
            PluginTomlErrorKind::MissingTableKey(k, t, None) => {
                append_str(&mut s, "Missing ");
                append_str(&mut s, k);
                append_str(&mut s, " for table \"");
                append_str(&mut s, t.as_str());
                append_str(&mut s, "\" which is required.");
            },
            PluginTomlErrorKind::ToStringErr(k, Some(t), Some(p)) => {
                append_str(&mut s, "Failed to convert ");
                append_str(&mut s, k);
                append_str(&mut s, " value as string in the table \"");
                append_str(&mut s, t);
                append_str(&mut s, "\" at position ");
                let d = decimal_text(*p as u64);
                append_str(&mut s, d.as_str());
                append_str(&mut s, ".");
            },
            PluginTomlErrorKind::ToStringErr(k, None, _) => {
                append_str(&mut s, "Failed to convert ");
                append_str(&mut s, k);
                append_str(&mut s, " value as string.");
            },
            PluginTomlErrorKind::ToBoolErr(k, Some(t), Some(p)) => {
                append_str(&mut s, "Failed to convert ");
                append_str(&mut s, k);
                append_str(&mut s, " value as Boolean in the table \"");
                append_str(&mut s, t);
                append_str(&mut s, "\" at position ");
                let d = decimal_text(*p as u64);
                append_str(&mut s, d.as_str());
                append_str(&mut s, ".");
            },
            PluginTomlErrorKind::ToBoolErr(k, None, _) => {
                append_str(&mut s, "Failed to convert ");
                append_str(&mut s, k);
                append_str(&mut s, " value as boolean.");
            },
            PluginTomlErrorKind::InvalidSdkVersionString(k) => {
                append_str(&mut s, "Invalid version string for sdk dependency ");
                append_str(&mut s, k.as_str());
            },
            PluginTomlErrorKind::InvalidSdkKey(k, v) => {
                append_str(&mut s, "Invalid sdk key value for ");
                append_str(&mut s, k.as_str());
                append_str(&mut s, ". Expected format is path:version:channel but found ");
                append_str(&mut s, v.as_str());
                append_str(&mut s, ".");
            },
            PluginTomlErrorKind::InvalidChannel(k) => {
                append_str(&mut s, "Invalid channel name for ");
                append_str(&mut s, k.as_str());
                append_str(&mut s, " sdk dependency");
            },
            PluginTomlErrorKind::Toml(m) => {
                append_str(&mut s, m.as_str());
            },
            PluginTomlErrorKind::LabtVersion(_) => {
                append_str(&mut s, "Invalid LABt version requirement");
            },
            _ => {
                append_str(&mut s, "Unhandled error occured while parsing plugin.toml");
            },
        }
        s
    }
}

/// The stage table `name` of the `[stage]` table `t`.
pub open spec fn stage_from(t: TomlTableView, name: Seq<char>) -> Result<Option<PluginStageView>, PluginErr> {
    match table_get(t, name) {
        None => Ok(None),
        Some(i) => match item_table(i) {
            None => Ok(None),
            Some(st) => match required_str(
                st,
                "file"@,
                PluginErr::MissingTableKey("file"@, name, None),
                PluginErr::ToStringErr("file"@, Some("stage"@), None),
            ) {
                Err(e) => Err(e),
                Ok(file) => match table_get(st, "priority"@) {
                    None => Err(PluginErr::MissingTableKey("priority"@, "stage"@, None)),
                    Some(p) => match item_int(p) {
                        None => Err(PluginErr::ToStringErr("priority"@, Some("stage"@), None)),
                        Some(n) => {
                            let inputs = match table_get(st, "inputs"@) {
                                Some(x) => item_shown(x),
                                None => None,
                            };
                            let outputs = match table_get(st, "outputs"@) {
                                Some(x) => item_shown(x),
                                None => None,
                            };
                            match table_get(st, "unsafe"@) {
                                Some(u) => match item_bool(u) {
                                    None => Err(PluginErr::ToBoolErr("name"@, None, None)),
                                    Some(b) => Ok(
                                        Some(
                                            PluginStageView {
                                                file,
                                                priority: n as i32,
                                                inputs,
                                                outputs,
                                                enable_unsafe: b,
                                            },
                                        ),
                                    ),
                                },
                                None => Ok(
                                    Some(
                                        PluginStageView {
                                            file,
                                            priority: n as i32,
                                            inputs,
                                            outputs,
                                            enable_unsafe: false,
                                        },
                                    ),
                                ),
                            }
                        },
                    },
                },
            },
        },
    }
}

/// The stages of the first `k` steps, in step order.
pub open spec fn stages_upto(t: TomlTableView, k: int) -> Result<Seq<(Step, PluginStageView)>, PluginErr>
    decreases k,
{
    if k <= 0 {
        Ok(Seq::empty())
    } else {
        match stages_upto(t, k - 1) {
            Err(e) => Err(e),
            Ok(acc) => match stage_from(t, step_text(all_steps()[k - 1])) {
                Err(e) => Err(e),
                Ok(None) => Ok(acc),
                Ok(Some(s)) => Ok(acc.push((all_steps()[k - 1], s))),
            },
        }
    }
}

/// An SDK entry written as `[repo:]path:version:channel`.
pub open spec fn sdk_from_text(key: Seq<char>, v: Seq<char>) -> Result<SdkEntryView, PluginErr> {
    let segs = splitn_char(v, 4, ':');
    let d = if segs.len() >= 4 {
        SdkEntryView { repo: segs[0], ..default_sdk(key) }
    } else {
        default_sdk(key)
    };
    let rest = if segs.len() >= 4 {
        segs.drop_first()
    } else {
        segs
    };
    if rest.len() < 2 {
        Err(PluginErr::InvalidSdkKey(key, v))
    } else {
        match revision_from_text(rest[1]) {
            Err(_) => Err(PluginErr::InvalidSdkVersionString(key)),
            Ok(r) => if rest.len() < 3 {
                Err(PluginErr::InvalidSdkKey(key, v))
            } else {
                Ok(SdkEntryView { path: rest[0], version: r, channel: channel_from_text(rest[2]), ..d })
            },
        }
    }
}

/// An SDK entry written as a table with `path`, `version`, `channel` and
/// an optional `repo`.
pub open spec fn sdk_from_table(key: Seq<char>, es: Seq<(Seq<char>, TomlItemView)>) -> Result<SdkEntryView, PluginErr> {
    let d = match entries_str(es, "repo"@) {
        Some(r) => SdkEntryView { repo: r, ..default_sdk(key) },
        None => default_sdk(key),
    };
    let table = "sdk."@ + key;
    match entries_str(es, "path"@) {
        None => Err(PluginErr::MissingTableKey("path"@, table, None)),
        Some(path) => match entries_str(es, "version"@) {
            None => Err(PluginErr::MissingTableKey("version"@, table, None)),
            Some(v) => match revision_from_text(v) {
                Err(_) => Err(PluginErr::InvalidSdkVersionString(key)),
                Ok(r) => match entries_str(es, "channel"@) {
                    None => Err(PluginErr::MissingTableKey("channel"@, table, None)),
                    Some(c) => Ok(SdkEntryView { path, version: r, channel: channel_from_text(c), ..d }),
                },
            },
        },
    }
}

/// The SDK entry of the key `key` of the `[sdk]` table.
pub open spec fn sdk_from(key: Seq<char>, i: TomlItemView) -> Result<SdkEntryView, PluginErr> {
    match item_str(i) {
        Some(v) => sdk_from_text(key, v),
        None => match item_table_like(i) {
            Some(es) => sdk_from_table(key, es),
            None => Ok(default_sdk(key)),
        },
    }
}

/// The SDK entries of the first `k` keys of the `[sdk]` table.
pub open spec fn sdks_upto(es: Seq<(Seq<char>, TomlItemView)>, k: int) -> Result<Seq<SdkEntryView>, PluginErr>
    decreases k,
{
    if k <= 0 {
        Ok(Seq::empty())
    } else {
        match sdks_upto(es, k - 1) {
            Err(e) => Err(e),
            Ok(acc) => match sdk_from(es[k - 1].0, es[k - 1].1) {
                Err(e) => Err(e),
                Ok(s) => Ok(acc.push(s)),
            },
        }
    }
}

/// The repositories of the first `k` `[[repository]]` tables, by name.
pub open spec fn repos_upto(ts: Seq<TomlTableView>, k: int) -> Result<Seq<(Seq<char>, RepositoryInfoView)>, PluginErr>
    decreases k,
{
    if k <= 0 {
        Ok(Seq::empty())
    } else {
        match repos_upto(ts, k - 1) {
            Err(e) => Err(e),
            Ok(acc) => {
                let i = (k - 1) as usize;
                match required_str(
                    ts[k - 1],
                    "name"@,
                    PluginErr::MissingTableKey("name"@, "repository"@, Some(i)),
                    PluginErr::ToStringErr("name"@, Some("repository"@), Some(i)),
                ) {
                    Err(e) => Err(e),
                    Ok(name) => match required_str(
                        ts[k - 1],
                        "url"@,
                        PluginErr::MissingTableKey("url"@, "repository"@, Some(i)),
                        PluginErr::ToStringErr("url"@, None, Some(i)),
                    ) {
                        Err(e) => Err(e),
                        Ok(url) => Ok(
                            assoc_insert(
                                acc,
                                name,
                                RepositoryInfoView { url, accepted_licenses: Seq::empty(), path: Seq::empty() },
                            ),
                        ),
                    },
                }
            },
        }
    }
}

/// The templating script of the `[init]` table.
pub open spec fn init_from(doc: TomlTableView) -> Result<Option<(Seq<char>, Option<Seq<char>>)>, PluginErr> {
    match table_get(doc, "init"@) {
        None => Ok(None),
        Some(i) => match item_table(i) {
            None => Ok(None),
            Some(t) => match required_str(
                t,
                "file"@,
                PluginErr::MissingTableKey("file"@, "repository"@, None),
                PluginErr::ToStringErr("file"@, None, None),
            ) {
                Err(e) => Err(e),
                Ok(file) => match table_get(t, "templates"@) {
                    None => Ok(Some((file, None))),
                    Some(x) => match item_str(x) {
                        None => Err(PluginErr::ToStringErr("file"@, None, None)),
                        Some(s) => Ok(Some((file, Some(s)))),
                    },
                },
            },
        },
    }
}

/// The plugin description a document holds.
pub open spec fn plugin_from_doc(doc: TomlTableView) -> Result<PluginTomlView, PluginErr> {
    match required_str(doc, "name"@, PluginErr::MissingKey("name"@), PluginErr::ToStringErr("name"@, None, None)) {
        Err(e) => Err(e),
        Ok(name) => match required_str(
            doc,
            "version"@,
            PluginErr::MissingKey("version"@),
            PluginErr::ToStringErr("name"@, None, None),
        ) {
            Err(e) => Err(e),
            Ok(version) => match (match table_get(doc, "unsafe"@) {
                Some(u) => match item_bool(u) {
                    Some(b) => Ok(b),
                    None => Err(PluginErr::ToBoolErr("name"@, None, None)),
                },
                None => Ok(false),
            }) {
                Err(e) => Err(e),
                Ok(enable_unsafe) => match (match table_get(doc, "labt"@) {
                    Some(l) => match item_str(l) {
                        None => Err(PluginErr::ToStringErr("name"@, None, None)),
                        Some(v) => match spec_parse_range(v) {
                            Ok(r) => Ok(Some(r)),
                            Err(e) => Err(PluginErr::LabtVersion(e)),
                        },
                    },
                    None => Ok(None),
                }) {
                    Err(e) => Err(e),
                    Ok(labt) => match (match table_get(doc, "stage"@) {
                        Some(i) => match item_table(i) {
                            Some(t) => stages_upto(t, 6),
                            None => Ok(Seq::empty()),
                        },
                        None => Ok(Seq::empty()),
                    }) {
                        Err(e) => Err(e),
                        Ok(stages) => match (match table_get(doc, "sdk"@) {
                            Some(i) => match item_table(i) {
                                Some(t) => sdks_upto(t.entries, t.entries.len() as int),
                                None => Ok(Seq::empty()),
                            },
                            None => Ok(Seq::empty()),
                        }) {
                            Err(e) => Err(e),
                            Ok(sdk) => match (match table_get(doc, "repository"@) {
                                Some(i) => match item_tables(i) {
                                    Some(ts) => repos_upto(ts, ts.len() as int),
                                    None => Ok(Seq::empty()),
                                },
                                None => Ok(Seq::empty()),
                            }) {
                                Err(e) => Err(e),
                                Ok(sdk_repo) => match init_from(doc) {
                                    Err(e) => Err(e),
                                    Ok(init) => Ok(
                                        PluginTomlView {
                                            name,
                                            version,
                                            stages,
                                            sdk_repo,
                                            sdk,
                                            init,
                                            path: Seq::empty(),
                                            package_paths: match table_get(doc, "package_paths"@) {
                                                Some(p) => item_shown(p),
                                                None => None,
                                            },
                                            enable_unsafe,
                                            labt,
                                        },
                                    ),
                                },
                            },
                        },
                    },
                },
            },
        },
    }
}

/// The plugin description a text holds.
pub open spec fn plugin_from_text(s: Seq<char>) -> Result<PluginTomlView, PluginErr> {
    match toml_parsed(s) {
        Err(m) => Err(PluginErr::Toml(m)),
        Ok(doc) => plugin_from_doc(doc),
    }
}


fn err(kind: PluginTomlErrorKind) -> (r: PluginTomlError)
    ensures
        r.kind == kind,
{
    PluginTomlError { kind }
}

/// A required text of a table.
fn required_str_of(t: &TomlTable, key: &str, missing: PluginTomlErrorKind, not_str: PluginTomlErrorKind) -> (r: Result<String, PluginTomlError>)
    ensures
        match required_str(t@, key@, (PluginTomlError { kind: missing })@, (PluginTomlError { kind: not_str })@) {
            Ok(s) => r matches Ok(x) && x@ == s,
            Err(e) => r matches Err(x) && x@ == e,
        },
{
    match t.get(key) {
        None => Err(PluginTomlError { kind: missing }),
        Some(i) => match i.as_str() {
            Some(s) => Ok(s.clone()),
            None => Err(PluginTomlError { kind: not_str }),
        },
    }
}

/// The texts shown for the values of an array item, copied.
fn shown_of(i: Option<&TomlItem>) -> (r: Option<Vec<String>>)
    ensures
        opt_texts(r) == match i {
            Some(x) => item_shown(x@),
            None => None,
        },
{
    match i {
        Some(x) => match x.array_shown() {
            Some(sh) => Some(crate::resolve::clone_texts(sh)),
            None => None,
        },
        None => None,
    }
}

/// Reads the stage table `name` of the `[stage]` table `t`.
fn read_stage(t: &TomlTable, name: &'static str) -> (r: Result<Option<PluginStage>, PluginTomlError>)
    ensures
        match stage_from(t@, name@) {
            Ok(Some(s)) => r matches Ok(Some(x)) && x@ == s,
            Ok(None) => r matches Ok(None),
            Err(e) => r matches Err(x) && x@ == e,
        },
{
    let st = match t.get(name) {
        None => {
            return Ok(None);
        },
        Some(i) => match i.as_table() {
            None => {
                return Ok(None);
            },
            Some(st) => st,
        },
    };
    let file = required_str_of(
        st,
        "file",
        PluginTomlErrorKind::MissingTableKey("file", str_to_string(name), None),
        PluginTomlErrorKind::ToStringErr("file", Some("stage"), None),
    )?;
    let priority = match st.get("priority") {
        None => {
            return Err(err(PluginTomlErrorKind::MissingTableKey("priority", str_to_string("stage"), None)));
        },
        Some(p) => match p.as_integer() {
            None => {
                return Err(err(PluginTomlErrorKind::ToStringErr("priority", Some("stage"), None)));
            },
            Some(n) => n as i32,
        },
    };
    let inputs = shown_of(st.get("inputs"));
    let outputs = shown_of(st.get("outputs"));
    let enable_unsafe = match st.get("unsafe") {
        Some(u) => match u.as_bool() {
            Some(b) => b,
            None => {
                return Err(err(PluginTomlErrorKind::ToBoolErr("name", None, None)));
            },
        },
        None => false,
    };
    Ok(Some(PluginStage { file, priority, inputs, outputs, enable_unsafe }))
}

proof fn lemma_stages_prefix(t: TomlTableView, k: int, n: int)
    requires
        0 <= k <= n,
        stages_upto(t, k) is Err,
    ensures
        stages_upto(t, n) == stages_upto(t, k),
    decreases n - k,
{
    if k < n {
        lemma_stages_prefix(t, k, n - 1);
    }
}

/// Reads the stages of the `[stage]` table, in step order.
fn read_stages(t: &TomlTable) -> (r: Result<Vec<(Step, PluginStage)>, PluginTomlError>)
    ensures
        match stages_upto(t@, 6) {
            Ok(s) => r matches Ok(x) && stages_view(x@) == s,
            Err(e) => r matches Err(x) && x@ == e,
        },
{
    let mut out: Vec<(Step, PluginStage)> = Vec::new();
    let mut k: usize = 0;
    while k < 6
        invariant
            k <= 6,
            stages_upto(t@, k as int) matches Ok(s) && stages_view(out@) == s,
        decreases 6 - k,
    {
        let step = step_at(k);
        match read_stage(t, step.name()) {
            Err(e) => {
                proof {
                    lemma_stages_prefix(t@, k + 1, 6);
                }
                return Err(e);
            },
            Ok(None) => {},
            Ok(Some(s)) => {
                let ghost before = out@;
                out.push((step, s));
                assert(stages_view(out@) =~= stages_view(before).push((step, s@)));
            },
        }
        k += 1;
    }
    Ok(out)
}

/// Reads an SDK entry written as `[repo:]path:version:channel`.
fn read_sdk_text(key: &String, v: &String) -> (r: Result<SdkEntry, PluginTomlError>)
    ensures
        match sdk_from_text(key@, v@) {
            Ok(s) => r matches Ok(x) && x@ == s,
            Err(e) => r matches Err(x) && x@ == e,
        },
{
    let segs = splitn_text(v.as_str(), 4, ':');
    let ghost sv = segs@.map_values(|t: String| t@);
    let mut sdk = SdkEntry::default();
    sdk.name = key.clone();
    let mut i: usize = 0;
    if segs.len() >= 4 {
        sdk.repo = segs[0].clone();
        i = 1;
    }
    let ghost rest = if sv.len() >= 4 {
        sv.drop_first()
    } else {
        sv
    };
    assert(forall|j: int| 0 <= j < rest.len() ==> rest[j] == sv[j + i]);
    if segs.len() < i + 2 {
        return Err(err(PluginTomlErrorKind::InvalidSdkKey(key.clone(), v.clone())));
    }
    let version = match Revision::from_str(segs[i + 1].as_str()) {
        Ok(r) => r,
        Err(_) => {
            return Err(err(PluginTomlErrorKind::InvalidSdkVersionString(key.clone())));
        },
    };
    if segs.len() < i + 3 {
        return Err(err(PluginTomlErrorKind::InvalidSdkKey(key.clone(), v.clone())));
    }
    sdk.path = segs[i].clone();
    sdk.version = version;
    sdk.channel = ChannelType::from_str(segs[i + 2].as_str());
    Ok(sdk)
}

/// Reads an SDK entry written as a table.
fn read_sdk_table(key: &String, item: &TomlItem) -> (r: Result<SdkEntry, PluginTomlError>)
    requires
        item_table_like(item@) is Some,
    ensures
        match sdk_from_table(key@, item_table_like(item@).unwrap()) {
            Ok(s) => r matches Ok(x) && x@ == s,
            Err(e) => r matches Err(x) && x@ == e,
        },
{
    let mut sdk = SdkEntry::default();
    sdk.name = key.clone();
    if let Some(repo) = item.like_str("repo") {
        sdk.repo = repo.clone();
    }
    let mut table = str_to_string("sdk.");
    crate::strs::append_str(&mut table, key.as_str());
    let path = match item.like_str("path") {
        Some(p) => p.clone(),
        None => {
            return Err(err(PluginTomlErrorKind::MissingTableKey("path", table, None)));
        },
    };
    let vtext = match item.like_str("version") {
        Some(p) => p,
        None => {
            return Err(err(PluginTomlErrorKind::MissingTableKey("version", table, None)));
        },
    };
    let version = match Revision::from_str(vtext.as_str()) {
        Ok(r) => r,
        Err(_) => {
            return Err(err(PluginTomlErrorKind::InvalidSdkVersionString(key.clone())));
        },
    };
    let channel = match item.like_str("channel") {
        Some(c) => ChannelType::from_str(c.as_str()),
        None => {
            return Err(err(PluginTomlErrorKind::MissingTableKey("channel", table, None)));
        },
    };
    sdk.path = path;
    sdk.version = version;
    sdk.channel = channel;
    Ok(sdk)
}

/// Reads the SDK entry of the key `key` of the `[sdk]` table.
fn read_sdk(key: &String, item: &TomlItem) -> (r: Result<SdkEntry, PluginTomlError>)
    ensures
        match sdk_from(key@, item@) {
            Ok(s) => r matches Ok(x) && x@ == s,
            Err(e) => r matches Err(x) && x@ == e,
        },
{
    if let Some(v) = item.as_str() {
        return read_sdk_text(key, v);
    }
    match item {
        TomlItem::Table(_) => read_sdk_table(key, item),
        TomlItem::Value(TomlValue::Inline(_)) | TomlItem::LineValue(TomlValue::Inline(_)) => read_sdk_table(key, item),
        _ => {
            let mut sdk = SdkEntry::default();
            sdk.name = key.clone();
            Ok(sdk)
        },
    }
}

proof fn lemma_sdks_prefix(es: Seq<(Seq<char>, TomlItemView)>, k: int, n: int)
    requires
        0 <= k <= n,
        sdks_upto(es, k) is Err,
    ensures
        sdks_upto(es, n) == sdks_upto(es, k),
    decreases n - k,
{
    if k < n {
        lemma_sdks_prefix(es, k, n - 1);
    }
}

/// Reads the entries of the `[sdk]` table.
fn read_sdks(t: &TomlTable) -> (r: Result<Vec<SdkEntry>, PluginTomlError>)
    ensures
        match sdks_upto(t@.entries, t@.entries.len() as int) {
            Ok(s) => r matches Ok(x) && sdks_view(x@) == s,
            Err(e) => r matches Err(x) && x@ == e,
        },
{
    proof {
        crate::tomldoc::lemma_table_entries(*t);
    }
    let mut out: Vec<SdkEntry> = Vec::new();
    let mut k: usize = 0;
    while k < t.entries.len()
        invariant
            k <= t.entries.len(),
            t@.entries == pairs_view(t.entries@),
            sdks_upto(t@.entries, k as int) matches Ok(s) && sdks_view(out@) == s,
        decreases t.entries.len() - k,
    {
        let (key, item) = &t.entries[k];
        match read_sdk(key, item) {
            Err(e) => {
                proof {
                    lemma_sdks_prefix(t@.entries, k + 1, t@.entries.len() as int);
                }
                return Err(e);
            },
            Ok(s) => {
                let ghost before = out@;
                out.push(s);
                assert(sdks_view(out@) =~= sdks_view(before).push(s@));
            },
        }
        k += 1;
    }
    Ok(out)
}

proof fn lemma_repos_prefix(ts: Seq<TomlTableView>, k: int, n: int)
    requires
        0 <= k <= n,
        repos_upto(ts, k) is Err,
    ensures
        repos_upto(ts, n) == repos_upto(ts, k),
    decreases n - k,
{
    if k < n {
        lemma_repos_prefix(ts, k, n - 1);
    }
}

/// Reads the `[[repository]]` tables.
fn read_repos(ts: &Vec<TomlTable>) -> (r: Result<Vec<(String, RepositoryInfo)>, PluginTomlError>)
    ensures
        match repos_upto(tables_view(ts@), ts@.len() as int) {
            Ok(s) => r matches Ok(x) && pairs_view(x@) == s,
            Err(e) => r matches Err(x) && x@ == e,
        },
{
    let mut out: Vec<(String, RepositoryInfo)> = Vec::new();
    let mut k: usize = 0;
    while k < ts.len()
        invariant
            k <= ts.len(),
            repos_upto(tables_view(ts@), k as int) matches Ok(s) && pairs_view(out@) == s,
        decreases ts.len() - k,
    {
        assert(tables_view(ts@)[k as int] == ts@[k as int]@);
        let name = match required_str_of(
            &ts[k],
            "name",
            PluginTomlErrorKind::MissingTableKey("name", str_to_string("repository"), Some(k)),
            PluginTomlErrorKind::ToStringErr("name", Some("repository"), Some(k)),
        ) {
            Ok(n) => n,
            Err(e) => {
                proof {
                    lemma_repos_prefix(tables_view(ts@), k + 1, ts@.len() as int);
                }
                return Err(e);
            },
        };
        let url = match required_str_of(
            &ts[k],
            "url",
            PluginTomlErrorKind::MissingTableKey("url", str_to_string("repository"), Some(k)),
            PluginTomlErrorKind::ToStringErr("url", None, Some(k)),
        ) {
            Ok(n) => n,
            Err(e) => {
                proof {
                    lemma_repos_prefix(tables_view(ts@), k + 1, ts@.len() as int);
                }
                return Err(e);
            },
        };
        let info = RepositoryInfo { url, accepted_licenses: Vec::new(), path: String::new() };
        assert(texts(info.accepted_licenses@) =~= Seq::<Seq<char>>::empty());
        insert_key(&mut out, name, info);
        k += 1;
    }
    Ok(out)
}

/// Reads the `[init]` table.
fn read_init(doc: &TomlTable) -> (r: Result<Option<PluginInit>, PluginTomlError>)
    ensures
        match init_from(doc@) {
            Ok(Some(i)) => r matches Ok(Some(x)) && x.file@ == i.0 && match (x.templates, i.1) {
                (Some(a), Some(b)) => a@ == b,
                (None, None) => true,
                _ => false,
            },
            Ok(None) => r matches Ok(None),
            Err(e) => r matches Err(x) && x@ == e,
        },
{
    let t = match doc.get("init") {
        None => {
            return Ok(None);
        },
        Some(i) => match i.as_table() {
            None => {
                return Ok(None);
            },
            Some(t) => t,
        },
    };
    let file = required_str_of(
        t,
        "file",
        PluginTomlErrorKind::MissingTableKey("file", str_to_string("repository"), None),
        PluginTomlErrorKind::ToStringErr("file", None, None),
    )?;
    let templates = match t.get("templates") {
        None => None,
        Some(x) => match x.as_str() {
            None => {
                return Err(err(PluginTomlErrorKind::ToStringErr("file", None, None)));
            },
            Some(s) => Some(s.clone()),
        },
    };
    Ok(Some(PluginInit { file, templates }))
}

impl PluginToml {
    /// Reads the plugin description a document holds.
    pub fn from_toml(doc: &TomlTable) -> (r: Result<PluginToml, PluginTomlError>)
        ensures
            match plugin_from_doc(doc@) {
                Ok(p) => r matches Ok(x) && x@ == p,
                Err(e) => r matches Err(x) && x@ == e,
            },
    {
        let name = required_str_of(
            doc,
            "name",
            PluginTomlErrorKind::MissingKey("name"),
            PluginTomlErrorKind::ToStringErr("name", None, None),
        )?;
        let version = required_str_of(
            doc,
            "version",
            PluginTomlErrorKind::MissingKey("version"),
            PluginTomlErrorKind::ToStringErr("name", None, None),
        )?;
        let enable_unsafe = match doc.get("unsafe") {
            Some(u) => match u.as_bool() {
                Some(b) => b,
                None => {
                    return Err(err(PluginTomlErrorKind::ToBoolErr("name", None, None)));
                },
            },
            None => false,
        };
        let labt = match doc.get("labt") {
            Some(l) => match l.as_str() {
                None => {
                    return Err(err(PluginTomlErrorKind::ToStringErr("name", None, None)));
                },
                Some(v) => match VersionRange::from_str(v.as_str()) {
                    Ok(r) => Some(r),
                    Err(e) => {
                        return Err(err(PluginTomlErrorKind::LabtVersion(e)));
                    },
                },
            },
            None => None,
        };
        let package_paths = shown_of(doc.get("package_paths"));
        let no_stages: Vec<(Step, PluginStage)> = Vec::new();
        assert(stages_view(no_stages@) =~= Seq::<(Step, PluginStageView)>::empty());
        let stages = match doc.get("stage") {
            Some(i) => match i.as_table() {
                Some(t) => read_stages(t)?,
                None => no_stages,
            },
            None => no_stages,
        };
        let no_sdk: Vec<SdkEntry> = Vec::new();
        assert(sdks_view(no_sdk@) =~= Seq::<SdkEntryView>::empty());
        let sdk = match doc.get("sdk") {
            Some(i) => match i.as_table() {
                Some(t) => read_sdks(t)?,
                None => no_sdk,
            },
            None => no_sdk,
        };
        let no_repos: Vec<(String, RepositoryInfo)> = Vec::new();
        assert(pairs_view(no_repos@) =~= Seq::<(Seq<char>, RepositoryInfoView)>::empty());
        let sdk_repo = match doc.get("repository") {
            Some(i) => match i.as_tables() {
                Some(ts) => read_repos(ts)?,
                None => no_repos,
            },
            None => no_repos,
        };
        let init = read_init(doc)?;
        let r = PluginToml {
            name,
            version,
            init,
            stages,
            path: String::new(),
            package_paths,
            sdk,
            enable_unsafe,
            labt,
            sdk_repo,
        };
        proof {
            assert(stages_view(r.stages@) =~= stages_view(r.stages@));
        }
        Ok(r)
    }

    /// Reads a plugin description.
    pub fn from_str(s: &str) -> (r: Result<PluginToml, PluginTomlError>)
        ensures
            match plugin_from_text(s@) {
                Ok(p) => r matches Ok(x) && x@ == p,
                Err(e) => r matches Err(x) && x@ == e,
            },
    {
        match parse_toml(s) {
            Ok(doc) => PluginToml::from_toml(&doc),
            Err(e) => Err(err(PluginTomlErrorKind::Toml(e.message))),
        }
    }
}

impl core::str::FromStr for PluginToml {
    type Err = PluginTomlError;

    fn from_str(s: &str) -> (r: Result<PluginToml, PluginTomlError>)
        ensures
            match plugin_from_text(s@) {
                Ok(p) => r matches Ok(x) && x@ == p,
                Err(e) => r matches Err(x) && x@ == e,
            },
    {
        PluginToml::from_str(s)
    }
}


/// The inline table an SDK entry is written as.
pub open spec fn sdk_item(e: SdkEntryView) -> TomlItemView {
    TomlItemView::Value(
        TomlValueView::Inline(
            seq![
                ("path"@, TomlValueView::Str(e.path)),
                ("version"@, TomlValueView::Str(revision_text(e.version))),
                ("channel"@, TomlValueView::Str(channel_text(e.channel))),
            ],
        ),
    )
}

/// An array of texts.
pub open spec fn text_array(ts: Seq<Seq<char>>) -> TomlItemView {
    TomlItemView::Value(TomlValueView::Array(ts.map_values(|t: Seq<char>| TomlValueView::Str(t)), Seq::empty()))
}

/// The table a stage is written as.
pub open spec fn stage_table(s: PluginStageView) -> TomlTableView {
    TomlTableView {
        entries: seq![
            ("file"@, TomlItemView::Value(TomlValueView::Str(s.file))),
            ("priority"@, TomlItemView::Value(TomlValueView::Int(s.priority as i64))),
        ] + (match s.inputs {
            Some(i) => seq![("inputs"@, text_array(i))],
            None => Seq::empty(),
        }) + (match s.outputs {
            Some(o) => seq![("outputs"@, text_array(o))],
            None => Seq::empty(),
        }) + (if s.enable_unsafe {
            seq![("unsafe"@, TomlItemView::Value(TomlValueView::Bool(true)))]
        } else {
            Seq::empty()
        }),
        position: None,
    }
}

/// The stage tables of the first `k` steps that have a stage.
pub open spec fn stage_entries(stages: Seq<(Step, PluginStageView)>, k: int) -> Seq<(Seq<char>, TomlItemView)>
    decreases k,
{
    if k <= 0 {
        Seq::empty()
    } else {
        let acc = stage_entries(stages, k - 1);
        match stage_of(stages, all_steps()[k - 1]) {
            Some(s) => acc.push((step_text(all_steps()[k - 1]), TomlItemView::Table(stage_table(s)))),
            None => acc,
        }
    }
}

/// The document a plugin description is written as: its name and version,
/// its SDK entries under `[sdk]`, and its stages under `[stage]`.
pub open spec fn plugin_doc(p: PluginTomlView) -> TomlTableView {
    TomlTableView {
        entries: seq![
            ("name"@, TomlItemView::Value(TomlValueView::Str(p.name))),
            ("version"@, TomlItemView::Value(TomlValueView::Str(p.version))),
            ("sdk"@, TomlItemView::Table(
                TomlTableView {
                    entries: p.sdk.map_values(|e: SdkEntryView| (e.name, sdk_item(e))),
                    position: None,
                },
            )),
            ("stage"@, TomlItemView::Table(
                TomlTableView { entries: stage_entries(p.stages, 6), position: None },
            )),
        ],
        position: None,
    }
}

fn text_array_of(ts: &Vec<String>) -> (r: TomlItem)
    ensures
        r@ == text_array(texts(ts@)),
{
    let mut xs: Vec<TomlValue> = Vec::new();
    let mut i: usize = 0;
    while i < ts.len()
        invariant
            i <= ts.len(),
            xs@.len() == i,
            forall|j: int| 0 <= j < i ==> #[trigger] xs@[j]@ == TomlValueView::Str(ts@[j]@),
        decreases ts.len() - i,
    {
        xs.push(TomlValue::Str(ts[i].clone()));
        i += 1;
    }
    let shown: Vec<String> = Vec::new();
    proof {
        crate::tomldoc::lemma_array_view(xs, shown);
        assert(crate::tomldoc::values_view(xs@) =~= texts(ts@).map_values(|t: Seq<char>| TomlValueView::Str(t)));
        assert(shown@.map_values(|t: String| t@) =~= Seq::<Seq<char>>::empty());
    }
    TomlItem::Value(TomlValue::Array(xs, shown))
}

fn stage_table_of(s: &PluginStage) -> (r: TomlTable)
    ensures
        r@ == stage_table(s@),
{
    let mut es: Vec<(String, TomlItem)> = Vec::new();
    es.push((str_to_string("file"), TomlItem::Value(TomlValue::Str(s.file.clone()))));
    es.push((str_to_string("priority"), TomlItem::Value(TomlValue::Int(s.priority as i64))));
    let ghost e2 = pairs_view(es@);
    if let Some(inputs) = &s.inputs {
        es.push((str_to_string("inputs"), text_array_of(inputs)));
    }
    let ghost e3 = pairs_view(es@);
    if let Some(outputs) = &s.outputs {
        es.push((str_to_string("outputs"), text_array_of(outputs)));
    }
    let ghost e4 = pairs_view(es@);
    if s.enable_unsafe {
        es.push((str_to_string("unsafe"), TomlItem::Value(TomlValue::Bool(true))));
    }
    let r = TomlTable { entries: es, position: None };
    proof {
        crate::tomldoc::lemma_table_entries(r);
        let v = s@;
        assert(e3 =~= e2 + (match v.inputs {
            Some(i) => seq![("inputs"@, text_array(i))],
            None => Seq::empty(),
        }));
        assert(e4 =~= e3 + (match v.outputs {
            Some(o) => seq![("outputs"@, text_array(o))],
            None => Seq::empty(),
        }));
        assert(r@.entries =~= stage_table(v).entries);
    }
    r
}

impl PluginToml {
    /// The text of the plugin description.
    pub fn to_string(&self) -> (r: String)
        ensures
            r@ == crate::tomldoc::toml_rendered(plugin_doc(self@)),
    {
        let mut sdk_entries: Vec<(String, TomlItem)> = Vec::new();
        let mut i: usize = 0;
        while i < self.sdk.len()
            invariant
                i <= self.sdk.len(),
                sdk_entries@.len() == i,
                forall|j: int| 0 <= j < i ==> #[trigger] pairs_view(sdk_entries@)[j] == (self@.sdk[j].name, sdk_item(self@.sdk[j])),
            decreases self.sdk.len() - i,
        {
            let e = &self.sdk[i];
            let mut inline: Vec<(String, TomlValue)> = Vec::new();
            inline.push((str_to_string("path"), TomlValue::Str(e.path.clone())));
            inline.push((str_to_string("version"), TomlValue::Str(e.version.to_string())));
            inline.push((str_to_string("channel"), TomlValue::Str(e.channel.to_string())));
            proof {
                crate::tomldoc::lemma_inline_view(inline);
                assert(pairs_view(inline@) =~= sdk_item(e@)->Value_0->Inline_0);
            }
            let ghost before = sdk_entries@;
            sdk_entries.push((e.name.clone(), TomlItem::Value(TomlValue::Inline(inline))));
            proof {
                assert forall|j: int| 0 <= j < i + 1 implies #[trigger] pairs_view(sdk_entries@)[j] == (self@.sdk[j].name, sdk_item(self@.sdk[j])) by {
                    if j < i {
                        assert(pairs_view(sdk_entries@)[j] == pairs_view(before)[j]);
                    }
                }
            }
            i += 1;
        }
        let sdk_table = TomlTable { entries: sdk_entries, position: None };
        proof {
            crate::tomldoc::lemma_table_entries(sdk_table);
            assert(sdk_table@.entries =~= self@.sdk.map_values(|e: SdkEntryView| (e.name, sdk_item(e))));
        }
        let mut stage_es: Vec<(String, TomlItem)> = Vec::new();
        let mut k: usize = 0;
        while k < 6
            invariant
                k <= 6,
                pairs_view(stage_es@) == stage_entries(self@.stages, k as int),
            decreases 6 - k,
        {
            let step = step_at(k);
            let ghost before = pairs_view(stage_es@);
            match self.stage(step) {
                Some(s) => {
                    let t = stage_table_of(s);
                    stage_es.push((step.to_string(), TomlItem::Table(t)));
                    assert(pairs_view(stage_es@) =~= before.push((step_text(step), TomlItemView::Table(stage_table(s@)))));
                },
                None => {},
            }
            k += 1;
        }
        let stages_table = TomlTable { entries: stage_es, position: None };
        proof {
            crate::tomldoc::lemma_table_entries(stages_table);
        }
        let mut doc_es: Vec<(String, TomlItem)> = Vec::new();
        doc_es.push((str_to_string("name"), TomlItem::Value(TomlValue::Str(self.name.clone()))));
        doc_es.push((str_to_string("version"), TomlItem::Value(TomlValue::Str(self.version.clone()))));
        doc_es.push((str_to_string("sdk"), TomlItem::Table(sdk_table)));
        doc_es.push((str_to_string("stage"), TomlItem::Table(stages_table)));
        let doc = TomlTable { entries: doc_es, position: None };
        proof {
            crate::tomldoc::lemma_table_entries(doc);
            assert(doc@.entries =~= plugin_doc(self@).entries);
        }
        crate::tomldoc::render_toml(&doc)
    }
}

/// The stages of the first `k` steps, in step order, each the first stage
/// recorded for its step.
pub open spec fn ordered_stages(st: Seq<(Step, PluginStageView)>, k: int) -> Seq<(Step, PluginStageView)>
    decreases k,
{
    if k <= 0 {
        Seq::empty()
    } else {
        let acc = ordered_stages(st, k - 1);
        match stage_of(st, all_steps()[k - 1]) {
            Some(x) => acc.push((all_steps()[k - 1], x)),
            None => acc,
        }
    }
}

/// A stage that its table gives back: it declares no input or output
/// patterns (or empty lists of them).
pub open spec fn stage_reads_back(x: PluginStageView) -> bool {
    &&& (x.inputs is None || x.inputs == Some(Seq::<Seq<char>>::empty()))
    &&& (x.outputs is None || x.outputs == Some(Seq::<Seq<char>>::empty()))
}

/// A plugin description that its document gives back: one that sets only
/// what the document holds (name, version, SDK entries from the `google`
/// repository on channels written by names of their own, and stages listed
/// in step order, one per step, that read back).
pub open spec fn plugin_reads_back(p: PluginTomlView) -> bool {
    &&& !p.enable_unsafe
    &&& p.labt is None
    &&& p.sdk_repo.len() == 0
    &&& p.init is None
    &&& p.path.len() == 0
    &&& p.package_paths is None
    &&& forall|k: int| 0 <= k < p.sdk.len() ==> (#[trigger] p.sdk[k]).repo == "google"@
        && crate::repository_toml::channel_named(p.sdk[k].channel)
    &&& p.stages == ordered_stages(p.stages, 6)
    &&& forall|k: int| 0 <= k < p.stages.len() ==> stage_reads_back(#[trigger] p.stages[k].1)
}

proof fn lemma_steps_distinct()
    ensures
        forall|i: int, j: int| 0 <= i < 6 && 0 <= j < 6 && i != j ==> step_text(all_steps()[i]) != step_text(
            all_steps()[j],
        ),
{
    reveal_strlit("pre");
    reveal_strlit("aapt");
    reveal_strlit("compile");
    reveal_strlit("dex");
    reveal_strlit("bundle");
    reveal_strlit("post");
    assert forall|i: int, j: int| 0 <= i < 6 && 0 <= j < 6 && i != j implies step_text(all_steps()[i]) != step_text(
        all_steps()[j],
    ) by {
        let a = step_text(all_steps()[i]);
        let b = step_text(all_steps()[j]);
        assert(a[0] != b[0] || a[1] != b[1]);
    }
}

proof fn lemma_single<V>(k: Seq<char>, v: V, key: Seq<char>)
    ensures
        key_index(seq![(k, v)], key) == (if k == key {
            Some(0int)
        } else {
            None
        }),
{
    lemma_key_index(seq![(k, v)], key);
}

/// The stage table of the first `n` steps holds, under the name of step
/// `j`, the table of its stage where `j < n` and it has one.
proof fn lemma_stage_entries_get(st: Seq<(Step, PluginStageView)>, n: int, j: int)
    requires
        0 <= n <= 6,
        0 <= j < 6,
    ensures
        assoc_get(stage_entries(st, n), step_text(all_steps()[j])) == (if j < n {
            match stage_of(st, all_steps()[j]) {
                Some(x) => Some(TomlItemView::Table(stage_table(x))),
                None => None,
            }
        } else {
            None
        }),
        j >= n ==> key_index(stage_entries(st, n), step_text(all_steps()[j])) is None,
    decreases n,
{
    lemma_steps_distinct();
    let key = step_text(all_steps()[j]);
    if n == 0 {
        lemma_key_index_none(stage_entries(st, 0), key);
    } else {
        lemma_stage_entries_get(st, n - 1, j);
        let acc = stage_entries(st, n - 1);
        match stage_of(st, all_steps()[n - 1]) {
            Some(x) => {
                let e = (step_text(all_steps()[n - 1]), TomlItemView::Table(stage_table(x)));
                assert(stage_entries(st, n) == acc + seq![e]);
                lemma_key_index_concat(acc, seq![e], key);
                lemma_single(e.0, e.1, key);
            },
            None => {},
        }
    }
}

proof fn lemma_stage_round_trip(x: PluginStageView, name: Seq<char>)
    requires
        stage_reads_back(x),
    ensures
        stage_from(
            TomlTableView { entries: seq![(name, TomlItemView::Table(stage_table(x)))], position: None },
            name,
        ) == Ok::<Option<PluginStageView>, PluginErr>(Some(x)),
{
    reveal_strlit("file");
    reveal_strlit("priority");
    reveal_strlit("inputs");
    reveal_strlit("outputs");
    reveal_strlit("unsafe");
    let outer = TomlTableView { entries: seq![(name, TomlItemView::Table(stage_table(x)))], position: None };
    lemma_single(name, TomlItemView::Table(stage_table(x)), name);
    let t = stage_table(x);
    let a: Seq<(Seq<char>, TomlItemView)> = seq![
        ("file"@, TomlItemView::Value(TomlValueView::Str(x.file))),
        ("priority"@, TomlItemView::Value(TomlValueView::Int(x.priority as i64))),
    ];
    let b: Seq<(Seq<char>, TomlItemView)> = match x.inputs {
        Some(i) => seq![("inputs"@, text_array(i))],
        None => Seq::empty(),
    };
    let c: Seq<(Seq<char>, TomlItemView)> = match x.outputs {
        Some(o) => seq![("outputs"@, text_array(o))],
        None => Seq::empty(),
    };
    let d: Seq<(Seq<char>, TomlItemView)> = if x.enable_unsafe {
        seq![("unsafe"@, TomlItemView::Value(TomlValueView::Bool(true)))]
    } else {
        Seq::empty()
    };
    assert(t.entries == a + b + c + d);
    let keys = seq!["file"@, "priority"@, "inputs"@, "outputs"@, "unsafe"@];
    assert forall|i: int, j: int| 0 <= i < 5 && 0 <= j < 5 && i != j implies keys[i] != keys[j] by {
        assert(keys[i][0] != keys[j][0]);
    }
    assert forall|i: int| 0 <= i < 5 implies #[trigger] assoc_get(t.entries, keys[i]) == (if i < 2 {
        Some(a[i].1)
    } else if i == 2 {
        assoc_get(b, keys[i])
    } else if i == 3 {
        assoc_get(c, keys[i])
    } else {
        assoc_get(d, keys[i])
    }) by {
        lemma_key_index(a, keys[i]);
        if i < 2 {
            assert forall|j: int| 0 <= j < i implies a[j].0 != keys[i] by {
                assert(a[j].0 == keys[j]);
            }
            lemma_key_index_at(a, keys[i], i);
        } else {
            assert forall|j: int| 0 <= j < a.len() implies a[j].0 != keys[i] by {
                assert(a[j].0 == keys[j]);
            }
            lemma_key_index_none(a, keys[i]);
        }
        if b.len() > 0 {
            lemma_single(b[0].0, b[0].1, keys[i]);
            assert(b =~= seq![(b[0].0, b[0].1)]);
        } else {
            lemma_key_index_none(b, keys[i]);
        }
        if c.len() > 0 {
            lemma_single(c[0].0, c[0].1, keys[i]);
            assert(c =~= seq![(c[0].0, c[0].1)]);
        } else {
            lemma_key_index_none(c, keys[i]);
        }
        if d.len() > 0 {
            lemma_single(d[0].0, d[0].1, keys[i]);
            assert(d =~= seq![(d[0].0, d[0].1)]);
        } else {
            lemma_key_index_none(d, keys[i]);
        }
        lemma_key_index_concat(a, b, keys[i]);
        lemma_key_index_concat(a + b, c, keys[i]);
        lemma_key_index_concat(a + b + c, d, keys[i]);
    }
    assert(table_get(t, "file"@) == assoc_get(t.entries, keys[0]));
    assert(table_get(t, "priority"@) == assoc_get(t.entries, keys[1]));
    assert(table_get(t, "inputs"@) == assoc_get(t.entries, keys[2]));
    assert(table_get(t, "outputs"@) == assoc_get(t.entries, keys[3]));
    assert(table_get(t, "unsafe"@) == assoc_get(t.entries, keys[4]));
    assert((x.priority as i64) as i32 == x.priority);
    match x.inputs {
        Some(i) => {
            assert(i =~= Seq::<Seq<char>>::empty());
        },
        None => {},
    }
    match x.outputs {
        Some(o) => {
            assert(o =~= Seq::<Seq<char>>::empty());
        },
        None => {},
    }
}

proof fn lemma_stages_round_trip(st: Seq<(Step, PluginStageView)>, k: int)
    requires
        0 <= k <= 6,
        forall|i: int| 0 <= i < st.len() ==> stage_reads_back(#[trigger] st[i].1),
    ensures
        stages_upto(TomlTableView { entries: stage_entries(st, 6), position: None }, k)
            == Ok::<Seq<(Step, PluginStageView)>, PluginErr>(ordered_stages(st, k)),
    decreases k,
{
    if k > 0 {
        lemma_stages_round_trip(st, k - 1);
        let t = TomlTableView { entries: stage_entries(st, 6), position: None };
        let step = all_steps()[k - 1];
        let name = step_text(step);
        lemma_stage_entries_get(st, 6, k - 1);
        lemma_stage_of_member(st, step);
        match stage_of(st, step) {
            Some(x) => {
                let one = TomlTableView { entries: seq![(name, TomlItemView::Table(stage_table(x)))], position: None };
                lemma_stage_round_trip(x, name);
                lemma_single(name, TomlItemView::Table(stage_table(x)), name);
                assert(table_get(one, name) == table_get(t, name));
            },
            None => {},
        }
    }
}

proof fn lemma_stage_of_member(st: Seq<(Step, PluginStageView)>, step: Step)
    requires
        forall|i: int| 0 <= i < st.len() ==> stage_reads_back(#[trigger] st[i].1),
    ensures
        stage_of(st, step) matches Some(x) ==> stage_reads_back(x),
    decreases st.len(),
{
    if st.len() > 0 && st[0].0 != step {
        let rest = st.drop_first();
        assert forall|i: int| 0 <= i < rest.len() implies stage_reads_back(#[trigger] rest[i].1) by {
            assert(rest[i] == st[i + 1]);
        }
        lemma_stage_of_member(rest, step);
    } else if st.len() > 0 {
        assert(stage_reads_back(st[0].1));
    }
}

proof fn lemma_sdk_round_trip(e: SdkEntryView)
    requires
        e.repo == "google"@,
        crate::repository_toml::channel_named(e.channel),
    ensures
        sdk_from(e.name, sdk_item(e)) == Ok::<SdkEntryView, PluginErr>(e),
{
    reveal_strlit("path");
    reveal_strlit("version");
    reveal_strlit("channel");
    reveal_strlit("repo");
    let es = crate::tomldoc::inline_entries(
        seq![
            ("path"@, TomlValueView::Str(e.path)),
            ("version"@, TomlValueView::Str(revision_text(e.version))),
            ("channel"@, TomlValueView::Str(channel_text(e.channel))),
        ],
    );
    let keys = seq!["path"@, "version"@, "channel"@, "repo"@];
    assert forall|i: int, j: int| 0 <= i < 4 && 0 <= j < 4 && i != j implies keys[i] != keys[j] by {
        assert(keys[i][0] != keys[j][0] || keys[i][1] != keys[j][1]);
    }
    assert forall|i: int| 0 <= i < 3 implies es[i].0 == keys[i] by {}
    assert forall|i: int| 0 <= i < 3 implies #[trigger] assoc_get(es, keys[i]) == Some(es[i].1) by {
        assert forall|j: int| 0 <= j < i implies es[j].0 != keys[i] by {
            assert(es[j].0 == keys[j]);
        }
        lemma_key_index_at(es, keys[i], i);
    }
    assert forall|j: int| 0 <= j < es.len() implies es[j].0 != keys[3] by {
        assert(es[j].0 == keys[j]);
    }
    lemma_key_index_none(es, keys[3]);
    assert(assoc_get(es, "path"@) == Some(es[0].1));
    assert(assoc_get(es, "version"@) == Some(es[1].1));
    assert(assoc_get(es, "channel"@) == Some(es[2].1));
    crate::revision::lemma_revision_text_round_trip(e.version);
    crate::repository_toml::lemma_channel_round_trip(e.channel);
}

proof fn lemma_sdks_round_trip(sdk: Seq<SdkEntryView>, k: int)
    requires
        0 <= k <= sdk.len(),
        forall|i: int| 0 <= i < sdk.len() ==> (#[trigger] sdk[i]).repo == "google"@
            && crate::repository_toml::channel_named(sdk[i].channel),
    ensures
        sdks_upto(sdk.map_values(|e: SdkEntryView| (e.name, sdk_item(e))), k) == Ok::<
            Seq<SdkEntryView>,
            PluginErr,
        >(sdk.take(k)),
    decreases k,
{
    if k > 0 {
        lemma_sdks_round_trip(sdk, k - 1);
        let es = sdk.map_values(|e: SdkEntryView| (e.name, sdk_item(e)));
        assert(es[k - 1] == (sdk[k - 1].name, sdk_item(sdk[k - 1])));
        assert(sdk[k - 1].repo == "google"@);
        lemma_sdk_round_trip(sdk[k - 1]);
        assert(sdk.take(k) =~= sdk.take(k - 1).push(sdk[k - 1]));
    } else {
        assert(sdk.take(0) =~= Seq::<SdkEntryView>::empty());
    }
}

/// The document written for a plugin description reads back as that
/// description, where the description sets only what the document holds.
pub proof fn lemma_plugin_doc_round_trip(p: PluginTomlView)
    requires
        plugin_reads_back(p),
    ensures
        plugin_from_doc(plugin_doc(p)) == Ok::<PluginTomlView, PluginErr>(p),
{
    reveal_strlit("name");
    reveal_strlit("version");
    reveal_strlit("sdk");
    reveal_strlit("stage");
    reveal_strlit("unsafe");
    reveal_strlit("labt");
    reveal_strlit("repository");
    reveal_strlit("init");
    reveal_strlit("package_paths");
    let d = plugin_doc(p);
    let e = d.entries;
    let keys = seq!["name"@, "version"@, "sdk"@, "stage"@];
    assert forall|i: int, j: int| 0 <= i < 4 && 0 <= j < 4 && i != j implies keys[i] != keys[j] by {
        assert(keys[i][0] != keys[j][0] || keys[i][1] != keys[j][1]);
    }
    assert forall|i: int| 0 <= i < 4 implies e[i].0 == keys[i] by {}
    assert forall|i: int| 0 <= i < 4 implies #[trigger] table_get(d, keys[i]) == Some(e[i].1) by {
        assert forall|j: int| 0 <= j < i implies e[j].0 != keys[i] by {
            assert(e[j].0 == keys[j]);
        }
        lemma_key_index_at(e, keys[i], i);
    }
    let absent = seq!["unsafe"@, "labt"@, "repository"@, "init"@, "package_paths"@];
    assert forall|a: int| 0 <= a < 5 implies #[trigger] table_get(d, absent[a]) is None by {
        assert forall|j: int| 0 <= j < e.len() implies e[j].0 != absent[a] by {
            assert(e[j].0 == keys[j]);
            assert(e[j].0[0] != absent[a][0]);
        }
        lemma_key_index_none(e, absent[a]);
    }
    assert(table_get(d, "name"@) == Some(e[0].1));
    assert(table_get(d, "version"@) == Some(e[1].1));
    assert(table_get(d, "sdk"@) == Some(e[2].1));
    assert(table_get(d, "stage"@) == Some(e[3].1));
    assert(table_get(d, "unsafe"@) is None);
    assert(table_get(d, "labt"@) is None);
    assert(table_get(d, "repository"@) is None);
    assert(table_get(d, "init"@) is None);
    assert(table_get(d, "package_paths"@) is None);
    lemma_stages_round_trip(p.stages, 6);
    let se = p.sdk.map_values(|x: SdkEntryView| (x.name, sdk_item(x)));
    lemma_sdks_round_trip(p.sdk, p.sdk.len() as int);
    assert(p.sdk.take(p.sdk.len() as int) =~= p.sdk);
    assert(p.sdk_repo =~= Seq::<(Seq<char>, RepositoryInfoView)>::empty());
    assert(p.path =~= Seq::<char>::empty());
}

} // verus!
