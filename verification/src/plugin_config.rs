//! Plugin descriptions (`plugin.toml`): a plugin's name and version, its
//! build stages, the SDK packages and repositories it needs, and its
//! templating script.
use vstd::prelude::*;
use crate::assoc::{assoc_get, assoc_insert, find_key, insert_key, key_index, lemma_key_index, pairs_view};
use crate::repository::{channel_from_text, channel_text, ChannelType, ChannelView};
use crate::revision::{revision_from_text, revision_text, Revision, RevisionParseErrorKind};
use crate::strs::{chars_of, find_char_in, lemma_find_char, split_first, str_eq, str_to_string, string_from};
use crate::tomldoc::{
    item_array, item_bool, item_str, item_table, item_table_like, item_tables, item_value,
    entries_str, table_get, tables_view, toml_parsed, values_view, TomlItem, TomlItemView,
    TomlTable, TomlTableView, TomlValue, TomlValueView,
};
use crate::version::{spec_parse_range, RangeKind, RangeParseError, VersionRange};

verus! {

/// A build step.
#[derive(Clone, Copy, Debug, PartialEq, Eq, PartialOrd, Ord, Hash, Structural)]
pub enum Step {
    /// PRE compilation step which indicates that should
    /// run code generators, dependency injection, fetching dynamic
    /// modules etc.
    PRE,
    /// Android asset packaging
    AAPT,
    /// Application source files compilation, e.g. compile java, kotlin etc.
    COMPILE,
    /// Dexing application step to generate app classes.dex from jar files
    DEX,
    /// Bundles compiled resources into apk file and aligning, signing etc.
    BUNDLE,
    /// POST compilation step. Run, create a release file, return results to
    /// CI/CD pipeline etc.
    POST,
}

/// The name of a step.
pub open spec fn step_text(s: Step) -> Seq<char> {
    match s {
        Step::PRE => "pre"@,
        Step::AAPT => "aapt"@,
        Step::COMPILE => "compile"@,
        Step::DEX => "dex"@,
        Step::BUNDLE => "bundle"@,
        Step::POST => "post"@,
    }
}

/// The steps in the order they run.
pub open spec fn all_steps() -> Seq<Step> {
    seq![Step::PRE, Step::AAPT, Step::COMPILE, Step::DEX, Step::BUNDLE, Step::POST]
}

impl Step {
    /// The name of the step.
    pub fn name(&self) -> (r: &'static str)
        ensures
            r@ == step_text(*self),
    {
        match self {
            Step::PRE => "pre",
            Step::AAPT => "aapt",
            Step::COMPILE => "compile",
            Step::DEX => "dex",
            Step::BUNDLE => "bundle",
            Step::POST => "post",
        }
    }

    /// The name of the step, as a new text.
    pub fn to_string(&self) -> (r: String)
        ensures
            r@ == step_text(*self),
    {
        str_to_string(self.name())
    }
}

/// The step at a position of the run order.
pub(crate) fn step_at(i: usize) -> (r: Step)
    requires
        i < 6,
    ensures
        r == all_steps()[i as int],
{
    match i {
        0 => Step::PRE,
        1 => Step::AAPT,
        2 => Step::COMPILE,
        3 => Step::DEX,
        4 => Step::BUNDLE,
        _ => Step::POST,
    }
}

/// A build stage of a plugin.
#[derive(Debug, PartialEq, Eq)]
pub struct PluginStage {
    /// file containing the entry point
    pub file: String,
    /// plugin priority
    pub priority: i32,
    /// The input files that we should watch for changes
    pub inputs: Option<Vec<String>>,
    /// The output files that we should ensure that it is uptodate
    pub outputs: Option<Vec<String>>,
    /// Enable unsafe lua api
    pub enable_unsafe: bool,
}

/// The model of a stage.
pub struct PluginStageView {
    pub file: Seq<char>,
    pub priority: i32,
    pub inputs: Option<Seq<Seq<char>>>,
    pub outputs: Option<Seq<Seq<char>>>,
    pub enable_unsafe: bool,
}

pub open spec fn texts(s: Seq<String>) -> Seq<Seq<char>> {
    s.map_values(|t: String| t@)
}

pub open spec fn opt_texts(o: Option<Vec<String>>) -> Option<Seq<Seq<char>>> {
    match o {
        Some(v) => Some(texts(v@)),
        None => None,
    }
}

impl View for PluginStage {
    type V = PluginStageView;

    open spec fn view(&self) -> PluginStageView {
        PluginStageView {
            file: self.file@,
            priority: self.priority,
            inputs: opt_texts(self.inputs),
            outputs: opt_texts(self.outputs),
            enable_unsafe: self.enable_unsafe,
        }
    }
}

impl Default for PluginStage {
    fn default() -> (r: Self)
        ensures
            r@ == (PluginStageView {
                file: Seq::empty(),
                priority: 0,
                inputs: None,
                outputs: None,
                enable_unsafe: false,
            }),
    {
        PluginStage { file: String::new(), priority: 0, inputs: None, outputs: None, enable_unsafe: false }
    }
}

/// The stages of a plugin, one field per step.
#[derive(Debug, Default)]
pub struct Stage {
    /// Pre build state, used in generating code or building external
    /// dependency used in next steps
    pub pre: Option<PluginStage>,
    /// Complie application res folder and generate required R.java files
    pub aapt: Option<PluginStage>,
    /// Compile java/kotlin files to produce java jar files of the project
    pub compile: Option<PluginStage>,
    /// Dex jar files to produce android classes.dex files,
    pub dex: Option<PluginStage>,
    /// Bundles all the compiled app files into a zip with .apk extension,
    /// should also sign the bundle
    pub bundle: Option<PluginStage>,
    /// Do anything with the resulting built app file, deploy a release, install, run etc.
    pub post: Option<PluginStage>,
}

/// The templating script of a plugin.
#[derive(Debug, PartialEq, Eq)]
pub struct PluginInit {
    /// File for the template based initialization
    pub file: String,
    /// The templates directory to load from
    pub templates: Option<String>,
}

/// An SDK package that a plugin requires.
#[derive(Debug, PartialEq, Eq)]
pub struct SdkEntry {
    pub repo: String,
    pub name: String,
    pub path: String,
    pub version: Revision,
    pub channel: ChannelType,
}

/// The model of an SDK entry.
pub struct SdkEntryView {
    pub repo: Seq<char>,
    pub name: Seq<char>,
    pub path: Seq<char>,
    pub version: Revision,
    pub channel: ChannelView,
}

impl View for SdkEntry {
    type V = SdkEntryView;

    open spec fn view(&self) -> SdkEntryView {
        SdkEntryView {
            repo: self.repo@,
            name: self.name@,
            path: self.path@,
            version: self.version,
            channel: self.channel@,
        }
    }
}

/// The entry named `name` with nothing else set: from the `google`
/// repository, revision 0, no channel.
pub open spec fn default_sdk(name: Seq<char>) -> SdkEntryView {
    SdkEntryView {
        repo: "google"@,
        name: name,
        path: Seq::empty(),
        version: Revision { major: 0, minor: 0, micro: 0, preview: 0 },
        channel: ChannelView::Unset,
    }
}

impl Default for SdkEntry {
    fn default() -> (r: Self)
        ensures
            r@ == default_sdk(Seq::empty()),
    {
        SdkEntry {
            repo: str_to_string("google"),
            name: String::new(),
            path: String::new(),
            version: Revision::default(),
            channel: ChannelType::Unset,
        }
    }
}

impl Clone for SdkEntry {
    fn clone(&self) -> (r: Self)
        ensures
            r == *self,
    {
        SdkEntry {
            repo: self.repo.clone(),
            name: self.name.clone(),
            path: self.path.clone(),
            version: self.version,
            channel: self.channel.clone(),
        }
    }
}

/// A repository of SDK packages.
#[derive(Debug, PartialEq, Eq)]
pub struct RepositoryInfo {
    /// The repository url
    pub url: String,
    /// The licenses that the user accepted, each once
    pub accepted_licenses: Vec<String>,
    /// The repository directory. This is where all the repository data is stored and managed
    pub path: String,
}

/// The model of a repository.
pub struct RepositoryInfoView {
    pub url: Seq<char>,
    pub accepted_licenses: Seq<Seq<char>>,
    pub path: Seq<char>,
}

impl View for RepositoryInfo {
    type V = RepositoryInfoView;

    open spec fn view(&self) -> RepositoryInfoView {
        RepositoryInfoView {
            url: self.url@,
            accepted_licenses: texts(self.accepted_licenses@),
            path: self.path@,
        }
    }
}

/// A plugin description.
#[derive(Debug)]
pub struct PluginToml {
    /// plugin name
    pub name: String,
    /// plugin version
    pub version: String,
    /// plugin stages, by step
    pub stages: Vec<(Step, PluginStage)>,
    /// A list of plugin specified repositories, by name
    pub sdk_repo: Vec<(String, RepositoryInfo)>,
    /// plugin sdk dependencies
    pub sdk: Vec<SdkEntry>,
    /// this plugin templating script
    pub init: Option<PluginInit>,
    pub path: String,
    /// Paths to search for required lua modules
    pub package_paths: Option<Vec<String>>,
    /// Enable unsafe lua api for entire plugin
    pub enable_unsafe: bool,
    /// required Labt version
    pub labt: Option<VersionRange>,
}

/// The model of a plugin description.
pub struct PluginTomlView {
    pub name: Seq<char>,
    pub version: Seq<char>,
    pub stages: Seq<(Step, PluginStageView)>,
    pub sdk_repo: Seq<(Seq<char>, RepositoryInfoView)>,
    pub sdk: Seq<SdkEntryView>,
    pub init: Option<(Seq<char>, Option<Seq<char>>)>,
    pub path: Seq<char>,
    pub package_paths: Option<Seq<Seq<char>>>,
    pub enable_unsafe: bool,
    pub labt: Option<(RangeKind, Seq<char>)>,
}

pub open spec fn stages_view(s: Seq<(Step, PluginStage)>) -> Seq<(Step, PluginStageView)> {
    s.map_values(|p: (Step, PluginStage)| (p.0, p.1@))
}

pub open spec fn sdks_view(s: Seq<SdkEntry>) -> Seq<SdkEntryView> {
    s.map_values(|e: SdkEntry| e@)
}

impl View for PluginToml {
    type V = PluginTomlView;

    open spec fn view(&self) -> PluginTomlView {
        PluginTomlView {
            name: self.name@,
            version: self.version@,
            stages: stages_view(self.stages@),
            sdk_repo: pairs_view(self.sdk_repo@),
            sdk: sdks_view(self.sdk@),
            init: match self.init {
                Some(i) => Some((i.file@, match i.templates {
                    Some(t) => Some(t@),
                    None => None,
                })),
                None => None,
            },
            path: self.path@,
            package_paths: opt_texts(self.package_paths),
            enable_unsafe: self.enable_unsafe,
            labt: match self.labt {
                Some(r) => Some(r@),
                None => None,
            },
        }
    }
}

/// The first stage recorded for a step.
pub open spec fn stage_of(s: Seq<(Step, PluginStageView)>, step: Step) -> Option<PluginStageView>
    decreases s.len(),
{
    if s.len() == 0 {
        None
    } else if s[0].0 == step {
        Some(s[0].1)
    } else {
        stage_of(s.drop_first(), step)
    }
}

impl PluginToml {
    /// The stage of a step, if the plugin has one.
    pub fn stage(&self, step: Step) -> (r: Option<&PluginStage>)
        ensures
            match stage_of(self@.stages, step) {
                Some(s) => r matches Some(x) && x@ == s,
                None => r is None,
            },
    {
        let mut i: usize = 0;
        assert(self@.stages.skip(0) =~= self@.stages);
        while i < self.stages.len()
            invariant
                i <= self.stages.len(),
                stage_of(self@.stages, step) == stage_of(self@.stages.skip(i as int), step),
            decreases self.stages.len() - i,
        {
            assert(self@.stages.skip(i as int).drop_first() =~= self@.stages.skip(i + 1));
            if self.stages[i].0 == step {
                return Some(&self.stages[i].1);
            }
            i += 1;
        }
        None
    }

    /// Sets the stage of a step, replacing the one it had.
    pub fn insert_stage(&mut self, step: Step, stage: PluginStage)
        ensures
            stage_of(final(self)@.stages, step) == Some(stage@),
            forall|t: Step| t != step ==> stage_of(final(self)@.stages, t) == stage_of(old(self)@.stages, t),
            final(self)@ == (PluginTomlView { stages: final(self)@.stages, ..old(self)@ }),
    {
        let mut kept: Vec<(Step, PluginStage)> = Vec::new();
        kept.push((step, stage));
        let ghost first = stages_view(kept@);
        let mut old_stages: Vec<(Step, PluginStage)> = Vec::new();
        std::mem::swap(&mut old_stages, &mut self.stages);
        let ghost all = stages_view(old_stages@);
        kept.append(&mut old_stages);
        proof {
            assert(stages_view(kept@) =~= first + all);
            assert((first + all).drop_first() =~= all);
            assert forall|t: Step| t != step implies stage_of(first + all, t) == stage_of(all, t) by {
                assert((first + all)[0].0 == step);
            }
        }
        self.stages = kept;
    }
}

} // verus!
