//! The commands of the tool as values: their arguments, and what they make
//! of them before any work is done.
use vstd::prelude::*;
use crate::strs::{split_char, split_text, str_to_string};

verus! {

/// The groups a regular expression captures in a text by
/// `regex::Regex::captures`: every group by number (group 0 is the whole
/// match), `None` for a group that did not take part; nothing where the
/// expression does not match; an error where the expression is not one.
pub uninterp spec fn spec_regex_captures(pattern: Seq<char>, text: Seq<char>) -> Result<Option<Seq<Option<Seq<char>>>>, ()>;

/// Compiles `pattern` with `regex::Regex::new` and takes the groups of the
/// first match in `text` with `Regex::captures`, each group by number. The
/// result is named by `spec_regex_captures`; nothing else is claimed of it.
#[verifier::external_body]
fn regex_captures(pattern: &str, text: &str) -> (r: Result<Option<Vec<Option<String>>>, ()>)
    ensures
        match r {
            Ok(Some(gs)) => spec_regex_captures(pattern@, text@) == Ok::<Option<Seq<Option<Seq<char>>>>, ()>(
                Some(gs@.map_values(|g: Option<String>| match g {
                    Some(s) => Some(s@),
                    None => None,
                })),
            ),
            Ok(None) => spec_regex_captures(pattern@, text@) == Ok::<Option<Seq<Option<Seq<char>>>>, ()>(None),
            Err(()) => spec_regex_captures(pattern@, text@) is Err,
        },
{
    match regex::Regex::new(pattern) {
        Err(_) => Err(()),
        Ok(re) => Ok(re.captures(text).map(|c| c.iter().map(|m| m.map(|m| m.as_str().to_string())).collect())),
    }
}

/// The form of a dependency given as one text: `group:artifact:version`.
pub open spec fn dependency_pattern() -> Seq<char> {
    "^([\\w\\.]+):([\\w-]+):([\\w\\.-]+)$"@
}

/// Arguments of the command that adds a dependency.
#[derive(Debug, Clone, PartialEq, Eq)]
pub struct AddArgs {
    /// dependency group id
    pub group_id: Option<String>,
    /// dependency name
    pub artifact_id: Option<String>,
    /// Version
    pub version: Option<String>,
    /// Dependency string in the form group_id:artifact_id:version
    /// e.g. com.example:project1:1.0.0
    pub dependency: Option<String>,
}

/// The command that adds a dependency.
#[derive(Debug)]
pub struct Add {
    pub args: AddArgs,
}

/// Why the arguments do not name a dependency.
#[derive(Debug, Clone, Copy, PartialEq, Eq)]
pub enum AddArgsError {
    /// The dependency text is not `group:artifact:version`.
    InvalidDependency,
    /// No `-a`.
    MissingArtifactId,
    /// No `-g`.
    MissingGroupId,
    /// No `-V`.
    MissingVersion,
    /// The form of a dependency text could not be compiled.
    InvalidPattern,
}

fn clone_opt(o: &Option<String>) -> (r: Option<String>)
    ensures
        r == *o,
{
    match o {
        Some(s) => Some(s.clone()),
        None => None,
    }
}

/// The dependency that arguments name: the three parts of the dependency
/// text where there is one, else the group, artifact and version given
/// apart.
pub open spec fn named_dependency(
    dependency: Option<Seq<char>>,
    group_id: Option<Seq<char>>,
    artifact_id: Option<Seq<char>>,
    version: Option<Seq<char>>,
) -> Result<(Seq<char>, Seq<char>, Seq<char>), AddArgsError> {
    match dependency {
        Some(dep) => match spec_regex_captures(dependency_pattern(), dep) {
            Err(()) => Err(AddArgsError::InvalidPattern),
            Ok(None) => Err(AddArgsError::InvalidDependency),
            Ok(Some(gs)) => if gs.len() >= 4 && gs[1] is Some && gs[2] is Some && gs[3] is Some {
                Ok((gs[1]->Some_0, gs[2]->Some_0, gs[3]->Some_0))
            } else {
                Err(AddArgsError::InvalidDependency)
            },
        },
        None => match artifact_id {
            None => Err(AddArgsError::MissingArtifactId),
            Some(a) => match group_id {
                None => Err(AddArgsError::MissingGroupId),
                Some(g) => match version {
                    None => Err(AddArgsError::MissingVersion),
                    Some(v) => Ok((g, a, v)),
                },
            },
        },
    }
}

pub open spec fn opt_text(o: Option<String>) -> Option<Seq<char>> {
    match o {
        Some(s) => Some(s@),
        None => None,
    }
}

impl Add {
    pub fn new(args: &AddArgs) -> (r: Add)
        ensures
            r.args == *args,
    {
        Add {
            args: AddArgs {
                group_id: clone_opt(&args.group_id),
                artifact_id: clone_opt(&args.artifact_id),
                version: clone_opt(&args.version),
                dependency: clone_opt(&args.dependency),
            },
        }
    }

    /// The group, artifact and version of the dependency the arguments name.
    pub fn parse_dependency(&self) -> (r: Result<(String, String, String), AddArgsError>)
        ensures
            match named_dependency(
                opt_text(self.args.dependency),
                opt_text(self.args.group_id),
                opt_text(self.args.artifact_id),
                opt_text(self.args.version),
            ) {
                Ok((g, a, v)) => r matches Ok(x) && x.0@ == g && x.1@ == a && x.2@ == v,
                Err(e) => r == Err::<(String, String, String), AddArgsError>(e),
            },
    {
        if let Some(dep) = &self.args.dependency {
            return match regex_captures("^([\\w\\.]+):([\\w-]+):([\\w\\.-]+)$", dep.as_str()) {
                Err(()) => Err(AddArgsError::InvalidPattern),
                Ok(None) => Err(AddArgsError::InvalidDependency),
                Ok(Some(gs)) => {
                    if gs.len() >= 4 {
                        match (&gs[1], &gs[2], &gs[3]) {
                            (Some(g), Some(a), Some(v)) => Ok((g.clone(), a.clone(), v.clone())),
                            _ => Err(AddArgsError::InvalidDependency),
                        }
                    } else {
                        Err(AddArgsError::InvalidDependency)
                    }
                },
            };
        }
        let artifact_id = match &self.args.artifact_id {
            Some(a) => a.clone(),
            None => {
                return Err(AddArgsError::MissingArtifactId);
            },
        };
        let group_id = match &self.args.group_id {
            Some(g) => g.clone(),
            None => {
                return Err(AddArgsError::MissingGroupId);
            },
        };
        let version = match &self.args.version {
            Some(v) => v.clone(),
            None => {
                return Err(AddArgsError::MissingVersion);
            },
        };
        Ok((group_id, artifact_id, version))
    }
}

/// Arguments of the command that creates a project.
#[derive(Debug, Clone, PartialEq, Eq)]
pub struct InitArgs {
    /// Template repository url
    pub name: String,
    /// Directory to create project in
    pub path: Option<String>,
    /// Trust the installation of the plugin(s), as they have the ability to
    /// execute arbitrary code.
    pub trust: bool,
}

/// The command that creates a project.
#[derive(Debug)]
pub struct Init {
    pub args: InitArgs,
}

impl Init {
    pub fn new(args: &InitArgs) -> (r: Init)
        ensures
            r.args == *args,
    {
        Init { args: InitArgs { name: args.name.clone(), path: clone_opt(&args.path), trust: args.trust } }
    }
}

/// The directories of a new project.
#[derive(Debug, Clone, PartialEq, Eq)]
pub struct ProjectPaths {
    pub root: String,
    pub app: String,
    pub package: String,
    pub res: String,
}

/// Arguments of the command that resolves the dependencies.
#[derive(Debug, Clone, PartialEq, Eq)]
pub struct ResolveArgs {}

/// The command that resolves the dependencies.
#[derive(Debug)]
pub struct Resolve {
    pub args: ResolveArgs,
}

impl Resolve {
    pub fn new(args: &ResolveArgs) -> (r: Self) {
        Resolve { args: ResolveArgs {  } }
    }
}

/// Arguments of the command that creates a plugin.
#[derive(Debug, Clone, PartialEq, Eq)]
pub struct CreateArgs {
    /// Plugin name to create
    pub name: String,
    /// Plugin version
    pub version: String,
    /// The location to create the plugin, default Labt plugins folder
    pub path: Option<String>,
    /// If the plugin is local to the project
    pub local: bool,
}

/// Arguments of the command that removes a plugin.
#[derive(Debug, Clone, PartialEq, Eq)]
pub struct RemoveArgs {
    /// Plugin name to be removed
    pub name: String,
}

/// Arguments naming a plugin to use.
#[derive(Debug, Clone, PartialEq, Eq)]
pub struct UseArgs {
    /// The name of the plugin
    pub name: String,
    /// The version of the plugin
    pub version: String,
    /// The path/url where to fetch the plugin
    pub location: String,
}

/// The subcommands of the plugin command.
#[derive(Debug, Clone, PartialEq, Eq)]
pub enum PluginSubcommands {
    /// Create a plugin
    Create(CreateArgs),
    /// remove a plugin
    Remove(RemoveArgs),
    /// Install missing plugins defined in Project config
    Fetch,
}

/// Arguments of the plugin command.
#[derive(Debug, Clone, PartialEq, Eq)]
pub struct PluginArgs {
    /// Plugin subcommand
    pub command: Option<PluginSubcommands>,
    /// Specify the plugin url in the format URL[@version]
    pub plugin_id: Option<String>,
}

/// The plugin command.
#[derive(Debug)]
pub struct Plugin<'a> {
    /// commandline args passed to this submodule
    pub args: &'a PluginArgs,
}

impl<'a> Plugin<'a> {
    pub fn new(args: &'a PluginArgs) -> (r: Self)
        ensures
            r.args == args,
    {
        Plugin { args }
    }
}

/// The location and version of a plugin id `URL[@version]`: the text up to
/// the first `@`, and the text up to a second one.
pub open spec fn plugin_id_parts(id: Seq<char>) -> (Seq<char>, Option<Seq<char>>) {
    let parts = split_char(id, '@');
    (parts[0], if parts.len() > 1 {
        Some(parts[1])
    } else {
        None
    })
}

/// Splits a plugin id `URL[@version]`.
pub fn parse_plugin_id(id: &str) -> (r: (String, Option<String>))
    ensures
        r.0@ == plugin_id_parts(id@).0,
        opt_text(r.1) == plugin_id_parts(id@).1,
{
    let parts = split_text(id, '@');
    proof {
        crate::strs::lemma_split_char_len(id@, '@');
        assert(parts@.map_values(|t: String| t@)[0] == parts@[0]@);
        if parts@.len() > 1 {
            assert(parts@.map_values(|t: String| t@)[1] == parts@[1]@);
        }
    }
    let url = parts[0].clone();
    let version = if parts.len() > 1 {
        Some(parts[1].clone())
    } else {
        None
    };
    (url, version)
}

/// Arguments of the command that adds an SDK repository.
#[derive(Debug, Clone, PartialEq, Eq)]
pub struct SdkAddArgs {
    /// The name to save this repository as
    pub name: String,
    /// The repository.xml url to fetch sdk list
    pub url: Option<String>,
}

} // verus!
