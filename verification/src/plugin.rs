//! Plugins as the build runs them: one per build step that a plugin
//! description declares, grouped by step.
use vstd::prelude::*;
use std::rc::Rc;
use crate::paths::{joined, path_join, push_path};
use crate::sdk_module::join_all;
use crate::strs::{chars_of, ends_with, split_char, split_text, str_to_string, string_from};
use crate::urls::{parse_url, parts_view, url_parsed};
use crate::constraint::{range_op, range_op_exec};
use crate::repository::{packages_view, RemotePackage, RemotePackageView, RepositoryXml};
use crate::verorder::{compare_versions_to, spec_version_compare_to, VersionRel};
use crate::version::{RangeKind, VersionRange};
use crate::plugin_config::{
    all_steps, sdks_view, stage_of, step_at, texts, PluginStage, PluginStageView, PluginToml,
    PluginTomlView, SdkEntry, SdkEntryView, Step,
};

verus! {

/// A plugin for one build step.
#[derive(Debug)]
pub struct Plugin {
    pub name: String,
    pub version: String,
    /// The file of the step's entry point
    pub path: String,
    pub step: Step,
    pub priority: i32,
    /// The files to check for changes during a build step: the input and
    /// output patterns, where the stage declares both
    pub dependents: Option<(Vec<String>, Vec<String>)>,
    /// package paths
    pub package_paths: Vec<String>,
    /// Unsafe mode enabled for this plugin
    pub unsafe_mode: bool,
    /// List of sdk modules to load
    pub sdk_dependencies: Rc<Vec<SdkEntry>>,
}

/// The model of a plugin.
pub struct PluginView {
    pub name: Seq<char>,
    pub version: Seq<char>,
    pub path: Seq<char>,
    pub step: Step,
    pub priority: i32,
    pub dependents: Option<(Seq<Seq<char>>, Seq<Seq<char>>)>,
    pub package_paths: Seq<Seq<char>>,
    pub unsafe_mode: bool,
    pub sdk_dependencies: Seq<SdkEntryView>,
}

impl View for Plugin {
    type V = PluginView;

    open spec fn view(&self) -> PluginView {
        PluginView {
            name: self.name@,
            version: self.version@,
            path: self.path@,
            step: self.step,
            priority: self.priority,
            dependents: match self.dependents {
                Some((i, o)) => Some((texts(i@), texts(o@))),
                None => None,
            },
            package_paths: texts(self.package_paths@),
            unsafe_mode: self.unsafe_mode,
            sdk_dependencies: sdks_view((*self.sdk_dependencies)@),
        }
    }
}

pub open spec fn plugins_view(s: Seq<Plugin>) -> Seq<PluginView> {
    s.map_values(|p: Plugin| p@)
}

/// Where lua modules of a plugin are looked for: each of its package paths
/// (a relative one under the plugin's directory), then `?.lua` and
/// `?/init.lua` under the plugin's directory.
pub open spec fn package_paths_of(paths: Seq<Seq<char>>, root: Seq<char>) -> Seq<Seq<char>> {
    paths.map_values(|p: Seq<char>| path_join(root, p)) + seq![
        path_join(root, "?.lua"@),
        path_join(root, "?/init.lua"@),
    ]
}

/// The plugin that a description runs for a step, by the stage it declares
/// for it.
pub open spec fn step_plugin(t: PluginTomlView, step: Step, s: PluginStageView) -> PluginView {
    PluginView {
        name: t.name,
        version: t.version,
        path: path_join(t.path, s.file),
        step,
        priority: s.priority,
        dependents: match (s.inputs, s.outputs) {
            (Some(i), Some(o)) => Some((i, o)),
            _ => None,
        },
        package_paths: package_paths_of(
            match t.package_paths {
                Some(p) => p,
                None => Seq::empty(),
            },
            t.path,
        ),
        unsafe_mode: t.enable_unsafe || s.enable_unsafe,
        sdk_dependencies: t.sdk,
    }
}

/// The plugins of the first `n` steps, in the order the steps run.
pub open spec fn steps_upto(t: PluginTomlView, n: int) -> Seq<PluginView>
    decreases n,
{
    if n <= 0 {
        Seq::empty()
    } else {
        let rest = steps_upto(t, n - 1);
        let step = all_steps()[n - 1];
        match stage_of(t.stages, step) {
            Some(s) => rest.push(step_plugin(t, step, s)),
            None => rest,
        }
    }
}

/// Tries to check if the provided package paths are relative, and adds the
/// plugin root dir to them to make a valid path; then adds the plugin's own
/// module patterns.
pub fn load_package_paths(paths: &[String], plugin_root: &str) -> (r: Vec<String>)
    ensures
        texts(r@) == package_paths_of(texts(paths@), plugin_root@),
{
    let mut out: Vec<String> = Vec::new();
    let mut i: usize = 0;
    while i < paths.len()
        invariant
            i <= paths.len(),
            texts(out@) == texts(paths@).take(i as int).map_values(|p: Seq<char>| path_join(plugin_root@, p)),
        decreases paths.len() - i,
    {
        let ghost before = out@;
        out.push(joined(plugin_root, paths[i].as_str()));
        proof {
            assert(texts(out@) =~= texts(before).push(path_join(plugin_root@, paths@[i as int]@)));
            assert(texts(paths@).take(i + 1) =~= texts(paths@).take(i as int).push(paths@[i as int]@));
            assert(texts(paths@).take(i + 1).map_values(|p: Seq<char>| path_join(plugin_root@, p))
                =~= texts(paths@).take(i as int).map_values(
                |p: Seq<char>| path_join(plugin_root@, p),
            ).push(path_join(plugin_root@, paths@[i as int]@)));
        }
        i += 1;
    }
    let ghost mid = out@;
    out.push(joined(plugin_root, "?.lua"));
    out.push(joined(plugin_root, "?/init.lua"));
    proof {
        assert(texts(paths@).take(paths.len() as int) == texts(paths@));
        assert(texts(out@) =~= package_paths_of(texts(paths@), plugin_root@));
    }
    out
}

fn copy_texts(v: &Vec<String>) -> (r: Vec<String>)
    ensures
        r@ == v@,
{
    crate::resolve::clone_texts(v)
}

fn copy_sdks(v: &Vec<SdkEntry>) -> (r: Vec<SdkEntry>)
    ensures
        r@ == v@,
{
    let mut out: Vec<SdkEntry> = Vec::new();
    let mut i: usize = 0;
    while i < v.len()
        invariant
            i <= v.len(),
            out@ == v@.take(i as int),
        decreases v.len() - i,
    {
        out.push(v[i].clone());
        assert(v@.take(i + 1) == v@.take(i as int).push(v@[i as int]));
        i += 1;
    }
    assert(v@.take(v.len() as int) == v@);
    out
}

impl Plugin {
    pub fn new(name: String, version: String, path: String, step: Step) -> (r: Self)
        ensures
            r@ == (PluginView {
                name: name@,
                version: version@,
                path: path@,
                step,
                priority: 0,
                dependents: None,
                package_paths: Seq::empty(),
                unsafe_mode: false,
                sdk_dependencies: Seq::empty(),
            }),
    {
        let r = Plugin {
            name,
            version,
            path,
            step,
            priority: 0,
            dependents: None,
            package_paths: Vec::new(),
            unsafe_mode: false,
            sdk_dependencies: Rc::new(Vec::new()),
        };
        proof {
            assert(texts(r.package_paths@) =~= Seq::<Seq<char>>::empty());
            assert(sdks_view((*r.sdk_dependencies)@) =~= Seq::<SdkEntryView>::empty());
        }
        r
    }
}

/// The plugin of a description for a step with stage `s`.
fn plugin_for(t: &PluginToml, step: Step, s: &PluginStage) -> (r: Plugin)
    ensures
        r@ == step_plugin(t@, step, s@),
{
    let mut plugin = Plugin::new(t.name.clone(), t.version.clone(), joined(t.path.as_str(), s.file.as_str()), step);
    plugin.sdk_dependencies = Rc::new(copy_sdks(&t.sdk));
    plugin.priority = s.priority;
    plugin.unsafe_mode = t.enable_unsafe || s.enable_unsafe;
    plugin.package_paths = match &t.package_paths {
        Some(ps) => load_package_paths(ps.as_slice(), t.path.as_str()),
        None => {
            let none: Vec<String> = Vec::new();
            proof {
                assert(texts(none@) =~= Seq::<Seq<char>>::empty());
            }
            load_package_paths(none.as_slice(), t.path.as_str())
        },
    };
    plugin.dependents = match (&s.inputs, &s.outputs) {
        (Some(i), Some(o)) => Some((copy_texts(i), copy_texts(o))),
        _ => None,
    };
    proof {
        assert(plugin@.package_paths == step_plugin(t@, step, s@).package_paths);
    }
    plugin
}

impl PluginToml {
    /// The plugins of the stages this description declares, one per step,
    /// in the order the steps run. Input and output patterns stay as
    /// declared; expanding them against the file system is left to the
    /// caller.
    pub fn get_steps(self) -> (r: Vec<Plugin>)
        ensures
            plugins_view(r@) == steps_upto(self@, 6),
    {
        let mut steps: Vec<Plugin> = Vec::new();
        let mut k: usize = 0;
        assert(plugins_view(steps@) =~= Seq::<PluginView>::empty());
        while k < 6
            invariant
                k <= 6,
                plugins_view(steps@) == steps_upto(self@, k as int),
            decreases 6 - k,
        {
            let step = step_at(k);
            match self.stage(step) {
                Some(s) => {
                    let p = plugin_for(&self, step, s);
                    let ghost before = steps@;
                    steps.push(p);
                    proof {
                        assert(plugins_view(steps@) =~= plugins_view(before).push(p@));
                    }
                },
                None => {},
            }
            k += 1;
        }
        steps
    }
}

/// The plugins grouped by step: each step once, in the order it first
/// comes, with its plugins in their order.
pub open spec fn group_by_step(ps: Seq<PluginView>) -> Seq<(Step, Seq<PluginView>)>
    decreases ps.len(),
{
    if ps.len() == 0 {
        Seq::empty()
    } else {
        add_to_group(group_by_step(ps.drop_last()), ps.last())
    }
}

/// The position of the group of `step`.
pub open spec fn group_index(gs: Seq<(Step, Seq<PluginView>)>, step: Step) -> Option<int>
    decreases gs.len(),
{
    if gs.len() == 0 {
        None
    } else {
        match group_index(gs.drop_last(), step) {
            Some(i) => Some(i),
            None => if gs.last().0 == step {
                Some(gs.len() - 1)
            } else {
                None
            },
        }
    }
}

/// Adds a plugin to the group of its step, or to a new group at the end.
pub open spec fn add_to_group(gs: Seq<(Step, Seq<PluginView>)>, p: PluginView) -> Seq<(Step, Seq<PluginView>)> {
    match group_index(gs, p.step) {
        Some(i) => gs.update(i, (p.step, gs[i].1.push(p))),
        None => gs.push((p.step, seq![p])),
    }
}

/// The plugins of a list of descriptions, one after the other.
pub open spec fn plugins_of(cs: Seq<PluginTomlView>) -> Seq<PluginView>
    decreases cs.len(),
{
    if cs.len() == 0 {
        Seq::empty()
    } else {
        plugins_of(cs.drop_last()) + steps_upto(cs.last(), 6)
    }
}

pub open spec fn groups_view(gs: Seq<(Step, Vec<Plugin>)>) -> Seq<(Step, Seq<PluginView>)> {
    gs.map_values(|g: (Step, Vec<Plugin>)| (g.0, plugins_view(g.1@)))
}

pub open spec fn tomls_view(cs: Seq<PluginToml>) -> Seq<PluginTomlView> {
    cs.map_values(|c: PluginToml| c@)
}

proof fn lemma_group_index_bounds(gs: Seq<(Step, Seq<PluginView>)>, step: Step)
    ensures
        group_index(gs, step) matches Some(i) ==> 0 <= i < gs.len() && gs[i].0 == step,
        group_index(gs, step) is None ==> forall|j: int| 0 <= j < gs.len() ==> gs[j].0 != step,
    decreases gs.len(),
{
    if gs.len() > 0 {
        lemma_group_index_bounds(gs.drop_last(), step);
        assert(forall|j: int| 0 <= j < gs.len() - 1 ==> gs[j] == gs.drop_last()[j]);
    }
}

proof fn lemma_group_index_at(gs: Seq<(Step, Seq<PluginView>)>, step: Step, i: int)
    requires
        0 <= i < gs.len(),
        gs[i].0 == step,
        forall|j: int| 0 <= j < i ==> gs[j].0 != step,
    ensures
        group_index(gs, step) == Some(i),
    decreases gs.len(),
{
    if i < gs.len() - 1 {
        assert(gs.drop_last()[i] == gs[i]);
        assert forall|j: int| 0 <= j < i implies gs.drop_last()[j].0 != step by {
            assert(gs.drop_last()[j] == gs[j]);
        }
        lemma_group_index_at(gs.drop_last(), step, i);
    } else {
        lemma_group_index_bounds(gs.drop_last(), step);
        assert forall|j: int| 0 <= j < gs.drop_last().len() implies gs.drop_last()[j].0 != step by {
            assert(gs.drop_last()[j] == gs[j]);
        }
    }
}

/// Adds a plugin to the group of its step.
fn add_plugin(groups: &mut Vec<(Step, Vec<Plugin>)>, plugin: Plugin)
    ensures
        groups_view(final(groups)@) == add_to_group(groups_view(old(groups)@), plugin@),
{
    let ghost gv = groups_view(groups@);
    let mut i: usize = 0;
    while i < groups.len()
        invariant
            i <= groups.len(),
            gv == groups_view(groups@),
            gv == groups_view(old(groups)@),
            forall|j: int| 0 <= j < i ==> gv[j].0 != plugin@.step,
        decreases groups.len() - i,
    {
        if groups[i].0 == plugin.step {
            proof {
                lemma_group_index_at(gv, plugin@.step, i as int);
            }
            let ghost entry = groups@[i as int];
            let (step, mut list) = groups.remove(i);
            let ghost pv = plugin@;
            let ghost lv = plugins_view(list@);
            proof {
                assert(entry == (step, list));
                assert(gv[i as int] == (step, lv));
                assert(step == pv.step);
            }
            list.push(plugin);
            proof {
                assert(plugins_view(list@) =~= lv.push(pv));
            }
            groups.insert(i, (step, list));
            proof {
                assert(groups_view(groups@) =~= gv.update(i as int, (step, lv.push(pv))));
            }
            return;
        }
        i += 1;
    }
    proof {
        lemma_group_index_bounds(gv, plugin@.step);
        match group_index(gv, plugin@.step) {
            Some(k) => {
                assert(gv[k].0 == plugin@.step);
            },
            None => {},
        }
    }
    let ghost pv = plugin@;
    let step = plugin.step;
    let mut list: Vec<Plugin> = Vec::new();
    list.push(plugin);
    groups.push((step, list));
    proof {
        assert(plugins_view(list@) =~= seq![pv]);
        assert(groups_view(groups@) =~= gv.push((step, seq![pv])));
    }
}

proof fn lemma_group_append(ps: Seq<PluginView>, qs: Seq<PluginView>)
    ensures
        group_by_step(ps + qs) == group_fold(group_by_step(ps), qs),
    decreases qs.len(),
{
    if qs.len() == 0 {
        assert(ps + qs =~= ps);
    } else {
        assert((ps + qs).drop_last() =~= ps + qs.drop_last());
        assert((ps + qs).last() == qs.last());
        lemma_group_append(ps, qs.drop_last());
    }
}

/// Adds the plugins `qs`, one after the other, to the groups `gs`.
pub open spec fn group_fold(gs: Seq<(Step, Seq<PluginView>)>, qs: Seq<PluginView>) -> Seq<(Step, Seq<PluginView>)>
    decreases qs.len(),
{
    if qs.len() == 0 {
        gs
    } else {
        add_to_group(group_fold(gs, qs.drop_last()), qs.last())
    }
}

/// Loads the plugins of the descriptions and groups them by the step they
/// run in.
pub fn load_plugins(configs: Vec<PluginToml>) -> (r: Vec<(Step, Vec<Plugin>)>)
    ensures
        groups_view(r@) == group_by_step(plugins_of(tomls_view(configs@))),
{
    let ghost cv = tomls_view(configs@);
    let mut groups: Vec<(Step, Vec<Plugin>)> = Vec::new();
    let mut configs = configs;
    let mut done: usize = 0;
    let n = configs.len();
    let ghost total = configs@.len();
    let ghost orig = configs@;
    assert(total == n);
    assert(cv.take(0) =~= Seq::<PluginTomlView>::empty());
    assert(groups_view(groups@) =~= Seq::<(Step, Seq<PluginView>)>::empty());
    assert(orig.skip(0) =~= orig);
    while configs.len() > 0
        invariant
            done + configs.len() == total,
            total <= usize::MAX,
            cv.len() == total,
            orig.len() == total,
            cv == tomls_view(orig),
            configs@ == orig.skip(done as int),
            groups_view(groups@) == group_by_step(plugins_of(cv.take(done as int))),
        decreases configs.len(),
    {
        let config = configs.remove(0);
        let ghost c = config@;
        proof {
            assert(config == orig[done as int]);
            assert(c == cv[done as int]);
            assert(configs@ =~= orig.skip(done + 1));
        }
        let steps = config.get_steps();
        let ghost sv = plugins_view(steps@);
        let mut k: usize = 0;
        let ghost g0 = groups_view(groups@);
        assert(sv.take(0) =~= Seq::<PluginView>::empty());
        while k < steps.len()
            invariant
                k <= steps.len(),
                sv == plugins_view(steps@),
                groups_view(groups@) == group_fold(g0, sv.take(k as int)),
            decreases steps.len() - k,
        {
            proof {
                assert(sv.take(k + 1).drop_last() == sv.take(k as int));
                assert(sv.take(k + 1).last() == steps@[k as int]@);
            }
            let p = copy_plugin(&steps[k]);
            add_plugin(&mut groups, p);
            k += 1;
        }
        proof {
            assert(sv.take(steps.len() as int) == sv);
            assert(cv.take(done + 1).drop_last() == cv.take(done as int));
            assert(cv.take(done + 1).last() == c);
            lemma_group_append(plugins_of(cv.take(done as int)), sv);
        }
        done += 1;
    }
    proof {
        assert(cv.take(total as int) == cv);
    }
    groups
}

fn copy_plugin(p: &Plugin) -> (r: Plugin)
    ensures
        r@ == p@,
{
    Plugin {
        name: p.name.clone(),
        version: p.version.clone(),
        path: p.path.clone(),
        step: p.step,
        priority: p.priority,
        dependents: match &p.dependents {
            Some((i, o)) => Some((copy_texts(i), copy_texts(o))),
            None => None,
        },
        package_paths: copy_texts(&p.package_paths),
        unsafe_mode: p.unsafe_mode,
        sdk_dependencies: Rc::new(copy_sdks(&p.sdk_dependencies)),
    }
}


/// Every group holds plugins of its own step only, no step has two groups,
/// and grouping keeps every plugin: the groups hold as many plugins as there
/// are.
pub proof fn lemma_group_by_step(ps: Seq<PluginView>)
    ensures
        forall|i: int, k: int|
            0 <= i < group_by_step(ps).len() && 0 <= k < group_by_step(ps)[i].1.len() ==> (
            #[trigger] group_by_step(ps)[i].1[k]).step == group_by_step(ps)[i].0,
        forall|i: int, j: int|
            0 <= i < j < group_by_step(ps).len() ==> #[trigger] group_by_step(ps)[i].0
                != #[trigger] group_by_step(ps)[j].0,
        group_total(group_by_step(ps)) == ps.len(),
    decreases ps.len(),
{
    if ps.len() > 0 {
        let gs = group_by_step(ps.drop_last());
        let p = ps.last();
        lemma_group_by_step(ps.drop_last());
        lemma_group_index_bounds(gs, p.step);
        let hs = add_to_group(gs, p);
        match group_index(gs, p.step) {
            Some(i) => {
                assert forall|a: int, k: int| 0 <= a < hs.len() && 0 <= k < hs[a].1.len() implies (
                #[trigger] hs[a].1[k]).step == hs[a].0 by {
                    if a != i {
                        assert(hs[a] == gs[a]);
                        assert((gs[a].1[k]).step == gs[a].0);
                    } else if k < gs[i].1.len() {
                        assert(hs[a].1[k] == gs[i].1[k]);
                        assert((gs[i].1[k]).step == gs[i].0);
                    } else {
                        assert(hs[a].1[k] == p);
                    }
                }
                assert forall|a: int, b: int| 0 <= a < b < hs.len() implies #[trigger] hs[a].0
                    != #[trigger] hs[b].0 by {
                    assert(hs[a].0 == gs[a].0);
                    assert(hs[b].0 == gs[b].0);
                }
                lemma_group_total_update(gs, i, (p.step, gs[i].1.push(p)));
            },
            None => {
                assert forall|a: int, k: int| 0 <= a < hs.len() && 0 <= k < hs[a].1.len() implies (
                #[trigger] hs[a].1[k]).step == hs[a].0 by {
                    if a < gs.len() {
                        assert(hs[a] == gs[a]);
                        assert((gs[a].1[k]).step == gs[a].0);
                    } else {
                        assert(hs[a] == (p.step, seq![p]));
                        assert(hs[a].1[k] == p);
                    }
                }
                assert forall|a: int, b: int| 0 <= a < b < hs.len() implies #[trigger] hs[a].0
                    != #[trigger] hs[b].0 by {
                    if b < gs.len() {
                        assert(hs[a] == gs[a]);
                        assert(hs[b] == gs[b]);
                    } else {
                        assert(hs[a] == gs[a]);
                    }
                }
                assert(hs.drop_last() =~= gs);
            },
        }
    }
}

/// The plugins of `ps` that run in step `step`, in their order.
pub open spec fn of_step(ps: Seq<PluginView>, step: Step) -> Seq<PluginView> {
    ps.filter(|p: PluginView| p.step == step)
}

proof fn lemma_of_step_none(ps: Seq<PluginView>, step: Step)
    requires
        forall|k: int| 0 <= k < ps.len() ==> (#[trigger] ps[k]).step != step,
    ensures
        of_step(ps, step) == Seq::<PluginView>::empty(),
    decreases ps.len(),
{
    reveal(Seq::filter);
    if ps.len() > 0 {
        assert forall|k: int| 0 <= k < ps.drop_last().len() implies (#[trigger] ps.drop_last()[k]).step != step by {
            assert(ps.drop_last()[k] == ps[k]);
        }
        lemma_of_step_none(ps.drop_last(), step);
        assert(ps.last() == ps[ps.len() - 1]);
    }
}

proof fn lemma_groups_are_steps(ps: Seq<PluginView>)
    ensures
        forall|i: int|
            0 <= i < group_by_step(ps).len() ==> (#[trigger] group_by_step(ps)[i]).1 == of_step(
                ps,
                group_by_step(ps)[i].0,
            ) && group_by_step(ps)[i].1.len() > 0,
        forall|k: int|
            0 <= k < ps.len() ==> exists|i: int|
                0 <= i < group_by_step(ps).len() && (#[trigger] group_by_step(ps)[i]).0 == (#[trigger] ps[k]).step,
    decreases ps.len(),
{
    reveal(Seq::filter);
    if ps.len() > 0 {
        let qs = ps.drop_last();
        let gs = group_by_step(qs);
        let p = ps.last();
        lemma_groups_are_steps(qs);
        lemma_group_by_step(qs);
        lemma_group_index_bounds(gs, p.step);
        let hs = add_to_group(gs, p);
        assert(group_by_step(ps) == hs);
        assert forall|s: Step| s != p.step implies #[trigger] of_step(ps, s) == of_step(qs, s) by {}
        match group_index(gs, p.step) {
            Some(i) => {
                assert forall|a: int| 0 <= a < hs.len() implies (#[trigger] hs[a]).1 == of_step(ps, hs[a].0)
                    && hs[a].1.len() > 0 by {
                    if a != i {
                        assert(hs[a] == gs[a]);
                        assert(gs[a].0 != gs[i].0);
                    } else {
                        assert(of_step(ps, p.step) == of_step(qs, p.step).push(p));
                    }
                }
                assert forall|k: int| 0 <= k < ps.len() implies exists|a: int|
                    0 <= a < hs.len() && (#[trigger] hs[a]).0 == (#[trigger] ps[k]).step by {
                    if k < qs.len() {
                        assert(ps[k] == qs[k]);
                        let a = choose|a: int| 0 <= a < gs.len() && (#[trigger] gs[a]).0 == (#[trigger] qs[k]).step;
                        assert(hs[a].0 == gs[a].0);
                    } else {
                        assert(hs[i].0 == ps[k].step);
                    }
                }
            },
            None => {
                assert forall|k: int| 0 <= k < qs.len() implies (#[trigger] qs[k]).step != p.step by {
                    let a = choose|a: int| 0 <= a < gs.len() && (#[trigger] gs[a]).0 == (#[trigger] qs[k]).step;
                }
                lemma_of_step_none(qs, p.step);
                assert forall|a: int| 0 <= a < hs.len() implies (#[trigger] hs[a]).1 == of_step(ps, hs[a].0)
                    && hs[a].1.len() > 0 by {
                    if a < gs.len() {
                        assert(hs[a] == gs[a]);
                    } else {
                        assert(hs[a] == (p.step, seq![p]));
                        assert(of_step(ps, p.step) =~= seq![p]);
                    }
                }
                assert forall|k: int| 0 <= k < ps.len() implies exists|a: int|
                    0 <= a < hs.len() && (#[trigger] hs[a]).0 == (#[trigger] ps[k]).step by {
                    if k < qs.len() {
                        assert(ps[k] == qs[k]);
                        let a = choose|a: int| 0 <= a < gs.len() && (#[trigger] gs[a]).0 == (#[trigger] qs[k]).step;
                        assert(hs[a].0 == gs[a].0);
                    } else {
                        assert(hs[gs.len() as int].0 == ps[k].step);
                    }
                }
            },
        }
    }
}

/// The groups that loading the plugins of the descriptions `cs` gives: each
/// holds exactly the plugins of its step, in the order of the descriptions,
/// and none is empty; every plugin's step has its group, and no step has
/// two.
pub proof fn lemma_load_groups(cs: Seq<PluginTomlView>)
    ensures
        forall|i: int|
            0 <= i < group_by_step(plugins_of(cs)).len() ==> (#[trigger] group_by_step(plugins_of(cs))[i]).1
                == of_step(plugins_of(cs), group_by_step(plugins_of(cs))[i].0) && group_by_step(
                plugins_of(cs),
            )[i].1.len() > 0,
        forall|k: int|
            0 <= k < plugins_of(cs).len() ==> exists|i: int|
                0 <= i < group_by_step(plugins_of(cs)).len() && (#[trigger] group_by_step(plugins_of(cs))[i]).0
                    == (#[trigger] plugins_of(cs)[k]).step,
        forall|i: int, j: int|
            0 <= i < j < group_by_step(plugins_of(cs)).len() ==> #[trigger] group_by_step(plugins_of(cs))[i].0
                != #[trigger] group_by_step(plugins_of(cs))[j].0,
{
    lemma_groups_are_steps(plugins_of(cs));
    lemma_group_by_step(plugins_of(cs));
}

/// How many plugins the groups hold.
pub open spec fn group_total(gs: Seq<(Step, Seq<PluginView>)>) -> int
    decreases gs.len(),
{
    if gs.len() == 0 {
        0
    } else {
        group_total(gs.drop_last()) + gs.last().1.len()
    }
}

proof fn lemma_group_total_update(gs: Seq<(Step, Seq<PluginView>)>, i: int, g: (Step, Seq<PluginView>))
    requires
        0 <= i < gs.len(),
    ensures
        group_total(gs.update(i, g)) == group_total(gs) - gs[i].1.len() + g.1.len(),
    decreases gs.len(),
{
    if i < gs.len() - 1 {
        assert(gs.update(i, g).drop_last() =~= gs.drop_last().update(i, g));
        lemma_group_total_update(gs.drop_last(), i, g);
    } else {
        assert(gs.update(i, g).drop_last() =~= gs.drop_last());
    }
}


/// Whether a plugin that asks for LABt versions in range `r` refuses the
/// LABt version `labt`: it does where `labt` is not in the range (an exact
/// version is compared the other way round); nothing where the versions
/// cannot be compared.
pub open spec fn labt_rejects(r: (RangeKind, Seq<char>), labt: Seq<char>) -> Option<bool> {
    let fits = match r.0 {
        RangeKind::Eq => spec_version_compare_to(r.1, labt, VersionRel::Eq),
        _ => spec_version_compare_to(labt, r.1, range_op(r.0)),
    };
    match fits {
        Some(b) => Some(!b),
        None => None,
    }
}

/// Whether a plugin that asks for the LABt versions `labt` refuses the LABt
/// version `labt_version`; `None` where the versions cannot be compared.
pub fn plugin_rejects(labt: &VersionRange, labt_version: &str) -> (r: Option<bool>)
    ensures
        r == labt_rejects(labt@, labt_version@),
{
    let fits = match labt.kind() {
        RangeKind::Eq => compare_versions_to(labt.version().as_str(), labt_version, VersionRel::Eq),
        k => compare_versions_to(labt_version, labt.version().as_str(), range_op_exec(k)),
    };
    match fits {
        Some(b) => Some(!b),
        None => None,
    }
}

/// Whether a package of a repository is the one an SDK entry asks for: the
/// same path, version and channel.
pub open spec fn is_sdk_package(p: RemotePackageView, e: SdkEntryView) -> bool {
    p.path == e.path && p.revision == e.version && p.channel == e.channel
}

/// The first package of a repository that an SDK entry asks for.
pub fn find_sdk_package<'a>(repo: &'a RepositoryXml, sdk: &SdkEntry) -> (r: Option<&'a RemotePackage>)
    ensures
        match r {
            Some(p) => exists|i: int|
                0 <= i < repo@.remote_packages.len() && p@ == repo@.remote_packages[i] && is_sdk_package(
                    repo@.remote_packages[i],
                    sdk@,
                ) && forall|j: int| 0 <= j < i ==> !is_sdk_package(#[trigger] repo@.remote_packages[j], sdk@),
            None => forall|j: int|
                0 <= j < repo@.remote_packages.len() ==> !is_sdk_package(
                    #[trigger] repo@.remote_packages[j],
                    sdk@,
                ),
        },
{
    let ps = repo.get_remote_packages();
    let ghost pv = packages_view(ps@);
    let mut i: usize = 0;
    while i < ps.len()
        invariant
            i <= ps.len(),
            pv == packages_view(ps@),
            pv == repo@.remote_packages,
            forall|j: int| 0 <= j < i ==> !is_sdk_package(#[trigger] pv[j], sdk@),
        decreases ps.len() - i,
    {
        let p = &ps[i];
        proof {
            assert(pv[i as int] == p@);
        }
        let rev = p.get_revision();
        if crate::strs::str_eq(p.get_path().as_str(), sdk.path.as_str()) && rev.major == sdk.version.major
            && rev.minor == sdk.version.minor && rev.micro == sdk.version.micro && rev.preview
            == sdk.version.preview && p.get_channel().same_as(&sdk.channel) {
            return Some(p);
        }
        i += 1;
    }
    None
}

/// An executable plugin.
pub struct Executable {}

impl Executable {
    /// Runs the plugin, which has nothing to do and always succeeds.
    pub fn main(&self) -> (r: Result<(), ()>)
        ensures
            r is Ok,
    {
        Ok(())
    }
}

/// Where a plugin is kept: a git repository under the Labt home, with one
/// worktree per version, or a directory of its own.
#[derive(Debug, PartialEq, Eq)]
pub enum PluginSource {
    Remote { git_dir: String, versions_dir: String, worktree_dir: String },
    Local(String),
}

pub enum PluginSourceView {
    Remote { git_dir: Seq<char>, versions_dir: Seq<char>, worktree_dir: Seq<char> },
    Local(Seq<char>),
}

impl View for PluginSource {
    type V = PluginSourceView;

    open spec fn view(&self) -> PluginSourceView {
        match self {
            PluginSource::Remote { git_dir, versions_dir, worktree_dir } => PluginSourceView::Remote {
                git_dir: git_dir@,
                versions_dir: versions_dir@,
                worktree_dir: worktree_dir@,
            },
            PluginSource::Local(p) => PluginSourceView::Local(p@),
        }
    }
}

/// A URL path without its `.git` ending.
pub open spec fn strip_git(p: Seq<char>) -> Seq<char> {
    if ends_with(p, ".git"@) {
        p.subrange(0, p.len() - 4)
    } else {
        p
    }
}

/// The directory of a plugin repository: `plugins`, the URL's domain
/// (`example.com` where it has none) and each piece of its path, pushed in
/// turn onto the Labt home.
pub open spec fn plugin_repo_dir(home: Seq<char>, domain: Option<Seq<char>>, path: Seq<char>) -> Seq<char> {
    let d = match domain {
        Some(d) => d,
        None => "example.com"@,
    };
    join_all(path_join(path_join(home, "plugins"@), d), split_char(strip_git(path), '/'))
}

/// Where the plugin at `location` is kept, given what `Url::parse` made of
/// it: a location that parses as a URL is cloned under the Labt home, into
/// `git` beside the `versions` that hold one worktree per version; any other
/// location is a directory of its own.
pub open spec fn spec_plugin_paths(
    home: Seq<char>,
    parsed: Option<(Seq<char>, Option<Seq<char>>, Seq<char>)>,
    location: Seq<char>,
    version: Seq<char>,
) -> PluginSourceView {
    match parsed {
        Some((_, d, p)) => {
            let dir = plugin_repo_dir(home, d, p);
            PluginSourceView::Remote {
                git_dir: path_join(dir, "git"@),
                versions_dir: path_join(dir, "versions"@),
                worktree_dir: path_join(path_join(dir, "versions"@), version),
            }
        },
        None => PluginSourceView::Local(location),
    }
}

fn strip_git_text(p: &str) -> (r: String)
    ensures
        r@ == strip_git(p@),
{
    let v = chars_of(p);
    let n = v.len();
    proof {
        reveal_strlit(".git");
    }
    if n >= 4 && v[n - 4] == '.' && v[n - 3] == 'g' && v[n - 2] == 'i' && v[n - 1] == 't' {
        assert(v@.subrange(n - 4, n as int) =~= ".git"@);
        string_from(&v, 0, n - 4)
    } else {
        assert(!ends_with(p@, ".git"@)) by {
            if n >= 4 {
                let t = v@.subrange(n - 4, n as int);
                if t == ".git"@ {
                    assert(t[0] == v@[n - 4]);
                    assert(t[1] == v@[n - 3]);
                    assert(t[2] == v@[n - 2]);
                    assert(t[3] == v@[n - 1]);
                }
            }
        }
        str_to_string(p)
    }
}

/// Where the plugin at `location` is kept, given `parsed`, what
/// `Url::parse` made of the location.
pub fn plugin_paths_from(
    home: &str,
    parsed: Option<(String, Option<String>, String)>,
    location: &str,
    version: &str,
) -> (r: PluginSource)
    ensures
        r@ == spec_plugin_paths(home@, parts_view(parsed), location@, version@),
{
    match parsed {
        Some((_, domain, path)) => {
            let mut dir = joined(home, "plugins");
            match domain {
                Some(d) => push_path(&mut dir, d.as_str()),
                None => push_path(&mut dir, "example.com"),
            }
            let stripped = strip_git_text(path.as_str());
            let parts = split_text(stripped.as_str(), '/');
            let ghost all = parts@.map_values(|t: String| t@);
            let ghost base = dir@;
            let mut i: usize = 0;
            assert(all.take(0) =~= Seq::<Seq<char>>::empty());
            while i < parts.len()
                invariant
                    i <= parts.len(),
                    all == parts@.map_values(|t: String| t@),
                    dir@ == join_all(base, all.take(i as int)),
                decreases parts.len() - i,
            {
                proof {
                    assert(all[i as int] == parts@[i as int]@);
                    assert(all.take(i + 1).drop_last() =~= all.take(i as int));
                }
                push_path(&mut dir, parts[i].as_str());
                i += 1;
            }
            assert(all.take(parts.len() as int) =~= all);
            let git_dir = joined(dir.as_str(), "git");
            let versions_dir = joined(dir.as_str(), "versions");
            let worktree_dir = joined(versions_dir.as_str(), version);
            PluginSource::Remote { git_dir, versions_dir, worktree_dir }
        },
        None => PluginSource::Local(str_to_string(location)),
    }
}

/// Where the plugin at `location` is kept, for `version`: a URL is cloned
/// under the Labt home, which is consulted only then; any other location is
/// a directory of its own.
pub fn plugin_paths<E>(home: Result<String, E>, location: &str, version: &str) -> (r: Result<PluginSource, E>)
    ensures
        match url_parsed(location@) {
            None => r matches Ok(s) && s@ == PluginSourceView::Local(location@),
            Some(_) => match home {
                Ok(h) => r matches Ok(s) && s@ == spec_plugin_paths(h@, url_parsed(location@), location@, version@),
                Err(e) => r matches Err(x) && x == e,
            },
        },
{
    let parsed = parse_url(location);
    match parsed {
        None => Ok(plugin_paths_from("", parsed, location, version)),
        Some(_) => match home {
            Ok(h) => Ok(plugin_paths_from(h.as_str(), parsed, location, version)),
            Err(e) => Err(e),
        },
    }
}

/// The directory the build loads a configured plugin from: its own
/// location where that is not a URL; otherwise `<name>-<version>` under the
/// `plugins` directory of the Labt home.
pub open spec fn spec_build_plugin_path(
    home: Seq<char>,
    name: Seq<char>,
    version: Seq<char>,
    location: Option<Seq<char>>,
    location_is_url: bool,
) -> Seq<char> {
    match location {
        Some(l) if !location_is_url => l,
        _ => path_join(path_join(home, "plugins"@), name + "-"@ + version),
    }
}

/// The directory the build loads the configured plugin `name` from, given
/// whether its location parses as a URL.
pub fn build_plugin_path_from(
    home: &str,
    name: &str,
    version: &str,
    location: &Option<String>,
    location_is_url: bool,
) -> (r: String)
    ensures
        r@ == spec_build_plugin_path(
            home@,
            name@,
            version@,
            match location {
                Some(l) => Some(l@),
                None => None,
            },
            location_is_url,
        ),
{
    match location {
        Some(l) => {
            if !location_is_url {
                return str_to_string(l.as_str());
            }
        },
        None => {},
    }
    let mut dir_name = str_to_string(name);
    crate::strs::append_str(&mut dir_name, "-");
    crate::strs::append_str(&mut dir_name, version);
    let plugins = joined(home, "plugins");
    joined(plugins.as_str(), dir_name.as_str())
}

/// The directory the build loads the configured plugin `name` from.
pub fn build_plugin_path(home: &str, name: &str, version: &str, location: &Option<String>) -> (r: String)
    ensures
        r@ == spec_build_plugin_path(
            home@,
            name@,
            version@,
            match location {
                Some(l) => Some(l@),
                None => None,
            },
            match location {
                Some(l) => url_parsed(l@) is Some,
                None => false,
            },
        ),
{
    let is_url = match location {
        Some(l) => parse_url(l.as_str()).is_some(),
        None => false,
    };
    build_plugin_path_from(home, name, version, location, is_url)
}

/// The position at which `x` joins plugins sorted by decreasing priority:
/// after every plugin of at least its priority, so that plugins of equal
/// priority keep their order.
pub open spec fn priority_pos(s: Seq<PluginView>, x: PluginView) -> int
    decreases s.len(),
{
    if s.len() == 0 {
        0
    } else if s.last().priority < x.priority {
        priority_pos(s.drop_last(), x)
    } else {
        s.len() as int
    }
}

/// The plugins sorted stably by decreasing priority.
pub open spec fn by_priority(s: Seq<PluginView>) -> Seq<PluginView>
    decreases s.len(),
{
    if s.len() == 0 {
        s
    } else {
        let t = by_priority(s.drop_last());
        t.insert(priority_pos(t, s.last()), s.last())
    }
}

/// The plugins of step `step` in the groups, in their order; none where the
/// step has no group.
pub open spec fn group_of(gs: Seq<(Step, Seq<PluginView>)>, step: Step) -> Seq<PluginView> {
    match group_index(gs, step) {
        Some(i) => gs[i].1,
        None => Seq::empty(),
    }
}

/// The steps a build runs: the one asked for alone, or all of them in their
/// order.
pub open spec fn plan_steps(only: Option<Step>) -> Seq<Step> {
    match only {
        Some(s) => seq![s],
        None => all_steps(),
    }
}

/// The plugins of `steps`, one step after the other, each step's plugins by
/// decreasing priority.
pub open spec fn plan_of(gs: Seq<(Step, Seq<PluginView>)>, steps: Seq<Step>) -> Seq<PluginView>
    decreases steps.len(),
{
    if steps.len() == 0 {
        Seq::empty()
    } else {
        plan_of(gs, steps.drop_last()) + by_priority(group_of(gs, steps.last()))
    }
}

/// The plugins a build runs, in the order it runs them.
pub open spec fn spec_build_plan(gs: Seq<(Step, Seq<PluginView>)>, only: Option<Step>) -> Seq<PluginView> {
    plan_of(gs, plan_steps(only))
}

proof fn lemma_priority_pos(s: Seq<PluginView>, x: PluginView, j: int)
    requires
        0 <= j <= s.len(),
        forall|k: int| j <= k < s.len() ==> (#[trigger] s[k]).priority < x.priority,
        j == 0 || s[j - 1].priority >= x.priority,
    ensures
        priority_pos(s, x) == j,
    decreases s.len(),
{
    if s.len() > j {
        assert(s.drop_last().len() == s.len() - 1);
        assert forall|k: int| j <= k < s.drop_last().len() implies (#[trigger] s.drop_last()[k]).priority
            < x.priority by {
            assert(s.drop_last()[k] == s[k]);
        }
        if j > 0 {
            assert(s.drop_last()[j - 1] == s[j - 1]);
        }
        lemma_priority_pos(s.drop_last(), x, j);
    }
}

pub open spec fn priority_sorted(s: Seq<PluginView>) -> bool {
    forall|i: int, j: int| 0 <= i < j < s.len() ==> s[i].priority >= s[j].priority
}

proof fn lemma_priority_pos_sorted(s: Seq<PluginView>, x: PluginView)
    requires
        priority_sorted(s),
    ensures
        0 <= priority_pos(s, x) <= s.len(),
        forall|k: int| 0 <= k < priority_pos(s, x) ==> s[k].priority >= x.priority,
        forall|k: int| priority_pos(s, x) <= k < s.len() ==> s[k].priority < x.priority,
    decreases s.len(),
{
    if s.len() > 0 {
        let t = s.drop_last();
        assert(priority_sorted(t));
        lemma_priority_pos_sorted(t, x);
        if s.last().priority < x.priority {
            let p = priority_pos(t, x);
            assert forall|k: int| 0 <= k < p implies s[k].priority >= x.priority by {
                assert(s[k] == t[k]);
            }
            assert forall|k: int| p <= k < s.len() implies s[k].priority < x.priority by {
                if k < s.len() - 1 {
                    assert(s[k] == t[k]);
                }
            }
        } else {
            assert forall|k: int| 0 <= k < s.len() implies s[k].priority >= x.priority by {
                if k < s.len() - 1 {
                    assert(s[k].priority >= s[s.len() - 1].priority);
                }
            }
        }
    }
}

/// Sorting by priority puts the plugins in decreasing priority and keeps
/// every one of them.
pub proof fn lemma_by_priority(s: Seq<PluginView>)
    ensures
        priority_sorted(by_priority(s)),
        by_priority(s).to_multiset() =~= s.to_multiset(),
        by_priority(s).len() == s.len(),
    decreases s.len(),
{
    broadcast use vstd::seq_lib::group_to_multiset_ensures;

    if s.len() > 0 {
        let t = by_priority(s.drop_last());
        let x = s.last();
        lemma_by_priority(s.drop_last());
        lemma_priority_pos_sorted(t, x);
        let p = priority_pos(t, x);
        let u = t.insert(p, x);
        assert forall|i: int, j: int| 0 <= i < j < u.len() implies u[i].priority >= u[j].priority by {
            if j < p {
            } else if j == p {
            } else if i < p {
                assert(t[i].priority >= x.priority);
            } else if i == p {
                assert(t[j - 1].priority < x.priority);
            } else {
                assert(t[i - 1].priority >= t[j - 1].priority);
            }
        }
        assert(u.remove(p) =~= t);
        assert(u[p] == x);
        assert(u.remove(p).to_multiset() =~= u.to_multiset().remove(x));
        assert(u.to_multiset().count(x) > 0) by {
            assert(u.contains(x));
        }
        assert(s.drop_last().push(x) =~= s);
        assert(u.to_multiset() =~= t.to_multiset().insert(x));
    }
}

/// The plugins of `v` sorted stably by decreasing priority.
fn sort_by_priority(v: &Vec<Plugin>) -> (r: Vec<Plugin>)
    ensures
        plugins_view(r@) == by_priority(plugins_view(v@)),
{
    let ghost pv = plugins_view(v@);
    let mut out: Vec<Plugin> = Vec::new();
    let mut i: usize = 0;
    assert(pv.take(0) =~= Seq::<PluginView>::empty());
    assert(plugins_view(out@) =~= Seq::<PluginView>::empty());
    while i < v.len()
        invariant
            i <= v.len(),
            pv == plugins_view(v@),
            plugins_view(out@) == by_priority(pv.take(i as int)),
        decreases v.len() - i,
    {
        let x = copy_plugin(&v[i]);
        let ghost s = plugins_view(out@);
        let mut j = out.len();
        while j > 0 && out[j - 1].priority < x.priority
            invariant
                j <= out.len(),
                s == plugins_view(out@),
                forall|k: int| j <= k < s.len() ==> (#[trigger] s[k]).priority < x@.priority,
            decreases j,
        {
            assert(s[j - 1] == out@[j - 1]@);
            j -= 1;
        }
        proof {
            if j > 0 {
                assert(s[j - 1] == out@[j - 1]@);
            }
            lemma_priority_pos(s, x@, j as int);
            assert(pv.take(i + 1).drop_last() == pv.take(i as int));
            assert(pv.take(i + 1).last() == v@[i as int]@);
        }
        let ghost xv = x@;
        out.insert(j, x);
        proof {
            assert(plugins_view(out@) =~= s.insert(j as int, xv));
        }
        i += 1;
    }
    assert(pv.take(v.len() as int) == pv);
    out
}

/// The plugins a build runs, in the order it runs them: the step asked for
/// alone, or every step from PRE to POST, each step's plugins by decreasing
/// priority (plugins of equal priority in their order).
pub fn build_plan(groups: &Vec<(Step, Vec<Plugin>)>, only: Option<Step>) -> (r: Vec<Plugin>)
    ensures
        plugins_view(r@) == spec_build_plan(groups_view(groups@), only),
{
    let ghost gv = groups_view(groups@);
    let n: usize = match only {
        Some(_) => 1,
        None => 6,
    };
    let ghost steps = plan_steps(only);
    let mut out: Vec<Plugin> = Vec::new();
    let mut k: usize = 0;
    assert(steps.take(0) =~= Seq::<Step>::empty());
    assert(plugins_view(out@) =~= Seq::<PluginView>::empty());
    while k < n
        invariant
            k <= n,
            n == steps.len(),
            steps == plan_steps(only),
            gv == groups_view(groups@),
            plugins_view(out@) == plan_of(gv, steps.take(k as int)),
        decreases n - k,
    {
        let step = match only {
            Some(s) => s,
            None => step_at(k),
        };
        assert(step == steps[k as int]);
        proof {
            lemma_group_index_bounds(gv, step);
        }
        let mut g: usize = 0;
        let mut found: Option<usize> = None;
        while g < groups.len()
            invariant
                g <= groups.len(),
                gv == groups_view(groups@),
                found is None ==> forall|j: int| 0 <= j < g ==> gv[j].0 != step,
                found matches Some(f) ==> f < groups.len() && gv[f as int].0 == step && forall|j: int|
                    0 <= j < f ==> gv[j].0 != step,
            decreases groups.len() - g,
        {
            if found.is_none() && groups[g].0 == step {
                found = Some(g);
            }
            g += 1;
        }
        let sorted = match found {
            Some(f) => {
                proof {
                    lemma_group_index_at(gv, step, f as int);
                    assert(gv[f as int].1 == plugins_view(groups@[f as int].1@));
                }
                sort_by_priority(&groups[f].1)
            },
            None => {
                proof {
                    lemma_group_index_bounds(gv, step);
                    if group_index(gv, step) is Some {
                        let i = group_index(gv, step)->0;
                        assert(gv[i].0 == step);
                    }
                }
                let e: Vec<Plugin> = Vec::new();
                proof {
                    assert(plugins_view(e@) =~= Seq::<PluginView>::empty());
                    assert(by_priority(Seq::<PluginView>::empty()) == Seq::<PluginView>::empty());
                }
                e
            },
        };
        let ghost before = plugins_view(out@);
        let mut sorted = sorted;
        let ghost sv = plugins_view(sorted@);
        out.append(&mut sorted);
        proof {
            assert(plugins_view(out@) =~= before + sv);
            assert(steps.take(k + 1).drop_last() =~= steps.take(k as int));
            assert(steps.take(k + 1).last() == step);
        }
        k += 1;
    }
    assert(steps.take(n as int) =~= steps);
    out
}

/// Whether the file with modification time `a` is newer than the one with
/// time `b`, `None` standing for a missing file: any file is newer than a
/// missing one, and a missing file is newer than none.
pub open spec fn file_newer(a: Option<u64>, b: Option<u64>) -> bool {
    match b {
        None => true,
        Some(tb) => match a {
            None => false,
            Some(ta) => ta > tb,
        },
    }
}

/// Whether some input is newer than the output with time `b`.
pub open spec fn has_newer_input(inputs: Seq<Option<u64>>, b: Option<u64>) -> bool {
    exists|i: int| 0 <= i < inputs.len() && file_newer(#[trigger] inputs[i], b)
}

/// Whether a plugin step with these inputs and outputs has to run: every
/// output has some input newer than it.
pub open spec fn spec_is_stale(inputs: Seq<Option<u64>>, outputs: Seq<Option<u64>>) -> bool {
    forall|o: int| 0 <= o < outputs.len() ==> has_newer_input(inputs, #[trigger] outputs[o])
}

/// Whether a plugin step has to run, given the modification times of its
/// inputs and of its outputs (`None` for a missing file): it runs unless
/// some output is at least as new as all its inputs.
pub fn plugin_is_stale(inputs: &Vec<Option<u64>>, outputs: &Vec<Option<u64>>) -> (r: bool)
    ensures
        r == spec_is_stale(inputs@, outputs@),
{
    let mut o: usize = 0;
    while o < outputs.len()
        invariant
            o <= outputs.len(),
            forall|k: int| 0 <= k < o ==> has_newer_input(inputs@, #[trigger] outputs@[k]),
        decreases outputs.len() - o,
    {
        let mut any = false;
        let mut i: usize = 0;
        while i < inputs.len()
            invariant
                i <= inputs.len(),
                o < outputs.len(),
                any ==> has_newer_input(inputs@, outputs@[o as int]),
                !any ==> forall|j: int| 0 <= j < i ==> !file_newer(#[trigger] inputs@[j], outputs@[o as int]),
            decreases inputs.len() - i,
        {
            let newer = match outputs[o] {
                None => true,
                Some(tb) => match inputs[i] {
                    None => false,
                    Some(ta) => ta > tb,
                },
            };
            if newer {
                assert(file_newer(inputs@[i as int], outputs@[o as int]));
                any = true;
            }
            i += 1;
        }
        if !any {
            assert(!has_newer_input(inputs@, outputs@[o as int]));
            return false;
        }
        o += 1;
    }
    true
}

} // verus!
