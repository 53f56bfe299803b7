//! The order of a site build: which step runs next given how the last one
//! went, and the test a site configuration must meet before anything
//! on disk, in the cache or in a plugin is touched.
use vstd::prelude::*;

use crate::text::join_with;

verus! {

// ---------------------------------------------------------------------
// The configuration gate
// ---------------------------------------------------------------------

/// Whether a site configuration lets a build (or the preview server) go
/// on: a parse error stops it first, then any validation error, all of
/// them listed one per line.
pub open spec fn config_gate_spec(parse_error: Option<Seq<char>>, validation_errors: Seq<Seq<char>>) -> Result<(), Seq<char>> {
    match parse_error {
        Some(e) => Err("Failed to parse site configuration: "@ + e),
        None => if validation_errors.len() == 0 {
            Ok(())
        } else {
            Err("Site configuration has validation errors:\n"@ + join_with(validation_errors, seq!['\n']))
        },
    }
}

pub open spec fn unit_result_view(r: Result<(), String>) -> Result<(), Seq<char>> {
    match r {
        Ok(()) => Ok(()),
        Err(e) => Err(e@),
    }
}

pub open spec fn opt_string_view(s: Option<String>) -> Option<Seq<char>> {
    match s {
        Some(x) => Some(x@),
        None => None,
    }
}

pub open spec fn lines_view(v: Seq<String>) -> Seq<Seq<char>> {
    Seq::new(v.len(), |i: int| v[i]@)
}

/// Decides whether a configuration passes (see [`config_gate_spec`]).
pub fn config_gate(parse_error: Option<String>, validation_errors: &Vec<String>) -> (r: Result<(), String>)
    ensures
        unit_result_view(r) == config_gate_spec(opt_string_view(parse_error), lines_view(validation_errors@)),
{
    match parse_error {
        Some(e) => {
            let mut m = String::from_str("Failed to parse site configuration: ");
            m.append(e.as_str());
            return Err(m);
        },
        None => {},
    }
    let n = validation_errors.len();
    if n == 0 {
        return Ok(());
    }
    let ghost lv = lines_view(validation_errors@);
    let mut joined = validation_errors[0].clone();
    let mut i: usize = 1;
    assert(lv.take(1).drop_last() =~= seq![]);
    assert(joined@ == join_with(lv.take(1), seq!['\n']));
    while i < n
        invariant
            1 <= i <= n,
            n == validation_errors@.len(),
            lv == lines_view(validation_errors@),
            joined@ == join_with(lv.take(i as int), seq!['\n']),
        decreases n - i,
    {
        let ghost before = joined@;
        joined.append("\n");
        joined.append(validation_errors[i].as_str());
        proof {
            reveal_strlit("\n");
            assert(lv.take(i + 1).drop_last() =~= lv.take(i as int));
            assert(joined@ =~= before + seq!['\n'] + lv[i as int]);
        }
        i += 1;
    }
    assert(lv.take(n as int) =~= lv);
    let mut m = String::from_str("Site configuration has validation errors:\n");
    m.append(joined.as_str());
    Err(m)
}

// ---------------------------------------------------------------------
// Steps of a build
// ---------------------------------------------------------------------

/// A step of a build, in the order the steps run; `Done` and `Stopped`
/// end it.
#[derive(Clone, Copy, Debug, PartialEq, Eq, Structural)]
pub enum BuildStage {
    /// Find `norgolith.toml` above the working directory.
    FindConfig,
    /// Read it.
    ReadConfig,
    /// Parse and validate it.
    CheckConfig,
    /// Load the site and theme templates.
    InitTemplates,
    /// Load the installed plugins and confine the process.
    LoadPlugins,
    /// Run the plugins' `pre_build` hooks.
    PreBuildHooks,
    /// Empty the public directory (keeping `.git`) and create the output
    /// directories.
    ClearPublic,
    /// Read the posts' metadata and derive collections and the shared
    /// context.
    CollectPosts,
    /// Open the build cache.
    OpenCache,
    /// Convert, render and write the content pages.
    WritePages,
    /// Write the category pages.
    WriteCategoryPages,
    /// Write the XML feeds.
    WriteFeeds,
    /// Write `sitemap.xml` and `robots.txt`.
    WriteSeo,
    /// Copy the theme's and the site's assets.
    CopyAssets,
    /// Write the custom error pages.
    WriteErrorPages,
    /// Run the plugins' `post_build` hooks.
    PostBuildHooks,
    /// Save the build cache.
    SaveCache,
    /// The build succeeded.
    Done,
    /// The build stopped on an error.
    Stopped,
}

/// Position of a step in the build.
pub open spec fn stage_index(s: BuildStage) -> int {
    match s {
        BuildStage::FindConfig => 0,
        BuildStage::ReadConfig => 1,
        BuildStage::CheckConfig => 2,
        BuildStage::InitTemplates => 3,
        BuildStage::LoadPlugins => 4,
        BuildStage::PreBuildHooks => 5,
        BuildStage::ClearPublic => 6,
        BuildStage::CollectPosts => 7,
        BuildStage::OpenCache => 8,
        BuildStage::WritePages => 9,
        BuildStage::WriteCategoryPages => 10,
        BuildStage::WriteFeeds => 11,
        BuildStage::WriteSeo => 12,
        BuildStage::CopyAssets => 13,
        BuildStage::WriteErrorPages => 14,
        BuildStage::PostBuildHooks => 15,
        BuildStage::SaveCache => 16,
        BuildStage::Done => 17,
        BuildStage::Stopped => 18,
    }
}

/// The step after `s` when `s` went well.
pub open spec fn following(s: BuildStage) -> BuildStage {
    match s {
        BuildStage::FindConfig => BuildStage::ReadConfig,
        BuildStage::ReadConfig => BuildStage::CheckConfig,
        BuildStage::CheckConfig => BuildStage::InitTemplates,
        BuildStage::InitTemplates => BuildStage::LoadPlugins,
        BuildStage::LoadPlugins => BuildStage::PreBuildHooks,
        BuildStage::PreBuildHooks => BuildStage::ClearPublic,
        BuildStage::ClearPublic => BuildStage::CollectPosts,
        BuildStage::CollectPosts => BuildStage::OpenCache,
        BuildStage::OpenCache => BuildStage::WritePages,
        BuildStage::WritePages => BuildStage::WriteCategoryPages,
        BuildStage::WriteCategoryPages => BuildStage::WriteFeeds,
        BuildStage::WriteFeeds => BuildStage::WriteSeo,
        BuildStage::WriteSeo => BuildStage::CopyAssets,
        BuildStage::CopyAssets => BuildStage::WriteErrorPages,
        BuildStage::WriteErrorPages => BuildStage::PostBuildHooks,
        BuildStage::PostBuildHooks => BuildStage::SaveCache,
        BuildStage::SaveCache => BuildStage::Done,
        BuildStage::Done => BuildStage::Done,
        BuildStage::Stopped => BuildStage::Stopped,
    }
}

/// Steps whose failure is reported and does not stop the build: loading
/// plugins (a failed confinement is a warning), the plugin hooks, and
/// saving the cache.
pub open spec fn tolerant(s: BuildStage) -> bool {
    s == BuildStage::LoadPlugins || s == BuildStage::PreBuildHooks || s == BuildStage::PostBuildHooks
        || s == BuildStage::SaveCache
}

/// Steps that touch the public directory, the cache or a plugin.
pub open spec fn touches(s: BuildStage) -> bool {
    4 <= stage_index(s) <= 16
}

/// How a step went.
pub enum StepOutcome {
    /// It succeeded.
    Succeeded,
    /// No configuration file was found (the config search).
    NotFound,
    /// It failed with this message.
    Failed(String),
    /// The configuration was parsed (with this error, if it failed) and
    /// validated (with these errors).
    Config { parse_error: Option<String>, validation_errors: Vec<String> },
}

/// Mathematical form of [`StepOutcome`].
pub enum OutcomeV {
    Succeeded,
    NotFound,
    Failed(Seq<char>),
    Config { parse_error: Option<Seq<char>>, validation_errors: Seq<Seq<char>> },
}

impl View for StepOutcome {
    type V = OutcomeV;

    open spec fn view(&self) -> OutcomeV {
        match self {
            StepOutcome::Succeeded => OutcomeV::Succeeded,
            StepOutcome::NotFound => OutcomeV::NotFound,
            StepOutcome::Failed(e) => OutcomeV::Failed(e@),
            StepOutcome::Config { parse_error, validation_errors } => OutcomeV::Config {
                parse_error: opt_string_view(*parse_error),
                validation_errors: lines_view(validation_errors@),
            },
        }
    }
}

/// What the driver does next.
pub enum BuildAction {
    /// Carry out this step.
    Run(BuildStage),
    /// Report the build as done.
    Finish,
    /// Stop with this error.
    Fail(String),
}

/// Mathematical form of [`BuildAction`].
pub enum ActionV {
    Run(BuildStage),
    Finish,
    Fail(Seq<char>),
}

impl View for BuildAction {
    type V = ActionV;

    open spec fn view(&self) -> ActionV {
        match self {
            BuildAction::Run(s) => ActionV::Run(*s),
            BuildAction::Finish => ActionV::Finish,
            BuildAction::Fail(e) => ActionV::Fail(e@),
        }
    }
}

/// A configuration check whose configuration is accepted.
pub open spec fn config_passes(o: OutcomeV) -> bool {
    o matches OutcomeV::Config { parse_error, validation_errors } && config_gate_spec(
        parse_error,
        validation_errors,
    ) is Ok
}

/// Whether step `s` went well enough to go on.
pub open spec fn step_passes(s: BuildStage, o: OutcomeV) -> bool {
    if s == BuildStage::CheckConfig {
        config_passes(o)
    } else if tolerant(s) {
        true
    } else {
        o is Succeeded
    }
}

/// The step after `s`, given how it went: the following one when it went
/// well (or is a step whose failure is only reported), else `Stopped`; a
/// finished or stopped build stays so.
pub open spec fn next_stage_spec(s: BuildStage, o: OutcomeV) -> BuildStage {
    if s == BuildStage::Done || s == BuildStage::Stopped {
        s
    } else if step_passes(s, o) {
        following(s)
    } else {
        BuildStage::Stopped
    }
}

/// The error a stopped build reports.
pub open spec fn stop_message(s: BuildStage, o: OutcomeV) -> Seq<char> {
    match o {
        OutcomeV::Failed(e) => e,
        OutcomeV::NotFound => "Could not build the site: not in a Norgolith site directory"@,
        OutcomeV::Config { parse_error, validation_errors } => match config_gate_spec(parse_error, validation_errors) {
            Err(e) => e,
            Ok(()) => "Build step reported an unexpected outcome"@,
        },
        OutcomeV::Succeeded => "Build step reported an unexpected outcome"@,
    }
}

/// What to do after step `s` went as `o`.
pub open spec fn next_action_spec(s: BuildStage, o: OutcomeV) -> ActionV {
    let n = next_stage_spec(s, o);
    if n == BuildStage::Done {
        ActionV::Finish
    } else if n == BuildStage::Stopped {
        if s == BuildStage::Stopped {
            ActionV::Fail("The build has stopped"@)
        } else {
            ActionV::Fail(stop_message(s, o))
        }
    } else {
        ActionV::Run(n)
    }
}

/// Where a build starts: finding its configuration.
pub fn build_first() -> (r: (BuildStage, BuildAction))
    ensures
        r.0 == BuildStage::FindConfig,
        r.1@ == ActionV::Run(BuildStage::FindConfig),
{
    (BuildStage::FindConfig, BuildAction::Run(BuildStage::FindConfig))
}

fn following_exec(s: BuildStage) -> (r: BuildStage)
    ensures
        r == following(s),
{
    match s {
        BuildStage::FindConfig => BuildStage::ReadConfig,
        BuildStage::ReadConfig => BuildStage::CheckConfig,
        BuildStage::CheckConfig => BuildStage::InitTemplates,
        BuildStage::InitTemplates => BuildStage::LoadPlugins,
        BuildStage::LoadPlugins => BuildStage::PreBuildHooks,
        BuildStage::PreBuildHooks => BuildStage::ClearPublic,
        BuildStage::ClearPublic => BuildStage::CollectPosts,
        BuildStage::CollectPosts => BuildStage::OpenCache,
        BuildStage::OpenCache => BuildStage::WritePages,
        BuildStage::WritePages => BuildStage::WriteCategoryPages,
        BuildStage::WriteCategoryPages => BuildStage::WriteFeeds,
        BuildStage::WriteFeeds => BuildStage::WriteSeo,
        BuildStage::WriteSeo => BuildStage::CopyAssets,
        BuildStage::CopyAssets => BuildStage::WriteErrorPages,
        BuildStage::WriteErrorPages => BuildStage::PostBuildHooks,
        BuildStage::PostBuildHooks => BuildStage::SaveCache,
        BuildStage::SaveCache => BuildStage::Done,
        BuildStage::Done => BuildStage::Done,
        BuildStage::Stopped => BuildStage::Stopped,
    }
}

/// The next step and action after step `stage` went as `outcome` (see
/// [`next_stage_spec`] and [`next_action_spec`]). A step that touches the
/// public directory, the cache or a plugin comes only right after a
/// configuration check that passed, or after a later step.
pub fn build_next(stage: BuildStage, outcome: &StepOutcome) -> (r: (BuildStage, BuildAction))
    ensures
        r.0 == next_stage_spec(stage, outcome@),
        r.1@ == next_action_spec(stage, outcome@),
        touches(r.0) ==> (stage == BuildStage::CheckConfig && config_passes(outcome@)) || stage_index(
            stage,
        ) > stage_index(BuildStage::CheckConfig),
{
    if stage == BuildStage::Done {
        return (BuildStage::Done, BuildAction::Finish);
    }
    if stage == BuildStage::Stopped {
        return (BuildStage::Stopped, BuildAction::Fail(String::from_str("The build has stopped")));
    }
    let passes = if stage == BuildStage::CheckConfig {
        match outcome {
            StepOutcome::Config { parse_error, validation_errors } => {
                let pe = match parse_error {
                    Some(e) => Some(e.clone()),
                    None => None,
                };
                config_gate(pe, validation_errors).is_ok()
            },
            _ => false,
        }
    } else if stage == BuildStage::LoadPlugins || stage == BuildStage::PreBuildHooks || stage
        == BuildStage::PostBuildHooks || stage == BuildStage::SaveCache {
        true
    } else {
        match outcome {
            StepOutcome::Succeeded => true,
            _ => false,
        }
    };
    if passes {
        let n = following_exec(stage);
        if n == BuildStage::Done {
            (n, BuildAction::Finish)
        } else {
            (n, BuildAction::Run(n))
        }
    } else {
        let msg = match outcome {
            StepOutcome::Failed(e) => e.clone(),
            StepOutcome::NotFound => String::from_str(
                "Could not build the site: not in a Norgolith site directory",
            ),
            StepOutcome::Config { parse_error, validation_errors } => {
                let pe = match parse_error {
                    Some(e) => Some(e.clone()),
                    None => None,
                };
                match config_gate(pe, validation_errors) {
                    Err(e) => e,
                    Ok(()) => String::from_str("Build step reported an unexpected outcome"),
                }
            },
            StepOutcome::Succeeded => String::from_str("Build step reported an unexpected outcome"),
        };
        (BuildStage::Stopped, BuildAction::Fail(msg))
    }
}

// ---------------------------------------------------------------------
// Whole builds
// ---------------------------------------------------------------------

/// The steps a build enters from `s` when its steps go as `outs`, one
/// after another.
pub open spec fn run_from(s: BuildStage, outs: Seq<OutcomeV>) -> Seq<BuildStage>
    decreases outs.len(),
{
    if outs.len() == 0 {
        seq![]
    } else {
        let n = next_stage_spec(s, outs[0]);
        seq![n] + run_from(n, outs.drop_first())
    }
}

/// The step that the `j`-th outcome reports on, in a build from `s`.
pub open spec fn step_at(s: BuildStage, outs: Seq<OutcomeV>, j: int) -> BuildStage {
    if j == 0 {
        s
    } else {
        run_from(s, outs)[j - 1]
    }
}

proof fn lemma_run_len(s: BuildStage, outs: Seq<OutcomeV>)
    ensures
        run_from(s, outs).len() == outs.len(),
    decreases outs.len(),
{
    if outs.len() > 0 {
        lemma_run_len(next_stage_spec(s, outs[0]), outs.drop_first());
    }
}

proof fn lemma_stopped_stays(outs: Seq<OutcomeV>)
    ensures
        forall|k: int| 0 <= k < run_from(BuildStage::Stopped, outs).len() ==> #[trigger] run_from(
            BuildStage::Stopped,
            outs,
        )[k] == BuildStage::Stopped,
    decreases outs.len(),
{
    if outs.len() > 0 {
        lemma_stopped_stays(outs.drop_first());
        let r = run_from(BuildStage::Stopped, outs);
        let t = run_from(BuildStage::Stopped, outs.drop_first());
        assert(r == seq![BuildStage::Stopped] + t);
        assert forall|k: int| 0 <= k < r.len() implies #[trigger] r[k] == BuildStage::Stopped by {
            if k > 0 {
                assert(r[k] == t[k - 1]);
            }
        }
    }
}

proof fn lemma_touch_needs_check(s: BuildStage, outs: Seq<OutcomeV>, k: int)
    requires
        stage_index(s) <= 2,
        0 <= k < run_from(s, outs).len(),
        touches(run_from(s, outs)[k]),
    ensures
        exists|j: int|
            0 <= j <= k && step_at(s, outs, j) == BuildStage::CheckConfig && config_passes(
                #[trigger] outs[j],
            ),
    decreases outs.len(),
{
    lemma_run_len(s, outs);
    let n = next_stage_spec(s, outs[0]);
    let rest = outs.drop_first();
    let r = run_from(s, outs);
    assert(r == seq![n] + run_from(n, rest));
    if n == BuildStage::Stopped {
        lemma_stopped_stays(rest);
        if k > 0 {
            assert(r[k] == run_from(n, rest)[k - 1]);
        }
        assert(false);
    } else if s == BuildStage::CheckConfig {
        assert(step_at(s, outs, 0) == s);
        assert(config_passes(outs[0]));
    } else {
        assert(stage_index(n) <= 2);
        if k == 0 {
            assert(false);
        } else {
            assert(r[k] == run_from(n, rest)[k - 1]);
            lemma_touch_needs_check(n, rest, k - 1);
            let j = choose|j: int|
                0 <= j <= k - 1 && step_at(n, rest, j) == BuildStage::CheckConfig && config_passes(
                    #[trigger] rest[j],
                );
            assert(rest[j] == outs[j + 1]);
            if j == 0 {
                assert(step_at(s, outs, 1) == r[0]);
            } else {
                assert(step_at(s, outs, j + 1) == r[j]);
                assert(r[j] == run_from(n, rest)[j - 1]);
            }
            assert(step_at(s, outs, j + 1) == BuildStage::CheckConfig);
        }
    }
}

/// A build touches nothing before its configuration passes: whatever its
/// steps report, each step that touches the public directory, the cache or
/// a plugin comes after a configuration check that accepted it. A
/// configuration that fails to parse or validate therefore stops the build
/// with all of these untouched.
pub proof fn lemma_nothing_touched_before_config(outs: Seq<OutcomeV>, k: int)
    requires
        0 <= k < outs.len(),
        touches(run_from(BuildStage::FindConfig, outs)[k]),
    ensures
        exists|j: int|
            0 <= j <= k && step_at(BuildStage::FindConfig, outs, j) == BuildStage::CheckConfig
                && config_passes(#[trigger] outs[j]),
{
    lemma_run_len(BuildStage::FindConfig, outs);
    lemma_touch_needs_check(BuildStage::FindConfig, outs, k);
}

/// Once the configuration check fails, every later step of the build is
/// `Stopped`.
pub proof fn lemma_bad_config_stops(outs: Seq<OutcomeV>, j: int)
    requires
        0 <= j < outs.len(),
        step_at(BuildStage::FindConfig, outs, j) == BuildStage::CheckConfig,
        !config_passes(outs[j]),
    ensures
        forall|k: int| j <= k < outs.len() ==> #[trigger] run_from(BuildStage::FindConfig, outs)[k]
            == BuildStage::Stopped,
{
    lemma_run_len(BuildStage::FindConfig, outs);
    assert forall|k: int| j <= k < outs.len() implies #[trigger] run_from(BuildStage::FindConfig, outs)[k]
        == BuildStage::Stopped by {
        lemma_run_suffix(BuildStage::FindConfig, outs, j);
        let sj = step_at(BuildStage::FindConfig, outs, j);
        let tail = run_from(sj, outs.skip(j));
        lemma_run_len(sj, outs.skip(j));
        let rest = outs.skip(j).drop_first();
        assert(outs.skip(j)[0] == outs[j]);
        assert(tail == seq![BuildStage::Stopped] + run_from(BuildStage::Stopped, rest));
        lemma_stopped_stays(rest);
        if k > j {
            assert(tail[k - j] == run_from(BuildStage::Stopped, rest)[k - j - 1]);
        }
    }
}

proof fn lemma_run_suffix(s: BuildStage, outs: Seq<OutcomeV>, j: int)
    requires
        0 <= j <= outs.len(),
    ensures
        run_from(s, outs).len() == outs.len(),
        forall|k: int|
            j <= k < outs.len() ==> #[trigger] run_from(s, outs)[k] == run_from(
                step_at(s, outs, j),
                outs.skip(j),
            )[k - j],
    decreases j,
{
    lemma_run_len(s, outs);
    if j > 0 {
        let n = next_stage_spec(s, outs[0]);
        let rest = outs.drop_first();
        lemma_run_suffix(n, rest, j - 1);
        lemma_run_len(n, rest);
        let r = run_from(s, outs);
        assert(r == seq![n] + run_from(n, rest));
        assert(rest.skip(j - 1) =~= outs.skip(j));
        assert(step_at(n, rest, j - 1) == step_at(s, outs, j)) by {
            if j - 1 > 0 {
                assert(r[j - 1] == run_from(n, rest)[j - 2]);
            }
        }
        assert forall|k: int| j <= k < outs.len() implies #[trigger] run_from(s, outs)[k]
            == run_from(step_at(s, outs, j), outs.skip(j))[k - j] by {
            assert(r[k] == run_from(n, rest)[k - 1]);
        }
    } else {
        assert(outs.skip(0) =~= outs);
    }
}

} // verus!
