//! What a process does at its boundaries, by how it was started.

use vstd::prelude::*;
use crate::ambient::Ambient;
use crate::builder::BoundarySpec;
use crate::crossing::execute_mode;
use crate::dispatch::boundary_execute_mode_for;
use crate::event::{CallsiteSource, ExecuteMode, RuntimeMode};
use crate::hook::{DejaHook, RuntimeHook};
use crate::lookup_hook::site;
use crate::text::text_eq;

verus! {

/// How a process is to be hooked.
#[derive(Debug, PartialEq, Eq)]
pub enum HookPlan {
    /// Not at all.
    Off,
    /// To record into a directory.
    Record { dir: String },
    /// To replay out of a lookup table; where that fails, along the tape in a
    /// directory, where one is given.
    ReplayTable { table: String, observed: Option<String>, otherwise: Option<String> },
    /// To replay along the tape in a directory.
    ReplayTape { dir: String },
    /// Not at all, since the mode is not known.
    UnknownMode { mode: String },
}

/// What a plan says.
pub enum HookPlanView {
    Off,
    Record { dir: Seq<char> },
    ReplayTable { table: Seq<char>, observed: Option<Seq<char>>, otherwise: Option<Seq<char>> },
    ReplayTape { dir: Seq<char> },
    UnknownMode { mode: Seq<char> },
}

impl View for HookPlan {
    type V = HookPlanView;

    open spec fn view(&self) -> HookPlanView {
        match *self {
            HookPlan::Off => HookPlanView::Off,
            HookPlan::Record { dir } => HookPlanView::Record { dir: dir@ },
            HookPlan::ReplayTable { table, observed, otherwise } => HookPlanView::ReplayTable {
                table: table@,
                observed: observed.deep_view(),
                otherwise: otherwise.deep_view(),
            },
            HookPlan::ReplayTape { dir } => HookPlanView::ReplayTape { dir: dir@ },
            HookPlan::UnknownMode { mode } => HookPlanView::UnknownMode { mode: mode@ },
        }
    }
}

/// How a process is hooked that was started like this. Recording is never
/// inferred: a directory alone turns nothing on.
pub open spec fn hook_plan(
    mode: Option<Seq<char>>,
    artifact_dir: Option<Seq<char>>,
    lookup_table: Option<Seq<char>>,
    observed_sink: Option<Seq<char>>,
) -> HookPlanView {
    match mode {
        None => HookPlanView::Off,
        Some(m) => if m == "record"@ {
            match artifact_dir {
                Some(dir) => HookPlanView::Record { dir },
                None => HookPlanView::Off,
            }
        } else if m == "replay"@ {
            match lookup_table {
                Some(table) => HookPlanView::ReplayTable {
                    table,
                    observed: observed_sink,
                    otherwise: artifact_dir,
                },
                None => match artifact_dir {
                    Some(dir) => HookPlanView::ReplayTape { dir },
                    None => HookPlanView::Off,
                },
            }
        } else if m == "disabled"@ || m == "off"@ || m == "none"@ {
            HookPlanView::Off
        } else {
            HookPlanView::UnknownMode { mode: m }
        },
    }
}

/// How a process is hooked that was started like this.
pub fn runtime_hook_plan(
    mode: Option<String>,
    artifact_dir: Option<String>,
    lookup_table: Option<String>,
    observed_sink: Option<String>,
) -> (r: HookPlan)
    ensures
        r@ == hook_plan(
            mode.deep_view(),
            artifact_dir.deep_view(),
            lookup_table.deep_view(),
            observed_sink.deep_view(),
        ),
{
    match mode {
        None => HookPlan::Off,
        Some(m) => if text_eq(m.as_str(), "record") {
            match artifact_dir {
                Some(dir) => HookPlan::Record { dir },
                None => HookPlan::Off,
            }
        } else if text_eq(m.as_str(), "replay") {
            match lookup_table {
                Some(table) => HookPlan::ReplayTable {
                    table,
                    observed: observed_sink,
                    otherwise: artifact_dir,
                },
                None => match artifact_dir {
                    Some(dir) => HookPlan::ReplayTape { dir },
                    None => HookPlan::Off,
                },
            }
        } else if text_eq(m.as_str(), "disabled") || text_eq(m.as_str(), "off") || text_eq(
            m.as_str(),
            "none",
        ) {
            HookPlan::Off
        } else {
            HookPlan::UnknownMode { mode: m }
        },
    }
}

/// The directory a recorder of its own records into, in a process that was
/// started like this.
pub fn recorder_plan(mode: Option<&str>, artifact_dir: Option<String>) -> (r: Option<String>)
    ensures
        r.deep_view() == (if mode.deep_view() == Some("record"@) {
            artifact_dir.deep_view()
        } else {
            None
        }),
{
    match mode {
        Some(m) => if text_eq(m, "record") {
            artifact_dir
        } else {
            None
        },
        None => None,
    }
}

/// Which recorder boundaries record to.
#[derive(Debug, Clone, Copy, PartialEq, Eq, Structural)]
pub enum RecorderSource {
    /// That of the process's hook, so that all events are numbered together.
    Hook,
    /// One of its own: the process has no hook yet.
    Standalone,
    /// None: the process is hooked to something else.
    Nowhere,
}

/// Which recorder boundaries record to, given what the process was hooked to,
/// where that was settled.
pub fn recorder_source(settled: Option<&Option<RuntimeHook>>) -> (r: RecorderSource)
    ensures
        r == (match settled {
            None => RecorderSource::Standalone,
            Some(hook) => match *hook {
                Some(RuntimeHook::Recording(_)) => RecorderSource::Hook,
                _ => RecorderSource::Nowhere,
            },
        }),
{
    match settled {
        None => RecorderSource::Standalone,
        Some(hook) => match hook {
            Some(RuntimeHook::Recording(_)) => RecorderSource::Hook,
            _ => RecorderSource::Nowhere,
        },
    }
}

/// The mode of a process: that of its hook, or disabled where it has none.
pub open spec fn mode_of(hook: Option<RuntimeHook>, ambient: Ambient) -> RuntimeMode {
    match hook {
        Some(h) => h.mode_in(ambient),
        None => RuntimeMode::Disabled,
    }
}

/// The mode of a process.
pub fn runtime_mode(hook: &Option<RuntimeHook>, ambient: &Ambient) -> (r: RuntimeMode)
    ensures
        r == mode_of(*hook, *ambient),
{
    match hook {
        Some(h) => h.mode(ambient),
        None => RuntimeMode::Disabled,
    }
}

/// Whether a process replays.
pub fn replay_is_active(hook: &Option<RuntimeHook>, ambient: &Ambient) -> (r: bool)
    ensures
        r == (mode_of(*hook, *ambient) is Replay),
{
    runtime_mode(hook, ambient).is_replay()
}

/// Whether the arguments of a boundary are read: by a hook that records or
/// replays, or by a recorder of its own that records.
pub fn capture_is_active(
    hook: &Option<RuntimeHook>,
    recorder: Option<RuntimeMode>,
    ambient: &Ambient,
) -> (r: bool)
    ensures
        r == (mode_of(*hook, *ambient) is Record || mode_of(*hook, *ambient) is Replay || recorder
            == Some(RuntimeMode::Record)),
{
    runtime_mode(hook, ambient).consumes_args() || (match recorder {
        Some(mode) => mode.is_record(),
        None => false,
    })
}

/// What replay does at a boundary of a process.
pub fn boundary_execute_mode(
    hook: &Option<RuntimeHook>,
    spec: &BoundarySpec,
    ambient: &Ambient,
) -> (r: ExecuteMode)
    ensures
        r == (if mode_of(*hook, *ambient) is Replay {
            execute_mode(spec.replay_strategy)
        } else {
            ExecuteMode::Lookup
        }),
{
    match hook {
        Some(h) => if h.is_active(ambient) {
            boundary_execute_mode_for(h, spec, ambient)
        } else {
            ExecuteMode::Lookup
        },
        None => ExecuteMode::Lookup,
    }
}

/// The occurrence of a boundary call at its site; 0 where the process has no
/// hook.
pub fn next_boundary_occurrence(
    hook: &mut Option<RuntimeHook>,
    correlation_id: Option<&str>,
    source: CallsiteSource,
    scope: Option<&str>,
    ambient: &Ambient,
) -> (r: u32)
    requires
        *old(hook) matches Some(h) ==> h.can_count(
            site(correlation_id.deep_view(), *ambient, source, scope.deep_view()),
        ),
    ensures
        match (*old(hook), *final(hook)) {
            (Some(before), Some(after)) => DejaHook::counts(
                &before,
                site(correlation_id.deep_view(), *ambient, source, scope.deep_view()),
                after,
                r,
            ),
            (None, None) => r == 0,
            _ => false,
        },
{
    match hook {
        Some(h) => h.next_callsite_occurrence(correlation_id, source, scope, ambient),
        None => 0,
    }
}

/// The name of the file a recording is written to.
pub const SEMANTIC_EVENTS_FILE: &'static str = "semantic-events.jsonl";

/// A process records only where it was told to and into the directory it was
/// given, replays a table where it was given one and else the tape of its
/// directory, and is hooked to nothing where it was told nothing, told not to be,
/// or not told where. Any other mode is unknown, and named.
pub proof fn processes_are_hooked_as_told(
    mode: Option<Seq<char>>,
    dir: Option<Seq<char>>,
    table: Option<Seq<char>>,
    observed: Option<Seq<char>>,
)
    ensures
        ({
            let plan = hook_plan(mode, dir, table, observed);
            let m = mode->0;
            &&& mode is None ==> plan is Off
            &&& plan matches HookPlanView::Record { dir: d } ==> mode == Some("record"@) && dir
                == Some(d)
            &&& mode == Some("record"@) && dir is Some ==> plan is Record
            &&& mode == Some("record"@) && dir is None ==> plan is Off
            &&& plan matches HookPlanView::ReplayTable { table: t, observed: o, otherwise: w }
                ==> mode == Some("replay"@) && table == Some(t) && o == observed && w == dir
            &&& mode == Some("replay"@) && table is Some ==> plan is ReplayTable
            &&& plan matches HookPlanView::ReplayTape { dir: d } ==> mode == Some("replay"@) && dir
                == Some(d) && table is None
            &&& mode == Some("replay"@) && table is None && dir is Some ==> plan is ReplayTape
            &&& mode == Some("replay"@) && table is None && dir is None ==> plan is Off
            &&& mode == Some("disabled"@) || mode == Some("off"@) || mode == Some("none"@)
                ==> plan is Off
            &&& plan matches HookPlanView::UnknownMode { mode: u } ==> mode == Some(u)
            &&& mode is Some && m != "record"@ && m != "replay"@ && m != "disabled"@ && m != "off"@
                && m != "none"@ ==> plan is UnknownMode
        }),
{
    reveal_strlit("record");
    reveal_strlit("replay");
    reveal_strlit("disabled");
    reveal_strlit("off");
    reveal_strlit("none");
    assert("record"@.len() == 6);
    assert("replay"@.len() == 6);
    assert("record"@[2] == 'c');
    assert("replay"@[2] == 'p');
    assert("disabled"@.len() == 8);
    assert("off"@.len() == 3);
    assert("none"@.len() == 4);
}

/// A process without a hook is disabled, and one with a hook is in the mode of its
/// hook: it replays exactly with a replay, and records with a recorder whose writer
/// runs and a correlation that was not decided against.
pub proof fn processes_are_in_the_mode_of_their_hook(hook: RuntimeHook, ambient: Ambient)
    ensures
        mode_of(None, ambient) is Disabled,
        mode_of(Some(hook), ambient) is Replay <==> hook is Replay || hook is LookupReplay,
        mode_of(Some(hook), ambient) is Record <==> hook is Recording
            && hook->Recording_0.writer_active && !(ambient.decision is Some
            && ambient.decision->0 is Skip),
{
}

} // verus!
