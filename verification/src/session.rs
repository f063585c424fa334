//! The life of a watch, from the construction of the provider to the end of
//! the coordinator task: which step comes next, and what a failed step means.

use crate::coordinator::{Coordinator, Phase, State};
use vstd::prelude::*;

verus! {

/// A feature of the provider that dresses up or holds back events. A watch
/// wants every event bare and at once, so each of these is switched off.
#[derive(Clone, Copy, Debug, PartialEq, Eq, Structural)]
pub enum Feature {
    /// Events classified as precisely as the platform allows.
    PreciseEvents,
    /// An early notice ahead of an event that is still held back.
    NoticeEvents,
    /// Repeated events for a change that is still going on.
    OngoingEvents,
}

/// Why a watch could not be established.
#[derive(Clone, Copy, Debug, PartialEq, Eq, Structural)]
pub enum StartError {
    /// The provider could not be constructed.
    Construction,
    /// The provider refused to switch `feature` off.
    Configuration { feature: Feature },
    /// The root at `index` could not be registered.
    Registration { index: usize },
}

/// Where a watch stands. The first four stages name the step that the driver
/// takes next and then reports on; so do `Release` and `Join`.
#[derive(Clone, Copy, Debug, PartialEq, Eq, Structural)]
pub enum Stage {
    /// Construct the provider, with the adapter as its callback.
    Construct,
    /// Switch `feature` off.
    Configure { feature: Feature },
    /// Register the root at `index` for recursive observation.
    Register { index: usize },
    /// Every root is registered: start the coordinator task.
    Launch,
    /// The watch is established and runs until it is stopped.
    Running,
    /// Release the provider, so that no raw signal is delivered any more.
    Release,
    /// Wait for the coordinator task to end.
    Join,
    /// The watch ended in good order.
    Stopped,
    /// The coordinator task ended abnormally.
    JoinFailed,
    /// The watch was never established; whatever was set up is abandoned.
    Aborted { error: StartError },
}

impl StartError {
    /// The words that tell the caller which step failed.
    pub open spec fn text(self) -> Seq<char> {
        match self {
            StartError::Construction => "Failed to create the watcher"@,
            StartError::Configuration { .. } => "Failed to configure the watcher"@,
            StartError::Registration { .. } => "Failed to set a watched path"@,
        }
    }

    /// The words that tell the caller which step failed.
    pub fn context(&self) -> (m: &'static str)
        ensures
            m@ == self.text(),
    {
        match self {
            StartError::Construction => "Failed to create the watcher",
            StartError::Configuration { .. } => "Failed to configure the watcher",
            StartError::Registration { .. } => "Failed to set a watched path",
        }
    }
}

/// The stage that opens registration: the first root, or the launch if there
/// is no root to register.
pub open spec fn registration_from(index: nat, roots: nat) -> Stage {
    if index < roots {
        Stage::Register { index: index as usize }
    } else {
        Stage::Launch
    }
}

/// The error that a failure of the step of `stage` stands for.
pub open spec fn failure_of(stage: Stage) -> StartError {
    match stage {
        Stage::Configure { feature } => StartError::Configuration { feature },
        Stage::Register { index } => StartError::Registration { index },
        _ => StartError::Construction,
    }
}

/// The stage that follows `stage` once its step is reported done (`ok`) or
/// failed, in a watch of `roots` roots.
///
/// Any failed step of the setup aborts the watch. Launching and releasing
/// cannot fail, so their report only says that they are done. A stage without
/// a step takes no report and stays.
pub open spec fn after_report(stage: Stage, ok: bool, roots: nat) -> Stage {
    match stage {
        Stage::Construct => if ok {
            Stage::Configure { feature: Feature::PreciseEvents }
        } else {
            Stage::Aborted { error: failure_of(stage) }
        },
        Stage::Configure { feature } => if ok {
            match feature {
                Feature::PreciseEvents => Stage::Configure { feature: Feature::NoticeEvents },
                Feature::NoticeEvents => Stage::Configure { feature: Feature::OngoingEvents },
                Feature::OngoingEvents => registration_from(0, roots),
            }
        } else {
            Stage::Aborted { error: failure_of(stage) }
        },
        Stage::Register { index } => if ok {
            registration_from((index + 1) as nat, roots)
        } else {
            Stage::Aborted { error: failure_of(stage) }
        },
        Stage::Launch => Stage::Running,
        Stage::Release => Stage::Join,
        Stage::Join => if ok {
            Stage::Stopped
        } else {
            Stage::JoinFailed
        },
        Stage::Running | Stage::Stopped | Stage::JoinFailed | Stage::Aborted { .. } => stage,
    }
}

/// The stage that follows `stage` when the consumer asks for the end of the
/// watch: a running watch starts to shut down, any other stays as it is.
pub open spec fn after_stop(stage: Stage) -> Stage {
    if stage == Stage::Running {
        Stage::Release
    } else {
        stage
    }
}

/// The stage reached from `stage` once the driver has reported on one step
/// after another, as `reports` says, in a watch of `roots` roots.
pub open spec fn stage_after(stage: Stage, reports: Seq<bool>, roots: nat) -> Stage
    decreases reports.len(),
{
    if reports.len() == 0 {
        stage
    } else {
        after_report(stage_after(stage, reports.drop_last(), roots), reports.last(), roots)
    }
}

/// The stage of a setup in which `done` steps have succeeded and none failed:
/// the provider is constructed first, then the three features are switched
/// off, then the roots are registered in order, then the coordinator is
/// launched.
pub open spec fn setup_step(roots: nat, done: nat) -> Stage {
    if done == 0 {
        Stage::Construct
    } else if done == 1 {
        Stage::Configure { feature: Feature::PreciseEvents }
    } else if done == 2 {
        Stage::Configure { feature: Feature::NoticeEvents }
    } else if done == 3 {
        Stage::Configure { feature: Feature::OngoingEvents }
    } else if done < 4 + roots {
        Stage::Register { index: (done - 4) as usize }
    } else if done == 4 + roots {
        Stage::Launch
    } else {
        Stage::Running
    }
}

/// Whether report `k` is the first that tells of a failure.
pub open spec fn first_failure(reports: Seq<bool>, k: int) -> bool {
    &&& 0 <= k < reports.len()
    &&& !reports[k]
    &&& forall|j: int| 0 <= j < k ==> reports[j]
}

/// Where a setup stands after `reports`: aborted by its first failed step, or
/// as far into the plan as there are reports, or running.
spec fn accounts_for(roots: nat, reports: Seq<bool>, stage: Stage) -> bool {
    ||| exists|k: int|
        k < roots + 4 && #[trigger] first_failure(reports, k) && stage == (Stage::Aborted {
            error: failure_of(setup_step(roots, k as nat)),
        })
    ||| {
        &&& reports.len() <= roots + 4
        &&& forall|j: int| 0 <= j < reports.len() ==> reports[j]
        &&& stage == setup_step(roots, reports.len())
    }
    ||| {
        &&& reports.len() > roots + 4
        &&& forall|j: int| 0 <= j < roots + 4 ==> reports[j]
        &&& stage == Stage::Running
    }
}

proof fn lemma_setup_accounted(roots: nat, reports: Seq<bool>)
    requires
        roots <= usize::MAX,
    ensures
        accounts_for(roots, reports, stage_after(Stage::Construct, reports, roots)),
    decreases reports.len(),
{
    if reports.len() > 0 {
        let earlier = reports.drop_last();
        let reached = stage_after(Stage::Construct, earlier, roots);
        let stage = stage_after(Stage::Construct, reports, roots);
        lemma_setup_accounted(roots, earlier);
        assert forall|j: int| 0 <= j < earlier.len() implies earlier[j] == reports[j] by {}
        if exists|k: int|
            k < roots + 4 && #[trigger] first_failure(earlier, k) && reached == (Stage::Aborted {
                error: failure_of(setup_step(roots, k as nat)),
            }) {
            let k = choose|k: int|
                k < roots + 4 && #[trigger] first_failure(earlier, k) && reached == (
                Stage::Aborted { error: failure_of(setup_step(roots, k as nat)) });
            assert(first_failure(reports, k));
        } else if earlier.len() <= roots + 4 && reached == setup_step(roots, earlier.len()) {
            if earlier.len() < roots + 4 && !reports.last() {
                assert(first_failure(reports, earlier.len() as int));
            }
        }
    }
}

/// A setup whose steps all succeed follows the plan: after `reports.len()`
/// reports of success it stands at that step of the plan, and once the launch
/// is reported the watch is running.
pub proof fn lemma_setup_follows_plan(roots: nat, reports: Seq<bool>)
    requires
        roots <= usize::MAX,
        forall|j: int| 0 <= j < reports.len() ==> reports[j],
    ensures
        stage_after(Stage::Construct, reports, roots) == setup_step(roots, reports.len()),
{
    lemma_setup_accounted(roots, reports);
}

/// The first step of a setup that fails aborts the watch, with the error of
/// that step, and nothing reported afterwards changes that.
pub proof fn lemma_first_failure_aborts(roots: nat, reports: Seq<bool>, k: int)
    requires
        roots <= usize::MAX,
        k < roots + 4,
        first_failure(reports, k),
    ensures
        stage_after(Stage::Construct, reports, roots) == (Stage::Aborted {
            error: failure_of(setup_step(roots, k as nat)),
        }),
{
    lemma_setup_accounted(roots, reports);
    let stage = stage_after(Stage::Construct, reports, roots);
    let other = choose|other: int|
        other < roots + 4 && #[trigger] first_failure(reports, other) && stage == (Stage::Aborted {
            error: failure_of(setup_step(roots, other as nat)),
        });
    assert(other == k);
}

/// The coordinator is launched, and the watch runs, only when the provider
/// was constructed, every feature switched off and every root registered:
/// no watch is left half set up.
pub proof fn lemma_launch_needs_every_step(roots: nat, reports: Seq<bool>)
    requires
        roots <= usize::MAX,
        stage_after(Stage::Construct, reports, roots) == Stage::Launch || stage_after(
            Stage::Construct,
            reports,
            roots,
        ) == Stage::Running,
    ensures
        reports.len() >= roots + 4,
        forall|j: int| 0 <= j < roots + 4 ==> reports[j],
{
    lemma_setup_accounted(roots, reports);
}

/// The mathematical state of a watch.
pub struct Session {
    pub roots: Seq<String>,
    pub debounce_period: u64,
    pub stage: Stage,
}

/// A watch over a set of roots: the handle that says what the driver does
/// next. The roots and the debounce period never change.
pub struct ProjectWatcher {
    roots: Vec<String>,
    debounce_period: u64,
    stage: Stage,
}

impl View for ProjectWatcher {
    type V = Session;

    closed spec fn view(&self) -> Session {
        Session { roots: self.roots@, debounce_period: self.debounce_period, stage: self.stage }
    }
}

impl ProjectWatcher {
    #[verifier::type_invariant]
    spec fn registers_known_roots(self) -> bool {
        self.stage matches Stage::Register { index } ==> index < self.roots.len()
    }

    /// A watch over `roots`, in order, with nothing set up yet.
    pub fn start(roots: Vec<String>, debounce_period: u64) -> (watcher: ProjectWatcher)
        ensures
            watcher@ == (Session { roots: roots@, debounce_period, stage: Stage::Construct }),
    {
        ProjectWatcher { roots, debounce_period, stage: Stage::Construct }
    }

    /// Where the watch stands.
    pub fn stage(&self) -> (stage: Stage)
        ensures
            stage == self@.stage,
            stage matches Stage::Register { index } ==> index < self@.roots.len(),
    {
        proof {
            use_type_invariant(self);
        }
        self.stage
    }

    /// The debounce period, in ticks.
    pub fn debounce_period(&self) -> (period: u64)
        ensures
            period == self@.debounce_period,
    {
        self.debounce_period
    }

    /// The watched roots, in the order in which they are registered.
    pub fn roots(&self) -> (roots: &Vec<String>)
        ensures
            roots@ == self@.roots,
    {
        &self.roots
    }

    /// The root to register now, if registering a root is the next step.
    pub fn pending_root(&self) -> (root: Option<&String>)
        ensures
            match self@.stage {
                Stage::Register { index } => index < self@.roots.len() && root == Some(
                    &self@.roots[index as int],
                ),
                _ => root.is_none(),
            },
    {
        proof {
            use_type_invariant(self);
        }
        match self.stage {
            Stage::Register { index } => Some(&self.roots[index]),
            _ => None,
        }
    }

    /// A coordinator for this watch, with its debounce period and no countdown
    /// running.
    pub fn coordinator(&self) -> (c: Coordinator)
        ensures
            c@ == (State { period: self@.debounce_period, phase: Phase::Idle }),
    {
        Coordinator::new(self.debounce_period)
    }

    /// Takes the driver's report on the step of the current stage.
    pub fn report(&mut self, ok: bool)
        ensures
            final(self)@.stage == after_report(old(self)@.stage, ok, old(self)@.roots.len()),
            final(self)@.roots == old(self)@.roots,
            final(self)@.debounce_period == old(self)@.debounce_period,
    {
        proof {
            use_type_invariant(&*self);
        }
        let count: usize = self.roots.len();
        let next = match self.stage {
            Stage::Construct => if ok {
                Stage::Configure { feature: Feature::PreciseEvents }
            } else {
                Stage::Aborted { error: StartError::Construction }
            },
            Stage::Configure { feature } => if ok {
                match feature {
                    Feature::PreciseEvents => Stage::Configure { feature: Feature::NoticeEvents },
                    Feature::NoticeEvents => Stage::Configure { feature: Feature::OngoingEvents },
                    Feature::OngoingEvents => Self::registration(0, count),
                }
            } else {
                Stage::Aborted { error: StartError::Configuration { feature } }
            },
            Stage::Register { index } => if ok {
                Self::registration(index + 1, count)
            } else {
                Stage::Aborted { error: StartError::Registration { index } }
            },
            Stage::Launch => Stage::Running,
            Stage::Release => Stage::Join,
            Stage::Join => if ok {
                Stage::Stopped
            } else {
                Stage::JoinFailed
            },
            stage => stage,
        };
        self.stage = next;
    }

    /// Asks for the end of the watch. Only a running watch can be stopped;
    /// the answer says whether this one was.
    pub fn stop(&mut self) -> (stopping: bool)
        ensures
            stopping == (old(self)@.stage == Stage::Running),
            final(self)@.stage == after_stop(old(self)@.stage),
            final(self)@.roots == old(self)@.roots,
            final(self)@.debounce_period == old(self)@.debounce_period,
    {
        match self.stage {
            Stage::Running => {
                self.stage = Stage::Release;
                true
            },
            _ => false,
        }
    }

    fn registration(index: usize, count: usize) -> (stage: Stage)
        ensures
            stage == registration_from(index as nat, count as nat),
            stage matches Stage::Register { index: i } ==> i < count,
    {
        if index < count {
            Stage::Register { index }
        } else {
            Stage::Launch
        }
    }
}

} // verus!
