//! The topology controller: the state machine that owns the description of the running
//! pipeline, serializes the changes to it and counts its generations.

use crate::config_event::{ConfigAction, ConfigEvent};
use crate::description::{
    definitions, entries, has_id, lemma_merge, lemma_position, lemma_reduced_valid, merge,
    position, texts, unique_ids, Component, ComponentView, DescriptionView, PipelineDescription,
};
use crate::reconciler::{planned, reload_vector, view_of, ControllerError, Plan, PlanView};
use vstd::prelude::*;

verus! {

/// Where a controller stands between its making and its end.
#[derive(Debug, Clone, Copy, PartialEq, Eq, Structural)]
pub enum Phase {
    /// No pipeline was started yet.
    Idle,
    /// A pipeline runs and no change is under way.
    Running,
    /// A pipeline runs and the engine was asked to swap it over to the pending description.
    Reloading,
    /// The pipeline was stopped.
    Stopped,
}

/// What the caller has to do with the engine after a request.
#[derive(Debug, Clone, Copy, PartialEq, Eq, Structural)]
pub enum EngineCommand {
    /// Nothing: the engine is left alone.
    Nothing,
    /// Build the pipeline from the controller's description and run it.
    Launch,
    /// Swap the running pipeline over to the controller's pending description, then report
    /// how that went.
    Reload,
    /// Stop the running pipeline.
    Halt,
}

/// How the engine answered a request to swap the running pipeline over.
#[derive(Debug, Clone, Copy, PartialEq, Eq, Structural)]
pub enum ReloadOutcome {
    /// The new description runs.
    Accepted,
    /// The engine kept the old pipeline.
    Declined,
    /// The engine failed while it tried.
    Failed,
}

/// The generation after `generation`: one more; the largest generation stays, so that the
/// count never falls back.
pub open spec fn next_generation(generation: u32) -> u32 {
    if generation == u32::MAX {
        u32::MAX
    } else {
        (generation + 1) as u32
    }
}

/// Advances the generation counter if `result` reports success, and hands `result` back.
/// The counter never falls back: at the largest generation it stays.
pub fn advance_generation(result: bool, generation_id: &mut u32) -> (same: bool)
    ensures
        same == result,
        *final(generation_id) == if result {
            next_generation(*old(generation_id))
        } else {
            *old(generation_id)
        },
        *final(generation_id) >= *old(generation_id),
{
    if result && *generation_id < u32::MAX {
        *generation_id = *generation_id + 1;
    }
    result
}

/// The mathematical value of a [`TopologyController`].
pub struct ControllerView {
    pub phase: Phase,
    /// The description that runs, or ran last.
    pub snapshot: Option<DescriptionView>,
    /// The description that the engine was asked to swap to.
    pub pending: Option<DescriptionView>,
    pub generation: u32,
}

/// A transition: the state after a request, and the answer to the caller.
pub struct Step {
    pub next: ControllerView,
    pub reply: Result<EngineCommand, ControllerError>,
}

impl ControllerView {
    /// A controller before anything was asked of it.
    pub open spec fn initial() -> ControllerView {
        ControllerView { phase: Phase::Idle, snapshot: None, pending: None, generation: 0 }
    }

    /// The invariant of every controller: a description is held from the first successful
    /// start on, it is valid, a pending one is held exactly while a reload is under way, and
    /// the generation is zero until the pipeline was started.
    pub open spec fn valid(self) -> bool {
        match self.phase {
            Phase::Idle => self.snapshot is None && self.pending is None && self.generation == 0,
            Phase::Running | Phase::Stopped => {
                &&& self.snapshot matches Some(d) && d.valid()
                &&& self.pending is None
            },
            Phase::Reloading => {
                &&& self.snapshot matches Some(d) && d.valid()
                &&& self.pending matches Some(p) && p.valid()
            },
        }
    }

    /// This state, kept, with the refusal `error` as the answer.
    pub open spec fn refused(self, error: ControllerError) -> Step {
        Step { next: self, reply: Err(error) }
    }

    /// A start with what the description reader made of the description text.
    pub open spec fn started(self, description: Option<DescriptionView>) -> Step {
        if self.phase != Phase::Idle {
            self.refused(ControllerError::InvalidStateTransition)
        } else {
            match description {
                None => self.refused(ControllerError::ConfigParseError),
                Some(d) => Step {
                    next: ControllerView {
                        phase: Phase::Running,
                        snapshot: Some(d),
                        pending: None,
                        generation: next_generation(self.generation),
                    },
                    reply: Ok(EngineCommand::Launch),
                },
            }
        }
    }

    /// A configuration event on a running pipeline.
    pub open spec fn requested(
        self,
        action: ConfigAction,
        ids: Seq<Seq<char>>,
        parsed: Option<DescriptionView>,
    ) -> Step {
        if self.phase != Phase::Running || self.snapshot is None {
            self.refused(ControllerError::InvalidStateTransition)
        } else {
            match planned(action, ids, parsed, self.snapshot.unwrap()) {
                PlanView::Keep => Step { next: self, reply: Ok(EngineCommand::Nothing) },
                PlanView::Swap(d) => Step {
                    next: ControllerView { phase: Phase::Reloading, pending: Some(d), ..self },
                    reply: Ok(EngineCommand::Reload),
                },
                PlanView::Refuse(error) => self.refused(error),
            }
        }
    }

    /// The engine's answer to a reload.
    pub open spec fn reloaded(self, outcome: ReloadOutcome) -> Step {
        if self.phase != Phase::Reloading {
            self.refused(ControllerError::InvalidStateTransition)
        } else if outcome == ReloadOutcome::Accepted {
            Step {
                next: ControllerView {
                    phase: Phase::Running,
                    snapshot: self.pending,
                    pending: None,
                    generation: next_generation(self.generation),
                },
                reply: Ok(EngineCommand::Nothing),
            }
        } else {
            Step {
                next: ControllerView { phase: Phase::Running, pending: None, ..self },
                reply: Err(ControllerError::ReloadRejected),
            }
        }
    }

    /// A stop: a running pipeline is to be halted; a controller that has none stays as it
    /// is; while a reload is under way nothing can be stopped.
    pub open spec fn stopped(self) -> Step {
        match self.phase {
            Phase::Running => Step {
                next: ControllerView { phase: Phase::Stopped, ..self },
                reply: Ok(EngineCommand::Halt),
            },
            Phase::Idle | Phase::Stopped => Step { next: self, reply: Ok(EngineCommand::Nothing) },
            Phase::Reloading => self.refused(ControllerError::InvalidStateTransition),
        }
    }

    /// An exit: a stop that counts as a generation where it halts a pipeline.
    pub open spec fn exited(self) -> Step {
        let step = self.stopped();
        if step.reply == Ok::<EngineCommand, ControllerError>(EngineCommand::Halt) {
            Step {
                next: ControllerView {
                    generation: next_generation(self.generation),
                    ..step.next
                },
                reply: step.reply,
            }
        } else {
            step
        }
    }
}

/// The view of a description that may be missing.
pub open spec fn view_of_owned(d: Option<PipelineDescription>) -> Option<DescriptionView> {
    match d {
        Some(d) => Some(d@),
        None => None,
    }
}

/// Owns the description of the one running pipeline and decides, request by request, what
/// the engine has to do. The caller performs each [`EngineCommand`] and, after a reload,
/// reports the engine's answer with [`TopologyController::handle_reload`].
#[derive(Debug)]
pub struct TopologyController {
    phase: Phase,
    config_builder: Option<PipelineDescription>,
    pending: Option<PipelineDescription>,
    generation_id: u32,
}

impl View for TopologyController {
    type V = ControllerView;

    closed spec fn view(&self) -> ControllerView {
        ControllerView {
            phase: self.phase,
            snapshot: view_of_owned(self.config_builder),
            pending: view_of_owned(self.pending),
            generation: self.generation_id,
        }
    }
}

impl TopologyController {
    /// The invariant that every method keeps.
    pub open spec fn wf(&self) -> bool {
        self@.valid()
    }

    /// A controller with no pipeline, at generation zero.
    pub fn new() -> (controller: TopologyController)
        ensures
            controller.wf(),
            controller@ == ControllerView::initial(),
    {
        TopologyController {
            phase: Phase::Idle,
            config_builder: None,
            pending: None,
            generation_id: 0,
        }
    }

    /// Starts the pipeline that `description` describes, where `description` is what the
    /// description reader made of the caller's text (`None`: it could not read it).
    ///
    /// Valid once, on a controller that never ran a pipeline. On success the controller
    /// runs, holds the description, is one generation on, and answers `Launch`; the call
    /// does not wait for the pipeline. Otherwise nothing changes.
    pub fn start(&mut self, description: Option<PipelineDescription>) -> (reply: Result<
        EngineCommand,
        ControllerError,
    >)
        requires
            old(self).wf(),
            description is Some ==> description.unwrap().wf(),
        ensures
            final(self).wf(),
            final(self)@ == old(self)@.started(view_of_owned(description)).next,
            reply == old(self)@.started(view_of_owned(description)).reply,
    {
        if self.phase != Phase::Idle {
            return Err(ControllerError::InvalidStateTransition);
        }
        match description {
            None => Err(ControllerError::ConfigParseError),
            Some(d) => {
                self.config_builder = Some(d);
                self.phase = Phase::Running;
                advance_generation(true, &mut self.generation_id);
                Ok(EngineCommand::Launch)
            },
        }
    }

    /// Handles one event on the running pipeline: asks the reconciler for the plan and,
    /// where the plan is a new description, keeps it as pending and answers `Reload`.
    pub fn handle_event(&mut self, event: ConfigEvent, parsed: Option<PipelineDescription>) -> (reply:
        Result<EngineCommand, ControllerError>)
        requires
            old(self).wf(),
            parsed is Some ==> parsed.unwrap().wf(),
        ensures
            final(self).wf(),
            final(self)@ == old(self)@.requested(
                event.action,
                texts(event.config_ids@),
                view_of_owned(parsed),
            ).next,
            reply == old(self)@.requested(
                event.action,
                texts(event.config_ids@),
                view_of_owned(parsed),
            ).reply,
    {
        if self.phase != Phase::Running {
            return Err(ControllerError::InvalidStateTransition);
        }
        let plan = match &self.config_builder {
            Some(current) => reload_vector(&event, parsed.as_ref(), current),
            None => Plan::Refuse(ControllerError::InvalidStateTransition),
        };
        match plan {
            Plan::Keep => Ok(EngineCommand::Nothing),
            Plan::Swap(next) => {
                self.pending = Some(next);
                self.phase = Phase::Reloading;
                Ok(EngineCommand::Reload)
            },
            Plan::Refuse(error) => Err(error),
        }
    }
}

impl TopologyController {
    /// Handles the event that the word `action` names, with the identifiers `ids` and the
    /// fragment text `config_str`, read as `parsed`. A word that names no action is a parse
    /// error and changes nothing.
    pub fn handle_config_event(
        &mut self,
        action: &str,
        ids: Vec<String>,
        config_str: String,
        parsed: Option<PipelineDescription>,
    ) -> (reply: Result<EngineCommand, ControllerError>)
        requires
            old(self).wf(),
            parsed is Some ==> parsed.unwrap().wf(),
        ensures
            final(self).wf(),
            ConfigAction::named(action@) matches Some(a) ==> {
                &&& final(self)@ == old(self)@.requested(a, texts(ids@), view_of_owned(parsed)).next
                &&& reply == old(self)@.requested(a, texts(ids@), view_of_owned(parsed)).reply
            },
            ConfigAction::named(action@) is None ==> {
                &&& final(self)@ == old(self)@
                &&& reply == Err::<EngineCommand, ControllerError>(
                    ControllerError::ConfigParseError,
                )
            },
    {
        match ConfigAction::parse(action) {
            Some(a) => self.handle_event(
                ConfigEvent { action: a, config_ids: ids, config_str },
                parsed,
            ),
            None => Err(ControllerError::ConfigParseError),
        }
    }

    /// Adds the components of a fragment to the running pipeline's description, a new
    /// definition replacing the one of the same name. `config` is the fragment's text and
    /// `parsed` what the description reader made of it.
    pub fn add_config(&mut self, config: String, parsed: Option<PipelineDescription>) -> (reply:
        Result<EngineCommand, ControllerError>)
        requires
            old(self).wf(),
            parsed is Some ==> parsed.unwrap().wf(),
        ensures
            final(self).wf(),
            final(self)@ == old(self)@.requested(
                ConfigAction::ADD,
                Seq::empty(),
                view_of_owned(parsed),
            ).next,
            reply == old(self)@.requested(
                ConfigAction::ADD,
                Seq::empty(),
                view_of_owned(parsed),
            ).reply,
    {
        let ids: Vec<String> = Vec::new();
        assert(texts(ids@) =~= Seq::empty());
        self.handle_event(
            ConfigEvent { action: ConfigAction::ADD, config_ids: ids, config_str: config },
            parsed,
        )
    }

    /// The same as [`TopologyController::add_config`], for a caller that means to change
    /// components that exist.
    pub fn update_config(&mut self, config: String, parsed: Option<PipelineDescription>) -> (reply:
        Result<EngineCommand, ControllerError>)
        requires
            old(self).wf(),
            parsed is Some ==> parsed.unwrap().wf(),
        ensures
            final(self).wf(),
            final(self)@ == old(self)@.requested(
                ConfigAction::UPDATE,
                Seq::empty(),
                view_of_owned(parsed),
            ).next,
            reply == old(self)@.requested(
                ConfigAction::UPDATE,
                Seq::empty(),
                view_of_owned(parsed),
            ).reply,
    {
        let ids: Vec<String> = Vec::new();
        assert(texts(ids@) =~= Seq::empty());
        self.handle_event(
            ConfigEvent { action: ConfigAction::UPDATE, config_ids: ids, config_str: config },
            parsed,
        )
    }

    /// Takes the sources and transforms named in `config_ids` out of the running pipeline's
    /// description. Names of sinks and unknown names are passed over; where nothing is left
    /// to take out, the answer is `Nothing` and the controller stays as it is.
    pub fn delete_config(&mut self, config_ids: Vec<String>) -> (reply: Result<
        EngineCommand,
        ControllerError,
    >)
        requires
            old(self).wf(),
        ensures
            final(self).wf(),
            final(self)@ == old(self)@.requested(
                ConfigAction::DELETE,
                texts(config_ids@),
                None,
            ).next,
            reply == old(self)@.requested(ConfigAction::DELETE, texts(config_ids@), None).reply,
    {
        self.handle_event(
            ConfigEvent {
                action: ConfigAction::DELETE,
                config_ids,
                config_str: String::new(),
            },
            None,
        )
    }

    /// Takes the engine's answer to the reload that was asked for last. An accepted reload
    /// makes the pending description the current one and advances the generation; any other
    /// answer drops the pending description and is reported as `ReloadRejected`. Either way
    /// the controller runs on.
    pub fn handle_reload(&mut self, outcome: ReloadOutcome) -> (reply: Result<
        EngineCommand,
        ControllerError,
    >)
        requires
            old(self).wf(),
        ensures
            final(self).wf(),
            final(self)@ == old(self)@.reloaded(outcome).next,
            reply == old(self)@.reloaded(outcome).reply,
    {
        if self.phase != Phase::Reloading {
            return Err(ControllerError::InvalidStateTransition);
        }
        let next = self.pending.take();
        self.phase = Phase::Running;
        let accepted = match outcome {
            ReloadOutcome::Accepted => true,
            ReloadOutcome::Declined => false,
            ReloadOutcome::Failed => false,
        };
        if advance_generation(accepted, &mut self.generation_id) {
            self.config_builder = next;
            Ok(EngineCommand::Nothing)
        } else {
            Err(ControllerError::ReloadRejected)
        }
    }

    /// Stops the pipeline without counting a generation: `Halt` if one runs, `Nothing` if
    /// none does, and a refusal while a reload is under way.
    pub fn stop(&mut self) -> (reply: Result<EngineCommand, ControllerError>)
        requires
            old(self).wf(),
        ensures
            final(self).wf(),
            final(self)@ == old(self)@.stopped().next,
            reply == old(self)@.stopped().reply,
    {
        match self.phase {
            Phase::Running => {
                self.phase = Phase::Stopped;
                Ok(EngineCommand::Halt)
            },
            Phase::Idle | Phase::Stopped => Ok(EngineCommand::Nothing),
            Phase::Reloading => Err(ControllerError::InvalidStateTransition),
        }
    }

    /// Stops the pipeline and, where that halts one, advances the generation.
    pub fn exit(&mut self) -> (reply: Result<EngineCommand, ControllerError>)
        requires
            old(self).wf(),
        ensures
            final(self).wf(),
            final(self)@ == old(self)@.exited().next,
            reply == old(self)@.exited().reply,
    {
        let reply = self.stop();
        let halted = match reply {
            Ok(EngineCommand::Halt) => true,
            _ => false,
        };
        advance_generation(halted, &mut self.generation_id);
        reply
    }

    /// The number of the configuration that runs: how many starts, accepted changes and
    /// exits there were.
    pub fn get_generation_id(&self) -> (generation: u32)
        ensures
            generation == self@.generation,
    {
        self.generation_id
    }

    /// Where the controller stands.
    pub fn phase(&self) -> (phase: Phase)
        ensures
            phase == self@.phase,
    {
        self.phase
    }

    /// The description that runs, or ran last.
    pub fn snapshot(&self) -> (d: Option<&PipelineDescription>)
        ensures
            view_of(d) == self@.snapshot,
            self.wf() && d is Some ==> d.unwrap().wf(),
    {
        self.config_builder.as_ref()
    }

    /// The description that the engine was asked to swap to, while a reload is under way.
    pub fn pending(&self) -> (d: Option<&PipelineDescription>)
        ensures
            view_of(d) == self@.pending,
            self.wf() && d is Some ==> d.unwrap().wf(),
    {
        self.pending.as_ref()
    }
}

/// What the description reader made of a text: the components it found, by category.
#[derive(Debug, PartialEq)]
pub struct ParsedConfig {
    pub sources: Vec<Component>,
    pub transforms: Vec<Component>,
    pub sinks: Vec<Component>,
}

impl View for ParsedConfig {
    type V = DescriptionView;

    open spec fn view(&self) -> DescriptionView {
        DescriptionView {
            sources: entries(self.sources@),
            transforms: entries(self.transforms@),
            sinks: entries(self.sinks@),
        }
    }
}

/// The description that a text stands for, from what the description reader made of the
/// text (`None`: it could not read it). A text is also no description if it names a
/// component twice in one category, or a source and a transform alike.
pub fn init_config(parsed: Option<ParsedConfig>) -> (description: Option<PipelineDescription>)
    ensures
        description is Some <==> (parsed matches Some(p) && p@.valid()),
        description matches Some(d) ==> d.wf() && d@ == parsed.unwrap()@,
{
    match parsed {
        Some(p) => PipelineDescription::from_components(p.sources, p.transforms, p.sinks),
        None => None,
    }
}

/// Runs one pipeline from its start to the end of its sources, and keeps nothing.
#[derive(Debug)]
pub struct OneShotTopologyController {}

/// The result of a pipeline that was to run to its end: `(true, "")` if it came up and ran
/// out, `(false, reason)` if it did not come up because a sink was found unhealthy.
pub open spec fn run_result(came_up: bool) -> (bool, Seq<char>) {
    if came_up {
        (true, ""@)
    } else {
        (false, "health check for sink failed"@)
    }
}

/// Reports how a pipeline that was to run to its end fared, from whether it came up.
pub fn start_topology_sync(came_up: bool) -> (result: (bool, String))
    ensures
        result.0 == run_result(came_up).0,
        result.1@ == run_result(came_up).1,
{
    if came_up {
        (true, "".to_owned())
    } else {
        (false, "health check for sink failed".to_owned())
    }
}

impl OneShotTopologyController {
    /// A controller for one run.
    pub fn new() -> (controller: OneShotTopologyController) {
        OneShotTopologyController {  }
    }

    /// Decides whether a one-shot pipeline can be run: it can, from `description`, if the
    /// description reader could read the caller's text.
    pub fn start(&mut self, description: Option<PipelineDescription>) -> (reply: Result<
        PipelineDescription,
        ControllerError,
    >)
        ensures
            reply == match description {
                Some(d) => Ok::<PipelineDescription, ControllerError>(d),
                None => Err(ControllerError::ConfigParseError),
            },
    {
        match description {
            Some(d) => Ok(d),
            None => Err(ControllerError::ConfigParseError),
        }
    }

    /// Turns the result of the run into the answer to the caller: success, or the reason
    /// of the failure.
    pub fn finish(&mut self, run: (bool, String)) -> (reply: Result<bool, String>)
        ensures
            reply == if run.0 {
                Ok::<bool, String>(true)
            } else {
                Err(run.1)
            },
    {
        if run.0 {
            Ok(true)
        } else {
            Err(run.1)
        }
    }
}

impl ControllerView {
    /// The state after a request and, where the request commanded a reload, after the
    /// engine's answer `outcome` to it.
    pub open spec fn settled(self, step: Step, outcome: ReloadOutcome) -> ControllerView {
        if step.reply == Ok::<EngineCommand, ControllerError>(EngineCommand::Reload) {
            step.next.reloaded(outcome).next
        } else {
            step.next
        }
    }

    /// A request took effect: it commanded a reload and the engine accepted it.
    pub open spec fn took_effect(step: Step, outcome: ReloadOutcome) -> bool {
        step.reply == Ok::<EngineCommand, ControllerError>(EngineCommand::Reload) && outcome
            == ReloadOutcome::Accepted
    }
}

/// Every transition keeps the controller's invariant.
pub proof fn transitions_keep_the_invariant(
    c: ControllerView,
    description: Option<DescriptionView>,
    action: ConfigAction,
    ids: Seq<Seq<char>>,
    parsed: Option<DescriptionView>,
    outcome: ReloadOutcome,
)
    requires
        c.valid(),
        description matches Some(d) ==> d.valid(),
        parsed matches Some(f) ==> f.valid(),
    ensures
        ControllerView::initial().valid(),
        c.started(description).next.valid(),
        c.requested(action, ids, parsed).next.valid(),
        c.reloaded(outcome).next.valid(),
        c.stopped().next.valid(),
        c.exited().next.valid(),
{
    if c.phase == Phase::Running {
        lemma_reduced_valid(c.snapshot.unwrap(), ids);
    }
}

/// The generation is zero before the first start and one right after it.
pub proof fn generation_counts_from_the_first_start(c: ControllerView, d: DescriptionView)
    requires
        c.valid(),
        c.phase == Phase::Idle,
    ensures
        ControllerView::initial().generation == 0,
        c.generation == 0,
        c.started(Some(d)).reply == Ok::<EngineCommand, ControllerError>(EngineCommand::Launch),
        c.started(Some(d)).next.generation == 1,
        c.started(None).next.generation == 0,
{
}

/// A change to the running pipeline counts one generation if it took effect, and none if it
/// was refused, declined by the engine or had nothing to do; a change that took effect
/// leaves the planned description as the current one, any other leaves the description as
/// it was. (At the largest generation the count stays.)
pub proof fn generation_counts_changes_that_took_effect(
    c: ControllerView,
    action: ConfigAction,
    ids: Seq<Seq<char>>,
    parsed: Option<DescriptionView>,
    outcome: ReloadOutcome,
)
    requires
        c.valid(),
        c.generation < u32::MAX,
    ensures
        ({
            let step = c.requested(action, ids, parsed);
            let after = c.settled(step, outcome);
            if ControllerView::took_effect(step, outcome) {
                &&& after.generation == c.generation + 1
                &&& after.snapshot == step.next.pending
                &&& planned(action, ids, parsed, c.snapshot.unwrap()) == PlanView::Swap(
                    after.snapshot.unwrap(),
                )
                &&& after.phase == Phase::Running
            } else {
                &&& after.generation == c.generation
                &&& after.snapshot == c.snapshot
                &&& after.phase == c.phase
            }
        }),
{
}

/// An exit counts one generation where it halts a running pipeline, and none otherwise; a
/// stop counts none. (At the largest generation the count stays.)
pub proof fn generation_counts_the_exit(c: ControllerView)
    requires
        c.valid(),
        c.generation < u32::MAX,
    ensures
        c.stopped().next.generation == c.generation,
        c.exited().next.generation == if c.phase == Phase::Running {
            c.generation + 1
        } else {
            c.generation as int
        },
        c.exited().next.snapshot == c.snapshot,
{
}

/// A delete that names no source and no transform of the running pipeline is a no-op: it
/// reports success, commands nothing, and leaves generation and description as they were.
pub proof fn delete_of_unknown_ids_changes_nothing(
    c: ControllerView,
    ids: Seq<Seq<char>>,
    parsed: Option<DescriptionView>,
)
    requires
        c.valid(),
        c.phase == Phase::Running,
        forall|k: int| 0 <= k < ids.len() ==> !c.snapshot.unwrap().names(#[trigger] ids[k]),
    ensures
        c.requested(ConfigAction::DELETE, ids, parsed) == (Step {
            next: c,
            reply: Ok(EngineCommand::Nothing),
        }),
{
}

/// Two exits in a row both report success, and the second commands nothing and changes
/// nothing, so there is nothing it could wait for.
pub proof fn exit_twice_is_exit_once(c: ControllerView)
    requires
        c.valid(),
        c.phase != Phase::Reloading,
    ensures
        c.exited().reply is Ok,
        c.exited().next.exited() == (Step {
            next: c.exited().next,
            reply: Ok(EngineCommand::Nothing),
        }),
        c.stopped().reply is Ok,
        c.stopped().next.stopped() == (Step {
            next: c.stopped().next,
            reply: Ok(EngineCommand::Nothing),
        }),
{
}

/// One thing that can be asked of a controller, or told to it.
pub enum Request {
    /// A start, with what the description reader made of the text.
    Start(Option<DescriptionView>),
    /// A configuration event, with the identifiers it names and the fragment it carries.
    Change(ConfigAction, Seq<Seq<char>>, Option<DescriptionView>),
    /// The engine's answer to a reload.
    Reloaded(ReloadOutcome),
    /// A stop.
    Stop,
    /// An exit.
    Exit,
}

impl ControllerView {
    /// The transition that `request` makes.
    pub open spec fn after(self, request: Request) -> Step {
        match request {
            Request::Start(description) => self.started(description),
            Request::Change(action, ids, parsed) => self.requested(action, ids, parsed),
            Request::Reloaded(outcome) => self.reloaded(outcome),
            Request::Stop => self.stopped(),
            Request::Exit => self.exited(),
        }
    }

    /// `request` is one of the three that count a generation: a start that succeeds, a
    /// reload that the engine accepted, and an exit that halts a pipeline.
    pub open spec fn counts(self, request: Request) -> bool {
        match request {
            Request::Start(description) => self.phase == Phase::Idle && description is Some,
            Request::Change(_, _, _) => false,
            Request::Reloaded(outcome) => self.phase == Phase::Reloading && outcome
                == ReloadOutcome::Accepted,
            Request::Stop => false,
            Request::Exit => self.phase == Phase::Running,
        }
    }

    /// The state after `requests`, one after the other.
    pub open spec fn run(self, requests: Seq<Request>) -> ControllerView
        decreases requests.len(),
    {
        if requests.len() == 0 {
            self
        } else {
            self.run(requests.drop_last()).after(requests.last()).next
        }
    }

    /// How many of `requests`, made one after the other, count a generation.
    pub open spec fn counted(self, requests: Seq<Request>) -> nat
        decreases requests.len(),
    {
        if requests.len() == 0 {
            0
        } else {
            self.counted(requests.drop_last()) + if self.run(requests.drop_last()).counts(
                requests.last(),
            ) {
                1nat
            } else {
                0nat
            }
        }
    }
}

/// Every request in `requests` carries valid descriptions only.
pub open spec fn valid_requests(requests: Seq<Request>) -> bool {
    forall|i: int|
        0 <= i < requests.len() ==> match #[trigger] requests[i] {
            Request::Start(Some(d)) => d.valid(),
            Request::Change(_, _, Some(f)) => f.valid(),
            _ => true,
        }
}

/// Whatever is asked of a controller and in whatever order, its invariant holds, and its
/// generation has advanced by exactly the number of starts that succeeded, reloads that
/// the engine accepted and exits that halted a pipeline: it never goes back and never
/// skips, and at the largest generation it stays.
pub proof fn generation_counts_exactly(c: ControllerView, requests: Seq<Request>)
    requires
        c.valid(),
        valid_requests(requests),
    ensures
        c.run(requests).valid(),
        c.run(requests).generation == if c.generation + c.counted(requests) <= u32::MAX {
            c.generation + c.counted(requests)
        } else {
            u32::MAX as int
        },
        c.run(requests).generation >= c.generation,
    decreases requests.len(),
{
    if requests.len() > 0 {
        let before = requests.drop_last();
        assert(valid_requests(before)) by {
            assert forall|i: int| 0 <= i < before.len() implies match #[trigger] before[i] {
                Request::Start(Some(d)) => d.valid(),
                Request::Change(_, _, Some(f)) => f.valid(),
                _ => true,
            } by {
                assert(before[i] == requests[i]);
            }
        }
        generation_counts_exactly(c, before);
        let at = c.run(before);
        let last = requests[requests.len() - 1];
        match last {
            Request::Start(description) => {
                transitions_keep_the_invariant(
                    at,
                    description,
                    ConfigAction::INIT,
                    Seq::empty(),
                    None,
                    ReloadOutcome::Failed,
                );
            },
            Request::Change(action, ids, parsed) => {
                transitions_keep_the_invariant(
                    at,
                    None,
                    action,
                    ids,
                    parsed,
                    ReloadOutcome::Failed,
                );
            },
            Request::Reloaded(outcome) => {
                transitions_keep_the_invariant(
                    at,
                    None,
                    ConfigAction::INIT,
                    Seq::empty(),
                    None,
                    outcome,
                );
            },
            _ => {
                transitions_keep_the_invariant(
                    at,
                    None,
                    ConfigAction::INIT,
                    Seq::empty(),
                    None,
                    ReloadOutcome::Failed,
                );
            },
        }
    }
}

/// The description that runs changes only in a step that counts a generation, and no step
/// lets the generation fall back.
pub proof fn description_changes_only_with_the_generation(c: ControllerView, request: Request)
    requires
        c.valid(),
    ensures
        c.after(request).next.snapshot != c.snapshot ==> c.counts(request),
        !c.counts(request) ==> c.after(request).next.generation == c.generation,
        c.counts(request) ==> c.after(request).next.generation == next_generation(c.generation),
        c.after(request).next.generation >= c.generation,
{
}

/// Merging a fragment that defines an identifier again replaces that definition in place:
/// the component keeps its position, has the fragment's definition, and no identifier
/// occurs twice in the result.
pub proof fn merge_replaces_in_place(list: Seq<ComponentView>, fragment: Seq<ComponentView>, i: int)
    requires
        unique_ids(list),
        unique_ids(fragment),
        0 <= i < list.len(),
    ensures
        unique_ids(merge(list, fragment)),
        i < merge(list, fragment).len(),
        merge(list, fragment)[i].id == list[i].id,
        merge(list, fragment)[i].definition == if has_id(fragment, list[i].id) {
            fragment[position(fragment, list[i].id)].definition
        } else {
            list[i].definition
        },
{
    let merged = merge(list, fragment);
    let id = list[i].id;
    lemma_merge(list, fragment);
    lemma_position(merged, id);
    lemma_position(list, id);
    lemma_position(fragment, id);
    assert(merged[i].id == id);
    assert(has_id(merged, id));
    let p = position(merged, id);
    if p < i {
        assert(merged[p].id != merged[i].id);
    } else if i < p {
        assert(merged[i].id != merged[p].id);
    }
    let q = position(list, id);
    assert(has_id(list, id));
    if q < i {
        assert(list[q].id != list[i].id);
    } else if i < q {
        assert(list[i].id != list[q].id);
    }
    assert(definitions(merged)[id] == merged[i].definition);
    assert(definitions(list)[id] == list[i].definition);
}

} // verus!
