//! The reconciler: from a description and an event to the description that the event asks
//! for.

use crate::config_event::{ConfigAction, ConfigEvent};
use crate::description::{names_any, texts, DescriptionView, PipelineDescription};
use vstd::prelude::*;

verus! {

/// Why a request was not carried out.
#[derive(Debug, Clone, Copy, PartialEq, Eq, Structural)]
pub enum ControllerError {
    /// The text of a description or a fragment could not be read as one.
    ConfigParseError,
    /// The new description was declined: by the engine, or before it was handed over
    /// because a source and a transform would share a name.
    ReloadRejected,
    /// The controller is not in a state in which the request is valid.
    InvalidStateTransition,
}

impl ControllerError {
    /// A sentence for the caller.
    pub fn message(&self) -> (text: &'static str)
        ensures
            text@ == match *self {
                ControllerError::ConfigParseError => "failed to init topology config"@,
                ControllerError::ReloadRejected => "config reload was rejected"@,
                ControllerError::InvalidStateTransition => "invalid state for this request"@,
            },
    {
        match self {
            ControllerError::ConfigParseError => "failed to init topology config",
            ControllerError::ReloadRejected => "config reload was rejected",
            ControllerError::InvalidStateTransition => "invalid state for this request",
        }
    }
}

/// What the reconciler makes of an event.
#[derive(Debug)]
pub enum Plan {
    /// The event changes nothing: the running pipeline stays as it is.
    Keep,
    /// The running pipeline is to be swapped over to this description.
    Swap(PipelineDescription),
    /// The event cannot be carried out.
    Refuse(ControllerError),
}

/// The mathematical value of a [`Plan`].
pub enum PlanView {
    Keep,
    Swap(DescriptionView),
    Refuse(ControllerError),
}

impl View for Plan {
    type V = PlanView;

    open spec fn view(&self) -> PlanView {
        match self {
            Plan::Keep => PlanView::Keep,
            Plan::Swap(d) => PlanView::Swap(d@),
            Plan::Refuse(e) => PlanView::Refuse(*e),
        }
    }
}

/// The plan for an event on the description `current`, where `parsed` is what the
/// description reader made of the event's fragment (`None`: it could not read it).
///
/// An add or an update merges the fragment into the description, last write wins. It is
/// refused as a parse error if the fragment was unreadable, and as rejected if the union is
/// no valid description, which is so exactly if a source of the one would share its name
/// with a transform of the other. A delete takes the named sources and transforms out, and
/// changes nothing if it names none. The other actions are not the reconciler's and change
/// nothing.
pub open spec fn planned(
    action: ConfigAction,
    ids: Seq<Seq<char>>,
    parsed: Option<DescriptionView>,
    current: DescriptionView,
) -> PlanView {
    match action {
        ConfigAction::ADD | ConfigAction::UPDATE => match parsed {
            None => PlanView::Refuse(ControllerError::ConfigParseError),
            Some(fragment) => if current.merged(fragment).valid() {
                PlanView::Swap(current.merged(fragment))
            } else {
                PlanView::Refuse(ControllerError::ReloadRejected)
            },
        },
        ConfigAction::DELETE => if names_any(current, ids) {
            PlanView::Swap(current.reduced(ids))
        } else {
            PlanView::Keep
        },
        ConfigAction::INIT | ConfigAction::EXIT => PlanView::Keep,
    }
}

/// The view of a fragment that may be missing.
pub open spec fn view_of(parsed: Option<&PipelineDescription>) -> Option<DescriptionView> {
    match parsed {
        Some(d) => Some(d@),
        None => None,
    }
}

/// Computes the description that `config_event` asks for, from the current description
/// `config_builder` and from `parsed`, the fragment that the event's text was read as.
/// Nothing is changed here: the plan says what to hand to the engine.
pub fn reload_vector(
    config_event: &ConfigEvent,
    parsed: Option<&PipelineDescription>,
    config_builder: &PipelineDescription,
) -> (plan: Plan)
    requires
        config_builder.wf(),
        parsed is Some ==> parsed.unwrap().wf(),
    ensures
        plan@ == planned(
            config_event.action,
            texts(config_event.config_ids@),
            view_of(parsed),
            config_builder@,
        ),
        plan matches Plan::Swap(d) ==> d.wf(),
{
    match config_event.action {
        ConfigAction::INIT => Plan::Keep,
        ConfigAction::ADD | ConfigAction::UPDATE => {
            match parsed {
                None => Plan::Refuse(ControllerError::ConfigParseError),
                Some(fragment) => {
                    match config_builder.merge(fragment) {
                        Some(merged) => Plan::Swap(merged),
                        None => Plan::Refuse(ControllerError::ReloadRejected),
                    }
                },
            }
        },
        ConfigAction::DELETE => {
            let (reduced, changed) = config_builder.remove_all(&config_event.config_ids);
            if changed {
                Plan::Swap(reduced)
            } else {
                Plan::Keep
            }
        },
        ConfigAction::EXIT => Plan::Keep,
    }
}

} // verus!
