//! Configuration events: what a caller asks the controller to change.

use crate::text::str_eq;
use vstd::prelude::*;

verus! {

/// What a configuration event asks the controller to do.
#[derive(Debug, Clone, Copy, PartialEq, Eq, Structural)]
pub enum ConfigAction {
    INIT,
    ADD,
    UPDATE,
    DELETE,
    EXIT,
}

impl ConfigAction {
    /// The action that `word` names, if it names one.
    pub open spec fn named(word: Seq<char>) -> Option<ConfigAction> {
        if word == "init"@ {
            Some(ConfigAction::INIT)
        } else if word == "add"@ {
            Some(ConfigAction::ADD)
        } else if word == "update"@ {
            Some(ConfigAction::UPDATE)
        } else if word == "delete"@ {
            Some(ConfigAction::DELETE)
        } else if word == "exit"@ {
            Some(ConfigAction::EXIT)
        } else {
            None
        }
    }

    /// The action that `word` names; `None` for a word that names none.
    pub fn parse(word: &str) -> (action: Option<ConfigAction>)
        ensures
            action == Self::named(word@),
    {
        if str_eq(word, "init") {
            Some(ConfigAction::INIT)
        } else if str_eq(word, "add") {
            Some(ConfigAction::ADD)
        } else if str_eq(word, "update") {
            Some(ConfigAction::UPDATE)
        } else if str_eq(word, "delete") {
            Some(ConfigAction::DELETE)
        } else if str_eq(word, "exit") {
            Some(ConfigAction::EXIT)
        } else {
            None
        }
    }

    /// The action's name as it is printed: the variant's name.
    pub fn name(&self) -> (name: &'static str)
        ensures
            name@ == match *self {
                ConfigAction::INIT => "INIT"@,
                ConfigAction::ADD => "ADD"@,
                ConfigAction::UPDATE => "UPDATE"@,
                ConfigAction::DELETE => "DELETE"@,
                ConfigAction::EXIT => "EXIT"@,
            },
    {
        match self {
            ConfigAction::INIT => "INIT",
            ConfigAction::ADD => "ADD",
            ConfigAction::UPDATE => "UPDATE",
            ConfigAction::DELETE => "DELETE",
            ConfigAction::EXIT => "EXIT",
        }
    }
}

/// One requested mutation: the action, the identifiers it names (for a delete) and the text
/// of the configuration fragment it carries (for an add or an update).
#[derive(Debug)]
pub struct ConfigEvent {
    pub action: ConfigAction,
    pub config_ids: Vec<String>,
    pub config_str: String,
}

} // verus!
