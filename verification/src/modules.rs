//! The module registry's data: identifiers, descriptive metadata, and
//! the actions a module hands back to its caller.

use vstd::prelude::*;

use crate::strutil::{lower_of, lowercase, str_eq};

verus! {

/// Identifies one module.
#[derive(Debug, Clone, Copy, PartialEq, Eq, Structural, Hash)]
pub enum ModuleId {
    History,
}

impl ModuleId {
    /// Resolves a command name or its shortcut, case-insensitively.
    pub fn from_command_name(name: &str) -> (r: Option<ModuleId>)
        ensures
            r == if lower_of(name@) == "history"@ || lower_of(name@) == "h"@ {
                Some(ModuleId::History)
            } else {
                None::<ModuleId>
            },
    {
        let folded = lowercase(name);
        if str_eq(folded.as_str(), "history") || str_eq(folded.as_str(), "h") {
            Some(ModuleId::History)
        } else {
            None
        }
    }
}

/// What a module says about itself.
#[derive(Debug, Clone)]
pub struct ModuleMetadata {
    pub id: ModuleId,
    pub name: String,
    pub description: String,
    pub shortcut: Option<char>,
}

/// What a module asks its caller to do after handling an event.
#[derive(Debug, Clone, PartialEq)]
pub enum ModuleAction {
    /// Nothing.
    Idle,
    /// Leave the module and return to the menu.
    Exit,
    /// Quit the whole application.
    Quit,
    /// Show a notification message.
    Notification(String),
    /// Print a command and exit.
    Output(String),
    /// Print a command and execute it immediately.
    OutputAndExecute(String),
}

} // verus!
