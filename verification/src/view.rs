//! The application's top-level view.

use vstd::prelude::*;

use crate::modules::ModuleId;

verus! {

/// What the application currently shows.
#[derive(Debug, Clone, Copy, PartialEq, Eq, Structural)]
pub enum View {
    /// The menu of available modules.
    MainMenu,
    /// One active module.
    Module(ModuleId),
}

impl Default for View {
    /// The application opens on the main menu.
    fn default() -> (r: Self)
        ensures
            r == View::MainMenu,
    {
        View::MainMenu
    }
}

} // verus!
