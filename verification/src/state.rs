//! High-level application states and the frame-flow system sets.

use vstd::prelude::*;

verus! {

/// High-level states of the application (main menu, in-game, etc.).
#[derive(Clone, Copy, Debug, PartialEq, Eq, Structural, Hash)]
pub enum AppState {
    /// Main menu state (initial state).
    MainMenu,
    /// Configuring a new scenario.
    NewScenario,
    /// Loading a saved scenario.
    LoadScenario,
    /// The options/settings screen.
    Options,
    /// A simulation is running (in-game).
    InGame,
    /// The simulation is paused.
    Paused,
}

impl Default for AppState {
    fn default() -> (r: Self)
        ensures
            r == AppState::MainMenu,
    {
        AppState::MainMenu
    }
}

/// Canonical frame flow: input, then logic / simulation, then render / UI.
#[derive(Clone, Copy, Debug, PartialEq, Eq, Structural, Hash)]
pub enum MainSet {
    Input,
    Logic,
    Render,
}

/// High-level commands sent to the automata layer.
#[derive(Debug, PartialEq, Eq)]
pub enum AutomataCommand {
    SeedPattern { id: String },
    Clear,
}

} // verus!
