//! Game-wide states, and the step of the loading state that follows the command
//! batches.

use vstd::prelude::*;

verus! {

/// Marker for the plugin that sets up [`AppState`] and [`LoadingState`].
pub struct StatesPlugin;

/// Top-level state of the game.
#[derive(Clone, Copy, Debug, PartialEq, Eq, Hash, Structural)]
pub enum AppState {
    Title,
    Game,
}

impl Default for AppState {
    fn default() -> (r: Self)
        ensures
            r == AppState::Title,
    {
        AppState::Title
    }
}

/// Progress of a map load, as the screen shows it.
#[derive(Clone, Copy, Debug, PartialEq, Eq, Hash, Structural)]
pub enum LoadingState {
    /// The game is playing.
    NotLoading,
    /// The transition into loading runs.
    StartLoading,
    /// Loading works; the screen is blanked out.
    Loading,
    /// The transition out of loading runs.
    EndLoading,
}

impl Default for LoadingState {
    fn default() -> (r: Self)
        ensures
            r == LoadingState::NotLoading,
    {
        LoadingState::NotLoading
    }
}

impl LoadingState {
    /// The state after a check of the batch queue: loading ends once no entity
    /// carries the loading marker; every other state stays as it is.
    pub fn after_loading_check(self, marker_present: bool) -> (r: Self)
        ensures
            r == (if self == LoadingState::Loading && !marker_present {
                LoadingState::EndLoading
            } else {
                self
            }),
    {
        match self {
            LoadingState::Loading => {
                if marker_present {
                    LoadingState::Loading
                } else {
                    LoadingState::EndLoading
                }
            },
            other => other,
        }
    }
}

} // verus!
