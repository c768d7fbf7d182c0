//! The session's mode (playing, game over, stage transition), which requests
//! each mode honours, and how a transition ends.
use vstd::prelude::*;

verus! {

/// What the session is doing.
#[derive(Debug, Clone, Copy, PartialEq, Eq, Structural)]
pub enum GameMode {
    Playing,
    Over,
    Transition,
}

impl GameMode {
    /// A restart is requested by the restart button in any mode, and by the
    /// jump button once the game is over.
    pub fn restart_requested(&self, restart_pressed: bool, jump_pressed: bool) -> (requested: bool)
        ensures
            requested == (restart_pressed || (*self == GameMode::Over && jump_pressed)),
    {
        restart_pressed || (*self == GameMode::Over && jump_pressed)
    }

    /// Undo is honoured only while playing.
    pub fn undo_requested(&self, undo_pressed: bool) -> (requested: bool)
        ensures
            requested == (undo_pressed && *self == GameMode::Playing),
    {
        undo_pressed && *self == GameMode::Playing
    }

    /// The mode after one frame of the stage transition countdown, and
    /// whether the next stage is to be loaded: outside a transition nothing
    /// happens; once the countdown is over the next stage loads and play
    /// resumes.
    pub fn after_transition_tick(&self, countdown_over: bool) -> (next: (GameMode, bool))
        ensures
            next == if *self != GameMode::Transition {
                (*self, false)
            } else if countdown_over {
                (GameMode::Playing, true)
            } else {
                (GameMode::Transition, false)
            },
    {
        match self {
            GameMode::Transition => {
                if countdown_over {
                    (GameMode::Playing, true)
                } else {
                    (GameMode::Transition, false)
                }
            },
            _ => (*self, false),
        }
    }
}

} // verus!
