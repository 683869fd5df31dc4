use vstd::prelude::*;

verus! {

/// How often an animation plays.
#[derive(Debug, Clone, Copy, PartialEq, Eq, Structural)]
pub enum RepeatMode {
    Once,
    Times(u16),
    Infinite,
}

impl RepeatMode {
    /// Whether the animation repeats forever.
    pub fn is_infinite(&self) -> (r: bool)
        ensures
            r == (*self == RepeatMode::Infinite),
    {
        match self {
            RepeatMode::Infinite => true,
            _ => false,
        }
    }
}

/// Where a restarted animation begins.
#[derive(Debug, Clone, Copy, PartialEq, Eq, Structural)]
pub enum RestartBehaviour {
    StartValue,
    EndValue,
}

impl RestartBehaviour {
    /// Whether a restart begins from the end value.
    pub fn is_end_value(self) -> (r: bool)
        ensures
            r == (self == RestartBehaviour::EndValue),
    {
        match self {
            RestartBehaviour::EndValue => true,
            RestartBehaviour::StartValue => false,
        }
    }
}

/// A stepped easing curve: progress jumps through `step_count` equal steps.
#[derive(Debug, Clone, Copy, PartialEq, Eq, Structural)]
pub struct Stepped {
    pub is_initial_step_single_frame: bool,
    pub is_final_step_single_frame: bool,
    pub step_count: u16,
}

impl Stepped {
    /// A curve of `step_count` steps, with neither end held for a single frame.
    pub fn new(step_count: u16) -> (r: Stepped)
        ensures
            r.step_count == step_count,
            !r.is_initial_step_single_frame,
            !r.is_final_step_single_frame,
    {
        Stepped { is_initial_step_single_frame: false, is_final_step_single_frame: false, step_count }
    }

    /// Makes the first step last a single frame.
    pub fn initial_step_single_frame(&mut self)
        ensures
            *final(self) == (Stepped { is_initial_step_single_frame: true, ..*old(self) }),
    {
        self.is_initial_step_single_frame = true;
    }

    /// Makes the last step last a single frame.
    pub fn final_step_single_frame(&mut self)
        ensures
            *final(self) == (Stepped { is_final_step_single_frame: true, ..*old(self) }),
    {
        self.is_final_step_single_frame = true;
    }
}

} // verus!
