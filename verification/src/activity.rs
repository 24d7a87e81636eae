//! The activity dot in a pane's title bar: blue when output arrived while
//! the pane was not being looked at, red when a program rang the bell.
//! Output is cleared by focusing the pane; a bell survives focus and is
//! cleared only by typing into the pane.

use vstd::prelude::*;

verus! {

/// What a pane's title-bar dot shows.
#[derive(Debug, Clone, Copy, PartialEq, Eq, Structural)]
pub enum Activity {
    /// Nothing to report: no dot.
    Idle,
    /// Output arrived while the pane was not focused: the blue dot.
    Output,
    /// A program rang the bell: the red dot.
    Bell,
}

impl Default for Activity {
    /// A pane starts with no dot.
    fn default() -> (r: Self)
        ensures
            r == Activity::Idle,
    {
        Activity::Idle
    }
}

/// What one poll saw of a pane.
#[derive(Debug, Clone, Copy, PartialEq, Eq, Structural)]
pub struct Signals {
    /// The shell produced output.
    pub output: bool,
    /// A program rang the bell.
    pub bell: bool,
    /// The user typed into the pane.
    pub input: bool,
}

impl Default for Signals {
    /// A poll that saw nothing.
    fn default() -> (r: Self)
        ensures
            !r.output && !r.bell && !r.input,
    {
        Signals { output: false, bell: false, input: false }
    }
}

/// The dot after a poll. A bell always shows red, and red stays until the
/// user types into the pane, focused or not. Otherwise a focused pane
/// shows nothing, and an unfocused one turns blue on output and keeps a
/// blue dot it already has.
pub open spec fn next_activity_spec(current: Activity, focused: bool, s: Signals) -> Activity {
    if s.bell {
        Activity::Bell
    } else if current == Activity::Bell && !s.input {
        Activity::Bell
    } else if focused {
        Activity::Idle
    } else if s.output || current == Activity::Output {
        Activity::Output
    } else {
        Activity::Idle
    }
}

/// Advances a pane's dot by one poll: see [`next_activity_spec`].
pub fn next_activity(current: Activity, focused: bool, s: Signals) -> (r: Activity)
    ensures
        r == next_activity_spec(current, focused, s),
        s.bell ==> r == Activity::Bell,
        current == Activity::Bell && !s.input ==> r == Activity::Bell,
        !s.bell && !focused && s.output && current != Activity::Bell ==> r == Activity::Output,
        !s.bell && focused && current == Activity::Output ==> r == Activity::Idle,
        !s.bell && !s.output && current == Activity::Idle ==> r == Activity::Idle,
{
    if s.bell {
        Activity::Bell
    } else if current == Activity::Bell && !s.input {
        Activity::Bell
    } else if focused {
        Activity::Idle
    } else if s.output || current == Activity::Output {
        Activity::Output
    } else {
        Activity::Idle
    }
}

/// Looking at a pane clears a blue dot but never a red one.
pub proof fn lemma_focus_clears_output_but_not_a_bell(current: Activity)
    ensures
        next_activity_spec(current, true, Signals { output: false, bell: false, input: false })
            == (if current == Activity::Bell {
            Activity::Bell
        } else {
            Activity::Idle
        }),
{
}

/// Typing into a focused pane clears whatever dot it had, unless the same
/// poll rang the bell again.
pub proof fn lemma_typing_into_a_focused_pane_clears_its_dot(current: Activity, s: Signals)
    requires
        s.input,
        !s.bell,
    ensures
        next_activity_spec(current, true, s) == Activity::Idle,
{
}

/// A poll that saw nothing leaves an unfocused pane's dot as it was.
pub proof fn lemma_a_quiet_poll_keeps_an_unfocused_dot(current: Activity)
    ensures
        next_activity_spec(current, false, Signals { output: false, bell: false, input: false }) == current,
{
}

} // verus!
