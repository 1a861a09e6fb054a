//! The display-mode state machine.
//!
//! A closed set of modes selects which precomputed shape a frame draws.
//! Each frame first drains all pending input events: a trigger key moves
//! the mode unconditionally to its shape, any other event leaves it alone,
//! and a quit event asks the surrounding loop to stop after the drain.

use vstd::prelude::*;

verus! {

/// A key the demo reacts to; anything else is `Other`.
#[derive(Clone, Copy, PartialEq, Eq, Structural, Debug)]
pub enum Key {
    Escape,
    F1,
    F2,
    F3,
    Other,
}

/// One input event drained from the platform's event queue.
#[derive(Clone, Copy, PartialEq, Eq, Structural, Debug)]
pub enum InputEvent {
    Quit,
    KeyDown(Key),
    Resized(i32, i32),
    Other,
}

/// The display mode: which shape the frame draws.
#[derive(Clone, Copy, PartialEq, Eq, Structural, Debug)]
pub enum Mode {
    Triangle,
    Sierpinski,
    SierpinskiRec,
}

impl Mode {
    /// The mode the demo starts in.
    pub fn initial() -> (m: Mode)
        ensures
            m == Mode::Triangle,
    {
        Mode::Triangle
    }
}

/// The mode an event switches to, if it is a mode-switch trigger.
pub open spec fn switch_target(e: InputEvent) -> Option<Mode> {
    match e {
        InputEvent::KeyDown(Key::F1) => Some(Mode::Triangle),
        InputEvent::KeyDown(Key::F2) => Some(Mode::Sierpinski),
        InputEvent::KeyDown(Key::F3) => Some(Mode::SierpinskiRec),
        _ => None,
    }
}

/// Whether an event asks the demo to stop.
pub open spec fn is_quit(e: InputEvent) -> bool {
    e == InputEvent::Quit || e == InputEvent::KeyDown(Key::Escape)
}

/// The mode after applying one event.
pub open spec fn spec_apply(m: Mode, e: InputEvent) -> Mode {
    match switch_target(e) {
        Some(t) => t,
        None => m,
    }
}

/// The mode after applying a whole event sequence, oldest first.
pub open spec fn mode_after(m: Mode, es: Seq<InputEvent>) -> Mode
    decreases es.len(),
{
    if es.len() == 0 {
        m
    } else {
        spec_apply(mode_after(m, es.drop_last()), es.last())
    }
}

/// The target of the last mode-switch trigger in the sequence, if any.
pub open spec fn last_switch(es: Seq<InputEvent>) -> Option<Mode>
    decreases es.len(),
{
    if es.len() == 0 {
        None
    } else if switch_target(es.last()) is Some {
        switch_target(es.last())
    } else {
        last_switch(es.drop_last())
    }
}

/// After processing any event sequence the active mode is the one named by
/// the last mode-switch trigger in it, or the starting mode if the
/// sequence holds no trigger.
pub proof fn lemma_mode_after_last_switch(m: Mode, es: Seq<InputEvent>)
    ensures
        mode_after(m, es) == match last_switch(es) {
            Some(t) => t,
            None => m,
        },
    decreases es.len(),
{
    if es.len() > 0 {
        lemma_mode_after_last_switch(m, es.drop_last());
    }
}

/// Apply one input event to the current mode.
pub fn apply_event(m: Mode, e: &InputEvent) -> (r: Mode)
    ensures
        r == spec_apply(m, *e),
{
    match e {
        InputEvent::KeyDown(Key::F1) => Mode::Triangle,
        InputEvent::KeyDown(Key::F2) => Mode::Sierpinski,
        InputEvent::KeyDown(Key::F3) => Mode::SierpinskiRec,
        _ => m,
    }
}

/// Drain a frame's pending events: apply every mode switch in order and
/// report whether a quit was requested.
pub fn process_events(m: Mode, events: &Vec<InputEvent>) -> (r: (Mode, bool))
    ensures
        r.0 == mode_after(m, events@),
        r.1 == exists|k: int| 0 <= k < events@.len() && is_quit(#[trigger] events@[k]),
{
    let mut mode = m;
    let mut quit = false;
    let mut i: usize = 0;
    while i < events.len()
        invariant
            0 <= i <= events@.len(),
            mode == mode_after(m, events@.take(i as int)),
            quit == exists|k: int| 0 <= k < i && is_quit(#[trigger] events@[k]),
        decreases events@.len() - i,
    {
        let e = &events[i];
        if matches!(e, InputEvent::Quit | InputEvent::KeyDown(Key::Escape)) {
            quit = true;
        }
        mode = apply_event(mode, e);
        proof {
            assert(events@.take(i + 1).drop_last() =~= events@.take(i as int));
            assert(events@.take(i + 1).last() == events@[i as int]);
        }
        i = i + 1;
    }
    proof {
        assert(events@.take(events@.len() as int) =~= events@);
    }
    (mode, quit)
}

} // verus!
