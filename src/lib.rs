//! Two cellular automata: Conway's Game of Life on a clipped (non-toroidal)
//! grid, and Langton's Ant with a three-state cell colouring.
use vstd::prelude::*;

pub mod ant;
pub mod game_of_life;

verus! {

/// The cells of a nested vector, as a sequence of rows.
pub open spec fn rows_of<T>(v: Seq<Vec<T>>) -> Seq<Seq<T>> {
    Seq::new(v.len(), |y: int| v[y]@)
}

/// Whether cell `a` comes before cell `b` when `(x, y)` pairs are ordered by
/// `x` and then by `y`.
pub open spec fn before(a: (u32, u32), b: (u32, u32)) -> bool {
    a.0 < b.0 || (a.0 == b.0 && a.1 < b.1)
}

/// A request from whoever drives a simulation, already stripped of its source
/// (a window event, a key).
#[derive(Copy, Clone, Debug, PartialEq, Eq, Structural)]
pub enum Input {
    /// Stop the simulation.
    Quit,
    /// Pause a running simulation, or resume a paused one.
    TogglePause,
    /// Start over from a fresh board (where the simulation supports it).
    Reset,
    /// Anything else; it changes nothing.
    Other,
}

/// The `(running, updating)` flags after `input`.
pub open spec fn flags_on(flags: (bool, bool), input: Input) -> (bool, bool) {
    match input {
        Input::Quit => (false, flags.1),
        Input::TogglePause => (flags.0, !flags.1),
        _ => flags,
    }
}

/// The `(running, updating)` flags after the inputs `ev`, in order.
pub open spec fn flags_after(flags: (bool, bool), ev: Seq<Input>) -> (bool, bool)
    decreases ev.len(),
{
    if ev.len() == 0 {
        flags
    } else {
        flags_on(flags_after(flags, ev.drop_last()), ev.last())
    }
}

/// Applies one input to the `(running, updating)` flags.
pub fn apply_input(flags: (bool, bool), input: Input) -> (r: (bool, bool))
    ensures
        r == flags_on(flags, input),
{
    match input {
        Input::Quit => (false, flags.1),
        Input::TogglePause => (flags.0, !flags.1),
        _ => flags,
    }
}

/// Applies the inputs of `events`, in order, to the `(running, updating)` flags.
pub fn apply_inputs(flags: (bool, bool), events: &Vec<Input>) -> (r: (bool, bool))
    ensures
        r == flags_after(flags, events@),
{
    let mut cur = flags;
    let mut i: usize = 0;
    while i < events.len()
        invariant
            i <= events@.len(),
            cur == flags_after(flags, events@.subrange(0, i as int)),
        decreases events@.len() - i,
    {
        assert(events@.subrange(0, i + 1).drop_last() =~= events@.subrange(0, i as int));
        cur = apply_input(cur, events[i]);
        i = i + 1;
    }
    assert(events@.subrange(0, events@.len() as int) =~= events@);
    cur
}

} // verus!
