use vstd::prelude::*;

verus! {

/// Grow-and-break rounds between two cuts.
pub const GROW_BREAK_ROUNDS: u64 = 15;

/// The most a strand grows in one growth step.
pub const GROWTH_LIMIT: usize = 2;

/// The length every strand is cut to in a cut step.
pub const CUT_LENGTH: usize = 60;

/// The width, in bytes, of the divider printed before each step's drawing.
pub const DIVIDER_WIDTH: usize = 60;

/// The symbol that fills a divider.
pub const DIVIDER_SYMBOL: &'static str = "~";

/// One step of the simulation.
#[derive(PartialEq, Eq, Structural, Debug, Clone, Copy)]
pub enum Action {
    Grow,
    Break,
    Cut,
}

/// The step taken at position `step` of the run: rounds of a growth followed
/// by a break, then a cut, over and over.
pub open spec fn action_spec(step: nat) -> Action {
    let p = step % (2 * GROW_BREAK_ROUNDS + 1) as nat;
    if p == 2 * GROW_BREAK_ROUNDS {
        Action::Cut
    } else if p % 2 == 0 {
        Action::Grow
    } else {
        Action::Break
    }
}

/// The step taken at position `step` of the run.
pub fn action_at(step: u64) -> (r: Action)
    ensures
        r == action_spec(step as nat),
{
    let p = step % (2 * GROW_BREAK_ROUNDS + 1);
    if p == 2 * GROW_BREAK_ROUNDS {
        Action::Cut
    } else if p % 2 == 0 {
        Action::Grow
    } else {
        Action::Break
    }
}

/// The label printed in the divider before the drawing of a step.
pub fn action_label(action: Action) -> (r: &'static str)
    ensures
        action == Action::Grow ==> r@ == seq!['g', 'r', 'o', 'w'],
        action == Action::Break ==> r@ == seq!['b', 'r', 'e', 'a', 'k'],
        action == Action::Cut ==> r@ == seq!['c', 'u', 't'],
{
    proof {
        reveal_strlit("grow");
        reveal_strlit("break");
        reveal_strlit("cut");
    }
    match action {
        Action::Grow => "grow",
        Action::Break => "break",
        Action::Cut => "cut",
    }
}

} // verus!
