//! WireWorld: electrons running along wires.
use vstd::prelude::*;

use crate::random::draw_below;
use crate::rule::{rgb, Color, MooreNeighborhood, Rule, RuleError, State};

verus! {

#[derive(Clone, Copy, Debug, PartialEq, Eq, Structural)]
pub enum WireWorldState {
    Void,
    Head,
    Tail,
    Wire,
}

impl State for WireWorldState {
    fn duplicate(&self) -> (r: Self) {
        *self
    }
}

/// How many of `s` are electron heads.
pub open spec fn head_count(s: Seq<WireWorldState>) -> nat
    decreases s.len(),
{
    if s.len() == 0 {
        0
    } else {
        head_count(s.drop_last()) + if s.last() == WireWorldState::Head {
            1nat
        } else {
            0nat
        }
    }
}

fn count_heads(s: &Vec<WireWorldState>) -> (r: usize)
    ensures
        r == head_count(s@),
{
    let mut n: usize = 0;
    let mut k: usize = 0;
    while k < s.len()
        invariant
            k <= s@.len(),
            n == head_count(s@.take(k as int)),
            n <= k,
        decreases s@.len() - k,
    {
        assert(s@.take(k + 1).drop_last() =~= s@.take(k as int));
        if s[k] == WireWorldState::Head {
            n = n + 1;
        }
        k = k + 1;
    }
    assert(s@.take(k as int) =~= s@);
    n
}

/// The next state of a cell with `heads` electron heads around it.
pub open spec fn wire_next(center: WireWorldState, heads: nat) -> WireWorldState {
    match center {
        WireWorldState::Void => WireWorldState::Void,
        WireWorldState::Head => WireWorldState::Tail,
        WireWorldState::Tail => WireWorldState::Wire,
        WireWorldState::Wire => if heads == 1 || heads == 2 {
            WireWorldState::Head
        } else {
            WireWorldState::Wire
        },
    }
}

/// The state a click turns `st` into.
pub open spec fn wire_cycle(st: WireWorldState) -> WireWorldState {
    match st {
        WireWorldState::Void => WireWorldState::Wire,
        WireWorldState::Wire => WireWorldState::Head,
        WireWorldState::Head => WireWorldState::Tail,
        WireWorldState::Tail => WireWorldState::Void,
    }
}

/// The state numbered `i`: Void, Head, Tail, then Wire.
pub fn wire_state_of(i: u32) -> (r: WireWorldState)
    requires
        i < 4,
    ensures
        i == 0 ==> r == WireWorldState::Void,
        i == 1 ==> r == WireWorldState::Head,
        i == 2 ==> r == WireWorldState::Tail,
        i == 3 ==> r == WireWorldState::Wire,
{
    if i == 0 {
        WireWorldState::Void
    } else if i == 1 {
        WireWorldState::Head
    } else if i == 2 {
        WireWorldState::Tail
    } else {
        WireWorldState::Wire
    }
}

pub struct WireWorldRule {
    pub grid_color: Color,
    pub void_color: Color,
    pub wire_color: Color,
    pub head_color: Color,
    pub tail_color: Color,
}

impl WireWorldRule {
    pub fn new() -> (r: Self)
        ensures
            r.grid_color == rgb(128, 128, 0),
            r.void_color == rgb(0, 0, 0),
            r.wire_color == rgb(255, 255, 0),
            r.head_color == rgb(0, 0, 255),
            r.tail_color == rgb(255, 0, 0),
    {
        WireWorldRule {
            grid_color: Color::from_rgb(128, 128, 0),
            void_color: Color::from_rgb(0, 0, 0),
            wire_color: Color::from_rgb(255, 255, 0),
            head_color: Color::from_rgb(0, 0, 255),
            tail_color: Color::from_rgb(255, 0, 0),
        }
    }
}

impl Default for WireWorldRule {
    fn default() -> (r: Self)
        ensures
            r.grid_color == rgb(128, 128, 0),
            r.head_color == rgb(0, 0, 255),
    {
        Self::new()
    }
}

impl Rule for WireWorldRule {
    type CellState = WireWorldState;

    type Neighborhood = MooreNeighborhood;

    open spec fn spec_color(&self, st: WireWorldState) -> Result<Color, RuleError> {
        Ok(
            match st {
                WireWorldState::Void => self.void_color,
                WireWorldState::Head => self.head_color,
                WireWorldState::Tail => self.tail_color,
                WireWorldState::Wire => self.wire_color,
            },
        )
    }

    open spec fn spec_default_state(&self) -> Result<WireWorldState, RuleError> {
        Ok(WireWorldState::Void)
    }

    open spec fn spec_next(&self, st: WireWorldState) -> Result<WireWorldState, RuleError> {
        Ok(wire_cycle(st))
    }

    open spec fn spec_update(&self, center: WireWorldState, neighbors: Seq<WireWorldState>) -> Result<
        WireWorldState,
        RuleError,
    > {
        Ok(wire_next(center, head_count(neighbors)))
    }

    open spec fn spec_iteration_per_step(&self) -> nat {
        1
    }

    open spec fn spec_randomize_ok(&self) -> bool {
        true
    }

    fn background(&self) -> Color {
        self.grid_color
    }

    fn color(&self, st: &WireWorldState) -> (r: Result<Color, RuleError>) {
        match *st {
            WireWorldState::Void => Ok(self.void_color),
            WireWorldState::Head => Ok(self.head_color),
            WireWorldState::Tail => Ok(self.tail_color),
            WireWorldState::Wire => Ok(self.wire_color),
        }
    }

    fn default_state(&self) -> (r: Result<WireWorldState, RuleError>) {
        Ok(WireWorldState::Void)
    }

    fn randomize(&self, rng: &mut rand::rngs::StdRng) -> (r: Result<WireWorldState, RuleError>) {
        Ok(wire_state_of(draw_below(rng, 4)))
    }

    fn next(&self, st: WireWorldState) -> (r: Result<WireWorldState, RuleError>) {
        match st {
            WireWorldState::Void => Ok(WireWorldState::Wire),
            WireWorldState::Wire => Ok(WireWorldState::Head),
            WireWorldState::Head => Ok(WireWorldState::Tail),
            WireWorldState::Tail => Ok(WireWorldState::Void),
        }
    }

    fn update(&self, center: WireWorldState, neighbors: Vec<WireWorldState>) -> (r: Result<
        WireWorldState,
        RuleError,
    >) {
        match center {
            WireWorldState::Void => Ok(WireWorldState::Void),
            WireWorldState::Head => Ok(WireWorldState::Tail),
            WireWorldState::Tail => Ok(WireWorldState::Wire),
            WireWorldState::Wire => {
                let nheads = count_heads(&neighbors);
                if nheads == 1 || nheads == 2 {
                    Ok(WireWorldState::Head)
                } else {
                    Ok(WireWorldState::Wire)
                }
            },
        }
    }

    fn iteration_per_step(&self) -> (r: u32) {
        1
    }
}

} // verus!
