//! Rock-paper-scissors: a cell is taken over by the state that beats it when
//! enough of its neighbors hold that state.
use vstd::prelude::*;

use core::marker::PhantomData;

use crate::random::draw_below;
use crate::rule::{rgb, Color, Neighbors, Rule, RuleError, State};

verus! {

#[derive(Clone, Copy, Debug, PartialEq, Eq, Structural)]
pub enum RockPaperScissorsState {
    Rock,
    Paper,
    Scissors,
}

impl State for RockPaperScissorsState {
    fn duplicate(&self) -> (r: Self) {
        *self
    }
}

/// The state that beats `st`.
pub open spec fn beaten_by(st: RockPaperScissorsState) -> RockPaperScissorsState {
    match st {
        RockPaperScissorsState::Rock => RockPaperScissorsState::Paper,
        RockPaperScissorsState::Paper => RockPaperScissorsState::Scissors,
        RockPaperScissorsState::Scissors => RockPaperScissorsState::Rock,
    }
}

/// How many of `s` are `v`.
pub open spec fn state_count(s: Seq<RockPaperScissorsState>, v: RockPaperScissorsState) -> nat
    decreases s.len(),
{
    if s.len() == 0 {
        0
    } else {
        state_count(s.drop_last(), v) + if s.last() == v {
            1nat
        } else {
            0nat
        }
    }
}

fn count_state(s: &Vec<RockPaperScissorsState>, v: RockPaperScissorsState) -> (r: usize)
    ensures
        r == state_count(s@, v),
{
    let mut n: usize = 0;
    let mut k: usize = 0;
    while k < s.len()
        invariant
            k <= s@.len(),
            n == state_count(s@.take(k as int), v),
            n <= k,
        decreases s@.len() - k,
    {
        assert(s@.take(k + 1).drop_last() =~= s@.take(k as int));
        if s[k] == v {
            n = n + 1;
        }
        k = k + 1;
    }
    assert(s@.take(k as int) =~= s@);
    n
}

/// The state that beats `st`, computed.
pub fn beater(st: RockPaperScissorsState) -> (r: RockPaperScissorsState)
    ensures
        r == beaten_by(st),
{
    match st {
        RockPaperScissorsState::Rock => RockPaperScissorsState::Paper,
        RockPaperScissorsState::Paper => RockPaperScissorsState::Scissors,
        RockPaperScissorsState::Scissors => RockPaperScissorsState::Rock,
    }
}

/// The state numbered `i`: Rock, Paper, then Scissors.
pub fn rps_state_of(i: u32) -> (r: RockPaperScissorsState)
    requires
        i < 3,
    ensures
        i == 0 ==> r == RockPaperScissorsState::Rock,
        i == 1 ==> r == RockPaperScissorsState::Paper,
        i == 2 ==> r == RockPaperScissorsState::Scissors,
{
    if i == 0 {
        RockPaperScissorsState::Rock
    } else if i == 1 {
        RockPaperScissorsState::Paper
    } else {
        RockPaperScissorsState::Scissors
    }
}

pub struct RockPaperScissorsRule<N> {
    pub background: Color,
    pub rock_color: Color,
    pub paper_color: Color,
    pub scissors_color: Color,
    /// How many neighbors of the winning state take a cell over.
    pub threshold: u32,
    pub neighborhood: PhantomData<N>,
}

impl<N> RockPaperScissorsRule<N> {
    pub fn new() -> (r: Self)
        ensures
            r.background == rgb(0, 0, 0),
            r.rock_color == rgb(0, 0, 255),
            r.paper_color == rgb(0, 255, 0),
            r.scissors_color == rgb(255, 0, 0),
            r.threshold == 3,
    {
        RockPaperScissorsRule {
            background: Color::from_rgb(0, 0, 0),
            rock_color: Color::from_rgb(0, 0, 255),
            paper_color: Color::from_rgb(0, 255, 0),
            scissors_color: Color::from_rgb(255, 0, 0),
            threshold: 3,
            neighborhood: PhantomData,
        }
    }
}

impl<N> Default for RockPaperScissorsRule<N> {
    fn default() -> (r: Self)
        ensures
            r.threshold == 3,
    {
        Self::new()
    }
}

impl<N: Neighbors> Rule for RockPaperScissorsRule<N> {
    type CellState = RockPaperScissorsState;

    type Neighborhood = N;

    open spec fn spec_color(&self, st: RockPaperScissorsState) -> Result<Color, RuleError> {
        Ok(
            match st {
                RockPaperScissorsState::Rock => self.rock_color,
                RockPaperScissorsState::Paper => self.paper_color,
                RockPaperScissorsState::Scissors => self.scissors_color,
            },
        )
    }

    open spec fn spec_default_state(&self) -> Result<RockPaperScissorsState, RuleError> {
        Ok(RockPaperScissorsState::Rock)
    }

    open spec fn spec_next(&self, st: RockPaperScissorsState) -> Result<
        RockPaperScissorsState,
        RuleError,
    > {
        Ok(beaten_by(st))
    }

    open spec fn spec_update(
        &self,
        center: RockPaperScissorsState,
        neighbors: Seq<RockPaperScissorsState>,
    ) -> Result<RockPaperScissorsState, RuleError> {
        Ok(
            if state_count(neighbors, beaten_by(center)) >= self.threshold {
                beaten_by(center)
            } else {
                center
            },
        )
    }

    open spec fn spec_iteration_per_step(&self) -> nat {
        1
    }

    open spec fn spec_randomize_ok(&self) -> bool {
        true
    }

    fn background(&self) -> Color {
        self.background
    }

    fn color(&self, st: &RockPaperScissorsState) -> (r: Result<Color, RuleError>) {
        match *st {
            RockPaperScissorsState::Rock => Ok(self.rock_color),
            RockPaperScissorsState::Paper => Ok(self.paper_color),
            RockPaperScissorsState::Scissors => Ok(self.scissors_color),
        }
    }

    fn default_state(&self) -> (r: Result<RockPaperScissorsState, RuleError>) {
        Ok(RockPaperScissorsState::Rock)
    }

    fn randomize(&self, rng: &mut rand::rngs::StdRng) -> (r: Result<RockPaperScissorsState, RuleError>) {
        Ok(rps_state_of(draw_below(rng, 3)))
    }

    fn next(&self, st: RockPaperScissorsState) -> (r: Result<RockPaperScissorsState, RuleError>) {
        Ok(beater(st))
    }

    fn update(&self, center: RockPaperScissorsState, neighbors: Vec<RockPaperScissorsState>) -> (r:
        Result<RockPaperScissorsState, RuleError>) {
        let wins = beater(center);
        let n_wins = count_state(&neighbors, wins);
        if n_wins >= self.threshold as usize {
            Ok(wins)
        } else {
            Ok(center)
        }
    }

    fn iteration_per_step(&self) -> (r: u32) {
        1
    }
}

} // verus!
