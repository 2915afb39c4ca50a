//! A cellular-automaton engine: a chunked toroidal grid of cells, neighborhood
//! indexing, and the synchronous update of every cell by a rule.
//!
//! - `rule`: cell states, the `Rule` trait and the three neighborhoods.
//! - `board`: chunks, the grid with its double-buffered update, clipboards.
//! - `world`: a rule paired with its grid, stepping and editing it.
//! - `lifegame`, `wireworld`, `rock_paper_scissors`: rules.
mod board;
mod clicked;
mod dynamic_rule;
mod lifegame;
mod random;
mod rock_paper_scissors;
mod rule;
mod wireworld;
mod world;

pub use board::{
    abs, cell_update, lemma_update_deterministic, run, shift, states_at, step_fails, stepped,
    stepped_to, Chunk, ClipBoard, ClipBoardError, Grid, CHUNK_LEN, CHUNK_SIZE,
};
pub use clicked::Clicked;
pub use dynamic_rule::{cast_error, eval_error, DynamicRuleError};
pub use lifegame::{
    alive_count, counts_of, digit_values, life_state_of, listed, valid_rule_text, GeneralizedLifeGameRule,
    HighLifeRule, LifeGameRule, LifeGameState,
};
pub use rock_paper_scissors::{
    beaten_by, beater, rps_state_of, state_count, RockPaperScissorsRule, RockPaperScissorsState,
};
pub use rule::{
    lemma_hex_wraps, lemma_moore_wraps, lemma_von_neumann_wraps, on_torus, rgb, Color,
    HexGridNeighborhood, MooreNeighborhood, Neighbors, Rule, RuleError, State,
    VonNeumannNeighborhood,
};
pub use wireworld::{head_count, wire_state_of, WireWorldRule, WireWorldState};
pub use world::{chunks_for, corner, pad_after, pad_before, World2D};
