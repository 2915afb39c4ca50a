use miniascape::{
    beater, cast_error, life_state_of, eval_error, rgb, rps_state_of, wire_state_of, Clicked, Color,
    DynamicRuleError, GeneralizedLifeGameRule, Grid, HexGridNeighborhood, HighLifeRule,
    LifeGameRule, LifeGameState, MooreNeighborhood, RockPaperScissorsRule, RockPaperScissorsState,
    Rule, VonNeumannNeighborhood, WireWorldRule, WireWorldState,
};
use rand::SeedableRng;

use LifeGameState::{Alive, Dead};
use RockPaperScissorsState::{Paper, Rock, Scissors};
use WireWorldState::{Head, Tail, Void, Wire};

fn ring(alive: usize) -> Vec<LifeGameState> {
    (0..8).map(|i| if i < alive { Alive } else { Dead }).collect()
}

#[test]
fn life_survives_on_two_or_three_and_is_born_on_three() {
    let rule = LifeGameRule::<MooreNeighborhood>::new();
    for n in 0..=8 {
        let survives = rule.update(Alive, ring(n)).unwrap();
        let born = rule.update(Dead, ring(n)).unwrap();
        assert_eq!(survives == Alive, n == 2 || n == 3, "alive with {n}");
        assert_eq!(born == Alive, n == 3, "dead with {n}");
    }
}

#[test]
fn highlife_is_also_born_on_six() {
    let rule = HighLifeRule::<MooreNeighborhood>::new();
    assert_eq!(rule.update(Dead, ring(6)).unwrap(), Alive);
    assert_eq!(rule.update(Alive, ring(6)).unwrap(), Dead);
    assert_eq!(rule.update(Dead, ring(3)).unwrap(), Alive);
    assert_eq!(rule.update(Alive, ring(2)).unwrap(), Alive);
}

#[test]
fn life_colors_next_and_default() {
    let rule = LifeGameRule::<MooreNeighborhood>::new();
    assert_eq!(rule.background(), Color::from_rgb(0, 128, 0));
    assert_eq!(rule.color(&Alive).unwrap(), Color::from_rgb(0, 255, 0));
    assert_eq!(rule.color(&Dead).unwrap(), Color { r: 0, g: 0, b: 0, a: 255 });
    assert_eq!(rule.next(Dead).unwrap(), Alive);
    assert_eq!(rule.next(Alive).unwrap(), Dead);
    assert_eq!(rule.default_state().unwrap(), Dead);
    assert_eq!(rule.iteration_per_step(), 1);
}

#[test]
fn life_randomize_gives_both_states() {
    let rule = LifeGameRule::<MooreNeighborhood>::new();
    let mut rng = rand::rngs::StdRng::seed_from_u64(1);
    let draws: Vec<_> = (0..200).map(|_| rule.randomize(&mut rng).unwrap()).collect();
    let alive = draws.iter().filter(|s| **s == Alive).count();
    assert!(alive > 20 && alive < 120, "{alive} of 200 alive");
}

#[test]
fn parse_rule_splits_survive_and_birth() {
    type G = GeneralizedLifeGameRule<MooreNeighborhood>;
    assert_eq!(G::parse_rule("23/3"), Some((vec![2, 3], vec![3])));
    assert_eq!(G::parse_rule("/3"), Some((vec![], vec![3])));
    assert_eq!(G::parse_rule("1357/1357"), Some((vec![1, 3, 5, 7], vec![1, 3, 5, 7])));
    assert_eq!(G::parse_rule("23"), None);
    assert_eq!(G::parse_rule("2/3/4"), None);
    assert_eq!(G::parse_rule("2a/3"), None);
    assert!(G::is_valid_rule("23/36"));
    assert!(!G::is_valid_rule(""));
    assert!(!G::is_valid_rule("23-3"));
}

#[test]
fn generalized_rule_from_text_matches_highlife() {
    let general = GeneralizedLifeGameRule::<HexGridNeighborhood>::from_rule("23/36");
    let high = HighLifeRule::<HexGridNeighborhood>::new();
    for n in 0..=8 {
        for c in [Alive, Dead] {
            assert_eq!(general.update(c, ring(n)).unwrap(), high.update(c, ring(n)).unwrap());
        }
    }
}

#[test]
fn generalized_rule_new_uses_the_given_counts() {
    let rule = GeneralizedLifeGameRule::<MooreNeighborhood>::new(vec![], vec![1]);
    assert_eq!(rule.update(Dead, ring(1)).unwrap(), Alive);
    assert_eq!(rule.update(Alive, ring(1)).unwrap(), Dead);
    assert_eq!(rule.update(Dead, ring(2)).unwrap(), Dead);
}

#[test]
fn wireworld_transitions() {
    let rule = WireWorldRule::new();
    let heads = |n: usize| (0..8).map(|i| if i < n { Head } else { Wire }).collect::<Vec<_>>();
    assert_eq!(rule.update(Void, heads(2)).unwrap(), Void);
    assert_eq!(rule.update(Head, heads(0)).unwrap(), Tail);
    assert_eq!(rule.update(Tail, heads(1)).unwrap(), Wire);
    assert_eq!(rule.update(Wire, heads(0)).unwrap(), Wire);
    assert_eq!(rule.update(Wire, heads(1)).unwrap(), Head);
    assert_eq!(rule.update(Wire, heads(2)).unwrap(), Head);
    assert_eq!(rule.update(Wire, heads(3)).unwrap(), Wire);
    assert_eq!(rule.next(Void).unwrap(), Wire);
    assert_eq!(rule.next(Wire).unwrap(), Head);
    assert_eq!(rule.next(Head).unwrap(), Tail);
    assert_eq!(rule.next(Tail).unwrap(), Void);
    assert_eq!(rule.background(), rgb_of(128, 128, 0));
    assert_eq!(rule.color(&Head).unwrap(), rgb_of(0, 0, 255));
    assert_eq!(wire_state_of(2), Tail);
}

fn rgb_of(r: u8, g: u8, b: u8) -> Color {
    Color::from_rgb(r, g, b)
}

#[test]
fn wireworld_randomize_draws_every_state() {
    let rule = WireWorldRule::new();
    let mut rng = rand::rngs::StdRng::seed_from_u64(42);
    let draws: Vec<_> = (0..100).map(|_| rule.randomize(&mut rng).unwrap()).collect();
    for s in [WireWorldState::Void, WireWorldState::Head, WireWorldState::Tail, WireWorldState::Wire] {
        assert!(draws.contains(&s));
    }
}

#[test]
fn rock_paper_scissors_takes_over_at_the_threshold() {
    let rule = RockPaperScissorsRule::<VonNeumannNeighborhood>::new();
    assert_eq!(rule.threshold, 3);
    assert_eq!(rule.update(Rock, vec![Paper, Paper, Paper, Rock]).unwrap(), Paper);
    assert_eq!(rule.update(Rock, vec![Paper, Paper, Scissors, Rock]).unwrap(), Rock);
    assert_eq!(rule.update(Scissors, vec![Rock, Rock, Rock, Rock]).unwrap(), Rock);
    assert_eq!(rule.update(Paper, vec![Rock, Rock, Rock, Rock]).unwrap(), Paper);
    assert_eq!(rule.next(Scissors).unwrap(), Rock);
    assert_eq!(beater(Paper), Scissors);
    assert_eq!(rps_state_of(1), Paper);
    assert_eq!(rule.default_state().unwrap(), Rock);
}

#[test]
fn rock_paper_scissors_on_a_grid() {
    let rule = RockPaperScissorsRule::<MooreNeighborhood>::new();
    let mut g = Grid::init(1, 1, Rock);
    for &(x, y) in &[(4, 4), (5, 4), (6, 4)] {
        *g.cell_at_mut(x, y) = Paper;
    }
    g.update(&rule).unwrap();
    assert_eq!(*g.cell_at(5, 5), Paper);
    assert_eq!(*g.cell_at(5, 3), Paper);
    assert_eq!(*g.cell_at(4, 5), Rock);
}

#[test]
fn script_errors_keep_their_parts() {
    let e = cast_error("i64", "array".to_string(), "fn color(self) {}".to_string());
    assert_eq!(
        e,
        DynamicRuleError::CastFail(
            "i64".to_string(),
            "array".to_string(),
            "fn color(self) {}".to_string()
        )
    );
    let e = eval_error("oops".to_string(), "fn update() {}".to_string());
    assert_eq!(e, DynamicRuleError::EvalError("oops".to_string(), "fn update() {}".to_string()));
}

#[test]
fn clicked_keeps_both_buttons() {
    let c = Clicked::new(Some((1, 2)), None);
    assert_eq!(c.primary, Some((1, 2)));
    assert_eq!(c.secondary, None);
}

#[test]
fn rgb_is_opaque() {
    let c = Color::from_rgb(1, 2, 3);
    assert_eq!(c.a, 255);
    let _ = rgb;
}

#[test]
fn life_state_of_maps_a_draw() {
    assert_eq!(life_state_of(true), Alive);
    assert_eq!(life_state_of(false), Dead);
}
