//! Life-like rules: Conway's Game of Life, HighLife, and any rule given by
//! the neighbor counts on which a live cell survives and a dead cell is born.
use vstd::prelude::*;

use core::marker::PhantomData;

use vstd::string::StrSliceExecFns;

use crate::random::draw_ratio;
use crate::rule::{rgb, Color, Neighbors, Rule, RuleError, State};

verus! {

#[derive(Clone, Copy, Debug, PartialEq, Eq, Structural)]
pub enum LifeGameState {
    Dead,
    Alive,
}

impl State for LifeGameState {
    fn duplicate(&self) -> (r: Self) {
        *self
    }
}

/// How many of `s` are alive.
pub open spec fn alive_count(s: Seq<LifeGameState>) -> nat
    decreases s.len(),
{
    if s.len() == 0 {
        0
    } else {
        alive_count(s.drop_last()) + if s.last() == LifeGameState::Alive {
            1nat
        } else {
            0nat
        }
    }
}

/// How many of `s` are alive, counted.
fn count_alive(s: &Vec<LifeGameState>) -> (r: usize)
    ensures
        r == alive_count(s@),
{
    let mut n: usize = 0;
    let mut k: usize = 0;
    while k < s.len()
        invariant
            k <= s@.len(),
            n == alive_count(s@.take(k as int)),
            n <= k,
        decreases s@.len() - k,
    {
        assert(s@.take(k + 1).drop_last() =~= s@.take(k as int));
        if s[k] == LifeGameState::Alive {
            n = n + 1;
        }
        k = k + 1;
    }
    assert(s@.take(k as int) =~= s@);
    n
}

/// The cell a click turns `st` into.
pub open spec fn flipped(st: LifeGameState) -> LifeGameState {
    if st == LifeGameState::Dead {
        LifeGameState::Alive
    } else {
        LifeGameState::Dead
    }
}

fn flip(st: LifeGameState) -> (r: LifeGameState)
    ensures
        r == flipped(st),
{
    if st == LifeGameState::Dead {
        LifeGameState::Alive
    } else {
        LifeGameState::Dead
    }
}

/// The state a draw gives: alive on `true`.
pub fn life_state_of(alive: bool) -> (r: LifeGameState)
    ensures
        r == if alive {
            LifeGameState::Alive
        } else {
            LifeGameState::Dead
        },
{
    if alive {
        LifeGameState::Alive
    } else {
        LifeGameState::Dead
    }
}

/// A state drawn alive with probability 3/10.
fn draw_life(rng: &mut rand::rngs::StdRng) -> LifeGameState {
    life_state_of(draw_ratio(rng, 3, 10))
}

/// What a cell becomes under the rule "born on `born`, survives on
/// `survives`", with `n` live neighbors.
pub open spec fn life_like(
    center: LifeGameState,
    n: nat,
    survives: spec_fn(nat) -> bool,
    born: spec_fn(nat) -> bool,
) -> LifeGameState {
    if (center == LifeGameState::Alive && survives(n)) || (center == LifeGameState::Dead && born(
        n,
    )) {
        LifeGameState::Alive
    } else {
        LifeGameState::Dead
    }
}

/// Conway's Game of Life, `23/3`: a live cell survives with 2 or 3 live
/// neighbors, a dead cell is born with 3.
pub struct LifeGameRule<N> {
    pub background: Color,
    pub alive_color: Color,
    pub dead_color: Color,
    pub neighborhood: PhantomData<N>,
}

impl<N> LifeGameRule<N> {
    pub fn new() -> (r: Self)
        ensures
            r.background == rgb(0, 128, 0) && r.alive_color == rgb(0, 255, 0) && r.dead_color
                == rgb(0, 0, 0),
    {
        LifeGameRule {
            background: Color::from_rgb(0, 128, 0),
            alive_color: Color::from_rgb(0, 255, 0),
            dead_color: Color::from_rgb(0, 0, 0),
            neighborhood: PhantomData,
        }
    }
}

impl<N> Default for LifeGameRule<N> {
    fn default() -> (r: Self)
        ensures
            r.background == rgb(0, 128, 0) && r.alive_color == rgb(0, 255, 0) && r.dead_color
                == rgb(0, 0, 0),
    {
        Self::new()
    }
}

impl<N: Neighbors> Rule for LifeGameRule<N> {
    type CellState = LifeGameState;

    type Neighborhood = N;

    open spec fn spec_color(&self, st: LifeGameState) -> Result<Color, RuleError> {
        Ok(
            if st == LifeGameState::Dead {
                self.dead_color
            } else {
                self.alive_color
            },
        )
    }

    open spec fn spec_default_state(&self) -> Result<LifeGameState, RuleError> {
        Ok(LifeGameState::Dead)
    }

    open spec fn spec_next(&self, st: LifeGameState) -> Result<LifeGameState, RuleError> {
        Ok(flipped(st))
    }

    open spec fn spec_update(&self, center: LifeGameState, neighbors: Seq<LifeGameState>) -> Result<
        LifeGameState,
        RuleError,
    > {
        Ok(
            life_like(
                center,
                alive_count(neighbors),
                |n: nat| n == 2 || n == 3,
                |n: nat| n == 3,
            ),
        )
    }

    open spec fn spec_iteration_per_step(&self) -> nat {
        1
    }

    open spec fn spec_randomize_ok(&self) -> bool {
        true
    }

    fn background(&self) -> Color {
        self.background
    }

    fn color(&self, st: &LifeGameState) -> (r: Result<Color, RuleError>) {
        if *st == LifeGameState::Dead {
            Ok(self.dead_color)
        } else {
            Ok(self.alive_color)
        }
    }

    fn default_state(&self) -> (r: Result<LifeGameState, RuleError>) {
        Ok(LifeGameState::Dead)
    }

    fn randomize(&self, rng: &mut rand::rngs::StdRng) -> (r: Result<LifeGameState, RuleError>) {
        Ok(draw_life(rng))
    }

    fn next(&self, st: LifeGameState) -> (r: Result<LifeGameState, RuleError>) {
        Ok(flip(st))
    }

    fn update(&self, center: LifeGameState, neighbors: Vec<LifeGameState>) -> (r: Result<
        LifeGameState,
        RuleError,
    >) {
        let n_alive = count_alive(&neighbors);
        if n_alive == 3 || (center == LifeGameState::Alive && n_alive == 2) {
            Ok(LifeGameState::Alive)
        } else {
            Ok(LifeGameState::Dead)
        }
    }

    fn iteration_per_step(&self) -> (r: u32) {
        1
    }
}

/// HighLife, `23/36`: as the Game of Life, but a dead cell is also born
/// with 6 live neighbors.
pub struct HighLifeRule<N> {
    pub background: Color,
    pub alive_color: Color,
    pub dead_color: Color,
    pub neighborhood: PhantomData<N>,
}

impl<N> HighLifeRule<N> {
    pub fn new() -> (r: Self)
        ensures
            r.background == rgb(0, 128, 0) && r.alive_color == rgb(0, 255, 0) && r.dead_color
                == rgb(0, 0, 0),
    {
        HighLifeRule {
            background: Color::from_rgb(0, 128, 0),
            alive_color: Color::from_rgb(0, 255, 0),
            dead_color: Color::from_rgb(0, 0, 0),
            neighborhood: PhantomData,
        }
    }
}

impl<N> Default for HighLifeRule<N> {
    fn default() -> (r: Self)
        ensures
            r.background == rgb(0, 128, 0) && r.alive_color == rgb(0, 255, 0) && r.dead_color
                == rgb(0, 0, 0),
    {
        Self::new()
    }
}

impl<N: Neighbors> Rule for HighLifeRule<N> {
    type CellState = LifeGameState;

    type Neighborhood = N;

    open spec fn spec_color(&self, st: LifeGameState) -> Result<Color, RuleError> {
        Ok(
            if st == LifeGameState::Dead {
                self.dead_color
            } else {
                self.alive_color
            },
        )
    }

    open spec fn spec_default_state(&self) -> Result<LifeGameState, RuleError> {
        Ok(LifeGameState::Dead)
    }

    open spec fn spec_next(&self, st: LifeGameState) -> Result<LifeGameState, RuleError> {
        Ok(flipped(st))
    }

    open spec fn spec_update(&self, center: LifeGameState, neighbors: Seq<LifeGameState>) -> Result<
        LifeGameState,
        RuleError,
    > {
        Ok(
            life_like(
                center,
                alive_count(neighbors),
                |n: nat| n == 2 || n == 3,
                |n: nat| n == 3 || n == 6,
            ),
        )
    }

    open spec fn spec_iteration_per_step(&self) -> nat {
        1
    }

    open spec fn spec_randomize_ok(&self) -> bool {
        true
    }

    fn background(&self) -> Color {
        self.background
    }

    fn color(&self, st: &LifeGameState) -> (r: Result<Color, RuleError>) {
        if *st == LifeGameState::Dead {
            Ok(self.dead_color)
        } else {
            Ok(self.alive_color)
        }
    }

    fn default_state(&self) -> (r: Result<LifeGameState, RuleError>) {
        Ok(LifeGameState::Dead)
    }

    fn randomize(&self, rng: &mut rand::rngs::StdRng) -> (r: Result<LifeGameState, RuleError>) {
        Ok(draw_life(rng))
    }

    fn next(&self, st: LifeGameState) -> (r: Result<LifeGameState, RuleError>) {
        Ok(flip(st))
    }

    fn update(&self, center: LifeGameState, neighbors: Vec<LifeGameState>) -> (r: Result<
        LifeGameState,
        RuleError,
    >) {
        let center_is_alive = center == LifeGameState::Alive;
        let n_alive = count_alive(&neighbors);
        if n_alive == 3 || (center_is_alive && n_alive == 2) || (!center_is_alive && n_alive == 6) {
            Ok(LifeGameState::Alive)
        } else {
            Ok(LifeGameState::Dead)
        }
    }

    fn iteration_per_step(&self) -> (r: u32) {
        1
    }
}

/// arrayvec's fixed-capacity vector, held opaque; what it holds is
/// `counts_of`.
#[verifier::external_type_specification]
#[verifier::external_body]
#[verifier::reject_recursive_types(T)]
pub struct ExArrayVec<T, const CAP: usize>(arrayvec::ArrayVec<T, CAP>);

/// The neighbor counts that a vector of them holds, in order.
pub uninterp spec fn counts_of(a: arrayvec::ArrayVec<u32, 9>) -> Seq<u32>;

/// Relies on arrayvec::ArrayVec::new: an empty vector.
#[verifier::external_body]
fn empty_counts() -> (r: arrayvec::ArrayVec<u32, 9>)
    ensures
        counts_of(r) == Seq::<u32>::empty(),
{
    arrayvec::ArrayVec::new()
}

/// Relies on arrayvec::ArrayVec::push: `n` is appended; it panics on a full
/// vector, which `requires` leaves out.
#[verifier::external_body]
fn push_count(a: &mut arrayvec::ArrayVec<u32, 9>, n: u32)
    requires
        counts_of(*old(a)).len() < 9,
    ensures
        counts_of(*final(a)) == counts_of(*old(a)).push(n),
{
    a.push(n)
}

/// Relies on arrayvec::ArrayVec::as_slice: the elements, in order.
#[verifier::external_body]
fn counts_slice(a: &arrayvec::ArrayVec<u32, 9>) -> (r: &[u32])
    ensures
        r@ == counts_of(*a),
{
    a.as_slice()
}

/// A vector holding `v`, in order.
fn counts_from(v: &Vec<u32>) -> (r: arrayvec::ArrayVec<u32, 9>)
    requires
        v@.len() <= 9,
    ensures
        counts_of(r) == v@,
{
    let mut r = empty_counts();
    let mut k: usize = 0;
    while k < v.len()
        invariant
            k <= v@.len(),
            v@.len() <= 9,
            counts_of(r) == v@.take(k as int),
        decreases v@.len() - k,
    {
        push_count(&mut r, v[k]);
        assert(v@.take(k + 1) =~= v@.take(k as int).push(v@[k as int]));
        k = k + 1;
    }
    assert(v@.take(k as int) =~= v@);
    r
}

/// Whether `n` is one of `counts`.
pub open spec fn listed(counts: Seq<u32>, n: nat) -> bool {
    exists|i: int| 0 <= i < counts.len() && counts[i] as nat == n
}

fn is_listed(counts: &[u32], n: usize) -> (r: bool)
    ensures
        r == listed(counts@, n as nat),
{
    let mut k: usize = 0;
    while k < counts.len()
        invariant
            k <= counts@.len(),
            forall|i: int| 0 <= i < k ==> counts@[i] as nat != n,
        decreases counts@.len() - k,
    {
        if counts[k] as usize == n {
            return true;
        }
        k = k + 1;
    }
    false
}

/// Whether `c` is one of `0` to `9`.
pub open spec fn is_digit(c: char) -> bool {
    '0' <= c <= '9'
}

/// How many `/` there are in `s`.
pub open spec fn slash_count(s: Seq<char>) -> nat
    decreases s.len(),
{
    if s.len() == 0 {
        0
    } else {
        slash_count(s.drop_last()) + if s.last() == '/' {
            1nat
        } else {
            0nat
        }
    }
}

/// A prefix holds no more `/` than the whole.
proof fn lemma_slash_prefix(s: Seq<char>, k: int)
    requires
        0 <= k <= s.len(),
    ensures
        slash_count(s.take(k)) <= slash_count(s),
    decreases s.len(),
{
    if k < s.len() {
        assert(s.drop_last().take(k) =~= s.take(k));
        lemma_slash_prefix(s.drop_last(), k);
    } else {
        assert(s.take(k) =~= s);
    }
}

/// Whether `s` reads `{survive}/{birth}`: digits, one `/`, digits.
pub open spec fn valid_rule_text(s: Seq<char>) -> bool {
    slash_count(s) == 1 && forall|i: int| 0 <= i < s.len() ==> is_digit(#[trigger] s[i]) || s[i] == '/'
}

/// The values of the digits `s`.
pub open spec fn digit_values(s: Seq<char>) -> Seq<u32> {
    s.map_values(|c: char| (c as u32 - '0' as u32) as u32)
}

/// The digits before and after the `/` at `p` in `s`.
pub open spec fn split_at_slash(s: Seq<char>, p: int) -> (Seq<u32>, Seq<u32>) {
    (digit_values(s.subrange(0, p)), digit_values(s.subrange(p + 1, s.len() as int)))
}

/// Any life-like rule, written `{survive}/{birth}`: a live cell survives
/// when its number of live neighbors is one of `survive`, a dead cell is
/// born when it is one of `birth`.
pub struct GeneralizedLifeGameRule<N> {
    pub survive: arrayvec::ArrayVec<u32, 9>,
    pub birth: arrayvec::ArrayVec<u32, 9>,
    pub background: Color,
    pub alive_color: Color,
    pub dead_color: Color,
    pub neighborhood: PhantomData<N>,
}

impl<N> GeneralizedLifeGameRule<N> {
    /// The counts on which a live cell survives.
    pub open spec fn survive_counts(&self) -> Seq<u32> {
        counts_of(self.survive)
    }

    /// The counts on which a dead cell is born.
    pub open spec fn birth_counts(&self) -> Seq<u32> {
        counts_of(self.birth)
    }

    /// The rule `{survive}/{birth}`, with the usual colors.
    pub fn new(survive: Vec<u32>, birth: Vec<u32>) -> (r: Self)
        requires
            survive@.len() <= 9,
            birth@.len() <= 9,
        ensures
            r.survive_counts() == survive@,
            r.birth_counts() == birth@,
            r.background == rgb(0, 128, 0),
            r.alive_color == rgb(0, 255, 0),
            r.dead_color == rgb(0, 0, 0),
    {
        GeneralizedLifeGameRule {
            survive: counts_from(&survive),
            birth: counts_from(&birth),
            background: Color::from_rgb(0, 128, 0),
            alive_color: Color::from_rgb(0, 255, 0),
            dead_color: Color::from_rgb(0, 0, 0),
            neighborhood: PhantomData,
        }
    }

    /// Whether `rule` reads `{survive}/{birth}`: digits, one `/`, digits.
    pub fn is_valid_rule(rule: &str) -> (r: bool)
        ensures
            r == valid_rule_text(rule@),
    {
        let n = rule.unicode_len();
        let mut slashes: usize = 0;
        let mut k: usize = 0;
        while k < n
            invariant
                n == rule@.len(),
                k <= n,
                slashes == slash_count(rule@.take(k as int)),
                slashes <= k,
                forall|i: int| 0 <= i < k ==> is_digit(#[trigger] rule@[i]) || rule@[i] == '/',
            decreases n - k,
        {
            let c = rule.get_char(k);
            assert(rule@.take(k + 1).drop_last() =~= rule@.take(k as int));
            if c == '/' {
                slashes = slashes + 1;
            } else if !('0' <= c && c <= '9') {
                return false;
            }
            k = k + 1;
        }
        assert(rule@.take(k as int) =~= rule@);
        slashes == 1
    }

    /// The survive and birth counts of `rule`, or `None` when it does not
    /// read `{survive}/{birth}`.
    pub fn parse_rule(rule: &str) -> (r: Option<(Vec<u32>, Vec<u32>)>)
        ensures
            r is Some <==> valid_rule_text(rule@),
            r matches Some((s, b)) ==> exists|p: int|
                0 <= p < rule@.len() && rule@[p] == '/' && split_at_slash(rule@, p) == (s@, b@),
    {
        if !Self::is_valid_rule(rule) {
            return None;
        }
        let n = rule.unicode_len();
        let mut survive: Vec<u32> = Vec::new();
        let mut birth: Vec<u32> = Vec::new();
        let mut slash: Option<usize> = None;
        let mut k: usize = 0;
        while k < n
            invariant
                n == rule@.len(),
                k <= n,
                valid_rule_text(rule@),
                slash is None ==> forall|i: int| 0 <= i < k ==> rule@[i] != '/',
                slash is None ==> survive@ == digit_values(rule@.subrange(0, k as int)),
                slash is None ==> slash_count(rule@.take(k as int)) == 0,
                slash is Some ==> slash_count(rule@.take(k as int)) == 1,
                slash is None ==> birth@ == Seq::<u32>::empty(),
                slash matches Some(p) ==> p < k && rule@[p as int] == '/' && survive@
                    == digit_values(rule@.subrange(0, p as int)) && birth@ == digit_values(
                    rule@.subrange(p + 1, k as int),
                ),
            decreases n - k,
        {
            let c = rule.get_char(k);
            assert(rule@.take(k + 1).drop_last() =~= rule@.take(k as int));
            proof {
                lemma_slash_prefix(rule@, k + 1);
            }
            if c == '/' {
                slash = Some(k);
                assert(rule@.subrange(k + 1, k + 1) =~= Seq::<char>::empty());
                assert(digit_values(rule@.subrange(k + 1, k + 1)) =~= Seq::<u32>::empty());
            } else {
                let d = (c as u32) - ('0' as u32);
                match slash {
                    None => {
                        survive.push(d);
                        assert(digit_values(rule@.subrange(0, k + 1)) =~= digit_values(
                            rule@.subrange(0, k as int),
                        ).push(d));
                    },
                    Some(p) => {
                        birth.push(d);
                        assert(digit_values(rule@.subrange(p + 1, k + 1)) =~= digit_values(
                            rule@.subrange(p + 1, k as int),
                        ).push(d));
                    },
                }
            }
            k = k + 1;
        }
        match slash {
            Some(p) => {
                assert(rule@.subrange(p + 1, k as int) =~= rule@.subrange(
                    p + 1,
                    rule@.len() as int,
                ));
                Some((survive, birth))
            },
            None => {
                assert(rule@.take(k as int) =~= rule@);
                None
            },
        }
    }

    /// The rule that `rule` writes as `{survive}/{birth}`.
    pub fn from_rule(rule: &str) -> (r: Self)
        requires
            valid_rule_text(rule@),
            forall|p: int| 0 <= p < rule@.len() && rule@[p] == '/' ==> p <= 9 && rule@.len() - p - 1 <= 9,
        ensures
            exists|p: int|
                0 <= p < rule@.len() && rule@[p] == '/' && split_at_slash(rule@, p) == (
                    r.survive_counts(),
                    r.birth_counts(),
                ),
    {
        match Self::parse_rule(rule) {
            Some((survive, birth)) => Self::new(survive, birth),
            None => Self::new(Vec::new(), Vec::new()),
        }
    }
}

impl<N> Default for GeneralizedLifeGameRule<N> {
    /// Conway's Game of Life, `23/3`.
    fn default() -> (r: Self)
        ensures
            r.survive_counts() == seq![2u32, 3u32],
            r.birth_counts() == seq![3u32],
    {
        let r = Self::new(vec![2, 3], vec![3]);
        proof {
            assert(r.survive_counts() =~= seq![2u32, 3u32]);
            assert(r.birth_counts() =~= seq![3u32]);
        }
        r
    }
}

impl<N: Neighbors> Rule for GeneralizedLifeGameRule<N> {
    type CellState = LifeGameState;

    type Neighborhood = N;

    open spec fn spec_color(&self, st: LifeGameState) -> Result<Color, RuleError> {
        Ok(
            if st == LifeGameState::Dead {
                self.dead_color
            } else {
                self.alive_color
            },
        )
    }

    open spec fn spec_default_state(&self) -> Result<LifeGameState, RuleError> {
        Ok(LifeGameState::Dead)
    }

    open spec fn spec_next(&self, st: LifeGameState) -> Result<LifeGameState, RuleError> {
        Ok(flipped(st))
    }

    open spec fn spec_update(&self, center: LifeGameState, neighbors: Seq<LifeGameState>) -> Result<
        LifeGameState,
        RuleError,
    > {
        Ok(
            life_like(
                center,
                alive_count(neighbors),
                |n: nat| listed(self.survive_counts(), n),
                |n: nat| listed(self.birth_counts(), n),
            ),
        )
    }

    open spec fn spec_iteration_per_step(&self) -> nat {
        1
    }

    open spec fn spec_randomize_ok(&self) -> bool {
        true
    }

    fn background(&self) -> Color {
        self.background
    }

    fn color(&self, st: &LifeGameState) -> (r: Result<Color, RuleError>) {
        if *st == LifeGameState::Dead {
            Ok(self.dead_color)
        } else {
            Ok(self.alive_color)
        }
    }

    fn default_state(&self) -> (r: Result<LifeGameState, RuleError>) {
        Ok(LifeGameState::Dead)
    }

    fn randomize(&self, rng: &mut rand::rngs::StdRng) -> (r: Result<LifeGameState, RuleError>) {
        Ok(draw_life(rng))
    }

    fn next(&self, st: LifeGameState) -> (r: Result<LifeGameState, RuleError>) {
        Ok(flip(st))
    }

    fn update(&self, center: LifeGameState, neighbors: Vec<LifeGameState>) -> (r: Result<
        LifeGameState,
        RuleError,
    >) {
        let center_is_alive = center == LifeGameState::Alive;
        let n_alive = count_alive(&neighbors);
        let meet_survive_rule = is_listed(counts_slice(&self.survive), n_alive);
        let meet_birth_rule = is_listed(counts_slice(&self.birth), n_alive);
        if (center_is_alive && meet_survive_rule) || (!center_is_alive && meet_birth_rule) {
            Ok(LifeGameState::Alive)
        } else {
            Ok(LifeGameState::Dead)
        }
    }

    fn iteration_per_step(&self) -> (r: u32) {
        1
    }
}

} // verus!
