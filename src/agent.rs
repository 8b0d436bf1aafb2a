//! An agent: one network steering one game.

use crate::game::{dir_at, game_step, one_hot, FourDirs, Game, Point};
use crate::nn::{layer_unit, Net, SCALE};
use vstd::prelude::*;

verus! {

/// Width of the perception vector.
pub const N_INPUTS: usize = 24;

/// Ticks without food that a short snake may take before it is stopped.
pub const NUM_STEPS: usize = 50;

/// Longest ray that perception follows, in cells.
pub const MAX_RAY: usize = 1000;

/// The eight compass steps that perception casts rays along, in order.
pub open spec fn ray_dir(i: int) -> (int, int) {
    if i == 0 {
        (0, -1)
    } else if i == 1 {
        (1, -1)
    } else if i == 2 {
        (1, 0)
    } else if i == 3 {
        (1, 1)
    } else if i == 4 {
        (0, 1)
    } else if i == 5 {
        (-1, 1)
    } else if i == 6 {
        (-1, 0)
    } else {
        (-1, -1)
    }
}

/// Cells walked from `(x, y)` along `d`, counting from step `n`, before a
/// blocked cell; `MAX_RAY + 1` when none comes within `MAX_RAY` steps.
pub open spec fn ray_len_from(g: &Game, x: int, y: int, d: (int, int), n: int) -> int
    decreases MAX_RAY + 1 - n,
{
    if n > MAX_RAY || n < 0 {
        (MAX_RAY + 1) as int
    } else if g.blocked(x + n * d.0, y + n * d.1) {
        n
    } else {
        ray_len_from(g, x, y, d, n + 1)
    }
}

pub open spec fn ray_len(g: &Game, d: (int, int)) -> int {
    ray_len_from(g, g.head.x as int, g.head.y as int, d, 0)
}

/// The food lies `n` steps from the head along `d`.
pub open spec fn food_at(g: &Game, d: (int, int), n: int) -> bool {
    g.food.x == g.head.x + n * d.0 && g.food.y == g.head.y + n * d.1
}

/// Food lies on one of the free cells of the ray.
pub open spec fn ray_food(g: &Game, d: (int, int)) -> bool {
    exists|n: int| 0 <= n < ray_len(g, d) && #[trigger] food_at(g, d, n)
}

/// How near the first obstacle is: `1 / distance`, and `1` when the ray starts blocked.
pub open spec fn solidness(dist: int) -> i64 {
    if dist <= 0 {
        SCALE
    } else {
        (SCALE as int / dist) as i64
    }
}

/// The sixteen ray signals: for each direction, solidness then the food flag.
pub open spec fn vision(g: &Game) -> Seq<i64> {
    Seq::new(
        16,
        |i: int|
            if i % 2 == 0 {
                solidness(ray_len(g, ray_dir(i / 2)))
            } else if ray_food(g, ray_dir(i / 2)) {
                SCALE
            } else {
                0
            },
    )
}

/// Direction from the last body segment towards the one before it, or the
/// head's direction when the body has a single segment.
pub open spec fn tail_dir(g: &Game) -> FourDirs {
    if g.body@.len() >= 2 {
        let t = g.body@[g.body@.len() - 1];
        let b = g.body@[g.body@.len() - 2];
        let dx = b.x - t.x;
        let dy = b.y - t.y;
        if dx == -1 && dy == 0 {
            FourDirs::Left
        } else if dx == 1 && dy == 0 {
            FourDirs::Right
        } else if dx == 0 && dy == 1 {
            FourDirs::Bottom
        } else {
            FourDirs::Top
        }
    } else {
        g.dir
    }
}

/// The whole perception vector: rays, head direction, tail direction.
pub open spec fn perception(g: &Game) -> Seq<i64> {
    vision(g) + one_hot(g.dir.index()) + one_hot(tail_dir(g).index())
}

/// Index of the first largest of the first four entries.
pub open spec fn is_first_max(o: Seq<i64>, i: int) -> bool {
    &&& 0 <= i < 4
    &&& forall|j: int| 0 <= j < 4 ==> #[trigger] o[j] <= o[i]
    &&& forall|j: int| 0 <= j < i ==> #[trigger] o[j] < o[i]
}

/// Ticks without food allowed at a given score.
pub open spec fn step_limit(score: int) -> int {
    if score > 30 {
        NUM_STEPS * 6
    } else if score > 20 {
        NUM_STEPS * 3
    } else if score > 5 {
        NUM_STEPS * 2
    } else {
        NUM_STEPS as int
    }
}

/// Fitness in tenths: `1.0` up to a body of one cell, then
/// `2^score * score * steps * 0.1` below five cells, then `score^3 * steps * 0.1`.
pub open spec fn fitness_tenths(score: int, steps: int) -> int {
    if score <= 1 {
        10
    } else if score < 5 {
        (if score == 2 { 4int } else if score == 3 { 8 } else { 16 }) * score * steps
    } else {
        score * score * score * steps
    }
}

/// Fitness in tenths, saturated at `u128::MAX`.
pub fn fitness_of(score: usize, steps: usize) -> (r: u128)
    ensures
        r == (if fitness_tenths(score as int, steps as int) > u128::MAX { u128::MAX as int } else {
            fitness_tenths(score as int, steps as int)
        }),
{
    let s = score as u128;
    let t = steps as u128;
    if score <= 1 {
        return 10;
    }
    if score < 5 {
        let p: u128 = if score == 2 {
            4
        } else if score == 3 {
            8
        } else {
            16
        };
        assert(p * s * t <= 64 * t) by (nonlinear_arith)
            requires
                p * s <= 64,
        ;
        return p * s * t;
    }
    if steps == 0 {
        assert(s * s * s * t == 0) by (nonlinear_arith)
            requires
                t == 0,
        ;
        return 0;
    }
    assert(s * s * s * t >= s * s * s && s * s * s >= s * s) by (nonlinear_arith)
        requires
            t >= 1,
            s >= 5,
    ;
    match s.checked_mul(s) {
        None => u128::MAX,
        Some(s2) => match s2.checked_mul(s) {
            None => u128::MAX,
            Some(s3) => match s3.checked_mul(t) {
                None => u128::MAX,
                Some(f) => f,
            },
        },
    }
}

/// Fitness of an agent as `Agent::fitness` computes it.
pub open spec fn fit(a: Agent) -> int {
    let f = fitness_tenths(a.game.body@.len() as int, a.game.total_steps as int);
    if f > u128::MAX {
        u128::MAX as int
    } else {
        f
    }
}

/// The unit step of ray `i`.
fn ray_step(i: usize) -> (r: (i32, i32))
    requires
        i < 8,
    ensures
        r.0 == ray_dir(i as int).0,
        r.1 == ray_dir(i as int).1,
{
    if i == 0 {
        (0, -1)
    } else if i == 1 {
        (1, -1)
    } else if i == 2 {
        (1, 0)
    } else if i == 3 {
        (1, 1)
    } else if i == 4 {
        (0, 1)
    } else if i == 5 {
        (-1, 1)
    } else if i == 6 {
        (-1, 0)
    } else {
        (-1, -1)
    }
}

/// The ticks without food have reached the limit for the current score.
pub open spec fn over_budget(g: Game) -> bool {
    g.no_food_steps >= step_limit(g.body@.len() as int)
}

/// `g`, stopped when it is over its step budget.
pub open spec fn with_budget(g: Game) -> Game {
    Game { is_dead: g.is_dead || over_budget(g), ..g }
}

/// `n` is the agent `o` after one call of `Agent::update`, which returned `r`:
/// the brain is kept; a dead game stays as it is and `r` is false; a live
/// game takes one tick with the brain's move, is then stopped if over its
/// step budget, and `r` is false exactly when that budget stopped it.
pub open spec fn agent_tick(o: Agent, n: Agent, r: bool) -> bool {
    &&& n.brain == o.brain
    &&& if o.game.is_dead {
        n.game == o.game && !r
    } else {
        exists|g: Game|
            #[trigger] game_step(o.game, o.choice(), g) && n.game == with_budget(g) && r == !(
            over_budget(g) && !g.is_dead)
    }
}

/// Layer sizes of an agent's default network: 24 inputs, hidden layers of 16 and 8, one output per move.
pub open spec fn arch() -> Seq<int> {
    seq![N_INPUTS as int, 16, 8, 4]
}

/// A network as an agent draws it: shape `arch()`, every weight and bias in `[-1, 1]`.
pub open spec fn random_brain(n: Net) -> bool {
    &&& n.shape() == arch()
    &&& forall|i: int| 0 <= i < n.layers@.len() ==> layer_unit(#[trigger] n.layers@[i])
}

/// A game at its start: running, one cell long, no tick played.
pub open spec fn fresh_game(g: Game) -> bool {
    &&& !g.is_dead
    &&& g.body@.len() == 1
    &&& g.total_steps == 0
    &&& g.no_food_steps == 0
}

/// An agent: a game and the network that plays it.
pub struct Agent {
    pub game: Game,
    pub brain: Net,
}

/// A network that fits an agent: perception width in, one output per move out.
pub open spec fn brain_fits(n: &Net) -> bool {
    &&& n.wf()
    &&& n.n_inputs == N_INPUTS
    &&& n.n_outputs() == 4
}

/// Whether `net` can steer an agent.
pub fn fits_agent(net: &Net) -> (r: bool)
    ensures
        r == brain_fits(net),
{
    net.is_well_formed() && net.n_inputs == N_INPUTS && net.layers[net.layers.len() - 1].nodes.len() == 4
}

impl Agent {
    pub open spec fn wf(&self) -> bool {
        &&& self.game.wf()
        &&& brain_fits(&self.brain)
    }

    /// The move the brain picks in the current state.
    pub open spec fn choice(&self) -> FourDirs {
        dir_at(choose|i: int| is_first_max(self.brain.output(perception(&self.game)), i))
    }

    /// A fresh game played by `brain`.
    pub fn with_brain(brain: Net) -> (r: Agent)
        requires
            brain_fits(&brain),
        ensures
            r.wf(),
            r.brain == brain,
            !r.game.is_dead,
            r.game.body@.len() == 1,
            r.game.total_steps == 0,
            r.game.no_food_steps == 0,
    {
        Agent { game: Game::new(), brain }
    }

    /// A fresh game played by a network of layer sizes 24, 16, 8, 4: `loaded` where
    /// given (passed through a mutation of rate zero, which keeps it as it
    /// is), else a random one.
    pub fn new(loaded: Option<Net>) -> (r: Agent)
        requires
            loaded is Some ==> brain_fits(&loaded->0),
        ensures
            r.wf(),
            fresh_game(r.game),
            loaded is Some ==> r.brain.close_to(&loaded->0, 0),
            loaded is None ==> random_brain(r.brain),
    {
        let brain = match loaded {
            Some(net) => {
                let mut net = net;
                let ghost before = net;
                net.mutate(0, SCALE / 10);
                let ghost k = net.layers@.len() as int;
                assert(before.shape()[0] == before.width(0));
                assert(net.shape()[0] == net.width(0));
                assert(net.shape().len() == before.shape().len());
                assert(before.shape()[k] == before.width(k));
                assert(net.shape()[k] == net.width(k));
                assert(net.n_outputs() == net.width(k));
                assert(before.n_outputs() == before.width(k));
                net
            },
            None => {
                let mut sizes: Vec<usize> = Vec::new();
                sizes.push(N_INPUTS);
                sizes.push(16);
                sizes.push(8);
                sizes.push(4);
                let net = Net::new(sizes.as_slice());
                assert(sizes@.len() == 4 && sizes@[0] == N_INPUTS && sizes@[3] == 4);
                assert(net.shape().len() == 4);
                assert(net.layers@.len() == 3);
                assert(net.shape()[0] == net.width(0));
                assert(net.shape()[3] == net.width(3));
                assert(net.shape()[0] == N_INPUTS);
                assert(net.shape()[3] == 4);
                assert(net.n_outputs() == net.width(net.layers@.len() as int));
                assert(net.shape() =~= arch());
                net
            },
        };
        Agent::with_brain(brain)
    }

    /// Free cells along direction `d` from `st` before a wall or the body,
    /// and whether food lies on them.
    fn vision_in_dir(&self, st: Point, d: (i32, i32), Ghost(i): Ghost<int>) -> (r: (usize, bool))
        requires
            self.game.wf(),
            st == self.game.head,
            0 <= i < 8,
            d.0 == ray_dir(i).0,
            d.1 == ray_dir(i).1,
        ensures
            r.0 == ray_len(&self.game, ray_dir(i)),
            r.0 <= MAX_RAY + 1,
            r.1 == ray_food(&self.game, ray_dir(i)),
    {
        let g = &self.game;
        let ghost dd = ray_dir(i);
        let mut food = false;
        let mut pt = st;
        let mut dist: usize = 0;
        loop
            invariant
                g == &self.game,
                g.wf(),
                st == g.head,
                dd == ray_dir(i),
                d.0 == dd.0,
                d.1 == dd.1,
                -1 <= dd.0 <= 1,
                -1 <= dd.1 <= 1,
                dist <= MAX_RAY,
                pt.x == st.x + dist * dd.0,
                pt.y == st.y + dist * dd.1,
                ray_len(g, dd) == ray_len_from(g, st.x as int, st.y as int, dd, dist as int),
                food == exists|n: int| 0 <= n < dist && #[trigger] food_at(g, dd, n),
            decreases MAX_RAY - dist,
        {
            if g.is_wall(pt) || g.is_snake_body(pt) {
                assert(g.blocked(st.x + dist * dd.0, st.y + dist * dd.1));
                assert(ray_len_from(g, st.x as int, st.y as int, dd, dist as int) == dist);
                return (dist, food);
            }
            assert(!g.blocked(st.x + dist * dd.0, st.y + dist * dd.1));
            assert(ray_len_from(g, st.x as int, st.y as int, dd, dist as int) == ray_len_from(
                g,
                st.x as int,
                st.y as int,
                dd,
                dist + 1,
            ));
            let here = g.food.x == pt.x && g.food.y == pt.y;
            assert(here == food_at(g, dd, dist as int));
            if here {
                food = true;
            }
            assert(food == exists|n: int| 0 <= n < dist + 1 && #[trigger] food_at(g, dd, n)) by {
                if here {
                    assert(food_at(g, dd, dist as int));
                }
                if exists|n: int| 0 <= n < dist + 1 && #[trigger] food_at(g, dd, n) {
                    let n = choose|n: int| 0 <= n < dist + 1 && #[trigger] food_at(g, dd, n);
                    if n < dist {
                        assert(exists|m: int| 0 <= m < dist && #[trigger] food_at(g, dd, m));
                    }
                }
            }
            assert((dist + 1) * dd.0 == dist * dd.0 + dd.0 && (dist + 1) * dd.1 == dist * dd.1 + dd.1)
                by (nonlinear_arith);
            pt = Point::new(pt.x + d.0, pt.y + d.1);
            dist += 1;
            if dist > MAX_RAY {
                assert(ray_len_from(g, st.x as int, st.y as int, dd, dist as int) == MAX_RAY + 1);
                return (dist, food);
            }
        }
    }

    /// The sixteen ray signals, direction by direction.
    fn get_snake_vision(&self) -> (r: Vec<i64>)
        requires
            self.game.wf(),
        ensures
            r@ == vision(&self.game),
    {
        let mut out: Vec<i64> = Vec::new();
        let mut i: usize = 0;
        while i < 8
            invariant
                self.game.wf(),
                i <= 8,
                out@.len() == 2 * i,
                forall|q: int| 0 <= q < 2 * i ==> #[trigger] out@[q] == vision(&self.game)[q],
            decreases 8 - i,
        {
            let d = ray_step(i);
            let (dist, food) = self.vision_in_dir(self.game.head, d, Ghost(i as int));
            let solid: i64 = if dist == 0 {
                SCALE
            } else {
                SCALE / (dist as i64)
            };
            out.push(solid);
            out.push(if food { SCALE } else { 0 });
            assert((2 * i) / 2 == i && (2 * i + 1) / 2 == i && (2 * i) % 2 == 0 && (2 * i + 1) % 2 == 1);
            i += 1;
        }
        assert(out@ =~= vision(&self.game));
        out
    }

    fn get_tail_direction(&self) -> (r: FourDirs)
        ensures
            r == tail_dir(&self.game),
    {
        let n = self.game.body.len();
        if n >= 2 {
            let t = self.game.body[n - 1];
            let b = self.game.body[n - 2];
            let dx = b.x as i64 - t.x as i64;
            let dy = b.y as i64 - t.y as i64;
            if dx == -1 && dy == 0 {
                FourDirs::Left
            } else if dx == 1 && dy == 0 {
                FourDirs::Right
            } else if dx == 0 && dy == 1 {
                FourDirs::Bottom
            } else {
                FourDirs::Top
            }
        } else {
            self.game.dir
        }
    }

    /// The perception vector: 16 ray signals, then the head's direction and
    /// the tail's direction, each one-hot.
    pub fn get_brain_input(&self) -> (r: Vec<i64>)
        requires
            self.game.wf(),
        ensures
            r@ == perception(&self.game),
            r@.len() == N_INPUTS,
            r@.subrange(16, 20) == one_hot(self.game.dir.index()),
            r@.subrange(20, 24) == one_hot(tail_dir(&self.game).index()),
    {
        let mut v = self.get_snake_vision();
        let mut head = self.game.dir.get_one_hot_dir();
        let mut tail = self.get_tail_direction().get_one_hot_dir();
        v.append(&mut head);
        v.append(&mut tail);
        assert(v@.subrange(16, 20) =~= one_hot(self.game.dir.index()));
        assert(v@.subrange(20, 24) =~= one_hot(tail_dir(&self.game).index()));
        v
    }

    /// The move whose output is largest; among equal outputs the first in
    /// the order Left, Right, Bottom, Top.
    pub fn get_brain_output(&self) -> (r: FourDirs)
        requires
            self.wf(),
        ensures
            r == self.choice(),
    {
        let input = self.get_brain_input();
        let out = self.brain.predict(input);
        let mut best: usize = 0;
        let mut i: usize = 1;
        while i < 4
            invariant
                out@.len() == 4,
                1 <= i <= 4,
                best < i,
                forall|j: int| 0 <= j < i ==> #[trigger] out@[j] <= out@[best as int],
                forall|j: int| 0 <= j < best ==> #[trigger] out@[j] < out@[best as int],
            decreases 4 - i,
        {
            if out[i] > out[best] {
                best = i;
            }
            i += 1;
        }
        assert(is_first_max(out@, best as int));
        assert forall|a: int, b: int| is_first_max(out@, a) && is_first_max(out@, b) implies a == b by {
            if a < b {
                assert(out@[a] < out@[b]);
            } else if b < a {
                assert(out@[b] < out@[a]);
            }
        }
        FourDirs::from_index(best)
    }

    /// Ticks without food allowed at the current score.
    pub fn get_step_limit(&self) -> (r: usize)
        ensures
            r == step_limit(self.game.body@.len() as int),
    {
        let score = self.game.score();
        if score > 30 {
            NUM_STEPS * 6
        } else if score > 20 {
            NUM_STEPS * 3
        } else if score > 5 {
            NUM_STEPS * 2
        } else {
            NUM_STEPS
        }
    }

    /// Fitness in tenths, from the body length and the ticks played.
    pub fn fitness(&self) -> (r: u128)
        ensures
            r == (if fitness_tenths(self.game.body@.len() as int, self.game.total_steps as int) > u128::MAX {
                u128::MAX as int
            } else {
                fitness_tenths(self.game.body@.len() as int, self.game.total_steps as int)
            }),
    {
        fitness_of(self.game.body.len(), self.game.total_steps)
    }

    /// One tick: a dead game is left alone and `false` returned. Otherwise
    /// the brain's move is played, and the game is stopped when the ticks
    /// without food reach the limit for the new score; `false` is returned
    /// exactly when it was stopped so.
    pub fn update(&mut self) -> (r: bool)
        requires
            old(self).wf(),
        ensures
            final(self).wf(),
            agent_tick(*old(self), *final(self), r),
    {
        if self.game.is_dead {
            return false;
        }
        let action = self.get_brain_output();
        self.game.update(action);
        let ghost g = self.game;
        let limit = self.get_step_limit();
        if self.game.no_food_steps >= limit && !self.game.is_dead {
            self.game.is_dead = true;
            assert(self.game == with_budget(g));
            return false;
        }
        assert(self.game == with_budget(g));
        true
    }
}

/// Four entries, exactly one of them `SCALE` and the others zero.
pub open spec fn single_hot(v: Seq<i64>) -> bool {
    &&& v.len() == 4
    &&& exists|i: int|
        0 <= i < 4 && #[trigger] v[i] == SCALE && forall|j: int| 0 <= j < 4 && j != i ==> #[trigger] v[j] == 0
}

/// The perception vector has 24 entries, and each of its two direction
/// segments holds exactly one `1.0`.
pub proof fn lemma_perception_shape(g: &Game)
    ensures
        perception(g).len() == N_INPUTS,
        single_hot(perception(g).subrange(16, 20)),
        single_hot(perception(g).subrange(20, 24)),
{
    let p = perception(g);
    let h = g.dir.index();
    let t = tail_dir(g).index();
    assert(p.subrange(16, 20) =~= one_hot(h));
    assert(p.subrange(20, 24) =~= one_hot(t));
    assert(one_hot(h)[h] == SCALE);
    assert(one_hot(t)[t] == SCALE);
}

/// Agents are equal when their fitness is.
impl PartialEq for Agent {
    fn eq(&self, other: &Agent) -> (r: bool) {
        self.fitness() == other.fitness()
    }
}

impl vstd::std_specs::cmp::PartialEqSpecImpl for Agent {
    open spec fn obeys_eq_spec() -> bool {
        true
    }

    open spec fn eq_spec(&self, other: &Agent) -> bool {
        fit(*self) == fit(*other)
    }
}

/// Agents are ordered by fitness.
impl PartialOrd for Agent {
    fn partial_cmp(&self, other: &Agent) -> (r: Option<std::cmp::Ordering>) {
        let a = self.fitness();
        let b = other.fitness();
        if a < b {
            Some(std::cmp::Ordering::Less)
        } else if a > b {
            Some(std::cmp::Ordering::Greater)
        } else {
            Some(std::cmp::Ordering::Equal)
        }
    }
}

impl vstd::std_specs::cmp::PartialOrdSpecImpl for Agent {
    open spec fn obeys_partial_cmp_spec() -> bool {
        true
    }

    open spec fn partial_cmp_spec(&self, other: &Agent) -> Option<std::cmp::Ordering> {
        if fit(*self) < fit(*other) {
            Some(std::cmp::Ordering::Less)
        } else if fit(*self) > fit(*other) {
            Some(std::cmp::Ordering::Greater)
        } else {
            Some(std::cmp::Ordering::Equal)
        }
    }
}

/// Fitness (in tenths) is `1.0` at a body of one cell whatever the ticks;
/// below five cells it follows `2^score * score * ticks`, so four cells give
/// `64 * ticks` tenths; from five cells on it is cubic, and six cells give
/// `216 * ticks` tenths, more than the exponential formula gives at five
/// (`160 * ticks`), and never saturated for a tick count that fits `usize`.
pub proof fn lemma_fitness_branches(steps: int)
    requires
        1 <= steps <= usize::MAX,
    ensures
        fitness_tenths(1, steps) == 10,
        fitness_tenths(4, steps) == 64 * steps,
        fitness_tenths(6, steps) == 216 * steps,
        fitness_tenths(6, steps) > 32 * 5 * steps,
        fitness_tenths(6, steps) < u128::MAX,
{
    assert(fitness_tenths(6, steps) == 216 * steps);
    assert(216 * steps > 160 * steps);
}

} // verus!
