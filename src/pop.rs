//! A population of agents evolved generation by generation.

use crate::agent::{agent_tick, arch, brain_fits, fit, fresh_game, random_brain, Agent};
use crate::nn::Net;
use crate::random::random_between;
use vstd::prelude::*;

verus! {

/// Number of agents in a generation.
pub const POP_SIZE: usize = 100;

/// Default chance that a weight or bias is perturbed (`0.05`).
pub const MUTATION_RATE: i64 = 50_000;

/// Default half-width of a perturbation (`0.1`).
pub const MUTATION_MAGNITUDE: i64 = 100_000;

/// Number of live games among the first `n` agents.
pub open spec fn alive_count(agents: Seq<Agent>, n: int) -> int
    decreases n,
{
    if n <= 0 {
        0
    } else {
        alive_count(agents, n - 1) + if agents[n - 1].game.is_dead { 0int } else { 1 }
    }
}

/// Each agent of `n` is the one at the same place in `o` after one tick.
pub open spec fn pop_tick(o: Seq<Agent>, n: Seq<Agent>) -> bool {
    &&& n.len() == o.len()
    &&& forall|i: int|
        0 <= i < n.len() ==> agent_tick(o[i], #[trigger] n[i], true) || agent_tick(o[i], n[i], false)
}

/// `c` crosses the networks of two agents of `agents` and is then mutated:
/// each scalar moves by at most `magnitude`, and not at all when `rate <= 0`.
pub open spec fn bred(c: Net, agents: Seq<Agent>, rate: i64, magnitude: i64) -> bool {
    exists|p1: int, p2: int, m: Net|
        0 <= p1 < agents.len() && 0 <= p2 < agents.len() && #[trigger] m.mix_of(
            &agents[p1].brain,
            &agents[p2].brain,
        ) && c.close_to(&m, if rate <= 0 { 0 } else { magnitude as int })
}

/// `n` is the generation bred from `o`: same size and mutation settings, every
/// agent in a fresh game; agent 0 plays a copy of the first fittest network
/// of `o`, every other agent a crossover of two agents of `o`, mutated.
pub open spec fn next_generation(o: Population, n: Population) -> bool {
    &&& n.wf()
    &&& n.agents@.len() == o.agents@.len()
    &&& n.mutation_rate == o.mutation_rate
    &&& n.mutation_magnitude == o.mutation_magnitude
    &&& n.agents@[0].brain.shape() == o.agents@[0].brain.shape()
    &&& forall|i: int| 0 <= i < n.agents@.len() ==> fresh_game((#[trigger] n.agents@[i]).game)
    &&& exists|b: int| #[trigger] is_best(o.agents@, b) && n.agents@[0].brain.close_to(&o.agents@[b].brain, 0)
    &&& forall|i: int|
        1 <= i < n.agents@.len() ==> bred(
            (#[trigger] n.agents@[i]).brain,
            o.agents@,
            o.mutation_rate,
            o.mutation_magnitude,
        )
}

/// `i` holds the first highest fitness among `agents`.
pub open spec fn is_best(agents: Seq<Agent>, i: int) -> bool {
    &&& 0 <= i < agents.len()
    &&& forall|j: int| 0 <= j < agents.len() ==> fit(#[trigger] agents[j]) <= fit(agents[i])
    &&& forall|j: int| 0 <= j < i ==> fit(#[trigger] agents[j]) < fit(agents[i])
}

/// A fixed-size set of agents whose networks share one shape.
pub struct Population {
    pub agents: Vec<Agent>,
    /// Chance, in millionths, that each weight or bias of a child is perturbed.
    pub mutation_rate: i64,
    /// Half-width of a perturbation.
    pub mutation_magnitude: i64,
}

impl Population {
    pub open spec fn wf(&self) -> bool {
        &&& self.agents@.len() >= 1
        &&& self.mutation_magnitude >= 0
        &&& forall|i: int| 0 <= i < self.agents@.len() ==> (#[trigger] self.agents@[i]).wf()
        &&& forall|i: int|
            0 <= i < self.agents@.len() ==> (#[trigger] self.agents@[i]).brain.shape()
                == self.agents@[0].brain.shape()
    }

    /// `size` agents in fresh games; each plays a copy of `loaded` where given,
    /// else a network of its own drawn at random.
    pub fn new(size: usize, loaded: Option<&Net>) -> (r: Population)
        requires
            size >= 1,
            loaded is Some ==> brain_fits(loaded->0),
        ensures
            r.wf(),
            r.agents@.len() == size,
            r.mutation_rate == MUTATION_RATE,
            r.mutation_magnitude == MUTATION_MAGNITUDE,
            forall|i: int| 0 <= i < size ==> fresh_game((#[trigger] r.agents@[i]).game),
            loaded is Some ==> forall|i: int|
                0 <= i < size ==> (#[trigger] r.agents@[i]).brain.close_to(loaded->0, 0),
            loaded is None ==> forall|i: int| 0 <= i < size ==> random_brain((#[trigger] r.agents@[i]).brain),
    {
        let mut agents: Vec<Agent> = Vec::new();
        let ghost sh = match loaded {
            Some(n) => n.shape(),
            None => arch(),
        };
        let mut i: usize = 0;
        while i < size
            invariant
                i <= size,
                agents@.len() == i,
                sh == match loaded {
                    Some(n) => n.shape(),
                    None => arch(),
                },
                loaded is Some ==> brain_fits(loaded->0),
                forall|q: int| 0 <= q < i ==> (#[trigger] agents@[q]).wf(),
                forall|q: int| 0 <= q < i ==> (#[trigger] agents@[q]).brain.shape() == sh,
                forall|q: int| 0 <= q < i ==> fresh_game((#[trigger] agents@[q]).game),
                loaded is Some ==> forall|q: int|
                    0 <= q < i ==> (#[trigger] agents@[q]).brain.close_to(loaded->0, 0),
                loaded is None ==> forall|q: int| 0 <= q < i ==> random_brain((#[trigger] agents@[q]).brain),
            decreases size - i,
        {
            let a = match loaded {
                Some(n) => Agent::with_brain(n.copy()),
                None => Agent::new(None),
            };
            agents.push(a);
            i += 1;
        }
        Population { agents, mutation_rate: MUTATION_RATE, mutation_magnitude: MUTATION_MAGNITUDE }
    }

    /// Advances every live agent by one tick and returns how many games are
    /// still running afterwards. Each agent touches only its own game.
    pub fn update(&mut self) -> (r: usize)
        requires
            old(self).wf(),
        ensures
            final(self).wf(),
            final(self).agents@.len() == old(self).agents@.len(),
            final(self).mutation_rate == old(self).mutation_rate,
            final(self).mutation_magnitude == old(self).mutation_magnitude,
            r == alive_count(final(self).agents@, final(self).agents@.len() as int),
            pop_tick(old(self).agents@, final(self).agents@),
    {
        let ghost before = self.agents@;
        let mut rest: Vec<Agent> = Vec::new();
        std::mem::swap(&mut rest, &mut self.agents);
        let mut done: Vec<Agent> = Vec::new();
        let mut alive: usize = 0;
        let n = rest.len();
        while rest.len() > 0
            invariant
                n == before.len(),
                done@.len() + rest@.len() == n,
                rest@ == before.subrange(done@.len() as int, n as int),
                alive == alive_count(done@, done@.len() as int),
                alive <= done@.len(),
                forall|i: int| 0 <= i < n ==> (#[trigger] before[i]).wf(),
                forall|i: int| 0 <= i < done@.len() ==> (#[trigger] done@[i]).wf(),
                forall|i: int|
                    0 <= i < done@.len() ==> agent_tick(before[i], #[trigger] done@[i], true) || agent_tick(
                        before[i],
                        done@[i],
                        false,
                    ),
            decreases rest@.len(),
        {
            let ghost k = done@.len() as int;
            let ghost prev = done@;
            let mut a = rest.remove(0);
            assert(a == before[k]);
            let rr = a.update();
            assert(agent_tick(before[k], a, rr));
            let live = !a.game.is_dead;
            done.push(a);
            assert(done@.subrange(0, k) =~= prev);
            proof {
                lemma_alive_prefix(done@, prev, k);
            }
            if live {
                alive = alive + 1;
            }
        }
        self.agents = done;
        assert(pop_tick(before, self.agents@));
        alive
    }

    /// Index of the first agent of highest fitness.
    pub fn best_index(&self) -> (r: usize)
        requires
            self.agents@.len() >= 1,
        ensures
            is_best(self.agents@, r as int),
    {
        let mut best: usize = 0;
        let mut best_fit: u128 = self.agents[0].fitness();
        let mut i: usize = 1;
        while i < self.agents.len()
            invariant
                1 <= i <= self.agents@.len(),
                best < i,
                best_fit == fit(self.agents@[best as int]),
                forall|j: int| 0 <= j < i ==> fit(#[trigger] self.agents@[j]) <= best_fit,
                forall|j: int| 0 <= j < best ==> fit(#[trigger] self.agents@[j]) < best_fit,
            decreases self.agents@.len() - i,
        {
            let f = self.agents[i].fitness();
            if f > best_fit {
                best = i;
                best_fit = f;
            }
            i += 1;
        }
        best
    }

    /// A copy of the best network of this generation and that agent's body
    /// length. The population is left as it is.
    pub fn get_gen_summary(&self) -> (r: (Net, usize))
        requires
            self.wf(),
        ensures
            exists|i: int|
                #[trigger] is_best(self.agents@, i) && r.0.close_to(&self.agents@[i].brain, 0) && r.1
                    == self.agents@[i].game.body@.len(),
            brain_fits(&r.0),
    {
        let b = self.best_index();
        assert(self.agents@[b as int].wf());
        let net = self.agents[b].brain.copy();
        let score = self.agents[b].game.score();
        let ghost bs = self.agents@[b as int].brain.shape();
        assert(net.shape()[0] == net.width(0) && bs[0] == self.agents@[b as int].brain.width(0));
        let ghost k = net.layers@.len() as int;
        assert(net.shape()[k] == net.width(k));
        assert(bs[k] == self.agents@[b as int].brain.width(k));
        (net, score)
    }

    /// Of agents `i` and `j`, the fitter one; `i` when they are equal.
    pub fn fitter(&self, i: usize, j: usize) -> (r: usize)
        requires
            i < self.agents@.len(),
            j < self.agents@.len(),
        ensures
            fit(self.agents@[i as int]) >= fit(self.agents@[j as int]) ==> r == i,
            fit(self.agents@[i as int]) < fit(self.agents@[j as int]) ==> r == j,
    {
        if self.agents[i].fitness() >= self.agents[j].fitness() {
            i
        } else {
            j
        }
    }

    /// A parent for the next generation: the fitter of two agents drawn at random.
    fn pick_parent(&self) -> (r: usize)
        requires
            self.agents@.len() >= 1,
            self.agents@.len() <= i64::MAX,
        ensures
            r < self.agents@.len(),
    {
        let n = self.agents.len();
        let i = random_between(0, (n - 1) as i64) as usize;
        let j = random_between(0, (n - 1) as i64) as usize;
        self.fitter(i, j)
    }

    /// Builds the next generation, of the same size, in fresh games: the
    /// best network carries over unchanged; every other child crosses two
    /// parents, each the fitter of two random agents, and is then mutated.
    pub fn reset(&mut self)
        requires
            old(self).wf(),
            old(self).agents@.len() <= i64::MAX,
        ensures
            next_generation(*old(self), *final(self)),
    {
        let n = self.agents.len();
        let ghost sh = self.agents@[0].brain.shape();
        let b = self.best_index();
        assert(self.agents@[b as int].wf());
        let elite = self.agents[b].brain.copy();
        let mut next: Vec<Agent> = Vec::new();
        assert(elite.shape()[0] == elite.width(0));
        assert(self.agents@[b as int].brain.shape()[0] == self.agents@[b as int].brain.width(0));
        let ghost k = elite.layers@.len() as int;
        assert(elite.shape()[k] == elite.width(k));
        assert(self.agents@[b as int].brain.shape()[k] == self.agents@[b as int].brain.width(k));
        next.push(Agent::with_brain(elite));
        while next.len() < n
            invariant
                self.wf(),
                n == self.agents@.len(),
                n <= i64::MAX,
                sh == self.agents@[0].brain.shape(),
                is_best(self.agents@, b as int),
                1 <= next@.len() <= n,
                next@[0].brain.close_to(&self.agents@[b as int].brain, 0),
                forall|q: int| 0 <= q < next@.len() ==> (#[trigger] next@[q]).wf(),
                forall|q: int| 0 <= q < next@.len() ==> (#[trigger] next@[q]).brain.shape() == sh,
                forall|q: int| 0 <= q < next@.len() ==> fresh_game((#[trigger] next@[q]).game),
                forall|q: int|
                    1 <= q < next@.len() ==> bred(
                        (#[trigger] next@[q]).brain,
                        self.agents@,
                        self.mutation_rate,
                        self.mutation_magnitude,
                    ),
            decreases n - next@.len(),
        {
            let p1 = self.pick_parent();
            let p2 = self.pick_parent();
            assert(self.agents@[p1 as int].wf() && self.agents@[p2 as int].wf());
            assert(self.agents@[p1 as int].brain.shape() == sh);
            assert(self.agents@[p2 as int].brain.shape() == sh);
            let mut child = self.agents[p1].brain.merge(&self.agents[p2].brain);
            let ghost mixed = child;
            child.mutate(self.mutation_rate, self.mutation_magnitude);
            assert(mixed.mix_of(&self.agents@[p1 as int].brain, &self.agents@[p2 as int].brain));
            assert(bred(child, self.agents@, self.mutation_rate, self.mutation_magnitude));
            let ghost c = child;
            let ghost pb = self.agents@[p1 as int].brain;
            let ghost kk = c.layers@.len() as int;
            assert(c.shape()[0] == c.width(0) && pb.shape()[0] == pb.width(0));
            assert(c.shape()[kk] == c.width(kk) && pb.shape()[kk] == pb.width(kk));
            next.push(Agent::with_brain(child));
        }
        assert(next@[0].brain.shape() == sh);
        let ghost before = *self;
        self.agents = next;
        assert(is_best(before.agents@, b as int));
    }
}

proof fn lemma_alive_prefix(s: Seq<Agent>, p: Seq<Agent>, k: int)
    requires
        0 <= k,
        s.len() == k + 1,
        s.subrange(0, k) == p,
    ensures
        alive_count(s, k + 1) == alive_count(p, k) + if s[k].game.is_dead { 0int } else { 1 },
{
    lemma_alive_same(s, p, k);
}

proof fn lemma_alive_same(s: Seq<Agent>, p: Seq<Agent>, m: int)
    requires
        0 <= m <= p.len(),
        m <= s.len(),
        forall|i: int| 0 <= i < m ==> s[i] == p[i],
    ensures
        alive_count(s, m) == alive_count(p, m),
    decreases m,
{
    if m > 0 {
        lemma_alive_same(s, p, m - 1);
    }
}

} // verus!
