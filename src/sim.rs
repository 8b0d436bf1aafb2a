//! Drives a population from generation to generation and keeps the best
//! score seen so far.

use crate::agent::{brain_fits, fresh_game, random_brain};
use crate::game::bump;
use crate::nn::Net;
use crate::pop::{alive_count, is_best, next_generation, pop_tick, Population, POP_SIZE};
use vstd::prelude::*;

verus! {

/// What is known when a generation ends.
pub struct GenerationEnd {
    /// Index of the generation that ended.
    pub gen_count: usize,
    /// Best body length of that generation.
    pub gen_max_score: usize,
    /// Best body length of the whole run, this generation included.
    pub sim_max_score: usize,
    /// The generation's best network, when it beat every earlier generation.
    pub champion: Option<Net>,
}

pub struct Simulation {
    pub gen_count: usize,
    pub pop: Population,
    pub max_score: usize,
}

/// `r` reports the end of generation `gen`, played by `p`, when the best
/// score before it was `old_max`; `new_max` is the best score after it.
/// The reported score is that of the first fittest agent, and the champion,
/// handed over exactly when that score beats `old_max`, is a copy of its network.
pub open spec fn closes(p: Population, gen: usize, old_max: usize, r: GenerationEnd, new_max: usize) -> bool {
    &&& r.gen_count == gen
    &&& exists|i: int|
        #[trigger] is_best(p.agents@, i) && p.agents@[i].game.body@.len() == r.gen_max_score && (
        r.champion is Some ==> r.champion->0.close_to(&p.agents@[i].brain, 0))
    &&& new_max == if r.gen_max_score > old_max {
        r.gen_max_score
    } else {
        old_max
    }
    &&& r.sim_max_score == new_max
    &&& (r.champion is Some <==> r.gen_max_score > old_max)
    &&& r.champion is Some ==> brain_fits(&r.champion->0)
}

impl Simulation {
    pub open spec fn wf(&self) -> bool {
        &&& self.pop.wf()
        &&& self.pop.agents@.len() <= i64::MAX
    }

    /// A run at generation zero; the agents play copies of `loaded` where
    /// given, else random networks.
    pub fn new(loaded: Option<Net>) -> (r: Simulation)
        requires
            loaded is Some ==> brain_fits(&loaded->0),
        ensures
            r.wf(),
            r.gen_count == 0,
            r.max_score == 0,
            r.pop.agents@.len() == POP_SIZE,
            forall|i: int| 0 <= i < POP_SIZE ==> fresh_game((#[trigger] r.pop.agents@[i]).game),
            loaded is Some ==> forall|i: int|
                0 <= i < POP_SIZE ==> (#[trigger] r.pop.agents@[i]).brain.close_to(&loaded->0, 0),
            loaded is None ==> forall|i: int| 0 <= i < POP_SIZE ==> random_brain((#[trigger] r.pop.agents@[i]).brain),
    {
        let pop = match &loaded {
            Some(n) => Population::new(POP_SIZE, Some(n)),
            None => Population::new(POP_SIZE, None),
        };
        Simulation { gen_count: 0, pop, max_score: 0 }
    }

    /// One tick of every live agent; when none is left alive, the
    /// generation is closed and the next one started, and its report returned.
    pub fn update(&mut self) -> (r: Option<GenerationEnd>)
        requires
            old(self).wf(),
        ensures
            final(self).wf(),
            exists|p: Population|
                #[trigger] pop_tick(old(self).pop.agents@, p.agents@) && p.wf() && p.mutation_rate
                    == old(self).pop.mutation_rate && p.mutation_magnitude == old(self).pop.mutation_magnitude
                    && if alive_count(p.agents@, p.agents@.len() as int) == 0 {
                    &&& r is Some
                    &&& closes(p, old(self).gen_count, old(self).max_score, r->0, final(self).max_score)
                    &&& next_generation(p, final(self).pop)
                    &&& final(self).gen_count == bump(old(self).gen_count)
                } else {
                    &&& r is None
                    &&& final(self).pop == p
                    &&& final(self).gen_count == old(self).gen_count
                    &&& final(self).max_score == old(self).max_score
                },
    {
        let alive = self.pop.update();
        let ghost p = self.pop;
        assert(pop_tick(old(self).pop.agents@, p.agents@));
        if alive == 0 {
            let end = self.end_current_genration();
            self.start_new_generation();
            Some(end)
        } else {
            None
        }
    }

    /// Moves to the next generation: bumps the counter and breeds a new population.
    pub fn start_new_generation(&mut self)
        requires
            old(self).wf(),
        ensures
            final(self).wf(),
            final(self).max_score == old(self).max_score,
            final(self).gen_count == bump(old(self).gen_count),
            next_generation(old(self).pop, final(self).pop),
    {
        if self.gen_count < usize::MAX {
            self.gen_count = self.gen_count + 1;
        }
        self.pop.reset();
    }

    /// Closes the generation: reports its best score and, when that beats
    /// the best so far, raises the best and hands over the best network.
    pub fn end_current_genration(&mut self) -> (r: GenerationEnd)
        requires
            old(self).wf(),
        ensures
            final(self).wf(),
            final(self).pop == old(self).pop,
            final(self).gen_count == old(self).gen_count,
            closes(old(self).pop, old(self).gen_count, old(self).max_score, r, final(self).max_score),
    {
        let (best, gen_max_score) = self.pop.get_gen_summary();
        let champion = if gen_max_score > self.max_score {
            self.max_score = gen_max_score;
            Some(best)
        } else {
            None
        };
        GenerationEnd { gen_count: self.gen_count, gen_max_score, sim_max_score: self.max_score, champion }
    }
}

} // verus!
