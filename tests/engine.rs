use snake_evo::agent::{fitness_of, fits_agent, Agent, MAX_RAY, NUM_STEPS, N_INPUTS};
use snake_evo::game::{FourDirs, Game, Point};
use snake_evo::nn::{Layer, Net, Node, MAX_PARAM, MAX_WIDTH, SCALE};
use snake_evo::pop::Population;
use snake_evo::sim::Simulation;

fn node(weights: Vec<i64>, bias: i64) -> Node {
    Node { weights, bias }
}

fn all_scalars(n: &Net) -> Vec<i64> {
    let mut out = Vec::new();
    for l in &n.layers {
        for nd in &l.nodes {
            out.extend(nd.weights.iter().copied());
            out.push(nd.bias);
        }
    }
    out
}

fn shape(n: &Net) -> Vec<usize> {
    let mut s = vec![n.n_inputs];
    for l in &n.layers {
        s.push(l.nodes.len());
    }
    s
}

/// A network for agents whose every weight and bias is zero.
fn zero_brain() -> Net {
    let sizes = [24usize, 16, 8, 4];
    let mut layers = Vec::new();
    for w in sizes.windows(2) {
        let nodes = (0..w[1]).map(|_| node(vec![0; w[0]], 0)).collect();
        layers.push(Layer { nodes });
    }
    Net { n_inputs: 24, layers }
}

fn quiet_game(head: Point, body: Vec<Point>, dir: FourDirs, food: Point) -> Game {
    Game {
        width: 20,
        height: 20,
        head,
        body,
        food,
        dir,
        is_dead: false,
        no_food_steps: 0,
        total_steps: 0,
    }
}

#[test]
fn fitness_floor_for_single_cell() {
    assert_eq!(fitness_of(1, 0), 10);
    assert_eq!(fitness_of(1, 12345), 10);
    assert_eq!(fitness_of(0, 7), 10);
}

#[test]
fn fitness_exponential_branch() {
    // 2^4 * 4 * 10 * 0.1 = 64.0
    assert_eq!(fitness_of(4, 10), 640);
    // 2^2 * 2 * 3 * 0.1 = 2.4
    assert_eq!(fitness_of(2, 3), 24);
}

#[test]
fn fitness_cubic_branch() {
    // 6^3 * 10 * 0.1 = 216.0
    assert_eq!(fitness_of(6, 10), 2160);
    // beats the exponential formula at the boundary score of five
    for steps in [1usize, 10, 100, 1000] {
        assert!(fitness_of(6, steps) > 32 * 5 * steps as u128);
    }
    assert_eq!(fitness_of(5, 0), 0);
}

#[test]
fn fitness_saturates() {
    assert_eq!(fitness_of(usize::MAX, usize::MAX), u128::MAX);
}

#[test]
fn new_network_has_declared_shape() {
    let n = Net::new(&[3, 5, 2]);
    assert!(n.is_well_formed());
    assert_eq!(shape(&n), vec![3, 5, 2]);
    for s in all_scalars(&n) {
        assert!(-SCALE <= s && s <= SCALE);
    }
    // the draws are not a constant
    let big = Net::new(&[30, 30, 4]);
    let vals = all_scalars(&big);
    assert!(vals.iter().any(|&v| v != vals[0]));
}

#[test]
fn predict_width_and_relu_floor() {
    let n = Net::new(&[4, 6, 3]);
    for x in [vec![0, 0, 0, 0], vec![SCALE, -SCALE, 2 * SCALE, 5], vec![i64::MAX; 4], vec![i64::MIN; 4]] {
        let out = n.predict(x);
        assert_eq!(out.len(), 3);
        assert!(out.iter().all(|&v| v >= 0));
    }
}

#[test]
fn predict_exact_values() {
    let net = Net {
        n_inputs: 2,
        layers: vec![
            Layer {
                nodes: vec![node(vec![SCALE, -SCALE], 0), node(vec![-SCALE, 0], SCALE / 2)],
            },
            Layer { nodes: vec![node(vec![2 * SCALE, SCALE], -SCALE / 4)] },
        ],
    };
    assert!(net.is_well_formed());
    // layer 1: relu(2 - 1) = 1.0, relu(0.5 - 2) = 0; layer 2: relu(2*1 + 0 - 0.25) = 1.75
    assert_eq!(net.predict(vec![2 * SCALE, SCALE]), vec![1_750_000]);
    // layer 1: relu(-3) = 0, relu(0.5) = 0.5; layer 2: relu(0 + 0.5 - 0.25) = 0.25
    assert_eq!(net.predict(vec![0, 3 * SCALE]), vec![250_000]);
}

#[test]
fn predict_has_no_cap_below_i64() {
    // weight 1.0, bias 1.0, input 1000.0: relu(1001.0)
    let net = Net { n_inputs: 1, layers: vec![Layer { nodes: vec![node(vec![SCALE], SCALE)] }] };
    assert_eq!(net.predict(vec![1000 * SCALE]), vec![1001 * SCALE]);
    // far above any earlier bound, still exact
    let big = Net { n_inputs: 1, layers: vec![Layer { nodes: vec![node(vec![MAX_PARAM], 0)] }] };
    assert_eq!(big.predict(vec![1_000_000]), vec![1_000_000_000_000]);
    // only what no i64 holds saturates
    assert_eq!(big.predict(vec![i64::MAX]), vec![i64::MAX]);
    let neg = Net { n_inputs: 1, layers: vec![Layer { nodes: vec![node(vec![-SCALE], 0)] }] };
    assert_eq!(neg.predict(vec![SCALE]), vec![0]);
    assert!(MAX_WIDTH >= 1_000_000);
}

#[test]
fn merge_picks_each_scalar_from_a_parent() {
    let a = Net::new(&[20, 20, 20]);
    let b = Net::new(&[20, 20, 20]);
    let c = a.merge(&b);
    assert_eq!(shape(&c), shape(&a));
    let (va, vb, vc) = (all_scalars(&a), all_scalars(&b), all_scalars(&c));
    let mut from_a = 0;
    let mut from_b = 0;
    for i in 0..vc.len() {
        assert!(vc[i] == va[i] || vc[i] == vb[i]);
        if vc[i] == va[i] && va[i] != vb[i] {
            from_a += 1;
        }
        if vc[i] == vb[i] && va[i] != vb[i] {
            from_b += 1;
        }
    }
    assert!(from_a > 0 && from_b > 0);
}

#[test]
fn mutate_rate_zero_is_noop() {
    let mut n = Net::new(&[5, 4, 3]);
    let before = all_scalars(&n);
    n.mutate(0, SCALE / 10);
    assert_eq!(all_scalars(&n), before);
    n.mutate(0, -7);
    assert_eq!(all_scalars(&n), before);
}

#[test]
fn mutate_rate_one_stays_within_magnitude() {
    let mut n = Net::new(&[8, 8, 4]);
    let before = all_scalars(&n);
    let m = SCALE / 10;
    n.mutate(SCALE, m);
    let after = all_scalars(&n);
    assert_eq!(shape(&n), vec![8, 8, 4]);
    let mut changed = false;
    for i in 0..before.len() {
        assert!((after[i] - before[i]).abs() <= m);
        changed |= after[i] != before[i];
    }
    assert!(changed);
}

#[test]
fn get_bias_reads_layer() {
    let net = Net {
        n_inputs: 1,
        layers: vec![Layer { nodes: vec![node(vec![0], 3), node(vec![0], -4)] }],
    };
    assert_eq!(net.get_bias(0), vec![3, -4]);
}

#[test]
fn copy_is_equal_and_independent() {
    let a = Net::new(&[3, 3, 2]);
    let mut b = a.copy();
    assert_eq!(all_scalars(&a), all_scalars(&b));
    b.mutate(SCALE, SCALE);
    assert_eq!(shape(&a), shape(&b));
}

#[test]
fn well_formedness_check() {
    let mut n = Net::new(&[3, 2]);
    assert!(n.is_well_formed());
    n.layers[0].nodes[0].weights.pop();
    assert!(!n.is_well_formed());
    assert!(fits_agent(&Net::new(&[24, 5, 4])));
    assert!(!fits_agent(&Net::new(&[24, 5, 3])));
    assert!(!fits_agent(&Net::new(&[23, 5, 4])));
}

#[test]
fn perception_width_and_one_hot_segments() {
    let head = Point::new(10, 10);
    let body = vec![head, Point::new(9, 10), Point::new(8, 10)];
    let game = quiet_game(head, body, FourDirs::Right, Point::new(10, 3));
    let a = Agent { game, brain: zero_brain() };
    let v = a.get_brain_input();
    assert_eq!(v.len(), N_INPUTS);
    for seg in [&v[16..20], &v[20..24]] {
        assert_eq!(seg.iter().filter(|&&x| x == SCALE).count(), 1);
        assert_eq!(seg.iter().filter(|&&x| x == 0).count(), 3);
    }
    // head faces right; tail segment (8,10) points right towards (9,10)
    assert_eq!(&v[16..20], &[0, SCALE, 0, 0]);
    assert_eq!(&v[20..24], &[0, SCALE, 0, 0]);
    // ray up: cells y = 10..=0 are free, food on it
    assert_eq!(v[0], SCALE / 11);
    assert_eq!(v[1], SCALE);
    // ray right: x = 10..=19 free
    assert_eq!(v[4], SCALE / 10);
    assert_eq!(v[5], 0);
    // ray left: the body at (9,10) is one step away
    assert_eq!(v[12], SCALE);
    assert_eq!(v[13], 0);
}

#[test]
fn tail_defaults_to_head_direction() {
    let head = Point::new(3, 4);
    let game = quiet_game(head, vec![head], FourDirs::Top, Point::new(0, 0));
    let a = Agent { game, brain: zero_brain() };
    let v = a.get_brain_input();
    assert_eq!(&v[16..20], &[0, 0, 0, SCALE]);
    assert_eq!(&v[20..24], &[0, 0, 0, SCALE]);
}

#[test]
fn ray_cap_on_large_board() {
    let head = Point::new(0, 0);
    let mut game = quiet_game(head, vec![head], FourDirs::Right, Point::new(5, 5));
    game.width = 1000;
    game.height = 1000;
    let a = Agent { game, brain: zero_brain() };
    let v = a.get_brain_input();
    // 1000 free cells to the right
    assert_eq!(v[4], SCALE / 1000);
    // down-right diagonal meets the food
    assert_eq!(v[7], SCALE);
    assert!(MAX_RAY == 1000);
}

#[test]
fn equal_outputs_pick_left() {
    let head = Point::new(10, 10);
    let game = quiet_game(head, vec![head], FourDirs::Bottom, Point::new(1, 1));
    let a = Agent { game, brain: zero_brain() };
    assert_eq!(a.get_brain_output(), FourDirs::Left);
}

#[test]
fn largest_output_wins() {
    let mut brain = zero_brain();
    // last layer: node for Top has bias 0.5, Bottom 0.25
    brain.layers[2].nodes[3].bias = SCALE / 2;
    brain.layers[2].nodes[2].bias = SCALE / 4;
    let head = Point::new(10, 10);
    let game = quiet_game(head, vec![head], FourDirs::Left, Point::new(1, 1));
    let a = Agent { game, brain };
    assert_eq!(a.get_brain_output(), FourDirs::Top);
}

#[test]
fn step_limit_by_score() {
    let head = Point::new(10, 10);
    let mut a = Agent { game: quiet_game(head, vec![head], FourDirs::Left, Point::new(1, 1)), brain: zero_brain() };
    assert_eq!(a.get_step_limit(), NUM_STEPS);
    a.game.body = vec![head; 6];
    assert_eq!(a.get_step_limit(), NUM_STEPS * 2);
    a.game.body = vec![head; 21];
    assert_eq!(a.get_step_limit(), NUM_STEPS * 3);
    a.game.body = vec![head; 31];
    assert_eq!(a.get_step_limit(), NUM_STEPS * 6);
    a.game.body = vec![head; 5];
    assert_eq!(a.get_step_limit(), NUM_STEPS);
}

#[test]
fn agent_fitness_uses_body_and_steps() {
    let head = Point::new(10, 10);
    let mut a = Agent { game: quiet_game(head, vec![head; 4], FourDirs::Left, Point::new(1, 1)), brain: zero_brain() };
    a.game.total_steps = 10;
    assert_eq!(a.fitness(), 640);
}

#[test]
fn dead_agent_does_not_move() {
    let head = Point::new(10, 10);
    let mut a = Agent { game: quiet_game(head, vec![head], FourDirs::Left, Point::new(1, 1)), brain: zero_brain() };
    a.game.is_dead = true;
    assert!(!a.update());
    assert_eq!(a.game.head, head);
    assert_eq!(a.game.total_steps, 0);
}

#[test]
fn agent_plays_brain_choice_and_hits_step_budget() {
    let head = Point::new(10, 10);
    let mut a = Agent { game: quiet_game(head, vec![head], FourDirs::Top, Point::new(1, 1)), brain: zero_brain() };
    a.game.no_food_steps = NUM_STEPS - 1;
    // all outputs equal: Left is played, then the budget runs out
    assert!(!a.update());
    assert_eq!(a.game.dir, FourDirs::Left);
    assert_eq!(a.game.head, Point::new(9, 10));
    assert!(a.game.is_dead);
    assert_eq!(a.game.total_steps, 1);
}

#[test]
fn game_grows_on_food_and_dies_on_wall() {
    let head = Point::new(1, 5);
    let mut g = quiet_game(head, vec![head], FourDirs::Left, Point::new(0, 5));
    g.update(FourDirs::Left);
    assert!(!g.is_dead);
    assert_eq!(g.body, vec![Point::new(0, 5), Point::new(1, 5)]);
    assert_eq!(g.score(), 2);
    assert_eq!(g.no_food_steps, 0);
    g.update(FourDirs::Left);
    assert!(g.is_dead);
    assert_eq!(g.head, Point::new(0, 5));
    assert_eq!(g.total_steps, 2);
}

#[test]
fn game_tail_follows() {
    let head = Point::new(5, 5);
    let mut g = quiet_game(head, vec![head, Point::new(5, 6)], FourDirs::Top, Point::new(0, 0));
    g.update(FourDirs::Top);
    assert_eq!(g.body, vec![Point::new(5, 4), Point::new(5, 5)]);
    assert_eq!(g.no_food_steps, 1);
    assert!(g.is_wall(Point::new(-1, 0)));
    assert!(g.is_snake_body(Point::new(5, 5)));
    assert!(!g.is_snake_body(Point::new(5, 4)));
}

#[test]
fn fresh_game() {
    let g = Game::new();
    assert!(!g.is_dead);
    assert_eq!(g.body.len(), 1);
    assert!(g.food.x >= 0 && g.food.x < g.width && g.food.y >= 0 && g.food.y < g.height);
}

#[test]
fn population_keeps_size_and_counts_alive() {
    let mut p = Population::new(10, None);
    assert_eq!(p.agents.len(), 10);
    let alive = p.update();
    assert_eq!(alive, p.agents.iter().filter(|a| !a.game.is_dead).count());
    let mut guard = 0;
    while p.update() > 0 {
        guard += 1;
        assert!(guard < 100_000);
    }
    let (best, score) = p.get_gen_summary();
    let top = p.agents.iter().map(|a| a.fitness()).max().unwrap();
    let b = p.best_index();
    assert_eq!(p.agents[b].fitness(), top);
    assert_eq!(score, p.agents[b].game.body.len());
    assert_eq!(all_scalars(&best), all_scalars(&p.agents[b].brain));
    let elite = all_scalars(&p.agents[b].brain);
    p.reset();
    assert_eq!(p.agents.len(), 10);
    assert!(p.agents.iter().all(|a| !a.game.is_dead && a.game.total_steps == 0));
    assert_eq!(all_scalars(&p.agents[0].brain), elite);
}

#[test]
fn population_from_loaded_network() {
    let net = zero_brain();
    let p = Population::new(3, Some(&net));
    for a in &p.agents {
        assert_eq!(all_scalars(&a.brain), all_scalars(&net));
    }
}

#[test]
fn fitter_prefers_first_on_tie() {
    let mut p = Population::new(2, None);
    assert_eq!(p.fitter(0, 1), 0);
    p.agents[1].game.body = vec![p.agents[1].game.head; 3];
    p.agents[1].game.total_steps = 5;
    assert_eq!(p.fitter(0, 1), 1);
    assert_eq!(p.fitter(1, 0), 1);
}

#[test]
fn simulation_rolls_over_and_tracks_best() {
    let mut sim = Simulation::new(None);
    assert_eq!(sim.gen_count, 0);
    let mut ends = 0;
    let mut guard = 0;
    while ends < 2 {
        guard += 1;
        assert!(guard < 200_000);
        if let Some(end) = sim.update() {
            assert_eq!(end.gen_count, ends);
            assert!(end.sim_max_score >= end.gen_max_score);
            if end.champion.is_some() {
                assert_eq!(end.sim_max_score, end.gen_max_score);
            }
            if ends == 0 {
                assert!(end.champion.is_some());
            }
            ends += 1;
        }
    }
    assert_eq!(sim.gen_count, 2);
}

#[test]
fn end_of_generation_reports_champion_once() {
    let mut sim = Simulation::new(None);
    let first = sim.end_current_genration();
    assert_eq!(first.gen_count, 0);
    assert!(first.gen_max_score >= 1);
    assert!(first.champion.is_some());
    assert_eq!(sim.max_score, first.gen_max_score);
    let second = sim.end_current_genration();
    assert!(second.champion.is_none());
    assert_eq!(second.sim_max_score, first.gen_max_score);
    sim.start_new_generation();
    assert_eq!(sim.gen_count, 1);
}

#[test]
fn agents_compare_by_fitness() {
    let head = Point::new(10, 10);
    let a = Agent { game: quiet_game(head, vec![head], FourDirs::Left, Point::new(1, 1)), brain: zero_brain() };
    let mut other = quiet_game(Point::new(2, 2), vec![Point::new(2, 2)], FourDirs::Top, Point::new(5, 5));
    other.total_steps = 40;
    let b = Agent { game: other, brain: Net::new(&[24, 4]) };
    // both sit on the floor of 1.0, whatever else differs
    assert!(a == b);
    let mut c = Agent { game: quiet_game(head, vec![head; 2], FourDirs::Left, Point::new(1, 1)), brain: zero_brain() };
    c.game.total_steps = 3;
    assert!(a < c);
    assert_eq!(c.partial_cmp(&a), Some(std::cmp::Ordering::Greater));
}

fn mask<T: Clone>(n: &Net, v: T) -> Vec<Vec<Vec<T>>> {
    n.layers
        .iter()
        .map(|l| l.nodes.iter().map(|nd| vec![v.clone(); nd.weights.len() + 1]).collect())
        .collect()
}

#[test]
fn merge_with_follows_picks() {
    let a = Net::new(&[3, 4, 2]);
    let b = Net::new(&[3, 4, 2]);
    assert_eq!(all_scalars(&a.merge_with(&b, &mask(&a, true))), all_scalars(&a));
    assert_eq!(all_scalars(&a.merge_with(&b, &mask(&a, false))), all_scalars(&b));
    let mut picks = mask(&a, true);
    picks[1][0][4] = false; // bias of the first output node
    picks[0][2][1] = false; // second weight of the third hidden node
    let c = a.merge_with(&b, &picks);
    assert_eq!(c.layers[1].nodes[0].bias, b.layers[1].nodes[0].bias);
    assert_eq!(c.layers[0].nodes[2].weights[1], b.layers[0].nodes[2].weights[1]);
    assert_eq!(c.layers[0].nodes[2].weights[0], a.layers[0].nodes[2].weights[0]);
    assert_eq!(c.layers[1].nodes[1].bias, a.layers[1].nodes[1].bias);
}

#[test]
fn mutate_with_adds_and_clamps() {
    let mut n = Net::new(&[2, 2]);
    let before = all_scalars(&n);
    n.mutate_with(&mask(&n, 7));
    let after = all_scalars(&n);
    for i in 0..before.len() {
        assert_eq!(after[i], before[i] + 7);
    }
    n.mutate_with(&mask(&n, i64::MAX));
    assert!(all_scalars(&n).iter().all(|&v| v == MAX_PARAM));
    n.mutate_with(&mask(&n, i64::MIN));
    assert!(all_scalars(&n).iter().all(|&v| v == -MAX_PARAM));
}

#[test]
fn default_agent_architecture() {
    let a = Agent::new(None);
    assert_eq!(shape(&a.brain), vec![24, 16, 8, 4]);
    assert!(all_scalars(&a.brain).iter().all(|&v| -SCALE <= v && v <= SCALE));
    assert!(!a.game.is_dead);
    assert_eq!(a.game.body.len(), 1);
    assert_eq!(a.game.total_steps, 0);
    assert_eq!(a.game.no_food_steps, 0);
    let loaded = Agent::new(Some(zero_brain()));
    assert_eq!(all_scalars(&loaded.brain), all_scalars(&zero_brain()));
}

#[test]
fn first_generation_brains_are_independent() {
    let p = Population::new(3, None);
    assert_ne!(all_scalars(&p.agents[0].brain), all_scalars(&p.agents[1].brain));
    assert!(p.agents.iter().all(|a| shape(&a.brain) == vec![24, 16, 8, 4]));
}
