use card_solver::def::{Card, Input, Param, Project, State};
use card_solver::simulator::{montecarlo, run_trial, SimFuture};
use rand::Rng;
use rand::SeedableRng;
use rand_chacha::ChaCha20Rng;

#[test]
fn future_from_samples_validates_and_prepends_free_card() {
    let f = SimFuture::from_samples(vec![(4, 7)], vec![vec![(2, 0, 3)]]).unwrap();
    assert_eq!(f.new_projects.len(), 1);
    assert_eq!(f.new_projects[0].h, 4);
    assert_eq!(f.new_projects[0].v, 7);
    assert_eq!(f.new_cards.len(), 1);
    assert_eq!(f.new_cards[0][0], (Card::WorkSingle(1), 0));
    assert_eq!(f.new_cards[0][1], (Card::CancelSingle, 3));

    // the empty-slot sentinel code is not a card the generator may produce
    assert!(SimFuture::from_samples(vec![], vec![vec![(5, 0, 3)]]).is_none());
    // out-of-range work on a labor card
    assert!(SimFuture::from_samples(vec![], vec![vec![(0, 5000, 3)]]).is_none());
    // a project must have positive remaining work
    assert!(SimFuture::from_samples(vec![(0, 7)], vec![]).is_none());
}

fn one_turn_setup() -> (State, Param, Input, Vec<(Card, i64)>) {
    let state = State {
        last_invest_round: 0,
        invest_level: 0,
        score: 0,
        cards: vec![Card::WorkSingle(10), Card::Empty],
        projects: vec![Project { h: 10, v: 100 }],
    };
    let param = Param::default();
    let input = Input { n: 2, m: 1, k: 1, t: 1 };
    let offers = vec![(Card::WorkSingle(1), 0i64)];
    (state, param, input, offers)
}

fn one_turn_future() -> SimFuture {
    SimFuture::from_samples(vec![(4, 7)], vec![vec![(2, 0, 3)]]).unwrap()
}

#[test]
fn single_playout_exact_final_score() {
    // One turn left: the agent plays WorkSingle(10) into the (10, 100)
    // project, completing it, and the final reported score is its reward.
    let (state, param, input, offers) = one_turn_setup();
    let score = run_trial(&state, &param, &input, 0, 0, &offers, one_turn_future());
    assert_eq!(score, 100);
}

#[test]
fn montecarlo_with_one_future_equals_single_playout() {
    let (state, param, input, offers) = one_turn_setup();
    let single = run_trial(&state, &param, &input, 0, 0, &offers, one_turn_future());
    let mean = montecarlo(vec![one_turn_future()], &state, &param, &input, 0, 0, &offers);
    assert_eq!(mean, single);
}

fn two_turn_setup() -> (State, Param, Input, Vec<(Card, i64)>) {
    let state = State {
        last_invest_round: 0,
        invest_level: 0,
        score: 100,
        cards: vec![Card::WorkSingle(8), Card::Empty],
        projects: vec![Project { h: 8, v: 50 }],
    };
    let param = Param::default();
    let input = Input { n: 2, m: 1, k: 1, t: 2 };
    let offers = vec![(Card::WorkSingle(8), 0i64)];
    (state, param, input, offers)
}

/// A future whose second replacement project carries reward `v`: the
/// playout completes it on the final turn, so the final score is 150 + v.
fn two_turn_future(v: i64) -> SimFuture {
    SimFuture::from_samples(vec![(1, 7), (1, v)], vec![vec![(2, 0, 10)], vec![(2, 0, 10)]])
        .unwrap()
}

#[test]
fn playout_score_tracks_replacement_reward() {
    let (state, param, input, offers) = two_turn_setup();
    let s0 = run_trial(&state, &param, &input, 0, 0, &offers, two_turn_future(0));
    let s9 = run_trial(&state, &param, &input, 0, 0, &offers, two_turn_future(9));
    assert_eq!(s0, 150);
    assert_eq!(s9, 159);
}

#[test]
fn montecarlo_mean_of_two_trials() {
    let (state, param, input, offers) = two_turn_setup();
    let futures = vec![two_turn_future(0), two_turn_future(9)];
    let mean = montecarlo(futures, &state, &param, &input, 0, 0, &offers);
    assert_eq!(mean, (150 + 159) / 2);
}

fn estimate(seed: u64, rounds: usize) -> i64 {
    let (state, param, input, offers) = two_turn_setup();
    let mut rng = ChaCha20Rng::seed_from_u64(seed);
    let mut futures = Vec::new();
    for _ in 0..rounds {
        let v = rng.gen_range(0..=1024i64);
        futures.push(two_turn_future(v));
    }
    montecarlo(futures, &state, &param, &input, 0, 0, &offers)
}

#[test]
fn more_rounds_narrow_the_estimate_spread() {
    // Repeated one-trial estimates scatter with the sampled rewards;
    // averaging twelve trials narrows the spread of repeated estimates.
    let seeds: Vec<u64> = vec![11, 23, 37, 41, 53, 67, 79, 83];
    let var = |rounds: usize| -> f64 {
        let xs: Vec<f64> = seeds.iter().map(|&s| estimate(s, rounds) as f64).collect();
        let mean = xs.iter().sum::<f64>() / xs.len() as f64;
        xs.iter().map(|x| (x - mean) * (x - mean)).sum::<f64>() / xs.len() as f64
    };
    let spread_one = var(1);
    let spread_many = var(12);
    assert!(spread_many < spread_one);
}
