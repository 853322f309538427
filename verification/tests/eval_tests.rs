use card_solver::def::{Card, Input, Param, Project, State};
use card_solver::num::Util;
use card_solver::solver::{montecarlo_window, Solver};

fn solver_with(cards: Vec<Card>, projects: Vec<Project>, score: i64, invest_level: usize) -> Solver {
    Solver {
        state: State { last_invest_round: 0, invest_level, score, cards, projects },
        param: Param::default(),
    }
}

#[test]
fn work_single_end_to_end_scenario() {
    // A single project (10, 100) and a hand holding one WorkSingle(10):
    // playing it has no overflow, so the utility is the full work amount
    // (scaled), aimed at the only project.
    let s = solver_with(
        vec![Card::WorkSingle(10), Card::Empty, Card::Empty],
        vec![Project { h: 10, v: 100 }],
        0,
        0,
    );
    let (u, m) = s.eval(&Card::WorkSingle(10), 0, 0, false);
    assert_eq!(u, Util::Fin(10_000));
    assert_eq!(m, 0);
    let (card_idx, target) = s.select_use_card(0);
    assert_eq!(card_idx, 0);
    assert_eq!(target, 0);
}

#[test]
fn work_single_utility_monotone_below_threshold() {
    let s = solver_with(vec![Card::Empty], vec![Project { h: 10, v: 100 }], 0, 0);
    let (u5, _) = s.eval(&Card::WorkSingle(5), 0, 0, false);
    let (u7, _) = s.eval(&Card::WorkSingle(7), 0, 0, false);
    assert_eq!(u5, Util::Fin(5_000));
    assert_eq!(u7, Util::Fin(7_000));
    assert!(u5.le(&u7));
}

#[test]
fn work_single_utility_decreasing_past_threshold() {
    // Overflow weight 2 per unit beats the 1 point a unit of work earns.
    let s = solver_with(vec![Card::Empty], vec![Project { h: 10, v: 100 }], 0, 0);
    let (u12, _) = s.eval(&Card::WorkSingle(12), 0, 0, false);
    let (u15, _) = s.eval(&Card::WorkSingle(15), 0, 0, false);
    assert_eq!(u12, Util::Fin(8_000));
    assert_eq!(u15, Util::Fin(5_000));
    assert!(u15.lt(&u12));
}

#[test]
fn unaffordable_card_is_negative_infinity() {
    let s = solver_with(vec![Card::Empty], vec![Project { h: 10, v: 100 }], 10, 0);
    let (u, m) = s.eval(&Card::WorkSingle(4), 11, 0, false);
    assert_eq!(u, Util::NegInf);
    assert_eq!(m, 0);
    assert_eq!(s.eval_refill(&Card::WorkSingle(4), 11, 0), Util::NegInf);
}

#[test]
fn feasibility_gate_rejects_unreachable_target() {
    // On the last turn with almost no money left, a huge project cannot be
    // finished: a priced work card aimed there is worthless.
    let s = solver_with(vec![Card::Empty], vec![Project { h: 1_000_000, v: 50 }], 5, 0);
    assert_eq!(s.remain_w(999, 1), 4);
    let (u, m) = s.eval(&Card::WorkSingle(1), 1, 999, true);
    assert_eq!(u, Util::NegInf);
    assert_eq!(m, 0);
}

#[test]
fn work_all_counts_feasible_projects_and_overflow() {
    let s = solver_with(
        vec![Card::Empty],
        vec![Project { h: 5, v: 10 }, Project { h: 20, v: 30 }],
        0,
        0,
    );
    let (u, m) = s.eval(&Card::WorkAll(10), 0, 0, false);
    // both projects fit the budget; overflow of 5 on the small one
    assert_eq!(u, Util::Fin(10_000));
    assert_eq!(m, 0);
}

#[test]
fn cancel_single_picks_worst_project() {
    let s = solver_with(
        vec![Card::Empty],
        vec![Project { h: 10, v: 100 }, Project { h: 10, v: 1 }],
        0,
        0,
    );
    let (u, m) = s.eval(&Card::CancelSingle, 0, 0, false);
    assert_eq!(m, 1);
    assert_eq!(u, Util::Fin(10 * 5_000 - 1_000));
}

#[test]
fn cancel_disabled_at_cutoff_exactly() {
    // At the cutoff turn the utility is negative infinity; one turn before
    // it equals the finite sum formula.
    let s = solver_with(
        vec![Card::Empty],
        vec![Project { h: 10, v: 100 }, Project { h: 3, v: 1 }],
        50,
        0,
    );
    let (u_at, _) = s.eval(&Card::CancelAll, 2, 960, false);
    assert_eq!(u_at, Util::NegInf);
    let (u_single_at, _) = s.eval(&Card::CancelSingle, 2, 960, false);
    assert_eq!(u_single_at, Util::NegInf);
    let (u_before, _) = s.eval(&Card::CancelAll, 2, 959, false);
    // (10*5 - 100) + (3*5 - 1) - 2, in fixed-point thousandths
    assert_eq!(u_before, Util::Fin(-38_000));
}

#[test]
fn invest_reaching_max_level_is_forced() {
    // investLevel 19 and one investment card in hand: applying it reaches
    // the maximum, so play-mode evaluation returns positive infinity.
    let s = solver_with(
        vec![Card::Invest, Card::WorkSingle(1)],
        vec![Project { h: 10, v: 100 }],
        10,
        19,
    );
    let (u, _) = s.eval(&Card::Invest, 5, 0, false);
    assert_eq!(u, Util::PosInf);
}

#[test]
fn invest_at_max_level_is_worthless() {
    let s = solver_with(vec![Card::Invest], vec![Project { h: 10, v: 100 }], 10, 20);
    let (u, _) = s.eval(&Card::Invest, 0, 0, false);
    assert_eq!(u, Util::NegInf);
}

#[test]
fn forced_invest_when_whole_hand_is_invest() {
    let s = solver_with(
        vec![Card::Invest, Card::Invest],
        vec![Project { h: 10, v: 100 }],
        0,
        0,
    );
    let (u, _) = s.eval(&Card::Invest, 0, 3, false);
    assert_eq!(u, Util::PosInf);
    let (card_idx, _) = s.select_use_card(3);
    assert_eq!(s.state.cards[card_idx], Card::Invest);
}

#[test]
fn refill_invest_return_on_investment_test() {
    let s = solver_with(
        vec![Card::WorkSingle(1), Card::WorkSingle(2)],
        vec![Project { h: 10, v: 100 }],
        1000,
        0,
    );
    // cheap relative to the doubling payoff: price 400 < threshold 500 and
    // the score covers 1.5 times the price
    assert_eq!(s.eval_refill(&Card::Invest, 400, 0), Util::PosInf);
    // too expensive: discounted price 600 is not under the threshold
    assert_eq!(s.eval_refill(&Card::Invest, 600, 0), Util::NegInf);
    // past the investment cutoff turn nothing is acquired
    assert_eq!(s.eval_refill(&Card::Invest, 400, 900), Util::NegInf);
    // one level short of the maximum: always acquire
    let s19 = solver_with(
        vec![Card::WorkSingle(1), Card::WorkSingle(2)],
        vec![Project { h: 10, v: 100 }],
        1000,
        19,
    );
    assert_eq!(s19.eval_refill(&Card::Invest, 600, 0), Util::PosInf);
}

#[test]
fn selection_breaks_ties_by_lowest_index() {
    let s = solver_with(
        vec![Card::WorkSingle(5), Card::WorkSingle(5)],
        vec![Project { h: 10, v: 100 }],
        0,
        0,
    );
    let (card_idx, _) = s.select_use_card(0);
    assert_eq!(card_idx, 0);
}

#[test]
fn selection_is_deterministic() {
    let s = solver_with(
        vec![Card::WorkSingle(5), Card::CancelAll, Card::Invest],
        vec![Project { h: 10, v: 100 }, Project { h: 4, v: 2 }],
        25,
        1,
    );
    let first = s.select_use_card(17);
    let second = s.select_use_card(17);
    assert_eq!(first, second);
    let offers = vec![(Card::WorkSingle(5), 3i64), (Card::WorkSingle(7), 3i64)];
    assert_eq!(s.select_new_card(&offers, 17), s.select_new_card(&offers, 17));
}

#[test]
fn select_new_card_prefers_higher_utility() {
    let s = solver_with(vec![Card::Empty], vec![Project { h: 10, v: 100 }], 100, 0);
    let offers = vec![(Card::WorkSingle(5), 0i64), (Card::WorkSingle(7), 0i64)];
    assert_eq!(s.select_new_card(&offers, 0), 1);
}

#[test]
fn degenerate_all_negative_still_returns_first_index() {
    // every offer unaffordable: the refill decision must still name a card
    let s = solver_with(vec![Card::Empty], vec![Project { h: 10, v: 100 }], 0, 0);
    let offers = vec![(Card::WorkSingle(5), 10i64), (Card::WorkSingle(7), 10i64)];
    assert_eq!(s.select_new_card(&offers, 0), 0);
}

#[test]
fn monte_carlo_scores_skip_unaffordable_and_take_last_max() {
    let s = solver_with(vec![Card::Empty], vec![Project { h: 10, v: 100 }], 50, 0);
    let offers = vec![
        (Card::WorkSingle(1), 0i64),
        (Card::WorkSingle(2), 0i64),
        (Card::WorkSingle(3), 100i64),
        (Card::WorkSingle(4), 0i64),
    ];
    let scores = vec![5i64, 9, 9, 3];
    assert_eq!(s.select_refill_by_scores(&scores, &offers), 1);
    let tied = vec![7i64, 7, 7, 7];
    assert_eq!(s.select_refill_by_scores(&tied, &offers), 3);
}

#[test]
fn remain_w_scales_turns_by_investment_level() {
    // two turns short of the horizon at level 2: 2 * 4 work units plus the
    // score left after paying the price
    let s = solver_with(vec![Card::Empty], vec![Project { h: 10, v: 100 }], 30, 2);
    assert_eq!(s.remain_w(997, 10), 2 * 4 + 20);
}

#[test]
fn late_horizon_window_bounds() {
    let pm = Param::default();
    let input = Input { n: 5, m: 3, k: 4, t: 1000 };
    assert!(!montecarlo_window(&pm, &input, 989));
    assert!(montecarlo_window(&pm, &input, 990));
    assert!(montecarlo_window(&pm, &input, 998));
    assert!(!montecarlo_window(&pm, &input, 999));
}
