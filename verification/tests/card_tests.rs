use card_solver::def::{Card, Project, Recorder, State};

fn sample_state() -> State {
    State {
        last_invest_round: 0,
        invest_level: 0,
        score: 0,
        cards: vec![Card::WorkSingle(3), Card::Empty, Card::Invest],
        projects: vec![Project { h: 10, v: 100 }],
    }
}

#[test]
fn from_tw_builds_every_type() {
    assert_eq!(Card::from_tw(0, 7), Card::WorkSingle(7));
    assert_eq!(Card::from_tw(1, 9), Card::WorkAll(9));
    assert_eq!(Card::from_tw(2, 0), Card::CancelSingle);
    assert_eq!(Card::from_tw(3, 0), Card::CancelAll);
    assert_eq!(Card::from_tw(4, 0), Card::Invest);
    assert_eq!(Card::from_tw(5, 0), Card::Empty);
}

#[test]
fn to_t_inverts_from_tw() {
    for t in 0..5usize {
        let c = Card::from_tw(t, 13);
        assert_eq!(c.to_t(), t);
    }
}

#[test]
fn empty_card_index_finds_first_empty_slot() {
    let s = sample_state();
    assert_eq!(s.empty_card_index(), Some(1));
    let full = State { cards: vec![Card::Invest, Card::CancelAll], ..sample_state() };
    assert_eq!(full.empty_card_index(), None);
}

#[test]
fn use_card_vacates_slot_and_raises_level_on_invest() {
    let mut s = sample_state();
    s.use_card(2, 5);
    assert_eq!(s.cards[2], Card::Empty);
    assert_eq!(s.invest_level, 1);
    assert_eq!(s.last_invest_round, 5);

    let mut s2 = sample_state();
    s2.use_card(0, 5);
    assert_eq!(s2.cards[0], Card::Empty);
    assert_eq!(s2.invest_level, 0);
    assert_eq!(s2.last_invest_round, 0);
}

#[test]
fn use_card_caps_invest_level_at_maximum() {
    let mut s = sample_state();
    s.invest_level = 20;
    s.use_card(2, 7);
    assert_eq!(s.invest_level, 20);
}

#[test]
fn refill_card_fills_first_empty_slot() {
    let mut s = sample_state();
    let offers = vec![(Card::WorkAll(4), 2i64), (Card::CancelSingle, 1i64)];
    s.refill_card(1, &offers);
    assert_eq!(s.cards[1], Card::CancelSingle);
    assert_eq!(s.cards[0], Card::WorkSingle(3));
}

#[test]
fn deep_copy_equals_source() {
    let s = sample_state();
    let c = s.deep_copy();
    assert_eq!(c.cards, s.cards);
    assert_eq!(c.projects[0].h, s.projects[0].h);
    assert_eq!(c.projects[0].v, s.projects[0].v);
    assert_eq!(c.score, s.score);
    assert_eq!(c.invest_level, s.invest_level);
    assert_eq!(c.last_invest_round, s.last_invest_round);
}

#[test]
fn recorder_counts_offered_card_types() {
    let mut r = Recorder::new();
    assert_eq!(r.scores, vec![0]);
    assert_eq!(r.x, vec![0, 0, 0, 0, 0]);
    r.count_offer(Card::WorkSingle(2));
    r.count_offer(Card::WorkSingle(9));
    r.count_offer(Card::Invest);
    assert_eq!(r.x, vec![2, 0, 0, 0, 1]);
}
