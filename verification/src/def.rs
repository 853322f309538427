use vstd::prelude::*;

verus! {

/// Highest investment level; every work amount and price in the game scales
/// by two to the current level.
pub const MAX_INVEST_LEVEL: usize = 20;

/// Number of turns in a full game; turn indices are 0-based and below this.
pub const HORIZON: usize = 1000;

/// Bound on a single project's remaining work and reward and on a card's
/// work amount, after scaling (the judge stays below 2^30).
pub const VAL_BOUND: i64 = 0x4000_0000;

/// Bound on the acquisition price of an offered card, after scaling.
pub const PRICE_BOUND: i64 = 0x100_0000_0000;

/// Bound on the magnitude of the score; wide enough that a full simulated
/// playout from any well-formed state stays inside it.
pub const SCORE_BOUND: i64 = 0x400_0000_0000_0000;

/// Bound on the hand size and on the number of projects.
pub const LEN_BOUND: usize = 1000;

/// Fixed-point unit: the tunable weights of `Param` and all finite utility
/// values are integer multiples of 1/SCALE.
pub const SCALE: i64 = 1000;

/// Bound on the fixed-point weights of `Param`.
pub const ALPHA_BOUND: i64 = 0x10_0000;

/// An action card. The work variants carry the work amount they apply.
#[derive(Debug, Clone, Copy, PartialEq, Eq, Structural)]
pub enum Card {
    WorkSingle(i64),
    WorkAll(i64),
    CancelSingle,
    CancelAll,
    Invest,
    Empty,
}

/// A project: remaining work `h` and reward `v` credited at completion.
#[derive(Debug, Clone, Copy, PartialEq, Eq, Structural)]
pub struct Project {
    pub h: i64,
    pub v: i64,
}

pub open spec fn spec_from_tw(t: int, w: i64) -> Card {
    if t == 0 {
        Card::WorkSingle(w)
    } else if t == 1 {
        Card::WorkAll(w)
    } else if t == 2 {
        Card::CancelSingle
    } else if t == 3 {
        Card::CancelAll
    } else if t == 4 {
        Card::Invest
    } else {
        Card::Empty
    }
}

pub open spec fn spec_to_t(c: Card) -> int {
    match c {
        Card::WorkSingle(_) => 0,
        Card::WorkAll(_) => 1,
        Card::CancelSingle => 2,
        Card::CancelAll => 3,
        Card::Invest => 4,
        Card::Empty => 5,
    }
}

impl Card {
    /// Wire encoding of card types to cards; codes above 5 are protocol
    /// violations and rejected before this is called.
    pub fn from_tw(t: usize, w: i64) -> (r: Card)
        requires
            t <= 5,
        ensures
            r == spec_from_tw(t as int, w),
    {
        match t {
            0 => Card::WorkSingle(w),
            1 => Card::WorkAll(w),
            2 => Card::CancelSingle,
            3 => Card::CancelAll,
            4 => Card::Invest,
            _ => Card::Empty,
        }
    }

    /// Wire encoding of a card back to its type code. The empty-slot
    /// sentinel is never written to the judge, so it is excluded.
    pub fn to_t(&self) -> (r: usize)
        requires
            !(*self is Empty),
        ensures
            r == spec_to_t(*self),
            r <= 4,
    {
        match self {
            Card::WorkSingle(_) => 0,
            Card::WorkAll(_) => 1,
            Card::CancelSingle => 2,
            Card::CancelAll => 3,
            Card::Invest => 4,
            Card::Empty => 0,
        }
    }

    /// Bound on the work amount a card carries.
    pub open spec fn wf(self) -> bool {
        match self {
            Card::WorkSingle(w) => 0 <= w <= VAL_BOUND,
            Card::WorkAll(w) => 0 <= w <= VAL_BOUND,
            _ => true,
        }
    }
}

impl Project {
    /// Projects held in a state were always refreshed on completion, so the
    /// remaining work is strictly positive; this also guards the ratio in
    /// the work evaluator against division by zero.
    pub open spec fn wf(self) -> bool {
        1 <= self.h <= VAL_BOUND && 0 <= self.v <= VAL_BOUND
    }
}

/// Problem constants read once at the start: hand size `n`, project count
/// `m`, offers per turn `k`, and number of turns `t`.
#[derive(Debug, Clone, Copy)]
pub struct Input {
    pub n: usize,
    pub m: usize,
    pub k: usize,
    pub t: usize,
}

impl Input {
    pub open spec fn wf(self) -> bool {
        &&& 1 <= self.n <= LEN_BOUND
        &&& 1 <= self.m <= LEN_BOUND
        &&& 1 <= self.k <= LEN_BOUND
        &&& 1 <= self.t <= HORIZON
    }
}

/// Tuning constants of the evaluation engine. The `*_alpha*` weights are
/// fixed-point numbers in units of 1/SCALE; the `_refill` variants apply
/// when a card is evaluated for installation rather than immediate play.
#[derive(Debug, Clone, Copy)]
pub struct Param {
    pub overflow_alpha_refill: i64,
    pub overflow_alpha: i64,
    pub overflow_alpha_all_refill: i64,
    pub overflow_alpha_all: i64,
    pub cancel_alpha_refill: i64,
    pub cancel_alpha: i64,
    pub cancel_alpha_all_refill: i64,
    pub cancel_alpha_all: i64,
    pub invest_limit: usize,
    pub cancel_limit: usize,
    pub invest_cost: i64,
    pub work_single_beta: u32,
    pub mc_rounds: usize,
    pub mc_start: usize,
}

impl Param {
    pub open spec fn wf(self) -> bool {
        &&& 0 <= self.overflow_alpha_refill <= ALPHA_BOUND
        &&& 0 <= self.overflow_alpha <= ALPHA_BOUND
        &&& 0 <= self.overflow_alpha_all_refill <= ALPHA_BOUND
        &&& 0 <= self.overflow_alpha_all <= ALPHA_BOUND
        &&& 0 <= self.cancel_alpha_refill <= ALPHA_BOUND
        &&& 0 <= self.cancel_alpha <= ALPHA_BOUND
        &&& 0 <= self.cancel_alpha_all_refill <= ALPHA_BOUND
        &&& 0 <= self.cancel_alpha_all <= ALPHA_BOUND
        &&& 0 <= self.invest_cost <= PRICE_BOUND
        &&& 1 <= self.work_single_beta <= 2
        &&& 1 <= self.mc_rounds
    }
}

impl Default for Param {
    /// The tuning the original agent played with: overflow weight 2 when
    /// playing and 0.5 when refilling, cancel weight 5 and 1.1, investment
    /// cutoff at turn 900, cancellation cutoff at turn 960, investment cost
    /// threshold 500, quadratic work return, and 30 simulated playouts from
    /// turn 990 on.
    fn default() -> (r: Param)
        ensures
            r.wf(),
            r.overflow_alpha == 2 * SCALE,
            r.overflow_alpha_refill == SCALE / 2,
            r.overflow_alpha_all == 2 * SCALE,
            r.overflow_alpha_all_refill == SCALE / 2,
            r.cancel_alpha == 5 * SCALE,
            r.cancel_alpha_refill == SCALE + SCALE / 10,
            r.cancel_alpha_all == 5 * SCALE,
            r.cancel_alpha_all_refill == SCALE + SCALE / 10,
            r.invest_limit == 900,
            r.cancel_limit == 960,
            r.invest_cost == 500,
            r.work_single_beta == 2,
            r.mc_rounds == 30,
            r.mc_start == 990,
    {
        Param {
            overflow_alpha_refill: 500,
            overflow_alpha: 2000,
            overflow_alpha_all_refill: 500,
            overflow_alpha_all: 2000,
            cancel_alpha_refill: 1100,
            cancel_alpha: 5000,
            cancel_alpha_all_refill: 1100,
            cancel_alpha_all: 5000,
            invest_limit: 900,
            cancel_limit: 960,
            invest_cost: 500,
            work_single_beta: 2,
            mc_rounds: 30,
            mc_start: 990,
        }
    }
}

/// Mathematical value of a game state.
#[verifier::ext_equal]
pub ghost struct StateView {
    pub last_invest_round: int,
    pub invest_level: int,
    pub score: int,
    pub cards: Seq<Card>,
    pub projects: Seq<Project>,
}

impl StateView {
    pub open spec fn wf(self) -> bool {
        &&& 0 <= self.invest_level <= MAX_INVEST_LEVEL
        &&& 0 <= self.last_invest_round < HORIZON
        &&& 1 <= self.cards.len() <= LEN_BOUND
        &&& 1 <= self.projects.len() <= LEN_BOUND
        &&& forall|i: int| 0 <= i < self.cards.len() ==> (#[trigger] self.cards[i]).wf()
        &&& forall|i: int| 0 <= i < self.projects.len() ==> (#[trigger] self.projects[i]).wf()
        &&& -SCORE_BOUND <= self.score <= SCORE_BOUND
    }
}

/// The live game state: current score, investment level, held cards,
/// projects, and the turn of the last investment.
#[derive(Debug, Clone)]
pub struct State {
    pub last_invest_round: usize,
    pub invest_level: usize,
    pub score: i64,
    pub cards: Vec<Card>,
    pub projects: Vec<Project>,
}

impl View for State {
    type V = StateView;

    open spec fn view(&self) -> StateView {
        StateView {
            last_invest_round: self.last_invest_round as int,
            invest_level: self.invest_level as int,
            score: self.score as int,
            cards: self.cards@,
            projects: self.projects@,
        }
    }
}

impl State {
    pub open spec fn wf(self) -> bool {
        self@.wf()
    }

    /// Field-by-field copy whose mathematical value is that of the source;
    /// the simulator copies the live state once per trial through this.
    pub fn deep_copy(&self) -> (r: State)
        ensures
            r@ == self@,
    {
        let mut cards: Vec<Card> = Vec::new();
        let mut i: usize = 0;
        while i < self.cards.len()
            invariant
                i <= self.cards@.len(),
                cards@ == self.cards@.subrange(0, i as int),
            decreases self.cards@.len() - i,
        {
            cards.push(self.cards[i]);
            i = i + 1;
        }
        let mut projects: Vec<Project> = Vec::new();
        let mut j: usize = 0;
        while j < self.projects.len()
            invariant
                j <= self.projects@.len(),
                projects@ == self.projects@.subrange(0, j as int),
            decreases self.projects@.len() - j,
        {
            projects.push(self.projects[j]);
            j = j + 1;
        }
        proof {
            assert(cards@ =~= self.cards@);
            assert(projects@ =~= self.projects@);
        }
        let r = State {
            last_invest_round: self.last_invest_round,
            invest_level: self.invest_level,
            score: self.score,
            cards,
            projects,
        };
        proof {
            assert(r@ =~= self@);
        }
        r
    }

    /// Index of the vacated hand slot, if any: the first slot holding the
    /// empty sentinel.
    pub fn empty_card_index(&self) -> (r: Option<usize>)
        ensures
            match r {
                Some(i) => i < self@.cards.len() && self@.cards[i as int] is Empty
                    && forall|j: int| 0 <= j < i ==> !((#[trigger] self@.cards[j]) is Empty),
                None => forall|j: int|
                    0 <= j < self@.cards.len() ==> !((#[trigger] self@.cards[j]) is Empty),
            },
    {
        let mut i: usize = 0;
        while i < self.cards.len()
            invariant
                i <= self.cards@.len(),
                forall|j: int| 0 <= j < i ==> !((#[trigger] self.cards@[j]) is Empty),
            decreases self.cards@.len() - i,
        {
            if matches!(self.cards[i], Card::Empty) {
                return Some(i);
            }
            i = i + 1;
        }
        None
    }

    /// Play the card in slot `c` on turn `t`: an investment card raises the
    /// level (capped at the maximum, which the data model never exceeds) and
    /// records the turn; the slot is vacated. The effect of the card on the
    /// projects and score is the judge's (or the simulator's) side.
    pub fn use_card(&mut self, c: usize, t: usize)
        requires
            c < old(self)@.cards.len(),
            t < HORIZON,
            old(self)@.invest_level <= MAX_INVEST_LEVEL,
        ensures
            final(self)@ == spec_use_card(old(self)@, c as int, t as int),
            final(self)@.invest_level <= MAX_INVEST_LEVEL,
    {
        if matches!(self.cards[c], Card::Invest) {
            if self.invest_level < MAX_INVEST_LEVEL {
                self.invest_level = self.invest_level + 1;
            }
            self.last_invest_round = t;
        }
        self.cards.set(c, Card::Empty);
        proof {
            assert(self@ =~= spec_use_card(old(self)@, c as int, t as int));
        }
    }

    /// Install offered card `selected` into the vacated slot (the first
    /// empty one, of which there is at most one between a play and its
    /// refill).
    pub fn refill_card(&mut self, selected: usize, new_cards: &Vec<(Card, i64)>)
        requires
            selected < new_cards@.len(),
            exists|j: int|
                0 <= j < old(self)@.cards.len() && (#[trigger] old(self)@.cards[j]) is Empty,
        ensures
            final(self)@ == spec_refill_card(
                old(self)@,
                selected as int,
                new_cards@.map_values(|cp: (Card, i64)| cp.0),
            ),
    {
        let i = match self.empty_card_index() {
            Some(i) => i,
            Option::None => {
                proof {
                    let j = choose|j: int|
                        0 <= j < self@.cards.len() && (#[trigger] self@.cards[j]) is Empty;
                    assert(false);
                }
                0
            },
        };
        self.cards.set(i, new_cards[selected].0);
        proof {
            lemma_empty_card_index_first(old(self)@.cards, i as int);
            let cs = new_cards@.map_values(|cp: (Card, i64)| cp.0);
            assert(cs[selected as int] == new_cards@[selected as int].0);
            assert(self@ =~= spec_refill_card(old(self)@, selected as int, cs));
        }
    }

    /// Adopt the judge's (or the simulator's) post-play report of projects
    /// and score.
    pub fn apply_status(&mut self, projects: Vec<Project>, score: i64)
        ensures
            final(self)@.projects == projects@,
            final(self)@.score == score,
            final(self)@.cards == old(self)@.cards,
            final(self)@.invest_level == old(self)@.invest_level,
            final(self)@.last_invest_round == old(self)@.last_invest_round,
    {
        self.projects = projects;
        self.score = score;
    }
}

/// The state after playing the card in slot `c` on turn `t`: an investment
/// card raises the level (capped) and records the turn; the slot is vacated.
pub open spec fn spec_use_card(s: StateView, c: int, t: int) -> StateView {
    let inv = s.cards[c] is Invest;
    StateView {
        cards: s.cards.update(c, Card::Empty),
        invest_level: if inv && s.invest_level < MAX_INVEST_LEVEL {
            s.invest_level + 1
        } else {
            s.invest_level
        },
        last_invest_round: if inv {
            t
        } else {
            s.last_invest_round
        },
        ..s
    }
}

/// Index of the slot a refill fills: the first empty one.
pub open spec fn spec_empty_card_index(cards: Seq<Card>) -> int
    decreases cards.len(),
{
    if cards.len() == 0 {
        0
    } else if cards[0] is Empty {
        0
    } else {
        1 + spec_empty_card_index(cards.drop_first())
    }
}

pub proof fn lemma_empty_card_index_first(cards: Seq<Card>, i: int)
    requires
        0 <= i < cards.len(),
        cards[i] is Empty,
        forall|j: int| 0 <= j < i ==> !((#[trigger] cards[j]) is Empty),
    ensures
        spec_empty_card_index(cards) == i,
    decreases cards.len(),
{
    if i > 0 {
        assert(forall|j: int|
            0 <= j < i - 1 ==> cards.drop_first()[j] == cards[j + 1]);
        lemma_empty_card_index_first(cards.drop_first(), i - 1);
    }
}

/// The state after installing card `selected` of the offer into the first
/// empty slot.
pub open spec fn spec_refill_card(s: StateView, selected: int, offered: Seq<Card>) -> StateView {
    StateView { cards: s.cards.update(spec_empty_card_index(s.cards), offered[selected]), ..s }
}

/// Running observations of a game: score after each turn, turns on which an
/// investment card was acquired, and how often each card type has been
/// offered (the weights of the synthetic card generator).
#[derive(Debug)]
pub struct Recorder {
    pub scores: Vec<i64>,
    pub invest_rounds: Vec<usize>,
    pub x: Vec<i64>,
}

impl Recorder {
    pub fn new() -> (r: Recorder)
        ensures
            r.scores@ == seq![0i64],
            r.invest_rounds@.len() == 0,
            r.x@ == seq![0i64, 0i64, 0i64, 0i64, 0i64],
    {
        let mut scores: Vec<i64> = Vec::new();
        scores.push(0);
        let mut x: Vec<i64> = Vec::new();
        x.push(0);
        x.push(0);
        x.push(0);
        x.push(0);
        x.push(0);
        proof {
            assert(scores@ =~= seq![0i64]);
            assert(x@ =~= seq![0i64, 0i64, 0i64, 0i64, 0i64]);
        }
        Recorder { scores, invest_rounds: Vec::new(), x }
    }

    /// Count one offered card towards the observed type frequencies.
    pub fn count_offer(&mut self, card: Card)
        requires
            !(card is Empty),
            old(self).x@.len() == 5,
            forall|j: int| 0 <= j < 5 ==> #[trigger] old(self).x@[j] < i64::MAX,
        ensures
            final(self).x@ == old(self).x@.update(
                spec_to_t(card),
                (old(self).x@[spec_to_t(card)] + 1) as i64,
            ),
            final(self).scores@ == old(self).scores@,
            final(self).invest_rounds@ == old(self).invest_rounds@,
    {
        let t = card.to_t();
        let cur = self.x[t];
        self.x.set(t, cur + 1);
    }
}

} // verus!
