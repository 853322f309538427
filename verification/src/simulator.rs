use vstd::prelude::*;

use crate::def::{
    lemma_empty_card_index_first, spec_empty_card_index, spec_from_tw, spec_refill_card,
    spec_use_card, Card, Input, Param, Project, State, StateView, HORIZON, LEN_BOUND,
    MAX_INVEST_LEVEL, PRICE_BOUND, SCORE_BOUND, VAL_BOUND,
};
use crate::num::{
    lemma_mul_bound, lemma_p2_20, lemma_p2_mono, p2, pow2_i64, spec_trunc_div, trunc_div,
};
use crate::solver::{
    spec_select_new_card, spec_select_use_card, Solver,
};

verus! {

/// Bound on the work amounts and rewards the synthetic generator draws
/// (before scaling by the investment level).
pub const BASE_VAL_BOUND: i64 = 1024;

/// Bound on the prices the synthetic generator draws (before scaling).
pub const BASE_PRICE_BOUND: i64 = 0x4000;

/// Mathematical value of a pre-generated future.
#[verifier::ext_equal]
pub ghost struct FutureView {
    pub new_projects: Seq<Project>,
    pub new_cards: Seq<Seq<(Card, i64)>>,
}

/// One simulated trial's worth of synthetic randomness, drawn up front:
/// replacement projects (consumed from the back) and one list of offered
/// cards per remaining round, all in base (unscaled) units.
pub struct SimFuture {
    pub new_projects: Vec<Project>,
    pub new_cards: Vec<Vec<(Card, i64)>>,
}

impl View for SimFuture {
    type V = FutureView;

    open spec fn view(&self) -> FutureView {
        FutureView {
            new_projects: self.new_projects@,
            new_cards: self.new_cards@.map_values(|r: Vec<(Card, i64)>| r@),
        }
    }
}

/// A base-unit project as the synthetic generator promises it.
pub open spec fn base_project_wf(pr: Project) -> bool {
    1 <= pr.h <= BASE_VAL_BOUND && 0 <= pr.v <= BASE_VAL_BOUND
}

/// A base-unit offered card: a real card (never the empty sentinel) with a
/// bounded work amount and price.
pub open spec fn base_offer_wf(cp: (Card, i64)) -> bool {
    &&& match cp.0 {
        Card::WorkSingle(w) => 0 <= w <= BASE_VAL_BOUND,
        Card::WorkAll(w) => 0 <= w <= BASE_VAL_BOUND,
        Card::Empty => false,
        _ => true,
    }
    &&& 0 <= cp.1 <= BASE_PRICE_BOUND
}

pub open spec fn future_wf(f: FutureView) -> bool {
    &&& forall|i: int|
        0 <= i < f.new_projects.len() ==> base_project_wf(#[trigger] f.new_projects[i])
    &&& forall|r: int|
        0 <= r < f.new_cards.len() ==> 1 <= (#[trigger] f.new_cards[r]).len() <= LEN_BOUND
    &&& forall|r: int, j: int|
        0 <= r < f.new_cards.len() && 0 <= j < f.new_cards[r].len() ==> base_offer_wf(
            #[trigger] f.new_cards[r][j],
        )
}

/// Validity of one raw project sample (work, reward).
pub open spec fn project_sample_ok(s: (i64, i64)) -> bool {
    1 <= s.0 <= BASE_VAL_BOUND && 0 <= s.1 <= BASE_VAL_BOUND
}

/// Validity of one raw card sample (type code, work, price).
pub open spec fn card_sample_ok(s: (usize, i64, i64)) -> bool {
    &&& s.0 <= 4
    &&& (s.0 == 0 || s.0 == 1 ==> 0 <= s.1 <= BASE_VAL_BOUND)
    &&& 0 <= s.2 <= BASE_PRICE_BOUND
}

/// The offer list built from one round's card samples: the free fallback
/// card first, then the sampled cards.
pub open spec fn spec_round_from_samples(s: Seq<(usize, i64, i64)>) -> Seq<(Card, i64)> {
    seq![(Card::WorkSingle(1i64), 0i64)] + s.map_values(
        |x: (usize, i64, i64)| (spec_from_tw(x.0 as int, x.1), x.2),
    )
}

impl SimFuture {
    /// Assemble a future from raw samples: replacement projects as (work,
    /// reward) pairs and, per round, offered cards as (type code, work,
    /// price) triples. Succeeds exactly when every sample is inside the
    /// ranges the synthetic model draws from; an invalid type code or an
    /// out-of-range value is rejected.
    pub fn from_samples(projects: Vec<(i64, i64)>, cards: Vec<Vec<(usize, i64, i64)>>) -> (r:
        Option<SimFuture>)
        ensures
            r is Some <==> {
                &&& forall|i: int|
                    0 <= i < projects@.len() ==> project_sample_ok(#[trigger] projects@[i])
                &&& forall|r0: int|
                    0 <= r0 < cards@.len() ==> (#[trigger] cards@[r0])@.len() < LEN_BOUND
                &&& forall|r0: int, j: int|
                    0 <= r0 < cards@.len() && 0 <= j < cards@[r0]@.len() ==> card_sample_ok(
                        #[trigger] cards@[r0]@[j],
                    )
            },
            r is Some ==> {
                let f = r->Some_0@;
                &&& future_wf(f)
                &&& f.new_projects == projects@.map_values(
                    |s: (i64, i64)| Project { h: s.0, v: s.1 },
                )
                &&& f.new_cards.len() == cards@.len()
                &&& forall|r0: int|
                    0 <= r0 < cards@.len() ==> #[trigger] f.new_cards[r0]
                        == spec_round_from_samples(cards@[r0]@)
            },
    {
        let mut new_projects: Vec<Project> = Vec::new();
        let mut i: usize = 0;
        while i < projects.len()
            invariant
                i <= projects@.len(),
                forall|q: int| 0 <= q < i ==> project_sample_ok(#[trigger] projects@[q]),
                new_projects@ == projects@.subrange(0, i as int).map_values(
                    |s: (i64, i64)| Project { h: s.0, v: s.1 },
                ),
            decreases projects@.len() - i,
        {
            let (h, v) = projects[i];
            if !(1 <= h && h <= BASE_VAL_BOUND && 0 <= v && v <= BASE_VAL_BOUND) {
                return None;
            }
            new_projects.push(Project { h, v });
            proof {
                assert(new_projects@ =~= projects@.subrange(0, i + 1).map_values(
                    |s: (i64, i64)| Project { h: s.0, v: s.1 },
                ));
            }
            i = i + 1;
        }
        proof {
            assert(projects@.subrange(0, projects@.len() as int) =~= projects@);
        }
        let mut new_cards: Vec<Vec<(Card, i64)>> = Vec::new();
        let mut r0: usize = 0;
        while r0 < cards.len()
            invariant
                r0 <= cards@.len(),
                forall|q: int| 0 <= q < r0 ==> (#[trigger] cards@[q])@.len() < LEN_BOUND,
                forall|q: int, j: int|
                    0 <= q < r0 && 0 <= j < cards@[q]@.len() ==> card_sample_ok(
                        #[trigger] cards@[q]@[j],
                    ),
                new_cards@.len() == r0,
                forall|q: int|
                    0 <= q < r0 ==> (#[trigger] new_cards@[q])@ == spec_round_from_samples(
                        cards@[q]@,
                    ),
            decreases cards@.len() - r0,
        {
            let round = &cards[r0];
            proof {
                assert(*round == cards@[r0 as int]);
                assert(cards@[r0 as int]@ == round@);
            }
            if round.len() >= LEN_BOUND {
                proof {
                    assert(!((cards@[r0 as int])@.len() < LEN_BOUND));
                }
                return None;
            }
            let mut out: Vec<(Card, i64)> = Vec::new();
            out.push((Card::WorkSingle(1), 0));
            let mut j: usize = 0;
            while j < round.len()
                invariant
                    r0 < cards@.len(),
                    cards@[r0 as int]@ == round@,
                    j <= round@.len(),
                    forall|q: int| 0 <= q < j ==> card_sample_ok(#[trigger] round@[q]),
                    out@ == spec_round_from_samples(round@.subrange(0, j as int)),
                decreases round@.len() - j,
            {
                let (t, w, p) = round[j];
                proof {
                    assert(round@[j as int] == (t, w, p));
                }
                if !(t <= 4 && 0 <= p && p <= BASE_PRICE_BOUND) {
                    proof {
                        assert(!card_sample_ok(cards@[r0 as int]@[j as int]));
                    }
                    return None;
                }
                if (t == 0 || t == 1) && !(0 <= w && w <= BASE_VAL_BOUND) {
                    proof {
                        assert(!card_sample_ok(cards@[r0 as int]@[j as int]));
                    }
                    return None;
                }
                out.push((Card::from_tw(t, w), p));
                proof {
                    assert(out@ =~= spec_round_from_samples(round@.subrange(0, j + 1)));
                }
                j = j + 1;
            }
            proof {
                assert(round@.subrange(0, round@.len() as int) =~= round@);
            }
            new_cards.push(out);
            r0 = r0 + 1;
        }
        let f = SimFuture { new_projects, new_cards };
        proof {
            assert(forall|q: int|
                0 <= q < cards@.len() ==> #[trigger] f@.new_cards[q] == spec_round_from_samples(
                    cards@[q]@,
                ));
            assert(forall|q: int, j: int|
                0 <= q < f@.new_cards.len() && 0 <= j < f@.new_cards[q].len() ==> base_offer_wf(
                    #[trigger] f@.new_cards[q][j],
                )) by {
                assert forall|q: int, j: int|
                    0 <= q < f@.new_cards.len() && 0 <= j
                        < f@.new_cards[q].len() implies base_offer_wf(
                    #[trigger] f@.new_cards[q][j],
                ) by {
                    let rs = cards@[q]@;
                    assert(f@.new_cards[q] == spec_round_from_samples(rs));
                    if j > 0 {
                        assert(card_sample_ok(rs[j - 1]));
                        assert(f@.new_cards[q][j] == (
                            spec_from_tw(rs[j - 1].0 as int, rs[j - 1].1),
                            rs[j - 1].2,
                        ));
                    }
                }
            }
        }
        Some(f)
    }
}

/// Mathematical value of the simulated world.
#[verifier::ext_equal]
pub ghost struct MockView {
    pub t_idx: int,
    pub score: int,
    pub invest_level: int,
    pub cards: Seq<Card>,
    pub projects: Seq<Project>,
    pub used_card: int,
    pub candidate_cards: Seq<(Card, i64)>,
    pub new_projects: Seq<Project>,
    pub new_cards: Seq<Seq<(Card, i64)>>,
}

/// The simulated judge: tracks the true world of a trial (projects, score,
/// level, hand) and serves pre-generated replacement projects and offers.
pub struct MockInteractor {
    pub t: usize,
    pub score: i64,
    pub invest_level: usize,
    pub cards: Vec<Card>,
    pub projects: Vec<Project>,
    pub used_card: usize,
    pub candidate_cards: Vec<(Card, i64)>,
    pub new_projects: Vec<Project>,
    pub new_cards: Vec<Vec<(Card, i64)>>,
}

impl View for MockInteractor {
    type V = MockView;

    open spec fn view(&self) -> MockView {
        MockView {
            t_idx: self.t as int,
            score: self.score as int,
            invest_level: self.invest_level as int,
            cards: self.cards@,
            projects: self.projects@,
            used_card: self.used_card as int,
            candidate_cards: self.candidate_cards@,
            new_projects: self.new_projects@,
            new_cards: self.new_cards@.map_values(|r: Vec<(Card, i64)>| r@),
        }
    }
}

/// Structural well-formedness of the simulated world; the score is bounded
/// separately by the playout's budget argument.
pub open spec fn mock_wf(m0: MockView) -> bool {
    &&& 0 <= m0.invest_level <= MAX_INVEST_LEVEL
    &&& 1 <= m0.cards.len() <= LEN_BOUND
    &&& 1 <= m0.projects.len() <= LEN_BOUND
    &&& forall|i: int| 0 <= i < m0.cards.len() ==> (#[trigger] m0.cards[i]).wf()
    &&& forall|i: int| 0 <= i < m0.projects.len() ==> (#[trigger] m0.projects[i]).wf()
    &&& forall|i: int|
        0 <= i < m0.new_projects.len() ==> base_project_wf(#[trigger] m0.new_projects[i])
    &&& forall|r: int|
        0 <= r < m0.new_cards.len() ==> 1 <= (#[trigger] m0.new_cards[r]).len() <= LEN_BOUND
    &&& forall|r: int, j: int|
        0 <= r < m0.new_cards.len() && 0 <= j < m0.new_cards[r].len() ==> base_offer_wf(
            #[trigger] m0.new_cards[r][j],
        )
    &&& 0 <= m0.used_card < m0.cards.len()
    &&& 0 <= m0.t_idx <= m0.new_cards.len()
    &&& forall|i: int|
        0 <= i < m0.candidate_cards.len() ==> {
            &&& (#[trigger] m0.candidate_cards[i]).0.wf()
            &&& !(m0.candidate_cards[i].0 is Empty)
            &&& 0 <= m0.candidate_cards[i].1 <= PRICE_BOUND
        }
}

/// A freshly drawn project enters the world scaled by the investment level.
pub open spec fn spec_scale_project(pr: Project, l: int) -> Project {
    Project { h: (pr.h * p2(l as nat)) as i64, v: (pr.v * p2(l as nat)) as i64 }
}

/// Replace project `m` with the next pre-generated one (drawn from the
/// back), scaled to the current investment level.
pub open spec fn spec_update_project(m0: MockView, m: int) -> MockView {
    MockView {
        projects: m0.projects.update(
            m,
            spec_scale_project(m0.new_projects.last(), m0.invest_level),
        ),
        new_projects: m0.new_projects.drop_last(),
        ..m0
    }
}

/// Apply `w` units of work to project `m`: on completion the reward is
/// credited and the project replaced.
pub open spec fn spec_work_project(m0: MockView, m: int, w: i64) -> MockView {
    let h1 = m0.projects[m].h - w;
    if h1 > 0 {
        MockView {
            projects: m0.projects.update(m, Project { h: h1 as i64, v: m0.projects[m].v }),
            ..m0
        }
    } else {
        spec_update_project(MockView { score: m0.score + m0.projects[m].v, ..m0 }, m)
    }
}

/// Apply `w` units of work to the first `n` projects, in index order.
pub open spec fn spec_work_all(m0: MockView, w: i64, n: int) -> MockView
    decreases n,
{
    if n <= 0 {
        m0
    } else {
        spec_work_project(spec_work_all(m0, w, n - 1), n - 1, w)
    }
}

/// Replace the first `n` projects, in index order.
pub open spec fn spec_cancel_all(m0: MockView, n: int) -> MockView
    decreases n,
{
    if n <= 0 {
        m0
    } else {
        spec_update_project(spec_cancel_all(m0, n - 1), n - 1)
    }
}

/// Effect on the world of playing the card in slot `c` against project `m`.
pub open spec fn spec_output_c(m0: MockView, c: int, m: int) -> MockView {
    let m1 = match m0.cards[c] {
        Card::WorkSingle(w) => spec_work_project(m0, m, w),
        Card::WorkAll(w) => spec_work_all(m0, w, m0.projects.len() as int),
        Card::CancelSingle => spec_update_project(m0, m),
        Card::CancelAll => spec_cancel_all(m0, m0.projects.len() as int),
        Card::Invest => MockView {
            invest_level: if m0.invest_level < MAX_INVEST_LEVEL {
                m0.invest_level + 1
            } else {
                m0.invest_level
            },
            ..m0
        },
        Card::Empty => m0,
    };
    MockView { used_card: c, ..m1 }
}

/// An offered card is handed out scaled by the investment level.
pub open spec fn spec_scale_offer(cp: (Card, i64), l: int) -> (Card, i64) {
    let c = match cp.0 {
        Card::WorkSingle(w) => Card::WorkSingle((w * p2(l as nat)) as i64),
        Card::WorkAll(w) => Card::WorkAll((w * p2(l as nat)) as i64),
        other => other,
    };
    (c, (cp.1 * p2(l as nat)) as i64)
}

/// The offer of the current round, scaled, and the world after serving it.
pub open spec fn spec_candidates(m0: MockView) -> Seq<(Card, i64)> {
    m0.new_cards[m0.t_idx].map_values(|cp: (Card, i64)| spec_scale_offer(cp, m0.invest_level))
}

/// Effect of the per-turn status read: the next round of offers is served
/// and remembered.
pub open spec fn spec_read_status(m0: MockView) -> MockView {
    MockView { t_idx: m0.t_idx + 1, candidate_cards: spec_candidates(m0), ..m0 }
}

/// Effect of the refill reply: the chosen offered card is paid for and put
/// into the slot of the card just used.
pub open spec fn spec_output_r(m0: MockView, r: int) -> MockView {
    MockView {
        score: m0.score - m0.candidate_cards[r].1,
        cards: m0.cards.update(m0.used_card, m0.candidate_cards[r].0),
        ..m0
    }
}

impl MockInteractor {
    /// Start a trial's world from a copy of the live state, the slot the
    /// forced refill will fill, the real offer of the current turn, and a
    /// pre-generated future.
    pub fn new(
        state: &State,
        used_card: usize,
        candidate_cards: Vec<(Card, i64)>,
        future: SimFuture,
    ) -> (r: MockInteractor)
        ensures
            r@ == (MockView {
                t_idx: 0,
                score: state@.score,
                invest_level: state@.invest_level,
                cards: state@.cards,
                projects: state@.projects,
                used_card: used_card as int,
                candidate_cards: candidate_cards@,
                new_projects: future@.new_projects,
                new_cards: future@.new_cards,
            }),
    {
        let sc = state.deep_copy();
        let r = MockInteractor {
            t: 0,
            score: sc.score,
            invest_level: sc.invest_level,
            cards: sc.cards,
            projects: sc.projects,
            used_card,
            candidate_cards,
            new_projects: future.new_projects,
            new_cards: future.new_cards,
        };
        proof {
            assert(r@ =~= (MockView {
                t_idx: 0,
                score: state@.score,
                invest_level: state@.invest_level,
                cards: state@.cards,
                projects: state@.projects,
                used_card: used_card as int,
                candidate_cards: candidate_cards@,
                new_projects: future@.new_projects,
                new_cards: future@.new_cards,
            }));
        }
        r
    }

    /// Replace project `m` with the next pre-generated project.
    pub fn update_project(&mut self, m: usize)
        requires
            mock_wf(old(self)@),
            m < old(self)@.projects.len(),
            old(self)@.new_projects.len() >= 1,
        ensures
            final(self)@ == spec_update_project(old(self)@, m as int),
            mock_wf(final(self)@),
            final(self)@.score == old(self)@.score,
            final(self)@.invest_level == old(self)@.invest_level,
            final(self)@.projects.len() == old(self)@.projects.len(),
            final(self)@.new_projects.len() == old(self)@.new_projects.len() - 1,
    {
        let pr = match self.new_projects.pop() {
            Some(pr) => pr,
            None => {
                proof {
                    assert(false);
                }
                Project { h: 1, v: 0 }
            },
        };
        let pw = pow2_i64(self.invest_level);
        proof {
            lemma_p2_mono(old(self)@.invest_level as nat, 20);
            lemma_p2_20();
            lemma_mul_bound(pr.h as int, pw as int, BASE_VAL_BOUND as int, 0x10_0000);
            lemma_mul_bound(pr.v as int, pw as int, BASE_VAL_BOUND as int, 0x10_0000);
            assert(pr.h as int * pw as int >= 1) by (nonlinear_arith)
                requires pr.h as int >= 1 && pw as int >= 1;
        }
        let sp = Project { h: pr.h * pw, v: pr.v * pw };
        self.projects.set(m, sp);
        proof {
            assert(self@ =~= spec_update_project(old(self)@, m as int));
        }
    }

    /// Apply `w` units of work to project `m`, crediting and replacing it
    /// on completion.
    pub fn work_project(&mut self, m: usize, w: i64)
        requires
            mock_wf(old(self)@),
            m < old(self)@.projects.len(),
            0 <= w <= VAL_BOUND,
            old(self)@.new_projects.len() >= 1,
            -0x4000_0000_0000_0000 <= old(self)@.score <= 0x4000_0000_0000_0000,
        ensures
            final(self)@ == spec_work_project(old(self)@, m as int, w),
            mock_wf(final(self)@),
            old(self)@.score <= final(self)@.score <= old(self)@.score + VAL_BOUND,
            final(self)@.invest_level == old(self)@.invest_level,
            final(self)@.projects.len() == old(self)@.projects.len(),
            final(self)@.new_projects.len() >= old(self)@.new_projects.len() - 1,
    {
        let pr = self.projects[m];
        let h1 = pr.h - w;
        if h1 <= 0 {
            self.score = self.score + pr.v;
            self.update_project(m);
            proof {
                assert(self@ =~= spec_work_project(old(self)@, m as int, w));
            }
        } else {
            self.projects.set(m, Project { h: h1, v: pr.v });
            proof {
                assert(self@ =~= spec_work_project(old(self)@, m as int, w));
            }
        }
    }

    /// The world's reply to playing slot `c` against project `m`.
    pub fn output_c(&mut self, c: usize, m: usize)
        requires
            mock_wf(old(self)@),
            c < old(self)@.cards.len(),
            m < old(self)@.projects.len(),
            !(old(self)@.cards[c as int] is Empty),
            old(self)@.new_projects.len() >= old(self)@.projects.len(),
            -0x2000_0000_0000_0000 <= old(self)@.score <= 0x2000_0000_0000_0000,
        ensures
            final(self)@ == spec_output_c(old(self)@, c as int, m as int),
            mock_wf(final(self)@),
            old(self)@.score <= final(self)@.score <= old(self)@.score + old(
                self,
            )@.projects.len() * VAL_BOUND,
            final(self)@.projects.len() == old(self)@.projects.len(),
            final(self)@.new_projects.len() >= old(self)@.new_projects.len() - old(
                self,
            )@.projects.len(),
            final(self)@.t_idx == old(self)@.t_idx,
            final(self)@.new_cards == old(self)@.new_cards,
            final(self)@.candidate_cards == old(self)@.candidate_cards,
            final(self)@.cards == old(self)@.cards,
            final(self)@.invest_level == (if old(self)@.cards[c as int] is Invest
                && old(self)@.invest_level < MAX_INVEST_LEVEL {
                old(self)@.invest_level + 1
            } else {
                old(self)@.invest_level
            }),
    {
        let card = self.cards[c];
        proof {
            assert(card == old(self)@.cards[c as int]);
        }
        match card {
            Card::WorkSingle(w) => {
                self.work_project(m, w);
            },
            Card::WorkAll(w) => {
                let ghost m0 = self@;
                let n = self.projects.len();
                let mut i: usize = 0;
                while i < n
                    invariant
                        0 <= w <= VAL_BOUND,
                        i <= n,
                        n == m0.projects.len(),
                        self@ == spec_work_all(m0, w, i as int),
                        mock_wf(self@),
                        m0.score <= self@.score <= m0.score + (i as int) * VAL_BOUND,
                        self@.projects.len() == n,
                        self@.new_projects.len() >= m0.new_projects.len() - i,
                        self@.t_idx == m0.t_idx,
                        self@.new_cards == m0.new_cards,
                        self@.candidate_cards == m0.candidate_cards,
                        self@.cards == m0.cards,
                        self@.used_card == m0.used_card,
                        self@.invest_level == m0.invest_level,
                        m0.new_projects.len() >= n,
                        -0x2000_0000_0000_0000 <= m0.score <= 0x2000_0000_0000_0000,
                        m0.projects.len() <= LEN_BOUND,
                    decreases n - i,
                {
                    self.work_project(i, w);
                    i = i + 1;
                }
            },
            Card::CancelSingle => {
                self.update_project(m);
            },
            Card::CancelAll => {
                let ghost m0 = self@;
                let n = self.projects.len();
                let mut i: usize = 0;
                while i < n
                    invariant
                        i <= n,
                        n == m0.projects.len(),
                        self@ == spec_cancel_all(m0, i as int),
                        mock_wf(self@),
                        self@.score == m0.score,
                        self@.projects.len() == n,
                        self@.new_projects.len() == m0.new_projects.len() - i,
                        self@.t_idx == m0.t_idx,
                        self@.new_cards == m0.new_cards,
                        self@.candidate_cards == m0.candidate_cards,
                        self@.cards == m0.cards,
                        self@.used_card == m0.used_card,
                        self@.invest_level == m0.invest_level,
                        m0.new_projects.len() >= n,
                    decreases n - i,
                {
                    self.update_project(i);
                    i = i + 1;
                }
            },
            Card::Invest => {
                if self.invest_level < MAX_INVEST_LEVEL {
                    self.invest_level = self.invest_level + 1;
                }
            },
            Card::Empty => {
                proof {
                    assert(false);
                }
            },
        }
        self.used_card = c;
        proof {
            assert(self@ =~= spec_output_c(old(self)@, c as int, m as int));
        }
    }

    /// Serve the current round's offer, scaled by the investment level, and
    /// advance the round counter.
    pub fn get_card_candidate(&mut self) -> (r: Vec<(Card, i64)>)
        requires
            mock_wf(old(self)@),
            old(self)@.t_idx < old(self)@.new_cards.len(),
        ensures
            r@ == spec_candidates(old(self)@),
            final(self)@ == (MockView { t_idx: old(self)@.t_idx + 1, ..old(self)@ }),
            mock_wf(final(self)@),
            r@.len() >= 1,
            forall|i: int|
                0 <= i < r@.len() ==> {
                    &&& (#[trigger] r@[i]).0.wf()
                    &&& !(r@[i].0 is Empty)
                    &&& 0 <= r@[i].1 <= PRICE_BOUND
                },
    {
        let ghost m0 = self@;
        let pw = pow2_i64(self.invest_level);
        proof {
            lemma_p2_mono(m0.invest_level as nat, 20);
            lemma_p2_20();
        }
        let round = &self.new_cards[self.t];
        proof {
            assert(round@ == m0.new_cards[m0.t_idx]);
        }
        let mut out: Vec<(Card, i64)> = Vec::new();
        let mut j: usize = 0;
        while j < round.len()
            invariant
                1 <= pw == p2(m0.invest_level as nat) <= 0x10_0000,
                0 <= m0.t_idx < m0.new_cards.len(),
                round@ == m0.new_cards[m0.t_idx],
                mock_wf(m0),
                self@ == m0,
                j <= round@.len(),
                out@ == m0.new_cards[m0.t_idx].subrange(0, j as int).map_values(
                    |cp: (Card, i64)| spec_scale_offer(cp, m0.invest_level),
                ),
                forall|q: int|
                    0 <= q < out@.len() ==> {
                        &&& (#[trigger] out@[q]).0.wf()
                        &&& !(out@[q].0 is Empty)
                        &&& 0 <= out@[q].1 <= PRICE_BOUND
                    },
            decreases round@.len() - j,
        {
            let (c, p) = round[j];
            proof {
                assert(base_offer_wf(m0.new_cards[m0.t_idx][j as int]));
                lemma_mul_bound(p as int, pw as int, BASE_PRICE_BOUND as int, 0x10_0000);
            }
            let sc = match c {
                Card::WorkSingle(w) => {
                    proof {
                        lemma_mul_bound(w as int, pw as int, BASE_VAL_BOUND as int, 0x10_0000);
                    }
                    Card::WorkSingle(w * pw)
                },
                Card::WorkAll(w) => {
                    proof {
                        lemma_mul_bound(w as int, pw as int, BASE_VAL_BOUND as int, 0x10_0000);
                    }
                    Card::WorkAll(w * pw)
                },
                other => other,
            };
            out.push((sc, p * pw));
            proof {
                assert(out@ =~= m0.new_cards[m0.t_idx].subrange(0, j + 1).map_values(
                    |cp: (Card, i64)| spec_scale_offer(cp, m0.invest_level),
                ));
            }
            j = j + 1;
        }
        let nrounds = self.new_cards.len();
        proof {
            assert(m0.new_cards.len() == self.new_cards@.len());
            assert(self.t < nrounds);
        }
        self.t = self.t + 1;
        proof {
            assert(m0.new_cards[m0.t_idx].subrange(0, m0.new_cards[m0.t_idx].len() as int)
                =~= m0.new_cards[m0.t_idx]);
            assert(self@ =~= (MockView { t_idx: m0.t_idx + 1, ..m0 }));
        }
        out
    }

    /// The per-turn status read: the updated projects, the current score,
    /// and the new round of offered cards.
    pub fn read_status(&mut self) -> (r: (Vec<Project>, i64, Vec<(Card, i64)>))
        requires
            mock_wf(old(self)@),
            old(self)@.t_idx < old(self)@.new_cards.len(),
        ensures
            final(self)@ == spec_read_status(old(self)@),
            mock_wf(final(self)@),
            r.0@ == final(self)@.projects,
            r.1 == final(self)@.score,
            r.2@ == final(self)@.candidate_cards,
    {
        let cand = self.get_card_candidate();
        let mut cand2: Vec<(Card, i64)> = Vec::new();
        let mut i: usize = 0;
        while i < cand.len()
            invariant
                i <= cand@.len(),
                cand2@ == cand@.subrange(0, i as int),
            decreases cand@.len() - i,
        {
            cand2.push(cand[i]);
            i = i + 1;
        }
        proof {
            assert(cand2@ =~= cand@);
        }
        self.candidate_cards = cand;
        let mut projects: Vec<Project> = Vec::new();
        let mut j: usize = 0;
        while j < self.projects.len()
            invariant
                j <= self.projects@.len(),
                projects@ == self.projects@.subrange(0, j as int),
            decreases self.projects@.len() - j,
        {
            projects.push(self.projects[j]);
            j = j + 1;
        }
        proof {
            assert(projects@ =~= self.projects@);
            assert(self@ =~= spec_read_status(old(self)@));
        }
        (projects, self.score, cand2)
    }

    /// The world's reply to the refill choice: pay for offered card `r` and
    /// put it into the slot of the card just used.
    pub fn output_r(&mut self, r: usize)
        requires
            mock_wf(old(self)@),
            r < old(self)@.candidate_cards.len(),
            -0x4000_0000_0000_0000 <= old(self)@.score <= 0x4000_0000_0000_0000,
        ensures
            final(self)@ == spec_output_r(old(self)@, r as int),
            mock_wf(final(self)@),
            old(self)@.score - PRICE_BOUND <= final(self)@.score <= old(self)@.score,
    {
        let (c, p) = self.candidate_cards[r];
        self.score = self.score - p;
        let u = self.used_card;
        self.cards.set(u, c);
        proof {
            assert(self@ =~= spec_output_r(old(self)@, r as int));
        }
    }
}

/// How many rounds of synthetic offers one trial starting at turn `t`
/// draws: the remaining horizon with a margin of five rounds, as the
/// original agent sized it.
pub fn future_rounds(t: usize) -> (r: usize)
    requires
        t <= HORIZON,
    ensures
        r == 1005 - t,
        r >= HORIZON - t,
{
    1005 - t
}

/// How many replacement projects one trial starting at turn `t` draws for
/// `m` live projects: enough for every project to be replaced every round.
pub fn future_project_count(m: usize, t: usize) -> (r: usize)
    requires
        t <= HORIZON,
        m <= LEN_BOUND,
    ensures
        r == m * (1005 - t),
        r >= (HORIZON - t) * m,
{
    proof {
        lemma_mul_bound(m as int, 1005 - t, LEN_BOUND as int, 1005);
        assert((1005 - t as int) * (m as int) >= (HORIZON - t as int) * (m as int))
            by (nonlinear_arith)
            requires m as int >= 0 && t <= HORIZON < 1005;
        assert(m as int * (1005 - t as int) == (1005 - t as int) * (m as int))
            by (nonlinear_arith);
    }
    m * (1005 - t)
}

/// Entry bound on the live score when a simulation starts; leaves the
/// playout room to drift without leaving the state's own score bound.
pub const SIM_SCORE_BOUND: i64 = 0x200_0000_0000_0000;

/// A trial in flight: the agent's view of the game and the simulated world.
#[verifier::ext_equal]
pub ghost struct SimView {
    pub agent: StateView,
    pub mock: MockView,
}

/// An offer list as the simulator needs it: well-formed cards, none of them
/// the empty sentinel, with bounded prices.
pub open spec fn sim_offers_wf(offers: Seq<(Card, i64)>) -> bool {
    forall|i: int|
        0 <= i < offers.len() ==> {
            &&& (#[trigger] offers[i]).0.wf()
            &&& !(offers[i].0 is Empty)
            &&& 0 <= offers[i].1 <= PRICE_BOUND
        }
}

/// One full simulated turn at `t` of a game with `tt` turns: the selection
/// policy picks a card, the world applies it, the agent reads the updated
/// status, the selection policy (or, on the last turn, the first offer)
/// picks the refill, and the world installs it.
pub open spec fn spec_sim_turn(sv: SimView, pm: Param, tt: int, t: int) -> SimView {
    let sel = spec_select_use_card(sv.agent, pm, t);
    let m1 = spec_output_c(sv.mock, sel.0, sel.1);
    let a1 = spec_use_card(sv.agent, sel.0, t);
    let m2 = spec_read_status(m1);
    let a2 = StateView { projects: m2.projects, score: m2.score, ..a1 };
    let offers = m2.candidate_cards;
    let r = if t < tt - 1 {
        spec_select_new_card(a2, pm, offers, t)
    } else {
        0int
    };
    let m3 = spec_output_r(m2, r);
    let a3 = spec_refill_card(a2, r, offers.map_values(|cp: (Card, i64)| cp.0));
    SimView { agent: a3, mock: m3 }
}

/// The remaining turns of a trial, played out one by one.
pub open spec fn spec_playout(sv: SimView, pm: Param, tt: int, t: int) -> SimView
    decreases tt - t,
{
    if t >= tt {
        sv
    } else {
        spec_playout(spec_sim_turn(sv, pm, tt, t), pm, tt, t + 1)
    }
}

/// The final score (as the agent last saw it) of one trial: the live state
/// with offered card `choice` forced as this turn's refill, played out
/// against the pre-generated future.
pub open spec fn spec_trial_score(
    s: StateView,
    pm: Param,
    tt: int,
    t0: int,
    choice: int,
    offers: Seq<(Card, i64)>,
    fut: FutureView,
) -> int {
    let mock0 = MockView {
        t_idx: 0,
        score: s.score,
        invest_level: s.invest_level,
        cards: s.cards,
        projects: s.projects,
        used_card: spec_empty_card_index(s.cards),
        candidate_cards: offers,
        new_projects: fut.new_projects,
        new_cards: fut.new_cards,
    };
    let mock1 = spec_output_r(mock0, choice);
    let agent1 = spec_refill_card(s, choice, offers.map_values(|cp: (Card, i64)| cp.0));
    spec_playout(SimView { agent: agent1, mock: mock1 }, pm, tt, t0).agent.score
}

/// Sum of the first `n` trials' final scores.
pub open spec fn spec_trials_sum(
    fs: Seq<SimFuture>,
    s: StateView,
    pm: Param,
    tt: int,
    t0: int,
    choice: int,
    offers: Seq<(Card, i64)>,
    n: int,
) -> int
    decreases n,
{
    if n <= 0 {
        0
    } else {
        spec_trials_sum(fs, s, pm, tt, t0, choice, offers, n - 1) + spec_trial_score(
            s,
            pm,
            tt,
            t0,
            choice,
            offers,
            fs[n - 1]@,
        )
    }
}

/// Everything a trial keeps invariant from one turn boundary to the next:
/// the agent's state is well formed, the world is well formed and agrees
/// with the agent on hand, projects and level, the hand has no empty slot,
/// both scores sit inside the budget that the remaining turns can still
/// move them by, and the pre-generated future lasts to the horizon.
pub open spec fn sim_inv(agent: StateView, mock: MockView, tt: int, t: int) -> bool {
    &&& agent.wf()
    &&& mock_wf(mock)
    &&& mock.cards == agent.cards
    &&& mock.projects == agent.projects
    &&& mock.invest_level == agent.invest_level
    &&& forall|j: int| 0 <= j < agent.cards.len() ==> !((#[trigger] agent.cards[j]) is Empty)
    &&& -(SCORE_BOUND - (tt - t) * 2 * PRICE_BOUND) <= mock.score
    &&& mock.score <= SCORE_BOUND - (tt - t) * 2 * PRICE_BOUND
    &&& -(SCORE_BOUND - (tt - t) * 2 * PRICE_BOUND) <= agent.score
    &&& agent.score <= SCORE_BOUND - (tt - t) * 2 * PRICE_BOUND
    &&& mock.new_projects.len() >= (tt - t) * mock.projects.len()
    &&& mock.t_idx + (tt - t) <= mock.new_cards.len()
}

/// Run one trial: copy the live state, force `new_select_card` as this
/// turn's refill, then play the remaining turns with the selection policy
/// against the pre-generated future, and report the final score.
pub fn run_trial(
    cur_state: &State,
    param: &Param,
    input: &Input,
    cur_t: usize,
    new_select_card: usize,
    new_cards: &Vec<(Card, i64)>,
    future: SimFuture,
) -> (r: i64)
    requires
        cur_state@.wf(),
        param.wf(),
        input.wf(),
        cur_t < input.t,
        -SIM_SCORE_BOUND <= cur_state@.score <= SIM_SCORE_BOUND,
        exists|i: int|
            0 <= i < cur_state@.cards.len() && (#[trigger] cur_state@.cards[i]) is Empty,
        forall|j: int|
            0 <= j < cur_state@.cards.len() && j != spec_empty_card_index(cur_state@.cards)
                ==> !((#[trigger] cur_state@.cards[j]) is Empty),
        new_select_card < new_cards@.len(),
        sim_offers_wf(new_cards@),
        future_wf(future@),
        future@.new_cards.len() >= input.t - cur_t,
        future@.new_projects.len() >= (input.t - cur_t) * cur_state@.projects.len(),
    ensures
        r as int == spec_trial_score(
            cur_state@,
            *param,
            input.t as int,
            cur_t as int,
            new_select_card as int,
            new_cards@,
            future@,
        ),
        -SCORE_BOUND <= r <= SCORE_BOUND,
{
    let ghost tt = input.t as int;
    let ghost pm = *param;
    let sc = cur_state.deep_copy();
    let empty_idx = match sc.empty_card_index() {
        Some(i) => i,
        None => {
            proof {
                let i = choose|i: int|
                    0 <= i < cur_state@.cards.len() && (#[trigger] cur_state@.cards[i]) is Empty;
                assert(false);
            }
            0
        },
    };
    proof {
        lemma_empty_card_index_first(cur_state@.cards, empty_idx as int);
    }
    let mut offers_copy: Vec<(Card, i64)> = Vec::new();
    let mut oi: usize = 0;
    while oi < new_cards.len()
        invariant
            oi <= new_cards@.len(),
            offers_copy@ == new_cards@.subrange(0, oi as int),
        decreases new_cards@.len() - oi,
    {
        offers_copy.push(new_cards[oi]);
        oi = oi + 1;
    }
    proof {
        assert(offers_copy@ =~= new_cards@);
    }
    let mut mock = MockInteractor::new(&sc, empty_idx, offers_copy, future);
    mock.output_r(new_select_card);
    let mut solver = Solver { state: sc, param: *param };
    solver.state.refill_card(new_select_card, new_cards);
    let ghost sv0 = SimView { agent: solver.state@, mock: mock@ };
    proof {
        let s = cur_state@;
        let mock0 = MockView {
            t_idx: 0,
            score: s.score,
            invest_level: s.invest_level,
            cards: s.cards,
            projects: s.projects,
            used_card: spec_empty_card_index(s.cards),
            candidate_cards: new_cards@,
            new_projects: future@.new_projects,
            new_cards: future@.new_cards,
        };
        assert(mock@ =~= spec_output_r(mock0, new_select_card as int));
        assert(sv0.agent =~= spec_refill_card(
            s,
            new_select_card as int,
            new_cards@.map_values(|cp: (Card, i64)| cp.0),
        ));
        assert(sv0.agent.cards =~= s.cards.update(
            empty_idx as int,
            new_cards@[new_select_card as int].0,
        ));
        assert(sv0.mock.cards =~= sv0.agent.cards);
        assert(sim_inv(sv0.agent, sv0.mock, tt, cur_t as int));
    }
    let mut t: usize = cur_t;
    while t < input.t
        invariant
            cur_t <= t <= input.t,
            input.wf(),
            tt == input.t as int,
            pm == *param,
            solver.param == pm,
            pm.wf(),
            sim_inv(solver.state@, mock@, tt, t as int),
            spec_playout(SimView { agent: solver.state@, mock: mock@ }, pm, tt, t as int)
                == spec_playout(sv0, pm, tt, cur_t as int),
        decreases input.t - t,
    {
        let ghost sv_cur = SimView { agent: solver.state@, mock: mock@ };
        let ghost a0 = solver.state@;
        let (c, m) = solver.select_use_card(t);
        proof {
            let lm = mock@.projects.len() as int;
            assert((tt - t) * lm >= 1 * lm && (tt - t) * lm - lm == (tt - t - 1) * lm)
                by (nonlinear_arith)
                requires tt - t >= 1 && lm >= 0;
        }
        mock.output_c(c, m);
        let ghost m1 = mock@;
        solver.state.use_card(c, t);
        let ghost a1 = solver.state@;
        let (projects, score, cands) = mock.read_status();
        let ghost m2 = mock@;
        solver.state.apply_status(projects, score);
        let ghost a2 = solver.state@;
        proof {
            assert(a2 =~= (StateView { projects: m2.projects, score: m2.score, ..a1 }));
            assert(cands@ == m2.candidate_cards);
            assert(cands@ == spec_candidates(m1));
            assert(cands@.len() == m1.new_cards[m1.t_idx].len());
            assert(crate::solver::offers_wf(cands@));
            assert(a2.wf());
        }
        let r = if t + 1 < input.t {
            solver.select_new_card(&cands, t)
        } else {
            0
        };
        mock.output_r(r);
        solver.state.refill_card(r, &cands);
        proof {
            let ghost m3 = mock@;
            let ghost a3 = solver.state@;
            // the slot just vacated is the first empty one, so the refill
            // lands where the world put it
            assert(a2.cards == a0.cards.update(c as int, Card::Empty));
            assert(a2.cards[c as int] is Empty);
            assert(forall|j: int| 0 <= j < c ==> !((#[trigger] a2.cards[j]) is Empty));
            lemma_empty_card_index_first(a2.cards, c as int);
            assert(m1.used_card == c as int);
            assert(a3 =~= spec_refill_card(
                a2,
                r as int,
                m2.candidate_cards.map_values(|cp: (Card, i64)| cp.0),
            ));
            assert(a3.cards =~= a0.cards.update(c as int, m2.candidate_cards[r as int].0));
            assert(m3.cards =~= a3.cards);
            assert(SimView { agent: a3, mock: m3 } =~= spec_sim_turn(sv_cur, pm, tt, t as int));
            assert(!(m2.candidate_cards[r as int].0 is Empty));
            let lm = m3.projects.len() as int;
            assert((tt - t) * lm - lm == (tt - t - 1) * lm) by (nonlinear_arith);
            assert(sim_inv(a3, m3, tt, t as int + 1));
        }
        t = t + 1;
    }
    proof {
        assert(spec_playout(SimView { agent: solver.state@, mock: mock@ }, pm, tt, tt)
            == SimView { agent: solver.state@, mock: mock@ });
    }
    solver.state.score
}

/// The Monte Carlo refill scorer: run one trial per pre-generated future,
/// each forcing offered card `new_select_card` as this turn's refill, and
/// return the mean of the final scores (integer division, toward zero, as
/// the scores are summed in whole points).
pub fn montecarlo(
    futures: Vec<SimFuture>,
    cur_state: &State,
    param: &Param,
    input: &Input,
    cur_t: usize,
    new_select_card: usize,
    new_cards: &Vec<(Card, i64)>,
) -> (r: i64)
    requires
        cur_state@.wf(),
        param.wf(),
        input.wf(),
        cur_t < input.t,
        -SIM_SCORE_BOUND <= cur_state@.score <= SIM_SCORE_BOUND,
        exists|i: int|
            0 <= i < cur_state@.cards.len() && (#[trigger] cur_state@.cards[i]) is Empty,
        forall|j: int|
            0 <= j < cur_state@.cards.len() && j != spec_empty_card_index(cur_state@.cards)
                ==> !((#[trigger] cur_state@.cards[j]) is Empty),
        new_select_card < new_cards@.len(),
        sim_offers_wf(new_cards@),
        futures@.len() >= 1,
        forall|i: int|
            0 <= i < futures@.len() ==> {
                &&& future_wf((#[trigger] futures@[i])@)
                &&& futures@[i]@.new_cards.len() >= input.t - cur_t
                &&& futures@[i]@.new_projects.len() >= (input.t - cur_t)
                    * cur_state@.projects.len()
            },
    ensures
        r as int == spec_trunc_div(
            spec_trials_sum(
                futures@,
                cur_state@,
                *param,
                input.t as int,
                cur_t as int,
                new_select_card as int,
                new_cards@,
                futures@.len() as int,
            ),
            futures@.len() as int,
        ),
{
    let ghost fs0 = futures@;
    let rounds = futures.len();
    let mut futures = futures;
    let mut sum: i128 = 0;
    while futures.len() > 0
        invariant
            futures@ == fs0.subrange(0, futures@.len() as int),
            rounds == fs0.len(),
            cur_state@.wf(),
            param.wf(),
            input.wf(),
            cur_t < input.t,
            -SIM_SCORE_BOUND <= cur_state@.score <= SIM_SCORE_BOUND,
            exists|i: int|
                0 <= i < cur_state@.cards.len() && (#[trigger] cur_state@.cards[i]) is Empty,
            forall|j: int|
                0 <= j < cur_state@.cards.len() && j != spec_empty_card_index(cur_state@.cards)
                    ==> !((#[trigger] cur_state@.cards[j]) is Empty),
            new_select_card < new_cards@.len(),
            sim_offers_wf(new_cards@),
            forall|i: int|
                0 <= i < fs0.len() ==> {
                    &&& future_wf((#[trigger] fs0[i])@)
                    &&& fs0[i]@.new_cards.len() >= input.t - cur_t
                    &&& fs0[i]@.new_projects.len() >= (input.t - cur_t)
                        * cur_state@.projects.len()
                },
            sum == spec_trials_sum(
                fs0,
                cur_state@,
                *param,
                input.t as int,
                cur_t as int,
                new_select_card as int,
                new_cards@,
                fs0.len() as int,
            ) - spec_trials_sum(
                fs0,
                cur_state@,
                *param,
                input.t as int,
                cur_t as int,
                new_select_card as int,
                new_cards@,
                futures@.len() as int,
            ),
            -((fs0.len() - futures@.len()) * SCORE_BOUND) <= sum,
            sum <= (fs0.len() - futures@.len()) * SCORE_BOUND,
        decreases futures@.len(),
    {
        let ghost rem = futures@.len() as int;
        let f = match futures.pop() {
            Some(f) => f,
            None => {
                proof {
                    assert(false);
                }
                SimFuture { new_projects: Vec::new(), new_cards: Vec::new() }
            },
        };
        proof {
            assert(f == fs0[rem - 1]);
            assert(futures@ =~= fs0.subrange(0, rem - 1));
        }
        let score = run_trial(
            cur_state,
            param,
            input,
            cur_t,
            new_select_card,
            new_cards,
            f,
        );
        sum = sum + (score as i128);
        proof {
            lemma_mul_bound(
                fs0.len() - rem + 1,
                SCORE_BOUND as int,
                fs0.len() as int,
                SCORE_BOUND as int,
            );
        }
    }
    proof {
        assert(fs0.len() * SCORE_BOUND >= 0) by (nonlinear_arith)
            requires fs0.len() >= 0;
    }
    let mean = trunc_div(sum, rounds as i128);
    proof {
        assert((SCORE_BOUND as int) * (rounds as int) == (rounds as int) * (SCORE_BOUND as int))
            by (nonlinear_arith);
        assert(-((SCORE_BOUND as int) * (rounds as int)) <= sum as int <= (SCORE_BOUND as int) * (
        rounds as int));
        assert(-SCORE_BOUND <= mean <= SCORE_BOUND);
    }
    mean as i64
}

} // verus!
