use vstd::prelude::*;

use crate::def::{
    Card, Input, Param, Project, State, StateView, ALPHA_BOUND, HORIZON, LEN_BOUND, MAX_INVEST_LEVEL,
    PRICE_BOUND, SCALE, VAL_BOUND,
};
use crate::num::{
    div_nn, lemma_mul_bound, lemma_p2_20, lemma_p2_mono, p2, pow2_i64, round_div, spec_round_div,
    util_lt, Util,
};

verus! {

/// Ranking sentinel: infeasible targets get a key below this negated, so
/// they rank under every feasible target.
pub const KEY_INF: i128 = 1_000_000_000_000_000_000;

/// The decision engine: the live state together with the tuning constants.
pub struct Solver {
    pub state: State,
    pub param: Param,
}

/// Work that can still be brought to bear from turn `t` on after paying
/// `p`: one unit of work per remaining turn scaled by the investment level,
/// plus the score left over.
pub open spec fn spec_remain_w(s: StateView, t: int, p: int) -> int {
    (999 - t) * p2(s.invest_level as nat) + s.score - p
}

/// x^beta for the two supported exponents of the work return.
pub open spec fn spec_pow_b(x: int, beta: int) -> int {
    if beta == 1 {
        x
    } else {
        x * x
    }
}

/// Ranking key of a project for a single-target work card: the capped
/// power-law return of the card against the project minus the overflow,
/// both in units of 1/10000 of reward. Projects whose remaining work
/// exceeds the whole remaining budget rank below everything.
pub open spec fn spec_work_key(pr: Project, w: i64, beta: int, rem: int) -> int {
    if pr.h > w + rem {
        -(KEY_INF as int) - pr.h
    } else {
        let mn: int = if w <= pr.h {
            w as int
        } else {
            pr.h as int
        };
        spec_pow_b(mn, beta) * pr.v * 10000 / spec_pow_b(pr.h as int, beta) - (if w >= pr.h {
            (w - pr.h) as int
        } else {
            0
        }) * 10000
    }
}

/// Ranking key of a project for a single-target cancel card: by how much
/// the remaining work exceeds the reward, relative to the remaining work.
pub open spec fn spec_cancel_key(pr: Project) -> int {
    spec_round_div((pr.h - pr.v) * 10000, pr.h as int)
}

/// Index of the last maximum among the first `n` keys (the tie-break the
/// target choice inherits from scanning with `>=`).
pub open spec fn last_max_upto(keys: Seq<int>, n: int) -> int
    decreases n,
{
    if n <= 1 {
        0
    } else {
        let b = last_max_upto(keys, n - 1);
        if keys[n - 1] >= keys[b] {
            n - 1
        } else {
            b
        }
    }
}

/// Index of the first maximum among the first `n` utilities: ties between
/// cards go to the lowest index.
pub open spec fn first_max_upto(us: Seq<Util>, n: int) -> int
    decreases n,
{
    if n <= 1 {
        0
    } else {
        let b = first_max_upto(us, n - 1);
        if util_lt(us[b], us[n - 1]) {
            n - 1
        } else {
            b
        }
    }
}

pub open spec fn spec_work_keys(projects: Seq<Project>, w: i64, beta: int, rem: int) -> Seq<int> {
    projects.map_values(|pr: Project| spec_work_key(pr, w, beta, rem))
}

pub open spec fn spec_cancel_keys(projects: Seq<Project>) -> Seq<int> {
    projects.map_values(|pr: Project| spec_cancel_key(pr))
}

/// Insert `x` into an ascending sequence, before the first larger element.
pub open spec fn spec_ins(x: i64, s: Seq<i64>) -> Seq<i64>
    decreases s.len(),
{
    if s.len() == 0 {
        seq![x]
    } else if x <= s[0] {
        seq![x] + s
    } else {
        seq![s[0]] + spec_ins(x, s.drop_first())
    }
}

/// Insertion sort, ascending.
pub open spec fn spec_isort(s: Seq<i64>) -> Seq<i64>
    decreases s.len(),
{
    if s.len() == 0 {
        Seq::empty()
    } else {
        spec_ins(s[0], spec_isort(s.drop_first()))
    }
}

/// The remaining-work amounts of the projects, in project order.
pub open spec fn spec_hs(projects: Seq<Project>) -> Seq<i64> {
    projects.map_values(|pr: Project| pr.h)
}

/// Number of projects a work-all card can feasibly finish when they are
/// taken in the given order and each accepted project's shortfall is
/// consumed from a shared budget `rem`.
pub open spec fn spec_feas_count(hs: Seq<i64>, w: i64, rem: int) -> int
    decreases hs.len(),
{
    if hs.len() == 0 {
        0
    } else if hs[0] - w <= rem {
        1 + spec_feas_count(hs.drop_first(), w, rem - (hs[0] - w))
    } else {
        spec_feas_count(hs.drop_first(), w, rem)
    }
}

/// Total overflow penalty of applying `w` to the first `n` projects at
/// once, in units of 1/SCALE.
pub open spec fn spec_overflow_sum(projects: Seq<Project>, n: int, w: i64, alpha: i64) -> int
    decreases n,
{
    if n <= 0 {
        0
    } else {
        spec_overflow_sum(projects, n - 1, w, alpha) + (if w >= projects[n - 1].h {
            (w - projects[n - 1].h) as int
        } else {
            0
        }) * alpha
    }
}

/// Total utility of cancelling the first `n` projects: work avoided
/// weighted by the cancel weight, minus the rewards forgone, in units of
/// 1/SCALE.
pub open spec fn spec_cancel_sum(projects: Seq<Project>, n: int, calpha: i64) -> int
    decreases n,
{
    if n <= 0 {
        0
    } else {
        spec_cancel_sum(projects, n - 1, calpha) + projects[n - 1].h * calpha - projects[n
            - 1].v * SCALE
    }
}

/// How many of the first `n` cards are investment cards.
pub open spec fn spec_count_invest(cards: Seq<Card>, n: int) -> int
    decreases n,
{
    if n <= 0 {
        0
    } else {
        spec_count_invest(cards, n - 1) + if cards[n - 1] is Invest {
            1int
        } else {
            0int
        }
    }
}

/// The per-card utility evaluator: utility of playing (or, with `refill`,
/// installing) `card` at acquisition price `p` on turn `t`, together with
/// the project index a single-target card would be aimed at.
pub open spec fn spec_eval(s: StateView, pm: Param, card: Card, p: int, t: int, refill: bool) -> (
    Util,
    int,
) {
    if p > s.score {
        (Util::NegInf, 0int)
    } else {
        let a_of = if refill {
            pm.overflow_alpha_refill
        } else {
            pm.overflow_alpha
        };
        let a_all = if refill {
            pm.overflow_alpha_all_refill
        } else {
            pm.overflow_alpha_all
        };
        let c_a = if refill {
            pm.cancel_alpha_refill
        } else {
            pm.cancel_alpha
        };
        let c_all = if refill {
            pm.cancel_alpha_all_refill
        } else {
            pm.cancel_alpha_all
        };
        match card {
            Card::WorkSingle(w) => {
                let rem = spec_remain_w(s, t, p);
                let m = last_max_upto(
                    spec_work_keys(s.projects, w, pm.work_single_beta as int, rem),
                    s.projects.len() as int,
                );
                if s.projects[m].h > w + rem && p > 0 {
                    (Util::NegInf, m)
                } else {
                    let ovf: int = if w >= s.projects[m].h {
                        w - s.projects[m].h
                    } else {
                        0
                    };
                    (Util::Fin(((w - p) * SCALE - ovf * a_of) as i128), m)
                }
            },
            Card::WorkAll(w) => {
                let rem = spec_remain_w(s, t, p);
                let cnt = spec_feas_count(spec_isort(spec_hs(s.projects)), w, rem);
                let fin = (w * cnt - p) * SCALE - spec_overflow_sum(
                    s.projects,
                    s.projects.len() as int,
                    w,
                    a_all,
                );
                (Util::Fin(fin as i128), 0int)
            },
            Card::CancelSingle => {
                let m = last_max_upto(spec_cancel_keys(s.projects), s.projects.len() as int);
                if t >= pm.cancel_limit {
                    (Util::NegInf, m)
                } else {
                    (Util::Fin((s.projects[m].h * c_a - (s.projects[m].v + p) * SCALE) as i128), m)
                }
            },
            Card::CancelAll => {
                if t >= pm.cancel_limit {
                    (Util::NegInf, 0int)
                } else {
                    (
                        Util::Fin(
                            (spec_cancel_sum(s.projects, s.projects.len() as int, c_all) - p
                                * SCALE) as i128,
                        ),
                        0int,
                    )
                }
            },
            Card::Invest => {
                if s.invest_level >= MAX_INVEST_LEVEL {
                    (Util::NegInf, 0int)
                } else {
                    let cnt = spec_count_invest(s.cards, s.cards.len() as int);
                    if cnt == s.cards.len() || ((t >= pm.invest_limit || s.last_invest_round + 1
                        == t) && p == 0) || cnt + s.invest_level == MAX_INVEST_LEVEL {
                        (Util::PosInf, 0int)
                    } else {
                        (Util::NegInf, 0int)
                    }
                }
            },
            Card::Empty => (Util::NegInf, 0int),
        }
    }
}

/// The refill-mode evaluator: investment cards get a return-on-investment
/// test instead of the play-mode deadline rules; every other card is
/// evaluated in refill mode.
pub open spec fn spec_eval_refill(s: StateView, pm: Param, card: Card, p: int, t: int) -> Util {
    if p > s.score {
        Util::NegInf
    } else {
        match card {
            Card::Invest => {
                if s.invest_level >= MAX_INVEST_LEVEL || t >= pm.invest_limit {
                    Util::NegInf
                } else {
                    let cnt = spec_count_invest(s.cards, s.cards.len() as int);
                    if (2 * s.score >= 3 * p && p / p2(s.invest_level as nat) < pm.invest_cost)
                        || cnt == s.cards.len() - 1 || s.invest_level == MAX_INVEST_LEVEL - 1 {
                        Util::PosInf
                    } else {
                        Util::NegInf
                    }
                }
            },
            _ => spec_eval(s, pm, card, p, t, true).0,
        }
    }
}

/// Utilities of playing each held card now, at price 0.
pub open spec fn spec_play_utils(s: StateView, pm: Param, t: int) -> Seq<Util> {
    s.cards.map_values(|c: Card| spec_eval(s, pm, c, 0, t, false).0)
}

/// The play decision: the first held card of maximal utility, and the
/// project it is aimed at.
pub open spec fn spec_select_use_card(s: StateView, pm: Param, t: int) -> (int, int) {
    let bi = first_max_upto(spec_play_utils(s, pm, t), s.cards.len() as int);
    (bi, spec_eval(s, pm, s.cards[bi], 0, t, false).1)
}

/// Utilities of installing each offered (card, price) pair.
pub open spec fn spec_refill_utils(s: StateView, pm: Param, offers: Seq<(Card, i64)>, t: int) -> Seq<
    Util,
> {
    offers.map_values(|cp: (Card, i64)| spec_eval_refill(s, pm, cp.0, cp.1 as int, t))
}

/// The refill decision: the first offered card of maximal utility.
pub open spec fn spec_select_new_card(s: StateView, pm: Param, offers: Seq<(Card, i64)>, t: int) -> int {
    first_max_upto(spec_refill_utils(s, pm, offers, t), offers.len() as int)
}

/// A well-formed offer list: bounded work amounts and prices.
pub open spec fn offers_wf(offers: Seq<(Card, i64)>) -> bool {
    forall|i: int|
        0 <= i < offers.len() ==> (#[trigger] offers[i]).0.wf() && 0 <= offers[i].1 <= PRICE_BOUND
}

/// x^beta, executable.
fn pow_b(x: i64, beta: u32) -> (r: i128)
    requires
        0 <= x <= VAL_BOUND,
        1 <= beta <= 2,
    ensures
        r == spec_pow_b(x as int, beta as int),
        0 <= r <= 0x1000_0000_0000_0000,
        x >= 1 ==> r >= 1,
{
    if beta == 1 {
        x as i128
    } else {
        proof {
            lemma_mul_bound(x as int, x as int, VAL_BOUND as int, VAL_BOUND as int);
            if x >= 1 {
                assert(x as int * x as int >= 1) by (nonlinear_arith)
                    requires x as int >= 1;
            }
        }
        (x as i128) * (x as i128)
    }
}

/// Ranking key of one project for a single-target work card, executable.
fn work_key(pr: &Project, w: i64, beta: u32, rem: i64) -> (r: i128)
    requires
        pr.wf(),
        0 <= w <= VAL_BOUND,
        1 <= beta <= 2,
        -0x2000_0000_0000_0000 <= rem <= 0x2000_0000_0000_0000,
    ensures
        r == spec_work_key(*pr, w, beta as int, rem as int),
{
    if pr.h > w + rem {
        -KEY_INF - (pr.h as i128)
    } else {
        let mn: i64 = if w <= pr.h {
            w
        } else {
            pr.h
        };
        let mb: i128 = pow_b(mn, beta);
        let hb: i128 = pow_b(pr.h, beta);
        proof {
            lemma_mul_bound(mb as int, pr.v as int, 0x1000_0000_0000_0000, VAL_BOUND as int);
            lemma_mul_bound(
                mb as int * pr.v as int,
                10000,
                0x1000_0000_0000_0000 * (VAL_BOUND as int),
                10000,
            );
        }
        let t1: i128 = mb * (pr.v as i128) * 10000;
        let q: i128 = div_nn(t1, hb);
        let ovf: i128 = if w >= pr.h {
            (w - pr.h) as i128
        } else {
            0
        };
        q - ovf * 10000
    }
}

/// Ranking key of one project for a single-target cancel card, executable.
fn cancel_key(pr: &Project) -> (r: i128)
    requires
        pr.wf(),
    ensures
        r == spec_cancel_key(*pr),
{
    let d: i128 = (pr.h as i128) - (pr.v as i128);
    round_div(d * 10000, pr.h as i128)
}

/// How many held cards are investment cards, executable.
fn count_invest(cards: &Vec<Card>) -> (r: usize)
    ensures
        r as int == spec_count_invest(cards@, cards@.len() as int),
        r <= cards@.len(),
{
    let mut c: usize = 0;
    let mut i: usize = 0;
    while i < cards.len()
        invariant
            i <= cards@.len(),
            c <= i,
            c as int == spec_count_invest(cards@, i as int),
        decreases cards@.len() - i,
    {
        if matches!(cards[i], Card::Invest) {
            c = c + 1;
        }
        i = i + 1;
    }
    c
}

/// Insert `x` into the tail of `v` starting at `from`, keeping ascending
/// order; executable mirror of `spec_ins`.
fn ins_exec(x: i64, v: &Vec<i64>, from: usize) -> (r: Vec<i64>)
    requires
        from <= v@.len(),
    ensures
        r@ == spec_ins(x, v@.skip(from as int)),
    decreases v@.len() - from,
{
    if from == v.len() {
        let mut r: Vec<i64> = Vec::new();
        r.push(x);
        proof {
            assert(v@.skip(from as int) =~= Seq::<i64>::empty());
            assert(r@ =~= seq![x]);
        }
        r
    } else if x <= v[from] {
        let mut r: Vec<i64> = Vec::new();
        r.push(x);
        let mut i: usize = from;
        while i < v.len()
            invariant
                from <= i <= v@.len(),
                r@ == seq![x] + v@.subrange(from as int, i as int),
            decreases v@.len() - i,
        {
            r.push(v[i]);
            proof {
                assert(r@ =~= seq![x] + v@.subrange(from as int, i + 1));
            }
            i = i + 1;
        }
        proof {
            assert(v@.subrange(from as int, v@.len() as int) =~= v@.skip(from as int));
        }
        r
    } else {
        let mut r = ins_exec(x, v, from + 1);
        r.insert(0, v[from]);
        proof {
            assert(v@.skip(from as int).drop_first() =~= v@.skip(from as int + 1));
            assert(r@ =~= seq![v@[from as int]] + spec_ins(x, v@.skip(from as int + 1)));
        }
        r
    }
}

/// Insertion sort of the tail of `v` starting at `from`; executable mirror
/// of `spec_isort`.
fn isort_exec(v: &Vec<i64>, from: usize) -> (r: Vec<i64>)
    requires
        from <= v@.len(),
    ensures
        r@ == spec_isort(v@.skip(from as int)),
    decreases v@.len() - from,
{
    if from == v.len() {
        let r: Vec<i64> = Vec::new();
        proof {
            assert(v@.skip(from as int) =~= Seq::<i64>::empty());
        }
        r
    } else {
        let rest = isort_exec(v, from + 1);
        let r = ins_exec(v[from], &rest, 0);
        proof {
            assert(rest@.skip(0) =~= rest@);
            assert(v@.skip(from as int).drop_first() =~= v@.skip(from as int + 1));
            assert(v@.skip(from as int)[0] == v@[from as int]);
        }
        r
    }
}

/// Every element of `spec_ins(x, s)` lies between the bounds of `x` and of
/// the elements of `s`.
proof fn lemma_ins_bounds(x: i64, s: Seq<i64>, lo: i64, hi: i64)
    requires
        lo <= x <= hi,
        forall|i: int| 0 <= i < s.len() ==> lo <= #[trigger] s[i] <= hi,
    ensures
        forall|i: int| 0 <= i < spec_ins(x, s).len() ==> lo <= #[trigger] spec_ins(x, s)[i] <= hi,
        spec_ins(x, s).len() == s.len() + 1,
    decreases s.len(),
{
    if s.len() != 0 && !(x <= s[0]) {
        assert(forall|i: int| 0 <= i < s.drop_first().len() ==> lo <= #[trigger] s.drop_first()[i] <= hi);
        lemma_ins_bounds(x, s.drop_first(), lo, hi);
    }
}

/// Sorting keeps the element bounds and the length.
proof fn lemma_isort_bounds(s: Seq<i64>, lo: i64, hi: i64)
    requires
        forall|i: int| 0 <= i < s.len() ==> lo <= #[trigger] s[i] <= hi,
    ensures
        forall|i: int|
            0 <= i < spec_isort(s).len() ==> lo <= #[trigger] spec_isort(s)[i] <= hi,
        spec_isort(s).len() == s.len(),
    decreases s.len(),
{
    if s.len() != 0 {
        assert(forall|i: int| 0 <= i < s.drop_first().len() ==> lo <= #[trigger] s.drop_first()[i] <= hi);
        lemma_isort_bounds(s.drop_first(), lo, hi);
        lemma_ins_bounds(s[0], spec_isort(s.drop_first()), lo, hi);
    }
}

impl Solver {
    pub open spec fn wf(self) -> bool {
        self.state@.wf() && self.param.wf()
    }

    /// Feasibility budget: work still achievable from turn `t` on after
    /// paying `p`.
    pub fn remain_w(&self, t: usize, p: i64) -> (r: i64)
        requires
            self.wf(),
            t < HORIZON,
            -PRICE_BOUND <= p <= PRICE_BOUND,
        ensures
            r == spec_remain_w(self.state@, t as int, p as int),
            -0x2000_0000_0000_0000 <= r <= 0x2000_0000_0000_0000,
    {
        let pw = pow2_i64(self.state.invest_level);
        proof {
            lemma_p2_mono(self.state@.invest_level as nat, 20);
            lemma_p2_20();
            lemma_mul_bound(999 - t as int, pw as int, 999, 0x10_0000);
        }
        (999 - t as i64) * pw + (self.state.score - p)
    }

    /// The evaluation engine (section of the design: per-card utility).
    /// Returns the utility of the card and the project index a
    /// single-target card would be aimed at.
    pub fn eval(&self, card: &Card, p: i64, t: usize, refill: bool) -> (r: (Util, usize))
        requires
            self.wf(),
            card.wf(),
            0 <= p <= PRICE_BOUND,
            t < HORIZON,
        ensures
            r.0 == spec_eval(self.state@, self.param, *card, p as int, t as int, refill).0,
            r.1 as int == spec_eval(self.state@, self.param, *card, p as int, t as int, refill).1,
            r.1 < self.state@.projects.len(),
    {
        let ghost sv = self.state@;
        let ghost pm = self.param;
        if p > self.state.score {
            return (Util::NegInf, 0);
        }
        let a_of = if refill {
            self.param.overflow_alpha_refill
        } else {
            self.param.overflow_alpha
        };
        let a_all = if refill {
            self.param.overflow_alpha_all_refill
        } else {
            self.param.overflow_alpha_all
        };
        let c_a = if refill {
            self.param.cancel_alpha_refill
        } else {
            self.param.cancel_alpha
        };
        let c_all = if refill {
            self.param.cancel_alpha_all_refill
        } else {
            self.param.cancel_alpha_all
        };
        match card {
            Card::WorkSingle(w) => {
                let w = *w;
                let beta = self.param.work_single_beta;
                let rem = self.remain_w(t, p);
                let ghost keys = spec_work_keys(sv.projects, w, beta as int, rem as int);
                let mut bi: usize = 0;
                let mut bk: i128 = work_key(&self.state.projects[0], w, beta, rem);
                let mut i: usize = 1;
                while i < self.state.projects.len()
                    invariant
                        self.wf(),
                        0 <= w <= VAL_BOUND,
                        1 <= beta <= 2,
                        -0x2000_0000_0000_0000 <= rem <= 0x2000_0000_0000_0000,
                        keys == spec_work_keys(sv.projects, w, beta as int, rem as int),
                        sv == self.state@,
                        1 <= i <= sv.projects.len(),
                        bi < i,
                        bi as int == last_max_upto(keys, i as int),
                        bk == keys[bi as int],
                    decreases sv.projects.len() - i,
                {
                    let k = work_key(&self.state.projects[i], w, beta, rem);
                    if k >= bk {
                        bi = i;
                        bk = k;
                    }
                    i = i + 1;
                }
                let hm = self.state.projects[bi].h;
                if hm > w + rem && p > 0 {
                    return (Util::NegInf, bi);
                }
                let ovf: i128 = if w >= hm {
                    (w - hm) as i128
                } else {
                    0
                };
                proof {
                    lemma_mul_bound(ovf as int, a_of as int, VAL_BOUND as int, ALPHA_BOUND as int);
                }
                let fin: i128 = ((w - p) as i128) * (SCALE as i128) - ovf * (a_of as i128);
                (Util::Fin(fin), bi)
            },
            Card::WorkAll(w) => {
                let w = *w;
                let rem = self.remain_w(t, p);
                let mut hs: Vec<i64> = Vec::new();
                let mut i: usize = 0;
                while i < self.state.projects.len()
                    invariant
                        self.wf(),
                        sv == self.state@,
                        i <= sv.projects.len(),
                        hs@ == spec_hs(sv.projects).subrange(0, i as int),
                    decreases sv.projects.len() - i,
                {
                    hs.push(self.state.projects[i].h);
                    proof {
                        assert(hs@ =~= spec_hs(sv.projects).subrange(0, i + 1));
                    }
                    i = i + 1;
                }
                proof {
                    assert(hs@ =~= spec_hs(sv.projects));
                }
                let sorted = isort_exec(&hs, 0);
                proof {
                    assert(hs@.skip(0) =~= hs@);
                    lemma_isort_bounds(hs@, 1, VAL_BOUND);
                }
                let ghost hs0 = spec_isort(spec_hs(sv.projects));
                proof {
                    assert(hs0.skip(0) =~= hs0);
                }
                let mut cnt: usize = 0;
                let mut remc: i64 = rem;
                let mut j: usize = 0;
                while j < sorted.len()
                    invariant
                        sorted@ == hs0,
                        0 <= w <= VAL_BOUND,
                        forall|q: int| 0 <= q < hs0.len() ==> 1 <= #[trigger] hs0[q] <= VAL_BOUND,
                        j <= hs0.len(),
                        hs0.len() <= LEN_BOUND,
                        cnt <= j,
                        -0x2000_0000_0000_0000 - (j as int) * 0x1_0000_0000 <= remc,
                        remc <= 0x2000_0000_0000_0000 + (j as int) * 0x1_0000_0000,
                        cnt as int + spec_feas_count(hs0.skip(j as int), w, remc as int)
                            == spec_feas_count(hs0, w, rem as int),
                    decreases hs0.len() - j,
                {
                    proof {
                        assert(hs0.skip(j as int).drop_first() =~= hs0.skip(j as int + 1));
                        assert(hs0.skip(j as int)[0] == hs0[j as int]);
                    }
                    let hj = sorted[j];
                    if hj - w <= remc {
                        remc = remc - (hj - w);
                        cnt = cnt + 1;
                    }
                    j = j + 1;
                }
                proof {
                    assert(hs0.skip(hs0.len() as int) =~= Seq::<i64>::empty());
                }
                let mut osum: i128 = 0;
                let mut q: usize = 0;
                while q < self.state.projects.len()
                    invariant
                        self.wf(),
                        sv == self.state@,
                        0 <= w <= VAL_BOUND,
                        0 <= a_all <= ALPHA_BOUND,
                        q <= sv.projects.len(),
                        osum == spec_overflow_sum(sv.projects, q as int, w, a_all),
                        0 <= osum <= (q as int) * 0x4_0000_0000_0000,
                    decreases sv.projects.len() - q,
                {
                    let h = self.state.projects[q].h;
                    if w >= h {
                        proof {
                            lemma_mul_bound(
                                (w - h) as int,
                                a_all as int,
                                VAL_BOUND as int,
                                ALPHA_BOUND as int,
                            );
                        }
                        osum = osum + ((w - h) as i128) * (a_all as i128);
                    }
                    q = q + 1;
                }
                proof {
                    lemma_mul_bound(w as int, cnt as int, VAL_BOUND as int, LEN_BOUND as int);
                }
                let fin: i128 = ((w as i128) * (cnt as i128) - (p as i128)) * (SCALE as i128)
                    - osum;
                (Util::Fin(fin), 0)
            },
            Card::CancelSingle => {
                let ghost keys = spec_cancel_keys(sv.projects);
                let mut bi: usize = 0;
                let mut bk: i128 = cancel_key(&self.state.projects[0]);
                let mut i: usize = 1;
                while i < self.state.projects.len()
                    invariant
                        self.wf(),
                        keys == spec_cancel_keys(sv.projects),
                        sv == self.state@,
                        1 <= i <= sv.projects.len(),
                        bi < i,
                        bi as int == last_max_upto(keys, i as int),
                        bk == keys[bi as int],
                    decreases sv.projects.len() - i,
                {
                    let k = cancel_key(&self.state.projects[i]);
                    if k >= bk {
                        bi = i;
                        bk = k;
                    }
                    i = i + 1;
                }
                if t >= self.param.cancel_limit {
                    return (Util::NegInf, bi);
                }
                let hm = self.state.projects[bi].h;
                let vm = self.state.projects[bi].v;
                proof {
                    lemma_mul_bound(hm as int, c_a as int, VAL_BOUND as int, ALPHA_BOUND as int);
                }
                let fin: i128 = (hm as i128) * (c_a as i128) - ((vm as i128) + (p as i128))
                    * (SCALE as i128);
                (Util::Fin(fin), bi)
            },
            Card::CancelAll => {
                if t >= self.param.cancel_limit {
                    return (Util::NegInf, 0);
                }
                let mut csum: i128 = 0;
                let mut q: usize = 0;
                while q < self.state.projects.len()
                    invariant
                        self.wf(),
                        sv == self.state@,
                        0 <= c_all <= ALPHA_BOUND,
                        q <= sv.projects.len(),
                        csum == spec_cancel_sum(sv.projects, q as int, c_all),
                        -(q as int) * 0x4_0000_0000_0000 <= csum <= (q as int)
                            * 0x4_0000_0000_0000,
                    decreases sv.projects.len() - q,
                {
                    let h = self.state.projects[q].h;
                    let v = self.state.projects[q].v;
                    proof {
                        lemma_mul_bound(h as int, c_all as int, VAL_BOUND as int, ALPHA_BOUND as int);
                        lemma_mul_bound(v as int, SCALE as int, VAL_BOUND as int, SCALE as int);
                    }
                    csum = csum + (h as i128) * (c_all as i128) - (v as i128) * (SCALE as i128);
                    q = q + 1;
                }
                let fin: i128 = csum - (p as i128) * (SCALE as i128);
                (Util::Fin(fin), 0)
            },
            Card::Invest => {
                if self.state.invest_level >= MAX_INVEST_LEVEL {
                    return (Util::NegInf, 0);
                }
                let cnt = count_invest(&self.state.cards);
                if cnt == self.state.cards.len() || ((t >= self.param.invest_limit
                    || self.state.last_invest_round + 1 == t) && p == 0) || cnt
                    + self.state.invest_level == MAX_INVEST_LEVEL {
                    (Util::PosInf, 0)
                } else {
                    (Util::NegInf, 0)
                }
            },
            Card::Empty => (Util::NegInf, 0),
        }
    }

    /// The refill-mode evaluator: a return-on-investment test for
    /// investment cards, the refill-weighted evaluation for the rest.
    pub fn eval_refill(&self, card: &Card, p: i64, t: usize) -> (r: Util)
        requires
            self.wf(),
            card.wf(),
            0 <= p <= PRICE_BOUND,
            t < HORIZON,
        ensures
            r == spec_eval_refill(self.state@, self.param, *card, p as int, t as int),
    {
        if p > self.state.score {
            return Util::NegInf;
        }
        match card {
            Card::Invest => {
                if self.state.invest_level >= MAX_INVEST_LEVEL || t >= self.param.invest_limit {
                    return Util::NegInf;
                }
                let cnt = count_invest(&self.state.cards);
                let pw = pow2_i64(self.state.invest_level);
                let disc = div_nn(p as i128, pw as i128);
                let cheap = 2 * (self.state.score as i128) >= 3 * (p as i128) && disc < (
                self.param.invest_cost as i128);
                if cheap || cnt == self.state.cards.len() - 1 || self.state.invest_level
                    == MAX_INVEST_LEVEL - 1 {
                    Util::PosInf
                } else {
                    Util::NegInf
                }
            },
            _ => {
                let r = self.eval(card, p, t, true);
                r.0
            },
        }
    }

    /// The play decision: evaluate every held card at price 0 and pick the
    /// first maximum; returns (card index, target project index). Pure and
    /// deterministic: equal states, turns and tuning give equal choices.
    pub fn select_use_card(&self, t: usize) -> (r: (usize, usize))
        requires
            self.wf(),
            t < HORIZON,
        ensures
            r.0 as int == spec_select_use_card(self.state@, self.param, t as int).0,
            r.1 as int == spec_select_use_card(self.state@, self.param, t as int).1,
            r.0 < self.state@.cards.len(),
            r.1 < self.state@.projects.len(),
    {
        let ghost sv = self.state@;
        let ghost pm = self.param;
        let ghost utils = spec_play_utils(sv, pm, t as int);
        let c0 = self.state.cards[0];
        let e0 = self.eval(&c0, 0, t, false);
        let mut bi: usize = 0;
        let mut bu: Util = e0.0;
        let mut bm: usize = e0.1;
        let mut i: usize = 1;
        while i < self.state.cards.len()
            invariant
                self.wf(),
                t < HORIZON,
                sv == self.state@,
                pm == self.param,
                utils == spec_play_utils(sv, pm, t as int),
                1 <= i <= sv.cards.len(),
                bi < i,
                bi as int == first_max_upto(utils, i as int),
                bu == utils[bi as int],
                bm as int == spec_eval(sv, pm, sv.cards[bi as int], 0, t as int, false).1,
                bm < sv.projects.len(),
            decreases sv.cards.len() - i,
        {
            let c = self.state.cards[i];
            let e = self.eval(&c, 0, t, false);
            if bu.lt(&e.0) {
                bi = i;
                bu = e.0;
                bm = e.1;
            }
            i = i + 1;
        }
        (bi, bm)
    }

    /// The refill decision away from the late-horizon window: evaluate
    /// every offered (card, price) pair in refill mode and pick the first
    /// maximum. Pure and deterministic.
    pub fn select_new_card(&self, new_cards: &Vec<(Card, i64)>, t: usize) -> (r: usize)
        requires
            self.wf(),
            t < HORIZON,
            new_cards@.len() >= 1,
            offers_wf(new_cards@),
        ensures
            r as int == spec_select_new_card(self.state@, self.param, new_cards@, t as int),
            r < new_cards@.len(),
    {
        let ghost sv = self.state@;
        let ghost pm = self.param;
        let ghost utils = spec_refill_utils(sv, pm, new_cards@, t as int);
        let (c0, p0) = new_cards[0];
        let mut bi: usize = 0;
        let mut bu: Util = self.eval_refill(&c0, p0, t);
        let mut i: usize = 1;
        while i < new_cards.len()
            invariant
                self.wf(),
                t < HORIZON,
                sv == self.state@,
                pm == self.param,
                offers_wf(new_cards@),
                utils == spec_refill_utils(sv, pm, new_cards@, t as int),
                1 <= i <= new_cards@.len(),
                bi < i,
                bi as int == first_max_upto(utils, i as int),
                bu == utils[bi as int],
            decreases new_cards@.len() - i,
        {
            let (c, p) = new_cards[i];
            let u = self.eval_refill(&c, p, t);
            if bu.lt(&u) {
                bi = i;
                bu = u;
            }
            i = i + 1;
        }
        bi
    }
}

/// The Monte Carlo ranking keys of the offered cards: a candidate whose
/// price exceeds the budget is non-viable and scored below every mean.
pub open spec fn spec_guarded_scores(offers: Seq<(Card, i64)>, scores: Seq<i64>, budget: int) -> Seq<
    int,
> {
    Seq::new(offers.len(), |i: int| if offers[i].1 <= budget {
        scores[i] as int
    } else {
        -1
    })
}

/// The late-horizon refill decision given the per-candidate Monte Carlo
/// means: the last candidate of maximal guarded score.
pub open spec fn spec_select_by_scores(
    offers: Seq<(Card, i64)>,
    scores: Seq<i64>,
    budget: int,
) -> int {
    last_max_upto(spec_guarded_scores(offers, scores, budget), offers.len() as int)
}

/// Whether the refill decision of turn `t` falls inside the late-horizon
/// window, where the Monte Carlo scorer replaces direct evaluation (the
/// very last turn always takes the first offer).
pub fn montecarlo_window(pm: &Param, input: &Input, t: usize) -> (r: bool)
    requires
        t < input.t,
    ensures
        r == (t >= pm.mc_start && t + 1 < input.t),
{
    t >= pm.mc_start && t + 1 < input.t
}

impl Solver {
    /// The late-horizon refill decision: among the offered cards, pick the
    /// one with the best Monte Carlo mean, skipping candidates the current
    /// score cannot pay for; ties go to the highest index.
    pub fn select_refill_by_scores(&self, scores: &Vec<i64>, new_cards: &Vec<(Card, i64)>) -> (r:
        usize)
        requires
            scores@.len() == new_cards@.len(),
            new_cards@.len() >= 1,
        ensures
            r as int == spec_select_by_scores(new_cards@, scores@, self.state@.score),
            r < new_cards@.len(),
    {
        let ghost keys = spec_guarded_scores(new_cards@, scores@, self.state@.score);
        let k0: i64 = if new_cards[0].1 <= self.state.score {
            scores[0]
        } else {
            -1
        };
        let mut bi: usize = 0;
        let mut bk: i64 = k0;
        let mut i: usize = 1;
        while i < new_cards.len()
            invariant
                scores@.len() == new_cards@.len(),
                keys == spec_guarded_scores(new_cards@, scores@, self.state@.score),
                1 <= i <= new_cards@.len(),
                bi < i,
                bi as int == last_max_upto(keys, i as int),
                bk == keys[bi as int],
            decreases new_cards@.len() - i,
        {
            let k: i64 = if new_cards[i].1 <= self.state.score {
                scores[i]
            } else {
                -1
            };
            if k >= bk {
                bi = i;
                bk = k;
            }
            i = i + 1;
        }
        bi
    }
}

} // verus!
