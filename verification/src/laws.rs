use vstd::prelude::*;

use crate::def::{Card, Param, StateView, HORIZON, SCALE};
use crate::num::{spec_trunc_div, util_le, util_lt, Util};
use crate::simulator::{spec_trial_score, spec_trials_sum, SimFuture};
use crate::solver::{
    first_max_upto, last_max_upto, spec_eval, spec_eval_refill, spec_select_new_card,
    spec_select_use_card, spec_work_keys,
};

verus! {

/// The selection policy's tie-break, proved: the chosen prefix index
/// carries a maximal utility, and every earlier index is strictly worse
/// (ties go to the lowest index).
pub proof fn lemma_first_max_is_max(us: Seq<Util>, n: int)
    requires
        n >= 1,
    ensures
        0 <= first_max_upto(us, n) < n,
        forall|j: int| 0 <= j < n ==> util_le(#[trigger] us[j], us[first_max_upto(us, n)]),
        forall|j: int|
            0 <= j < first_max_upto(us, n) ==> util_lt(#[trigger] us[j], us[first_max_upto(us, n)]),
    decreases n,
{
    if n > 1 {
        lemma_first_max_is_max(us, n - 1);
    }
}

/// The target choice's tie-break, proved: the chosen project index carries
/// a maximal ranking key, and every later index is strictly worse (ties go
/// to the highest index).
pub proof fn lemma_last_max_is_max(ks: Seq<int>, n: int)
    requires
        n >= 1,
    ensures
        0 <= last_max_upto(ks, n) < n,
        forall|j: int| 0 <= j < n ==> #[trigger] ks[j] <= ks[last_max_upto(ks, n)],
        forall|j: int| last_max_upto(ks, n) < j < n ==> #[trigger] ks[j] < ks[last_max_upto(ks, n)],
    decreases n,
{
    if n > 1 {
        lemma_last_max_is_max(ks, n - 1);
    }
}

/// For a fixed project and turn, the utility of a single-target work card
/// played now is non-decreasing in the work amount while it does not exceed
/// the project's remaining work: more work is more progress, and no
/// overflow is wasted yet.
pub proof fn lemma_work_single_monotone_under(s: StateView, pm: Param, t: int, w1: i64, w2: i64)
    requires
        s.wf(),
        pm.wf(),
        0 <= t < HORIZON,
        s.projects.len() == 1,
        s.score >= 0,
        0 <= w1 <= w2 <= s.projects[0].h,
    ensures
        util_le(
            spec_eval(s, pm, Card::WorkSingle(w1), 0, t, false).0,
            spec_eval(s, pm, Card::WorkSingle(w2), 0, t, false).0,
        ),
{
    assert(spec_work_keys(s.projects, w1, pm.work_single_beta as int, 0).len() == 1);
    assert(spec_eval(s, pm, Card::WorkSingle(w1), 0, t, false).0 == Util::Fin(
        (w1 * SCALE) as i128,
    ));
    assert(spec_eval(s, pm, Card::WorkSingle(w2), 0, t, false).0 == Util::Fin(
        (w2 * SCALE) as i128,
    ));
    assert(w1 * SCALE <= w2 * SCALE) by (nonlinear_arith)
        requires 0 <= w1 <= w2 && SCALE >= 1;
}

/// For a fixed project and turn, once the work amount exceeds the project's
/// remaining work and the overflow weight outweighs the work's own value
/// (it is more than one point per unit, i.e. above SCALE), the utility of a
/// single-target work card strictly decreases in the work amount.
pub proof fn lemma_work_single_decreasing_over(s: StateView, pm: Param, t: int, w1: i64, w2: i64)
    requires
        s.wf(),
        pm.wf(),
        0 <= t < HORIZON,
        s.projects.len() == 1,
        s.score >= 0,
        s.projects[0].h <= w1 < w2,
        w2 <= crate::def::VAL_BOUND,
        pm.overflow_alpha > SCALE,
    ensures
        util_lt(
            spec_eval(s, pm, Card::WorkSingle(w2), 0, t, false).0,
            spec_eval(s, pm, Card::WorkSingle(w1), 0, t, false).0,
        ),
{
    let h = s.projects[0].h;
    let a = pm.overflow_alpha;
    crate::num::lemma_p2_pos(s.invest_level as nat);
    assert((999 - t) * crate::num::p2(s.invest_level as nat) >= 0) by (nonlinear_arith)
        requires t <= 999 && crate::num::p2(s.invest_level as nat) >= 1;
    assert(0 <= (w1 - h) * a <= 0x1000_0000_0000_0000 && 0 <= (w2 - h) * a
        <= 0x1000_0000_0000_0000 && w1 * SCALE <= 0x1000_0000_0000_0000 && w2 * SCALE
        <= 0x1000_0000_0000_0000) by (nonlinear_arith)
        requires
            0 <= w1 - h <= crate::def::VAL_BOUND,
            0 <= w2 - h <= crate::def::VAL_BOUND,
            0 <= w1 <= crate::def::VAL_BOUND,
            0 <= w2 <= crate::def::VAL_BOUND,
            0 <= a <= crate::def::ALPHA_BOUND,
    ;
    assert(spec_eval(s, pm, Card::WorkSingle(w1), 0, t, false).0 == Util::Fin(
        (w1 * SCALE - (w1 - h) * a) as i128,
    ));
    assert(spec_eval(s, pm, Card::WorkSingle(w2), 0, t, false).0 == Util::Fin(
        (w2 * SCALE - (w2 - h) * a) as i128,
    ));
    assert(w2 * SCALE - (w2 - h) * a < w1 * SCALE - (w1 - h) * a) by (nonlinear_arith)
        requires h <= w1 < w2 && a > SCALE && SCALE >= 1;
}

/// The forced-use invariant: whenever every held card is an investment
/// card, the play decision selects an investment card, in any state.
pub proof fn lemma_select_play_forced_invest(s: StateView, pm: Param, t: int)
    requires
        s.wf(),
        pm.wf(),
        0 <= t < HORIZON,
        forall|i: int| 0 <= i < s.cards.len() ==> (#[trigger] s.cards[i]) is Invest,
    ensures
        s.cards[spec_select_use_card(s, pm, t).0] is Invest,
{
    lemma_first_max_is_max(
        s.cards.map_values(|c: Card| spec_eval(s, pm, c, 0, t, false).0),
        s.cards.len() as int,
    );
}

/// The play decision picks a card of maximal utility: no held card
/// evaluates above the selected one.
pub proof fn lemma_select_play_maximal(s: StateView, pm: Param, t: int)
    requires
        s.cards.len() >= 1,
    ensures
        forall|i: int|
            0 <= i < s.cards.len() ==> util_le(
                spec_eval(s, pm, #[trigger] s.cards[i], 0, t, false).0,
                spec_eval(s, pm, s.cards[spec_select_use_card(s, pm, t).0], 0, t, false).0,
            ),
{
    let us = s.cards.map_values(|c: Card| spec_eval(s, pm, c, 0, t, false).0);
    lemma_first_max_is_max(us, s.cards.len() as int);
    assert forall|i: int| 0 <= i < s.cards.len() implies util_le(
        spec_eval(s, pm, #[trigger] s.cards[i], 0, t, false).0,
        spec_eval(s, pm, s.cards[spec_select_use_card(s, pm, t).0], 0, t, false).0,
    ) by {
        assert(us[i] == spec_eval(s, pm, s.cards[i], 0, t, false).0);
        let b = spec_select_use_card(s, pm, t).0;
        assert(us[b] == spec_eval(s, pm, s.cards[b], 0, t, false).0);
    }
}

/// The refill decision picks an offer of maximal utility: no offered card
/// evaluates above the selected one.
pub proof fn lemma_select_refill_maximal(s: StateView, pm: Param, offers: Seq<(Card, i64)>, t: int)
    requires
        offers.len() >= 1,
    ensures
        forall|i: int|
            0 <= i < offers.len() ==> util_le(
                spec_eval_refill(s, pm, (#[trigger] offers[i]).0, offers[i].1 as int, t),
                spec_eval_refill(
                    s,
                    pm,
                    offers[spec_select_new_card(s, pm, offers, t)].0,
                    offers[spec_select_new_card(s, pm, offers, t)].1 as int,
                    t,
                ),
            ),
{
    let us = offers.map_values(|cp: (Card, i64)| spec_eval_refill(s, pm, cp.0, cp.1 as int, t));
    lemma_first_max_is_max(us, offers.len() as int);
    assert forall|i: int| 0 <= i < offers.len() implies util_le(
        spec_eval_refill(s, pm, (#[trigger] offers[i]).0, offers[i].1 as int, t),
        spec_eval_refill(
            s,
            pm,
            offers[spec_select_new_card(s, pm, offers, t)].0,
            offers[spec_select_new_card(s, pm, offers, t)].1 as int,
            t,
        ),
    ) by {
        assert(us[i] == spec_eval_refill(s, pm, offers[i].0, offers[i].1 as int, t));
        let b = spec_select_new_card(s, pm, offers, t);
        assert(us[b] == spec_eval_refill(s, pm, offers[b].0, offers[b].1 as int, t));
    }
}

/// From the cancellation cutoff on, cancel cards are worthless: their
/// utility is negative infinity for every price, in both evaluation modes.
pub proof fn lemma_cancel_disabled_at_cutoff(s: StateView, pm: Param, p: int, t: int, refill: bool)
    requires
        t >= pm.cancel_limit,
    ensures
        spec_eval(s, pm, Card::CancelSingle, p, t, refill).0 is NegInf,
        spec_eval(s, pm, Card::CancelAll, p, t, refill).0 is NegInf,
        spec_eval_refill(s, pm, Card::CancelSingle, p, t) is NegInf,
        spec_eval_refill(s, pm, Card::CancelAll, p, t) is NegInf,
{
}

/// A Monte Carlo run over a single future is exactly that future's one
/// deterministic playout: the mean of one trial is the trial.
pub proof fn lemma_montecarlo_single_trial(
    fs: Seq<SimFuture>,
    s: StateView,
    pm: Param,
    tt: int,
    t0: int,
    choice: int,
    offers: Seq<(Card, i64)>,
)
    requires
        fs.len() == 1,
    ensures
        spec_trunc_div(spec_trials_sum(fs, s, pm, tt, t0, choice, offers, 1), 1)
            == spec_trial_score(s, pm, tt, t0, choice, offers, fs[0]@),
{
    let sum = spec_trials_sum(fs, s, pm, tt, t0, choice, offers, 1);
    assert(spec_trials_sum(fs, s, pm, tt, t0, choice, offers, 0) == 0);
    assert(sum == spec_trial_score(s, pm, tt, t0, choice, offers, fs[0]@));
    vstd::arithmetic::div_mod::lemma_div_basics(sum);
    vstd::arithmetic::div_mod::lemma_div_basics(-sum);
}

} // verus!
