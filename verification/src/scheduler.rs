//! The turn scheduler.
//!
//! Each unpaused step every actor accrues budget equal to its quickness; the
//! actor with the greatest resulting budget at or over the fixed threshold
//! becomes active (earliest registry position on a tie — spawn order, a
//! documented total order, not insertion happenstance) and pays the
//! threshold. While paused nothing accrues and nobody becomes active, but no
//! counter resets. A step in which no actor reaches the threshold selects
//! nobody; that is not an error.

use vstd::prelude::*;
use crate::actor::Actor;

verus! {

/// Budget an actor must accrue before it may act; its quickness is the
/// amount accrued per tick, so quickness equal to the threshold means one
/// action per tick.
pub const ACTION_THRESHOLD: u64 = 100;

/// 64-bit addition that saturates at the top of the range.
pub open spec fn sat_add64(a: int, b: int) -> int {
    if a + b > u64::MAX {
        u64::MAX as int
    } else {
        a + b
    }
}

/// 64-bit addition that saturates at the top of the range.
pub fn sat_add_u64(a: u64, b: u64) -> (r: u64)
    ensures
        r == sat_add64(a as int, b as int),
{
    if a <= u64::MAX - b {
        a + b
    } else {
        u64::MAX
    }
}

/// An actor after one tick's accrual.
pub open spec fn accrue_actor(a: Actor) -> Actor {
    Actor { budget: sat_add64(a.budget as int, a.quickness as int) as u64, ..a }
}

/// The whole registry after one tick's accrual.
pub open spec fn accrue_all(s: Seq<Actor>) -> Seq<Actor> {
    s.map_values(|a: Actor| accrue_actor(a))
}

/// The actor that becomes active, judged on post-accrual budgets: among
/// those at or over the threshold, the greatest budget wins, and on a tie
/// the earliest registry position.
pub open spec fn select_active(s: Seq<Actor>) -> Option<int>
    decreases s.len(),
{
    if s.len() == 0 {
        None
    } else {
        let prior = select_active(s.drop_last());
        let k = s.len() - 1;
        match prior {
            Option::None => if s[k].budget >= ACTION_THRESHOLD {
                Some(k)
            } else {
                None
            },
            Option::Some(j) => if s[k].budget >= ACTION_THRESHOLD && s[k].budget > s[j].budget {
                Some(k)
            } else {
                Some(j)
            },
        }
    }
}

/// The active actor pays the threshold and records one more activation.
pub open spec fn debit_actor(a: Actor) -> Actor {
    Actor {
        budget: (a.budget - ACTION_THRESHOLD) as u64,
        times_active: sat_add64(a.times_active as int, 1) as u64,
        ..a
    }
}

/// One unpaused scheduler step over the registry.
pub open spec fn scheduler_step(s: Seq<Actor>) -> Seq<Actor> {
    let acc = accrue_all(s);
    match select_active(acc) {
        Option::None => acc,
        Option::Some(k) => acc.update(k, debit_actor(acc[k])),
    }
}

/// The index that one unpaused step marks active, if any.
pub open spec fn spec_active_of(s: Seq<Actor>) -> Option<usize> {
    match select_active(accrue_all(s)) {
        Option::None => None,
        Option::Some(k) => Some(k as usize),
    }
}

/// The least activation count over the registry; zero for an empty one.
pub open spec fn min_times(s: Seq<Actor>) -> int
    decreases s.len(),
{
    if s.len() == 0 {
        0
    } else if s.len() == 1 {
        s[0].times_active as int
    } else {
        let m = min_times(s.drop_last());
        if (s[s.len() - 1].times_active as int) < m {
            s[s.len() - 1].times_active as int
        } else {
            m
        }
    }
}

/// What `select_active` picks: an actor at or over the threshold with the
/// greatest budget, the earliest on a tie; nobody only when nobody reaches
/// the threshold.
pub proof fn lemma_select_active_props(s: Seq<Actor>)
    ensures
        match select_active(s) {
            Option::None => forall|i: int|
                0 <= i < s.len() ==> (#[trigger] s[i]).budget < ACTION_THRESHOLD,
            Option::Some(k) => 0 <= k < s.len() && s[k].budget >= ACTION_THRESHOLD && (forall|
                i: int,
            |
                0 <= i < s.len() ==> (#[trigger] s[i]).budget <= s[k].budget) && (forall|i: int|
                0 <= i < k ==> (#[trigger] s[i]).budget < s[k].budget),
        },
    decreases s.len(),
{
    if s.len() > 0 {
        lemma_select_active_props(s.drop_last());
        assert(forall|i: int| 0 <= i < s.len() - 1 ==> s.drop_last()[i] == #[trigger] s[i]);
    }
}

/// Tick and round counters with a pause gate, exposed as observable state
/// for diagnostics. The tick counter advances once per unpaused step; the
/// round counter advances whenever the least activation count over the
/// registry rises, that is, whenever the least-served actor has had its
/// turn.
#[derive(Clone, Copy, PartialEq, Eq, Structural, Debug)]
pub struct TurnScheduler {
    pub tick: u64,
    pub round: u64,
    pub paused: bool,
}

impl TurnScheduler {
    /// A scheduler at tick zero, running.
    pub fn new() -> (s: TurnScheduler)
        ensures
            s.tick == 0,
            s.round == 0,
            !s.paused,
    {
        TurnScheduler { tick: 0, round: 0, paused: false }
    }

    /// Stop accrual and activation; counters keep their values.
    pub fn pause(&mut self)
        ensures
            *final(self) == (TurnScheduler { paused: true, ..*old(self) }),
    {
        self.paused = true;
    }

    /// Let the simulation run again.
    pub fn resume(&mut self)
        ensures
            *final(self) == (TurnScheduler { paused: false, ..*old(self) }),
    {
        self.paused = false;
    }

    /// Advance one tick: accrue budget for every actor, mark at most one
    /// actor active and debit it, and maintain the tick and round counters.
    /// While paused this changes nothing and selects nobody.
    pub fn advance(&mut self, actors: &mut Vec<Actor>) -> (active: Option<usize>)
        ensures
            old(self).paused ==> *final(self) == *old(self) && final(actors)@ == old(actors)@
                && active is None,
            !old(self).paused ==> {
                &&& final(self).paused == false
                &&& final(self).tick == sat_add64(old(self).tick as int, 1)
                &&& final(actors)@ == scheduler_step(old(actors)@)
                &&& active == spec_active_of(old(actors)@)
                &&& final(self).round == if min_times(final(actors)@) > min_times(old(actors)@) {
                    sat_add64(old(self).round as int, 1)
                } else {
                    old(self).round as int
                }
            },
            active matches Some(k) ==> k < final(actors)@.len(),
    {
        if self.paused {
            return None;
        }
        let ghost s0 = actors@;
        self.tick = sat_add_u64(self.tick, 1);
        let min_before = min_times_exec(actors);
        let n = actors.len();

        let mut i: usize = 0;
        while i < n
            invariant
                n == actors@.len(),
                n == s0.len(),
                i <= n,
                forall|j: int| 0 <= j < i ==> actors@[j] == accrue_actor(#[trigger] s0[j]),
                forall|j: int| i <= j < n ==> actors@[j] == #[trigger] s0[j],
            decreases n - i,
        {
            let b = actors[i].budget;
            let q = actors[i].quickness;
            actors[i].budget = sat_add_u64(b, q as u64);
            i = i + 1;
        }
        proof {
            assert(actors@ =~= accrue_all(s0));
        }

        let mut best: Option<usize> = None;
        let mut i: usize = 0;
        while i < n
            invariant
                n == actors@.len(),
                i <= n,
                actors@ == accrue_all(s0),
                match best {
                    Option::None => select_active(actors@.take(i as int)) is None,
                    Option::Some(k) => k < i && select_active(actors@.take(i as int)) == Some(
                        k as int,
                    ),
                },
            decreases n - i,
        {
            proof {
                assert(actors@.take(i + 1).drop_last() =~= actors@.take(i as int));
                assert(actors@.take(i + 1).last() == actors@[i as int]);
            }
            let replace = if actors[i].budget >= ACTION_THRESHOLD {
                match best {
                    Option::None => true,
                    Option::Some(k) => actors[i].budget > actors[k].budget,
                }
            } else {
                false
            };
            if replace {
                best = Some(i);
            }
            i = i + 1;
        }
        proof {
            assert(actors@.take(n as int) =~= actors@);
        }

        match best {
            Option::None => {
                let min_after = min_times_exec(actors);
                if min_after > min_before {
                    self.round = sat_add_u64(self.round, 1);
                }
                None
            },
            Option::Some(k) => {
                let ghost acc = actors@;
                proof {
                    lemma_select_active_props(acc);
                }
                let b = actors[k].budget;
                let t = actors[k].times_active;
                actors[k].budget = b - ACTION_THRESHOLD;
                actors[k].times_active = sat_add_u64(t, 1);
                proof {
                    assert(actors@ =~= acc.update(k as int, debit_actor(acc[k as int])));
                    assert(actors@ =~= scheduler_step(s0));
                }
                let min_after = min_times_exec(actors);
                if min_after > min_before {
                    self.round = sat_add_u64(self.round, 1);
                }
                Some(k)
            },
        }
    }
}

/// One scheduler step touches only budgets and activation counts: every
/// actor keeps its identity, position, role, quickness and perception.
pub proof fn lemma_scheduler_step_preserves(s: Seq<Actor>)
    ensures
        scheduler_step(s).len() == s.len(),
        forall|i: int|
            0 <= i < s.len() ==> (#[trigger] scheduler_step(s)[i]).id == s[i].id
                && scheduler_step(s)[i].pos == s[i].pos && scheduler_step(s)[i].role == s[i].role
                && scheduler_step(s)[i].quickness == s[i].quickness && scheduler_step(s)[i].viewshed
                == s[i].viewshed,
{
    let acc = accrue_all(s);
    lemma_select_active_props(acc);
}

/// All actors accrue at the same rate `q`.
pub open spec fn uniform_quickness(s: Seq<Actor>, q: int) -> bool {
    forall|i: int| 0 <= i < s.len() ==> (#[trigger] s[i]).quickness == q
}

/// After `t` unpaused ticks from a fresh registry, budgets and activation
/// counts are linked: everything accrued has either been spent on
/// activations or still sits in the balance.
pub open spec fn budgets_linked(s: Seq<Actor>, q: int, t: int) -> bool {
    forall|i: int|
        0 <= i < s.len() ==> (#[trigger] s[i]).budget + ACTION_THRESHOLD * s[i].times_active == q
            * t && s[i].times_active <= t
}

/// No actor is more than one activation ahead of any other.
pub open spec fn counts_balanced(s: Seq<Actor>) -> bool {
    forall|i: int, j: int|
        0 <= i < s.len() && 0 <= j < s.len() ==> (#[trigger] s[i]).times_active <= (
        #[trigger] s[j]).times_active + 1
}

/// A fresh registry — budgets and activation counts all zero — is linked
/// and balanced before the first tick.
pub proof fn lemma_fresh_fair(s: Seq<Actor>, q: int)
    requires
        forall|i: int| 0 <= i < s.len() ==> (#[trigger] s[i]).budget == 0 && s[i].times_active == 0,
    ensures
        budgets_linked(s, q, 0),
        counts_balanced(s),
{
    assert forall|i: int| 0 <= i < s.len() implies (#[trigger] s[i]).budget + ACTION_THRESHOLD
        * s[i].times_active == q * 0 && s[i].times_active <= 0 by {
        lemma_mul_basics(ACTION_THRESHOLD as int, s[i].times_active as int);
        lemma_mul_basics(q, 0);
    }
}

proof fn lemma_mul_basics(a: int, b: int)
    by (nonlinear_arith)
    ensures
        b == 0 ==> a * b == 0,
        a * (b + 1) == a * b + a,
        0 <= a && 0 <= b ==> 0 <= a * b,
{
}

proof fn lemma_mul_cancel_le(a: int, b: int, c: int)
    by (nonlinear_arith)
    requires
        0 < a,
        a * b <= a * c,
    ensures
        b <= c,
{
}

/// Law: one unpaused scheduler step keeps a uniform-quickness registry
/// linked and balanced. Whoever becomes active has the greatest budget,
/// hence the least activation count, so the counts can never drift more
/// than one apart: no actor starves. The side condition keeps the total
/// accrual inside the 64-bit range, so no saturation disturbs the ledger.
pub proof fn lemma_step_preserves_fairness(s: Seq<Actor>, q: int, t: int)
    requires
        0 <= q,
        0 <= t,
        q * (t + 1) <= u64::MAX,
        uniform_quickness(s, q),
        budgets_linked(s, q, t),
        counts_balanced(s),
    ensures
        uniform_quickness(scheduler_step(s), q),
        budgets_linked(scheduler_step(s), q, t + 1),
        counts_balanced(scheduler_step(s)),
{
    let acc = accrue_all(s);
    let thr = ACTION_THRESHOLD as int;
    lemma_mul_basics(q, t);
    assert forall|i: int| 0 <= i < acc.len() implies (#[trigger] acc[i]).budget == s[i].budget + q
        && acc[i].times_active == s[i].times_active && acc[i].quickness == s[i].quickness by {
        lemma_mul_basics(thr, s[i].times_active as int);
        assert(s[i].budget + q <= q * (t + 1));
    }
    lemma_select_active_props(acc);
    match select_active(acc) {
        Option::None => {
            assert forall|i: int| 0 <= i < acc.len() implies (#[trigger] acc[i]).budget + thr
                * acc[i].times_active == q * (t + 1) && acc[i].times_active <= t + 1 by {
                assert(s[i].budget + thr * s[i].times_active == q * t);
            }
        },
        Option::Some(k) => {
            // a positive budget at the threshold rules out a zero rate
            assert(q >= 1) by {
                if q == 0 {
                    lemma_mul_basics(thr, acc[k].times_active as int);
                    lemma_mul_basics(0, t);
                    lemma_mul_basics(0, t + 1);
                    assert(acc[k].budget + thr * acc[k].times_active == 0 * (t + 1));
                }
            }
            assert(t + 1 <= q * (t + 1)) by (nonlinear_arith)
                requires
                    1 <= q,
                    0 <= t,
            ;
            // the greatest budget is the least activation count
            assert forall|j: int| 0 <= j < acc.len() implies acc[k].times_active
                <= (#[trigger] acc[j]).times_active by {
                assert(acc[j].budget <= acc[k].budget);
                assert(thr * acc[k].times_active <= thr * acc[j].times_active);
                lemma_mul_cancel_le(thr, acc[k].times_active as int, acc[j].times_active as int);
            }
            let d = debit_actor(acc[k]);
            let res = acc.update(k, d);
            assert(d.times_active == acc[k].times_active + 1);
            assert forall|i: int| 0 <= i < res.len() implies (#[trigger] res[i]).budget + thr
                * res[i].times_active == q * (t + 1) && res[i].times_active <= t + 1 by {
                if i == k {
                    lemma_mul_basics(thr, acc[k].times_active as int);
                } else {
                    assert(res[i] == acc[i]);
                }
            }
            assert(counts_balanced(res)) by {
                assert forall|i: int, j: int| 0 <= i < res.len() && 0 <= j < res.len() implies (
                #[trigger] res[i]).times_active <= (#[trigger] res[j]).times_active + 1 by {
                    assert(acc[i].times_active <= acc[j].times_active + 1);
                    assert(acc[k].times_active <= acc[j].times_active);
                }
            }
        },
    }
}

/// Law: in a balanced registry the activation counts of any two actors
/// differ by at most one — over any run of ticks with uniform quickness,
/// every actor is served within one activation of every other.
pub proof fn lemma_fairness_bound(s: Seq<Actor>, i: int, j: int)
    requires
        counts_balanced(s),
        0 <= i < s.len(),
        0 <= j < s.len(),
    ensures
        (s[i].times_active as int) <= (s[j].times_active as int) + 1,
{
}

/// The total number of activations over the registry.
pub open spec fn total_times(s: Seq<Actor>) -> int
    decreases s.len(),
{
    if s.len() == 0 {
        0
    } else {
        total_times(s.drop_last()) + s.last().times_active
    }
}

proof fn lemma_total_upper(s: Seq<Actor>, b: int)
    requires
        forall|j: int| 0 <= j < s.len() ==> (#[trigger] s[j]).times_active <= b,
    ensures
        total_times(s) <= s.len() * b,
    decreases s.len(),
{
    if s.len() > 0 {
        assert(forall|j: int| 0 <= j < s.len() - 1 ==> s.drop_last()[j] == #[trigger] s[j]);
        lemma_total_upper(s.drop_last(), b);
        assert((s.len() - 1) * b + b == s.len() * b) by (nonlinear_arith);
    }
}

proof fn lemma_total_lower(s: Seq<Actor>, b: int)
    requires
        forall|j: int| 0 <= j < s.len() ==> (#[trigger] s[j]).times_active >= b,
    ensures
        total_times(s) >= s.len() * b,
    decreases s.len(),
{
    if s.len() > 0 {
        assert(forall|j: int| 0 <= j < s.len() - 1 ==> s.drop_last()[j] == #[trigger] s[j]);
        lemma_total_lower(s.drop_last(), b);
        assert((s.len() - 1) * b + b == s.len() * b) by (nonlinear_arith);
    }
}

/// Law: balanced counts pin each actor's share of the turns. Every actor's
/// activation count lies within one of the registry average, so over any
/// run each actor is served in proportion to one part per actor.
pub proof fn lemma_fair_share(s: Seq<Actor>, i: int)
    requires
        counts_balanced(s),
        0 <= i < s.len(),
    ensures
        s.len() * ((s[i].times_active as int) - 1) <= total_times(s),
        total_times(s) <= s.len() * ((s[i].times_active as int) + 1),
{
    let c = s[i].times_active as int;
    assert forall|j: int| 0 <= j < s.len() implies (#[trigger] s[j]).times_active <= c + 1 by {
        assert(s[j].times_active <= s[i].times_active + 1);
    }
    assert forall|j: int| 0 <= j < s.len() implies (#[trigger] s[j]).times_active >= c - 1 by {
        assert(s[i].times_active <= s[j].times_active + 1);
    }
    lemma_total_upper(s, c + 1);
    lemma_total_lower(s, c - 1);
}

/// The least activation count over the registry.
fn min_times_exec(actors: &Vec<Actor>) -> (r: u64)
    ensures
        r as int == min_times(actors@),
{
    if actors.len() == 0 {
        return 0;
    }
    let mut m = actors[0].times_active;
    let mut i: usize = 1;
    proof {
        assert(actors@.take(1).len() == 1);
        assert(actors@.take(1)[0] == actors@[0]);
    }
    while i < actors.len()
        invariant
            1 <= i <= actors@.len(),
            m as int == min_times(actors@.take(i as int)),
        decreases actors@.len() - i,
    {
        proof {
            assert(actors@.take(i + 1).drop_last() =~= actors@.take(i as int));
            assert(actors@.take(i + 1).last() == actors@[i as int]);
        }
        if actors[i].times_active < m {
            m = actors[i].times_active;
        }
        i = i + 1;
    }
    proof {
        assert(actors@.take(actors@.len() as int) =~= actors@);
    }
    m
}

} // verus!
