//! The scheduler core: the countdown toward the next break and the state
//! machine that decides when a break may start.
//!
//! The scheduler alternates between two states. In `CountDownToBreak` it
//! consumes the configured "time until break" while emitting progress
//! notifications at fixed marks, then polls the advisor registry; advisors
//! willing, it announces the break and moves to `WaitingForBreakEnd`, where
//! it blocks until the outside world reports the break over. The blocking,
//! sleeping and channel plumbing live outside the core: this module computes
//! every decision and every schedule as a pure value.
pub mod plugins;

use vstd::prelude::*;
use crate::scheduler::plugins::{CanBreak, PluginError, Plugins, usable_decision};

verus! {

/// The one inbound command: the break has ended, resume counting down.
#[derive(Copy, Clone, PartialEq, Eq, Structural, Debug)]
pub enum Msg {
    Start,
}

/// Outbound, fire-and-forget notifications to the outside world.
#[derive(Copy, Clone, PartialEq, Eq, Structural, Debug)]
pub enum Notification {
    /// A countdown (re)started.
    ResetSysTrayIcon,
    /// One of the fixed marks was reached; the payload is the number of
    /// seconds left before the break.
    TimeRemainingBeforeBreak(u64),
    /// The advisors agree a break may begin.
    StartBreak,
}

/// The scheduler's two states; there is no terminal one.
#[derive(Copy, Clone, PartialEq, Eq, Structural, Debug)]
pub enum State {
    CountDownToBreak,
    WaitingForBreakEnd,
}

/// The fixed marks, in seconds before the break, at which a progress
/// notification fires: five down to two minutes, then every whole second
/// from sixty to zero.
pub open spec fn periods_spec() -> Seq<u64> {
    seq![300u64, 240u64, 180u64, 120u64] + Seq::new(61, |i: int| (60 - i) as u64)
}

/// The marks table as a vector, descending, ending at zero.
pub fn periods_to_send_time_left_message() -> (r: Vec<u64>)
    ensures
        r@ == periods_spec(),
        r@.len() == 65,
{
    let mut r: Vec<u64> = Vec::new();
    r.push(300);
    r.push(240);
    r.push(180);
    r.push(120);
    let mut k: u64 = 0;
    while k < 61
        invariant
            k <= 61,
            r@ == seq![300u64, 240u64, 180u64, 120u64] + Seq::new(k as nat, |i: int| (60 - i) as u64),
        decreases 61 - k,
    {
        r.push(60 - k);
        proof {
            assert(r@ =~= seq![300u64, 240u64, 180u64, 120u64] + Seq::new(
                (k + 1) as nat,
                |i: int| (60 - i) as u64,
            ));
        }
        k = k + 1;
    }
    proof {
        assert(r@ =~= periods_spec());
    }
    r
}

/// The countdown plan for a given remaining time over a given marks table:
/// one `(sleep, mark)` pair for each mark that still fits, in order. A mark
/// larger than the remaining time is skipped with no sleep; one that fits
/// is reached by sleeping exactly the difference, after which the remaining
/// time is that mark.
pub open spec fn schedule_spec(remaining: u64, marks: Seq<u64>) -> Seq<(u64, u64)>
    decreases marks.len(),
{
    if marks.len() == 0 {
        Seq::<(u64, u64)>::empty()
    } else {
        let m = marks.first();
        if m <= remaining {
            seq![(((remaining - m) as u64), m)] + schedule_spec(m, marks.drop_first())
        } else {
            schedule_spec(remaining, marks.drop_first())
        }
    }
}

/// Total time slept over a countdown plan.
pub open spec fn sum_sleeps(steps: Seq<(u64, u64)>) -> int
    decreases steps.len(),
{
    if steps.len() == 0 {
        0
    } else {
        steps.first().0 + sum_sleeps(steps.drop_first())
    }
}

/// A marks table that ends at zero drives the remaining time all the way
/// down: the sleeps of the plan add up to the full remaining time.
pub proof fn lemma_schedule_consumes_all(remaining: u64, marks: Seq<u64>)
    requires
        marks.len() > 0,
        marks.last() == 0u64,
    ensures
        sum_sleeps(schedule_spec(remaining, marks)) == remaining,
    decreases marks.len(),
{
    let m = marks.first();
    let rest = marks.drop_first();
    if marks.len() == 1 {
        assert(m == 0);
        let plan = schedule_spec(remaining, marks);
        assert(plan =~= seq![(remaining, 0u64)]);
        assert(plan.first() == (remaining, 0u64));
        assert(plan.drop_first() =~= Seq::<(u64, u64)>::empty());
        assert(sum_sleeps(plan.drop_first()) == 0);
        assert(sum_sleeps(plan) == remaining);
    } else {
        assert(rest.last() == marks.last());
        if m <= remaining {
            lemma_schedule_consumes_all(m, rest);
            let plan = schedule_spec(remaining, marks);
            assert(plan =~= seq![(((remaining - m) as u64), m)] + schedule_spec(m, rest));
            assert(plan.first() == (((remaining - m) as u64), m));
            assert(plan.drop_first() =~= schedule_spec(m, rest));
            assert(sum_sleeps(plan) == (remaining - m) + sum_sleeps(schedule_spec(m, rest)));
        } else {
            lemma_schedule_consumes_all(remaining, rest);
        }
    }
}

/// The countdown plan for one full countdown of `time_until_break` seconds
/// over the fixed marks table. The plan's sleeps always consume the whole
/// duration exactly, however short it is: marks that do not fit are skipped
/// and the final zero mark always fires.
pub fn countdown_schedule(time_until_break: u64) -> (r: Vec<(u64, u64)>)
    ensures
        r@ == schedule_spec(time_until_break, periods_spec()),
        sum_sleeps(r@) == time_until_break,
{
    let marks = periods_to_send_time_left_message();
    let ghost mseq = marks@;
    let mut r: Vec<(u64, u64)> = Vec::new();
    let mut remaining = time_until_break;
    let mut i: usize = 0;
    proof {
        assert(mseq.skip(0) =~= mseq);
        assert(r@ + schedule_spec(time_until_break, mseq) =~= schedule_spec(
            time_until_break,
            mseq,
        ));
    }
    while i < marks.len()
        invariant
            marks@ == mseq,
            mseq == periods_spec(),
            i <= mseq.len(),
            schedule_spec(time_until_break, mseq) == r@ + schedule_spec(
                remaining,
                mseq.skip(i as int),
            ),
        decreases mseq.len() - i,
    {
        let m: u64 = marks[i];
        proof {
            assert(mseq.skip(i as int).first() == mseq[i as int]);
            assert(mseq.skip(i as int).drop_first() =~= mseq.skip(i + 1));
        }
        if m <= remaining {
            let ghost before = r@;
            r.push((remaining - m, m));
            proof {
                assert(r@ + schedule_spec(m, mseq.skip(i + 1)) =~= before + (seq![
                    (((remaining - m) as u64), m),
                ] + schedule_spec(m, mseq.skip(i + 1))));
            }
            remaining = m;
        }
        i = i + 1;
    }
    proof {
        assert(mseq.skip(mseq.len() as int) =~= Seq::<u64>::empty());
        assert(r@ + Seq::<(u64, u64)>::empty() =~= r@);
        assert(periods_spec().last() == 0u64);
        lemma_schedule_consumes_all(time_until_break, periods_spec());
    }
    r
}

/// The state the scheduler enters after one polling round: waiting for the
/// break to end exactly when the round's usable decision is `Yes`, else
/// counting down again from the top.
pub open spec fn state_after_round(
    decision: Option<CanBreak>,
    errors: Seq<PluginError>,
) -> State {
    if usable_decision(decision, errors) is Yes {
        State::WaitingForBreakEnd
    } else {
        State::CountDownToBreak
    }
}

/// What one polling round announces: the break start, exactly when the
/// round's usable decision is `Yes`.
pub open spec fn notification_after_round(
    decision: Option<CanBreak>,
    errors: Seq<PluginError>,
) -> Option<Notification> {
    if usable_decision(decision, errors) is Yes {
        Some(Notification::StartBreak)
    } else {
        None::<Notification>
    }
}

/// The state entered on an inbound command while waiting for the break to
/// end: the one defined command resumes the countdown.
pub open spec fn state_after_msg(msg: Msg) -> State {
    State::CountDownToBreak
}

/// Round-trip law of the state machine: from `CountDownToBreak`, a round
/// that yields `CanBreakNow` with no errors announces the break and moves
/// to `WaitingForBreakEnd`; the resume command then returns the scheduler
/// to `CountDownToBreak`. The countdown it restarts is the full configured
/// one: both steps leave the configured duration untouched, and the plan is
/// a function of that duration alone.
pub proof fn lemma_state_machine_round_trip(
    decision: Option<CanBreak>,
    errors: Seq<PluginError>,
)
    requires
        decision == Some(CanBreak::Yes),
        errors.len() == 0,
    ensures
        state_after_round(decision, errors) == State::WaitingForBreakEnd,
        notification_after_round(decision, errors) == Some(Notification::StartBreak),
        state_after_msg(Msg::Start) == State::CountDownToBreak,
{
}

/// The scheduler: the advisor registry it owns, the configured time until
/// a break in seconds, and its current state. The loop that drives it —
/// sleeping through the countdown plan, sending notifications, blocking on
/// the inbound channel — lives outside the core and calls in for every
/// decision.
pub struct Scheduler {
    pub plugins: Plugins,
    pub time_until_break: u64,
    pub state: State,
}

impl Scheduler {
    /// A fresh scheduler starts counting down the full configured duration.
    pub fn new(plugins: Plugins, seconds_between_breaks: u32) -> (r: Scheduler)
        ensures
            r.plugins == plugins,
            r.time_until_break == seconds_between_breaks as u64,
            r.state == State::CountDownToBreak,
    {
        Scheduler {
            plugins,
            time_until_break: seconds_between_breaks as u64,
            state: State::CountDownToBreak,
        }
    }

    /// Digest one polling round, already aggregated. Any error forces the
    /// conservative "cannot break" outcome; so does an absent decision,
    /// which a well-formed registry never produces. Only a usable `Yes`
    /// announces the break and stops the countdown.
    pub fn handle_round(&mut self, opt_can_break: Option<CanBreak>, errs: &Vec<PluginError>) -> (r:
        Option<Notification>)
        requires
            old(self).state is CountDownToBreak,
        ensures
            final(self).plugins == old(self).plugins,
            final(self).time_until_break == old(self).time_until_break,
            final(self).state == state_after_round(opt_can_break, errs@),
            r == notification_after_round(opt_can_break, errs@),
    {
        if errs.len() == 0 {
            match opt_can_break {
                Some(can_break) => {
                    if can_break.into_bool() {
                        self.state = State::WaitingForBreakEnd;
                        Some(Notification::StartBreak)
                    } else {
                        None
                    }
                },
                None => None,
            }
        } else {
            None
        }
    }

    /// One complete polling round: query every advisor, aggregate, and
    /// digest the outcome. With a well-formed (non-empty) registry the
    /// round always reaches a real verdict or a real error, never neither.
    pub fn run_round(&mut self) -> (r: Option<Notification>)
        requires
            old(self).state is CountDownToBreak,
        ensures
            final(self).plugins == old(self).plugins,
            final(self).time_until_break == old(self).time_until_break,
            exists|results: Seq<Result<CanBreak, PluginError>>|
                {
                    &&& results.len() == old(self).plugins.spec_len()
                    &&& final(self).state == state_after_round(
                        crate::scheduler::plugins::agg_decision(results),
                        crate::scheduler::plugins::agg_errors(results),
                    )
                    &&& r == notification_after_round(
                        crate::scheduler::plugins::agg_decision(results),
                        crate::scheduler::plugins::agg_errors(results),
                    )
                },
            (final(self).state is WaitingForBreakEnd) <==> (r == Some(Notification::StartBreak)),
    {
        let (opt_can_break, errs) = self.plugins.can_break_now();
        let r = self.handle_round(opt_can_break, &errs);
        proof {
            let results = choose|results: Seq<Result<CanBreak, PluginError>>|
                results.len() == old(self).plugins.spec_len() && opt_can_break
                    == crate::scheduler::plugins::agg_decision(results) && errs@
                    == crate::scheduler::plugins::agg_errors(results);
        }
        r
    }

    /// Digest one inbound command while waiting for the break to end: the
    /// resume command restarts the countdown, from the full configured
    /// duration.
    pub fn handle_msg(&mut self, msg: Msg)
        requires
            old(self).state is WaitingForBreakEnd,
        ensures
            final(self).plugins == old(self).plugins,
            final(self).time_until_break == old(self).time_until_break,
            final(self).state == state_after_msg(msg),
    {
        match msg {
            Msg::Start => {
                self.state = State::CountDownToBreak;
            },
        }
    }
}

} // verus!
