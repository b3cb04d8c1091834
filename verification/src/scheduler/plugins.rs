//! Advisors ("plugins") and the registry that aggregates their verdicts.
//!
//! Every advisor answers one question: may the user be interrupted for a
//! break right now? The registry polls each advisor in turn, folds the
//! successful verdicts with [`CanBreak::combine`], and collects the failures
//! separately; a failing advisor never aborts the round.
pub mod window_titles;

use vstd::prelude::*;

verus! {

/// The two-valued verdict an advisor produces: may a break start now?
#[derive(Copy, Clone, PartialEq, Eq, Structural, Debug)]
pub enum CanBreak {
    Yes,
    No,
}

impl CanBreak {
    /// What [`CanBreak::combine`] returns: `Yes` only if both sides are `Yes`.
    pub open spec fn combine_spec(self, other: CanBreak) -> CanBreak {
        if self is Yes && other is Yes {
            CanBreak::Yes
        } else {
            CanBreak::No
        }
    }

    /// Fold two verdicts into one; a single `No` poisons the whole.
    pub fn combine(&self, other: &CanBreak) -> (r: CanBreak)
        ensures
            r == self.combine_spec(*other),
    {
        if self.into_bool() && other.into_bool() {
            CanBreak::Yes
        } else {
            CanBreak::No
        }
    }

    pub fn into_bool(&self) -> (r: bool)
        ensures
            r == (*self is Yes),
    {
        match self {
            CanBreak::Yes => true,
            CanBreak::No => false,
        }
    }

    pub fn from_bool(b: bool) -> (r: CanBreak)
        ensures
            r == (if b {
                CanBreak::Yes
            } else {
                CanBreak::No
            }),
    {
        if b {
            CanBreak::Yes
        } else {
            CanBreak::No
        }
    }
}

/// Combining verdicts is commutative: the order of two advisors never
/// changes the outcome.
pub proof fn lemma_combine_commutative(a: CanBreak, b: CanBreak)
    ensures
        a.combine_spec(b) == b.combine_spec(a),
{
}

/// Combining verdicts is associative, so a fold over any advisor sequence
/// may be bracketed arbitrarily.
pub proof fn lemma_combine_associative(a: CanBreak, b: CanBreak, c: CanBreak)
    ensures
        a.combine_spec(b).combine_spec(c) == a.combine_spec(b.combine_spec(c)),
{
}

/// `Yes` is the identity of the combinator: it never weakens a verdict.
pub proof fn lemma_combine_identity(a: CanBreak)
    ensures
        CanBreak::Yes.combine_spec(a) == a,
        a.combine_spec(CanBreak::Yes) == a,
{
}

/// `No` absorbs: one `No` from any advisor forces the aggregate to `No`.
pub proof fn lemma_combine_absorbing(a: CanBreak)
    ensures
        a.combine_spec(CanBreak::No) == CanBreak::No,
        CanBreak::No.combine_spec(a) == CanBreak::No,
{
}

/// A descriptive failure from a single advisor's poll.
#[derive(Debug, PartialEq, Eq)]
pub struct PluginError {
    pub message: String,
}

/// The capability every advisor implements: produce a verdict or fail.
/// Concrete advisors live outside the core and are free to do I/O; nothing
/// is assumed of the verdicts they return.
pub trait Plugin {
    fn can_break_now(&self) -> Result<CanBreak, PluginError>;
}

/// The registry was given no advisors at all: a degenerate configuration
/// that is rejected at construction time rather than discovered during the
/// scheduling loop.
#[derive(Copy, Clone, PartialEq, Eq, Structural, Debug)]
pub enum ConfigError {
    NoPluginsConfigured,
}

/// The decision part of one polling round: successes folded with the
/// combinator into a running optional verdict, from the first result on.
pub open spec fn agg_decision(results: Seq<Result<CanBreak, PluginError>>) -> Option<CanBreak>
    decreases results.len(),
{
    if results.len() == 0 {
        None::<CanBreak>
    } else {
        let earlier = agg_decision(results.drop_last());
        match results.last() {
            Err(_) => earlier,
            Ok(verdict) => match earlier {
                None => Some(verdict),
                Some(acc) => Some(verdict.combine_spec(acc)),
            },
        }
    }
}

/// The failure part of one polling round: every error, in advisor order.
pub open spec fn agg_errors(results: Seq<Result<CanBreak, PluginError>>) -> Seq<PluginError>
    decreases results.len(),
{
    if results.len() == 0 {
        Seq::<PluginError>::empty()
    } else {
        let earlier = agg_errors(results.drop_last());
        match results.last() {
            Err(e) => earlier.push(e),
            Ok(_) => earlier,
        }
    }
}

/// The verdict a caller may actually act on. Any error makes the round's
/// partial decision unusable: the conservative answer is `No`. An absent
/// decision (possible only for an empty registry) is also `No`.
pub open spec fn usable_decision(
    decision: Option<CanBreak>,
    errors: Seq<PluginError>,
) -> CanBreak {
    if errors.len() > 0 {
        CanBreak::No
    } else {
        match decision {
            Some(verdict) => verdict,
            None => CanBreak::No,
        }
    }
}

/// A round with no errors over a non-empty advisor list always yields a
/// decision.
pub proof fn lemma_no_errors_yields_decision(results: Seq<Result<CanBreak, PluginError>>)
    requires
        results.len() > 0,
        agg_errors(results).len() == 0,
    ensures
        agg_decision(results) is Some,
    decreases results.len(),
{
    if results.last() is Err {
        assert(agg_errors(results).len() > 0);
    } else if results.len() > 1 {
        if agg_decision(results.drop_last()) is None {
            assert(agg_decision(results) is Some);
        }
    }
}

/// As soon as any single advisor fails, the round's usable decision is
/// `No`, whatever the other advisors answered: the scheduler prefers
/// delaying a break over breaking on incomplete information.
pub proof fn lemma_failing_advisor_blocks_break(
    results: Seq<Result<CanBreak, PluginError>>,
    i: int,
)
    requires
        0 <= i < results.len(),
        results[i] is Err,
    ensures
        agg_errors(results).len() > 0,
        usable_decision(agg_decision(results), agg_errors(results)) == CanBreak::No,
    decreases results.len(),
{
    if i == results.len() - 1 {
        assert(results.last() is Err);
    } else {
        assert(results.drop_last()[i] == results[i]);
        lemma_failing_advisor_blocks_break(results.drop_last(), i);
    }
}

/// When every advisor succeeds, the round has no errors and its decision
/// is present: `Yes` exactly when no advisor answered `No`.
pub proof fn lemma_all_successes_aggregate(results: Seq<Result<CanBreak, PluginError>>)
    requires
        results.len() > 0,
        forall|i: int| 0 <= i < results.len() ==> results[i] is Ok,
    ensures
        agg_errors(results).len() == 0,
        agg_decision(results) == Some(
            if exists|i: int| 0 <= i < results.len() && results[i] == Ok::<CanBreak, PluginError>(
                CanBreak::No,
            ) {
                CanBreak::No
            } else {
                CanBreak::Yes
            },
        ),
    decreases results.len(),
{
    let last = results.last();
    assert(results[results.len() - 1] is Ok);
    assert(last is Ok);
    if results.len() == 1 {
        assert(agg_errors(results.drop_last()) == Seq::<PluginError>::empty());
        if last == Ok::<CanBreak, PluginError>(CanBreak::No) {
            assert(results[0] == Ok::<CanBreak, PluginError>(CanBreak::No));
        } else {
            assert(forall|i: int|
                0 <= i < results.len() ==> results[i] != Ok::<CanBreak, PluginError>(CanBreak::No))
                by {
                assert(results[0] == last);
            }
        }
    } else {
        let earlier = results.drop_last();
        assert(forall|i: int| 0 <= i < earlier.len() ==> earlier[i] == results[i]);
        lemma_all_successes_aggregate(earlier);
        if exists|i: int|
            0 <= i < earlier.len() && earlier[i] == Ok::<CanBreak, PluginError>(CanBreak::No) {
            let w = choose|i: int|
                0 <= i < earlier.len() && earlier[i] == Ok::<CanBreak, PluginError>(CanBreak::No);
            assert(results[w] == Ok::<CanBreak, PluginError>(CanBreak::No));
        } else if last == Ok::<CanBreak, PluginError>(CanBreak::No) {
            assert(results[results.len() - 1] == Ok::<CanBreak, PluginError>(CanBreak::No));
        } else {
            assert(forall|i: int|
                0 <= i < results.len() ==> results[i] != Ok::<CanBreak, PluginError>(CanBreak::No))
                by {
                assert(forall|i: int|
                    0 <= i < results.len() - 1 ==> results[i] == earlier[i]);
            }
        }
    }
}

/// Fold the outcomes of one polling round. Successes are combined into a
/// running verdict, failures are collected in order; neither interferes
/// with the other.
pub fn aggregate_results(results: Vec<Result<CanBreak, PluginError>>) -> (r: (
    Option<CanBreak>,
    Vec<PluginError>,
))
    ensures
        r.0 == agg_decision(results@),
        r.1@ == agg_errors(results@),
{
    let ghost all = results@;
    let mut decision: Option<CanBreak> = None;
    let mut errors: Vec<PluginError> = Vec::new();
    let mut rest = results;
    let total: usize = rest.len();
    proof {
        assert(all.len() == total);
    }
    let mut i: usize = 0;
    while rest.len() > 0
        invariant
            all.len() <= usize::MAX,
            i + rest@.len() == all.len(),
            rest@ == all.skip(i as int),
            decision == agg_decision(all.take(i as int)),
            errors@ == agg_errors(all.take(i as int)),
        decreases rest@.len(),
    {
        let outcome = rest.remove(0);
        proof {
            assert(outcome == all[i as int]);
            assert(all.take(i + 1).drop_last() =~= all.take(i as int));
            assert(all.take(i + 1).last() == all[i as int]);
            assert(rest@ =~= all.skip(i + 1));
        }
        match outcome {
            Err(e) => {
                errors.push(e);
            },
            Ok(verdict) => {
                decision = match decision {
                    None => Some(verdict),
                    Some(acc) => Some(verdict.combine(&acc)),
                };
            },
        }
        i = i + 1;
    }
    proof {
        assert(all.take(i as int) =~= all);
    }
    (decision, errors)
}

/// An ordered registry of advisors, built once at startup and immutable
/// thereafter; it owns its advisors for the scheduler's lifetime.
pub struct Plugins(Vec<Box<dyn Plugin>>);

impl Plugins {
    /// How many advisors the registry holds.
    pub closed spec fn spec_len(&self) -> nat {
        self.0@.len()
    }

    /// A registry is well formed when it holds at least one advisor; every
    /// registry this module hands out is.
    pub open spec fn wf(&self) -> bool {
        self.spec_len() > 0
    }

    /// Build the registry. A configuration with zero advisors is refused
    /// here, so a polling round can never end with neither a decision nor
    /// an error.
    pub fn new(all_plugins: Vec<Box<dyn Plugin>>) -> (r: Result<Plugins, ConfigError>)
        ensures
            r is Ok <==> all_plugins@.len() > 0,
            r matches Ok(p) ==> p.wf() && p.spec_len() == all_plugins@.len(),
            r matches Err(e) ==> e == ConfigError::NoPluginsConfigured,
    {
        if all_plugins.len() == 0 {
            Err(ConfigError::NoPluginsConfigured)
        } else {
            Ok(Plugins(all_plugins))
        }
    }

    pub fn num_plugins(&self) -> (r: usize)
        ensures
            r == self.spec_len(),
    {
        self.0.len()
    }

    /// One polling round: query every advisor in order, fold the successes
    /// with the combinator, collect the failures. Whatever verdicts the
    /// advisors returned, the round's outcome is their aggregation; with no
    /// errors and a non-empty registry a decision is always present.
    pub fn can_break_now(&self) -> (r: (Option<CanBreak>, Vec<PluginError>))
        ensures
            exists|results: Seq<Result<CanBreak, PluginError>>|
                results.len() == self.spec_len() && r.0 == agg_decision(results) && r.1@
                    == agg_errors(results),
            r.1@.len() == 0 && self.spec_len() > 0 ==> r.0 is Some,
    {
        let mut results: Vec<Result<CanBreak, PluginError>> = Vec::new();
        let n: usize = self.0.len();
        let mut idx: usize = 0;
        while idx < n
            invariant
                n == self.spec_len(),
                idx <= n,
                results@.len() == idx,
            decreases n - idx,
        {
            let outcome = self.0[idx].can_break_now();
            results.push(outcome);
            idx = idx + 1;
        }
        let ghost polled = results@;
        let folded = aggregate_results(results);
        proof {
            if folded.1@.len() == 0 && self.spec_len() > 0 {
                lemma_no_errors_yields_decision(polled);
            }
        }
        folded
    }
}

} // verus!
