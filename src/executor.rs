//! The query executor: drives a query from an entry plugin along the chain
//! that the plugins' results form, until records come or the chain ends.

use vstd::prelude::*;

use crate::plugin::{Outcome, PluginQueryResult};
use crate::record::Record;

verus! {

/// The most plugins that one query runs through; a longer chain, a cycle
/// for instance, ends with an empty answer.
pub const MAX_HOPS: usize = 32;

/// A query on its way along a chain: the plugin to run next, how many
/// plugins have run before it, and the caches waiting for the answer.
#[derive(Debug, Clone)]
pub struct Execution {
    pub current: String,
    pub hops: usize,
    pub fills: Vec<String>,
}

/// What to do after a plugin has run.
#[derive(Debug, Clone)]
pub enum Step {
    /// Run the next plugin.
    Next(Execution),
    /// Answer the query with `records`, after storing them in the caches
    /// named by `fills`.
    Answer { records: Vec<Record>, fills: Vec<String> },
}

/// The answer that an outcome gives after `hops` earlier plugins, or `None`
/// when the chain goes on.
pub open spec fn answer_of(hops: int, o: Outcome) -> Option<Seq<Record>> {
    match o {
        Outcome::Failed => Some(Seq::empty()),
        Outcome::Ran(r) | Outcome::Missed(r) => if r.records@.len() > 0 {
            Some(r.records@)
        } else if r.next is Some && hops + 1 < MAX_HOPS {
            None
        } else {
            Some(Seq::empty())
        },
    }
}

/// The answer to a query whose plugins, one after the other, came to
/// `outcomes`, or `None` when the chain has not ended within them.
pub open spec fn run_chain(hops: int, outcomes: Seq<Outcome>) -> Option<Seq<Record>>
    decreases outcomes.len(),
{
    if outcomes.len() == 0 {
        None
    } else {
        match answer_of(hops, outcomes[0]) {
            Some(a) => Some(a),
            None => run_chain(hops + 1, outcomes.drop_first()),
        }
    }
}

impl Execution {
    /// A query that starts at the plugin `entry`.
    pub fn start(entry: String) -> (e: Execution)
        ensures
            e.current == entry,
            e.hops == 0,
            e.fills@.len() == 0,
    {
        Execution { current: entry, hops: 0, fills: Vec::new() }
    }

    /// The step after the current plugin came to `outcome`.
    pub fn advance(self, outcome: Outcome) -> (s: Step)
        requires
            self.hops < MAX_HOPS,
        ensures
            match s {
                Step::Next(e) => {
                    &&& answer_of(self.hops as int, outcome) is None
                    &&& e.hops == self.hops + 1
                    &&& e.hops < MAX_HOPS
                    &&& (outcome matches Outcome::Ran(r) ==> r.next == Some(e.current)
                        && e.fills@ == self.fills@)
                    &&& (outcome matches Outcome::Missed(r) ==> r.next == Some(e.current)
                        && e.fills@ == self.fills@.push(self.current))
                },
                Step::Answer { records, fills } => {
                    &&& answer_of(self.hops as int, outcome) == Some(records@)
                    &&& fills@ == match outcome {
                        Outcome::Ran(r) => if r.next is Some && r.records@.len() == 0 {
                            Seq::empty()
                        } else {
                            self.fills@
                        },
                        Outcome::Missed(r) => if r.next is Some && r.records@.len() == 0 {
                            Seq::empty()
                        } else {
                            self.fills@.push(self.current)
                        },
                        Outcome::Failed => Seq::empty(),
                    }
                },
            },
    {
        let Execution { current, hops, fills } = self;
        let (result, missed) = match outcome {
            Outcome::Failed => {
                return Step::Answer { records: Vec::new(), fills: Vec::new() };
            },
            Outcome::Ran(r) => (r, false),
            Outcome::Missed(r) => (r, true),
        };
        let mut fills = fills;
        if missed {
            fills.push(current);
        }
        let PluginQueryResult { records, next } = result;
        if records.len() > 0 {
            return Step::Answer { records, fills };
        }
        match next {
            Some(tag) => {
                if hops + 1 < MAX_HOPS {
                    Step::Next(Execution { current: tag, hops: hops + 1, fills })
                } else {
                    Step::Answer { records: Vec::new(), fills: Vec::new() }
                }
            },
            None => Step::Answer { records, fills },
        }
    }
}

/// Whatever the plugins come to, a query is answered after at most
/// `MAX_HOPS` of them: a cycle of plugins is cut off there.
pub proof fn lemma_chain_ends(hops: int, outcomes: Seq<Outcome>)
    requires
        0 <= hops < MAX_HOPS,
        hops + outcomes.len() >= MAX_HOPS,
    ensures
        run_chain(hops, outcomes) is Some,
        run_chain(hops, outcomes) == run_chain(hops, outcomes.take(MAX_HOPS - hops)),
    decreases outcomes.len(),
{
    let prefix = outcomes.take(MAX_HOPS - hops);
    assert(prefix.len() > 0 && prefix[0] == outcomes[0]);
    if answer_of(hops, outcomes[0]) is None {
        lemma_chain_ends(hops + 1, outcomes.drop_first());
        assert(prefix.drop_first() =~= outcomes.drop_first().take(MAX_HOPS - (hops + 1)));
    }
}

/// Once a plugin yields records, the plugins after it are not consulted:
/// the answer is those records, whatever would have followed.
pub proof fn lemma_records_short_circuit(outcomes: Seq<Outcome>, i: int, later: Seq<Outcome>)
    requires
        0 <= i < outcomes.len(),
        i < MAX_HOPS,
        forall|k: int|
            0 <= k < i ==> (#[trigger] outcomes[k] matches Outcome::Ran(r) && r.records@.len() == 0
                && r.next is Some) || (outcomes[k] matches Outcome::Missed(r) && r.records@.len() == 0
                && r.next is Some),
        outcomes[i] matches Outcome::Ran(r) && r.records@.len() > 0,
    ensures
        run_chain(0, outcomes) == Some(
            match outcomes[i] {
                Outcome::Ran(r) => r.records@,
                _ => Seq::empty(),
            },
        ),
        run_chain(0, outcomes) == run_chain(0, outcomes.take(i + 1) + later),
{
    lemma_short_circuit_from(0, outcomes, i, later);
}

proof fn lemma_short_circuit_from(hops: int, outcomes: Seq<Outcome>, i: int, later: Seq<Outcome>)
    requires
        0 <= hops,
        0 <= i < outcomes.len(),
        hops + i < MAX_HOPS,
        forall|k: int|
            0 <= k < i ==> (#[trigger] outcomes[k] matches Outcome::Ran(r) && r.records@.len() == 0
                && r.next is Some) || (outcomes[k] matches Outcome::Missed(r) && r.records@.len() == 0
                && r.next is Some),
        outcomes[i] matches Outcome::Ran(r) && r.records@.len() > 0,
    ensures
        run_chain(hops, outcomes) == Some(
            match outcomes[i] {
                Outcome::Ran(r) => r.records@,
                _ => Seq::empty(),
            },
        ),
        run_chain(hops, outcomes) == run_chain(hops, outcomes.take(i + 1) + later),
    decreases i,
{
    let joined = outcomes.take(i + 1) + later;
    assert(joined[0] == outcomes[0]);
    if i > 0 {
        assert(outcomes[0] == outcomes[0]);
        let rest = outcomes.drop_first();
        assert forall|k: int| 0 <= k < i - 1 implies (#[trigger] rest[k] matches Outcome::Ran(r)
            && r.records@.len() == 0 && r.next is Some) || (rest[k] matches Outcome::Missed(r)
            && r.records@.len() == 0 && r.next is Some) by {
            assert(rest[k] == outcomes[k + 1]);
        }
        lemma_short_circuit_from(hops + 1, rest, i - 1, later);
        assert(joined.drop_first() =~= rest.take(i) + later);
    }
}

/// A chain of plugins that all pass the query on without records, ending
/// in one that stops without records, answers with no records.
pub proof fn lemma_passthrough_is_empty(outcomes: Seq<Outcome>)
    requires
        0 < outcomes.len() <= MAX_HOPS,
        forall|k: int|
            0 <= k < outcomes.len() - 1 ==> (#[trigger] outcomes[k] matches Outcome::Ran(r)
                && r.records@.len() == 0 && r.next is Some),
        outcomes.last() matches Outcome::Ran(r) && r.records@.len() == 0 && r.next is None,
    ensures
        run_chain(0, outcomes) == Some(Seq::<Record>::empty()),
{
    lemma_passthrough_from(0, outcomes);
}

proof fn lemma_passthrough_from(hops: int, outcomes: Seq<Outcome>)
    requires
        0 <= hops,
        0 < outcomes.len(),
        hops + outcomes.len() <= MAX_HOPS,
        forall|k: int|
            0 <= k < outcomes.len() - 1 ==> (#[trigger] outcomes[k] matches Outcome::Ran(r)
                && r.records@.len() == 0 && r.next is Some),
        outcomes.last() matches Outcome::Ran(r) && r.records@.len() == 0 && r.next is None,
    ensures
        run_chain(hops, outcomes) == Some(Seq::<Record>::empty()),
    decreases outcomes.len(),
{
    if outcomes.len() > 1 {
        let rest = outcomes.drop_first();
        assert(outcomes[0] == outcomes[0]);
        assert forall|k: int| 0 <= k < rest.len() - 1 implies (#[trigger] rest[k] matches Outcome::Ran(r)
            && r.records@.len() == 0 && r.next is Some) by {
            assert(rest[k] == outcomes[k + 1]);
        }
        assert(rest.last() == outcomes.last());
        lemma_passthrough_from(hops + 1, rest);
    }
}

} // verus!
