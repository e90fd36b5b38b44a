//! What a plugin hands back for a query.

use vstd::prelude::*;

use crate::cache::Cache;
use crate::forward::Forward;
use crate::hosts::Hosts;
use crate::record::{Query, Record};
use crate::sequence::Sequence;

verus! {

/// A plugin's answer: the records it produced, and the tag of the plugin to
/// continue with, if any. Records, when there are some, win over `next`.
#[derive(Debug, Clone)]
pub struct PluginQueryResult {
    pub records: Vec<Record>,
    pub next: Option<String>,
}

impl PluginQueryResult {
    /// A result with these records and this continuation.
    pub fn new(records: Vec<Record>, next: Option<String>) -> (r: Self)
        ensures
            r.records@ == records@,
            r.next == next,
    {
        PluginQueryResult { records, next }
    }

    /// A result that answers with `records` and stops.
    pub fn return_records(records: Vec<Record>) -> (r: Self)
        ensures
            r.records@ == records@,
            r.next is None,
    {
        PluginQueryResult { records, next: None }
    }

    /// A result with no records that stops.
    pub fn empty() -> (r: Self)
        ensures
            r.records@.len() == 0,
            r.next is None,
    {
        PluginQueryResult { records: Vec::new(), next: None }
    }

    /// This result, continuing with the plugin `next`.
    pub fn with_next(self, next: String) -> (r: Self)
        ensures
            r.records@ == self.records@,
            r.next == Some(next),
    {
        let mut s = self;
        s.next = Some(next);
        s
    }
}

/// What running one plugin on a query came to.
#[derive(Debug, Clone)]
pub enum Outcome {
    /// The plugin produced a result.
    Ran(PluginQueryResult),
    /// A cache missed: the result continues with the cache's sibling, and
    /// the cache wants the final answer stored under the query.
    Missed(PluginQueryResult),
    /// The plugin failed; the failure counts as an empty result that stops.
    Failed,
}

/// What the executor does with the plugin it has reached.
#[derive(Debug, Clone)]
pub enum Dispatch {
    /// The plugin ran here and came to this outcome.
    Done(Outcome),
    /// The plugin is a forwarder: the query goes to its upstreams.
    Upstream,
}

/// A plugin a query can run through.
pub enum Plugin {
    Cache(Cache),
    Hosts(Hosts),
    Forward(Forward),
    Sequence(Sequence),
    /// A domain or IP set: data for matchers, answering nothing itself.
    Inert(String),
}

/// What running the plugin `p` on `q` may come to.
pub open spec fn exec_post(p: Plugin, q: Query, d: Dispatch) -> bool {
    &&& ((d is Upstream) <==> (p is Forward))
    &&& d matches Dispatch::Done(o) ==> match p {
        Plugin::Hosts(h) => o matches Outcome::Ran(r) && r.next is None
            && crate::hosts::typed_data(r.records@) == crate::hosts::answers(
            h.spec_table(),
            q.name@,
        ) && forall|k: int|
            0 <= k < r.records@.len() ==> (#[trigger] r.records@[k]).name@ == q.name@
                && r.records@[k].ttl == 0,
        Plugin::Sequence(s) => o matches Outcome::Ran(r) && r.records@.len() == 0 && r.next
            == if crate::sequence::any_accepts(
            crate::sequence::matcher_views(s.matches@),
            q.name@,
        ) {
            Some(s.exec_tag)
        } else {
            None
        },
        Plugin::Cache(c) => exists|found: Option<crate::cache::CacheEntry>, now: i64|
            crate::cache::carries_out(
                o,
                #[trigger] crate::cache::decide(c.lazy_cache_ttl, c.sibling, found, now),
            ),
        Plugin::Inert(_) => o matches Outcome::Ran(r) && r.records@.len() == 0 && r.next is None,
        Plugin::Forward(_) => false,
    }
}

impl Plugin {
    pub open spec fn spec_tag(&self) -> String {
        match self {
            Plugin::Cache(c) => c.tag,
            Plugin::Hosts(h) => h.tag,
            Plugin::Forward(f) => f.tag,
            Plugin::Sequence(s) => s.tag,
            Plugin::Inert(t) => *t,
        }
    }

    /// The plugin's tag.
    pub fn tag(&self) -> (r: &String)
        ensures
            *r == self.spec_tag(),
    {
        match self {
            Plugin::Cache(c) => &c.tag,
            Plugin::Hosts(h) => &h.tag,
            Plugin::Forward(f) => &f.tag,
            Plugin::Sequence(s) => &s.tag,
            Plugin::Inert(t) => t,
        }
    }

    /// The plugins this one hands queries to by itself: a cache's sibling.
    pub fn children(&self) -> (r: Vec<String>)
        ensures
            r@ == match self {
                Plugin::Cache(c) => match c.sibling {
                    Some(t) => seq![t],
                    None => Seq::empty(),
                },
                _ => Seq::<String>::empty(),
            },
    {
        let mut r: Vec<String> = Vec::new();
        if let Plugin::Cache(c) = self {
            if let Some(t) = &c.sibling {
                r.push(t.clone());
            }
        }
        r
    }

    /// Runs the plugin on `query`, unless it must reach its upstreams.
    pub fn exec(&self, query: &Query) -> (d: Dispatch)
        ensures
            exec_post(*self, *query, d),
    {
        match self {
            Plugin::Cache(c) => Dispatch::Done(c.exec(query)),
            Plugin::Hosts(h) => Dispatch::Done(Outcome::Ran(h.exec(query))),
            Plugin::Forward(_) => Dispatch::Upstream,
            Plugin::Sequence(s) => Dispatch::Done(Outcome::Ran(s.exec(query))),
            Plugin::Inert(_) => Dispatch::Done(Outcome::Ran(PluginQueryResult::empty())),
        }
    }
}

} // verus!
