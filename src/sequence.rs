//! The sequence plugin: jumps to another plugin when a rule accepts the name.

use vstd::prelude::*;

use crate::matcher::{accepts, parse_domain, DomainError, Matcher, MatcherView};
use crate::plugin::PluginQueryResult;
use crate::record::Query;

verus! {

/// The sequence plugin: the compiled `matches` rules and the tag to jump to.
pub struct Sequence {
    pub tag: String,
    pub matches: Vec<Matcher>,
    pub exec_tag: String,
}

pub open spec fn matcher_views(v: Seq<Matcher>) -> Seq<MatcherView> {
    v.map_values(|m: Matcher| m@)
}

/// Whether one of `ms` accepts `name`.
pub open spec fn any_accepts(ms: Seq<MatcherView>, name: Seq<char>) -> bool {
    exists|k: int| 0 <= k < ms.len() && accepts(#[trigger] ms[k], name)
}

impl Sequence {
    /// A sequence plugin; a rule that does not compile makes the whole
    /// configuration invalid.
    pub fn new(tag: String, matches: Vec<String>, exec_tag: String) -> (r: Result<Sequence, DomainError>)
        ensures
            match r {
                Ok(s) => s.tag == tag && s.exec_tag == exec_tag && s.matches@.len() == matches@.len()
                    && forall|k: int|
                    0 <= k < matches@.len() ==> crate::matcher::rule_matcher(#[trigger] matches@[k]@)
                        == Ok::<MatcherView, DomainError>(s.matches@[k]@),
                Err(e) => exists|k: int|
                    0 <= k < matches@.len() && crate::matcher::rule_matcher(#[trigger] matches@[k]@)
                        == Err::<MatcherView, DomainError>(e),
            },
    {
        let mut compiled: Vec<Matcher> = Vec::new();
        let mut i: usize = 0;
        while i < matches.len()
            invariant
                i <= matches.len(),
                compiled@.len() == i,
                forall|k: int|
                    0 <= k < i ==> crate::matcher::rule_matcher(#[trigger] matches@[k]@) == Ok::<
                        MatcherView,
                        DomainError,
                    >(compiled@[k]@),
            decreases matches.len() - i,
        {
            match parse_domain(matches[i].as_str()) {
                Ok(m) => compiled.push(m),
                Err(e) => {
                    return Err(e);
                },
            }
            i = i + 1;
        }
        Ok(Sequence { tag, matches: compiled, exec_tag })
    }

    /// Continues with the `exec` plugin when one of the rules accepts the
    /// query's name, and stops otherwise; it never yields records.
    pub fn exec(&self, query: &Query) -> (r: PluginQueryResult)
        ensures
            r.records@.len() == 0,
            r.next == if any_accepts(matcher_views(self.matches@), query.name@) {
                Some(self.exec_tag)
            } else {
                None
            },
    {
        let ghost ms = matcher_views(self.matches@);
        let mut i: usize = 0;
        while i < self.matches.len()
            invariant
                ms == matcher_views(self.matches@),
                i <= self.matches.len(),
                forall|k: int| 0 <= k < i ==> !accepts(#[trigger] ms[k], query.name@),
            decreases self.matches.len() - i,
        {
            if self.matches[i].matches(query.name.as_str()) {
                assert(accepts(ms[i as int], query.name@));
                return PluginQueryResult::empty().with_next(self.exec_tag.clone());
            }
            i = i + 1;
        }
        PluginQueryResult::empty()
    }
}

} // verus!
