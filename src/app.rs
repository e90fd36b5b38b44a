//! The registry: every plugin by its tag, frozen once built.

use vstd::prelude::*;

use crate::cache::Cache;
use crate::forward::{
    addrs_of, all_usable, clamp_concurrency, upstream_of, upstream_views, upstreams_of, Forward,
    ForwardError, DEFAULT_TIMEOUT_SECS,
};
use crate::hosts::Hosts;
use crate::matcher::{rule_matcher, DomainError, MatcherView};
use crate::plugin::{exec_post, Dispatch, Outcome, Plugin};
use crate::record::{Query, Record};
use crate::rule::{ForwardUpstream, PluginType};
use crate::sequence::Sequence;

verus! {

/// The plugins of a configuration, looked up by tag.
pub struct App {
    pub plugins: Vec<Plugin>,
}

/// Where the first plugin tagged `tag` stands in `ps`, if any.
pub open spec fn index_of_tag(ps: Seq<Plugin>, tag: Seq<char>) -> Option<int> {
    if exists|i: int| 0 <= i < ps.len() && (#[trigger] ps[i]).spec_tag()@ == tag {
        Some(
            choose|i: int|
                0 <= i < ps.len() && (#[trigger] ps[i]).spec_tag()@ == tag && forall|j: int|
                    0 <= j < i ==> ps[j].spec_tag()@ != tag,
        )
    } else {
        None
    }
}

impl App {
    /// A registry of these plugins.
    pub fn new(plugins: Vec<Plugin>) -> (a: App)
        ensures
            a.plugins@ == plugins@,
    {
        App { plugins }
    }

    /// The plugin tagged `tag`, the first one if several are.
    pub fn get_plugin(&self, tag: &str) -> (r: Option<&Plugin>)
        ensures
            match index_of_tag(self.plugins@, tag@) {
                Some(i) => r == Some(&self.plugins@[i]),
                None => r is None,
            },
    {
        let mut i: usize = 0;
        while i < self.plugins.len()
            invariant
                i <= self.plugins.len(),
                forall|j: int| 0 <= j < i ==> self.plugins@[j].spec_tag()@ != tag@,
            decreases self.plugins.len() - i,
        {
            let t = self.plugins[i].tag();
            if crate::labels::same_text(t.as_str(), tag) {
                proof {
                    let k = choose|k: int|
                        0 <= k < self.plugins@.len() && (#[trigger] self.plugins@[k]).spec_tag()@
                            == tag@ && forall|j: int| 0 <= j < k ==> self.plugins@[j].spec_tag()@ != tag@;
                    if k < i {
                        assert(self.plugins@[k].spec_tag()@ != tag@);
                    }
                    if k > i {
                        assert(self.plugins@[i as int].spec_tag()@ == tag@);
                    }
                }
                return Some(&self.plugins[i]);
            }
            i = i + 1;
        }
        None
    }

    /// What the plugin tagged `tag` does with `query`. A tag that names no
    /// plugin is a misconfiguration, which fails the query open.
    pub fn dispatch(&self, tag: &str, query: &Query) -> (d: Dispatch)
        ensures
            match index_of_tag(self.plugins@, tag@) {
                Some(i) => exec_post(self.plugins@[i], *query, d),
                None => d matches Dispatch::Done(Outcome::Failed),
            },
    {
        match self.get_plugin(tag) {
            Some(p) => p.exec(query),
            None => Dispatch::Done(Outcome::Failed),
        }
    }

    /// Stores `records` as the answer to `query` in each cache tagged in `fills`.
    pub fn fill(&self, fills: &Vec<String>, query: &Query, records: &Vec<Record>) {
        let mut i: usize = 0;
        while i < fills.len()
            invariant
                i <= fills.len(),
            decreases fills.len() - i,
        {
            if let Some(Plugin::Cache(c)) = self.get_plugin(fills[i].as_str()) {
                c.fill(query, records.clone());
            }
            i = i + 1;
        }
    }
}

/// Why a configured plugin cannot be built.
#[derive(Debug, Clone, Copy, PartialEq, Eq)]
pub enum BuildError {
    /// The cache sets `dump_file` or `dump_interval`: persistence is not
    /// supported, so such a configuration is refused.
    PersistenceUnsupported,
    /// A rule of a sequence does not compile.
    InvalidRule(DomainError),
    /// An upstream of a forwarder is not usable.
    InvalidUpstream(ForwardError),
}

/// `r` is the forwarder of this configuration, or the error of its first
/// unusable upstream.
pub open spec fn forward_built(
    r: Result<Option<Plugin>, BuildError>,
    tag: String,
    concurrent: Option<usize>,
    idle_timeout: Option<u64>,
    upstreams: Seq<ForwardUpstream>,
) -> bool {
    &&& (r is Ok <==> all_usable(addrs_of(upstreams)))
    &&& (r matches Ok(o) ==> o matches Some(Plugin::Forward(f)) && f.tag == tag && f.timeout_secs
        == match idle_timeout {
        Some(t) => t,
        None => DEFAULT_TIMEOUT_SECS,
    } && f.concurrent == clamp_concurrency(
        match concurrent {
            Some(c) => c,
            None => 1,
        },
    ) && upstream_views(f.upstreams@) == upstreams_of(addrs_of(upstreams)))
    &&& (r matches Err(e) ==> e matches BuildError::InvalidUpstream(fe) && exists|k: int|
        0 <= k < upstreams.len() && #[trigger] upstream_of(addrs_of(upstreams)[k]) == Err::<
            (crate::forward::Protocol, Seq<char>),
            ForwardError,
        >(fe))
}

/// `r` is the sequence of this configuration, or the error of a rule that
/// does not compile.
pub open spec fn sequence_built(
    r: Result<Option<Plugin>, BuildError>,
    tag: String,
    matches: Seq<String>,
    exec_tag: String,
) -> bool {
    &&& (r is Ok <==> forall|k: int|
        0 <= k < matches.len() ==> (#[trigger] rule_matcher(matches[k]@)) is Ok)
    &&& (r matches Ok(o) ==> o matches Some(Plugin::Sequence(s)) && s.tag == tag && s.exec_tag
        == exec_tag && s.matches@.len() == matches.len() && forall|k: int|
        0 <= k < matches.len() ==> rule_matcher(#[trigger] matches[k]@) == Ok::<
            MatcherView,
            DomainError,
        >(s.matches@[k]@))
    &&& (r matches Err(e) ==> e matches BuildError::InvalidRule(de) && exists|k: int|
        0 <= k < matches.len() && rule_matcher(#[trigger] matches[k]@) == Err::<
            MatcherView,
            DomainError,
        >(de))
}

/// The forwarder of this configuration, as a plugin.
fn forward_plugin(tag: String, concurrent: Option<usize>, idle_timeout: Option<u64>, upstreams: Vec<ForwardUpstream>) -> (r: Result<Option<Plugin>, BuildError>)
    ensures
        forward_built(r, tag, concurrent, idle_timeout, upstreams@),
{
    match Forward::new(tag, concurrent, idle_timeout, upstreams) {
        Ok(f) => Ok(Some(Plugin::Forward(f))),
        Err(e) => Err(BuildError::InvalidUpstream(e)),
    }
}

/// The sequence of this configuration, as a plugin.
fn sequence_plugin(tag: String, matches: Vec<String>, exec_tag: String) -> (r: Result<Option<Plugin>, BuildError>)
    ensures
        sequence_built(r, tag, matches@, exec_tag),
{
    match Sequence::new(tag, matches, exec_tag) {
        Ok(s) => Ok(Some(Plugin::Sequence(s))),
        Err(e) => Err(BuildError::InvalidRule(e)),
    }
}

/// Builds the plugin that a configured kind describes; listeners are no
/// plugin and give `None`. `hosts_texts` holds the text of each file of a
/// hosts plugin, in the configured order.
pub fn plugin_from_config(tag: String, plugin_type: PluginType, hosts_texts: Vec<String>) -> (r: Result<Option<Plugin>, BuildError>)
    ensures
        plugin_type.spec_is_server() <==> r == Ok::<Option<Plugin>, BuildError>(None),
        r matches Ok(Some(p)) ==> p.spec_tag() == tag,
        r matches Err(BuildError::PersistenceUnsupported) <==> (plugin_type matches PluginType::Cache {
            dump_file,
            dump_interval,
            ..
        } && (dump_file is Some || dump_interval is Some)),
        r matches Err(BuildError::InvalidRule(_)) ==> plugin_type is Sequence,
        r matches Err(BuildError::InvalidUpstream(_)) ==> plugin_type is Forward,
        match plugin_type {
            PluginType::Cache { size, lazy_cache_ttl, dump_file: None, dump_interval: None, children } => r matches Ok(Some(Plugin::Cache(c))) && c.lazy_cache_ttl == lazy_cache_ttl
                && c.capacity == match size {
                Some(n) => n,
                None => crate::cache::DEFAULT_CAPACITY,
            } && c.sibling == crate::cache::sibling_in(children@, tag),
            PluginType::Hosts { entries, .. } => r matches Ok(Some(Plugin::Hosts(h))) && h.wf()
                && h.spec_table() == crate::hosts::hosts_table(
                crate::hosts::all_lines(
                    crate::hosts::string_views(entries@),
                    crate::hosts::string_views(hosts_texts@),
                ),
            ),
            PluginType::Forward { concurrent, idle_timeout, upstreams } => forward_built(
                r,
                tag,
                concurrent,
                idle_timeout,
                upstreams@,
            ),
            PluginType::Sequence { matches, exec_tag } => sequence_built(r, tag, matches@, exec_tag),
            PluginType::DomainSet { .. } | PluginType::IpSet { .. } => r matches Ok(Some(Plugin::Inert(t))) && t == tag,
            _ => true,
        },
{
    match plugin_type {
        PluginType::Cache { size, lazy_cache_ttl, dump_file, dump_interval, children } => {
            if dump_file.is_some() || dump_interval.is_some() {
                return Err(BuildError::PersistenceUnsupported);
            }
            Ok(Some(Plugin::Cache(Cache::new(tag, size, lazy_cache_ttl, children))))
        },
        PluginType::Hosts { entries, .. } => {
            Ok(Some(Plugin::Hosts(Hosts::new(tag, entries, hosts_texts))))
        },
        PluginType::Forward { concurrent, idle_timeout, upstreams } => {
            forward_plugin(tag, concurrent, idle_timeout, upstreams)
        },
        PluginType::Sequence { matches, exec_tag } => {
            sequence_plugin(tag, matches, exec_tag)
        },
        PluginType::DomainSet { .. } | PluginType::IpSet { .. } => Ok(Some(Plugin::Inert(tag))),
        _ => Ok(None),
    }
}

} // verus!
