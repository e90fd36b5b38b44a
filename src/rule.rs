//! The configuration: the plugins, their kinds and parameters.

use vstd::prelude::*;

verus! {

/// The whole configuration: every plugin, servers included.
#[derive(Debug, Clone)]
pub struct Config {
    pub plugins: Vec<Plugin>,
}

/// One configured plugin: its unique tag and its kind with parameters.
#[derive(Debug, Clone)]
pub struct Plugin {
    pub tag: String,
    pub plugin_type: PluginType,
}

/// The kinds of plugin, with their parameters. Paths are kept as text.
#[derive(Debug, Clone)]
pub enum PluginType {
    Cache {
        size: Option<usize>,
        lazy_cache_ttl: Option<u64>,
        dump_file: Option<String>,
        dump_interval: Option<u64>,
        children: Vec<String>,
    },
    Hosts { entries: Vec<String>, files: Vec<String> },
    Forward { concurrent: Option<usize>, idle_timeout: Option<u64>, upstreams: Vec<ForwardUpstream> },
    Sequence { matches: Vec<String>, exec_tag: String },
    UdpServer { entry: String, listen: String },
    TcpServer {
        entry: String,
        listen: String,
        cert: Option<String>,
        key: Option<String>,
        idle_timeout: Option<u64>,
    },
    QuicServer {
        entry: String,
        listen: String,
        cert: String,
        key: String,
        idle_timeout: Option<u64>,
    },
    HttpServer {
        entries: Vec<HttpServerEntry>,
        src_ip_headers: Vec<String>,
        listen: String,
        cert: Option<String>,
        key: Option<String>,
        idle_timeout: Option<u64>,
    },
    DomainSet { exps: Vec<String>, files: Vec<String> },
    IpSet { ips: Vec<String>, files: Vec<String> },
}

impl PluginType {
    /// Whether this kind is a listener rather than a plugin a query runs through.
    pub open spec fn spec_is_server(&self) -> bool {
        match self {
            PluginType::UdpServer { .. } | PluginType::TcpServer { .. }
            | PluginType::QuicServer { .. } | PluginType::HttpServer { .. } => true,
            _ => false,
        }
    }

    /// Whether this kind is a listener.
    pub fn is_server(&self) -> (r: bool)
        ensures
            r == self.spec_is_server(),
    {
        match self {
            PluginType::UdpServer { .. } => true,
            PluginType::TcpServer { .. } => true,
            PluginType::QuicServer { .. } => true,
            PluginType::HttpServer { .. } => true,
            _ => false,
        }
    }

    /// Whether a query can run through this kind: every kind but a listener.
    pub fn is_executable(&self) -> (r: bool)
        ensures
            r == !self.spec_is_server(),
    {
        !self.is_server()
    }

    /// The entry plugin of a listener.
    pub fn entry(&self) -> (r: Option<&String>)
        ensures
            r is Some <==> (self.spec_is_server() && !(self is HttpServer)),
            r matches Some(e) ==> match self {
                PluginType::UdpServer { entry, .. } => e == entry,
                PluginType::TcpServer { entry, .. } => e == entry,
                PluginType::QuicServer { entry, .. } => e == entry,
                _ => false,
            },
    {
        match self {
            PluginType::UdpServer { entry, .. } => Some(entry),
            PluginType::TcpServer { entry, .. } => Some(entry),
            PluginType::QuicServer { entry, .. } => Some(entry),
            _ => None,
        }
    }
}

/// Why a configuration cannot be run.
#[derive(Debug, Clone)]
pub enum ConfigError {
    /// Two plugins share this tag.
    DuplicateTag(String),
    /// This tag is named as a continuation or entry, but no plugin that a
    /// query can run through has it.
    DanglingTag(String),
}

/// The tags a plugin of this kind sends queries to: a sequence's target, a
/// cache's children, a listener's entries.
pub open spec fn references(t: PluginType) -> Seq<String> {
    match t {
        PluginType::Sequence { exec_tag, .. } => seq![exec_tag],
        PluginType::Cache { children, .. } => children@,
        PluginType::UdpServer { entry, .. } => seq![entry],
        PluginType::TcpServer { entry, .. } => seq![entry],
        PluginType::QuicServer { entry, .. } => seq![entry],
        PluginType::HttpServer { entries, .. } => entries@.map_values(|e: HttpServerEntry| e.exec_tag),
        _ => Seq::empty(),
    }
}

/// No two plugins share a tag.
pub open spec fn tags_unique(ps: Seq<Plugin>) -> bool {
    forall|a: int, b: int| 0 <= a < b < ps.len() ==> #[trigger] ps[a].tag@ != #[trigger] ps[b].tag@
}

/// Some plugin that a query can run through has the tag `t`.
pub open spec fn resolves(ps: Seq<Plugin>, t: Seq<char>) -> bool {
    exists|q: int| 0 <= q < ps.len() && #[trigger] ps[q].tag@ == t && !ps[q].plugin_type.spec_is_server()
}

/// Every tag that a plugin refers to resolves.
pub open spec fn references_resolve(ps: Seq<Plugin>) -> bool {
    forall|p: int, k: int|
        0 <= p < ps.len() && 0 <= k < references(ps[p].plugin_type).len() ==> resolves(
            ps,
            #[trigger] references(ps[p].plugin_type)[k]@,
        )
}

fn references_of(t: &PluginType) -> (r: Vec<String>)
    ensures
        r@ == references(*t),
{
    match t {
        PluginType::Sequence { exec_tag, .. } => vec![exec_tag.clone()],
        PluginType::Cache { children, .. } => children.clone(),
        PluginType::UdpServer { entry, .. } => vec![entry.clone()],
        PluginType::TcpServer { entry, .. } => vec![entry.clone()],
        PluginType::QuicServer { entry, .. } => vec![entry.clone()],
        PluginType::HttpServer { entries, .. } => {
            let mut r: Vec<String> = Vec::new();
            let mut i: usize = 0;
            while i < entries.len()
                invariant
                    i <= entries.len(),
                    r@ == entries@.take(i as int).map_values(|e: HttpServerEntry| e.exec_tag),
                decreases entries.len() - i,
            {
                r.push(entries[i].exec_tag.clone());
                assert(entries@.take(i + 1) =~= entries@.take(i as int).push(entries@[i as int]));
                assert(r@ =~= entries@.take(i + 1).map_values(|e: HttpServerEntry| e.exec_tag));
                i = i + 1;
            }
            assert(entries@.take(entries.len() as int) =~= entries@);
            r
        },
        _ => Vec::new(),
    }
}

/// Whether some plugin a query can run through has the tag `t`.
fn find_executable(ps: &Vec<Plugin>, t: &String) -> (r: bool)
    ensures
        r == resolves(ps@, t@),
{
    let mut q: usize = 0;
    while q < ps.len()
        invariant
            q <= ps.len(),
            forall|j: int| 0 <= j < q ==> !(ps@[j].tag@ == t@ && !ps@[j].plugin_type.spec_is_server()),
        decreases ps.len() - q,
    {
        if ps[q].tag == *t && !ps[q].plugin_type.is_server() {
            return true;
        }
        q = q + 1;
    }
    false
}

impl Config {
    /// Checks that tags are unique and that every continuation and entry
    /// names a plugin that a query can run through (never a listener).
    pub fn check(&self) -> (r: Result<(), ConfigError>)
        ensures
            r is Ok <==> (tags_unique(self.plugins@) && references_resolve(self.plugins@)),
            r matches Err(ConfigError::DuplicateTag(t)) ==> exists|a: int, b: int|
                0 <= a < b < self.plugins@.len() && #[trigger] self.plugins@[a].tag@ == t@
                    && #[trigger] self.plugins@[b].tag@ == t@,
            r matches Err(ConfigError::DanglingTag(t)) ==> tags_unique(self.plugins@)
                && !resolves(self.plugins@, t@),
    {
        let ps = &self.plugins;
        let mut a: usize = 0;
        while a < ps.len()
            invariant
                ps@ == self.plugins@,
                a <= ps.len(),
                forall|x: int, y: int| 0 <= x < a && x < y < ps.len() ==> #[trigger] ps@[x].tag@ != #[trigger] ps@[y].tag@,
            decreases ps.len() - a,
        {
            let mut b: usize = a + 1;
            while b < ps.len()
                invariant
                    ps@ == self.plugins@,
                ps@ == self.plugins@,
                    a < ps.len(),
                    a < b <= ps.len(),
                    forall|x: int, y: int| 0 <= x < a && x < y < ps.len() ==> #[trigger] ps@[x].tag@ != #[trigger] ps@[y].tag@,
                    forall|y: int| a < y < b ==> ps@[a as int].tag@ != #[trigger] ps@[y].tag@,
                decreases ps.len() - b,
            {
                if ps[a].tag == ps[b].tag {
                    let t = ps[a].tag.clone();
                    assert(ps@[a as int].tag@ == t@ && ps@[b as int].tag@ == t@);
                    assert(!tags_unique(ps@));
                    return Err(ConfigError::DuplicateTag(t));
                }
                b = b + 1;
            }
            a = a + 1;
        }
        assert(tags_unique(ps@));
        let mut p: usize = 0;
        while p < ps.len()
            invariant
                ps@ == self.plugins@,
                p <= ps.len(),
                tags_unique(ps@),
                forall|x: int, k: int|
                    0 <= x < p && 0 <= k < references(ps@[x].plugin_type).len() ==> resolves(
                        ps@,
                        #[trigger] references(ps@[x].plugin_type)[k]@,
                    ),
            decreases ps.len() - p,
        {
            let refs = references_of(&ps[p].plugin_type);
            let mut k: usize = 0;
            while k < refs.len()
                invariant
                    ps@ == self.plugins@,
                ps@ == self.plugins@,
                    p < ps.len(),
                    k <= refs.len(),
                    refs@ == references(ps@[p as int].plugin_type),
                    tags_unique(ps@),
                    forall|x: int, j: int|
                        0 <= x < p && 0 <= j < references(ps@[x].plugin_type).len() ==> resolves(
                            ps@,
                            #[trigger] references(ps@[x].plugin_type)[j]@,
                        ),
                    forall|j: int| 0 <= j < k ==> resolves(ps@, #[trigger] refs@[j]@),
                decreases refs.len() - k,
            {
                if !find_executable(ps, &refs[k]) {
                    let t = refs[k].clone();
                    assert(references(ps@[p as int].plugin_type)[k as int]@ == t@);
                    assert(!references_resolve(ps@));
                    return Err(ConfigError::DanglingTag(t));
                }
                k = k + 1;
            }
            p = p + 1;
        }
        Ok(())
    }
}

/// One upstream of a forward plugin.
#[derive(Debug, Clone, Default)]
pub struct ForwardUpstream {
    pub tag: Option<String>,
    pub addr: Option<String>,
    pub dial_addr: Option<String>,
    pub bootstrap: Option<String>,
    pub bootstrap_version: Option<i8>,
    pub socks5: Option<String>,
    pub idle_timeout: Option<u64>,
    pub enable_pipeline: bool,
    pub enable_http3: bool,
    pub max_conns: Option<u32>,
    pub insecure_skip_verify: bool,
    pub so_mark: u32,
    pub bind_to_device: String,
}

/// A path of an HTTP listener and the plugin its queries start at.
#[derive(Debug, Clone)]
pub struct HttpServerEntry {
    pub path: String,
    pub exec_tag: String,
}

/// Where traces are exported.
#[derive(Debug, Clone, Copy, PartialEq, Eq)]
pub enum TraceExporterType {
    OtelGrpc,
    OtelHttp,
    Off,
}

impl Default for TraceExporterType {
    fn default() -> (r: Self)
        ensures
            r == TraceExporterType::Off,
    {
        TraceExporterType::Off
    }
}

/// Where metrics are exported.
#[derive(Debug, Clone, Copy, PartialEq, Eq)]
pub enum MetricsExporterType {
    Prometheus,
    Off,
}

impl Default for MetricsExporterType {
    fn default() -> (r: Self)
        ensures
            r == MetricsExporterType::Off,
    {
        MetricsExporterType::Off
    }
}

/// Options of a plain forwarding server.
#[derive(Debug, Clone)]
pub struct DnsOptions {
    pub tls_cert: String,
    pub tls_key: String,
    pub dns_listen: Option<String>,
    pub tls_listen: Option<String>,
    pub upstream: Upstream,
}

/// The public resolvers a plain forwarding server can use.
#[derive(Debug, Clone, Copy, PartialEq, Eq)]
pub enum Upstream {
    Google,
    GoogleH3,
    GoogleTLS,
    Cloudflare,
    CloudflareTLS,
    CloudflareHTTPS,
    Quad9,
}

impl Default for Upstream {
    fn default() -> (r: Self)
        ensures
            r == Upstream::Google,
    {
        Upstream::Google
    }
}

} // verus!
