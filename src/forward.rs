//! The forward plugin's settings: upstreams with their transports, the
//! query timeout and how many requests may run at once.

use vstd::prelude::*;

use crate::labels::{chars_of, same_chars, string_of};
use crate::rule::ForwardUpstream;

verus! {

/// The transport to an upstream.
#[derive(Debug, Clone, Copy, PartialEq, Eq)]
pub enum Protocol {
    Udp,
    Tcp,
    Tls,
    Https,
    Quic,
    H3,
}

/// Why an upstream is not usable.
#[derive(Debug, Clone, Copy, PartialEq, Eq)]
pub enum ForwardError {
    /// The upstream has no address.
    MissingAddress,
    /// The scheme before `://` is none of the known ones.
    UnsupportedProtocol,
    /// What follows the scheme is not `host:port` with an IP host.
    InvalidAddress,
}

/// Whether `text` is a socket address, an IP address and a port.
pub uninterp spec fn socket_addr_valid(text: Seq<char>) -> bool;

/// Relies on `core::net::SocketAddr`'s `FromStr`: whether `text` parses as
/// `ip:port` (an IPv6 address in brackets).
#[verifier::external_body]
fn parses_as_socket_addr(text: &str) -> (r: bool)
    ensures
        r == socket_addr_valid(text@),
{
    text.parse::<core::net::SocketAddr>().is_ok()
}

pub open spec fn separator() -> Seq<char> {
    seq![':', '/', '/']
}

/// Whether `://` starts at position `i` of `s`.
pub open spec fn separator_at(s: Seq<char>, i: int) -> bool {
    0 <= i && i + 3 <= s.len() && s.subrange(i, i + 3) == separator()
}

/// The scheme and the address of an upstream written `scheme://address`;
/// without `://` the scheme is `udp`. The first `://` counts.
pub open spec fn split_scheme(s: Seq<char>) -> (Seq<char>, Seq<char>) {
    if exists|i: int| separator_at(s, i) {
        let i = choose|i: int| separator_at(s, i) && forall|j: int| 0 <= j < i ==> !separator_at(s, j);
        (s.take(i), s.skip(i + 3))
    } else {
        (seq!['u', 'd', 'p'], s)
    }
}

/// The transport named by a scheme.
pub open spec fn protocol_of(scheme: Seq<char>) -> Option<Protocol> {
    if scheme == seq!['u', 'd', 'p'] {
        Some(Protocol::Udp)
    } else if scheme == seq!['t', 'c', 'p'] {
        Some(Protocol::Tcp)
    } else if scheme == seq!['t', 'l', 's'] {
        Some(Protocol::Tls)
    } else if scheme == seq!['h', 't', 't', 'p', 's'] {
        Some(Protocol::Https)
    } else if scheme == seq!['q', 'u', 'i', 'c'] {
        Some(Protocol::Quic)
    } else if scheme == seq!['h', '3'] {
        Some(Protocol::H3)
    } else {
        None
    }
}

/// What an upstream address comes to: its transport and `ip:port`.
pub open spec fn upstream_spec(addr: Seq<char>) -> Result<(Protocol, Seq<char>), ForwardError> {
    let (scheme, rest) = split_scheme(addr);
    match protocol_of(scheme) {
        None => Err(ForwardError::UnsupportedProtocol),
        Some(p) => if socket_addr_valid(rest) {
            Ok((p, rest))
        } else {
            Err(ForwardError::InvalidAddress)
        },
    }
}

/// Where the first `://` of `s` starts, if anywhere.
fn find_separator(s: &Vec<char>) -> (r: Option<usize>)
    ensures
        match r {
            Some(i) => separator_at(s@, i as int) && forall|j: int|
                0 <= j < i ==> !separator_at(s@, j),
            None => forall|j: int| !separator_at(s@, j),
        },
{
    let mut i: usize = 0;
    while i < s.len() && 3 <= s.len() - i
        invariant
            i <= s.len(),
            forall|j: int| 0 <= j < i ==> !separator_at(s@, j),
        decreases s.len() - i,
    {
        if s[i] == ':' && s[i + 1] == '/' && s[i + 2] == '/' {
            assert(s@.subrange(i as int, i + 3) =~= separator());
            return Some(i);
        }
        assert(!separator_at(s@, i as int)) by {
            if separator_at(s@, i as int) {
                assert(s@.subrange(i as int, i + 3)[0] == ':');
                assert(s@.subrange(i as int, i + 3)[1] == '/');
                assert(s@.subrange(i as int, i + 3)[2] == '/');
            }
        }
        i = i + 1;
    }
    None
}

fn slice_chars(s: &Vec<char>, lo: usize, hi: usize) -> (r: Vec<char>)
    requires
        lo <= hi <= s.len(),
    ensures
        r@ == s@.subrange(lo as int, hi as int),
{
    let mut r: Vec<char> = Vec::new();
    let mut i: usize = lo;
    while i < hi
        invariant
            lo <= i <= hi <= s.len(),
            r@ == s@.subrange(lo as int, i as int),
        decreases hi - i,
    {
        r.push(s[i]);
        i = i + 1;
    }
    r
}

/// The transport and `ip:port` of an upstream written `scheme://ip:port`
/// (or `ip:port`, which is UDP).
pub fn upstream_to_nameserver(addr: &str) -> (r: Result<(Protocol, String), ForwardError>)
    ensures
        match r {
            Ok((p, a)) => upstream_spec(addr@) == Ok::<(Protocol, Seq<char>), ForwardError>(
                (p, a@),
            ),
            Err(e) => upstream_spec(addr@) == Err::<(Protocol, Seq<char>), ForwardError>(e),
        },
{
    let s = chars_of(addr);
    let (scheme, rest) = match find_separator(&s) {
        Some(i) => {
            let scheme = slice_chars(&s, 0, i);
            let rest = slice_chars(&s, i + 3, s.len());
            proof {
                let j = choose|j: int|
                    separator_at(s@, j) && forall|k: int| 0 <= k < j ==> !separator_at(s@, k);
                assert(j == i as int) by {
                    if j < i {
                        assert(!separator_at(s@, j));
                    }
                    if j > i {
                        assert(!separator_at(s@, i as int));
                    }
                }
                assert(scheme@ =~= s@.take(i as int));
                assert(rest@ =~= s@.skip(i + 3));
            }
            (scheme, rest)
        },
        None => (vec!['u', 'd', 'p'], s),
    };
    assert(split_scheme(addr@) == (scheme@, rest@));
    let p = if same_chars(scheme.as_slice(), &['u', 'd', 'p']) {
        Protocol::Udp
    } else if same_chars(scheme.as_slice(), &['t', 'c', 'p']) {
        Protocol::Tcp
    } else if same_chars(scheme.as_slice(), &['t', 'l', 's']) {
        Protocol::Tls
    } else if same_chars(scheme.as_slice(), &['h', 't', 't', 'p', 's']) {
        Protocol::Https
    } else if same_chars(scheme.as_slice(), &['q', 'u', 'i', 'c']) {
        Protocol::Quic
    } else if same_chars(scheme.as_slice(), &['h', '3']) {
        Protocol::H3
    } else {
        return Err(ForwardError::UnsupportedProtocol);
    };
    let text = string_of(&rest);
    if parses_as_socket_addr(text.as_str()) {
        Ok((p, text))
    } else {
        Err(ForwardError::InvalidAddress)
    }
}

/// The query timeout, in seconds, when none is configured.
pub const DEFAULT_TIMEOUT_SECS: u64 = 5;

/// The forward plugin: the upstreams that parsed, in configured order, the
/// query timeout and the number of requests that may run at once.
pub struct Forward {
    pub tag: String,
    pub upstreams: Vec<(Protocol, String)>,
    pub timeout_secs: u64,
    pub concurrent: usize,
}

/// `n` brought into `[1, 3]`.
pub open spec fn clamp_concurrency(n: usize) -> usize {
    if n < 1 {
        1
    } else if n > 3 {
        3
    } else {
        n
    }
}

/// What one configured upstream comes to; a missing address is an error.
pub open spec fn upstream_of(addr: Option<String>) -> Result<(Protocol, Seq<char>), ForwardError> {
    match addr {
        Some(a) => upstream_spec(a@),
        None => Err(ForwardError::MissingAddress),
    }
}

/// Every upstream of `addrs` is usable.
pub open spec fn all_usable(addrs: Seq<Option<String>>) -> bool {
    forall|k: int| 0 <= k < addrs.len() ==> (#[trigger] upstream_of(addrs[k])) is Ok
}

/// The transports and addresses of `addrs`, all of them usable.
pub open spec fn upstreams_of(addrs: Seq<Option<String>>) -> Seq<(Protocol, Seq<char>)> {
    addrs.map_values(|a: Option<String>| upstream_of(a)->Ok_0)
}

pub open spec fn upstream_views(v: Seq<(Protocol, String)>) -> Seq<(Protocol, Seq<char>)> {
    v.map_values(|u: (Protocol, String)| (u.0, u.1@))
}

pub open spec fn addrs_of(v: Seq<ForwardUpstream>) -> Seq<Option<String>> {
    v.map_values(|u: ForwardUpstream| u.addr)
}

proof fn lemma_upstreams_of_push(addrs: Seq<Option<String>>, i: int)
    requires
        0 <= i < addrs.len(),
    ensures
        upstreams_of(addrs.take(i + 1)) == upstreams_of(addrs.take(i)).push(upstream_of(addrs[i])->Ok_0),
{
    assert(addrs.take(i + 1) =~= addrs.take(i).push(addrs[i]));
    assert(upstreams_of(addrs.take(i + 1)) =~= upstreams_of(addrs.take(i)).push(upstream_of(addrs[i])->Ok_0));
}

/// The transport and `ip:port` of one configured upstream.
fn configured_upstream(u: &ForwardUpstream) -> (r: Result<(Protocol, String), ForwardError>)
    ensures
        match r {
            Ok(x) => upstream_of(u.addr) == Ok::<(Protocol, Seq<char>), ForwardError>((x.0, x.1@)),
            Err(e) => upstream_of(u.addr) == Err::<(Protocol, Seq<char>), ForwardError>(e),
        },
{
    match &u.addr {
        Some(a) => upstream_to_nameserver(a.as_str()),
        None => Err(ForwardError::MissingAddress),
    }
}

impl Forward {
    /// The forward plugin of this configuration, with every upstream in
    /// configured order; the timeout defaults to five seconds; the
    /// concurrency defaults to one and is clamped into `[1, 3]`. An upstream
    /// without an address, with an unknown scheme or with an address that is
    /// not `ip:port` makes the configuration invalid; the first such one
    /// gives the error.
    #[verifier::rlimit(50)]
    pub fn new(tag: String, concurrent: Option<usize>, timeout: Option<u64>, upstreams: Vec<ForwardUpstream>) -> (r: Result<Forward, ForwardError>)
        ensures
            r is Ok <==> all_usable(addrs_of(upstreams@)),
            r matches Ok(f) ==> {
                &&& f.tag == tag
                &&& f.timeout_secs == match timeout {
                    Some(t) => t,
                    None => DEFAULT_TIMEOUT_SECS,
                }
                &&& f.concurrent == clamp_concurrency(
                    match concurrent {
                        Some(c) => c,
                        None => 1,
                    },
                )
                &&& upstream_views(f.upstreams@) == upstreams_of(addrs_of(upstreams@))
            },
            r matches Err(e) ==> exists|k: int|
                0 <= k < upstreams@.len() && #[trigger] upstream_of(addrs_of(upstreams@)[k])
                    == Err::<(Protocol, Seq<char>), ForwardError>(e),
    {
        let mut usable: Vec<(Protocol, String)> = Vec::new();
        let ghost addrs = addrs_of(upstreams@);
        let mut i: usize = 0;
        while i < upstreams.len()
            invariant
                i <= upstreams.len(),
                addrs == addrs_of(upstreams@),
                forall|k: int| 0 <= k < i ==> (#[trigger] upstream_of(addrs[k])) is Ok,
                upstream_views(usable@) == upstreams_of(addrs.take(i as int)),
            decreases upstreams.len() - i,
        {
            let u = match configured_upstream(&upstreams[i]) {
                Ok(u) => u,
                Err(e) => {
                    proof {
                        assert(addrs[i as int] == upstreams@[i as int].addr);
                        assert(upstream_of(addrs[i as int]) == Err::<(Protocol, Seq<char>), ForwardError>(e));
                        assert(!all_usable(addrs));
                    }
                    return Err(e);
                },
            };
            proof {
                assert(addrs[i as int] == upstreams@[i as int].addr);
                lemma_upstreams_of_push(addrs, i as int);
            }
            let ghost before = usable@;
            usable.push(u);
            assert(upstream_views(usable@) =~= upstream_views(before).push((u.0, u.1@)));
            i = i + 1;
        }
        assert(addrs.take(upstreams.len() as int) =~= addrs);
        assert(all_usable(addrs));
        let c = match concurrent {
            Some(c) => c,
            None => 1,
        };
        let c = if c < 1 {
            1
        } else if c > 3 {
            3
        } else {
            c
        };
        let timeout_secs = match timeout {
            Some(t) => t,
            None => DEFAULT_TIMEOUT_SECS,
        };
        Ok(Forward { tag, upstreams: usable, timeout_secs, concurrent: c })
    }
}

} // verus!
