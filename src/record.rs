//! Queries and resource records as plain values.

use vstd::prelude::*;

verus! {

/// The record type of an IPv4 address.
pub const TYPE_A: u16 = 1;

/// The record type of an IPv6 address.
pub const TYPE_AAAA: u16 = 28;

/// A query's fingerprint: the owner name and the record type (class IN).
#[derive(Debug, Clone)]
pub struct Query {
    pub name: String,
    pub rtype: u16,
}

/// A resource record: owner name, record type, TTL in seconds and the
/// record data in wire format.
#[derive(Debug, Clone)]
pub struct Record {
    pub name: String,
    pub rtype: u16,
    pub ttl: u32,
    pub rdata: Vec<u8>,
}

/// `c` with ASCII capitals made small.
pub open spec fn ascii_lower(c: char) -> char {
    if 'A' <= c && c <= 'Z' {
        ((c as u8) + 32) as char
    } else {
        c
    }
}

/// The key under which a query is cached: its name with ASCII letters
/// folded to lower case, and its record type.
pub open spec fn key_of(name: Seq<char>, rtype: u16) -> (Seq<char>, u16) {
    (name.map_values(|c: char| ascii_lower(c)), rtype)
}

/// The cache key of a query.
pub fn query_key(q: &Query) -> (k: (Vec<char>, u16))
    ensures
        (k.0@, k.1) == key_of(q.name@, q.rtype),
{
    let chars = crate::labels::chars_of(q.name.as_str());
    let mut out: Vec<char> = Vec::new();
    let mut i: usize = 0;
    while i < chars.len()
        invariant
            i <= chars.len(),
            out@ == chars@.take(i as int).map_values(|c: char| ascii_lower(c)),
        decreases chars.len() - i,
    {
        let c = chars[i];
        let l = if 'A' <= c && c <= 'Z' {
            ((c as u8) + 32) as char
        } else {
            c
        };
        proof {
            assert(chars@.take(i + 1) =~= chars@.take(i as int).push(c));
        }
        out.push(l);
        assert(out@ =~= chars@.take(i + 1).map_values(|c: char| ascii_lower(c)));
        i = i + 1;
    }
    assert(chars@.take(chars.len() as int) =~= chars@);
    (out, q.rtype)
}

} // verus!
