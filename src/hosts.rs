//! The hosts plugin: static A and AAAA answers from configured entries.

use vstd::prelude::*;

use crate::labels::{chars_of, same_chars, string_of};
use crate::matcher::{accepts, parse_rule_chars, rule_matcher, Matcher, MatcherView};
use crate::plugin::PluginQueryResult;
use crate::record::{Query, Record, TYPE_A, TYPE_AAAA};
use crate::text::{char_views, lines_of, text_lines, words, words_of};

verus! {

/// The octets of the IP address written as `text`, if it is one.
pub uninterp spec fn ip_octets(text: Seq<char>) -> Option<Seq<u8>>;

/// Relies on `core::net::IpAddr`'s `FromStr`: an IPv4 address gives its four
/// octets, an IPv6 address its sixteen, anything else nothing.
#[verifier::external_body]
fn parse_ip(text: &str) -> (r: Option<Vec<u8>>)
    ensures
        match r {
            Some(v) => ip_octets(text@) == Some(v@) && (v@.len() == 4 || v@.len() == 16),
            None => ip_octets(text@) is None,
        },
{
    match text.parse::<core::net::IpAddr>() {
        Ok(core::net::IpAddr::V4(a)) => Some(a.octets().to_vec()),
        Ok(core::net::IpAddr::V6(a)) => Some(a.octets().to_vec()),
        Err(_) => None,
    }
}

/// One rule of the table and the addresses it answers with.
pub struct HostsEntry {
    pub rule: Vec<char>,
    pub matcher: Matcher,
    pub ips: Vec<Vec<u8>>,
}

/// A rule, what it matches, and its addresses, as values.
pub type EntryView = (Seq<char>, MatcherView, Seq<Seq<u8>>);

impl View for HostsEntry {
    type V = EntryView;

    open spec fn view(&self) -> EntryView {
        (self.rule@, self.matcher@, self.ips@.map_values(|v: Vec<u8>| v@))
    }
}

/// The hosts plugin.
pub struct Hosts {
    pub tag: String,
    pub hosts: Vec<HostsEntry>,
}

pub open spec fn entry_views(v: Seq<HostsEntry>) -> Seq<EntryView> {
    v.map_values(|e: HostsEntry| e@)
}

/// The addresses among `tokens` that parse, in order.
pub open spec fn parsed_ips(tokens: Seq<Seq<char>>) -> Seq<Seq<u8>>
    decreases tokens.len(),
{
    if tokens.len() == 0 {
        Seq::empty()
    } else {
        let rest = parsed_ips(tokens.drop_last());
        match ip_octets(tokens.last()) {
            Some(o) => rest.push(o),
            None => rest,
        }
    }
}

/// Where the rule `rule` stands in `table`, if it does.
pub open spec fn rule_index(table: Seq<EntryView>, rule: Seq<char>) -> Option<int> {
    if exists|i: int| 0 <= i < table.len() && #[trigger] table[i].0 == rule {
        Some(choose|i: int| 0 <= i < table.len() && #[trigger] table[i].0 == rule)
    } else {
        None
    }
}

/// `table` after the entry line `line`: a line of fewer than two words, or
/// whose rule does not compile, leaves it as it is; otherwise the line's
/// addresses join those of its rule, which comes last if it is new.
pub open spec fn add_line(table: Seq<EntryView>, line: Seq<char>) -> Seq<EntryView> {
    let w = words(line);
    if w.len() < 2 {
        table
    } else {
        match rule_matcher(w[0]) {
            Err(_) => table,
            Ok(m) => {
                let ips = parsed_ips(w.skip(1));
                match rule_index(table, w[0]) {
                    Some(i) => table.update(i, (table[i].0, table[i].1, table[i].2 + ips)),
                    None => table.push((w[0], m, ips)),
                }
            },
        }
    }
}

/// The table that the entry lines `lines` make, in order.
pub open spec fn hosts_table(lines: Seq<Seq<char>>) -> Seq<EntryView>
    decreases lines.len(),
{
    if lines.len() == 0 {
        Seq::empty()
    } else {
        add_line(hosts_table(lines.drop_last()), lines.last())
    }
}

/// The entry lines of `entries` followed by the lines of each file text.
pub open spec fn all_lines(entries: Seq<Seq<char>>, files: Seq<Seq<char>>) -> Seq<Seq<char>>
    decreases files.len(),
{
    if files.len() == 0 {
        entries
    } else {
        all_lines(entries, files.drop_last()) + text_lines(files.last())
    }
}

/// The record type of an address of `len` octets.
pub open spec fn type_of_len(len: nat) -> u16 {
    if len == 4 {
        TYPE_A
    } else {
        TYPE_AAAA
    }
}

/// The (type, data) of the records that `table` answers `name` with: one per
/// address of each rule that accepts the name, in table order.
pub open spec fn answers(table: Seq<EntryView>, name: Seq<char>) -> Seq<(u16, Seq<u8>)>
    decreases table.len(),
{
    if table.len() == 0 {
        Seq::empty()
    } else {
        let rest = answers(table.drop_last(), name);
        let e = table.last();
        if accepts(e.1, name) {
            rest + e.2.map_values(|o: Seq<u8>| (type_of_len(o.len()), o))
        } else {
            rest
        }
    }
}

fn copy_bytes(v: &Vec<u8>) -> (r: Vec<u8>)
    ensures
        r@ == v@,
{
    let mut r: Vec<u8> = Vec::new();
    let mut i: usize = 0;
    while i < v.len()
        invariant
            i <= v.len(),
            r@ == v@.take(i as int),
        decreases v.len() - i,
    {
        r.push(v[i]);
        assert(v@.take(i + 1) =~= v@.take(i as int).push(v@[i as int]));
        i = i + 1;
    }
    assert(v@.take(v.len() as int) =~= v@);
    r
}

/// The addresses among `tokens[from..]` that parse.
fn parse_ips(tokens: &Vec<Vec<char>>, from: usize) -> (r: Vec<Vec<u8>>)
    requires
        from <= tokens.len(),
    ensures
        r@.map_values(|v: Vec<u8>| v@) == parsed_ips(char_views(tokens@).skip(from as int)),
        forall|k: int| 0 <= k < r.len() ==> (#[trigger] r@[k]).len() == 4 || r@[k].len() == 16,
{
    let mut r: Vec<Vec<u8>> = Vec::new();
    let mut i: usize = from;
    let ghost all = char_views(tokens@);
    assert(all.skip(from as int).take(0) =~= Seq::<Seq<char>>::empty());
    while i < tokens.len()
        invariant
            from <= i <= tokens.len(),
            all == char_views(tokens@),
            r@.map_values(|v: Vec<u8>| v@) == parsed_ips(all.skip(from as int).take(i - from)),
            forall|k: int| 0 <= k < r.len() ==> (#[trigger] r@[k]).len() == 4 || r@[k].len() == 16,
        decreases tokens.len() - i,
    {
        let text = string_of(&tokens[i]);
        let ghost seen = all.skip(from as int).take(i + 1 - from);
        assert(seen.drop_last() =~= all.skip(from as int).take(i - from));
        assert(seen.last() == tokens@[i as int]@);
        let ghost before = r@;
        match parse_ip(text.as_str()) {
            Some(o) => {
                r.push(o);
                assert(r@.map_values(|v: Vec<u8>| v@) =~= before.map_values(|v: Vec<u8>| v@).push(
                    o@,
                ));
            },
            None => {},
        }
        i = i + 1;
    }
    assert(all.skip(from as int).take(i - from) =~= all.skip(from as int));
    r
}

/// Each rule stands in `table` at most once.
pub open spec fn rules_unique(table: Seq<EntryView>) -> bool {
    forall|a: int, b: int| 0 <= a < b < table.len() ==> #[trigger] table[a].0 != #[trigger] table[b].0
}

impl Hosts {
    /// The table as values: rules, matchers and addresses, in order.
    pub open spec fn spec_table(&self) -> Seq<EntryView> {
        entry_views(self.hosts@)
    }

    /// Each rule stands in the table once.
    pub open spec fn wf(&self) -> bool {
        rules_unique(self.spec_table())
    }

    /// Where the rule `rule` stands in the table.
    fn find_rule(&self, rule: &Vec<char>) -> (r: Option<usize>)
        requires
            self.wf(),
        ensures
            match r {
                Some(i) => i < self.hosts.len() && rule_index(self.spec_table(), rule@) == Some(
                    i as int,
                ),
                None => rule_index(self.spec_table(), rule@) is None,
            },
    {
        let ghost table = self.spec_table();
        let mut i: usize = 0;
        while i < self.hosts.len()
            invariant
                table == self.spec_table(),
                rules_unique(table),
                i <= self.hosts.len(),
                forall|k: int| 0 <= k < i ==> table[k].0 != rule@,
            decreases self.hosts.len() - i,
        {
            if same_chars(self.hosts[i].rule.as_slice(), rule.as_slice()) {
                proof {
                    assert(table[i as int].0 == rule@);
                    let j = choose|j: int| 0 <= j < table.len() && #[trigger] table[j].0 == rule@;
                    if j < i {
                        assert(table[j].0 != rule@);
                    } else if j > i {
                        assert(rules_unique(table));
                        assert(table[i as int].0 != table[j].0);
                    }
                }
                return Some(i);
            }
            i = i + 1;
        }
        None
    }

    /// Adds the entry line `line` to the table.
    fn add(&mut self, line: &Vec<char>)
        requires
            old(self).wf(),
        ensures
            final(self).wf(),
            final(self).spec_table() == add_line(old(self).spec_table(), line@),
            final(self).tag == old(self).tag,
    {
        let ghost table = self.spec_table();
        let mut w = words_of(line);
        if w.len() < 2 {
            return;
        }
        let matcher = match parse_rule_chars(&w[0]) {
            Ok(m) => m,
            Err(_) => {
                return;
            },
        };
        let ips = parse_ips(&w, 1);
        let ghost ipv = ips@.map_values(|v: Vec<u8>| v@);
        assert(char_views(w@).skip(1) == words(line@).skip(1));
        let rule = w.remove(0);
        match self.find_rule(&rule) {
            Some(i) => {
                let mut e = self.hosts.remove(i);
                let ghost old_ips = e.ips@.map_values(|v: Vec<u8>| v@);
                let mut k: usize = 0;
                while k < ips.len()
                    invariant
                        k <= ips.len(),
                        ipv == ips@.map_values(|v: Vec<u8>| v@),
                        e.ips@.map_values(|v: Vec<u8>| v@) == old_ips + ipv.take(k as int),
                        e.rule@ == table[i as int].0,
                        e.matcher@ == table[i as int].1,
                    decreases ips.len() - k,
                {
                    let ghost before = e.ips@;
                    e.ips.push(copy_bytes(&ips[k]));
                    assert(e.ips@.map_values(|v: Vec<u8>| v@) =~= before.map_values(
                        |v: Vec<u8>| v@,
                    ).push(ipv[k as int]));
                    assert(ipv.take(k + 1) =~= ipv.take(k as int).push(ipv[k as int]));
                    k = k + 1;
                }
                assert(ipv.take(ips.len() as int) =~= ipv);
                self.hosts.insert(i, e);
                assert(self.spec_table() =~= table.update(
                    i as int,
                    (table[i as int].0, table[i as int].1, table[i as int].2 + ipv),
                ));
            },
            None => {
                self.hosts.push(HostsEntry { rule, matcher, ips });
                assert(self.spec_table() =~= table.push((rule@, matcher@, ipv)));
                assert forall|a: int| 0 <= a < table.len() implies table[a].0 != rule@ by {
                    if table[a].0 == rule@ {
                        assert(exists|i: int| 0 <= i < table.len() && #[trigger] table[i].0 == rule@);
                    }
                }
            },
        }
    }
}

/// The (type, data) pairs of `records`.
pub open spec fn typed_data(records: Seq<Record>) -> Seq<(u16, Seq<u8>)> {
    records.map_values(|r: Record| (r.rtype, r.rdata@))
}

pub open spec fn string_views(v: Seq<String>) -> Seq<Seq<char>> {
    v.map_values(|s: String| s@)
}

impl Hosts {
    /// The hosts table of `entries` and of the lines of each text in
    /// `file_texts`, read in that order. Lines with fewer than two words or
    /// with a rule that does not compile are skipped; addresses that do not
    /// parse are dropped; lines with the same rule merge their addresses.
    pub fn new(tag: String, entries: Vec<String>, file_texts: Vec<String>) -> (h: Hosts)
        ensures
            h.wf(),
            h.tag == tag,
            h.spec_table() == hosts_table(all_lines(string_views(entries@), string_views(file_texts@))),
    {
        let mut h = Hosts { tag, hosts: Vec::new() };
        let ghost ev = string_views(entries@);
        let ghost fv = string_views(file_texts@);
        assert(h.spec_table() =~= hosts_table(ev.take(0)));
        let mut i: usize = 0;
        while i < entries.len()
            invariant
                i <= entries.len(),
                ev == string_views(entries@),
                h.wf(),
                h.tag == tag,
                h.spec_table() == hosts_table(ev.take(i as int)),
            decreases entries.len() - i,
        {
            let line = chars_of(entries[i].as_str());
            h.add(&line);
            assert(ev.take(i + 1).drop_last() =~= ev.take(i as int));
            i = i + 1;
        }
        assert(ev.take(entries.len() as int) =~= ev);
        assert(fv.take(0) =~= Seq::<Seq<char>>::empty());
        let mut j: usize = 0;
        while j < file_texts.len()
            invariant
                j <= file_texts.len(),
                ev == string_views(entries@),
                fv == string_views(file_texts@),
                h.wf(),
                h.tag == tag,
                h.spec_table() == hosts_table(all_lines(ev, fv.take(j as int))),
            decreases file_texts.len() - j,
        {
            let text = chars_of(file_texts[j].as_str());
            let lines = lines_of(&text);
            let ghost before = all_lines(ev, fv.take(j as int));
            let ghost lv = char_views(lines@);
            assert(before + lv.take(0) =~= before);
            let mut k: usize = 0;
            while k < lines.len()
                invariant
                    k <= lines.len(),
                    lv == char_views(lines@),
                    h.wf(),
                    h.tag == tag,
                    h.spec_table() == hosts_table(before + lv.take(k as int)),
                decreases lines.len() - k,
            {
                h.add(&lines[k]);
                assert((before + lv.take(k + 1)).drop_last() =~= before + lv.take(k as int));
                k = k + 1;
            }
            assert(lv.take(lines.len() as int) =~= lv);
            assert(fv.take(j + 1).drop_last() =~= fv.take(j as int));
            j = j + 1;
        }
        assert(fv.take(file_texts.len() as int) =~= fv);
        h
    }

    /// The records that answer `query`: for each rule that accepts its name,
    /// one A or AAAA record per address, owned by the query's name, with a
    /// TTL of zero. The result never continues with another plugin.
    pub fn exec(&self, query: &Query) -> (r: PluginQueryResult)
        ensures
            r.next is None,
            typed_data(r.records@) == answers(self.spec_table(), query.name@),
            forall|k: int|
                0 <= k < r.records@.len() ==> (#[trigger] r.records@[k]).name@ == query.name@
                    && r.records@[k].ttl == 0,
    {
        let ghost table = self.spec_table();
        let mut records: Vec<Record> = Vec::new();
        let mut i: usize = 0;
        assert(table.take(0) =~= Seq::<EntryView>::empty());
        while i < self.hosts.len()
            invariant
                table == self.spec_table(),
                i <= self.hosts.len(),
                typed_data(records@) == answers(table.take(i as int), query.name@),
                forall|k: int|
                    0 <= k < records@.len() ==> (#[trigger] records@[k]).name@ == query.name@
                        && records@[k].ttl == 0,
            decreases self.hosts.len() - i,
        {
            let e = &self.hosts[i];
            assert(table.take(i + 1).drop_last() =~= table.take(i as int));
            assert(table.take(i + 1).last() == e@);
            if e.matcher.matches(query.name.as_str()) {
                let ghost base = typed_data(records@);
                let ghost ips = e@.2;
                let mut k: usize = 0;
                while k < e.ips.len()
                    invariant
                        k <= e.ips.len(),
                        ips == e.ips@.map_values(|v: Vec<u8>| v@),
                        typed_data(records@) == base + ips.take(k as int).map_values(
                            |o: Seq<u8>| (type_of_len(o.len()), o),
                        ),
                        forall|m: int|
                            0 <= m < records@.len() ==> (#[trigger] records@[m]).name@
                                == query.name@ && records@[m].ttl == 0,
                    decreases e.ips.len() - k,
                {
                    let ip = &e.ips[k];
                    let rtype = if ip.len() == 4 {
                        TYPE_A
                    } else {
                        TYPE_AAAA
                    };
                    let ghost before = records@;
                    records.push(
                        Record { name: query.name.clone(), rtype, ttl: 0, rdata: copy_bytes(ip) },
                    );
                    assert(typed_data(records@) =~= typed_data(before).push((rtype, ip@)));
                    assert(ips.take(k + 1) =~= ips.take(k as int).push(ips[k as int]));
                    assert(ips.take(k + 1).map_values(|o: Seq<u8>| (type_of_len(o.len()), o))
                        =~= ips.take(k as int).map_values(
                        |o: Seq<u8>| (type_of_len(o.len()), o),
                    ).push((rtype, ip@)));
                    k = k + 1;
                }
                assert(ips.take(e.ips.len() as int) =~= ips);
            }
            i = i + 1;
        }
        assert(table.take(self.hosts.len() as int) =~= table);
        PluginQueryResult::return_records(records)
    }
}

} // verus!
