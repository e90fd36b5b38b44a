//! Domain matchers: predicates over domain names compiled from textual rules.

use vstd::laws_eq::{obeys_eq, obeys_eq_spec_properties};
use vstd::prelude::*;
use vstd::std_specs::cmp::PartialEqSpec;

use crate::kmp::{contains_run, kmp_search, occurs_at};
use crate::labels::{
    chars_of, domain_labels, labels_of, lemma_outer_dots_ignored, lemma_trim_after_prefix, lemma_trim_within, name_labels,
    rule_labels, rule_labels_of, rule_labels_of_chars, string_of, trim, trim_chars, trim_end, views,
    Label,
};

verus! {

#[verifier::external_type_specification]
#[verifier::external_body]
pub struct ExRegex(regex::Regex);

#[verifier::external_type_specification]
#[verifier::external_body]
pub struct ExRegexError(regex::Error);

/// Whether `regex::Regex::new` accepts `pattern`.
pub uninterp spec fn regex_compiles(pattern: Seq<char>) -> bool;

/// Whether the regex compiled from `pattern` matches somewhere in `text`.
pub uninterp spec fn regex_finds(pattern: Seq<char>, text: Seq<char>) -> bool;

/// A compiled regular expression together with the pattern it came from.
/// Only `compile_regexp` makes one, so the two always belong together.
pub struct Regexp {
    pattern: String,
    re: regex::Regex,
}

impl Regexp {
    pub closed spec fn pattern(&self) -> Seq<char> {
        self.pattern@
    }
}

/// Relies on `regex::Regex::new`: it fails exactly on the patterns it does
/// not accept, and its result depends on the pattern alone.
#[verifier::external_body]
fn compile_regexp(pattern: &str) -> (r: Result<Regexp, regex::Error>)
    ensures
        r is Ok <==> regex_compiles(pattern@),
        r is Ok ==> r->Ok_0.pattern() == pattern@,
{
    regex::Regex::new(pattern).map(|re| Regexp { pattern: pattern.to_string(), re })
}

/// Relies on `regex::Regex::is_match`: whether the regex matches anywhere in
/// `text`, a function of the pattern and the text.
#[verifier::external_body]
fn regexp_is_match(r: &Regexp, text: &str) -> (b: bool)
    ensures
        b == regex_finds(r.pattern(), text@),
{
    r.re.is_match(text)
}

/// Why a rule does not compile to a matcher.
#[derive(Debug, Clone, Copy, PartialEq, Eq)]
pub enum DomainError {
    /// The rule is empty or only white space.
    Empty,
    /// A `regexp:` rule whose pattern the regex engine refuses.
    InvalidRegexp,
    /// The rule has a `:` but none of the known kinds before it.
    Invalid,
}

/// A compiled domain rule.
pub enum Matcher {
    /// Names whose labels end with these (top-level label first).
    Suffix(Vec<Label>),
    /// Names with exactly these labels.
    Full(Vec<Label>),
    /// Names whose labels hold these as a contiguous run.
    Keyword(Vec<Label>),
    /// Names in which the regular expression matches.
    Regexp(Regexp),
}

/// What a matcher is, mathematically.
pub enum MatcherView {
    Suffix(Seq<Seq<char>>),
    Full(Seq<Seq<char>>),
    Keyword(Seq<Seq<char>>),
    Regexp(Seq<char>),
}

impl View for Matcher {
    type V = MatcherView;

    open spec fn view(&self) -> MatcherView {
        match self {
            Matcher::Suffix(ls) => MatcherView::Suffix(views(ls@)),
            Matcher::Full(ls) => MatcherView::Full(views(ls@)),
            Matcher::Keyword(ls) => MatcherView::Keyword(views(ls@)),
            Matcher::Regexp(r) => MatcherView::Regexp(r.pattern()),
        }
    }
}

/// `rule` is the start of `labels`: read from the top-level label down,
/// `labels` ends with `rule`.
pub open spec fn starts_with_labels(labels: Seq<Seq<char>>, rule: Seq<Seq<char>>) -> bool {
    rule.len() <= labels.len() && labels.take(rule.len() as int) == rule
}

/// `rule` occurs in `labels` as a contiguous run.
pub open spec fn contains_labels(labels: Seq<Seq<char>>, rule: Seq<Seq<char>>) -> bool {
    exists|p: int|
        0 <= p && p + rule.len() <= labels.len() && #[trigger] labels.subrange(
            p,
            p + rule.len(),
        ) == rule
}

/// Whether a matcher accepts the domain name `name`.
pub open spec fn accepts(m: MatcherView, name: Seq<char>) -> bool {
    match m {
        MatcherView::Suffix(r) => starts_with_labels(domain_labels(name), r),
        MatcherView::Full(r) => domain_labels(name) == r,
        MatcherView::Keyword(r) => contains_labels(domain_labels(name), r),
        MatcherView::Regexp(p) => regex_finds(p, name),
    }
}

/// Labels compare by their characters, which is an equivalence.
pub proof fn lemma_label_eq()
    ensures
        obeys_eq::<Label>(),
{
    reveal(obeys_eq_spec_properties);
}

proof fn lemma_contains_run_labels(t: Seq<Label>, r: Seq<Label>)
    ensures
        contains_run(t, r) == contains_labels(views(t), views(r)),
{
    if contains_run(t, r) {
        let p = choose|p: int| occurs_at(t, r, p);
        assert(views(t).subrange(p, p + r.len()) =~= views(r)) by {
            assert forall|k: int| 0 <= k < r.len() implies views(t).subrange(p, p + r.len())[k]
                == views(r)[k] by {
                assert(t[p + k].eq_spec(&r[0 + k]));
            }
        }
    }
    if contains_labels(views(t), views(r)) {
        let p = choose|p: int|
            0 <= p && p + views(r).len() <= views(t).len() && #[trigger] views(t).subrange(
                p,
                p + views(r).len(),
            ) == views(r);
        assert forall|k: int| 0 <= k < r.len() implies #[trigger] t[p + k].eq_spec(&r[0 + k]) by {
            assert(views(t).subrange(p, p + views(r).len())[k] == views(r)[k]);
        }
        assert(occurs_at(t, r, p));
    }
}

/// Whether `rule` is the start of `labels`.
fn labels_start_with(labels: &Vec<Label>, rule: &Vec<Label>) -> (b: bool)
    ensures
        b == starts_with_labels(views(labels@), views(rule@)),
{
    if rule.len() > labels.len() {
        return false;
    }
    let mut i: usize = 0;
    while i < rule.len()
        invariant
            rule.len() <= labels.len(),
            i <= rule.len(),
            forall|k: int| 0 <= k < i ==> labels@[k]@ == rule@[k]@,
        decreases rule.len() - i,
    {
        if labels[i] != rule[i] {
            assert(views(labels@).take(rule.len() as int)[i as int] != views(rule@)[i as int]);
            return false;
        }
        i = i + 1;
    }
    assert(views(labels@).take(rule.len() as int) =~= views(rule@));
    true
}

impl Matcher {
    /// Whether this matcher accepts the domain name `name`.
    pub fn matches(&self, name: &str) -> (b: bool)
        ensures
            b == accepts(self@, name@),
    {
        match self {
            Matcher::Suffix(rule) => {
                let labels = labels_of(name);
                labels_start_with(&labels, rule)
            },
            Matcher::Full(rule) => {
                let labels = labels_of(name);
                let b = labels.len() == rule.len() && labels_start_with(&labels, rule);
                proof {
                    if labels.len() == rule.len() {
                        assert(views(labels@).take(rule.len() as int) =~= views(labels@));
                    }
                }
                b
            },
            Matcher::Keyword(rule) => {
                let labels = labels_of(name);
                proof {
                    lemma_label_eq();
                    lemma_contains_run_labels(labels@, rule@);
                }
                kmp_search(labels.as_slice(), rule.as_slice())
            },
            Matcher::Regexp(r) => regexp_is_match(r, name),
        }
    }
}


/// A suffix matcher: names whose labels end with those of `domain`.
pub fn domain_suffix_match_fn(domain: &str) -> (m: Matcher)
    ensures
        m@ == MatcherView::Suffix(rule_labels(domain@)),
{
    Matcher::Suffix(rule_labels_of(domain))
}

/// A full matcher: names with the same labels as `domain`.
pub fn domain_full_match_fn(domain: &str) -> (m: Matcher)
    ensures
        m@ == MatcherView::Full(rule_labels(domain@)),
{
    Matcher::Full(rule_labels_of(domain))
}

/// A keyword matcher: names whose labels hold those of `domain` as a
/// contiguous run.
pub fn domain_keyword_match_fn(domain: &str) -> (m: Matcher)
    ensures
        m@ == MatcherView::Keyword(rule_labels(domain@)),
{
    Matcher::Keyword(rule_labels_of(domain))
}

/// A regular-expression matcher, if `rule` compiles.
pub fn domain_regexp_match_fn(rule: &str) -> (r: Result<Matcher, DomainError>)
    ensures
        r is Ok <==> regex_compiles(rule@),
        r is Ok ==> r->Ok_0@ == MatcherView::Regexp(rule@),
        r is Err ==> r->Err_0 == DomainError::InvalidRegexp,
{
    match compile_regexp(rule) {
        Ok(re) => Ok(Matcher::Regexp(re)),
        Err(_) => Err(DomainError::InvalidRegexp),
    }
}

pub open spec fn domain_prefix() -> Seq<char> {
    seq!['d', 'o', 'm', 'a', 'i', 'n', ':']
}

pub open spec fn full_prefix() -> Seq<char> {
    seq!['f', 'u', 'l', 'l', ':']
}

pub open spec fn keyword_prefix() -> Seq<char> {
    seq!['k', 'e', 'y', 'w', 'o', 'r', 'd', ':']
}

pub open spec fn regexp_prefix() -> Seq<char> {
    seq!['r', 'e', 'g', 'e', 'x', 'p', ':']
}

/// `s` with every leading repetition of `p` removed.
pub open spec fn strip_repeated(s: Seq<char>, p: Seq<char>) -> Seq<char>
    decreases s.len(),
{
    if p.len() > 0 && p.is_prefix_of(s) {
        strip_repeated(s.skip(p.len() as int), p)
    } else {
        s
    }
}

/// The matcher that a rule compiles to. The rule is trimmed; without a `:`
/// it is a suffix rule, otherwise its kind is named before the `:`.
pub open spec fn rule_matcher(rule: Seq<char>) -> Result<MatcherView, DomainError> {
    let d = trim(rule);
    if d.len() == 0 {
        Err(DomainError::Empty)
    } else if !d.contains(':') {
        Ok(MatcherView::Suffix(rule_labels(d)))
    } else if domain_prefix().is_prefix_of(d) {
        Ok(MatcherView::Suffix(rule_labels(strip_repeated(d, domain_prefix()))))
    } else if full_prefix().is_prefix_of(d) {
        Ok(MatcherView::Full(rule_labels(strip_repeated(d, full_prefix()))))
    } else if keyword_prefix().is_prefix_of(d) {
        Ok(MatcherView::Keyword(rule_labels(strip_repeated(d, keyword_prefix()))))
    } else if regexp_prefix().is_prefix_of(d) {
        let p = strip_repeated(d, regexp_prefix());
        if regex_compiles(p) {
            Ok(MatcherView::Regexp(p))
        } else {
            Err(DomainError::InvalidRegexp)
        }
    } else {
        Err(DomainError::Invalid)
    }
}

/// Whether `p` is a prefix of `s[from..]`.
fn has_prefix_at(s: &Vec<char>, from: usize, p: &Vec<char>) -> (b: bool)
    requires
        from <= s.len(),
    ensures
        b == p@.is_prefix_of(s@.skip(from as int)),
{
    if p.len() > s.len() - from {
        return false;
    }
    let mut i: usize = 0;
    while i < p.len()
        invariant
            p.len() <= s.len() - from,
            i <= p.len(),
            forall|k: int| 0 <= k < i ==> s@[from + k] == p@[k],
        decreases p.len() - i,
    {
        if s[from + i] != p[i] {
            return false;
        }
        i = i + 1;
    }
    true
}

/// `s` with every leading repetition of `p` removed.
fn strip_prefix_repeated(s: &Vec<char>, p: &Vec<char>) -> (r: Vec<char>)
    ensures
        r@ == strip_repeated(s@, p@),
{
    let mut from: usize = 0;
    assert(s@.skip(0) =~= s@);
    while p.len() > 0 && has_prefix_at(s, from, p)
        invariant
            from <= s.len(),
            strip_repeated(s@, p@) == strip_repeated(s@.skip(from as int), p@),
        decreases s.len() - from,
    {
        assert(s@.skip(from as int).skip(p.len() as int) =~= s@.skip(from + p.len()));
        from = from + p.len();
    }
    let mut r: Vec<char> = Vec::new();
    let mut i: usize = from;
    while i < s.len()
        invariant
            from <= i <= s.len(),
            r@ == s@.subrange(from as int, i as int),
        decreases s.len() - i,
    {
        r.push(s[i]);
        i = i + 1;
    }
    assert(r@ =~= s@.skip(from as int));
    r
}

/// Whether `s` holds the character `c`.
fn contains_char(s: &Vec<char>, c: char) -> (b: bool)
    ensures
        b == s@.contains(c),
{
    let mut i: usize = 0;
    while i < s.len()
        invariant
            i <= s.len(),
            forall|k: int| 0 <= k < i ==> s@[k] != c,
        decreases s.len() - i,
    {
        if s[i] == c {
            return true;
        }
        i = i + 1;
    }
    false
}

/// Compiles a textual rule into a matcher: `domain:X` (or a bare `X`),
/// `full:X`, `keyword:X` or `regexp:X`.
pub fn parse_domain(domain: &str) -> (r: Result<Matcher, DomainError>)
    ensures
        match r {
            Ok(m) => rule_matcher(domain@) == Ok::<MatcherView, DomainError>(m@),
            Err(e) => rule_matcher(domain@) == Err::<MatcherView, DomainError>(e),
        },
{
    let all = chars_of(domain);
    parse_rule_chars(&all)
}

/// Compiles the rule spelt by `rule` into a matcher, as `parse_domain` does.
pub fn parse_rule_chars(rule: &Vec<char>) -> (r: Result<Matcher, DomainError>)
    ensures
        match r {
            Ok(m) => rule_matcher(rule@) == Ok::<MatcherView, DomainError>(m@),
            Err(e) => rule_matcher(rule@) == Err::<MatcherView, DomainError>(e),
        },
{
    let d = trim_chars(rule);
    if d.len() == 0 {
        return Err(DomainError::Empty);
    }
    if !contains_char(&d, ':') {
        return Ok(Matcher::Suffix(rule_labels_of_chars(&d)));
    }
    let domain_p: Vec<char> = vec!['d', 'o', 'm', 'a', 'i', 'n', ':'];
    let full_p: Vec<char> = vec!['f', 'u', 'l', 'l', ':'];
    let keyword_p: Vec<char> = vec!['k', 'e', 'y', 'w', 'o', 'r', 'd', ':'];
    let regexp_p: Vec<char> = vec!['r', 'e', 'g', 'e', 'x', 'p', ':'];
    assert(domain_p@ =~= domain_prefix());
    assert(full_p@ =~= full_prefix());
    assert(keyword_p@ =~= keyword_prefix());
    assert(regexp_p@ =~= regexp_prefix());
    assert(d@.skip(0) =~= d@);
    if has_prefix_at(&d, 0, &domain_p) {
        let rest = strip_prefix_repeated(&d, &domain_p);
        return Ok(Matcher::Suffix(rule_labels_of_chars(&rest)));
    }
    if has_prefix_at(&d, 0, &full_p) {
        let rest = strip_prefix_repeated(&d, &full_p);
        return Ok(Matcher::Full(rule_labels_of_chars(&rest)));
    }
    if has_prefix_at(&d, 0, &keyword_p) {
        let rest = strip_prefix_repeated(&d, &keyword_p);
        return Ok(Matcher::Keyword(rule_labels_of_chars(&rest)));
    }
    if has_prefix_at(&d, 0, &regexp_p) {
        let rest = strip_prefix_repeated(&d, &regexp_p);
        let pattern = string_of(&rest);
        return domain_regexp_match_fn(pattern.as_str());
    }
    Err(DomainError::Invalid)
}


/// A suffix rule accepts a name exactly when the name's labels, in written
/// order, end with the rule's labels (the rule text trimmed, the name not).
pub proof fn lemma_suffix_means_trailing_labels(rule: Seq<char>, name: Seq<char>)
    ensures
        accepts(MatcherView::Suffix(rule_labels(rule)), name) <==> name_labels(trim(rule)).is_suffix_of(
            name_labels(name),
        ),
{
    let a = name_labels(trim(rule));
    let b = name_labels(name);
    if accepts(MatcherView::Suffix(rule_labels(rule)), name) {
        assert(a =~= b.subrange(b.len() - a.len(), b.len() as int)) by {
            assert forall|k: int| 0 <= k < a.len() implies a[k] == b.subrange(
                b.len() - a.len(),
                b.len() as int,
            )[k] by {
                let i = a.len() - 1 - k;
                assert(b.reverse().take(a.len() as int)[i] == a.reverse()[i]);
            }
        }
    }
    if a.is_suffix_of(b) {
        assert(b.reverse().take(a.len() as int) =~= a.reverse()) by {
            assert forall|i: int| 0 <= i < a.len() implies b.reverse().take(a.len() as int)[i]
                == a.reverse()[i] by {
                let k = a.len() - 1 - i;
                assert(b.subrange(b.len() - a.len(), b.len() as int)[k] == a[k]);
            }
        }
    }
}

/// A full rule accepts a name exactly when both have the same labels.
pub proof fn lemma_full_means_same_labels(rule: Seq<char>, name: Seq<char>)
    ensures
        accepts(MatcherView::Full(rule_labels(rule)), name) <==> name_labels(name) == name_labels(
            trim(rule),
        ),
{
    let a = name_labels(trim(rule));
    let b = name_labels(name);
    if b.reverse() == a.reverse() {
        assert(a.len() == a.reverse().len() && b.len() == b.reverse().len());
        assert(a =~= b) by {
            assert forall|k: int| 0 <= k < a.len() implies a[k] == b[k] by {
                assert(a.reverse()[a.len() - 1 - k] == b.reverse()[a.len() - 1 - k]);
            }
        }
    }
}

proof fn lemma_contains_labels_reversed(b: Seq<Seq<char>>, a: Seq<Seq<char>>)
    ensures
        contains_labels(b.reverse(), a.reverse()) <==> contains_labels(b, a),
{
    if contains_labels(b, a) {
        let p = choose|p: int|
            0 <= p && p + a.len() <= b.len() && #[trigger] b.subrange(p, p + a.len()) == a;
        let q = b.len() - p - a.len();
        assert(b.reverse().subrange(q, q + a.len()) =~= a.reverse()) by {
            assert forall|i: int| 0 <= i < a.len() implies b.reverse().subrange(q, q + a.len())[i]
                == a.reverse()[i] by {
                assert(b.subrange(p, p + a.len())[a.len() - 1 - i] == a[a.len() - 1 - i]);
            }
        }
    }
    if contains_labels(b.reverse(), a.reverse()) {
        let q = choose|q: int|
            0 <= q && q + a.reverse().len() <= b.reverse().len() && #[trigger] b.reverse().subrange(
                q,
                q + a.reverse().len(),
            ) == a.reverse();
        let p = b.len() - q - a.len();
        assert(b.subrange(p, p + a.len()) =~= a) by {
            assert forall|k: int| 0 <= k < a.len() implies b.subrange(p, p + a.len())[k] == a[k] by {
                let i = a.len() - 1 - k;
                assert(b.reverse().subrange(q, q + a.len())[i] == a.reverse()[i]);
            }
        }
    }
}

/// A keyword rule accepts a name exactly when the rule's labels occur in the
/// name's labels as a contiguous run, read in either direction.
pub proof fn lemma_keyword_means_contiguous_labels(rule: Seq<char>, name: Seq<char>)
    ensures
        accepts(MatcherView::Keyword(rule_labels(rule)), name) <==> contains_labels(
            name_labels(name),
            name_labels(trim(rule)),
        ),
        accepts(MatcherView::Keyword(rule_labels(rule)), name) <==> contains_labels(
            domain_labels(name),
            rule_labels(rule),
        ),
{
    lemma_contains_labels_reversed(name_labels(name), name_labels(trim(rule)));
}

/// A bare rule compiles to the same matcher as that rule prefixed with
/// `domain:`.
pub proof fn lemma_bare_rule_is_domain_rule(bare: Seq<char>)
    requires
        trim(bare).len() > 0,
        !bare.contains(':'),
    ensures
        rule_matcher(bare) == rule_matcher(domain_prefix() + bare),
        rule_matcher(bare) is Ok,
{
    let p = domain_prefix();
    lemma_trim_after_prefix(p, bare);
    lemma_trim_within(bare, ':');
    let te = trim_end(bare);
    let d = p + te;
    assert(d[6] == ':');
    assert(d.contains(':'));
    assert(p.is_prefix_of(d)) by {
        assert(d.take(7) =~= p);
    }
    assert(d.skip(7) =~= te);
    if p.is_prefix_of(te) {
        assert(te[6] == p[6]);
        assert(te.contains(':'));
    }
    assert(p.len() == 7);
    assert(strip_repeated(te, p) == te);
    assert(strip_repeated(d, p) == strip_repeated(d.skip(7), p));
}

/// A root dot at the end of a name, or a dot at its start, never changes
/// what a suffix, full or keyword rule says of it.
pub proof fn lemma_outer_dots_never_matter(m: MatcherView, name: Seq<char>)
    requires
        !(m is Regexp),
    ensures
        accepts(m, name.push('.')) == accepts(m, name),
        accepts(m, seq!['.'] + name) == accepts(m, name),
{
    lemma_outer_dots_ignored(name);
}

} // verus!
