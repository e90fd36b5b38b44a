//! Domain names as sequences of labels.

use vstd::prelude::*;

verus! {

/// Unicode `White_Space`, the set that `char::is_whitespace` tests.
pub open spec fn is_white_space(c: char) -> bool {
    ('\u{9}' <= c && c <= '\u{d}') || c == ' ' || c == '\u{85}' || c == '\u{a0}'
        || c == '\u{1680}' || ('\u{2000}' <= c && c <= '\u{200a}') || c == '\u{2028}'
        || c == '\u{2029}' || c == '\u{202f}' || c == '\u{205f}' || c == '\u{3000}'
}

/// Whether `c` is white space.
pub fn white_space(c: char) -> (r: bool)
    ensures
        r == is_white_space(c),
{
    ('\u{9}' <= c && c <= '\u{d}') || c == ' ' || c == '\u{85}' || c == '\u{a0}'
        || c == '\u{1680}' || ('\u{2000}' <= c && c <= '\u{200a}') || c == '\u{2028}'
        || c == '\u{2029}' || c == '\u{202f}' || c == '\u{205f}' || c == '\u{3000}'
}

/// The characters of `s`.
pub fn chars_of(s: &str) -> (r: Vec<char>)
    ensures
        r@ == s@,
{
    let mut out: Vec<char> = Vec::new();
    for c in it: s.chars()
        invariant
            out@ == it.seq().take(it.index() as int),
    {
        out.push(c);
    }
    out
}


/// Relies on `String`'s `FromIterator<&char>`: the string of these characters.
#[verifier::external_body]
pub(crate) fn string_of(chars: &Vec<char>) -> (r: String)
    ensures
        r@ == chars@,
{
    chars.iter().collect()
}

/// `s` without its leading white space.
pub open spec fn trim_start(s: Seq<char>) -> Seq<char>
    decreases s.len(),
{
    if s.len() > 0 && is_white_space(s[0]) {
        trim_start(s.drop_first())
    } else {
        s
    }
}

/// `s` without its trailing white space.
pub open spec fn trim_end(s: Seq<char>) -> Seq<char>
    decreases s.len(),
{
    if s.len() > 0 && is_white_space(s.last()) {
        trim_end(s.drop_last())
    } else {
        s
    }
}

/// `s` without leading and trailing white space.
pub open spec fn trim(s: Seq<char>) -> Seq<char> {
    trim_end(trim_start(s))
}

/// The pieces of `s` between dots, empty pieces included: `"a..b"` has three.
pub open spec fn split_dots(s: Seq<char>) -> Seq<Seq<char>>
    decreases s.len(),
{
    if s.len() == 0 {
        seq![Seq::empty()]
    } else {
        let p = split_dots(s.drop_last());
        if s.last() == '.' {
            p.push(Seq::empty())
        } else {
            p.update(p.len() - 1, p.last().push(s.last()))
        }
    }
}

pub open spec fn non_empty(l: Seq<char>) -> bool {
    l.len() > 0
}

/// The labels of a domain name, the top-level one first: the name is split
/// on dots, empty labels are dropped and the order is reversed, so
/// `"www.example.com."` has the labels `["com", "example", "www"]`.
pub open spec fn domain_labels(s: Seq<char>) -> Seq<Seq<char>> {
    name_labels(s).reverse()
}

/// The labels of a domain name in written order, the top-level one last.
pub open spec fn name_labels(s: Seq<char>) -> Seq<Seq<char>> {
    split_dots(s).filter(|l: Seq<char>| non_empty(l))
}

/// The labels of a rule's domain, the top-level one first: the rule text is
/// trimmed before it is split.
pub open spec fn rule_labels(s: Seq<char>) -> Seq<Seq<char>> {
    domain_labels(trim(s))
}

pub open spec fn all_white_space(s: Seq<char>) -> bool {
    forall|k: int| 0 <= k < s.len() ==> is_white_space(#[trigger] s[k])
}

proof fn lemma_trim_end_concat(x: Seq<char>, y: Seq<char>)
    ensures
        trim_end(x + y) == if all_white_space(y) {
            trim_end(x)
        } else {
            x + trim_end(y)
        },
    decreases y.len(),
{
    if y.len() == 0 {
        assert(x + y =~= x);
    } else {
        assert((x + y).drop_last() =~= x + y.drop_last());
        lemma_trim_end_concat(x, y.drop_last());
        if is_white_space(y.last()) {
            if all_white_space(y.drop_last()) {
                assert(all_white_space(y)) by {
                    assert forall|k: int| 0 <= k < y.len() implies is_white_space(#[trigger] y[k]) by {
                        if k < y.len() - 1 {
                            assert(y.drop_last()[k] == y[k]);
                        }
                    }
                }
            } else {
                assert(!all_white_space(y)) by {
                    let k = choose|k: int| 0 <= k < y.drop_last().len() && !is_white_space(#[trigger] y.drop_last()[k]);
                    assert(!is_white_space(y[k]));
                }
            }
        } else {
            assert(!is_white_space(y[y.len() - 1]));
        }
    }
}

proof fn lemma_trim_start_all_white_space(t: Seq<char>)
    requires
        all_white_space(t),
    ensures
        trim_start(t).len() == 0,
        trim_end(t).len() == 0,
    decreases t.len(),
{
    if t.len() > 0 {
        assert(is_white_space(t[0]));
        assert forall|k: int| 0 <= k < t.drop_first().len() implies is_white_space(#[trigger] t.drop_first()[k]) by {
            assert(is_white_space(t[k + 1]));
        }
        lemma_trim_start_all_white_space(t.drop_first());
    }
    lemma_trim_end_concat(Seq::empty(), t);
    assert(Seq::<char>::empty() + t =~= t);
}

proof fn lemma_trim_end_shape(s: Seq<char>)
    ensures
        trim_end(s).len() == 0 || !is_white_space(trim_end(s).last()),
        trim_end(trim_end(s)) == trim_end(s),
        exists|k: int| 0 <= k <= s.len() && #[trigger] s.take(k) == trim_end(s),
    decreases s.len(),
{
    if s.len() > 0 && is_white_space(s.last()) {
        lemma_trim_end_shape(s.drop_last());
        let k = choose|k: int| 0 <= k <= s.drop_last().len() && #[trigger] s.drop_last().take(k) == trim_end(s.drop_last());
        assert(s.take(k) =~= s.drop_last().take(k));
    } else {
        assert(s.take(s.len() as int) =~= s);
    }
}

proof fn lemma_trim_start_shape(s: Seq<char>)
    ensures
        trim_start(s).len() == 0 || !is_white_space(trim_start(s)[0]),
        trim_start(trim_start(s)) == trim_start(s),
        exists|k: int| 0 <= k <= s.len() && #[trigger] s.skip(k) == trim_start(s),
    decreases s.len(),
{
    if s.len() > 0 && is_white_space(s[0]) {
        lemma_trim_start_shape(s.drop_first());
        let k = choose|k: int| 0 <= k <= s.drop_first().len() && #[trigger] s.drop_first().skip(k) == trim_start(s.drop_first());
        assert(s.skip(k + 1) =~= s.drop_first().skip(k));
    } else {
        assert(s.skip(0) =~= s);
    }
}

proof fn lemma_trim_commute(s: Seq<char>)
    ensures
        trim_start(trim_end(s)) == trim_end(trim_start(s)),
    decreases s.len(),
{
    if s.len() > 0 {
        let c = seq![s[0]];
        let t = s.drop_first();
        assert(c + t =~= s);
        lemma_trim_end_concat(c, t);
        lemma_trim_end_concat(Seq::empty(), c);
        assert(Seq::<char>::empty() + c =~= c);
        let te = trim_end(t);
        if is_white_space(s[0]) {
            assert(trim_start(s) == trim_start(t));
            if all_white_space(t) {
                lemma_trim_start_all_white_space(t);
                assert(c.drop_last() =~= Seq::<char>::empty());
                assert(trim_end(c).len() == 0);
                assert(trim_end(s).len() == 0);
                assert(trim_start(t).len() == 0);
            } else {
                lemma_trim_commute(t);
                assert((c + te)[0] == s[0]);
                assert((c + te).drop_first() =~= te);
                assert(trim_start(c + te) == trim_start(te));
            }
        } else {
            assert(trim_start(s) == s);
            if all_white_space(t) {
                assert(trim_end(c) == c);
                assert(trim_start(c) == c);
            } else {
                assert((c + te)[0] == s[0]);
                assert(trim_start(c + te) == c + te);
            }
        }
    }
}

/// Trimming a name that is already trimmed at one end, or at both, gives
/// what trimming the name itself gives.
proof fn lemma_trim_idempotent(s: Seq<char>)
    ensures
        trim(trim_end(s)) == trim(s),
        trim(trim(s)) == trim(s),
{
    lemma_trim_commute(s);
    lemma_trim_end_shape(trim_start(s));
    lemma_trim_start_shape(s);
    lemma_trim_commute(trim_start(s));
}

/// What trimming keeps comes from the name itself.
pub proof fn lemma_trim_within(s: Seq<char>, c: char)
    ensures
        trim(s).contains(c) ==> s.contains(c),
        trim_end(s).contains(c) ==> s.contains(c),
{
    lemma_trim_start_shape(s);
    let a = choose|k: int| 0 <= k <= s.len() && #[trigger] s.skip(k) == trim_start(s);
    lemma_trim_end_shape(trim_start(s));
    let b = choose|k: int| 0 <= k <= trim_start(s).len() && #[trigger] trim_start(s).take(k) == trim_end(trim_start(s));
    if trim(s).contains(c) {
        let i = choose|i: int| 0 <= i < trim(s).len() && trim(s)[i] == c;
        assert(s[a + i] == c);
    }
    lemma_trim_end_shape(s);
    let e = choose|k: int| 0 <= k <= s.len() && #[trigger] s.take(k) == trim_end(s);
    if trim_end(s).contains(c) {
        let i = choose|i: int| 0 <= i < trim_end(s).len() && trim_end(s)[i] == c;
        assert(s[i] == c);
    }
}

/// Trimming a name with something besides white space, prefixed by `p`
/// whose first character is not white space, keeps `p` and trims the end of
/// the name only.
pub proof fn lemma_trim_after_prefix(p: Seq<char>, bare: Seq<char>)
    requires
        p.len() > 0,
        !is_white_space(p[0]),
        trim(bare).len() > 0,
    ensures
        trim(p + bare) == p + trim_end(bare),
        trim(trim_end(bare)) == trim(bare),
        trim(trim(bare)) == trim(bare),
{
    assert(trim_start(p + bare) == p + bare);
    lemma_trim_end_concat(p, bare);
    if all_white_space(bare) {
        lemma_trim_start_all_white_space(bare);
        assert(trim_start(bare).len() == 0);
        assert(trim(bare) == trim_end(trim_start(bare)));
        assert(trim_start(bare).drop_last() =~= trim_start(bare));
    }
    lemma_trim_idempotent(bare);
}

proof fn lemma_split_dots_leading_dot(s: Seq<char>)
    ensures
        split_dots(seq!['.'] + s) == seq![Seq::<char>::empty()] + split_dots(s),
    decreases s.len(),
{
    let d = seq!['.'] + s;
    if s.len() == 0 {
        assert(d.drop_last() =~= Seq::<char>::empty());
        assert(d.last() == '.');
        assert(split_dots(Seq::<char>::empty()) == seq![Seq::<char>::empty()]);
        assert(s =~= Seq::<char>::empty());
        assert(split_dots(d) == split_dots(d.drop_last()).push(Seq::empty()));
        assert(split_dots(d) =~= seq![Seq::<char>::empty()] + split_dots(s));
    } else {
        assert(d.drop_last() =~= seq!['.'] + s.drop_last());
        assert(d.last() == s.last());
        lemma_split_dots_leading_dot(s.drop_last());
        lemma_split_dots_len(s.drop_last());
        let p = split_dots(s.drop_last());
        let e = seq![Seq::<char>::empty()];
        if s.last() == '.' {
            assert((e + p).push(Seq::empty()) =~= e + p.push(Seq::empty()));
        } else {
            assert((e + p).update((e + p).len() - 1, (e + p).last().push(s.last())) =~= e + p.update(
                p.len() - 1,
                p.last().push(s.last()),
            ));
        }
    }
}

/// A dot at either end of a name leaves its labels as they are: the empty
/// label it makes is dropped.
pub proof fn lemma_outer_dots_ignored(s: Seq<char>)
    ensures
        name_labels(s.push('.')) == name_labels(s),
        name_labels(seq!['.'] + s) == name_labels(s),
{
    let ne = |l: Seq<char>| non_empty(l);
    assert(s.push('.').drop_last() =~= s);
    split_dots(s).lemma_filter_push(Seq::empty(), ne);
    assert(split_dots(s).push(Seq::empty()).filter(ne) =~= split_dots(s).filter(ne));
    lemma_split_dots_leading_dot(s);
    let e = seq![Seq::<char>::empty()];
    Seq::filter_distributes_over_add(e, split_dots(s), ne);
    assert(e.filter(ne) =~= Seq::<Seq<char>>::empty()) by {
        assert(e =~= Seq::<Seq<char>>::empty().push(Seq::empty()));
        Seq::<Seq<char>>::empty().lemma_filter_push(Seq::empty(), ne);
    }
    assert(Seq::<Seq<char>>::empty() + split_dots(s).filter(ne) =~= split_dots(s).filter(ne));
}

proof fn lemma_split_dots_len(s: Seq<char>)
    ensures
        split_dots(s).len() >= 1,
    decreases s.len(),
{
    if s.len() > 0 {
        lemma_split_dots_len(s.drop_last());
    }
}

/// Where `s` starts once its leading white space is dropped.
fn trim_start_from(s: &Vec<char>) -> (lo: usize)
    ensures
        lo <= s.len(),
        trim_start(s@) == s@.subrange(lo as int, s.len() as int),
{
    let mut lo: usize = 0;
    assert(s@.subrange(0, s.len() as int) =~= s@);
    while lo < s.len() && white_space(s[lo])
        invariant
            lo <= s.len(),
            trim_start(s@) == trim_start(s@.subrange(lo as int, s.len() as int)),
        decreases s.len() - lo,
    {
        assert(s@.subrange(lo as int, s.len() as int).drop_first() =~= s@.subrange(
            lo + 1,
            s.len() as int,
        ));
        lo = lo + 1;
    }
    lo
}

/// The characters of `s` without leading and trailing white space.
pub fn trim_chars(s: &Vec<char>) -> (r: Vec<char>)
    ensures
        r@ == trim(s@),
{
    let lo = trim_start_from(s);
    let ghost t = s@.subrange(lo as int, s.len() as int);
    let mut hi: usize = s.len();
    while hi > lo && white_space(s[hi - 1])
        invariant
            lo <= hi <= s.len(),
            trim_end(t) == trim_end(s@.subrange(lo as int, hi as int)),
        decreases hi,
    {
        assert(s@.subrange(lo as int, hi as int).drop_last() =~= s@.subrange(
            lo as int,
            hi - 1,
        ));
        hi = hi - 1;
    }
    let mut r: Vec<char> = Vec::new();
    let mut i: usize = lo;
    while i < hi
        invariant
            lo <= i <= hi <= s.len(),
            r@ == s@.subrange(lo as int, i as int),
        decreases hi - i,
    {
        r.push(s[i]);
        i = i + 1;
    }
    r
}

/// A label of a domain name: the characters between two dots.
#[derive(Debug, Clone)]
pub struct Label {
    pub chars: Vec<char>,
}

impl View for Label {
    type V = Seq<char>;

    open spec fn view(&self) -> Seq<char> {
        self.chars@
    }
}

impl PartialEq for Label {
    fn eq(&self, o: &Label) -> (r: bool) {
        same_chars(self.chars.as_slice(), o.chars.as_slice())
    }
}

impl vstd::std_specs::cmp::PartialEqSpecImpl for Label {
    open spec fn obeys_eq_spec() -> bool {
        true
    }

    open spec fn eq_spec(&self, o: &Label) -> bool {
        self@ == o@
    }
}

/// The views of a list of labels.
pub open spec fn views(ls: Seq<Label>) -> Seq<Seq<char>> {
    ls.map_values(|l: Label| l@)
}

/// The labels of `name`, the top-level one first.
pub fn labels_of(name: &str) -> (r: Vec<Label>)
    ensures
        views(r@) == domain_labels(name@),
{
    let all = chars_of(name);
    split_labels(&all)
}

/// The labels of the rule text `rule`, trimmed, the top-level one first.
pub fn rule_labels_of(rule: &str) -> (r: Vec<Label>)
    ensures
        views(r@) == rule_labels(rule@),
{
    let all = chars_of(rule);
    rule_labels_of_chars(&all)
}

/// The labels of the rule text spelt by `all`, trimmed, the top-level one first.
pub fn rule_labels_of_chars(all: &Vec<char>) -> (r: Vec<Label>)
    ensures
        views(r@) == rule_labels(all@),
{
    let t = trim_chars(all);
    split_labels(&t)
}

/// The labels of the name spelt by `t`, the top-level one first.
pub fn split_labels(t: &Vec<char>) -> (r: Vec<Label>)
    ensures
        views(r@) == domain_labels(t@),
{
    let ghost ne = |l: Seq<char>| non_empty(l);
    let mut done: Vec<Label> = Vec::new();
    let mut cur: Vec<char> = Vec::new();
    let mut i: usize = 0;
    proof {
        assert(t@.take(0) =~= Seq::<char>::empty());
        assert(split_dots(t@.take(0)).drop_last() =~= Seq::<Seq<char>>::empty());
        assert(Seq::<Seq<char>>::empty().filter(ne) =~= Seq::<Seq<char>>::empty());
    }
    while i < t.len()
        invariant
            i <= t.len(),
            ne == (|l: Seq<char>| non_empty(l)),
            views(done@) == split_dots(t@.take(i as int)).drop_last().filter(ne),
            cur@ == split_dots(t@.take(i as int)).last(),
        decreases t.len() - i,
    {
        let c = t[i];
        let ghost p = split_dots(t@.take(i as int));
        proof {
            lemma_split_dots_len(t@.take(i as int));
            assert(t@.take(i + 1).drop_last() =~= t@.take(i as int));
            assert(p.drop_last().push(p.last()) =~= p);
            p.drop_last().lemma_filter_push(p.last(), ne);
        }
        if c == '.' {
            if cur.len() > 0 {
                let ghost before = done@;
                done.push(Label { chars: cur });
                assert(views(done@) =~= views(before).push(p.last()));
            } else {
                assert(!ne(p.last()));
            }
            cur = Vec::new();
            assert(split_dots(t@.take(i + 1)).drop_last() =~= p);
        } else {
            cur.push(c);
            assert(split_dots(t@.take(i + 1)).drop_last() =~= p.drop_last());
        }
        i = i + 1;
    }
    let ghost p = split_dots(t@.take(i as int));
    proof {
        assert(t@.take(i as int) =~= t@);
        lemma_split_dots_len(t@);
        assert(p.drop_last().push(p.last()) =~= p);
        p.drop_last().lemma_filter_push(p.last(), ne);
    }
    if cur.len() > 0 {
        let ghost before = done@;
        done.push(Label { chars: cur });
        assert(views(done@) =~= views(before).push(p.last()));
    }
    let ghost fwd = done@;
    let mut r: Vec<Label> = Vec::new();
    while done.len() > 0
        invariant
            done@ == fwd.take(done.len() as int),
            done.len() <= fwd.len(),
            views(r@) =~= views(fwd).subrange(done.len() as int, fwd.len() as int).reverse(),
        decreases done.len(),
    {
        let ghost d = done.len() as int;
        let ghost before = r@;
        let l = done.pop().unwrap();
        r.push(l);
        proof {
            let vf = views(fwd);
            assert(vf.subrange(d - 1, fwd.len() as int).reverse() =~= vf.subrange(
                d,
                fwd.len() as int,
            ).reverse().push(vf[d - 1]));
            assert(views(r@) =~= views(before).push(l@));
        }
    }
    assert(views(fwd).subrange(0, fwd.len() as int) =~= views(fwd));
    r
}

/// Whether `a` and `b` hold the same characters.
pub fn same_chars(a: &[char], b: &[char]) -> (r: bool)
    ensures
        r == (a@ == b@),
{
    if a.len() != b.len() {
        return false;
    }
    let mut i: usize = 0;
    while i < a.len()
        invariant
            a.len() == b.len(),
            i <= a.len(),
            forall|k: int| 0 <= k < i ==> a@[k] == b@[k],
        decreases a.len() - i,
    {
        if a[i] != b[i] {
            return false;
        }
        i = i + 1;
    }
    assert(a@ =~= b@);
    true
}

/// Whether `a` and `b` are the same text.
pub fn same_text(a: &str, b: &str) -> (r: bool)
    ensures
        r == (a@ == b@),
{
    let x = chars_of(a);
    let y = chars_of(b);
    same_chars(x.as_slice(), y.as_slice())
}

} // verus!
