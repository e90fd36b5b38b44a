//! Lines and words of configuration text.

use vstd::prelude::*;

use crate::labels::is_white_space;

verus! {

/// Whether `c` separates lines (`newline`) or words.
pub open spec fn is_separator(newline: bool, c: char) -> bool {
    if newline {
        c == '\n'
    } else {
        is_white_space(c)
    }
}

/// The pieces of `s` between separators, empty pieces included.
pub open spec fn pieces(s: Seq<char>, newline: bool) -> Seq<Seq<char>>
    decreases s.len(),
{
    if s.len() == 0 {
        seq![Seq::empty()]
    } else {
        let p = pieces(s.drop_last(), newline);
        if is_separator(newline, s.last()) {
            p.push(Seq::empty())
        } else {
            p.update(p.len() - 1, p.last().push(s.last()))
        }
    }
}

/// The lines of `s`, split at each line feed.
pub open spec fn text_lines(s: Seq<char>) -> Seq<Seq<char>> {
    pieces(s, true)
}

/// The words of `s`: its maximal runs without white space.
pub open spec fn words(s: Seq<char>) -> Seq<Seq<char>> {
    pieces(s, false).filter(|w: Seq<char>| w.len() > 0)
}

pub open spec fn char_views(v: Seq<Vec<char>>) -> Seq<Seq<char>> {
    v.map_values(|x: Vec<char>| x@)
}

proof fn lemma_pieces_len(s: Seq<char>, newline: bool)
    ensures
        pieces(s, newline).len() >= 1,
    decreases s.len(),
{
    if s.len() > 0 {
        lemma_pieces_len(s.drop_last(), newline);
    }
}

fn separator(newline: bool, c: char) -> (b: bool)
    ensures
        b == is_separator(newline, c),
{
    if newline {
        c == '\n'
    } else {
        crate::labels::white_space(c)
    }
}

/// The pieces of `s` between separators.
fn split_pieces(s: &Vec<char>, newline: bool) -> (r: Vec<Vec<char>>)
    ensures
        char_views(r@) == pieces(s@, newline),
{
    let mut done: Vec<Vec<char>> = Vec::new();
    let mut cur: Vec<char> = Vec::new();
    let mut i: usize = 0;
    assert(s@.take(0) =~= Seq::<char>::empty());
    while i < s.len()
        invariant
            i <= s.len(),
            char_views(done@) == pieces(s@.take(i as int), newline).drop_last(),
            cur@ == pieces(s@.take(i as int), newline).last(),
        decreases s.len() - i,
    {
        let c = s[i];
        let ghost p = pieces(s@.take(i as int), newline);
        proof {
            lemma_pieces_len(s@.take(i as int), newline);
            assert(s@.take(i + 1).drop_last() =~= s@.take(i as int));
        }
        if separator(newline, c) {
            let ghost before = done@;
            done.push(cur);
            assert(char_views(done@) =~= char_views(before).push(p.last()));
            assert(p.drop_last().push(p.last()) =~= p);
            cur = Vec::new();
        } else {
            cur.push(c);
            assert(pieces(s@.take(i + 1), newline).drop_last() =~= p.drop_last());
        }
        i = i + 1;
    }
    let ghost p = pieces(s@.take(i as int), newline);
    proof {
        lemma_pieces_len(s@.take(i as int), newline);
        assert(s@.take(i as int) =~= s@);
        assert(p.drop_last().push(p.last()) =~= p);
    }
    let ghost before = done@;
    done.push(cur);
    assert(char_views(done@) =~= char_views(before).push(p.last()));
    done
}

/// The lines of `s`.
pub fn lines_of(s: &Vec<char>) -> (r: Vec<Vec<char>>)
    ensures
        char_views(r@) == text_lines(s@),
{
    split_pieces(s, true)
}

/// The words of `s`.
pub fn words_of(s: &Vec<char>) -> (r: Vec<Vec<char>>)
    ensures
        char_views(r@) == words(s@),
{
    let all = split_pieces(s, false);
    let ghost ne = |w: Seq<char>| w.len() > 0;
    let mut r: Vec<Vec<char>> = Vec::new();
    let mut i: usize = 0;
    assert(char_views(all@).take(0).filter(ne) =~= Seq::<Seq<char>>::empty());
    while i < all.len()
        invariant
            i <= all.len(),
            ne == (|w: Seq<char>| w.len() > 0),
            char_views(r@) == char_views(all@).take(i as int).filter(ne),
        decreases all.len() - i,
    {
        let w = &all[i];
        proof {
            assert(char_views(all@).take(i + 1) =~= char_views(all@).take(i as int).push(w@));
            char_views(all@).take(i as int).lemma_filter_push(w@, ne);
        }
        if w.len() > 0 {
            let ghost before = r@;
            let mut copy: Vec<char> = Vec::new();
            let mut k: usize = 0;
            while k < w.len()
                invariant
                    k <= w.len(),
                    copy@ == w@.take(k as int),
                decreases w.len() - k,
            {
                copy.push(w[k]);
                assert(w@.take(k + 1) =~= w@.take(k as int).push(w@[k as int]));
                k = k + 1;
            }
            assert(w@.take(w.len() as int) =~= w@);
            r.push(copy);
            assert(char_views(r@) =~= char_views(before).push(w@));
        }
        i = i + 1;
    }
    assert(char_views(all@).take(all.len() as int) =~= char_views(all@));
    r
}

} // verus!
