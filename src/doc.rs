//! Turning the lines of a doc comment into one description text.
use vstd::prelude::*;

use crate::text::{
    chars_of, is_white, is_whitespace, join, join_strings, split_on, split_str, string_of, views,
};

verus! {

/// A line made of whitespace alone (the empty line included).
pub open spec fn blank(s: Seq<char>) -> bool {
    forall|i: int| 0 <= i < s.len() ==> is_white(#[trigger] s[i])
}

/// The lines of `v` from the first one that is not blank.
pub open spec fn skip_blank(v: Seq<Seq<char>>) -> Seq<Seq<char>>
    decreases v.len(),
{
    if v.len() > 0 && blank(v[0]) {
        skip_blank(v.drop_first())
    } else {
        v
    }
}

/// Each entry cut at its line feeds, the pieces in order.
pub open spec fn split_lines(v: Seq<Seq<char>>) -> Seq<Seq<char>>
    decreases v.len(),
{
    if v.len() == 0 {
        Seq::empty()
    } else {
        split_lines(v.drop_last()) + split_on(v.last(), seq!['\n'])
    }
}

/// `v` without its trailing blank lines.
pub open spec fn trim_blank_end(v: Seq<Seq<char>>) -> Seq<Seq<char>>
    decreases v.len(),
{
    if v.len() > 0 && blank(v.last()) {
        trim_blank_end(v.drop_last())
    } else {
        v
    }
}

/// A line without its first character where that is a space.
pub open spec fn strip_space(l: Seq<char>) -> Seq<char> {
    if l.len() > 0 && l[0] == ' ' {
        l.drop_first()
    } else {
        l
    }
}

/// The description text of the doc-comment entries `v`: the entries cut into
/// lines, leading and trailing blank lines dropped, one leading space taken
/// from each line, and the lines joined with line feeds.
pub open spec fn doc_text(v: Seq<Seq<char>>) -> Seq<char> {
    join(
        trim_blank_end(skip_blank(split_lines(v))).map_values(|l: Seq<char>| strip_space(l)),
        seq!['\n'],
    )
}

/// Whether `s` holds whitespace alone.
pub fn is_blank(s: &str) -> (r: bool)
    ensures
        r == blank(s@),
{
    let v = chars_of(s);
    let mut i: usize = 0;
    while i < v.len()
        invariant
            v@ == s@,
            i <= v@.len(),
            forall|j: int| 0 <= j < i ==> is_white(#[trigger] s@[j]),
        decreases v@.len() - i,
    {
        if !is_whitespace(v[i]) {
            return false;
        }
        i = i + 1;
    }
    true
}

/// Joins the entries of a doc comment into one description text.
pub fn process_doc_comment(lines: Vec<String>) -> (r: String)
    ensures
        r@ == doc_text(views(lines@)),
{
    let ghost v = views(lines@);
    let n = lines.len();
    let mut pieces: Vec<String> = Vec::new();
    let mut j: usize = 0;
    while j < n
        invariant
            n == lines@.len(),
            j <= n,
            v == views(lines@),
            views(pieces@) == split_lines(v.take(j as int)),
        decreases n - j,
    {
        proof {
            reveal_strlit("\n");
            assert("\n"@ =~= seq!['\n']);
        }
        let cut = split_str(lines[j].as_str(), "\n");
        proof {
            assert(v.take(j + 1).drop_last() =~= v.take(j as int));
            assert(views(pieces@ + cut@) =~= views(pieces@) + views(cut@));
        }
        let mut cut = cut;
        pieces.append(&mut cut);
        j = j + 1;
    }
    assert(v.take(n as int) =~= v);
    let ghost all = views(pieces@);
    let m = pieces.len();
    let mut k: usize = 0;
    assert(all.subrange(0, m as int) =~= all);
    while k < m && is_blank(pieces[k].as_str())
        invariant
            m == pieces@.len(),
            all == views(pieces@),
            k <= m,
            skip_blank(all) == skip_blank(all.subrange(k as int, m as int)),
        decreases m - k,
    {
        proof {
            let w = all.subrange(k as int, m as int);
            assert(w.drop_first() =~= all.subrange(k + 1, m as int));
            assert(w[0] == pieces@[k as int]@);
        }
        k = k + 1;
    }
    let mut kept: Vec<String> = Vec::new();
    let mut i: usize = k;
    while i < m
        invariant
            m == pieces@.len(),
            all == views(pieces@),
            k <= i <= m,
            views(kept@) == all.subrange(k as int, i as int),
        decreases m - i,
    {
        let ghost prev = kept@;
        let line = pieces[i].clone();
        kept.push(line);
        assert(views(kept@) =~= views(prev).push(line@));
        assert(all[i as int] == pieces@[i as int]@);
        assert(all.subrange(k as int, i + 1) =~= all.subrange(k as int, i as int).push(all[i as int]));
        i = i + 1;
    }
    proof {
        let w = all.subrange(k as int, m as int);
        if k < m {
            assert(w[0] == all[k as int]);
        }
        assert(skip_blank(all) == w);
    }
    let mut pieces = kept;
    while pieces.len() > 0 && is_blank(pieces[pieces.len() - 1].as_str())
        invariant
            trim_blank_end(views(pieces@)) == trim_blank_end(skip_blank(split_lines(v))),
        decreases pieces@.len(),
    {
        let ghost before = pieces@;
        pieces.pop();
        assert(views(pieces@) =~= views(before).drop_last());
    }
    let mut out: Vec<String> = Vec::new();
    let mut i: usize = 0;
    while i < pieces.len()
        invariant
            i <= pieces@.len(),
            views(pieces@) == trim_blank_end(skip_blank(split_lines(v))),
            views(out@) == views(pieces@).take(i as int).map_values(|l: Seq<char>| strip_space(l)),
        decreases pieces@.len() - i,
    {
        let line = chars_of(pieces[i].as_str());
        let stripped = if line.len() > 0 && line[0] == ' ' {
            string_of(&line, 1, line.len())
        } else {
            string_of(&line, 0, line.len())
        };
        proof {
            assert(line@.subrange(0, line@.len() as int) =~= line@);
            if line@.len() > 0 {
                assert(line@.subrange(1, line@.len() as int) =~= line@.drop_first());
            }
        }
        let ghost prev = out@;
        out.push(stripped);
        proof {
            assert(views(pieces@)[i as int] == pieces@[i as int]@);
            assert(views(out@) =~= views(prev).push(stripped@));
            assert(views(pieces@).take(i + 1).map_values(|l: Seq<char>| strip_space(l))
                =~= views(pieces@).take(i as int).map_values(|l: Seq<char>| strip_space(l)).push(
                strip_space(views(pieces@)[i as int]),
            ));
        }
        i = i + 1;
    }
    assert(views(pieces@).take(pieces@.len() as int) =~= views(pieces@));
    let r = join_strings(&out, "\n");
    proof {
        reveal_strlit("\n");
        assert("\n"@ =~= seq!['\n']);
    }
    r
}

} // verus!
