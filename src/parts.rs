//! Splitting identifiers into word fragments and rendering them in the common
//! naming conventions.
use vstd::prelude::*;

use crate::text::{
    ascii_lower, ascii_upper, chars_of, concat, is_lower, is_upper, join, join_strings, lower_all,
    push_char, string_of, to_lower, to_upper, upper_of, uppercase, views,
};

verus! {

/// `_` and `-` separate words explicitly.
pub open spec fn is_delim(c: char) -> bool {
    c == '_' || c == '-'
}

pub open spec fn has_delim(s: Seq<char>) -> bool {
    exists|i: int| 0 <= i < s.len() && is_delim(#[trigger] s[i])
}

pub open spec fn all_upper(s: Seq<char>) -> bool {
    forall|i: int| 0 <= i < s.len() ==> is_upper(#[trigger] s[i])
}

/// Ends the current fragment: a non-empty buffer becomes a fragment.
pub open spec fn flush(parts: Seq<Seq<char>>, buf: Seq<char>) -> Seq<Seq<char>> {
    if buf.len() == 0 {
        parts
    } else {
        parts.push(buf)
    }
}

/// The finished fragments and the open buffer after reading `s` from the left.
pub open spec fn scan(s: Seq<char>) -> (Seq<Seq<char>>, Seq<char>)
    decreases s.len(),
{
    if s.len() == 0 {
        (Seq::empty(), Seq::empty())
    } else {
        let (parts, buf) = scan(s.drop_last());
        let c = s.last();
        if is_delim(c) {
            (flush(parts, buf), Seq::empty())
        } else if is_upper(c) {
            (flush(parts, buf), seq![to_lower(c)])
        } else {
            (parts, buf.push(c))
        }
    }
}

/// The word fragments of an identifier.
///
/// With a delimiter present the whole input is lowercased first. An input made
/// of capitals alone (the empty one included) is a single fragment. Otherwise a
/// delimiter or a capital ends a fragment, and empty fragments are dropped.
pub open spec fn tokenize(s: Seq<char>) -> Seq<Seq<char>> {
    let t = if has_delim(s) {
        lower_all(s)
    } else {
        s
    };
    if all_upper(t) {
        seq![lower_all(t)]
    } else {
        let (parts, buf) = scan(t);
        flush(parts, buf)
    }
}

/// A fragment with its first character in ASCII uppercase.
pub open spec fn cap_first(f: Seq<char>) -> Seq<char> {
    if f.len() == 0 {
        f
    } else {
        seq![to_upper(f[0])] + f.drop_first()
    }
}

pub open spec fn pascal_case(ps: Seq<Seq<char>>) -> Seq<char> {
    concat(ps.map_values(|f: Seq<char>| cap_first(f)))
}

pub open spec fn camel_case(ps: Seq<Seq<char>>) -> Seq<char> {
    concat(
        ps.map(
            |i: int, f: Seq<char>|
                if i == 0 {
                    f
                } else {
                    cap_first(f)
                },
        ),
    )
}

pub open spec fn screaming(ps: Seq<Seq<char>>, sep: Seq<char>) -> Seq<char> {
    join(ps.map_values(|f: Seq<char>| upper_of(f)), sep)
}

/// A string of ASCII small letters alone.
pub open spec fn all_lower(f: Seq<char>) -> bool {
    forall|j: int| 0 <= j < f.len() ==> is_lower(#[trigger] f[j])
}

/// A string of ASCII letters, `_` and `-`.
pub open spec fn ident_chars(s: Seq<char>) -> bool {
    forall|i: int| 0 <= i < s.len() ==> is_upper(#[trigger] s[i]) || is_lower(s[i]) || is_delim(s[i])
}

/// Fragments that are non-empty strings of small letters.
pub open spec fn plain_fragments(ps: Seq<Seq<char>>) -> bool {
    forall|k: int| 0 <= k < ps.len() ==> (#[trigger] ps[k]).len() > 0 && all_lower(ps[k])
}

/// Reading letters that end no fragment extends the open buffer.
proof fn lemma_scan_append_plain(a: Seq<char>, b: Seq<char>)
    requires
        all_lower(b),
    ensures
        scan(a + b) == (scan(a).0, scan(a).1 + b),
    decreases b.len(),
{
    if b.len() == 0 {
        assert(a + b =~= a);
        assert(scan(a).1 + b =~= scan(a).1);
    } else {
        let c = b.last();
        assert((a + b).drop_last() =~= a + b.drop_last());
        assert((a + b).last() == c);
        lemma_scan_append_plain(a, b.drop_last());
        assert(scan(a).1 + b.drop_last() + seq![c] =~= scan(a).1 + b);
        assert(is_lower(b[b.len() - 1]));
    }
}

/// What scanning an identifier leaves: fragments of small letters, and at
/// least one character read into them once a letter has been seen.
proof fn lemma_scan_shape(t: Seq<char>)
    requires
        ident_chars(t),
    ensures
        plain_fragments(scan(t).0),
        all_lower(scan(t).1),
        (exists|i: int| 0 <= i < t.len() && !is_delim(#[trigger] t[i])) ==> scan(t).0.len() > 0
            || scan(t).1.len() > 0,
    decreases t.len(),
{
    if t.len() > 0 {
        let d = t.drop_last();
        let c = t.last();
        assert forall|i: int| 0 <= i < d.len() implies is_upper(#[trigger] d[i]) || is_lower(d[i])
            || is_delim(d[i]) by {
            assert(d[i] == t[i]);
        }
        lemma_scan_shape(d);
        assert(is_upper(t[t.len() - 1]) || is_lower(t[t.len() - 1]) || is_delim(t[t.len() - 1]));
        let (p, b) = scan(d);
        if is_delim(c) {
            if (exists|i: int| 0 <= i < t.len() && !is_delim(#[trigger] t[i])) {
                let i = choose|i: int| 0 <= i < t.len() && !is_delim(#[trigger] t[i]);
                assert(d[i] == t[i]);
            }
        } else if is_upper(c) {
            assert(is_lower(to_lower(c)));
            assert(all_lower(seq![to_lower(c)]));
        } else {
            assert(all_lower(b.push(c)));
        }
    }
}

/// The lowercase form of an identifier holds small letters and delimiters.
proof fn lemma_lower_ident(s: Seq<char>)
    requires
        ident_chars(s),
    ensures
        ident_chars(lower_all(s)),
        forall|i: int| 0 <= i < s.len() ==> !is_upper(#[trigger] lower_all(s)[i]),
        forall|i: int| 0 <= i < s.len() ==> (is_delim(#[trigger] lower_all(s)[i]) <==> is_delim(s[i])),
{
    assert forall|i: int| 0 <= i < s.len() implies is_lower(#[trigger] lower_all(s)[i])
        || is_delim(lower_all(s)[i]) by {
        assert(is_upper(s[i]) || is_lower(s[i]) || is_delim(s[i]));
    }
}

/// Scanning fragments joined with `_` gives them back, the last one still open.
proof fn lemma_scan_join(ps: Seq<Seq<char>>)
    requires
        ps.len() > 0,
        plain_fragments(ps),
    ensures
        scan(join(ps, seq!['_'])) == (ps.drop_last(), ps.last()),
    decreases ps.len(),
{
    if ps.len() == 1 {
        assert(all_lower(ps[0]));
        lemma_scan_append_plain(Seq::empty(), ps[0]);
        assert(Seq::<char>::empty() + ps[0] =~= ps[0]);
        assert(ps.drop_last() =~= Seq::<Seq<char>>::empty());
    } else {
        let d = ps.drop_last();
        assert forall|k: int| 0 <= k < d.len() implies (#[trigger] d[k]).len() > 0 && all_lower(
            d[k],
        ) by {
            assert(d[k] == ps[k]);
        }
        lemma_scan_join(d);
        let j = join(d, seq!['_']);
        let u = j + seq!['_'];
        assert(u.drop_last() =~= j);
        assert(scan(u) == (d.drop_last().push(d.last()), Seq::<char>::empty()));
        assert(d.drop_last().push(d.last()) =~= d);
        assert(all_lower(ps[ps.len() - 1]));
        lemma_scan_append_plain(u, ps.last());
        assert(join(ps, seq!['_']) == u + ps.last());
    }
}

/// The characters of fragments joined with `_`: small letters, and `_` in
/// between where there are two fragments or more.
proof fn lemma_join_chars(ps: Seq<Seq<char>>)
    requires
        ps.len() > 0,
        plain_fragments(ps),
    ensures
        join(ps, seq!['_']).len() > 0,
        forall|i: int|
            0 <= i < join(ps, seq!['_']).len() ==> is_lower(#[trigger] join(ps, seq!['_'])[i])
                || join(ps, seq!['_'])[i] == '_',
        ps.len() == 1 ==> join(ps, seq!['_']) == ps[0],
        ps.len() > 1 ==> has_delim(join(ps, seq!['_'])),
        !is_upper(join(ps, seq!['_'])[0]),
    decreases ps.len(),
{
    let j = join(ps, seq!['_']);
    if ps.len() == 1 {
        assert(all_lower(ps[0]));
        assert(is_lower(ps[0][0]));
    } else {
        let d = ps.drop_last();
        assert forall|k: int| 0 <= k < d.len() implies (#[trigger] d[k]).len() > 0 && all_lower(
            d[k],
        ) by {
            assert(d[k] == ps[k]);
        }
        lemma_join_chars(d);
        let jd = join(d, seq!['_']);
        assert(j == jd + seq!['_'] + ps.last());
        assert(all_lower(ps[ps.len() - 1]));
        assert forall|i: int| 0 <= i < j.len() implies is_lower(#[trigger] j[i]) || j[i] == '_' by {
            if i < jd.len() {
                assert(j[i] == jd[i]);
            } else if i > jd.len() {
                assert(j[i] == ps.last()[i - jd.len() - 1]);
            }
        }
        assert(j[jd.len() as int] == '_');
        assert(is_delim(j[jd.len() as int]));
        assert(j[0] == jd[0]);
    }
}

/// Rendering an identifier's fragments in snake_case and splitting the result
/// again gives the same fragments. This holds for every string of ASCII
/// letters, `_` and `-`, but for those made of delimiters alone: they have no
/// fragment, and the empty text that renders them splits into one empty
/// fragment.
pub proof fn lemma_snake_case_round_trip(s: Seq<char>)
    requires
        ident_chars(s),
        s.len() == 0 || exists|i: int| 0 <= i < s.len() && !is_delim(#[trigger] s[i]),
    ensures
        tokenize(join(tokenize(s), seq!['_'])) == tokenize(s),
{
    if s.len() == 0 {
        assert(tokenize(s) == seq![lower_all(s)]);
        assert(lower_all(s) =~= Seq::<char>::empty());
        assert(join(tokenize(s), seq!['_']) == Seq::<char>::empty());
        assert(lower_all(Seq::<char>::empty()) =~= Seq::<char>::empty());
    } else {
        let f = tokenize(s);
        lemma_lower_ident(s);
        let t = if has_delim(s) {
            lower_all(s)
        } else {
            s
        };
        assert(ident_chars(t));
        assert(exists|i: int| 0 <= i < t.len() && !is_delim(#[trigger] t[i])) by {
            let i = choose|i: int| 0 <= i < s.len() && !is_delim(#[trigger] s[i]);
            assert(!is_delim(t[i]));
        }
        if all_upper(t) {
            assert(!has_delim(s)) by {
                if has_delim(s) {
                    let i = choose|i: int| 0 <= i < s.len() && is_delim(#[trigger] s[i]);
                    assert(is_upper(t[i]));
                }
            }
            assert(f == seq![lower_all(t)]);
            assert(all_lower(lower_all(t)));
            assert(is_upper(t[0]));
        } else {
            lemma_scan_shape(t);
        }
        assert(plain_fragments(f));
        assert(f.len() > 0);
        let j = join(f, seq!['_']);
        lemma_join_chars(f);
        let u = if has_delim(j) {
            lower_all(j)
        } else {
            j
        };
        assert(u =~= j);
        assert(!all_upper(u));
        lemma_scan_join(f);
        assert(f.drop_last().push(f.last()) =~= f);
    }
}

/// The word fragments of an identifier, in order.
#[derive(Debug)]
pub struct Parts(Vec<String>);

impl View for Parts {
    type V = Seq<Seq<char>>;

    closed spec fn view(&self) -> Seq<Seq<char>> {
        views(self.0@)
    }
}

impl core::ops::Deref for Parts {
    type Target = Vec<String>;

    fn deref(&self) -> &Vec<String> {
        &self.0
    }
}

impl<'a> From<&'a str> for Parts {
    fn from(input: &'a str) -> Parts {
        Parts::from_ident(input)
    }
}

impl<'a> vstd::std_specs::convert::FromSpecImpl<&'a str> for Parts {
    open spec fn obeys_from_spec() -> bool {
        false
    }

    closed spec fn from_spec(v: &'a str) -> Parts {
        arbitrary()
    }
}

fn has_delimiter(v: &Vec<char>) -> (r: bool)
    ensures
        r == has_delim(v@),
{
    let mut i: usize = 0;
    while i < v.len()
        invariant
            i <= v@.len(),
            forall|j: int| 0 <= j < i ==> !is_delim(#[trigger] v@[j]),
        decreases v@.len() - i,
    {
        if v[i] == '_' || v[i] == '-' {
            return true;
        }
        i = i + 1;
    }
    false
}

fn all_uppercase(v: &Vec<char>) -> (r: bool)
    ensures
        r == all_upper(v@),
{
    let mut i: usize = 0;
    while i < v.len()
        invariant
            i <= v@.len(),
            forall|j: int| 0 <= j < i ==> is_upper(#[trigger] v@[j]),
        decreases v@.len() - i,
    {
        if !('A' <= v[i] && v[i] <= 'Z') {
            return false;
        }
        i = i + 1;
    }
    true
}

fn lower_chars(v: &Vec<char>) -> (r: Vec<char>)
    ensures
        r@ == lower_all(v@),
{
    let mut out: Vec<char> = Vec::new();
    let mut i: usize = 0;
    while i < v.len()
        invariant
            i <= v@.len(),
            out@ == lower_all(v@.take(i as int)),
        decreases v@.len() - i,
    {
        out.push(ascii_lower(v[i]));
        assert(lower_all(v@.take(i + 1)) == lower_all(v@.take(i as int)).push(to_lower(v@[i as int])));
        i = i + 1;
    }
    assert(v@.take(v@.len() as int) == v@);
    out
}

/// Appends a non-empty buffer to the fragments and empties it.
fn flush_buffer(parts: &mut Vec<String>, buf: &mut String)
    ensures
        views(final(parts)@) == flush(views(old(parts)@), old(buf)@),
        final(buf)@ == Seq::<char>::empty(),
{
    if buf.as_str().unicode_len() > 0 {
        let b = buf.clone();
        parts.push(b);
        assert(views(parts@) == views(old(parts)@).push(b@));
    }
    *buf = String::new();
}

impl Parts {
    /// Splits an identifier into its word fragments.
    pub fn from_ident(input: &str) -> (r: Parts)
        ensures
            r@ == tokenize(input@),
    {
        let raw = chars_of(input);
        let t = if has_delimiter(&raw) {
            lower_chars(&raw)
        } else {
            raw
        };
        if all_uppercase(&t) {
            let lowered = lower_chars(&t);
            let word = string_of(&lowered, 0, lowered.len());
            let mut parts: Vec<String> = Vec::new();
            parts.push(word);
            assert(lowered@.subrange(0, lowered@.len() as int) == lowered@);
            assert(views(parts@) == seq![word@]);
            return Parts(parts);
        }
        let mut parts: Vec<String> = Vec::new();
        let mut buf = String::new();
        let mut i: usize = 0;
        while i < t.len()
            invariant
                i <= t@.len(),
                (views(parts@), buf@) == scan(t@.take(i as int)),
            decreases t@.len() - i,
        {
            let c = t[i];
            assert(t@.take(i + 1).drop_last() == t@.take(i as int));
            if c == '_' || c == '-' {
                flush_buffer(&mut parts, &mut buf);
            } else if 'A' <= c && c <= 'Z' {
                flush_buffer(&mut parts, &mut buf);
                push_char(&mut buf, ascii_lower(c));
            } else {
                push_char(&mut buf, c);
            }
            i = i + 1;
        }
        assert(t@.take(t@.len() as int) == t@);
        flush_buffer(&mut parts, &mut buf);
        Parts(parts)
    }

    /// Every fragment with its first character in uppercase, joined without a separator.
    pub fn to_pascalcase(&self) -> (r: String)
        ensures
            r@ == pascal_case(self@),
    {
        let mut out = String::new();
        let mut i: usize = 0;
        while i < self.0.len()
            invariant
                i <= self@.len(),
                out@ == concat(self@.take(i as int).map_values(|f: Seq<char>| cap_first(f))),
            decreases self@.len() - i,
        {
            let ghost before = out@;
            append_capitalized(&mut out, self.0[i].as_str());
            proof {
                let m = self@.take(i + 1).map_values(|f: Seq<char>| cap_first(f));
                assert(m.drop_last() == self@.take(i as int).map_values(
                    |f: Seq<char>| cap_first(f),
                ));
            }
            i = i + 1;
        }
        assert(self@.take(self@.len() as int) == self@);
        out
    }

    /// Like [`Parts::to_pascalcase`], but the first fragment is left as it is.
    pub fn to_camelcase(&self) -> (r: String)
        ensures
            r@ == camel_case(self@),
    {
        let mut out = String::new();
        let mut i: usize = 0;
        while i < self.0.len()
            invariant
                i <= self@.len(),
                out@ == camel_case(self@.take(i as int)),
            decreases self@.len() - i,
        {
            if i == 0 {
                out.append(self.0[i].as_str());
            } else {
                append_capitalized(&mut out, self.0[i].as_str());
            }
            proof {
                let f = |j: int, f: Seq<char>|
                    if j == 0 {
                        f
                    } else {
                        cap_first(f)
                    };
                assert(self@.take(i + 1).map(f).drop_last() == self@.take(i as int).map(f));
            }
            i = i + 1;
        }
        assert(self@.take(self@.len() as int) == self@);
        out
    }

    /// The fragments joined with `_`.
    pub fn to_snakecase(&self) -> (r: String)
        ensures
            r@ == join(self@, seq!['_']),
    {
        let r = join_strings(&self.0, "_");
        proof {
            reveal_strlit("_");
            assert("_"@ =~= seq!['_']);
        }
        r
    }

    /// The fragments joined with `-`.
    pub fn to_kebabcase(&self) -> (r: String)
        ensures
            r@ == join(self@, seq!['-']),
    {
        let r = join_strings(&self.0, "-");
        proof {
            reveal_strlit("-");
            assert("-"@ =~= seq!['-']);
        }
        r
    }

    /// The fragments in uppercase, joined with `_`.
    pub fn to_screaming_snakecase(&self) -> (r: String)
        ensures
            r@ == screaming(self@, seq!['_']),
    {
        let upper = self.uppercased();
        let r = join_strings(&upper, "_");
        proof {
            reveal_strlit("_");
            assert("_"@ =~= seq!['_']);
        }
        r
    }

    /// The fragments in uppercase, joined with `-`.
    pub fn to_screaming_kebabcase(&self) -> (r: String)
        ensures
            r@ == screaming(self@, seq!['-']),
    {
        let upper = self.uppercased();
        let r = join_strings(&upper, "-");
        proof {
            reveal_strlit("-");
            assert("-"@ =~= seq!['-']);
        }
        r
    }

    fn uppercased(&self) -> (r: Vec<String>)
        ensures
            views(r@) == self@.map_values(|f: Seq<char>| upper_of(f)),
    {
        let mut out: Vec<String> = Vec::new();
        let mut i: usize = 0;
        while i < self.0.len()
            invariant
                i <= self@.len(),
                views(out@) == self@.take(i as int).map_values(|f: Seq<char>| upper_of(f)),
            decreases self@.len() - i,
        {
            let u = uppercase(self.0[i].as_str());
            let ghost prev = out@;
            out.push(u);
            assert(self@[i as int] == self.0@[i as int]@);
            assert(views(out@) =~= views(prev).push(u@));
            assert(self@.take(i + 1).map_values(|f: Seq<char>| upper_of(f)) =~= self@.take(
                i as int,
            ).map_values(|f: Seq<char>| upper_of(f)).push(upper_of(self@[i as int])));
            i = i + 1;
        }
        assert(self@.take(self@.len() as int) == self@);
        out
    }
}

/// Appends `f` with its first character in ASCII uppercase.
fn append_capitalized(out: &mut String, f: &str)
    ensures
        final(out)@ == old(out)@ + cap_first(f@),
{
    let v = chars_of(f);
    if v.len() > 0 {
        push_char(out, ascii_upper(v[0]));
        let rest = string_of(&v, 1, v.len());
        out.append(rest.as_str());
        assert(cap_first(f@) == seq![to_upper(f@[0])] + f@.drop_first());
        assert(f@.drop_first() == v@.subrange(1, v@.len() as int));
    }
}

} // verus!
