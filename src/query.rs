//! The query multimap: each key with the list of its values, read from and
//! written to the `key=value&key=value` form of a URL query.
//!
//! Keys are compared exactly. On the wire a key with several values is
//! written once per value (`x=1&x=2`), which reads back to the same map as
//! long as keys hold neither `&` nor `=` and values hold no `&`.
use vstd::prelude::*;

use crate::headers::strings_view;
use crate::text::{
    append_str, chars_of, find_char, find_from, is_space, lemma_find_first, lemma_find_from_some,
    lemma_split_append, lemma_split_sep, lemma_trim_empty, push_char, split, split_of, string_of,
    trim, trimmed_of,
};

verus! {

/// One key and its values, in order.
pub type QueryEntry = (Seq<char>, Seq<Seq<char>>);

/// The first entry at or after `k` whose key is `key`.
pub open spec fn find_key(e: Seq<QueryEntry>, key: Seq<char>, k: int) -> Option<int>
    decreases e.len() - k,
{
    if k < 0 || k >= e.len() {
        None
    } else if e[k].0 == key {
        Some(k)
    } else {
        find_key(e, key, k + 1)
    }
}

/// Keys are unique and every key has at least one value.
pub open spec fn query_wf(e: Seq<QueryEntry>) -> bool {
    &&& forall|i: int| 0 <= i < e.len() ==> (#[trigger] e[i]).1.len() > 0
    &&& forall|i: int, j: int| 0 <= i < j < e.len() ==> #[trigger] e[i].0 != #[trigger] e[j].0
}

/// `value` added under `key`: after the key's values if it is there, else as a new last key.
pub open spec fn add_pair(e: Seq<QueryEntry>, key: Seq<char>, value: Seq<char>) -> Seq<QueryEntry> {
    match find_key(e, key, 0) {
        Some(i) => e.update(i, (e[i].0, e[i].1.push(value))),
        None => e.push((key, seq![value])),
    }
}

/// A `key=value` piece cut at its first `=`; `None` when it has none.
pub open spec fn pair_of(piece: Seq<char>) -> Option<(Seq<char>, Seq<char>)> {
    match find_from(piece, '=', 0) {
        Some(i) => Some((piece.subrange(0, i), piece.subrange(i + 1, piece.len() as int))),
        None => None,
    }
}

/// The pieces read one after another into `e`; `None` when one of them has no `=`.
pub open spec fn parse_pairs(e: Seq<QueryEntry>, pieces: Seq<Seq<char>>) -> Option<Seq<QueryEntry>>
    decreases pieces.len(),
{
    if pieces.len() == 0 {
        Some(e)
    } else {
        match parse_pairs(e, pieces.drop_last()) {
            Some(e2) => match pair_of(pieces.last()) {
                Some(kv) => Some(add_pair(e2, kv.0, kv.1)),
                None => None,
            },
            None => None,
        }
    }
}

/// The map that a query string reads as: empty when the string is blank, else its
/// `&`-separated pieces read in order; `None` when a piece has no `=`.
pub open spec fn parse_query(s: Seq<char>) -> Option<Seq<QueryEntry>> {
    if trim(s).len() == 0 {
        Some(Seq::empty())
    } else {
        parse_pairs(Seq::empty(), split(s, '&'))
    }
}

/// `key=v1&key=v2...`: one pair for each value.
pub open spec fn format_param(key: Seq<char>, vs: Seq<Seq<char>>) -> Seq<char>
    decreases vs.len(),
{
    if vs.len() == 0 {
        Seq::empty()
    } else if vs.len() == 1 {
        key + seq!['='] + vs[0]
    } else {
        format_param(key, vs.drop_last()) + seq!['&'] + key + seq!['='] + vs.last()
    }
}

/// Each key's pairs, the keys in order, joined with `&`.
pub open spec fn serialize_query(e: Seq<QueryEntry>) -> Seq<char>
    decreases e.len(),
{
    if e.len() == 0 {
        Seq::empty()
    } else if e.len() == 1 {
        format_param(e[0].0, e[0].1)
    } else {
        serialize_query(e.drop_last()) + seq!['&'] + format_param(e.last().0, e.last().1)
    }
}

/// A piece of the query without `=`.
#[derive(Debug, PartialEq, Eq, Structural, Clone, Copy)]
pub enum QueryError {
    MissingEquals,
}

/// Query keys with their values, in order of first appearance.
#[derive(Debug)]
pub struct Query {
    entries: Vec<(String, Vec<String>)>,
}

impl View for Query {
    type V = Seq<QueryEntry>;

    closed spec fn view(&self) -> Seq<QueryEntry> {
        self.entries@.map_values(|en: (String, Vec<String>)| (en.0@, strings_view(en.1@)))
    }
}

proof fn lemma_find_key_none(e: Seq<QueryEntry>, key: Seq<char>, k: int)
    requires
        0 <= k <= e.len(),
        find_key(e, key, k) is None,
    ensures
        forall|j: int| k <= j < e.len() ==> #[trigger] e[j].0 != key,
    decreases e.len() - k,
{
    if k < e.len() {
        lemma_find_key_none(e, key, k + 1);
    }
}

proof fn lemma_find_key_some(e: Seq<QueryEntry>, key: Seq<char>, k: int)
    requires
        0 <= k <= e.len(),
        find_key(e, key, k) is Some,
    ensures
        k <= find_key(e, key, k)->0 < e.len(),
        e[find_key(e, key, k)->0].0 == key,
    decreases e.len() - k,
{
    if k < e.len() && e[k].0 != key {
        lemma_find_key_some(e, key, k + 1);
    }
}

proof fn lemma_add_pair_wf(e: Seq<QueryEntry>, key: Seq<char>, value: Seq<char>)
    requires
        query_wf(e),
    ensures
        query_wf(add_pair(e, key, value)),
{
    let r = add_pair(e, key, value);
    match find_key(e, key, 0) {
        Some(i) => {
            lemma_find_key_some(e, key, 0);
            assert forall|a: int, b: int| 0 <= a < b < r.len() implies #[trigger] r[a].0
                != #[trigger] r[b].0 by {
                assert(r[a].0 == e[a].0 && r[b].0 == e[b].0);
            }
            assert forall|a: int| 0 <= a < r.len() implies (#[trigger] r[a]).1.len() > 0 by {
                if a != i {
                    assert(r[a] == e[a]);
                }
            }
        },
        None => {
            lemma_find_key_none(e, key, 0);
            assert forall|a: int, b: int| 0 <= a < b < r.len() implies #[trigger] r[a].0
                != #[trigger] r[b].0 by {
                assert(r[a] == e[a]);
                if b < e.len() {
                    assert(r[b] == e[b]);
                }
            }
            assert forall|a: int| 0 <= a < r.len() implies (#[trigger] r[a]).1.len() > 0 by {
                if a < e.len() {
                    assert(r[a] == e[a]);
                }
            }
        },
    }
}

proof fn lemma_parse_pairs_stuck(e: Seq<QueryEntry>, ps: Seq<Seq<char>>, i: int)
    requires
        0 <= i <= ps.len(),
        parse_pairs(e, ps.take(i)) is None,
    ensures
        parse_pairs(e, ps) is None,
    decreases ps.len() - i,
{
    if i == ps.len() {
        assert(ps.take(i) =~= ps);
    } else {
        assert(ps.take(i + 1).drop_last() =~= ps.take(i));
        lemma_parse_pairs_stuck(e, ps, i + 1);
    }
}

fn vec_eq(a: &Vec<char>, b: &Vec<char>) -> (r: bool)
    ensures
        r == (a@ == b@),
{
    if a.len() != b.len() {
        return false;
    }
    let mut i: usize = 0;
    while i < a.len()
        invariant
            a@.len() == b@.len(),
            i <= a@.len(),
            forall|k: int| 0 <= k < i ==> a@[k] == b@[k],
        decreases a@.len() - i,
    {
        if a[i] != b[i] {
            return false;
        }
        i = i + 1;
    }
    assert(a@ =~= b@);
    true
}

/// Appends `key=v1&key=v2...`.
fn append_param(out: &mut String, key: &str, vs: &Vec<String>)
    ensures
        final(out)@ == old(out)@ + format_param(key@, strings_view(vs@)),
{
    let ghost start = out@;
    let ghost sv = strings_view(vs@);
    let mut i: usize = 0;
    assert(sv.take(0) =~= Seq::<Seq<char>>::empty());
    while i < vs.len()
        invariant
            i <= vs@.len(),
            sv == strings_view(vs@),
            out@ == start + format_param(key@, sv.take(i as int)),
        decreases vs@.len() - i,
    {
        let ghost before = out@;
        assert(sv.take(i + 1).drop_last() =~= sv.take(i as int));
        assert(sv.take(i + 1).last() == vs@[i as int]@);
        if i > 0 {
            push_char(out, '&');
        }
        append_str(out, key);
        push_char(out, '=');
        append_str(out, vs[i].as_str());
        if i > 0 {
            assert(out@ =~= before + seq!['&'] + key@ + seq!['='] + vs@[i as int]@);
        } else {
            assert(sv.take(1) =~= seq![vs@[0]@]);
            assert(out@ =~= before + key@ + seq!['='] + vs@[0]@);
        }
        i = i + 1;
    }
    assert(sv.take(vs@.len() as int) =~= sv);
}

/// `key=v1&key=v2...`: one pair for each of the values, joined with `&`.
pub fn format_query_param(k: &str, v: &Vec<String>) -> (r: String)
    ensures
        r@ == format_param(k@, strings_view(v@)),
{
    let mut out = String::new();
    append_param(&mut out, k, v);
    out
}

impl Query {
    /// Keys are unique and every key has a value.
    pub open spec fn wf(&self) -> bool {
        query_wf(self@)
    }

    /// No keys.
    pub fn new() -> (r: Query)
        ensures
            r@ == Seq::<QueryEntry>::empty(),
            r.wf(),
    {
        let r = Query { entries: Vec::new() };
        assert(r@ =~= Seq::<QueryEntry>::empty());
        r
    }

    fn find(&self, key: &Vec<char>) -> (r: Option<usize>)
        ensures
            match r {
                Some(i) => find_key(self@, key@, 0) == Some(i as int),
                None => find_key(self@, key@, 0) is None,
            },
    {
        let mut i: usize = 0;
        while i < self.entries.len()
            invariant
                i <= self@.len(),
                find_key(self@, key@, 0) == find_key(self@, key@, i as int),
            decreases self@.len() - i,
        {
            let stored = chars_of(self.entries[i].0.as_str());
            if vec_eq(&stored, key) {
                return Some(i);
            }
            i = i + 1;
        }
        None
    }

    fn add(&mut self, key: &Vec<char>, value: String)
        requires
            old(self).wf(),
        ensures
            final(self)@ == add_pair(old(self)@, key@, value@),
            final(self).wf(),
    {
        let ghost e = self@;
        proof {
            lemma_add_pair_wf(e, key@, value@);
        }
        match self.find(key) {
            Some(i) => {
                proof {
                    lemma_find_key_some(e, key@, 0);
                }
                let mut entry: (String, Vec<String>) = (String::new(), Vec::new());
                self.entries.set_and_swap(i, &mut entry);
                let ghost before = entry.1@;
                entry.1.push(value);
                assert(strings_view(entry.1@) =~= strings_view(before).push(value@));
                self.entries.set(i, entry);
                assert(self@ =~= e.update(i as int, (e[i as int].0, e[i as int].1.push(value@))));
            },
            None => {
                let mut values: Vec<String> = Vec::new();
                values.push(value);
                self.entries.push((string_of(key, 0, key.len()), values));
                assert(strings_view(seq![value]) =~= seq![value@]);
                assert(key@.subrange(0, key@.len() as int) =~= key@);
                assert(self@ =~= e.push((key@, seq![value@])));
            },
        }
    }

    /// Reads a query string: a blank string gives no keys; otherwise it is split at each `&`
    /// and each piece at its first `=` into a key and a value, added in order. A piece
    /// without `=` is refused.
    pub fn from_str(query_string: &str) -> (r: Result<Query, QueryError>)
        ensures
            match parse_query(query_string@) {
                Some(e) => r is Ok && r->Ok_0@ == e && r->Ok_0.wf(),
                None => r == Err::<Query, QueryError>(QueryError::MissingEquals),
            },
    {
        let v = chars_of(query_string);
        let n = v.len();
        let mut query = Query::new();
        let t = trimmed_of(&v, 0, n);
        assert(v@.subrange(0, n as int) =~= v@);
        if t.as_str().is_empty() {
            return Ok(query);
        }
        assert(trim(query_string@).len() != 0);
        let pieces = split_of(&v, 0, n, '&');
        let ghost ps = pieces@.map_values(|p: Vec<char>| p@);
        let mut i: usize = 0;
        assert(ps.take(0) =~= Seq::<Seq<char>>::empty());
        while i < pieces.len()
            invariant
                i <= pieces@.len(),
                ps == pieces@.map_values(|p: Vec<char>| p@),
                ps == split(v@, '&'),
                v@ == query_string@,
                trim(query_string@).len() != 0,
                query.wf(),
                parse_pairs(Seq::empty(), ps.take(i as int)) == Some(query@),
            decreases pieces@.len() - i,
        {
            let piece = &pieces[i];
            assert(ps.take(i + 1).drop_last() =~= ps.take(i as int));
            assert(ps.take(i + 1).last() == piece@);
            match find_char(piece, '=', 0) {
                Some(eq) => {
                    proof {
                        lemma_find_from_some(piece@, '=', 0);
                    }
                    let key = string_of(piece, 0, eq);
                    let value = string_of(piece, eq + 1, piece.len());
                    let key_chars = chars_of(key.as_str());
                    query.add(&key_chars, value);
                },
                None => {
                    proof {
                        lemma_parse_pairs_stuck(Seq::empty(), ps, i + 1);
                    }
                    return Err(QueryError::MissingEquals);
                },
            }
            i = i + 1;
        }
        assert(ps.take(pieces@.len() as int) =~= ps);
        Ok(query)
    }

    /// All values of `name`, in order, if the key is there.
    pub fn get(&self, name: &str) -> (r: Option<Vec<String>>)
        requires
            self.wf(),
        ensures
            match find_key(self@, name@, 0) {
                Some(i) => r is Some && strings_view(r->0@) == self@[i].1,
                None => r is None,
            },
    {
        let n = chars_of(name);
        match self.find(&n) {
            Some(i) => {
                proof {
                    lemma_find_key_some(self@, n@, 0);
                }
                let values = &self.entries[i].1;
                let mut r: Vec<String> = Vec::new();
                let mut k: usize = 0;
                while k < values.len()
                    invariant
                        k <= values@.len(),
                        r@ == values@.subrange(0, k as int),
                    decreases values@.len() - k,
                {
                    r.push(values[k].clone());
                    k = k + 1;
                    assert(r@ =~= values@.subrange(0, k as int));
                }
                assert(r@ =~= values@);
                Some(r)
            },
            None => None,
        }
    }

    /// The query string: each key's `key=value` pairs, the keys in order, joined with `&`.
    pub fn serialize(&self) -> (r: String)
        ensures
            r@ == serialize_query(self@),
    {
        let mut out = String::new();
        let mut i: usize = 0;
        assert(self@.subrange(0, 0) =~= Seq::<QueryEntry>::empty());
        while i < self.entries.len()
            invariant
                i <= self@.len(),
                out@ == serialize_query(self@.subrange(0, i as int)),
            decreases self@.len() - i,
        {
            let ghost before = out@;
            let ghost en = self@[i as int];
            assert(en == (self.entries@[i as int].0@, strings_view(self.entries@[i as int].1@)));
            if i > 0 {
                push_char(&mut out, '&');
            }
            append_param(&mut out, self.entries[i].0.as_str(), &self.entries[i].1);
            assert(self@.subrange(0, i + 1).drop_last() =~= self@.subrange(0, i as int));
            if i > 0 {
                assert(out@ =~= before + seq!['&'] + format_param(en.0, en.1));
            } else {
                assert(out@ =~= before + format_param(en.0, en.1));
                assert(self@.subrange(0, 1)[0] == en);
            }
            i = i + 1;
        }
        assert(self@.subrange(0, self@.len() as int) =~= self@);
        out
    }
}

/// Each key with each of its values, in order.
pub open spec fn query_pairs(e: Seq<QueryEntry>) -> Seq<(Seq<char>, Seq<char>)>
    decreases e.len(),
{
    if e.len() == 0 {
        Seq::empty()
    } else {
        query_pairs(e.drop_last()) + pairs_of_key(e.last().0, e.last().1)
    }
}

/// The key with each of the values.
pub open spec fn pairs_of_key(k: Seq<char>, vs: Seq<Seq<char>>) -> Seq<(Seq<char>, Seq<char>)> {
    vs.map_values(|v: Seq<char>| (k, v))
}

/// `key=value`.
pub open spec fn pair_text(kv: (Seq<char>, Seq<char>)) -> Seq<char> {
    kv.0 + seq!['='] + kv.1
}

pub open spec fn pair_texts(ps: Seq<(Seq<char>, Seq<char>)>) -> Seq<Seq<char>> {
    ps.map_values(|kv: (Seq<char>, Seq<char>)| pair_text(kv))
}

/// The pieces joined with `&`.
pub open spec fn join_amp(ps: Seq<Seq<char>>) -> Seq<char>
    decreases ps.len(),
{
    if ps.len() == 0 {
        Seq::empty()
    } else if ps.len() == 1 {
        ps[0]
    } else {
        join_amp(ps.drop_last()) + seq!['&'] + ps.last()
    }
}

/// The pairs added one after another to `e`.
pub open spec fn add_pairs(e: Seq<QueryEntry>, ps: Seq<(Seq<char>, Seq<char>)>) -> Seq<QueryEntry>
    decreases ps.len(),
{
    if ps.len() == 0 {
        e
    } else {
        add_pair(add_pairs(e, ps.drop_last()), ps.last().0, ps.last().1)
    }
}

proof fn lemma_format_param_join(k: Seq<char>, vs: Seq<Seq<char>>)
    ensures
        format_param(k, vs) == join_amp(pair_texts(pairs_of_key(k, vs))),
    decreases vs.len(),
{
    let t = pair_texts(pairs_of_key(k, vs));
    if vs.len() == 1 {
        assert(t[0] == pair_text((k, vs[0])));
    } else if vs.len() > 1 {
        lemma_format_param_join(k, vs.drop_last());
        assert(t.drop_last() =~= pair_texts(pairs_of_key(k, vs.drop_last())));
        assert(t.last() == pair_text((k, vs.last())));
        assert(format_param(k, vs) =~= join_amp(t));
    } else {
        assert(t =~= Seq::<Seq<char>>::empty());
    }
}

proof fn lemma_join_amp_concat(a: Seq<Seq<char>>, b: Seq<Seq<char>>)
    requires
        a.len() >= 1,
        b.len() >= 1,
    ensures
        join_amp(a + b) == join_amp(a) + seq!['&'] + join_amp(b),
    decreases b.len(),
{
    if b.len() == 1 {
        assert((a + b).drop_last() =~= a);
        assert((a + b).last() == b[0]);
    } else {
        lemma_join_amp_concat(a, b.drop_last());
        assert((a + b).drop_last() =~= a + b.drop_last());
        assert((a + b).last() == b.last());
        assert(join_amp(a + b) =~= join_amp(a) + seq!['&'] + join_amp(b));
    }
}

proof fn lemma_serialize_pairs(e: Seq<QueryEntry>)
    requires
        query_wf(e),
    ensures
        serialize_query(e) == join_amp(pair_texts(query_pairs(e))),
        e.len() > 0 ==> query_pairs(e).len() > 0,
    decreases e.len(),
{
    if e.len() > 0 {
        let dl = e.drop_last();
        let last = e.last();
        assert(query_wf(dl)) by {
            assert forall|i: int| 0 <= i < dl.len() implies (#[trigger] dl[i]).1.len() > 0 by {
                assert(dl[i] == e[i]);
            }
            assert forall|i: int, j: int| 0 <= i < j < dl.len() implies #[trigger] dl[i].0
                != #[trigger] dl[j].0 by {
                assert(dl[i] == e[i] && dl[j] == e[j]);
            }
        }
        lemma_serialize_pairs(dl);
        lemma_format_param_join(last.0, last.1);
        assert(last.1.len() > 0) by {
            assert(e[e.len() - 1] == last);
        }
        let lp = pairs_of_key(last.0, last.1);
        assert(pair_texts(query_pairs(dl) + lp) =~= pair_texts(query_pairs(dl)) + pair_texts(lp));
        if e.len() == 1 {
            assert(dl =~= Seq::<QueryEntry>::empty());
            assert(query_pairs(dl) =~= Seq::<(Seq<char>, Seq<char>)>::empty());
            assert(pair_texts(query_pairs(dl)) + pair_texts(lp) =~= pair_texts(lp));
            assert(e[0] == last);
        } else {
            lemma_join_amp_concat(pair_texts(query_pairs(dl)), pair_texts(lp));
        }
    }
}

proof fn lemma_split_join_amp(ps: Seq<Seq<char>>)
    requires
        ps.len() >= 1,
        forall|k: int| 0 <= k < ps.len() ==> !(#[trigger] ps[k]).contains('&'),
    ensures
        split(join_amp(ps), '&') == ps,
    decreases ps.len(),
{
    let empty = Seq::<char>::empty();
    if ps.len() == 1 {
        lemma_split_append(empty, ps[0], '&');
        assert(empty + ps[0] =~= ps[0]);
        assert(split(empty, '&') =~= seq![empty]);
        assert(seq![empty].update(0, empty + ps[0]) =~= ps);
    } else {
        let dl = ps.drop_last();
        assert forall|k: int| 0 <= k < dl.len() implies !(#[trigger] dl[k]).contains('&') by {
            assert(dl[k] == ps[k]);
        }
        lemma_split_join_amp(dl);
        let j = join_amp(dl);
        assert(!ps[ps.len() - 1].contains('&'));
        assert(join_amp(ps) =~= j.push('&') + ps.last());
        lemma_split_sep(j, '&');
        lemma_split_append(j.push('&'), ps.last(), '&');
        assert(empty + ps.last() =~= ps.last());
        assert(dl.push(empty).update(dl.len() as int, empty + ps.last()) =~= ps);
    }
}

proof fn lemma_parse_pair_texts(e0: Seq<QueryEntry>, ps: Seq<(Seq<char>, Seq<char>)>)
    requires
        forall|i: int| 0 <= i < ps.len() ==> !(#[trigger] ps[i]).0.contains('='),
    ensures
        parse_pairs(e0, pair_texts(ps)) == Some(add_pairs(e0, ps)),
    decreases ps.len(),
{
    let t = pair_texts(ps);
    if ps.len() == 0 {
        assert(t =~= Seq::<Seq<char>>::empty());
    } else {
        let dl = ps.drop_last();
        assert forall|i: int| 0 <= i < dl.len() implies !(#[trigger] dl[i]).0.contains('=') by {
            assert(dl[i] == ps[i]);
        }
        lemma_parse_pair_texts(e0, dl);
        assert(t.drop_last() =~= pair_texts(dl));
        let kv = ps.last();
        assert(!ps[ps.len() - 1].0.contains('='));
        let text = pair_text(kv);
        assert(t.last() == text);
        let n = kv.0.len() as int;
        assert(text[n] == '=');
        assert forall|j: int| 0 <= j < n implies text[j] != '=' by {
            assert(text[j] == kv.0[j]);
        }
        lemma_find_first(text, '=', 0, n);
        assert(text.subrange(0, n) =~= kv.0);
        assert(text.subrange(n + 1, text.len() as int) =~= kv.1);
    }
}

proof fn lemma_add_pairs_concat(
    e0: Seq<QueryEntry>,
    a: Seq<(Seq<char>, Seq<char>)>,
    b: Seq<(Seq<char>, Seq<char>)>,
)
    ensures
        add_pairs(e0, a + b) == add_pairs(add_pairs(e0, a), b),
    decreases b.len(),
{
    if b.len() == 0 {
        assert(a + b =~= a);
    } else {
        lemma_add_pairs_concat(e0, a, b.drop_last());
        assert((a + b).drop_last() =~= a + b.drop_last());
        assert((a + b).last() == b.last());
    }
}

proof fn lemma_add_pairs_new(e: Seq<QueryEntry>, k: Seq<char>, vs: Seq<Seq<char>>)
    requires
        vs.len() >= 1,
        forall|j: int| 0 <= j < e.len() ==> #[trigger] e[j].0 != k,
    ensures
        add_pairs(e, pairs_of_key(k, vs)) == e.push((k, vs)),
    decreases vs.len(),
{
    let ps = pairs_of_key(k, vs);
    if vs.len() == 1 {
        assert(ps.drop_last() =~= Seq::<(Seq<char>, Seq<char>)>::empty());
        assert(add_pairs(e, ps.drop_last()) == e);
        assert(ps.last() == (k, vs[0]));
        lemma_find_key_absent(e, k, 0);
        assert(seq![vs[0]] =~= vs);
    } else {
        let dl = vs.drop_last();
        lemma_add_pairs_new(e, k, dl);
        assert(ps.drop_last() =~= pairs_of_key(k, dl));
        assert(ps.last() == (k, vs.last()));
        let e2 = e.push((k, dl));
        lemma_find_key_at(e2, k, 0, e.len() as int);
        assert(dl.push(vs.last()) =~= vs);
        assert(e2.update(e.len() as int, (k, dl.push(vs.last()))) =~= e.push((k, vs)));
    }
}

proof fn lemma_find_key_absent(e: Seq<QueryEntry>, key: Seq<char>, k: int)
    requires
        0 <= k,
        forall|j: int| k <= j < e.len() ==> #[trigger] e[j].0 != key,
    ensures
        find_key(e, key, k) is None,
    decreases e.len() - k,
{
    if k < e.len() {
        lemma_find_key_absent(e, key, k + 1);
    }
}

proof fn lemma_find_key_at(e: Seq<QueryEntry>, key: Seq<char>, k0: int, k: int)
    requires
        0 <= k0 <= k < e.len(),
        e[k].0 == key,
        forall|j: int| k0 <= j < k ==> #[trigger] e[j].0 != key,
    ensures
        find_key(e, key, k0) == Some(k),
    decreases k - k0,
{
    if k0 < k {
        lemma_find_key_at(e, key, k0 + 1, k);
    }
}

proof fn lemma_add_query_pairs(e: Seq<QueryEntry>)
    requires
        query_wf(e),
    ensures
        add_pairs(Seq::empty(), query_pairs(e)) == e,
    decreases e.len(),
{
    if e.len() == 0 {
        assert(e =~= Seq::<QueryEntry>::empty());
    } else {
        let dl = e.drop_last();
        let last = e.last();
        assert(query_wf(dl)) by {
            assert forall|i: int| 0 <= i < dl.len() implies (#[trigger] dl[i]).1.len() > 0 by {
                assert(dl[i] == e[i]);
            }
            assert forall|i: int, j: int| 0 <= i < j < dl.len() implies #[trigger] dl[i].0
                != #[trigger] dl[j].0 by {
                assert(dl[i] == e[i] && dl[j] == e[j]);
            }
        }
        lemma_add_query_pairs(dl);
        lemma_add_pairs_concat(Seq::empty(), query_pairs(dl), pairs_of_key(last.0, last.1));
        assert forall|j: int| 0 <= j < dl.len() implies #[trigger] dl[j].0 != last.0 by {
            assert(dl[j] == e[j]);
            assert(e[e.len() - 1] == last);
        }
        assert(e[e.len() - 1] == last);
        lemma_add_pairs_new(dl, last.0, last.1);
        assert(dl.push(last) =~= e);
    }
}

proof fn lemma_join_amp_first(ps: Seq<Seq<char>>)
    requires
        ps.len() >= 1,
    ensures
        join_amp(ps).len() >= ps[0].len(),
        forall|i: int| 0 <= i < ps[0].len() ==> join_amp(ps)[i] == ps[0][i],
    decreases ps.len(),
{
    if ps.len() > 1 {
        lemma_join_amp_first(ps.drop_last());
        assert(ps.drop_last()[0] == ps[0]);
    }
}

/// A query written out by `serialize` reads back as the same map, as long as no key holds
/// `&` or `=` and no value holds `&`.
pub proof fn lemma_query_round_trip(e: Seq<QueryEntry>)
    requires
        query_wf(e),
        forall|i: int|
            0 <= i < e.len() ==> !(#[trigger] e[i]).0.contains('&') && !e[i].0.contains('='),
        forall|i: int, j: int|
            0 <= i < e.len() && 0 <= j < e[i].1.len() ==> !(#[trigger] e[i].1[j]).contains('&'),
    ensures
        parse_query(serialize_query(e)) == Some(e),
{
    lemma_serialize_pairs(e);
    if e.len() == 0 {
        assert(serialize_query(e) =~= Seq::<char>::empty());
    } else {
        let ps = query_pairs(e);
        let texts = pair_texts(ps);
        lemma_query_pairs_clean(e);
        assert forall|k: int| 0 <= k < texts.len() implies !(#[trigger] texts[k]).contains('&') by {
            let kv = ps[k];
            assert(!kv.0.contains('&') && !kv.1.contains('&'));
            if texts[k].contains('&') {
                let m = choose|m: int| 0 <= m < texts[k].len() && texts[k][m] == '&';
                if m < kv.0.len() {
                    assert(kv.0[m] == '&');
                } else if m > kv.0.len() {
                    assert(kv.1[m - kv.0.len() - 1] == '&');
                }
            }
        }
        lemma_split_join_amp(texts);
        lemma_parse_pair_texts(Seq::empty(), ps);
        lemma_add_query_pairs(e);
        let text = join_amp(texts);
        lemma_join_amp_first(texts);
        let first = ps[0];
        assert(texts[0][first.0.len() as int] == '=');
        assert(text[first.0.len() as int] == '=');
        if trim(text).len() == 0 {
            lemma_trim_empty(text);
            assert(is_space(text[first.0.len() as int]));
        }
    }
}

proof fn lemma_query_pairs_clean(e: Seq<QueryEntry>)
    requires
        forall|i: int|
            0 <= i < e.len() ==> !(#[trigger] e[i]).0.contains('&') && !e[i].0.contains('='),
        forall|i: int, j: int|
            0 <= i < e.len() && 0 <= j < e[i].1.len() ==> !(#[trigger] e[i].1[j]).contains('&'),
    ensures
        forall|k: int|
            0 <= k < query_pairs(e).len() ==> !(#[trigger] query_pairs(e)[k]).0.contains('&')
                && !query_pairs(e)[k].0.contains('=') && !query_pairs(e)[k].1.contains('&'),
    decreases e.len(),
{
    if e.len() > 0 {
        let dl = e.drop_last();
        assert forall|i: int| 0 <= i < dl.len() implies !(#[trigger] dl[i]).0.contains('&')
            && !dl[i].0.contains('=') by {
            assert(dl[i] == e[i]);
        }
        assert forall|i: int, j: int| 0 <= i < dl.len() && 0 <= j < dl[i].1.len() implies !(
        #[trigger] dl[i].1[j]).contains('&') by {
            assert(dl[i] == e[i]);
        }
        lemma_query_pairs_clean(dl);
        let last = e.last();
        assert(e[e.len() - 1] == last);
        let a = query_pairs(dl);
        let b = pairs_of_key(last.0, last.1);
        assert forall|k: int| 0 <= k < query_pairs(e).len() implies !(
        #[trigger] query_pairs(e)[k]).0.contains('&') && !query_pairs(e)[k].0.contains('=')
            && !query_pairs(e)[k].1.contains('&') by {
            if k < a.len() {
                assert(query_pairs(e)[k] == a[k]);
            } else {
                assert(query_pairs(e)[k] == b[k - a.len()]);
                assert(b[k - a.len()] == (last.0, last.1[k - a.len()]));
                assert(!e[e.len() - 1].1[k - a.len()].contains('&'));
            }
        }
    }
}

} // verus!
