//! The header multimap: field names, each with the list of its values, in
//! the order in which the names first appeared.
//!
//! Field names are matched without regard to ASCII case, as HTTP asks; a
//! name keeps the spelling with which it was first inserted.
use vstd::prelude::*;

use crate::text::{
    append_str, chars_of, is_trimmed, lemma_split_append, lemma_split_len, lemma_split_sep,
    lemma_trim_is_trimmed, lemma_trim_space_prefix, lemma_trim_trimmed, push_char, split, split_of,
    string_of, trim, trim_end, trim_start, trimmed_of,
};

verus! {

/// One field: its name and its values, in order.
pub type HeaderEntry = (Seq<char>, Seq<Seq<char>>);

pub open spec fn is_upper(c: char) -> bool {
    'A' <= c && c <= 'Z'
}

/// The two characters are equal once ASCII letters are folded to one case.
pub open spec fn same_letter(a: char, b: char) -> bool {
    a == b || (is_upper(a) && b as u32 == a as u32 + 32) || (is_upper(b) && a as u32 == b as u32
        + 32)
}

/// Two field names are the same name.
pub open spec fn names_match(a: Seq<char>, b: Seq<char>) -> bool {
    a.len() == b.len() && forall|i: int| 0 <= i < a.len() ==> same_letter(#[trigger] a[i], b[i])
}

/// The first entry at or after `k` whose name matches `name`.
pub open spec fn find_name(e: Seq<HeaderEntry>, name: Seq<char>, k: int) -> Option<int>
    decreases e.len() - k,
{
    if k < 0 || k >= e.len() {
        None
    } else if names_match(e[k].0, name) {
        Some(k)
    } else {
        find_name(e, name, k + 1)
    }
}

/// Names are unique and every name has at least one value.
pub open spec fn entries_wf(e: Seq<HeaderEntry>) -> bool {
    &&& forall|i: int| 0 <= i < e.len() ==> (#[trigger] e[i]).1.len() > 0
    &&& forall|i: int, j: int|
        0 <= i < j < e.len() ==> !names_match(#[trigger] e[i].0, #[trigger] e[j].0)
}

/// `value` added under `name`: after the name's values if it is there, else as a new last field.
pub open spec fn add_value(e: Seq<HeaderEntry>, name: Seq<char>, value: Seq<char>) -> Seq<
    HeaderEntry,
> {
    match find_name(e, name, 0) {
        Some(i) => e.update(i, (e[i].0, e[i].1.push(value))),
        None => e.push((name, seq![value])),
    }
}

/// Each of `vs`, in order, added under `name`.
pub open spec fn add_values(e: Seq<HeaderEntry>, name: Seq<char>, vs: Seq<Seq<char>>) -> Seq<
    HeaderEntry,
>
    decreases vs.len(),
{
    if vs.len() == 0 {
        e
    } else {
        add_value(add_values(e, name, vs.drop_last()), name, vs.last())
    }
}

/// The first value of `name`, if the name is there.
pub open spec fn first_value(e: Seq<HeaderEntry>, name: Seq<char>) -> Option<Seq<char>> {
    match find_name(e, name, 0) {
        Some(i) => Some(e[i].1[0]),
        None => None,
    }
}

/// A `": "` separator starts at `k`.
pub open spec fn is_sep_at(s: Seq<char>, k: int) -> bool {
    0 <= k && k + 1 < s.len() && s[k] == ':' && s[k + 1] == ' '
}

/// The first `": "` separator at or after `k`.
pub open spec fn sep_from(s: Seq<char>, k: int) -> Option<int>
    decreases s.len() - k,
{
    if k < 0 || k + 1 >= s.len() {
        None
    } else if is_sep_at(s, k) {
        Some(k)
    } else {
        sep_from(s, k + 1)
    }
}

/// The values of a header line's value side: split at each comma, each trimmed.
pub open spec fn line_values(s: Seq<char>) -> Seq<Seq<char>> {
    split(s, ',').map_values(|v: Seq<char>| trim(v))
}

/// A header line `Name: v1, v2` added to `e`; `None` when the line has no `": "`.
pub open spec fn parse_line(e: Seq<HeaderEntry>, line: Seq<char>) -> Option<Seq<HeaderEntry>> {
    match sep_from(line, 0) {
        Some(k) => Some(
            add_values(
                e,
                trim(line.subrange(0, k)),
                line_values(line.subrange(k + 2, line.len() as int)),
            ),
        ),
        None => None,
    }
}

/// The lines parsed one after another into `e`; `None` when one of them is malformed.
pub open spec fn parse_lines(e: Seq<HeaderEntry>, lines: Seq<Seq<char>>) -> Option<Seq<HeaderEntry>>
    decreases lines.len(),
{
    if lines.len() == 0 {
        Some(e)
    } else {
        match parse_lines(e, lines.drop_last()) {
            Some(e2) => parse_line(e2, lines.last()),
            None => None,
        }
    }
}

/// The values joined with `", "`.
pub open spec fn join_values(vs: Seq<Seq<char>>) -> Seq<char>
    decreases vs.len(),
{
    if vs.len() == 0 {
        Seq::empty()
    } else if vs.len() == 1 {
        vs[0]
    } else {
        join_values(vs.drop_last()) + seq![',', ' '] + vs.last()
    }
}

/// The wire line of one field, without its line end: `Name: v1, v2`.
pub open spec fn entry_line(en: HeaderEntry) -> Seq<char> {
    en.0 + seq![':', ' '] + join_values(en.1)
}

/// The header block on the wire: each field's line followed by CRLF.
pub open spec fn serialize_entries(e: Seq<HeaderEntry>) -> Seq<char>
    decreases e.len(),
{
    if e.len() == 0 {
        Seq::empty()
    } else {
        serialize_entries(e.drop_last()) + entry_line(e.last()) + seq!['\r', '\n']
    }
}

/// A header line without a `": "` separator.
#[derive(Debug, PartialEq, Eq, Structural, Clone, Copy)]
pub enum HeaderError {
    MissingSeparator,
}

/// Field names with their values, in order of first appearance.
#[derive(Debug)]
pub struct Headers {
    entries: Vec<(String, Vec<String>)>,
}

pub open spec fn strings_view(v: Seq<String>) -> Seq<Seq<char>> {
    v.map_values(|s: String| s@)
}

impl View for Headers {
    type V = Seq<HeaderEntry>;

    closed spec fn view(&self) -> Seq<HeaderEntry> {
        self.entries@.map_values(|en: (String, Vec<String>)| (en.0@, strings_view(en.1@)))
    }
}

proof fn lemma_sep_from_some(s: Seq<char>, k: int)
    requires
        0 <= k,
        sep_from(s, k) is Some,
    ensures
        k <= sep_from(s, k)->0,
        is_sep_at(s, sep_from(s, k)->0),
        forall|j: int| k <= j < sep_from(s, k)->0 ==> !is_sep_at(s, j),
    decreases s.len() - k,
{
    if k + 1 < s.len() && !is_sep_at(s, k) {
        lemma_sep_from_some(s, k + 1);
    }
}

proof fn lemma_find_name_none(e: Seq<HeaderEntry>, name: Seq<char>, k: int)
    requires
        0 <= k <= e.len(),
        find_name(e, name, k) is None,
    ensures
        forall|j: int| k <= j < e.len() ==> !names_match(#[trigger] e[j].0, name),
    decreases e.len() - k,
{
    if k < e.len() {
        lemma_find_name_none(e, name, k + 1);
    }
}

proof fn lemma_find_name_some(e: Seq<HeaderEntry>, name: Seq<char>, k: int)
    requires
        0 <= k <= e.len(),
        find_name(e, name, k) is Some,
    ensures
        k <= find_name(e, name, k)->0 < e.len(),
        names_match(e[find_name(e, name, k)->0].0, name),
        forall|j: int| k <= j < find_name(e, name, k)->0 ==> !names_match(#[trigger] e[j].0, name),
    decreases e.len() - k,
{
    if k < e.len() && !names_match(e[k].0, name) {
        lemma_find_name_some(e, name, k + 1);
    }
}

/// Adding a value keeps the names unique and every value list non-empty.
pub proof fn lemma_add_value_wf(e: Seq<HeaderEntry>, name: Seq<char>, value: Seq<char>)
    requires
        entries_wf(e),
    ensures
        entries_wf(add_value(e, name, value)),
{
    let r = add_value(e, name, value);
    match find_name(e, name, 0) {
        Some(i) => {
            lemma_find_name_some(e, name, 0);
            assert forall|a: int, b: int| 0 <= a < b < r.len() implies !names_match(
                #[trigger] r[a].0,
                #[trigger] r[b].0,
            ) by {
                assert(r[a].0 == e[a].0 && r[b].0 == e[b].0);
            }
            assert forall|a: int| 0 <= a < r.len() implies (#[trigger] r[a]).1.len() > 0 by {
                if a != i {
                    assert(r[a] == e[a]);
                }
            }
        },
        None => {
            lemma_find_name_none(e, name, 0);
            assert forall|a: int, b: int| 0 <= a < b < r.len() implies !names_match(
                #[trigger] r[a].0,
                #[trigger] r[b].0,
            ) by {
                if b < e.len() {
                    assert(r[a] == e[a] && r[b] == e[b]);
                } else {
                    assert(r[a] == e[a]);
                    assert(!names_match(e[a].0, name));
                }
            }
            assert forall|a: int| 0 <= a < r.len() implies (#[trigger] r[a]).1.len() > 0 by {
                if a < e.len() {
                    assert(r[a] == e[a]);
                }
            }
        },
    }
}

fn same_letter_exec(a: char, b: char) -> (r: bool)
    ensures
        r == same_letter(a, b),
{
    let x = a as u32;
    let y = b as u32;
    a == b || ('A' <= a && a <= 'Z' && y == x + 32) || ('A' <= b && b <= 'Z' && x == y + 32)
}

fn names_match_exec(a: &Vec<char>, b: &Vec<char>) -> (r: bool)
    ensures
        r == names_match(a@, b@),
{
    if a.len() != b.len() {
        return false;
    }
    let mut i: usize = 0;
    while i < a.len()
        invariant
            a@.len() == b@.len(),
            i <= a@.len(),
            forall|k: int| 0 <= k < i ==> same_letter(#[trigger] a@[k], b@[k]),
        decreases a@.len() - i,
    {
        if !same_letter_exec(a[i], b[i]) {
            return false;
        }
        i = i + 1;
    }
    true
}

/// The first `": "` in `v`.
fn find_sep(v: &Vec<char>) -> (r: Option<usize>)
    ensures
        match r {
            Some(k) => sep_from(v@, 0) == Some(k as int),
            None => sep_from(v@, 0) is None,
        },
{
    let mut k: usize = 0;
    while k < v.len() && k + 1 < v.len()
        invariant
            k <= v@.len(),
            sep_from(v@, 0) == sep_from(v@, k as int),
        decreases v@.len() - k,
    {
        if v[k] == ':' && v[k + 1] == ' ' {
            return Some(k);
        }
        k = k + 1;
    }
    None
}

fn clone_strings(v: &Vec<String>) -> (r: Vec<String>)
    ensures
        r@ == v@,
{
    let mut r: Vec<String> = Vec::new();
    let mut i: usize = 0;
    while i < v.len()
        invariant
            i <= v@.len(),
            r@ == v@.subrange(0, i as int),
        decreases v@.len() - i,
    {
        r.push(v[i].clone());
        i = i + 1;
        assert(r@ =~= v@.subrange(0, i as int));
    }
    assert(r@ =~= v@);
    r
}

/// Appends the values joined with `", "`.
fn append_joined(out: &mut String, vs: &Vec<String>)
    ensures
        final(out)@ == old(out)@ + join_values(strings_view(vs@)),
{
    let ghost start = out@;
    let ghost sv = strings_view(vs@);
    let mut i: usize = 0;
    assert(sv.take(0) =~= Seq::<Seq<char>>::empty());
    while i < vs.len()
        invariant
            i <= vs@.len(),
            sv == strings_view(vs@),
            out@ == start + join_values(sv.take(i as int)),
        decreases vs@.len() - i,
    {
        let ghost before = out@;
        assert(sv.take(i + 1).drop_last() =~= sv.take(i as int));
        assert(sv.take(i + 1).last() == vs@[i as int]@);
        if i > 0 {
            push_char(out, ',');
            push_char(out, ' ');
            append_str(out, vs[i].as_str());
            assert(out@ =~= before + seq![',', ' '] + vs@[i as int]@);
        } else {
            append_str(out, vs[i].as_str());
            assert(sv.take(1) =~= seq![vs@[0]@]);
        }
        i = i + 1;
    }
    assert(sv.take(vs@.len() as int) =~= sv);
}

impl Headers {
    /// Names are unique and every name has a value.
    pub open spec fn wf(&self) -> bool {
        entries_wf(self@)
    }

    /// No fields.
    pub fn new() -> (r: Headers)
        ensures
            r@ == Seq::<HeaderEntry>::empty(),
            r.wf(),
    {
        let r = Headers { entries: Vec::new() };
        assert(r@ =~= Seq::<HeaderEntry>::empty());
        r
    }

    /// Where the field named `name` stands.
    fn find(&self, name: &Vec<char>) -> (r: Option<usize>)
        ensures
            match r {
                Some(i) => find_name(self@, name@, 0) == Some(i as int),
                None => find_name(self@, name@, 0) is None,
            },
    {
        let mut i: usize = 0;
        while i < self.entries.len()
            invariant
                i <= self@.len(),
                find_name(self@, name@, 0) == find_name(self@, name@, i as int),
            decreases self@.len() - i,
        {
            let stored = chars_of(self.entries[i].0.as_str());
            if names_match_exec(&stored, name) {
                return Some(i);
            }
            i = i + 1;
        }
        None
    }

    fn add(&mut self, name: &Vec<char>, value: String)
        requires
            old(self).wf(),
        ensures
            final(self)@ == add_value(old(self)@, name@, value@),
            final(self).wf(),
    {
        let ghost e = self@;
        proof {
            lemma_add_value_wf(e, name@, value@);
        }
        match self.find(name) {
            Some(i) => {
                proof {
                    lemma_find_name_some(e, name@, 0);
                }
                let mut entry: (String, Vec<String>) = (String::new(), Vec::new());
                self.entries.set_and_swap(i, &mut entry);
                let ghost before = entry.1@;
                entry.1.push(value);
                assert(strings_view(entry.1@) =~= strings_view(before).push(value@));
                self.entries.set(i, entry);
                assert(self@ =~= e.update(i as int, (e[i as int].0, e[i as int].1.push(value@))));
            },
            None => {
                let mut values: Vec<String> = Vec::new();
                values.push(value);
                self.entries.push((string_of(name, 0, name.len()), values));
                assert(strings_view(seq![value]) =~= seq![value@]);
                assert(name@.subrange(0, name@.len() as int) =~= name@);
                assert(self@ =~= e.push((name@, seq![value@])));
            },
        }
    }

    /// Adds the values of a line `Name: v1, v2, v3` under `Name`: the line is cut at its
    /// first `": "`, the value side is split at each comma, and the name and each value are
    /// trimmed. A line without `": "` is refused and the headers stay as they were.
    pub fn parse(&mut self, line: &str) -> (r: Result<(), HeaderError>)
        requires
            old(self).wf(),
        ensures
            final(self).wf(),
            match parse_line(old(self)@, line@) {
                Some(e) => r is Ok && final(self)@ == e,
                None => r == Err::<(), HeaderError>(HeaderError::MissingSeparator) && final(self)@
                    == old(self)@,
            },
    {
        let v = chars_of(line);
        let k = match find_sep(&v) {
            Some(k) => k,
            None => return Err(HeaderError::MissingSeparator),
        };
        proof {
            lemma_sep_from_some(v@, 0);
            assert(is_sep_at(v@, k as int));
        }
        let name = chars_of(trimmed_of(&v, 0, k).as_str());
        let n = v.len();
        let pieces = split_of(&v, k + 2, n, ',');
        let ghost e = self@;
        let ghost vals = line_values(v@.subrange(k + 2, v@.len() as int));
        let mut i: usize = 0;
        assert(vals.take(0) =~= Seq::<Seq<char>>::empty());
        while i < pieces.len()
            invariant
                k + 2 <= v@.len(),
                i <= pieces@.len(),
                pieces@.map_values(|p: Vec<char>| p@) == split(
                    v@.subrange(k + 2, v@.len() as int),
                    ',',
                ),
                vals == line_values(v@.subrange(k + 2, v@.len() as int)),
                self.wf(),
                self@ == add_values(e, name@, vals.take(i as int)),
            decreases pieces@.len() - i,
        {
            let value = trimmed_of(&pieces[i], 0, pieces[i].len());
            assert(pieces@[i as int]@.subrange(0, pieces@[i as int]@.len() as int)
                =~= pieces@[i as int]@);
            assert(vals.take(i + 1).drop_last() =~= vals.take(i as int));
            self.add(&name, value);
            i = i + 1;
        }
        assert(vals.take(pieces@.len() as int) =~= vals);
        Ok(())
    }

    /// Adds `value` after the values already under `name`, or as a new last field.
    pub fn insert(&mut self, name: &str, value: &str)
        requires
            old(self).wf(),
        ensures
            final(self).wf(),
            final(self)@ == add_value(old(self)@, name@, value@),
    {
        let n = chars_of(name);
        self.add(&n, value.to_owned());
    }

    /// The first value of `name`, if the name is there.
    pub fn get(&self, name: &str) -> (r: Option<String>)
        requires
            self.wf(),
        ensures
            match r {
                Some(s) => first_value(self@, name@) == Some(s@),
                None => first_value(self@, name@) is None,
            },
    {
        let n = chars_of(name);
        match self.find(&n) {
            Some(i) => {
                proof {
                    lemma_find_name_some(self@, n@, 0);
                    assert(self@[i as int].1.len() > 0);
                }
                Some(self.entries[i].1[0].clone())
            },
            None => None,
        }
    }

    /// Whether `name` is there.
    pub fn has(&self, name: &str) -> (r: bool)
        ensures
            r == find_name(self@, name@, 0) is Some,
    {
        let n = chars_of(name);
        self.find(&n).is_some()
    }

    /// Every field with its values, in order.
    pub fn all(&self) -> (r: Vec<(String, Vec<String>)>)
        ensures
            r@.map_values(|en: (String, Vec<String>)| (en.0@, strings_view(en.1@))) == self@,
    {
        let mut r: Vec<(String, Vec<String>)> = Vec::new();
        let mut i: usize = 0;
        while i < self.entries.len()
            invariant
                i <= self@.len(),
                r@.map_values(|en: (String, Vec<String>)| (en.0@, strings_view(en.1@)))
                    == self@.subrange(0, i as int),
            decreases self@.len() - i,
        {
            let ghost old_r = r@;
            let name = self.entries[i].0.clone();
            let values = clone_strings(&self.entries[i].1);
            let ghost added = (name, values);
            r.push((name, values));
            assert(r@ == old_r.push(added));
            assert(r@.map_values(|en: (String, Vec<String>)| (en.0@, strings_view(en.1@)))
                =~= old_r.map_values(|en: (String, Vec<String>)| (en.0@, strings_view(en.1@))).push(
                (added.0@, strings_view(added.1@)),
            ));
            assert(self@[i as int] == (self.entries@[i as int].0@, strings_view(
                self.entries@[i as int].1@,
            )));
            i = i + 1;
            assert(r@.map_values(|en: (String, Vec<String>)| (en.0@, strings_view(en.1@)))
                =~= self@.subrange(0, i as int));
        }
        assert(self@.subrange(0, self@.len() as int) =~= self@);
        r
    }

    /// The header block on the wire: `Name: v1, v2` for each field, each line ended by CRLF.
    pub fn serialize(&self) -> (r: String)
        ensures
            r@ == serialize_entries(self@),
    {
        let mut out = String::new();
        let mut i: usize = 0;
        assert(self@.subrange(0, 0) =~= Seq::<HeaderEntry>::empty());
        while i < self.entries.len()
            invariant
                i <= self@.len(),
                out@ == serialize_entries(self@.subrange(0, i as int)),
            decreases self@.len() - i,
        {
            let ghost before = out@;
            append_str(&mut out, self.entries[i].0.as_str());
            push_char(&mut out, ':');
            push_char(&mut out, ' ');
            append_joined(&mut out, &self.entries[i].1);
            push_char(&mut out, '\r');
            push_char(&mut out, '\n');
            assert(self@.subrange(0, i + 1).drop_last() =~= self@.subrange(0, i as int));
            assert(out@ =~= before + entry_line(self@[i as int]) + seq!['\r', '\n']);
            i = i + 1;
        }
        assert(self@.subrange(0, self@.len() as int) =~= self@);
        out
    }
}

/// A name that can be written as `Name: ...` and read back: trimmed, with no `": "` inside.
pub open spec fn clean_name(n: Seq<char>) -> bool {
    is_trimmed(n) && forall|j: int| !is_sep_at(n, j)
}

/// A value that survives joining with `", "` and splitting at commas: trimmed, with no comma.
pub open spec fn clean_value(v: Seq<char>) -> bool {
    is_trimmed(v) && !v.contains(',')
}

/// Every field of `e` can be written out and read back.
pub open spec fn clean_entries(e: Seq<HeaderEntry>) -> bool {
    forall|i: int|
        0 <= i < e.len() ==> clean_name(#[trigger] e[i].0) && forall|k: int|
            0 <= k < e[i].1.len() ==> clean_value(#[trigger] e[i].1[k])
}

proof fn lemma_no_sep_drop(s: Seq<char>)
    requires
        s.len() > 0,
        forall|j: int| !is_sep_at(s, j),
    ensures
        forall|j: int| !is_sep_at(s.drop_first(), j),
        forall|j: int| !is_sep_at(s.drop_last(), j),
{
    assert forall|j: int| !is_sep_at(s.drop_first(), j) by {
        if is_sep_at(s.drop_first(), j) {
            assert(is_sep_at(s, j + 1));
        }
    }
    assert forall|j: int| !is_sep_at(s.drop_last(), j) by {
        if is_sep_at(s.drop_last(), j) {
            assert(is_sep_at(s, j));
        }
    }
}

proof fn lemma_no_char_drop(s: Seq<char>, c: char)
    requires
        s.len() > 0,
        !s.contains(c),
    ensures
        !s.drop_first().contains(c),
        !s.drop_last().contains(c),
{
    if s.drop_first().contains(c) {
        let k = choose|k: int| 0 <= k < s.drop_first().len() && s.drop_first()[k] == c;
        assert(s[k + 1] == c);
    }
    if s.drop_last().contains(c) {
        let k = choose|k: int| 0 <= k < s.drop_last().len() && s.drop_last()[k] == c;
        assert(s[k] == c);
    }
}

proof fn lemma_trim_start_keeps(s: Seq<char>)
    ensures
        (forall|j: int| !is_sep_at(s, j)) ==> (forall|j: int| !is_sep_at(trim_start(s), j)),
        !s.contains(',') ==> !trim_start(s).contains(','),
    decreases s.len(),
{
    if s.len() > 0 && crate::text::is_space(s[0]) {
        lemma_trim_start_keeps(s.drop_first());
        if forall|j: int| !is_sep_at(s, j) {
            lemma_no_sep_drop(s);
        }
        if !s.contains(',') {
            lemma_no_char_drop(s, ',');
        }
    }
}

proof fn lemma_trim_end_keeps(s: Seq<char>)
    ensures
        (forall|j: int| !is_sep_at(s, j)) ==> (forall|j: int| !is_sep_at(trim_end(s), j)),
        !s.contains(',') ==> !trim_end(s).contains(','),
    decreases s.len(),
{
    if s.len() > 0 && crate::text::is_space(s.last()) {
        lemma_trim_end_keeps(s.drop_last());
        if forall|j: int| !is_sep_at(s, j) {
            lemma_no_sep_drop(s);
        }
        if !s.contains(',') {
            lemma_no_char_drop(s, ',');
        }
    }
}

proof fn lemma_trim_keeps(s: Seq<char>)
    ensures
        (forall|j: int| !is_sep_at(s, j)) ==> (forall|j: int| !is_sep_at(trim(s), j)),
        !s.contains(',') ==> !trim(s).contains(','),
{
    lemma_trim_start_keeps(s);
    lemma_trim_end_keeps(trim_start(s));
}

proof fn lemma_split_pieces(s: Seq<char>, c: char)
    ensures
        forall|i: int| 0 <= i < split(s, c).len() ==> !(#[trigger] split(s, c)[i]).contains(c),
    decreases s.len(),
{
    if s.len() > 0 {
        let p = split(s.drop_last(), c);
        lemma_split_pieces(s.drop_last(), c);
        lemma_split_len(s.drop_last(), c);
        if s.last() != c {
            let q = p.last().push(s.last());
            assert(!q.contains(c)) by {
                if q.contains(c) {
                    let k = choose|k: int| 0 <= k < q.len() && q[k] == c;
                    if k < p.last().len() {
                        assert(p[p.len() - 1][k] == c);
                    }
                }
            }
        }
    }
}

proof fn lemma_add_values_keeps(e: Seq<HeaderEntry>, name: Seq<char>, vs: Seq<Seq<char>>)
    requires
        entries_wf(e),
        clean_entries(e),
        clean_name(name),
        forall|k: int| 0 <= k < vs.len() ==> clean_value(#[trigger] vs[k]),
    ensures
        entries_wf(add_values(e, name, vs)),
        clean_entries(add_values(e, name, vs)),
    decreases vs.len(),
{
    if vs.len() > 0 {
        let e2 = add_values(e, name, vs.drop_last());
        lemma_add_values_keeps(e, name, vs.drop_last());
        lemma_add_value_wf(e2, name, vs.last());
        let r = add_value(e2, name, vs.last());
        assert(clean_value(vs[vs.len() - 1]));
        match find_name(e2, name, 0) {
            Some(i) => {
                lemma_find_name_some(e2, name, 0);
                assert forall|a: int| 0 <= a < r.len() implies clean_name(#[trigger] r[a].0)
                    && forall|k: int| 0 <= k < r[a].1.len() ==> clean_value(#[trigger] r[a].1[k]) by {
                    if a != i {
                        assert(r[a] == e2[a]);
                    } else {
                        assert forall|k: int| 0 <= k < r[a].1.len() implies clean_value(
                            #[trigger] r[a].1[k],
                        ) by {
                            if k < e2[a].1.len() {
                                assert(r[a].1[k] == e2[a].1[k]);
                            }
                        }
                    }
                }
            },
            None => {
                assert forall|a: int| 0 <= a < r.len() implies clean_name(#[trigger] r[a].0)
                    && forall|k: int| 0 <= k < r[a].1.len() ==> clean_value(#[trigger] r[a].1[k]) by {
                    if a < e2.len() {
                        assert(r[a] == e2[a]);
                    }
                }
            },
        }
    }
}

proof fn lemma_parse_line_keeps(e: Seq<HeaderEntry>, line: Seq<char>)
    requires
        entries_wf(e),
        clean_entries(e),
        parse_line(e, line) is Some,
    ensures
        entries_wf(parse_line(e, line)->0),
        clean_entries(parse_line(e, line)->0),
{
    lemma_sep_from_some(line, 0);
    let k = sep_from(line, 0)->0;
    let head = line.subrange(0, k);
    let rest = line.subrange(k + 2, line.len() as int);
    assert forall|j: int| !is_sep_at(head, j) by {
        if is_sep_at(head, j) {
            assert(is_sep_at(line, j));
        }
    }
    lemma_trim_keeps(head);
    lemma_trim_is_trimmed(head);
    let pieces = split(rest, ',');
    lemma_split_pieces(rest, ',');
    assert forall|i: int| 0 <= i < line_values(rest).len() implies clean_value(
        #[trigger] line_values(rest)[i],
    ) by {
        lemma_trim_keeps(pieces[i]);
        lemma_trim_is_trimmed(pieces[i]);
    }
    lemma_add_values_keeps(e, trim(head), line_values(rest));
}

proof fn lemma_parse_lines_keeps(lines: Seq<Seq<char>>)
    requires
        parse_lines(Seq::empty(), lines) is Some,
    ensures
        entries_wf(parse_lines(Seq::empty(), lines)->0),
        clean_entries(parse_lines(Seq::empty(), lines)->0),
    decreases lines.len(),
{
    if lines.len() > 0 {
        lemma_parse_lines_keeps(lines.drop_last());
        lemma_parse_line_keeps(parse_lines(Seq::empty(), lines.drop_last())->0, lines.last());
    }
}

proof fn lemma_sep_first(s: Seq<char>, k0: int, k: int)
    requires
        0 <= k0 <= k,
        is_sep_at(s, k),
        forall|j: int| k0 <= j < k ==> !is_sep_at(s, j),
    ensures
        sep_from(s, k0) == Some(k),
    decreases k - k0,
{
    if k0 < k {
        lemma_sep_first(s, k0 + 1, k);
    }
}

/// The values with a space before each but the first: the pieces of their joined form.
pub open spec fn spaced(vs: Seq<Seq<char>>) -> Seq<Seq<char>> {
    Seq::new(vs.len(), |i: int| if i == 0 { vs[0] } else { seq![' '] + vs[i] })
}

proof fn lemma_split_join(vs: Seq<Seq<char>>)
    requires
        vs.len() >= 1,
        forall|k: int| 0 <= k < vs.len() ==> !(#[trigger] vs[k]).contains(','),
    ensures
        split(join_values(vs), ',') == spaced(vs),
    decreases vs.len(),
{
    let empty = Seq::<char>::empty();
    if vs.len() == 1 {
        lemma_split_append(empty, vs[0], ',');
        assert(empty + vs[0] =~= vs[0]);
        assert(split(empty, ',') =~= seq![empty]);
        assert(seq![empty].update(0, empty + vs[0]) =~= spaced(vs));
    } else {
        let dl = vs.drop_last();
        assert forall|k: int| 0 <= k < dl.len() implies !(#[trigger] dl[k]).contains(',') by {
            assert(dl[k] == vs[k]);
        }
        lemma_split_join(dl);
        let j = join_values(dl);
        let tail = seq![' '] + vs.last();
        assert(!vs[vs.len() - 1].contains(','));
        assert(!tail.contains(',')) by {
            if tail.contains(',') {
                let k = choose|k: int| 0 <= k < tail.len() && tail[k] == ',';
                assert(vs.last()[k - 1] == ',');
            }
        }
        assert(join_values(vs) =~= j.push(',') + tail);
        lemma_split_sep(j, ',');
        lemma_split_append(j.push(','), tail, ',');
        assert(empty + tail =~= tail);
        assert(spaced(dl).push(empty).update(spaced(dl).len() as int, empty + tail) =~= spaced(vs));
    }
}

proof fn lemma_find_name_absent(e: Seq<HeaderEntry>, name: Seq<char>, k: int)
    requires
        0 <= k,
        forall|j: int| k <= j < e.len() ==> !names_match(#[trigger] e[j].0, name),
    ensures
        find_name(e, name, k) is None,
    decreases e.len() - k,
{
    if k < e.len() {
        lemma_find_name_absent(e, name, k + 1);
    }
}

proof fn lemma_find_name_at(e: Seq<HeaderEntry>, name: Seq<char>, k0: int, k: int)
    requires
        0 <= k0 <= k < e.len(),
        names_match(e[k].0, name),
        forall|j: int| k0 <= j < k ==> !names_match(#[trigger] e[j].0, name),
    ensures
        find_name(e, name, k0) == Some(k),
    decreases k - k0,
{
    if k0 < k {
        lemma_find_name_at(e, name, k0 + 1, k);
    }
}

proof fn lemma_add_values_new(e: Seq<HeaderEntry>, name: Seq<char>, vs: Seq<Seq<char>>)
    requires
        vs.len() >= 1,
        forall|j: int| 0 <= j < e.len() ==> !names_match(#[trigger] e[j].0, name),
    ensures
        add_values(e, name, vs) == e.push((name, vs)),
    decreases vs.len(),
{
    if vs.len() == 1 {
        lemma_find_name_absent(e, name, 0);
        assert(vs.drop_last() =~= Seq::<Seq<char>>::empty());
        assert(add_values(e, name, vs.drop_last()) == e);
        assert(seq![vs.last()] =~= vs);
    } else {
        let dl = vs.drop_last();
        lemma_add_values_new(e, name, dl);
        let e2 = e.push((name, dl));
        assert(names_match(e2[e.len() as int].0, name));
        lemma_find_name_at(e2, name, 0, e.len() as int);
        assert(dl.push(vs.last()) =~= vs);
        assert(e2[e.len() as int] == (name, dl));
        assert(add_value(e2, name, vs.last()) == e2.update(
            e.len() as int,
            (name, dl.push(vs.last())),
        ));
        assert(e2.update(e.len() as int, (name, dl.push(vs.last()))) =~= e.push((name, vs)));
    }
}

proof fn lemma_parse_entry_line(e: Seq<HeaderEntry>, en: HeaderEntry)
    requires
        en.1.len() >= 1,
        clean_name(en.0),
        forall|k: int| 0 <= k < en.1.len() ==> clean_value(#[trigger] en.1[k]),
        forall|j: int| 0 <= j < e.len() ==> !names_match(#[trigger] e[j].0, en.0),
    ensures
        parse_line(e, entry_line(en)) == Some(e.push(en)),
{
    let name = en.0;
    let vs = en.1;
    let line = entry_line(en);
    let n = name.len() as int;
    assert(line[n] == ':' && line[n + 1] == ' ');
    assert forall|j: int| 0 <= j < n implies !is_sep_at(line, j) by {
        if j + 1 < n {
            assert(line[j] == name[j] && line[j + 1] == name[j + 1]);
            assert(!is_sep_at(name, j));
        } else {
            assert(line[j + 1] == ':');
        }
    }
    lemma_sep_first(line, 0, n);
    assert(line.subrange(0, n) =~= name);
    lemma_trim_trimmed(name);
    assert(line.subrange(n + 2, line.len() as int) =~= join_values(vs));
    lemma_split_join(vs);
    assert forall|i: int| 0 <= i < vs.len() implies #[trigger] trim(spaced(vs)[i]) == vs[i] by {
        if i == 0 {
            lemma_trim_trimmed(vs[0]);
        } else {
            lemma_trim_space_prefix(vs[i]);
        }
    }
    assert(line_values(join_values(vs)) =~= vs);
    lemma_add_values_new(e, name, vs);
}

proof fn lemma_round_trip_clean(e: Seq<HeaderEntry>)
    requires
        entries_wf(e),
        clean_entries(e),
    ensures
        parse_lines(Seq::empty(), e.map_values(|en: HeaderEntry| entry_line(en))) == Some(e),
    decreases e.len(),
{
    let lines = e.map_values(|en: HeaderEntry| entry_line(en));
    if e.len() == 0 {
        assert(e =~= Seq::<HeaderEntry>::empty());
    } else {
        let dl = e.drop_last();
        assert(lines.drop_last() =~= dl.map_values(|en: HeaderEntry| entry_line(en)));
        lemma_round_trip_clean(dl);
        let en = e.last();
        assert forall|j: int| 0 <= j < dl.len() implies !names_match(#[trigger] dl[j].0, en.0) by {
            assert(!names_match(e[j].0, e[e.len() - 1].0));
        }
        assert(clean_name(e[e.len() - 1].0));
        lemma_parse_entry_line(dl, en);
        assert(dl.push(en) =~= e);
    }
}

/// A header block, once parsed, survives serializing and parsing again: every name comes
/// back with the same values in the same order, and the fields in the same order.
pub proof fn lemma_parse_serialize_round_trip(lines: Seq<Seq<char>>)
    requires
        parse_lines(Seq::empty(), lines) is Some,
    ensures
        parse_lines(
            Seq::empty(),
            (parse_lines(Seq::empty(), lines)->0).map_values(|en: HeaderEntry| entry_line(en)),
        ) == parse_lines(Seq::empty(), lines),
{
    lemma_parse_lines_keeps(lines);
    lemma_round_trip_clean(parse_lines(Seq::empty(), lines)->0);
}

} // verus!
