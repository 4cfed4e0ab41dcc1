//! Unions with tags and properties.
//!
//! A union is written `tag::key=value::key=value::argument`: an ASCII
//! alphanumeric tag, properties whose keys are ASCII alphanumeric and whose
//! values are ASCII without a colon, and an optional ASCII argument. The
//! properties are kept ordered by key, which is the order in which they are
//! printed.

use vstd::prelude::*;

use crate::apml::lst::{LiteralPart, Text, TextUnit, VariableValue, Word};
use crate::apml::model;
use crate::apml::model::escape_parts;
use crate::apml::lst::view_text;
use crate::apml::parser::{byte_offset, lemma_utf8_len_bounds_len, lemma_utf8_len_prefix, utf8_len, ParseError};
use crate::chars::{chars_of, push_char, push_string, string_from_chars};
use crate::num::{trim_bounds, trimmed};

verus! {

/// Model of [`Union`].
pub struct UnionModel {
    pub tag: Seq<char>,
    pub properties: Seq<(Seq<char>, Seq<char>)>,
    pub argument: Option<Seq<char>>,
}

/// `a` comes before `b`, both read from `i` on, in the order of `str`
/// (by code points, a prefix first).
pub open spec fn key_less_from(a: Seq<char>, b: Seq<char>, i: int) -> bool
    decreases a.len() - i,
{
    if i < 0 {
        false
    } else if i >= a.len() {
        i < b.len()
    } else if i >= b.len() {
        false
    } else if a[i] != b[i] {
        a[i] < b[i]
    } else {
        key_less_from(a, b, i + 1)
    }
}

/// `a` comes before `b` in the order of `str`.
pub open spec fn key_less(a: Seq<char>, b: Seq<char>) -> bool {
    key_less_from(a, b, 0)
}

/// The properties are ordered by key, each key once.
pub open spec fn keys_ordered(ps: Seq<(Seq<char>, Seq<char>)>) -> bool {
    forall|i: int| 0 <= i < ps.len() - 1 ==> key_less(#[trigger] ps[i].0, ps[i + 1].0)
}

/// The first position whose key does not come before `k`.
pub open spec fn insert_pos(ps: Seq<(Seq<char>, Seq<char>)>, k: Seq<char>, i: int) -> int
    decreases ps.len() - i,
{
    if i < 0 || i >= ps.len() {
        ps.len() as int
    } else if key_less(ps[i].0, k) {
        insert_pos(ps, k, i + 1)
    } else {
        i
    }
}

/// The properties with `k` set to `v`: its value replaced where the key is
/// there, else the entry put in its place in the order.
pub open spec fn set_property(ps: Seq<(Seq<char>, Seq<char>)>, k: Seq<char>, v: Seq<char>) -> Seq<
    (Seq<char>, Seq<char>),
> {
    let i = insert_pos(ps, k, 0);
    if i < ps.len() && ps[i].0 == k {
        ps.update(i, (k, v))
    } else {
        ps.insert(i, (k, v))
    }
}

/// The properties set one after the other, so a later value of a key wins.
pub open spec fn set_properties(
    ps: Seq<(Seq<char>, Seq<char>)>,
    kvs: Seq<(Seq<char>, Seq<char>)>,
) -> Seq<(Seq<char>, Seq<char>)>
    decreases kvs.len(),
{
    if kvs.len() == 0 {
        ps
    } else {
        set_property(set_properties(ps, kvs.drop_last()), kvs.last().0, kvs.last().1)
    }
}

/// The value of the first property `k` from `i` on.
pub open spec fn property_from(ps: Seq<(Seq<char>, Seq<char>)>, k: Seq<char>, i: int) -> Option<
    Seq<char>,
>
    decreases ps.len() - i,
{
    if i < 0 || i >= ps.len() {
        None
    } else if ps[i].0 == k {
        Some(ps[i].1)
    } else {
        property_from(ps, k, i + 1)
    }
}

/// The value of the property `k`.
pub open spec fn property_of(ps: Seq<(Seq<char>, Seq<char>)>, k: Seq<char>) -> Option<Seq<char>> {
    property_from(ps, k, 0)
}

/// `::key=value` for each property, in order.
pub open spec fn properties_text(ps: Seq<(Seq<char>, Seq<char>)>) -> Seq<char>
    decreases ps.len(),
{
    if ps.len() == 0 {
        Seq::empty()
    } else {
        properties_text(ps.drop_last()) + seq![':', ':'] + ps.last().0 + seq!['='] + ps.last().1
    }
}

/// The text of a union: its tag, its properties and its argument.
pub open spec fn union_text(u: UnionModel) -> Seq<char> {
    u.tag + properties_text(u.properties) + match u.argument {
        Some(a) => seq![':', ':'] + a,
        None => Seq::empty(),
    }
}

/// The kinds of characters read in runs.
#[derive(Clone, Copy)]
pub enum RunKind {
    /// ASCII letters and digits: tags and keys.
    Alnum,
    /// ASCII characters but a colon: property values.
    Value,
    /// ASCII characters: the argument.
    Ascii,
}

pub open spec fn is_ascii_alnum(c: char) -> bool {
    ('0' <= c && c <= '9') || ('a' <= c && c <= 'z') || ('A' <= c && c <= 'Z')
}

pub open spec fn run_char(k: RunKind, c: char) -> bool {
    match k {
        RunKind::Alnum => is_ascii_alnum(c),
        RunKind::Value => (c as u32) < 128 && c != ':',
        RunKind::Ascii => (c as u32) < 128,
    }
}

/// Where the run of characters of kind `k` from `p` on ends.
pub open spec fn run_to(s: Seq<char>, p: int, k: RunKind) -> int
    decreases s.len() - p,
{
    if 0 <= p < s.len() && run_char(k, s[p]) {
        run_to(s, p + 1, k)
    } else {
        p
    }
}

/// `::` stands at `p`.
pub open spec fn separator_at(s: Seq<char>, p: int) -> bool {
    0 <= p && p + 1 < s.len() && s[p] == ':' && s[p + 1] == ':'
}

/// The properties read from `p` on, each `::key=value`, and where they end.
pub open spec fn read_properties(s: Seq<char>, p: int) -> (Seq<(Seq<char>, Seq<char>)>, int)
    decreases s.len() - p,
{
    if separator_at(s, p) {
        let ke = run_to(s, p + 2, RunKind::Alnum);
        if ke > p + 2 && ke < s.len() && s[ke] == '=' {
            let ve = run_to(s, ke + 1, RunKind::Value);
            if ve > ke + 1 && ve <= s.len() {
                let rest = read_properties(s, ve);
                (seq![(s.subrange(p + 2, ke), s.subrange(ke + 1, ve))] + rest.0, rest.1)
            } else {
                (Seq::empty(), p)
            }
        } else {
            (Seq::empty(), p)
        }
    } else {
        (Seq::empty(), p)
    }
}

/// How reading a union fails.
pub enum UnionFailure {
    /// The text does not start with a tag.
    NoTag,
    /// Text is left at this character position.
    Unread(int),
}

/// What reading a trimmed text as a union gives.
pub open spec fn union_read(s: Seq<char>) -> Result<UnionModel, UnionFailure> {
    let te = run_to(s, 0, RunKind::Alnum);
    if te == 0 {
        Err(UnionFailure::NoTag)
    } else {
        let (kvs, p1) = read_properties(s, te);
        let ae = run_to(s, p1 + 2, RunKind::Ascii);
        let has_arg = separator_at(s, p1) && ae > p1 + 2;
        let end = if has_arg {
            ae
        } else {
            p1
        };
        if end < s.len() {
            Err(UnionFailure::Unread(end))
        } else {
            Ok(
                UnionModel {
                    tag: s.take(te),
                    properties: set_properties(Seq::empty(), kvs),
                    argument: if has_arg {
                        Some(s.subrange(p1 + 2, ae))
                    } else {
                        None
                    },
                },
            )
        }
    }
}

/// A union with a tag and properties.
pub struct Union {
    tag: String,
    properties: Vec<(String, String)>,
    argument: Option<String>,
}

pub open spec fn view_properties(ps: Seq<(String, String)>) -> Seq<(Seq<char>, Seq<char>)> {
    ps.map_values(|p: (String, String)| (p.0@, p.1@))
}

pub open spec fn view_argument(a: Option<String>) -> Option<Seq<char>> {
    match a {
        Some(s) => Some(s@),
        None => None,
    }
}

impl View for Union {
    type V = UnionModel;

    closed spec fn view(&self) -> UnionModel {
        UnionModel {
            tag: self.tag@,
            properties: view_properties(self.properties@),
            argument: view_argument(self.argument),
        }
    }
}

proof fn lemma_key_less_from_irreflexive(a: Seq<char>, i: int)
    requires
        0 <= i,
    ensures
        !key_less_from(a, a, i),
    decreases a.len() - i,
{
    if i < a.len() {
        lemma_key_less_from_irreflexive(a, i + 1);
    }
}

proof fn lemma_key_less_from_total(a: Seq<char>, b: Seq<char>, i: int)
    requires
        0 <= i <= a.len(),
        i <= b.len(),
        a.take(i) == b.take(i),
    ensures
        key_less_from(a, b, i) || key_less_from(b, a, i) || a == b,
    decreases a.len() - i,
{
    if i < a.len() && i < b.len() && a[i] == b[i] {
        assert(a.take(i + 1) =~= a.take(i).push(a[i]));
        assert(b.take(i + 1) =~= b.take(i).push(b[i]));
        lemma_key_less_from_total(a, b, i + 1);
    } else if i == a.len() && i == b.len() {
        assert(a =~= a.take(i));
        assert(b =~= b.take(i));
    }
}

/// Two different keys are ordered one way or the other.
proof fn lemma_key_less_total(a: Seq<char>, b: Seq<char>)
    ensures
        key_less(a, b) || key_less(b, a) || a == b,
        !key_less(a, a),
{
    assert(a.take(0) =~= b.take(0));
    lemma_key_less_from_total(a, b, 0);
    lemma_key_less_from_irreflexive(a, 0);
}

proof fn lemma_insert_pos(ps: Seq<(Seq<char>, Seq<char>)>, k: Seq<char>, i: int)
    requires
        0 <= i <= ps.len(),
    ensures
        i <= insert_pos(ps, k, i) <= ps.len(),
        forall|j: int| i <= j < insert_pos(ps, k, i) ==> key_less(#[trigger] ps[j].0, k),
        insert_pos(ps, k, i) < ps.len() ==> !key_less(ps[insert_pos(ps, k, i)].0, k),
    decreases ps.len() - i,
{
    if i < ps.len() && key_less(ps[i].0, k) {
        lemma_insert_pos(ps, k, i + 1);
    }
}

/// Setting a property keeps the keys ordered.
proof fn lemma_set_property_ordered(ps: Seq<(Seq<char>, Seq<char>)>, k: Seq<char>, v: Seq<char>)
    requires
        keys_ordered(ps),
    ensures
        keys_ordered(set_property(ps, k, v)),
{
    lemma_insert_pos(ps, k, 0);
    let i = insert_pos(ps, k, 0);
    let r = set_property(ps, k, v);
    if i < ps.len() && ps[i].0 == k {
        assert forall|j: int| 0 <= j < r.len() - 1 implies key_less(#[trigger] r[j].0, r[j + 1].0) by {
            assert(r[j].0 == ps[j].0);
            assert(r[j + 1].0 == ps[j + 1].0);
        }
    } else {
        if i < ps.len() {
            lemma_key_less_total(ps[i].0, k);
        }
        assert forall|j: int| 0 <= j < r.len() - 1 implies key_less(#[trigger] r[j].0, r[j + 1].0) by {
            if j < i - 1 {
                assert(r[j] == ps[j] && r[j + 1] == ps[j + 1]);
            } else if j == i - 1 {
                assert(r[j] == ps[j] && r[j + 1] == (k, v));
            } else if j == i {
                assert(r[j + 1] == ps[i]);
            } else {
                assert(r[j] == ps[j - 1] && r[j + 1] == ps[j]);
            }
        }
    }
}

proof fn lemma_set_properties_ordered(ps: Seq<(Seq<char>, Seq<char>)>, kvs: Seq<(Seq<char>, Seq<char>)>)
    requires
        keys_ordered(ps),
    ensures
        keys_ordered(set_properties(ps, kvs)),
    decreases kvs.len(),
{
    if kvs.len() > 0 {
        lemma_set_properties_ordered(ps, kvs.drop_last());
        lemma_set_property_ordered(set_properties(ps, kvs.drop_last()), kvs.last().0, kvs.last().1);
    }
}

proof fn lemma_key_less_irreflexive(a: Seq<char>)
    ensures
        !key_less(a, a),
{
    lemma_key_less_from_irreflexive(a, 0);
}

proof fn lemma_property_from_skip(ps: Seq<(Seq<char>, Seq<char>)>, k: Seq<char>, i: int, j: int)
    requires
        0 <= i <= j <= ps.len(),
        forall|m: int| i <= m < j ==> (#[trigger] ps[m]).0 != k,
    ensures
        property_from(ps, k, i) == property_from(ps, k, j),
    decreases j - i,
{
    if i < j {
        lemma_property_from_skip(ps, k, i + 1, j);
    }
}

/// A property reads back as it was set, in a union whose keys are ordered.
pub proof fn lemma_property_set_get(ps: Seq<(Seq<char>, Seq<char>)>, k: Seq<char>, v: Seq<char>)
    requires
        keys_ordered(ps),
    ensures
        property_of(set_property(ps, k, v), k) == Some(v),
{
    lemma_insert_pos(ps, k, 0);
    let i = insert_pos(ps, k, 0);
    let r = set_property(ps, k, v);
    assert forall|m: int| 0 <= m < i implies (#[trigger] r[m]).0 != k by {
        assert(key_less(ps[m].0, k));
        assert(r[m] == ps[m]);
        lemma_key_less_irreflexive(k);
    }
    lemma_property_from_skip(r, k, 0, i);
    assert(r[i] == (k, v));
}

proof fn lemma_property_update(
    ps: Seq<(Seq<char>, Seq<char>)>,
    i: int,
    e: (Seq<char>, Seq<char>),
    j: Seq<char>,
    m: int,
)
    requires
        0 <= i < ps.len(),
        0 <= m,
        ps[i].0 != j,
        e.0 != j,
    ensures
        property_from(ps.update(i, e), j, m) == property_from(ps, j, m),
    decreases ps.len() - m,
{
    if m < ps.len() {
        lemma_property_update(ps, i, e, j, m + 1);
    }
}

proof fn lemma_property_shift(
    ps: Seq<(Seq<char>, Seq<char>)>,
    i: int,
    e: (Seq<char>, Seq<char>),
    j: Seq<char>,
    n: int,
)
    requires
        0 <= i <= n <= ps.len(),
    ensures
        property_from(ps.insert(i, e), j, n + 1) == property_from(ps, j, n),
    decreases ps.len() - n,
{
    if n < ps.len() {
        assert(ps.insert(i, e)[n + 1] == ps[n]);
        lemma_property_shift(ps, i, e, j, n + 1);
    }
}

proof fn lemma_property_insert(
    ps: Seq<(Seq<char>, Seq<char>)>,
    i: int,
    e: (Seq<char>, Seq<char>),
    j: Seq<char>,
    m: int,
)
    requires
        0 <= m <= i <= ps.len(),
        e.0 != j,
    ensures
        property_from(ps.insert(i, e), j, m) == property_from(ps, j, m),
    decreases i - m,
{
    if m < i {
        assert(ps.insert(i, e)[m] == ps[m]);
        lemma_property_insert(ps, i, e, j, m + 1);
    } else {
        assert(ps.insert(i, e)[i] == e);
        lemma_property_shift(ps, i, e, j, i);
    }
}

/// Setting a property leaves the other properties as they were.
pub proof fn lemma_property_set_other(
    ps: Seq<(Seq<char>, Seq<char>)>,
    k: Seq<char>,
    v: Seq<char>,
    j: Seq<char>,
)
    requires
        j != k,
    ensures
        property_of(set_property(ps, k, v), j) == property_of(ps, j),
{
    lemma_insert_pos(ps, k, 0);
    let i = insert_pos(ps, k, 0);
    if i < ps.len() && ps[i].0 == k {
        lemma_property_update(ps, i, (k, v), j, 0);
    } else {
        lemma_property_insert(ps, i, (k, v), j, 0);
    }
}

/// The keys of the properties come in increasing order, each once.
pub open spec fn keys_increasing(kvs: Seq<(Seq<char>, Seq<char>)>) -> bool {
    forall|i: int, j: int| #![trigger kvs[i], kvs[j]] 0 <= i < j < kvs.len() ==> key_less(kvs[i].0, kvs[j].0)
}

proof fn lemma_properties_text_prepend(e: (Seq<char>, Seq<char>), rest: Seq<(Seq<char>, Seq<char>)>)
    ensures
        properties_text(seq![e] + rest) == seq![':', ':'] + e.0 + seq!['='] + e.1 + properties_text(rest),
    decreases rest.len(),
{
    if rest.len() == 0 {
        assert(seq![e] + rest =~= seq![e]);
        assert(seq![e].drop_last() =~= Seq::<(Seq<char>, Seq<char>)>::empty());
        let head = seq![':', ':'] + e.0 + seq!['='] + e.1;
        assert(properties_text(seq![e].drop_last()) == Seq::<char>::empty());
        assert(properties_text(seq![e]) =~= Seq::<char>::empty() + head);
        assert(properties_text(seq![e]) =~= head + properties_text(rest));
    } else {
        lemma_properties_text_prepend(e, rest.drop_last());
        assert((seq![e] + rest).drop_last() =~= seq![e] + rest.drop_last());
        assert((seq![e] + rest).last() == rest.last());
        let head = seq![':', ':'] + e.0 + seq!['='] + e.1;
        let l = rest.last();
        let tail = seq![':', ':'] + l.0 + seq!['='] + l.1;
        assert(properties_text(seq![e] + rest) =~= head + properties_text(rest.drop_last()) + tail);
        assert(properties_text(rest) =~= properties_text(rest.drop_last()) + tail);
        assert(properties_text(seq![e] + rest) =~= head + properties_text(rest));
    }
}

/// The properties read from `p` on are the text they were read from.
proof fn lemma_read_properties_text(s: Seq<char>, p: int)
    requires
        0 <= p <= s.len(),
    ensures
        p <= read_properties(s, p).1 <= s.len(),
        s.subrange(p, read_properties(s, p).1) == properties_text(read_properties(s, p).0),
    decreases s.len() - p,
{
    if separator_at(s, p) {
        let ke = run_to(s, p + 2, RunKind::Alnum);
        lemma_run_to(s, p + 2, RunKind::Alnum);
        if ke > p + 2 && ke < s.len() && s[ke] == '=' {
            let ve = run_to(s, ke + 1, RunKind::Value);
            lemma_run_to(s, ke + 1, RunKind::Value);
            if ve > ke + 1 && ve <= s.len() {
                lemma_read_properties_text(s, ve);
                let rest = read_properties(s, ve);
                let e = (s.subrange(p + 2, ke), s.subrange(ke + 1, ve));
                lemma_properties_text_prepend(e, rest.0);
                assert(s.subrange(p, rest.1) =~= seq![':', ':'] + e.0 + seq!['='] + e.1 + s.subrange(
                    ve,
                    rest.1,
                ));
                return;
            }
        }
    }
    assert(s.subrange(p, p) =~= Seq::<char>::empty());
}

proof fn lemma_insert_pos_end(ps: Seq<(Seq<char>, Seq<char>)>, k: Seq<char>, i: int)
    requires
        0 <= i <= ps.len(),
        forall|m: int| i <= m < ps.len() ==> key_less(#[trigger] ps[m].0, k),
    ensures
        insert_pos(ps, k, i) == ps.len(),
    decreases ps.len() - i,
{
    if i < ps.len() {
        lemma_insert_pos_end(ps, k, i + 1);
    }
}

/// Setting properties whose keys increase, one after the other, gives them
/// in their order.
proof fn lemma_set_increasing(kvs: Seq<(Seq<char>, Seq<char>)>)
    requires
        keys_increasing(kvs),
    ensures
        set_properties(Seq::empty(), kvs) == kvs,
    decreases kvs.len(),
{
    if kvs.len() > 0 {
        let d = kvs.drop_last();
        assert(keys_increasing(d)) by {
            assert forall|i: int, j: int| #![trigger d[i], d[j]] 0 <= i < j < d.len() implies key_less(d[i].0, d[j].0) by {
                assert(d[i] == kvs[i] && d[j] == kvs[j]);
            }
        }
        lemma_set_increasing(d);
        let l = kvs.last();
        assert forall|m: int| 0 <= m < d.len() implies key_less(#[trigger] d[m].0, l.0) by {
            assert(d[m] == kvs[m]);
            assert(key_less(kvs[m].0, kvs[kvs.len() - 1].0));
        }
        lemma_insert_pos_end(d, l.0, 0);
        assert(d.insert(d.len() as int, l) =~= kvs);
    }
}

/// Printing a union that was read from a text gives the text back, where
/// the text gives its properties in increasing order of their keys.
pub proof fn lemma_union_read_print(s: Seq<char>)
    requires
        union_read(s) is Ok,
        keys_increasing(read_properties(s, run_to(s, 0, RunKind::Alnum)).0),
    ensures
        union_read(s) matches Ok(m) && union_text(m) == s,
{
    let te = run_to(s, 0, RunKind::Alnum);
    lemma_run_to(s, 0, RunKind::Alnum);
    let (kvs, p1) = read_properties(s, te);
    lemma_read_properties_text(s, te);
    lemma_set_increasing(kvs);
    let ae = run_to(s, p1 + 2, RunKind::Ascii);
    let has_arg = separator_at(s, p1) && ae > p1 + 2;
    let m = union_read(s)->Ok_0;
    assert(m.properties == kvs);
    if has_arg {
        lemma_run_to(s, p1 + 2, RunKind::Ascii);
        assert(s =~= s.take(te) + s.subrange(te, p1) + (seq![':', ':'] + s.subrange(p1 + 2, ae)));
    } else {
        assert(s =~= s.take(te) + s.subrange(te, p1) + Seq::<char>::empty());
    }
}

/// Compares two strings in the order of `str`.
fn key_less_exec(a: &Vec<char>, b: &Vec<char>) -> (res: bool)
    ensures
        res == key_less(a@, b@),
{
    let mut i: usize = 0;
    while i < a.len() && i < b.len() && a[i] == b[i]
        invariant
            0 <= i <= a@.len(),
            i <= b@.len(),
            key_less(a@, b@) == key_less_from(a@, b@, i as int),
        decreases a@.len() - i,
    {
        i = i + 1;
    }
    if i >= a.len() {
        i < b.len()
    } else if i >= b.len() {
        false
    } else {
        a[i] < b[i]
    }
}

/// Reads a run of characters of kind `k` from `p` on.
fn run_to_exec(s: &Vec<char>, p: usize, k: RunKind) -> (res: usize)
    requires
        p <= s@.len(),
    ensures
        res == run_to(s@, p as int, k),
        p <= res <= s@.len(),
    decreases s@.len() - p,
{
    let mut q = p;
    while q < s.len() && run_char_exec(k, s[q])
        invariant
            p <= q <= s@.len(),
            run_to(s@, p as int, k) == run_to(s@, q as int, k),
        decreases s@.len() - q,
    {
        q = q + 1;
    }
    q
}

fn run_char_exec(k: RunKind, c: char) -> (res: bool)
    ensures
        res == run_char(k, c),
{
    match k {
        RunKind::Alnum => ('0' <= c && c <= '9') || ('a' <= c && c <= 'z') || ('A' <= c && c <= 'Z'),
        RunKind::Value => (c as u32) < 128 && c != ':',
        RunKind::Ascii => (c as u32) < 128,
    }
}

fn separator_at_exec(s: &Vec<char>, p: usize) -> (res: bool)
    ensures
        res == separator_at(s@, p as int),
{
    p < s.len() && s.len() - p > 1 && s[p] == ':' && s[p + 1] == ':'
}

impl Union {
    /// The model of the union.
    pub closed spec fn wf(&self) -> bool {
        keys_ordered(view_properties(self.properties@))
    }

    /// Creates a union without properties and argument.
    pub fn new(tag: &str) -> (res: Self)
        ensures
            res.wf(),
            res@ == (UnionModel { tag: tag@, properties: Seq::empty(), argument: None }),
    {
        let res = Union { tag: tag.to_string(), properties: Vec::new(), argument: None };
        assert(view_properties(res.properties@) =~= Seq::<(Seq<char>, Seq<char>)>::empty());
        res
    }

    /// The tag.
    pub fn tag(&self) -> (res: &String)
        ensures
            res@ == self@.tag,
    {
        &self.tag
    }

    /// The argument.
    pub fn argument(&self) -> (res: &Option<String>)
        ensures
            view_argument(*res) == self@.argument,
    {
        &self.argument
    }

    /// Sets or clears the argument.
    pub fn set_argument(&mut self, argument: Option<String>)
        requires
            old(self).wf(),
        ensures
            final(self).wf(),
            final(self)@ == (UnionModel { argument: view_argument(argument), ..old(self)@ }),
    {
        self.argument = argument;
    }

    /// The properties, ordered by key.
    pub fn properties(&self) -> (res: &Vec<(String, String)>)
        ensures
            view_properties(res@) == self@.properties,
    {
        &self.properties
    }

    /// The value of a property.
    pub fn property(&self, key: &str) -> (res: Option<String>)
        ensures
            match res {
                Some(v) => property_of(self@.properties, key@) == Some(v@),
                None => property_of(self@.properties, key@) is None,
            },
    {
        let ghost ps = view_properties(self.properties@);
        let mut i: usize = 0;
        while i < self.properties.len()
            invariant
                0 <= i <= self.properties@.len(),
                ps == view_properties(self.properties@),
                property_of(ps, key@) == property_from(ps, key@, i as int),
            decreases self.properties@.len() - i,
        {
            if crate::chars::str_eq(self.properties[i].0.as_str(), key) {
                let v = self.properties[i].1.clone();
                return Some(v);
            }
            i = i + 1;
        }
        None
    }

    /// Sets a property, keeping the properties ordered by key.
    pub fn insert_property(&mut self, key: String, value: String)
        requires
            old(self).wf(),
        ensures
            final(self).wf(),
            final(self)@ == (UnionModel {
                properties: set_property(old(self)@.properties, key@, value@),
                ..old(self)@
            }),
    {
        let ghost ps = view_properties(self.properties@);
        let kc = chars_of(key.as_str());
        let mut i: usize = 0;
        let n = self.properties.len();
        let mut found = false;
        while i < n && !found
            invariant
                n == self.properties@.len(),
                0 <= i <= n,
                ps == view_properties(self.properties@),
                kc@ == key@,
                insert_pos(ps, key@, 0) == if found {
                    i as int
                } else {
                    insert_pos(ps, key@, i as int)
                },
                found ==> i < n,
            decreases n - i, if found { 0int } else { 1int },
        {
            let ic = chars_of(self.properties[i].0.as_str());
            if !key_less_exec(&ic, &kc) {
                found = true;
            } else {
                i = i + 1;
            }
        }
        assert(insert_pos(ps, key@, 0) == i);
        proof {
            lemma_set_property_ordered(ps, key@, value@);
        }
        let same = i < n && crate::chars::str_eq(self.properties[i].0.as_str(), key.as_str());
        if same {
            self.properties.set(i, (key, value));
        } else {
            self.properties.insert(i, (key, value));
        }
        assert(view_properties(self.properties@) =~= set_property(ps, key@, value@));
    }

    /// Formats the union into a LST text.
    pub fn print(&self) -> (res: Text)
        ensures
            view_text(res) == model::Text(
                seq![model::TextUnit::DoubleQuote(seq![model::Word::Literal(escape_parts(union_text(self@)))])],
            ),
    {
        let ghost ps = view_properties(self.properties@);
        let mut value = self.tag.clone();
        let mut i: usize = 0;
        assert(ps.take(0) =~= Seq::<(Seq<char>, Seq<char>)>::empty());
        while i < self.properties.len()
            invariant
                0 <= i <= self.properties@.len(),
                ps == view_properties(self.properties@),
                value@ == self.tag@ + properties_text(ps.take(i as int)),
            decreases self.properties@.len() - i,
        {
            push_char(&mut value, ':');
            push_char(&mut value, ':');
            push_string(&mut value, self.properties[i].0.as_str());
            push_char(&mut value, '=');
            push_string(&mut value, self.properties[i].1.as_str());
            proof {
                assert(ps.take(i + 1).drop_last() =~= ps.take(i as int));
            }
            i = i + 1;
            assert(value@ =~= self.tag@ + properties_text(ps.take(i as int)));
        }
        assert(ps.take(i as int) =~= ps);
        match &self.argument {
            Some(a) => {
                push_char(&mut value, ':');
                push_char(&mut value, ':');
                push_string(&mut value, a.as_str());
            },
            None => {},
        }
        assert(value@ =~= union_text(self@));
        let parts = LiteralPart::escape(value.as_str());
        let res = Text(vec![TextUnit::DoubleQuote(vec![Word::Literal(parts)])]);
        assert(view_text(res) =~= model::Text(
            seq![model::TextUnit::DoubleQuote(seq![model::Word::Literal(escape_parts(union_text(self@)))])],
        ));
        res
    }

    /// The union as a string value.
    pub fn to_value(&self) -> (res: VariableValue)
        ensures
            res@ == model::VariableValue::String(
                model::Text(
                    seq![model::TextUnit::DoubleQuote(seq![model::Word::Literal(escape_parts(union_text(self@)))])],
                ),
            ),
    {
        VariableValue::String(Box::new(self.print()))
    }

    /// Reads a union from a text, with the white space around it trimmed.
    ///
    /// [`ParseError::SyntaxError`] comes when the text does not start with a
    /// tag, and [`ParseError::UnexpectedSource`] with the byte position (from
    /// one) of the first character left unread.
    pub fn try_from(value: &str) -> (res: Result<Union, ParseError>)
        requires
            utf8_len(value@) < usize::MAX,
        ensures
            match union_read(trimmed(value@)) {
                Ok(m) => res matches Ok(u) && u.wf() && u@ == m,
                Err(UnionFailure::NoTag) => res matches Err(ParseError::SyntaxError(_)),
                Err(UnionFailure::Unread(p)) => res matches Err(ParseError::UnexpectedSource { pos })
                    && pos == utf8_len(trimmed(value@).take(p)) + 1,
            },
    {
        let all = chars_of(value);
        let (a, b) = trim_bounds(&all);
        let mut s: Vec<char> = Vec::new();
        let mut k = a;
        while k < b
            invariant
                a <= k <= b <= all@.len(),
                s@ == all@.subrange(a as int, k as int),
            decreases b - k,
        {
            s.push(all[k]);
            k = k + 1;
            assert(s@ =~= all@.subrange(a as int, k as int));
        }
        let ghost src = s@;
        assert(src == trimmed(value@));
        proof {
            lemma_utf8_len_bounds_len(all@);
            lemma_trimmed_utf8_len(all@, a as int, b as int);
        }
        let te = run_to_exec(&s, 0, RunKind::Alnum);
        if te == 0 {
            return Err(ParseError::SyntaxError("a union starts with its tag".to_string()));
        }
        let tag = string_from_chars(s.as_slice(), 0, te);
        let mut kvs: Vec<(String, String)> = Vec::new();
        let mut p = te;
        proof {
            lemma_read_properties_split(src, te as int);
        }
        loop
            invariant
                src == s@,
                te <= p <= s@.len(),
                read_properties(src, te as int).1 == read_properties(src, p as int).1,
                read_properties(src, te as int).0 == view_properties(kvs@) + read_properties(
                    src,
                    p as int,
                ).0,
            ensures
                read_properties(src, p as int).0.len() == 0,
                read_properties(src, p as int).1 == p,
            decreases s@.len() - p,
        {
            if !separator_at_exec(&s, p) {
                break;
            }
            let ke = run_to_exec(&s, p + 2, RunKind::Alnum);
            if !(ke > p + 2 && ke < s.len() && s[ke] == '=') {
                break;
            }
            let ve = run_to_exec(&s, ke + 1, RunKind::Value);
            if ve <= ke + 1 {
                break;
            }
            let k = string_from_chars(s.as_slice(), p + 2, ke);
            let v = string_from_chars(s.as_slice(), ke + 1, ve);
            let ghost before = view_properties(kvs@);
            kvs.push((k, v));
            proof {
                assert(view_properties(kvs@) =~= before.push((src.subrange(p + 2, ke as int), src.subrange(ke + 1, ve as int))));
                let rest = read_properties(src, ve as int);
                assert(read_properties(src, p as int).0 =~= seq![(src.subrange(p + 2, ke as int), src.subrange(ke + 1, ve as int))] + rest.0);
                assert(view_properties(kvs@) + rest.0 =~= before + read_properties(src, p as int).0);
            }
            p = ve;
        }
        assert(read_properties(src, p as int).0 =~= Seq::<(Seq<char>, Seq<char>)>::empty());
        assert(view_properties(kvs@) =~= view_properties(kvs@) + Seq::<(Seq<char>, Seq<char>)>::empty());
        let mut argument: Option<String> = None;
        let mut end = p;
        if separator_at_exec(&s, p) {
            let ae = run_to_exec(&s, p + 2, RunKind::Ascii);
            if ae > p + 2 {
                argument = Some(string_from_chars(s.as_slice(), p + 2, ae));
                end = ae;
            }
        }
        if end < s.len() {
            let off = byte_offset(&s, end);
            proof {
                lemma_utf8_len_prefix(src, end as int);
            }
            return Err(ParseError::UnexpectedSource { pos: off + 1 });
        }
        let mut u = Union { tag, properties: Vec::new(), argument };
        assert(view_properties(u.properties@) =~= Seq::<(Seq<char>, Seq<char>)>::empty());
        let ghost all_kvs = view_properties(kvs@);
        let mut i: usize = 0;
        assert(all_kvs.take(0) =~= Seq::<(Seq<char>, Seq<char>)>::empty());
        while i < kvs.len()
            invariant
                0 <= i <= kvs@.len(),
                all_kvs == view_properties(kvs@),
                u.wf(),
                u@ == (UnionModel {
                    tag: src.take(te as int),
                    properties: set_properties(Seq::empty(), all_kvs.take(i as int)),
                    argument: view_argument(argument),
                }),
            decreases kvs@.len() - i,
        {
            let k = kvs[i].0.clone();
            let v = kvs[i].1.clone();
            u.insert_property(k, v);
            proof {
                assert(all_kvs.take(i + 1).drop_last() =~= all_kvs.take(i as int));
            }
            i = i + 1;
        }
        assert(all_kvs.take(i as int) =~= all_kvs);
        Ok(u)
    }
}

proof fn lemma_read_properties_split(s: Seq<char>, p: int)
    requires
        0 <= p <= s.len(),
    ensures
        p <= read_properties(s, p).1 <= s.len(),
    decreases s.len() - p,
{
    if separator_at(s, p) {
        let ke = run_to(s, p + 2, RunKind::Alnum);
        lemma_run_to(s, p + 2, RunKind::Alnum);
        if ke > p + 2 && ke < s.len() && s[ke] == '=' {
            let ve = run_to(s, ke + 1, RunKind::Value);
            lemma_run_to(s, ke + 1, RunKind::Value);
            if ve > ke + 1 && ve <= s.len() {
                lemma_read_properties_split(s, ve);
            }
        }
    }
}

proof fn lemma_run_to(s: Seq<char>, p: int, k: RunKind)
    requires
        0 <= p <= s.len(),
    ensures
        p <= run_to(s, p, k) <= s.len(),
    decreases s.len() - p,
{
    if p < s.len() && run_char(k, s[p]) {
        lemma_run_to(s, p + 1, k);
    }
}

proof fn lemma_trimmed_utf8_len(s: Seq<char>, a: int, b: int)
    requires
        0 <= a <= b <= s.len(),
    ensures
        utf8_len(s.subrange(a, b)) <= utf8_len(s),
    decreases s.len(),
{
    if b < s.len() {
        assert(s.drop_last().subrange(a, b) =~= s.subrange(a, b));
        lemma_trimmed_utf8_len(s.drop_last(), a, b);
    } else if a > 0 {
        assert(s.subrange(a, b) =~= s.drop_first().subrange(a - 1, b - 1));
        lemma_trimmed_utf8_len(s.drop_first(), a - 1, b - 1);
        lemma_utf8_len_drop_first(s);
    } else {
        assert(s.subrange(a, b) =~= s);
    }
}

proof fn lemma_utf8_len_drop_first(s: Seq<char>)
    requires
        s.len() > 0,
    ensures
        utf8_len(s) == utf8_len(s.drop_first()) + crate::apml::parser::utf8_width(s[0]),
    decreases s.len(),
{
    if s.len() > 1 {
        lemma_utf8_len_drop_first(s.drop_last());
        assert(s.drop_last().drop_first() =~= s.drop_first().drop_last());
    } else {
        assert(s.drop_first() =~= Seq::<char>::empty());
        assert(s.drop_last() =~= Seq::<char>::empty());
    }
}

} // verus!
