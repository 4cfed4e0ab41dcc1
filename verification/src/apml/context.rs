//! Evaluated APML values and the context that holds them.
//!
//! A [`VariableValue`] is a string or an array of strings; its model is
//! [`VarValue`]. An [`ApmlContext`] maps variable names to values; its model
//! is a finite map from names to [`VarValue`]s.

use vstd::prelude::*;

use crate::chars::{chars_of, push_char, push_string, str_eq};

verus! {

/// Model of [`VariableValue`].
pub enum VarValue {
    Str(Seq<char>),
    Arr(Seq<Seq<char>>),
}

/// The characters that separate the fields of a string value.
pub open spec fn is_field_sep(c: char) -> bool {
    c == ' ' || c == '\t' || c == '\n'
}

/// The fields of a string: its maximal runs of characters other than
/// `' '`, `'\t'` and `'\n'`, in order.
pub open spec fn fields(s: Seq<char>) -> Seq<Seq<char>>
    decreases s.len(),
{
    if s.len() == 0 {
        Seq::empty()
    } else {
        let f = fields(s.drop_last());
        let c = s.last();
        if is_field_sep(c) {
            f
        } else if s.len() >= 2 && !is_field_sep(s[s.len() - 2]) {
            f.update(f.len() - 1, f.last().push(c))
        } else {
            f.push(seq![c])
        }
    }
}

/// Strings joined with a separator.
pub open spec fn joined(els: Seq<Seq<char>>, sep: Seq<char>) -> Seq<char>
    decreases els.len(),
{
    if els.len() == 0 {
        Seq::empty()
    } else if els.len() == 1 {
        els[0]
    } else {
        joined(els.drop_last(), sep) + sep + els.last()
    }
}

/// A value read as a string: arrays are joined with spaces.
pub open spec fn value_string(v: VarValue) -> Seq<char> {
    match v {
        VarValue::Str(t) => t,
        VarValue::Arr(a) => joined(a, seq![' ']),
    }
}

/// A value read as an array: strings are split into their fields.
pub open spec fn value_array(v: VarValue) -> Seq<Seq<char>> {
    match v {
        VarValue::Str(t) => fields(t),
        VarValue::Arr(a) => a,
    }
}

/// A value with another appended: a string takes the other as a string, an
/// array takes its elements.
pub open spec fn value_add(v: VarValue, w: VarValue) -> VarValue {
    match v {
        VarValue::Str(t) => VarValue::Str(t + value_string(w)),
        VarValue::Arr(a) => VarValue::Arr(a + value_array(w)),
    }
}

/// A value with a string appended: a string grows, an array takes it as a
/// new element.
pub open spec fn value_add_str(v: VarValue, s: Seq<char>) -> VarValue {
    match v {
        VarValue::Str(t) => VarValue::Str(t + s),
        VarValue::Arr(a) => VarValue::Arr(a.push(s)),
    }
}

/// The body of a single-quoted shell string: each `'\''` becomes the
/// four characters `'\''`.
pub open spec fn single_quoted_body(t: Seq<char>) -> Seq<char>
    decreases t.len(),
{
    if t.len() == 0 {
        Seq::empty()
    } else {
        single_quoted_body(t.drop_last()) + if t.last() == '\'' {
            seq!['\'', '\\', '\'', '\'']
        } else {
            seq![t.last()]
        }
    }
}

pub open spec fn single_quoted(t: Seq<char>) -> Seq<char> {
    seq!['\''] + single_quoted_body(t) + seq!['\'']
}

/// Single-quoted strings separated by spaces.
pub open spec fn quoted_elements(a: Seq<Seq<char>>) -> Seq<char>
    decreases a.len(),
{
    if a.len() == 0 {
        Seq::empty()
    } else if a.len() == 1 {
        single_quoted(a[0])
    } else {
        quoted_elements(a.drop_last()) + seq![' '] + single_quoted(a.last())
    }
}

/// The shell source text of a value.
pub open spec fn value_source(v: VarValue) -> Seq<char> {
    match v {
        VarValue::Str(t) => single_quoted(t),
        VarValue::Arr(a) => seq!['('] + quoted_elements(a) + seq![')'],
    }
}

pub open spec fn strings_view(v: Seq<String>) -> Seq<Seq<char>> {
    v.map_values(|s: String| s@)
}

/// Value of variables.
#[derive(Debug, PartialEq, Eq, Hash)]
pub enum VariableValue {
    String(String),
    Array(Vec<String>),
}

impl View for VariableValue {
    type V = VarValue;

    open spec fn view(&self) -> VarValue {
        match self {
            VariableValue::String(t) => VarValue::Str(t@),
            VariableValue::Array(a) => VarValue::Arr(strings_view(a@)),
        }
    }
}

/// Copies a list of strings.
pub fn copy_strings(v: &Vec<String>) -> (res: Vec<String>)
    ensures
        strings_view(res@) == strings_view(v@),
{
    let mut res: Vec<String> = Vec::new();
    let mut i: usize = 0;
    while i < v.len()
        invariant
            0 <= i <= v@.len(),
            res@.len() == i,
            forall|j: int| 0 <= j < i ==> (#[trigger] res@[j])@ == v@[j]@,
        decreases v@.len() - i,
    {
        let s = v[i].clone();
        res.push(s);
        i = i + 1;
    }
    assert(strings_view(res@) =~= strings_view(v@));
    res
}

/// Joins strings with a separator.
pub fn join_strings(v: &Vec<String>, sep: &str) -> (res: String)
    ensures
        res@ == joined(strings_view(v@), sep@),
{
    let ghost w = strings_view(v@);
    let mut res = String::new();
    let mut i: usize = 0;
    while i < v.len()
        invariant
            w == strings_view(v@),
            0 <= i <= v@.len(),
            res@ == joined(w.take(i as int), sep@),
        decreases v@.len() - i,
    {
        if i > 0 {
            push_string(&mut res, sep);
        }
        push_string(&mut res, v[i].as_str());
        proof {
            let t = w.take(i + 1);
            assert(t.drop_last() =~= w.take(i as int));
            if i == 0 {
                assert(res@ =~= t[0]);
            }
        }
        i = i + 1;
    }
    assert(w.take(v@.len() as int) =~= w);
    res
}

/// Splits a string into its fields (see [`fields`]).
pub fn split_fields(text: &str) -> (res: Vec<String>)
    ensures
        strings_view(res@) == fields(text@),
{
    let cs = chars_of(text);
    let mut entries: Vec<String> = Vec::new();
    let mut buffer = String::new();
    let mut i: usize = 0;
    while i < cs.len()
        invariant
            cs@ == text@,
            0 <= i <= cs@.len(),
            buffer@.len() > 0 <==> (i > 0 && !is_field_sep(cs@[i - 1])),
            buffer@.len() == 0 ==> strings_view(entries@) == fields(cs@.take(i as int)),
            buffer@.len() > 0 ==> strings_view(entries@).push(buffer@) == fields(
                cs@.take(i as int),
            ),
        decreases cs@.len() - i,
    {
        let c = cs[i];
        let ghost pre = cs@.take(i as int);
        let ghost post = cs@.take(i + 1);
        proof {
            assert(post.drop_last() =~= pre);
            assert(post.last() == c);
            if i > 0 {
                assert(post[post.len() - 2] == cs@[i - 1]);
            }
        }
        if c == ' ' || c == '\t' || c == '\n' {
            if !buffer.as_str().is_empty() {
                let ghost b = buffer@;
                let mut done = String::new();
                std::mem::swap(&mut done, &mut buffer);
                let ghost before = entries@;
                entries.push(done);
                proof {
                    assert(strings_view(entries@) =~= strings_view(before).push(b));
                }
            }
        } else {
            let ghost b = buffer@;
            push_char(&mut buffer, c);
            proof {
                if b.len() > 0 {
                    let f = fields(pre);
                    assert(f =~= strings_view(entries@).push(b));
                    assert(f.update(f.len() - 1, f.last().push(c)) =~= strings_view(entries@).push(
                        buffer@,
                    ));
                } else {
                    assert(buffer@ =~= seq![c]);
                    assert(fields(pre).push(seq![c]) =~= strings_view(entries@).push(buffer@));
                }
            }
        }
        i = i + 1;
    }
    assert(cs@.take(cs@.len() as int) =~= cs@);
    if !buffer.as_str().is_empty() {
        let ghost b = buffer@;
        let ghost before = entries@;
        entries.push(buffer);
        proof {
            assert(strings_view(entries@) =~= strings_view(before).push(b));
        }
    }
    entries
}

/// Appends the single-quoted body of `t` (see [`single_quoted_body`]).
fn push_single_quoted_body(out: &mut String, t: &str)
    ensures
        final(out)@ == old(out)@ + single_quoted_body(t@),
{
    let cs = chars_of(t);
    let mut i: usize = 0;
    while i < cs.len()
        invariant
            cs@ == t@,
            0 <= i <= cs@.len(),
            out@ == old(out)@ + single_quoted_body(cs@.take(i as int)),
        decreases cs@.len() - i,
    {
        let c = cs[i];
        proof {
            assert(cs@.take(i + 1).drop_last() =~= cs@.take(i as int));
        }
        if c == '\'' {
            push_char(out, '\'');
            push_char(out, '\\');
            push_char(out, '\'');
            push_char(out, '\'');
        } else {
            push_char(out, c);
        }
        i = i + 1;
        assert(out@ =~= old(out)@ + single_quoted_body(cs@.take(i as int)));
    }
    assert(cs@.take(cs@.len() as int) =~= cs@);
}

impl VariableValue {
    /// An empty string value.
    pub fn new_empty() -> (res: VariableValue)
        ensures
            res@ == VarValue::Str(Seq::empty()),
    {
        VariableValue::String(String::new())
    }

    /// A string value holding `s`.
    pub fn from_str(s: &str) -> (res: VariableValue)
        ensures
            res@ == VarValue::Str(s@),
    {
        VariableValue::String(s.to_owned())
    }

    /// Copies the value.
    pub fn copy(&self) -> (res: VariableValue)
        ensures
            res@ == self@,
    {
        match self {
            VariableValue::String(t) => VariableValue::String(t.clone()),
            VariableValue::Array(a) => VariableValue::Array(copy_strings(a)),
        }
    }

    /// Returns the value as a string.
    ///
    /// If the value is an array, it is converted into a space-delimited
    /// string.
    pub fn as_string(&self) -> (res: String)
        ensures
            res@ == value_string(self@),
    {
        match self {
            VariableValue::String(text) => text.clone(),
            VariableValue::Array(els) => {
                proof {
                    reveal_strlit(" ");
                    assert(" "@ =~= seq![' ']);
                }
                join_strings(els, " ")
            },
        }
    }

    /// Returns the value as a string, consuming it.
    pub fn into_string(self) -> (res: String)
        ensures
            res@ == value_string(self@),
    {
        match self {
            VariableValue::String(text) => {
                text
            },
            VariableValue::Array(els) => {
                proof {
                    reveal_strlit(" ");
                    assert(" "@ =~= seq![' ']);
                }
                join_strings(&els, " ")
            },
        }
    }

    /// Returns the value as an array.
    ///
    /// A string value is split by spaces, tabs and newlines; an empty string
    /// gives an empty array.
    pub fn as_array(&self) -> (res: Vec<String>)
        ensures
            strings_view(res@) == value_array(self@),
    {
        match self {
            VariableValue::String(text) => split_fields(text.as_str()),
            VariableValue::Array(els) => copy_strings(els),
        }
    }

    /// Returns the value as an array, consuming it.
    pub fn into_array(self) -> (res: Vec<String>)
        ensures
            strings_view(res@) == value_array(self@),
    {
        match self {
            VariableValue::String(text) => split_fields(text.as_str()),
            VariableValue::Array(els) => els,
        }
    }

    /// Returns the length of the string in bytes, or of the array.
    pub fn len(&self) -> (res: usize)
        ensures
            res == match self@ {
                VarValue::Str(t) => vstd::utf8::encode_utf8(t).len() as usize,
                VarValue::Arr(a) => a.len() as usize,
            },
    {
        match self {
            VariableValue::String(text) => text.as_str().len(),
            VariableValue::Array(els) => els.len(),
        }
    }

    /// Returns if the value is empty.
    pub fn is_empty(&self) -> (res: bool)
        ensures
            res == match self@ {
                VarValue::Str(t) => t.len() == 0,
                VarValue::Arr(a) => a.len() == 0,
            },
    {
        match self {
            VariableValue::String(text) => text.as_str().is_empty(),
            VariableValue::Array(els) => els.len() == 0,
        }
    }

    /// The value with another appended (the `+` of values).
    pub fn add_value(self, rhs: &VariableValue) -> (res: VariableValue)
        ensures
            res@ == value_add(self@, rhs@),
    {
        let mut me = self;
        me.append_value(rhs);
        me
    }

    /// The value with a string appended (the `+` of a value and a string).
    pub fn add_str(self, rhs: &str) -> (res: VariableValue)
        ensures
            res@ == value_add_str(self@, rhs@),
    {
        let mut me = self;
        me.append_str(rhs);
        me
    }

    /// Appends another value (the `+=` of values).
    pub fn append_value(&mut self, rhs: &VariableValue)
        ensures
            final(self)@ == value_add(old(self)@, rhs@),
    {
        match self {
            VariableValue::String(val) => {
                let s = rhs.as_string();
                push_string(val, s.as_str());
            },
            VariableValue::Array(val) => {
                let mut more = rhs.as_array();
                let ghost a = val@;
                let ghost b = more@;
                val.append(&mut more);
                proof {
                    assert(strings_view(val@) =~= strings_view(a) + strings_view(b));
                }
            },
        }
    }

    /// Appends a string (the `+=` of a value and a string).
    pub fn append_str(&mut self, rhs: &str)
        ensures
            final(self)@ == value_add_str(old(self)@, rhs@),
    {
        match self {
            VariableValue::String(val) => {
                push_string(val, rhs);
            },
            VariableValue::Array(val) => {
                let ghost a = val@;
                val.push(rhs.to_owned());
                proof {
                    assert(strings_view(val@) =~= strings_view(a).push(rhs@));
                }
            },
        }
    }

    /// Compares the value, read as a string, with `s`.
    pub fn eq_str(&self, s: &str) -> (res: bool)
        ensures
            res == (value_string(self@) == s@),
    {
        let t = self.as_string();
        str_eq(t.as_str(), s)
    }

    /// The shell source text of the value: single-quoted strings, in
    /// parentheses for an array.
    pub fn to_string(&self) -> (res: String)
        ensures
            res@ == value_source(self@),
    {
        let mut out = String::new();
        match self {
            VariableValue::String(val) => {
                push_char(&mut out, '\'');
                push_single_quoted_body(&mut out, val.as_str());
                push_char(&mut out, '\'');
                assert(out@ =~= value_source(self@));
            },
            VariableValue::Array(val) => {
                let ghost w = strings_view(val@);
                push_char(&mut out, '(');
                let mut i: usize = 0;
                while i < val.len()
                    invariant
                        w == strings_view(val@),
                        0 <= i <= val@.len(),
                        out@ == seq!['('] + quoted_elements(w.take(i as int)),
                    decreases val@.len() - i,
                {
                    if i > 0 {
                        push_char(&mut out, ' ');
                    }
                    push_char(&mut out, '\'');
                    push_single_quoted_body(&mut out, val[i].as_str());
                    push_char(&mut out, '\'');
                    proof {
                        let t = w.take(i + 1);
                        assert(t.drop_last() =~= w.take(i as int));
                        assert(t.last() == val@[i as int]@);
                        if i == 0 {
                            assert(out@ =~= seq!['('] + quoted_elements(t));
                        } else {
                            assert(out@ =~= seq!['('] + quoted_elements(t));
                        }
                    }
                    i = i + 1;
                }
                push_char(&mut out, ')');
                assert(w.take(val@.len() as int) =~= w);
                assert(out@ =~= value_source(self@));
            },
        }
        out
    }
}

impl Default for VariableValue {
    fn default() -> (res: VariableValue)
        ensures
            res@ == VarValue::Str(Seq::empty()),
    {
        VariableValue::String(String::new())
    }
}

// ---------------------------------------------------------------------
// The context
// ---------------------------------------------------------------------

pub open spec fn entry_key(e: (String, VariableValue)) -> Seq<char> {
    e.0@
}

/// The variables that a list of entries defines; later entries win.
pub open spec fn entries_map(e: Seq<(String, VariableValue)>) -> Map<Seq<char>, VarValue>
    decreases e.len(),
{
    if e.len() == 0 {
        Map::empty()
    } else {
        entries_map(e.drop_last()).insert(e.last().0@, e.last().1@)
    }
}

/// No name occurs twice among the entries.
pub open spec fn distinct_keys(e: Seq<(String, VariableValue)>) -> bool {
    forall|i: int, j: int|
        0 <= i < e.len() && 0 <= j < e.len() && i != j ==> #[trigger] entry_key(e[i])
            != #[trigger] entry_key(e[j])
}

proof fn lemma_entries_dom(e: Seq<(String, VariableValue)>, k: Seq<char>)
    ensures
        entries_map(e).contains_key(k) <==> exists|i: int| 0 <= i < e.len() && #[trigger] entry_key(e[i]) == k,
    decreases e.len(),
{
    if e.len() > 0 {
        lemma_entries_dom(e.drop_last(), k);
        if k == e.last().0@ {
            assert(entry_key(e[e.len() - 1]) == k);
        }
        if entries_map(e).contains_key(k) && k != e.last().0@ {
            let i = choose|i: int| 0 <= i < e.drop_last().len() && #[trigger] entry_key(e.drop_last()[i]) == k;
            assert(entry_key(e[i]) == k);
        }
        if exists|i: int| 0 <= i < e.len() && #[trigger] entry_key(e[i]) == k {
            let i = choose|i: int| 0 <= i < e.len() && #[trigger] entry_key(e[i]) == k;
            if i < e.len() - 1 {
                assert(entry_key(e.drop_last()[i]) == k);
            }
        }
    }
}

proof fn lemma_entries_lookup(e: Seq<(String, VariableValue)>, i: int)
    requires
        distinct_keys(e),
        0 <= i < e.len(),
    ensures
        entries_map(e).contains_key(e[i].0@),
        entries_map(e)[e[i].0@] == e[i].1@,
    decreases e.len(),
{
    if i < e.len() - 1 {
        let d = e.drop_last();
        assert forall|a: int, b: int|
            0 <= a < d.len() && 0 <= b < d.len() && a != b implies #[trigger] entry_key(d[a])
            != #[trigger] entry_key(d[b]) by {
            assert(entry_key(e[a]) != entry_key(e[b]));
        }
        lemma_entries_lookup(d, i);
        assert(entry_key(e[i]) != entry_key(e[e.len() - 1]));
    }
}

proof fn lemma_distinct_drop_last(e: Seq<(String, VariableValue)>)
    requires
        distinct_keys(e),
        e.len() > 0,
    ensures
        distinct_keys(e.drop_last()),
        !entries_map(e.drop_last()).contains_key(e.last().0@),
{
    let d = e.drop_last();
    assert forall|a: int, b: int|
        0 <= a < d.len() && 0 <= b < d.len() && a != b implies #[trigger] entry_key(d[a])
        != #[trigger] entry_key(d[b]) by {
        assert(entry_key(e[a]) != entry_key(e[b]));
    }
    lemma_entries_dom(d, e.last().0@);
    if entries_map(d).contains_key(e.last().0@) {
        let i = choose|i: int| 0 <= i < d.len() && #[trigger] entry_key(d[i]) == e.last().0@;
        assert(entry_key(e[i]) != entry_key(e[e.len() - 1]));
    }
}

proof fn lemma_entries_update(e: Seq<(String, VariableValue)>, i: int, x: (String, VariableValue))
    requires
        distinct_keys(e),
        0 <= i < e.len(),
        x.0@ == e[i].0@,
    ensures
        distinct_keys(e.update(i, x)),
        entries_map(e.update(i, x)) == entries_map(e).insert(x.0@, x.1@),
    decreases e.len(),
{
    let u = e.update(i, x);
    assert forall|a: int, b: int|
        0 <= a < u.len() && 0 <= b < u.len() && a != b implies #[trigger] entry_key(u[a])
        != #[trigger] entry_key(u[b]) by {
        assert(entry_key(e[a]) != entry_key(e[b]));
    }
    lemma_distinct_drop_last(e);
    if i == e.len() - 1 {
        assert(u.drop_last() =~= e.drop_last());
        assert(entries_map(u) =~= entries_map(e).insert(x.0@, x.1@));
    } else {
        lemma_entries_update(e.drop_last(), i, x);
        assert(u.drop_last() =~= e.drop_last().update(i, x));
        assert(entry_key(e[i]) != entry_key(e[e.len() - 1]));
        assert(entries_map(u) =~= entries_map(e).insert(x.0@, x.1@));
    }
}

proof fn lemma_entries_remove(e: Seq<(String, VariableValue)>, i: int)
    requires
        distinct_keys(e),
        0 <= i < e.len(),
    ensures
        distinct_keys(e.remove(i)),
        entries_map(e.remove(i)) == entries_map(e).remove(e[i].0@),
    decreases e.len(),
{
    let r = e.remove(i);
    assert forall|a: int, b: int|
        0 <= a < r.len() && 0 <= b < r.len() && a != b implies #[trigger] entry_key(r[a])
        != #[trigger] entry_key(r[b]) by {
        let a2 = if a < i { a } else { a + 1 };
        let b2 = if b < i { b } else { b + 1 };
        assert(r[a] == e[a2]);
        assert(r[b] == e[b2]);
        assert(entry_key(e[a2]) != entry_key(e[b2]));
    }
    lemma_distinct_drop_last(e);
    if i == e.len() - 1 {
        assert(r =~= e.drop_last());
        assert(entries_map(r) =~= entries_map(e).remove(e[i].0@));
    } else {
        lemma_entries_remove(e.drop_last(), i);
        assert(r.drop_last() =~= e.drop_last().remove(i));
        assert(r.last() == e.last());
        assert(entry_key(e[i]) != entry_key(e[e.len() - 1]));
        assert(entries_map(r) =~= entries_map(e).remove(e[i].0@));
    }
}

proof fn lemma_entries_push(e: Seq<(String, VariableValue)>, x: (String, VariableValue))
    requires
        distinct_keys(e),
        !entries_map(e).contains_key(x.0@),
    ensures
        distinct_keys(e.push(x)),
        entries_map(e.push(x)) == entries_map(e).insert(x.0@, x.1@),
{
    let p = e.push(x);
    assert(p.drop_last() =~= e);
    assert forall|a: int, b: int|
        0 <= a < p.len() && 0 <= b < p.len() && a != b implies #[trigger] entry_key(p[a])
        != #[trigger] entry_key(p[b]) by {
        if a == e.len() {
            lemma_entries_lookup(e, b);
        } else if b == e.len() {
            lemma_entries_lookup(e, a);
        } else {
            assert(entry_key(e[a]) != entry_key(e[b]));
        }
    }
}

proof fn lemma_same_entries(a: Seq<(String, VariableValue)>, b: Seq<(String, VariableValue)>)
    requires
        a.len() == b.len(),
        forall|j: int| 0 <= j < a.len() ==> (#[trigger] a[j]).0@ == b[j].0@ && a[j].1@ == b[j].1@,
        distinct_keys(b),
    ensures
        distinct_keys(a),
        entries_map(a) == entries_map(b),
    decreases a.len(),
{
    assert forall|x: int, y: int|
        0 <= x < a.len() && 0 <= y < a.len() && x != y implies #[trigger] entry_key(a[x])
        != #[trigger] entry_key(a[y]) by {
        assert(a[x].0@ == b[x].0@);
        assert(a[y].0@ == b[y].0@);
        assert(entry_key(b[x]) != entry_key(b[y]));
    }
    if a.len() > 0 {
        lemma_distinct_drop_last(b);
        let da = a.drop_last();
        let db = b.drop_last();
        assert forall|j: int| 0 <= j < da.len() implies (#[trigger] da[j]).0@ == db[j].0@ && da[j].1@
            == db[j].1@ by {
            assert(a[j].0@ == b[j].0@);
        }
        lemma_same_entries(da, db);
        assert(a[a.len() - 1].0@ == b[b.len() - 1].0@);
    }
}

/// An evaluated APML context: the variables and their values.
#[derive(Debug)]
pub struct ApmlContext {
    variables: Vec<(String, VariableValue)>,
}

impl View for ApmlContext {
    type V = Map<Seq<char>, VarValue>;

    closed spec fn view(&self) -> Map<Seq<char>, VarValue> {
        entries_map(self.variables@)
    }
}

impl ApmlContext {
    /// The context's invariant: no variable is stored twice.
    pub closed spec fn wf(&self) -> bool {
        distinct_keys(self.variables@)
    }

    /// Creates an empty APML context.
    pub fn new() -> (res: ApmlContext)
        ensures
            res.wf(),
            res@ == Map::<Seq<char>, VarValue>::empty(),
    {
        ApmlContext { variables: Vec::new() }
    }

    /// The position of a variable in the store.
    fn find(&self, name: &str) -> (res: Option<usize>)
        requires
            self.wf(),
        ensures
            match res {
                Some(i) => i < self.variables@.len() && self.variables@[i as int].0@ == name@,
                None => !self@.contains_key(name@),
            },
    {
        let mut i: usize = 0;
        while i < self.variables.len()
            invariant
                0 <= i <= self.variables@.len(),
                forall|j: int| 0 <= j < i ==> #[trigger] entry_key(self.variables@[j]) != name@,
            decreases self.variables@.len() - i,
        {
            if str_eq(self.variables[i].0.as_str(), name) {
                return Some(i);
            }
            i = i + 1;
        }
        proof {
            lemma_entries_dom(self.variables@, name@);
        }
        None
    }

    /// Gets a variable value.
    pub fn get(&self, name: &str) -> (res: Option<&VariableValue>)
        requires
            self.wf(),
        ensures
            match res {
                Some(v) => self@.contains_key(name@) && v@ == self@[name@],
                None => !self@.contains_key(name@),
            },
    {
        match self.find(name) {
            Some(i) => {
                proof {
                    lemma_entries_lookup(self.variables@, i as int);
                }
                Some(&self.variables[i].1)
            },
            None => None,
        }
    }

    /// Gets a variable value, or an empty string if it is not defined.
    pub fn read(&self, name: &str) -> (res: VariableValue)
        requires
            self.wf(),
        ensures
            res@ == if self@.contains_key(name@) {
                self@[name@]
            } else {
                VarValue::Str(Seq::empty())
            },
    {
        match self.get(name) {
            Some(v) => v.copy(),
            None => VariableValue::new_empty(),
        }
    }

    /// Returns if a variable is defined.
    pub fn contains_var(&self, name: &str) -> (res: bool)
        requires
            self.wf(),
        ensures
            res == self@.contains_key(name@),
    {
        match self.find(name) {
            Some(i) => {
                proof {
                    lemma_entries_lookup(self.variables@, i as int);
                }
                true
            },
            None => false,
        }
    }

    /// Inserts a variable, replacing its earlier value.
    pub fn insert(&mut self, name: String, value: VariableValue)
        requires
            old(self).wf(),
        ensures
            final(self).wf(),
            final(self)@ == old(self)@.insert(name@, value@),
    {
        match self.find(name.as_str()) {
            Some(i) => {
                let ghost e = self.variables@;
                let ghost x = (name, value);
                proof {
                    lemma_entries_update(e, i as int, x);
                }
                self.variables.set(i, (name, value));
                assert(self.variables@ == e.update(i as int, x));
            },
            None => {
                let ghost e = self.variables@;
                let ghost x = (name, value);
                proof {
                    lemma_entries_push(e, x);
                }
                self.variables.push((name, value));
                assert(self.variables@ == e.push(x));
            },
        }
    }

    /// Removes a variable, returning its value.
    pub fn remove(&mut self, name: &str) -> (res: Option<VariableValue>)
        requires
            old(self).wf(),
        ensures
            final(self).wf(),
            final(self)@ == old(self)@.remove(name@),
            match res {
                Some(v) => old(self)@.contains_key(name@) && v@ == old(self)@[name@],
                None => !old(self)@.contains_key(name@),
            },
    {
        match self.find(name) {
            Some(i) => {
                let ghost e = self.variables@;
                proof {
                    lemma_entries_lookup(e, i as int);
                    lemma_entries_remove(e, i as int);
                }
                let (_, v) = self.variables.remove(i);
                Some(v)
            },
            None => {
                assert(self@ =~= self@.remove(name@));
                None
            },
        }
    }

    /// Gets a variable value for update.
    pub fn get_mut(&mut self, name: &str) -> (res: Option<&mut VariableValue>)
        requires
            old(self).wf(),
        ensures
            match res {
                Some(v) => old(self)@.contains_key(name@) && (*v)@ == old(self)@[name@]
                    && final(self).wf() && final(self)@ == old(self)@.insert(name@, (*final(v))@),
                None => !old(self)@.contains_key(name@) && *final(self) == *old(self),
            },
    {
        match self.find(name) {
            Some(i) => {
                let ghost e = self.variables@;
                proof {
                    lemma_entries_lookup(e, i as int);
                    assert forall|x: (String, VariableValue)| x.0@ == e[i as int].0@ implies distinct_keys(
                        #[trigger] e.update(i as int, x),
                    ) && entries_map(e.update(i as int, x)) == entries_map(e).insert(x.0@, x.1@) by {
                        lemma_entries_update(e, i as int, x);
                    }
                }
                let entry = &mut self.variables[i];
                Some(&mut entry.1)
            },
            None => None,
        }
    }

    /// Gets a variable value; the variable must be defined.
    pub fn index(&self, name: &str) -> (res: &VariableValue)
        requires
            self.wf(),
            self@.contains_key(name@),
        ensures
            res@ == self@[name@],
    {
        self.get(name).unwrap()
    }

    /// All variables with their values.
    pub fn iter(&self) -> (res: Vec<(String, VariableValue)>)
        requires
            self.wf(),
        ensures
            distinct_keys(res@),
            entries_map(res@) == self@,
    {
        let mut res: Vec<(String, VariableValue)> = Vec::new();
        let mut i: usize = 0;
        while i < self.variables.len()
            invariant
                0 <= i <= self.variables@.len(),
                self.wf(),
                res@.len() == i,
                forall|j: int|
                    0 <= j < i ==> (#[trigger] res@[j]).0@ == self.variables@[j].0@ && res@[j].1@
                        == self.variables@[j].1@,
            decreases self.variables@.len() - i,
        {
            let k = self.variables[i].0.clone();
            let v = self.variables[i].1.copy();
            res.push((k, v));
            i = i + 1;
        }
        proof {
            lemma_same_entries(res@, self.variables@);
        }
        res
    }

    /// All variables with their values, consuming the context.
    pub fn into_iter(self) -> (res: Vec<(String, VariableValue)>)
        requires
            self.wf(),
        ensures
            distinct_keys(res@),
            entries_map(res@) == self@,
    {
        self.variables
    }

    /// The names of all variables, each once.
    pub fn keys(&self) -> (res: Vec<String>)
        requires
            self.wf(),
        ensures
            forall|k: Seq<char>|
                self@.contains_key(k) <==> exists|i: int| 0 <= i < res@.len() && (#[trigger] res@[i])@ == k,
            forall|i: int, j: int|
                0 <= i < res@.len() && 0 <= j < res@.len() && i != j ==> (#[trigger] res@[i])@
                    != (#[trigger] res@[j])@,
    {
        let mut res: Vec<String> = Vec::new();
        let mut i: usize = 0;
        while i < self.variables.len()
            invariant
                0 <= i <= self.variables@.len(),
                res@.len() == i,
                forall|j: int| 0 <= j < i ==> (#[trigger] res@[j])@ == entry_key(self.variables@[j]),
            decreases self.variables@.len() - i,
        {
            res.push(self.variables[i].0.clone());
            i = i + 1;
        }
        proof {
            assert forall|k: Seq<char>|
                self@.contains_key(k) <==> exists|i: int| 0 <= i < res@.len() && (#[trigger] res@[i])@ == k by {
                lemma_entries_dom(self.variables@, k);
                if self@.contains_key(k) {
                    let i = choose|i: int| 0 <= i < self.variables@.len() && #[trigger] entry_key(self.variables@[i]) == k;
                    assert(res@[i]@ == k);
                }
                if exists|i: int| 0 <= i < res@.len() && (#[trigger] res@[i])@ == k {
                    let i = choose|i: int| 0 <= i < res@.len() && (#[trigger] res@[i])@ == k;
                    assert(entry_key(self.variables@[i]) == k);
                }
            }
            assert forall|a: int, b: int|
                0 <= a < res@.len() && 0 <= b < res@.len() && a != b implies (#[trigger] res@[a])@
                != (#[trigger] res@[b])@ by {
                assert(entry_key(self.variables@[a]) != entry_key(self.variables@[b]));
            }
        }
        res
    }
}

/// A variable of a context reads back as it was inserted, inserting one
/// leaves the others as they were, and a removed variable is gone while the
/// others stay.
pub proof fn lemma_context_read_write(m: Map<Seq<char>, VarValue>, k: Seq<char>, v: VarValue, j: Seq<char>)
    ensures
        m.insert(k, v).contains_key(k),
        m.insert(k, v)[k] == v,
        j != k ==> m.insert(k, v).contains_key(j) == m.contains_key(j),
        j != k && m.contains_key(j) ==> m.insert(k, v)[j] == m[j],
        !m.remove(k).contains_key(k),
        j != k ==> m.remove(k).contains_key(j) == m.contains_key(j),
        j != k && m.contains_key(j) ==> m.remove(k)[j] == m[j],
{
}

} // verus!
