//! Arrays of strings printed as APML values: a space-delimited string, a
//! collapsed array (several elements per line) or an expanded array (one
//! element per line).
//!
//! Lines are kept under 75 columns where elements allow, counting the bytes
//! of each element.

use vstd::prelude::*;

use super::context::{split_fields, strings_view, fields, copy_strings};
use super::eval::byte_len;
use super::lst;
use super::model;
use super::model::escape_parts;
use super::parser::utf8_len;
use crate::chars::chars_of;

verus! {

/// A word of an element, escaped for double quotes.
pub open spec fn escaped_word(v: Seq<char>) -> model::Word {
    model::Word::Literal(escape_parts(v))
}

/// The words after the element `i` of a string array, when the current
/// line is `line_len` bytes long.
pub open spec fn string_array_rest(vals: Seq<Seq<char>>, i: int, line_len: int) -> Seq<model::Word>
    decreases vals.len() - i,
{
    if i < 0 || i >= vals.len() {
        Seq::empty()
    } else {
        let l = utf8_len(vals[i]) as int;
        if line_len + l > 75 {
            seq![
                model::Word::Literal(
                    seq![model::LiteralPart::LineContinuation, model::LiteralPart::String(seq!['\t'])],
                ),
                escaped_word(vals[i]),
            ] + string_array_rest(vals, i + 1, 6 + l)
        } else {
            seq![
                model::Word::Literal(seq![model::LiteralPart::String(seq![' '])]),
                escaped_word(vals[i]),
            ] + string_array_rest(vals, i + 1, line_len + l + 1)
        }
    }
}

/// The words of a string array: the elements separated by spaces, or by a
/// line continuation and a tab where a line would grow past 75 bytes.
pub open spec fn string_array_words(vals: Seq<Seq<char>>) -> Seq<model::Word> {
    if vals.len() == 0 {
        Seq::empty()
    } else {
        seq![escaped_word(vals[0])] + string_array_rest(vals, 1, 10 + utf8_len(vals[0]) as int)
    }
}

/// A double-quoted element token.
pub open spec fn quoted_element(v: Seq<char>) -> model::ArrayToken {
    model::ArrayToken::Element(model::Text(seq![model::TextUnit::DoubleQuote(seq![escaped_word(v)])]))
}

/// The tokens after the element `i` of a collapsed array.
pub open spec fn collapsed_rest(vals: Seq<Seq<char>>, i: int, line_len: int) -> Seq<model::ArrayToken>
    decreases vals.len() - i,
{
    if i < 0 || i >= vals.len() {
        Seq::empty()
    } else {
        let l = utf8_len(vals[i]) as int;
        if line_len + l > 75 {
            seq![
                model::ArrayToken::Newline,
                model::ArrayToken::Spacy(' '),
                model::ArrayToken::Spacy(' '),
                model::ArrayToken::Spacy(' '),
                model::ArrayToken::Spacy(' '),
                quoted_element(vals[i]),
            ] + collapsed_rest(vals, i + 1, 6 + l)
        } else {
            seq![model::ArrayToken::Spacy(' '), quoted_element(vals[i])] + collapsed_rest(
                vals,
                i + 1,
                line_len + l + 1,
            )
        }
    }
}

/// The tokens of a collapsed array: quoted elements separated by spaces,
/// or by a newline and four spaces where a line would grow past 75 bytes.
pub open spec fn collapsed_tokens(vals: Seq<Seq<char>>) -> Seq<model::ArrayToken> {
    if vals.len() == 0 {
        Seq::empty()
    } else {
        seq![quoted_element(vals[0])] + collapsed_rest(vals, 1, 10 + utf8_len(vals[0]) as int)
    }
}

/// The tokens of an expanded array after element `i`: each element on a
/// line of its own, indented by four spaces.
pub open spec fn expanded_rest(vals: Seq<Seq<char>>, i: int) -> Seq<model::ArrayToken>
    decreases vals.len() - i,
{
    if i < 0 || i >= vals.len() {
        Seq::empty()
    } else {
        seq![
            model::ArrayToken::Spacy(' '),
            model::ArrayToken::Spacy(' '),
            model::ArrayToken::Spacy(' '),
            model::ArrayToken::Spacy(' '),
            quoted_element(vals[i]),
            model::ArrayToken::Newline,
        ] + expanded_rest(vals, i + 1)
    }
}

pub open spec fn expanded_tokens(vals: Seq<Seq<char>>) -> Seq<model::ArrayToken> {
    seq![model::ArrayToken::Newline] + expanded_rest(vals, 0)
}

fn escaped_word_node(v: &String) -> (res: lst::Word)
    ensures
        lst::view_word(res) == escaped_word(v@),
{
    lst::Word::Literal(lst::LiteralPart::escape(v.as_str()))
}

fn quoted_element_node(v: &String) -> (res: lst::ArrayToken)
    ensures
        lst::view_atok(res) == quoted_element(v@),
{
    let mut words: Vec<lst::Word> = Vec::new();
    words.push(escaped_word_node(v));
    let mut units: Vec<lst::TextUnit> = Vec::new();
    units.push(lst::TextUnit::DoubleQuote(words));
    proof {
        lemma_words_push(Seq::empty(), words@[0]);
        assert(Seq::<lst::Word>::empty().push(words@[0]) =~= words@);
        lemma_units_push(Seq::empty(), units@[0]);
        assert(Seq::<lst::TextUnit>::empty().push(units@[0]) =~= units@);
    }
    lst::ArrayToken::Element(Box::new(lst::Text(units)))
}

fn string_literal(c: char) -> (res: lst::LiteralPart)
    ensures
        lst::view_part(res) == model::LiteralPart::String(seq![c]),
{
    let mut s = String::new();
    crate::chars::push_char(&mut s, c);
    assert(s@ =~= seq![c]);
    lst::LiteralPart::String(s)
}

proof fn lemma_words_push(a: Seq<lst::Word>, w: lst::Word)
    ensures
        lst::view_words(a.push(w)) == lst::view_words(a).push(lst::view_word(w)),
{
    assert(a.push(w).drop_last() =~= a);
}

proof fn lemma_units_push(a: Seq<lst::TextUnit>, u: lst::TextUnit)
    ensures
        lst::view_units(a.push(u)) == lst::view_units(a).push(lst::view_unit(u)),
{
    assert(a.push(u).drop_last() =~= a);
}

proof fn lemma_atoks_push(a: Seq<lst::ArrayToken>, t: lst::ArrayToken)
    ensures
        lst::view_atoks(a.push(t)) == lst::view_atoks(a).push(lst::view_atok(t)),
{
    assert(a.push(t).drop_last() =~= a);
}

/// A array-like string delimited with spaces.
#[derive(Debug)]
pub struct StringArray(Vec<String>);

impl View for StringArray {
    type V = Seq<Seq<char>>;

    closed spec fn view(&self) -> Seq<Seq<char>> {
        strings_view(self.0@)
    }
}

impl StringArray {
    /// Creates a string array with the given elements.
    pub fn new(values: Vec<String>) -> (res: StringArray)
        ensures
            res@ == strings_view(values@),
    {
        StringArray(values)
    }

    /// The fields of a string, split at spaces, tabs and newlines.
    pub fn from_text(text: &str) -> (res: StringArray)
        ensures
            res@ == fields(text@),
    {
        StringArray(split_fields(text))
    }

    /// The number of elements.
    pub fn len(&self) -> (res: usize)
        ensures
            res == self@.len(),
    {
        self.0.len()
    }

    /// Formats the string array into an LST text: one double-quoted unit.
    pub fn print(&self) -> (res: lst::Text)
        ensures
            lst::view_text(res) == model::Text(
                seq![model::TextUnit::DoubleQuote(string_array_words(self@))],
            ),
    {
        let ghost vals = self@;
        let mut words: Vec<lst::Word> = Vec::new();
        if self.0.len() > 0 {
            let first = &self.0[0];
            words.push(escaped_word_node(first));
            proof {
                lemma_words_push(Seq::empty(), words@[0]);
                assert(Seq::<lst::Word>::empty().push(words@[0]) =~= words@);
            }
            let cs = chars_of(first.as_str());
            let count = cs.len();
            assert(cs@.len() == count);
            let mut line_len: u128 = 10 + byte_len(&cs);
            let mut i: usize = 1;
            while i < self.0.len()
                invariant
                    vals == self@,
                    1 <= i <= vals.len(),
                    vals.len() == self.0@.len(),
                    line_len <= 10 + 4 * (usize::MAX as u128),
                    lst::view_words(words@) + string_array_rest(vals, i as int, line_len as int)
                        == string_array_words(vals),
                decreases vals.len() - i,
            {
                let v = &self.0[i];
                let cs = chars_of(v.as_str());
                let count = cs.len();
                assert(cs@.len() == count);
                let l = byte_len(&cs);
                let ghost before = words@;
                if line_len + l > 75 {
                    let mut parts: Vec<lst::LiteralPart> = Vec::new();
                    parts.push(lst::LiteralPart::LineContinuation);
                    parts.push(string_literal('\t'));
                    proof {
                        assert(lst::view_parts(parts@) =~= seq![
                            model::LiteralPart::LineContinuation,
                            model::LiteralPart::String(seq!['\t']),
                        ]);
                    }
                    let w1 = lst::Word::Literal(parts);
                    words.push(w1);
                    let w2 = escaped_word_node(v);
                    words.push(w2);
                    proof {
                        lemma_words_push(before, w1);
                        lemma_words_push(before.push(w1), w2);
                        assert(words@ =~= before.push(w1).push(w2));
                    }
                    line_len = 6 + l;
                } else {
                    let mut parts: Vec<lst::LiteralPart> = Vec::new();
                    parts.push(string_literal(' '));
                    proof {
                        assert(lst::view_parts(parts@) =~= seq![model::LiteralPart::String(seq![' '])]);
                    }
                    let w1 = lst::Word::Literal(parts);
                    words.push(w1);
                    let w2 = escaped_word_node(v);
                    words.push(w2);
                    proof {
                        lemma_words_push(before, w1);
                        lemma_words_push(before.push(w1), w2);
                        assert(words@ =~= before.push(w1).push(w2));
                    }
                    line_len = line_len + l + 1;
                }
                i = i + 1;
            }
        }
        let mut units: Vec<lst::TextUnit> = Vec::new();
        let ghost w = words@;
        units.push(lst::TextUnit::DoubleQuote(words));
        proof {
            lemma_units_push(Seq::empty(), units@[0]);
            assert(Seq::<lst::TextUnit>::empty().push(units@[0]) =~= units@);
        }
        lst::Text(units)
    }

    /// The LST value of the string array.
    pub fn to_value(&self) -> (res: lst::VariableValue)
        ensures
            lst::view_value(res) == model::VariableValue::String(
                model::Text(seq![model::TextUnit::DoubleQuote(string_array_words(self@))]),
            ),
    {
        lst::VariableValue::String(Box::new(self.print()))
    }

    /// Unwraps the backing vector.
    pub fn unwrap(self) -> (res: Vec<String>)
        ensures
            strings_view(res@) == self@,
    {
        self.0
    }
}

/// A collapsed array: several elements per line.
#[derive(Debug)]
pub struct CollapsedArray(Vec<String>);

impl View for CollapsedArray {
    type V = Seq<Seq<char>>;

    closed spec fn view(&self) -> Seq<Seq<char>> {
        strings_view(self.0@)
    }
}

impl CollapsedArray {
    /// Creates an array with the given elements.
    pub fn new(values: Vec<String>) -> (res: CollapsedArray)
        ensures
            res@ == strings_view(values@),
    {
        CollapsedArray(values)
    }

    /// The number of elements.
    pub fn len(&self) -> (res: usize)
        ensures
            res == self@.len(),
    {
        self.0.len()
    }

    /// Formats the array into LST array tokens.
    pub fn print(&self) -> (res: Vec<lst::ArrayToken>)
        ensures
            lst::view_atoks(res@) == collapsed_tokens(self@),
    {
        let ghost vals = self@;
        let mut tokens: Vec<lst::ArrayToken> = Vec::new();
        if self.0.len() > 0 {
            let first = &self.0[0];
            tokens.push(quoted_element_node(first));
            proof {
                lemma_atoks_push(Seq::empty(), tokens@[0]);
                assert(Seq::<lst::ArrayToken>::empty().push(tokens@[0]) =~= tokens@);
            }
            let cs = chars_of(first.as_str());
            let count = cs.len();
            assert(cs@.len() == count);
            let mut line_len: u128 = 10 + byte_len(&cs);
            let mut i: usize = 1;
            while i < self.0.len()
                invariant
                    vals == self@,
                    1 <= i <= vals.len(),
                    vals.len() == self.0@.len(),
                    line_len <= 10 + 4 * (usize::MAX as u128),
                    lst::view_atoks(tokens@) + collapsed_rest(vals, i as int, line_len as int)
                        == collapsed_tokens(vals),
                decreases vals.len() - i,
            {
                let v = &self.0[i];
                let cs = chars_of(v.as_str());
                let count = cs.len();
                assert(cs@.len() == count);
                let l = byte_len(&cs);
                let ghost before = tokens@;
                if line_len + l > 75 {
                    let t5 = quoted_element_node(v);
                    tokens.push(lst::ArrayToken::Newline);
                    tokens.push(lst::ArrayToken::Spacy(' '));
                    tokens.push(lst::ArrayToken::Spacy(' '));
                    tokens.push(lst::ArrayToken::Spacy(' '));
                    tokens.push(lst::ArrayToken::Spacy(' '));
                    tokens.push(t5);
                    proof {
                        let sp = lst::ArrayToken::Spacy(' ');
                        let b1 = before.push(lst::ArrayToken::Newline);
                        let b2 = b1.push(sp);
                        let b3 = b2.push(sp);
                        let b4 = b3.push(sp);
                        let b5 = b4.push(sp);
                        lemma_atoks_push(before, lst::ArrayToken::Newline);
                        lemma_atoks_push(b1, sp);
                        lemma_atoks_push(b2, sp);
                        lemma_atoks_push(b3, sp);
                        lemma_atoks_push(b4, sp);
                        lemma_atoks_push(b5, t5);
                        assert(tokens@ =~= b5.push(t5));
                    }
                    line_len = 6 + l;
                } else {
                    let t1 = quoted_element_node(v);
                    tokens.push(lst::ArrayToken::Spacy(' '));
                    tokens.push(t1);
                    proof {
                        let sp = lst::ArrayToken::Spacy(' ');
                        lemma_atoks_push(before, sp);
                        lemma_atoks_push(before.push(sp), t1);
                        assert(tokens@ =~= before.push(sp).push(t1));
                    }
                    line_len = line_len + l + 1;
                }
                i = i + 1;
            }
        }
        tokens
    }

    /// The LST value of the array.
    pub fn to_value(&self) -> (res: lst::VariableValue)
        ensures
            lst::view_value(res) == model::VariableValue::Array(collapsed_tokens(self@)),
    {
        lst::VariableValue::Array(self.print())
    }

    /// Unwraps the backing vector.
    pub fn unwrap(self) -> (res: Vec<String>)
        ensures
            strings_view(res@) == self@,
    {
        self.0
    }
}

/// An expanded array: one element per line.
#[derive(Debug)]
pub struct ExpandedArray(Vec<String>);

impl View for ExpandedArray {
    type V = Seq<Seq<char>>;

    closed spec fn view(&self) -> Seq<Seq<char>> {
        strings_view(self.0@)
    }
}

impl ExpandedArray {
    /// Creates an array with the given elements.
    pub fn new(values: Vec<String>) -> (res: ExpandedArray)
        ensures
            res@ == strings_view(values@),
    {
        ExpandedArray(values)
    }

    /// The number of elements.
    pub fn len(&self) -> (res: usize)
        ensures
            res == self@.len(),
    {
        self.0.len()
    }

    /// Formats the array into LST array tokens.
    pub fn print(&self) -> (res: Vec<lst::ArrayToken>)
        ensures
            lst::view_atoks(res@) == expanded_tokens(self@),
    {
        let ghost vals = self@;
        let mut tokens: Vec<lst::ArrayToken> = Vec::new();
        tokens.push(lst::ArrayToken::Newline);
        proof {
            lemma_atoks_push(Seq::empty(), tokens@[0]);
            assert(Seq::<lst::ArrayToken>::empty().push(tokens@[0]) =~= tokens@);
        }
        let mut i: usize = 0;
        while i < self.0.len()
            invariant
                vals == self@,
                0 <= i <= vals.len(),
                vals.len() == self.0@.len(),
                lst::view_atoks(tokens@) + expanded_rest(vals, i as int) == expanded_tokens(vals),
            decreases vals.len() - i,
        {
            let v = &self.0[i];
            let ghost before = tokens@;
            let t4 = quoted_element_node(v);
            tokens.push(lst::ArrayToken::Spacy(' '));
            tokens.push(lst::ArrayToken::Spacy(' '));
            tokens.push(lst::ArrayToken::Spacy(' '));
            tokens.push(lst::ArrayToken::Spacy(' '));
            tokens.push(t4);
            tokens.push(lst::ArrayToken::Newline);
            proof {
                let sp = lst::ArrayToken::Spacy(' ');
                let b1 = before.push(sp);
                let b2 = b1.push(sp);
                let b3 = b2.push(sp);
                let b4 = b3.push(sp);
                let b5 = b4.push(t4);
                lemma_atoks_push(before, sp);
                lemma_atoks_push(b1, sp);
                lemma_atoks_push(b2, sp);
                lemma_atoks_push(b3, sp);
                lemma_atoks_push(b4, t4);
                lemma_atoks_push(b5, lst::ArrayToken::Newline);
                assert(tokens@ =~= b5.push(lst::ArrayToken::Newline));
            }
            i = i + 1;
        }
        proof {
            assert(lst::view_atoks(tokens@) + expanded_rest(vals, i as int) =~= lst::view_atoks(
                tokens@,
            ));
        }
        tokens
    }

    /// The LST value of the array.
    pub fn to_value(&self) -> (res: lst::VariableValue)
        ensures
            lst::view_value(res) == model::VariableValue::Array(expanded_tokens(self@)),
    {
        lst::VariableValue::Array(self.print())
    }

    /// Unwraps the backing vector.
    pub fn unwrap(self) -> (res: Vec<String>)
        ensures
            strings_view(res@) == self@,
    {
        self.0
    }
}

} // verus!
