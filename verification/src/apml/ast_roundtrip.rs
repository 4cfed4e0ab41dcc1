//! Emitting a lowered AST gives it back.

use vstd::prelude::*;

use super::ast::{
    emit_ast, emit_array_run, emit_defs_run, emit_elem, emit_modifier, emit_text, emit_value,
    emit_word, emit_words, inclusion_name, inclusion_text, lemma_emit_array_push,
    lemma_emit_defs_push, lemma_emit_units_push, lemma_emit_words_push, lemma_lower_words_push,
    lower_ast, lower_def, lower_defs, lower_elem, lower_elems, lower_modifier, lower_text, lower_value,
    lower_word, lower_words, AstDefinition, AstElement, AstModel, AstModifier, AstText, AstValue,
    AstWord, EmitError,
};
use super::model as lm;

verus! {

// ---------------------------------------------------------------------
// Emitting undoes lowering
// ---------------------------------------------------------------------

/// A word that lowering keeps: sub-commands lower into literal text, so
/// they come back as literals.
pub open spec fn plain_word(w: AstWord) -> bool
    decreases w,
{
    match w {
        AstWord::Literal(_) => true,
        AstWord::Variable(e) => match e.modifier {
            None => true,
            Some(m) => plain_modifier(m),
        },
        AstWord::Subcommand(_) => false,
    }
}

pub open spec fn plain_words(ws: Seq<AstWord>) -> bool
    decreases ws,
{
    if ws.len() == 0 {
        true
    } else {
        plain_words(ws.drop_last()) && plain_word(ws.last())
    }
}

pub open spec fn plain_text(t: AstText) -> bool
    decreases t,
{
    plain_words(t.0)
}

/// A modifier that lowering keeps: substring bounds within `isize`.
pub open spec fn plain_modifier(m: AstModifier) -> bool
    decreases m,
{
    match m {
        AstModifier::Substring { offset, length } => 0 <= offset <= isize::MAX && match length {
            Some(l) => isize::MIN <= l <= isize::MAX,
            None => true,
        },
        AstModifier::ReplaceOnce { pattern, string } => plain_text(string),
        AstModifier::ReplaceAll { pattern, string } => plain_text(string),
        AstModifier::ReplacePrefix { pattern, string } => plain_text(string),
        AstModifier::ReplaceSuffix { pattern, string } => plain_text(string),
        AstModifier::ErrorOnUnset(t) => plain_text(t),
        AstModifier::WhenUnset(t) => plain_text(t),
        AstModifier::WhenSet(t) => plain_text(t),
        _ => true,
    }
}

pub open spec fn plain_elem(e: AstElement) -> bool {
    match e {
        AstElement::ArrayInclusion(_) => true,
        AstElement::Text(t) => plain_text(t),
    }
}

pub open spec fn plain_value(v: AstValue) -> bool {
    match v {
        AstValue::String(t) => plain_text(t),
        AstValue::Array(es) => forall|i: int| 0 <= i < es.len() ==> plain_elem(#[trigger] es[i]),
    }
}

/// An AST that lowering keeps: no sub-command words and substring bounds
/// within `isize`.
pub open spec fn plain_ast(a: AstModel) -> bool {
    forall|i: int| 0 <= i < a.0.len() ==> plain_value((#[trigger] a.0[i]).value)
}

proof fn lemma_word_roundtrip(w: AstWord)
    requires
        plain_word(w),
    ensures
        emit_word(lower_word(w)) == Ok::<AstWord, EmitError>(w),
    decreases w, 0int,
{
    match w {
        AstWord::Literal(t) => {
            lm::lemma_escape_parts(t);
        },
        AstWord::Variable(e) => {
            match e.modifier {
                Some(m) => {
                    lemma_modifier_roundtrip(m);
                },
                None => {},
            }
        },
        AstWord::Subcommand(_) => {},
    }
}

proof fn lemma_words_roundtrip(ws: Seq<AstWord>)
    requires
        plain_words(ws),
    ensures
        emit_words(lower_words(ws)) == Ok::<Seq<AstWord>, EmitError>(ws),
    decreases ws, 0int,
{
    if ws.len() == 0 {
        assert(ws =~= Seq::<AstWord>::empty());
        assert(lower_words(ws) =~= Seq::<lm::Word>::empty());
    } else {
        let d = ws.drop_last();
        lemma_words_roundtrip(d);
        assert(decreases_to!(ws => ws[ws.len() - 1]));
        lemma_word_roundtrip(ws.last());
        assert(lower_words(ws) == lower_words(d).push(lower_word(ws.last())));
        lemma_emit_words_push(lower_words(d), lower_word(ws.last()));
        assert(emit_words(lower_words(d)) == Ok::<Seq<AstWord>, EmitError>(d));
        assert(emit_word(lower_word(ws.last())) == Ok::<AstWord, EmitError>(ws.last()));
        assert(d.push(ws.last()) =~= ws);
        assert(emit_words(lower_words(ws)) == Ok::<Seq<AstWord>, EmitError>(d.push(ws.last())));
    }
}

proof fn lemma_text_roundtrip(t: AstText)
    requires
        plain_text(t),
    ensures
        emit_text(lower_text(t)) == Ok::<AstText, EmitError>(t),
    decreases t, 0int,
{
    lemma_words_roundtrip(t.0);
    let u = lm::TextUnit::DoubleQuote(lower_words(t.0));
    lemma_emit_units_push(Seq::<lm::TextUnit>::empty(), u);
    assert(Seq::<lm::TextUnit>::empty().push(u) =~= seq![u]);
    assert(Seq::<AstWord>::empty() + t.0 =~= t.0);
}

#[verifier::spinoff_prover]
#[verifier::rlimit(60)]
proof fn lemma_modifier_roundtrip(m: AstModifier)
    requires
        plain_modifier(m),
    ensures
        emit_modifier(lower_modifier(m)) == Ok::<AstModifier, EmitError>(m),
    decreases m, 0int,
{
    match m {
        AstModifier::Substring { offset, length } => {
            crate::num::lemma_parse_signed_decimal(offset);
            match length {
                Some(l) => {
                    crate::num::lemma_parse_signed_decimal(l);
                },
                None => {},
            }
        },
        AstModifier::ReplaceOnce { pattern, string } => {
            lemma_text_roundtrip(string);
        },
        AstModifier::ReplaceAll { pattern, string } => {
            lemma_text_roundtrip(string);
        },
        AstModifier::ReplacePrefix { pattern, string } => {
            lemma_text_roundtrip(string);
        },
        AstModifier::ReplaceSuffix { pattern, string } => {
            lemma_text_roundtrip(string);
        },
        AstModifier::ErrorOnUnset(t) => {
            lemma_text_roundtrip(t);
        },
        AstModifier::WhenUnset(t) => {
            lemma_text_roundtrip(t);
        },
        AstModifier::WhenSet(t) => {
            lemma_text_roundtrip(t);
        },
        _ => {},
    }
}

proof fn lemma_elem_roundtrip(e: AstElement)
    requires
        plain_elem(e),
    ensures
        emit_elem(lower_elem(e)) == Ok::<AstElement, EmitError>(e),
{
    match e {
        AstElement::ArrayInclusion(n) => {
            let t = inclusion_text(n);
            assert(t.0[0] == lm::TextUnit::DoubleQuote(
                seq![
                    lm::Word::BracedVariable(
                        lm::BracedExpansion {
                            name: n,
                            modifier: Some(lm::ExpansionModifier::ArrayElements),
                        },
                    ),
                ],
            ));
        },
        AstElement::Text(t) => {
            lemma_text_roundtrip(t);
            let lt = lower_text(t);
            if t.0.len() == 1 {
                assert(t.0 =~= Seq::<AstWord>::empty().push(t.0[0]));
                lemma_lower_words_push(Seq::<AstWord>::empty(), t.0[0]);
                assert(lower_words(t.0)[0] == lower_word(t.0[0]));
                match t.0[0] {
                    AstWord::Variable(x) => match x.modifier {
                        Some(m) => {
                            assert(!(lower_modifier(m) is ArrayElements));
                        },
                        None => {},
                    },
                    _ => {},
                }
            }
            assert(inclusion_name(lt) is None);
        },
    }
}

#[verifier::spinoff_prover]
#[verifier::rlimit(60)]
proof fn lemma_elems_roundtrip(es: Seq<AstElement>)
    requires
        forall|i: int| 0 <= i < es.len() ==> plain_elem(#[trigger] es[i]),
    ensures
        emit_array_run(lower_elems(es)) == Ok::<(Seq<AstElement>, int), EmitError>(
            (
                es,
                if es.len() == 0 {
                    0
                } else {
                    1
                },
            ),
        ),
    decreases es.len(),
{
    if es.len() == 0 {
        assert(es =~= Seq::<AstElement>::empty());
    } else if es.len() == 1 {
        let x = lower_elem(es[0]);
        lemma_elem_roundtrip(es[0]);
        lemma_emit_array_push(Seq::<lm::ArrayToken>::empty(), x);
        assert(Seq::<lm::ArrayToken>::empty().push(x) =~= seq![x]);
        assert(Seq::<AstElement>::empty().push(es[0]) =~= es);
    } else if es.len() >= 2 {
        let d = es.drop_last();
        lemma_elems_roundtrip(d);
        let sp = lm::ArrayToken::Spacy(' ');
        let x = lower_elem(es.last());
        lemma_elem_roundtrip(es[es.len() - 1]);
        lemma_emit_array_push(lower_elems(d), sp);
        lemma_emit_array_push(lower_elems(d).push(sp), x);
        assert(lower_elems(es) == lower_elems(d).push(sp).push(x));
        assert(emit_array_run(lower_elems(d).push(sp)) == Ok::<(Seq<AstElement>, int), EmitError>(
            (d, 0),
        ));
        assert(emit_elem(x) == Ok::<AstElement, EmitError>(es.last()));
        assert(d.push(es.last()) =~= es);
    }
}

proof fn lemma_value_roundtrip(v: AstValue)
    requires
        plain_value(v),
    ensures
        emit_value(lower_value(v)) == Ok::<AstValue, EmitError>(v),
{
    match v {
        AstValue::String(t) => {
            lemma_text_roundtrip(t);
        },
        AstValue::Array(es) => {
            lemma_elems_roundtrip(es);
        },
    }
}

#[verifier::spinoff_prover]
#[verifier::rlimit(60)]
proof fn lemma_defs_roundtrip(ds: Seq<AstDefinition>)
    requires
        forall|i: int| 0 <= i < ds.len() ==> plain_value((#[trigger] ds[i]).value),
    ensures
        emit_defs_run(lower_defs(ds)) == Ok::<(Seq<AstDefinition>, int), EmitError>(
            (
                ds,
                if ds.len() == 0 {
                    0
                } else {
                    1
                },
            ),
        ),
    decreases ds.len(),
{
    if ds.len() == 0 {
        assert(ds =~= Seq::<AstDefinition>::empty());
    } else if ds.len() == 1 {
        let x = lm::Token::Variable(lower_def(ds[0]));
        lemma_value_roundtrip(ds[0].value);
        lemma_emit_defs_push(Seq::<lm::Token>::empty(), x);
        assert(Seq::<lm::Token>::empty().push(x) =~= seq![x]);
        assert(Seq::<AstDefinition>::empty().push(ds[0]) =~= ds);
    } else if ds.len() >= 2 {
        let d = ds.drop_last();
        assert forall|i: int| 0 <= i < d.len() implies plain_value((#[trigger] d[i]).value) by {
            assert(d[i] == ds[i]);
        }
        lemma_defs_roundtrip(d);
        let x = lm::Token::Variable(lower_def(ds.last()));
        lemma_value_roundtrip(ds[ds.len() - 1].value);
        lemma_emit_defs_push(lower_defs(d), lm::Token::Newline);
        lemma_emit_defs_push(lower_defs(d).push(lm::Token::Newline), x);
        assert(lower_defs(ds) == lower_defs(d).push(lm::Token::Newline).push(x));
        assert(emit_defs_run(lower_defs(d).push(lm::Token::Newline)) == Ok::<
            (Seq<AstDefinition>, int),
            EmitError,
        >((d, 0)));
        assert(d.push(ds.last()) =~= ds);
    }
}

/// Emitting a lowered AST gives the AST back, for every AST without
/// sub-command words (those come back as literals) whose substring bounds
/// fit in `isize`.
pub proof fn lemma_emit_lower(a: AstModel)
    requires
        plain_ast(a),
    ensures
        emit_ast(lower_ast(a)) == Ok::<AstModel, EmitError>(a),
{
    lemma_defs_roundtrip(a.0);
}

} // verus!
