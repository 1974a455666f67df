//! The laws that tie the parser, the formatter and the diagnostics together.

use crate::diag::FailureView;
use crate::error::{message, ParseErrorView};
use crate::format::{document, fmt_expr};
use crate::grammar::{parse_body_spec, parse_expression_spec, skip_space};
use crate::model::{valid_body, valid_expr, ExprModel, MAX_DEPTH, StructureModel};
use crate::parser::{body_outcome, expression_outcome};
use crate::readback::lemma_first;
use crate::readback_body::lemma_body;
use crate::readback_expr::lemma_expr;
use crate::roundtrip::{lemma_at, lemma_skip_none};
use crate::sound::{lemma_sound_body, lemma_sound_expr};
use crate::text::CharClass;
use vstd::prelude::*;

verus! {

/// Round trip of documents: parsing the text of a valid body succeeds and
/// gives that body.
pub proof fn law_round_trip(body: Seq<StructureModel>)
    requires
        valid_body(body, MAX_DEPTH as nat),
    ensures
        parse_body_spec(document(body)) == Ok::<Seq<StructureModel>, FailureView>(body),
        body_outcome(document(body)) == Ok::<Seq<StructureModel>, ParseErrorView>(body),
{
    let s = document(body);
    assert(s + Seq::<char>::empty() =~= s);
    assert(body.take(0) =~= Seq::<StructureModel>::empty());
    lemma_body(s, 0, MAX_DEPTH as nat, body, 0, Seq::empty(), None);
}

/// Round trip of expressions: parsing the text of a valid expression
/// succeeds and gives that expression.
pub proof fn law_round_trip_expression(e: ExprModel)
    requires
        valid_expr(e, MAX_DEPTH as nat),
    ensures
        parse_expression_spec(fmt_expr(e, Some(Seq::empty()))) == Ok::<ExprModel, FailureView>(e),
        expression_outcome(fmt_expr(e, Some(Seq::empty()))) == Ok::<ExprModel, ParseErrorView>(e),
{
    let wide = Some(Seq::<char>::empty());
    let s = fmt_expr(e, wide);
    lemma_first(e, MAX_DEPTH as nat, wide);
    lemma_at(s, 0, s, 0);
    lemma_skip_none(s, 0, CharClass::Space);
    lemma_expr(s, 0, MAX_DEPTH as nat, e, wide);
    lemma_skip_none(s, s.len() as int, CharClass::Space);
}

/// Formatting is idempotent: the text of what is parsed from the text of a
/// valid body is that text again.
pub proof fn law_format_idempotent(body: Seq<StructureModel>)
    requires
        valid_body(body, MAX_DEPTH as nat),
    ensures
        parse_body_spec(document(body)) is Ok,
        document(parse_body_spec(document(body))->Ok_0) == document(body),
{
    law_round_trip(body);
}

/// Formatting expressions is idempotent.
pub proof fn law_format_idempotent_expression(e: ExprModel)
    requires
        valid_expr(e, MAX_DEPTH as nat),
    ensures
        parse_expression_spec(fmt_expr(e, Some(Seq::empty()))) is Ok,
        fmt_expr(parse_expression_spec(fmt_expr(e, Some(Seq::empty())))->Ok_0, Some(Seq::empty())) == fmt_expr(
            e,
            Some(Seq::empty()),
        ),
{
    law_round_trip_expression(e);
}

/// Errors are determined by the input: two parse errors that are reported
/// for the same text are the same error and have the same message.
pub proof fn law_error_determinism(text: Seq<char>, first: ParseErrorView, second: ParseErrorView)
    requires
        body_outcome(text) == Err::<Seq<StructureModel>, ParseErrorView>(first),
        body_outcome(text) == Err::<Seq<StructureModel>, ParseErrorView>(second),
    ensures
        first == second,
        message(first) == message(second),
{
}

/// Errors of expressions are determined by the input.
pub proof fn law_error_determinism_expression(text: Seq<char>, first: ParseErrorView, second: ParseErrorView)
    requires
        expression_outcome(text) == Err::<ExprModel, ParseErrorView>(first),
        expression_outcome(text) == Err::<ExprModel, ParseErrorView>(second),
    ensures
        first == second,
        message(first) == message(second),
{
}

/// What is parsed is valid: a body that the parser returns is a tree of the
/// grammar that nests no deeper than the parser follows.
pub proof fn law_parsed_is_valid(text: Seq<char>)
    ensures
        parse_body_spec(text) matches Ok(body) ==> valid_body(body, MAX_DEPTH as nat),
        body_outcome(text) matches Ok(body) ==> valid_body(body, MAX_DEPTH as nat),
{
    lemma_sound_body(text, 0, MAX_DEPTH as nat, false, Seq::empty());
}

/// An expression that the parser returns is valid.
pub proof fn law_parsed_expression_is_valid(text: Seq<char>)
    ensures
        parse_expression_spec(text) matches Ok(e) ==> valid_expr(e, MAX_DEPTH as nat),
        expression_outcome(text) matches Ok(e) ==> valid_expr(e, MAX_DEPTH as nat),
{
    lemma_sound_expr(text, skip_space(text, 0), MAX_DEPTH as nat);
}

/// What was parsed is read back from its text: for every text that is a
/// document, the canonical text of the body it holds is a document that
/// holds the same body.
pub proof fn law_reparse(text: Seq<char>)
    ensures
        parse_body_spec(text) matches Ok(body) ==> parse_body_spec(document(body)) == Ok::<
            Seq<StructureModel>,
            FailureView,
        >(body),
{
    law_parsed_is_valid(text);
    match parse_body_spec(text) {
        Ok(body) => {
            law_round_trip(body);
        },
        Err(_) => {},
    }
}

/// What was parsed as an expression is read back from its text.
pub proof fn law_reparse_expression(text: Seq<char>)
    ensures
        parse_expression_spec(text) matches Ok(e) ==> parse_expression_spec(fmt_expr(e, Some(Seq::empty())))
            == Ok::<ExprModel, FailureView>(e),
{
    law_parsed_expression_is_valid(text);
    match parse_expression_spec(text) {
        Ok(e) => {
            law_round_trip_expression(e);
        },
        Err(_) => {},
    }
}

/// The valid bodies are the bodies of documents: a body is valid exactly
/// if some text is parsed to it.
pub proof fn law_valid_is_parsed(body: Seq<StructureModel>)
    ensures
        valid_body(body, MAX_DEPTH as nat) <==> exists|text: Seq<char>| #[trigger]
            parse_body_spec(text) == Ok::<Seq<StructureModel>, FailureView>(body),
{
    if valid_body(body, MAX_DEPTH as nat) {
        law_round_trip(body);
        assert(parse_body_spec(document(body)) == Ok::<Seq<StructureModel>, FailureView>(body));
    }
    if exists|text: Seq<char>| #[trigger] parse_body_spec(text) == Ok::<Seq<StructureModel>, FailureView>(body) {
        let text = choose|text: Seq<char>| #[trigger]
            parse_body_spec(text) == Ok::<Seq<StructureModel>, FailureView>(body);
        law_parsed_is_valid(text);
    }
}

} // verus!
