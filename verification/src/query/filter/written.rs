//! How a filter is written, and that it is read back.

use crate::query::filter::bounds::height_of;
use crate::query::filter::bounds::heights_of;
use crate::query::filter::bounds::size_of;
use crate::query::filter::bounds::sizes_of;
use crate::query::filter::lexer::Mark;
use crate::query::filter::lexer::TextModel;
use crate::query::filter::lexer::Tok;
use crate::query::filter::meaning::op_holds;
use crate::query::filter::parser::compare_op;
use crate::query::filter::parser::field_named;
use crate::query::filter::parser::mark_at;
use crate::query::filter::parser::parse_at;
use crate::query::filter::parser::parse_children;
use crate::query::filter::parser::parse_inside;
use crate::query::filter::parser::parse_tokens;
use crate::query::filter::parser::want_field_list;
use crate::query::filter::parser::want_field_value;
use crate::query::filter::parser::want_list;
use crate::query::filter::parser::want_scoped_text;
use crate::query::filter::parser::want_text;
use crate::query::filter::parser::want_value;
use crate::query::filter::parser::want_values;
use crate::query::filter::CompareOp;
use crate::query::filter::Fault;
use crate::query::filter::Filter;
use crate::query::filter::FilterField;
use crate::query::filter::Operand;
use crate::query::filter::MAX_FILTER_DEPTH;
use crate::query::filter::MAX_FILTER_NODES;
use crate::text::lower;
use vstd::prelude::*;

verus! {

/// The word for a field.
pub open spec fn field_word(field: FilterField) -> Seq<char> {
    match field {
        FilterField::Id => "id"@,
        FilterField::Name => "name"@,
        FilterField::ProjectName => "project_name"@,
        FilterField::RunType => "run_type"@,
        FilterField::Status => "status"@,
        FilterField::Error => "error"@,
        FilterField::StartTime => "start_time"@,
        FilterField::EndTime => "end_time"@,
        FilterField::Latency => "latency"@,
        FilterField::Tags => "tags"@,
        FilterField::MetadataKey => "metadata_key"@,
        FilterField::MetadataValue => "metadata_value"@,
        FilterField::FeedbackKey => "feedback_key"@,
        FilterField::FeedbackScore => "feedback_score"@,
        FilterField::FeedbackValue => "feedback_value"@,
        FilterField::IsRoot => "is_root"@,
        FilterField::TraceId => "trace_id"@,
        FilterField::RootRunId => "root_run_id"@,
        FilterField::RootSpanId => "root_span_id"@,
        FilterField::ModelName => "model_name"@,
        FilterField::ProviderName => "provider_name"@,
        FilterField::PromptTokens => "prompt_tokens"@,
        FilterField::CompletionTokens => "completion_tokens"@,
        FilterField::TotalTokens => "total_tokens"@,
        FilterField::TotalCost => "total_cost"@,
        FilterField::Inputs => "inputs"@,
        FilterField::Outputs => "outputs"@,
        FilterField::Extra => "extra"@,
        FilterField::AttributesJson => "attributes_json"@,
    }
}

/// The word for a comparison.
pub open spec fn op_word(op: CompareOp) -> Seq<char> {
    match op {
        CompareOp::Eq => "eq"@,
        CompareOp::Neq => "neq"@,
        CompareOp::Gt => "gt"@,
        CompareOp::Gte => "gte"@,
        CompareOp::Lt => "lt"@,
        CompareOp::Lte => "lte"@,
    }
}

/// How a value is written.
pub open spec fn written_value(value: Operand) -> Tok {
    match value {
        Operand::Text(text) => Tok::Text(text),
        Operand::Number(reading) => Tok::Number(reading),
        Operand::Bool(b) => if b {
            Tok::Ident("true"@)
        } else {
            Tok::Ident("false"@)
        },
    }
}

/// How a text is written.
pub open spec fn written_text(text: Seq<char>) -> Tok {
    Tok::Text(TextModel { text, number: None, seconds: None })
}

/// How values are written, with commas between them.
pub open spec fn written_values(values: Seq<Operand>) -> Seq<Tok>
    decreases values.len(),
{
    if values.len() == 0 {
        Seq::empty()
    } else if values.len() == 1 {
        seq![written_value(values[0])]
    } else {
        seq![written_value(values[0]), Tok::Mark(Mark::Comma)] + written_values(values.skip(1))
    }
}

/// How a field and a value are written.
pub open spec fn written_pair(field: FilterField, value: Operand) -> Seq<Tok> {
    seq![Tok::Ident(field_word(field)), Tok::Mark(Mark::Comma), written_value(value)]
}

/// How a text is written, behind a field if there is one.
pub open spec fn written_scoped(field: Option<FilterField>, text: Seq<char>) -> Seq<Tok> {
    match field {
        Some(f) => seq![Tok::Ident(field_word(f)), Tok::Mark(Mark::Comma), written_text(text)],
        None => seq![written_text(text)],
    }
}

/// How a call is written.
pub open spec fn written_call(word: Seq<char>, inside: Seq<Tok>) -> Seq<Tok> {
    seq![Tok::Ident(word), Tok::Mark(Mark::LParen)] + inside + seq![Tok::Mark(Mark::RParen)]
}

/// How a filter is written.
pub open spec fn written(filter: Filter) -> Seq<Tok>
    decreases filter,
{
    match filter {
        Filter::And(filters) => written_call("and"@, written_all(filters)),
        Filter::Or(filters) => written_call("or"@, written_all(filters)),
        Filter::Compare { op, field, value } => written_call(
            op_word(op),
            written_pair(field, value),
        ),
        Filter::Has { field, value } => written_call("has"@, written_pair(field, value)),
        Filter::In { field, values } => written_call(
            "in"@,
            seq![
                Tok::Ident(field_word(field)),
                Tok::Mark(Mark::Comma),
                Tok::Mark(Mark::LBracket),
            ] + written_values(values) + seq![Tok::Mark(Mark::RBracket)],
        ),
        Filter::Contains { field, value, negated } => written_call(
            if negated {
                "does_not_contain"@
            } else {
                "contains"@
            },
            written_pair(field, value),
        ),
        Filter::Search { field, query } => written_call("search"@, written_scoped(field, query)),
        Filter::JsonKey { field, pattern } => written_call(
            "json_key"@,
            written_scoped(field, pattern),
        ),
        Filter::JsonKeySearch { field, path, query } => written_call(
            "json_key_search"@,
            written_scoped(field, path) + seq![Tok::Mark(Mark::Comma), written_text(query)],
        ),
    }
}

/// How filters are written, with commas between them.
pub open spec fn written_all(filters: Seq<Filter>) -> Seq<Tok>
    decreases filters,
{
    if filters.len() == 0 {
        Seq::empty()
    } else {
        let rest = filters.subrange(1, filters.len() as int);
        if rest.len() == 0 {
            written(filters[0])
        } else {
            written(filters[0]) + seq![Tok::Mark(Mark::Comma)] + written_all(rest)
        }
    }
}

/// Whether tokens stand in a row of them from a place on.
pub open spec fn stand_at(tokens: Seq<Tok>, at: int, piece: Seq<Tok>) -> bool {
    &&& 0 <= at
    &&& at + piece.len() <= tokens.len()
    &&& forall|i: int| 0 <= i < piece.len() ==> #[trigger] piece[i] == tokens[at + i]
}

proof fn lemma_two_pieces(tokens: Seq<Tok>, at: int, a: Seq<Tok>, b: Seq<Tok>)
    requires
        stand_at(tokens, at, a + b),
    ensures
        stand_at(tokens, at, a),
        stand_at(tokens, at + a.len(), b),
{
    assert forall|i: int| 0 <= i < a.len() implies #[trigger] a[i] == tokens[at + i] by {
        assert((a + b)[i] == a[i]);
    }
    assert forall|i: int| 0 <= i < b.len() implies #[trigger] b[i] == tokens[at + a.len() + i] by {
        assert((a + b)[a.len() + i] == b[i]);
    }
}

proof fn lemma_is_lower(word: Seq<char>)
    requires
        forall|i: int| 0 <= i < word.len() ==> !('A' <= #[trigger] word[i] <= 'Z'),
    ensures
        lower(word) == word,
{
    assert(lower(word) =~= word);
}

/// The word for a field is read as the field.
pub proof fn law_field_is_read_back(field: FilterField)
    ensures
        field_named(field_word(field)) == Some(field),
{
    reveal_strlit("id");
    reveal_strlit("name");
    reveal_strlit("project_name");
    reveal_strlit("run_type");
    reveal_strlit("status");
    reveal_strlit("error");
    reveal_strlit("start_time");
    reveal_strlit("end_time");
    reveal_strlit("latency");
    reveal_strlit("tags");
    reveal_strlit("metadata_key");
    reveal_strlit("metadata_value");
    reveal_strlit("feedback_key");
    reveal_strlit("feedback_score");
    reveal_strlit("feedback_value");
    reveal_strlit("is_root");
    reveal_strlit("trace_id");
    reveal_strlit("root_run_id");
    reveal_strlit("root_span_id");
    reveal_strlit("model_name");
    reveal_strlit("provider_name");
    reveal_strlit("prompt_tokens");
    reveal_strlit("completion_tokens");
    reveal_strlit("total_tokens");
    reveal_strlit("total_cost");
    reveal_strlit("inputs");
    reveal_strlit("outputs");
    reveal_strlit("extra");
    reveal_strlit("attributes_json");
    reveal_strlit("run_id");
    reveal_strlit("session");
    reveal_strlit("session_name");
    reveal_strlit("trace");
    reveal_strlit("model");
    reveal_strlit("ls_model_name");
    reveal_strlit("provider");
    reveal_strlit("ls_provider");
    assert("id"@.len() == 2);
    assert("name"@.len() == 4 && "name"@[0] == 'n');
    assert("project_name"@.len() == 12 && "project_name"@[0] == 'p');
    assert("run_type"@.len() == 8 && "run_type"@[0] == 'r');
    assert("status"@.len() == 6 && "status"@[0] == 's');
    assert("error"@.len() == 5 && "error"@[2] == 'r');
    assert("start_time"@.len() == 10 && "start_time"@[0] == 's');
    assert("end_time"@.len() == 8 && "end_time"@[0] == 'e');
    assert("latency"@.len() == 7 && "latency"@[0] == 'l');
    assert("tags"@.len() == 4 && "tags"@[0] == 't');
    assert("metadata_key"@.len() == 12 && "metadata_key"@[0] == 'm');
    assert("metadata_value"@.len() == 14 && "metadata_value"@[0] == 'm' && "metadata_value"@[9] == 'v');
    assert("feedback_key"@.len() == 12 && "feedback_key"@[0] == 'f');
    assert("feedback_score"@.len() == 14 && "feedback_score"@[0] == 'f' && "feedback_score"@[9] == 's');
    assert("feedback_value"@.len() == 14 && "feedback_value"@[0] == 'f' && "feedback_value"@[9] == 'v');
    assert("is_root"@.len() == 7 && "is_root"@[0] == 'i');
    assert("trace_id"@.len() == 8 && "trace_id"@[0] == 't');
    assert("root_run_id"@.len() == 11 && "root_run_id"@[0] == 'r');
    assert("root_span_id"@.len() == 12 && "root_span_id"@[0] == 'r');
    assert("model_name"@.len() == 10 && "model_name"@[0] == 'm');
    assert("provider_name"@.len() == 13 && "provider_name"@[4] == 'i');
    assert("prompt_tokens"@.len() == 13 && "prompt_tokens"@[4] == 'p');
    assert("completion_tokens"@.len() == 17);
    assert("total_tokens"@.len() == 12 && "total_tokens"@[0] == 't');
    assert("total_cost"@.len() == 10 && "total_cost"@[0] == 't');
    assert("inputs"@.len() == 6 && "inputs"@[0] == 'i');
    assert("outputs"@.len() == 7 && "outputs"@[0] == 'o');
    assert("extra"@.len() == 5 && "extra"@[2] == 't');
    assert("attributes_json"@.len() == 15);
    assert("run_id"@.len() == 6 && "run_id"@[0] == 'r');
    assert("session"@.len() == 7 && "session"@[0] == 's');
    assert("session_name"@.len() == 12 && "session_name"@[0] == 's');
    assert("trace"@.len() == 5 && "trace"@[2] == 'a');
    assert("model"@.len() == 5 && "model"@[2] == 'd');
    assert("ls_model_name"@.len() == 13 && "ls_model_name"@[4] == 'o');
    assert("provider"@.len() == 8 && "provider"@[0] == 'p');
    assert("ls_provider"@.len() == 11 && "ls_provider"@[0] == 'l');
}

/// The word for a comparison is read as the comparison.
pub proof fn law_comparison_is_read_back(op: CompareOp)
    ensures
        compare_op(op_word(op)) == Some(op),
{
    reveal_strlit("eq");
    reveal_strlit("neq");
    reveal_strlit("gt");
    reveal_strlit("gte");
    reveal_strlit("lt");
    reveal_strlit("lte");
    assert("eq"@.len() == 2 && "eq"@[0] == 'e');
    assert("neq"@.len() == 3 && "neq"@[0] == 'n');
    assert("gt"@.len() == 2 && "gt"@[0] == 'g');
    assert("gte"@.len() == 3 && "gte"@[0] == 'g');
    assert("lt"@.len() == 2 && "lt"@[0] == 'l');
    assert("lte"@.len() == 3 && "lte"@[0] == 'l');
}

/// The words for comparisons say of two integers what they are short for.
pub proof fn law_comparisons_compare(a: int, b: int)
    ensures
        compare_op("eq"@) matches Some(op) && (op_holds(op, a - b) <==> a == b),
        compare_op("neq"@) matches Some(op) && (op_holds(op, a - b) <==> a != b),
        compare_op("gt"@) matches Some(op) && (op_holds(op, a - b) <==> a > b),
        compare_op("gte"@) matches Some(op) && (op_holds(op, a - b) <==> a >= b),
        compare_op("lt"@) matches Some(op) && (op_holds(op, a - b) <==> a < b),
        compare_op("lte"@) matches Some(op) && (op_holds(op, a - b) <==> a <= b),
{
    law_comparison_is_read_back(CompareOp::Eq);
    law_comparison_is_read_back(CompareOp::Neq);
    law_comparison_is_read_back(CompareOp::Gt);
    law_comparison_is_read_back(CompareOp::Gte);
    law_comparison_is_read_back(CompareOp::Lt);
    law_comparison_is_read_back(CompareOp::Lte);
}

/// The words for calls are told apart, and are in lower case.
proof fn lemma_call_words()
    ensures
        lower("and"@) == "and"@,
        lower("or"@) == "or"@,
        lower("eq"@) == "eq"@,
        lower("neq"@) == "neq"@,
        lower("gt"@) == "gt"@,
        lower("gte"@) == "gte"@,
        lower("lt"@) == "lt"@,
        lower("lte"@) == "lte"@,
        lower("has"@) == "has"@,
        lower("in"@) == "in"@,
        lower("contains"@) == "contains"@,
        lower("does_not_contain"@) == "does_not_contain"@,
        lower("not_contains"@) == "not_contains"@,
        lower("search"@) == "search"@,
        lower("json_key"@) == "json_key"@,
        lower("json_key_search"@) == "json_key_search"@,
        "or"@ != "and"@,
        "eq"@ != "and"@,
        "eq"@ != "or"@,
        "neq"@ != "and"@,
        "neq"@ != "or"@,
        "neq"@ != "eq"@,
        "gt"@ != "and"@,
        "gt"@ != "or"@,
        "gt"@ != "eq"@,
        "gt"@ != "neq"@,
        "gte"@ != "and"@,
        "gte"@ != "or"@,
        "gte"@ != "eq"@,
        "gte"@ != "neq"@,
        "gte"@ != "gt"@,
        "lt"@ != "and"@,
        "lt"@ != "or"@,
        "lt"@ != "eq"@,
        "lt"@ != "neq"@,
        "lt"@ != "gt"@,
        "lt"@ != "gte"@,
        "lte"@ != "and"@,
        "lte"@ != "or"@,
        "lte"@ != "eq"@,
        "lte"@ != "neq"@,
        "lte"@ != "gt"@,
        "lte"@ != "gte"@,
        "lte"@ != "lt"@,
        "has"@ != "and"@,
        "has"@ != "or"@,
        "has"@ != "eq"@,
        "has"@ != "neq"@,
        "has"@ != "gt"@,
        "has"@ != "gte"@,
        "has"@ != "lt"@,
        "has"@ != "lte"@,
        "in"@ != "and"@,
        "in"@ != "or"@,
        "in"@ != "eq"@,
        "in"@ != "neq"@,
        "in"@ != "gt"@,
        "in"@ != "gte"@,
        "in"@ != "lt"@,
        "in"@ != "lte"@,
        "in"@ != "has"@,
        "contains"@ != "and"@,
        "contains"@ != "or"@,
        "contains"@ != "eq"@,
        "contains"@ != "neq"@,
        "contains"@ != "gt"@,
        "contains"@ != "gte"@,
        "contains"@ != "lt"@,
        "contains"@ != "lte"@,
        "contains"@ != "has"@,
        "contains"@ != "in"@,
        "does_not_contain"@ != "and"@,
        "does_not_contain"@ != "or"@,
        "does_not_contain"@ != "eq"@,
        "does_not_contain"@ != "neq"@,
        "does_not_contain"@ != "gt"@,
        "does_not_contain"@ != "gte"@,
        "does_not_contain"@ != "lt"@,
        "does_not_contain"@ != "lte"@,
        "does_not_contain"@ != "has"@,
        "does_not_contain"@ != "in"@,
        "does_not_contain"@ != "contains"@,
        "not_contains"@ != "and"@,
        "not_contains"@ != "or"@,
        "not_contains"@ != "eq"@,
        "not_contains"@ != "neq"@,
        "not_contains"@ != "gt"@,
        "not_contains"@ != "gte"@,
        "not_contains"@ != "lt"@,
        "not_contains"@ != "lte"@,
        "not_contains"@ != "has"@,
        "not_contains"@ != "in"@,
        "not_contains"@ != "contains"@,
        "not_contains"@ != "does_not_contain"@,
        "search"@ != "and"@,
        "search"@ != "or"@,
        "search"@ != "eq"@,
        "search"@ != "neq"@,
        "search"@ != "gt"@,
        "search"@ != "gte"@,
        "search"@ != "lt"@,
        "search"@ != "lte"@,
        "search"@ != "has"@,
        "search"@ != "in"@,
        "search"@ != "contains"@,
        "search"@ != "does_not_contain"@,
        "search"@ != "not_contains"@,
        "json_key"@ != "and"@,
        "json_key"@ != "or"@,
        "json_key"@ != "eq"@,
        "json_key"@ != "neq"@,
        "json_key"@ != "gt"@,
        "json_key"@ != "gte"@,
        "json_key"@ != "lt"@,
        "json_key"@ != "lte"@,
        "json_key"@ != "has"@,
        "json_key"@ != "in"@,
        "json_key"@ != "contains"@,
        "json_key"@ != "does_not_contain"@,
        "json_key"@ != "not_contains"@,
        "json_key"@ != "search"@,
        "json_key_search"@ != "and"@,
        "json_key_search"@ != "or"@,
        "json_key_search"@ != "eq"@,
        "json_key_search"@ != "neq"@,
        "json_key_search"@ != "gt"@,
        "json_key_search"@ != "gte"@,
        "json_key_search"@ != "lt"@,
        "json_key_search"@ != "lte"@,
        "json_key_search"@ != "has"@,
        "json_key_search"@ != "in"@,
        "json_key_search"@ != "contains"@,
        "json_key_search"@ != "does_not_contain"@,
        "json_key_search"@ != "not_contains"@,
        "json_key_search"@ != "search"@,
        "json_key_search"@ != "json_key"@,
{
    reveal_strlit("and");
    reveal_strlit("or");
    reveal_strlit("eq");
    reveal_strlit("neq");
    reveal_strlit("gt");
    reveal_strlit("gte");
    reveal_strlit("lt");
    reveal_strlit("lte");
    reveal_strlit("has");
    reveal_strlit("in");
    reveal_strlit("contains");
    reveal_strlit("does_not_contain");
    reveal_strlit("not_contains");
    reveal_strlit("search");
    reveal_strlit("json_key");
    reveal_strlit("json_key_search");
    assert("and"@.len() == 3 && "and"@[0] == 'a');
    assert("or"@.len() == 2 && "or"@[0] == 'o');
    assert("eq"@.len() == 2 && "eq"@[0] == 'e');
    assert("neq"@.len() == 3 && "neq"@[0] == 'n');
    assert("gt"@.len() == 2 && "gt"@[0] == 'g');
    assert("gte"@.len() == 3 && "gte"@[0] == 'g');
    assert("lt"@.len() == 2 && "lt"@[0] == 'l');
    assert("lte"@.len() == 3 && "lte"@[0] == 'l');
    assert("has"@.len() == 3 && "has"@[0] == 'h');
    assert("in"@.len() == 2 && "in"@[0] == 'i');
    assert("contains"@.len() == 8 && "contains"@[0] == 'c');
    assert("does_not_contain"@.len() == 16);
    assert("not_contains"@.len() == 12);
    assert("search"@.len() == 6);
    assert("json_key"@.len() == 8 && "json_key"@[0] == 'j');
    assert("json_key_search"@.len() == 15);
    lemma_is_lower("and"@);
    lemma_is_lower("or"@);
    lemma_is_lower("eq"@);
    lemma_is_lower("neq"@);
    lemma_is_lower("gt"@);
    lemma_is_lower("gte"@);
    lemma_is_lower("lt"@);
    lemma_is_lower("lte"@);
    lemma_is_lower("has"@);
    lemma_is_lower("in"@);
    lemma_is_lower("contains"@);
    lemma_is_lower("does_not_contain"@);
    lemma_is_lower("not_contains"@);
    lemma_is_lower("search"@);
    lemma_is_lower("json_key"@);
    lemma_is_lower("json_key_search"@);
}

proof fn lemma_bool_words()
    ensures
        lower("true"@) == "true"@,
        lower("false"@) == "false"@,
        "true"@ != "false"@,
{
    reveal_strlit("true");
    reveal_strlit("false");
    assert("true"@.len() == 4 && "false"@.len() == 5);
    lemma_is_lower("true"@);
    lemma_is_lower("false"@);
}

proof fn lemma_value(tokens: Seq<Tok>, at: nat, value: Operand)
    requires
        at < tokens.len(),
        tokens[at as int] == written_value(value),
    ensures
        want_value(tokens, at) == Ok::<_, Fault>((value, at + 1)),
{
    lemma_bool_words();
}

proof fn lemma_values(tokens: Seq<Tok>, at: nat, values: Seq<Operand>)
    requires
        values.len() > 0,
        stand_at(tokens, at as int, written_values(values)),
        !mark_at(tokens, at + written_values(values).len(), Mark::Comma),
    ensures
        want_values(tokens, at) == Ok::<_, Fault>(
            (values, at + written_values(values).len()),
        ),
    decreases values.len(),
{
    let piece = written_values(values);
    if values.len() == 1 {
        assert(piece[0] == tokens[at as int]);
        lemma_value(tokens, at, values[0]);
        assert(seq![values[0]] =~= values);
    } else {
        let first = seq![written_value(values[0]), Tok::Mark(Mark::Comma)];
        let rest = values.skip(1);
        lemma_two_pieces(tokens, at as int, first, written_values(rest));
        assert(first[0] == tokens[at as int]);
        assert(first[1] == tokens[(at + 1) as int]);
        lemma_value(tokens, at, values[0]);
        lemma_values(tokens, at + 2, rest);
        assert(seq![values[0]] + rest =~= values);
    }
}

proof fn lemma_pair(tokens: Seq<Tok>, at: nat, field: FilterField, value: Operand)
    requires
        stand_at(tokens, at as int, written_pair(field, value)),
    ensures
        want_field_value(tokens, at) == Ok::<_, Fault>(
            (field, value, at + 3),
        ),
{
    let piece = written_pair(field, value);
    assert(piece[0] == tokens[at as int]);
    assert(piece[1] == tokens[(at + 1) as int]);
    assert(piece[2] == tokens[(at + 2) as int]);
    law_field_is_read_back(field);
    lemma_value(tokens, at + 2, value);
}

proof fn lemma_text(tokens: Seq<Tok>, at: nat, text: Seq<char>)
    requires
        at < tokens.len(),
        tokens[at as int] == written_text(text),
    ensures
        want_text(tokens, at) == Ok::<_, Fault>((text, at + 1)),
{
    let value = Operand::Text(TextModel { text, number: None, seconds: None });
    lemma_value(tokens, at, value);
}

proof fn lemma_scoped(tokens: Seq<Tok>, at: nat, field: Option<FilterField>, text: Seq<char>)
    requires
        stand_at(tokens, at as int, written_scoped(field, text)),
    ensures
        want_scoped_text(tokens, at) == Ok::<_, Fault>(
            (field, text, at + written_scoped(field, text).len()),
        ),
{
    let piece = written_scoped(field, text);
    assert(piece[0] == tokens[at as int]);
    match field {
        Some(f) => {
            assert(piece[1] == tokens[(at + 1) as int]);
            assert(piece[2] == tokens[(at + 2) as int]);
            law_field_is_read_back(f);
            lemma_text(tokens, at + 2, text);
        },
        None => {
            lemma_text(tokens, at, text);
        },
    }
}

proof fn lemma_list(tokens: Seq<Tok>, at: nat, field: FilterField, values: Seq<Operand>)
    requires
        stand_at(
            tokens,
            at as int,
            seq![
                Tok::Ident(field_word(field)),
                Tok::Mark(Mark::Comma),
                Tok::Mark(Mark::LBracket),
            ] + written_values(values) + seq![Tok::Mark(Mark::RBracket)],
        ),
    ensures
        want_field_list(tokens, at) == Ok::<_, Fault>(
            (field, values, at + 4 + written_values(values).len()),
        ),
{
    let start = seq![
        Tok::Ident(field_word(field)),
        Tok::Mark(Mark::Comma),
        Tok::Mark(Mark::LBracket),
    ];
    let inside = written_values(values);
    let end = seq![Tok::Mark(Mark::RBracket)];
    lemma_two_pieces(tokens, at as int, start + inside, end);
    lemma_two_pieces(tokens, at as int, start, inside);
    assert(start[0] == tokens[at as int]);
    assert(start[1] == tokens[(at + 1) as int]);
    assert(start[2] == tokens[(at + 2) as int]);
    assert(end[0] == tokens[(at + 3 + inside.len()) as int]);
    law_field_is_read_back(field);
    let first: nat = at + 3;
    if values.len() == 0 {
        assert(inside.len() == 0);
        assert(mark_at(tokens, first, Mark::RBracket));
        assert(values =~= Seq::<Operand>::empty());
    } else {
        lemma_values(tokens, first, values);
        if values.len() == 1 {
            assert(inside[0] == tokens[first as int]);
        } else {
            assert(inside[0] == written_value(values[0]));
            assert(inside[0] == tokens[first as int]);
        }
        assert(!mark_at(tokens, first, Mark::RBracket));
    }
    assert(want_list(tokens, (at + 2) as nat) == Ok::<_, Fault>(
        (values, (at + 4 + inside.len()) as nat),
    ));
}

/// A call that is written is read as it was written, wherever it stands.
proof fn lemma_call(tokens: Seq<Tok>, at: nat, nodes: nat, depth: nat, filter: Filter)
    requires
        stand_at(tokens, at as int, written(filter)),
        depth + height_of(filter) <= MAX_FILTER_DEPTH + 1,
        nodes + size_of(filter) <= MAX_FILTER_NODES,
    ensures
        parse_at(tokens, at, nodes, depth) == Ok::<_, Fault>(
            (filter, at + written(filter).len(), nodes + size_of(filter)),
        ),
    decreases filter, 1int,
{
    let piece = written(filter);
    assert(piece.len() >= 3);
    assert(piece[0] == tokens[at as int]);
    assert(piece[1] == tokens[(at + 1) as int]);
    assert(piece[piece.len() - 1] == tokens[at + piece.len() - 1]);
    lemma_call_words();
    let word = piece[0]->Ident_0;
    let inside: nat = at + 2;
    let last = (at + piece.len() - 1) as nat;
    lemma_inside(tokens, inside, nodes + 1, depth, filter);
    assert(parse_inside(word, tokens, inside, nodes + 1, depth) == Ok::<
        _,
        Fault,
    >((filter, last, nodes + size_of(filter))));
}

proof fn lemma_inside(tokens: Seq<Tok>, at: nat, nodes: nat, depth: nat, filter: Filter)
    requires
        at >= 2,
        nodes >= 1,
        stand_at(tokens, at - 2, written(filter)),
        depth + height_of(filter) <= MAX_FILTER_DEPTH + 1,
        nodes - 1 + size_of(filter) <= MAX_FILTER_NODES,
    ensures
        written(filter)[0] is Ident,
        parse_inside(written(filter)[0]->Ident_0, tokens, at, nodes, depth) == Ok::<
            _,
            Fault,
        >((filter, (at + written(filter).len() - 3) as nat, (nodes - 1 + size_of(filter)) as nat)),
    decreases filter, 0int,
{
    lemma_call_words();
    law_comparison_is_read_back(CompareOp::Eq);
    let piece = written(filter);
    let start = |word: Seq<char>| seq![Tok::Ident(word), Tok::Mark(Mark::LParen)];
    let end = seq![Tok::Mark(Mark::RParen)];
    match filter {
        Filter::And(filters) => {
            lemma_two_pieces(tokens, at - 2, start("and"@) + written_all(filters), end);
            lemma_two_pieces(tokens, at - 2, start("and"@), written_all(filters));
            assert(end[0] == tokens[(at + written_all(filters).len()) as int]);
            if filters.len() == 0 {
                assert(filters =~= Seq::<Filter>::empty());
            }
            lemma_inner(tokens, at, nodes, depth, filters);
        },
        Filter::Or(filters) => {
            lemma_two_pieces(tokens, at - 2, start("or"@) + written_all(filters), end);
            lemma_two_pieces(tokens, at - 2, start("or"@), written_all(filters));
            assert(end[0] == tokens[(at + written_all(filters).len()) as int]);
            if filters.len() == 0 {
                assert(filters =~= Seq::<Filter>::empty());
            }
            lemma_inner(tokens, at, nodes, depth, filters);
        },
        Filter::Compare { op, field, value } => {
            law_comparison_is_read_back(op);
            lemma_two_pieces(tokens, at - 2, start(op_word(op)) + written_pair(field, value), end);
            lemma_two_pieces(tokens, at - 2, start(op_word(op)), written_pair(field, value));
            lemma_pair(tokens, at, field, value);
        },
        Filter::Has { field, value } => {
            lemma_two_pieces(tokens, at - 2, start("has"@) + written_pair(field, value), end);
            lemma_two_pieces(tokens, at - 2, start("has"@), written_pair(field, value));
            lemma_pair(tokens, at, field, value);
        },
        Filter::In { field, values } => {
            let inside = seq![
                Tok::Ident(field_word(field)),
                Tok::Mark(Mark::Comma),
                Tok::Mark(Mark::LBracket),
            ] + written_values(values) + seq![Tok::Mark(Mark::RBracket)];
            lemma_two_pieces(tokens, at - 2, start("in"@) + inside, end);
            lemma_two_pieces(tokens, at - 2, start("in"@), inside);
            lemma_list(tokens, at, field, values);
        },
        Filter::Contains { field, value, negated } => {
            let word = if negated {
                "does_not_contain"@
            } else {
                "contains"@
            };
            lemma_two_pieces(tokens, at - 2, start(word) + written_pair(field, value), end);
            lemma_two_pieces(tokens, at - 2, start(word), written_pair(field, value));
            lemma_pair(tokens, at, field, value);
        },
        Filter::Search { field, query } => {
            lemma_two_pieces(tokens, at - 2, start("search"@) + written_scoped(field, query), end);
            lemma_two_pieces(tokens, at - 2, start("search"@), written_scoped(field, query));
            lemma_scoped(tokens, at, field, query);
        },
        Filter::JsonKey { field, pattern } => {
            let inside = written_scoped(field, pattern);
            lemma_two_pieces(tokens, at - 2, start("json_key"@) + inside, end);
            lemma_two_pieces(tokens, at - 2, start("json_key"@), inside);
            lemma_scoped(tokens, at, field, pattern);
        },
        Filter::JsonKeySearch { field, path, query } => {
            let scoped = written_scoped(field, path);
            let more = seq![Tok::Mark(Mark::Comma), written_text(query)];
            lemma_two_pieces(tokens, at - 2, start("json_key_search"@) + (scoped + more), end);
            lemma_two_pieces(tokens, at - 2, start("json_key_search"@), scoped + more);
            lemma_two_pieces(tokens, at as int, scoped, more);
            lemma_scoped(tokens, at, field, path);
            let next = (at + scoped.len()) as nat;
            assert(more[0] == tokens[next as int]);
            assert(more[1] == tokens[(next + 1) as int]);
            lemma_text(tokens, next + 1, query);
        },
    }
}

/// What stands between the parentheses of an `and` or an `or`.
proof fn lemma_inner(tokens: Seq<Tok>, at: nat, nodes: nat, depth: nat, filters: Seq<Filter>)
    requires
        stand_at(tokens, at as int, written_all(filters)),
        mark_at(tokens, at + written_all(filters).len(), Mark::RParen),
        depth + 1 + heights_of(filters) <= MAX_FILTER_DEPTH + 1,
        nodes + sizes_of(filters) <= MAX_FILTER_NODES,
    ensures
        filters.len() == 0 ==> mark_at(tokens, at, Mark::RParen) && written_all(filters).len()
            == 0,
        filters.len() > 0 ==> !mark_at(tokens, at, Mark::RParen) && parse_children(
            tokens,
            at,
            nodes,
            depth + 1,
        ) == Ok::<_, Fault>(
            (filters, at + written_all(filters).len(), nodes + sizes_of(filters)),
        ),
    decreases filters, 1int,
{
    if filters.len() > 0 {
        lemma_children(tokens, at, nodes, depth + 1, filters);
        let piece = written_all(filters);
        assert(written(filters[0]).len() >= 3);
        assert(written(filters[0])[0] is Ident);
        assert(piece[0] == written(filters[0])[0]);
        assert(piece[0] == tokens[at as int]);
    }
}

proof fn lemma_children(tokens: Seq<Tok>, at: nat, nodes: nat, depth: nat, filters: Seq<Filter>)
    requires
        filters.len() > 0,
        stand_at(tokens, at as int, written_all(filters)),
        mark_at(tokens, at + written_all(filters).len(), Mark::RParen),
        depth + heights_of(filters) <= MAX_FILTER_DEPTH + 1,
        nodes + sizes_of(filters) <= MAX_FILTER_NODES,
    ensures
        parse_children(tokens, at, nodes, depth) == Ok::<_, Fault>(
            (filters, at + written_all(filters).len(), nodes + sizes_of(filters)),
        ),
    decreases filters, 0int,
{
    let rest = filters.subrange(1, filters.len() as int);
    let first = filters[0];
    let piece = written(first);
    let next = (at + piece.len()) as nat;
    if rest.len() == 0 {
        assert(sizes_of(rest) == 0);
        lemma_call(tokens, at, nodes, depth, first);
        assert(seq![first] =~= filters);
    } else {
        let comma = seq![Tok::Mark(Mark::Comma)];
        lemma_two_pieces(tokens, at as int, piece + comma, written_all(rest));
        lemma_two_pieces(tokens, at as int, piece, comma);
        assert(comma[0] == tokens[next as int]);
        lemma_call(tokens, at, nodes, depth, first);
        lemma_children(tokens, next + 1, nodes + size_of(first), depth, rest);
        assert(seq![first] + rest =~= filters);
    }
}

/// A filter that is written is read back as it was, if it is neither too deep nor too
/// large.
pub proof fn law_filter_is_read_back(filter: Filter)
    requires
        height_of(filter) <= MAX_FILTER_DEPTH + 1,
        size_of(filter) <= MAX_FILTER_NODES,
    ensures
        parse_tokens(written(filter)) == Ok::<_, Fault>(filter),
{
    lemma_call(written(filter), 0, 0, 0, filter);
}

} // verus!
