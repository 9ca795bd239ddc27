//! The SQL predicate over run heads that a filter comes to.

use crate::query::filter::CompareOp;
use crate::query::filter::Fault;
use crate::query::filter::Filter;
use crate::query::filter::FilterError;
use crate::query::filter::FilterExpr;
use crate::query::filter::FilterField;
use crate::query::filter::FilterValue;
use crate::query::filter::Operand;
use crate::query::filter::filters_of;
use crate::query::filter::lemma_children_view;
use crate::query::filter::value_text;
use crate::query::filter::values_of;
use crate::sql::escape_like_pattern;
use crate::sql::like_escaped;
use crate::sql::literal;
use crate::sql::literal_list;
use crate::sql::sql_string_list;
use crate::sql::sql_string_literal;
use crate::text::int_text;
use crate::text::integer_text;
use crate::text::join;
use crate::text::joined;
use crate::text::lower;
use crate::text::lowered;
use crate::text::parse_i64;
use crate::text::parsed_i64;
use crate::text::same;
use crate::text::texts;
use crate::time::parse_rfc3339_clamped;
use crate::time::rfc3339_clamped;
use vstd::prelude::*;
use vstd::string::StringExecFns;

verus! {

/// The names of `projects`.
pub open spec fn scope_of(projects: Option<&Vec<String>>) -> Option<Seq<Seq<char>>> {
    match projects {
        Some(names) => Some(texts(names@)),
        None => None,
    }
}

/// A column of a table.
pub open spec fn column_sql(alias: Seq<char>, name: Seq<char>) -> Seq<char> {
    alias + "."@ + name
}

pub open spec fn negated_sql(predicate: Seq<char>) -> Seq<char> {
    "NOT ("@ + predicate + ")"@
}

/// What tells a run from every other: its project, trace and span, with a unit
/// separator between them.
pub open spec fn run_key_sql_spec(alias: Seq<char>) -> Seq<char> {
    alias + ".project_name || '\u{1f}' || "@ + alias + ".trace_id || '\u{1f}' || "@ + alias
        + ".span_id"@
}

/// The restriction of an index table to the projects, if there are any.
pub open spec fn project_scope(alias: Seq<char>, projects: Option<Seq<Seq<char>>>) -> Seq<char> {
    match projects {
        Some(names) => if names.len() > 0 {
            alias + ".project_name IN ("@ + literal_list(names) + ") AND "@
        } else {
            Seq::empty()
        },
        None => Seq::empty(),
    }
}

/// That the run has a tag.
pub open spec fn tag_exists(
    alias: Seq<char>,
    tag: Seq<char>,
    projects: Option<Seq<Seq<char>>>,
) -> Seq<char> {
    run_key_sql_spec(alias) + " IN (\n            SELECT "@ + run_key_sql_spec("tag_filter"@)
        + "\n            FROM run_tags tag_filter\n            WHERE "@ + project_scope(
        "tag_filter"@,
        projects,
    ) + "tag_filter.tag = "@ + literal(tag) + "\n        )"@
}

/// That the run has one of the tags.
pub open spec fn tag_in(
    alias: Seq<char>,
    tags: Seq<Seq<char>>,
    projects: Option<Seq<Seq<char>>>,
) -> Seq<char> {
    run_key_sql_spec(alias) + " IN (\n                    SELECT "@ + run_key_sql_spec(
        "tag_filter"@,
    ) + "\n                    FROM run_tags tag_filter\n                    WHERE "@
        + project_scope("tag_filter"@, projects) + "tag_filter.tag IN ("@ + literal_list(tags)
        + ")\n                )"@
}

/// That the run has a row of metadata on which all the conditions hold.
pub open spec fn metadata_exists(
    alias: Seq<char>,
    conditions: Seq<Seq<char>>,
    projects: Option<Seq<Seq<char>>>,
) -> Seq<char> {
    run_key_sql_spec(alias) + " IN (\n            SELECT "@ + run_key_sql_spec("metadata_filter"@)
        + "\n            FROM run_metadata metadata_filter\n            WHERE "@ + project_scope(
        "metadata_filter"@,
        projects,
    ) + join(conditions, " AND "@) + "\n        )"@
}

pub open spec fn feedback_subquery(
    conditions: Seq<Seq<char>>,
    projects: Option<Seq<Seq<char>>>,
) -> Seq<char> {
    "SELECT feedback_filter.run_id FROM feedback feedback_filter\n            WHERE feedback_filter.run_id IS NOT NULL AND "@
        + project_scope("feedback_filter"@, projects) + join(conditions, " AND "@)
}

/// That the run has a row of feedback on which all the conditions hold.
pub open spec fn feedback_exists(
    alias: Seq<char>,
    conditions: Seq<Seq<char>>,
    projects: Option<Seq<Seq<char>>>,
) -> Seq<char> {
    "(("@ + alias + ".run_id <> '' AND "@ + alias + ".run_id IN ("@ + feedback_subquery(
        conditions,
        projects,
    ) + "))\n            OR "@ + alias + ".generated_run_id IN ("@ + feedback_subquery(
        conditions,
        projects,
    ) + "))"@
}

/// That the run goes by an id: its own, or the one that is generated for it.
pub open spec fn id_is(alias: Seq<char>, id: Seq<char>) -> Seq<char> {
    "(NULLIF("@ + alias + ".run_id, '') = "@ + literal(id) + " OR "@ + alias
        + ".generated_run_id = "@ + literal(id) + ")"@
}

pub open spec fn operator_of(op: CompareOp) -> Seq<char> {
    match op {
        CompareOp::Eq => "="@,
        CompareOp::Neq => "<>"@,
        CompareOp::Gt => ">"@,
        CompareOp::Gte => ">="@,
        CompareOp::Lt => "<"@,
        CompareOp::Lte => "<="@,
    }
}

pub open spec fn comparison(op: CompareOp, column: Seq<char>, rhs: Seq<char>) -> Seq<char> {
    column + " "@ + operator_of(op) + " "@ + rhs
}

pub open spec fn must_be(field: Seq<char>, what: Seq<char>) -> Fault {
    Fault::Parse(field + " must be "@ + what)
}

/// The truth value that a value stands for.
pub open spec fn bool_of(value: Operand, field: Seq<char>) -> Result<bool, Fault> {
    match value {
        Operand::Bool(b) => Ok(b),
        Operand::Text(text) => if lower(text.text) == "true"@ {
            Ok(true)
        } else if lower(text.text) == "false"@ {
            Ok(false)
        } else {
            Err(must_be(field, "boolean"@))
        },
        Operand::Number(_) => Err(must_be(field, "boolean"@)),
    }
}

/// The integer that a value stands for.
pub open spec fn integer_of(value: Operand, field: Seq<char>) -> Result<i64, Fault> {
    match value {
        Operand::Number(reading) => Ok(reading.whole),
        Operand::Text(text) => match parse_i64(text.text) {
            Some(n) => Ok(n),
            None => Err(must_be(field, "an integer"@)),
        },
        Operand::Bool(_) => Err(must_be(field, "numeric"@)),
    }
}

/// The number that a value stands for, as it is displayed.
pub open spec fn number_of(value: Operand, field: Seq<char>) -> Result<Seq<char>, Fault> {
    match value {
        Operand::Number(reading) => Ok(reading.text),
        Operand::Text(text) => match text.number {
            Some(reading) => Ok(reading.text),
            None => Err(must_be(field, "numeric"@)),
        },
        Operand::Bool(_) => Err(must_be(field, "numeric"@)),
    }
}

/// The duration that a value stands for, in nanoseconds.
pub open spec fn duration_of(value: Operand) -> Result<i64, Fault> {
    match value {
        Operand::Number(reading) => Ok(reading.nanos),
        Operand::Text(text) => match text.seconds {
            Some(reading) => Ok(reading.nanos),
            None => Err(Fault::Parse("latency must be seconds"@)),
        },
        Operand::Bool(_) => Err(Fault::Parse("latency must be numeric"@)),
    }
}

/// The instant that a value stands for, in nanoseconds.
pub open spec fn instant_of(value: Operand, field: Seq<char>) -> Result<i64, Fault> {
    match value {
        Operand::Text(text) => match rfc3339_clamped(text.text) {
            Some(n) => Ok(n),
            None => Err(must_be(field, "RFC3339"@)),
        },
        _ => integer_of(value, field),
    }
}

pub open spec fn text_comparison(op: CompareOp, column: Seq<char>, value: Operand) -> Seq<char> {
    comparison(op, column, literal(value_text(value)))
}

pub open spec fn integer_comparison(
    op: CompareOp,
    column: Seq<char>,
    value: Result<i64, Fault>,
) -> Result<Seq<char>, Fault> {
    match value {
        Ok(n) => Ok(comparison(op, column, int_text(n as int))),
        Err(fault) => Err(fault),
    }
}

pub open spec fn number_comparison(
    op: CompareOp,
    column: Seq<char>,
    value: Operand,
    field: Seq<char>,
) -> Result<Seq<char>, Fault> {
    match number_of(value, field) {
        Ok(number) => Ok(comparison(op, column, number)),
        Err(fault) => Err(fault),
    }
}

pub open spec fn bool_comparison(op: CompareOp, column: Seq<char>, value: bool) -> Result<
    Seq<char>,
    Fault,
> {
    let word = if value {
        "true"@
    } else {
        "false"@
    };
    match op {
        CompareOp::Eq => Ok(column + " = "@ + word),
        CompareOp::Neq => Ok(column + " <> "@ + word),
        _ => Err(Fault::Unsupported("boolean fields only support eq and neq"@)),
    }
}

pub open spec fn error_comparison(op: CompareOp, column: Seq<char>, value: bool) -> Result<
    Seq<char>,
    Fault,
> {
    match op {
        CompareOp::Eq => Ok(
            if value {
                column + " = 'error'"@
            } else {
                column + " <> 'error'"@
            },
        ),
        CompareOp::Neq => Ok(
            if value {
                column + " <> 'error'"@
            } else {
                column + " = 'error'"@
            },
        ),
        _ => Err(Fault::Unsupported("error only supports eq and neq boolean filters"@)),
    }
}

/// The column of run heads that holds a text field.
pub open spec fn text_column(field: FilterField) -> Option<Seq<char>> {
    match field {
        FilterField::Name => Some("name"@),
        FilterField::ProjectName => Some("project_name"@),
        FilterField::RunType => Some("run_type"@),
        FilterField::Status => Some("status"@),
        FilterField::TraceId => Some("trace_id"@),
        FilterField::RootRunId => Some("root_run_id"@),
        FilterField::RootSpanId => Some("root_span_id"@),
        FilterField::ModelName => Some("model_name"@),
        FilterField::ProviderName => Some("provider_name"@),
        _ => None,
    }
}

/// The condition on a row of metadata that a comparison comes to.
pub open spec fn metadata_comparison(op: CompareOp, field: FilterField, value: Operand) -> Seq<char> {
    let column = if field == FilterField::MetadataKey {
        "key"@
    } else {
        "value"@
    };
    text_comparison(op, column, value)
}

/// The condition on a row of feedback that a comparison comes to.
pub open spec fn feedback_comparison(op: CompareOp, field: FilterField, value: Operand) -> Result<
    Seq<char>,
    Fault,
> {
    if field == FilterField::FeedbackKey {
        Ok(text_comparison(op, "key"@, value))
    } else if field == FilterField::FeedbackValue {
        Ok(text_comparison(op, "value_text"@, value))
    } else {
        number_comparison(op, "score_number"@, value, "feedback_score"@)
    }
}

pub open spec fn is_metadata(field: FilterField) -> bool {
    field == FilterField::MetadataKey || field == FilterField::MetadataValue
}

pub open spec fn is_feedback(field: FilterField) -> bool {
    field == FilterField::FeedbackKey || field == FilterField::FeedbackScore || field
        == FilterField::FeedbackValue
}

/// The predicate of a comparison of metadata: "not equal" is that no row is equal.
pub open spec fn metadata_atom(
    op: CompareOp,
    field: FilterField,
    value: Operand,
    alias: Seq<char>,
    projects: Option<Seq<Seq<char>>>,
) -> Seq<char> {
    if op == CompareOp::Neq {
        negated_sql(
            metadata_exists(
                alias,
                seq![metadata_comparison(CompareOp::Eq, field, value)],
                projects,
            ),
        )
    } else {
        metadata_exists(alias, seq![metadata_comparison(op, field, value)], projects)
    }
}

/// The predicate of a comparison of feedback: "not equal" is that no row is equal.
pub open spec fn feedback_atom(
    op: CompareOp,
    field: FilterField,
    value: Operand,
    alias: Seq<char>,
    projects: Option<Seq<Seq<char>>>,
) -> Result<Seq<char>, Fault> {
    if op == CompareOp::Neq {
        match feedback_comparison(CompareOp::Eq, field, value) {
            Ok(condition) => Ok(negated_sql(feedback_exists(alias, seq![condition], projects))),
            Err(fault) => Err(fault),
        }
    } else {
        match feedback_comparison(op, field, value) {
            Ok(condition) => Ok(feedback_exists(alias, seq![condition], projects)),
            Err(fault) => Err(fault),
        }
    }
}

/// The predicate of a comparison.
pub open spec fn compare_predicate(
    op: CompareOp,
    field: FilterField,
    value: Operand,
    alias: Seq<char>,
    projects: Option<Seq<Seq<char>>>,
) -> Result<Seq<char>, Fault> {
    match field {
        FilterField::MetadataKey | FilterField::MetadataValue => Ok(
            metadata_atom(op, field, value, alias, projects),
        ),
        FilterField::FeedbackKey
        | FilterField::FeedbackScore
        | FilterField::FeedbackValue => feedback_atom(op, field, value, alias, projects),
        FilterField::Tags => match op {
            CompareOp::Eq => Ok(tag_exists(alias, value_text(value), projects)),
            CompareOp::Neq => Ok(negated_sql(tag_exists(alias, value_text(value), projects))),
            _ => Err(Fault::Unsupported("tags only support eq, neq, has, and in"@)),
        },
        FilterField::Id => match op {
            CompareOp::Eq => Ok(id_is(alias, value_text(value))),
            CompareOp::Neq => Ok(negated_sql(id_is(alias, value_text(value)))),
            _ => Err(Fault::Unsupported("id only supports eq, neq, and in"@)),
        },
        FilterField::StartTime => integer_comparison(
            op,
            column_sql(alias, "start_time_unix_nano"@),
            instant_of(value, "start_time"@),
        ),
        FilterField::EndTime => integer_comparison(
            op,
            column_sql(alias, "end_time_unix_nano"@),
            instant_of(value, "end_time"@),
        ),
        FilterField::Latency => integer_comparison(
            op,
            column_sql(alias, "latency_nanos"@),
            duration_of(value),
        ),
        FilterField::PromptTokens => integer_comparison(
            op,
            column_sql(alias, "prompt_tokens"@),
            integer_of(value, "prompt_tokens"@),
        ),
        FilterField::CompletionTokens => integer_comparison(
            op,
            column_sql(alias, "completion_tokens"@),
            integer_of(value, "completion_tokens"@),
        ),
        FilterField::TotalTokens => integer_comparison(
            op,
            column_sql(alias, "total_tokens"@),
            integer_of(value, "total_tokens"@),
        ),
        FilterField::TotalCost => number_comparison(
            op,
            column_sql(alias, "total_cost"@),
            value,
            "total_cost"@,
        ),
        FilterField::IsRoot => match bool_of(value, "is_root"@) {
            Ok(b) => bool_comparison(op, column_sql(alias, "is_root"@), b),
            Err(fault) => Err(fault),
        },
        FilterField::Error => match bool_of(value, "error"@) {
            Ok(b) => error_comparison(op, column_sql(alias, "status"@), b),
            Err(fault) => Err(fault),
        },
        FilterField::Inputs
        | FilterField::Outputs
        | FilterField::Extra
        | FilterField::AttributesJson => Err(
            Fault::Unsupported("payload JSON filters require the Phase 6 object-store index"@),
        ),
        _ => Ok(text_comparison(op, column_sql(alias, text_column(field)->0), value)),
    }
}

/// The predicate of a membership.
pub open spec fn has_predicate(
    field: FilterField,
    value: Operand,
    alias: Seq<char>,
    projects: Option<Seq<Seq<char>>>,
) -> Result<Seq<char>, Fault> {
    if field == FilterField::Tags {
        Ok(tag_exists(alias, value_text(value), projects))
    } else if field == FilterField::MetadataKey {
        Ok(metadata_exists(alias, seq!["key = "@ + literal(value_text(value))], projects))
    } else {
        Err(Fault::Unsupported("has() is supported for tags and metadata_key only"@))
    }
}

pub open spec fn value_texts(values: Seq<Operand>) -> Seq<Seq<char>> {
    values.map_values(|value: Operand| value_text(value))
}

pub open spec fn equalities(column: Seq<char>, values: Seq<Operand>) -> Seq<Seq<char>> {
    values.map_values(|value: Operand| column + " = "@ + literal(value_text(value)))
}

pub open spec fn id_equalities(alias: Seq<char>, values: Seq<Operand>) -> Seq<Seq<char>> {
    values.map_values(|value: Operand| id_is(alias, value_text(value)))
}

pub open spec fn in_parentheses(text: Seq<char>) -> Seq<char> {
    "("@ + text + ")"@
}

/// The predicate of being one of several values.
pub open spec fn in_predicate(
    field: FilterField,
    values: Seq<Operand>,
    alias: Seq<char>,
    projects: Option<Seq<Seq<char>>>,
) -> Result<Seq<char>, Fault> {
    if values.len() == 0 {
        Err(Fault::Parse("in() requires a non-empty list"@))
    } else if field == FilterField::Tags {
        Ok(tag_in(alias, value_texts(values), projects))
    } else if is_metadata(field) {
        let column = if field == FilterField::MetadataKey {
            "key"@
        } else {
            "value"@
        };
        Ok(
            metadata_exists(
                alias,
                seq![in_parentheses(join(equalities(column, values), " OR "@))],
                projects,
            ),
        )
    } else if field == FilterField::Id {
        Ok(in_parentheses(join(id_equalities(alias, values), " OR "@)))
    } else {
        match text_column(field) {
            Some(column) => Ok(
                column_sql(alias, column) + " IN ("@ + literal_list(value_texts(values)) + ")"@,
            ),
            None => Err(
                Fault::Unsupported(
                    "in() is supported for indexed scalar text fields, tags, and metadata"@,
                ),
            ),
        }
    }
}

/// The SQL pattern of the texts that hold `text`, in whatever case.
pub open spec fn like_pattern(text: Seq<char>) -> Seq<char> {
    literal("%"@ + like_escaped(lower(text)) + "%"@)
}

pub open spec fn like_predicate(column: Seq<char>, text: Seq<char>) -> Seq<char> {
    "LOWER("@ + column + ") LIKE "@ + like_pattern(text) + " ESCAPE '\\'"@
}

/// The predicate of holding a text.
pub open spec fn contains_predicate(
    field: FilterField,
    value: Operand,
    negated: bool,
    alias: Seq<char>,
    projects: Option<Seq<Seq<char>>>,
) -> Result<Seq<char>, Fault> {
    let found = match text_column(field) {
        Some(column) => Some(like_predicate(column_sql(alias, column), value_text(value))),
        None => if field == FilterField::MetadataValue {
            Some(
                metadata_exists(
                    alias,
                    seq![like_predicate("value"@, value_text(value))],
                    projects,
                ),
            )
        } else {
            None
        },
    };
    match found {
        Some(predicate) => Ok(
            if negated {
                negated_sql(predicate)
            } else {
                predicate
            },
        ),
        None => Err(
            Fault::Unsupported("contains() is only supported for indexed scalar text fields"@),
        ),
    }
}

/// Whether a filter says which key a row of metadata has.
pub open spec fn metadata_anchor(filter: Filter) -> bool {
    match filter {
        Filter::Compare { op, field, .. } => field == FilterField::MetadataKey && op
            != CompareOp::Neq,
        Filter::In { field, .. } => field == FilterField::MetadataKey,
        _ => false,
    }
}

/// Whether a filter says which key a row of feedback has.
pub open spec fn feedback_anchor(filter: Filter) -> bool {
    match filter {
        Filter::Compare { op, field, .. } => field == FilterField::FeedbackKey && op
            != CompareOp::Neq,
        _ => false,
    }
}

/// The condition on the one row of metadata that the filters of a conjunction
/// share, if this filter is one: a "not equal" is one only of a value, and only
/// where another filter says which key the row has.
pub open spec fn metadata_condition(filter: Filter, anchored: bool) -> Option<Seq<char>> {
    match filter {
        Filter::Compare { op, field, value } => if is_metadata(field) {
            if op == CompareOp::Neq && (field == FilterField::MetadataKey || !anchored) {
                None
            } else {
                Some(metadata_comparison(op, field, value))
            }
        } else {
            None
        },
        Filter::In { field, values } => if field == FilterField::MetadataKey {
            Some("key IN ("@ + literal_list(value_texts(values)) + ")"@)
        } else {
            None
        },
        _ => None,
    }
}

/// The condition on the one row of feedback that the filters of a conjunction
/// share, if this filter is one.
pub open spec fn feedback_condition(filter: Filter, anchored: bool) -> Option<
    Result<Seq<char>, Fault>,
> {
    match filter {
        Filter::Compare { op, field, value } => if is_feedback(field) {
            if op == CompareOp::Neq && (field == FilterField::FeedbackKey || !anchored) {
                None
            } else {
                Some(feedback_comparison(op, field, value))
            }
        } else {
            None
        },
        _ => None,
    }
}

/// The predicates and conditions that the filters of a conjunction come to.
pub struct Conjunction {
    pub predicates: Seq<Seq<char>>,
    pub metadata: Seq<Seq<char>>,
    pub feedback: Seq<Seq<char>>,
}

pub open spec fn any_metadata_anchor(filters: Seq<Filter>) -> bool {
    exists|i: int| 0 <= i < filters.len() && metadata_anchor(#[trigger] filters[i])
}

pub open spec fn any_feedback_anchor(filters: Seq<Filter>) -> bool {
    exists|i: int| 0 <= i < filters.len() && feedback_anchor(#[trigger] filters[i])
}

/// What the filters come to, each as a condition on the shared row where it is
/// one, and else as a predicate of its own.
pub open spec fn conjunction(
    filters: Seq<Filter>,
    metadata_anchored: bool,
    feedback_anchored: bool,
    alias: Seq<char>,
    projects: Option<Seq<Seq<char>>>,
) -> Result<Conjunction, Fault>
    decreases filters,
{
    if filters.len() == 0 {
        Ok(
            Conjunction {
                predicates: Seq::empty(),
                metadata: Seq::empty(),
                feedback: Seq::empty(),
            },
        )
    } else {
        match conjunction(
            filters.drop_last(),
            metadata_anchored,
            feedback_anchored,
            alias,
            projects,
        ) {
            Ok(done) => match metadata_condition(filters.last(), metadata_anchored) {
                Some(condition) => Ok(
                    Conjunction { metadata: done.metadata.push(condition), ..done },
                ),
                None => match feedback_condition(filters.last(), feedback_anchored) {
                    Some(Ok(condition)) => Ok(
                        Conjunction { feedback: done.feedback.push(condition), ..done },
                    ),
                    Some(Err(fault)) => Err(fault),
                    None => match predicate_of(filters.last(), alias, projects) {
                        Ok(predicate) => Ok(
                            Conjunction { predicates: done.predicates.push(predicate), ..done },
                        ),
                        Err(fault) => Err(fault),
                    },
                },
            },
            Err(fault) => Err(fault),
        }
    }
}

/// The predicates of all the filters, or the first fault.
pub open spec fn predicates_of(
    filters: Seq<Filter>,
    alias: Seq<char>,
    projects: Option<Seq<Seq<char>>>,
) -> Result<Seq<Seq<char>>, Fault>
    decreases filters,
{
    if filters.len() == 0 {
        Ok(Seq::empty())
    } else {
        match predicates_of(filters.drop_last(), alias, projects) {
            Ok(done) => match predicate_of(filters.last(), alias, projects) {
                Ok(predicate) => Ok(done.push(predicate)),
                Err(fault) => Err(fault),
            },
            Err(fault) => Err(fault),
        }
    }
}

/// A conjunction in SQL: the predicates, then the existence of the shared rows.
pub open spec fn conjunction_sql(
    parts: Conjunction,
    alias: Seq<char>,
    projects: Option<Seq<Seq<char>>>,
) -> Seq<char> {
    let first = if parts.metadata.len() > 0 {
        parts.predicates.push(metadata_exists(alias, parts.metadata, projects))
    } else {
        parts.predicates
    };
    let all = if parts.feedback.len() > 0 {
        first.push(feedback_exists(alias, parts.feedback, projects))
    } else {
        first
    };
    in_parentheses(join(all, " AND "@))
}

/// The SQL predicate over run heads that a filter comes to.
pub open spec fn predicate_of(
    filter: Filter,
    alias: Seq<char>,
    projects: Option<Seq<Seq<char>>>,
) -> Result<Seq<char>, Fault>
    decreases filter,
{
    match filter {
        Filter::And(filters) => if filters.len() == 0 {
            Err(Fault::Parse("and() requires at least one child"@))
        } else {
            match conjunction(
                filters,
                any_metadata_anchor(filters),
                any_feedback_anchor(filters),
                alias,
                projects,
            ) {
                Ok(parts) => Ok(conjunction_sql(parts, alias, projects)),
                Err(fault) => Err(fault),
            }
        },
        Filter::Or(filters) => if filters.len() == 0 {
            Err(Fault::Parse("or() requires at least one child"@))
        } else {
            match predicates_of(filters, alias, projects) {
                Ok(predicates) => Ok(in_parentheses(join(predicates, " OR "@))),
                Err(fault) => Err(fault),
            }
        },
        Filter::Compare { op, field, value } => compare_predicate(
            op,
            field,
            value,
            alias,
            projects,
        ),
        Filter::Has { field, value } => has_predicate(field, value, alias, projects),
        Filter::In { field, values } => in_predicate(field, values, alias, projects),
        Filter::Contains { field, value, negated } => contains_predicate(
            field,
            value,
            negated,
            alias,
            projects,
        ),
        Filter::Search { .. } | Filter::JsonKey { .. } | Filter::JsonKeySearch { .. } => Err(
            Fault::Unsupported("full-text search requires the Phase 6 object-store index"@),
        ),
    }
}

fn column(alias: &str, name: &str) -> (r: String)
    ensures
        r@ == column_sql(alias@, name@),
{
    let mut out = alias.to_owned();
    out.append(".");
    out.append(name);
    out
}

fn negate(predicate: &str) -> (r: String)
    ensures
        r@ == negated_sql(predicate@),
{
    let mut out = "NOT (".to_owned();
    out.append(predicate);
    out.append(")");
    out
}

fn parenthesize(text: &str) -> (r: String)
    ensures
        r@ == in_parentheses(text@),
{
    let mut out = "(".to_owned();
    out.append(text);
    out.append(")");
    out
}

/// What tells a run from every other.
pub fn run_key_sql(alias: &str) -> (r: String)
    ensures
        r@ == run_key_sql_spec(alias@),
{
    let mut out = alias.to_owned();
    out.append(".project_name || '\u{1f}' || ");
    out.append(alias);
    out.append(".trace_id || '\u{1f}' || ");
    out.append(alias);
    out.append(".span_id");
    out
}

fn project_scope_sql(alias: &str, projects: Option<&Vec<String>>) -> (r: String)
    ensures
        r@ == project_scope(alias@, scope_of(projects)),
{
    match projects {
        Some(names) => {
            assert(texts(names@).len() == names@.len());
            if names.len() > 0 {
                let mut out = alias.to_owned();
                out.append(".project_name IN (");
                out.append(sql_string_list(names).as_str());
                out.append(") AND ");
                out
            } else {
                String::new()
            }
        },
        None => String::new(),
    }
}

fn tag_exists_sql(alias: &str, tag: &str, projects: Option<&Vec<String>>) -> (r: String)
    ensures
        r@ == tag_exists(alias@, tag@, scope_of(projects)),
{
    let mut out = run_key_sql(alias);
    out.append(" IN (\n            SELECT ");
    out.append(run_key_sql("tag_filter").as_str());
    out.append("\n            FROM run_tags tag_filter\n            WHERE ");
    out.append(project_scope_sql("tag_filter", projects).as_str());
    out.append("tag_filter.tag = ");
    out.append(sql_string_literal(tag).as_str());
    out.append("\n        )");
    out
}

fn tag_in_sql(alias: &str, tags: &Vec<String>, projects: Option<&Vec<String>>) -> (r: String)
    ensures
        r@ == tag_in(alias@, texts(tags@), scope_of(projects)),
{
    let mut out = run_key_sql(alias);
    out.append(" IN (\n                    SELECT ");
    out.append(run_key_sql("tag_filter").as_str());
    out.append("\n                    FROM run_tags tag_filter\n                    WHERE ");
    out.append(project_scope_sql("tag_filter", projects).as_str());
    out.append("tag_filter.tag IN (");
    out.append(sql_string_list(tags).as_str());
    out.append(")\n                )");
    out
}

fn metadata_exists_sql(
    alias: &str,
    conditions: &Vec<String>,
    projects: Option<&Vec<String>>,
) -> (r: String)
    ensures
        r@ == metadata_exists(alias@, texts(conditions@), scope_of(projects)),
{
    let mut out = run_key_sql(alias);
    out.append(" IN (\n            SELECT ");
    out.append(run_key_sql("metadata_filter").as_str());
    out.append("\n            FROM run_metadata metadata_filter\n            WHERE ");
    out.append(project_scope_sql("metadata_filter", projects).as_str());
    out.append(joined(conditions, " AND ").as_str());
    out.append("\n        )");
    out
}

fn metadata_row_sql(alias: &str, condition: String, projects: Option<&Vec<String>>) -> (r: String)
    ensures
        r@ == metadata_exists(alias@, seq![condition@], scope_of(projects)),
{
    let ghost wanted = seq![condition@];
    let mut conditions: Vec<String> = Vec::new();
    conditions.push(condition);
    assert(texts(conditions@) =~= wanted);
    metadata_exists_sql(alias, &conditions, projects)
}

fn feedback_exists_sql(
    alias: &str,
    conditions: &Vec<String>,
    projects: Option<&Vec<String>>,
) -> (r: String)
    ensures
        r@ == feedback_exists(alias@, texts(conditions@), scope_of(projects)),
{
    let mut subquery =
        "SELECT feedback_filter.run_id FROM feedback feedback_filter\n            WHERE feedback_filter.run_id IS NOT NULL AND ".to_owned();
    subquery.append(project_scope_sql("feedback_filter", projects).as_str());
    subquery.append(joined(conditions, " AND ").as_str());
    let mut out = "((".to_owned();
    out.append(alias);
    out.append(".run_id <> '' AND ");
    out.append(alias);
    out.append(".run_id IN (");
    out.append(subquery.as_str());
    out.append("))\n            OR ");
    out.append(alias);
    out.append(".generated_run_id IN (");
    out.append(subquery.as_str());
    out.append("))");
    out
}

fn feedback_row_sql(alias: &str, condition: String, projects: Option<&Vec<String>>) -> (r: String)
    ensures
        r@ == feedback_exists(alias@, seq![condition@], scope_of(projects)),
{
    let ghost wanted = seq![condition@];
    let mut conditions: Vec<String> = Vec::new();
    conditions.push(condition);
    assert(texts(conditions@) =~= wanted);
    feedback_exists_sql(alias, &conditions, projects)
}

fn id_sql(alias: &str, id: &str) -> (r: String)
    ensures
        r@ == id_is(alias@, id@),
{
    let id = sql_string_literal(id);
    let mut out = "(NULLIF(".to_owned();
    out.append(alias);
    out.append(".run_id, '') = ");
    out.append(id.as_str());
    out.append(" OR ");
    out.append(alias);
    out.append(".generated_run_id = ");
    out.append(id.as_str());
    out.append(")");
    out
}

fn compare_sql(op: CompareOp, column: &str, rhs: &str) -> (r: String)
    ensures
        r@ == comparison(op, column@, rhs@),
{
    let operator = match op {
        CompareOp::Eq => "=",
        CompareOp::Neq => "<>",
        CompareOp::Gt => ">",
        CompareOp::Gte => ">=",
        CompareOp::Lt => "<",
        CompareOp::Lte => "<=",
    };
    let mut out = column.to_owned();
    out.append(" ");
    out.append(operator);
    out.append(" ");
    out.append(rhs);
    out
}

fn must_be_error(field: &str, what: &str) -> (r: FilterError)
    ensures
        r@ == must_be(field@, what@),
{
    let mut message = field.to_owned();
    message.append(" must be ");
    message.append(what);
    FilterError::Parse(message)
}

impl FilterValue {
    fn as_bool(&self, field: &str) -> (r: Result<bool, FilterError>)
        ensures
            match r {
                Ok(b) => bool_of(self@, field@) == Ok::<_, Fault>(b),
                Err(error) => bool_of(self@, field@) == Err::<bool, _>(error@),
            },
    {
        match self {
            FilterValue::Bool(b) => Ok(*b),
            FilterValue::Text(text) => {
                let word = lowered(text.text.as_str());
                if same(word.as_str(), "true") {
                    Ok(true)
                } else if same(word.as_str(), "false") {
                    Ok(false)
                } else {
                    Err(must_be_error(field, "boolean"))
                }
            },
            FilterValue::Number(_) => Err(must_be_error(field, "boolean")),
        }
    }

    fn as_i64(&self, field: &str) -> (r: Result<i64, FilterError>)
        ensures
            match r {
                Ok(n) => integer_of(self@, field@) == Ok::<_, Fault>(n),
                Err(error) => integer_of(self@, field@) == Err::<i64, _>(error@),
            },
    {
        match self {
            FilterValue::Number(reading) => Ok(reading.whole),
            FilterValue::Text(text) => match parsed_i64(text.text.as_str()) {
                Some(n) => Ok(n),
                None => Err(must_be_error(field, "an integer")),
            },
            FilterValue::Bool(_) => Err(must_be_error(field, "numeric")),
        }
    }

    /// The number that the value stands for, as it is displayed.
    fn as_number_text(&self, field: &str) -> (r: Result<String, FilterError>)
        ensures
            match r {
                Ok(number) => number_of(self@, field@) == Ok::<_, Fault>(number@),
                Err(error) => number_of(self@, field@) == Err::<Seq<char>, _>(error@),
            },
    {
        match self {
            FilterValue::Number(reading) => Ok(reading.text.clone()),
            FilterValue::Text(text) => match &text.number {
                Some(reading) => Ok(reading.text.clone()),
                None => Err(must_be_error(field, "numeric")),
            },
            FilterValue::Bool(_) => Err(must_be_error(field, "numeric")),
        }
    }

    fn as_duration_nanos(&self) -> (r: Result<i64, FilterError>)
        ensures
            match r {
                Ok(n) => duration_of(self@) == Ok::<_, Fault>(n),
                Err(error) => duration_of(self@) == Err::<i64, _>(error@),
            },
    {
        match self {
            FilterValue::Number(reading) => Ok(reading.nanos),
            FilterValue::Text(text) => match &text.seconds {
                Some(reading) => Ok(reading.nanos),
                None => Err(FilterError::Parse("latency must be seconds".to_owned())),
            },
            FilterValue::Bool(_) => Err(FilterError::Parse("latency must be numeric".to_owned())),
        }
    }

    fn as_time_nanos(&self, field: &str) -> (r: Result<i64, FilterError>)
        ensures
            match r {
                Ok(n) => instant_of(self@, field@) == Ok::<_, Fault>(n),
                Err(error) => instant_of(self@, field@) == Err::<i64, _>(error@),
            },
    {
        match self {
            FilterValue::Text(text) => match parse_rfc3339_clamped(text.text.as_str()) {
                Some(n) => Ok(n),
                None => Err(must_be_error(field, "RFC3339")),
            },
            _ => self.as_i64(field),
        }
    }
}

fn compile_text_column(op: CompareOp, column: &str, value: &FilterValue) -> (r: String)
    ensures
        r@ == text_comparison(op, column@, value@),
{
    compare_sql(op, column, sql_string_literal(value.as_string().as_str()).as_str())
}

fn compile_i64_column(op: CompareOp, column: &str, value: Result<i64, FilterError>) -> (r: Result<
    String,
    FilterError,
>)
    ensures
        match value {
            Ok(n) => r is Ok && integer_comparison(op, column@, Ok(n)) == Ok::<_, Fault>(r->Ok_0@),
            Err(error) => r == Err::<String, FilterError>(error),
        },
{
    match value {
        Ok(n) => Ok(compare_sql(op, column, integer_text(n).as_str())),
        Err(error) => Err(error),
    }
}

fn compile_f64_column(op: CompareOp, column: &str, value: &FilterValue, field: &str) -> (r: Result<
    String,
    FilterError,
>)
    ensures
        match r {
            Ok(sql) => number_comparison(op, column@, value@, field@) == Ok::<_, Fault>(sql@),
            Err(error) => number_comparison(op, column@, value@, field@) == Err::<Seq<char>, _>(
                error@,
            ),
        },
{
    match value.as_number_text(field) {
        Ok(number) => Ok(compare_sql(op, column, number.as_str())),
        Err(error) => Err(error),
    }
}

fn compile_bool_column(op: CompareOp, column: &str, value: bool) -> (r: Result<
    String,
    FilterError,
>)
    ensures
        match r {
            Ok(sql) => bool_comparison(op, column@, value) == Ok::<_, Fault>(sql@),
            Err(error) => bool_comparison(op, column@, value) == Err::<Seq<char>, _>(error@),
        },
{
    let word = if value {
        "true"
    } else {
        "false"
    };
    match op {
        CompareOp::Eq => {
            let mut out = column.to_owned();
            out.append(" = ");
            out.append(word);
            Ok(out)
        },
        CompareOp::Neq => {
            let mut out = column.to_owned();
            out.append(" <> ");
            out.append(word);
            Ok(out)
        },
        _ => Err(FilterError::Unsupported("boolean fields only support eq and neq".to_owned())),
    }
}

fn compile_error_column(op: CompareOp, column: &str, value: bool) -> (r: Result<
    String,
    FilterError,
>)
    ensures
        match r {
            Ok(sql) => error_comparison(op, column@, value) == Ok::<_, Fault>(sql@),
            Err(error) => error_comparison(op, column@, value) == Err::<Seq<char>, _>(error@),
        },
{
    let mut out = column.to_owned();
    match op {
        CompareOp::Eq => {
            if value {
                out.append(" = 'error'");
            } else {
                out.append(" <> 'error'");
            }
            Ok(out)
        },
        CompareOp::Neq => {
            if value {
                out.append(" <> 'error'");
            } else {
                out.append(" = 'error'");
            }
            Ok(out)
        },
        _ => Err(
            FilterError::Unsupported("error only supports eq and neq boolean filters".to_owned()),
        ),
    }
}

fn text_column_name(field: FilterField) -> (r: Option<&'static str>)
    ensures
        match r {
            Some(name) => text_column(field) == Some(name@),
            None => text_column(field) is None,
        },
{
    match field {
        FilterField::Name => Some("name"),
        FilterField::ProjectName => Some("project_name"),
        FilterField::RunType => Some("run_type"),
        FilterField::Status => Some("status"),
        FilterField::TraceId => Some("trace_id"),
        FilterField::RootRunId => Some("root_run_id"),
        FilterField::RootSpanId => Some("root_span_id"),
        FilterField::ModelName => Some("model_name"),
        FilterField::ProviderName => Some("provider_name"),
        _ => None,
    }
}

fn metadata_compare_condition(op: CompareOp, field: FilterField, value: &FilterValue) -> (r: String)
    ensures
        r@ == metadata_comparison(op, field, value@),
{
    let column = if field == FilterField::MetadataKey {
        "key"
    } else {
        "value"
    };
    compile_text_column(op, column, value)
}

fn feedback_compare_condition(op: CompareOp, field: FilterField, value: &FilterValue) -> (r: Result<
    String,
    FilterError,
>)
    ensures
        match r {
            Ok(sql) => feedback_comparison(op, field, value@) == Ok::<_, Fault>(sql@),
            Err(error) => feedback_comparison(op, field, value@) == Err::<Seq<char>, _>(error@),
        },
{
    if field == FilterField::FeedbackKey {
        Ok(compile_text_column(op, "key", value))
    } else if field == FilterField::FeedbackValue {
        Ok(compile_text_column(op, "value_text", value))
    } else {
        compile_f64_column(op, "score_number", value, "feedback_score")
    }
}

fn compile_metadata_atom(
    op: CompareOp,
    field: FilterField,
    value: &FilterValue,
    alias: &str,
    projects: Option<&Vec<String>>,
) -> (r: String)
    ensures
        r@ == metadata_atom(op, field, value@, alias@, scope_of(projects)),
{
    if op == CompareOp::Neq {
        let condition = metadata_compare_condition(CompareOp::Eq, field, value);
        negate(metadata_row_sql(alias, condition, projects).as_str())
    } else {
        let condition = metadata_compare_condition(op, field, value);
        metadata_row_sql(alias, condition, projects)
    }
}

fn compile_feedback_atom(
    op: CompareOp,
    field: FilterField,
    value: &FilterValue,
    alias: &str,
    projects: Option<&Vec<String>>,
) -> (r: Result<String, FilterError>)
    ensures
        match r {
            Ok(sql) => feedback_atom(op, field, value@, alias@, scope_of(projects)) == Ok::<
                _,
                Fault,
            >(sql@),
            Err(error) => feedback_atom(op, field, value@, alias@, scope_of(projects)) == Err::<
                Seq<char>,
                _,
            >(error@),
        },
{
    if op == CompareOp::Neq {
        match feedback_compare_condition(CompareOp::Eq, field, value) {
            Ok(condition) => Ok(negate(feedback_row_sql(alias, condition, projects).as_str())),
            Err(error) => Err(error),
        }
    } else {
        match feedback_compare_condition(op, field, value) {
            Ok(condition) => Ok(feedback_row_sql(alias, condition, projects)),
            Err(error) => Err(error),
        }
    }
}

/// The predicate of a comparison.
pub fn compile_compare(
    op: CompareOp,
    field: FilterField,
    value: &FilterValue,
    alias: &str,
    projects: Option<&Vec<String>>,
) -> (r: Result<String, FilterError>)
    ensures
        match r {
            Ok(sql) => compare_predicate(op, field, value@, alias@, scope_of(projects)) == Ok::<
                _,
                Fault,
            >(sql@),
            Err(error) => compare_predicate(op, field, value@, alias@, scope_of(projects)) == Err::<
                Seq<char>,
                _,
            >(error@),
        },
{
    match field {
        FilterField::MetadataKey | FilterField::MetadataValue => Ok(
            compile_metadata_atom(op, field, value, alias, projects),
        ),
        FilterField::FeedbackKey
        | FilterField::FeedbackScore
        | FilterField::FeedbackValue => compile_feedback_atom(op, field, value, alias, projects),
        FilterField::Tags => {
            let tag = value.as_string();
            match op {
                CompareOp::Eq => Ok(tag_exists_sql(alias, tag.as_str(), projects)),
                CompareOp::Neq => Ok(
                    negate(tag_exists_sql(alias, tag.as_str(), projects).as_str()),
                ),
                _ => Err(
                    FilterError::Unsupported("tags only support eq, neq, has, and in".to_owned()),
                ),
            }
        },
        FilterField::Id => {
            let predicate = id_sql(alias, value.as_string().as_str());
            match op {
                CompareOp::Eq => Ok(predicate),
                CompareOp::Neq => Ok(negate(predicate.as_str())),
                _ => Err(FilterError::Unsupported("id only supports eq, neq, and in".to_owned())),
            }
        },
        FilterField::StartTime => compile_i64_column(
            op,
            column(alias, "start_time_unix_nano").as_str(),
            value.as_time_nanos("start_time"),
        ),
        FilterField::EndTime => compile_i64_column(
            op,
            column(alias, "end_time_unix_nano").as_str(),
            value.as_time_nanos("end_time"),
        ),
        FilterField::Latency => compile_i64_column(
            op,
            column(alias, "latency_nanos").as_str(),
            value.as_duration_nanos(),
        ),
        FilterField::PromptTokens => compile_i64_column(
            op,
            column(alias, "prompt_tokens").as_str(),
            value.as_i64("prompt_tokens"),
        ),
        FilterField::CompletionTokens => compile_i64_column(
            op,
            column(alias, "completion_tokens").as_str(),
            value.as_i64("completion_tokens"),
        ),
        FilterField::TotalTokens => compile_i64_column(
            op,
            column(alias, "total_tokens").as_str(),
            value.as_i64("total_tokens"),
        ),
        FilterField::TotalCost => compile_f64_column(
            op,
            column(alias, "total_cost").as_str(),
            value,
            "total_cost",
        ),
        FilterField::IsRoot => match value.as_bool("is_root") {
            Ok(b) => compile_bool_column(op, column(alias, "is_root").as_str(), b),
            Err(error) => Err(error),
        },
        FilterField::Error => match value.as_bool("error") {
            Ok(b) => compile_error_column(op, column(alias, "status").as_str(), b),
            Err(error) => Err(error),
        },
        FilterField::Inputs
        | FilterField::Outputs
        | FilterField::Extra
        | FilterField::AttributesJson => Err(
            FilterError::Unsupported(
                "payload JSON filters require the Phase 6 object-store index".to_owned(),
            ),
        ),
        _ => {
            let name = match text_column_name(field) {
                Some(name) => name,
                None => "",
            };
            Ok(compile_text_column(op, column(alias, name).as_str(), value))
        },
    }
}

fn compile_has(
    field: FilterField,
    value: &FilterValue,
    alias: &str,
    projects: Option<&Vec<String>>,
) -> (r: Result<String, FilterError>)
    ensures
        match r {
            Ok(sql) => has_predicate(field, value@, alias@, scope_of(projects)) == Ok::<_, Fault>(
                sql@,
            ),
            Err(error) => has_predicate(field, value@, alias@, scope_of(projects)) == Err::<
                Seq<char>,
                _,
            >(error@),
        },
{
    let text = value.as_string();
    if field == FilterField::Tags {
        Ok(tag_exists_sql(alias, text.as_str(), projects))
    } else if field == FilterField::MetadataKey {
        let mut condition = "key = ".to_owned();
        condition.append(sql_string_literal(text.as_str()).as_str());
        Ok(metadata_row_sql(alias, condition, projects))
    } else {
        Err(
            FilterError::Unsupported(
                "has() is supported for tags and metadata_key only".to_owned(),
            ),
        )
    }
}

fn strings_of(values: &Vec<FilterValue>) -> (r: Vec<String>)
    ensures
        texts(r@) == value_texts(values_of(values@)),
{
    let mut out: Vec<String> = Vec::new();
    let mut i: usize = 0;
    while i < values.len()
        invariant
            i <= values.len(),
            out.len() == i,
            forall|j: int|
                0 <= j < i ==> #[trigger] texts(out@)[j] == value_texts(values_of(values@))[j],
        decreases values.len() - i,
    {
        let ghost before = out@;
        out.push(values[i].as_string());
        i += 1;
        assert forall|j: int| 0 <= j < i implies #[trigger] texts(out@)[j] == value_texts(
            values_of(values@),
        )[j] by {
            if j < i - 1 {
                assert(texts(out@)[j] == texts(before)[j]);
            }
        }
    }
    assert(texts(out@) =~= value_texts(values_of(values@)));
    out
}

fn equality_conditions(column: &str, values: &Vec<FilterValue>) -> (r: Vec<String>)
    ensures
        texts(r@) == equalities(column@, values_of(values@)),
{
    let mut out: Vec<String> = Vec::new();
    let mut i: usize = 0;
    while i < values.len()
        invariant
            i <= values.len(),
            out.len() == i,
            forall|j: int|
                0 <= j < i ==> #[trigger] texts(out@)[j] == equalities(
                    column@,
                    values_of(values@),
                )[j],
        decreases values.len() - i,
    {
        let ghost before = out@;
        let mut condition = column.to_owned();
        condition.append(" = ");
        condition.append(sql_string_literal(values[i].as_string().as_str()).as_str());
        out.push(condition);
        i += 1;
        assert forall|j: int| 0 <= j < i implies #[trigger] texts(out@)[j] == equalities(
            column@,
            values_of(values@),
        )[j] by {
            if j < i - 1 {
                assert(texts(out@)[j] == texts(before)[j]);
            }
        }
    }
    assert(texts(out@) =~= equalities(column@, values_of(values@)));
    out
}

fn id_conditions(alias: &str, values: &Vec<FilterValue>) -> (r: Vec<String>)
    ensures
        texts(r@) == id_equalities(alias@, values_of(values@)),
{
    let mut out: Vec<String> = Vec::new();
    let mut i: usize = 0;
    while i < values.len()
        invariant
            i <= values.len(),
            out.len() == i,
            forall|j: int|
                0 <= j < i ==> #[trigger] texts(out@)[j] == id_equalities(
                    alias@,
                    values_of(values@),
                )[j],
        decreases values.len() - i,
    {
        let ghost before = out@;
        out.push(id_sql(alias, values[i].as_string().as_str()));
        i += 1;
        assert forall|j: int| 0 <= j < i implies #[trigger] texts(out@)[j] == id_equalities(
            alias@,
            values_of(values@),
        )[j] by {
            if j < i - 1 {
                assert(texts(out@)[j] == texts(before)[j]);
            }
        }
    }
    assert(texts(out@) =~= id_equalities(alias@, values_of(values@)));
    out
}

/// The predicate of being one of several values.
pub fn compile_in(
    field: FilterField,
    values: &Vec<FilterValue>,
    alias: &str,
    projects: Option<&Vec<String>>,
) -> (r: Result<String, FilterError>)
    ensures
        match r {
            Ok(sql) => in_predicate(field, values_of(values@), alias@, scope_of(projects)) == Ok::<
                _,
                Fault,
            >(sql@),
            Err(error) => in_predicate(field, values_of(values@), alias@, scope_of(projects))
                == Err::<Seq<char>, _>(error@),
        },
{
    assert(values_of(values@).len() == values@.len());
    if values.len() == 0 {
        return Err(FilterError::Parse("in() requires a non-empty list".to_owned()));
    }
    if field == FilterField::Tags {
        let tags = strings_of(values);
        return Ok(tag_in_sql(alias, &tags, projects));
    }
    if field == FilterField::MetadataKey || field == FilterField::MetadataValue {
        let column = if field == FilterField::MetadataKey {
            "key"
        } else {
            "value"
        };
        let conditions = equality_conditions(column, values);
        let either = parenthesize(joined(&conditions, " OR ").as_str());
        return Ok(metadata_row_sql(alias, either, projects));
    }
    if field == FilterField::Id {
        let conditions = id_conditions(alias, values);
        return Ok(parenthesize(joined(&conditions, " OR ").as_str()));
    }
    match text_column_name(field) {
        Some(name) => {
            let texts = strings_of(values);
            let mut out = column(alias, name);
            out.append(" IN (");
            out.append(sql_string_list(&texts).as_str());
            out.append(")");
            Ok(out)
        },
        None => Err(
            FilterError::Unsupported(
                "in() is supported for indexed scalar text fields, tags, and metadata".to_owned(),
            ),
        ),
    }
}

fn like_sql(column: &str, text: &str) -> (r: String)
    ensures
        r@ == like_predicate(column@, text@),
{
    let mut pattern = "%".to_owned();
    pattern.append(escape_like_pattern(lowered(text).as_str()).as_str());
    pattern.append("%");
    let mut out = "LOWER(".to_owned();
    out.append(column);
    out.append(") LIKE ");
    out.append(sql_string_literal(pattern.as_str()).as_str());
    out.append(" ESCAPE '\\'");
    out
}

fn compile_contains(
    field: FilterField,
    value: &FilterValue,
    negated: bool,
    alias: &str,
    projects: Option<&Vec<String>>,
) -> (r: Result<String, FilterError>)
    ensures
        match r {
            Ok(sql) => contains_predicate(field, value@, negated, alias@, scope_of(projects))
                == Ok::<_, Fault>(sql@),
            Err(error) => contains_predicate(field, value@, negated, alias@, scope_of(projects))
                == Err::<Seq<char>, _>(error@),
        },
{
    let text = value.as_string();
    let predicate = match text_column_name(field) {
        Some(name) => like_sql(column(alias, name).as_str(), text.as_str()),
        None => if field == FilterField::MetadataValue {
            metadata_row_sql(alias, like_sql("value", text.as_str()), projects)
        } else {
            return Err(
                FilterError::Unsupported(
                    "contains() is only supported for indexed scalar text fields".to_owned(),
                ),
            );
        },
    };
    if negated {
        Ok(negate(predicate.as_str()))
    } else {
        Ok(predicate)
    }
}

fn is_positive_metadata_key_condition(expr: &FilterExpr) -> (r: bool)
    ensures
        r == metadata_anchor(expr@),
{
    match expr {
        FilterExpr::Compare { op, field, .. } => *field == FilterField::MetadataKey && *op
            != CompareOp::Neq,
        FilterExpr::In { field, .. } => *field == FilterField::MetadataKey,
        _ => false,
    }
}

fn is_positive_feedback_key_condition(expr: &FilterExpr) -> (r: bool)
    ensures
        r == feedback_anchor(expr@),
{
    match expr {
        FilterExpr::Compare { op, field, .. } => *field == FilterField::FeedbackKey && *op
            != CompareOp::Neq,
        _ => false,
    }
}

fn metadata_row_condition(expr: &FilterExpr, anchored: bool) -> (r: Option<String>)
    ensures
        match r {
            Some(condition) => metadata_condition(expr@, anchored) == Some(condition@),
            None => metadata_condition(expr@, anchored) is None,
        },
{
    match expr {
        FilterExpr::Compare { op, field, value } => {
            if *field == FilterField::MetadataKey || *field == FilterField::MetadataValue {
                if *op == CompareOp::Neq && (*field == FilterField::MetadataKey || !anchored) {
                    None
                } else {
                    Some(metadata_compare_condition(*op, *field, value))
                }
            } else {
                None
            }
        },
        FilterExpr::In { field, values } => {
            if *field == FilterField::MetadataKey {
                let keys = strings_of(values);
                let mut out = "key IN (".to_owned();
                out.append(sql_string_list(&keys).as_str());
                out.append(")");
                Some(out)
            } else {
                None
            }
        },
        _ => None,
    }
}

fn feedback_row_condition(expr: &FilterExpr, anchored: bool) -> (r: Option<
    Result<String, FilterError>,
>)
    ensures
        match r {
            Some(Ok(condition)) => feedback_condition(expr@, anchored) == Some(
                Ok::<_, Fault>(condition@),
            ),
            Some(Err(error)) => feedback_condition(expr@, anchored) == Some(
                Err::<Seq<char>, _>(error@),
            ),
            None => feedback_condition(expr@, anchored) is None,
        },
{
    match expr {
        FilterExpr::Compare { op, field, value } => {
            if *field == FilterField::FeedbackKey || *field == FilterField::FeedbackScore || *field
                == FilterField::FeedbackValue {
                if *op == CompareOp::Neq && (*field == FilterField::FeedbackKey || !anchored) {
                    None
                } else {
                    Some(feedback_compare_condition(*op, *field, value))
                }
            } else {
                None
            }
        },
        _ => None,
    }
}

fn has_metadata_anchor(children: &Vec<FilterExpr>) -> (r: bool)
    ensures
        r == any_metadata_anchor(filters_of(children@)),
{
    let mut i: usize = 0;
    while i < children.len()
        invariant
            i <= children.len(),
            forall|j: int|
                0 <= j < i ==> !metadata_anchor(#[trigger] filters_of(children@)[j]),
        decreases children.len() - i,
    {
        if is_positive_metadata_key_condition(&children[i]) {
            assert(metadata_anchor(filters_of(children@)[i as int]));
            return true;
        }
        i += 1;
    }
    false
}

fn has_feedback_anchor(children: &Vec<FilterExpr>) -> (r: bool)
    ensures
        r == any_feedback_anchor(filters_of(children@)),
{
    let mut i: usize = 0;
    while i < children.len()
        invariant
            i <= children.len(),
            forall|j: int|
                0 <= j < i ==> !feedback_anchor(#[trigger] filters_of(children@)[j]),
        decreases children.len() - i,
    {
        if is_positive_feedback_key_condition(&children[i]) {
            assert(feedback_anchor(filters_of(children@)[i as int]));
            return true;
        }
        i += 1;
    }
    false
}

proof fn lemma_conjunction_fault(
    filters: Seq<Filter>,
    upto: int,
    metadata_anchored: bool,
    feedback_anchored: bool,
    alias: Seq<char>,
    projects: Option<Seq<Seq<char>>>,
)
    requires
        0 <= upto <= filters.len(),
        conjunction(filters.take(upto), metadata_anchored, feedback_anchored, alias, projects)
            is Err,
    ensures
        conjunction(filters, metadata_anchored, feedback_anchored, alias, projects) == conjunction(
            filters.take(upto),
            metadata_anchored,
            feedback_anchored,
            alias,
            projects,
        ),
    decreases filters.len(),
{
    if upto == filters.len() {
        assert(filters.take(upto) =~= filters);
    } else {
        assert(filters.drop_last().take(upto) =~= filters.take(upto));
        lemma_conjunction_fault(
            filters.drop_last(),
            upto,
            metadata_anchored,
            feedback_anchored,
            alias,
            projects,
        );
    }
}

proof fn lemma_predicates_fault(
    filters: Seq<Filter>,
    upto: int,
    alias: Seq<char>,
    projects: Option<Seq<Seq<char>>>,
)
    requires
        0 <= upto <= filters.len(),
        predicates_of(filters.take(upto), alias, projects) is Err,
    ensures
        predicates_of(filters, alias, projects) == predicates_of(
            filters.take(upto),
            alias,
            projects,
        ),
    decreases filters.len(),
{
    if upto == filters.len() {
        assert(filters.take(upto) =~= filters);
    } else {
        assert(filters.drop_last().take(upto) =~= filters.take(upto));
        lemma_predicates_fault(filters.drop_last(), upto, alias, projects);
    }
}

fn compile_and(children: &Vec<FilterExpr>, alias: &str, projects: Option<&Vec<String>>) -> (r:
    Result<String, FilterError>)
    ensures
        match r {
            Ok(sql) => predicate_of(Filter::And(filters_of(children@)), alias@, scope_of(projects))
                == Ok::<_, Fault>(sql@),
            Err(error) => predicate_of(
                Filter::And(filters_of(children@)),
                alias@,
                scope_of(projects),
            ) == Err::<Seq<char>, _>(error@),
        },
    decreases children,
{
    let ghost filters = filters_of(children@);
    let ghost scope = scope_of(projects);
    assert(filters.len() == children@.len());
    if children.len() == 0 {
        return Err(FilterError::Parse("and() requires at least one child".to_owned()));
    }
    let mut predicates: Vec<String> = Vec::new();
    let mut metadata_conditions: Vec<String> = Vec::new();
    let mut feedback_conditions: Vec<String> = Vec::new();
    let metadata_anchored = has_metadata_anchor(children);
    let feedback_anchored = has_feedback_anchor(children);
    let mut i: usize = 0;
    assert(texts(predicates@) =~= Seq::<Seq<char>>::empty());
    assert(texts(metadata_conditions@) =~= Seq::<Seq<char>>::empty());
    assert(texts(feedback_conditions@) =~= Seq::<Seq<char>>::empty());
    assert(filters.take(0) =~= Seq::<Filter>::empty());
    while i < children.len()
        invariant
            i <= children.len(),
            children.len() > 0,
            filters == filters_of(children@),
            filters.len() == children@.len(),
            scope == scope_of(projects),
            metadata_anchored == any_metadata_anchor(filters),
            feedback_anchored == any_feedback_anchor(filters),
            conjunction(
                filters.take(i as int),
                metadata_anchored,
                feedback_anchored,
                alias@,
                scope,
            ) == Ok::<_, Fault>(
                Conjunction {
                    predicates: texts(predicates@),
                    metadata: texts(metadata_conditions@),
                    feedback: texts(feedback_conditions@),
                },
            ),
        decreases children.len() - i,
    {
        let ghost now = filters.take(i + 1);
        assert(now.drop_last() =~= filters.take(i as int));
        assert(now.last() == children@[i as int]@);
        let ghost old_predicates = predicates@;
        let ghost old_metadata = metadata_conditions@;
        let ghost old_feedback = feedback_conditions@;
        match metadata_row_condition(&children[i], metadata_anchored) {
            Some(condition) => {
                let ghost text = condition@;
                metadata_conditions.push(condition);
                assert(texts(metadata_conditions@) =~= texts(old_metadata).push(text));
            },
            None => {
                match feedback_row_condition(&children[i], feedback_anchored) {
                    Some(Ok(condition)) => {
                        let ghost text = condition@;
                        feedback_conditions.push(condition);
                        assert(texts(feedback_conditions@) =~= texts(old_feedback).push(text));
                    },
                    Some(Err(error)) => {
                        proof {
                            lemma_conjunction_fault(
                                filters,
                                i + 1,
                                metadata_anchored,
                                feedback_anchored,
                                alias@,
                                scope,
                            );
                        }
                        return Err(error);
                    },
                    None => {
                        match compile_expr(&children[i], alias, projects) {
                            Ok(predicate) => {
                                let ghost text = predicate@;
                                predicates.push(predicate);
                                assert(texts(predicates@) =~= texts(old_predicates).push(text));
                            },
                            Err(error) => {
                                proof {
                                    lemma_conjunction_fault(
                                        filters,
                                        i + 1,
                                        metadata_anchored,
                                        feedback_anchored,
                                        alias@,
                                        scope,
                                    );
                                }
                                return Err(error);
                            },
                        }
                    },
                }
            },
        }
        i += 1;
    }
    assert(filters.take(i as int) =~= filters);
    let ghost own = texts(predicates@);
    assert(texts(metadata_conditions@).len() == metadata_conditions@.len());
    assert(texts(feedback_conditions@).len() == feedback_conditions@.len());
    let ghost before_metadata = predicates@;
    if metadata_conditions.len() > 0 {
        let exists_sql = metadata_exists_sql(alias, &metadata_conditions, projects);
        let ghost text = exists_sql@;
        predicates.push(exists_sql);
        assert(texts(predicates@) =~= texts(before_metadata).push(text));
    }
    let ghost before_feedback = predicates@;
    if feedback_conditions.len() > 0 {
        let exists_sql = feedback_exists_sql(alias, &feedback_conditions, projects);
        let ghost text = exists_sql@;
        predicates.push(exists_sql);
        assert(texts(predicates@) =~= texts(before_feedback).push(text));
    }
    Ok(parenthesize(joined(&predicates, " AND ").as_str()))
}

fn compile_or(children: &Vec<FilterExpr>, alias: &str, projects: Option<&Vec<String>>) -> (r:
    Result<String, FilterError>)
    ensures
        match r {
            Ok(sql) => predicate_of(Filter::Or(filters_of(children@)), alias@, scope_of(projects))
                == Ok::<_, Fault>(sql@),
            Err(error) => predicate_of(
                Filter::Or(filters_of(children@)),
                alias@,
                scope_of(projects),
            ) == Err::<Seq<char>, _>(error@),
        },
    decreases children,
{
    let ghost filters = filters_of(children@);
    let ghost scope = scope_of(projects);
    assert(filters.len() == children@.len());
    if children.len() == 0 {
        return Err(FilterError::Parse("or() requires at least one child".to_owned()));
    }
    let mut predicates: Vec<String> = Vec::new();
    let mut i: usize = 0;
    assert(texts(predicates@) =~= Seq::<Seq<char>>::empty());
    assert(filters.take(0) =~= Seq::<Filter>::empty());
    while i < children.len()
        invariant
            i <= children.len(),
            children.len() > 0,
            filters == filters_of(children@),
            filters.len() == children@.len(),
            scope == scope_of(projects),
            predicates_of(filters.take(i as int), alias@, scope) == Ok::<_, Fault>(
                texts(predicates@),
            ),
        decreases children.len() - i,
    {
        let ghost now = filters.take(i + 1);
        assert(now.drop_last() =~= filters.take(i as int));
        assert(now.last() == children@[i as int]@);
        let ghost before = predicates@;
        match compile_expr(&children[i], alias, projects) {
            Ok(predicate) => {
                let ghost text = predicate@;
                predicates.push(predicate);
                assert(texts(predicates@) =~= texts(before).push(text));
            },
            Err(error) => {
                proof {
                    lemma_predicates_fault(filters, i + 1, alias@, scope);
                }
                return Err(error);
            },
        }
        i += 1;
    }
    assert(filters.take(i as int) =~= filters);
    Ok(parenthesize(joined(&predicates, " OR ").as_str()))
}

/// The SQL predicate over run heads that a filter comes to.
pub fn compile_expr(expr: &FilterExpr, alias: &str, projects: Option<&Vec<String>>) -> (r: Result<
    String,
    FilterError,
>)
    ensures
        match r {
            Ok(sql) => predicate_of(expr@, alias@, scope_of(projects)) == Ok::<_, Fault>(sql@),
            Err(error) => predicate_of(expr@, alias@, scope_of(projects)) == Err::<Seq<char>, _>(
                error@,
            ),
        },
    decreases expr,
{
    match expr {
        FilterExpr::And(children) => {
            proof {
                lemma_children_view(*children);
            }
            compile_and(children, alias, projects)
        },
        FilterExpr::Or(children) => {
            proof {
                lemma_children_view(*children);
            }
            compile_or(children, alias, projects)
        },
        FilterExpr::Compare { op, field, value } => compile_compare(
            *op,
            *field,
            value,
            alias,
            projects,
        ),
        FilterExpr::Has { field, value } => compile_has(*field, value, alias, projects),
        FilterExpr::In { field, values } => compile_in(*field, values, alias, projects),
        FilterExpr::Contains { field, value, negated } => compile_contains(
            *field,
            value,
            *negated,
            alias,
            projects,
        ),
        FilterExpr::Search { .. }
        | FilterExpr::JsonKey { .. }
        | FilterExpr::JsonKeySearch { .. } => Err(
            FilterError::Unsupported(
                "full-text search requires the Phase 6 object-store index".to_owned(),
            ),
        ),
    }
}

} // verus!
