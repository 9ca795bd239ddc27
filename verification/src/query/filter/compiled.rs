//! That the predicate of a filter holds of a run exactly if the filter does.

use crate::query::filter::CompareOp;
use crate::query::filter::Filter;
use crate::query::filter::FilterField;
use crate::query::filter::Operand;
use crate::query::filter::compile::any_feedback_anchor;
use crate::query::filter::compile::any_metadata_anchor;
use crate::query::filter::compile::compare_predicate;
use crate::query::filter::compile::conjunction;
use crate::query::filter::compile::contains_predicate;
use crate::query::filter::compile::equalities;
use crate::query::filter::compile::feedback_anchor;
use crate::query::filter::compile::feedback_comparison;
use crate::query::filter::compile::feedback_condition;
use crate::query::filter::compile::feedback_exists;
use crate::query::filter::compile::id_equalities;
use crate::query::filter::compile::id_is;
use crate::query::filter::compile::in_predicate;
use crate::query::filter::compile::metadata_anchor;
use crate::query::filter::compile::metadata_comparison;
use crate::query::filter::compile::metadata_condition;
use crate::query::filter::compile::metadata_exists;
use crate::query::filter::compile::predicate_of;
use crate::query::filter::compile::predicates_of;
use crate::query::filter::compile::text_column;
use crate::query::filter::compile::value_texts;
use crate::query::filter::meaning::Column;
use crate::query::filter::meaning::Condition;
use crate::query::filter::meaning::Constant;
use crate::query::filter::meaning::Datum;
use crate::query::filter::meaning::FeedbackRow;
use crate::query::filter::meaning::MetadataRow;
use crate::query::filter::meaning::Order;
use crate::query::filter::meaning::Rows;
use crate::query::filter::meaning::Run;
use crate::query::filter::meaning::Truth;
use crate::query::filter::meaning::all_are_supported;
use crate::query::filter::meaning::all_hold_of_feedback;
use crate::query::filter::meaning::all_hold_of_metadata;
use crate::query::filter::meaning::all_true;
use crate::query::filter::meaning::any_true;
use crate::query::filter::meaning::both_true;
use crate::query::filter::meaning::column_text;
use crate::query::filter::meaning::compare_holds;
use crate::query::filter::meaning::compare_is_supported;
use crate::query::filter::meaning::condition_text;
use crate::query::filter::meaning::condition_texts;
use crate::query::filter::meaning::contains_holds;
use crate::query::filter::meaning::contains_is_supported;
use crate::query::filter::meaning::datum;
use crate::query::filter::meaning::either_true;
use crate::query::filter::meaning::feedback_row_holds;
use crate::query::filter::meaning::goes_by;
use crate::query::filter::meaning::has_feedback;
use crate::query::filter::meaning::has_metadata;
use crate::query::filter::meaning::has_one_tag;
use crate::query::filter::meaning::has_tag;
use crate::query::filter::meaning::holds_of_feedback;
use crate::query::filter::meaning::holds_of_metadata;
use crate::query::filter::meaning::in_holds;
use crate::query::filter::meaning::in_is_supported;
use crate::query::filter::meaning::is_among_values;
use crate::query::filter::meaning::is_feedback_field;
use crate::query::filter::meaning::is_looked_at;
use crate::query::filter::meaning::is_metadata_field;
use crate::query::filter::meaning::is_on;
use crate::query::filter::meaning::is_supported;
use crate::query::filter::meaning::meaning;
use crate::query::filter::meaning::meaning_of_own;
use crate::query::filter::meaning::meaning_of_some;
use crate::query::filter::meaning::metadata_row_holds;
use crate::query::filter::meaning::not_true;
use crate::query::filter::meaning::own_are_supported;
use crate::query::filter::meaning::says_feedback_key;
use crate::query::filter::meaning::says_key;
use crate::query::filter::meaning::shares_feedback;
use crate::query::filter::meaning::shares_metadata;
use crate::query::filter::meaning::some_feedback_key;
use crate::query::filter::meaning::some_key;
use crate::query::filter::meaning::some_share_feedback;
use crate::query::filter::meaning::some_share_metadata;
use crate::query::filter::meaning::truth;
use crate::query::filter::meaning::truths;
use crate::query::filter::meaning::wanted_flag;
use crate::query::filter::meaning::wanted_integer;
use crate::query::filter::meaning::wanted_number;
use crate::query::filter::value_text;
use crate::sql::doubled_quotes;
use crate::sql::holds_text;
use crate::sql::law_pattern_matches_what_holds_its_text;
use crate::sql::like_escaped;
use crate::sql::like_matches;
use crate::sql::literal;
use crate::text::join;
use crate::text::lower;
use vstd::prelude::*;

verus! {

spec fn column_for(field: FilterField) -> Column {
    match field {
        FilterField::Name => Column::Name,
        FilterField::ProjectName => Column::ProjectName,
        FilterField::RunType => Column::RunType,
        FilterField::Status => Column::Status,
        FilterField::TraceId => Column::TraceId,
        FilterField::RootRunId => Column::RootRunId,
        FilterField::RootSpanId => Column::RootSpanId,
        FilterField::ModelName => Column::ModelName,
        FilterField::ProviderName => Column::ProviderName,
        FilterField::StartTime => Column::StartTime,
        FilterField::EndTime => Column::EndTime,
        FilterField::Latency => Column::Latency,
        FilterField::PromptTokens => Column::PromptTokens,
        FilterField::CompletionTokens => Column::CompletionTokens,
        FilterField::TotalTokens => Column::TotalTokens,
        FilterField::TotalCost => Column::TotalCost,
        FilterField::IsRoot => Column::IsRoot,
        FilterField::MetadataKey => Column::MetadataKey,
        FilterField::MetadataValue => Column::MetadataValue,
        FilterField::FeedbackKey => Column::FeedbackKey,
        FilterField::FeedbackValue => Column::FeedbackValue,
        FilterField::FeedbackScore => Column::FeedbackScore,
        _ => Column::Status,
    }
}

spec fn text_condition(column: Column, op: CompareOp, value: Operand) -> Condition {
    Condition::Compare { column, op, constant: Constant::Text(value_text(value)) }
}

spec fn row_condition(op: CompareOp, field: FilterField, value: Operand) -> Condition {
    if field == FilterField::FeedbackScore {
        Condition::Compare {
            column: Column::FeedbackScore,
            op,
            constant: Constant::Number(wanted_number(value)->0),
        }
    } else {
        text_condition(column_for(field), op, value)
    }
}

spec fn id_condition(id: Seq<char>) -> Condition {
    Condition::Any(
        seq![
            Condition::Compare {
                column: Column::OwnRunId,
                op: CompareOp::Eq,
                constant: Constant::Text(id),
            },
            Condition::Compare {
                column: Column::GeneratedRunId,
                op: CompareOp::Eq,
                constant: Constant::Text(id),
            },
        ],
    )
}

spec fn compare_condition(op: CompareOp, field: FilterField, value: Operand) -> Condition {
    if is_metadata_field(field) {
        if op == CompareOp::Neq {
            Condition::Not(
                Box::new(
                    Condition::WithMetadata {
                        conditions: seq![row_condition(CompareOp::Eq, field, value)],
                    },
                ),
            )
        } else {
            Condition::WithMetadata { conditions: seq![row_condition(op, field, value)] }
        }
    } else if is_feedback_field(field) {
        if op == CompareOp::Neq {
            Condition::Not(
                Box::new(
                    Condition::WithFeedback {
                        conditions: seq![row_condition(CompareOp::Eq, field, value)],
                    },
                ),
            )
        } else {
            Condition::WithFeedback { conditions: seq![row_condition(op, field, value)] }
        }
    } else if field == FilterField::Tags {
        let tagged = Condition::Tagged { tag: value_text(value) };
        if op == CompareOp::Eq {
            tagged
        } else {
            Condition::Not(Box::new(tagged))
        }
    } else if field == FilterField::Id {
        if op == CompareOp::Eq {
            id_condition(value_text(value))
        } else {
            Condition::Not(Box::new(id_condition(value_text(value))))
        }
    } else if field == FilterField::IsRoot {
        Condition::Compare {
            column: Column::IsRoot,
            op,
            constant: Constant::Flag(wanted_flag(value)->0),
        }
    } else if field == FilterField::Error {
        Condition::Compare {
            column: Column::Status,
            op: if (op == CompareOp::Eq) == wanted_flag(value)->0 {
                CompareOp::Eq
            } else {
                CompareOp::Neq
            },
            constant: Constant::Text("error"@),
        }
    } else if field == FilterField::TotalCost {
        Condition::Compare {
            column: Column::TotalCost,
            op,
            constant: Constant::Number(wanted_number(value)->0),
        }
    } else if text_column(field) is Some {
        text_condition(column_for(field), op, value)
    } else {
        Condition::Compare {
            column: column_for(field),
            op,
            constant: Constant::Integer(wanted_integer(field, value)->0),
        }
    }
}

spec fn equality_conditions(column: Column, values: Seq<Operand>) -> Seq<Condition> {
    values.map_values(|value: Operand| text_condition(column, CompareOp::Eq, value))
}

spec fn id_conditions(values: Seq<Operand>) -> Seq<Condition> {
    values.map_values(|value: Operand| id_condition(value_text(value)))
}

spec fn in_condition(field: FilterField, values: Seq<Operand>) -> Condition {
    if field == FilterField::Tags {
        Condition::TaggedOneOf { tags: value_texts(values) }
    } else if is_metadata_field(field) {
        Condition::WithMetadata {
            conditions: seq![Condition::Any(equality_conditions(column_for(field), values))],
        }
    } else if field == FilterField::Id {
        Condition::Any(id_conditions(values))
    } else {
        Condition::OneOf { column: column_for(field), values: value_texts(values) }
    }
}

spec fn like_condition(column: Column, value: Operand) -> Condition {
    Condition::Like {
        column,
        pattern: "%"@ + like_escaped(lower(value_text(value))) + "%"@,
    }
}

spec fn contains_condition(field: FilterField, value: Operand) -> Condition {
    if field == FilterField::MetadataValue {
        Condition::WithMetadata {
            conditions: seq![like_condition(Column::MetadataValue, value)],
        }
    } else {
        like_condition(column_for(field), value)
    }
}

spec fn shared_condition(filter: Filter) -> Condition {
    match filter {
        Filter::Compare { op, field, value } => row_condition(op, field, value),
        Filter::In { values, .. } => Condition::OneOf {
            column: Column::MetadataKey,
            values: value_texts(values),
        },
        _ => Condition::All(Seq::empty()),
    }
}

spec fn metadata_conditions(filters: Seq<Filter>, keyed: bool) -> Seq<Condition>
    decreases filters.len(),
{
    if filters.len() == 0 {
        Seq::empty()
    } else if shares_metadata(filters.last(), keyed) {
        metadata_conditions(filters.drop_last(), keyed).push(shared_condition(filters.last()))
    } else {
        metadata_conditions(filters.drop_last(), keyed)
    }
}

spec fn feedback_conditions(filters: Seq<Filter>, keyed: bool) -> Seq<Condition>
    decreases filters.len(),
{
    if filters.len() == 0 {
        Seq::empty()
    } else if shares_feedback(filters.last(), keyed) {
        feedback_conditions(filters.drop_last(), keyed).push(shared_condition(filters.last()))
    } else {
        feedback_conditions(filters.drop_last(), keyed)
    }
}

spec fn own_conditions(filters: Seq<Filter>, keyed: bool, feedback_keyed: bool) -> Seq<Condition>
    decreases filters,
{
    if filters.len() == 0 {
        Seq::empty()
    } else {
        let rest = own_conditions(filters.drop_last(), keyed, feedback_keyed);
        if shares_metadata(filters.last(), keyed) || shares_feedback(
            filters.last(),
            feedback_keyed,
        ) {
            rest
        } else {
            rest.push(condition_of(filters.last()))
        }
    }
}

spec fn conditions_of(filters: Seq<Filter>) -> Seq<Condition>
    decreases filters,
{
    if filters.len() == 0 {
        Seq::empty()
    } else {
        conditions_of(filters.drop_last()).push(condition_of(filters.last()))
    }
}

spec fn with_metadata(conditions: Seq<Condition>, metadata: Seq<Condition>) -> Seq<Condition> {
    if metadata.len() > 0 {
        conditions.push(Condition::WithMetadata { conditions: metadata })
    } else {
        conditions
    }
}

spec fn with_feedback(conditions: Seq<Condition>, feedback: Seq<Condition>) -> Seq<Condition> {
    if feedback.len() > 0 {
        conditions.push(Condition::WithFeedback { conditions: feedback })
    } else {
        conditions
    }
}

/// A condition that says of a run what a filter does.
spec fn condition_of(filter: Filter) -> Condition
    decreases filter,
{
    match filter {
        Filter::And(filters) => {
            let keyed = some_key(filters);
            let feedback_keyed = some_feedback_key(filters);
            Condition::All(
                with_feedback(
                    with_metadata(
                        own_conditions(filters, keyed, feedback_keyed),
                        metadata_conditions(filters, keyed),
                    ),
                    feedback_conditions(filters, feedback_keyed),
                ),
            )
        },
        Filter::Or(filters) => Condition::Any(conditions_of(filters)),
        Filter::Compare { op, field, value } => compare_condition(op, field, value),
        Filter::Has { field, value } => compare_condition(CompareOp::Eq, field, value),
        Filter::In { field, values } => in_condition(field, values),
        Filter::Contains { field, value, negated } => if negated {
            Condition::Not(Box::new(contains_condition(field, value)))
        } else {
            contains_condition(field, value)
        },
        _ => Condition::All(Seq::empty()),
    }
}

proof fn lemma_texts_push(
    conditions: Seq<Condition>,
    last: Condition,
    alias: Seq<char>,
    projects: Option<Seq<Seq<char>>>,
)
    ensures
        condition_texts(conditions.push(last), alias, projects) == condition_texts(
            conditions,
            alias,
            projects,
        ).push(condition_text(last, alias, projects)),
{
    assert(conditions.push(last).drop_last() =~= conditions);
}

proof fn lemma_texts(
    conditions: Seq<Condition>,
    alias: Seq<char>,
    projects: Option<Seq<Seq<char>>>,
)
    ensures
        condition_texts(conditions, alias, projects).len() == conditions.len(),
        forall|i: int|
            0 <= i < conditions.len() ==> #[trigger] condition_texts(
                conditions,
                alias,
                projects,
            )[i] == condition_text(conditions[i], alias, projects),
    decreases conditions.len(),
{
    if conditions.len() > 0 {
        lemma_texts(conditions.drop_last(), alias, projects);
    }
}

proof fn lemma_one_text(condition: Condition, alias: Seq<char>, projects: Option<Seq<Seq<char>>>)
    ensures
        condition_texts(seq![condition], alias, projects) == seq![
            condition_text(condition, alias, projects),
        ],
{
    lemma_texts(seq![condition], alias, projects);
    assert(condition_texts(seq![condition], alias, projects) =~= seq![
        condition_text(condition, alias, projects),
    ]);
}

/// An equality is written in the same way with its spaces in one piece.
proof fn lemma_spaces(column: Seq<char>, rhs: Seq<char>)
    ensures
        column + " "@ + "="@ + " "@ + rhs == column + " = "@ + rhs,
        column + " "@ + "<>"@ + " "@ + rhs == column + " <> "@ + rhs,
{
    reveal_strlit(" ");
    reveal_strlit("=");
    reveal_strlit(" = ");
    reveal_strlit("<>");
    reveal_strlit(" <> ");
    assert(column + " "@ + "="@ + " "@ + rhs =~= column + " = "@ + rhs);
    assert(column + " "@ + "<>"@ + " "@ + rhs =~= column + " <> "@ + rhs);
}

proof fn lemma_no_quotes(text: Seq<char>)
    requires
        forall|i: int| 0 <= i < text.len() ==> #[trigger] text[i] != '\'',
    ensures
        doubled_quotes(text) == text,
    decreases text.len(),
{
    if text.len() > 0 {
        lemma_no_quotes(text.drop_last());
        assert(text.drop_last().push(text.last()) =~= text);
    }
}

proof fn lemma_error_literal(column: Seq<char>)
    ensures
        column + " = "@ + literal("error"@) == column + " = 'error'"@,
        column + " <> "@ + literal("error"@) == column + " <> 'error'"@,
{
    reveal_strlit("error");
    reveal_strlit(" = ");
    reveal_strlit(" <> ");
    reveal_strlit(" = 'error'");
    reveal_strlit(" <> 'error'");
    let word = "error"@;
    lemma_no_quotes(word);
    assert(column + " = "@ + literal(word) =~= column + " = 'error'"@);
    assert(column + " <> "@ + literal(word) =~= column + " <> 'error'"@);
}

proof fn lemma_id_text(id: Seq<char>, alias: Seq<char>, projects: Option<Seq<Seq<char>>>)
    ensures
        condition_text(id_condition(id), alias, projects) == id_is(alias, id),
{
    let own = Condition::Compare {
        column: Column::OwnRunId,
        op: CompareOp::Eq,
        constant: Constant::Text(id),
    };
    let generated = Condition::Compare {
        column: Column::GeneratedRunId,
        op: CompareOp::Eq,
        constant: Constant::Text(id),
    };
    let both = seq![own, generated];
    let texts = condition_texts(both, alias, projects);
    lemma_texts(both, alias, projects);
    let a = condition_text(own, alias, projects);
    let b = condition_text(generated, alias, projects);
    assert(texts =~= seq![a, b]);
    assert(texts.drop_last() =~= seq![a]);
    assert(join(seq![a], " OR "@) == a);
    assert(join(texts, " OR "@) == a + " OR "@ + b);
    lemma_spaces(column_text(Column::OwnRunId, alias), literal(id));
    lemma_spaces(column_text(Column::GeneratedRunId, alias), literal(id));
    reveal_strlit("(");
    reveal_strlit("NULLIF(");
    reveal_strlit("(NULLIF(");
    reveal_strlit(".run_id, '')");
    reveal_strlit(" = ");
    reveal_strlit(".run_id, '') = ");
    reveal_strlit(".");
    reveal_strlit("generated_run_id");
    reveal_strlit(".generated_run_id = ");
    assert("("@ + "NULLIF("@ =~= "(NULLIF("@);
    assert(".run_id, '')"@ + " = "@ =~= ".run_id, '') = "@);
    assert("."@ + "generated_run_id"@ + " = "@ =~= ".generated_run_id = "@);
    let lit = literal(id);
    let or = " OR "@;
    let end = ")"@;
    assert(a =~= "NULLIF("@ + alias + ".run_id, '') = "@ + lit);
    assert(b =~= alias + ".generated_run_id = "@ + lit);
    assert("("@ + (a + or + b) + end =~= "(NULLIF("@ + alias + ".run_id, '') = "@ + lit + or + alias
        + ".generated_run_id = "@ + lit + end);
}

proof fn lemma_compare_metadata_text(
    op: CompareOp,
    field: FilterField,
    value: Operand,
    alias: Seq<char>,
    projects: Option<Seq<Seq<char>>>,
)
    requires
        is_metadata_field(field),
    ensures
        compare_predicate(op, field, value, alias, projects) is Ok <==> compare_is_supported(
            op,
            field,
            value,
        ),
        compare_predicate(op, field, value, alias, projects) matches Ok(text) ==> text
            == condition_text(compare_condition(op, field, value), alias, projects),
{
    let equal = row_condition(CompareOp::Eq, field, value);
    let row = row_condition(op, field, value);
    lemma_one_text(equal, alias, projects);
    lemma_one_text(row, alias, projects);
    assert(condition_text(equal, alias, projects) == metadata_comparison(
        CompareOp::Eq,
        field,
        value,
    ));
    assert(condition_text(row, alias, projects) == metadata_comparison(op, field, value));
    let some = Condition::WithMetadata { conditions: seq![equal] };
    assert(condition_text(some, alias, projects) == metadata_exists(
        alias,
        seq![metadata_comparison(CompareOp::Eq, field, value)],
        projects,
    ));
    assert(condition_text(Condition::Not(Box::new(some)), alias, projects) == "NOT ("@
        + condition_text(some, alias, projects) + ")"@);
}

proof fn lemma_compare_feedback_text(
    op: CompareOp,
    field: FilterField,
    value: Operand,
    alias: Seq<char>,
    projects: Option<Seq<Seq<char>>>,
)
    requires
        is_feedback_field(field),
    ensures
        compare_predicate(op, field, value, alias, projects) is Ok <==> compare_is_supported(
            op,
            field,
            value,
        ),
        compare_predicate(op, field, value, alias, projects) matches Ok(text) ==> text
            == condition_text(compare_condition(op, field, value), alias, projects),
{
    let equal = row_condition(CompareOp::Eq, field, value);
    let row = row_condition(op, field, value);
    lemma_one_text(equal, alias, projects);
    lemma_one_text(row, alias, projects);
    assert(feedback_comparison(CompareOp::Eq, field, value) matches Ok(text) ==> text
        == condition_text(equal, alias, projects));
    assert(feedback_comparison(op, field, value) matches Ok(text) ==> text == condition_text(
        row,
        alias,
        projects,
    ));
    let some = Condition::WithFeedback { conditions: seq![equal] };
    assert(condition_text(some, alias, projects) == feedback_exists(
        alias,
        seq![condition_text(equal, alias, projects)],
        projects,
    ));
    assert(condition_text(Condition::Not(Box::new(some)), alias, projects) == "NOT ("@
        + condition_text(some, alias, projects) + ")"@);
}

proof fn lemma_compare_found_text(
    op: CompareOp,
    field: FilterField,
    value: Operand,
    alias: Seq<char>,
    projects: Option<Seq<Seq<char>>>,
)
    requires
        field == FilterField::Tags || field == FilterField::Id,
    ensures
        compare_predicate(op, field, value, alias, projects) is Ok <==> compare_is_supported(
            op,
            field,
            value,
        ),
        compare_predicate(op, field, value, alias, projects) matches Ok(text) ==> text
            == condition_text(compare_condition(op, field, value), alias, projects),
{
    let found = if field == FilterField::Tags {
        Condition::Tagged { tag: value_text(value) }
    } else {
        id_condition(value_text(value))
    };
    lemma_id_text(value_text(value), alias, projects);
    assert(condition_text(Condition::Not(Box::new(found)), alias, projects) == "NOT ("@
        + condition_text(found, alias, projects) + ")"@);
}

proof fn lemma_compare_column_text(
    op: CompareOp,
    field: FilterField,
    value: Operand,
    alias: Seq<char>,
    projects: Option<Seq<Seq<char>>>,
)
    requires
        !is_metadata_field(field),
        !is_feedback_field(field),
        field != FilterField::Tags,
        field != FilterField::Id,
    ensures
        compare_predicate(op, field, value, alias, projects) is Ok <==> compare_is_supported(
            op,
            field,
            value,
        ),
        compare_predicate(op, field, value, alias, projects) matches Ok(text) ==> text
            == condition_text(compare_condition(op, field, value), alias, projects),
{
    if field == FilterField::IsRoot {
        lemma_spaces(column_text(Column::IsRoot, alias), "true"@);
        lemma_spaces(column_text(Column::IsRoot, alias), "false"@);
    } else if field == FilterField::Error {
        lemma_spaces(column_text(Column::Status, alias), literal("error"@));
        lemma_error_literal(column_text(Column::Status, alias));
    }
}

proof fn lemma_compare_text(
    op: CompareOp,
    field: FilterField,
    value: Operand,
    alias: Seq<char>,
    projects: Option<Seq<Seq<char>>>,
)
    ensures
        compare_predicate(op, field, value, alias, projects) is Ok <==> compare_is_supported(
            op,
            field,
            value,
        ),
        compare_predicate(op, field, value, alias, projects) matches Ok(text) ==> text
            == condition_text(compare_condition(op, field, value), alias, projects),
{
    if is_metadata_field(field) {
        lemma_compare_metadata_text(op, field, value, alias, projects);
    } else if is_feedback_field(field) {
        lemma_compare_feedback_text(op, field, value, alias, projects);
    } else if field == FilterField::Tags || field == FilterField::Id {
        lemma_compare_found_text(op, field, value, alias, projects);
    } else {
        lemma_compare_column_text(op, field, value, alias, projects);
    }
}

proof fn lemma_in_text(
    field: FilterField,
    values: Seq<Operand>,
    alias: Seq<char>,
    projects: Option<Seq<Seq<char>>>,
)
    ensures
        in_predicate(field, values, alias, projects) is Ok <==> values.len() > 0
            && in_is_supported(field),
        in_predicate(field, values, alias, projects) matches Ok(text) ==> text == condition_text(
            in_condition(field, values),
            alias,
            projects,
        ),
{
    if is_metadata_field(field) {
        let column = column_for(field);
        let conditions = equality_conditions(column, values);
        lemma_texts(conditions, alias, projects);
        let word = column_text(column, alias);
        assert forall|i: int| 0 <= i < values.len() implies condition_text(
            #[trigger] conditions[i],
            alias,
            projects,
        ) == word + " = "@ + literal(value_text(values[i])) by {
            lemma_spaces(word, literal(value_text(values[i])));
        }
        assert(condition_texts(conditions, alias, projects) =~= equalities(word, values));
        lemma_one_text(Condition::Any(conditions), alias, projects);
        reveal_with_fuel(condition_text, 2);
    } else if field == FilterField::Id {
        let conditions = id_conditions(values);
        lemma_texts(conditions, alias, projects);
        assert forall|i: int| 0 <= i < values.len() implies condition_text(
            #[trigger] conditions[i],
            alias,
            projects,
        ) == id_is(alias, value_text(values[i])) by {
            lemma_id_text(value_text(values[i]), alias, projects);
        }
        assert(condition_texts(conditions, alias, projects) =~= id_equalities(alias, values));
    }
}

proof fn lemma_contains_text(
    field: FilterField,
    value: Operand,
    negated: bool,
    alias: Seq<char>,
    projects: Option<Seq<Seq<char>>>,
)
    ensures
        contains_predicate(field, value, negated, alias, projects) is Ok
            <==> contains_is_supported(field),
        contains_predicate(field, value, negated, alias, projects) matches Ok(text) ==> text
            == condition_text(
            condition_of(Filter::Contains { field, value, negated }),
            alias,
            projects,
        ),
{
    lemma_one_text(like_condition(Column::MetadataValue, value), alias, projects);
    reveal_with_fuel(condition_text, 2);
}

proof fn lemma_anchors(filters: Seq<Filter>)
    ensures
        any_metadata_anchor(filters) == some_key(filters),
        any_feedback_anchor(filters) == some_feedback_key(filters),
{
    if any_metadata_anchor(filters) {
        let i = choose|i: int| 0 <= i < filters.len() && metadata_anchor(#[trigger] filters[i]);
        assert(says_key(filters[i]));
    }
    if some_key(filters) {
        let i = choose|i: int| 0 <= i < filters.len() && says_key(#[trigger] filters[i]);
        assert(metadata_anchor(filters[i]));
    }
    if any_feedback_anchor(filters) {
        let i = choose|i: int| 0 <= i < filters.len() && feedback_anchor(#[trigger] filters[i]);
        assert(says_feedback_key(filters[i]));
    }
    if some_feedback_key(filters) {
        let i = choose|i: int| 0 <= i < filters.len() && says_feedback_key(#[trigger] filters[i]);
        assert(feedback_anchor(filters[i]));
    }
}

proof fn lemma_shared_text(
    filter: Filter,
    keyed: bool,
    feedback_keyed: bool,
    alias: Seq<char>,
    projects: Option<Seq<Seq<char>>>,
)
    ensures
        metadata_condition(filter, keyed) is Some <==> shares_metadata(filter, keyed),
        metadata_condition(filter, keyed) matches Some(text) ==> text == condition_text(
            shared_condition(filter),
            alias,
            projects,
        ),
        feedback_condition(filter, feedback_keyed) is Some <==> shares_feedback(
            filter,
            feedback_keyed,
        ),
        feedback_condition(filter, feedback_keyed) matches Some(result) ==> {
            &&& result is Ok <==> is_supported(filter)
            &&& result matches Ok(text) ==> text == condition_text(
                shared_condition(filter),
                alias,
                projects,
            )
        },
{
    reveal_strlit("key");
    reveal_strlit(" IN (");
    reveal_strlit("key IN (");
    assert("key"@ + " IN ("@ =~= "key IN ("@);
}

proof fn lemma_conjunction_text(
    filters: Seq<Filter>,
    keyed: bool,
    feedback_keyed: bool,
    alias: Seq<char>,
    projects: Option<Seq<Seq<char>>>,
)
    ensures
        conjunction(filters, keyed, feedback_keyed, alias, projects) is Ok <==> own_are_supported(
            filters,
            keyed,
            feedback_keyed,
        ),
        conjunction(filters, keyed, feedback_keyed, alias, projects) matches Ok(parts) ==> {
            &&& parts.predicates == condition_texts(
                own_conditions(filters, keyed, feedback_keyed),
                alias,
                projects,
            )
            &&& parts.metadata == condition_texts(
                metadata_conditions(filters, keyed),
                alias,
                projects,
            )
            &&& parts.feedback == condition_texts(
                feedback_conditions(filters, feedback_keyed),
                alias,
                projects,
            )
        },
    decreases filters,
{
    if filters.len() > 0 {
        let rest = filters.drop_last();
        let last = filters.last();
        lemma_conjunction_text(rest, keyed, feedback_keyed, alias, projects);
        lemma_shared_text(last, keyed, feedback_keyed, alias, projects);
        lemma_predicate_text(last, alias, projects);
        lemma_texts_push(
            own_conditions(rest, keyed, feedback_keyed),
            condition_of(last),
            alias,
            projects,
        );
        lemma_texts_push(
            metadata_conditions(rest, keyed),
            shared_condition(last),
            alias,
            projects,
        );
        lemma_texts_push(
            feedback_conditions(rest, feedback_keyed),
            shared_condition(last),
            alias,
            projects,
        );
    }
}

proof fn lemma_disjunction_text(
    filters: Seq<Filter>,
    alias: Seq<char>,
    projects: Option<Seq<Seq<char>>>,
)
    ensures
        predicates_of(filters, alias, projects) is Ok <==> all_are_supported(filters),
        predicates_of(filters, alias, projects) matches Ok(texts) ==> texts == condition_texts(
            conditions_of(filters),
            alias,
            projects,
        ),
    decreases filters,
{
    if filters.len() > 0 {
        let rest = filters.drop_last();
        lemma_disjunction_text(rest, alias, projects);
        lemma_predicate_text(filters.last(), alias, projects);
        lemma_texts_push(conditions_of(rest), condition_of(filters.last()), alias, projects);
    }
}

proof fn lemma_predicate_text(filter: Filter, alias: Seq<char>, projects: Option<Seq<Seq<char>>>)
    ensures
        predicate_of(filter, alias, projects) is Ok <==> is_supported(filter),
        predicate_of(filter, alias, projects) matches Ok(text) ==> text == condition_text(
            condition_of(filter),
            alias,
            projects,
        ),
    decreases filter,
{
    match filter {
        Filter::And(filters) => {
            let keyed = some_key(filters);
            let feedback_keyed = some_feedback_key(filters);
            lemma_anchors(filters);
            lemma_conjunction_text(filters, keyed, feedback_keyed, alias, projects);
            let own = own_conditions(filters, keyed, feedback_keyed);
            let metadata = metadata_conditions(filters, keyed);
            let feedback = feedback_conditions(filters, feedback_keyed);
            lemma_texts(metadata, alias, projects);
            lemma_texts(feedback, alias, projects);
            lemma_texts_push(
                own,
                Condition::WithMetadata { conditions: metadata },
                alias,
                projects,
            );
            lemma_texts_push(
                with_metadata(own, metadata),
                Condition::WithFeedback { conditions: feedback },
                alias,
                projects,
            );
        },
        Filter::Or(filters) => {
            lemma_disjunction_text(filters, alias, projects);
        },
        Filter::Compare { op, field, value } => {
            lemma_compare_text(op, field, value, alias, projects);
        },
        Filter::Has { field, value } => {
            lemma_compare_text(CompareOp::Eq, field, value, alias, projects);
            lemma_one_text(row_condition(CompareOp::Eq, field, value), alias, projects);
            reveal_strlit("key");
            reveal_strlit(" = ");
            reveal_strlit("key = ");
            assert("key"@ + " = "@ =~= "key = "@);
            lemma_spaces("key"@, literal(value_text(value)));
        },
        Filter::In { field, values } => {
            lemma_in_text(field, values, alias, projects);
        },
        Filter::Contains { field, value, negated } => {
            lemma_contains_text(field, value, negated, alias, projects);
        },
        _ => {},
    }
}

proof fn lemma_truths(
    conditions: Seq<Condition>,
    rows: Rows,
    order: Order,
    projects: Option<Seq<Seq<char>>>,
)
    ensures
        truths(conditions, rows, order, projects).len() == conditions.len(),
        forall|i: int|
            0 <= i < conditions.len() ==> #[trigger] truths(conditions, rows, order, projects)[i]
                == truth(conditions[i], rows, order, projects),
    decreases conditions.len(),
{
    if conditions.len() > 0 {
        lemma_truths(conditions.drop_last(), rows, order, projects);
    }
}

proof fn lemma_truths_push(
    conditions: Seq<Condition>,
    last: Condition,
    rows: Rows,
    order: Order,
    projects: Option<Seq<Seq<char>>>,
)
    ensures
        all_true(truths(conditions.push(last), rows, order, projects)) == both_true(
            all_true(truths(conditions, rows, order, projects)),
            truth(last, rows, order, projects),
        ),
        any_true(truths(conditions.push(last), rows, order, projects)) == either_true(
            any_true(truths(conditions, rows, order, projects)),
            truth(last, rows, order, projects),
        ),
{
    assert(conditions.push(last).drop_last() =~= conditions);
    let all = truths(conditions.push(last), rows, order, projects);
    assert(all.drop_last() =~= truths(conditions, rows, order, projects));
}

proof fn lemma_one_truth(
    condition: Condition,
    rows: Rows,
    order: Order,
    projects: Option<Seq<Seq<char>>>,
)
    ensures
        all_true(truths(seq![condition], rows, order, projects)) == truth(
            condition,
            rows,
            order,
            projects,
        ),
{
    let none = Seq::<Condition>::empty();
    assert(none.push(condition) =~= seq![condition]);
    lemma_truths_push(none, condition, rows, order, projects);
    assert(truths(none, rows, order, projects) =~= Seq::empty());
    assert(all_true(truths(none, rows, order, projects)) == Some(true));
}

proof fn lemma_any_true(list: Seq<Truth>)
    ensures
        any_true(list) == Some(true) <==> exists|i: int|
            0 <= i < list.len() && #[trigger] list[i] == Some(true),
    decreases list.len(),
{
    if list.len() > 0 {
        let rest = list.drop_last();
        lemma_any_true(rest);
        if any_true(rest) == Some(true) {
            let i = choose|i: int| 0 <= i < rest.len() && #[trigger] rest[i] == Some(true);
            assert(list[i] == Some(true));
        } else if list.last() == Some(true) {
            assert(list[list.len() - 1] == Some(true));
        } else if exists|i: int| 0 <= i < list.len() && #[trigger] list[i] == Some(true) {
            let i = choose|i: int| 0 <= i < list.len() && #[trigger] list[i] == Some(true);
            assert(rest[i] == Some(true));
        }
    }
}

proof fn lemma_with_metadata(
    conditions: Seq<Condition>,
    kind: spec_fn(MetadataRow) -> bool,
    rows: Rows,
    order: Order,
    projects: Option<Seq<Seq<char>>>,
)
    requires
        forall|row: MetadataRow| #[trigger]
            kind(row) <==> all_true(
                truths(conditions, Rows { metadata: row, ..rows }, order, projects),
            ) == Some(true),
    ensures
        truth(Condition::WithMetadata { conditions }, rows, order, projects) == Some(
            has_metadata(rows.run, projects, kind),
        ),
{
    assert(truth(Condition::WithMetadata { conditions }, rows, order, projects) == Some(
        is_looked_at(projects, rows.run.project_name) && exists|row: MetadataRow| #[trigger]
            rows.run.metadata.contains(row) && all_true(
                truths(conditions, Rows { metadata: row, ..rows }, order, projects),
            ) == Some(true),
    ));
    if exists|row: MetadataRow| #[trigger] rows.run.metadata.contains(row) && kind(row) {
        let row = choose|row: MetadataRow| #[trigger]
            rows.run.metadata.contains(row) && kind(row);
        assert(rows.run.metadata.contains(row) && all_true(
            truths(conditions, Rows { metadata: row, ..rows }, order, projects),
        ) == Some(true));
    }
    if exists|row: MetadataRow| #[trigger]
        rows.run.metadata.contains(row) && all_true(
            truths(conditions, Rows { metadata: row, ..rows }, order, projects),
        ) == Some(true) {
        let row = choose|row: MetadataRow| #[trigger]
            rows.run.metadata.contains(row) && all_true(
                truths(conditions, Rows { metadata: row, ..rows }, order, projects),
            ) == Some(true);
        assert(rows.run.metadata.contains(row) && kind(row));
    }
}

proof fn lemma_with_feedback(
    conditions: Seq<Condition>,
    kind: spec_fn(FeedbackRow) -> bool,
    rows: Rows,
    order: Order,
    projects: Option<Seq<Seq<char>>>,
)
    requires
        forall|row: FeedbackRow| #[trigger]
            kind(row) <==> all_true(
                truths(conditions, Rows { feedback: row, ..rows }, order, projects),
            ) == Some(true),
    ensures
        truth(Condition::WithFeedback { conditions }, rows, order, projects) == Some(
            has_feedback(rows.run, projects, kind),
        ),
{
    let run = rows.run;
    assert(truth(Condition::WithFeedback { conditions }, rows, order, projects) == Some(
        exists|row: FeedbackRow| #[trigger]
            run.feedback.contains(row) && is_on(row, run) && is_looked_at(
                projects,
                row.project_name,
            ) && all_true(
                truths(conditions, Rows { feedback: row, ..rows }, order, projects),
            ) == Some(true),
    ));
    if has_feedback(run, projects, kind) {
        let row = choose|row: FeedbackRow| #[trigger]
            run.feedback.contains(row) && is_on(row, run) && is_looked_at(
                projects,
                row.project_name,
            ) && kind(row);
        assert(run.feedback.contains(row) && all_true(
            truths(conditions, Rows { feedback: row, ..rows }, order, projects),
        ) == Some(true));
    }
    if exists|row: FeedbackRow| #[trigger]
        run.feedback.contains(row) && is_on(row, run) && is_looked_at(projects, row.project_name)
            && all_true(truths(conditions, Rows { feedback: row, ..rows }, order, projects))
            == Some(true) {
        let row = choose|row: FeedbackRow| #[trigger]
            run.feedback.contains(row) && is_on(row, run) && is_looked_at(
                projects,
                row.project_name,
            ) && all_true(truths(conditions, Rows { feedback: row, ..rows }, order, projects))
                == Some(true);
        assert(run.feedback.contains(row) && kind(row));
    }
}

proof fn lemma_id_truth(
    id: Seq<char>,
    rows: Rows,
    order: Order,
    projects: Option<Seq<Seq<char>>>,
)
    ensures
        truth(id_condition(id), rows, order, projects) == goes_by(rows.run, id),
{
    let both = id_condition(id)->Any_0;
    let none = Seq::<Condition>::empty();
    let one = none.push(both[0]);
    assert(one.push(both[1]) =~= both);
    lemma_truths_push(none, both[0], rows, order, projects);
    lemma_truths_push(one, both[1], rows, order, projects);
    assert(any_true(truths(none, rows, order, projects)) == Some(false));
}

proof fn lemma_compare_truth(
    op: CompareOp,
    field: FilterField,
    value: Operand,
    rows: Rows,
    order: Order,
    projects: Option<Seq<Seq<char>>>,
)
    requires
        compare_is_supported(op, field, value),
    ensures
        truth(compare_condition(op, field, value), rows, order, projects) == compare_holds(
            op,
            field,
            value,
            rows.run,
            order,
            projects,
        ),
{
    if is_metadata_field(field) {
        let told = if op == CompareOp::Neq {
            CompareOp::Eq
        } else {
            op
        };
        let condition = row_condition(told, field, value);
        let kind = |row: MetadataRow|
            metadata_row_holds(order, told, field, value, row) == Some(true);
        assert forall|row: MetadataRow| #[trigger] kind(row) <==> all_true(
            truths(seq![condition], Rows { metadata: row, ..rows }, order, projects),
        ) == Some(true) by {
            lemma_one_truth(condition, Rows { metadata: row, ..rows }, order, projects);
        }
        lemma_with_metadata(seq![condition], kind, rows, order, projects);
        let some = Condition::WithMetadata { conditions: seq![condition] };
        assert(truth(Condition::Not(Box::new(some)), rows, order, projects) == not_true(
            truth(some, rows, order, projects),
        ));
    } else if is_feedback_field(field) {
        let told = if op == CompareOp::Neq {
            CompareOp::Eq
        } else {
            op
        };
        let condition = row_condition(told, field, value);
        let kind = |row: FeedbackRow|
            feedback_row_holds(order, told, field, value, row) == Some(true);
        assert forall|row: FeedbackRow| #[trigger] kind(row) <==> all_true(
            truths(seq![condition], Rows { feedback: row, ..rows }, order, projects),
        ) == Some(true) by {
            lemma_one_truth(condition, Rows { feedback: row, ..rows }, order, projects);
        }
        lemma_with_feedback(seq![condition], kind, rows, order, projects);
        let some = Condition::WithFeedback { conditions: seq![condition] };
        assert(truth(Condition::Not(Box::new(some)), rows, order, projects) == not_true(
            truth(some, rows, order, projects),
        ));
    } else if field == FilterField::Tags {
        let tagged = Condition::Tagged { tag: value_text(value) };
        assert(truth(Condition::Not(Box::new(tagged)), rows, order, projects) == not_true(
            truth(tagged, rows, order, projects),
        ));
    } else if field == FilterField::Id {
        let id = id_condition(value_text(value));
        lemma_id_truth(value_text(value), rows, order, projects);
        assert(truth(Condition::Not(Box::new(id)), rows, order, projects) == not_true(
            truth(id, rows, order, projects),
        ));
    }
}

proof fn lemma_equalities_truth(
    column: Column,
    text: Seq<char>,
    values: Seq<Operand>,
    rows: Rows,
    order: Order,
    projects: Option<Seq<Seq<char>>>,
)
    requires
        datum(column, rows) == Datum::Text(Some(text)),
    ensures
        all_true(
            truths(
                seq![Condition::Any(equality_conditions(column, values))],
                rows,
                order,
                projects,
            ),
        ) == Some(true) <==> is_among_values(text, values),
{
    let equal = equality_conditions(column, values);
    lemma_one_truth(Condition::Any(equal), rows, order, projects);
    lemma_truths(equal, rows, order, projects);
    let list = truths(equal, rows, order, projects);
    lemma_any_true(list);
    assert forall|i: int| 0 <= i < values.len() implies (#[trigger] list[i] == Some(true) <==> text
        == value_text(values[i])) by {
        assert(equal[i] == text_condition(column, CompareOp::Eq, values[i]));
    }
    if is_among_values(text, values) {
        let i = choose|i: int| 0 <= i < values.len() && text == value_text(#[trigger] values[i]);
        assert(list[i] == Some(true));
    }
}

proof fn lemma_in_truth(
    field: FilterField,
    values: Seq<Operand>,
    rows: Rows,
    order: Order,
    projects: Option<Seq<Seq<char>>>,
)
    requires
        in_is_supported(field),
    ensures
        truth(in_condition(field, values), rows, order, projects) == in_holds(
            field,
            values,
            rows.run,
            projects,
        ),
{
    let texts = value_texts(values);
    assert forall|text: Seq<char>| #[trigger] texts.contains(text) <==> is_among_values(
        text,
        values,
    ) by {
        if texts.contains(text) {
            let i = texts.index_of(text);
            assert(text == value_text(values[i]));
        }
        if is_among_values(text, values) {
            let i = choose|i: int| 0 <= i < values.len() && text == value_text(#[trigger] values[i]);
            assert(texts[i] == text);
        }
    }
    if field == FilterField::Tags {
        if in_holds(field, values, rows.run, projects) == Some(true) {
            let i = choose|i: int|
                0 <= i < values.len() && has_tag(
                    rows.run,
                    projects,
                    value_text(#[trigger] values[i]),
                );
            assert(has_tag(rows.run, projects, texts[i]));
        }
        if has_one_tag(rows.run, projects, texts) {
            let i = choose|i: int|
                0 <= i < texts.len() && has_tag(rows.run, projects, #[trigger] texts[i]);
            assert(has_tag(rows.run, projects, value_text(values[i])));
        }
    } else if field == FilterField::MetadataKey {
        let any = Condition::Any(equality_conditions(Column::MetadataKey, values));
        let kind = |row: MetadataRow| is_among_values(row.key, values);
        assert forall|row: MetadataRow| #[trigger] kind(row) <==> all_true(
            truths(seq![any], Rows { metadata: row, ..rows }, order, projects),
        ) == Some(true) by {
            let there = Rows { metadata: row, ..rows };
            lemma_equalities_truth(Column::MetadataKey, row.key, values, there, order, projects);
        }
        lemma_with_metadata(seq![any], kind, rows, order, projects);
    } else if field == FilterField::MetadataValue {
        let any = Condition::Any(equality_conditions(Column::MetadataValue, values));
        let kind = |row: MetadataRow| is_among_values(row.value, values);
        assert forall|row: MetadataRow| #[trigger] kind(row) <==> all_true(
            truths(seq![any], Rows { metadata: row, ..rows }, order, projects),
        ) == Some(true) by {
            let there = Rows { metadata: row, ..rows };
            lemma_equalities_truth(
                Column::MetadataValue,
                row.value,
                values,
                there,
                order,
                projects,
            );
        }
        lemma_with_metadata(seq![any], kind, rows, order, projects);
    } else if field == FilterField::Id {
        let conditions = id_conditions(values);
        lemma_truths(conditions, rows, order, projects);
        let wanted = values.map_values(|value: Operand| goes_by(rows.run, value_text(value)));
        assert forall|i: int| 0 <= i < values.len() implies truth(
            #[trigger] conditions[i],
            rows,
            order,
            projects,
        ) == wanted[i] by {
            lemma_id_truth(value_text(values[i]), rows, order, projects);
        }
        assert(truths(conditions, rows, order, projects) =~= wanted);
    }
}

proof fn lemma_contains_truth(
    field: FilterField,
    value: Operand,
    rows: Rows,
    order: Order,
    projects: Option<Seq<Seq<char>>>,
)
    requires
        contains_is_supported(field),
    ensures
        truth(contains_condition(field, value), rows, order, projects) == contains_holds(
            field,
            value,
            rows.run,
            order,
            projects,
        ),
{
    let wanted = lower(value_text(value));
    let pattern = "%"@ + like_escaped(wanted) + "%"@;
    reveal_strlit("%");
    assert(pattern =~= seq!['%'] + like_escaped(wanted) + seq!['%']);
    assert forall|text: Seq<char>| #[trigger] like_matches(pattern, text) <==> holds_text(
        text,
        wanted,
    ) by {
        law_pattern_matches_what_holds_its_text(wanted, text);
    }
    if field == FilterField::MetadataValue {
        let condition = like_condition(Column::MetadataValue, value);
        let kind = |row: MetadataRow| holds_text((order.lowered)(row.value), wanted);
        assert forall|row: MetadataRow| #[trigger] kind(row) <==> all_true(
            truths(seq![condition], Rows { metadata: row, ..rows }, order, projects),
        ) == Some(true) by {
            lemma_one_truth(condition, Rows { metadata: row, ..rows }, order, projects);
        }
        lemma_with_metadata(seq![condition], kind, rows, order, projects);
    }
}

proof fn lemma_shared_metadata(
    filters: Seq<Filter>,
    keyed: bool,
    rows: Rows,
    order: Order,
    projects: Option<Seq<Seq<char>>>,
)
    ensures
        metadata_conditions(filters, keyed).len() > 0 <==> some_share_metadata(filters, keyed),
        all_true(truths(metadata_conditions(filters, keyed), rows, order, projects)) == Some(true)
            <==> all_hold_of_metadata(filters, keyed, order, rows.metadata),
    decreases filters.len(),
{
    if filters.len() > 0 {
        let rest = filters.drop_last();
        let last = filters.last();
        lemma_shared_metadata(rest, keyed, rows, order, projects);
        lemma_truths_push(
            metadata_conditions(rest, keyed),
            shared_condition(last),
            rows,
            order,
            projects,
        );
        assert(filters[filters.len() - 1] == last);
        if shares_metadata(last, keyed) {
            lemma_shared_metadata_truth(last, keyed, rows, order, projects);
        }
        if some_share_metadata(rest, keyed) {
            let i = choose|i: int|
                0 <= i < rest.len() && shares_metadata(#[trigger] rest[i], keyed);
            assert(shares_metadata(filters[i], keyed));
        }
        if some_share_metadata(filters, keyed) && !shares_metadata(last, keyed) {
            let i = choose|i: int|
                0 <= i < filters.len() && shares_metadata(#[trigger] filters[i], keyed);
            assert(shares_metadata(rest[i], keyed));
        }
        if all_hold_of_metadata(filters, keyed, order, rows.metadata) {
            assert forall|i: int| 0 <= i < rest.len() && shares_metadata(
                #[trigger] rest[i],
                keyed,
            ) implies holds_of_metadata(rest[i], order, rows.metadata) by {
                assert(rest[i] == filters[i]);
            }
        }
        if all_hold_of_metadata(rest, keyed, order, rows.metadata) && (shares_metadata(last, keyed)
            ==> holds_of_metadata(last, order, rows.metadata)) {
            assert forall|i: int| 0 <= i < filters.len() && shares_metadata(
                #[trigger] filters[i],
                keyed,
            ) implies holds_of_metadata(filters[i], order, rows.metadata) by {
                if i < rest.len() {
                    assert(rest[i] == filters[i]);
                }
            }
        }
    } else {
        assert(truths(metadata_conditions(filters, keyed), rows, order, projects) =~= Seq::empty());
    }
}

proof fn lemma_shared_metadata_truth(
    filter: Filter,
    keyed: bool,
    rows: Rows,
    order: Order,
    projects: Option<Seq<Seq<char>>>,
)
    requires
        shares_metadata(filter, keyed),
    ensures
        truth(shared_condition(filter), rows, order, projects) == Some(true) <==> holds_of_metadata(
            filter,
            order,
            rows.metadata,
        ),
{
    if let Filter::In { values, .. } = filter {
        let texts = value_texts(values);
        let key = rows.metadata.key;
        if texts.contains(key) {
            let i = texts.index_of(key);
            assert(key == value_text(values[i]));
        }
        if is_among_values(key, values) {
            let i = choose|i: int| 0 <= i < values.len() && key == value_text(#[trigger] values[i]);
            assert(texts[i] == key);
        }
    }
}

proof fn lemma_shared_feedback(
    filters: Seq<Filter>,
    keyed: bool,
    rows: Rows,
    order: Order,
    projects: Option<Seq<Seq<char>>>,
)
    ensures
        feedback_conditions(filters, keyed).len() > 0 <==> some_share_feedback(filters, keyed),
        all_true(truths(feedback_conditions(filters, keyed), rows, order, projects)) == Some(true)
            <==> all_hold_of_feedback(filters, keyed, order, rows.feedback),
    decreases filters.len(),
{
    if filters.len() > 0 {
        let rest = filters.drop_last();
        let last = filters.last();
        lemma_shared_feedback(rest, keyed, rows, order, projects);
        lemma_truths_push(
            feedback_conditions(rest, keyed),
            shared_condition(last),
            rows,
            order,
            projects,
        );
        assert(filters[filters.len() - 1] == last);
        if some_share_feedback(rest, keyed) {
            let i = choose|i: int|
                0 <= i < rest.len() && shares_feedback(#[trigger] rest[i], keyed);
            assert(shares_feedback(filters[i], keyed));
        }
        if some_share_feedback(filters, keyed) && !shares_feedback(last, keyed) {
            let i = choose|i: int|
                0 <= i < filters.len() && shares_feedback(#[trigger] filters[i], keyed);
            assert(shares_feedback(rest[i], keyed));
        }
        if shares_feedback(last, keyed) {
            assert(truth(shared_condition(last), rows, order, projects) == Some(true)
                <==> holds_of_feedback(last, order, rows.feedback));
        }
        if all_hold_of_feedback(filters, keyed, order, rows.feedback) {
            assert forall|i: int| 0 <= i < rest.len() && shares_feedback(
                #[trigger] rest[i],
                keyed,
            ) implies holds_of_feedback(rest[i], order, rows.feedback) by {
                assert(rest[i] == filters[i]);
            }
        }
        if all_hold_of_feedback(rest, keyed, order, rows.feedback) && (shares_feedback(last, keyed)
            ==> holds_of_feedback(last, order, rows.feedback)) {
            assert forall|i: int| 0 <= i < filters.len() && shares_feedback(
                #[trigger] filters[i],
                keyed,
            ) implies holds_of_feedback(filters[i], order, rows.feedback) by {
                if i < rest.len() {
                    assert(rest[i] == filters[i]);
                }
            }
        }
    } else {
        assert(truths(feedback_conditions(filters, keyed), rows, order, projects) =~= Seq::empty());
    }
}

proof fn lemma_own_truth(
    filters: Seq<Filter>,
    keyed: bool,
    feedback_keyed: bool,
    rows: Rows,
    order: Order,
    projects: Option<Seq<Seq<char>>>,
)
    requires
        own_are_supported(filters, keyed, feedback_keyed),
    ensures
        all_true(
            truths(own_conditions(filters, keyed, feedback_keyed), rows, order, projects),
        ) == meaning_of_own(filters, keyed, feedback_keyed, rows.run, order, projects),
    decreases filters, 0int,
{
    if filters.len() > 0 {
        let rest = filters.drop_last();
        let last = filters.last();
        lemma_own_truth(rest, keyed, feedback_keyed, rows, order, projects);
        if !shares_metadata(last, keyed) {
            lemma_predicate_truth(last, rows, order, projects);
        }
        lemma_truths_push(
            own_conditions(rest, keyed, feedback_keyed),
            condition_of(last),
            rows,
            order,
            projects,
        );
    } else {
        assert(truths(
            own_conditions(filters, keyed, feedback_keyed),
            rows,
            order,
            projects,
        ) =~= Seq::empty());
    }
}

proof fn lemma_some_truth(
    filters: Seq<Filter>,
    rows: Rows,
    order: Order,
    projects: Option<Seq<Seq<char>>>,
)
    requires
        all_are_supported(filters),
    ensures
        any_true(truths(conditions_of(filters), rows, order, projects)) == meaning_of_some(
            filters,
            rows.run,
            order,
            projects,
        ),
    decreases filters, 0int,
{
    if filters.len() > 0 {
        let rest = filters.drop_last();
        lemma_some_truth(rest, rows, order, projects);
        lemma_predicate_truth(filters.last(), rows, order, projects);
        lemma_truths_push(
            conditions_of(rest),
            condition_of(filters.last()),
            rows,
            order,
            projects,
        );
    } else {
        assert(truths(conditions_of(filters), rows, order, projects) =~= Seq::empty());
    }
}

proof fn lemma_predicate_truth(
    filter: Filter,
    rows: Rows,
    order: Order,
    projects: Option<Seq<Seq<char>>>,
)
    requires
        is_supported(filter),
    ensures
        truth(condition_of(filter), rows, order, projects) == meaning(
            filter,
            rows.run,
            order,
            projects,
        ),
    decreases filter, 0int,
{
    match filter {
        Filter::And(filters) => {
            lemma_and_truth(filters, rows, order, projects);
        },
        Filter::Or(filters) => {
            lemma_some_truth(filters, rows, order, projects);
        },
        Filter::Compare { op, field, value } => {
            lemma_compare_truth(op, field, value, rows, order, projects);
        },
        Filter::Has { field, value } => {
            lemma_compare_truth(CompareOp::Eq, field, value, rows, order, projects);
        },
        Filter::In { field, values } => {
            lemma_in_truth(field, values, rows, order, projects);
        },
        Filter::Contains { field, value, negated } => {
            lemma_contains_truth(field, value, rows, order, projects);
            let found = contains_condition(field, value);
            assert(truth(Condition::Not(Box::new(found)), rows, order, projects) == not_true(
                truth(found, rows, order, projects),
            ));
        },
        _ => {},
    }
}

proof fn lemma_and_truth(
    filters: Seq<Filter>,
    rows: Rows,
    order: Order,
    projects: Option<Seq<Seq<char>>>,
)
    requires
        is_supported(Filter::And(filters)),
    ensures
        truth(condition_of(Filter::And(filters)), rows, order, projects) == meaning(
            Filter::And(filters),
            rows.run,
            order,
            projects,
        ),
    decreases filters, 1int,
{
    let keyed = some_key(filters);
    let feedback_keyed = some_feedback_key(filters);
    let own = own_conditions(filters, keyed, feedback_keyed);
    let metadata = metadata_conditions(filters, keyed);
    let feedback = feedback_conditions(filters, feedback_keyed);
    lemma_own_truth(filters, keyed, feedback_keyed, rows, order, projects);
    let metadata_kind = |row: MetadataRow| all_hold_of_metadata(filters, keyed, order, row);
    let feedback_kind = |row: FeedbackRow|
        all_hold_of_feedback(filters, feedback_keyed, order, row);
    assert forall|row: MetadataRow| #[trigger] metadata_kind(row) <==> all_true(
        truths(metadata, Rows { metadata: row, ..rows }, order, projects),
    ) == Some(true) by {
        lemma_shared_metadata(filters, keyed, Rows { metadata: row, ..rows }, order, projects);
    }
    assert forall|row: FeedbackRow| #[trigger] feedback_kind(row) <==> all_true(
        truths(feedback, Rows { feedback: row, ..rows }, order, projects),
    ) == Some(true) by {
        lemma_shared_feedback(
            filters,
            feedback_keyed,
            Rows { feedback: row, ..rows },
            order,
            projects,
        );
    }
    lemma_shared_metadata(filters, keyed, rows, order, projects);
    lemma_shared_feedback(filters, feedback_keyed, rows, order, projects);
    lemma_with_metadata(metadata, metadata_kind, rows, order, projects);
    lemma_with_feedback(feedback, feedback_kind, rows, order, projects);
    lemma_truths_push(
        own,
        Condition::WithMetadata { conditions: metadata },
        rows,
        order,
        projects,
    );
    lemma_truths_push(
        with_metadata(own, metadata),
        Condition::WithFeedback { conditions: feedback },
        rows,
        order,
        projects,
    );
}

/// Whether a text is a condition of SQL that comes to the same as a filter, on every run.
pub open spec fn says_the_same(
    text: Seq<char>,
    filter: Filter,
    alias: Seq<char>,
    projects: Option<Seq<Seq<char>>>,
) -> bool {
    exists|condition: Condition|
        #![trigger condition_text(condition, alias, projects)]
        condition_text(condition, alias, projects) == text && forall|rows: Rows, order: Order|
            #[trigger] truth(condition, rows, order, projects) == meaning(
                filter,
                rows.run,
                order,
                projects,
            )
}

/// A filter has a predicate over run heads if and only if it means something for them, and
/// the predicate holds of a run exactly if the filter does: true where it is true, false
/// where it is false, and unknown where it is unknown.
pub proof fn law_predicate_says_what_the_filter_says(
    filter: Filter,
    alias: Seq<char>,
    projects: Option<Seq<Seq<char>>>,
)
    ensures
        predicate_of(filter, alias, projects) is Ok <==> is_supported(filter),
        predicate_of(filter, alias, projects) matches Ok(text) ==> says_the_same(
            text,
            filter,
            alias,
            projects,
        ),
{
    lemma_predicate_text(filter, alias, projects);
    if is_supported(filter) {
        let condition = condition_of(filter);
        assert forall|rows: Rows, order: Order| #[trigger] truth(
            condition,
            rows,
            order,
            projects,
        ) == meaning(filter, rows.run, order, projects) by {
            lemma_predicate_truth(filter, rows, order, projects);
        }
        assert(condition_text(condition, alias, projects) == predicate_of(
            filter,
            alias,
            projects,
        )->Ok_0);
    }
}

proof fn lemma_meaning_of_some(
    filters: Seq<Filter>,
    run: Run,
    order: Order,
    projects: Option<Seq<Seq<char>>>,
)
    ensures
        meaning_of_some(filters, run, order, projects) == Some(true) <==> exists|i: int|
            0 <= i < filters.len() && meaning(#[trigger] filters[i], run, order, projects)
                == Some(true),
    decreases filters.len(),
{
    if filters.len() > 0 {
        let rest = filters.drop_last();
        lemma_meaning_of_some(rest, run, order, projects);
        assert(filters[filters.len() - 1] == filters.last());
        if meaning_of_some(rest, run, order, projects) == Some(true) {
            let i = choose|i: int|
                0 <= i < rest.len() && meaning(#[trigger] rest[i], run, order, projects)
                    == Some(true);
            assert(meaning(filters[i], run, order, projects) == Some(true));
        } else {
            assert forall|i: int| 0 <= i < rest.len() implies meaning(
                #[trigger] filters[i],
                run,
                order,
                projects,
            ) != Some(true) by {
                assert(rest[i] == filters[i]);
            }
        }
    }
}

proof fn lemma_meaning_of_own(
    filters: Seq<Filter>,
    keyed: bool,
    feedback_keyed: bool,
    run: Run,
    order: Order,
    projects: Option<Seq<Seq<char>>>,
)
    requires
        !some_share_metadata(filters, keyed),
        !some_share_feedback(filters, feedback_keyed),
    ensures
        meaning_of_own(filters, keyed, feedback_keyed, run, order, projects) == Some(true)
            <==> forall|i: int|
            0 <= i < filters.len() ==> meaning(#[trigger] filters[i], run, order, projects)
                == Some(true),
    decreases filters.len(),
{
    if filters.len() > 0 {
        let rest = filters.drop_last();
        assert(filters[filters.len() - 1] == filters.last());
        assert forall|i: int| 0 <= i < rest.len() implies !shares_metadata(
            #[trigger] rest[i],
            keyed,
        ) && !shares_feedback(rest[i], feedback_keyed) by {
            assert(rest[i] == filters[i]);
        }
        lemma_meaning_of_own(rest, keyed, feedback_keyed, run, order, projects);
        if forall|i: int|
            0 <= i < filters.len() ==> meaning(#[trigger] filters[i], run, order, projects)
                == Some(true) {
            assert forall|i: int| 0 <= i < rest.len() implies meaning(
                #[trigger] rest[i],
                run,
                order,
                projects,
            ) == Some(true) by {
                assert(rest[i] == filters[i]);
            }
        }
        if forall|i: int|
            0 <= i < rest.len() ==> meaning(#[trigger] rest[i], run, order, projects) == Some(
                true,
            ) {
            assert forall|i: int| 0 <= i < rest.len() implies meaning(
                #[trigger] filters[i],
                run,
                order,
                projects,
            ) == Some(true) by {
                assert(rest[i] == filters[i]);
            }
        }
    }
}

/// An `or` holds of a run if and only if one of its filters does, and an `and` if and only
/// if all do; save that filters of an `and` on rows of metadata or feedback speak of one
/// row.
pub proof fn law_and_or_of_filters(
    filters: Seq<Filter>,
    run: Run,
    order: Order,
    projects: Option<Seq<Seq<char>>>,
)
    ensures
        meaning(Filter::Or(filters), run, order, projects) == Some(true) <==> exists|i: int|
            0 <= i < filters.len() && meaning(#[trigger] filters[i], run, order, projects)
                == Some(true),
        !some_share_metadata(filters, some_key(filters)) && !some_share_feedback(
            filters,
            some_feedback_key(filters),
        ) ==> (meaning(Filter::And(filters), run, order, projects) == Some(true) <==> forall|i: int|
            0 <= i < filters.len() ==> meaning(#[trigger] filters[i], run, order, projects)
                == Some(true)),
{
    lemma_meaning_of_some(filters, run, order, projects);
    if !some_share_metadata(filters, some_key(filters)) && !some_share_feedback(
        filters,
        some_feedback_key(filters),
    ) {
        lemma_meaning_of_own(
            filters,
            some_key(filters),
            some_feedback_key(filters),
            run,
            order,
            projects,
        );
    }
}

} // verus!
