//! What a filter means for a run, what the SQL of its predicate means, and that the two are
//! the same.

use crate::float::Float;
use crate::query::filter::value_text;
use crate::query::filter::CompareOp;
use crate::query::filter::Filter;
use crate::query::filter::FilterField;
use crate::query::filter::Operand;
use crate::sql::holds_text;
use crate::sql::like_matches;
use crate::sql::literal;
use crate::sql::literal_list;
use crate::text::int_text;
use crate::text::join;
use crate::text::lower;
use crate::text::parse_i64;
use crate::time::rfc3339_clamped;
use vstd::prelude::*;

verus! {

/// A row of metadata of a run.
pub struct MetadataRow {
    pub key: Seq<char>,
    pub value: Seq<char>,
}

/// A row of feedback.
pub struct FeedbackRow {
    pub run_id: Seq<char>,
    pub project_name: Seq<char>,
    pub key: Seq<char>,
    pub value_text: Option<Seq<char>>,
    pub score: Option<Float>,
}

/// A run, as the database holds it: its head, its tags and its metadata; and the feedback
/// that there is, on this run or another.
pub struct Run {
    pub run_id: Seq<char>,
    pub generated_run_id: Seq<char>,
    pub name: Seq<char>,
    pub project_name: Seq<char>,
    pub run_type: Seq<char>,
    pub status: Seq<char>,
    pub trace_id: Seq<char>,
    pub root_run_id: Seq<char>,
    pub root_span_id: Seq<char>,
    pub model_name: Option<Seq<char>>,
    pub provider_name: Option<Seq<char>>,
    pub start_time: int,
    pub end_time: int,
    pub latency: int,
    pub prompt_tokens: Option<int>,
    pub completion_tokens: Option<int>,
    pub total_tokens: Option<int>,
    pub total_cost: Option<Float>,
    pub is_root: bool,
    pub tags: Set<Seq<char>>,
    pub metadata: Set<MetadataRow>,
    pub feedback: Set<FeedbackRow>,
}

/// How the database orders texts, how a stored number stands to one that is written, and
/// what it makes of a text in lower case.
pub struct Order {
    pub text_less: spec_fn(Seq<char>, Seq<char>) -> bool,
    pub number_sign: spec_fn(Float, Seq<char>) -> int,
    pub lowered: spec_fn(Seq<char>) -> Seq<char>,
}

/// A truth value that may be unknown.
pub type Truth = Option<bool>;

pub open spec fn not_true(a: Truth) -> Truth {
    match a {
        Some(b) => Some(!b),
        None => None,
    }
}

/// False if one of them is, and else true if both are.
pub open spec fn both_true(a: Truth, b: Truth) -> Truth {
    if a == Some(false) || b == Some(false) {
        Some(false)
    } else if a == Some(true) && b == Some(true) {
        Some(true)
    } else {
        None
    }
}

/// True if one of them is, and else false if both are.
pub open spec fn either_true(a: Truth, b: Truth) -> Truth {
    if a == Some(true) || b == Some(true) {
        Some(true)
    } else if a == Some(false) && b == Some(false) {
        Some(false)
    } else {
        None
    }
}

pub open spec fn all_true(truths: Seq<Truth>) -> Truth
    decreases truths.len(),
{
    if truths.len() == 0 {
        Some(true)
    } else {
        both_true(all_true(truths.drop_last()), truths.last())
    }
}

pub open spec fn any_true(truths: Seq<Truth>) -> Truth
    decreases truths.len(),
{
    if truths.len() == 0 {
        Some(false)
    } else {
        either_true(any_true(truths.drop_last()), truths.last())
    }
}

/// Whether a comparison holds of two things of which the first is less, if the sign is
/// negative, greater, if it is positive, and else equal.
pub open spec fn op_holds(op: CompareOp, sign: int) -> bool {
    match op {
        CompareOp::Eq => sign == 0,
        CompareOp::Neq => sign != 0,
        CompareOp::Gt => sign > 0,
        CompareOp::Gte => sign >= 0,
        CompareOp::Lt => sign < 0,
        CompareOp::Lte => sign <= 0,
    }
}

pub open spec fn text_sign(order: Order, a: Seq<char>, b: Seq<char>) -> int {
    if a == b {
        0
    } else if (order.text_less)(a, b) {
        -1
    } else {
        1
    }
}

/// A comparison of a text, which is unknown if there is none.
pub open spec fn text_holds(
    order: Order,
    op: CompareOp,
    stored: Option<Seq<char>>,
    wanted: Seq<char>,
) -> Truth {
    match stored {
        Some(text) => Some(op_holds(op, text_sign(order, text, wanted))),
        None => None,
    }
}

/// A comparison of an integer, which is unknown if there is none.
pub open spec fn integer_holds(op: CompareOp, stored: Option<int>, wanted: int) -> Truth {
    match stored {
        Some(n) => Some(op_holds(op, n - wanted)),
        None => None,
    }
}

/// A comparison of a number, which is unknown if there is none.
pub open spec fn number_holds(
    order: Order,
    op: CompareOp,
    stored: Option<Float>,
    wanted: Seq<char>,
) -> Truth {
    match stored {
        Some(n) => Some(op_holds(op, (order.number_sign)(n, wanted))),
        None => None,
    }
}

/// A text that a field of a run holds.
pub open spec fn text_field(run: Run, field: FilterField) -> Option<Option<Seq<char>>> {
    match field {
        FilterField::Name => Some(Some(run.name)),
        FilterField::ProjectName => Some(Some(run.project_name)),
        FilterField::RunType => Some(Some(run.run_type)),
        FilterField::Status => Some(Some(run.status)),
        FilterField::TraceId => Some(Some(run.trace_id)),
        FilterField::RootRunId => Some(Some(run.root_run_id)),
        FilterField::RootSpanId => Some(Some(run.root_span_id)),
        FilterField::ModelName => Some(run.model_name),
        FilterField::ProviderName => Some(run.provider_name),
        _ => None,
    }
}

/// An integer that a field of a run holds.
pub open spec fn integer_field(run: Run, field: FilterField) -> Option<Option<int>> {
    match field {
        FilterField::StartTime => Some(Some(run.start_time)),
        FilterField::EndTime => Some(Some(run.end_time)),
        FilterField::Latency => Some(Some(run.latency)),
        FilterField::PromptTokens => Some(run.prompt_tokens),
        FilterField::CompletionTokens => Some(run.completion_tokens),
        FilterField::TotalTokens => Some(run.total_tokens),
        _ => None,
    }
}

/// The integer that a value stands for in a field: an instant or a duration in
/// nanoseconds, or a number of tokens.
pub open spec fn wanted_integer(field: FilterField, value: Operand) -> Option<int> {
    match value {
        Operand::Number(reading) => if field == FilterField::Latency {
            Some(reading.nanos as int)
        } else {
            Some(reading.whole as int)
        },
        Operand::Text(text) => if field == FilterField::Latency {
            match text.seconds {
                Some(reading) => Some(reading.nanos as int),
                None => None,
            }
        } else if field == FilterField::StartTime || field == FilterField::EndTime {
            match rfc3339_clamped(text.text) {
                Some(n) => Some(n as int),
                None => None,
            }
        } else {
            match parse_i64(text.text) {
                Some(n) => Some(n as int),
                None => None,
            }
        },
        Operand::Bool(_) => None,
    }
}

/// The number that a value stands for, as it is written.
pub open spec fn wanted_number(value: Operand) -> Option<Seq<char>> {
    match value {
        Operand::Number(reading) => Some(reading.text),
        Operand::Text(text) => match text.number {
            Some(reading) => Some(reading.text),
            None => None,
        },
        Operand::Bool(_) => None,
    }
}

/// The truth value that a value stands for.
pub open spec fn wanted_flag(value: Operand) -> Option<bool> {
    match value {
        Operand::Bool(b) => Some(b),
        Operand::Text(text) => if lower(text.text) == "true"@ {
            Some(true)
        } else if lower(text.text) == "false"@ {
            Some(false)
        } else {
            None
        },
        Operand::Number(_) => None,
    }
}

/// Whether rows of a project are looked at: all, if no projects are named.
pub open spec fn is_looked_at(projects: Option<Seq<Seq<char>>>, project: Seq<char>) -> bool {
    match projects {
        Some(names) => names.len() == 0 || names.contains(project),
        None => true,
    }
}

/// Whether a run has a row of metadata of a kind.
pub open spec fn has_metadata(
    run: Run,
    projects: Option<Seq<Seq<char>>>,
    kind: spec_fn(MetadataRow) -> bool,
) -> bool {
    is_looked_at(projects, run.project_name) && exists|row: MetadataRow| #[trigger]
        run.metadata.contains(row) && kind(row)
}

/// Whether feedback is on a run: by its own id, if it has one, or by the one that is
/// generated for it.
pub open spec fn is_on(row: FeedbackRow, run: Run) -> bool {
    run.run_id.len() > 0 && row.run_id == run.run_id || row.run_id == run.generated_run_id
}

/// Whether a run has a row of feedback of a kind.
pub open spec fn has_feedback(
    run: Run,
    projects: Option<Seq<Seq<char>>>,
    kind: spec_fn(FeedbackRow) -> bool,
) -> bool {
    exists|row: FeedbackRow| #[trigger]
        run.feedback.contains(row) && is_on(row, run) && is_looked_at(projects, row.project_name)
            && kind(row)
}

/// Whether a run has a tag.
pub open spec fn has_tag(run: Run, projects: Option<Seq<Seq<char>>>, tag: Seq<char>) -> bool {
    is_looked_at(projects, run.project_name) && run.tags.contains(tag)
}

/// Whether a run has one of the tags.
pub open spec fn has_one_tag(
    run: Run,
    projects: Option<Seq<Seq<char>>>,
    tags: Seq<Seq<char>>,
) -> bool {
    exists|i: int| 0 <= i < tags.len() && has_tag(run, projects, #[trigger] tags[i])
}

/// A comparison on one row of metadata.
pub open spec fn metadata_row_holds(
    order: Order,
    op: CompareOp,
    field: FilterField,
    value: Operand,
    row: MetadataRow,
) -> Truth {
    if field == FilterField::MetadataKey {
        text_holds(order, op, Some(row.key), value_text(value))
    } else {
        text_holds(order, op, Some(row.value), value_text(value))
    }
}

/// A comparison on one row of feedback.
pub open spec fn feedback_row_holds(
    order: Order,
    op: CompareOp,
    field: FilterField,
    value: Operand,
    row: FeedbackRow,
) -> Truth {
    if field == FilterField::FeedbackKey {
        text_holds(order, op, Some(row.key), value_text(value))
    } else if field == FilterField::FeedbackValue {
        text_holds(order, op, row.value_text, value_text(value))
    } else {
        number_holds(order, op, row.score, wanted_number(value)->0)
    }
}

/// Whether a run goes by an id: its own, which may be missing, or the generated one.
pub open spec fn goes_by(run: Run, id: Seq<char>) -> Truth {
    let own = if run.run_id.len() > 0 {
        Some(run.run_id == id)
    } else {
        None
    };
    either_true(own, Some(run.generated_run_id == id))
}

pub open spec fn is_metadata_field(field: FilterField) -> bool {
    field == FilterField::MetadataKey || field == FilterField::MetadataValue
}

pub open spec fn is_feedback_field(field: FilterField) -> bool {
    field == FilterField::FeedbackKey || field == FilterField::FeedbackValue || field
        == FilterField::FeedbackScore
}

/// What a comparison means: of metadata and feedback, that there is a row on which it
/// holds, or for "not equal" that there is none that is equal; of an error, that the status
/// is one; and else what it says of the field.
pub open spec fn compare_holds(
    op: CompareOp,
    field: FilterField,
    value: Operand,
    run: Run,
    order: Order,
    projects: Option<Seq<Seq<char>>>,
) -> Truth {
    if is_metadata_field(field) {
        if op == CompareOp::Neq {
            Some(
                !has_metadata(
                    run,
                    projects,
                    |row: MetadataRow|
                        metadata_row_holds(order, CompareOp::Eq, field, value, row) == Some(true),
                ),
            )
        } else {
            Some(
                has_metadata(
                    run,
                    projects,
                    |row: MetadataRow|
                        metadata_row_holds(order, op, field, value, row) == Some(true),
                ),
            )
        }
    } else if is_feedback_field(field) {
        if op == CompareOp::Neq {
            Some(
                !has_feedback(
                    run,
                    projects,
                    |row: FeedbackRow|
                        feedback_row_holds(order, CompareOp::Eq, field, value, row) == Some(true),
                ),
            )
        } else {
            Some(
                has_feedback(
                    run,
                    projects,
                    |row: FeedbackRow|
                        feedback_row_holds(order, op, field, value, row) == Some(true),
                ),
            )
        }
    } else if field == FilterField::Tags {
        Some((op == CompareOp::Eq) == has_tag(run, projects, value_text(value)))
    } else if field == FilterField::Id {
        if op == CompareOp::Eq {
            goes_by(run, value_text(value))
        } else {
            not_true(goes_by(run, value_text(value)))
        }
    } else if field == FilterField::IsRoot {
        Some((op == CompareOp::Eq) == (run.is_root == wanted_flag(value)->0))
    } else if field == FilterField::Error {
        Some((op == CompareOp::Eq) == ((run.status == "error"@) == wanted_flag(value)->0))
    } else if field == FilterField::TotalCost {
        number_holds(order, op, run.total_cost, wanted_number(value)->0)
    } else if integer_field(run, field) is Some {
        integer_holds(op, integer_field(run, field)->0, wanted_integer(field, value)->0)
    } else {
        text_holds(order, op, text_field(run, field)->0, value_text(value))
    }
}

/// Whether a comparison means something for a run.
pub open spec fn compare_is_supported(op: CompareOp, field: FilterField, value: Operand) -> bool {
    let only_equality = op == CompareOp::Eq || op == CompareOp::Neq;
    match field {
        FilterField::FeedbackScore | FilterField::TotalCost => wanted_number(value) is Some,
        FilterField::Tags | FilterField::Id => only_equality,
        FilterField::IsRoot | FilterField::Error => only_equality && wanted_flag(value) is Some,
        FilterField::StartTime
        | FilterField::EndTime
        | FilterField::Latency
        | FilterField::PromptTokens
        | FilterField::CompletionTokens
        | FilterField::TotalTokens => wanted_integer(field, value) is Some,
        FilterField::Inputs
        | FilterField::Outputs
        | FilterField::Extra
        | FilterField::AttributesJson => false,
        _ => true,
    }
}

/// Whether a text is among those that values stand for.
pub open spec fn is_among_values(text: Seq<char>, values: Seq<Operand>) -> bool {
    exists|i: int| 0 <= i < values.len() && text == value_text(#[trigger] values[i])
}

/// What it means to be one of several values.
pub open spec fn in_holds(
    field: FilterField,
    values: Seq<Operand>,
    run: Run,
    projects: Option<Seq<Seq<char>>>,
) -> Truth {
    if field == FilterField::Tags {
        Some(
            exists|i: int|
                0 <= i < values.len() && has_tag(run, projects, value_text(#[trigger] values[i])),
        )
    } else if field == FilterField::MetadataKey {
        Some(
            has_metadata(run, projects, |row: MetadataRow| is_among_values(row.key, values)),
        )
    } else if field == FilterField::MetadataValue {
        Some(
            has_metadata(run, projects, |row: MetadataRow| is_among_values(row.value, values)),
        )
    } else if field == FilterField::Id {
        any_true(values.map_values(|value: Operand| goes_by(run, value_text(value))))
    } else {
        match text_field(run, field)->0 {
            Some(text) => Some(is_among_values(text, values)),
            None => None,
        }
    }
}

/// Whether a field can be one of several values: one that holds a text.
pub open spec fn in_is_supported(field: FilterField) -> bool {
    match field {
        FilterField::Tags
        | FilterField::MetadataKey
        | FilterField::MetadataValue
        | FilterField::Id
        | FilterField::Name
        | FilterField::ProjectName
        | FilterField::RunType
        | FilterField::Status
        | FilterField::TraceId
        | FilterField::RootRunId
        | FilterField::RootSpanId
        | FilterField::ModelName
        | FilterField::ProviderName => true,
        _ => false,
    }
}

/// What it means to hold a text, in whatever case.
pub open spec fn contains_holds(
    field: FilterField,
    value: Operand,
    run: Run,
    order: Order,
    projects: Option<Seq<Seq<char>>>,
) -> Truth {
    let wanted = lower(value_text(value));
    if field == FilterField::MetadataValue {
        Some(
            has_metadata(
                run,
                projects,
                |row: MetadataRow| holds_text((order.lowered)(row.value), wanted),
            ),
        )
    } else {
        match text_field(run, field)->0 {
            Some(text) => Some(holds_text((order.lowered)(text), wanted)),
            None => None,
        }
    }
}

/// Whether a field can be asked for a part of it.
pub open spec fn contains_is_supported(field: FilterField) -> bool {
    in_is_supported(field) && field != FilterField::Tags && field != FilterField::MetadataKey
        && field != FilterField::Id
}

/// Whether a filter says which key a row of metadata has.
pub open spec fn says_key(filter: Filter) -> bool {
    match filter {
        Filter::Compare { op, field, .. } => field == FilterField::MetadataKey && op
            != CompareOp::Neq,
        Filter::In { field, .. } => field == FilterField::MetadataKey,
        _ => false,
    }
}

/// Whether a filter says which key a row of feedback has.
pub open spec fn says_feedback_key(filter: Filter) -> bool {
    filter matches Filter::Compare { op, field, .. } && field == FilterField::FeedbackKey && op
        != CompareOp::Neq
}

/// Whether the filters of an `and` speak of one row of metadata together, this one among
/// them: one that says what a row is; and one that says which value it does not have, if
/// another says which key it has.
pub open spec fn shares_metadata(filter: Filter, keyed: bool) -> bool {
    match filter {
        Filter::Compare { op, field, .. } => is_metadata_field(field) && (op != CompareOp::Neq
            || field == FilterField::MetadataValue && keyed),
        Filter::In { field, .. } => field == FilterField::MetadataKey,
        _ => false,
    }
}

/// Whether the filters of an `and` speak of one row of feedback together, this one among
/// them.
pub open spec fn shares_feedback(filter: Filter, keyed: bool) -> bool {
    filter matches Filter::Compare { op, field, .. } && is_feedback_field(field) && (op
        != CompareOp::Neq || field != FilterField::FeedbackKey && keyed)
}

pub open spec fn some_key(filters: Seq<Filter>) -> bool {
    exists|i: int| 0 <= i < filters.len() && says_key(#[trigger] filters[i])
}

pub open spec fn some_feedback_key(filters: Seq<Filter>) -> bool {
    exists|i: int| 0 <= i < filters.len() && says_feedback_key(#[trigger] filters[i])
}

/// Whether what a filter says of a row of metadata holds of it.
pub open spec fn holds_of_metadata(filter: Filter, order: Order, row: MetadataRow) -> bool {
    match filter {
        Filter::Compare { op, field, value } => metadata_row_holds(order, op, field, value, row)
            == Some(true),
        Filter::In { values, .. } => is_among_values(row.key, values),
        _ => false,
    }
}

/// Whether what a filter says of a row of feedback holds of it.
pub open spec fn holds_of_feedback(filter: Filter, order: Order, row: FeedbackRow) -> bool {
    filter matches Filter::Compare { op, field, value } && feedback_row_holds(
        order,
        op,
        field,
        value,
        row,
    ) == Some(true)
}

/// Whether all that filters say together of a row of metadata holds of it.
pub open spec fn all_hold_of_metadata(
    filters: Seq<Filter>,
    keyed: bool,
    order: Order,
    row: MetadataRow,
) -> bool {
    forall|i: int|
        0 <= i < filters.len() && shares_metadata(#[trigger] filters[i], keyed)
            ==> holds_of_metadata(filters[i], order, row)
}

/// Whether all that filters say together of a row of feedback holds of it.
pub open spec fn all_hold_of_feedback(
    filters: Seq<Filter>,
    keyed: bool,
    order: Order,
    row: FeedbackRow,
) -> bool {
    forall|i: int|
        0 <= i < filters.len() && shares_feedback(#[trigger] filters[i], keyed)
            ==> holds_of_feedback(filters[i], order, row)
}

pub open spec fn some_share_metadata(filters: Seq<Filter>, keyed: bool) -> bool {
    exists|i: int| 0 <= i < filters.len() && shares_metadata(#[trigger] filters[i], keyed)
}

pub open spec fn some_share_feedback(filters: Seq<Filter>, keyed: bool) -> bool {
    exists|i: int| 0 <= i < filters.len() && shares_feedback(#[trigger] filters[i], keyed)
}

/// What a filter means for a run: an `and` that all of its filters hold, those that speak
/// of one row together of one row; and an `or` that one of them does.
pub open spec fn meaning(
    filter: Filter,
    run: Run,
    order: Order,
    projects: Option<Seq<Seq<char>>>,
) -> Truth
    decreases filter,
{
    match filter {
        Filter::And(filters) => {
            let keyed = some_key(filters);
            let feedback_keyed = some_feedback_key(filters);
            let own = meaning_of_own(filters, keyed, feedback_keyed, run, order, projects);
            let metadata = if some_share_metadata(filters, keyed) {
                Some(
                    has_metadata(
                        run,
                        projects,
                        |row: MetadataRow| all_hold_of_metadata(filters, keyed, order, row),
                    ),
                )
            } else {
                Some(true)
            };
            let feedback = if some_share_feedback(filters, feedback_keyed) {
                Some(
                    has_feedback(
                        run,
                        projects,
                        |row: FeedbackRow|
                            all_hold_of_feedback(filters, feedback_keyed, order, row),
                    ),
                )
            } else {
                Some(true)
            };
            both_true(both_true(own, metadata), feedback)
        },
        Filter::Or(filters) => meaning_of_some(filters, run, order, projects),
        Filter::Compare { op, field, value } => compare_holds(
            op,
            field,
            value,
            run,
            order,
            projects,
        ),
        Filter::Has { field, value } => compare_holds(
            CompareOp::Eq,
            field,
            value,
            run,
            order,
            projects,
        ),
        Filter::In { field, values } => in_holds(field, values, run, projects),
        Filter::Contains { field, value, negated } => if negated {
            not_true(contains_holds(field, value, run, order, projects))
        } else {
            contains_holds(field, value, run, order, projects)
        },
        _ => None,
    }
}

/// What those filters of an `and` mean together that do not speak of one row.
pub open spec fn meaning_of_own(
    filters: Seq<Filter>,
    keyed: bool,
    feedback_keyed: bool,
    run: Run,
    order: Order,
    projects: Option<Seq<Seq<char>>>,
) -> Truth
    decreases filters,
{
    if filters.len() == 0 {
        Some(true)
    } else {
        let rest = meaning_of_own(
            filters.drop_last(),
            keyed,
            feedback_keyed,
            run,
            order,
            projects,
        );
        if shares_metadata(filters.last(), keyed) || shares_feedback(
            filters.last(),
            feedback_keyed,
        ) {
            rest
        } else {
            both_true(rest, meaning(filters.last(), run, order, projects))
        }
    }
}

pub open spec fn meaning_of_some(
    filters: Seq<Filter>,
    run: Run,
    order: Order,
    projects: Option<Seq<Seq<char>>>,
) -> Truth
    decreases filters,
{
    if filters.len() == 0 {
        Some(false)
    } else {
        either_true(
            meaning_of_some(filters.drop_last(), run, order, projects),
            meaning(filters.last(), run, order, projects),
        )
    }
}

/// Whether a filter means something for a run.
pub open spec fn is_supported(filter: Filter) -> bool
    decreases filter,
{
    match filter {
        Filter::And(filters) => filters.len() > 0 && own_are_supported(
            filters,
            some_key(filters),
            some_feedback_key(filters),
        ),
        Filter::Or(filters) => filters.len() > 0 && all_are_supported(filters),
        Filter::Compare { op, field, value } => compare_is_supported(op, field, value),
        Filter::Has { field, .. } => field == FilterField::Tags || field
            == FilterField::MetadataKey,
        Filter::In { field, values } => values.len() > 0 && in_is_supported(field),
        Filter::Contains { field, .. } => contains_is_supported(field),
        _ => false,
    }
}

pub open spec fn all_are_supported(filters: Seq<Filter>) -> bool
    decreases filters,
{
    filters.len() > 0 ==> all_are_supported(filters.drop_last()) && is_supported(filters.last())
}

/// Whether the filters of an `and` mean something: those that speak of one row of metadata
/// always do.
pub open spec fn own_are_supported(
    filters: Seq<Filter>,
    keyed: bool,
    feedback_keyed: bool,
) -> bool
    decreases filters,
{
    filters.len() > 0 ==> own_are_supported(filters.drop_last(), keyed, feedback_keyed) && (
    shares_metadata(filters.last(), keyed) || is_supported(filters.last()))
}

/// A column of a run head, or of the row of metadata or feedback at hand.
pub enum Column {
    /// The id of a run, which is missing if it is empty.
    OwnRunId,
    GeneratedRunId,
    Name,
    ProjectName,
    RunType,
    Status,
    TraceId,
    RootRunId,
    RootSpanId,
    ModelName,
    ProviderName,
    StartTime,
    EndTime,
    Latency,
    PromptTokens,
    CompletionTokens,
    TotalTokens,
    TotalCost,
    IsRoot,
    MetadataKey,
    MetadataValue,
    FeedbackKey,
    FeedbackValue,
    FeedbackScore,
}

/// How a column is written.
pub open spec fn column_text(column: Column, alias: Seq<char>) -> Seq<char> {
    match column {
        Column::OwnRunId => "NULLIF("@ + alias + ".run_id, '')"@,
        Column::GeneratedRunId => alias + "."@ + "generated_run_id"@,
        Column::Name => alias + "."@ + "name"@,
        Column::ProjectName => alias + "."@ + "project_name"@,
        Column::RunType => alias + "."@ + "run_type"@,
        Column::Status => alias + "."@ + "status"@,
        Column::TraceId => alias + "."@ + "trace_id"@,
        Column::RootRunId => alias + "."@ + "root_run_id"@,
        Column::RootSpanId => alias + "."@ + "root_span_id"@,
        Column::ModelName => alias + "."@ + "model_name"@,
        Column::ProviderName => alias + "."@ + "provider_name"@,
        Column::StartTime => alias + "."@ + "start_time_unix_nano"@,
        Column::EndTime => alias + "."@ + "end_time_unix_nano"@,
        Column::Latency => alias + "."@ + "latency_nanos"@,
        Column::PromptTokens => alias + "."@ + "prompt_tokens"@,
        Column::CompletionTokens => alias + "."@ + "completion_tokens"@,
        Column::TotalTokens => alias + "."@ + "total_tokens"@,
        Column::TotalCost => alias + "."@ + "total_cost"@,
        Column::IsRoot => alias + "."@ + "is_root"@,
        Column::MetadataKey => "key"@,
        Column::MetadataValue => "value"@,
        Column::FeedbackKey => "key"@,
        Column::FeedbackValue => "value_text"@,
        Column::FeedbackScore => "score_number"@,
    }
}

/// What a column holds.
pub enum Datum {
    Text(Option<Seq<char>>),
    Integer(Option<int>),
    Number(Option<Float>),
    Flag(bool),
}

/// The rows that conditions are about: a run, and a row of metadata or feedback at hand.
pub struct Rows {
    pub run: Run,
    pub metadata: MetadataRow,
    pub feedback: FeedbackRow,
}

/// What a column holds.
pub open spec fn datum(column: Column, rows: Rows) -> Datum {
    let run = rows.run;
    match column {
        Column::OwnRunId => Datum::Text(
            if run.run_id.len() > 0 {
                Some(run.run_id)
            } else {
                None
            },
        ),
        Column::GeneratedRunId => Datum::Text(Some(run.generated_run_id)),
        Column::Name => Datum::Text(Some(run.name)),
        Column::ProjectName => Datum::Text(Some(run.project_name)),
        Column::RunType => Datum::Text(Some(run.run_type)),
        Column::Status => Datum::Text(Some(run.status)),
        Column::TraceId => Datum::Text(Some(run.trace_id)),
        Column::RootRunId => Datum::Text(Some(run.root_run_id)),
        Column::RootSpanId => Datum::Text(Some(run.root_span_id)),
        Column::ModelName => Datum::Text(run.model_name),
        Column::ProviderName => Datum::Text(run.provider_name),
        Column::StartTime => Datum::Integer(Some(run.start_time)),
        Column::EndTime => Datum::Integer(Some(run.end_time)),
        Column::Latency => Datum::Integer(Some(run.latency)),
        Column::PromptTokens => Datum::Integer(run.prompt_tokens),
        Column::CompletionTokens => Datum::Integer(run.completion_tokens),
        Column::TotalTokens => Datum::Integer(run.total_tokens),
        Column::TotalCost => Datum::Number(run.total_cost),
        Column::IsRoot => Datum::Flag(run.is_root),
        Column::MetadataKey => Datum::Text(Some(rows.metadata.key)),
        Column::MetadataValue => Datum::Text(Some(rows.metadata.value)),
        Column::FeedbackKey => Datum::Text(Some(rows.feedback.key)),
        Column::FeedbackValue => Datum::Text(rows.feedback.value_text),
        Column::FeedbackScore => Datum::Number(rows.feedback.score),
    }
}

/// What a column is compared with.
pub enum Constant {
    Text(Seq<char>),
    Integer(int),
    Number(Seq<char>),
    Flag(bool),
}

/// How a constant is written.
pub open spec fn constant_text(constant: Constant) -> Seq<char> {
    match constant {
        Constant::Text(text) => literal(text),
        Constant::Integer(n) => int_text(n),
        Constant::Number(text) => text,
        Constant::Flag(b) => if b {
            "true"@
        } else {
            "false"@
        },
    }
}

/// How a comparison is written.
pub open spec fn op_text(op: CompareOp) -> Seq<char> {
    match op {
        CompareOp::Eq => "="@,
        CompareOp::Neq => "<>"@,
        CompareOp::Gt => ">"@,
        CompareOp::Gte => ">="@,
        CompareOp::Lt => "<"@,
        CompareOp::Lte => "<="@,
    }
}

/// A condition of SQL, as far as filters need them.
pub enum Condition {
    All(Seq<Condition>),
    Any(Seq<Condition>),
    Not(Box<Condition>),
    Compare { column: Column, op: CompareOp, constant: Constant },
    OneOf { column: Column, values: Seq<Seq<char>> },
    Like { column: Column, pattern: Seq<char> },
    /// That the run has a tag.
    Tagged { tag: Seq<char> },
    /// That the run has one of the tags.
    TaggedOneOf { tags: Seq<Seq<char>> },
    /// That the run has a row of metadata on which all the conditions hold.
    WithMetadata { conditions: Seq<Condition> },
    /// That there is a row of feedback on the run on which all the conditions hold.
    WithFeedback { conditions: Seq<Condition> },
}

/// What tells a run from every other.
pub open spec fn key_text(alias: Seq<char>) -> Seq<char> {
    alias + ".project_name || '\u{1f}' || "@ + alias + ".trace_id || '\u{1f}' || "@ + alias
        + ".span_id"@
}

/// The restriction of a table to projects.
pub open spec fn projects_text(alias: Seq<char>, projects: Option<Seq<Seq<char>>>) -> Seq<char> {
    match projects {
        Some(names) => if names.len() > 0 {
            alias + ".project_name IN ("@ + literal_list(names) + ") AND "@
        } else {
            Seq::empty()
        },
        None => Seq::empty(),
    }
}

/// The runs that feedback on which conditions hold is on.
pub open spec fn feedback_text(
    conditions: Seq<Seq<char>>,
    projects: Option<Seq<Seq<char>>>,
) -> Seq<char> {
    "SELECT feedback_filter.run_id FROM feedback feedback_filter\n            WHERE feedback_filter.run_id IS NOT NULL AND "@
        + projects_text("feedback_filter"@, projects) + join(conditions, " AND "@)
}

/// How a condition is written.
pub open spec fn condition_text(
    condition: Condition,
    alias: Seq<char>,
    projects: Option<Seq<Seq<char>>>,
) -> Seq<char>
    decreases condition,
{
    match condition {
        Condition::All(conditions) => "("@ + join(
            condition_texts(conditions, alias, projects),
            " AND "@,
        ) + ")"@,
        Condition::Any(conditions) => "("@ + join(
            condition_texts(conditions, alias, projects),
            " OR "@,
        ) + ")"@,
        Condition::Not(inner) => "NOT ("@ + condition_text(*inner, alias, projects) + ")"@,
        Condition::Compare { column, op, constant } => column_text(column, alias) + " "@ + op_text(
            op,
        ) + " "@ + constant_text(constant),
        Condition::OneOf { column, values } => column_text(column, alias) + " IN ("@
            + literal_list(values) + ")"@,
        Condition::Like { column, pattern } => "LOWER("@ + column_text(column, alias) + ") LIKE "@
            + literal(pattern) + " ESCAPE '\\'"@,
        Condition::Tagged { tag } => key_text(alias) + " IN (\n            SELECT "@ + key_text(
            "tag_filter"@,
        ) + "\n            FROM run_tags tag_filter\n            WHERE "@ + projects_text(
            "tag_filter"@,
            projects,
        ) + "tag_filter.tag = "@ + literal(tag) + "\n        )"@,
        Condition::TaggedOneOf { tags } => key_text(alias) + " IN (\n                    SELECT "@
            + key_text("tag_filter"@)
            + "\n                    FROM run_tags tag_filter\n                    WHERE "@
            + projects_text("tag_filter"@, projects) + "tag_filter.tag IN ("@ + literal_list(tags)
            + ")\n                )"@,
        Condition::WithMetadata { conditions } => key_text(alias) + " IN (\n            SELECT "@
            + key_text("metadata_filter"@)
            + "\n            FROM run_metadata metadata_filter\n            WHERE "@
            + projects_text("metadata_filter"@, projects) + join(
            condition_texts(conditions, alias, projects),
            " AND "@,
        ) + "\n        )"@,
        Condition::WithFeedback { conditions } => "(("@ + alias + ".run_id <> '' AND "@ + alias
            + ".run_id IN ("@ + feedback_text(
            condition_texts(conditions, alias, projects),
            projects,
        ) + "))\n            OR "@ + alias + ".generated_run_id IN ("@ + feedback_text(
            condition_texts(conditions, alias, projects),
            projects,
        ) + "))"@,
    }
}

pub open spec fn condition_texts(
    conditions: Seq<Condition>,
    alias: Seq<char>,
    projects: Option<Seq<Seq<char>>>,
) -> Seq<Seq<char>>
    decreases conditions,
{
    if conditions.len() == 0 {
        Seq::empty()
    } else {
        condition_texts(conditions.drop_last(), alias, projects).push(
            condition_text(conditions.last(), alias, projects),
        )
    }
}

/// Whether what a column holds stands to a constant as a comparison says.
pub open spec fn datum_holds(order: Order, op: CompareOp, held: Datum, constant: Constant) -> Truth {
    match (held, constant) {
        (Datum::Text(text), Constant::Text(wanted)) => text_holds(order, op, text, wanted),
        (Datum::Integer(n), Constant::Integer(wanted)) => integer_holds(op, n, wanted),
        (Datum::Number(n), Constant::Number(wanted)) => number_holds(order, op, n, wanted),
        (Datum::Flag(a), Constant::Flag(b)) => Some(
            op_holds(
                op,
                if a == b {
                    0
                } else {
                    1
                },
            ),
        ),
        _ => None,
    }
}

/// What a condition comes to on rows.
pub open spec fn truth(
    condition: Condition,
    rows: Rows,
    order: Order,
    projects: Option<Seq<Seq<char>>>,
) -> Truth
    decreases condition,
{
    match condition {
        Condition::All(conditions) => all_true(truths(conditions, rows, order, projects)),
        Condition::Any(conditions) => any_true(truths(conditions, rows, order, projects)),
        Condition::Not(inner) => not_true(truth(*inner, rows, order, projects)),
        Condition::Compare { column, op, constant } => datum_holds(
            order,
            op,
            datum(column, rows),
            constant,
        ),
        Condition::OneOf { column, values } => match datum(column, rows) {
            Datum::Text(Some(text)) => Some(values.contains(text)),
            _ => None,
        },
        Condition::Like { column, pattern } => match datum(column, rows) {
            Datum::Text(Some(text)) => Some(like_matches(pattern, (order.lowered)(text))),
            _ => None,
        },
        Condition::Tagged { tag } => Some(has_tag(rows.run, projects, tag)),
        Condition::TaggedOneOf { tags } => Some(has_one_tag(rows.run, projects, tags)),
        Condition::WithMetadata { conditions } => Some(
            is_looked_at(projects, rows.run.project_name) && exists|row: MetadataRow| #[trigger]
                rows.run.metadata.contains(row) && all_true(
                    truths(conditions, Rows { metadata: row, ..rows }, order, projects),
                ) == Some(true),
        ),
        Condition::WithFeedback { conditions } => Some(
            exists|row: FeedbackRow| #[trigger]
                rows.run.feedback.contains(row) && is_on(row, rows.run) && is_looked_at(
                    projects,
                    row.project_name,
                ) && all_true(
                    truths(conditions, Rows { feedback: row, ..rows }, order, projects),
                ) == Some(true),
        ),
    }
}

pub open spec fn truths(
    conditions: Seq<Condition>,
    rows: Rows,
    order: Order,
    projects: Option<Seq<Seq<char>>>,
) -> Seq<Truth>
    decreases conditions,
{
    if conditions.len() == 0 {
        Seq::empty()
    } else {
        truths(conditions.drop_last(), rows, order, projects).push(
            truth(conditions.last(), rows, order, projects),
        )
    }
}

} // verus!
