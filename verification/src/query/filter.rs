//! Filters over runs: their grammar, and the SQL and search predicates that they
//! come to.

pub mod bounds;
pub mod compile;
pub mod compiled;
pub mod lexer;
pub mod meaning;
pub mod parser;
pub mod payload;
pub mod phase6;
pub mod words;
pub mod written;

use crate::float::FloatReading;
use crate::float::FloatReadings;
use crate::float::Reading;
use crate::query::filter::compile::compile_expr;
use crate::query::filter::compile::predicate_of;
use crate::query::filter::lexer::FilterText;
use crate::query::filter::lexer::TextModel;
use crate::query::filter::parser::parse_filter_expr;
use crate::query::filter::parser::parse_spec;
use crate::text::chars_of;
use crate::text::string_of;
use crate::text::texts;
use vstd::prelude::*;
use vstd::string::StringExecFns;

verus! {

/// How deep the calls of a filter may be nested.
pub const MAX_FILTER_DEPTH: usize = 16;

/// How many calls a filter may have.
pub const MAX_FILTER_NODES: usize = 128;

/// Why a filter is refused.
#[derive(Debug, PartialEq, Eq)]
pub enum FilterError {
    Parse(String),
    Unsupported(String),
}

/// What a [`FilterError`] holds.
pub enum Fault {
    Parse(Seq<char>),
    Unsupported(Seq<char>),
}

impl View for FilterError {
    type V = Fault;

    open spec fn view(&self) -> Fault {
        match self {
            FilterError::Parse(message) => Fault::Parse(message@),
            FilterError::Unsupported(message) => Fault::Unsupported(message@),
        }
    }
}

/// What an error says.
pub open spec fn fault_text(fault: Fault) -> Seq<char> {
    match fault {
        Fault::Parse(message) => "invalid filter: "@ + message,
        Fault::Unsupported(message) => "unsupported filter: "@ + message,
    }
}

impl FilterError {
    /// What the error says.
    pub fn to_text(&self) -> (r: String)
        ensures
            r@ == fault_text(self@),
    {
        match self {
            FilterError::Parse(message) => {
                let mut out = "invalid filter: ".to_owned();
                out.append(message.as_str());
                out
            },
            FilterError::Unsupported(message) => {
                let mut out = "unsupported filter: ".to_owned();
                out.append(message.as_str());
                out
            },
        }
    }
}

/// A comparison.
#[derive(Debug, Clone, Copy, PartialEq, Eq, Structural)]
pub enum CompareOp {
    Eq,
    Neq,
    Gt,
    Gte,
    Lt,
    Lte,
}

/// A field that a filter can name.
#[derive(Debug, Clone, Copy, PartialEq, Eq, Structural)]
pub enum FilterField {
    Id,
    Name,
    RunType,
    Status,
    StartTime,
    EndTime,
    Latency,
    Tags,
    MetadataKey,
    MetadataValue,
    FeedbackKey,
    FeedbackScore,
    FeedbackValue,
    IsRoot,
    TraceId,
    ProjectName,
    RootRunId,
    RootSpanId,
    ModelName,
    ProviderName,
    PromptTokens,
    CompletionTokens,
    TotalTokens,
    TotalCost,
    Error,
    Inputs,
    Outputs,
    Extra,
    AttributesJson,
}

/// A value that a filter compares with.
#[derive(Debug, PartialEq, Eq)]
pub enum FilterValue {
    Text(FilterText),
    Number(FloatReading),
    Bool(bool),
}

/// What a [`FilterValue`] holds.
pub enum Operand {
    Text(TextModel),
    Number(Reading),
    Bool(bool),
}

impl View for FilterValue {
    type V = Operand;

    open spec fn view(&self) -> Operand {
        match self {
            FilterValue::Text(text) => Operand::Text(text@),
            FilterValue::Number(reading) => Operand::Number(reading@),
            FilterValue::Bool(b) => Operand::Bool(*b),
        }
    }
}

impl Clone for FilterValue {
    fn clone(&self) -> (r: Self)
        ensures
            r@ == self@,
    {
        match self {
            FilterValue::Text(text) => FilterValue::Text(text.clone()),
            FilterValue::Number(reading) => FilterValue::Number(reading.clone()),
            FilterValue::Bool(b) => FilterValue::Bool(*b),
        }
    }
}

/// `text` without a final `.0`, if it has one.
pub open spec fn without_point_zero(text: Seq<char>) -> Seq<char> {
    if text.len() >= 2 && text[text.len() - 2] == '.' && text[text.len() - 1] == '0' {
        text.take(text.len() - 2)
    } else {
        text
    }
}

/// The text that a value stands for where a text is wanted.
pub open spec fn value_text(value: Operand) -> Seq<char> {
    match value {
        Operand::Text(text) => text.text,
        Operand::Number(reading) => without_point_zero(reading.text),
        Operand::Bool(b) => if b {
            "true"@
        } else {
            "false"@
        },
    }
}

impl FilterValue {
    /// The text that the value stands for where a text is wanted.
    pub fn as_string(&self) -> (r: String)
        ensures
            r@ == value_text(self@),
    {
        match self {
            FilterValue::Text(text) => text.text.clone(),
            FilterValue::Number(reading) => trim_float(reading.text.as_str()),
            FilterValue::Bool(b) => if *b {
                "true".to_owned()
            } else {
                "false".to_owned()
            },
        }
    }
}

/// `text` without a final `.0`, if it has one.
fn trim_float(text: &str) -> (r: String)
    ensures
        r@ == without_point_zero(text@),
{
    let chars = chars_of(text);
    let n = chars.len();
    if n >= 2 && chars[n - 2] == '.' && chars[n - 1] == '0' {
        let r = string_of(&chars, 0, n - 2);
        assert(r@ =~= text@.take(text@.len() - 2));
        r
    } else {
        let r = string_of(&chars, 0, n);
        assert(r@ =~= text@);
        r
    }
}

pub open spec fn values_of(values: Seq<FilterValue>) -> Seq<Operand> {
    values.map_values(|value: FilterValue| value@)
}

/// A filter.
#[derive(Debug, PartialEq, Eq)]
#[allow(inconsistent_fields)]
pub enum FilterExpr {
    And(Vec<FilterExpr>),
    Or(Vec<FilterExpr>),
    Compare { op: CompareOp, field: FilterField, value: FilterValue },
    Has { field: FilterField, value: FilterValue },
    In { field: FilterField, values: Vec<FilterValue> },
    Contains { field: FilterField, value: FilterValue, negated: bool },
    Search { field: Option<FilterField>, query: String },
    JsonKey { field: Option<FilterField>, pattern: String },
    JsonKeySearch { field: Option<FilterField>, path: String, query: String },
}

/// What a [`FilterExpr`] holds.
#[allow(inconsistent_fields)]
pub enum Filter {
    And(Seq<Filter>),
    Or(Seq<Filter>),
    Compare { op: CompareOp, field: FilterField, value: Operand },
    Has { field: FilterField, value: Operand },
    In { field: FilterField, values: Seq<Operand> },
    Contains { field: FilterField, value: Operand, negated: bool },
    Search { field: Option<FilterField>, query: Seq<char> },
    JsonKey { field: Option<FilterField>, pattern: Seq<char> },
    JsonKeySearch { field: Option<FilterField>, path: Seq<char>, query: Seq<char> },
}

impl FilterExpr {
    pub open spec fn model(&self) -> Filter
        decreases self,
    {
        match self {
            FilterExpr::And(children) => Filter::And(
                Seq::new(
                    children@.len(),
                    |i: int|
                        if 0 <= i < children@.len() {
                            children@[i].model()
                        } else {
                            arbitrary()
                        },
                ),
            ),
            FilterExpr::Or(children) => Filter::Or(
                Seq::new(
                    children@.len(),
                    |i: int|
                        if 0 <= i < children@.len() {
                            children@[i].model()
                        } else {
                            arbitrary()
                        },
                ),
            ),
            FilterExpr::Compare { op, field, value } => Filter::Compare {
                op: *op,
                field: *field,
                value: value@,
            },
            FilterExpr::Has { field, value } => Filter::Has { field: *field, value: value@ },
            FilterExpr::In { field, values } => Filter::In {
                field: *field,
                values: values_of(values@),
            },
            FilterExpr::Contains { field, value, negated } => Filter::Contains {
                field: *field,
                value: value@,
                negated: *negated,
            },
            FilterExpr::Search { field, query } => Filter::Search { field: *field, query: query@ },
            FilterExpr::JsonKey { field, pattern } => Filter::JsonKey {
                field: *field,
                pattern: pattern@,
            },
            FilterExpr::JsonKeySearch { field, path, query } => Filter::JsonKeySearch {
                field: *field,
                path: path@,
                query: query@,
            },
        }
    }
}

impl View for FilterExpr {
    type V = Filter;

    open spec fn view(&self) -> Filter {
        self.model()
    }
}

/// What each of `exprs` holds.
pub open spec fn filters_of(exprs: Seq<FilterExpr>) -> Seq<Filter> {
    exprs.map_values(|expr: FilterExpr| expr@)
}

pub proof fn lemma_children_view(children: Vec<FilterExpr>)
    ensures
        FilterExpr::And(children)@ == Filter::And(filters_of(children@)),
        FilterExpr::Or(children)@ == Filter::Or(filters_of(children@)),
{
    reveal_with_fuel(FilterExpr::model, 2);
    assert(FilterExpr::And(children)@->And_0 =~= filters_of(children@));
    assert(FilterExpr::Or(children)@->Or_0 =~= filters_of(children@));
}

impl FilterExpr {
    /// Reads a filter. `readings` says which texts are numbers.
    pub fn parse(input: &str, readings: &FloatReadings) -> (r: Result<Self, FilterError>)
        ensures
            match r {
                Ok(expr) => parse_spec(input@, readings@) == Ok::<_, Fault>(expr@),
                Err(error) => parse_spec(input@, readings@) == Err::<Filter, _>(error@),
            },
    {
        parse_filter_expr(input, readings)
    }

    /// The SQL predicate over run heads that the filter comes to.
    pub fn compile_run_head_filter(&self, run_alias: &str) -> (r: Result<
        CompiledFilter,
        FilterError,
    >)
        ensures
            match r {
                Ok(compiled) => predicate_of(self@, run_alias@, None) == Ok::<_, Fault>(
                    compiled.predicate_sql@,
                ),
                Err(error) => predicate_of(self@, run_alias@, None) == Err::<Seq<char>, _>(error@),
            },
    {
        match compile_expr(self, run_alias, None) {
            Ok(predicate_sql) => Ok(CompiledFilter { predicate_sql }),
            Err(error) => Err(error),
        }
    }

    /// The SQL predicate over run heads that the filter comes to, with the index
    /// tables restricted to the projects.
    pub fn compile_run_head_filter_for_projects(
        &self,
        run_alias: &str,
        project_names: &Vec<String>,
    ) -> (r: Result<CompiledFilter, FilterError>)
        ensures
            match r {
                Ok(compiled) => predicate_of(self@, run_alias@, Some(texts(project_names@)))
                    == Ok::<_, Fault>(compiled.predicate_sql@),
                Err(error) => predicate_of(self@, run_alias@, Some(texts(project_names@)))
                    == Err::<Seq<char>, _>(error@),
            },
    {
        match compile_expr(self, run_alias, Some(project_names)) {
            Ok(predicate_sql) => Ok(CompiledFilter { predicate_sql }),
            Err(error) => Err(error),
        }
    }
}

/// A filter as SQL.
#[derive(Debug, PartialEq, Eq)]
pub struct CompiledFilter {
    pub predicate_sql: String,
}

fn copy_values(values: &Vec<FilterValue>) -> (r: Vec<FilterValue>)
    ensures
        values_of(r@) == values_of(values@),
{
    let mut out: Vec<FilterValue> = Vec::new();
    let mut i: usize = 0;
    while i < values.len()
        invariant
            i <= values.len(),
            values_of(out@) == values_of(values@).take(i as int),
        decreases values.len() - i,
    {
        let ghost before = out@;
        let value = values[i].clone();
        let ghost model = value@;
        out.push(value);
        i += 1;
        assert(values_of(out@) =~= values_of(before).push(model));
        assert(values_of(values@).take(i as int) =~= values_of(values@).take(i - 1).push(
            values@[i - 1]@,
        ));
    }
    assert(values_of(values@).take(i as int) =~= values_of(values@));
    out
}

fn copy_children(children: &Vec<FilterExpr>) -> (r: Vec<FilterExpr>)
    ensures
        filters_of(r@) == filters_of(children@),
    decreases children,
{
    let mut out: Vec<FilterExpr> = Vec::new();
    let mut i: usize = 0;
    while i < children.len()
        invariant
            i <= children.len(),
            filters_of(out@) == filters_of(children@).take(i as int),
        decreases children.len() - i,
    {
        let ghost before = out@;
        let child = copy_expr(&children[i]);
        let ghost model = child@;
        out.push(child);
        i += 1;
        assert(filters_of(out@) =~= filters_of(before).push(model));
        assert(filters_of(children@).take(i as int) =~= filters_of(children@).take(i - 1).push(
            children@[i - 1]@,
        ));
    }
    assert(filters_of(children@).take(i as int) =~= filters_of(children@));
    out
}

/// Another filter that holds the same.
pub fn copy_expr(expr: &FilterExpr) -> (r: FilterExpr)
    ensures
        r@ == expr@,
    decreases expr,
{
    match expr {
        FilterExpr::And(children) => {
            let copy = copy_children(children);
            proof {
                lemma_children_view(*children);
                lemma_children_view(copy);
            }
            FilterExpr::And(copy)
        },
        FilterExpr::Or(children) => {
            let copy = copy_children(children);
            proof {
                lemma_children_view(*children);
                lemma_children_view(copy);
            }
            FilterExpr::Or(copy)
        },
        FilterExpr::Compare { op, field, value } => FilterExpr::Compare {
            op: *op,
            field: *field,
            value: value.clone(),
        },
        FilterExpr::Has { field, value } => FilterExpr::Has { field: *field, value: value.clone() },
        FilterExpr::In { field, values } => FilterExpr::In {
            field: *field,
            values: copy_values(values),
        },
        FilterExpr::Contains { field, value, negated } => FilterExpr::Contains {
            field: *field,
            value: value.clone(),
            negated: *negated,
        },
        FilterExpr::Search { field, query } => FilterExpr::Search {
            field: *field,
            query: query.clone(),
        },
        FilterExpr::JsonKey { field, pattern } => FilterExpr::JsonKey {
            field: *field,
            pattern: pattern.clone(),
        },
        FilterExpr::JsonKeySearch { field, path, query } => FilterExpr::JsonKeySearch {
            field: *field,
            path: path.clone(),
            query: query.clone(),
        },
    }
}

} // verus!
