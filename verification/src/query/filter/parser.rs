//! The grammar of a filter.

use crate::float::FloatReadings;
use crate::float::Reading;
use crate::query::filter::filters_of;
use crate::query::filter::lemma_children_view;
use crate::query::filter::lexer::lex;
use crate::query::filter::lexer::lex_spec;
use crate::query::filter::lexer::mark_name;
use crate::query::filter::lexer::name_of_mark;
use crate::query::filter::lexer::name_of_token;
use crate::query::filter::lexer::tok_name;
use crate::query::filter::lexer::toks;
use crate::query::filter::lexer::Mark;
use crate::query::filter::lexer::Tok;
use crate::query::filter::lexer::Token;
use crate::query::filter::value_text;
use crate::query::filter::values_of;
use crate::query::filter::CompareOp;
use crate::query::filter::Fault;
use crate::query::filter::Filter;
use crate::query::filter::FilterError;
use crate::query::filter::FilterExpr;
use crate::query::filter::FilterField;
use crate::query::filter::FilterValue;
use crate::query::filter::Operand;
use crate::query::filter::MAX_FILTER_DEPTH;
use crate::query::filter::MAX_FILTER_NODES;
use crate::text::lower;
use crate::text::lowered;
use crate::text::same;
use vstd::prelude::*;
use vstd::string::StringExecFns;

verus! {

/// The comparison that a function name stands for.
pub open spec fn compare_op(name: Seq<char>) -> Option<CompareOp> {
    if name == "eq"@ {
        Some(CompareOp::Eq)
    } else if name == "neq"@ {
        Some(CompareOp::Neq)
    } else if name == "gt"@ {
        Some(CompareOp::Gt)
    } else if name == "gte"@ {
        Some(CompareOp::Gte)
    } else if name == "lt"@ {
        Some(CompareOp::Lt)
    } else if name == "lte"@ {
        Some(CompareOp::Lte)
    } else {
        None
    }
}

/// The field that a name stands for.
pub open spec fn field_named(name: Seq<char>) -> Option<FilterField> {
    if name == "id"@ || name == "run_id"@ {
        Some(FilterField::Id)
    } else if name == "name"@ {
        Some(FilterField::Name)
    } else if name == "project_name"@ || name == "session"@ || name == "session_name"@ {
        Some(FilterField::ProjectName)
    } else if name == "run_type"@ {
        Some(FilterField::RunType)
    } else if name == "status"@ {
        Some(FilterField::Status)
    } else if name == "error"@ {
        Some(FilterField::Error)
    } else if name == "start_time"@ {
        Some(FilterField::StartTime)
    } else if name == "end_time"@ {
        Some(FilterField::EndTime)
    } else if name == "latency"@ {
        Some(FilterField::Latency)
    } else if name == "tags"@ {
        Some(FilterField::Tags)
    } else if name == "metadata_key"@ {
        Some(FilterField::MetadataKey)
    } else if name == "metadata_value"@ {
        Some(FilterField::MetadataValue)
    } else if name == "feedback_key"@ {
        Some(FilterField::FeedbackKey)
    } else if name == "feedback_score"@ {
        Some(FilterField::FeedbackScore)
    } else if name == "feedback_value"@ {
        Some(FilterField::FeedbackValue)
    } else if name == "is_root"@ {
        Some(FilterField::IsRoot)
    } else if name == "trace_id"@ || name == "trace"@ {
        Some(FilterField::TraceId)
    } else if name == "root_run_id"@ {
        Some(FilterField::RootRunId)
    } else if name == "root_span_id"@ {
        Some(FilterField::RootSpanId)
    } else if name == "model"@ || name == "model_name"@ || name == "ls_model_name"@ {
        Some(FilterField::ModelName)
    } else if name == "provider"@ || name == "provider_name"@ || name == "ls_provider"@ {
        Some(FilterField::ProviderName)
    } else if name == "prompt_tokens"@ {
        Some(FilterField::PromptTokens)
    } else if name == "completion_tokens"@ {
        Some(FilterField::CompletionTokens)
    } else if name == "total_tokens"@ {
        Some(FilterField::TotalTokens)
    } else if name == "total_cost"@ {
        Some(FilterField::TotalCost)
    } else if name == "inputs"@ {
        Some(FilterField::Inputs)
    } else if name == "outputs"@ {
        Some(FilterField::Outputs)
    } else if name == "extra"@ {
        Some(FilterField::Extra)
    } else if name == "attributes_json"@ {
        Some(FilterField::AttributesJson)
    } else {
        None
    }
}

pub open spec fn field_for(name: Seq<char>) -> Result<FilterField, Fault> {
    match field_named(name) {
        Some(field) => Ok(field),
        None => Err(Fault::Unsupported("field "@ + name + " is not indexed"@)),
    }
}

/// The place behind the mark that is wanted at `at`.
pub open spec fn want_mark(tokens: Seq<Tok>, at: nat, mark: Mark) -> Result<nat, Fault> {
    if at >= tokens.len() {
        Err(Fault::Parse("expected "@ + mark_name(mark)))
    } else if tokens[at as int] == Tok::Mark(mark) {
        Ok(at + 1)
    } else {
        Err(
            Fault::Parse(
                "expected "@ + mark_name(mark) + ", found "@ + tok_name(tokens[at as int]),
            ),
        )
    }
}

pub open spec fn mark_at(tokens: Seq<Tok>, at: nat, mark: Mark) -> bool {
    at < tokens.len() && tokens[at as int] == Tok::Mark(mark)
}

/// The identifier that is wanted at `at`, and the place behind it.
pub open spec fn want_ident(tokens: Seq<Tok>, at: nat) -> Result<(Seq<char>, nat), Fault> {
    if at >= tokens.len() {
        Err(Fault::Parse("expected identifier"@))
    } else {
        match tokens[at as int] {
            Tok::Ident(name) => Ok((name, at + 1)),
            other => Err(Fault::Parse("expected identifier, found "@ + tok_name(other))),
        }
    }
}

pub open spec fn want_field(tokens: Seq<Tok>, at: nat) -> Result<(FilterField, nat), Fault> {
    match want_ident(tokens, at) {
        Ok((name, next)) => match field_for(name) {
            Ok(field) => Ok((field, next)),
            Err(fault) => Err(fault),
        },
        Err(fault) => Err(fault),
    }
}

/// The value that is wanted at `at`, and the place behind it.
pub open spec fn want_value(tokens: Seq<Tok>, at: nat) -> Result<(Operand, nat), Fault> {
    if at >= tokens.len() {
        Err(Fault::Parse("expected value"@))
    } else {
        match tokens[at as int] {
            Tok::Text(text) => Ok((Operand::Text(text), at + 1)),
            Tok::Number(reading) => Ok((Operand::Number(reading), at + 1)),
            Tok::Ident(name) => if lower(name) == "true"@ {
                Ok((Operand::Bool(true), at + 1))
            } else if lower(name) == "false"@ {
                Ok((Operand::Bool(false), at + 1))
            } else {
                Err(Fault::Parse("expected value, found "@ + tok_name(Tok::Ident(name))))
            },
            other => Err(Fault::Parse("expected value, found "@ + tok_name(other))),
        }
    }
}

/// One value or more, with commas between them.
pub open spec fn want_values(tokens: Seq<Tok>, at: nat) -> Result<(Seq<Operand>, nat), Fault>
    decreases tokens.len() - at,
{
    match want_value(tokens, at) {
        Ok((value, next)) => if mark_at(tokens, next, Mark::Comma) {
            match want_values(tokens, next + 1) {
                Ok((rest, end)) => Ok((seq![value] + rest, end)),
                Err(fault) => Err(fault),
            }
        } else {
            Ok((seq![value], next))
        },
        Err(fault) => Err(fault),
    }
}

/// A list of values in brackets.
pub open spec fn want_list(tokens: Seq<Tok>, at: nat) -> Result<(Seq<Operand>, nat), Fault> {
    match want_mark(tokens, at, Mark::LBracket) {
        Ok(first) => {
            let inside = if mark_at(tokens, first, Mark::RBracket) {
                Ok((Seq::<Operand>::empty(), first))
            } else {
                want_values(tokens, first)
            };
            match inside {
                Ok((values, next)) => match want_mark(tokens, next, Mark::RBracket) {
                    Ok(end) => Ok((values, end)),
                    Err(fault) => Err(fault),
                },
                Err(fault) => Err(fault),
            }
        },
        Err(fault) => Err(fault),
    }
}

/// A field and a comma, if an identifier and a comma stand at `at`.
pub open spec fn optional_field(tokens: Seq<Tok>, at: nat) -> Result<
    (Option<FilterField>, nat),
    Fault,
> {
    if at < tokens.len() && mark_at(tokens, at + 1, Mark::Comma) {
        match tokens[at as int] {
            Tok::Ident(name) => match field_for(name) {
                Ok(field) => Ok((Some(field), at + 2)),
                Err(fault) => Err(fault),
            },
            _ => Ok((None, at)),
        }
    } else {
        Ok((None, at))
    }
}

/// The text of the value that is wanted at `at`, and the place behind it.
pub open spec fn want_text(tokens: Seq<Tok>, at: nat) -> Result<(Seq<char>, nat), Fault> {
    match want_value(tokens, at) {
        Ok((value, next)) => Ok((value_text(value), next)),
        Err(fault) => Err(fault),
    }
}

/// A field, a comma and a value.
pub open spec fn want_field_value(tokens: Seq<Tok>, at: nat) -> Result<
    (FilterField, Operand, nat),
    Fault,
> {
    match want_field(tokens, at) {
        Ok((field, next)) => match want_mark(tokens, next, Mark::Comma) {
            Ok(then_at) => match want_value(tokens, then_at) {
                Ok((value, end)) => Ok((field, value, end)),
                Err(fault) => Err(fault),
            },
            Err(fault) => Err(fault),
        },
        Err(fault) => Err(fault),
    }
}

/// A field, a comma and a list of values.
pub open spec fn want_field_list(tokens: Seq<Tok>, at: nat) -> Result<
    (FilterField, Seq<Operand>, nat),
    Fault,
> {
    match want_field(tokens, at) {
        Ok((field, next)) => match want_mark(tokens, next, Mark::Comma) {
            Ok(then_at) => match want_list(tokens, then_at) {
                Ok((values, end)) => Ok((field, values, end)),
                Err(fault) => Err(fault),
            },
            Err(fault) => Err(fault),
        },
        Err(fault) => Err(fault),
    }
}

/// An optional field and a text.
pub open spec fn want_scoped_text(tokens: Seq<Tok>, at: nat) -> Result<
    (Option<FilterField>, Seq<char>, nat),
    Fault,
> {
    match optional_field(tokens, at) {
        Ok((field, next)) => match want_text(tokens, next) {
            Ok((text, end)) => Ok((field, text, end)),
            Err(fault) => Err(fault),
        },
        Err(fault) => Err(fault),
    }
}

/// How much deeper calls may stand.
pub open spec fn depth_left(depth: nat) -> nat {
    if depth > MAX_FILTER_DEPTH + 1 {
        0
    } else {
        (MAX_FILTER_DEPTH + 2 - depth) as nat
    }
}

/// The call at `at`, the place behind it, and the number of calls up to there.
pub open spec fn parse_at(tokens: Seq<Tok>, at: nat, nodes: nat, depth: nat) -> Result<
    (Filter, nat, nat),
    Fault,
>
    decreases 18 - depth, 200 - nodes, 2int,
{
    if depth > MAX_FILTER_DEPTH {
        Err(Fault::Parse("filter nesting is too deep"@))
    } else if nodes + 1 > MAX_FILTER_NODES {
        Err(Fault::Parse("filter is too large"@))
    } else {
        match want_ident(tokens, at) {
            Ok((name, next)) => match want_mark(tokens, next, Mark::LParen) {
                Ok(inside) => match parse_inside(lower(name), tokens, inside, nodes + 1, depth) {
                    Ok((filter, last, count)) => match want_mark(tokens, last, Mark::RParen) {
                        Ok(end) => Ok((filter, end, count)),
                        Err(fault) => Err(fault),
                    },
                    Err(fault) => Err(fault),
                },
                Err(fault) => Err(fault),
            },
            Err(fault) => Err(fault),
        }
    }
}

/// What stands between the parentheses of a call of `function`.
pub open spec fn parse_inside(
    function: Seq<char>,
    tokens: Seq<Tok>,
    at: nat,
    nodes: nat,
    depth: nat,
) -> Result<(Filter, nat, nat), Fault>
    decreases 18 - depth, 200 - nodes, 1int,
{
    if depth > MAX_FILTER_DEPTH {
        Err(Fault::Parse("filter nesting is too deep"@))
    } else if function == "and"@ || function == "or"@ {
        let inside = if mark_at(tokens, at, Mark::RParen) {
            Ok((Seq::<Filter>::empty(), at, nodes))
        } else {
            parse_children(tokens, at, nodes, depth + 1)
        };
        match inside {
            Ok((children, end, count)) => if function == "and"@ {
                Ok((Filter::And(children), end, count))
            } else {
                Ok((Filter::Or(children), end, count))
            },
            Err(fault) => Err(fault),
        }
    } else if compare_op(function) is Some {
        match want_field_value(tokens, at) {
            Ok((field, value, end)) => Ok(
                (Filter::Compare { op: compare_op(function)->0, field, value }, end, nodes),
            ),
            Err(fault) => Err(fault),
        }
    } else if function == "has"@ {
        match want_field_value(tokens, at) {
            Ok((field, value, end)) => Ok((Filter::Has { field, value }, end, nodes)),
            Err(fault) => Err(fault),
        }
    } else if function == "in"@ {
        match want_field_list(tokens, at) {
            Ok((field, values, end)) => Ok((Filter::In { field, values }, end, nodes)),
            Err(fault) => Err(fault),
        }
    } else if function == "contains"@ || function == "does_not_contain"@ || function
        == "not_contains"@ {
        match want_field_value(tokens, at) {
            Ok((field, value, end)) => Ok(
                (
                    Filter::Contains { field, value, negated: function != "contains"@ },
                    end,
                    nodes,
                ),
            ),
            Err(fault) => Err(fault),
        }
    } else if function == "search"@ {
        match want_scoped_text(tokens, at) {
            Ok((field, query, end)) => Ok((Filter::Search { field, query }, end, nodes)),
            Err(fault) => Err(fault),
        }
    } else if function == "json_key"@ {
        match want_scoped_text(tokens, at) {
            Ok((field, pattern, end)) => Ok((Filter::JsonKey { field, pattern }, end, nodes)),
            Err(fault) => Err(fault),
        }
    } else if function == "json_key_search"@ {
        match want_scoped_text(tokens, at) {
            Ok((field, path, next)) => match want_mark(tokens, next, Mark::Comma) {
                Ok(then_at) => match want_text(tokens, then_at) {
                    Ok((query, end)) => Ok(
                        (Filter::JsonKeySearch { field, path, query }, end, nodes),
                    ),
                    Err(fault) => Err(fault),
                },
                Err(fault) => Err(fault),
            },
            Err(fault) => Err(fault),
        }
    } else {
        Err(Fault::Unsupported("operator "@ + function + " is not supported"@))
    }
}

/// One call or more, with commas between them.
pub open spec fn parse_children(tokens: Seq<Tok>, at: nat, nodes: nat, depth: nat) -> Result<
    (Seq<Filter>, nat, nat),
    Fault,
>
    decreases 18 - depth, 200 - nodes, 3int,
{
    match parse_at(tokens, at, nodes, depth) {
        Ok((filter, next, count)) => if nodes < count <= MAX_FILTER_NODES && mark_at(
            tokens,
            next,
            Mark::Comma,
        ) {
            match parse_children(tokens, next + 1, count, depth) {
                Ok((rest, end, total)) => Ok((seq![filter] + rest, end, total)),
                Err(fault) => Err(fault),
            }
        } else {
            Ok((seq![filter], next, count))
        },
        Err(fault) => Err(fault),
    }
}

/// The filter that tokens write: one call, and nothing behind it.
pub open spec fn parse_tokens(tokens: Seq<Tok>) -> Result<Filter, Fault> {
    match parse_at(tokens, 0, 0, 0) {
        Ok((filter, end, _)) => if end < tokens.len() {
            Err(Fault::Parse("trailing tokens"@))
        } else {
            Ok(filter)
        },
        Err(fault) => Err(fault),
    }
}

/// The filter that `input` writes.
pub open spec fn parse_spec(input: Seq<char>, readings: Map<Seq<char>, Reading>) -> Result<
    Filter,
    Fault,
> {
    match lex_spec(input, readings) {
        Ok(tokens) => parse_tokens(tokens),
        Err(fault) => Err(fault),
    }
}

fn parse_compare_op(name: &str) -> (r: Option<CompareOp>)
    ensures
        r == compare_op(name@),
{
    if same(name, "eq") {
        Some(CompareOp::Eq)
    } else if same(name, "neq") {
        Some(CompareOp::Neq)
    } else if same(name, "gt") {
        Some(CompareOp::Gt)
    } else if same(name, "gte") {
        Some(CompareOp::Gte)
    } else if same(name, "lt") {
        Some(CompareOp::Lt)
    } else if same(name, "lte") {
        Some(CompareOp::Lte)
    } else {
        None
    }
}

fn known_field(name: &str) -> (r: Option<FilterField>)
    ensures
        r == field_named(name@),
{
    if same(name, "id") || same(name, "run_id") {
        Some(FilterField::Id)
    } else if same(name, "name") {
        Some(FilterField::Name)
    } else if same(name, "project_name") || same(name, "session") || same(name, "session_name") {
        Some(FilterField::ProjectName)
    } else if same(name, "run_type") {
        Some(FilterField::RunType)
    } else if same(name, "status") {
        Some(FilterField::Status)
    } else if same(name, "error") {
        Some(FilterField::Error)
    } else if same(name, "start_time") {
        Some(FilterField::StartTime)
    } else if same(name, "end_time") {
        Some(FilterField::EndTime)
    } else if same(name, "latency") {
        Some(FilterField::Latency)
    } else if same(name, "tags") {
        Some(FilterField::Tags)
    } else if same(name, "metadata_key") {
        Some(FilterField::MetadataKey)
    } else if same(name, "metadata_value") {
        Some(FilterField::MetadataValue)
    } else if same(name, "feedback_key") {
        Some(FilterField::FeedbackKey)
    } else if same(name, "feedback_score") {
        Some(FilterField::FeedbackScore)
    } else if same(name, "feedback_value") {
        Some(FilterField::FeedbackValue)
    } else if same(name, "is_root") {
        Some(FilterField::IsRoot)
    } else if same(name, "trace_id") || same(name, "trace") {
        Some(FilterField::TraceId)
    } else if same(name, "root_run_id") {
        Some(FilterField::RootRunId)
    } else if same(name, "root_span_id") {
        Some(FilterField::RootSpanId)
    } else if same(name, "model") || same(name, "model_name") || same(name, "ls_model_name") {
        Some(FilterField::ModelName)
    } else if same(name, "provider") || same(name, "provider_name") || same(name, "ls_provider") {
        Some(FilterField::ProviderName)
    } else if same(name, "prompt_tokens") {
        Some(FilterField::PromptTokens)
    } else if same(name, "completion_tokens") {
        Some(FilterField::CompletionTokens)
    } else if same(name, "total_tokens") {
        Some(FilterField::TotalTokens)
    } else if same(name, "total_cost") {
        Some(FilterField::TotalCost)
    } else if same(name, "inputs") {
        Some(FilterField::Inputs)
    } else if same(name, "outputs") {
        Some(FilterField::Outputs)
    } else if same(name, "extra") {
        Some(FilterField::Extra)
    } else if same(name, "attributes_json") {
        Some(FilterField::AttributesJson)
    } else {
        None
    }
}

fn parse_field(name: &str) -> (r: Result<FilterField, FilterError>)
    ensures
        match r {
            Ok(field) => field_for(name@) == Ok::<_, Fault>(field),
            Err(error) => field_for(name@) == Err::<FilterField, _>(error@),
        },
{
    match known_field(name) {
        Some(field) => Ok(field),
        None => {
            let mut message = "field ".to_owned();
            message.append(name);
            message.append(" is not indexed");
            Err(FilterError::Unsupported(message))
        },
    }
}

struct Parser {
    tokens: Vec<Token>,
    offset: usize,
    nodes: usize,
}

impl Parser {
    spec fn toks(&self) -> Seq<Tok> {
        toks(self.tokens@)
    }

    spec fn wf(&self) -> bool {
        self.offset <= self.tokens.len() && self.nodes <= MAX_FILTER_NODES
    }

    /// Whether the parser has gone on from where it was: it never goes back, and one
    /// call more than there may be is the last that it counts.
    spec fn went_on(self, before: Self) -> bool {
        &&& self.tokens == before.tokens
        &&& before.offset <= self.offset <= self.tokens.len()
        &&& before.nodes <= self.nodes <= MAX_FILTER_NODES + 1
    }

    fn peek_is(&self, mark: Mark) -> (r: bool)
        requires
            self.wf(),
        ensures
            r == mark_at(self.toks(), self.offset as nat, mark),
    {
        if self.offset < self.tokens.len() {
            assert(self.toks()[self.offset as int] == self.tokens@[self.offset as int]@);
            match &self.tokens[self.offset] {
                Token::Mark(found) => *found == mark,
                _ => false,
            }
        } else {
            false
        }
    }

    fn consume_if(&mut self, mark: Mark) -> (r: bool)
        requires
            old(self).wf(),
        ensures
            r == mark_at(old(self).toks(), old(self).offset as nat, mark),
            final(self).wf(),
            final(self).tokens == old(self).tokens,
            final(self).nodes == old(self).nodes,
            final(self).offset >= old(self).offset,
            final(self).offset == old(self).offset + (if r {
                1int
            } else {
                0
            }),
    {
        if self.peek_is(mark) {
            self.offset = self.offset + 1;
            true
        } else {
            false
        }
    }

    fn next(&mut self) -> (r: Option<Token>)
        requires
            old(self).wf(),
        ensures
            final(self).wf(),
            final(self).tokens == old(self).tokens,
            final(self).nodes == old(self).nodes,
            final(self).offset >= old(self).offset,
            match r {
                Some(token) => old(self).offset < old(self).tokens.len() && token@ == old(
                    self,
                ).toks()[old(self).offset as int] && final(self).offset == old(self).offset + 1,
                None => old(self).offset == old(self).tokens.len() && final(self).offset == old(
                    self,
                ).offset,
            },
    {
        if self.offset < self.tokens.len() {
            let token = self.tokens[self.offset].clone();
            assert(self.toks()[self.offset as int] == self.tokens@[self.offset as int]@);
            self.offset = self.offset + 1;
            Some(token)
        } else {
            None
        }
    }

    fn expect(&mut self, mark: Mark) -> (r: Result<(), FilterError>)
        requires
            old(self).wf(),
        ensures
            final(self).wf(),
            final(self).tokens == old(self).tokens,
            final(self).nodes == old(self).nodes,
            final(self).offset >= old(self).offset,
            match r {
                Ok(_) => want_mark(old(self).toks(), old(self).offset as nat, mark) == Ok::<
                    nat,
                    Fault,
                >(final(self).offset as nat),
                Err(error) => want_mark(old(self).toks(), old(self).offset as nat, mark) == Err::<
                    nat,
                    _,
                >(error@),
            },
    {
        match self.next() {
            Some(token) => {
                let found = match &token {
                    Token::Mark(found) => *found == mark,
                    _ => false,
                };
                if found {
                    Ok(())
                } else {
                    let mut message = "expected ".to_owned();
                    message.append(name_of_mark(mark).as_str());
                    message.append(", found ");
                    message.append(name_of_token(&token).as_str());
                    Err(FilterError::Parse(message))
                }
            },
            None => {
                let mut message = "expected ".to_owned();
                message.append(name_of_mark(mark).as_str());
                Err(FilterError::Parse(message))
            },
        }
    }

    fn expect_ident(&mut self) -> (r: Result<String, FilterError>)
        requires
            old(self).wf(),
        ensures
            final(self).wf(),
            final(self).tokens == old(self).tokens,
            final(self).nodes == old(self).nodes,
            final(self).offset >= old(self).offset,
            match r {
                Ok(name) => want_ident(old(self).toks(), old(self).offset as nat) == Ok::<_, Fault>(
                    (name@, final(self).offset as nat),
                ),
                Err(error) => want_ident(old(self).toks(), old(self).offset as nat) == Err::<
                    (Seq<char>, nat),
                    _,
                >(error@),
            },
    {
        match self.next() {
            Some(Token::Ident(name)) => Ok(name),
            Some(other) => {
                let mut message = "expected identifier, found ".to_owned();
                message.append(name_of_token(&other).as_str());
                Err(FilterError::Parse(message))
            },
            None => Err(FilterError::Parse("expected identifier".to_owned())),
        }
    }

    fn expect_field(&mut self) -> (r: Result<FilterField, FilterError>)
        requires
            old(self).wf(),
        ensures
            final(self).wf(),
            final(self).tokens == old(self).tokens,
            final(self).nodes == old(self).nodes,
            final(self).offset >= old(self).offset,
            match r {
                Ok(field) => want_field(old(self).toks(), old(self).offset as nat) == Ok::<
                    _,
                    Fault,
                >((field, final(self).offset as nat)),
                Err(error) => want_field(old(self).toks(), old(self).offset as nat) == Err::<
                    (FilterField, nat),
                    _,
                >(error@),
            },
    {
        match self.expect_ident() {
            Ok(name) => parse_field(name.as_str()),
            Err(error) => Err(error),
        }
    }

    fn parse_value(&mut self) -> (r: Result<FilterValue, FilterError>)
        requires
            old(self).wf(),
        ensures
            final(self).wf(),
            final(self).tokens == old(self).tokens,
            final(self).nodes == old(self).nodes,
            final(self).offset >= old(self).offset,
            match r {
                Ok(value) => want_value(old(self).toks(), old(self).offset as nat) == Ok::<
                    _,
                    Fault,
                >((value@, final(self).offset as nat)),
                Err(error) => want_value(old(self).toks(), old(self).offset as nat) == Err::<
                    (Operand, nat),
                    _,
                >(error@),
            },
    {
        match self.next() {
            Some(Token::Text(text)) => Ok(FilterValue::Text(text)),
            Some(Token::Number(reading)) => Ok(FilterValue::Number(reading)),
            Some(other) => {
                if let Token::Ident(name) = &other {
                    let word = lowered(name.as_str());
                    if same(word.as_str(), "true") {
                        return Ok(FilterValue::Bool(true));
                    }
                    if same(word.as_str(), "false") {
                        return Ok(FilterValue::Bool(false));
                    }
                }
                let mut message = "expected value, found ".to_owned();
                message.append(name_of_token(&other).as_str());
                Err(FilterError::Parse(message))
            },
            None => Err(FilterError::Parse("expected value".to_owned())),
        }
    }

    fn parse_list(&mut self) -> (r: Result<Vec<FilterValue>, FilterError>)
        requires
            old(self).wf(),
        ensures
            final(self).wf(),
            final(self).tokens == old(self).tokens,
            final(self).nodes == old(self).nodes,
            final(self).offset >= old(self).offset,
            match r {
                Ok(values) => want_list(old(self).toks(), old(self).offset as nat) == Ok::<
                    _,
                    Fault,
                >((values_of(values@), final(self).offset as nat)),
                Err(error) => want_list(old(self).toks(), old(self).offset as nat) == Err::<
                    (Seq<Operand>, nat),
                    _,
                >(error@),
            },
    {
        match self.expect(Mark::LBracket) {
            Ok(_) => {},
            Err(error) => {
                return Err(error);
            },
        }
        let ghost tokens = self.toks();
        let ghost first = self.offset as nat;
        let mut values: Vec<FilterValue> = Vec::new();
        assert(values_of(values@) =~= Seq::<Operand>::empty());
        if !self.peek_is(Mark::RBracket) {
            let ghost whole = want_values(tokens, first);
            let mut more = true;
            assert(match whole {
                Ok((rest, end)) => values_of(values@) + rest =~= rest,
                Err(_) => true,
            });
            while more
                invariant
                    self.wf(),
                    self.tokens == old(self).tokens,
                    self.nodes == old(self).nodes,
                    self.offset >= old(self).offset,
                    self.toks() == tokens,
                    old(self).toks() == tokens,
                    want_mark(tokens, old(self).offset as nat, Mark::LBracket) == Ok::<nat, Fault>(
                        first,
                    ),
                    !mark_at(tokens, first, Mark::RBracket),
                    whole == want_values(tokens, first),
                    more ==> match want_values(tokens, self.offset as nat) {
                        Ok((rest, end)) => whole == Ok::<_, Fault>(
                            (values_of(values@) + rest, end),
                        ),
                        Err(fault) => whole == Err::<(Seq<Operand>, nat), _>(fault),
                    },
                    !more ==> whole == Ok::<_, Fault>((values_of(values@), self.offset as nat)),
                decreases
                        tokens.len() - self.offset + (if more {
                            1int
                        } else {
                            0
                        }),
            {
                let ghost before = values_of(values@);
                let value = match self.parse_value() {
                    Ok(value) => value,
                    Err(error) => {
                        return Err(error);
                    },
                };
                let ghost model = value@;
                values.push(value);
                assert(values_of(values@) =~= before.push(model));
                more = self.consume_if(Mark::Comma);
                proof {
                    assert(before + seq![model] =~= values_of(values@));
                    match want_values(tokens, self.offset as nat) {
                        Ok((rest, end)) => {
                            assert(before + (seq![model] + rest) =~= values_of(values@) + rest);
                        },
                        Err(_) => {},
                    }
                }
            }
        }
        match self.expect(Mark::RBracket) {
            Ok(_) => Ok(values),
            Err(error) => Err(error),
        }
    }

    fn parse_optional_field_prefix(&mut self) -> (r: Result<Option<FilterField>, FilterError>)
        requires
            old(self).wf(),
        ensures
            final(self).wf(),
            final(self).tokens == old(self).tokens,
            final(self).nodes == old(self).nodes,
            final(self).offset >= old(self).offset,
            match r {
                Ok(field) => optional_field(old(self).toks(), old(self).offset as nat) == Ok::<
                    _,
                    Fault,
                >((field, final(self).offset as nat)),
                Err(error) => optional_field(old(self).toks(), old(self).offset as nat) == Err::<
                    (Option<FilterField>, nat),
                    _,
                >(error@),
            },
    {
        if self.offset < self.tokens.len() && self.offset + 1 < self.tokens.len() {
            assert(self.toks()[self.offset as int] == self.tokens@[self.offset as int]@);
            assert(self.toks()[self.offset + 1] == self.tokens@[self.offset + 1]@);
            let comma = match &self.tokens[self.offset + 1] {
                Token::Mark(mark) => *mark == Mark::Comma,
                _ => false,
            };
            if comma {
                if let Token::Ident(name) = &self.tokens[self.offset] {
                    match parse_field(name.as_str()) {
                        Ok(field) => {
                            self.offset = self.offset + 2;
                            return Ok(Some(field));
                        },
                        Err(error) => {
                            return Err(error);
                        },
                    }
                }
            }
        }
        Ok(None)
    }
}

impl Parser {
    fn parse_text(&mut self) -> (r: Result<String, FilterError>)
        requires
            old(self).wf(),
        ensures
            final(self).wf(),
            final(self).tokens == old(self).tokens,
            final(self).nodes == old(self).nodes,
            final(self).offset >= old(self).offset,
            match r {
                Ok(text) => want_text(old(self).toks(), old(self).offset as nat) == Ok::<_, Fault>(
                    (text@, final(self).offset as nat),
                ),
                Err(error) => want_text(old(self).toks(), old(self).offset as nat) == Err::<
                    (Seq<char>, nat),
                    _,
                >(error@),
            },
    {
        match self.parse_value() {
            Ok(value) => Ok(value.as_string()),
            Err(error) => Err(error),
        }
    }

    fn parse_field_value(&mut self) -> (r: Result<(FilterField, FilterValue), FilterError>)
        requires
            old(self).wf(),
        ensures
            final(self).wf(),
            final(self).tokens == old(self).tokens,
            final(self).nodes == old(self).nodes,
            final(self).offset >= old(self).offset,
            match r {
                Ok((field, value)) => want_field_value(old(self).toks(), old(self).offset as nat)
                    == Ok::<_, Fault>((field, value@, final(self).offset as nat)),
                Err(error) => want_field_value(old(self).toks(), old(self).offset as nat) == Err::<
                    (FilterField, Operand, nat),
                    _,
                >(error@),
            },
    {
        let field = match self.expect_field() {
            Ok(field) => field,
            Err(error) => {
                return Err(error);
            },
        };
        match self.expect(Mark::Comma) {
            Ok(_) => {},
            Err(error) => {
                return Err(error);
            },
        }
        match self.parse_value() {
            Ok(value) => Ok((field, value)),
            Err(error) => Err(error),
        }
    }

    fn parse_field_list(&mut self) -> (r: Result<(FilterField, Vec<FilterValue>), FilterError>)
        requires
            old(self).wf(),
        ensures
            final(self).wf(),
            final(self).tokens == old(self).tokens,
            final(self).nodes == old(self).nodes,
            final(self).offset >= old(self).offset,
            match r {
                Ok((field, values)) => want_field_list(old(self).toks(), old(self).offset as nat)
                    == Ok::<_, Fault>((field, values_of(values@), final(self).offset as nat)),
                Err(error) => want_field_list(old(self).toks(), old(self).offset as nat) == Err::<
                    (FilterField, Seq<Operand>, nat),
                    _,
                >(error@),
            },
    {
        let field = match self.expect_field() {
            Ok(field) => field,
            Err(error) => {
                return Err(error);
            },
        };
        match self.expect(Mark::Comma) {
            Ok(_) => {},
            Err(error) => {
                return Err(error);
            },
        }
        match self.parse_list() {
            Ok(values) => Ok((field, values)),
            Err(error) => Err(error),
        }
    }

    fn parse_scoped_text(&mut self) -> (r: Result<(Option<FilterField>, String), FilterError>)
        requires
            old(self).wf(),
        ensures
            final(self).wf(),
            final(self).tokens == old(self).tokens,
            final(self).nodes == old(self).nodes,
            final(self).offset >= old(self).offset,
            match r {
                Ok((field, text)) => want_scoped_text(old(self).toks(), old(self).offset as nat)
                    == Ok::<_, Fault>((field, text@, final(self).offset as nat)),
                Err(error) => want_scoped_text(old(self).toks(), old(self).offset as nat) == Err::<
                    (Option<FilterField>, Seq<char>, nat),
                    _,
                >(error@),
            },
    {
        let field = match self.parse_optional_field_prefix() {
            Ok(field) => field,
            Err(error) => {
                return Err(error);
            },
        };
        match self.parse_text() {
            Ok(text) => Ok((field, text)),
            Err(error) => Err(error),
        }
    }

    /// The calls between the parentheses of an `and` or `or`.
    fn parse_children(&mut self, depth: usize) -> (r: Result<Vec<FilterExpr>, FilterError>)
        requires
            old(self).wf(),
        ensures
            final(self).went_on(*old(self)),
            r is Ok ==> final(self).wf(),
            match r {
                Ok(children) => parse_children(
                    old(self).toks(),
                    old(self).offset as nat,
                    old(self).nodes as nat,
                    depth as nat,
                ) == Ok::<_, Fault>(
                    (
                        filters_of(children@),
                        final(self).offset as nat,
                        final(self).nodes as nat,
                    ),
                ),
                Err(error) => parse_children(
                    old(self).toks(),
                    old(self).offset as nat,
                    old(self).nodes as nat,
                    depth as nat,
                ) == Err::<(Seq<Filter>, nat, nat), _>(error@),
            },
        decreases depth_left(depth as nat), 1int,
    {
        let ghost tokens = self.toks();
        let ghost whole = parse_children(
            tokens,
            self.offset as nat,
            self.nodes as nat,
            depth as nat,
        );
        let mut children: Vec<FilterExpr> = Vec::new();
        let mut more = true;
        assert(filters_of(children@) =~= Seq::<Filter>::empty());
        assert(match whole {
            Ok((rest, end, count)) => filters_of(children@) + rest =~= rest,
            Err(_) => true,
        });
        while more
            invariant
                self.wf(),
                self.went_on(*old(self)),
                self.toks() == tokens,
                whole == parse_children(
                    old(self).toks(),
                    old(self).offset as nat,
                    old(self).nodes as nat,
                    depth as nat,
                ),
                more ==> match parse_children(
                    tokens,
                    self.offset as nat,
                    self.nodes as nat,
                    depth as nat,
                ) {
                    Ok((rest, end, count)) => whole == Ok::<_, Fault>(
                        (filters_of(children@) + rest, end, count),
                    ),
                    Err(fault) => whole == Err::<(Seq<Filter>, nat, nat), _>(fault),
                },
                !more ==> whole == Ok::<_, Fault>(
                    (filters_of(children@), self.offset as nat, self.nodes as nat),
                ),
            decreases
                    200 - self.nodes + (if more {
                        1int
                    } else {
                        0
                    }),
        {
            let ghost before = filters_of(children@);
            let child = match self.parse_expr(depth) {
                Ok(child) => child,
                Err(error) => {
                    return Err(error);
                },
            };
            let ghost model = child@;
            children.push(child);
            assert(filters_of(children@) =~= before.push(model));
            more = self.consume_if(Mark::Comma);
            proof {
                assert(before + seq![model] =~= filters_of(children@));
                match parse_children(
                    tokens,
                    self.offset as nat,
                    self.nodes as nat,
                    depth as nat,
                ) {
                    Ok((rest, end, count)) => {
                        assert(before + (seq![model] + rest) =~= filters_of(children@) + rest);
                    },
                    Err(_) => {},
                }
            }
        }
        Ok(children)
    }

    /// One call. One that stands too deep is refused before anything is read, and one
    /// too many as soon as it is counted.
    fn parse_expr(&mut self, depth: usize) -> (r: Result<FilterExpr, FilterError>)
        requires
            old(self).wf(),
        ensures
            final(self).went_on(*old(self)),
            r is Ok ==> final(self).wf() && final(self).nodes > old(self).nodes
                && final(self).offset > old(self).offset,
            depth > MAX_FILTER_DEPTH ==> r is Err && *final(self) == *old(self),
            depth <= MAX_FILTER_DEPTH && old(self).nodes == MAX_FILTER_NODES ==> {
                &&& r is Err
                &&& final(self).offset == old(self).offset
                &&& final(self).nodes == old(self).nodes + 1
            },
            depth <= MAX_FILTER_DEPTH ==> final(self).nodes > old(self).nodes,
            match r {
                Ok(expr) => parse_at(
                    old(self).toks(),
                    old(self).offset as nat,
                    old(self).nodes as nat,
                    depth as nat,
                ) == Ok::<_, Fault>(
                    (expr@, final(self).offset as nat, final(self).nodes as nat),
                ),
                Err(error) => parse_at(
                    old(self).toks(),
                    old(self).offset as nat,
                    old(self).nodes as nat,
                    depth as nat,
                ) == Err::<(Filter, nat, nat), _>(error@),
            },
        decreases depth_left(depth as nat), 0int,
    {
        if depth > MAX_FILTER_DEPTH {
            return Err(FilterError::Parse("filter nesting is too deep".to_owned()));
        }
        self.nodes = self.nodes + 1;
        if self.nodes > MAX_FILTER_NODES {
            return Err(FilterError::Parse("filter is too large".to_owned()));
        }
        let name = match self.expect_ident() {
            Ok(name) => name,
            Err(error) => {
                return Err(error);
            },
        };
        let function = lowered(name.as_str());
        match self.expect(Mark::LParen) {
            Ok(_) => {},
            Err(error) => {
                return Err(error);
            },
        }
        let expr = match self.parse_inside(function.as_str(), depth) {
            Ok(expr) => expr,
            Err(error) => {
                return Err(error);
            },
        };
        match self.expect(Mark::RParen) {
            Ok(_) => Ok(expr),
            Err(error) => Err(error),
        }
    }

    /// What stands between the parentheses of a call of `function`.
    fn parse_inside(&mut self, function: &str, depth: usize) -> (r: Result<FilterExpr, FilterError>)
        requires
            old(self).wf(),
            depth <= MAX_FILTER_DEPTH,
        ensures
            final(self).went_on(*old(self)),
            r is Ok ==> final(self).wf(),
            match r {
                Ok(expr) => parse_inside(
                    function@,
                    old(self).toks(),
                    old(self).offset as nat,
                    old(self).nodes as nat,
                    depth as nat,
                ) == Ok::<_, Fault>(
                    (expr@, final(self).offset as nat, final(self).nodes as nat),
                ),
                Err(error) => parse_inside(
                    function@,
                    old(self).toks(),
                    old(self).offset as nat,
                    old(self).nodes as nat,
                    depth as nat,
                ) == Err::<(Filter, nat, nat), _>(error@),
            },
        decreases depth_left(depth as nat + 1), 2int,
    {
        if same(function, "and") || same(function, "or") {
            let children = if self.peek_is(Mark::RParen) {
                let none: Vec<FilterExpr> = Vec::new();
                assert(filters_of(none@) =~= Seq::<Filter>::empty());
                none
            } else {
                match self.parse_children(depth + 1) {
                    Ok(children) => children,
                    Err(error) => {
                        return Err(error);
                    },
                }
            };
            proof {
                lemma_children_view(children);
            }
            return if same(function, "and") {
                Ok(FilterExpr::And(children))
            } else {
                Ok(FilterExpr::Or(children))
            };
        }
        if let Some(op) = parse_compare_op(function) {
            return match self.parse_field_value() {
                Ok((field, value)) => Ok(FilterExpr::Compare { op, field, value }),
                Err(error) => Err(error),
            };
        }
        if same(function, "has") {
            return match self.parse_field_value() {
                Ok((field, value)) => Ok(FilterExpr::Has { field, value }),
                Err(error) => Err(error),
            };
        }
        if same(function, "in") {
            return match self.parse_field_list() {
                Ok((field, values)) => Ok(FilterExpr::In { field, values }),
                Err(error) => Err(error),
            };
        }
        if same(function, "contains") || same(function, "does_not_contain") || same(
            function,
            "not_contains",
        ) {
            return match self.parse_field_value() {
                Ok((field, value)) => Ok(
                    FilterExpr::Contains { field, value, negated: !same(function, "contains") },
                ),
                Err(error) => Err(error),
            };
        }
        if same(function, "search") {
            return match self.parse_scoped_text() {
                Ok((field, query)) => Ok(FilterExpr::Search { field, query }),
                Err(error) => Err(error),
            };
        }
        if same(function, "json_key") {
            return match self.parse_scoped_text() {
                Ok((field, pattern)) => Ok(FilterExpr::JsonKey { field, pattern }),
                Err(error) => Err(error),
            };
        }
        if same(function, "json_key_search") {
            let (field, path) = match self.parse_scoped_text() {
                Ok(found) => found,
                Err(error) => {
                    return Err(error);
                },
            };
            match self.expect(Mark::Comma) {
                Ok(_) => {},
                Err(error) => {
                    return Err(error);
                },
            }
            return match self.parse_text() {
                Ok(query) => Ok(FilterExpr::JsonKeySearch { field, path, query }),
                Err(error) => Err(error),
            };
        }
        let mut message = "operator ".to_owned();
        message.append(function);
        message.append(" is not supported");
        Err(FilterError::Unsupported(message))
    }
}

/// The filter that `input` writes.
pub fn parse_filter_expr(input: &str, readings: &FloatReadings) -> (r: Result<
    FilterExpr,
    FilterError,
>)
    ensures
        match r {
            Ok(expr) => parse_spec(input@, readings@) == Ok::<_, Fault>(expr@),
            Err(error) => parse_spec(input@, readings@) == Err::<Filter, _>(error@),
        },
{
    let tokens = match lex(input, readings) {
        Ok(tokens) => tokens,
        Err(error) => {
            return Err(error);
        },
    };
    let mut parser = Parser { tokens, offset: 0, nodes: 0 };
    match parser.parse_expr(0) {
        Ok(expr) => {
            if parser.offset < parser.tokens.len() {
                Err(FilterError::Parse("trailing tokens".to_owned()))
            } else {
                Ok(expr)
            }
        },
        Err(error) => Err(error),
    }
}

} // verus!
