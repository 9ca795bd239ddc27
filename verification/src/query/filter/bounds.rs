//! Filters are no larger than they may be.

use crate::float::Reading;
use crate::query::filter::Filter;
use crate::query::filter::MAX_FILTER_DEPTH;
use crate::query::filter::MAX_FILTER_NODES;
use crate::query::filter::lexer::Mark;
use crate::query::filter::lexer::Tok;
use crate::query::filter::lexer::lex_spec;
use crate::query::filter::parser::mark_at;
use crate::query::filter::parser::parse_at;
use crate::query::filter::parser::parse_children;
use crate::query::filter::parser::parse_inside;
use crate::query::filter::parser::parse_spec;
use crate::query::filter::parser::want_ident;
use crate::query::filter::parser::want_mark;
use crate::text::lower;
use vstd::prelude::*;

verus! {

/// How many calls a filter is made of.
pub open spec fn size_of(filter: Filter) -> nat
    decreases filter,
{
    match filter {
        Filter::And(children) => 1 + sizes_of(children),
        Filter::Or(children) => 1 + sizes_of(children),
        _ => 1,
    }
}

/// How many calls filters are made of.
pub open spec fn sizes_of(filters: Seq<Filter>) -> nat
    decreases filters,
{
    if filters.len() == 0 {
        0
    } else {
        size_of(filters[0]) + sizes_of(filters.subrange(1, filters.len() as int))
    }
}

/// How many calls stand inside each other in a filter.
pub open spec fn height_of(filter: Filter) -> nat
    decreases filter,
{
    match filter {
        Filter::And(children) => 1 + heights_of(children),
        Filter::Or(children) => 1 + heights_of(children),
        _ => 1,
    }
}

/// How many calls stand inside each other in the highest of filters.
pub open spec fn heights_of(filters: Seq<Filter>) -> nat
    decreases filters,
{
    if filters.len() == 0 {
        0
    } else {
        let first = height_of(filters[0]);
        let rest = heights_of(filters.subrange(1, filters.len() as int));
        if first > rest {
            first
        } else {
            rest
        }
    }
}

proof fn lemma_first_and_rest(first: Filter, rest: Seq<Filter>)
    ensures
        sizes_of(seq![first] + rest) == size_of(first) + sizes_of(rest),
        heights_of(seq![first] + rest) <= height_of(first) || heights_of(seq![first] + rest)
            <= heights_of(rest),
{
    let all = seq![first] + rest;
    assert(all.subrange(1, all.len() as int) =~= rest);
    assert(all[0] == first);
}

proof fn lemma_call_is_bounded(tokens: Seq<Tok>, at: nat, nodes: nat, depth: nat)
    ensures
        match parse_at(tokens, at, nodes, depth) {
            Ok((filter, _, count)) => {
                &&& count == nodes + size_of(filter)
                &&& count <= MAX_FILTER_NODES
                &&& depth + height_of(filter) <= MAX_FILTER_DEPTH + 1
            },
            Err(_) => true,
        },
    decreases 18 - depth, 200 - nodes, 2int,
{
    if depth <= MAX_FILTER_DEPTH && nodes + 1 <= MAX_FILTER_NODES {
        if let Ok((name, next)) = want_ident(tokens, at) {
            if let Ok(inside) = want_mark(tokens, next, Mark::LParen) {
                lemma_inside_is_bounded(lower(name), tokens, inside, nodes + 1, depth);
            }
        }
    }
}

proof fn lemma_inside_is_bounded(
    function: Seq<char>,
    tokens: Seq<Tok>,
    at: nat,
    nodes: nat,
    depth: nat,
)
    requires
        nodes <= MAX_FILTER_NODES,
    ensures
        match parse_inside(function, tokens, at, nodes, depth) {
            Ok((filter, _, count)) => {
                &&& count + 1 == nodes + size_of(filter)
                &&& count <= MAX_FILTER_NODES
                &&& depth + height_of(filter) <= MAX_FILTER_DEPTH + 1
            },
            Err(_) => true,
        },
    decreases 18 - depth, 200 - nodes, 1int,
{
    if depth <= MAX_FILTER_DEPTH && (function == "and"@ || function == "or"@) && !mark_at(
        tokens,
        at,
        Mark::RParen,
    ) {
        lemma_children_are_bounded(tokens, at, nodes, depth + 1);
    }
}

proof fn lemma_children_are_bounded(tokens: Seq<Tok>, at: nat, nodes: nat, depth: nat)
    requires
        nodes <= MAX_FILTER_NODES,
    ensures
        match parse_children(tokens, at, nodes, depth) {
            Ok((children, _, count)) => {
                &&& count == nodes + sizes_of(children)
                &&& count <= MAX_FILTER_NODES
                &&& depth + heights_of(children) <= MAX_FILTER_DEPTH + 1
            },
            Err(_) => true,
        },
    decreases 18 - depth, 200 - nodes, 3int,
{
    lemma_call_is_bounded(tokens, at, nodes, depth);
    if let Ok((filter, next, count)) = parse_at(tokens, at, nodes, depth) {
        lemma_first_and_rest(filter, Seq::empty());
        assert(seq![filter] + Seq::<Filter>::empty() =~= seq![filter]);
        if nodes < count <= MAX_FILTER_NODES && mark_at(tokens, next, Mark::Comma) {
            lemma_children_are_bounded(tokens, next + 1, count, depth);
            if let Ok((rest, _, _)) = parse_children(tokens, next + 1, count, depth) {
                lemma_first_and_rest(filter, rest);
            }
        }
    }
}

/// A filter that is read from text is bounded, in the number of its calls and in how
/// many of them stand inside each other.
pub proof fn law_filters_are_bounded(input: Seq<char>, readings: Map<Seq<char>, Reading>)
    ensures
        match parse_spec(input, readings) {
            Ok(filter) => size_of(filter) <= MAX_FILTER_NODES && height_of(filter)
                <= MAX_FILTER_DEPTH + 1,
            Err(_) => true,
        },
{
    if let Ok(tokens) = lex_spec(input, readings) {
        lemma_call_is_bounded(tokens, 0, 0, 0);
    }
}

} // verus!
