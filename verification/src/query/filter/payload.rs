//! What a filter asks of the payload of a run, and that a search asks the same.

use crate::query::filter::CompareOp;
use crate::query::filter::Filter;
use crate::query::filter::FilterField;
use crate::query::filter::phase6::all_of;
use crate::query::filter::phase6::any_of;
use crate::query::filter::phase6::any_scalar_atom;
use crate::query::filter::phase6::any_search_atom;
use crate::query::filter::phase6::atom_search;
use crate::query::filter::phase6::every_search;
use crate::query::filter::phase6::has_scalar_atom;
use crate::query::filter::phase6::has_search_atom;
use crate::query::filter::phase6::law_scalar_filters_are_their_prefilters;
use crate::query::filter::phase6::path_prefixes;
use crate::query::filter::phase6::payload_path;
use crate::query::filter::phase6::payload_path_text;
use crate::query::filter::phase6::payload_text;
use crate::query::filter::phase6::payload_value;
use crate::query::filter::phase6::payload_values;
use crate::query::filter::phase6::scalar_part;
use crate::query::filter::phase6::scalar_parts;
use crate::query::filter::phase6::search_of;
use crate::query::filter::phase6::some_searches;
use crate::query::filter::value_text;
use crate::search::Scope;
use crate::search::Search;
use crate::text::starts_with;
use vstd::prelude::*;

verus! {

/// A value in the payload of a run, and the path that leads to it.
pub struct Leaf {
    pub path: Seq<char>,
    pub value: Seq<char>,
}

/// The payload of a run, with what it is to find a text in a value and a pattern in a
/// path.
pub struct Payload {
    pub leaves: Set<Leaf>,
    pub finds: spec_fn(Seq<char>, Seq<char>) -> bool,
    pub leads: spec_fn(Seq<char>, Seq<char>) -> bool,
}

/// Whether a path leads to a place or below it.
pub open spec fn at_or_below(path: Seq<char>, place: Seq<char>) -> bool {
    path == place || starts_with(path, place.push('.'))
}

/// Whether a path is in the scope of a search.
pub open spec fn in_scope(scope: Scope, path: Seq<char>) -> bool {
    match scope {
        Scope::All => true,
        Scope::PathPrefix(place) => at_or_below(path, place),
        Scope::ExactPath(place) => path == place,
    }
}

impl Payload {
    /// Whether a value in a scope holds a text.
    pub open spec fn has_text(self, scope: Scope, query: Seq<char>) -> bool {
        exists|leaf: Leaf| #[trigger]
            self.leaves.contains(leaf) && in_scope(scope, leaf.path) && (self.finds)(
                leaf.value,
                query,
            )
    }

    /// Whether a value is in a scope.
    pub open spec fn has_value(self, scope: Scope, value: Seq<char>) -> bool {
        exists|leaf: Leaf| #[trigger]
            self.leaves.contains(leaf) && in_scope(scope, leaf.path) && leaf.value == value
    }

    /// Whether a path is like a pattern.
    pub open spec fn has_path(self, pattern: Seq<char>) -> bool {
        exists|leaf: Leaf| #[trigger]
            self.leaves.contains(leaf) && (self.leads)(leaf.path, pattern)
    }
}

/// Whether what a search asks is true of a payload.
pub open spec fn search_holds(search: Search, payload: Payload) -> bool
    decreases search,
{
    match search {
        Search::And(searches) => searches_hold(searches, payload),
        Search::Or(searches) => some_search_holds(searches, payload),
        Search::Not(inner) => !search_holds(*inner, payload),
        Search::Text { field, query } => payload.has_text(field, query),
        Search::JsonKey { pattern } => payload.has_path(pattern),
        Search::ExactValue { field, value } => payload.has_value(field, value),
    }
}

pub open spec fn searches_hold(searches: Seq<Search>, payload: Payload) -> bool
    decreases searches,
{
    searches.len() > 0 ==> searches_hold(searches.drop_last(), payload) && search_holds(
        searches.last(),
        payload,
    )
}

pub open spec fn some_search_holds(searches: Seq<Search>, payload: Payload) -> bool
    decreases searches,
{
    searches.len() > 0 && (some_search_holds(searches.drop_last(), payload) || search_holds(
        searches.last(),
        payload,
    ))
}

/// The word for a part of the payload.
pub open spec fn part_word(field: FilterField) -> Option<Seq<char>> {
    match field {
        FilterField::Inputs => Some("inputs"@),
        FilterField::Outputs => Some("outputs"@),
        FilterField::Extra => Some("extra"@),
        _ => None,
    }
}

/// Whether a field is the payload or a part of it.
pub open spec fn is_of_payload(field: FilterField) -> bool {
    part_word(field) is Some || field == FilterField::AttributesJson
}

/// Whether a path leads into a field of the payload: where the field stands by itself, or
/// among what LangSmith keeps.
pub open spec fn leads_into(field: FilterField, path: Seq<char>) -> bool {
    match part_word(field) {
        Some(word) => at_or_below(path, word) || at_or_below(path, "langsmith."@ + word),
        None => true,
    }
}

/// A path below a place, which is the place itself if there is nothing more.
pub open spec fn further(place: Seq<char>, more: Seq<char>) -> Seq<char> {
    if more.len() == 0 {
        place
    } else {
        place + "."@ + more
    }
}

/// Whether a filter that is no `and` or `or` speaks of the payload.
pub open spec fn atom_speaks(filter: Filter) -> bool {
    match filter {
        Filter::Search { .. } | Filter::JsonKey { .. } | Filter::JsonKeySearch { .. } => true,
        Filter::Compare { field, .. } => is_of_payload(field),
        Filter::Has { field, .. } => is_of_payload(field),
        Filter::In { field, .. } => is_of_payload(field),
        Filter::Contains { field, .. } => is_of_payload(field),
        Filter::And(_) | Filter::Or(_) => false,
    }
}

/// Whether a filter speaks of the payload.
pub open spec fn speaks(filter: Filter) -> bool
    decreases filter,
{
    match filter {
        Filter::And(filters) => some_speak(filters),
        Filter::Or(filters) => some_speak(filters),
        _ => atom_speaks(filter),
    }
}

pub open spec fn some_speak(filters: Seq<Filter>) -> bool
    decreases filters,
{
    filters.len() > 0 && (some_speak(filters.drop_last()) || speaks(filters.last()))
}

/// Whether a value in a field holds a text.
pub open spec fn text_in_field(field: FilterField, query: Seq<char>, payload: Payload) -> bool {
    exists|leaf: Leaf| #[trigger]
        payload.leaves.contains(leaf) && leads_into(field, leaf.path) && (payload.finds)(
            leaf.value,
            query,
        )
}

/// Whether a value is in a field.
pub open spec fn value_in_field(field: FilterField, value: Seq<char>, payload: Payload) -> bool {
    exists|leaf: Leaf| #[trigger]
        payload.leaves.contains(leaf) && leads_into(field, leaf.path) && leaf.value == value
}

/// Whether a field has a path like a pattern.
pub open spec fn path_in_field(field: FilterField, pattern: Seq<char>, payload: Payload) -> bool {
    match part_word(field) {
        Some(word) => payload.has_path(further(word, pattern)) || payload.has_path(
            further("langsmith."@ + word, pattern),
        ),
        None => payload.has_path(pattern),
    }
}

/// Whether the value at a path in a field holds a text.
pub open spec fn text_at_path(
    field: FilterField,
    path: Seq<char>,
    query: Seq<char>,
    payload: Payload,
) -> bool {
    exists|leaf: Leaf| #[trigger]
        payload.leaves.contains(leaf) && (payload.finds)(leaf.value, query) && match part_word(
            field,
        ) {
            Some(word) => leaf.path == further(word, path) || leaf.path == further(
                "langsmith."@ + word,
                path,
            ),
            None => leaf.path == path,
        }
}

/// Where a search of a column of run heads looks.
pub open spec fn column_path(field: FilterField) -> Seq<char> {
    match field {
        FilterField::Name => "name"@,
        FilterField::RunType => "run_type"@,
        _ => "status"@,
    }
}

/// Whether what a filter asks of the payload is true of it. The filters of an `and` that
/// do not speak of the payload ask nothing of it.
pub open spec fn asked(filter: Filter, payload: Payload) -> bool
    decreases filter,
{
    match filter {
        Filter::And(filters) => all_asked(filters, payload),
        Filter::Or(filters) => some_asked(filters, payload),
        Filter::Search { field, query } => match field {
            Some(f) => if is_of_payload(f) {
                text_in_field(f, query, payload)
            } else {
                payload.has_text(Scope::ExactPath(column_path(f)), query)
            },
            None => text_in_field(FilterField::AttributesJson, query, payload),
        },
        Filter::Contains { field, value, negated } => negated != text_in_field(
            field,
            value_text(value),
            payload,
        ),
        Filter::Compare { op, field, value } => (op == CompareOp::Neq) != value_in_field(
            field,
            value_text(value),
            payload,
        ),
        Filter::In { field, values } => exists|i: int|
            0 <= i < values.len() && value_in_field(
                field,
                value_text(#[trigger] values[i]),
                payload,
            ),
        Filter::Has { field, value } => path_in_field(field, value_text(value), payload),
        Filter::JsonKey { field, pattern } => match field {
            Some(f) => path_in_field(f, pattern, payload),
            None => payload.has_path(pattern),
        },
        Filter::JsonKeySearch { field, path, query } => match field {
            Some(f) => text_at_path(f, path, query, payload),
            None => text_at_path(FilterField::AttributesJson, path, query, payload),
        },
    }
}

pub open spec fn all_asked(filters: Seq<Filter>, payload: Payload) -> bool
    decreases filters,
{
    filters.len() > 0 ==> all_asked(filters.drop_last(), payload) && (speaks(filters.last())
        ==> asked(filters.last(), payload))
}

pub open spec fn some_asked(filters: Seq<Filter>, payload: Payload) -> bool
    decreases filters,
{
    filters.len() > 0 && (some_asked(filters.drop_last(), payload) || asked(
        filters.last(),
        payload,
    ))
}

/// An `and` asks what all of its filters ask, and an `or` what one of them does.
pub proof fn law_and_or_of_searches(filters: Seq<Filter>, payload: Payload)
    ensures
        asked(Filter::And(filters), payload) <==> forall|i: int|
            0 <= i < filters.len() && speaks(#[trigger] filters[i]) ==> asked(filters[i], payload),
        asked(Filter::Or(filters), payload) <==> exists|i: int|
            0 <= i < filters.len() && asked(#[trigger] filters[i], payload),
{
    lemma_all_asked(filters, payload);
    lemma_some_asked(filters, payload);
}

proof fn lemma_all_asked(filters: Seq<Filter>, payload: Payload)
    ensures
        all_asked(filters, payload) <==> forall|i: int|
            0 <= i < filters.len() && speaks(#[trigger] filters[i]) ==> asked(filters[i], payload),
    decreases filters.len(),
{
    if filters.len() > 0 {
        let rest = filters.drop_last();
        lemma_all_asked(rest, payload);
        assert forall|i: int| 0 <= i < rest.len() implies #[trigger] rest[i] == filters[i] by {}
        if all_asked(filters, payload) {
            assert forall|i: int| 0 <= i < filters.len() && speaks(
                #[trigger] filters[i],
            ) implies asked(filters[i], payload) by {
                if i < rest.len() {
                    assert(rest[i] == filters[i]);
                }
            }
        } else if all_asked(rest, payload) {
            assert(speaks(filters[filters.len() - 1]));
        } else {
            let i = choose|i: int|
                0 <= i < rest.len() && speaks(#[trigger] rest[i]) && !asked(rest[i], payload);
            assert(speaks(filters[i]));
        }
    }
}

proof fn lemma_some_asked(filters: Seq<Filter>, payload: Payload)
    ensures
        some_asked(filters, payload) <==> exists|i: int|
            0 <= i < filters.len() && asked(#[trigger] filters[i], payload),
    decreases filters.len(),
{
    if filters.len() > 0 {
        let rest = filters.drop_last();
        lemma_some_asked(rest, payload);
        if some_asked(rest, payload) {
            let i = choose|i: int| 0 <= i < rest.len() && asked(#[trigger] rest[i], payload);
            assert(asked(filters[i], payload));
        } else if asked(filters.last(), payload) {
            assert(asked(filters[filters.len() - 1], payload));
        } else {
            assert forall|i: int| 0 <= i < filters.len() implies !asked(
                #[trigger] filters[i],
                payload,
            ) by {
                if i < rest.len() {
                    assert(rest[i] == filters[i]);
                }
            }
        }
    }
}

/// The prefixes of a part of the payload are the word for it, alone and behind
/// `langsmith.`.
proof fn lemma_prefixes(field: FilterField)
    ensures
        match part_word(field) {
            Some(word) => path_prefixes(field) == seq!["langsmith."@ + word, word],
            None => path_prefixes(field).len() == 0,
        },
{
    reveal_strlit("langsmith.");
    reveal_strlit("inputs");
    reveal_strlit("outputs");
    reveal_strlit("extra");
    reveal_strlit("langsmith.inputs");
    reveal_strlit("langsmith.outputs");
    reveal_strlit("langsmith.extra");
    assert("langsmith."@ + "inputs"@ =~= "langsmith.inputs"@);
    assert("langsmith."@ + "outputs"@ =~= "langsmith.outputs"@);
    assert("langsmith."@ + "extra"@ =~= "langsmith.extra"@);
    if part_word(field) is Some {
        assert(path_prefixes(field) =~= seq!["langsmith."@ + part_word(field)->0, part_word(
            field,
        )->0]);
    }
}

proof fn lemma_two(first: Search, second: Search, payload: Payload)
    ensures
        search_holds(Search::Or(seq![first, second]), payload) <==> search_holds(first, payload)
            || search_holds(second, payload),
{
    let both = seq![first, second];
    assert(both.drop_last() =~= seq![first]);
    assert(seq![first].drop_last() =~= Seq::empty());
    let one = seq![first];
    assert(some_search_holds(one.drop_last(), payload) == false);
    assert(some_search_holds(one, payload) == search_holds(first, payload)) by {
        assert(one.last() == first);
    }
    assert(both.last() == second);
    assert(some_search_holds(both, payload) == (some_search_holds(one, payload) || search_holds(
        second,
        payload,
    )));
}

proof fn lemma_payload_text(field: FilterField, query: Seq<char>, payload: Payload)
    requires
        is_of_payload(field),
    ensures
        search_holds(payload_text(field, query), payload) <==> text_in_field(
            field,
            query,
            payload,
        ),
{
    lemma_prefixes(field);
    match part_word(field) {
        Some(word) => {
            let first = Scope::PathPrefix("langsmith."@ + word);
            let second = Scope::PathPrefix(word);
            let a = Search::Text { field: first, query };
            let b = Search::Text { field: second, query };
            assert(payload_text(field, query)->Or_0 =~= seq![a, b]);
            lemma_two(a, b, payload);
            if text_in_field(field, query, payload) {
                let leaf = choose|leaf: Leaf| #[trigger]
                    payload.leaves.contains(leaf) && leads_into(field, leaf.path) && (
                    payload.finds)(leaf.value, query);
                assert(in_scope(first, leaf.path) || in_scope(second, leaf.path));
            }
        },
        None => {
            assert(payload_text(field, query) == Search::Text { field: Scope::All, query });
        },
    }
}

proof fn lemma_payload_value(field: FilterField, value: Seq<char>, payload: Payload)
    requires
        is_of_payload(field),
    ensures
        search_holds(payload_value(field, value), payload) <==> value_in_field(
            field,
            value,
            payload,
        ),
{
    lemma_prefixes(field);
    match part_word(field) {
        Some(word) => {
            let first = Scope::PathPrefix("langsmith."@ + word);
            let second = Scope::PathPrefix(word);
            let a = Search::ExactValue { field: first, value };
            let b = Search::ExactValue { field: second, value };
            assert(payload_value(field, value)->Or_0 =~= seq![a, b]);
            lemma_two(a, b, payload);
            if value_in_field(field, value, payload) {
                let leaf = choose|leaf: Leaf| #[trigger]
                    payload.leaves.contains(leaf) && leads_into(field, leaf.path) && leaf.value
                        == value;
                assert(in_scope(first, leaf.path) || in_scope(second, leaf.path));
            }
        },
        None => {
            assert(payload_value(field, value) == Search::ExactValue { field: Scope::All, value });
        },
    }
}

proof fn lemma_payload_path(field: FilterField, path: Seq<char>, payload: Payload)
    requires
        is_of_payload(field),
    ensures
        search_holds(payload_path(field, path), payload) <==> path_in_field(field, path, payload),
{
    lemma_prefixes(field);
    match part_word(field) {
        Some(word) => {
            let a = Search::JsonKey { pattern: further("langsmith."@ + word, path) };
            let b = Search::JsonKey { pattern: further(word, path) };
            assert(payload_path(field, path)->Or_0 =~= seq![a, b]);
            lemma_two(a, b, payload);
        },
        None => {},
    }
}

proof fn lemma_payload_path_text(
    field: FilterField,
    path: Seq<char>,
    query: Seq<char>,
    payload: Payload,
)
    requires
        is_of_payload(field),
    ensures
        search_holds(payload_path_text(field, path, query), payload) <==> text_at_path(
            field,
            path,
            query,
            payload,
        ),
{
    lemma_prefixes(field);
    match part_word(field) {
        Some(word) => {
            let first = Scope::ExactPath(further("langsmith."@ + word, path));
            let second = Scope::ExactPath(further(word, path));
            let a = Search::Text { field: first, query };
            let b = Search::Text { field: second, query };
            assert(payload_path_text(field, path, query)->Or_0 =~= seq![a, b]);
            lemma_two(a, b, payload);
            if text_at_path(field, path, query, payload) {
                let leaf = choose|leaf: Leaf| #[trigger]
                    payload.leaves.contains(leaf) && (payload.finds)(leaf.value, query) && (
                    leaf.path == further(word, path) || leaf.path == further(
                        "langsmith."@ + word,
                        path,
                    ));
                assert(in_scope(first, leaf.path) || in_scope(second, leaf.path));
            }
        },
        None => {
            let scope = Scope::ExactPath(path);
            if text_at_path(field, path, query, payload) {
                let leaf = choose|leaf: Leaf| #[trigger]
                    payload.leaves.contains(leaf) && (payload.finds)(leaf.value, query)
                        && leaf.path == path;
                assert(in_scope(scope, leaf.path));
            }
        },
    }
}

proof fn lemma_some_of(searches: Seq<Search>, payload: Payload)
    ensures
        some_search_holds(searches, payload) <==> exists|i: int|
            0 <= i < searches.len() && search_holds(#[trigger] searches[i], payload),
    decreases searches.len(),
{
    if searches.len() > 0 {
        let rest = searches.drop_last();
        lemma_some_of(rest, payload);
        if some_search_holds(rest, payload) {
            let i = choose|i: int| 0 <= i < rest.len() && search_holds(#[trigger] rest[i], payload);
            assert(search_holds(searches[i], payload));
        } else if search_holds(searches.last(), payload) {
            assert(search_holds(searches[searches.len() - 1], payload));
        } else {
            assert forall|i: int| 0 <= i < searches.len() implies !search_holds(
                #[trigger] searches[i],
                payload,
            ) by {
                if i < rest.len() {
                    assert(rest[i] == searches[i]);
                }
            }
        }
    }
}

proof fn lemma_any_of(searches: Seq<Search>, payload: Payload)
    requires
        searches.len() > 0,
    ensures
        search_holds(any_of(searches)->0, payload) <==> some_search_holds(searches, payload),
{
    if searches.len() == 1 {
        assert(searches.drop_last() =~= Seq::empty());
        reveal_with_fuel(some_search_holds, 2);
    }
}

proof fn lemma_all_of(searches: Seq<Search>, payload: Payload)
    requires
        searches.len() > 0,
    ensures
        search_holds(all_of(searches)->0, payload) <==> searches_hold(searches, payload),
{
    if searches.len() == 1 {
        assert(searches.drop_last() =~= Seq::empty());
        reveal_with_fuel(searches_hold, 2);
    }
}

proof fn lemma_atom(filter: Filter, payload: Payload)
    requires
        !(filter is And),
        !(filter is Or),
        atom_search(filter) is Ok,
    ensures
        atom_search(filter)->Ok_0 is Some <==> atom_speaks(filter),
        atom_search(filter)->Ok_0 matches Some(search) ==> (search_holds(search, payload) <==> asked(
            filter,
            payload,
        )),
{
    match filter {
        Filter::Search { field, query } => {
            match field {
                Some(f) => {
                    if is_of_payload(f) {
                        lemma_payload_text(f, query, payload);
                    }
                },
                None => {
                    lemma_payload_text(FilterField::AttributesJson, query, payload);
                },
            }
        },
        Filter::Contains { field, value, negated } => {
            if is_of_payload(field) {
                lemma_payload_text(field, value_text(value), payload);
                reveal_with_fuel(search_holds, 2);
            }
        },
        Filter::Compare { op, field, value } => {
            if is_of_payload(field) {
                lemma_payload_value(field, value_text(value), payload);
                reveal_with_fuel(search_holds, 2);
            }
        },
        Filter::In { field, values } => {
            if is_of_payload(field) {
                let searches = payload_values(field, values);
                lemma_any_of(searches, payload);
                lemma_some_of(searches, payload);
                assert forall|i: int| 0 <= i < values.len() implies (search_holds(
                    #[trigger] searches[i],
                    payload,
                ) <==> value_in_field(field, value_text(values[i]), payload)) by {
                    lemma_payload_value(field, value_text(values[i]), payload);
                }
                if asked(filter, payload) {
                    let i = choose|i: int|
                        0 <= i < values.len() && value_in_field(
                            field,
                            value_text(#[trigger] values[i]),
                            payload,
                        );
                    assert(search_holds(searches[i], payload));
                }
                if some_search_holds(searches, payload) {
                    let i = choose|i: int|
                        0 <= i < searches.len() && search_holds(#[trigger] searches[i], payload);
                    assert(value_in_field(field, value_text(values[i]), payload));
                }
            }
        },
        Filter::Has { field, value } => {
            if is_of_payload(field) {
                lemma_payload_path(field, value_text(value), payload);
            }
        },
        Filter::JsonKey { field, pattern } => {
            match field {
                Some(f) => {
                    if is_of_payload(f) {
                        lemma_payload_path(f, pattern, payload);
                    }
                },
                None => {},
            }
        },
        Filter::JsonKeySearch { field, path, query } => {
            match field {
                Some(f) => {
                    if is_of_payload(f) {
                        lemma_payload_path_text(f, path, query, payload);
                    }
                },
                None => {
                    lemma_payload_path_text(FilterField::AttributesJson, path, query, payload);
                },
            }
        },
        _ => {},
    }
}

proof fn lemma_every(filters: Seq<Filter>, payload: Payload)
    requires
        every_search(filters) is Ok,
    ensures
        every_search(filters)->Ok_0.len() == filters.len(),
        some_search_holds(every_search(filters)->Ok_0, payload) <==> some_asked(filters, payload),
    decreases filters,
{
    if filters.len() > 0 {
        lemma_every(filters.drop_last(), payload);
        law_search_asks_what_the_filter_asks(filters.last(), payload);
        let searches = every_search(filters)->Ok_0;
        assert(searches.drop_last() =~= every_search(filters.drop_last())->Ok_0);
    }
}

proof fn lemma_some(filters: Seq<Filter>, payload: Payload)
    requires
        some_searches(filters) is Ok,
    ensures
        some_searches(filters)->Ok_0.len() > 0 <==> some_speak(filters),
        searches_hold(some_searches(filters)->Ok_0, payload) <==> all_asked(filters, payload),
    decreases filters,
{
    if filters.len() > 0 {
        lemma_some(filters.drop_last(), payload);
        law_search_asks_what_the_filter_asks(filters.last(), payload);
        let before = some_searches(filters.drop_last())->Ok_0;
        let searches = some_searches(filters)->Ok_0;
        if search_of(filters.last())->Ok_0 is Some {
            assert(searches.drop_last() =~= before);
        }
    }
}

/// Where a filter comes to a search, the search is true of a payload exactly if what the
/// filter asks of it is; and it comes to none only where it does not speak of the payload.
pub proof fn law_search_asks_what_the_filter_asks(filter: Filter, payload: Payload)
    requires
        search_of(filter) is Ok,
    ensures
        search_of(filter)->Ok_0 is Some <==> speaks(filter),
        search_of(filter)->Ok_0 matches Some(search) ==> (search_holds(search, payload) <==> asked(
            filter,
            payload,
        )),
    decreases filter,
{
    match filter {
        Filter::And(filters) => {
            lemma_some(filters, payload);
            let searches = some_searches(filters)->Ok_0;
            if searches.len() > 0 {
                lemma_all_of(searches, payload);
            }
        },
        Filter::Or(filters) => {
            lemma_speaking(filters);
            if some_speak(filters) {
                lemma_every(filters, payload);
                lemma_any_of(every_search(filters)->Ok_0, payload);
            }
        },
        _ => {
            lemma_atom(filter, payload);
        },
    }
}

/// The filters that a search index answers are those that speak of the payload.
proof fn lemma_speaking(filters: Seq<Filter>)
    ensures
        any_search_atom(filters) == some_speak(filters),
    decreases filters,
{
    if filters.len() > 0 {
        lemma_speaking(filters.drop_last());
        lemma_speaks(filters.last());
    }
}

proof fn lemma_speaks(filter: Filter)
    ensures
        has_search_atom(filter) == speaks(filter),
    decreases filter,
{
    match filter {
        Filter::And(filters) => {
            lemma_speaking(filters);
        },
        Filter::Or(filters) => {
            lemma_speaking(filters);
        },
        _ => {},
    }
}

/// A path leads into no two of the inputs, the outputs and the extra of a run.
pub proof fn law_parts_of_the_payload_are_disjoint(a: FilterField, b: FilterField, path: Seq<char>)
    requires
        part_word(a) is Some,
        part_word(b) is Some,
        leads_into(a, path),
        leads_into(b, path),
    ensures
        a == b,
{
    reveal_strlit("langsmith.");
    reveal_strlit("inputs");
    reveal_strlit("outputs");
    reveal_strlit("extra");
    lemma_into(a, path);
    lemma_into(b, path);
}

proof fn lemma_into(field: FilterField, path: Seq<char>)
    requires
        part_word(field) is Some,
        leads_into(field, path),
    ensures
        path.len() > 0,
        path[0] == part_word(field)->0[0] || path[0] == 'l' && path.len() > 10 && path[10]
            == part_word(field)->0[0],
{
    reveal_strlit("langsmith.");
    reveal_strlit("inputs");
    reveal_strlit("outputs");
    reveal_strlit("extra");
    let word = part_word(field)->0;
    let long = "langsmith."@ + word;
    assert(word.len() > 0);
    assert(long[0] == 'l' && long[10] == word[0]);
    if starts_with(path, word.push('.')) {
        assert(path.take(word.push('.').len() as int)[0] == word.push('.')[0]);
    }
    if starts_with(path, long.push('.')) {
        assert(path.take(long.push('.').len() as int)[0] == long.push('.')[0]);
        assert(path.take(long.push('.').len() as int)[10] == long.push('.')[10]);
    }
}

/// A text that stands in one part of the payload alone is found by a search of that part
/// and by no search of another.
pub proof fn law_search_of_a_part_finds_that_part(
    field: FilterField,
    other: FilterField,
    query: Seq<char>,
    payload: Payload,
)
    requires
        part_word(field) is Some,
        part_word(other) is Some,
        field != other,
        exists|leaf: Leaf| #[trigger]
            payload.leaves.contains(leaf) && leads_into(field, leaf.path) && (payload.finds)(
                leaf.value,
                query,
            ),
        forall|leaf: Leaf| #[trigger]
            payload.leaves.contains(leaf) && (payload.finds)(leaf.value, query) ==> leads_into(
                field,
                leaf.path,
            ),
    ensures
        ({
            let here = search_of(Filter::Search { field: Some(field), query });
            let there = search_of(Filter::Search { field: Some(other), query });
            &&& here matches Ok(Some(search)) && search_holds(search, payload)
            &&& there matches Ok(Some(search)) && !search_holds(search, payload)
        }),
{
    let here = Filter::Search { field: Some(field), query };
    let there = Filter::Search { field: Some(other), query };
    law_search_asks_what_the_filter_asks(here, payload);
    law_search_asks_what_the_filter_asks(there, payload);
    if text_in_field(other, query, payload) {
        let leaf = choose|leaf: Leaf| #[trigger]
            payload.leaves.contains(leaf) && leads_into(other, leaf.path) && (payload.finds)(
                leaf.value,
                query,
            );
        law_parts_of_the_payload_are_disjoint(field, other, leaf.path);
    }
}

/// Whether a filter, or one in it, speaks of something else than the payload.
pub open spec fn speaks_otherwise(filter: Filter) -> bool
    decreases filter,
{
    match filter {
        Filter::And(filters) => some_speak_otherwise(filters),
        Filter::Or(filters) => some_speak_otherwise(filters),
        _ => !atom_speaks(filter),
    }
}

pub open spec fn some_speak_otherwise(filters: Seq<Filter>) -> bool
    decreases filters,
{
    filters.len() > 0 && (some_speak_otherwise(filters.drop_last()) || speaks_otherwise(
        filters.last(),
    ))
}

/// Whether a filter that is not made of others can be searched for, as far as it speaks of the
/// payload: a text is looked for in a part of the payload or in a column that is indexed, paths
/// are looked for in the payload alone, and a value is one of some, or it is not.
pub open spec fn atom_can_be_searched(filter: Filter) -> bool {
    match filter {
        Filter::Search { field, .. } => field matches Some(f) ==> is_of_payload(f) || f
            == FilterField::Name || f == FilterField::RunType || f == FilterField::Status,
        Filter::JsonKey { field, .. } => field matches Some(f) ==> is_of_payload(f),
        Filter::JsonKeySearch { field, .. } => field matches Some(f) ==> is_of_payload(f),
        Filter::Compare { op, field, .. } => is_of_payload(field) ==> op == CompareOp::Eq || op
            == CompareOp::Neq,
        Filter::In { field, values } => is_of_payload(field) ==> values.len() > 0,
        _ => true,
    }
}

/// Whether a filter can be searched for: all parts of a conjunction can be; and of a disjunction,
/// if any part speaks of the payload, all do, of nothing else, and can be.
pub open spec fn can_be_searched(filter: Filter) -> bool
    decreases filter, 0int,
{
    match filter {
        Filter::And(filters) => all_can_be_searched(filters),
        Filter::Or(filters) => some_speak(filters) ==> !some_speak_otherwise(filters)
            && all_can_be_searched(filters) && all_speak(filters),
        _ => atom_can_be_searched(filter),
    }
}

pub open spec fn all_can_be_searched(filters: Seq<Filter>) -> bool
    decreases filters, 1int,
{
    filters.len() > 0 ==> all_can_be_searched(filters.drop_last()) && can_be_searched(
        filters.last(),
    )
}

pub open spec fn all_speak(filters: Seq<Filter>) -> bool
    decreases filters.len(),
{
    filters.len() > 0 ==> all_speak(filters.drop_last()) && speaks(filters.last())
}

proof fn lemma_speaks_otherwise(filter: Filter)
    ensures
        speaks_otherwise(filter) == has_scalar_atom(filter),
    decreases filter, 0int,
{
    match filter {
        Filter::And(filters) => {
            lemma_some_speak_otherwise(filters);
        },
        Filter::Or(filters) => {
            lemma_some_speak_otherwise(filters);
        },
        _ => {},
    }
}

proof fn lemma_some_speak_otherwise(filters: Seq<Filter>)
    ensures
        some_speak_otherwise(filters) == any_scalar_atom(filters),
    decreases filters, 1int,
{
    if filters.len() > 0 {
        lemma_some_speak_otherwise(filters.drop_last());
        lemma_speaks_otherwise(filters.last());
    }
}

proof fn lemma_every_can_be_searched(filters: Seq<Filter>)
    ensures
        every_search(filters) is Ok <==> all_can_be_searched(filters) && all_speak(filters),
        some_searches(filters) is Ok <==> all_can_be_searched(filters),
    decreases filters, 1int,
{
    if filters.len() > 0 {
        lemma_every_can_be_searched(filters.drop_last());
        law_filters_that_can_be_searched(filters.last());
        if search_of(filters.last()) is Ok {
            law_search_asks_what_the_filter_asks(filters.last(), arbitrary());
        }
    }
}

/// A filter is searched for just if it can be.
pub proof fn law_filters_that_can_be_searched(filter: Filter)
    ensures
        search_of(filter) is Ok <==> can_be_searched(filter),
    decreases filter, 0int,
{
    match filter {
        Filter::And(filters) => {
            lemma_every_can_be_searched(filters);
        },
        Filter::Or(filters) => {
            lemma_every_can_be_searched(filters);
            lemma_some_speak_otherwise(filters);
            lemma_speaking(filters);
        },
        _ => {},
    }
}

proof fn lemma_scalar_parts(filters: Seq<Filter>)
    requires
        scalar_parts(filters) is Ok,
    ensures
        !some_speak(scalar_parts(filters)->Ok_0),
        scalar_parts(filters)->Ok_0.len() > 0 <==> exists|i: int|
            0 <= i < filters.len() && scalar_part(#[trigger] filters[i]) matches Ok(Some(_)),
        forall|i: int|
            0 <= i < filters.len() && !speaks(#[trigger] filters[i]) && !(filters[i] is And)
                ==> scalar_parts(filters)->Ok_0.contains(filters[i]),
    decreases filters, 1int,
{
    if filters.len() > 0 {
        let before = filters.drop_last();
        let last = filters.last();
        let rest = scalar_parts(before)->Ok_0;
        let all = scalar_parts(filters)->Ok_0;
        lemma_scalar_parts(before);
        law_scalar_part_does_not_speak(last);
        assert(filters[filters.len() - 1] == last);
        if scalar_part(last)->Ok_0 is Some {
            assert(all.drop_last() =~= rest);
            assert(all[rest.len() as int] == scalar_part(last)->Ok_0->0);
        }
        assert forall|i: int|
            0 <= i < filters.len() && !speaks(#[trigger] filters[i]) && !(
            filters[i] is And) implies all.contains(filters[i]) by {
            if i < before.len() {
                assert(before[i] == filters[i]);
                let k = choose|k: int| 0 <= k < rest.len() && rest[k] == filters[i];
                assert(all[k] == filters[i]);
            } else {
                lemma_speaks(last);
                law_scalar_filters_are_their_prefilters(last);
            }
        }
        if exists|i: int|
            0 <= i < before.len() && scalar_part(#[trigger] before[i]) matches Ok(Some(_)) {
            let i = choose|i: int|
                0 <= i < before.len() && scalar_part(#[trigger] before[i]) matches Ok(Some(_));
            assert(filters[i] == before[i]);
        }
        if exists|i: int|
            0 <= i < filters.len() && scalar_part(#[trigger] filters[i]) matches Ok(Some(_)) {
            let i = choose|i: int|
                0 <= i < filters.len() && scalar_part(#[trigger] filters[i]) matches Ok(Some(_));
            if i < before.len() {
                assert(before[i] == filters[i]);
            }
        }
    }
}

/// What is asked of the heads of runs before the payload is looked at says nothing of the
/// payload; and of a conjunction it keeps each part that says nothing of it.
pub proof fn law_scalar_part_does_not_speak(filter: Filter)
    requires
        scalar_part(filter) is Ok,
    ensures
        scalar_part(filter)->Ok_0 matches Some(part) ==> !speaks(part),
        !speaks(filter) && !(filter is And) ==> scalar_part(filter)->Ok_0 == Some(filter),
        atom_speaks(filter) ==> scalar_part(filter)->Ok_0 is None,
    decreases filter, 0int,
{
    match filter {
        Filter::And(filters) => {
            lemma_scalar_parts(filters);
            let parts = scalar_parts(filters)->Ok_0;
            if parts.len() == 1 {
                assert(parts.last() == parts[0]);
            }
        },
        Filter::Or(filters) => {
            lemma_speaking(filters);
        },
        _ => {},
    }
}

} // verus!
