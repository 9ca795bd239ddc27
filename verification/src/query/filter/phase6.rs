//! The part of a filter that the search indexes answer, and the part that run
//! heads answer before them.

use crate::query::filter::compile::compile_expr;
use crate::query::filter::compile::predicate_of;
use crate::query::filter::copy_expr;
use crate::query::filter::filters_of;
use crate::query::filter::lemma_children_view;
use crate::query::filter::value_text;
use crate::query::filter::values_of;
use crate::query::filter::CompareOp;
use crate::query::filter::CompiledFilter;
use crate::query::filter::Fault;
use crate::query::filter::Filter;
use crate::query::filter::FilterError;
use crate::query::filter::FilterExpr;
use crate::query::filter::FilterField;
use crate::query::filter::FilterValue;
use crate::query::filter::Operand;
use crate::search::lemma_not_view;
use crate::search::lemma_searches_view;
use crate::search::searches_of;
use crate::search::Scope;
use crate::search::Search;
use crate::search::SearchField;
use crate::search::SearchPredicate;
use crate::search::SearchQuery;
use crate::text::texts;
use vstd::prelude::*;
use vstd::string::StringExecFns;

verus! {

/// Whether a field is part of the payload of a run.
pub open spec fn is_payload_field(field: FilterField) -> bool {
    field == FilterField::Inputs || field == FilterField::Outputs || field == FilterField::Extra
        || field == FilterField::AttributesJson
}

/// How a field is named where only the fields of the payload have a name.
pub open spec fn payload_name(field: FilterField) -> Seq<char> {
    match field {
        FilterField::Inputs => "inputs"@,
        FilterField::Outputs => "outputs"@,
        FilterField::Extra => "extra"@,
        FilterField::AttributesJson => "attributes_json"@,
        _ => "filter"@,
    }
}

/// Whether a filter that is no `and` or `or` is answered by a search index.
pub open spec fn is_search_atom(filter: Filter) -> bool {
    match filter {
        Filter::Search { .. } | Filter::JsonKey { .. } | Filter::JsonKeySearch { .. } => true,
        Filter::Compare { field, .. } => is_payload_field(field),
        Filter::Has { field, .. } => is_payload_field(field),
        Filter::In { field, .. } => is_payload_field(field),
        Filter::Contains { field, .. } => is_payload_field(field),
        Filter::And(_) | Filter::Or(_) => false,
    }
}

/// Whether some part of a filter is answered by a search index.
pub open spec fn has_search_atom(filter: Filter) -> bool
    decreases filter,
{
    match filter {
        Filter::And(children) => any_search_atom(children),
        Filter::Or(children) => any_search_atom(children),
        _ => is_search_atom(filter),
    }
}

pub open spec fn any_search_atom(filters: Seq<Filter>) -> bool
    decreases filters,
{
    filters.len() > 0 && (any_search_atom(filters.drop_last()) || has_search_atom(filters.last()))
}

/// Whether some part of a filter is answered by run heads.
pub open spec fn has_scalar_atom(filter: Filter) -> bool
    decreases filter,
{
    match filter {
        Filter::And(children) => any_scalar_atom(children),
        Filter::Or(children) => any_scalar_atom(children),
        _ => !is_search_atom(filter),
    }
}

pub open spec fn any_scalar_atom(filters: Seq<Filter>) -> bool
    decreases filters,
{
    filters.len() > 0 && (any_scalar_atom(filters.drop_last()) || has_scalar_atom(filters.last()))
}

/// The prefixes of the paths at which a field of the payload stands; none is the
/// whole.
pub open spec fn path_prefixes(field: FilterField) -> Seq<Seq<char>> {
    match field {
        FilterField::Inputs => seq!["langsmith.inputs"@, "inputs"@],
        FilterField::Outputs => seq!["langsmith.outputs"@, "outputs"@],
        FilterField::Extra => seq!["langsmith.extra"@, "extra"@],
        _ => Seq::empty(),
    }
}

pub open spec fn joined_path(prefix: Seq<char>, suffix: Seq<char>) -> Seq<char> {
    if suffix.len() == 0 {
        prefix
    } else {
        prefix + "."@ + suffix
    }
}

/// A text in a field of the payload, wherever the field stands.
pub open spec fn payload_text(field: FilterField, query: Seq<char>) -> Search {
    if field == FilterField::AttributesJson {
        Search::Text { field: Scope::All, query }
    } else {
        Search::Or(
            path_prefixes(field).map_values(
                |prefix: Seq<char>| Search::Text { field: Scope::PathPrefix(prefix), query },
            ),
        )
    }
}

/// A value in a field of the payload, wherever the field stands.
pub open spec fn payload_value(field: FilterField, value: Seq<char>) -> Search {
    if field == FilterField::AttributesJson {
        Search::ExactValue { field: Scope::All, value }
    } else {
        Search::Or(
            path_prefixes(field).map_values(
                |prefix: Seq<char>| Search::ExactValue { field: Scope::PathPrefix(prefix), value },
            ),
        )
    }
}

/// A text at a path below a field of the payload, wherever the field stands.
pub open spec fn payload_path_text(
    field: FilterField,
    path: Seq<char>,
    query: Seq<char>,
) -> Search {
    if path_prefixes(field).len() == 0 {
        Search::Text { field: Scope::ExactPath(path), query }
    } else {
        Search::Or(
            path_prefixes(field).map_values(
                |prefix: Seq<char>|
                    Search::Text { field: Scope::ExactPath(joined_path(prefix, path)), query },
            ),
        )
    }
}

/// A path below a field of the payload, wherever the field stands.
pub open spec fn payload_path(field: FilterField, path: Seq<char>) -> Search {
    if path_prefixes(field).len() == 0 {
        Search::JsonKey { pattern: path }
    } else {
        Search::Or(
            path_prefixes(field).map_values(
                |prefix: Seq<char>| Search::JsonKey { pattern: joined_path(prefix, path) },
            ),
        )
    }
}

/// The path at which a column of run heads is found in the search index.
pub open spec fn indexed_path(field: FilterField) -> Option<Seq<char>> {
    match field {
        FilterField::Name => Some("name"@),
        FilterField::RunType => Some("run_type"@),
        FilterField::Status => Some("status"@),
        _ => None,
    }
}

pub open spec fn not_searchable(field: FilterField) -> Fault {
    Fault::Unsupported(
        "field "@ + payload_name(field) + " is not available in the Phase 6 search index"@,
    )
}

/// A text in a field.
pub open spec fn field_text(field: FilterField, query: Seq<char>) -> Result<Search, Fault> {
    if is_payload_field(field) {
        Ok(payload_text(field, query))
    } else {
        match indexed_path(field) {
            Some(path) => Ok(Search::Text { field: Scope::ExactPath(path), query }),
            None => Err(not_searchable(field)),
        }
    }
}

pub open spec fn all_of(predicates: Seq<Search>) -> Option<Search> {
    if predicates.len() == 0 {
        None
    } else if predicates.len() == 1 {
        Some(predicates[0])
    } else {
        Some(Search::And(predicates))
    }
}

pub open spec fn any_of(predicates: Seq<Search>) -> Option<Search> {
    if predicates.len() == 0 {
        None
    } else if predicates.len() == 1 {
        Some(predicates[0])
    } else {
        Some(Search::Or(predicates))
    }
}

pub open spec fn payload_values(field: FilterField, values: Seq<Operand>) -> Seq<Search> {
    values.map_values(|value: Operand| payload_value(field, value_text(value)))
}

/// What a filter that is no `and` or `or` asks of a search index.
pub open spec fn atom_search(filter: Filter) -> Result<Option<Search>, Fault> {
    match filter {
        Filter::Search { field, query } => match field {
            Some(f) => match field_text(f, query) {
                Ok(search) => Ok(Some(search)),
                Err(fault) => Err(fault),
            },
            None => Ok(Some(Search::Text { field: Scope::All, query })),
        },
        Filter::JsonKey { field, pattern } => match field {
            Some(f) => if is_payload_field(f) {
                Ok(Some(payload_path(f, pattern)))
            } else {
                Err(not_searchable(f))
            },
            None => Ok(Some(Search::JsonKey { pattern })),
        },
        Filter::JsonKeySearch { field, path, query } => match field {
            Some(f) => if is_payload_field(f) {
                Ok(Some(payload_path_text(f, path, query)))
            } else {
                Err(not_searchable(f))
            },
            None => Ok(Some(Search::Text { field: Scope::ExactPath(path), query })),
        },
        Filter::Compare { op, field, value } => if is_payload_field(field) {
            let search = payload_value(field, value_text(value));
            match op {
                CompareOp::Eq => Ok(Some(search)),
                CompareOp::Neq => Ok(Some(Search::Not(Box::new(search)))),
                _ => Err(
                    Fault::Unsupported("payload JSON comparisons only support eq and neq"@),
                ),
            }
        } else {
            Ok(None)
        },
        Filter::Has { field, value } => if is_payload_field(field) {
            Ok(Some(payload_path(field, value_text(value))))
        } else {
            Ok(None)
        },
        Filter::In { field, values } => if is_payload_field(field) {
            if values.len() == 0 {
                Err(Fault::Parse("in() requires a non-empty list"@))
            } else {
                Ok(any_of(payload_values(field, values)))
            }
        } else {
            Ok(None)
        },
        Filter::Contains { field, value, negated } => if is_payload_field(field) {
            let search = payload_text(field, value_text(value));
            Ok(
                Some(
                    if negated {
                        Search::Not(Box::new(search))
                    } else {
                        search
                    },
                ),
            )
        } else {
            Ok(None)
        },
        _ => Ok(None),
    }
}

pub open spec fn mixed_or() -> Fault {
    Fault::Unsupported(
        "Phase 6 search predicates can only be ORed with other search predicates"@,
    )
}

/// What each of the filters of a conjunction asks of a search index, those that
/// ask nothing left out.
pub open spec fn some_searches(filters: Seq<Filter>) -> Result<Seq<Search>, Fault>
    decreases filters,
{
    if filters.len() == 0 {
        Ok(Seq::empty())
    } else {
        match some_searches(filters.drop_last()) {
            Ok(done) => match search_of(filters.last()) {
                Ok(Some(search)) => Ok(done.push(search)),
                Ok(None) => Ok(done),
                Err(fault) => Err(fault),
            },
            Err(fault) => Err(fault),
        }
    }
}

/// What each of the filters of a disjunction asks of a search index.
pub open spec fn every_search(filters: Seq<Filter>) -> Result<Seq<Search>, Fault>
    decreases filters,
{
    if filters.len() == 0 {
        Ok(Seq::empty())
    } else {
        match every_search(filters.drop_last()) {
            Ok(done) => match search_of(filters.last()) {
                Ok(Some(search)) => Ok(done.push(search)),
                Ok(None) => Err(
                    Fault::Unsupported("or() search branch did not contain a search predicate"@),
                ),
                Err(fault) => Err(fault),
            },
            Err(fault) => Err(fault),
        }
    }
}

/// What a filter asks of a search index.
pub open spec fn search_of(filter: Filter) -> Result<Option<Search>, Fault>
    decreases filter,
{
    match filter {
        Filter::And(children) => match some_searches(children) {
            Ok(searches) => Ok(all_of(searches)),
            Err(fault) => Err(fault),
        },
        Filter::Or(children) => if any_search_atom(children) {
            if any_scalar_atom(children) {
                Err(mixed_or())
            } else {
                match every_search(children) {
                    Ok(searches) => Ok(any_of(searches)),
                    Err(fault) => Err(fault),
                }
            }
        } else {
            Ok(None)
        },
        _ => atom_search(filter),
    }
}

/// The parts of the filters that run heads answer, those that have none left out.
pub open spec fn scalar_parts(filters: Seq<Filter>) -> Result<Seq<Filter>, Fault>
    decreases filters,
{
    if filters.len() == 0 {
        Ok(Seq::empty())
    } else {
        match scalar_parts(filters.drop_last()) {
            Ok(done) => match scalar_part(filters.last()) {
                Ok(Some(part)) => Ok(done.push(part)),
                Ok(None) => Ok(done),
                Err(fault) => Err(fault),
            },
            Err(fault) => Err(fault),
        }
    }
}

/// The part of a filter that run heads answer.
pub open spec fn scalar_part(filter: Filter) -> Result<Option<Filter>, Fault>
    decreases filter,
{
    match filter {
        Filter::And(children) => match scalar_parts(children) {
            Ok(parts) => Ok(
                if parts.len() == 0 {
                    None
                } else if parts.len() == 1 {
                    Some(parts[0])
                } else {
                    Some(Filter::And(parts))
                },
            ),
            Err(fault) => Err(fault),
        },
        Filter::Or(children) => if any_search_atom(children) {
            if any_scalar_atom(children) {
                Err(mixed_or())
            } else {
                Ok(None)
            }
        } else {
            Ok(Some(filter))
        },
        _ => if is_search_atom(filter) {
            Ok(None)
        } else {
            Ok(Some(filter))
        },
    }
}

/// The SQL predicate over run heads of the part of a filter that they answer.
pub open spec fn prefilter_of(
    filter: Filter,
    alias: Seq<char>,
    projects: Seq<Seq<char>>,
) -> Result<Option<Seq<char>>, Fault> {
    match scalar_part(filter) {
        Ok(Some(part)) => match predicate_of(part, alias, Some(projects)) {
            Ok(predicate) => Ok(Some(predicate)),
            Err(fault) => Err(fault),
        },
        Ok(None) => Ok(None),
        Err(fault) => Err(fault),
    }
}

/// A filter without any part that a search index answers is its own prefilter,
/// and asks nothing of a search index.
pub proof fn law_scalar_filters_are_their_prefilters(filter: Filter)
    requires
        !has_search_atom(filter),
        !(filter is And),
    ensures
        scalar_part(filter) == Ok::<_, Fault>(Some(filter)),
        search_of(filter) == Ok::<Option<Search>, Fault>(None),
{
}

impl FilterField {
    pub fn is_payload(self) -> (r: bool)
        ensures
            r == is_payload_field(self),
    {
        match self {
            FilterField::Inputs
            | FilterField::Outputs
            | FilterField::Extra
            | FilterField::AttributesJson => true,
            _ => false,
        }
    }

    pub fn name(self) -> (r: &'static str)
        ensures
            r@ == payload_name(self),
    {
        match self {
            FilterField::Inputs => "inputs",
            FilterField::Outputs => "outputs",
            FilterField::Extra => "extra",
            FilterField::AttributesJson => "attributes_json",
            _ => "filter",
        }
    }
}

fn is_phase6_atom(expr: &FilterExpr) -> (r: bool)
    ensures
        r == is_search_atom(expr@),
{
    match expr {
        FilterExpr::Search { .. }
        | FilterExpr::JsonKey { .. }
        | FilterExpr::JsonKeySearch { .. } => true,
        FilterExpr::Compare { field, .. } => field.is_payload(),
        FilterExpr::Has { field, .. } => field.is_payload(),
        FilterExpr::In { field, .. } => field.is_payload(),
        FilterExpr::Contains { field, .. } => field.is_payload(),
        FilterExpr::And(_) | FilterExpr::Or(_) => false,
    }
}

fn contains_phase6_atom(expr: &FilterExpr) -> (r: bool)
    ensures
        r == has_search_atom(expr@),
    decreases expr,
{
    match expr {
        FilterExpr::And(children) => {
            proof {
                lemma_children_view(*children);
            }
            any_phase6_atom(children)
        },
        FilterExpr::Or(children) => {
            proof {
                lemma_children_view(*children);
            }
            any_phase6_atom(children)
        },
        _ => is_phase6_atom(expr),
    }
}

fn any_phase6_atom(children: &Vec<FilterExpr>) -> (r: bool)
    ensures
        r == any_search_atom(filters_of(children@)),
    decreases children,
{
    let ghost filters = filters_of(children@);
    let mut found = false;
    let mut i: usize = 0;
    assert(filters.take(0) =~= Seq::<Filter>::empty());
    while i < children.len()
        invariant
            i <= children.len(),
            filters == filters_of(children@),
            found == any_search_atom(filters.take(i as int)),
        decreases children.len() - i,
    {
        let ghost now = filters.take(i + 1);
        assert(now.drop_last() =~= filters.take(i as int));
        assert(now.last() == children@[i as int]@);
        let this = contains_phase6_atom(&children[i]);
        found = found || this;
        i += 1;
    }
    assert(filters.take(i as int) =~= filters);
    found
}

fn contains_scalar_atom(expr: &FilterExpr) -> (r: bool)
    ensures
        r == has_scalar_atom(expr@),
    decreases expr,
{
    match expr {
        FilterExpr::And(children) => {
            proof {
                lemma_children_view(*children);
            }
            any_scalar_child(children)
        },
        FilterExpr::Or(children) => {
            proof {
                lemma_children_view(*children);
            }
            any_scalar_child(children)
        },
        _ => !is_phase6_atom(expr),
    }
}

fn any_scalar_child(children: &Vec<FilterExpr>) -> (r: bool)
    ensures
        r == any_scalar_atom(filters_of(children@)),
    decreases children,
{
    let ghost filters = filters_of(children@);
    let mut found = false;
    let mut i: usize = 0;
    assert(filters.take(0) =~= Seq::<Filter>::empty());
    while i < children.len()
        invariant
            i <= children.len(),
            filters == filters_of(children@),
            found == any_scalar_atom(filters.take(i as int)),
        decreases children.len() - i,
    {
        let ghost now = filters.take(i + 1);
        assert(now.drop_last() =~= filters.take(i as int));
        assert(now.last() == children@[i as int]@);
        let this = contains_scalar_atom(&children[i]);
        found = found || this;
        i += 1;
    }
    assert(filters.take(i as int) =~= filters);
    found
}

fn payload_path_prefixes(field: FilterField) -> (r: Vec<String>)
    ensures
        texts(r@) == path_prefixes(field),
{
    let mut out: Vec<String> = Vec::new();
    match field {
        FilterField::Inputs => {
            out.push("langsmith.inputs".to_owned());
            out.push("inputs".to_owned());
        },
        FilterField::Outputs => {
            out.push("langsmith.outputs".to_owned());
            out.push("outputs".to_owned());
        },
        FilterField::Extra => {
            out.push("langsmith.extra".to_owned());
            out.push("extra".to_owned());
        },
        _ => {},
    }
    assert(texts(out@) =~= path_prefixes(field));
    out
}

fn join_path_pattern(prefix: &str, suffix: &str) -> (r: String)
    ensures
        r@ == joined_path(prefix@, suffix@),
{
    if suffix.is_empty() {
        prefix.to_owned()
    } else {
        let mut out = prefix.to_owned();
        out.append(".");
        out.append(suffix);
        out
    }
}

fn payload_text_predicate(field: FilterField, query: &str) -> (r: SearchPredicate)
    ensures
        r@ == payload_text(field, query@),
{
    if field == FilterField::AttributesJson {
        return SearchPredicate::Text { field: SearchField::All, query: SearchQuery::parse(query) };
    }
    let prefixes = payload_path_prefixes(field);
    let mut out: Vec<SearchPredicate> = Vec::new();
    let mut i: usize = 0;
    let ghost wanted = payload_text(field, query@)->Or_0;
    while i < prefixes.len()
        invariant
            i <= prefixes.len(),
            texts(prefixes@) == path_prefixes(field),
            field != FilterField::AttributesJson,
            wanted == payload_text(field, query@)->Or_0,
            searches_of(out@) == wanted.take(i as int),
        decreases prefixes.len() - i,
    {
        let ghost before = out@;
        assert(texts(prefixes@)[i as int] == prefixes@[i as int]@);
        let predicate = SearchPredicate::Text {
            field: SearchField::PathPrefix(prefixes[i].clone()),
            query: SearchQuery::parse(query),
        };
        let ghost search = predicate@;
        out.push(predicate);
        i += 1;
        assert(searches_of(out@) =~= searches_of(before).push(search));
        assert(wanted.take(i as int) =~= wanted.take(i - 1).push(wanted[i - 1]));
    }
    assert(texts(prefixes@).len() == prefixes@.len());
    assert(wanted.take(i as int) =~= wanted);
    proof {
        lemma_searches_view(out);
    }
    SearchPredicate::Or(out)
}

fn payload_exact_value_predicate(field: FilterField, value: &str) -> (r: SearchPredicate)
    ensures
        r@ == payload_value(field, value@),
{
    if field == FilterField::AttributesJson {
        return SearchPredicate::ExactValue { field: SearchField::All, value: value.to_owned() };
    }
    let prefixes = payload_path_prefixes(field);
    let mut out: Vec<SearchPredicate> = Vec::new();
    let mut i: usize = 0;
    let ghost wanted = payload_value(field, value@)->Or_0;
    while i < prefixes.len()
        invariant
            i <= prefixes.len(),
            texts(prefixes@) == path_prefixes(field),
            field != FilterField::AttributesJson,
            wanted == payload_value(field, value@)->Or_0,
            searches_of(out@) == wanted.take(i as int),
        decreases prefixes.len() - i,
    {
        let ghost before = out@;
        assert(texts(prefixes@)[i as int] == prefixes@[i as int]@);
        let predicate = SearchPredicate::ExactValue {
            field: SearchField::PathPrefix(prefixes[i].clone()),
            value: value.to_owned(),
        };
        let ghost search = predicate@;
        out.push(predicate);
        i += 1;
        assert(searches_of(out@) =~= searches_of(before).push(search));
        assert(wanted.take(i as int) =~= wanted.take(i - 1).push(wanted[i - 1]));
    }
    assert(texts(prefixes@).len() == prefixes@.len());
    assert(wanted.take(i as int) =~= wanted);
    proof {
        lemma_searches_view(out);
    }
    SearchPredicate::Or(out)
}

fn payload_exact_path_text_predicate(field: FilterField, path: &str, query: &str) -> (r:
    SearchPredicate)
    ensures
        r@ == payload_path_text(field, path@, query@),
{
    let prefixes = payload_path_prefixes(field);
    assert(texts(prefixes@).len() == prefixes@.len());
    if prefixes.len() == 0 {
        return SearchPredicate::Text {
            field: SearchField::ExactPath(path.to_owned()),
            query: SearchQuery::parse(query),
        };
    }
    let mut out: Vec<SearchPredicate> = Vec::new();
    let mut i: usize = 0;
    let ghost wanted = payload_path_text(field, path@, query@)->Or_0;
    while i < prefixes.len()
        invariant
            i <= prefixes.len(),
            texts(prefixes@) == path_prefixes(field),
            path_prefixes(field).len() > 0,
            wanted == payload_path_text(field, path@, query@)->Or_0,
            searches_of(out@) == wanted.take(i as int),
        decreases prefixes.len() - i,
    {
        let ghost before = out@;
        assert(texts(prefixes@)[i as int] == prefixes@[i as int]@);
        let predicate = SearchPredicate::Text {
            field: SearchField::ExactPath(join_path_pattern(prefixes[i].as_str(), path)),
            query: SearchQuery::parse(query),
        };
        let ghost search = predicate@;
        out.push(predicate);
        i += 1;
        assert(searches_of(out@) =~= searches_of(before).push(search));
        assert(wanted.take(i as int) =~= wanted.take(i - 1).push(wanted[i - 1]));
    }
    assert(wanted.take(i as int) =~= wanted);
    proof {
        lemma_searches_view(out);
    }
    SearchPredicate::Or(out)
}

fn payload_path_predicate(field: FilterField, path: &str) -> (r: SearchPredicate)
    ensures
        r@ == payload_path(field, path@),
{
    let prefixes = payload_path_prefixes(field);
    assert(texts(prefixes@).len() == prefixes@.len());
    if prefixes.len() == 0 {
        return SearchPredicate::JsonKey { pattern: path.to_owned() };
    }
    let mut out: Vec<SearchPredicate> = Vec::new();
    let mut i: usize = 0;
    let ghost wanted = payload_path(field, path@)->Or_0;
    while i < prefixes.len()
        invariant
            i <= prefixes.len(),
            texts(prefixes@) == path_prefixes(field),
            path_prefixes(field).len() > 0,
            wanted == payload_path(field, path@)->Or_0,
            searches_of(out@) == wanted.take(i as int),
        decreases prefixes.len() - i,
    {
        let ghost before = out@;
        assert(texts(prefixes@)[i as int] == prefixes@[i as int]@);
        let predicate = SearchPredicate::JsonKey {
            pattern: join_path_pattern(prefixes[i].as_str(), path),
        };
        let ghost search = predicate@;
        out.push(predicate);
        i += 1;
        assert(searches_of(out@) =~= searches_of(before).push(search));
        assert(wanted.take(i as int) =~= wanted.take(i - 1).push(wanted[i - 1]));
    }
    assert(wanted.take(i as int) =~= wanted);
    proof {
        lemma_searches_view(out);
    }
    SearchPredicate::Or(out)
}

fn indexed_text_path(field: FilterField) -> (r: Option<&'static str>)
    ensures
        match r {
            Some(path) => indexed_path(field) == Some(path@),
            None => indexed_path(field) is None,
        },
{
    match field {
        FilterField::Name => Some("name"),
        FilterField::RunType => Some("run_type"),
        FilterField::Status => Some("status"),
        _ => None,
    }
}

fn unsupported_search_field(field: FilterField) -> (r: FilterError)
    ensures
        r@ == not_searchable(field),
{
    let mut message = "field ".to_owned();
    message.append(field.name());
    message.append(" is not available in the Phase 6 search index");
    FilterError::Unsupported(message)
}

fn field_text_predicate(field: FilterField, query: &str) -> (r: Result<
    SearchPredicate,
    FilterError,
>)
    ensures
        match r {
            Ok(predicate) => field_text(field, query@) == Ok::<_, Fault>(predicate@),
            Err(error) => field_text(field, query@) == Err::<Search, _>(error@),
        },
{
    if field.is_payload() {
        return Ok(payload_text_predicate(field, query));
    }
    match indexed_text_path(field) {
        Some(path) => Ok(
            SearchPredicate::Text {
                field: SearchField::ExactPath(path.to_owned()),
                query: SearchQuery::parse(query),
            },
        ),
        None => Err(unsupported_search_field(field)),
    }
}

fn combine_and(predicates: Vec<SearchPredicate>) -> (r: Option<SearchPredicate>)
    ensures
        opt_search(r) == all_of(searches_of(predicates@)),
{
    let mut predicates = predicates;
    proof {
        lemma_searches_view(predicates);
    }
    assert(searches_of(predicates@).len() == predicates@.len());
    if predicates.len() == 0 {
        None
    } else if predicates.len() == 1 {
        predicates.pop()
    } else {
        Some(SearchPredicate::And(predicates))
    }
}

fn combine_or(predicates: Vec<SearchPredicate>) -> (r: Option<SearchPredicate>)
    ensures
        opt_search(r) == any_of(searches_of(predicates@)),
{
    let mut predicates = predicates;
    proof {
        lemma_searches_view(predicates);
    }
    assert(searches_of(predicates@).len() == predicates@.len());
    if predicates.len() == 0 {
        None
    } else if predicates.len() == 1 {
        predicates.pop()
    } else {
        Some(SearchPredicate::Or(predicates))
    }
}

/// What an optional predicate holds.
pub open spec fn opt_search(predicate: Option<SearchPredicate>) -> Option<Search> {
    match predicate {
        Some(p) => Some(p@),
        None => None,
    }
}

/// Whether a result says what `wanted` does.
pub open spec fn says(
    r: Result<Option<SearchPredicate>, FilterError>,
    wanted: Result<Option<Search>, Fault>,
) -> bool {
    match r {
        Ok(predicate) => wanted == Ok::<_, Fault>(opt_search(predicate)),
        Err(error) => wanted == Err::<Option<Search>, _>(error@),
    }
}

fn value_predicates(field: FilterField, values: &Vec<FilterValue>) -> (r: Vec<SearchPredicate>)
    ensures
        searches_of(r@) == payload_values(field, values_of(values@)),
{
    let mut out: Vec<SearchPredicate> = Vec::new();
    let mut i: usize = 0;
    let ghost wanted = payload_values(field, values_of(values@));
    while i < values.len()
        invariant
            i <= values.len(),
            wanted == payload_values(field, values_of(values@)),
            searches_of(out@) == wanted.take(i as int),
        decreases values.len() - i,
    {
        let ghost before = out@;
        assert(values_of(values@)[i as int] == values@[i as int]@);
        let predicate = payload_exact_value_predicate(field, values[i].as_string().as_str());
        let ghost search = predicate@;
        out.push(predicate);
        i += 1;
        assert(searches_of(out@) =~= searches_of(before).push(search));
        assert(wanted.take(i as int) =~= wanted.take(i - 1).push(wanted[i - 1]));
    }
    assert(wanted.take(i as int) =~= wanted);
    out
}

/// What a filter that is no `and` or `or` asks of a search index.
pub fn phase6_atom_predicate(expr: &FilterExpr) -> (r: Result<
    Option<SearchPredicate>,
    FilterError,
>)
    ensures
        says(r, atom_search(expr@)),
{
    match expr {
        FilterExpr::Search { field, query } => match field {
            Some(f) => match field_text_predicate(*f, query.as_str()) {
                Ok(predicate) => Ok(Some(predicate)),
                Err(error) => Err(error),
            },
            None => Ok(
                Some(
                    SearchPredicate::Text {
                        field: SearchField::All,
                        query: SearchQuery::parse(query.as_str()),
                    },
                ),
            ),
        },
        FilterExpr::JsonKey { field, pattern } => match field {
            Some(f) => if f.is_payload() {
                Ok(Some(payload_path_predicate(*f, pattern.as_str())))
            } else {
                Err(unsupported_search_field(*f))
            },
            None => Ok(Some(SearchPredicate::JsonKey { pattern: pattern.clone() })),
        },
        FilterExpr::JsonKeySearch { field, path, query } => match field {
            Some(f) => if f.is_payload() {
                Ok(Some(payload_exact_path_text_predicate(*f, path.as_str(), query.as_str())))
            } else {
                Err(unsupported_search_field(*f))
            },
            None => Ok(
                Some(
                    SearchPredicate::Text {
                        field: SearchField::ExactPath(path.clone()),
                        query: SearchQuery::parse(query.as_str()),
                    },
                ),
            ),
        },
        FilterExpr::Compare { op, field, value } => {
            if !field.is_payload() {
                return Ok(None);
            }
            let predicate = payload_exact_value_predicate(*field, value.as_string().as_str());
            match op {
                CompareOp::Eq => Ok(Some(predicate)),
                CompareOp::Neq => {
                    proof {
                        lemma_not_view(predicate);
                    }
                    Ok(Some(SearchPredicate::Not(Box::new(predicate))))
                },
                _ => Err(
                    FilterError::Unsupported(
                        "payload JSON comparisons only support eq and neq".to_owned(),
                    ),
                ),
            }
        },
        FilterExpr::Has { field, value } => {
            if !field.is_payload() {
                return Ok(None);
            }
            Ok(Some(payload_path_predicate(*field, value.as_string().as_str())))
        },
        FilterExpr::In { field, values } => {
            if !field.is_payload() {
                return Ok(None);
            }
            assert(values_of(values@).len() == values@.len());
            if values.len() == 0 {
                return Err(FilterError::Parse("in() requires a non-empty list".to_owned()));
            }
            Ok(combine_or(value_predicates(*field, values)))
        },
        FilterExpr::Contains { field, value, negated } => {
            if !field.is_payload() {
                return Ok(None);
            }
            let predicate = payload_text_predicate(*field, value.as_string().as_str());
            if *negated {
                proof {
                    lemma_not_view(predicate);
                }
                Ok(Some(SearchPredicate::Not(Box::new(predicate))))
            } else {
                Ok(Some(predicate))
            }
        },
        _ => Ok(None),
    }
}

proof fn lemma_some_searches_fault(filters: Seq<Filter>, upto: int)
    requires
        0 <= upto <= filters.len(),
        some_searches(filters.take(upto)) is Err,
    ensures
        some_searches(filters) == some_searches(filters.take(upto)),
    decreases filters.len(),
{
    if upto == filters.len() {
        assert(filters.take(upto) =~= filters);
    } else {
        assert(filters.drop_last().take(upto) =~= filters.take(upto));
        lemma_some_searches_fault(filters.drop_last(), upto);
    }
}

proof fn lemma_every_search_fault(filters: Seq<Filter>, upto: int)
    requires
        0 <= upto <= filters.len(),
        every_search(filters.take(upto)) is Err,
    ensures
        every_search(filters) == every_search(filters.take(upto)),
    decreases filters.len(),
{
    if upto == filters.len() {
        assert(filters.take(upto) =~= filters);
    } else {
        assert(filters.drop_last().take(upto) =~= filters.take(upto));
        lemma_every_search_fault(filters.drop_last(), upto);
    }
}

proof fn lemma_scalar_parts_fault(filters: Seq<Filter>, upto: int)
    requires
        0 <= upto <= filters.len(),
        scalar_parts(filters.take(upto)) is Err,
    ensures
        scalar_parts(filters) == scalar_parts(filters.take(upto)),
    decreases filters.len(),
{
    if upto == filters.len() {
        assert(filters.take(upto) =~= filters);
    } else {
        assert(filters.drop_last().take(upto) =~= filters.take(upto));
        lemma_scalar_parts_fault(filters.drop_last(), upto);
    }
}

fn and_predicate(children: &Vec<FilterExpr>) -> (r: Result<Option<SearchPredicate>, FilterError>)
    ensures
        says(r, search_of(Filter::And(filters_of(children@)))),
    decreases children,
{
    let ghost filters = filters_of(children@);
    let mut predicates: Vec<SearchPredicate> = Vec::new();
    let mut i: usize = 0;
    assert(filters.take(0) =~= Seq::<Filter>::empty());
    assert(searches_of(predicates@) =~= Seq::<Search>::empty());
    while i < children.len()
        invariant
            i <= children.len(),
            filters == filters_of(children@),
            some_searches(filters.take(i as int)) == Ok::<_, Fault>(searches_of(predicates@)),
        decreases children.len() - i,
    {
        let ghost now = filters.take(i + 1);
        assert(now.drop_last() =~= filters.take(i as int));
        assert(now.last() == children@[i as int]@);
        let ghost before = predicates@;
        match phase6_predicate_for_expr(&children[i]) {
            Ok(Some(predicate)) => {
                let ghost search = predicate@;
                predicates.push(predicate);
                assert(searches_of(predicates@) =~= searches_of(before).push(search));
            },
            Ok(None) => {},
            Err(error) => {
                proof {
                    lemma_some_searches_fault(filters, i + 1);
                }
                return Err(error);
            },
        }
        i += 1;
    }
    assert(filters.take(i as int) =~= filters);
    Ok(combine_and(predicates))
}

fn or_predicate(children: &Vec<FilterExpr>) -> (r: Result<Option<SearchPredicate>, FilterError>)
    ensures
        says(r, search_of(Filter::Or(filters_of(children@)))),
    decreases children,
{
    let ghost filters = filters_of(children@);
    if !any_phase6_atom(children) {
        return Ok(None);
    }
    if any_scalar_child(children) {
        return Err(
            FilterError::Unsupported(
                "Phase 6 search predicates can only be ORed with other search predicates".to_owned(),
            ),
        );
    }
    let mut predicates: Vec<SearchPredicate> = Vec::new();
    let mut i: usize = 0;
    assert(filters.take(0) =~= Seq::<Filter>::empty());
    assert(searches_of(predicates@) =~= Seq::<Search>::empty());
    while i < children.len()
        invariant
            i <= children.len(),
            filters == filters_of(children@),
            any_search_atom(filters),
            !any_scalar_atom(filters),
            every_search(filters.take(i as int)) == Ok::<_, Fault>(searches_of(predicates@)),
        decreases children.len() - i,
    {
        let ghost now = filters.take(i + 1);
        assert(now.drop_last() =~= filters.take(i as int));
        assert(now.last() == children@[i as int]@);
        let ghost before = predicates@;
        match phase6_predicate_for_expr(&children[i]) {
            Ok(Some(predicate)) => {
                let ghost search = predicate@;
                predicates.push(predicate);
                assert(searches_of(predicates@) =~= searches_of(before).push(search));
            },
            Ok(None) => {
                proof {
                    lemma_every_search_fault(filters, i + 1);
                }
                return Err(
                    FilterError::Unsupported(
                        "or() search branch did not contain a search predicate".to_owned(),
                    ),
                );
            },
            Err(error) => {
                proof {
                    lemma_every_search_fault(filters, i + 1);
                }
                return Err(error);
            },
        }
        i += 1;
    }
    assert(filters.take(i as int) =~= filters);
    Ok(combine_or(predicates))
}

fn phase6_predicate_for_expr(expr: &FilterExpr) -> (r: Result<
    Option<SearchPredicate>,
    FilterError,
>)
    ensures
        says(r, search_of(expr@)),
    decreases expr,
{
    match expr {
        FilterExpr::And(children) => {
            proof {
                lemma_children_view(*children);
            }
            and_predicate(children)
        },
        FilterExpr::Or(children) => {
            proof {
                lemma_children_view(*children);
            }
            or_predicate(children)
        },
        _ => phase6_atom_predicate(expr),
    }
}

/// What an optional filter holds.
pub open spec fn opt_filter(expr: Option<FilterExpr>) -> Option<Filter> {
    match expr {
        Some(e) => Some(e@),
        None => None,
    }
}

fn scalar_children(children: &Vec<FilterExpr>) -> (r: Result<Option<FilterExpr>, FilterError>)
    ensures
        match r {
            Ok(part) => scalar_part(Filter::And(filters_of(children@))) == Ok::<_, Fault>(
                opt_filter(part),
            ),
            Err(error) => scalar_part(Filter::And(filters_of(children@))) == Err::<
                Option<Filter>,
                _,
            >(error@),
        },
    decreases children,
{
    let ghost filters = filters_of(children@);
    let mut parts: Vec<FilterExpr> = Vec::new();
    let mut i: usize = 0;
    assert(filters.take(0) =~= Seq::<Filter>::empty());
    assert(filters_of(parts@) =~= Seq::<Filter>::empty());
    while i < children.len()
        invariant
            i <= children.len(),
            filters == filters_of(children@),
            scalar_parts(filters.take(i as int)) == Ok::<_, Fault>(filters_of(parts@)),
        decreases children.len() - i,
    {
        let ghost now = filters.take(i + 1);
        assert(now.drop_last() =~= filters.take(i as int));
        assert(now.last() == children@[i as int]@);
        let ghost before = parts@;
        match scalar_prefilter_expr(&children[i]) {
            Ok(Some(part)) => {
                let ghost model = part@;
                parts.push(part);
                assert(filters_of(parts@) =~= filters_of(before).push(model));
            },
            Ok(None) => {},
            Err(error) => {
                proof {
                    lemma_scalar_parts_fault(filters, i + 1);
                }
                return Err(error);
            },
        }
        i += 1;
    }
    assert(filters.take(i as int) =~= filters);
    proof {
        lemma_children_view(parts);
    }
    assert(filters_of(parts@).len() == parts@.len());
    if parts.len() == 0 {
        Ok(None)
    } else if parts.len() == 1 {
        Ok(parts.pop())
    } else {
        Ok(Some(FilterExpr::And(parts)))
    }
}

/// The part of a filter that run heads answer.
pub fn scalar_prefilter_expr(expr: &FilterExpr) -> (r: Result<Option<FilterExpr>, FilterError>)
    ensures
        match r {
            Ok(part) => scalar_part(expr@) == Ok::<_, Fault>(opt_filter(part)),
            Err(error) => scalar_part(expr@) == Err::<Option<Filter>, _>(error@),
        },
    decreases expr,
{
    match expr {
        FilterExpr::And(children) => {
            proof {
                lemma_children_view(*children);
            }
            scalar_children(children)
        },
        FilterExpr::Or(children) => {
            proof {
                lemma_children_view(*children);
            }
            if any_phase6_atom(children) {
                if any_scalar_child(children) {
                    return Err(
                        FilterError::Unsupported(
                            "Phase 6 search predicates can only be ORed with other search predicates".to_owned(),
                        ),
                    );
                }
                Ok(None)
            } else {
                Ok(Some(copy_expr(expr)))
            }
        },
        _ => {
            if is_phase6_atom(expr) {
                Ok(None)
            } else {
                Ok(Some(copy_expr(expr)))
            }
        },
    }
}

impl FilterExpr {
    /// What the filter asks of a search index.
    pub fn phase6_search_predicate(&self) -> (r: Result<Option<SearchPredicate>, FilterError>)
        ensures
            says(r, search_of(self@)),
    {
        phase6_predicate_for_expr(self)
    }

    /// The SQL predicate over run heads of the part of the filter that they
    /// answer.
    pub fn compile_run_head_prefilter_for_projects(
        &self,
        run_alias: &str,
        project_names: &Vec<String>,
    ) -> (r: Result<Option<CompiledFilter>, FilterError>)
        ensures
            match r {
                Ok(Some(compiled)) => prefilter_of(self@, run_alias@, texts(project_names@))
                    == Ok::<_, Fault>(Some(compiled.predicate_sql@)),
                Ok(None) => prefilter_of(self@, run_alias@, texts(project_names@)) == Ok::<
                    Option<Seq<char>>,
                    Fault,
                >(None),
                Err(error) => prefilter_of(self@, run_alias@, texts(project_names@)) == Err::<
                    Option<Seq<char>>,
                    _,
                >(error@),
            },
    {
        match scalar_prefilter_expr(self) {
            Ok(Some(part)) => match compile_expr(&part, run_alias, Some(project_names)) {
                Ok(predicate_sql) => Ok(Some(CompiledFilter { predicate_sql })),
                Err(error) => Err(error),
            },
            Ok(None) => Ok(None),
            Err(error) => Err(error),
        }
    }
}

} // verus!
