//! What is asked of the search indexes of segments.

use vstd::prelude::*;

verus! {

/// Where in the attributes of a run a search looks.
#[derive(Debug, PartialEq, Eq)]
pub enum SearchField {
    All,
    PathPrefix(String),
    ExactPath(String),
}

/// What a [`SearchField`] holds.
pub enum Scope {
    All,
    PathPrefix(Seq<char>),
    ExactPath(Seq<char>),
}

impl View for SearchField {
    type V = Scope;

    open spec fn view(&self) -> Scope {
        match self {
            SearchField::All => Scope::All,
            SearchField::PathPrefix(path) => Scope::PathPrefix(path@),
            SearchField::ExactPath(path) => Scope::ExactPath(path@),
        }
    }
}

/// What a text search looks for.
#[derive(Debug, PartialEq, Eq)]
pub struct SearchQuery {
    pub text: String,
}

impl View for SearchQuery {
    type V = Seq<char>;

    open spec fn view(&self) -> Seq<char> {
        self.text@
    }
}

impl SearchQuery {
    /// The search for `text`.
    pub fn parse(text: &str) -> (r: Self)
        ensures
            r@ == text@,
    {
        SearchQuery { text: text.to_owned() }
    }
}

/// What a search index is asked.
#[derive(Debug, PartialEq, Eq)]
pub enum SearchPredicate {
    And(Vec<SearchPredicate>),
    Or(Vec<SearchPredicate>),
    Not(Box<SearchPredicate>),
    Text { field: SearchField, query: SearchQuery },
    JsonKey { pattern: String },
    ExactValue { field: SearchField, value: String },
}

/// What a [`SearchPredicate`] holds.
pub enum Search {
    And(Seq<Search>),
    Or(Seq<Search>),
    Not(Box<Search>),
    Text { field: Scope, query: Seq<char> },
    JsonKey { pattern: Seq<char> },
    ExactValue { field: Scope, value: Seq<char> },
}

impl SearchPredicate {
    pub open spec fn model(&self) -> Search
        decreases self,
    {
        match self {
            SearchPredicate::And(children) => Search::And(
                Seq::new(
                    children@.len(),
                    |i: int|
                        if 0 <= i < children@.len() {
                            children@[i].model()
                        } else {
                            arbitrary()
                        },
                ),
            ),
            SearchPredicate::Or(children) => Search::Or(
                Seq::new(
                    children@.len(),
                    |i: int|
                        if 0 <= i < children@.len() {
                            children@[i].model()
                        } else {
                            arbitrary()
                        },
                ),
            ),
            SearchPredicate::Not(inner) => Search::Not(Box::new(inner.model())),
            SearchPredicate::Text { field, query } => Search::Text { field: field@, query: query@ },
            SearchPredicate::JsonKey { pattern } => Search::JsonKey { pattern: pattern@ },
            SearchPredicate::ExactValue { field, value } => Search::ExactValue {
                field: field@,
                value: value@,
            },
        }
    }
}

impl View for SearchPredicate {
    type V = Search;

    open spec fn view(&self) -> Search {
        self.model()
    }
}

/// What each of `predicates` holds.
pub open spec fn searches_of(predicates: Seq<SearchPredicate>) -> Seq<Search> {
    predicates.map_values(|predicate: SearchPredicate| predicate@)
}

pub proof fn lemma_searches_view(children: Vec<SearchPredicate>)
    ensures
        SearchPredicate::And(children)@ == Search::And(searches_of(children@)),
        SearchPredicate::Or(children)@ == Search::Or(searches_of(children@)),
{
    reveal_with_fuel(SearchPredicate::model, 2);
    assert(SearchPredicate::And(children)@->And_0 =~= searches_of(children@));
    assert(SearchPredicate::Or(children)@->Or_0 =~= searches_of(children@));
}

pub proof fn lemma_not_view(inner: SearchPredicate)
    ensures
        SearchPredicate::Not(Box::new(inner))@ == Search::Not(Box::new(inner@)),
{
    reveal_with_fuel(SearchPredicate::model, 2);
}

} // verus!
