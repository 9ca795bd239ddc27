//! Filters over the trees of traces.

use crate::float::FloatReadings;
use crate::float::Reading;
use crate::query::filter::Fault;
use crate::query::filter::Filter;
use crate::query::filter::FilterError;
use crate::query::filter::FilterExpr;
use crate::query::filter::copy_expr;
use crate::query::filter::lexer::filter_number_texts;
use crate::query::filter::lexer::number_texts_from;
use crate::query::filter::parser::parse_spec;
use crate::text::chars_of;
use crate::text::lower;
use crate::text::lower_char;
use crate::text::lowered;
use crate::text::same;
use crate::text::string_of;
use crate::text::texts;
use crate::text::trim;
use crate::text::trim_end;
use crate::text::trim_start;
use crate::text::trimmed;
use vstd::prelude::*;

verus! {

/// Which runs of a trace a tree filter speaks of.
#[derive(Debug, Clone, Copy, PartialEq, Eq, Structural)]
pub enum TreeFilterScope {
    Trace,
    Root,
    Child,
    Descendant,
}

/// What is shown of a trace that a tree filter keeps.
#[derive(Debug, Clone, Copy, PartialEq, Eq, Structural)]
pub enum TreeFilterMode {
    ShowAll,
    FilteredOnly,
    MostRelevant,
}

/// A filter over the trees of traces.
#[derive(Debug, PartialEq, Eq)]
pub struct TreeFilterExpr {
    scope: TreeFilterScope,
    mode: TreeFilterMode,
    predicate: FilterExpr,
}

/// What a [`TreeFilterExpr`] holds.
pub struct TreeFilter {
    pub scope: TreeFilterScope,
    pub mode: TreeFilterMode,
    pub predicate: Filter,
}

impl View for TreeFilterExpr {
    type V = TreeFilter;

    closed spec fn view(&self) -> TreeFilter {
        TreeFilter { scope: self.scope, mode: self.mode, predicate: self.predicate@ }
    }
}

/// Where a scan for parentheses stands: how many are open, whether inside a
/// string, and whether the next character of the string is taken as it is.
pub struct Balance {
    pub depth: int,
    pub in_string: bool,
    pub escaped: bool,
}

/// The scan after one more character; `None` once more are closed than were open.
pub open spec fn balance_step(at: Balance, c: char) -> Option<Balance> {
    if at.in_string {
        if at.escaped {
            Some(Balance { escaped: false, ..at })
        } else if c == '\\' {
            Some(Balance { escaped: true, ..at })
        } else if c == '"' {
            Some(Balance { in_string: false, ..at })
        } else {
            Some(at)
        }
    } else if c == '"' {
        Some(Balance { in_string: true, ..at })
    } else if c == '(' {
        Some(Balance { depth: at.depth + 1, ..at })
    } else if c == ')' {
        if at.depth == 0 {
            None
        } else {
            Some(Balance { depth: at.depth - 1, ..at })
        }
    } else {
        Some(at)
    }
}

/// The scan of all of `text`.
pub open spec fn balance_of(text: Seq<char>) -> Option<Balance>
    decreases text.len(),
{
    if text.len() == 0 {
        Some(Balance { depth: 0, in_string: false, escaped: false })
    } else {
        match balance_of(text.drop_last()) {
            Some(at) => balance_step(at, text.last()),
            None => None,
        }
    }
}

/// Whether the parentheses of `text` outside of strings are balanced, and no
/// string is open at its end.
pub open spec fn balanced(text: Seq<char>) -> bool {
    match balance_of(text) {
        Some(at) => at.depth == 0 && !at.in_string,
        None => false,
    }
}

/// What stands in `wrapper(..)`, if all of `input` is that, in whatever case.
pub open spec fn inner_of(input: Seq<char>, wrapper: Seq<char>) -> Option<Seq<char>> {
    let text = trim(input);
    let n = wrapper.len() as int;
    if text.len() < n + 2 || lower(text.take(n)) != lower(wrapper) || text[n] != '('
        || text.last() != ')' {
        None
    } else {
        let inner = text.subrange(n + 1, text.len() - 1);
        if balanced(inner) {
            Some(trim(inner))
        } else {
            None
        }
    }
}

/// The mode that `input` is wrapped in, and what is in it.
pub open spec fn mode_of(input: Seq<char>) -> (TreeFilterMode, Seq<char>) {
    match inner_of(input, "filtered_only"@) {
        Some(inner) => (TreeFilterMode::FilteredOnly, inner),
        None => match inner_of(input, "show_all"@) {
            Some(inner) => (TreeFilterMode::ShowAll, inner),
            None => match inner_of(input, "most_relevant"@) {
                Some(inner) => (TreeFilterMode::MostRelevant, inner),
                None => (TreeFilterMode::ShowAll, input),
            },
        },
    }
}

/// The scope that `input` is wrapped in, and what is in it.
pub open spec fn scope_of_input(input: Seq<char>) -> (TreeFilterScope, Seq<char>) {
    match inner_of(input, "root"@) {
        Some(inner) => (TreeFilterScope::Root, inner),
        None => match inner_of(input, "child"@) {
            Some(inner) => (TreeFilterScope::Child, inner),
            None => match inner_of(input, "descendant"@) {
                Some(inner) => (TreeFilterScope::Descendant, inner),
                None => match inner_of(input, "trace"@) {
                    Some(inner) => (TreeFilterScope::Trace, inner),
                    None => (TreeFilterScope::Trace, input),
                },
            },
        },
    }
}

/// The filter inside the mode and scope of a tree filter.
pub open spec fn predicate_text(input: Seq<char>) -> Seq<char> {
    scope_of_input(mode_of(trim(input)).1).1
}

/// The tree filter that `input` writes.
pub open spec fn tree_filter_of(input: Seq<char>, readings: Map<Seq<char>, Reading>) -> Result<
    TreeFilter,
    Fault,
> {
    let (mode, rest) = mode_of(trim(input));
    let (scope, inside) = scope_of_input(rest);
    match parse_spec(inside, readings) {
        Ok(predicate) => Ok(TreeFilter { scope, mode, predicate }),
        Err(fault) => Err(fault),
    }
}

fn balanced_parentheses(chars: &Vec<char>, from: usize, to: usize) -> (r: bool)
    requires
        from <= to <= chars.len(),
    ensures
        r == balanced(chars@.subrange(from as int, to as int)),
{
    let ghost text = chars@.subrange(from as int, to as int);
    let mut depth: usize = 0;
    let mut in_string = false;
    let mut escaped = false;
    let mut i: usize = from;
    assert(text.take(0) =~= Seq::<char>::empty());
    while i < to
        invariant
            from <= i <= to <= chars.len(),
                text == chars@.subrange(from as int, to as int),
            0 <= depth <= i - from,
            balance_of(text.take(i - from)) == Some(
                Balance { depth: depth as int, in_string, escaped },
            ),
        decreases to - i,
    {
        let c = chars[i];
        let ghost now = text.take(i - from + 1);
        assert(now.drop_last() =~= text.take(i - from));
        assert(now.last() == c);
        if in_string {
            if escaped {
                escaped = false;
            } else if c == '\\' {
                escaped = true;
            } else if c == '"' {
                in_string = false;
            }
        } else if c == '"' {
            in_string = true;
        } else if c == '(' {
            depth = depth + 1;
        } else if c == ')' {
            if depth == 0 {
                proof {
                    lemma_balance_lost(text, i - from + 1);
                }
                return false;
            }
            depth = depth - 1;
        }
        i += 1;
    }
    assert(text.take(i - from) =~= text);
    depth == 0 && !in_string
}

proof fn lemma_balance_lost(text: Seq<char>, upto: int)
    requires
        0 <= upto <= text.len(),
        balance_of(text.take(upto)) is None,
    ensures
        balance_of(text) is None,
    decreases text.len(),
{
    if upto == text.len() {
        assert(text.take(upto) =~= text);
    } else {
        assert(text.drop_last().take(upto) =~= text.take(upto));
        lemma_balance_lost(text.drop_last(), upto);
    }
}

fn wrapper_inner(input: &str, wrapper: &str) -> (r: Option<String>)
    ensures
        match r {
            Some(inner) => inner_of(input@, wrapper@) == Some(inner@),
            None => inner_of(input@, wrapper@) is None,
        },
{
    let text = trimmed(input);
    let chars = chars_of(text.as_str());
    let name = chars_of(wrapper);
    let n = name.len();
    let len = chars.len();
    if len < 2 || len - 2 < n {
        return None;
    }
    let head = string_of(&chars, 0, n);
    assert(head@ =~= text@.take(n as int));
    let same_name = same(lowered(head.as_str()).as_str(), lowered(wrapper).as_str());
    if !same_name || chars[n] != '(' || chars[len - 1] != ')' {
        return None;
    }
    if balanced_parentheses(&chars, n + 1, len - 1) {
        let inner = string_of(&chars, n + 1, len - 1);
        Some(trimmed(inner.as_str()))
    } else {
        None
    }
}

fn unwrap_mode(input: &str) -> (r: (TreeFilterMode, String))
    ensures
        (r.0, r.1@) == mode_of(input@),
{
    if let Some(inner) = wrapper_inner(input, "filtered_only") {
        return (TreeFilterMode::FilteredOnly, inner);
    }
    if let Some(inner) = wrapper_inner(input, "show_all") {
        return (TreeFilterMode::ShowAll, inner);
    }
    if let Some(inner) = wrapper_inner(input, "most_relevant") {
        return (TreeFilterMode::MostRelevant, inner);
    }
    (TreeFilterMode::ShowAll, input.to_owned())
}

fn unwrap_scope(input: &str) -> (r: (TreeFilterScope, String))
    ensures
        (r.0, r.1@) == scope_of_input(input@),
{
    if let Some(inner) = wrapper_inner(input, "root") {
        return (TreeFilterScope::Root, inner);
    }
    if let Some(inner) = wrapper_inner(input, "child") {
        return (TreeFilterScope::Child, inner);
    }
    if let Some(inner) = wrapper_inner(input, "descendant") {
        return (TreeFilterScope::Descendant, inner);
    }
    if let Some(inner) = wrapper_inner(input, "trace") {
        return (TreeFilterScope::Trace, inner);
    }
    (TreeFilterScope::Trace, input.to_owned())
}

impl TreeFilterExpr {
    /// Reads a tree filter. `readings` says which texts are numbers.
    pub fn parse(input: &str, readings: &FloatReadings) -> (r: Result<Self, FilterError>)
        ensures
            match r {
                Ok(expr) => tree_filter_of(input@, readings@) == Ok::<_, Fault>(expr@),
                Err(error) => tree_filter_of(input@, readings@) == Err::<TreeFilter, _>(error@),
            },
    {
        let text = trimmed(input);
        let (mode, rest) = unwrap_mode(text.as_str());
        let (scope, inside) = unwrap_scope(rest.as_str());
        match FilterExpr::parse(inside.as_str(), readings) {
            Ok(predicate) => Ok(TreeFilterExpr { scope, mode, predicate }),
            Err(error) => Err(error),
        }
    }

    /// Every text of a tree filter that is read as a number.
    pub fn number_texts(input: &str) -> (r: Vec<String>)
        ensures
            texts(r@) == number_texts_from(predicate_text(input@), 0),
    {
        let text = trimmed(input);
        let (_, rest) = unwrap_mode(text.as_str());
        let (_, inside) = unwrap_scope(rest.as_str());
        filter_number_texts(inside.as_str())
    }

    pub fn scope(&self) -> (r: TreeFilterScope)
        ensures
            r == self@.scope,
    {
        self.scope
    }

    pub fn mode(&self) -> (r: TreeFilterMode)
        ensures
            r == self@.mode,
    {
        self.mode
    }

    pub fn predicate(&self) -> (r: &FilterExpr)
        ensures
            r@ == self@.predicate,
    {
        &self.predicate
    }

    /// Another tree filter that holds the same.
    pub fn copy(&self) -> (r: Self)
        ensures
            r@ == self@,
    {
        TreeFilterExpr {
            scope: self.scope,
            mode: self.mode,
            predicate: copy_expr(&self.predicate),
        }
    }
}

/// A text between the parentheses of a word.
pub open spec fn wrapped(word: Seq<char>, inner: Seq<char>) -> Seq<char> {
    word + seq!['('] + inner + seq![')']
}

/// Whether a word is made of lower-case letters and underscores.
spec fn is_plain(word: Seq<char>) -> bool {
    word.len() > 0 && forall|i: int|
        0 <= i < word.len() ==> 'a' <= #[trigger] word[i] <= 'z' || word[i] == '_'
}

proof fn lemma_wrapped(word: Seq<char>, inner: Seq<char>)
    requires
        is_plain(word),
    ensures
        trim(wrapped(word, inner)) == wrapped(word, inner),
        balanced(inner) ==> inner_of(wrapped(word, inner), word) == Some(trim(inner)),
{
    let text = wrapped(word, inner);
    let n = word.len() as int;
    assert(text[0] == word[0]);
    assert(text.last() == ')');
    assert(trim_start(text) == text);
    assert(trim_end(text) == text);
    assert(text.take(n) =~= word);
    assert(text[n] == '(');
    assert(text.subrange(n + 1, text.len() - 1) =~= inner);
}

proof fn lemma_other_word(word: Seq<char>, inner: Seq<char>, other: Seq<char>)
    requires
        is_plain(word),
        is_plain(other),
        word[0] != other[0],
    ensures
        inner_of(wrapped(word, inner), other) is None,
{
    let text = wrapped(word, inner);
    lemma_wrapped(word, inner);
    if inner_of(text, other) is Some {
        assert(lower(text.take(other.len() as int))[0] == lower_char(text[0]));
        assert(lower(other)[0] == lower_char(other[0]));
        assert(text[0] == word[0]);
        assert(lower_char(word[0]) == word[0]);
        assert(lower_char(other[0]) == other[0]);
    }
}

/// The word of a mode.
pub open spec fn mode_word(mode: TreeFilterMode) -> Seq<char> {
    match mode {
        TreeFilterMode::ShowAll => "show_all"@,
        TreeFilterMode::FilteredOnly => "filtered_only"@,
        TreeFilterMode::MostRelevant => "most_relevant"@,
    }
}

/// The word of a scope.
pub open spec fn scope_word(scope: TreeFilterScope) -> Seq<char> {
    match scope {
        TreeFilterScope::Trace => "trace"@,
        TreeFilterScope::Root => "root"@,
        TreeFilterScope::Child => "child"@,
        TreeFilterScope::Descendant => "descendant"@,
    }
}

proof fn lemma_words()
    ensures
        forall|mode: TreeFilterMode| is_plain(#[trigger] mode_word(mode)),
        forall|scope: TreeFilterScope| is_plain(#[trigger] scope_word(scope)),
        "filtered_only"@[0] == 'f',
        "show_all"@[0] == 's',
        "most_relevant"@[0] == 'm',
        "root"@[0] == 'r',
        "child"@[0] == 'c',
        "descendant"@[0] == 'd',
        "trace"@[0] == 't',
{
    reveal_strlit("filtered_only");
    reveal_strlit("show_all");
    reveal_strlit("most_relevant");
    reveal_strlit("root");
    reveal_strlit("child");
    reveal_strlit("descendant");
    reveal_strlit("trace");
    assert(is_plain("filtered_only"@));
    assert(is_plain("show_all"@));
    assert(is_plain("most_relevant"@));
    assert(is_plain("root"@));
    assert(is_plain("child"@));
    assert(is_plain("descendant"@));
    assert(is_plain("trace"@));
    assert forall|mode: TreeFilterMode| is_plain(#[trigger] mode_word(mode)) by {
        match mode {
            TreeFilterMode::ShowAll => {},
            TreeFilterMode::FilteredOnly => {},
            TreeFilterMode::MostRelevant => {},
        }
    }
    assert forall|scope: TreeFilterScope| is_plain(#[trigger] scope_word(scope)) by {
        match scope {
            TreeFilterScope::Trace => {},
            TreeFilterScope::Root => {},
            TreeFilterScope::Child => {},
            TreeFilterScope::Descendant => {},
        }
    }
}

/// What stands between the parentheses of the word of a mode is filtered in that mode, and what
/// stands between those of the word of a scope in that scope.
pub proof fn law_words_say_mode_and_scope(
    mode: TreeFilterMode,
    scope: TreeFilterScope,
    inner: Seq<char>,
)
    requires
        balanced(inner),
    ensures
        mode_of(wrapped(mode_word(mode), inner)) == (mode, trim(inner)),
        scope_of_input(wrapped(scope_word(scope), inner)) == (scope, trim(inner)),
{
    lemma_words();
    lemma_wrapped(mode_word(mode), inner);
    lemma_wrapped(scope_word(scope), inner);
    if mode != TreeFilterMode::FilteredOnly {
        lemma_other_word(mode_word(mode), inner, mode_word(TreeFilterMode::FilteredOnly));
    }
    if mode == TreeFilterMode::MostRelevant {
        lemma_other_word(mode_word(mode), inner, mode_word(TreeFilterMode::ShowAll));
    }
    if scope != TreeFilterScope::Root {
        lemma_other_word(scope_word(scope), inner, scope_word(TreeFilterScope::Root));
    }
    if scope != TreeFilterScope::Root && scope != TreeFilterScope::Child {
        lemma_other_word(scope_word(scope), inner, scope_word(TreeFilterScope::Child));
    }
    if scope == TreeFilterScope::Trace {
        lemma_other_word(scope_word(scope), inner, scope_word(TreeFilterScope::Descendant));
    }
}

/// A filter that is written with the words of a mode and of a scope around a predicate is that
/// predicate in that mode and that scope.
pub proof fn law_tree_filter_is_read_back(
    mode: TreeFilterMode,
    scope: TreeFilterScope,
    predicate: Seq<char>,
    readings: Map<Seq<char>, Reading>,
)
    requires
        balanced(predicate),
        balanced(wrapped(scope_word(scope), predicate)),
    ensures
        ({
            let text = wrapped(mode_word(mode), wrapped(scope_word(scope), predicate));
            match parse_spec(trim(predicate), readings) {
                Ok(filter) => tree_filter_of(text, readings) == Ok::<_, Fault>(
                    TreeFilter { scope, mode, predicate: filter },
                ),
                Err(fault) => tree_filter_of(text, readings) == Err::<TreeFilter, _>(fault),
            }
        }),
{
    let inner = wrapped(scope_word(scope), predicate);
    lemma_words();
    lemma_wrapped(mode_word(mode), inner);
    lemma_wrapped(scope_word(scope), predicate);
    law_words_say_mode_and_scope(mode, scope, inner);
    law_words_say_mode_and_scope(mode, scope, predicate);
}

/// A text whose parentheses are balanced is no longer so with one more of them, or with a string
/// that is begun behind it; any other character leaves it as it is.
pub proof fn law_balance_counts_parentheses(text: Seq<char>, c: char)
    requires
        balanced(text),
        balance_of(text)->0.escaped == false,
    ensures
        balanced(text.push(c)) <==> c != '(' && c != ')' && c != '"',
        balanced(text.push('(').push(')')),
        balanced(text.push('"').push(c).push('"')) <==> c != '"' && c != '\\',
        balanced(Seq::empty()),
{
    assert(text.push(c).drop_last() =~= text);
    assert(text.push('(').drop_last() =~= text);
    assert(text.push('(').push(')').drop_last() =~= text.push('('));
    assert(text.push('"').drop_last() =~= text);
    assert(text.push('"').push(c).drop_last() =~= text.push('"'));
    assert(text.push('"').push(c).push('"').drop_last() =~= text.push('"').push(c));
    let opened = Balance { depth: 1, in_string: false, escaped: false };
    assert(balance_of(text.push('(')) == balance_step(balance_of(text)->0, '('));
    assert(balance_of(text.push('(')) == Some(opened));
    assert(balance_of(text.push('(').push(')')) == balance_step(opened, ')'));
    let begun = Balance { depth: 0, in_string: true, escaped: false };
    assert(balance_of(text.push('"')) == balance_step(balance_of(text)->0, '"'));
    assert(balance_of(text.push('"')) == Some(begun));
    assert(balance_of(text.push('"').push(c)) == balance_step(begun, c));
    let then_c = balance_step(begun, c)->0;
    assert(balance_of(text.push('"').push(c).push('"')) == balance_step(then_c, '"'));
}

} // verus!
