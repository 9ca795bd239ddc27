//! Which runs a query asks for, and that its predicates ask for these and no others.

use crate::query::Key;
use crate::query::Query;
use crate::query::RunSummary;
use crate::query::SegmentCandidateRow;
use crate::query::Spans;
use crate::query::all_predicates;
use crate::query::candidates_predicate;
use crate::query::direction;
use crate::query::filter::Fault;
use crate::query::filter::Filter;
use crate::query::filter::compile::predicate_of;
use crate::query::filter::compiled::law_predicate_says_what_the_filter_says;
use crate::query::filter::meaning::is_supported;
use crate::query::filter::phase6::prefilter_of;
use crate::query::filter::phase6::scalar_part;
use crate::query::grouped_by_trace;
use crate::query::key_order;
use crate::query::keys_predicates;
use crate::query::law_key_order;
use crate::query::limit_clause;
use crate::query::number_is;
use crate::query::offset_clause;
use crate::query::payload_column;
use crate::query::planner::error_is;
use crate::query::planner::flag_is;
use crate::query::planner::head_joins;
use crate::query::planner::head_predicates;
use crate::query::planner::head_where;
use crate::query::planner::hides_deleted;
use crate::query::planner::qualified;
use crate::query::planner::query_predicates;
use crate::query::planner::root_exists;
use crate::query::row_predicate;
use crate::query::row_predicates;
use crate::query::run_key;
use crate::query::segment_predicate;
use crate::query::source_predicate;
use crate::query::spans_predicate;
use crate::query::spans_predicates;
use crate::query::text_in;
use crate::query::text_is;
use crate::sorting::law_ordered_set_holds_its_elements;
use crate::sorting::ordered_set;
use crate::sql::doubled_quotes;
use crate::sql::literal;
use crate::sql::literal_list;
use crate::text::int_text;
use crate::text::join;
use crate::text::law_number_text_is_digits;
use crate::text::nat_text;
use crate::text::opt_text;
use crate::text::with;
use vstd::prelude::*;

verus! {

/// A run as the database holds it: whether the segment of its latest version was replaced by
/// another, whether its row is marked as deleted, and whether its deletion is on record; and
/// which row of its segment it stands in.
pub struct StoredRun {
    pub run: RunSummary,
    pub row: int,
    pub is_replaced: bool,
    pub is_marked: bool,
    pub is_on_record: bool,
}

/// A column that holds a text.
pub enum TextColumn {
    Project,
    Trace,
    Span,
    ParentRun,
    ParentSpan,
    RunType,
    Status,
}

/// One thing that is asked of a run.
pub enum Ask {
    Is { column: TextColumn, text: Seq<char> },
    IsNot { column: TextColumn, text: Seq<char> },
    IsOneOf { column: TextColumn, texts: Seq<Seq<char>> },
    IsRoot(bool),
    StartsAtOrAfter(int),
    StartsAtOrBefore(int),
    IsInLiveSegment,
    IsNotMarked,
    IsNotOnRecord,
    IsInRow(int),
}

pub open spec fn column_word(column: TextColumn) -> Seq<char> {
    match column {
        TextColumn::Project => "project_name"@,
        TextColumn::Trace => "trace_id"@,
        TextColumn::Span => "span_id"@,
        TextColumn::ParentRun => "parent_run_id"@,
        TextColumn::ParentSpan => "parent_span_id"@,
        TextColumn::RunType => "run_type"@,
        TextColumn::Status => "status"@,
    }
}

/// What the column of a run holds, if it holds anything.
pub open spec fn column_value(column: TextColumn, run: RunSummary) -> Option<Seq<char>> {
    match column {
        TextColumn::Project => Some(run.project_name@),
        TextColumn::Trace => Some(run.trace_id@),
        TextColumn::Span => Some(run.span_id@),
        TextColumn::ParentRun => opt_text(run.parent_run_id),
        TextColumn::ParentSpan => opt_text(run.parent_span_id),
        TextColumn::RunType => Some(run.run_type@),
        TextColumn::Status => Some(run.status@),
    }
}

/// A column of the table `table`, or of the only one there is.
pub open spec fn column_of(table: Seq<char>, word: Seq<char>) -> Seq<char> {
    if table.len() > 0 {
        table + "."@ + word
    } else {
        word
    }
}

/// How it is asked in SQL.
pub open spec fn ask_text(ask: Ask, table: Seq<char>) -> Seq<char> {
    match ask {
        Ask::Is { column, text } => column_of(table, column_word(column)) + " = "@ + literal(text),
        Ask::IsNot { column, text } => column_of(table, column_word(column)) + " <> "@ + literal(
            text,
        ),
        Ask::IsOneOf { column, texts } => column_of(table, column_word(column)) + " IN ("@
            + literal_list(texts) + ")"@,
        Ask::IsRoot(flag) => column_of(table, "is_root"@) + " = "@ + (if flag {
            "true"@
        } else {
            "false"@
        }),
        Ask::StartsAtOrAfter(time) => column_of(table, "start_time_unix_nano"@) + " >= "@
            + int_text(time),
        Ask::StartsAtOrBefore(time) => column_of(table, "start_time_unix_nano"@) + " <= "@
            + int_text(time),
        Ask::IsInLiveSegment => "trace_segments.compacted_at IS NULL"@,
        Ask::IsNotMarked => column_of(table, "deleted_at_unix_nano IS NULL"@),
        Ask::IsNotOnRecord => "run_deletions.span_id IS NULL"@,
        Ask::IsInRow(row) => column_of(table, "row_index"@) + " = "@ + int_text(row),
    }
}

pub open spec fn ask_texts(asks: Seq<Ask>, table: Seq<char>) -> Seq<Seq<char>> {
    asks.map_values(|ask: Ask| ask_text(ask, table))
}

/// Whether it is true of a run.
pub open spec fn ask_holds(ask: Ask, stored: StoredRun) -> bool {
    match ask {
        Ask::Is { column, text } => column_value(column, stored.run) == Some(text),
        Ask::IsNot { column, text } => column_value(column, stored.run) is Some && column_value(
            column,
            stored.run,
        ) != Some(text),
        Ask::IsOneOf { column, texts } => column_value(column, stored.run) is Some
            && texts.contains(column_value(column, stored.run)->0),
        Ask::IsRoot(flag) => stored.run.is_root == flag,
        Ask::StartsAtOrAfter(time) => stored.run.start_time_unix_nano >= time,
        Ask::StartsAtOrBefore(time) => stored.run.start_time_unix_nano <= time,
        Ask::IsInLiveSegment => !stored.is_replaced,
        Ask::IsNotMarked => !stored.is_marked,
        Ask::IsNotOnRecord => !stored.is_on_record,
        Ask::IsInRow(row) => stored.row == row,
    }
}

pub open spec fn all_hold(asks: Seq<Ask>, stored: StoredRun) -> bool {
    forall|i: int| 0 <= i < asks.len() ==> ask_holds(#[trigger] asks[i], stored)
}

/// Whether these are predicates that are true, all of them, of just the runs that are wanted.
pub open spec fn ask_for(
    predicates: Seq<Seq<char>>,
    table: Seq<char>,
    wanted: spec_fn(StoredRun) -> bool,
) -> bool {
    exists|asks: Seq<Ask>|
        {
            &&& #[trigger] ask_texts(asks, table) == predicates
            &&& forall|stored: StoredRun| #[trigger] all_hold(asks, stored) == wanted(stored)
        }
}

/// Whether a run is one that a query asks for by what stands in its own row: it is in one of
/// the projects, it has the trace, the parents and the type that are named, it is a root or it
/// is not, it failed or it did not, and it started in the time that is given, both ends
/// included.
pub open spec fn is_asked_for(query: Query, run: RunSummary) -> bool {
    &&& query.project_names.len() > 0 ==> query.project_names.contains(run.project_name@)
    &&& query.trace_id matches Some(id) ==> run.trace_id@ == id
    &&& query.parent_run_id matches Some(id) ==> opt_text(run.parent_run_id) == Some(id)
    &&& query.parent_span_id matches Some(id) ==> opt_text(run.parent_span_id) == Some(id)
    &&& query.run_type matches Some(word) ==> run.run_type@ == word
    &&& query.is_root matches Some(flag) ==> run.is_root == flag
    &&& query.error matches Some(flag) ==> (run.status@ == "error"@) == flag
    &&& query.start_time_min_unix_nano matches Some(time) ==> time <= run.start_time_unix_nano
    &&& query.start_time_max_unix_nano matches Some(time) ==> run.start_time_unix_nano <= time
}

/// Whether a run is one that a query lists: it is asked for, its latest version is in a segment
/// that is still there, it is not older than what is retained, and it was not deleted, unless
/// deleted runs are wanted too.
pub open spec fn is_wanted(query: Query, stored: StoredRun) -> bool {
    &&& is_asked_for(query, stored.run)
    &&& !stored.is_replaced
    &&& query.retention_cutoff_unix_nano matches Some(time) ==> time
        <= stored.run.start_time_unix_nano
    &&& query.include_deleted || !(stored.is_marked || stored.is_on_record)
}

spec fn asked(asks: Seq<Ask>, ask: Option<Ask>) -> Seq<Ask> {
    match ask {
        Some(one) => asks.push(one),
        None => asks,
    }
}

spec fn opt_ask_text(ask: Option<Ask>, table: Seq<char>) -> Option<Seq<char>> {
    match ask {
        Some(one) => Some(ask_text(one, table)),
        None => None,
    }
}

spec fn opt_ask_holds(ask: Option<Ask>, stored: StoredRun) -> bool {
    match ask {
        Some(one) => ask_holds(one, stored),
        None => true,
    }
}

proof fn lemma_asked(asks: Seq<Ask>, ask: Option<Ask>, table: Seq<char>)
    ensures
        ask_texts(asked(asks, ask), table) == with(
            ask_texts(asks, table),
            opt_ask_text(ask, table),
        ),
        forall|stored: StoredRun| #[trigger]
            all_hold(asked(asks, ask), stored) == (all_hold(asks, stored) && opt_ask_holds(
                ask,
                stored,
            )),
{
    assert(ask_texts(asked(asks, ask), table) =~= with(
        ask_texts(asks, table),
        opt_ask_text(ask, table),
    ));
    if ask is Some {
        let more = asks.push(ask->0);
        assert forall|stored: StoredRun| #[trigger] all_hold(more, stored) == (all_hold(
            asks,
            stored,
        ) && ask_holds(ask->0, stored)) by {
            if all_hold(more, stored) {
                assert forall|i: int| 0 <= i < asks.len() implies ask_holds(
                    #[trigger] asks[i],
                    stored,
                ) by {
                    assert(more[i] == asks[i]);
                }
                assert(more[asks.len() as int] == ask->0);
            }
        }
    }
}

spec fn is_ask(column: TextColumn, text: Option<Seq<char>>) -> Option<Ask> {
    match text {
        Some(word) => Some(Ask::Is { column, text: word }),
        None => None,
    }
}

spec fn projects_ask(query: Query) -> Option<Ask> {
    if query.project_names.len() > 0 {
        Some(Ask::IsOneOf { column: TextColumn::Project, texts: query.project_names })
    } else {
        None
    }
}

spec fn root_ask(query: Query) -> Option<Ask> {
    match query.is_root {
        Some(flag) => Some(Ask::IsRoot(flag)),
        None => None,
    }
}

spec fn error_ask(query: Query) -> Option<Ask> {
    match query.error {
        Some(flag) => if flag {
            Some(Ask::Is { column: TextColumn::Status, text: "error"@ })
        } else {
            Some(Ask::IsNot { column: TextColumn::Status, text: "error"@ })
        },
        None => None,
    }
}

spec fn since_ask(time: Option<i64>) -> Option<Ask> {
    match time {
        Some(n) => Some(Ask::StartsAtOrAfter(n as int)),
        None => None,
    }
}

spec fn until_ask(time: Option<i64>) -> Option<Ask> {
    match time {
        Some(n) => Some(Ask::StartsAtOrBefore(n as int)),
        None => None,
    }
}

proof fn lemma_error_text(column: Seq<char>)
    ensures
        column + " = "@ + literal("error"@) == column + " = 'error'"@,
        column + " <> "@ + literal("error"@) == column + " <> 'error'"@,
{
    let word = "error"@;
    reveal_strlit("error");
    reveal_strlit(" = ");
    reveal_strlit(" <> ");
    reveal_strlit(" = 'error'");
    reveal_strlit(" <> 'error'");
    reveal_with_fuel(doubled_quotes, 6);
    assert(doubled_quotes(word) =~= word);
    assert(column + " = "@ + literal(word) =~= column + " = 'error'"@);
    assert(column + " <> "@ + literal(word) =~= column + " <> 'error'"@);
}

spec fn query_asks(query: Query) -> Seq<Ask> {
    let a1 = asked(Seq::empty(), projects_ask(query));
    let a2 = asked(a1, is_ask(TextColumn::Trace, query.trace_id));
    let a3 = asked(a2, is_ask(TextColumn::ParentRun, query.parent_run_id));
    let a4 = asked(a3, is_ask(TextColumn::ParentSpan, query.parent_span_id));
    let a5 = asked(a4, is_ask(TextColumn::RunType, query.run_type));
    let a6 = asked(a5, root_ask(query));
    let a7 = asked(a6, error_ask(query));
    let a8 = asked(a7, since_ask(query.start_time_min_unix_nano));
    asked(a8, until_ask(query.start_time_max_unix_nano))
}

proof fn lemma_query_asks(query: Query, table: Seq<char>)
    ensures
        ask_texts(query_asks(query), table) == query_predicates(query, table),
        forall|stored: StoredRun| #[trigger]
            all_hold(query_asks(query), stored) == is_asked_for(query, stored.run),
{
    let a0 = Seq::<Ask>::empty();
    let a1 = asked(a0, projects_ask(query));
    let a2 = asked(a1, is_ask(TextColumn::Trace, query.trace_id));
    let a3 = asked(a2, is_ask(TextColumn::ParentRun, query.parent_run_id));
    let a4 = asked(a3, is_ask(TextColumn::ParentSpan, query.parent_span_id));
    let a5 = asked(a4, is_ask(TextColumn::RunType, query.run_type));
    let a6 = asked(a5, root_ask(query));
    let a7 = asked(a6, error_ask(query));
    let a8 = asked(a7, since_ask(query.start_time_min_unix_nano));
    let start = qualified(table, "start_time_unix_nano"@);
    assert(ask_texts(a0, table) =~= Seq::<Seq<char>>::empty());
    lemma_asked(a0, projects_ask(query), table);
    assert(opt_ask_text(projects_ask(query), table) == text_in(
        qualified(table, "project_name"@),
        query.project_names,
    ));
    lemma_asked(a1, is_ask(TextColumn::Trace, query.trace_id), table);
    assert(opt_ask_text(is_ask(TextColumn::Trace, query.trace_id), table) == text_is(
        qualified(table, "trace_id"@),
        query.trace_id,
    ));
    lemma_asked(a2, is_ask(TextColumn::ParentRun, query.parent_run_id), table);
    assert(opt_ask_text(is_ask(TextColumn::ParentRun, query.parent_run_id), table) == text_is(
        qualified(table, "parent_run_id"@),
        query.parent_run_id,
    ));
    lemma_asked(a3, is_ask(TextColumn::ParentSpan, query.parent_span_id), table);
    assert(opt_ask_text(is_ask(TextColumn::ParentSpan, query.parent_span_id), table) == text_is(
        qualified(table, "parent_span_id"@),
        query.parent_span_id,
    ));
    lemma_asked(a4, is_ask(TextColumn::RunType, query.run_type), table);
    assert(opt_ask_text(is_ask(TextColumn::RunType, query.run_type), table) == text_is(
        qualified(table, "run_type"@),
        query.run_type,
    ));
    lemma_asked(a5, root_ask(query), table);
    assert(opt_ask_text(root_ask(query), table) == flag_is(
        qualified(table, "is_root"@),
        query.is_root,
    ));
    lemma_asked(a6, error_ask(query), table);
    lemma_error_text(qualified(table, "status"@));
    assert(opt_ask_text(error_ask(query), table) == error_is(
        qualified(table, "status"@),
        query.error,
    ));
    lemma_asked(a7, since_ask(query.start_time_min_unix_nano), table);
    assert(opt_ask_text(since_ask(query.start_time_min_unix_nano), table) == number_is(
        start,
        " >= "@,
        query.start_time_min_unix_nano,
    ));
    lemma_asked(a8, until_ask(query.start_time_max_unix_nano), table);
    assert(opt_ask_text(until_ask(query.start_time_max_unix_nano), table) == number_is(
        start,
        " <= "@,
        query.start_time_max_unix_nano,
    ));
    assert forall|stored: StoredRun| #[trigger]
        all_hold(query_asks(query), stored) == is_asked_for(query, stored.run) by {
        assert(all_hold(a0, stored));
        assert(all_hold(a1, stored) == opt_ask_holds(projects_ask(query), stored));
        assert(all_hold(a2, stored) == (all_hold(a1, stored) && opt_ask_holds(
            is_ask(TextColumn::Trace, query.trace_id),
            stored,
        )));
        assert(all_hold(a3, stored) == (all_hold(a2, stored) && opt_ask_holds(
            is_ask(TextColumn::ParentRun, query.parent_run_id),
            stored,
        )));
        assert(all_hold(a4, stored) == (all_hold(a3, stored) && opt_ask_holds(
            is_ask(TextColumn::ParentSpan, query.parent_span_id),
            stored,
        )));
        assert(all_hold(a5, stored) == (all_hold(a4, stored) && opt_ask_holds(
            is_ask(TextColumn::RunType, query.run_type),
            stored,
        )));
        assert(all_hold(a6, stored) == (all_hold(a5, stored) && opt_ask_holds(
            root_ask(query),
            stored,
        )));
        assert(all_hold(a7, stored) == (all_hold(a6, stored) && opt_ask_holds(
            error_ask(query),
            stored,
        )));
        assert(all_hold(a8, stored) == (all_hold(a7, stored) && opt_ask_holds(
            since_ask(query.start_time_min_unix_nano),
            stored,
        )));
    }
}

/// The predicates of a query are true of the runs that it asks for, and of no others, in
/// whatever table the runs stand.
pub proof fn law_predicates_ask_for_the_runs(query: Query, table: Seq<char>)
    ensures
        ask_for(
            query_predicates(query, table),
            table,
            |stored: StoredRun| is_asked_for(query, stored.run),
        ),
{
    lemma_query_asks(query, table);
    let asks = query_asks(query);
    let wanted = |stored: StoredRun| is_asked_for(query, stored.run);
    assert(ask_texts(asks, table) == query_predicates(query, table));
    assert forall|stored: StoredRun| #[trigger] all_hold(asks, stored) == wanted(stored) by {}
}

/// The predicates on the heads of runs are true of the runs that the query lists, and of no
/// others. Where deleted runs are left out, the deletions on record are joined in.
pub proof fn law_head_predicates_ask_for_the_runs(query: Query)
    ensures
        ask_for(
            head_predicates(query),
            "run_heads"@,
            |stored: StoredRun| is_wanted(query, stored),
        ),
        query.include_deleted <==> head_joins(query.include_deleted).len() == 0,
        hides_deleted(query) ==> !query.include_deleted,
        query.project_names.len() > 0 && !query.include_deleted ==> hides_deleted(query),
{
    let table = "run_heads"@;
    reveal_strlit("run_heads");
    reveal_strlit(".");
    reveal_strlit("deleted_at_unix_nano IS NULL");
    reveal_strlit("run_heads.deleted_at_unix_nano IS NULL");
    reveal_strlit("start_time_unix_nano");
    reveal_strlit("run_heads.start_time_unix_nano");
    reveal_strlit(
        "
            LEFT JOIN run_deletions
                ON run_deletions.project_name = run_heads.project_name
                AND run_deletions.trace_id = run_heads.trace_id
                AND run_deletions.span_id = run_heads.span_id",
    );
    let cutoff = query.retention_cutoff_unix_nano;
    let a0 = query_asks(query);
    let a1 = asked(a0, Some(Ask::IsInLiveSegment));
    let a2 = if query.include_deleted {
        a1
    } else {
        asked(asked(a1, Some(Ask::IsNotMarked)), Some(Ask::IsNotOnRecord))
    };
    let asks = asked(a2, since_ask(cutoff));
    lemma_query_asks(query, table);
    lemma_asked(a0, Some(Ask::IsInLiveSegment), table);
    lemma_asked(a1, Some(Ask::IsNotMarked), table);
    lemma_asked(asked(a1, Some(Ask::IsNotMarked)), Some(Ask::IsNotOnRecord), table);
    lemma_asked(a2, since_ask(cutoff), table);
    assert(column_of(table, "deleted_at_unix_nano IS NULL"@)
        =~= "run_heads.deleted_at_unix_nano IS NULL"@);
    assert(column_of(table, "start_time_unix_nano"@) =~= "run_heads.start_time_unix_nano"@);
    assert(opt_ask_text(since_ask(cutoff), table) == number_is(
        "run_heads.start_time_unix_nano"@,
        " >= "@,
        cutoff,
    ));
    assert(ask_texts(asks, table) == head_predicates(query));
    let wanted = |stored: StoredRun| is_wanted(query, stored);
    assert forall|stored: StoredRun| #[trigger] all_hold(asks, stored) == wanted(stored) by {
        assert(all_hold(a0, stored) == is_asked_for(query, stored.run));
        assert(all_hold(a1, stored) == (all_hold(a0, stored) && !stored.is_replaced));
        let marked = asked(a1, Some(Ask::IsNotMarked));
        assert(all_hold(marked, stored) == (all_hold(a1, stored) && !stored.is_marked));
        assert(all_hold(asked(marked, Some(Ask::IsNotOnRecord)), stored) == (all_hold(
            marked,
            stored,
        ) && !stored.is_on_record));
        assert(all_hold(asks, stored) == (all_hold(a2, stored) && opt_ask_holds(
            since_ask(cutoff),
            stored,
        )));
    }
}

/// Predicates are put together by `AND`: one more is one more that has to be true. With none,
/// every row is taken.
pub proof fn law_predicates_are_all_required(predicates: Seq<Seq<char>>, one: Seq<char>)
    ensures
        all_predicates(Seq::empty()) == "true"@,
        all_predicates(seq![one]) == one,
        predicates.len() > 0 ==> all_predicates(predicates.push(one)) == all_predicates(predicates)
            + " AND "@ + one,
{
    let more = predicates.push(one);
    assert(more.drop_last() =~= predicates);
}

/// Rows in the order of the newest first come in descending order, and else in ascending order.
pub proof fn law_newest_first_is_descending(newest_first: bool)
    ensures
        direction(newest_first) == "DESC"@ <==> newest_first,
        direction(newest_first) == "ASC"@ <==> !newest_first,
{
    reveal_strlit("DESC");
    reveal_strlit("ASC");
    assert("DESC"@.len() != "ASC"@.len());
}

/// The rows that are read from a segment are those of the runs that the query asks for, whatever
/// it says of roots and errors, which is asked of the latest version of a run alone.
pub proof fn law_source_leaves_out_roots_and_errors(query: Query)
    ensures
        source_predicate(query, None) == all_predicates(
            query_predicates(Query { is_root: None, error: None, ..query }, Seq::empty()),
        ),
{
}

/// One of several lists of things that are asked, each in parentheses.
pub open spec fn one_list_text(asks: Seq<Ask>) -> Seq<char> {
    "("@ + join(ask_texts(asks, Seq::empty()), " AND "@) + ")"@
}

pub open spec fn lists_texts(lists: Seq<Seq<Ask>>) -> Seq<Seq<char>> {
    lists.map_values(|asks: Seq<Ask>| one_list_text(asks))
}

/// Whether all that one of the lists asks is true of a run.
pub open spec fn some_list_holds(lists: Seq<Seq<Ask>>, stored: StoredRun) -> bool {
    exists|i: int| 0 <= i < lists.len() && all_hold(#[trigger] lists[i], stored)
}

/// Whether these are predicates of which one is true of just the runs that are wanted.
pub open spec fn one_asks_for(
    predicates: Seq<Seq<char>>,
    wanted: spec_fn(StoredRun) -> bool,
) -> bool {
    exists|lists: Seq<Seq<Ask>>|
        {
            &&& #[trigger] lists_texts(lists) == predicates
            &&& forall|stored: StoredRun| #[trigger]
                some_list_holds(lists, stored) == wanted(stored)
        }
}

proof fn lemma_join_of_three(a: Seq<char>, b: Seq<char>, c: Seq<char>, sep: Seq<char>)
    ensures
        join(seq![a, b, c], sep) == a + sep + b + sep + c,
{
    reveal_with_fuel(join, 3);
    assert(seq![a, b, c].drop_last() =~= seq![a, b]);
    assert(seq![a, b].drop_last() =~= seq![a]);
}

proof fn lemma_join_of_four(
    a: Seq<char>,
    b: Seq<char>,
    c: Seq<char>,
    d: Seq<char>,
    sep: Seq<char>,
)
    ensures
        join(seq![a, b, c, d], sep) == a + sep + b + sep + c + sep + d,
{
    lemma_join_of_three(a, b, c, sep);
    assert(seq![a, b, c, d].drop_last() =~= seq![a, b, c]);
}

spec fn span_asks(group: Spans) -> Seq<Ask> {
    seq![
        Ask::Is { column: TextColumn::Project, text: group.project_name },
        Ask::Is { column: TextColumn::Trace, text: group.trace_id },
        Ask::IsOneOf { column: TextColumn::Span, texts: group.span_ids },
    ]
}

proof fn lemma_span_asks(group: Spans)
    ensures
        one_list_text(span_asks(group)) == spans_predicate(Seq::empty(), group),
        forall|stored: StoredRun| #[trigger]
            all_hold(span_asks(group), stored) == (stored.run.project_name@ == group.project_name
                && stored.run.trace_id@ == group.trace_id && group.span_ids.contains(
                stored.run.span_id@,
            )),
{
    let asks = span_asks(group);
    let none = Seq::<char>::empty();
    let a = ask_text(asks[0], none);
    let b = ask_text(asks[1], none);
    let c = ask_text(asks[2], none);
    assert(ask_texts(asks, none) =~= seq![a, b, c]);
    lemma_join_of_three(a, b, c, " AND "@);
    reveal_strlit("project_name");
    reveal_strlit("trace_id");
    reveal_strlit("span_id");
    reveal_strlit(" = ");
    reveal_strlit(" IN (");
    reveal_strlit("project_name = ");
    reveal_strlit("trace_id = ");
    reveal_strlit("span_id IN (");
    reveal_strlit(")");
    reveal_strlit("))");
    assert("project_name"@ + " = "@ =~= "project_name = "@);
    assert("trace_id"@ + " = "@ =~= "trace_id = "@);
    assert("span_id"@ + " IN ("@ =~= "span_id IN ("@);
    assert(")"@ + ")"@ =~= "))"@);
    assert(one_list_text(asks) =~= "("@ + none + ("project_name"@ + " = "@) + literal(
        group.project_name,
    ) + " AND "@ + none + ("trace_id"@ + " = "@) + literal(group.trace_id) + " AND "@ + none + (
    "span_id"@ + " IN ("@) + literal_list(group.span_ids) + (")"@ + ")"@));
    assert forall|stored: StoredRun| #[trigger]
        all_hold(asks, stored) == (stored.run.project_name@ == group.project_name
            && stored.run.trace_id@ == group.trace_id && group.span_ids.contains(
            stored.run.span_id@,
        )) by {
        if all_hold(asks, stored) {
            assert(ask_holds(asks[0], stored));
            assert(ask_holds(asks[1], stored));
            assert(ask_holds(asks[2], stored));
        }
    }
}

/// Whether a key is one of a group.
pub open spec fn is_key_of(key: Key, group: Spans) -> bool {
    group.project_name == key.project_name && group.trace_id == key.trace_id
        && group.span_ids.contains(key.span_id)
}

proof fn lemma_grouped_by_trace(keys: Seq<Key>, key: Key)
    ensures
        keys.contains(key) <==> exists|g: int|
            0 <= g < grouped_by_trace(keys).len() && is_key_of(
                key,
                #[trigger] grouped_by_trace(keys)[g],
            ),
    decreases keys.len(),
{
    let groups = grouped_by_trace(keys);
    if keys.len() > 0 {
        let before = keys.drop_last();
        let last = keys.last();
        let done = grouped_by_trace(before);
        lemma_grouped_by_trace(before, key);
        let own = groups.len() - 1;
        let spans = groups[own].span_ids;
        assert(spans.last() == last.span_id);
        assert(spans[spans.len() - 1] == last.span_id);
        assert(is_key_of(last, groups[own]));
        assert(keys[keys.len() - 1] == last);
        let joined = groups.len() == done.len();
        if before.contains(key) {
            let k = choose|k: int| 0 <= k < before.len() && before[k] == key;
            assert(keys[k] == key);
            let g = choose|g: int| 0 <= g < done.len() && is_key_of(key, #[trigger] done[g]);
            if g < own {
                assert(groups[g] == done[g]);
            } else {
                let old_spans = done[g].span_ids;
                let i = choose|i: int| 0 <= i < old_spans.len() && old_spans[i] == key.span_id;
                assert(spans[i] == key.span_id);
                assert(is_key_of(key, groups[own]));
            }
        }
        if keys.contains(key) {
            let k = choose|k: int| 0 <= k < keys.len() && keys[k] == key;
            if k < before.len() {
                assert(before[k] == key);
            }
        }
        if exists|g: int| 0 <= g < groups.len() && is_key_of(key, #[trigger] groups[g]) {
            let g = choose|g: int| 0 <= g < groups.len() && is_key_of(key, #[trigger] groups[g]);
            if g < own {
                assert(done[g] == groups[g]);
            } else {
                let i = choose|i: int| 0 <= i < spans.len() && spans[i] == key.span_id;
                if i < spans.len() - 1 {
                    assert(joined);
                    assert(done[own].span_ids[i] == key.span_id);
                    assert(is_key_of(key, done[own]));
                } else {
                    assert(key == last);
                }
            }
        }
    }
}

/// The predicate of candidate keys is one of several, which together are true of the runs with
/// one of those keys, and of no others.
pub proof fn law_candidates_ask_for_their_keys(keys: Seq<Key>)
    requires
        keys.len() > 0,
    ensures
        candidates_predicate(Some(keys)) == Some(
            "("@ + join(keys_predicates(Seq::empty(), keys), " OR "@) + ")"@,
        ),
        one_asks_for(
            keys_predicates(Seq::empty(), keys),
            |stored: StoredRun| keys.contains(run_key(stored.run)),
        ),
{
    let ordered = ordered_set(keys, key_order());
    let groups = grouped_by_trace(ordered);
    let lists = groups.map_values(|group: Spans| span_asks(group));
    let wanted = |stored: StoredRun| keys.contains(run_key(stored.run));
    law_key_order();
    law_ordered_set_holds_its_elements(keys, key_order());
    assert forall|g: int| 0 <= g < groups.len() implies #[trigger] lists_texts(lists)[g]
        == spans_predicates(Seq::empty(), groups)[g] by {
        lemma_span_asks(groups[g]);
    }
    assert(lists_texts(lists) =~= keys_predicates(Seq::empty(), keys));
    assert forall|stored: StoredRun| #[trigger] some_list_holds(lists, stored) == wanted(
        stored,
    ) by {
        let key = run_key(stored.run);
        lemma_grouped_by_trace(ordered, key);
        assert(ordered.contains(key) <==> keys.contains(key));
        if some_list_holds(lists, stored) {
            let g = choose|g: int| 0 <= g < lists.len() && all_hold(#[trigger] lists[g], stored);
            lemma_span_asks(groups[g]);
            assert(is_key_of(key, groups[g]));
        }
        if keys.contains(key) {
            let g = choose|g: int| 0 <= g < groups.len() && is_key_of(key, #[trigger] groups[g]);
            lemma_span_asks(groups[g]);
            assert(all_hold(lists[g], stored));
        }
    }
}

spec fn row_asks(row: SegmentCandidateRow) -> Seq<Ask> {
    seq![
        Ask::Is { column: TextColumn::Project, text: row.project_name@ },
        Ask::Is { column: TextColumn::Trace, text: row.trace_id@ },
        Ask::Is { column: TextColumn::Span, text: row.span_id@ },
        Ask::IsInRow(row.row_index as int),
    ]
}

/// Whether a candidate row is that of a run.
pub open spec fn is_row_of(row: SegmentCandidateRow, stored: StoredRun) -> bool {
    &&& row.project_name@ == stored.run.project_name@
    &&& row.trace_id@ == stored.run.trace_id@
    &&& row.span_id@ == stored.run.span_id@
    &&& row.row_index == stored.row
}

proof fn lemma_row_asks(row: SegmentCandidateRow)
    ensures
        one_list_text(row_asks(row)) == row_predicate(row),
        forall|stored: StoredRun| #[trigger]
            all_hold(row_asks(row), stored) == is_row_of(row, stored),
{
    let asks = row_asks(row);
    let none = Seq::<char>::empty();
    let a = ask_text(asks[0], none);
    let b = ask_text(asks[1], none);
    let c = ask_text(asks[2], none);
    let d = ask_text(asks[3], none);
    assert(ask_texts(asks, none) =~= seq![a, b, c, d]);
    lemma_join_of_four(a, b, c, d, " AND "@);
    reveal_strlit("(");
    reveal_strlit("project_name");
    reveal_strlit("trace_id");
    reveal_strlit("span_id");
    reveal_strlit("row_index");
    reveal_strlit(" = ");
    reveal_strlit(" AND ");
    reveal_strlit("(project_name = ");
    reveal_strlit(" AND trace_id = ");
    reveal_strlit(" AND span_id = ");
    reveal_strlit(" AND row_index = ");
    assert("("@ + "project_name"@ + " = "@ =~= "(project_name = "@);
    assert(" AND "@ + "trace_id"@ + " = "@ =~= " AND trace_id = "@);
    assert(" AND "@ + "span_id"@ + " = "@ =~= " AND span_id = "@);
    assert(" AND "@ + "row_index"@ + " = "@ =~= " AND row_index = "@);
    assert(one_list_text(asks) =~= ("("@ + "project_name"@ + " = "@) + literal(row.project_name@)
        + (" AND "@ + "trace_id"@ + " = "@) + literal(row.trace_id@) + (" AND "@ + "span_id"@
        + " = "@) + literal(row.span_id@) + (" AND "@ + "row_index"@ + " = "@) + int_text(
        row.row_index as int,
    ) + ")"@);
    assert forall|stored: StoredRun| #[trigger] all_hold(asks, stored) == is_row_of(
        row,
        stored,
    ) by {
        if all_hold(asks, stored) {
            assert(ask_holds(asks[0], stored));
            assert(ask_holds(asks[1], stored));
            assert(ask_holds(asks[2], stored));
            assert(ask_holds(asks[3], stored));
        }
    }
}

/// The predicate of the candidate rows of a segment is one of several, which together are true of
/// those rows, and of no others; what else is asked of a row has to be true as well.
pub proof fn law_candidate_rows_are_asked_for(rows: Seq<SegmentCandidateRow>, source: Seq<char>)
    ensures
        rows.len() > 0 ==> segment_predicate(rows, source) == "("@ + source + ") AND ("@ + join(
            row_predicates(rows),
            " OR "@,
        ) + ")"@,
        rows.len() == 0 ==> segment_predicate(rows, source) == source,
        one_asks_for(
            row_predicates(rows),
            |stored: StoredRun|
                exists|i: int| 0 <= i < rows.len() && is_row_of(#[trigger] rows[i], stored),
        ),
{
    let lists = rows.map_values(|row: SegmentCandidateRow| row_asks(row));
    let wanted = |stored: StoredRun|
        exists|i: int| 0 <= i < rows.len() && is_row_of(#[trigger] rows[i], stored);
    assert forall|i: int| 0 <= i < rows.len() implies #[trigger] lists_texts(lists)[i]
        == row_predicates(rows)[i] by {
        lemma_row_asks(rows[i]);
    }
    assert(lists_texts(lists) =~= row_predicates(rows));
    assert forall|stored: StoredRun| #[trigger] some_list_holds(lists, stored) == wanted(
        stored,
    ) by {
        if some_list_holds(lists, stored) {
            let i = choose|i: int| 0 <= i < lists.len() && all_hold(#[trigger] lists[i], stored);
            lemma_row_asks(rows[i]);
            assert(is_row_of(rows[i], stored));
        }
        if wanted(stored) {
            let i = choose|i: int| 0 <= i < rows.len() && is_row_of(#[trigger] rows[i], stored);
            lemma_row_asks(rows[i]);
            assert(all_hold(lists[i], stored));
        }
    }
}

/// The payload is read just if it is asked for; and without it every run has the same.
pub proof fn law_payload_is_read_if_asked_for(include_payload: bool)
    ensures
        payload_column(include_payload) == "attributes_json"@ <==> include_payload,
        payload_column(include_payload) == "'{}' AS attributes_json"@ <==> !include_payload,
{
    reveal_strlit("attributes_json");
    reveal_strlit("'{}' AS attributes_json");
    assert("attributes_json"@.len() != "'{}' AS attributes_json"@.len());
}

/// A number of rows is cut off, or skipped, just if one is asked for, and that number.
pub proof fn law_limit_and_offset_are_as_asked(a: Option<usize>, b: Option<usize>)
    ensures
        limit_clause(a) == limit_clause(b) ==> a == b,
        offset_clause(a) == offset_clause(b) ==> a == b || (a is None || a == Some(0usize)) && (
        b is None || b == Some(0usize)),
        limit_clause(None).len() == 0,
        offset_clause(None).len() == 0,
{
    reveal_strlit(" LIMIT ");
    reveal_strlit(" OFFSET ");
    let limit = " LIMIT "@;
    let offset = " OFFSET "@;
    if a is Some && b is Some {
        let x = nat_text(a->0 as nat);
        let y = nat_text(b->0 as nat);
        law_number_text_is_digits(a->0 as nat);
        if limit + x == limit + y {
            assert((limit + x).skip(limit.len() as int) =~= x);
            assert((limit + y).skip(limit.len() as int) =~= y);
        }
        if offset + x == offset + y {
            assert((offset + x).skip(offset.len() as int) =~= x);
            assert((offset + y).skip(offset.len() as int) =~= y);
        }
    }
    if a is Some {
        assert((limit + nat_text(a->0 as nat)).len() > 0);
        assert((offset + nat_text(a->0 as nat)).len() > 0);
    }
    if b is Some {
        assert((limit + nat_text(b->0 as nat)).len() > 0);
        assert((offset + nat_text(b->0 as nat)).len() > 0);
    }
}

/// Whether what a filter asks of the heads of runs can be asked.
pub open spec fn can_ask_heads(filter: Filter) -> bool {
    scalar_part(filter) matches Ok(part) && (part matches Some(asked_part) ==> is_supported(
        asked_part,
    ))
}

/// The condition on the heads of runs asks for all that the query asks of them, and for what its
/// filters do as well; it is refused just if one of its filters asks what cannot be asked.
pub proof fn law_heads_are_asked_for_all(query: Query)
    ensures
        head_where(query) is Ok <==> {
            &&& query.filter matches Some(filter) ==> can_ask_heads(filter)
            &&& query.trace_filter matches Some(filter) ==> is_supported(filter)
        },
        head_where(query) matches Ok(sql) ==> exists|more: Seq<Seq<char>>|
            {
                &&& sql == join(#[trigger] (head_predicates(query) + more), " AND "@)
                &&& more.len() <= 2
                &&& query.filter is None && query.trace_filter is None ==> more.len() == 0
                &&& query.trace_filter is Some ==> more.len() > 0
                &&& query.filter matches Some(filter) ==> (scalar_part(filter)->Ok_0 matches Some(
                    part,
                ) ==> more.len() > 0 && predicate_of(
                    part,
                    "run_heads"@,
                    Some(query.project_names),
                ) == Ok::<_, Fault>(more[0]))
            },
{
    let p0 = head_predicates(query);
    let pre: Seq<Seq<char>> = match query.filter {
        Some(filter) => match prefilter_of(filter, "run_heads"@, query.project_names) {
            Ok(Some(predicate)) => seq![predicate],
            _ => Seq::empty(),
        },
        None => Seq::empty(),
    };
    if query.filter is Some {
        let filter = query.filter->0;
        if scalar_part(filter) is Ok && scalar_part(filter)->Ok_0 is Some {
            law_predicate_says_what_the_filter_says(
                scalar_part(filter)->Ok_0->0,
                "run_heads"@,
                Some(query.project_names),
            );
        }
    }
    let post: Seq<Seq<char>> = match query.trace_filter {
        Some(filter) => match predicate_of(filter, "root_filter"@, None) {
            Ok(predicate) => seq![root_exists(predicate)],
            _ => Seq::empty(),
        },
        None => Seq::empty(),
    };
    if query.trace_filter is Some {
        law_predicate_says_what_the_filter_says(query.trace_filter->0, "root_filter"@, None);
    }
    if head_where(query) is Ok {
        let more = pre + post;
        assert(p0 + pre =~= with(
            p0,
            if pre.len() > 0 {
                Some(pre[0])
            } else {
                None
            },
        ));
        if post.len() > 0 {
            assert(p0 + more =~= (p0 + pre).push(post[0]));
        } else {
            assert(p0 + more =~= p0 + pre);
        }
        assert(head_where(query)->Ok_0 == join(p0 + more, " AND "@));
    }
}

} // verus!
