//! Which rollups answer an aggregate.

use crate::query::aggregates::AggregateQuery;
use crate::query::aggregates::RunAggregateSource;
use crate::query::aggregates::rollups::FEEDBACK_ROLLUP_COLUMNS_SQL;
use crate::query::aggregates::rollups::RUN_ROLLUP_COLUMNS_SQL;
use crate::query::aggregates::rollups::RollupKind;
use crate::query::aggregates::rollups::rollup_predicates;
use crate::query::aggregates::rollups::rollup_source;
use crate::query::aggregates::rollups::rollup_word;
use crate::query::aggregates::rollups::rollups_sql;
use crate::query::number_is;
use crate::query::text_in;
use crate::query::text_is;
use crate::sql::doubled_quotes;
use crate::sql::literal;
use crate::sql::literal_list;
use crate::text::int_text;
use crate::text::join;
use crate::text::with;
use vstd::prelude::*;

verus! {

/// A rollup, as the database holds it: of which project and hour it is, what kind of rollup it is
/// and of which group, and of which feedback key, if it is one of scores.
pub struct RollupRow {
    pub project_name: Seq<char>,
    pub bucket_size: int,
    pub bucket_start: int,
    pub kind: Seq<char>,
    pub group_value: Seq<char>,
    pub feedback_key: Seq<char>,
}

/// One thing that is asked of a rollup.
pub enum RollupAsk {
    ProjectIsOneOf(Seq<Seq<char>>),
    SizeIs(int),
    StartsAtOrAfter(int),
    StartsAtOrBefore(int),
    KindIs(Seq<char>),
    GroupIs(Seq<char>),
    KeyIsOneOf(Seq<Seq<char>>),
}

/// How it is asked in SQL.
pub open spec fn rollup_ask_text(ask: RollupAsk) -> Seq<char> {
    match ask {
        RollupAsk::ProjectIsOneOf(names) => "project_name IN ("@ + literal_list(names) + ")"@,
        RollupAsk::SizeIs(size) => "bucket_size_unix_nanos = "@ + int_text(size),
        RollupAsk::StartsAtOrAfter(time) => "time_bucket_start_unix_nano"@ + " >= "@ + int_text(
            time,
        ),
        RollupAsk::StartsAtOrBefore(time) => "time_bucket_start_unix_nano"@ + " <= "@ + int_text(
            time,
        ),
        RollupAsk::KindIs(word) => "rollup_kind = "@ + literal(word),
        RollupAsk::GroupIs(value) => "group_value"@ + " = "@ + literal(value),
        RollupAsk::KeyIsOneOf(keys) => "feedback_key"@ + " IN ("@ + literal_list(keys) + ")"@,
    }
}

pub open spec fn rollup_ask_texts(asks: Seq<RollupAsk>) -> Seq<Seq<char>> {
    asks.map_values(|ask: RollupAsk| rollup_ask_text(ask))
}

/// Whether it is true of a rollup.
pub open spec fn rollup_ask_holds(ask: RollupAsk, row: RollupRow) -> bool {
    match ask {
        RollupAsk::ProjectIsOneOf(names) => names.contains(row.project_name),
        RollupAsk::SizeIs(size) => row.bucket_size == size,
        RollupAsk::StartsAtOrAfter(time) => row.bucket_start >= time,
        RollupAsk::StartsAtOrBefore(time) => row.bucket_start <= time,
        RollupAsk::KindIs(word) => row.kind == word,
        RollupAsk::GroupIs(value) => row.group_value == value,
        RollupAsk::KeyIsOneOf(keys) => keys.contains(row.feedback_key),
    }
}

pub open spec fn all_rollup_asks_hold(asks: Seq<RollupAsk>, row: RollupRow) -> bool {
    forall|i: int| 0 <= i < asks.len() ==> rollup_ask_holds(#[trigger] asks[i], row)
}

/// Whether a rollup is one that answers a query: it is of one of the projects, of an hour that
/// starts in the time that is asked for, and of the kind; of the type of run that is asked for,
/// or of the errors, or of the others, if the kind tells them apart; and of one of the keys that
/// are asked for, if any are, if it is one of scores.
pub open spec fn answers_query(query: AggregateQuery, kind: RollupKind, row: RollupRow) -> bool {
    &&& query.project_names.contains(row.project_name)
    &&& row.bucket_size == 3_600_000_000_000
    &&& query.start_time_min_unix_nano matches Some(time) ==> time <= row.bucket_start
    &&& query.start_time_max_unix_nano matches Some(time) ==> row.bucket_start <= time
    &&& kind != RollupKind::Feedback ==> row.kind == rollup_word(kind)
    &&& kind == RollupKind::RunType ==> (query.run_type matches Some(word) ==> row.group_value
        == word)
    &&& kind == RollupKind::Error ==> (query.error matches Some(failed) ==> row.group_value == (
    if failed {
        "true"@
    } else {
        "false"@
    }))
    &&& kind == RollupKind::Feedback ==> (query.feedback_keys.len() > 0
        ==> query.feedback_keys.contains(row.feedback_key))
}

spec fn rollup_asked(asks: Seq<RollupAsk>, ask: Option<RollupAsk>) -> Seq<RollupAsk> {
    match ask {
        Some(one) => asks.push(one),
        None => asks,
    }
}

spec fn opt_rollup_text(ask: Option<RollupAsk>) -> Option<Seq<char>> {
    match ask {
        Some(one) => Some(rollup_ask_text(one)),
        None => None,
    }
}

spec fn opt_rollup_holds(ask: Option<RollupAsk>, row: RollupRow) -> bool {
    match ask {
        Some(one) => rollup_ask_holds(one, row),
        None => true,
    }
}

proof fn lemma_rollup_asked(asks: Seq<RollupAsk>, ask: Option<RollupAsk>)
    ensures
        rollup_ask_texts(rollup_asked(asks, ask)) == with(
            rollup_ask_texts(asks),
            opt_rollup_text(ask),
        ),
        forall|row: RollupRow| #[trigger]
            all_rollup_asks_hold(rollup_asked(asks, ask), row) == (all_rollup_asks_hold(asks, row)
                && opt_rollup_holds(ask, row)),
{
    assert(rollup_ask_texts(rollup_asked(asks, ask)) =~= with(
        rollup_ask_texts(asks),
        opt_rollup_text(ask),
    ));
    if ask is Some {
        let more = asks.push(ask->0);
        assert forall|row: RollupRow| #[trigger] all_rollup_asks_hold(more, row) == (
        all_rollup_asks_hold(asks, row) && rollup_ask_holds(ask->0, row)) by {
            if all_rollup_asks_hold(more, row) {
                assert forall|i: int| 0 <= i < asks.len() implies rollup_ask_holds(
                    #[trigger] asks[i],
                    row,
                ) by {
                    assert(more[i] == asks[i]);
                }
                assert(more[asks.len() as int] == ask->0);
            }
        }
    }
}

spec fn after_ask(time: Option<i64>) -> Option<RollupAsk> {
    match time {
        Some(n) => Some(RollupAsk::StartsAtOrAfter(n as int)),
        None => None,
    }
}

spec fn before_ask(time: Option<i64>) -> Option<RollupAsk> {
    match time {
        Some(n) => Some(RollupAsk::StartsAtOrBefore(n as int)),
        None => None,
    }
}

spec fn kind_ask(kind: RollupKind) -> Option<RollupAsk> {
    if kind == RollupKind::Feedback {
        None
    } else {
        Some(RollupAsk::KindIs(rollup_word(kind)))
    }
}

spec fn group_ask(query: AggregateQuery, kind: RollupKind) -> Option<RollupAsk> {
    if kind == RollupKind::RunType {
        match query.run_type {
            Some(word) => Some(RollupAsk::GroupIs(word)),
            None => None,
        }
    } else if kind == RollupKind::Error {
        match query.error {
            Some(failed) => Some(
                RollupAsk::GroupIs(
                    if failed {
                        "true"@
                    } else {
                        "false"@
                    },
                ),
            ),
            None => None,
        }
    } else if kind == RollupKind::Feedback && query.feedback_keys.len() > 0 {
        Some(RollupAsk::KeyIsOneOf(query.feedback_keys))
    } else {
        None
    }
}

proof fn lemma_flag_texts()
    ensures
        "group_value"@ + " = "@ + literal("true"@) == "group_value = 'true'"@,
        "group_value"@ + " = "@ + literal("false"@) == "group_value = 'false'"@,
{
    let yes = "true"@;
    let no = "false"@;
    reveal_strlit("true");
    reveal_strlit("false");
    reveal_strlit("group_value");
    reveal_strlit(" = ");
    reveal_strlit("group_value = 'true'");
    reveal_strlit("group_value = 'false'");
    reveal_with_fuel(doubled_quotes, 6);
    assert(doubled_quotes(yes) =~= yes);
    assert(doubled_quotes(no) =~= no);
    assert("group_value"@ + " = "@ + literal(yes) =~= "group_value = 'true'"@);
    assert("group_value"@ + " = "@ + literal(no) =~= "group_value = 'false'"@);
}

/// What a text is between a beginning and an end of it.
pub open spec fn is_between(text: Seq<char>, inside: Seq<char>) -> bool {
    exists|before: Seq<char>, after: Seq<char>| text == #[trigger] (before + inside + after)
}

/// The statement for the rollups of an aggregate asks, all at once, for the rollups that answer it
/// and for no others.
pub proof fn law_rollups_are_asked_for(query: AggregateQuery, kind: RollupKind)
    ensures
        exists|asks: Seq<RollupAsk>|
            {
                &&& is_between(
                    rollups_sql(query, kind),
                    join(#[trigger] rollup_ask_texts(asks), " AND "@),
                )
                &&& forall|row: RollupRow| #[trigger]
                    all_rollup_asks_hold(asks, row) == answers_query(query, kind, row)
            },
        rollup_source(kind) == RunAggregateSource::FeedbackRollup <==> kind == RollupKind::Feedback,
        rollup_source(kind) == RunAggregateSource::Rollup <==> kind != RollupKind::Feedback,
{
    let size = 3_600_000_000_000int;
    let none = Seq::<RollupAsk>::empty();
    let a0 = rollup_asked(none, Some(RollupAsk::ProjectIsOneOf(query.project_names)));
    let a1 = rollup_asked(a0, Some(RollupAsk::SizeIs(size)));
    let a2 = rollup_asked(a1, after_ask(query.start_time_min_unix_nano));
    let a3 = rollup_asked(a2, before_ask(query.start_time_max_unix_nano));
    let a4 = rollup_asked(a3, kind_ask(kind));
    let asks = rollup_asked(a4, group_ask(query, kind));
    assert(rollup_ask_texts(none) =~= Seq::<Seq<char>>::empty());
    lemma_rollup_asked(none, Some(RollupAsk::ProjectIsOneOf(query.project_names)));
    lemma_rollup_asked(a0, Some(RollupAsk::SizeIs(size)));
    lemma_rollup_asked(a1, after_ask(query.start_time_min_unix_nano));
    lemma_rollup_asked(a2, before_ask(query.start_time_max_unix_nano));
    lemma_rollup_asked(a3, kind_ask(kind));
    lemma_rollup_asked(a4, group_ask(query, kind));
    lemma_flag_texts();
    assert(rollup_ask_texts(a0) =~= seq![
        "project_name IN ("@ + literal_list(query.project_names) + ")"@,
    ]);
    assert(opt_rollup_text(after_ask(query.start_time_min_unix_nano)) == number_is(
        "time_bucket_start_unix_nano"@,
        " >= "@,
        query.start_time_min_unix_nano,
    ));
    assert(opt_rollup_text(before_ask(query.start_time_max_unix_nano)) == number_is(
        "time_bucket_start_unix_nano"@,
        " <= "@,
        query.start_time_max_unix_nano,
    ));
    assert(rollup_ask_texts(a3) == rollup_predicates(query));
    let inside = join(rollup_ask_texts(asks), " AND "@);
    let sql = rollups_sql(query, kind);
    if kind == RollupKind::Feedback {
        let end = "\n            ORDER BY project_name, time_bucket_start_unix_nano, feedback_key"@;
        assert(rollup_ask_texts(asks) == with(
            rollup_predicates(query),
            text_in("feedback_key"@, query.feedback_keys),
        ));
        assert(sql == FEEDBACK_ROLLUP_COLUMNS_SQL@ + inside + end);
        assert(is_between(sql, inside));
    } else {
        let end =
            "\n        ORDER BY project_name, time_bucket_start_unix_nano, rollup_kind, group_value"@;
        let p1 = rollup_predicates(query).push("rollup_kind = "@ + literal(rollup_word(kind)));
        assert(rollup_ask_texts(a4) == p1);
        if kind == RollupKind::RunType {
            assert(rollup_ask_texts(asks) == with(p1, text_is("group_value"@, query.run_type)));
        }
        assert(sql == RUN_ROLLUP_COLUMNS_SQL@ + inside + end);
        assert(is_between(sql, inside));
    }
    assert forall|row: RollupRow| #[trigger] all_rollup_asks_hold(asks, row) == answers_query(
        query,
        kind,
        row,
    ) by {
        assert(all_rollup_asks_hold(none, row));
        assert(all_rollup_asks_hold(a0, row) == query.project_names.contains(row.project_name));
        assert(all_rollup_asks_hold(a1, row) == (all_rollup_asks_hold(a0, row) && row.bucket_size
            == size));
        assert(all_rollup_asks_hold(a2, row) == (all_rollup_asks_hold(a1, row)
            && opt_rollup_holds(after_ask(query.start_time_min_unix_nano), row)));
        assert(all_rollup_asks_hold(a3, row) == (all_rollup_asks_hold(a2, row)
            && opt_rollup_holds(before_ask(query.start_time_max_unix_nano), row)));
        assert(all_rollup_asks_hold(a4, row) == (all_rollup_asks_hold(a3, row)
            && opt_rollup_holds(kind_ask(kind), row)));
        assert(all_rollup_asks_hold(asks, row) == (all_rollup_asks_hold(a4, row)
            && opt_rollup_holds(group_ask(query, kind), row)));
    }
    assert(is_between(rollups_sql(query, kind), join(rollup_ask_texts(asks), " AND "@)));
}

} // verus!
