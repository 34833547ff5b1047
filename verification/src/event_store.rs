//! The questions that are put to the store of events.

use vstd::prelude::*;
use vstd::string::StringExecFns;
use crate::events::EventFilter;
use crate::text::option_text;

verus! {

/// A value that takes the place of a `?` in a query.
#[derive(Debug, Clone)]
pub enum SqlValue {
    Text(String),
    Integer(i64),
}

/// A query, with the values for its `?`s in order.
#[derive(Debug, Clone)]
pub struct SqlQuery {
    pub sql: String,
    pub params: Vec<SqlValue>,
}

/// A value as contracts speak of it.
pub enum SqlValueView {
    Text(Seq<char>),
    Integer(int),
}

impl View for SqlValue {
    type V = SqlValueView;

    open spec fn view(&self) -> SqlValueView {
        match self {
            SqlValue::Text(s) => SqlValueView::Text(s@),
            SqlValue::Integer(i) => SqlValueView::Integer(*i as int),
        }
    }
}

/// A query as contracts speak of it.
pub struct QueryView {
    pub sql: Seq<char>,
    pub params: Seq<SqlValueView>,
}

impl View for SqlQuery {
    type V = QueryView;

    open spec fn view(&self) -> QueryView {
        QueryView { sql: self.sql@, params: self.params@.map_values(|p: SqlValue| p@) }
    }
}

/// A filter as contracts speak of it.
pub struct FilterView {
    pub source: Option<Seq<char>>,
    pub case_id: Option<Seq<char>>,
    pub activity: Option<Seq<char>>,
    pub level: Option<Seq<char>>,
    pub node_id: Option<Seq<char>>,
    pub since: Option<Seq<char>>,
    pub until: Option<Seq<char>>,
    pub limit: Option<int>,
    pub offset: Option<int>,
    pub search: Option<Seq<char>>,
}

/// What a filter asks for.
pub open spec fn filter_view(f: EventFilter) -> FilterView {
    FilterView {
        source: option_text(f.source),
        case_id: option_text(f.case_id),
        activity: option_text(f.activity),
        level: option_text(f.level),
        node_id: option_text(f.node_id),
        since: option_text(f.since),
        until: option_text(f.until),
        limit: match f.limit {
            Some(n) => Some(n as int),
            None => None,
        },
        offset: match f.offset {
            Some(n) => Some(n as int),
            None => None,
        },
        search: option_text(f.search),
    }
}

/// A query with one more condition, which must equal the given text, where there is one.
pub open spec fn and_equal(q: QueryView, condition: Seq<char>, wanted: Option<Seq<char>>) -> QueryView {
    match wanted {
        Some(text) => QueryView {
            sql: q.sql + condition,
            params: q.params.push(SqlValueView::Text(text)),
        },
        None => q,
    }
}

/// A text to look for anywhere within a column.
pub open spec fn anywhere(text: Seq<char>) -> Seq<char> {
    "%"@ + text + "%"@
}

/// The conditions that a filter puts on events, added to the query `q`.
pub open spec fn with_conditions(q: QueryView, f: FilterView) -> QueryView {
    let q1 = and_equal(q, " AND source = ?"@, f.source);
    let q2 = and_equal(q1, " AND case_id = ?"@, f.case_id);
    let q3 = match f.activity {
        Some(a) => and_equal(q2, " AND activity LIKE ?"@, Some(anywhere(a))),
        None => q2,
    };
    let q4 = and_equal(q3, " AND level = ?"@, f.level);
    let q5 = and_equal(q4, " AND node_id = ?"@, f.node_id);
    let q6 = and_equal(q5, " AND timestamp >= ?"@, f.since);
    let q7 = and_equal(q6, " AND timestamp <= ?"@, f.until);
    match f.search {
        Some(s) => QueryView {
            sql: q7.sql + " AND (activity LIKE ? OR message LIKE ? OR source LIKE ?)"@,
            params: q7.params.push(SqlValueView::Text(anywhere(s))).push(
                SqlValueView::Text(anywhere(s)),
            ).push(SqlValueView::Text(anywhere(s))),
        },
        None => q7,
    }
}

/// The query that selects the events of a filter: the newest first, at
/// most as many as the filter allows, or 500 where it does not say, and
/// from the offset on that it gives.
pub open spec fn select_query(f: FilterView) -> QueryView {
    let start = QueryView {
        sql: "SELECT id, timestamp, case_id, activity, source, level, node_id, message, attributes FROM events WHERE 1=1"@,
        params: Seq::empty(),
    };
    let q = with_conditions(start, f);
    let limited = QueryView {
        sql: q.sql + " ORDER BY id DESC"@ + " LIMIT ?"@,
        params: q.params.push(
            SqlValueView::Integer(
                match f.limit {
                    Some(n) => n,
                    None => 500,
                },
            ),
        ),
    };
    match f.offset {
        Some(n) => QueryView {
            sql: limited.sql + " OFFSET ?"@,
            params: limited.params.push(SqlValueView::Integer(n)),
        },
        None => limited,
    }
}

/// The query that counts the events of a filter.
pub open spec fn count_query(f: FilterView) -> QueryView {
    with_conditions(
        QueryView { sql: "SELECT COUNT(*) FROM events WHERE 1=1"@, params: Seq::empty() },
        f,
    )
}

/// Adds a condition and its value to a query, where there is a value.
fn add_equal(query: &mut SqlQuery, condition: &str, wanted: &Option<String>)
    ensures
        final(query)@ == and_equal(old(query)@, condition@, option_text(*wanted)),
{
    match wanted {
        Some(text) => {
            let ghost before = query.params@;
            query.sql.append(condition);
            query.params.push(SqlValue::Text(text.clone()));
            proof {
                before.lemma_push_map_commute(|p: SqlValue| p@, query.params@.last());
            }
        },
        None => {},
    }
}

/// The text to look for anywhere within a column.
fn pattern(text: &str) -> (out: String)
    ensures
        out@ == anywhere(text@),
{
    let mut out = String::from_str("%");
    out.append(text);
    out.append("%");
    out
}

/// Adds a value to a query.
fn push_param(query: &mut SqlQuery, value: SqlValue)
    ensures
        final(query)@ == (QueryView { sql: old(query)@.sql, params: old(query)@.params.push(value@) }),
{
    let ghost before = query.params@;
    query.params.push(value);
    proof {
        before.lemma_push_map_commute(|p: SqlValue| p@, query.params@.last());
    }
}

/// Adds the conditions of a filter to a query.
fn add_conditions(query: &mut SqlQuery, filter: &EventFilter)
    ensures
        final(query)@ == with_conditions(old(query)@, filter_view(*filter)),
{
    add_equal(query, " AND source = ?", &filter.source);
    add_equal(query, " AND case_id = ?", &filter.case_id);
    match &filter.activity {
        Some(a) => {
            let wanted = Some(pattern(a.as_str()));
            add_equal(query, " AND activity LIKE ?", &wanted);
        },
        None => {},
    }
    add_equal(query, " AND level = ?", &filter.level);
    add_equal(query, " AND node_id = ?", &filter.node_id);
    add_equal(query, " AND timestamp >= ?", &filter.since);
    add_equal(query, " AND timestamp <= ?", &filter.until);
    match &filter.search {
        Some(s) => {
            query.sql.append(" AND (activity LIKE ? OR message LIKE ? OR source LIKE ?)");
            push_param(query, SqlValue::Text(pattern(s.as_str())));
            push_param(query, SqlValue::Text(pattern(s.as_str())));
            push_param(query, SqlValue::Text(pattern(s.as_str())));
        },
        None => {},
    }
}

/// A query without values.
fn empty_query(sql: &str) -> (query: SqlQuery)
    ensures
        query@ == (QueryView { sql: sql@, params: Seq::empty() }),
{
    let query = SqlQuery { sql: String::from_str(sql), params: Vec::new() };
    assert(query@.params =~= Seq::<SqlValueView>::empty());
    query
}

/// The query that selects the events that a filter asks for.
pub fn query_sql(filter: &EventFilter) -> (query: SqlQuery)
    ensures
        query@ == select_query(filter_view(*filter)),
{
    let mut query = empty_query(
        "SELECT id, timestamp, case_id, activity, source, level, node_id, message, attributes FROM events WHERE 1=1",
    );
    add_conditions(&mut query, filter);
    query.sql.append(" ORDER BY id DESC");
    query.sql.append(" LIMIT ?");
    let limit = match filter.limit {
        Some(n) => n,
        None => 500,
    };
    push_param(&mut query, SqlValue::Integer(limit));
    match filter.offset {
        Some(n) => {
            query.sql.append(" OFFSET ?");
            push_param(&mut query, SqlValue::Integer(n));
        },
        None => {},
    }
    query
}

/// The query that counts the events that a filter asks for.
pub fn count_sql(filter: &EventFilter) -> (query: SqlQuery)
    ensures
        query@ == count_query(filter_view(*filter)),
{
    let mut query = empty_query("SELECT COUNT(*) FROM events WHERE 1=1");
    add_conditions(&mut query, filter);
    query
}

} // verus!
