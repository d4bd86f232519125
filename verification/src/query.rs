//! Plain query values for the four row-level statement forms.

use vstd::prelude::*;

use crate::sql::{kind_keyword, matches_keyword, starts_with_keyword, StatementKind};
use crate::text::str_to_chars;

verus! {

/// Errors from building or executing a query.
#[derive(Debug)]
pub enum QueryError {
    /// The text starts with none of the four query keywords.
    NoMethodInQuery,
    /// The query is not the expected variant.
    InvalidQuery { expected_variant: Query },
    /// The connection configuration could not be loaded.
    FailedToConnect(String),
    /// The server refused or failed the query.
    Execution(String),
    /// A general error carrying a message.
    Other(String),
}

/// A row-level query, classified by its leading keyword and carrying its
/// full text.
#[derive(Debug)]
pub enum Query {
    Select(String),
    Insert(String),
    Update(String),
    Delete(String),
}

impl Clone for Query {
    /// A clone carries the same variant and text.
    fn clone(&self) -> (r: Query)
        ensures
            r == *self,
    {
        match self {
            Query::Select(s) => Query::Select(s.clone()),
            Query::Insert(s) => Query::Insert(s.clone()),
            Query::Update(s) => Query::Update(s.clone()),
            Query::Delete(s) => Query::Delete(s.clone()),
        }
    }
}

/// The query kind of a text: SELECT, INSERT, UPDATE and DELETE are tried in
/// that order; `None` when none matches.
pub open spec fn query_kind_of(s: Seq<char>) -> Option<StatementKind> {
    if starts_with_keyword(s, kind_keyword(StatementKind::Select)) {
        Some(StatementKind::Select)
    } else if starts_with_keyword(s, kind_keyword(StatementKind::Insert)) {
        Some(StatementKind::Insert)
    } else if starts_with_keyword(s, kind_keyword(StatementKind::Update)) {
        Some(StatementKind::Update)
    } else if starts_with_keyword(s, kind_keyword(StatementKind::Delete)) {
        Some(StatementKind::Delete)
    } else {
        None
    }
}

impl Query {
    /// The kind of this query.
    pub open spec fn spec_kind(&self) -> StatementKind {
        match self {
            Query::Select(_) => StatementKind::Select,
            Query::Insert(_) => StatementKind::Insert,
            Query::Update(_) => StatementKind::Update,
            Query::Delete(_) => StatementKind::Delete,
        }
    }

    /// The query's text.
    pub open spec fn spec_text(&self) -> Seq<char> {
        match self {
            Query::Select(s) => s@,
            Query::Insert(s) => s@,
            Query::Update(s) => s@,
            Query::Delete(s) => s@,
        }
    }

    /// Classifies a query text by its leading keyword; text matching none of
    /// the four query keywords is rejected.
    pub fn from(query: &str) -> (r: Result<Query, QueryError>)
        ensures
            match r {
                Ok(q) => query_kind_of(query@) == Some(q.spec_kind()) && q.spec_text() == query@,
                Err(e) => query_kind_of(query@) is None && e == QueryError::NoMethodInQuery,
            },
    {
        let chars = str_to_chars(query);
        proof {
            reveal_strlit("select");
            reveal_strlit("insert");
            reveal_strlit("update");
            reveal_strlit("delete");
            assert("select"@ =~= kind_keyword(StatementKind::Select));
            assert("insert"@ =~= kind_keyword(StatementKind::Insert));
            assert("update"@ =~= kind_keyword(StatementKind::Update));
            assert("delete"@ =~= kind_keyword(StatementKind::Delete));
        }
        if matches_keyword(&chars, "select") {
            Ok(Query::Select(query.to_owned()))
        } else if matches_keyword(&chars, "insert") {
            Ok(Query::Insert(query.to_owned()))
        } else if matches_keyword(&chars, "update") {
            Ok(Query::Update(query.to_owned()))
        } else if matches_keyword(&chars, "delete") {
            Ok(Query::Delete(query.to_owned()))
        } else {
            Err(QueryError::NoMethodInQuery)
        }
    }
}

} // verus!
