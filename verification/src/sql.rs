//! SQL statement classification and multi-statement tokenizing.
//!
//! A statement is classified, case-insensitively, by the keyword it starts
//! with: CREATE, ALTER, DROP, TRUNCATE, SHOW (schema definition), SELECT
//! (data query), INSERT, UPDATE, DELETE (data manipulation), GRANT, REVOKE
//! (access control).  The stored text is the full input, unchanged.
//!
//! The tokenizer splits a character stream into statements at top-level `;`
//! terminators, discarding `--` line comments, collapsing whitespace runs to
//! a single space, and passing quoted strings through verbatim.

use vstd::prelude::*;

use crate::text::{chars_to_string, lower_char, str_to_chars, to_lower};

verus! {

/// Errors from building or executing a SQL statement value.
#[derive(Debug)]
pub enum SQLError {
    /// The text does not start with any recognized statement keyword.
    NotValidCMD,
    /// The statement is not the expected variant of `SQL`.
    InvalidQuery { expected_variant: SQL },
    /// A general error carrying a message.
    Other(String),
}

/// A schema-definition (DDL) statement's text.
#[derive(Debug)]
pub struct DDL(pub String);

impl Clone for DDL {
    /// A clone carries the same text.
    fn clone(&self) -> (r: DDL)
        ensures
            r == *self,
    {
        DDL(self.0.clone())
    }
}

/// A data-query (DQL) statement's text.
#[derive(Debug)]
pub struct QDL(pub String);

impl Clone for QDL {
    /// A clone carries the same text.
    fn clone(&self) -> (r: QDL)
        ensures
            r == *self,
    {
        QDL(self.0.clone())
    }
}

/// A data-manipulation (DML) statement's text.
#[derive(Debug)]
pub struct QML(pub String);

impl Clone for QML {
    /// A clone carries the same text.
    fn clone(&self) -> (r: QML)
        ensures
            r == *self,
    {
        QML(self.0.clone())
    }
}

/// An access-control (DCL) statement's text.
#[derive(Debug)]
pub struct DCL(pub String);

impl Clone for DCL {
    /// A clone carries the same text.
    fn clone(&self) -> (r: DCL)
        ensures
            r == *self,
    {
        DCL(self.0.clone())
    }
}

impl PartialEq for DDL {
    fn eq(&self, other: &DDL) -> (r: bool) {
        self.0 == other.0
    }
}

impl Eq for DDL {

}

impl vstd::std_specs::cmp::PartialEqSpecImpl for DDL {
    open spec fn obeys_eq_spec() -> bool {
        true
    }

    open spec fn eq_spec(&self, other: &DDL) -> bool {
        self.0@ == other.0@
    }
}

impl PartialEq for QDL {
    fn eq(&self, other: &QDL) -> (r: bool) {
        self.0 == other.0
    }
}

impl Eq for QDL {

}

impl vstd::std_specs::cmp::PartialEqSpecImpl for QDL {
    open spec fn obeys_eq_spec() -> bool {
        true
    }

    open spec fn eq_spec(&self, other: &QDL) -> bool {
        self.0@ == other.0@
    }
}

impl PartialEq for QML {
    fn eq(&self, other: &QML) -> (r: bool) {
        self.0 == other.0
    }
}

impl Eq for QML {

}

impl vstd::std_specs::cmp::PartialEqSpecImpl for QML {
    open spec fn obeys_eq_spec() -> bool {
        true
    }

    open spec fn eq_spec(&self, other: &QML) -> bool {
        self.0@ == other.0@
    }
}

impl PartialEq for DCL {
    fn eq(&self, other: &DCL) -> (r: bool) {
        self.0 == other.0
    }
}

impl Eq for DCL {

}

impl vstd::std_specs::cmp::PartialEqSpecImpl for DCL {
    open spec fn obeys_eq_spec() -> bool {
        true
    }

    open spec fn eq_spec(&self, other: &DCL) -> bool {
        self.0@ == other.0@
    }
}

/// A classified SQL statement: one variant per recognized keyword, carrying
/// the full statement text.
#[derive(Debug)]
pub enum SQL {
    Create(DDL),
    Alter(DDL),
    Drop(DDL),
    Truncate(DDL),
    Show(DDL),
    Select(QDL),
    Insert(QML),
    Update(QML),
    Delete(QML),
    Grant(DCL),
    Revoke(DCL),
}

impl Clone for SQL {
    /// A clone carries the same variant and text.
    fn clone(&self) -> (r: SQL)
        ensures
            r == *self,
    {
        match self {
            SQL::Create(d) => SQL::Create(d.clone()),
            SQL::Alter(d) => SQL::Alter(d.clone()),
            SQL::Drop(d) => SQL::Drop(d.clone()),
            SQL::Truncate(d) => SQL::Truncate(d.clone()),
            SQL::Show(d) => SQL::Show(d.clone()),
            SQL::Select(q) => SQL::Select(q.clone()),
            SQL::Insert(q) => SQL::Insert(q.clone()),
            SQL::Update(q) => SQL::Update(q.clone()),
            SQL::Delete(q) => SQL::Delete(q.clone()),
            SQL::Grant(c) => SQL::Grant(c.clone()),
            SQL::Revoke(c) => SQL::Revoke(c.clone()),
        }
    }
}

/// The four statement languages, by the category of the leading keyword.
#[derive(Debug, Clone, Copy, PartialEq, Eq, Structural)]
pub enum SQLLanguage {
    DDL,
    QDL,
    QML,
    DCL,
}

/// The eleven recognized statement keywords, as classification results.
#[derive(Debug, Clone, Copy, PartialEq, Eq, Structural)]
pub enum StatementKind {
    Create,
    Alter,
    Drop,
    Truncate,
    Show,
    Select,
    Insert,
    Update,
    Delete,
    Grant,
    Revoke,
}

/// The lower-case keyword that announces each statement kind.
pub open spec fn kind_keyword(k: StatementKind) -> Seq<char> {
    match k {
        StatementKind::Create => seq!['c', 'r', 'e', 'a', 't', 'e'],
        StatementKind::Alter => seq!['a', 'l', 't', 'e', 'r'],
        StatementKind::Drop => seq!['d', 'r', 'o', 'p'],
        StatementKind::Truncate => seq!['t', 'r', 'u', 'n', 'c', 'a', 't', 'e'],
        StatementKind::Show => seq!['s', 'h', 'o', 'w'],
        StatementKind::Select => seq!['s', 'e', 'l', 'e', 'c', 't'],
        StatementKind::Insert => seq!['i', 'n', 's', 'e', 'r', 't'],
        StatementKind::Update => seq!['u', 'p', 'd', 'a', 't', 'e'],
        StatementKind::Delete => seq!['d', 'e', 'l', 'e', 't', 'e'],
        StatementKind::Grant => seq!['g', 'r', 'a', 'n', 't'],
        StatementKind::Revoke => seq!['r', 'e', 'v', 'o', 'k', 'e'],
    }
}

/// Whether `s` starts, case-insensitively, with the keyword `kw` followed by
/// one space and at least one further character.
pub open spec fn starts_with_keyword(s: Seq<char>, kw: Seq<char>) -> bool {
    &&& s.len() > kw.len() + 1
    &&& (forall|i: int| 0 <= i < kw.len() ==> lower_char(s[i]) == kw[i])
    &&& s[kw.len() as int] == ' '
}

/// The statement kind of a text, testing the keywords in the fixed priority
/// order; `None` when no keyword matches.
pub open spec fn kind_of(s: Seq<char>) -> Option<StatementKind> {
    if starts_with_keyword(s, kind_keyword(StatementKind::Create)) {
        Some(StatementKind::Create)
    } else if starts_with_keyword(s, kind_keyword(StatementKind::Alter)) {
        Some(StatementKind::Alter)
    } else if starts_with_keyword(s, kind_keyword(StatementKind::Drop)) {
        Some(StatementKind::Drop)
    } else if starts_with_keyword(s, kind_keyword(StatementKind::Truncate)) {
        Some(StatementKind::Truncate)
    } else if starts_with_keyword(s, kind_keyword(StatementKind::Show)) {
        Some(StatementKind::Show)
    } else if starts_with_keyword(s, kind_keyword(StatementKind::Select)) {
        Some(StatementKind::Select)
    } else if starts_with_keyword(s, kind_keyword(StatementKind::Insert)) {
        Some(StatementKind::Insert)
    } else if starts_with_keyword(s, kind_keyword(StatementKind::Update)) {
        Some(StatementKind::Update)
    } else if starts_with_keyword(s, kind_keyword(StatementKind::Delete)) {
        Some(StatementKind::Delete)
    } else if starts_with_keyword(s, kind_keyword(StatementKind::Grant)) {
        Some(StatementKind::Grant)
    } else if starts_with_keyword(s, kind_keyword(StatementKind::Revoke)) {
        Some(StatementKind::Revoke)
    } else {
        None
    }
}

/// Classifier law: a text that starts, in any letter-casing, with one of
/// the recognized keywords followed by a space and at least one further
/// character classifies to exactly that keyword's kind: the keyword classes
/// are mutually exclusive, so the priority order never masks a match.
pub proof fn lemma_classifier_keyword(s: Seq<char>, k: StatementKind)
    requires
        starts_with_keyword(s, kind_keyword(k)),
    ensures
        kind_of(s) == Some(k),
{
    match k {
        StatementKind::Create => {
        },
        StatementKind::Alter => {
            assert(!starts_with_keyword(s, kind_keyword(StatementKind::Create))) by {
                if starts_with_keyword(s, kind_keyword(StatementKind::Create)) {
                    assert(s[5] == ' ');
                    assert(lower_char(s[5]) == 'e');
                    assert(lower_char(' ') == ' ');
                }
            }
        },
        StatementKind::Drop => {
            assert(!starts_with_keyword(s, kind_keyword(StatementKind::Create))) by {
                if starts_with_keyword(s, kind_keyword(StatementKind::Create)) {
                    assert(s[4] == ' ');
                    assert(lower_char(s[4]) == 't');
                    assert(lower_char(' ') == ' ');
                }
            }
            assert(!starts_with_keyword(s, kind_keyword(StatementKind::Alter))) by {
                if starts_with_keyword(s, kind_keyword(StatementKind::Alter)) {
                    assert(s[4] == ' ');
                    assert(lower_char(s[4]) == 'r');
                    assert(lower_char(' ') == ' ');
                }
            }
        },
        StatementKind::Truncate => {
            assert(!starts_with_keyword(s, kind_keyword(StatementKind::Create))) by {
                if starts_with_keyword(s, kind_keyword(StatementKind::Create)) {
                    assert(s[6] == ' ');
                    assert(lower_char(s[6]) == 't');
                    assert(lower_char(' ') == ' ');
                }
            }
            assert(!starts_with_keyword(s, kind_keyword(StatementKind::Alter))) by {
                if starts_with_keyword(s, kind_keyword(StatementKind::Alter)) {
                    assert(s[5] == ' ');
                    assert(lower_char(s[5]) == 'a');
                    assert(lower_char(' ') == ' ');
                }
            }
            assert(!starts_with_keyword(s, kind_keyword(StatementKind::Drop))) by {
                if starts_with_keyword(s, kind_keyword(StatementKind::Drop)) {
                    assert(s[4] == ' ');
                    assert(lower_char(s[4]) == 'c');
                    assert(lower_char(' ') == ' ');
                }
            }
        },
        StatementKind::Show => {
            assert(!starts_with_keyword(s, kind_keyword(StatementKind::Create))) by {
                if starts_with_keyword(s, kind_keyword(StatementKind::Create)) {
                    assert(s[4] == ' ');
                    assert(lower_char(s[4]) == 't');
                    assert(lower_char(' ') == ' ');
                }
            }
            assert(!starts_with_keyword(s, kind_keyword(StatementKind::Alter))) by {
                if starts_with_keyword(s, kind_keyword(StatementKind::Alter)) {
                    assert(s[4] == ' ');
                    assert(lower_char(s[4]) == 'r');
                    assert(lower_char(' ') == ' ');
                }
            }
            assert(!starts_with_keyword(s, kind_keyword(StatementKind::Drop))) by {
                if starts_with_keyword(s, kind_keyword(StatementKind::Drop)) {
                    assert(lower_char(s[0]) == 's');
                    assert(lower_char(s[0]) == 'd');
                }
            }
            assert(!starts_with_keyword(s, kind_keyword(StatementKind::Truncate))) by {
                if starts_with_keyword(s, kind_keyword(StatementKind::Truncate)) {
                    assert(s[4] == ' ');
                    assert(lower_char(s[4]) == 'c');
                    assert(lower_char(' ') == ' ');
                }
            }
        },
        StatementKind::Select => {
            assert(!starts_with_keyword(s, kind_keyword(StatementKind::Create))) by {
                if starts_with_keyword(s, kind_keyword(StatementKind::Create)) {
                    assert(lower_char(s[0]) == 's');
                    assert(lower_char(s[0]) == 'c');
                }
            }
            assert(!starts_with_keyword(s, kind_keyword(StatementKind::Alter))) by {
                if starts_with_keyword(s, kind_keyword(StatementKind::Alter)) {
                    assert(s[5] == ' ');
                    assert(lower_char(s[5]) == 't');
                    assert(lower_char(' ') == ' ');
                }
            }
            assert(!starts_with_keyword(s, kind_keyword(StatementKind::Drop))) by {
                if starts_with_keyword(s, kind_keyword(StatementKind::Drop)) {
                    assert(s[4] == ' ');
                    assert(lower_char(s[4]) == 'c');
                    assert(lower_char(' ') == ' ');
                }
            }
            assert(!starts_with_keyword(s, kind_keyword(StatementKind::Truncate))) by {
                if starts_with_keyword(s, kind_keyword(StatementKind::Truncate)) {
                    assert(s[6] == ' ');
                    assert(lower_char(s[6]) == 't');
                    assert(lower_char(' ') == ' ');
                }
            }
            assert(!starts_with_keyword(s, kind_keyword(StatementKind::Show))) by {
                if starts_with_keyword(s, kind_keyword(StatementKind::Show)) {
                    assert(s[4] == ' ');
                    assert(lower_char(s[4]) == 'c');
                    assert(lower_char(' ') == ' ');
                }
            }
        },
        StatementKind::Insert => {
            assert(!starts_with_keyword(s, kind_keyword(StatementKind::Create))) by {
                if starts_with_keyword(s, kind_keyword(StatementKind::Create)) {
                    assert(lower_char(s[0]) == 'i');
                    assert(lower_char(s[0]) == 'c');
                }
            }
            assert(!starts_with_keyword(s, kind_keyword(StatementKind::Alter))) by {
                if starts_with_keyword(s, kind_keyword(StatementKind::Alter)) {
                    assert(s[5] == ' ');
                    assert(lower_char(s[5]) == 't');
                    assert(lower_char(' ') == ' ');
                }
            }
            assert(!starts_with_keyword(s, kind_keyword(StatementKind::Drop))) by {
                if starts_with_keyword(s, kind_keyword(StatementKind::Drop)) {
                    assert(s[4] == ' ');
                    assert(lower_char(s[4]) == 'r');
                    assert(lower_char(' ') == ' ');
                }
            }
            assert(!starts_with_keyword(s, kind_keyword(StatementKind::Truncate))) by {
                if starts_with_keyword(s, kind_keyword(StatementKind::Truncate)) {
                    assert(s[6] == ' ');
                    assert(lower_char(s[6]) == 't');
                    assert(lower_char(' ') == ' ');
                }
            }
            assert(!starts_with_keyword(s, kind_keyword(StatementKind::Show))) by {
                if starts_with_keyword(s, kind_keyword(StatementKind::Show)) {
                    assert(s[4] == ' ');
                    assert(lower_char(s[4]) == 'r');
                    assert(lower_char(' ') == ' ');
                }
            }
            assert(!starts_with_keyword(s, kind_keyword(StatementKind::Select))) by {
                if starts_with_keyword(s, kind_keyword(StatementKind::Select)) {
                    assert(lower_char(s[0]) == 'i');
                    assert(lower_char(s[0]) == 's');
                }
            }
        },
        StatementKind::Update => {
            assert(!starts_with_keyword(s, kind_keyword(StatementKind::Create))) by {
                if starts_with_keyword(s, kind_keyword(StatementKind::Create)) {
                    assert(lower_char(s[0]) == 'u');
                    assert(lower_char(s[0]) == 'c');
                }
            }
            assert(!starts_with_keyword(s, kind_keyword(StatementKind::Alter))) by {
                if starts_with_keyword(s, kind_keyword(StatementKind::Alter)) {
                    assert(s[5] == ' ');
                    assert(lower_char(s[5]) == 'e');
                    assert(lower_char(' ') == ' ');
                }
            }
            assert(!starts_with_keyword(s, kind_keyword(StatementKind::Drop))) by {
                if starts_with_keyword(s, kind_keyword(StatementKind::Drop)) {
                    assert(s[4] == ' ');
                    assert(lower_char(s[4]) == 't');
                    assert(lower_char(' ') == ' ');
                }
            }
            assert(!starts_with_keyword(s, kind_keyword(StatementKind::Truncate))) by {
                if starts_with_keyword(s, kind_keyword(StatementKind::Truncate)) {
                    assert(s[6] == ' ');
                    assert(lower_char(s[6]) == 't');
                    assert(lower_char(' ') == ' ');
                }
            }
            assert(!starts_with_keyword(s, kind_keyword(StatementKind::Show))) by {
                if starts_with_keyword(s, kind_keyword(StatementKind::Show)) {
                    assert(s[4] == ' ');
                    assert(lower_char(s[4]) == 't');
                    assert(lower_char(' ') == ' ');
                }
            }
            assert(!starts_with_keyword(s, kind_keyword(StatementKind::Select))) by {
                if starts_with_keyword(s, kind_keyword(StatementKind::Select)) {
                    assert(lower_char(s[0]) == 'u');
                    assert(lower_char(s[0]) == 's');
                }
            }
            assert(!starts_with_keyword(s, kind_keyword(StatementKind::Insert))) by {
                if starts_with_keyword(s, kind_keyword(StatementKind::Insert)) {
                    assert(lower_char(s[0]) == 'u');
                    assert(lower_char(s[0]) == 'i');
                }
            }
        },
        StatementKind::Delete => {
            assert(!starts_with_keyword(s, kind_keyword(StatementKind::Create))) by {
                if starts_with_keyword(s, kind_keyword(StatementKind::Create)) {
                    assert(lower_char(s[0]) == 'd');
                    assert(lower_char(s[0]) == 'c');
                }
            }
            assert(!starts_with_keyword(s, kind_keyword(StatementKind::Alter))) by {
                if starts_with_keyword(s, kind_keyword(StatementKind::Alter)) {
                    assert(s[5] == ' ');
                    assert(lower_char(s[5]) == 'e');
                    assert(lower_char(' ') == ' ');
                }
            }
            assert(!starts_with_keyword(s, kind_keyword(StatementKind::Drop))) by {
                if starts_with_keyword(s, kind_keyword(StatementKind::Drop)) {
                    assert(s[4] == ' ');
                    assert(lower_char(s[4]) == 't');
                    assert(lower_char(' ') == ' ');
                }
            }
            assert(!starts_with_keyword(s, kind_keyword(StatementKind::Truncate))) by {
                if starts_with_keyword(s, kind_keyword(StatementKind::Truncate)) {
                    assert(s[6] == ' ');
                    assert(lower_char(s[6]) == 't');
                    assert(lower_char(' ') == ' ');
                }
            }
            assert(!starts_with_keyword(s, kind_keyword(StatementKind::Show))) by {
                if starts_with_keyword(s, kind_keyword(StatementKind::Show)) {
                    assert(s[4] == ' ');
                    assert(lower_char(s[4]) == 't');
                    assert(lower_char(' ') == ' ');
                }
            }
            assert(!starts_with_keyword(s, kind_keyword(StatementKind::Select))) by {
                if starts_with_keyword(s, kind_keyword(StatementKind::Select)) {
                    assert(lower_char(s[0]) == 'd');
                    assert(lower_char(s[0]) == 's');
                }
            }
            assert(!starts_with_keyword(s, kind_keyword(StatementKind::Insert))) by {
                if starts_with_keyword(s, kind_keyword(StatementKind::Insert)) {
                    assert(lower_char(s[0]) == 'd');
                    assert(lower_char(s[0]) == 'i');
                }
            }
            assert(!starts_with_keyword(s, kind_keyword(StatementKind::Update))) by {
                if starts_with_keyword(s, kind_keyword(StatementKind::Update)) {
                    assert(lower_char(s[0]) == 'd');
                    assert(lower_char(s[0]) == 'u');
                }
            }
        },
        StatementKind::Grant => {
            assert(!starts_with_keyword(s, kind_keyword(StatementKind::Create))) by {
                if starts_with_keyword(s, kind_keyword(StatementKind::Create)) {
                    assert(s[5] == ' ');
                    assert(lower_char(s[5]) == 'e');
                    assert(lower_char(' ') == ' ');
                }
            }
            assert(!starts_with_keyword(s, kind_keyword(StatementKind::Alter))) by {
                if starts_with_keyword(s, kind_keyword(StatementKind::Alter)) {
                    assert(lower_char(s[0]) == 'g');
                    assert(lower_char(s[0]) == 'a');
                }
            }
            assert(!starts_with_keyword(s, kind_keyword(StatementKind::Drop))) by {
                if starts_with_keyword(s, kind_keyword(StatementKind::Drop)) {
                    assert(s[4] == ' ');
                    assert(lower_char(s[4]) == 't');
                    assert(lower_char(' ') == ' ');
                }
            }
            assert(!starts_with_keyword(s, kind_keyword(StatementKind::Truncate))) by {
                if starts_with_keyword(s, kind_keyword(StatementKind::Truncate)) {
                    assert(s[5] == ' ');
                    assert(lower_char(s[5]) == 'a');
                    assert(lower_char(' ') == ' ');
                }
            }
            assert(!starts_with_keyword(s, kind_keyword(StatementKind::Show))) by {
                if starts_with_keyword(s, kind_keyword(StatementKind::Show)) {
                    assert(s[4] == ' ');
                    assert(lower_char(s[4]) == 't');
                    assert(lower_char(' ') == ' ');
                }
            }
            assert(!starts_with_keyword(s, kind_keyword(StatementKind::Select))) by {
                if starts_with_keyword(s, kind_keyword(StatementKind::Select)) {
                    assert(s[5] == ' ');
                    assert(lower_char(s[5]) == 't');
                    assert(lower_char(' ') == ' ');
                }
            }
            assert(!starts_with_keyword(s, kind_keyword(StatementKind::Insert))) by {
                if starts_with_keyword(s, kind_keyword(StatementKind::Insert)) {
                    assert(s[5] == ' ');
                    assert(lower_char(s[5]) == 't');
                    assert(lower_char(' ') == ' ');
                }
            }
            assert(!starts_with_keyword(s, kind_keyword(StatementKind::Update))) by {
                if starts_with_keyword(s, kind_keyword(StatementKind::Update)) {
                    assert(s[5] == ' ');
                    assert(lower_char(s[5]) == 'e');
                    assert(lower_char(' ') == ' ');
                }
            }
            assert(!starts_with_keyword(s, kind_keyword(StatementKind::Delete))) by {
                if starts_with_keyword(s, kind_keyword(StatementKind::Delete)) {
                    assert(s[5] == ' ');
                    assert(lower_char(s[5]) == 'e');
                    assert(lower_char(' ') == ' ');
                }
            }
        },
        StatementKind::Revoke => {
            assert(!starts_with_keyword(s, kind_keyword(StatementKind::Create))) by {
                if starts_with_keyword(s, kind_keyword(StatementKind::Create)) {
                    assert(lower_char(s[0]) == 'r');
                    assert(lower_char(s[0]) == 'c');
                }
            }
            assert(!starts_with_keyword(s, kind_keyword(StatementKind::Alter))) by {
                if starts_with_keyword(s, kind_keyword(StatementKind::Alter)) {
                    assert(s[5] == ' ');
                    assert(lower_char(s[5]) == 'e');
                    assert(lower_char(' ') == ' ');
                }
            }
            assert(!starts_with_keyword(s, kind_keyword(StatementKind::Drop))) by {
                if starts_with_keyword(s, kind_keyword(StatementKind::Drop)) {
                    assert(s[4] == ' ');
                    assert(lower_char(s[4]) == 'k');
                    assert(lower_char(' ') == ' ');
                }
            }
            assert(!starts_with_keyword(s, kind_keyword(StatementKind::Truncate))) by {
                if starts_with_keyword(s, kind_keyword(StatementKind::Truncate)) {
                    assert(s[6] == ' ');
                    assert(lower_char(s[6]) == 't');
                    assert(lower_char(' ') == ' ');
                }
            }
            assert(!starts_with_keyword(s, kind_keyword(StatementKind::Show))) by {
                if starts_with_keyword(s, kind_keyword(StatementKind::Show)) {
                    assert(s[4] == ' ');
                    assert(lower_char(s[4]) == 'k');
                    assert(lower_char(' ') == ' ');
                }
            }
            assert(!starts_with_keyword(s, kind_keyword(StatementKind::Select))) by {
                if starts_with_keyword(s, kind_keyword(StatementKind::Select)) {
                    assert(lower_char(s[0]) == 'r');
                    assert(lower_char(s[0]) == 's');
                }
            }
            assert(!starts_with_keyword(s, kind_keyword(StatementKind::Insert))) by {
                if starts_with_keyword(s, kind_keyword(StatementKind::Insert)) {
                    assert(lower_char(s[0]) == 'r');
                    assert(lower_char(s[0]) == 'i');
                }
            }
            assert(!starts_with_keyword(s, kind_keyword(StatementKind::Update))) by {
                if starts_with_keyword(s, kind_keyword(StatementKind::Update)) {
                    assert(lower_char(s[0]) == 'r');
                    assert(lower_char(s[0]) == 'u');
                }
            }
            assert(!starts_with_keyword(s, kind_keyword(StatementKind::Delete))) by {
                if starts_with_keyword(s, kind_keyword(StatementKind::Delete)) {
                    assert(lower_char(s[0]) == 'r');
                    assert(lower_char(s[0]) == 'd');
                }
            }
            assert(!starts_with_keyword(s, kind_keyword(StatementKind::Grant))) by {
                if starts_with_keyword(s, kind_keyword(StatementKind::Grant)) {
                    assert(s[5] == ' ');
                    assert(lower_char(s[5]) == 'e');
                    assert(lower_char(' ') == ' ');
                }
            }
        },
    }
}

impl SQL {
    /// The kind (leading keyword) of this statement.
    pub open spec fn spec_kind(&self) -> StatementKind {
        match self {
            SQL::Create(_) => StatementKind::Create,
            SQL::Alter(_) => StatementKind::Alter,
            SQL::Drop(_) => StatementKind::Drop,
            SQL::Truncate(_) => StatementKind::Truncate,
            SQL::Show(_) => StatementKind::Show,
            SQL::Select(_) => StatementKind::Select,
            SQL::Insert(_) => StatementKind::Insert,
            SQL::Update(_) => StatementKind::Update,
            SQL::Delete(_) => StatementKind::Delete,
            SQL::Grant(_) => StatementKind::Grant,
            SQL::Revoke(_) => StatementKind::Revoke,
        }
    }

    /// The statement's text.
    pub open spec fn spec_text(&self) -> Seq<char> {
        match self {
            SQL::Create(d) => d.0@,
            SQL::Alter(d) => d.0@,
            SQL::Drop(d) => d.0@,
            SQL::Truncate(d) => d.0@,
            SQL::Show(d) => d.0@,
            SQL::Select(q) => q.0@,
            SQL::Insert(q) => q.0@,
            SQL::Update(q) => q.0@,
            SQL::Delete(q) => q.0@,
            SQL::Grant(c) => c.0@,
            SQL::Revoke(c) => c.0@,
        }
    }

    /// The statement text as an owned string.
    pub fn to_string(&self) -> (r: String)
        ensures
            r@ == self.spec_text(),
    {
        match self {
            SQL::Create(d) => d.0.clone(),
            SQL::Alter(d) => d.0.clone(),
            SQL::Drop(d) => d.0.clone(),
            SQL::Truncate(d) => d.0.clone(),
            SQL::Show(d) => d.0.clone(),
            SQL::Select(q) => q.0.clone(),
            SQL::Insert(q) => q.0.clone(),
            SQL::Update(q) => q.0.clone(),
            SQL::Delete(q) => q.0.clone(),
            SQL::Grant(c) => c.0.clone(),
            SQL::Revoke(c) => c.0.clone(),
        }
    }
}

impl PartialEq for SQL {
    fn eq(&self, other: &SQL) -> (r: bool) {
        match (self, other) {
            (SQL::Create(a), SQL::Create(b)) => a.0 == b.0,
            (SQL::Alter(a), SQL::Alter(b)) => a.0 == b.0,
            (SQL::Drop(a), SQL::Drop(b)) => a.0 == b.0,
            (SQL::Truncate(a), SQL::Truncate(b)) => a.0 == b.0,
            (SQL::Show(a), SQL::Show(b)) => a.0 == b.0,
            (SQL::Select(a), SQL::Select(b)) => a.0 == b.0,
            (SQL::Insert(a), SQL::Insert(b)) => a.0 == b.0,
            (SQL::Update(a), SQL::Update(b)) => a.0 == b.0,
            (SQL::Delete(a), SQL::Delete(b)) => a.0 == b.0,
            (SQL::Grant(a), SQL::Grant(b)) => a.0 == b.0,
            (SQL::Revoke(a), SQL::Revoke(b)) => a.0 == b.0,
            _ => false,
        }
    }
}

impl Eq for SQL {

}

impl vstd::std_specs::cmp::PartialEqSpecImpl for SQL {
    open spec fn obeys_eq_spec() -> bool {
        true
    }

    open spec fn eq_spec(&self, other: &SQL) -> bool {
        self.spec_kind() == other.spec_kind() && self.spec_text() == other.spec_text()
    }
}

/// Whether `s` starts, case-insensitively, with keyword `kw` plus a space and
/// at least one further character; `kw` must be given in lower case.
pub(crate) fn matches_keyword(s: &Vec<char>, kw: &str) -> (b: bool)
    ensures
        b == starts_with_keyword(s@, kw@),
{
    let klen = kw.unicode_len();
    if s.len() < 2 || s.len() - 2 < klen {
        return false;
    }
    let mut i: usize = 0;
    while i < klen
        invariant
            i <= klen,
            klen == kw@.len(),
            s@.len() > klen + 1,
            forall|j: int| 0 <= j < i ==> lower_char(s@[j]) == kw@[j],
        decreases klen - i,
    {
        if to_lower(s[i]) != kw.get_char(i) {
            return false;
        }
        i += 1;
    }
    s[klen] == ' '
}

impl SQL {
    /// Classifies a statement text by its leading keyword.
    ///
    /// Succeeds exactly when the text starts, case-insensitively, with one of
    /// the recognized keywords followed by a space and at least one more
    /// character; the returned variant matches the keyword and carries the
    /// input text unchanged.  Otherwise the text is rejected as not a valid
    /// command.
    pub fn new(query: &str) -> (r: Result<SQL, SQLError>)
        ensures
            match r {
                Ok(sql) => kind_of(query@) == Some(sql.spec_kind()) && sql.spec_text() == query@,
                Err(e) => kind_of(query@) is None && e == SQLError::NotValidCMD,
            },
    {
        let chars = str_to_chars(query);
        proof {
            reveal_strlit("create");
            reveal_strlit("alter");
            reveal_strlit("drop");
            reveal_strlit("truncate");
            reveal_strlit("show");
            reveal_strlit("select");
            reveal_strlit("insert");
            reveal_strlit("update");
            reveal_strlit("delete");
            reveal_strlit("grant");
            reveal_strlit("revoke");
            assert("create"@ =~= kind_keyword(StatementKind::Create));
            assert("alter"@ =~= kind_keyword(StatementKind::Alter));
            assert("drop"@ =~= kind_keyword(StatementKind::Drop));
            assert("truncate"@ =~= kind_keyword(StatementKind::Truncate));
            assert("show"@ =~= kind_keyword(StatementKind::Show));
            assert("select"@ =~= kind_keyword(StatementKind::Select));
            assert("insert"@ =~= kind_keyword(StatementKind::Insert));
            assert("update"@ =~= kind_keyword(StatementKind::Update));
            assert("delete"@ =~= kind_keyword(StatementKind::Delete));
            assert("grant"@ =~= kind_keyword(StatementKind::Grant));
            assert("revoke"@ =~= kind_keyword(StatementKind::Revoke));
        }
        if matches_keyword(&chars, "create") {
            Ok(SQL::Create(DDL(query.to_owned())))
        } else if matches_keyword(&chars, "alter") {
            Ok(SQL::Alter(DDL(query.to_owned())))
        } else if matches_keyword(&chars, "drop") {
            Ok(SQL::Drop(DDL(query.to_owned())))
        } else if matches_keyword(&chars, "truncate") {
            Ok(SQL::Truncate(DDL(query.to_owned())))
        } else if matches_keyword(&chars, "show") {
            Ok(SQL::Show(DDL(query.to_owned())))
        } else if matches_keyword(&chars, "select") {
            Ok(SQL::Select(QDL(query.to_owned())))
        } else if matches_keyword(&chars, "insert") {
            Ok(SQL::Insert(QML(query.to_owned())))
        } else if matches_keyword(&chars, "update") {
            Ok(SQL::Update(QML(query.to_owned())))
        } else if matches_keyword(&chars, "delete") {
            Ok(SQL::Delete(QML(query.to_owned())))
        } else if matches_keyword(&chars, "grant") {
            Ok(SQL::Grant(DCL(query.to_owned())))
        } else if matches_keyword(&chars, "revoke") {
            Ok(SQL::Revoke(DCL(query.to_owned())))
        } else {
            Err(SQLError::NotValidCMD)
        }
    }

    /// The DDL payload, for schema-definition variants.
    pub fn ddl(&self) -> (r: Option<&DDL>)
        ensures
            match r {
                Some(d) => {
                    &&& d.0@ == self.spec_text()
                    &&& (self.spec_kind() == StatementKind::Create
                        || self.spec_kind() == StatementKind::Alter || self.spec_kind()
                        == StatementKind::Drop || self.spec_kind() == StatementKind::Truncate
                        || self.spec_kind() == StatementKind::Show)
                },
                None => spec_language(self.spec_kind()) != SQLLanguage::DDL,
            },
    {
        match self {
            SQL::Create(d) => Some(d),
            SQL::Alter(d) => Some(d),
            SQL::Drop(d) => Some(d),
            SQL::Show(d) => Some(d),
            SQL::Truncate(d) => Some(d),
            _ => None,
        }
    }

    /// The DDL payload as a mutable borrow, for schema-definition variants.
    pub fn ddl_mut(&mut self) -> (r: Option<&mut DDL>)
        ensures
            match r {
                Some(d) => spec_language(old(self).spec_kind()) == SQLLanguage::DDL,
                None => spec_language(old(self).spec_kind()) != SQLLanguage::DDL,
            },
    {
        match self {
            SQL::Create(d) => Some(d),
            SQL::Alter(d) => Some(d),
            SQL::Drop(d) => Some(d),
            SQL::Show(d) => Some(d),
            SQL::Truncate(d) => Some(d),
            _ => None,
        }
    }

    /// The QDL payload, for the data-query variant.
    pub fn qdl(&self) -> (r: Option<&QDL>)
        ensures
            match r {
                Some(q) => q.0@ == self.spec_text() && self.spec_kind() == StatementKind::Select,
                None => spec_language(self.spec_kind()) != SQLLanguage::QDL,
            },
    {
        match self {
            SQL::Select(q) => Some(q),
            _ => None,
        }
    }

    /// The QDL payload as a mutable borrow, for the data-query variant.
    pub fn qdl_mut(&mut self) -> (r: Option<&mut QDL>)
        ensures
            match r {
                Some(q) => spec_language(old(self).spec_kind()) == SQLLanguage::QDL,
                None => spec_language(old(self).spec_kind()) != SQLLanguage::QDL,
            },
    {
        match self {
            SQL::Select(q) => Some(q),
            _ => None,
        }
    }

    /// The QML payload, for data-manipulation variants.
    pub fn qml(&self) -> (r: Option<&QML>)
        ensures
            match r {
                Some(q) => {
                    &&& q.0@ == self.spec_text()
                    &&& (self.spec_kind() == StatementKind::Insert || self.spec_kind()
                        == StatementKind::Update || self.spec_kind() == StatementKind::Delete)
                },
                None => spec_language(self.spec_kind()) != SQLLanguage::QML,
            },
    {
        match self {
            SQL::Insert(q) => Some(q),
            SQL::Update(q) => Some(q),
            SQL::Delete(q) => Some(q),
            _ => None,
        }
    }

    /// The QML payload as a mutable borrow, for data-manipulation variants.
    pub fn qml_mut(&mut self) -> (r: Option<&mut QML>)
        ensures
            match r {
                Some(q) => spec_language(old(self).spec_kind()) == SQLLanguage::QML,
                None => spec_language(old(self).spec_kind()) != SQLLanguage::QML,
            },
    {
        match self {
            SQL::Insert(q) => Some(q),
            SQL::Update(q) => Some(q),
            SQL::Delete(q) => Some(q),
            _ => None,
        }
    }

    /// The DCL payload, for access-control variants.
    pub fn dcl(&self) -> (r: Option<&DCL>)
        ensures
            match r {
                Some(c) => {
                    &&& c.0@ == self.spec_text()
                    &&& (self.spec_kind() == StatementKind::Grant || self.spec_kind()
                        == StatementKind::Revoke)
                },
                None => spec_language(self.spec_kind()) != SQLLanguage::DCL,
            },
    {
        match self {
            SQL::Grant(c) => Some(c),
            SQL::Revoke(c) => Some(c),
            _ => None,
        }
    }

    /// The DCL payload as a mutable borrow, for access-control variants.
    pub fn dcl_mut(&mut self) -> (r: Option<&mut DCL>)
        ensures
            match r {
                Some(c) => spec_language(old(self).spec_kind()) == SQLLanguage::DCL,
                None => spec_language(old(self).spec_kind()) != SQLLanguage::DCL,
            },
    {
        match self {
            SQL::Grant(c) => Some(c),
            SQL::Revoke(c) => Some(c),
            _ => None,
        }
    }

    /// The language category of this statement.
    pub fn get_language(&self) -> (r: SQLLanguage)
        ensures
            r == spec_language(self.spec_kind()),
    {
        match self {
            SQL::Create(_) => SQLLanguage::DDL,
            SQL::Alter(_) => SQLLanguage::DDL,
            SQL::Drop(_) => SQLLanguage::DDL,
            SQL::Truncate(_) => SQLLanguage::DDL,
            SQL::Show(_) => SQLLanguage::DDL,
            SQL::Select(_) => SQLLanguage::QDL,
            SQL::Insert(_) => SQLLanguage::QML,
            SQL::Update(_) => SQLLanguage::QML,
            SQL::Delete(_) => SQLLanguage::QML,
            SQL::Grant(_) => SQLLanguage::DCL,
            SQL::Revoke(_) => SQLLanguage::DCL,
        }
    }
}

/// Tokenizer state: between statements, inside a `--` line comment, or
/// inside a quoted run opened by the carried delimiter character.
#[derive(Debug, Clone, Copy, PartialEq, Eq, Structural)]
pub enum ParseMode {
    Regular,
    Comment,
    Quoted(char),
}

/// The whitespace characters that the tokenizer collapses to single spaces.
pub open spec fn is_space_char(c: char) -> bool {
    c == ' ' || c == '\r' || c == '\t' || c == '\n'
}

/// One tokenizer step on character `c`: the next mode, the statement buffer,
/// and the list of flushed (successfully classified) statement texts.
pub open spec fn tok_step(m: ParseMode, buf: Seq<char>, out: Seq<Seq<char>>, c: char) -> (
    ParseMode,
    Seq<char>,
    Seq<Seq<char>>,
) {
    match m {
        ParseMode::Regular => {
            if c == '"' || c == '\'' || c == '`' {
                (ParseMode::Quoted(c), buf.push(c), out)
            } else if c == '-' {
                if buf.len() > 0 && buf.last() == '-' {
                    (ParseMode::Comment, buf.drop_last(), out)
                } else {
                    (ParseMode::Regular, buf.push(c), out)
                }
            } else if c == ';' {
                if kind_of(buf) is Some {
                    (ParseMode::Regular, Seq::empty(), out.push(buf))
                } else {
                    (ParseMode::Regular, Seq::empty(), out)
                }
            } else if is_space_char(c) {
                if buf.len() == 0 || buf.last() == ' ' {
                    (ParseMode::Regular, buf, out)
                } else {
                    (ParseMode::Regular, buf.push(' '), out)
                }
            } else {
                (ParseMode::Regular, buf.push(c), out)
            }
        },
        ParseMode::Comment => {
            if c == '\n' {
                (ParseMode::Regular, buf, out)
            } else {
                (ParseMode::Comment, buf, out)
            }
        },
        ParseMode::Quoted(q) => {
            if c == q {
                (ParseMode::Regular, buf.push(c), out)
            } else {
                (m, buf.push(c), out)
            }
        },
    }
}

/// The tokenizer run over a whole character sequence.
pub open spec fn tok_run(m: ParseMode, buf: Seq<char>, out: Seq<Seq<char>>, s: Seq<char>) -> (
    ParseMode,
    Seq<char>,
    Seq<Seq<char>>,
)
    decreases s.len(),
{
    if s.len() == 0 {
        (m, buf, out)
    } else {
        let st = tok_step(m, buf, out, s[0]);
        tok_run(st.0, st.1, st.2, s.drop_first())
    }
}

/// The statement texts that tokenizing a text yields: the flushed statements
/// plus, at end of input, one final flush of a non-empty classifiable buffer.
pub open spec fn tokenize(s: Seq<char>) -> Seq<Seq<char>> {
    let st = tok_run(ParseMode::Regular, Seq::empty(), Seq::empty(), s);
    if kind_of(st.1) is Some {
        st.2.push(st.1)
    } else {
        st.2
    }
}

/// The texts carried by a sequence of statements.
pub open spec fn texts_of(cmds: Seq<SQL>) -> Seq<Seq<char>> {
    cmds.map_values(|s: SQL| s.spec_text())
}

/// Whether every statement in the list carries a text that classifies to the
/// statement's own kind.
pub open spec fn all_classified(cmds: Seq<SQL>) -> bool {
    forall|i: int|
        0 <= i < cmds.len() ==> kind_of(#[trigger] cmds[i].spec_text()) == Some(
            cmds[i].spec_kind(),
        )
}

/// Extending a run by one character is one more step.
proof fn lemma_tok_run_snoc(m: ParseMode, buf: Seq<char>, out: Seq<Seq<char>>, t: Seq<char>, c: char)
    ensures
        ({
            let st = tok_run(m, buf, out, t);
            tok_run(m, buf, out, t.push(c)) == tok_step(st.0, st.1, st.2, c)
        }),
    decreases t.len(),
{
    if t.len() == 0 {
        assert(t.push(c)[0] == c);
        assert(t.push(c).drop_first() =~= t);
        let st = tok_step(m, buf, out, c);
        assert(tok_run(m, buf, out, t.push(c)) == tok_run(st.0, st.1, st.2, t));
        assert(tok_run(st.0, st.1, st.2, t) == st);
        assert(tok_run(m, buf, out, t) == (m, buf, out));
    } else {
        assert(t.push(c)[0] == t[0]);
        assert(t.push(c).drop_first() =~= t.drop_first().push(c));
        let st1 = tok_step(m, buf, out, t[0]);
        assert(tok_run(m, buf, out, t.push(c)) == tok_run(st1.0, st1.1, st1.2, t.drop_first().push(c)));
        assert(tok_run(m, buf, out, t) == tok_run(st1.0, st1.1, st1.2, t.drop_first()));
        lemma_tok_run_snoc(st1.0, st1.1, st1.2, t.drop_first(), c);
    }
}

impl ParseMode {
    /// One tokenizer step: dispatches on the current mode; the buffer, the
    /// statement list and the returned mode change as `tok_step` says.
    pub fn parse(self, buffer: &mut Vec<char>, cmds: &mut Vec<SQL>, ch: char) -> (r: ParseMode)
        requires
            all_classified(old(cmds)@),
        ensures
            ({
                let st = tok_step(self, old(buffer)@, texts_of(old(cmds)@), ch);
                r == st.0 && final(buffer)@ == st.1 && texts_of(final(cmds)@) == st.2
            }),
            all_classified(final(cmds)@),
    {
        match self {
            ParseMode::Regular => self.regular_parse(buffer, cmds, ch),
            ParseMode::Comment => self.comment_parse(ch),
            ParseMode::Quoted(_) => self.string_parse(buffer, ch),
        }
    }

    /// A step outside comments and quotes: opens quotes, opens comments on a
    /// second `-`, flushes the buffer on `;`, collapses whitespace, and
    /// otherwise accumulates the character.
    fn regular_parse(self, buffer: &mut Vec<char>, cmds: &mut Vec<SQL>, ch: char) -> (r: ParseMode)
        requires
            self == ParseMode::Regular,
            all_classified(old(cmds)@),
        ensures
            ({
                let st = tok_step(self, old(buffer)@, texts_of(old(cmds)@), ch);
                r == st.0 && final(buffer)@ == st.1 && texts_of(final(cmds)@) == st.2
            }),
            all_classified(final(cmds)@),
    {
        if ch == '"' || ch == '\'' || ch == '`' {
            buffer.push(ch);
            ParseMode::Quoted(ch)
        } else if ch == '-' {
            if buffer.len() > 0 && buffer[buffer.len() - 1] == '-' {
                let _popped = buffer.pop();
                ParseMode::Comment
            } else {
                buffer.push(ch);
                ParseMode::Regular
            }
        } else if ch == ';' {
            let stext = chars_to_string(buffer);
            buffer.clear();
            match SQL::new(stext.as_str()) {
                Ok(val) => {
                    cmds.push(val);
                    proof {
                        assert(texts_of(final(cmds)@) =~= texts_of(old(cmds)@).push(
                            old(buffer)@,
                        ));
                    }
                },
                Err(_) => {},
            }
            ParseMode::Regular
        } else if ch == ' ' || ch == '\r' || ch == '\t' || ch == '\n' {
            if buffer.len() > 0 && buffer[buffer.len() - 1] != ' ' {
                buffer.push(' ');
            }
            ParseMode::Regular
        } else {
            buffer.push(ch);
            ParseMode::Regular
        }
    }

    /// A step inside a comment: discards everything up to the next newline.
    fn comment_parse(self, ch: char) -> (r: ParseMode)
        requires
            self == ParseMode::Comment,
        ensures
            r == tok_step(self, Seq::<char>::empty(), Seq::<Seq<char>>::empty(), ch).0,
    {
        if ch == '\n' {
            ParseMode::Regular
        } else {
            ParseMode::Comment
        }
    }

    /// A step inside a quoted run: accumulates every character verbatim and
    /// closes the run when the opening delimiter recurs.
    fn string_parse(self, buffer: &mut Vec<char>, ch: char) -> (r: ParseMode)
        requires
            self is Quoted,
        ensures
            ({
                let st = tok_step(self, old(buffer)@, Seq::<Seq<char>>::empty(), ch);
                r == st.0 && final(buffer)@ == st.1
            }),
    {
        match self {
            ParseMode::Quoted(q) => {
                buffer.push(ch);
                if ch == q {
                    ParseMode::Regular
                } else {
                    self
                }
            },
            _ => self,
        }
    }
}

impl SQL {
    /// Splits a text into statements: statements end at top-level `;`, `--`
    /// line comments are removed, whitespace runs collapse to one space, and
    /// quoted runs pass through verbatim.  Each flushed text that classifies
    /// becomes a statement; unclassifiable texts are skipped.  A non-empty
    /// buffer left at end of input is flushed once more.
    pub fn from_text(text: &str) -> (r: Vec<SQL>)
        ensures
            texts_of(r@) == tokenize(text@),
            all_classified(r@),
    {
        let chars = str_to_chars(text);
        let mut buffer: Vec<char> = Vec::new();
        let mut cmds: Vec<SQL> = Vec::new();
        let mut mode = ParseMode::Regular;
        let mut i: usize = 0;
        while i < chars.len()
            invariant
                i <= chars.len(),
                chars@ == text@,
                all_classified(cmds@),
                ({
                    let st = tok_run(
                        ParseMode::Regular,
                        Seq::empty(),
                        Seq::empty(),
                        text@.take(i as int),
                    );
                    mode == st.0 && buffer@ == st.1 && texts_of(cmds@) == st.2
                }),
            decreases chars.len() - i,
        {
            proof {
                lemma_tok_run_snoc(
                    ParseMode::Regular,
                    Seq::empty(),
                    Seq::empty(),
                    text@.take(i as int),
                    text@[i as int],
                );
                assert(text@.take(i as int + 1) =~= text@.take(i as int).push(text@[i as int]));
            }
            mode = mode.parse(&mut buffer, &mut cmds, chars[i]);
            i += 1;
        }
        proof {
            assert(text@.take(chars@.len() as int) =~= text@);
        }
        let stext = chars_to_string(&buffer);
        match SQL::new(stext.as_str()) {
            Ok(val) => {
                cmds.push(val);
                proof {
                    assert(texts_of(cmds@) =~= tokenize(text@));
                }
            },
            Err(_) => {},
        }
        cmds
    }
}

/// The language category of each statement kind.
pub open spec fn spec_language(k: StatementKind) -> SQLLanguage {
    match k {
        StatementKind::Create => SQLLanguage::DDL,
        StatementKind::Alter => SQLLanguage::DDL,
        StatementKind::Drop => SQLLanguage::DDL,
        StatementKind::Truncate => SQLLanguage::DDL,
        StatementKind::Show => SQLLanguage::DDL,
        StatementKind::Select => SQLLanguage::QDL,
        StatementKind::Insert => SQLLanguage::QML,
        StatementKind::Update => SQLLanguage::QML,
        StatementKind::Delete => SQLLanguage::QML,
        StatementKind::Grant => SQLLanguage::DCL,
        StatementKind::Revoke => SQLLanguage::DCL,
    }
}

} // verus!
