//! The state of the query results page: the query being browsed, the row
//! offset, and the cached column headers, widths and rows.

use vstd::prelude::*;

use crate::paths::subvec_string;
use crate::relation::{digits_end, is_digit};
use crate::sql::{kind_keyword, matches_keyword, starts_with_keyword, StatementKind, QDL};
use crate::text::{lower_char, push_char, spec_nat_str, str_to_chars, to_lower};

verus! {

/// The cached result table: the first shown column, the column names with
/// their display widths, and the fetched rows.
#[derive(Debug)]
pub struct QueryCache {
    pub start_col: usize,
    pub columns: Vec<(String, usize)>,
    pub rows: Vec<Vec<String>>,
}

/// The query results page.
#[derive(Debug)]
pub struct QueryPage {
    pub query: QDL,
    pub query_offset: usize,
    pub query_cache: QueryCache,
}

/// The display width of column `i`: the widest of the column's name and of
/// its value in each row, in characters.
pub open spec fn spec_col_width(name: Seq<char>, rows: Seq<Vec<String>>, i: int) -> int
    decreases rows.len(),
{
    if rows.len() == 0 {
        name.len() as int
    } else {
        let w = spec_col_width(name, rows.drop_last(), i);
        let c = rows.last()@[i]@.len() as int;
        if c > w {
            c
        } else {
            w
        }
    }
}

/// Whether the text holds no newline; the LIMIT rewriter only recognizes
/// single-line queries.
pub open spec fn spec_no_newline(s: Seq<char>) -> bool {
    forall|i: int| 0 <= i < s.len() ==> s[i] != '\n'
}

/// Whether a rewritable LIMIT clause starts at `m`: a space, the keyword in
/// any casing, a space, a digit run, and then the end of the text, with an
/// optional comma and second digit run; at least one character stands
/// between the SELECT keyword and the clause.
pub open spec fn limit_at(s: Seq<char>, m: int) -> bool {
    &&& m > 7
    &&& m + 8 <= s.len()
    &&& s[m] == ' '
    &&& lower_char(s[m + 1]) == 'l'
    &&& lower_char(s[m + 2]) == 'i'
    &&& lower_char(s[m + 3]) == 'm'
    &&& lower_char(s[m + 4]) == 'i'
    &&& lower_char(s[m + 5]) == 't'
    &&& s[m + 6] == ' '
    &&& is_digit(s[m + 7])
    &&& ({
        let de = digits_end(s, m + 7);
        ||| de == s.len()
        ||| (de < s.len() && s[de] == ',' && (de + 1 == s.len() || (is_digit(s[de + 1])
            && digits_end(s, de + 1) == s.len())))
    })
}

/// The last position at or before `m` where a rewritable LIMIT clause
/// starts.
pub open spec fn find_limit(s: Seq<char>, m: int) -> Option<int>
    decreases m + 1 when m >= -1
{
    if m < 0 {
        None
    } else if limit_at(s, m) {
        Some(m)
    } else {
        find_limit(s, m - 1)
    }
}

/// The query with the page's offset and a row count put into its LIMIT
/// clause: a single-line SELECT ending in a recognizable clause has the
/// clause's numbers replaced; any other query has a fresh clause appended.
pub open spec fn spec_with_limit(q: Seq<char>, off: nat, rc: nat) -> Seq<char> {
    if spec_no_newline(q) && starts_with_keyword(q, kind_keyword(StatementKind::Select))
        && find_limit(q, q.len() - 1) is Some {
        match find_limit(q, q.len() - 1) {
            Some(m) => q.subrange(0, m + 7) + spec_nat_str(off) + ","@ + spec_nat_str(rc),
            None => q,
        }
    } else {
        q + " LIMIT "@ + spec_nat_str(off) + ","@ + spec_nat_str(rc)
    }
}

/// Whether the text holds no newline.
fn no_newline(s: &Vec<char>) -> (b: bool)
    ensures
        b == spec_no_newline(s@),
{
    let mut i: usize = 0;
    while i < s.len()
        invariant
            i <= s@.len(),
            forall|j: int| 0 <= j < i ==> s@[j] != '\n',
        decreases s@.len() - i,
    {
        if s[i] == '\n' {
            return false;
        }
        i += 1;
    }
    true
}

/// The end of the digit run starting at `k`.
fn digits_end_exec(s: &Vec<char>, k: usize) -> (e: usize)
    requires
        k <= s@.len(),
    ensures
        e as int == digits_end(s@, k as int),
        k <= e <= s@.len(),
{
    let mut i: usize = k;
    while i < s.len() && crate::relation::check_digit(s[i])
        invariant
            k <= i <= s@.len(),
            digits_end(s@, k as int) == digits_end(s@, i as int),
        decreases s@.len() - i,
    {
        proof {
            assert(digits_end(s@, i as int) == digits_end(s@, i as int + 1));
        }
        i += 1;
    }
    proof {
        assert(digits_end(s@, i as int) == i as int);
    }
    i
}

/// Whether a rewritable LIMIT clause starts at `m`.
fn limit_at_exec(s: &Vec<char>, m: usize) -> (b: bool)
    requires
        m < s@.len(),
    ensures
        b == limit_at(s@, m as int),
{
    if m <= 7 {
        return false;
    }
    if s.len() - m < 8 {
        return false;
    }
    if s[m] != ' ' || s[m + 6] != ' ' {
        return false;
    }
    if to_lower(s[m + 1]) != 'l' || to_lower(s[m + 2]) != 'i' || to_lower(s[m + 3]) != 'm'
        || to_lower(s[m + 4]) != 'i' || to_lower(s[m + 5]) != 't' {
        return false;
    }
    let first: u32 = s[m + 7] as u32;
    if !(48 <= first && first <= 57) {
        return false;
    }
    let de = digits_end_exec(s, m + 7);
    if de == s.len() {
        return true;
    }
    if s[de] != ',' {
        return false;
    }
    if de + 1 == s.len() {
        return true;
    }
    let second: u32 = s[de + 1] as u32;
    if !(48 <= second && second <= 57) {
        return false;
    }
    let de2 = digits_end_exec(s, de + 1);
    de2 == s.len()
}

/// The last position where a rewritable LIMIT clause starts.
fn find_limit_exec(s: &Vec<char>) -> (r: Option<usize>)
    ensures
        match r {
            Some(m) => find_limit(s@, s@.len() - 1) == Some(m as int) && limit_at(s@, m as int)
                && m + 8 <= s@.len(),
            None => find_limit(s@, s@.len() - 1) is None,
        },
{
    let mut m: usize = s.len();
    while m > 0
        invariant
            m <= s@.len(),
            find_limit(s@, s@.len() - 1) == find_limit(s@, m as int - 1),
        decreases m,
    {
        m -= 1;
        if limit_at_exec(s, m) {
            return Some(m);
        }
        proof {
            assert(find_limit(s@, m as int) == find_limit(s@, m as int - 1));
        }
    }
    None
}

impl QueryPage {
    /// A fresh page over a query: offset zero and an empty cache.
    pub fn new(query: &QDL) -> (r: QueryPage)
        ensures
            r.query.0@ == query.0@,
            r.query_offset == 0,
            r.query_cache.start_col == 0,
            r.query_cache.columns@.len() == 0,
            r.query_cache.rows@.len() == 0,
    {
        QueryPage {
            query: query.clone(),
            query_offset: 0,
            query_cache: QueryCache { start_col: 0, columns: Vec::new(), rows: Vec::new() },
        }
    }

    /// Moves the row offset forward by `skip`.
    pub fn next_row(&mut self, skip: usize)
        requires
            old(self).query_offset + skip <= usize::MAX,
        ensures
            final(self).query_offset == old(self).query_offset + skip,
            final(self).query == old(self).query,
            final(self).query_cache == old(self).query_cache,
    {
        self.query_offset = self.query_offset + skip;
    }

    /// Moves the row offset back by `skip`, stopping at zero.
    pub fn prev_row(&mut self, skip: usize)
        ensures
            final(self).query_offset == if old(self).query_offset >= skip {
                old(self).query_offset - skip
            } else {
                0int
            },
            final(self).query == old(self).query,
            final(self).query_cache == old(self).query_cache,
    {
        if self.query_offset >= skip {
            self.query_offset = self.query_offset - skip;
        } else {
            self.query_offset = 0;
        }
    }

    /// Sets the first shown column.
    pub fn start_col(&mut self, start_col: usize)
        ensures
            final(self).query_cache.start_col == start_col,
            final(self).query_cache.columns@ == old(self).query_cache.columns@,
            final(self).query_cache.rows@ == old(self).query_cache.rows@,
            final(self).query == old(self).query,
            final(self).query_offset == old(self).query_offset,
    {
        self.query_cache.start_col = start_col;
    }

    /// Fills the cache from a fetched result: the columns carry the given
    /// names with their display widths, the rows are stored as given, and
    /// the first shown column is clamped to the column count.
    pub fn update(&mut self, names: &Vec<String>, rows: Vec<Vec<String>>)
        requires
            names@.len() >= 1,
            forall|k: int| 0 <= k < rows@.len() ==> (#[trigger] rows@[k])@.len() == names@.len(),
        ensures
            final(self).query == old(self).query,
            final(self).query_offset == old(self).query_offset,
            final(self).query_cache.rows@ == rows@,
            final(self).query_cache.columns@.len() == names@.len(),
            forall|i: int|
                0 <= i < names@.len() ==> (#[trigger] final(self).query_cache.columns@[i]).0@
                    == names@[i]@ && final(self).query_cache.columns@[i].1 == spec_col_width(
                    names@[i]@,
                    rows@,
                    i,
                ),
            final(self).query_cache.start_col == if old(self).query_cache.start_col < names@.len()
                - 1 {
                old(self).query_cache.start_col as int
            } else {
                names@.len() - 1
            },
    {
        let ghost rv = rows@;
        let mut columns: Vec<(String, usize)> = Vec::new();
        let mut i: usize = 0;
        while i < names.len()
            invariant
                i <= names@.len(),
                forall|k: int|
                    0 <= k < rows@.len() ==> (#[trigger] rows@[k])@.len() == names@.len(),
                columns@.len() == i,
                forall|m: int|
                    0 <= m < i ==> (#[trigger] columns@[m]).0@ == names@[m]@ && columns@[m].1
                        == spec_col_width(names@[m]@, rows@, m),
            decreases names@.len() - i,
        {
            let mut w: usize = names[i].unicode_len();
            let mut k: usize = 0;
            while k < rows.len()
                invariant
                    k <= rows@.len(),
                    i < names@.len(),
                    forall|m: int|
                        0 <= m < rows@.len() ==> (#[trigger] rows@[m])@.len() == names@.len(),
                    w == spec_col_width(names@[i as int]@, rows@.take(k as int), i as int),
                decreases rows@.len() - k,
            {
                proof {
                    assert(rows@.take(k as int + 1).drop_last() =~= rows@.take(k as int));
                    assert(rows@.take(k as int + 1).last() == rows@[k as int]);
                }
                let c = rows[k][i].unicode_len();
                if c > w {
                    w = c;
                }
                k += 1;
            }
            proof {
                assert(rows@.take(rows@.len() as int) =~= rows@);
            }
            columns.push((names[i].clone(), w));
            i += 1;
        }
        let clamped = if self.query_cache.start_col < names.len() - 1 {
            self.query_cache.start_col
        } else {
            names.len() - 1
        };
        self.query_cache = QueryCache { start_col: clamped, columns, rows };
    }

    /// The browsed query with its trailing LIMIT clause rewritten to the
    /// page's offset and the given row count, or with one appended when the
    /// query carries none that the rewriter recognizes.
    pub fn get_query(&self, row_count: usize) -> (r: QDL)
        ensures
            r.0@ == spec_with_limit(self.query.0@, self.query_offset as nat, row_count as nat),
    {
        let chars = str_to_chars(self.query.0.as_str());
        let rewritable = no_newline(&chars) && {
            proof {
                reveal_strlit("select");
                assert("select"@ =~= kind_keyword(StatementKind::Select));
            }
            matches_keyword(&chars, "select")
        };
        let found = find_limit_exec(&chars);
        match found {
            Some(m) if rewritable => {
                let mut out = subvec_string(&chars, 0, m + 7);
                crate::text::append_u64(&mut out, self.query_offset as u64);
                out.append(",");
                crate::text::append_u64(&mut out, row_count as u64);
                proof {
                    assert(out@ =~= self.query.0@.subrange(0, m + 7) + spec_nat_str(
                        self.query_offset as nat,
                    ) + ","@ + spec_nat_str(row_count as nat));
                }
                QDL(out)
            },
            _ => {
                let mut out = self.query.0.clone();
                out.append(" LIMIT ");
                crate::text::append_u64(&mut out, self.query_offset as u64);
                out.append(",");
                crate::text::append_u64(&mut out, row_count as u64);
                proof {
                    assert(out@ =~= self.query.0@ + " LIMIT "@ + spec_nat_str(
                        self.query_offset as nat,
                    ) + ","@ + spec_nat_str(row_count as nat));
                }
                QDL(out)
            },
        }
    }

    /// The cached column and row counts.
    pub fn len(&self) -> (r: (usize, usize))
        ensures
            r.0 == self.query_cache.columns@.len(),
            r.1 == self.query_cache.rows@.len(),
    {
        (self.query_cache.columns.len(), self.query_cache.rows.len())
    }
}

} // verus!
