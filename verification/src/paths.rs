//! The relation dependency graph and the generation-order resolver.
//!
//! Nodes are the indices of the relation list; a directed edge `(a, b)`
//! means that relation `b` depends on relation `a`: `a` must be created
//! before `b` and destroyed after it.  Table edges come from foreign keys;
//! view edges come from the table names following the FROM keyword of the
//! view's defining query, with the join forms first replaced by commas.

use vstd::prelude::*;

use crate::relation::{spec_fk_list, Relation};
use crate::text::{lower_char, str_to_chars, to_lower, views_of};

verus! {

/// A dependency graph over relation indices: `node_count` nodes named
/// `0 .. node_count`, and directed edges between them.
#[derive(Debug, Clone)]
pub struct DependencyGraph {
    pub node_count: usize,
    pub edges: Vec<(usize, usize)>,
}

impl DependencyGraph {
    /// Every edge connects two valid node indices.
    pub open spec fn wf(&self) -> bool {
        forall|k: int|
            0 <= k < self.edges@.len() ==> (#[trigger] self.edges@[k]).0 < self.node_count
                && self.edges@[k].1 < self.node_count
    }

    /// The edges as a mathematical sequence of index pairs.
    pub open spec fn spec_edges(&self) -> Seq<(int, int)> {
        self.edges@.map_values(|e: (usize, usize)| (e.0 as int, e.1 as int))
    }
}

/// The index of the relation carrying this name, taking the last match, as
/// repeated map insertion would.
pub open spec fn spec_name_index(rels: Seq<Relation>, name: Seq<char>) -> Option<int>
    decreases rels.len(),
{
    if rels.len() == 0 {
        None
    } else if rels.last().spec_name() == name {
        Some(rels.len() - 1)
    } else {
        spec_name_index(rels.drop_last(), name)
    }
}

/// Whether `s` holds `kw` (given in lower case) at its start,
/// case-insensitively.
pub open spec fn matches_ci(s: Seq<char>, kw: Seq<char>) -> bool {
    s.len() >= kw.len() && forall|i: int| 0 <= i < kw.len() ==> lower_char(s[i]) == kw[i]
}

/// The lower-case INNER JOIN form.
pub open spec fn kw_inner_join() -> Seq<char> {
    seq!['i', 'n', 'n', 'e', 'r', ' ', 'j', 'o', 'i', 'n']
}

/// The lower-case OUTER JOIN form.
pub open spec fn kw_outer_join() -> Seq<char> {
    seq!['o', 'u', 't', 'e', 'r', ' ', 'j', 'o', 'i', 'n']
}

/// The lower-case bare JOIN form.
pub open spec fn kw_join() -> Seq<char> {
    seq!['j', 'o', 'i', 'n']
}

/// The lower-case FROM keyword.
pub open spec fn kw_from() -> Seq<char> {
    seq!['f', 'r', 'o', 'm']
}

/// The comma and space that replace a join form.
pub open spec fn comma_space() -> Seq<char> {
    seq![',', ' ']
}

/// The query text with each join form replaced by a comma: at each position
/// `INNER JOIN`, `OUTER JOIN` and bare `JOIN` are tried in that order,
/// case-insensitively, and replaced by a comma and a space.
pub open spec fn spec_normalize_joins(s: Seq<char>) -> Seq<char>
    decreases s.len(),
{
    if s.len() == 0 {
        Seq::empty()
    } else if matches_ci(s, kw_inner_join()) {
        comma_space() + spec_normalize_joins(s.skip(10))
    } else if matches_ci(s, kw_outer_join()) {
        comma_space() + spec_normalize_joins(s.skip(10))
    } else if matches_ci(s, kw_join()) {
        comma_space() + spec_normalize_joins(s.skip(4))
    } else {
        seq![s[0]] + spec_normalize_joins(s.skip(1))
    }
}

/// Whether `c` can start a relation name.
pub open spec fn is_alpha(c: char) -> bool {
    (97 <= c as u32 && c as u32 <= 122) || (65 <= c as u32 && c as u32 <= 90)
}

/// Whether `c` can continue a relation name.
pub open spec fn is_name_char(c: char) -> bool {
    is_alpha(c) || (48 <= c as u32 && c as u32 <= 57) || c == '_'
}

/// Whether a name of at least two characters starts at `k`.
pub open spec fn name2_at(s: Seq<char>, k: int) -> bool {
    0 <= k && k + 1 < s.len() && is_alpha(s[k]) && is_name_char(s[k + 1])
}

/// The first position at or after `k` that does not hold a name character.
pub open spec fn name_end(s: Seq<char>, k: int) -> int
    decreases s.len() - k when 0 <= k <= s.len()
{
    if k >= s.len() || !is_name_char(s[k]) {
        k
    } else {
        name_end(s, k + 1)
    }
}

/// The first position at or after `k` that does not hold a newline or tab.
pub open spec fn ws_end(s: Seq<char>, k: int) -> int
    decreases s.len() - k when 0 <= k <= s.len()
{
    if k >= s.len() || !(s[k] == '\n' || s[k] == '\t') {
        k
    } else {
        ws_end(s, k + 1)
    }
}

/// Whether a FROM clause usable for dependency extraction starts at `i`:
/// the keyword, then one space or a run of newlines and tabs, then a name of
/// at least two characters.
pub open spec fn match_from_at(s: Seq<char>, i: int) -> bool {
    &&& 0 <= i
    &&& i + 4 <= s.len()
    &&& matches_ci(s.skip(i), kw_from())
    &&& ({
        ||| (i + 4 < s.len() && s[i + 4] == ' ' && name2_at(s, i + 5))
        ||| (ws_end(s, i + 4) > i + 4 && name2_at(s, ws_end(s, i + 4)))
    })
}

/// Where the first name after the FROM clause at `i` starts.
pub open spec fn from_names_start(s: Seq<char>, i: int) -> int {
    if i + 4 < s.len() && s[i + 4] == ' ' && name2_at(s, i + 5) {
        i + 5
    } else {
        ws_end(s, i + 4)
    }
}

/// The first position at or after `i` where a usable FROM clause starts.
pub open spec fn spec_find_from(s: Seq<char>, i: int) -> Option<int>
    decreases s.len() - i when 0 <= i <= s.len()
{
    if i >= s.len() {
        None
    } else if match_from_at(s, i) {
        Some(i)
    } else {
        spec_find_from(s, i + 1)
    }
}

/// The comma-separated name list starting at `k`: each name runs to the
/// first non-name character, and the list continues after a comma, or a
/// comma and one space, when another name of at least two characters
/// follows.
pub open spec fn spec_parse_names(s: Seq<char>, k: int) -> Seq<Seq<char>>
    decreases s.len() - k when 0 <= k && k + 1 < s.len() && is_name_char(s[k]) && is_name_char(s[k + 1])
    via spec_parse_names_decreases
{
    let e = name_end(s, k);
    let name = s.subrange(k, e);
    if e < s.len() && s[e] == ',' {
        if e + 1 < s.len() && s[e + 1] == ' ' {
            if name2_at(s, e + 2) {
                seq![name] + spec_parse_names(s, e + 2)
            } else {
                seq![name]
            }
        } else {
            if name2_at(s, e + 1) {
                seq![name] + spec_parse_names(s, e + 1)
            } else {
                seq![name]
            }
        }
    } else {
        seq![name]
    }
}

#[via_fn]
proof fn spec_parse_names_decreases(s: Seq<char>, k: int) {
    lemma_name_end_bounds(s, k);
}

/// The name list runs at least to the end of the name at `k`.
proof fn lemma_name_end_bounds(s: Seq<char>, k: int)
    requires
        0 <= k <= s.len(),
    ensures
        k <= name_end(s, k) <= s.len(),
        forall|j: int| k <= j < name_end(s, k) ==> is_name_char(s[j]),
    decreases s.len() - k,
{
    if k < s.len() && is_name_char(s[k]) {
        lemma_name_end_bounds(s, k + 1);
    }
}

/// The dependency names that a view query yields: the name list after the
/// first usable FROM clause of the join-normalized query, or nothing.
pub open spec fn spec_view_dep_names(q: Seq<char>) -> Seq<Seq<char>> {
    let n = spec_normalize_joins(q);
    match spec_find_from(n, 0) {
        None => Seq::empty(),
        Some(j) => spec_parse_names(n, from_names_start(n, j)),
    }
}

/// The dependency names of one relation: the referenced tables of a table's
/// foreign keys, or the FROM names of a view's query.
pub open spec fn spec_rel_dep_names(rel: Relation) -> Seq<Seq<char>> {
    match rel {
        Relation::Table(t) => spec_fk_list(t.attributes@).map_values(
            |p: (Seq<char>, Seq<char>)| p.0,
        ),
        Relation::View(v) => spec_view_dep_names(v.query.0@),
    }
}

/// The edges that a relation's dependency names yield: one edge from each
/// resolvable name's index to `i`; unresolvable names are skipped.
pub open spec fn spec_name_edges(rels: Seq<Relation>, names: Seq<Seq<char>>, i: int) -> Seq<
    (int, int),
>
    decreases names.len(),
{
    if names.len() == 0 {
        Seq::empty()
    } else {
        let rest = spec_name_edges(rels, names.drop_first(), i);
        match spec_name_index(rels, names[0]) {
            Some(k) => seq![(k, i)] + rest,
            None => rest,
        }
    }
}

/// All edges of the first `i` relations, in relation order.
pub open spec fn spec_all_edges(rels: Seq<Relation>, i: int) -> Seq<(int, int)>
    decreases i when 0 <= i <= rels.len()
{
    if i <= 0 {
        Seq::empty()
    } else {
        spec_all_edges(rels, i - 1) + spec_name_edges(rels, spec_rel_dep_names(rels[i - 1]), i - 1)
    }
}

/// Whether every foreign key of every table resolves to some relation name.
pub open spec fn spec_rel_fk_resolvable(rels: Seq<Relation>, r: Relation) -> bool {
    match r {
        Relation::Table(t) => forall|j: int|
            0 <= j < spec_fk_list(t.attributes@).len() ==> spec_name_index(
                rels,
                (#[trigger] spec_fk_list(t.attributes@)[j]).0,
            ) is Some,
        Relation::View(_) => true,
    }
}

/// Whether the relation list names every table that a foreign key refers to.
pub open spec fn spec_tables_resolvable(rels: Seq<Relation>) -> bool {
    forall|i: int| 0 <= i < rels.len() ==> spec_rel_fk_resolvable(rels, #[trigger] rels[i])
}

/// The index of the relation with this name, taking the last match.
fn name_index(rels: &Vec<Relation>, name: &String) -> (r: Option<usize>)
    ensures
        match r {
            Some(k) => spec_name_index(rels@, name@) == Some(k as int) && k < rels@.len(),
            None => spec_name_index(rels@, name@) is None,
        },
{
    let mut i: usize = rels.len();
    proof {
        assert(rels@.take(rels@.len() as int) =~= rels@);
    }
    while i > 0
        invariant
            i <= rels@.len(),
            spec_name_index(rels@, name@) == spec_name_index(rels@.take(i as int), name@),
        decreases i,
    {
        i -= 1;
        proof {
            assert(rels@.take(i as int + 1).drop_last() =~= rels@.take(i as int));
            assert(rels@.take(i as int + 1).last() == rels@[i as int]);
        }
        let n = rels[i].name();
        if n == *name {
            return Some(i);
        }
    }
    None
}

/// Whether `s` holds the lower-case keyword `kw` at position `i`,
/// case-insensitively.
fn matches_ci_at(s: &Vec<char>, i: usize, kw: &str) -> (b: bool)
    requires
        i <= s@.len(),
    ensures
        b == matches_ci(s@.skip(i as int), kw@),
{
    let klen = kw.unicode_len();
    if s.len() - i < klen {
        return false;
    }
    let mut j: usize = 0;
    while j < klen
        invariant
            j <= klen,
            klen == kw@.len(),
            i + klen <= s@.len(),
            s@.len() <= usize::MAX,
            forall|m: int| 0 <= m < j ==> lower_char(s@[i + m]) == kw@[m],
        decreases klen - j,
    {
        if to_lower(s[i + j]) != kw.get_char(j) {
            proof {
                assert(s@.skip(i as int)[j as int] == s@[i as int + j as int]);
            }
            return false;
        }
        j += 1;
    }
    proof {
        assert(forall|m: int|
            0 <= m < klen ==> s@.skip(i as int)[m] == s@[i as int + m]);
    }
    true
}

/// Replaces the join forms of a query by commas, as the normalizer spec
/// says.
fn normalize_joins(s: &Vec<char>) -> (r: Vec<char>)
    ensures
        r@ == spec_normalize_joins(s@),
{
    let mut out: Vec<char> = Vec::new();
    let mut i: usize = 0;
    proof {
        assert(s@.skip(0) =~= s@);
    }
    while i < s.len()
        invariant
            i <= s@.len(),
            spec_normalize_joins(s@) == out@ + spec_normalize_joins(s@.skip(i as int)),
        decreases s@.len() - i,
    {
        let ghost rest = s@.skip(i as int);
        let m_inner = matches_ci_at(s, i, "inner join");
        let m_outer = matches_ci_at(s, i, "outer join");
        let m_join = matches_ci_at(s, i, "join");
        proof {
            reveal_strlit("inner join");
            reveal_strlit("outer join");
            reveal_strlit("join");
            assert("inner join"@ =~= kw_inner_join());
            assert("outer join"@ =~= kw_outer_join());
            assert("join"@ =~= kw_join());
        }
        if m_inner || m_outer {
            let ghost prev = out@;
            out.push(',');
            out.push(' ');
            proof {
                assert(rest.skip(10) =~= s@.skip(i as int + 10));
                assert(prev + (comma_space() + spec_normalize_joins(s@.skip(i as int + 10)))
                    =~= out@ + spec_normalize_joins(s@.skip(i as int + 10)));
            }
            i += 10;
        } else if m_join {
            let ghost prev = out@;
            out.push(',');
            out.push(' ');
            proof {
                assert(rest.skip(4) =~= s@.skip(i as int + 4));
                assert(prev + (comma_space() + spec_normalize_joins(s@.skip(i as int + 4)))
                    =~= out@ + spec_normalize_joins(s@.skip(i as int + 4)));
            }
            i += 4;
        } else {
            let ghost prev = out@;
            out.push(s[i]);
            proof {
                assert(rest[0] == s@[i as int]);
                assert(rest.skip(1) =~= s@.skip(i as int + 1));
                assert(prev + (seq![s@[i as int]] + spec_normalize_joins(s@.skip(i as int + 1)))
                    =~= out@ + spec_normalize_joins(s@.skip(i as int + 1)));
            }
            i += 1;
        }
    }
    proof {
        assert(spec_normalize_joins(s@.skip(s@.len() as int)).len() == 0);
        assert(out@ + spec_normalize_joins(s@.skip(s@.len() as int)) =~= out@);
    }
    out
}

/// Whether the character can start a relation name.
fn alpha_exec(c: char) -> (b: bool)
    ensures
        b == is_alpha(c),
{
    let u: u32 = c as u32;
    (97 <= u && u <= 122) || (65 <= u && u <= 90)
}

/// Whether the character can continue a relation name.
fn name_char_exec(c: char) -> (b: bool)
    ensures
        b == is_name_char(c),
{
    let u: u32 = c as u32;
    (97 <= u && u <= 122) || (65 <= u && u <= 90) || (48 <= u && u <= 57) || c == '_'
}

/// Whether a name of at least two characters starts at `k`.
fn name2_exec(s: &Vec<char>, k: usize) -> (b: bool)
    ensures
        b == name2_at(s@, k as int),
{
    if k >= s.len() {
        return false;
    }
    if k + 1 >= s.len() {
        return false;
    }
    alpha_exec(s[k]) && name_char_exec(s[k + 1])
}

/// The end of the name-character run starting at `k`.
fn name_end_exec(s: &Vec<char>, k: usize) -> (e: usize)
    requires
        k <= s@.len(),
    ensures
        e as int == name_end(s@, k as int),
        k <= e <= s@.len(),
{
    let mut i: usize = k;
    while i < s.len() && name_char_exec(s[i])
        invariant
            k <= i <= s@.len(),
            name_end(s@, k as int) == name_end(s@, i as int),
        decreases s@.len() - i,
    {
        proof {
            assert(name_end(s@, i as int) == name_end(s@, i as int + 1));
        }
        i += 1;
    }
    proof {
        assert(name_end(s@, i as int) == i as int);
    }
    i
}

/// The end of the newline-and-tab run starting at `k`.
fn ws_end_exec(s: &Vec<char>, k: usize) -> (e: usize)
    requires
        k <= s@.len(),
    ensures
        e as int == ws_end(s@, k as int),
        k <= e <= s@.len(),
{
    let mut i: usize = k;
    while i < s.len() && (s[i] == '\n' || s[i] == '\t')
        invariant
            k <= i <= s@.len(),
            ws_end(s@, k as int) == ws_end(s@, i as int),
        decreases s@.len() - i,
    {
        proof {
            assert(ws_end(s@, i as int) == ws_end(s@, i as int + 1));
        }
        i += 1;
    }
    proof {
        assert(ws_end(s@, i as int) == i as int);
    }
    i
}

/// Whether a usable FROM clause starts at `i`.
fn match_from_exec(s: &Vec<char>, i: usize) -> (b: bool)
    requires
        i <= s@.len(),
    ensures
        b == match_from_at(s@, i as int),
{
    let nlen = s.len();
    let m = matches_ci_at(s, i, "from");
    proof {
        reveal_strlit("from");
        assert("from"@ =~= kw_from());
    }
    if !m {
        return false;
    }
    let space_path = i + 4 < nlen && s[i + 4] == ' ' && name2_exec(s, i + 5);
    if space_path {
        return true;
    }
    let we = ws_end_exec(s, i + 4);
    we > i + 4 && name2_exec(s, we)
}

/// The first position where a usable FROM clause starts.
fn find_from_exec(s: &Vec<char>) -> (r: Option<usize>)
    ensures
        match r {
            Some(j) => spec_find_from(s@, 0) == Some(j as int) && j < s@.len() && match_from_at(
                s@,
                j as int,
            ),
            None => spec_find_from(s@, 0) is None,
        },
{
    let mut i: usize = 0;
    while i < s.len()
        invariant
            i <= s@.len(),
            spec_find_from(s@, 0) == spec_find_from(s@, i as int),
        decreases s@.len() - i,
    {
        if match_from_exec(s, i) {
            return Some(i);
        }
        proof {
            assert(spec_find_from(s@, i as int) == spec_find_from(s@, i as int + 1));
        }
        i += 1;
    }
    None
}

/// The characters `a .. b` of the vector, as an owned string.
pub(crate) fn subvec_string(s: &Vec<char>, a: usize, b: usize) -> (r: String)
    requires
        a <= b <= s@.len(),
    ensures
        r@ == s@.subrange(a as int, b as int),
{
    let mut r = String::new();
    let mut i: usize = a;
    proof {
        assert(s@.subrange(a as int, a as int).len() == 0);
    }
    while i < b
        invariant
            a <= i <= b <= s@.len(),
            r@ == s@.subrange(a as int, i as int),
        decreases b - i,
    {
        crate::text::push_char(&mut r, s[i]);
        proof {
            assert(s@.subrange(a as int, i as int + 1) =~= s@.subrange(a as int, i as int).push(
                s@[i as int],
            ));
        }
        i += 1;
    }
    r
}

/// Reads the comma-separated name list that starts at `k`.
fn parse_names_exec(n: &Vec<char>, k: usize) -> (r: Vec<String>)
    requires
        name2_at(n@, k as int),
    ensures
        views_of(r@) == spec_parse_names(n@, k as int),
    decreases n@.len() - k,
{
    proof {
        lemma_name_end_bounds(n@, k as int);
        assert(name_end(n@, k as int) == name_end(n@, k as int + 1));
        assert(name_end(n@, k as int + 1) == name_end(n@, k as int + 2));
    }
    let e = name_end_exec(n, k);
    let name = subvec_string(n, k, e);
    let ghost nv = name@;
    let cont: Option<usize> = if e < n.len() && n[e] == ',' {
        if e + 1 < n.len() && n[e + 1] == ' ' {
            if name2_exec(n, e + 2) {
                Some(e + 2)
            } else {
                None
            }
        } else {
            if name2_exec(n, e + 1) {
                Some(e + 1)
            } else {
                None
            }
        }
    } else {
        None
    };
    match cont {
        Some(k2) => {
            let mut rest = parse_names_exec(n, k2);
            let ghost rv = views_of(rest@);
            let mut r: Vec<String> = Vec::new();
            r.push(name);
            r.append(&mut rest);
            proof {
                assert(views_of(r@) =~= seq![nv] + rv);
            }
            r
        },
        None => {
            let mut r: Vec<String> = Vec::new();
            r.push(name);
            proof {
                assert(views_of(r@) =~= seq![nv]);
            }
            r
        },
    }
}

/// The dependency names of a view query: the FROM names of the
/// join-normalized text.
fn view_dep_names(q: &str) -> (r: Vec<String>)
    ensures
        views_of(r@) == spec_view_dep_names(q@),
{
    let qc = str_to_chars(q);
    let n = normalize_joins(&qc);
    match find_from_exec(&n) {
        None => {
            let r: Vec<String> = Vec::new();
            proof {
                assert(views_of(r@) =~= Seq::<Seq<char>>::empty());
            }
            r
        },
        Some(j) => {
            let nlen = n.len();
            let start: usize = if j + 4 < nlen && n[j + 4] == ' ' && name2_exec(&n, j + 5) {
                j + 5
            } else {
                ws_end_exec(&n, j + 4)
            };
            parse_names_exec(&n, start)
        },
    }
}

/// The dependency names of a table: the tables its foreign keys refer to.
fn table_dep_names(t: &crate::relation::Table) -> (r: Vec<String>)
    ensures
        views_of(r@) == spec_fk_list(t.attributes@).map_values(|p: (Seq<char>, Seq<char>)| p.0),
{
    match t.get_foreign_keys() {
        Some(v) => {
            let mut r: Vec<String> = Vec::new();
            let mut i: usize = 0;
            while i < v.len()
                invariant
                    i <= v@.len(),
                    r@.len() == i,
                    forall|j: int| 0 <= j < i ==> #[trigger] r@[j]@ == v@[j].0@,
                decreases v@.len() - i,
            {
                r.push(v[i].0.clone());
                i += 1;
            }
            proof {
                assert(views_of(r@) =~= spec_fk_list(t.attributes@).map_values(
                    |p: (Seq<char>, Seq<char>)| p.0,
                ));
            }
            r
        },
        None => {
            let r: Vec<String> = Vec::new();
            proof {
                assert(views_of(r@) =~= spec_fk_list(t.attributes@).map_values(
                    |p: (Seq<char>, Seq<char>)| p.0,
                ));
            }
            r
        },
    }
}

/// Builds the dependency graph of a relation list: one node per relation
/// index and, for each relation, one edge from each resolvable dependency
/// name's index to the relation's own index, in relation order.
pub fn get_dependency_graph(relations: &Vec<Relation>) -> (g: DependencyGraph)
    requires
        spec_tables_resolvable(relations@),
    ensures
        g.node_count == relations@.len(),
        g.wf(),
        g.spec_edges() == spec_all_edges(relations@, relations@.len() as int),
{
    let mut edges: Vec<(usize, usize)> = Vec::new();
    let mut i: usize = 0;
    while i < relations.len()
        invariant
            i <= relations@.len(),
            edges@.map_values(|e: (usize, usize)| (e.0 as int, e.1 as int)) == spec_all_edges(
                relations@,
                i as int,
            ),
            forall|m: int|
                0 <= m < edges@.len() ==> (#[trigger] edges@[m]).0 < relations@.len()
                    && edges@[m].1 < relations@.len(),
        decreases relations@.len() - i,
    {
        let names: Vec<String> = match &relations[i] {
            Relation::Table(t) => table_dep_names(t),
            Relation::View(v) => view_dep_names(v.query.0.as_str()),
        };
        let ghost nv = views_of(names@);
        proof {
            assert(nv == spec_rel_dep_names(relations@[i as int]));
            assert(nv.skip(0) =~= nv);
        }
        let mut j: usize = 0;
        while j < names.len()
            invariant
                j <= names@.len(),
                nv == views_of(names@),
                nv == spec_rel_dep_names(relations@[i as int]),
                i < relations@.len(),
                edges@.map_values(|e: (usize, usize)| (e.0 as int, e.1 as int))
                    + spec_name_edges(relations@, nv.skip(j as int), i as int) == spec_all_edges(
                    relations@,
                    i as int,
                ) + spec_name_edges(relations@, nv, i as int),
                forall|m: int|
                    0 <= m < edges@.len() ==> (#[trigger] edges@[m]).0 < relations@.len()
                        && edges@[m].1 < relations@.len(),
            decreases names@.len() - j,
        {
            proof {
                assert(nv.skip(j as int).drop_first() =~= nv.skip(j as int + 1));
                assert(nv.skip(j as int)[0] == nv[j as int]);
            }
            let ghost prev = edges@;
            match name_index(relations, &names[j]) {
                Some(k) => {
                    edges.push((k, i));
                    proof {
                        assert(edges@.map_values(|e: (usize, usize)| (e.0 as int, e.1 as int))
                            =~= prev.map_values(|e: (usize, usize)| (e.0 as int, e.1 as int)).push(
                            (k as int, i as int),
                        ));
                        assert(prev.map_values(|e: (usize, usize)| (e.0 as int, e.1 as int)).push(
                            (k as int, i as int),
                        ) + spec_name_edges(relations@, nv.skip(j as int + 1), i as int)
                            =~= prev.map_values(|e: (usize, usize)| (e.0 as int, e.1 as int)) + (
                        seq![(k as int, i as int)] + spec_name_edges(
                            relations@,
                            nv.skip(j as int + 1),
                            i as int,
                        )));
                    }
                },
                None => {},
            }
            j += 1;
        }
        proof {
            assert(nv.skip(names@.len() as int).len() == 0);
            assert(spec_name_edges(relations@, nv.skip(names@.len() as int), i as int).len()
                == 0);
            assert(edges@.map_values(|e: (usize, usize)| (e.0 as int, e.1 as int)) + Seq::<
                (int, int),
            >::empty() =~= edges@.map_values(|e: (usize, usize)| (e.0 as int, e.1 as int)));
        }
        i += 1;
    }
    let g = DependencyGraph { node_count: relations.len(), edges };
    g
}

/// How many visited flags are set.
pub open spec fn count_visited(v: Seq<bool>) -> nat
    decreases v.len(),
{
    if v.len() == 0 {
        0
    } else {
        count_visited(v.drop_last()) + if v.last() {
            1nat
        } else {
            0nat
        }
    }
}

/// Setting one unset flag raises the count by one.
proof fn lemma_count_update(v: Seq<bool>, i: int)
    requires
        0 <= i < v.len(),
        !v[i],
    ensures
        count_visited(v.update(i, true)) == count_visited(v) + 1,
    decreases v.len(),
{
    if i == v.len() - 1 {
        assert(v.update(i, true).drop_last() =~= v.drop_last());
    } else {
        assert(v.update(i, true).drop_last() =~= v.drop_last().update(i, true));
        assert(v.update(i, true).last() == v.last());
        lemma_count_update(v.drop_last(), i);
    }
}

/// A pointwise larger flag vector has at least the count.
proof fn lemma_count_le(a: Seq<bool>, b: Seq<bool>)
    requires
        a.len() == b.len(),
        forall|k: int| 0 <= k < a.len() ==> (a[k] ==> b[k]),
    ensures
        count_visited(a) <= count_visited(b),
    decreases a.len(),
{
    if a.len() > 0 {
        assert(forall|k: int|
            0 <= k < a.drop_last().len() ==> (a.drop_last()[k] ==> b.drop_last()[k]));
        lemma_count_le(a.drop_last(), b.drop_last());
    }
}

/// The count never exceeds the length.
proof fn lemma_count_bound(v: Seq<bool>)
    ensures
        count_visited(v) <= v.len(),
    decreases v.len(),
{
    if v.len() > 0 {
        lemma_count_bound(v.drop_last());
    }
}

/// When no flag is set the count is zero.
proof fn lemma_count_none(v: Seq<bool>)
    requires
        forall|k: int| 0 <= k < v.len() ==> !v[k],
    ensures
        count_visited(v) == 0,
    decreases v.len(),
{
    if v.len() > 0 {
        lemma_count_none(v.drop_last());
    }
}

/// When every flag is set the count is the length.
proof fn lemma_count_full(v: Seq<bool>)
    requires
        forall|k: int| 0 <= k < v.len() ==> v[k],
    ensures
        count_visited(v) == v.len(),
    decreases v.len(),
{
    if v.len() > 0 {
        lemma_count_full(v.drop_last());
    }
}

/// An element is in a concatenation exactly when it is in one part.
proof fn lemma_contains_concat<T>(a: Seq<T>, b: Seq<T>, x: T)
    ensures
        (a + b).contains(x) <==> a.contains(x) || b.contains(x),
{
    if a.contains(x) {
        let j = choose|j: int| 0 <= j < a.len() && a[j] == x;
        assert((a + b)[j] == x);
    }
    if b.contains(x) {
        let j = choose|j: int| 0 <= j < b.len() && b[j] == x;
        assert((a + b)[a.len() + j] == x);
    }
    if (a + b).contains(x) {
        let j = choose|j: int| 0 <= j < (a + b).len() && (a + b)[j] == x;
        if j < a.len() {
            assert(a[j] == x);
        } else {
            assert(b[j - a.len()] == x);
        }
    }
}

/// Whether every node has at most one dependency source: two edges into the
/// same target leave the same source.
pub open spec fn spec_pred_unique(edges: Seq<(usize, usize)>) -> bool {
    forall|k1: int, k2: int|
        0 <= k1 < edges.len() && 0 <= k2 < edges.len() && (#[trigger] edges[k1]).1 == (
        #[trigger] edges[k2]).1 ==> edges[k1].0 == edges[k2].0
}

/// Whether the rank function orders every edge upward.
pub open spec fn spec_ranked(edges: Seq<(usize, usize)>, rank: Seq<int>) -> bool {
    forall|k: int|
        0 <= k < edges.len() ==> rank[(#[trigger] edges[k]).0 as int] < rank[edges[k].1 as int]
}

/// Whether the edges are acyclic: some rank function orders them.
pub open spec fn spec_acyclic(edges: Seq<(usize, usize)>, n: int) -> bool {
    exists|rank: Seq<int>| #[trigger] spec_ranked(edges, rank) && rank.len() == n
}

/// Whether the edge list connects `a` to `b`.
spec fn is_edge(edges: Seq<(usize, usize)>, a: usize, b: usize) -> bool {
    exists|k: int| 0 <= k < edges.len() && edges[k] == (a, b)
}

/// Whether the source of every edge into `y` is already emitted.
spec fn preds_emitted(edges: Seq<(usize, usize)>, emitted: Seq<usize>, y: usize) -> bool {
    forall|k: int|
        0 <= k < edges.len() && (#[trigger] edges[k]).1 == y ==> emitted.contains(edges[k].0)
}

/// Whether the emission order respects every edge: each emitted node's
/// dependency sources stand strictly earlier in the order.
pub open spec fn ordered_emission(emitted: Seq<usize>, edges: Seq<(usize, usize)>) -> bool {
    forall|j: int, k: int|
        0 <= j < emitted.len() && 0 <= k < edges.len() && (#[trigger] edges[k]).1 == (
        #[trigger] emitted[j]) ==> exists|j2: int| 0 <= j2 < j && emitted[j2] == edges[k].0
}

/// The well-formedness of the chain of expansions in progress: each deeper
/// one either follows an edge from its node to its caller's, or stands on a
/// node whose dependency sources are all emitted; the nodes are distinct,
/// below `n`, and none is emitted.
spec fn stack_ok(
    edges: Seq<(usize, usize)>,
    emitted: Seq<usize>,
    bs: Seq<usize>,
    n: int,
) -> bool {
    &&& (forall|j: int|
        1 <= j < bs.len() ==> is_edge(edges, bs[j], bs[j - 1]) || preds_emitted(
            edges,
            emitted,
            #[trigger] bs[j],
        ))
    &&& (forall|j1: int, j2: int| 0 <= j1 < j2 < bs.len() ==> bs[j1] != bs[j2])
    &&& (forall|j: int| 0 <= j < bs.len() ==> (#[trigger] bs[j]) < n)
    &&& (forall|j: int| 0 <= j < bs.len() ==> !emitted.contains(#[trigger] bs[j]))
}

/// Whether a new expansion fits the chain: a fresh root, a node with an
/// edge to the deepest frame's node, or a node whose dependency sources are
/// all emitted.
spec fn call_ok(
    edges: Seq<(usize, usize)>,
    emitted: Seq<usize>,
    bs: Seq<usize>,
    node: usize,
) -> bool {
    ||| bs.len() == 0
    ||| is_edge(edges, node, bs.last())
    ||| preds_emitted(edges, emitted, node)
}

/// An element is in a pushed sequence exactly when it is the new element or
/// was there before.
proof fn lemma_contains_push<T>(s: Seq<T>, x: T, y: T)
    ensures
        s.push(x).contains(y) <==> s.contains(y) || x == y,
{
    assert(s.push(x) =~= s + seq![x]);
    lemma_contains_concat(s, seq![x], y);
    assert(seq![x][0] == x);
    if seq![x].contains(y) {
        let j = choose|j: int| 0 <= j < seq![x].len() && seq![x][j] == y;
        assert(j == 0);
    }
    if x == y {
        assert(seq![x].contains(y));
    }
}

/// A well-formed chain stays well formed when the emission grows by nodes
/// outside the chain.
proof fn lemma_stack_ok_grow(
    edges: Seq<(usize, usize)>,
    emitted: Seq<usize>,
    more: Seq<usize>,
    bs: Seq<usize>,
    n: int,
)
    requires
        stack_ok(edges, emitted, bs, n),
        forall|j: int| 0 <= j < bs.len() ==> !more.contains(#[trigger] bs[j]),
    ensures
        stack_ok(edges, emitted + more, bs, n),
{
    assert forall|j: int|
        1 <= j < bs.len() implies is_edge(edges, bs[j], bs[j - 1]) || preds_emitted(
        edges,
        emitted + more,
        #[trigger] bs[j],
    ) by {
        if !is_edge(edges, bs[j], bs[j - 1]) {
            assert(preds_emitted(edges, emitted, bs[j]));
            assert forall|k: int|
                0 <= k < edges.len() && (#[trigger] edges[k]).1 == bs[j] implies (emitted
                + more).contains(edges[k].0) by {
                lemma_contains_concat(emitted, more, edges[k].0);
            }
        }
    }
    assert forall|j: int| 0 <= j < bs.len() implies !(emitted + more).contains(
        #[trigger] bs[j],
    ) by {
        lemma_contains_concat(emitted, more, bs[j]);
    }
}

/// Walking down the chain from the deepest frame: while its dependency
/// source sits deeper in the chain, each step is a chain edge, and the
/// deepest frame's rank never exceeds the step's.
proof fn lemma_chain(
    edges: Seq<(usize, usize)>,
    rank: Seq<int>,
    emitted: Seq<usize>,
    bs: Seq<usize>,
    n: int,
    i: int,
    j: int,
)
    requires
        spec_pred_unique(edges),
        spec_ranked(edges, rank),
        rank.len() == n,
        stack_ok(edges, emitted, bs, n),
        0 <= i,
        i < j <= bs.len() - 1,
        is_edge(edges, bs[i], bs[bs.len() - 1]),
    ensures
        is_edge(edges, bs[j], bs[j - 1]),
        rank[bs[bs.len() - 1] as int] <= rank[bs[j] as int],
    decreases bs.len() - j,
{
    let q = bs.len() - 1;
    if j == q {
        if !is_edge(edges, bs[q], bs[q - 1]) {
            assert(preds_emitted(edges, emitted, bs[q]));
            let k = choose|k: int| 0 <= k < edges.len() && edges[k] == (bs[i], bs[q]);
            assert(emitted.contains(edges[k].0));
            assert(false);
        }
    } else {
        lemma_chain(edges, rank, emitted, bs, n, i, j + 1);
        let k = choose|k: int| 0 <= k < edges.len() && edges[k] == (bs[j + 1], bs[j]);
        if !is_edge(edges, bs[j], bs[j - 1]) {
            assert(preds_emitted(edges, emitted, bs[j]));
            assert(emitted.contains(edges[k].0));
            assert(false);
        }
        assert(rank[(edges[k]).0 as int] < rank[edges[k].1 as int]);
    }
}

/// A frame's dependency source never sits deeper in a well-formed chain:
/// the chain edges and such a source's edge would close a cycle.
proof fn lemma_stack_no_pred(
    edges: Seq<(usize, usize)>,
    emitted: Seq<usize>,
    bs: Seq<usize>,
    n: int,
    i: int,
)
    requires
        spec_pred_unique(edges),
        spec_acyclic(edges, n),
        stack_ok(edges, emitted, bs, n),
        0 <= i < bs.len() - 1,
    ensures
        !is_edge(edges, bs[i], bs[bs.len() - 1]),
{
    if is_edge(edges, bs[i], bs[bs.len() - 1]) {
        let rank = choose|rank: Seq<int>| rank.len() == n && spec_ranked(edges, rank);
        lemma_chain(edges, rank, emitted, bs, n, i, i + 1);
        let q = bs.len() - 1;
        let k1 = choose|k: int| 0 <= k < edges.len() && edges[k] == (bs[i + 1], bs[i]);
        let k2 = choose|k: int| 0 <= k < edges.len() && edges[k] == (bs[i], bs[q]);
        assert(rank[(edges[k1]).0 as int] < rank[edges[k1].1 as int]);
        assert(rank[(edges[k2]).0 as int] < rank[edges[k2].1 as int]);
        assert(false);
    }
}

/// A node never has an edge to itself in an acyclic edge list.
proof fn lemma_no_self_edge(edges: Seq<(usize, usize)>, n: int, x: usize)
    requires
        spec_acyclic(edges, n),
        0 <= x < n,
    ensures
        !is_edge(edges, x, x),
{
    if is_edge(edges, x, x) {
        let rank = choose|rank: Seq<int>| rank.len() == n && spec_ranked(edges, rank);
        let k = choose|k: int| 0 <= k < edges.len() && edges[k] == (x, x);
        assert(rank[(edges[k]).0 as int] < rank[edges[k].1 as int]);
        assert(false);
    }
}

/// What one expansion does to the visited flags: the newly emitted nodes
/// are exactly the newly visited ones, each below `n`, emitted once, and
/// none of them visited before.
pub open spec fn order_extends(pre: Seq<bool>, post: Seq<bool>, order: Seq<usize>, n: int) -> bool {
    &&& (forall|j: int| 0 <= j < order.len() ==> (#[trigger] order[j]) < n)
    &&& (forall|j: int|
        0 <= j < order.len() ==> !pre[#[trigger] order[j] as int] && post[order[j] as int])
    &&& (forall|j1: int, j2: int| 0 <= j1 < j2 < order.len() ==> order[j1] != order[j2])
    &&& (forall|k: int|
        0 <= k < n ==> ((#[trigger] post[k]) <==> pre[k] || order.contains(k as usize)))
}

/// Expands one unvisited node: first every unvisited node with an edge into
/// it, then the node itself, then every unvisited node it has an edge to,
/// recursively.  Returns the emitted nodes, or nothing when the node was
/// already visited.
fn add_dependency(
    g: &DependencyGraph,
    visited: &mut Vec<bool>,
    node: usize,
    Ghost(emitted): Ghost<Seq<usize>>,
    Ghost(stack): Ghost<Seq<usize>>,
) -> (r: Option<Vec<usize>>)
    requires
        g.wf(),
        old(visited)@.len() == g.node_count,
        node < g.node_count,
        spec_pred_unique(g.edges@) && spec_acyclic(g.edges@, g.node_count as int) ==> ({
            &&& stack_ok(g.edges@, emitted, stack, g.node_count as int)
            &&& ordered_emission(emitted, g.edges@)
            &&& call_ok(g.edges@, emitted, stack, node)
            &&& (forall|k: int|
                0 <= k < g.node_count ==> ((#[trigger] old(visited)@[k]) <==> emitted.contains(
                    k as usize,
                ) || stack.contains(k as usize)))
        }),
    ensures
        final(visited)@.len() == g.node_count,
        forall|k: int| 0 <= k < g.node_count ==> (old(visited)@[k] ==> final(visited)@[k]),
        match r {
            None => old(visited)@[node as int] && final(visited)@ == old(visited)@,
            Some(order) => {
                &&& !old(visited)@[node as int]
                &&& order_extends(old(visited)@, final(visited)@, order@, g.node_count as int)
                &&& order@.contains(node)
                &&& order@.len() == count_visited(final(visited)@) - count_visited(old(visited)@)
                &&& (spec_pred_unique(g.edges@) && spec_acyclic(g.edges@, g.node_count as int)
                    ==> ({
                    &&& ordered_emission(emitted + order@, g.edges@)
                    &&& (forall|k: int|
                        0 <= k < g.node_count ==> ((#[trigger] final(visited)@[k]) <==> (emitted
                            + order@).contains(k as usize) || stack.contains(k as usize)))
                }))
            },
        },
    decreases g.node_count - count_visited(visited@),
{
    let ghost hyp = spec_pred_unique(g.edges@) && spec_acyclic(g.edges@, g.node_count as int);
    if visited[node] {
        return None;
    }
    visited[node] = true;
    proof {
        lemma_count_update(old(visited)@, node as int);
    }
    let ghost bs2 = stack.push(node);
    proof {
        if hyp {
            assert(!stack.contains(node) && !emitted.contains(node));
            assert forall|j: int| 1 <= j < bs2.len() implies is_edge(g.edges@, bs2[j], bs2[j - 1])
                || preds_emitted(g.edges@, emitted, #[trigger] bs2[j]) by {
                if j < stack.len() {
                    assert(bs2[j] == stack[j]);
                } else {
                    assert(bs2[j] == node);
                    assert(call_ok(g.edges@, emitted, stack, node));
                    assert(bs2[j - 1] == stack.last());
                }
            }
            assert(stack_ok(g.edges@, emitted, bs2, g.node_count as int));
        }
    }
    let mut order: Vec<usize> = Vec::new();
    let mut e: usize = 0;
    proof {
        if hyp {
            assert(emitted + order@ =~= emitted);
            assert forall|k: int| 0 <= k < g.node_count implies ((#[trigger] visited@[k]) <==> (
            emitted + order@).contains(k as usize) || bs2.contains(k as usize)) by {
                lemma_contains_push(stack, node, k as usize);
            }
        }
    }
    while e < g.edges.len()
        invariant
            g.wf(),
            node < g.node_count,
            visited@.len() == g.node_count,
            !old(visited)@[node as int],
            visited@[node as int],
            forall|k: int| 0 <= k < g.node_count ==> (old(visited)@[k] ==> visited@[k]),
            forall|j: int|
                0 <= j < order@.len() ==> (#[trigger] order@[j]) < g.node_count && order@[j]
                    != node,
            forall|j: int|
                0 <= j < order@.len() ==> !old(visited)@[#[trigger] order@[j] as int]
                    && visited@[order@[j] as int],
            forall|j1: int, j2: int| 0 <= j1 < j2 < order@.len() ==> order@[j1] != order@[j2],
            forall|k: int|
                0 <= k < g.node_count ==> ((#[trigger] visited@[k]) <==> old(visited)@[k] || k
                    == node as int || order@.contains(k as usize)),
            count_visited(visited@) == count_visited(old(visited)@) + 1 + order@.len(),
            e <= g.edges@.len(),
            forall|m: int|
                0 <= m < e ==> ((#[trigger] g.edges@[m]).1 == node ==> visited@[g.edges@[m].0 as int]),
            hyp == (spec_pred_unique(g.edges@) && spec_acyclic(g.edges@, g.node_count as int)),
            bs2 == stack.push(node),
            hyp ==> ({
                &&& stack_ok(g.edges@, emitted, bs2, g.node_count as int)
                &&& ordered_emission(emitted + order@, g.edges@)
                &&& (forall|k: int|
                    0 <= k < g.node_count ==> ((#[trigger] visited@[k]) <==> (emitted
                        + order@).contains(k as usize) || bs2.contains(k as usize)))
                &&& (forall|k: int|
                    0 <= k < g.node_count ==> ((#[trigger] old(visited)@[k]) <==> emitted.contains(
                        k as usize,
                    ) || stack.contains(k as usize)))
            }),
        decreases g.edges@.len() - e,
    {
        let a = g.edges[e].0;
        let b = g.edges[e].1;
        if b == node {
            let ghost vpre = visited@;
            let ghost opre = order@;
            proof {
                lemma_count_bound(visited@);
                if hyp {
                    assert forall|j: int| 0 <= j < bs2.len() implies !opre.contains(
                        #[trigger] bs2[j],
                    ) by {
                        if opre.contains(bs2[j]) {
                            let m = choose|m: int| 0 <= m < opre.len() && opre[m] == bs2[j];
                            assert(!old(visited)@[opre[m] as int] && opre[m] != node);
                            lemma_contains_push(stack, node, bs2[j]);
                        }
                    }
                    lemma_stack_ok_grow(g.edges@, emitted, opre, bs2, g.node_count as int);
                    assert(is_edge(g.edges@, a, bs2.last())) by {
                        assert(g.edges@[e as int] == (a, node));
                    }
                }
            }
            match add_dependency(g, visited, a, Ghost(emitted + opre), Ghost(bs2)) {
                Some(mut dep) => {
                    let ghost dv = dep@;
                    order.append(&mut dep);
                    proof {
                        assert(order@ == opre + dv);
                        assert forall|k: int| 0 <= k < g.node_count implies ((
                        #[trigger] visited@[k]) <==> old(visited)@[k] || k == node as int
                            || order@.contains(k as usize)) by {
                            lemma_contains_concat(opre, dv, k as usize);
                        }
                        assert forall|j1: int, j2: int|
                            0 <= j1 < j2 < order@.len() implies order@[j1] != order@[j2] by {
                            if j1 < opre.len() && j2 >= opre.len() {
                                assert(vpre[order@[j1] as int]);
                                assert(!vpre[order@[j2] as int]);
                            }
                        }
                        assert forall|j: int|
                            0 <= j < order@.len() implies (#[trigger] order@[j]) < g.node_count
                            && order@[j] != node && !old(visited)@[order@[j] as int]
                            && visited@[order@[j] as int] by {
                            if j >= opre.len() {
                                assert(dv.contains(order@[j]));
                                assert(!vpre[order@[j] as int]);
                                assert(vpre[node as int]);
                            }
                        }
                        if hyp {
                            assert((emitted + opre) + dv =~= emitted + order@);
                            assert(ordered_emission(emitted + order@, g.edges@));
                            assert forall|k: int| 0 <= k < g.node_count implies ((
                            #[trigger] visited@[k]) <==> (emitted + order@).contains(k as usize)
                                || bs2.contains(k as usize)) by {
                                assert(visited@[k] <==> ((emitted + opre) + dv).contains(
                                    k as usize,
                                ) || bs2.contains(k as usize));
                            }
                        }
                    }
                },
                None => {},
            }
            proof {
                assert(visited@[g.edges@[e as int].0 as int]);
            }
        }
        e += 1;
    }
    let ghost obase = order@;
    proof {
        if hyp {
            assert forall|k: int|
                0 <= k < g.edges@.len() && (#[trigger] g.edges@[k]).1 == node implies (emitted
                + obase).contains(g.edges@[k].0) by {
                let x = g.edges@[k].0;
                assert(visited@[x as int]);
                assert((emitted + obase).contains(x) || bs2.contains(x));
                if bs2.contains(x) {
                    let j = choose|j: int| 0 <= j < bs2.len() && bs2[j] == x;
                    if j == bs2.len() - 1 {
                        lemma_no_self_edge(g.edges@, g.node_count as int, node);
                        assert(g.edges@[k] == (node, node));
                        assert(is_edge(g.edges@, node, node));
                        assert(false);
                    } else {
                        lemma_stack_no_pred(g.edges@, emitted, bs2, g.node_count as int, j);
                        assert(g.edges@[k] == (x, node));
                        assert(bs2[bs2.len() - 1] == node);
                        assert(is_edge(g.edges@, bs2[j], bs2[bs2.len() - 1]));
                        assert(false);
                    }
                }
            }
        }
    }
    order.push(node);
    proof {
        assert(order@ =~= obase + seq![node]);
        assert(seq![node][0] == node);
        assert forall|k: int| 0 <= k < g.node_count implies ((#[trigger] visited@[k])
            <==> old(visited)@[k] || order@.contains(k as usize)) by {
            lemma_contains_concat(obase, seq![node], k as usize);
            if k == node as int {
                assert(seq![node].contains(k as usize));
            } else if seq![node].contains(k as usize) {
                let j = choose|j: int|
                    0 <= j < seq![node].len() && seq![node][j] == k as usize;
                assert(j == 0);
                assert(node == k as usize);
            }
        }
        assert(order@.contains(node)) by {
            assert(order@[order@.len() - 1] == node);
        }
        if hyp {
            assert(emitted + order@ =~= (emitted + obase) + seq![node]);
            let total = emitted + order@;
            let base = emitted + obase;
            assert forall|j: int, k: int|
                0 <= j < total.len() && 0 <= k < g.edges@.len() && (#[trigger] g.edges@[k]).1 == (
                #[trigger] total[j]) implies exists|j2: int|
                0 <= j2 < j && total[j2] == g.edges@[k].0 by {
                if j < base.len() {
                    assert(total[j] == base[j]);
                    let j2 = choose|j2: int| 0 <= j2 < j && base[j2] == g.edges@[k].0;
                    assert(total[j2] == g.edges@[k].0);
                } else {
                    assert(total[j] == node);
                    assert(base.contains(g.edges@[k].0));
                    let j2 = choose|j2: int| 0 <= j2 < base.len() && base[j2] == g.edges@[k].0;
                    assert(total[j2] == g.edges@[k].0);
                }
            }
            assert(ordered_emission(emitted + order@, g.edges@));
            assert forall|k: int| 0 <= k < g.node_count implies ((#[trigger] visited@[k]) <==> (
            emitted + order@).contains(k as usize) || stack.contains(k as usize)) by {
                lemma_contains_concat(emitted + obase, seq![node], k as usize);
                lemma_contains_push(stack, node, k as usize);
                if seq![node].contains(k as usize) {
                    let j = choose|j: int|
                        0 <= j < seq![node].len() && seq![node][j] == k as usize;
                    assert(j == 0);
                }
            }
        }
    }
    let mut e2: usize = 0;
    while e2 < g.edges.len()
        invariant
            g.wf(),
            node < g.node_count,
            visited@.len() == g.node_count,
            !old(visited)@[node as int],
            forall|k: int| 0 <= k < g.node_count ==> (old(visited)@[k] ==> visited@[k]),
            order_extends(old(visited)@, visited@, order@, g.node_count as int),
            order@.contains(node),
            count_visited(visited@) == count_visited(old(visited)@) + order@.len(),
            hyp == (spec_pred_unique(g.edges@) && spec_acyclic(g.edges@, g.node_count as int)),
            hyp ==> ({
                &&& stack_ok(g.edges@, emitted, stack, g.node_count as int)
                &&& ordered_emission(emitted + order@, g.edges@)
                &&& (forall|k: int|
                    0 <= k < g.node_count ==> ((#[trigger] visited@[k]) <==> (emitted
                        + order@).contains(k as usize) || stack.contains(k as usize)))
                &&& (forall|k: int|
                    0 <= k < g.node_count ==> ((#[trigger] old(visited)@[k]) <==> emitted.contains(
                        k as usize,
                    ) || stack.contains(k as usize)))
            }),
        decreases g.edges@.len() - e2,
    {
        let a = g.edges[e2].0;
        let b = g.edges[e2].1;
        if a == node {
            let ghost vpre = visited@;
            let ghost opre = order@;
            proof {
                lemma_count_bound(visited@);
                assert(count_visited(visited@) > count_visited(old(visited)@)) by {
                    assert(order@.len() > 0);
                }
                if hyp {
                    assert forall|j: int| 0 <= j < stack.len() implies !opre.contains(
                        #[trigger] stack[j],
                    ) by {
                        if opre.contains(stack[j]) {
                            let m = choose|m: int| 0 <= m < opre.len() && opre[m] == stack[j];
                            assert(!old(visited)@[opre[m] as int]);
                            assert(old(visited)@[stack[j] as int]);
                        }
                    }
                    lemma_stack_ok_grow(g.edges@, emitted, opre, stack, g.node_count as int);
                    assert(preds_emitted(g.edges@, emitted + opre, b)) by {
                        assert forall|k: int|
                            0 <= k < g.edges@.len() && (#[trigger] g.edges@[k]).1 == b implies (
                        emitted + opre).contains(g.edges@[k].0) by {
                            assert(g.edges@[e2 as int] == (node, b));
                            assert(g.edges@[k].0 == node);
                            assert(opre.contains(node));
                            lemma_contains_concat(emitted, opre, node);
                        }
                    }
                }
            }
            match add_dependency(g, visited, b, Ghost(emitted + opre), Ghost(stack)) {
                Some(mut dep) => {
                    let ghost dv = dep@;
                    order.append(&mut dep);
                    proof {
                        assert(order@ == opre + dv);
                        assert forall|k: int| 0 <= k < g.node_count implies ((
                        #[trigger] visited@[k]) <==> old(visited)@[k] || order@.contains(
                            k as usize,
                        )) by {
                            lemma_contains_concat(opre, dv, k as usize);
                        }
                        assert forall|j1: int, j2: int|
                            0 <= j1 < j2 < order@.len() implies order@[j1] != order@[j2] by {
                            if j1 < opre.len() && j2 >= opre.len() {
                                assert(vpre[order@[j1] as int]);
                                assert(!vpre[order@[j2] as int]);
                            }
                        }
                        assert forall|j: int|
                            0 <= j < order@.len() implies (#[trigger] order@[j]) < g.node_count
                            && !old(visited)@[order@[j] as int] && visited@[order@[j] as int] by {
                            if j >= opre.len() {
                                assert(dv.contains(order@[j]));
                                assert(!vpre[order@[j] as int]);
                            }
                        }
                        lemma_contains_concat(opre, dv, node);
                        if hyp {
                            assert((emitted + opre) + dv =~= emitted + order@);
                            assert(ordered_emission(emitted + order@, g.edges@));
                            assert forall|k: int| 0 <= k < g.node_count implies ((
                            #[trigger] visited@[k]) <==> (emitted + order@).contains(k as usize)
                                || stack.contains(k as usize)) by {
                                assert(visited@[k] <==> ((emitted + opre) + dv).contains(
                                    k as usize,
                                ) || stack.contains(k as usize));
                            }
                        }
                    }
                },
                None => {},
            }
        }
        e2 += 1;
    }
    Some(order)
}

/// Emits every relation index once: the indices are taken in order, and
/// each unvisited one is expanded with its dependencies and dependents.
/// The result is a permutation of `0 .. relations.len()`; when every node
/// has at most one dependency source and the edges are acyclic, the order
/// also respects every edge.
pub fn get_generation_path(relations: &Vec<Relation>, dependency_tree: &DependencyGraph) -> (r: Vec<
    usize,
>)
    requires
        dependency_tree.wf(),
        dependency_tree.node_count == relations@.len(),
    ensures
        r@.len() == relations@.len(),
        forall|j: int| 0 <= j < r@.len() ==> (#[trigger] r@[j]) < relations@.len(),
        forall|j1: int, j2: int| 0 <= j1 < j2 < r@.len() ==> r@[j1] != r@[j2],
        forall|i: int| 0 <= i < relations@.len() ==> r@.contains(#[trigger] (i as usize)),
        spec_pred_unique(dependency_tree.edges@) && spec_acyclic(
            dependency_tree.edges@,
            relations@.len() as int,
        ) ==> ordered_emission(r@, dependency_tree.edges@),
{
    let n = relations.len();
    let ghost hyp = spec_pred_unique(dependency_tree.edges@) && spec_acyclic(
        dependency_tree.edges@,
        n as int,
    );
    let mut visited: Vec<bool> = vec![false; n];
    let mut order: Vec<usize> = Vec::new();
    proof {
        lemma_count_none(visited@);
    }
    let mut i: usize = 0;
    while i < n
        invariant
            n == relations@.len(),
            dependency_tree.wf(),
            dependency_tree.node_count == n,
            visited@.len() == n,
            forall|j: int| 0 <= j < order@.len() ==> (#[trigger] order@[j]) < n,
            forall|j1: int, j2: int| 0 <= j1 < j2 < order@.len() ==> order@[j1] != order@[j2],
            forall|k: int| 0 <= k < n ==> ((#[trigger] visited@[k]) <==> order@.contains(
                k as usize,
            )),
            forall|k: int| 0 <= k < i ==> visited@[k],
            count_visited(visited@) == order@.len(),
            hyp == (spec_pred_unique(dependency_tree.edges@) && spec_acyclic(
                dependency_tree.edges@,
                n as int,
            )),
            hyp ==> ordered_emission(order@, dependency_tree.edges@),
        decreases n - i,
    {
        if !visited[i] {
            let ghost vpre = visited@;
            let ghost opre = order@;
            proof {
                if hyp {
                    assert(stack_ok(
                        dependency_tree.edges@,
                        opre,
                        Seq::<usize>::empty(),
                        n as int,
                    ));
                    assert(call_ok(dependency_tree.edges@, opre, Seq::<usize>::empty(), i));
                    assert forall|k: int| 0 <= k < n implies ((#[trigger] visited@[k])
                        <==> opre.contains(k as usize) || Seq::<usize>::empty().contains(
                        k as usize,
                    )) by {
                        if Seq::<usize>::empty().contains(k as usize) {
                            let j = choose|j: int|
                                0 <= j < Seq::<usize>::empty().len() && Seq::<usize>::empty()[j]
                                    == k as usize;
                            assert(false);
                        }
                    }
                }
            }
            match add_dependency(
                dependency_tree,
                &mut visited,
                i,
                Ghost(opre),
                Ghost(Seq::empty()),
            ) {
                Some(mut path) => {
                    let ghost pv = path@;
                    order.append(&mut path);
                    proof {
                        assert(order@ == opre + pv);
                        assert forall|k: int| 0 <= k < n implies ((#[trigger] visited@[k])
                            <==> order@.contains(k as usize)) by {
                            lemma_contains_concat(opre, pv, k as usize);
                        }
                        assert forall|j1: int, j2: int|
                            0 <= j1 < j2 < order@.len() implies order@[j1] != order@[j2] by {
                            if j1 < opre.len() && j2 >= opre.len() {
                                assert(vpre[order@[j1] as int]);
                                assert(!vpre[order@[j2] as int]);
                            }
                        }
                        assert forall|j: int|
                            0 <= j < order@.len() implies (#[trigger] order@[j]) < n by {
                            if j >= opre.len() {
                                assert(pv.contains(order@[j]));
                            }
                        }
                        assert(visited@[i as int]);
                    }
                },
                None => {
                    proof {
                        assert(false);
                    }
                },
            }
        }
        i += 1;
    }
    proof {
        lemma_count_full(visited@);
        assert forall|k: int| 0 <= k < relations@.len() implies order@.contains(
            #[trigger] (k as usize),
        ) by {
            assert(visited@[k]);
        }
    }
    order
}

} // verus!
