//! Snapshot planning and the snapshot registry model.
//!
//! A snapshot of a database is a statement list that rebuilds it: one CREATE
//! per relation in generation order, then, for the tables only and still in
//! generation order, one INSERT per stored row.  The deletion list is one
//! DROP per relation in reversed generation order.  The registry is a named
//! set of snapshot records, identified by file path.

use vstd::prelude::*;

use crate::paths::{
    get_dependency_graph, get_generation_path, spec_tables_resolvable, DependencyGraph,
};
use crate::relation::{spec_insert_stmt, Relation, RelationMethods, Table};
use crate::sql::{
    all_classified, kind_keyword, kind_of, starts_with_keyword, texts_of, StatementKind, SQL,
};
use crate::text::{lower_char, views_of};

verus! {

/// A text that starts with `INSERT` and a space and goes on classifies as an
/// INSERT statement.
proof fn lemma_insert_classifies(s: Seq<char>)
    requires
        s.len() >= 8,
        s.len() >= "INSERT "@.len(),
        forall|i: int| 0 <= i < "INSERT "@.len() ==> s[i] == "INSERT "@[i],
    ensures
        kind_of(s) == Some(StatementKind::Insert),
{
    reveal_strlit("INSERT ");
    assert(s[0] == 'I' && s[1] == 'N' && s[2] == 'S' && s[3] == 'E' && s[4] == 'R' && s[5] == 'T'
        && s[6] == ' ');
    assert(lower_char('I') == 'i');
    assert(lower_char('N') == 'n');
    assert(lower_char('S') == 's');
    assert(lower_char('E') == 'e');
    assert(lower_char('R') == 'r');
    assert(lower_char('T') == 't');
    assert(starts_with_keyword(s, kind_keyword(StatementKind::Insert)));
    assert(!starts_with_keyword(s, kind_keyword(StatementKind::Create)));
    assert(!starts_with_keyword(s, kind_keyword(StatementKind::Alter)));
    assert(!starts_with_keyword(s, kind_keyword(StatementKind::Drop)));
    assert(!starts_with_keyword(s, kind_keyword(StatementKind::Truncate)));
    assert(!starts_with_keyword(s, kind_keyword(StatementKind::Show)));
    assert(!starts_with_keyword(s, kind_keyword(StatementKind::Select)));
}

/// A text that starts with `DROP` and a space and goes on classifies as a
/// DROP statement.
proof fn lemma_drop_classifies(s: Seq<char>)
    requires
        s.len() >= 6,
        s.len() >= "DROP "@.len(),
        forall|i: int| 0 <= i < "DROP "@.len() ==> s[i] == "DROP "@[i],
    ensures
        kind_of(s) == Some(StatementKind::Drop),
{
    reveal_strlit("DROP ");
    assert(s[0] == 'D' && s[1] == 'R' && s[2] == 'O' && s[3] == 'P' && s[4] == ' ');
    assert(lower_char('D') == 'd');
    assert(lower_char('R') == 'r');
    assert(lower_char('O') == 'o');
    assert(lower_char('P') == 'p');
    assert(starts_with_keyword(s, kind_keyword(StatementKind::Drop)));
    assert(!starts_with_keyword(s, kind_keyword(StatementKind::Create)));
    assert(!starts_with_keyword(s, kind_keyword(StatementKind::Alter)));
}

/// A permutation of the indices `0 .. n`.
pub open spec fn spec_is_perm(order: Seq<usize>, n: int) -> bool {
    &&& order.len() == n
    &&& (forall|j: int| 0 <= j < order.len() ==> (#[trigger] order[j]) < n)
    &&& (forall|j1: int, j2: int| 0 <= j1 < j2 < order.len() ==> order[j1] != order[j2])
    &&& (forall|i: int| 0 <= i < n ==> order.contains(#[trigger] (i as usize)))
}

/// The CREATE texts of the relations, one per entry of `order`.
pub open spec fn spec_creation_texts(rels: Seq<Relation>, order: Seq<usize>) -> Seq<Seq<char>>
    decreases order.len(),
{
    if order.len() == 0 {
        Seq::empty()
    } else {
        spec_creation_texts(rels, order.drop_last()) + seq![
            rels[order.last() as int].spec_create(),
        ]
    }
}

/// The INSERT texts of one table's rows, in row order; a row covering no
/// attribute yields nothing.
pub open spec fn spec_table_inserts(t: Table, rows: Seq<Vec<(String, String)>>) -> Seq<Seq<char>>
    decreases rows.len(),
{
    if rows.len() == 0 {
        Seq::empty()
    } else {
        spec_table_inserts(t, rows.drop_last()) + (match spec_insert_stmt(t, rows.last()@) {
            Some(s) => seq![s],
            None => Seq::empty(),
        })
    }
}

/// The INSERT texts of the tables among the relations, taken in `order`;
/// views yield nothing.
pub open spec fn spec_insert_texts(
    rels: Seq<Relation>,
    order: Seq<usize>,
    rows: Seq<Vec<Vec<(String, String)>>>,
) -> Seq<Seq<char>>
    decreases order.len(),
{
    if order.len() == 0 {
        Seq::empty()
    } else {
        spec_insert_texts(rels, order.drop_last(), rows) + (match rels[order.last() as int] {
            Relation::Table(t) => spec_table_inserts(t, rows[order.last() as int]@),
            Relation::View(_) => Seq::empty(),
        })
    }
}

/// The DROP texts of the relations, in reversed `order`.
pub open spec fn spec_deletion_texts(rels: Seq<Relation>, order: Seq<usize>) -> Seq<Seq<char>> {
    Seq::new(order.len(), |j: int| rels[order[order.len() - 1 - j] as int].spec_drop())
}

/// One CREATE statement per relation, in the given order.
pub fn creation_cmds(relations: &Vec<Relation>, order: &Vec<usize>) -> (r: Vec<SQL>)
    requires
        forall|j: int| 0 <= j < order@.len() ==> (#[trigger] order@[j]) < relations@.len(),
        forall|i: int| 0 <= i < relations@.len() ==> (#[trigger] relations@[i]).wf(),
    ensures
        texts_of(r@) == spec_creation_texts(relations@, order@),
        all_classified(r@),
        r@.len() == order@.len(),
{
    let mut r: Vec<SQL> = Vec::new();
    let mut j: usize = 0;
    while j < order.len()
        invariant
            j <= order@.len(),
            forall|m: int| 0 <= m < order@.len() ==> (#[trigger] order@[m]) < relations@.len(),
            forall|i: int| 0 <= i < relations@.len() ==> (#[trigger] relations@[i]).wf(),
            r@.len() == j,
            texts_of(r@) == spec_creation_texts(relations@, order@.take(j as int)),
            all_classified(r@),
        decreases order@.len() - j,
    {
        let idx = order[j];
        let ddl = relations[idx].create();
        let ghost prev = r@;
        r.push(SQL::Create(ddl));
        proof {
            assert(order@.take(j as int + 1).drop_last() =~= order@.take(j as int));
            assert(order@.take(j as int + 1).last() == order@[j as int]);
            assert(texts_of(r@) =~= texts_of(prev).push(r@[j as int].spec_text()));
            assert(texts_of(prev) + seq![relations@[order@[j as int] as int].spec_create()]
                =~= texts_of(prev).push(relations@[order@[j as int] as int].spec_create()));
        }
        j += 1;
    }
    proof {
        assert(order@.take(order@.len() as int) =~= order@);
    }
    r
}

/// One INSERT statement per covered row of each table, tables taken in the
/// given order; views carry no rows.
pub fn insertion_cmds(
    relations: &Vec<Relation>,
    order: &Vec<usize>,
    rows: &Vec<Vec<Vec<(String, String)>>>,
) -> (r: Vec<SQL>)
    requires
        forall|j: int| 0 <= j < order@.len() ==> (#[trigger] order@[j]) < relations@.len(),
        rows@.len() == relations@.len(),
    ensures
        texts_of(r@) == spec_insert_texts(relations@, order@, rows@),
        all_classified(r@),
{
    let mut r: Vec<SQL> = Vec::new();
    let mut j: usize = 0;
    while j < order.len()
        invariant
            j <= order@.len(),
            forall|m: int| 0 <= m < order@.len() ==> (#[trigger] order@[m]) < relations@.len(),
            rows@.len() == relations@.len(),
            texts_of(r@) == spec_insert_texts(relations@, order@.take(j as int), rows@),
            all_classified(r@),
        decreases order@.len() - j,
    {
        let idx = order[j];
        proof {
            assert(order@.take(j as int + 1).drop_last() =~= order@.take(j as int));
            assert(order@.take(j as int + 1).last() == order@[j as int]);
        }
        match &relations[idx] {
            Relation::Table(t) => {
                let table_rows = &rows[idx];
                let mut k: usize = 0;
                while k < table_rows.len()
                    invariant
                        k <= table_rows@.len(),
                        table_rows@ == rows@[idx as int]@,
                        texts_of(r@) == spec_insert_texts(relations@, order@.take(j as int), rows@)
                            + spec_table_inserts(*t, table_rows@.take(k as int)),
                        all_classified(r@),
                    decreases table_rows@.len() - k,
                {
                    proof {
                        assert(table_rows@.take(k as int + 1).drop_last() =~= table_rows@.take(
                            k as int,
                        ));
                        assert(table_rows@.take(k as int + 1).last() == table_rows@[k as int]);
                    }
                    let ghost prev = r@;
                    match t.insert(&table_rows[k]) {
                        Some(qml) => {
                            let ghost qt = qml.0@;
                            r.push(SQL::Insert(qml));
                            proof {
                                reveal_strlit("INSERT INTO ");
                                reveal_strlit("INSERT ");
                                lemma_insert_classifies(qt);
                                assert(texts_of(r@) =~= texts_of(prev).push(qt));
                                assert((spec_insert_texts(relations@, order@.take(j as int), rows@)
                                    + spec_table_inserts(*t, table_rows@.take(k as int))) + seq![qt]
                                    =~= spec_insert_texts(relations@, order@.take(j as int), rows@)
                                    + (spec_table_inserts(*t, table_rows@.take(k as int)) + seq![
                                    qt,
                                ]));
                            }
                        },
                        None => {
                            proof {
                                assert(spec_table_inserts(*t, table_rows@.take(k as int)) + Seq::<
                                    Seq<char>,
                                >::empty() =~= spec_table_inserts(
                                    *t,
                                    table_rows@.take(k as int),
                                ));
                            }
                        },
                    }
                    k += 1;
                }
                proof {
                    assert(table_rows@.take(table_rows@.len() as int) =~= table_rows@);
                }
            },
            Relation::View(_) => {
                proof {
                    assert(texts_of(r@) + Seq::<Seq<char>>::empty() =~= texts_of(r@));
                }
            },
        }
        j += 1;
    }
    proof {
        assert(order@.take(order@.len() as int) =~= order@);
    }
    r
}

/// One DROP statement per relation, in reversed order.
pub fn deletion_cmds(relations: &Vec<Relation>, order: &Vec<usize>) -> (r: Vec<SQL>)
    requires
        forall|j: int| 0 <= j < order@.len() ==> (#[trigger] order@[j]) < relations@.len(),
        forall|i: int| 0 <= i < relations@.len() ==> (#[trigger] relations@[i]).wf(),
    ensures
        texts_of(r@) == spec_deletion_texts(relations@, order@),
        all_classified(r@),
        r@.len() == order@.len(),
{
    let mut r: Vec<SQL> = Vec::new();
    let mut j: usize = 0;
    while j < order.len()
        invariant
            j <= order@.len(),
            forall|m: int| 0 <= m < order@.len() ==> (#[trigger] order@[m]) < relations@.len(),
            forall|i: int| 0 <= i < relations@.len() ==> (#[trigger] relations@[i]).wf(),
            r@.len() == j,
            forall|m: int|
                0 <= m < j ==> (#[trigger] r@[m]).spec_text() == relations@[order@[order@.len() - 1
                    - m] as int].spec_drop(),
            all_classified(r@),
        decreases order@.len() - j,
    {
        let idx = order[order.len() - 1 - j];
        let ddl = match &relations[idx] {
            Relation::Table(t) => {
                let d = t.drop();
                proof {
                    reveal_strlit("DROP TABLE ");
                    reveal_strlit("DROP ");
                    lemma_drop_classifies(d.0@);
                }
                d
            },
            Relation::View(v) => {
                let d = v.drop();
                proof {
                    reveal_strlit("DROP VIEW ");
                    reveal_strlit("DROP ");
                    lemma_drop_classifies(d.0@);
                }
                d
            },
        };
        r.push(SQL::Drop(ddl));
        j += 1;
    }
    proof {
        assert(texts_of(r@) =~= spec_deletion_texts(relations@, order@));
    }
    r
}

/// The full snapshot of a database state: given the relations and, for each
/// relation index, its stored rows, builds the CREATE statements in
/// generation order followed by the INSERT statements of the tables in the
/// same order.
pub fn get_snapshot_cmds(relations: &Vec<Relation>, rows: &Vec<Vec<Vec<(String, String)>>>) -> (r:
    Vec<SQL>)
    requires
        spec_tables_resolvable(relations@),
        forall|i: int| 0 <= i < relations@.len() ==> (#[trigger] relations@[i]).wf(),
        rows@.len() == relations@.len(),
    ensures
        exists|order: Seq<usize>|
            #[trigger] spec_is_perm(order, relations@.len() as int) && texts_of(r@)
                == spec_creation_texts(relations@, order) + spec_insert_texts(
                relations@,
                order,
                rows@,
            ),
        all_classified(r@),
{
    let g: DependencyGraph = get_dependency_graph(relations);
    let order = get_generation_path(relations, &g);
    let mut r = creation_cmds(relations, &order);
    let ghost ct = texts_of(r@);
    let mut ins = insertion_cmds(relations, &order, rows);
    let ghost it = texts_of(ins@);
    r.append(&mut ins);
    proof {
        assert(texts_of(r@) =~= ct + it);
        assert(spec_is_perm(order@, relations@.len() as int));
    }
    r
}

/// The deletion list of a database state: one DROP per relation, in
/// reversed generation order.
pub fn get_deletion_cmds(relations: &Vec<Relation>) -> (r: Vec<SQL>)
    requires
        spec_tables_resolvable(relations@),
        forall|i: int| 0 <= i < relations@.len() ==> (#[trigger] relations@[i]).wf(),
    ensures
        exists|order: Seq<usize>|
            #[trigger] spec_is_perm(order, relations@.len() as int) && texts_of(r@)
                == spec_deletion_texts(relations@, order),
        all_classified(r@),
        r@.len() == relations@.len(),
{
    let g: DependencyGraph = get_dependency_graph(relations);
    let order = get_generation_path(relations, &g);
    let r = deletion_cmds(relations, &order);
    proof {
        assert(spec_is_perm(order@, relations@.len() as int));
    }
    r
}

/// The statement list of a rollback: the deletion list, then the new state,
/// as one batch.
pub fn rollback_cmds(deletions: Vec<SQL>, new_state: Vec<SQL>) -> (r: Vec<SQL>)
    ensures
        r@ == deletions@ + new_state@,
{
    let ghost dv = deletions@;
    let ghost nv = new_state@;
    let mut r = deletions;
    let mut b = new_state;
    r.append(&mut b);
    proof {
        assert(r@ =~= dv + nv);
    }
    r
}

/// A snapshot record: when it was taken, as seconds of the Unix epoch, and
/// where its statement file lies.  Two snapshots are the same snapshot
/// exactly when their paths are equal, whatever their timestamps.
#[derive(Debug)]
pub struct SnapShot {
    pub time_stamp: i64,
    pub path: String,
}

impl Clone for SnapShot {
    /// A clone carries the same timestamp and path.
    fn clone(&self) -> (r: SnapShot)
        ensures
            r == *self,
    {
        SnapShot { time_stamp: self.time_stamp, path: self.path.clone() }
    }
}

impl PartialEq for SnapShot {
    fn eq(&self, other: &SnapShot) -> (r: bool) {
        self.path == other.path
    }
}

impl Eq for SnapShot {

}

impl vstd::std_specs::cmp::PartialEqSpecImpl for SnapShot {
    open spec fn obeys_eq_spec() -> bool {
        true
    }

    open spec fn eq_spec(&self, other: &SnapShot) -> bool {
        self.path@ == other.path@
    }
}

/// The paths of a snapshot list.
pub open spec fn paths_of(s: Seq<SnapShot>) -> Seq<Seq<char>> {
    s.map_values(|x: SnapShot| x.path@)
}

/// The list with later records of an already-seen path dropped.
pub open spec fn spec_dedup(s: Seq<SnapShot>) -> Seq<SnapShot>
    decreases s.len(),
{
    if s.len() == 0 {
        Seq::empty()
    } else {
        let d = spec_dedup(s.drop_last());
        if paths_of(d).contains(s.last().path@) {
            d
        } else {
            d.push(s.last())
        }
    }
}

/// The paths of the old records whose path the new list does not keep.
pub open spec fn spec_orphans(olds: Seq<SnapShot>, news: Seq<Seq<char>>) -> Seq<Seq<char>>
    decreases olds.len(),
{
    if olds.len() == 0 {
        Seq::empty()
    } else {
        let r = spec_orphans(olds.drop_last(), news);
        if news.contains(olds.last().path@) {
            r
        } else {
            r.push(olds.last().path@)
        }
    }
}

/// Whether the list holds a record with this path.
fn contains_path(list: &Vec<SnapShot>, p: &String) -> (b: bool)
    ensures
        b == paths_of(list@).contains(p@),
{
    let mut i: usize = 0;
    while i < list.len()
        invariant
            i <= list@.len(),
            forall|j: int| 0 <= j < i ==> (#[trigger] list@[j]).path@ != p@,
        decreases list@.len() - i,
    {
        if list[i].path == *p {
            proof {
                assert(paths_of(list@)[i as int] == p@);
            }
            return true;
        }
        i += 1;
    }
    proof {
        assert forall|j: int| 0 <= j < paths_of(list@).len() implies paths_of(list@)[j] != p@ by {
            assert(paths_of(list@)[j] == list@[j].path@);
        }
    }
    false
}

/// The registry: its own file path, and the snapshots it holds, each path
/// at most once.
#[derive(Debug)]
pub struct SnapShotsFile {
    pub name: String,
    pub snap_shots: Vec<SnapShot>,
}

impl SnapShotsFile {
    /// Every path occurs at most once.
    pub open spec fn wf(&self) -> bool {
        forall|j1: int, j2: int|
            0 <= j1 < j2 < self.snap_shots@.len() ==> self.snap_shots@[j1].path@
                != self.snap_shots@[j2].path@
    }

    /// An empty registry under the given file path.
    pub fn new(name: &str) -> (r: SnapShotsFile)
        ensures
            r.name@ == name@,
            r.snap_shots@.len() == 0,
            r.wf(),
    {
        SnapShotsFile { name: name.to_owned(), snap_shots: Vec::new() }
    }

    /// Inserts a snapshot: a record with an already-present path leaves the
    /// registry unchanged; any other is appended.
    pub fn add_snapshot(&mut self, snapshot: SnapShot)
        requires
            old(self).wf(),
        ensures
            final(self).wf(),
            final(self).name == old(self).name,
            paths_of(old(self).snap_shots@).contains(snapshot.path@) ==> final(self).snap_shots@
                == old(self).snap_shots@,
            !paths_of(old(self).snap_shots@).contains(snapshot.path@) ==> final(self).snap_shots@
                == old(self).snap_shots@.push(snapshot),
    {
        if !contains_path(&self.snap_shots, &snapshot.path) {
            proof {
                assert forall|j: int| 0 <= j < self.snap_shots@.len() implies self.snap_shots@[j]
                    .path@ != snapshot.path@ by {
                    assert(paths_of(self.snap_shots@)[j] == self.snap_shots@[j].path@);
                }
            }
            self.snap_shots.push(snapshot);
        }
    }

    /// Replaces the registry's contents with the given snapshots, first
    /// occurrence of each path kept, and returns the paths of the old
    /// records that the new list does not keep: their files are orphaned.
    pub fn replace_snapshots(&mut self, snapshots: &Vec<SnapShot>) -> (orphans: Vec<String>)
        requires
            old(self).wf(),
        ensures
            final(self).wf(),
            final(self).name == old(self).name,
            final(self).snap_shots@ == spec_dedup(snapshots@),
            views_of(orphans@) == spec_orphans(
                old(self).snap_shots@,
                paths_of(snapshots@),
            ),
    {
        let mut orphans: Vec<String> = Vec::new();
        let mut i: usize = 0;
        while i < self.snap_shots.len()
            invariant
                i <= self.snap_shots@.len(),
                self == old(self),
                views_of(orphans@) == spec_orphans(
                    self.snap_shots@.take(i as int),
                    paths_of(snapshots@),
                ),
            decreases self.snap_shots@.len() - i,
        {
            proof {
                assert(self.snap_shots@.take(i as int + 1).drop_last() =~= self.snap_shots@.take(
                    i as int,
                ));
                assert(self.snap_shots@.take(i as int + 1).last() == self.snap_shots@[i as int]);
            }
            let ghost prev = orphans@;
            if !contains_path(snapshots, &self.snap_shots[i].path) {
                orphans.push(self.snap_shots[i].path.clone());
                proof {
                    assert(views_of(orphans@) =~= views_of(prev).push(
                        self.snap_shots@[i as int].path@,
                    ));
                }
            }
            i += 1;
        }
        proof {
            assert(self.snap_shots@.take(self.snap_shots@.len() as int) =~= self.snap_shots@);
        }
        let mut kept: Vec<SnapShot> = Vec::new();
        let mut k: usize = 0;
        while k < snapshots.len()
            invariant
                k <= snapshots@.len(),
                kept@ == spec_dedup(snapshots@.take(k as int)),
            decreases snapshots@.len() - k,
        {
            proof {
                assert(snapshots@.take(k as int + 1).drop_last() =~= snapshots@.take(k as int));
                assert(snapshots@.take(k as int + 1).last() == snapshots@[k as int]);
            }
            if !contains_path(&kept, &snapshots[k].path) {
                kept.push(snapshots[k].clone());
            }
            k += 1;
        }
        proof {
            assert(snapshots@.take(snapshots@.len() as int) =~= snapshots@);
        }
        self.snap_shots = kept;
        proof {
            lemma_dedup_wf(snapshots@);
        }
        orphans
    }
}

/// A deduplicated list holds each path at most once.
proof fn lemma_dedup_wf(s: Seq<SnapShot>)
    ensures
        forall|j1: int, j2: int|
            0 <= j1 < j2 < spec_dedup(s).len() ==> spec_dedup(s)[j1].path@ != spec_dedup(
                s,
            )[j2].path@,
    decreases s.len(),
{
    if s.len() > 0 {
        lemma_dedup_wf(s.drop_last());
        let d = spec_dedup(s.drop_last());
        if !paths_of(d).contains(s.last().path@) {
            assert forall|j1: int, j2: int|
                0 <= j1 < j2 < spec_dedup(s).len() implies spec_dedup(s)[j1].path@ != spec_dedup(
                s,
            )[j2].path@ by {
                if j2 == spec_dedup(s).len() - 1 {
                    assert(paths_of(d)[j1] == d[j1].path@);
                }
            }
        }
    }
}

} // verus!
