use schema_admin::executor::BatchRun;
use schema_admin::relation::{Attribute, AttributeType, Constraint, Relation, Table, View};
use schema_admin::snapshot::{
    creation_cmds, deletion_cmds, get_deletion_cmds, get_snapshot_cmds, insertion_cmds,
    rollback_cmds, SnapShot, SnapShotsFile,
};
use schema_admin::sql::SQL;

fn tag_table() -> Relation {
    Relation::Table(Table {
        name: String::from("tag"),
        attributes: vec![Attribute {
            name: String::from("id"),
            data_type: AttributeType::Int(4),
            constraint: vec![Constraint::NotNull],
        }],
        primary_key: Some(0),
    })
}

fn project_table() -> Relation {
    Relation::Table(Table {
        name: String::from("project"),
        attributes: vec![Attribute {
            name: String::from("tag_id"),
            data_type: AttributeType::Int(4),
            constraint: vec![Constraint::ForeignKey {
                table_name: String::from("tag"),
                attribute_name: String::from("id"),
            }],
        }],
        primary_key: None,
    })
}

fn texts(cmds: &Vec<SQL>) -> Vec<String> {
    cmds.iter().map(|c| c.to_string()).collect()
}

#[test]
fn creation_cmds_follow_order() {
    let relations = vec![tag_table(), project_table()];
    let order = vec![0usize, 1usize];
    let cmds = creation_cmds(&relations, &order);
    assert_eq!(
        texts(&cmds),
        vec![
            "CREATE TABLE tag (id int(4) Not Null, PRIMARY KEY(id))",
            "CREATE TABLE project (tag_id int(4), FOREIGN KEY(tag_id) REFERENCES tag(id))",
        ]
    );
}

#[test]
fn deletion_cmds_reverse_order() {
    let relations = vec![tag_table(), project_table()];
    let order = vec![0usize, 1usize];
    let cmds = deletion_cmds(&relations, &order);
    assert_eq!(texts(&cmds), vec!["DROP TABLE project", "DROP TABLE tag"]);
}

#[test]
fn insertion_cmds_tables_only() {
    let query = SQL::new("SELECT * FROM tag").unwrap().qdl().unwrap().clone();
    let relations = vec![tag_table(), Relation::View(View::new("v", query))];
    let order = vec![0usize, 1usize];
    let rows = vec![
        vec![
            vec![(String::from("id"), String::from("1"))],
            vec![(String::from("id"), String::from("2"))],
        ],
        vec![],
    ];
    let cmds = insertion_cmds(&relations, &order, &rows);
    assert_eq!(
        texts(&cmds),
        vec!["INSERT INTO tag(id) VALUES (1)", "INSERT INTO tag(id) VALUES (2)"]
    );
}

#[test]
fn snapshot_cmds_create_then_insert() {
    let relations = vec![tag_table(), project_table()];
    let rows = vec![
        vec![vec![(String::from("id"), String::from("7"))]],
        vec![vec![(String::from("tag_id"), String::from("7"))]],
    ];
    let cmds = get_snapshot_cmds(&relations, &rows);
    assert_eq!(
        texts(&cmds),
        vec![
            "CREATE TABLE tag (id int(4) Not Null, PRIMARY KEY(id))",
            "CREATE TABLE project (tag_id int(4), FOREIGN KEY(tag_id) REFERENCES tag(id))",
            "INSERT INTO tag(id) VALUES (7)",
            "INSERT INTO project(tag_id) VALUES (7)",
        ]
    );
}

#[test]
fn deletion_respects_dependencies() {
    let relations = vec![tag_table(), project_table()];
    let cmds = get_deletion_cmds(&relations);
    assert_eq!(texts(&cmds), vec!["DROP TABLE project", "DROP TABLE tag"]);
}

#[test]
fn rollback_cmds_concatenate() {
    let deletions = vec![SQL::new("DROP TABLE t").unwrap()];
    let new_state = vec![
        SQL::new("CREATE TABLE t (a INT)").unwrap(),
        SQL::new("INSERT INTO t(a) VALUES (1)").unwrap(),
    ];
    let cmds = rollback_cmds(deletions, new_state);
    assert_eq!(
        texts(&cmds),
        vec!["DROP TABLE t", "CREATE TABLE t (a INT)", "INSERT INTO t(a) VALUES (1)"]
    );
}

//two snapshots with the same path are the same snapshot
#[test]
fn snapshot_identity_by_path() {
    let a = SnapShot { time_stamp: 1, path: String::from("snap_shots/a.sql") };
    let b = SnapShot { time_stamp: 99, path: String::from("snap_shots/a.sql") };
    let c = SnapShot { time_stamp: 1, path: String::from("snap_shots/c.sql") };
    assert_eq!(a, b);
    assert_ne!(a, c);
}

#[test]
fn registry_add_deduplicates_by_path() {
    let mut file = SnapShotsFile::new("snap_shots.ron");
    file.add_snapshot(SnapShot { time_stamp: 1, path: String::from("one.sql") });
    file.add_snapshot(SnapShot { time_stamp: 2, path: String::from("two.sql") });
    file.add_snapshot(SnapShot { time_stamp: 3, path: String::from("one.sql") });
    assert_eq!(file.snap_shots.len(), 2);
    assert_eq!(file.snap_shots[0].time_stamp, 1);
    assert_eq!(file.snap_shots[0].path, "one.sql");
    assert_eq!(file.snap_shots[1].path, "two.sql");
}

#[test]
fn registry_replace_reports_orphans() {
    let mut file = SnapShotsFile::new("snap_shots.ron");
    file.add_snapshot(SnapShot { time_stamp: 1, path: String::from("one.sql") });
    file.add_snapshot(SnapShot { time_stamp: 2, path: String::from("two.sql") });
    let replacement = vec![
        SnapShot { time_stamp: 2, path: String::from("two.sql") },
        SnapShot { time_stamp: 4, path: String::from("four.sql") },
        SnapShot { time_stamp: 5, path: String::from("four.sql") },
    ];
    let orphans = file.replace_snapshots(&replacement);
    assert_eq!(orphans, vec![String::from("one.sql")]);
    assert_eq!(file.snap_shots.len(), 2);
    assert_eq!(file.snap_shots[0].path, "two.sql");
    assert_eq!(file.snap_shots[1].path, "four.sql");
    assert_eq!(file.snap_shots[1].time_stamp, 4);
}

//a batch runs its statements strictly in order and commits only complete
#[test]
fn batch_run_in_order() {
    let mut run = BatchRun::new(3);
    assert_eq!(run.next_action(), Some(0));
    run.on_success();
    assert_eq!(run.next_action(), Some(1));
    run.on_success();
    assert_eq!(run.next_action(), Some(2));
    run.on_success();
    assert_eq!(run.next_action(), None);
    assert!(run.should_commit());
    assert!(!run.should_rollback());
}

//the first failure aborts the batch: nothing further runs, no commit
#[test]
fn batch_run_aborts_on_failure() {
    let mut run = BatchRun::new(4);
    assert_eq!(run.next_action(), Some(0));
    run.on_success();
    run.on_failure();
    assert_eq!(run.next_action(), None);
    assert!(!run.should_commit());
    assert!(run.should_rollback());
}
