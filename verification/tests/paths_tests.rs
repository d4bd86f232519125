use schema_admin::paths::{get_dependency_graph, get_generation_path, DependencyGraph};
use schema_admin::relation::{Attribute, AttributeType, Constraint, Relation, Table, View};
use schema_admin::sql::SQL;

fn plain_attr() -> Attribute {
    Attribute {
        name: String::from("attr_1"),
        data_type: AttributeType::Text(10),
        constraint: vec![],
    }
}

fn fk_attr(table_name: &str) -> Attribute {
    Attribute {
        name: String::from("attr_2"),
        data_type: AttributeType::Text(10),
        constraint: vec![Constraint::ForeignKey {
            table_name: String::from(table_name),
            attribute_name: String::from("attr_1"),
        }],
    }
}

fn table(name: &str, attributes: Vec<Attribute>, primary_key: Option<usize>) -> Relation {
    Relation::Table(Table { name: String::from(name), attributes, primary_key })
}

fn view(name: &str, query: &str) -> Relation {
    Relation::View(View::new(name, SQL::new(query).unwrap().qdl().unwrap().clone()))
}

//checks that every dependency of a relation stands before it in the path
fn assert_path(relations: &Vec<Relation>, graph: &DependencyGraph, path: &Vec<usize>) {
    assert_eq!(path.len(), relations.len());
    for i in 0..relations.len() {
        let position = path.iter().position(|v| *v == i).unwrap();
        let before = &path[0..position];
        for (a, b) in graph.edges.iter() {
            if *b == i {
                assert!(before.contains(a), "dependency {} must precede {}", a, i);
            }
        }
    }
}

#[test]
fn dependency_test_1() {
    let relations: Vec<Relation> = vec![
        table("table_1", vec![plain_attr()], Some(0)),
        table("table_2", vec![fk_attr("table_1")], None),
    ];

    let actual = get_dependency_graph(&relations);

    assert_eq!(actual.node_count, 2);
    assert_eq!(actual.edges, vec![(0, 1)]);
}

#[test]
fn dependency_test_2() {
    let relations: Vec<Relation> = vec![
        table("table_1", vec![plain_attr()], Some(0)),
        table("table_2", vec![plain_attr()], None),
    ];

    let actual = get_dependency_graph(&relations);

    assert_eq!(actual.node_count, 2);
    assert_eq!(actual.edges, vec![]);
}

#[test]
fn dependency_test_3() {
    let relations: Vec<Relation> = vec![
        table("table_1", vec![plain_attr()], Some(0)),
        table("table_2", vec![plain_attr()], Some(1)),
        table("table_3", vec![fk_attr("table_1"), fk_attr("table_2")], None),
    ];

    let actual = get_dependency_graph(&relations);

    assert_eq!(actual.node_count, 3);
    assert_eq!(actual.edges, vec![(0, 2), (1, 2)]);
}

#[test]
fn dependency_test_4() {
    let relations: Vec<Relation> = vec![
        table("table_1", vec![plain_attr()], Some(0)),
        view("view_1", "SELECT * FROM table_1"),
    ];

    let actual = get_dependency_graph(&relations);

    assert_eq!(actual.node_count, 2);
    assert_eq!(actual.edges, vec![(0, 1)]);
}

#[test]
fn dependency_test_5() {
    let relations: Vec<Relation> = vec![
        table("table_1", vec![plain_attr()], Some(0)),
        table("table_2", vec![plain_attr()], None),
        view("view_1", "SELECT * FROM table_1, table_2"),
    ];

    let actual = get_dependency_graph(&relations);

    assert_eq!(actual.node_count, 3);
    assert_eq!(actual.edges, vec![(0, 2), (1, 2)]);
}

#[test]
fn dependency_test_6() {
    let relations: Vec<Relation> = vec![
        table("table_1", vec![plain_attr()], Some(0)),
        table("table_2", vec![plain_attr()], Some(0)),
        table("table_3", vec![plain_attr()], Some(0)),
        view("view_1", "SELECT * FROM table_1, table_2, table_3"),
    ];

    let actual = get_dependency_graph(&relations);

    assert_eq!(actual.node_count, 4);
    assert_eq!(actual.edges, vec![(0, 3), (1, 3), (2, 3)]);
}

//a join form is replaced by a comma; the space that precedes it still ends
//the extracted name list, so only the first joined table is resolved
#[test]
fn dependency_join_forms() {
    let relations: Vec<Relation> = vec![
        table("table_1", vec![plain_attr()], Some(0)),
        table("table_2", vec![plain_attr()], None),
        view("view_1", "SELECT * FROM table_1 INNER JOIN table_2"),
    ];

    let actual = get_dependency_graph(&relations);

    assert_eq!(actual.edges, vec![(0, 2)]);
}

//a FROM name that matches no relation is skipped silently
#[test]
fn dependency_unknown_name_skipped() {
    let relations: Vec<Relation> = vec![
        table("table_1", vec![plain_attr()], Some(0)),
        view("view_1", "SELECT * FROM table_1, unknown_relation"),
    ];

    let actual = get_dependency_graph(&relations);

    assert_eq!(actual.edges, vec![(0, 1)]);
}

#[test]
fn generation_path_test_1() {
    let relations: Vec<Relation> = vec![table("table_1", vec![plain_attr()], Some(0))];

    let dependency_tree = get_dependency_graph(&relations);

    let actual = get_generation_path(&relations, &dependency_tree);

    assert_path(&relations, &dependency_tree, &actual);
}

#[test]
fn generation_path_test_2() {
    let relations: Vec<Relation> = vec![
        table("table_1", vec![plain_attr()], Some(0)),
        table("table_2", vec![fk_attr("table_1")], Some(0)),
    ];

    let dependency_tree = get_dependency_graph(&relations);

    let actual = get_generation_path(&relations, &dependency_tree);

    assert_path(&relations, &dependency_tree, &actual);
}

#[test]
fn generation_path_test_3() {
    let relations: Vec<Relation> = vec![
        table("table_1", vec![fk_attr("table_2")], Some(0)),
        table("table_2", vec![plain_attr()], Some(0)),
    ];

    let dependency_tree = get_dependency_graph(&relations);

    let actual = get_generation_path(&relations, &dependency_tree);

    assert_path(&relations, &dependency_tree, &actual);
}

#[test]
fn generation_path_test_4() {
    let relations: Vec<Relation> = vec![
        table("table_1", vec![plain_attr()], Some(0)),
        table("table_2", vec![fk_attr("table_1")], Some(0)),
        table("table_3", vec![fk_attr("table_2")], Some(0)),
    ];

    let dependency_tree = get_dependency_graph(&relations);

    let actual = get_generation_path(&relations, &dependency_tree);

    assert_path(&relations, &dependency_tree, &actual);
}

#[test]
fn generation_path_test_5() {
    let relations: Vec<Relation> = vec![
        table("table_1", vec![plain_attr()], Some(0)),
        table("table_2", vec![fk_attr("table_1")], Some(0)),
        table("table_3", vec![plain_attr()], Some(0)),
    ];

    let dependency_tree = get_dependency_graph(&relations);

    let actual = get_generation_path(&relations, &dependency_tree);

    assert_path(&relations, &dependency_tree, &actual);
}

#[test]
fn generation_path_test_6() {
    let relations: Vec<Relation> = vec![
        table("table_1", vec![fk_attr("table_3")], Some(0)),
        table("table_2", vec![plain_attr()], Some(0)),
        table("table_3", vec![fk_attr("table_2")], Some(0)),
    ];

    let dependency_tree = get_dependency_graph(&relations);

    let actual = get_generation_path(&relations, &dependency_tree);

    assert_path(&relations, &dependency_tree, &actual);
}

#[test]
fn generation_path_test_7() {
    let relations: Vec<Relation> = vec![
        table("table_1", vec![plain_attr()], Some(0)),
        table("table_2", vec![fk_attr("table_1")], Some(0)),
        table("table_3", vec![fk_attr("table_2")], Some(0)),
        table("table_4", vec![fk_attr("table_2")], Some(0)),
    ];

    let dependency_tree = get_dependency_graph(&relations);

    let actual = get_generation_path(&relations, &dependency_tree);

    assert_path(&relations, &dependency_tree, &actual);
}

//two relations with one dependency: one edge, and the generation order
//puts the referenced table first
#[test]
fn dependency_ordering_scenario() {
    let relations: Vec<Relation> = vec![
        table("table_1", vec![plain_attr()], None),
        table("table_2", vec![fk_attr("table_1")], None),
    ];

    let graph = get_dependency_graph(&relations);
    assert_eq!(graph.edges, vec![(0, 1)]);

    let order = get_generation_path(&relations, &graph);
    assert_eq!(order, vec![0, 1]);
}

//the generation path emits every relation index exactly once
#[test]
fn generation_path_is_permutation() {
    let relations: Vec<Relation> = vec![
        table("table_1", vec![fk_attr("table_3")], Some(0)),
        table("table_2", vec![plain_attr()], Some(0)),
        table("table_3", vec![fk_attr("table_2")], Some(0)),
        view("view_1", "SELECT * FROM table_1, table_2"),
    ];
    let graph = get_dependency_graph(&relations);
    let mut path = get_generation_path(&relations, &graph);
    path.sort();
    assert_eq!(path, vec![0, 1, 2, 3]);
}
