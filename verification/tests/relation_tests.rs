use schema_admin::relation::{
    Attribute, AttributeType, Constraint, Relation, RelationMethods, Table, View,
};
use schema_admin::sql::SQL;

#[test]
fn table_to_string_test_1() {
    let table = Table {
        name: String::from("table_1"),
        attributes: vec![Attribute {
            name: String::from("attr_1"),
            data_type: AttributeType::Text(10),
            constraint: vec![Constraint::NotNull, Constraint::Unique],
        }],
        primary_key: Some(0),
    };

    assert_eq!(
        table.to_string(),
        "CREATE TABLE table_1 (attr_1 text(10) Unique Not Null, PRIMARY KEY(attr_1))"
    )
}

#[test]
fn table_to_string_test_2() {
    let table = Table {
        name: String::from("table_1"),
        attributes: vec![Attribute {
            name: String::from("attr_1"),
            data_type: AttributeType::Text(10),
            constraint: vec![],
        }],
        primary_key: Some(0),
    };

    assert_eq!(table.to_string(), "CREATE TABLE table_1 (attr_1 text(10), PRIMARY KEY(attr_1))")
}

//a foreign key renders as a trailing clause of the attribute
#[test]
fn table_to_string_foreign_key() {
    let table = Table {
        name: String::from("orders"),
        attributes: vec![
            Attribute {
                name: String::from("id"),
                data_type: AttributeType::Int(11),
                constraint: vec![Constraint::NotNull],
            },
            Attribute {
                name: String::from("customer"),
                data_type: AttributeType::Int(11),
                constraint: vec![Constraint::ForeignKey {
                    table_name: String::from("customers"),
                    attribute_name: String::from("id"),
                }],
            },
        ],
        primary_key: Some(0),
    };
    assert_eq!(
        table.to_string(),
        "CREATE TABLE orders (id int(11) Not Null,customer int(11), FOREIGN KEY(customer) REFERENCES customers(id), PRIMARY KEY(id))"
    );
}

//a table without a primary key closes after the attribute list
#[test]
fn table_to_string_no_primary_key() {
    let table = Table {
        name: String::from("t"),
        attributes: vec![Attribute {
            name: String::from("a"),
            data_type: AttributeType::Bool,
            constraint: vec![],
        }],
        primary_key: None,
    };
    assert_eq!(table.to_string(), "CREATE TABLE t (a bool)");
}

//the CREATE built by a table classifies as a CREATE statement
#[test]
fn table_create_classifies() {
    let table = Table {
        name: String::from("t"),
        attributes: vec![Attribute {
            name: String::from("a"),
            data_type: AttributeType::Bool,
            constraint: vec![],
        }],
        primary_key: None,
    };
    let ddl = table.create();
    assert_eq!(ddl.0, "CREATE TABLE t (a bool)");
    assert_eq!(table.create_unchecked().0, ddl.0);
    assert!(matches!(SQL::new(&ddl.0), Ok(SQL::Create(_))));
}

#[test]
fn table_drop_and_select() {
    let table = Table { name: String::from("t"), attributes: vec![], primary_key: None };
    assert_eq!(table.drop().0, "DROP TABLE t");
    assert_eq!(table.select().0, "SELECT * FROM t");
}

#[test]
fn attribute_schema_fmt() {
    let attr = Attribute {
        name: String::from("price"),
        data_type: AttributeType::Decimal(6, 2),
        constraint: vec![],
    };
    assert_eq!(attr.schema_fmt(), "price decmimal(6,2)");
}

//each foreign key of the table is reported with its target
#[test]
fn get_foreign_keys_lists_targets() {
    let table = Table {
        name: String::from("t"),
        attributes: vec![
            Attribute {
                name: String::from("a"),
                data_type: AttributeType::Int(4),
                constraint: vec![],
            },
            Attribute {
                name: String::from("b"),
                data_type: AttributeType::Int(4),
                constraint: vec![Constraint::ForeignKey {
                    table_name: String::from("x"),
                    attribute_name: String::from("k"),
                }],
            },
            Attribute {
                name: String::from("c"),
                data_type: AttributeType::Int(4),
                constraint: vec![Constraint::ForeignKey {
                    table_name: String::from("y"),
                    attribute_name: String::from("m"),
                }],
            },
        ],
        primary_key: None,
    };
    assert_eq!(
        table.get_foreign_keys(),
        Some(vec![
            (String::from("x"), String::from("k")),
            (String::from("y"), String::from("m"))
        ])
    );
    let plain = Table { name: String::from("p"), attributes: vec![], primary_key: None };
    assert_eq!(plain.get_foreign_keys(), None);
}

//an insert lists exactly the covered attributes, in attribute order
#[test]
fn table_insert_covers_given_values() {
    let table = Table {
        name: String::from("tag"),
        attributes: vec![
            Attribute {
                name: String::from("colour"),
                data_type: AttributeType::Char(6),
                constraint: vec![],
            },
            Attribute {
                name: String::from("symbol"),
                data_type: AttributeType::VarChar(50),
                constraint: vec![],
            },
            Attribute {
                name: String::from("tag_type"),
                data_type: AttributeType::Int(4),
                constraint: vec![],
            },
        ],
        primary_key: None,
    };
    let values = vec![
        (String::from("tag_type"), String::from("2")),
        (String::from("colour"), String::from("'ffffff'")),
    ];
    let qml = table.insert(&values).unwrap();
    assert_eq!(qml.0, "INSERT INTO tag(colour,tag_type) VALUES ('ffffff',2)");
}

//an insert covering no attribute yields nothing
#[test]
fn table_insert_nothing_covered() {
    let table = Table {
        name: String::from("t"),
        attributes: vec![Attribute {
            name: String::from("a"),
            data_type: AttributeType::Bool,
            constraint: vec![],
        }],
        primary_key: None,
    };
    let values = vec![(String::from("other"), String::from("1"))];
    assert!(table.insert(&values).is_none());
}

//the type parser follows the fixed pattern order
#[test]
fn attribute_type_from_patterns() {
    assert_eq!(format!("{:?}", AttributeType::from("CHAR(12)")), "Some(Char(12))");
    assert_eq!(format!("{:?}", AttributeType::from("VARCHAR(300)")), "Some(VarChar(300))");
    assert_eq!(format!("{:?}", AttributeType::from("TINYTEXT")), "Some(TinyText)");
    assert_eq!(format!("{:?}", AttributeType::from("TEXT(10)")), "Some(Text(10))");
    assert_eq!(format!("{:?}", AttributeType::from("DECIMAL(6,2)")), "Some(Decimal(6, 2))");
    assert_eq!(format!("{:?}", AttributeType::from("TIMESTAMP")), "Some(TimeStamp)");
    assert_eq!(format!("{:?}", AttributeType::from("YEAR")), "Some(Year)");
    assert_eq!(format!("{:?}", AttributeType::from("NOSUCH")), "None");
    //an out-of-range size is refused rather than wrapped
    assert_eq!(format!("{:?}", AttributeType::from("CHAR(999)")), "None");
}

//the BOOL pattern matches before BOOLEAN, and DATE before DATETIME
#[test]
fn attribute_type_prefix_priority() {
    assert_eq!(format!("{:?}", AttributeType::from("BOOLEAN")), "Some(Bool)");
    assert_eq!(format!("{:?}", AttributeType::from("DATETIME")), "Some(Date)");
}

#[test]
fn view_methods() {
    let query = SQL::new("SELECT * FROM table_1").unwrap().qdl().unwrap().clone();
    let view = View::new("view_1", query);
    assert_eq!(view.name, "view_1");
    assert_eq!(view.select().0, "SELECT * FROM view_1");
    assert_eq!(view.drop().0, "DROP VIEW view_1");
    assert_eq!(view.create().0, "CREATE VIEW view_1 AS SELECT * FROM table_1");
    assert!(matches!(SQL::new(&view.create().0), Ok(SQL::Create(_))));
}

#[test]
fn relation_dispatch() {
    let table = Table {
        name: String::from("t"),
        attributes: vec![Attribute {
            name: String::from("a"),
            data_type: AttributeType::Bool,
            constraint: vec![],
        }],
        primary_key: None,
    };
    let rel = Relation::Table(table);
    assert_eq!(rel.name(), "t");
    assert_eq!(rel.select().0, "SELECT * FROM t");
    assert_eq!(rel.drop().0, "DROP TABLE t");
    assert_eq!(rel.create().0, "CREATE TABLE t (a bool)");

    let query = SQL::new("SELECT * FROM t").unwrap().qdl().unwrap().clone();
    let rel = Relation::View(View::new("v", query));
    assert_eq!(rel.name(), "v");
    assert_eq!(rel.drop().0, "DROP VIEW v");
}

//constraints compare by variant alone, whatever a foreign key refers to
#[test]
fn constraint_equality_by_kind() {
    let fk1 = Constraint::ForeignKey {
        table_name: String::from("a"),
        attribute_name: String::from("x"),
    };
    let fk2 = Constraint::ForeignKey {
        table_name: String::from("b"),
        attribute_name: String::from("y"),
    };
    assert_eq!(fk1, fk2);
    assert_eq!(Constraint::NotNull, Constraint::NotNull);
    assert_ne!(Constraint::NotNull, Constraint::Unique);
}
