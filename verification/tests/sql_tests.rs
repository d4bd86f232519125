use schema_admin::sql::{ParseMode, SQLLanguage, DCL, DDL, QDL, QML, SQL};

//testing SQL parsing
//Data Definition Language
#[test]
fn create_test_1() {
    let input = "CREATE TABLE MyTable (RowId INT64 NOT NULL, `Order` INT64 ) PRIMARY KEY (RowId)";

    let actual = SQL::new(input).unwrap();

    assert_eq!(actual, SQL::Create(DDL(input.to_string())));

    assert_eq!(actual.ddl(), Some(&DDL(input.to_string())));
}

#[test]
fn alter_test_1() {
    let input = "ALTER DATABASE database_id";

    let actual = SQL::new(input).unwrap();

    assert_eq!(actual, SQL::Alter(DDL(input.to_string())));

    assert_eq!(actual.ddl(), Some(&DDL(input.to_string())));
}

#[test]
fn drop_test_1() {
    let input = "DROP TABLE table_name";

    let actual = SQL::new(input).unwrap();

    assert_eq!(actual, SQL::Drop(DDL(input.to_string())));

    assert_eq!(actual.ddl(), Some(&DDL(input.to_string())));
}

#[test]
fn truncate_test_1() {
    let input = "TRUNCATE TABLE table_name";

    let actual = SQL::new(input).unwrap();

    assert_eq!(actual, SQL::Truncate(DDL(input.to_string())));

    assert_eq!(actual.ddl(), Some(&DDL(input.to_string())));
}

//Query Data Language
#[test]
fn select_test_1() {
    let input = "SELECT 1 + 1";

    let actual = SQL::new(input).unwrap();

    assert_eq!(actual, SQL::Select(QDL(input.to_string())));

    assert_eq!(actual.qdl(), Some(&QDL(input.to_string())));
}

//Query Manipulation Language
#[test]
fn insert_test_1() {
    let input = "INSERT INTO tbl_name (col1,col2) VALUES(15,col1*2)";

    let actual = SQL::new(input).unwrap();

    assert_eq!(actual, SQL::Insert(QML(input.to_string())));

    assert_eq!(actual.qml(), Some(&QML(input.to_string())));
}

#[test]
fn update_test_1() {
    let input = "UPDATE t1 SET col1 = col1 + 1, col2 = col1";

    let actual = SQL::new(input).unwrap();

    assert_eq!(actual, SQL::Update(QML(input.to_string())));

    assert_eq!(actual.qml(), Some(&QML(input.to_string())));
}

#[test]
fn delete_test_1() {
    let input = "DELETE FROM somelog WHERE user = 'jcole' ORDER BY timestamp_column LIMIT 1";

    let actual = SQL::new(input).unwrap();

    assert_eq!(actual, SQL::Delete(QML(input.to_string())));

    assert_eq!(actual.qml(), Some(&QML(input.to_string())));
}

//Data Control Language
#[test]
fn grant_test_1() {
    let input = "GRANT ALL ON db1.* TO 'jeffrey'@'localhost'";

    let actual = SQL::new(input).unwrap();

    assert_eq!(actual, SQL::Grant(DCL(input.to_string())));

    assert_eq!(actual.dcl(), Some(&DCL(input.to_string())));
}

#[test]
fn revoke_test_1() {
    let input = "REVOKE INSERT ON *.* FROM 'jeffrey'@'localhost'";

    let actual = SQL::new(input).unwrap();

    assert_eq!(actual, SQL::Revoke(DCL(input.to_string())));

    assert_eq!(actual.dcl(), Some(&DCL(input.to_string())));
}

//classification is case-insensitive and keeps the text verbatim
#[test]
fn classify_mixed_casing() {
    assert_eq!(
        SQL::new("select 1 + 1").unwrap(),
        SQL::Select(QDL("select 1 + 1".to_string()))
    );
    assert_eq!(
        SQL::new("SeLeCt 1 + 1").unwrap(),
        SQL::Select(QDL("SeLeCt 1 + 1".to_string()))
    );
    assert_eq!(
        SQL::new("dRoP TABLE t").unwrap(),
        SQL::Drop(DDL("dRoP TABLE t".to_string()))
    );
    assert_eq!(
        SQL::new("gRaNt ALL ON x TO y").unwrap(),
        SQL::Grant(DCL("gRaNt ALL ON x TO y".to_string()))
    );
}

//text with no keyword, or a keyword without a space and more text, is refused
#[test]
fn classify_rejections() {
    assert!(SQL::new("EXPLAIN SELECT 1").is_err());
    assert!(SQL::new("SELECT").is_err());
    assert!(SQL::new("SELECT ").is_err());
    assert!(SQL::new("SELECTx 1").is_err());
    assert!(SQL::new("").is_err());
}

//the language category follows the leading keyword
#[test]
fn language_of_each_kind() {
    assert_eq!(SQL::new("CREATE TABLE t (a INT)").unwrap().get_language(), SQLLanguage::DDL);
    assert_eq!(SQL::new("SELECT * FROM t").unwrap().get_language(), SQLLanguage::QDL);
    assert_eq!(SQL::new("DELETE FROM t WHERE 1").unwrap().get_language(), SQLLanguage::QML);
    assert_eq!(SQL::new("REVOKE ALL ON t FROM u").unwrap().get_language(), SQLLanguage::DCL);
}

//the payload accessors yield nothing for the other languages
#[test]
fn accessors_of_other_languages() {
    let select = SQL::new("SELECT * FROM t").unwrap();
    assert_eq!(select.ddl(), None);
    assert_eq!(select.qml(), None);
    assert_eq!(select.dcl(), None);
    let create = SQL::new("CREATE TABLE t (a INT)").unwrap();
    assert_eq!(create.qdl(), None);
}

//the tokenizer strips a comment line, collapses whitespace, and keeps a
//newline inside a quoted string
#[test]
fn tokenizer_comment_and_string() {
    let text = "CREATE TABLE t (--comment\n id INT);\nSELECT \"a\nb\";";
    let actual = SQL::from_text(text);
    let expected = vec![
        SQL::new("CREATE TABLE t ( id INT)").unwrap(),
        SQL::new("SELECT \"a\nb\"").unwrap(),
    ];
    assert_eq!(actual, expected);
}

//a multi-line statement collapses to single spaces
#[test]
fn tokenizer_multi_line_cmd() {
    let text = "
                CREATE TABLE tag ( --multi line cmd
                    id INT AUTO_INCREMENT,
                    colour CHAR(6),
                    symbol VARCHAR(50) NOT NULL UNIQUE,
                    tag_type INT NOT NULL,
                    PRIMARY KEY(id)
                );


                SELECT \"\n\t\t\n\t\t\";--multi line but in a string
            ";
    let actual = SQL::from_text(text);
    let expected = vec![
        SQL::new("CREATE TABLE tag ( id INT AUTO_INCREMENT, colour CHAR(6), symbol VARCHAR(50) NOT NULL UNIQUE, tag_type INT NOT NULL, PRIMARY KEY(id) )").unwrap(),
        SQL::new("SELECT \"\n\t\t\n\t\t\"").unwrap(),
    ];
    assert_eq!(actual, expected);
}

//statements split on semicolons; an unterminated final statement is kept
#[test]
fn tokenizer_multiple_cmds() {
    let text = "
            --organizational tags\n
            INSERT INTO tag (colour, symbol, tag_type) VALUES (\"ffffff\", \"Web\", 2);
            INSERT INTO tag (colour, symbol, tag_type) VALUES (\"5CFFA1\", \"Shader\", 2);


            INSERT INTO tag (colour, symbol, tag_type) VALUES (\"FF5CBA\", \"GameJam\", 2);

            ";
    let actual = SQL::from_text(text);
    let expected = vec![
        SQL::new("INSERT INTO tag (colour, symbol, tag_type) VALUES (\"ffffff\", \"Web\", 2)")
            .unwrap(),
        SQL::new("INSERT INTO tag (colour, symbol, tag_type) VALUES (\"5CFFA1\", \"Shader\", 2)")
            .unwrap(),
        SQL::new("INSERT INTO tag (colour, symbol, tag_type) VALUES (\"FF5CBA\", \"GameJam\", 2)")
            .unwrap(),
    ];
    assert_eq!(actual, expected);
}

//a final statement without a terminator is still flushed
#[test]
fn tokenizer_final_flush() {
    let actual = SQL::from_text("SELECT 1 + 1");
    assert_eq!(actual, vec![SQL::new("SELECT 1 + 1").unwrap()]);
}

//a chunk of text that classifies to nothing is skipped, not kept
#[test]
fn tokenizer_skips_invalid() {
    let actual = SQL::from_text("nonsense here; SELECT 1 + 1;");
    assert_eq!(actual, vec![SQL::new("SELECT 1 + 1").unwrap()]);
}

//one tokenizer step opens a quote and accumulates the delimiter
#[test]
fn parse_mode_steps() {
    let mut buffer: Vec<char> = Vec::new();
    let mut cmds: Vec<SQL> = Vec::new();
    let mode = ParseMode::Regular;
    let mode = mode.parse(&mut buffer, &mut cmds, '\'');
    assert_eq!(mode, ParseMode::Quoted('\''));
    assert_eq!(buffer, vec!['\'']);
    let mode = mode.parse(&mut buffer, &mut cmds, ';');
    assert_eq!(mode, ParseMode::Quoted('\''));
    assert_eq!(buffer, vec!['\'', ';']);
    let mode = mode.parse(&mut buffer, &mut cmds, '\'');
    assert_eq!(mode, ParseMode::Regular);
    assert_eq!(buffer, vec!['\'', ';', '\'']);
    assert!(cmds.is_empty());
}

//the statement text survives a round trip through to_string
#[test]
fn to_string_round_trip() {
    let input = "UPDATE t1 SET col1 = col1 + 1";
    let sql = SQL::new(input).unwrap();
    assert_eq!(sql.to_string(), input);
    let again = SQL::new(&sql.to_string()).unwrap();
    assert_eq!(again, sql);
}
