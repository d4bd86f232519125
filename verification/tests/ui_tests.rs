use schema_admin::cmd_stack::CmdStack;
use schema_admin::menu::{Menu, Tab};
use schema_admin::query::{Query, QueryError};
use schema_admin::query_page::QueryPage;
use schema_admin::sql::QDL;

#[test]
fn menu_cycles_through_tabs() {
    let mut menu = Menu::new(0);
    assert_eq!(*menu.get_tab(), Tab::Schema);
    assert_eq!(*menu.next(), Tab::Query);
    assert_eq!(*menu.next(), Tab::SnapShot);
    assert_eq!(*menu.next(), Tab::Schema);
    assert_eq!(*menu.prev(), Tab::SnapShot);
    assert_eq!(*menu.prev(), Tab::Query);
}

#[test]
fn menu_select_bounds() {
    let mut menu = Menu::new(0);
    assert_eq!(menu.select(2), Some(&Tab::SnapShot));
    assert_eq!(*menu.get_tab(), Tab::SnapShot);
    assert_eq!(menu.select(3), None);
    assert_eq!(*menu.get_tab(), Tab::SnapShot);
}

#[test]
fn cmd_stack_push_and_browse() {
    let mut stack: CmdStack<8> = CmdStack::default();
    assert_eq!(stack.len(), 0);
    assert_eq!(stack.get_pointer(), None);
    assert_eq!(stack.pop(), None);

    stack.push(String::from("first"));
    stack.push(String::from("second"));
    assert_eq!(stack.len(), 2);
    assert_eq!(stack.get_pointer(), Some(&String::from("second")));
    //the very first push lands one slot before the pointer's trail
    assert_eq!(stack.peek_prev(), Some(&String::from("")));
    assert!(stack.at_end());
    assert!(!stack.at_start());
}

#[test]
fn cmd_stack_pop_moves_back() {
    let mut stack: CmdStack<8> = CmdStack::default();
    stack.push(String::from("first"));
    stack.push(String::from("second"));
    assert_eq!(stack.pop(), Some(String::from("second")));
    assert_eq!(stack.len(), 1);
    assert_eq!(stack.pop(), Some(String::from("")));
    assert_eq!(stack.len(), 0);
    assert_eq!(stack.pop(), None);
}

//pushing into a full cyclic buffer drops the oldest entry
#[test]
fn cmd_stack_wraps_and_drops_oldest() {
    let mut stack: CmdStack<3> = CmdStack::default();
    stack.push(String::from("a"));
    stack.push(String::from("b"));
    stack.push(String::from("c"));
    assert_eq!(stack.len(), 2);
    assert_eq!(stack.get_pointer(), Some(&String::from("c")));
}

#[test]
fn query_from_classifies() {
    let q = Query::from("SELECT * FROM t").unwrap();
    assert!(matches!(q, Query::Select(_)));
    let q = Query::from("insert INTO t VALUES (1)").unwrap();
    assert!(matches!(q, Query::Insert(_)));
    let q = Query::from("Update t SET a = 1").unwrap();
    assert!(matches!(q, Query::Update(_)));
    let q = Query::from("DELETE FROM t WHERE 1").unwrap();
    assert!(matches!(q, Query::Delete(_)));
    assert!(matches!(Query::from("CREATE TABLE t (a INT)"), Err(QueryError::NoMethodInQuery)));
    assert!(matches!(Query::from("SELECT"), Err(QueryError::NoMethodInQuery)));
}

#[test]
fn query_page_offsets() {
    let qdl = QDL(String::from("SELECT * FROM t"));
    let mut page = QueryPage::new(&qdl);
    assert_eq!(page.len(), (0, 0));
    page.next_row(10);
    page.next_row(5);
    assert_eq!(page.query_offset, 15);
    page.prev_row(7);
    assert_eq!(page.query_offset, 8);
    page.prev_row(100);
    assert_eq!(page.query_offset, 0);
}

//a query without a LIMIT clause gets one appended; a trailing clause is
//rewritten in place; a multi-line query is never rewritten
#[test]
fn query_page_get_query() {
    let qdl = QDL(String::from("SELECT * FROM t"));
    let mut page = QueryPage::new(&qdl);
    page.next_row(8);
    assert_eq!(page.get_query(20).0, "SELECT * FROM t LIMIT 8,20");

    let qdl = QDL(String::from("SELECT * FROM t LIMIT 5,10"));
    let page = QueryPage::new(&qdl);
    assert_eq!(page.get_query(7).0, "SELECT * FROM t LIMIT 0,7");

    let qdl = QDL(String::from("select * from t limit 3"));
    let page = QueryPage::new(&qdl);
    assert_eq!(page.get_query(7).0, "select * from t limit 0,7");

    let qdl = QDL(String::from("SELECT *\nFROM t LIMIT 3"));
    let page = QueryPage::new(&qdl);
    assert_eq!(page.get_query(7).0, "SELECT *\nFROM t LIMIT 3 LIMIT 0,7");
}

#[test]
fn query_page_update_widths() {
    let qdl = QDL(String::from("SELECT * FROM t"));
    let mut page = QueryPage::new(&qdl);
    page.start_col(5);
    let names = vec![String::from("id"), String::from("name")];
    let rows = vec![
        vec![String::from("1"), String::from("a long value")],
        vec![String::from("12345"), String::from("b")],
    ];
    page.update(&names, rows);
    assert_eq!(page.len(), (2, 2));
    assert_eq!(page.query_cache.columns[0], (String::from("id"), 5));
    assert_eq!(page.query_cache.columns[1], (String::from("name"), 12));
    //the shown column is clamped to the column count
    assert_eq!(page.query_cache.start_col, 1);
}
