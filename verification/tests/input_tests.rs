use schema_admin::input::{Input, InputErr};

#[test]
fn new_1_test() {
    let actual = Input::new(Vec::new(), None, 0, true);
    let expected: Result<Input, InputErr> =
        Ok(Input { content: Vec::new(), prompt: None, cursor: 0, input_cond: true });

    assert_eq!(format!("{:?}", expected), format!("{:?}", actual));
}

#[test]
fn new_2_test() {
    let actual = Input::new(vec!['a', 'b', 'c'], None, 0, true);
    let expected: Result<Input, InputErr> =
        Ok(Input { content: vec!['a', 'b', 'c'], prompt: None, cursor: 0, input_cond: true });

    assert_eq!(format!("{:?}", expected), format!("{:?}", actual));
}

#[test]
fn new_3_test() {
    let actual = Input::new(vec!['a', 'b', 'c'], None, 2, true);
    let expected: Result<Input, InputErr> =
        Ok(Input { content: vec!['a', 'b', 'c'], prompt: None, cursor: 2, input_cond: true });

    assert_eq!(format!("{:?}", expected), format!("{:?}", actual));
}

#[test]
fn new_4_test() {
    let actual = Input::new(vec!['a', 'b', 'c'], None, 3, true);
    let expected: Result<Input, InputErr> =
        Ok(Input { content: vec!['a', 'b', 'c'], prompt: None, cursor: 3, input_cond: true });

    assert_eq!(format!("{:?}", expected), format!("{:?}", actual));
}

#[test]
fn new_5_test() {
    let actual = Input::new(vec!['a', 'b', 'c'], Some(String::from("prompt")), 3, true);
    let expected: Result<Input, InputErr> = Ok(Input {
        content: vec!['a', 'b', 'c'],
        prompt: Some(String::from("prompt")),
        cursor: 3,
        input_cond: true,
    });

    assert_eq!(format!("{:?}", expected), format!("{:?}", actual));
}

#[test]
fn new_6_test() {
    let actual = Input::new(vec!['a', 'b', 'c'], None, 4, true);
    let expected: Result<Input, InputErr> = Err(InputErr::InvalidCursorIndex);

    assert_eq!(format!("{:?}", expected), format!("{:?}", actual));
}

#[test]
fn from_1_test() {
    let actual = Input::from(String::from("abc"), None, true);
    let expected =
        Input { content: vec!['a', 'b', 'c'], prompt: None, cursor: 3, input_cond: true };

    assert_eq!(format!("{:?}", expected), format!("{:?}", actual))
}

#[test]
fn from_2_test() {
    let actual = Input::from(String::from("abc"), Some(String::from("prompt")), true);
    let expected = Input {
        content: vec!['a', 'b', 'c'],
        prompt: Some(String::from("prompt")),
        cursor: 3,
        input_cond: true,
    };

    assert_eq!(format!("{:?}", expected), format!("{:?}", actual))
}

#[test]
fn from_3_test() {
    let actual = Input::from(String::from(""), Some(String::from("prompt")), true);
    let expected = Input {
        content: Vec::new(),
        prompt: Some(String::from("prompt")),
        cursor: 0,
        input_cond: true,
    };

    assert_eq!(format!("{:?}", expected), format!("{:?}", actual))
}

#[test]
fn clear_1_test() {
    let mut actual = Input::new(Vec::new(), None, 0, true).unwrap();
    let expected: Input =
        Input { content: Vec::new(), prompt: None, cursor: 0, input_cond: true };

    actual.clear();
    assert_eq!(format!("{:?}", expected), format!("{:?}", actual));
}

#[test]
fn clear_2_test() {
    let mut actual = Input::new(vec!['a', 'b', 'c'], None, 0, true).unwrap();
    let expected: Input =
        Input { content: Vec::new(), prompt: None, cursor: 0, input_cond: true };

    actual.clear();
    assert_eq!(format!("{:?}", expected), format!("{:?}", actual));
}

#[test]
fn clear_3_test() {
    let mut actual = Input::new(vec!['a', 'b', 'c'], None, 0, false).unwrap();
    let expected: Input =
        Input { content: vec!['a', 'b', 'c'], prompt: None, cursor: 0, input_cond: false };

    actual.clear();
    assert_eq!(format!("{:?}", expected), format!("{:?}", actual));
}

#[test]
fn cursor_1_test() {
    let mut actual = Input::from(String::from("Hello World"), None, true);

    assert_eq!(actual.cursor(), 11);

    actual.cursor_left(1);
    assert_eq!(actual.cursor(), 10);

    actual.cursor_right(1);
    assert_eq!(actual.cursor(), 11);

    actual.cursor_left(2);
    assert_eq!(actual.cursor(), 9);

    actual.cursor_left(5);
    assert_eq!(actual.cursor(), 4);
}

#[test]
fn cursor_2_test() {
    let mut actual = Input::from(String::from("Hello World"), None, true);
    let whole = actual.cursor();
    actual.cursor_left(whole);
    assert_eq!(actual.cursor(), 0);

    actual.cursor_left(1);
    assert_eq!(actual.cursor(), 0);
}

#[test]
fn cursor_3_test() {
    let mut actual = Input::from(String::from("Hello World"), None, true);
    actual.cursor_right(1);
    assert_eq!(actual.cursor(), 11);
}

#[test]
fn cursor_4_test() {
    let mut actual = Input::from(String::from("Hello World"), None, false);

    assert_eq!(actual.cursor(), 11);

    actual.cursor_left(1);
    assert_eq!(actual.cursor(), 11);

    actual.cursor_right(1);
    assert_eq!(actual.cursor(), 11);
}

#[test]
fn add_char_1_test() {
    let mut actual = Input::from(String::from(""), None, true);

    assert_eq!(Input { content: vec![], prompt: None, cursor: 0, input_cond: true }, actual);

    actual.add_char('a');

    assert_eq!(Input { content: vec!['a'], prompt: None, cursor: 1, input_cond: true }, actual);

    actual.add_char('a');
    actual.add_char('a');

    assert_eq!(
        Input { content: vec!['a', 'a', 'a'], prompt: None, cursor: 3, input_cond: true },
        actual
    );

    actual.add_char('a');
    actual.cursor_left(2);
    actual.add_char('b');

    assert_eq!(
        Input { content: vec!['a', 'a', 'b', 'a', 'a'], prompt: None, cursor: 3, input_cond: true },
        actual
    );

    actual.cursor_left(3);
    actual.add_char('c');
    actual.cursor_left(1);
    actual.add_char('d');

    assert_eq!(
        Input {
            content: vec!['d', 'c', 'a', 'a', 'b', 'a', 'a'],
            prompt: None,
            cursor: 1,
            input_cond: true
        },
        actual
    );

    actual.input_cond = false;
    actual.add_char('e');

    assert_eq!(
        Input {
            content: vec!['d', 'c', 'a', 'a', 'b', 'a', 'a'],
            prompt: None,
            cursor: 1,
            input_cond: false
        },
        actual
    );
}

#[test]
fn del_char_1_test() {
    let mut actual = Input::from(String::from("123456"), None, true);

    assert_eq!(
        Input { content: vec!['1', '2', '3', '4', '5', '6'], prompt: None, cursor: 6, input_cond: true },
        actual
    );

    actual.del_char();
    assert_eq!(
        Input { content: vec!['1', '2', '3', '4', '5'], prompt: None, cursor: 5, input_cond: true },
        actual
    );

    actual.del_char();
    assert_eq!(
        Input { content: vec!['1', '2', '3', '4'], prompt: None, cursor: 4, input_cond: true },
        actual
    );

    actual.cursor_left(2);
    actual.del_char();
    assert_eq!(
        Input { content: vec!['1', '3', '4'], prompt: None, cursor: 1, input_cond: true },
        actual
    );

    actual.cursor_left(2);
    actual.del_char();
    assert_eq!(
        Input { content: vec!['1', '3', '4'], prompt: None, cursor: 0, input_cond: true },
        actual
    );

    actual.cursor_right(2);
    actual.del_char();
    assert_eq!(
        Input { content: vec!['1', '4'], prompt: None, cursor: 1, input_cond: true },
        actual
    );

    actual.input_cond = false;
    actual.del_char();
    assert_eq!(
        Input { content: vec!['1', '4'], prompt: None, cursor: 1, input_cond: false },
        actual
    );
}
