use collections_practice::menu::{action, parse_selection, parse_u8, Action, Session};

#[test]
fn selection_reads_numbers_with_trailing_whitespace() {
    assert_eq!(parse_selection("1\n"), Some(1));
    assert_eq!(parse_selection("4\r\n"), Some(4));
    assert_eq!(parse_selection("3  "), Some(3));
    assert_eq!(parse_selection("+2\n"), Some(2));
    assert_eq!(parse_selection("007\n"), Some(7));
}

#[test]
fn selection_refuses_other_lines() {
    assert_eq!(parse_selection(""), None);
    assert_eq!(parse_selection("\n"), None);
    assert_eq!(parse_selection("abc\n"), None);
    assert_eq!(parse_selection(" 3\n"), None);
    assert_eq!(parse_selection("-1\n"), None);
    assert_eq!(parse_selection("+\n"), None);
    assert_eq!(parse_selection("256\n"), None);
    assert_eq!(parse_selection("1 2\n"), None);
}

#[test]
fn byte_parsing_bounds() {
    assert_eq!(parse_u8("255"), Some(255));
    assert_eq!(parse_u8("0"), Some(0));
    assert_eq!(parse_u8("256"), None);
    assert_eq!(parse_u8("99999999999"), None);
    assert_eq!(parse_u8("3\n"), None);
}

#[test]
fn actions_for_selections() {
    assert_eq!(action(Some(1)), Action::AddEmployee);
    assert_eq!(action(Some(2)), Action::SeeDepartment);
    assert_eq!(action(Some(3)), Action::SeeAll);
    assert_eq!(action(Some(4)), Action::Exit);
    assert_eq!(action(Some(0)), Action::InvalidOption);
    assert_eq!(action(Some(5)), Action::InvalidOption);
    assert_eq!(action(None), Action::NotANumber);
}

#[test]
fn invalid_selection_keeps_directory_and_loop() {
    let mut s = Session::new();
    s.add_employee("Amir", "Sales");
    assert_eq!(s.select("7\n"), Action::InvalidOption);
    assert!(s.is_running());
    assert_eq!(s.select("hello\n"), Action::NotANumber);
    assert!(s.is_running());
    let all = s.see_all();
    assert_eq!(all.len(), 1);
    assert_eq!(all[0].0, "Sales");
    assert_eq!(all[0].1, vec!["Amir".to_string()]);
}

#[test]
fn exit_selection_stops_the_loop() {
    let mut s = Session::new();
    assert!(s.is_running());
    s.add_employee("Amir", "Sales");
    assert_eq!(s.select("4\n"), Action::Exit);
    assert!(!s.is_running());
    assert_eq!(s.see_all().len(), 1);
    assert_eq!(s.see_department("Sales").unwrap().len(), 1);
}

#[test]
fn parse_failure_after_exit_does_not_restart() {
    let mut s = Session::new();
    s.select("4\n");
    assert_eq!(s.select("x\n"), Action::NotANumber);
    assert!(!s.is_running());
}

#[test]
fn session_trims_employee_and_department() {
    let mut s = Session::new();
    assert_eq!(s.select("1\n"), Action::AddEmployee);
    s.add_employee("Amir\n", " Sales\n");
    assert_eq!(s.select("2\n"), Action::SeeDepartment);
    let v = s.see_department("Sales \n").unwrap();
    assert_eq!(v, &vec!["Amir".to_string()]);
    assert!(s.see_department("Marketing\n").is_none());
    assert!(s.database().list_department("Sales").is_some());
}
