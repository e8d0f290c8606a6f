use collections_practice::directory::Directory;

fn names(v: &Vec<String>) -> Vec<&str> {
    v.iter().map(|s| s.as_str()).collect()
}

#[test]
fn added_names_keep_their_order() {
    let mut d = Directory::new();
    d.add("Sales", "Amir");
    d.add("Engineering", "Sally");
    d.add("Sales", "Bob");
    d.add("Sales", "Amir");
    assert_eq!(names(d.list_department("Sales").unwrap()), vec!["Amir", "Bob", "Amir"]);
    assert_eq!(names(d.list_department("Engineering").unwrap()), vec!["Sally"]);
}

#[test]
fn unknown_department_is_not_found() {
    let mut d = Directory::new();
    assert!(d.list_department("Sales").is_none());
    d.add("Sales", "Amir");
    assert!(d.list_department("Marketing").is_none());
    assert!(d.list_department("sales").is_none());
}

#[test]
fn adding_appends_rather_than_replaces() {
    let mut d = Directory::new();
    for name in ["a", "b", "c", "d", "e"] {
        d.add("Ops", name);
    }
    assert_eq!(d.list_department("Ops").unwrap().len(), 5);
}

#[test]
fn add_trims_both_texts() {
    let mut d = Directory::new();
    d.add("  Sales \n", "\tAmir  \n");
    assert_eq!(names(d.list_department("Sales").unwrap()), vec!["Amir"]);
    assert!(d.list_department("  Sales \n").is_none());
}

#[test]
fn empty_texts_are_accepted() {
    let mut d = Directory::new();
    d.add("   ", "\n");
    assert_eq!(names(d.list_department("").unwrap()), vec![""]);
}

#[test]
fn append_takes_texts_as_they_are() {
    let mut d = Directory::new();
    d.append(" Sales ".to_string(), " Amir ".to_string());
    assert_eq!(names(d.list_department(" Sales ").unwrap()), vec![" Amir "]);
    assert!(d.list_department("Sales").is_none());
}

#[test]
fn list_all_has_each_department_once() {
    let mut d = Directory::new();
    d.add("Sales", "Amir");
    d.add("Engineering", "Sally");
    d.add("Sales", "Bob");
    let all = d.list_all();
    assert_eq!(all.len(), 2);
    let sales: Vec<_> = all.iter().filter(|e| e.0 == "Sales").collect();
    assert_eq!(sales.len(), 1);
    assert_eq!(names(&sales[0].1), vec!["Amir", "Bob"]);
    let eng: Vec<_> = all.iter().filter(|e| e.0 == "Engineering").collect();
    assert_eq!(eng.len(), 1);
    assert_eq!(names(&eng[0].1), vec!["Sally"]);
}

#[test]
fn new_directory_lists_nothing() {
    let d = Directory::new();
    assert!(d.list_all().is_empty());
}
