use isbn_kit::usernames::{sort_by_keys, sort_username};

fn owned(names: &[&str]) -> Vec<String> {
    names.iter().map(|s| s.to_string()).collect()
}

#[test]
fn sorts_ignoring_case() {
    let mut users = owned(&["Tood", "amy"]);
    sort_username(&mut users);
    assert_eq!(users, owned(&["amy", "Tood"]));
}

#[test]
fn equal_lowercase_names_keep_their_order() {
    let mut users = owned(&["b", "B", "a"]);
    sort_username(&mut users);
    assert_eq!(users, owned(&["a", "b", "B"]));
    let mut users = owned(&["B", "b"]);
    sort_username(&mut users);
    assert_eq!(users, owned(&["B", "b"]));
}

#[test]
fn prefix_sorts_first() {
    let mut users = owned(&["Annabel", "ann", "Zoe", "ANNA"]);
    sort_username(&mut users);
    assert_eq!(users, owned(&["ann", "ANNA", "Annabel", "Zoe"]));
}

#[test]
fn empty_list_stays_empty() {
    let mut users: Vec<String> = vec![];
    sort_username(&mut users);
    assert!(users.is_empty());
}

#[test]
fn sorts_by_given_keys() {
    let mut users = owned(&["x", "y", "z"]);
    let keys = owned(&["2", "1", "2"]);
    sort_by_keys(&mut users, &keys);
    assert_eq!(users, owned(&["y", "x", "z"]));
}
