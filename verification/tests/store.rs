use aseqkeeper::connection::Connection;
use aseqkeeper::store::{find_connection, load_connections, store_connections, ConnectionSet};

fn conn(sender: &str, dest: &str) -> Connection {
    Connection::new(sender.to_string(), dest.to_string())
}

fn conns(pairs: &[(&str, &str)]) -> Vec<Connection> {
    pairs.iter().map(|(s, d)| conn(s, d)).collect()
}

#[test]
fn storing_sorts() {
    let mut v = conns(&[("B:0", "A:0"), ("A:0", "C:0"), ("A:0", "B:0")]);
    store_connections(&mut v);
    assert_eq!(v, conns(&[("A:0", "B:0"), ("A:0", "C:0"), ("B:0", "A:0")]));
}

#[test]
fn storing_drops_what_is_there_twice() {
    let mut v = conns(&[("A:0", "B:0"), ("C:0", "D:0"), ("A:0", "B:0"), ("A:0", "B:0")]);
    store_connections(&mut v);
    assert_eq!(v, conns(&[("A:0", "B:0"), ("C:0", "D:0")]));
}

#[test]
fn storing_nothing_gives_nothing() {
    let mut v: Vec<Connection> = Vec::new();
    store_connections(&mut v);
    assert!(v.is_empty());
}

#[test]
fn storing_leaves_a_normal_form_alone() {
    let mut v = conns(&[("A:0", "B:0"), ("A:0", "C:0"), ("B:0", "A:0")]);
    store_connections(&mut v);
    assert_eq!(v, conns(&[("A:0", "B:0"), ("A:0", "C:0"), ("B:0", "A:0")]));
}

#[test]
fn storing_agrees_with_sort_and_dedup() {
    let pairs = [
        ("z", "a"), ("a", "z"), ("é", "e"), ("a", "z"), ("", ""), ("a", ""), ("", "a"),
        ("10:0", "9:0"), ("9:0", "10:0"), ("z", "a"), ("Z", "a"), ("日本", "♪"),
    ];
    let mut v = conns(&pairs);
    store_connections(&mut v);
    let mut want: Vec<(&str, &str)> = pairs.to_vec();
    want.sort();
    want.dedup();
    assert_eq!(v, conns(&want));
}

#[test]
fn storing_what_was_loaded_from_a_store_changes_nothing() {
    let mut first = conns(&[("C:0", "D:0"), ("A:0", "B:0"), ("C:0", "D:0"), ("B:1", "A:0")]);
    store_connections(&mut first);
    let loaded = load_connections(Some(first.clone()));
    assert_eq!(loaded.records(), &first);
    let mut second = loaded.records().clone();
    store_connections(&mut second);
    assert_eq!(second, first);
}

#[test]
fn loading_without_a_file_gives_nothing() {
    let loaded = load_connections(None);
    assert!(loaded.records().is_empty());
    assert_eq!(loaded.len(), 0);
}

#[test]
fn loading_an_empty_file_gives_nothing() {
    assert!(load_connections(Some(Vec::new())).records().is_empty());
}

#[test]
fn loading_brings_the_records_into_normal_form() {
    let loaded = load_connections(Some(conns(&[("B:0", "C:0"), ("A:0", "B:0"), ("B:0", "C:0")])));
    assert_eq!(loaded.records(), &conns(&[("A:0", "B:0"), ("B:0", "C:0")]));
    assert_eq!(loaded.len(), 2);
}

#[test]
fn finding_gives_the_first_position() {
    let v = conns(&[("A:0", "B:0"), ("C:0", "D:0"), ("A:0", "B:0")]);
    assert_eq!(find_connection(&v, "A:0", "B:0"), Some(0));
    assert_eq!(find_connection(&v, "C:0", "D:0"), Some(1));
    assert_eq!(find_connection(&v, "B:0", "A:0"), None);
    assert_eq!(find_connection(&v, "A:0", "D:0"), None);
    assert_eq!(find_connection(&Vec::new(), "A:0", "B:0"), None);
}

#[test]
fn a_new_set_holds_nothing() {
    let set = ConnectionSet::new();
    assert_eq!(set.len(), 0);
    assert!(set.records().is_empty());
    assert!(!set.contains("A:0", "B:0"));
}

#[test]
fn a_set_tells_what_it_holds() {
    let set = load_connections(Some(conns(&[("A:0", "B:0"), ("C:0", "D:0")])));
    assert!(set.contains("A:0", "B:0"));
    assert!(set.contains("C:0", "D:0"));
    assert!(!set.contains("B:0", "A:0"));
    assert!(!set.contains("A:0", "D:0"));
}

#[test]
fn learning_a_new_connection_puts_it_in_its_place() {
    let mut set = load_connections(Some(conns(&[("A:0", "B:0"), ("C:0", "D:0")])));
    assert!(set.learn("B:0".to_string(), "C:0".to_string()));
    assert_eq!(set.records(), &conns(&[("A:0", "B:0"), ("B:0", "C:0"), ("C:0", "D:0")]));
    assert!(set.learn("".to_string(), "".to_string()));
    assert!(set.learn("Z:0".to_string(), "A:0".to_string()));
    assert_eq!(
        set.records(),
        &conns(&[("", ""), ("A:0", "B:0"), ("B:0", "C:0"), ("C:0", "D:0"), ("Z:0", "A:0")])
    );
}

#[test]
fn learning_a_known_connection_changes_nothing() {
    let mut set = load_connections(Some(conns(&[("A:0", "B:0"), ("C:0", "D:0")])));
    assert!(!set.learn("C:0".to_string(), "D:0".to_string()));
    assert_eq!(set.records(), &conns(&[("A:0", "B:0"), ("C:0", "D:0")]));
}

#[test]
fn learning_the_reverse_direction_is_a_new_connection() {
    let mut set = load_connections(Some(conns(&[("A:0", "B:0")])));
    assert!(set.learn("B:0".to_string(), "A:0".to_string()));
    assert_eq!(set.records(), &conns(&[("A:0", "B:0"), ("B:0", "A:0")]));
}

#[test]
fn forgetting_a_known_connection_takes_it_out() {
    let mut set = load_connections(Some(conns(&[("A:0", "B:0"), ("B:0", "C:0"), ("C:0", "D:0")])));
    assert!(set.forget("B:0", "C:0"));
    assert_eq!(set.records(), &conns(&[("A:0", "B:0"), ("C:0", "D:0")]));
    assert!(set.forget("A:0", "B:0"));
    assert!(set.forget("C:0", "D:0"));
    assert_eq!(set.len(), 0);
}

#[test]
fn forgetting_an_unknown_connection_changes_nothing() {
    let mut set = load_connections(Some(conns(&[("A:0", "B:0")])));
    assert!(!set.forget("B:0", "A:0"));
    assert_eq!(set.records(), &conns(&[("A:0", "B:0")]));
}

#[test]
fn learning_and_forgetting_gives_back_what_was_there() {
    let before = conns(&[("A:0", "B:0"), ("C:0", "D:0"), ("E:0", "F:0")]);
    let mut set = load_connections(Some(before.clone()));
    assert!(set.learn("B:7".to_string(), "A:0".to_string()));
    assert_ne!(set.records(), &before);
    assert!(set.forget("B:7", "A:0"));
    assert_eq!(set.records(), &before);
}
