use aseqkeeper::connection::Connection;
use aseqkeeper::order::{compare_names, Order};

fn expected(a: &str, b: &str) -> Order {
    if a < b {
        Order::Less
    } else if a == b {
        Order::Equal
    } else {
        Order::Greater
    }
}

fn conn(sender: &str, dest: &str) -> Connection {
    Connection::new(sender.to_string(), dest.to_string())
}

#[test]
fn names_compare_lexically() {
    assert_eq!(compare_names("A:0", "B:0"), Order::Less);
    assert_eq!(compare_names("B:0", "A:0"), Order::Greater);
    assert_eq!(compare_names("A:0", "A:0"), Order::Equal);
    assert_eq!(compare_names("A:0", "A:1"), Order::Less);
}

#[test]
fn a_prefix_comes_first() {
    assert_eq!(compare_names("", ""), Order::Equal);
    assert_eq!(compare_names("", "a"), Order::Less);
    assert_eq!(compare_names("a", ""), Order::Greater);
    assert_eq!(compare_names("Synth", "Synth:0"), Order::Less);
    assert_eq!(compare_names("Synth:0", "Synth"), Order::Greater);
}

#[test]
fn digits_compare_as_characters() {
    assert_eq!(compare_names("10:0", "9:0"), Order::Less);
    assert_eq!(compare_names("128:0", "20:0"), Order::Less);
}

#[test]
fn upper_case_comes_before_lower_case() {
    assert_eq!(compare_names("Z", "a"), Order::Less);
    assert_eq!(compare_names("a", "Z"), Order::Greater);
}

#[test]
fn names_compare_as_the_standard_strings_do() {
    let names = [
        "", "a", "A", "ab", "b", "é", "e", "z", "ß", "日本", "日", "♪", "\u{10348}", "\u{ffff}",
        "Midi Through:Midi Through Port-0", "Midi Through:Midi Through Port-1", "128:0", "14:0",
        "~", "\u{7f}", "\u{80}", "\u{7ff}", "\u{800}", "a\u{0}", "a\u{0}b",
    ];
    for a in names.iter() {
        for b in names.iter() {
            assert_eq!(compare_names(a, b), expected(a, b), "{:?} against {:?}", a, b);
        }
    }
}

#[test]
fn connections_compare_by_sender_first() {
    assert_eq!(conn("A:0", "Z:0").compare(&conn("B:0", "A:0")), Order::Less);
    assert_eq!(conn("B:0", "A:0").compare(&conn("A:0", "Z:0")), Order::Greater);
}

#[test]
fn connections_with_one_sender_compare_by_destination() {
    assert_eq!(conn("A:0", "B:0").compare(&conn("A:0", "C:0")), Order::Less);
    assert_eq!(conn("A:0", "C:0").compare(&conn("A:0", "B:0")), Order::Greater);
    assert_eq!(conn("A:0", "B:0").compare(&conn("A:0", "B:0")), Order::Equal);
}

#[test]
fn connections_compare_as_pairs_of_strings_do() {
    let names = ["", "A:0", "A:1", "B:0", "é:0", "a"];
    for s1 in names.iter() {
        for d1 in names.iter() {
            for s2 in names.iter() {
                for d2 in names.iter() {
                    let want = if (s1, d1) < (s2, d2) {
                        Order::Less
                    } else if (s1, d1) == (s2, d2) {
                        Order::Equal
                    } else {
                        Order::Greater
                    };
                    assert_eq!(conn(s1, d1).compare(&conn(s2, d2)), want);
                }
            }
        }
    }
}

#[test]
fn equal_connections_are_equal() {
    assert_eq!(conn("A:0", "B:0"), conn("A:0", "B:0"));
    assert_ne!(conn("A:0", "B:0"), conn("B:0", "A:0"));
    assert_ne!(conn("A:0", "B:0"), conn("A:0", "B:1"));
    assert_eq!(conn("A:0", "B:0").clone(), conn("A:0", "B:0"));
}

#[test]
fn a_connection_mentions_both_of_its_ends() {
    let c = conn("A:0", "B:0");
    assert!(c.mentions("A:0"));
    assert!(c.mentions("B:0"));
    assert!(!c.mentions("C:0"));
    assert!(!c.mentions("A"));
}
