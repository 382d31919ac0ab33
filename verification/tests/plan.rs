use aseqkeeper::address::Address;
use aseqkeeper::connection::Connection;
use aseqkeeper::endpoint::{Capabilities, Endpoint};
use aseqkeeper::index::AddressIndex;
use aseqkeeper::plan::{
    connect_all, connect_by_name, deferred_by_name, resolve_connection, try_all_connections,
    try_connections, waiting_connections, waiting_connections_for, Deferred, NotFound,
    Subscription,
};

fn conn(sender: &str, dest: &str) -> Connection {
    Connection::new(sender.to_string(), dest.to_string())
}

fn sub(sc: i32, sp: i32, dc: i32, dp: i32) -> Subscription {
    Subscription { sender: Address::new(sc, sp), dest: Address::new(dc, dp) }
}

fn index(entries: &[(&str, i32, i32)]) -> AddressIndex {
    let mut ids = AddressIndex::new();
    for (name, client, port) in entries.iter() {
        ids.insert(name.to_string(), Address::new(*client, *port));
    }
    ids
}

fn port(client: i32, port: i32, read: bool, write: bool, no_export: bool) -> Endpoint {
    Endpoint {
        addr: Address::new(client, port),
        client_name: Some(format!("client {}", client)),
        port_name: Some(format!("port {}", port)),
        caps: Some(Capabilities { subs_read: read, subs_write: write, no_export }),
    }
}

fn waits(sender: &str, dest: &str, missing: NotFound) -> Deferred {
    Deferred { connection: conn(sender, dest), missing }
}

#[test]
fn a_connection_with_both_ends_known_resolves() {
    let ids = index(&[("A:0", 20, 0), ("B:0", 24, 1)]);
    assert_eq!(resolve_connection(&conn("A:0", "B:0"), &ids), Ok(sub(20, 0, 24, 1)));
    assert_eq!(resolve_connection(&conn("B:0", "A:0"), &ids), Ok(sub(24, 1, 20, 0)));
    assert_eq!(connect_by_name(&conn("A:0", "B:0"), &ids), Some(sub(20, 0, 24, 1)));
    assert_eq!(connect_by_name(&conn("B:0", "A:0"), &ids), Some(sub(24, 1, 20, 0)));
    assert_eq!(deferred_by_name(&conn("A:0", "B:0"), &ids), None);
}

#[test]
fn a_connection_to_itself_resolves() {
    let ids = index(&[("A:0", 20, 0)]);
    assert_eq!(connect_by_name(&conn("A:0", "A:0"), &ids), Some(sub(20, 0, 20, 0)));
}

#[test]
fn an_unknown_sender_is_reported() {
    let ids = index(&[("B:0", 24, 1)]);
    assert_eq!(resolve_connection(&conn("A:0", "B:0"), &ids), Err(NotFound::Sender));
}

#[test]
fn an_unknown_destination_is_reported() {
    let ids = index(&[("A:0", 20, 0)]);
    assert_eq!(resolve_connection(&conn("A:0", "B:0"), &ids), Err(NotFound::Dest));
}

#[test]
fn the_sender_is_looked_up_first() {
    let ids = AddressIndex::new();
    assert_eq!(resolve_connection(&conn("A:0", "B:0"), &ids), Err(NotFound::Sender));
}

#[test]
fn an_attempt_with_an_empty_index_defers_without_an_error() {
    let ids = AddressIndex::new();
    assert_eq!(connect_by_name(&conn("A:0", "B:0"), &ids), None);
}

#[test]
fn an_attempt_with_one_end_missing_defers_without_an_error() {
    assert_eq!(connect_by_name(&conn("A:0", "B:0"), &index(&[("A:0", 20, 0)])), None);
    assert_eq!(connect_by_name(&conn("A:0", "B:0"), &index(&[("B:0", 24, 0)])), None);
}

#[test]
fn a_deferred_connection_names_what_is_missing() {
    let only_a = index(&[("A:0", 20, 0)]);
    let only_b = index(&[("B:0", 24, 0)]);
    let d = deferred_by_name(&conn("A:0", "B:0"), &only_a).unwrap();
    assert_eq!(d, waits("A:0", "B:0", NotFound::Dest));
    assert_eq!(d.missing_name(), "B:0");
    let d = deferred_by_name(&conn("A:0", "B:0"), &only_b).unwrap();
    assert_eq!(d, waits("A:0", "B:0", NotFound::Sender));
    assert_eq!(d.missing_name(), "A:0");
    let d = deferred_by_name(&conn("A:0", "B:0"), &AddressIndex::new()).unwrap();
    assert_eq!(d.missing, NotFound::Sender);
    assert_eq!(d.missing_name(), "A:0");
}

#[test]
fn the_waiting_connections_are_those_that_are_not_tried() {
    let ids = index(&[("A:0", 20, 0), ("B:0", 24, 0), ("C:0", 28, 0)]);
    let connections = vec![conn("A:0", "B:0"), conn("A:0", "X:0"), conn("B:0", "C:0"), conn("Y:0", "A:0")];
    assert_eq!(
        waiting_connections(&connections, &ids),
        vec![waits("A:0", "X:0", NotFound::Dest), waits("Y:0", "A:0", NotFound::Sender)]
    );
    let tried = try_all_connections(&connections, &ids);
    assert_eq!(tried.len() + waiting_connections(&connections, &ids).len(), connections.len());
}

#[test]
fn nothing_waits_when_every_end_is_known() {
    let ids = index(&[("A:0", 20, 0), ("B:0", 24, 0)]);
    assert!(waiting_connections(&vec![conn("A:0", "B:0"), conn("B:0", "A:0")], &ids).is_empty());
    assert!(waiting_connections(&Vec::new(), &ids).is_empty());
}

#[test]
fn only_waiting_connections_that_name_the_port_are_listed() {
    let ids = index(&[("A:0", 20, 0), ("B:0", 24, 0)]);
    let connections = vec![conn("A:0", "B:0"), conn("A:0", "X:0"), conn("Y:0", "A:0"), conn("B:0", "Z:0")];
    assert_eq!(
        waiting_connections_for("A:0", &connections, &ids),
        vec![waits("A:0", "X:0", NotFound::Dest), waits("Y:0", "A:0", NotFound::Sender)]
    );
    assert_eq!(
        waiting_connections_for("B:0", &connections, &ids),
        vec![waits("B:0", "Z:0", NotFound::Dest)]
    );
    assert!(waiting_connections_for("X:0", &vec![conn("A:0", "B:0")], &ids).is_empty());
}

#[test]
fn all_resolvable_connections_are_tried_in_order() {
    let ids = index(&[("A:0", 20, 0), ("B:0", 24, 0), ("C:0", 28, 0)]);
    let connections = vec![conn("A:0", "B:0"), conn("A:0", "X:0"), conn("B:0", "C:0"), conn("Y:0", "A:0")];
    assert_eq!(
        try_all_connections(&connections, &ids),
        vec![sub(20, 0, 24, 0), sub(24, 0, 28, 0)]
    );
}

#[test]
fn one_missing_end_does_not_hold_up_the_rest() {
    let ids = index(&[("A:0", 20, 0), ("B:0", 24, 0)]);
    let connections = vec![conn("X:0", "Y:0"), conn("A:0", "B:0")];
    assert_eq!(try_all_connections(&connections, &ids), vec![sub(20, 0, 24, 0)]);
}

#[test]
fn nothing_is_tried_without_connections() {
    let ids = index(&[("A:0", 20, 0)]);
    assert!(try_all_connections(&Vec::new(), &ids).is_empty());
    assert!(try_connections("A:0", &Vec::new(), &ids).is_empty());
}

#[test]
fn only_connections_that_name_the_port_are_tried() {
    let ids = index(&[("A:0", 20, 0), ("B:0", 24, 0), ("C:0", 28, 0)]);
    let connections = vec![conn("A:0", "B:0"), conn("A:0", "C:0"), conn("B:0", "C:0"), conn("C:0", "B:0")];
    assert_eq!(
        try_connections("B:0", &connections, &ids),
        vec![sub(20, 0, 24, 0), sub(24, 0, 28, 0), sub(28, 0, 24, 0)]
    );
    assert_eq!(try_connections("A:0", &connections, &ids), vec![sub(20, 0, 24, 0), sub(20, 0, 28, 0)]);
    assert!(try_connections("D:0", &connections, &ids).is_empty());
}

#[test]
fn a_connection_of_the_port_with_an_unknown_end_is_skipped() {
    let ids = index(&[("A:0", 20, 0), ("B:0", 24, 0)]);
    let connections = vec![conn("A:0", "X:0"), conn("A:0", "B:0"), conn("Y:0", "A:0")];
    assert_eq!(try_connections("A:0", &connections, &ids), vec![sub(20, 0, 24, 0)]);
}

#[test]
fn ports_of_one_client_are_not_connected() {
    let s1 = port(20, 0, true, false, false);
    let s2 = port(24, 0, true, false, false);
    let d1 = port(24, 1, false, true, false);
    assert_eq!(connect_all(&vec![s1, s2, d1]), vec![sub(20, 0, 24, 1)]);
}

#[test]
fn every_sender_is_connected_to_every_receiver_of_another_client() {
    let ports = vec![
        port(20, 0, true, true, false),
        port(24, 0, true, true, false),
        port(28, 0, false, true, false),
        port(32, 0, true, false, false),
    ];
    assert_eq!(
        connect_all(&ports),
        vec![
            sub(20, 0, 24, 0),
            sub(20, 0, 28, 0),
            sub(24, 0, 20, 0),
            sub(24, 0, 28, 0),
            sub(32, 0, 20, 0),
            sub(32, 0, 24, 0),
            sub(32, 0, 28, 0),
        ]
    );
}

#[test]
fn flagged_ports_are_at_neither_end() {
    let ports = vec![
        port(0, 1, true, true, true),
        port(20, 0, true, true, false),
        port(24, 0, true, true, false),
    ];
    assert_eq!(connect_all(&ports), vec![sub(20, 0, 24, 0), sub(24, 0, 20, 0)]);
}

#[test]
fn ports_with_unknown_flags_are_at_neither_end() {
    let mut unknown = port(20, 0, true, true, false);
    unknown.caps = None;
    let ports = vec![unknown, port(24, 0, true, true, false), port(28, 0, true, true, false)];
    assert_eq!(connect_all(&ports), vec![sub(24, 0, 28, 0), sub(28, 0, 24, 0)]);
}

#[test]
fn nothing_is_connected_without_a_receiver() {
    let ports = vec![port(20, 0, true, false, false), port(24, 0, true, false, false)];
    assert!(connect_all(&ports).is_empty());
    assert!(connect_all(&Vec::new()).is_empty());
}
