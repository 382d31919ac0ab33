use aseqkeeper::address::Address;
use aseqkeeper::endpoint::{Capabilities, Endpoint};
use aseqkeeper::index::{get_port_ids, AddressIndex};

fn port(client: i32, port: i32, client_name: &str, port_name: &str, no_export: bool) -> Endpoint {
    Endpoint {
        addr: Address::new(client, port),
        client_name: Some(client_name.to_string()),
        port_name: Some(port_name.to_string()),
        caps: Some(Capabilities { subs_read: true, subs_write: true, no_export }),
    }
}

#[test]
fn a_new_index_is_empty() {
    let ids = AddressIndex::new();
    assert_eq!(ids.len(), 0);
    assert_eq!(ids.get("A:0"), None);
}

#[test]
fn inserting_overwrites() {
    let mut ids = AddressIndex::new();
    ids.insert("A:0".to_string(), Address::new(20, 0));
    assert_eq!(ids.get("A:0"), Some(Address::new(20, 0)));
    ids.insert("A:0".to_string(), Address::new(24, 0));
    assert_eq!(ids.get("A:0"), Some(Address::new(24, 0)));
    assert_eq!(ids.len(), 1);
    ids.insert("B:0".to_string(), Address::new(20, 0));
    assert_eq!(ids.len(), 2);
    assert_eq!(ids.get("B:0"), Some(Address::new(20, 0)));
}

#[test]
fn the_index_holds_every_exported_port() {
    let ports = vec![
        port(14, 0, "Midi Through", "Port-0", false),
        port(20, 0, "Keys", "MIDI 1", false),
        port(20, 1, "Keys", "MIDI 2", false),
    ];
    let ids = get_port_ids(&ports);
    assert_eq!(ids.len(), 3);
    assert_eq!(ids.get("Midi Through:Port-0"), Some(Address::new(14, 0)));
    assert_eq!(ids.get("Keys:MIDI 1"), Some(Address::new(20, 0)));
    assert_eq!(ids.get("Keys:MIDI 2"), Some(Address::new(20, 1)));
    assert_eq!(ids.get("Keys:MIDI 3"), None);
}

#[test]
fn the_index_leaves_out_flagged_ports() {
    let ports = vec![
        port(0, 0, "System", "Timer", true),
        port(0, 1, "System", "Announce", true),
        port(14, 0, "Midi Through", "Port-0", false),
    ];
    let ids = get_port_ids(&ports);
    assert_eq!(ids.len(), 1);
    assert_eq!(ids.get("System:Timer"), None);
    assert_eq!(ids.get("System:Announce"), None);
    assert_eq!(ids.get("Midi Through:Port-0"), Some(Address::new(14, 0)));
}

#[test]
fn the_port_seen_last_wins_a_name() {
    let ports = vec![port(20, 0, "Keys", "MIDI 1", false), port(24, 0, "Keys", "MIDI 1", false)];
    let ids = get_port_ids(&ports);
    assert_eq!(ids.len(), 1);
    assert_eq!(ids.get("Keys:MIDI 1"), Some(Address::new(24, 0)));
}

#[test]
fn a_flagged_port_does_not_take_over_a_name() {
    let ports = vec![port(20, 0, "Keys", "MIDI 1", false), port(24, 0, "Keys", "MIDI 1", true)];
    let ids = get_port_ids(&ports);
    assert_eq!(ids.get("Keys:MIDI 1"), Some(Address::new(20, 0)));
}

#[test]
fn a_port_without_names_is_indexed_by_its_numbers() {
    let ports = vec![Endpoint {
        addr: Address::new(130, 2),
        client_name: None,
        port_name: None,
        caps: Some(Capabilities { subs_read: true, subs_write: false, no_export: false }),
    }];
    let ids = get_port_ids(&ports);
    assert_eq!(ids.get("130:2"), Some(Address::new(130, 2)));
}

#[test]
fn no_ports_give_an_empty_index() {
    assert_eq!(get_port_ids(&Vec::new()).len(), 0);
}

#[test]
fn sighting_enters_exported_ports_only() {
    let mut ids = AddressIndex::new();
    ids.sight(&port(20, 0, "Keys", "MIDI 1", true));
    assert_eq!(ids.len(), 0);
    ids.sight(&port(20, 0, "Keys", "MIDI 1", false));
    assert_eq!(ids.get("Keys:MIDI 1"), Some(Address::new(20, 0)));
}
