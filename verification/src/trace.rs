//! What holds of the engine along every run of events.

use crate::connection::ConnectionView;
use crate::endpoint::Endpoint;
use crate::engine::{initial, next, pair_of, persists, requests, EngineView, Event};
use crate::index::lemma_port_ids_exported;
use crate::plan::{lemma_attempts_for_contains, resolve, NotFound, Subscription};
use crate::store::{
    is_normal, learned, lemma_forgotten, lemma_learn_then_forget, lemma_learned, lemma_normalized,
};
use vstd::prelude::*;

verus! {

/// The state after the events `events`, taken one after the other in the
/// order in which they were delivered.
pub open spec fn run(s: EngineView, events: Seq<Event>) -> EngineView
    decreases events.len(),
{
    if events.len() == 0 {
        s
    } else {
        next(run(s, events.drop_last()), events.last())
    }
}

/// The event makes the engine enter `port` into its index: the port has
/// shown up, or it is at one end of a subscription that was seen, and no
/// port of the event is flagged as not to be exported.
pub open spec fn enters(e: Event, port: Endpoint) -> bool {
    match e {
        Event::PortStart(p) => port == p && !p.no_export(),
        Event::PortSubscribed(sender, dest) => !sender.no_export() && !dest.no_export() && (port
            == sender || port == dest),
        _ => false,
    }
}

/// The event makes the engine learn the connection `c`: a subscription
/// between two ports of these names was seen, and neither port is flagged as
/// not to be exported.
pub open spec fn teaches(e: Event, c: ConnectionView) -> bool {
    match e {
        Event::PortSubscribed(sender, dest) => !sender.no_export() && !dest.no_export() && c
            == pair_of(sender, dest),
        _ => false,
    }
}

/// Every event leaves the connections in normal form.
pub proof fn lemma_next_keeps_normal(s: EngineView, e: Event)
    requires
        is_normal(s.connections),
    ensures
        is_normal(next(s, e).connections),
{
    match e {
        Event::PortSubscribed(sender, dest) => {
            lemma_learned(s.connections, pair_of(sender, dest));
        },
        Event::PortUnsubscribed(sender, dest) => {
            lemma_forgotten(s.connections, pair_of(sender, dest));
        },
        _ => {},
    }
}

/// Every run of events leaves the connections in normal form: they are
/// sorted and hold nothing twice, whatever was seen.
pub proof fn lemma_run_keeps_normal(s: EngineView, events: Seq<Event>)
    requires
        is_normal(s.connections),
    ensures
        is_normal(run(s, events).connections),
    decreases events.len(),
{
    if events.len() > 0 {
        lemma_run_keeps_normal(s, events.drop_last());
        lemma_next_keeps_normal(run(s, events.drop_last()), events.last());
    }
}

/// The connections are to be written again exactly when the event has
/// changed them.
pub proof fn lemma_persists_iff_changed(s: EngineView, e: Event)
    requires
        is_normal(s.connections),
    ensures
        persists(s, e) <==> next(s, e).connections != s.connections,
{
    match e {
        Event::PortSubscribed(sender, dest) => {
            let c = pair_of(sender, dest);
            lemma_learned(s.connections, c);
            if persists(s, e) {
                assert(next(s, e).connections.to_set().contains(c));
                assert(!s.connections.to_set().contains(c));
            }
        },
        Event::PortUnsubscribed(sender, dest) => {
            let c = pair_of(sender, dest);
            lemma_forgotten(s.connections, c);
            s.connections.index_of_first_ensures(c);
            if persists(s, e) {
                assert(s.connections.to_set().contains(c));
                assert(!next(s, e).connections.to_set().contains(c));
            }
        },
        _ => {},
    }
}

/// When a port shows up again under its old name at a new address, every
/// connection that names it and whose other end is known is asked for
/// again, with the port at its new address, and the connections stay as
/// they are. When the registry then reports the subscription that was made,
/// the connection is already there: it is not entered a second time, and
/// nothing is written.
pub proof fn lemma_restart_reconnects(
    s: EngineView,
    port: Endpoint,
    i: int,
    sender: Endpoint,
    dest: Endpoint,
)
    requires
        is_normal(s.connections),
        !port.no_export(),
        0 <= i < s.connections.len(),
        s.connections[i].sender == port.name() || s.connections[i].dest == port.name(),
        resolve(s.connections[i], next(s, Event::PortStart(port)).index) is Ok,
        pair_of(sender, dest) == s.connections[i],
    ensures
        ({
            let after = next(s, Event::PortStart(port));
            let c = s.connections[i];
            &&& after.connections == s.connections
            &&& after.index[port.name()] == port.addr
            &&& requests(s, Event::PortStart(port)).contains(
                Subscription { sender: after.index[c.sender], dest: after.index[c.dest] },
            )
            &&& next(after, Event::PortSubscribed(sender, dest)).connections == s.connections
            &&& !persists(after, Event::PortSubscribed(sender, dest))
        }),
{
    let after = next(s, Event::PortStart(port));
    let c = s.connections[i];
    let sub = Subscription { sender: after.index[c.sender], dest: after.index[c.dest] };
    assert(resolve(c, after.index) == Ok::<Subscription, NotFound>(sub));
    lemma_attempts_for_contains(port.name(), s.connections, after.index, sub);
    assert(s.connections.contains(c));
}

/// A subscription that is seen and then seen to end, between ports of the
/// same two names, leaves the connections exactly as they were, provided
/// the connection was not there before the two events.
pub proof fn lemma_subscribe_then_unsubscribe(
    s: EngineView,
    sender: Endpoint,
    dest: Endpoint,
    sender_again: Endpoint,
    dest_again: Endpoint,
)
    requires
        is_normal(s.connections),
        !s.connections.contains(pair_of(sender, dest)),
        pair_of(sender_again, dest_again) == pair_of(sender, dest),
    ensures
        next(
            next(s, Event::PortSubscribed(sender, dest)),
            Event::PortUnsubscribed(sender_again, dest_again),
        ).connections == s.connections,
{
    let c = pair_of(sender, dest);
    if sender.no_export() || dest.no_export() {
        s.connections.index_of_first_ensures(c);
    } else {
        lemma_learn_then_forget(s.connections, c);
    }
}

/// Whatever the index holds after an event, it held before or the event
/// entered it for a port that is not flagged.
pub proof fn lemma_next_index_exported(s: EngineView, e: Event, name: Seq<char>)
    requires
        next(s, e).index.contains_key(name),
    ensures
        (s.index.contains_key(name) && s.index[name] == next(s, e).index[name]) || exists|
            p: Endpoint,
        |
            #[trigger] enters(e, p) && !p.no_export() && p.name() == name && p.addr == next(
                s,
                e,
            ).index[name],
{
    match e {
        Event::PortStart(port) => {
            if !port.no_export() && port.name() == name {
                assert(enters(e, port));
            }
        },
        Event::PortSubscribed(sender, dest) => {
            if !sender.no_export() && !dest.no_export() {
                if dest.name() == name {
                    assert(enters(e, dest));
                } else if sender.name() == name {
                    assert(enters(e, sender));
                }
            }
        },
        _ => {},
    }
}

/// Whatever connection is kept after an event was kept before, or the
/// event taught it between two ports that are not flagged.
pub proof fn lemma_next_connections_exported(s: EngineView, e: Event, c: ConnectionView)
    requires
        next(s, e).connections.contains(c),
    ensures
        s.connections.contains(c) || teaches(e, c),
{
    match e {
        Event::PortSubscribed(sender, dest) => {
            let pair = pair_of(sender, dest);
            if !sender.no_export() && !dest.no_export() && !s.connections.contains(pair) {
                lemma_normalized(s.connections.push(pair));
                s.connections.lemma_push_to_set_commute(pair);
                assert(learned(s.connections, pair).to_set().contains(c));
                assert(s.connections.to_set().insert(pair).contains(c));
            }
        },
        Event::PortUnsubscribed(sender, dest) => {
            let pair = pair_of(sender, dest);
            s.connections.index_of_first_ensures(pair);
            match s.connections.index_of_first(pair) {
                Some(p) => {
                    let r = s.connections.remove(p);
                    let k = choose|k: int| 0 <= k < r.len() && r[k] == c;
                    if k < p {
                        assert(s.connections[k] == c);
                    } else {
                        assert(s.connections[k + 1] == c);
                    }
                },
                None => {},
            }
        },
        _ => {},
    }
}

/// A port that is flagged as not to be exported never gets into the index:
/// whatever the index holds after a run of events, it held at the start or
/// one of the events entered it for a port that is not flagged.
pub proof fn lemma_run_index_exported(s: EngineView, events: Seq<Event>, name: Seq<char>)
    requires
        run(s, events).index.contains_key(name),
    ensures
        (s.index.contains_key(name) && s.index[name] == run(s, events).index[name]) || exists|
            k: int,
            p: Endpoint,
        |
            0 <= k < events.len() && #[trigger] enters(events[k], p) && !p.no_export() && p.name()
                == name && p.addr == run(s, events).index[name],
    decreases events.len(),
{
    if events.len() > 0 {
        let before = run(s, events.drop_last());
        let e = events.last();
        lemma_next_index_exported(before, e, name);
        if before.index.contains_key(name) && before.index[name] == next(before, e).index[name] {
            lemma_run_index_exported(s, events.drop_last(), name);
            if !(s.index.contains_key(name) && s.index[name] == before.index[name]) {
                let (k, p) = choose|k: int, p: Endpoint|
                    0 <= k < events.drop_last().len() && #[trigger] enters(
                        events.drop_last()[k],
                        p,
                    ) && !p.no_export() && p.name() == name && p.addr == before.index[name];
                assert(enters(events[k], p));
            }
        } else {
            let p = choose|p: Endpoint|
                #[trigger] enters(e, p) && !p.no_export() && p.name() == name && p.addr == next(
                    before,
                    e,
                ).index[name];
            assert(enters(events[events.len() - 1], p));
        }
    }
}

/// A port that is flagged as not to be exported never gets into a
/// connection: whatever connection is kept after a run of events was kept
/// at the start, or one of the events taught it between two ports that are
/// not flagged.
pub proof fn lemma_run_connections_exported(s: EngineView, events: Seq<Event>, c: ConnectionView)
    requires
        run(s, events).connections.contains(c),
    ensures
        s.connections.contains(c) || exists|k: int|
            0 <= k < events.len() && teaches(#[trigger] events[k], c),
    decreases events.len(),
{
    if events.len() > 0 {
        let before = run(s, events.drop_last());
        let e = events.last();
        lemma_next_connections_exported(before, e, c);
        if before.connections.contains(c) {
            lemma_run_connections_exported(s, events.drop_last(), c);
            if !s.connections.contains(c) {
                let k = choose|k: int|
                    0 <= k < events.drop_last().len() && teaches(
                        #[trigger] events.drop_last()[k],
                        c,
                    );
                assert(teaches(events[k], c));
            }
        } else {
            assert(teaches(events[events.len() - 1], c));
        }
    }
}

/// From the start on, the index holds only ports that are not flagged as
/// not to be exported: each of its entries stems from such a port among
/// those that the registry showed at the start, or from one that a later
/// event entered.
pub proof fn lemma_index_holds_exported_only(
    ports: Seq<Endpoint>,
    file: Option<Seq<ConnectionView>>,
    events: Seq<Event>,
    name: Seq<char>,
)
    requires
        run(initial(ports, file), events).index.contains_key(name),
    ensures
        exists|p: Endpoint|
            !(#[trigger] p.no_export()) && p.name() == name && p.addr == run(
                initial(ports, file),
                events,
            ).index[name] && (ports.contains(p) || exists|k: int|
                0 <= k < events.len() && enters(#[trigger] events[k], p)),
{
    let s = initial(ports, file);
    lemma_run_index_exported(s, events, name);
    if s.index.contains_key(name) && s.index[name] == run(s, events).index[name] {
        lemma_port_ids_exported(ports, name);
        let i = choose|i: int|
            0 <= i < ports.len() && !(#[trigger] ports[i]).no_export() && ports[i].name() == name
                && ports[i].addr == s.index[name];
        assert(ports.contains(ports[i]));
        assert(!ports[i].no_export());
    } else {
        let (k, p) = choose|k: int, p: Endpoint|
            0 <= k < events.len() && #[trigger] enters(events[k], p) && !p.no_export() && p.name()
                == name && p.addr == run(s, events).index[name];
        assert(!p.no_export());
    }
}

/// From the start on, the connections hold only what was read at the start
/// or what a later event taught between two ports that are not flagged as
/// not to be exported.
pub proof fn lemma_connections_hold_exported_only(
    ports: Seq<Endpoint>,
    file: Option<Seq<ConnectionView>>,
    events: Seq<Event>,
    c: ConnectionView,
)
    requires
        run(initial(ports, file), events).connections.contains(c),
    ensures
        (file matches Some(records) && records.contains(c)) || exists|k: int|
            0 <= k < events.len() && teaches(#[trigger] events[k], c),
{
    let s = initial(ports, file);
    lemma_run_connections_exported(s, events, c);
    if s.connections.contains(c) {
        match file {
            Some(records) => {
                lemma_normalized(records);
                assert(s.connections.to_set().contains(c));
                assert(records.to_set().contains(c));
            },
            None => {},
        }
    }
}

} // verus!
