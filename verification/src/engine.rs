//! The reconciliation engine: what is known and kept, and how each event of
//! the registry changes it.
//!
//! The engine owns the address index and the connections. It never talks to
//! the registry itself: it is handed each event together with what the
//! registry told about the ports in it, and answers with the subscriptions
//! to ask for and with whether the connections are to be written again.

use crate::address::Address;
use crate::connection::{pair, views, Connection, ConnectionView};
use crate::endpoint::{get_port_name, is_port_no_export, Endpoint};
use crate::index::{get_port_ids, port_ids, sighted, AddressIndex};
use crate::plan::{
    all_attempts, all_deferrals, attempts_for, deferrals_for, deferred_views, try_all_connections,
    try_connections, waiting_connections, waiting_connections_for, Deferred, DeferredView,
    Subscription,
};
use crate::store::{is_normal, learned, load_connections, loaded, ConnectionSet};
use vstd::prelude::*;

verus! {

/// An event of the registry, with what the registry told about the ports
/// that it names.
#[derive(Debug)]
pub enum Event {
    /// A port has shown up.
    PortStart(Endpoint),
    /// Someone has subscribed the second port to the first.
    PortSubscribed(Endpoint, Endpoint),
    /// Someone has ended the subscription of the second port to the first.
    PortUnsubscribed(Endpoint, Endpoint),
    /// Anything else; it changes nothing.
    Other,
}

/// What is to be done after an event.
#[derive(Debug)]
pub struct Reaction {
    /// The subscriptions to ask the registry for, in this order. A refusal
    /// is noted and changes nothing.
    pub subscribe: Vec<Subscription>,
    /// The connections that were looked at and are left waiting, each with
    /// the end that is missing. They are no errors; they are there to be
    /// noted.
    pub waiting: Vec<Deferred>,
    /// The connections have changed and are to be written again.
    pub persist: bool,
}

/// What the engine knows and keeps, to the contracts.
pub ghost struct EngineView {
    /// Where each name was last seen.
    pub index: Map<Seq<char>, Address>,
    /// The connections, in the order in which they are written.
    pub connections: Seq<ConnectionView>,
}

/// The connection between two ports, written down by their names.
pub open spec fn pair_of(sender: Endpoint, dest: Endpoint) -> ConnectionView {
    pair(sender.name(), dest.name())
}

/// The state with which the engine starts: the index of the ports that the
/// registry shows, and the connections that were read.
pub open spec fn initial(ports: Seq<Endpoint>, file: Option<Seq<ConnectionView>>) -> EngineView {
    EngineView { index: port_ids(ports), connections: loaded(file) }
}

/// The state after a subscription between two ports was seen. Nothing
/// changes where either port is flagged as not to be exported. Else both
/// ports are entered into the index, and the connection is learned.
pub open spec fn subscribed(s: EngineView, sender: Endpoint, dest: Endpoint) -> EngineView {
    if sender.no_export() || dest.no_export() {
        s
    } else {
        EngineView {
            index: s.index.insert(sender.name(), sender.addr).insert(dest.name(), dest.addr),
            connections: learned(s.connections, pair_of(sender, dest)),
        }
    }
}

/// The state after the end of a subscription between two ports was seen:
/// the connection is forgotten, the index stays.
pub open spec fn unsubscribed(s: EngineView, sender: Endpoint, dest: Endpoint) -> EngineView {
    EngineView { index: s.index, connections: s.connections.remove_value(pair_of(sender, dest)) }
}

/// The state after an event.
pub open spec fn next(s: EngineView, e: Event) -> EngineView {
    match e {
        Event::PortStart(port) => EngineView {
            index: sighted(s.index, port),
            connections: s.connections,
        },
        Event::PortSubscribed(sender, dest) => subscribed(s, sender, dest),
        Event::PortUnsubscribed(sender, dest) => unsubscribed(s, sender, dest),
        Event::Other => s,
    }
}

/// The subscriptions to ask for after an event: those of the connections
/// that name a port which has shown up and is not flagged, looked up in the
/// index as it is after the event.
pub open spec fn requests(s: EngineView, e: Event) -> Seq<Subscription> {
    match e {
        Event::PortStart(port) => if port.no_export() {
            Seq::empty()
        } else {
            attempts_for(port.name(), s.connections, sighted(s.index, port))
        },
        _ => Seq::empty(),
    }
}

/// The connections that are left waiting after an event: those that name
/// a port which has shown up and is not flagged, and whose other end the
/// index does not hold.
pub open spec fn deferred(s: EngineView, e: Event) -> Seq<DeferredView> {
    match e {
        Event::PortStart(port) => if port.no_export() {
            Seq::empty()
        } else {
            deferrals_for(port.name(), s.connections, sighted(s.index, port))
        },
        _ => Seq::empty(),
    }
}

/// Whether the connections are to be written again after an event: when a
/// connection was learned that was not there, or one was forgotten that
/// was.
pub open spec fn persists(s: EngineView, e: Event) -> bool {
    match e {
        Event::PortSubscribed(sender, dest) => !sender.no_export() && !dest.no_export()
            && !s.connections.contains(pair_of(sender, dest)),
        Event::PortUnsubscribed(sender, dest) => s.connections.contains(pair_of(sender, dest)),
        _ => false,
    }
}

/// The reconciliation engine. Its connections are in normal form at all
/// times.
pub struct Engine {
    ids: AddressIndex,
    connections: ConnectionSet,
}

impl View for Engine {
    type V = EngineView;

    closed spec fn view(&self) -> EngineView {
        EngineView { index: self.ids@, connections: self.connections@ }
    }
}

impl Engine {
    /// Starts the engine: builds the index from the ports that the registry
    /// shows, takes over the connections that were read, and answers with
    /// the subscriptions to ask for at once.
    pub fn start(ports: &Vec<Endpoint>, file: Option<Vec<Connection>>) -> (started: (
        Engine,
        Vec<Subscription>,
    ))
        ensures
            started.0@ == initial(
                ports@,
                match file {
                    Some(records) => Some(views(records@)),
                    None => None,
                },
            ),
            is_normal(started.0@.connections),
            started.1@ == all_attempts(started.0@.connections, started.0@.index),
    {
        let connections = load_connections(file);
        let ids = get_port_ids(ports);
        let subs = try_all_connections(connections.records(), &ids);
        (Engine { ids, connections }, subs)
    }

    /// The connections as they are to be written: sorted, each one once.
    pub fn connections(&self) -> (connections: &Vec<Connection>)
        ensures
            views(connections@) == self@.connections,
            is_normal(self@.connections),
    {
        self.connections.records()
    }

    /// The address index.
    pub fn ids(&self) -> (ids: &AddressIndex)
        ensures
            ids@ == self@.index,
    {
        &self.ids
    }

    /// The connections that are left waiting as things stand, each with the
    /// end that is missing.
    pub fn waiting(&self) -> (waiting: Vec<Deferred>)
        ensures
            deferred_views(waiting@) == all_deferrals(self@.connections, self@.index),
    {
        waiting_connections(self.connections.records(), &self.ids)
    }

    /// The connections that name `port` and are left waiting as things
    /// stand. None is listed for a port that is flagged as not to be
    /// exported.
    pub fn waiting_for(&self, port: &Endpoint) -> (waiting: Vec<Deferred>)
        ensures
            deferred_views(waiting@) == if port.no_export() {
                Seq::<DeferredView>::empty()
            } else {
                deferrals_for(port.name(), self@.connections, self@.index)
            },
    {
        if is_port_no_export(port) {
            let waiting: Vec<Deferred> = Vec::new();
            assert(deferred_views(waiting@) =~= Seq::empty());
            return waiting;
        }
        let name = get_port_name(port);
        waiting_connections_for(name.as_str(), self.connections.records(), &self.ids)
    }

    /// A port has shown up. Unless it is flagged as not to be exported, it
    /// is entered into the index, and the answer holds a subscription for
    /// each connection that names it and whose other end is known.
    pub fn on_port_start(&mut self, port: &Endpoint) -> (subs: Vec<Subscription>)
        ensures
            final(self)@ == next(old(self)@, Event::PortStart(*port)),
            subs@ == requests(old(self)@, Event::PortStart(*port)),
            is_normal(final(self)@.connections),
    {
        proof {
            use_type_invariant(&self.connections);
        }
        if is_port_no_export(port) {
            return Vec::new();
        }
        let name = get_port_name(port);
        self.ids.insert(name.clone(), port.addr);
        try_connections(name.as_str(), self.connections.records(), &self.ids)
    }

    /// A subscription between two ports was seen, whoever made it. Unless
    /// one of them is flagged as not to be exported, both are entered into
    /// the index and the connection is learned. The answer tells whether
    /// the connection was new, so that the connections are to be written.
    pub fn on_learned_subscribe(&mut self, sender: &Endpoint, dest: &Endpoint) -> (persist: bool)
        ensures
            final(self)@ == next(old(self)@, Event::PortSubscribed(*sender, *dest)),
            persist == persists(old(self)@, Event::PortSubscribed(*sender, *dest)),
            is_normal(final(self)@.connections),
    {
        if is_port_no_export(sender) || is_port_no_export(dest) {
            proof {
                use_type_invariant(&self.connections);
            }
            return false;
        }
        let sender_name = get_port_name(sender);
        let dest_name = get_port_name(dest);
        self.ids.insert(sender_name.clone(), sender.addr);
        self.ids.insert(dest_name.clone(), dest.addr);
        self.connections.learn(sender_name, dest_name)
    }

    /// The end of a subscription between two ports was seen, whoever ended
    /// it. The connection is forgotten. The answer tells whether it was
    /// there, so that the connections are to be written.
    pub fn on_learned_unsubscribe(&mut self, sender: &Endpoint, dest: &Endpoint) -> (persist: bool)
        ensures
            final(self)@ == next(old(self)@, Event::PortUnsubscribed(*sender, *dest)),
            persist == persists(old(self)@, Event::PortUnsubscribed(*sender, *dest)),
            is_normal(final(self)@.connections),
    {
        let sender_name = get_port_name(sender);
        let dest_name = get_port_name(dest);
        self.connections.forget(sender_name.as_str(), dest_name.as_str())
    }

    /// Takes one event of the registry and answers with what is to be done.
    pub fn handle(&mut self, event: &Event) -> (reaction: Reaction)
        ensures
            final(self)@ == next(old(self)@, *event),
            reaction.subscribe@ == requests(old(self)@, *event),
            deferred_views(reaction.waiting@) == deferred(old(self)@, *event),
            reaction.persist == persists(old(self)@, *event),
            is_normal(final(self)@.connections),
    {
        match event {
            Event::PortStart(port) => {
                let subscribe = self.on_port_start(port);
                let waiting = self.waiting_for(port);
                Reaction { subscribe, waiting, persist: false }
            },
            Event::PortSubscribed(sender, dest) => {
                let persist = self.on_learned_subscribe(sender, dest);
                let waiting: Vec<Deferred> = Vec::new();
                assert(deferred_views(waiting@) =~= Seq::empty());
                Reaction { subscribe: Vec::new(), waiting, persist }
            },
            Event::PortUnsubscribed(sender, dest) => {
                let persist = self.on_learned_unsubscribe(sender, dest);
                let waiting: Vec<Deferred> = Vec::new();
                assert(deferred_views(waiting@) =~= Seq::empty());
                Reaction { subscribe: Vec::new(), waiting, persist }
            },
            Event::Other => {
                proof {
                    use_type_invariant(&self.connections);
                }
                let waiting: Vec<Deferred> = Vec::new();
                assert(deferred_views(waiting@) =~= Seq::empty());
                Reaction { subscribe: Vec::new(), waiting, persist: false }
            },
        }
    }
}

} // verus!
