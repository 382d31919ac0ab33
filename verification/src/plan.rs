//! Which subscriptions to ask the registry for.
//!
//! Nothing here talks to the registry. Each function answers with the
//! subscriptions that are to be asked for, in the order in which to ask; the
//! caller asks, and what the registry answers changes nothing in what is
//! kept. A connection of which a name is unknown is no error: it is left
//! waiting, and can be listed with the name that is missing.

use crate::address::Address;
use crate::connection::{views, Connection, ConnectionView};
use crate::endpoint::Endpoint;
use crate::index::AddressIndex;
use vstd::prelude::*;

verus! {

/// A subscription to ask the registry for: what the port at `sender` sends
/// is to reach the port at `dest`.
#[derive(Clone, Copy, Debug, PartialEq, Eq, Structural)]
pub struct Subscription {
    pub sender: Address,
    pub dest: Address,
}

/// Why a connection cannot be made yet: one of its names is not known.
#[derive(Clone, Copy, Debug, PartialEq, Eq, Structural)]
pub enum NotFound {
    /// No port of the sender's name has been seen.
    Sender,
    /// The sender is known, but no port of the destination's name has been
    /// seen.
    Dest,
}

/// The subscription that stands for `c` under `index`, or the name that is
/// missing. The sender is looked up first.
pub open spec fn resolve(c: ConnectionView, index: Map<Seq<char>, Address>) -> Result<
    Subscription,
    NotFound,
> {
    if !index.contains_key(c.sender) {
        Err(NotFound::Sender)
    } else if !index.contains_key(c.dest) {
        Err(NotFound::Dest)
    } else {
        Ok(Subscription { sender: index[c.sender], dest: index[c.dest] })
    }
}

/// The subscription to ask for on behalf of `c`, where both of its names
/// are known.
pub open spec fn attempt(c: ConnectionView, index: Map<Seq<char>, Address>) -> Option<
    Subscription,
> {
    match resolve(c, index) {
        Ok(sub) => Some(sub),
        Err(_) => None,
    }
}

/// `attempt` under a fixed index, as a function of the connection.
pub open spec fn attempt_under(index: Map<Seq<char>, Address>) -> spec_fn(ConnectionView) -> Option<
    Subscription,
> {
    |c: ConnectionView| attempt(c, index)
}

/// `attempt` under a fixed index, for the connections that name `port` as
/// sender or destination, and nothing for the others.
pub open spec fn attempt_for(port: Seq<char>, index: Map<Seq<char>, Address>) -> spec_fn(
    ConnectionView,
) -> Option<Subscription> {
    |c: ConnectionView|
        if c.sender == port || c.dest == port {
            attempt(c, index)
        } else {
            None
        }
}

/// The subscriptions to ask for on behalf of all of `s`, in the order of
/// `s`. A connection with an unknown name yields none and does not hold up
/// the others.
pub open spec fn all_attempts(s: Seq<ConnectionView>, index: Map<Seq<char>, Address>) -> Seq<
    Subscription,
> {
    s.filter_map(attempt_under(index))
}

/// The subscriptions to ask for on behalf of those of `s` that name `port`,
/// in the order of `s`.
pub open spec fn attempts_for(
    port: Seq<char>,
    s: Seq<ConnectionView>,
    index: Map<Seq<char>, Address>,
) -> Seq<Subscription> {
    s.filter_map(attempt_for(port, index))
}

/// A connection that is left waiting, and which of its ends is missing.
#[derive(Debug, PartialEq, Eq)]
pub struct Deferred {
    pub connection: Connection,
    pub missing: NotFound,
}

/// What a deferred connection is to the contracts.
pub ghost struct DeferredView {
    pub connection: ConnectionView,
    pub missing: NotFound,
}

impl View for Deferred {
    type V = DeferredView;

    open spec fn view(&self) -> DeferredView {
        DeferredView { connection: self.connection@, missing: self.missing }
    }
}

/// The views of a sequence of deferred connections, in the same order.
pub open spec fn deferred_views(s: Seq<Deferred>) -> Seq<DeferredView> {
    s.map_values(|d: Deferred| d@)
}

/// The name for which a deferred connection waits.
pub open spec fn missing_name(d: DeferredView) -> Seq<char> {
    match d.missing {
        NotFound::Sender => d.connection.sender,
        NotFound::Dest => d.connection.dest,
    }
}

/// `c` as a deferred connection, where one of its names is unknown.
pub open spec fn deferral(c: ConnectionView, index: Map<Seq<char>, Address>) -> Option<
    DeferredView,
> {
    match resolve(c, index) {
        Ok(_) => None,
        Err(missing) => Some(DeferredView { connection: c, missing }),
    }
}

/// `deferral` under a fixed index, as a function of the connection.
pub open spec fn deferral_under(index: Map<Seq<char>, Address>) -> spec_fn(
    ConnectionView,
) -> Option<DeferredView> {
    |c: ConnectionView| deferral(c, index)
}

/// `deferral` under a fixed index, for the connections that name `port` as
/// sender or destination, and nothing for the others.
pub open spec fn deferral_for(port: Seq<char>, index: Map<Seq<char>, Address>) -> spec_fn(
    ConnectionView,
) -> Option<DeferredView> {
    |c: ConnectionView|
        if c.sender == port || c.dest == port {
            deferral(c, index)
        } else {
            None
        }
}

/// Those of `s` that are left waiting, in the order of `s`, each with the
/// end that is missing.
pub open spec fn all_deferrals(s: Seq<ConnectionView>, index: Map<Seq<char>, Address>) -> Seq<
    DeferredView,
> {
    s.filter_map(deferral_under(index))
}

/// Those of `s` that name `port` and are left waiting, in the order of `s`.
pub open spec fn deferrals_for(
    port: Seq<char>,
    s: Seq<ConnectionView>,
    index: Map<Seq<char>, Address>,
) -> Seq<DeferredView> {
    s.filter_map(deferral_for(port, index))
}

/// The subscription from `from` to a port, where that port may receive and
/// belongs to another client than `from`.
pub open spec fn pair_from(from: Endpoint) -> spec_fn(Endpoint) -> Option<Subscription> {
    |to: Endpoint|
        if to.is_dest() && to.addr.client != from.addr.client {
            Some(Subscription { sender: from.addr, dest: to.addr })
        } else {
            None
        }
}

/// The subscriptions from `from` to every port of `ports` that may receive
/// and belongs to another client, where `from` may send at all.
pub open spec fn outgoing(from: Endpoint, ports: Seq<Endpoint>) -> Seq<Subscription> {
    if from.is_source() {
        ports.filter_map(pair_from(from))
    } else {
        Seq::empty()
    }
}

/// `outgoing` among fixed ports, as a function of the sending port.
pub open spec fn outgoing_among(ports: Seq<Endpoint>) -> spec_fn(Endpoint) -> Seq<Subscription> {
    |from: Endpoint| outgoing(from, ports)
}

/// Every subscription from a port that may send to a port of another
/// client that may receive: sender by sender in the order of `ports`, and
/// for each sender the destinations in that order.
pub open spec fn all_pairs(ports: Seq<Endpoint>) -> Seq<Subscription> {
    ports.flat_map(outgoing_among(ports))
}

/// Looks up both names of a connection. Where both are known the answer is
/// the subscription that stands for it; else it says which name is missing.
pub fn resolve_connection(conn: &Connection, ids: &AddressIndex) -> (found: Result<
    Subscription,
    NotFound,
>)
    ensures
        found == resolve(conn@, ids@),
{
    match ids.get(conn.sender.as_str()) {
        None => Err(NotFound::Sender),
        Some(sender) => match ids.get(conn.dest.as_str()) {
            None => Err(NotFound::Dest),
            Some(dest) => Ok(Subscription { sender, dest }),
        },
    }
}

/// Attempts a connection. Where both of its names are known the answer is
/// the subscription to ask for. Where one is not, nothing is asked for and
/// nothing is reported: the connection waits until a port of that name
/// shows up.
pub fn connect_by_name(conn: &Connection, ids: &AddressIndex) -> (found: Option<Subscription>)
    ensures
        found == attempt(conn@, ids@),
{
    match resolve_connection(conn, ids) {
        Ok(sub) => Some(sub),
        Err(_) => None,
    }
}

impl Deferred {
    /// The name for which the connection waits.
    pub fn missing_name(&self) -> (name: &str)
        ensures
            name@ == missing_name(self@),
    {
        match self.missing {
            NotFound::Sender => self.connection.sender.as_str(),
            NotFound::Dest => self.connection.dest.as_str(),
        }
    }
}

/// The connection as one that is left waiting, where one of its names is
/// unknown.
pub fn deferred_by_name(conn: &Connection, ids: &AddressIndex) -> (waiting: Option<Deferred>)
    ensures
        match waiting {
            Some(d) => deferral(conn@, ids@) == Some(d@),
            None => deferral(conn@, ids@).is_none(),
        },
{
    match resolve_connection(conn, ids) {
        Ok(_) => None,
        Err(missing) => Some(Deferred { connection: conn.clone(), missing }),
    }
}

/// The connections that are left waiting, each with the end that is
/// missing.
pub fn waiting_connections(connections: &Vec<Connection>, ids: &AddressIndex) -> (waiting: Vec<
    Deferred,
>)
    ensures
        deferred_views(waiting@) == all_deferrals(views(connections@), ids@),
{
    let mut waiting: Vec<Deferred> = Vec::new();
    let ghost s = views(connections@);
    let ghost f = deferral_under(ids@);
    let mut i: usize = 0;
    assert(deferred_views(waiting@) =~= s.take(0).filter_map(f));
    while i < connections.len()
        invariant
            i <= connections.len(),
            s == views(connections@),
            f == deferral_under(ids@),
            deferred_views(waiting@) == s.take(i as int).filter_map(f),
        decreases connections.len() - i,
    {
        let ghost before = deferred_views(waiting@);
        match deferred_by_name(&connections[i], ids) {
            Some(d) => {
                waiting.push(d);
                assert(deferred_views(waiting@) =~= before.push(d@));
            },
            None => {},
        }
        proof {
            s.lemma_filter_map_take_succ(f, i as int);
        }
        i += 1;
    }
    assert(s.take(i as int) =~= s);
    waiting
}

/// The connections that name `port` and are left waiting, each with the
/// end that is missing.
pub fn waiting_connections_for(
    port: &str,
    connections: &Vec<Connection>,
    ids: &AddressIndex,
) -> (waiting: Vec<Deferred>)
    ensures
        deferred_views(waiting@) == deferrals_for(port@, views(connections@), ids@),
{
    let mut waiting: Vec<Deferred> = Vec::new();
    let ghost s = views(connections@);
    let ghost f = deferral_for(port@, ids@);
    let mut i: usize = 0;
    assert(deferred_views(waiting@) =~= s.take(0).filter_map(f));
    while i < connections.len()
        invariant
            i <= connections.len(),
            s == views(connections@),
            f == deferral_for(port@, ids@),
            deferred_views(waiting@) == s.take(i as int).filter_map(f),
        decreases connections.len() - i,
    {
        let ghost before = deferred_views(waiting@);
        let conn = &connections[i];
        if conn.mentions(port) {
            match deferred_by_name(conn, ids) {
                Some(d) => {
                    waiting.push(d);
                    assert(deferred_views(waiting@) =~= before.push(d@));
                },
                None => {},
            }
        }
        proof {
            s.lemma_filter_map_take_succ(f, i as int);
        }
        i += 1;
    }
    assert(s.take(i as int) =~= s);
    waiting
}

/// The subscriptions to ask for when the port named `port` has shown up:
/// one for each connection that names it and whose other end is known too.
pub fn try_connections(port: &str, connections: &Vec<Connection>, ids: &AddressIndex) -> (subs: Vec<
    Subscription,
>)
    ensures
        subs@ == attempts_for(port@, views(connections@), ids@),
{
    let mut subs: Vec<Subscription> = Vec::new();
    let ghost s = views(connections@);
    let ghost f = attempt_for(port@, ids@);
    let mut i: usize = 0;
    while i < connections.len()
        invariant
            i <= connections.len(),
            s == views(connections@),
            f == attempt_for(port@, ids@),
            subs@ == s.take(i as int).filter_map(f),
        decreases connections.len() - i,
    {
        let conn = &connections[i];
        if conn.mentions(port) {
            match connect_by_name(conn, ids) {
                Some(sub) => {
                    subs.push(sub);
                },
                None => {},
            }
        }
        proof {
            s.lemma_filter_map_take_succ(f, i as int);
        }
        i += 1;
    }
    assert(s.take(i as int) =~= s);
    subs
}

/// The subscriptions to ask for at startup: one for each connection whose
/// two ends are known.
pub fn try_all_connections(connections: &Vec<Connection>, ids: &AddressIndex) -> (subs: Vec<
    Subscription,
>)
    ensures
        subs@ == all_attempts(views(connections@), ids@),
{
    let mut subs: Vec<Subscription> = Vec::new();
    let ghost s = views(connections@);
    let ghost f = attempt_under(ids@);
    let mut i: usize = 0;
    while i < connections.len()
        invariant
            i <= connections.len(),
            s == views(connections@),
            f == attempt_under(ids@),
            subs@ == s.take(i as int).filter_map(f),
        decreases connections.len() - i,
    {
        match connect_by_name(&connections[i], ids) {
            Some(sub) => {
                subs.push(sub);
            },
            None => {},
        }
        proof {
            s.lemma_filter_map_take_succ(f, i as int);
        }
        i += 1;
    }
    assert(s.take(i as int) =~= s);
    subs
}

/// The subscriptions to ask for when everything is to be connected to
/// everything: from each port that may send to each port of another client
/// that may receive, whatever has been recorded.
pub fn connect_all(ports: &Vec<Endpoint>) -> (subs: Vec<Subscription>)
    ensures
        subs@ == all_pairs(ports@),
{
    let mut subs: Vec<Subscription> = Vec::new();
    let ghost g = outgoing_among(ports@);
    let mut i: usize = 0;
    while i < ports.len()
        invariant
            i <= ports.len(),
            g == outgoing_among(ports@),
            subs@ == ports@.take(i as int).flat_map(g),
        decreases ports.len() - i,
    {
        let from = &ports[i];
        let ghost before = subs@;
        if from.can_send() {
            let ghost f = pair_from(*from);
            let mut j: usize = 0;
            while j < ports.len()
                invariant
                    j <= ports.len(),
                    f == pair_from(*from),
                    subs@ == before + ports@.take(j as int).filter_map(f),
                decreases ports.len() - j,
            {
                let to = &ports[j];
                if to.can_receive() && to.addr.client != from.addr.client {
                    subs.push(Subscription { sender: from.addr, dest: to.addr });
                }
                proof {
                    ports@.lemma_filter_map_take_succ(f, j as int);
                }
                j += 1;
            }
            assert(ports@.take(j as int) =~= ports@);
        }
        proof {
            ports@.lemma_flat_map_take_append(g, i as int);
            assert(subs@ =~= before + g(ports@[i as int]));
        }
        i += 1;
    }
    assert(ports@.take(i as int) =~= ports@);
    subs
}

proof fn lemma_filter_map_has<A, B>(s: Seq<A>, f: spec_fn(A) -> Option<B>, i: int)
    requires
        0 <= i < s.len(),
        f(s[i]) is Some,
    ensures
        s.filter_map(f).contains(f(s[i])->0),
    decreases s.len(),
{
    let rest = s.drop_last();
    let tail: Seq<B> = match f(s.last()) {
        Some(b) => seq![b],
        None => Seq::empty(),
    };
    assert(s.filter_map(f) =~= rest.filter_map(f) + tail);
    if i == s.len() - 1 {
        let r = s.filter_map(f);
        assert(r[r.len() - 1] == f(s[i])->0);
    } else {
        lemma_filter_map_has(rest, f, i);
        let k = choose|k: int|
            0 <= k < rest.filter_map(f).len() && rest.filter_map(f)[k] == f(rest[i])->0;
        assert(s.filter_map(f)[k] == f(s[i])->0);
    }
}

proof fn lemma_filter_map_from<A, B>(s: Seq<A>, f: spec_fn(A) -> Option<B>, b: B) -> (i: int)
    requires
        s.filter_map(f).contains(b),
    ensures
        0 <= i < s.len(),
        f(s[i]) == Some(b),
    decreases s.len(),
{
    if s.len() == 0 {
        0
    } else {
        let rest = s.drop_last();
        if f(s.last()) == Some(b) {
            s.len() - 1
        } else {
            let r = s.filter_map(f);
            let k = choose|k: int| 0 <= k < r.len() && r[k] == b;
            assert(rest.filter_map(f)[k] == b);
            lemma_filter_map_from(rest, f, b)
        }
    }
}

proof fn lemma_flat_map_has<A, B>(s: Seq<A>, g: spec_fn(A) -> Seq<B>, i: int, b: B)
    requires
        0 <= i < s.len(),
        g(s[i]).contains(b),
    ensures
        s.flat_map(g).contains(b),
    decreases s.len(),
{
    let rest = s.drop_last();
    assert(s =~= rest.push(s.last()));
    rest.lemma_flat_map_push(g, s.last());
    let r = s.flat_map(g);
    if i == s.len() - 1 {
        let row = g(s[i]);
        let k = choose|k: int| 0 <= k < row.len() && row[k] == b;
        assert(r[rest.flat_map(g).len() + k] == b);
    } else {
        lemma_flat_map_has(rest, g, i, b);
        let k = choose|k: int| 0 <= k < rest.flat_map(g).len() && rest.flat_map(g)[k] == b;
        assert(r[k] == b);
    }
}

proof fn lemma_flat_map_from<A, B>(s: Seq<A>, g: spec_fn(A) -> Seq<B>, b: B) -> (i: int)
    requires
        s.flat_map(g).contains(b),
    ensures
        0 <= i < s.len(),
        g(s[i]).contains(b),
    decreases s.len(),
{
    if s.len() == 0 {
        0
    } else {
        let rest = s.drop_last();
        assert(s =~= rest.push(s.last()));
        rest.lemma_flat_map_push(g, s.last());
        let r = s.flat_map(g);
        let k = choose|k: int| 0 <= k < r.len() && r[k] == b;
        if k < rest.flat_map(g).len() {
            assert(rest.flat_map(g)[k] == b);
            lemma_flat_map_from(rest, g, b)
        } else {
            assert(g(s.last())[k - rest.flat_map(g).len()] == b);
            s.len() - 1
        }
    }
}

/// An attempt ends in one of two ways and hands no error to its caller:
/// with the subscription to ask for, or with the connection left waiting
/// for a name that the index does not hold.
pub proof fn lemma_attempt_or_deferral(c: ConnectionView, index: Map<Seq<char>, Address>)
    ensures
        attempt(c, index) is Some <==> deferral(c, index) is None,
        deferral(c, index) matches Some(d) ==> d.connection == c && !index.contains_key(
            missing_name(d),
        ),
        attempt(c, index) matches Some(sub) ==> index.contains_key(c.sender) && index.contains_key(
            c.dest,
        ) && sub == (Subscription { sender: index[c.sender], dest: index[c.dest] }),
{
}

/// Every connection is either asked for or left waiting: none is dropped,
/// and none holds up the others.
pub proof fn lemma_every_connection_accounted(
    s: Seq<ConnectionView>,
    index: Map<Seq<char>, Address>,
)
    ensures
        all_attempts(s, index).len() + all_deferrals(s, index).len() == s.len(),
    decreases s.len(),
{
    if s.len() > 0 {
        lemma_every_connection_accounted(s.drop_last(), index);
        lemma_attempt_or_deferral(s.last(), index);
    }
}

/// A connection is listed as waiting exactly when it is one of the
/// connections and one of its names is unknown.
pub proof fn lemma_all_deferrals_contains(
    s: Seq<ConnectionView>,
    index: Map<Seq<char>, Address>,
    d: DeferredView,
)
    ensures
        all_deferrals(s, index).contains(d) <==> exists|i: int|
            0 <= i < s.len() && d.connection == #[trigger] s[i] && resolve(s[i], index) == Err::<
                Subscription,
                NotFound,
            >(d.missing),
{
    let f = deferral_under(index);
    if all_deferrals(s, index).contains(d) {
        let i = lemma_filter_map_from(s, f, d);
        assert(d.connection == s[i] && resolve(s[i], index) == Err::<Subscription, NotFound>(
            d.missing,
        ));
    }
    if exists|i: int|
        0 <= i < s.len() && d.connection == #[trigger] s[i] && resolve(s[i], index) == Err::<
            Subscription,
            NotFound,
        >(d.missing) {
        let i = choose|i: int|
            0 <= i < s.len() && d.connection == #[trigger] s[i] && resolve(s[i], index) == Err::<
                Subscription,
                NotFound,
            >(d.missing);
        lemma_filter_map_has(s, f, i);
    }
}

/// At startup a subscription is asked for exactly when it stands for one of
/// the connections under the index.
pub proof fn lemma_all_attempts_contains(
    s: Seq<ConnectionView>,
    index: Map<Seq<char>, Address>,
    sub: Subscription,
)
    ensures
        all_attempts(s, index).contains(sub) <==> exists|i: int|
            0 <= i < s.len() && resolve(#[trigger] s[i], index) == Ok::<Subscription, NotFound>(
                sub,
            ),
{
    let f = attempt_under(index);
    if all_attempts(s, index).contains(sub) {
        let i = lemma_filter_map_from(s, f, sub);
        assert(resolve(s[i], index) == Ok::<Subscription, NotFound>(sub));
    }
    if exists|i: int|
        0 <= i < s.len() && resolve(#[trigger] s[i], index) == Ok::<Subscription, NotFound>(sub) {
        let i = choose|i: int|
            0 <= i < s.len() && resolve(#[trigger] s[i], index) == Ok::<Subscription, NotFound>(
                sub,
            );
        lemma_filter_map_has(s, f, i);
    }
}

/// When a port has shown up, a subscription is asked for exactly when it
/// stands for one of the connections that name the port.
pub proof fn lemma_attempts_for_contains(
    port: Seq<char>,
    s: Seq<ConnectionView>,
    index: Map<Seq<char>, Address>,
    sub: Subscription,
)
    ensures
        attempts_for(port, s, index).contains(sub) <==> exists|i: int|
            0 <= i < s.len() && ((#[trigger] s[i]).sender == port || s[i].dest == port) && resolve(
                s[i],
                index,
            ) == Ok::<Subscription, NotFound>(sub),
{
    let f = attempt_for(port, index);
    if attempts_for(port, s, index).contains(sub) {
        let i = lemma_filter_map_from(s, f, sub);
        assert((s[i].sender == port || s[i].dest == port) && resolve(s[i], index) == Ok::<
            Subscription,
            NotFound,
        >(sub));
    }
    if exists|i: int|
        0 <= i < s.len() && ((#[trigger] s[i]).sender == port || s[i].dest == port) && resolve(
            s[i],
            index,
        ) == Ok::<Subscription, NotFound>(sub) {
        let i = choose|i: int|
            0 <= i < s.len() && ((#[trigger] s[i]).sender == port || s[i].dest == port) && resolve(
                s[i],
                index,
            ) == Ok::<Subscription, NotFound>(sub);
        lemma_filter_map_has(s, f, i);
    }
}

/// When everything is connected to everything, a subscription is asked for
/// exactly when it leads from a port that may send to a port that may
/// receive and the two belong to different clients. Ports of one client are
/// never connected to each other, and a port flagged as not to be exported
/// is at neither end.
pub proof fn lemma_all_pairs_contains(ports: Seq<Endpoint>, sub: Subscription)
    ensures
        all_pairs(ports).contains(sub) <==> exists|i: int, j: int|
            0 <= i < ports.len() && 0 <= j < ports.len() && (#[trigger] ports[i]).is_source() && (
            #[trigger] ports[j]).is_dest() && ports[i].addr.client != ports[j].addr.client && sub
                == (Subscription { sender: ports[i].addr, dest: ports[j].addr }),
{
    let g = outgoing_among(ports);
    if all_pairs(ports).contains(sub) {
        let i = lemma_flat_map_from(ports, g, sub);
        assert(outgoing(ports[i], ports).contains(sub));
        let j = lemma_filter_map_from(ports, pair_from(ports[i]), sub);
        assert(ports[i].is_source() && ports[j].is_dest());
    }
    if exists|i: int, j: int|
        0 <= i < ports.len() && 0 <= j < ports.len() && (#[trigger] ports[i]).is_source() && (
        #[trigger] ports[j]).is_dest() && ports[i].addr.client != ports[j].addr.client && sub == (
        Subscription { sender: ports[i].addr, dest: ports[j].addr }) {
        let (i, j) = choose|i: int, j: int|
            0 <= i < ports.len() && 0 <= j < ports.len() && (#[trigger] ports[i]).is_source() && (
            #[trigger] ports[j]).is_dest() && ports[i].addr.client != ports[j].addr.client && sub
                == (Subscription { sender: ports[i].addr, dest: ports[j].addr });
        lemma_filter_map_has(ports, pair_from(ports[i]), j);
        lemma_flat_map_has(ports, g, i, sub);
    }
}

} // verus!
