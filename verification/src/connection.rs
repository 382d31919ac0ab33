//! Connections: the pairs of names that are kept across restarts.

use crate::order::{
    compare_names, lemma_name_less_asymmetric, lemma_name_less_connected,
    lemma_name_less_irreflexive, lemma_name_less_transitive, name_less, same_name, Order,
};
use vstd::prelude::*;

verus! {

/// A wanted subscription, written down by name: events sent by the port
/// named `sender` are to reach the port named `dest`.
#[derive(Debug)]
pub struct Connection {
    pub sender: String,
    pub dest: String,
}

/// What a connection is to the contracts: its two names as sequences of
/// characters.
pub ghost struct ConnectionView {
    pub sender: Seq<char>,
    pub dest: Seq<char>,
}

/// The connection from the port named `sender` to the port named `dest`.
pub open spec fn pair(sender: Seq<char>, dest: Seq<char>) -> ConnectionView {
    ConnectionView { sender, dest }
}

impl View for Connection {
    type V = ConnectionView;

    open spec fn view(&self) -> ConnectionView {
        ConnectionView { sender: self.sender@, dest: self.dest@ }
    }
}

impl Clone for Connection {
    fn clone(&self) -> (copy: Connection)
        ensures
            copy@ == self@,
    {
        Connection { sender: self.sender.clone(), dest: self.dest.clone() }
    }
}

impl PartialEq for Connection {
    fn eq(&self, other: &Connection) -> (equal: bool) {
        self.sender == other.sender && self.dest == other.dest
    }
}

impl Eq for Connection {

}

impl vstd::std_specs::cmp::PartialEqSpecImpl for Connection {
    open spec fn obeys_eq_spec() -> bool {
        true
    }

    open spec fn eq_spec(&self, other: &Connection) -> bool {
        self@ == other@
    }
}

/// `a` comes strictly before `b`: by the sender's name first, by the
/// destination's name where the senders are the same.
pub open spec fn connection_less(a: ConnectionView, b: ConnectionView) -> bool {
    name_less(a.sender, b.sender) || (a.sender == b.sender && name_less(a.dest, b.dest))
}

/// No connection comes before itself.
pub proof fn lemma_connection_less_irreflexive(a: ConnectionView)
    ensures
        !connection_less(a, a),
{
    lemma_name_less_irreflexive(a.sender);
    lemma_name_less_irreflexive(a.dest);
}

/// The order of connections is transitive.
pub proof fn lemma_connection_less_transitive(
    a: ConnectionView,
    b: ConnectionView,
    c: ConnectionView,
)
    requires
        connection_less(a, b),
        connection_less(b, c),
    ensures
        connection_less(a, c),
{
    if name_less(a.sender, b.sender) && name_less(b.sender, c.sender) {
        lemma_name_less_transitive(a.sender, b.sender, c.sender);
    }
    if name_less(a.dest, b.dest) && name_less(b.dest, c.dest) {
        lemma_name_less_transitive(a.dest, b.dest, c.dest);
    }
}

/// Of two different connections one comes before the other.
pub proof fn lemma_connection_less_connected(a: ConnectionView, b: ConnectionView)
    ensures
        a == b || connection_less(a, b) || connection_less(b, a),
{
    lemma_name_less_connected(a.sender, b.sender);
    lemma_name_less_connected(a.dest, b.dest);
}

/// A connection that comes before another does not come after it.
pub proof fn lemma_connection_less_asymmetric(a: ConnectionView, b: ConnectionView)
    requires
        connection_less(a, b),
    ensures
        !connection_less(b, a),
        a != b,
{
    lemma_connection_less_irreflexive(a);
    if connection_less(b, a) {
        lemma_connection_less_transitive(a, b, a);
    }
}

impl Connection {
    /// The connection from the port named `sender` to the port named `dest`.
    pub fn new(sender: String, dest: String) -> (conn: Connection)
        ensures
            conn@ == pair(sender@, dest@),
    {
        Connection { sender, dest }
    }

    /// Compares two connections in the order of connections.
    pub fn compare(&self, other: &Connection) -> (order: Order)
        ensures
            order == Order::Less <==> connection_less(self@, other@),
            order == Order::Equal <==> self@ == other@,
            order == Order::Greater <==> connection_less(other@, self@),
    {
        let by_sender = compare_names(self.sender.as_str(), other.sender.as_str());
        let order = match by_sender {
            Order::Equal => compare_names(self.dest.as_str(), other.dest.as_str()),
            _ => by_sender,
        };
        proof {
            lemma_connection_less_irreflexive(self@);
            if connection_less(self@, other@) {
                lemma_connection_less_asymmetric(self@, other@);
            }
            if connection_less(other@, self@) {
                lemma_connection_less_asymmetric(other@, self@);
            }
            if name_less(self.sender@, other.sender@) {
                lemma_name_less_asymmetric(self.sender@, other.sender@);
            }
            if name_less(other.sender@, self.sender@) {
                lemma_name_less_asymmetric(other.sender@, self.sender@);
            }
        }
        order
    }

    /// Whether the connection names `port` as its sender or its destination.
    pub fn mentions(&self, port: &str) -> (found: bool)
        ensures
            found == (self.sender@ == port@ || self.dest@ == port@),
    {
        same_name(self.sender.as_str(), port) || same_name(self.dest.as_str(), port)
    }
}

/// The views of a sequence of connections, in the same order.
pub open spec fn views(s: Seq<Connection>) -> Seq<ConnectionView> {
    s.map_values(|c: Connection| c@)
}

} // verus!
