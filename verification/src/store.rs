//! The set of connections as it is kept and written: in order, each one once.

use crate::connection::{
    connection_less, lemma_connection_less_asymmetric, lemma_connection_less_connected,
    lemma_connection_less_transitive, pair, views, Connection, ConnectionView,
};
use crate::order::{same_name, Order};
use vstd::prelude::*;

verus! {

/// The sequence is strictly increasing in the order of connections: it is
/// sorted and holds nothing twice.
pub open spec fn is_normal(s: Seq<ConnectionView>) -> bool {
    forall|i: int, j: int| 0 <= i < j < s.len() ==> connection_less(s[i], s[j])
}

/// The strictly increasing sequence that holds what `s` holds.
pub open spec fn normalized(s: Seq<ConnectionView>) -> Seq<ConnectionView> {
    choose|r: Seq<ConnectionView>| is_normal(r) && r.to_set() == s.to_set()
}

/// What is written for the connections `s`: their normal form.
pub open spec fn stored(s: Seq<ConnectionView>) -> Seq<ConnectionView> {
    normalized(s)
}

/// What is kept after reading: nothing where no record exists yet, else the
/// normal form of the records that were read.
pub open spec fn loaded(file: Option<Seq<ConnectionView>>) -> Seq<ConnectionView> {
    match file {
        None => Seq::empty(),
        Some(records) => normalized(records),
    }
}

/// The connections `s` and, where it is new among them, `c`.
pub open spec fn learned(s: Seq<ConnectionView>, c: ConnectionView) -> Seq<ConnectionView> {
    if s.contains(c) {
        s
    } else {
        normalized(s.push(c))
    }
}

/// A strictly increasing sequence holds nothing twice.
pub proof fn lemma_normal_no_duplicates(s: Seq<ConnectionView>)
    requires
        is_normal(s),
    ensures
        s.no_duplicates(),
{
    assert forall|i: int, j: int| 0 <= i < s.len() && 0 <= j < s.len() && i != j implies s[i]
        != s[j] by {
        if i < j {
            lemma_connection_less_asymmetric(s[i], s[j]);
        } else {
            lemma_connection_less_asymmetric(s[j], s[i]);
        }
    }
}

/// Two strictly increasing sequences that hold the same connections are the
/// same sequence.
pub proof fn lemma_normal_unique(a: Seq<ConnectionView>, b: Seq<ConnectionView>)
    requires
        is_normal(a),
        is_normal(b),
        a.to_set() == b.to_set(),
    ensures
        a == b,
    decreases a.len(),
{
    lemma_normal_no_duplicates(a);
    lemma_normal_no_duplicates(b);
    a.unique_seq_to_set();
    b.unique_seq_to_set();
    if a.len() == 0 {
        assert(a =~= b);
    } else {
        let x = a.last();
        let y = b.last();
        assert(a.contains(x));
        assert(b.contains(y));
        assert(b.to_set().contains(x));
        assert(a.to_set().contains(y));
        let j = choose|j: int| 0 <= j < b.len() && b[j] == x;
        let i = choose|i: int| 0 <= i < a.len() && a[i] == y;
        if j < b.len() - 1 && i < a.len() - 1 {
            lemma_connection_less_asymmetric(x, y);
        }
        assert(x == y);
        let a0 = a.drop_last();
        let b0 = b.drop_last();
        assert forall|v: ConnectionView| a0.contains(v) <==> b0.contains(v) by {
            if a0.contains(v) {
                let k = choose|k: int| 0 <= k < a0.len() && a0[k] == v;
                assert(a[k] == v);
                assert(a.contains(v));
                assert(b.to_set().contains(v));
                let m = choose|m: int| 0 <= m < b.len() && b[m] == v;
                assert(b0[m] == v);
            }
            if b0.contains(v) {
                let k = choose|k: int| 0 <= k < b0.len() && b0[k] == v;
                assert(b[k] == v);
                assert(b.contains(v));
                assert(a.to_set().contains(v));
                let m = choose|m: int| 0 <= m < a.len() && a[m] == v;
                assert(a0[m] == v);
            }
        }
        assert(a0.to_set() =~= b0.to_set());
        lemma_normal_unique(a0, b0);
        assert(a =~= a0.push(x));
        assert(b =~= b0.push(y));
    }
}

/// Putting `c` at position `p` of a strictly increasing sequence, where all
/// that stands before `p` comes before `c` and all from `p` on comes after
/// it, gives a strictly increasing sequence that holds `c` besides.
pub proof fn lemma_insert_keeps_normal(s: Seq<ConnectionView>, p: int, c: ConnectionView)
    requires
        is_normal(s),
        0 <= p <= s.len(),
        forall|i: int| 0 <= i < p ==> connection_less(s[i], c),
        forall|i: int| p <= i < s.len() ==> connection_less(c, s[i]),
    ensures
        is_normal(s.insert(p, c)),
        s.insert(p, c).to_set() == s.to_set().insert(c),
{
    let r = s.insert(p, c);
    s.insert_ensures(p, c);
    assert forall|i: int, j: int| 0 <= i < j < r.len() implies connection_less(r[i], r[j]) by {
        if j < p {
        } else if j == p {
        } else if i < p {
            assert(r[j] == s[j - 1]);
        } else if i == p {
            assert(r[j] == s[j - 1]);
        } else {
            assert(r[i] == s[i - 1]);
            assert(r[j] == s[j - 1]);
        }
    }
    assert forall|v: ConnectionView| r.contains(v) <==> (s.contains(v) || v == c) by {
        if r.contains(v) {
            let k = choose|k: int| 0 <= k < r.len() && r[k] == v;
            if k < p {
                assert(s[k] == v);
            } else if k > p {
                assert(s[k - 1] == v);
            }
        }
        if s.contains(v) {
            let k = choose|k: int| 0 <= k < s.len() && s[k] == v;
            if k < p {
                assert(r[k] == v);
            } else {
                assert(r[k + 1] == v);
            }
        }
        if v == c {
            assert(r[p] == v);
        }
    }
    assert(r.to_set() =~= s.to_set().insert(c));
}

/// Taking the connection at position `p` out of a strictly increasing
/// sequence leaves a strictly increasing sequence that holds the others.
pub proof fn lemma_remove_keeps_normal(s: Seq<ConnectionView>, p: int)
    requires
        is_normal(s),
        0 <= p < s.len(),
    ensures
        is_normal(s.remove(p)),
        s.remove(p).to_set() == s.to_set().remove(s[p]),
{
    let r = s.remove(p);
    s.remove_ensures(p);
    lemma_normal_no_duplicates(s);
    assert forall|i: int, j: int| 0 <= i < j < r.len() implies connection_less(r[i], r[j]) by {
        if j < p {
        } else if i < p {
            assert(r[j] == s[j + 1]);
        } else {
            assert(r[i] == s[i + 1]);
            assert(r[j] == s[j + 1]);
        }
    }
    assert forall|v: ConnectionView| r.contains(v) <==> (s.contains(v) && v != s[p]) by {
        if r.contains(v) {
            let k = choose|k: int| 0 <= k < r.len() && r[k] == v;
            if k < p {
                assert(s[k] == v);
            } else {
                assert(s[k + 1] == v);
            }
        }
        if s.contains(v) && v != s[p] {
            let k = choose|k: int| 0 <= k < s.len() && s[k] == v;
            if k < p {
                assert(r[k] == v);
            } else {
                assert(r[k - 1] == v);
            }
        }
    }
    assert(r.to_set() =~= s.to_set().remove(s[p]));
}

/// Where `c` belongs in `r`: behind the last connection that comes before it.
spec fn rank(r: Seq<ConnectionView>, c: ConnectionView) -> int
    decreases r.len(),
{
    if r.len() == 0 {
        0
    } else if connection_less(r.last(), c) {
        r.len() as int
    } else {
        rank(r.drop_last(), c)
    }
}

proof fn lemma_rank(r: Seq<ConnectionView>, c: ConnectionView)
    requires
        is_normal(r),
        !r.contains(c),
    ensures
        0 <= rank(r, c) <= r.len(),
        forall|i: int| 0 <= i < rank(r, c) ==> connection_less(r[i], c),
        forall|i: int| rank(r, c) <= i < r.len() ==> connection_less(c, r[i]),
    decreases r.len(),
{
    if r.len() == 0 {
    } else if connection_less(r.last(), c) {
        assert forall|i: int| 0 <= i < r.len() implies connection_less(r[i], c) by {
            if i < r.len() - 1 {
                lemma_connection_less_transitive(r[i], r.last(), c);
            }
        }
    } else {
        let r0 = r.drop_last();
        assert(is_normal(r0));
        assert(!r0.contains(c)) by {
            if r0.contains(c) {
                let k = choose|k: int| 0 <= k < r0.len() && r0[k] == c;
                assert(r[k] == c);
            }
        }
        lemma_rank(r0, c);
        assert(r[r.len() - 1] != c);
        lemma_connection_less_connected(r.last(), c);
        assert forall|i: int| rank(r, c) <= i < r.len() implies connection_less(c, r[i]) by {
            if i < r.len() - 1 {
                assert(r0[i] == r[i]);
            }
        }
        assert forall|i: int| 0 <= i < rank(r, c) implies connection_less(r[i], c) by {
            assert(r0[i] == r[i]);
        }
    }
}

proof fn lemma_normal_form_exists(s: Seq<ConnectionView>) -> (r: Seq<ConnectionView>)
    ensures
        is_normal(r),
        r.to_set() == s.to_set(),
    decreases s.len(),
{
    if s.len() == 0 {
        assert(s.to_set() =~= Seq::<ConnectionView>::empty().to_set());
        Seq::empty()
    } else {
        let c = s.last();
        let r0 = lemma_normal_form_exists(s.drop_last());
        assert(s =~= s.drop_last().push(c));
        s.drop_last().lemma_push_to_set_commute(c);
        if r0.contains(c) {
            assert(r0.to_set() =~= r0.to_set().insert(c));
            r0
        } else {
            lemma_rank(r0, c);
            lemma_insert_keeps_normal(r0, rank(r0, c), c);
            r0.insert(rank(r0, c), c)
        }
    }
}

/// The normal form of `s` is strictly increasing and holds what `s` holds.
pub proof fn lemma_normalized(s: Seq<ConnectionView>)
    ensures
        is_normal(normalized(s)),
        normalized(s).to_set() == s.to_set(),
{
    let r = lemma_normal_form_exists(s);
    assert(is_normal(r) && r.to_set() == s.to_set());
}

/// A strictly increasing sequence is its own normal form.
pub proof fn lemma_normalized_of_normal(s: Seq<ConnectionView>)
    requires
        is_normal(s),
    ensures
        normalized(s) == s,
{
    lemma_normalized(s);
    lemma_normal_unique(normalized(s), s);
}

/// Writing, reading what was written and writing again gives what the first
/// writing gave: the normal form is a fixed point of storing.
pub proof fn lemma_store_load_store(s: Seq<ConnectionView>)
    ensures
        stored(loaded(Some(stored(s)))) == stored(s),
        loaded(Some(stored(s))) == stored(s),
{
    lemma_normalized(s);
    lemma_normalized_of_normal(normalized(s));
}

/// Learning a connection keeps the sequence strictly increasing and adds
/// that connection to what it holds, and nothing else.
pub proof fn lemma_learned(s: Seq<ConnectionView>, c: ConnectionView)
    requires
        is_normal(s),
    ensures
        is_normal(learned(s, c)),
        learned(s, c).to_set() == s.to_set().insert(c),
{
    if s.contains(c) {
        assert(s.to_set() =~= s.to_set().insert(c));
    } else {
        lemma_normalized(s.push(c));
        s.lemma_push_to_set_commute(c);
    }
}

/// Forgetting a connection keeps the sequence strictly increasing and takes
/// that connection out of what it holds, and nothing else.
pub proof fn lemma_forgotten(s: Seq<ConnectionView>, c: ConnectionView)
    requires
        is_normal(s),
    ensures
        is_normal(s.remove_value(c)),
        s.remove_value(c).to_set() == s.to_set().remove(c),
{
    s.index_of_first_ensures(c);
    match s.index_of_first(c) {
        Some(p) => {
            lemma_remove_keeps_normal(s, p);
        },
        None => {
            assert(s.to_set() =~= s.to_set().remove(c));
        },
    }
}

/// Learning a connection that is new and forgetting it again leaves the
/// sequence as it was.
pub proof fn lemma_learn_then_forget(s: Seq<ConnectionView>, c: ConnectionView)
    requires
        is_normal(s),
        !s.contains(c),
    ensures
        learned(s, c).remove_value(c) == s,
{
    lemma_learned(s, c);
    lemma_forgotten(learned(s, c), c);
    assert(s.to_set().insert(c).remove(c) =~= s.to_set());
    lemma_normal_unique(learned(s, c).remove_value(c), s);
}

/// Puts `c` where it belongs in a strictly increasing vector, unless the
/// vector holds it already.
fn insert_in_order(kept: &mut Vec<Connection>, c: Connection)
    requires
        is_normal(views(old(kept)@)),
    ensures
        is_normal(views(final(kept)@)),
        views(final(kept)@).to_set() == views(old(kept)@).to_set().insert(c@),
{
    let mut p: usize = 0;
    let mut placed = false;
    while p < kept.len() && !placed
        invariant
            p <= kept.len(),
            kept@ == old(kept)@,
            is_normal(views(kept@)),
            forall|i: int| 0 <= i < p ==> connection_less(#[trigger] views(kept@)[i], c@),
            placed ==> p < kept.len() && connection_less(c@, views(kept@)[p as int]),
        decreases kept.len() - p + (if placed { 0int } else { 1int }),
    {
        match kept[p].compare(&c) {
            Order::Less => {
                p += 1;
            },
            Order::Equal => {
                proof {
                    assert(views(kept@)[p as int] == c@);
                    assert(views(kept@).contains(c@));
                    assert(views(kept@).to_set() =~= views(kept@).to_set().insert(c@));
                }
                return ;
            },
            Order::Greater => {
                placed = true;
            },
        }
    }
    proof {
        let s = views(kept@);
        assert forall|i: int| p <= i < s.len() implies connection_less(c@, s[i]) by {
            if i > p {
                lemma_connection_less_transitive(c@, s[p as int], s[i]);
            }
        }
        lemma_insert_keeps_normal(s, p as int, c@);
        assert(views(kept@.insert(p as int, c)) =~= s.insert(p as int, c@));
    }
    kept.insert(p, c);
}

/// Brings the connections into the form in which they are written: sorted,
/// each one once.
pub fn store_connections(connections: &mut Vec<Connection>)
    ensures
        views(final(connections)@) == stored(views(old(connections)@)),
        is_normal(views(final(connections)@)),
        views(final(connections)@).to_set() == views(old(connections)@).to_set(),
{
    let mut kept: Vec<Connection> = Vec::new();
    let mut i: usize = 0;
    proof {
        assert(views(kept@).to_set() =~= views(connections@).take(0).to_set());
    }
    while i < connections.len()
        invariant
            i <= connections.len(),
            connections@ == old(connections)@,
            is_normal(views(kept@)),
            views(kept@).to_set() == views(connections@).take(i as int).to_set(),
        decreases connections.len() - i,
    {
        let c = connections[i].clone();
        insert_in_order(&mut kept, c);
        proof {
            let s = views(connections@);
            assert(s.take(i + 1) =~= s.take(i as int).push(s[i as int]));
            s.take(i as int).lemma_push_to_set_commute(s[i as int]);
        }
        i += 1;
    }
    proof {
        let s = views(connections@);
        assert(s.take(i as int) =~= s);
        lemma_normalized(s);
        lemma_normal_unique(views(kept@), normalized(s));
    }
    *connections = kept;
}

/// The first position at which the connection from `sender` to `dest`
/// stands, if it stands anywhere.
pub fn find_connection(connections: &Vec<Connection>, sender: &str, dest: &str) -> (found: Option<
    usize,
>)
    ensures
        views(connections@).index_of_first(pair(sender@, dest@)) == match found {
            Some(i) => Some(i as int),
            None => None,
        },
{
    let ghost wanted = pair(sender@, dest@);
    let ghost s = views(connections@);
    let mut i: usize = 0;
    while i < connections.len()
        invariant
            i <= connections.len(),
            s == views(connections@),
            wanted == pair(sender@, dest@),
            forall|j: int| 0 <= j < i ==> s[j] != wanted,
        decreases connections.len() - i,
    {
        let c = &connections[i];
        if same_name(c.sender.as_str(), sender) && same_name(c.dest.as_str(), dest) {
            proof {
                assert(s[i as int] == wanted);
                s.index_of_first_ensures(wanted);
            }
            return Some(i);
        }
        i += 1;
    }
    proof {
        s.index_of_first_ensures(wanted);
    }
    None
}

fn copy_connections(connections: &Vec<Connection>) -> (copy: Vec<Connection>)
    ensures
        views(copy@) == views(connections@),
{
    let mut copy: Vec<Connection> = Vec::new();
    let mut i: usize = 0;
    while i < connections.len()
        invariant
            i <= connections.len(),
            views(copy@) == views(connections@).take(i as int),
        decreases connections.len() - i,
    {
        let ghost before = views(copy@);
        let c = connections[i].clone();
        copy.push(c);
        proof {
            let s = views(connections@);
            assert(views(copy@) =~= before.push(c@));
            assert(s.take(i + 1) =~= s.take(i as int).push(s[i as int]));
        }
        i += 1;
    }
    assert(views(connections@).take(i as int) =~= views(connections@));
    copy
}

/// The connections that are kept: always in normal form, so that they can
/// be written as they stand.
pub struct ConnectionSet {
    items: Vec<Connection>,
}

impl View for ConnectionSet {
    type V = Seq<ConnectionView>;

    closed spec fn view(&self) -> Seq<ConnectionView> {
        views(self.items@)
    }
}

impl ConnectionSet {
    /// Holds of every connection set: it is in normal form.
    #[verifier::type_invariant]
    pub open spec fn in_normal_form(&self) -> bool {
        is_normal(self@)
    }

    /// No connections.
    pub fn new() -> (set: ConnectionSet)
        ensures
            set@ == Seq::<ConnectionView>::empty(),
    {
        let items: Vec<Connection> = Vec::new();
        assert(views(items@) =~= Seq::empty());
        ConnectionSet { items }
    }

    /// The connections as they are to be written: sorted, each one once.
    pub fn records(&self) -> (records: &Vec<Connection>)
        ensures
            views(records@) == self@,
            is_normal(self@),
            stored(self@) == self@,
    {
        proof {
            use_type_invariant(self);
            lemma_normalized_of_normal(self@);
        }
        &self.items
    }

    /// The number of connections.
    pub fn len(&self) -> (n: usize)
        ensures
            n == self@.len(),
    {
        self.items.len()
    }

    /// Whether the connection from `sender` to `dest` is among them.
    pub fn contains(&self, sender: &str, dest: &str) -> (found: bool)
        ensures
            found == self@.contains(pair(sender@, dest@)),
    {
        proof {
            self@.index_of_first_ensures(pair(sender@, dest@));
        }
        find_connection(&self.items, sender, dest).is_some()
    }

    /// Adds the connection from `sender` to `dest` unless it is there
    /// already, and tells whether it was added.
    pub fn learn(&mut self, sender: String, dest: String) -> (added: bool)
        ensures
            final(self)@ == learned(old(self)@, pair(sender@, dest@)),
            added == !old(self)@.contains(pair(sender@, dest@)),
            is_normal(final(self)@),
    {
        let ghost wanted = pair(sender@, dest@);
        proof {
            use_type_invariant(&*self);
            self@.index_of_first_ensures(wanted);
        }
        match find_connection(&self.items, sender.as_str(), dest.as_str()) {
            Some(_) => false,
            None => {
                let mut kept = copy_connections(&self.items);
                insert_in_order(&mut kept, Connection::new(sender, dest));
                proof {
                    let before = views(self.items@);
                    before.lemma_push_to_set_commute(wanted);
                    lemma_normalized(before.push(wanted));
                    lemma_normal_unique(views(kept@), normalized(before.push(wanted)));
                }
                self.items = kept;
                true
            },
        }
    }

    /// Takes the connection from `sender` to `dest` out, and tells whether
    /// it was there.
    pub fn forget(&mut self, sender: &str, dest: &str) -> (removed: bool)
        ensures
            final(self)@ == old(self)@.remove_value(pair(sender@, dest@)),
            removed == old(self)@.contains(pair(sender@, dest@)),
            is_normal(final(self)@),
    {
        let ghost wanted = pair(sender@, dest@);
        proof {
            use_type_invariant(&*self);
            self@.index_of_first_ensures(wanted);
        }
        match find_connection(&self.items, sender, dest) {
            Some(i) => {
                let mut kept = copy_connections(&self.items);
                kept.remove(i);
                proof {
                    let before = views(self.items@);
                    assert(views(kept@) =~= before.remove(i as int));
                    lemma_remove_keeps_normal(before, i as int);
                }
                self.items = kept;
                true
            },
            None => false,
        }
    }
}

/// The connections to start with: none where no record exists yet, else the
/// records that were read, in normal form.
pub fn load_connections(file: Option<Vec<Connection>>) -> (connections: ConnectionSet)
    ensures
        connections@ == loaded(
            match file {
                Some(records) => Some(views(records@)),
                None => None,
            },
        ),
        is_normal(connections@),
{
    match file {
        Some(records) => {
            let mut items = records;
            store_connections(&mut items);
            ConnectionSet { items }
        },
        None => ConnectionSet::new(),
    }
}

} // verus!
