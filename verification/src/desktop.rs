use vstd::prelude::*;

use crate::error::Error;
use crate::history::{
    apply, is_live, law_listed_exactly_while_live, op_tag, run, tags_increasing, TableOp,
};
use crate::models::{EventPayload, EventType};

verus! {

/// One open connection: its name, the endpoint it reaches, the tag it was
/// recorded with, and the handle through which the caller drives it (its
/// reading task and its writer).
struct Connection<C> {
    id: String,
    endpoint: String,
    tag: u64,
    handle: C,
}

/// The list of open connections behind a client, with its model.
struct ConnectionList<C> {
    connections: Vec<Connection<C>>,
    table: Ghost<Map<Seq<char>, (Seq<char>, u64, C)>>,
}

impl<C> View for ConnectionList<C> {
    type V = Map<Seq<char>, (Seq<char>, u64, C)>;

    closed spec fn view(&self) -> Map<Seq<char>, (Seq<char>, u64, C)> {
        self.table@
    }
}

/// The table after the connection `id` to `endpoint`, recorded with `tag`
/// and `handle`, has been added: a connection already open under that name is
/// replaced.
pub open spec fn after_connect<C>(
    m: Map<Seq<char>, (Seq<char>, u64, C)>,
    id: Seq<char>,
    endpoint: Seq<char>,
    tag: u64,
    handle: C,
) -> Map<Seq<char>, (Seq<char>, u64, C)> {
    m.insert(id, (endpoint, tag, handle))
}

/// The table after the connection `id` has been dropped from it.
pub open spec fn after_disconnect<C>(
    m: Map<Seq<char>, (Seq<char>, u64, C)>,
    id: Seq<char>,
) -> Map<Seq<char>, (Seq<char>, u64, C)> {
    m.remove(id)
}

/// Whether the connection named `id` is open and was recorded with `tag`.
pub open spec fn is_recorded_with<C>(m: Map<Seq<char>, (Seq<char>, u64, C)>, id: Seq<char>, tag: u64) -> bool {
    m.contains_key(id) && m[id].1 == tag
}

/// The table after the reading task of the connection recorded with `tag`
/// under `id` has stopped: that connection is dropped, and a connection
/// recorded under the same name with another tag stays.
pub open spec fn after_reader_stops<C>(
    m: Map<Seq<char>, (Seq<char>, u64, C)>,
    id: Seq<char>,
    tag: u64,
) -> Map<Seq<char>, (Seq<char>, u64, C)> {
    if is_recorded_with(m, id, tag) {
        m.remove(id)
    } else {
        m
    }
}

/// The event that reports a newly established connection.
pub open spec fn is_connect_event(event: EventPayload, id: String, endpoint: String) -> bool {
    &&& event.id == id
    &&& event.event matches EventType::Connect { endpoint: ep } && ep == endpoint
}

impl<C> ConnectionList<C> {
    /// Every name occurs once in the list, and the list and the model hold
    /// the same connections.
    spec fn well_formed(&self) -> bool {
        &&& forall|i: int, j: int|
            0 <= i < j < self.connections@.len() ==> #[trigger] self.connections@[i].id@
                != #[trigger] self.connections@[j].id@
        &&& forall|i: int|
            0 <= i < self.connections@.len() ==> {
                let c = #[trigger] self.connections@[i];
                &&& self.table@.contains_key(c.id@)
                &&& self.table@[c.id@] == (c.endpoint@, c.tag, c.handle)
            }
        &&& forall|k: Seq<char>|
            #[trigger] self.table@.contains_key(k) ==> exists|i: int|
                0 <= i < self.connections@.len() && #[trigger] self.connections@[i].id@ == k
    }

    /// A table with no connection.
    fn new() -> (t: Self)
        ensures
            t.well_formed(),
            t@ == Map::<Seq<char>, (Seq<char>, u64, C)>::empty(),
    {
        ConnectionList { connections: Vec::new(), table: Ghost(Map::empty()) }
    }

    /// The position of the connection named `id` in the list, if there is one.
    fn position(&self, id: &String) -> (r: Option<usize>)
        requires
            self.well_formed(),
        ensures
            r is Some <==> self@.contains_key(id@),
            r matches Some(i) ==> i < self.connections@.len() && self.connections@[i as int].id@
                == id@,
    {
        let mut i: usize = 0;
        while i < self.connections.len()
            invariant
                self.well_formed(),
                i <= self.connections@.len(),
                forall|j: int| 0 <= j < i ==> self.connections@[j].id@ != id@,
            decreases self.connections@.len() - i,
        {
            if self.connections[i].id == *id {
                return Some(i);
            }
            i = i + 1;
        }
        proof {
            if self@.contains_key(id@) {
                let j = choose|j: int|
                    0 <= j < self.connections@.len() && #[trigger] self.connections@[j].id@
                        == id@;
                assert(self.connections@[j].id@ != id@);
            }
        }
        None
    }

    /// Whether a connection is open under the name `id`.
    fn is_connected(&self, id: String) -> (r: bool)
        requires
            self.well_formed(),
        ensures
            r == self@.contains_key(id@),
    {
        self.position(&id).is_some()
    }

    /// Takes the connection at position `i` out of the list and the model.
    fn take_at(&mut self, i: usize) -> (c: Connection<C>)
        requires
            old(self).well_formed(),
            i < old(self).connections@.len(),
        ensures
            final(self).well_formed(),
            c == old(self).connections@[i as int],
            old(self)@.contains_key(c.id@),
            old(self)@[c.id@] == (c.endpoint@, c.tag, c.handle),
            final(self)@ == old(self)@.remove(c.id@),
    {
        let ghost before = self.connections@;
        let c = self.connections.remove(i);
        proof {
            self.table@ = self.table@.remove(c.id@);
            assert(self.connections@ == before.remove(i as int));
            assert forall|k: Seq<char>| #[trigger] self.table@.contains_key(k) implies exists|j: int|
                0 <= j < self.connections@.len() && #[trigger] self.connections@[j].id@ == k by {
                let j0 = choose|j: int| 0 <= j < before.len() && #[trigger] before[j].id@ == k;
                assert(j0 != i);
                if j0 < i {
                    assert(self.connections@[j0].id@ == k);
                } else {
                    assert(self.connections@[j0 - 1].id@ == k);
                }
            }
            assert forall|a: int, b: int|
                0 <= a < b < self.connections@.len() implies #[trigger] self.connections@[a].id@
                != #[trigger] self.connections@[b].id@ by {
                let a0 = if a < i { a } else { a + 1 };
                let b0 = if b < i { b } else { b + 1 };
                assert(before[a0].id@ != before[b0].id@);
            }
            assert forall|j: int| 0 <= j < self.connections@.len() implies {
                let d = #[trigger] self.connections@[j];
                &&& self.table@.contains_key(d.id@)
                &&& self.table@[d.id@] == (d.endpoint@, d.tag, d.handle)
            } by {
                let j0 = if j < i { j } else { j + 1 };
                assert(before[j0].id@ != before[i as int].id@);
            }
        }
        c
    }

    /// Drops the connection named `id` from the table, if there is one, and
    /// hands back its handle so that the caller can stop it.
    fn remove(&mut self, id: &String) -> (r: Option<C>)
        requires
            old(self).well_formed(),
        ensures
            final(self).well_formed(),
            final(self)@ == after_disconnect(old(self)@, id@),
            r is Some <==> old(self)@.contains_key(id@),
            r matches Some(h) ==> h == old(self)@[id@].2,
    {
        match self.position(id) {
            Some(i) => {
                let c = self.take_at(i);
                Some(c.handle)
            },
            None => {
                proof {
                    assert(self.table@.remove(id@) =~= self.table@);
                }
                None
            },
        }
    }

    /// Drops the connection named `id` only if it was recorded with `tag`.
    fn remove_tagged(&mut self, id: &String, tag: u64) -> (r: Option<C>)
        requires
            old(self).well_formed(),
        ensures
            final(self).well_formed(),
            final(self)@ == after_reader_stops(old(self)@, id@, tag),
            r is Some <==> is_recorded_with(old(self)@, id@, tag),
            r matches Some(h) ==> h == old(self)@[id@].2,
    {
        match self.position(id) {
            Some(i) => {
                if self.connections[i].tag == tag {
                    let c = self.take_at(i);
                    Some(c.handle)
                } else {
                    None
                }
            },
            None => None,
        }
    }

    /// Records the established connection `id` to `endpoint`, replacing any
    /// connection already open under that name, whose handle is handed back.
    fn connect(&mut self, id: String, endpoint: String, tag: u64, handle: C) -> (replaced: Option<C>)
        requires
            old(self).well_formed(),
        ensures
            final(self).well_formed(),
            final(self)@ == after_connect(old(self)@, id@, endpoint@, tag, handle),
            replaced is Some <==> old(self)@.contains_key(id@),
            replaced matches Some(h) ==> h == old(self)@[id@].2,
    {
        let replaced = self.remove(&id);
        let ghost before = self.connections@;
        self.connections.push(Connection { id, endpoint, tag, handle });
        proof {
            let c = self.connections@.last();
            self.table@ = self.table@.insert(c.id@, (c.endpoint@, c.tag, c.handle));
            assert(self.connections@ == before.push(c));
            assert forall|k: Seq<char>| #[trigger] self.table@.contains_key(k) implies exists|j: int|
                0 <= j < self.connections@.len() && #[trigger] self.connections@[j].id@ == k by {
                if k != c.id@ {
                    let j0 = choose|j: int| 0 <= j < before.len() && #[trigger] before[j].id@ == k;
                    assert(self.connections@[j0].id@ == k);
                } else {
                    assert(self.connections@[before.len() as int].id@ == k);
                }
            }
            assert forall|a: int, b: int|
                0 <= a < b < self.connections@.len() implies #[trigger] self.connections@[a].id@
                != #[trigger] self.connections@[b].id@ by {
                if b == before.len() {
                    assert(before[a].id@ != c.id@);
                } else {
                    assert(before[a].id@ != before[b].id@);
                }
            }
            assert forall|j: int| 0 <= j < self.connections@.len() implies {
                let d = #[trigger] self.connections@[j];
                &&& self.table@.contains_key(d.id@)
                &&& self.table@[d.id@] == (d.endpoint@, d.tag, d.handle)
            } by {
                if j < before.len() {
                    assert(before[j].id@ != c.id@);
                }
            }
        }
        replaced
    }

    /// Closes the connection named `id`: it leaves the table and its handle is
    /// handed back so that the caller can stop it. Without such a connection
    /// the table stays as it is and the error names `id`.
    fn disconnect(&mut self, id: String) -> (r: Result<C, Error>)
        requires
            old(self).well_formed(),
        ensures
            final(self).well_formed(),
            final(self)@ == after_disconnect(old(self)@, id@),
            match r {
                Ok(h) => old(self)@.contains_key(id@) && h == old(self)@[id@].2,
                Err(e) => !old(self)@.contains_key(id@) && e == Error::ConnectionNotFound(id),
            },
    {
        match self.remove(&id) {
            Some(h) => Ok(h),
            None => Err(Error::ConnectionNotFound(id)),
        }
    }

    /// The handle through which data is written to the connection named `id`,
    /// or, without such a connection, the error that names `id`.
    fn send(&self, id: String) -> (r: Result<&C, Error>)
        requires
            self.well_formed(),
        ensures
            match r {
                Ok(h) => self@.contains_key(id@) && *h == self@[id@].2,
                Err(e) => !self@.contains_key(id@) && e == Error::ConnectionNotFound(id),
            },
    {
        match self.position(&id) {
            Some(i) => Ok(&self.connections[i].handle),
            None => Err(Error::ConnectionNotFound(id)),
        }
    }

    /// The names of all open connections, each once.
    fn get_connections(&self) -> (r: Vec<String>)
        requires
            self.well_formed(),
        ensures
            forall|i: int| 0 <= i < r@.len() ==> self@.contains_key(#[trigger] r@[i]@),
            forall|k: Seq<char>| #[trigger] self@.contains_key(k) ==> exists|i: int|
                0 <= i < r@.len() && #[trigger] r@[i]@ == k,
            forall|i: int, j: int| 0 <= i < j < r@.len() ==> #[trigger] r@[i]@ != #[trigger] r@[j]@,
    {
        let mut r: Vec<String> = Vec::new();
        let mut i: usize = 0;
        while i < self.connections.len()
            invariant
                self.well_formed(),
                i <= self.connections@.len(),
                r@.len() == i,
                forall|j: int| 0 <= j < i ==> #[trigger] r@[j]@ == self.connections@[j].id@,
            decreases self.connections@.len() - i,
        {
            r.push(self.connections[i].id.clone());
            i = i + 1;
        }
        proof {
            assert forall|k: Seq<char>| #[trigger] self@.contains_key(k) implies exists|j: int|
                0 <= j < r@.len() && #[trigger] r@[j]@ == k by {
                let j0 = choose|j: int|
                    0 <= j < self.connections@.len() && #[trigger] self.connections@[j].id@ == k;
                assert(r@[j0]@ == k);
            }
            assert forall|a: int, b: int| 0 <= a < b < r@.len() implies #[trigger] r@[a]@
                != #[trigger] r@[b]@ by {
                assert(self.connections@[a].id@ != self.connections@[b].id@);
            }
            assert forall|a: int| 0 <= a < r@.len() implies self@.contains_key(#[trigger] r@[a]@) by {
                let c = self.connections@[a];
                assert(self.table@.contains_key(c.id@));
            }
        }
        r
    }
}


/// Everything a client keeps about its connections: the list, the next tag
/// to hand out, the tag of the latest connect, and the changes made so far.
struct TableState<C> {
    list: ConnectionList<C>,
    next_tag: u64,
    last_tag: Option<u64>,
    ops: Ghost<Seq<TableOp<C>>>,
}

impl<C> TableState<C> {
    /// The list is well formed and is what the changes made so far leave;
    /// connects carry increasing tags, all below the next tag to hand out;
    /// `last_tag` is the largest of them.
    spec fn inv(&self) -> bool {
        &&& self.list.well_formed()
        &&& self.list@ == run(self.ops@)
        &&& tags_increasing(self.ops@)
        &&& forall|i: int|
            0 <= i < self.ops@.len() && (#[trigger] self.ops@[i]) is Connect ==> op_tag(self.ops@[i])
                < self.next_tag
        &&& match self.last_tag {
            None => forall|i: int| 0 <= i < self.ops@.len() ==> !((#[trigger] self.ops@[i]) is Connect),
            Some(l) => {
                &&& forall|i: int|
                    0 <= i < self.ops@.len() && (#[trigger] self.ops@[i]) is Connect ==> op_tag(
                        self.ops@[i],
                    ) <= l
                &&& exists|i: int|
                    0 <= i < self.ops@.len() && (#[trigger] self.ops@[i]) is Connect && op_tag(
                        self.ops@[i],
                    ) == l
            },
        }
    }

    spec fn fresh(&self, tag: u64) -> bool {
        &&& tag < self.next_tag
        &&& forall|i: int|
            0 <= i < self.ops@.len() && (#[trigger] self.ops@[i]) is Connect ==> op_tag(self.ops@[i])
                < tag
    }

    fn new() -> (t: Self)
        ensures
            t.inv(),
            t.ops@ == Seq::<TableOp<C>>::empty(),
            t.next_tag == 0,
    {
        let t = TableState {
            list: ConnectionList::new(),
            next_tag: 0,
            last_tag: None,
            ops: Ghost(Seq::empty()),
        };
        assert(run(t.ops@) =~= Map::<Seq<char>, (Seq<char>, u64, C)>::empty());
        t
    }

    /// Adds one change to the history: the list already reflects it.
    proof fn lemma_push(ops: Seq<TableOp<C>>, op: TableOp<C>)
        ensures
            run(ops.push(op)) == apply(run(ops), op),
            forall|i: int| 0 <= i < ops.len() ==> ops.push(op)[i] == ops[i],
    {
        assert(ops.push(op).drop_last() =~= ops);
    }

    fn is_fresh(&self, tag: u64) -> (r: bool)
        requires
            self.inv(),
        ensures
            r == self.fresh(tag),
    {
        let r = tag < self.next_tag && match self.last_tag {
            None => true,
            Some(l) => l < tag,
        };
        proof {
            if let Some(l) = self.last_tag {
                if l >= tag {
                    let w = choose|i: int|
                        0 <= i < self.ops@.len() && (#[trigger] self.ops@[i]) is Connect && op_tag(
                            self.ops@[i],
                        ) == l;
                    assert(!(op_tag(self.ops@[w]) < tag));
                }
            }
        }
        r
    }

    fn reserve_tag(&mut self) -> (r: Option<u64>)
        requires
            old(self).inv(),
        ensures
            final(self).inv(),
            final(self).list@ == old(self).list@,
            final(self).ops@ == old(self).ops@,
            match r {
                Some(t) => t == old(self).next_tag && final(self).next_tag == t + 1
                    && final(self).fresh(t),
                None => old(self).next_tag == u64::MAX && final(self).next_tag == u64::MAX,
            },
    {
        if self.next_tag == u64::MAX {
            None
        } else {
            let t = self.next_tag;
            self.next_tag = t + 1;
            Some(t)
        }
    }

    /// Records a change that is not a connect.
    proof fn lemma_non_connect(
        old_ops: Seq<TableOp<C>>,
        op: TableOp<C>,
        next_tag: u64,
    )
        requires
            !(op is Connect),
            tags_increasing(old_ops),
            forall|i: int|
                0 <= i < old_ops.len() && (#[trigger] old_ops[i]) is Connect ==> op_tag(old_ops[i])
                    < next_tag,
        ensures
            tags_increasing(old_ops.push(op)),
            forall|i: int|
                0 <= i < old_ops.push(op).len() && (#[trigger] old_ops.push(op)[i]) is Connect
                    ==> op_tag(old_ops.push(op)[i]) < next_tag,
            forall|i: int|
                0 <= i < old_ops.push(op).len() ==> (#[trigger] old_ops.push(op)[i]) is Connect
                    == (i < old_ops.len() && old_ops[i] is Connect),
            forall|i: int| 0 <= i < old_ops.len() ==> old_ops.push(op)[i] == old_ops[i],
    {
        Self::lemma_push(old_ops, op);
    }

    fn remove(&mut self, id: &String) -> (r: Option<C>)
        requires
            old(self).inv(),
        ensures
            final(self).inv(),
            final(self).list@ == after_disconnect(old(self).list@, id@),
            final(self).ops@ == old(self).ops@.push(TableOp::Close { id: id@ }),
            final(self).next_tag == old(self).next_tag,
            r is Some <==> old(self).list@.contains_key(id@),
            r matches Some(h) ==> h == old(self).list@[id@].2,
    {
        let r = self.list.remove(id);
        let ghost op = TableOp::Close { id: id@ };
        proof {
            Self::lemma_push(self.ops@, op);
            Self::lemma_non_connect(self.ops@, op, self.next_tag);
            if let Some(l) = self.last_tag {
                let w = choose|i: int|
                    0 <= i < self.ops@.len() && (#[trigger] self.ops@[i]) is Connect && op_tag(
                        self.ops@[i],
                    ) == l;
                assert(self.ops@.push(op)[w] == self.ops@[w]);
            }
            self.ops@ = self.ops@.push(op);
        }
        r
    }

    fn remove_tagged(&mut self, id: &String, tag: u64) -> (r: Option<C>)
        requires
            old(self).inv(),
        ensures
            final(self).inv(),
            final(self).list@ == after_reader_stops(old(self).list@, id@, tag),
            final(self).ops@ == old(self).ops@.push(TableOp::ReaderStops { id: id@, tag }),
            final(self).next_tag == old(self).next_tag,
            r is Some <==> is_recorded_with(old(self).list@, id@, tag),
            r matches Some(h) ==> h == old(self).list@[id@].2,
    {
        let r = self.list.remove_tagged(id, tag);
        let ghost op = TableOp::ReaderStops { id: id@, tag };
        proof {
            Self::lemma_push(self.ops@, op);
            Self::lemma_non_connect(self.ops@, op, self.next_tag);
            if let Some(l) = self.last_tag {
                let w = choose|i: int|
                    0 <= i < self.ops@.len() && (#[trigger] self.ops@[i]) is Connect && op_tag(
                        self.ops@[i],
                    ) == l;
                assert(self.ops@.push(op)[w] == self.ops@[w]);
            }
            self.ops@ = self.ops@.push(op);
        }
        r
    }

    fn connect(&mut self, id: String, endpoint: String, tag: u64, handle: C) -> (replaced: Option<C>)
        requires
            old(self).inv(),
            old(self).fresh(tag),
        ensures
            final(self).inv(),
            final(self).list@ == after_connect(old(self).list@, id@, endpoint@, tag, handle),
            final(self).ops@ == old(self).ops@.push(
                TableOp::Connect { id: id@, endpoint: endpoint@, tag, handle },
            ),
            final(self).next_tag == old(self).next_tag,
            replaced is Some <==> old(self).list@.contains_key(id@),
            replaced matches Some(h) ==> h == old(self).list@[id@].2,
    {
        let ghost op = TableOp::Connect { id: id@, endpoint: endpoint@, tag, handle };
        let ghost old_ops = self.ops@;
        let r = self.list.connect(id, endpoint, tag, handle);
        self.last_tag = Some(tag);
        proof {
            Self::lemma_push(old_ops, op);
            let ops = old_ops.push(op);
            assert(ops[old_ops.len() as int] == op);
            assert forall|i: int, j: int|
                0 <= i < j < ops.len() && (#[trigger] ops[i]) is Connect && (#[trigger] ops[j]) is Connect
                    implies op_tag(ops[i]) < op_tag(ops[j]) by {
                if j < old_ops.len() {
                    assert(ops[i] == old_ops[i] && ops[j] == old_ops[j]);
                } else {
                    assert(ops[i] == old_ops[i]);
                }
            }
            assert forall|i: int| 0 <= i < ops.len() && (#[trigger] ops[i]) is Connect implies op_tag(
                ops[i],
            ) <= tag by {
                if i < old_ops.len() {
                    assert(ops[i] == old_ops[i]);
                }
            }
            assert forall|i: int| 0 <= i < ops.len() && (#[trigger] ops[i]) is Connect implies op_tag(
                ops[i],
            ) < self.next_tag by {
                if i < old_ops.len() {
                    assert(ops[i] == old_ops[i]);
                }
            }
            assert(ops[old_ops.len() as int] is Connect && op_tag(ops[old_ops.len() as int]) == tag);
            self.ops@ = ops;
        }
        r
    }
}

/// The table of open connections of a client, at most one under each name.
///
/// Its model maps each name to the endpoint, the tag and the handle of the
/// connection open under it. The client also keeps the changes made to the
/// table: the model is always what these changes leave. Each connection is
/// recorded with a tag larger than any recorded before, so that the reading
/// task of a connection can drop that connection and no later one under the
/// same name.
pub struct Tcpclient<C> {
    state: TableState<C>,
}

impl<C> View for Tcpclient<C> {
    type V = Map<Seq<char>, (Seq<char>, u64, C)>;

    closed spec fn view(&self) -> Map<Seq<char>, (Seq<char>, u64, C)> {
        self.state.list@
    }
}

impl<C> Tcpclient<C> {
    #[verifier::type_invariant]
    spec fn inv(&self) -> bool {
        self.state.inv()
    }

    /// The tag that the next reservation hands out.
    pub closed spec fn next_tag(&self) -> u64 {
        self.state.next_tag
    }

    /// The changes made to the table so far, oldest first.
    pub closed spec fn ops(&self) -> Seq<TableOp<C>> {
        self.state.ops@
    }

    /// Whether `tag` may be used for the next connect: it has been handed
    /// out, and it is larger than every tag recorded so far.
    pub open spec fn tag_is_fresh(&self, tag: u64) -> bool {
        &&& tag < self.next_tag()
        &&& forall|i: int|
            0 <= i < self.ops().len() && (#[trigger] self.ops()[i]) is Connect ==> op_tag(
                self.ops()[i],
            ) < tag
    }

    /// The table is what its changes leave, and its connects carry
    /// increasing tags.
    pub open spec fn follows_history(&self) -> bool {
        &&& self@ == run(self.ops())
        &&& tags_increasing(self.ops())
    }

    /// A table with no connection.
    pub fn new() -> (t: Self)
        ensures
            t@ == Map::<Seq<char>, (Seq<char>, u64, C)>::empty(),
            t.ops() == Seq::<TableOp<C>>::empty(),
            t.next_tag() == 0,
            t.follows_history(),
    {
        Tcpclient { state: TableState::new() }
    }

    /// Hands out a tag for a new connection: each tag once, counting up, and
    /// none once every tag has been handed out. A tag handed out is fresh.
    pub fn reserve_tag(&mut self) -> (r: Option<u64>)
        ensures
            final(self)@ == old(self)@,
            final(self).ops() == old(self).ops(),
            final(self).follows_history(),
            match r {
                Some(t) => t == old(self).next_tag() && final(self).next_tag() == t + 1
                    && final(self).tag_is_fresh(t),
                None => old(self).next_tag() == u64::MAX && final(self).next_tag() == u64::MAX,
            },
    {
        proof {
            use_type_invariant(&*self);
        }
        let mut state = TableState::new();
        std::mem::swap(&mut state, &mut self.state);
        let r = state.reserve_tag();
        self.state = state;
        r
    }

    /// Whether `tag` may be used for the next connect.
    pub fn is_fresh_tag(&self, tag: u64) -> (r: bool)
        ensures
            r == self.tag_is_fresh(tag),
    {
        proof {
            use_type_invariant(self);
        }
        self.state.is_fresh(tag)
    }

    /// Whether a connection is open under the name `id`.
    pub fn is_connected(&self, id: String) -> (r: bool)
        ensures
            r == self@.contains_key(id@),
    {
        proof {
            use_type_invariant(self);
        }
        self.state.list.is_connected(id)
    }

    /// Drops the connection named `id` from the table, if there is one, and
    /// hands back its handle so that the caller can stop it.
    pub fn remove(&mut self, id: &String) -> (r: Option<C>)
        ensures
            final(self)@ == after_disconnect(old(self)@, id@),
            final(self).ops() == old(self).ops().push(TableOp::Close { id: id@ }),
            final(self).next_tag() == old(self).next_tag(),
            final(self).follows_history(),
            r is Some <==> old(self)@.contains_key(id@),
            r matches Some(h) ==> h == old(self)@[id@].2,
    {
        proof {
            use_type_invariant(&*self);
        }
        let mut state = TableState::new();
        std::mem::swap(&mut state, &mut self.state);
        let r = state.remove(id);
        self.state = state;
        r
    }

    /// What the reading task of the connection recorded with `tag` under `id`
    /// does when it stops: that connection is dropped and its handle handed
    /// back; a connection recorded under that name since, with another tag,
    /// stays open.
    pub fn remove_tagged(&mut self, id: &String, tag: u64) -> (r: Option<C>)
        ensures
            final(self)@ == after_reader_stops(old(self)@, id@, tag),
            final(self).ops() == old(self).ops().push(TableOp::ReaderStops { id: id@, tag }),
            final(self).next_tag() == old(self).next_tag(),
            final(self).follows_history(),
            r is Some <==> is_recorded_with(old(self)@, id@, tag),
            r matches Some(h) ==> h == old(self)@[id@].2,
    {
        proof {
            use_type_invariant(&*self);
        }
        let mut state = TableState::new();
        std::mem::swap(&mut state, &mut self.state);
        let r = state.remove_tagged(id, tag);
        self.state = state;
        r
    }

    /// Records the established connection `id` to `endpoint` with the fresh
    /// `tag`, replacing any connection already open under that name, whose
    /// handle is handed back.
    pub fn connect(&mut self, id: String, endpoint: String, tag: u64, handle: C) -> (replaced:
        Option<C>)
        requires
            old(self).tag_is_fresh(tag),
        ensures
            final(self)@ == after_connect(old(self)@, id@, endpoint@, tag, handle),
            final(self).ops() == old(self).ops().push(
                TableOp::Connect { id: id@, endpoint: endpoint@, tag, handle },
            ),
            final(self).next_tag() == old(self).next_tag(),
            final(self).follows_history(),
            replaced is Some <==> old(self)@.contains_key(id@),
            replaced matches Some(h) ==> h == old(self)@[id@].2,
    {
        proof {
            use_type_invariant(&*self);
        }
        let mut state = TableState::new();
        std::mem::swap(&mut state, &mut self.state);
        let r = state.connect(id, endpoint, tag, handle);
        self.state = state;
        r
    }

    /// Closes the connection named `id`: it leaves the table and its handle is
    /// handed back so that the caller can stop it. Without such a connection
    /// the table stays as it is and the error names `id`.
    pub fn disconnect(&mut self, id: String) -> (r: Result<C, Error>)
        ensures
            final(self)@ == after_disconnect(old(self)@, id@),
            final(self).ops() == old(self).ops().push(TableOp::Close { id: id@ }),
            final(self).next_tag() == old(self).next_tag(),
            final(self).follows_history(),
            match r {
                Ok(h) => old(self)@.contains_key(id@) && h == old(self)@[id@].2,
                Err(e) => !old(self)@.contains_key(id@) && e == Error::ConnectionNotFound(id),
            },
    {
        match self.remove(&id) {
            Some(h) => Ok(h),
            None => Err(Error::ConnectionNotFound(id)),
        }
    }

    /// The handle through which data is written to the connection named `id`,
    /// or, without such a connection, the error that names `id`.
    pub fn send(&self, id: String) -> (r: Result<&C, Error>)
        ensures
            match r {
                Ok(h) => self@.contains_key(id@) && *h == self@[id@].2,
                Err(e) => !self@.contains_key(id@) && e == Error::ConnectionNotFound(id),
            },
    {
        proof {
            use_type_invariant(self);
        }
        self.state.list.send(id)
    }

    /// The names of all open connections, each once: exactly the names whose
    /// last connect has been neither closed, nor replaced, nor had its
    /// reading task end.
    pub fn get_connections(&self) -> (r: Vec<String>)
        ensures
            forall|i: int| 0 <= i < r@.len() ==> self@.contains_key(#[trigger] r@[i]@),
            forall|k: Seq<char>| #[trigger] self@.contains_key(k) ==> exists|i: int|
                0 <= i < r@.len() && #[trigger] r@[i]@ == k,
            forall|i: int, j: int| 0 <= i < j < r@.len() ==> #[trigger] r@[i]@ != #[trigger] r@[j]@,
            forall|k: Seq<char>| #[trigger] self@.contains_key(k) <==> is_live(self.ops(), k),
    {
        proof {
            use_type_invariant(self);
            assert forall|k: Seq<char>| #[trigger] self@.contains_key(k) <==> is_live(self.ops(), k) by {
                law_listed_exactly_while_live(self.ops(), k);
            }
        }
        self.state.list.get_connections()
    }
}

/// The name under which events are sent to the front end.
pub const EVENT_NAME: &'static str = "plugin://tcpclient";

/// How long, in milliseconds, a new connection waits after the connection it
/// replaces has been stopped.
pub const REPLACE_SETTLE_MILLIS: u64 = 100;

/// The client's starting state: no connection is open.
pub fn init<C>() -> (r: Result<Tcpclient<C>, Error>)
    ensures
        r matches Ok(t) && t@ == Map::<Seq<char>, (Seq<char>, u64, C)>::empty() && t.next_tag() == 0
            && t.ops() == Seq::<TableOp<C>>::empty(),
{
    Ok(Tcpclient::new())
}

/// The event that reports that the connection `id` to `endpoint` has been
/// established.
pub fn connect_event(id: &String, endpoint: &String) -> (event: EventPayload)
    ensures
        is_connect_event(event, *id, *endpoint),
{
    EventPayload { id: id.clone(), event: EventType::Connect { endpoint: endpoint.clone() } }
}

/// Which of the two addresses of a bound connection is being resolved.
#[derive(Debug, Clone, Copy, PartialEq, Eq, Structural)]
pub enum AddressRole {
    /// The local address to bind to.
    Local,
    /// The remote endpoint to connect to.
    Remote,
}

/// The message of the error given when an address resolves to nothing.
pub open spec fn unresolved_message(role: AddressRole) -> Seq<char> {
    match role {
        AddressRole::Local => "Invalid local address"@,
        AddressRole::Remote => "Invalid endpoint"@,
    }
}

/// Takes the first address that resolution produced, or fails with the
/// connection error that says which address could not be resolved.
pub fn first_address<A>(first: Option<A>, role: AddressRole) -> (r: Result<A, Error>)
    ensures
        match first {
            Some(a) => r == Ok::<A, Error>(a),
            None => r matches Err(Error::ConnectionError(m)) && m@ == unresolved_message(role),
        },
{
    match first {
        Some(a) => Ok(a),
        None => {
            let message = match role {
                AddressRole::Local => "Invalid local address".to_string(),
                AddressRole::Remote => "Invalid endpoint".to_string(),
            };
            Err(Error::ConnectionError(message))
        },
    }
}

/// Recording a connection and then closing it under the same name leaves
/// the table as closing alone would, and the close finds the recorded
/// connection.
pub proof fn law_connect_then_disconnect<C>(
    m: Map<Seq<char>, (Seq<char>, u64, C)>,
    id: Seq<char>,
    endpoint: Seq<char>,
    tag: u64,
    handle: C,
)
    ensures
        after_connect(m, id, endpoint, tag, handle).contains_key(id),
        after_connect(m, id, endpoint, tag, handle)[id] == (endpoint, tag, handle),
        after_disconnect(after_connect(m, id, endpoint, tag, handle), id) == after_disconnect(m, id),
{
    assert(after_disconnect(after_connect(m, id, endpoint, tag, handle), id) =~= after_disconnect(
        m,
        id,
    ));
}

/// After a close, no connection is open under that name, so closing or
/// writing under it again fails.
pub proof fn law_disconnect_leaves_no_connection<C>(
    m: Map<Seq<char>, (Seq<char>, u64, C)>,
    id: Seq<char>,
)
    ensures
        !after_disconnect(m, id).contains_key(id),
        after_disconnect(after_disconnect(m, id), id) == after_disconnect(m, id),
{
    assert(after_disconnect(after_disconnect(m, id), id) =~= after_disconnect(m, id));
}

/// Connecting again under a name replaces the earlier connection: only the
/// latest one is kept.
pub proof fn law_reconnect_replaces<C>(
    m: Map<Seq<char>, (Seq<char>, u64, C)>,
    id: Seq<char>,
    first_endpoint: Seq<char>,
    first_tag: u64,
    first_handle: C,
    endpoint: Seq<char>,
    tag: u64,
    handle: C,
)
    ensures
        after_connect(
            after_connect(m, id, first_endpoint, first_tag, first_handle),
            id,
            endpoint,
            tag,
            handle,
        ) == after_connect(m, id, endpoint, tag, handle),
{
    assert(after_connect(
        after_connect(m, id, first_endpoint, first_tag, first_handle),
        id,
        endpoint,
        tag,
        handle,
    ) =~= after_connect(m, id, endpoint, tag, handle));
}

/// Connecting, closing, or a reading task stopping under one name leaves the
/// connections under every other name as they were.
pub proof fn law_other_names_untouched<C>(
    m: Map<Seq<char>, (Seq<char>, u64, C)>,
    id: Seq<char>,
    endpoint: Seq<char>,
    tag: u64,
    handle: C,
    other: Seq<char>,
)
    requires
        other != id,
    ensures
        after_connect(m, id, endpoint, tag, handle).contains_key(other) == m.contains_key(other),
        after_disconnect(m, id).contains_key(other) == m.contains_key(other),
        after_reader_stops(m, id, tag).contains_key(other) == m.contains_key(other),
        m.contains_key(other) ==> after_connect(m, id, endpoint, tag, handle)[other] == m[other],
        m.contains_key(other) ==> after_disconnect(m, id)[other] == m[other],
        m.contains_key(other) ==> after_reader_stops(m, id, tag)[other] == m[other],
{
}

/// The reading task of a connection drops that connection when it stops; once
/// the connection has been replaced under its name by one with another tag,
/// the old task's stop leaves the new connection open.
pub proof fn law_reader_stops_only_its_own<C>(
    m: Map<Seq<char>, (Seq<char>, u64, C)>,
    id: Seq<char>,
    endpoint: Seq<char>,
    tag: u64,
    handle: C,
    stale_tag: u64,
)
    requires
        stale_tag != tag,
    ensures
        !after_reader_stops(after_connect(m, id, endpoint, tag, handle), id, tag).contains_key(id),
        after_reader_stops(after_connect(m, id, endpoint, tag, handle), id, stale_tag)
            == after_connect(m, id, endpoint, tag, handle),
{
}

} // verus!
