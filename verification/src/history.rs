use vstd::prelude::*;

use crate::desktop::{after_connect, after_disconnect, after_reader_stops};

verus! {

/// A change made to a client's table of connections.
pub enum TableOp<C> {
    /// A connection was recorded under `id` with `tag`.
    Connect { id: Seq<char>, endpoint: Seq<char>, tag: u64, handle: C },
    /// The connection under `id` was closed (or dropped to be replaced).
    Close { id: Seq<char> },
    /// The reading task of the connection recorded under `id` with `tag` ended.
    ReaderStops { id: Seq<char>, tag: u64 },
}

/// The tag that a change names (none for a close).
pub open spec fn op_tag<C>(op: TableOp<C>) -> u64 {
    match op {
        TableOp::Connect { tag, .. } => tag,
        TableOp::ReaderStops { tag, .. } => tag,
        TableOp::Close { .. } => 0,
    }
}

/// Whether the change records a connection under `id`.
pub open spec fn opens<C>(op: TableOp<C>, id: Seq<char>) -> bool {
    op matches TableOp::Connect { id: k, .. } && k == id
}

/// Whether the change ends the connection recorded under `id` with `tag`:
/// another connect or a close under that name, or the end of that
/// connection's own reading task.
pub open spec fn ends<C>(op: TableOp<C>, id: Seq<char>, tag: u64) -> bool {
    match op {
        TableOp::Connect { id: k, .. } => k == id,
        TableOp::Close { id: k } => k == id,
        TableOp::ReaderStops { id: k, tag: t } => k == id && t == tag,
    }
}

/// The table after one change.
pub open spec fn apply<C>(
    m: Map<Seq<char>, (Seq<char>, u64, C)>,
    op: TableOp<C>,
) -> Map<Seq<char>, (Seq<char>, u64, C)> {
    match op {
        TableOp::Connect { id, endpoint, tag, handle } => after_connect(m, id, endpoint, tag, handle),
        TableOp::Close { id } => after_disconnect(m, id),
        TableOp::ReaderStops { id, tag } => after_reader_stops(m, id, tag),
    }
}

/// The table that a sequence of changes leaves, starting from no connection.
pub open spec fn run<C>(ops: Seq<TableOp<C>>) -> Map<Seq<char>, (Seq<char>, u64, C)>
    decreases ops.len(),
{
    if ops.len() == 0 {
        Map::empty()
    } else {
        apply(run(ops.drop_last()), ops.last())
    }
}

/// Whether change `i` records a connection under `id` that no later change
/// has ended.
pub open spec fn is_live_at<C>(ops: Seq<TableOp<C>>, id: Seq<char>, i: int) -> bool {
    &&& 0 <= i < ops.len()
    &&& opens(ops[i], id)
    &&& forall|j: int| i < j < ops.len() ==> !ends(#[trigger] ops[j], id, op_tag(ops[i]))
}

/// Whether the last connect under `id` has been neither closed nor had its
/// reading task end.
pub open spec fn is_live<C>(ops: Seq<TableOp<C>>, id: Seq<char>) -> bool {
    exists|i: int| is_live_at(ops, id, i)
}

/// Every connect carries a larger tag than each connect before it, so no two
/// connections share a tag.
pub open spec fn tags_increasing<C>(ops: Seq<TableOp<C>>) -> bool {
    forall|i: int, j: int|
        0 <= i < j < ops.len() && (#[trigger] ops[i]) is Connect && (#[trigger] ops[j]) is Connect
            ==> op_tag(ops[i]) < op_tag(ops[j])
}

proof fn lemma_live_tracks_table<C>(ops: Seq<TableOp<C>>, id: Seq<char>)
    ensures
        run(ops).contains_key(id) <==> is_live(ops, id),
        forall|i: int| is_live_at(ops, id, i) ==> run(ops)[id].1 == op_tag(ops[i]),
    decreases ops.len(),
{
    if ops.len() == 0 {
        assert(run(ops) =~= Map::<Seq<char>, (Seq<char>, u64, C)>::empty());
    } else {
        let p = ops.drop_last();
        let o = ops.last();
        let n = ops.len() - 1;
        lemma_live_tracks_table(p, id);
        assert(run(ops) == apply(run(p), o));
        assert forall|i: int| 0 <= i < n implies ops[i] == p[i] by {}
        // a change that does not end a live connection of `p` keeps it live
        assert forall|i: int| is_live_at(p, id, i) && !ends(o, id, op_tag(p[i])) implies is_live_at(
            ops,
            id,
            i,
        ) by {
            assert forall|j: int| i < j < ops.len() implies !ends(#[trigger] ops[j], id, op_tag(ops[i])) by {
                if j < n {
                    assert(ops[j] == p[j]);
                }
            }
        }
        // a live connection of `ops` before the last change was live in `p`
        assert forall|i: int| is_live_at(ops, id, i) && i < n implies is_live_at(p, id, i) by {
            assert forall|j: int| i < j < p.len() implies !ends(#[trigger] p[j], id, op_tag(p[i])) by {
                assert(ops[j] == p[j]);
            }
        }
        match o {
            TableOp::Connect { id: k, endpoint, tag, handle } => {
                if k == id {
                    assert(is_live_at(ops, id, n));
                    assert forall|i: int| is_live_at(ops, id, i) implies run(ops)[id].1 == op_tag(
                        ops[i],
                    ) by {
                        if i < n {
                            assert(ends(ops[n], id, op_tag(ops[i])));
                        }
                    }
                } else {
                    if run(p).contains_key(id) {
                        let w = choose|i: int| is_live_at(p, id, i);
                        assert(is_live_at(ops, id, w));
                    }
                    if is_live(ops, id) {
                        let w = choose|i: int| is_live_at(ops, id, i);
                        assert(is_live_at(p, id, w));
                    }
                }
            },
            TableOp::Close { id: k } => {
                if k == id {
                    assert forall|i: int| !is_live_at(ops, id, i) by {
                        if is_live_at(ops, id, i) {
                            assert(i < n);
                            assert(ends(ops[n], id, op_tag(ops[i])));
                        }
                    }
                } else {
                    if run(p).contains_key(id) {
                        let w = choose|i: int| is_live_at(p, id, i);
                        assert(is_live_at(ops, id, w));
                    }
                    if is_live(ops, id) {
                        let w = choose|i: int| is_live_at(ops, id, i);
                        assert(is_live_at(p, id, w));
                    }
                }
            },
            TableOp::ReaderStops { id: k, tag: t } => {
                if k == id {
                    if run(p).contains_key(id) {
                        let w = choose|i: int| is_live_at(p, id, i);
                        if run(p)[id].1 == t {
                            assert forall|i: int| !is_live_at(ops, id, i) by {
                                if is_live_at(ops, id, i) {
                                    assert(is_live_at(p, id, i));
                                    assert(ends(ops[n], id, op_tag(ops[i])));
                                }
                            }
                        } else {
                            assert(is_live_at(ops, id, w));
                        }
                    } else {
                        assert forall|i: int| !is_live_at(ops, id, i) by {
                            if is_live_at(ops, id, i) {
                                assert(is_live_at(p, id, i));
                            }
                        }
                    }
                } else {
                    if run(p).contains_key(id) {
                        let w = choose|i: int| is_live_at(p, id, i);
                        assert(is_live_at(ops, id, w));
                    }
                    if is_live(ops, id) {
                        let w = choose|i: int| is_live_at(ops, id, i);
                        assert(is_live_at(p, id, w));
                    }
                }
            },
        }
    }
}

/// A name is in the table exactly while the last connect under it has been
/// neither closed, nor replaced, nor had its own reading task end; and the
/// tag recorded under it is that connect's tag.
pub proof fn law_listed_exactly_while_live<C>(ops: Seq<TableOp<C>>, id: Seq<char>)
    ensures
        run(ops).contains_key(id) <==> is_live(ops, id),
        forall|i: int| is_live_at(ops, id, i) ==> run(ops)[id].1 == op_tag(ops[i]),
{
    lemma_live_tracks_table(ops, id);
}

/// With increasing tags, the end of the reading task of an earlier
/// connection under a name never drops the connection recorded there since.
pub proof fn law_earlier_reader_never_drops_newer<C>(
    ops: Seq<TableOp<C>>,
    id: Seq<char>,
    newer: int,
    earlier: int,
)
    requires
        tags_increasing(ops),
        is_live_at(ops, id, newer),
        0 <= earlier < newer,
        opens(ops[earlier], id),
    ensures
        is_live_at(ops.push(TableOp::ReaderStops { id, tag: op_tag(ops[earlier]) }), id, newer),
        run(ops.push(TableOp::ReaderStops { id, tag: op_tag(ops[earlier]) })).contains_key(id),
{
    let later = ops.push(TableOp::ReaderStops { id, tag: op_tag(ops[earlier]) });
    assert(ops[earlier] is Connect && ops[newer] is Connect);
    assert(op_tag(ops[earlier]) < op_tag(ops[newer]));
    assert forall|j: int| newer < j < later.len() implies !ends(#[trigger] later[j], id, op_tag(later[newer])) by {
        if j < ops.len() {
            assert(later[j] == ops[j]);
        }
    }
    assert(later[newer] == ops[newer]);
    assert(is_live_at(later, id, newer));
    lemma_live_tracks_table(later, id);
}

} // verus!
