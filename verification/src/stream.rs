//! Whole streams: every block of an archive, every node, every group, as the
//! pulls of a reader give them one after the other.

use crate::error::{CarError, ErrorModel};
use crate::frame::{lemma_node_uses_input, NodeReader, Outcome, Read, ReaderModel};
use crate::group::{fill, has_cid, lemma_fill_failure_is_terminal, Fill, GroupModel, Nodes};
use crate::node::{decode_raw, Kind, NodeWithCid, RawNode};
use vstd::prelude::*;

verus! {

/// Identifier and payload of each block of a stream.
pub type RawModel = Seq<(Seq<u8>, Seq<u8>)>;

/// The blocks that a reader in state `m` gives from now on, and the failure
/// that ends them, if one does. The stream also stops where the reader
/// needs input.
pub open spec fn raw_stream(m: ReaderModel) -> (RawModel, Option<ErrorModel>)
    decreases m.pending.len(),
{
    match m.step() {
        (Outcome::Node { cid, payload, offset }, after) => {
            proof {
                lemma_node_uses_input(m);
            }
            let rest = raw_stream(after);
            (seq![(cid, payload)] + rest.0, rest.1)
        },
        (Outcome::Fail { kind, offset }, after) => (
            Seq::empty(),
            Some(ErrorModel { kind, offset: Some(offset), cid: None }),
        ),
        _ => (Seq::empty(), None),
    }
}

/// The state of a reader after it has given the blocks of `raw_stream`.
pub open spec fn drained(m: ReaderModel) -> ReaderModel
    decreases m.pending.len(),
{
    match m.step() {
        (Outcome::Node { cid, payload, offset }, after) => {
            proof {
                lemma_node_uses_input(m);
            }
            drained(after)
        },
        (_, after) => after,
    }
}

/// The nodes that a reader in state `m` gives from now on when each block
/// is decoded as it comes, and the failure that ends them, if one does.
pub open spec fn node_stream(m: ReaderModel) -> (GroupModel, Option<ErrorModel>)
    decreases m.pending.len(),
{
    match m.step() {
        (Outcome::Node { cid, payload, offset }, after) => match decode_raw(cid, payload, offset) {
            Ok(node) => {
                proof {
                    lemma_node_uses_input(m);
                }
                let rest = node_stream(after);
                (seq![node] + rest.0, rest.1)
            },
            Err(e) => (Seq::empty(), Some(e)),
        },
        (Outcome::Fail { kind, offset }, after) => (
            Seq::empty(),
            Some(ErrorModel { kind, offset: Some(offset), cid: None }),
        ),
        _ => (Seq::empty(), None),
    }
}

/// No node of `g` from index `from` up to, not including, `to` is a block
/// node.
pub open spec fn no_block(g: GroupModel, from: int, to: int) -> bool {
    forall|k: int| from <= k < to ==> (#[trigger] g[k]).1.kind() != Kind::Block
}

/// What filling a group does, in terms of the stream. The group keeps what
/// it had and gets the next nodes of the stream. Where a block node comes,
/// it is the last node that goes in and the only block node among them, and
/// the stream goes on behind it. Where the stream ends first, all its
/// nodes go in and none of them is a block node.
pub proof fn lemma_fill_shape(m: ReaderModel, g: GroupModel)
    ensures
        g.len() <= fill(m, g).2.len(),
        fill(m, g).2.take(g.len() as int) == g,
        fill(m, g).0 == Ok::<Fill, ErrorModel>(Fill::Complete) ==> {
            let after = fill(m, g).1;
            let filled = fill(m, g).2;
            &&& filled.len() > g.len()
            &&& filled.last().1.kind() == Kind::Block
            &&& no_block(filled, g.len() as int, filled.len() - 1)
            &&& after.pending.len() < m.pending.len()
            &&& node_stream(m).0 == filled.skip(g.len() as int) + node_stream(after).0
            &&& node_stream(m).1 == node_stream(after).1
        },
        (fill(m, g).0 matches Ok(why) && why != Fill::Complete) ==> {
            let filled = fill(m, g).2;
            &&& no_block(filled, g.len() as int, filled.len() as int)
            &&& node_stream(m).0 == filled.skip(g.len() as int)
            &&& node_stream(m).1 is None
        },
    decreases m.pending.len(),
{
    match m.step() {
        (Outcome::Node { cid, payload, offset }, after) => {
            match decode_raw(cid, payload, offset) {
                Ok((c, node)) => {
                    lemma_node_uses_input(m);
                    if has_cid(g, c) {
                        assert(g.take(g.len() as int) =~= g);
                    } else if node.kind() == Kind::Block {
                        let filled = g.push((c, node));
                        assert(filled.take(g.len() as int) =~= g);
                        assert(filled.skip(g.len() as int) =~= seq![(c, node)]);
                    } else {
                        let longer = g.push((c, node));
                        lemma_fill_shape(after, longer);
                        let filled = fill(after, longer).2;
                        assert(filled.take(longer.len() as int).take(g.len() as int) =~= filled.take(
                            g.len() as int,
                        ));
                        assert(longer.take(g.len() as int) =~= g);
                        assert(filled[g.len() as int] == longer[g.len() as int]);
                        assert(filled.skip(g.len() as int) =~= seq![(c, node)] + filled.skip(
                            longer.len() as int,
                        ));
                        if fill(m, g).0 == Ok::<Fill, ErrorModel>(Fill::Complete) {
                            let next = fill(m, g).1;
                            assert(seq![(c, node)] + (filled.skip(longer.len() as int)
                                + node_stream(next).0) =~= (seq![(c, node)] + filled.skip(
                                longer.len() as int,
                            )) + node_stream(next).0);
                        }
                    }
                },
                Err(_) => {
                    assert(g.take(g.len() as int) =~= g);
                },
            }
        },
        _ => {
            assert(g.take(g.len() as int) =~= g);
            assert(g.skip(g.len() as int) =~= GroupModel::empty());
        },
    }
}

/// The groups that a reader in state `m` gives from now on: each is filled
/// from empty, and a group that stays empty is left out. A failure ends the
/// stream; the group in which it happened is not given.
pub open spec fn group_stream(m: ReaderModel) -> (Seq<GroupModel>, Option<ErrorModel>)
    decreases m.pending.len(),
{
    let filled = fill(m, GroupModel::empty());
    match filled.0 {
        Err(e) => (Seq::empty(), Some(e)),
        Ok(Fill::Complete) => {
            proof {
                lemma_fill_shape(m, GroupModel::empty());
            }
            let rest = group_stream(filled.1);
            (seq![filled.2] + rest.0, rest.1)
        },
        Ok(_) => (
            if filled.2.len() == 0 {
                Seq::empty()
            } else {
                seq![filled.2]
            },
            None,
        ),
    }
}

/// Group boundaries. No group of the stream is empty, and a block node
/// stands nowhere in a group but at its end. Every group but the last ends
/// with a block node. Where the groups end without a failure, they are,
/// one after the other, the stream of nodes.
pub proof fn lemma_group_boundaries(m: ReaderModel)
    ensures
        forall|a: int|
            0 <= a < group_stream(m).0.len() ==> (#[trigger] group_stream(m).0[a]).len() > 0
                && no_block(group_stream(m).0[a], 0, group_stream(m).0[a].len() - 1),
        forall|a: int|
            0 <= a < group_stream(m).0.len() - 1 ==> (#[trigger] group_stream(m).0[a]).last().1.kind()
                == Kind::Block,
        group_stream(m).1 is None ==> group_stream(m).0.flatten() == node_stream(m).0
            && node_stream(m).1 is None,
    decreases m.pending.len(),
{
    let empty = GroupModel::empty();
    let filled = fill(m, empty);
    lemma_fill_shape(m, empty);
    assert(filled.2.skip(0) =~= filled.2);
    match filled.0 {
        Err(e) => {
            assert(Seq::<GroupModel>::empty().flatten() =~= GroupModel::empty());
        },
        Ok(Fill::Complete) => {
            lemma_group_boundaries(filled.1);
            let rest = group_stream(filled.1).0;
            let all = seq![filled.2] + rest;
            assert(all.drop_first() =~= rest);
            assert(all.first() == filled.2);
            assert forall|a: int| 0 <= a < all.len() implies (#[trigger] all[a]).len() > 0
                && no_block(all[a], 0, all[a].len() - 1) by {
                if a > 0 {
                    assert(all[a] == rest[a - 1]);
                }
            }
            assert forall|a: int| 0 <= a < all.len() - 1 implies (#[trigger] all[a]).last().1.kind()
                == Kind::Block by {
                if a > 0 {
                    assert(all[a] == rest[a - 1]);
                }
            }
        },
        Ok(_) => {
            if filled.2.len() == 0 {
                assert(Seq::<GroupModel>::empty().flatten() =~= GroupModel::empty());
            } else {
                let all = seq![filled.2];
                assert(all.drop_first() =~= Seq::<GroupModel>::empty());
                assert(all.drop_first().flatten() =~= GroupModel::empty());
                assert(all.flatten() =~= filled.2);
            }
        },
    }
}

/// Order preservation. The nodes of a stream stand under the identifiers of
/// its blocks, in the same order, one node per block; and where no failure
/// ends the nodes, there are as many of them as there are blocks.
pub proof fn lemma_nodes_follow_blocks(m: ReaderModel)
    ensures
        node_stream(m).0.len() <= raw_stream(m).0.len(),
        forall|i: int|
            0 <= i < node_stream(m).0.len() ==> (#[trigger] node_stream(m).0[i]).0 == raw_stream(
                m,
            ).0[i].0,
        node_stream(m).1 is None ==> node_stream(m).0.len() == raw_stream(m).0.len() && raw_stream(
            m,
        ).1 is None,
    decreases m.pending.len(),
{
    match m.step() {
        (Outcome::Node { cid, payload, offset }, after) => {
            lemma_node_uses_input(m);
            lemma_nodes_follow_blocks(after);
            match decode_raw(cid, payload, offset) {
                Ok(node) => {
                    let nodes = node_stream(m).0;
                    let rest = node_stream(after).0;
                    assert forall|i: int| 0 <= i < nodes.len() implies (#[trigger] nodes[i]).0
                        == raw_stream(m).0[i].0 by {
                        if i > 0 {
                            assert(nodes[i] == rest[i - 1]);
                            assert(raw_stream(m).0[i] == raw_stream(after).0[i - 1]);
                        }
                    }
                },
                Err(_) => {},
            }
        },
        _ => {},
    }
}

/// The state of a reader after it has given the nodes of `node_stream`. A
/// block that does not decode ends the stream.
pub open spec fn drained_of_nodes(m: ReaderModel) -> ReaderModel
    decreases m.pending.len(),
{
    match m.step() {
        (Outcome::Node { cid, payload, offset }, after) => match decode_raw(cid, payload, offset) {
            Ok(node) => {
                proof {
                    lemma_node_uses_input(m);
                }
                drained_of_nodes(after)
            },
            Err(e) => after.finish(),
        },
        (_, after) => after,
    }
}

/// The state of a reader after it has given the groups of `group_stream`.
pub open spec fn drained_of_groups(m: ReaderModel) -> ReaderModel
    decreases m.pending.len(),
{
    let filled = fill(m, GroupModel::empty());
    match filled.0 {
        Ok(Fill::Complete) => {
            proof {
                lemma_fill_shape(m, GroupModel::empty());
            }
            drained_of_groups(filled.1)
        },
        _ => filled.1,
    }
}

/// What the blocks of a list stand for.
pub open spec fn raw_views(v: Seq<RawNode>) -> RawModel {
    Seq::new(v.len(), |i: int| (v[i].cid@, v[i].payload@))
}

/// What the nodes of a list stand for.
pub open spec fn node_views(v: Seq<NodeWithCid>) -> GroupModel {
    Seq::new(v.len(), |i: int| (v[i].cid@, v[i].node@))
}

/// What the groups of a list stand for.
pub open spec fn group_views(v: Seq<Nodes>) -> Seq<GroupModel> {
    Seq::new(v.len(), |i: int| v[i]@)
}

/// Whether a failure handed back is the one that `model` names.
pub open spec fn failure_agrees(e: Option<CarError>, model: Option<ErrorModel>) -> bool {
    match model {
        Some(m) => e matches Some(err) && err@ == m,
        None => e is None,
    }
}

/// What a pull of the stream of nodes hands back.
#[derive(Debug, PartialEq, Eq)]
pub enum Pulled {
    /// The next node.
    Node(NodeWithCid),
    /// The stream is over.
    End,
    /// The next block is not there in full yet.
    NeedInput,
}

/// Whether a pull of the stream of nodes from a reader in state `m` handed
/// back `r` and left the reader in state `after`: the next block, decoded,
/// or what the reader gave in its place. A block that does not decode ends
/// the stream.
pub open spec fn pull_agrees(m: ReaderModel, r: Result<Pulled, CarError>, after: ReaderModel) -> bool {
    match m.step() {
        (Outcome::Node { cid, payload, offset }, next) => match decode_raw(cid, payload, offset) {
            Ok((c, node)) => after == next && (r matches Ok(Pulled::Node(n)) && n.cid@ == c
                && n.node@ == node),
            Err(e) => after == next.finish() && (r matches Err(err) && err@ == e),
        },
        (Outcome::End, next) => after == next && r matches Ok(Pulled::End),
        (Outcome::NeedInput, next) => after == next && r matches Ok(Pulled::NeedInput),
        (Outcome::Fail { kind, offset }, next) => after == next && (r matches Err(err) && err@ == (
        ErrorModel { kind, offset: Some(offset), cid: None })),
    }
}

/// Pulls the next node: the next block of `reader`, decoded. After a
/// failure every pull gives `Pulled::End`.
pub fn next_node(reader: &mut NodeReader) -> (r: Result<Pulled, CarError>)
    ensures
        pull_agrees(old(reader)@, r, final(reader)@),
{
    match reader.read_node() {
        Err(e) => Err(e),
        Ok(Read::End) => Ok(Pulled::End),
        Ok(Read::NeedInput) => Ok(Pulled::NeedInput),
        Ok(Read::Node(raw)) => match NodeWithCid::decode(raw) {
            Ok(node) => Ok(Pulled::Node(node)),
            Err(e) => {
                reader.abort();
                Err(e)
            },
        },
    }
}

/// Pulls every block that `reader` has to give.
pub fn read_raw_nodes(reader: &mut NodeReader) -> (r: (Vec<RawNode>, Option<CarError>))
    ensures
        raw_views(r.0@) == raw_stream(old(reader)@).0,
        failure_agrees(r.1, raw_stream(old(reader)@).1),
        final(reader)@ == drained(old(reader)@),
        r.1 is Some ==> final(reader)@.done,
{
    let mut out: Vec<RawNode> = Vec::new();
    assert(raw_views(out@) =~= RawModel::empty());
    loop
        invariant
            raw_stream(old(reader)@).0 == raw_views(out@) + raw_stream(reader@).0,
            raw_stream(old(reader)@).1 == raw_stream(reader@).1,
            drained(old(reader)@) == drained(reader@),
        decreases reader@.pending.len(),
    {
        let ghost m = reader@;
        let ghost done = raw_views(out@);
        match reader.read_node() {
            Err(e) => {
                assert(done + RawModel::empty() =~= done);
                return (out, Some(e));
            },
            Ok(Read::Node(raw)) => {
                proof {
                    lemma_node_uses_input(m);
                    let rest = raw_stream(reader@);
                    assert(done + (seq![(raw.cid@, raw.payload@)] + rest.0) =~= done.push(
                        (raw.cid@, raw.payload@),
                    ) + rest.0);
                }
                out.push(raw);
                assert(raw_views(out@) =~= done.push((m.step().0->cid, m.step().0->payload)));
            },
            Ok(_) => {
                assert(done + RawModel::empty() =~= done);
                return (out, None);
            },
        }
    }
}

/// Pulls every block that `reader` has to give and decodes each as it
/// comes. A block that does not decode ends the stream.
pub fn read_nodes(reader: &mut NodeReader) -> (r: (Vec<NodeWithCid>, Option<CarError>))
    ensures
        node_views(r.0@) == node_stream(old(reader)@).0,
        failure_agrees(r.1, node_stream(old(reader)@).1),
        final(reader)@ == drained_of_nodes(old(reader)@),
        r.1 is Some ==> final(reader)@.done,
{
    let mut out: Vec<NodeWithCid> = Vec::new();
    assert(node_views(out@) =~= GroupModel::empty());
    loop
        invariant
            node_stream(old(reader)@).0 == node_views(out@) + node_stream(reader@).0,
            node_stream(old(reader)@).1 == node_stream(reader@).1,
            drained_of_nodes(old(reader)@) == drained_of_nodes(reader@),
        decreases reader@.pending.len(),
    {
        let ghost m = reader@;
        let ghost done = node_views(out@);
        match reader.read_node() {
            Err(e) => {
                assert(done + GroupModel::empty() =~= done);
                return (out, Some(e));
            },
            Ok(Read::Node(raw)) => {
                proof {
                    lemma_node_uses_input(m);
                }
                match NodeWithCid::decode(raw) {
                    Err(e) => {
                        reader.abort();
                        assert(done + GroupModel::empty() =~= done);
                        return (out, Some(e));
                    },
                    Ok(node) => {
                        proof {
                            let rest = node_stream(reader@);
                            assert(done + (seq![(node.cid@, node.node@)] + rest.0) =~= done.push(
                                (node.cid@, node.node@),
                            ) + rest.0);
                        }
                        let ghost added = (node.cid@, node.node@);
                        out.push(node);
                        assert(node_views(out@) =~= done.push(added));
                    },
                }
            },
            Ok(_) => {
                assert(done + GroupModel::empty() =~= done);
                return (out, None);
            },
        }
    }
}

/// Pulls every group that `reader` has to give.
pub fn read_groups(reader: &mut NodeReader) -> (r: (Vec<Nodes>, Option<CarError>))
    ensures
        group_views(r.0@) == group_stream(old(reader)@).0,
        failure_agrees(r.1, group_stream(old(reader)@).1),
        final(reader)@ == drained_of_groups(old(reader)@),
        r.1 is Some ==> final(reader)@.done,
        forall|i: int| 0 <= i < r.0@.len() ==> (#[trigger] r.0@[i]).wf(),
{
    let mut out: Vec<Nodes> = Vec::new();
    assert(group_views(out@) =~= Seq::<GroupModel>::empty());
    loop
        invariant
            group_stream(old(reader)@).0 == group_views(out@) + group_stream(reader@).0,
            group_stream(old(reader)@).1 == group_stream(reader@).1,
            drained_of_groups(old(reader)@) == drained_of_groups(reader@),
            forall|i: int| 0 <= i < out@.len() ==> (#[trigger] out@[i]).wf(),
        decreases reader@.pending.len(),
    {
        let ghost m = reader@;
        let ghost done = group_views(out@);
        let mut group: Nodes = Nodes::new();
        let filled: Result<Fill, CarError> = group.fill_until_block(reader);
        match filled {
            Err(e) => {
                proof {
                    lemma_fill_failure_is_terminal(m, GroupModel::empty());
                }
                assert(done + Seq::<GroupModel>::empty() =~= done);
                return (out, Some(e));
            },
            Ok(Fill::Complete) => {
                proof {
                    lemma_fill_shape(m, GroupModel::empty());
                    let rest = group_stream(reader@);
                    assert(done + (seq![group@] + rest.0) =~= done.push(group@) + rest.0);
                }
                let ghost added = group@;
                out.push(group);
                assert(group_views(out@) =~= done.push(added));
            },
            Ok(_) => {
                if !group.is_empty() {
                    let ghost added = group@;
                    out.push(group);
                    assert(group_views(out@) =~= done + seq![added]);
                } else {
                    assert(done + Seq::<GroupModel>::empty() =~= done);
                }
                return (out, None);
            },
        }
    }
}

} // verus!
