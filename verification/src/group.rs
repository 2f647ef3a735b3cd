//! Groups: the nodes of the stream up to and including the next block node,
//! kept in the order in which they came and found again by identifier.

use crate::cid::Cid;
use crate::error::{CarError, ErrorKind, ErrorModel};
use crate::frame::{lemma_node_uses_input, NodeReader, Outcome, Read, ReaderModel};
use crate::node::{decode_raw, Kind, Node, NodeModel, NodeWithCid};
use vstd::prelude::*;

verus! {

/// What a group stands for: identifier and node of each entry, in order.
pub type GroupModel = Seq<(Seq<u8>, NodeModel)>;

/// Whether some entry of `g` has the identifier `cid`.
pub open spec fn has_cid(g: GroupModel, cid: Seq<u8>) -> bool {
    exists|i: int| 0 <= i < g.len() && (#[trigger] g[i]).0 == cid
}

/// The index of an entry with the identifier `cid`.
pub open spec fn position(g: GroupModel, cid: Seq<u8>) -> int {
    choose|i: int| 0 <= i < g.len() && (#[trigger] g[i]).0 == cid
}

/// The node that `g` holds under `cid`.
pub open spec fn lookup(g: GroupModel, cid: Seq<u8>) -> Option<NodeModel> {
    if has_cid(g, cid) {
        Some(g[position(g, cid)].1)
    } else {
        None
    }
}

/// No identifier occurs twice in `g`.
pub open spec fn distinct(g: GroupModel) -> bool {
    forall|i: int, j: int| 0 <= i < j < g.len() ==> (#[trigger] g[i]).0 != (#[trigger] g[j]).0
}

/// Why filling a group stopped.
#[derive(Clone, Copy, Debug, PartialEq, Eq, Structural)]
pub enum Fill {
    /// A block node came in: the group is complete.
    Complete,
    /// The stream is over; what the group holds is all there was.
    Ended,
    /// The reader has run out of input that is not closed yet.
    NeedInput,
}

/// Pulls nodes from a reader in state `m` into `group` until a block node
/// has gone in, the stream ends, the reader needs input, or something
/// fails. Gives why it stopped, the reader's state and the group after it.
/// Every failure ends the stream. A node whose identifier the group holds
/// already is a failure, and the group stays as it was before that node.
pub open spec fn fill(m: ReaderModel, group: GroupModel) -> (
    Result<Fill, ErrorModel>,
    ReaderModel,
    GroupModel,
)
    decreases m.pending.len(),
{
    match m.step() {
        (Outcome::End, after) => (Ok(Fill::Ended), after, group),
        (Outcome::NeedInput, after) => (Ok(Fill::NeedInput), after, group),
        (Outcome::Fail { kind, offset }, after) => (
            Err(ErrorModel { kind, offset: Some(offset), cid: None }),
            after,
            group,
        ),
        (Outcome::Node { cid, payload, offset }, after) => match decode_raw(cid, payload, offset) {
            Err(e) => (Err(e), after.finish(), group),
            Ok((cid, node)) => if has_cid(group, cid) {
                (
                    Err(
                        ErrorModel {
                            kind: ErrorKind::DuplicateCid,
                            offset: Some(offset),
                            cid: Some(cid),
                        },
                    ),
                    after.finish(),
                    group,
                )
            } else if node.kind() == Kind::Block {
                (Ok(Fill::Complete), after, group.push((cid, node)))
            } else {
                proof {
                    lemma_node_uses_input(m);
                }
                fill(after, group.push((cid, node)))
            },
        },
    }
}

/// A failure while a group is filled ends the stream: the reader is done,
/// and its next pull gives the end.
pub proof fn lemma_fill_failure_is_terminal(m: ReaderModel, group: GroupModel)
    requires
        fill(m, group).0 is Err,
    ensures
        fill(m, group).1.done,
        fill(m, group).1.step() == (Outcome::End, fill(m, group).1),
    decreases m.pending.len(),
{
    match m.step() {
        (Outcome::Node { cid, payload, offset }, after) => {
            match decode_raw(cid, payload, offset) {
                Ok((c, node)) => {
                    if !has_cid(group, c) && node.kind() != Kind::Block {
                        lemma_node_uses_input(m);
                        lemma_fill_failure_is_terminal(after, group.push((c, node)));
                    }
                },
                Err(_) => {},
            }
        },
        _ => {},
    }
}

/// The nodes between one block node and the next, the latter included.
#[derive(Debug, PartialEq, Eq)]
pub struct Nodes {
    entries: Vec<NodeWithCid>,
}

impl View for Nodes {
    type V = GroupModel;

    closed spec fn view(&self) -> GroupModel {
        Seq::new(self.entries@.len(), |i: int| (self.entries@[i].cid@, self.entries@[i].node@))
    }
}

impl Nodes {
    /// No identifier occurs twice. Every group that this module hands out
    /// is well formed.
    pub open spec fn wf(&self) -> bool {
        distinct(self@)
    }

    /// A group without nodes.
    pub fn new() -> (r: Nodes)
        ensures
            r@ == GroupModel::empty(),
            r.wf(),
    {
        let r = Nodes { entries: Vec::new() };
        assert(r@ =~= GroupModel::empty());
        r
    }

    /// Count of nodes.
    pub fn len(&self) -> (r: usize)
        ensures
            r == self@.len(),
    {
        self.entries.len()
    }

    /// Whether the group holds no node.
    pub fn is_empty(&self) -> (r: bool)
        ensures
            r == (self@.len() == 0),
    {
        self.entries.len() == 0
    }

    /// The node that came in as number `i`, counted from 0.
    pub fn entry(&self, i: usize) -> (r: Option<&NodeWithCid>)
        ensures
            i < self@.len() <==> r is Some,
            r matches Some(e) ==> (e.cid@, e.node@) == self@[i as int],
    {
        if i < self.entries.len() {
            Some(&self.entries[i])
        } else {
            None
        }
    }

    /// The index of the node with the identifier `cid`.
    pub fn find(&self, cid: &Cid) -> (r: Option<usize>)
        requires
            self.wf(),
        ensures
            has_cid(self@, cid@) <==> r is Some,
            r matches Some(i) ==> i == position(self@, cid@) && i < self@.len() && self@[i as int].0
                == cid@,
    {
        let mut i: usize = 0;
        while i < self.entries.len()
            invariant
                i <= self.entries.len(),
                self@.len() == self.entries.len(),
                distinct(self@),
                forall|j: int| 0 <= j < i ==> (#[trigger] self@[j]).0 != cid@,
            decreases self.entries.len() - i,
        {
            if self.entries[i].cid.same_as(cid) {
                assert(self@[i as int].0 == cid@);
                return Some(i);
            }
            i = i + 1;
        }
        None
    }

    /// The node with the identifier `cid`.
    pub fn get(&self, cid: &Cid) -> (r: Result<&Node, CarError>)
        requires
            self.wf(),
        ensures
            match lookup(self@, cid@) {
                Some(node) => r matches Ok(n) && n@ == node,
                None => r matches Err(e) && e@ == ErrorModel::bare(ErrorKind::MissingRef),
            },
    {
        match self.find(cid) {
            Some(i) => Ok(&self.entries[i].node),
            None => Err(CarError::bare(ErrorKind::MissingRef)),
        }
    }

    /// Adds a node at the end, unless its identifier is there already.
    pub fn push(&mut self, node: NodeWithCid) -> (r: Result<(), CarError>)
        requires
            old(self).wf(),
        ensures
            final(self).wf(),
            has_cid(old(self)@, node.cid@) ==> final(self)@ == old(self)@ && (r matches Err(e)
                && e@ == (ErrorModel {
                kind: ErrorKind::DuplicateCid,
                offset: None,
                cid: Some(node.cid@),
            })),
            !has_cid(old(self)@, node.cid@) ==> r is Ok && final(self)@ == old(self)@.push(
                (node.cid@, node.node@),
            ),
    {
        if self.find(&node.cid).is_some() {
            return Err(
                CarError { kind: ErrorKind::DuplicateCid, offset: None, cid: Some(node.cid) },
            );
        }
        let ghost before = self@;
        let ghost added = (node.cid@, node.node@);
        self.entries.push(node);
        proof {
            assert(self@ =~= before.push(added));
            assert forall|i: int, j: int| 0 <= i < j < self@.len() implies (#[trigger] self@[i]).0
                != (#[trigger] self@[j]).0 by {
                if j == before.len() {
                    assert(before[i].0 != added.0);
                }
            }
        }
        Ok(())
    }

    /// Takes the next node of a stream into the group. Says whether the
    /// group is complete with it, that is, whether it is a block node. A
    /// node whose identifier is there already is refused.
    pub fn accept(&mut self, node: NodeWithCid) -> (r: Result<bool, CarError>)
        requires
            old(self).wf(),
        ensures
            final(self).wf(),
            has_cid(old(self)@, node.cid@) ==> final(self)@ == old(self)@ && (r matches Err(e)
                && e@ == (ErrorModel {
                kind: ErrorKind::DuplicateCid,
                offset: None,
                cid: Some(node.cid@),
            })),
            !has_cid(old(self)@, node.cid@) ==> r == Ok::<bool, CarError>(
                node.node@.kind() == Kind::Block,
            ) && final(self)@ == old(self)@.push((node.cid@, node.node@)),
    {
        let is_block: bool = match &node.node {
            Node::Block(_) => true,
            _ => false,
        };
        match self.push(node) {
            Ok(()) => Ok(is_block),
            Err(e) => Err(e),
        }
    }

    /// Pulls nodes from `reader` into this group until a block node has gone
    /// in, the stream ends or the reader needs input. On a failure the
    /// stream is over and the group holds what came before.
    pub fn fill_until_block(&mut self, reader: &mut NodeReader) -> (r: Result<Fill, CarError>)
        requires
            old(self).wf(),
        ensures
            final(self).wf(),
            match fill(old(reader)@, old(self)@).0 {
                Ok(why) => r == Ok::<Fill, CarError>(why),
                Err(e) => r matches Err(err) && err@ == e,
            },
            final(reader)@ == fill(old(reader)@, old(self)@).1,
            final(self)@ == fill(old(reader)@, old(self)@).2,
    {
        loop
            invariant
                self.wf(),
                fill(reader@, self@) == fill(old(reader)@, old(self)@),
            decreases reader@.pending.len(),
        {
            let ghost m = reader@;
            let pulled: Result<Read, CarError> = reader.read_node();
            match pulled {
                Err(e) => {
                    return Err(e);
                },
                Ok(Read::End) => {
                    return Ok(Fill::Ended);
                },
                Ok(Read::NeedInput) => {
                    return Ok(Fill::NeedInput);
                },
                Ok(Read::Node(raw)) => {
                    proof {
                        lemma_node_uses_input(m);
                    }
                    let offset: u64 = raw.offset;
                    match NodeWithCid::decode(raw) {
                        Err(e) => {
                            reader.abort();
                            return Err(e);
                        },
                        Ok(node) => {
                            match self.accept(node) {
                                Err(e) => {
                                    reader.abort();
                                    return Err(
                                        CarError { kind: e.kind, offset: Some(offset), cid: e.cid },
                                    );
                                },
                                Ok(complete) => {
                                    if complete {
                                        return Ok(Fill::Complete);
                                    }
                                },
                            }
                        },
                    }
                },
            }
        }
    }

    /// Reads the next group from `reader`: the nodes up to and including the
    /// next block node, or what is left where the stream ends before one.
    /// With a reader whose input is not closed, the group also ends where
    /// the input that is there ends; `fill_until_block` tells the cases
    /// apart and can go on later.
    pub fn read_until_block(reader: &mut NodeReader) -> (r: Result<Nodes, CarError>)
        ensures
            match fill(old(reader)@, GroupModel::empty()).0 {
                Ok(_) => r matches Ok(group) && group.wf() && group@ == fill(
                    old(reader)@,
                    GroupModel::empty(),
                ).2,
                Err(e) => r matches Err(err) && err@ == e,
            },
            final(reader)@ == fill(old(reader)@, GroupModel::empty()).1,
    {
        let mut group: Nodes = Nodes::new();
        match group.fill_until_block(reader) {
            Ok(_) => Ok(group),
            Err(e) => Err(e),
        }
    }
}

} // verus!
