//! A parse pipeline over one reader: blocks are pulled ahead into a window
//! of decode jobs, the jobs of a window finish last one first, and the nodes
//! still come out in the order of the stream.

use crate::error::{CarError, ErrorModel};
use crate::frame::{lemma_node_uses_input, NodeReader, Outcome, Read, ReaderModel};
use crate::group::GroupModel;
use crate::node::{decode_raw, decoded_agrees, NodeWithCid, RawNode};
use crate::stream::{drained_of_nodes, failure_agrees, node_stream, node_views};
use crate::window::{Decoded, Window, WindowModel};
use vstd::prelude::*;

verus! {

/// Identifier, payload and offset of each block of a batch.
pub type BatchModel = Seq<(Seq<u8>, Seq<u8>, u64)>;

/// How a batch ended.
pub enum BatchEnd {
    /// The batch is full; the stream may go on.
    More,
    /// The stream ended, or the reader needs input.
    Ended,
    /// The reader failed.
    Failed(ErrorModel),
}

/// Up to `n` blocks pulled from a reader in state `m`: the blocks, the
/// reader's state after them, and why no more were pulled.
pub open spec fn take_raw(m: ReaderModel, n: nat) -> (BatchModel, ReaderModel, BatchEnd)
    decreases n,
{
    if n == 0 {
        (Seq::empty(), m, BatchEnd::More)
    } else {
        match m.step() {
            (Outcome::Node { cid, payload, offset }, after) => {
                let rest = take_raw(after, (n - 1) as nat);
                (seq![(cid, payload, offset)] + rest.0, rest.1, rest.2)
            },
            (Outcome::Fail { kind, offset }, after) => (
                Seq::empty(),
                after,
                BatchEnd::Failed(ErrorModel { kind, offset: Some(offset), cid: None }),
            ),
            (_, after) => (Seq::empty(), after, BatchEnd::Ended),
        }
    }
}

/// The nodes of a batch, decoded in order up to the first block that does
/// not decode, and the failure of that block.
pub open spec fn decode_batch(batch: BatchModel) -> (GroupModel, Option<ErrorModel>)
    decreases batch.len(),
{
    if batch.len() == 0 {
        (Seq::empty(), None)
    } else {
        match decode_raw(batch.first().0, batch.first().1, batch.first().2) {
            Ok(node) => {
                let rest = decode_batch(batch.drop_first());
                (seq![node] + rest.0, rest.1)
            },
            Err(e) => (Seq::empty(), Some(e)),
        }
    }
}

/// The stream of nodes, told by batches: the nodes of the first batch, and
/// then, unless a block of the batch failed or the batch ended the stream,
/// the nodes of the stream behind it.
pub open spec fn stream_by_batch(m: ReaderModel, n: nat) -> (GroupModel, Option<ErrorModel>) {
    let batch = take_raw(m, n);
    let decoded = decode_batch(batch.0);
    if decoded.1 is Some {
        decoded
    } else {
        match batch.2 {
            BatchEnd::More => (decoded.0 + node_stream(batch.1).0, node_stream(batch.1).1),
            BatchEnd::Ended => (decoded.0, None),
            BatchEnd::Failed(e) => (decoded.0, Some(e)),
        }
    }
}

/// Pulling ahead changes nothing: the stream told by batches of any size is
/// the stream of nodes decoded one by one.
pub proof fn lemma_stream_by_batch(m: ReaderModel, n: nat)
    ensures
        stream_by_batch(m, n) == node_stream(m),
    decreases n,
{
    if n == 0 {
        assert(GroupModel::empty() + node_stream(m).0 =~= node_stream(m).0);
    } else {
        match m.step() {
            (Outcome::Node { cid, payload, offset }, after) => {
                lemma_stream_by_batch(after, (n - 1) as nat);
                let rest = take_raw(after, (n - 1) as nat);
                let batch = take_raw(m, n);
                assert(batch.0.drop_first() =~= rest.0);
                match decode_raw(cid, payload, offset) {
                    Ok(node) => {
                        let decoded = decode_batch(rest.0);
                        if decoded.1 is None && rest.2 is More {
                            assert((seq![node] + decoded.0) + node_stream(rest.1).0 =~= seq![node]
                                + (decoded.0 + node_stream(rest.1).0));
                        }
                    },
                    Err(e) => {},
                }
            },
            _ => {},
        }
    }
}

/// Where every block of a batch decodes, the reader is after the batch
/// where decoding the blocks one by one would have left it.
pub proof fn lemma_drained_by_batch(m: ReaderModel, n: nat)
    requires
        decode_batch(take_raw(m, n).0).1 is None,
    ensures
        drained_of_nodes(m) == (if take_raw(m, n).2 is More {
            drained_of_nodes(take_raw(m, n).1)
        } else {
            take_raw(m, n).1
        }),
    decreases n,
{
    if n > 0 {
        match m.step() {
            (Outcome::Node { cid, payload, offset }, after) => {
                let rest = take_raw(after, (n - 1) as nat);
                let batch = take_raw(m, n);
                assert(batch.0.drop_first() =~= rest.0);
                assert(batch.0.first() == (cid, payload, offset));
                lemma_drained_by_batch(after, (n - 1) as nat);
            },
            _ => {},
        }
    }
}

/// A decode job: a block and the ticket under which its result is due.
struct Job {
    ticket: u64,
    raw: RawNode,
}

/// What the blocks of a batch of jobs stand for.
spec fn raw_items(v: Seq<Job>) -> BatchModel {
    Seq::new(v.len(), |i: int| (v[i].raw.cid@, v[i].raw.payload@, v[i].raw.offset))
}

/// The jobs of a batch carry the tickets from `first` on, one after the
/// other.
spec fn tickets_from(v: Seq<Job>, first: nat) -> bool {
    forall|i: int| 0 <= i < v.len() ==> (#[trigger] v[i]).ticket == first + i
}

/// Count of jobs that an empty window can take.
pub open spec fn room(w: WindowModel<Decoded>) -> nat {
    if w.capacity <= u64::MAX - w.head {
        w.capacity
    } else {
        (u64::MAX - w.head) as nat
    }
}

/// Whether what a batch ended in is what `model` says.
pub open spec fn end_agrees(end: Option<Option<CarError>>, model: BatchEnd) -> bool {
    match model {
        BatchEnd::More => end is None,
        BatchEnd::Ended => end == Some(None::<CarError>),
        BatchEnd::Failed(e) => end matches Some(Some(err)) && err@ == e,
    }
}

/// Pulls blocks from `reader` for as long as `window` has room, and hands
/// out a job for each.
fn pull_batch(reader: &mut NodeReader, window: &mut Window) -> (r: (
    Vec<Job>,
    Option<Option<CarError>>,
))
    requires
        old(window).wf(),
        old(window)@.slots.len() == 0,
    ensures
        final(window).wf(),
        final(window)@.head == old(window)@.head,
        final(window)@.capacity == old(window)@.capacity,
        final(window)@.slots == Seq::new(r.0@.len(), |i: int| None::<Decoded>),
        tickets_from(r.0@, old(window)@.head),
        raw_items(r.0@) == take_raw(old(reader)@, room(old(window)@)).0,
        final(reader)@ == take_raw(old(reader)@, room(old(window)@)).1,
        end_agrees(r.1, take_raw(old(reader)@, room(old(window)@)).2),
        r.1 matches Some(Some(_)) ==> final(reader)@.done,
{
    let mut batch: Vec<Job> = Vec::new();
    let ghost total = room(window@);
    let ghost start = reader@;
    assert(raw_items(batch@) =~= BatchModel::empty());
    assert(window@.slots =~= Seq::new(0nat, |i: int| None::<Decoded>));
    while window.has_room()
        invariant
            window.wf(),
            window@.head == old(window)@.head,
            window@.capacity == old(window)@.capacity,
            total == room(old(window)@),
            start == old(reader)@,
            batch@.len() <= total,
            window@.slots == Seq::new(batch@.len(), |i: int| None::<Decoded>),
            tickets_from(batch@, window@.head),
            take_raw(start, total).0 == raw_items(batch@) + take_raw(
                reader@,
                (total - batch@.len()) as nat,
            ).0,
            take_raw(start, total).1 == take_raw(reader@, (total - batch@.len()) as nat).1,
            take_raw(start, total).2 == take_raw(reader@, (total - batch@.len()) as nat).2,
        ensures
            window.wf(),
            window@.head == old(window)@.head,
            window@.capacity == old(window)@.capacity,
            window@.slots == Seq::new(batch@.len(), |i: int| None::<Decoded>),
            tickets_from(batch@, window@.head),
            batch@.len() == total,
            take_raw(start, total).0 == raw_items(batch@),
            take_raw(start, total).1 == reader@,
            take_raw(start, total).2 is More,
        decreases total - batch@.len(),
    {
        let ghost done = raw_items(batch@);
        let ghost left = (total - batch@.len()) as nat;
        assert(left > 0);
        match reader.read_node() {
            Err(e) => {
                assert(done + BatchModel::empty() =~= done);
                return (batch, Some(Some(e)));
            },
            Ok(Read::Node(raw)) => {
                let ticket: u64 = match window.submit() {
                    Some(ticket) => ticket,
                    None => {
                        return (batch, None);
                    },
                };
                proof {
                    let rest = take_raw(reader@, (left - 1) as nat);
                    assert(done + (seq![(raw.cid@, raw.payload@, raw.offset)] + rest.0)
                        =~= done.push((raw.cid@, raw.payload@, raw.offset)) + rest.0);
                }
                let ghost item = (raw.cid@, raw.payload@, raw.offset);
                batch.push(Job { ticket, raw });
                assert(raw_items(batch@) =~= done.push(item));
                assert(window@.slots =~= Seq::new(batch@.len(), |i: int| None::<Decoded>));
            },
            Ok(_) => {
                assert(done + BatchModel::empty() =~= done);
                return (batch, Some(None));
            },
        }
    }
    proof {
        assert(raw_items(batch@) + BatchModel::empty() =~= raw_items(batch@));
    }
    (batch, None)
}

/// Runs the jobs of a batch, the last one first.
fn run_batch(window: &mut Window, batch: Vec<Job>)
    requires
        old(window).wf(),
        old(window)@.slots == Seq::new(batch@.len(), |i: int| None::<Decoded>),
        tickets_from(batch@, old(window)@.head),
    ensures
        final(window).wf(),
        final(window)@.head == old(window)@.head,
        final(window)@.capacity == old(window)@.capacity,
        final(window)@.slots.len() == batch@.len(),
        forall|i: int|
            0 <= i < batch@.len() ==> ((#[trigger] final(window)@.slots[i]) matches Some(d)
                && decoded_agrees(
                d,
                decode_raw(raw_items(batch@)[i].0, raw_items(batch@)[i].1, raw_items(batch@)[i].2),
            )),
{
    let mut jobs: Vec<Job> = batch;
    let ghost items = raw_items(batch@);
    let ghost count = batch@.len();
    while jobs.len() > 0
        invariant
            window.wf(),
            tickets_from(jobs@, window@.head),
            window@.head == old(window)@.head,
            window@.capacity == old(window)@.capacity,
            window@.slots.len() == count,
            jobs@.len() <= count,
            items.len() == count,
            raw_items(jobs@) == items.take(jobs@.len() as int),
            forall|i: int| 0 <= i < jobs@.len() ==> (#[trigger] window@.slots[i]) is None,
            forall|i: int|
                jobs@.len() <= i < count ==> ((#[trigger] window@.slots[i]) matches Some(d)
                    && decoded_agrees(d, decode_raw(items[i].0, items[i].1, items[i].2))),
        decreases jobs@.len(),
    {
        let ghost before = raw_items(jobs@);
        let ghost k = jobs@.len() - 1;
        let job: Job = match jobs.pop() {
            Some(job) => job,
            None => {
                return ;
            },
        };
        assert(raw_items(jobs@) =~= items.take(k));
        assert(before[k] == items[k]);
        let result: Decoded = NodeWithCid::decode(job.raw);
        window.complete(job.ticket, result);
    }
}

/// Takes the results of a batch in order and adds the nodes to `out`.
/// Stops at the first failure and gives it.
fn drain_batch(window: &mut Window, out: &mut Vec<NodeWithCid>, Ghost(batch): Ghost<BatchModel>) -> (r:
    Option<CarError>)
    requires
        old(window).wf(),
        old(window)@.slots.len() == batch.len(),
        forall|i: int|
            0 <= i < batch.len() ==> ((#[trigger] old(window)@.slots[i]) matches Some(d)
                && decoded_agrees(d, decode_raw(batch[i].0, batch[i].1, batch[i].2))),
    ensures
        final(window).wf(),
        final(window)@.capacity == old(window)@.capacity,
        r is None ==> final(window)@.slots.len() == 0,
        node_views(final(out)@) == node_views(old(out)@) + decode_batch(batch).0,
        failure_agrees(r, decode_batch(batch).1),
{
    let ghost base = node_views(out@);
    let ghost slots = window@.slots;
    let ghost mut taken: nat = 0;
    assert(batch.skip(0) =~= batch);
    assert(base + GroupModel::empty() =~= base);
    loop
        invariant
            window.wf(),
            window@.capacity == old(window)@.capacity,
            taken <= batch.len(),
            base == node_views(old(out)@),
            slots.len() == batch.len(),
            window@.slots == slots.skip(taken as int),
            forall|i: int|
                0 <= i < batch.len() ==> ((#[trigger] slots[i]) matches Some(d) && decoded_agrees(
                    d,
                    decode_raw(batch[i].0, batch[i].1, batch[i].2),
                )),
            base + decode_batch(batch).0 == node_views(out@) + decode_batch(
                batch.skip(taken as int),
            ).0,
            decode_batch(batch).1 == decode_batch(batch.skip(taken as int)).1,
        decreases batch.len() - taken,
    {
        let ghost done = node_views(out@);
        let ghost rest = batch.skip(taken as int);
        match window.pop_ready() {
            None => {
                assert(taken == batch.len()) by {
                    if taken < batch.len() {
                        assert(window@.slots[0] == slots[taken as int]);
                    }
                }
                assert(rest.len() == 0);
                assert(done + GroupModel::empty() =~= done);
                return None;
            },
            Some(result) => {
                assert(result == slots[taken as int]->0);
                assert(rest.first() == batch[taken as int]);
                assert(rest.drop_first() =~= batch.skip(taken as int + 1));
                assert(slots.skip(taken as int).drop_first() =~= slots.skip(taken as int + 1));
                match result {
                    Err(e) => {
                        assert(done + GroupModel::empty() =~= done);
                        return Some(e);
                    },
                    Ok(node) => {
                        proof {
                            let after = decode_batch(batch.skip(taken as int + 1)).0;
                            assert(done + (seq![(node.cid@, node.node@)] + after) =~= done.push(
                                (node.cid@, node.node@),
                            ) + after);
                        }
                        let ghost added = (node.cid@, node.node@);
                        out.push(node);
                        assert(node_views(out@) =~= done.push(added));
                        proof {
                            taken = taken + 1;
                        }
                    },
                }
            },
        }
    }
}

/// Pulls every node that `reader` has to give through a window of `width`
/// decode jobs. Whatever the width, the nodes are those that decoding the
/// blocks one by one gives, in the same order, and the same failure ends
/// them. With a width of zero the blocks are decoded one by one.
pub fn decode_ordered(reader: &mut NodeReader, width: usize) -> (r: (
    Vec<NodeWithCid>,
    Option<CarError>,
))
    ensures
        node_views(r.0@) == node_stream(old(reader)@).0,
        failure_agrees(r.1, node_stream(old(reader)@).1),
        r.1 is None ==> final(reader)@ == drained_of_nodes(old(reader)@),
        r.1 is Some ==> final(reader)@.done,
{
    let mut window: Window = Window::new(width);
    let mut out: Vec<NodeWithCid> = Vec::new();
    assert(node_views(out@) =~= GroupModel::empty());
    loop
        invariant
            window.wf(),
            window@.slots.len() == 0,
            node_stream(old(reader)@).0 == node_views(out@) + node_stream(reader@).0,
            node_stream(old(reader)@).1 == node_stream(reader@).1,
            drained_of_nodes(old(reader)@) == drained_of_nodes(reader@),
        decreases reader@.pending.len(),
    {
        let ghost m = reader@;
        let ghost done = node_views(out@);
        if !window.has_room() {
            match reader.read_node() {
                Err(e) => {
                    assert(done + GroupModel::empty() =~= done);
                    return (out, Some(e));
                },
                Ok(Read::Node(raw)) => {
                    proof {
                        lemma_node_uses_input(m);
                    }
                    match NodeWithCid::decode(raw) {
                        Err(e) => {
                            reader.abort();
                            assert(done + GroupModel::empty() =~= done);
                            return (out, Some(e));
                        },
                        Ok(node) => {
                            proof {
                                let rest = node_stream(reader@);
                                assert(done + (seq![(node.cid@, node.node@)] + rest.0)
                                    =~= done.push((node.cid@, node.node@)) + rest.0);
                            }
                            let ghost added = (node.cid@, node.node@);
                            out.push(node);
                            assert(node_views(out@) =~= done.push(added));
                        },
                    }
                },
                Ok(_) => {
                    assert(done + GroupModel::empty() =~= done);
                    return (out, None);
                },
            }
        } else {
            let ghost n = room(window@);
            proof {
                lemma_stream_by_batch(m, n);
                lemma_batch_uses_input(m, n);
            }
            let (batch, end): (Vec<Job>, Option<Option<CarError>>) = pull_batch(
                reader,
                &mut window,
            );
            let ghost items = raw_items(batch@);
            run_batch(&mut window, batch);
            let failed: Option<CarError> = drain_batch(&mut window, &mut out, Ghost(items));
            proof {
                let decoded = decode_batch(items);
                let rest = node_stream(reader@);
                assert(done + (decoded.0 + rest.0) =~= (done + decoded.0) + rest.0);
                assert(done + decoded.0 + GroupModel::empty() =~= done + decoded.0);
            }
            match failed {
                Some(e) => {
                    reader.abort();
                    return (out, Some(e));
                },
                None => {
                    proof {
                        lemma_drained_by_batch(m, n);
                    }
                },
            }
            match end {
                Some(ended) => {
                    return (out, ended);
                },
                None => {},
            }
        }
    }
}

/// A batch that fills up has used input, unless it is a batch of nothing.
pub proof fn lemma_batch_uses_input(m: ReaderModel, n: nat)
    ensures
        take_raw(m, n).2 is More && n > 0 ==> take_raw(m, n).1.pending.len() < m.pending.len(),
        take_raw(m, n).2 is More ==> take_raw(m, n).1.pending.len() <= m.pending.len(),
    decreases n,
{
    if n > 0 {
        match m.step() {
            (Outcome::Node { cid, payload, offset }, after) => {
                lemma_node_uses_input(m);
                lemma_batch_uses_input(after, (n - 1) as nat);
            },
            _ => {},
        }
    }
}

} // verus!
