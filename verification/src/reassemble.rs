//! Reassembly of payloads that are spread over data frames. The frames of a
//! chain are visited depth first: a frame, then the chains of the frames it
//! names as next, in the order in which it names them. Each frame gives its
//! data once, where it is first reached. A frame that is reached again while
//! its own chain is still being walked closes a cycle.

use crate::cbor::cid_views;
use crate::cid::Cid;
use crate::error::{CarError, ErrorKind, ErrorModel};
use crate::frame::append_bytes;
use crate::group::{lookup, position, GroupModel, Nodes};
use crate::node::{Node, NodeModel, Ref, RefModel};
use vstd::prelude::*;
use vstd::slice::slice_to_vec;

verus! {

/// How far the walk has come with a node of the group.
#[derive(Clone, Copy, Debug, PartialEq, Eq, Structural)]
pub enum Mark {
    /// Not reached yet.
    Fresh,
    /// Reached, and the frames after it are still being walked.
    Open,
    /// Reached and left again.
    Done,
}

/// One thing that is left to do in a walk.
pub enum TaskModel {
    /// Visit the frame with this identifier.
    Enter(Seq<u8>),
    /// The chain of the frame at this index has been walked.
    Leave(int),
}

/// A walk under way. Tasks are taken from the end of `tasks`; `order` lists
/// the indices of the frames reached so far.
pub struct Walk {
    pub tasks: Seq<TaskModel>,
    pub marks: Seq<Mark>,
    pub order: Seq<int>,
}

/// The tasks that visit `cids` one after the other, the first of them last
/// in the sequence.
pub open spec fn enter_all(cids: Seq<Seq<u8>>) -> Seq<TaskModel> {
    Seq::new(cids.len(), |k: int| TaskModel::Enter(cids[cids.len() - 1 - k]))
}

/// Count of nodes that are still fresh.
pub open spec fn fresh_count(marks: Seq<Mark>) -> nat
    decreases marks.len(),
{
    if marks.len() == 0 {
        0
    } else {
        fresh_count(marks.drop_last()) + if marks.last() == Mark::Fresh {
            1nat
        } else {
            0nat
        }
    }
}

/// Marking a node as reached takes it out of the fresh ones if it was one,
/// and changes nothing else.
pub proof fn lemma_fresh_count_update(marks: Seq<Mark>, i: int, m: Mark)
    requires
        0 <= i < marks.len(),
        m != Mark::Fresh,
    ensures
        fresh_count(marks.update(i, m)) + (if marks[i] == Mark::Fresh {
            1nat
        } else {
            0nat
        }) == fresh_count(marks),
    decreases marks.len(),
{
    let after = marks.update(i, m);
    if i == marks.len() - 1 {
        assert(after.drop_last() =~= marks.drop_last());
    } else {
        lemma_fresh_count_update(marks.drop_last(), i, m);
        assert(after.drop_last() =~= marks.drop_last().update(i, m));
    }
}

/// Carries a walk through to its end and gives the indices of the frames
/// in the order in which they were reached. It stops at the first
/// identifier that the group does not hold (`MissingRef`), that names a node
/// of another kind (`NotADataFrame`), or that names a frame whose chain is
/// still open (`CyclicChain`). A frame that was reached and left before is
/// passed over.
pub open spec fn walk(g: GroupModel, w: Walk) -> Result<Seq<int>, ErrorKind>
    decreases fresh_count(w.marks), w.tasks.len(),
    when w.marks.len() == g.len()
{
    if w.tasks.len() == 0 {
        Ok(w.order)
    } else {
        let rest = w.tasks.drop_last();
        match w.tasks.last() {
            TaskModel::Leave(i) => if 0 <= i < w.marks.len() {
                proof {
                    lemma_fresh_count_update(w.marks, i, Mark::Done);
                }
                walk(g, Walk { tasks: rest, marks: w.marks.update(i, Mark::Done), order: w.order })
            } else {
                walk(g, Walk { tasks: rest, marks: w.marks, order: w.order })
            },
            TaskModel::Enter(cid) => match lookup(g, cid) {
                None => Err(ErrorKind::MissingRef),
                Some(NodeModel::DataFrame { next, .. }) => {
                    let i = position(g, cid);
                    match w.marks[i] {
                        Mark::Open => Err(ErrorKind::CyclicChain),
                        Mark::Done => walk(g, Walk { tasks: rest, marks: w.marks, order: w.order }),
                        Mark::Fresh => {
                            proof {
                                lemma_fresh_count_update(w.marks, i, Mark::Open);
                            }
                            walk(
                                g,
                                Walk {
                                    tasks: rest.push(TaskModel::Leave(i)) + enter_all(next),
                                    marks: w.marks.update(i, Mark::Open),
                                    order: w.order.push(i),
                                },
                            )
                        },
                    }
                },
                Some(_) => Err(ErrorKind::NotADataFrame),
            },
        }
    }
}

/// No index occurs twice in `order`, and each is the index of a data frame
/// of `g`.
pub open spec fn frames_once(g: GroupModel, order: Seq<int>) -> bool {
    &&& forall|k: int|
        0 <= k < order.len() ==> 0 <= (#[trigger] order[k]) < g.len() && g[order[k]].1 is DataFrame
    &&& forall|j: int, k: int| 0 <= j < k < order.len() ==> order[j] != order[k]
}

/// A walk reaches no frame twice: when the frames reached so far are
/// distinct and none of them is marked fresh, the frames reached in the end
/// are distinct data frames of the group.
pub proof fn lemma_walk_reaches_frames_once(g: GroupModel, w: Walk)
    requires
        w.marks.len() == g.len(),
        frames_once(g, w.order),
        forall|k: int| 0 <= k < w.order.len() ==> w.marks[#[trigger] w.order[k]] != Mark::Fresh,
    ensures
        walk(g, w) matches Ok(order) ==> frames_once(g, order),
    decreases fresh_count(w.marks), w.tasks.len(),
{
    if w.tasks.len() > 0 {
        let rest = w.tasks.drop_last();
        match w.tasks.last() {
            TaskModel::Leave(i) => {
                if 0 <= i < w.marks.len() {
                    lemma_fresh_count_update(w.marks, i, Mark::Done);
                    lemma_walk_reaches_frames_once(
                        g,
                        Walk { tasks: rest, marks: w.marks.update(i, Mark::Done), order: w.order },
                    );
                } else {
                    lemma_walk_reaches_frames_once(
                        g,
                        Walk { tasks: rest, marks: w.marks, order: w.order },
                    );
                }
            },
            TaskModel::Enter(cid) => {
                match lookup(g, cid) {
                    Some(NodeModel::DataFrame { next, .. }) => {
                        let i = position(g, cid);
                        match w.marks[i] {
                            Mark::Open => {},
                            Mark::Done => {
                                lemma_walk_reaches_frames_once(
                                    g,
                                    Walk { tasks: rest, marks: w.marks, order: w.order },
                                );
                            },
                            Mark::Fresh => {
                                lemma_fresh_count_update(w.marks, i, Mark::Open);
                                let after = Walk {
                                    tasks: rest.push(TaskModel::Leave(i)) + enter_all(next),
                                    marks: w.marks.update(i, Mark::Open),
                                    order: w.order.push(i),
                                };
                                assert forall|j: int, k: int|
                                    0 <= j < k < after.order.len() implies after.order[j]
                                    != after.order[k] by {
                                    if k == w.order.len() {
                                        assert(w.marks[w.order[j]] != Mark::Fresh);
                                    }
                                }
                                lemma_walk_reaches_frames_once(g, after);
                            },
                        }
                    },
                    _ => {},
                }
            },
        }
    }
}

/// The frames that the chains from `cids` reach, by index, in the order of
/// the walk.
pub open spec fn chain_order(g: GroupModel, cids: Seq<Seq<u8>>) -> Result<Seq<int>, ErrorKind> {
    walk(
        g,
        Walk {
            tasks: enter_all(cids),
            marks: Seq::new(g.len(), |i: int| Mark::Fresh),
            order: Seq::empty(),
        },
    )
}

/// The count of frames that the frame at index `i` says its payload has.
pub open spec fn frame_total(g: GroupModel, i: int) -> int {
    match g[i].1 {
        NodeModel::DataFrame { total, .. } => total as int,
        _ => 0,
    }
}

/// The data of the frame at index `i`.
pub open spec fn frame_data(g: GroupModel, i: int) -> Seq<u8> {
    match g[i].1 {
        NodeModel::DataFrame { data, .. } => data,
        _ => Seq::empty(),
    }
}

/// Every frame of `order` says that there are as many frames as `order`
/// has.
pub open spec fn totals_agree(g: GroupModel, order: Seq<int>) -> bool {
    forall|k: int| 0 <= k < order.len() ==> frame_total(g, #[trigger] order[k]) == order.len()
}

/// The data of the frames of `order`, one after the other.
pub open spec fn joined(g: GroupModel, order: Seq<int>) -> Seq<u8>
    decreases order.len(),
{
    if order.len() == 0 {
        Seq::empty()
    } else {
        joined(g, order.drop_last()) + frame_data(g, order.last())
    }
}

/// The lengths of the data of the frames of `order`, added up.
pub open spec fn data_len_sum(g: GroupModel, order: Seq<int>) -> nat
    decreases order.len(),
{
    if order.len() == 0 {
        0
    } else {
        data_len_sum(g, order.drop_last()) + frame_data(g, order.last()).len()
    }
}

/// The payload behind a list of identifiers: the data of the frames that
/// the walk reaches, in its order, provided that every one of them gives the
/// count of frames reached as its total.
pub open spec fn reassemble_chain(g: GroupModel, cids: Seq<Seq<u8>>) -> Result<Seq<u8>, ErrorKind> {
    match chain_order(g, cids) {
        Err(e) => Err(e),
        Ok(order) => if totals_agree(g, order) {
            Ok(joined(g, order))
        } else {
            Err(ErrorKind::InconsistentChain)
        },
    }
}

/// The payload behind a ref.
pub open spec fn reassembled(g: GroupModel, r: RefModel) -> Result<Seq<u8>, ErrorKind> {
    match r {
        RefModel::Inline(bytes) => Ok(bytes),
        RefModel::Chain(cids) => reassemble_chain(g, cids),
    }
}

/// A reassembled payload is as long as the data of the frames of its chain
/// together.
pub proof fn lemma_joined_len(g: GroupModel, order: Seq<int>)
    ensures
        joined(g, order).len() == data_len_sum(g, order),
    decreases order.len(),
{
    if order.len() > 0 {
        lemma_joined_len(g, order.drop_last());
    }
}

/// Reassembly completeness. Where a chain reassembles, its frames are
/// distinct data frames of the group, the payload is as long as their data
/// together, and the count of the frames is the total that each of them
/// carries.
pub proof fn lemma_reassembly_complete(g: GroupModel, cids: Seq<Seq<u8>>)
    requires
        reassemble_chain(g, cids) is Ok,
    ensures
        chain_order(g, cids) is Ok,
        frames_once(g, chain_order(g, cids)->Ok_0),
        reassemble_chain(g, cids)->Ok_0.len() == data_len_sum(g, chain_order(g, cids)->Ok_0),
        forall|k: int|
            0 <= k < chain_order(g, cids)->Ok_0.len() ==> frame_total(
                g,
                #[trigger] chain_order(g, cids)->Ok_0[k],
            ) == chain_order(g, cids)->Ok_0.len(),
{
    lemma_joined_len(g, chain_order(g, cids)->Ok_0);
    lemma_walk_reaches_frames_once(
        g,
        Walk {
            tasks: enter_all(cids),
            marks: Seq::new(g.len(), |i: int| Mark::Fresh),
            order: Seq::empty(),
        },
    );
}

enum Task {
    Enter(Cid),
    Leave(usize),
}

impl View for Task {
    type V = TaskModel;

    closed spec fn view(&self) -> TaskModel {
        match self {
            Task::Enter(cid) => TaskModel::Enter(cid@),
            Task::Leave(i) => TaskModel::Leave(*i as int),
        }
    }
}

spec fn task_views(tasks: Seq<Task>) -> Seq<TaskModel> {
    Seq::new(tasks.len(), |k: int| tasks[k]@)
}

/// The indices of `order` as mathematical integers.
pub open spec fn as_ints(order: Seq<usize>) -> Seq<int> {
    Seq::new(order.len(), |k: int| order[k] as int)
}

fn push_enters(tasks: &mut Vec<Task>, cids: &Vec<Cid>)
    ensures
        task_views(final(tasks)@) == task_views(old(tasks)@) + enter_all(cid_views(cids@)),
{
    let n: usize = cids.len();
    let mut k: usize = n;
    let ghost base = task_views(tasks@);
    let ghost all = enter_all(cid_views(cids@));
    assert(task_views(tasks@) =~= base + all.take(0));
    while k > 0
        invariant
            k <= n,
            n == cids@.len(),
            all == enter_all(cid_views(cids@)),
            task_views(tasks@) == base + all.take(n - k),
        decreases k,
    {
        k = k - 1;
        let ghost before = task_views(tasks@);
        tasks.push(Task::Enter(cids[k].clone()));
        assert(task_views(tasks@) =~= before.push(TaskModel::Enter(cids@[k as int]@)));
        assert(all[n - 1 - k] == TaskModel::Enter(cids@[k as int]@));
        assert(all.take(n - k) =~= all.take(n - k - 1).push(all[n - 1 - k]));
    }
    assert(all.take(n as int) =~= all);
}

fn fresh_marks(n: usize) -> (marks: Vec<Mark>)
    ensures
        marks@ == Seq::new(n as nat, |i: int| Mark::Fresh),
{
    let mut marks: Vec<Mark> = Vec::new();
    let mut i: usize = 0;
    while i < n
        invariant
            i <= n,
            marks@ == Seq::new(i as nat, |j: int| Mark::Fresh),
        decreases n - i,
    {
        marks.push(Mark::Fresh);
        i = i + 1;
        assert(marks@ =~= Seq::new(i as nat, |j: int| Mark::Fresh));
    }
    marks
}

impl Nodes {
    /// Walks the chains that start at `cids` and lists the frames reached.
    fn walk_chains(&self, cids: &Vec<Cid>) -> (r: Result<Vec<usize>, ErrorKind>)
        requires
            self.wf(),
        ensures
            match chain_order(self@, cid_views(cids@)) {
                Ok(order) => r matches Ok(v) && as_ints(v@) == order && forall|k: int|
                    0 <= k < v@.len() ==> (#[trigger] v@[k]) < self@.len(),
                Err(e) => r matches Err(k) && k == e,
            },
    {
        let mut marks: Vec<Mark> = fresh_marks(self.len());
        let mut tasks: Vec<Task> = Vec::new();
        let mut order: Vec<usize> = Vec::new();
        assert(task_views(tasks@) =~= Seq::<TaskModel>::empty());
        push_enters(&mut tasks, cids);
        assert(Seq::<TaskModel>::empty() + enter_all(cid_views(cids@)) =~= enter_all(
            cid_views(cids@),
        ));
        assert(as_ints(order@) =~= Seq::<int>::empty());
        loop
            invariant
                self.wf(),
                marks@.len() == self@.len(),
                forall|k: int| 0 <= k < order@.len() ==> (#[trigger] order@[k]) < self@.len(),
                walk(
                    self@,
                    Walk { tasks: task_views(tasks@), marks: marks@, order: as_ints(order@) },
                ) == chain_order(self@, cid_views(cids@)),
            decreases fresh_count(marks@), tasks@.len(),
        {
            let ghost before = task_views(tasks@);
            let task: Task = match tasks.pop() {
                None => {
                    return Ok(order);
                },
                Some(task) => task,
            };
            assert(task_views(tasks@) =~= before.drop_last());
            assert(before.last() == task@);
            match task {
                Task::Leave(i) => {
                    if i < marks.len() {
                        proof {
                            lemma_fresh_count_update(marks@, i as int, Mark::Done);
                        }
                        marks.set(i, Mark::Done);
                    }
                },
                Task::Enter(cid) => {
                    let i: usize = match self.find(&cid) {
                        None => {
                            return Err(ErrorKind::MissingRef);
                        },
                        Some(i) => i,
                    };
                    let entry = match self.entry(i) {
                        None => {
                            return Err(ErrorKind::MissingRef);
                        },
                        Some(entry) => entry,
                    };
                    match &entry.node {
                        Node::DataFrame(frame) => {
                            match marks[i] {
                                Mark::Open => {
                                    return Err(ErrorKind::CyclicChain);
                                },
                                Mark::Done => {},
                                Mark::Fresh => {
                                    proof {
                                        lemma_fresh_count_update(marks@, i as int, Mark::Open);
                                    }
                                    let ghost old_order = as_ints(order@);
                                    let ghost rest = task_views(tasks@);
                                    marks.set(i, Mark::Open);
                                    order.push(i);
                                    tasks.push(Task::Leave(i));
                                    assert(task_views(tasks@) =~= rest.push(
                                        TaskModel::Leave(i as int),
                                    ));
                                    push_enters(&mut tasks, &frame.next);
                                    assert(as_ints(order@) =~= old_order.push(i as int));
                                },
                            }
                        },
                        _ => {
                            return Err(ErrorKind::NotADataFrame);
                        },
                    }
                },
            }
        }
    }

    /// The payload behind `r`: its own bytes where it holds them, and else
    /// the data of the frames that its identifiers lead to.
    pub fn reassemble(&self, r: &Ref) -> (res: Result<Vec<u8>, CarError>)
        requires
            self.wf(),
        ensures
            match reassembled(self@, r@) {
                Ok(bytes) => res matches Ok(v) && v@ == bytes,
                Err(kind) => res matches Err(e) && e@ == ErrorModel::bare(kind),
            },
    {
        match r {
            Ref::Inline(bytes) => Ok(slice_to_vec(bytes.as_slice())),
            Ref::Chain(cids) => {
                let order: Vec<usize> = match self.walk_chains(cids) {
                    Err(kind) => {
                        return Err(CarError::bare(kind));
                    },
                    Ok(order) => order,
                };
                let count: usize = order.len();
                let mut out: Vec<u8> = Vec::new();
                let mut k: usize = 0;
                assert(as_ints(order@).take(0) =~= Seq::<int>::empty());
                while k < count
                    invariant
                        k <= count,
                        count == order@.len(),
                        self.wf(),
                        forall|j: int| 0 <= j < order@.len() ==> (#[trigger] order@[j]) < self@.len(),
                        as_ints(order@) == chain_order(self@, cid_views(cids@))->Ok_0,
                        chain_order(self@, cid_views(cids@)) is Ok,
                        r@ == RefModel::Chain(cid_views(cids@)),
                        forall|j: int|
                            0 <= j < k ==> frame_total(self@, #[trigger] as_ints(order@)[j])
                                == count,
                        out@ == joined(self@, as_ints(order@).take(k as int)),
                    decreases count - k,
                {
                    let i: usize = order[k];
                    assert(as_ints(order@)[k as int] == i);
                    let ghost prefix = as_ints(order@).take(k as int);
                    let ghost longer = as_ints(order@).take(k + 1);
                    assert(longer.drop_last() =~= prefix);
                    assert(longer.last() == i);
                    match self.entry(i) {
                        Some(entry) => match &entry.node {
                            Node::DataFrame(frame) => {
                                if frame.total as usize != count {
                                    proof {
                                        assert(frame_total(self@, as_ints(order@)[k as int])
                                            != as_ints(order@).len());
                                    }
                                    return Err(CarError::bare(ErrorKind::InconsistentChain));
                                }
                                append_bytes(&mut out, frame.data.as_slice());
                            },
                            _ => {
                                if count != 0 {
                                    proof {
                                        assert(frame_total(self@, as_ints(order@)[k as int])
                                            != as_ints(order@).len());
                                    }
                                    return Err(CarError::bare(ErrorKind::InconsistentChain));
                                }
                            },
                        },
                        None => {},
                    }
                    k = k + 1;
                }
                assert(as_ints(order@).take(count as int) =~= as_ints(order@));
                Ok(out)
            },
        }
    }
}

} // verus!
