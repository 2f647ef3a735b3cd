//! The seven kinds of ledger node and how a block's payload decodes into
//! one. A payload is a CBOR array: the kind tag, then the fields of that
//! kind in a fixed order.
//!
//! | kind | tag | fields after the tag |
//! |---|---|---|
//! | Transaction | 0 | data: bytes, metadata: ref, slot: uint, index: uint or null |
//! | Entry | 1 | index: uint, num_hashes: uint, hash: bytes |
//! | Block | 2 | slot: uint, meta: [parent_slot, blocktime, block_height or null], entries: [link..], rewards: [link..] |
//! | Subset | 3 | first: uint, last: uint, blocks: [link..] |
//! | Epoch | 4 | epoch: uint, subsets: [link..] |
//! | Rewards | 5 | slot: uint, data: ref |
//! | DataFrame | 6 | index: uint, total: uint, data: bytes, then nothing, null or next: [link..] |
//!
//! A ref is a byte string (the payload itself) or an array of at least one
//! link to data frames.

use crate::cbor::{
    array_at, bytes_at, cbor_head, cid_views, link_list_at, links_from, opt_link_list_at,
    opt_uint_at, read_array, read_bytes, read_head, read_link_list, read_opt_link_list,
    read_opt_uint, read_string_body, read_u32, read_uint, string_body, u32_at, uint_at, Head,
    MAJOR_ARRAY, MAJOR_BYTES, MAJOR_UINT,
};
use crate::cid::Cid;
use crate::error::{CarError, ErrorKind, ErrorModel};
use vstd::prelude::*;
use vstd::slice::{slice_subrange, slice_to_vec};

verus! {

/// The kind of a node.
#[derive(Clone, Copy, Debug, PartialEq, Eq, Hash, Structural)]
pub enum Kind {
    Transaction,
    Entry,
    Block,
    Subset,
    Epoch,
    Rewards,
    DataFrame,
}

impl Kind {
    /// The tag that stands for a kind on the wire.
    pub open spec fn tag(self) -> u64 {
        match self {
            Kind::Transaction => 0,
            Kind::Entry => 1,
            Kind::Block => 2,
            Kind::Subset => 3,
            Kind::Epoch => 4,
            Kind::Rewards => 5,
            Kind::DataFrame => 6,
        }
    }

    /// The kind that a tag stands for.
    pub fn from_u64(tag: u64) -> (r: Option<Kind>)
        ensures
            tag <= 6 <==> r is Some,
            r matches Some(k) ==> k.tag() == tag,
    {
        if tag == 0 {
            Some(Kind::Transaction)
        } else if tag == 1 {
            Some(Kind::Entry)
        } else if tag == 2 {
            Some(Kind::Block)
        } else if tag == 3 {
            Some(Kind::Subset)
        } else if tag == 4 {
            Some(Kind::Epoch)
        } else if tag == 5 {
            Some(Kind::Rewards)
        } else if tag == 6 {
            Some(Kind::DataFrame)
        } else {
            None
        }
    }

    /// The tag of this kind.
    pub fn to_u64(&self) -> (r: u64)
        ensures
            r == self.tag(),
    {
        match self {
            Kind::Transaction => 0,
            Kind::Entry => 1,
            Kind::Block => 2,
            Kind::Subset => 3,
            Kind::Epoch => 4,
            Kind::Rewards => 5,
            Kind::DataFrame => 6,
        }
    }
}

/// A payload that is either held in place or spread over data frames.
#[derive(Clone, Debug, PartialEq, Eq)]
pub enum Ref {
    /// The payload itself.
    Inline(Vec<u8>),
    /// Identifiers of the data frames that hold the payload, at least one.
    Chain(Vec<Cid>),
}

#[derive(Clone, Debug, PartialEq, Eq)]
pub struct Transaction {
    pub data: Vec<u8>,
    pub metadata: Ref,
    pub slot: u64,
    pub index: Option<u64>,
}

#[derive(Clone, Debug, PartialEq, Eq)]
pub struct Entry {
    pub index: u64,
    pub num_hashes: u64,
    pub hash: Vec<u8>,
}

#[derive(Clone, Copy, Debug, PartialEq, Eq, Structural)]
pub struct SlotMeta {
    pub parent_slot: u64,
    pub blocktime: u64,
    pub block_height: Option<u64>,
}

#[derive(Clone, Debug, PartialEq, Eq)]
pub struct Block {
    pub slot: u64,
    pub meta: SlotMeta,
    pub entries: Vec<Cid>,
    pub rewards: Vec<Cid>,
}

#[derive(Clone, Debug, PartialEq, Eq)]
pub struct Subset {
    pub first: u64,
    pub last: u64,
    pub blocks: Vec<Cid>,
}

#[derive(Clone, Debug, PartialEq, Eq)]
pub struct Epoch {
    pub epoch: u64,
    pub subsets: Vec<Cid>,
}

#[derive(Clone, Debug, PartialEq, Eq)]
pub struct Rewards {
    pub slot: u64,
    pub data: Ref,
}

#[derive(Clone, Debug, PartialEq, Eq)]
pub struct DataFrame {
    pub index: u32,
    pub total: u32,
    pub data: Vec<u8>,
    pub next: Vec<Cid>,
}

/// A decoded node.
#[derive(Clone, Debug, PartialEq, Eq)]
pub enum Node {
    Transaction(Transaction),
    Entry(Entry),
    Block(Block),
    Subset(Subset),
    Epoch(Epoch),
    Rewards(Rewards),
    DataFrame(DataFrame),
}

/// What a `Ref` stands for: bytes, or the bytes of each identifier.
pub enum RefModel {
    Inline(Seq<u8>),
    Chain(Seq<Seq<u8>>),
}

/// What a `Node` stands for, with every identifier as its bytes.
#[allow(inconsistent_fields)]
pub enum NodeModel {
    Transaction { data: Seq<u8>, metadata: RefModel, slot: u64, index: Option<u64> },
    Entry { index: u64, num_hashes: u64, hash: Seq<u8> },
    Block { slot: u64, meta: SlotMeta, entries: Seq<Seq<u8>>, rewards: Seq<Seq<u8>> },
    Subset { first: u64, last: u64, blocks: Seq<Seq<u8>> },
    Epoch { epoch: u64, subsets: Seq<Seq<u8>> },
    Rewards { slot: u64, data: RefModel },
    DataFrame { index: u32, total: u32, data: Seq<u8>, next: Seq<Seq<u8>> },
}

impl NodeModel {
    pub open spec fn kind(self) -> Kind {
        match self {
            NodeModel::Transaction { .. } => Kind::Transaction,
            NodeModel::Entry { .. } => Kind::Entry,
            NodeModel::Block { .. } => Kind::Block,
            NodeModel::Subset { .. } => Kind::Subset,
            NodeModel::Epoch { .. } => Kind::Epoch,
            NodeModel::Rewards { .. } => Kind::Rewards,
            NodeModel::DataFrame { .. } => Kind::DataFrame,
        }
    }
}

impl View for Ref {
    type V = RefModel;

    open spec fn view(&self) -> RefModel {
        match self {
            Ref::Inline(bytes) => RefModel::Inline(bytes@),
            Ref::Chain(cids) => RefModel::Chain(cid_views(cids@)),
        }
    }
}

impl View for Node {
    type V = NodeModel;

    open spec fn view(&self) -> NodeModel {
        match self {
            Node::Transaction(t) => NodeModel::Transaction {
                data: t.data@,
                metadata: t.metadata@,
                slot: t.slot,
                index: t.index,
            },
            Node::Entry(e) => NodeModel::Entry {
                index: e.index,
                num_hashes: e.num_hashes,
                hash: e.hash@,
            },
            Node::Block(b) => NodeModel::Block {
                slot: b.slot,
                meta: b.meta,
                entries: cid_views(b.entries@),
                rewards: cid_views(b.rewards@),
            },
            Node::Subset(s) => NodeModel::Subset {
                first: s.first,
                last: s.last,
                blocks: cid_views(s.blocks@),
            },
            Node::Epoch(e) => NodeModel::Epoch { epoch: e.epoch, subsets: cid_views(e.subsets@) },
            Node::Rewards(r) => NodeModel::Rewards { slot: r.slot, data: r.data@ },
            Node::DataFrame(f) => NodeModel::DataFrame {
                index: f.index,
                total: f.total,
                data: f.data@,
                next: cid_views(f.next@),
            },
        }
    }
}

impl Node {
    /// The kind of this node.
    pub fn kind(&self) -> (r: Kind)
        ensures
            r == self@.kind(),
    {
        match self {
            Node::Transaction(_) => Kind::Transaction,
            Node::Entry(_) => Kind::Entry,
            Node::Block(_) => Kind::Block,
            Node::Subset(_) => Kind::Subset,
            Node::Epoch(_) => Kind::Epoch,
            Node::Rewards(_) => Kind::Rewards,
            Node::DataFrame(_) => Kind::DataFrame,
        }
    }
}

/// A ref at `pos`: a byte string, or an array of one or more links.
pub open spec fn ref_at(s: Seq<u8>, pos: int) -> Result<(RefModel, int), ErrorKind> {
    match cbor_head(s, pos) {
        None => Err(ErrorKind::Cbor),
        Some(h) => if h.major == MAJOR_BYTES {
            match string_body(s, pos, h) {
                Err(e) => Err(e),
                Ok((body, next)) => Ok((RefModel::Inline(body), next)),
            }
        } else if h.major == MAJOR_ARRAY && h.arg >= 1 {
            match links_from(s, pos + h.len, h.arg as nat) {
                Err(e) => Err(e),
                Ok((cids, next)) => Ok((RefModel::Chain(cids), next)),
            }
        } else {
            Err(ErrorKind::MalformedNode)
        },
    }
}

/// The array of a block's metadata at `pos`: parent slot, block time and
/// block height, the last of which may be null.
pub open spec fn slot_meta_at(s: Seq<u8>, pos: int) -> Result<(SlotMeta, int), ErrorKind> {
    match array_at(s, pos) {
        Err(e) => Err(e),
        Ok((count, start)) => if count != 3 {
            Err(ErrorKind::MalformedNode)
        } else {
            match uint_at(s, start) {
                Err(e) => Err(e),
                Ok((parent_slot, after1)) => match uint_at(s, after1) {
                    Err(e) => Err(e),
                    Ok((blocktime, after2)) => match opt_uint_at(s, after2) {
                        Err(e) => Err(e),
                        Ok((block_height, after3)) => Ok(
                            (SlotMeta { parent_slot, blocktime, block_height }, after3),
                        ),
                    },
                },
            }
        },
    }
}

/// A node whose last field ends at `pos` is complete if the payload ends
/// there too.
pub open spec fn end_of_node(s: Seq<u8>, pos: int, node: NodeModel) -> Result<NodeModel, ErrorKind> {
    if pos == s.len() {
        Ok(node)
    } else {
        Err(ErrorKind::Cbor)
    }
}

pub open spec fn transaction_fields(s: Seq<u8>, pos: int) -> Result<NodeModel, ErrorKind> {
    match bytes_at(s, pos) {
        Err(e) => Err(e),
        Ok((data, after1)) => match ref_at(s, after1) {
            Err(e) => Err(e),
            Ok((metadata, after2)) => match uint_at(s, after2) {
                Err(e) => Err(e),
                Ok((slot, after3)) => match opt_uint_at(s, after3) {
                    Err(e) => Err(e),
                    Ok((index, after4)) => end_of_node(
                        s,
                        after4,
                        NodeModel::Transaction { data, metadata, slot, index },
                    ),
                },
            },
        },
    }
}

pub open spec fn entry_fields(s: Seq<u8>, pos: int) -> Result<NodeModel, ErrorKind> {
    match uint_at(s, pos) {
        Err(e) => Err(e),
        Ok((index, after1)) => match uint_at(s, after1) {
            Err(e) => Err(e),
            Ok((num_hashes, after2)) => match bytes_at(s, after2) {
                Err(e) => Err(e),
                Ok((hash, after3)) => end_of_node(s, after3, NodeModel::Entry { index, num_hashes, hash }),
            },
        },
    }
}

pub open spec fn block_fields(s: Seq<u8>, pos: int) -> Result<NodeModel, ErrorKind> {
    match uint_at(s, pos) {
        Err(e) => Err(e),
        Ok((slot, after1)) => match slot_meta_at(s, after1) {
            Err(e) => Err(e),
            Ok((meta, after2)) => match link_list_at(s, after2) {
                Err(e) => Err(e),
                Ok((entries, after3)) => match link_list_at(s, after3) {
                    Err(e) => Err(e),
                    Ok((rewards, after4)) => end_of_node(
                        s,
                        after4,
                        NodeModel::Block { slot, meta, entries, rewards },
                    ),
                },
            },
        },
    }
}

pub open spec fn subset_fields(s: Seq<u8>, pos: int) -> Result<NodeModel, ErrorKind> {
    match uint_at(s, pos) {
        Err(e) => Err(e),
        Ok((first, after1)) => match uint_at(s, after1) {
            Err(e) => Err(e),
            Ok((last, after2)) => match link_list_at(s, after2) {
                Err(e) => Err(e),
                Ok((blocks, after3)) => end_of_node(s, after3, NodeModel::Subset { first, last, blocks }),
            },
        },
    }
}

pub open spec fn epoch_fields(s: Seq<u8>, pos: int) -> Result<NodeModel, ErrorKind> {
    match uint_at(s, pos) {
        Err(e) => Err(e),
        Ok((epoch, after1)) => match link_list_at(s, after1) {
            Err(e) => Err(e),
            Ok((subsets, after2)) => end_of_node(s, after2, NodeModel::Epoch { epoch, subsets }),
        },
    }
}

pub open spec fn rewards_fields(s: Seq<u8>, pos: int) -> Result<NodeModel, ErrorKind> {
    match uint_at(s, pos) {
        Err(e) => Err(e),
        Ok((slot, after1)) => match ref_at(s, after1) {
            Err(e) => Err(e),
            Ok((data, after2)) => end_of_node(s, after2, NodeModel::Rewards { slot, data }),
        },
    }
}

/// The fields of a data frame. With `with_next` unset the array has no item
/// for the next frames, which is the same as an empty list.
pub open spec fn dataframe_fields(s: Seq<u8>, pos: int, with_next: bool) -> Result<
    NodeModel,
    ErrorKind,
> {
    match u32_at(s, pos) {
        Err(e) => Err(e),
        Ok((index, after1)) => match u32_at(s, after1) {
            Err(e) => Err(e),
            Ok((total, after2)) => match bytes_at(s, after2) {
                Err(e) => Err(e),
                Ok((data, after3)) => if with_next {
                    match opt_link_list_at(s, after3) {
                        Err(e) => Err(e),
                        Ok((next, after4)) => end_of_node(
                            s,
                            after4,
                            NodeModel::DataFrame { index, total, data, next },
                        ),
                    }
                } else {
                    end_of_node(
                        s,
                        after3,
                        NodeModel::DataFrame { index, total, data, next: Seq::empty() },
                    )
                },
            },
        },
    }
}

/// The fields of a node of kind `tag` in an array of `count` items, the tag
/// among them. An array of another length than the kind's is refused.
pub open spec fn node_fields(s: Seq<u8>, tag: u64, count: u64, pos: int) -> Result<
    NodeModel,
    ErrorKind,
> {
    if tag == 0 {
        if count == 5 {
            transaction_fields(s, pos)
        } else {
            Err(ErrorKind::MalformedNode)
        }
    } else if tag == 1 {
        if count == 4 {
            entry_fields(s, pos)
        } else {
            Err(ErrorKind::MalformedNode)
        }
    } else if tag == 2 {
        if count == 5 {
            block_fields(s, pos)
        } else {
            Err(ErrorKind::MalformedNode)
        }
    } else if tag == 3 {
        if count == 4 {
            subset_fields(s, pos)
        } else {
            Err(ErrorKind::MalformedNode)
        }
    } else if tag == 4 {
        if count == 3 {
            epoch_fields(s, pos)
        } else {
            Err(ErrorKind::MalformedNode)
        }
    } else if tag == 5 {
        if count == 3 {
            rewards_fields(s, pos)
        } else {
            Err(ErrorKind::MalformedNode)
        }
    } else if tag == 6 {
        if count == 4 || count == 5 {
            dataframe_fields(s, pos, count == 5)
        } else {
            Err(ErrorKind::MalformedNode)
        }
    } else {
        Err(ErrorKind::UnknownKind)
    }
}

/// The node that a payload holds. The payload has to be an array that starts
/// with an unsigned integer from 0 to 6, else its kind is unknown. Items are
/// read in order and the first that fails decides the error: `Cbor` where
/// the bytes are no item or end too early or go on after the node,
/// `MalformedNode` where an item is of the wrong type or out of range or the
/// array of the wrong length, `InvalidCid` where a link holds no identifier.
#[verifier::opaque]
pub open spec fn decode_payload(s: Seq<u8>) -> Result<NodeModel, ErrorKind> {
    match cbor_head(s, 0) {
        None => Err(ErrorKind::Cbor),
        Some(h) => if h.major != MAJOR_ARRAY || h.arg == 0 {
            Err(ErrorKind::UnknownKind)
        } else {
            match cbor_head(s, h.len as int) {
                None => Err(ErrorKind::Cbor),
                Some(k) => if k.major != MAJOR_UINT {
                    Err(ErrorKind::UnknownKind)
                } else {
                    node_fields(s, k.arg, h.arg, h.len + k.len)
                },
            }
        },
    }
}

/// Whether a decoder's result is the one that the payload stands for.
pub open spec fn node_agrees(r: Result<Node, ErrorKind>, model: Result<NodeModel, ErrorKind>) -> bool {
    match model {
        Ok(m) => r matches Ok(node) && node@ == m,
        Err(e) => r == Err::<Node, ErrorKind>(e),
    }
}

fn read_ref(buf: &[u8], pos: usize) -> (r: Result<(Ref, usize), ErrorKind>)
    ensures
        match ref_at(buf@, pos as int) {
            Ok((m, next)) => r matches Ok((v, p)) && v@ == m && p == next && pos < next
                <= buf.len(),
            Err(e) => r == Err::<(Ref, usize), ErrorKind>(e),
        },
{
    match read_head(buf, pos) {
        None => Err(ErrorKind::Cbor),
        Some(h) => if h.major == MAJOR_BYTES {
            let (start, end): (usize, usize) = read_string_body(buf, pos, h)?;
            Ok((Ref::Inline(slice_to_vec(slice_subrange(buf, start, end))), end))
        } else if h.major == MAJOR_ARRAY && h.arg >= 1 {
            let (cids, next): (Vec<Cid>, usize) = read_link_list(buf, pos)?;
            Ok((Ref::Chain(cids), next))
        } else {
            Err(ErrorKind::MalformedNode)
        },
    }
}

fn read_slot_meta(buf: &[u8], pos: usize) -> (r: Result<(SlotMeta, usize), ErrorKind>)
    ensures
        match slot_meta_at(buf@, pos as int) {
            Ok((m, next)) => r == Ok::<(SlotMeta, usize), ErrorKind>((m, next as usize)) && pos
                < next <= buf.len(),
            Err(e) => r == Err::<(SlotMeta, usize), ErrorKind>(e),
        },
{
    let (count, start): (u64, usize) = read_array(buf, pos)?;
    if count != 3 {
        return Err(ErrorKind::MalformedNode);
    }
    let (parent_slot, after1): (u64, usize) = read_uint(buf, start)?;
    let (blocktime, after2): (u64, usize) = read_uint(buf, after1)?;
    let (block_height, after3): (Option<u64>, usize) = read_opt_uint(buf, after2)?;
    Ok((SlotMeta { parent_slot, blocktime, block_height }, after3))
}

fn read_transaction(buf: &[u8], pos: usize) -> (r: Result<Node, ErrorKind>)
    ensures
        node_agrees(r, transaction_fields(buf@, pos as int)),
{
    let (data, after1): (Vec<u8>, usize) = read_bytes(buf, pos)?;
    let (metadata, after2): (Ref, usize) = read_ref(buf, after1)?;
    let (slot, after3): (u64, usize) = read_uint(buf, after2)?;
    let (index, after4): (Option<u64>, usize) = read_opt_uint(buf, after3)?;
    if after4 != buf.len() {
        return Err(ErrorKind::Cbor);
    }
    Ok(Node::Transaction(Transaction { data, metadata, slot, index }))
}

fn read_entry(buf: &[u8], pos: usize) -> (r: Result<Node, ErrorKind>)
    ensures
        node_agrees(r, entry_fields(buf@, pos as int)),
{
    let (index, after1): (u64, usize) = read_uint(buf, pos)?;
    let (num_hashes, after2): (u64, usize) = read_uint(buf, after1)?;
    let (hash, after3): (Vec<u8>, usize) = read_bytes(buf, after2)?;
    if after3 != buf.len() {
        return Err(ErrorKind::Cbor);
    }
    Ok(Node::Entry(Entry { index, num_hashes, hash }))
}

fn read_block(buf: &[u8], pos: usize) -> (r: Result<Node, ErrorKind>)
    ensures
        node_agrees(r, block_fields(buf@, pos as int)),
{
    let (slot, after1): (u64, usize) = read_uint(buf, pos)?;
    let (meta, after2): (SlotMeta, usize) = read_slot_meta(buf, after1)?;
    let (entries, after3): (Vec<Cid>, usize) = read_link_list(buf, after2)?;
    let (rewards, after4): (Vec<Cid>, usize) = read_link_list(buf, after3)?;
    if after4 != buf.len() {
        return Err(ErrorKind::Cbor);
    }
    Ok(Node::Block(Block { slot, meta, entries, rewards }))
}

fn read_subset(buf: &[u8], pos: usize) -> (r: Result<Node, ErrorKind>)
    ensures
        node_agrees(r, subset_fields(buf@, pos as int)),
{
    let (first, after1): (u64, usize) = read_uint(buf, pos)?;
    let (last, after2): (u64, usize) = read_uint(buf, after1)?;
    let (blocks, after3): (Vec<Cid>, usize) = read_link_list(buf, after2)?;
    if after3 != buf.len() {
        return Err(ErrorKind::Cbor);
    }
    Ok(Node::Subset(Subset { first, last, blocks }))
}

fn read_epoch(buf: &[u8], pos: usize) -> (r: Result<Node, ErrorKind>)
    ensures
        node_agrees(r, epoch_fields(buf@, pos as int)),
{
    let (epoch, after1): (u64, usize) = read_uint(buf, pos)?;
    let (subsets, after2): (Vec<Cid>, usize) = read_link_list(buf, after1)?;
    if after2 != buf.len() {
        return Err(ErrorKind::Cbor);
    }
    Ok(Node::Epoch(Epoch { epoch, subsets }))
}

fn read_rewards(buf: &[u8], pos: usize) -> (r: Result<Node, ErrorKind>)
    ensures
        node_agrees(r, rewards_fields(buf@, pos as int)),
{
    let (slot, after1): (u64, usize) = read_uint(buf, pos)?;
    let (data, after2): (Ref, usize) = read_ref(buf, after1)?;
    if after2 != buf.len() {
        return Err(ErrorKind::Cbor);
    }
    Ok(Node::Rewards(Rewards { slot, data }))
}

fn read_dataframe(buf: &[u8], pos: usize, with_next: bool) -> (r: Result<Node, ErrorKind>)
    ensures
        node_agrees(r, dataframe_fields(buf@, pos as int, with_next)),
{
    let (index, after1): (u32, usize) = read_u32(buf, pos)?;
    let (total, after2): (u32, usize) = read_u32(buf, after1)?;
    let (data, after3): (Vec<u8>, usize) = read_bytes(buf, after2)?;
    if with_next {
        let (next, after4): (Vec<Cid>, usize) = read_opt_link_list(buf, after3)?;
        if after4 != buf.len() {
            return Err(ErrorKind::Cbor);
        }
        Ok(Node::DataFrame(DataFrame { index, total, data, next }))
    } else {
        if after3 != buf.len() {
            return Err(ErrorKind::Cbor);
        }
        let next: Vec<Cid> = Vec::new();
        assert(cid_views(next@) =~= Seq::<Seq<u8>>::empty());
        Ok(Node::DataFrame(DataFrame { index, total, data, next }))
    }
}

/// Decodes the payload of one block.
pub fn decode_node(payload: &[u8]) -> (r: Result<Node, ErrorKind>)
    ensures
        node_agrees(r, decode_payload(payload@)),
{
    proof {
        reveal(decode_payload);
    }
    let h: Head = match read_head(payload, 0) {
        None => { return Err(ErrorKind::Cbor); },
        Some(h) => h,
    };
    if h.major != MAJOR_ARRAY || h.arg == 0 {
        return Err(ErrorKind::UnknownKind);
    }
    let k: Head = match read_head(payload, h.len) {
        None => { return Err(ErrorKind::Cbor); },
        Some(k) => k,
    };
    if k.major != MAJOR_UINT {
        return Err(ErrorKind::UnknownKind);
    }
    let pos: usize = h.len + k.len;
    let count: u64 = h.arg;
    match Kind::from_u64(k.arg) {
        None => Err(ErrorKind::UnknownKind),
        Some(Kind::Transaction) => if count == 5 {
            read_transaction(payload, pos)
        } else {
            Err(ErrorKind::MalformedNode)
        },
        Some(Kind::Entry) => if count == 4 {
            read_entry(payload, pos)
        } else {
            Err(ErrorKind::MalformedNode)
        },
        Some(Kind::Block) => if count == 5 {
            read_block(payload, pos)
        } else {
            Err(ErrorKind::MalformedNode)
        },
        Some(Kind::Subset) => if count == 4 {
            read_subset(payload, pos)
        } else {
            Err(ErrorKind::MalformedNode)
        },
        Some(Kind::Epoch) => if count == 3 {
            read_epoch(payload, pos)
        } else {
            Err(ErrorKind::MalformedNode)
        },
        Some(Kind::Rewards) => if count == 3 {
            read_rewards(payload, pos)
        } else {
            Err(ErrorKind::MalformedNode)
        },
        Some(Kind::DataFrame) => if count == 4 || count == 5 {
            read_dataframe(payload, pos, count == 5)
        } else {
            Err(ErrorKind::MalformedNode)
        },
    }
}

/// One block as it stands in the archive: its identifier and its payload.
#[derive(Debug, PartialEq, Eq)]
pub struct RawNode {
    pub cid: Cid,
    pub payload: Vec<u8>,
    /// Count of input bytes before the block's section.
    pub offset: u64,
}

impl Clone for RawNode {
    fn clone(&self) -> (r: Self)
        ensures
            r.cid@ == self.cid@,
            r.payload@ == self.payload@,
            r.offset == self.offset,
    {
        RawNode {
            cid: self.cid.clone(),
            payload: slice_to_vec(self.payload.as_slice()),
            offset: self.offset,
        }
    }
}

/// A decoded node under the identifier of the block that held it.
#[derive(Clone, Debug, PartialEq, Eq)]
pub struct NodeWithCid {
    pub cid: Cid,
    pub node: Node,
}

/// What decoding the block `cid` with this payload, found at `offset`, gives:
/// the node under the block's identifier, or a failure that names the block
/// and where it stands.
pub open spec fn decode_raw(cid: Seq<u8>, payload: Seq<u8>, offset: u64) -> Result<
    (Seq<u8>, NodeModel),
    ErrorModel,
> {
    match decode_payload(payload) {
        Ok(node) => Ok((cid, node)),
        Err(kind) => Err(ErrorModel { kind, offset: Some(offset), cid: Some(cid) }),
    }
}

/// Whether a decoded block, or the failure to decode it, is what `model`
/// says.
pub open spec fn decoded_agrees(
    r: Result<NodeWithCid, CarError>,
    model: Result<(Seq<u8>, NodeModel), ErrorModel>,
) -> bool {
    match model {
        Ok((c, node)) => r matches Ok(n) && n.cid@ == c && n.node@ == node,
        Err(e) => r matches Err(err) && err@ == e,
    }
}

/// Decode determinism. Two results of decoding one block stand for the
/// same thing: the same node under the same identifier, or the same
/// failure.
pub proof fn lemma_decode_is_deterministic(
    first: Result<NodeWithCid, CarError>,
    second: Result<NodeWithCid, CarError>,
    cid: Seq<u8>,
    payload: Seq<u8>,
    offset: u64,
)
    requires
        decoded_agrees(first, decode_raw(cid, payload, offset)),
        decoded_agrees(second, decode_raw(cid, payload, offset)),
    ensures
        match (first, second) {
            (Ok(a), Ok(b)) => a.cid@ == b.cid@ && a.node@ == b.node@,
            (Err(a), Err(b)) => a@ == b@,
            _ => false,
        },
{
}

impl NodeWithCid {
    /// Decodes a block. The node keeps the block's identifier, which is not
    /// held against the payload.
    pub fn decode(raw: RawNode) -> (r: Result<NodeWithCid, CarError>)
        ensures
            decoded_agrees(r, decode_raw(raw.cid@, raw.payload@, raw.offset)),
    {
        match decode_node(raw.payload.as_slice()) {
            Ok(node) => Ok(NodeWithCid { cid: raw.cid, node }),
            Err(kind) => Err(CarError { kind, offset: Some(raw.offset), cid: Some(raw.cid) }),
        }
    }
}

} // verus!
