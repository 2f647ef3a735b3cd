//! What a program that counts the nodes of an archive keeps track of: one
//! counter per kind of node, the slots that the blocks skip, and how the
//! payloads of transactions and rewards fared when they were unpacked and
//! decoded.

use crate::error::ErrorKind;
use crate::group::{GroupModel, Nodes};
use crate::node::{Kind, RefModel, Rewards, Transaction};
use crate::reassemble::reassembled;
use vstd::prelude::*;
use vstd::string::StringExecFns;

verus! {

/// Count of slots in an epoch.
pub const SLOTS_PER_EPOCH: u64 = 432_000;

/// Count of blocks after which a plain count is reported.
pub const RAW_REPORT_STEP: u64 = 131_072;

/// What zstd decompression makes of `input`: the decompressed bytes, or
/// nothing where `input` is no zstd frame.
pub uninterp spec fn zstd_decoded(input: Seq<u8>) -> Option<Seq<u8>>;

/// Calls `zstd::decode_all` on the bytes of `input`. The result is named,
/// not described: the same input always decompresses to the same bytes or
/// fails, and that is all that is claimed.
#[verifier::external_body]
fn zstd_decode_all(input: &[u8]) -> (r: Option<Vec<u8>>)
    ensures
        match zstd_decoded(input@) {
            Some(bytes) => r matches Some(v) && v@ == bytes,
            None => r is None,
        },
{
    zstd::decode_all(input).ok()
}

/// Whether bincode reads `data` as a versioned Solana transaction.
pub uninterp spec fn is_versioned_transaction(data: Seq<u8>) -> bool;

/// Calls `bincode::deserialize` for a `VersionedTransaction` of
/// `solana_sdk` on `data` and says whether it gave one. The result is named,
/// not described: all that is claimed is that it depends on the bytes alone.
#[verifier::external_body]
fn bincode_reads_transaction(data: &[u8]) -> (r: bool)
    ensures
        r == is_versioned_transaction(data@),
{
    bincode::deserialize::<solana_sdk::transaction::VersionedTransaction>(data).is_ok()
}

/// What unpacking a reassembled payload gave.
#[derive(Clone, Debug, PartialEq, Eq)]
pub enum Unpacked {
    /// There was nothing to unpack.
    Empty,
    /// The decompressed payload.
    Payload(Vec<u8>),
    /// The payload did not decompress.
    Corrupt,
}

/// What `Unpacked` stands for.
pub enum UnpackedModel {
    Empty,
    Payload(Seq<u8>),
    Corrupt,
}

impl View for Unpacked {
    type V = UnpackedModel;

    open spec fn view(&self) -> UnpackedModel {
        match self {
            Unpacked::Empty => UnpackedModel::Empty,
            Unpacked::Payload(bytes) => UnpackedModel::Payload(bytes@),
            Unpacked::Corrupt => UnpackedModel::Corrupt,
        }
    }
}

/// What the metadata of a transaction unpacks to, given what decompression
/// makes of it: empty metadata is not decompressed at all.
pub open spec fn unpacked_metadata(buffer: Seq<u8>, decoded: Option<Seq<u8>>) -> UnpackedModel {
    if buffer.len() == 0 {
        UnpackedModel::Empty
    } else {
        unpacked_rewards(decoded)
    }
}

/// What rewards unpack to, given what decompression makes of them.
pub open spec fn unpacked_rewards(decoded: Option<Seq<u8>>) -> UnpackedModel {
    match decoded {
        Some(bytes) => UnpackedModel::Payload(bytes),
        None => UnpackedModel::Corrupt,
    }
}

/// Turns the outcome of a decompression into what was unpacked.
pub fn unpacked_from(decoded: Option<Vec<u8>>) -> (r: Unpacked)
    ensures
        r@ == unpacked_rewards(
            match decoded {
                Some(v) => Some(v@),
                None => None,
            },
        ),
{
    match decoded {
        Some(bytes) => Unpacked::Payload(bytes),
        None => Unpacked::Corrupt,
    }
}

/// Unpacks the reassembled metadata of a transaction.
pub fn unpack_metadata(buffer: &[u8]) -> (r: Unpacked)
    ensures
        r@ == unpacked_metadata(buffer@, zstd_decoded(buffer@)),
{
    if buffer.len() == 0 {
        Unpacked::Empty
    } else {
        unpacked_from(zstd_decode_all(buffer))
    }
}

/// Unpacks reassembled rewards.
pub fn unpack_rewards(buffer: &[u8]) -> (r: Unpacked)
    ensures
        r@ == unpacked_rewards(zstd_decoded(buffer@)),
{
    unpacked_from(zstd_decode_all(buffer))
}

/// A payload in the form in which it decoded.
#[derive(Clone, Debug, PartialEq, Eq)]
pub enum DecodedData<B, P> {
    Bincode(B),
    Protobuf(P),
}

/// Picks between two readings of one payload: the protobuf one where there
/// is one, else the bincode one, else none.
pub fn decode_protobuf_bincode<B, P>(protobuf: Option<P>, bincode: Option<B>) -> (r: Option<
    DecodedData<B, P>,
>)
    ensures
        r == match protobuf {
            Some(p) => Some(DecodedData::<B, P>::Protobuf(p)),
            None => match bincode {
                Some(b) => Some(DecodedData::<B, P>::Bincode(b)),
                None => None,
            },
        },
{
    match protobuf {
        Some(p) => Some(DecodedData::Protobuf(p)),
        None => match bincode {
            Some(b) => Some(DecodedData::Bincode(b)),
            None => None,
        },
    }
}

/// The words that say that a payload of this kind decoded in neither form.
pub fn decode_failure_message(kind: &str) -> (r: String)
    ensures
        r@ == "failed to decode "@ + kind@ + " with protobuf/bincode"@,
{
    let mut text: String = String::from_str("failed to decode ");
    text.append(kind);
    text.append(" with protobuf/bincode");
    text
}

/// The template of the progress line that shows the counter `what` of the
/// things `of`.
pub fn bar_template(what: &str, of: &str) -> (r: String)
    ensures
        r@ == "{spinner} "@ + what@ + ":"@ + of@ + " {pos}"@,
{
    let mut text: String = String::from_str("{spinner} ");
    text.append(what);
    text.append(":");
    text.append(of);
    text.append(" {pos}");
    text
}

/// One line of the report.
#[derive(Clone, Copy, Debug, PartialEq, Eq, Structural)]
pub enum Row {
    Transaction,
    Entry,
    Block,
    Subset,
    Epoch,
    Rewards,
    DataFrame,
    BlockSkipped,
    TransactionMetaEmpty,
    TransactionDecodeOk,
    TransactionDecodeErr,
    RewardsDecodeOk,
    RewardsDecodeErr,
}

/// The lines that are always shown, in their order.
pub open spec fn parse_rows() -> Seq<Row> {
    seq![
        Row::Transaction,
        Row::Entry,
        Row::Block,
        Row::Subset,
        Row::Epoch,
        Row::Rewards,
        Row::DataFrame,
        Row::BlockSkipped,
    ]
}

/// The lines that are shown only where payloads are decoded.
pub open spec fn decode_rows() -> Seq<Row> {
    seq![
        Row::TransactionMetaEmpty,
        Row::TransactionDecodeOk,
        Row::TransactionDecodeErr,
        Row::RewardsDecodeOk,
        Row::RewardsDecodeErr,
    ]
}

/// The lines of the report, in their order.
pub fn rows(decode: bool) -> (r: Vec<Row>)
    ensures
        r@ == if decode {
            parse_rows() + decode_rows()
        } else {
            parse_rows()
        },
{
    let mut out: Vec<Row> = Vec::new();
    out.push(Row::Transaction);
    out.push(Row::Entry);
    out.push(Row::Block);
    out.push(Row::Subset);
    out.push(Row::Epoch);
    out.push(Row::Rewards);
    out.push(Row::DataFrame);
    out.push(Row::BlockSkipped);
    assert(out@ =~= parse_rows());
    if decode {
        out.push(Row::TransactionMetaEmpty);
        out.push(Row::TransactionDecodeOk);
        out.push(Row::TransactionDecodeErr);
        out.push(Row::RewardsDecodeOk);
        out.push(Row::RewardsDecodeErr);
        assert(out@ =~= parse_rows() + decode_rows());
    }
    out
}

impl Row {
    /// The two names under which the line is shown: what is counted, and of
    /// which things.
    pub fn labels(&self) -> (r: (&'static str, &'static str))
        ensures
            r.0@ == match self {
                Row::BlockSkipped => "skipped"@,
                Row::TransactionMetaEmpty => "meta_empty"@,
                Row::TransactionDecodeOk | Row::RewardsDecodeOk => "decoded/ok"@,
                Row::TransactionDecodeErr | Row::RewardsDecodeErr => "decoded/err"@,
                _ => "parsed"@,
            },
            r.1@ == match self {
                Row::Transaction | Row::TransactionMetaEmpty | Row::TransactionDecodeOk
                | Row::TransactionDecodeErr => "transaction"@,
                Row::Entry => "entry"@,
                Row::Block | Row::BlockSkipped => "block"@,
                Row::Subset => "subset"@,
                Row::Epoch => "epoch"@,
                Row::Rewards | Row::RewardsDecodeOk | Row::RewardsDecodeErr => "rewards"@,
                Row::DataFrame => "dataframe"@,
            },
    {
        match self {
            Row::Transaction => ("parsed", "transaction"),
            Row::Entry => ("parsed", "entry"),
            Row::Block => ("parsed", "block"),
            Row::Subset => ("parsed", "subset"),
            Row::Epoch => ("parsed", "epoch"),
            Row::Rewards => ("parsed", "rewards"),
            Row::DataFrame => ("parsed", "dataframe"),
            Row::BlockSkipped => ("skipped", "block"),
            Row::TransactionMetaEmpty => ("meta_empty", "transaction"),
            Row::TransactionDecodeOk => ("decoded/ok", "transaction"),
            Row::TransactionDecodeErr => ("decoded/err", "transaction"),
            Row::RewardsDecodeOk => ("decoded/ok", "rewards"),
            Row::RewardsDecodeErr => ("decoded/err", "rewards"),
        }
    }
}

/// The counters of a run.
#[derive(Clone, Copy, Debug, PartialEq, Eq, Structural)]
pub struct Counters {
    pub transaction: u64,
    pub entry: u64,
    pub block: u64,
    pub subset: u64,
    pub epoch: u64,
    pub rewards: u64,
    pub dataframe: u64,
    /// Slots between the blocks seen for which no block came.
    pub block_skipped: u64,
    pub transaction_meta_empty: u64,
    pub transaction_decode_ok: u64,
    pub transaction_decode_err: u64,
    pub rewards_decode_ok: u64,
    pub rewards_decode_err: u64,
    /// The slot that the next block should have.
    pub next_slot: Option<u64>,
}

/// The slot that a block is expected to have: the one after the block
/// before it, or, for the first block, the first slot of its epoch.
pub open spec fn expected_slot(next_slot: Option<u64>, slot: u64) -> int {
    match next_slot {
        Some(next) => next as int,
        None => slot - slot % SLOTS_PER_EPOCH,
    }
}

impl Counters {
    /// All counters at zero, no block seen.
    pub open spec fn zero() -> Counters {
        Counters {
            transaction: 0,
            entry: 0,
            block: 0,
            subset: 0,
            epoch: 0,
            rewards: 0,
            dataframe: 0,
            block_skipped: 0,
            transaction_meta_empty: 0,
            transaction_decode_ok: 0,
            transaction_decode_err: 0,
            rewards_decode_ok: 0,
            rewards_decode_err: 0,
            next_slot: None,
        }
    }

    /// The counter that a line shows.
    pub open spec fn spec_value(self, row: Row) -> u64 {
        match row {
            Row::Transaction => self.transaction,
            Row::Entry => self.entry,
            Row::Block => self.block,
            Row::Subset => self.subset,
            Row::Epoch => self.epoch,
            Row::Rewards => self.rewards,
            Row::DataFrame => self.dataframe,
            Row::BlockSkipped => self.block_skipped,
            Row::TransactionMetaEmpty => self.transaction_meta_empty,
            Row::TransactionDecodeOk => self.transaction_decode_ok,
            Row::TransactionDecodeErr => self.transaction_decode_err,
            Row::RewardsDecodeOk => self.rewards_decode_ok,
            Row::RewardsDecodeErr => self.rewards_decode_err,
        }
    }

    /// The counters with the one of `row` set to `value`.
    pub open spec fn with_value(self, row: Row, value: u64) -> Counters {
        match row {
            Row::Transaction => Counters { transaction: value, ..self },
            Row::Entry => Counters { entry: value, ..self },
            Row::Block => Counters { block: value, ..self },
            Row::Subset => Counters { subset: value, ..self },
            Row::Epoch => Counters { epoch: value, ..self },
            Row::Rewards => Counters { rewards: value, ..self },
            Row::DataFrame => Counters { dataframe: value, ..self },
            Row::BlockSkipped => Counters { block_skipped: value, ..self },
            Row::TransactionMetaEmpty => Counters { transaction_meta_empty: value, ..self },
            Row::TransactionDecodeOk => Counters { transaction_decode_ok: value, ..self },
            Row::TransactionDecodeErr => Counters { transaction_decode_err: value, ..self },
            Row::RewardsDecodeOk => Counters { rewards_decode_ok: value, ..self },
            Row::RewardsDecodeErr => Counters { rewards_decode_err: value, ..self },
        }
    }

    /// The counters with `amount` added to the one of `row`, where that
    /// fits 64 bits.
    pub open spec fn added(self, row: Row, amount: u64) -> Option<Counters> {
        if self.spec_value(row) + amount <= u64::MAX {
            Some(self.with_value(row, (self.spec_value(row) + amount) as u64))
        } else {
            None
        }
    }

    /// The counters after a block with this slot was seen: one block more,
    /// and as many skipped slots more as lie between the expected slot and
    /// this one. Nothing where the slot lies before the expected one, or a
    /// number no longer fits 64 bits.
    pub open spec fn with_block(self, slot: u64) -> Option<Counters> {
        let expected = expected_slot(self.next_slot, slot);
        if expected <= slot && slot < u64::MAX && self.block < u64::MAX && self.block_skipped
            + (slot - expected) <= u64::MAX {
            Some(
                Counters {
                    block: (self.block + 1) as u64,
                    block_skipped: (self.block_skipped + (slot - expected)) as u64,
                    next_slot: Some((slot + 1) as u64),
                    ..self
                },
            )
        } else {
            None
        }
    }

    /// The line that counts the nodes of a kind.
    pub open spec fn row_of(kind: Kind) -> Row {
        match kind {
            Kind::Transaction => Row::Transaction,
            Kind::Entry => Row::Entry,
            Kind::Block => Row::Block,
            Kind::Subset => Row::Subset,
            Kind::Epoch => Row::Epoch,
            Kind::Rewards => Row::Rewards,
            Kind::DataFrame => Row::DataFrame,
        }
    }

    /// The line that counts how the metadata of a transaction fared:
    /// `decoded` says whether a non-empty payload decoded, and is nothing
    /// for an empty one.
    pub open spec fn metadata_row(decoded: Option<bool>) -> Row {
        match decoded {
            None => Row::TransactionMetaEmpty,
            Some(true) => Row::TransactionDecodeOk,
            Some(false) => Row::TransactionDecodeErr,
        }
    }

    /// The line that counts how rewards fared.
    pub open spec fn rewards_row(decoded: bool) -> Row {
        if decoded {
            Row::RewardsDecodeOk
        } else {
            Row::RewardsDecodeErr
        }
    }

    /// Counters at zero.
    pub fn new() -> (r: Counters)
        ensures
            r == Counters::zero(),
    {
        Counters {
            transaction: 0,
            entry: 0,
            block: 0,
            subset: 0,
            epoch: 0,
            rewards: 0,
            dataframe: 0,
            block_skipped: 0,
            transaction_meta_empty: 0,
            transaction_decode_ok: 0,
            transaction_decode_err: 0,
            rewards_decode_ok: 0,
            rewards_decode_err: 0,
            next_slot: None,
        }
    }

    /// The counter that a line shows.
    pub fn value(&self, row: Row) -> (r: u64)
        ensures
            r == self.spec_value(row),
    {
        match row {
            Row::Transaction => self.transaction,
            Row::Entry => self.entry,
            Row::Block => self.block,
            Row::Subset => self.subset,
            Row::Epoch => self.epoch,
            Row::Rewards => self.rewards,
            Row::DataFrame => self.dataframe,
            Row::BlockSkipped => self.block_skipped,
            Row::TransactionMetaEmpty => self.transaction_meta_empty,
            Row::TransactionDecodeOk => self.transaction_decode_ok,
            Row::TransactionDecodeErr => self.transaction_decode_err,
            Row::RewardsDecodeOk => self.rewards_decode_ok,
            Row::RewardsDecodeErr => self.rewards_decode_err,
        }
    }

    /// Adds `amount` to the counter of `row`. Says whether it did: a sum
    /// that does not fit 64 bits leaves the counters as they are.
    pub fn bump(&mut self, row: Row, amount: u64) -> (r: bool)
        ensures
            match old(self).added(row, amount) {
                Some(after) => r && *final(self) == after,
                None => !r && *final(self) == *old(self),
            },
    {
        let now: u64 = self.value(row);
        if amount > u64::MAX - now {
            return false;
        }
        let sum: u64 = now + amount;
        match row {
            Row::Transaction => { self.transaction = sum; },
            Row::Entry => { self.entry = sum; },
            Row::Block => { self.block = sum; },
            Row::Subset => { self.subset = sum; },
            Row::Epoch => { self.epoch = sum; },
            Row::Rewards => { self.rewards = sum; },
            Row::DataFrame => { self.dataframe = sum; },
            Row::BlockSkipped => { self.block_skipped = sum; },
            Row::TransactionMetaEmpty => { self.transaction_meta_empty = sum; },
            Row::TransactionDecodeOk => { self.transaction_decode_ok = sum; },
            Row::TransactionDecodeErr => { self.transaction_decode_err = sum; },
            Row::RewardsDecodeOk => { self.rewards_decode_ok = sum; },
            Row::RewardsDecodeErr => { self.rewards_decode_err = sum; },
        }
        true
    }

    /// Counts a node of a kind other than a block; a block is counted by
    /// `record_block`, which needs its slot. Says whether it counted.
    pub fn record_node(&mut self, kind: Kind) -> (r: bool)
        ensures
            match (if kind == Kind::Block {
                None
            } else {
                old(self).added(Counters::row_of(kind), 1)
            }) {
                Some(after) => r && *final(self) == after,
                None => !r && *final(self) == *old(self),
            },
    {
        match kind {
            Kind::Transaction => self.bump(Row::Transaction, 1),
            Kind::Entry => self.bump(Row::Entry, 1),
            Kind::Block => false,
            Kind::Subset => self.bump(Row::Subset, 1),
            Kind::Epoch => self.bump(Row::Epoch, 1),
            Kind::Rewards => self.bump(Row::Rewards, 1),
            Kind::DataFrame => self.bump(Row::DataFrame, 1),
        }
    }

    /// Counts a block and the slots skipped before it. Says whether it did.
    pub fn record_block(&mut self, slot: u64) -> (r: bool)
        ensures
            match old(self).with_block(slot) {
                Some(after) => r && *final(self) == after,
                None => !r && *final(self) == *old(self),
            },
    {
        let expected: u64 = match self.next_slot {
            Some(next) => next,
            None => slot - slot % SLOTS_PER_EPOCH,
        };
        if expected > slot || slot == u64::MAX || self.block == u64::MAX {
            return false;
        }
        let skipped: u64 = slot - expected;
        if skipped > u64::MAX - self.block_skipped {
            return false;
        }
        self.block = self.block + 1;
        self.block_skipped = self.block_skipped + skipped;
        self.next_slot = Some(slot + 1);
        true
    }

    /// Counts how the metadata of a transaction fared.
    pub fn record_metadata(&mut self, decoded: Option<bool>) -> (r: bool)
        ensures
            match old(self).added(Counters::metadata_row(decoded), 1) {
                Some(after) => r && *final(self) == after,
                None => !r && *final(self) == *old(self),
            },
    {
        match decoded {
            None => self.bump(Row::TransactionMetaEmpty, 1),
            Some(true) => self.bump(Row::TransactionDecodeOk, 1),
            Some(false) => self.bump(Row::TransactionDecodeErr, 1),
        }
    }

    /// Counts how rewards fared.
    pub fn record_rewards(&mut self, decoded: bool) -> (r: bool)
        ensures
            match old(self).added(Counters::rewards_row(decoded), 1) {
                Some(after) => r && *final(self) == after,
                None => !r && *final(self) == *old(self),
            },
    {
        if decoded {
            self.bump(Row::RewardsDecodeOk, 1)
        } else {
            self.bump(Row::RewardsDecodeErr, 1)
        }
    }
}

/// Why a node could not be counted.
#[derive(Clone, Copy, Debug, PartialEq, Eq, Structural)]
pub enum VisitError {
    /// A counter no longer fits 64 bits.
    Overflow,
    /// The data of a transaction node holds no transaction.
    ParseTransaction,
    /// A payload did not reassemble.
    Reassemble(ErrorKind),
    /// A payload did not decompress.
    Decompress,
}

/// What looking at the payload of a node gives: the decompressed payload
/// that is left to decode, or nothing where there is nothing to decode.
pub type Visit = Result<Option<Seq<u8>>, VisitError>;

/// Whether what a visit handed back is what `model` says.
pub open spec fn visit_agrees(r: Result<Option<Vec<u8>>, VisitError>, model: Visit) -> bool {
    match model {
        Ok(Some(bytes)) => r matches Ok(Some(v)) && v@ == bytes,
        Ok(None) => r matches Ok(None),
        Err(e) => r matches Err(k) && k == e,
    }
}

impl Counters {
    /// The counters after the metadata of a transaction was unpacked, and
    /// what is left to do: empty metadata is counted as such, metadata that
    /// did not decompress is a failure, and a payload is handed on.
    pub open spec fn with_metadata(self, unpacked: UnpackedModel) -> (Visit, Counters) {
        match unpacked {
            UnpackedModel::Empty => match self.added(Row::TransactionMetaEmpty, 1) {
                Some(after) => (Ok(None), after),
                None => (Err(VisitError::Overflow), self),
            },
            UnpackedModel::Corrupt => (Err(VisitError::Decompress), self),
            UnpackedModel::Payload(bytes) => (Ok(Some(bytes)), self),
        }
    }

    /// What is left to do after rewards were unpacked: rewards that did not
    /// decompress are a failure, and a payload is handed on.
    pub open spec fn with_rewards(unpacked: UnpackedModel) -> Visit {
        match unpacked {
            UnpackedModel::Payload(bytes) => Ok(Some(bytes)),
            _ => Err(VisitError::Decompress),
        }
    }

    /// The counters after a transaction of the group `g` was looked at. The
    /// transaction is counted. Where payloads are decoded, its data has to
    /// hold a transaction, and its metadata is reassembled and unpacked.
    pub open spec fn with_transaction(
        self,
        g: GroupModel,
        data: Seq<u8>,
        metadata: RefModel,
        decode: bool,
    ) -> (Visit, Counters) {
        match self.added(Row::Transaction, 1) {
            None => (Err(VisitError::Overflow), self),
            Some(counted) => if !decode {
                (Ok(None), counted)
            } else if !is_versioned_transaction(data) {
                (Err(VisitError::ParseTransaction), counted)
            } else {
                match reassembled(g, metadata) {
                    Err(kind) => (Err(VisitError::Reassemble(kind)), counted),
                    Ok(bytes) => counted.with_metadata(
                        unpacked_metadata(bytes, zstd_decoded(bytes)),
                    ),
                }
            },
        }
    }

    /// The counters after rewards of the group `g` were looked at. The
    /// rewards are counted. Where payloads are decoded, their data is
    /// reassembled and unpacked.
    pub open spec fn with_rewards_node(self, g: GroupModel, data: RefModel, decode: bool) -> (
        Visit,
        Counters,
    ) {
        match self.added(Row::Rewards, 1) {
            None => (Err(VisitError::Overflow), self),
            Some(counted) => if !decode {
                (Ok(None), counted)
            } else {
                match reassembled(g, data) {
                    Err(kind) => (Err(VisitError::Reassemble(kind)), counted),
                    Ok(bytes) => (
                        Counters::with_rewards(unpacked_rewards(zstd_decoded(bytes))),
                        counted,
                    ),
                }
            },
        }
    }

    /// Counts what unpacking the metadata of a transaction gave.
    pub fn after_metadata(&mut self, unpacked: Unpacked) -> (r: Result<Option<Vec<u8>>, VisitError>)
        ensures
            visit_agrees(r, old(self).with_metadata(unpacked@).0),
            *final(self) == old(self).with_metadata(unpacked@).1,
    {
        match unpacked {
            Unpacked::Empty => if self.bump(Row::TransactionMetaEmpty, 1) {
                Ok(None)
            } else {
                Err(VisitError::Overflow)
            },
            Unpacked::Corrupt => Err(VisitError::Decompress),
            Unpacked::Payload(bytes) => Ok(Some(bytes)),
        }
    }

    /// Says what is left to do after rewards were unpacked.
    pub fn after_rewards(unpacked: Unpacked) -> (r: Result<Option<Vec<u8>>, VisitError>)
        ensures
            visit_agrees(r, Counters::with_rewards(unpacked@)),
    {
        match unpacked {
            Unpacked::Payload(bytes) => Ok(Some(bytes)),
            _ => Err(VisitError::Decompress),
        }
    }

    /// Looks at a transaction of the group `nodes`: counts it and, where
    /// `decode` is set, hands back its decompressed metadata for decoding.
    pub fn visit_transaction(&mut self, nodes: &Nodes, frame: &Transaction, decode: bool) -> (r:
        Result<Option<Vec<u8>>, VisitError>)
        requires
            nodes.wf(),
        ensures
            visit_agrees(
                r,
                old(self).with_transaction(nodes@, frame.data@, frame.metadata@, decode).0,
            ),
            *final(self) == old(self).with_transaction(
                nodes@,
                frame.data@,
                frame.metadata@,
                decode,
            ).1,
    {
        if !self.bump(Row::Transaction, 1) {
            return Err(VisitError::Overflow);
        }
        if !decode {
            return Ok(None);
        }
        if !bincode_reads_transaction(frame.data.as_slice()) {
            return Err(VisitError::ParseTransaction);
        }
        match nodes.reassemble(&frame.metadata) {
            Err(e) => Err(VisitError::Reassemble(e.kind)),
            Ok(buffer) => {
                let unpacked: Unpacked = unpack_metadata(buffer.as_slice());
                self.after_metadata(unpacked)
            },
        }
    }

    /// Looks at rewards of the group `nodes`: counts them and, where
    /// `decode` is set, hands back their decompressed data for decoding.
    pub fn visit_rewards(&mut self, nodes: &Nodes, frame: &Rewards, decode: bool) -> (r: Result<
        Option<Vec<u8>>,
        VisitError,
    >)
        requires
            nodes.wf(),
        ensures
            visit_agrees(r, old(self).with_rewards_node(nodes@, frame.data@, decode).0),
            *final(self) == old(self).with_rewards_node(nodes@, frame.data@, decode).1,
    {
        if !self.bump(Row::Rewards, 1) {
            return Err(VisitError::Overflow);
        }
        if !decode {
            return Ok(None);
        }
        match nodes.reassemble(&frame.data) {
            Err(e) => Err(VisitError::Reassemble(e.kind)),
            Ok(buffer) => {
                let unpacked: Unpacked = unpack_rewards(buffer.as_slice());
                Counters::after_rewards(unpacked)
            },
        }
    }
}

/// Counts blocks and says when enough have come to report them.
#[derive(Clone, Copy, Debug, PartialEq, Eq, Structural)]
pub struct RawProgress {
    /// Blocks counted and not yet reported.
    pub pending: u64,
}

impl RawProgress {
    pub fn new() -> (r: RawProgress)
        ensures
            r.pending == 0,
    {
        RawProgress { pending: 0 }
    }

    /// The count after one more block, held at the largest number that
    /// fits 64 bits.
    pub open spec fn one_more(self) -> u64 {
        if self.pending < u64::MAX {
            (self.pending + 1) as u64
        } else {
            u64::MAX
        }
    }

    /// Counts one block. Once `RAW_REPORT_STEP` blocks have come, gives
    /// their count to report and starts again from zero.
    pub fn tick(&mut self) -> (r: Option<u64>)
        ensures
            old(self).one_more() >= RAW_REPORT_STEP ==> r == Some(old(self).one_more()) && final(self).pending == 0,
            old(self).one_more() < RAW_REPORT_STEP ==> r is None && final(self).pending == old(self).one_more(),
    {
        let count: u64 = if self.pending < u64::MAX {
            self.pending + 1
        } else {
            u64::MAX
        };
        if count >= RAW_REPORT_STEP {
            self.pending = 0;
            Some(count)
        } else {
            self.pending = count;
            None
        }
    }

    /// Gives the count of the blocks not yet reported and starts again from
    /// zero.
    pub fn flush(&mut self) -> (r: u64)
        ensures
            r == old(self).pending,
            final(self).pending == 0,
    {
        let count: u64 = self.pending;
        self.pending = 0;
        count
    }
}

} // verus!
