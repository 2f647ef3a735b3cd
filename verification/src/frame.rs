//! The frame reader. An archive is the header section followed by one
//! section per block; every section is a LEB128 length and that many bytes,
//! and a block's bytes are its identifier followed by its payload. Input
//! comes in pieces, in any division: the reader keeps what it has not yet
//! used and says when it needs more.

use crate::cid::{parse_cid, Cid};
use crate::error::{CarError, ErrorKind, ErrorModel};
use crate::header::{parse_header, read_header, Header, HeaderModel};
use crate::node::RawNode;
use crate::varint::{
    lemma_parse_varint_bounds, lemma_parse_varint_skip, parse_varint, read_varint, VarintParse,
    VarintRead, MAX_VARINT_LEN,
};
use vstd::prelude::*;
use vstd::slice::{slice_subrange, slice_to_vec};

verus! {

/// The longest section that a reader accepts unless told otherwise: 16 MiB.
pub const DEFAULT_MAX_BLOCK_LEN: usize = 0x100_0000;

/// What stands at the start of the unread input.
pub enum Prefixed {
    /// A whole section: its bytes, and the count of input bytes that the
    /// length and the section take together.
    Section { body: Seq<u8>, used: nat },
    /// Not enough input yet to tell.
    NeedInput,
    Fail(ErrorKind),
}

/// Reads a length and the section of that length from the start of
/// `pending`. With `closed` set no more input will come, and what is
/// missing is an error: `Varint` inside the length, `TruncatedFrame` inside
/// the section. A length above `limit` is refused before the section is
/// looked at.
pub open spec fn length_prefixed(pending: Seq<u8>, closed: bool, limit: nat) -> Prefixed {
    match parse_varint(pending, 0) {
        VarintParse::Overflow => Prefixed::Fail(ErrorKind::Varint),
        VarintParse::Truncated => if closed {
            Prefixed::Fail(ErrorKind::Varint)
        } else {
            Prefixed::NeedInput
        },
        VarintParse::Value { value, len } => if value > limit {
            Prefixed::Fail(ErrorKind::BlockTooLarge)
        } else if len + value > pending.len() {
            if closed {
                Prefixed::Fail(ErrorKind::TruncatedFrame)
            } else {
                Prefixed::NeedInput
            }
        } else {
            Prefixed::Section {
                body: pending.subrange(len as int, (len + value) as int),
                used: len + value,
            }
        },
    }
}

/// The state of a reader.
pub struct ReaderModel {
    /// Input that was fed and not yet used.
    pub pending: Seq<u8>,
    /// No more input will come.
    pub closed: bool,
    /// The header, once it was read.
    pub header: Option<HeaderModel>,
    /// The stream has ended, cleanly or in an error.
    pub done: bool,
    /// Longest section accepted.
    pub limit: nat,
    /// Count of input bytes used so far; stays at `u64::MAX` once reached.
    pub offset: u64,
}

/// What one pull gives.
pub enum Outcome {
    /// A block, and the count of input bytes before its section.
    Node { cid: Seq<u8>, payload: Seq<u8>, offset: u64 },
    End,
    NeedInput,
    Fail { kind: ErrorKind, offset: u64 },
}

/// `offset` moved on by `n` bytes.
pub open spec fn advance_offset(offset: u64, n: nat) -> u64 {
    if offset + n <= u64::MAX {
        (offset + n) as u64
    } else {
        u64::MAX
    }
}

impl ReaderModel {
    /// A reader to which nothing was fed yet.
    pub open spec fn fresh(limit: nat) -> ReaderModel {
        ReaderModel {
            pending: Seq::empty(),
            closed: false,
            header: None,
            done: false,
            limit,
            offset: 0,
        }
    }

    /// The state after `used` bytes of input were used.
    pub open spec fn consume(self, used: nat) -> ReaderModel {
        ReaderModel {
            pending: self.pending.skip(used as int),
            offset: advance_offset(self.offset, used),
            ..self
        }
    }

    /// The state after the stream ended.
    pub open spec fn finish(self) -> ReaderModel {
        ReaderModel { done: true, ..self }
    }

    /// The state after more input arrived; a closed reader takes none.
    pub open spec fn feed(self, chunk: Seq<u8>) -> ReaderModel {
        if self.closed {
            self
        } else {
            ReaderModel { pending: self.pending + chunk, ..self }
        }
    }

    /// The state after the end of the input was announced.
    pub open spec fn close(self) -> ReaderModel {
        ReaderModel { closed: true, ..self }
    }

    /// A pull once the header was read. The end of the input between two
    /// sections, or a section of length zero, ends the stream cleanly.
    pub open spec fn block_step(self) -> (Outcome, ReaderModel) {
        if self.pending.len() == 0 {
            if self.closed {
                (Outcome::End, self.finish())
            } else {
                (Outcome::NeedInput, self)
            }
        } else {
            match length_prefixed(self.pending, self.closed, self.limit) {
                Prefixed::NeedInput => (Outcome::NeedInput, self),
                Prefixed::Fail(kind) => (Outcome::Fail { kind, offset: self.offset }, self.finish()),
                Prefixed::Section { body, used } => if body.len() == 0 {
                    (Outcome::End, self.finish())
                } else {
                    match parse_cid(body) {
                        None => (
                            Outcome::Fail { kind: ErrorKind::InvalidCid, offset: self.offset },
                            self.finish(),
                        ),
                        Some(layout) => (
                            Outcome::Node {
                                cid: body.take(layout.len() as int),
                                payload: body.skip(layout.len() as int),
                                offset: self.offset,
                            },
                            self.consume(used),
                        ),
                    }
                },
            }
        }
    }

    /// One pull: what comes out and the state after it. The first pulls read
    /// the header and go on to the first block. Once the stream has ended,
    /// every pull gives the end again.
    pub open spec fn step(self) -> (Outcome, ReaderModel) {
        if self.done {
            (Outcome::End, self)
        } else if self.header is Some {
            self.block_step()
        } else {
            match length_prefixed(self.pending, self.closed, self.limit) {
                Prefixed::NeedInput => (Outcome::NeedInput, self),
                Prefixed::Fail(kind) => (Outcome::Fail { kind, offset: self.offset }, self.finish()),
                Prefixed::Section { body, used } => match parse_header(body) {
                    Err(kind) => (Outcome::Fail { kind, offset: self.offset }, self.finish()),
                    Ok(header) => (ReaderModel { header: Some(header), ..self.consume(used) })
                        .block_step(),
                },
            }
        }
    }
}

/// After a failure the stream is over: the next pull, and every one after
/// it, gives the end.
pub proof fn lemma_failure_is_terminal(m: ReaderModel)
    requires
        m.step().0 is Fail,
    ensures
        m.step().1.done,
        m.step().1.step() == (Outcome::End, m.step().1),
{
}

/// After the end the stream stays at its end.
pub proof fn lemma_end_is_terminal(m: ReaderModel)
    requires
        m.step().0 is End,
    ensures
        m.step().1.done,
        m.step().1.step() == (Outcome::End, m.step().1),
{
}

/// A reader whose input is closed never asks for more.
pub proof fn lemma_closed_never_waits(m: ReaderModel)
    requires
        m.closed,
    ensures
        !(m.step().0 is NeedInput),
        m.step().1.closed,
{
}

/// A pull that gives a node uses up at least one byte of input.
pub proof fn lemma_node_uses_input(m: ReaderModel)
    requires
        m.step().0 is Node,
    ensures
        m.step().1.pending.len() < m.pending.len(),
        !m.step().1.done,
        m.step().1.header is Some,
        m.step().1.limit == m.limit,
        m.step().1.closed == m.closed,
{
    lemma_parse_varint_bounds(m.pending, 0, MAX_VARINT_LEN as nat);
    if m.header is None {
        let used = length_prefixed(m.pending, m.closed, m.limit)->used;
        let after = m.consume(used);
        lemma_parse_varint_bounds(after.pending, 0, MAX_VARINT_LEN as nat);
    }
}

/// What a pull hands back.
#[derive(Debug, PartialEq, Eq)]
pub enum Read {
    /// The next block.
    Node(RawNode),
    /// The stream is over.
    End,
    /// The block is not there in full yet: feed more input, or close it.
    NeedInput,
}

/// Whether what a pull handed back is the outcome `o`. A failure carries the
/// offset of the section that failed.
pub open spec fn read_agrees(r: Result<Read, CarError>, o: Outcome) -> bool {
    match o {
        Outcome::Node { cid, payload, offset } => r matches Ok(Read::Node(raw)) && raw.cid@ == cid
            && raw.payload@ == payload && raw.offset == offset,
        Outcome::End => r matches Ok(Read::End),
        Outcome::NeedInput => r matches Ok(Read::NeedInput),
        Outcome::Fail { kind, offset } => r matches Err(e) && e@ == (ErrorModel {
            kind,
            offset: Some(offset),
            cid: None,
        }),
    }
}

enum SectionRead {
    Section { start: usize, end: usize },
    NeedInput,
    Fail(ErrorKind),
}

fn find_section(buf: &[u8], pos: usize, closed: bool, limit: usize) -> (r: SectionRead)
    requires
        pos <= buf.len(),
    ensures
        match length_prefixed(buf@.skip(pos as int), closed, limit as nat) {
            Prefixed::Section { body, used } => r matches SectionRead::Section { start, end } && pos
                < start <= end <= buf.len() && end - pos == used && body == buf@.subrange(
                start as int,
                end as int,
            ),
            Prefixed::NeedInput => r is NeedInput,
            Prefixed::Fail(kind) => r matches SectionRead::Fail(k) && k == kind,
        },
{
    proof {
        lemma_parse_varint_skip(buf@, pos as int, 0, MAX_VARINT_LEN as nat);
        lemma_parse_varint_bounds(buf@, pos as int, MAX_VARINT_LEN as nat);
    }
    match read_varint(buf, pos) {
        VarintRead::Overflow => SectionRead::Fail(ErrorKind::Varint),
        VarintRead::Truncated => if closed {
            SectionRead::Fail(ErrorKind::Varint)
        } else {
            SectionRead::NeedInput
        },
        VarintRead::Value { value, len } => {
            if value > limit as u64 {
                return SectionRead::Fail(ErrorKind::BlockTooLarge);
            }
            let start: usize = pos + len;
            let room: usize = buf.len() - start;
            if value > room as u64 {
                if closed {
                    SectionRead::Fail(ErrorKind::TruncatedFrame)
                } else {
                    SectionRead::NeedInput
                }
            } else {
                let end: usize = start + value as usize;
                assert(buf@.skip(pos as int).subrange(len as int, (len + value) as int)
                    =~= buf@.subrange(start as int, end as int));
                SectionRead::Section { start, end }
            }
        },
    }
}

fn bump(offset: u64, n: usize) -> (r: u64)
    ensures
        r == advance_offset(offset, n as nat),
{
    let n64: u64 = n as u64;
    if n64 <= u64::MAX - offset {
        offset + n64
    } else {
        u64::MAX
    }
}

/// Reads an archive from input that arrives in pieces.
pub struct NodeReader {
    buf: Vec<u8>,
    pos: usize,
    closed: bool,
    header: Option<Header>,
    done: bool,
    limit: usize,
    offset: u64,
}

impl View for NodeReader {
    type V = ReaderModel;

    closed spec fn view(&self) -> ReaderModel {
        ReaderModel {
            pending: self.buf@.skip(self.pos as int),
            closed: self.closed,
            header: match self.header {
                Some(h) => Some(h@),
                None => None,
            },
            done: self.done,
            limit: self.limit as nat,
            offset: self.offset,
        }
    }
}

impl NodeReader {
    #[verifier::type_invariant]
    spec fn well_formed(self) -> bool {
        self.pos <= self.buf.len()
    }

    /// A reader that accepts sections of up to `DEFAULT_MAX_BLOCK_LEN` bytes.
    pub fn new() -> (r: NodeReader)
        ensures
            r@ == ReaderModel::fresh(DEFAULT_MAX_BLOCK_LEN as nat),
    {
        NodeReader::with_max_block_len(DEFAULT_MAX_BLOCK_LEN)
    }

    /// A reader that accepts sections of up to `limit` bytes.
    pub fn with_max_block_len(limit: usize) -> (r: NodeReader)
        ensures
            r@ == ReaderModel::fresh(limit as nat),
    {
        let r = NodeReader {
            buf: Vec::new(),
            pos: 0,
            closed: false,
            header: None,
            done: false,
            limit,
            offset: 0,
        };
        assert(r.buf@.skip(0) =~= Seq::<u8>::empty());
        r
    }

    /// A reader over a whole archive that is in memory.
    pub fn from_bytes(bytes: &[u8], limit: usize) -> (r: NodeReader)
        ensures
            r@ == ReaderModel::fresh(limit as nat).feed(bytes@).close(),
    {
        let mut r = NodeReader::with_max_block_len(limit);
        r.feed(bytes);
        r.close();
        assert(Seq::<u8>::empty() + bytes@ =~= bytes@);
        r
    }

    /// Hands the reader the next piece of input.
    pub fn feed(&mut self, chunk: &[u8])
        ensures
            final(self)@ == old(self)@.feed(chunk@),
    {
        proof {
            use_type_invariant(&*self);
        }
        if self.closed {
            return ;
        }
        let mut fresh: Vec<u8> = slice_to_vec(
            slice_subrange(self.buf.as_slice(), self.pos, self.buf.len()),
        );
        let ghost kept = fresh@;
        append_bytes(&mut fresh, chunk);
        self.pos = 0;
        self.buf = fresh;
        assert(self.buf@.skip(0) =~= kept + chunk@);
    }

    /// Tells the reader that no more input will come.
    pub fn close(&mut self)
        ensures
            final(self)@ == old(self)@.close(),
    {
        proof {
            use_type_invariant(&*self);
        }
        self.closed = true;
    }

    /// The header, once a pull has read it.
    pub fn header(&self) -> (r: Option<&Header>)
        ensures
            match self@.header {
                Some(h) => r matches Some(header) && header@ == h,
                None => r is None,
            },
    {
        self.header.as_ref()
    }

    /// Ends the stream because the byte source failed, and gives the
    /// failure to report.
    pub fn source_failed(&mut self) -> (r: CarError)
        ensures
            final(self)@ == old(self)@.finish(),
            r@ == (ErrorModel { kind: ErrorKind::Io, offset: Some(old(self)@.offset), cid: None }),
    {
        self.fail(ErrorKind::Io)
    }

    /// Ends the stream: every later pull gives `Read::End`.
    pub fn abort(&mut self)
        ensures
            final(self)@ == old(self)@.finish(),
    {
        proof {
            use_type_invariant(&*self);
        }
        self.done = true;
    }

    /// Whether the stream has ended.
    pub fn is_done(&self) -> (r: bool)
        ensures
            r == self@.done,
    {
        self.done
    }

    /// Count of input bytes used so far.
    pub fn offset(&self) -> (r: u64)
        ensures
            r == self@.offset,
    {
        self.offset
    }

    /// Count of bytes that were fed and not yet used.
    pub fn buffered(&self) -> (r: usize)
        ensures
            r == self@.pending.len(),
    {
        proof {
            use_type_invariant(self);
        }
        self.buf.len() - self.pos
    }

    fn fail(&mut self, kind: ErrorKind) -> (r: CarError)
        ensures
            final(self)@ == old(self)@.finish(),
            r@ == (ErrorModel { kind, offset: Some(old(self)@.offset), cid: None }),
    {
        proof {
            use_type_invariant(&*self);
        }
        self.done = true;
        CarError::at(kind, self.offset)
    }

    fn read_block(&mut self) -> (r: Result<Read, CarError>)
        requires
            !old(self)@.done,
            old(self)@.header is Some,
        ensures
            read_agrees(r, old(self)@.block_step().0),
            final(self)@ == old(self)@.block_step().1,
    {
        proof {
            use_type_invariant(&*self);
        }
        if self.buf.len() - self.pos == 0 {
            if self.closed {
                self.done = true;
                return Ok(Read::End);
            } else {
                return Ok(Read::NeedInput);
            }
        }
        match find_section(self.buf.as_slice(), self.pos, self.closed, self.limit) {
            SectionRead::NeedInput => Ok(Read::NeedInput),
            SectionRead::Fail(kind) => Err(self.fail(kind)),
            SectionRead::Section { start, end } => {
                if start == end {
                    self.done = true;
                    return Ok(Read::End);
                }
                let section: &[u8] = slice_subrange(self.buf.as_slice(), start, end);
                match Cid::read_prefix(section) {
                    None => Err(self.fail(ErrorKind::InvalidCid)),
                    Some((cid, len)) => {
                        let payload: Vec<u8> = slice_to_vec(
                            slice_subrange(section, len, section.len()),
                        );
                        let used: usize = end - self.pos;
                        assert(self.buf@.skip(self.pos as int).skip(used as int) =~= self.buf@.skip(
                            end as int,
                        ));
                        let offset: u64 = self.offset;
                        self.offset = bump(offset, used);
                        self.pos = end;
                        Ok(Read::Node(RawNode { cid, payload, offset }))
                    },
                }
            },
        }
    }

    /// Pulls the next block. The first pull reads the header first. An
    /// error ends the stream: every later pull gives `Read::End`.
    pub fn read_node(&mut self) -> (r: Result<Read, CarError>)
        ensures
            read_agrees(r, old(self)@.step().0),
            final(self)@ == old(self)@.step().1,
    {
        proof {
            use_type_invariant(&*self);
        }
        if self.done {
            return Ok(Read::End);
        }
        if self.header.is_none() {
            match find_section(self.buf.as_slice(), self.pos, self.closed, self.limit) {
                SectionRead::NeedInput => {
                    return Ok(Read::NeedInput);
                },
                SectionRead::Fail(kind) => {
                    return Err(self.fail(kind));
                },
                SectionRead::Section { start, end } => {
                    let parsed: Result<Header, ErrorKind> = read_header(
                        slice_subrange(self.buf.as_slice(), start, end),
                    );
                    match parsed {
                        Err(kind) => {
                            return Err(self.fail(kind));
                        },
                        Ok(header) => {
                            let used: usize = end - self.pos;
                            assert(self.buf@.skip(self.pos as int).skip(used as int)
                                =~= self.buf@.skip(end as int));
                            self.offset = bump(self.offset, used);
                            self.pos = end;
                            self.header = Some(header);
                        },
                    }
                },
            }
        }
        self.read_block()
    }
}

/// Appends `more` to `out`.
pub fn append_bytes(out: &mut Vec<u8>, more: &[u8])
    ensures
        final(out)@ == old(out)@ + more@,
{
    let mut i: usize = 0;
    while i < more.len()
        invariant
            i <= more.len(),
            out@ == old(out)@ + more@.take(i as int),
        decreases more.len() - i,
    {
        out.push(more[i]);
        i = i + 1;
        assert(out@ =~= old(out)@ + more@.take(i as int));
    }
    assert(more@.take(more.len() as int) =~= more@);
}

} // verus!
