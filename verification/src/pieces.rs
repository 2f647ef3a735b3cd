//! Input in pieces. A reader is fed as the bytes arrive, and a length or a
//! section may be cut anywhere between two pieces. The proofs here show that
//! the division does not matter: what a reader gives from a first piece,
//! followed by what it gives once the rest has come, is what it gives from
//! all the input at once.

use crate::frame::{length_prefixed, lemma_node_uses_input, Outcome, Prefixed, ReaderModel};
use crate::header::parse_header;
use crate::stream::{drained, raw_stream, RawModel};
use crate::varint::{lemma_parse_varint_bounds, lemma_parse_varint_extend, MAX_VARINT_LEN};
use vstd::prelude::*;

verus! {

/// The reader `m` with `more` input behind what it has, and with its input
/// closed or not as `closed` says.
pub open spec fn extended(m: ReaderModel, more: Seq<u8>, closed: bool) -> ReaderModel {
    ReaderModel { pending: m.pending + more, closed, ..m }
}

/// A section, or a failure, that is found in input that may still grow is
/// found in the same way once more input has come.
pub proof fn lemma_length_prefixed_extend(
    pending: Seq<u8>,
    more: Seq<u8>,
    closed: bool,
    limit: nat,
)
    requires
        !(length_prefixed(pending, false, limit) is NeedInput),
    ensures
        length_prefixed(pending + more, closed, limit) == length_prefixed(pending, false, limit),
{
    lemma_parse_varint_extend(pending, 0, more, MAX_VARINT_LEN as nat);
    lemma_parse_varint_bounds(pending, 0, MAX_VARINT_LEN as nat);
    match length_prefixed(pending, false, limit) {
        Prefixed::Section { body, used } => {
            assert((pending + more).subrange((used - body.len()) as int, used as int) =~= body);
        },
        _ => {},
    }
}

proof fn lemma_block_step_extend(m: ReaderModel, more: Seq<u8>, closed: bool)
    requires
        !m.closed,
        !(m.block_step().0 is NeedInput),
    ensures
        extended(m, more, closed).block_step().0 == m.block_step().0,
        extended(m, more, closed).block_step().1 == extended(m.block_step().1, more, closed),
{
    let e = extended(m, more, closed);
    lemma_length_prefixed_extend(m.pending, more, closed, m.limit);
    match length_prefixed(m.pending, false, m.limit) {
        Prefixed::Section { body, used } => {
            assert(e.pending.skip(used as int) =~= m.pending.skip(used as int) + more);
        },
        _ => {},
    }
}

/// A pull that gives a block, the end or a failure gives the same when more
/// input stands behind, and leaves the reader in the same state, save for
/// the input behind.
pub proof fn lemma_step_extend(m: ReaderModel, more: Seq<u8>, closed: bool)
    requires
        !m.closed,
        !(m.step().0 is NeedInput),
    ensures
        extended(m, more, closed).step().0 == m.step().0,
        extended(m, more, closed).step().1 == extended(m.step().1, more, closed),
{
    let e = extended(m, more, closed);
    if m.done {
    } else if m.header is Some {
        lemma_block_step_extend(m, more, closed);
    } else {
        lemma_length_prefixed_extend(m.pending, more, closed, m.limit);
        match length_prefixed(m.pending, false, m.limit) {
            Prefixed::Section { body, used } => {
                match parse_header(body) {
                    Ok(header) => {
                        let ready = ReaderModel { header: Some(header), ..m.consume(used) };
                        let ready_e = ReaderModel { header: Some(header), ..e.consume(used) };
                        assert(e.pending.skip(used as int) =~= m.pending.skip(used as int) + more);
                        assert(ready_e == extended(ready, more, closed));
                        lemma_block_step_extend(ready, more, closed);
                    },
                    Err(_) => {},
                }
            },
            _ => {},
        }
    }
}

/// A pull that asks for input may have read the header. Once more input
/// has come, the reader goes on from there as if it had not pulled.
pub proof fn lemma_wait_extend(m: ReaderModel, more: Seq<u8>, closed: bool)
    requires
        !m.closed,
        m.step().0 is NeedInput,
    ensures
        extended(m.step().1, more, closed).step() == extended(m, more, closed).step(),
{
    let e = extended(m, more, closed);
    if m.header is None && !m.done {
        match length_prefixed(m.pending, false, m.limit) {
            Prefixed::Section { body, used } => {
                lemma_length_prefixed_extend(m.pending, more, closed, m.limit);
                let header = parse_header(body)->Ok_0;
                let ready = ReaderModel { header: Some(header), ..m.consume(used) };
                let ready_e = ReaderModel { header: Some(header), ..e.consume(used) };
                assert(e.pending.skip(used as int) =~= m.pending.skip(used as int) + more);
                assert(ready_e == extended(ready, more, closed));
                assert(m.step().1 == ready);
            },
            _ => {},
        }
    }
}

/// The blocks that a reader gives from its input so far, followed by the
/// blocks that it gives after them once `more` input has come, are the
/// blocks that it gives when `more` is there from the start; and the
/// failure, if any, is the same.
pub proof fn lemma_input_in_pieces(m: ReaderModel, more: Seq<u8>, closed: bool)
    requires
        !m.closed,
    ensures
        raw_stream(extended(m, more, closed)).0 == raw_stream(m).0 + raw_stream(
            extended(drained(m), more, closed),
        ).0,
        raw_stream(extended(m, more, closed)).1 == (if raw_stream(m).1 is Some {
            raw_stream(m).1
        } else {
            raw_stream(extended(drained(m), more, closed)).1
        }),
    decreases m.pending.len(),
{
    match m.step() {
        (Outcome::Node { cid, payload, offset }, after) => {
            lemma_node_uses_input(m);
            lemma_step_extend(m, more, closed);
            lemma_input_in_pieces(after, more, closed);
            let tail = raw_stream(extended(drained(after), more, closed)).0;
            assert(seq![(cid, payload)] + (raw_stream(after).0 + tail) =~= (seq![(cid, payload)]
                + raw_stream(after).0) + tail);
        },
        (Outcome::NeedInput, after) => {
            lemma_wait_extend(m, more, closed);
            assert(RawModel::empty() + raw_stream(extended(after, more, closed)).0
                =~= raw_stream(extended(after, more, closed)).0);
        },
        (_, after) => {
            lemma_step_extend(m, more, closed);
            assert(after.done);
            assert(extended(after, more, closed).done);
            assert(RawModel::empty() + RawModel::empty() =~= RawModel::empty());
        },
    }
}

/// Feeding a reader two pieces is feeding it both at once.
pub proof fn lemma_feed_twice(m: ReaderModel, first: Seq<u8>, second: Seq<u8>)
    ensures
        m.feed(first).feed(second) == m.feed(first + second),
{
    assert(m.pending + first + second =~= m.pending + (first + second));
}

} // verus!
