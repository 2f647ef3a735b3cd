//! The layout of an archive written out as byte sequences, and the proof
//! that the frame reader gives back the blocks that were laid out.

use crate::cid::{is_cid, lemma_parse_cid_extend, parse_cid};
use crate::frame::{length_prefixed, Outcome, Prefixed, ReaderModel};
use crate::cbor::{cbor_head, link_list_at, links_from, uint_at, Head};
use crate::error::{ErrorKind, ErrorModel};
use crate::header::{
    header_entry_at, parse_header, roots_key, text_at, version_key, EntryModel, HeaderModel,
};
use crate::stream::{raw_stream, RawModel};
use crate::varint::{
    encode_varint, lemma_pow128_values, lemma_varint_roundtrip, pow128, MAX_VARINT_LEN,
};
use vstd::prelude::*;

verus! {

/// The header of an archive without roots: the map of `roots`, an empty
/// array, and `version`, the number 1.
pub open spec fn plain_header() -> Seq<u8> {
    seq![
        0xa2u8, 0x65u8, 0x72u8, 0x6fu8, 0x6fu8, 0x74u8, 0x73u8, 0x80u8, 0x67u8, 0x76u8, 0x65u8,
        0x72u8, 0x73u8, 0x69u8, 0x6fu8, 0x6eu8, 0x01u8,
    ]
}

/// `s` holds the bytes of the header without roots.
spec fn is_plain_header(s: Seq<u8>) -> bool {
    &&& s.len() == 17
    &&& s[0] == 0xa2 && s[1] == 0x65 && s[2] == 0x72 && s[3] == 0x6f && s[4] == 0x6f && s[5]
        == 0x74 && s[6] == 0x73 && s[7] == 0x80
    &&& s[8] == 0x67 && s[9] == 0x76 && s[10] == 0x65 && s[11] == 0x72 && s[12] == 0x73 && s[13]
        == 0x69 && s[14] == 0x6f && s[15] == 0x6e && s[16] == 0x01
}

proof fn lemma_plain_header_bytes()
    ensures
        is_plain_header(plain_header()),
{
}

proof fn lemma_plain_roots_entry(s: Seq<u8>)
    requires
        is_plain_header(s),
    ensures
        header_entry_at(s, 1) == Ok::<(EntryModel, int), ErrorKind>(
            (EntryModel::Roots(Seq::empty()), 8),
        ),
{
    assert(cbor_head(s, 1) == Some(Head { major: 3, arg: 5, len: 1 }));
    assert(s.subrange(2, 7) =~= roots_key());
    assert(text_at(s, 1) == Ok::<(Seq<u8>, int), ErrorKind>((roots_key(), 7)));
    assert(cbor_head(s, 7) == Some(Head { major: 4, arg: 0, len: 1 }));
    assert(links_from(s, 8, 0) == Ok::<(Seq<Seq<u8>>, int), ErrorKind>((Seq::empty(), 8)));
    assert(link_list_at(s, 7) == Ok::<(Seq<Seq<u8>>, int), ErrorKind>((Seq::empty(), 8)));
}

proof fn lemma_plain_version_entry(s: Seq<u8>)
    requires
        is_plain_header(s),
    ensures
        header_entry_at(s, 8) == Ok::<(EntryModel, int), ErrorKind>((EntryModel::Version(1), 17)),
{
    assert(cbor_head(s, 8) == Some(Head { major: 3, arg: 7, len: 1 }));
    assert(s.subrange(9, 16) =~= version_key());
    assert(text_at(s, 8) == Ok::<(Seq<u8>, int), ErrorKind>((version_key(), 16)));
    assert(version_key() != roots_key()) by {
        assert(version_key().len() != roots_key().len());
    }
    assert(cbor_head(s, 16) == Some(Head { major: 0, arg: 1, len: 1 }));
    assert(uint_at(s, 16) == Ok::<(u64, int), ErrorKind>((1, 17)));
}

/// The header without roots reads as a header of version 1 without roots.
pub proof fn lemma_plain_header_reads()
    ensures
        parse_header(plain_header()) == Ok::<HeaderModel, ErrorKind>(
            HeaderModel { version: 1, roots: Seq::empty() },
        ),
        plain_header().len() == 17,
{
    let s = plain_header();
    lemma_plain_header_bytes();
    lemma_plain_roots_entry(s);
    lemma_plain_version_entry(s);
    assert(cbor_head(s, 0) == Some(Head { major: 5, arg: 2, len: 1 }));
    reveal(parse_header);
}

/// A section: the length of `body` in its shortest form, then `body`.
pub open spec fn encode_section(body: Seq<u8>) -> Seq<u8> {
    encode_varint(body.len()) + body
}

/// One section per block, each holding the identifier and then the payload.
pub open spec fn encode_blocks(blocks: RawModel) -> Seq<u8>
    decreases blocks.len(),
{
    if blocks.len() == 0 {
        Seq::empty()
    } else {
        encode_section(blocks.first().0 + blocks.first().1) + encode_blocks(blocks.drop_first())
    }
}

/// An archive: the section of the header, then the sections of the blocks.
pub open spec fn encode_car(header: Seq<u8>, blocks: RawModel) -> Seq<u8> {
    encode_section(header) + encode_blocks(blocks)
}

/// A section of this length can be written and is read by a reader with
/// this limit.
pub open spec fn fits(len: nat, limit: nat) -> bool {
    len <= limit && len < pow128(MAX_VARINT_LEN as nat)
}

/// Every block has a well-formed identifier and a section that fits.
pub open spec fn encodable(blocks: RawModel, limit: nat) -> bool {
    forall|i: int|
        0 <= i < blocks.len() ==> is_cid((#[trigger] blocks[i]).0) && fits(
            blocks[i].0.len() + blocks[i].1.len(),
            limit,
        )
}

/// A section that was laid out is found again in front of whatever follows
/// it.
pub proof fn lemma_section_is_found(body: Seq<u8>, rest: Seq<u8>, closed: bool, limit: nat)
    requires
        fits(body.len(), limit),
    ensures
        length_prefixed(encode_section(body) + rest, closed, limit) == (Prefixed::Section {
            body,
            used: encode_section(body).len(),
        }),
        encode_section(body).len() >= 1,
        (encode_section(body) + rest).skip(encode_section(body).len() as int) == rest,
{
    let prefix = encode_varint(body.len());
    let all = encode_section(body) + rest;
    lemma_varint_roundtrip(body.len(), Seq::empty(), body + rest, MAX_VARINT_LEN as nat);
    assert(Seq::<u8>::empty() + prefix + (body + rest) =~= all);
    assert(all.subrange(prefix.len() as int, (prefix.len() + body.len()) as int) =~= body);
    assert(all.skip(encode_section(body).len() as int) =~= rest);
}

/// A reader that has read the header and whose input is the sections of
/// `blocks`, and nothing more, gives exactly these blocks and then ends
/// without a failure.
pub proof fn lemma_blocks_roundtrip(m: ReaderModel, blocks: RawModel)
    requires
        m.closed,
        !m.done,
        m.header is Some,
        m.pending == encode_blocks(blocks),
        encodable(blocks, m.limit),
    ensures
        raw_stream(m) == (blocks, None::<ErrorModel>),
    decreases blocks.len(),
{
    if blocks.len() == 0 {
        assert(raw_stream(m).0 =~= blocks);
    } else {
        let cid = blocks.first().0;
        let payload = blocks.first().1;
        let body = cid + payload;
        let rest = encode_blocks(blocks.drop_first());
        lemma_section_is_found(body, rest, m.closed, m.limit);
        assert(is_cid(cid));
        lemma_parse_cid_extend(cid, payload);
        assert(body.take(cid.len() as int) =~= cid);
        assert(body.skip(cid.len() as int) =~= payload);
        assert(m.pending == encode_section(body) + rest);
        assert(body.len() >= 1);
        assert(parse_cid(body) is Some && parse_cid(body)->0.len() == cid.len());
        let after = m.step().1;
        assert(m.step() == m.block_step());
        assert(m.step().0 == Outcome::Node { cid, payload, offset: m.offset });
        assert(after.pending == rest);
        assert forall|i: int| 0 <= i < blocks.drop_first().len() implies is_cid(
            (#[trigger] blocks.drop_first()[i]).0,
        ) && fits(blocks.drop_first()[i].0.len() + blocks.drop_first()[i].1.len(), m.limit) by {
            assert(blocks.drop_first()[i] == blocks[i + 1]);
        }
        lemma_blocks_roundtrip(after, blocks.drop_first());
        assert(seq![(cid, payload)] + blocks.drop_first() =~= blocks);
    }
}

/// Framing round trip. From an archive laid out with a header that reads as
/// one and blocks with well-formed identifiers, a reader gives the blocks
/// that went in, in their order, and no failure.
pub proof fn lemma_framing_roundtrip(header: Seq<u8>, blocks: RawModel, limit: nat)
    requires
        parse_header(header) is Ok,
        fits(header.len(), limit),
        encodable(blocks, limit),
    ensures
        raw_stream(ReaderModel::fresh(limit).feed(encode_car(header, blocks)).close()) == (
            blocks,
            None::<ErrorModel>,
        ),
{
    let start = ReaderModel::fresh(limit).feed(encode_car(header, blocks)).close();
    let rest = encode_blocks(blocks);
    assert(start.pending =~= encode_section(header) + rest);
    lemma_section_is_found(header, rest, true, limit);
    let used = encode_section(header).len();
    let ready = ReaderModel { header: Some(parse_header(header)->Ok_0), ..start.consume(used) };
    assert(start.step() == ready.block_step());
    assert(ready.step() == ready.block_step());
    lemma_blocks_roundtrip(ready, blocks);
}

/// Framing round trip for archives without roots: whatever blocks with
/// well-formed identifiers are laid out behind the plain header, a reader
/// gives back exactly them. An archive of the header alone gives no block
/// and no failure.
pub proof fn lemma_plain_archive_roundtrip(blocks: RawModel, limit: nat)
    requires
        plain_header().len() <= limit,
        encodable(blocks, limit),
    ensures
        raw_stream(ReaderModel::fresh(limit).feed(encode_car(plain_header(), blocks)).close()) == (
            blocks,
            None::<ErrorModel>,
        ),
{
    lemma_plain_header_reads();
    lemma_pow128_values();
    lemma_framing_roundtrip(plain_header(), blocks, limit);
}

} // verus!
