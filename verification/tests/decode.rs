use faithful_car::cbor::{read_bytes, read_head, read_link, read_link_list, read_opt_uint, read_u32, read_uint, Head};
use faithful_car::cid::Cid;
use faithful_car::error::ErrorKind;
use faithful_car::node::{
    decode_node, Block, DataFrame, Entry, Epoch, Kind, Node, NodeWithCid, RawNode, Ref, Rewards,
    SlotMeta, Subset, Transaction,
};

fn d_cid_bytes(seed: u8) -> Vec<u8> {
    let mut bytes = vec![0x01, 0x71, 0x12, 0x20];
    for i in 0..32u8 {
        bytes.push(seed.wrapping_mul(31).wrapping_add(i));
    }
    bytes
}

fn d_cid(seed: u8) -> Cid {
    Cid::from_bytes(&d_cid_bytes(seed)).unwrap()
}

fn d_head(major: u8, arg: u64) -> Vec<u8> {
    let m = major << 5;
    if arg < 24 {
        vec![m | arg as u8]
    } else if arg <= 0xff {
        vec![m | 24, arg as u8]
    } else if arg <= 0xffff {
        let mut v = vec![m | 25];
        v.extend_from_slice(&(arg as u16).to_be_bytes());
        v
    } else if arg <= 0xffff_ffff {
        let mut v = vec![m | 26];
        v.extend_from_slice(&(arg as u32).to_be_bytes());
        v
    } else {
        let mut v = vec![m | 27];
        v.extend_from_slice(&arg.to_be_bytes());
        v
    }
}

fn d_uint(v: u64) -> Vec<u8> {
    d_head(0, v)
}

fn d_bytes(b: &[u8]) -> Vec<u8> {
    let mut v = d_head(2, b.len() as u64);
    v.extend_from_slice(b);
    v
}

fn d_link(cid: &[u8]) -> Vec<u8> {
    let mut v = vec![0xd8, 0x2a];
    let mut inner = vec![0x00];
    inner.extend_from_slice(cid);
    v.extend_from_slice(&d_bytes(&inner));
    v
}

fn d_links(seeds: &[u8]) -> Vec<u8> {
    let mut v = d_head(4, seeds.len() as u64);
    for s in seeds {
        v.extend_from_slice(&d_link(&d_cid_bytes(*s)));
    }
    v
}

fn d_node(items: &[Vec<u8>]) -> Vec<u8> {
    let mut v = d_head(4, items.len() as u64);
    for item in items {
        v.extend_from_slice(item);
    }
    v
}

fn d_cids(seeds: &[u8]) -> Vec<Cid> {
    seeds.iter().map(|s| d_cid(*s)).collect()
}

#[test]
fn head_forms() {
    assert_eq!(read_head(&[0x17], 0), Some(Head { major: 0, arg: 23, len: 1 }));
    assert_eq!(read_head(&[0x18, 0x18], 0), Some(Head { major: 0, arg: 24, len: 2 }));
    assert_eq!(read_head(&[0x59, 0x01, 0x4a], 0), Some(Head { major: 2, arg: 330, len: 3 }));
    assert_eq!(
        read_head(&[0x9a, 0x00, 0x01, 0x00, 0x00], 0),
        Some(Head { major: 4, arg: 65536, len: 5 })
    );
    assert_eq!(
        read_head(&[0x1b, 0x48, 0xac, 0xf5, 0x65, 0x98, 0xbd, 0x34, 0xf8], 0),
        Some(Head { major: 0, arg: 5236830283428082936, len: 9 })
    );
    assert_eq!(read_head(&[0xd8, 0x2a], 0), Some(Head { major: 6, arg: 42, len: 2 }));
    assert_eq!(read_head(&[0xf6], 0), Some(Head { major: 7, arg: 22, len: 1 }));
}

#[test]
fn head_truncated_or_reserved() {
    assert_eq!(read_head(&[], 0), None);
    assert_eq!(read_head(&[0x18], 0), None);
    assert_eq!(read_head(&[0x19, 0x01], 0), None);
    assert_eq!(read_head(&[0x1a, 0, 0, 0], 0), None);
    assert_eq!(read_head(&[0x1b, 0, 0, 0, 0, 0, 0, 0], 0), None);
    assert_eq!(read_head(&[0x1c], 0), None);
    assert_eq!(read_head(&[0x9f], 0), None);
    assert_eq!(read_head(&[0x01], 1), None);
}

#[test]
fn uint_readers() {
    assert_eq!(read_uint(&[0x19, 0x30, 0xd4], 0), Ok((12500, 3)));
    assert_eq!(read_uint(&[0x40], 0), Err(ErrorKind::MalformedNode));
    assert_eq!(read_uint(&[0x20], 0), Err(ErrorKind::MalformedNode));
    assert_eq!(read_uint(&[], 0), Err(ErrorKind::Cbor));
    assert_eq!(read_u32(&[0x1a, 0xff, 0xff, 0xff, 0xff], 0), Ok((u32::MAX, 5)));
    assert_eq!(
        read_u32(&[0x1b, 0, 0, 0, 1, 0, 0, 0, 0], 0),
        Err(ErrorKind::MalformedNode)
    );
    assert_eq!(read_opt_uint(&[0xf6], 0), Ok((None, 1)));
    assert_eq!(read_opt_uint(&[0x05], 0), Ok((Some(5), 1)));
    assert_eq!(read_opt_uint(&[0xf5], 0), Err(ErrorKind::MalformedNode));
}

#[test]
fn bytes_reader() {
    assert_eq!(read_bytes(&[0x43, 0x41, 0x42, 0x43], 0), Ok((vec![0x41, 0x42, 0x43], 4)));
    assert_eq!(read_bytes(&[0x40], 0), Ok((vec![], 1)));
    assert_eq!(read_bytes(&[0x43, 0x41, 0x42], 0), Err(ErrorKind::Cbor));
    assert_eq!(read_bytes(&[0x63, 0x41, 0x42, 0x43], 0), Err(ErrorKind::MalformedNode));
}

#[test]
fn link_reader() {
    let cid = d_cid_bytes(9);
    let link = d_link(&cid);
    assert_eq!(link.len(), 2 + 2 + 37);
    let (got, next) = read_link(&link, 0).unwrap();
    assert_eq!(got.as_bytes(), &cid[..]);
    assert_eq!(next, link.len());
}

#[test]
fn link_reader_errors() {
    let cid = d_cid_bytes(9);
    // no zero byte in front of the identifier
    let mut bare = vec![0xd8, 0x2a];
    bare.extend_from_slice(&d_bytes(&cid));
    assert_eq!(read_link(&bare, 0).unwrap_err(), ErrorKind::InvalidCid);
    // an identifier with a byte too many
    let mut long = cid.clone();
    long.push(0);
    assert_eq!(read_link(&d_link(&long), 0).unwrap_err(), ErrorKind::InvalidCid);
    // an empty byte string
    assert_eq!(read_link(&[0xd8, 0x2a, 0x40], 0).unwrap_err(), ErrorKind::InvalidCid);
    // another tag
    let mut other = d_link(&cid);
    other[1] = 0x2b;
    assert_eq!(read_link(&other, 0).unwrap_err(), ErrorKind::MalformedNode);
    // not a tag at all
    assert_eq!(read_link(&d_bytes(&cid), 0).unwrap_err(), ErrorKind::MalformedNode);
    // the tag around something that is no byte string
    assert_eq!(read_link(&[0xd8, 0x2a, 0x01], 0).unwrap_err(), ErrorKind::MalformedNode);
    // cut off
    let whole = d_link(&cid);
    assert_eq!(read_link(&whole[..10], 0).unwrap_err(), ErrorKind::Cbor);
    assert_eq!(read_link(&whole[..1], 0).unwrap_err(), ErrorKind::Cbor);
}

#[test]
fn link_list_reader() {
    let list = d_links(&[1, 2, 3]);
    let (cids, next) = read_link_list(&list, 0).unwrap();
    assert_eq!(cids, d_cids(&[1, 2, 3]));
    assert_eq!(next, list.len());
    let (none, next) = read_link_list(&[0x80], 0).unwrap();
    assert!(none.is_empty());
    assert_eq!(next, 1);
    assert_eq!(read_link_list(&[0x82], 0).unwrap_err(), ErrorKind::Cbor);
    assert_eq!(read_link_list(&[0x81, 0x01], 0).unwrap_err(), ErrorKind::MalformedNode);
    assert_eq!(read_link_list(&[0x01], 0).unwrap_err(), ErrorKind::MalformedNode);
}

#[test]
fn kind_tags() {
    let kinds = [
        Kind::Transaction,
        Kind::Entry,
        Kind::Block,
        Kind::Subset,
        Kind::Epoch,
        Kind::Rewards,
        Kind::DataFrame,
    ];
    for (tag, kind) in kinds.iter().enumerate() {
        assert_eq!(Kind::from_u64(tag as u64), Some(*kind));
        assert_eq!(kind.to_u64(), tag as u64);
    }
    assert_eq!(Kind::from_u64(7), None);
    assert_eq!(Kind::from_u64(u64::MAX), None);
}

#[test]
fn decode_dataframe_with_empty_next() {
    let payload = d_node(&[d_uint(6), d_uint(0), d_uint(1), d_bytes(b"ABC"), d_links(&[])]);
    assert_eq!(payload, vec![0x85, 0x06, 0x00, 0x01, 0x43, 0x41, 0x42, 0x43, 0x80]);
    let node = decode_node(&payload).unwrap();
    assert_eq!(
        node,
        Node::DataFrame(DataFrame { index: 0, total: 1, data: vec![0x41, 0x42, 0x43], next: vec![] })
    );
    assert_eq!(node.kind(), Kind::DataFrame);
}

#[test]
fn decode_dataframe_next_absent_null_and_empty_are_the_same() {
    let absent = d_node(&[d_uint(6), d_uint(3), d_uint(4), d_bytes(b"xy")]);
    let null = d_node(&[d_uint(6), d_uint(3), d_uint(4), d_bytes(b"xy"), vec![0xf6]]);
    let empty = d_node(&[d_uint(6), d_uint(3), d_uint(4), d_bytes(b"xy"), d_links(&[])]);
    let expected =
        Node::DataFrame(DataFrame { index: 3, total: 4, data: b"xy".to_vec(), next: vec![] });
    assert_eq!(decode_node(&absent).unwrap(), expected);
    assert_eq!(decode_node(&null).unwrap(), expected);
    assert_eq!(decode_node(&empty).unwrap(), expected);
}

#[test]
fn decode_dataframe_with_next() {
    let payload = d_node(&[d_uint(6), d_uint(22), d_uint(28), d_bytes(b"data"), d_links(&[4, 5])]);
    assert_eq!(
        decode_node(&payload).unwrap(),
        Node::DataFrame(DataFrame {
            index: 22,
            total: 28,
            data: b"data".to_vec(),
            next: d_cids(&[4, 5]),
        })
    );
}

#[test]
fn decode_dataframe_index_over_32_bits_is_malformed() {
    let payload = d_node(&[d_uint(6), d_uint(1 << 32), d_uint(1), d_bytes(b""), d_links(&[])]);
    assert_eq!(decode_node(&payload).unwrap_err(), ErrorKind::MalformedNode);
    let payload = d_node(&[d_uint(6), d_uint(0), d_uint(u64::MAX), d_bytes(b""), d_links(&[])]);
    assert_eq!(decode_node(&payload).unwrap_err(), ErrorKind::MalformedNode);
}

#[test]
fn decode_transaction_inline() {
    let payload = d_node(&[
        d_uint(0),
        d_bytes(b"tx"),
        d_bytes(b"meta"),
        d_uint(16848004),
        d_uint(0),
    ]);
    assert_eq!(
        decode_node(&payload).unwrap(),
        Node::Transaction(Transaction {
            data: b"tx".to_vec(),
            metadata: Ref::Inline(b"meta".to_vec()),
            slot: 16848004,
            index: Some(0),
        })
    );
}

#[test]
fn decode_transaction_with_chain_and_null_index() {
    let payload =
        d_node(&[d_uint(0), d_bytes(b"tx"), d_links(&[1, 2]), d_uint(7), vec![0xf6]]);
    assert_eq!(
        decode_node(&payload).unwrap(),
        Node::Transaction(Transaction {
            data: b"tx".to_vec(),
            metadata: Ref::Chain(d_cids(&[1, 2])),
            slot: 7,
            index: None,
        })
    );
}

#[test]
fn decode_transaction_empty_chain_is_malformed() {
    let payload = d_node(&[d_uint(0), d_bytes(b"tx"), d_links(&[]), d_uint(7), vec![0xf6]]);
    assert_eq!(decode_node(&payload).unwrap_err(), ErrorKind::MalformedNode);
}

#[test]
fn decode_transaction_negative_slot_is_malformed() {
    let payload = d_node(&[d_uint(0), d_bytes(b"tx"), d_bytes(b""), vec![0x20], vec![0xf6]]);
    assert_eq!(decode_node(&payload).unwrap_err(), ErrorKind::MalformedNode);
}

#[test]
fn decode_entry() {
    let hash = [0x3a; 32];
    let payload = d_node(&[d_uint(1), d_uint(5), d_uint(12500), d_bytes(&hash)]);
    assert_eq!(
        decode_node(&payload).unwrap(),
        Node::Entry(Entry { index: 5, num_hashes: 12500, hash: hash.to_vec() })
    );
}

#[test]
fn decode_block() {
    let meta = d_node(&[d_uint(8), d_uint(1_600_000_000), vec![0xf6]]);
    let payload = d_node(&[d_uint(2), d_uint(9), meta, d_links(&[1, 2, 3]), d_links(&[4])]);
    assert_eq!(
        decode_node(&payload).unwrap(),
        Node::Block(Block {
            slot: 9,
            meta: SlotMeta { parent_slot: 8, blocktime: 1_600_000_000, block_height: None },
            entries: d_cids(&[1, 2, 3]),
            rewards: d_cids(&[4]),
        })
    );
}

#[test]
fn decode_block_with_height_and_no_links() {
    let meta = d_node(&[d_uint(0), d_uint(0), d_uint(77)]);
    let payload = d_node(&[d_uint(2), d_uint(1), meta, d_links(&[]), d_links(&[])]);
    assert_eq!(
        decode_node(&payload).unwrap(),
        Node::Block(Block {
            slot: 1,
            meta: SlotMeta { parent_slot: 0, blocktime: 0, block_height: Some(77) },
            entries: vec![],
            rewards: vec![],
        })
    );
}

#[test]
fn decode_block_with_short_meta_is_malformed() {
    let meta = d_node(&[d_uint(0), d_uint(0)]);
    let payload = d_node(&[d_uint(2), d_uint(1), meta, d_links(&[]), d_links(&[])]);
    assert_eq!(decode_node(&payload).unwrap_err(), ErrorKind::MalformedNode);
}

#[test]
fn decode_subset() {
    let payload = d_node(&[d_uint(3), d_uint(100), d_uint(200), d_links(&[6, 7])]);
    assert_eq!(
        decode_node(&payload).unwrap(),
        Node::Subset(Subset { first: 100, last: 200, blocks: d_cids(&[6, 7]) })
    );
}

#[test]
fn decode_epoch() {
    let payload = d_node(&[d_uint(4), d_uint(39), d_links(&[8])]);
    assert_eq!(
        decode_node(&payload).unwrap(),
        Node::Epoch(Epoch { epoch: 39, subsets: d_cids(&[8]) })
    );
}

#[test]
fn decode_rewards() {
    let payload = d_node(&[d_uint(5), d_uint(u64::MAX), d_bytes(b"r")]);
    assert_eq!(
        decode_node(&payload).unwrap(),
        Node::Rewards(Rewards { slot: u64::MAX, data: Ref::Inline(b"r".to_vec()) })
    );
    let payload = d_node(&[d_uint(5), d_uint(3), d_links(&[9])]);
    assert_eq!(
        decode_node(&payload).unwrap(),
        Node::Rewards(Rewards { slot: 3, data: Ref::Chain(d_cids(&[9])) })
    );
}

#[test]
fn decode_unknown_kind() {
    assert_eq!(decode_node(&d_node(&[d_uint(7)])).unwrap_err(), ErrorKind::UnknownKind);
    assert_eq!(decode_node(&d_node(&[d_uint(1000), d_uint(1)])).unwrap_err(), ErrorKind::UnknownKind);
    assert_eq!(decode_node(&d_node(&[d_bytes(b"x")])).unwrap_err(), ErrorKind::UnknownKind);
    assert_eq!(decode_node(&d_node(&[])).unwrap_err(), ErrorKind::UnknownKind);
    assert_eq!(decode_node(&d_uint(6)).unwrap_err(), ErrorKind::UnknownKind);
}

#[test]
fn decode_wrong_array_length_is_malformed() {
    // one item more than an epoch has
    let long = d_node(&[d_uint(4), d_uint(39), d_links(&[8]), d_uint(0)]);
    assert_eq!(decode_node(&long).unwrap_err(), ErrorKind::MalformedNode);
    // one item less
    let short = d_node(&[d_uint(4), d_uint(39)]);
    assert_eq!(decode_node(&short).unwrap_err(), ErrorKind::MalformedNode);
    let frame = d_node(&[d_uint(6), d_uint(0), d_uint(1), d_bytes(b""), d_links(&[]), d_uint(0)]);
    assert_eq!(decode_node(&frame).unwrap_err(), ErrorKind::MalformedNode);
    let frame = d_node(&[d_uint(6), d_uint(0), d_uint(1)]);
    assert_eq!(decode_node(&frame).unwrap_err(), ErrorKind::MalformedNode);
}

#[test]
fn decode_cbor_errors() {
    assert_eq!(decode_node(&[]).unwrap_err(), ErrorKind::Cbor);
    assert_eq!(decode_node(&[0x83]).unwrap_err(), ErrorKind::Cbor);
    // an epoch cut off inside its list
    let whole = d_node(&[d_uint(4), d_uint(39), d_links(&[8])]);
    assert_eq!(decode_node(&whole[..whole.len() - 1]).unwrap_err(), ErrorKind::Cbor);
    // bytes after the node
    let mut trailing = whole.clone();
    trailing.push(0x00);
    assert_eq!(decode_node(&trailing).unwrap_err(), ErrorKind::Cbor);
    // an indefinite-length array
    assert_eq!(decode_node(&[0x9f, 0x04, 0xff]).unwrap_err(), ErrorKind::Cbor);
}

#[test]
fn decode_invalid_cid_in_node() {
    let mut bad = vec![0xd8, 0x2a];
    bad.extend_from_slice(&d_bytes(&[0x00, 0x02, 0x71, 0x12, 0x00]));
    let mut list = d_head(4, 1);
    list.extend_from_slice(&bad);
    let payload = d_node(&[d_uint(4), d_uint(39), list]);
    assert_eq!(decode_node(&payload).unwrap_err(), ErrorKind::InvalidCid);
}

#[test]
fn decode_twice_gives_the_same_node() {
    let payload = d_node(&[d_uint(6), d_uint(1), d_uint(2), d_bytes(b"same"), d_links(&[3])]);
    let raw = RawNode { cid: d_cid(1), payload, offset: 17 };
    let first = NodeWithCid::decode(raw.clone()).unwrap();
    let second = NodeWithCid::decode(raw).unwrap();
    assert_eq!(first, second);
    assert_eq!(first.cid, d_cid(1));
}

#[test]
fn decode_failure_names_the_block() {
    let raw = RawNode { cid: d_cid(5), payload: d_node(&[d_uint(9)]), offset: 1234 };
    let err = NodeWithCid::decode(raw).unwrap_err();
    assert_eq!(err.kind, ErrorKind::UnknownKind);
    assert_eq!(err.cid, Some(d_cid(5)));
    assert_eq!(err.offset, Some(1234));
}

#[test]
fn decode_keeps_the_blocks_identifier() {
    let raw = RawNode { cid: d_cid(8), payload: d_node(&[d_uint(4), d_uint(1), d_links(&[])]), offset: 0 };
    let node = NodeWithCid::decode(raw).unwrap();
    assert_eq!(node.cid, d_cid(8));
    assert_eq!(node.node, Node::Epoch(Epoch { epoch: 1, subsets: vec![] }));
}
