use faithful_car::counter::{
    bar_template, decode_failure_message, decode_protobuf_bincode, rows, unpack_metadata,
    unpack_rewards, unpacked_from, Counters, DecodedData, RawProgress, Row, Unpacked,
    RAW_REPORT_STEP, SLOTS_PER_EPOCH,
};
use faithful_car::cid::Cid;
use faithful_car::group::Nodes;
use faithful_car::counter::VisitError;
use faithful_car::error::ErrorKind;
use faithful_car::node::{DataFrame, Kind, Node, NodeWithCid, Ref, Rewards, Transaction};

fn c_cid(seed: u8) -> Cid {
    let mut bytes = vec![0x01, 0x71, 0x12, 0x20];
    for i in 0..32u8 {
        bytes.push(seed ^ i);
    }
    Cid::from_bytes(&bytes).unwrap()
}

/// A transaction as it stands in a ledger archive.
fn c_transaction_bytes() -> Vec<u8> {
    vec![
        0x01, 0x86, 0xd3, 0x31, 0x47, 0x4a, 0xc0, 0xe7, 0xcb, 0x3c, 0x57, 0xb2, 0xf8, 0x0c, 0x32, 0x72,
        0xd6, 0x81, 0xb6, 0x2c, 0xdb, 0x9b, 0x30, 0x38, 0x1a, 0x22, 0xa9, 0x1f, 0x08, 0xfe, 0xe1, 0x9a,
        0xdf, 0x28, 0x9b, 0xbe, 0xc7, 0x29, 0x7a, 0xed, 0xf8, 0xd9, 0x03, 0xa3, 0x67, 0xd4, 0xff, 0x1b,
        0x83, 0x9e, 0xd5, 0xdc, 0xe9, 0xee, 0x65, 0x59, 0x94, 0x5b, 0x2c, 0x7c, 0x79, 0x22, 0x1d, 0x13,
        0x08, 0x01, 0x00, 0x03, 0x05, 0x05, 0x19, 0xb8, 0x78, 0xd6, 0x65, 0x40, 0xb3, 0x18, 0xcc, 0x86,
        0x9f, 0x22, 0x41, 0xc4, 0x1b, 0x76, 0xc2, 0x9f, 0x0d, 0x1f, 0x21, 0x96, 0x3e, 0x66, 0xab, 0x7f,
        0x8a, 0xd9, 0xc6, 0x2e, 0xa7, 0x05, 0x19, 0xb8, 0x6c, 0xa3, 0x95, 0xd3, 0x78, 0xc9, 0xf9, 0x02,
        0x07, 0x46, 0x3a, 0x25, 0x8b, 0x42, 0x51, 0xcc, 0x3e, 0x55, 0x03, 0xee, 0xbb, 0xb6, 0x38, 0x6d,
        0x64, 0x92, 0xe4, 0x23, 0x4a, 0x06, 0xa7, 0xd5, 0x17, 0x19, 0x2f, 0x0a, 0xaf, 0xc6, 0xf2, 0x65,
        0xe3, 0xfb, 0x77, 0xcc, 0x7a, 0xda, 0x82, 0xc5, 0x29, 0xd0, 0xbe, 0x3b, 0x13, 0x6e, 0x2d, 0x00,
        0x55, 0x20, 0x00, 0x00, 0x00, 0x06, 0xa7, 0xd5, 0x17, 0x18, 0xc7, 0x74, 0xc9, 0x28, 0x56, 0x63,
        0x98, 0x69, 0x1d, 0x5e, 0xb6, 0x8b, 0x5e, 0xb8, 0xa3, 0x9b, 0x4b, 0x6d, 0x5c, 0x73, 0x55, 0x5b,
        0x21, 0x00, 0x00, 0x00, 0x00, 0x07, 0x61, 0x48, 0x1d, 0x35, 0x74, 0x74, 0xbb, 0x7c, 0x4d, 0x76,
        0x24, 0xeb, 0xd3, 0xbd, 0xb3, 0xd8, 0x35, 0x5e, 0x73, 0xd1, 0x10, 0x43, 0xfc, 0x0d, 0xa3, 0x53,
        0x80, 0x00, 0x00, 0x00, 0x00, 0xb6, 0x3c, 0xcf, 0x21, 0x9e, 0x96, 0xd6, 0x90, 0x95, 0xa2, 0x5e,
        0x43, 0x9c, 0x0c, 0x0b, 0x06, 0x4c, 0xf0, 0x13, 0x97, 0xd8, 0xf6, 0x79, 0x2d, 0x58, 0x22, 0xca,
        0xd9, 0xf0, 0xe8, 0xf1, 0x0b, 0x01, 0x04, 0x04, 0x01, 0x02, 0x03, 0x00, 0x3d, 0x02, 0x00, 0x00,
        0x00, 0x02, 0x00, 0x00, 0x00, 0x00, 0x00, 0x00, 0x00, 0x7d, 0x14, 0x01, 0x01, 0x00, 0x00, 0x00,
        0x00, 0x7e, 0x14, 0x01, 0x01, 0x00, 0x00, 0x00, 0x00, 0xf2, 0xab, 0x07, 0xb3, 0x93, 0x0c, 0xc2,
        0xf6, 0x93, 0x26, 0x87, 0x3e, 0xfa, 0x41, 0x82, 0x52, 0xfc, 0x86, 0x9f, 0xda, 0x1d, 0xda, 0xbf,
        0x12, 0x7a, 0x17, 0x93, 0x28, 0x29, 0x35, 0xb8, 0x58, 0x00,
    ]
}

/// Transaction status metadata, compressed, as it stands in a ledger archive.
fn c_metadata_bytes() -> Vec<u8> {
    vec![
        0x28, 0xb5, 0x2f, 0xfd, 0x04, 0x00, 0x75, 0x01, 0x00, 0x22, 0x42, 0x07, 0x10, 0xd0, 0x47, 0x01,
        0x3f, 0x3d, 0xd2, 0x28, 0x9f, 0xfd, 0x13, 0x7a, 0x29, 0x2b, 0x8f, 0xf2, 0x7d, 0x60, 0x9c, 0xbd,
        0xa5, 0x85, 0x5e, 0x0e, 0x11, 0xea, 0xfd, 0xc1, 0x7c, 0x05, 0x00, 0xa7, 0x7a, 0x08, 0x32, 0x5e,
        0x41, 0xd6, 0xce, 0x1c, 0x6a, 0x28, 0x5f, 0xed, 0xed, 0xc4, 0xe2,
    ]
}

fn c_group(frames: &[(u8, u32, u32, &[u8], &[u8])]) -> Nodes {
    let mut group = Nodes::new();
    for (seed, index, total, data, next) in frames {
        let node = Node::DataFrame(DataFrame {
            index: *index,
            total: *total,
            data: data.to_vec(),
            next: next.iter().map(|s| c_cid(*s)).collect(),
        });
        group.push(NodeWithCid { cid: c_cid(*seed), node }).unwrap();
    }
    group
}

#[test]
fn counters_start_at_zero() {
    let c = Counters::new();
    for row in rows(true) {
        assert_eq!(c.value(row), 0);
    }
    assert_eq!(c.next_slot, None);
}

#[test]
fn rows_in_report_order() {
    assert_eq!(
        rows(false),
        vec![
            Row::Transaction,
            Row::Entry,
            Row::Block,
            Row::Subset,
            Row::Epoch,
            Row::Rewards,
            Row::DataFrame,
            Row::BlockSkipped,
        ]
    );
    let all = rows(true);
    assert_eq!(all.len(), 13);
    assert_eq!(&all[..8], &rows(false)[..]);
    assert_eq!(
        &all[8..],
        &[
            Row::TransactionMetaEmpty,
            Row::TransactionDecodeOk,
            Row::TransactionDecodeErr,
            Row::RewardsDecodeOk,
            Row::RewardsDecodeErr,
        ]
    );
}

#[test]
fn row_labels() {
    assert_eq!(Row::Transaction.labels(), ("parsed", "transaction"));
    assert_eq!(Row::DataFrame.labels(), ("parsed", "dataframe"));
    assert_eq!(Row::BlockSkipped.labels(), ("skipped", "block"));
    assert_eq!(Row::TransactionMetaEmpty.labels(), ("meta_empty", "transaction"));
    assert_eq!(Row::TransactionDecodeOk.labels(), ("decoded/ok", "transaction"));
    assert_eq!(Row::RewardsDecodeErr.labels(), ("decoded/err", "rewards"));
}

#[test]
fn bar_template_text() {
    assert_eq!(bar_template("parsed", "entry"), "{spinner} parsed:entry {pos}");
    assert_eq!(bar_template("decoded/ok", "rewards"), "{spinner} decoded/ok:rewards {pos}");
}

#[test]
fn decode_failure_message_text() {
    assert_eq!(
        decode_failure_message("tx metadata"),
        "failed to decode tx metadata with protobuf/bincode"
    );
}

#[test]
fn record_nodes_by_kind() {
    let mut c = Counters::new();
    assert!(c.record_node(Kind::Transaction));
    assert!(c.record_node(Kind::Transaction));
    assert!(c.record_node(Kind::Entry));
    assert!(c.record_node(Kind::Subset));
    assert!(c.record_node(Kind::Epoch));
    assert!(c.record_node(Kind::Rewards));
    assert!(c.record_node(Kind::DataFrame));
    assert!(!c.record_node(Kind::Block));
    assert_eq!(c.transaction, 2);
    assert_eq!(c.entry, 1);
    assert_eq!(c.subset, 1);
    assert_eq!(c.epoch, 1);
    assert_eq!(c.rewards, 1);
    assert_eq!(c.dataframe, 1);
    assert_eq!(c.block, 0);
}

#[test]
fn first_block_counts_from_the_start_of_its_epoch() {
    let mut c = Counters::new();
    let slot = 39 * SLOTS_PER_EPOCH + 17;
    assert!(c.record_block(slot));
    assert_eq!(c.block, 1);
    assert_eq!(c.block_skipped, 17);
    assert_eq!(c.next_slot, Some(slot + 1));
}

#[test]
fn later_blocks_count_the_slots_between() {
    let mut c = Counters::new();
    assert!(c.record_block(432_000));
    assert_eq!(c.block_skipped, 0);
    assert!(c.record_block(432_001));
    assert_eq!(c.block_skipped, 0);
    assert!(c.record_block(432_005));
    assert_eq!(c.block_skipped, 3);
    assert!(c.record_block(432_010));
    assert_eq!(c.block_skipped, 7);
    assert_eq!(c.block, 4);
    assert_eq!(c.next_slot, Some(432_011));
}

#[test]
fn block_before_the_expected_slot_is_not_counted() {
    let mut c = Counters::new();
    assert!(c.record_block(100));
    let before = c;
    assert!(!c.record_block(100));
    assert!(!c.record_block(50));
    assert_eq!(c, before);
    let mut last = Counters::new();
    assert!(!last.record_block(u64::MAX));
    assert_eq!(last, Counters::new());
}

#[test]
fn bump_stops_at_the_largest_number() {
    let mut c = Counters::new();
    assert!(c.bump(Row::Entry, u64::MAX - 1));
    assert!(c.bump(Row::Entry, 1));
    assert!(!c.bump(Row::Entry, 1));
    assert_eq!(c.entry, u64::MAX);
    assert!(!c.record_node(Kind::Entry));
}

#[test]
fn record_metadata_and_rewards() {
    let mut c = Counters::new();
    assert!(c.record_metadata(None));
    assert!(c.record_metadata(Some(true)));
    assert!(c.record_metadata(Some(true)));
    assert!(c.record_metadata(Some(false)));
    assert!(c.record_rewards(true));
    assert!(c.record_rewards(false));
    assert!(c.record_rewards(false));
    assert_eq!(c.transaction_meta_empty, 1);
    assert_eq!(c.transaction_decode_ok, 2);
    assert_eq!(c.transaction_decode_err, 1);
    assert_eq!(c.rewards_decode_ok, 1);
    assert_eq!(c.rewards_decode_err, 2);
    assert_eq!(c.value(Row::RewardsDecodeErr), 2);
}

#[test]
fn raw_progress_reports_every_step() {
    let mut p = RawProgress::new();
    for _ in 0..RAW_REPORT_STEP - 1 {
        assert_eq!(p.tick(), None);
    }
    assert_eq!(p.pending, RAW_REPORT_STEP - 1);
    assert_eq!(p.tick(), Some(131_072));
    assert_eq!(p.pending, 0);
    assert_eq!(p.tick(), None);
    assert_eq!(p.tick(), None);
    assert_eq!(p.flush(), 2);
    assert_eq!(p.flush(), 0);
}

#[test]
fn protobuf_reading_wins_over_bincode() {
    assert_eq!(
        decode_protobuf_bincode::<u8, &str>(Some("p"), Some(1)),
        Some(DecodedData::Protobuf("p"))
    );
    assert_eq!(
        decode_protobuf_bincode::<u8, &str>(Some("p"), None),
        Some(DecodedData::Protobuf("p"))
    );
    assert_eq!(
        decode_protobuf_bincode::<u8, &str>(None, Some(1)),
        Some(DecodedData::Bincode(1))
    );
    assert_eq!(decode_protobuf_bincode::<u8, &str>(None, None), None);
}

#[test]
fn unpack_metadata_decompresses() {
    let plain = b"transaction status metadata, transaction status metadata".to_vec();
    let packed = zstd::encode_all(&plain[..], 3).unwrap();
    assert_ne!(packed, plain);
    assert_eq!(unpack_metadata(&packed), Unpacked::Payload(plain.clone()));
    assert_eq!(unpack_rewards(&packed), Unpacked::Payload(plain));
}

#[test]
fn unpack_known_frame() {
    // a zstd frame that holds the five bytes "hello"
    let frame = [
        0x28, 0xb5, 0x2f, 0xfd, 0x20, 0x05, 0x29, 0x00, 0x00, 0x68, 0x65, 0x6c, 0x6c, 0x6f,
    ];
    assert_eq!(unpack_metadata(&frame), Unpacked::Payload(b"hello".to_vec()));
}

#[test]
fn unpack_empty_and_corrupt() {
    assert_eq!(unpack_metadata(&[]), Unpacked::Empty);
    assert_eq!(unpack_metadata(b"not a zstd frame"), Unpacked::Corrupt);
    assert_eq!(unpack_rewards(b"not a zstd frame"), Unpacked::Corrupt);
    assert_eq!(unpacked_from(None), Unpacked::Corrupt);
    assert_eq!(unpacked_from(Some(vec![1, 2])), Unpacked::Payload(vec![1, 2]));
}

#[test]
fn unpack_rewards_of_nothing() {
    // rewards are decompressed whatever their length
    match unpack_rewards(&[]) {
        Unpacked::Payload(bytes) => assert!(bytes.is_empty()),
        Unpacked::Corrupt => {}
        Unpacked::Empty => panic!("rewards are never taken as empty"),
    }
}

#[test]
fn visit_transaction_without_decoding_only_counts() {
    let mut c = Counters::new();
    let frame = Transaction {
        data: b"not a transaction".to_vec(),
        metadata: Ref::Chain(vec![c_cid(9)]),
        slot: 1,
        index: None,
    };
    assert_eq!(c.visit_transaction(&Nodes::new(), &frame, false), Ok(None));
    assert_eq!(c.transaction, 1);
    assert_eq!(c.transaction_meta_empty, 0);
}

#[test]
fn visit_transaction_checks_the_transaction() {
    let mut c = Counters::new();
    let frame = Transaction {
        data: b"not a transaction".to_vec(),
        metadata: Ref::Inline(vec![]),
        slot: 1,
        index: None,
    };
    assert_eq!(
        c.visit_transaction(&Nodes::new(), &frame, true),
        Err(VisitError::ParseTransaction)
    );
    assert_eq!(c.transaction, 1);
    let empty = Transaction { data: vec![], metadata: Ref::Inline(vec![]), slot: 1, index: None };
    assert_eq!(
        c.visit_transaction(&Nodes::new(), &empty, true),
        Err(VisitError::ParseTransaction)
    );
}

#[test]
fn visit_transaction_with_empty_metadata() {
    let mut c = Counters::new();
    let frame = Transaction {
        data: c_transaction_bytes(),
        metadata: Ref::Inline(vec![]),
        slot: 16848004,
        index: Some(0),
    };
    assert_eq!(c.visit_transaction(&Nodes::new(), &frame, true), Ok(None));
    assert_eq!(c.transaction, 1);
    assert_eq!(c.transaction_meta_empty, 1);
}

#[test]
fn visit_transaction_hands_back_decompressed_metadata() {
    let mut c = Counters::new();
    let packed = c_metadata_bytes();
    let plain = zstd::decode_all(&packed[..]).unwrap();
    assert!(!plain.is_empty());
    let frame = Transaction {
        data: c_transaction_bytes(),
        metadata: Ref::Inline(packed.clone()),
        slot: 16848004,
        index: Some(0),
    };
    assert_eq!(c.visit_transaction(&Nodes::new(), &frame, true), Ok(Some(plain.clone())));
    assert_eq!(c.transaction, 1);
    assert_eq!(c.transaction_meta_empty, 0);
    // the same metadata spread over two frames
    let (head, tail) = packed.split_at(20);
    let group = c_group(&[(1, 0, 2, head, &[2]), (2, 1, 2, tail, &[])]);
    let chained = Transaction {
        data: c_transaction_bytes(),
        metadata: Ref::Chain(vec![c_cid(1)]),
        slot: 16848004,
        index: Some(0),
    };
    assert_eq!(c.visit_transaction(&group, &chained, true), Ok(Some(plain)));
    assert_eq!(c.transaction, 2);
}

#[test]
fn visit_transaction_failures() {
    let mut c = Counters::new();
    let missing = Transaction {
        data: c_transaction_bytes(),
        metadata: Ref::Chain(vec![c_cid(1)]),
        slot: 1,
        index: None,
    };
    assert_eq!(
        c.visit_transaction(&Nodes::new(), &missing, true),
        Err(VisitError::Reassemble(ErrorKind::MissingRef))
    );
    let corrupt = Transaction {
        data: c_transaction_bytes(),
        metadata: Ref::Inline(b"no zstd frame".to_vec()),
        slot: 1,
        index: None,
    };
    assert_eq!(c.visit_transaction(&Nodes::new(), &corrupt, true), Err(VisitError::Decompress));
    assert_eq!(c.transaction, 2);
    let mut full = Counters::new();
    assert!(full.bump(Row::Transaction, u64::MAX));
    assert_eq!(full.visit_transaction(&Nodes::new(), &corrupt, false), Err(VisitError::Overflow));
    assert_eq!(full.transaction, u64::MAX);
}

#[test]
fn visit_rewards_counts_and_unpacks() {
    let mut c = Counters::new();
    let plain = b"rewards rewards rewards rewards".to_vec();
    let packed = zstd::encode_all(&plain[..], 1).unwrap();
    let frame = Rewards { slot: 5, data: Ref::Inline(packed.clone()) };
    assert_eq!(c.visit_rewards(&Nodes::new(), &frame, false), Ok(None));
    assert_eq!(c.visit_rewards(&Nodes::new(), &frame, true), Ok(Some(plain)));
    assert_eq!(c.rewards, 2);
    let corrupt = Rewards { slot: 5, data: Ref::Inline(b"no zstd frame".to_vec()) };
    assert_eq!(c.visit_rewards(&Nodes::new(), &corrupt, true), Err(VisitError::Decompress));
    let group = c_group(&[(1, 0, 1, b"x", &[1])]);
    let cyclic = Rewards { slot: 5, data: Ref::Chain(vec![c_cid(1)]) };
    assert_eq!(
        c.visit_rewards(&group, &cyclic, true),
        Err(VisitError::Reassemble(ErrorKind::CyclicChain))
    );
    assert_eq!(c.rewards, 4);
}

#[test]
fn after_metadata_and_after_rewards() {
    let mut c = Counters::new();
    assert_eq!(c.after_metadata(Unpacked::Empty), Ok(None));
    assert_eq!(c.transaction_meta_empty, 1);
    assert_eq!(c.after_metadata(Unpacked::Payload(vec![1, 2, 3])), Ok(Some(vec![1, 2, 3])));
    assert_eq!(c.after_metadata(Unpacked::Corrupt), Err(VisitError::Decompress));
    assert_eq!(c.transaction_meta_empty, 1);
    assert_eq!(Counters::after_rewards(Unpacked::Payload(vec![4])), Ok(Some(vec![4])));
    assert_eq!(Counters::after_rewards(Unpacked::Corrupt), Err(VisitError::Decompress));
    assert_eq!(Counters::after_rewards(Unpacked::Empty), Err(VisitError::Decompress));
}
