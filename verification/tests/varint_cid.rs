use faithful_car::cid::{bytes_equal, read_cid_layout, Cid};
use faithful_car::varint::{read_varint, VarintRead};

fn sample_cid(seed: u8) -> Vec<u8> {
    let mut bytes = vec![0x01, 0x71, 0x12, 0x20];
    for i in 0..32u8 {
        bytes.push(seed.wrapping_add(i));
    }
    bytes
}

#[test]
fn varint_single_byte() {
    assert_eq!(read_varint(&[0x00], 0), VarintRead::Value { value: 0, len: 1 });
    assert_eq!(read_varint(&[0x7f], 0), VarintRead::Value { value: 127, len: 1 });
}

#[test]
fn varint_two_bytes() {
    assert_eq!(read_varint(&[0x80, 0x01], 0), VarintRead::Value { value: 128, len: 2 });
    assert_eq!(read_varint(&[0xac, 0x02], 0), VarintRead::Value { value: 300, len: 2 });
}

#[test]
fn varint_at_offset() {
    assert_eq!(read_varint(&[0xff, 0xff, 0xac, 0x02, 0x05], 2), VarintRead::Value { value: 300, len: 2 });
}

#[test]
fn varint_nine_bytes_is_the_longest() {
    let nine = [0xff, 0xff, 0xff, 0xff, 0xff, 0xff, 0xff, 0xff, 0x7f];
    assert_eq!(
        read_varint(&nine, 0),
        VarintRead::Value { value: 0x7fff_ffff_ffff_ffff, len: 9 }
    );
    let ten = [0x80, 0x80, 0x80, 0x80, 0x80, 0x80, 0x80, 0x80, 0x80, 0x01];
    assert_eq!(read_varint(&ten, 0), VarintRead::Overflow);
}

#[test]
fn varint_truncated() {
    assert_eq!(read_varint(&[], 0), VarintRead::Truncated);
    assert_eq!(read_varint(&[0x80], 0), VarintRead::Truncated);
    assert_eq!(read_varint(&[0x80, 0x80, 0x80], 0), VarintRead::Truncated);
    assert_eq!(read_varint(&[0x01], 5), VarintRead::Truncated);
}

#[test]
fn varint_accepts_padded_encoding() {
    assert_eq!(read_varint(&[0x81, 0x00], 0), VarintRead::Value { value: 1, len: 2 });
}

#[test]
fn cid_from_bytes_accepts_version_one() {
    let bytes = sample_cid(7);
    let cid = Cid::from_bytes(&bytes).expect("a well-formed identifier");
    assert_eq!(cid.as_bytes(), &bytes[..]);
    assert_eq!(cid.codec(), 0x71);
    assert_eq!(cid.hash_code(), 0x12);
    assert_eq!(cid.digest(), &bytes[4..]);
    assert_eq!(cid.digest().len(), 32);
}

#[test]
fn cid_rejects_other_versions_and_lengths() {
    let mut bytes = sample_cid(1);
    bytes[0] = 0x00;
    assert!(Cid::from_bytes(&bytes).is_none());
    let mut short = sample_cid(1);
    short.pop();
    assert!(Cid::from_bytes(&short).is_none());
    let mut long = sample_cid(1);
    long.push(0);
    assert!(Cid::from_bytes(&long).is_none());
    assert!(Cid::from_bytes(&[]).is_none());
}

#[test]
fn cid_with_overlong_codec_varint_is_invalid() {
    let mut bytes = vec![0x01];
    bytes.extend_from_slice(&[0x80; 9]);
    bytes.push(0x01);
    bytes.extend_from_slice(&[0x12, 0x00]);
    assert!(Cid::from_bytes(&bytes).is_none());
    assert!(read_cid_layout(&bytes).is_none());
}

#[test]
fn cid_with_overlong_multihash_varints_is_invalid() {
    let mut code = vec![0x01, 0x71];
    code.extend_from_slice(&[0xff; 9]);
    code.push(0x01);
    code.push(0x00);
    assert!(Cid::from_bytes(&code).is_none());
    let mut len = vec![0x01, 0x71, 0x12];
    len.extend_from_slice(&[0xff; 9]);
    len.push(0x01);
    assert!(Cid::from_bytes(&len).is_none());
}

#[test]
fn cid_read_prefix_splits_section() {
    let mut section = sample_cid(3);
    section.extend_from_slice(b"payload");
    let (cid, len) = Cid::read_prefix(&section).expect("an identifier in front");
    assert_eq!(len, 36);
    assert_eq!(cid.as_bytes(), &section[..36]);
    assert!(Cid::read_prefix(b"payload").is_none());
}

#[test]
fn cid_same_as_compares_bytes() {
    let a = Cid::from_bytes(&sample_cid(1)).unwrap();
    let b = Cid::from_bytes(&sample_cid(1)).unwrap();
    let c = Cid::from_bytes(&sample_cid(2)).unwrap();
    assert!(a.same_as(&b));
    assert!(!a.same_as(&c));
    assert!(a.clone().same_as(&a));
    assert_eq!(a, b);
    assert_ne!(a, c);
}

#[test]
fn bytes_equal_compares_content() {
    assert!(bytes_equal(&[1, 2, 3], &[1, 2, 3]));
    assert!(!bytes_equal(&[1, 2, 3], &[1, 2, 4]));
    assert!(!bytes_equal(&[1, 2, 3], &[1, 2]));
    assert!(bytes_equal(&[], &[]));
}
