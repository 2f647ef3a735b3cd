//! Content identifiers in their binary form: the byte 0x01, then the codec,
//! the hash function code and the digest length as LEB128 numbers, then the
//! digest.

use crate::varint::{
    encode_varint, lemma_parse_varint_bounds, lemma_parse_varint_extend, lemma_parse_varint_take,
    lemma_varint_roundtrip, parse_varint, pow128, read_varint, VarintParse, VarintRead,
    MAX_VARINT_LEN,
};
use vstd::prelude::*;
use vstd::slice::slice_to_vec;

verus! {

/// Where the parts of an identifier lie in the bytes that hold it.
pub struct CidLayout {
    pub codec: nat,
    pub hash_code: nat,
    /// Index of the first digest byte.
    pub digest_at: nat,
    pub digest_len: nat,
}

impl CidLayout {
    /// Count of bytes that the identifier takes.
    pub open spec fn len(self) -> nat {
        self.digest_at + self.digest_len
    }
}

/// The identifier that `s` starts with, if it starts with one. Each of the
/// three numbers has to end within `MAX_VARINT_LEN` bytes, and the whole
/// digest has to be there.
#[verifier::opaque]
pub open spec fn parse_cid(s: Seq<u8>) -> Option<CidLayout> {
    if s.len() == 0 || s[0] != 1 {
        None
    } else {
        match parse_varint(s, 1) {
            VarintParse::Value { value: codec, len: n1 } => match parse_varint(s, 1 + n1 as int) {
                VarintParse::Value { value: hash_code, len: n2 } => match parse_varint(
                    s,
                    1 + n1 as int + n2 as int,
                ) {
                    VarintParse::Value { value: digest_len, len: n3 } => if 1 + n1 + n2 + n3
                        + digest_len <= s.len() {
                        Some(CidLayout { codec, hash_code, digest_at: 1 + n1 + n2 + n3, digest_len })
                    } else {
                        None
                    },
                    _ => None,
                },
                _ => None,
            },
            _ => None,
        }
    }
}

/// `s` is one identifier, from its first byte to its last.
pub open spec fn is_cid(s: Seq<u8>) -> bool {
    parse_cid(s) matches Some(layout) && layout.len() == s.len()
}

/// The bytes of the version 1 identifier with these parts, each number in its
/// shortest form.
pub open spec fn encode_cid(codec: nat, hash_code: nat, digest: Seq<u8>) -> Seq<u8> {
    seq![1u8] + encode_varint(codec) + encode_varint(hash_code) + encode_varint(digest.len())
        + digest
}

/// An identifier at the start of an input is found again, unchanged, when
/// more input follows.
pub proof fn lemma_parse_cid_extend(s: Seq<u8>, more: Seq<u8>)
    requires
        parse_cid(s) is Some,
    ensures
        parse_cid(s + more) == parse_cid(s),
        s.len() >= 1,
{
    reveal(parse_cid);
    let t = s + more;
    assert(t[0] == s[0]);
    lemma_parse_varint_extend(s, 1, more, MAX_VARINT_LEN as nat);
    let n1 = parse_varint(s, 1)->len as int;
    lemma_parse_varint_extend(s, 1 + n1, more, MAX_VARINT_LEN as nat);
    let n2 = parse_varint(s, 1 + n1)->len as int;
    lemma_parse_varint_extend(s, 1 + n1 + n2, more, MAX_VARINT_LEN as nat);
}

/// The first `len()` bytes of an input that starts with an identifier are
/// that identifier.
pub proof fn lemma_parse_cid_prefix(s: Seq<u8>)
    requires
        parse_cid(s) is Some,
    ensures
        is_cid(s.take(parse_cid(s)->0.len() as int)),
        parse_cid(s.take(parse_cid(s)->0.len() as int)) == parse_cid(s),
{
    reveal(parse_cid);
    let layout = parse_cid(s)->0;
    let n = layout.len() as int;
    let p = s.take(n);
    let n1 = parse_varint(s, 1)->len as int;
    let n2 = parse_varint(s, 1 + n1)->len as int;
    lemma_parse_varint_bounds(s, 1, MAX_VARINT_LEN as nat);
    lemma_parse_varint_bounds(s, 1 + n1, MAX_VARINT_LEN as nat);
    lemma_parse_varint_bounds(s, 1 + n1 + n2, MAX_VARINT_LEN as nat);
    assert(p[0] == s[0]);
    lemma_parse_varint_take(s, 1, n, MAX_VARINT_LEN as nat);
    lemma_parse_varint_take(s, 1 + n1, n, MAX_VARINT_LEN as nat);
    lemma_parse_varint_take(s, 1 + n1 + n2, n, MAX_VARINT_LEN as nat);
}

/// Reading back the encoding of an identifier gives its parts.
pub proof fn lemma_cid_roundtrip(codec: nat, hash_code: nat, digest: Seq<u8>)
    requires
        codec < pow128(MAX_VARINT_LEN as nat),
        hash_code < pow128(MAX_VARINT_LEN as nat),
        digest.len() < pow128(MAX_VARINT_LEN as nat),
    ensures
        is_cid(encode_cid(codec, hash_code, digest)),
        parse_cid(encode_cid(codec, hash_code, digest)) matches Some(layout) && layout.codec
            == codec && layout.hash_code == hash_code && layout.digest_len == digest.len()
            && encode_cid(codec, hash_code, digest).skip(layout.digest_at as int) == digest,
{
    reveal(parse_cid);
    let a = encode_varint(codec);
    let b = encode_varint(hash_code);
    let c = encode_varint(digest.len());
    let s = encode_cid(codec, hash_code, digest);
    let budget = MAX_VARINT_LEN as nat;
    lemma_varint_roundtrip(codec, seq![1u8], b + c + digest, budget);
    assert(seq![1u8] + a + (b + c + digest) =~= s);
    lemma_varint_roundtrip(hash_code, seq![1u8] + a, c + digest, budget);
    assert(seq![1u8] + a + b + (c + digest) =~= s);
    lemma_varint_roundtrip(digest.len(), seq![1u8] + a + b, digest, budget);
    assert(s[0] == 1u8);
    assert(s.skip(1 + a.len() as int + b.len() as int + c.len() as int) =~= digest);
}

/// A content identifier. Two identifiers are the same when their bytes are.
#[derive(Debug, PartialEq, Eq, Hash)]
pub struct Cid {
    bytes: Vec<u8>,
}

/// The parts of an identifier, as read from a buffer.
pub struct CidFields {
    pub codec: u64,
    pub hash_code: u64,
    pub digest_at: usize,
    pub digest_len: usize,
}

impl View for Cid {
    type V = Seq<u8>;

    closed spec fn view(&self) -> Seq<u8> {
        self.bytes@
    }
}

impl Clone for Cid {
    fn clone(&self) -> (r: Self)
        ensures
            r@ == self@,
    {
        proof {
            use_type_invariant(self);
        }
        Cid { bytes: slice_to_vec(self.bytes.as_slice()) }
    }
}

/// Finds the identifier that `buf` starts with.
pub fn read_cid_layout(buf: &[u8]) -> (r: Option<CidFields>)
    ensures
        match parse_cid(buf@) {
            Some(layout) => r matches Some(f) && f.codec == layout.codec && f.hash_code
                == layout.hash_code && f.digest_at == layout.digest_at && f.digest_len
                == layout.digest_len && layout.len() <= buf.len(),
            None => r is None,
        },
{
    proof {
        reveal(parse_cid);
    }
    if buf.len() == 0 || buf[0] != 1 {
        return None;
    }
    let (codec, n1): (u64, usize) = match read_varint(buf, 1) {
        VarintRead::Value { value, len } => (value, len),
        _ => { return None; },
    };
    proof {
        lemma_parse_varint_bounds(buf@, 1, MAX_VARINT_LEN as nat);
    }
    let (hash_code, n2): (u64, usize) = match read_varint(buf, 1 + n1) {
        VarintRead::Value { value, len } => (value, len),
        _ => { return None; },
    };
    proof {
        lemma_parse_varint_bounds(buf@, 1 + n1, MAX_VARINT_LEN as nat);
    }
    let (digest_len, n3): (u64, usize) = match read_varint(buf, 1 + n1 + n2) {
        VarintRead::Value { value, len } => (value, len),
        _ => { return None; },
    };
    proof {
        lemma_parse_varint_bounds(buf@, 1 + n1 + n2, MAX_VARINT_LEN as nat);
    }
    let digest_at: usize = 1 + n1 + n2 + n3;
    let room: usize = buf.len() - digest_at;
    if digest_len > room as u64 {
        return None;
    }
    Some(CidFields { codec, hash_code, digest_at, digest_len: digest_len as usize })
}

impl Cid {
    #[verifier::type_invariant]
    spec fn well_formed(self) -> bool {
        is_cid(self.bytes@)
    }

    /// Takes `bytes` as an identifier if they are exactly one.
    pub fn from_bytes(bytes: &[u8]) -> (r: Option<Cid>)
        ensures
            is_cid(bytes@) <==> r is Some,
            r matches Some(cid) ==> cid@ == bytes@,
    {
        match read_cid_layout(bytes) {
            Some(f) => {
                if f.digest_at + f.digest_len == bytes.len() {
                    Some(Cid { bytes: slice_to_vec(bytes) })
                } else {
                    None
                }
            },
            None => None,
        }
    }

    /// Splits `section` into the identifier it starts with and what follows.
    pub fn read_prefix(section: &[u8]) -> (r: Option<(Cid, usize)>)
        ensures
            match parse_cid(section@) {
                Some(layout) => r matches Some((cid, len)) && len == layout.len() && cid@
                    == section@.take(len as int) && is_cid(cid@) && len <= section.len(),
                None => r is None,
            },
    {
        match read_cid_layout(section) {
            Some(f) => {
                let len: usize = f.digest_at + f.digest_len;
                proof {
                    lemma_parse_cid_prefix(section@);
                }
                let head: &[u8] = vstd::slice::slice_subrange(section, 0, len);
                assert(head@ == section@.take(len as int));
                Some((Cid { bytes: slice_to_vec(head) }, len))
            },
            None => None,
        }
    }

    /// The bytes of the identifier.
    pub fn as_bytes(&self) -> (r: &[u8])
        ensures
            r@ == self@,
    {
        self.bytes.as_slice()
    }

    /// Whether two identifiers are the same.
    pub fn same_as(&self, other: &Cid) -> (r: bool)
        ensures
            r == (self@ == other@),
    {
        bytes_equal(self.bytes.as_slice(), other.bytes.as_slice())
    }

    /// The multicodec of the content.
    pub fn codec(&self) -> (r: u64)
        ensures
            parse_cid(self@) matches Some(layout) && r == layout.codec,
    {
        proof {
            use_type_invariant(self);
        }
        match read_cid_layout(self.bytes.as_slice()) {
            Some(f) => f.codec,
            None => 0,
        }
    }

    /// The code of the hash function.
    pub fn hash_code(&self) -> (r: u64)
        ensures
            parse_cid(self@) matches Some(layout) && r == layout.hash_code,
    {
        proof {
            use_type_invariant(self);
        }
        match read_cid_layout(self.bytes.as_slice()) {
            Some(f) => f.hash_code,
            None => 0,
        }
    }

    /// The digest.
    pub fn digest(&self) -> (r: &[u8])
        ensures
            parse_cid(self@) matches Some(layout) && r@ == self@.skip(layout.digest_at as int),
    {
        proof {
            use_type_invariant(self);
        }
        match read_cid_layout(self.bytes.as_slice()) {
            Some(f) => vstd::slice::slice_subrange(
                self.bytes.as_slice(),
                f.digest_at,
                self.bytes.len(),
            ),
            None => self.bytes.as_slice(),
        }
    }
}

/// Whether two byte strings hold the same bytes.
pub fn bytes_equal(a: &[u8], b: &[u8]) -> (r: bool)
    ensures
        r == (a@ == b@),
{
    if a.len() != b.len() {
        return false;
    }
    let mut i: usize = 0;
    while i < a.len()
        invariant
            i <= a.len(),
            a.len() == b.len(),
            forall|j: int| 0 <= j < i ==> a@[j] == b@[j],
        decreases a.len() - i,
    {
        if a[i] != b[i] {
            return false;
        }
        i = i + 1;
    }
    assert(a@ =~= b@);
    true
}

} // verus!
