//! The CBOR items that nodes and the archive header are made of: unsigned
//! integers, byte strings, arrays, null and links (tag 42 around a byte
//! string that holds a zero byte and an identifier). Lengths are definite.

use crate::cid::{is_cid, Cid};
use crate::error::ErrorKind;
use vstd::prelude::*;
use vstd::slice::{slice_subrange, slice_to_vec};

verus! {

pub const MAJOR_UINT: u8 = 0;

pub const MAJOR_BYTES: u8 = 2;

pub const MAJOR_TEXT: u8 = 3;

pub const MAJOR_ARRAY: u8 = 4;

pub const MAJOR_MAP: u8 = 5;

pub const MAJOR_TAG: u8 = 6;

/// The tag that marks a link.
pub const TAG_LINK: u64 = 42;

/// The byte that encodes null.
pub const NULL_BYTE: u8 = 0xf6;

/// The first bytes of an item: its major type and its argument.
#[derive(Clone, Copy, Debug, PartialEq, Eq)]
pub struct Head {
    pub major: u8,
    pub arg: u64,
    /// Count of bytes that the head takes, from 1 to 9.
    pub len: usize,
}

/// Two bytes at `pos` as a big-endian number.
pub open spec fn be16(s: Seq<u8>, pos: int) -> int {
    s[pos] * 0x100 + s[pos + 1]
}

/// Four bytes at `pos` as a big-endian number.
pub open spec fn be32(s: Seq<u8>, pos: int) -> int {
    be16(s, pos) * 0x1_0000 + be16(s, pos + 2)
}

/// Eight bytes at `pos` as a big-endian number.
pub open spec fn be64(s: Seq<u8>, pos: int) -> int {
    be32(s, pos) * 0x1_0000_0000 + be32(s, pos + 4)
}

/// The head of the item at `pos`. The top three bits of the first byte are
/// the major type. The low five bits are the argument if below 24, and else
/// say that it follows in 1, 2, 4 or 8 bytes; 28 to 31 are not accepted.
pub open spec fn cbor_head(s: Seq<u8>, pos: int) -> Option<Head> {
    if pos < 0 || pos >= s.len() {
        None
    } else {
        let major = (s[pos] / 32) as u8;
        let info = s[pos] % 32;
        if info < 24 {
            Some(Head { major, arg: info as u64, len: 1 })
        } else if info == 24 && pos + 1 < s.len() {
            Some(Head { major, arg: s[pos + 1] as u64, len: 2 })
        } else if info == 25 && pos + 2 < s.len() {
            Some(Head { major, arg: be16(s, pos + 1) as u64, len: 3 })
        } else if info == 26 && pos + 4 < s.len() {
            Some(Head { major, arg: be32(s, pos + 1) as u64, len: 5 })
        } else if info == 27 && pos + 8 < s.len() {
            Some(Head { major, arg: be64(s, pos + 1) as u64, len: 9 })
        } else {
            None
        }
    }
}

/// Reads the head of the item at `pos`.
pub fn read_head(buf: &[u8], pos: usize) -> (r: Option<Head>)
    ensures
        r == cbor_head(buf@, pos as int),
        r matches Some(h) ==> 1 <= h.len <= 9 && pos + h.len <= buf.len() && h.major < 8,
{
    let n: usize = buf.len();
    if pos >= n {
        return None;
    }
    let first: u8 = buf[pos];
    let major: u8 = first / 32;
    let info: u8 = first % 32;
    let room: usize = n - pos - 1;
    if info < 24 {
        Some(Head { major, arg: info as u64, len: 1 })
    } else if info == 24 && room >= 1 {
        Some(Head { major, arg: buf[pos + 1] as u64, len: 2 })
    } else if info == 25 && room >= 2 {
        Some(Head { major, arg: read_be16(buf, pos + 1), len: 3 })
    } else if info == 26 && room >= 4 {
        Some(Head { major, arg: read_be32(buf, pos + 1), len: 5 })
    } else if info == 27 && room >= 8 {
        Some(Head { major, arg: read_be64(buf, pos + 1), len: 9 })
    } else {
        None
    }
}

fn read_be16(buf: &[u8], pos: usize) -> (r: u64)
    requires
        pos + 2 <= buf.len(),
    ensures
        r == be16(buf@, pos as int),
        r <= 0xffff,
{
    (buf[pos] as u64) * 0x100 + (buf[pos + 1] as u64)
}

fn read_be32(buf: &[u8], pos: usize) -> (r: u64)
    requires
        pos + 4 <= buf.len(),
    ensures
        r == be32(buf@, pos as int),
        r <= 0xffff_ffff,
{
    read_be16(buf, pos) * 0x1_0000 + read_be16(buf, pos + 2)
}

fn read_be64(buf: &[u8], pos: usize) -> (r: u64)
    requires
        pos + 8 <= buf.len(),
    ensures
        r == be64(buf@, pos as int),
{
    read_be32(buf, pos) * 0x1_0000_0000 + read_be32(buf, pos + 4)
}

/// An unsigned integer at `pos`, and the position after it. An item of
/// another type is not a field of a node.
pub open spec fn uint_at(s: Seq<u8>, pos: int) -> Result<(u64, int), ErrorKind> {
    match cbor_head(s, pos) {
        None => Err(ErrorKind::Cbor),
        Some(h) => if h.major == MAJOR_UINT {
            Ok((h.arg, pos + h.len))
        } else {
            Err(ErrorKind::MalformedNode)
        },
    }
}

/// An unsigned integer at `pos` that has to fit 32 bits.
pub open spec fn u32_at(s: Seq<u8>, pos: int) -> Result<(u32, int), ErrorKind> {
    match uint_at(s, pos) {
        Err(e) => Err(e),
        Ok((v, next)) => if v <= u32::MAX {
            Ok((v as u32, next))
        } else {
            Err(ErrorKind::MalformedNode)
        },
    }
}

/// Null or an unsigned integer at `pos`.
pub open spec fn opt_uint_at(s: Seq<u8>, pos: int) -> Result<(Option<u64>, int), ErrorKind> {
    if 0 <= pos < s.len() && s[pos] == NULL_BYTE {
        Ok((None, pos + 1))
    } else {
        match uint_at(s, pos) {
            Err(e) => Err(e),
            Ok((v, next)) => Ok((Some(v), next)),
        }
    }
}

/// The head of an array at `pos`: the count of its items and the position of
/// the first.
pub open spec fn array_at(s: Seq<u8>, pos: int) -> Result<(u64, int), ErrorKind> {
    match cbor_head(s, pos) {
        None => Err(ErrorKind::Cbor),
        Some(h) => if h.major == MAJOR_ARRAY {
            Ok((h.arg, pos + h.len))
        } else {
            Err(ErrorKind::MalformedNode)
        },
    }
}

/// What follows the head `h` of a byte or text string at `pos`: the content
/// and the position after it. The content has to be there in full.
pub open spec fn string_body(s: Seq<u8>, pos: int, h: Head) -> Result<(Seq<u8>, int), ErrorKind> {
    if pos + h.len + h.arg <= s.len() {
        Ok((s.subrange(pos + h.len, pos + h.len + h.arg), pos + h.len + h.arg))
    } else {
        Err(ErrorKind::Cbor)
    }
}

/// A byte string at `pos`.
pub open spec fn bytes_at(s: Seq<u8>, pos: int) -> Result<(Seq<u8>, int), ErrorKind> {
    match cbor_head(s, pos) {
        None => Err(ErrorKind::Cbor),
        Some(h) => if h.major == MAJOR_BYTES {
            string_body(s, pos, h)
        } else {
            Err(ErrorKind::MalformedNode)
        },
    }
}

/// A link at `pos`: tag 42, then a byte string that holds a zero byte and
/// exactly one identifier. Gives the identifier's bytes.
pub open spec fn link_at(s: Seq<u8>, pos: int) -> Result<(Seq<u8>, int), ErrorKind> {
    match cbor_head(s, pos) {
        None => Err(ErrorKind::Cbor),
        Some(h) => if h.major == MAJOR_TAG && h.arg == TAG_LINK {
            match bytes_at(s, pos + h.len) {
                Err(e) => Err(e),
                Ok((body, next)) => if body.len() >= 1 && body[0] == 0 && is_cid(body.skip(1)) {
                    Ok((body.skip(1), next))
                } else {
                    Err(ErrorKind::InvalidCid)
                },
            }
        } else {
            Err(ErrorKind::MalformedNode)
        },
    }
}

/// `count` links in a row from `pos` on.
pub open spec fn links_from(s: Seq<u8>, pos: int, count: nat) -> Result<
    (Seq<Seq<u8>>, int),
    ErrorKind,
>
    decreases count,
{
    if count == 0 {
        Ok((Seq::empty(), pos))
    } else {
        match link_at(s, pos) {
            Err(e) => Err(e),
            Ok((cid, next)) => match links_from(s, next, (count - 1) as nat) {
                Err(e) => Err(e),
                Ok((rest, end)) => Ok((seq![cid] + rest, end)),
            },
        }
    }
}

/// An array of links at `pos`.
pub open spec fn link_list_at(s: Seq<u8>, pos: int) -> Result<(Seq<Seq<u8>>, int), ErrorKind> {
    match array_at(s, pos) {
        Err(e) => Err(e),
        Ok((count, first)) => links_from(s, first, count as nat),
    }
}

/// Null or an array of links at `pos`; null stands for no links.
pub open spec fn opt_link_list_at(s: Seq<u8>, pos: int) -> Result<(Seq<Seq<u8>>, int), ErrorKind> {
    if 0 <= pos < s.len() && s[pos] == NULL_BYTE {
        Ok((Seq::empty(), pos + 1))
    } else {
        link_list_at(s, pos)
    }
}

/// The byte sequences that a list of identifiers stands for.
pub open spec fn cid_views(v: Seq<Cid>) -> Seq<Seq<u8>> {
    Seq::new(v.len(), |i: int| v[i]@)
}

/// Reads an unsigned integer.
pub fn read_uint(buf: &[u8], pos: usize) -> (r: Result<(u64, usize), ErrorKind>)
    ensures
        match uint_at(buf@, pos as int) {
            Ok((v, next)) => r == Ok::<(u64, usize), ErrorKind>((v, next as usize)) && pos < next
                <= buf.len(),
            Err(e) => r == Err::<(u64, usize), ErrorKind>(e),
        },
{
    match read_head(buf, pos) {
        None => Err(ErrorKind::Cbor),
        Some(h) => if h.major == MAJOR_UINT {
            Ok((h.arg, pos + h.len))
        } else {
            Err(ErrorKind::MalformedNode)
        },
    }
}

/// Reads an unsigned integer of at most 32 bits.
pub fn read_u32(buf: &[u8], pos: usize) -> (r: Result<(u32, usize), ErrorKind>)
    ensures
        match u32_at(buf@, pos as int) {
            Ok((v, next)) => r == Ok::<(u32, usize), ErrorKind>((v, next as usize)) && pos < next
                <= buf.len(),
            Err(e) => r == Err::<(u32, usize), ErrorKind>(e),
        },
{
    let (v, next): (u64, usize) = read_uint(buf, pos)?;
    if v <= 0xffff_ffff {
        Ok((v as u32, next))
    } else {
        Err(ErrorKind::MalformedNode)
    }
}

/// Reads null or an unsigned integer.
pub fn read_opt_uint(buf: &[u8], pos: usize) -> (r: Result<(Option<u64>, usize), ErrorKind>)
    ensures
        match opt_uint_at(buf@, pos as int) {
            Ok((v, next)) => r == Ok::<(Option<u64>, usize), ErrorKind>((v, next as usize)) && pos
                < next <= buf.len(),
            Err(e) => r == Err::<(Option<u64>, usize), ErrorKind>(e),
        },
{
    if pos < buf.len() && buf[pos] == NULL_BYTE {
        Ok((None, pos + 1))
    } else {
        let (v, next): (u64, usize) = read_uint(buf, pos)?;
        Ok((Some(v), next))
    }
}

/// Reads the head of an array.
pub fn read_array(buf: &[u8], pos: usize) -> (r: Result<(u64, usize), ErrorKind>)
    ensures
        match array_at(buf@, pos as int) {
            Ok((v, next)) => r == Ok::<(u64, usize), ErrorKind>((v, next as usize)) && pos < next
                <= buf.len(),
            Err(e) => r == Err::<(u64, usize), ErrorKind>(e),
        },
{
    match read_head(buf, pos) {
        None => Err(ErrorKind::Cbor),
        Some(h) => if h.major == MAJOR_ARRAY {
            Ok((h.arg, pos + h.len))
        } else {
            Err(ErrorKind::MalformedNode)
        },
    }
}

/// Finds the content of the string whose head `h` stands at `pos`: where it
/// starts and where it ends.
pub fn read_string_body(buf: &[u8], pos: usize, h: Head) -> (r: Result<(usize, usize), ErrorKind>)
    requires
        cbor_head(buf@, pos as int) == Some(h),
    ensures
        match string_body(buf@, pos as int, h) {
            Ok((body, next)) => r matches Ok((start, end)) && end == next && start <= end
                <= buf.len() && pos < start && body == buf@.subrange(start as int, end as int),
            Err(e) => r == Err::<(usize, usize), ErrorKind>(e),
        },
{
    let total: usize = buf.len();
    let start: usize = pos + h.len;
    let room: usize = total - start;
    if h.arg <= room as u64 {
        Ok((start, start + h.arg as usize))
    } else {
        Err(ErrorKind::Cbor)
    }
}

/// Reads a byte string and copies it out.
pub fn read_bytes(buf: &[u8], pos: usize) -> (r: Result<(Vec<u8>, usize), ErrorKind>)
    ensures
        match bytes_at(buf@, pos as int) {
            Ok((body, next)) => r matches Ok((v, p)) && v@ == body && p == next && pos < next
                <= buf.len(),
            Err(e) => r == Err::<(Vec<u8>, usize), ErrorKind>(e),
        },
{
    match read_head(buf, pos) {
        None => Err(ErrorKind::Cbor),
        Some(h) => if h.major == MAJOR_BYTES {
            let (start, end): (usize, usize) = read_string_body(buf, pos, h)?;
            Ok((slice_to_vec(slice_subrange(buf, start, end)), end))
        } else {
            Err(ErrorKind::MalformedNode)
        },
    }
}

/// Reads a link.
pub fn read_link(buf: &[u8], pos: usize) -> (r: Result<(Cid, usize), ErrorKind>)
    ensures
        match link_at(buf@, pos as int) {
            Ok((cid, next)) => r matches Ok((c, p)) && c@ == cid && p == next && pos < next
                <= buf.len(),
            Err(e) => r == Err::<(Cid, usize), ErrorKind>(e),
        },
{
    let tag: Head = match read_head(buf, pos) {
        None => { return Err(ErrorKind::Cbor); },
        Some(h) => h,
    };
    if tag.major != MAJOR_TAG || tag.arg != TAG_LINK {
        return Err(ErrorKind::MalformedNode);
    }
    let at: usize = pos + tag.len;
    let h: Head = match read_head(buf, at) {
        None => { return Err(ErrorKind::Cbor); },
        Some(h) => h,
    };
    if h.major != MAJOR_BYTES {
        return Err(ErrorKind::MalformedNode);
    }
    let (start, end): (usize, usize) = read_string_body(buf, at, h)?;
    if end - start < 1 || buf[start] != 0 {
        return Err(ErrorKind::InvalidCid);
    }
    let inner: &[u8] = slice_subrange(buf, start + 1, end);
    assert(inner@ == buf@.subrange(start as int, end as int).skip(1));
    match Cid::from_bytes(inner) {
        Some(cid) => Ok((cid, end)),
        None => Err(ErrorKind::InvalidCid),
    }
}

/// Reads an array of links.
pub fn read_link_list(buf: &[u8], pos: usize) -> (r: Result<(Vec<Cid>, usize), ErrorKind>)
    ensures
        match link_list_at(buf@, pos as int) {
            Ok((cids, next)) => r matches Ok((v, p)) && cid_views(v@) == cids && p == next && pos
                < next <= buf.len(),
            Err(e) => r == Err::<(Vec<Cid>, usize), ErrorKind>(e),
        },
{
    let (count, first): (u64, usize) = read_array(buf, pos)?;
    let mut out: Vec<Cid> = Vec::new();
    let mut at: usize = first;
    let mut i: u64 = 0;
    while i < count
        invariant
            i <= count,
            pos < at <= buf.len(),
            first <= at,
            array_at(buf@, pos as int) == Ok::<(u64, int), ErrorKind>((count, first as int)),
            links_from(buf@, first as int, count as nat) == join_links(
                cid_views(out@),
                links_from(buf@, at as int, (count - i) as nat),
            ),
        decreases count - i,
    {
        let ghost before = cid_views(out@);
        match read_link(buf, at) {
            Err(e) => {
                assert(links_from(buf@, at as int, (count - i) as nat) is Err);
                return Err(e);
            },
            Ok((cid, next)) => {
                proof {
                    lemma_join_links_step(buf@, at as int, (count - i) as nat, before);
                }
                out.push(cid);
                assert(cid_views(out@) =~= before + seq![cid@]);
                at = next;
                i = i + 1;
            },
        }
    }
    assert(cid_views(out@) + Seq::<Seq<u8>>::empty() =~= cid_views(out@));
    Ok((out, at))
}

/// Reading one link and then the rest is reading them all.
proof fn lemma_join_links_step(s: Seq<u8>, at: int, count: nat, done: Seq<Seq<u8>>)
    requires
        count > 0,
        link_at(s, at) is Ok,
    ensures
        join_links(done, links_from(s, at, count)) == join_links(
            done + seq![link_at(s, at)->Ok_0.0],
            links_from(s, link_at(s, at)->Ok_0.1, (count - 1) as nat),
        ),
{
    let cid = link_at(s, at)->Ok_0.0;
    let next = link_at(s, at)->Ok_0.1;
    match links_from(s, next, (count - 1) as nat) {
        Ok((more, end)) => {
            assert(done + (seq![cid] + more) =~= (done + seq![cid]) + more);
        },
        Err(_) => {},
    }
}

/// The links read so far, followed by what reading the rest gives.
pub open spec fn join_links(done: Seq<Seq<u8>>, rest: Result<(Seq<Seq<u8>>, int), ErrorKind>) -> Result<
    (Seq<Seq<u8>>, int),
    ErrorKind,
> {
    match rest {
        Ok((more, end)) => Ok((done + more, end)),
        Err(e) => Err(e),
    }
}

/// Reads null or an array of links.
pub fn read_opt_link_list(buf: &[u8], pos: usize) -> (r: Result<(Vec<Cid>, usize), ErrorKind>)
    ensures
        match opt_link_list_at(buf@, pos as int) {
            Ok((cids, next)) => r matches Ok((v, p)) && cid_views(v@) == cids && p == next && pos
                < next <= buf.len(),
            Err(e) => r == Err::<(Vec<Cid>, usize), ErrorKind>(e),
        },
{
    if pos < buf.len() && buf[pos] == NULL_BYTE {
        let out: Vec<Cid> = Vec::new();
        assert(cid_views(out@) =~= Seq::<Seq<u8>>::empty());
        Ok((out, pos + 1))
    } else {
        read_link_list(buf, pos)
    }
}

} // verus!
