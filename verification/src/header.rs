//! The archive header: a CBOR map with the two text keys `roots`, an array
//! of links, and `version`, the number 1, in either order.

use crate::cbor::{
    cbor_head, cid_views, link_list_at, read_head, read_link_list, read_string_body, read_uint,
    string_body, uint_at, Head, MAJOR_MAP, MAJOR_TEXT,
};
use crate::cid::Cid;
use crate::error::ErrorKind;
use vstd::prelude::*;

verus! {

/// The only version of the format that is read.
pub const SUPPORTED_VERSION: u64 = 1;

/// A decoded header.
#[derive(Clone, Debug, PartialEq, Eq)]
pub struct Header {
    pub version: u64,
    pub roots: Vec<Cid>,
}

/// What a `Header` stands for.
pub struct HeaderModel {
    pub version: u64,
    pub roots: Seq<Seq<u8>>,
}

impl View for Header {
    type V = HeaderModel;

    open spec fn view(&self) -> HeaderModel {
        HeaderModel { version: self.version, roots: cid_views(self.roots@) }
    }
}

/// One entry of the header map.
pub enum EntryModel {
    Roots(Seq<Seq<u8>>),
    Version(u64),
}

enum HeaderEntry {
    Roots(Vec<Cid>),
    Version(u64),
}

/// The text `roots`.
pub open spec fn roots_key() -> Seq<u8> {
    seq![0x72u8, 0x6fu8, 0x6fu8, 0x74u8, 0x73u8]
}

/// The text `version`.
pub open spec fn version_key() -> Seq<u8> {
    seq![0x76u8, 0x65u8, 0x72u8, 0x73u8, 0x69u8, 0x6fu8, 0x6eu8]
}

/// A text string at `pos`.
pub open spec fn text_at(s: Seq<u8>, pos: int) -> Result<(Seq<u8>, int), ErrorKind> {
    match cbor_head(s, pos) {
        None => Err(ErrorKind::Cbor),
        Some(h) => if h.major == MAJOR_TEXT {
            string_body(s, pos, h)
        } else {
            Err(ErrorKind::Cbor)
        },
    }
}

/// A key and its value at `pos`. Whatever is not one of the two entries is
/// no header; a root that holds no identifier is named as such.
pub open spec fn header_entry_at(s: Seq<u8>, pos: int) -> Result<(EntryModel, int), ErrorKind> {
    match text_at(s, pos) {
        Err(e) => Err(ErrorKind::Cbor),
        Ok((key, at)) => if key == roots_key() {
            match link_list_at(s, at) {
                Ok((roots, next)) => Ok((EntryModel::Roots(roots), next)),
                Err(e) => if e == ErrorKind::InvalidCid {
                    Err(ErrorKind::InvalidCid)
                } else {
                    Err(ErrorKind::Cbor)
                },
            }
        } else if key == version_key() {
            match uint_at(s, at) {
                Ok((version, next)) => Ok((EntryModel::Version(version), next)),
                Err(e) => Err(ErrorKind::Cbor),
            }
        } else {
            Err(ErrorKind::Cbor)
        },
    }
}

/// The header that the bytes of the header section hold.
#[verifier::opaque]
pub open spec fn parse_header(s: Seq<u8>) -> Result<HeaderModel, ErrorKind> {
    match cbor_head(s, 0) {
        None => Err(ErrorKind::Cbor),
        Some(h) => if h.major != MAJOR_MAP || h.arg != 2 {
            Err(ErrorKind::Cbor)
        } else {
            match header_entry_at(s, h.len as int) {
                Err(e) => Err(e),
                Ok((first, after1)) => match header_entry_at(s, after1) {
                    Err(e) => Err(e),
                    Ok((second, after2)) => if after2 != s.len() {
                        Err(ErrorKind::Cbor)
                    } else {
                        pair_entries(first, second)
                    },
                },
            }
        },
    }
}

/// The header made of two entries: one has to give the roots and the other
/// the version, which has to be 1.
pub open spec fn pair_entries(first: EntryModel, second: EntryModel) -> Result<
    HeaderModel,
    ErrorKind,
> {
    match (first, second) {
        (EntryModel::Roots(roots), EntryModel::Version(version)) => checked_header(version, roots),
        (EntryModel::Version(version), EntryModel::Roots(roots)) => checked_header(version, roots),
        _ => Err(ErrorKind::Cbor),
    }
}

pub open spec fn checked_header(version: u64, roots: Seq<Seq<u8>>) -> Result<
    HeaderModel,
    ErrorKind,
> {
    if version == SUPPORTED_VERSION {
        Ok(HeaderModel { version, roots })
    } else {
        Err(ErrorKind::UnsupportedVersion)
    }
}

fn is_roots_key(buf: &[u8], start: usize, end: usize) -> (r: bool)
    requires
        start <= end <= buf.len(),
    ensures
        r == (buf@.subrange(start as int, end as int) == roots_key()),
{
    let ghost key = buf@.subrange(start as int, end as int);
    if end - start != 5 {
        assert(key.len() != roots_key().len());
        return false;
    }
    let same: bool = buf[start] == 0x72 && buf[start + 1] == 0x6f && buf[start + 2] == 0x6f
        && buf[start + 3] == 0x74 && buf[start + 4] == 0x73;
    proof {
        assert(key[0] == buf@[start as int] && key[1] == buf@[start + 1] && key[2] == buf@[start
            + 2] && key[3] == buf@[start + 3] && key[4] == buf@[start + 4]);
        if same {
            assert(key =~= roots_key());
        }
    }
    same
}

fn is_version_key(buf: &[u8], start: usize, end: usize) -> (r: bool)
    requires
        start <= end <= buf.len(),
    ensures
        r == (buf@.subrange(start as int, end as int) == version_key()),
{
    let ghost key = buf@.subrange(start as int, end as int);
    if end - start != 7 {
        assert(key.len() != version_key().len());
        return false;
    }
    let same: bool = buf[start] == 0x76 && buf[start + 1] == 0x65 && buf[start + 2] == 0x72
        && buf[start + 3] == 0x73 && buf[start + 4] == 0x69 && buf[start + 5] == 0x6f && buf[start
        + 6] == 0x6e;
    proof {
        assert(key[0] == buf@[start as int] && key[1] == buf@[start + 1] && key[2] == buf@[start
            + 2] && key[3] == buf@[start + 3] && key[4] == buf@[start + 4] && key[5] == buf@[start
            + 5] && key[6] == buf@[start + 6]);
        if same {
            assert(key =~= version_key());
        }
    }
    same
}

fn read_header_entry(buf: &[u8], pos: usize) -> (r: Result<(HeaderEntry, usize), ErrorKind>)
    ensures
        match header_entry_at(buf@, pos as int) {
            Ok((EntryModel::Roots(roots), next)) => r matches Ok((HeaderEntry::Roots(v), p))
                && cid_views(v@) == roots && p == next,
            Ok((EntryModel::Version(version), next)) => r matches Ok((HeaderEntry::Version(v), p))
                && v == version && p == next,
            Err(e) => r matches Err(k) && k == e,
        },
{
    let h: Head = match read_head(buf, pos) {
        None => { return Err(ErrorKind::Cbor); },
        Some(h) => h,
    };
    if h.major != MAJOR_TEXT {
        return Err(ErrorKind::Cbor);
    }
    let (start, end): (usize, usize) = match read_string_body(buf, pos, h) {
        Ok(range) => range,
        Err(_) => { return Err(ErrorKind::Cbor); },
    };
    if is_roots_key(buf, start, end) {
        match read_link_list(buf, end) {
            Ok((roots, next)) => Ok((HeaderEntry::Roots(roots), next)),
            Err(ErrorKind::InvalidCid) => Err(ErrorKind::InvalidCid),
            Err(_) => Err(ErrorKind::Cbor),
        }
    } else if is_version_key(buf, start, end) {
        match read_uint(buf, end) {
            Ok((version, next)) => Ok((HeaderEntry::Version(version), next)),
            Err(_) => Err(ErrorKind::Cbor),
        }
    } else {
        Err(ErrorKind::Cbor)
    }
}

/// Decodes the bytes of the header section.
pub fn read_header(section: &[u8]) -> (r: Result<Header, ErrorKind>)
    ensures
        match parse_header(section@) {
            Ok(model) => r matches Ok(header) && header@ == model,
            Err(e) => r matches Err(k) && k == e,
        },
{
    proof {
        reveal(parse_header);
    }
    let h: Head = match read_head(section, 0) {
        None => { return Err(ErrorKind::Cbor); },
        Some(h) => h,
    };
    if h.major != MAJOR_MAP || h.arg != 2 {
        return Err(ErrorKind::Cbor);
    }
    let (first, after1): (HeaderEntry, usize) = read_header_entry(section, h.len)?;
    let (second, after2): (HeaderEntry, usize) = read_header_entry(section, after1)?;
    if after2 != section.len() {
        return Err(ErrorKind::Cbor);
    }
    match (first, second) {
        (HeaderEntry::Roots(roots), HeaderEntry::Version(version)) => check_header(version, roots),
        (HeaderEntry::Version(version), HeaderEntry::Roots(roots)) => check_header(version, roots),
        _ => Err(ErrorKind::Cbor),
    }
}

fn check_header(version: u64, roots: Vec<Cid>) -> (r: Result<Header, ErrorKind>)
    ensures
        match checked_header(version, cid_views(roots@)) {
            Ok(model) => r matches Ok(header) && header@ == model,
            Err(e) => r matches Err(k) && k == e,
        },
{
    if version == SUPPORTED_VERSION {
        Ok(Header { version, roots })
    } else {
        Err(ErrorKind::UnsupportedVersion)
    }
}

} // verus!
