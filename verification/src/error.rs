//! The closed list of failures that reading an archive can end in.

use crate::cid::Cid;
use vstd::prelude::*;

verus! {

/// What went wrong.
#[derive(Clone, Copy, Debug, PartialEq, Eq, Hash, Structural)]
pub enum ErrorKind {
    /// The byte source failed.
    Io,
    /// A length prefix is longer than accepted, or the input ends inside it.
    Varint,
    /// The input ends inside a section.
    TruncatedFrame,
    /// The header names a version other than 1.
    UnsupportedVersion,
    /// A section is longer than the reader's limit.
    BlockTooLarge,
    /// Bytes that should hold an identifier do not.
    InvalidCid,
    /// Bytes that should hold a CBOR item do not.
    Cbor,
    /// A node does not start with a kind tag from 0 to 6.
    UnknownKind,
    /// A node's fields are not those of its kind.
    MalformedNode,
    /// An identifier occurs twice in one group.
    DuplicateCid,
    /// A reference leads out of the group.
    MissingRef,
    /// A chain of data frames leads back into itself.
    CyclicChain,
    /// The frames of a chain disagree about how many they are.
    InconsistentChain,
    /// A reference leads to a node that is no data frame.
    NotADataFrame,
    /// A decode job died before it gave a result.
    WorkerPanic,
}

impl ErrorKind {
    /// The name of the kind.
    pub fn as_str(&self) -> (r: &'static str)
        ensures
            r@ == match self {
                ErrorKind::Io => "Io"@,
                ErrorKind::Varint => "Varint"@,
                ErrorKind::TruncatedFrame => "TruncatedFrame"@,
                ErrorKind::UnsupportedVersion => "UnsupportedVersion"@,
                ErrorKind::BlockTooLarge => "BlockTooLarge"@,
                ErrorKind::InvalidCid => "InvalidCid"@,
                ErrorKind::Cbor => "Cbor"@,
                ErrorKind::UnknownKind => "UnknownKind"@,
                ErrorKind::MalformedNode => "MalformedNode"@,
                ErrorKind::DuplicateCid => "DuplicateCid"@,
                ErrorKind::MissingRef => "MissingRef"@,
                ErrorKind::CyclicChain => "CyclicChain"@,
                ErrorKind::InconsistentChain => "InconsistentChain"@,
                ErrorKind::NotADataFrame => "NotADataFrame"@,
                ErrorKind::WorkerPanic => "WorkerPanic"@,
            },
    {
        match self {
            ErrorKind::Io => "Io",
            ErrorKind::Varint => "Varint",
            ErrorKind::TruncatedFrame => "TruncatedFrame",
            ErrorKind::UnsupportedVersion => "UnsupportedVersion",
            ErrorKind::BlockTooLarge => "BlockTooLarge",
            ErrorKind::InvalidCid => "InvalidCid",
            ErrorKind::Cbor => "Cbor",
            ErrorKind::UnknownKind => "UnknownKind",
            ErrorKind::MalformedNode => "MalformedNode",
            ErrorKind::DuplicateCid => "DuplicateCid",
            ErrorKind::MissingRef => "MissingRef",
            ErrorKind::CyclicChain => "CyclicChain",
            ErrorKind::InconsistentChain => "InconsistentChain",
            ErrorKind::NotADataFrame => "NotADataFrame",
            ErrorKind::WorkerPanic => "WorkerPanic",
        }
    }
}

/// A failure, with where it happened as far as that is known.
#[derive(Clone, Debug, PartialEq, Eq)]
pub struct CarError {
    pub kind: ErrorKind,
    /// Count of input bytes before the section that failed.
    pub offset: Option<u64>,
    /// Identifier of the block that failed.
    pub cid: Option<Cid>,
}

/// What a `CarError` stands for, with the identifier as its bytes.
pub struct ErrorModel {
    pub kind: ErrorKind,
    pub offset: Option<u64>,
    pub cid: Option<Seq<u8>>,
}

impl ErrorModel {
    /// A failure of which only the kind is known.
    pub open spec fn bare(kind: ErrorKind) -> ErrorModel {
        ErrorModel { kind, offset: None, cid: None }
    }
}

impl View for CarError {
    type V = ErrorModel;

    open spec fn view(&self) -> ErrorModel {
        ErrorModel {
            kind: self.kind,
            offset: self.offset,
            cid: match self.cid {
                Some(c) => Some(c@),
                None => None,
            },
        }
    }
}

impl CarError {
    /// A failure of which only the kind is known.
    pub fn bare(kind: ErrorKind) -> (r: CarError)
        ensures
            r@ == ErrorModel::bare(kind),
    {
        CarError { kind, offset: None, cid: None }
    }

    /// A failure of the section that starts at `offset`.
    pub fn at(kind: ErrorKind, offset: u64) -> (r: CarError)
        ensures
            r@ == (ErrorModel { kind, offset: Some(offset), cid: None }),
    {
        CarError { kind, offset: Some(offset), cid: None }
    }
}

} // verus!
