//! Reader for CAR v1 archives that hold a Solana ledger epoch as a DAG of
//! IPLD blocks.
//!
//! The layers, from the bytes up:
//!
//! - [`varint`], [`cid`], [`cbor`]: the numbers, identifiers and items that
//!   everything else is made of;
//! - [`header`], [`frame`]: the archive header and the reader that cuts the
//!   input, as it arrives, into blocks;
//! - [`node`]: the seven kinds of ledger node and their decoding;
//! - [`group`], [`reassemble`]: the nodes of one Solana block, and the
//!   payloads that are spread over its data frames;
//! - [`stream`], [`window`], [`pipeline`]: whole streams of blocks, nodes and
//!   groups, and decoding ahead without losing their order;
//! - [`encode`], [`pieces`]: the layout of an archive, and proofs that
//!   reading gives back what was laid out, however the input is divided;
//! - [`counter`]: what a program that counts the nodes keeps track of;
//! - [`error`]: the failures.

pub mod cbor;
pub mod cid;
pub mod counter;
pub mod encode;
pub mod error;
pub mod frame;
pub mod group;
pub mod header;
pub mod node;
pub mod pieces;
pub mod pipeline;
pub mod reassemble;
pub mod stream;
pub mod varint;
pub mod window;
