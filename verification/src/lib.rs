//! A model of the Objective-C runtime together with the Rust-side logic that
//! sits on top of it: type encodings, class declaration, message dispatch and
//! signature verification, reference counting and a few Foundation value
//! types.

pub mod encode;
pub mod runtime;
pub mod message;
pub mod declare;
pub mod comparison;
pub mod id;
pub mod rc;
pub mod foundation;
pub mod array;
pub mod malloc;
pub mod block_utils;
pub mod text;
pub mod enumerator;
pub mod sort;
pub mod cache;
pub mod abi;
pub mod dictionary;
