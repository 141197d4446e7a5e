//! ROSTER.FS: an encrypted container image holding a flat list of files.
//!
//! A container is a header (the encoded list of node descriptors) followed by
//! the AES-128-CBC ciphertexts of the files, in header order.
//!
//! * [`node`] holds the descriptor and its mathematical view.
//! * [`wire`] and [`codec`] define the header's bytes, encode and decode
//!   them, and prove that the two undo each other.
//! * [`crypto`] binds the cipher, the digest and the random source.
//! * [`layout`] says where the payloads lie in an image.
//! * [`pack`] builds an image from files and [`unpack`] reads one back; what
//!   `pack` returns is proved to unpack to the files it was given.
//! * [`dump`] renders descriptors for display.

pub mod codec;
pub mod crypto;
pub mod dump;
pub mod error;
pub mod layout;
pub mod node;
pub mod pack;
pub mod unpack;
pub mod wire;

pub use crate::codec::{parse_fs, serialize_fs, serialize_node};
pub use crate::crypto::{decrypt_node, encrypt_node};
pub use crate::error::RfsError;
pub use crate::node::RFSNode;
pub use crate::pack::pack;
pub use crate::unpack::{get_data, unpack};
