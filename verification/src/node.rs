//! The node descriptor: what the header records about one packed file.

use vstd::prelude::*;

verus! {

/// The three bytes that open every record: the letters `RFS`.
pub open spec fn magic_tag() -> Seq<u8> {
    seq![0x52u8, 0x46u8, 0x53u8]
}

/// The magic tag as a value.
pub fn magic() -> (m: [u8; 3])
    ensures
        m@ == magic_tag(),
{
    let m: [u8; 3] = [0x52u8, 0x46u8, 0x53u8];
    assert(m@ =~= magic_tag());
    m
}

/// A ROSTER.FS node.
///
/// * `magic` - the three-byte magic number
/// * `name` - the name of the node, an absolute path
/// * `checksum` - the SHA-256 checksum of the decrypted contents of the node
/// * `iv` - the AES-CBC IV used for encryption and decryption
/// * `offset` - where in the image the encrypted data of this node starts
/// * `encrypted_size` - the size of the encrypted node
#[derive(Debug, PartialEq, Eq)]
pub struct RFSNode {
    pub magic: [u8; 3],
    pub name: String,
    pub checksum: [u8; 32],
    pub iv: [u8; 16],
    pub offset: usize,
    pub encrypted_size: usize,
}

/// A node descriptor as plain mathematical values.
pub struct NodeView {
    pub magic: Seq<u8>,
    pub name: Seq<char>,
    pub checksum: Seq<u8>,
    pub iv: Seq<u8>,
    pub offset: nat,
    pub encrypted_size: nat,
}

impl NodeView {
    /// The field widths are those of a descriptor held in memory.
    pub open spec fn wf(self) -> bool {
        &&& self.magic.len() == 3
        &&& self.checksum.len() == 32
        &&& self.iv.len() == 16
        &&& self.offset <= usize::MAX
        &&& self.encrypted_size <= usize::MAX
    }

    /// A well-formed descriptor that carries the magic tag and whose name,
    /// in UTF-8, has a length that the header's length field can hold.
    pub open spec fn valid(self) -> bool {
        &&& self.wf()
        &&& self.magic == magic_tag()
        &&& vstd::utf8::encode_utf8(self.name).len() <= u64::MAX
    }
}

impl View for RFSNode {
    type V = NodeView;

    open spec fn view(&self) -> NodeView {
        NodeView {
            magic: self.magic@,
            name: self.name@,
            checksum: self.checksum@,
            iv: self.iv@,
            offset: self.offset as nat,
            encrypted_size: self.encrypted_size as nat,
        }
    }
}

/// The views of a list of descriptors, in order.
pub open spec fn views(nodes: Seq<RFSNode>) -> Seq<NodeView> {
    Seq::new(nodes.len(), |i: int| nodes[i]@)
}

/// Every descriptor of the list is valid.
pub open spec fn all_valid(nodes: Seq<NodeView>) -> bool {
    forall|i: int| 0 <= i < nodes.len() ==> (#[trigger] nodes[i]).valid()
}

impl Clone for RFSNode {
    fn clone(&self) -> (r: RFSNode)
        ensures
            r == *self,
    {
        RFSNode {
            magic: self.magic,
            name: self.name.clone(),
            checksum: self.checksum,
            iv: self.iv,
            offset: self.offset,
            encrypted_size: self.encrypted_size,
        }
    }
}

} // verus!
