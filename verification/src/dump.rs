//! Descriptors in a form fit for people: digests and IVs as hexadecimal text.

use vstd::prelude::*;
use vstd::string::StringExecFns;
use crate::node::{views, NodeView, RFSNode};

verus! {

/// A node descriptor for display: the checksum and the IV are hexadecimal
/// strings with `0x` in front. The magic tag is left out.
#[derive(Debug, PartialEq, Eq)]
pub struct RFSNodeHuman {
    pub name: String,
    pub checksum: String,
    pub iv: String,
    pub offset: usize,
    pub encrypted_size: usize,
}

/// A displayable descriptor as plain mathematical values.
pub struct HumanView {
    pub name: Seq<char>,
    pub checksum: Seq<char>,
    pub iv: Seq<char>,
    pub offset: nat,
    pub encrypted_size: nat,
}

impl View for RFSNodeHuman {
    type V = HumanView;

    open spec fn view(&self) -> HumanView {
        HumanView {
            name: self.name@,
            checksum: self.checksum@,
            iv: self.iv@,
            offset: self.offset as nat,
            encrypted_size: self.encrypted_size as nat,
        }
    }
}

/// The displayable forms of a list, in order.
pub open spec fn human_views(nodes: Seq<RFSNodeHuman>) -> Seq<HumanView> {
    Seq::new(nodes.len(), |i: int| nodes[i]@)
}

/// The hexadecimal digit for a value below sixteen, in lower case.
pub open spec fn hex_digit(n: int) -> char
    recommends
        0 <= n < 16,
{
    seq!['0', '1', '2', '3', '4', '5', '6', '7', '8', '9', 'a', 'b', 'c', 'd', 'e', 'f'][n]
}

/// Bytes in hexadecimal: two lower-case digits for each byte, the high half
/// first.
pub open spec fn hex(bytes: Seq<u8>) -> Seq<char> {
    Seq::new(
        2 * bytes.len(),
        |i: int|
            if i % 2 == 0 {
                hex_digit(bytes[i / 2] as int / 16)
            } else {
                hex_digit(bytes[i / 2] as int % 16)
            },
    )
}

/// Bytes in hexadecimal with `0x` in front.
pub open spec fn hex_0x(bytes: Seq<u8>) -> Seq<char> {
    seq!['0', 'x'] + hex(bytes)
}

/// The displayable form of a descriptor.
pub open spec fn shown(node: NodeView) -> HumanView {
    HumanView {
        name: node.name,
        checksum: hex_0x(node.checksum),
        iv: hex_0x(node.iv),
        offset: node.offset,
        encrypted_size: node.encrypted_size,
    }
}

/// `hex::encode`. Trusted: the string holds two lower-case hexadecimal
/// digits for each byte, in order, the high half of a byte first.
#[verifier::external_body]
fn hex_encode(bytes: &[u8]) -> (r: String)
    ensures
        r@ == hex(bytes@),
{
    hex::encode(bytes)
}

/// Bytes as hexadecimal text with `0x` in front.
pub fn to_hex_0x(bytes: &[u8]) -> (r: String)
    ensures
        r@ == hex_0x(bytes@),
{
    proof {
        reveal_strlit("0x");
    }
    let digits = hex_encode(bytes);
    let mut text = String::from_str("0x");
    text.append(digits.as_str());
    assert(text@ =~= hex_0x(bytes@));
    text
}

/// The descriptor of a node in displayable form.
pub fn raw_node_to_human(node: &RFSNode) -> (r: RFSNodeHuman)
    ensures
        r@ == shown(node@),
{
    let checksum = to_hex_0x(node.checksum.as_slice());
    let iv = to_hex_0x(node.iv.as_slice());
    RFSNodeHuman {
        name: node.name.clone(),
        checksum,
        iv,
        offset: node.offset,
        encrypted_size: node.encrypted_size,
    }
}

/// The descriptors of a filesystem in displayable form, in order.
pub fn raw_fs_to_human(fs: &Vec<RFSNode>) -> (r: Vec<RFSNodeHuman>)
    ensures
        human_views(r@) == views(fs@).map_values(|node: NodeView| shown(node)),
{
    let mut out: Vec<RFSNodeHuman> = Vec::new();
    let mut i: usize = 0;
    while i < fs.len()
        invariant
            i <= fs.len(),
            out@.len() == i,
            forall|j: int| 0 <= j < i ==> (#[trigger] out@[j])@ == shown(fs@[j]@),
        decreases fs.len() - i,
    {
        out.push(raw_node_to_human(&fs[i]));
        i += 1;
    }
    assert(human_views(out@) =~= views(fs@).map_values(|node: NodeView| shown(node)));
    out
}

} // verus!
