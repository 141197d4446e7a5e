//! The header codec: a list of node descriptors as bytes, and back.
//!
//! Every integer is a big-endian `u64`. The header is the record count
//! followed by the records; a record is the magic tag, the length of the name
//! in bytes, the name in UTF-8, the checksum, the IV, the offset and the
//! encrypted size. Nothing separates the header from what follows it: a
//! reader learns where the header ends by decoding it.
//!
//! In a record whose name takes `n` bytes the fields start at these places:
//!
//! | field          | start    | length |
//! |----------------|----------|--------|
//! | magic tag      | `0`      | `3`    |
//! | name length    | `3`      | `8`    |
//! | name           | `11`     | `n`    |
//! | checksum       | `11 + n` | `32`   |
//! | IV             | `43 + n` | `16`   |
//! | offset         | `59 + n` | `8`    |
//! | encrypted size | `67 + n` | `8`    |

use vstd::prelude::*;
use vstd::slice::slice_subrange;
use vstd::utf8::{decode_utf8, encode_utf8, valid_utf8};
use crate::error::RfsError;
use crate::node::{all_valid, magic_tag, views, NodeView, RFSNode};
use crate::wire::{
    lemma_u64_be_canonical, lemma_u64_be_len, lemma_u64_be_round_trip, push_u64_be, read_u64_be,
    u64_be, u64_from_be,
};

verus! {

/// Bytes of a record besides its name: tag, name length, checksum, IV, offset
/// and encrypted size.
pub open spec fn fixed_len() -> nat {
    75
}

/// One record as bytes.
pub open spec fn encode_node(n: NodeView) -> Seq<u8> {
    n.magic + u64_be(encode_utf8(n.name).len() as u64) + encode_utf8(n.name) + n.checksum + n.iv
        + u64_be(n.offset as u64) + u64_be(n.encrypted_size as u64)
}

/// The records of a list, one after the other.
pub open spec fn encode_nodes(nodes: Seq<NodeView>) -> Seq<u8>
    decreases nodes.len(),
{
    if nodes.len() == 0 {
        Seq::empty()
    } else {
        encode_nodes(nodes.drop_last()) + encode_node(nodes.last())
    }
}

/// The header of a list of descriptors: their count, then their records.
pub open spec fn encode_fs(nodes: Seq<NodeView>) -> Seq<u8> {
    u64_be(nodes.len() as u64) + encode_nodes(nodes)
}

/// The length of the records of a list: it depends on the names alone.
pub open spec fn records_len(nodes: Seq<NodeView>) -> nat
    decreases nodes.len(),
{
    if nodes.len() == 0 {
        0
    } else {
        records_len(nodes.drop_last()) + fixed_len() + encode_utf8(nodes.last().name).len()
    }
}

/// The length of the header of a list of descriptors.
pub open spec fn header_len(nodes: Seq<NodeView>) -> nat {
    8 + records_len(nodes)
}

/// Every descriptor of the list has the field widths of one held in memory.
pub open spec fn all_wf(nodes: Seq<NodeView>) -> bool {
    forall|i: int| 0 <= i < nodes.len() ==> (#[trigger] nodes[i]).wf()
}

/// Two lists name the same files in the same order.
pub open spec fn same_names(a: Seq<NodeView>, b: Seq<NodeView>) -> bool {
    &&& a.len() == b.len()
    &&& forall|i: int| 0 <= i < a.len() ==> (#[trigger] a[i]).name == b[i].name
}

/// The record at the start of `b` and its length in bytes, or `None` where
/// `b` starts with no record: it is too short, the tag is wrong, the name is
/// not UTF-8, or a number does not fit this machine's `usize`.
pub open spec fn decode_node(b: Seq<u8>) -> Option<(NodeView, nat)> {
    if b.len() < 11 || b.subrange(0, 3) != magic_tag() {
        None
    } else {
        let n = u64_from_be(b.skip(3)) as int;
        if b.len() < 75 + n {
            None
        } else {
            let name = b.subrange(11, 11 + n);
            let offset = u64_from_be(b.skip(59 + n));
            let size = u64_from_be(b.skip(67 + n));
            if !valid_utf8(name) || offset > usize::MAX || size > usize::MAX {
                None
            } else {
                Some(
                    (
                        NodeView {
                            magic: b.subrange(0, 3),
                            name: decode_utf8(name),
                            checksum: b.subrange(11 + n, 43 + n),
                            iv: b.subrange(43 + n, 59 + n),
                            offset: offset as nat,
                            encrypted_size: size as nat,
                        },
                        (75 + n) as nat,
                    ),
                )
            }
        }
    }
}

/// The first `count` records of `b` and their total length, or `None` where
/// one of them is missing or malformed.
pub open spec fn decode_nodes(b: Seq<u8>, count: nat) -> Option<(Seq<NodeView>, nat)>
    decreases count,
{
    if count == 0 {
        Some((Seq::empty(), 0))
    } else {
        match decode_nodes(b, (count - 1) as nat) {
            None => None,
            Some((nodes, len)) => match decode_node(b.skip(len as int)) {
                None => None,
                Some((node, node_len)) => Some((nodes.push(node), len + node_len)),
            },
        }
    }
}

/// The descriptors that the header at the start of `b` lists, and the
/// header's length. What follows the header is not looked at.
pub open spec fn decode_fs(b: Seq<u8>) -> Option<(Seq<NodeView>, nat)> {
    if b.len() < 8 {
        None
    } else {
        match decode_nodes(b.skip(8), u64_from_be(b) as nat) {
            None => None,
            Some((nodes, len)) => Some((nodes, 8 + len)),
        }
    }
}

/// Appends `src` to `out`.
fn push_bytes(out: &mut Vec<u8>, src: &[u8])
    ensures
        final(out)@ == old(out)@ + src@,
{
    out.extend_from_slice(src);
    assert(out@ =~= old(out)@ + src@);
}

/// Appends the record of `node` to `out`.
fn write_node(out: &mut Vec<u8>, node: &RFSNode)
    ensures
        final(out)@ == old(out)@ + encode_node(node@),
{
    broadcast use vstd::array::group_array_axioms;

    let name = node.name.as_str().as_bytes();
    push_bytes(out, node.magic.as_slice());
    push_u64_be(out, name.len() as u64);
    push_bytes(out, name);
    push_bytes(out, node.checksum.as_slice());
    push_bytes(out, node.iv.as_slice());
    push_u64_be(out, node.offset as u64);
    push_u64_be(out, node.encrypted_size as u64);
    assert(out@ =~= old(out)@ + encode_node(node@));
}

/// Serializes a single node into its binary representation.
pub fn serialize_node(node: &RFSNode) -> (out: Vec<u8>)
    ensures
        out@ == encode_node(node@),
{
    let mut out: Vec<u8> = Vec::new();
    write_node(&mut out, node);
    assert(out@ =~= encode_node(node@));
    out
}

/// Serializes a list of nodes into the header of a raw binary filesystem.
pub fn serialize_fs(fs: &Vec<RFSNode>) -> (out: Vec<u8>)
    ensures
        out@ == encode_fs(views(fs@)),
{
    let mut out: Vec<u8> = Vec::new();
    push_u64_be(&mut out, fs.len() as u64);
    let mut i: usize = 0;
    while i < fs.len()
        invariant
            i <= fs.len(),
            out@ == u64_be(fs.len() as u64) + encode_nodes(views(fs@).take(i as int)),
        decreases fs.len() - i,
    {
        write_node(&mut out, &fs[i]);
        proof {
            let done = views(fs@).take(i as int + 1);
            assert(done.drop_last() =~= views(fs@).take(i as int));
            assert(done.last() == fs[i as int]@);
            assert(out@ =~= u64_be(fs.len() as u64) + encode_nodes(done));
        }
        i += 1;
    }
    assert(views(fs@).take(i as int) =~= views(fs@));
    out
}

/// `core::str::from_utf8`: the bytes as a string slice where they are valid
/// UTF-8, and `None` where they are not. Trusted: the standard library
/// documents exactly this, and the string that comes back spells the bytes
/// it was given.
#[verifier::external_body]
fn str_from_utf8(bytes: &[u8]) -> (r: Option<&str>)
    ensures
        r is Some <==> valid_utf8(bytes@),
        r matches Some(s) ==> encode_utf8(s@) == bytes@,
{
    core::str::from_utf8(bytes).ok()
}

/// Copies `N` bytes that start at `pos` into an array.
fn read_array<const N: usize>(bytes: &[u8], pos: usize) -> (a: [u8; N])
    requires
        pos + N <= bytes@.len(),
    ensures
        a@ == bytes@.subrange(pos as int, pos + N),
{
    broadcast use vstd::array::group_array_axioms;

    let total: usize = bytes.len();
    let mut a: [u8; N] = [0u8; N];
    let mut i: usize = 0;
    while i < N
        invariant
            i <= N,
            pos + N <= bytes@.len() == total,
            forall|j: int| 0 <= j < i ==> a@[j] == bytes@[pos + j],
        decreases N - i,
    {
        a[i] = bytes[pos + i];
        i += 1;
    }
    assert(a@ =~= bytes@.subrange(pos as int, pos + N));
    a
}

/// Reads the record that starts at `pos`, and says where the next one starts.
fn parse_node(bytes: &[u8], pos: usize) -> (r: Option<(RFSNode, usize)>)
    requires
        pos <= bytes@.len(),
    ensures
        match decode_node(bytes@.skip(pos as int)) {
            Some((node, len)) => r matches Some((n, next)) && n@ == node && next == pos + len,
            None => r is None,
        },
{
    broadcast use vstd::array::group_array_axioms;

    let ghost b = bytes@.skip(pos as int);
    let left: usize = bytes.len() - pos;
    if left < 11 {
        return None;
    }
    let magic: [u8; 3] = read_array(bytes, pos);
    assert(magic@ =~= b.subrange(0, 3));
    if magic[0] != 0x52 || magic[1] != 0x46 || magic[2] != 0x53 {
        assert(magic@ != magic_tag());
        return None;
    }
    assert(magic@ =~= magic_tag());
    let name_len: u64 = match read_u64_be(bytes, pos + 3) {
        Some(n) => n,
        None => { return None; },
    };
    assert(bytes@.skip(pos + 3) =~= b.skip(3));
    if name_len > (left - 11) as u64 || (left - 11) as u64 - name_len < 64 {
        return None;
    }
    let n: usize = name_len as usize;
    let start: usize = pos + 11;
    let name_bytes = slice_subrange(bytes, start, start + n);
    assert(name_bytes@ =~= b.subrange(11, 11 + n));
    let name = match str_from_utf8(name_bytes) {
        Some(s) => s.to_owned(),
        None => { return None; },
    };
    proof {
        vstd::utf8::encode_utf8_decode_utf8(name@);
    }
    let checksum: [u8; 32] = read_array(bytes, start + n);
    let iv: [u8; 16] = read_array(bytes, start + n + 32);
    assert(checksum@ =~= b.subrange(11 + n, 43 + n));
    assert(iv@ =~= b.subrange(43 + n, 59 + n));
    let offset: u64 = match read_u64_be(bytes, start + n + 48) {
        Some(x) => x,
        None => { return None; },
    };
    let size: u64 = match read_u64_be(bytes, start + n + 56) {
        Some(x) => x,
        None => { return None; },
    };
    assert(bytes@.skip(start + n + 48) =~= b.skip(59 + n));
    assert(bytes@.skip(start + n + 56) =~= b.skip(67 + n));
    if offset > usize::MAX as u64 || size > usize::MAX as u64 {
        return None;
    }
    let node = RFSNode {
        magic,
        name,
        checksum,
        iv,
        offset: offset as usize,
        encrypted_size: size as usize,
    };
    Some((node, start + n + 64))
}

/// Parses the header of a raw binary filesystem into its nodes. The bytes
/// after the header, the encrypted payloads, are not looked at.
pub fn parse_fs(raw_fs: &Vec<u8>) -> (r: Result<Vec<RFSNode>, RfsError>)
    ensures
        match decode_fs(raw_fs@) {
            Some((nodes, _)) => r matches Ok(fs) && views(fs@) == nodes,
            None => r == Err::<Vec<RFSNode>, RfsError>(RfsError::Format),
        },
{
    let bytes = raw_fs.as_slice();
    let count: u64 = match read_u64_be(bytes, 0) {
        Some(c) => c,
        None => { return Err(RfsError::Format); },
    };
    assert(bytes@.skip(0) =~= bytes@);
    let ghost body = bytes@.skip(8);
    let mut fs: Vec<RFSNode> = Vec::new();
    let mut pos: usize = 8;
    let mut i: u64 = 0;
    while i < count
        invariant
            i <= count,
            8 <= pos <= bytes@.len(),
            bytes@ == raw_fs@,
            count == u64_from_be(raw_fs@),
            body == bytes@.skip(8),
            decode_nodes(body, i as nat) == Some((views(fs@), (pos - 8) as nat)),
        decreases count - i,
    {
        assert(body.skip(pos - 8) =~= bytes@.skip(pos as int));
        match parse_node(bytes, pos) {
            Some((node, next)) => {
                proof {
                    assert(views(fs@).push(node@) =~= views(fs@.push(node)));
                }
                fs.push(node);
                pos = next;
                i += 1;
            },
            None => {
                proof {
                    assert(decode_nodes(body, (i + 1) as nat) is None);
                    lemma_decode_nodes_fails(body, (i + 1) as nat, count as nat);
                }
                return Err(RfsError::Format);
            },
        }
    }
    Ok(fs)
}

/// Once the first `fewer` records cannot be read, no longer list can.
proof fn lemma_decode_nodes_fails(b: Seq<u8>, fewer: nat, count: nat)
    requires
        fewer <= count,
        decode_nodes(b, fewer) is None,
    ensures
        decode_nodes(b, count) is None,
    decreases count,
{
    if fewer < count {
        lemma_decode_nodes_fails(b, fewer, (count - 1) as nat);
    }
}

/// A record is its name and seventy-five bytes more.
pub proof fn lemma_encode_node_len(n: NodeView)
    requires
        n.wf(),
    ensures
        encode_node(n).len() == fixed_len() + encode_utf8(n.name).len(),
{
    lemma_u64_be_len(encode_utf8(n.name).len() as u64);
    lemma_u64_be_len(n.offset as u64);
    lemma_u64_be_len(n.encrypted_size as u64);
}

/// The records of a list are as long as `records_len` says.
pub proof fn lemma_encode_nodes_len(nodes: Seq<NodeView>)
    requires
        all_wf(nodes),
    ensures
        encode_nodes(nodes).len() == records_len(nodes),
    decreases nodes.len(),
{
    if nodes.len() > 0 {
        lemma_encode_nodes_len(nodes.drop_last());
        lemma_encode_node_len(nodes.last());
    }
}

/// A header is as long as `header_len` says.
pub proof fn lemma_encode_fs_len(nodes: Seq<NodeView>)
    requires
        all_wf(nodes),
    ensures
        encode_fs(nodes).len() == header_len(nodes),
{
    lemma_u64_be_len(nodes.len() as u64);
    lemma_encode_nodes_len(nodes);
}

/// The header's length does not depend on the offsets and sizes it records:
/// lists with the same names have headers of the same length.
pub proof fn lemma_header_len_by_names(a: Seq<NodeView>, b: Seq<NodeView>)
    requires
        same_names(a, b),
    ensures
        records_len(a) == records_len(b),
        header_len(a) == header_len(b),
    decreases a.len(),
{
    if a.len() > 0 {
        assert(a.last().name == b.last().name);
        assert(same_names(a.drop_last(), b.drop_last())) by {
            assert forall|i: int| 0 <= i < a.drop_last().len() implies (
            #[trigger] a.drop_last()[i]).name == b.drop_last()[i].name by {
                assert(a[i].name == b[i].name);
            }
        }
        lemma_header_len_by_names(a.drop_last(), b.drop_last());
    }
}

/// Every record counts towards the length of the records: there are no
/// more records than bytes, and no name is longer than all records together.
pub proof fn lemma_records_len_bounds(nodes: Seq<NodeView>, i: int)
    requires
        0 <= i < nodes.len(),
    ensures
        nodes.len() <= records_len(nodes),
        fixed_len() + encode_utf8(nodes[i].name).len() <= records_len(nodes),
    decreases nodes.len(),
{
    if nodes.len() > 1 {
        let j = if i < nodes.len() - 1 {
            i
        } else {
            0
        };
        lemma_records_len_bounds(nodes.drop_last(), j);
    }
}

/// Decoding a record reads back the descriptor that was encoded, and stops
/// where the record ends, whatever follows it.
pub proof fn lemma_node_round_trip(n: NodeView, rest: Seq<u8>)
    requires
        n.valid(),
    ensures
        decode_node(encode_node(n) + rest) == Some((n, encode_node(n).len())),
{
    let name = encode_utf8(n.name);
    let len = name.len() as int;
    let b = encode_node(n) + rest;
    lemma_encode_node_len(n);
    assert(b.subrange(0, 3) =~= n.magic);
    assert(b.skip(3) =~= u64_be(len as u64) + (name + n.checksum + n.iv + u64_be(n.offset as u64)
        + u64_be(n.encrypted_size as u64) + rest));
    lemma_u64_be_round_trip(
        len as u64,
        name + n.checksum + n.iv + u64_be(n.offset as u64) + u64_be(n.encrypted_size as u64) + rest,
    );
    assert(b.subrange(11, 11 + len) =~= name);
    vstd::utf8::encode_utf8_valid_utf8(n.name);
    vstd::utf8::encode_utf8_decode_utf8(n.name);
    assert(b.subrange(11 + len, 43 + len) =~= n.checksum);
    assert(b.subrange(43 + len, 59 + len) =~= n.iv);
    assert(b.skip(59 + len) =~= u64_be(n.offset as u64) + (u64_be(n.encrypted_size as u64)
        + rest));
    lemma_u64_be_round_trip(n.offset as u64, u64_be(n.encrypted_size as u64) + rest);
    assert(b.skip(67 + len) =~= u64_be(n.encrypted_size as u64) + rest);
    lemma_u64_be_round_trip(n.encrypted_size as u64, rest);
}

/// Decoding as many records as were encoded reads back the same list, and
/// stops where the last record ends.
pub proof fn lemma_nodes_round_trip(nodes: Seq<NodeView>, rest: Seq<u8>)
    requires
        all_valid(nodes),
    ensures
        decode_nodes(encode_nodes(nodes) + rest, nodes.len()) == Some(
            (nodes, encode_nodes(nodes).len()),
        ),
    decreases nodes.len(),
{
    if nodes.len() == 0 {
        assert(nodes =~= Seq::empty());
    } else {
        let front = nodes.drop_last();
        let last = nodes.last();
        let b = encode_nodes(nodes) + rest;
        assert(b =~= encode_nodes(front) + (encode_node(last) + rest));
        lemma_nodes_round_trip(front, encode_node(last) + rest);
        assert(b.skip(encode_nodes(front).len() as int) =~= encode_node(last) + rest);
        lemma_node_round_trip(last, rest);
        assert(front.push(last) =~= nodes);
    }
}

/// Round trip: decoding the header of a list of valid descriptors gives the
/// list back, together with the header's length. Bytes that follow the
/// header, such as the payloads of a container, do not change the result.
pub proof fn lemma_round_trip(nodes: Seq<NodeView>, rest: Seq<u8>)
    requires
        all_valid(nodes),
        nodes.len() <= u64::MAX,
    ensures
        decode_fs(encode_fs(nodes) + rest) == Some((nodes, encode_fs(nodes).len())),
{
    let b = encode_fs(nodes) + rest;
    assert(b =~= u64_be(nodes.len() as u64) + (encode_nodes(nodes) + rest));
    lemma_u64_be_round_trip(nodes.len() as u64, encode_nodes(nodes) + rest);
    assert(b.skip(8) =~= encode_nodes(nodes) + rest);
    lemma_nodes_round_trip(nodes, rest);
}

/// A record that decodes is valid and is spelled by exactly the bytes that
/// were read.
pub proof fn lemma_node_canonical(b: Seq<u8>)
    requires
        decode_node(b) is Some,
    ensures
        decode_node(b)->Some_0.0.valid(),
        decode_node(b)->Some_0.1 <= b.len(),
        encode_node(decode_node(b)->Some_0.0) == b.subrange(0, decode_node(b)->Some_0.1 as int),
{
    let (node, len) = decode_node(b)->Some_0;
    let n = u64_from_be(b.skip(3)) as int;
    let name = b.subrange(11, 11 + n);
    vstd::utf8::decode_utf8_encode_utf8(name);
    lemma_u64_be_canonical(b.skip(3));
    lemma_u64_be_canonical(b.skip(59 + n));
    lemma_u64_be_canonical(b.skip(67 + n));
    assert(u64_be(n as u64) =~= b.subrange(3, 11));
    assert(u64_be(node.offset as u64) =~= b.subrange(59 + n, 67 + n));
    assert(u64_be(node.encrypted_size as u64) =~= b.subrange(67 + n, 75 + n));
    assert(encode_node(node) =~= b.subrange(0, len as int));
}

/// Records that decode are valid and are spelled by exactly the bytes that
/// were read.
pub proof fn lemma_nodes_canonical(b: Seq<u8>, count: nat)
    requires
        decode_nodes(b, count) is Some,
    ensures
        decode_nodes(b, count)->Some_0.0.len() == count,
        all_valid(decode_nodes(b, count)->Some_0.0),
        decode_nodes(b, count)->Some_0.1 <= b.len(),
        encode_nodes(decode_nodes(b, count)->Some_0.0) == b.subrange(
            0,
            decode_nodes(b, count)->Some_0.1 as int,
        ),
    decreases count,
{
    let (nodes, len) = decode_nodes(b, count)->Some_0;
    if count > 0 {
        let (front, front_len) = decode_nodes(b, (count - 1) as nat)->Some_0;
        lemma_nodes_canonical(b, (count - 1) as nat);
        let tail = b.skip(front_len as int);
        let (node, node_len) = decode_node(tail)->Some_0;
        lemma_node_canonical(tail);
        assert(nodes.drop_last() =~= front);
        assert(tail.subrange(0, node_len as int) =~= b.subrange(front_len as int, len as int));
        assert(encode_nodes(nodes) =~= b.subrange(0, len as int));
    } else {
        assert(encode_nodes(nodes) =~= b.subrange(0, 0));
    }
}

/// The header is self-describing: descriptors that decode are valid, and
/// encoding them gives back exactly the bytes of the header.
pub proof fn lemma_decode_canonical(b: Seq<u8>)
    requires
        decode_fs(b) is Some,
    ensures
        all_valid(decode_fs(b)->Some_0.0),
        decode_fs(b)->Some_0.0.len() <= u64::MAX,
        decode_fs(b)->Some_0.1 <= b.len(),
        encode_fs(decode_fs(b)->Some_0.0) == b.subrange(0, decode_fs(b)->Some_0.1 as int),
{
    let (nodes, len) = decode_fs(b)->Some_0;
    let count = u64_from_be(b) as nat;
    lemma_nodes_canonical(b.skip(8), count);
    lemma_u64_be_canonical(b);
    let body_len = decode_nodes(b.skip(8), count)->Some_0.1;
    assert(b.skip(8).subrange(0, body_len as int) =~= b.subrange(8, len as int));
    assert(encode_fs(nodes) =~= b.subrange(0, len as int));
}

/// Decoding looks at the header alone: an image that starts with the same
/// header decodes to the same descriptors.
pub proof fn lemma_decode_reads_header_only(b: Seq<u8>, other: Seq<u8>)
    requires
        decode_fs(b) is Some,
        decode_fs(b)->Some_0.1 <= other.len(),
        other.subrange(0, decode_fs(b)->Some_0.1 as int) == b.subrange(
            0,
            decode_fs(b)->Some_0.1 as int,
        ),
    ensures
        decode_fs(other) == decode_fs(b),
{
    let (nodes, len) = decode_fs(b)->Some_0;
    lemma_decode_canonical(b);
    lemma_round_trip(nodes, other.skip(len as int));
    assert(other =~= encode_fs(nodes) + other.skip(len as int));
}

} // verus!
