//! The layout of a container image: the header, then the payloads back to
//! back, each at the offset that the header records for it.

use vstd::prelude::*;
use crate::codec::{
    decode_fs, encode_fs, header_len, lemma_encode_fs_len, lemma_header_len_by_names,
    lemma_records_len_bounds, lemma_round_trip, same_names,
};
use crate::node::{magic_tag, NodeView};

verus! {

/// The node's byte range lies within an image of `len` bytes.
pub open spec fn in_range(node: NodeView, len: nat) -> bool {
    node.offset + node.encrypted_size <= len
}

/// The bytes of the image that the node points at.
pub open spec fn payload_of(node: NodeView, raw: Seq<u8>) -> Seq<u8>
    recommends
        in_range(node, raw.len()),
{
    raw.subrange(node.offset as int, (node.offset + node.encrypted_size) as int)
}

/// The payloads one after the other.
pub open spec fn concat(payloads: Seq<Seq<u8>>) -> Seq<u8>
    decreases payloads.len(),
{
    if payloads.len() == 0 {
        Seq::empty()
    } else {
        concat(payloads.drop_last()) + payloads.last()
    }
}

/// The descriptors with their places filled in: payload `i` starts where
/// payload `i - 1` ends, the first one at `start`, and each descriptor
/// records the length of its payload.
pub open spec fn resolve(nodes: Seq<NodeView>, payloads: Seq<Seq<u8>>, start: nat) -> Seq<
    NodeView,
>
    recommends
        nodes.len() == payloads.len(),
{
    Seq::new(
        nodes.len(),
        |i: int|
            NodeView {
                offset: start + concat(payloads.take(i)).len(),
                encrypted_size: payloads[i].len(),
                ..nodes[i]
            },
    )
}

/// The container image of descriptors and their payloads: the header with
/// resolved offsets, then the payloads.
pub open spec fn container(nodes: Seq<NodeView>, payloads: Seq<Seq<u8>>) -> Seq<u8>
    recommends
        nodes.len() == payloads.len(),
{
    encode_fs(resolve(nodes, payloads, header_len(nodes))) + concat(payloads)
}

/// The nodes lie back to back: the first payload starts at `start`, each
/// further one where the one before it ends, and the last one ends at `end`.
pub open spec fn contiguous(nodes: Seq<NodeView>, start: nat, end: nat) -> bool {
    &&& nodes.len() == 0 ==> start == end
    &&& nodes.len() > 0 ==> nodes[0].offset == start
    &&& nodes.len() > 0 ==> nodes.last().offset + nodes.last().encrypted_size == end
    &&& forall|i: int|
        0 <= i < nodes.len() - 1 ==> (#[trigger] nodes[i]).offset + nodes[i].encrypted_size
            == nodes[i + 1].offset
}

/// Every descriptor carries the magic tag and has a checksum and an IV of
/// the right widths.
pub open spec fn all_tagged(nodes: Seq<NodeView>) -> bool {
    forall|i: int|
        0 <= i < nodes.len() ==> {
            &&& (#[trigger] nodes[i]).magic == magic_tag()
            &&& nodes[i].checksum.len() == 32
            &&& nodes[i].iv.len() == 16
        }
}

/// Taking one payload more appends it.
pub proof fn lemma_concat_step(payloads: Seq<Seq<u8>>, i: int)
    requires
        0 <= i < payloads.len(),
    ensures
        concat(payloads.take(i + 1)) == concat(payloads.take(i)) + payloads[i],
{
    assert(payloads.take(i + 1).drop_last() =~= payloads.take(i));
}

/// Payload `i` lies in the concatenation right after the payloads before it.
proof fn lemma_concat_slice(payloads: Seq<Seq<u8>>, i: int)
    requires
        0 <= i < payloads.len(),
    ensures
        concat(payloads.take(i)).len() + payloads[i].len() <= concat(payloads).len(),
        concat(payloads).subrange(
            concat(payloads.take(i)).len() as int,
            (concat(payloads.take(i)).len() + payloads[i].len()) as int,
        ) == payloads[i],
    decreases payloads.len(),
{
    let front = payloads.drop_last();
    let before = concat(payloads.take(i)).len() as int;
    if i == payloads.len() - 1 {
        assert(payloads.take(i) =~= front);
        assert(concat(payloads).subrange(before, before + payloads[i].len()) =~= payloads[i]);
    } else {
        lemma_concat_slice(front, i);
        assert(front.take(i) =~= payloads.take(i));
        assert(concat(payloads).subrange(before, before + payloads[i].len()) =~= concat(
            front,
        ).subrange(before, before + payloads[i].len()));
    }
}

/// Offset contiguity: resolved nodes lie back to back from `start` on, and
/// the last one ends where the payloads end.
pub proof fn lemma_resolved_contiguous(nodes: Seq<NodeView>, payloads: Seq<Seq<u8>>, start: nat)
    requires
        nodes.len() == payloads.len(),
    ensures
        contiguous(resolve(nodes, payloads, start), start, start + concat(payloads).len()),
{
    let resolved = resolve(nodes, payloads, start);
    if nodes.len() > 0 {
        assert(payloads.take(0) =~= Seq::<Seq<u8>>::empty());
        lemma_concat_step(payloads, nodes.len() - 1);
        assert(payloads.take(nodes.len() as int) =~= payloads);
    } else {
        assert(payloads =~= Seq::<Seq<u8>>::empty());
    }
    assert forall|i: int| 0 <= i < resolved.len() - 1 implies (#[trigger] resolved[i]).offset
        + resolved[i].encrypted_size == resolved[i + 1].offset by {
        lemma_concat_step(payloads, i);
    }
}

/// The layout of a container: its header decodes to the resolved nodes and
/// ends where the first payload starts, each node's byte range lies within
/// the image and holds exactly its payload, and the image ends with the last
/// payload.
pub proof fn lemma_container_layout(nodes: Seq<NodeView>, payloads: Seq<Seq<u8>>)
    requires
        nodes.len() == payloads.len(),
        all_tagged(nodes),
        header_len(nodes) + concat(payloads).len() <= usize::MAX,
    ensures
        container(nodes, payloads).len() == header_len(nodes) + concat(payloads).len(),
        decode_fs(container(nodes, payloads)) == Some(
            (resolve(nodes, payloads, header_len(nodes)), header_len(nodes)),
        ),
        forall|i: int|
            #![trigger payloads[i]]
            0 <= i < nodes.len() ==> {
                let node = resolve(nodes, payloads, header_len(nodes))[i];
                in_range(node, container(nodes, payloads).len()) && payload_of(
                    node,
                    container(nodes, payloads),
                ) == payloads[i]
            },
{
    let start = header_len(nodes);
    let resolved = resolve(nodes, payloads, start);
    let image = container(nodes, payloads);
    assert(same_names(resolved, nodes));
    lemma_header_len_by_names(resolved, nodes);
    assert forall|i: int| 0 <= i < resolved.len() implies (#[trigger] resolved[i]).valid() by {
        lemma_concat_slice(payloads, i);
        lemma_records_len_bounds(nodes, i);
        assert(nodes[i].magic == magic_tag());
    }
    if nodes.len() > 0 {
        lemma_records_len_bounds(nodes, 0);
    }
    lemma_encode_fs_len(resolved);
    lemma_round_trip(resolved, concat(payloads));
    assert forall|i: int|
        #![trigger payloads[i]]
        0 <= i < nodes.len() implies in_range(resolved[i], image.len()) && payload_of(
        resolved[i],
        image,
    ) == payloads[i] by {
        lemma_concat_slice(payloads, i);
        let before = concat(payloads.take(i)).len() as int;
        assert(image.subrange(start + before, start + before + payloads[i].len()) =~= concat(
            payloads,
        ).subrange(before, before + payloads[i].len()));
    }
}

/// In a list that lies back to back, a node ends before any later one
/// starts.
proof fn lemma_offsets_ascend(nodes: Seq<NodeView>, start: nat, end: nat, j: int, i: int)
    requires
        contiguous(nodes, start, end),
        0 <= j <= i < nodes.len(),
    ensures
        nodes[j].offset <= nodes[i].offset,
        j < i ==> nodes[j].offset + nodes[j].encrypted_size <= nodes[i].offset,
    decreases i - j,
{
    if j < i {
        assert(nodes[j].offset + nodes[j].encrypted_size == nodes[j + 1].offset);
        lemma_offsets_ascend(nodes, start, end, j + 1, i);
    }
}

/// In a list that lies back to back from `start` to `end`, every node lies
/// between the two, after the nodes before it.
pub proof fn lemma_contiguous_ordered(nodes: Seq<NodeView>, start: nat, end: nat, j: int, i: int)
    requires
        contiguous(nodes, start, end),
        0 <= j <= i < nodes.len(),
    ensures
        start <= nodes[j].offset <= nodes[i].offset,
        j < i ==> nodes[j].offset + nodes[j].encrypted_size <= nodes[i].offset,
        nodes[i].offset + nodes[i].encrypted_size <= end,
{
    lemma_offsets_ascend(nodes, start, end, 0, j);
    lemma_offsets_ascend(nodes, start, end, j, i);
    lemma_offsets_ascend(nodes, start, end, i, nodes.len() - 1);
}

} // verus!
