//! The packer: from files to a container image.
//!
//! Packing runs in two phases. Each file is first turned into a descriptor
//! and a ciphertext on its own. Then the offsets are resolved: the header's
//! length does not depend on the offsets it records, so it is known before
//! they are, and the payloads follow the header back to back.

use vstd::prelude::*;
use vstd::string::{StrSliceExecFns, StringExecFns};
use crate::codec::{
    all_wf, decode_fs, header_len, lemma_encode_fs_len, lemma_header_len_by_names, same_names,
    serialize_fs,
};
use crate::crypto::{decrypt_spec, digest, encrypt_node, encrypt_spec, fresh_iv, sha256};
use crate::error::RfsError;
use crate::layout::{
    all_tagged, concat, container, contiguous, in_range, lemma_concat_step,
    lemma_container_layout, lemma_resolved_contiguous, payload_of, resolve,
};
use crate::node::{magic, magic_tag, views, NodeView, RFSNode};
use crate::unpack::{unpack_spec, OutcomeView, ReportView};

verus! {

/// A path made absolute: one that starts with the separator stays as it is,
/// any other gets the separator in front.
pub open spec fn normalized(path: Seq<char>) -> Seq<char> {
    if path.len() > 0 && path[0] == '/' {
        path
    } else {
        seq!['/'] + path
    }
}

/// The payloads of a list of packed nodes, as byte sequences.
pub open spec fn payload_views(packed: Seq<(RFSNode, Vec<u8>)>) -> Seq<Seq<u8>> {
    Seq::new(packed.len(), |i: int| packed[i].1@)
}

/// The descriptors of a list of packed nodes.
pub open spec fn node_views(packed: Seq<(RFSNode, Vec<u8>)>) -> Seq<NodeView> {
    Seq::new(packed.len(), |i: int| packed[i].0@)
}

/// Makes a path absolute: it is given the separator in front unless it
/// starts with one.
pub fn normalize_path(path: &str) -> (name: String)
    ensures
        name@ == normalized(path@),
{
    proof {
        reveal_strlit("/");
    }
    if !path.is_empty() && path.get_char(0) == '/' {
        path.to_owned()
    } else {
        let mut name = String::from_str("/");
        name.append(path);
        assert(name@ =~= seq!['/'] + path@);
        name
    }
}

/// A descriptor for a file that has no place in an image yet: it carries the
/// magic tag, and its offset and encrypted size are zero.
pub fn new_node(name: String, checksum: [u8; 32], iv: [u8; 16]) -> (node: RFSNode)
    ensures
        node@ == (NodeView {
            magic: magic_tag(),
            name: name@,
            checksum: checksum@,
            iv: iv@,
            offset: 0,
            encrypted_size: 0,
        }),
{
    RFSNode { magic: magic(), name, checksum, iv, offset: 0, encrypted_size: 0 }
}

/// Builds the container image of packed nodes: resolves each node's offset
/// and encrypted size from where its payload comes to lie, and writes the
/// header followed by the payloads in the order given. The offsets and sizes
/// that the nodes bring along are not used.
pub fn assemble(packed: &Vec<(RFSNode, Vec<u8>)>) -> (image: Vec<u8>)
    ensures
        image@ == container(node_views(packed@), payload_views(packed@)),
        image@.len() == header_len(node_views(packed@)) + concat(payload_views(packed@)).len(),
{
    broadcast use vstd::array::group_array_axioms;

    let ghost nodes = node_views(packed@);
    let ghost payloads = payload_views(packed@);
    // First pass: the header with placeholder offsets, for its length.
    let mut blank: Vec<RFSNode> = Vec::new();
    let mut i: usize = 0;
    while i < packed.len()
        invariant
            i <= packed.len(),
            nodes == node_views(packed@),
            blank@.len() == i,
            forall|j: int| 0 <= j < i ==> (#[trigger] blank@[j])@.name == nodes[j].name,
        decreases packed.len() - i,
    {
        let node = &packed[i].0;
        blank.push(new_node(node.name.clone(), node.checksum, node.iv));
        i += 1;
    }
    let mut image = serialize_fs(&blank);
    let start: usize = image.len();
    proof {
        assert(all_wf(views(blank@)));
        assert(same_names(views(blank@), nodes));
        lemma_encode_fs_len(views(blank@));
        lemma_header_len_by_names(views(blank@), nodes);
    }
    // Second pass: each payload goes where the image now ends.
    let ghost blank_header = image@;
    let mut resolved: Vec<RFSNode> = Vec::new();
    let mut i: usize = 0;
    while i < packed.len()
        invariant
            i <= packed.len(),
            nodes == node_views(packed@),
            payloads == payload_views(packed@),
            start == header_len(nodes) == blank_header.len(),
            image@ == blank_header + concat(payloads.take(i as int)),
            views(resolved@) == resolve(nodes, payloads, start as nat).take(i as int),
        decreases packed.len() - i,
    {
        let node = &packed[i].0;
        let payload = &packed[i].1;
        let placed = RFSNode {
            magic: node.magic,
            name: node.name.clone(),
            checksum: node.checksum,
            iv: node.iv,
            offset: image.len(),
            encrypted_size: payload.len(),
        };
        proof {
            lemma_concat_step(payloads, i as int);
            assert(placed@ == resolve(nodes, payloads, start as nat)[i as int]);
            let all = resolve(nodes, payloads, start as nat);
            assert(views(resolved@.push(placed)) =~= views(resolved@).push(placed@));
            assert(all.take(i + 1) =~= all.take(i as int).push(all[i as int]));
        }
        resolved.push(placed);
        image.extend_from_slice(payload.as_slice());
        assert(image@ =~= blank_header + concat(payloads.take(i + 1)));
        i += 1;
    }
    // Third pass: the header again, now with the offsets, in front of the payloads.
    proof {
        assert(payloads.take(i as int) =~= payloads);
    }
    let ghost full = image@;
    let mut body = image.split_off(start);
    assert(body@ =~= concat(payloads)) by {
        assert(full.subrange(start as int, full.len() as int) =~= concat(payloads));
    }
    let mut header = serialize_fs(&resolved);
    header.append(&mut body);
    proof {
        let all = resolve(nodes, payloads, start as nat);
        assert(all.take(i as int) =~= all);
        assert(all_wf(all));
        assert(same_names(all, nodes));
        lemma_encode_fs_len(all);
        lemma_header_len_by_names(all, nodes);
    }
    header
}

/// The files of a list as plain values: name and content.
pub open spec fn file_views(files: Seq<(String, Vec<u8>)>) -> Seq<(Seq<char>, Seq<u8>)> {
    Seq::new(files.len(), |i: int| (files[i].0@, files[i].1@))
}

/// The descriptor and the payload are those of the file under the key: the
/// descriptor carries the tag, the file's absolute name and the digest of
/// its content, and the payload is the content encrypted under the
/// descriptor's IV, from which decryption gives the content back.
pub open spec fn describes(
    node: NodeView,
    payload: Seq<u8>,
    file: (Seq<char>, Seq<u8>),
    key: Seq<u8>,
) -> bool {
    &&& node.magic == magic_tag()
    &&& node.name == normalized(file.0)
    &&& node.checksum == sha256(file.1)
    &&& node.checksum.len() == 32
    &&& node.iv.len() == 16
    &&& encrypt_spec(key, node.iv, file.1) == Some(payload)
    &&& decrypt_spec(key, node.iv, payload) == Some(file.1)
}

/// The image is a container of the files under the key: its header lists one
/// node for each file, in order; the payloads lie back to back from the end
/// of the header to the end of the image; and each node and its bytes are
/// those of its file.
pub open spec fn is_container_of(
    image: Seq<u8>,
    files: Seq<(Seq<char>, Seq<u8>)>,
    key: Seq<u8>,
) -> bool {
    &&& decode_fs(image) matches Some((nodes, start))
    &&& nodes.len() == files.len()
    &&& contiguous(nodes, start, image.len())
    &&& forall|i: int|
        0 <= i < files.len() ==> in_range(#[trigger] nodes[i], image.len()) && describes(
            nodes[i],
            payload_of(nodes[i], image),
            files[i],
            key,
        )
}

/// The reports that say of every file that it came back whole: under its
/// absolute name, with its content, verified.
pub open spec fn intact(files: Seq<(Seq<char>, Seq<u8>)>) -> Seq<ReportView> {
    Seq::new(
        files.len(),
        |i: int|
            ReportView {
                name: normalized(files[i].0),
                outcome: OutcomeView::Extracted { content: files[i].1, verified: true },
            },
    )
}

/// Pack and unpack round trip: unpacking a container of some files with the
/// key it was packed under gives every file back, verified.
pub proof fn lemma_unpack_of_container(
    image: Seq<u8>,
    files: Seq<(Seq<char>, Seq<u8>)>,
    key: Seq<u8>,
)
    requires
        is_container_of(image, files, key),
    ensures
        unpack_spec(image, key) == Some(intact(files)),
{
    let decoded = decode_fs(image)->Some_0;
    let nodes = decoded.0;
    let reports = unpack_spec(image, key)->Some_0;
    assert(reports =~= intact(files)) by {
        assert forall|i: int| 0 <= i < files.len() implies reports[i] == intact(files)[i] by {
            assert(describes(nodes[i], payload_of(nodes[i], image), files[i], key));
        }
    }
}

/// Turns one file into a descriptor and a payload, with the IV given: the
/// name is made absolute, the content is hashed for the checksum and
/// encrypted under the IV, and the descriptor records the payload's length.
/// The offset is left at zero. Fails with `Crypto` exactly where the
/// encryption does.
pub fn pack_node(path: &str, content: &Vec<u8>, key: &[u8; 16], iv: [u8; 16]) -> (r: Result<
    (RFSNode, Vec<u8>),
    RfsError,
>)
    ensures
        match encrypt_spec(key@, iv@, content@) {
            Some(c) => r matches Ok((node, payload)) && payload@ == c && node@ == (NodeView {
                magic: magic_tag(),
                name: normalized(path@),
                checksum: sha256(content@),
                iv: iv@,
                offset: 0,
                encrypted_size: c.len(),
            }),
            None => r == Err::<(RFSNode, Vec<u8>), RfsError>(RfsError::Crypto),
        },
        r matches Ok((node, payload)) ==> describes(node@, payload@, (path@, content@), key@),
{
    broadcast use vstd::array::group_array_axioms;

    let name = normalize_path(path);
    let checksum = digest(content.as_slice());
    let mut node = new_node(name, checksum, iv);
    let payload = encrypt_node(&mut node, key, content)?;
    Ok((node, payload))
}

/// Packs files into a container image under one key. Each file gets a fresh
/// random IV. Packing is all or nothing: where the random source or the
/// encryption of any one file fails, the result is `Crypto` and no image.
///
/// An image that is returned is a container of the files, and unpacking it
/// with the same key gives every file back, verified.
pub fn pack(files: &Vec<(String, Vec<u8>)>, key: &[u8; 16]) -> (r: Result<Vec<u8>, RfsError>)
    ensures
        r matches Ok(image) ==> is_container_of(image@, file_views(files@), key@),
        r matches Ok(image) ==> unpack_spec(image@, key@) == Some(intact(file_views(files@))),
        r matches Err(error) ==> error == RfsError::Crypto,
        files@.len() == 0 ==> r is Ok,
{
    let ghost sources = file_views(files@);
    let mut packed: Vec<(RFSNode, Vec<u8>)> = Vec::new();
    let mut i: usize = 0;
    while i < files.len()
        invariant
            i <= files.len(),
            sources == file_views(files@),
            packed@.len() == i,
            forall|j: int|
                0 <= j < i ==> describes(
                    (#[trigger] packed@[j]).0@,
                    packed@[j].1@,
                    sources[j],
                    key@,
                ),
        decreases files.len() - i,
    {
        let iv = fresh_iv()?;
        let entry = pack_node(files[i].0.as_str(), &files[i].1, key, iv)?;
        packed.push(entry);
        i += 1;
    }
    let image = assemble(&packed);
    proof {
        let nodes = node_views(packed@);
        let payloads = payload_views(packed@);
        let start = header_len(nodes);
        let resolved = resolve(nodes, payloads, start);
        assert(all_tagged(nodes)) by {
            assert forall|j: int| 0 <= j < nodes.len() implies (#[trigger] nodes[j]).magic
                == magic_tag() && nodes[j].checksum.len() == 32 && nodes[j].iv.len() == 16 by {
                assert(describes(packed@[j].0@, packed@[j].1@, sources[j], key@));
            }
        }
        assert(image@.len() == image.len());
        lemma_container_layout(nodes, payloads);
        lemma_resolved_contiguous(nodes, payloads, start);
        assert forall|j: int| 0 <= j < sources.len() implies in_range(
            #[trigger] resolved[j],
            image@.len(),
        ) && describes(resolved[j], payload_of(resolved[j], image@), sources[j], key@) by {
            assert(describes(packed@[j].0@, packed@[j].1@, sources[j], key@));
            assert(payload_of(resolved[j], image@) == payloads[j]);
        }
        lemma_unpack_of_container(image@, sources, key@);
    }
    Ok(image)
}

} // verus!
