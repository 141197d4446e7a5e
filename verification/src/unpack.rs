//! The unpacker: from a container image back to files.
//!
//! A header that cannot be decoded stops everything. After that each node
//! stands alone: its byte range, its decryption and its checksum decide its
//! outcome, and the outcome of one node never changes that of another.

use vstd::prelude::*;
use vstd::slice::{slice_subrange, slice_to_vec};
use crate::codec::{decode_fs, lemma_decode_reads_header_only, parse_fs};
use crate::crypto::{decrypt_node, decrypt_spec, digest, sha256};
use crate::error::RfsError;
use crate::layout::{contiguous, in_range, lemma_contiguous_ordered, payload_of};
use crate::node::{views, NodeView, RFSNode};

verus! {

/// What became of one node of a container.
#[derive(Debug, PartialEq, Eq)]
pub enum Outcome {
    /// The node was decrypted. `verified` says whether the content hashes to
    /// the checksum in the header.
    Extracted { content: Vec<u8>, verified: bool },
    /// The node could not be decrypted: `Format` where its byte range lies
    /// outside the image, `Crypto` where the cipher refused its bytes.
    Failed { error: RfsError },
}

/// The name of a node and what became of it.
#[derive(Debug, PartialEq, Eq)]
pub struct NodeReport {
    pub name: String,
    pub outcome: Outcome,
}

/// An outcome as plain mathematical values.
pub enum OutcomeView {
    Extracted { content: Seq<u8>, verified: bool },
    Failed { error: RfsError },
}

/// A report as plain mathematical values.
pub struct ReportView {
    pub name: Seq<char>,
    pub outcome: OutcomeView,
}

impl View for Outcome {
    type V = OutcomeView;

    open spec fn view(&self) -> OutcomeView {
        match *self {
            Outcome::Extracted { content, verified } => OutcomeView::Extracted {
                content: content@,
                verified,
            },
            Outcome::Failed { error } => OutcomeView::Failed { error },
        }
    }
}

impl View for NodeReport {
    type V = ReportView;

    open spec fn view(&self) -> ReportView {
        ReportView { name: self.name@, outcome: self.outcome@ }
    }
}

/// The views of a list of reports, in order.
pub open spec fn report_views(reports: Seq<NodeReport>) -> Seq<ReportView> {
    Seq::new(reports.len(), |i: int| reports[i]@)
}

/// The outcome for content that was decrypted: it is verified where it
/// hashes to the node's checksum.
pub open spec fn checked(node: NodeView, content: Seq<u8>) -> OutcomeView {
    OutcomeView::Extracted { content, verified: sha256(content) == node.checksum }
}

/// What becomes of a node: a pure function of the node, its own bytes in the
/// image, and the key.
pub open spec fn extract_spec(node: NodeView, raw: Seq<u8>, key: Seq<u8>) -> OutcomeView {
    if !in_range(node, raw.len()) {
        OutcomeView::Failed { error: RfsError::Format }
    } else {
        match decrypt_spec(key, node.iv, payload_of(node, raw)) {
            None => OutcomeView::Failed { error: RfsError::Crypto },
            Some(content) => checked(node, content),
        }
    }
}

/// The reports for the nodes of a list, in order.
pub open spec fn reports_of(nodes: Seq<NodeView>, raw: Seq<u8>, key: Seq<u8>) -> Seq<ReportView> {
    Seq::new(
        nodes.len(),
        |i: int| ReportView { name: nodes[i].name, outcome: extract_spec(nodes[i], raw, key) },
    )
}

/// What unpacking an image gives: a report for every node that the header
/// lists, or `None` where the header cannot be decoded.
pub open spec fn unpack_spec(raw: Seq<u8>, key: Seq<u8>) -> Option<Seq<ReportView>> {
    match decode_fs(raw) {
        None => None,
        Some((nodes, _)) => Some(reports_of(nodes, raw, key)),
    }
}

/// Gets the encrypted data for a node, or `Format` where the node's byte
/// range does not lie within the filesystem.
///
/// * `node` - the node to get the data of
/// * `raw_fs` - the whole filesystem as bytes
pub fn get_data<'a>(node: &RFSNode, raw_fs: &'a Vec<u8>) -> (r: Result<&'a [u8], RfsError>)
    ensures
        if in_range(node@, raw_fs@.len()) {
            r matches Ok(data) && data@ == payload_of(node@, raw_fs@)
        } else {
            r == Err::<&[u8], RfsError>(RfsError::Format)
        },
{
    let len: usize = raw_fs.len();
    if node.offset > len || node.encrypted_size > len - node.offset {
        return Err(RfsError::Format);
    }
    Ok(slice_subrange(raw_fs.as_slice(), node.offset, node.offset + node.encrypted_size))
}

/// Whether a digest is the checksum that the node records.
pub fn matches_checksum(node: &RFSNode, digest: &[u8; 32]) -> (r: bool)
    ensures
        r == (digest@ == node.checksum@),
{
    broadcast use vstd::array::group_array_axioms;

    let mut i: usize = 0;
    while i < 32
        invariant
            i <= 32,
            forall|j: int| 0 <= j < i ==> digest@[j] == node.checksum@[j],
        decreases 32 - i,
    {
        if digest[i] != node.checksum[i] {
            return false;
        }
        i += 1;
    }
    assert(digest@ =~= node.checksum@);
    true
}

/// The outcome for content that was decrypted, given its digest.
pub fn check_content(node: &RFSNode, content: Vec<u8>, digest: &[u8; 32]) -> (r: Outcome)
    ensures
        r@ == (OutcomeView::Extracted { content: content@, verified: digest@ == node.checksum@ }),
{
    let verified = matches_checksum(node, digest);
    Outcome::Extracted { content, verified }
}

/// Extracts one node from an image: slices its bytes, decrypts them under
/// the node's IV, and holds the plaintext against the node's checksum.
pub fn extract_node(node: &RFSNode, raw_fs: &Vec<u8>, key: &[u8; 16]) -> (r: Outcome)
    ensures
        r@ == extract_spec(node@, raw_fs@, key@),
{
    let data = match get_data(node, raw_fs) {
        Ok(data) => slice_to_vec(data),
        Err(error) => { return Outcome::Failed { error }; },
    };
    match decrypt_node(node, key, &data) {
        Ok(content) => {
            let hash = digest(content.as_slice());
            check_content(node, content, &hash)
        },
        Err(error) => Outcome::Failed { error },
    }
}

/// Unpacks a container image. A header that cannot be decoded is a `Format`
/// error. Otherwise every node gets a report, in header order, whatever
/// became of the others.
pub fn unpack(raw_fs: &Vec<u8>, key: &[u8; 16]) -> (r: Result<Vec<NodeReport>, RfsError>)
    ensures
        match unpack_spec(raw_fs@, key@) {
            Some(reports) => r matches Ok(v) && report_views(v@) == reports,
            None => r == Err::<Vec<NodeReport>, RfsError>(RfsError::Format),
        },
{
    let fs = parse_fs(raw_fs)?;
    let ghost nodes = views(fs@);
    let mut reports: Vec<NodeReport> = Vec::new();
    let mut i: usize = 0;
    while i < fs.len()
        invariant
            i <= fs.len(),
            nodes == views(fs@),
            report_views(reports@) == reports_of(nodes, raw_fs@, key@).take(i as int),
        decreases fs.len() - i,
    {
        let node = &fs[i];
        let outcome = extract_node(node, raw_fs, key);
        let report = NodeReport { name: node.name.clone(), outcome };
        proof {
            let all = reports_of(nodes, raw_fs@, key@);
            assert(report@ == all[i as int]);
            assert(report_views(reports@.push(report)) =~= report_views(reports@).push(report@));
            assert(all.take(i + 1) =~= all.take(i as int).push(all[i as int]));
        }
        reports.push(report);
        i += 1;
    }
    proof {
        let all = reports_of(nodes, raw_fs@, key@);
        assert(all.take(i as int) =~= all);
    }
    Ok(reports)
}

impl Outcome {
    /// The outcome as a typed error: `Ok` for verified content,
    /// `IntegrityMismatch` for content that does not hash to the node's
    /// checksum, and otherwise the error that stopped the extraction.
    pub fn status(&self) -> (r: Result<(), RfsError>)
        ensures
            r == match self@ {
                OutcomeView::Extracted { verified, .. } => if verified {
                    Ok::<(), RfsError>(())
                } else {
                    Err::<(), RfsError>(RfsError::IntegrityMismatch)
                },
                OutcomeView::Failed { error } => Err::<(), RfsError>(error),
            },
    {
        match self {
            Outcome::Extracted { verified, .. } => if *verified {
                Ok(())
            } else {
                Err(RfsError::IntegrityMismatch)
            },
            Outcome::Failed { error } => Err(*error),
        }
    }
}

/// The outcome of a node depends on the image only through the node's own
/// bytes.
pub proof fn lemma_extract_reads_own_bytes(
    node: NodeView,
    raw: Seq<u8>,
    other: Seq<u8>,
    key: Seq<u8>,
)
    requires
        in_range(node, raw.len()),
        in_range(node, other.len()),
        payload_of(node, other) == payload_of(node, raw),
    ensures
        extract_spec(node, other, key) == extract_spec(node, raw, key),
{
}

/// Content is reported as verified only where it hashes to the checksum
/// that the header records for it, whatever the key that decrypted it.
pub proof fn lemma_verified_means_checksum(node: NodeView, raw: Seq<u8>, key: Seq<u8>)
    ensures
        extract_spec(node, raw, key) matches OutcomeView::Extracted { content, verified }
            ==> verified == (sha256(content) == node.checksum) && decrypt_spec(
            key,
            node.iv,
            payload_of(node, raw),
        ) == Some(content),
{
}

/// Each node is its own failure domain: in a container whose payloads lie
/// back to back after the header, changing a byte of one node's payload
/// changes neither the list of nodes nor the report of any other node.
pub proof fn lemma_tamper_is_local(image: Seq<u8>, key: Seq<u8>, i: int, at: int, byte: u8)
    requires
        decode_fs(image) is Some,
        contiguous(decode_fs(image)->Some_0.0, decode_fs(image)->Some_0.1, image.len()),
        0 <= i < decode_fs(image)->Some_0.0.len(),
        decode_fs(image)->Some_0.0[i].offset <= at < decode_fs(image)->Some_0.0[i].offset
            + decode_fs(image)->Some_0.0[i].encrypted_size,
    ensures
        decode_fs(image.update(at, byte)) == decode_fs(image),
        unpack_spec(image.update(at, byte), key) is Some,
        unpack_spec(image.update(at, byte), key)->Some_0.len() == unpack_spec(
            image,
            key,
        )->Some_0.len(),
        forall|j: int|
            0 <= j < decode_fs(image)->Some_0.0.len() && j != i ==> unpack_spec(
                image.update(at, byte),
                key,
            )->Some_0[j] == #[trigger] unpack_spec(image, key)->Some_0[j],
        unpack_spec(image.update(at, byte), key)->Some_0[i].name == unpack_spec(
            image,
            key,
        )->Some_0[i].name,
{
    let (nodes, start) = decode_fs(image)->Some_0;
    let bad = image.update(at, byte);
    lemma_contiguous_ordered(nodes, start, image.len(), i, i);
    assert(bad.subrange(0, start as int) =~= image.subrange(0, start as int));
    lemma_decode_reads_header_only(image, bad);
    assert forall|j: int| 0 <= j < nodes.len() && j != i implies unpack_spec(bad, key)->Some_0[j]
        == #[trigger] unpack_spec(image, key)->Some_0[j] by {
        if j < i {
            lemma_contiguous_ordered(nodes, start, image.len(), j, i);
        } else {
            lemma_contiguous_ordered(nodes, start, image.len(), i, j);
        }
        assert(payload_of(nodes[j], bad) =~= payload_of(nodes[j], image));
        lemma_extract_reads_own_bytes(nodes[j], image, bad, key);
    }
}

} // verus!
