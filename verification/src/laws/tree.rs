//! The tree that reading yields: how parts are classified, what files and
//! containers hold, and how containers nest.

use vstd::prelude::*;
use crate::bytes::{after_token, before_token, dashes, lemma_after_token, starts_with};
use crate::boundary::boundary_of;
use crate::error::Error;
use crate::headers::{fields_of, header_block, HeaderView};
use crate::mime::{content_disposition_of, has_filename, is_multipart};
use crate::node::NodeView;
use crate::parser::{body_nodes, leaf, line_terminator, PART_HEADERS, read_level, read_parts};
use crate::writer::{body_of, headers_of, written, written_node, written_nodes};

verus! {

/// Classification: a part that is no container is read as a file if and
/// only if `always_use_files` is set, or its disposition is `attachment`, or
/// its disposition holds a file name; otherwise it is read as a part in
/// memory.  Either way the node has the headers and the content of the part.
pub proof fn law_classification(hs: Seq<HeaderView>, content: Seq<u8>, always_use_files: bool)
    ensures
        leaf(hs, content, always_use_files) is File <==> always_use_files || (
        content_disposition_of(hs) matches Some(cd) && (cd.disposition is Attachment
            || has_filename(cd.parameters))),
        leaf(hs, content, always_use_files) is File || leaf(hs, content, always_use_files) is Part,
        headers_of(leaf(hs, content, always_use_files)) == hs,
        body_of(leaf(hs, content, always_use_files)) == content,
{
}

/// Every file in the tree holds as its size the number of bytes of its
/// content.
pub open spec fn sizes_are_counts(node: NodeView) -> bool
    decreases node,
{
    match node {
        NodeView::Part(_) => true,
        NodeView::File(file) => file.size == Some(file.content.len() as usize),
        NodeView::Multipart(_, children) => forall|i: int|
            0 <= i < children.len() ==> sizes_are_counts(#[trigger] children[i]),
    }
}

/// The size of every file that the parts of a level are read as is the
/// number of bytes of its content.
proof fn lemma_parts_sizes(s: Seq<u8>, lt: Seq<u8>, token: Seq<u8>, always_use_files: bool)
    requires
        lt.len() > 0,
        read_parts(s, lt, token, always_use_files) is Ok,
    ensures
        forall|i: int|
            0 <= i < read_parts(s, lt, token, always_use_files)->Ok_0.0.len() ==> sizes_are_counts(
                #[trigger] read_parts(s, lt, token, always_use_files)->Ok_0.0[i],
            ),
    decreases s.len(), 0int,
{
    if !starts_with(s, dashes()) {
        lemma_after_token(s, lt);
        let s1 = after_token(s, lt)->0;
        lemma_after_token(s1, lt + lt);
        let s2 = after_token(s1, lt + lt)->0;
        let hs = fields_of(
            header_block(before_token(s1, lt + lt) + (lt + lt), PART_HEADERS as int),
        )->Ok_0;
        if is_multipart(hs) {
            law_file_sizes(s2, hs, always_use_files);
        } else {
            lemma_after_token(s2, lt + token);
            let s3 = after_token(s2, lt + token)->0;
            lemma_parts_sizes(s3, lt, token, always_use_files);
        }
    }
}

/// The size of a file part: every file that a body is read as, at whatever
/// depth, holds as its size the number of bytes of its content, which are
/// the bytes between the blank line behind its headers and the line
/// terminator before the next boundary.
pub proof fn law_file_sizes(s: Seq<u8>, headers: Seq<HeaderView>, always_use_files: bool)
    requires
        read_level(s, headers, always_use_files) is Ok,
    ensures
        forall|i: int|
            0 <= i < read_level(s, headers, always_use_files)->Ok_0.0.len() ==> sizes_are_counts(
                #[trigger] read_level(s, headers, always_use_files)->Ok_0.0[i],
            ),
    decreases s.len(), 1int,
{
    let token = boundary_of(headers)->Ok_0;
    lemma_after_token(s, token);
    let after = after_token(s, token)->0;
    let lt = line_terminator(after)->0;
    lemma_parts_sizes(after, lt, token, always_use_files);
}

/// Every container in the tree has headers that are those of a container
/// and declare a boundary.
pub open spec fn containers_declare_boundaries(node: NodeView) -> bool
    decreases node,
{
    match node {
        NodeView::Part(_) => true,
        NodeView::File(_) => true,
        NodeView::Multipart(headers, children) => is_multipart(headers) && boundary_of(headers) is Ok
            && forall|i: int|
            0 <= i < children.len() ==> containers_declare_boundaries(#[trigger] children[i]),
    }
}

/// Every container that the parts of a level are read as has headers that
/// declare a boundary.
proof fn lemma_parts_containers(s: Seq<u8>, lt: Seq<u8>, token: Seq<u8>, always_use_files: bool)
    requires
        lt.len() > 0,
        read_parts(s, lt, token, always_use_files) is Ok,
    ensures
        forall|i: int|
            0 <= i < read_parts(s, lt, token, always_use_files)->Ok_0.0.len()
                ==> containers_declare_boundaries(
                #[trigger] read_parts(s, lt, token, always_use_files)->Ok_0.0[i],
            ),
    decreases s.len(), 0int,
{
    if !starts_with(s, dashes()) {
        lemma_after_token(s, lt);
        let s1 = after_token(s, lt)->0;
        lemma_after_token(s1, lt + lt);
        let s2 = after_token(s1, lt + lt)->0;
        let hs = fields_of(
            header_block(before_token(s1, lt + lt) + (lt + lt), PART_HEADERS as int),
        )->Ok_0;
        if is_multipart(hs) {
            law_containers(s2, hs, always_use_files);
        } else {
            lemma_after_token(s2, lt + token);
            let s3 = after_token(s2, lt + token)->0;
            lemma_parts_containers(s3, lt, token, always_use_files);
        }
    }
}

/// Containers: every container that a body is read as, at whatever depth,
/// has the headers of a container, and they declare the boundary with which
/// its parts were read.
pub proof fn law_containers(s: Seq<u8>, headers: Seq<HeaderView>, always_use_files: bool)
    requires
        read_level(s, headers, always_use_files) is Ok,
    ensures
        boundary_of(headers) is Ok,
        forall|i: int|
            0 <= i < read_level(s, headers, always_use_files)->Ok_0.0.len()
                ==> containers_declare_boundaries(
                #[trigger] read_level(s, headers, always_use_files)->Ok_0.0[i],
            ),
    decreases s.len(), 1int,
{
    let token = boundary_of(headers)->Ok_0;
    lemma_after_token(s, token);
    let after = after_token(s, token)->0;
    let lt = line_terminator(after)->0;
    lemma_parts_containers(after, lt, token, always_use_files);
}

/// Nodes whose containers all declare boundaries can be written.
proof fn lemma_can_be_written(boundary: Seq<u8>, nodes: Seq<NodeView>)
    requires
        forall|i: int| 0 <= i < nodes.len() ==> containers_declare_boundaries(#[trigger] nodes[i]),
    ensures
        written_nodes(boundary, nodes) is Ok,
    decreases nodes, 1int,
{
    if nodes.len() > 0 {
        let init = nodes.drop_last();
        assert forall|i: int| 0 <= i < init.len() implies containers_declare_boundaries(
            #[trigger] init[i],
        ) by {
            assert(init[i] == nodes[i]);
        }
        lemma_can_be_written(boundary, init);
        let node = nodes.last();
        assert(containers_declare_boundaries(node));
        match node {
            NodeView::Multipart(headers, children) => {
                assert(boundary_of(headers) is Ok);
                assert forall|i: int| 0 <= i < children.len() implies containers_declare_boundaries(
                    #[trigger] children[i],
                ) by {}
                lemma_can_be_written(boundary_of(headers)->Ok_0, children);
                assert(written_node(boundary, node) is Ok);
            },
            NodeView::Part(_) => {
                assert(written_node(boundary, node) is Ok);
            },
            NodeView::File(_) => {
                assert(written_node(boundary, node) is Ok);
            },
        }
    }
}

/// What was read can be written: the nodes that a body is read as can be
/// written with any boundary.
pub proof fn law_read_can_be_written(
    s: Seq<u8>,
    headers: Seq<HeaderView>,
    always_use_files: bool,
    boundary: Seq<u8>,
)
    requires
        body_nodes(s, headers, always_use_files) is Ok,
    ensures
        written(boundary, body_nodes(s, headers, always_use_files)->Ok_0) is Ok,
{
    law_containers(s, headers, always_use_files);
    lemma_can_be_written(boundary, read_level(s, headers, always_use_files)->Ok_0.0);
}

/// The headers of the part that begins at `s`, right behind a boundary.
pub open spec fn next_headers(s: Seq<u8>, lt: Seq<u8>) -> Result<Seq<HeaderView>, Error> {
    match after_token(s, lt) {
        None => Err(Error::NoCrLfAfterBoundary),
        Some(s1) => match after_token(s1, lt + lt) {
            None => Err(Error::EofInPartHeaders),
            Some(_) => fields_of(
                header_block(before_token(s1, lt + lt) + (lt + lt), PART_HEADERS as int),
            ),
        },
    }
}

/// What stands behind the headers of the part that begins at `s`.
pub open spec fn behind_headers(s: Seq<u8>, lt: Seq<u8>) -> Seq<u8> {
    after_token(after_token(s, lt)->0, lt + lt)->0
}

/// Nesting: a part whose headers are those of a container is read as a
/// container with those headers.  Its children are the nodes of the body
/// that stands behind its headers, read with those headers: as many, and in
/// the same order.
pub proof fn law_nested(s: Seq<u8>, lt: Seq<u8>, token: Seq<u8>, always_use_files: bool)
    requires
        lt.len() > 0,
        !starts_with(s, dashes()),
        next_headers(s, lt) matches Ok(hs) && is_multipart(hs),
    ensures
        read_parts(s, lt, token, always_use_files) == match read_level(
            behind_headers(s, lt),
            next_headers(s, lt)->Ok_0,
            always_use_files,
        ) {
            Ok((children, rest)) => Ok::<(Seq<NodeView>, Seq<u8>), Error>(
                (seq![NodeView::Multipart(next_headers(s, lt)->Ok_0, children)], rest),
            ),
            Err(e) => Err::<(Seq<NodeView>, Seq<u8>), Error>(e),
        },
{
}

} // verus!
