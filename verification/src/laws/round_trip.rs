//! Round trip: what was written is read again as it was.

use vstd::prelude::*;
use crate::bytes::{crlf, dashes, first_match, lemma_concat3, lemma_first_match_at_start, occurs_at};
use crate::boundary::boundary_of;
use crate::error::Error;
use crate::headers::{fields_of, header_block, HeaderView};
use crate::mime::is_multipart;
use crate::node::NodeView;
use crate::parser::{body_nodes, leaf, PART_HEADERS};
use crate::writer::{
    body_of, header_line, header_lines, headers_of, written, written_node, written_nodes,
};
use crate::laws::order::{
    RawPart, is_plain_part, law_parts_in_order, message, nodes_of, part_bytes, part_fields,
    parts_bytes,
};

verus! {

/// A node can be written and read again: it is no container and does not
/// look like one, it has a header, its header lines hold no blank line and
/// are read as its headers, and no boundary line begins inside its content.
pub open spec fn survives(node: NodeView, boundary: Seq<u8>) -> bool {
    let hs = headers_of(node);
    let lines = header_lines(hs);
    let delimiter = crlf() + (dashes() + boundary);
    &&& !(node is Multipart)
    &&& hs.len() > 0
    &&& first_match(lines + crlf(), crlf() + crlf()) == Some(lines.len() - 2)
    &&& fields_of(header_block(lines + crlf(), PART_HEADERS as int)) == Ok::<
        Seq<HeaderView>,
        Error,
    >(hs)
    &&& !is_multipart(hs)
    &&& first_match(body_of(node) + delimiter, delimiter) == Some(body_of(node).len() as int)
}

/// What a node that was written is read as: a node with the same headers
/// and the same content, a file or not as the reading decides.
pub open spec fn reread(node: NodeView, always_use_files: bool) -> NodeView {
    leaf(headers_of(node), body_of(node), always_use_files)
}

/// A node as it stands in a body that was written.
pub open spec fn raw_part(node: NodeView) -> RawPart {
    let lines = header_lines(headers_of(node));
    RawPart { block: lines.take(lines.len() - 2), content: body_of(node) }
}

/// The header lines of at least one header end in a line terminator.
proof fn lemma_header_lines_end(hs: Seq<HeaderView>)
    requires
        hs.len() > 0,
    ensures
        header_lines(hs).len() >= 2,
        header_lines(hs) == header_lines(hs).take(header_lines(hs).len() - 2) + crlf(),
{
    let lines = header_lines(hs);
    let last = header_line(hs.last());
    assert(last.len() >= 2);
    assert(lines =~= lines.take(lines.len() - 2) + crlf());
}

/// The parts one after the other, with one more part behind them.
proof fn lemma_parts_bytes_push(parts: Seq<RawPart>, p: RawPart, lt: Seq<u8>, token: Seq<u8>)
    ensures
        parts_bytes(parts.push(p), lt, token) == parts_bytes(parts, lt, token) + part_bytes(
            p,
            lt,
            token,
        ),
    decreases parts.len(),
{
    let one = part_bytes(p, lt, token);
    if parts.len() == 0 {
        let none = Seq::<RawPart>::empty();
        assert(parts.push(p).skip(1) =~= none);
        assert(parts.push(p)[0] == p);
        assert(parts_bytes(none, lt, token) =~= Seq::<u8>::empty());
        assert(parts_bytes(parts.push(p), lt, token) == one + parts_bytes(none, lt, token));
        assert(one + Seq::<u8>::empty() =~= one);
        assert(parts_bytes(parts, lt, token) + one =~= one);
    } else {
        assert(parts.push(p).skip(1) =~= parts.skip(1).push(p));
        lemma_parts_bytes_push(parts.skip(1), p, lt, token);
        assert(parts.push(p)[0] == parts[0]);
        lemma_concat3(part_bytes(parts[0], lt, token), parts_bytes(parts.skip(1), lt, token), one);
    }
}

/// A node that is no container is written as a boundary line and, but for
/// the boundary that follows, the part that it stands for.
proof fn lemma_written_node_is_part(boundary: Seq<u8>, node: NodeView)
    requires
        !(node is Multipart),
        headers_of(node).len() > 0,
    ensures
        written_node(boundary, node) matches Ok(bytes) && bytes + (dashes() + boundary) == (
        dashes() + boundary) + part_bytes(raw_part(node), crlf(), dashes() + boundary),
{
    let token = dashes() + boundary;
    let p = raw_part(node);
    lemma_header_lines_end(headers_of(node));
    let lines = header_lines(headers_of(node));
    let bytes = written_node(boundary, node)->Ok_0;
    assert(lines == p.block + crlf());
    assert(bytes =~= token + crlf() + (p.block + crlf()) + crlf() + body_of(node) + crlf());
    assert(part_bytes(p, crlf(), token) =~= crlf() + p.block + (crlf() + crlf()) + body_of(node)
        + (crlf() + token));
    assert(bytes + token =~= token + part_bytes(p, crlf(), token));
}

/// Nodes that are no containers are written as the parts that they stand
/// for, each behind a boundary line.
proof fn lemma_written_is_parts(boundary: Seq<u8>, nodes: Seq<NodeView>)
    requires
        forall|i: int| 0 <= i < nodes.len() ==> !(#[trigger] nodes[i] is Multipart) && headers_of(
            nodes[i],
        ).len() > 0,
    ensures
        written_nodes(boundary, nodes) matches Ok(bytes) && bytes + (dashes() + boundary) == (
        dashes() + boundary) + parts_bytes(
            Seq::new(nodes.len(), |i: int| raw_part(nodes[i])),
            crlf(),
            dashes() + boundary,
        ),
    decreases nodes.len(),
{
    let token = dashes() + boundary;
    let parts = Seq::new(nodes.len(), |i: int| raw_part(nodes[i]));
    if nodes.len() == 0 {
        assert(parts =~= Seq::<RawPart>::empty());
        assert(Seq::<u8>::empty() + token =~= token + parts_bytes(parts, crlf(), token));
    } else {
        let init = nodes.drop_last();
        let node = nodes.last();
        let parts0 = Seq::new(init.len(), |i: int| raw_part(init[i]));
        assert forall|i: int| 0 <= i < init.len() implies !(#[trigger] init[i] is Multipart)
            && headers_of(init[i]).len() > 0 by {
            assert(init[i] == nodes[i]);
        }
        lemma_written_is_parts(boundary, init);
        let before = written_nodes(boundary, init)->Ok_0;
        assert(!(node is Multipart));
        let p = raw_part(node);
        let one = part_bytes(p, crlf(), token);
        let all0 = parts_bytes(parts0, crlf(), token);
        assert(parts =~= parts0.push(p));
        lemma_parts_bytes_push(parts0, p, crlf(), token);
        lemma_written_node_is_part(boundary, node);
        let last = written_node(boundary, node)->Ok_0;
        assert(written_nodes(boundary, nodes) == Ok::<Seq<u8>, Error>(before + last));
        lemma_concat3(before, last, token);
        lemma_concat3(before, token, one);
        lemma_concat3(token, all0, one);
    }
}

/// Round trip: nodes that are written with a boundary and read again, with
/// headers that declare that boundary, come back as nodes with the same
/// headers and the same content, in the same order.  Nodes come back as
/// files or not as the reading decides.  This holds of one node or more,
/// each of which can be written and read again.
pub proof fn law_round_trip(
    boundary: Seq<u8>,
    nodes: Seq<NodeView>,
    headers: Seq<HeaderView>,
    always_use_files: bool,
)
    requires
        boundary_of(headers) == Ok::<Seq<u8>, Error>(dashes() + boundary),
        nodes.len() > 0,
        forall|i: int| 0 <= i < nodes.len() ==> survives(#[trigger] nodes[i], boundary),
    ensures
        written(boundary, nodes) matches Ok(bytes) && body_nodes(bytes, headers, always_use_files)
            == Ok::<Seq<NodeView>, Error>(
            Seq::new(nodes.len(), |i: int| reread(nodes[i], always_use_files)),
        ),
{
    let token = dashes() + boundary;
    let parts = Seq::new(nodes.len(), |i: int| raw_part(nodes[i]));
    lemma_written_is_parts(boundary, nodes);
    let body = written_nodes(boundary, nodes)->Ok_0;
    let bytes = written(boundary, nodes)->Ok_0;
    assert(bytes =~= body + token + dashes());
    assert(bytes =~= message(Seq::empty(), parts, crlf(), token, Seq::empty())) by {
        assert(body + token + dashes() =~= token + parts_bytes(parts, crlf(), token) + dashes());
    }
    assert forall|i: int| 0 <= i < parts.len() implies is_plain_part(
        #[trigger] parts[i],
        crlf(),
        token,
    ) && part_fields(parts[i], crlf()) == Ok::<Seq<HeaderView>, Error>(headers_of(nodes[i])) by {
        let node = nodes[i];
        assert(survives(node, boundary));
        lemma_header_lines_end(headers_of(node));
        let lines = header_lines(headers_of(node));
        assert(parts[i].block + (crlf() + crlf()) =~= lines + crlf());
    }
    assert(Seq::<u8>::empty() + token =~= token);
    assert(occurs_at(token, token, 0)) by {
        assert(token.subrange(0, token.len() as int) =~= token);
    }
    lemma_first_match_at_start(token, token);
    law_parts_in_order(Seq::empty(), parts, crlf(), token, Seq::empty(), headers, always_use_files);
    assert(nodes_of(parts, crlf(), always_use_files) =~= Seq::new(
        nodes.len(),
        |i: int| reread(nodes[i], always_use_files),
    ));
}

} // verus!
