//! Chunks: a chunked body holds, chunk by chunk, the plain body.

use vstd::prelude::*;
use crate::bytes::{crlf, dashes, lemma_concat3};
use crate::boundary::boundary_of;
use crate::error::Error;
use crate::headers::HeaderView;
use crate::node::NodeView;
use crate::writer::{
    chunked, chunked_before_failure, chunks, colon_space, head_pieces, header_lines,
    header_pieces, headers_of, joined, last_chunk, node_before_failure, node_pieces,
    node_pieces_before_failure, nodes_before_failure, nodes_pieces, nodes_pieces_before_failure,
    pieces, written, written_before_failure, written_node, written_nodes,
};

verus! {

/// The payloads of two lists, one after the other, are the payloads of the
/// two lists put together.
proof fn lemma_joined_concat(a: Seq<Seq<u8>>, b: Seq<Seq<u8>>)
    ensures
        joined(a + b) == joined(a) + joined(b),
    decreases b.len(),
{
    if b.len() == 0 {
        assert(a + b =~= a);
        assert(joined(a) + joined(b) =~= joined(a));
    } else {
        assert((a + b).drop_last() =~= a + b.drop_last());
        assert((a + b).last() == b.last());
        lemma_joined_concat(a, b.drop_last());
        lemma_concat3(joined(a), joined(b.drop_last()), b.last());
    }
}

/// A single payload, put together, is itself.
proof fn lemma_joined1(a: Seq<u8>)
    ensures
        joined(seq![a]) == a,
{
    assert(seq![a].drop_last() =~= Seq::<Seq<u8>>::empty());
    assert(joined(Seq::<Seq<u8>>::empty()) + a =~= a);
}

/// Two payloads put together.
proof fn lemma_joined2(a: Seq<u8>, b: Seq<u8>)
    ensures
        joined(seq![a, b]) == a + b,
{
    assert(seq![a, b].drop_last() =~= seq![a]);
    lemma_joined1(a);
}

/// Three payloads put together.
proof fn lemma_joined3(a: Seq<u8>, b: Seq<u8>, c: Seq<u8>)
    ensures
        joined(seq![a, b, c]) == a + b + c,
{
    assert(seq![a, b, c].drop_last() =~= seq![a, b]);
    lemma_joined2(a, b);
}

/// Four payloads put together.
proof fn lemma_joined4(a: Seq<u8>, b: Seq<u8>, c: Seq<u8>, d: Seq<u8>)
    ensures
        joined(seq![a, b, c, d]) == a + b + c + d,
{
    assert(seq![a, b, c, d].drop_last() =~= seq![a, b, c]);
    lemma_joined3(a, b, c);
}

/// The pieces of the header lines, put together, are the header lines.
proof fn lemma_joined_headers(hs: Seq<HeaderView>)
    ensures
        joined(header_pieces(hs)) == header_lines(hs),
    decreases hs.len(),
{
    if hs.len() > 0 {
        lemma_joined_headers(hs.drop_last());
        let h = hs.last();
        let four = seq![h.name, colon_space(), h.value, crlf()];
        lemma_joined_concat(header_pieces(hs.drop_last()), four);
        lemma_joined4(h.name, colon_space(), h.value, crlf());
    }
}

/// The pieces that open a node, put together, are the boundary line, the
/// header lines and the blank line.
proof fn lemma_joined_head(boundary: Seq<u8>, hs: Seq<HeaderView>)
    ensures
        joined(head_pieces(boundary, hs)) == dashes() + boundary + crlf() + header_lines(hs)
            + crlf(),
{
    let line = seq![dashes(), boundary, crlf()];
    lemma_joined3(dashes(), boundary, crlf());
    lemma_joined_headers(hs);
    lemma_joined1(crlf());
    lemma_joined_concat(line, header_pieces(hs));
    lemma_joined_concat(line + header_pieces(hs), seq![crlf()]);
}

/// The pieces of a node, put together, are the node as it is written; a
/// node that cannot be written has no pieces, for the same reason.
proof fn lemma_joined_node(boundary: Seq<u8>, node: NodeView)
    ensures
        match node_pieces(boundary, node) {
            Ok(payloads) => written_node(boundary, node) == Ok::<Seq<u8>, Error>(joined(payloads)),
            Err(e) => written_node(boundary, node) == Err::<Seq<u8>, Error>(e),
        },
    decreases node, 0int,
{
    let head = head_pieces(boundary, headers_of(node));
    lemma_joined_head(boundary, headers_of(node));
    match node {
        NodeView::Part(part) => {
            lemma_joined2(part.body, crlf());
            lemma_joined_concat(head, seq![part.body, crlf()]);
            lemma_concat3(joined(head), part.body, crlf());
        },
        NodeView::File(file) => {
            lemma_joined2(file.content, crlf());
            lemma_joined_concat(head, seq![file.content, crlf()]);
            lemma_concat3(joined(head), file.content, crlf());
        },
        NodeView::Multipart(headers, children) => {
            match boundary_of(headers) {
                Err(_) => {},
                Ok(inner) => {
                    lemma_joined_nodes(inner, children);
                    match nodes_pieces(inner, children) {
                        Err(_) => {},
                        Ok(body) => {
                            let end = seq![dashes(), inner, dashes()];
                            lemma_joined3(dashes(), inner, dashes());
                            lemma_joined_concat(body, end);
                            lemma_joined_concat(head, body + end);
                            lemma_joined1(crlf());
                            lemma_joined_concat(head + (body + end), seq![crlf()]);
                            assert(joined(body) + (dashes() + inner + dashes()) =~= joined(body)
                                + dashes() + inner + dashes());
                        },
                    }
                },
            }
        },
    }
}

/// The pieces of a list of nodes, put together, are the nodes as they are
/// written.
proof fn lemma_joined_nodes(boundary: Seq<u8>, nodes: Seq<NodeView>)
    ensures
        match nodes_pieces(boundary, nodes) {
            Ok(payloads) => written_nodes(boundary, nodes) == Ok::<Seq<u8>, Error>(
                joined(payloads),
            ),
            Err(e) => written_nodes(boundary, nodes) == Err::<Seq<u8>, Error>(e),
        },
    decreases nodes, 1int,
{
    if nodes.len() > 0 {
        lemma_joined_nodes(boundary, nodes.drop_last());
        lemma_joined_node(boundary, nodes.last());
        match nodes_pieces(boundary, nodes.drop_last()) {
            Ok(before) => match node_pieces(boundary, nodes.last()) {
                Ok(last) => {
                    lemma_joined_concat(before, last);
                },
                Err(_) => {},
            },
            Err(_) => {},
        }
    }
}

/// The pieces that are written of a node that cannot be written, put
/// together, are what is written of it.
proof fn lemma_joined_node_before_failure(boundary: Seq<u8>, node: NodeView)
    ensures
        joined(node_pieces_before_failure(boundary, node)) == node_before_failure(boundary, node),
    decreases node, 0int,
{
    match node {
        NodeView::Multipart(headers, children) => {
            lemma_joined3(dashes(), boundary, crlf());
            match boundary_of(headers) {
                Err(_) => {},
                Ok(inner) => {
                    let head = head_pieces(boundary, headers);
                    let part = nodes_pieces_before_failure(inner, children);
                    lemma_joined_head(boundary, headers);
                    lemma_joined_nodes_before_failure(inner, children);
                    lemma_joined_concat(head, part);
                },
            }
        },
        _ => {},
    }
}

/// The pieces that are written of nodes one of which cannot be written, put
/// together, are what is written of them.
proof fn lemma_joined_nodes_before_failure(boundary: Seq<u8>, nodes: Seq<NodeView>)
    ensures
        joined(nodes_pieces_before_failure(boundary, nodes)) == nodes_before_failure(
            boundary,
            nodes,
        ),
    decreases nodes, 1int,
{
    if nodes.len() > 0 {
        lemma_joined_nodes(boundary, nodes.drop_last());
        lemma_joined_nodes_before_failure(boundary, nodes.drop_last());
        lemma_joined_node_before_failure(boundary, nodes.last());
        match nodes_pieces(boundary, nodes.drop_last()) {
            Ok(before) => {
                lemma_joined_concat(before, node_pieces_before_failure(boundary, nodes.last()));
            },
            Err(_) => {},
        }
    }
}

/// Chunks and the plain body: the payloads of the chunks that
/// `write_multipart_chunked` writes, before the chunk that ends the body,
/// are the pieces of the body; put together they are, byte for byte, what
/// `write_multipart` writes.  Where one of the two cannot write, neither can
/// the other, for the same reason; the payloads of the chunks that were
/// written by then, put together, are what the other has written by then,
/// and no chunk that ends the body is among them.
pub proof fn law_chunks_hold_body(boundary: Seq<u8>, nodes: Seq<NodeView>)
    ensures
        match pieces(boundary, nodes) {
            Ok(payloads) => written(boundary, nodes) == Ok::<Seq<u8>, Error>(joined(payloads))
                && chunked(boundary, nodes) == Ok::<Seq<u8>, Error>(
                chunks(payloads) + last_chunk(),
            ),
            Err(e) => {
                let payloads = nodes_pieces_before_failure(boundary, nodes);
                &&& written(boundary, nodes) == Err::<Seq<u8>, Error>(e)
                &&& chunked(boundary, nodes) == Err::<Seq<u8>, Error>(e)
                &&& written_before_failure(boundary, nodes) == joined(payloads)
                &&& chunked_before_failure(boundary, nodes) == chunks(payloads)
            },
        },
{
    lemma_joined_nodes(boundary, nodes);
    lemma_joined_nodes_before_failure(boundary, nodes);
    match nodes_pieces(boundary, nodes) {
        Ok(body) => {
            let end = seq![dashes(), boundary, dashes()];
            lemma_joined3(dashes(), boundary, dashes());
            lemma_joined_concat(body, end);
            assert(joined(body) + (dashes() + boundary + dashes()) =~= joined(body) + dashes()
                + boundary + dashes());
        },
        Err(_) => {},
    }
}

} // verus!
