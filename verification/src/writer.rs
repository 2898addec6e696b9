//! Writing a tree of parts as a multipart body.

use vstd::prelude::*;
use crate::boundary::{boundary_of, get_multipart_boundary};
use crate::bytes::{crlf, dashes, COLON, CR, DASH, LF, SPACE};
use crate::error::Error;
use crate::headers::{HeaderView, Headers};
use crate::node::{lemma_nodes_view, node_view, nodes_view, Node, NodeView};

verus! {

/// What stands between a header's name and its value.
pub open spec fn colon_space() -> Seq<u8> {
    seq![COLON, SPACE]
}

/// The line of a header field: `Name: Value` and a line terminator.
pub open spec fn header_line(h: HeaderView) -> Seq<u8> {
    h.name + colon_space() + h.value + crlf()
}

/// The lines of the header fields, in their order.
pub open spec fn header_lines(hs: Seq<HeaderView>) -> Seq<u8>
    decreases hs.len(),
{
    if hs.len() == 0 {
        Seq::empty()
    } else {
        header_lines(hs.drop_last()) + header_line(hs.last())
    }
}

/// The headers of a node.
pub open spec fn headers_of(node: NodeView) -> Seq<HeaderView> {
    match node {
        NodeView::Part(part) => part.headers,
        NodeView::File(file) => file.headers,
        NodeView::Multipart(headers, _) => headers,
    }
}

/// The content of a node that is no container.
pub open spec fn body_of(node: NodeView) -> Seq<u8> {
    match node {
        NodeView::Part(part) => part.body,
        NodeView::File(file) => file.content,
        NodeView::Multipart(_, _) => Seq::empty(),
    }
}

/// A node as it is written between boundaries `boundary`: a boundary line,
/// the header lines, a blank line, the body and a line terminator.  The body
/// of a part is its content.  The body of a container is its own body,
/// written with the boundary token that its headers declare, two hyphens
/// and the declared boundary, so that its boundary lines begin with four
/// hyphens; where the headers declare no boundary, nothing can be written.
pub open spec fn written_node(boundary: Seq<u8>, node: NodeView) -> Result<Seq<u8>, Error>
    decreases node, 0int,
{
    let head = dashes() + boundary + crlf() + header_lines(headers_of(node)) + crlf();
    match node {
        NodeView::Part(part) => Ok(head + part.body + crlf()),
        NodeView::File(file) => Ok(head + file.content + crlf()),
        NodeView::Multipart(headers, children) => match boundary_of(headers) {
            Err(e) => Err(e),
            Ok(inner) => match written_nodes(inner, children) {
                Err(e) => Err(e),
                Ok(body) => Ok(head + (body + dashes() + inner + dashes()) + crlf()),
            },
        },
    }
}

/// The nodes as they are written one after the other.
pub open spec fn written_nodes(boundary: Seq<u8>, nodes: Seq<NodeView>) -> Result<Seq<u8>, Error>
    decreases nodes, 1int,
{
    if nodes.len() == 0 {
        Ok(Seq::empty())
    } else {
        match written_nodes(boundary, nodes.drop_last()) {
            Err(e) => Err(e),
            Ok(before) => match written_node(boundary, nodes.last()) {
                Err(e) => Err(e),
                Ok(last) => Ok(before + last),
            },
        }
    }
}

/// A multipart body: the nodes as they are written, and the final boundary,
/// which is the boundary between two pairs of hyphens and has no line
/// terminator behind it.
pub open spec fn written(boundary: Seq<u8>, nodes: Seq<NodeView>) -> Result<Seq<u8>, Error> {
    match written_nodes(boundary, nodes) {
        Err(e) => Err(e),
        Ok(body) => Ok(body + dashes() + boundary + dashes()),
    }
}

/// What is written of a node that cannot be written: of a container whose
/// headers declare no boundary, its boundary line; of a container one of
/// whose nodes cannot be written, its boundary line, its header lines, the
/// blank line, and what is written of its nodes.  A node that is no
/// container can always be written.
pub open spec fn node_before_failure(boundary: Seq<u8>, node: NodeView) -> Seq<u8>
    decreases node, 0int,
{
    match node {
        NodeView::Multipart(headers, children) => {
            let line = dashes() + boundary + crlf();
            match boundary_of(headers) {
                Err(_) => line,
                Ok(inner) => line + header_lines(headers) + crlf() + nodes_before_failure(
                    inner,
                    children,
                ),
            }
        },
        _ => Seq::empty(),
    }
}

/// What is written of nodes one of which cannot be written: the nodes before
/// the first such node, as they are written, and what is written of that
/// node.
pub open spec fn nodes_before_failure(boundary: Seq<u8>, nodes: Seq<NodeView>) -> Seq<u8>
    decreases nodes, 1int,
{
    if nodes.len() == 0 {
        Seq::empty()
    } else {
        match written_nodes(boundary, nodes.drop_last()) {
            Err(_) => nodes_before_failure(boundary, nodes.drop_last()),
            Ok(before) => before + node_before_failure(boundary, nodes.last()),
        }
    }
}

/// What is written of a multipart body that cannot be written: everything
/// up to the place where a container's boundary is looked up and not found.
/// No final boundary is written.
pub open spec fn written_before_failure(boundary: Seq<u8>, nodes: Seq<NodeView>) -> Seq<u8> {
    nodes_before_failure(boundary, nodes)
}

/// Appends the lines of the header fields to `stream` and returns the number
/// of bytes written.
fn write_headers(stream: &mut Vec<u8>, headers: &Headers) -> (count: usize)
    ensures
        final(stream)@ == old(stream)@ + header_lines(headers@),
        count == header_lines(headers@).len(),
{
    let start = stream.len();
    let mut i: usize = 0;
    assert(headers@.take(0) =~= Seq::<HeaderView>::empty());
    assert(stream@ =~= old(stream)@ + header_lines(headers@.take(0)));
    while i < headers.fields.len()
        invariant
            i <= headers.fields.len(),
            start == old(stream)@.len(),
            stream@ == old(stream)@ + header_lines(headers@.take(i as int)),
        decreases headers.fields.len() - i,
    {
        let field = &headers.fields[i];
        let ghost before = stream@;
        stream.extend_from_slice(field.name.as_slice());
        stream.push(COLON);
        stream.push(SPACE);
        stream.extend_from_slice(field.value.as_slice());
        stream.push(CR);
        stream.push(LF);
        proof {
            assert(headers@.take(i + 1).drop_last() =~= headers@.take(i as int));
            assert(headers@.take(i + 1).last() == field@);
            assert(stream@ =~= before + header_line(field@));
            assert(stream@ =~= old(stream)@ + header_lines(headers@.take(i + 1)));
        }
        i += 1;
    }
    assert(headers@.take(i as int) =~= headers@);
    stream.len() - start
}

/// Appends a line terminator to `stream`.
fn write_crlf(stream: &mut Vec<u8>)
    ensures
        final(stream)@ == old(stream)@ + crlf(),
{
    stream.push(CR);
    stream.push(LF);
    assert(stream@ =~= old(stream)@ + crlf());
}

/// Appends two hyphens to `stream`.
fn write_dashes(stream: &mut Vec<u8>)
    ensures
        final(stream)@ == old(stream)@ + dashes(),
{
    stream.push(DASH);
    stream.push(DASH);
    assert(stream@ =~= old(stream)@ + dashes());
}

/// Writes a boundary line, the headers of a node and the blank line behind
/// them.
fn write_head(stream: &mut Vec<u8>, boundary: &Vec<u8>, headers: &Headers)
    ensures
        final(stream)@ == old(stream)@ + (dashes() + boundary@ + crlf() + header_lines(headers@)
            + crlf()),
{
    write_dashes(stream);
    stream.extend_from_slice(boundary.as_slice());
    write_crlf(stream);
    write_headers(stream, headers);
    write_crlf(stream);
    assert(stream@ =~= old(stream)@ + (dashes() + boundary@ + crlf() + header_lines(headers@)
        + crlf()));
}

/// Writes one node to the end of `stream`.
fn write_node(stream: &mut Vec<u8>, boundary: &Vec<u8>, node: &Node) -> (r: Result<(), Error>)
    ensures
        match r {
            Ok(_) => written_node(boundary@, node_view(*node)) matches Ok(bytes) && final(stream)@
                == old(stream)@ + bytes,
            Err(e) => written_node(boundary@, node_view(*node)) == Err::<Seq<u8>, Error>(e)
                && final(stream)@ == old(stream)@ + node_before_failure(
                boundary@,
                node_view(*node),
            ),
        },
    decreases node, 0int,
{
    match node {
        Node::Part(part) => {
            write_head(stream, boundary, &part.headers);
            stream.extend_from_slice(part.body.as_slice());
            write_crlf(stream);
            proof {
                let bytes = written_node(boundary@, node_view(*node))->Ok_0;
                assert(stream@ =~= old(stream)@ + bytes);
            }
            Ok(())
        },
        Node::File(file) => {
            write_head(stream, boundary, file.headers());
            stream.extend_from_slice(file.content().as_slice());
            write_crlf(stream);
            proof {
                let bytes = written_node(boundary@, node_view(*node))->Ok_0;
                assert(stream@ =~= old(stream)@ + bytes);
            }
            Ok(())
        },
        Node::Multipart((headers, subnodes)) => {
            // The boundary line stands before the container's own boundary
            // is looked up.
            write_dashes(stream);
            stream.extend_from_slice(boundary.as_slice());
            write_crlf(stream);
            let ghost line = dashes() + boundary@ + crlf();
            assert(stream@ =~= old(stream)@ + line);
            let inner = match get_multipart_boundary(headers) {
                Ok(b) => b,
                Err(e) => return Err(e),
            };
            write_headers(stream, headers);
            write_crlf(stream);
            let ghost head = line + header_lines(headers@) + crlf();
            assert(stream@ =~= old(stream)@ + head);
            match write_multipart(stream, &inner, subnodes) {
                Ok(_) => {},
                Err(e) => {
                    proof {
                        let part = nodes_before_failure(inner@, nodes_view(subnodes@));
                        assert(stream@ =~= old(stream)@ + (head + part));
                    }
                    return Err(e);
                },
            }
            write_crlf(stream);
            proof {
                let bytes = written_node(boundary@, node_view(*node))->Ok_0;
                assert(stream@ =~= old(stream)@ + bytes);
            }
            Ok(())
        },
    }
}

/// Writes a multipart body to the end of `stream`: every node between
/// boundary lines made of two hyphens and `boundary`, then the final
/// boundary.  The headers that describe the body as a whole are the caller's
/// to send before it.  Returns the number of bytes written.
///
/// The call fails where the headers of a container declare no boundary.
/// The stream then holds what was written up to the place where that
/// boundary was looked up: the nodes before the container, the container's
/// boundary line, and nothing behind it.
pub fn write_multipart(stream: &mut Vec<u8>, boundary: &Vec<u8>, nodes: &Vec<Node>) -> (r: Result<
    usize,
    Error,
>)
    ensures
        old(stream)@.is_prefix_of(final(stream)@),
        match r {
            Ok(count) => written(boundary@, nodes_view(nodes@)) matches Ok(bytes) && final(stream)@
                == old(stream)@ + bytes && count == bytes.len(),
            Err(e) => written(boundary@, nodes_view(nodes@)) == Err::<Seq<u8>, Error>(e)
                && final(stream)@ == old(stream)@ + written_before_failure(
                boundary@,
                nodes_view(nodes@),
            ),
        },
    decreases nodes, 1int,
{
    let start = stream.len();
    let ghost views = nodes_view(nodes@);
    let ghost mut done: Seq<u8> = Seq::empty();
    let mut i: usize = 0;
    proof {
        lemma_nodes_view(nodes@);
        assert(views.take(0) =~= Seq::<NodeView>::empty());
        assert(stream@ =~= old(stream)@ + done);
    }
    while i < nodes.len()
        invariant
            i <= nodes.len(),
            start == old(stream)@.len(),
            views == nodes_view(nodes@),
            views.len() == nodes.len(),
            forall|k: int| 0 <= k < nodes.len() ==> #[trigger] views[k] == node_view(nodes@[k]),
            written_nodes(boundary@, views.take(i as int)) == Ok::<Seq<u8>, Error>(done),
            stream@ == old(stream)@ + done,
        decreases nodes.len() - i,
    {
        let ghost before = stream@;
        proof {
            assert(views.take(i + 1).drop_last() =~= views.take(i as int));
            assert(views.take(i + 1).last() == views[i as int]);
        }
        match write_node(stream, boundary, &nodes[i]) {
            Ok(_) => {},
            Err(e) => {
                proof {
                    lemma_written_nodes_fails(boundary@, views, i as int);
                    let part = node_before_failure(boundary@, views[i as int]);
                    assert(stream@ =~= old(stream)@ + (done + part));
                    assert(old(stream)@ =~= stream@.take(old(stream)@.len() as int));
                }
                return Err(e);
            },
        }
        proof {
            let piece = written_node(boundary@, views[i as int])->Ok_0;
            assert(stream@ =~= old(stream)@ + (done + piece));
            done = done + piece;
        }
        i += 1;
    }
    // The final boundary.
    write_dashes(stream);
    stream.extend_from_slice(boundary.as_slice());
    write_dashes(stream);
    proof {
        assert(views.take(i as int) =~= views);
        assert(stream@ =~= old(stream)@ + (done + dashes() + boundary@ + dashes()));
        assert(old(stream)@ =~= stream@.take(old(stream)@.len() as int));
    }
    Ok(stream.len() - start)
}

/// Where one node cannot be written, the list that holds it cannot, and
/// what is written of the list is the nodes before that node and what is
/// written of it.
pub proof fn lemma_written_nodes_fails(boundary: Seq<u8>, nodes: Seq<NodeView>, i: int)
    requires
        0 <= i < nodes.len(),
        written_nodes(boundary, nodes.take(i)) is Ok,
        written_node(boundary, nodes[i]) is Err,
    ensures
        written_nodes(boundary, nodes) == Err::<Seq<u8>, Error>(
            written_node(boundary, nodes[i])->Err_0,
        ),
        nodes_before_failure(boundary, nodes) == written_nodes(boundary, nodes.take(i))->Ok_0
            + node_before_failure(boundary, nodes[i]),
    decreases nodes.len(),
{
    if i == nodes.len() - 1 {
        assert(nodes.take(i) =~= nodes.drop_last());
    } else {
        assert(nodes.drop_last().take(i) =~= nodes.take(i));
        lemma_written_nodes_fails(boundary, nodes.drop_last(), i);
    }
}


/// The digit for a number under 16: `0` to `9`, then `a` to `f`.
pub open spec fn hex_digit(d: int) -> u8 {
    if d < 10 {
        (48 + d) as u8
    } else {
        (87 + d) as u8
    }
}

/// A number in hexadecimal digits, in lower case and without leading zeros.
pub open spec fn hex(n: nat) -> Seq<u8>
    decreases n,
{
    if n < 16 {
        seq![hex_digit(n as int)]
    } else {
        hex(n / 16).push(hex_digit((n % 16) as int))
    }
}

/// One chunk: the length of the payload in hexadecimal, a line terminator,
/// the payload, and a line terminator.
pub open spec fn chunk(payload: Seq<u8>) -> Seq<u8> {
    hex(payload.len()) + crlf() + payload + crlf()
}

/// The chunk without payload, which ends a chunked body.
pub open spec fn last_chunk() -> Seq<u8> {
    chunk(Seq::empty())
}

/// A payload as it is written inside a chunked body: as a chunk, unless it
/// is empty.  An empty payload is not written, since the chunk without
/// payload ends the body.
pub open spec fn frame(payload: Seq<u8>) -> Seq<u8> {
    if payload.len() == 0 {
        Seq::empty()
    } else {
        chunk(payload)
    }
}

/// The payloads, each in its frame, one after the other.
pub open spec fn chunks(payloads: Seq<Seq<u8>>) -> Seq<u8>
    decreases payloads.len(),
{
    if payloads.len() == 0 {
        Seq::empty()
    } else {
        chunks(payloads.drop_last()) + frame(payloads.last())
    }
}

/// The payloads one after the other, without any framing.
pub open spec fn joined(payloads: Seq<Seq<u8>>) -> Seq<u8>
    decreases payloads.len(),
{
    if payloads.len() == 0 {
        Seq::empty()
    } else {
        joined(payloads.drop_last()) + payloads.last()
    }
}

/// The pieces in which the lines of the header fields are written: for each
/// field its name, the colon and the space, its value, and a line
/// terminator.
pub open spec fn header_pieces(hs: Seq<HeaderView>) -> Seq<Seq<u8>>
    decreases hs.len(),
{
    if hs.len() == 0 {
        Seq::empty()
    } else {
        header_pieces(hs.drop_last()) + seq![
            hs.last().name,
            colon_space(),
            hs.last().value,
            crlf(),
        ]
    }
}

/// The pieces that open a node: the boundary line in three pieces, the
/// pieces of the header lines, and the blank line.
pub open spec fn head_pieces(boundary: Seq<u8>, hs: Seq<HeaderView>) -> Seq<Seq<u8>> {
    seq![dashes(), boundary, crlf()] + header_pieces(hs) + seq![crlf()]
}

/// The pieces in which a node is written.  Put together they are the node as
/// `written_node` gives it.
pub open spec fn node_pieces(boundary: Seq<u8>, node: NodeView) -> Result<Seq<Seq<u8>>, Error>
    decreases node, 0int,
{
    let head = head_pieces(boundary, headers_of(node));
    match node {
        NodeView::Part(part) => Ok(head + seq![part.body, crlf()]),
        NodeView::File(file) => Ok(head + seq![file.content, crlf()]),
        NodeView::Multipart(headers, children) => match boundary_of(headers) {
            Err(e) => Err(e),
            Ok(inner) => match nodes_pieces(inner, children) {
                Err(e) => Err(e),
                Ok(body) => Ok(head + (body + seq![dashes(), inner, dashes()]) + seq![crlf()]),
            },
        },
    }
}

/// The pieces in which the nodes are written one after the other.
pub open spec fn nodes_pieces(boundary: Seq<u8>, nodes: Seq<NodeView>) -> Result<
    Seq<Seq<u8>>,
    Error,
>
    decreases nodes, 1int,
{
    if nodes.len() == 0 {
        Ok(Seq::empty())
    } else {
        match nodes_pieces(boundary, nodes.drop_last()) {
            Err(e) => Err(e),
            Ok(before) => match node_pieces(boundary, nodes.last()) {
                Err(e) => Err(e),
                Ok(last) => Ok(before + last),
            },
        }
    }
}

/// The pieces in which a multipart body is written: those of its nodes, and
/// the final boundary in three pieces.
pub open spec fn pieces(boundary: Seq<u8>, nodes: Seq<NodeView>) -> Result<Seq<Seq<u8>>, Error> {
    match nodes_pieces(boundary, nodes) {
        Err(e) => Err(e),
        Ok(body) => Ok(body + seq![dashes(), boundary, dashes()]),
    }
}

/// The pieces that are written of a node that cannot be written: of a
/// container whose headers declare no boundary, the three pieces of its
/// boundary line; of a container one of whose nodes cannot be written, the
/// pieces that open it and those that are written of its nodes.
pub open spec fn node_pieces_before_failure(boundary: Seq<u8>, node: NodeView) -> Seq<Seq<u8>>
    decreases node, 0int,
{
    match node {
        NodeView::Multipart(headers, children) => {
            let line = seq![dashes(), boundary, crlf()];
            match boundary_of(headers) {
                Err(_) => line,
                Ok(inner) => head_pieces(boundary, headers) + nodes_pieces_before_failure(
                    inner,
                    children,
                ),
            }
        },
        _ => Seq::empty(),
    }
}

/// The pieces that are written of nodes one of which cannot be written:
/// those of the nodes before the first such node, and those that are written
/// of that node.
pub open spec fn nodes_pieces_before_failure(boundary: Seq<u8>, nodes: Seq<NodeView>) -> Seq<
    Seq<u8>,
>
    decreases nodes, 1int,
{
    if nodes.len() == 0 {
        Seq::empty()
    } else {
        match nodes_pieces(boundary, nodes.drop_last()) {
            Err(_) => nodes_pieces_before_failure(boundary, nodes.drop_last()),
            Ok(before) => before + node_pieces_before_failure(boundary, nodes.last()),
        }
    }
}

/// What is written of a chunked body that cannot be written: a chunk for
/// every piece up to the place where a container's boundary is looked up and
/// not found.  Neither a final boundary nor the chunk that ends a body is
/// written.
pub open spec fn chunked_before_failure(boundary: Seq<u8>, nodes: Seq<NodeView>) -> Seq<u8> {
    chunks(nodes_pieces_before_failure(boundary, nodes))
}

/// A multipart body in chunks: each of its pieces as one chunk, and the
/// chunk without payload that ends the body.
pub open spec fn chunked(boundary: Seq<u8>, nodes: Seq<NodeView>) -> Result<Seq<u8>, Error> {
    match pieces(boundary, nodes) {
        Err(e) => Err(e),
        Ok(payloads) => Ok(chunks(payloads) + last_chunk()),
    }
}

/// The chunks of two lists of payloads, one after the other, are the chunks
/// of the two lists put together.
pub proof fn lemma_chunks_concat(a: Seq<Seq<u8>>, b: Seq<Seq<u8>>)
    ensures
        chunks(a + b) == chunks(a) + chunks(b),
    decreases b.len(),
{
    if b.len() == 0 {
        assert(a + b =~= a);
        assert(chunks(a) + chunks(b) =~= chunks(a));
    } else {
        assert((a + b).drop_last() =~= a + b.drop_last());
        assert((a + b).last() == b.last());
        lemma_chunks_concat(a, b.drop_last());
        assert(chunks(a) + chunks(b.drop_last()) + frame(b.last()) =~= chunks(a) + (chunks(
            b.drop_last(),
        ) + frame(b.last())));
    }
}

/// The chunks of a single payload are its frame.
pub proof fn lemma_chunks_one(payload: Seq<u8>)
    ensures
        chunks(seq![payload]) == frame(payload),
{
    assert(seq![payload].drop_last() =~= Seq::<Seq<u8>>::empty());
    assert(chunks(Seq::<Seq<u8>>::empty()) + frame(payload) =~= frame(payload));
}

/// Appends a number in hexadecimal digits to `stream`.
fn write_hex(stream: &mut Vec<u8>, n: usize)
    ensures
        final(stream)@ == old(stream)@ + hex(n as nat),
    decreases n,
{
    if n >= 16 {
        write_hex(stream, n / 16);
    }
    let d: u8 = (n % 16) as u8;
    let digit: u8 = if d < 10 {
        48 + d
    } else {
        87 + d
    };
    stream.push(digit);
    assert(stream@ =~= old(stream)@ + hex(n as nat));
}

/// Writes `chunk` to the end of `stream` as one chunk: its length in
/// hexadecimal, a line terminator, the bytes, and a line terminator.
pub fn write_chunk(stream: &mut Vec<u8>, chunk: &[u8])
    ensures
        final(stream)@ == old(stream)@ + self::chunk(chunk@),
{
    write_hex(stream, chunk.len());
    write_crlf(stream);
    stream.extend_from_slice(chunk);
    write_crlf(stream);
    assert(stream@ =~= old(stream)@ + self::chunk(chunk@));
}

/// Writes one more payload in its frame behind the chunks of `done`.
fn write_piece(stream: &mut Vec<u8>, piece: &[u8], Ghost(base): Ghost<Seq<u8>>, Ghost(done): Ghost<Seq<Seq<u8>>>)
    requires
        old(stream)@ == base + chunks(done),
    ensures
        final(stream)@ == base + chunks(done.push(piece@)),
{
    if piece.len() > 0 {
        write_chunk(stream, piece);
    }
    assert(done.push(piece@).drop_last() =~= done);
    assert(stream@ =~= base + chunks(done.push(piece@)));
}

/// Writes the lines of the header fields, in four chunks for each field.
fn write_headers_chunked(stream: &mut Vec<u8>, headers: &Headers)
    ensures
        final(stream)@ == old(stream)@ + chunks(header_pieces(headers@)),
{
    let ghost base = stream@;
    let ghost mut done: Seq<Seq<u8>> = Seq::empty();
    let colon_space = [COLON, SPACE];
    let crlf = [CR, LF];
    let mut i: usize = 0;
    assert(headers@.take(0) =~= Seq::<HeaderView>::empty());
    assert(stream@ =~= base + chunks(done));
    while i < headers.fields.len()
        invariant
            i <= headers.fields.len(),
            base == old(stream)@,
            colon_space@ == self::colon_space(),
            crlf@ == self::crlf(),
            done == header_pieces(headers@.take(i as int)),
            stream@ == base + chunks(done),
        decreases headers.fields.len() - i,
    {
        let field = &headers.fields[i];
        write_piece(stream, field.name.as_slice(), Ghost(base), Ghost(done));
        proof { done = done.push(field.name@); }
        write_piece(stream, colon_space.as_slice(), Ghost(base), Ghost(done));
        proof { done = done.push(colon_space@); }
        write_piece(stream, field.value.as_slice(), Ghost(base), Ghost(done));
        proof { done = done.push(field.value@); }
        write_piece(stream, crlf.as_slice(), Ghost(base), Ghost(done));
        proof {
            done = done.push(crlf@);
            assert(headers@.take(i + 1).drop_last() =~= headers@.take(i as int));
            assert(headers@.take(i + 1).last() == field@);
            assert(done =~= header_pieces(headers@.take(i + 1)));
        }
        i += 1;
    }
    assert(headers@.take(i as int) =~= headers@);
}


/// Writes the pieces that open a node, each as a chunk.
fn write_head_chunked(stream: &mut Vec<u8>, boundary: &Vec<u8>, headers: &Headers)
    ensures
        final(stream)@ == old(stream)@ + chunks(head_pieces(boundary@, headers@)),
{
    let ghost base = stream@;
    let dashes = [DASH, DASH];
    let crlf = [CR, LF];
    assert(dashes@ =~= self::dashes());
    assert(crlf@ =~= self::crlf());
    let ghost line = seq![self::dashes(), boundary@, self::crlf()];
    assert(stream@ =~= base + chunks(Seq::<Seq<u8>>::empty()));
    write_piece(stream, dashes.as_slice(), Ghost(base), Ghost(Seq::empty()));
    let ghost one = seq![self::dashes()];
    let ghost two = seq![self::dashes(), boundary@];
    assert(Seq::<Seq<u8>>::empty().push(self::dashes()) =~= one);
    write_piece(stream, boundary.as_slice(), Ghost(base), Ghost(one));
    assert(one.push(boundary@) =~= two);
    write_piece(stream, crlf.as_slice(), Ghost(base), Ghost(two));
    assert(seq![self::dashes(), boundary@].push(self::crlf()) =~= line);
    write_headers_chunked(stream, headers);
    write_chunk(stream, crlf.as_slice());
    proof {
        assert(self::crlf().len() == 2);
        lemma_chunks_one(self::crlf());
        lemma_chunks_concat(line, header_pieces(headers@));
        lemma_chunks_concat(line + header_pieces(headers@), seq![self::crlf()]);
        assert(stream@ =~= base + chunks(head_pieces(boundary@, headers@)));
    }
}

/// Writes the body of a part and the line terminator behind it, each as a
/// chunk, behind the chunks that open the node.
fn write_body_chunked(stream: &mut Vec<u8>, body: &[u8], Ghost(base): Ghost<Seq<u8>>, Ghost(head): Ghost<Seq<Seq<u8>>>)
    requires
        old(stream)@ == base + chunks(head),
    ensures
        final(stream)@ == base + chunks(head + seq![body@, crlf()]),
{
    let crlf = [CR, LF];
    assert(crlf@ =~= self::crlf());
    write_piece(stream, body, Ghost(base), Ghost(head));
    write_piece(stream, crlf.as_slice(), Ghost(base), Ghost(head.push(body@)));
    assert(head.push(body@).push(self::crlf()) =~= head + seq![body@, self::crlf()]);
}

/// Writes the final boundary in three chunks behind the chunks of `done`.
fn write_final_chunked(stream: &mut Vec<u8>, boundary: &Vec<u8>, Ghost(base): Ghost<Seq<u8>>, Ghost(done): Ghost<Seq<Seq<u8>>>)
    requires
        old(stream)@ == base + chunks(done),
    ensures
        final(stream)@ == base + chunks(done + seq![dashes(), boundary@, dashes()]),
{
    let dashes = [DASH, DASH];
    assert(dashes@ =~= self::dashes());
    write_piece(stream, dashes.as_slice(), Ghost(base), Ghost(done));
    write_piece(stream, boundary.as_slice(), Ghost(base), Ghost(done.push(self::dashes())));
    write_piece(
        stream,
        dashes.as_slice(),
        Ghost(base),
        Ghost(done.push(self::dashes()).push(boundary@)),
    );
    assert(done.push(self::dashes()).push(boundary@).push(self::dashes()) =~= done + seq![
        self::dashes(),
        boundary@,
        self::dashes(),
    ]);
}

/// Writes one node to the end of `stream` in chunks.
fn write_node_chunked(stream: &mut Vec<u8>, boundary: &Vec<u8>, node: &Node) -> (r: Result<
    (),
    Error,
>)
    ensures
        match r {
            Ok(_) => node_pieces(boundary@, node_view(*node)) matches Ok(payloads) && final(stream)@ == old(stream)@ + chunks(payloads),
            Err(e) => node_pieces(boundary@, node_view(*node)) == Err::<Seq<Seq<u8>>, Error>(e)
                && final(stream)@ == old(stream)@ + chunks(
                node_pieces_before_failure(boundary@, node_view(*node)),
            ),
        },
    decreases node, 0int,
{
    let ghost base = stream@;
    match node {
        Node::Part(part) => {
            write_head_chunked(stream, boundary, &part.headers);
            write_body_chunked(
                stream,
                part.body.as_slice(),
                Ghost(base),
                Ghost(head_pieces(boundary@, part.headers@)),
            );
            Ok(())
        },
        Node::File(file) => {
            write_head_chunked(stream, boundary, file.headers());
            write_body_chunked(
                stream,
                file.content().as_slice(),
                Ghost(base),
                Ghost(head_pieces(boundary@, file@.headers)),
            );
            Ok(())
        },
        Node::Multipart((headers, subnodes)) => {
            let dashes = [DASH, DASH];
            let crlf = [CR, LF];
            assert(dashes@ =~= self::dashes());
            assert(crlf@ =~= self::crlf());
            let ghost line = seq![self::dashes(), boundary@, self::crlf()];
            let ghost head = head_pieces(boundary@, headers@);
            // The boundary line stands before the container's own boundary
            // is looked up.
            assert(stream@ =~= base + chunks(Seq::<Seq<u8>>::empty()));
            write_piece(stream, dashes.as_slice(), Ghost(base), Ghost(Seq::empty()));
            let ghost one = seq![self::dashes()];
            let ghost two = seq![self::dashes(), boundary@];
            assert(Seq::<Seq<u8>>::empty().push(self::dashes()) =~= one);
            write_piece(stream, boundary.as_slice(), Ghost(base), Ghost(one));
            assert(one.push(boundary@) =~= two);
            write_piece(stream, crlf.as_slice(), Ghost(base), Ghost(two));
            assert(two.push(self::crlf()) =~= line);
            assert(stream@ == base + chunks(line));
            let inner = match get_multipart_boundary(headers) {
                Ok(b) => b,
                Err(e) => return Err(e),
            };
            write_headers_chunked(stream, headers);
            write_chunk(stream, crlf.as_slice());
            proof {
                assert(self::crlf().len() == 2);
                lemma_chunks_one(self::crlf());
                lemma_chunks_concat(line, header_pieces(headers@));
                lemma_chunks_concat(line + header_pieces(headers@), seq![self::crlf()]);
                assert(stream@ =~= base + chunks(head));
            }
            match write_level_chunked(stream, &inner, subnodes) {
                Ok(_) => {},
                Err(e) => {
                    proof {
                        let part = nodes_pieces_before_failure(inner@, nodes_view(subnodes@));
                        lemma_chunks_concat(head, part);
                        assert(stream@ =~= base + chunks(head + part));
                    }
                    return Err(e);
                },
            }
            let ghost body = pieces(inner@, nodes_view(subnodes@))->Ok_0;
            proof {
                lemma_chunks_concat(head, body);
                assert(stream@ =~= base + chunks(head + body));
            }
            write_piece(stream, crlf.as_slice(), Ghost(base), Ghost(head + body));
            proof {
                assert((head + body).push(self::crlf()) =~= head + body + seq![self::crlf()]);
            }
            Ok(())
        },
    }
}

/// Writes the nodes and the final boundary to the end of `stream` in chunks.
fn write_level_chunked(stream: &mut Vec<u8>, boundary: &Vec<u8>, nodes: &Vec<Node>) -> (r: Result<
    (),
    Error,
>)
    ensures
        match r {
            Ok(_) => pieces(boundary@, nodes_view(nodes@)) matches Ok(payloads) && final(stream)@
                == old(stream)@ + chunks(payloads),
            Err(e) => pieces(boundary@, nodes_view(nodes@)) == Err::<Seq<Seq<u8>>, Error>(e)
                && final(stream)@ == old(stream)@ + chunks(
                nodes_pieces_before_failure(boundary@, nodes_view(nodes@)),
            ),
        },
    decreases nodes, 1int,
{
    let ghost base = stream@;
    let ghost views = nodes_view(nodes@);
    let ghost mut done: Seq<Seq<u8>> = Seq::empty();
    let mut i: usize = 0;
    proof {
        lemma_nodes_view(nodes@);
        assert(views.take(0) =~= Seq::<NodeView>::empty());
        assert(stream@ =~= base + chunks(done));
    }
    while i < nodes.len()
        invariant
            i <= nodes.len(),
            base == old(stream)@,
            views == nodes_view(nodes@),
            views.len() == nodes.len(),
            forall|k: int| 0 <= k < nodes.len() ==> #[trigger] views[k] == node_view(nodes@[k]),
            nodes_pieces(boundary@, views.take(i as int)) == Ok::<Seq<Seq<u8>>, Error>(done),
            stream@ == base + chunks(done),
        decreases nodes.len() - i,
    {
        proof {
            assert(views.take(i + 1).drop_last() =~= views.take(i as int));
            assert(views.take(i + 1).last() == views[i as int]);
        }
        match write_node_chunked(stream, boundary, &nodes[i]) {
            Ok(_) => {},
            Err(e) => {
                proof {
                    lemma_nodes_pieces_fails(boundary@, views, i as int);
                    let part = node_pieces_before_failure(boundary@, views[i as int]);
                    lemma_chunks_concat(done, part);
                    assert(stream@ =~= base + chunks(done + part));
                }
                return Err(e);
            },
        }
        proof {
            let more = node_pieces(boundary@, views[i as int])->Ok_0;
            lemma_chunks_concat(done, more);
            assert(stream@ =~= base + chunks(done + more));
            done = done + more;
        }
        i += 1;
    }
    proof {
        assert(views.take(i as int) =~= views);
    }
    write_final_chunked(stream, boundary, Ghost(base), Ghost(done));
    Ok(())
}

/// Writes a multipart body to the end of `stream` as a chunked body: what
/// `write_multipart` writes in one piece after the other is written here one
/// chunk after the other, and the chunk without payload ends the body.  A
/// piece that is empty is not written: no chunk before the last is without
/// payload.
///
/// The call fails where the headers of a container declare no boundary.
/// The stream then holds a chunk for every piece that was written up to the
/// place where that boundary was looked up, and no chunk that ends the body.
pub fn write_multipart_chunked(stream: &mut Vec<u8>, boundary: &Vec<u8>, nodes: &Vec<Node>) -> (r:
    Result<(), Error>)
    ensures
        old(stream)@.is_prefix_of(final(stream)@),
        match r {
            Ok(_) => chunked(boundary@, nodes_view(nodes@)) matches Ok(bytes) && final(stream)@
                == old(stream)@ + bytes,
            Err(e) => chunked(boundary@, nodes_view(nodes@)) == Err::<Seq<u8>, Error>(e)
                && final(stream)@ == old(stream)@ + chunked_before_failure(
                boundary@,
                nodes_view(nodes@),
            ),
        },
{
    match write_level_chunked(stream, boundary, nodes) {
        Ok(_) => {},
        Err(e) => {
            assert(old(stream)@ =~= stream@.take(old(stream)@.len() as int));
            return Err(e);
        },
    }
    let empty: [u8; 0] = [];
    assert(empty@ =~= Seq::<u8>::empty());
    write_chunk(stream, empty.as_slice());
    proof {
        let payloads = pieces(boundary@, nodes_view(nodes@))->Ok_0;
        assert(stream@ =~= old(stream)@ + (chunks(payloads) + last_chunk()));
        assert(old(stream)@ =~= stream@.take(old(stream)@.len() as int));
    }
    Ok(())
}

/// Where the pieces of one node cannot be told, those of the list that holds
/// it cannot, and the pieces that are written of the list are those of the
/// nodes before that node and those that are written of it.
pub proof fn lemma_nodes_pieces_fails(boundary: Seq<u8>, nodes: Seq<NodeView>, i: int)
    requires
        0 <= i < nodes.len(),
        nodes_pieces(boundary, nodes.take(i)) is Ok,
        node_pieces(boundary, nodes[i]) is Err,
    ensures
        nodes_pieces(boundary, nodes) == Err::<Seq<Seq<u8>>, Error>(
            node_pieces(boundary, nodes[i])->Err_0,
        ),
        nodes_pieces_before_failure(boundary, nodes) == nodes_pieces(
            boundary,
            nodes.take(i),
        )->Ok_0 + node_pieces_before_failure(boundary, nodes[i]),
    decreases nodes.len(),
{
    if i == nodes.len() - 1 {
        assert(nodes.take(i) =~= nodes.drop_last());
    } else {
        assert(nodes.drop_last().take(i) =~= nodes.take(i));
        lemma_nodes_pieces_fails(boundary, nodes.drop_last(), i);
    }
}

} // verus!
