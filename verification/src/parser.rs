//! Reading a multipart body: from bytes and headers to the tree of parts.

use vstd::prelude::*;
use crate::boundary::{boundary_of, get_multipart_boundary};
use crate::bytes::{
    after_token, before_token, concat, crlf, crlf_bytes, dash_bytes, dashes, lemma_after_token,
    lf, lf_bytes, starts_with, to_vec,
};
use crate::error::Error;
use crate::headers::{fields_of, header_block, read_header_block, HeaderView, Headers};
use crate::mime::{is_file, is_multipart};
use crate::node::{
    lemma_nodes_view_push, nodes_view, FilePart, FilePartView, Node, NodeView, Part, PartView,
};
use crate::source::Source;

verus! {

/// The number of header fields that a part may have.
pub const PART_HEADERS: u16 = 4;

/// The number of header fields that may precede a body.
pub const MAIN_HEADERS: u16 = 64;

/// The line terminator that a level uses: the one that follows its first
/// boundary, two bytes or one.
pub open spec fn line_terminator(s: Seq<u8>) -> Option<Seq<u8>> {
    if starts_with(s, crlf()) {
        Some(crlf())
    } else if starts_with(s, lf()) {
        Some(lf())
    } else {
        None
    }
}

/// The node for a part that is no container: a file part or a part in
/// memory, as its headers and `always_use_files` decide.  A file part holds
/// its size and has not been stored anywhere.
pub open spec fn leaf(hs: Seq<HeaderView>, content: Seq<u8>, always_use_files: bool) -> NodeView {
    if is_file(hs, always_use_files) {
        NodeView::File(
            FilePartView {
                headers: hs,
                path: Seq::empty(),
                size: Some(content.len() as usize),
                content,
                tempdir: None,
            },
        )
    } else {
        NodeView::Part(PartView { headers: hs, body: content })
    }
}

/// The nodes of a level and the input that is left behind them, with one
/// more node before them.
pub open spec fn prepend(nodes: Seq<NodeView>, then: Result<(Seq<NodeView>, Seq<u8>), Error>) -> Result<
    (Seq<NodeView>, Seq<u8>),
    Error,
> {
    match then {
        Ok((more, rest)) => Ok((nodes + more, rest)),
        Err(e) => Err(e),
    }
}

/// One level of a multipart body, read from `s` with the headers that
/// declare its boundary: the nodes of the level and the input that is left
/// once its end has been seen.
///
/// Everything before the first boundary is skipped.  The line terminator of
/// the level is the one that follows that boundary.
pub open spec fn read_level(s: Seq<u8>, headers: Seq<HeaderView>, always_use_files: bool) -> Result<
    (Seq<NodeView>, Seq<u8>),
    Error,
>
    decreases s.len(), 1int,
    via read_level_decreases
{
    match boundary_of(headers) {
        Err(e) => Err(e),
        Ok(boundary) => match after_token(s, boundary) {
            None => Err(Error::EofBeforeFirstBoundary),
            Some(rest) => match line_terminator(rest) {
                None => Err(Error::NoCrLfAfterBoundary),
                Some(lt) => read_parts(rest, lt, boundary, always_use_files),
            },
        },
    }
}

/// The parts of a level, read from `s`, which stands right behind a
/// boundary.
///
/// Two hyphens there end the level; they are not consumed.  Otherwise the
/// rest of the boundary line is skipped, the header block is what stands
/// before the next blank line, and the headers decide.  A container is read
/// as a level of its own, with its own headers, and is the last node of this
/// level.  The content of any other part is what stands before the next
/// line terminator that the boundary follows.
pub open spec fn read_parts(s: Seq<u8>, lt: Seq<u8>, boundary: Seq<u8>, always_use_files: bool) -> Result<
    (Seq<NodeView>, Seq<u8>),
    Error,
>
    decreases s.len(), 0int,
    when lt.len() > 0
    via read_parts_decreases
{
    if starts_with(s, dashes()) {
        Ok((Seq::empty(), s))
    } else {
        match after_token(s, lt) {
            None => Err(Error::NoCrLfAfterBoundary),
            Some(s1) => match after_token(s1, lt + lt) {
                None => Err(Error::EofInPartHeaders),
                Some(s2) => match fields_of(
                    header_block(before_token(s1, lt + lt) + (lt + lt), PART_HEADERS as int),
                ) {
                    Err(e) => Err(e),
                    Ok(hs) => if is_multipart(hs) {
                        match read_level(s2, hs, always_use_files) {
                            Err(e) => Err(e),
                            Ok((children, s3)) => Ok((seq![NodeView::Multipart(hs, children)], s3)),
                        }
                    } else {
                        match after_token(s2, lt + boundary) {
                            None => Err(
                                if is_file(hs, always_use_files) {
                                    Error::EofInFile
                                } else {
                                    Error::EofInPart
                                },
                            ),
                            Some(s3) => prepend(
                                seq![leaf(hs, before_token(s2, lt + boundary), always_use_files)],
                                read_parts(s3, lt, boundary, always_use_files),
                            ),
                        }
                    },
                },
            },
        }
    }
}

#[via_fn]
proof fn read_level_decreases(s: Seq<u8>, headers: Seq<HeaderView>, always_use_files: bool) {
    match boundary_of(headers) {
        Ok(boundary) => {
            lemma_after_token(s, boundary);
        },
        Err(_) => {},
    }
}

#[via_fn]
proof fn read_parts_decreases(s: Seq<u8>, lt: Seq<u8>, boundary: Seq<u8>, always_use_files: bool) {
    lemma_after_token(s, lt);
    match after_token(s, lt) {
        Some(s1) => {
            lemma_after_token(s1, lt + lt);
            match after_token(s1, lt + lt) {
                Some(s2) => {
                    lemma_after_token(s2, lt + boundary);
                },
                None => {},
            }
        },
        None => {},
    }
}

/// The nodes of a multipart body that is read with `headers`.
pub open spec fn body_nodes(s: Seq<u8>, headers: Seq<HeaderView>, always_use_files: bool) -> Result<
    Seq<NodeView>,
    Error,
> {
    match read_level(s, headers, always_use_files) {
        Ok((nodes, _)) => Ok(nodes),
        Err(e) => Err(e),
    }
}

/// The nodes of a multipart body that follows its own headers in `s`: the
/// header block is what stands before the first blank line.
pub open spec fn message_nodes(s: Seq<u8>, always_use_files: bool) -> Result<Seq<NodeView>, Error> {
    match after_token(s, crlf() + crlf()) {
        None => Err(Error::EofInMainHeaders),
        Some(rest) => match fields_of(
            header_block(before_token(s, crlf() + crlf()) + (crlf() + crlf()), MAIN_HEADERS as int),
        ) {
            Err(e) => Err(e),
            Ok(hs) => body_nodes(rest, hs, always_use_files),
        },
    }
}

/// What the result of a reading holds.
pub open spec fn read_view(r: Result<Vec<Node>, Error>) -> Result<Seq<NodeView>, Error> {
    match r {
        Ok(nodes) => Ok(nodes_view(nodes@)),
        Err(e) => Err(e),
    }
}

/// Reads one level from `reader` and adds its nodes to `nodes`.  On success
/// the reader stands at the two hyphens that end the level.
fn inner(
    reader: &mut Source<'_>,
    headers: &Headers,
    nodes: &mut Vec<Node>,
    always_use_files: bool,
) -> (r: Result<(), Error>)
    ensures
        match r {
            Ok(_) => {
                &&& read_level(old(reader).rest(), headers@, always_use_files) matches Ok(
                    (found, rest),
                )
                &&& nodes_view(final(nodes)@) == nodes_view(old(nodes)@) + found
                &&& final(reader).rest() == rest
                &&& starts_with(rest, dashes())
                &&& rest.len() <= old(reader).rest().len()
            },
            Err(e) => read_level(old(reader).rest(), headers@, always_use_files) == Err::<
                (Seq<NodeView>, Seq<u8>),
                Error,
            >(e),
        },
    decreases old(reader).rest().len(),
{
    let ghost start = reader.rest();
    let ghost given = nodes_view(nodes@);
    let mut buf: Vec<u8> = Vec::new();

    let boundary = match get_multipart_boundary(headers) {
        Ok(b) => b,
        Err(e) => return Err(e),
    };
    assert(boundary@.len() >= 2);

    // Read past the first boundary.
    proof {
        lemma_after_token(start, boundary@);
    }
    let (_, found) = reader.stream_until_token(boundary.as_slice(), &mut buf);
    if !found {
        return Err(Error::EofBeforeFirstBoundary);
    }

    // The line terminator that follows it is the one of this level.
    let lt = if reader.peek(crlf_bytes().as_slice()) {
        crlf_bytes()
    } else if reader.peek(lf_bytes().as_slice()) {
        lf_bytes()
    } else {
        return Err(Error::NoCrLfAfterBoundary);
    };
    let ltlt = concat(lt.as_slice(), lt.as_slice());
    let lt_boundary = concat(lt.as_slice(), boundary.as_slice());
    let dash_dash = dash_bytes();
    let ghost first = reader.rest();
    assert(line_terminator(first) == Some(lt@));
    assert(read_level(start, headers@, always_use_files) == read_parts(
        first,
        lt@,
        boundary@,
        always_use_files,
    ));
    let ghost mut added: Seq<NodeView> = Seq::empty();
    assert(given + added =~= given);
    assert(prepend(added, read_parts(first, lt@, boundary@, always_use_files)) =~= read_parts(
        first,
        lt@,
        boundary@,
        always_use_files,
    )) by {
        match read_parts(first, lt@, boundary@, always_use_files) {
            Ok((more, rest)) => {
                assert(added + more =~= more);
            },
            Err(_) => {},
        }
    }

    loop
        invariant
            lt@.len() > 0,
            ltlt@ == lt@ + lt@,
            lt_boundary@ == lt@ + boundary@,
            dash_dash@ == dashes(),
            given == nodes_view(old(nodes)@),
            nodes_view(nodes@) == given + added,
            reader.rest().len() <= first.len(),
            first.len() < start.len(),
            start == old(reader).rest(),
            read_level(start, headers@, always_use_files) == read_parts(
                first,
                lt@,
                boundary@,
                always_use_files,
            ),
            read_parts(first, lt@, boundary@, always_use_files) == prepend(
                added,
                read_parts(reader.rest(), lt@, boundary@, always_use_files),
            ),
        decreases reader.rest().len(),
    {
        let ghost s = reader.rest();
        // Two hyphens here end the level.
        if reader.peek(dash_dash.as_slice()) {
            proof {
                assert(added + Seq::<NodeView>::empty() =~= added);
            }
            return Ok(());
        }

        // Read the line terminator after the boundary.
        proof {
            lemma_after_token(s, lt@);
        }
        let (_, found) = reader.stream_until_token(lt.as_slice(), &mut buf);
        if !found {
            return Err(Error::NoCrLfAfterBoundary);
        }
        let ghost s1 = reader.rest();

        // Read the headers, which end in a blank line.
        buf.clear();
        proof {
            lemma_after_token(s1, ltlt@);
        }
        let (_, found) = reader.stream_until_token(ltlt.as_slice(), &mut buf);
        if !found {
            return Err(Error::EofInPartHeaders);
        }
        let ghost s2 = reader.rest();

        // The reader of header blocks expects the blank line.
        buf.extend_from_slice(ltlt.as_slice());
        assert(buf@ =~= before_token(s1, lt@ + lt@) + (lt@ + lt@));
        let part_headers = match read_header_block(buf.as_slice(), PART_HEADERS) {
            Ok(hs) => hs,
            Err(e) => return Err(e),
        };

        if part_headers.is_multipart() {
            // A nested container is read as a level of its own.
            let mut inner_nodes: Vec<Node> = Vec::new();
            match inner(reader, &part_headers, &mut inner_nodes, always_use_files) {
                Ok(_) => {},
                Err(e) => return Err(e),
            }
            proof {
                let children = nodes_view(inner_nodes@);
                assert(nodes_view(Seq::<Node>::empty()) + children =~= children);
                lemma_nodes_view_push(nodes@, Node::Multipart((part_headers, inner_nodes)));
                let node = NodeView::Multipart(part_headers@, children);
                assert(given + added.push(node) =~= (given + added).push(node));
                assert(added + seq![node] =~= added.push(node));
                assert(seq![node] + Seq::<NodeView>::empty() =~= seq![node]);
                added = added.push(node);
            }
            nodes.push(Node::Multipart((part_headers, inner_nodes)));
        } else {
            let is_file = part_headers.is_file(always_use_files);
            proof {
                lemma_after_token(s2, lt_boundary@);
            }
            let ghost node = leaf(part_headers@, before_token(s2, lt@ + boundary@), always_use_files);
            if is_file {
                // The content of a file is kept apart from the buffer.
                let mut content: Vec<u8> = Vec::new();
                let (_, found) = reader.stream_until_token(lt_boundary.as_slice(), &mut content);
                if !found {
                    return Err(Error::EofInFile);
                }
                assert(content@ =~= before_token(s2, lt@ + boundary@));
                let filepart = FilePart::captured(part_headers, content);
                proof {
                    lemma_nodes_view_push(nodes@, Node::File(filepart));
                }
                nodes.push(Node::File(filepart));
            } else {
                buf.clear();
                let (_, found) = reader.stream_until_token(lt_boundary.as_slice(), &mut buf);
                if !found {
                    return Err(Error::EofInPart);
                }
                assert(buf@ =~= before_token(s2, lt@ + boundary@));
                let part = Part { headers: part_headers, body: to_vec(buf.as_slice()) };
                proof {
                    lemma_nodes_view_push(nodes@, Node::Part(part));
                }
                nodes.push(Node::Part(part));
            }
            proof {
                assert(given + added.push(node) =~= (given + added).push(node));
                let then = read_parts(reader.rest(), lt@, boundary@, always_use_files);
                match then {
                    Ok((more, rest)) => {
                        assert(added + (seq![node] + more) =~= added.push(node) + more);
                    },
                    Err(_) => {},
                }
                added = added.push(node);
            }
        }
    }
}

/// Reads a multipart body whose headers are given apart from it.  Each part
/// becomes a node: a container where its media type is `multipart/*`, else a
/// file where `always_use_files` is set or its disposition asks for one, else
/// a part in memory.
pub fn read_multipart_body(stream: &[u8], headers: &Headers, always_use_files: bool) -> (r: Result<
    Vec<Node>,
    Error,
>)
    ensures
        read_view(r) == body_nodes(stream@, headers@, always_use_files),
{
    let mut reader = Source::new(stream);
    let mut nodes: Vec<Node> = Vec::new();
    match inner(&mut reader, headers, &mut nodes, always_use_files) {
        Ok(_) => {
            assert(nodes_view(Seq::<Node>::empty()) + nodes_view(nodes@) =~= nodes_view(nodes@));
            Ok(nodes)
        },
        Err(e) => Err(e),
    }
}

/// Reads a multipart body that follows its own headers in the stream.
pub fn read_multipart(stream: &[u8], always_use_files: bool) -> (r: Result<Vec<Node>, Error>)
    ensures
        read_view(r) == message_nodes(stream@, always_use_files),
{
    let mut reader = Source::new(stream);
    let mut nodes: Vec<Node> = Vec::new();
    let mut buf: Vec<u8> = Vec::new();
    let blank = concat(crlf_bytes().as_slice(), crlf_bytes().as_slice());
    assert(blank@.len() == 4);

    proof {
        lemma_after_token(stream@, blank@);
    }
    let (_, found) = reader.stream_until_token(blank.as_slice(), &mut buf);
    if !found {
        return Err(Error::EofInMainHeaders);
    }

    // The reader of header blocks expects the blank line.
    buf.extend_from_slice(blank.as_slice());
    assert(buf@ =~= before_token(stream@, crlf() + crlf()) + (crlf() + crlf()));
    let headers = match read_header_block(buf.as_slice(), MAIN_HEADERS) {
        Ok(hs) => hs,
        Err(e) => return Err(e),
    };
    match inner(&mut reader, &headers, &mut nodes, always_use_files) {
        Ok(_) => {
            assert(nodes_view(Seq::<Node>::empty()) + nodes_view(nodes@) =~= nodes_view(nodes@));
            Ok(nodes)
        },
        Err(e) => Err(e),
    }
}

} // verus!
