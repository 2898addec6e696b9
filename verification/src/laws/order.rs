//! Order: a well-formed body is read as one node for each of its parts, in
//! their order.

use vstd::prelude::*;
use crate::bytes::{
    after_token, before_token, crlf, DASH, dashes, first_match, lemma_concat3,
    lemma_first_match_at_start, lemma_first_match_extend, lf, LF, starts_with,
};
use crate::boundary::boundary_of;
use crate::error::Error;
use crate::headers::{fields_of, header_block, HeaderView};
use crate::mime::is_multipart;
use crate::node::NodeView;
use crate::parser::{body_nodes, leaf, line_terminator, PART_HEADERS, prepend, read_parts};

verus! {

/// A part as it stands in a body: the lines of its headers, without the
/// blank line that ends them, and its content.
pub struct RawPart {
    pub block: Seq<u8>,
    pub content: Seq<u8>,
}

/// A part as it stands behind a boundary: the line terminator that ends the
/// boundary line, the header lines, a blank line, the content, and the line
/// terminator and boundary that end the content.
pub open spec fn part_bytes(p: RawPart, lt: Seq<u8>, token: Seq<u8>) -> Seq<u8> {
    lt + p.block + (lt + lt) + p.content + (lt + token)
}

/// The parts one after the other.
pub open spec fn parts_bytes(parts: Seq<RawPart>, lt: Seq<u8>, token: Seq<u8>) -> Seq<u8>
    decreases parts.len(),
{
    if parts.len() == 0 {
        Seq::empty()
    } else {
        part_bytes(parts[0], lt, token) + parts_bytes(parts.skip(1), lt, token)
    }
}

/// A multipart body: a preamble, the first boundary, the parts, the two
/// hyphens that make the last boundary the final one, and an epilogue.
pub open spec fn message(
    preamble: Seq<u8>,
    parts: Seq<RawPart>,
    lt: Seq<u8>,
    token: Seq<u8>,
    epilogue: Seq<u8>,
) -> Seq<u8> {
    preamble + token + parts_bytes(parts, lt, token) + dashes() + epilogue
}

/// The header fields that the header lines of a part stand for.
pub open spec fn part_fields(p: RawPart, lt: Seq<u8>) -> Result<Seq<HeaderView>, Error> {
    fields_of(header_block(p.block + (lt + lt), PART_HEADERS as int))
}

/// The part is well formed and no container: the blank line behind its
/// header lines is the first one, the header lines stand for header fields
/// that are not those of a container, and the boundary line behind its
/// content is the first one.
pub open spec fn is_plain_part(p: RawPart, lt: Seq<u8>, token: Seq<u8>) -> bool {
    &&& first_match(p.block + (lt + lt), lt + lt) == Some(p.block.len() as int)
    &&& part_fields(p, lt) matches Ok(hs) && !is_multipart(hs)
    &&& first_match(p.content + (lt + token), lt + token) == Some(p.content.len() as int)
}

/// The node that a well-formed part is read as.
pub open spec fn node_of(p: RawPart, lt: Seq<u8>, always_use_files: bool) -> NodeView {
    leaf(part_fields(p, lt)->Ok_0, p.content, always_use_files)
}

/// The nodes that well-formed parts are read as, in the order of the parts.
pub open spec fn nodes_of(parts: Seq<RawPart>, lt: Seq<u8>, always_use_files: bool) -> Seq<NodeView> {
    Seq::new(parts.len(), |i: int| node_of(parts[i], lt, always_use_files))
}

/// What is found where `before` and the token stand before `then`, if the
/// token first occurs in `before` and the token at the end of `before`.
proof fn lemma_scan_finds(before: Seq<u8>, token: Seq<u8>, then: Seq<u8>)
    requires
        first_match(before + token, token) == Some(before.len() as int),
    ensures
        before_token(before + token + then, token) == before,
        after_token(before + token + then, token) == Some(then),
{
    let s = before + token + then;
    lemma_first_match_extend(before + token, then, token);
    assert(s.take(before.len() as int) =~= before);
    assert(s.skip((before.len() + token.len()) as int) =~= then);
}

/// A well-formed part that stands behind a boundary is read as its node,
/// and the reading goes on behind the boundary that ends its content.
proof fn lemma_part_read(
    p: RawPart,
    lt: Seq<u8>,
    token: Seq<u8>,
    then: Seq<u8>,
    always_use_files: bool,
)
    requires
        lt == crlf() || lt == lf(),
        is_plain_part(p, lt, token),
    ensures
        read_parts(part_bytes(p, lt, token) + then, lt, token, always_use_files) == prepend(
            seq![node_of(p, lt, always_use_files)],
            read_parts(then, lt, token, always_use_files),
        ),
{
    let s = part_bytes(p, lt, token) + then;
    let s2 = p.content + (lt + token) + then;
    let s1 = p.block + (lt + lt) + s2;
    assert(s =~= lt + s1);
    // The input does not begin with two hyphens.
    assert(s[0] == lt[0]);
    assert(lt[0] != DASH);
    assert(!starts_with(s, dashes())) by {
        if starts_with(s, dashes()) {
            assert(s.subrange(0, 2)[0] == dashes()[0]);
        }
    }
    // The line terminator that ends the boundary line.
    assert(first_match(Seq::<u8>::empty() + lt, lt) == Some(0int)) by {
        let only = Seq::<u8>::empty() + lt;
        assert(only =~= lt);
        assert(only.subrange(0, lt.len() as int) =~= lt);
        lemma_first_match_at_start(only, lt);
    }
    lemma_scan_finds(Seq::empty(), lt, s1);
    assert(Seq::<u8>::empty() + lt + s1 =~= s);
    assert(after_token(s, lt) == Some(s1));
    // The header lines, then the content.
    lemma_scan_finds(p.block, lt + lt, s2);
    lemma_scan_finds(p.content, lt + token, then);
}

/// Well-formed parts that stand behind a boundary, with two hyphens behind
/// the last of them, are read as their nodes, and what is left begins with
/// the two hyphens.
proof fn lemma_parts_read(
    parts: Seq<RawPart>,
    lt: Seq<u8>,
    token: Seq<u8>,
    tail: Seq<u8>,
    always_use_files: bool,
)
    requires
        lt == crlf() || lt == lf(),
        forall|i: int| 0 <= i < parts.len() ==> is_plain_part(#[trigger] parts[i], lt, token),
        starts_with(tail, dashes()),
    ensures
        read_parts(parts_bytes(parts, lt, token) + tail, lt, token, always_use_files) == Ok::<
            (Seq<NodeView>, Seq<u8>),
            Error,
        >((nodes_of(parts, lt, always_use_files), tail)),
    decreases parts.len(),
{
    let s = parts_bytes(parts, lt, token) + tail;
    if parts.len() == 0 {
        assert(s =~= tail);
        assert(nodes_of(parts, lt, always_use_files) =~= Seq::<NodeView>::empty());
    } else {
        let p = parts[0];
        let others = parts.skip(1);
        let then = parts_bytes(others, lt, token) + tail;
        assert(is_plain_part(p, lt, token));
        assert forall|i: int| 0 <= i < others.len() implies is_plain_part(
            #[trigger] others[i],
            lt,
            token,
        ) by {
            assert(others[i] == parts[i + 1]);
        }
        lemma_parts_read(others, lt, token, tail, always_use_files);
        lemma_part_read(p, lt, token, then, always_use_files);
        lemma_concat3(part_bytes(p, lt, token), parts_bytes(others, lt, token), tail);
        let node = node_of(p, lt, always_use_files);
        assert(seq![node] + nodes_of(others, lt, always_use_files) =~= nodes_of(
            parts,
            lt,
            always_use_files,
        ));
    }
}

/// A well-formed body with `N` parts, none of them a container, is read as
/// `N` nodes in the order of the parts; each node has the headers and the
/// content of its part, and a file has as its size the number of bytes
/// between the blank line behind its headers and the line terminator before
/// the next boundary.  This holds with either line terminator, whatever
/// stands before the first boundary, as long as the boundary does not occur
/// in it, and whatever stands behind the final boundary.
pub proof fn law_parts_in_order(
    preamble: Seq<u8>,
    parts: Seq<RawPart>,
    lt: Seq<u8>,
    token: Seq<u8>,
    epilogue: Seq<u8>,
    headers: Seq<HeaderView>,
    always_use_files: bool,
)
    requires
        boundary_of(headers) == Ok::<Seq<u8>, Error>(token),
        lt == crlf() || lt == lf(),
        parts.len() > 0,
        first_match(preamble + token, token) == Some(preamble.len() as int),
        forall|i: int| 0 <= i < parts.len() ==> is_plain_part(#[trigger] parts[i], lt, token),
    ensures
        body_nodes(message(preamble, parts, lt, token, epilogue), headers, always_use_files) == Ok::<
            Seq<NodeView>,
            Error,
        >(nodes_of(parts, lt, always_use_files)),
        nodes_of(parts, lt, always_use_files).len() == parts.len(),
        forall|i: int|
            0 <= i < parts.len() ==> #[trigger] nodes_of(parts, lt, always_use_files)[i] == leaf(
                part_fields(parts[i], lt)->Ok_0,
                parts[i].content,
                always_use_files,
            ),
        forall|i: int|
            0 <= i < parts.len() ==> (#[trigger] nodes_of(parts, lt, always_use_files)[i]
                matches NodeView::File(file) ==> file.content == parts[i].content && file.size
                == Some(parts[i].content.len() as usize)),
{
    let s = message(preamble, parts, lt, token, epilogue);
    let tail = dashes() + epilogue;
    let rest = parts_bytes(parts, lt, token) + tail;
    assert(starts_with(tail, dashes())) by {
        assert(tail.subrange(0, 2) =~= dashes());
    }
    lemma_parts_read(parts, lt, token, tail, always_use_files);
    lemma_first_match_extend(preamble + token, rest, token);
    assert(s =~= preamble + token + rest);
    assert(after_token(s, token) == Some(rest)) by {
        assert(s.skip((preamble.len() + token.len()) as int) =~= rest);
    }
    // The first part begins with the line terminator of the level.
    let first = part_bytes(parts[0], lt, token);
    assert(first =~= lt + (parts[0].block + (lt + lt) + parts[0].content + (lt + token)));
    assert(rest =~= lt + (parts[0].block + (lt + lt) + parts[0].content + (lt + token)
        + parts_bytes(parts.skip(1), lt, token) + tail));
    assert(rest.subrange(0, lt.len() as int) =~= lt);
    if lt == crlf() {
        assert(starts_with(rest, crlf()));
    } else {
        assert(rest[0] == LF);
        assert(!starts_with(rest, crlf())) by {
            if starts_with(rest, crlf()) {
                assert(rest.subrange(0, 2)[0] == crlf()[0]);
            }
        }
        assert(starts_with(rest, lf()));
    }
    assert(line_terminator(rest) == Some(lt));
}

} // verus!
