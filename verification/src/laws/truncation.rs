//! Truncation: a body that is cut off before the end of its final boundary
//! cannot be read.

use vstd::prelude::*;
use crate::bytes::{
    after_token, before_token, crlf, dashes, first_match, lemma_after_token, lemma_first_match,
    lemma_first_match_take, lemma_occurs_at_take, lf, starts_with,
};
use crate::boundary::boundary_of;
use crate::error::Error;
use crate::headers::{fields_of, header_block, HeaderView};
use crate::mime::is_multipart;
use crate::parser::{
    body_nodes, line_terminator, MAIN_HEADERS, message_nodes, PART_HEADERS, read_level,
    read_parts,
};

verus! {

/// Where one level has been read, what is left begins with the two hyphens
/// that ended it, and is the end of the input.
proof fn lemma_level_ends(s: Seq<u8>, headers: Seq<HeaderView>, always_use_files: bool)
    requires
        read_level(s, headers, always_use_files) is Ok,
    ensures
        ({
            let rest = read_level(s, headers, always_use_files)->Ok_0.1;
            starts_with(rest, dashes()) && rest.len() <= s.len() && rest == s.skip(
                s.len() - rest.len(),
            )
        }),
    decreases s.len(), 1int,
{
    let token = boundary_of(headers)->Ok_0;
    lemma_after_token(s, token);
    let after = after_token(s, token)->0;
    let lt = line_terminator(after)->0;
    lemma_parts_end(after, lt, token, always_use_files);
    let rest = read_level(s, headers, always_use_files)->Ok_0.1;
    assert(after == s.skip(s.len() - after.len())) by {
        lemma_first_match(s, token);
    }
    assert(rest =~= s.skip(s.len() - rest.len()));
}

/// Where the parts of a level have been read, what is left begins with the
/// two hyphens that ended the level, and is the end of the input.
proof fn lemma_parts_end(s: Seq<u8>, lt: Seq<u8>, token: Seq<u8>, always_use_files: bool)
    requires
        lt.len() > 0,
        read_parts(s, lt, token, always_use_files) is Ok,
    ensures
        ({
            let rest = read_parts(s, lt, token, always_use_files)->Ok_0.1;
            starts_with(rest, dashes()) && rest.len() <= s.len() && rest == s.skip(
                s.len() - rest.len(),
            )
        }),
    decreases s.len(), 0int,
{
    if starts_with(s, dashes()) {
        assert(s =~= s.skip(0));
    } else {
        lemma_after_token(s, lt);
        lemma_first_match(s, lt);
        let s1 = after_token(s, lt)->0;
        lemma_after_token(s1, lt + lt);
        lemma_first_match(s1, lt + lt);
        let s2 = after_token(s1, lt + lt)->0;
        let hs = fields_of(
            header_block(before_token(s1, lt + lt) + (lt + lt), PART_HEADERS as int),
        )->Ok_0;
        assert(s1 == s.skip(s.len() - s1.len()));
        assert(s2 =~= s.skip(s.len() - s2.len()));
        if is_multipart(hs) {
            lemma_level_ends(s2, hs, always_use_files);
            let rest = read_level(s2, hs, always_use_files)->Ok_0.1;
            assert(rest =~= s.skip(s.len() - rest.len()));
        } else {
            lemma_after_token(s2, lt + token);
            lemma_first_match(s2, lt + token);
            let s3 = after_token(s2, lt + token)->0;
            assert(s3 =~= s.skip(s.len() - s3.len()));
            lemma_parts_end(s3, lt, token, always_use_files);
            let rest = read_parts(s3, lt, token, always_use_files)->Ok_0.1;
            assert(rest =~= s.skip(s.len() - rest.len()));
        }
    }
}

/// What a scan finds in a prefix of the input: nothing, where the prefix
/// ends before the token does; otherwise what it finds in the input, with
/// as much left as the prefix holds.
proof fn lemma_scan_truncated(s: Seq<u8>, token: Seq<u8>, t: int)
    requires
        0 <= t <= s.len(),
        after_token(s, token) is Some,
    ensures
        ({
            let rest = after_token(s, token)->0;
            let cut = s.len() - rest.len();
            &&& token.len() <= cut <= s.len()
            &&& t < cut ==> after_token(s.take(t), token) is None
            &&& t >= cut ==> after_token(s.take(t), token) == Some(rest.take(t - cut))
                && before_token(s.take(t), token) == before_token(s, token)
        }),
{
    lemma_after_token(s, token);
    lemma_first_match(s, token);
    lemma_first_match_take(s, token, t);
    let i = first_match(s, token)->0;
    let rest = after_token(s, token)->0;
    let cut = s.len() - rest.len();
    if t >= cut {
        assert(s.take(t).skip(i + token.len()) =~= rest.take(t - cut));
        assert(s.take(t).take(i) =~= s.take(i));
    }
}

/// A prefix of the input begins with what the input begins with, if it is
/// long enough.
proof fn lemma_starts_with_take(s: Seq<u8>, prefix: Seq<u8>, t: int)
    requires
        0 <= t <= s.len(),
    ensures
        starts_with(s.take(t), prefix) <==> starts_with(s, prefix) && prefix.len() <= t,
{
    lemma_occurs_at_take(s, prefix, t, 0);
}

/// The cut at `t` falls behind a boundary of the parts that are read from
/// `s`, and before the end of what ends the boundary line: inside the rest
/// of a boundary line or inside its line terminator, or inside the two
/// hyphens behind a final boundary.
pub open spec fn cut_behind_boundary_in_parts(
    s: Seq<u8>,
    lt: Seq<u8>,
    token: Seq<u8>,
    always_use_files: bool,
    t: int,
) -> bool
    decreases s.len(), 0int,
    when lt.len() > 0
    via cut_in_parts_decreases
{
    if starts_with(s, dashes()) {
        t < 2
    } else {
        match after_token(s, lt) {
            None => false,
            Some(s1) => if t < s.len() - s1.len() {
                true
            } else {
                match after_token(s1, lt + lt) {
                    None => false,
                    Some(s2) => match fields_of(
                        header_block(before_token(s1, lt + lt) + (lt + lt), PART_HEADERS as int),
                    ) {
                        Err(_) => false,
                        Ok(hs) => if t < s.len() - s2.len() {
                            false
                        } else if is_multipart(hs) {
                            cut_behind_boundary_in_level(
                                s2,
                                hs,
                                always_use_files,
                                t - (s.len() - s2.len()),
                            )
                        } else {
                            match after_token(s2, lt + token) {
                                None => false,
                                Some(s3) => t >= s.len() - s3.len()
                                    && cut_behind_boundary_in_parts(
                                    s3,
                                    lt,
                                    token,
                                    always_use_files,
                                    t - (s.len() - s3.len()),
                                ),
                            }
                        },
                    },
                }
            },
        }
    }
}

/// The cut at `t` falls behind a boundary of the level that is read from
/// `s`, or of a level inside it, and before the end of what ends the
/// boundary line.
pub open spec fn cut_behind_boundary_in_level(
    s: Seq<u8>,
    headers: Seq<HeaderView>,
    always_use_files: bool,
    t: int,
) -> bool
    decreases s.len(), 1int,
    via cut_in_level_decreases
{
    match boundary_of(headers) {
        Err(_) => false,
        Ok(token) => match after_token(s, token) {
            None => false,
            Some(after) => match line_terminator(after) {
                None => false,
                Some(lt) => t >= s.len() - after.len() && cut_behind_boundary_in_parts(
                    after,
                    lt,
                    token,
                    always_use_files,
                    t - (s.len() - after.len()),
                ),
            },
        },
    }
}

#[via_fn]
proof fn cut_in_parts_decreases(
    s: Seq<u8>,
    lt: Seq<u8>,
    token: Seq<u8>,
    always_use_files: bool,
    t: int,
) {
    lemma_after_token(s, lt);
    match after_token(s, lt) {
        Some(s1) => {
            lemma_after_token(s1, lt + lt);
            match after_token(s1, lt + lt) {
                Some(s2) => {
                    lemma_after_token(s2, lt + token);
                },
                None => {},
            }
        },
        None => {},
    }
}

#[via_fn]
proof fn cut_in_level_decreases(
    s: Seq<u8>,
    headers: Seq<HeaderView>,
    always_use_files: bool,
    t: int,
) {
    match boundary_of(headers) {
        Ok(token) => {
            lemma_after_token(s, token);
        },
        Err(_) => {},
    }
}

/// The parts of a level cannot be read from an input that ends before the
/// two hyphens that end the level do: the input is found to be truncated,
/// behind a boundary or elsewhere.
proof fn lemma_parts_truncated(
    s: Seq<u8>,
    lt: Seq<u8>,
    token: Seq<u8>,
    always_use_files: bool,
    t: int,
)
    requires
        lt == crlf() || lt == lf(),
        read_parts(s, lt, token, always_use_files) is Ok,
        0 <= t < s.len() - read_parts(s, lt, token, always_use_files)->Ok_0.1.len() + 2,
    ensures
        t <= s.len(),
        read_parts(s.take(t), lt, token, always_use_files) matches Err(e) && e.is_truncation() && (
        if cut_behind_boundary_in_parts(s, lt, token, always_use_files, t) {
            e is NoCrLfAfterBoundary
        } else {
            e.is_end_of_body()
        }),
    decreases s.len(), 0int,
{
    lemma_parts_end(s, lt, token, always_use_files);
    let end = read_parts(s, lt, token, always_use_files)->Ok_0.1;
    assert(end.len() >= 2);
    let u = s.take(t);
    let cut_here = cut_behind_boundary_in_parts(s, lt, token, always_use_files, t);
    let no_line_end = Err::<(Seq<crate::node::NodeView>, Seq<u8>), Error>(
        Error::NoCrLfAfterBoundary,
    );
    lemma_starts_with_take(s, dashes(), t);
    lemma_first_match_take(s, lt, t);
    if starts_with(s, dashes()) {
        assert(t < 2);
        assert(cut_here);
        assert(s.subrange(0, 2)[0] == dashes()[0]);
        if first_match(u, lt) is Some {
            lemma_first_match(s, lt);
            assert(first_match(s, lt) == Some(0int));
            assert(s.subrange(0, 1)[0] == lt[0]);
        }
        assert(read_parts(u, lt, token, always_use_files) == no_line_end);
    } else {
        let s1 = after_token(s, lt)->0;
        lemma_scan_truncated(s, lt, t);
        let cut1 = s.len() - s1.len();
        if t < cut1 {
            assert(cut_here);
            assert(read_parts(u, lt, token, always_use_files) == no_line_end);
        } else {
            let t1 = t - cut1;
            let s2 = after_token(s1, lt + lt)->0;
            lemma_scan_truncated(s1, lt + lt, t1);
            let cut2 = s1.len() - s2.len();
            let hs = fields_of(
                header_block(before_token(s1, lt + lt) + (lt + lt), PART_HEADERS as int),
            )->Ok_0;
            assert(after_token(u, lt) == Some(s1.take(t1)));
            if t1 < cut2 {
                assert(!cut_here);
                assert(read_parts(u, lt, token, always_use_files) matches Err(e) && e
                    is EofInPartHeaders);
            } else {
                let t2 = t1 - cut2;
                assert(t2 == t - (s.len() - s2.len()));
                assert(after_token(s1.take(t1), lt + lt) == Some(s2.take(t2)));
                assert(before_token(s1.take(t1), lt + lt) == before_token(s1, lt + lt));
                if is_multipart(hs) {
                    lemma_level_truncated(s2, hs, always_use_files, t2);
                    assert(cut_here == cut_behind_boundary_in_level(s2, hs, always_use_files, t2));
                    assert(read_parts(u, lt, token, always_use_files) matches Err(e) && read_level(
                        s2.take(t2),
                        hs,
                        always_use_files,
                    ) matches Err(e2) && e == e2);
                } else {
                    let s3 = after_token(s2, lt + token)->0;
                    lemma_scan_truncated(s2, lt + token, t2);
                    let cut3 = s2.len() - s3.len();
                    if t2 < cut3 {
                        assert(!cut_here);
                        assert(read_parts(u, lt, token, always_use_files) matches Err(e) && (e
                            is EofInFile || e is EofInPart));
                    } else {
                        let t3 = t2 - cut3;
                        assert(t3 == t - (s.len() - s3.len()));
                        lemma_parts_truncated(s3, lt, token, always_use_files, t3);
                        assert(cut_here == cut_behind_boundary_in_parts(
                            s3,
                            lt,
                            token,
                            always_use_files,
                            t3,
                        ));
                        assert(after_token(s2.take(t2), lt + token) == Some(s3.take(t3)));
                        assert(read_parts(u, lt, token, always_use_files) matches Err(e)
                            && read_parts(s3.take(t3), lt, token, always_use_files) matches Err(e2)
                            && e == e2);
                    }
                }
            }
        }
    }
}

/// A level cannot be read from an input that ends before the two hyphens
/// that end the level do: the input is found to be truncated, behind a
/// boundary or elsewhere.
proof fn lemma_level_truncated(
    s: Seq<u8>,
    headers: Seq<HeaderView>,
    always_use_files: bool,
    t: int,
)
    requires
        read_level(s, headers, always_use_files) is Ok,
        0 <= t < s.len() - read_level(s, headers, always_use_files)->Ok_0.1.len() + 2,
    ensures
        t <= s.len(),
        read_level(s.take(t), headers, always_use_files) matches Err(e) && e.is_truncation() && (
        if cut_behind_boundary_in_level(s, headers, always_use_files, t) {
            e is NoCrLfAfterBoundary
        } else {
            e.is_end_of_body()
        }),
    decreases s.len(), 1int,
{
    lemma_level_ends(s, headers, always_use_files);
    let token = boundary_of(headers)->Ok_0;
    let after = after_token(s, token)->0;
    let lt = line_terminator(after)->0;
    lemma_scan_truncated(s, token, t);
    let cut = s.len() - after.len();
    if t >= cut {
        let t1 = t - cut;
        lemma_parts_end(after, lt, token, always_use_files);
        lemma_starts_with_take(after, crlf(), t1);
        lemma_starts_with_take(after, lf(), t1);
        if line_terminator(after.take(t1)) is Some {
            assert(line_terminator(after.take(t1)) == Some(lt));
            lemma_parts_truncated(after, lt, token, always_use_files, t1);
        }
    }
}

/// Where the final boundary ends in a body that can be read: behind the two
/// hyphens at which the reading stops.  In a body whose last part is a
/// container these are the two hyphens that end the innermost such
/// container, since a container is the last part of its level.
pub open spec fn end_of_final_boundary(s: Seq<u8>, headers: Seq<HeaderView>, always_use_files: bool) -> int {
    s.len() - read_level(s, headers, always_use_files)->Ok_0.1.len() + 2
}

/// Truncation: a body that can be read cannot be read once it has been cut
/// off anywhere before the end of its final boundary: the reading fails, it
/// yields no nodes, and the error says that the input ended too early.
pub proof fn law_truncation(s: Seq<u8>, headers: Seq<HeaderView>, always_use_files: bool, t: int)
    requires
        body_nodes(s, headers, always_use_files) is Ok,
        0 <= t < end_of_final_boundary(s, headers, always_use_files),
    ensures
        end_of_final_boundary(s, headers, always_use_files) <= s.len(),
        body_nodes(s.take(t), headers, always_use_files) matches Err(e) && e.is_truncation(),
{
    lemma_level_ends(s, headers, always_use_files);
    lemma_level_truncated(s, headers, always_use_files, t);
    let rest = read_level(s, headers, always_use_files)->Ok_0.1;
    assert(rest.len() >= 2);
}

/// Where a cut falls: a body that can be read and is cut off right behind
/// one of its boundaries, inside the rest of a boundary line, inside its
/// line terminator or inside the two hyphens of the final boundary, fails
/// for want of a line terminator behind the boundary.  Cut off anywhere
/// else before the end of its final boundary, it fails because the input
/// ended: before the first boundary, inside the headers of a part, or inside
/// the content of a part or of a file.
pub proof fn law_cut_errors(s: Seq<u8>, headers: Seq<HeaderView>, always_use_files: bool, t: int)
    requires
        body_nodes(s, headers, always_use_files) is Ok,
        0 <= t < end_of_final_boundary(s, headers, always_use_files),
    ensures
        body_nodes(s.take(t), headers, always_use_files) matches Err(e) && (
        if cut_behind_boundary_in_level(s, headers, always_use_files, t) {
            e is NoCrLfAfterBoundary
        } else {
            e is EofBeforeFirstBoundary || e is EofInPartHeaders || e is EofInFile
                || e is EofInPart
        }),
{
    lemma_level_truncated(s, headers, always_use_files, t);
}

/// Where the final boundary ends in a body that follows its own headers and
/// can be read.
pub open spec fn end_of_final_boundary_in_message(s: Seq<u8>, always_use_files: bool) -> int {
    let blank = crlf() + crlf();
    let body = after_token(s, blank)->0;
    let hs = fields_of(header_block(before_token(s, blank) + blank, MAIN_HEADERS as int))->Ok_0;
    s.len() - body.len() + end_of_final_boundary(body, hs, always_use_files)
}

/// Truncation of a body with its own headers before it: if it can be read,
/// it cannot be read once it has been cut off anywhere before the end of its
/// final boundary: the reading fails, it yields no nodes, and the error says
/// that the input ended too early.
pub proof fn law_message_truncation(s: Seq<u8>, always_use_files: bool, t: int)
    requires
        message_nodes(s, always_use_files) is Ok,
        0 <= t < end_of_final_boundary_in_message(s, always_use_files),
    ensures
        end_of_final_boundary_in_message(s, always_use_files) <= s.len(),
        message_nodes(s.take(t), always_use_files) matches Err(e) && e.is_truncation(),
{
    let blank = crlf() + crlf();
    let body = after_token(s, blank)->0;
    let hs = fields_of(header_block(before_token(s, blank) + blank, MAIN_HEADERS as int))->Ok_0;
    lemma_after_token(s, blank);
    lemma_level_ends(body, hs, always_use_files);
    let rest = read_level(body, hs, always_use_files)->Ok_0.1;
    assert(rest.len() >= 2);
    lemma_scan_truncated(s, blank, t);
    let cut = s.len() - body.len();
    if t >= cut {
        lemma_level_truncated(body, hs, always_use_files, t - cut);
    }
}

/// Where a cut falls in a body with its own headers before it: cut off
/// inside those headers it fails because the input ended inside them; cut
/// off behind them it fails as the body alone does.
pub proof fn law_message_cut_errors(s: Seq<u8>, always_use_files: bool, t: int)
    requires
        message_nodes(s, always_use_files) is Ok,
        0 <= t < end_of_final_boundary_in_message(s, always_use_files),
    ensures
        message_nodes(s.take(t), always_use_files) matches Err(e) && ({
            let blank = crlf() + crlf();
            let body = after_token(s, blank)->0;
            let hs = fields_of(
                header_block(before_token(s, blank) + blank, MAIN_HEADERS as int),
            )->Ok_0;
            let start = s.len() - body.len();
            if t < start {
                e is EofInMainHeaders
            } else if cut_behind_boundary_in_level(body, hs, always_use_files, t - start) {
                e is NoCrLfAfterBoundary
            } else {
                e.is_end_of_body()
            }
        }),
{
    let blank = crlf() + crlf();
    let body = after_token(s, blank)->0;
    let hs = fields_of(header_block(before_token(s, blank) + blank, MAIN_HEADERS as int))->Ok_0;
    lemma_after_token(s, blank);
    lemma_level_ends(body, hs, always_use_files);
    let rest = read_level(body, hs, always_use_files)->Ok_0.1;
    assert(rest.len() >= 2);
    lemma_scan_truncated(s, blank, t);
    let cut = s.len() - body.len();
    if t >= cut {
        lemma_level_truncated(body, hs, always_use_files, t - cut);
    }
}

} // verus!
