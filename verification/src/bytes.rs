//! Byte sequences: the few constants of the wire format, the search for a
//! token, and small helpers on byte vectors.

use vstd::prelude::*;

verus! {

/// Carriage return.
pub const CR: u8 = 13;

/// Line feed.
pub const LF: u8 = 10;

/// The hyphen of which two open every boundary line.
pub const DASH: u8 = 45;

/// The colon between a header's name and its value.
pub const COLON: u8 = 58;

/// The space after that colon.
pub const SPACE: u8 = 32;

/// The two-byte line terminator.
pub open spec fn crlf() -> Seq<u8> {
    seq![CR, LF]
}

/// The one-byte line terminator.
pub open spec fn lf() -> Seq<u8> {
    seq![LF]
}

/// Two hyphens: the prefix of a boundary line and the suffix of the last one.
pub open spec fn dashes() -> Seq<u8> {
    seq![DASH, DASH]
}

/// `token` stands in `s` at index `at`.
pub open spec fn occurs_at(s: Seq<u8>, token: Seq<u8>, at: int) -> bool {
    0 <= at && at + token.len() <= s.len() && s.subrange(at, at + token.len()) == token
}

/// The first index at or after `from` at which `token` stands in `s`.
pub open spec fn find_from(s: Seq<u8>, token: Seq<u8>, from: int) -> Option<int>
    decreases s.len() - from + 1,
{
    if from < 0 || from + token.len() > s.len() {
        None
    } else if occurs_at(s, token, from) {
        Some(from)
    } else {
        find_from(s, token, from + 1)
    }
}

/// The index of the first occurrence of `token` in `s`.
pub open spec fn first_match(s: Seq<u8>, token: Seq<u8>) -> Option<int> {
    find_from(s, token, 0)
}

/// `s` begins with `prefix`.
pub open spec fn starts_with(s: Seq<u8>, prefix: Seq<u8>) -> bool {
    occurs_at(s, prefix, 0)
}

/// The longest prefix of `token`, of at most `w` bytes and shorter than the
/// token, with which `s` ends; 0 if there is none.
pub open spec fn overlap_upto(s: Seq<u8>, token: Seq<u8>, w: int) -> int
    decreases w,
{
    if w <= 0 {
        0
    } else if w < token.len() && w <= s.len() && s.skip(s.len() - w) == token.take(w) {
        w
    } else {
        overlap_upto(s, token, w - 1)
    }
}

/// The length of the longest proper prefix of `token` with which `s` ends.
pub open spec fn trailing_overlap(s: Seq<u8>, token: Seq<u8>) -> int {
    overlap_upto(s, token, token.len() - 1)
}

/// What `find_from` returns is an occurrence, and the first one from `from` on.
pub proof fn lemma_find_from(s: Seq<u8>, token: Seq<u8>, from: int)
    requires
        0 <= from,
    ensures
        match find_from(s, token, from) {
            Some(i) => from <= i && occurs_at(s, token, i) && forall|j: int|
                from <= j < i ==> !occurs_at(s, token, j),
            None => forall|j: int| from <= j ==> !occurs_at(s, token, j),
        },
    decreases s.len() - from + 1,
{
    if from + token.len() > s.len() {
    } else if occurs_at(s, token, from) {
    } else {
        lemma_find_from(s, token, from + 1);
    }
}

/// What `first_match` returns is the first occurrence.
pub proof fn lemma_first_match(s: Seq<u8>, token: Seq<u8>)
    ensures
        match first_match(s, token) {
            Some(i) => occurs_at(s, token, i) && forall|j: int| 0 <= j < i ==> !occurs_at(s, token, j),
            None => forall|j: int| !occurs_at(s, token, j),
        },
{
    lemma_find_from(s, token, 0);
}

/// An occurrence with none before it is what `find_from` returns.
pub proof fn lemma_find_from_is(s: Seq<u8>, token: Seq<u8>, from: int, i: int)
    requires
        0 <= from <= i,
        occurs_at(s, token, i),
        forall|j: int| from <= j < i ==> !occurs_at(s, token, j),
    ensures
        find_from(s, token, from) == Some(i),
    decreases i - from,
{
    if from < i {
        lemma_find_from_is(s, token, from + 1, i);
    }
}

/// An occurrence with none before it is the first match.
pub proof fn lemma_first_match_is(s: Seq<u8>, token: Seq<u8>, i: int)
    requires
        occurs_at(s, token, i),
        forall|j: int| 0 <= j < i ==> !occurs_at(s, token, j),
    ensures
        first_match(s, token) == Some(i),
{
    lemma_find_from_is(s, token, 0, i);
}

/// Where nothing occurs there is no first match.
pub proof fn lemma_first_match_none(s: Seq<u8>, token: Seq<u8>)
    requires
        forall|j: int| !occurs_at(s, token, j),
    ensures
        first_match(s, token) is None,
{
    lemma_find_from(s, token, 0);
}

/// What is left of `s` behind the first occurrence of `token`, if it occurs.
pub open spec fn after_token(s: Seq<u8>, token: Seq<u8>) -> Option<Seq<u8>> {
    match first_match(s, token) {
        Some(i) => Some(s.skip(i + token.len())),
        None => None,
    }
}

/// What stands in `s` before the first occurrence of `token`; all of `s` if
/// it does not occur.
pub open spec fn before_token(s: Seq<u8>, token: Seq<u8>) -> Seq<u8> {
    match first_match(s, token) {
        Some(i) => s.take(i),
        None => s,
    }
}

/// What stands before a token and what is left behind it, with the token
/// between them, make up the whole.
pub proof fn lemma_after_token(s: Seq<u8>, token: Seq<u8>)
    ensures
        match after_token(s, token) {
            Some(rest) => s == before_token(s, token) + token + rest && before_token(s, token).len()
                + token.len() + rest.len() == s.len(),
            None => true,
        },
{
    lemma_first_match(s, token);
    match first_match(s, token) {
        Some(i) => {
            assert(s =~= s.take(i) + s.subrange(i, i + token.len()) + s.skip(i + token.len()));
        },
        None => {},
    }
}

/// `token` stands in a prefix of `s` where it stands in `s` and ends inside
/// the prefix.
pub proof fn lemma_occurs_at_take(s: Seq<u8>, token: Seq<u8>, n: int, at: int)
    requires
        0 <= n <= s.len(),
    ensures
        occurs_at(s.take(n), token, at) <==> occurs_at(s, token, at) && at + token.len() <= n,
{
    if 0 <= at && at + token.len() <= n {
        assert(s.take(n).subrange(at, at + token.len()) =~= s.subrange(at, at + token.len()));
    }
}

/// `token` stands in `s` with more behind it where it stands in `s`, as far
/// as it ends inside `s`.
pub proof fn lemma_occurs_at_extend(s: Seq<u8>, more: Seq<u8>, token: Seq<u8>, at: int)
    requires
        at + token.len() <= s.len(),
    ensures
        occurs_at(s + more, token, at) <==> occurs_at(s, token, at),
{
    if 0 <= at {
        assert((s + more).subrange(at, at + token.len()) =~= s.subrange(at, at + token.len()));
    }
}

/// The first match in `s` is the first match in `s` with more behind it.
pub proof fn lemma_first_match_extend(s: Seq<u8>, more: Seq<u8>, token: Seq<u8>)
    requires
        first_match(s, token) is Some,
    ensures
        first_match(s + more, token) == first_match(s, token),
{
    let i = first_match(s, token)->0;
    lemma_first_match(s, token);
    lemma_occurs_at_extend(s, more, token, i);
    assert forall|j: int| 0 <= j < i implies !occurs_at(s + more, token, j) by {
        lemma_occurs_at_extend(s, more, token, j);
    }
    lemma_first_match_is(s + more, token, i);
}

/// The first match in a prefix of `s` is the first match in `s`, if that
/// ends inside the prefix; otherwise the prefix has none.
pub proof fn lemma_first_match_take(s: Seq<u8>, token: Seq<u8>, n: int)
    requires
        0 <= n <= s.len(),
    ensures
        first_match(s.take(n), token) == match first_match(s, token) {
            Some(i) => if i + token.len() <= n {
                Some(i)
            } else {
                None::<int>
            },
            None => None::<int>,
        },
{
    lemma_first_match(s, token);
    match first_match(s, token) {
        Some(i) => {
            if i + token.len() <= n {
                lemma_occurs_at_take(s, token, n, i);
                assert forall|j: int| 0 <= j < i implies !occurs_at(s.take(n), token, j) by {
                    lemma_occurs_at_take(s, token, n, j);
                }
                lemma_first_match_is(s.take(n), token, i);
            } else {
                assert forall|j: int| !occurs_at(s.take(n), token, j) by {
                    lemma_occurs_at_take(s, token, n, j);
                    if occurs_at(s.take(n), token, j) {
                        assert(j < i);
                    }
                }
                lemma_first_match_none(s.take(n), token);
            }
        },
        None => {
            assert forall|j: int| !occurs_at(s.take(n), token, j) by {
                lemma_occurs_at_take(s, token, n, j);
            }
            lemma_first_match_none(s.take(n), token);
        },
    }
}

/// A token that stands at the very start is the first match.
pub proof fn lemma_first_match_at_start(s: Seq<u8>, token: Seq<u8>)
    requires
        occurs_at(s, token, 0),
    ensures
        first_match(s, token) == Some(0int),
{
    lemma_first_match_is(s, token, 0);
}

/// Three byte strings put together, from the left or from the right.
pub proof fn lemma_concat3(a: Seq<u8>, b: Seq<u8>, c: Seq<u8>)
    ensures
        (a + b) + c == a + (b + c),
{
    assert((a + b) + c =~= a + (b + c));
}

/// The two-byte line terminator.
pub fn crlf_bytes() -> (r: Vec<u8>)
    ensures
        r@ == crlf(),
{
    let mut r: Vec<u8> = Vec::new();
    r.push(CR);
    r.push(LF);
    assert(r@ =~= crlf());
    r
}

/// The one-byte line terminator.
pub fn lf_bytes() -> (r: Vec<u8>)
    ensures
        r@ == lf(),
{
    let mut r: Vec<u8> = Vec::new();
    r.push(LF);
    assert(r@ =~= lf());
    r
}

/// Two hyphens.
pub fn dash_bytes() -> (r: Vec<u8>)
    ensures
        r@ == dashes(),
{
    let mut r: Vec<u8> = Vec::new();
    r.push(DASH);
    r.push(DASH);
    assert(r@ =~= dashes());
    r
}

/// Whether `token` stands in `s` at index `at`.
pub fn matches_at(s: &[u8], at: usize, token: &[u8]) -> (r: bool)
    requires
        at <= s.len(),
    ensures
        r == occurs_at(s@, token@, at as int),
{
    if token.len() > s.len() - at {
        return false;
    }
    let mut i: usize = 0;
    while i < token.len()
        invariant
            at + token.len() <= s.len(),
            i <= token.len(),
            forall|k: int| 0 <= k < i ==> s@[at + k] == token@[k],
        decreases token.len() - i,
    {
        if s[at + i] != token[i] {
            assert(s@.subrange(at as int, at + token.len())[i as int] != token@[i as int]);
            return false;
        }
        i += 1;
    }
    assert(s@.subrange(at as int, at + token.len()) =~= token@);
    true
}

/// Whether two byte strings are equal.
pub fn same_bytes(a: &[u8], b: &[u8]) -> (r: bool)
    ensures
        r == (a@ == b@),
{
    if a.len() != b.len() {
        return false;
    }
    let r = matches_at(a, 0, b);
    assert(a@.subrange(0, a@.len() as int) =~= a@);
    r
}

/// A copy of `bytes`.
pub fn to_vec(bytes: &[u8]) -> (r: Vec<u8>)
    ensures
        r@ == bytes@,
{
    let mut r: Vec<u8> = Vec::new();
    r.extend_from_slice(bytes);
    r
}

/// `a` followed by `b`.
pub fn concat(a: &[u8], b: &[u8]) -> (r: Vec<u8>)
    ensures
        r@ == a@ + b@,
{
    let mut r: Vec<u8> = Vec::new();
    r.extend_from_slice(a);
    r.extend_from_slice(b);
    r
}

} // verus!
