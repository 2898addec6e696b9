//! The token scanner: a byte source in memory that is read by looking a few
//! bytes ahead and by streaming everything up to a token into a sink.

use buf_read_ext::BufReadExt;
use vstd::prelude::*;
use vstd::slice::slice_subrange;
use crate::bytes::{first_match, lemma_first_match, matches_at, occurs_at, trailing_overlap};

verus! {

/// `BufReadExt::stream_until_token` of buf_read_ext, reading from a byte
/// slice and writing to a vector, neither of which can fail.  It copies what
/// stands before the first occurrence of `token` and returns the count of
/// bytes copied and `true`.  Where the token does not occur it reads to the
/// end, returns the count of bytes read and `false`, and has copied all of
/// them but the longest proper prefix of the token with which the input ends,
/// which it holds back.  An empty token makes it panic.
#[verifier::external_body]
fn stream_until_token(rest: &[u8], token: &[u8], out: &mut Vec<u8>) -> (r: (usize, bool))
    requires
        token@.len() > 0,
    ensures
        match first_match(rest@, token@) {
            Some(i) => r == (i as usize, true) && final(out)@ == old(out)@ + rest@.take(i),
            None => r == (rest@.len() as usize, false) && final(out)@ == old(out)@ + rest@.take(
                rest@.len() - trailing_overlap(rest@, token@),
            ),
        },
{
    let mut reader: &[u8] = rest;
    reader.stream_until_token(token, out).unwrap()
}

/// A byte source: the input and how far it has been read.
pub struct Source<'a> {
    data: &'a [u8],
    pos: usize,
}

impl<'a> Source<'a> {
    #[verifier::type_invariant]
    spec fn within(self) -> bool {
        self.pos <= self.data@.len()
    }

    /// The bytes that have not been read yet.
    pub closed spec fn rest(self) -> Seq<u8> {
        self.data@.skip(self.pos as int)
    }

    /// A source that stands at the start of `data`.
    pub fn new(data: &'a [u8]) -> (r: Self)
        ensures
            r.rest() == data@,
    {
        Source { data, pos: 0 }
    }

    /// Whether the unread bytes begin with `prefix`.  Nothing is consumed.
    pub fn peek(&self, prefix: &[u8]) -> (r: bool)
        ensures
            r == occurs_at(self.rest(), prefix@, 0),
    {
        proof {
            use_type_invariant(self);
        }
        let r = matches_at(self.data, self.pos, prefix);
        proof {
            let s = self.data@;
            let p = self.pos as int;
            if p + prefix@.len() <= s.len() {
                assert(s.skip(p).subrange(0, prefix@.len() as int) =~= s.subrange(
                    p,
                    p + prefix@.len(),
                ));
            }
        }
        r
    }

    /// Streams the unread bytes into `out` until `token` is found.  The bytes
    /// before the token are copied, the token is consumed and not copied, and
    /// the result is the count of bytes copied and `true`.  Where the input
    /// ends before the token, all of it is consumed and the result is its
    /// length and `false`; the bytes are copied but for the start of a token
    /// with which the input may end.
    pub fn stream_until_token(&mut self, token: &[u8], out: &mut Vec<u8>) -> (r: (usize, bool))
        requires
            token@.len() > 0,
        ensures
            match first_match(old(self).rest(), token@) {
                Some(i) => {
                    &&& r == (i as usize, true)
                    &&& i + token@.len() <= old(self).rest().len()
                    &&& final(out)@ == old(out)@ + old(self).rest().take(i)
                    &&& final(self).rest() == old(self).rest().skip(i + token@.len())
                },
                None => {
                    let held_back = trailing_overlap(old(self).rest(), token@);
                    &&& r == (old(self).rest().len() as usize, false)
                    &&& final(out)@ == old(out)@ + old(self).rest().take(
                        old(self).rest().len() - held_back,
                    )
                    &&& final(self).rest() == Seq::<u8>::empty()
                },
            },
    {
        proof {
            use_type_invariant(&*self);
        }
        let rest = slice_subrange(self.data, self.pos, self.data.len());
        assert(rest@ =~= self.rest());
        proof {
            lemma_first_match(rest@, token@);
        }
        let (n, found) = stream_until_token(rest, token, out);
        if found {
            self.pos = self.pos + n + token.len();
            assert(self.rest() =~= rest@.skip(n + token@.len()));
        } else {
            self.pos = self.data.len();
            assert(self.rest() =~= Seq::<u8>::empty());
        }
        (n, found)
    }
}

} // verus!
