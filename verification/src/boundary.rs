//! The boundary: the token that a `multipart/*` media type declares and that
//! marks every boundary line of the body.

use textnonce::TextNonce;
use vstd::prelude::*;
use vstd::string::StringSliceAdditionalSpecFns;
use crate::bytes::{dashes, same_bytes, DASH};
use crate::error::Error;
use crate::headers::{HeaderView, Headers};
use crate::mime::{content_type_of, multipart, Param, ParamView};

verus! {

/// The attribute of the parameter that holds the boundary.
pub open spec fn boundary_attr() -> Seq<u8> {
    "boundary".spec_bytes()
}

/// The parameter declares a boundary: its attribute is `boundary`, whatever
/// its value.
pub open spec fn declares_boundary(p: ParamView) -> bool {
    p.attr == boundary_attr()
}

/// The value of the first parameter that declares a boundary.
pub open spec fn boundary_param(params: Seq<ParamView>) -> Option<Seq<u8>>
    decreases params.len(),
{
    if params.len() == 0 {
        None
    } else if declares_boundary(params[0]) {
        Some(params[0].value)
    } else {
        boundary_param(params.skip(1))
    }
}

/// The token that marks the boundary lines of a body with these headers: two
/// hyphens and the boundary that the media type declares.  Without a media
/// type there is `NoContentType`, with one that is not `multipart/*`
/// there is `NotMultipart`, and with one that declares no boundary there is
/// `BoundaryNotSpecified`.
pub open spec fn boundary_of(hs: Seq<HeaderView>) -> Result<Seq<u8>, Error> {
    match content_type_of(hs) {
        None => Err(Error::NoContentType),
        Some(m) => if m.top_level != multipart() {
            Err(Error::NotMultipart)
        } else {
            match boundary_param(m.params) {
                None => Err(Error::BoundaryNotSpecified),
                Some(value) => Ok(dashes() + value),
            }
        },
    }
}

/// What the result of a boundary lookup holds.
pub open spec fn token_view(r: Result<Vec<u8>, Error>) -> Result<Seq<u8>, Error> {
    match r {
        Ok(token) => Ok(token@),
        Err(e) => Err(e),
    }
}

/// The token that marks the boundary lines of a body with these headers.
pub fn get_multipart_boundary(headers: &Headers) -> (r: Result<Vec<u8>, Error>)
    ensures
        token_view(r) == boundary_of(headers@),
{
    let mime = match headers.content_type() {
        Some(m) => m,
        None => return Err(Error::NoContentType),
    };
    if !same_bytes(mime.top_level.as_slice(), "multipart".as_bytes()) {
        return Err(Error::NotMultipart);
    }
    let ghost params = mime@.params;
    let mut i: usize = 0;
    assert(params.skip(0) =~= params);
    while i < mime.params.len()
        invariant
            i <= mime.params.len(),
            content_type_of(headers@) == Some(mime@),
            mime@.top_level == multipart(),
            params == mime@.params,
            params == mime.params@.map_values(|p: Param| p@),
            boundary_param(params) == boundary_param(params.skip(i as int)),
        decreases mime.params.len() - i,
    {
        let p = &mime.params[i];
        assert(params.skip(i as int)[0] == p@);
        if same_bytes(p.attr.as_slice(), "boundary".as_bytes()) {
            let mut boundary: Vec<u8> = Vec::new();
            boundary.push(DASH);
            boundary.push(DASH);
            boundary.extend_from_slice(p.value.as_slice());
            assert(boundary@ =~= dashes() + p.value@);
            return Ok(boundary);
        }
        assert(params.skip(i as int).skip(1) =~= params.skip(i + 1));
        i += 1;
    }
    Err(Error::BoundaryNotSpecified)
}

/// The byte that stands for `b` in a boundary: a hyphen for an equals sign, a
/// full stop for a slash, and `b` itself otherwise.
pub open spec fn boundary_safe(b: u8) -> u8 {
    if b == 61 {
        DASH
    } else if b == 47 {
        46
    } else {
        b
    }
}

/// A boundary made of a nonce: every byte of it, made safe for a boundary.
pub fn boundary_from_nonce(nonce: &[u8]) -> (r: Vec<u8>)
    ensures
        r@ == nonce@.map_values(|b: u8| boundary_safe(b)),
        forall|i: int| 0 <= i < r@.len() ==> r@[i] != 61 && r@[i] != 47,
{
    let mut r: Vec<u8> = Vec::new();
    let mut i: usize = 0;
    while i < nonce.len()
        invariant
            i <= nonce.len(),
            r@ == nonce@.take(i as int).map_values(|b: u8| boundary_safe(b)),
        decreases nonce.len() - i,
    {
        let ch = nonce[i];
        let safe = if ch == 61 {
            DASH
        } else if ch == 47 {
            46
        } else {
            ch
        };
        r.push(safe);
        assert(r@ =~= nonce@.take(i + 1).map_values(|b: u8| boundary_safe(b)));
        i += 1;
    }
    assert(nonce@.take(i as int) =~= nonce@);
    r
}

/// A character of the base64 alphabet: a letter, a digit, a plus sign or a
/// slash.
pub open spec fn is_base64(b: u8) -> bool {
    (65 <= b <= 90) || (97 <= b <= 122) || (48 <= b <= 57) || b == 43 || b == 47
}

/// `TextNonce::sized` of textnonce: a nonce of `length` characters of the
/// base64 alphabet, made of the time and of random bytes, so that no two
/// calls need agree.  It gives none for a length under 16 or not divisible
/// by 4, and none while the clock stands before 1970.
#[verifier::external_body]
fn text_nonce(length: usize) -> (r: Option<Vec<u8>>)
    ensures
        r matches Some(nonce) ==> nonce@.len() == length && forall|i: int|
            0 <= i < nonce@.len() ==> is_base64(#[trigger] nonce@[i]),
{
    match TextNonce::sized(length) {
        Ok(nonce) => Some(nonce.into_string().into_bytes()),
        Err(_) => None,
    }
}

/// A byte that a generated boundary may hold: a letter, a digit, a plus
/// sign or a full stop.
pub open spec fn is_boundary_char(b: u8) -> bool {
    (65 <= b <= 90) || (97 <= b <= 122) || (48 <= b <= 57) || b == 43 || b == 46
}

/// A boundary of 68 bytes that is unlikely to occur in any content: a nonce
/// made of the time and of random bytes, made safe for a boundary.  It
/// holds letters, digits, plus signs and full stops, and so neither an
/// equals sign nor a slash.  There is none while the clock stands before
/// 1970.
pub fn generate_boundary() -> (r: Option<Vec<u8>>)
    ensures
        r matches Some(b) ==> b@.len() == 68 && forall|i: int|
            0 <= i < b@.len() ==> is_boundary_char(#[trigger] b@[i]) && b@[i] != 61 && b@[i] != 47,
{
    let nonce = text_nonce(68);
    let ghost drawn = nonce;
    let r = boundary_from(nonce);
    proof {
        if drawn is Some && r is Some {
            let n = drawn->0;
            let b = r->0;
            assert forall|i: int| 0 <= i < b@.len() implies is_boundary_char(#[trigger] b@[i])
                && b@[i] != 61 && b@[i] != 47 by {
                assert(is_base64(n@[i]));
            }
        }
    }
    r
}

/// The boundary that the outcome of asking for a nonce gives: the boundary
/// made of the nonce where there is one, and none where there is none.
pub fn boundary_from(nonce: Option<Vec<u8>>) -> (r: Option<Vec<u8>>)
    ensures
        match nonce {
            Some(n) => r matches Some(b) && b@ == n@.map_values(|b: u8| boundary_safe(b)),
            None => r is None,
        },
{
    match nonce {
        Some(n) => Some(boundary_from_nonce(n.as_slice())),
        None => None,
    }
}

} // verus!
