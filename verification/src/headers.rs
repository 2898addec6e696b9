//! Header fields: an ordered list of name and value pairs, the lookup of the
//! values that go by a name, and the reading of a raw block of header lines.

use httparse::{Status, EMPTY_HEADER};
use vstd::prelude::*;
use crate::bytes::to_vec;
use crate::error::{Error, HeaderError};

verus! {

/// One header field.
#[derive(Debug)]
pub struct Header {
    /// The field's name, as it was written.
    pub name: Vec<u8>,
    /// The field's value.
    pub value: Vec<u8>,
}

/// What a header field holds.
pub struct HeaderView {
    pub name: Seq<u8>,
    pub value: Seq<u8>,
}

impl View for Header {
    type V = HeaderView;

    open spec fn view(&self) -> HeaderView {
        HeaderView { name: self.name@, value: self.value@ }
    }
}

/// The header fields of a message or of a part, in the order in which they
/// were received or are to be written.
#[derive(Debug)]
pub struct Headers {
    /// The fields, in their order.
    pub fields: Vec<Header>,
}

impl View for Headers {
    type V = Seq<HeaderView>;

    open spec fn view(&self) -> Seq<HeaderView> {
        self.fields@.map_values(|h: Header| h@)
    }
}

impl Clone for Header {
    fn clone(&self) -> (r: Self)
        ensures
            r@ == self@,
    {
        Header { name: to_vec(self.name.as_slice()), value: to_vec(self.value.as_slice()) }
    }
}

impl Clone for Headers {
    fn clone(&self) -> (r: Self)
        ensures
            r@ == self@,
    {
        let mut fields: Vec<Header> = Vec::new();
        let mut i: usize = 0;
        while i < self.fields.len()
            invariant
                i <= self.fields.len(),
                fields@.len() == i,
                forall|k: int| 0 <= k < i ==> (#[trigger] fields@[k])@ == self.fields@[k]@,
            decreases self.fields.len() - i,
        {
            fields.push(self.fields[i].clone());
            i += 1;
        }
        let r = Headers { fields };
        assert(r@ =~= self@);
        r
    }
}

/// The lower-case form of an ASCII letter; any other byte is unchanged.
pub open spec fn lower(b: u8) -> u8 {
    if 65 <= b <= 90 {
        (b + 32) as u8
    } else {
        b
    }
}

/// Two names are the same if they differ at most in the case of ASCII letters.
pub open spec fn same_name(a: Seq<u8>, b: Seq<u8>) -> bool {
    a.len() == b.len() && forall|i: int| 0 <= i < a.len() ==> lower(#[trigger] a[i]) == lower(b[i])
}

/// The values of the fields that go by `name`, in their order.
pub open spec fn values_named(hs: Seq<HeaderView>, name: Seq<u8>) -> Seq<Seq<u8>>
    decreases hs.len(),
{
    if hs.len() == 0 {
        Seq::empty()
    } else if same_name(hs.last().name, name) {
        values_named(hs.drop_last(), name).push(hs.last().value)
    } else {
        values_named(hs.drop_last(), name)
    }
}

/// What a list of byte vectors holds.
pub open spec fn lines(v: Seq<Vec<u8>>) -> Seq<Seq<u8>> {
    v.map_values(|l: Vec<u8>| l@)
}

/// Every byte of every line is an ASCII character.
pub open spec fn all_ascii(raw: Seq<Seq<u8>>) -> bool {
    forall|i: int, j: int| 0 <= i < raw.len() && 0 <= j < raw[i].len() ==> #[trigger] raw[i][j] < 128
}

fn to_lower(b: u8) -> (r: u8)
    ensures
        r == lower(b),
{
    if b >= 65 && b <= 90 {
        b + 32
    } else {
        b
    }
}

/// Whether two names are the same but for the case of ASCII letters.
pub fn is_same_name(a: &[u8], b: &[u8]) -> (r: bool)
    ensures
        r == same_name(a@, b@),
{
    if a.len() != b.len() {
        return false;
    }
    let mut i: usize = 0;
    while i < a.len()
        invariant
            a.len() == b.len(),
            i <= a.len(),
            forall|k: int| 0 <= k < i ==> lower(#[trigger] a@[k]) == lower(b@[k]),
        decreases a.len() - i,
    {
        if to_lower(a[i]) != to_lower(b[i]) {
            return false;
        }
        i += 1;
    }
    true
}

/// Whether every byte of every line is an ASCII character.
pub fn is_all_ascii(raw: &Vec<Vec<u8>>) -> (r: bool)
    ensures
        r == all_ascii(lines(raw@)),
{
    let mut i: usize = 0;
    while i < raw.len()
        invariant
            i <= raw.len(),
            forall|a: int, b: int|
                0 <= a < i && 0 <= b < lines(raw@)[a].len() ==> #[trigger] lines(raw@)[a][b] < 128,
        decreases raw.len() - i,
    {
        let line = &raw[i];
        let mut j: usize = 0;
        while j < line.len()
            invariant
                i < raw.len(),
                line@ == lines(raw@)[i as int],
                j <= line.len(),
                forall|b: int| 0 <= b < j ==> #[trigger] line@[b] < 128,
            decreases line.len() - j,
        {
            if line[j] >= 128 {
                assert(lines(raw@)[i as int][j as int] >= 128);
                return false;
            }
            j += 1;
        }
        i += 1;
    }
    true
}

impl Headers {
    /// No header fields.
    pub fn new() -> (r: Self)
        ensures
            r@ == Seq::<HeaderView>::empty(),
    {
        let r = Headers { fields: Vec::new() };
        assert(r@ =~= Seq::<HeaderView>::empty());
        r
    }

    /// Adds a field behind those that are there.
    pub fn push(&mut self, name: Vec<u8>, value: Vec<u8>)
        ensures
            final(self)@ == old(self)@.push(HeaderView { name: name@, value: value@ }),
    {
        self.fields.push(Header { name, value });
        assert(self@ =~= old(self)@.push(HeaderView { name: name@, value: value@ }));
    }

    /// The number of fields.
    pub fn len(&self) -> (r: usize)
        ensures
            r == self@.len(),
    {
        self.fields.len()
    }

    /// The values of the fields that go by `name`, whatever the case of its
    /// letters, in their order.
    pub fn raw(&self, name: &[u8]) -> (r: Vec<Vec<u8>>)
        ensures
            lines(r@) == values_named(self@, name@),
    {
        let mut r: Vec<Vec<u8>> = Vec::new();
        let mut i: usize = 0;
        assert(self@.take(0) =~= Seq::<HeaderView>::empty());
        assert(lines(r@) =~= Seq::<Seq<u8>>::empty());
        while i < self.fields.len()
            invariant
                i <= self.fields.len(),
                lines(r@) == values_named(self@.take(i as int), name@),
            decreases self.fields.len() - i,
        {
            let ghost before = lines(r@);
            let field = &self.fields[i];
            assert(self@.take(i + 1).drop_last() =~= self@.take(i as int));
            assert(self@.take(i + 1).last() == field@);
            if is_same_name(field.name.as_slice(), name) {
                let value = to_vec(field.value.as_slice());
                r.push(value);
                assert(lines(r@) =~= before.push(field.value@));
            }
            i += 1;
        }
        assert(self@.take(i as int) =~= self@);
        r
    }
}

/// What reading a block of header lines gave.
pub enum HeaderBlock {
    /// The block was read to its blank line: these are its fields.
    Complete(Headers),
    /// The block ended before its blank line.
    Partial,
    /// The block is malformed, or holds more fields than there was room for.
    Invalid(HeaderError),
}

/// What a `HeaderBlock` holds.
pub enum HeaderBlockView {
    Complete(Seq<HeaderView>),
    Partial,
    Invalid(HeaderError),
}

impl View for HeaderBlock {
    type V = HeaderBlockView;

    open spec fn view(&self) -> HeaderBlockView {
        match self {
            HeaderBlock::Complete(hs) => HeaderBlockView::Complete(hs@),
            HeaderBlock::Partial => HeaderBlockView::Partial,
            HeaderBlock::Invalid(e) => HeaderBlockView::Invalid(*e),
        }
    }
}

/// What `httparse::parse_headers` makes of `block` when it has room for
/// `capacity` fields.
pub uninterp spec fn header_block(block: Seq<u8>, capacity: int) -> HeaderBlockView;

/// `httparse::parse_headers`, with room for `capacity` fields.  The result
/// depends on the block and the capacity alone; each field is handed out as a
/// copy of its name and of its value.
#[verifier::external_body]
pub(crate) fn parse_headers(block: &[u8], capacity: u16) -> (r: HeaderBlock)
    ensures
        r@ == header_block(block@, capacity as int),
{
    let mut room = vec![EMPTY_HEADER; usize::from(capacity)];
    match httparse::parse_headers(block, &mut room) {
        Ok(Status::Complete((_, found))) => HeaderBlock::Complete(Headers { fields: found.iter().map(|h| Header { name: h.name.as_bytes().to_vec(), value: h.value.to_vec() }).collect() }),
        Ok(Status::Partial) => HeaderBlock::Partial,
        Err(e) => HeaderBlock::Invalid(match e {
            httparse::Error::HeaderName => HeaderError::HeaderName,
            httparse::Error::HeaderValue => HeaderError::HeaderValue,
            httparse::Error::NewLine => HeaderError::NewLine,
            httparse::Error::Status => HeaderError::Status,
            httparse::Error::Token => HeaderError::Token,
            httparse::Error::TooManyHeaders => HeaderError::TooManyHeaders,
            httparse::Error::Version => HeaderError::Version,
        }),
    }
}

/// The fields that a block of header lines holds, or the error that it
/// stands for: a block that is incomplete or has too many fields is
/// `PartialHeaders`, a malformed one is `Httparse` with the reason.
pub open spec fn fields_of(block: HeaderBlockView) -> Result<Seq<HeaderView>, Error> {
    match block {
        HeaderBlockView::Complete(hs) => Ok(hs),
        HeaderBlockView::Partial => Err(Error::PartialHeaders),
        HeaderBlockView::Invalid(HeaderError::TooManyHeaders) => Err(Error::PartialHeaders),
        HeaderBlockView::Invalid(e) => Err(Error::Httparse(e)),
    }
}

/// What the result of reading header fields holds.
pub open spec fn fields_view(r: Result<Headers, Error>) -> Result<Seq<HeaderView>, Error> {
    match r {
        Ok(hs) => Ok(hs@),
        Err(e) => Err(e),
    }
}

/// What became of a header block, as fields or as an error.
pub fn into_fields(block: HeaderBlock) -> (r: Result<Headers, Error>)
    ensures
        fields_view(r) == fields_of(block@),
{
    match block {
        HeaderBlock::Complete(hs) => Ok(hs),
        HeaderBlock::Partial => Err(Error::PartialHeaders),
        HeaderBlock::Invalid(HeaderError::TooManyHeaders) => Err(Error::PartialHeaders),
        HeaderBlock::Invalid(e) => Err(Error::Httparse(e)),
    }
}

/// Reads a block of header lines that ends in a blank line, with room for
/// `capacity` fields.
pub fn read_header_block(block: &[u8], capacity: u16) -> (r: Result<Headers, Error>)
    ensures
        fields_view(r) == fields_of(header_block(block@, capacity as int)),
{
    into_fields(parse_headers(block, capacity))
}

} // verus!
