//! The two header fields that decide how a part is read: its media type and
//! its disposition.

use hyper::header::{ContentType, Header as TypedHeader};
use vstd::prelude::*;
use vstd::string::StringSliceAdditionalSpecFns;
use crate::bytes::{same_bytes, to_vec};
use crate::headers::{all_ascii, is_all_ascii, lines, values_named, HeaderView, Headers};

verus! {

/// A parameter of a media type.
#[derive(Debug)]
pub struct Param {
    /// The attribute, in lower case.
    pub attr: Vec<u8>,
    /// The value, without quotes.
    pub value: Vec<u8>,
}

/// What a parameter holds.
pub struct ParamView {
    pub attr: Seq<u8>,
    pub value: Seq<u8>,
}

impl View for Param {
    type V = ParamView;

    open spec fn view(&self) -> ParamView {
        ParamView { attr: self.attr@, value: self.value@ }
    }
}

/// A media type: `top_level/sub_level` and its parameters.
#[derive(Debug)]
pub struct Mime {
    /// The top-level type, in lower case.
    pub top_level: Vec<u8>,
    /// The subtype, in lower case.
    pub sub_level: Vec<u8>,
    /// The parameters, in their order.
    pub params: Vec<Param>,
}

/// What a media type holds.
pub struct MimeView {
    pub top_level: Seq<u8>,
    pub sub_level: Seq<u8>,
    pub params: Seq<ParamView>,
}

impl View for Mime {
    type V = MimeView;

    open spec fn view(&self) -> MimeView {
        MimeView {
            top_level: self.top_level@,
            sub_level: self.sub_level@,
            params: self.params@.map_values(|p: Param| p@),
        }
    }
}

/// How the content of a part is meant to be presented.
#[derive(Debug)]
pub enum DispositionType {
    /// Shown in place.
    Inline,
    /// Saved as a file.
    Attachment,
    /// Any other disposition, by its name.
    Ext(Vec<u8>),
}

/// What a disposition type holds.
pub enum DispositionTypeView {
    Inline,
    Attachment,
    Ext(Seq<u8>),
}

impl View for DispositionType {
    type V = DispositionTypeView;

    open spec fn view(&self) -> DispositionTypeView {
        match self {
            DispositionType::Inline => DispositionTypeView::Inline,
            DispositionType::Attachment => DispositionTypeView::Attachment,
            DispositionType::Ext(name) => DispositionTypeView::Ext(name@),
        }
    }
}

/// A parameter of a disposition.
#[derive(Debug)]
pub enum DispositionParam {
    /// A file name: the name of the character set that it is written in, and
    /// its bytes.
    Filename(Vec<u8>, Vec<u8>),
    /// Any other parameter: its name and its value.
    Ext(Vec<u8>, Vec<u8>),
}

/// What a disposition parameter holds.
pub enum DispositionParamView {
    Filename(Seq<u8>, Seq<u8>),
    Ext(Seq<u8>, Seq<u8>),
}

impl View for DispositionParam {
    type V = DispositionParamView;

    open spec fn view(&self) -> DispositionParamView {
        match self {
            DispositionParam::Filename(charset, bytes) => DispositionParamView::Filename(
                charset@,
                bytes@,
            ),
            DispositionParam::Ext(name, value) => DispositionParamView::Ext(name@, value@),
        }
    }
}

/// A `Content-Disposition`.
#[derive(Debug)]
pub struct ContentDisposition {
    /// The disposition type.
    pub disposition: DispositionType,
    /// The parameters, in their order.
    pub parameters: Vec<DispositionParam>,
}

/// What a `Content-Disposition` holds.
pub struct ContentDispositionView {
    pub disposition: DispositionTypeView,
    pub parameters: Seq<DispositionParamView>,
}

impl View for ContentDisposition {
    type V = ContentDispositionView;

    open spec fn view(&self) -> ContentDispositionView {
        ContentDispositionView {
            disposition: self.disposition@,
            parameters: self.parameters@.map_values(|p: DispositionParam| p@),
        }
    }
}

impl Clone for Param {
    fn clone(&self) -> (r: Self)
        ensures
            r@ == self@,
    {
        Param { attr: to_vec(self.attr.as_slice()), value: to_vec(self.value.as_slice()) }
    }
}

impl Clone for Mime {
    fn clone(&self) -> (r: Self)
        ensures
            r@ == self@,
    {
        let mut params: Vec<Param> = Vec::new();
        let mut i: usize = 0;
        while i < self.params.len()
            invariant
                i <= self.params.len(),
                params@.len() == i,
                forall|k: int| 0 <= k < i ==> (#[trigger] params@[k])@ == self.params@[k]@,
            decreases self.params.len() - i,
        {
            params.push(self.params[i].clone());
            i += 1;
        }
        let r = Mime {
            top_level: to_vec(self.top_level.as_slice()),
            sub_level: to_vec(self.sub_level.as_slice()),
            params,
        };
        assert(r@.params =~= self@.params);
        r
    }
}

impl Clone for DispositionType {
    fn clone(&self) -> (r: Self)
        ensures
            r@ == self@,
    {
        match self {
            DispositionType::Inline => DispositionType::Inline,
            DispositionType::Attachment => DispositionType::Attachment,
            DispositionType::Ext(name) => DispositionType::Ext(to_vec(name.as_slice())),
        }
    }
}

impl Clone for DispositionParam {
    fn clone(&self) -> (r: Self)
        ensures
            r@ == self@,
    {
        match self {
            DispositionParam::Filename(charset, bytes) => DispositionParam::Filename(
                to_vec(charset.as_slice()),
                to_vec(bytes.as_slice()),
            ),
            DispositionParam::Ext(name, value) => DispositionParam::Ext(
                to_vec(name.as_slice()),
                to_vec(value.as_slice()),
            ),
        }
    }
}

impl Clone for ContentDisposition {
    fn clone(&self) -> (r: Self)
        ensures
            r@ == self@,
    {
        let mut parameters: Vec<DispositionParam> = Vec::new();
        let mut i: usize = 0;
        while i < self.parameters.len()
            invariant
                i <= self.parameters.len(),
                parameters@.len() == i,
                forall|k: int|
                    0 <= k < i ==> (#[trigger] parameters@[k])@ == self.parameters@[k]@,
            decreases self.parameters.len() - i,
        {
            parameters.push(self.parameters[i].clone());
            i += 1;
        }
        let r = ContentDisposition { disposition: self.disposition.clone(), parameters };
        assert(r@.parameters =~= self@.parameters);
        r
    }
}

/// What an optional media type holds.
pub open spec fn mime_view(m: Option<Mime>) -> Option<MimeView> {
    match m {
        Some(m) => Some(m@),
        None => None,
    }
}

/// What an optional disposition holds.
pub open spec fn disposition_view(cd: Option<ContentDisposition>) -> Option<ContentDispositionView> {
    match cd {
        Some(cd) => Some(cd@),
        None => None,
    }
}

/// The media type that hyper reads from the raw values of a `Content-Type`
/// field, if it reads one.
pub uninterp spec fn media_type(raw: Seq<Seq<u8>>) -> Option<MimeView>;

/// The disposition that hyper reads from the raw values of a
/// `Content-Disposition` field, if it reads one.
pub uninterp spec fn disposition(raw: Seq<Seq<u8>>) -> Option<ContentDispositionView>;

/// `ContentType::parse_header` of hyper, which reads the media type with the
/// mime crate.  The result depends on the raw values alone.  The two type
/// names and each parameter's attribute and value are handed out as the
/// strings that mime gives for them.  Bytes beyond ASCII are left out: on
/// some of them mime cuts a string inside a character and panics.
#[verifier::external_body]
fn parse_content_type(raw: &Vec<Vec<u8>>) -> (r: Option<Mime>)
    requires
        all_ascii(lines(raw@)),
    ensures
        mime_view(r) == media_type(lines(raw@)),
{
    match ContentType::parse_header(raw.as_slice()) {
        Ok(ContentType(mime::Mime(top, sub, params))) => Some(Mime {
            top_level: top.as_str().as_bytes().to_vec(),
            sub_level: sub.as_str().as_bytes().to_vec(),
            params: params.iter().map(|p| Param {
                attr: p.0.as_str().as_bytes().to_vec(),
                value: p.1.as_str().as_bytes().to_vec(),
            }).collect(),
        }),
        Err(_) => None,
    }
}

/// `ContentDisposition::parse_header` of hyper.  The result depends on the
/// raw values alone.  A character set is handed out as the name that hyper
/// prints for it; the language of a file name is dropped.
#[verifier::external_body]
fn parse_content_disposition(raw: &Vec<Vec<u8>>) -> (r: Option<ContentDisposition>)
    ensures
        disposition_view(r) == disposition(lines(raw@)),
{
    match hyper::header::ContentDisposition::parse_header(raw.as_slice()) {
        Ok(cd) => Some(ContentDisposition {
            disposition: match cd.disposition {
                hyper::header::DispositionType::Inline => DispositionType::Inline,
                hyper::header::DispositionType::Attachment => DispositionType::Attachment,
                hyper::header::DispositionType::Ext(name) => DispositionType::Ext(name.into_bytes()),
            },
            parameters: cd.parameters.into_iter().map(|p| match p {
                hyper::header::DispositionParam::Filename(charset, _, bytes) => DispositionParam::Filename(charset.to_string().into_bytes(), bytes),
                hyper::header::DispositionParam::Ext(name, value) => DispositionParam::Ext(name.into_bytes(), value.into_bytes()),
            }).collect(),
        }),
        Err(_) => None,
    }
}

/// The name of the field that holds the media type.
pub open spec fn content_type_name() -> Seq<u8> {
    "content-type".spec_bytes()
}

/// The name of the field that holds the disposition.
pub open spec fn content_disposition_name() -> Seq<u8> {
    "content-disposition".spec_bytes()
}

/// The top-level type of every multipart container.
pub open spec fn multipart() -> Seq<u8> {
    "multipart".spec_bytes()
}

/// The media type that a list of header fields declares: the one read from
/// the values of its `Content-Type` fields.  There is none where there is
/// no such field, and none where one of those values holds a byte beyond
/// ASCII.
pub open spec fn content_type_of(hs: Seq<HeaderView>) -> Option<MimeView> {
    let raw = values_named(hs, content_type_name());
    if raw.len() == 0 {
        None
    } else if all_ascii(raw) {
        media_type(raw)
    } else {
        None
    }
}

/// The disposition that a list of header fields declares: the one read from
/// the values of its `Content-Disposition` fields.  There is none where
/// there is no such field.
pub open spec fn content_disposition_of(hs: Seq<HeaderView>) -> Option<ContentDispositionView> {
    let raw = values_named(hs, content_disposition_name());
    if raw.len() == 0 {
        None
    } else {
        disposition(raw)
    }
}

/// One of the parameters is a file name.
pub open spec fn has_filename(parameters: Seq<DispositionParamView>) -> bool {
    exists|i: int| 0 <= i < parameters.len() && #[trigger] parameters[i] is Filename
}

/// The headers are those of a nested multipart container: their media type
/// has the top-level type `multipart`.
pub open spec fn is_multipart(hs: Seq<HeaderView>) -> bool {
    match content_type_of(hs) {
        Some(m) => m.top_level == multipart(),
        None => false,
    }
}

/// A part with these headers is kept as a file: always if `always_use_files`
/// is set, and else if it has a disposition that is `attachment` or that
/// holds a file name.
pub open spec fn is_file(hs: Seq<HeaderView>, always_use_files: bool) -> bool {
    always_use_files || match content_disposition_of(hs) {
        Some(cd) => cd.disposition is Attachment || has_filename(cd.parameters),
        None => false,
    }
}

impl Headers {
    /// The media type that the headers declare.
    pub fn content_type(&self) -> (r: Option<Mime>)
        ensures
            mime_view(r) == content_type_of(self@),
    {
        let raw = self.raw("content-type".as_bytes());
        if raw.len() == 0 {
            None
        } else if is_all_ascii(&raw) {
            parse_content_type(&raw)
        } else {
            None
        }
    }

    /// The disposition that the headers declare.
    pub fn content_disposition(&self) -> (r: Option<ContentDisposition>)
        ensures
            disposition_view(r) == content_disposition_of(self@),
    {
        let raw = self.raw("content-disposition".as_bytes());
        if raw.len() == 0 {
            None
        } else {
            parse_content_disposition(&raw)
        }
    }

    /// Whether these are the headers of a nested multipart container.
    pub fn is_multipart(&self) -> (r: bool)
        ensures
            r == is_multipart(self@),
    {
        match self.content_type() {
            Some(m) => same_bytes(m.top_level.as_slice(), "multipart".as_bytes()),
            None => false,
        }
    }

    /// Whether a part with these headers is kept as a file.
    pub fn is_file(&self, always_use_files: bool) -> (r: bool)
        ensures
            r == is_file(self@, always_use_files),
    {
        if always_use_files {
            return true;
        }
        match self.content_disposition() {
            Some(cd) => {
                match cd.disposition {
                    DispositionType::Attachment => true,
                    _ => holds_filename(&cd.parameters),
                }
            },
            None => false,
        }
    }
}

/// Whether one of the parameters is a file name.
pub fn holds_filename(parameters: &Vec<DispositionParam>) -> (r: bool)
    ensures
        r == has_filename(parameters@.map_values(|p: DispositionParam| p@)),
{
    let ghost views = parameters@.map_values(|p: DispositionParam| p@);
    let mut i: usize = 0;
    while i < parameters.len()
        invariant
            i <= parameters.len(),
            views == parameters@.map_values(|p: DispositionParam| p@),
            forall|k: int| 0 <= k < i ==> !(#[trigger] views[k] is Filename),
        decreases parameters.len() - i,
    {
        match &parameters[i] {
            DispositionParam::Filename(_, _) => {
                assert(views[i as int] is Filename);
                return true;
            },
            _ => {},
        }
        i += 1;
    }
    false
}

} // verus!
