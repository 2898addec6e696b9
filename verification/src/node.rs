//! The tree of parts: parts kept in memory, parts kept as files, and nested
//! multipart containers.

use vstd::prelude::*;
use crate::bytes::to_vec;
use crate::charset::{charset_decode, charset_decoded};
use crate::error::Error;
use crate::headers::{HeaderView, Headers};
use crate::mime::{
    content_disposition_of, content_type_of, mime_view, DispositionParam, DispositionParamView,
    Mime,
};

verus! {

/// A part that is not a file: its content is its body.
#[derive(Debug)]
pub struct Part {
    /// The headers of the part.
    pub headers: Headers,
    /// The content of the part.
    pub body: Vec<u8>,
}

/// A part that is a file.  The library holds the content of the file in
/// memory; where the file lies, and who is to remove it, is the caller's to
/// record here and to act on.
#[derive(Debug)]
pub struct FilePart {
    /// The headers of the part.
    pub headers: Headers,
    /// Where the file lies; empty until the content has been stored.
    pub path: String,
    /// The size of the file.  It is known once a part has been read; it is
    /// not needed to write one.
    pub size: Option<usize>,
    /// The content of the file.
    pub content: Vec<u8>,
    /// The temporary directory that was made for the file and is to be
    /// removed with it, if the part owns its storage.
    tempdir: Option<String>,
}

/// A part of a multipart body.
#[derive(Debug)]
pub enum Node {
    /// A part in memory.
    Part(Part),
    /// A part that is a file.
    File(FilePart),
    /// A nested multipart container: its headers and its parts.
    Multipart((Headers, Vec<Node>)),
}

/// What a part in memory holds.
pub struct PartView {
    pub headers: Seq<HeaderView>,
    pub body: Seq<u8>,
}

/// What a file part holds.
pub struct FilePartView {
    pub headers: Seq<HeaderView>,
    pub path: Seq<char>,
    pub size: Option<usize>,
    pub content: Seq<u8>,
    pub tempdir: Option<Seq<char>>,
}

/// What a node holds.
pub enum NodeView {
    Part(PartView),
    File(FilePartView),
    Multipart(Seq<HeaderView>, Seq<NodeView>),
}

impl View for Part {
    type V = PartView;

    open spec fn view(&self) -> PartView {
        PartView { headers: self.headers@, body: self.body@ }
    }
}

impl View for FilePart {
    type V = FilePartView;

    closed spec fn view(&self) -> FilePartView {
        FilePartView {
            headers: self.headers@,
            path: self.path@,
            size: self.size,
            content: self.content@,
            tempdir: match self.tempdir {
                Some(dir) => Some(dir@),
                None => None,
            },
        }
    }
}

/// What a node holds.
pub open spec fn node_view(node: Node) -> NodeView
    decreases node,
{
    match node {
        Node::Part(part) => NodeView::Part(part@),
        Node::File(file) => NodeView::File(file@),
        Node::Multipart((headers, children)) => NodeView::Multipart(headers@, nodes_view(children@)),
    }
}

/// What a list of nodes holds.
pub open spec fn nodes_view(nodes: Seq<Node>) -> Seq<NodeView>
    decreases nodes,
{
    if nodes.len() == 0 {
        Seq::empty()
    } else {
        nodes_view(nodes.drop_last()).push(node_view(nodes.last()))
    }
}

impl View for Node {
    type V = NodeView;

    open spec fn view(&self) -> NodeView {
        node_view(*self)
    }
}

/// A list of nodes has as many views as nodes, each the view of its node.
pub proof fn lemma_nodes_view(nodes: Seq<Node>)
    ensures
        nodes_view(nodes).len() == nodes.len(),
        forall|i: int| 0 <= i < nodes.len() ==> #[trigger] nodes_view(nodes)[i] == node_view(nodes[i]),
    decreases nodes.len(),
{
    if nodes.len() > 0 {
        lemma_nodes_view(nodes.drop_last());
    }
}

/// The views of a list with one more node.
pub proof fn lemma_nodes_view_push(nodes: Seq<Node>, node: Node)
    ensures
        nodes_view(nodes.push(node)) == nodes_view(nodes).push(node_view(node)),
{
    assert(nodes.push(node).drop_last() =~= nodes);
}

impl Clone for Part {
    fn clone(&self) -> (r: Self)
        ensures
            r@ == self@,
    {
        Part { headers: self.headers.clone(), body: to_vec(self.body.as_slice()) }
    }
}

impl Clone for FilePart {
    fn clone(&self) -> (r: Self)
        ensures
            r@ == self@,
    {
        FilePart {
            headers: self.headers.clone(),
            path: self.path.clone(),
            size: self.size,
            content: to_vec(self.content.as_slice()),
            tempdir: match &self.tempdir {
                Some(dir) => Some(dir.clone()),
                None => None,
            },
        }
    }
}

impl Clone for Node {
    fn clone(&self) -> (r: Self)
        ensures
            r@ == self@,
        decreases self,
    {
        match self {
            Node::Part(part) => Node::Part(part.clone()),
            Node::File(file) => Node::File(file.clone()),
            Node::Multipart((headers, children)) => {
                let mut copies: Vec<Node> = Vec::new();
                let mut i: usize = 0;
                assert(children@.take(0) =~= Seq::<Node>::empty());
                while i < children.len()
                    invariant
                        i <= children.len(),
                        decreases_to!(self => children),
                        copies@.len() == i,
                        nodes_view(copies@) == nodes_view(children@.take(i as int)),
                    decreases children.len() - i,
                {
                    let copy = children[i].clone();
                    proof {
                        lemma_nodes_view_push(copies@, copy);
                        lemma_nodes_view_push(children@.take(i as int), children@[i as int]);
                        assert(children@.take(i + 1) =~= children@.take(i as int).push(
                            children@[i as int],
                        ));
                    }
                    copies.push(copy);
                    i += 1;
                }
                assert(children@.take(i as int) =~= children@);
                Node::Multipart((headers.clone(), copies))
            },
        }
    }
}

impl Part {
    /// The media type that the headers of the part declare.
    pub fn content_type(&self) -> (r: Option<Mime>)
        ensures
            mime_view(r) == content_type_of(self@.headers),
    {
        self.headers.content_type()
    }
}

/// The character set and the bytes of the first parameter that is a file
/// name.
pub open spec fn first_filename(parameters: Seq<DispositionParamView>) -> Option<(Seq<u8>, Seq<u8>)>
    decreases parameters.len(),
{
    if parameters.len() == 0 {
        None
    } else {
        match parameters[0] {
            DispositionParamView::Filename(charset, bytes) => Some((charset, bytes)),
            DispositionParamView::Ext(_, _) => first_filename(parameters.skip(1)),
        }
    }
}

/// The file name that a list of header fields declares: the first file name
/// of its disposition, decoded.  There is none without a disposition and none
/// without a file name in it; a file name that cannot be decoded gives the
/// message that says why.
pub open spec fn filename_of(hs: Seq<HeaderView>) -> Result<Option<Seq<char>>, Seq<char>> {
    match content_disposition_of(hs) {
        None => Ok(None),
        Some(cd) => match first_filename(cd.parameters) {
            None => Ok(None),
            Some((charset, bytes)) => match charset_decoded(charset, bytes) {
                Ok(name) => Ok(Some(name)),
                Err(why) => Err(why),
            },
        },
    }
}

/// The file name that the headers declare.
pub fn filename_in(headers: &Headers) -> (r: Result<Option<String>, Error>)
    ensures
        match r {
            Ok(Some(name)) => filename_of(headers@) == Ok::<Option<Seq<char>>, Seq<char>>(
                Some(name@),
            ),
            Ok(None) => filename_of(headers@) == Ok::<Option<Seq<char>>, Seq<char>>(None),
            Err(Error::Decoding(why)) => filename_of(headers@) == Err::<
                Option<Seq<char>>,
                Seq<char>,
            >(why@),
            Err(_) => false,
        },
{
    let cd = match headers.content_disposition() {
        Some(cd) => cd,
        None => return Ok(None),
    };
    let ghost parameters = cd@.parameters;
    let mut i: usize = 0;
    assert(parameters.skip(0) =~= parameters);
    while i < cd.parameters.len()
        invariant
            i <= cd.parameters.len(),
            content_disposition_of(headers@) == Some(cd@),
            parameters == cd@.parameters,
            parameters == cd.parameters@.map_values(|p: DispositionParam| p@),
            first_filename(parameters) == first_filename(parameters.skip(i as int)),
        decreases cd.parameters.len() - i,
    {
        assert(parameters.skip(i as int)[0] == cd.parameters@[i as int]@);
        match &cd.parameters[i] {
            DispositionParam::Filename(charset, bytes) => {
                return match charset_decode(charset.as_slice(), bytes.as_slice()) {
                    Ok(name) => Ok(Some(name)),
                    Err(why) => Err(Error::Decoding(why)),
                };
            },
            DispositionParam::Ext(_, _) => {},
        }
        assert(parameters.skip(i as int).skip(1) =~= parameters.skip(i + 1));
        i += 1;
    }
    Ok(None)
}

impl FilePart {
    /// The headers of the part.
    pub fn headers(&self) -> (r: &Headers)
        ensures
            r@ == self@.headers,
    {
        &self.headers
    }

    /// Where the file lies; empty until the content has been stored.
    pub fn path(&self) -> (r: &String)
        ensures
            r@ == self@.path,
    {
        &self.path
    }

    /// The size of the file, if it is known.
    pub fn size(&self) -> (r: Option<usize>)
        ensures
            r == self@.size,
    {
        self.size
    }

    /// The content of the file.
    pub fn content(&self) -> (r: &Vec<u8>)
        ensures
            r@ == self@.content,
    {
        &self.content
    }

    /// A file part for a file that lies at `path`.  The part does not own the
    /// file: nobody is to remove it on the part's account.
    pub fn new(headers: Headers, path: &str) -> (r: FilePart)
        ensures
            r@ == (FilePartView {
                headers: headers@,
                path: path@,
                size: None,
                content: Seq::empty(),
                tempdir: None,
            }),
    {
        FilePart { headers, path: path.to_owned(), size: None, content: Vec::new(), tempdir: None }
    }

    /// A file part for a file that is to be made at `path`, inside the
    /// temporary directory `tempdir` that was made for it.  The part owns its
    /// storage: the file and the directory are to be removed when the part is
    /// disposed of.
    pub fn create(headers: Headers, tempdir: String, path: String) -> (r: FilePart)
        ensures
            r@ == (FilePartView {
                headers: headers@,
                path: path@,
                size: None,
                content: Seq::empty(),
                tempdir: Some(tempdir@),
            }),
    {
        FilePart { headers, path, size: None, content: Vec::new(), tempdir: Some(tempdir) }
    }

    /// A file part that holds `content`, read from a body, of which the size
    /// is therefore known.  The content has not been stored anywhere.
    pub fn captured(headers: Headers, content: Vec<u8>) -> (r: FilePart)
        ensures
            r@ == (FilePartView {
                headers: headers@,
                path: Seq::empty(),
                size: Some(content@.len() as usize),
                content: content@,
                tempdir: None,
            }),
    {
        let size = content.len();
        FilePart { headers, path: String::new(), size: Some(size), content, tempdir: None }
    }

    /// Gives up the ownership of the storage: from now on nobody is to remove
    /// the file or its directory on the part's account.
    pub fn do_not_delete_on_drop(&mut self)
        ensures
            final(self)@ == (FilePartView { tempdir: None, ..old(self)@ }),
    {
        self.tempdir = None;
    }

    /// The temporary directory that is to be removed together with the file
    /// when the part is disposed of; none if the part does not own its
    /// storage.
    pub fn tempdir(&self) -> (r: Option<&String>)
        ensures
            match r {
                Some(dir) => self@.tempdir == Some(dir@),
                None => self@.tempdir is None,
            },
    {
        self.tempdir.as_ref()
    }

    /// The file name that the headers of the part declare.
    pub fn filename(&self) -> (r: Result<Option<String>, Error>)
        ensures
            match r {
                Ok(Some(name)) => filename_of(self@.headers) == Ok::<
                    Option<Seq<char>>,
                    Seq<char>,
                >(Some(name@)),
                Ok(None) => filename_of(self@.headers) == Ok::<Option<Seq<char>>, Seq<char>>(None),
                Err(Error::Decoding(why)) => filename_of(self@.headers) == Err::<
                    Option<Seq<char>>,
                    Seq<char>,
                >(why@),
                Err(_) => false,
            },
    {
        filename_in(&self.headers)
    }

    /// The media type that the headers of the part declare.
    pub fn content_type(&self) -> (r: Option<Mime>)
        ensures
            mime_view(r) == content_type_of(self@.headers),
    {
        self.headers.content_type()
    }
}

} // verus!
