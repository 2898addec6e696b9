use mime_multipart::{
    read_multipart, read_multipart_body, DispositionParam, Error, HeaderError, Headers, Node,
};

/// Reads the request line and the headers that open `input`; returns the
/// headers and where the body begins.
fn request_head(input: &[u8]) -> (Headers, usize) {
    let mut room = [httparse::EMPTY_HEADER; 16];
    let mut request = httparse::Request::new(&mut room);
    let start = match request.parse(input).unwrap() {
        httparse::Status::Complete(n) => n,
        httparse::Status::Partial => panic!("incomplete request head"),
    };
    let mut headers = Headers::new();
    for h in request.headers.iter() {
        headers.push(h.name.as_bytes().to_vec(), h.value.to_vec());
    }
    (headers, start)
}

fn headers_with(pairs: &[(&str, &str)]) -> Headers {
    let mut headers = Headers::new();
    for (name, value) in pairs {
        headers.push(name.as_bytes().to_vec(), value.as_bytes().to_vec());
    }
    headers
}

fn disposition_name(headers: &Headers) -> Option<Vec<u8>> {
    let cd = headers.content_disposition().unwrap();
    for p in cd.parameters.iter() {
        if let DispositionParam::Ext(token, value) = p {
            if token.as_slice() == b"name" {
                return Some(value.clone());
            }
        }
    }
    None
}

#[test]
fn parser() {
    let input = b"POST / HTTP/1.1\r\n\
                  Host: example.domain\r\n\
                  Content-Type: multipart/mixed; boundary=\"abcdefg\"\r\n\
                  Content-Length: 1000\r\n\
                  \r\n\
                  --abcdefg\r\n\
                  Content-Type: application/json\r\n\
                  \r\n\
                  {\r\n\
                    \"id\": 15\r\n\
                  }\r\n\
                  --abcdefg\r\n\
                  Content-Disposition: Attachment; filename=\"image.gif\"\r\n\
                  Content-Type: image/gif\r\n\
                  \r\n\
                  This is a file\r\n\
                  with two lines\r\n\
                  --abcdefg\r\n\
                  Content-Disposition: Attachment; filename=\"file.txt\"\r\n\
                  \r\n\
                  This is a file\r\n\
                  --abcdefg--";

    let (headers, start) = request_head(input);

    match read_multipart_body(&input[start..], &headers, false) {
        Ok(nodes) => {
            assert_eq!(nodes.len(), 3);

            if let Node::Part(ref part) = nodes[0] {
                assert_eq!(
                    part.body,
                    b"{\r\n\
                                          \"id\": 15\r\n\
                                        }"
                );
            } else {
                panic!("1st node of wrong type");
            }

            if let Node::File(ref filepart) = nodes[1] {
                assert_eq!(filepart.size, Some(30));
                assert_eq!(filepart.filename().unwrap().unwrap(), "image.gif");
                let mime = filepart.content_type().unwrap();
                assert_eq!(mime.top_level, b"image");
                assert_eq!(mime.sub_level, b"gif");
                assert!(mime.params.is_empty());
                assert_eq!(filepart.content, b"This is a file\r\nwith two lines");
            } else {
                panic!("2nd node of wrong type");
            }

            if let Node::File(ref filepart) = nodes[2] {
                assert_eq!(filepart.size, Some(14));
                assert_eq!(filepart.filename().unwrap().unwrap(), "file.txt");
                assert!(filepart.content_type().is_none());
                assert_eq!(filepart.content, b"This is a file");
            } else {
                panic!("3rd node of wrong type");
            }
        }
        Err(err) => panic!("{:?}", err),
    }
}

#[test]
fn mixed_parser() {
    let input = b"POST / HTTP/1.1\r\n\
                  Host: example.domain\r\n\
                  Content-Type: multipart/form-data; boundary=AaB03x\r\n\
                  Content-Length: 1000\r\n\
                  \r\n\
                  --AaB03x\r\n\
                  Content-Disposition: form-data; name=\"submit-name\"\r\n\
                  \r\n\
                  Larry\r\n\
                  --AaB03x\r\n\
                  Content-Disposition: form-data; name=\"files\"\r\n\
                  Content-Type: multipart/mixed; boundary=BbC04y\r\n\
                  \r\n\
                  --BbC04y\r\n\
                  Content-Disposition: file; filename=\"file1.txt\"\r\n\
                  \r\n\
                  ... contents of file1.txt ...\r\n\
                  --BbC04y\r\n\
                  Content-Disposition: file; filename=\"awesome_image.gif\"\r\n\
                  Content-Type: image/gif\r\n\
                  Content-Transfer-Encoding: binary\r\n\
                  \r\n\
                  ... contents of awesome_image.gif ...\r\n\
                  --BbC04y--\r\n\
                  --AaB03x--";

    let (headers, start) = request_head(input);

    match read_multipart_body(&input[start..], &headers, false) {
        Ok(nodes) => {
            assert_eq!(nodes.len(), 2);

            if let Node::Part(ref part) = nodes[0] {
                let cd_name = disposition_name(&part.headers).unwrap();
                assert_eq!(cd_name, b"submit-name");
                assert_eq!(::std::str::from_utf8(&*part.body).unwrap(), "Larry");
            } else {
                panic!("1st node of wrong type");
            }

            if let Node::Multipart((ref headers, ref subnodes)) = nodes[1] {
                let cd_name = disposition_name(headers).unwrap();
                assert_eq!(cd_name, b"files");

                assert_eq!(subnodes.len(), 2);

                if let Node::File(ref filepart) = subnodes[0] {
                    assert_eq!(filepart.size, Some(29));
                    assert_eq!(filepart.filename().unwrap().unwrap(), "file1.txt");
                    assert!(filepart.content_type().is_none());
                    assert_eq!(filepart.content, b"... contents of file1.txt ...");
                } else {
                    panic!("1st subnode of wrong type");
                }

                if let Node::File(ref filepart) = subnodes[1] {
                    assert_eq!(filepart.size, Some(37));
                    assert_eq!(filepart.filename().unwrap().unwrap(), "awesome_image.gif");
                    let mime = filepart.content_type().unwrap();
                    assert_eq!(mime.top_level, b"image");
                    assert_eq!(mime.sub_level, b"gif");
                    assert!(mime.params.is_empty());
                    assert_eq!(filepart.content, b"... contents of awesome_image.gif ...");
                } else {
                    panic!("2st subnode of wrong type");
                }
            } else {
                panic!("2st node of wrong type");
            }
        }
        Err(err) => panic!("{:?}", err),
    }
}

#[test]
fn headers_in_the_stream() {
    let input = b"Host: example.domain\r\n\
                  Content-Type: multipart/mixed; boundary=xyz\r\n\
                  \r\n\
                  preamble that is skipped\r\n\
                  --xyz\r\n\
                  X-Note: one\r\n\
                  \r\n\
                  first\r\n\
                  --xyz\r\n\
                  X-Note: two\r\n\
                  \r\n\
                  second\r\n\
                  --xyz--\r\n";
    let nodes = read_multipart(input, false).unwrap();
    assert_eq!(nodes.len(), 2);
    match (&nodes[0], &nodes[1]) {
        (Node::Part(a), Node::Part(b)) => {
            assert_eq!(a.body, b"first");
            assert_eq!(a.headers.fields.len(), 1);
            assert_eq!(a.headers.fields[0].name, b"X-Note");
            assert_eq!(a.headers.fields[0].value, b"one");
            assert_eq!(b.body, b"second");
            assert_eq!(b.headers.fields[0].value, b"two");
        }
        _ => panic!("nodes of wrong type"),
    }
}

#[test]
fn line_feed_alone_is_a_terminator() {
    let headers = headers_with(&[("Content-Type", "multipart/mixed; boundary=xyz")]);
    let input = b"--xyz\nA: b\n\nbody\nwith lines\n--xyz\nC: d\n\nmore\n--xyz--";
    let nodes = read_multipart_body(input, &headers, false).unwrap();
    assert_eq!(nodes.len(), 2);
    match (&nodes[0], &nodes[1]) {
        (Node::Part(a), Node::Part(b)) => {
            assert_eq!(a.body, b"body\nwith lines");
            assert_eq!(b.body, b"more");
        }
        _ => panic!("nodes of wrong type"),
    }
}

#[test]
fn always_use_files_makes_every_part_a_file() {
    let headers = headers_with(&[("Content-Type", "multipart/mixed; boundary=xyz")]);
    let input = b"--xyz\r\nA: b\r\n\r\nbody\r\n--xyz--";
    let nodes = read_multipart_body(input, &headers, true).unwrap();
    assert_eq!(nodes.len(), 1);
    match &nodes[0] {
        Node::File(f) => {
            assert_eq!(f.size, Some(4));
            assert_eq!(f.content, b"body");
            assert_eq!(f.path, "");
            assert!(f.tempdir().is_none());
        }
        _ => panic!("node of wrong type"),
    }
}

#[test]
fn a_file_name_makes_a_part_a_file() {
    let headers = headers_with(&[("Content-Type", "multipart/form-data; boundary=xyz")]);
    let input = b"--xyz\r\nContent-Disposition: form-data; name=\"f\"; filename=\"a.txt\"\r\n\r\nbody\r\n--xyz\r\nContent-Disposition: form-data; name=\"g\"\r\n\r\ninline\r\n--xyz--";
    let nodes = read_multipart_body(input, &headers, false).unwrap();
    assert_eq!(nodes.len(), 2);
    assert!(matches!(nodes[0], Node::File(_)));
    assert!(matches!(nodes[1], Node::Part(_)));
}

#[test]
fn a_container_ends_its_level() {
    let headers = headers_with(&[("Content-Type", "multipart/mixed; boundary=out")]);
    let input = b"--out\r\nContent-Type: multipart/mixed; boundary=in\r\n\r\n--in\r\nA: b\r\n\r\nx\r\n--in--\r\n--out\r\nA: b\r\n\r\nafter\r\n--out--";
    let nodes = read_multipart_body(input, &headers, false).unwrap();
    assert_eq!(nodes.len(), 1);
    match &nodes[0] {
        Node::Multipart((_, children)) => assert_eq!(children.len(), 1),
        _ => panic!("node of wrong type"),
    }
}

#[test]
fn errors_of_the_headers() {
    let none = Headers::new();
    assert!(matches!(
        read_multipart_body(b"--xyz\r\n", &none, false),
        Err(Error::NoContentType)
    ));
    let text = headers_with(&[("Content-Type", "text/plain")]);
    assert!(matches!(read_multipart_body(b"--xyz\r\n", &text, false), Err(Error::NotMultipart)));
    let bare = headers_with(&[("Content-Type", "multipart/mixed")]);
    assert!(matches!(
        read_multipart_body(b"--xyz\r\n", &bare, false),
        Err(Error::BoundaryNotSpecified)
    ));
}

#[test]
fn errors_of_a_truncated_body() {
    let headers = headers_with(&[("Content-Type", "multipart/mixed; boundary=xyz")]);
    let attachment = b"--xyz\r\nContent-Disposition: attachment\r\n\r\nbody";
    let cases: Vec<(&[u8], Error)> = vec![
        (b"no boundary here", Error::EofBeforeFirstBoundary),
        (b"--xyz", Error::NoCrLfAfterBoundary),
        (b"--xyz\r", Error::NoCrLfAfterBoundary),
        (b"--xyzabc", Error::NoCrLfAfterBoundary),
        (b"--xyz\r\nA: b\r\n", Error::EofInPartHeaders),
        (b"--xyz\r\nA: b\r\n\r\nbody", Error::EofInPart),
        (b"--xyz\r\nA: b\r\n\r\nbody\r\n--xy", Error::EofInPart),
        (attachment, Error::EofInFile),
        (b"--xyz\r\nA: b\r\n\r\nbody\r\n--xyz", Error::NoCrLfAfterBoundary),
        (b"--xyz\r\nA: b\r\n\r\nbody\r\n--xyz-", Error::NoCrLfAfterBoundary),
    ];
    for (input, expected) in cases {
        let got = read_multipart_body(input, &headers, false);
        match got {
            Err(e) => assert_eq!(format!("{:?}", e), format!("{:?}", expected)),
            Ok(_) => panic!("a truncated body was read"),
        }
    }
    assert!(matches!(
        read_multipart(b"Content-Type: multipart/mixed; boundary=xyz\r\n", false),
        Err(Error::EofInMainHeaders)
    ));
}

#[test]
fn errors_of_the_part_headers() {
    let headers = headers_with(&[("Content-Type", "multipart/mixed; boundary=xyz")]);
    let five = b"--xyz\r\nA: 1\r\nB: 2\r\nC: 3\r\nD: 4\r\nE: 5\r\n\r\nbody\r\n--xyz--";
    assert!(matches!(read_multipart_body(five, &headers, false), Err(Error::PartialHeaders)));
    let four = b"--xyz\r\nA: 1\r\nB: 2\r\nC: 3\r\nD: 4\r\n\r\nbody\r\n--xyz--";
    assert_eq!(read_multipart_body(four, &headers, false).unwrap().len(), 1);
    let bad_name = b"--xyz\r\nA b: 1\r\n\r\nbody\r\n--xyz--";
    assert!(matches!(
        read_multipart_body(bad_name, &headers, false),
        Err(Error::Httparse(HeaderError::HeaderName))
    ));
    let bad_value = b"--xyz\r\nA: \x01\r\n\r\nbody\r\n--xyz--";
    assert!(matches!(
        read_multipart_body(bad_value, &headers, false),
        Err(Error::Httparse(HeaderError::HeaderValue))
    ));
}

#[test]
fn reading_stops_at_the_innermost_final_boundary() {
    let headers = headers_with(&[("Content-Type", "multipart/form-data; boundary=AaB03x")]);
    let input: &[u8] = b"--AaB03x\r\n\
                  Content-Disposition: form-data; name=\"files\"\r\n\
                  Content-Type: multipart/mixed; boundary=BbC04y\r\n\
                  \r\n\
                  --BbC04y\r\n\
                  Content-Disposition: file; filename=\"file1.txt\"\r\n\
                  \r\n\
                  ... contents of file1.txt ...\r\n\
                  --BbC04y--\r\n\
                  --AaB03x--";
    let end_of_inner = input.len() - b"\r\n--AaB03x--".len();
    assert!(input[..end_of_inner].ends_with(b"--BbC04y--"));
    for t in end_of_inner..=input.len() {
        let nodes = read_multipart_body(&input[..t], &headers, false).unwrap();
        assert_eq!(nodes.len(), 1);
        match &nodes[0] {
            Node::Multipart((_, children)) => assert_eq!(children.len(), 1),
            _ => panic!("node of wrong type"),
        }
    }
    for t in 0..end_of_inner {
        match read_multipart_body(&input[..t], &headers, false) {
            Ok(_) => panic!("read a body cut off at {}", t),
            Err(
                Error::EofBeforeFirstBoundary
                | Error::NoCrLfAfterBoundary
                | Error::EofInPartHeaders
                | Error::EofInFile
                | Error::EofInPart,
            ) => {}
            Err(e) => panic!("cut off at {}: {:?}", t, e),
        }
    }
}

#[test]
fn what_stands_around_the_body_is_skipped() {
    let headers = headers_with(&[("Content-Type", "multipart/mixed; boundary=xyz")]);
    let input = b"a preamble with --xy in it\r\n--xyz\r\nA: b\r\n\r\nbody\r\n--xyz--\r\nan epilogue\r\n--xyz\r\n";
    let nodes = read_multipart_body(input, &headers, false).unwrap();
    assert_eq!(nodes.len(), 1);
    match &nodes[0] {
        Node::Part(p) => assert_eq!(p.body, b"body"),
        _ => panic!("node of wrong type"),
    }
}
