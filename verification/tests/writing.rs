use mime_multipart::{
    read_multipart_body, write_chunk, write_multipart, write_multipart_chunked, Error, FilePart,
    Headers, Node, Part,
};

fn headers_of(pairs: &[(&str, &str)]) -> Headers {
    let mut headers = Headers::new();
    for (name, value) in pairs {
        headers.push(name.as_bytes().to_vec(), value.as_bytes().to_vec());
    }
    headers
}

fn part(pairs: &[(&str, &str)], body: &[u8]) -> Node {
    Node::Part(Part { headers: headers_of(pairs), body: body.to_vec() })
}

fn file(pairs: &[(&str, &str)], content: &[u8]) -> Node {
    let mut f = FilePart::new(headers_of(pairs), "/tmp/some/file");
    f.content = content.to_vec();
    Node::File(f)
}

/// Takes a chunked body apart: the payloads of its chunks, up to and
/// without the chunk that ends it, and what stands behind that chunk.
fn payloads(mut body: &[u8]) -> (Vec<Vec<u8>>, Vec<u8>) {
    let mut found = Vec::new();
    loop {
        let line_end = body.windows(2).position(|w| w == b"\r\n").unwrap();
        let size = usize::from_str_radix(std::str::from_utf8(&body[..line_end]).unwrap(), 16).unwrap();
        let start = line_end + 2;
        let payload = body[start..start + size].to_vec();
        assert_eq!(&body[start + size..start + size + 2], b"\r\n");
        body = &body[start + size + 2..];
        if size == 0 {
            return (found, body.to_vec());
        }
        found.push(payload);
    }
}

#[test]
fn write_multipart_writes_the_exact_bytes() {
    let nodes = vec![
        part(&[("Content-Type", "text/plain"), ("X-Order", "1")], b"hello"),
        file(&[("Content-Disposition", "attachment; filename=\"a.bin\"")], b"\x00\x01\r\n\x02"),
    ];
    let mut out = b"already there|".to_vec();
    let count = write_multipart(&mut out, &b"BOUND".to_vec(), &nodes).unwrap();
    let expected: &[u8] = b"--BOUND\r\n\
        Content-Type: text/plain\r\n\
        X-Order: 1\r\n\
        \r\n\
        hello\r\n\
        --BOUND\r\n\
        Content-Disposition: attachment; filename=\"a.bin\"\r\n\
        \r\n\
        \x00\x01\r\n\x02\r\n\
        --BOUND--";
    assert_eq!(&out[14..], expected);
    assert_eq!(&out[..14], b"already there|");
    assert_eq!(count, expected.len());
}

#[test]
fn write_multipart_of_nothing_is_the_final_boundary() {
    let mut out = Vec::new();
    let count = write_multipart(&mut out, &b"b".to_vec(), &Vec::new()).unwrap();
    assert_eq!(out, b"--b--");
    assert_eq!(count, 5);
}

#[test]
fn write_multipart_writes_a_container_with_its_own_boundary() {
    let inner = vec![part(&[("A", "b")], b"x")];
    let nodes = vec![Node::Multipart((
        headers_of(&[("Content-Type", "multipart/mixed; boundary=in")]),
        inner,
    ))];
    let mut out = Vec::new();
    let count = write_multipart(&mut out, &b"out".to_vec(), &nodes).unwrap();
    let expected: &[u8] = b"--out\r\n\
        Content-Type: multipart/mixed; boundary=in\r\n\
        \r\n\
        ----in\r\n\
        A: b\r\n\
        \r\n\
        x\r\n\
        ----in--\r\n\
        --out--";
    assert_eq!(out, expected);
    assert_eq!(count, expected.len());
}

#[test]
fn write_multipart_fails_on_a_container_without_boundary() {
    let nodes = vec![
        part(&[("A", "b")], b"x"),
        Node::Multipart((headers_of(&[("Content-Type", "multipart/mixed")]), Vec::new())),
    ];
    let mut out = Vec::new();
    assert!(matches!(
        write_multipart(&mut out, &b"out".to_vec(), &nodes),
        Err(Error::BoundaryNotSpecified)
    ));
    assert_eq!(out, b"--out\r\nA: b\r\n\r\nx\r\n--out\r\n");

    let plain = vec![Node::Multipart((headers_of(&[("Content-Type", "text/plain")]), Vec::new()))];
    assert!(matches!(
        write_multipart(&mut Vec::new(), &b"out".to_vec(), &plain),
        Err(Error::NotMultipart)
    ));
    let none = vec![Node::Multipart((Headers::new(), Vec::new()))];
    assert!(matches!(
        write_multipart_chunked(&mut Vec::new(), &b"out".to_vec(), &none),
        Err(Error::NoContentType)
    ));
}

#[test]
fn what_is_written_before_a_failure() {
    // Nothing beyond the boundary line of a container without headers.
    let none = vec![Node::Multipart((Headers::new(), Vec::new()))];
    let mut out = b"kept".to_vec();
    assert!(matches!(
        write_multipart(&mut out, &b"B".to_vec(), &none),
        Err(Error::NoContentType)
    ));
    assert_eq!(out, b"kept--B\r\n");

    // The same in chunks, and no chunk that ends the body.
    let mut out = b"kept".to_vec();
    assert!(matches!(
        write_multipart_chunked(&mut out, &b"B".to_vec(), &none),
        Err(Error::NoContentType)
    ));
    assert_eq!(out, b"kept2\r\n--\r\n1\r\nB\r\n2\r\n\r\n\r\n");

    // A failure inside a container: the container is opened, the nodes
    // before the failing one are written, and its boundary line.
    let inner = vec![
        part(&[("A", "b")], b"x"),
        Node::Multipart((headers_of(&[("Content-Type", "text/plain")]), Vec::new())),
        part(&[("C", "d")], b"never written"),
    ];
    let nodes = vec![
        part(&[("E", "f")], b"first"),
        Node::Multipart((headers_of(&[("Content-Type", "multipart/mixed; boundary=in")]), inner)),
        part(&[("G", "h")], b"never written"),
    ];
    let mut plain = Vec::new();
    assert!(matches!(
        write_multipart(&mut plain, &b"out".to_vec(), &nodes),
        Err(Error::NotMultipart)
    ));
    let expected: &[u8] = b"--out\r\n\
        E: f\r\n\
        \r\n\
        first\r\n\
        --out\r\n\
        Content-Type: multipart/mixed; boundary=in\r\n\
        \r\n\
        ----in\r\n\
        A: b\r\n\
        \r\n\
        x\r\n\
        ----in\r\n";
    assert_eq!(plain, expected);

    let mut chunked = Vec::new();
    assert!(matches!(
        write_multipart_chunked(&mut chunked, &b"out".to_vec(), &nodes),
        Err(Error::NotMultipart)
    ));
    // No chunk is without payload, so the chunks can be put together by
    // adding the one that would end a body.
    chunked.extend_from_slice(b"0\r\n\r\n");
    let (found, behind) = payloads(&chunked);
    assert!(behind.is_empty());
    assert_eq!(found.concat(), plain);
}

#[test]
fn write_chunk_frames_the_bytes() {
    let mut out = Vec::new();
    write_chunk(&mut out, b"Rust");
    assert_eq!(out, b"4\r\nRust\r\n");

    let mut out = b"x".to_vec();
    write_chunk(&mut out, b"");
    assert_eq!(out, b"x0\r\n\r\n");

    let mut out = Vec::new();
    write_chunk(&mut out, &[7u8; 255]);
    assert_eq!(&out[..4], b"ff\r\n");
    assert_eq!(out.len(), 4 + 255 + 2);

    let mut out = Vec::new();
    write_chunk(&mut out, &[b'a'; 4096 + 10 * 16 + 11]);
    assert_eq!(&out[..6], b"10ab\r\n");

    let mut out = Vec::new();
    write_chunk(&mut out, &[0u8; 16]);
    assert_eq!(&out[..4], b"10\r\n");
}

#[test]
fn write_multipart_chunked_writes_the_exact_bytes() {
    let nodes = vec![part(&[("A", "b")], b"hello, chunked world")];
    let mut out = Vec::new();
    write_multipart_chunked(&mut out, &b"xyz".to_vec(), &nodes).unwrap();
    let expected: &[u8] = b"2\r\n--\r\n\
        3\r\nxyz\r\n\
        2\r\n\r\n\r\n\
        1\r\nA\r\n\
        2\r\n: \r\n\
        1\r\nb\r\n\
        2\r\n\r\n\r\n\
        2\r\n\r\n\r\n\
        14\r\nhello, chunked world\r\n\
        2\r\n\r\n\r\n\
        2\r\n--\r\n\
        3\r\nxyz\r\n\
        2\r\n--\r\n\
        0\r\n\r\n";
    assert_eq!(out, expected);
}

#[test]
fn an_empty_piece_is_no_chunk() {
    let nodes = vec![part(&[("A", "")], b"")];
    let mut out = Vec::new();
    write_multipart_chunked(&mut out, &b"".to_vec(), &nodes).unwrap();
    let expected: &[u8] = b"2\r\n--\r\n\
        2\r\n\r\n\r\n\
        1\r\nA\r\n\
        2\r\n: \r\n\
        2\r\n\r\n\r\n\
        2\r\n\r\n\r\n\
        2\r\n\r\n\r\n\
        2\r\n--\r\n\
        2\r\n--\r\n\
        0\r\n\r\n";
    assert_eq!(out, expected);
}

#[test]
fn chunks_hold_what_write_multipart_writes() {
    let inner = vec![
        file(&[("Content-Disposition", "attachment")], b"inner file"),
        part(&[("A", "b"), ("C", "d")], b""),
    ];
    let nodes = vec![
        part(&[("Content-Type", "text/plain")], b"first"),
        file(&[], &[0u8; 300]),
        Node::Multipart((headers_of(&[("Content-Type", "multipart/mixed; boundary=in")]), inner)),
    ];
    let boundary = b"outer".to_vec();
    let mut plain = Vec::new();
    write_multipart(&mut plain, &boundary, &nodes).unwrap();
    let mut chunked = Vec::new();
    write_multipart_chunked(&mut chunked, &boundary, &nodes).unwrap();
    let (found, behind) = payloads(&chunked);
    assert!(behind.is_empty());
    assert!(found.iter().all(|p| !p.is_empty()));
    assert_eq!(found.concat(), plain);
}

#[test]
fn round_trip() {
    let headers = headers_of(&[("Content-Type", "multipart/form-data; boundary=\"r0undtr1p\"")]);
    let nodes = vec![
        part(&[("Content-Disposition", "form-data; name=\"a\""), ("X-Two", "2")], b"alpha"),
        file(
            &[("Content-Disposition", "form-data; name=\"f\"; filename=\"f.bin\"")],
            b"\r\n--r0undtr1\r\n-- not a boundary \x00\xff",
        ),
        part(&[("Content-Type", "text/plain; charset=utf-8")], b""),
    ];
    let mut bytes = Vec::new();
    write_multipart(&mut bytes, &b"r0undtr1p".to_vec(), &nodes).unwrap();

    for always_use_files in [false, true] {
        let read = read_multipart_body(&bytes, &headers, always_use_files).unwrap();
        assert_eq!(read.len(), nodes.len());
        for (before, after) in nodes.iter().zip(read.iter()) {
            let (hs, body) = match before {
                Node::Part(p) => (&p.headers, &p.body),
                Node::File(f) => (&f.headers, &f.content),
                Node::Multipart(_) => unreachable!(),
            };
            let (read_hs, read_body, is_file) = match after {
                Node::Part(p) => (&p.headers, &p.body, false),
                Node::File(f) => {
                    assert_eq!(f.size, Some(f.content.len()));
                    (&f.headers, &f.content, true)
                }
                Node::Multipart(_) => panic!("a container came back"),
            };
            assert_eq!(read_body, body);
            assert_eq!(read_hs.fields.len(), hs.fields.len());
            for (h, r) in hs.fields.iter().zip(read_hs.fields.iter()) {
                assert_eq!(h.name, r.name);
                assert_eq!(h.value, r.value);
            }
            assert_eq!(is_file, hs.is_file(always_use_files));
        }
    }
    let read = read_multipart_body(&bytes, &headers, false).unwrap();
    assert!(matches!(read[0], Node::Part(_)));
    assert!(matches!(read[1], Node::File(_)));
    assert!(matches!(read[2], Node::Part(_)));
}

#[test]
fn a_written_container_does_not_come_back() {
    let headers = headers_of(&[("Content-Type", "multipart/mixed; boundary=out")]);
    let inner = vec![part(&[("A", "b")], b"x")];
    let nodes = vec![Node::Multipart((
        headers_of(&[("Content-Type", "multipart/mixed; boundary=in")]),
        inner,
    ))];
    let mut bytes = Vec::new();
    write_multipart(&mut bytes, &b"out".to_vec(), &nodes).unwrap();
    assert!(read_multipart_body(&bytes, &headers, false).is_err());
}

#[test]
fn truncation_is_an_error_at_every_point() {
    let headers = headers_of(&[("Content-Type", "multipart/mixed; boundary=cut")]);
    let nodes = vec![
        part(&[("A", "b")], b"first body"),
        file(&[("Content-Disposition", "attachment")], b"second\r\nbody"),
    ];
    let mut bytes = Vec::new();
    write_multipart(&mut bytes, &b"cut".to_vec(), &nodes).unwrap();
    assert_eq!(read_multipart_body(&bytes, &headers, false).unwrap().len(), 2);
    for t in 0..bytes.len() {
        // Right behind a boundary, inside the line terminator of its line,
        // or inside the two hyphens of the final boundary.
        let cut = &bytes[..t];
        let behind_boundary =
            cut.ends_with(b"--cut") || cut.ends_with(b"--cut\r") || cut.ends_with(b"--cut-");
        match read_multipart_body(cut, &headers, false) {
            Ok(_) => panic!("read a body cut off at {}", t),
            Err(Error::NoCrLfAfterBoundary) => assert!(behind_boundary, "cut off at {}", t),
            Err(
                Error::EofBeforeFirstBoundary
                | Error::EofInPartHeaders
                | Error::EofInFile
                | Error::EofInPart,
            ) => assert!(!behind_boundary, "cut off at {}", t),
            Err(e) => panic!("cut off at {}: {:?}", t, e),
        }
    }
}
