use mime_multipart::charset::{charset_decode, decode, find_decoder, Decoder};
use mime_multipart::boundary::{boundary_from, boundary_from_nonce};
use mime_multipart::headers::{into_fields, is_same_name, read_header_block, HeaderBlock};
use mime_multipart::{
    generate_boundary, get_multipart_boundary, DispositionParam, DispositionType, Error, FilePart,
    HeaderError, Headers, Part, Source,
};

fn headers_of(pairs: &[(&str, &str)]) -> Headers {
    let mut headers = Headers::new();
    for (name, value) in pairs {
        headers.push(name.as_bytes().to_vec(), value.as_bytes().to_vec());
    }
    headers
}

#[test]
fn boundary_is_two_hyphens_and_the_declared_value() {
    let quoted = headers_of(&[("Content-Type", "multipart/mixed; boundary=\"abcdefg\"")]);
    assert_eq!(get_multipart_boundary(&quoted).unwrap(), b"--abcdefg");
    let bare = headers_of(&[("Host", "x"), ("content-TYPE", "Multipart/Form-Data; charset=utf-8; boundary=AaB03x")]);
    assert_eq!(get_multipart_boundary(&bare).unwrap(), b"--AaB03x");
    let first_of_two = headers_of(&[("Content-Type", "multipart/mixed; boundary=one; boundary=two")]);
    assert_eq!(get_multipart_boundary(&first_of_two).unwrap(), b"--one");
    let case_kept = headers_of(&[("Content-Type", "multipart/mixed; BOUNDARY=MiXed")]);
    assert_eq!(get_multipart_boundary(&case_kept).unwrap(), b"--MiXed");
    let any_value = headers_of(&[("Content-Type", "multipart/mixed; boundary=utf-8")]);
    assert_eq!(get_multipart_boundary(&any_value).unwrap(), b"--utf-8");
    let first_again = headers_of(&[("Content-Type", "multipart/mixed; boundary=utf-8; boundary=b")]);
    assert_eq!(get_multipart_boundary(&first_again).unwrap(), b"--utf-8");
}

#[test]
fn boundary_errors() {
    assert!(matches!(
        get_multipart_boundary(&Headers::new()),
        Err(Error::NoContentType)
    ));
    let unreadable = headers_of(&[("Content-Type", "no slash here")]);
    assert!(matches!(get_multipart_boundary(&unreadable), Err(Error::NoContentType)));
    let twice = headers_of(&[
        ("Content-Type", "multipart/mixed; boundary=a"),
        ("Content-Type", "multipart/mixed; boundary=a"),
    ]);
    assert!(matches!(get_multipart_boundary(&twice), Err(Error::NoContentType)));
    let beyond_ascii = headers_of(&[("Content-Type", "multipart/mixed; boundary=a; x=\"\u{e9}\"")]);
    assert!(matches!(get_multipart_boundary(&beyond_ascii), Err(Error::NoContentType)));
    let text = headers_of(&[("Content-Type", "text/plain; boundary=a")]);
    assert!(matches!(get_multipart_boundary(&text), Err(Error::NotMultipart)));
    let none = headers_of(&[("Content-Type", "multipart/mixed; charset=utf-8")]);
    assert!(matches!(get_multipart_boundary(&none), Err(Error::BoundaryNotSpecified)));
}

#[test]
fn generated_boundary_is_safe() {
    for _ in 0..50 {
        let boundary = generate_boundary().unwrap();
        assert_eq!(boundary.len(), 68);
        assert!(!boundary.contains(&b'='));
        assert!(!boundary.contains(&b'/'));
        assert!(boundary.iter().all(|b| b.is_ascii_alphanumeric() || *b == b'+' || *b == b'.'));
    }
    assert_ne!(generate_boundary().unwrap(), generate_boundary().unwrap());
}

#[test]
fn boundary_from_nonce_replaces_two_characters() {
    assert_eq!(boundary_from_nonce(b"ab/cd==+/z"), b"ab.cd--+.z");
    assert_eq!(boundary_from_nonce(b""), b"");
    assert_eq!(boundary_from(Some(b"a=/b".to_vec())), Some(b"a-.b".to_vec()));
    assert_eq!(boundary_from(Some(Vec::new())), Some(Vec::new()));
    assert_eq!(boundary_from(None), None);
}

#[test]
fn media_type_of_a_part() {
    let part = Part {
        headers: headers_of(&[("Content-Type", "Text/HTML; Charset=UTF-8; x=\"Quoted Value\"")]),
        body: Vec::new(),
    };
    let mime = part.content_type().unwrap();
    assert_eq!(mime.top_level, b"text");
    assert_eq!(mime.sub_level, b"html");
    assert_eq!(mime.params.len(), 2);
    assert_eq!(mime.params[0].attr, b"charset");
    assert_eq!(mime.params[0].value, b"utf-8");
    assert_eq!(mime.params[1].attr, b"x");
    assert_eq!(mime.params[1].value, b"Quoted Value");
    let none = Part { headers: Headers::new(), body: Vec::new() };
    assert!(none.content_type().is_none());
}

#[test]
fn disposition_and_classification() {
    let attachment = headers_of(&[("Content-Disposition", "ATTACHMENT")]);
    let cd = attachment.content_disposition().unwrap();
    assert!(matches!(cd.disposition, DispositionType::Attachment));
    assert!(cd.parameters.is_empty());
    assert!(attachment.is_file(false));

    let form = headers_of(&[("Content-Disposition", "form-data; name=\"field\"")]);
    let cd = form.content_disposition().unwrap();
    match &cd.disposition {
        DispositionType::Ext(name) => assert_eq!(name, b"form-data"),
        _ => panic!("wrong disposition"),
    }
    match &cd.parameters[0] {
        DispositionParam::Ext(name, value) => {
            assert_eq!(name, b"name");
            assert_eq!(value, b"field");
        }
        _ => panic!("wrong parameter"),
    }
    assert!(!form.is_file(false));
    assert!(form.is_file(true));

    let inline = headers_of(&[("Content-Disposition", "inline; filename=x")]);
    assert!(matches!(inline.content_disposition().unwrap().disposition, DispositionType::Inline));
    assert!(inline.is_file(false));

    assert!(!Headers::new().is_file(false));
    assert!(Headers::new().is_file(true));
    assert!(Headers::new().content_disposition().is_none());

    let container = headers_of(&[("Content-Type", "multipart/mixed; boundary=x")]);
    assert!(container.is_multipart());
    assert!(!attachment.is_multipart());
    assert!(!headers_of(&[("Content-Type", "text/multipart")]).is_multipart());
}

#[test]
fn file_names() {
    let plain = FilePart::new(
        headers_of(&[("Content-Disposition", "attachment; filename=\"image.gif\"")]),
        "",
    );
    assert_eq!(plain.filename().unwrap().unwrap(), "image.gif");

    let latin = FilePart::new(
        headers_of(&[("Content-Disposition", "attachment; filename*=iso-8859-1'en'%A3%20rates")]),
        "",
    );
    assert_eq!(latin.filename().unwrap().unwrap(), "\u{a3} rates");

    let utf8 = FilePart::new(
        headers_of(&[(
            "Content-Disposition",
            "attachment; filename*=utf-8''%e2%82%ac%20rates",
        )]),
        "",
    );
    assert_eq!(utf8.filename().unwrap().unwrap(), "\u{20ac} rates");

    let first_wins = FilePart::new(
        headers_of(&[("Content-Disposition", "attachment; name=n; filename=one; filename=two")]),
        "",
    );
    assert_eq!(first_wins.filename().unwrap().unwrap(), "one");

    let none = FilePart::new(headers_of(&[("Content-Disposition", "attachment; name=n")]), "");
    assert!(none.filename().unwrap().is_none());
    assert!(FilePart::new(Headers::new(), "").filename().unwrap().is_none());

    let unsupported = FilePart::new(
        headers_of(&[("Content-Disposition", "attachment; filename*=shift-jis''abc")]),
        "",
    );
    match unsupported.filename() {
        Err(Error::Decoding(why)) => assert_eq!(why, "Shift_Jis is not supported"),
        other => panic!("{:?}", other),
    }
    let invalid = FilePart::new(
        headers_of(&[("Content-Disposition", "attachment; filename*=us-ascii''%ff")]),
        "",
    );
    assert!(matches!(invalid.filename(), Err(Error::Decoding(_))));
}

#[test]
fn character_sets() {
    assert_eq!(charset_decode(b"US-ASCII", b"plain").unwrap(), "plain");
    assert_eq!(charset_decode(b"US-ASCII", b"ab\xe9").unwrap_err(), "invalid sequence");
    assert_eq!(charset_decode(b"US-ASCII", b"").unwrap(), "");
    assert_eq!(charset_decode(b"ISO-8859-1", b"a\x7f\x80\xff").unwrap(), "a\u{7f}\u{80}\u{ff}");
    assert_eq!(charset_decode(b"ISO-8859-1", b"\xe9").unwrap(), "\u{e9}");
    assert_eq!(charset_decode(b"ISO-8859-2", b"\xa1").unwrap(), "\u{104}");
    assert_eq!(charset_decode(b"ISO-8859-3", b"\xa1").unwrap(), "\u{126}");
    assert_eq!(charset_decode(b"ISO-8859-4", b"\xa2").unwrap(), "\u{138}");
    assert_eq!(charset_decode(b"ISO-8859-5", b"\xa1").unwrap(), "\u{401}");
    assert_eq!(charset_decode(b"ISO-8859-6", b"\xc7").unwrap(), "\u{627}");
    assert_eq!(charset_decode(b"ISO-8859-7", b"\xe1").unwrap(), "\u{3b1}");
    assert_eq!(charset_decode(b"ISO-8859-8", b"\xe0").unwrap(), "\u{5d0}");
    assert_eq!(charset_decode(b"ISO-8859-10", b"\xa1").unwrap(), "\u{104}");
    assert_eq!(charset_decode(b"EUC-JP", b"\xa4\xa2").unwrap(), "\u{3042}");
    assert_eq!(charset_decode(b"ISO-2022-JP", b"\x1b$B$\"\x1b(B").unwrap(), "\u{3042}");
    assert_eq!(charset_decode(b"5", b"\xa4\x40").unwrap(), "\u{4e00}");
    assert_eq!(charset_decode(b"KOI8-R", b"\xc1").unwrap(), "\u{430}");
    assert_eq!(charset_decode(b"UTF-8", b"\xe2\x82\xac").unwrap(), "\u{20ac}");
    assert!(charset_decode(b"UTF-8", b"\xe2\x82").is_err());

    let unsupported: Vec<(&[u8], &str)> = vec![
        (b"ISO-8859-9", "ISO_8859_9 is not supported"),
        (b"Shift-JIS", "Shift_Jis is not supported"),
        (b"ISO-2022-KR", "Iso_2022_Kr is not supported"),
        (b"EUC-KR", "Euc_Kr is not supported"),
        (b"ISO-2022-JP-2", "Iso_2022_Jp_2 is not supported"),
        (b"ISO-8859-6-E", "Iso_8859_6_E is not supported"),
        (b"ISO-8859-6-I", "Iso_8859_6_I is not supported"),
        (b"ISO-8859-8-E", "Iso_8859_8_E is not supported"),
        (b"ISO-8859-8-I", "Iso_8859_8_I is not supported"),
        (b"GB2312", "Gb2312 is not supported"),
        (b"BIG5", "Encoding is not supported"),
        (b"utf-8", "Encoding is not supported"),
        (b"", "Encoding is not supported"),
    ];
    for (name, why) in unsupported {
        assert_eq!(charset_decode(name, b"abc").unwrap_err(), why);
    }
    assert_eq!(find_decoder(b"KOI8-R").unwrap(), Decoder::Koi8R);
    assert_eq!(decode(Decoder::Iso8859_7, b"\xe1\xe2").unwrap(), "\u{3b1}\u{3b2}");
}

#[test]
fn header_blocks() {
    let hs = read_header_block(b"Host: foo.bar\nAccept:   */*  \r\n\r\n", 4).unwrap();
    assert_eq!(hs.fields.len(), 2);
    assert_eq!(hs.fields[0].name, b"Host");
    assert_eq!(hs.fields[0].value, b"foo.bar");
    assert_eq!(hs.fields[1].name, b"Accept");
    assert_eq!(hs.fields[1].value, b"*/*");
    assert_eq!(read_header_block(b"\r\n", 4).unwrap().fields.len(), 0);
    assert!(matches!(read_header_block(b"Host: foo", 4), Err(Error::PartialHeaders)));
    assert!(matches!(read_header_block(b"", 4), Err(Error::PartialHeaders)));
    assert!(matches!(read_header_block(b"A: 1\r\nB: 2\r\n\r\n", 1), Err(Error::PartialHeaders)));
    assert!(matches!(
        read_header_block(b"A: 1\r\r\n", 4),
        Err(Error::Httparse(HeaderError::HeaderValue))
    ));
    assert!(matches!(
        read_header_block(b"\rA: 1\r\n\r\n", 4),
        Err(Error::Httparse(HeaderError::NewLine))
    ));
    assert!(matches!(
        read_header_block(b"A@: 1\r\n\r\n", 4),
        Err(Error::Httparse(HeaderError::HeaderName))
    ));
    assert!(matches!(into_fields(HeaderBlock::Partial), Err(Error::PartialHeaders)));
    assert!(matches!(
        into_fields(HeaderBlock::Invalid(HeaderError::TooManyHeaders)),
        Err(Error::PartialHeaders)
    ));
    assert!(matches!(
        into_fields(HeaderBlock::Invalid(HeaderError::Token)),
        Err(Error::Httparse(HeaderError::Token))
    ));
}

#[test]
fn header_lookup() {
    let hs = headers_of(&[("X-A", "1"), ("x-b", "2"), ("x-a", "3"), ("X-Az", "4")]);
    assert_eq!(hs.len(), 4);
    assert_eq!(hs.raw(b"x-A"), vec![b"1".to_vec(), b"3".to_vec()]);
    assert_eq!(hs.raw(b"X-B"), vec![b"2".to_vec()]);
    assert!(hs.raw(b"x").is_empty());
    assert!(is_same_name(b"Content-Type", b"cONTENT-tYPE"));
    assert!(!is_same_name(b"Content-Type", b"Content_Type"));
    assert!(!is_same_name(b"[", b"{"));
    assert!(!is_same_name(b"@", b"`"));
}

#[test]
fn scanning() {
    let mut source = Source::new(b"12345678");
    let mut out = Vec::new();
    assert_eq!(source.stream_until_token(b"34", &mut out), (2, true));
    assert_eq!(out, b"12");
    assert!(source.peek(b"56"));
    assert!(source.peek(b""));
    assert!(!source.peek(b"57"));
    assert!(!source.peek(b"56789"));
    out.clear();
    assert_eq!(source.stream_until_token(b"78", &mut out), (2, true));
    assert_eq!(out, b"56");
    assert_eq!(source.stream_until_token(b"78", &mut out), (0, false));
    assert_eq!(out, b"56");

    let mut source = Source::new(b"bananas for nana");
    let mut out = b"kept:".to_vec();
    assert_eq!(source.stream_until_token(b"nan", &mut out), (2, true));
    assert_eq!(out, b"kept:ba");
    out.clear();
    assert_eq!(source.stream_until_token(b"nan", &mut out), (7, true));
    assert_eq!(out, b"as for ");
    out.clear();
    assert_eq!(source.stream_until_token(b"nan", &mut out), (1, false));
    assert_eq!(out, b"a");
    assert!(source.peek(b""));
    assert!(!source.peek(b"a"));
}

#[test]
fn scanning_holds_back_the_start_of_a_token_at_the_end() {
    let mut source = Source::new(b"12345na");
    let mut out = Vec::new();
    assert_eq!(source.stream_until_token(b"nan", &mut out), (7, false));
    assert_eq!(out, b"12345");

    let mut source = Source::new(b"xnn");
    let mut out = Vec::new();
    assert_eq!(source.stream_until_token(b"nnan", &mut out), (3, false));
    assert_eq!(out, b"x");

    let mut source = Source::new(b"aaa");
    let mut out = Vec::new();
    assert_eq!(source.stream_until_token(b"aaaa", &mut out), (3, false));
    assert_eq!(out, b"");

    let mut source = Source::new(b"ab");
    let mut out = Vec::new();
    assert_eq!(source.stream_until_token(b"b", &mut out), (1, true));
    assert_eq!(out, b"a");
}

#[test]
fn file_parts_and_their_storage() {
    let fresh = FilePart::new(headers_of(&[("A", "b")]), "/some/where");
    assert_eq!(fresh.path, "/some/where");
    assert_eq!(fresh.size, None);
    assert!(fresh.content.is_empty());
    assert!(fresh.tempdir().is_none());
    assert_eq!(fresh.headers.fields[0].name, b"A");

    let mut owned = FilePart::create(
        Headers::new(),
        "/tmp/dir".to_string(),
        "/tmp/dir/file".to_string(),
    );
    assert_eq!(owned.path, "/tmp/dir/file");
    assert_eq!(owned.size, None);
    assert_eq!(owned.tempdir().unwrap(), "/tmp/dir");
    owned.size = Some(3);
    owned.content = b"abc".to_vec();
    owned.do_not_delete_on_drop();
    assert!(owned.tempdir().is_none());
    assert_eq!(owned.path, "/tmp/dir/file");
    assert_eq!(owned.size, Some(3));
    assert_eq!(owned.content, b"abc");

    let captured = FilePart::captured(Headers::new(), b"12345".to_vec());
    assert_eq!(captured.size, Some(5));
    assert_eq!(captured.content(), b"12345");
    assert_eq!(captured.path, "");
    assert!(captured.tempdir().is_none());
    assert_eq!(captured.headers().len(), 0);
    assert_eq!(captured.size(), Some(5));
    assert_eq!(captured.path(), "");
    assert_eq!(owned.path(), "/tmp/dir/file");
    assert_eq!(fresh.size(), None);
}
