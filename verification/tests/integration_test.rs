use xenna::error::{Error, SyntaxError};
use xenna::reader::{EventReader, XmlEvent};
use xenna::token::{Punct, TokenKind};

const XML: &str = r#"<?xml version="1.0" encoding="UTF-8"?>
    <note>
        <to>Tove</to>
        <from>Jani</from>
        <heading>Reminder</heading>
        <body>Don't forget me this weekend!</body>
    </note>
"#;

fn reader_over(s: &str) -> EventReader {
    EventReader::from_chunks(vec![s.as_bytes().to_vec()])
}

fn next_ok(reader: &mut EventReader) -> XmlEvent {
    reader.next_event().expect("well-formed input must yield an event")
}

fn next_err(reader: &mut EventReader) -> Error {
    loop {
        match reader.next_event() {
            Ok(ev) => {
                assert!(ev != XmlEvent::Eof, "reached Eof without an error");
            }
            Err(e) => return e,
        }
    }
}

#[test]
fn can_parse_simple_xml() {
    let mut reader = reader_over(XML);

    loop {
        let event = reader.next_event().unwrap();
        println!("{event:?}");

        if event == XmlEvent::Eof {
            return;
        }
    }
}

#[test]
fn simple_document_event_sequence() {
    let mut r = reader_over("<?xml version=\"1.0\" encoding=\"UTF-8\"?><a><b>text</b></a>");

    match next_ok(&mut r) {
        XmlEvent::Xml(d) => {
            assert_eq!(d.version, "1.0");
            assert_eq!(d.encoding.as_deref(), Some("UTF-8"));
            assert_eq!(d.standalone, None);
        }
        other => panic!("expected the declaration, got {other:?}"),
    }
    match next_ok(&mut r) {
        XmlEvent::STag(t) => {
            assert_eq!(t.name, "a");
            assert!(t.attrs.is_empty());
        }
        other => panic!("expected <a>, got {other:?}"),
    }
    match next_ok(&mut r) {
        XmlEvent::STag(t) => assert_eq!(t.name, "b"),
        other => panic!("expected <b>, got {other:?}"),
    }
    match next_ok(&mut r) {
        XmlEvent::Text(t) => assert_eq!(t, "text"),
        other => panic!("expected text, got {other:?}"),
    }
    match next_ok(&mut r) {
        XmlEvent::ETag(t) => assert_eq!(t.name, "b"),
        other => panic!("expected </b>, got {other:?}"),
    }
    match next_ok(&mut r) {
        XmlEvent::ETag(t) => assert_eq!(t.name, "a"),
        other => panic!("expected </a>, got {other:?}"),
    }
    assert_eq!(next_ok(&mut r), XmlEvent::Eof);
    // Further calls keep returning Eof without consuming or erroring.
    assert_eq!(next_ok(&mut r), XmlEvent::Eof);
    assert_eq!(next_ok(&mut r), XmlEvent::Eof);
}

#[test]
fn mismatched_end_tag_is_an_error_before_eof() {
    let mut r = reader_over("<a></b>");
    let e = next_err(&mut r);
    assert_eq!(
        e,
        Error::Syntax(SyntaxError::UnexpectedDelimiter(TokenKind::Punct(Punct::ETagOpen)))
    );
}

#[test]
fn unterminated_comment_is_an_unclosed_delimiter() {
    let mut r = reader_over("<!-- unterminated");
    let e = next_err(&mut r);
    assert_eq!(
        e,
        Error::Syntax(SyntaxError::UnclosedDelimiter(TokenKind::Punct(Punct::CommClose)))
    );
}

#[test]
fn double_hyphen_in_comment_is_an_error_at_the_hyphens() {
    // The error comes from the `--` inside the body, not from the later
    // `-->`: the body rule refuses the second hyphen, and the close
    // punctuation is then missing at that position.
    let mut r = reader_over("<!--a--b-->");
    let e = next_err(&mut r);
    assert_eq!(
        e,
        Error::Syntax(SyntaxError::MismatchedToken(TokenKind::Punct(Punct::CommClose)))
    );

    // The same body without the inner `--` is a fine comment.
    let mut ok = reader_over("<!--a-b--><r/>");
    match next_ok(&mut ok) {
        XmlEvent::Comment(c) => assert_eq!(c, "a-b"),
        other => panic!("expected a comment, got {other:?}"),
    }
}

#[test]
fn attributes_parse_from_both_quote_styles_in_order() {
    let mut r = reader_over("<a x=\"1\" y='2'/>");
    match next_ok(&mut r) {
        XmlEvent::EmptyElem(t) => {
            assert_eq!(t.name, "a");
            assert_eq!(t.attrs.len(), 2);
            assert_eq!(t.attrs[0].name, "x");
            assert_eq!(t.attrs[0].value, "1");
            assert_eq!(t.attrs[1].name, "y");
            assert_eq!(t.attrs[1].value, "2");
        }
        other => panic!("expected an empty-element tag, got {other:?}"),
    }
    assert_eq!(next_ok(&mut r), XmlEvent::Eof);
}

#[test]
fn partial_cdata_close_is_legal_text() {
    let mut r = reader_over("<r>a]]b</r>");
    match next_ok(&mut r) {
        XmlEvent::STag(t) => assert_eq!(t.name, "r"),
        other => panic!("expected <r>, got {other:?}"),
    }
    match next_ok(&mut r) {
        XmlEvent::Text(t) => assert_eq!(t, "a]]b"),
        other => panic!("expected text, got {other:?}"),
    }
}

#[test]
fn full_cdata_close_in_text_is_rejected() {
    let mut r = reader_over("<r>a]]>b</r>");
    match next_ok(&mut r) {
        XmlEvent::STag(t) => assert_eq!(t.name, "r"),
        other => panic!("expected <r>, got {other:?}"),
    }
    // The text stops before the `>` that would complete `]]>`, and the
    // leftover `>` matches no construct.
    match next_ok(&mut r) {
        XmlEvent::Text(t) => assert_eq!(t, "a]]"),
        other => panic!("expected text, got {other:?}"),
    }
    assert!(r.next_event().is_err());
}
