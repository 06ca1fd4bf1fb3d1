use xenna::error::{Error, SyntaxError};
use xenna::reader::{EventReader, XmlEvent};
use xenna::token::rules::Rule;
use xenna::token::{Punct, TokenKind};

fn reader_over(s: &str) -> EventReader {
    EventReader::from_chunks(vec![s.as_bytes().to_vec()])
}

fn first_error(s: &str) -> Error {
    let mut r = reader_over(s);
    loop {
        match r.next_event() {
            Ok(ev) => assert!(ev != XmlEvent::Eof, "reached Eof without an error"),
            Err(e) => return e,
        }
    }
}

#[test]
fn prolog_and_epilog_misc_events() {
    let mut r = reader_over("<?xml version='1.0'?> <!--hello--> <?probe some data?><a/> ");
    match r.next_event().unwrap() {
        XmlEvent::Xml(d) => {
            assert_eq!(d.version, "1.0");
            assert_eq!(d.encoding, None);
            assert_eq!(d.standalone, None);
        }
        other => panic!("expected the declaration, got {other:?}"),
    }
    match r.next_event().unwrap() {
        XmlEvent::S(ws) => assert_eq!(ws, " "),
        other => panic!("expected whitespace, got {other:?}"),
    }
    match r.next_event().unwrap() {
        XmlEvent::Comment(c) => assert_eq!(c, "hello"),
        other => panic!("expected a comment, got {other:?}"),
    }
    match r.next_event().unwrap() {
        XmlEvent::S(ws) => assert_eq!(ws, " "),
        other => panic!("expected whitespace, got {other:?}"),
    }
    match r.next_event().unwrap() {
        XmlEvent::Pi(pi) => assert_eq!(pi.target, "probe"),
        other => panic!("expected a processing instruction, got {other:?}"),
    }
    match r.next_event().unwrap() {
        XmlEvent::EmptyElem(t) => {
            assert_eq!(t.name, "a");
            assert!(t.attrs.is_empty());
        }
        other => panic!("expected an empty-element tag, got {other:?}"),
    }
    match r.next_event().unwrap() {
        XmlEvent::S(ws) => assert_eq!(ws, " "),
        other => panic!("expected whitespace, got {other:?}"),
    }
    assert_eq!(r.next_event().unwrap(), XmlEvent::Eof);
}

#[test]
fn declaration_with_standalone_only() {
    let mut r = reader_over("<?xml version=\"1.0\" standalone='yes'?><a/>");
    match r.next_event().unwrap() {
        XmlEvent::Xml(d) => {
            assert_eq!(d.version, "1.0");
            assert_eq!(d.encoding, None);
            assert_eq!(d.standalone.as_deref(), Some("yes"));
        }
        other => panic!("expected the declaration, got {other:?}"),
    }
}

#[test]
fn declaration_needs_a_version() {
    assert_eq!(
        first_error("<?xml ?><a/>"),
        Error::Syntax(SyntaxError::MismatchedToken(TokenKind::Punct(Punct::VersionKw)))
    );
}

#[test]
fn almost_a_declaration_is_a_processing_instruction() {
    let mut r = reader_over("<?xmlfoo?><a/>");
    match r.next_event().unwrap() {
        XmlEvent::Pi(pi) => assert_eq!(pi.target, "xmlfoo"),
        other => panic!("expected a processing instruction, got {other:?}"),
    }
}

#[test]
fn nested_empty_element_stays_inside_its_parent() {
    let mut r = reader_over("<a><b/><b/></a>");
    match r.next_event().unwrap() {
        XmlEvent::STag(t) => assert_eq!(t.name, "a"),
        other => panic!("expected <a>, got {other:?}"),
    }
    for _ in 0..2 {
        match r.next_event().unwrap() {
            XmlEvent::EmptyElem(t) => assert_eq!(t.name, "b"),
            other => panic!("expected <b/>, got {other:?}"),
        }
    }
    match r.next_event().unwrap() {
        XmlEvent::ETag(t) => assert_eq!(t.name, "a"),
        other => panic!("expected </a>, got {other:?}"),
    }
    assert_eq!(r.next_event().unwrap(), XmlEvent::Eof);
}

#[test]
fn attribute_without_value_is_a_mismatched_equals() {
    assert_eq!(
        first_error("<a x></a>"),
        Error::Syntax(SyntaxError::MismatchedToken(TokenKind::Punct(Punct::Eq)))
    );
}

#[test]
fn attributes_need_whitespace_between_them() {
    assert_eq!(
        first_error("<a x=\"1\"y=\"2\"></a>"),
        Error::Syntax(SyntaxError::MismatchedToken(TokenKind::Punct(Punct::TagClose)))
    );
}

#[test]
fn attribute_value_rejects_a_raw_angle_bracket() {
    assert_eq!(
        first_error("<a x=\"1<2\"></a>"),
        Error::Syntax(SyntaxError::MismatchedToken(TokenKind::Punct(Punct::DQuote)))
    );
}

#[test]
fn unterminated_attribute_value_is_an_unclosed_delimiter() {
    assert_eq!(
        first_error("<a x=\"1"),
        Error::Syntax(SyntaxError::UnclosedDelimiter(TokenKind::Punct(Punct::DQuote)))
    );
}

#[test]
fn unterminated_end_tag_is_an_unclosed_delimiter() {
    assert_eq!(
        first_error("<a></a"),
        Error::Syntax(SyntaxError::UnclosedDelimiter(TokenKind::Punct(Punct::TagClose)))
    );
}

#[test]
fn text_after_the_root_is_an_error() {
    assert_eq!(
        first_error("<a/>junk"),
        Error::Syntax(SyntaxError::MismatchedToken(TokenKind::Eof))
    );
}

#[test]
fn markup_where_an_attribute_should_be_is_an_error() {
    assert_eq!(
        first_error("<a <b></a>"),
        Error::Syntax(SyntaxError::MismatchedToken(TokenKind::Lit(Rule::Name)))
    );
}

#[test]
fn empty_comment_and_empty_attribute_value_are_legal() {
    let mut r = reader_over("<!----><a x=\"\"/>");
    match r.next_event().unwrap() {
        XmlEvent::Comment(c) => assert_eq!(c, ""),
        other => panic!("expected a comment, got {other:?}"),
    }
    match r.next_event().unwrap() {
        XmlEvent::EmptyElem(t) => {
            assert_eq!(t.name, "a");
            assert_eq!(t.attrs.len(), 1);
            assert_eq!(t.attrs[0].name, "x");
            assert_eq!(t.attrs[0].value, "");
        }
        other => panic!("expected an empty-element tag, got {other:?}"),
    }
}

#[test]
fn end_tag_allows_trailing_whitespace() {
    let mut r = reader_over("<a></a >");
    match r.next_event().unwrap() {
        XmlEvent::STag(t) => assert_eq!(t.name, "a"),
        other => panic!("expected <a>, got {other:?}"),
    }
    match r.next_event().unwrap() {
        XmlEvent::ETag(t) => assert_eq!(t.name, "a"),
        other => panic!("expected </a>, got {other:?}"),
    }
    assert_eq!(r.next_event().unwrap(), XmlEvent::Eof);
}

#[test]
fn input_ending_inside_an_element_is_an_unexpected_eof() {
    let mut r = reader_over("<a>text");
    match r.next_event().unwrap() {
        XmlEvent::STag(t) => assert_eq!(t.name, "a"),
        other => panic!("expected <a>, got {other:?}"),
    }
    match r.next_event().unwrap() {
        XmlEvent::Text(t) => assert_eq!(t, "text"),
        other => panic!("expected text, got {other:?}"),
    }
    assert_eq!(r.next_event(), Err(Error::Syntax(SyntaxError::UnexpectedEof)));
}

#[test]
fn a_second_root_element_is_an_error() {
    assert_eq!(
        first_error("<a></a><b/>"),
        Error::Syntax(SyntaxError::MismatchedToken(TokenKind::Eof))
    );
}

#[test]
fn deeply_nested_elements_balance() {
    let mut r = reader_over("<a><b><c></c><c/></b></a>");
    let mut depth = 0i32;
    loop {
        match r.next_event().unwrap() {
            XmlEvent::STag(_) => depth += 1,
            XmlEvent::ETag(_) => depth -= 1,
            XmlEvent::EmptyElem(t) => assert_eq!(t.name, "c"),
            XmlEvent::Eof => break,
            other => panic!("unexpected event {other:?}"),
        }
        assert!(depth >= 0);
    }
    assert_eq!(depth, 0);
}

#[test]
fn colons_and_dots_are_legal_in_names() {
    let mut r = reader_over("<ns:a ns:x=\"1\"><b.c/></ns:a>");
    match r.next_event().unwrap() {
        XmlEvent::STag(t) => {
            assert_eq!(t.name, "ns:a");
            assert_eq!(t.attrs[0].name, "ns:x");
        }
        other => panic!("expected <ns:a>, got {other:?}"),
    }
    match r.next_event().unwrap() {
        XmlEvent::EmptyElem(t) => assert_eq!(t.name, "b.c"),
        other => panic!("expected <b.c/>, got {other:?}"),
    }
    match r.next_event().unwrap() {
        XmlEvent::ETag(t) => assert_eq!(t.name, "ns:a"),
        other => panic!("expected </ns:a>, got {other:?}"),
    }
    assert_eq!(r.next_event().unwrap(), XmlEvent::Eof);
}
