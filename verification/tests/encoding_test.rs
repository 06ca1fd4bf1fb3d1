use xenna::encoding::{decode_char, detect, Decoded, Encoding};
use xenna::error::{Error, IoErrorKind, SyntaxError};
use xenna::reader::{EventReader, XmlEvent};

#[test]
fn detect_recognizes_byte_order_marks() {
    assert_eq!(detect(&[0xFE, 0xFF, 0x00, 0x3C]), (Encoding::Utf16Be, 2));
    assert_eq!(detect(&[0xFF, 0xFE, 0x3C, 0x00]), (Encoding::Utf16Le, 2));
    assert_eq!(detect(&[0xEF, 0xBB, 0xBF, 0x3C]), (Encoding::Utf8, 3));
}

#[test]
fn detect_recognizes_encoded_declaration_openings() {
    assert_eq!(detect(&[0x00, 0x3C, 0x00, 0x3F]), (Encoding::Utf16Be, 0));
    assert_eq!(detect(&[0x3C, 0x00, 0x3F, 0x00]), (Encoding::Utf16Le, 0));
    assert_eq!(detect(b"<?xml"), (Encoding::Ascii, 0));
    assert_eq!(detect(b"<a/>"), (Encoding::Utf8, 0));
    assert_eq!(detect(b""), (Encoding::Utf8, 0));
}

#[test]
fn utf8_decoding_handles_all_widths() {
    assert_eq!(decode_char(Encoding::Utf8, b"A"), Decoded::Scalar('A', 1));
    assert_eq!(decode_char(Encoding::Utf8, &[0xC3, 0xA9]), Decoded::Scalar('\u{E9}', 2));
    assert_eq!(decode_char(Encoding::Utf8, &[0xE2, 0x82, 0xAC]), Decoded::Scalar('\u{20AC}', 3));
    assert_eq!(
        decode_char(Encoding::Utf8, &[0xF0, 0x9D, 0x84, 0x9E]),
        Decoded::Scalar('\u{1D11E}', 4)
    );
}

#[test]
fn utf8_decoding_asks_for_more_bytes_or_rejects() {
    assert_eq!(decode_char(Encoding::Utf8, &[]), Decoded::NeedMore);
    assert_eq!(decode_char(Encoding::Utf8, &[0xC3]), Decoded::NeedMore);
    assert_eq!(decode_char(Encoding::Utf8, &[0xE2, 0x82]), Decoded::NeedMore);
    // A continuation byte cannot lead.
    assert_eq!(decode_char(Encoding::Utf8, &[0x80]), Decoded::Invalid);
    // An overlong encoding is rejected.
    assert_eq!(decode_char(Encoding::Utf8, &[0xC0, 0x80]), Decoded::Invalid);
    // An encoded surrogate is rejected.
    assert_eq!(decode_char(Encoding::Utf8, &[0xED, 0xA0, 0x80]), Decoded::Invalid);
    assert_eq!(decode_char(Encoding::Utf8, &[0xF8]), Decoded::Invalid);
}

#[test]
fn utf16_decoding_handles_surrogate_pairs() {
    assert_eq!(decode_char(Encoding::Utf16Be, &[0x00, 0x41]), Decoded::Scalar('A', 2));
    assert_eq!(decode_char(Encoding::Utf16Le, &[0x41, 0x00]), Decoded::Scalar('A', 2));
    assert_eq!(
        decode_char(Encoding::Utf16Be, &[0xD8, 0x34, 0xDD, 0x1E]),
        Decoded::Scalar('\u{1D11E}', 4)
    );
    assert_eq!(
        decode_char(Encoding::Utf16Le, &[0x34, 0xD8, 0x1E, 0xDD]),
        Decoded::Scalar('\u{1D11E}', 4)
    );
    assert_eq!(decode_char(Encoding::Utf16Be, &[0xD8, 0x34]), Decoded::NeedMore);
    assert_eq!(decode_char(Encoding::Utf16Be, &[0x00]), Decoded::NeedMore);
    // A lone low surrogate, or a high one followed by no low one.
    assert_eq!(decode_char(Encoding::Utf16Be, &[0xDC, 0x00, 0x00, 0x41]), Decoded::Invalid);
    assert_eq!(decode_char(Encoding::Utf16Be, &[0xD8, 0x34, 0x00, 0x41]), Decoded::Invalid);
}

#[test]
fn ascii_decoding_rejects_high_bytes() {
    assert_eq!(decode_char(Encoding::Ascii, b"A"), Decoded::Scalar('A', 1));
    assert_eq!(decode_char(Encoding::Ascii, &[]), Decoded::NeedMore);
    assert_eq!(decode_char(Encoding::Ascii, &[0x80]), Decoded::Invalid);
}

#[test]
fn astral_text_survives_utf16_surrogate_pairs() {
    // "<a>X</a>" in UTF-16LE where X lies beyond the basic plane.
    let mut bytes: Vec<u8> = vec![0xFF, 0xFE];
    for unit in [0x3Cu16, 0x61, 0x3E] {
        bytes.extend_from_slice(&unit.to_le_bytes());
    }
    bytes.extend_from_slice(&[0x34, 0xD8, 0x1E, 0xDD]);
    for unit in [0x3Cu16, 0x2F, 0x61, 0x3E] {
        bytes.extend_from_slice(&unit.to_le_bytes());
    }

    let mut r = EventReader::from_chunks(vec![bytes]);
    match r.next_event().unwrap() {
        XmlEvent::STag(t) => assert_eq!(t.name, "a"),
        other => panic!("expected <a>, got {other:?}"),
    }
    match r.next_event().unwrap() {
        XmlEvent::Text(t) => assert_eq!(t, "\u{1D11E}"),
        other => panic!("expected text, got {other:?}"),
    }
    match r.next_event().unwrap() {
        XmlEvent::ETag(t) => assert_eq!(t.name, "a"),
        other => panic!("expected </a>, got {other:?}"),
    }
    assert_eq!(r.next_event().unwrap(), XmlEvent::Eof);
}

#[test]
fn invalid_bytes_surface_as_invalid_data() {
    let mut r = EventReader::from_chunks(vec![vec![0xFF]]);
    assert_eq!(r.next_event(), Err(Error::Io(IoErrorKind::InvalidData)));
}

#[test]
fn empty_input_is_an_unexpected_eof() {
    let mut r = EventReader::from_chunks(vec![]);
    assert_eq!(r.next_event(), Err(Error::Syntax(SyntaxError::UnexpectedEof)));
}
