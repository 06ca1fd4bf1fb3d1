use xenna::error::Error;
use xenna::reader::{EventReader, XmlEvent};

const DOC: &str = "<?xml version=\"1.0\" encoding=\"UTF-8\"?> <!--hello--> <a x=\"1\">t<b/></a> ";

fn events_of_chunks(chunks: Vec<Vec<u8>>) -> Vec<Result<XmlEvent, Error>> {
    let mut r = EventReader::from_chunks(chunks);
    let mut out = Vec::new();
    loop {
        match r.next_event() {
            Ok(ev) => {
                let done = ev == XmlEvent::Eof;
                out.push(Ok(ev));
                if done {
                    return out;
                }
            }
            Err(e) => {
                out.push(Err(e));
                return out;
            }
        }
    }
}

/// Encodes an ASCII string as UTF-16, in either byte order.
fn utf16_of(s: &str, hi_first: bool) -> Vec<u8> {
    let mut out = Vec::new();
    for b in s.bytes() {
        if hi_first {
            out.push(0);
            out.push(b);
        } else {
            out.push(b);
            out.push(0);
        }
    }
    out
}

#[test]
fn splitting_the_input_at_every_offset_changes_no_event() {
    let bytes = DOC.as_bytes();
    let whole = events_of_chunks(vec![bytes.to_vec()]);
    assert!(whole.len() > 5);

    for i in 0..=bytes.len() {
        let split = events_of_chunks(vec![bytes[..i].to_vec(), bytes[i..].to_vec()]);
        assert_eq!(split, whole, "events changed when split at offset {i}");
    }
}

#[test]
fn splitting_into_single_byte_chunks_changes_no_event() {
    let bytes = DOC.as_bytes();
    let whole = events_of_chunks(vec![bytes.to_vec()]);
    let trickle = events_of_chunks(bytes.iter().map(|b| vec![*b]).collect());
    assert_eq!(trickle, whole);
}

#[test]
fn utf8_bom_changes_no_event() {
    let bytes = DOC.as_bytes();
    let plain = events_of_chunks(vec![bytes.to_vec()]);

    let mut with_bom = vec![0xEF, 0xBB, 0xBF];
    with_bom.extend_from_slice(bytes);
    assert_eq!(events_of_chunks(vec![with_bom]), plain);
}

#[test]
fn utf16_boms_change_no_event() {
    // A UTF-16 stream without a BOM is recognized from the encoded `<?`,
    // so the document must open with the declaration.
    let doc = "<?xml version=\"1.0\"?><a>hi</a>";

    for hi_first in [false, true] {
        let plain = events_of_chunks(vec![utf16_of(doc, hi_first)]);
        let mut with_bom = if hi_first { vec![0xFE, 0xFF] } else { vec![0xFF, 0xFE] };
        with_bom.extend_from_slice(&utf16_of(doc, hi_first));
        assert_eq!(events_of_chunks(vec![with_bom]), plain);

        // And the UTF-16 stream spells out the same events as the ASCII one.
        assert_eq!(plain, events_of_chunks(vec![doc.as_bytes().to_vec()]));
    }
}

#[test]
fn utf16_split_inside_a_code_unit_changes_no_event() {
    let doc = "<?xml version=\"1.0\"?><a>hi</a>";
    let bytes = utf16_of(doc, false);
    let whole = events_of_chunks(vec![bytes.to_vec()]);
    for i in 0..=bytes.len() {
        let split = events_of_chunks(vec![bytes[..i].to_vec(), bytes[i..].to_vec()]);
        assert_eq!(split, whole, "events changed when split at offset {i}");
    }
}

#[test]
fn multibyte_characters_split_across_chunks_decode_whole() {
    // Text with 2-, 3- and 4-byte characters; every split point lands
    // inside some encoded character at least once.
    let doc = "<a>\u{E9}\u{20AC}\u{1D11E}</a>";
    let bytes = doc.as_bytes();
    let whole = events_of_chunks(vec![bytes.to_vec()]);
    match &whole[1] {
        Ok(XmlEvent::Text(t)) => assert_eq!(t, "\u{E9}\u{20AC}\u{1D11E}"),
        other => panic!("expected text, got {other:?}"),
    }
    for i in 0..=bytes.len() {
        let split = events_of_chunks(vec![bytes[..i].to_vec(), bytes[i..].to_vec()]);
        assert_eq!(split, whole, "events changed when split at offset {i}");
    }
}
