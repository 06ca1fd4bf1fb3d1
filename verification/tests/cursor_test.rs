use xenna::encoding::Encoding;
use xenna::reader::stream_reader::{ScanEnd, StreamReader, TakeUntil};
use xenna::token::rules::{
    accept_as_att_value, accept_as_char, accept_as_char_data, accept_as_comment, accept_as_name,
    accept_as_name_char, accept_as_name_start_char, accept_as_white_space, rule_step, Rule,
};
use xenna::token::Punct;

#[test]
fn cursor_accepts_punctuation_and_scans_literals() {
    let mut src = StreamReader::new(vec![b"<?xml version='1.0'?>rest".to_vec()]);
    assert_eq!(src.encoding(), Encoding::Ascii);

    assert_eq!(src.accept(Punct::PiOpen), Some(2));
    assert_eq!(src.accept(Punct::XmlDeclOpen), Some(5));
    src.shift(5);

    let mut region = TakeUntil::new(Punct::XmlDeclClose);
    let (ws, end) = region.read_while(&mut src, Rule::S);
    assert_eq!(ws, " ");
    assert_eq!(end, ScanEnd::Halt);

    assert_eq!(src.accept(Punct::VersionKw), Some(7));
    src.shift(7);
    assert_eq!(src.accept(Punct::Eq), Some(1));
    src.shift(1);
    assert_eq!(src.accept(Punct::SQuote), Some(1));
    src.shift(1);

    let (version, end) = src.read_while(Rule::AttValue, Some(Punct::SQuote));
    assert_eq!(version, "1.0");
    assert_eq!(end, ScanEnd::Delim);

    let (rest_of_region, end) = region.read_while(&mut src, Rule::S);
    assert_eq!(rest_of_region, "");
    assert_eq!(end, ScanEnd::Delim);
    assert!(region.finish(&mut src).is_ok());

    let (tail, end) = src.read_while(Rule::Name, None);
    assert_eq!(tail, "rest");
    assert_eq!(end, ScanEnd::Eof);
    assert!(src.is_empty());
}

#[test]
fn cursor_lookahead_rewinds_but_committed_bytes_do_not_return() {
    let mut src = StreamReader::new(vec![b"<a>text".to_vec()]);
    assert_eq!(src.accept(Punct::STagOpen), Some(1));
    src.shift(1);
    // Nothing is committed yet: the lookahead can be rewound.
    src.unshift(1);
    assert_eq!(src.accept(Punct::STagOpen), Some(1));
    src.shift(1);

    // Scanning the name commits it together with the pending lookahead.
    let (name, _) = src.read_while(Rule::Name, None);
    assert_eq!(name, "a");
    src.unshift(usize::MAX);
    // After the rewind the committed bytes are still gone.
    assert_eq!(src.accept(Punct::STagOpen), None);
    assert_eq!(src.accept(Punct::TagClose), Some(1));
}

#[test]
fn scan_distinguishes_its_four_endings() {
    let mut at_delim = StreamReader::new(vec![b"ab-->".to_vec()]);
    let (s, end) = at_delim.read_while(Rule::Comment, Some(Punct::CommClose));
    assert_eq!((s.as_str(), end), ("ab", ScanEnd::Delim));

    let mut at_halt = StreamReader::new(vec![b"ab<".to_vec()]);
    let (s, end) = at_halt.read_while(Rule::Text, None);
    assert_eq!((s.as_str(), end), ("ab", ScanEnd::Halt));

    let mut at_eof = StreamReader::new(vec![b"ab".to_vec()]);
    let (s, end) = at_eof.read_while(Rule::Comment, Some(Punct::CommClose));
    assert_eq!((s.as_str(), end), ("ab", ScanEnd::Eof));

    let mut at_invalid = StreamReader::new(vec![vec![0x61, 0xFF]]);
    let (s, end) = at_invalid.read_while(Rule::Text, None);
    assert_eq!((s.as_str(), end), ("a", ScanEnd::Invalid));
}

#[test]
fn character_classes_follow_the_name_production() {
    assert!(accept_as_name_start_char('a'));
    assert!(accept_as_name_start_char(':'));
    assert!(accept_as_name_start_char('_'));
    assert!(accept_as_name_start_char('\u{C0}'));
    assert!(!accept_as_name_start_char('-'));
    assert!(!accept_as_name_start_char('3'));
    assert!(!accept_as_name_start_char('\u{B7}'));

    assert!(accept_as_name_char('-'));
    assert!(accept_as_name_char('.'));
    assert!(accept_as_name_char('3'));
    assert!(accept_as_name_char('\u{B7}'));
    assert!(!accept_as_name_char(' '));

    // The name rule requires a start character first.
    assert!(!accept_as_name(0, '3'));
    assert!(accept_as_name(1, '3'));
}

#[test]
fn whitespace_and_character_classes() {
    for c in [' ', '\t', '\r', '\n'] {
        assert!(accept_as_white_space(c));
    }
    assert!(!accept_as_white_space('a'));

    assert!(accept_as_char('\t'));
    assert!(accept_as_char('\u{10FFFF}'));
    assert!(!accept_as_char('\u{0}'));
    assert!(!accept_as_char('\u{FFFF}'));

    assert!(accept_as_att_value('x'));
    assert!(!accept_as_att_value('<'));
    assert!(!accept_as_att_value('&'));
}

#[test]
fn comment_rule_refuses_the_second_hyphen() {
    assert!(accept_as_comment(0, '-'));
    assert!(!accept_as_comment(1, '-'));
    assert!(accept_as_comment(1, 'a'));

    let (ok, st) = rule_step(Rule::Comment, 0, '-');
    assert!(ok);
    assert_eq!(st, 1);
    let (ok, _) = rule_step(Rule::Comment, 1, '-');
    assert!(!ok);
}

#[test]
fn char_data_rule_tracks_the_longest_cdata_close_prefix() {
    // "]]" then anything but ">" stays legal; "]]>" never passes, even
    // after a longer run of brackets.
    let mut st: u8 = 0;
    for c in "a]]b".chars() {
        let (ok, next) = rule_step(Rule::Text, st, c);
        assert!(ok);
        st = next;
    }

    let mut st: u8 = 0;
    let mut rejected = false;
    for c in "a]]]>".chars() {
        let (ok, next) = rule_step(Rule::Text, st, c);
        if !ok {
            rejected = true;
            break;
        }
        st = next;
    }
    assert!(rejected, "a run of brackets before `>` must still end in a rejection");

    assert!(!accept_as_char_data(2, '>'));
    assert!(accept_as_char_data(0, '>'));
    assert!(!accept_as_char_data(0, '<'));
    assert!(!accept_as_char_data(0, '&'));
}

#[test]
fn a_region_is_empty_exactly_at_its_close_or_at_stream_end() {
    let mut src = StreamReader::new(vec![b"ab?>c".to_vec()]);
    let mut region = TakeUntil::new(Punct::PiClose);
    assert!(!region.is_empty(&mut src));
    let (body, end) = region.read_while(&mut src, Rule::Name);
    assert_eq!((body.as_str(), end), ("ab", ScanEnd::Delim));
    // The close was consumed by the scan; the region is over, the stream not.
    assert!(region.is_empty(&mut src));
    assert!(!src.is_empty());

    let mut src = StreamReader::new(vec![b"?>".to_vec()]);
    let mut region = TakeUntil::new(Punct::PiClose);
    // The close is found immediately, and consumed.
    assert!(region.is_empty(&mut src));
    assert!(src.is_empty());

    let mut src = StreamReader::new(vec![]);
    let mut region = TakeUntil::new(Punct::PiClose);
    // The stream ended inside the region: empty, but never closed.
    assert!(region.is_empty(&mut src));
    assert!(region.finish(&mut src).is_err());
}
