//! The token families of the grammar, as a table-driven construction.
//!
//! A `Punct` is a fixed literal matched verbatim at the decoded-character
//! level. Delimiters are pairs of punctuation bounding a sub-region (the
//! pairing lives in the parsers that open a region and in [`TakeUntil`]).
//! Literals are rule-driven runs of characters, described by [`rules::Rule`].

pub mod rules;

use vstd::prelude::*;

use crate::error::{Error, IoErrorKind, SyntaxError};
use crate::reader::stream_reader::{
    rw_apply, try_punct_spec, ScanEnd, SrcV, StreamReader,
};
use rules::Rule;

verus! {

/// The fixed punctuation literals of the grammar.
///
/// The table lists every literal of XML's lexical productions; a few
/// (references, CDATA sections, the colon) bound constructs the event
/// reader does not yet drive, and stand here for the grammar's sake.
#[derive(Clone, Copy, PartialEq, Eq, Debug, Structural)]
pub enum Punct {
    /// `=`
    Eq,
    /// `:`
    Colon,
    /// `<?xml`
    XmlDeclOpen,
    /// `?>`
    XmlDeclClose,
    /// `<?`
    PiOpen,
    /// `?>`
    PiClose,
    /// `<!--`
    CommOpen,
    /// `-->`
    CommClose,
    /// `<`
    STagOpen,
    /// `>`
    TagClose,
    /// `</`
    ETagOpen,
    /// `/>`
    EmptyClose,
    /// `<![CDATA[`
    CDataOpen,
    /// `]]>`
    CDataClose,
    /// `&`
    RefOpen,
    /// `;`
    RefClose,
    /// `'`
    SQuote,
    /// `"`
    DQuote,
    /// `version`
    VersionKw,
    /// `encoding`
    EncodingKw,
    /// `standalone`
    StandaloneKw,
}

/// What a syntax error names: a punctuation token, a literal family, or the
/// end of input.
#[derive(Clone, Copy, PartialEq, Eq, Debug, Structural)]
pub enum TokenKind {
    Punct(Punct),
    Lit(rules::Rule),
    Eof,
}

/// The ASCII bytes of a punctuation literal.
#[verifier::opaque]
pub open spec fn punct_lit(p: Punct) -> Seq<u8> {
    match p {
        Punct::Eq => seq![0x3Du8],
        Punct::Colon => seq![0x3Au8],
        Punct::XmlDeclOpen => seq![0x3Cu8, 0x3Fu8, 0x78u8, 0x6Du8, 0x6Cu8],
        Punct::XmlDeclClose => seq![0x3Fu8, 0x3Eu8],
        Punct::PiOpen => seq![0x3Cu8, 0x3Fu8],
        Punct::PiClose => seq![0x3Fu8, 0x3Eu8],
        Punct::CommOpen => seq![0x3Cu8, 0x21u8, 0x2Du8, 0x2Du8],
        Punct::CommClose => seq![0x2Du8, 0x2Du8, 0x3Eu8],
        Punct::STagOpen => seq![0x3Cu8],
        Punct::TagClose => seq![0x3Eu8],
        Punct::ETagOpen => seq![0x3Cu8, 0x2Fu8],
        Punct::EmptyClose => seq![0x2Fu8, 0x3Eu8],
        Punct::CDataOpen => seq![
            0x3Cu8,
            0x21u8,
            0x5Bu8,
            0x43u8,
            0x44u8,
            0x41u8,
            0x54u8,
            0x41u8,
            0x5Bu8,
        ],
        Punct::CDataClose => seq![0x5Du8, 0x5Du8, 0x3Eu8],
        Punct::RefOpen => seq![0x26u8],
        Punct::RefClose => seq![0x3Bu8],
        Punct::SQuote => seq![0x27u8],
        Punct::DQuote => seq![0x22u8],
        Punct::VersionKw => seq![0x76u8, 0x65u8, 0x72u8, 0x73u8, 0x69u8, 0x6Fu8, 0x6Eu8],
        Punct::EncodingKw => seq![0x65u8, 0x6Eu8, 0x63u8, 0x6Fu8, 0x64u8, 0x69u8, 0x6Eu8, 0x67u8],
        Punct::StandaloneKw => seq![
            0x73u8,
            0x74u8,
            0x61u8,
            0x6Eu8,
            0x64u8,
            0x61u8,
            0x6Cu8,
            0x6Fu8,
            0x6Eu8,
            0x65u8,
        ],
    }
}

/// Every punctuation literal holds between one and ten bytes.
pub proof fn lemma_punct_lit_len(p: Punct)
    ensures
        1 <= punct_lit(p).len() <= 10,
{
    reveal(punct_lit);
}

/// The ASCII bytes of a punctuation literal.
pub fn punct_bytes(p: Punct) -> (r: Vec<u8>)
    ensures
        r@ == punct_lit(p),
{
    let mut out: Vec<u8> = Vec::new();
    match p {
        Punct::Eq => {
            out.push(0x3D);
        },
        Punct::Colon => {
            out.push(0x3A);
        },
        Punct::XmlDeclOpen => {
            out.push(0x3C);
            out.push(0x3F);
            out.push(0x78);
            out.push(0x6D);
            out.push(0x6C);
        },
        Punct::XmlDeclClose => {
            out.push(0x3F);
            out.push(0x3E);
        },
        Punct::PiOpen => {
            out.push(0x3C);
            out.push(0x3F);
        },
        Punct::PiClose => {
            out.push(0x3F);
            out.push(0x3E);
        },
        Punct::CommOpen => {
            out.push(0x3C);
            out.push(0x21);
            out.push(0x2D);
            out.push(0x2D);
        },
        Punct::CommClose => {
            out.push(0x2D);
            out.push(0x2D);
            out.push(0x3E);
        },
        Punct::STagOpen => {
            out.push(0x3C);
        },
        Punct::TagClose => {
            out.push(0x3E);
        },
        Punct::ETagOpen => {
            out.push(0x3C);
            out.push(0x2F);
        },
        Punct::EmptyClose => {
            out.push(0x2F);
            out.push(0x3E);
        },
        Punct::CDataOpen => {
            out.push(0x3C);
            out.push(0x21);
            out.push(0x5B);
            out.push(0x43);
            out.push(0x44);
            out.push(0x41);
            out.push(0x54);
            out.push(0x41);
            out.push(0x5B);
        },
        Punct::CDataClose => {
            out.push(0x5D);
            out.push(0x5D);
            out.push(0x3E);
        },
        Punct::RefOpen => {
            out.push(0x26);
        },
        Punct::RefClose => {
            out.push(0x3B);
        },
        Punct::SQuote => {
            out.push(0x27);
        },
        Punct::DQuote => {
            out.push(0x22);
        },
        Punct::VersionKw => {
            out.push(0x76);
            out.push(0x65);
            out.push(0x72);
            out.push(0x73);
            out.push(0x69);
            out.push(0x6F);
            out.push(0x6E);
        },
        Punct::EncodingKw => {
            out.push(0x65);
            out.push(0x6E);
            out.push(0x63);
            out.push(0x6F);
            out.push(0x64);
            out.push(0x69);
            out.push(0x6E);
            out.push(0x67);
        },
        Punct::StandaloneKw => {
            out.push(0x73);
            out.push(0x74);
            out.push(0x61);
            out.push(0x6E);
            out.push(0x64);
            out.push(0x61);
            out.push(0x6C);
            out.push(0x6F);
            out.push(0x6E);
            out.push(0x65);
        },
    }
    proof {
        reveal(punct_lit);
        assert(out@ =~= punct_lit(p));
    }
    out
}

/// The outcome of attempting an undelimited literal: the scanned run if it
/// is non-empty, nothing (and an unchanged state) if it is empty, an error
/// where the input holds bytes that are no character.
pub open spec fn try_lit_spec(s: SrcV, rule: Rule) -> (Result<Option<Seq<char>>, Error>, SrcV) {
    let (sc, s2) = rw_apply(s, rule, None);
    if sc.end is Invalid {
        (Err(Error::Io(IoErrorKind::InvalidData)), s2)
    } else if sc.chars.len() == 0 {
        (Ok(None), s2)
    } else {
        (Ok(Some(sc.chars)), s2)
    }
}

/// The outcome of attempting a literal inside a delimited region: nothing
/// if the open punctuation is absent; otherwise the run up to the close
/// punctuation, which must end the region — end of input instead is an
/// unclosed delimiter, a character the rule rejects a mismatched token.
pub open spec fn delim_lit_spec(s: SrcV, open_p: Punct, rule: Rule, close_p: Punct) -> (
    Result<Option<Seq<char>>, Error>,
    SrcV,
) {
    match try_punct_spec(s, open_p) {
        (false, s1) => (Ok(None), s1),
        (true, s1) => {
            let (sc, s2) = rw_apply(s1, rule, Some(close_p));
            match sc.end {
                ScanEnd::Delim => (Ok(Some(sc.chars)), s2),
                ScanEnd::Eof => (
                    Err(
                        Error::Syntax(SyntaxError::UnclosedDelimiter(TokenKind::Punct(close_p))),
                    ),
                    s2,
                ),
                ScanEnd::Halt => (
                    Err(Error::Syntax(SyntaxError::MismatchedToken(TokenKind::Punct(close_p)))),
                    s2,
                ),
                ScanEnd::Invalid => (Err(Error::Io(IoErrorKind::InvalidData)), s2),
            }
        },
    }
}

/// Whether an executable literal outcome carries the values of the
/// abstract one.
pub open spec fn lit_res_matches(
    r: Result<Option<String>, Error>,
    rr: Result<Option<Seq<char>>, Error>,
) -> bool {
    match (r, rr) {
        (Ok(None), Ok(None)) => true,
        (Ok(Some(v)), Ok(Some(cs))) => v@ == cs,
        (Err(e1), Err(e2)) => e1 == e2,
        _ => false,
    }
}

/// Checks whether the upcoming characters equal the literal of `p` and
/// advances the lookahead over them if so; otherwise leaves the cursor
/// untouched.
pub fn try_parse_punct(src: &mut StreamReader, p: Punct) -> (r: bool)
    requires
        old(src).wf(),
    ensures
        final(src).wf(),
        ({
            let (b, s2) = try_punct_spec(old(src)@, p);
            r == b && final(src)@ == s2
        }),
{
    match src.accept(p) {
        Some(n) => {
            src.shift(n);
            true
        },
        None => false,
    }
}

/// Attempts an undelimited literal, per [`try_lit_spec`]. An empty run is
/// no token: the cursor is left untouched and `None` returned, so a failed
/// alternative costs nothing.
pub fn try_parse_lit(src: &mut StreamReader, rule: Rule) -> (r: Result<Option<String>, Error>)
    requires
        old(src).wf(),
    ensures
        final(src).wf(),
        ({
            let (rr, s2) = try_lit_spec(old(src)@, rule);
            lit_res_matches(r, rr) && final(src)@ == s2
        }),
{
    let (s, end) = src.read_while(rule, None);
    if let ScanEnd::Invalid = end {
        return Err(Error::Io(IoErrorKind::InvalidData));
    }
    if s.as_str().is_empty() {
        Ok(None)
    } else {
        Ok(Some(s))
    }
}

/// Attempts a literal inside a delimited region, per [`delim_lit_spec`]:
/// the open punctuation, then the rule-driven run, then the close
/// punctuation, which the scan consumes.
pub fn try_parse_delim_lit(src: &mut StreamReader, open_p: Punct, rule: Rule, close_p: Punct) -> (r:
    Result<Option<String>, Error>)
    requires
        old(src).wf(),
    ensures
        final(src).wf(),
        ({
            let (rr, s2) = delim_lit_spec(old(src)@, open_p, rule, close_p);
            lit_res_matches(r, rr) && final(src)@ == s2
        }),
{
    if !try_parse_punct(src, open_p) {
        return Ok(None);
    }
    let (s, end) = src.read_while(rule, Some(close_p));
    match end {
        ScanEnd::Delim => Ok(Some(s)),
        ScanEnd::Eof => Err(
            Error::Syntax(SyntaxError::UnclosedDelimiter(TokenKind::Punct(close_p))),
        ),
        ScanEnd::Halt => Err(
            Error::Syntax(SyntaxError::MismatchedToken(TokenKind::Punct(close_p))),
        ),
        ScanEnd::Invalid => Err(Error::Io(IoErrorKind::InvalidData)),
    }
}

} // verus!
