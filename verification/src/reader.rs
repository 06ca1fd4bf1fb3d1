//! The event reader: a finite state machine over the token engine.
//!
//! Each call to [`EventReader::next_event`] assembles one structural event
//! from the token stream: the XML declaration, tags, text, comments,
//! processing instructions, and finally a steady, repeatable `Eof`. The
//! reader owns a stack of the open element names; an end tag must match the
//! top of the stack, and the stack is empty exactly when the root element
//! has closed. The whole transition is specified by [`next_spec`], a
//! function of the abstract reader state alone.

pub mod stream_reader;

use vstd::prelude::*;

use crate::error::{Error, IoErrorKind, SyntaxError};
use crate::token::rules::Rule;
use crate::token::{
    delim_lit_spec, lit_res_matches, try_lit_spec, try_parse_delim_lit, try_parse_lit,
    try_parse_punct, Punct, TokenKind,
};
use stream_reader::{
    finish_spec, lemma_rw_apply_state, lemma_try_punct_state, lemma_wf_remaining, remaining,
    rw_apply, try_punct_spec, view_wf, ScanEnd, SrcV, StreamReader, TakeUntil,
};

verus! {

/// One attribute of a tag: its name and its quoted value.
#[derive(PartialEq, Debug)]
pub struct Attribute {
    pub name: String,
    pub value: String,
}

/// The abstract value of an [`Attribute`].
pub ghost struct AttrV {
    pub name: Seq<char>,
    pub value: Seq<char>,
}

impl View for Attribute {
    type V = AttrV;

    open spec fn view(&self) -> AttrV {
        AttrV { name: self.name@, value: self.value@ }
    }
}

/// The XML declaration: its version, and the optional encoding and
/// standalone values.
#[derive(PartialEq, Debug)]
pub struct XmlDecl {
    pub version: String,
    pub encoding: Option<String>,
    pub standalone: Option<String>,
}

/// The abstract value of an [`XmlDecl`].
pub ghost struct DeclV {
    pub version: Seq<char>,
    pub encoding: Option<Seq<char>>,
    pub standalone: Option<Seq<char>>,
}

impl View for XmlDecl {
    type V = DeclV;

    open spec fn view(&self) -> DeclV {
        DeclV {
            version: self.version@,
            encoding: match self.encoding {
                Some(ref e) => Some(e@),
                None => None,
            },
            standalone: match self.standalone {
                Some(ref e) => Some(e@),
                None => None,
            },
        }
    }
}

/// A processing instruction: its target name. The instruction's body is
/// consumed and discarded.
#[derive(PartialEq, Debug)]
pub struct Pi {
    pub target: String,
}

/// A start tag: its name and its attributes, in source order.
#[derive(PartialEq, Debug)]
pub struct StartTag {
    pub name: String,
    pub attrs: Vec<Attribute>,
}

/// An end tag: its name.
#[derive(PartialEq, Debug)]
pub struct EndTag {
    pub name: String,
}

/// An empty-element tag, `<name .../>`: its name and its attributes.
#[derive(PartialEq, Debug)]
pub struct EmptyElem {
    pub name: String,
    pub attrs: Vec<Attribute>,
}

/// The abstract value of a sequence of attributes.
pub open spec fn attrs_view(attrs: Seq<Attribute>) -> Seq<AttrV> {
    attrs.map_values(|a: Attribute| a@)
}

/// One structural event of the document.
#[derive(PartialEq, Debug)]
pub enum XmlEvent {
    /// The XML declaration.
    Xml(XmlDecl),
    /// A processing instruction.
    Pi(Pi),
    /// A start tag; its element is open until the matching end tag.
    STag(StartTag),
    /// An end tag.
    ETag(EndTag),
    /// An empty-element tag; it opens and closes its element at once.
    EmptyElem(EmptyElem),
    /// Character data between tags.
    Text(String),
    /// A CDATA section's contents.
    CData(String),
    /// A run of whitespace outside text.
    S(String),
    /// A comment's body.
    Comment(String),
    /// The end of the document; repeated on every further call.
    Eof,
}

/// The abstract value of an [`XmlEvent`].
pub ghost enum EventV {
    Xml(DeclV),
    Pi(Seq<char>),
    STag(Seq<char>, Seq<AttrV>),
    ETag(Seq<char>),
    EmptyElem(Seq<char>, Seq<AttrV>),
    Text(Seq<char>),
    CData(Seq<char>),
    S(Seq<char>),
    Comment(Seq<char>),
    Eof,
}

impl View for XmlEvent {
    type V = EventV;

    open spec fn view(&self) -> EventV {
        match self {
            XmlEvent::Xml(d) => EventV::Xml(d@),
            XmlEvent::Pi(p) => EventV::Pi(p.target@),
            XmlEvent::STag(t) => EventV::STag(t.name@, attrs_view(t.attrs@)),
            XmlEvent::ETag(t) => EventV::ETag(t.name@),
            XmlEvent::EmptyElem(t) => EventV::EmptyElem(t.name@, attrs_view(t.attrs@)),
            XmlEvent::Text(s) => EventV::Text(s@),
            XmlEvent::CData(s) => EventV::CData(s@),
            XmlEvent::S(s) => EventV::S(s@),
            XmlEvent::Comment(s) => EventV::Comment(s@),
            XmlEvent::Eof => EventV::Eof,
        }
    }
}

/// The states of the reader's machine: before anything, after the XML
/// declaration's place, inside an element, after its text, after the root
/// element closed, and at the end of input.
#[derive(PartialEq, Eq, Clone, Copy, Debug, Structural)]
pub enum State {
    Start,
    AfterXml,
    InElem,
    AfterText,
    AfterRoot,
    Eof,
}

/// The abstract state of an [`EventReader`]: the cursor's state, the
/// machine's state, and the names of the open elements, outermost first.
pub ghost struct ReaderV {
    pub src: SrcV,
    pub st: State,
    pub path: Seq<Seq<char>>,
}

/// The outcome of `S? = S?`: the equals sign between a name and a value,
/// with optional whitespace around it.
pub open spec fn eq_spec(s: SrcV) -> (Result<(), Error>, SrcV) {
    match try_lit_spec(s, Rule::S) {
        (Err(e), s1) => (Err(e), s1),
        (Ok(_), s1) => match try_punct_spec(s1, Punct::Eq) {
            (false, s2) => (
                Err(Error::Syntax(SyntaxError::MismatchedToken(TokenKind::Punct(Punct::Eq)))),
                s2,
            ),
            (true, s2) => match try_lit_spec(s2, Rule::S) {
                (Err(e), s3) => (Err(e), s3),
                (Ok(_), s3) => (Ok(()), s3),
            },
        },
    }
}

/// The outcome of attempting an attribute value in either quote style.
pub open spec fn attvalue_spec(s: SrcV) -> (Result<Option<Seq<char>>, Error>, SrcV) {
    match delim_lit_spec(s, Punct::DQuote, Rule::AttValue, Punct::DQuote) {
        (Ok(None), _) => delim_lit_spec(s, Punct::SQuote, Rule::AttValue, Punct::SQuote),
        other => other,
    }
}

/// The outcome of attempting `name = "value"`: nothing if no name opens
/// here; once a name has been consumed, the equals sign and a quoted value
/// must follow.
pub open spec fn attr_spec(s: SrcV) -> (Result<Option<AttrV>, Error>, SrcV) {
    match try_lit_spec(s, Rule::Name) {
        (Err(e), s1) => (Err(e), s1),
        (Ok(None), s1) => (Ok(None), s1),
        (Ok(Some(name)), s1) => match eq_spec(s1) {
            (Err(e), s2) => (Err(e), s2),
            (Ok(_), s2) => match attvalue_spec(s2) {
                (Err(e), s3) => (Err(e), s3),
                (Ok(None), s3) => (
                    Err(
                        Error::Syntax(
                            SyntaxError::MismatchedToken(TokenKind::Lit(Rule::AttValue)),
                        ),
                    ),
                    s3,
                ),
                (Ok(Some(value)), s3) => (Ok(Some(AttrV { name, value })), s3),
            },
        },
    }
}

/// How attempting an undelimited literal relates the states around it.
pub proof fn lemma_try_lit_state(s: SrcV, rule: Rule)
    requires
        view_wf(s),
    ensures
        ({
            let (r, s2) = try_lit_spec(s, rule);
            &&& view_wf(s2)
            &&& remaining(s2) <= remaining(s)
            &&& (r matches Ok(o) && o is Some ==> remaining(s2) < remaining(s))
            &&& (r matches Ok(o) && o is None ==> s2 == s)
            &&& s2.enc == s.enc
        }),
{
    lemma_rw_apply_state(s, rule, None);
}

/// How attempting a delimited literal relates the states around it.
pub proof fn lemma_delim_lit_state(s: SrcV, open_p: Punct, rule: Rule, close_p: Punct)
    requires
        view_wf(s),
    ensures
        ({
            let (r, s2) = delim_lit_spec(s, open_p, rule, close_p);
            &&& view_wf(s2)
            &&& remaining(s2) <= remaining(s)
            &&& (r matches Ok(o) && o is Some ==> remaining(s2) < remaining(s))
            &&& (r matches Ok(o) && o is None ==> s2 == s)
            &&& s2.enc == s.enc
        }),
{
    lemma_try_punct_state(s, open_p);
    let (hit, s1) = try_punct_spec(s, open_p);
    if hit {
        lemma_rw_apply_state(s1, rule, Some(close_p));
    }
}

/// How the equals sign's grammar relates the states around it.
pub proof fn lemma_eq_state(s: SrcV)
    requires
        view_wf(s),
    ensures
        ({
            let (r, s2) = eq_spec(s);
            &&& view_wf(s2)
            &&& remaining(s2) <= remaining(s)
            &&& s2.enc == s.enc
        }),
{
    lemma_try_lit_state(s, Rule::S);
    let (_, s1) = try_lit_spec(s, Rule::S);
    lemma_try_punct_state(s1, Punct::Eq);
    let (hit, s2) = try_punct_spec(s1, Punct::Eq);
    if hit {
        lemma_try_lit_state(s2, Rule::S);
    }
}

/// How attempting an attribute value relates the states around it.
pub proof fn lemma_attvalue_state(s: SrcV)
    requires
        view_wf(s),
    ensures
        ({
            let (r, s2) = attvalue_spec(s);
            &&& view_wf(s2)
            &&& remaining(s2) <= remaining(s)
            &&& (r matches Ok(o) && o is None ==> s2 == s)
            &&& s2.enc == s.enc
        }),
{
    lemma_delim_lit_state(s, Punct::DQuote, Rule::AttValue, Punct::DQuote);
    lemma_delim_lit_state(s, Punct::SQuote, Rule::AttValue, Punct::SQuote);
}

/// How attempting an attribute relates the states around it: a parsed
/// attribute costs at least a byte; a missing one costs nothing.
pub proof fn lemma_attr_state(s: SrcV)
    requires
        view_wf(s),
    ensures
        ({
            let (r, s2) = attr_spec(s);
            &&& view_wf(s2)
            &&& remaining(s2) <= remaining(s)
            &&& (r matches Ok(o) && o is Some ==> remaining(s2) < remaining(s))
            &&& (r matches Ok(o) && o is None ==> s2 == s)
            &&& s2.enc == s.enc
        }),
{
    lemma_try_lit_state(s, Rule::Name);
    match try_lit_spec(s, Rule::Name) {
        (Ok(Some(_)), s1) => {
            lemma_eq_state(s1);
            let (r2, s2) = eq_spec(s1);
            if r2 is Ok {
                lemma_attvalue_state(s2);
            }
        },
        _ => {},
    }
}

/// A start tag or an empty-element tag, abstractly.
pub ghost enum TagV {
    Start { name: Seq<char>, attrs: Seq<AttrV> },
    Empty { name: Seq<char>, attrs: Seq<AttrV> },
}

/// The outcome of the part of a tag after its name: whitespace-separated
/// attributes until `/>` closes an empty-element tag or `>` a start tag.
#[verifier::opaque]
pub open spec fn attrs_spec(s: SrcV, name: Seq<char>, acc: Seq<AttrV>) -> (
    Result<TagV, Error>,
    SrcV,
)
    decreases remaining(s),
    when view_wf(s)
    via attrs_spec_dec
{
    match try_lit_spec(s, Rule::S) {
        (Err(e), s1) => (Err(e), s1),
        (Ok(ws), s1) => match try_punct_spec(s1, Punct::EmptyClose) {
            (true, s2) => (Ok(TagV::Empty { name, attrs: acc }), s2),
            (false, _) => match try_punct_spec(s1, Punct::TagClose) {
                (true, s2) => (Ok(TagV::Start { name, attrs: acc }), s2),
                (false, _) => if ws is None {
                    (
                        Err(
                            Error::Syntax(
                                SyntaxError::MismatchedToken(TokenKind::Punct(Punct::TagClose)),
                            ),
                        ),
                        s1,
                    )
                } else {
                    match attr_spec(s1) {
                        (Err(e), s2) => (Err(e), s2),
                        (Ok(None), s2) => (
                            Err(
                                Error::Syntax(
                                    SyntaxError::MismatchedToken(TokenKind::Lit(Rule::Name)),
                                ),
                            ),
                            s2,
                        ),
                        (Ok(Some(a)), s2) => attrs_spec(s2, name, acc.push(a)),
                    }
                },
            },
        },
    }
}

#[via_fn]
proof fn attrs_spec_dec(s: SrcV, name: Seq<char>, acc: Seq<AttrV>) {
    lemma_try_lit_state(s, Rule::S);
    let (ws, s1) = try_lit_spec(s, Rule::S);
    lemma_try_punct_state(s1, Punct::EmptyClose);
    lemma_try_punct_state(s1, Punct::TagClose);
    lemma_attr_state(s1);
}

/// The outcome of attempting a tag: nothing unless `<` and a name open
/// one; then attributes until the tag closes.
#[verifier::opaque]
pub open spec fn stag_spec(s: SrcV) -> (Result<Option<TagV>, Error>, SrcV) {
    match try_punct_spec(s, Punct::STagOpen) {
        (false, _) => (Ok(None), s),
        (true, s1) => match try_lit_spec(s1, Rule::Name) {
            (Err(e), s2) => (Err(e), s2),
            (Ok(None), _) => (Ok(None), s),
            (Ok(Some(name)), s2) => match attrs_spec(s2, name, seq![]) {
                (Err(e), s3) => (Err(e), s3),
                (Ok(tag), s3) => (Ok(Some(tag)), s3),
            },
        },
    }
}

/// The outcome of attempting an end tag: nothing unless `</` and a name
/// open one; then optional whitespace and the closing `>`.
#[verifier::opaque]
pub open spec fn etag_spec(s: SrcV) -> (Result<Option<Seq<char>>, Error>, SrcV) {
    match try_punct_spec(s, Punct::ETagOpen) {
        (false, _) => (Ok(None), s),
        (true, s1) => match try_lit_spec(s1, Rule::Name) {
            (Err(e), s2) => (Err(e), s2),
            (Ok(None), _) => (Ok(None), s),
            (Ok(Some(name)), s2) => match try_lit_spec(s2, Rule::S) {
                (Err(e), s3) => (Err(e), s3),
                (Ok(_), s3) => match finish_spec(s3, Punct::TagClose, false) {
                    (Err(e), s4) => (Err(e), s4),
                    (Ok(_), s4) => (Ok(Some(name)), s4),
                },
            },
        },
    }
}

/// The outcome of attempting a processing instruction: nothing unless `<?`
/// and a target name open one; the body is skipped up to `?>`.
#[verifier::opaque]
pub open spec fn pi_spec(s: SrcV) -> (Result<Option<Seq<char>>, Error>, SrcV) {
    match try_punct_spec(s, Punct::PiOpen) {
        (false, _) => (Ok(None), s),
        (true, s1) => {
            let (sc, s2) = rw_apply(s1, Rule::Name, Some(Punct::PiClose));
            if sc.end is Invalid {
                (Err(Error::Io(IoErrorKind::InvalidData)), s2)
            } else if sc.chars.len() == 0 {
                if sc.end is Delim {
                    (
                        Err(
                            Error::Syntax(SyntaxError::MismatchedToken(TokenKind::Lit(Rule::Name))),
                        ),
                        s2,
                    )
                } else {
                    (Ok(None), s)
                }
            } else if sc.end is Delim {
                (Ok(Some(sc.chars)), s2)
            } else {
                let (sc2, s3) = rw_apply(s2, Rule::Chars, Some(Punct::PiClose));
                match sc2.end {
                    ScanEnd::Delim => (Ok(Some(sc.chars)), s3),
                    ScanEnd::Eof => (
                        Err(
                            Error::Syntax(
                                SyntaxError::UnclosedDelimiter(TokenKind::Punct(Punct::PiClose)),
                            ),
                        ),
                        s3,
                    ),
                    ScanEnd::Halt => (
                        Err(
                            Error::Syntax(
                                SyntaxError::MismatchedToken(TokenKind::Punct(Punct::PiClose)),
                            ),
                        ),
                        s3,
                    ),
                    ScanEnd::Invalid => (Err(Error::Io(IoErrorKind::InvalidData)), s3),
                }
            }
        },
    }
}

/// The outcome of one whitespace attempt inside the declaration's region:
/// the run scanned, and whether the region's close `?>` ended it.
pub open spec fn decl_s_spec(s: SrcV) -> (Result<(Seq<char>, bool), Error>, SrcV) {
    let (sc, s2) = rw_apply(s, Rule::S, Some(Punct::XmlDeclClose));
    if sc.end is Invalid {
        (Err(Error::Io(IoErrorKind::InvalidData)), s2)
    } else {
        (Ok((sc.chars, sc.end is Delim)), s2)
    }
}

/// The outcome of `keyword = "value"` inside the declaration.
pub open spec fn kwval_spec(s: SrcV, kw: Punct) -> (Result<Option<Seq<char>>, Error>, SrcV) {
    match try_punct_spec(s, kw) {
        (false, s1) => (Ok(None), s1),
        (true, s1) => match eq_spec(s1) {
            (Err(e), s2) => (Err(e), s2),
            (Ok(_), s2) => match attvalue_spec(s2) {
                (Err(e), s3) => (Err(e), s3),
                (Ok(None), s3) => (
                    Err(
                        Error::Syntax(
                            SyntaxError::MismatchedToken(TokenKind::Lit(Rule::AttValue)),
                        ),
                    ),
                    s3,
                ),
                (Ok(Some(v)), s3) => (Ok(Some(v)), s3),
            },
        },
    }
}

/// The outcome of one optional `keyword = "value" S?` part of the
/// declaration, skipped once the region has ended.
pub open spec fn decl_opt_spec(s: SrcV, ended: bool, kw: Punct) -> (
    Result<(Option<Seq<char>>, bool), Error>,
    SrcV,
) {
    if ended {
        (Ok((None, true)), s)
    } else {
        match kwval_spec(s, kw) {
            (Err(e), s1) => (Err(e), s1),
            (Ok(None), s1) => (Ok((None, false)), s1),
            (Ok(Some(v)), s1) => match decl_s_spec(s1) {
                (Err(e), s2) => (Err(e), s2),
                (Ok((_, e2)), s2) => (Ok((Some(v), e2)), s2),
            },
        }
    }
}

/// The outcome of attempting the XML declaration: nothing unless `<?xml`
/// followed by whitespace opens one; then the required version and the
/// optional encoding and standalone values, up to the closing `?>`.
#[verifier::opaque]
pub open spec fn decl_spec(s: SrcV) -> (Result<Option<DeclV>, Error>, SrcV) {
    match try_punct_spec(s, Punct::XmlDeclOpen) {
        (false, _) => (Ok(None), s),
        (true, s1) => match decl_s_spec(s1) {
            (Err(e), s2) => (Err(e), s2),
            (Ok((ws, ended0)), s2) => if ws.len() == 0 && !ended0 {
                (Ok(None), s)
            } else if ws.len() == 0 {
                (Err(Error::Syntax(SyntaxError::MismatchedToken(TokenKind::Lit(Rule::S)))), s2)
            } else if ended0 {
                (
                    Err(
                        Error::Syntax(
                            SyntaxError::MismatchedToken(TokenKind::Punct(Punct::VersionKw)),
                        ),
                    ),
                    s2,
                )
            } else {
                match kwval_spec(s2, Punct::VersionKw) {
                    (Err(e), s3) => (Err(e), s3),
                    (Ok(None), s3) => (
                        Err(
                            Error::Syntax(
                                SyntaxError::MismatchedToken(TokenKind::Punct(Punct::VersionKw)),
                            ),
                        ),
                        s3,
                    ),
                    (Ok(Some(version)), s3) => match decl_s_spec(s3) {
                        (Err(e), s4) => (Err(e), s4),
                        (Ok((_, ended1)), s4) => match decl_opt_spec(
                            s4,
                            ended1,
                            Punct::EncodingKw,
                        ) {
                            (Err(e), s5) => (Err(e), s5),
                            (Ok((encoding, ended2)), s5) => match decl_opt_spec(
                                s5,
                                ended2,
                                Punct::StandaloneKw,
                            ) {
                                (Err(e), s6) => (Err(e), s6),
                                (Ok((standalone, ended3)), s6) => match finish_spec(
                                    s6,
                                    Punct::XmlDeclClose,
                                    ended3,
                                ) {
                                    (Err(e), s7) => (Err(e), s7),
                                    (Ok(_), s7) => (
                                        Ok(Some(DeclV { version, encoding, standalone })),
                                        s7,
                                    ),
                                },
                            },
                        },
                    },
                }
            },
        },
    }
}

impl View for Pi {
    type V = Seq<char>;

    open spec fn view(&self) -> Seq<char> {
        self.target@
    }
}

impl View for EndTag {
    type V = Seq<char>;

    open spec fn view(&self) -> Seq<char> {
        self.name@
    }
}

/// A parsed tag: a start tag or an empty-element tag.
#[derive(PartialEq, Debug)]
pub enum TagEvent {
    Start(StartTag),
    Empty(EmptyElem),
}

impl View for TagEvent {
    type V = TagV;

    open spec fn view(&self) -> TagV {
        match self {
            TagEvent::Start(t) => TagV::Start { name: t.name@, attrs: attrs_view(t.attrs@) },
            TagEvent::Empty(t) => TagV::Empty { name: t.name@, attrs: attrs_view(t.attrs@) },
        }
    }
}

/// Whether an executable optional outcome carries the values of the
/// abstract one.
pub open spec fn res_opt_matches<T: View>(
    r: Result<Option<T>, Error>,
    rr: Result<Option<T::V>, Error>,
) -> bool {
    match (r, rr) {
        (Ok(None), Ok(None)) => true,
        (Ok(Some(x)), Ok(Some(v))) => x@ == v,
        (Err(a), Err(b)) => a == b,
        _ => false,
    }
}

/// Parses `S? = S?`, per [`eq_spec`].
fn parse_eq(src: &mut StreamReader) -> (r: Result<(), Error>)
    requires
        old(src).wf(),
    ensures
        final(src).wf(),
        ({
            let (rr, s2) = eq_spec(old(src)@);
            r == rr && final(src)@ == s2
        }),
{
    match try_parse_lit(src, Rule::S) {
        Err(e) => Err(e),
        Ok(_) => {
            if !try_parse_punct(src, Punct::Eq) {
                return Err(
                    Error::Syntax(SyntaxError::MismatchedToken(TokenKind::Punct(Punct::Eq))),
                );
            }
            match try_parse_lit(src, Rule::S) {
                Err(e) => Err(e),
                Ok(_) => Ok(()),
            }
        },
    }
}

/// Attempts an attribute value in either quote style, per
/// [`attvalue_spec`].
fn try_parse_attvalue(src: &mut StreamReader) -> (r: Result<Option<String>, Error>)
    requires
        old(src).wf(),
    ensures
        final(src).wf(),
        ({
            let (rr, s2) = attvalue_spec(old(src)@);
            lit_res_matches(r, rr) && final(src)@ == s2
        }),
{
    match try_parse_delim_lit(src, Punct::DQuote, Rule::AttValue, Punct::DQuote) {
        Ok(None) => try_parse_delim_lit(src, Punct::SQuote, Rule::AttValue, Punct::SQuote),
        other => other,
    }
}

impl Attribute {
    /// Attempts `name = "value"`, per [`attr_spec`].
    pub fn try_parse(src: &mut StreamReader) -> (r: Result<Option<Attribute>, Error>)
        requires
            old(src).wf(),
        ensures
            final(src).wf(),
            ({
                let (rr, s2) = attr_spec(old(src)@);
                res_opt_matches(r, rr) && final(src)@ == s2
            }),
    {
        let name = match try_parse_lit(src, Rule::Name) {
            Err(e) => { return Err(e) },
            Ok(None) => { return Ok(None) },
            Ok(Some(n)) => n,
        };
        match parse_eq(src) {
            Err(e) => { return Err(e) },
            Ok(_) => {},
        }
        match try_parse_attvalue(src) {
            Err(e) => Err(e),
            Ok(None) => Err(
                Error::Syntax(SyntaxError::MismatchedToken(TokenKind::Lit(Rule::AttValue))),
            ),
            Ok(Some(value)) => Ok(Some(Attribute { name, value })),
        }
    }
}

/// Whether an executable optional string carries the abstract one.
pub open spec fn opt_str_matches(o: Option<String>, ov: Option<Seq<char>>) -> bool {
    match (o, ov) {
        (None, None) => true,
        (Some(x), Some(v)) => x@ == v,
        _ => false,
    }
}

/// Attempts a start or empty-element tag, per [`stag_spec`].
pub fn try_parse_tag(src: &mut StreamReader) -> (r: Result<Option<TagEvent>, Error>)
    requires
        old(src).wf(),
    ensures
        final(src).wf(),
        ({
            let (rr, s2) = stag_spec(old(src)@);
            res_opt_matches(r, rr) && final(src)@ == s2
        }),
{
    proof {
        reveal(stag_spec);
        reveal(attrs_spec);
        lemma_wf_remaining(src);
        lemma_try_punct_state(src@, Punct::STagOpen);
    }
    let n_open = match src.accept(Punct::STagOpen) {
        None => { return Ok(None) },
        Some(n) => n,
    };
    src.shift(n_open);
    let ghost s1 = src@;
    let name = match try_parse_lit(src, Rule::Name) {
        Err(e) => { return Err(e) },
        Ok(None) => {
            proof {
                lemma_try_lit_state(s1, Rule::Name);
            }
            src.unshift(n_open);
            proof {
                assert(src@ =~= old(src)@);
            }
            return Ok(None);
        },
        Ok(Some(n)) => n,
    };
    let ghost nm = name@;
    let ghost s2 = src@;
    let mut attrs: Vec<Attribute> = Vec::new();
    proof {
        assert(attrs_view(attrs@) =~= Seq::<AttrV>::empty());
    }
    loop
        invariant
            src.wf(),
            nm == name@,
            attrs_spec(s2, nm, Seq::<AttrV>::empty()) == attrs_spec(src@, nm, attrs_view(attrs@)),
            ({
                let (ra, sa) = attrs_spec(s2, nm, Seq::<AttrV>::empty());
                let (rr, sf) = stag_spec(old(src)@);
                match ra {
                    Err(e) => rr == Err::<Option<TagV>, Error>(e) && sf == sa,
                    Ok(tag) => rr == Ok::<Option<TagV>, Error>(Some(tag)) && sf == sa,
                }
            }),
        decreases remaining(src@),
    {
        let ghost pre = src@;
        proof {
            reveal(attrs_spec);
            lemma_wf_remaining(src);
            lemma_try_lit_state(pre, Rule::S);
        }
        let had_s = match try_parse_lit(src, Rule::S) {
            Err(e) => { return Err(e) },
            Ok(o) => o.is_some(),
        };
        let ghost sa = src@;
        proof {
            lemma_try_punct_state(sa, Punct::EmptyClose);
            lemma_try_punct_state(sa, Punct::TagClose);
        }
        if let Some(n) = src.accept(Punct::EmptyClose) {
            src.shift(n);
            return Ok(Some(TagEvent::Empty(EmptyElem { name, attrs })));
        }
        if let Some(n) = src.accept(Punct::TagClose) {
            src.shift(n);
            return Ok(Some(TagEvent::Start(StartTag { name, attrs })));
        }
        if !had_s {
            return Err(
                Error::Syntax(SyntaxError::MismatchedToken(TokenKind::Punct(Punct::TagClose))),
            );
        }
        proof {
            lemma_attr_state(sa);
        }
        match Attribute::try_parse(src) {
            Err(e) => { return Err(e) },
            Ok(None) => {
                return Err(
                    Error::Syntax(SyntaxError::MismatchedToken(TokenKind::Lit(Rule::Name))),
                );
            },
            Ok(Some(a)) => {
                let ghost av = a@;
                let ghost prev = attrs@;
                attrs.push(a);
                proof {
                    assert(attrs@ == prev.push(a));
                    assert(attrs_view(prev.push(a)) =~= attrs_view(prev).push(av));
                    let (ra, snext) = attr_spec(sa);
                    assert(ra == Ok::<Option<AttrV>, Error>(Some(av)));
                    assert(src@ == snext);
                    assert(attrs_spec(pre, nm, attrs_view(prev)) == attrs_spec(
                        src@,
                        nm,
                        attrs_view(prev).push(av),
                    ));
                }
            },
        }
    }
}

impl EndTag {
    /// Attempts an end tag, per [`etag_spec`].
    pub fn try_parse(src: &mut StreamReader) -> (r: Result<Option<EndTag>, Error>)
        requires
            old(src).wf(),
        ensures
            final(src).wf(),
            ({
                let (rr, s2) = etag_spec(old(src)@);
                res_opt_matches(r, rr) && final(src)@ == s2
            }),
    {
        proof {
            reveal(etag_spec);
            lemma_wf_remaining(src);
            lemma_try_punct_state(src@, Punct::ETagOpen);
        }
        let n_open = match src.accept(Punct::ETagOpen) {
            None => { return Ok(None) },
            Some(n) => n,
        };
        src.shift(n_open);
        let ghost s1 = src@;
        let name = match try_parse_lit(src, Rule::Name) {
            Err(e) => { return Err(e) },
            Ok(None) => {
                proof {
                    lemma_try_lit_state(s1, Rule::Name);
                }
                src.unshift(n_open);
                proof {
                    assert(src@ =~= old(src)@);
                }
                return Ok(None);
            },
            Ok(Some(n)) => n,
        };
        match try_parse_lit(src, Rule::S) {
            Err(e) => { return Err(e) },
            Ok(_) => {},
        }
        let mut tail = TakeUntil::new(Punct::TagClose);
        match tail.finish(src) {
            Err(e) => Err(e),
            Ok(_) => Ok(Some(EndTag { name })),
        }
    }
}

impl Pi {
    /// Attempts a processing instruction, per [`pi_spec`].
    pub fn try_parse(src: &mut StreamReader) -> (r: Result<Option<Pi>, Error>)
        requires
            old(src).wf(),
        ensures
            final(src).wf(),
            ({
                let (rr, s2) = pi_spec(old(src)@);
                res_opt_matches(r, rr) && final(src)@ == s2
            }),
    {
        proof {
            reveal(pi_spec);
            lemma_wf_remaining(src);
            lemma_try_punct_state(src@, Punct::PiOpen);
        }
        let n_open = match src.accept(Punct::PiOpen) {
            None => { return Ok(None) },
            Some(n) => n,
        };
        src.shift(n_open);
        let ghost s1 = src@;
        let (target, end) = src.read_while(Rule::Name, Some(Punct::PiClose));
        if let ScanEnd::Invalid = end {
            return Err(Error::Io(IoErrorKind::InvalidData));
        }
        if target.as_str().is_empty() {
            if let ScanEnd::Delim = end {
                return Err(
                    Error::Syntax(SyntaxError::MismatchedToken(TokenKind::Lit(Rule::Name))),
                );
            }
            proof {
                lemma_rw_apply_state(s1, Rule::Name, Some(Punct::PiClose));
            }
            src.unshift(n_open);
            proof {
                assert(src@ =~= old(src)@);
            }
            return Ok(None);
        }
        if let ScanEnd::Delim = end {
            return Ok(Some(Pi { target }));
        }
        let (_, end2) = src.read_while(Rule::Chars, Some(Punct::PiClose));
        match end2 {
            ScanEnd::Delim => Ok(Some(Pi { target })),
            ScanEnd::Eof => Err(
                Error::Syntax(SyntaxError::UnclosedDelimiter(TokenKind::Punct(Punct::PiClose))),
            ),
            ScanEnd::Halt => Err(
                Error::Syntax(SyntaxError::MismatchedToken(TokenKind::Punct(Punct::PiClose))),
            ),
            ScanEnd::Invalid => Err(Error::Io(IoErrorKind::InvalidData)),
        }
    }
}

/// Parses `keyword = "value"` inside the declaration, per [`kwval_spec`].
fn parse_kwval(src: &mut StreamReader, kw: Punct) -> (r: Result<Option<String>, Error>)
    requires
        old(src).wf(),
    ensures
        final(src).wf(),
        ({
            let (rr, s2) = kwval_spec(old(src)@, kw);
            lit_res_matches(r, rr) && final(src)@ == s2
        }),
{
    if !try_parse_punct(src, kw) {
        return Ok(None);
    }
    match parse_eq(src) {
        Err(e) => { return Err(e) },
        Ok(_) => {},
    }
    match try_parse_attvalue(src) {
        Err(e) => Err(e),
        Ok(None) => Err(Error::Syntax(SyntaxError::MismatchedToken(TokenKind::Lit(Rule::AttValue)))),
        Ok(Some(v)) => Ok(Some(v)),
    }
}

/// One whitespace attempt inside the declaration's region, per
/// [`decl_s_spec`]: the run scanned, and whether `?>` ended the region.
fn parse_decl_s(src: &mut StreamReader) -> (r: Result<(String, bool), Error>)
    requires
        old(src).wf(),
    ensures
        final(src).wf(),
        ({
            let (rr, s2) = decl_s_spec(old(src)@);
            final(src)@ == s2 && (match (r, rr) {
                (Ok(v), Ok(vv)) => v.0@ == vv.0 && v.1 == vv.1,
                (Err(e1), Err(e2)) => e1 == e2,
                _ => false,
            })
        }),
{
    let (ws, end) = src.read_while(Rule::S, Some(Punct::XmlDeclClose));
    match end {
        ScanEnd::Invalid => Err(Error::Io(IoErrorKind::InvalidData)),
        ScanEnd::Delim => Ok((ws, true)),
        _ => Ok((ws, false)),
    }
}

/// One optional `keyword = "value" S?` part of the declaration, per
/// [`decl_opt_spec`].
fn parse_decl_opt(src: &mut StreamReader, ended: bool, kw: Punct) -> (r: Result<
    (Option<String>, bool),
    Error,
>)
    requires
        old(src).wf(),
    ensures
        final(src).wf(),
        ({
            let (rr, s2) = decl_opt_spec(old(src)@, ended, kw);
            final(src)@ == s2 && (match (r, rr) {
                (Ok(v), Ok(vv)) => opt_str_matches(v.0, vv.0) && v.1 == vv.1,
                (Err(e1), Err(e2)) => e1 == e2,
                _ => false,
            })
        }),
{
    if ended {
        return Ok((None, true));
    }
    match parse_kwval(src, kw) {
        Err(e) => Err(e),
        Ok(None) => Ok((None, false)),
        Ok(Some(v)) => match parse_decl_s(src) {
            Err(e) => Err(e),
            Ok((_, e2)) => Ok((Some(v), e2)),
        },
    }
}

impl XmlDecl {
    /// Attempts the XML declaration, per [`decl_spec`].
    pub fn try_parse(src: &mut StreamReader) -> (r: Result<Option<XmlDecl>, Error>)
        requires
            old(src).wf(),
        ensures
            final(src).wf(),
            ({
                let (rr, s2) = decl_spec(old(src)@);
                res_opt_matches(r, rr) && final(src)@ == s2
            }),
    {
        proof {
            reveal(decl_spec);
            lemma_wf_remaining(src);
            lemma_try_punct_state(src@, Punct::XmlDeclOpen);
        }
        let n_open = match src.accept(Punct::XmlDeclOpen) {
            None => { return Ok(None) },
            Some(n) => n,
        };
        src.shift(n_open);
        let ghost s1 = src@;
        let (ws, ended0) = match parse_decl_s(src) {
            Err(e) => { return Err(e) },
            Ok(v) => v,
        };
        if ws.as_str().is_empty() {
            if ended0 {
                return Err(Error::Syntax(SyntaxError::MismatchedToken(TokenKind::Lit(Rule::S))));
            }
            proof {
                lemma_rw_apply_state(s1, Rule::S, Some(Punct::XmlDeclClose));
            }
            src.unshift(n_open);
            proof {
                assert(src@ =~= old(src)@);
            }
            return Ok(None);
        }
        if ended0 {
            return Err(
                Error::Syntax(SyntaxError::MismatchedToken(TokenKind::Punct(Punct::VersionKw))),
            );
        }
        let version = match parse_kwval(src, Punct::VersionKw) {
            Err(e) => { return Err(e) },
            Ok(None) => {
                return Err(
                    Error::Syntax(
                        SyntaxError::MismatchedToken(TokenKind::Punct(Punct::VersionKw)),
                    ),
                );
            },
            Ok(Some(v)) => v,
        };
        let ended1 = match parse_decl_s(src) {
            Err(e) => { return Err(e) },
            Ok((_, e1)) => e1,
        };
        let (encoding, ended2) = match parse_decl_opt(src, ended1, Punct::EncodingKw) {
            Err(e) => { return Err(e) },
            Ok(v) => v,
        };
        let (standalone, ended3) = match parse_decl_opt(src, ended2, Punct::StandaloneKw) {
            Err(e) => { return Err(e) },
            Ok(v) => v,
        };
        if !ended3 {
            let mut tail = TakeUntil::new(Punct::XmlDeclClose);
            match tail.finish(src) {
                Err(e) => { return Err(e) },
                Ok(_) => {},
            }
        }
        Ok(Some(XmlDecl { version, encoding, standalone }))
    }
}

/// The abstract value of the stack of open element names.
pub open spec fn path_view(p: Seq<String>) -> Seq<Seq<char>> {
    p.map_values(|n: String| n@)
}

/// The outcome of attempting one "misc" event: whitespace, a processing
/// instruction, or a comment, in that order.
#[verifier::opaque]
pub open spec fn misc_spec(s: SrcV) -> (Result<Option<EventV>, Error>, SrcV) {
    match try_lit_spec(s, Rule::S) {
        (Err(e), s1) => (Err(e), s1),
        (Ok(Some(ws)), s1) => (Ok(Some(EventV::S(ws))), s1),
        (Ok(None), s1) => match pi_spec(s1) {
            (Err(e), s2) => (Err(e), s2),
            (Ok(Some(t)), s2) => (Ok(Some(EventV::Pi(t))), s2),
            (Ok(None), s2) => match delim_lit_spec(
                s2,
                Punct::CommOpen,
                Rule::Comment,
                Punct::CommClose,
            ) {
                (Err(e), s3) => (Err(e), s3),
                (Ok(Some(c)), s3) => (Ok(Some(EventV::Comment(c))), s3),
                (Ok(None), s3) => (Ok(None), s3),
            },
        },
    }
}

/// The transition taken where a document's prolog or epilog may continue:
/// misc events while present; a start tag opens the root or a further
/// element; an empty-element tag is a whole document here.
pub open spec fn after_xml_spec(s: SrcV, path: Seq<Seq<char>>) -> (Result<EventV, Error>, ReaderV) {
    match misc_spec(s) {
        (Err(e), s1) => (Err(e), ReaderV { src: s1, st: State::AfterXml, path }),
        (Ok(Some(ev)), s1) => (Ok(ev), ReaderV { src: s1, st: State::AfterXml, path }),
        (Ok(None), s1) => match stag_spec(s1) {
            (Err(e), s2) => (Err(e), ReaderV { src: s2, st: State::AfterXml, path }),
            (Ok(Some(TagV::Start { name, attrs })), s2) => (
                Ok(EventV::STag(name, attrs)),
                ReaderV { src: s2, st: State::InElem, path: path.push(name) },
            ),
            (Ok(Some(TagV::Empty { name, attrs })), s2) => (
                Ok(EventV::EmptyElem(name, attrs)),
                ReaderV { src: s2, st: State::AfterRoot, path },
            ),
            (Ok(None), s2) => if s2.rest.len() == s2.shift {
                (
                    Err(Error::Syntax(SyntaxError::UnexpectedEof)),
                    ReaderV { src: s2, st: State::AfterXml, path },
                )
            } else {
                (
                    Err(
                        Error::Syntax(
                            SyntaxError::MismatchedToken(TokenKind::Punct(Punct::STagOpen)),
                        ),
                    ),
                    ReaderV { src: s2, st: State::AfterXml, path },
                )
            },
        },
    }
}

/// The transition taken inside an element, after its text: a start tag
/// descends; an end tag must name the open element, and pops it, closing
/// the document when the stack empties; processing instructions and
/// comments pass through.
pub open spec fn after_text_spec(s: SrcV, path: Seq<Seq<char>>) -> (
    Result<EventV, Error>,
    ReaderV,
) {
    match stag_spec(s) {
        (Err(e), s1) => (Err(e), ReaderV { src: s1, st: State::InElem, path }),
        (Ok(Some(TagV::Start { name, attrs })), s1) => (
            Ok(EventV::STag(name, attrs)),
            ReaderV { src: s1, st: State::InElem, path: path.push(name) },
        ),
        (Ok(Some(TagV::Empty { name, attrs })), s1) => (
            Ok(EventV::EmptyElem(name, attrs)),
            ReaderV { src: s1, st: State::InElem, path },
        ),
        (Ok(None), s1) => match etag_spec(s1) {
            (Err(e), s2) => (Err(e), ReaderV { src: s2, st: State::InElem, path }),
            (Ok(Some(name)), s2) => if path.len() == 0 {
                (
                    Err(
                        Error::Syntax(
                            SyntaxError::UnexpectedDelimiter(TokenKind::Punct(Punct::ETagOpen)),
                        ),
                    ),
                    ReaderV { src: s2, st: State::InElem, path },
                )
            } else if path.last() == name {
                (
                    Ok(EventV::ETag(name)),
                    ReaderV {
                        src: s2,
                        st: if path.drop_last().len() == 0 {
                            State::AfterRoot
                        } else {
                            State::InElem
                        },
                        path: path.drop_last(),
                    },
                )
            } else {
                (
                    Err(
                        Error::Syntax(
                            SyntaxError::UnexpectedDelimiter(TokenKind::Punct(Punct::ETagOpen)),
                        ),
                    ),
                    ReaderV { src: s2, st: State::InElem, path: path.drop_last() },
                )
            },
            (Ok(None), s2) => match pi_spec(s2) {
                (Err(e), s3) => (Err(e), ReaderV { src: s3, st: State::InElem, path }),
                (Ok(Some(t)), s3) => (
                    Ok(EventV::Pi(t)),
                    ReaderV { src: s3, st: State::InElem, path },
                ),
                (Ok(None), s3) => match delim_lit_spec(
                    s3,
                    Punct::CommOpen,
                    Rule::Comment,
                    Punct::CommClose,
                ) {
                    (Err(e), s4) => (Err(e), ReaderV { src: s4, st: State::InElem, path }),
                    (Ok(Some(c)), s4) => (
                        Ok(EventV::Comment(c)),
                        ReaderV { src: s4, st: State::InElem, path },
                    ),
                    (Ok(None), s4) => if s4.rest.len() == s4.shift {
                        (
                            Err(Error::Syntax(SyntaxError::UnexpectedEof)),
                            ReaderV { src: s4, st: State::InElem, path },
                        )
                    } else {
                        (
                            Err(
                                Error::Syntax(
                                    SyntaxError::MismatchedToken(
                                        TokenKind::Punct(Punct::STagOpen),
                                    ),
                                ),
                            ),
                            ReaderV { src: s4, st: State::InElem, path },
                        )
                    },
                },
            },
        },
    }
}

/// The transition taken after the root element closed: misc events until
/// the input is exhausted, then a steady `Eof`.
pub open spec fn after_root_spec(s: SrcV, path: Seq<Seq<char>>) -> (
    Result<EventV, Error>,
    ReaderV,
) {
    if s.rest.len() == s.shift {
        (Ok(EventV::Eof), ReaderV { src: s, st: State::Eof, path })
    } else {
        match misc_spec(s) {
            (Err(e), s1) => (Err(e), ReaderV { src: s1, st: State::AfterRoot, path }),
            (Ok(Some(ev)), s1) => (Ok(ev), ReaderV { src: s1, st: State::AfterRoot, path }),
            (Ok(None), s1) => (
                Err(Error::Syntax(SyntaxError::MismatchedToken(TokenKind::Eof))),
                ReaderV { src: s1, st: State::AfterRoot, path },
            ),
        }
    }
}

/// One step of the reader: the event produced and the state that follows,
/// as a function of the abstract state alone.
#[verifier::opaque]
pub open spec fn next_spec(m: ReaderV) -> (Result<EventV, Error>, ReaderV) {
    match m.st {
        State::Start => match decl_spec(m.src) {
            (Err(e), s1) => (Err(e), ReaderV { src: s1, st: State::AfterXml, path: m.path }),
            (Ok(Some(d)), s1) => (
                Ok(EventV::Xml(d)),
                ReaderV { src: s1, st: State::AfterXml, path: m.path },
            ),
            (Ok(None), s1) => after_xml_spec(s1, m.path),
        },
        State::AfterXml => after_xml_spec(m.src, m.path),
        State::InElem => match try_lit_spec(m.src, Rule::Text) {
            (Err(e), s1) => (Err(e), ReaderV { src: s1, st: State::AfterText, path: m.path }),
            (Ok(Some(t)), s1) => (
                Ok(EventV::Text(t)),
                ReaderV { src: s1, st: State::AfterText, path: m.path },
            ),
            (Ok(None), s1) => after_text_spec(s1, m.path),
        },
        State::AfterText => after_text_spec(m.src, m.path),
        State::AfterRoot => after_root_spec(m.src, m.path),
        State::Eof => (Ok(EventV::Eof), m),
    }
}

/// Whether an executable event outcome carries the values of the abstract
/// one.
pub open spec fn event_res_matches(r: Result<XmlEvent, Error>, rr: Result<EventV, Error>) -> bool {
    match (r, rr) {
        (Ok(e), Ok(ev)) => e@ == ev,
        (Err(a), Err(b)) => a == b,
        _ => false,
    }
}

/// Attempts one "misc" event, per [`misc_spec`].
pub fn try_parse_misc(src: &mut StreamReader) -> (r: Result<Option<XmlEvent>, Error>)
    requires
        old(src).wf(),
    ensures
        final(src).wf(),
        ({
            let (rr, s2) = misc_spec(old(src)@);
            res_opt_matches(r, rr) && final(src)@ == s2
        }),
{
    proof {
        reveal(misc_spec);
    }
    match try_parse_lit(src, Rule::S) {
        Err(e) => Err(e),
        Ok(Some(ws)) => Ok(Some(XmlEvent::S(ws))),
        Ok(None) => match Pi::try_parse(src) {
            Err(e) => Err(e),
            Ok(Some(pi)) => Ok(Some(XmlEvent::Pi(pi))),
            Ok(None) => match try_parse_delim_lit(
                src,
                Punct::CommOpen,
                Rule::Comment,
                Punct::CommClose,
            ) {
                Err(e) => Err(e),
                Ok(Some(c)) => Ok(Some(XmlEvent::Comment(c))),
                Ok(None) => Ok(None),
            },
        },
    }
}

/// The pull reader: the cursor, the machine's state, and the stack of open
/// element names.
pub struct EventReader {
    src: StreamReader,
    st: State,
    path: Vec<String>,
}

impl View for EventReader {
    type V = ReaderV;

    closed spec fn view(&self) -> ReaderV {
        ReaderV { src: self.src@, st: self.st, path: path_view(self.path@) }
    }
}

impl EventReader {
    /// The reader's cursor is well-formed.
    pub closed spec fn wf(self) -> bool {
        self.src.wf()
    }

    /// A reader over the given cursor, in the start state with no open
    /// elements.
    pub fn new(src: StreamReader) -> (r: EventReader)
        requires
            src.wf(),
        ensures
            r.wf(),
            r@ == (ReaderV { src: src@, st: State::Start, path: Seq::empty() }),
    {
        let r = EventReader { src, st: State::Start, path: Vec::new() };
        proof {
            assert(r@.path =~= Seq::<Seq<char>>::empty());
            assert(r@ =~= ReaderV { src: r.src@, st: State::Start, path: Seq::empty() });
        }
        r
    }

    /// A reader over the given chunk deliveries.
    pub fn from_chunks(chunks: Vec<Vec<u8>>) -> (r: EventReader)
        ensures
            r.wf(),
            r@ == (ReaderV {
                src: stream_reader::init_src(chunks@.map_values(|v: Vec<u8>| v@).flatten()),
                st: State::Start,
                path: Seq::empty(),
            }),
    {
        EventReader::new(StreamReader::new(chunks))
    }

    fn handle_after_xml(&mut self) -> (r: Result<XmlEvent, Error>)
        requires
            old(self).wf(),
        ensures
            final(self).wf(),
            ({
                let (rr, m2) = after_xml_spec(old(self)@.src, old(self)@.path);
                event_res_matches(r, rr) && final(self)@ == m2
            }),
    {
        self.st = State::AfterXml;
        match try_parse_misc(&mut self.src) {
            Err(e) => Err(e),
            Ok(Some(ev)) => Ok(ev),
            Ok(None) => match try_parse_tag(&mut self.src) {
                Err(e) => Err(e),
                Ok(Some(TagEvent::Start(t))) => {
                    let nm = t.name.clone();
                    let ghost pv = self.path@;
                    self.path.push(nm);
                    proof {
                        assert(path_view(self.path@) =~= path_view(pv).push(t.name@));
                    }
                    self.st = State::InElem;
                    Ok(XmlEvent::STag(t))
                },
                Ok(Some(TagEvent::Empty(t))) => {
                    self.st = State::AfterRoot;
                    Ok(XmlEvent::EmptyElem(t))
                },
                Ok(None) => {
                    if self.src.is_empty() {
                        Err(Error::Syntax(SyntaxError::UnexpectedEof))
                    } else {
                        Err(
                            Error::Syntax(
                                SyntaxError::MismatchedToken(TokenKind::Punct(Punct::STagOpen)),
                            ),
                        )
                    }
                },
            },
        }
    }

    fn handle_after_text(&mut self) -> (r: Result<XmlEvent, Error>)
        requires
            old(self).wf(),
        ensures
            final(self).wf(),
            ({
                let (rr, m2) = after_text_spec(old(self)@.src, old(self)@.path);
                event_res_matches(r, rr) && final(self)@ == m2
            }),
    {
        self.st = State::InElem;
        match try_parse_tag(&mut self.src) {
            Err(e) => Err(e),
            Ok(Some(TagEvent::Start(t))) => {
                let nm = t.name.clone();
                let ghost pv = self.path@;
                self.path.push(nm);
                proof {
                    assert(path_view(self.path@) =~= path_view(pv).push(t.name@));
                }
                Ok(XmlEvent::STag(t))
            },
            Ok(Some(TagEvent::Empty(t))) => Ok(XmlEvent::EmptyElem(t)),
            Ok(None) => match EndTag::try_parse(&mut self.src) {
                Err(e) => Err(e),
                Ok(Some(et)) => {
                    let ghost pv = self.path@;
                    match self.path.pop() {
                        None => Err(
                            Error::Syntax(
                                SyntaxError::UnexpectedDelimiter(
                                    TokenKind::Punct(Punct::ETagOpen),
                                ),
                            ),
                        ),
                        Some(top) => {
                            proof {
                                assert(path_view(self.path@) =~= path_view(pv).drop_last());
                                assert(top@ == path_view(pv).last());
                            }
                            if top == et.name {
                                if self.path.len() == 0 {
                                    self.st = State::AfterRoot;
                                }
                                Ok(XmlEvent::ETag(et))
                            } else {
                                Err(
                                    Error::Syntax(
                                        SyntaxError::UnexpectedDelimiter(
                                            TokenKind::Punct(Punct::ETagOpen),
                                        ),
                                    ),
                                )
                            }
                        },
                    }
                },
                Ok(None) => match Pi::try_parse(&mut self.src) {
                    Err(e) => Err(e),
                    Ok(Some(pi)) => Ok(XmlEvent::Pi(pi)),
                    Ok(None) => match try_parse_delim_lit(
                        &mut self.src,
                        Punct::CommOpen,
                        Rule::Comment,
                        Punct::CommClose,
                    ) {
                        Err(e) => Err(e),
                        Ok(Some(c)) => Ok(XmlEvent::Comment(c)),
                        Ok(None) => {
                            if self.src.is_empty() {
                                Err(Error::Syntax(SyntaxError::UnexpectedEof))
                            } else {
                                Err(
                                    Error::Syntax(
                                        SyntaxError::MismatchedToken(
                                            TokenKind::Punct(Punct::STagOpen),
                                        ),
                                    ),
                                )
                            }
                        },
                    },
                },
            },
        }
    }

    fn handle_after_root(&mut self) -> (r: Result<XmlEvent, Error>)
        requires
            old(self).wf(),
        ensures
            final(self).wf(),
            ({
                let (rr, m2) = after_root_spec(old(self)@.src, old(self)@.path);
                event_res_matches(r, rr) && final(self)@ == m2
            }),
    {
        self.st = State::AfterRoot;
        if self.src.is_empty() {
            self.st = State::Eof;
            return Ok(XmlEvent::Eof);
        }
        match try_parse_misc(&mut self.src) {
            Err(e) => Err(e),
            Ok(Some(ev)) => Ok(ev),
            Ok(None) => Err(Error::Syntax(SyntaxError::MismatchedToken(TokenKind::Eof))),
        }
    }

    /// Produces the next structural event of the document, per
    /// [`next_spec`]: one event for each call, ending in a steady,
    /// repeatable `Eof`. After a syntax error the reader is not meant to
    /// continue.
    pub fn next_event(&mut self) -> (r: Result<XmlEvent, Error>)
        requires
            old(self).wf(),
        ensures
            final(self).wf(),
            ({
                let (rr, m2) = next_spec(old(self)@);
                event_res_matches(r, rr) && final(self)@ == m2
            }),
    {
        proof {
            reveal(next_spec);
        }
        match self.st {
            State::Start => {
                self.st = State::AfterXml;
                match XmlDecl::try_parse(&mut self.src) {
                    Err(e) => Err(e),
                    Ok(Some(d)) => Ok(XmlEvent::Xml(d)),
                    Ok(None) => self.handle_after_xml(),
                }
            },
            State::AfterXml => self.handle_after_xml(),
            State::InElem => {
                self.st = State::AfterText;
                match try_parse_lit(&mut self.src, Rule::Text) {
                    Err(e) => Err(e),
                    Ok(Some(t)) => Ok(XmlEvent::Text(t)),
                    Ok(None) => self.handle_after_text(),
                }
            },
            State::AfterText => self.handle_after_text(),
            State::AfterRoot => self.handle_after_root(),
            State::Eof => Ok(XmlEvent::Eof),
        }
    }
}

} // verus!
