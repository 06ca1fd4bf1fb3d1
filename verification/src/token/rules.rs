//! Character-class rules implementing XML's lexical productions.
//!
//! A literal token is a run of characters accepted by one of these rules.
//! Two of the rules are stateful: the comment body remembers whether the
//! previous character was a hyphen, so that `--` can never appear inside a
//! comment, and character data tracks the longest prefix of `]]>` matched so
//! far, so that exactly that sequence is rejected while `]]` alone remains
//! legal content. A rule is therefore a small automaton: a state, an
//! acceptance test and a transition.

use vstd::prelude::*;

verus! {

/// The rule-driven literal token families.
#[derive(Clone, Copy, PartialEq, Eq, Debug, Structural)]
pub enum Rule {
    /// A run of whitespace.
    S,
    /// An element or attribute name.
    Name,
    /// An attribute value, inside its quotes.
    AttValue,
    /// A comment body, inside `<!--` and `-->`.
    Comment,
    /// Character data between tags.
    Text,
    /// Any run of XML-legal characters; used to skip the body of a
    /// processing instruction.
    Chars,
}

/// Any character XML allows to appear at all.
pub open spec fn char_spec(u: u32) -> bool {
    u == 0x9 || u == 0xA || u == 0xD || (0x20 <= u && u <= 0xD7FF) || (0xE000 <= u && u <= 0xFFFD)
        || (0x1_0000 <= u && u <= 0x10_FFFF)
}

/// Whitespace: space, tab, carriage return, line feed.
pub open spec fn white_space_spec(u: u32) -> bool {
    u == 0x20 || u == 0x9 || u == 0xD || u == 0xA
}

/// A character that may open a name.
pub open spec fn name_start_char_spec(u: u32) -> bool {
    u == 0x3A || (0x41 <= u && u <= 0x5A) || u == 0x5F || (0x61 <= u && u <= 0x7A) || (0xC0 <= u
        && u <= 0xD6) || (0xD8 <= u && u <= 0xF6) || (0xF8 <= u && u <= 0x2FF) || (0x370 <= u && u
        <= 0x37D) || (0x37F <= u && u <= 0x1FFF) || (0x200C <= u && u <= 0x200D) || (0x2070 <= u
        && u <= 0x218F) || (0x2C00 <= u && u <= 0x2FEF) || (0x3001 <= u && u <= 0xD7FF) || (0xF900
        <= u && u <= 0xFDCF) || (0xFDF0 <= u && u <= 0xFFFD) || (0x1_0000 <= u && u <= 0xE_FFFF)
}

/// A character that may continue a name.
pub open spec fn name_char_spec(u: u32) -> bool {
    name_start_char_spec(u) || u == 0x2D || u == 0x2E || (0x30 <= u && u <= 0x39) || u == 0xB7 || (
    0x300 <= u && u <= 0x36F) || (0x203F <= u && u <= 0x2040)
}

/// An attribute value character: anything but `<` and `&`.
pub open spec fn att_value_spec(u: u32) -> bool {
    u != 0x3C && u != 0x26
}

/// Whether `rule` in state `st` accepts the character `c`.
pub open spec fn rule_accepts(rule: Rule, st: u8, c: char) -> bool {
    let u = c as u32;
    match rule {
        Rule::S => white_space_spec(u),
        Rule::Name => if st == 0 {
            name_start_char_spec(u)
        } else {
            name_char_spec(u)
        },
        Rule::AttValue => att_value_spec(u),
        Rule::Comment => if c == '-' {
            st == 0
        } else {
            char_spec(u)
        },
        Rule::Text => !(st == 2 && c == '>') && u != 0x3C && u != 0x26,
        Rule::Chars => char_spec(u),
    }
}

/// The state of `rule` after accepting the character `c` in state `st`.
pub open spec fn rule_next(rule: Rule, st: u8, c: char) -> u8 {
    match rule {
        Rule::Name => 1,
        Rule::Comment => if c == '-' {
            1
        } else {
            0
        },
        Rule::Text => if c == ']' {
            if st == 0 {
                1
            } else {
                2
            }
        } else {
            0
        },
        _ => 0,
    }
}

/// Any character XML allows to appear at all.
pub fn accept_as_char(c: char) -> (r: bool)
    ensures
        r == char_spec(c as u32),
{
    let u = c as u32;
    u == 0x9 || u == 0xA || u == 0xD || (0x20 <= u && u <= 0xD7FF) || (0xE000 <= u && u <= 0xFFFD)
        || (0x1_0000 <= u && u <= 0x10_FFFF)
}

/// Whitespace: space, tab, carriage return, line feed.
pub fn accept_as_white_space(c: char) -> (r: bool)
    ensures
        r == white_space_spec(c as u32),
{
    let u = c as u32;
    u == 0x20 || u == 0x9 || u == 0xD || u == 0xA
}

/// A character that may open a name.
pub fn accept_as_name_start_char(c: char) -> (r: bool)
    ensures
        r == name_start_char_spec(c as u32),
{
    let u = c as u32;
    u == 0x3A || (0x41 <= u && u <= 0x5A) || u == 0x5F || (0x61 <= u && u <= 0x7A) || (0xC0 <= u
        && u <= 0xD6) || (0xD8 <= u && u <= 0xF6) || (0xF8 <= u && u <= 0x2FF) || (0x370 <= u && u
        <= 0x37D) || (0x37F <= u && u <= 0x1FFF) || (0x200C <= u && u <= 0x200D) || (0x2070 <= u
        && u <= 0x218F) || (0x2C00 <= u && u <= 0x2FEF) || (0x3001 <= u && u <= 0xD7FF) || (0xF900
        <= u && u <= 0xFDCF) || (0xFDF0 <= u && u <= 0xFFFD) || (0x1_0000 <= u && u <= 0xE_FFFF)
}

/// A character that may continue a name.
pub fn accept_as_name_char(c: char) -> (r: bool)
    ensures
        r == name_char_spec(c as u32),
{
    let u = c as u32;
    accept_as_name_start_char(c) || u == 0x2D || u == 0x2E || (0x30 <= u && u <= 0x39) || u == 0xB7
        || (0x300 <= u && u <= 0x36F) || (0x203F <= u && u <= 0x2040)
}

/// An attribute value character: anything but `<` and `&`.
pub fn accept_as_att_value(c: char) -> (r: bool)
    ensures
        r == att_value_spec(c as u32),
{
    let u = c as u32;
    u != 0x3C && u != 0x26
}

/// One step of the name rule: a start character first, then continuations.
pub fn accept_as_name(st: u8, c: char) -> (r: bool)
    ensures
        r == rule_accepts(Rule::Name, st, c),
{
    if st == 0 {
        accept_as_name_start_char(c)
    } else {
        accept_as_name_char(c)
    }
}

/// One step of the comment-body rule: a hyphen is accepted only when the
/// previously accepted character was not one.
pub fn accept_as_comment(st: u8, c: char) -> (r: bool)
    ensures
        r == rule_accepts(Rule::Comment, st, c),
{
    if c == '-' {
        st == 0
    } else {
        accept_as_char(c)
    }
}

/// One step of the character-data rule: rejects `<` and `&`, and the `>`
/// that would complete the sequence `]]>`.
pub fn accept_as_char_data(st: u8, c: char) -> (r: bool)
    ensures
        r == rule_accepts(Rule::Text, st, c),
{
    let u = c as u32;
    !(st == 2 && c == '>') && u != 0x3C && u != 0x26
}

/// One step of `rule` from state `st` on the character `c`: whether it is
/// accepted, and the following state.
pub fn rule_step(rule: Rule, st: u8, c: char) -> (r: (bool, u8))
    ensures
        r.0 == rule_accepts(rule, st, c),
        r.1 == rule_next(rule, st, c),
{
    let accepted = match rule {
        Rule::S => accept_as_white_space(c),
        Rule::Name => accept_as_name(st, c),
        Rule::AttValue => accept_as_att_value(c),
        Rule::Comment => accept_as_comment(st, c),
        Rule::Text => accept_as_char_data(st, c),
        Rule::Chars => accept_as_char(c),
    };
    let next = match rule {
        Rule::Name => 1,
        Rule::Comment => if c == '-' {
            1
        } else {
            0
        },
        Rule::Text => if c == ']' {
            if st == 0 {
                1
            } else {
                2
            }
        } else {
            0
        },
        _ => 0,
    };
    (accepted, next)
}

} // verus!
