//! The buffered cursor over a chunked byte source.
//!
//! The underlying source delivers its bytes as a sequence of chunks; the
//! cursor buffers them on demand, compacting away committed bytes on refill,
//! and presents a decode-on-demand, backtrackable view. Its abstract state
//! is [`SrcV`]: the bytes not yet committed, a rewindable lookahead offset
//! into them, and the encoding detected once from the first bytes. Every
//! operation is specified as a function of that state alone, so behaviour
//! provably does not depend on how the input was split into chunks: a
//! multi-byte character or a delimiter straddling a chunk boundary is
//! buffered before it is tested.

use vstd::prelude::*;
use vstd::slice::slice_subrange;

use crate::encoding::{
    decode_char, decode_char_spec, detect, detect_spec, lemma_decode_prefix, lemma_detect_prefix,
    max_char_width, widen, widen_spec, Decoded, Encoding,
};
use crate::error::{Error, SyntaxError};
use crate::token::rules::{rule_accepts, rule_next, rule_step, Rule};
use crate::token::{lemma_punct_lit_len, punct_bytes, punct_lit, Punct, TokenKind};

verus! {

/// The abstract state of a cursor: the bytes not yet committed, the
/// lookahead offset into them, and the detected encoding.
#[verifier::ext_equal]
pub ghost struct SrcV {
    pub rest: Seq<u8>,
    pub shift: nat,
    pub enc: Encoding,
}

/// Whether `s` begins with `p`.
pub open spec fn starts_with(s: Seq<u8>, p: Seq<u8>) -> bool {
    p.len() <= s.len() && s.take(p.len() as int) == p
}

/// The abstract state a cursor starts in, given the concatenated bytes of
/// the source: the encoding is detected from the first bytes and the
/// byte-order mark, if any, is committed.
pub open spec fn init_src(bytes: Seq<u8>) -> SrcV {
    let (enc, bom) = detect_spec(bytes);
    SrcV { rest: bytes.skip(bom as int), shift: 0, enc }
}

/// How a run of scanning ended.
#[derive(Clone, Copy, PartialEq, Eq, Debug, Structural)]
pub enum ScanEnd {
    /// The stop delimiter was found, and consumed.
    Delim,
    /// The next character was rejected by the rule, and not consumed.
    Halt,
    /// Input ended before the next character or the delimiter.
    Eof,
    /// The next bytes are not a character in the detected encoding.
    Invalid,
}

/// The outcome of one run of scanning: the accepted characters, the bytes
/// consumed (the delimiter's included, when it ended the run), and how the
/// run ended.
pub ghost struct Scan {
    pub chars: Seq<char>,
    pub consumed: nat,
    pub end: ScanEnd,
}

/// One run of rule-driven scanning over `bytes`: characters are decoded and
/// accepted while the rule holds of them and the remaining input does not
/// begin with the stop delimiter; the delimiter, when found, is consumed.
#[verifier::opaque]
pub open spec fn rw_spec(
    enc: Encoding,
    rule: Rule,
    st: u8,
    delim: Option<Seq<u8>>,
    bytes: Seq<u8>,
) -> Scan
    decreases bytes.len(),
{
    let hit = match delim {
        Some(d) => starts_with(bytes, d),
        None => false,
    };
    let dlen: nat = match delim {
        Some(d) => d.len(),
        None => 0,
    };
    if hit {
        Scan { chars: seq![], consumed: dlen, end: ScanEnd::Delim }
    } else {
        match decode_char_spec(enc, bytes) {
            Decoded::Scalar(c, n) => if rule_accepts(rule, st, c) {
                if 1 <= n <= bytes.len() {
                    let r = rw_spec(enc, rule, rule_next(rule, st, c), delim, bytes.skip(n as int));
                    Scan { chars: seq![c] + r.chars, consumed: (n + r.consumed) as nat, end: r.end }
                } else {
                    Scan { chars: seq![], consumed: 0, end: ScanEnd::Invalid }
                }
            } else {
                Scan { chars: seq![], consumed: 0, end: ScanEnd::Halt }
            },
            Decoded::NeedMore => Scan { chars: seq![], consumed: 0, end: ScanEnd::Eof },
            Decoded::Invalid => Scan { chars: seq![], consumed: 0, end: ScanEnd::Invalid },
        }
    }
}

/// A decoded character occupies at least one byte and no more than the
/// sequence holds.
pub proof fn lemma_decode_scalar_len(enc: Encoding, bytes: Seq<u8>)
    ensures
        decode_char_spec(enc, bytes) matches Decoded::Scalar(c, n) ==> 1 <= n <= bytes.len() && n
            <= max_char_width(),
{
    reveal(crate::encoding::decode_utf8_spec);
    reveal(crate::encoding::decode_utf16_spec);
}

/// No stop delimiter is present at the front of `bytes`.
pub open spec fn no_hit(delim: Option<Seq<u8>>, bytes: Seq<u8>) -> bool {
    match delim {
        Some(d) => !starts_with(bytes, d),
        None => true,
    }
}

/// Scanning where the input begins with the stop delimiter consumes it and
/// nothing else.
pub proof fn lemma_rw_delim(enc: Encoding, rule: Rule, st: u8, d: Seq<u8>, bytes: Seq<u8>)
    requires
        starts_with(bytes, d),
    ensures
        rw_spec(enc, rule, st, Some(d), bytes) == (Scan {
            chars: seq![],
            consumed: d.len(),
            end: ScanEnd::Delim,
        }),
{
    reveal(rw_spec);
}

/// Scanning stops, consuming nothing, where the rule rejects the next
/// character.
pub proof fn lemma_rw_halt(
    enc: Encoding,
    rule: Rule,
    st: u8,
    delim: Option<Seq<u8>>,
    bytes: Seq<u8>,
    c: char,
    n: usize,
)
    requires
        no_hit(delim, bytes),
        decode_char_spec(enc, bytes) == Decoded::Scalar(c, n),
        !rule_accepts(rule, st, c),
    ensures
        rw_spec(enc, rule, st, delim, bytes) == (Scan {
            chars: seq![],
            consumed: 0,
            end: ScanEnd::Halt,
        }),
{
    reveal(rw_spec);
}

/// Scanning ends at the end of input, consuming nothing.
pub proof fn lemma_rw_eof(enc: Encoding, rule: Rule, st: u8, delim: Option<Seq<u8>>, bytes: Seq<u8>)
    requires
        no_hit(delim, bytes),
        decode_char_spec(enc, bytes) is NeedMore,
    ensures
        rw_spec(enc, rule, st, delim, bytes) == (Scan {
            chars: seq![],
            consumed: 0,
            end: ScanEnd::Eof,
        }),
{
    reveal(rw_spec);
}

/// Scanning ends on bytes that are no character, consuming nothing.
pub proof fn lemma_rw_invalid(
    enc: Encoding,
    rule: Rule,
    st: u8,
    delim: Option<Seq<u8>>,
    bytes: Seq<u8>,
)
    requires
        no_hit(delim, bytes),
        decode_char_spec(enc, bytes) is Invalid,
    ensures
        rw_spec(enc, rule, st, delim, bytes) == (Scan {
            chars: seq![],
            consumed: 0,
            end: ScanEnd::Invalid,
        }),
{
    reveal(rw_spec);
}

/// Scanning takes an accepted character and continues after it, in the
/// rule's next state.
pub proof fn lemma_rw_cons(
    enc: Encoding,
    rule: Rule,
    st: u8,
    delim: Option<Seq<u8>>,
    bytes: Seq<u8>,
    c: char,
    n: usize,
)
    requires
        no_hit(delim, bytes),
        decode_char_spec(enc, bytes) == Decoded::Scalar(c, n),
        rule_accepts(rule, st, c),
    ensures
        ({
            let r = rw_spec(enc, rule, rule_next(rule, st, c), delim, bytes.skip(n as int));
            rw_spec(enc, rule, st, delim, bytes) == (Scan {
                chars: seq![c] + r.chars,
                consumed: (n + r.consumed) as nat,
                end: r.end,
            })
        }),
{
    reveal(rw_spec);
    lemma_decode_scalar_len(enc, bytes);
}

/// The stop bytes of an optional delimiter under the given encoding.
pub open spec fn delim_bytes_spec(enc: Encoding, delim: Option<Punct>) -> Option<Seq<u8>> {
    match delim {
        Some(p) => Some(widen_spec(enc, punct_lit(p))),
        None => None,
    }
}

/// One run of scanning applied to an abstract cursor state: the scan starts
/// at the lookahead position; if anything was consumed, the consumed bytes
/// and the pending lookahead are committed together.
pub open spec fn rw_apply(s: SrcV, rule: Rule, delim: Option<Punct>) -> (Scan, SrcV) {
    let sc = rw_spec(s.enc, rule, 0, delim_bytes_spec(s.enc, delim), s.rest.skip(s.shift as int));
    let s2 = if sc.consumed == 0 {
        s
    } else {
        SrcV { rest: s.rest.skip((s.shift + sc.consumed) as int), shift: 0, enc: s.enc }
    };
    (sc, s2)
}

/// The byte length of a punctuation literal at the lookahead position, if
/// the upcoming bytes spell it in the detected encoding.
pub open spec fn accept_spec(s: SrcV, p: Punct) -> Option<usize> {
    let nb = widen_spec(s.enc, punct_lit(p));
    if starts_with(s.rest.skip(s.shift as int), nb) {
        Some(nb.len() as usize)
    } else {
        None
    }
}

/// The concatenation of the chunks from `next` on: the bytes a source
/// still holds. Kept opaque so that reasoning above the buffer layer treats
/// it as one sequence.
#[verifier::opaque]
pub open spec fn pending_of(chunks: Seq<Vec<u8>>, next: int) -> Seq<u8> {
    chunks.map_values(|v: Vec<u8>| v@).skip(next).flatten()
}

/// Skipping twice is skipping the sum.
proof fn lemma_skip_skip<A>(s: Seq<A>, a: int, b: int)
    requires
        0 <= a,
        0 <= b,
        a + b <= s.len(),
    ensures
        s.skip(a).skip(b) == s.skip(a + b),
{
    assert(s.skip(a).skip(b) =~= s.skip(a + b));
}

/// The bytes left past the lookahead position.
pub open spec fn remaining(s: SrcV) -> int {
    s.rest.len() - s.shift
}

/// An abstract cursor state is sound: the lookahead lies inside the
/// remaining bytes.
pub open spec fn view_wf(s: SrcV) -> bool {
    s.shift <= s.rest.len()
}

/// A well-formed cursor's abstract state is sound.
pub proof fn lemma_wf_remaining(r: &StreamReader)
    requires
        r.wf(),
    ensures
        view_wf(r@),
{
}

/// The outcome of matching a punctuation literal and advancing the
/// lookahead over it: the literal matched or the state is unchanged.
pub open spec fn try_punct_spec(s: SrcV, p: Punct) -> (bool, SrcV) {
    match accept_spec(s, p) {
        Some(n) => (true, SrcV { shift: (s.shift + n) as nat, ..s }),
        None => (false, s),
    }
}

/// A scan never consumes more bytes than the input holds.
pub proof fn lemma_rw_consumed_le(
    enc: Encoding,
    rule: Rule,
    st: u8,
    delim: Option<Seq<u8>>,
    bytes: Seq<u8>,
)
    ensures
        rw_spec(enc, rule, st, delim, bytes).consumed <= bytes.len(),
    decreases bytes.len(),
{
    reveal(rw_spec);
    let hit = match delim {
        Some(d) => starts_with(bytes, d),
        None => false,
    };
    if !hit {
        match decode_char_spec(enc, bytes) {
            Decoded::Scalar(c, n) => {
                if rule_accepts(rule, st, c) && 1 <= n <= bytes.len() {
                    lemma_rw_consumed_le(enc, rule, rule_next(rule, st, c), delim, bytes.skip(
                        n as int,
                    ));
                }
            },
            _ => {},
        }
    }
}

/// A scan without a stop delimiter never reports one.
pub proof fn lemma_rw_no_delim(enc: Encoding, rule: Rule, st: u8, bytes: Seq<u8>)
    ensures
        !(rw_spec(enc, rule, st, Option::<Seq<u8>>::None, bytes).end is Delim),
    decreases bytes.len(),
{
    reveal(rw_spec);
    match decode_char_spec(enc, bytes) {
        Decoded::Scalar(c, n) => {
            if rule_accepts(rule, st, c) && 1 <= n <= bytes.len() {
                lemma_rw_no_delim(enc, rule, rule_next(rule, st, c), bytes.skip(n as int));
            }
        },
        _ => {},
    }
}

/// How a scan relates the states before and after it: what it consumed is
/// bounded by the input; an accepted character costs at least a byte; a
/// scan that accepted nothing and found no delimiter changes nothing.
pub proof fn lemma_rw_apply_state(s: SrcV, rule: Rule, delim: Option<Punct>)
    requires
        s.shift <= s.rest.len(),
    ensures
        ({
            let (sc, s2) = rw_apply(s, rule, delim);
            &&& s2.shift <= s2.rest.len()
            &&& remaining(s2) == remaining(s) - sc.consumed
            &&& sc.consumed <= remaining(s)
            &&& (sc.chars.len() > 0 ==> sc.consumed >= 1)
            &&& (sc.chars.len() == 0 && !(sc.end is Delim) ==> s2 == s && sc.consumed == 0)
            &&& (delim is None ==> !(sc.end is Delim))
            &&& s2.enc == s.enc
        }),
{
    let d = delim_bytes_spec(s.enc, delim);
    let bytes = s.rest.skip(s.shift as int);
    lemma_rw_consumed_le(s.enc, rule, 0, d, bytes);
    match delim {
        Some(_) => {},
        None => {
            lemma_rw_no_delim(s.enc, rule, 0, bytes);
        },
    }
    let sc = rw_spec(s.enc, rule, 0, d, bytes);
    assert(sc.chars.len() > 0 ==> sc.consumed >= 1) by {
        reveal(rw_spec);
    }
    assert(sc.chars.len() == 0 && !(sc.end is Delim) ==> sc.consumed == 0) by {
        reveal(rw_spec);
    }
    if sc.consumed > 0 {
        let s2 = rw_apply(s, rule, delim).1;
        assert(s2.rest =~= s.rest.skip((s.shift + sc.consumed) as int));
    }
}

/// How matching a punctuation literal relates the states around it: a hit
/// advances the lookahead by the literal's width, at least one byte; a miss
/// changes nothing.
pub proof fn lemma_try_punct_state(s: SrcV, p: Punct)
    requires
        s.shift <= s.rest.len(),
    ensures
        ({
            let (b, s2) = try_punct_spec(s, p);
            &&& s2.shift <= s2.rest.len()
            &&& (b ==> remaining(s2) < remaining(s))
            &&& (!b ==> s2 == s)
            &&& s2.rest == s.rest
            &&& s2.enc == s.enc
        }),
{
    let nb = widen_spec(s.enc, punct_lit(p));
    lemma_punct_lit_len(p);
    crate::encoding::lemma_widen_len(s.enc, punct_lit(p));
    assert(nb.len() >= 1);
}

/// Whether a delimited region is exhausted: it is once the close
/// punctuation has been consumed, and ends exactly when that punctuation
/// is found next (consuming it) or the underlying stream ends.
pub open spec fn tu_is_empty_spec(s: SrcV, delim: Punct, ended: bool) -> (bool, SrcV, bool) {
    if ended {
        (true, s, true)
    } else {
        match try_punct_spec(s, delim) {
            (true, s1) => (true, s1, true),
            (false, _) => (s.rest.len() == s.shift, s, false),
        }
    }
}

/// Closing a delimited region: nothing to do where a scan already consumed
/// the close punctuation; otherwise the close must follow now. End of input
/// instead is an unclosed delimiter; anything else a mismatched token.
pub open spec fn finish_spec(s: SrcV, delim: Punct, ended: bool) -> (Result<(), Error>, SrcV) {
    if ended {
        (Ok(()), s)
    } else {
        match try_punct_spec(s, delim) {
            (true, s1) => (Ok(()), s1),
            (false, _) => if s.rest.len() == s.shift {
                (
                    Err(Error::Syntax(SyntaxError::UnclosedDelimiter(TokenKind::Punct(delim)))),
                    s,
                )
            } else {
                (Err(Error::Syntax(SyntaxError::MismatchedToken(TokenKind::Punct(delim)))), s)
            },
        }
    }
}

/// Relies on String::push of std: it appends exactly one character.
#[verifier::external_body]
fn push_char(s: &mut String, c: char)
    ensures
        final(s)@ == old(s)@.push(c),
{
    s.push(c);
}

/// The buffered cursor: a chunked byte source, a buffer of the bytes pulled
/// from it but not yet committed, a lookahead offset, and the encoding
/// detected from the first bytes.
pub struct StreamReader {
    chunks: Vec<Vec<u8>>,
    next: usize,
    buf: Vec<u8>,
    start: usize,
    shift: usize,
    enc: Encoding,
}

impl View for StreamReader {
    type V = SrcV;

    closed spec fn view(&self) -> SrcV {
        SrcV {
            rest: self.buf@.skip(self.start as int) + self.pending(),
            shift: self.shift as nat,
            enc: self.enc,
        }
    }
}

impl StreamReader {
    /// The chunks of the source, as byte sequences.
    pub closed spec fn chunk_seqs(self) -> Seq<Seq<u8>> {
        self.chunks@.map_values(|v: Vec<u8>| v@)
    }

    /// The bytes of chunks not yet pulled into the buffer.
    pub closed spec fn pending(self) -> Seq<u8> {
        pending_of(self.chunks@, self.next as int)
    }

    /// How many uncommitted bytes the buffer holds.
    pub closed spec fn buffered(self) -> nat {
        (self.buf@.len() - self.start) as nat
    }

    /// The positions are within bounds: the committed position and the
    /// lookahead lie inside the buffer, and the chunk index inside the
    /// chunk list.
    pub closed spec fn wf(self) -> bool {
        &&& self.start + self.shift <= self.buf@.len()
        &&& self.next <= self.chunks@.len()
    }

    /// A cursor over the given chunk deliveries. The encoding is detected
    /// from the first bytes of the concatenation, and the byte-order mark,
    /// if one is present, is skipped.
    pub fn new(chunks: Vec<Vec<u8>>) -> (r: StreamReader)
        ensures
            r.wf(),
            r@ == init_src(chunks@.map_values(|v: Vec<u8>| v@).flatten()),
    {
        let mut r = StreamReader {
            chunks,
            next: 0,
            buf: Vec::new(),
            start: 0,
            shift: 0,
            enc: Encoding::Utf8,
        };
        let ghost all = r.chunk_seqs().flatten();
        proof {
            reveal(pending_of);
            assert(r.chunk_seqs().skip(0) =~= r.chunk_seqs());
            assert(r@.rest =~= all);
        }
        r.ensure(4);
        let window = slice_subrange(r.buf.as_slice(), r.start, r.buf.len());
        proof {
            assert(window@ =~= r@.rest.take(window@.len() as int));
            if r.buffered() < 4 {
                assert(window@ =~= r@.rest);
            }
            lemma_detect_prefix(window@, r@.rest);
        }
        let (enc, bom) = detect(window);
        r.enc = enc;
        proof {
            assert(r@.rest == all);
            assert(detect_spec(all).1 <= r.buffered());
        }
        r.consume(bom);
        proof {
            assert(r@ =~= init_src(chunks@.map_values(|v: Vec<u8>| v@).flatten()));
        }
        r
    }

    /// The encoding the stream was detected to use.
    pub fn encoding(&self) -> (r: Encoding)
        ensures
            r == self@.enc,
    {
        self.enc
    }

    /// Discards the committed prefix of the buffer, so that a refill does
    /// not grow it without bound.
    fn compact(&mut self)
        requires
            old(self).wf(),
        ensures
            final(self).wf(),
            final(self)@ == old(self)@,
            final(self).buffered() == old(self).buffered(),
            final(self).start == 0,
            final(self).chunks == old(self).chunks,
            final(self).next == old(self).next,
    {
        if self.start == 0 {
            return ;
        }
        let mut nb: Vec<u8> = Vec::new();
        let mut k: usize = self.start;
        while k < self.buf.len()
            invariant
                old(self).start <= k <= self.buf.len(),
                self == old(self),
                nb@ =~= self.buf@.subrange(old(self).start as int, k as int),
            decreases self.buf.len() - k,
        {
            let b = self.buf[k];
            nb.push(b);
            k = k + 1;
        }
        proof {
            assert(nb@ =~= self.buf@.skip(self.start as int));
        }
        self.buf = nb;
        self.start = 0;
        proof {
            assert(self@.rest =~= old(self)@.rest);
            assert(self@ =~= old(self)@);
        }
    }

    /// Pulls the next chunk of the source into the buffer, compacting
    /// first. The abstract state does not change: the chunk's bytes merely
    /// move from pending to buffered.
    fn fetch(&mut self)
        requires
            old(self).wf(),
            old(self).next < old(self).chunks@.len(),
        ensures
            final(self).wf(),
            final(self)@ == old(self)@,
            final(self).next == old(self).next + 1,
            final(self).chunks == old(self).chunks,
            ({
                let cs = old(self).chunk_seqs();
                final(self).buffered() == old(self).buffered() + cs[old(self).next as int].len()
            }),
    {
        self.compact();
        let ghost mid = *self;
        let clen = self.chunks[self.next].len();
        let mut j: usize = 0;
        while j < clen
            invariant
                mid.wf(),
                mid.start == 0,
                self.chunks == mid.chunks,
                self.next == mid.next,
                self.start == 0,
                self.shift == mid.shift,
                self.enc == mid.enc,
                mid.next < mid.chunks@.len(),
                j <= clen,
                clen == mid.chunks@[mid.next as int]@.len(),
                self.buf@ =~= mid.buf@ + mid.chunks@[mid.next as int]@.take(j as int),
            decreases clen - j,
        {
            let b = self.chunks[self.next][j];
            self.buf.push(b);
            proof {
                assert(self.buf@ =~= mid.buf@ + mid.chunks@[mid.next as int]@.take(j + 1 as int));
            }
            j = j + 1;
        }
        proof {
            assert(self.buf@ =~= mid.buf@ + mid.chunks@[mid.next as int]@);
        }
        let cl = self.chunks.len();
        proof {
            assert(self.next < cl);
        }
        self.next = self.next + 1;
        proof {
            reveal(pending_of);
            let cs = mid.chunk_seqs();
            let tail = cs.skip(mid.next as int);
            assert(tail.len() > 0);
            assert(tail.first() == cs[mid.next as int]);
            assert(tail.drop_first() =~= cs.skip(mid.next + 1 as int));
            assert(tail.flatten() == tail.first() + tail.drop_first().flatten());
            assert(self.chunk_seqs() =~= cs);
            assert(self.pending() =~= cs.skip(mid.next + 1 as int).flatten());
            assert(mid.pending() == cs[mid.next as int] + self.pending());
            assert(cs[mid.next as int] == mid.chunks@[mid.next as int]@);
            assert(self@.rest =~= mid@.rest);
            assert(self@ =~= mid@);
            assert(self@ =~= old(self)@);
        }
    }

    /// Buffers at least `extra` bytes past the lookahead position, or
    /// everything the source still holds if that is less.
    fn ensure(&mut self, extra: usize)
        requires
            old(self).wf(),
        ensures
            final(self).wf(),
            final(self)@ == old(self)@,
            final(self).chunks == old(self).chunks,
            final(self).buffered() >= final(self)@.shift + extra || final(self).buffered()
                == final(self)@.rest.len(),
    {
        while self.buf.len() - self.start - self.shift < extra && self.next < self.chunks.len()
            invariant
                self.wf(),
                self@ == old(self)@,
                self.chunks == old(self).chunks,
            decreases self.chunks@.len() - self.next,
        {
            self.fetch();
        }
        proof {
            if !(self.buffered() >= self@.shift + extra) {
                reveal(pending_of);
                assert(self.next == self.chunks@.len());
                assert(self.chunk_seqs().skip(self.next as int) =~= Seq::<Seq<u8>>::empty());
                assert(self.pending() =~= Seq::<u8>::empty());
                assert(self@.rest =~= self.buf@.skip(self.start as int));
            }
        }
    }

    /// How many buffered bytes lie past the lookahead position.
    fn avail_past(&self) -> (r: usize)
        requires
            self.wf(),
        ensures
            r == self.buffered() - self@.shift,
    {
        self.buf.len() - self.start - self.shift
    }

    /// Commits the pending lookahead and `n` bytes beyond it; committed
    /// bytes are gone for good.
    fn consume(&mut self, n: usize)
        requires
            old(self).wf(),
            old(self)@.shift + n <= old(self).buffered(),
        ensures
            final(self).wf(),
            final(self)@.rest == old(self)@.rest.skip((old(self)@.shift + n) as int),
            final(self)@.shift == 0,
            final(self)@.enc == old(self)@.enc,
            final(self).buffered() == old(self).buffered() - old(self)@.shift - n,
            final(self).chunks == old(self).chunks,
    {
        let bl = self.buf.len();
        proof {
            assert(self.start + self.shift + n <= bl);
        }
        self.start = self.start + self.shift + n;
        self.shift = 0;
        proof {
            assert(self@.rest =~= old(self)@.rest.skip((old(self)@.shift + n) as int));
        }
    }

    /// Advances the lookahead offset by `n` bytes without committing them.
    pub fn shift(&mut self, n: usize)
        requires
            old(self).wf(),
            old(self)@.shift + n <= old(self).buffered(),
        ensures
            final(self).wf(),
            final(self)@ == (SrcV { shift: (old(self)@.shift + n) as nat, ..old(self)@ }),
            final(self).buffered() == old(self).buffered(),
    {
        let bl = self.buf.len();
        proof {
            assert(self.shift + n <= bl);
        }
        self.shift = self.shift + n;
        proof {
            assert(self@ =~= SrcV { shift: (old(self)@.shift + n) as nat, ..old(self)@ });
        }
    }

    /// Retreats the lookahead offset by up to `n` bytes; the offset never
    /// goes below the committed position.
    pub fn unshift(&mut self, n: usize)
        requires
            old(self).wf(),
        ensures
            final(self).wf(),
            final(self)@ == (SrcV {
                shift: if n <= old(self)@.shift {
                    (old(self)@.shift - n) as nat
                } else {
                    0
                },
                ..old(self)@
            }),
            final(self).buffered() == old(self).buffered(),
    {
        if n <= self.shift {
            self.shift = self.shift - n;
        } else {
            self.shift = 0;
        }
        proof {
            assert(self@ =~= SrcV {
                shift: if n <= old(self)@.shift {
                    (old(self)@.shift - n) as nat
                } else {
                    0
                },
                ..old(self)@
            });
        }
    }

    /// Whether, after pulling more bytes as needed, nothing remains past
    /// the lookahead position.
    pub fn is_empty(&mut self) -> (r: bool)
        requires
            old(self).wf(),
        ensures
            final(self).wf(),
            final(self)@ == old(self)@,
            r == (old(self)@.rest.len() == old(self)@.shift),
    {
        self.ensure(1);
        self.buf.len() - self.start - self.shift == 0
    }

    /// Whether the buffered bytes at the lookahead position spell `needle`.
    fn match_at_shift(&self, needle: &Vec<u8>) -> (r: bool)
        requires
            self.wf(),
            self@.shift + needle@.len() <= self.buffered(),
        ensures
            r == starts_with(self@.rest.skip(self@.shift as int), needle@),
    {
        let mut i: usize = 0;
        while i < needle.len()
            invariant
                self.wf(),
                i <= needle@.len(),
                self@.shift + needle@.len() <= self.buffered(),
                forall|j: int|
                    0 <= j < i ==> self@.rest.skip(self@.shift as int)[j] == needle@[j],
            decreases needle@.len() - i,
        {
            let bl = self.buf.len();
            proof {
                assert(self.start + self.shift + i < bl);
            }
            let b = self.buf[self.start + self.shift + i];
            proof {
                assert(b == self@.rest.skip(self@.shift as int)[i as int]);
            }
            if b != needle[i] {
                proof {
                    let s = self@.rest.skip(self@.shift as int);
                    assert(needle@.len() <= s.len());
                    assert(s.take(needle@.len() as int)[i as int] != needle@[i as int]);
                }
                return false;
            }
            i = i + 1;
        }
        proof {
            let s = self@.rest.skip(self@.shift as int);
            assert(s.take(needle@.len() as int) =~= needle@);
        }
        true
    }

    /// Checks whether the upcoming decoded characters equal the literal of
    /// `p`, without committing or shifting anything: the literal is encoded
    /// in the detected encoding and compared byte for byte, pulling more
    /// chunks as needed so a literal straddling a chunk boundary is still
    /// recognized.
    pub fn accept(&mut self, p: Punct) -> (r: Option<usize>)
        requires
            old(self).wf(),
        ensures
            final(self).wf(),
            final(self)@ == old(self)@,
            r == accept_spec(old(self)@, p),
            r matches Some(n) ==> final(self)@.shift + n <= final(self).buffered(),
    {
        let lit = punct_bytes(p);
        let needle = widen(self.enc, &lit);
        self.ensure(needle.len());
        if self.avail_past() < needle.len() {
            proof {
                let s = self@.rest.skip(self@.shift as int);
                assert(s.len() < widen_spec(self@.enc, punct_lit(p)).len());
            }
            return None;
        }
        if self.match_at_shift(&needle) {
            Some(needle.len())
        } else {
            None
        }
    }

    /// The buffered bytes past the lookahead position: a window onto the
    /// front of the remaining input.
    fn lookahead_window(&self) -> (w: &[u8])
        requires
            self.wf(),
        ensures
            w@.len() == self.buffered() - self@.shift,
            w@ == self@.rest.skip(self@.shift as int).take((self.buffered() - self@.shift) as int),
    {
        let bl = self.buf.len();
        proof {
            assert(self.start + self.shift <= bl);
        }
        let w = slice_subrange(self.buf.as_slice(), self.start + self.shift, self.buf.len());
        proof {
            assert(w@ =~= self@.rest.skip(self@.shift as int).take(
                (self.buffered() - self@.shift) as int,
            ));
        }
        w
    }

    /// Scans decoded characters from the lookahead position: each is
    /// accepted while the rule holds of it and the remaining input does not
    /// begin with the stop delimiter; the delimiter, when found, is
    /// consumed. Everything accepted is committed, together with the
    /// pending lookahead; a scan that accepted nothing and found no
    /// delimiter commits nothing. A character or delimiter straddling a
    /// chunk boundary is buffered whole before it is tested, so the result
    /// is a function of the concatenated input alone.
    #[verifier::rlimit(100)]
    #[verifier::spinoff_prover]
    pub fn read_while(&mut self, rule: Rule, delim: Option<Punct>) -> (r: (String, ScanEnd))
        requires
            old(self).wf(),
        ensures
            final(self).wf(),
            ({
                let (sc, s2) = rw_apply(old(self)@, rule, delim);
                r.0@ == sc.chars && r.1 == sc.end && final(self)@ == s2
            }),
    {
        let ghost enc0 = self@.enc;
        let ghost r0 = self@.rest.skip(self@.shift as int);
        let ghost d = delim_bytes_spec(enc0, delim);
        let ghost full = rw_spec(enc0, rule, 0, d, r0);
        let dvec: Option<Vec<u8>> = match delim {
            Some(p) => {
                let lit = punct_bytes(p);
                Some(widen(self.enc, &lit))
            },
            None => { None },
        };
        let mut out = String::new();
        let mut st: u8 = 0;
        let ghost mut taken: nat = 0nat;
        proof {
            assert(r0.skip(0) =~= r0);
            assert(out@ + full.chars =~= full.chars);
            assert(self@.rest.len() >= self.buffered());
            assert(old(self)@.shift + r0.len() == old(self)@.rest.len());
        }
        loop
            invariant
                self.wf(),
                self@.enc == enc0,
                taken <= r0.len(),
                taken == 0 ==> self@ == old(self)@ && st == 0 && out@ =~= Seq::<char>::empty(),
                taken > 0 ==> self@.shift == 0 && self@.rest == r0.skip(taken as int),
                self@.rest.skip(self@.shift as int) == r0.skip(taken as int),
                full == rw_spec(enc0, rule, 0, d, r0),
                enc0 == old(self)@.enc,
                r0 == old(self)@.rest.skip(old(self)@.shift as int),
                old(self)@.shift + r0.len() == old(self)@.rest.len(),
                ({
                    let now = rw_spec(enc0, rule, st, d, r0.skip(taken as int));
                    full.chars == out@ + now.chars && full.consumed == taken + now.consumed
                        && full.end == now.end
                }),
                match dvec {
                    Some(v) => d == Some(v@),
                    None => d is None,
                },
                d == delim_bytes_spec(enc0, delim),
            decreases r0.len() - taken,
        {
            let ghost cur = r0.skip(taken as int);
            let ghost now = rw_spec(enc0, rule, st, d, cur);
            if let Some(dv) = &dvec {
                self.ensure(dv.len());
                if self.avail_past() >= dv.len() {
                    if self.match_at_shift(dv) {
                        proof {
                            assert(starts_with(cur, dv@));
                            lemma_rw_delim(enc0, rule, st, dv@, cur);
                            assert(full.chars =~= out@);
                            if let Some(p) = delim {
                                crate::token::lemma_punct_lit_len(p);
                                crate::encoding::lemma_widen_len(enc0, punct_lit(p));
                            }
                            assert(dv@.len() >= 1);
                        }
                        self.consume(dv.len());
                        proof {
                            if taken == 0 {
                                lemma_skip_skip(
                                    old(self)@.rest,
                                    old(self)@.shift as int,
                                    dv@.len() as int,
                                );
                            } else {
                                lemma_skip_skip(r0, taken as int, dv@.len() as int);
                            }
                            assert(self@.rest == r0.skip((taken + dv@.len()) as int));
                            assert(full.consumed == taken + dv@.len());
                            lemma_skip_skip(
                                old(self)@.rest,
                                old(self)@.shift as int,
                                (taken + dv@.len()) as int,
                            );
                        }
                        return (out, ScanEnd::Delim);
                    }
                } else {
                    proof {
                        assert(self.buffered() == self@.rest.len());
                        assert(cur.len() < dv@.len());
                    }
                }
            }
            proof {
                assert(no_hit(d, cur));
            }
            self.ensure(4);
            let window = self.lookahead_window();
            proof {
                assert(self@.rest.len() >= self.buffered());
                assert(window@ == cur.take(window@.len() as int));
                if window@.len() < max_char_width() {
                    assert(self.buffered() == self@.rest.len());
                    assert(window@.len() == cur.len());
                    assert(window@ =~= cur);
                }
                lemma_decode_prefix(enc0, window@, cur);
                lemma_decode_scalar_len(enc0, cur);
            }
            let dres = decode_char(self.enc, window);
            proof {
                assert(dres == decode_char_spec(enc0, cur));
            }
            match dres {
                Decoded::Scalar(c, n) => {
                    let (acc, nst) = rule_step(rule, st, c);
                    if acc {
                        push_char(&mut out, c);
                        self.consume(n);
                        proof {
                            let t0 = taken;
                            lemma_rw_cons(enc0, rule, st, d, cur, c, n);
                            let after = rw_spec(enc0, rule, rule_next(rule, st, c), d, cur.skip(
                                n as int,
                            ));
                            lemma_skip_skip(r0, t0 as int, n as int);
                            if t0 == 0 {
                                lemma_skip_skip(old(self)@.rest, old(self)@.shift as int, n as int);
                            }
                            taken = (t0 + n) as nat;
                            assert(cur.skip(n as int) == r0.skip(taken as int));
                            assert(self@.rest == r0.skip(taken as int));
                            assert(self@.rest.skip(0) =~= self@.rest);
                            assert(out@ + after.chars =~= full.chars);
                        }
                        st = nst;
                    } else {
                        proof {
                            lemma_rw_halt(enc0, rule, st, d, cur, c, n);
                            assert(full.chars =~= out@);
                            if taken > 0 {
                                lemma_skip_skip(old(self)@.rest, old(self)@.shift as int,
                                    taken as int);
                            }
                        }
                        return (out, ScanEnd::Halt);
                    }
                },
                Decoded::NeedMore => {
                    proof {
                        lemma_rw_eof(enc0, rule, st, d, cur);
                        assert(full.chars =~= out@);
                        if taken > 0 {
                            lemma_skip_skip(old(self)@.rest, old(self)@.shift as int, taken as int);
                        }
                    }
                    return (out, ScanEnd::Eof);
                },
                Decoded::Invalid => {
                    proof {
                        lemma_rw_invalid(enc0, rule, st, d, cur);
                        assert(full.chars =~= out@);
                        if taken > 0 {
                            lemma_skip_skip(old(self)@.rest, old(self)@.shift as int, taken as int);
                        }
                    }
                    return (out, ScanEnd::Invalid);
                },
            }
        }
    }
}

/// A delimiter-scoped view over the cursor: scans made through it stop at
/// the region's close punctuation, and consume it when they reach it. The
/// region does not recognize a nested region of the same kind, matching
/// XML's rule that comments and processing instructions cannot nest.
pub struct TakeUntil {
    delim: Punct,
    ended: bool,
}

impl TakeUntil {
    /// The close punctuation bounding the region.
    pub closed spec fn delim_punct(self) -> Punct {
        self.delim
    }

    /// Whether the close punctuation has been consumed.
    pub closed spec fn is_ended(self) -> bool {
        self.ended
    }

    /// A region bounded by the given close punctuation.
    pub fn new(delim: Punct) -> (r: TakeUntil)
        ensures
            r.delim_punct() == delim,
            !r.is_ended(),
    {
        TakeUntil { delim, ended: false }
    }

    /// Scans a literal inside the region: as [`StreamReader::read_while`],
    /// with the region's close punctuation as the stop delimiter.
    pub fn read_while(&mut self, src: &mut StreamReader, rule: Rule) -> (r: (String, ScanEnd))
        requires
            old(src).wf(),
            !old(self).is_ended(),
        ensures
            final(src).wf(),
            final(self).delim_punct() == old(self).delim_punct(),
            ({
                let (sc, s2) = rw_apply(old(src)@, rule, Some(old(self).delim_punct()));
                r.0@ == sc.chars && r.1 == sc.end && final(src)@ == s2 && final(self).is_ended()
                    == (sc.end is Delim)
            }),
    {
        let (s, e) = src.read_while(rule, Some(self.delim));
        if let ScanEnd::Delim = e {
            self.ended = true;
        }
        (s, e)
    }

    /// Whether the region is exhausted, per [`tu_is_empty_spec`]: true
    /// exactly when the close punctuation is found, which consumes it, or
    /// the underlying stream ends; the caller must treat the latter as an
    /// unclosed-delimiter failure.
    pub fn is_empty(&mut self, src: &mut StreamReader) -> (r: bool)
        requires
            old(src).wf(),
        ensures
            final(src).wf(),
            final(self).delim_punct() == old(self).delim_punct(),
            ({
                let (b, s2, e2) = tu_is_empty_spec(
                    old(src)@,
                    old(self).delim_punct(),
                    old(self).is_ended(),
                );
                r == b && final(src)@ == s2 && final(self).is_ended() == e2
            }),
    {
        if self.ended {
            return true;
        }
        match src.accept(self.delim) {
            Some(n) => {
                src.shift(n);
                self.ended = true;
                true
            },
            None => src.is_empty(),
        }
    }

    /// Closes the region, per [`finish_spec`].
    pub fn finish(&mut self, src: &mut StreamReader) -> (r: Result<(), Error>)
        requires
            old(src).wf(),
        ensures
            final(src).wf(),
            ({
                let (rr, s2) = finish_spec(old(src)@, old(self).delim_punct(), old(
                    self,
                ).is_ended());
                r == rr && final(src)@ == s2
            }),
    {
        if self.ended {
            return Ok(());
        }
        match src.accept(self.delim) {
            Some(n) => {
                src.shift(n);
                self.ended = true;
                Ok(())
            },
            None => {
                if src.is_empty() {
                    Err(Error::Syntax(SyntaxError::UnclosedDelimiter(TokenKind::Punct(self.delim))))
                } else {
                    Err(Error::Syntax(SyntaxError::MismatchedToken(TokenKind::Punct(self.delim))))
                }
            },
        }
    }
}

} // verus!
