//! Properties of the reader as a whole.
//!
//! The event stream is characterized abstractly: [`event_at`] gives the
//! `n`th outcome of pulling events from given input bytes, purely as a
//! function of those bytes. On top of that, two invariance laws are proved:
//! the stream does not depend on how the bytes were split into deliveries,
//! and not on a byte-order mark that matches the detected encoding.

use vstd::prelude::*;

use crate::encoding::{bom_of, detect_spec, Encoding};
use crate::error::Error;
use crate::reader::stream_reader::init_src;
use crate::reader::{next_spec, EventV, ReaderV, State};


verus! {

/// The abstract state a reader starts in over the given input bytes.
pub open spec fn init_reader(bytes: Seq<u8>) -> ReaderV {
    ReaderV { src: init_src(bytes), st: State::Start, path: Seq::empty() }
}

/// The abstract state of a reader over the given input bytes after `n`
/// events have been pulled.
pub open spec fn run_model(bytes: Seq<u8>, n: nat) -> ReaderV
    decreases n,
{
    if n == 0 {
        init_reader(bytes)
    } else {
        next_spec(run_model(bytes, (n - 1) as nat)).1
    }
}

/// The outcome of the `n`th call for events, counted from zero, on a
/// reader over the given input bytes.
pub open spec fn event_at(bytes: Seq<u8>, n: nat) -> Result<EventV, Error> {
    next_spec(run_model(bytes, n)).0
}

/// The outcome of the `n`th call for events on a reader whose source
/// delivers the given chunks.
pub open spec fn events_of_chunks(chunks: Seq<Seq<u8>>, n: nat) -> Result<EventV, Error> {
    event_at(chunks.flatten(), n)
}

/// Streaming invariance: two sources that deliver the same bytes, however
/// differently they split them into chunks, produce the same event
/// sequence. Every operation of the cursor is specified as a function of
/// the concatenation of the deliveries alone — a character or delimiter
/// straddling a delivery boundary is buffered whole before it is tested —
/// so the whole event stream is such a function too.
pub proof fn lemma_streaming_invariance(c1: Seq<Seq<u8>>, c2: Seq<Seq<u8>>, n: nat)
    requires
        c1.flatten() == c2.flatten(),
    ensures
        events_of_chunks(c1, n) == events_of_chunks(c2, n),
{
}

/// Byte-order-mark invariance: where the bytes of a well-formed input
/// already detect as some encoding without a mark, prefixing that
/// encoding's mark changes no event: the mark only confirms the detected
/// encoding and is skipped. ASCII has no mark, so its case is immediate.
pub proof fn lemma_bom_invariance(bytes: Seq<u8>, enc: Encoding, n: nat)
    requires
        detect_spec(bytes).0 == enc,
        detect_spec(bytes).1 == 0,
    ensures
        event_at(bom_of(enc) + bytes, n) == event_at(bytes, n),
{
    let with = bom_of(enc) + bytes;
    match enc {
        Encoding::Ascii => {
            assert(with =~= bytes);
        },
        Encoding::Utf8 => {
            assert(with.len() >= 3);
            assert(with[0] == 0xEF && with[1] == 0xBB && with[2] == 0xBF);
            assert(detect_spec(with) == (Encoding::Utf8, 3nat));
            assert(init_src(with).rest =~= bytes);
            assert(init_src(bytes).rest =~= bytes);
            assert(init_reader(with) == init_reader(bytes));
        },
        Encoding::Utf16Be => {
            assert(with.len() >= 2);
            assert(with[0] == 0xFE && with[1] == 0xFF);
            assert(detect_spec(with) == (Encoding::Utf16Be, 2nat));
            assert(init_src(with).rest =~= bytes);
            assert(init_src(bytes).rest =~= bytes);
            assert(init_reader(with) == init_reader(bytes));
        },
        Encoding::Utf16Le => {
            assert(with.len() >= 2);
            assert(with[0] == 0xFF && with[1] == 0xFE);
            assert(detect_spec(with) == (Encoding::Utf16Le, 2nat));
            assert(init_src(with).rest =~= bytes);
            assert(init_src(bytes).rest =~= bytes);
            assert(init_reader(with) == init_reader(bytes));
        },
    }
    lemma_same_model(with, bytes, n);
}

/// The stack discipline of a reader state: the stack of open element
/// names is empty before the root element opens and once it has closed,
/// and never empty inside it.
pub open spec fn stack_ok(m: ReaderV) -> bool {
    match m.st {
        State::Start => m.path.len() == 0,
        State::AfterXml => m.path.len() == 0,
        State::InElem => m.path.len() >= 1,
        State::AfterText => m.path.len() >= 1,
        State::AfterRoot => m.path.len() == 0,
        State::Eof => m.path.len() == 0,
    }
}

/// One successful step preserves the stack discipline: a start tag pushes
/// its name, the matching end tag pops it, and the stack empties exactly
/// on the transition past the root element.
proof fn lemma_stack_step(m: ReaderV)
    requires
        stack_ok(m),
        next_spec(m).0 is Ok,
    ensures
        stack_ok(next_spec(m).1),
{
    reveal(next_spec);
}

/// Stack discipline of the reader: as long as every event produced so far
/// succeeded, the stack of open element names is empty exactly before the
/// root element has opened and after it has closed.
pub proof fn lemma_stack_discipline(bytes: Seq<u8>, n: nat)
    requires
        forall|k: nat| k < n ==> event_at(bytes, k) is Ok,
    ensures
        stack_ok(run_model(bytes, n)),
    decreases n,
{
    if n > 0 {
        lemma_stack_discipline(bytes, (n - 1) as nat);
        assert(event_at(bytes, (n - 1) as nat) is Ok);
        lemma_stack_step(run_model(bytes, (n - 1) as nat));
    }
}

/// Readers whose abstract states start equal stay equal: the `n`th event
/// and the state after it agree.
proof fn lemma_same_model(b1: Seq<u8>, b2: Seq<u8>, n: nat)
    requires
        init_reader(b1) == init_reader(b2),
    ensures
        run_model(b1, n) == run_model(b2, n),
        event_at(b1, n) == event_at(b2, n),
    decreases n,
{
    if n > 0 {
        lemma_same_model(b1, b2, (n - 1) as nat);
    }
}

} // verus!
