//! The decisions of a console session: when a read loop stops, and what the
//! framed view writes for the bytes that arrive.
use vstd::prelude::*;
use crate::decoder::{frames, lemma_chunked_feed, remainder, spans, FrameDecoder};
use crate::message::{
    append, boot_prefix, decode, record_of, records, render_message, KIND_BOOT, KIND_STDERR,
    KIND_STDOUT,
};

verus! {

/// What one read from the serial port gave.
#[derive(Debug, Clone, Copy, PartialEq, Eq, Structural)]
pub enum ReadOutcome {
    /// Some bytes arrived.
    Data,
    /// The read returned zero bytes.
    Empty,
    /// The read failed (a timeout included).
    Failed,
}

/// What a read loop does next.
#[derive(Debug, Clone, Copy, PartialEq, Eq, Structural)]
pub enum LoopAction {
    ReadAgain,
    Finish,
}

/// Draining stops at the first empty or failed read; it never fails.
pub fn clear_step(o: ReadOutcome) -> (r: LoopAction)
    ensures
        r == (if o == ReadOutcome::Data { LoopAction::ReadAgain } else { LoopAction::Finish }),
{
    match o {
        ReadOutcome::Data => LoopAction::ReadAgain,
        _ => LoopAction::Finish,
    }
}

/// Viewing reads on whatever a read gave; a failed read is retried.
pub fn view_step(_outcome: ReadOutcome) -> (r: LoopAction)
    ensures
        r == LoopAction::ReadAgain,
{
    LoopAction::ReadAgain
}

/// What the console shows for one record of a frame.
pub open spec fn render_record(rec: Option<(u8, Seq<u8>)>) -> Seq<u8> {
    match rec {
        Some((k, p)) => if k == KIND_BOOT {
            boot_prefix() + p + seq![13u8, 10u8]
        } else if k == KIND_STDOUT || k == KIND_STDERR {
            p
        } else {
            seq![]
        },
        None => seq![],
    }
}

pub open spec fn render_records(rs: Seq<Option<(u8, Seq<u8>)>>) -> Seq<u8>
    decreases rs.len(),
{
    if rs.len() == 0 {
        seq![]
    } else {
        render_records(rs.drop_last()) + render_record(rs.last())
    }
}

/// What the console shows for one frame; nothing for a malformed one.
pub open spec fn render_frame_of(f: Option<Seq<u8>>) -> Seq<u8> {
    match f {
        Some(b) => render_records(records(b)),
        None => seq![],
    }
}

pub open spec fn render_frames(fs: Seq<Option<Seq<u8>>>) -> Seq<u8>
    decreases fs.len(),
{
    if fs.len() == 0 {
        seq![]
    } else {
        render_frame_of(fs[0]) + render_frames(fs.skip(1))
    }
}

/// The bytes the console writes for one decoded frame.
pub fn render_frame(frame: &[u8]) -> (r: Vec<u8>)
    ensures
        r@ == render_records(records(frame@)),
{
    let msgs = decode(frame);
    let ghost rs = records(frame@);
    let mut out: Vec<u8> = Vec::new();
    let mut i: usize = 0;
    assert(rs.take(0) =~= Seq::<Option<(u8, Seq<u8>)>>::empty());
    while i < msgs.len()
        invariant
            rs == records(frame@),
            msgs@.len() == rs.len(),
            forall|j: int| 0 <= j < msgs@.len() ==> record_of(#[trigger] msgs@[j]) == rs[j],
            forall|j: int| 0 <= j < msgs@.len() ==> (#[trigger] msgs@[j] matches Ok(m) ==> m.canonical()),
            i <= msgs@.len(),
            out@ == render_records(rs.take(i as int)),
        decreases msgs@.len() - i,
    {
        let ghost before = out@;
        assert(record_of(msgs@[i as int]) == rs[i as int]);
        match &msgs[i] {
            Ok(m) => {
                match render_message(m) {
                    Some(v) => append(&mut out, &v),
                    None => {},
                }
                assert(out@ =~= before + render_record(rs[i as int]));
            },
            Err(_) => {
                assert(out@ =~= before + render_record(rs[i as int]));
            },
        }
        assert(rs.take(i + 1).drop_last() =~= rs.take(i as int));
        i = i + 1;
    }
    assert(rs.take(i as int) =~= rs);
    out
}

/// Feeds one chunk read from the port to the decoder, drains every complete
/// frame, and returns what the console writes for them, in order. Bytes of an
/// unfinished frame stay pending for the next chunk.
pub fn process_chunk(dec: &mut FrameDecoder, chunk: &[u8]) -> (r: Vec<u8>)
    requires
        old(dec).wf(),
    ensures
        final(dec).wf(),
        r@ == render_frames(frames(old(dec).pending() + chunk@)),
        final(dec).pending() == remainder(old(dec).pending() + chunk@),
{
    dec.feed(chunk);
    let ghost all = dec.pending();
    let mut out: Vec<u8> = Vec::new();
    assert(out@ + render_frames(frames(all)) =~= render_frames(frames(all)));
    loop
        invariant
            dec.wf(),
            remainder(dec.pending()) == remainder(all),
            out@ + render_frames(frames(dec.pending())) == render_frames(frames(all)),
        ensures
            dec.wf(),
            dec.pending() == remainder(all),
            out@ == render_frames(frames(all)),
        decreases spans(dec.pending()).len(),
    {
        let ghost p = dec.pending();
        let next = dec.next_frame();
        match next {
            None => {
                assert(frames(p).len() == 0);
                assert(dec.pending() == remainder(all));
                assert(out@ + seq![] =~= out@);
                break;
            },
            Some(f) => {
                let ghost before = out@;
                let ghost fs = frames(p);
                assert(frames(dec.pending()) =~= fs.skip(1));
                match f {
                    Ok(v) => {
                        let w = render_frame(v.as_slice());
                        append(&mut out, &w);
                    },
                    Err(_) => {},
                }
                assert(out@ =~= before + render_frame_of(fs[0]));
                assert(out@ + render_frames(frames(dec.pending())) =~= before + render_frames(fs));
            },
        }
    }
    dec.compact();
    out
}


proof fn lemma_render_frames_append(a: Seq<Option<Seq<u8>>>, b: Seq<Option<Seq<u8>>>)
    ensures
        render_frames(a + b) == render_frames(a) + render_frames(b),
    decreases a.len(),
{
    if a.len() == 0 {
        assert(a + b =~= b);
        assert(seq![] + render_frames(b) =~= render_frames(b));
    } else {
        assert((a + b)[0] == a[0]);
        assert((a + b).skip(1) =~= a.skip(1) + b);
        lemma_render_frames_append(a.skip(1), b);
        assert(render_frame_of(a[0]) + (render_frames(a.skip(1)) + render_frames(b)) =~= render_frame_of(a[0])
            + render_frames(a.skip(1)) + render_frames(b));
    }
}

/// The framed view writes the same bytes, and keeps the same unfinished
/// frame pending, whether a stream arrives in two chunks or in one.
pub proof fn lemma_chunked_view(pending: Seq<u8>, a: Seq<u8>, b: Seq<u8>)
    ensures
        render_frames(frames(pending + a)) + render_frames(frames(remainder(pending + a) + b))
            == render_frames(frames(pending + a + b)),
        remainder(remainder(pending + a) + b) == remainder(pending + a + b),
{
    lemma_chunked_feed(pending + a, b);
    lemma_render_frames_append(frames(pending + a), frames(remainder(pending + a) + b));
}

} // verus!
