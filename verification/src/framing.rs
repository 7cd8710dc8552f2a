use vstd::prelude::*;
use crate::records::MAX_RECORD_BYTES;

verus! {

/// The most bytes a frame can hold: one more than a record may have, so
/// that an overlong record shows as a frame that is too long.
pub const FRAME_CAP: usize = MAX_RECORD_BYTES + 1;

/// One input byte into the framer: `pending` is the unfinished frame. A
/// line feed ends the frame, and so does reaching `FRAME_CAP` bytes; an
/// ended frame is emitted and the framer starts afresh.
pub open spec fn frame_step(pending: Seq<u8>, byte: u8) -> (Seq<u8>, Option<Seq<u8>>) {
    let grown = pending.push(byte);
    if byte == 10u8 || grown.len() >= FRAME_CAP {
        (Seq::empty(), Some(grown))
    } else {
        (grown, None)
    }
}

/// The unfinished frame and the emitted frames, in order, after `bytes`
/// followed the unfinished frame `pending`.
pub open spec fn framed(pending: Seq<u8>, bytes: Seq<u8>) -> (Seq<u8>, Seq<Seq<u8>>)
    decreases bytes.len(),
{
    if bytes.len() == 0 {
        (pending, Seq::empty())
    } else {
        let before = framed(pending, bytes.drop_last());
        match frame_step(before.0, bytes.last()) {
            (after, Some(frame)) => (after, before.1.push(frame)),
            (after, None) => (after, before.1),
        }
    }
}

/// The views of a sequence of byte vectors.
pub open spec fn byte_views(frames: Seq<Vec<u8>>) -> Seq<Seq<u8>> {
    frames.map_values(|frame: Vec<u8>| frame@)
}

/// The concatenation of a sequence of frames.
pub open spec fn joined(frames: Seq<Seq<u8>>) -> Seq<u8>
    decreases frames.len(),
{
    if frames.len() == 0 {
        Seq::empty()
    } else {
        joined(frames.drop_last()) + frames.last()
    }
}

/// The chunk-partition law: framing `first` and then `second` emits the
/// frames of framing their concatenation, in the same order, and leaves the
/// same unfinished frame. So how the input is cut into chunks does not
/// change the records.
pub proof fn law_chunk_partition(pending: Seq<u8>, first: Seq<u8>, second: Seq<u8>)
    ensures
        framed(pending, first + second).0 == framed(framed(pending, first).0, second).0,
        framed(pending, first + second).1 == framed(pending, first).1 + framed(
            framed(pending, first).0,
            second,
        ).1,
    decreases second.len(),
{
    let middle = framed(pending, first);
    if second.len() == 0 {
        assert(first + second =~= first);
        assert(middle.1 + Seq::<Seq<u8>>::empty() =~= middle.1);
    } else {
        let init = second.drop_last();
        assert((first + second).drop_last() =~= first + init);
        assert((first + second).last() == second.last());
        law_chunk_partition(pending, first, init);
        let rest = framed(middle.0, init);
        match frame_step(rest.0, second.last()) {
            (after, Some(frame)) => {
                assert(middle.1 + rest.1.push(frame) =~= (middle.1 + rest.1).push(frame));
            },
            (after, None) => {},
        }
    }
}

/// Framing loses and adds nothing: the emitted frames followed by the
/// unfinished one are the unfinished frame followed by the input.
pub proof fn law_framing_keeps_every_byte(pending: Seq<u8>, bytes: Seq<u8>)
    ensures
        joined(framed(pending, bytes).1) + framed(pending, bytes).0 == pending + bytes,
    decreases bytes.len(),
{
    if bytes.len() == 0 {
        assert(Seq::<u8>::empty() + pending =~= pending);
        assert(pending + bytes =~= pending);
    } else {
        let init = bytes.drop_last();
        law_framing_keeps_every_byte(pending, init);
        let before = framed(pending, init);
        let last = bytes.last();
        assert(pending + bytes =~= (pending + init).push(last));
        match frame_step(before.0, last) {
            (after, Some(frame)) => {
                assert(before.1.push(frame).drop_last() =~= before.1);
                assert(joined(before.1.push(frame)) + after =~= joined(before.1) + before.0.push(
                    last,
                ));
            },
            (after, None) => {
                assert(joined(before.1) + after =~= (joined(before.1) + before.0).push(last));
            },
        }
    }
}

/// Whether `bytes` holds no line feed.
pub open spec fn no_line_feed(bytes: Seq<u8>) -> bool {
    forall|i: int| 0 <= i < bytes.len() ==> #[trigger] bytes[i] != 10u8
}

/// A line frame: nonempty, with no line feed before its last byte, and
/// ending with a line feed unless it reached `FRAME_CAP` bytes.
pub open spec fn is_line_frame(frame: Seq<u8>) -> bool {
    &&& 0 < frame.len() <= FRAME_CAP
    &&& no_line_feed(frame.drop_last())
    &&& (frame.last() == 10u8 || frame.len() == FRAME_CAP)
}

/// From a start without a line feed, every emitted frame is a line frame,
/// and the unfinished frame stays short and without a line feed.
pub proof fn law_frames_are_lines(pending: Seq<u8>, bytes: Seq<u8>)
    requires
        no_line_feed(pending),
        pending.len() < FRAME_CAP,
    ensures
        no_line_feed(framed(pending, bytes).0),
        framed(pending, bytes).0.len() < FRAME_CAP,
        forall|i: int|
            0 <= i < framed(pending, bytes).1.len() ==> is_line_frame(
                #[trigger] framed(pending, bytes).1[i],
            ),
    decreases bytes.len(),
{
    if bytes.len() > 0 {
        let init = bytes.drop_last();
        law_frames_are_lines(pending, init);
        let before = framed(pending, init);
        let grown = before.0.push(bytes.last());
        assert(grown.drop_last() =~= before.0);
        match frame_step(before.0, bytes.last()) {
            (after, Some(frame)) => {
                assert(frame == grown);
                assert forall|i: int| 0 <= i < before.1.push(frame).len() implies is_line_frame(
                    #[trigger] before.1.push(frame)[i],
                ) by {
                    if i < before.1.len() {
                        assert(before.1.push(frame)[i] == before.1[i]);
                    }
                }
            },
            (after, None) => {
                assert forall|i: int| 0 <= i < after.len() implies #[trigger] after[i] != 10u8 by {
                    if i < before.0.len() {
                        assert(after[i] == before.0[i]);
                    }
                }
            },
        }
    }
}

/// Every emitted frame is nonempty and holds at most `FRAME_CAP` bytes, and
/// the unfinished frame holds fewer than `FRAME_CAP`.
pub open spec fn frames_bounded(pending: Seq<u8>, frames: Seq<Seq<u8>>) -> bool {
    &&& pending.len() < FRAME_CAP
    &&& forall|i: int| 0 <= i < frames.len() ==> 0 < (#[trigger] frames[i]).len() <= FRAME_CAP
}

/// Cuts a byte stream into frames, as reading up to a line feed with at
/// most `FRAME_CAP` bytes per read would, whatever chunks the bytes come in.
pub struct LineFramer {
    pending: Vec<u8>,
}

impl View for LineFramer {
    type V = Seq<u8>;

    closed spec fn view(&self) -> Seq<u8> {
        self.pending@
    }
}

impl LineFramer {
    #[verifier::type_invariant]
    spec fn below_cap(self) -> bool {
        self.pending@.len() < FRAME_CAP
    }

    /// A framer with no unfinished frame.
    pub fn new() -> (framer: Self)
        ensures
            framer@ == Seq::<u8>::empty(),
    {
        LineFramer { pending: Vec::new() }
    }

    /// Takes the next chunk and returns the frames it completes, in order.
    pub fn feed(&mut self, chunk: &[u8]) -> (frames: Vec<Vec<u8>>)
        ensures
            final(self)@ == framed(old(self)@, chunk@).0,
            byte_views(frames@) == framed(old(self)@, chunk@).1,
            frames_bounded(final(self)@, byte_views(frames@)),
    {
        proof {
            use_type_invariant(&*self);
        }
        let ghost start = self.pending@;
        let mut pending: Vec<u8> = Vec::new();
        std::mem::swap(&mut pending, &mut self.pending);
        let mut frames: Vec<Vec<u8>> = Vec::new();
        let mut i: usize = 0;
        assert(chunk@.take(0) =~= Seq::<u8>::empty());
        assert(byte_views(frames@) =~= Seq::<Seq<u8>>::empty());
        while i < chunk.len()
            invariant
                i <= chunk@.len(),
                pending@ == framed(start, chunk@.take(i as int)).0,
                byte_views(frames@) == framed(start, chunk@.take(i as int)).1,
                frames_bounded(pending@, byte_views(frames@)),
            decreases chunk@.len() - i,
        {
            let byte = chunk[i];
            assert(chunk@.take(i + 1).drop_last() =~= chunk@.take(i as int));
            assert(chunk@.take(i + 1).last() == byte);
            let ghost before_frames = byte_views(frames@);
            pending.push(byte);
            if byte == 10u8 || pending.len() >= FRAME_CAP {
                let mut frame: Vec<u8> = Vec::new();
                std::mem::swap(&mut frame, &mut pending);
                frames.push(frame);
                assert(byte_views(frames@) =~= before_frames.push(frame@));
            }
            i = i + 1;
        }
        assert(chunk@.take(chunk@.len() as int) =~= chunk@);
        self.pending = pending;
        frames
    }

    /// Ends the input: the unfinished frame, if it holds any bytes, is the
    /// last frame.
    pub fn finish(self) -> (last: Option<Vec<u8>>)
        ensures
            match last {
                Some(frame) => 0 < self@.len() < FRAME_CAP && frame@ == self@,
                None => self@.len() == 0,
            },
    {
        proof {
            use_type_invariant(&self);
        }
        if self.pending.len() == 0 {
            None
        } else {
            Some(self.pending)
        }
    }

    /// Whether an unfinished frame is held.
    pub fn has_pending(&self) -> (held: bool)
        ensures
            held == (self@.len() > 0),
    {
        self.pending.len() > 0
    }
}

} // verus!
