use vstd::prelude::*;

use std::collections::VecDeque;

use crate::frame::{Frame, FrameView, max_ts, spec_decode_frame};
use crate::timestamp::Timestamp;
use crate::varint::{decode_u64, DecodeError};

verus! {

/// An in-memory group of wire payloads: an ordered sequence of frames, read
/// once from front to back, ending when the payloads run out. It stands for
/// one group's worth of transport reads.
pub struct FrameSource {
    payloads: Vec<Vec<u8>>,
    next: usize,
}

impl FrameSource {
    /// Every payload this source will ever emit, in emission order.
    pub closed spec fn all(self) -> Seq<Seq<u8>> {
        self.payloads@.map_values(|p: Vec<u8>| p@)
    }

    /// How many payloads have been emitted so far.
    pub closed spec fn emitted(self) -> int {
        self.next as int
    }

    /// The payloads not yet emitted, in emission order.
    pub open spec fn remaining(self) -> Seq<Seq<u8>> {
        self.all().subrange(self.emitted(), self.all().len() as int)
    }

    pub closed spec fn wf(self) -> bool {
        self.next <= self.payloads.len()
    }

    /// A source that will emit exactly `payloads`, front first.
    pub fn new(payloads: Vec<Vec<u8>>) -> (r: Self)
        ensures
            r.wf(),
            r.emitted() == 0,
            r.all() == payloads@.map_values(|p: Vec<u8>| p@),
    {
        FrameSource { payloads, next: 0 }
    }

    /// The next payload, or `None` once the group has ended. The end is
    /// terminal: after `None` every further read returns `None`.
    pub fn read_frame(&mut self) -> (r: Option<Vec<u8>>)
        requires
            old(self).wf(),
        ensures
            final(self).wf(),
            final(self).all() == old(self).all(),
            match r {
                Some(p) => {
                    &&& old(self).remaining().len() > 0
                    &&& p@ == old(self).remaining()[0]
                    &&& final(self).emitted() == old(self).emitted() + 1
                },
                None => {
                    &&& old(self).remaining().len() == 0
                    &&& final(self).emitted() == old(self).emitted()
                },
            },
    {
        if self.next < self.payloads.len() {
            let src = &self.payloads[self.next];
            let mut p: Vec<u8> = Vec::new();
            let mut j: usize = 0;
            while j < src.len()
                invariant
                    j <= src.len(),
                    p@ == src@.subrange(0, j as int),
                decreases src.len() - j,
            {
                p.push(src[j]);
                proof {
                    assert(src@.subrange(0, j + 1) =~= src@.subrange(0, j as int).push(
                        src@[j as int],
                    ));
                }
                j = j + 1;
            }
            proof {
                assert(src@.subrange(0, src@.len() as int) =~= src@);
                assert(old(self).remaining()[0] == old(self).all()[old(self).emitted()]);
            }
            self.next = self.next + 1;
            Some(p)
        } else {
            proof {
                assert(self.remaining().len() == 0);
            }
            None
        }
    }
}

/// What repeatedly reading and buffering frames from the payloads `rem` does
/// to a group whose decoded frames so far are `cur`, with the loop stopping as
/// soon as some decoded timestamp reaches `cutoff`: the log of decoded frames
/// at that moment, or `None` when the group ends or a header fails to decode
/// before the cutoff is reached.
pub open spec fn buffer_outcome(cur: Seq<FrameView>, rem: Seq<Seq<u8>>, cutoff: u64) -> Option<
    Seq<FrameView>,
>
    decreases rem.len(),
{
    if cur.len() > 0 && max_ts(cur) >= cutoff {
        Some(cur)
    } else if rem.len() == 0 {
        None
    } else {
        match spec_decode_frame(rem[0], cur.len() as nat) {
            None => None,
            Some(fv) => buffer_outcome(cur.push(fv), rem.drop_first(), cutoff),
        }
    }
}

/// A consumer for one group of frames.
///
/// Groups are ordered collections of frames, typically bounded by keyframes in
/// a video stream; the first frame of a group is by definition its keyframe.
/// The consumer decodes each wire payload's variable-width timestamp header,
/// tags the first frame, keeps a FIFO of frames read ahead of the caller, and
/// tracks the largest timestamp decoded so far.
///
/// The ghost `log` records every frame decoded from the transport in arrival
/// order; frames are handed to the caller in exactly that order, the FIFO
/// holding the not-yet-delivered suffix.
pub struct GroupConsumer {
    index: usize,
    buffered: VecDeque<Frame>,
    max_timestamp: Option<Timestamp>,
    log: Ghost<Seq<FrameView>>,
}

impl GroupConsumer {
    /// Every frame decoded from the group so far, in arrival order.
    pub closed spec fn frames(self) -> Seq<FrameView> {
        self.log@
    }

    /// The frames read ahead and not yet handed to the caller, in arrival order.
    pub closed spec fn buffered_frames(self) -> Seq<FrameView> {
        self.buffered@.map_values(|f: Frame| f@)
    }

    /// How many frames have been handed to the caller: every decoded frame is
    /// either already delivered or still sitting in the buffer.
    pub open spec fn delivered(self) -> int {
        self.frames().len() - self.buffered_frames().len()
    }

    /// The running maximum as the contracts see it: `None` before any frame
    /// has been decoded, otherwise the largest timestamp decoded so far.
    pub open spec fn spec_max_timestamp(self) -> Option<u64> {
        if self.frames().len() == 0 {
            None
        } else {
            Some(max_ts(self.frames()))
        }
    }

    pub closed spec fn wf(self) -> bool {
        &&& self.log@.len() == self.index
        &&& self.buffered@.len() <= self.log@.len()
        &&& forall|i: int|
            0 <= i < self.buffered@.len() ==> self.buffered@[i]@ == self.log@[self.delivered()
                + i]
        &&& forall|i: int| 0 <= i < self.log@.len() ==> (#[trigger] self.log@[i].keyframe <==> i
            == 0)
        &&& match self.max_timestamp {
            None => self.log@.len() == 0,
            Some(t) => self.log@.len() > 0 && t.spec_micros() == max_ts(self.log@),
        }
    }

    /// A consumer that has decoded nothing yet.
    pub fn new() -> (r: Self)
        ensures
            r.wf(),
            r.frames() == Seq::<FrameView>::empty(),
            r.buffered_frames() == Seq::<FrameView>::empty(),
    {
        let r = GroupConsumer {
            index: 0,
            buffered: VecDeque::new(),
            max_timestamp: None,
            log: Ghost(Seq::empty()),
        };
        proof {
            assert(r.buffered@.map_values(|f: Frame| f@) =~= Seq::<FrameView>::empty());
        }
        r
    }

    /// The largest timestamp decoded from this group so far; `None` until the
    /// first frame has been decoded. Consumes nothing.
    pub fn max_timestamp(&self) -> (r: Option<Timestamp>)
        requires
            self.wf(),
        ensures
            match r {
                None => self.spec_max_timestamp() is None,
                Some(t) => self.spec_max_timestamp() == Some(t.spec_micros()),
            },
    {
        self.max_timestamp
    }

    /// Whether the running maximum has reached `cutoff`.
    pub fn cutoff_reached(&self, cutoff: Timestamp) -> (r: bool)
        requires
            self.wf(),
        ensures
            r == (self.frames().len() > 0 && max_ts(self.frames()) >= cutoff.spec_micros()),
    {
        match self.max_timestamp {
            Some(t) => t.at_least(cutoff),
            None => false,
        }
    }

    /// Hand out the oldest frame read ahead, if any. Frames leave the buffer
    /// in exactly the order they arrived.
    pub fn pop_buffered(&mut self) -> (r: Option<Frame>)
        requires
            old(self).wf(),
        ensures
            final(self).wf(),
            final(self).frames() == old(self).frames(),
            match r {
                Some(f) => {
                    &&& old(self).buffered_frames().len() > 0
                    &&& f@ == old(self).frames()[old(self).delivered()]
                    &&& f@ == old(self).buffered_frames()[0]
                    &&& final(self).buffered_frames() == old(self).buffered_frames().drop_first()
                    &&& final(self).delivered() == old(self).delivered() + 1
                },
                None => {
                    &&& old(self).buffered_frames().len() == 0
                    &&& final(self).buffered_frames() == old(self).buffered_frames()
                    &&& final(self).delivered() == old(self).delivered()
                },
            },
    {
        let r = self.buffered.pop_front();
        proof {
            if old(self).buffered@.len() > 0 {
                assert(self.buffered@.map_values(|f: Frame| f@) =~= old(self).buffered@.map_values(
                    |f: Frame| f@,
                ).drop_first());
                assert(old(self).buffered@[0]@ == old(self).log@[old(self).delivered()]);
                assert(old(self).buffered_frames()[0] == old(self).buffered@[0]@);
                assert forall|i: int| 0 <= i < self.buffered@.len() implies self.buffered@[i]@
                    == self.log@[self.delivered() + i] by {
                    assert(self.buffered@[i] == old(self).buffered@[i + 1]);
                    assert(old(self).buffered@[i + 1]@ == old(self).log@[old(self).delivered() + i
                        + 1]);
                }
            }
        }
        r
    }

    /// Decode one wire payload as the group's next frame and hand it straight
    /// to the caller. Only legal while nothing is buffered, so that delivery
    /// order equals arrival order. On a decode failure the consumer is left
    /// exactly as it was.
    pub fn accept_frame(&mut self, payload: Vec<u8>) -> (r: Result<Frame, DecodeError>)
        requires
            old(self).wf(),
            old(self).buffered_frames().len() == 0,
            old(self).frames().len() < usize::MAX,
        ensures
            final(self).wf(),
            match r {
                Ok(f) => {
                    &&& spec_decode_frame(payload@, old(self).frames().len() as nat) == Some(f@)
                    &&& final(self).frames() == old(self).frames().push(f@)
                    &&& final(self).buffered_frames() == old(self).buffered_frames()
                    &&& final(self).delivered() == old(self).delivered() + 1
                },
                Err(e) => {
                    &&& spec_decode_frame(payload@, old(self).frames().len() as nat) is None
                    &&& e == DecodeError::Short
                    &&& *final(self) == *old(self)
                },
            },
    {
        match self.decode_next(payload) {
            Ok(f) => {
                proof {
                    assert(self.buffered@.map_values(|f: Frame| f@) =~= old(
                        self,
                    ).buffered@.map_values(|f: Frame| f@));
                }
                Ok(f)
            },
            Err(e) => Err(e),
        }
    }

    /// Decode one wire payload as the group's next frame and push it onto the
    /// read-ahead buffer instead of handing it out. On a decode failure the
    /// consumer is left exactly as it was.
    pub fn buffer_frame(&mut self, payload: Vec<u8>) -> (r: Result<(), DecodeError>)
        requires
            old(self).wf(),
            old(self).frames().len() < usize::MAX,
        ensures
            final(self).wf(),
            match r {
                Ok(_) => {
                    &&& (spec_decode_frame(payload@, old(self).frames().len() as nat) matches Some(
                        fv,
                    ) && final(self).frames() == old(self).frames().push(fv)
                        && final(self).buffered_frames() == old(self).buffered_frames().push(fv))
                    &&& final(self).delivered() == old(self).delivered()
                },
                Err(e) => {
                    &&& spec_decode_frame(payload@, old(self).frames().len() as nat) is None
                    &&& e == DecodeError::Short
                    &&& *final(self) == *old(self)
                },
            },
    {
        match self.decode_next(payload) {
            Ok(f) => {
                let ghost fv = f@;
                self.buffered.push_back(f);
                proof {
                    assert(self.buffered@.map_values(|f: Frame| f@) =~= old(
                        self,
                    ).buffered@.map_values(|f: Frame| f@).push(fv));
                    assert forall|i: int| 0 <= i < self.buffered@.len() implies self.buffered@[i]@
                        == self.log@[self.delivered() + i] by {
                        if i < old(self).buffered@.len() {
                            assert(old(self).buffered@[i]@ == old(self).log@[old(self).delivered()
                                + i]);
                        }
                    }
                }
                Ok(())
            },
            Err(e) => Err(e),
        }
    }

    /// Read the next frame of the group: the oldest read-ahead frame when one
    /// is buffered, otherwise the next payload pulled from `source` and
    /// decoded. `Ok(None)` exactly when nothing is buffered and the group has
    /// ended; a decode failure is fatal to this call but leaves the consumer
    /// unchanged, any previously buffered frames still retrievable.
    pub fn read_frame(&mut self, source: &mut FrameSource) -> (r: Result<
        Option<Frame>,
        DecodeError,
    >)
        requires
            old(self).wf(),
            old(source).wf(),
            old(self).frames().len() < usize::MAX,
        ensures
            final(self).wf(),
            final(source).wf(),
            final(source).all() == old(source).all(),
            match r {
                Ok(Some(f)) => {
                    &&& f@ == final(self).frames()[old(self).delivered()]
                    &&& final(self).delivered() == old(self).delivered() + 1
                    &&& if old(self).buffered_frames().len() > 0 {
                        &&& final(self).frames() == old(self).frames()
                        &&& f@ == old(self).buffered_frames()[0]
                        &&& final(self).buffered_frames() == old(
                            self,
                        ).buffered_frames().drop_first()
                        &&& final(source).emitted() == old(source).emitted()
                    } else {
                        &&& old(source).remaining().len() > 0
                        &&& spec_decode_frame(
                            old(source).remaining()[0],
                            old(self).frames().len() as nat,
                        ) == Some(f@)
                        &&& final(self).frames() == old(self).frames().push(f@)
                        &&& final(self).buffered_frames() == old(self).buffered_frames()
                        &&& final(source).emitted() == old(source).emitted() + 1
                    }
                },
                Ok(None) => {
                    &&& old(self).buffered_frames().len() == 0
                    &&& old(source).remaining().len() == 0
                    &&& final(self).frames() == old(self).frames()
                    &&& final(self).buffered_frames() == old(self).buffered_frames()
                    &&& final(source).emitted() == old(source).emitted()
                },
                Err(e) => {
                    &&& old(self).buffered_frames().len() == 0
                    &&& old(source).remaining().len() > 0
                    &&& spec_decode_frame(
                        old(source).remaining()[0],
                        old(self).frames().len() as nat,
                    ) is None
                    &&& e == DecodeError::Short
                    &&& final(self).frames() == old(self).frames()
                    &&& final(self).buffered_frames() == old(self).buffered_frames()
                    &&& final(source).emitted() == old(source).emitted() + 1
                },
            },
    {
        match self.pop_buffered() {
            Some(f) => Ok(Some(f)),
            None => match source.read_frame() {
                None => Ok(None),
                Some(p) => match self.accept_frame(p) {
                    Ok(f) => Ok(Some(f)),
                    Err(e) => Err(e),
                },
            },
        }
    }

    /// Keep reading frames into the read-ahead buffer until the running
    /// maximum timestamp reaches `cutoff`, then return it; nothing is handed
    /// to the caller. When the group ends, or a header fails to decode, before
    /// the cutoff is reached, the cutoff can never be satisfied and the result
    /// is `None`: the caller's wait must be resolved by a competing branch,
    /// never by a premature value from this one.
    pub fn buffer_frames_until(&mut self, cutoff: Timestamp, source: &mut FrameSource) -> (r:
        Option<Timestamp>)
        requires
            old(self).wf(),
            old(source).wf(),
            old(self).frames().len() + old(source).remaining().len() <= usize::MAX,
        ensures
            final(self).wf(),
            final(source).wf(),
            final(source).all() == old(source).all(),
            final(self).delivered() == old(self).delivered(),
            match r {
                Some(t) => {
                    &&& buffer_outcome(
                        old(self).frames(),
                        old(source).remaining(),
                        cutoff.spec_micros(),
                    ) == Some(final(self).frames())
                    &&& t.spec_micros() == max_ts(final(self).frames())
                    &&& t.spec_micros() >= cutoff.spec_micros()
                    &&& final(self).spec_max_timestamp() == Some(t.spec_micros())
                    &&& final(source).emitted() == old(source).emitted()
                        + final(self).frames().len() - old(self).frames().len()
                },
                None => buffer_outcome(
                    old(self).frames(),
                    old(source).remaining(),
                    cutoff.spec_micros(),
                ) is None,
            },
    {
        loop
            invariant
                self.wf(),
                source.wf(),
                source.all() == old(source).all(),
                self.delivered() == old(self).delivered(),
                self.frames().len() >= old(self).frames().len(),
                self.frames().len() + source.remaining().len() <= usize::MAX,
                source.emitted() == old(source).emitted() + self.frames().len() - old(
                    self,
                ).frames().len(),
                buffer_outcome(old(self).frames(), old(source).remaining(), cutoff.spec_micros())
                    == buffer_outcome(self.frames(), source.remaining(), cutoff.spec_micros()),
            decreases source.remaining().len(),
        {
            match self.max_timestamp() {
                Some(t) => if t.at_least(cutoff) {
                    return Some(t);
                },
                None => {},
            }
            let ghost cur = self.frames();
            let ghost rem = source.remaining();
            match source.read_frame() {
                None => {
                    return None;
                },
                Some(p) => {
                    proof {
                        assert(rem[0] == p@);
                    }
                    match self.buffer_frame(p) {
                        Ok(_) => {
                            proof {
                                assert(source.remaining() =~= rem.drop_first());
                            }
                        },
                        Err(_) => {
                            return None;
                        },
                    }
                },
            }
        }
    }

    /// Decode the header, build the frame, and advance `index`, the running
    /// maximum and the ghost log; the caller decides whether the frame is
    /// delivered or buffered.
    fn decode_next(&mut self, payload: Vec<u8>) -> (r: Result<Frame, DecodeError>)
        requires
            old(self).wf(),
            old(self).frames().len() < usize::MAX,
        ensures
            final(self).buffered == old(self).buffered,
            match r {
                Ok(f) => {
                    &&& spec_decode_frame(payload@, old(self).frames().len() as nat) == Some(f@)
                    &&& final(self).log@ == old(self).log@.push(f@)
                    &&& final(self).index == old(self).index + 1
                    &&& final(self).log@.len() == final(self).index
                    &&& (forall|i: int|
                        0 <= i < final(self).log@.len()
                            ==> (#[trigger] final(self).log@[i].keyframe <==> i == 0))
                    &&& match final(self).max_timestamp {
                        None => false,
                        Some(t) => t.spec_micros() == max_ts(final(self).log@),
                    }
                },
                Err(e) => {
                    &&& spec_decode_frame(payload@, old(self).frames().len() as nat) is None
                    &&& e == DecodeError::Short
                    &&& *final(self) == *old(self)
                },
            },
    {
        let (micros, n) = match decode_u64(&payload) {
            Ok(x) => x,
            Err(e) => {
                return Err(e);
            },
        };
        let timestamp = Timestamp::from_micros(micros);
        let keyframe = self.index == 0;
        let mut rest: Vec<u8> = Vec::new();
        let mut j: usize = n;
        while j < payload.len()
            invariant
                n <= j <= payload.len(),
                rest@ == payload@.subrange(n as int, j as int),
            decreases payload.len() - j,
        {
            rest.push(payload[j]);
            proof {
                assert(payload@.subrange(n as int, j + 1) =~= payload@.subrange(
                    n as int,
                    j as int,
                ).push(payload@[j as int]));
            }
            j = j + 1;
        }
        let frame = Frame { keyframe, timestamp, payload: rest };
        let ghost fv = frame@;
        self.index = self.index + 1;
        self.max_timestamp = Some(
            match self.max_timestamp {
                Some(t) => t.max(timestamp),
                None => timestamp,
            },
        );
        proof {
            crate::frame::lemma_max_ts_push(self.log@, fv);
        }
        self.log = Ghost(self.log@.push(fv));
        Ok(frame)
    }

}

/// The first frame ever decoded from a group is a keyframe, and every later
/// frame of the same group is not.
pub proof fn lemma_keyframe_iff_first(c: GroupConsumer, i: int)
    requires
        c.wf(),
        0 <= i < c.frames().len(),
    ensures
        c.frames()[i].keyframe <==> i == 0,
{
}

/// The read-ahead buffer holds exactly the undelivered suffix of the arrival
/// order: however reads mix buffered and unbuffered calls, delivery can
/// neither reorder, duplicate nor drop frames.
pub proof fn lemma_buffer_is_undelivered_suffix(c: GroupConsumer, i: int)
    requires
        c.wf(),
        0 <= i < c.buffered_frames().len(),
    ensures
        c.buffered_frames()[i] == c.frames()[c.delivered() + i],
        0 <= c.delivered(),
        c.delivered() + c.buffered_frames().len() == c.frames().len(),
{
}

/// The running maximum is `None` exactly until the first frame is decoded and
/// from then on equals the largest decoded timestamp — an upper bound that is
/// attained — however many of those frames were served through the buffer.
pub proof fn lemma_max_timestamp_correct(c: GroupConsumer)
    requires
        c.wf(),
    ensures
        c.spec_max_timestamp() is None <==> c.frames().len() == 0,
        c.frames().len() > 0 ==> c.spec_max_timestamp() == Some(max_ts(c.frames())),
        forall|i: int|
            0 <= i < c.frames().len() ==> c.frames()[i].timestamp <= max_ts(c.frames()),
        c.frames().len() > 0 ==> exists|i: int|
            0 <= i < c.frames().len() && c.frames()[i].timestamp == max_ts(c.frames()),
{
    if c.frames().len() > 0 {
        crate::frame::lemma_max_ts_is_max(c.frames());
    }
}

/// A successful `buffer_frames_until` extends the log without disturbing what
/// was already decoded, and stops at or past the cutoff.
pub proof fn lemma_buffer_outcome_extends(cur: Seq<FrameView>, rem: Seq<Seq<u8>>, cutoff: u64)
    requires
        buffer_outcome(cur, rem, cutoff) is Some,
    ensures
        buffer_outcome(cur, rem, cutoff) matches Some(l) && cur.is_prefix_of(l) && max_ts(l)
            >= cutoff && l.len() - cur.len() <= rem.len(),
    decreases rem.len(),
{
    if cur.len() > 0 && max_ts(cur) >= cutoff {
    } else {
        let fv = spec_decode_frame(rem[0], cur.len() as nat)->Some_0;
        lemma_buffer_outcome_extends(cur.push(fv), rem.drop_first(), cutoff);
        assert(cur.is_prefix_of(cur.push(fv)));
    }
}

} // verus!
