use vstd::prelude::*;

use crate::timestamp::Timestamp;
use crate::varint::vint_decode;

verus! {

/// The mathematical view of a frame: the keyframe flag, the timestamp in
/// microseconds, and the payload bytes left after the header.
pub struct FrameView {
    pub keyframe: bool,
    pub timestamp: u64,
    pub payload: Seq<u8>,
}

/// A decoded media frame.
///
/// `keyframe` is true exactly on the first frame read from its group; the
/// timestamp was decoded from the variable-width header at the front of the
/// wire payload, and `payload` holds the remaining bytes.
#[derive(Debug)]
pub struct Frame {
    pub keyframe: bool,
    pub timestamp: Timestamp,
    pub payload: Vec<u8>,
}

impl View for Frame {
    type V = FrameView;

    open spec fn view(&self) -> FrameView {
        FrameView {
            keyframe: self.keyframe,
            timestamp: self.timestamp.spec_micros(),
            payload: self.payload@,
        }
    }
}

/// What decoding one wire payload as the frame at position `index` of its
/// group yields: the header's value becomes the timestamp, the rest of the
/// bytes the payload, and the frame is a keyframe exactly when it is first.
/// `None` when the header itself cannot be decoded.
pub open spec fn spec_decode_frame(payload: Seq<u8>, index: nat) -> Option<FrameView> {
    match vint_decode(payload) {
        None => None,
        Some((v, n)) => Some(
            FrameView {
                keyframe: index == 0,
                timestamp: v as u64,
                payload: payload.subrange(n as int, payload.len() as int),
            },
        ),
    }
}

/// The largest timestamp among a sequence of frames, zero when there are none.
pub open spec fn max_ts(s: Seq<FrameView>) -> u64
    decreases s.len(),
{
    if s.len() == 0 {
        0u64
    } else if max_ts(s.drop_last()) >= s.last().timestamp {
        max_ts(s.drop_last())
    } else {
        s.last().timestamp
    }
}

/// `max_ts` is an upper bound on every frame's timestamp, and is attained.
pub proof fn lemma_max_ts_is_max(s: Seq<FrameView>)
    requires
        s.len() > 0,
    ensures
        forall|i: int| 0 <= i < s.len() ==> s[i].timestamp <= max_ts(s),
        exists|i: int| 0 <= i < s.len() && s[i].timestamp == max_ts(s),
    decreases s.len(),
{
    if s.len() == 1 {
        assert(s[0] == s.last());
    } else {
        lemma_max_ts_is_max(s.drop_last());
        assert(forall|i: int| 0 <= i < s.len() - 1 ==> s[i] == s.drop_last()[i]);
        if max_ts(s.drop_last()) >= s.last().timestamp {
            let j = choose|j: int|
                0 <= j < s.drop_last().len() && s.drop_last()[j].timestamp == max_ts(
                    s.drop_last(),
                );
            assert(s[j].timestamp == max_ts(s));
        } else {
            assert(s[s.len() - 1].timestamp == max_ts(s));
        }
    }
}

/// Appending a frame moves `max_ts` to the larger of the old maximum and the
/// new frame's timestamp.
pub proof fn lemma_max_ts_push(s: Seq<FrameView>, f: FrameView)
    ensures
        max_ts(s.push(f)) == if max_ts(s) >= f.timestamp {
            max_ts(s)
        } else {
            f.timestamp
        },
{
    assert(s.push(f).drop_last() =~= s);
}

} // verus!
