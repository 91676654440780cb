//! The verified core of a low-latency media relay.
//!
//! Two pieces of logic live here, each with proved contracts:
//!
//! - **Group delivery** ([`GroupConsumer`]): consuming one group of media
//!   frames, decoding the variable-width timestamp header at the front of each
//!   wire payload, tagging the group's first frame as its keyframe, buffering
//!   frames read ahead of the caller, and tracking the running maximum
//!   timestamp so that several concurrent group reads can be synchronized on a
//!   cutoff.
//! - **Origin routing** ([`route`]): translating a connection's validated
//!   claims into prefix- or exact-scoped subscribe and publish registrations
//!   against the relay's two origin scopes, so that edge clients see the union
//!   of local and cluster-wide broadcasts while cluster peers never read back
//!   their own replicated traffic.
//!
//! The transport itself — sessions, streams, the clock — stays outside; the
//! library works on plain bytes and values handed in by its caller.

mod frame;
mod group;
mod router;
mod timestamp;
mod varint;

pub use frame::{
    Frame, FrameView, lemma_max_ts_is_max, lemma_max_ts_push, max_ts, spec_decode_frame,
};
pub use group::{
    FrameSource, GroupConsumer, buffer_outcome, lemma_buffer_is_undelivered_suffix,
    lemma_buffer_outcome_extends, lemma_keyframe_iff_first, lemma_max_timestamp_correct,
};
pub use router::{
    Claims, OriginId, PublishPlan, RoutePlan, ScopeMode, SubscribePlan, is_prefix_scope, route,
    spec_scope_mode,
};
pub use timestamp::Timestamp;
pub use varint::{
    DecodeError, EncodeError, be_val, decode_u64, encode_u64, lemma_vint_decode_prefix, pow256,
    vint_decode, vint_encoded_len, vint_len, vint_value,
};
