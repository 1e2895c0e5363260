//! Backward binary search encoding: a value known to lie in a sorted
//! half-open range `[start, end)` is stored as the sequence of left/right
//! decisions a binary search would take to locate it, and recovered by
//! replaying those decisions against the same range.

mod bits;
mod codec;
mod model;
mod stack;

pub use bits::bits_of;
pub use bits::Path;
pub use codec::decode;
pub use codec::decode_from;
pub use codec::encode;
pub use codec::encode_from;
pub use codec::BbseError;
pub use stack::BBSEStack;

pub use model::bbse_from_path;
pub use model::bbse_path;
pub use model::from_path_consumable;
pub use model::from_replayed_value;
pub use model::lemma_empty_path_iff_midpoint_hit;
pub use model::lemma_from_path_default_midpoint;
pub use model::lemma_from_path_round_trip;
pub use model::lemma_path_len_bound;
pub use model::lemma_path_round_trip;
pub use model::lemma_pow2_path_len;
pub use model::lemma_pow2_path_len_exact;
pub use model::max_path_len;
pub use model::mid_of;
pub use model::path_consumable;
pub use model::replayed_value;
