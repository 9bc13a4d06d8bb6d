//! A header value followed by a run of trailing items.
//!
//! [`HeaderSlice`] pairs one header with a sequence of items, so that callers
//! can keep "metadata and payload" as one value. The layout arithmetic
//! ([`HeaderSlice::align`], [`HeaderSlice::items_offset`],
//! [`HeaderSlice::region_size`]) says where the items of such a value start
//! when header and items share one contiguous region, and how large that
//! region is. A uniform sequence can be taken apart into header and items and
//! put back together unchanged, by value or through references.

mod layout;
mod slice;

pub use layout::{
    is_header_slice_aligned, lemma_items_offset_field_layout, lemma_round_up, round_up,
    spec_align, spec_items_offset, spec_region_size,
};
pub use slice::{
    currents, derefs, join_full, lemma_borrowed_round_trip, lemma_join_split, lemma_split_join,
    split_full, HeaderSlice,
};
