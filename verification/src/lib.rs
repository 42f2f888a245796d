//! A verified decoder for URL query strings.
//!
//! The crate splits raw `key=value&key2=value2` text into a multi-valued
//! mapping from percent-decoded keys to ordered sequences of percent-decoded
//! values, and offers a typed-extraction protocol that converts those values
//! into scalar, optional, and repeated results.

mod decode;
mod extract;
mod mapping;

pub use decode::form_url_decode;
pub use decode::form_url_decode_spec;
pub use decode::pct_decode;
pub use decode::plus_to_space;
pub use decode::FormUrlDecoded;
pub use extract::all_dec_digits;
pub use extract::dec_val;
pub use extract::invalid_count_description;
pub use extract::lemma_optional_empty_is_absent;
pub use extract::lemma_repeated_elementwise;
pub use extract::parse_signed_spec;
pub use extract::parse_unsigned_spec;
pub use extract::single_value;
pub use extract::FromQueryString;
pub use extract::FromQueryStringError;
pub use extract::NoopQueryStringExtractor;
pub use extract::QueryStringExtractor;
pub use mapping::add_pair;
pub use mapping::map_push;
pub use mapping::opt_str_view;
pub use mapping::pairs_map;
pub use mapping::seg_key;
pub use mapping::seg_value;
pub use mapping::decoded_pair_count;
pub use mapping::key_appears;
pub use mapping::lemma_split_none_has_no_keys;
pub use mapping::lemma_value_count;
pub use mapping::lemma_key_membership;
pub use mapping::lemma_split_characterization;
pub use mapping::lemma_values_in_order;
pub use mapping::split;
pub use mapping::split_bytes_spec;
pub use mapping::split_first;
pub use mapping::split_segments;
pub use mapping::split_spec;
pub use mapping::split_state;
pub use mapping::value_views;
pub use mapping::values_for;
pub use mapping::QueryStringMapping;
