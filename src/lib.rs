//! Byte counts with decimal (1000-based) and binary (1024-based) magnitude
//! prefixes, parsed from and rendered to human-readable text.

mod digits;
mod error;
mod format;
mod laws;
mod parse;
mod size;
mod units;

pub use digits::{all_digits, decimal, digit_char, digit_value, digits_value, is_digit, leading_digits, pow10};
pub use error::{error_message, Error};
pub use units::{parse_unit, matches_word, same_letter, unit_multiplier, B, EB, EIB, GB, GIB, KB, KIB, MB, MIB, PB, PIB, TB, TIB};
pub use parse::{parse_byte_size, parse_spec, saturate, skip_spaces};
pub use format::{base, div_round_even, format_byte_size, format_spec, magnitude, prefix_letter, step_size, tenths, unit_tail, Flavor};
pub use size::{ByteSizeIec, ByteSizeSi};
pub use laws::{carries_over, spaces, lemma_format_round_trip, lemma_format_small, lemma_parse_fraction, lemma_parse_whole, lemma_reinterpret_binary, lemma_reinterpret_decimal};
