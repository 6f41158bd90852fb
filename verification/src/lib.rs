//! Chinese numeral rendering of signed 64-bit integers.
//!
//! `convert_all_fmt` turns any `i64` into its written-out Chinese
//! numeral text, e.g. 12345 into "一万二千三百四十五", with the
//! zero-filler "零" placed between non-adjacent digit groups and "一"
//! omitted before a lone "十" in the tens place.
pub mod laws;
pub mod model;
pub mod render;

pub use model::digit_seq;
pub use model::unit_seq;
pub use model::render_seq;
pub use render::Fmt;
pub use render::ZeroFlag;
pub use render::convert_all_fmt;
pub use render::digit_str;
pub use render::get_max_unit_index;
