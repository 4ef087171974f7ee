//! Aligns the output of a line-oriented calculator with the document that
//! produced it, and renders both side by side.

pub mod soulver;
pub mod text;
pub mod zipper;

pub use soulver::{
    get_number_of_initial_newlines, is_blank_or_comment, prepend_newlines, raw_soulver_output,
    run_soulver, run_soulver_zipped, SoulverError,
};
pub use text::{split_lines, trim_end};
pub use zipper::{column_width, zip_columns};
