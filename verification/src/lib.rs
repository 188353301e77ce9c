//! Conversion of raw extracted PDF text into a cleaned, single-spaced form,
//! wrapped between fixed header and footer marker lines, together with the
//! derivation of a default output file name from an input path.

pub mod chars;
pub mod normalize;
pub mod paths;
pub mod props;
pub mod wrap;

pub use normalize::normalize_whitespace;
pub use paths::default_output_path;
pub use wrap::process_extracted_text;
