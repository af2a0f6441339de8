//! Decomposition of a path or URL string into directory, file name,
//! stem and extension.

mod model;
mod file_url;

pub use model::{
    directory_of, extension_of, extension_start, filename_of, has_single_extension, last_index_of,
    lemma_extension_start_bounds, lemma_extension_starts_with_one_dot,
    lemma_filename_has_no_separator, lemma_filename_is_stem_then_extension, lemma_last_index_of,
    lemma_last_index_of_split, lemma_reparse_keeps_name, separator, stem_of,
};
pub use file_url::FileUrl;
