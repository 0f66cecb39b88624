//! Sorting images into classes by the similarity of their embeddings.
//!
//! The embeddings themselves are not seen here.  A caller computes their
//! pairwise similarities and hands over the flattened matrix; the library
//! finds the terms of the similarity threshold, sorts the embeddings into
//! classes, names the classes and writes the reports of a run.

pub mod arguments;
pub mod class_names;
pub mod clustering;
pub mod decimal;
pub mod images;
pub mod pairwise;
pub mod partition;
pub mod results;
pub mod rules;
pub mod similarity;
pub mod target_dir;
pub mod threshold;

pub use arguments::{ArgumentsModel, InvalidUsageError};
pub use class_names::{gen_class_names, gen_default_class_names};
pub use clustering::{cluster_embeddings, Table};
pub use images::extension_is_image;
pub use pairwise::calc_pairwise_cosine_similarities;
pub use results::{format_classified_images, format_missed_images};
pub use similarity::Similarity;
pub use threshold::{calc_similarity_threshold, max_within_clusters, min_between_clusters};
