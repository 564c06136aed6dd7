//! Finding likely duplicates among contact records.
//!
//! Two records are compared field by field: the edit distance between two
//! texts, counted in user-perceived characters, is turned into a similarity
//! between zero and one, and the similarities of the five text fields are
//! weighted into one score between 0 and 1000. Every unordered pair of records
//! whose score reaches a threshold is reported.
//!
//! All arithmetic is exact: a similarity is a fraction of two integers and the
//! score is the floor of the exact weighted sum.

pub mod segmentation;
pub mod distance;
pub mod edits;
pub mod similarity;
pub mod score;
pub mod pairs;
pub mod matching;
mod wide;

pub use distance::{cluster_edit_distance, levenshtein_distance};
pub use matching::{calculate_similarity_scores, match_pair, SimilarityScore};
pub use pairs::enumerate_pairs;
pub use score::{calculate_match_score, weighted_score, Contact};
pub use similarity::{calculate_similarity, similarity_from_distance, Similarity};
