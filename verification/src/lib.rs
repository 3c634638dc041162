//! A fuzzy lookup engine over a small key/value dataset.
//!
//! Given a query string, every entry of the dataset is scored with one of two
//! string-similarity metrics (chosen by the query's character count) and the
//! best twenty entries are returned in descending score order.

pub mod load;
pub mod rank;
pub mod score;
pub mod state;
