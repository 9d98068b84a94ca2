//! Conversion of Valve-style nested key/value localization text into JSON.
//!
//! The library is organised as a pipeline: the preprocessor repairs known
//! upstream defects in the raw text, the classifier tags each line, the
//! tree builder folds the tagged lines into a JSON value tree, and the
//! aggregator combines many converted files into one document.

pub mod aggregate;
pub mod builder;
pub mod classify;
pub mod escape;
pub mod preprocess;
pub mod repair;
pub mod text;
pub mod tokens;
pub mod value;
