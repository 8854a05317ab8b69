//! A composable data-pipeline engine: typed stages that chain into one pipeline
//! object, and a loader that drives such a pipeline through restartable epochs.

/// Helpers for batches held as several parallel lists.
pub mod batching;
/// The prefetching loader that drives a pipeline.
pub mod dataloader;
/// Stages, the combinators that wire them together, and the sources that feed them.
pub mod pipeline;
/// Sources of text segments for language pipelines.
pub mod pipelines;
/// The names that most programs need.
pub mod prelude;
mod random;
/// Cutting, joining and trimming of texts.
pub mod text;
/// Tokenizers: cutting texts into tokens and putting tokens together.
pub mod tokenization;
/// Vocabularies: tokens and their indexes.
pub mod vocab;
