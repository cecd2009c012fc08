//! Recursive file finder: the walk over a directory tree, the classification
//! of its entries, the literal search in text files, the stable ordering and
//! the rendering of the results.
//!
//! The library decides and computes; its caller reads and writes. The walk
//! asks the caller for one listing after the other ([`walk`]), or takes them
//! from a snapshot of the tree ([`traverser`]); the search takes the contents
//! of the text files as the caller read them ([`searcher`]); the sinks hand
//! out the lines to be written ([`printer`]). [`pipeline`] puts the stages in
//! their order.

pub mod classifier;
pub mod occurrence;
pub mod pipeline;
pub mod printer;
pub mod searcher;
pub mod seq_lemmas;
pub mod snapshot;
pub mod sorter;
pub mod std_specs;
pub mod text;
pub mod traverser;
pub mod traverser_laws;
pub mod walk;
