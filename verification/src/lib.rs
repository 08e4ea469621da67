//! Physical garbage collection of a pageserver's remote storage: the rules that
//! decide which objects may be deleted.

pub mod accumulator;
pub mod ancestors;
pub mod generation;
pub mod ids;
pub mod manifests;
pub mod mode;
pub mod refs;
pub mod retention;
pub mod run;
pub mod summary;
pub mod timelines;
