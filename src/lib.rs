//! Extensions for standard Rust types: adapters for iterators of `Option` and
//! `Result`, unwrapping helpers for `Result` and `Option`, and a formatter
//! that renders an error together with its chain of causes.

pub mod iterator;
pub mod option;
pub mod report;
pub mod result;

pub use iterator::{IteratorExt, MapInto, MapOpt, MapRes, MapResErr};
pub use option::OptionExt;
pub use report::{ErrorNode, Report, Source};
pub use result::ResultExt;
