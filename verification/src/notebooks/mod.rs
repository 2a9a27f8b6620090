//! Notebook builders: the page fragments of each notebook, in document order.
pub mod collection;
pub mod future_log;
pub mod month;
pub mod reference;
