//! Interactive rule manager: state and the decisions taken on each key.

pub mod app;
pub mod keys;
pub mod view;
