//! The verified core of a file picker: a directory browser with back and
//! forward history, entry resolution, selection and submission, and the
//! choice of how a picker is presented.

pub mod browser;
pub mod entry;
pub mod error;
pub mod explorer;
pub mod launch;
