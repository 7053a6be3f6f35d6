//! From loghub's event templates to a recon filter set.
//!
//! loghub publishes, beside each of its sample logs, a CSV of the event templates found in it. A
//! template is a mask of one message, in which `<*>` marks what varies. The library reads the
//! templates of a CSV, turns each into a regular expression that finds the message in a raw log
//! line, and writes them as the file of a set, which it then reads back as recon would.
//!
//! [`run::make`] goes the whole way; the modules follow its steps.
pub mod convert;
pub mod document;
pub mod emit;
pub mod error;
pub mod matching;
pub mod name;
pub mod outside;
pub mod rows;
pub mod run;
pub mod schema;
pub mod source;
pub mod spelling;
pub mod template;
pub mod text;
pub mod tree;
pub mod validate;
