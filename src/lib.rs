//! Parsing and classification of D-Bus type signatures.
//!
//! [`signature`] holds the signature grammar: the parser from text to a tree of
//! [`DbusType`] nodes, their canonical serialisation and their wire category.
//! [`derive`] infers, from the static shape of a declared type, the signature
//! and wire category that a binding for that type uses. [`round_trip`] proves
//! that parsing and canonical text undo each other.
pub mod derive;
pub mod round_trip;
pub mod signature;

pub use derive::{arg, classify, ArgImpl, Shape, ShapeError};
pub use signature::{ArgType, DbusType, Signature, SignatureError, SimpleType, Ty};
