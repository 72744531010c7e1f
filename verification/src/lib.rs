//! A named, ordered key-value container ("structure") for passing
//! dynamically typed metadata between components, with a canonical
//! textual representation.
//!
//! A [`structure::Structure`] holds a name and an ordered sequence of
//! uniquely named fields, each carrying a dynamically typed
//! [`value::Value`]. An [`owned::OwnedStructure`] is the owning handle
//! around a structure; borrowed access goes through `&Structure` /
//! `&mut Structure`. The canonical text form is produced and parsed by
//! [`codec`], and parsing the text of any structure yields an equal
//! structure.

pub mod codec;
pub mod fields;
pub mod iter;
pub mod owned;
pub mod structure;
pub mod value;
