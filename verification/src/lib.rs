//! Reading of OpenDocument text files: the decisions that turn the XML
//! events of a document's `content.xml` into a document tree.

pub mod names;
pub mod content;
pub mod table;
pub mod document;
pub mod escape;
pub mod odt;
pub mod archive;
