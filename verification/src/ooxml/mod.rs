//! Native reading of OOXML (Word) packages: the XML element tree, the package
//! model, styles, numbering, comments and the helpers of body mapping.

pub mod comments;
pub mod document;
pub mod error;
pub mod numbering;
pub mod package;
pub mod styles;
pub mod theme;
pub mod xml;
