pub mod text;
pub mod json;
pub mod convert;
pub mod validate;
pub mod manifest;
pub mod id;
pub mod ooxml;
pub mod pm;
pub mod pdf;
pub mod html;
pub mod md;
pub mod docx;
