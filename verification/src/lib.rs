//! Verified logic of a MuPDF binding for PDF documents: link actions and their link URIs,
//! page selections and page operations, and small naming and drawing helpers.

pub mod error;
pub mod text;
pub mod number;
pub mod binary32;
pub mod percent;
pub mod path;
pub mod destination;
pub mod links;
pub mod parse;
pub mod roundtrip;
pub mod link_dict;
pub mod pages;
pub mod irect;
pub mod pixel;
pub mod fonts;
pub mod resources;
pub mod redact;
pub mod shape;
