//! A structural reader for PDF documents: a lexer and value parser over an
//! in-memory byte buffer, a cross-reference loader, an object store with
//! cached resolution, a stream filter pipeline and a small document model.

pub mod chars;
pub mod cursor;
pub mod error;
pub mod filter;
pub mod lexer;
pub mod number;
pub mod object;
pub mod parser;
pub mod pdf;
pub mod store;
pub mod stream;
pub mod text;
pub mod token;
pub mod value;
pub mod xref;

use vstd::prelude::*;
pub use crate::pdf::{OpenError, PageError, Pdf};
use crate::pdf::{opened, version_of};
use crate::xref::{merged, root_from, sections_of};

verus! {

/// Opens the document that `data` holds.
pub fn open(data: Vec<u8>) -> (r: Result<Pdf, OpenError>)
    ensures
        match r {
            Ok(pdf) => {
                &&& opened(data@) is Ok
                &&& sections_of(data@) matches Ok(sections)
                &&& pdf.bytes() == data@
                &&& pdf.table() == merged(sections)
                &&& pdf.root() == root_from(sections, 0)
                &&& sections.len() > 0
                &&& pdf.trailer_view() == sections[0].trailer
                &&& pdf.version_view() == version_of(data@)
            },
            Err(e) => opened(data@) == Err::<(), OpenError>(e),
        },
{
    Pdf::open(data)
}

/// Opens the document that `data` holds. Protected documents are not
/// decrypted: the password is not used.
pub fn open_with_pwd(data: Vec<u8>, pwd: &str) -> (r: Result<Pdf, OpenError>)
    ensures
        match r {
            Ok(pdf) => {
                &&& opened(data@) is Ok
                &&& sections_of(data@) matches Ok(sections)
                &&& pdf.bytes() == data@
                &&& pdf.table() == merged(sections)
                &&& pdf.root() == root_from(sections, 0)
                &&& sections.len() > 0
                &&& pdf.trailer_view() == sections[0].trailer
                &&& pdf.version_view() == version_of(data@)
            },
            Err(e) => opened(data@) == Err::<(), OpenError>(e),
        },
{
    Pdf::open(data)
}

} // verus!
