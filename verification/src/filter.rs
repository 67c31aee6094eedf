//! Stream filters: the codecs that turn the raw bytes of a stream into its
//! content, found by name.

use vstd::prelude::*;
use crate::text::str_equal;

verus! {

/// Why a filter gave no bytes.
#[derive(Debug, Clone, Copy, PartialEq, Eq, Structural)]
pub enum FilterReason {
    /// No codec is known under the name.
    UnsupportedFilter,
    /// The codec could not decode the bytes.
    Corrupt,
    /// The `Filter` entry of a stream is neither a name nor an array of
    /// names.
    BadFilterEntry,
}

/// A filter error: the name of the filter and the reason.
#[derive(Debug, PartialEq, Eq)]
pub struct FilterError {
    pub name: String,
    pub reason: FilterReason,
}

/// A filter error with its name as a sequence.
pub struct FilterErrorModel {
    pub name: Seq<char>,
    pub reason: FilterReason,
}

impl View for FilterError {
    type V = FilterErrorModel;

    open spec fn view(&self) -> FilterErrorModel {
        FilterErrorModel { name: self.name@, reason: self.reason }
    }
}

/// Decoded bytes, or the error, both by their views.
pub open spec fn filter_view(r: Result<Vec<u8>, FilterError>) -> Result<
    Seq<u8>,
    FilterErrorModel,
> {
    match r {
        Ok(bytes) => Ok(bytes@),
        Err(e) => Err(e@),
    }
}

/// What `inflate::inflate_bytes_zlib` returns for `data`: the bytes that
/// the zlib stream holds, or the message of its error.
pub uninterp spec fn zlib_inflated(data: Seq<u8>) -> Result<Seq<u8>, Seq<char>>;

/// The result of the inflater by its views.
pub open spec fn inflated_view(r: Result<Vec<u8>, String>) -> Result<Seq<u8>, Seq<char>> {
    match r {
        Ok(bytes) => Ok(bytes@),
        Err(message) => Err(message@),
    }
}

/// `inflate::inflate_bytes_zlib`: decompresses DEFLATE data that has a zlib
/// header and trailer, and returns the decompressed bytes or an error
/// message. The result depends on `data` alone, and is known here only by
/// its name, `zlib_inflated`.
#[verifier::external_body]
fn inflate_zlib(data: &[u8]) -> (r: Result<Vec<u8>, String>)
    ensures
        inflated_view(r) == zlib_inflated(data@),
{
    inflate::inflate_bytes_zlib(data)
}

/// What the deflate filter makes of what the inflater returned: its bytes,
/// or the error that the data is corrupt.
pub open spec fn flate_outcome(inflated: Result<Seq<u8>, Seq<char>>) -> Result<
    Seq<u8>,
    FilterErrorModel,
> {
    match inflated {
        Ok(bytes) => Ok(bytes),
        Err(_) => Err(FilterErrorModel { name: "FlateDecode"@, reason: FilterReason::Corrupt }),
    }
}

/// What the filter called `name` makes of `data`: `FlateDecode` inflates
/// it, and no other name is known.
pub open spec fn decoded_with(name: Seq<char>, data: Seq<u8>) -> Result<
    Seq<u8>,
    FilterErrorModel,
> {
    if name == "FlateDecode"@ {
        flate_outcome(zlib_inflated(data))
    } else {
        Err(FilterErrorModel { name, reason: FilterReason::UnsupportedFilter })
    }
}

/// The result of the deflate filter, from what the inflater returned.
pub fn flate_result(inflated: Result<Vec<u8>, String>) -> (r: Result<Vec<u8>, FilterError>)
    ensures
        filter_view(r) == flate_outcome(inflated_view(inflated)),
{
    match inflated {
        Ok(bytes) => Ok(bytes),
        Err(_) => Err(
            FilterError { name: "FlateDecode".to_owned(), reason: FilterReason::Corrupt },
        ),
    }
}

/// Decodes `data` with the deflate filter, if `name` is its name.
pub fn decode_deflate(data: &[u8], name: &str) -> (r: Result<Vec<u8>, FilterError>)
    ensures
        filter_view(r) == decoded_with(name@, data@),
{
    if str_equal(name, "FlateDecode") {
        flate_result(inflate_zlib(data))
    } else {
        Err(FilterError { name: name.to_owned(), reason: FilterReason::UnsupportedFilter })
    }
}

/// Decodes `raw` with the filter that is registered under `filter_name`.
pub fn decode(filter_name: &str, raw: &[u8]) -> (r: Result<Vec<u8>, FilterError>)
    ensures
        filter_view(r) == decoded_with(filter_name@, raw@),
{
    decode_deflate(raw, filter_name)
}

/// What the filters called `names`, from the one at index `from` on and in
/// their order, make of `data`: each gets what the one before it gave, and
/// the first error ends it.
pub open spec fn filtered_from(names: Seq<Seq<char>>, from: int, data: Seq<u8>) -> Result<
    Seq<u8>,
    FilterErrorModel,
>
    decreases names.len() - from,
{
    if 0 <= from < names.len() {
        match decoded_with(names[from], data) {
            Ok(bytes) => filtered_from(names, from + 1, bytes),
            Err(e) => Err(e),
        }
    } else {
        Ok(data)
    }
}

/// What the filters called `names` make of `data`, applied in their order.
pub open spec fn filtered(names: Seq<Seq<char>>, data: Seq<u8>) -> Result<
    Seq<u8>,
    FilterErrorModel,
> {
    filtered_from(names, 0, data)
}

} // verus!
