//! Streams: a dictionary and the bytes that it describes.

use vstd::prelude::*;
use vstd::slice::slice_to_vec;
use crate::filter::{
    decode, filter_view, filtered, filtered_from, FilterError, FilterErrorModel, FilterReason,
};
use crate::cursor::Cursor;
use crate::error::{LexError, LexReason};
use crate::lexer::read_raw;
use crate::value::{dict_get, values_view, Dict, DictModel, Value, ValueModel};

verus! {

/// The names that `items` hold, in their order; `None` where one of them
/// is no name.
pub open spec fn name_list(items: Seq<ValueModel>) -> Option<Seq<Seq<char>>> {
    if forall|i: int| 0 <= i < items.len() ==> #[trigger] items[i] is Name {
        Some(Seq::new(items.len(), |i: int| items[i]->Name_0))
    } else {
        None
    }
}

/// The names of the filters that the dictionary of a stream asks for under
/// `Filter`: none where the entry is missing, one where it is a name, and
/// those of an array of names in their order. `None` for any other entry.
pub open spec fn filter_names(dict: DictModel) -> Option<Seq<Seq<char>>> {
    match dict_get(dict, "Filter"@) {
        None => Some(Seq::empty()),
        Some(ValueModel::Name(n)) => Some(seq![n]),
        Some(ValueModel::Array(items)) => name_list(items),
        Some(_) => None,
    }
}

/// The content of a stream with the dictionary `dict` and the raw bytes
/// `raw`: what its filters make of the bytes.
pub open spec fn stream_content(dict: DictModel, raw: Seq<u8>) -> Result<
    Seq<u8>,
    FilterErrorModel,
> {
    match filter_names(dict) {
        Some(names) => filtered(names, raw),
        None => Err(
            FilterErrorModel { name: Seq::empty(), reason: FilterReason::BadFilterEntry },
        ),
    }
}

/// Whether every value of `items` is a name.
fn all_names(items: &Vec<Value>) -> (r: bool)
    ensures
        r == name_list(values_view(*items)) is Some,
{
    let mut i: usize = 0;
    while i < items.len()
        invariant
            i <= items@.len(),
            forall|j: int| 0 <= j < i ==> #[trigger] values_view(*items)[j] is Name,
        decreases items@.len() - i,
    {
        match &items[i] {
            Value::Name(_) => {},
            _ => {
                assert(!(values_view(*items)[i as int] is Name));
                return false;
            },
        }
        i = i + 1;
    }
    true
}

/// Applies the filters that `dict` asks for to `raw`.
pub fn run_filters(dict: &Dict, raw: &[u8]) -> (r: Result<Vec<u8>, FilterError>)
    ensures
        filter_view(r) == stream_content(dict@, raw@),
{
    match dict.get("Filter") {
        None => Ok(slice_to_vec(raw)),
        Some(Value::Name(n)) => {
            let r = decode(n.as_str(), raw);
            proof {
                reveal_with_fuel(filtered_from, 2);
            }
            r
        },
        Some(Value::Array(items)) => {
            if !all_names(items) {
                return Err(
                    FilterError { name: String::new(), reason: FilterReason::BadFilterEntry },
                );
            }
            let ghost names = name_list(values_view(*items))->0;
            let mut cur: Vec<u8> = slice_to_vec(raw);
            let mut i: usize = 0;
            while i < items.len()
                invariant
                    i <= items@.len(),
                    name_list(values_view(*items)) == Some(names),
                    names.len() == items@.len(),
                    stream_content(dict@, raw@) == filtered(names, raw@),
                    filtered_from(names, i as int, cur@) == filtered(names, raw@),
                decreases items@.len() - i,
            {
                match &items[i] {
                    Value::Name(n) => {
                        assert(values_view(*items)[i as int] == ValueModel::Name(n@));
                        assert(names[i as int] == n@);
                        match decode(n.as_str(), cur.as_slice()) {
                            Ok(bytes) => {
                                cur = bytes;
                            },
                            Err(e) => {
                                assert(filtered_from(names, i as int, cur@) == Err::<
                                    Seq<u8>,
                                    FilterErrorModel,
                                >(e@));
                                return Err(e);
                            },
                        }
                    },
                    _ => {
                        assert(values_view(*items)[i as int] is Name);
                        assert(false);
                    },
                }
                i = i + 1;
            }
            Ok(cur)
        },
        Some(_) => Err(FilterError { name: String::new(), reason: FilterReason::BadFilterEntry }),
    }
}

/// A stream: its dictionary and its bytes, which are the raw bytes until
/// the filters have run and the content after that.
#[derive(Debug, PartialEq, Eq)]
pub struct Stream {
    pub dict: Dict,
    pub data: Vec<u8>,
    /// Whether `data` holds the content, the filters having run.
    pub decoded: bool,
}

impl Stream {
    /// A stream of raw bytes without filters.
    pub fn new(data: Vec<u8>) -> (s: Self)
        ensures
            s.data == data,
            s.dict@ == DictModel::empty(),
            !s.decoded,
    {
        Stream { dict: Dict::new(), data, decoded: false }
    }

    /// A stream of raw bytes with its dictionary.
    pub fn with_dict(dict: Dict, data: Vec<u8>) -> (s: Self)
        ensures
            s.data == data,
            s.dict == dict,
            !s.decoded,
    {
        Stream { dict, data, decoded: false }
    }

    /// Runs the filters of the stream, once: the content takes the place of
    /// the raw bytes. On an error the raw bytes stay.
    pub fn decode(&mut self) -> (r: Result<(), FilterError>)
        ensures
            final(self).dict == old(self).dict,
            old(self).decoded ==> r is Ok && *final(self) == *old(self),
            !old(self).decoded ==> match stream_content(old(self).dict@, old(self).data@) {
                Ok(bytes) => r is Ok && final(self).data@ == bytes && final(self).decoded,
                Err(e) => r matches Err(x) && x@ == e && final(self).data == old(self).data
                    && !final(self).decoded,
            },
    {
        if self.decoded {
            return Ok(());
        }
        match run_filters(&self.dict, self.data.as_slice()) {
            Ok(bytes) => {
                self.data = bytes;
                self.decoded = true;
                Ok(())
            },
            Err(e) => Err(e),
        }
    }
}

/// Reads exactly `size` raw bytes as the body of a stream. Where fewer are
/// left, the cursor stays and the error names the end of input.
pub fn read_stream(c: &mut Cursor, size: usize) -> (r: Result<Stream, LexError>)
    ensures
        final(c).data == old(c).data,
        match r {
            Ok(s) => old(c).pos + size <= old(c).data@.len() && s.data@ == old(c).data@.subrange(
                old(c).pos as int,
                old(c).pos + size,
            ) && s.dict@ == DictModel::empty() && !s.decoded && final(c).pos == old(c).pos
                + size,
            Err(e) => old(c).pos + size > old(c).data@.len() && e == (LexError {
                offset: old(c).pos,
                reason: LexReason::UnexpectedEof,
            }) && final(c).pos == old(c).pos,
        },
{
    let at = c.pos;
    match read_raw(c, size) {
        Some(bytes) => Ok(Stream::new(bytes)),
        None => Err(LexError { offset: at, reason: LexReason::UnexpectedEof }),
    }
}

} // verus!
