//! Indirect objects: how one is read from the place that the
//! cross-reference table gives.

use vstd::prelude::*;
use crate::cursor::{byte_at, Cursor};
use crate::error::{Context, LexError, StructuralError, StructuralReason};
use crate::filter::{FilterError, FilterErrorModel};
use crate::lexer::{lex, read_raw, read_token};
use crate::parser::{dictionary, parse_dictionary};
use crate::stream::{stream_content, Stream};
use crate::token::{Token, TokenModel};
use crate::value::{dict_get, Dict, DictModel, Value, ValueModel};
use crate::xref::XrefEntry;

verus! {

/// What went wrong while one object was read. The object is kept with what
/// could be read of it.
#[derive(Debug, PartialEq, Eq)]
pub enum ObjectFailure {
    /// The bytes of the object are not what an object is made of.
    Syntax(StructuralError),
    /// A filter of its stream failed; the stream holds the raw bytes.
    Filter(FilterError),
}

/// A failure with its filter error as a view.
pub enum FailureModel {
    Syntax(StructuralError),
    Filter(FilterErrorModel),
}

impl View for ObjectFailure {
    type V = FailureModel;

    open spec fn view(&self) -> FailureModel {
        match self {
            ObjectFailure::Syntax(e) => FailureModel::Syntax(*e),
            ObjectFailure::Filter(e) => FailureModel::Filter(e@),
        }
    }
}

/// What an object holds.
#[derive(Debug, PartialEq, Eq)]
pub enum Content {
    /// Nothing could be read.
    Missing,
    /// A dictionary without a stream.
    Dictionary(Dict),
    /// A stream, with its dictionary in it.
    Stream(Stream),
}

/// What an object holds, by views.
pub enum ContentModel {
    Missing,
    Dictionary(DictModel),
    Stream { dict: DictModel, data: Seq<u8>, decoded: bool },
}

impl View for Content {
    type V = ContentModel;

    open spec fn view(&self) -> ContentModel {
        match self {
            Content::Missing => ContentModel::Missing,
            Content::Dictionary(d) => ContentModel::Dictionary(d@),
            Content::Stream(s) => ContentModel::Stream {
                dict: s.dict@,
                data: s.data@,
                decoded: s.decoded,
            },
        }
    }
}

/// An indirect object as it was read.
#[derive(Debug, PartialEq, Eq)]
pub struct Obj {
    pub id: u64,
    /// The generation that the cross-reference table gives.
    pub genid: u32,
    /// Where the table says the object stands.
    pub offset: u64,
    pub content: Content,
    /// Whether the id and generation written at the object differ from
    /// those of the table.
    pub mismatch: bool,
    /// Whether `endstream` and `endobj` follow the bytes of its stream.
    pub framed: bool,
    pub failure: Option<ObjectFailure>,
}

/// An object by views.
pub struct ObjModel {
    pub id: u64,
    pub genid: u32,
    pub offset: u64,
    pub content: ContentModel,
    pub mismatch: bool,
    pub framed: bool,
    pub failure: Option<FailureModel>,
}

impl View for Obj {
    type V = ObjModel;

    open spec fn view(&self) -> ObjModel {
        ObjModel {
            id: self.id,
            genid: self.genid,
            offset: self.offset,
            content: self.content@,
            mismatch: self.mismatch,
            framed: self.framed,
            failure: match self.failure {
                Some(f) => Some(f@),
                None => None,
            },
        }
    }
}

impl ContentModel {
    /// The dictionary of the object, which for a stream is that of the
    /// stream.
    pub open spec fn dict(self) -> Option<DictModel> {
        match self {
            ContentModel::Missing => None,
            ContentModel::Dictionary(d) => Some(d),
            ContentModel::Stream { dict, .. } => Some(dict),
        }
    }
}

impl Obj {
    /// An object of which nothing has been read.
    pub fn new(id: u64, offset: u64, genid: u32) -> (o: Obj)
        ensures
            o@ == (ObjModel {
                id,
                genid,
                offset,
                content: ContentModel::Missing,
                mismatch: false,
                framed: true,
                failure: None,
            }),
    {
        Obj {
            id,
            genid,
            offset,
            content: Content::Missing,
            mismatch: false,
            framed: true,
            failure: None,
        }
    }

    /// The entry of the cross-reference table from which the object was
    /// read.
    pub fn entry(&self) -> (e: XrefEntry)
        ensures
            e == (XrefEntry::InUse { offset: self@.offset, generation: self@.genid }),
    {
        XrefEntry::InUse { offset: self.offset, generation: self.genid }
    }

    /// Whether the object was read without a failure.
    pub fn fill(&self) -> (r: bool)
        ensures
            r == (self@.failure is None && !(self@.content is Missing)),
    {
        let has_content = match &self.content {
            Content::Missing => false,
            _ => true,
        };
        self.failure.is_none() && has_content
    }

    /// The dictionary of the object.
    pub fn dict(&self) -> (r: Option<&Dict>)
        ensures
            match r {
                Some(d) => self@.content.dict() == Some(d@),
                None => self@.content.dict() is None,
            },
    {
        match &self.content {
            Content::Missing => None,
            Content::Dictionary(d) => Some(d),
            Content::Stream(s) => Some(&s.dict),
        }
    }

    /// The stream of the object.
    pub fn stream(&self) -> (r: Option<&Stream>)
        ensures
            match r {
                Some(s) => self@.content == (ContentModel::Stream {
                    dict: s.dict@,
                    data: s.data@,
                    decoded: s.decoded,
                }),
                None => !(self@.content is Stream),
            },
    {
        match &self.content {
            Content::Stream(s) => Some(s),
            _ => None,
        }
    }

    /// The value under `key` in the dictionary of the object.
    pub fn get(&self, key: &str) -> (r: Option<&Value>)
        ensures
            match r {
                Some(v) => self@.content.dict() matches Some(d) && dict_get(d, key@) == Some(v@),
                None => self@.content.dict() matches Some(d) ==> dict_get(d, key@) is None,
            },
    {
        match self.dict() {
            Some(d) => d.get(key),
            None => None,
        }
    }
}

/// Where the bytes of a stream start, given the position after the keyword
/// `stream`: after the end of line that follows it, which is a carriage
/// return and a line feed, or one of the two.
pub open spec fn stream_data_start(s: Seq<u8>, p: int) -> int {
    if byte_at(s, p) == Some(13u8) && byte_at(s, p + 1) == Some(10u8) {
        p + 2
    } else if byte_at(s, p) == Some(10u8) || byte_at(s, p) == Some(13u8) {
        p + 1
    } else {
        p
    }
}

/// The number of bytes that the dictionary of a stream gives under
/// `Length`, if it is an integer that is not negative.
pub open spec fn stream_length(dict: DictModel) -> Option<int> {
    match dict_get(dict, "Length"@) {
        Some(ValueModel::Integer(n)) => if n >= 0 {
            Some(n as int)
        } else {
            None
        },
        _ => None,
    }
}

/// The object `id` with `content`, on which reading failed at `at` for
/// `reason`.
pub open spec fn broken(
    id: u64,
    offset: u64,
    genid: u32,
    mismatch: bool,
    content: ContentModel,
    at: int,
    reason: StructuralReason,
) -> ObjModel {
    ObjModel {
        id,
        genid,
        offset,
        content,
        mismatch,
        framed: true,
        failure: Some(
            FailureModel::Syntax(
                StructuralError { context: Context::Object, offset: at as usize, reason },
            ),
        ),
    }
}

/// The object whose dictionary `dict` was read and whose keyword `stream`
/// ends at `pos`: as many raw bytes as `Length` says, and what the filters
/// make of them. Where a filter fails the raw bytes stay and the failure
/// is recorded.
pub open spec fn stream_object(
    s: Seq<u8>,
    id: u64,
    offset: u64,
    genid: u32,
    mismatch: bool,
    dict: DictModel,
    pos: int,
) -> ObjModel {
    let start = stream_data_start(s, pos);
    match stream_length(dict) {
        None => broken(
            id,
            offset,
            genid,
            mismatch,
            ContentModel::Dictionary(dict),
            pos,
            StructuralReason::BadStreamLength,
        ),
        Some(n) => if start + n > s.len() {
            broken(
                id,
                offset,
                genid,
                mismatch,
                ContentModel::Dictionary(dict),
                start,
                StructuralReason::TruncatedStream,
            )
        } else {
            let raw = s.subrange(start, start + n);
            let end1 = lex(s, start + n);
            let end2 = lex(s, end1.next);
            let framed = end1.result == Ok::<TokenModel, LexError>(TokenModel::StreamEnd)
                && end2.result == Ok::<TokenModel, LexError>(TokenModel::ObjEnd);
            match stream_content(dict, raw) {
                Ok(bytes) => ObjModel {
                    id,
                    genid,
                    offset,
                    content: ContentModel::Stream { dict, data: bytes, decoded: true },
                    mismatch,
                    framed,
                    failure: None,
                },
                Err(e) => ObjModel {
                    id,
                    genid,
                    offset,
                    content: ContentModel::Stream { dict, data: raw, decoded: false },
                    mismatch,
                    framed,
                    failure: Some(FailureModel::Filter(e)),
                },
            }
        },
    }
}

/// The object whose header ends at `pos`: its dictionary, and then
/// `endobj` or a stream.
pub open spec fn object_body(
    s: Seq<u8>,
    id: u64,
    offset: u64,
    genid: u32,
    mismatch: bool,
    pos: int,
) -> ObjModel {
    let d = dictionary(s, pos);
    let after = lex(s, d.next);
    match d.result {
        Err(e) => ObjModel {
            id,
            genid,
            offset,
            content: ContentModel::Missing,
            mismatch,
            framed: true,
            failure: Some(FailureModel::Syntax(e)),
        },
        Ok(dict) => match after.result {
            Ok(TokenModel::ObjEnd) => ObjModel {
                id,
                genid,
                offset,
                content: ContentModel::Dictionary(dict),
                mismatch,
                framed: true,
                failure: None,
            },
            Ok(TokenModel::StreamBegin) => stream_object(
                s,
                id,
                offset,
                genid,
                mismatch,
                dict,
                after.next,
            ),
            _ => broken(
                id,
                offset,
                genid,
                mismatch,
                ContentModel::Dictionary(dict),
                d.next,
                StructuralReason::ExpectedEndOfObject,
            ),
        },
    }
}

/// The object `id` as it stands at `offset` in `s`: two integers and
/// `obj`, then the body. The integers should be `id` and `genid`; where
/// they are not, the object is read all the same and marked.
#[verifier::opaque]
pub open spec fn object_at(s: Seq<u8>, id: u64, offset: u64, genid: u32) -> ObjModel {
    let l1 = lex(s, offset as int);
    let l2 = lex(s, l1.next);
    let l3 = lex(s, l2.next);
    match (l1.result, l2.result, l3.result) {
        (
            Ok(TokenModel::Integer(a)),
            Ok(TokenModel::Integer(b)),
            Ok(TokenModel::ObjBegin),
        ) => object_body(s, id, offset, genid, a != id || b != genid, l3.next),
        _ => broken(
            id,
            offset,
            genid,
            false,
            ContentModel::Missing,
            offset as int,
            StructuralReason::ExpectedObjectHeader,
        ),
    }
}

/// The failure of an object on which reading failed at `at` for `reason`.
fn syntax_failure(at: usize, reason: StructuralReason) -> (f: Option<ObjectFailure>)
    ensures
        f matches Some(x) && x@ == FailureModel::Syntax(
            StructuralError { context: Context::Object, offset: at, reason },
        ),
{
    Some(ObjectFailure::Syntax(StructuralError { context: Context::Object, offset: at, reason }))
}

/// Reads the stream of an object whose dictionary `dict` was read, with
/// the cursor after the keyword `stream`.
fn read_stream_object(
    c: &mut Cursor,
    id: u64,
    offset: u64,
    genid: u32,
    mismatch: bool,
    dict: Dict,
) -> (o: Obj)
    requires
        old(c).pos <= old(c).data@.len(),
    ensures
        o@ == stream_object(old(c).data@, id, offset, genid, mismatch, dict@, old(c).pos as int),
{
    let pos = c.pos;
    let len = c.data.len();
    let first = c.peek_byte();
    let start: usize = match first {
        Some(b) => {
            if b == 13 {
                if pos + 1 < len && c.data[pos + 1] == 10 {
                    pos + 2
                } else {
                    pos + 1
                }
            } else if b == 10 {
                pos + 1
            } else {
                pos
            }
        },
        None => pos,
    };
    let length = match dict.get("Length") {
        Some(v) => match v.as_integer() {
            Ok(n) => if n >= 0 {
                Some(n as u64)
            } else {
                None
            },
            Err(_) => None,
        },
        None => None,
    };
    let n = match length {
        Some(n) => n,
        None => {
            return Obj {
                id,
                genid,
                offset,
                content: Content::Dictionary(dict),
                mismatch,
                framed: true,
                failure: syntax_failure(pos, StructuralReason::BadStreamLength),
            };
        },
    };
    if n > (len - start) as u64 {
        return Obj {
            id,
            genid,
            offset,
            content: Content::Dictionary(dict),
            mismatch,
            framed: true,
            failure: syntax_failure(start, StructuralReason::TruncatedStream),
        };
    }
    c.pos = start;
    let raw = match read_raw(c, n as usize) {
        Some(raw) => raw,
        None => Vec::new(),
    };
    let framed = match read_token(c) {
        Ok(Token::StreamEnd) => match read_token(c) {
            Ok(Token::ObjEnd) => true,
            _ => false,
        },
        _ => false,
    };
    let mut stream = Stream::with_dict(dict, raw);
    let failure = match stream.decode() {
        Ok(()) => None,
        Err(e) => Some(ObjectFailure::Filter(e)),
    };
    Obj { id, genid, offset, content: Content::Stream(stream), mismatch, framed, failure }
}

/// Reads the object `id` that the table places at `offset` with the
/// generation `genid`. Whatever the bytes hold, an object comes back: with
/// what could be read of it, and with the failure if there was one.
pub fn read_object(data: &[u8], id: u64, offset: u64, genid: u32) -> (o: Obj)
    ensures
        o@ == object_at(data@, id, offset, genid),
{
    reveal(object_at);
    let len = data.len();
    if offset > len as u64 {
        proof {
            crate::lexer::lemma_token_start(data@, offset as int);
        }
        return Obj {
            id,
            genid,
            offset,
            content: Content::Missing,
            mismatch: false,
            framed: true,
            failure: syntax_failure(offset as usize, StructuralReason::ExpectedObjectHeader),
        };
    }
    let mut c = Cursor::at(data, offset as usize);
    proof {
        crate::lexer::lemma_lex_next(data@, offset as int);
        crate::lexer::lemma_lex_next(data@, lex(data@, offset as int).next);
        crate::lexer::lemma_lex_next(data@, lex(data@, lex(data@, offset as int).next).next);
    }
    let t1 = read_token(&mut c);
    let t2 = read_token(&mut c);
    let t3 = read_token(&mut c);
    let mismatch = match (t1, t2, t3) {
        (Ok(Token::Integer(a)), Ok(Token::Integer(b)), Ok(Token::ObjBegin)) => {
            a < 0 || a as u64 != id || b < 0 || b as u64 != genid as u64
        },
        _ => {
            return Obj {
                id,
                genid,
                offset,
                content: Content::Missing,
                mismatch: false,
                framed: true,
                failure: syntax_failure(offset as usize, StructuralReason::ExpectedObjectHeader),
            };
        },
    };
    let dict = match parse_dictionary(&mut c) {
        Ok(dict) => dict,
        Err(e) => {
            return Obj {
                id,
                genid,
                offset,
                content: Content::Missing,
                mismatch,
                framed: true,
                failure: Some(ObjectFailure::Syntax(e)),
            };
        },
    };
    let at = c.pos;
    proof {
        crate::lexer::lemma_lex_next(data@, at as int);
    }
    match read_token(&mut c) {
        Ok(Token::ObjEnd) => Obj {
            id,
            genid,
            offset,
            content: Content::Dictionary(dict),
            mismatch,
            framed: true,
            failure: None,
        },
        Ok(Token::StreamBegin) => read_stream_object(&mut c, id, offset, genid, mismatch, dict),
        _ => Obj {
            id,
            genid,
            offset,
            content: Content::Dictionary(dict),
            mismatch,
            framed: true,
            failure: syntax_failure(at, StructuralReason::ExpectedEndOfObject),
        },
    }
}

/// An object that was read has the id, the generation and the offset that
/// it was asked for with.
pub proof fn lemma_object_identity(s: Seq<u8>, id: u64, offset: u64, genid: u32)
    ensures
        object_at(s, id, offset, genid).id == id,
        object_at(s, id, offset, genid).genid == genid,
        object_at(s, id, offset, genid).offset == offset,
{
    reveal(object_at);
}

} // verus!
