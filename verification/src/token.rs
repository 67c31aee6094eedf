//! Tokens, as the lexer hands them to the parser.

use vstd::prelude::*;

verus! {

/// A decimal number with a fraction: `mantissa / 10^scale`, where `scale` is
/// the number of digits that followed the dot.
#[derive(Debug, Clone, Copy, PartialEq, Eq, Structural)]
pub struct Real {
    pub mantissa: i64,
    pub scale: usize,
}

/// One token of the PDF syntax.
#[derive(Debug, PartialEq, Eq)]
pub enum Token {
    ObjBegin,
    ObjEnd,
    ArrayBegin,
    ArrayEnd,
    DictBegin,
    DictEnd,
    StreamBegin,
    StreamEnd,
    /// The keyword `R` that closes an indirect reference.
    IndirectRefMarker,
    Bool(bool),
    Null,
    Integer(i64),
    Real(Real),
    Name(String),
    /// The decoded bytes of a literal or hexadecimal string.
    LiteralString(Vec<u8>),
}

/// What a token is, with its text and bytes as sequences.
pub enum TokenModel {
    ObjBegin,
    ObjEnd,
    ArrayBegin,
    ArrayEnd,
    DictBegin,
    DictEnd,
    StreamBegin,
    StreamEnd,
    IndirectRefMarker,
    Bool(bool),
    Null,
    Integer(i64),
    Real(Real),
    Name(Seq<char>),
    LiteralString(Seq<u8>),
}

impl View for Token {
    type V = TokenModel;

    open spec fn view(&self) -> TokenModel {
        match self {
            Token::ObjBegin => TokenModel::ObjBegin,
            Token::ObjEnd => TokenModel::ObjEnd,
            Token::ArrayBegin => TokenModel::ArrayBegin,
            Token::ArrayEnd => TokenModel::ArrayEnd,
            Token::DictBegin => TokenModel::DictBegin,
            Token::DictEnd => TokenModel::DictEnd,
            Token::StreamBegin => TokenModel::StreamBegin,
            Token::StreamEnd => TokenModel::StreamEnd,
            Token::IndirectRefMarker => TokenModel::IndirectRefMarker,
            Token::Bool(b) => TokenModel::Bool(*b),
            Token::Null => TokenModel::Null,
            Token::Integer(n) => TokenModel::Integer(*n),
            Token::Real(r) => TokenModel::Real(*r),
            Token::Name(s) => TokenModel::Name(s@),
            Token::LiteralString(v) => TokenModel::LiteralString(v@),
        }
    }
}

} // verus!
