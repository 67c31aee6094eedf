//! The value parser: from tokens to dictionaries, arrays and references.

use vstd::prelude::*;
use crate::cursor::Cursor;
use crate::error::{Context, LexError, LexReason, StructuralError, StructuralReason};
use crate::lexer::{lemma_lex_next, lex, read_token};
use crate::token::{Token, TokenModel};
use crate::value::{dict_insert, values_view, Dict, DictModel, Value, ValueModel};

verus! {

/// What was parsed, or the error, and the position after it.
pub struct Parsed<T> {
    pub result: Result<T, StructuralError>,
    pub next: int,
}

/// Whether a step from `pos` to `next` moves forward and stays in the input.
pub open spec fn advances(s: Seq<u8>, pos: int, next: int) -> bool {
    0 <= pos < next <= s.len()
}

/// A parse that failed at `offset` for `reason` and stopped at `next`.
pub open spec fn failed<T>(
    context: Context,
    offset: int,
    reason: StructuralReason,
    next: int,
) -> Parsed<T> {
    Parsed { result: Err(StructuralError { context, offset: offset as usize, reason }), next }
}

/// A parse that failed because the lexer found no token.
pub open spec fn lex_failed<T>(context: Context, e: LexError, next: int) -> Parsed<T> {
    Parsed {
        result: Err(
            StructuralError { context, offset: e.offset, reason: StructuralReason::Lex(e.reason) },
        ),
        next,
    }
}

/// A parse that found the input ended at `pos`. A step of the lexer that
/// gives a token always moves forward, so the branches that hold this for a
/// step that does not are never taken.
pub open spec fn ended<T>(context: Context, pos: int) -> Parsed<T> {
    failed(context, pos, StructuralReason::Lex(LexReason::UnexpectedEof), pos)
}

/// The value of a token that is a value by itself.
pub open spec fn scalar_value(t: TokenModel) -> Option<ValueModel> {
    match t {
        TokenModel::Bool(b) => Some(ValueModel::Bool(b)),
        TokenModel::Null => Some(ValueModel::Null),
        TokenModel::Integer(n) => Some(ValueModel::Integer(n)),
        TokenModel::Real(r) => Some(ValueModel::Real(r)),
        TokenModel::Name(n) => Some(ValueModel::Name(n)),
        TokenModel::LiteralString(b) => Some(ValueModel::String(b)),
        _ => None,
    }
}

/// The value that starts with the integer `n`, read up to `pos`: a
/// reference where a second integer and `R` follow, which are then read
/// too; else the integer alone.
pub open spec fn integer_or_reference(s: Seq<u8>, n: i64, pos: int) -> Parsed<ValueModel> {
    let second = lex(s, pos);
    let third = lex(s, second.next);
    match second.result {
        Ok(TokenModel::Integer(g)) => if third.result == Ok::<TokenModel, LexError>(
            TokenModel::IndirectRefMarker,
        ) {
            Parsed { result: Ok(ValueModel::Reference { id: n, generation: g }), next: third.next }
        } else {
            Parsed { result: Ok(ValueModel::Integer(n)), next: pos }
        },
        _ => Parsed { result: Ok(ValueModel::Integer(n)), next: pos },
    }
}

/// The value in a dictionary whose first token `t` was read from `at` up to
/// `pos`.
pub open spec fn dict_value(s: Seq<u8>, t: TokenModel, at: int, pos: int) -> Parsed<ValueModel>
    decreases s.len() - pos, 1int,
{
    match t {
        TokenModel::Integer(n) => integer_or_reference(s, n, pos),
        TokenModel::ArrayBegin => {
            let inner = array_items(s, pos, Seq::empty());
            match inner.result {
                Ok(items) => Parsed { result: Ok(ValueModel::Array(items)), next: inner.next },
                Err(e) => Parsed { result: Err(e), next: inner.next },
            }
        },
        TokenModel::DictBegin => {
            let inner = dict_entries(s, pos, Seq::empty());
            match inner.result {
                Ok(entries) => Parsed { result: Ok(ValueModel::Dict(entries)), next: inner.next },
                Err(e) => Parsed { result: Err(e), next: inner.next },
            }
        },
        _ => match scalar_value(t) {
            Some(v) => Parsed { result: Ok(v), next: pos },
            None => failed(Context::Dictionary, at, StructuralReason::UnexpectedToken, pos),
        },
    }
}

/// The entries of a dictionary from `pos` on, after those in `acc`: keys,
/// each with its value, up to `>>`. A key that comes again replaces the
/// value it had.
pub open spec fn dict_entries(s: Seq<u8>, pos: int, acc: DictModel) -> Parsed<DictModel>
    decreases s.len() - pos, 0int,
{
    let key = lex(s, pos);
    match key.result {
        Err(e) => lex_failed(Context::Dictionary, e, key.next),
        Ok(TokenModel::DictEnd) => Parsed { result: Ok(acc), next: key.next },
        Ok(TokenModel::Name(name)) => {
            let first = lex(s, key.next);
            match first.result {
                Err(e) => lex_failed(Context::Dictionary, e, first.next),
                Ok(t) => if !advances(s, pos, first.next) {
                    ended(Context::Dictionary, pos)
                } else {
                    let value = dict_value(s, t, key.next, first.next);
                    match value.result {
                        Err(e) => Parsed { result: Err(e), next: value.next },
                        Ok(v) => if !advances(s, pos, value.next) {
                            ended(Context::Dictionary, pos)
                        } else {
                            dict_entries(s, value.next, dict_insert(acc, name, v))
                        },
                    }
                },
            }
        },
        Ok(_) => failed(Context::Dictionary, pos, StructuralReason::ExpectedName, key.next),
    }
}

/// `acc` with its last two values, if they are integers, made into one
/// reference; `None` where they are not.
pub open spec fn fold_reference(acc: Seq<ValueModel>) -> Option<Seq<ValueModel>> {
    if acc.len() >= 2 && acc[acc.len() - 2] is Integer && acc[acc.len() - 1] is Integer {
        Some(
            acc.subrange(0, acc.len() - 2).push(
                ValueModel::Reference {
                    id: acc[acc.len() - 2]->Integer_0,
                    generation: acc[acc.len() - 1]->Integer_0,
                },
            ),
        )
    } else {
        None
    }
}

/// The values of an array from `pos` on, after those in `acc`, up to `]`.
/// An `R` makes the two integers before it into a reference.
pub open spec fn array_items(s: Seq<u8>, pos: int, acc: Seq<ValueModel>) -> Parsed<
    Seq<ValueModel>,
>
    decreases s.len() - pos, 0int,
{
    let l = lex(s, pos);
    match l.result {
        Err(e) => lex_failed(Context::Array, e, l.next),
        Ok(t) => if !advances(s, pos, l.next) {
            ended(Context::Array, pos)
        } else {
            match t {
                TokenModel::ArrayEnd => Parsed { result: Ok(acc), next: l.next },
                TokenModel::IndirectRefMarker => match fold_reference(acc) {
                    Some(folded) => array_items(s, l.next, folded),
                    None => failed(
                        Context::Array,
                        pos,
                        StructuralReason::DanglingReference,
                        l.next,
                    ),
                },
                TokenModel::ArrayBegin => {
                    let inner = array_items(s, l.next, Seq::empty());
                    match inner.result {
                        Err(e) => Parsed { result: Err(e), next: inner.next },
                        Ok(items) => if !advances(s, pos, inner.next) {
                            ended(Context::Array, pos)
                        } else {
                            array_items(s, inner.next, acc.push(ValueModel::Array(items)))
                        },
                    }
                },
                TokenModel::DictBegin => {
                    let inner = dict_entries(s, l.next, Seq::empty());
                    match inner.result {
                        Err(e) => Parsed { result: Err(e), next: inner.next },
                        Ok(entries) => if !advances(s, pos, inner.next) {
                            ended(Context::Array, pos)
                        } else {
                            array_items(s, inner.next, acc.push(ValueModel::Dict(entries)))
                        },
                    }
                },
                _ => match scalar_value(t) {
                    Some(v) => array_items(s, l.next, acc.push(v)),
                    None => failed(Context::Array, pos, StructuralReason::UnexpectedToken, l.next),
                },
            }
        },
    }
}

/// The dictionary at `pos`, whose `<<` may stand there or have been read.
pub open spec fn dictionary(s: Seq<u8>, pos: int) -> Parsed<DictModel> {
    let l = lex(s, pos);
    if l.result == Ok::<TokenModel, LexError>(TokenModel::DictBegin) {
        dict_entries(s, l.next, Seq::empty())
    } else {
        dict_entries(s, pos, Seq::empty())
    }
}

/// The array at `pos`, which starts with `[`.
pub open spec fn array(s: Seq<u8>, pos: int) -> Parsed<Seq<ValueModel>> {
    let l = lex(s, pos);
    match l.result {
        Err(e) => lex_failed(Context::Array, e, l.next),
        Ok(TokenModel::ArrayBegin) => array_items(s, l.next, Seq::empty()),
        Ok(_) => failed(Context::Array, pos, StructuralReason::ExpectedArray, l.next),
    }
}

/// A parsed value, or the error, with the value taken by its view.
pub open spec fn value_view(r: Result<Value, StructuralError>) -> Result<
    ValueModel,
    StructuralError,
> {
    match r {
        Ok(v) => Ok(v@),
        Err(e) => Err(e),
    }
}

/// A parsed dictionary, or the error, with the dictionary taken by its view.
pub open spec fn dict_view(r: Result<Dict, StructuralError>) -> Result<DictModel, StructuralError> {
    match r {
        Ok(d) => Ok(d@),
        Err(e) => Err(e),
    }
}

/// Parsed values, or the error, with the values taken by their views.
pub open spec fn array_view(r: Result<Vec<Value>, StructuralError>) -> Result<
    Seq<ValueModel>,
    StructuralError,
> {
    match r {
        Ok(v) => Ok(values_view(v)),
        Err(e) => Err(e),
    }
}

/// The error of a parse in `context` on which the lexer failed with `e`.
fn lex_error(context: Context, e: LexError) -> (r: StructuralError)
    ensures
        r == (StructuralError {
            context,
            offset: e.offset,
            reason: StructuralReason::Lex(e.reason),
        }),
{
    StructuralError { context, offset: e.offset, reason: StructuralReason::Lex(e.reason) }
}

/// Reads on after the integer `n`: a second integer and `R` make a
/// reference; anything else leaves the cursor where it is.
fn parse_integer_or_reference(c: &mut Cursor, n: i64) -> (v: Value)
    ensures
        final(c).data == old(c).data,
        final(c).pos == integer_or_reference(old(c).data@, n, old(c).pos as int).next,
        Ok::<ValueModel, StructuralError>(v@) == integer_or_reference(
            old(c).data@,
            n,
            old(c).pos as int,
        ).result,
        old(c).pos <= final(c).pos,
        old(c).pos <= old(c).data@.len() ==> final(c).pos <= old(c).data@.len(),
{
    let save = c.pos;
    proof {
        lemma_lex_next(c.data@, save as int);
        lemma_lex_next(c.data@, lex(c.data@, save as int).next);
    }
    match read_token(c) {
        Ok(Token::Integer(g)) => {
            match read_token(c) {
                Ok(Token::IndirectRefMarker) => {
                    return Value::Reference { id: n, generation: g };
                },
                _ => {},
            }
        },
        _ => {},
    }
    c.pos = save;
    Value::Integer(n)
}

/// Parses the value in a dictionary whose first token `t` was read from
/// `at`.
pub fn parse_dictionary_value(c: &mut Cursor, t: Token, at: usize) -> (r: Result<
    Value,
    StructuralError,
>)
    ensures
        final(c).data == old(c).data,
        final(c).pos == dict_value(old(c).data@, t@, at as int, old(c).pos as int).next,
        value_view(r) == dict_value(old(c).data@, t@, at as int, old(c).pos as int).result,
        old(c).pos <= final(c).pos,
        old(c).pos <= old(c).data@.len() ==> final(c).pos <= old(c).data@.len(),
    decreases old(c).data@.len() - old(c).pos, 1int,
{
    match t {
        Token::Integer(n) => Ok(parse_integer_or_reference(c, n)),
        Token::ArrayBegin => match parse_array_items(c) {
            Ok(items) => Ok(Value::Array(items)),
            Err(e) => Err(e),
        },
        Token::DictBegin => match parse_dictionary_entries(c) {
            Ok(d) => Ok(Value::Dict(d)),
            Err(e) => Err(e),
        },
        Token::Bool(b) => Ok(Value::Bool(b)),
        Token::Null => Ok(Value::Null),
        Token::Real(x) => Ok(Value::Real(x)),
        Token::Name(name) => Ok(Value::Name(name)),
        Token::LiteralString(bytes) => Ok(Value::String(bytes)),
        _ => Err(
            StructuralError {
                context: Context::Dictionary,
                offset: at,
                reason: StructuralReason::UnexpectedToken,
            },
        ),
    }
}

/// Parses the entries of a dictionary whose `<<` has been read, up to its
/// `>>`.
pub fn parse_dictionary_entries(c: &mut Cursor) -> (r: Result<Dict, StructuralError>)
    ensures
        final(c).data == old(c).data,
        final(c).pos == dict_entries(old(c).data@, old(c).pos as int, Seq::empty()).next,
        dict_view(r) == dict_entries(old(c).data@, old(c).pos as int, Seq::empty()).result,
        old(c).pos <= final(c).pos,
        old(c).pos <= old(c).data@.len() ==> final(c).pos <= old(c).data@.len(),
    decreases old(c).data@.len() - old(c).pos, 0int,
{
    let mut dict = Dict::new();
    loop
        invariant
            c.data == old(c).data,
            old(c).pos <= c.pos,
            old(c).pos <= old(c).data@.len() ==> c.pos <= old(c).data@.len(),
            dict_entries(c.data@, c.pos as int, dict@) == dict_entries(
                old(c).data@,
                old(c).pos as int,
                Seq::empty(),
            ),
        decreases c.data@.len() - c.pos,
    {
        let at = c.pos;
        proof {
            lemma_lex_next(c.data@, at as int);
        }
        match read_token(c) {
            Err(e) => {
                return Err(lex_error(Context::Dictionary, e));
            },
            Ok(Token::DictEnd) => {
                return Ok(dict);
            },
            Ok(Token::Name(key)) => {
                let at_value = c.pos;
                proof {
                    lemma_lex_next(c.data@, at_value as int);
                }
                match read_token(c) {
                    Err(e) => {
                        return Err(lex_error(Context::Dictionary, e));
                    },
                    Ok(t) => {
                        match parse_dictionary_value(c, t, at_value) {
                            Err(e) => {
                                return Err(e);
                            },
                            Ok(v) => {
                                dict.push(key, v);
                            },
                        }
                    },
                }
            },
            Ok(_) => {
                return Err(
                    StructuralError {
                        context: Context::Dictionary,
                        offset: at,
                        reason: StructuralReason::ExpectedName,
                    },
                );
            },
        }
    }
}

/// Makes the last two values of `acc` into one reference where both are
/// integers, and says whether it did.
fn fold_last_two(acc: &mut Vec<Value>) -> (done: bool)
    ensures
        done == fold_reference(values_view(*old(acc))) is Some,
        done ==> values_view(*final(acc)) == fold_reference(values_view(*old(acc)))->0,
        !done ==> *final(acc) == *old(acc),
{
    let len = acc.len();
    if len < 2 {
        return false;
    }
    let ghost before = values_view(*acc);
    let id = match &acc[len - 2] {
        Value::Integer(n) => *n,
        _ => {
            return false;
        },
    };
    let generation = match &acc[len - 1] {
        Value::Integer(n) => *n,
        _ => {
            return false;
        },
    };
    acc.pop();
    acc.pop();
    acc.push(Value::Reference { id, generation });
    proof {
        assert(values_view(*acc) =~= before.subrange(0, len - 2).push(
            ValueModel::Reference { id, generation },
        ));
    }
    true
}

/// Parses the values of an array whose `[` has been read, up to its `]`.
pub fn parse_array_items(c: &mut Cursor) -> (r: Result<Vec<Value>, StructuralError>)
    ensures
        final(c).data == old(c).data,
        final(c).pos == array_items(old(c).data@, old(c).pos as int, Seq::empty()).next,
        array_view(r) == array_items(old(c).data@, old(c).pos as int, Seq::empty()).result,
        old(c).pos <= final(c).pos,
        old(c).pos <= old(c).data@.len() ==> final(c).pos <= old(c).data@.len(),
    decreases old(c).data@.len() - old(c).pos, 0int,
{
    let mut acc: Vec<Value> = Vec::new();
    assert(values_view(acc) =~= Seq::<ValueModel>::empty());
    loop
        invariant
            c.data == old(c).data,
            old(c).pos <= c.pos,
            old(c).pos <= old(c).data@.len() ==> c.pos <= old(c).data@.len(),
            array_items(c.data@, c.pos as int, values_view(acc)) == array_items(
                old(c).data@,
                old(c).pos as int,
                Seq::empty(),
            ),
        decreases c.data@.len() - c.pos,
    {
        let at = c.pos;
        let ghost before = values_view(acc);
        proof {
            lemma_lex_next(c.data@, at as int);
        }
        match read_token(c) {
            Err(e) => {
                return Err(lex_error(Context::Array, e));
            },
            Ok(t) => {
                match t {
                    Token::ArrayEnd => {
                        return Ok(acc);
                    },
                    Token::IndirectRefMarker => {
                        if !fold_last_two(&mut acc) {
                            return Err(
                                StructuralError {
                                    context: Context::Array,
                                    offset: at,
                                    reason: StructuralReason::DanglingReference,
                                },
                            );
                        }
                    },
                    Token::ArrayBegin => {
                        match parse_array_items(c) {
                            Err(e) => {
                                return Err(e);
                            },
                            Ok(items) => {
                                acc.push(Value::Array(items));
                                assert(values_view(acc) =~= before.push(
                                    ValueModel::Array(values_view(items)),
                                ));
                            },
                        }
                    },
                    Token::DictBegin => {
                        match parse_dictionary_entries(c) {
                            Err(e) => {
                                return Err(e);
                            },
                            Ok(d) => {
                                acc.push(Value::Dict(d));
                                assert(values_view(acc) =~= before.push(ValueModel::Dict(d@)));
                            },
                        }
                    },
                    Token::Bool(b) => {
                        acc.push(Value::Bool(b));
                        assert(values_view(acc) =~= before.push(ValueModel::Bool(b)));
                    },
                    Token::Null => {
                        acc.push(Value::Null);
                        assert(values_view(acc) =~= before.push(ValueModel::Null));
                    },
                    Token::Integer(n) => {
                        acc.push(Value::Integer(n));
                        assert(values_view(acc) =~= before.push(ValueModel::Integer(n)));
                    },
                    Token::Real(x) => {
                        acc.push(Value::Real(x));
                        assert(values_view(acc) =~= before.push(ValueModel::Real(x)));
                    },
                    Token::Name(name) => {
                        acc.push(Value::Name(name));
                        assert(values_view(acc) =~= before.push(ValueModel::Name(name@)));
                    },
                    Token::LiteralString(bytes) => {
                        acc.push(Value::String(bytes));
                        assert(values_view(acc) =~= before.push(ValueModel::String(bytes@)));
                    },
                    _ => {
                        return Err(
                            StructuralError {
                                context: Context::Array,
                                offset: at,
                                reason: StructuralReason::UnexpectedToken,
                            },
                        );
                    },
                }
            },
        }
    }
}

/// Parses a dictionary. Its `<<` may stand at the cursor or have been read.
pub fn parse_dictionary(c: &mut Cursor) -> (r: Result<Dict, StructuralError>)
    ensures
        final(c).data == old(c).data,
        final(c).pos == dictionary(old(c).data@, old(c).pos as int).next,
        dict_view(r) == dictionary(old(c).data@, old(c).pos as int).result,
        old(c).pos <= final(c).pos,
        old(c).pos <= old(c).data@.len() ==> final(c).pos <= old(c).data@.len(),
{
    proof {
        lemma_lex_next(c.data@, c.pos as int);
    }
    let save = c.pos;
    match read_token(c) {
        Ok(Token::DictBegin) => {},
        _ => {
            c.pos = save;
        },
    }
    parse_dictionary_entries(c)
}

/// Parses an array, which starts with `[` at the cursor.
pub fn parse_array(c: &mut Cursor) -> (r: Result<Vec<Value>, StructuralError>)
    ensures
        final(c).data == old(c).data,
        final(c).pos == array(old(c).data@, old(c).pos as int).next,
        array_view(r) == array(old(c).data@, old(c).pos as int).result,
{
    let at = c.pos;
    match read_token(c) {
        Err(e) => Err(lex_error(Context::Array, e)),
        Ok(Token::ArrayBegin) => parse_array_items(c),
        Ok(_) => Err(
            StructuralError {
                context: Context::Array,
                offset: at,
                reason: StructuralReason::ExpectedArray,
            },
        ),
    }
}

/// A value in a dictionary ends at or after the position at which its
/// first token ended, inside the input where that was inside.
pub proof fn lemma_dict_value_next(s: Seq<u8>, t: TokenModel, at: int, pos: int)
    requires
        0 <= pos,
    ensures
        pos <= dict_value(s, t, at, pos).next,
        pos <= s.len() ==> dict_value(s, t, at, pos).next <= s.len(),
    decreases s.len() - pos, 1int,
{
    match t {
        TokenModel::Integer(n) => {
            lemma_lex_next(s, pos);
            lemma_lex_next(s, lex(s, pos).next);
        },
        TokenModel::ArrayBegin => {
            lemma_array_items_next(s, pos, Seq::empty());
        },
        TokenModel::DictBegin => {
            lemma_dict_entries_next(s, pos, Seq::empty());
        },
        _ => {},
    }
}

/// The entries of a dictionary end at or after their start, inside the
/// input where they started there.
pub proof fn lemma_dict_entries_next(s: Seq<u8>, pos: int, acc: DictModel)
    requires
        0 <= pos,
    ensures
        pos <= dict_entries(s, pos, acc).next,
        pos <= s.len() ==> dict_entries(s, pos, acc).next <= s.len(),
    decreases s.len() - pos, 0int,
{
    lemma_lex_next(s, pos);
    let key = lex(s, pos);
    match key.result {
        Ok(TokenModel::Name(name)) => {
            lemma_lex_next(s, key.next);
            let first = lex(s, key.next);
            match first.result {
                Ok(t) => {
                    if advances(s, pos, first.next) {
                        lemma_dict_value_next(s, t, key.next, first.next);
                        let value = dict_value(s, t, key.next, first.next);
                        match value.result {
                            Ok(v) => {
                                if advances(s, pos, value.next) {
                                    lemma_dict_entries_next(
                                        s,
                                        value.next,
                                        dict_insert(acc, name, v),
                                    );
                                }
                            },
                            Err(_) => {},
                        }
                    }
                },
                Err(_) => {},
            }
        },
        _ => {},
    }
}

/// The values of an array end at or after their start, inside the input
/// where they started there.
pub proof fn lemma_array_items_next(s: Seq<u8>, pos: int, acc: Seq<ValueModel>)
    requires
        0 <= pos,
    ensures
        pos <= array_items(s, pos, acc).next,
        pos <= s.len() ==> array_items(s, pos, acc).next <= s.len(),
    decreases s.len() - pos, 0int,
{
    lemma_lex_next(s, pos);
    let l = lex(s, pos);
    match l.result {
        Err(_) => {},
        Ok(t) => {
            if advances(s, pos, l.next) {
                match t {
                    TokenModel::ArrayEnd => {},
                    TokenModel::IndirectRefMarker => match fold_reference(acc) {
                        Some(folded) => lemma_array_items_next(s, l.next, folded),
                        None => {},
                    },
                    TokenModel::ArrayBegin => {
                        lemma_array_items_next(s, l.next, Seq::empty());
                        let inner = array_items(s, l.next, Seq::empty());
                        match inner.result {
                            Ok(items) => {
                                if advances(s, pos, inner.next) {
                                    lemma_array_items_next(
                                        s,
                                        inner.next,
                                        acc.push(ValueModel::Array(items)),
                                    );
                                }
                            },
                            Err(_) => {},
                        }
                    },
                    TokenModel::DictBegin => {
                        lemma_dict_entries_next(s, l.next, Seq::empty());
                        let inner = dict_entries(s, l.next, Seq::empty());
                        match inner.result {
                            Ok(entries) => {
                                if advances(s, pos, inner.next) {
                                    lemma_array_items_next(
                                        s,
                                        inner.next,
                                        acc.push(ValueModel::Dict(entries)),
                                    );
                                }
                            },
                            Err(_) => {},
                        }
                    },
                    _ => match scalar_value(t) {
                        Some(v) => lemma_array_items_next(s, l.next, acc.push(v)),
                        None => {},
                    },
                }
            }
        },
    }
}

/// Where the lexer gives a token, every step that the parser checks with
/// `advances` does move forward inside the input: the parser never ends a
/// dictionary or an array for the want of progress alone.
pub proof fn lemma_parser_advances(s: Seq<u8>, pos: int)
    requires
        0 <= pos,
    ensures
        lex(s, pos).result is Ok ==> advances(s, pos, lex(s, pos).next),
        lex(s, pos).result is Ok && lex(s, lex(s, pos).next).result is Ok ==> advances(
            s,
            pos,
            lex(s, lex(s, pos).next).next,
        ),
        forall|acc: Seq<ValueModel>|
            lex(s, pos).result is Ok ==> advances(
                s,
                pos,
                (#[trigger] array_items(s, lex(s, pos).next, acc)).next,
            ),
        forall|acc: DictModel|
            lex(s, pos).result is Ok ==> advances(
                s,
                pos,
                (#[trigger] dict_entries(s, lex(s, pos).next, acc)).next,
            ),
        forall|t: TokenModel, at: int|
            lex(s, pos).result is Ok && lex(s, lex(s, pos).next).result is Ok ==> advances(
                s,
                pos,
                (#[trigger] dict_value(s, t, at, lex(s, lex(s, pos).next).next)).next,
            ),
{
    lemma_lex_next(s, pos);
    let after = lex(s, pos).next;
    if lex(s, pos).result is Ok {
        lemma_lex_next(s, after);
        assert forall|acc: Seq<ValueModel>|
            advances(s, pos, (#[trigger] array_items(s, after, acc)).next) by {
            lemma_array_items_next(s, after, acc);
        }
        assert forall|acc: DictModel|
            advances(s, pos, (#[trigger] dict_entries(s, after, acc)).next) by {
            lemma_dict_entries_next(s, after, acc);
        }
        if lex(s, after).result is Ok {
            let second = lex(s, after).next;
            assert forall|t: TokenModel, at: int|
                advances(s, pos, (#[trigger] dict_value(s, t, at, second)).next) by {
                lemma_dict_value_next(s, t, at, second);
            }
        }
    }
}

} // verus!
