//! The lexer: from bytes at a cursor to one token at a time.

use vstd::prelude::*;
use crate::chars::{
    hex_to_char, hex_value, is_number, is_octal, is_regular, is_white, number_byte, octal_digit,
    regular, white,
};
use crate::cursor::{byte_at, Cursor};
use crate::error::{LexError, LexReason};
use crate::number::{number_value, parse_number};
use crate::text::{str_equal, string_from_utf8};
use crate::token::{Token, TokenModel};
use vstd::utf8::{decode_utf8, valid_utf8};

verus! {

/// The first position at or after `pos` that holds no white-space byte.
pub open spec fn white_end(s: Seq<u8>, pos: int) -> int
    decreases s.len() - pos,
{
    if 0 <= pos < s.len() && white(s[pos]) {
        white_end(s, pos + 1)
    } else {
        pos
    }
}

/// The position after the end-of-line byte that closes a comment whose text
/// starts at `pos`; the end of input where no such byte follows.
pub open spec fn comment_end(s: Seq<u8>, pos: int) -> int
    decreases s.len() - pos,
{
    if 0 <= pos < s.len() {
        if s[pos] == 10 || s[pos] == 13 {
            pos + 1
        } else {
            comment_end(s, pos + 1)
        }
    } else {
        pos
    }
}

/// The end of the run of regular bytes that starts at `pos`.
pub open spec fn run_end(s: Seq<u8>, pos: int) -> int
    decreases s.len() - pos,
{
    if 0 <= pos < s.len() && regular(s[pos]) {
        run_end(s, pos + 1)
    } else {
        pos
    }
}

/// The bytes of the run of regular bytes that starts at `pos`; none where
/// `pos` lies outside the input.
pub open spec fn run_bytes(s: Seq<u8>, pos: int) -> Seq<u8> {
    if 0 <= pos <= s.len() {
        s.subrange(pos, run_end(s, pos))
    } else {
        Seq::empty()
    }
}

/// Where the next token starts: the first position at or after `pos` that is
/// outside white-space and comments.
pub open spec fn token_start(s: Seq<u8>, pos: int) -> int
    decreases s.len() - pos,
{
    if 0 <= pos < s.len() {
        if white(s[pos]) {
            token_start(s, pos + 1)
        } else if s[pos] == 0x25 && pos < comment_end(s, pos + 1) <= s.len() {
            token_start(s, comment_end(s, pos + 1))
        } else {
            pos
        }
    } else {
        pos
    }
}

/// `white_end` stops inside the input or where it started, on a byte that is
/// not white-space, and passes only white-space.
pub proof fn lemma_white_end(s: Seq<u8>, pos: int)
    requires
        0 <= pos,
    ensures
        pos <= white_end(s, pos),
        pos <= s.len() ==> white_end(s, pos) <= s.len(),
        forall|j: int| pos <= j < white_end(s, pos) ==> white(#[trigger] s[j]),
        white_end(s, pos) < s.len() ==> !white(s[white_end(s, pos)]),
    decreases s.len() - pos,
{
    if pos < s.len() && white(s[pos]) {
        lemma_white_end(s, pos + 1);
    }
}

/// `comment_end` lies after `pos` unless the input has ended.
pub proof fn lemma_comment_end(s: Seq<u8>, pos: int)
    requires
        0 <= pos,
    ensures
        pos <= comment_end(s, pos),
        pos < s.len() ==> pos < comment_end(s, pos) <= s.len(),
    decreases s.len() - pos,
{
    if pos < s.len() && !(s[pos] == 10 || s[pos] == 13) {
        lemma_comment_end(s, pos + 1);
    }
}

/// `run_end` passes only regular bytes and stops on one that is not, or at
/// the end of input.
pub proof fn lemma_run_end(s: Seq<u8>, pos: int)
    requires
        0 <= pos,
    ensures
        pos <= run_end(s, pos),
        pos <= s.len() ==> run_end(s, pos) <= s.len(),
        forall|j: int| pos <= j < run_end(s, pos) ==> regular(#[trigger] s[j]),
        run_end(s, pos) < s.len() ==> !regular(s[run_end(s, pos)]),
    decreases s.len() - pos,
{
    if pos < s.len() && regular(s[pos]) {
        lemma_run_end(s, pos + 1);
    }
}

/// A token starts inside the input on a byte that is neither white-space
/// nor the start of a comment, or the input has ended.
pub proof fn lemma_token_start(s: Seq<u8>, pos: int)
    requires
        0 <= pos,
    ensures
        pos <= token_start(s, pos),
        pos <= s.len() ==> token_start(s, pos) <= s.len(),
        token_start(s, pos) < s.len() ==> !white(s[token_start(s, pos)]) && s[token_start(
            s,
            pos,
        )] != 0x25,
        token_start(s, token_start(s, pos)) == token_start(s, pos),
    decreases s.len() - pos,
{
    if pos < s.len() {
        if white(s[pos]) {
            lemma_token_start(s, pos + 1);
        } else if s[pos] == 0x25 {
            lemma_comment_end(s, pos + 1);
            lemma_token_start(s, comment_end(s, pos + 1));
        }
    }
}

/// Moves the cursor past the white-space at it.
pub fn skip_white(c: &mut Cursor)
    ensures
        final(c).data == old(c).data,
        final(c).pos == white_end(old(c).data@, old(c).pos as int),
{
    proof {
        lemma_white_end(c.data@, c.pos as int);
    }
    while c.pos < c.data.len() && is_white(c.data[c.pos])
        invariant
            c.data == old(c).data,
            white_end(c.data@, c.pos as int) == white_end(old(c).data@, old(c).pos as int),
        decreases c.data@.len() - c.pos,
    {
        c.pos = c.pos + 1;
    }
}

/// Moves the cursor through the rest of a comment, its end-of-line byte
/// included.
pub fn skip_comment(c: &mut Cursor)
    ensures
        final(c).data == old(c).data,
        final(c).pos == comment_end(old(c).data@, old(c).pos as int),
{
    while c.pos < c.data.len()
        invariant
            c.data == old(c).data,
            comment_end(c.data@, c.pos as int) == comment_end(old(c).data@, old(c).pos as int),
        decreases c.data@.len() - c.pos,
    {
        let b = c.data[c.pos];
        c.pos = c.pos + 1;
        if b == 10 || b == 13 {
            return ;
        }
    }
}

/// Moves the cursor to the end of the run of regular bytes at it.
pub fn skip_run(c: &mut Cursor)
    ensures
        final(c).data == old(c).data,
        final(c).pos == run_end(old(c).data@, old(c).pos as int),
{
    while c.pos < c.data.len() && is_regular(c.data[c.pos])
        invariant
            c.data == old(c).data,
            run_end(c.data@, c.pos as int) == run_end(old(c).data@, old(c).pos as int),
        decreases c.data@.len() - c.pos,
    {
        c.pos = c.pos + 1;
    }
}

/// One token as the lexer finds it, and the position after it.
pub struct Lexed {
    pub result: Result<TokenModel, LexError>,
    pub next: int,
}

/// A result of the lexer with the token taken by its view.
pub open spec fn lex_view(r: Result<Token, LexError>) -> Result<TokenModel, LexError> {
    match r {
        Ok(t) => Ok(t@),
        Err(e) => Err(e),
    }
}

/// Puts `acc` before what was decoded of the rest, and `offset` onto the
/// index of an error in it.
pub open spec fn decode_after(acc: Seq<u8>, offset: int, rest: Result<Seq<u8>, int>) -> Result<
    Seq<u8>,
    int,
> {
    match rest {
        Ok(bytes) => Ok(acc + bytes),
        Err(j) => Err(offset + j),
    }
}

/// The bytes that the raw text of a name stands for: each `#` with the two
/// hexadecimal digits after it is one byte, every other byte is itself.
/// `Err(j)` where the `#` at index `j` is not followed by two such digits.
pub open spec fn name_decode(raw: Seq<u8>) -> Result<Seq<u8>, int>
    decreases raw.len(),
{
    if raw.len() == 0 {
        Ok(Seq::empty())
    } else if raw[0] != 0x23 {
        decode_after(seq![raw[0]], 1, name_decode(raw.skip(1)))
    } else if raw.len() >= 3 && hex_value(raw[1]) is Some && hex_value(raw[2]) is Some {
        decode_after(
            seq![(hex_value(raw[1])->0 * 16 + hex_value(raw[2])->0) as u8],
            3,
            name_decode(raw.skip(3)),
        )
    } else {
        Err(0)
    }
}

/// The token of a name whose text starts at `pos`, after the `/`: the run of
/// regular bytes there, decoded, as UTF-8 text.
pub open spec fn name_token(s: Seq<u8>, pos: int) -> Lexed {
    let end = run_end(s, pos);
    Lexed {
        result: match name_decode(run_bytes(s, pos)) {
            Err(j) => Err(
                LexError { offset: (pos + j) as usize, reason: LexReason::BadNameEscape },
            ),
            Ok(bytes) => if valid_utf8(bytes) {
                Ok(TokenModel::Name(decode_utf8(bytes)))
            } else {
                Err(LexError { offset: pos as usize, reason: LexReason::InvalidNameText })
            },
        },
        next: end,
    }
}

/// Decodes the raw name text `data[start..end]`.
fn decode_name(data: &[u8], start: usize, end: usize) -> (r: Result<Vec<u8>, usize>)
    requires
        start <= end <= data@.len(),
    ensures
        match r {
            Ok(v) => name_decode(data@.subrange(start as int, end as int)) == Ok::<Seq<u8>, int>(
                v@,
            ),
            Err(j) => name_decode(data@.subrange(start as int, end as int)) == Err::<
                Seq<u8>,
                int,
            >(j as int) && j < end - start,
        },
{
    let ghost raw = data@.subrange(start as int, end as int);
    let mut acc: Vec<u8> = Vec::new();
    let mut i: usize = start;
    proof {
        assert(raw.skip(0) =~= raw);
        assert(Seq::<u8>::empty() + raw =~= raw);
        lemma_decode_after_empty(name_decode(raw));
    }
    while i < end
        invariant
            start <= i <= end <= data@.len(),
            raw == data@.subrange(start as int, end as int),
            name_decode(raw) == decode_after(acc@, i - start, name_decode(raw.skip(i - start))),
        decreases end - i,
    {
        let b = data[i];
        let ghost tail = raw.skip(i - start);
        assert(tail.len() == end - i);
        assert(tail[0] == b);
        if b != 0x23 {
            proof {
                assert(tail.skip(1) =~= raw.skip(i - start + 1));
                lemma_decode_after_push(acc@, i - start, seq![b], 1, name_decode(tail.skip(1)));
                assert(acc@ + seq![b] =~= acc@.push(b));
            }
            acc.push(b);
            i = i + 1;
        } else {
            if end - i >= 3 {
                let h1 = hex_to_char(data[i + 1]);
                let h2 = hex_to_char(data[i + 2]);
                assert(tail[1] == data@[i + 1]);
                assert(tail[2] == data@[i + 2]);
                match (h1, h2) {
                    (Ok(a), Ok(b2)) => {
                        let v: u8 = a * 16 + b2;
                        proof {
                            assert(tail.skip(3) =~= raw.skip(i - start + 3));
                            lemma_decode_after_push(
                                acc@,
                                i - start,
                                seq![v],
                                3,
                                name_decode(tail.skip(3)),
                            );
                            assert(acc@ + seq![v] =~= acc@.push(v));
                        }
                        acc.push(v);
                        i = i + 3;
                    },
                    _ => {
                        return Err(i - start);
                    },
                }
            } else {
                return Err(i - start);
            }
        }
    }
    proof {
        assert(raw.skip(end - start) =~= Seq::<u8>::empty());
        assert(acc@ + Seq::<u8>::empty() =~= acc@);
    }
    Ok(acc)
}

/// Nothing put before a result leaves it as it is.
proof fn lemma_decode_after_empty(r: Result<Seq<u8>, int>)
    ensures
        decode_after(Seq::empty(), 0, r) == r,
{
    match r {
        Ok(bytes) => {
            assert(Seq::<u8>::empty() + bytes =~= bytes);
        },
        Err(_) => {},
    }
}

/// Putting `acc` and then `more` before a result is putting both at once.
proof fn lemma_decode_after_push(
    acc: Seq<u8>,
    offset: int,
    more: Seq<u8>,
    width: int,
    r: Result<Seq<u8>, int>,
)
    ensures
        decode_after(acc, offset, decode_after(more, width, r)) == decode_after(
            acc + more,
            offset + width,
            r,
        ),
{
    match r {
        Ok(bytes) => {
            assert(acc + (more + bytes) =~= (acc + more) + bytes);
        },
        Err(_) => {},
    }
}

/// Reads a name whose `/` has been read: the run of regular bytes at the
/// cursor, with its `#` escapes decoded, as text.
pub fn read_name(c: &mut Cursor) -> (r: Result<Token, LexError>)
    ensures
        final(c).data == old(c).data,
        final(c).pos == name_token(old(c).data@, old(c).pos as int).next,
        lex_view(r) == name_token(old(c).data@, old(c).pos as int).result,
{
    let start = c.pos;
    proof {
        lemma_run_end(c.data@, start as int);
    }
    skip_run(c);
    let end = c.pos;
    if start > c.data.len() {
        return name_from_bytes(Vec::new(), start);
    }
    match decode_name(c.data, start, end) {
        Err(j) => Err(LexError { offset: start + j, reason: LexReason::BadNameEscape }),
        Ok(bytes) => name_from_bytes(bytes, start),
    }
}

/// The name token that holds `bytes` as text; an error at `offset` where
/// they are not valid UTF-8.
fn name_from_bytes(bytes: Vec<u8>, offset: usize) -> (r: Result<Token, LexError>)
    ensures
        lex_view(r) == if valid_utf8(bytes@) {
            Ok::<TokenModel, LexError>(TokenModel::Name(decode_utf8(bytes@)))
        } else {
            Err::<TokenModel, LexError>(
                LexError { offset: offset, reason: LexReason::InvalidNameText },
            )
        },
{
    match string_from_utf8(bytes) {
        Some(s) => Ok(Token::Name(s)),
        None => Err(LexError { offset, reason: LexReason::InvalidNameText }),
    }
}

/// The token that a keyword stands for; `None` for any other word.
pub open spec fn keyword(text: Seq<char>) -> Option<TokenModel> {
    if text == "true"@ {
        Some(TokenModel::Bool(true))
    } else if text == "false"@ {
        Some(TokenModel::Bool(false))
    } else if text == "null"@ {
        Some(TokenModel::Null)
    } else if text == "obj"@ {
        Some(TokenModel::ObjBegin)
    } else if text == "endobj"@ {
        Some(TokenModel::ObjEnd)
    } else if text == "stream"@ {
        Some(TokenModel::StreamBegin)
    } else if text == "endstream"@ {
        Some(TokenModel::StreamEnd)
    } else if text == "R"@ {
        Some(TokenModel::IndirectRefMarker)
    } else {
        None
    }
}

/// The token of the bare word that starts at `pos`: the run of regular bytes
/// there, read as a name is, and taken as a keyword.
pub open spec fn word_token(s: Seq<u8>, pos: int) -> Lexed {
    Lexed {
        result: match name_decode(run_bytes(s, pos)) {
            Err(j) => Err(
                LexError { offset: (pos + j) as usize, reason: LexReason::BadNameEscape },
            ),
            Ok(bytes) => if !valid_utf8(bytes) {
                Err(LexError { offset: pos as usize, reason: LexReason::InvalidNameText })
            } else {
                match keyword(decode_utf8(bytes)) {
                    Some(t) => Ok(t),
                    None => Err(
                        LexError { offset: pos as usize, reason: LexReason::UnknownKeyword },
                    ),
                }
            },
        },
        next: run_end(s, pos),
    }
}

/// The offset of the byte before `pos`; 0 where there is none.
pub open spec fn before(pos: int) -> usize {
    if pos >= 1 {
        (pos - 1) as usize
    } else {
        0
    }
}

/// The token of the number whose first byte `first` stood before `pos`: that
/// byte and the run of regular bytes at `pos`, read as `number_value` says.
pub open spec fn number_token(s: Seq<u8>, pos: int, first: u8) -> Lexed {
    Lexed {
        result: match number_value(seq![first] + run_bytes(s, pos)) {
            Ok(t) => Ok(t),
            Err(reason) => Err(LexError { offset: before(pos), reason }),
        },
        next: run_end(s, pos),
    }
}

/// Scans a hexadecimal string from `pos`, with the bytes decoded so far in
/// `acc` and a first digit that waits for its second in `high`. White-space
/// is passed over, `>` ends the string, and a digit left alone at the end
/// counts as if a `0` followed it.
pub open spec fn hex_scan(s: Seq<u8>, pos: int, acc: Seq<u8>, high: Option<u8>) -> Lexed
    decreases s.len() - pos,
{
    if !(0 <= pos < s.len()) {
        Lexed {
            result: Err(
                LexError { offset: pos as usize, reason: LexReason::UnterminatedHexString },
            ),
            next: pos,
        }
    } else if s[pos] == 0x3e {
        Lexed {
            result: Ok(
                TokenModel::LiteralString(
                    match high {
                        Some(h) => acc.push((h * 16) as u8),
                        None => acc,
                    },
                ),
            ),
            next: pos + 1,
        }
    } else if white(s[pos]) {
        hex_scan(s, pos + 1, acc, high)
    } else {
        match hex_value(s[pos]) {
            Some(v) => match high {
                None => hex_scan(s, pos + 1, acc, Some(v)),
                Some(h) => hex_scan(s, pos + 1, acc.push((h * 16 + v) as u8), None),
            },
            None => Lexed {
                result: Err(LexError { offset: pos as usize, reason: LexReason::BadHexDigit }),
                next: pos + 1,
            },
        }
    }
}

/// The token of the hexadecimal string whose content starts at `pos`, after
/// the `<`.
pub open spec fn hex_token(s: Seq<u8>, pos: int) -> Lexed {
    hex_scan(s, pos, Seq::empty(), None)
}

/// The token that the keyword `s` stands for.
pub fn to_token(s: &str) -> (r: Option<Token>)
    ensures
        match r {
            Some(t) => keyword(s@) == Some(t@),
            None => keyword(s@) is None,
        },
{
    if str_equal(s, "true") {
        Some(Token::Bool(true))
    } else if str_equal(s, "false") {
        Some(Token::Bool(false))
    } else if str_equal(s, "null") {
        Some(Token::Null)
    } else if str_equal(s, "obj") {
        Some(Token::ObjBegin)
    } else if str_equal(s, "endobj") {
        Some(Token::ObjEnd)
    } else if str_equal(s, "stream") {
        Some(Token::StreamBegin)
    } else if str_equal(s, "endstream") {
        Some(Token::StreamEnd)
    } else if str_equal(s, "R") {
        Some(Token::IndirectRefMarker)
    } else {
        None
    }
}

/// Reads the bare word at the cursor as a keyword.
pub fn read_word(c: &mut Cursor) -> (r: Result<Token, LexError>)
    ensures
        final(c).data == old(c).data,
        final(c).pos == word_token(old(c).data@, old(c).pos as int).next,
        lex_view(r) == word_token(old(c).data@, old(c).pos as int).result,
{
    let start = c.pos;
    proof {
        lemma_run_end(c.data@, start as int);
    }
    skip_run(c);
    let end = c.pos;
    let decoded = if start > c.data.len() {
        Ok(Vec::new())
    } else {
        decode_name(c.data, start, end)
    };
    match decoded {
        Err(j) => Err(LexError { offset: start + j, reason: LexReason::BadNameEscape }),
        Ok(bytes) => match string_from_utf8(bytes) {
            None => Err(LexError { offset: start, reason: LexReason::InvalidNameText }),
            Some(text) => match to_token(text.as_str()) {
                Some(t) => Ok(t),
                None => Err(LexError { offset: start, reason: LexReason::UnknownKeyword }),
            },
        },
    }
}

/// Reads a number whose first byte `first` has been read: that byte and the
/// run of regular bytes at the cursor.
pub fn read_number(c: &mut Cursor, first: u8) -> (r: Result<Token, LexError>)
    ensures
        final(c).data == old(c).data,
        final(c).pos == number_token(old(c).data@, old(c).pos as int, first).next,
        lex_view(r) == number_token(old(c).data@, old(c).pos as int, first).result,
{
    let start = c.pos;
    proof {
        lemma_run_end(c.data@, start as int);
    }
    skip_run(c);
    let end = c.pos;
    let mut raw: Vec<u8> = Vec::new();
    raw.push(first);
    if start <= c.data.len() {
        let mut i: usize = start;
        while i < end
            invariant
                start <= i <= end <= c.data@.len(),
                raw@ == seq![first] + c.data@.subrange(start as int, i as int),
            decreases end - i,
        {
            raw.push(c.data[i]);
            i = i + 1;
            proof {
                assert(raw@ =~= seq![first] + c.data@.subrange(start as int, i as int));
            }
        }
    } else {
        proof {
            assert(raw@ =~= seq![first] + Seq::<u8>::empty());
        }
    }
    let offset = if start >= 1 {
        start - 1
    } else {
        0
    };
    match parse_number(raw.as_slice()) {
        Ok(t) => Ok(t),
        Err(reason) => Err(LexError { offset, reason }),
    }
}

/// Reads a hexadecimal string whose `<` has been read.
pub fn read_hex_string(c: &mut Cursor) -> (r: Result<Token, LexError>)
    ensures
        final(c).data == old(c).data,
        final(c).pos == hex_token(old(c).data@, old(c).pos as int).next,
        lex_view(r) == hex_token(old(c).data@, old(c).pos as int).result,
{
    let mut acc: Vec<u8> = Vec::new();
    let mut high: Option<u8> = None;
    loop
        invariant
            c.data == old(c).data,
            hex_scan(c.data@, c.pos as int, acc@, high) == hex_token(
                old(c).data@,
                old(c).pos as int,
            ),
            high matches Some(h) ==> h < 16,
        decreases c.data@.len() - c.pos,
    {
        match c.read_byte() {
            None => {
                return Err(
                    LexError { offset: c.pos, reason: LexReason::UnterminatedHexString },
                );
            },
            Some(b) => {
                if b == 0x3e {
                    match high {
                        Some(h) => {
                            acc.push(h * 16);
                        },
                        None => {},
                    }
                    return Ok(Token::LiteralString(acc));
                } else if is_white(b) {
                } else {
                    match hex_to_char(b) {
                        Err(_) => {
                            return Err(
                                LexError { offset: c.pos - 1, reason: LexReason::BadHexDigit },
                            );
                        },
                        Ok(v) => {
                            match high {
                                None => {
                                    high = Some(v);
                                },
                                Some(h) => {
                                    acc.push(h * 16 + v);
                                    high = None;
                                },
                            }
                        },
                    }
                }
            },
        }
    }
}

/// What the escape `\e` does to the bytes `acc` decoded so far, for `e`
/// that is no octal digit: `n`, `r` and `t` add their control byte, `b`
/// takes the last byte away, `(`, `)` and `\` add themselves, and any other
/// byte, an end-of-line or `f` among them, changes nothing.
pub open spec fn escape_apply(acc: Seq<u8>, e: u8) -> Seq<u8> {
    if e == 0x6e {
        acc.push(10)
    } else if e == 0x72 {
        acc.push(13)
    } else if e == 0x74 {
        acc.push(9)
    } else if e == 0x62 {
        if acc.len() > 0 {
            acc.drop_last()
        } else {
            acc
        }
    } else if e == 0x28 || e == 0x29 || e == 0x5c {
        acc.push(e)
    } else {
        acc
    }
}

/// How many octal digits an escape takes that starts at `pos`: those that
/// stand there, three at most.
pub open spec fn octal_len(s: Seq<u8>, pos: int) -> int {
    if byte_at(s, pos + 1) matches Some(b) && octal_digit(b) {
        if byte_at(s, pos + 2) matches Some(b2) && octal_digit(b2) {
            3
        } else {
            2
        }
    } else {
        1
    }
}

/// The number that the octal digits of `s` from `pos` to `pos + n` write.
pub open spec fn octal_value(s: Seq<u8>, pos: int, n: int) -> int
    decreases n,
{
    if n <= 0 {
        0
    } else {
        octal_value(s, pos, n - 1) * 8 + (s[pos + n - 1] - 0x30)
    }
}

/// The byte of the octal escape whose digits start at `pos`: their value,
/// of which the low eight bits are kept.
pub open spec fn octal_byte(s: Seq<u8>, pos: int) -> u8 {
    (octal_value(s, pos, octal_len(s, pos)) % 256) as u8
}

/// Scans a literal string from `pos`, inside `depth` open parentheses, with
/// the bytes decoded so far in `acc`. A `(` opens one more level and is not
/// kept; a `)` closes one, and is kept unless it closes the string.
pub open spec fn string_scan(s: Seq<u8>, pos: int, depth: nat, acc: Seq<u8>) -> Lexed
    decreases s.len() - pos,
{
    if !(0 <= pos < s.len()) {
        Lexed {
            result: Err(LexError { offset: pos as usize, reason: LexReason::UnterminatedString }),
            next: pos,
        }
    } else if s[pos] == 0x5c {
        if pos + 1 >= s.len() {
            Lexed {
                result: Err(
                    LexError {
                        offset: (pos + 1) as usize,
                        reason: LexReason::UnterminatedString,
                    },
                ),
                next: pos + 1,
            }
        } else if octal_digit(s[pos + 1]) {
            string_scan(
                s,
                pos + 1 + octal_len(s, pos + 1),
                depth,
                acc.push(octal_byte(s, pos + 1)),
            )
        } else {
            string_scan(s, pos + 2, depth, escape_apply(acc, s[pos + 1]))
        }
    } else if s[pos] == 0x28 {
        string_scan(s, pos + 1, depth + 1, acc)
    } else if s[pos] == 0x29 {
        if depth <= 1 {
            Lexed { result: Ok(TokenModel::LiteralString(acc)), next: pos + 1 }
        } else {
            string_scan(s, pos + 1, (depth - 1) as nat, acc.push(s[pos]))
        }
    } else {
        string_scan(s, pos + 1, depth, acc.push(s[pos]))
    }
}

/// The token of the literal string whose content starts at `pos`, after the
/// `(`.
pub open spec fn string_token(s: Seq<u8>, pos: int) -> Lexed {
    string_scan(s, pos, 1, Seq::empty())
}

/// Reads the octal escape whose first digit `first` has been read.
fn read_octal(c: &mut Cursor, first: u8) -> (v: u8)
    requires
        octal_digit(first),
        1 <= old(c).pos <= old(c).data@.len(),
        old(c).data@[old(c).pos - 1] == first,
    ensures
        final(c).data == old(c).data,
        final(c).pos == old(c).pos - 1 + octal_len(old(c).data@, old(c).pos - 1),
        v == octal_byte(old(c).data@, old(c).pos - 1),
{
    let ghost s = c.data@;
    let ghost p = c.pos - 1;
    let mut value: u32 = (first - 0x30) as u32;
    assert(octal_value(s, p, 1) == value) by {
        reveal_with_fuel(octal_value, 2);
    }
    match c.peek_byte() {
        Some(b) => {
            if is_octal(b) {
                c.pos = c.pos + 1;
                value = value * 8 + (b - 0x30) as u32;
                assert(octal_value(s, p, 2) == value) by {
                    reveal_with_fuel(octal_value, 3);
                }
                match c.peek_byte() {
                    Some(b2) => {
                        if is_octal(b2) {
                            c.pos = c.pos + 1;
                            value = value * 8 + (b2 - 0x30) as u32;
                            assert(octal_value(s, p, 3) == value) by {
                                reveal_with_fuel(octal_value, 4);
                            }
                        }
                    },
                    None => {},
                }
            }
        },
        None => {},
    }
    (value % 256) as u8
}

/// Reads a literal string whose `(` has been read.
pub fn read_string(c: &mut Cursor) -> (r: Result<Token, LexError>)
    ensures
        final(c).data == old(c).data,
        final(c).pos == string_token(old(c).data@, old(c).pos as int).next,
        lex_view(r) == string_token(old(c).data@, old(c).pos as int).result,
{
    let mut acc: Vec<u8> = Vec::new();
    let mut nested: usize = 0;
    let ghost start = c.pos;
    loop
        invariant
            c.data == old(c).data,
            start == old(c).pos,
            start <= c.pos,
            c.pos <= c.data@.len() ==> nested <= c.pos - start,
            c.pos > c.data@.len() ==> nested == 0,
            string_scan(c.data@, c.pos as int, (nested + 1) as nat, acc@) == string_token(
                old(c).data@,
                old(c).pos as int,
            ),
        decreases c.data@.len() - c.pos,
    {
        match c.read_byte() {
            None => {
                return Err(LexError { offset: c.pos, reason: LexReason::UnterminatedString });
            },
            Some(b) => {
                if b == 0x5c {
                    match c.read_byte() {
                        None => {
                            return Err(
                                LexError { offset: c.pos, reason: LexReason::UnterminatedString },
                            );
                        },
                        Some(e) => {
                            if is_octal(e) {
                                let v = read_octal(c, e);
                                acc.push(v);
                            } else if e == 0x6e {
                                acc.push(10);
                            } else if e == 0x72 {
                                acc.push(13);
                            } else if e == 0x74 {
                                acc.push(9);
                            } else if e == 0x62 {
                                if acc.len() > 0 {
                                    acc.pop();
                                }
                            } else if e == 0x28 || e == 0x29 || e == 0x5c {
                                acc.push(e);
                            }
                        },
                    }
                } else if b == 0x28 {
                    nested = nested + 1;
                } else if b == 0x29 {
                    if nested == 0 {
                        return Ok(Token::LiteralString(acc));
                    }
                    nested = nested - 1;
                    acc.push(b);
                } else {
                    acc.push(b);
                }
            },
        }
    }
}

/// The token that starts at `p`, a position inside the input that holds
/// neither white-space nor the start of a comment.
pub open spec fn token_at(s: Seq<u8>, p: int) -> Lexed {
    let b = s[p];
    if b == 0x2f {
        name_token(s, p + 1)
    } else if b == 0x3c {
        if byte_at(s, p + 1) == Some(0x3cu8) {
            Lexed { result: Ok(TokenModel::DictBegin), next: p + 2 }
        } else {
            hex_token(s, p + 1)
        }
    } else if b == 0x3e {
        if byte_at(s, p + 1) == Some(0x3eu8) {
            Lexed { result: Ok(TokenModel::DictEnd), next: p + 2 }
        } else {
            Lexed {
                result: Err(LexError { offset: p as usize, reason: LexReason::StrayGreater }),
                next: p + 1,
            }
        }
    } else if b == 0x28 {
        string_token(s, p + 1)
    } else if b == 0x5b {
        Lexed { result: Ok(TokenModel::ArrayBegin), next: p + 1 }
    } else if b == 0x5d {
        Lexed { result: Ok(TokenModel::ArrayEnd), next: p + 1 }
    } else if b == 0x29 || b == 0x7b || b == 0x7d {
        Lexed {
            result: Err(LexError { offset: p as usize, reason: LexReason::StrayDelimiter }),
            next: p + 1,
        }
    } else if number_byte(b) {
        number_token(s, p + 1, b)
    } else {
        word_token(s, p)
    }
}

/// The next token at or after `pos`, white-space and comments passed over,
/// and the position after it. At the end of input the token is an error and
/// the position stays.
pub open spec fn lex(s: Seq<u8>, pos: int) -> Lexed {
    let p = token_start(s, pos);
    if 0 <= p < s.len() {
        token_at(s, p)
    } else {
        Lexed {
            result: Err(LexError { offset: p as usize, reason: LexReason::UnexpectedEof }),
            next: p,
        }
    }
}

/// Passing white-space does not move the start of the next token.
pub proof fn lemma_token_start_after_white(s: Seq<u8>, pos: int)
    requires
        0 <= pos,
    ensures
        token_start(s, white_end(s, pos)) == token_start(s, pos),
    decreases s.len() - pos,
{
    if pos < s.len() && white(s[pos]) {
        lemma_token_start_after_white(s, pos + 1);
    }
}

/// Reads the next token: passes white-space and comments, then reads what
/// the first byte announces.
pub fn read_token(c: &mut Cursor) -> (r: Result<Token, LexError>)
    ensures
        final(c).data == old(c).data,
        final(c).pos == lex(old(c).data@, old(c).pos as int).next,
        lex_view(r) == lex(old(c).data@, old(c).pos as int).result,
{
    loop
        invariant
            c.data == old(c).data,
            token_start(c.data@, c.pos as int) == token_start(old(c).data@, old(c).pos as int),
        decreases c.data@.len() - c.pos,
    {
        let ghost p = c.pos as int;
        match c.read_byte() {
            None => {
                return Err(LexError { offset: c.pos, reason: LexReason::UnexpectedEof });
            },
            Some(b) => {
                if is_white(b) {
                    proof {
                        lemma_token_start_after_white(c.data@, p + 1);
                        lemma_white_end(c.data@, p + 1);
                    }
                    skip_white(c);
                } else if b == 0x25 {
                    proof {
                        lemma_comment_end(c.data@, p + 1);
                    }
                    skip_comment(c);
                } else if b == 0x2f {
                    return read_name(c);
                } else if b == 0x3c {
                    match c.peek_byte() {
                        Some(b2) => {
                            if b2 == 0x3c {
                                c.pos = c.pos + 1;
                                return Ok(Token::DictBegin);
                            }
                        },
                        None => {},
                    }
                    return read_hex_string(c);
                } else if b == 0x3e {
                    match c.peek_byte() {
                        Some(b2) => {
                            if b2 == 0x3e {
                                c.pos = c.pos + 1;
                                return Ok(Token::DictEnd);
                            }
                        },
                        None => {},
                    }
                    return Err(LexError { offset: c.pos - 1, reason: LexReason::StrayGreater });
                } else if b == 0x28 {
                    return read_string(c);
                } else if b == 0x5b {
                    return Ok(Token::ArrayBegin);
                } else if b == 0x5d {
                    return Ok(Token::ArrayEnd);
                } else if b == 0x29 || b == 0x7b || b == 0x7d {
                    return Err(LexError { offset: c.pos - 1, reason: LexReason::StrayDelimiter });
                } else if is_number(b) {
                    return read_number(c, b);
                } else {
                    c.unread_bytes(1);
                    return read_word(c);
                }
            },
        }
    }
}

/// What a look at the next token gives: the token that a read would
/// give, and the position from which the look was taken.
pub open spec fn peeked(s: Seq<u8>, pos: int) -> Lexed {
    Lexed { result: lex(s, pos).result, next: pos }
}

/// The next token, with the cursor left where it was.
pub fn peek_token(c: &mut Cursor) -> (r: Result<Token, LexError>)
    ensures
        final(c).data == old(c).data,
        final(c).pos == peeked(old(c).data@, old(c).pos as int).next,
        lex_view(r) == peeked(old(c).data@, old(c).pos as int).result,
{
    let pos = c.pos;
    let tk = read_token(c);
    c.pos = pos;
    tk
}

/// Reads exactly `n` bytes as they are; `None`, with the cursor unmoved,
/// where fewer are left.
pub fn read_raw(c: &mut Cursor, n: usize) -> (r: Option<Vec<u8>>)
    ensures
        final(c).data == old(c).data,
        r is Some <==> old(c).pos + n <= old(c).data@.len(),
        r matches Some(v) ==> v@ == old(c).data@.subrange(
            old(c).pos as int,
            old(c).pos + n,
        ) && final(c).pos == old(c).pos + n,
        r is None ==> final(c).pos == old(c).pos,
{
    let len = c.data.len();
    if c.pos > len || n > len - c.pos {
        return None;
    }
    let start = c.pos;
    let end = start + n;
    let mut out: Vec<u8> = Vec::new();
    let mut i: usize = start;
    while i < end
        invariant
            start <= i <= end <= c.data@.len(),
            out@ == c.data@.subrange(start as int, i as int),
        decreases end - i,
    {
        out.push(c.data[i]);
        i = i + 1;
        proof {
            assert(out@ =~= c.data@.subrange(start as int, i as int));
        }
    }
    c.pos = end;
    Some(out)
}

/// A scan of a hexadecimal string ends at or after its start, inside the
/// input where it started there.
pub proof fn lemma_hex_scan_next(s: Seq<u8>, pos: int, acc: Seq<u8>, high: Option<u8>)
    requires
        0 <= pos,
    ensures
        pos <= hex_scan(s, pos, acc, high).next,
        pos <= s.len() ==> hex_scan(s, pos, acc, high).next <= s.len(),
    decreases s.len() - pos,
{
    if pos < s.len() && s[pos] != 0x3e {
        if white(s[pos]) {
            lemma_hex_scan_next(s, pos + 1, acc, high);
        } else {
            match hex_value(s[pos]) {
                Some(v) => match high {
                    None => lemma_hex_scan_next(s, pos + 1, acc, Some(v)),
                    Some(h) => lemma_hex_scan_next(s, pos + 1, acc.push((h * 16 + v) as u8), None),
                },
                None => {},
            }
        }
    }
}

/// A scan of a literal string ends at or after its start, inside the input
/// where it started there.
pub proof fn lemma_string_scan_next(s: Seq<u8>, pos: int, depth: nat, acc: Seq<u8>)
    requires
        0 <= pos,
    ensures
        pos <= string_scan(s, pos, depth, acc).next,
        pos <= s.len() ==> string_scan(s, pos, depth, acc).next <= s.len(),
    decreases s.len() - pos,
{
    if pos < s.len() {
        if s[pos] == 0x5c {
            if pos + 1 < s.len() {
                if octal_digit(s[pos + 1]) {
                    lemma_string_scan_next(
                        s,
                        pos + 1 + octal_len(s, pos + 1),
                        depth,
                        acc.push(octal_byte(s, pos + 1)),
                    );
                } else {
                    lemma_string_scan_next(s, pos + 2, depth, escape_apply(acc, s[pos + 1]));
                }
            }
        } else if s[pos] == 0x28 {
            lemma_string_scan_next(s, pos + 1, depth + 1, acc);
        } else if s[pos] == 0x29 {
            if depth > 1 {
                lemma_string_scan_next(s, pos + 1, (depth - 1) as nat, acc.push(s[pos]));
            }
        } else {
            lemma_string_scan_next(s, pos + 1, depth, acc.push(s[pos]));
        }
    }
}

/// The lexer never moves back and never leaves the input, and every token
/// and every error before the end of input takes at least one byte.
pub proof fn lemma_lex_next(s: Seq<u8>, pos: int)
    requires
        0 <= pos,
    ensures
        pos <= lex(s, pos).next,
        pos <= s.len() ==> lex(s, pos).next <= s.len(),
        token_start(s, pos) < s.len() ==> token_start(s, pos) < lex(s, pos).next,
        lex(s, pos).result is Ok ==> pos < lex(s, pos).next <= s.len(),
{
    lemma_token_start(s, pos);
    let p = token_start(s, pos);
    if p < s.len() {
        lemma_run_end(s, p);
        lemma_run_end(s, p + 1);
        lemma_hex_scan_next(s, p + 1, Seq::empty(), None);
        lemma_string_scan_next(s, p + 1, 1, Seq::empty());
    }
}

/// A look at the next token and a read after it see the same token: the
/// look leaves the position, a second look gives what the first gave, and
/// the read ends where it would have ended without the look. A read that
/// finds a token ends after it, past the start of the token by the width
/// of the token, which is at least one byte; the white-space and comments
/// before the token change nothing of it.
pub proof fn lemma_peek_then_read(s: Seq<u8>, pos: int)
    requires
        0 <= pos,
    ensures
        peeked(s, pos).next == pos,
        peeked(s, peeked(s, pos).next) == peeked(s, pos),
        lex(s, peeked(s, pos).next) == lex(s, pos),
        lex(s, peeked(s, pos).next).result == peeked(s, pos).result,
        lex(s, token_start(s, pos)) == lex(s, pos),
        lex(s, pos).result is Ok ==> token_start(s, pos) < lex(s, pos).next <= s.len(),
{
    lemma_token_start(s, pos);
    lemma_lex_next(s, pos);
}

/// The three bytes `#4A` in the raw text of a name that is valid stand for
/// the one byte `0x4A`: the text before them and the text after them are
/// valid by themselves, and the name is what they stand for with that byte
/// between.
pub proof fn lemma_name_escape_decodes(before: Seq<u8>, after: Seq<u8>)
    requires
        name_decode(before + seq![0x23u8, 0x34u8, 0x41u8] + after) is Ok,
    ensures
        name_decode(before) is Ok,
        name_decode(after) is Ok,
        name_decode(before + seq![0x23u8, 0x34u8, 0x41u8] + after) == Ok::<Seq<u8>, int>(
            name_decode(before)->Ok_0 + seq![0x4Au8] + name_decode(after)->Ok_0,
        ),
    decreases before.len(),
{
    let escape = seq![0x23u8, 0x34u8, 0x41u8];
    let raw = before + escape + after;
    if before.len() == 0 {
        assert(raw[0] == 0x23 && raw[1] == 0x34 && raw[2] == 0x41);
        assert(raw.skip(3) =~= after);
        assert(name_decode(before) == Ok::<Seq<u8>, int>(Seq::empty()));
        assert(Seq::<u8>::empty() + seq![0x4Au8] + name_decode(after)->Ok_0 =~= seq![0x4Au8]
            + name_decode(after)->Ok_0);
    } else if before[0] != 0x23 {
        assert(raw[0] == before[0]);
        assert(raw.skip(1) =~= before.skip(1) + escape + after);
        lemma_name_escape_decodes(before.skip(1), after);
        let x = name_decode(before.skip(1))->Ok_0;
        let y = name_decode(after)->Ok_0;
        assert(seq![before[0]] + (x + seq![0x4Au8] + y) =~= (seq![before[0]] + x) + seq![0x4Au8]
            + y);
    } else {
        assert(raw[0] == 0x23);
        if before.len() == 1 {
            assert(raw[1] == 0x23);
        } else if before.len() == 2 {
            assert(raw[1] == before[1]);
            assert(raw[2] == 0x23);
        } else {
            assert(raw[1] == before[1]);
            assert(raw[2] == before[2]);
            assert(raw.skip(3) =~= before.skip(3) + escape + after);
            lemma_name_escape_decodes(before.skip(3), after);
            let v = (hex_value(before[1])->0 * 16 + hex_value(before[2])->0) as u8;
            let x = name_decode(before.skip(3))->Ok_0;
            let y = name_decode(after)->Ok_0;
            assert(seq![v] + (x + seq![0x4Au8] + y) =~= (seq![v] + x) + seq![0x4Au8] + y);
        }
    }
}

/// The eight bytes `\101\102` in a literal string stand for the two bytes
/// `AB`: wherever they stand in a string that is being scanned, they add
/// these two bytes to the bytes decoded so far.
pub proof fn lemma_octal_escapes_decode(s: Seq<u8>, pos: int, depth: nat, acc: Seq<u8>)
    requires
        0 <= pos,
        pos + 8 <= s.len(),
        s.subrange(pos, pos + 8) == seq![
            0x5cu8,
            0x31u8,
            0x30u8,
            0x31u8,
            0x5cu8,
            0x31u8,
            0x30u8,
            0x32u8,
        ],
    ensures
        string_scan(s, pos, depth, acc) == string_scan(
            s,
            pos + 8,
            depth,
            acc.push(0x41u8).push(0x42u8),
        ),
{
    let text = s.subrange(pos, pos + 8);
    assert(s[pos] == text[0] && s[pos + 1] == text[1] && s[pos + 2] == text[2] && s[pos + 3]
        == text[3]);
    assert(s[pos + 4] == text[4] && s[pos + 5] == text[5] && s[pos + 6] == text[6] && s[pos + 7]
        == text[7]);
    assert(octal_len(s, pos + 1) == 3);
    assert(octal_value(s, pos + 1, 3) == 65) by {
        reveal_with_fuel(octal_value, 4);
    }
    assert(octal_len(s, pos + 5) == 3);
    assert(octal_value(s, pos + 5, 3) == 66) by {
        reveal_with_fuel(octal_value, 4);
    }
    assert(string_scan(s, pos, depth, acc) == string_scan(s, pos + 4, depth, acc.push(0x41u8)));
}

} // verus!
