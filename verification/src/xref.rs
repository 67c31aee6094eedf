//! The cross-reference loader: from the end of a file to the table that
//! says where each object stands.

use std::collections::HashMap;
use vstd::prelude::*;
use crate::chars::{digit, is_digit, white};
use crate::cursor::{byte_at, Cursor};
use crate::error::StructuralError;
use crate::lexer::{lemma_white_end, skip_white, white_end};
use crate::number::{
    all_digits, digit_run_end, digits_to_u64, digits_value, lemma_digit_run_end, read_unsigned,
    unsigned_at,
};
use crate::parser::{advances, dictionary, parse_dictionary};
use crate::value::{dict_get, Dict, DictModel, ValueModel};

verus! {

broadcast use vstd::std_specs::hash::group_hash_axioms;

/// What the table says of one object id.
#[derive(Debug, Clone, Copy, PartialEq, Eq, Structural)]
pub enum XrefEntry {
    /// The object stands at `offset` in the file.
    InUse { offset: u64, generation: u32 },
    /// The id is free.
    Free { next_free_id: u64, generation: u32 },
    /// The object is the one at `index` inside the object stream
    /// `containing_stream_id`.
    Compressed { containing_stream_id: u64, index: u32 },
}

/// Why no cross-reference table could be loaded.
#[derive(Debug, Clone, Copy, PartialEq, Eq, Structural)]
pub enum XrefReason {
    /// The end of the file does not hold the keyword `startxref`.
    MissingStartxref,
    /// No number follows `startxref`.
    BadStartOffset,
    /// A section does not start with the keyword `xref`.
    MissingXrefKeyword,
    /// A section holds neither a subsection header nor `trailer` where one
    /// of them must stand, or ids that do not fit.
    BadSubsection,
    /// An entry is not ten digits, five digits and `n` or `f`.
    BadEntry,
    /// The dictionary after `trailer` could not be parsed.
    BadTrailer(StructuralError),
    /// The `Prev` entry of a trailer is a negative number.
    BadPrevOffset,
    /// The chain of sections is longer than the file has bytes, which only
    /// a chain that comes back to itself is.
    PrevLoop,
}

/// An error of the loader: the offset in the file at which it was found,
/// and the reason.
#[derive(Debug, Clone, Copy, PartialEq, Eq, Structural)]
pub struct XrefError {
    pub offset: u64,
    pub reason: XrefReason,
}

/// The bytes of the keyword `startxref`.
pub open spec fn startxref_keyword() -> Seq<u8> {
    seq![0x73u8, 0x74, 0x61, 0x72, 0x74, 0x78, 0x72, 0x65, 0x66]
}

/// The bytes of the keyword `xref`.
pub open spec fn xref_keyword() -> Seq<u8> {
    seq![0x78u8, 0x72, 0x65, 0x66]
}

/// The bytes of the keyword `trailer`.
pub open spec fn trailer_keyword() -> Seq<u8> {
    seq![0x74u8, 0x72, 0x61, 0x69, 0x6c, 0x65, 0x72]
}

/// Whether the bytes `word` stand in `s` at `pos`.
pub open spec fn word_at(s: Seq<u8>, pos: int, word: Seq<u8>) -> bool {
    0 <= pos && pos + word.len() <= s.len() && s.subrange(pos, pos + word.len()) == word
}

/// The first position at or after `from` at which `word` stands, or the
/// length of `s` where it stands at none.
pub open spec fn find_word(s: Seq<u8>, from: int, word: Seq<u8>) -> int
    decreases s.len() - from,
{
    if 0 <= from < s.len() {
        if word_at(s, from, word) {
            from
        } else {
            find_word(s, from + 1, word)
        }
    } else {
        s.len() as int
    }
}

/// `find_word` gives a position at which the word stands and before which,
/// from `from` on, it stands at none; or the length.
pub proof fn lemma_find_word(s: Seq<u8>, from: int, word: Seq<u8>)
    requires
        0 <= from <= s.len(),
    ensures
        from <= find_word(s, from, word) <= s.len(),
        find_word(s, from, word) < s.len() ==> word_at(s, find_word(s, from, word), word),
        forall|j: int| from <= j < find_word(s, from, word) ==> !word_at(s, j, word),
    decreases s.len() - from,
{
    if from < s.len() && !word_at(s, from, word) {
        lemma_find_word(s, from + 1, word);
    }
}

/// Whether the bytes of `word` stand in `data` at `pos`.
pub fn has_word_at(data: &[u8], pos: usize, word: &[u8]) -> (r: bool)
    ensures
        r == word_at(data@, pos as int, word@),
        r ==> pos + word@.len() <= usize::MAX,
{
    if pos > data.len() || word.len() > data.len() - pos {
        return false;
    }
    let n = data.len();
    let mut i: usize = 0;
    while i < word.len()
        invariant
            i <= word@.len(),
            n == data@.len(),
            pos + word@.len() <= n,
            forall|j: int| 0 <= j < i ==> data@[pos + j] == word@[j],
        decreases word@.len() - i,
    {
        if data[pos + i] != word[i] {
            assert(data@.subrange(pos as int, pos + word@.len())[i as int] != word@[i as int]);
            return false;
        }
        i = i + 1;
    }
    assert(data@.subrange(pos as int, pos + word@.len()) =~= word@);
    true
}

/// How far from the end of the file `startxref` is looked for.
pub const STARTXREF_WINDOW: usize = 32;

/// Where the search for `startxref` starts in a file of `len` bytes.
pub open spec fn window_start(len: int) -> int {
    if len > STARTXREF_WINDOW {
        len - STARTXREF_WINDOW
    } else {
        0
    }
}

/// The offset of the newest cross-reference section: the number after the
/// first `startxref` in the last bytes of the file.
pub open spec fn start_offset(s: Seq<u8>) -> Result<u64, XrefError> {
    let k = find_word(s, window_start(s.len() as int), startxref_keyword());
    if k >= s.len() {
        Err(XrefError { offset: s.len() as u64, reason: XrefReason::MissingStartxref })
    } else {
        let p = white_end(s, k + 9);
        match unsigned_at(s, p) {
            Some(n) => Ok(n),
            None => Err(XrefError { offset: p as u64, reason: XrefReason::BadStartOffset }),
        }
    }
}

/// Finds the offset of the newest cross-reference section.
pub fn find_start_offset(data: &[u8]) -> (r: Result<u64, XrefError>)
    ensures
        r == start_offset(data@),
{
    let len = data.len();
    let from: usize = if len > STARTXREF_WINDOW {
        len - STARTXREF_WINDOW
    } else {
        0
    };
    let keyword: [u8; 9] = [0x73, 0x74, 0x61, 0x72, 0x74, 0x78, 0x72, 0x65, 0x66];
    assert(keyword@ =~= startxref_keyword());
    let mut k: usize = from;
    while k < len
        invariant
            from <= k <= len,
            len == data@.len(),
            from == window_start(len as int),
            keyword@ == startxref_keyword(),
            find_word(data@, k as int, startxref_keyword()) == find_word(
                data@,
                from as int,
                startxref_keyword(),
            ),
        decreases len - k,
    {
        if has_word_at(data, k, keyword.as_slice()) {
            assert(startxref_keyword().len() == 9);
            assert(find_word(data@, k as int, startxref_keyword()) == k);
            let mut c = Cursor::at(data, k + 9);
            proof {
                lemma_white_end(data@, k + 9);
            }
            skip_white(&mut c);
            let at = c.pos;
            return match read_unsigned(&mut c) {
                Some(n) => Ok(n),
                None => Err(XrefError { offset: at as u64, reason: XrefReason::BadStartOffset }),
            };
        }
        k = k + 1;
    }
    Err(XrefError { offset: len as u64, reason: XrefReason::MissingStartxref })
}

/// The number that the `n` bytes of `s` from `pos` write, if all of them
/// are digits and the number fits a `u64`.
pub open spec fn fixed_number(s: Seq<u8>, pos: int, n: int) -> Option<u64> {
    if 0 <= pos && 0 <= n && pos + n <= s.len() && all_digits(s.subrange(pos, pos + n))
        && digits_value(s.subrange(pos, pos + n)) <= u64::MAX {
        Some(digits_value(s.subrange(pos, pos + n)) as u64)
    } else {
        None
    }
}

/// The number of bytes of an entry without its end of line.
pub const ENTRY_WIDTH: usize = 18;

/// The entry whose 18 bytes stand at `p`: ten digits, a space, five
/// digits, a space, and `n` for an object in use or `f` for a free id.
pub open spec fn entry_at(s: Seq<u8>, p: int) -> Option<XrefEntry> {
    match (fixed_number(s, p, 10), fixed_number(s, p + 11, 5)) {
        (Some(number), Some(generation)) => if byte_at(s, p + 10) == Some(0x20u8) && byte_at(
            s,
            p + 16,
        ) == Some(0x20u8) && generation <= u32::MAX {
            if byte_at(s, p + 17) == Some(0x6eu8) {
                Some(XrefEntry::InUse { offset: number, generation: generation as u32 })
            } else if byte_at(s, p + 17) == Some(0x66u8) {
                Some(XrefEntry::Free { next_free_id: number, generation: generation as u32 })
            } else {
                None
            }
        } else {
            None
        },
        _ => None,
    }
}

/// What was read of a section, or the error, and the position after it.
pub struct Scanned {
    pub result: Result<Seq<(u64, XrefEntry)>, XrefError>,
    pub next: int,
}

/// The entries of a subsection from `pos` on, after those in `acc`:
/// `count` entries, each after the white-space before it, for the ids from
/// `id` on.
pub open spec fn entries_from(
    s: Seq<u8>,
    pos: int,
    id: u64,
    count: u64,
    acc: Seq<(u64, XrefEntry)>,
) -> Scanned
    decreases count,
{
    if count == 0 {
        Scanned { result: Ok(acc), next: pos }
    } else {
        let p = white_end(s, pos);
        match entry_at(s, p) {
            None => Scanned {
                result: Err(XrefError { offset: p as u64, reason: XrefReason::BadEntry }),
                next: p,
            },
            Some(e) => entries_from(
                s,
                p + ENTRY_WIDTH,
                (id + 1) as u64,
                (count - 1) as u64,
                acc.push((id, e)),
            ),
        }
    }
}

/// The subsections of a section from `pos` on, after the entries in `acc`,
/// up to the keyword `trailer`, which is passed: each is a first id, a
/// count and that many entries. `seen` says whether a subsection came
/// before; a section without one is an error.
pub open spec fn subsections(s: Seq<u8>, pos: int, acc: Seq<(u64, XrefEntry)>, seen: bool) -> Scanned
    decreases s.len() - pos,
{
    let p = white_end(s, pos);
    let q = white_end(s, digit_run_end(s, p));
    if word_at(s, p, trailer_keyword()) {
        if seen {
            Scanned { result: Ok(acc), next: p + 7 }
        } else {
            Scanned {
                result: Err(XrefError { offset: p as u64, reason: XrefReason::BadSubsection }),
                next: p,
            }
        }
    } else {
        match (unsigned_at(s, p), unsigned_at(s, q)) {
            (Some(first), Some(count)) => if first + count > u64::MAX {
                Scanned {
                    result: Err(
                        XrefError { offset: p as u64, reason: XrefReason::BadSubsection },
                    ),
                    next: p,
                }
            } else {
                let sub = entries_from(s, digit_run_end(s, q), first, count, acc);
                match sub.result {
                    Err(_) => sub,
                    Ok(all) => if advances(s, pos, sub.next) {
                        subsections(s, sub.next, all, true)
                    } else {
                        Scanned {
                            result: Err(
                                XrefError { offset: p as u64, reason: XrefReason::BadSubsection },
                            ),
                            next: p,
                        }
                    },
                }
            },
            (Some(_), None) => Scanned {
                result: Err(XrefError { offset: q as u64, reason: XrefReason::BadSubsection }),
                next: q,
            },
            (None, _) => Scanned {
                result: Err(XrefError { offset: p as u64, reason: XrefReason::BadSubsection }),
                next: p,
            },
        }
    }
}

/// One cross-reference section: its entries in the order of the file, each
/// with its object id, and its trailer.
pub struct SectionModel {
    pub entries: Seq<(u64, XrefEntry)>,
    pub trailer: DictModel,
}

/// The section at `pos`: the keyword `xref`, subsections, the keyword
/// `trailer` and the trailer dictionary.
pub open spec fn section(s: Seq<u8>, pos: int) -> Result<SectionModel, XrefError> {
    if !word_at(s, pos, xref_keyword()) {
        Err(XrefError { offset: pos as u64, reason: XrefReason::MissingXrefKeyword })
    } else {
        let body = subsections(s, pos + 4, Seq::empty(), false);
        match body.result {
            Err(e) => Err(e),
            Ok(entries) => match dictionary(s, body.next).result {
                Err(e) => Err(
                    XrefError { offset: body.next as u64, reason: XrefReason::BadTrailer(e) },
                ),
                Ok(trailer) => Ok(SectionModel { entries, trailer }),
            },
        }
    }
}

/// Reads the `n` digits at `pos` as a number.
fn read_fixed_number(data: &[u8], pos: usize, n: usize) -> (r: Option<u64>)
    ensures
        r == fixed_number(data@, pos as int, n as int),
{
    let len = data.len();
    if pos > len || n > len - pos {
        return None;
    }
    let end = pos + n;
    let mut i: usize = pos;
    while i < end
        invariant
            pos <= i <= end <= len,
            len == data@.len(),
            end == pos + n,
            forall|j: int| pos <= j < i ==> digit(#[trigger] data@[j]),
        decreases end - i,
    {
        if !is_digit(data[i]) {
            assert(!digit(data@.subrange(pos as int, end as int)[i - pos]));
            return None;
        }
        i = i + 1;
    }
    assert forall|j: int| 0 <= j < n implies digit(
        #[trigger] data@.subrange(pos as int, end as int)[j],
    ) by {
        assert(digit(data@[pos + j]));
    }
    digits_to_u64(data, pos, end)
}

/// Reads the entry at the cursor. The cursor moves past it, or stays on an
/// error.
pub fn read_entry(c: &mut Cursor) -> (r: Option<XrefEntry>)
    ensures
        final(c).data == old(c).data,
        r == entry_at(old(c).data@, old(c).pos as int),
        r is Some ==> final(c).pos == old(c).pos + ENTRY_WIDTH && final(c).pos <= old(c).data@.len(),
        r is None ==> final(c).pos == old(c).pos,
{
    let p = c.pos;
    let len = c.data.len();
    if p > len || len - p < ENTRY_WIDTH {
        return None;
    }
    let number = match read_fixed_number(c.data, p, 10) {
        Some(v) => v,
        None => {
            return None;
        },
    };
    let generation = match read_fixed_number(c.data, p + 11, 5) {
        Some(v) => v,
        None => {
            return None;
        },
    };
    if c.data[p + 10] != 0x20 || c.data[p + 16] != 0x20 || generation > 0xffff_ffff {
        return None;
    }
    let flag = c.data[p + 17];
    if flag == 0x6e {
        c.pos = p + ENTRY_WIDTH;
        Some(XrefEntry::InUse { offset: number, generation: generation as u32 })
    } else if flag == 0x66 {
        c.pos = p + ENTRY_WIDTH;
        Some(XrefEntry::Free { next_free_id: number, generation: generation as u32 })
    } else {
        None
    }
}

/// Reads `count` entries for the ids from `first` on and appends them to
/// `acc`.
fn read_entries(c: &mut Cursor, first: u64, count: u64, acc: &mut Vec<(u64, XrefEntry)>) -> (r:
    Result<(), XrefError>)
    requires
        first + count <= u64::MAX,
    ensures
        final(c).data == old(c).data,
        final(c).pos == entries_from(
            old(c).data@,
            old(c).pos as int,
            first,
            count,
            old(acc)@,
        ).next,
        match r {
            Ok(()) => entries_from(
                old(c).data@,
                old(c).pos as int,
                first,
                count,
                old(acc)@,
            ).result == Ok::<Seq<(u64, XrefEntry)>, XrefError>(final(acc)@),
            Err(e) => entries_from(
                old(c).data@,
                old(c).pos as int,
                first,
                count,
                old(acc)@,
            ).result == Err::<Seq<(u64, XrefEntry)>, XrefError>(e),
        },
        old(c).pos <= final(c).pos,
        old(c).pos <= old(c).data@.len() ==> final(c).pos <= old(c).data@.len(),
{
    let mut id = first;
    let mut left = count;
    while left > 0
        invariant
            c.data == old(c).data,
            id + left <= u64::MAX,
            old(c).pos <= c.pos,
            old(c).pos <= old(c).data@.len() ==> c.pos <= old(c).data@.len(),
            entries_from(c.data@, c.pos as int, id, left, acc@) == entries_from(
                old(c).data@,
                old(c).pos as int,
                first,
                count,
                old(acc)@,
            ),
        decreases left,
    {
        proof {
            lemma_white_end(c.data@, c.pos as int);
        }
        skip_white(c);
        let at = c.pos;
        match read_entry(c) {
            None => {
                return Err(XrefError { offset: at as u64, reason: XrefReason::BadEntry });
            },
            Some(e) => {
                acc.push((id, e));
                id = id + 1;
                left = left - 1;
            },
        }
    }
    Ok(())
}

/// Reads the subsections of a section up to and past `trailer`.
fn read_subsections(c: &mut Cursor) -> (r: Result<Vec<(u64, XrefEntry)>, XrefError>)
    ensures
        final(c).data == old(c).data,
        final(c).pos == subsections(old(c).data@, old(c).pos as int, Seq::empty(), false).next,
        match r {
            Ok(entries) => subsections(
                old(c).data@,
                old(c).pos as int,
                Seq::empty(),
                false,
            ).result == Ok::<Seq<(u64, XrefEntry)>, XrefError>(entries@),
            Err(e) => subsections(old(c).data@, old(c).pos as int, Seq::empty(), false).result
                == Err::<Seq<(u64, XrefEntry)>, XrefError>(e),
        },
{
    let mut acc: Vec<(u64, XrefEntry)> = Vec::new();
    let mut seen = false;
    let trailer: [u8; 7] = [0x74, 0x72, 0x61, 0x69, 0x6c, 0x65, 0x72];
    assert(trailer@ =~= trailer_keyword());
    loop
        invariant
            c.data == old(c).data,
            trailer@ == trailer_keyword(),
            subsections(c.data@, c.pos as int, acc@, seen) == subsections(
                old(c).data@,
                old(c).pos as int,
                Seq::empty(),
                false,
            ),
        decreases c.data@.len() - c.pos,
    {
        let ghost start = c.pos as int;
        proof {
            lemma_white_end(c.data@, c.pos as int);
        }
        skip_white(c);
        let p = c.pos;
        if has_word_at(c.data, p, trailer.as_slice()) {
            if seen {
                c.pos = p + 7;
                return Ok(acc);
            } else {
                return Err(XrefError { offset: p as u64, reason: XrefReason::BadSubsection });
            }
        }
        proof {
            lemma_digit_run_end(c.data@, p as int);
        }
        let first = read_unsigned(c);
        proof {
            lemma_white_end(c.data@, c.pos as int);
        }
        skip_white(c);
        let q = c.pos;
        proof {
            lemma_digit_run_end(c.data@, q as int);
        }
        let count = read_unsigned(c);
        match (first, count) {
            (Some(first), Some(count)) => {
                if count > u64::MAX - first {
                    c.pos = p;
                    return Err(XrefError { offset: p as u64, reason: XrefReason::BadSubsection });
                }
                match read_entries(c, first, count, &mut acc) {
                    Err(e) => {
                        return Err(e);
                    },
                    Ok(()) => {
                        seen = true;
                    },
                }
            },
            (Some(_), None) => {
                c.pos = q;
                return Err(XrefError { offset: q as u64, reason: XrefReason::BadSubsection });
            },
            (None, _) => {
                c.pos = p;
                return Err(XrefError { offset: p as u64, reason: XrefReason::BadSubsection });
            },
        }
    }
}

/// One cross-reference section.
#[derive(Debug, PartialEq, Eq)]
pub struct XrefSection {
    pub entries: Vec<(u64, XrefEntry)>,
    pub trailer: Dict,
}

impl View for XrefSection {
    type V = SectionModel;

    open spec fn view(&self) -> SectionModel {
        SectionModel { entries: self.entries@, trailer: self.trailer@ }
    }
}

/// A section, or the error, with the section taken by its view.
pub open spec fn section_view(r: Result<XrefSection, XrefError>) -> Result<
    SectionModel,
    XrefError,
> {
    match r {
        Ok(sec) => Ok(sec@),
        Err(e) => Err(e),
    }
}

/// Reads the section that stands at `offset` in `data`.
pub fn read_section(data: &[u8], offset: u64) -> (r: Result<XrefSection, XrefError>)
    ensures
        section_view(r) == section(data@, offset as int),
{
    let keyword: [u8; 4] = [0x78, 0x72, 0x65, 0x66];
    assert(keyword@ =~= xref_keyword());
    if offset > data.len() as u64 {
        return Err(XrefError { offset, reason: XrefReason::MissingXrefKeyword });
    }
    let pos = offset as usize;
    if !has_word_at(data, pos, keyword.as_slice()) {
        return Err(XrefError { offset, reason: XrefReason::MissingXrefKeyword });
    }
    let mut c = Cursor::at(data, pos + 4);
    let entries = match read_subsections(&mut c) {
        Ok(entries) => entries,
        Err(e) => {
            return Err(e);
        },
    };
    let at = c.pos;
    match parse_dictionary(&mut c) {
        Ok(trailer) => Ok(XrefSection { entries, trailer }),
        Err(e) => Err(XrefError { offset: at as u64, reason: XrefReason::BadTrailer(e) }),
    }
}

/// The number under `Prev` in a trailer, which is the offset of the section
/// before.
pub open spec fn prev_of(trailer: DictModel) -> Option<i64> {
    match dict_get(trailer, "Prev"@) {
        Some(ValueModel::Integer(n)) => Some(n),
        _ => None,
    }
}

/// The reference under `Root` in a trailer: the id and generation of the
/// catalog.
pub open spec fn root_of(trailer: DictModel) -> Option<(i64, i64)> {
    match dict_get(trailer, "Root"@) {
        Some(ValueModel::Reference { id, generation }) => Some((id, generation)),
        _ => None,
    }
}

/// The sections of a file from the one at `offset` back along `Prev`,
/// newest first, after those in `acc`. `fuel` bounds how many are read.
pub open spec fn chain_from(s: Seq<u8>, offset: int, fuel: nat, acc: Seq<SectionModel>) -> Result<
    Seq<SectionModel>,
    XrefError,
>
    decreases fuel,
{
    if fuel == 0 {
        Err(XrefError { offset: offset as u64, reason: XrefReason::PrevLoop })
    } else {
        match section(s, offset) {
            Err(e) => Err(e),
            Ok(sec) => match prev_of(sec.trailer) {
                None => Ok(acc.push(sec)),
                Some(prev) => if prev < 0 {
                    Err(XrefError { offset: offset as u64, reason: XrefReason::BadPrevOffset })
                } else {
                    chain_from(s, prev as int, (fuel - 1) as nat, acc.push(sec))
                },
            },
        }
    }
}

/// The sections of a file, newest first: from the one that `startxref`
/// names back along `Prev`. A chain of distinct sections is never longer
/// than the file, so that many are read at most.
pub open spec fn sections_of(s: Seq<u8>) -> Result<Seq<SectionModel>, XrefError> {
    match start_offset(s) {
        Err(e) => Err(e),
        Ok(offset) => chain_from(s, offset as int, s.len(), Seq::empty()),
    }
}

/// The views of sections, in their order.
pub open spec fn sections_view(v: Vec<XrefSection>) -> Seq<SectionModel> {
    Seq::new(v@.len(), |i: int| v@[i]@)
}

/// The number under `Prev` in `trailer`.
fn prev_offset(trailer: &Dict) -> (r: Option<i64>)
    ensures
        r == prev_of(trailer@),
{
    match trailer.get("Prev") {
        Some(v) => v.as_integer().ok(),
        None => None,
    }
}

/// The reference under `Root` in `trailer`.
fn root_reference(trailer: &Dict) -> (r: Option<(i64, i64)>)
    ensures
        r == root_of(trailer@),
{
    match trailer.get("Root") {
        Some(v) => v.as_reference().ok(),
        None => None,
    }
}

/// Reads the sections of a file, newest first.
pub fn read_sections(data: &[u8]) -> (r: Result<Vec<XrefSection>, XrefError>)
    ensures
        match r {
            Ok(sections) => sections_of(data@) == Ok::<Seq<SectionModel>, XrefError>(
                sections_view(sections),
            ),
            Err(e) => sections_of(data@) == Err::<Seq<SectionModel>, XrefError>(e),
        },
{
    let mut offset = match find_start_offset(data) {
        Ok(n) => n,
        Err(e) => {
            return Err(e);
        },
    };
    let mut fuel = data.len();
    let mut acc: Vec<XrefSection> = Vec::new();
    assert(sections_view(acc) =~= Seq::<SectionModel>::empty());
    loop
        invariant
            chain_from(data@, offset as int, fuel as nat, sections_view(acc)) == sections_of(
                data@,
            ),
        decreases fuel,
    {
        if fuel == 0 {
            return Err(XrefError { offset, reason: XrefReason::PrevLoop });
        }
        let sec = match read_section(data, offset) {
            Ok(sec) => sec,
            Err(e) => {
                return Err(e);
            },
        };
        let prev = prev_offset(&sec.trailer);
        let ghost before = sections_view(acc);
        let ghost model = sec@;
        acc.push(sec);
        assert(sections_view(acc) =~= before.push(model));
        match prev {
            None => {
                return Ok(acc);
            },
            Some(n) => {
                if n < 0 {
                    return Err(XrefError { offset, reason: XrefReason::BadPrevOffset });
                }
                offset = n as u64;
                fuel = fuel - 1;
            },
        }
    }
}

/// `m` with the first `n` of `entries` put into it in their order, a later
/// entry for an id over an earlier one.
pub open spec fn with_entries(
    m: Map<u64, XrefEntry>,
    entries: Seq<(u64, XrefEntry)>,
    n: int,
) -> Map<u64, XrefEntry>
    decreases n,
{
    if n <= 0 {
        m
    } else {
        with_entries(m, entries, n - 1).insert(entries[n - 1].0, entries[n - 1].1)
    }
}

/// The table of the sections from index `from` on, which stand newest
/// first: the entries of each section are put over the table of the
/// sections after it.
pub open spec fn merged_from(sections: Seq<SectionModel>, from: int) -> Map<u64, XrefEntry>
    decreases sections.len() - from,
{
    if 0 <= from < sections.len() {
        with_entries(
            merged_from(sections, from + 1),
            sections[from].entries,
            sections[from].entries.len() as int,
        )
    } else {
        Map::empty()
    }
}

/// The table of sections that stand newest first.
pub open spec fn merged(sections: Seq<SectionModel>) -> Map<u64, XrefEntry> {
    merged_from(sections, 0)
}

/// The catalog reference of the sections from index `from` on: that of the
/// first trailer that has one.
pub open spec fn root_from(sections: Seq<SectionModel>, from: int) -> Option<(i64, i64)>
    decreases sections.len() - from,
{
    if 0 <= from < sections.len() {
        match root_of(sections[from].trailer) {
            Some(r) => Some(r),
            None => root_from(sections, from + 1),
        }
    } else {
        None
    }
}

/// The cross-reference table: for each object id its most recent entry.
#[derive(Debug)]
pub struct XrefTable {
    pub entries: HashMap<u64, XrefEntry>,
}

impl View for XrefTable {
    type V = Map<u64, XrefEntry>;

    open spec fn view(&self) -> Map<u64, XrefEntry> {
        self.entries@
    }
}

impl XrefTable {
    /// The empty table.
    pub fn new() -> (t: Self)
        ensures
            t@ == Map::<u64, XrefEntry>::empty(),
    {
        XrefTable { entries: HashMap::new() }
    }

    /// The entry of `id`.
    pub fn get(&self, id: u64) -> (r: Option<XrefEntry>)
        ensures
            r == if self@.contains_key(id) {
                Some(self@[id])
            } else {
                None
            },
    {
        match self.entries.get(&id) {
            Some(e) => Some(*e),
            None => None,
        }
    }

    /// Puts `entry` under `id`, over the entry that the id had.
    pub fn insert(&mut self, id: u64, entry: XrefEntry)
        ensures
            final(self)@ == old(self)@.insert(id, entry),
    {
        self.entries.insert(id, entry);
    }

    /// Puts `entries` into the table in their order.
    pub fn insert_all(&mut self, entries: &Vec<(u64, XrefEntry)>)
        ensures
            final(self)@ == with_entries(old(self)@, entries@, entries@.len() as int),
    {
        let mut i: usize = 0;
        while i < entries.len()
            invariant
                i <= entries@.len(),
                self@ == with_entries(old(self)@, entries@, i as int),
            decreases entries@.len() - i,
        {
            let (id, entry) = entries[i];
            self.insert(id, entry);
            i = i + 1;
        }
    }
}

/// What the loader gives: the table, the trailer of the newest section and
/// the reference to the catalog.
#[derive(Debug)]
pub struct Xref {
    pub table: XrefTable,
    pub trailer: Dict,
    pub root: Option<(i64, i64)>,
}

/// Whether `x` is what the sections `sections`, newest first, make up.
pub open spec fn xref_of(x: Xref, sections: Seq<SectionModel>) -> bool {
    &&& x.table@ == merged(sections)
    &&& x.trailer@ == if sections.len() > 0 {
        sections[0].trailer
    } else {
        DictModel::empty()
    }
    &&& x.root == root_from(sections, 0)
}

/// Merges sections that stand newest first: an entry of a newer section
/// stands over the entries of older sections for the same id.
pub fn merge_sections(sections: Vec<XrefSection>) -> (x: Xref)
    ensures
        xref_of(x, sections_view(sections)),
{
    let ghost all = sections_view(sections);
    let mut rest = sections;
    let mut table = XrefTable::new();
    let mut trailer = Dict::new();
    let mut root: Option<(i64, i64)> = None;
    while rest.len() > 0
        invariant
            rest@.len() <= all.len(),
            sections_view(rest) == all.subrange(0, rest@.len() as int),
            table@ == merged_from(all, rest@.len() as int),
            root == root_from(all, rest@.len() as int),
            trailer@ == if rest@.len() < all.len() {
                all[rest@.len() as int].trailer
            } else {
                DictModel::empty()
            },
        decreases rest@.len(),
    {
        let ghost before = sections_view(rest);
        let ghost k = rest@.len() - 1;
        match rest.pop() {
            Some(sec) => {
                assert(before[k] == sec@);
                assert(all[k] == sec@);
                assert(sections_view(rest) =~= all.subrange(0, k));
                table.insert_all(&sec.entries);
                root =
                match root_reference(&sec.trailer) {
                    Some(r) => Some(r),
                    None => root,
                };
                trailer = sec.trailer;
            },
            None => {},
        }
    }
    Xref { table, trailer, root }
}

/// Loads the cross-reference table of a file.
pub fn load_xref(data: &[u8]) -> (r: Result<Xref, XrefError>)
    ensures
        match r {
            Ok(x) => sections_of(data@) matches Ok(sections) && sections.len() > 0 && xref_of(
                x,
                sections,
            ),
            Err(e) => sections_of(data@) == Err::<Seq<SectionModel>, XrefError>(e),
        },
{
    match read_sections(data) {
        Err(e) => Err(e),
        Ok(sections) => {
            proof {
                lemma_chain_nonempty(
                    data@,
                    start_offset(data@)->Ok_0 as int,
                    data@.len(),
                    Seq::empty(),
                );
            }
            Ok(merge_sections(sections))
        },
    }
}

/// A chain that was read holds at least one section, after those it
/// started with.
pub proof fn lemma_chain_nonempty(s: Seq<u8>, offset: int, fuel: nat, acc: Seq<SectionModel>)
    ensures
        chain_from(s, offset, fuel, acc) matches Ok(sections) ==> sections.len() > acc.len(),
    decreases fuel,
{
    if fuel > 0 {
        match section(s, offset) {
            Err(_) => {},
            Ok(sec) => match prev_of(sec.trailer) {
                None => {},
                Some(prev) => {
                    if prev >= 0 {
                        lemma_chain_nonempty(s, prev as int, (fuel - 1) as nat, acc.push(sec));
                    }
                },
            },
        }
    }
}

/// In a table of sections the newest one that defines an id decides its
/// entry: what the first section says of an id stands, and the sections
/// after it decide only the ids of which it says nothing.
pub proof fn lemma_newest_section_wins(sections: Seq<SectionModel>, id: u64)
    requires
        sections.len() > 0,
    ensures
        with_entries(Map::empty(), sections[0].entries, sections[0].entries.len() as int)
            .contains_key(id) ==> merged(sections).contains_key(id) && merged(sections)[id]
            == with_entries(
            Map::empty(),
            sections[0].entries,
            sections[0].entries.len() as int,
        )[id],
        !with_entries(Map::empty(), sections[0].entries, sections[0].entries.len() as int)
            .contains_key(id) ==> (merged(sections).contains_key(id) <==> merged_from(
            sections,
            1,
        ).contains_key(id)) && (merged(sections).contains_key(id) ==> merged(sections)[id]
            == merged_from(sections, 1)[id]),
{
    lemma_with_entries_over(
        merged_from(sections, 1),
        sections[0].entries,
        sections[0].entries.len() as int,
        id,
    );
}

/// Entries put into a table decide the ids they name as they would in an
/// empty table, and leave every other id as it was.
pub proof fn lemma_with_entries_over(
    m: Map<u64, XrefEntry>,
    entries: Seq<(u64, XrefEntry)>,
    n: int,
    id: u64,
)
    requires
        0 <= n <= entries.len(),
    ensures
        with_entries(Map::empty(), entries, n).contains_key(id) ==> with_entries(
            m,
            entries,
            n,
        ).contains_key(id) && with_entries(m, entries, n)[id] == with_entries(
            Map::empty(),
            entries,
            n,
        )[id],
        !with_entries(Map::empty(), entries, n).contains_key(id) ==> (with_entries(
            m,
            entries,
            n,
        ).contains_key(id) <==> m.contains_key(id)) && (m.contains_key(id) ==> with_entries(
            m,
            entries,
            n,
        )[id] == m[id]),
    decreases n,
{
    if n > 0 {
        lemma_with_entries_over(m, entries, n - 1, id);
    }
}

} // verus!
