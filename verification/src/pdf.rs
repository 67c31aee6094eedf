//! The document: from the bytes of a file to its pages.

use vstd::prelude::*;
use vstd::utf8::{decode_utf8, valid_utf8};
use crate::cursor::Cursor;
use crate::object::{ContentModel, Obj, ObjModel};
use crate::store::{
    dereferenced, obj_view, resolved, ObjectStore, ReferenceError, ResolveChain,
};
use crate::text::string_from_utf8;
use crate::value::{dict_get, values_view, Dict, DictModel, Value, ValueModel};
use crate::xref::{
    has_word_at, load_xref, merged, root_from, sections_of, word_at, XrefEntry, XrefError,
    XrefTable,
};

verus! {

/// Why a document could not be opened.
#[derive(Debug, Clone, Copy, PartialEq, Eq, Structural)]
pub enum OpenError {
    /// No cross-reference table could be loaded.
    Xref(XrefError),
    /// No trailer refers to a catalog under `Root`.
    MissingRoot,
    /// The reference to the catalog gives no object.
    Root(ReferenceError),
    /// The catalog object holds no dictionary.
    BadCatalog,
}

/// Why a page or its content could not be had.
#[derive(Debug, Clone, Copy, PartialEq, Eq, Structural)]
pub enum PageError {
    /// The document has no catalog.
    NoCatalog,
    /// A reference on the way gives no object.
    Reference(ReferenceError),
    /// The catalog refers to no page tree under `Pages`.
    NoPages,
    /// The root of the page tree has no array under `Kids`.
    NoKids,
    /// The root of the page tree has no kid at the index.
    OutOfRange,
    /// The kid at the index is no reference.
    BadKid,
    /// `Contents` is neither a reference nor an array of references, or
    /// the page holds no dictionary.
    BadContents,
    /// An object under `Contents` is no stream.
    NotAStream,
    /// A filter of a content stream failed.
    Undecoded,
}

/// The id and generation of the reference that `v` is.
pub open spec fn reference_of(v: ValueModel) -> Option<(i64, i64)> {
    match v {
        ValueModel::Reference { id, generation } => Some((id, generation)),
        _ => None,
    }
}

/// The reference under `key` in the dictionary of `o`.
pub open spec fn reference_under(o: ObjModel, key: Seq<char>) -> Option<(i64, i64)> {
    match o.content.dict() {
        Some(d) => match dict_get(d, key) {
            Some(v) => reference_of(v),
            None => None,
        },
        None => None,
    }
}

/// The root of the page tree, which the catalog names under `Pages`.
pub open spec fn pages_node(
    bytes: Seq<u8>,
    table: Map<u64, XrefEntry>,
    root: Option<(i64, i64)>,
) -> Result<ObjModel, PageError> {
    match root {
        None => Err(PageError::NoCatalog),
        Some((id, generation)) => match dereferenced(bytes, table, Seq::empty(), id, generation) {
            Err(e) => Err(PageError::Reference(e)),
            Ok(catalog) => match reference_under(catalog, "Pages"@) {
                None => Err(PageError::NoPages),
                Some((pid, pgen)) => match dereferenced(
                    bytes,
                    table,
                    seq![id as u64],
                    pid,
                    pgen,
                ) {
                    Err(e) => Err(PageError::Reference(e)),
                    Ok(pages) => Ok(pages),
                },
            },
        },
    }
}

/// The number under `Count` in the dictionary of `o`, if it is one that a
/// `u32` holds; else 0.
pub open spec fn count_of(o: ObjModel) -> u32 {
    match o.content.dict() {
        Some(d) => match dict_get(d, "Count"@) {
            Some(ValueModel::Integer(n)) => if 0 <= n <= u32::MAX {
                n as u32
            } else {
                0
            },
            _ => 0,
        },
        None => 0,
    }
}

/// The number of pages: what the root of the page tree says under `Count`,
/// and 0 where it cannot be had.
pub open spec fn page_count_of(
    bytes: Seq<u8>,
    table: Map<u64, XrefEntry>,
    root: Option<(i64, i64)>,
) -> u32 {
    match pages_node(bytes, table, root) {
        Ok(pages) => count_of(pages),
        Err(_) => 0,
    }
}

/// The kids of a node of the page tree.
pub open spec fn kids_of(o: ObjModel) -> Option<Seq<ValueModel>> {
    match o.content.dict() {
        Some(d) => match dict_get(d, "Kids"@) {
            Some(ValueModel::Array(items)) => Some(items),
            _ => None,
        },
        None => None,
    }
}

/// The ids through which the way to a kid of the page tree root has come.
pub open spec fn way_to_kid(root: Option<(i64, i64)>, pages: ObjModel) -> Seq<u64> {
    match root {
        Some((id, _)) => seq![id as u64, pages.id],
        None => seq![pages.id],
    }
}

/// The page at `index`: the object that the kid at that index of the root
/// of the page tree refers to. The tree is not descended.
pub open spec fn page_node(
    bytes: Seq<u8>,
    table: Map<u64, XrefEntry>,
    root: Option<(i64, i64)>,
    index: int,
) -> Result<ObjModel, PageError> {
    match pages_node(bytes, table, root) {
        Err(e) => Err(e),
        Ok(pages) => match kids_of(pages) {
            None => Err(PageError::NoKids),
            Some(kids) => if !(0 <= index < kids.len()) {
                Err(PageError::OutOfRange)
            } else {
                match reference_of(kids[index]) {
                    None => Err(PageError::BadKid),
                    Some((id, generation)) => match dereferenced(
                        bytes,
                        table,
                        way_to_kid(root, pages),
                        id,
                        generation,
                    ) {
                        Err(e) => Err(PageError::Reference(e)),
                        Ok(page) => Ok(page),
                    },
                }
            },
        },
    }
}

/// The decoded bytes of the stream that `o` is.
pub open spec fn stream_bytes(o: ObjModel) -> Result<Seq<u8>, PageError> {
    match o.content {
        ContentModel::Stream { data, decoded, .. } => if decoded {
            Ok(data)
        } else {
            Err(PageError::Undecoded)
        },
        _ => Err(PageError::NotAStream),
    }
}

/// The decoded bytes of the stream that `item` refers to.
pub open spec fn content_of(
    bytes: Seq<u8>,
    table: Map<u64, XrefEntry>,
    visited: Seq<u64>,
    item: Option<(i64, i64)>,
) -> Result<Seq<u8>, PageError> {
    match item {
        None => Err(PageError::BadContents),
        Some((id, generation)) => match dereferenced(bytes, table, visited, id, generation) {
            Err(e) => Err(PageError::Reference(e)),
            Ok(o) => stream_bytes(o),
        },
    }
}

/// The contents that `items` refer to from index `from` on, after `acc`:
/// one after the other in their order, with a line feed between two.
pub open spec fn joined_from(
    bytes: Seq<u8>,
    table: Map<u64, XrefEntry>,
    visited: Seq<u64>,
    items: Seq<Option<(i64, i64)>>,
    from: int,
    acc: Seq<u8>,
) -> Result<Seq<u8>, PageError>
    decreases items.len() - from,
{
    if 0 <= from < items.len() {
        match content_of(bytes, table, visited, items[from]) {
            Err(e) => Err(e),
            Ok(segment) => joined_from(
                bytes,
                table,
                visited,
                items,
                from + 1,
                if from == 0 {
                    segment
                } else {
                    acc + seq![10u8] + segment
                },
            ),
        }
    } else {
        Ok(acc)
    }
}

/// The references that `items` are, each `None` where the item is none.
pub open spec fn references_of(items: Seq<ValueModel>) -> Seq<Option<(i64, i64)>> {
    Seq::new(items.len(), |i: int| reference_of(items[i]))
}

/// The content of the page `page`, reached through `visited`: the bytes of
/// the stream under `Contents`, or those of the streams of an array there,
/// joined. A page without `Contents` has no bytes.
pub open spec fn content_of_page(
    bytes: Seq<u8>,
    table: Map<u64, XrefEntry>,
    visited: Seq<u64>,
    page: ObjModel,
) -> Result<Seq<u8>, PageError> {
    match page.content.dict() {
        None => Err(PageError::BadContents),
        Some(d) => match dict_get(d, "Contents"@) {
            None => Ok(Seq::empty()),
            Some(ValueModel::Array(items)) => joined_from(
                bytes,
                table,
                visited,
                references_of(items),
                0,
                Seq::empty(),
            ),
            Some(v) => content_of(bytes, table, visited, reference_of(v)),
        },
    }
}

/// The content of the page at `index`.
pub open spec fn page_content(
    bytes: Seq<u8>,
    table: Map<u64, XrefEntry>,
    root: Option<(i64, i64)>,
    index: int,
) -> Result<Seq<u8>, PageError> {
    match page_node(bytes, table, root, index) {
        Err(e) => Err(e),
        Ok(page) => content_of_page(
            bytes,
            table,
            way_to_kid(root, pages_node(bytes, table, root)->Ok_0).push(page.id),
            page,
        ),
    }
}

/// The first position at or after `pos` whose byte is one of `delim`, or
/// the length of `s` where none is.
pub open spec fn until(s: Seq<u8>, pos: int, delim: Seq<u8>) -> int
    decreases s.len() - pos,
{
    if 0 <= pos < s.len() {
        if delim.contains(s[pos]) {
            pos
        } else {
            until(s, pos + 1, delim)
        }
    } else {
        s.len() as int
    }
}

/// Whether `b` is one of the bytes of `delim`.
fn is_one_of(b: u8, delim: &[u8]) -> (r: bool)
    ensures
        r == delim@.contains(b),
{
    let mut i: usize = 0;
    while i < delim.len()
        invariant
            i <= delim@.len(),
            forall|j: int| 0 <= j < i ==> delim@[j] != b,
        decreases delim@.len() - i,
    {
        if delim[i] == b {
            return true;
        }
        i = i + 1;
    }
    false
}

/// Reads the bytes up to the first one that is in `delim`, and passes that
/// one. `None` where the input ends before such a byte; the cursor is then
/// at the end.
pub fn read_until(c: &mut Cursor, delim: &[u8]) -> (r: Option<Vec<u8>>)
    ensures
        final(c).data == old(c).data,
        match r {
            Some(bytes) => until(old(c).data@, old(c).pos as int, delim@) < old(c).data@.len()
                && bytes@ == old(c).data@.subrange(
                old(c).pos as int,
                until(old(c).data@, old(c).pos as int, delim@),
            ) && final(c).pos == until(old(c).data@, old(c).pos as int, delim@) + 1,
            None => until(old(c).data@, old(c).pos as int, delim@) >= old(c).data@.len()
                && final(c).pos == if old(c).pos <= old(c).data@.len() {
                old(c).data@.len() as usize
            } else {
                old(c).pos
            },
        },
{
    let start = c.pos;
    let mut out: Vec<u8> = Vec::new();
    if start > c.data.len() {
        return None;
    }
    assert(c.data@.subrange(start as int, start as int) =~= Seq::<u8>::empty());
    while c.pos < c.data.len()
        invariant
            c.data == old(c).data,
            start == old(c).pos,
            start <= c.pos <= c.data@.len(),
            out@ == c.data@.subrange(start as int, c.pos as int),
            until(c.data@, c.pos as int, delim@) == until(old(c).data@, old(c).pos as int, delim@),
        decreases c.data@.len() - c.pos,
    {
        let b = c.data[c.pos];
        if is_one_of(b, delim) {
            c.pos = c.pos + 1;
            return Some(out);
        }
        out.push(b);
        c.pos = c.pos + 1;
        proof {
            assert(out@ =~= c.data@.subrange(start as int, c.pos as int));
        }
    }
    None
}

/// The bytes `%PDF-`, with which a file starts.
pub open spec fn header_keyword() -> Seq<u8> {
    seq![0x25u8, 0x50, 0x44, 0x46, 0x2d]
}

/// The version that the first line of a file gives after `%PDF-`, as
/// text; empty where the file does not start so, where the line does not
/// end, or where the version is not text.
pub open spec fn version_of(s: Seq<u8>) -> Seq<char> {
    let end = until(s, 5, seq![10u8, 13u8]);
    if word_at(s, 0, header_keyword()) && end < s.len() && valid_utf8(s.subrange(5, end)) {
        decode_utf8(s.subrange(5, end))
    } else {
        Seq::empty()
    }
}

/// Reads the version from the first line of a file.
pub fn read_version(data: &[u8]) -> (v: String)
    ensures
        v@ == version_of(data@),
{
    let header: [u8; 5] = [0x25, 0x50, 0x44, 0x46, 0x2d];
    assert(header@ =~= header_keyword());
    if !has_word_at(data, 0, header.as_slice()) {
        return String::new();
    }
    let eol: [u8; 2] = [10, 13];
    assert(eol@ =~= seq![10u8, 13u8]);
    let mut c = Cursor::at(data, 5);
    match read_until(&mut c, eol.as_slice()) {
        None => String::new(),
        Some(bytes) => match string_from_utf8(bytes) {
            Some(text) => text,
            None => String::new(),
        },
    }
}

/// Whether a document can be opened from `bytes`: the cross-reference
/// chain must load, a trailer must name the catalog, and the catalog must
/// resolve to an object with a dictionary.
pub open spec fn opened(bytes: Seq<u8>) -> Result<(), OpenError> {
    match sections_of(bytes) {
        Err(e) => Err(OpenError::Xref(e)),
        Ok(sections) => match root_from(sections, 0) {
            None => Err(OpenError::MissingRoot),
            Some((id, generation)) => match dereferenced(
                bytes,
                merged(sections),
                Seq::empty(),
                id,
                generation,
            ) {
                Err(e) => Err(OpenError::Root(e)),
                Ok(catalog) => if catalog.content.dict() is None {
                    Err(OpenError::BadCatalog)
                } else {
                    Ok(())
                },
            },
        },
    }
}

/// A document.
#[derive(Debug)]
pub struct Pdf {
    version: String,
    store: ObjectStore,
    trailer: Dict,
    root: Option<(i64, i64)>,
}

impl Pdf {
    /// The bytes of the file.
    pub closed spec fn bytes(&self) -> Seq<u8> {
        self.store.bytes()
    }

    /// The merged cross-reference table.
    pub closed spec fn table(&self) -> Map<u64, XrefEntry> {
        self.store.table()
    }

    /// The reference to the catalog.
    pub closed spec fn root(&self) -> Option<(i64, i64)> {
        self.root
    }

    /// The trailer of the newest section.
    pub closed spec fn trailer_view(&self) -> DictModel {
        self.trailer@
    }

    /// The version of the file.
    pub closed spec fn version_view(&self) -> Seq<char> {
        self.version@
    }

    /// A document without bytes, objects or catalog.
    pub fn new() -> (pdf: Pdf)
        ensures
            pdf.bytes() == Seq::<u8>::empty(),
            pdf.table() == Map::<u64, XrefEntry>::empty(),
            pdf.root() is None,
            pdf.trailer_view() == DictModel::empty(),
            pdf.version_view() == Seq::<char>::empty(),
    {
        Pdf {
            version: String::new(),
            store: ObjectStore::new(Vec::new(), XrefTable::new()),
            trailer: Dict::new(),
            root: None,
        }
    }

    /// Opens the document that `data` holds: reads the version, loads the
    /// cross-reference chain and resolves the catalog.
    pub fn open(data: Vec<u8>) -> (r: Result<Pdf, OpenError>)
        ensures
            match r {
                Ok(pdf) => {
                    &&& opened(data@) is Ok
                    &&& sections_of(data@) matches Ok(sections)
                    &&& sections.len() > 0
                    &&& pdf.bytes() == data@
                    &&& pdf.table() == merged(sections)
                    &&& pdf.root() == root_from(sections, 0)
                    &&& pdf.trailer_view() == sections[0].trailer
                    &&& pdf.version_view() == version_of(data@)
                },
                Err(e) => opened(data@) == Err::<(), OpenError>(e),
            },
    {
        let version = read_version(data.as_slice());
        let x = match load_xref(data.as_slice()) {
            Ok(x) => x,
            Err(e) => {
                return Err(OpenError::Xref(e));
            },
        };
        let (id, generation) = match x.root {
            Some(root) => root,
            None => {
                return Err(OpenError::MissingRoot);
            },
        };
        let mut store = ObjectStore::new(data, x.table);
        let mut chain = ResolveChain::new();
        match store.deref(&mut chain, id, generation) {
            Err(e) => {
                return Err(OpenError::Root(e));
            },
            Ok(catalog) => {
                if catalog.dict().is_none() {
                    return Err(OpenError::BadCatalog);
                }
            },
        }
        Ok(Pdf { version, store, trailer: x.trailer, root: x.root })
    }

    /// The version of the file, as `1.4`.
    pub fn version(&self) -> (v: &str)
        ensures
            v@ == self.version_view(),
    {
        self.version.as_str()
    }

    /// The trailer of the newest cross-reference section.
    pub fn trailer(&self) -> (d: &Dict)
        ensures
            d@ == self.trailer_view(),
    {
        &self.trailer
    }

    /// The id and generation of the catalog.
    pub fn root_reference(&self) -> (r: Option<(i64, i64)>)
        ensures
            r == self.root(),
    {
        self.root
    }

    /// The object `id`, read on first use.
    pub fn resolve(&mut self, id: u64) -> (r: Result<&Obj, ReferenceError>)
        ensures
            final(self).bytes() == old(self).bytes(),
            final(self).table() == old(self).table(),
            final(self).root() == old(self).root(),
            final(self).trailer_view() == old(self).trailer_view(),
            final(self).version_view() == old(self).version_view(),
            obj_view(r) == resolved(old(self).bytes(), old(self).table(), id),
    {
        self.store.resolve(id)
    }

    /// Follows the reference `id generation R` from the end of `chain`.
    pub fn deref(&mut self, chain: &mut ResolveChain, id: i64, generation: i64) -> (r: Result<
        &Obj,
        ReferenceError,
    >)
        ensures
            final(self).bytes() == old(self).bytes(),
            final(self).table() == old(self).table(),
            final(self).root() == old(self).root(),
            final(self).trailer_view() == old(self).trailer_view(),
            final(self).version_view() == old(self).version_view(),
            obj_view(r) == dereferenced(
                old(self).bytes(),
                old(self).table(),
                old(chain).visited@,
                id,
                generation,
            ),
            final(chain).visited@ == if r is Ok {
                old(chain).visited@.push(id as u64)
            } else {
                old(chain).visited@
            },
    {
        self.store.deref(chain, id, generation)
    }
}

/// Appends the bytes of `more` to `acc`.
fn append_bytes(acc: &mut Vec<u8>, more: &[u8])
    ensures
        final(acc)@ == old(acc)@ + more@,
{
    let mut i: usize = 0;
    while i < more.len()
        invariant
            i <= more@.len(),
            acc@ == old(acc)@ + more@.subrange(0, i as int),
        decreases more@.len() - i,
    {
        acc.push(more[i]);
        i = i + 1;
        proof {
            assert(acc@ =~= old(acc)@ + more@.subrange(0, i as int));
        }
    }
    proof {
        assert(more@.subrange(0, more@.len() as int) =~= more@);
    }
}

/// The references that the values of `items` are.
fn collect_references(items: &Vec<Value>) -> (r: Vec<Option<(i64, i64)>>)
    ensures
        r@ == references_of(values_view(*items)),
{
    let mut out: Vec<Option<(i64, i64)>> = Vec::new();
    let mut i: usize = 0;
    while i < items.len()
        invariant
            i <= items@.len(),
            out@ == references_of(values_view(*items)).subrange(0, i as int),
        decreases items@.len() - i,
    {
        out.push(items[i].as_reference().ok());
        i = i + 1;
        proof {
            assert(out@ =~= references_of(values_view(*items)).subrange(0, i as int));
        }
    }
    proof {
        assert(out@ =~= references_of(values_view(*items)));
    }
    out
}

/// What `Contents` of a page asks for.
enum ContentsPlan {
    /// The page has no content.
    Nothing,
    /// One stream, if the value is a reference.
    One(Option<(i64, i64)>),
    /// The streams of an array, in their order.
    Many(Vec<Option<(i64, i64)>>),
}

impl Pdf {
    /// The root of the page tree, reached through the catalog. On success
    /// `chain`, which must be empty, has come through both.
    fn pages(&mut self, chain: &mut ResolveChain) -> (r: Result<&Obj, PageError>)
        requires
            old(chain).visited@ == Seq::<u64>::empty(),
        ensures
            final(self).bytes() == old(self).bytes(),
            final(self).table() == old(self).table(),
            final(self).root() == old(self).root(),
            final(self).trailer_view() == old(self).trailer_view(),
            final(self).version_view() == old(self).version_view(),
            match r {
                Ok(o) => pages_node(old(self).bytes(), old(self).table(), old(self).root())
                    == Ok::<ObjModel, PageError>(o@) && final(chain).visited@ == way_to_kid(
                    old(self).root(),
                    o@,
                ),
                Err(e) => pages_node(old(self).bytes(), old(self).table(), old(self).root())
                    == Err::<ObjModel, PageError>(e),
            },
    {
        let (id, generation) = match self.root {
            Some(root) => root,
            None => {
                return Err(PageError::NoCatalog);
            },
        };
        let pages_ref = match self.store.deref(chain, id, generation) {
            Err(e) => {
                return Err(PageError::Reference(e));
            },
            Ok(catalog) => match catalog.get("Pages") {
                Some(v) => v.as_reference().ok(),
                None => None,
            },
        };
        let (pid, pgen) = match pages_ref {
            Some(p) => p,
            None => {
                return Err(PageError::NoPages);
            },
        };
        assert(chain.visited@ =~= seq![id as u64]);
        match self.store.deref(chain, pid, pgen) {
            Err(e) => Err(PageError::Reference(e)),
            Ok(pages) => {
                assert(chain.visited@ =~= seq![id as u64, pid as u64]);
                Ok(pages)
            },
        }
    }

    /// The number of pages that the root of the page tree gives under
    /// `Count`; 0 where the root cannot be reached or gives none.
    pub fn page_count(&mut self) -> (n: u32)
        ensures
            final(self).bytes() == old(self).bytes(),
            final(self).table() == old(self).table(),
            final(self).root() == old(self).root(),
            final(self).trailer_view() == old(self).trailer_view(),
            final(self).version_view() == old(self).version_view(),
            n == page_count_of(old(self).bytes(), old(self).table(), old(self).root()),
    {
        let mut chain = ResolveChain::new();
        match self.pages(&mut chain) {
            Err(_) => 0,
            Ok(pages) => match pages.get("Count") {
                Some(v) => match v.as_integer() {
                    Ok(n) => if 0 <= n && n <= 0xffff_ffff {
                        n as u32
                    } else {
                        0
                    },
                    Err(_) => 0,
                },
                None => 0,
            },
        }
    }

    /// The page at `index` among the kids of the root of the page tree,
    /// reached through `chain`, which must be empty.
    fn page(&mut self, chain: &mut ResolveChain, index: usize) -> (r: Result<&Obj, PageError>)
        requires
            old(chain).visited@ == Seq::<u64>::empty(),
        ensures
            final(self).bytes() == old(self).bytes(),
            final(self).table() == old(self).table(),
            final(self).root() == old(self).root(),
            final(self).trailer_view() == old(self).trailer_view(),
            final(self).version_view() == old(self).version_view(),
            match r {
                Ok(o) => page_node(
                    old(self).bytes(),
                    old(self).table(),
                    old(self).root(),
                    index as int,
                ) == Ok::<ObjModel, PageError>(o@) && final(chain).visited@ == way_to_kid(
                    old(self).root(),
                    pages_node(old(self).bytes(), old(self).table(), old(self).root())->Ok_0,
                ).push(o@.id),
                Err(e) => page_node(
                    old(self).bytes(),
                    old(self).table(),
                    old(self).root(),
                    index as int,
                ) == Err::<ObjModel, PageError>(e),
            },
    {
        let kid = match self.pages(chain) {
            Err(e) => {
                return Err(e);
            },
            Ok(pages) => {
                let kids = match pages.get("Kids") {
                    Some(v) => v.as_array().ok(),
                    None => None,
                };
                match kids {
                    None => {
                        return Err(PageError::NoKids);
                    },
                    Some(items) => {
                        if index >= items.len() {
                            return Err(PageError::OutOfRange);
                        }
                        assert(values_view(*items)[index as int] == items@[index as int]@);
                        items[index].as_reference().ok()
                    },
                }
            },
        };
        let (id, generation) = match kid {
            Some(k) => k,
            None => {
                return Err(PageError::BadKid);
            },
        };
        match self.store.deref(chain, id, generation) {
            Err(e) => Err(PageError::Reference(e)),
            Ok(page) => {
                Ok(page)
            },
        }
    }

    /// The page at `index`: the object that the kid at that index of the
    /// root of the page tree refers to.
    pub fn get_page(&mut self, index: usize) -> (r: Result<&Obj, PageError>)
        ensures
            final(self).bytes() == old(self).bytes(),
            final(self).table() == old(self).table(),
            final(self).root() == old(self).root(),
            final(self).trailer_view() == old(self).trailer_view(),
            final(self).version_view() == old(self).version_view(),
            match r {
                Ok(o) => page_node(
                    old(self).bytes(),
                    old(self).table(),
                    old(self).root(),
                    index as int,
                ) == Ok::<ObjModel, PageError>(o@),
                Err(e) => page_node(
                    old(self).bytes(),
                    old(self).table(),
                    old(self).root(),
                    index as int,
                ) == Err::<ObjModel, PageError>(e),
            },
    {
        let mut chain = ResolveChain::new();
        self.page(&mut chain, index)
    }

    /// The decoded bytes of the stream that `item` refers to, reached
    /// through `chain`, which is left as it was.
    fn content(&mut self, chain: &mut ResolveChain, item: Option<(i64, i64)>) -> (r: Result<
        Vec<u8>,
        PageError,
    >)
        ensures
            final(self).bytes() == old(self).bytes(),
            final(self).table() == old(self).table(),
            final(self).root() == old(self).root(),
            final(self).trailer_view() == old(self).trailer_view(),
            final(self).version_view() == old(self).version_view(),
            final(chain).visited@ == old(chain).visited@,
            match r {
                Ok(bytes) => content_of(
                    old(self).bytes(),
                    old(self).table(),
                    old(chain).visited@,
                    item,
                ) == Ok::<Seq<u8>, PageError>(bytes@),
                Err(e) => content_of(
                    old(self).bytes(),
                    old(self).table(),
                    old(chain).visited@,
                    item,
                ) == Err::<Seq<u8>, PageError>(e),
            },
    {
        let (id, generation) = match item {
            Some(i) => i,
            None => {
                return Err(PageError::BadContents);
            },
        };
        let ghost before = chain.visited@;
        let r = match self.store.deref(chain, id, generation) {
            Err(e) => {
                return Err(PageError::Reference(e));
            },
            Ok(o) => match o.stream() {
                None => Err(PageError::NotAStream),
                Some(s) => if s.decoded {
                    Ok(vstd::slice::slice_to_vec(s.data.as_slice()))
                } else {
                    Err(PageError::Undecoded)
                },
            },
        };
        chain.leave();
        assert(chain.visited@ =~= before);
        r
    }

    /// The content of the page at `index`: the decoded bytes of the stream
    /// under `Contents`, or those of the streams of an array there, one
    /// after the other with a line feed between two.
    pub fn page_content_bytes(&mut self, index: usize) -> (r: Result<Vec<u8>, PageError>)
        ensures
            final(self).bytes() == old(self).bytes(),
            final(self).table() == old(self).table(),
            final(self).root() == old(self).root(),
            final(self).trailer_view() == old(self).trailer_view(),
            final(self).version_view() == old(self).version_view(),
            match r {
                Ok(bytes) => page_content(
                    old(self).bytes(),
                    old(self).table(),
                    old(self).root(),
                    index as int,
                ) == Ok::<Seq<u8>, PageError>(bytes@),
                Err(e) => page_content(
                    old(self).bytes(),
                    old(self).table(),
                    old(self).root(),
                    index as int,
                ) == Err::<Seq<u8>, PageError>(e),
            },
    {
        let mut chain = ResolveChain::new();
        let plan = match self.page(&mut chain, index) {
            Err(e) => {
                return Err(e);
            },
            Ok(page) => match page.dict() {
                None => {
                    return Err(PageError::BadContents);
                },
                Some(d) => match d.get("Contents") {
                    None => ContentsPlan::Nothing,
                    Some(Value::Array(items)) => ContentsPlan::Many(collect_references(items)),
                    Some(v) => ContentsPlan::One(v.as_reference().ok()),
                },
            },
        };
        match plan {
            ContentsPlan::Nothing => Ok(Vec::new()),
            ContentsPlan::One(item) => self.content(&mut chain, item),
            ContentsPlan::Many(items) => {
                let mut acc: Vec<u8> = Vec::new();
                let mut i: usize = 0;
                let ghost visited = chain.visited@;
                let ghost bytes = self.bytes();
                let ghost table = self.table();
                while i < items.len()
                    invariant
                        i <= items@.len(),
                        self.bytes() == bytes,
                        self.table() == table,
                        bytes == old(self).bytes(),
                        table == old(self).table(),
                        page_content(bytes, table, old(self).root(), index as int) == joined_from(
                            bytes,
                            table,
                            visited,
                            items@,
                            0,
                            Seq::empty(),
                        ),
                        self.root() == old(self).root(),
                        self.trailer_view() == old(self).trailer_view(),
                        self.version_view() == old(self).version_view(),
                        chain.visited@ == visited,
                        joined_from(bytes, table, visited, items@, i as int, acc@) == joined_from(
                            bytes,
                            table,
                            visited,
                            items@,
                            0,
                            Seq::empty(),
                        ),
                    decreases items@.len() - i,
                {
                    match self.content(&mut chain, items[i]) {
                        Err(e) => {
                            return Err(e);
                        },
                        Ok(segment) => {
                            if i == 0 {
                                acc = segment;
                            } else {
                                let ghost before = acc@;
                                acc.push(10);
                                append_bytes(&mut acc, segment.as_slice());
                                assert(acc@ =~= before + seq![10u8] + segment@);
                            }
                        },
                    }
                    i = i + 1;
                }
                Ok(acc)
            },
        }
    }
}

} // verus!
