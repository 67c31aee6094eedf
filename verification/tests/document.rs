use rpdf::error::{Context, StructuralError, StructuralReason};
use rpdf::filter::{decode, decode_deflate, flate_result, FilterError, FilterReason};
use rpdf::object::{read_object, Content, ObjectFailure};
use rpdf::pdf::{read_version, OpenError, PageError, Pdf};
use rpdf::store::{ObjectStore, ReferenceError, ResolveChain};
use rpdf::stream::Stream;
use rpdf::value::{Dict, Value};
use rpdf::xref::{
    find_start_offset, load_xref, read_section, read_sections, XrefEntry, XrefError, XrefReason,
    XrefTable,
};

/// Appends one object and returns the offset at which it starts.
fn put_object(out: &mut Vec<u8>, id: u64, body: &[u8]) -> usize {
    let at = out.len();
    out.extend_from_slice(format!("{} 0 obj\n", id).as_bytes());
    out.extend_from_slice(body);
    out.extend_from_slice(b"\nendobj\n");
    at
}

/// Appends a cross-reference section with one subsection per entry, and
/// returns the offset at which it starts.
fn put_section(out: &mut Vec<u8>, entries: &[(u64, usize, char)], trailer: &str) -> usize {
    let at = out.len();
    out.extend_from_slice(b"xref\n");
    for (id, offset, flag) in entries {
        out.extend_from_slice(format!("{} 1\n{:010} {:05} {} \n", id, offset, 0, flag).as_bytes());
    }
    out.extend_from_slice(format!("trailer\n{}\n", trailer).as_bytes());
    at
}

fn put_end(out: &mut Vec<u8>, xref_at: usize) {
    out.extend_from_slice(format!("startxref\n{}\n%%EOF\n", xref_at).as_bytes());
}

fn stream_body(dict: &str, data: &[u8]) -> Vec<u8> {
    let mut body = format!("<< /Length {} {} >>\nstream\n", data.len(), dict).into_bytes();
    body.extend_from_slice(data);
    body.extend_from_slice(b"\nendstream");
    body
}

fn one_page_pdf(contents: &str, streams: &[(u64, Vec<u8>)]) -> Vec<u8> {
    let mut out = b"%PDF-1.4\n".to_vec();
    let mut entries = vec![(0u64, 0usize, 'f')];
    let a = put_object(&mut out, 1, b"<< /Type /Catalog /Pages 2 0 R >>");
    entries.push((1, a, 'n'));
    let a = put_object(&mut out, 2, b"<< /Type /Pages /Kids [3 0 R] /Count 1 >>");
    entries.push((2, a, 'n'));
    let page = format!("<< /Type /Page /Parent 2 0 R {} >>", contents);
    let a = put_object(&mut out, 3, page.as_bytes());
    entries.push((3, a, 'n'));
    for (id, body) in streams {
        let a = put_object(&mut out, *id, body);
        entries.push((*id, a, 'n'));
    }
    let x = put_section(&mut out, &entries, "<< /Size 9 /Root 1 0 R >>");
    put_end(&mut out, x);
    out
}

#[test]
fn one_page_document_end_to_end() {
    let data = one_page_pdf("/Contents 4 0 R", &[(4, stream_body("", b"hello"))]);
    let mut pdf = Pdf::open(data).unwrap();
    assert_eq!(pdf.version(), "1.4");
    assert_eq!(pdf.root_reference(), Some((1, 0)));
    assert_eq!(pdf.trailer().get("Size"), Some(&Value::Integer(9)));
    assert_eq!(pdf.page_count(), 1);
    assert_eq!(pdf.page_content_bytes(0), Ok(b"hello".to_vec()));
    assert_eq!(pdf.page_content_bytes(1), Err(PageError::OutOfRange));
    let page = pdf.get_page(0).unwrap();
    assert_eq!(page.id, 3);
    assert_eq!(page.get("Type"), Some(&Value::Name("Page".to_string())));
    assert!(page.fill());
}

#[test]
fn crate_level_open() {
    let data = one_page_pdf("/Contents 4 0 R", &[(4, stream_body("", b"hello"))]);
    let mut pdf = rpdf::open(data.clone()).unwrap();
    assert_eq!(pdf.page_count(), 1);
    let mut pdf: rpdf::Pdf = rpdf::open_with_pwd(data, "secret").unwrap();
    assert_eq!(pdf.page_content_bytes(0), Ok(b"hello".to_vec()));
    assert_eq!(
        rpdf::open(b"no pdf".to_vec()).unwrap_err(),
        OpenError::Xref(XrefError { offset: 6, reason: XrefReason::MissingStartxref })
    );
}

#[test]
fn contents_array_is_joined_with_line_feeds() {
    let data = one_page_pdf(
        "/Contents [4 0 R 5 0 R 6 0 R]",
        &[
            (4, stream_body("", b"one")),
            (5, stream_body("", b"")),
            (6, stream_body("", b"three")),
        ],
    );
    let mut pdf = Pdf::open(data).unwrap();
    assert_eq!(pdf.page_content_bytes(0), Ok(b"one\n\nthree".to_vec()));
}

#[test]
fn page_without_contents_is_empty() {
    let data = one_page_pdf("", &[]);
    let mut pdf = Pdf::open(data).unwrap();
    assert_eq!(pdf.page_content_bytes(0), Ok(Vec::new()));
}

#[test]
fn contents_errors() {
    let data = one_page_pdf("/Contents 7", &[]);
    let mut pdf = Pdf::open(data).unwrap();
    assert_eq!(pdf.page_content_bytes(0), Err(PageError::BadContents));
    let data = one_page_pdf("/Contents 2 0 R", &[]);
    let mut pdf = Pdf::open(data).unwrap();
    assert_eq!(
        pdf.page_content_bytes(0),
        Err(PageError::Reference(ReferenceError::CyclicReference))
    );
    let data = one_page_pdf("/Contents 4 0 R", &[(4, b"<< /A 1 >>".to_vec())]);
    let mut pdf = Pdf::open(data).unwrap();
    assert_eq!(pdf.page_content_bytes(0), Err(PageError::NotAStream));
    let data = one_page_pdf("/Contents 8 0 R", &[]);
    let mut pdf = Pdf::open(data).unwrap();
    assert_eq!(pdf.page_content_bytes(0), Err(PageError::Reference(ReferenceError::NotFound)));
    let data = one_page_pdf("/Contents [4 0 R 9]", &[(4, stream_body("", b"x"))]);
    let mut pdf = Pdf::open(data).unwrap();
    assert_eq!(pdf.page_content_bytes(0), Err(PageError::BadContents));
    let data =
        one_page_pdf("/Contents 4 0 R", &[(4, stream_body("/Filter /FlateDecode", b"junk"))]);
    let mut pdf = Pdf::open(data).unwrap();
    assert_eq!(pdf.page_content_bytes(0), Err(PageError::Undecoded));
    let data = one_page_pdf("/Contents 4 1 R", &[(4, stream_body("", b"x"))]);
    let mut pdf = Pdf::open(data).unwrap();
    assert_eq!(
        pdf.page_content_bytes(0),
        Err(PageError::Reference(ReferenceError::IdGenMismatch))
    );
}

#[test]
fn compressed_content_stream() {
    let text = b"BT /F1 12 Tf (Hello, compressed world) Tj ET".to_vec();
    let packed = miniz_oxide::deflate::compress_to_vec_zlib(&text, 6);
    let data =
        one_page_pdf("/Contents 4 0 R", &[(4, stream_body("/Filter /FlateDecode", &packed))]);
    let mut pdf = Pdf::open(data).unwrap();
    assert_eq!(pdf.page_content_bytes(0), Ok(text));
}

fn flate_dict(filter: Value) -> Dict {
    let mut d = Dict::new();
    d.push("Filter".to_string(), filter);
    d
}

#[test]
fn flate_stream_round_trip() {
    let original: Vec<u8> = (0..2000u32).map(|i| (i % 7) as u8 + b'a').collect();
    let packed = miniz_oxide::deflate::compress_to_vec_zlib(&original, 9);
    assert_ne!(packed, original);
    let mut s =
        Stream::with_dict(flate_dict(Value::Name("FlateDecode".to_string())), packed.clone());
    assert!(!s.decoded);
    assert_eq!(s.decode(), Ok(()));
    assert!(s.decoded);
    assert_eq!(s.data, original);
    assert_eq!(s.decode(), Ok(()));
    assert_eq!(s.data, original);
    assert_eq!(decode_deflate(&packed, "FlateDecode"), Ok(original.clone()));
    assert_eq!(decode("FlateDecode", &packed), Ok(original.clone()));
    assert_eq!(flate_result(Ok(original.clone())), Ok(original));
}

#[test]
fn filters_in_sequence() {
    let original = b"twice packed".to_vec();
    let once = miniz_oxide::deflate::compress_to_vec_zlib(&original, 6);
    let twice = miniz_oxide::deflate::compress_to_vec_zlib(&once, 6);
    let names = Value::Array(vec![
        Value::Name("FlateDecode".to_string()),
        Value::Name("FlateDecode".to_string()),
    ]);
    let mut s = Stream::with_dict(flate_dict(names), twice);
    assert_eq!(s.decode(), Ok(()));
    assert_eq!(s.data, original);
    let mut s = Stream::new(b"raw".to_vec());
    assert_eq!(s.decode(), Ok(()));
    assert_eq!(s.data, b"raw".to_vec());
    assert!(s.decoded);
}

#[test]
fn filter_errors_keep_the_raw_bytes() {
    let mut s = Stream::with_dict(flate_dict(Value::Name("LZWDecode".to_string())), b"raw".to_vec());
    assert_eq!(
        s.decode(),
        Err(FilterError { name: "LZWDecode".to_string(), reason: FilterReason::UnsupportedFilter })
    );
    assert_eq!(s.data, b"raw".to_vec());
    assert!(!s.decoded);
    let mut s =
        Stream::with_dict(flate_dict(Value::Name("FlateDecode".to_string())), b"raw".to_vec());
    assert_eq!(
        s.decode(),
        Err(FilterError { name: "FlateDecode".to_string(), reason: FilterReason::Corrupt })
    );
    assert_eq!(s.data, b"raw".to_vec());
    let mut s = Stream::with_dict(flate_dict(Value::Integer(3)), b"raw".to_vec());
    assert_eq!(
        s.decode(),
        Err(FilterError { name: String::new(), reason: FilterReason::BadFilterEntry })
    );
    let names = Value::Array(vec![Value::Name("FlateDecode".to_string()), Value::Null]);
    let mut s = Stream::with_dict(flate_dict(names), b"raw".to_vec());
    assert_eq!(
        s.decode(),
        Err(FilterError { name: String::new(), reason: FilterReason::BadFilterEntry })
    );
    assert_eq!(
        decode_deflate(b"raw", "ASCII85Decode"),
        Err(FilterError {
            name: "ASCII85Decode".to_string(),
            reason: FilterReason::UnsupportedFilter
        })
    );
    assert_eq!(
        flate_result(Err("bad".to_string())),
        Err(FilterError { name: "FlateDecode".to_string(), reason: FilterReason::Corrupt })
    );
}

fn chained_pdf() -> (Vec<u8>, usize, usize) {
    let mut out = b"%PDF-1.5\n".to_vec();
    let root = put_object(&mut out, 1, b"<< /Type /Catalog /Pages 2 0 R >>");
    let old7 = put_object(&mut out, 7, b"<< /Which /Old >>");
    let old8 = put_object(&mut out, 8, b"<< /Which /Eight >>");
    let b = put_section(
        &mut out,
        &[(0, 0, 'f'), (1, root, 'n'), (7, old7, 'n'), (8, old8, 'n')],
        "<< /Size 9 /Root 1 0 R >>",
    );
    put_end(&mut out, b);
    let new7 = put_object(&mut out, 7, b"<< /Which /New >>");
    let a = put_section(&mut out, &[(7, new7, 'n')], &format!("<< /Size 9 /Prev {} >>", b));
    put_end(&mut out, a);
    (out, new7, old7)
}

#[test]
fn newer_section_wins_over_older() {
    let (data, new7, old7) = chained_pdf();
    let sections = read_sections(&data).unwrap();
    assert_eq!(sections.len(), 2);
    assert_eq!(
        sections[0].entries,
        vec![(7, XrefEntry::InUse { offset: new7 as u64, generation: 0 })]
    );
    assert_eq!(sections[1].entries.len(), 4);
    let x = load_xref(&data).unwrap();
    assert_eq!(x.table.get(7), Some(XrefEntry::InUse { offset: new7 as u64, generation: 0 }));
    assert_ne!(x.table.get(7), Some(XrefEntry::InUse { offset: old7 as u64, generation: 0 }));
    assert_eq!(x.table.get(0), Some(XrefEntry::Free { next_free_id: 0, generation: 0 }));
    assert_eq!(x.table.get(9), None);
    assert_eq!(x.root, Some((1, 0)));
    assert_eq!(x.trailer.get("Prev").and_then(|v| v.as_integer().ok()).is_some(), true);
    let mut pdf = Pdf::open(data).unwrap();
    let seven = pdf.resolve(7).unwrap();
    assert_eq!(seven.get("Which"), Some(&Value::Name("New".to_string())));
    assert_eq!(seven.offset, new7 as u64);
    assert_eq!(seven.entry(), XrefEntry::InUse { offset: new7 as u64, generation: 0 });
    let eight = pdf.resolve(8).unwrap();
    assert_eq!(eight.get("Which"), Some(&Value::Name("Eight".to_string())));
}

#[test]
fn later_entry_of_one_section_wins() {
    let mut t = XrefTable::new();
    let first = XrefEntry::InUse { offset: 10, generation: 0 };
    let second = XrefEntry::InUse { offset: 20, generation: 1 };
    t.insert_all(&vec![(3, first), (4, first), (3, second)]);
    assert_eq!(t.get(3), Some(second));
    assert_eq!(t.get(4), Some(first));
    t.insert(4, XrefEntry::Compressed { containing_stream_id: 9, index: 2 });
    assert_eq!(t.get(4), Some(XrefEntry::Compressed { containing_stream_id: 9, index: 2 }));
}

#[test]
fn free_id_is_not_found() {
    let data = one_page_pdf("/Contents 4 0 R", &[(4, stream_body("", b"hello"))]);
    let mut pdf = Pdf::open(data).unwrap();
    assert_eq!(pdf.resolve(0).unwrap_err(), ReferenceError::NotFound);
    assert_eq!(pdf.resolve(99).unwrap_err(), ReferenceError::NotFound);
    let mut chain = ResolveChain::new();
    assert_eq!(pdf.deref(&mut chain, 0, 0).unwrap_err(), ReferenceError::NotFound);
    assert_eq!(pdf.deref(&mut chain, -4, 0).unwrap_err(), ReferenceError::NotFound);
    assert!(chain.visited.is_empty());
}

#[test]
fn self_reference_is_a_cycle() {
    let mut out = b"%PDF-1.4\n".to_vec();
    let root = put_object(&mut out, 1, b"<< /Type /Catalog >>");
    let four = put_object(&mut out, 4, b"<< /Self 4 0 R /Other 1 0 R >>");
    let x = put_section(
        &mut out,
        &[(0, 0, 'f'), (1, root, 'n'), (4, four, 'n')],
        "<< /Size 5 /Root 1 0 R >>",
    );
    put_end(&mut out, x);
    let x = load_xref(&out).unwrap();
    let mut store = ObjectStore::new(out, x.table);
    let (id, generation) =
        store.resolve(4).unwrap().get("Self").and_then(|v| v.as_reference().ok()).unwrap();
    assert_eq!((id, generation), (4, 0));
    let mut chain = ResolveChain::new();
    let first = store.deref(&mut chain, id, generation).unwrap();
    let again = first.get("Self").and_then(|v| v.as_reference().ok()).unwrap();
    assert_eq!(chain.visited, vec![4]);
    assert_eq!(
        store.deref(&mut chain, again.0, again.1).unwrap_err(),
        ReferenceError::CyclicReference
    );
    assert_eq!(chain.visited, vec![4]);
    assert_eq!(store.deref(&mut chain, 1, 0).unwrap().id, 1);
    assert_eq!(chain.visited, vec![4, 1]);
    chain.leave();
    assert!(chain.contains(4));
    assert!(!chain.contains(1));
}

#[test]
fn open_errors() {
    assert_eq!(
        Pdf::open(b"%PDF-1.4\nnothing here".to_vec()).unwrap_err(),
        OpenError::Xref(XrefError { offset: 21, reason: XrefReason::MissingStartxref })
    );
    assert_eq!(
        Pdf::open(b"%PDF-1.4\nstartxref\nabc\n%%EOF\n".to_vec()).unwrap_err(),
        OpenError::Xref(XrefError { offset: 19, reason: XrefReason::BadStartOffset })
    );
    assert_eq!(
        Pdf::open(b"%PDF-1.4\nstartxref\n3\n%%EOF\n".to_vec()).unwrap_err(),
        OpenError::Xref(XrefError { offset: 3, reason: XrefReason::MissingXrefKeyword })
    );
    assert_eq!(
        Pdf::open(b"%PDF-1.4\nstartxref\n999\n%%EOF\n".to_vec()).unwrap_err(),
        OpenError::Xref(XrefError { offset: 999, reason: XrefReason::MissingXrefKeyword })
    );
    let mut out = b"%PDF-1.4\n".to_vec();
    let x = put_section(&mut out, &[(0, 0, 'f')], "<< /Size 1 >>");
    put_end(&mut out, x);
    assert_eq!(Pdf::open(out).unwrap_err(), OpenError::MissingRoot);
    let mut out = b"%PDF-1.4\n".to_vec();
    let x = put_section(&mut out, &[(0, 0, 'f')], "<< /Size 1 /Root 5 0 R >>");
    put_end(&mut out, x);
    assert_eq!(Pdf::open(out).unwrap_err(), OpenError::Root(ReferenceError::NotFound));
    let mut out = b"%PDF-1.4\n".to_vec();
    let x = put_section(&mut out, &[(1, 0, 'n')], "<< /Size 2 /Root 1 0 R >>");
    put_end(&mut out, x);
    assert_eq!(Pdf::open(out).unwrap_err(), OpenError::BadCatalog);
}

#[test]
fn section_errors() {
    let data = b"xref\ntrailer\n<< >>\n";
    assert_eq!(
        read_section(data, 0).unwrap_err(),
        XrefError { offset: 5, reason: XrefReason::BadSubsection }
    );
    let data = b"xref\n0 x\n";
    assert_eq!(
        read_section(data, 0).unwrap_err(),
        XrefError { offset: 7, reason: XrefReason::BadSubsection }
    );
    let data = b"xref\n0 2\n0000000000 65535 f \n0000000017 00000 x \ntrailer\n<< >>\n";
    assert_eq!(
        read_section(data, 0).unwrap_err(),
        XrefError { offset: 29, reason: XrefReason::BadEntry }
    );
    let data = b"xref\n0 1\n0000000000 65535 f \ntrailer\n<< /Size >>\n";
    assert_eq!(
        read_section(data, 0).unwrap_err(),
        XrefError {
            offset: 36,
            reason: XrefReason::BadTrailer(StructuralError {
                context: Context::Dictionary,
                offset: 45,
                reason: StructuralReason::UnexpectedToken
            })
        }
    );
    let data = b"xref\n18446744073709551615 1\n0000000000 65535 f \ntrailer\n<< >>\n";
    assert_eq!(
        read_section(data, 0).unwrap_err(),
        XrefError { offset: 5, reason: XrefReason::BadSubsection }
    );
    let data = b"xref\r\n3 2\r\n0000000100 00001 n\r\n0000000200 00000 f\r\ntrailer\r\n<< /Size 5 >>";
    let sec = read_section(data, 0).unwrap();
    assert_eq!(
        sec.entries,
        vec![
            (3, XrefEntry::InUse { offset: 100, generation: 1 }),
            (4, XrefEntry::Free { next_free_id: 200, generation: 0 })
        ]
    );
    assert_eq!(sec.trailer.get("Size"), Some(&Value::Integer(5)));
}

#[test]
fn prev_chain_that_returns_is_an_error() {
    let mut out = b"%PDF-1.4\n".to_vec();
    let at = out.len();
    let x = put_section(&mut out, &[(0, 0, 'f')], &format!("<< /Root 1 0 R /Prev {} >>", at));
    assert_eq!(x, at);
    put_end(&mut out, x);
    assert_eq!(
        read_sections(&out).unwrap_err(),
        XrefError { offset: at as u64, reason: XrefReason::PrevLoop }
    );
    let mut out = b"%PDF-1.4\n".to_vec();
    let x = put_section(&mut out, &[(0, 0, 'f')], "<< /Root 1 0 R /Prev -1 >>");
    put_end(&mut out, x);
    assert_eq!(
        read_sections(&out).unwrap_err(),
        XrefError { offset: x as u64, reason: XrefReason::BadPrevOffset }
    );
}

#[test]
fn start_offset_is_looked_for_near_the_end() {
    assert_eq!(find_start_offset(b"startxref\n1234\n%%EOF\n"), Ok(1234));
    assert_eq!(find_start_offset(b"startxref 7 startxref 9"), Ok(7));
    let mut far = b"startxref\n12\n".to_vec();
    far.extend_from_slice(&[b' '; 40]);
    far.extend_from_slice(b"%%EOF\n");
    assert_eq!(
        find_start_offset(&far),
        Err(XrefError { offset: far.len() as u64, reason: XrefReason::MissingStartxref })
    );
}

#[test]
fn objects_are_kept_with_their_failures() {
    let data = b"5 0 obj\n<< /Length 50 >>\nstream\nshort\nendstream\nendobj\n";
    let o = read_object(data, 5, 0, 0);
    assert!(!o.fill());
    assert_eq!(o.get("Length"), Some(&Value::Integer(50)));
    assert!(o.stream().is_none());
    assert_eq!(
        o.failure,
        Some(ObjectFailure::Syntax(StructuralError {
            context: Context::Object,
            offset: 32,
            reason: StructuralReason::TruncatedStream
        }))
    );
    let data = b"5 0 obj\n<< /Length (x) >>\nstream\nshort\nendstream\nendobj\n";
    let o = read_object(data, 5, 0, 0);
    assert_eq!(
        o.failure,
        Some(ObjectFailure::Syntax(StructuralError {
            context: Context::Object,
            offset: 32,
            reason: StructuralReason::BadStreamLength
        }))
    );
    let data = b"5 0 obj\n<< /A 1 >>\n6 0 obj";
    let o = read_object(data, 5, 0, 0);
    assert_eq!(o.get("A"), Some(&Value::Integer(1)));
    assert_eq!(
        o.failure,
        Some(ObjectFailure::Syntax(StructuralError {
            context: Context::Object,
            offset: 18,
            reason: StructuralReason::ExpectedEndOfObject
        }))
    );
    let data = b"  obj 5 0";
    let o = read_object(data, 5, 2, 0);
    assert_eq!(o.content, Content::Missing);
    assert_eq!(
        o.failure,
        Some(ObjectFailure::Syntax(StructuralError {
            context: Context::Object,
            offset: 2,
            reason: StructuralReason::ExpectedObjectHeader
        }))
    );
    let data = b"5 0 obj\n<< /A >>\nendobj";
    let o = read_object(data, 5, 0, 0);
    assert_eq!(o.content, Content::Missing);
    assert_eq!(
        o.failure,
        Some(ObjectFailure::Syntax(StructuralError {
            context: Context::Dictionary,
            offset: 13,
            reason: StructuralReason::UnexpectedToken
        }))
    );
    let data = b"5 0 obj\n<< /Length 3 /Filter /Nope >>\nstream\r\nabc\nendstream\nendobj\n";
    let o = read_object(data, 5, 0, 0);
    let s = o.stream().unwrap();
    assert_eq!(s.data, b"abc".to_vec());
    assert!(!s.decoded);
    assert!(o.framed);
    assert_eq!(
        o.failure,
        Some(ObjectFailure::Filter(FilterError {
            name: "Nope".to_string(),
            reason: FilterReason::UnsupportedFilter
        }))
    );
}

#[test]
fn mismatch_and_framing_are_marked() {
    let data = b"6 1 obj\n<< /A 1 >>\nendobj\n";
    let o = read_object(data, 5, 0, 0);
    assert!(o.mismatch);
    assert!(o.fill());
    assert_eq!(o.id, 5);
    assert_eq!(o.genid, 0);
    let o = read_object(data, 6, 0, 1);
    assert!(!o.mismatch);
    let data = b"5 0 obj\n<< /Length 3 >>\nstream\nabcendobj\n";
    let o = read_object(data, 5, 0, 0);
    assert_eq!(o.stream().unwrap().data, b"abc".to_vec());
    assert!(o.stream().unwrap().decoded);
    assert!(!o.framed);
    assert_eq!(o.failure, None);
    assert!(o.fill());
}

#[test]
fn version_line() {
    assert_eq!(read_version(b"%PDF-1.7\r\nrest"), "1.7");
    assert_eq!(read_version(b"%PDF-2.0\n"), "2.0");
    assert_eq!(read_version(b"%PDF-1.7"), "");
    assert_eq!(read_version(b"PDF-1.7\n"), "");
    assert_eq!(read_version(b"%PDF-\xff\n"), "");
    assert_eq!(read_version(b""), "");
}

#[test]
fn empty_document() {
    let mut pdf = Pdf::new();
    assert_eq!(pdf.version(), "");
    assert_eq!(pdf.root_reference(), None);
    assert_eq!(pdf.page_count(), 0);
    assert_eq!(pdf.get_page(0).unwrap_err(), PageError::NoCatalog);
    assert_eq!(pdf.resolve(1).unwrap_err(), ReferenceError::NotFound);
}

#[test]
fn page_tree_errors() {
    let build = |catalog: &str, pages: &str| {
        let mut out = b"%PDF-1.4\n".to_vec();
        let a = put_object(&mut out, 1, catalog.as_bytes());
        let b = put_object(&mut out, 2, pages.as_bytes());
        let x = put_section(
            &mut out,
            &[(0, 0, 'f'), (1, a, 'n'), (2, b, 'n')],
            "<< /Size 3 /Root 1 0 R >>",
        );
        put_end(&mut out, x);
        out
    };
    let mut pdf = Pdf::open(build("<< /Type /Catalog >>", "<< >>")).unwrap();
    assert_eq!(pdf.page_count(), 0);
    assert_eq!(pdf.get_page(0).unwrap_err(), PageError::NoPages);
    let mut pdf = Pdf::open(build("<< /Pages 2 0 R >>", "<< /Count 3 >>")).unwrap();
    assert_eq!(pdf.page_count(), 3);
    assert_eq!(pdf.get_page(0).unwrap_err(), PageError::NoKids);
    let mut pdf = Pdf::open(build("<< /Pages 2 0 R >>", "<< /Count -3 /Kids [5] >>")).unwrap();
    assert_eq!(pdf.page_count(), 0);
    assert_eq!(pdf.get_page(0).unwrap_err(), PageError::BadKid);
    assert_eq!(pdf.get_page(1).unwrap_err(), PageError::OutOfRange);
    let mut pdf = Pdf::open(build("<< /Pages 1 0 R >>", "<< >>")).unwrap();
    assert_eq!(pdf.page_count(), 0);
    assert_eq!(
        pdf.get_page(0).unwrap_err(),
        PageError::Reference(ReferenceError::CyclicReference)
    );
    let mut pdf =
        Pdf::open(build("<< /Pages 2 0 R >>", "<< /Count 4294967296 /Kids [1 0 R] >>")).unwrap();
    assert_eq!(pdf.page_count(), 0);
    assert_eq!(
        pdf.get_page(0).unwrap_err(),
        PageError::Reference(ReferenceError::CyclicReference)
    );
}

fn next_random(state: &mut u64) -> u8 {
    *state = state.wrapping_mul(6364136223846793005).wrapping_add(1442695040888963407);
    (*state >> 33) as u8
}

#[test]
fn damaged_input_gives_errors_not_crashes() {
    let mut state = 7u64;
    for round in 0..1500 {
        let len = (next_random(&mut state) as usize) % 64;
        let mut bytes = vec![0x78, 0x9c];
        for _ in 0..len {
            bytes.push(next_random(&mut state));
        }
        let _ = decode_deflate(&bytes, "FlateDecode");
        let _ = decode_deflate(&bytes[2..], "FlateDecode");
        let text = b"BT (page) Tj ET".to_vec();
        let packed = miniz_oxide::deflate::compress_to_vec_zlib(&text, 6);
        let mut data =
            one_page_pdf("/Contents 4 0 R", &[(4, stream_body("/Filter /FlateDecode", &packed))]);
        let hits = 1 + round % 4;
        for _ in 0..hits {
            let at = (next_random(&mut state) as usize * 256 + next_random(&mut state) as usize)
                % data.len();
            data[at] = next_random(&mut state);
        }
        if let Ok(mut pdf) = Pdf::open(data) {
            let _ = pdf.page_count();
            let _ = pdf.page_content_bytes(0);
            for id in 0..6 {
                let _ = pdf.resolve(id);
            }
        }
    }
}
