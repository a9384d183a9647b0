use std::cell::Cell;

use office_reader::artifacts::PdfCache;
use office_reader::cache::{extract_char_range, CacheManager};
use office_reader::char_index::build_char_indices;
use office_reader::documents::{
    clear_all_caches, get_all_cache_stats, pdf_result, pdf_selection, unit_read_result, validate_file_path,
    DocumentCaches,
};
use office_reader::pages::parse_pages_parameter;
use office_reader::paths::{file_name_of, generate_chunk_header, generate_file_header, resolve_file_path_string};
use office_reader::pdf::{
    backend_chain, describe_panic, dispatch, estimate_page_count, pages_attempt, text_attempt, FastPdfExtractor,
    BackendOutcome, PdfBackend, RawPdf,
};
use office_reader::slides::{extract_slide_number, order_slide_entries};
use office_reader::streaming::{break_at_word_boundary, pdf_chunk_step};
use office_reader::markdown::{docx_page_estimate, range_to_markdown_table};
use office_reader::text::decimal_string;
use office_reader::slide_xml::{extract_text_from_slide_xml, slide_text_from_events, XmlEvent};
use office_reader::results::{
    DocumentPageInfo, DocumentPageInfoResult, DocumentProcessingResult, PageBasedDocumentContent, SlideSnapshot,
    SlideSnapshotResult,
};

#[test]
fn pages_all_and_blank_select_everything() {
    assert_eq!(parse_pages_parameter("all", 4).unwrap(), vec![1, 2, 3, 4]);
    assert_eq!(parse_pages_parameter("ALL", 4).unwrap(), vec![1, 2, 3, 4]);
    assert_eq!(parse_pages_parameter("", 4).unwrap(), vec![1, 2, 3, 4]);
    assert_eq!(parse_pages_parameter("  ", 0).unwrap(), Vec::<usize>::new());
}

#[test]
fn pages_sorted_and_deduplicated() {
    assert_eq!(parse_pages_parameter("5,1,3", 5).unwrap(), vec![1, 3, 5]);
    assert_eq!(parse_pages_parameter("1,3-5", 5).unwrap(), vec![1, 3, 4, 5]);
    assert_eq!(parse_pages_parameter("4-5, 2 ,5,1-2", 5).unwrap(), vec![1, 2, 4, 5]);
    assert_eq!(parse_pages_parameter("1,1", 1).unwrap(), vec![1]);
    assert_eq!(parse_pages_parameter("1-1", 3).unwrap(), vec![1]);
}

#[test]
fn pages_rejected() {
    assert_eq!(parse_pages_parameter("1-2-3", 5).unwrap_err(), "Invalid range format: 1-2-3");
    assert_eq!(parse_pages_parameter("0", 5).unwrap_err(), "Page numbers must start from 1");
    assert_eq!(parse_pages_parameter("6", 5).unwrap_err(), "Page 6 exceeds total pages (5)");
    assert_eq!(parse_pages_parameter("3-2", 5).unwrap_err(), "Invalid range: 3 > 2");
    assert_eq!(parse_pages_parameter("x", 5).unwrap_err(), "Invalid page number: x");
    assert_eq!(parse_pages_parameter("2-9", 5).unwrap_err(), "Page 9 exceeds total pages (5)");
    assert_eq!(parse_pages_parameter("a-2", 5).unwrap_err(), "Invalid page number: a");
}

fn cache_of(text: &str) -> PdfCache {
    PdfCache::from_text(text.to_string(), Some(1))
}

#[test]
fn char_indices_mark_character_starts() {
    assert_eq!(build_char_indices("aé€😀"), vec![0, 1, 3, 6, 10]);
    assert_eq!(build_char_indices(""), vec![0]);
}

#[test]
fn char_range_round_trip_and_bounds() {
    let text = "héllo wörld";
    let c = cache_of(text);
    assert_eq!(extract_char_range(&c, 0, 11).unwrap(), text);
    assert_eq!(extract_char_range(&c, 0, 500).unwrap(), text);
    assert_eq!(extract_char_range(&c, 11, 20).unwrap(), "");
    assert_eq!(extract_char_range(&c, 40, 50).unwrap(), "");
    assert_eq!(extract_char_range(&c, 40, 3).unwrap(), "");
    let part = extract_char_range(&c, 1, 8).unwrap();
    assert_eq!(part, "éllo wö");
    assert_eq!(part.len(), c.char_indices[8] - c.char_indices[1]);
}

#[test]
fn second_request_is_served_from_cache() {
    let calls = Cell::new(0usize);
    let mut cache: CacheManager<PdfCache> = CacheManager::new();
    let extractor = |_p: &str| -> Result<PdfCache, String> {
        calls.set(calls.get() + 1);
        Ok(cache_of("cached text"))
    };
    let first = cache.get_or_cache("/x/a.pdf", Some(10), extractor).unwrap();
    let extractor = |_p: &str| -> Result<PdfCache, String> {
        calls.set(calls.get() + 1);
        Ok(cache_of("other text"))
    };
    let second = cache.get_or_cache("/x/a.pdf", Some(10), extractor).unwrap();
    assert_eq!(calls.get(), 1);
    assert_eq!(first.content, second.content);
    assert_eq!(cache.get_stats(), (1, 11 + 12 * std::mem::size_of::<usize>()));
}

#[test]
fn modified_file_is_extracted_again() {
    let calls = Cell::new(0usize);
    let mut cache: CacheManager<PdfCache> = CacheManager::new();
    let make = |t: &'static str| {
        let calls = &calls;
        move |_p: &str| -> Result<PdfCache, String> {
            calls.set(calls.get() + 1);
            Ok(cache_of(t))
        }
    };
    cache.get_or_cache("/x/a.pdf", Some(10), make("old")).unwrap();
    let fresh = cache.get_or_cache("/x/a.pdf", Some(11), make("new")).unwrap();
    assert_eq!(calls.get(), 2);
    assert_eq!(fresh.content, "new");
    let again = cache.get_or_cache("/x/a.pdf", None, make("unused")).unwrap();
    assert_eq!(again.content, "new");
    assert_eq!(calls.get(), 2);
    cache.cleanup(&[Some(12)]);
    assert_eq!(cache.get_stats().0, 0);
}

#[test]
fn failed_extraction_is_not_cached() {
    let mut cache: CacheManager<PdfCache> = CacheManager::new();
    let r = cache.get_or_cache("/x/b.pdf", Some(1), |_p: &str| -> Result<PdfCache, String> { Err("bad".to_string()) });
    assert_eq!(r.err().unwrap(), "bad");
    assert_eq!(cache.get_stats(), (0, 0));
}

#[test]
fn clearing_empties_stats() {
    let mut caches = DocumentCaches::new();
    caches.pdf.get_or_cache("/x/a.pdf", None, |_p: &str| -> Result<PdfCache, String> { Ok(cache_of("abc")) }).unwrap();
    assert_eq!(get_all_cache_stats(&caches).0, 1);
    clear_all_caches(&mut caches);
    assert_eq!(get_all_cache_stats(&caches), (0, 0));
}

#[test]
fn units_note_when_format_has_no_units() {
    let cache: CacheManager<PdfCache> = CacheManager::new();
    let c = PdfCache::from_text("body".to_string(), None);
    let r = cache
        .extract_units(&c, &[1, 3], "/d/file.pdf", |_p: &str, _u: &[usize]| -> Result<String, String> {
            Err("not called".to_string())
        })
        .unwrap();
    assert_eq!(
        r,
        "# file.pdf\n\n## Content (Requested Units: [1, 3])\n\n*Note: Unit-specific extraction not available. Returning full document.*\n\nbody"
    );
}

#[test]
fn dispatcher_takes_first_success() {
    let chain = backend_chain(&[PdfBackend::Pdfium]);
    assert_eq!(chain, vec![PdfBackend::Pdfium, PdfBackend::PdfExtract]);
    let attempt = |b: PdfBackend| -> Result<String, String> {
        match b {
            PdfBackend::PdfExtract => Ok("second".to_string()),
            _ => Err("first failed".to_string()),
        }
    };
    assert_eq!(dispatch(&chain, &attempt, "none".to_string()).unwrap(), "second");
}

#[test]
fn dispatcher_reports_all_failed() {
    let chain = backend_chain(&[PdfBackend::Pdfium, PdfBackend::Poppler]);
    assert_eq!(chain, vec![PdfBackend::Pdfium, PdfBackend::Poppler, PdfBackend::PdfExtract]);
    let attempt = |_b: PdfBackend| -> Result<String, String> { Err("no".to_string()) };
    let r = FastPdfExtractor::extract_text(&chain, "/d/broken.pdf", &attempt);
    assert_eq!(r.unwrap_err(), "All PDF extraction backends failed for file: /d/broken.pdf. Last error: no");
}

#[test]
fn encoding_panic_is_explained() {
    let r = text_attempt(PdfBackend::PdfExtract, BackendOutcome::Panicked("unsupported encoding GBK-EUC-H".to_string()));
    let e = r.unwrap_err();
    assert!(e.contains("encoding"));
    assert!(e.starts_with("PDF contains unsupported text encoding (unsupported encoding GBK-EUC-H)."));
    assert_eq!(describe_panic("index out of bounds"), "pdf-extract backend panicked: index out of bounds");
}

#[test]
fn encoding_panic_on_pages_gives_notice() {
    let r = pages_attempt(
        PdfBackend::PdfExtract,
        BackendOutcome::Panicked("unsupported encoding".to_string()),
        &[2],
        "/d/cjk.pdf",
    )
    .unwrap();
    assert!(r.starts_with("=== PDF Text Extraction Notice ===\n\nFile: cjk.pdf\nRequested pages: [2]\n\n"));
}

#[test]
fn fallback_pages_split_on_form_feeds() {
    let raw = RawPdf::FullText("one\u{c}two\u{c}three".to_string());
    let r = pages_attempt(PdfBackend::PdfExtract, BackendOutcome::Completed(raw), &[3, 1], "/d/f.pdf").unwrap();
    assert_eq!(r, "=== Page 3 ===\nthree\n\n=== Page 1 ===\none\n\n");
    let raw = RawPdf::FullText("one\u{c}two".to_string());
    let e = pages_attempt(PdfBackend::PdfExtract, BackendOutcome::Completed(raw), &[4], "/d/f.pdf").unwrap_err();
    assert_eq!(e, "Page 4 is out of range (1-2)");
}

#[test]
fn native_pages_joined_for_text() {
    let raw = RawPdf::PageTexts(vec!["a".to_string(), "b".to_string()]);
    assert_eq!(text_attempt(PdfBackend::MuPDF, BackendOutcome::Completed(raw)).unwrap(), "a\nb\n");
}

#[test]
fn page_estimates() {
    assert_eq!(estimate_page_count(""), 1);
    assert_eq!(estimate_page_count(&"y".repeat(9000)), 3);
    assert_eq!(estimate_page_count("a\u{c}b\u{c}c"), 2);
    assert_eq!(estimate_page_count("a\u{c}b"), 1);
    assert_eq!(estimate_page_count(&"é".repeat(3000)), 1);
    assert_eq!(estimate_page_count(&("z".repeat(9000) + "\u{c}")), 1);
    assert_eq!(docx_page_estimate(0), 1);
    assert_eq!(docx_page_estimate(25), 1);
    assert_eq!(docx_page_estimate(60), 2);
}

#[test]
fn chunk_steps_always_finish() {
    for max in [1usize, 3, 7, 60, 100, 10000] {
        let text = "word ".repeat(97) + "tail";
        let c = cache_of(&text);
        let total = text.chars().count();
        let mut cursor = 0usize;
        let mut steps = 0usize;
        loop {
            let p = pdf_chunk_step("/d/s.pdf", &c, cursor, max);
            steps += 1;
            assert!(p.current_page > cursor || p.is_complete);
            cursor = p.current_page;
            if p.is_complete {
                break;
            }
        }
        let g = std::cmp::max(1, max / 10);
        assert!(steps <= (total + g - 1) / g + 1);
    }
}

#[test]
fn chunk_step_backs_off_to_a_space() {
    let text = format!("{} {}", "a".repeat(60), "b".repeat(60));
    let c = cache_of(&text);
    let p = pdf_chunk_step("/d/s.pdf", &c, 0, 100);
    assert_eq!(p.current_page, 61);
    assert!(p.current_chunk.starts_with("# s.pdf\n\n## characters 1 (chars 0-100)\n\n"));
    let p = pdf_chunk_step("/d/s.pdf", &c, 121, 100);
    assert!(p.is_complete);
    assert_eq!(p.current_chunk, "");
}

#[test]
fn word_boundary_break() {
    assert_eq!(break_at_word_boundary("short", 10), "short");
    assert_eq!(break_at_word_boundary("hello world again", 12), "hello world ");
    assert_eq!(break_at_word_boundary("abcdefghij", 4), "abcd");
    assert_eq!(break_at_word_boundary("éa b", 4), "éa b");
    assert_eq!(break_at_word_boundary("éa bc", 4), "éa ");
}

#[test]
fn headers_and_names() {
    assert_eq!(generate_file_header("/a/b/report.pdf"), "# report.pdf\n\n");
    assert_eq!(generate_chunk_header(2, 10, 20, "characters"), "## characters 2 (chars 10-20)\n\n");
    assert_eq!(file_name_of("dir/sub/"), "sub");
    assert_eq!(decimal_string(0), "0");
    assert_eq!(decimal_string(12345), "12345");
}

#[test]
fn file_validation() {
    assert_eq!(validate_file_path("/a/x.PDF", true).unwrap(), "pdf");
    assert_eq!(validate_file_path("/a/x.xls", true).unwrap(), "xls");
    assert_eq!(validate_file_path("/a/x.pdf", false).unwrap_err(), "File not found: /a/x.pdf");
    assert_eq!(validate_file_path("/a/README", true).unwrap_err(), "Unable to determine file type from extension");
    assert_eq!(validate_file_path("/a/.hidden", true).unwrap_err(), "Unable to determine file type from extension");
    assert_eq!(validate_file_path("/a/x.Zip", true).unwrap_err(), "Unsupported file type: .zip");
}

#[test]
fn markdown_table_rendering() {
    let rows = vec![vec!["a".to_string(), "b".to_string()], vec!["1".to_string()]];
    assert_eq!(range_to_markdown_table(&rows, 2), "| a | b | \n| --- | --- | \n| 1 |  | \n");
    assert_eq!(range_to_markdown_table(&Vec::new(), 3), "Empty sheet");
}

#[test]
fn slide_parts_in_order() {
    assert_eq!(extract_slide_number("ppt/slides/slide12.xml"), 12);
    assert_eq!(extract_slide_number("ppt/slides/slideX.xml"), 0);
    let names = vec![
        "ppt/slides/slide10.xml".to_string(),
        "docProps/app.xml".to_string(),
        "ppt/slides/slide2.xml".to_string(),
        "ppt/slides/_rels/slide2.xml.rels".to_string(),
        "ppt/slides/slide1.xml".to_string(),
    ];
    assert_eq!(
        order_slide_entries(&names),
        vec![
            "ppt/slides/slide1.xml".to_string(),
            "ppt/slides/slide2.xml".to_string(),
            "ppt/slides/slide10.xml".to_string()
        ]
    );
}

#[test]
fn path_resolution() {
    assert_eq!(resolve_file_path_string("/abs/f.pdf", None, false, Ok("/cwd".to_string())).unwrap(), "/abs/f.pdf");
    assert!(resolve_file_path_string("/abs/f.pdf", Some("/root"), true, Ok("/cwd".to_string())).is_err());
    assert_eq!(resolve_file_path_string("f.pdf", Some("/root/"), true, Ok("/cwd".to_string())).unwrap(), "/root/f.pdf");
    assert_eq!(resolve_file_path_string("f.pdf", None, false, Ok("/cwd".to_string())).unwrap(), "/cwd/f.pdf");
    assert_eq!(
        resolve_file_path_string("f.pdf", Some("/gone"), false, Ok("/cwd".to_string())).unwrap_err(),
        "PROJECT_ROOT directory does not exist: /gone"
    );
}

#[test]
fn slide_xml_text_runs() {
    let xml = r#"<?xml version="1.0"?><p:sld><p:sp><a:t>Hello</a:t><a:x>skip</a:x><a:t>World</a:t></p:sp></p:sld>"#;
    assert_eq!(extract_text_from_slide_xml(xml), "Hello World");
    assert_eq!(extract_text_from_slide_xml("<a:t>only</a:t"), "only");
    assert_eq!(extract_text_from_slide_xml(""), "");
    assert_eq!(extract_text_from_slide_xml("<a:t>A &amp; B</a:t>"), "A & B");
}

#[test]
fn slide_text_from_event_list() {
    let events = vec![
        XmlEvent::Text("outside".to_string()),
        XmlEvent::Start("a:t".to_string()),
        XmlEvent::Text("in".to_string()),
        XmlEvent::End("a:t".to_string()),
        XmlEvent::Text("after".to_string()),
        XmlEvent::Eof,
        XmlEvent::Start("a:t".to_string()),
        XmlEvent::Text("ignored".to_string()),
    ];
    assert_eq!(slide_text_from_events(&events), "in");
}

#[test]
fn client_reports() {
    let info = DocumentPageInfo::from_result(DocumentPageInfoResult::error("a.pdf".to_string(), "file_not_found".to_string()));
    assert!(!info.file_exists);
    assert_eq!(info.summary(), "File: a.pdf\nFile not found");
    let info = DocumentPageInfo::from_result(DocumentPageInfoResult::success("a.pdf".to_string(), Some(3), "PDF file with 3 pages".to_string()));
    assert_eq!(info.summary(), "File: a.pdf\nTotal pages: 3\nPDF file with 3 pages");
    let content = PageBasedDocumentContent::from_result(DocumentProcessingResult::success(
        "body".to_string(), Some(4), "1,3".to_string(), vec![1, 3], "b.pdf".to_string(),
    ));
    assert_eq!(content.text(), "File: b.pdf\nTotal pages: 4\nRequested pages: 1,3\nReturned pages: [1, 3]\n\nbody");
    let snap = SlideSnapshot::from_result(SlideSnapshotResult::success(2, vec![1, 2, 3], "png".to_string()));
    assert_eq!(snap.summary(), "Slide 2 snapshot (png format, 3 bytes)");
    let snap = SlideSnapshot::from_result(SlideSnapshotResult::error(0, "Slide number must be greater than 0".to_string()));
    assert_eq!(snap.summary(), "Slide 0: Error - Slide number must be greater than 0");
}

#[test]
fn bytes_dispatch_failure_message() {
    let chain = backend_chain(&[]);
    let attempt = |_b: PdfBackend| -> Result<String, String> { Err("no".to_string()) };
    assert_eq!(
        FastPdfExtractor::extract_text_from_bytes(&chain, &attempt).unwrap_err(),
        "All PDF extraction backends failed for byte array. Last error: no"
    );
}

#[test]
fn encoding_markers_and_backend_info() {
    assert!(FastPdfExtractor::check_encoding_compatibility("%PDF-1.4 /Encoding /WinAnsiEncoding"));
    assert!(!FastPdfExtractor::check_encoding_compatibility("%PDF-1.4 /Encoding /UniGB-UCS2-H"));
    let info = FastPdfExtractor::get_backend_info(&[PdfBackend::MuPDF]);
    assert_eq!(info.len(), 2);
    assert_eq!(info[0].0, PdfBackend::MuPDF);
    assert_eq!(info[1], (PdfBackend::PdfExtract, "pdf-extract (slowest, fallback, limited encoding support)", true));
}

#[test]
fn page_count_through_chain() {
    let chain = backend_chain(&[]);
    let attempt = |b: PdfBackend| -> Result<usize, String> {
        office_reader::pdf::count_attempt(b, BackendOutcome::Completed(RawPdf::FullText("a\u{c}b\u{c}c".to_string())))
    };
    assert_eq!(FastPdfExtractor::get_page_count(&chain, "/d/x.pdf", &attempt).unwrap(), 2);
    let failing = |_b: PdfBackend| -> Result<String, String> { Err("x".to_string()) };
    assert_eq!(
        FastPdfExtractor::extract_pages_text(&chain, "/d/x.pdf", &failing).unwrap_err(),
        "All PDF extraction backends failed for page extraction from file: /d/x.pdf. Last error: x"
    );
}

#[test]
fn result_assembly() {
    let ok = unit_read_result("/a/b.xlsx", "2", 3, vec![2], Ok("body".to_string()), "Failed: ");
    assert_eq!(ok.content, "body");
    assert_eq!(ok.total_pages, Some(3));
    assert_eq!(ok.requested_pages, "2");
    let failed = unit_read_result("/a/b.xlsx", "2", 3, vec![2], Err("gone".to_string()), "Failed: ");
    assert_eq!(failed.error.as_deref(), Some("Failed: gone"));
    assert!(failed.returned_pages.is_empty());

    let cached: Result<PdfCache, String> = Ok(PdfCache::from_text("t".to_string(), Some(4)));
    let (total, sel) = match pdf_selection("/a/r.pdf", "2-3", &cached) {
        Ok(v) => v,
        Err(_) => panic!("selection should be accepted"),
    };
    assert_eq!((total, sel.clone()), (4, vec![2, 3]));
    let r = pdf_result("/a/r.pdf", "2-3", total, sel, Ok("PAGES".to_string()));
    assert_eq!(r.content, "# r.pdf\n\n## Content (Pages: 2-3)\n\nPAGES");
    let missing: Result<PdfCache, String> = Err("no engine".to_string());
    match pdf_selection("/a/r.pdf", "1", &missing) {
        Err(f) => assert_eq!(f.error.as_deref(), Some("Failed to get PDF content: no engine")),
        Ok(_) => panic!("a missing document has no selection"),
    }
    let uncounted: Result<PdfCache, String> = Ok(PdfCache::from_text("t".to_string(), None));
    match pdf_selection("/a/r.pdf", "1", &uncounted) {
        Err(f) => assert_eq!(f.error.as_deref(), Some("Failed to determine PDF page count")),
        Ok(_) => panic!("a document without a page count has no selection"),
    }
}

#[test]
fn encoding_failure_survives_the_chain() {
    let chain = backend_chain(&[PdfBackend::Poppler]);
    let attempt = |b: PdfBackend| -> Result<String, String> {
        match b {
            PdfBackend::PdfExtract => {
                text_attempt(b, BackendOutcome::Panicked("unsupported encoding GBK-EUC-H".to_string()))
            }
            _ => Err("cannot open".to_string()),
        }
    };
    let e = FastPdfExtractor::extract_text(&chain, "a.pdf", &attempt).unwrap_err();
    assert!(e.starts_with("All PDF extraction backends failed for file: a.pdf. Last error: PDF contains unsupported text encoding"));
    assert!(e.contains("encoding"));
}
