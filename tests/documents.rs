use office_reader::artifacts::SlideText;
use office_reader::documents::{
    extract_char_range_from_cache, extract_pages_from_cache, generate_slide_snapshot, get_cache_stats,
    get_document_page_info, get_or_cache_pdf_content, get_powerpoint_slide_info, process_document_with_pages,
    process_pdf_with_pages, process_powerpoint_with_slides, DocumentCaches, DocumentSource,
};
use office_reader::markdown::read_excel_to_markdown;
use office_reader::results::StreamingConfig;
use office_reader::streaming::{stream_excel_to_markdown, stream_pdf_to_markdown};
use office_reader::markdown::Sheet;
use office_reader::pdf::{BackendOutcome, PdfBackend, RawPdf};
use office_reader::results::DocumentProcessingResult;

/// A document source that serves fixed contents from memory.
struct MemorySource {
    existing: Vec<String>,
    native_pages: Option<Vec<String>>,
    fallback_text: Option<String>,
    sheets: Vec<Sheet>,
    slides: Vec<(usize, String)>,
}

impl MemorySource {
    fn empty() -> Self {
        MemorySource { existing: Vec::new(), native_pages: None, fallback_text: None, sheets: Vec::new(), slides: Vec::new() }
    }
}

impl DocumentSource for MemorySource {
    fn file_exists(&self, path: &str) -> bool {
        self.existing.iter().any(|p| p == path)
    }

    fn modified_time(&self, _path: &str) -> Option<u64> {
        Some(1)
    }

    fn available_pdf_backends(&self) -> Vec<PdfBackend> {
        if self.native_pages.is_some() {
            vec![PdfBackend::Pdfium]
        } else {
            Vec::new()
        }
    }

    fn read_pdf(&self, backend: PdfBackend, path: &str) -> BackendOutcome<RawPdf> {
        if !self.file_exists(path) {
            return BackendOutcome::Failed(format!("cannot open {}", path));
        }
        match backend {
            PdfBackend::PdfExtract => match &self.fallback_text {
                Some(t) => BackendOutcome::Completed(RawPdf::FullText(t.clone())),
                None => BackendOutcome::Failed("no text".to_string()),
            },
            _ => match &self.native_pages {
                Some(p) => BackendOutcome::Completed(RawPdf::PageTexts(p.clone())),
                None => BackendOutcome::Failed("unavailable".to_string()),
            },
        }
    }

    fn read_workbook(&self, path: &str) -> Result<Vec<Sheet>, String> {
        if !self.file_exists(path) {
            return Err("cannot open".to_string());
        }
        Ok(self
            .sheets
            .iter()
            .map(|s| Sheet { name: s.name.clone(), rows: s.rows.clone(), width: s.width })
            .collect())
    }

    fn read_docx(&self, _path: &str) -> Result<(String, Option<usize>), String> {
        Err("not a document".to_string())
    }

    fn read_slides(&self, path: &str) -> Result<Vec<SlideText>, String> {
        if !self.file_exists(path) {
            return Err("not a presentation".to_string());
        }
        Ok(self.slides.iter().map(|(n, t)| SlideText { number: *n, text: t.clone() }).collect())
    }

    fn count_slides(&self, path: &str) -> Result<usize, String> {
        if !self.file_exists(path) {
            return Err("not a presentation".to_string());
        }
        Ok(self.slides.len())
    }

    fn render_slide(&self, _path: &str, n: usize, _format: &str) -> Result<Vec<u8>, String> {
        Ok(vec![n as u8; 4])
    }
}

fn sheet(name: &str, cell: &str) -> Sheet {
    Sheet {
        name: name.to_string(),
        rows: Some(vec![vec!["Header".to_string()], vec![cell.to_string()]]),
        width: 1,
    }
}

#[test]
fn test_process_document_with_pages_file_not_found() {
    let source = MemorySource::empty();
    let mut caches = DocumentCaches::new();
    let result = process_document_with_pages(&source, &mut caches, "nonexistent_file.xlsx", Some("1,2".to_string()));

    assert_eq!(result.file_path, "nonexistent_file.xlsx");
    assert_eq!(result.total_pages, None);
    assert_eq!(result.requested_pages, "");
    assert_eq!(result.returned_pages, Vec::<usize>::new());
    assert!(result.content.contains("File not found"));
    assert!(result.error.is_some());
}

#[test]
fn test_get_document_page_info_file_not_found() {
    let source = MemorySource::empty();
    let mut caches = DocumentCaches::new();
    let result = get_document_page_info(&source, &mut caches, "nonexistent_file.xlsx");

    assert_eq!(result.file_path, "nonexistent_file.xlsx");
    assert_eq!(result.total_pages, None);
    assert_eq!(result.page_info, "");
    assert_eq!(result.error.as_ref().unwrap(), "file_not_found");
}

#[test]
fn test_document_processing_result_page_based_error() {
    let result = DocumentProcessingResult::error("test.pdf".to_string(), "Test error message".to_string());

    assert_eq!(result.content, "Test error message");
    assert_eq!(result.total_pages, None);
    assert_eq!(result.requested_pages, "");
    assert_eq!(result.returned_pages, Vec::<usize>::new());
    assert_eq!(result.file_path, "test.pdf");
    assert_eq!(result.error.as_ref().unwrap(), "Test error message");
}

#[test]
fn test_process_pdf_with_pages_uses_actual_page_count() {
    let source = MemorySource::empty();
    let mut caches = DocumentCaches::new();
    let result = process_pdf_with_pages(&source, &mut caches, "nonexistent.pdf", "1");

    assert!(result.error.is_some());
    assert!(result.content.contains("Failed to get PDF content") || result.content.contains("File not found"));
}

#[test]
fn test_page_counting_integration() {
    let source = MemorySource { existing: vec!["/tmp/notes.unsupported".to_string()], ..MemorySource::empty() };
    let mut caches = DocumentCaches::new();

    let excel_result = get_document_page_info(&source, &mut caches, "nonexistent.xlsx");
    assert_eq!(excel_result.error.as_ref().unwrap(), "file_not_found");

    let pdf_result = get_document_page_info(&source, &mut caches, "nonexistent.pdf");
    assert!(pdf_result.error.is_some());

    let docx_result = get_document_page_info(&source, &mut caches, "nonexistent.docx");
    assert_eq!(docx_result.error.as_ref().unwrap(), "file_not_found");

    let unsupported_result = get_document_page_info(&source, &mut caches, "/tmp/notes.unsupported");
    assert!(unsupported_result.error.is_some());
    let error_msg = unsupported_result.error.as_ref().unwrap();
    assert!(error_msg.contains("Unsupported file type") || error_msg.contains("Unable to determine file type"));
}

#[test]
fn test_pdf_page_extraction_integration() {
    let source = MemorySource::empty();
    let mut caches = DocumentCaches::new();
    let result = process_pdf_with_pages(&source, &mut caches, "nonexistent.pdf", "1,3,5");

    assert!(result.error.is_some());
    assert!(result.content.contains("Failed to get PDF content") || result.content.contains("File not found"));

    let result = process_pdf_with_pages(&source, &mut caches, "nonexistent.pdf", "invalid");
    assert!(result.error.is_some());
    assert!(result.content.contains("Failed to get PDF content") || result.content.contains("File not found"));
}

#[test]
fn test_pdf_page_extraction_with_valid_pages_parameter() {
    let source = MemorySource::empty();
    let mut caches = DocumentCaches::new();
    let result = process_pdf_with_pages(&source, &mut caches, "nonexistent.pdf", "1-3,5");

    assert!(result.error.is_some());
    assert!(result.content.contains("Failed to get PDF content") || result.content.contains("File not found"));
    assert_eq!(result.requested_pages, "");
    assert_eq!(result.returned_pages, Vec::<usize>::new());
}

#[test]
fn workbook_second_sheet_only() {
    let source = MemorySource {
        existing: vec!["/data/book.xlsx".to_string()],
        sheets: vec![sheet("First", "alpha"), sheet("Second", "beta"), sheet("Third", "gamma")],
        ..MemorySource::empty()
    };
    let mut caches = DocumentCaches::new();
    let result = process_document_with_pages(&source, &mut caches, "/data/book.xlsx", Some("2".to_string()));

    assert!(result.error.is_none());
    assert_eq!(result.returned_pages, vec![2]);
    assert_eq!(result.total_pages, Some(3));
    assert!(result.content.contains("beta"));
    assert!(!result.content.contains("alpha"));
    assert!(!result.content.contains("gamma"));
    assert_eq!(
        result.content,
        "# book.xlsx\n\n## Sheet 2: Second\n\n| Header | \n| --- | \n| beta | \n\n\n"
    );
}

#[test]
fn workbook_page_info_lists_sheets() {
    let source = MemorySource {
        existing: vec!["/data/book.xlsx".to_string()],
        sheets: vec![sheet("First", "alpha"), sheet("Second", "beta")],
        ..MemorySource::empty()
    };
    let mut caches = DocumentCaches::new();
    let info = get_document_page_info(&source, &mut caches, "/data/book.xlsx");
    assert_eq!(info.total_pages, Some(2));
    assert_eq!(info.page_info, "Excel file with 2 sheets:\n  1: First\n  2: Second");
    assert!(info.file_exists());
}

#[test]
fn ten_page_pdf_selection() {
    let pages: Vec<String> = (1..=10).map(|i| format!("text of page {}", i)).collect();
    let source = MemorySource {
        existing: vec!["/docs/report.pdf".to_string()],
        native_pages: Some(pages),
        ..MemorySource::empty()
    };
    let mut caches = DocumentCaches::new();
    let result = process_document_with_pages(&source, &mut caches, "/docs/report.pdf", Some("1,3,5-7".to_string()));

    assert!(result.error.is_none());
    assert_eq!(result.returned_pages, vec![1, 3, 5, 6, 7]);
    assert_eq!(result.total_pages, Some(10));
    assert!(result.content.starts_with("# report.pdf\n\n## Content (Pages: 1,3,5-7)\n\n"));
    assert!(result.content.contains("=== Page 3 ===\ntext of page 3\n\n"));
    assert!(!result.content.contains("text of page 2\n"));
}

#[test]
fn fallback_pdf_without_page_breaks() {
    let text = "x".repeat(7000);
    let source = MemorySource {
        existing: vec!["/docs/plain.pdf".to_string()],
        fallback_text: Some(text.clone()),
        ..MemorySource::empty()
    };
    let mut caches = DocumentCaches::new();
    let result = process_document_with_pages(&source, &mut caches, "/docs/plain.pdf", Some("all".to_string()));

    assert!(result.error.is_none());
    // 7000 bytes at 3000 characters per page
    assert_eq!(result.total_pages, Some(2));
    assert_eq!(result.returned_pages, vec![1, 2]);
    assert!(result.content.contains("cannot extract specific pages"));
    assert!(result.content.ends_with(&text));
}

#[test]
fn invalid_selection_is_reported() {
    let source = MemorySource {
        existing: vec!["/data/book.xlsx".to_string()],
        sheets: vec![sheet("Only", "v")],
        ..MemorySource::empty()
    };
    let mut caches = DocumentCaches::new();
    let result = process_document_with_pages(&source, &mut caches, "/data/book.xlsx", Some("999".to_string()));
    assert_eq!(result.error.as_deref(), Some("Invalid pages parameter: Page 999 exceeds total pages (1)"));
    assert!(result.returned_pages.is_empty());
    assert_eq!(result.requested_pages, "");
}

#[test]
fn unsupported_extension_message() {
    let source = MemorySource { existing: vec!["/a/notes.TXT".to_string()], ..MemorySource::empty() };
    let mut caches = DocumentCaches::new();
    let result = process_document_with_pages(&source, &mut caches, "/a/notes.TXT", None);
    assert_eq!(result.error.as_deref(), Some("Unsupported file type: .txt"));
}

fn deck() -> MemorySource {
    MemorySource {
        existing: vec!["/p/deck.pptx".to_string()],
        slides: vec![(1, "Intro".to_string()), (2, "   ".to_string()), (3, "End".to_string())],
        ..MemorySource::empty()
    }
}

#[test]
fn presentation_slides_selected() {
    let source = deck();
    let mut caches = DocumentCaches::new();
    let all = process_powerpoint_with_slides(&source, &mut caches, "/p/deck.pptx", None);
    assert_eq!(all.content, "# deck.pptx\n\n## Slide 1\n\nIntro\n\n## Slide 3\n\nEnd\n\n");
    assert_eq!(all.returned_slides, vec![1, 2, 3]);
    assert_eq!(all.requested_slides, "all");
    let some = process_powerpoint_with_slides(&source, &mut caches, "/p/deck.pptx", Some("3,2".to_string()));
    assert_eq!(some.content, "# deck.pptx\n\n## Slide 3\n\nEnd\n\n");
    assert_eq!(some.returned_slides, vec![2, 3]);
    let info = get_powerpoint_slide_info(&source, &mut caches, "/p/deck.pptx");
    assert_eq!(info.total_slides, Some(3));
    assert_eq!(info.slide_info, "PowerPoint file with 3 slides");
    let missing = get_powerpoint_slide_info(&source, &mut caches, "/p/none.pptx");
    assert_eq!(missing.error.as_deref(), Some("file_not_found"));
    assert!(!missing.file_exists());
}

#[test]
fn slide_snapshot_checks() {
    let source = deck();
    assert_eq!(
        generate_slide_snapshot(&source, "/p/deck.pptx", 0, "png").error.as_deref(),
        Some("Slide number must be greater than 0")
    );
    assert_eq!(
        generate_slide_snapshot(&source, "/p/deck.pptx", 1, "gif").error.as_deref(),
        Some("Unsupported format 'gif'. Supported formats: png, jpg, jpeg")
    );
    assert_eq!(
        generate_slide_snapshot(&source, "/p/other.pptx", 1, "png").error.as_deref(),
        Some("PowerPoint file not found: /p/other.pptx")
    );
    assert_eq!(
        generate_slide_snapshot(&source, "/p/deck.pptx", 4, "PNG").error.as_deref(),
        Some("Slide 4 does not exist. File has 3 slides")
    );
    let ok = generate_slide_snapshot(&source, "/p/deck.pptx", 2, "JPG");
    assert!(ok.error.is_none());
    assert_eq!(ok.image_data, Some(vec![2, 2, 2, 2]));
    assert_eq!(ok.image_format, "JPG");
}

#[test]
fn pdf_stream_ends_complete() {
    let text = "lorem ipsum ".repeat(40);
    let source = MemorySource {
        existing: vec!["/docs/long.pdf".to_string()],
        fallback_text: Some(text.clone()),
        ..MemorySource::empty()
    };
    let mut caches = DocumentCaches::new();
    let config = StreamingConfig { max_chunk_size_chars: 100 };
    let steps = stream_pdf_to_markdown(&source, &mut caches, "/docs/long.pdf", &config);
    assert!(steps.last().unwrap().is_complete);
    assert!(steps[..steps.len() - 1].iter().all(|p| !p.is_complete));
    assert!(steps[0].current_chunk.starts_with("# long.pdf\n\n## characters 1 (chars 0-100)\n\n"));
    assert_eq!(steps.last().unwrap().current_page, text.chars().count());
    assert!(steps.len() <= 480 / 10 + 1);
    assert_eq!(get_cache_stats(&caches).0, 1);

    let missing = stream_pdf_to_markdown(&source, &mut caches, "/docs/none.pdf", &config);
    assert_eq!(missing.len(), 1);
    assert!(missing[0].is_complete);
    assert!(missing[0].error.is_some());
}

#[test]
fn excel_stream_one_sheet_per_step() {
    let source = MemorySource {
        existing: vec!["/data/book.xlsx".to_string()],
        sheets: vec![sheet("First", "alpha"), sheet("Second", "beta")],
        ..MemorySource::empty()
    };
    let steps = stream_excel_to_markdown(&source, "/data/book.xlsx");
    assert_eq!(steps.len(), 2);
    assert_eq!(steps[0].current_chunk, "# book.xlsx\n\n## Sheet: First\n\n| Header | \n| --- | \n| alpha | \n\n\n");
    assert!(!steps[0].is_complete);
    assert!(steps[1].is_complete);
    assert_eq!(steps[1].current_page, 2);
    let sheets = source.read_workbook("/data/book.xlsx").unwrap();
    assert_eq!(
        read_excel_to_markdown("/data/book.xlsx", &sheets),
        "# book.xlsx\n\n## Sheet: First\n\n| Header | \n| --- | \n| alpha | \n\n\n## Sheet: Second\n\n| Header | \n| --- | \n| beta | \n\n\n"
    );
}

#[test]
fn cached_pdf_slices() {
    let source = MemorySource {
        existing: vec!["/docs/short.pdf".to_string()],
        fallback_text: Some("alpha beta".to_string()),
        ..MemorySource::empty()
    };
    let mut caches = DocumentCaches::new();
    let cache = get_or_cache_pdf_content(&source, &mut caches, "/docs/short.pdf").unwrap();
    assert_eq!(cache.total_pages, Some(1));
    assert_eq!(extract_char_range_from_cache(&cache, 6, 10).unwrap(), "beta");
    let pages = extract_pages_from_cache(&source, &caches, &cache, &[1], "/docs/short.pdf").unwrap();
    assert!(pages.contains("cannot extract specific pages"));
    assert!(pages.ends_with("alpha beta"));
}

#[test]
fn repeated_slide_numbers_are_refused() {
    let source = MemorySource {
        existing: vec!["/p/twice.pptx".to_string()],
        slides: vec![(1, "A".to_string()), (1, "B".to_string())],
        ..MemorySource::empty()
    };
    let mut caches = DocumentCaches::new();
    let r = process_powerpoint_with_slides(&source, &mut caches, "/p/twice.pptx", None);
    assert_eq!(
        r.error.as_deref(),
        Some("Failed to extract PowerPoint content: Slide numbers repeat in presentation: /p/twice.pptx")
    );
    assert_eq!(r.total_slides, None);
    assert!(r.slide_texts.is_empty());
}

#[test]
fn unreadable_docx_counts_one_page() {
    let source = MemorySource { existing: vec!["/w/letter.docx".to_string()], ..MemorySource::empty() };
    let mut caches = DocumentCaches::new();
    let info = get_document_page_info(&source, &mut caches, "/w/letter.docx");
    assert!(info.error.is_none());
    assert_eq!(info.total_pages, Some(1));
    assert_eq!(info.page_info, "DOCX file (page count estimation failed, defaulting to 1 page)");
}
