//! Reading documents with a unit selection: file-type routing, the caches
//! of each document type, and the assembly of results from what the parsers
//! read.
use vstd::prelude::*;
use crate::artifacts::{DocxCache, ExcelCache, PdfCache, PowerPointCache, SlideText};
use crate::cache::{artifact_ok, whole_document_note, CacheManager, total_memory};
use crate::char_index::offsets_ok;
use crate::markdown::{
    chosen_sheet_sections, chosen_slide_sections, docx_markdown,
    chosen_slides_to_markdown, docx_page_estimate, read_docx_to_markdown, sheets_to_markdown,
    slides_to_markdown, workbook_to_markdown, Sheet,
};
use crate::pages::{parse_pages_parameter, selection_error, selection_ok};
use crate::paths::{file_header, file_name, file_name_of, generate_file_header};
use crate::pdf::{
    backend_chain, count_attempt, pages_attempt, text_attempt, BackendOutcome, FastPdfExtractor,
    PdfBackend, RawPdf,
};
use crate::results::{
    is_not_found,
    DocumentPageInfoResult, DocumentProcessingResult, PowerPointPageInfoResult,
    PowerPointProcessingResult, SlideSnapshotResult,
};
use crate::pdf::text_contains;
use crate::text::{
    chars_of, decimal, ascii_lower, owned, push_decimal, push_str, str_eq, to_ascii_lower,
};

verus! {

/// Where documents come from: the file system and the parsers of each
/// format. The library decides what to do with what these return; whatever
/// they return, its own contracts hold.
pub trait DocumentSource {
    /// Whether a file exists at `path`.
    fn file_exists(&self, path: &str) -> bool;

    /// The file's modification time in nanoseconds since the Unix epoch, if
    /// it can be read.
    fn modified_time(&self, path: &str) -> Option<u64>;

    /// The PDF engines compiled in and usable.
    fn available_pdf_backends(&self) -> Vec<PdfBackend>;

    /// What one PDF engine reads out of the file, with any panic contained.
    fn read_pdf(&self, backend: PdfBackend, path: &str) -> BackendOutcome<RawPdf>;

    /// The sheets of a workbook, in order.
    fn read_workbook(&self, path: &str) -> Result<Vec<Sheet>, String>;

    /// The text of a word-processing document and, if its structure could be
    /// read, its number of paragraphs.
    fn read_docx(&self, path: &str) -> Result<(String, Option<usize>), String>;

    /// The text of each slide of a presentation, numbered from 1 in slide
    /// order.
    fn read_slides(&self, path: &str) -> Result<Vec<SlideText>, String>;

    /// The number of slides of a presentation.
    fn count_slides(&self, path: &str) -> Result<usize, String>;

    /// An image of one slide in the given format.
    fn render_slide(&self, path: &str, slide_number: usize, format: &str) -> Result<Vec<u8>, String>;
}

// ---------------------------------------------------------------------------
// File types
// ---------------------------------------------------------------------------

/// The position of the last `.` in `s`, or -1.
pub open spec fn last_dot(s: Seq<char>) -> int
    decreases s.len(),
{
    if s.len() == 0 {
        -1
    } else if s.last() == '.' {
        s.len() - 1
    } else {
        last_dot(s.drop_last())
    }
}

/// The extension of a path, as `Path::extension` gives it: what follows the
/// last `.` of the file name, unless the name has no `.` but a leading one.
pub open spec fn extension(path: Seq<char>) -> Option<Seq<char>> {
    let name = file_name(path);
    let k = last_dot(name);
    if k > 0 {
        Some(name.subrange(k + 1, name.len() as int))
    } else {
        None
    }
}

/// Whether `s` is the lower-case ASCII word `w` in any mix of case.
pub open spec fn same_word(s: Seq<char>, w: Seq<char>) -> bool {
    s.len() == w.len() && forall|i: int|
        0 <= i < s.len() ==> #[trigger] s[i] == w[i] || (s[i] as u32) as int + 32 == (w[i] as u32) as int
}

/// The kinds of document that are read, by their lower-case extension.
pub open spec fn known_kinds() -> Seq<Seq<char>> {
    seq!["pdf"@, "xlsx"@, "xls"@, "docx"@, "doc"@, "pptx"@, "ppt"@]
}

/// The document kind named by an extension, if it names one.
pub open spec fn kind_of(ext: Seq<char>) -> Option<Seq<char>> {
    if exists|i: int| 0 <= i < known_kinds().len() && same_word(ext, #[trigger] known_kinds()[i]) {
        Some(known_kinds()[choose|i: int| 0 <= i < known_kinds().len() && same_word(ext, #[trigger] known_kinds()[i])])
    } else {
        None
    }
}

/// What `validate_file_path` answers for a path, given whether it exists.
pub open spec fn validation(path: Seq<char>, exists: bool) -> Result<Seq<char>, Seq<char>> {
    if !exists {
        Err("File not found: "@ + path)
    } else {
        match extension(path) {
            None => Err("Unable to determine file type from extension"@),
            Some(ext) => match kind_of(ext) {
                Some(k) => Ok(k),
                None => Err("Unsupported file type: ."@ + ascii_lower(ext)),
            },
        }
    }
}

fn same_word_exec(v: &[char], lo: usize, hi: usize, w: &str) -> (r: bool)
    requires
        lo <= hi <= v@.len(),
    ensures
        r == same_word(v@.subrange(lo as int, hi as int), w@),
{
    let wv = chars_of(w);
    let ghost s = v@.subrange(lo as int, hi as int);
    if hi - lo != wv.len() {
        return false;
    }
    let mut i: usize = 0;
    while i < wv.len()
        invariant
            wv@ == w@,
            s == v@.subrange(lo as int, hi as int),
            hi - lo == wv@.len(),
            lo <= hi <= v@.len(),
            i <= wv@.len(),
            forall|k: int| 0 <= k < i ==> #[trigger] s[k] == w@[k] || (s[k] as u32) as int + 32 == (w@[k] as u32) as int,
        decreases wv@.len() - i,
    {
        let c = v[lo + i];
        let d = wv[i];
        proof {
            assert(s[i as int] == c);
            assert(w@[i as int] == d);
        }
        if !(c == d || ((d as u32) >= 32 && (c as u32) == (d as u32) - 32)) {
            proof {
                assert(!(s[i as int] == w@[i as int] || (s[i as int] as u32) as int + 32 == (w@[i as int] as u32) as int));
            }
            return false;
        }
        i = i + 1;
    }
    true
}

fn position_of_last_dot(v: &[char]) -> (r: Option<usize>)
    ensures
        match r {
            Some(k) => k as int == last_dot(v@) && k < v@.len(),
            None => last_dot(v@) == -1,
        },
{
    let mut i: usize = v.len();
    proof {
        assert(v@.take(i as int) =~= v@);
    }
    while i > 0
        invariant
            i <= v@.len(),
            last_dot(v@) == last_dot(v@.take(i as int)),
        decreases i,
    {
        proof {
            assert(v@.take(i as int).drop_last() =~= v@.take(i - 1));
            assert(v@.take(i as int).last() == v@[i - 1]);
        }
        if v[i - 1] == '.' {
            return Some(i - 1);
        }
        i = i - 1;
    }
    proof {
        assert(v@.take(0) =~= Seq::<char>::empty());
    }
    None
}

/// Checks that the file at `resolved_path` exists (`exists`, as read by the
/// caller) and names a kind of document that is read, and returns that kind
/// as a lower-case extension.
pub fn validate_file_path(resolved_path: &str, exists: bool) -> (r: Result<String, String>)
    ensures
        match validation(resolved_path@, exists) {
            Ok(k) => r is Ok && r->Ok_0@ == k,
            Err(e) => r is Err && r->Err_0@ == e,
        },
{
    if !exists {
        let mut m = String::new();
        push_str(&mut m, "File not found: ");
        push_str(&mut m, resolved_path);
        proof {
            assert(m@ =~= "File not found: "@ + resolved_path@);
        }
        return Err(m);
    }
    let name = file_name_of(resolved_path);
    let v = chars_of(name.as_str());
    match position_of_last_dot(v.as_slice()) {
        Some(k) => {
            if k == 0 {
                return Err(owned("Unable to determine file type from extension"));
            }
            let n = v.len();
            let kinds = ["pdf", "xlsx", "xls", "docx", "doc", "pptx", "ppt"];
            proof {
                reveal_strlit("pdf");
                reveal_strlit("xlsx");
                reveal_strlit("xls");
                reveal_strlit("docx");
                reveal_strlit("doc");
                reveal_strlit("pptx");
                reveal_strlit("ppt");
            }
            let mut i: usize = 0;
            while i < 7
                invariant
                    i <= 7,
                    kinds@.len() == 7,
                    forall|j: int| 0 <= j < 7 ==> #[trigger] kinds@[j]@ == known_kinds()[j],
                    forall|j: int|
                        0 <= j < i ==> !same_word(v@.subrange(k + 1, n as int), #[trigger] known_kinds()[j]),
                    k < n == v@.len(),
                    0 < k,
                    exists,
                    v@ == name@,
                    name@ == file_name(resolved_path@),
                    k as int == last_dot(v@),
                decreases 7 - i,
            {
                if same_word_exec(v.as_slice(), k + 1, n, kinds[i]) {
                    proof {
                        let ext = v@.subrange(k + 1, n as int);
                        assert(name@ == file_name(resolved_path@));
                        assert(extension(resolved_path@) == Some(ext));
                        assert(same_word(ext, known_kinds()[i as int]));
                        assert(exists|j: int| 0 <= j < known_kinds().len() && same_word(ext, #[trigger] known_kinds()[j]));
                        let j = choose|j: int| 0 <= j < known_kinds().len() && same_word(ext, #[trigger] known_kinds()[j]);
                        lemma_kinds_distinct(ext, i as int, j);
                        assert(kind_of(ext) == Some(known_kinds()[i as int]));
                        assert(validation(resolved_path@, exists) == Ok::<Seq<char>, Seq<char>>(
                            known_kinds()[i as int],
                        ));
                    }
                    let out = owned(kinds[i]);
                    proof {
                        assert(out@ == kinds@[i as int]@);
                    }
                    return Ok(out);
                }
                i = i + 1;
            }
            let ext = crate::text::span_string(v.as_slice(), k + 1, n);
            let mut m = String::new();
            push_str(&mut m, "Unsupported file type: .");
            let low = to_ascii_lower(ext.as_str());
            push_str(&mut m, low.as_str());
            proof {
                assert(m@ =~= "Unsupported file type: ."@ + ascii_lower(ext@));
            }
            Err(m)
        },
        None => Err(owned("Unable to determine file type from extension")),
    }
}

/// No extension is the same word as two different kinds.
proof fn lemma_kinds_distinct(ext: Seq<char>, i: int, j: int)
    requires
        0 <= i < 7,
        0 <= j < 7,
        same_word(ext, known_kinds()[i]),
        same_word(ext, known_kinds()[j]),
    ensures
        known_kinds()[i] == known_kinds()[j],
{
    reveal_strlit("pdf");
    reveal_strlit("xlsx");
    reveal_strlit("xls");
    reveal_strlit("docx");
    reveal_strlit("doc");
    reveal_strlit("pptx");
    reveal_strlit("ppt");
    let a = known_kinds()[i];
    let b = known_kinds()[j];
    if a != b {
        if a.len() == b.len() {
            // words of the same length differ in a letter that no case change
            // maps onto the other
            assert(exists|t: int| 0 <= t < a.len() && a[t] != b[t] && (a[t] as u32) as int + 32 != (b[t] as u32) as int
                && (b[t] as u32) as int + 32 != (a[t] as u32) as int) by {
                if a.len() == 3 {
                    if (a[0] != b[0]) {
                        assert(0 <= 0 < a.len() && a[0] != b[0]);
                    } else if a[1] != b[1] {
                        assert(a[1] != b[1]);
                    } else {
                        assert(a[2] != b[2]);
                    }
                } else {
                    if (a[0] != b[0]) {
                        assert(a[0] != b[0]);
                    } else if a[1] != b[1] {
                        assert(a[1] != b[1]);
                    } else if a[2] != b[2] {
                        assert(a[2] != b[2]);
                    } else {
                        assert(a[3] != b[3]);
                    }
                }
            }
            let t = choose|t: int| 0 <= t < a.len() && a[t] != b[t] && (a[t] as u32) as int + 32 != (b[t] as u32) as int
                && (b[t] as u32) as int + 32 != (a[t] as u32) as int;
            assert(ext[t] == a[t] || (ext[t] as u32) as int + 32 == (a[t] as u32) as int);
            assert(ext[t] == b[t] || (ext[t] as u32) as int + 32 == (b[t] as u32) as int);
        }
    }
}

// ---------------------------------------------------------------------------
// Caches
// ---------------------------------------------------------------------------

/// The caches of the four document types, held by the application for its
/// whole life and handed to every request.
pub struct DocumentCaches {
    pub pdf: CacheManager<PdfCache>,
    pub excel: CacheManager<ExcelCache>,
    pub docx: CacheManager<DocxCache>,
    pub powerpoint: CacheManager<PowerPointCache>,
}

impl DocumentCaches {
    pub open spec fn wf(&self) -> bool {
        &&& self.pdf.wf() && self.pdf.all_ok()
        &&& self.excel.wf() && self.excel.all_ok()
        &&& self.docx.wf() && self.docx.all_ok()
        &&& self.powerpoint.wf() && self.powerpoint.all_ok()
    }

    /// Empty caches.
    pub fn new() -> (r: Self)
        ensures
            r.wf(),
    {
        DocumentCaches {
            pdf: CacheManager::new(),
            excel: CacheManager::new(),
            docx: CacheManager::new(),
            powerpoint: CacheManager::new(),
        }
    }
}

/// Empties the PDF cache.
pub fn clear_pdf_cache(caches: &mut DocumentCaches)
    requires
        old(caches).wf(),
    ensures
        final(caches).wf(),
        final(caches).pdf.entries().len() == 0,
        final(caches).excel == old(caches).excel,
        final(caches).docx == old(caches).docx,
        final(caches).powerpoint == old(caches).powerpoint,
{
    caches.pdf.clear();
}

/// Empties the workbook cache.
pub fn clear_excel_cache(caches: &mut DocumentCaches)
    requires
        old(caches).wf(),
    ensures
        final(caches).wf(),
        final(caches).excel.entries().len() == 0,
        final(caches).pdf == old(caches).pdf,
        final(caches).docx == old(caches).docx,
        final(caches).powerpoint == old(caches).powerpoint,
{
    caches.excel.clear();
}

/// Empties the word-processing cache.
pub fn clear_docx_cache(caches: &mut DocumentCaches)
    requires
        old(caches).wf(),
    ensures
        final(caches).wf(),
        final(caches).docx.entries().len() == 0,
        final(caches).pdf == old(caches).pdf,
        final(caches).excel == old(caches).excel,
        final(caches).powerpoint == old(caches).powerpoint,
{
    caches.docx.clear();
}

/// Empties the presentation cache.
pub fn clear_powerpoint_cache(caches: &mut DocumentCaches)
    requires
        old(caches).wf(),
    ensures
        final(caches).wf(),
        final(caches).powerpoint.entries().len() == 0,
        final(caches).pdf == old(caches).pdf,
        final(caches).excel == old(caches).excel,
        final(caches).docx == old(caches).docx,
{
    caches.powerpoint.clear();
}

/// Empties every cache.
pub fn clear_all_caches(caches: &mut DocumentCaches)
    requires
        old(caches).wf(),
    ensures
        final(caches).wf(),
        final(caches).pdf.entries().len() == 0,
        final(caches).excel.entries().len() == 0,
        final(caches).docx.entries().len() == 0,
        final(caches).powerpoint.entries().len() == 0,
{
    clear_pdf_cache(caches);
    clear_excel_cache(caches);
    clear_docx_cache(caches);
    clear_powerpoint_cache(caches);
}

/// The number of cached PDFs and the estimated memory they hold.
pub fn get_cache_stats(caches: &DocumentCaches) -> (r: (usize, usize))
    ensures
        r.0 == caches.pdf.entries().len(),
        r.1 == total_memory(caches.pdf.entries()),
{
    caches.pdf.get_stats()
}

/// `a + b`, saturating at `usize::MAX`.
pub open spec fn sat_add(a: nat, b: nat) -> nat {
    if a + b > usize::MAX {
        usize::MAX as nat
    } else {
        a + b
    }
}

/// The number of cached documents of every type and the estimated memory
/// they hold, each sum saturating at `usize::MAX`.
pub fn get_all_cache_stats(caches: &DocumentCaches) -> (r: (usize, usize))
    ensures
        r.0 == sat_add(
            sat_add(
                sat_add(caches.pdf.entries().len(), caches.excel.entries().len()),
                caches.docx.entries().len(),
            ),
            caches.powerpoint.entries().len(),
        ),
        r.1 == sat_add(
            sat_add(
                sat_add(total_memory(caches.pdf.entries()), total_memory(caches.excel.entries())),
                total_memory(caches.docx.entries()),
            ),
            total_memory(caches.powerpoint.entries()),
        ),
{
    let (pf, pm) = caches.pdf.get_stats();
    let (ef, em) = caches.excel.get_stats();
    let (df, dm) = caches.docx.get_stats();
    let (sf, sm) = caches.powerpoint.get_stats();
    (
        pf.saturating_add(ef).saturating_add(df).saturating_add(sf),
        pm.saturating_add(em).saturating_add(dm).saturating_add(sm),
    )
}

// ---------------------------------------------------------------------------
// Results
// ---------------------------------------------------------------------------

/// `r` is the failure of reading `path` with message `msg`.
pub open spec fn failed_with(r: DocumentProcessingResult, path: Seq<char>, msg: Seq<char>) -> bool {
    &&& r.error is Some && r.error->0@ == msg
    &&& r.content@ == msg
    &&& r.file_path@ == path
    &&& r.total_pages is None
    &&& r.requested_pages@.len() == 0
    &&& r.returned_pages@.len() == 0
}

/// The failure of reading `file_path`, with message `prefix` + `detail`.
fn failure(file_path: &str, prefix: &str, detail: &str) -> (r: DocumentProcessingResult)
    ensures
        failed_with(r, file_path@, prefix@ + detail@),
        r.wf(),
{
    let mut m = String::new();
    push_str(&mut m, prefix);
    push_str(&mut m, detail);
    proof {
        assert(m@ =~= prefix@ + detail@);
    }
    DocumentProcessingResult::error(owned(file_path), m)
}

/// The failure of reading `file_path`, with message `msg`.
fn failure_plain(file_path: &str, msg: &str) -> (r: DocumentProcessingResult)
    ensures
        failed_with(r, file_path@, msg@),
        r.wf(),
{
    DocumentProcessingResult::error(owned(file_path), owned(msg))
}

/// `r` is the success of reading `path` with selection `pages` of `total`
/// units, giving `content`.
pub open spec fn read_with(
    r: DocumentProcessingResult,
    path: Seq<char>,
    pages: Seq<char>,
    total: nat,
    content: Seq<char>,
) -> bool {
    &&& r.error is None
    &&& r.content@ == content
    &&& r.file_path@ == path
    &&& r.total_pages == Some(total as usize)
    &&& r.requested_pages@ == pages
    &&& selection_ok(pages, total, r.returned_pages@)
}

// ---------------------------------------------------------------------------
// PDF
// ---------------------------------------------------------------------------

/// Reads a PDF through the engine chain: its whole text, and its page count
/// where an engine gives one.
fn extract_pdf_content<S: DocumentSource>(source: &S, file_path: &str) -> (r: Result<PdfCache, String>)
    ensures
        r is Ok ==> artifact_ok(&r->Ok_0),
{
    let available = source.available_pdf_backends();
    let chain = backend_chain(available.as_slice());
    let read_text = |b: PdfBackend| -> (r: Result<String, String>)
        { text_attempt(b, source.read_pdf(b, file_path)) };
    let text = match FastPdfExtractor::extract_text(chain.as_slice(), file_path, &read_text) {
        Ok(t) => t,
        Err(e) => {
            let mut m = String::new();
            push_str(&mut m, "Failed to extract text from PDF: ");
            push_str(&mut m, file_path);
            push_str(&mut m, ": ");
            push_str(&mut m, e.as_str());
            return Err(m);
        },
    };
    let read_count = |b: PdfBackend| -> (r: Result<usize, String>)
        { count_attempt(b, source.read_pdf(b, file_path)) };
    let total = match FastPdfExtractor::get_page_count(chain.as_slice(), file_path, &read_count) {
        Ok(n) => Some(n),
        Err(_) => None,
    };
    Ok(PdfCache::from_text(text, total))
}

/// The cached content of the PDF at `file_path`, read through the engine
/// chain when the cache holds no valid entry for it.
pub fn get_or_cache_pdf_content<S: DocumentSource>(
    source: &S,
    caches: &mut DocumentCaches,
    file_path: &str,
) -> (r: Result<PdfCache, String>)
    requires
        old(caches).wf(),
    ensures
        final(caches).wf(),
        r is Ok ==> artifact_ok(&r->Ok_0),
        final(caches).excel == old(caches).excel,
        final(caches).docx == old(caches).docx,
        final(caches).powerpoint == old(caches).powerpoint,
{
    let modified = source.modified_time(file_path);
    let extractor = |p: &str| -> (r: Result<PdfCache, String>)
        ensures
            r is Ok ==> artifact_ok(&r->Ok_0),
        { extract_pdf_content(source, p) };
    caches.pdf.get_or_cache(file_path, modified, extractor)
}

/// The requested pages of a cached PDF, re-read through the engine chain.
pub fn extract_pages_from_cache<S: DocumentSource>(
    source: &S,
    caches: &DocumentCaches,
    pdf_cache: &PdfCache,
    page_numbers: &[usize],
    file_path: &str,
) -> (r: Result<String, String>)
    ensures
        pdf_cache.total_pages is None ==> r is Ok && r->Ok_0@ == whole_document_note(
            file_path@,
            page_numbers@,
            pdf_cache.content@,
        ),
{
    let extractor = |p: &str, pages: &[usize]| -> (r: Result<String, String>)
        { extract_pdf_pages(source, p, pages) };
    caches.pdf.extract_units(pdf_cache, page_numbers, file_path, extractor)
}

/// The characters `[start_char, end_char)` of a cached PDF's text.
pub fn extract_char_range_from_cache(pdf_cache: &PdfCache, start_char: usize, end_char: usize) -> (r:
    Result<String, String>)
    requires
        offsets_ok(pdf_cache.content@, pdf_cache.char_indices@),
        start_char < pdf_cache.content@.len() ==> start_char <= end_char,
    ensures
        r is Ok,
        r->Ok_0@ == crate::cache::char_range(pdf_cache.content@, start_char as nat, end_char as nat),
{
    crate::cache::extract_char_range(pdf_cache, start_char, end_char)
}

/// The requested pages of the PDF at `file_path`, from the first engine of
/// the chain that extracts them.
fn pages_through_chain<S: DocumentSource>(source: &S, file_path: &str, page_numbers: &[usize]) -> (r:
    Result<String, String>)
{
    let available = source.available_pdf_backends();
    let chain = backend_chain(available.as_slice());
    let read_pages = |b: PdfBackend| -> (r: Result<String, String>)
        { pages_attempt(b, source.read_pdf(b, file_path), page_numbers, file_path) };
    FastPdfExtractor::extract_pages_text(chain.as_slice(), file_path, &read_pages)
}

/// The requested pages of the PDF at `file_path`, through the engine chain.
fn extract_pdf_pages<S: DocumentSource>(source: &S, file_path: &str, page_numbers: &[usize]) -> (r:
    Result<String, String>)
{
    match pages_through_chain(source, file_path, page_numbers) {
        Ok(t) => Ok(t),
        Err(_) => {
            let mut m = String::new();
            push_str(&mut m, "Failed to extract specific pages from PDF: ");
            push_str(&mut m, file_path);
            Err(m)
        },
    }
}

/// The markdown of a PDF read with a page selection.
pub open spec fn pdf_markdown(
    path: Seq<char>,
    pages: Seq<char>,
    all_pages: bool,
    text: Seq<char>,
) -> Seq<char> {
    file_header(path) + if all_pages {
        "## Content (All Pages)\n\n"@
    } else {
        "## Content (Pages: "@ + pages + ")\n\n"@
    } + text
}

/// The content of a successful PDF read `r` whose extracted pages are
/// `text`.
pub open spec fn pdf_read_content(
    r: DocumentProcessingResult,
    path: Seq<char>,
    pages: Seq<char>,
    text: Seq<char>,
) -> Seq<char> {
    pdf_markdown(path, pages, r.returned_pages@.len() == r.total_pages->0 as nat, text)
}

/// The result of reading a PDF, from its cached content and from what the
/// engine chain extracted for the selected pages (asked for only once the
/// selection is known to be valid).
pub open spec fn pdf_outcome(
    r: DocumentProcessingResult,
    path: Seq<char>,
    pages: Seq<char>,
    cached: Result<Seq<char>, Seq<char>>,
    total: Option<usize>,
    extracted: Result<Seq<char>, Seq<char>>,
) -> bool {
    match cached {
        Err(e) => failed_with(r, path, "Failed to get PDF content: "@ + e),
        Ok(_) => match total {
            None => failed_with(r, path, "Failed to determine PDF page count"@),
            Some(n) => match selection_error(pages, n as nat) {
                Some(m) => failed_with(r, path, "Invalid pages parameter: "@ + m),
                None => match extracted {
                    Err(e) => failed_with(r, path, "Failed to extract PDF pages: "@ + e),
                    Ok(t) => read_with(
                        r,
                        path,
                        pages,
                        n as nat,
                        pdf_markdown(path, pages, r.returned_pages@.len() == n as nat, t),
                    ),
                },
            },
        },
    }
}

/// The cached text of a PDF, or why there is none.
pub open spec fn cached_view(cached: Result<PdfCache, String>) -> Result<Seq<char>, Seq<char>> {
    match cached {
        Ok(c) => Ok(c.content@),
        Err(e) => Err(e@),
    }
}

/// The page count of a cached PDF, if known.
pub open spec fn cached_total(cached: Result<PdfCache, String>) -> Option<usize> {
    match cached {
        Ok(c) => c.total_pages,
        Err(_) => None,
    }
}

/// The page selection of a PDF read, or the failed result that ends it.
pub fn pdf_selection(file_path: &str, pages: &str, cached: &Result<PdfCache, String>) -> (r: Result<
    (usize, Vec<usize>),
    DocumentProcessingResult,
>)
    ensures
        match r {
            Ok((n, sel)) => cached is Ok && cached->Ok_0.total_pages == Some(n) && selection_error(
                pages@,
                n as nat,
            ) is None && selection_ok(pages@, n as nat, sel@),
            Err(f) => f.wf() && forall|x: Result<Seq<char>, Seq<char>>|
                #[trigger] pdf_outcome(
                    f,
                    file_path@,
                    pages@,
                    cached_view(*cached),
                    cached_total(*cached),
                    x,
                ),
        },
{
    let total = match cached {
        Err(e) => {
            return Err(failure(file_path, "Failed to get PDF content: ", e.as_str()));
        },
        Ok(c) => match c.total_pages {
            Some(n) => n,
            None => {
                return Err(failure_plain(file_path, "Failed to determine PDF page count"));
            },
        },
    };
    match parse_pages_parameter(pages, total) {
        Ok(sel) => Ok((total, sel)),
        Err(m) => Err(failure(file_path, "Invalid pages parameter: ", m.as_str())),
    }
}

/// The result of a PDF read whose selection `sel` of `total` pages is
/// valid, from what was extracted for those pages.
pub fn pdf_result(
    file_path: &str,
    pages: &str,
    total: usize,
    sel: Vec<usize>,
    extracted: Result<String, String>,
) -> (r: DocumentProcessingResult)
    requires
        selection_ok(pages@, total as nat, sel@),
    ensures
        r.wf(),
        match extracted {
            Err(e) => failed_with(r, file_path@, "Failed to extract PDF pages: "@ + e@),
            Ok(t) => read_with(
                r,
                file_path@,
                pages@,
                total as nat,
                pdf_markdown(file_path@, pages@, sel@.len() == total as nat, t@),
            ) && r.returned_pages@ == sel@,
        },
{
    match extracted {
        Err(e) => failure(file_path, "Failed to extract PDF pages: ", e.as_str()),
        Ok(t) => {
            let mut markdown = generate_file_header(file_path);
            if sel.len() == total {
                push_str(&mut markdown, "## Content (All Pages)\n\n");
            } else {
                push_str(&mut markdown, "## Content (Pages: ");
                push_str(&mut markdown, pages);
                push_str(&mut markdown, ")\n\n");
            }
            push_str(&mut markdown, t.as_str());
            proof {
                assert(markdown@ =~= pdf_markdown(file_path@, pages@, sel@.len() == total as nat, t@));
            }
            DocumentProcessingResult::success(markdown, Some(total), owned(pages), sel, owned(file_path))
        },
    }
}

/// Reads the PDF at `file_path` with the page selection `pages`: the cached
/// content gives the page count, the selection is checked against it, and
/// the selected pages are extracted through the engine chain.
pub fn process_pdf_with_pages<S: DocumentSource>(
    source: &S,
    caches: &mut DocumentCaches,
    file_path: &str,
    pages: &str,
) -> (r: DocumentProcessingResult)
    requires
        old(caches).wf(),
    ensures
        final(caches).wf(),
        sound_read(r, file_path@, pages@),
        r.error is None ==> exists|text: Seq<char>|
            r.content@ == #[trigger] pdf_read_content(r, file_path@, pages@, text),
{
    let cached = get_or_cache_pdf_content(source, caches, file_path);
    match pdf_selection(file_path, pages, &cached) {
        Err(f) => {
            proof {
                assert(pdf_outcome(
                    f,
                    file_path@,
                    pages@,
                    cached_view(cached),
                    cached_total(cached),
                    Err(Seq::empty()),
                ));
            }
            f
        },
        Ok((total, sel)) => {
            let extracted = pages_through_chain(source, file_path, sel.as_slice());
            let ghost ev = extracted;
            let r = pdf_result(file_path, pages, total, sel, extracted);
            proof {
                if r.error is None {
                    assert(ev is Ok);
                    assert(r.content@ == pdf_read_content(r, file_path@, pages@, ev->Ok_0@));
                }
            }
            r
        },
    }
}

// ---------------------------------------------------------------------------
// Unit selection shared by every format
// ---------------------------------------------------------------------------

/// Resolves `pages` against `total` units, or gives the failed result that
/// ends the read.
fn select_units(file_path: &str, pages: &str, total: usize) -> (r: Result<Vec<usize>, DocumentProcessingResult>)
    ensures
        match r {
            Ok(sel) => selection_error(pages@, total as nat) is None && selection_ok(
                pages@,
                total as nat,
                sel@,
            ),
            Err(f) => f.wf() && selection_error(pages@, total as nat) is Some && failed_with(
                f,
                file_path@,
                "Invalid pages parameter: "@ + selection_error(pages@, total as nat)->0,
            ),
        },
{
    match parse_pages_parameter(pages, total) {
        Ok(sel) => Ok(sel),
        Err(m) => Err(failure(file_path, "Invalid pages parameter: ", m.as_str())),
    }
}

/// The result of a read whose selection `sel` of `total` units is valid,
/// from the content obtained for those units; a failure to obtain it is
/// reported after `failure_prefix`.
pub fn unit_read_result(
    file_path: &str,
    pages: &str,
    total: usize,
    sel: Vec<usize>,
    content: Result<String, String>,
    failure_prefix: &str,
) -> (r: DocumentProcessingResult)
    requires
        selection_ok(pages@, total as nat, sel@),
    ensures
        r.wf(),
        match content {
            Err(e) => failed_with(r, file_path@, failure_prefix@ + e@),
            Ok(c) => read_with(r, file_path@, pages@, total as nat, c@) && r.returned_pages@ == sel@,
        },
{
    match content {
        Err(e) => failure(file_path, failure_prefix, e.as_str()),
        Ok(c) => DocumentProcessingResult::success(c, Some(total), owned(pages), sel, owned(file_path)),
    }
}

/// `r` is a well-formed result for `path` whose success carries a valid
/// selection of `pages`.
pub open spec fn sound_read(r: DocumentProcessingResult, path: Seq<char>, pages: Seq<char>) -> bool {
    &&& r.wf()
    &&& r.file_path@ == path
    &&& r.error is Some ==> r.total_pages is None && r.content@ == r.error->0@
    &&& r.error is None ==> r.requested_pages@ == pages && r.total_pages is Some && selection_error(
        pages,
        r.total_pages->0 as nat,
    ) is None && selection_ok(pages, r.total_pages->0 as nat, r.returned_pages@)
}

// ---------------------------------------------------------------------------
// Workbooks
// ---------------------------------------------------------------------------

fn open_failure(what: &str, file_path: &str) -> (r: String)
    ensures
        r@ == what@ + file_path@,
{
    let mut m = String::new();
    push_str(&mut m, what);
    push_str(&mut m, file_path);
    proof {
        assert(m@ =~= what@ + file_path@);
    }
    m
}

/// Reads and renders a whole workbook.
fn extract_excel_content<S: DocumentSource>(source: &S, file_path: &str) -> (r: Result<ExcelCache, String>)
    ensures
        r is Ok ==> artifact_ok(&r->Ok_0),
{
    match source.read_workbook(file_path) {
        Err(_) => Err(open_failure("Failed to open Excel file: ", file_path)),
        Ok(sheets) => {
            let markdown = workbook_to_markdown(file_path, &sheets);
            let mut names: Vec<String> = Vec::new();
            let mut i: usize = 0;
            while i < sheets.len()
                invariant
                    i <= sheets@.len(),
                decreases sheets@.len() - i,
            {
                names.push(sheets[i].name.clone());
                i = i + 1;
            }
            Ok(ExcelCache::from_markdown(markdown, names))
        },
    }
}

/// The markdown of the requested sheets of a workbook, from what reading it
/// again gave.
pub fn sheets_content(file_path: &str, sheet_numbers: &[usize], reread: Result<Vec<Sheet>, String>) -> (r:
    Result<String, String>)
    ensures
        match reread {
            Ok(sheets) => r is Ok && r->Ok_0@ == file_header(file_path@) + chosen_sheet_sections(
                sheets@,
                sheet_numbers@,
            ),
            Err(_) => r is Err && r->Err_0@ == "Failed to open Excel file: "@ + file_path@,
        },
{
    match reread {
        Err(_) => Err(open_failure("Failed to open Excel file: ", file_path)),
        Ok(sheets) => Ok(sheets_to_markdown(file_path, &sheets, sheet_numbers)),
    }
}

/// The cached content of the workbook at `file_path`.
fn get_or_cache_excel<S: DocumentSource>(source: &S, caches: &mut DocumentCaches, file_path: &str) -> (r:
    Result<ExcelCache, String>)
    requires
        old(caches).wf(),
    ensures
        final(caches).wf(),
{
    let modified = source.modified_time(file_path);
    let extractor = |p: &str| -> (r: Result<ExcelCache, String>)
        ensures
            r is Ok ==> artifact_ok(&r->Ok_0),
        { extract_excel_content(source, p) };
    caches.excel.get_or_cache(file_path, modified, extractor)
}

/// Reads the workbook at `file_path` with the sheet selection `pages`.
pub fn process_excel_with_pages<S: DocumentSource>(
    source: &S,
    caches: &mut DocumentCaches,
    file_path: &str,
    pages: &str,
) -> (r: DocumentProcessingResult)
    requires
        old(caches).wf(),
    ensures
        final(caches).wf(),
        sound_read(r, file_path@, pages@),
        r.error is None && pages@ != "all"@ ==> exists|sheets: Seq<Sheet>|
            r.content@ == file_header(file_path@) + #[trigger] chosen_sheet_sections(
                sheets,
                r.returned_pages@,
            ),
{
    let cache = match get_or_cache_excel(source, caches, file_path) {
        Ok(c) => c,
        Err(e) => {
            return failure(file_path, "Failed to get Excel content: ", e.as_str());
        },
    };
    let total = match cache.total_sheets {
        Some(n) => n,
        None => {
            return failure_plain(file_path, "Failed to determine Excel sheet count");
        },
    };
    let sel = match select_units(file_path, pages, total) {
        Ok(sel) => sel,
        Err(f) => {
            return f;
        },
    };
    if str_eq(pages, "all") {
        return unit_read_result(file_path, pages, total, sel, Ok(cache.content.clone()), "Failed to extract Excel sheets: ");
    }
    let reread = source.read_workbook(file_path);
    let ghost rv = reread;
    let content = sheets_content(file_path, sel.as_slice(), reread);
    let ghost sel_view = sel@;
    let r = unit_read_result(file_path, pages, total, sel, content, "Failed to extract Excel sheets: ");
    proof {
        if r.error is None {
            assert(rv is Ok);
            assert(r.content@ == file_header(file_path@) + chosen_sheet_sections(rv->Ok_0@, r.returned_pages@));
        }
    }
    r
}

// ---------------------------------------------------------------------------
// Word-processing documents
// ---------------------------------------------------------------------------

/// Reads and renders a word-processing document, with its estimated page
/// count (1 where its structure could not be read).
fn extract_docx_content<S: DocumentSource>(source: &S, file_path: &str) -> (r: Result<DocxCache, String>)
    ensures
        r is Ok ==> artifact_ok(&r->Ok_0),
{
    match source.read_docx(file_path) {
        Err(e) => Err(e),
        Ok((text, paragraphs)) => {
            let markdown = read_docx_to_markdown(file_path, text.as_str());
            let pages = match paragraphs {
                Some(n) => docx_page_estimate(n),
                None => 1,
            };
            Ok(DocxCache::from_markdown(markdown, pages))
        },
    }
}

/// The markdown of a word-processing document read again for a page
/// selection: page-level extraction is not available, so this is the whole
/// rendered document.
pub fn docx_content(file_path: &str, reread: Result<(String, Option<usize>), String>) -> (r: Result<String, String>)
    ensures
        match reread {
            Ok((text, _)) => r is Ok && r->Ok_0@ == docx_markdown(file_path@, text@),
            Err(e) => r is Err && r->Err_0@ == e@,
        },
{
    match reread {
        Err(e) => Err(e),
        Ok((text, _)) => Ok(read_docx_to_markdown(file_path, text.as_str())),
    }
}

/// The cached content of the document at `file_path`.
fn get_or_cache_docx<S: DocumentSource>(source: &S, caches: &mut DocumentCaches, file_path: &str) -> (r:
    Result<DocxCache, String>)
    requires
        old(caches).wf(),
    ensures
        final(caches).wf(),
{
    let modified = source.modified_time(file_path);
    let extractor = |p: &str| -> (r: Result<DocxCache, String>)
        ensures
            r is Ok ==> artifact_ok(&r->Ok_0),
        { extract_docx_content(source, p) };
    caches.docx.get_or_cache(file_path, modified, extractor)
}

/// Reads the word-processing document at `file_path` with the page
/// selection `pages`.
pub fn process_docx_with_pages<S: DocumentSource>(
    source: &S,
    caches: &mut DocumentCaches,
    file_path: &str,
    pages: &str,
) -> (r: DocumentProcessingResult)
    requires
        old(caches).wf(),
    ensures
        final(caches).wf(),
        sound_read(r, file_path@, pages@),
        r.error is None && pages@ != "all"@ ==> exists|text: Seq<char>|
            r.content@ == #[trigger] docx_markdown(file_path@, text),
{
    let cache = match get_or_cache_docx(source, caches, file_path) {
        Ok(c) => c,
        Err(e) => {
            return failure(file_path, "Failed to get DOCX content: ", e.as_str());
        },
    };
    let total = match cache.total_pages {
        Some(n) => n,
        None => 1,
    };
    let sel = match select_units(file_path, pages, total) {
        Ok(sel) => sel,
        Err(f) => {
            return f;
        },
    };
    if str_eq(pages, "all") {
        return unit_read_result(file_path, pages, total, sel, Ok(cache.content.clone()), "Failed to extract DOCX pages: ");
    }
    let reread = source.read_docx(file_path);
    let ghost rv = reread;
    let content = docx_content(file_path, reread);
    let r = unit_read_result(file_path, pages, total, sel, content, "Failed to extract DOCX pages: ");
    proof {
        if r.error is None {
            assert(rv is Ok);
            assert(r.content@ == docx_markdown(file_path@, rv->Ok_0.0@));
        }
    }
    r
}

// ---------------------------------------------------------------------------
// Presentations
// ---------------------------------------------------------------------------

/// Reads and renders a presentation: the title, then each slide that holds
/// text.
fn extract_powerpoint_content<S: DocumentSource>(source: &S, file_path: &str) -> (r: Result<
    PowerPointCache,
    String,
>)
    ensures
        r is Ok ==> artifact_ok(&r->Ok_0),
{
    match source.read_slides(file_path) {
        Err(e) => Err(e),
        Ok(slides) => {
            if !crate::artifacts::has_distinct_numbers(&slides) {
                let mut m = String::new();
                push_str(&mut m, "Slide numbers repeat in presentation: ");
                push_str(&mut m, file_path);
                return Err(m);
            }
            let mut markdown = generate_file_header(file_path);
            let body = slides_to_markdown(&slides);
            push_str(&mut markdown, body.as_str());
            Ok(PowerPointCache::from_markdown(markdown, slides))
        },
    }
}

/// The markdown of the requested slides of a presentation, from what
/// reading it again gave.
pub fn slides_content(file_path: &str, slide_numbers: &[usize], reread: Result<Vec<SlideText>, String>) -> (r:
    Result<String, String>)
    ensures
        match reread {
            Ok(slides) => r is Ok && r->Ok_0@ == file_header(file_path@) + chosen_slide_sections(
                slides@,
                slide_numbers@,
            ),
            Err(e) => r is Err && r->Err_0@ == e@,
        },
{
    match reread {
        Err(e) => Err(e),
        Ok(slides) => Ok(chosen_slides_to_markdown(file_path, &slides, slide_numbers)),
    }
}

/// The cached content of the presentation at `file_path`.
fn get_or_cache_powerpoint<S: DocumentSource>(source: &S, caches: &mut DocumentCaches, file_path: &str) -> (r:
    Result<PowerPointCache, String>)
    requires
        old(caches).wf(),
    ensures
        final(caches).wf(),
{
    let modified = source.modified_time(file_path);
    let extractor = |p: &str| -> (r: Result<PowerPointCache, String>)
        ensures
            r is Ok ==> artifact_ok(&r->Ok_0),
        { extract_powerpoint_content(source, p) };
    caches.powerpoint.get_or_cache(file_path, modified, extractor)
}

fn slide_failure(file_path: &str, prefix: &str, detail: &str) -> (r: PowerPointProcessingResult)
    ensures
        r.wf(),
        r.total_slides is None,
        r.slide_texts@.len() == 0,
        r.content@ == r.error->0@,
        r.error is Some && r.error->0@ == prefix@ + detail@,
        r.file_path@ == file_path@,
{
    let mut m = String::new();
    push_str(&mut m, prefix);
    push_str(&mut m, detail);
    proof {
        assert(m@ =~= prefix@ + detail@);
    }
    PowerPointProcessingResult::error(owned(file_path), m)
}

/// Reads the presentation at `resolved_file_path` with the slide selection
/// `slides` (all slides when none is given).
pub fn process_powerpoint_with_slides<S: DocumentSource>(
    source: &S,
    caches: &mut DocumentCaches,
    resolved_file_path: &str,
    slides: Option<String>,
) -> (r: PowerPointProcessingResult)
    requires
        old(caches).wf(),
    ensures
        final(caches).wf(),
        r.wf(),
        r.file_path@ == resolved_file_path@,
        r.error is None ==> r.total_slides is Some && selection_ok(
            r.requested_slides@,
            r.total_slides->0 as nat,
            r.returned_slides@,
        ),
        r.error is None ==> r.requested_slides@ == match slides {
            Some(s) => s@,
            None => "all"@,
        },
        r.error is Some ==> r.total_slides is None && r.slide_texts@.len() == 0 && r.content@
            == r.error->0@,
        r.error is None ==> selection_error(r.requested_slides@, r.total_slides->0 as nat) is None,
        r.error is None && r.returned_slides@.len() != r.total_slides->0 ==> exists|texts: Seq<SlideText>|
            r.content@ == file_header(resolved_file_path@) + #[trigger] chosen_slide_sections(
                texts,
                r.returned_slides@,
            ),
{
    let slides = match slides {
        Some(s) => s,
        None => owned("all"),
    };
    let exists = source.file_exists(resolved_file_path);
    match validate_file_path(resolved_file_path, exists) {
        Err(e) => {
            return PowerPointProcessingResult::error(owned(resolved_file_path), e);
        },
        Ok(_) => {},
    }
    let cache = match get_or_cache_powerpoint(source, caches, resolved_file_path) {
        Ok(c) => c,
        Err(e) => {
            return slide_failure(resolved_file_path, "Failed to extract PowerPoint content: ", e.as_str());
        },
    };
    let total = match cache.total_slides {
        Some(n) => n,
        None => 0,
    };
    let sel = match parse_pages_parameter(slides.as_str(), total) {
        Ok(sel) => sel,
        Err(m) => {
            return slide_failure(resolved_file_path, "Invalid slides parameter: ", m.as_str());
        },
    };
    let content = if sel.len() == total {
        cache.content.clone()
    } else {
        let reread = source.read_slides(resolved_file_path);
        let ghost rv = reread;
        match slides_content(resolved_file_path, sel.as_slice(), reread) {
            Ok(c) => {
                proof {
                    assert(rv is Ok);
                    assert(c@ == file_header(resolved_file_path@) + chosen_slide_sections(rv->Ok_0@, sel@));
                }
                c
            },
            Err(e) => {
                return slide_failure(resolved_file_path, "Failed to extract specific slides: ", e.as_str());
            },
        }
    };
    let texts = cache.slide_texts;
    PowerPointProcessingResult::success(
        content,
        Some(total),
        slides,
        sel,
        owned(resolved_file_path),
        texts,
    )
}

/// Whether a validation error reports a missing file.
fn reports_missing_file(e: &str) -> (r: bool)
    ensures
        r == crate::pdf::contains_text(e@, "File not found"@),
{
    text_contains(e, "File not found")
}

/// The validation error for a missing file names it as not found.
proof fn lemma_missing_file_reported(path: Seq<char>, exists: bool)
    ensures
        !exists ==> crate::pdf::contains_text(validation(path, exists)->Err_0, "File not found"@),
{
    if !exists {
        reveal_strlit("File not found");
        reveal_strlit("File not found: ");
        assert(("File not found: "@ + path).subrange(0, 14) =~= "File not found"@);
        assert(crate::pdf::occurs_at("File not found: "@ + path, "File not found"@, 0));
    }
}

/// Slide information of a presentation, from its cached content.
pub fn slide_info_result(file_path: &str, cached: &Result<PowerPointCache, String>) -> (r:
    PowerPointPageInfoResult)
    ensures
        r.file_path@ == file_path@,
        match cached {
            Err(e) => r.error is Some && r.error->0@ == "Failed to analyze PowerPoint file: "@ + e@
                && r.total_slides is None && r.slide_info@.len() == 0,
            Ok(c) => {
                let n: nat = match c.total_slides {
                    Some(n) => n as nat,
                    None => 0,
                };
                r.error is None && r.total_slides == Some(n as usize) && r.slide_info@
                    == "PowerPoint file with "@ + decimal(n) + " slides"@
            },
        },
{
    match cached {
        Ok(cache) => {
            let n = match cache.total_slides {
                Some(n) => n,
                None => 0,
            };
            let mut info = String::new();
            push_str(&mut info, "PowerPoint file with ");
            push_decimal(&mut info, n);
            push_str(&mut info, " slides");
            proof {
                assert(info@ =~= "PowerPoint file with "@ + decimal(n as nat) + " slides"@);
            }
            PowerPointPageInfoResult::success(owned(file_path), Some(n), info)
        },
        Err(e) => {
            let mut m = String::new();
            push_str(&mut m, "Failed to analyze PowerPoint file: ");
            push_str(&mut m, e.as_str());
            proof {
                assert(m@ =~= "Failed to analyze PowerPoint file: "@ + e@);
            }
            PowerPointPageInfoResult::error(owned(file_path), m)
        },
    }
}

/// The slide count of the presentation at `resolved_file_path`. A path that
/// fails validation is reported with `file_not_found` when the file is
/// missing, else with the reason.
pub fn get_powerpoint_slide_info<S: DocumentSource>(
    source: &S,
    caches: &mut DocumentCaches,
    resolved_file_path: &str,
) -> (r: PowerPointPageInfoResult)
    requires
        old(caches).wf(),
    ensures
        final(caches).wf(),
        r.file_path@ == resolved_file_path@,
        r.error is Some ==> r.total_slides is None && r.slide_info@.len() == 0,
        !names_known_kind(resolved_file_path@) ==> r.error is Some && (is_not_found(r.error)
            || r.error->0@ == validation(resolved_file_path@, true)->Err_0),
{
    let exists = source.file_exists(resolved_file_path);
    match validate_file_path(resolved_file_path, exists) {
        Err(e) => {
            proof {
                lemma_missing_file_reported(resolved_file_path@, exists);
            }
            if reports_missing_file(e.as_str()) {
                return PowerPointPageInfoResult::error(owned(resolved_file_path), owned("file_not_found"));
            }
            return PowerPointPageInfoResult::error(owned(resolved_file_path), e);
        },
        Ok(_) => {},
    }
    let cached = get_or_cache_powerpoint(source, caches, resolved_file_path);
    slide_info_result(resolved_file_path, &cached)
}

/// Whether a path names a kind of document that is read, whatever the file
/// system says of it.
pub open spec fn names_known_kind(path: Seq<char>) -> bool {
    extension(path) is Some && kind_of(extension(path)->0) is Some
}

// ---------------------------------------------------------------------------
// Routing by file type
// ---------------------------------------------------------------------------

/// A presentation read, as a document read.
fn process_powerpoint_with_pages_wrapper<S: DocumentSource>(
    source: &S,
    caches: &mut DocumentCaches,
    file_path: &str,
    pages: &str,
) -> (r: DocumentProcessingResult)
    requires
        old(caches).wf(),
    ensures
        final(caches).wf(),
        sound_read(r, file_path@, pages@),
{
    let ppt = process_powerpoint_with_slides(source, caches, file_path, Some(owned(pages)));
    match ppt.error {
        Some(e) => DocumentProcessingResult::error(owned(file_path), e),
        None => {
            proof {
                assert(ppt.requested_slides@ == pages@);
                assert(selection_error(ppt.requested_slides@, ppt.total_slides->0 as nat) is None);
            }
            DocumentProcessingResult::success(
                ppt.content,
                ppt.total_slides,
                ppt.requested_slides,
                ppt.returned_slides,
                owned(file_path),
            )
        },
    }
}

/// Reads the document at `resolved_file_path` with the unit selection
/// `pages` (all units when none is given), routed by its extension.
pub fn process_document_with_pages<S: DocumentSource>(
    source: &S,
    caches: &mut DocumentCaches,
    resolved_file_path: &str,
    pages: Option<String>,
) -> (r: DocumentProcessingResult)
    requires
        old(caches).wf(),
    ensures
        final(caches).wf(),
        sound_read(
            r,
            resolved_file_path@,
            match pages {
                Some(p) => p@,
                None => "all"@,
            },
        ),
        !names_known_kind(resolved_file_path@) ==> r.error is Some,
        kind_named(resolved_file_path@) == Some("pdf"@) && r.error is None ==> exists|text: Seq<char>|
            r.content@ == #[trigger] pdf_read_content(r, resolved_file_path@, r.requested_pages@, text),
        (kind_named(resolved_file_path@) == Some("xlsx"@) || kind_named(resolved_file_path@) == Some(
            "xls"@,
        )) && r.error is None && r.requested_pages@ != "all"@ ==> exists|sheets: Seq<Sheet>|
            r.content@ == file_header(resolved_file_path@) + #[trigger] chosen_sheet_sections(
                sheets,
                r.returned_pages@,
            ),
        names_docx(resolved_file_path@) && r.error is None && r.requested_pages@ != "all"@
            ==> exists|text: Seq<char>| r.content@ == #[trigger] docx_markdown(resolved_file_path@, text),
{
    let pages = match pages {
        Some(p) => p,
        None => owned("all"),
    };
    let exists = source.file_exists(resolved_file_path);
    let kind = match validate_file_path(resolved_file_path, exists) {
        Ok(k) => k,
        Err(e) => {
            return DocumentProcessingResult::error(owned(resolved_file_path), e);
        },
    };
    let k = kind.as_str();
    proof {
        reveal_strlit("docx");
        reveal_strlit("doc");
        reveal_strlit("xlsx");
        reveal_strlit("xls");
        reveal_strlit("pdf");
        reveal_strlit("pptx");
        reveal_strlit("ppt");
        assert(validation(resolved_file_path@, exists) is Ok);
        assert(kind_named(resolved_file_path@) == Some(k@));
        assert(k@ == "xlsx"@ ==> k@[0] == 'x');
        assert(k@ == "xls"@ ==> k@[0] == 'x');
        assert(k@ == "pdf"@ ==> k@[0] == 'p' && k@[1] == 'd');
        assert(k@ == "docx"@ ==> k@[0] == 'd');
        assert(k@ == "doc"@ ==> k@[0] == 'd');
    }
    if str_eq(k, "xlsx") || str_eq(k, "xls") {
        process_excel_with_pages(source, caches, resolved_file_path, pages.as_str())
    } else if str_eq(k, "pdf") {
        process_pdf_with_pages(source, caches, resolved_file_path, pages.as_str())
    } else if str_eq(k, "docx") || str_eq(k, "doc") {
        process_docx_with_pages(source, caches, resolved_file_path, pages.as_str())
    } else {
        process_powerpoint_with_pages_wrapper(source, caches, resolved_file_path, pages.as_str())
    }
}


/// `  1: name` lines, one per sheet.
pub open spec fn sheet_lines(names: Seq<String>, n: nat) -> Seq<char>
    decreases n,
{
    if n == 0 {
        Seq::empty()
    } else if n == 1 {
        "  "@ + decimal(1) + ": "@ + names[0]@
    } else {
        sheet_lines(names, (n - 1) as nat) + "\n"@ + "  "@ + decimal(n) + ": "@ + names[n - 1]@
    }
}

/// The summary of a workbook's sheets.
pub fn sheet_summary(names: &Vec<String>) -> (r: String)
    ensures
        r@ == "Excel file with "@ + decimal(names@.len()) + " sheets:\n"@ + sheet_lines(
            names@,
            names@.len(),
        ),
{
    let mut out = String::new();
    push_str(&mut out, "Excel file with ");
    push_decimal(&mut out, names.len());
    push_str(&mut out, " sheets:\n");
    let ghost head = out@;
    let mut i: usize = 0;
    while i < names.len()
        invariant
            i <= names@.len(),
            out@ == head + sheet_lines(names@, i as nat),
        decreases names@.len() - i,
    {
        if i > 0 {
            push_str(&mut out, "\n");
        }
        push_str(&mut out, "  ");
        push_decimal(&mut out, i + 1);
        push_str(&mut out, ": ");
        push_str(&mut out, names[i].as_str());
        i = i + 1;
        proof {
            assert(out@ =~= head + sheet_lines(names@, i as nat));
        }
    }
    proof {
        assert(out@ =~= "Excel file with "@ + decimal(names@.len()) + " sheets:\n"@ + sheet_lines(
            names@,
            names@.len(),
        ));
    }
    out
}

/// The error that page information reports for a path that failed
/// validation: `file_not_found` for a missing file, else the reason.
pub open spec fn info_error_text(e: Seq<char>) -> Seq<char> {
    if crate::pdf::contains_text(e, "File not found"@) {
        "file_not_found"@
    } else {
        e
    }
}

/// `r` reports, for `path`, the error `msg` and nothing else.
pub open spec fn info_failed(r: DocumentPageInfoResult, path: Seq<char>, msg: Seq<char>) -> bool {
    &&& r.file_path@ == path
    &&& r.total_pages is None
    &&& r.page_info@.len() == 0
    &&& r.error is Some && r.error->0@ == msg
}

/// `r` reports, for `path`, `n` units described by `info`.
pub open spec fn info_found(r: DocumentPageInfoResult, path: Seq<char>, n: nat, info: Seq<char>) -> bool {
    &&& r.file_path@ == path
    &&& r.total_pages == Some(n as usize)
    &&& r.page_info@ == info
    &&& r.error is None
}

/// Page information for a path that failed validation with `e`.
pub fn invalid_file_info(file_path: &str, e: String) -> (r: DocumentPageInfoResult)
    ensures
        info_failed(r, file_path@, info_error_text(e@)),
{
    if reports_missing_file(e.as_str()) {
        DocumentPageInfoResult::error(owned(file_path), owned("file_not_found"))
    } else {
        DocumentPageInfoResult::error(owned(file_path), e)
    }
}

fn info_failure(file_path: &str, prefix: &str, detail: &str) -> (r: DocumentPageInfoResult)
    ensures
        info_failed(r, file_path@, prefix@ + detail@),
{
    let mut m = String::new();
    push_str(&mut m, prefix);
    push_str(&mut m, detail);
    proof {
        assert(m@ =~= prefix@ + detail@);
    }
    DocumentPageInfoResult::error(owned(file_path), m)
}

/// Page information of a workbook, from its cached content.
pub fn excel_info(file_path: &str, cached: &Result<ExcelCache, String>) -> (r: DocumentPageInfoResult)
    ensures
        match cached {
            Err(e) => info_failed(r, file_path@, "Failed to analyze Excel file: "@ + e@),
            Ok(c) => info_found(
                r,
                file_path@,
                match c.total_sheets {
                    Some(n) => n as nat,
                    None => 0,
                },
                "Excel file with "@ + decimal(c.sheet_names@.len()) + " sheets:\n"@ + sheet_lines(
                    c.sheet_names@,
                    c.sheet_names@.len(),
                ),
            ),
        },
{
    match cached {
        Ok(cache) => {
            let n = match cache.total_sheets {
                Some(n) => n,
                None => 0,
            };
            let info = sheet_summary(&cache.sheet_names);
            DocumentPageInfoResult::success(owned(file_path), Some(n), info)
        },
        Err(e) => info_failure(file_path, "Failed to analyze Excel file: ", e.as_str()),
    }
}

/// Page information of a PDF, from its cached content.
pub fn pdf_info(file_path: &str, cached: &Result<PdfCache, String>) -> (r: DocumentPageInfoResult)
    ensures
        match cached {
            Err(e) => info_failed(r, file_path@, "Failed to analyze PDF: "@ + e@),
            Ok(c) => match c.total_pages {
                Some(n) => info_found(r, file_path@, n as nat, "PDF file with "@ + decimal(n as nat) + " pages"@),
                None => info_failed(r, file_path@, "Failed to determine PDF page count"@),
            },
        },
{
    match cached {
        Ok(cache) => match cache.total_pages {
            Some(n) => {
                let mut info = String::new();
                push_str(&mut info, "PDF file with ");
                push_decimal(&mut info, n);
                push_str(&mut info, " pages");
                proof {
                    assert(info@ =~= "PDF file with "@ + decimal(n as nat) + " pages"@);
                }
                DocumentPageInfoResult::success(owned(file_path), Some(n), info)
            },
            None => DocumentPageInfoResult::error(owned(file_path), owned("Failed to determine PDF page count")),
        },
        Err(e) => info_failure(file_path, "Failed to analyze PDF: ", e.as_str()),
    }
}

/// Page information of a word-processing document, from its cached content;
/// a document that cannot be read counts as one page.
pub fn docx_info(file_path: &str, cached: &Result<DocxCache, String>) -> (r: DocumentPageInfoResult)
    ensures
        match cached {
            Err(_) => info_found(
                r,
                file_path@,
                1,
                "DOCX file (page count estimation failed, defaulting to 1 page)"@,
            ),
            Ok(c) => {
                let n: nat = match c.total_pages {
                    Some(n) => if n >= 1 { n as nat } else { 1 },
                    None => 1,
                };
                info_found(r, file_path@, n, "DOCX file with "@ + decimal(n) + " estimated pages"@)
            },
        },
{
    match cached {
        Ok(cache) => {
            let n = match cache.total_pages {
                Some(n) => if n >= 1 { n } else { 1 },
                None => 1,
            };
            let mut info = String::new();
            push_str(&mut info, "DOCX file with ");
            push_decimal(&mut info, n);
            push_str(&mut info, " estimated pages");
            proof {
                assert(info@ =~= "DOCX file with "@ + decimal(n as nat) + " estimated pages"@);
            }
            DocumentPageInfoResult::success(owned(file_path), Some(n), info)
        },
        Err(_) => DocumentPageInfoResult::success(
            owned(file_path),
            Some(1),
            owned("DOCX file (page count estimation failed, defaulting to 1 page)"),
        ),
    }
}

/// The kind of document a path names, when it names one.
pub open spec fn kind_named(path: Seq<char>) -> Option<Seq<char>> {
    match extension(path) {
        Some(ext) => kind_of(ext),
        None => None,
    }
}

/// Whether a path names a word-processing document.
pub open spec fn names_docx(path: Seq<char>) -> bool {
    kind_named(path) == Some("docx"@) || kind_named(path) == Some("doc"@)
}

/// The unit count of the document at `resolved_file_path`, read without
/// rendering a selection. A path that fails validation is reported with
/// `file_not_found` when the file is missing, else with the reason; a
/// word-processing document that exists always has at least one page.
pub fn get_document_page_info<S: DocumentSource>(
    source: &S,
    caches: &mut DocumentCaches,
    resolved_file_path: &str,
) -> (r: DocumentPageInfoResult)
    requires
        old(caches).wf(),
    ensures
        final(caches).wf(),
        r.file_path@ == resolved_file_path@,
        r.error is Some ==> r.total_pages is None && r.page_info@.len() == 0,
        !names_known_kind(resolved_file_path@) ==> r.error is Some && (is_not_found(r.error)
            || r.error->0@ == validation(resolved_file_path@, true)->Err_0),
        names_docx(resolved_file_path@) ==> is_not_found(r.error) || (r.error is None
            && r.total_pages is Some && r.total_pages->0 >= 1),
{
    let exists = source.file_exists(resolved_file_path);
    let kind = match validate_file_path(resolved_file_path, exists) {
        Ok(k) => k,
        Err(e) => {
            let r = invalid_file_info(resolved_file_path, e);
            proof {
                lemma_missing_file_reported(resolved_file_path@, exists);
            }
            return r;
        },
    };
    let k = kind.as_str();
    proof {
        reveal_strlit("docx");
        reveal_strlit("doc");
        reveal_strlit("xlsx");
        reveal_strlit("xls");
        reveal_strlit("pdf");
        assert(validation(resolved_file_path@, exists) is Ok);
        assert(kind_named(resolved_file_path@) == Some(k@));
        if names_docx(resolved_file_path@) {
            assert(k@ == "docx"@ || k@ == "doc"@);
            assert(k@[0] == 'd');
            assert("xlsx"@[0] == 'x' && "xls"@[0] == 'x' && "pdf"@[0] == 'p');
            assert(k@ != "xlsx"@ && k@ != "xls"@ && k@ != "pdf"@);
        }
    }
    if str_eq(k, "xlsx") || str_eq(k, "xls") {
        let cached = get_or_cache_excel(source, caches, resolved_file_path);
        excel_info(resolved_file_path, &cached)
    } else if str_eq(k, "pdf") {
        let cached = get_or_cache_pdf_content(source, caches, resolved_file_path);
        pdf_info(resolved_file_path, &cached)
    } else if str_eq(k, "docx") || str_eq(k, "doc") {
        let cached = get_or_cache_docx(source, caches, resolved_file_path);
        docx_info(resolved_file_path, &cached)
    } else {
        let ppt = get_powerpoint_slide_info(source, caches, resolved_file_path);
        match ppt.error {
            Some(e) => DocumentPageInfoResult::error(owned(resolved_file_path), e),
            None => DocumentPageInfoResult::success(owned(resolved_file_path), ppt.total_slides, ppt.slide_info),
        }
    }
}

// ---------------------------------------------------------------------------
// Slide snapshots
// ---------------------------------------------------------------------------

/// The image formats a slide can be rendered in.
pub open spec fn supported_format(f: Seq<char>) -> bool {
    same_word(f, "png"@) || same_word(f, "jpg"@) || same_word(f, "jpeg"@)
}

fn snapshot_failure(slide_number: usize, prefix: &str, detail: &str, suffix: &str) -> (r: SlideSnapshotResult)
    ensures
        r.slide_number == slide_number,
        r.image_data is None,
        r.error is Some && r.error->0@ == prefix@ + detail@ + suffix@,
{
    let mut m = String::new();
    push_str(&mut m, prefix);
    push_str(&mut m, detail);
    push_str(&mut m, suffix);
    proof {
        assert(m@ =~= prefix@ + detail@ + suffix@);
    }
    SlideSnapshotResult::error(slide_number, m)
}

/// Renders slide `slide_number` (from 1) of the presentation at
/// `resolved_file_path` as an image in `output_format` (png, jpg or jpeg, in
/// any case), after checking the number, the format, the file and the slide
/// count.
pub fn generate_slide_snapshot<S: DocumentSource>(
    source: &S,
    resolved_file_path: &str,
    slide_number: usize,
    output_format: &str,
) -> (r: SlideSnapshotResult)
    ensures
        r.slide_number == slide_number,
        slide_number == 0 ==> r.error is Some && r.error->0@ == "Slide number must be greater than 0"@,
        slide_number > 0 && !supported_format(output_format@) ==> r.error is Some && r.error->0@
            == "Unsupported format '"@ + output_format@ + "'. Supported formats: png, jpg, jpeg"@,
        r.error is None ==> r.image_data is Some && r.image_format@ == output_format@,
        r.error is None ==> slide_number > 0 && supported_format(output_format@),
        r.error is Some ==> r.image_data is None,
{
    if slide_number == 0 {
        return SlideSnapshotResult::error(slide_number, owned("Slide number must be greater than 0"));
    }
    let f = chars_of(output_format);
    proof {
        assert(f@.subrange(0, f@.len() as int) =~= output_format@);
    }
    if !(same_word_exec(f.as_slice(), 0, f.len(), "png") || same_word_exec(f.as_slice(), 0, f.len(), "jpg")
        || same_word_exec(f.as_slice(), 0, f.len(), "jpeg")) {
        return snapshot_failure(
            slide_number,
            "Unsupported format '",
            output_format,
            "'. Supported formats: png, jpg, jpeg",
        );
    }
    if !source.file_exists(resolved_file_path) {
        return snapshot_failure(slide_number, "PowerPoint file not found: ", resolved_file_path, "");
    }
    match slide_out_of_range(slide_number, source.count_slides(resolved_file_path)) {
        Some(f) => f,
        None => snapshot_of_render(
            slide_number,
            output_format,
            source.render_slide(resolved_file_path, slide_number, output_format),
        ),
    }
}

/// The failure that ends a snapshot once the presentation's slide count is
/// known (or could not be read), if the slide is not among its slides.
pub fn slide_out_of_range(slide_number: usize, counted: Result<usize, String>) -> (r: Option<
    SlideSnapshotResult,
>)
    ensures
        match counted {
            Err(e) => r is Some && r->0.slide_number == slide_number && r->0.image_data is None
                && r->0.error is Some && r->0.error->0@ == "Failed to get slide count: "@ + e@,
            Ok(n) => if slide_number > n {
                r is Some && r->0.slide_number == slide_number && r->0.image_data is None
                    && r->0.error is Some && r->0.error->0@ == "Slide "@ + decimal(slide_number as nat)
                    + " does not exist. File has "@ + decimal(n as nat) + " slides"@
            } else {
                r is None
            },
        },
{
    match counted {
        Err(e) => {
            let f = snapshot_failure(slide_number, "Failed to get slide count: ", e.as_str(), "");
            proof {
                reveal_strlit("");
                assert("Failed to get slide count: "@ + e@ + ""@ =~= "Failed to get slide count: "@ + e@);
            }
            Some(f)
        },
        Ok(total) => {
            if slide_number > total {
                let mut m = String::new();
                push_str(&mut m, "Slide ");
                push_decimal(&mut m, slide_number);
                push_str(&mut m, " does not exist. File has ");
                push_decimal(&mut m, total);
                push_str(&mut m, " slides");
                proof {
                    assert(m@ =~= "Slide "@ + decimal(slide_number as nat) + " does not exist. File has "@
                        + decimal(total as nat) + " slides"@);
                }
                Some(SlideSnapshotResult::error(slide_number, m))
            } else {
                None
            }
        },
    }
}

/// The snapshot of a slide, from what rendering it gave.
pub fn snapshot_of_render(slide_number: usize, output_format: &str, rendered: Result<Vec<u8>, String>) -> (r:
    SlideSnapshotResult)
    ensures
        r.slide_number == slide_number,
        match rendered {
            Ok(d) => r.error is None && r.image_data == Some(d) && r.image_format@ == output_format@,
            Err(e) => r.image_data is None && r.error is Some && r.error->0@ == "Failed to render slide: "@
                + e@,
        },
{
    match rendered {
        Ok(data) => {
            let ghost d = data;
            let r = SlideSnapshotResult::success(slide_number, data, owned(output_format));
            proof {
                assert(r.image_data == Some(d));
            }
            r
        },
        Err(e) => {
            let f = snapshot_failure(slide_number, "Failed to render slide: ", e.as_str(), "");
            proof {
                reveal_strlit("");
                assert("Failed to render slide: "@ + e@ + ""@ =~= "Failed to render slide: "@ + e@);
            }
            f
        },
    }
}

} // verus!
