//! The cached artifact of each document type: the rendered markdown, its
//! character offsets, the unit count, and what each format adds.
use vstd::prelude::*;
use crate::cache::CacheableContent;
use crate::char_index::{build_char_indices, offsets_ok};

verus! {

/// Cached content of a PDF document.
pub struct PdfCache {
    pub content: String,
    pub char_indices: Vec<usize>,
    pub total_pages: Option<usize>,
}

/// Cached content of a workbook; its units are sheets.
pub struct ExcelCache {
    pub content: String,
    pub char_indices: Vec<usize>,
    pub total_sheets: Option<usize>,
    pub sheet_names: Vec<String>,
}

/// Cached content of a word-processing document.
pub struct DocxCache {
    pub content: String,
    pub char_indices: Vec<usize>,
    pub total_pages: Option<usize>,
}

/// The text of one slide, by its 1-based number.
pub struct SlideText {
    pub number: usize,
    pub text: String,
}

/// Cached content of a presentation; its units are slides.
pub struct PowerPointCache {
    pub content: String,
    pub char_indices: Vec<usize>,
    pub total_slides: Option<usize>,
    pub slide_texts: Vec<SlideText>,
}

fn copy_indices(v: &Vec<usize>) -> (r: Vec<usize>)
    ensures
        r@ == v@,
{
    let mut out: Vec<usize> = Vec::new();
    let mut i: usize = 0;
    while i < v.len()
        invariant
            i <= v@.len(),
            out@ == v@.take(i as int),
        decreases v@.len() - i,
    {
        out.push(v[i]);
        i = i + 1;
        proof {
            assert(out@ =~= v@.take(i as int));
        }
    }
    proof {
        assert(v@.take(v@.len() as int) =~= v@);
    }
    out
}

fn copy_strings(v: &Vec<String>) -> (r: Vec<String>)
    ensures
        r@.len() == v@.len(),
        forall|i: int| 0 <= i < v@.len() ==> #[trigger] r@[i]@ == v@[i]@,
{
    let mut out: Vec<String> = Vec::new();
    let mut i: usize = 0;
    while i < v.len()
        invariant
            i <= v@.len(),
            out@.len() == i,
            forall|k: int| 0 <= k < i ==> #[trigger] out@[k]@ == v@[k]@,
        decreases v@.len() - i,
    {
        out.push(v[i].clone());
        i = i + 1;
    }
    out
}

fn copy_slides(v: &Vec<SlideText>) -> (r: Vec<SlideText>)
    ensures
        r@.len() == v@.len(),
        forall|i: int|
            0 <= i < v@.len() ==> (#[trigger] r@[i]).number == v@[i].number && r@[i].text@
                == v@[i].text@,
{
    let mut out: Vec<SlideText> = Vec::new();
    let mut i: usize = 0;
    while i < v.len()
        invariant
            i <= v@.len(),
            out@.len() == i,
            forall|k: int|
                0 <= k < i ==> (#[trigger] out@[k]).number == v@[k].number && out@[k].text@
                    == v@[k].text@,
        decreases v@.len() - i,
    {
        out.push(SlideText { number: v[i].number, text: v[i].text.clone() });
        i = i + 1;
    }
    out
}

impl PdfCache {
    /// The cache of a PDF whose extracted text is `content`.
    pub fn from_text(content: String, total_pages: Option<usize>) -> (r: Self)
        ensures
            r.content@ == content@,
            offsets_ok(r.content@, r.char_indices@),
            r.total_pages == total_pages,
    {
        let char_indices = build_char_indices(content.as_str());
        PdfCache { content, char_indices, total_pages }
    }
}

impl CacheableContent for PdfCache {
    open spec fn spec_total_units(&self) -> Option<usize> {
        self.total_pages
    }

    open spec fn spec_content(&self) -> Seq<char> {
        self.content@
    }

    open spec fn spec_char_indices(&self) -> Seq<usize> {
        self.char_indices@
    }

    fn total_units(&self) -> (r: Option<usize>) {
        self.total_pages
    }

    fn full_content(&self) -> (r: &str) {
        self.content.as_str()
    }

    fn char_indices(&self) -> (r: &[usize]) {
        self.char_indices.as_slice()
    }

    fn duplicate(&self) -> (r: Self) {
        PdfCache {
            content: self.content.clone(),
            char_indices: copy_indices(&self.char_indices),
            total_pages: self.total_pages,
        }
    }
}

impl ExcelCache {
    /// The cache of a workbook rendered as `content`, with its sheet names.
    pub fn from_markdown(content: String, sheet_names: Vec<String>) -> (r: Self)
        ensures
            r.content@ == content@,
            offsets_ok(r.content@, r.char_indices@),
            r.total_sheets == Some(sheet_names@.len() as usize),
            r.sheet_names@ == sheet_names@,
    {
        let char_indices = build_char_indices(content.as_str());
        let n = sheet_names.len();
        ExcelCache { content, char_indices, total_sheets: Some(n), sheet_names }
    }
}

impl CacheableContent for ExcelCache {
    open spec fn spec_total_units(&self) -> Option<usize> {
        self.total_sheets
    }

    open spec fn spec_content(&self) -> Seq<char> {
        self.content@
    }

    open spec fn spec_char_indices(&self) -> Seq<usize> {
        self.char_indices@
    }

    fn total_units(&self) -> (r: Option<usize>) {
        self.total_sheets
    }

    fn full_content(&self) -> (r: &str) {
        self.content.as_str()
    }

    fn char_indices(&self) -> (r: &[usize]) {
        self.char_indices.as_slice()
    }

    fn duplicate(&self) -> (r: Self) {
        ExcelCache {
            content: self.content.clone(),
            char_indices: copy_indices(&self.char_indices),
            total_sheets: self.total_sheets,
            sheet_names: copy_strings(&self.sheet_names),
        }
    }
}

impl DocxCache {
    /// The cache of a document rendered as `content`, with its estimated page
    /// count.
    pub fn from_markdown(content: String, total_pages: usize) -> (r: Self)
        ensures
            r.content@ == content@,
            offsets_ok(r.content@, r.char_indices@),
            r.total_pages == Some(total_pages),
    {
        let char_indices = build_char_indices(content.as_str());
        DocxCache { content, char_indices, total_pages: Some(total_pages) }
    }
}

impl CacheableContent for DocxCache {
    open spec fn spec_total_units(&self) -> Option<usize> {
        self.total_pages
    }

    open spec fn spec_content(&self) -> Seq<char> {
        self.content@
    }

    open spec fn spec_char_indices(&self) -> Seq<usize> {
        self.char_indices@
    }

    fn total_units(&self) -> (r: Option<usize>) {
        self.total_pages
    }

    fn full_content(&self) -> (r: &str) {
        self.content.as_str()
    }

    fn char_indices(&self) -> (r: &[usize]) {
        self.char_indices.as_slice()
    }

    fn duplicate(&self) -> (r: Self) {
        DocxCache {
            content: self.content.clone(),
            char_indices: copy_indices(&self.char_indices),
            total_pages: self.total_pages,
        }
    }
}

/// No two slides share a number.
pub open spec fn distinct_slide_numbers(slides: Seq<SlideText>) -> bool {
    forall|i: int, j: int| 0 <= i < j < slides.len() ==> (#[trigger] slides[i]).number != (#[trigger] slides[j]).number
}

/// Whether no two of `slides` share a number.
pub fn has_distinct_numbers(slides: &Vec<SlideText>) -> (r: bool)
    ensures
        r == distinct_slide_numbers(slides@),
{
    let mut i: usize = 0;
    while i < slides.len()
        invariant
            i <= slides@.len(),
            forall|a: int, b: int| 0 <= a < b < slides@.len() && a < i ==> (#[trigger] slides@[a]).number
                != (#[trigger] slides@[b]).number,
        decreases slides@.len() - i,
    {
        let mut j: usize = i + 1;
        while j < slides.len()
            invariant
                i < slides@.len(),
                i + 1 <= j <= slides@.len(),
                forall|a: int, b: int| 0 <= a < b < slides@.len() && a < i ==> (#[trigger] slides@[a]).number
                    != (#[trigger] slides@[b]).number,
                forall|b: int| i < b < j ==> slides@[i as int].number != (#[trigger] slides@[b]).number,
            decreases slides@.len() - j,
        {
            if slides[i].number == slides[j].number {
                return false;
            }
            j = j + 1;
        }
        i = i + 1;
    }
    true
}

impl PowerPointCache {
    /// The slides are numbered without repetition.
    pub open spec fn wf(&self) -> bool {
        distinct_slide_numbers(self.slide_texts@)
    }

    /// The cache of a presentation rendered as `content`, with the text of
    /// each slide.
    pub fn from_markdown(content: String, slide_texts: Vec<SlideText>) -> (r: Self)
        requires
            distinct_slide_numbers(slide_texts@),
        ensures
            r.wf(),
            r.content@ == content@,
            offsets_ok(r.content@, r.char_indices@),
            r.total_slides == Some(slide_texts@.len() as usize),
            r.slide_texts@ == slide_texts@,
    {
        let char_indices = build_char_indices(content.as_str());
        let n = slide_texts.len();
        PowerPointCache { content, char_indices, total_slides: Some(n), slide_texts }
    }
}

impl CacheableContent for PowerPointCache {
    open spec fn spec_total_units(&self) -> Option<usize> {
        self.total_slides
    }

    open spec fn spec_content(&self) -> Seq<char> {
        self.content@
    }

    open spec fn spec_char_indices(&self) -> Seq<usize> {
        self.char_indices@
    }

    fn total_units(&self) -> (r: Option<usize>) {
        self.total_slides
    }

    fn full_content(&self) -> (r: &str) {
        self.content.as_str()
    }

    fn char_indices(&self) -> (r: &[usize]) {
        self.char_indices.as_slice()
    }

    fn duplicate(&self) -> (r: Self) {
        PowerPointCache {
            content: self.content.clone(),
            char_indices: copy_indices(&self.char_indices),
            total_slides: self.total_slides,
            slide_texts: copy_slides(&self.slide_texts),
        }
    }
}

} // verus!
