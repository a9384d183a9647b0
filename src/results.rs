//! The records handed back to callers: processing results, page information,
//! slide snapshots and streaming progress.
use vstd::prelude::*;
use crate::artifacts::SlideText;
use crate::paths::{debug_list, push_debug_list};
use crate::text::{decimal, push_decimal, push_str, str_eq};

verus! {

/// The outcome of reading a document with a unit selection.
pub struct DocumentProcessingResult {
    pub content: String,
    pub total_pages: Option<usize>,
    pub requested_pages: String,
    pub returned_pages: Vec<usize>,
    pub file_path: String,
    pub error: Option<String>,
}

/// The unit count of a document, read without its content.
pub struct DocumentPageInfoResult {
    pub file_path: String,
    pub total_pages: Option<usize>,
    pub page_info: String,
    pub error: Option<String>,
}

/// The outcome of reading a presentation with a slide selection.
pub struct PowerPointProcessingResult {
    pub content: String,
    pub total_slides: Option<usize>,
    pub requested_slides: String,
    pub returned_slides: Vec<usize>,
    pub file_path: String,
    pub slide_texts: Vec<SlideText>,
    pub error: Option<String>,
}

/// The slide count of a presentation.
pub struct PowerPointPageInfoResult {
    pub file_path: String,
    pub total_slides: Option<usize>,
    pub slide_info: String,
    pub error: Option<String>,
}

/// An image of one slide, or why there is none.
pub struct SlideSnapshotResult {
    pub slide_number: usize,
    pub image_data: Option<Vec<u8>>,
    pub image_format: String,
    pub error: Option<String>,
}

/// One step of streaming a document: the position reached, the unit count
/// if known, the chunk produced, and whether the stream is done.
pub struct ProcessingProgress {
    pub current_page: usize,
    pub total_pages: Option<usize>,
    pub current_chunk: String,
    pub is_complete: bool,
    pub error: Option<String>,
}

/// Settings of the streaming chunker.
pub struct StreamingConfig {
    pub max_chunk_size_chars: usize,
}

/// The chunk size used when none is given.
pub const DEFAULT_MAX_CHUNK_CHARS: usize = 10000;

impl StreamingConfig {
    /// The default settings: chunks of at most `DEFAULT_MAX_CHUNK_CHARS`.
    pub fn default() -> (r: Self)
        ensures
            r.max_chunk_size_chars == DEFAULT_MAX_CHUNK_CHARS,
    {
        StreamingConfig { max_chunk_size_chars: DEFAULT_MAX_CHUNK_CHARS }
    }
}

/// Whether `error` is the marker of a missing file.
pub open spec fn is_not_found(error: Option<String>) -> bool {
    error is Some && error->0@ == "file_not_found"@
}

fn not_found_marker(error: &Option<String>) -> (r: bool)
    ensures
        r == is_not_found(*error),
{
    match error {
        Some(e) => str_eq(e.as_str(), "file_not_found"),
        None => false,
    }
}

impl DocumentProcessingResult {
    /// A failure leaves no partial selection behind.
    pub open spec fn wf(&self) -> bool {
        self.error is Some ==> self.requested_pages@.len() == 0 && self.returned_pages@.len() == 0
    }

    /// A successful read.
    pub fn success(
        content: String,
        total_pages: Option<usize>,
        requested_pages: String,
        returned_pages: Vec<usize>,
        file_path: String,
    ) -> (r: Self)
        ensures
            r.wf(),
            r.content == content,
            r.total_pages == total_pages,
            r.requested_pages == requested_pages,
            r.returned_pages == returned_pages,
            r.file_path == file_path,
            r.error is None,
    {
        DocumentProcessingResult {
            content,
            total_pages,
            requested_pages,
            returned_pages,
            file_path,
            error: None,
        }
    }

    /// A failed read: the message stands as content too.
    pub fn error(file_path: String, error: String) -> (r: Self)
        ensures
            r.wf(),
            r.content@ == error@,
            r.total_pages is None,
            r.requested_pages@.len() == 0,
            r.returned_pages@.len() == 0,
            r.file_path == file_path,
            r.error == Some(error),
    {
        DocumentProcessingResult {
            content: error.clone(),
            total_pages: None,
            requested_pages: String::new(),
            returned_pages: Vec::new(),
            file_path,
            error: Some(error),
        }
    }
}

impl DocumentPageInfoResult {
    /// Page information that was found.
    pub fn success(file_path: String, total_pages: Option<usize>, page_info: String) -> (r: Self)
        ensures
            r.file_path == file_path,
            r.total_pages == total_pages,
            r.page_info == page_info,
            r.error is None,
    {
        DocumentPageInfoResult { file_path, total_pages, page_info, error: None }
    }

    /// Page information that could not be found.
    pub fn error(file_path: String, error: String) -> (r: Self)
        ensures
            r.file_path == file_path,
            r.total_pages is None,
            r.page_info@.len() == 0,
            r.error == Some(error),
    {
        DocumentPageInfoResult { file_path, total_pages: None, page_info: String::new(), error: Some(error) }
    }

    /// Whether the file was there: no error, or an error other than a
    /// missing file.
    pub fn file_exists(&self) -> (r: bool)
        ensures
            r == !is_not_found(self.error),
    {
        !not_found_marker(&self.error)
    }
}

impl PowerPointProcessingResult {
    /// A failure leaves no partial selection behind.
    pub open spec fn wf(&self) -> bool {
        self.error is Some ==> self.requested_slides@.len() == 0 && self.returned_slides@.len() == 0
    }

    /// A successful read.
    pub fn success(
        content: String,
        total_slides: Option<usize>,
        requested_slides: String,
        returned_slides: Vec<usize>,
        file_path: String,
        slide_texts: Vec<SlideText>,
    ) -> (r: Self)
        ensures
            r.wf(),
            r.content == content,
            r.total_slides == total_slides,
            r.requested_slides == requested_slides,
            r.returned_slides == returned_slides,
            r.file_path == file_path,
            r.slide_texts == slide_texts,
            r.error is None,
    {
        PowerPointProcessingResult {
            content,
            total_slides,
            requested_slides,
            returned_slides,
            file_path,
            slide_texts,
            error: None,
        }
    }

    /// A failed read: the message stands as content too.
    pub fn error(file_path: String, error: String) -> (r: Self)
        ensures
            r.wf(),
            r.content@ == error@,
            r.total_slides is None,
            r.requested_slides@.len() == 0,
            r.returned_slides@.len() == 0,
            r.file_path == file_path,
            r.slide_texts@.len() == 0,
            r.error == Some(error),
    {
        PowerPointProcessingResult {
            content: error.clone(),
            total_slides: None,
            requested_slides: String::new(),
            returned_slides: Vec::new(),
            file_path,
            slide_texts: Vec::new(),
            error: Some(error),
        }
    }
}

impl PowerPointPageInfoResult {
    /// Slide information that was found.
    pub fn success(file_path: String, total_slides: Option<usize>, slide_info: String) -> (r: Self)
        ensures
            r.file_path == file_path,
            r.total_slides == total_slides,
            r.slide_info == slide_info,
            r.error is None,
    {
        PowerPointPageInfoResult { file_path, total_slides, slide_info, error: None }
    }

    /// Slide information that could not be found.
    pub fn error(file_path: String, error: String) -> (r: Self)
        ensures
            r.file_path == file_path,
            r.total_slides is None,
            r.slide_info@.len() == 0,
            r.error == Some(error),
    {
        PowerPointPageInfoResult { file_path, total_slides: None, slide_info: String::new(), error: Some(error) }
    }

    /// Whether the file was there: no error, or an error other than a
    /// missing file.
    pub fn file_exists(&self) -> (r: bool)
        ensures
            r == !is_not_found(self.error),
    {
        !not_found_marker(&self.error)
    }
}

impl SlideSnapshotResult {
    /// A rendered slide.
    pub fn success(slide_number: usize, image_data: Vec<u8>, image_format: String) -> (r: Self)
        ensures
            r.slide_number == slide_number,
            r.image_data == Some(image_data),
            r.image_format == image_format,
            r.error is None,
    {
        SlideSnapshotResult { slide_number, image_data: Some(image_data), image_format, error: None }
    }

    /// A slide that could not be rendered.
    pub fn error(slide_number: usize, error: String) -> (r: Self)
        ensures
            r.slide_number == slide_number,
            r.image_data is None,
            r.image_format@.len() == 0,
            r.error == Some(error),
    {
        SlideSnapshotResult { slide_number, image_data: None, image_format: String::new(), error: Some(error) }
    }
}

/// The path of a document to read.
pub struct ReadOfficeDocumentInput {
    pub file_path: String,
}

/// A slide to render: the presentation, the 1-based slide number and the
/// image format (png when none is given).
pub struct GeneratePowerpointSlideSnapshotInput {
    pub file_path: String,
    pub slide_number: usize,
    pub output_format: Option<String>,
}

/// A document to stream, with the chunk size in characters (the default
/// when none is given).
pub struct StreamOfficeDocumentInput {
    pub file_path: String,
    pub chunk_size: Option<usize>,
}

/// Page information as reported to a client.
pub struct DocumentPageInfo {
    pub file_path: String,
    pub total_pages: Option<usize>,
    pub file_exists: bool,
    pub error: Option<String>,
    pub page_info: String,
}

/// The report of page information.
pub open spec fn page_info_text(i: DocumentPageInfo) -> Seq<char> {
    if i.file_exists {
        match i.error {
            Some(e) => "File: "@ + i.file_path@ + "\nError: "@ + e@,
            None => match i.total_pages {
                Some(n) => "File: "@ + i.file_path@ + "\nTotal pages: "@ + decimal(n as nat) + "\n"@
                    + i.page_info@,
                None => "File: "@ + i.file_path@ + "\nPage information not available"@,
            },
        }
    } else {
        "File: "@ + i.file_path@ + "\nFile not found"@
    }
}

impl DocumentPageInfo {
    /// The client's view of a page information result.
    pub fn from_result(result: DocumentPageInfoResult) -> (r: Self)
        ensures
            r.file_path == result.file_path,
            r.total_pages == result.total_pages,
            r.file_exists == !is_not_found(result.error),
            r.error == result.error,
            r.page_info == result.page_info,
    {
        let file_exists = result.file_exists();
        DocumentPageInfo {
            file_path: result.file_path,
            total_pages: result.total_pages,
            file_exists,
            error: result.error,
            page_info: result.page_info,
        }
    }

    /// The report sent to the client.
    pub fn summary(&self) -> (r: String)
        ensures
            r@ == page_info_text(*self),
    {
        let mut out = String::new();
        push_str(&mut out, "File: ");
        push_str(&mut out, self.file_path.as_str());
        if self.file_exists {
            match &self.error {
                Some(e) => {
                    push_str(&mut out, "\nError: ");
                    push_str(&mut out, e.as_str());
                },
                None => match self.total_pages {
                    Some(n) => {
                        push_str(&mut out, "\nTotal pages: ");
                        push_decimal(&mut out, n);
                        push_str(&mut out, "\n");
                        push_str(&mut out, self.page_info.as_str());
                    },
                    None => {
                        push_str(&mut out, "\nPage information not available");
                    },
                },
            }
        } else {
            push_str(&mut out, "\nFile not found");
        }
        proof {
            assert(out@ =~= page_info_text(*self));
        }
        out
    }
}

/// A document read as reported to a client.
pub struct PageBasedDocumentContent {
    pub content: String,
    pub total_pages: Option<usize>,
    pub requested_pages: String,
    pub returned_pages: Vec<usize>,
    pub file_path: String,
}

/// The report of a document read: its metadata, a blank line, its content.
pub open spec fn page_content_text(c: PageBasedDocumentContent) -> Seq<char> {
    "File: "@ + c.file_path@ + match c.total_pages {
        Some(n) => "\nTotal pages: "@ + decimal(n as nat),
        None => Seq::empty(),
    } + "\nRequested pages: "@ + c.requested_pages@ + "\nReturned pages: "@ + debug_list(
        c.returned_pages@,
    ) + "\n\n"@ + c.content@
}

impl PageBasedDocumentContent {
    /// The client's view of a processing result.
    pub fn from_result(result: DocumentProcessingResult) -> (r: Self)
        ensures
            r.content == result.content,
            r.total_pages == result.total_pages,
            r.requested_pages == result.requested_pages,
            r.returned_pages == result.returned_pages,
            r.file_path == result.file_path,
    {
        PageBasedDocumentContent {
            content: result.content,
            total_pages: result.total_pages,
            requested_pages: result.requested_pages,
            returned_pages: result.returned_pages,
            file_path: result.file_path,
        }
    }

    /// The report sent to the client.
    pub fn text(&self) -> (r: String)
        ensures
            r@ == page_content_text(*self),
    {
        let mut out = String::new();
        push_str(&mut out, "File: ");
        push_str(&mut out, self.file_path.as_str());
        match self.total_pages {
            Some(n) => {
                push_str(&mut out, "\nTotal pages: ");
                push_decimal(&mut out, n);
            },
            None => {},
        }
        push_str(&mut out, "\nRequested pages: ");
        push_str(&mut out, self.requested_pages.as_str());
        push_str(&mut out, "\nReturned pages: ");
        push_debug_list(&mut out, self.returned_pages.as_slice());
        push_str(&mut out, "\n\n");
        push_str(&mut out, self.content.as_str());
        proof {
            assert(out@ =~= page_content_text(*self));
        }
        out
    }
}

/// A slide snapshot as reported to a client.
pub struct SlideSnapshot {
    pub slide_number: usize,
    pub image_data: Option<Vec<u8>>,
    pub image_format: String,
    pub error: Option<String>,
}

/// The report of a slide snapshot.
pub open spec fn snapshot_text(s: SlideSnapshot) -> Seq<char> {
    match s.error {
        Some(e) => "Slide "@ + decimal(s.slide_number as nat) + ": Error - "@ + e@,
        None => match s.image_data {
            Some(d) => "Slide "@ + decimal(s.slide_number as nat) + " snapshot ("@ + s.image_format@
                + " format, "@ + decimal(d@.len()) + " bytes)"@,
            None => "Slide "@ + decimal(s.slide_number as nat) + ": No image data available"@,
        },
    }
}

impl SlideSnapshot {
    /// The client's view of a snapshot result.
    pub fn from_result(result: SlideSnapshotResult) -> (r: Self)
        ensures
            r.slide_number == result.slide_number,
            r.image_data == result.image_data,
            r.image_format == result.image_format,
            r.error == result.error,
    {
        SlideSnapshot {
            slide_number: result.slide_number,
            image_data: result.image_data,
            image_format: result.image_format,
            error: result.error,
        }
    }

    /// The report sent to the client.
    pub fn summary(&self) -> (r: String)
        ensures
            r@ == snapshot_text(*self),
    {
        let mut out = String::new();
        push_str(&mut out, "Slide ");
        push_decimal(&mut out, self.slide_number);
        match &self.error {
            Some(e) => {
                push_str(&mut out, ": Error - ");
                push_str(&mut out, e.as_str());
            },
            None => match &self.image_data {
                Some(d) => {
                    push_str(&mut out, " snapshot (");
                    push_str(&mut out, self.image_format.as_str());
                    push_str(&mut out, " format, ");
                    push_decimal(&mut out, d.len());
                    push_str(&mut out, " bytes)");
                },
                None => {
                    push_str(&mut out, ": No image data available");
                },
            },
        }
        proof {
            assert(out@ =~= snapshot_text(*self));
        }
        out
    }
}

} // verus!
