//! The PDF backend chain: a fixed preference order of text-extraction
//! engines, the interpretation of what one engine produced for each
//! operation, and the dispatcher that tries the engines in order until one
//! succeeds.
use vstd::prelude::*;
use crate::paths::{debug_list, file_name, file_name_of, push_debug_list};
use crate::text::{chars_of, decimal, owned, push_decimal, push_str, split, split_spans, span_string};

verus! {

/// The PDF text-extraction engines, in order of preference.
#[derive(Clone, Copy, Debug, PartialEq, Eq, Structural)]
pub enum PdfBackend {
    /// A fast native rendering library binding.
    Pdfium,
    /// A second fast native binding, tuned for large files.
    MuPDF,
    /// A third native binding with broad compatibility.
    Poppler,
    /// The pure text-scraping fallback, always available.
    PdfExtract,
}

/// The fixed preference order of the engines.
pub open spec fn preference_order() -> Seq<PdfBackend> {
    seq![PdfBackend::Pdfium, PdfBackend::MuPDF, PdfBackend::Poppler, PdfBackend::PdfExtract]
}

/// The engines that take part, in preference order: those available, and
/// the fallback in any case.
pub open spec fn chain_of(available: Seq<PdfBackend>) -> Seq<PdfBackend> {
    preference_order().filter(|b: PdfBackend| available.contains(b) || b == PdfBackend::PdfExtract)
}

/// The engines that take part, given those compiled in and usable.
pub fn backend_chain(available: &[PdfBackend]) -> (r: Vec<PdfBackend>)
    ensures
        r@ == chain_of(available@),
{
    let order = [PdfBackend::Pdfium, PdfBackend::MuPDF, PdfBackend::Poppler, PdfBackend::PdfExtract];
    let ghost ord = preference_order();
    let ghost pred = |b: PdfBackend| available@.contains(b) || b == PdfBackend::PdfExtract;
    proof {
        assert(order@ =~= ord);
    }
    let mut out: Vec<PdfBackend> = Vec::new();
    let mut i: usize = 0;
    proof {
        assert(ord.take(0).filter(pred) =~= Seq::<PdfBackend>::empty()) by {
            reveal(Seq::filter);
        }
    }
    while i < 4
        invariant
            i <= 4,
            order@ == ord,
            ord == preference_order(),
            pred == (|b: PdfBackend| available@.contains(b) || b == PdfBackend::PdfExtract),
            out@ == ord.take(i as int).filter(pred),
        decreases 4 - i,
    {
        let b = order[i];
        let mut present = b == PdfBackend::PdfExtract;
        let mut j: usize = 0;
        while j < available.len()
            invariant
                j <= available@.len(),
                present <==> (b == PdfBackend::PdfExtract || exists|k: int|
                    0 <= k < j && available@[k] == b),
            decreases available@.len() - j,
        {
            if available[j] == b {
                present = true;
            }
            j = j + 1;
        }
        proof {
            assert(ord.take(i + 1).drop_last() =~= ord.take(i as int));
            reveal(Seq::filter);
            if present && b != PdfBackend::PdfExtract {
                let k = choose|k: int| 0 <= k < available@.len() && available@[k] == b;
                assert(available@.contains(b));
            }
        }
        if present {
            out.push(b);
        }
        i = i + 1;
    }
    proof {
        assert(ord.take(4) =~= ord);
    }
    out
}

/// What an engine handed back for one attempt: its result, an ordinary
/// error, or the message of a panic that was contained at the call.
pub enum BackendOutcome<T> {
    Completed(T),
    Failed(String),
    Panicked(String),
}

/// What an engine reads out of a document: the text of each page, for the
/// native engines, or the whole text at once, for the fallback.
pub enum RawPdf {
    PageTexts(Vec<String>),
    FullText(String),
}

/// The views of a list of strings.
pub open spec fn views(v: Seq<String>) -> Seq<Seq<char>> {
    Seq::new(v.len(), |i: int| v[i]@)
}

/// The pages' texts, each followed by a newline.
pub open spec fn joined_pages(ps: Seq<Seq<char>>) -> Seq<char>
    decreases ps.len(),
{
    if ps.len() == 0 {
        Seq::empty()
    } else {
        joined_pages(ps.drop_last()) + ps.last() + "\n"@
    }
}

/// Whether `t` occurs in `s` at position `i`.
pub open spec fn occurs_at(s: Seq<char>, t: Seq<char>, i: int) -> bool {
    0 <= i && i + t.len() <= s.len() && s.subrange(i, i + t.len()) == t
}

/// Whether `t` occurs in `s`.
pub open spec fn contains_text(s: Seq<char>, t: Seq<char>) -> bool {
    exists|i: int| occurs_at(s, t, i)
}

/// Whether `t` occurs in `s`.
pub fn text_contains(s: &str, t: &str) -> (r: bool)
    ensures
        r == contains_text(s@, t@),
{
    let sv = chars_of(s);
    let tv = chars_of(t);
    if tv.len() > sv.len() {
        return false;
    }
    let mut i: usize = 0;
    let last = sv.len() - tv.len();
    while i <= last
        invariant
            sv@ == s@,
            tv@ == t@,
            tv@.len() <= sv@.len(),
            last == sv@.len() - tv@.len(),
            i <= last + 1,
            forall|k: int| 0 <= k < i ==> !occurs_at(s@, t@, k),
        decreases sv@.len() - i,
    {
        let mut j: usize = 0;
        let mut same = true;
        while j < tv.len()
            invariant
                sv@ == s@,
                tv@ == t@,
                i + tv@.len() <= sv@.len(),
                sv@.len() == sv.len(),
                j <= tv@.len(),
                same == (forall|k: int| 0 <= k < j ==> sv@[i + k] == tv@[k]),
            decreases tv@.len() - j,
        {
            if sv[i + j] != tv[j] {
                same = false;
            }
            j = j + 1;
        }
        if same {
            proof {
                assert(s@.subrange(i as int, i + t@.len()) =~= t@);
                assert(occurs_at(s@, t@, i as int));
            }
            return true;
        }
        proof {
            assert(!occurs_at(s@, t@, i as int)) by {
                if s@.subrange(i as int, i + t@.len()) == t@ {
                    assert forall|k: int| 0 <= k < tv@.len() implies sv@[i + k] == tv@[k] by {
                        assert(s@.subrange(i as int, i + t@.len())[k] == s@[i + k]);
                    }
                }
            }
        }
        i = i + 1;
    }
    proof {
        assert forall|k: int| !occurs_at(s@, t@, k) by {
            if 0 <= k && k + t@.len() <= s@.len() {
                assert(k < i);
            }
        }
    }
    false
}

/// Whether a contained panic's message points at an unsupported text
/// encoding.
pub open spec fn is_encoding_panic(msg: Seq<char>) -> bool {
    contains_text(msg, "unsupported encoding"@) || contains_text(msg, "GBK"@) || contains_text(
        msg,
        "encoding"@,
    )
}

/// The error that stands for a panic of the fallback engine.
pub open spec fn panic_error(msg: Seq<char>) -> Seq<char> {
    if is_encoding_panic(msg) {
        "PDF contains unsupported text encoding ("@ + msg
            + "). This PDF uses a character encoding that the pdf-extract library cannot handle. Try using a different PDF or converting it to use standard UTF-8 encoding."@
    } else {
        "pdf-extract backend panicked: "@ + msg
    }
}

/// The error that stands for a panic of the fallback engine: a message that
/// explains an encoding problem where the panic names one.
pub fn describe_panic(msg: &str) -> (r: String)
    ensures
        r@ == panic_error(msg@),
{
    let mut out = String::new();
    if text_contains(msg, "unsupported encoding") || text_contains(msg, "GBK") || text_contains(
        msg,
        "encoding",
    ) {
        push_str(&mut out, "PDF contains unsupported text encoding (");
        push_str(&mut out, msg);
        push_str(
            &mut out,
            "). This PDF uses a character encoding that the pdf-extract library cannot handle. Try using a different PDF or converting it to use standard UTF-8 encoding.",
        );
    } else {
        push_str(&mut out, "pdf-extract backend panicked: ");
        push_str(&mut out, msg);
    }
    proof {
        assert(out@ =~= panic_error(msg@));
    }
    out
}

/// A result with its strings seen as character sequences.
pub open spec fn text_result(r: Result<String, String>) -> Result<Seq<char>, Seq<char>> {
    match r {
        Ok(t) => Ok(t@),
        Err(e) => Err(e@),
    }
}

/// A count result with its error seen as a character sequence.
pub open spec fn count_result(r: Result<usize, String>) -> Result<nat, Seq<char>> {
    match r {
        Ok(n) => Ok(n as nat),
        Err(e) => Err(e@),
    }
}

/// The text of a whole document as an engine read it.
pub open spec fn raw_text(raw: RawPdf) -> Seq<char> {
    match raw {
        RawPdf::PageTexts(ps) => joined_pages(views(ps@)),
        RawPdf::FullText(t) => t@,
    }
}

/// What one attempt at extracting the whole text yields.
pub open spec fn text_answer(b: PdfBackend, out: BackendOutcome<RawPdf>) -> Result<Seq<char>, Seq<char>> {
    match out {
        BackendOutcome::Completed(raw) => Ok(raw_text(raw)),
        BackendOutcome::Failed(e) => Err(e@),
        BackendOutcome::Panicked(m) => Err(
            if b == PdfBackend::PdfExtract {
                panic_error(m@)
            } else {
                m@
            },
        ),
    }
}

/// The number of form feeds (page breaks) in `s`.
pub open spec fn form_feeds(s: Seq<char>) -> nat
    decreases s.len(),
{
    if s.len() == 0 {
        0
    } else {
        form_feeds(s.drop_last()) + if s.last() == '\x0C' { 1nat } else { 0nat }
    }
}

/// The characters that one page is assumed to hold when a document has no
/// page breaks.
pub const CHARS_PER_PAGE: usize = 3000;

/// The page count of a document known only by its whole text: the number of
/// page breaks where there is at least one; otherwise its length in
/// characters over `CHARS_PER_PAGE`, at least 1.
pub open spec fn estimated_pages(text: Seq<char>) -> nat {
    if form_feeds(text) >= 1 {
        form_feeds(text)
    } else if text.len() / (CHARS_PER_PAGE as nat) >= 1 {
        text.len() / (CHARS_PER_PAGE as nat)
    } else {
        1
    }
}

/// What one attempt at counting pages yields.
pub open spec fn count_answer(b: PdfBackend, out: BackendOutcome<RawPdf>) -> Result<nat, Seq<char>> {
    match out {
        BackendOutcome::Completed(RawPdf::PageTexts(ps)) => Ok(ps@.len()),
        BackendOutcome::Completed(RawPdf::FullText(t)) => Ok(estimated_pages(t@)),
        BackendOutcome::Failed(e) => Err(e@),
        BackendOutcome::Panicked(m) => Err(
            if b == PdfBackend::PdfExtract {
                panic_error(m@)
            } else {
                m@
            },
        ),
    }
}

/// One page of extracted text, with its heading.
pub open spec fn page_block(n: nat, text: Seq<char>) -> Seq<char> {
    "=== Page "@ + decimal(n) + " ===\n"@ + text + "\n\n"@
}

/// The requested pages of `ps`, in the order requested.
pub open spec fn selected_pages(ps: Seq<Seq<char>>, pages: Seq<usize>) -> Seq<char>
    decreases pages.len(),
{
    if pages.len() == 0 {
        Seq::empty()
    } else {
        selected_pages(ps, pages.drop_last()) + page_block(
            pages.last() as nat,
            ps[pages.last() - 1],
        )
    }
}

/// The first requested page that a document of `n` pages lacks.
pub open spec fn first_bad_page(pages: Seq<usize>, n: nat) -> Option<usize>
    decreases pages.len(),
{
    if pages.len() == 0 {
        None
    } else {
        match first_bad_page(pages.drop_last(), n) {
            Some(p) => Some(p),
            None => if pages.last() == 0 || pages.last() > n {
                Some(pages.last())
            } else {
                None
            },
        }
    }
}

pub open spec fn out_of_range(p: nat, n: nat) -> Seq<char> {
    "Page "@ + decimal(p) + " is out of range (1-"@ + decimal(n) + ")"@
}

/// The requested pages of a document split into pages `ps`.
pub open spec fn paged_text(ps: Seq<Seq<char>>, pages: Seq<usize>) -> Result<Seq<char>, Seq<char>> {
    match first_bad_page(pages, ps.len()) {
        Some(p) => Err(out_of_range(p as nat, ps.len())),
        None => Ok(selected_pages(ps, pages)),
    }
}

/// The whole text, with a note that single pages could not be told apart.
pub open spec fn unsplit_note(pages: Seq<usize>, text: Seq<char>) -> Seq<char> {
    "=== Note: pdf-extract backend cannot extract specific pages ===\n"@ + "Requested pages: "@
        + debug_list(pages) + "\n"@ + "Returning full document content:\n\n"@ + text
}

/// The requested pages of a document known only by its whole text: its
/// form-feed-separated segments serve as pages where there are at least two.
pub open spec fn fallback_pages(text: Seq<char>, pages: Seq<usize>) -> Result<Seq<char>, Seq<char>> {
    let segs = split(text, '\x0C');
    if segs.len() > 1 {
        paged_text(segs, pages)
    } else {
        Ok(unsplit_note(pages, text))
    }
}

/// Whether a panic of the fallback engine is the known encoding failure that
/// is answered with a notice rather than an error.
pub open spec fn is_known_encoding_failure(msg: Seq<char>) -> bool {
    contains_text(msg, "unsupported encoding"@) || contains_text(msg, "GBK-EUC-H"@)
}

/// The notice that stands for the pages of a document whose text encoding
/// the fallback engine cannot read.
pub open spec fn encoding_notice(path: Seq<char>, pages: Seq<usize>, err: Seq<char>) -> Seq<char> {
    "=== PDF Text Extraction Notice ===\n\n"@ + "File: "@ + file_name(path) + "\n"@
        + "Requested pages: "@ + debug_list(pages) + "\n\n"@ + notice_middle() + err + "\n\n"@
        + notice_tail() + err + "\n"@
}

pub open spec fn notice_middle() -> Seq<char> {
    "⚠️ **Text extraction temporarily unavailable**\n\nThis PDF uses a character encoding that is not currently supported by the text extraction library:\n- Encoding issue: "@
}

pub open spec fn notice_tail() -> Seq<char> {
    "**What this means:**\n- The PDF file is likely valid and can be opened in standard PDF viewers\n- The file may contain Chinese, Japanese, or other non-Latin characters\n- Text extraction is blocked by the encoding limitation, not a file corruption\n\n**Alternatives:**\n- Open the PDF in a standard PDF viewer to read the content\n- Try converting the PDF to a different format that supports the encoding\n- Use a different PDF processing tool that supports the specific encoding\n\n**Technical details:**\n- This is a known limitation of the pdf-extract library\n- The encoding issue prevents text extraction but doesn't affect PDF validity\n- Error: "@
}

/// What one attempt at extracting the requested pages yields.
pub open spec fn pages_answer(
    b: PdfBackend,
    out: BackendOutcome<RawPdf>,
    pages: Seq<usize>,
    path: Seq<char>,
) -> Result<Seq<char>, Seq<char>> {
    match out {
        BackendOutcome::Completed(RawPdf::PageTexts(ps)) => paged_text(views(ps@), pages),
        BackendOutcome::Completed(RawPdf::FullText(t)) => fallback_pages(t@, pages),
        BackendOutcome::Failed(e) => Err(e@),
        BackendOutcome::Panicked(m) => if b == PdfBackend::PdfExtract && is_known_encoding_failure(
            m@,
        ) {
            Ok(encoding_notice(path, pages, m@))
        } else if b == PdfBackend::PdfExtract {
            Err("pdf_extract panic: "@ + m@)
        } else {
            Err(m@)
        },
    }
}

fn push_joined_pages(out: &mut String, ps: &Vec<String>)
    ensures
        final(out)@ == old(out)@ + joined_pages(views(ps@)),
{
    let ghost start = out@;
    let mut i: usize = 0;
    proof {
        assert(views(ps@).take(0) =~= Seq::<Seq<char>>::empty());
    }
    while i < ps.len()
        invariant
            i <= ps@.len(),
            out@ == start + joined_pages(views(ps@).take(i as int)),
        decreases ps@.len() - i,
    {
        proof {
            assert(views(ps@).take(i + 1).drop_last() =~= views(ps@).take(i as int));
            assert(views(ps@).take(i + 1).last() == ps@[i as int]@);
        }
        push_str(out, ps[i].as_str());
        push_str(out, "\n");
        proof {
            assert(out@ =~= start + joined_pages(views(ps@).take(i + 1)));
        }
        i = i + 1;
    }
    proof {
        assert(views(ps@).take(ps@.len() as int) =~= views(ps@));
    }
}

/// The outcome of one attempt at extracting the whole text.
pub fn text_attempt(b: PdfBackend, out: BackendOutcome<RawPdf>) -> (r: Result<String, String>)
    ensures
        text_result(r) == text_answer(b, out),
{
    match out {
        BackendOutcome::Completed(RawPdf::PageTexts(ps)) => {
            let mut t = String::new();
            push_joined_pages(&mut t, &ps);
            proof {
                assert(t@ =~= joined_pages(views(ps@)));
            }
            Ok(t)
        },
        BackendOutcome::Completed(RawPdf::FullText(t)) => Ok(t),
        BackendOutcome::Failed(e) => Err(e),
        BackendOutcome::Panicked(m) => {
            if b == PdfBackend::PdfExtract {
                Err(describe_panic(m.as_str()))
            } else {
                Err(m)
            }
        },
    }
}

/// The number of form feeds in `text`.
pub fn count_form_feeds(text: &str) -> (r: usize)
    ensures
        r == form_feeds(text@),
{
    let v = chars_of(text);
    let mut n: usize = 0;
    let mut i: usize = 0;
    while i < v.len()
        invariant
            v@ == text@,
            i <= v@.len(),
            n == form_feeds(v@.take(i as int)),
            n <= i,
        decreases v@.len() - i,
    {
        proof {
            assert(v@.take(i + 1).drop_last() =~= v@.take(i as int));
        }
        if v[i] == '\x0C' {
            n = n + 1;
        }
        i = i + 1;
    }
    proof {
        assert(v@.take(v@.len() as int) =~= v@);
    }
    n
}

/// The estimated page count of a document known only by its whole text.
pub fn estimate_page_count(text: &str) -> (r: usize)
    ensures
        r == estimated_pages(text@),
{
    let ff = count_form_feeds(text);
    if ff >= 1 {
        ff
    } else {
        let per = chars_of(text).len() / CHARS_PER_PAGE;
        if per >= 1 {
            per
        } else {
            1
        }
    }
}

/// The outcome of one attempt at counting pages.
pub fn count_attempt(b: PdfBackend, out: BackendOutcome<RawPdf>) -> (r: Result<usize, String>)
    ensures
        count_result(r) == count_answer(b, out),
{
    match out {
        BackendOutcome::Completed(RawPdf::PageTexts(ps)) => Ok(ps.len()),
        BackendOutcome::Completed(RawPdf::FullText(t)) => Ok(estimate_page_count(t.as_str())),
        BackendOutcome::Failed(e) => Err(e),
        BackendOutcome::Panicked(m) => {
            if b == PdfBackend::PdfExtract {
                Err(describe_panic(m.as_str()))
            } else {
                Err(m)
            }
        },
    }
}

/// Appends the requested pages of `v`'s spans to `out`, or reports the first
/// page that is missing.
fn push_paged_text(out: &mut String, v: &[char], spans: &Vec<crate::text::Span>, pages: &[usize], ghost_ps: Ghost<Seq<Seq<char>>>) -> (r: Result<(), String>)
    requires
        spans@.len() == ghost_ps@.len(),
        forall|j: int|
            0 <= j < spans@.len() ==> #[trigger] spans@[j].start <= spans@[j].end <= v@.len()
                && v@.subrange(spans@[j].start as int, spans@[j].end as int) == ghost_ps@[j],
    ensures
        match paged_text(ghost_ps@, pages@) {
            Ok(t) => r is Ok && final(out)@ == old(out)@ + t,
            Err(e) => r is Err && r->Err_0@ == e,
        },
{
    let ghost ps = ghost_ps@;
    let n = spans.len();
    let mut i: usize = 0;
    let ghost start = out@;
    proof {
        assert(pages@.take(0) =~= Seq::<usize>::empty());
    }
    while i < pages.len()
        invariant
            i <= pages@.len(),
            ps == ghost_ps@,
            n == ps.len(),
            spans@.len() == ps.len(),
            forall|j: int|
                0 <= j < spans@.len() ==> #[trigger] spans@[j].start <= spans@[j].end <= v@.len()
                    && v@.subrange(spans@[j].start as int, spans@[j].end as int) == ps[j],
            first_bad_page(pages@.take(i as int), ps.len()) is None,
            out@ == start + selected_pages(ps, pages@.take(i as int)),
        decreases pages@.len() - i,
    {
        let p = pages[i];
        proof {
            assert(pages@.take(i + 1).drop_last() =~= pages@.take(i as int));
            assert(pages@.take(i + 1).last() == p);
        }
        if p == 0 || p > n {
            let mut m = String::new();
            push_str(&mut m, "Page ");
            push_decimal(&mut m, p);
            push_str(&mut m, " is out of range (1-");
            push_decimal(&mut m, n);
            push_str(&mut m, ")");
            proof {
                assert(first_bad_page(pages@.take(i + 1), ps.len()) == Some(p));
                lemma_first_bad_extends(pages@, i + 1, ps.len());
                assert(m@ =~= out_of_range(p as nat, ps.len()));
                assert(first_bad_page(pages@, ps.len()) == Some(p));
                assert(paged_text(ps, pages@) == Err::<Seq<char>, Seq<char>>(m@));
            }
            return Err(m);
        }
        push_str(out, "=== Page ");
        push_decimal(out, p);
        push_str(out, " ===\n");
        let page = span_string(v, spans[p - 1].start, spans[p - 1].end);
        push_str(out, page.as_str());
        push_str(out, "\n\n");
        proof {
            assert(out@ =~= start + selected_pages(ps, pages@.take(i + 1)));
        }
        i = i + 1;
    }
    proof {
        assert(pages@.take(pages@.len() as int) =~= pages@);
    }
    Ok(())
}

proof fn lemma_first_bad_extends(pages: Seq<usize>, k: int, n: nat)
    requires
        0 <= k <= pages.len(),
        first_bad_page(pages.take(k), n) is Some,
    ensures
        first_bad_page(pages, n) == first_bad_page(pages.take(k), n),
    decreases pages.len() - k,
{
    if k < pages.len() {
        let t = pages.drop_last();
        assert(t.take(k) =~= pages.take(k));
        lemma_first_bad_extends(t, k, n);
    } else {
        assert(pages.take(k) =~= pages);
    }
}

/// Splits each string of `ps` into characters, with one span per string.
fn flatten_pages(ps: &Vec<String>) -> (r: (Vec<char>, Vec<crate::text::Span>))
    ensures
        r.1@.len() == ps@.len(),
        forall|j: int|
            0 <= j < r.1@.len() ==> #[trigger] r.1@[j].start <= r.1@[j].end <= r.0@.len()
                && r.0@.subrange(r.1@[j].start as int, r.1@[j].end as int) == ps@[j]@,
{
    let mut all: Vec<char> = Vec::new();
    let mut spans: Vec<crate::text::Span> = Vec::new();
    let mut i: usize = 0;
    while i < ps.len()
        invariant
            i <= ps@.len(),
            spans@.len() == i,
            forall|j: int|
                0 <= j < spans@.len() ==> #[trigger] spans@[j].start <= spans@[j].end <= all@.len()
                    && all@.subrange(spans@[j].start as int, spans@[j].end as int) == ps@[j]@,
        decreases ps@.len() - i,
    {
        let cs = chars_of(ps[i].as_str());
        let st = all.len();
        let ghost before = all@;
        let mut k: usize = 0;
        while k < cs.len()
            invariant
                k <= cs@.len(),
                st == before.len(),
                all@ == before + cs@.take(k as int),
            decreases cs@.len() - k,
        {
            all.push(cs[k]);
            k = k + 1;
            proof {
                assert(all@ =~= before + cs@.take(k as int));
            }
        }
        proof {
            assert(cs@.take(cs@.len() as int) =~= cs@);
            assert(all@.subrange(st as int, all@.len() as int) =~= ps@[i as int]@);
        }
        let ghost old_spans = spans@;
        spans.push(crate::text::Span { start: st, end: all.len() });
        proof {
            assert forall|j: int| 0 <= j < spans@.len() implies #[trigger] spans@[j].start
                <= spans@[j].end <= all@.len() && all@.subrange(
                spans@[j].start as int,
                spans@[j].end as int,
            ) == ps@[j]@ by {
                if j < old_spans.len() {
                    assert(spans@[j] == old_spans[j]);
                    assert(old_spans[j].start <= old_spans[j].end <= before.len());
                    assert(before.subrange(old_spans[j].start as int, old_spans[j].end as int) == ps@[j]@);
                    assert(all@.subrange(spans@[j].start as int, spans@[j].end as int) =~= before.subrange(
                        old_spans[j].start as int,
                        old_spans[j].end as int,
                    ));
                }
            }
        }
        i = i + 1;
    }
    (all, spans)
}

/// The notice for a document whose text encoding the fallback cannot read.
pub fn encoding_notice_text(file_path: &str, pages: &[usize], err: &str) -> (r: String)
    ensures
        r@ == encoding_notice(file_path@, pages@, err@),
{
    let mut out = String::new();
    push_str(&mut out, "=== PDF Text Extraction Notice ===\n\n");
    push_str(&mut out, "File: ");
    let name = file_name_of(file_path);
    push_str(&mut out, name.as_str());
    push_str(&mut out, "\n");
    push_str(&mut out, "Requested pages: ");
    push_debug_list(&mut out, pages);
    push_str(&mut out, "\n\n");
    push_str(
        &mut out,
        "⚠️ **Text extraction temporarily unavailable**\n\nThis PDF uses a character encoding that is not currently supported by the text extraction library:\n- Encoding issue: ",
    );
    push_str(&mut out, err);
    push_str(&mut out, "\n\n");
    push_str(
        &mut out,
        "**What this means:**\n- The PDF file is likely valid and can be opened in standard PDF viewers\n- The file may contain Chinese, Japanese, or other non-Latin characters\n- Text extraction is blocked by the encoding limitation, not a file corruption\n\n**Alternatives:**\n- Open the PDF in a standard PDF viewer to read the content\n- Try converting the PDF to a different format that supports the encoding\n- Use a different PDF processing tool that supports the specific encoding\n\n**Technical details:**\n- This is a known limitation of the pdf-extract library\n- The encoding issue prevents text extraction but doesn't affect PDF validity\n- Error: ",
    );
    push_str(&mut out, err);
    push_str(&mut out, "\n");
    proof {
        assert(out@ =~= encoding_notice(file_path@, pages@, err@));
    }
    out
}

/// The outcome of one attempt at extracting the requested pages.
pub fn pages_attempt(b: PdfBackend, out: BackendOutcome<RawPdf>, pages: &[usize], file_path: &str) -> (r:
    Result<String, String>)
    ensures
        text_result(r) == pages_answer(b, out, pages@, file_path@),
{
    match out {
        BackendOutcome::Completed(RawPdf::PageTexts(ps)) => {
            let (all, spans) = flatten_pages(&ps);
            let mut t = String::new();
            proof {
                assert forall|j: int| 0 <= j < spans@.len() implies #[trigger] spans@[j].start
                    <= spans@[j].end <= all@.len() && all@.subrange(
                    spans@[j].start as int,
                    spans@[j].end as int,
                ) == views(ps@)[j] by {
                    assert(spans@.len() == ps@.len());
                    assert(all@.subrange(spans@[j].start as int, spans@[j].end as int) == ps@[j]@);
                    assert(views(ps@)[j] == ps@[j]@);
                }
            }
            match push_paged_text(&mut t, all.as_slice(), &spans, pages, Ghost(views(ps@))) {
                Ok(()) => {
                    proof {
                        assert(t@ =~= selected_pages(views(ps@), pages@));
                    }
                    Ok(t)
                },
                Err(e) => Err(e),
            }
        },
        BackendOutcome::Completed(RawPdf::FullText(text)) => {
            let v = chars_of(text.as_str());
            let spans = split_spans(v.as_slice(), 0, v.len(), '\x0C');
            let ghost segs = split(text@, '\x0C');
            proof {
                assert(v@.subrange(0, v@.len() as int) =~= text@);
            }
            if spans.len() > 1 {
                let mut t = String::new();
                match push_paged_text(&mut t, v.as_slice(), &spans, pages, Ghost(segs)) {
                    Ok(()) => {
                        proof {
                            assert(t@ =~= selected_pages(segs, pages@));
                        }
                        Ok(t)
                    },
                    Err(e) => Err(e),
                }
            } else {
                let mut t = String::new();
                push_str(&mut t, "=== Note: pdf-extract backend cannot extract specific pages ===\n");
                push_str(&mut t, "Requested pages: ");
                push_debug_list(&mut t, pages);
                push_str(&mut t, "\n");
                push_str(&mut t, "Returning full document content:\n\n");
                push_str(&mut t, text.as_str());
                proof {
                    assert(t@ =~= unsplit_note(pages@, text@));
                }
                Ok(t)
            }
        },
        BackendOutcome::Failed(e) => Err(e),
        BackendOutcome::Panicked(m) => {
            if b == PdfBackend::PdfExtract {
                if text_contains(m.as_str(), "unsupported encoding") || text_contains(
                    m.as_str(),
                    "GBK-EUC-H",
                ) {
                    Ok(encoding_notice_text(file_path, pages, m.as_str()))
                } else {
                    let mut e = String::new();
                    push_str(&mut e, "pdf_extract panic: ");
                    push_str(&mut e, m.as_str());
                    proof {
                        assert(e@ =~= "pdf_extract panic: "@ + m@);
                    }
                    Err(e)
                }
            } else {
                Err(m)
            }
        },
    }
}

/// The first success among the results of a run of attempts.
pub open spec fn first_success<A>(rs: Seq<Result<A, String>>) -> Option<A>
    decreases rs.len(),
{
    if rs.len() == 0 {
        None
    } else {
        match first_success(rs.drop_last()) {
            Some(a) => Some(a),
            None => match rs.last() {
                Ok(a) => Some(a),
                Err(_) => None,
            },
        }
    }
}

/// `rs` are the results of trying the engines of `chain` in order with
/// `attempt`, stopping at the first success.
pub open spec fn tried_in_order<A, F: Fn(PdfBackend) -> Result<A, String>>(
    chain: Seq<PdfBackend>,
    attempt: F,
    rs: Seq<Result<A, String>>,
) -> bool {
    &&& rs.len() <= chain.len()
    &&& forall|k: int| 0 <= k < rs.len() ==> call_ensures(attempt, (chain[k],), #[trigger] rs[k])
    &&& forall|k: int| 0 <= k < rs.len() ==> first_success(#[trigger] rs.take(k)) is None
    &&& rs.len() < chain.len() ==> first_success(rs) is Some
}

/// What a failed run adds to its failure message: the error of its last
/// attempt, so that the reason the last engine gave (an unsupported text
/// encoding, say) is not lost.
pub open spec fn last_error<A>(rs: Seq<Result<A, String>>) -> Seq<char> {
    if rs.len() > 0 && rs.last() is Err {
        ". Last error: "@ + rs.last()->Err_0@
    } else {
        Seq::empty()
    }
}

/// The outcome of a run: its first success, or the given failure followed
/// by the error of the last attempt.
pub open spec fn run_outcome<A>(rs: Seq<Result<A, String>>, failure: Seq<char>) -> Result<A, Seq<char>> {
    match first_success(rs) {
        Some(a) => Ok(a),
        None => Err(failure + last_error(rs)),
    }
}

/// A result with its error seen as characters.
pub open spec fn error_view<A>(r: Result<A, String>) -> Result<A, Seq<char>> {
    match r {
        Ok(a) => Ok(a),
        Err(e) => Err(e@),
    }
}

/// Tries the engines of `chain` in order until one succeeds and returns its
/// result; when all fail, returns `failure` followed by the last error.
pub fn dispatch<A, F>(chain: &[PdfBackend], attempt: &F, failure: String) -> (r: Result<A, String>) where
    F: Fn(PdfBackend) -> Result<A, String>,

    requires
        forall|b: PdfBackend| call_requires(*attempt, (b,)),
    ensures
        exists|rs: Seq<Result<A, String>>|
            tried_in_order(chain@, *attempt, rs) && error_view(r) == run_outcome(rs, failure@),
{
    let ghost mut rs: Seq<Result<A, String>> = Seq::empty();
    let mut last: Option<String> = None;
    let mut i: usize = 0;
    while i < chain.len()
        invariant
            i <= chain@.len(),
            rs.len() == i,
            forall|b: PdfBackend| call_requires(*attempt, (b,)),
            forall|k: int| 0 <= k < rs.len() ==> call_ensures(*attempt, (chain@[k],), #[trigger] rs[k]),
            forall|k: int| 0 <= k <= rs.len() ==> first_success(#[trigger] rs.take(k)) is None,
            rs.len() == 0 ==> last is None,
            rs.len() > 0 ==> rs.last() is Err && last == Some(rs.last()->Err_0),
        decreases chain@.len() - i,
    {
        let res = attempt(chain[i]);
        proof {
            let old_rs = rs;
            rs = rs.push(res);
            assert(rs.drop_last() =~= old_rs);
            assert forall|k: int| 0 <= k < rs.len() implies call_ensures(
                *attempt,
                (chain@[k],),
                #[trigger] rs[k],
            ) by {
                if k < old_rs.len() {
                    assert(rs[k] == old_rs[k]);
                }
            }
            assert forall|k: int| 0 <= k < rs.len() implies first_success(#[trigger] rs.take(k)) is None by {
                assert(rs.take(k) =~= old_rs.take(k));
            }
            assert(old_rs.take(old_rs.len() as int) =~= old_rs);
        }
        match res {
            Ok(a) => {
                proof {
                    assert(first_success(rs) == Some(a));
                    assert(tried_in_order(chain@, *attempt, rs));
                    assert(run_outcome(rs, failure@) == Ok::<A, Seq<char>>(a));
                }
                return Ok(a);
            },
            Err(e) => {
                proof {
                    assert(rs.take(rs.len() as int) =~= rs);
                }
                last = Some(e);
            },
        }
        i = i + 1;
    }
    proof {
        assert(rs.take(rs.len() as int) =~= rs);
        assert(first_success(rs.take(rs.len() as int)) is None);
        assert(tried_in_order(chain@, *attempt, rs));
    }
    let mut message = failure;
    match last {
        Some(e) => {
            push_str(&mut message, ". Last error: ");
            push_str(&mut message, e.as_str());
        },
        None => {},
    }
    proof {
        assert(message@ =~= failure@ + last_error(rs));
    }
    let out: Result<A, String> = Err(message);
    proof {
        assert(error_view(out) == run_outcome(rs, failure@));
    }
    out
}

/// The first success wins: when every attempt before the `k`-th failed and
/// the `k`-th succeeded with `a`, a run that goes on to that attempt yields
/// `a`.
pub proof fn lemma_first_success_wins<A>(rs: Seq<Result<A, String>>, k: int, a: A)
    requires
        0 <= k < rs.len(),
        forall|j: int| 0 <= j < k ==> (#[trigger] rs[j]) is Err,
        rs[k] == Ok::<A, String>(a),
    ensures
        first_success(rs.take(k + 1)) == Some(a),
        forall|failure: Seq<char>| #[trigger] run_outcome(rs.take(k + 1), failure) == Ok::<A, Seq<char>>(a),
{
    lemma_all_failed(rs.take(k));
    assert(rs.take(k + 1).drop_last() =~= rs.take(k));
}

/// When every attempt failed, the run has no success, and its error ends
/// with the error of the last attempt.
pub proof fn lemma_all_failed<A>(rs: Seq<Result<A, String>>)
    requires
        forall|j: int| 0 <= j < rs.len() ==> (#[trigger] rs[j]) is Err,
    ensures
        first_success(rs) is None,
        rs.len() > 0 ==> forall|failure: Seq<char>| #[trigger] run_outcome(rs, failure) == Err::<A, Seq<char>>(
            failure + ". Last error: "@ + rs.last()->Err_0@,
        ),
    decreases rs.len(),
{
    if rs.len() > 0 {
        assert forall|j: int| 0 <= j < rs.len() - 1 implies (#[trigger] rs.drop_last()[j]) is Err by {
            assert(rs.drop_last()[j] == rs[j]);
        }
        lemma_all_failed(rs.drop_last());
        assert forall|failure: Seq<char>| #[trigger] run_outcome(rs, failure) == Err::<A, Seq<char>>(
            failure + ". Last error: "@ + rs.last()->Err_0@,
        ) by {
            assert(failure + (". Last error: "@ + rs.last()->Err_0@) =~= failure + ". Last error: "@
                + rs.last()->Err_0@);
        }
    }
}

/// The failure of a run over a file: `<what>` and the path.
fn failure_for(what: &str, file_path: &str) -> (r: String)
    ensures
        r@ == what@ + file_path@,
{
    let mut m = String::new();
    push_str(&mut m, what);
    push_str(&mut m, file_path);
    proof {
        assert(m@ =~= what@ + file_path@);
    }
    m
}

/// Text extraction through the engine chain, each engine tried in order of
/// preference until one succeeds.
pub struct FastPdfExtractor;

impl FastPdfExtractor {
    /// The whole text of the PDF at `file_path`, from the first engine of
    /// `chain` that reads it; `attempt` runs one engine (see `text_attempt`).
    pub fn extract_text<F>(chain: &[PdfBackend], file_path: &str, attempt: &F) -> (r: Result<String, String>) where
        F: Fn(PdfBackend) -> Result<String, String>,

        requires
            forall|b: PdfBackend| call_requires(*attempt, (b,)),
        ensures
            exists|rs: Seq<Result<String, String>>|
                tried_in_order(chain@, *attempt, rs) && match first_success(rs) {
                    Some(t) => r == Ok::<String, String>(t),
                    None => r is Err && r->Err_0@ == ("All PDF extraction backends failed for file: "@
                        + file_path@) + last_error(rs),
                },
    {
        dispatch(chain, attempt, failure_for("All PDF extraction backends failed for file: ", file_path))
    }

    /// The whole text of a PDF held in memory, from the first engine of `chain`
    /// that reads it.
    pub fn extract_text_from_bytes<F>(chain: &[PdfBackend], attempt: &F) -> (r: Result<String, String>) where
        F: Fn(PdfBackend) -> Result<String, String>,

        requires
            forall|b: PdfBackend| call_requires(*attempt, (b,)),
        ensures
            exists|rs: Seq<Result<String, String>>|
                tried_in_order(chain@, *attempt, rs) && match first_success(rs) {
                    Some(t) => r == Ok::<String, String>(t),
                    None => r is Err && r->Err_0@ == ("All PDF extraction backends failed for byte array"@) + last_error(rs),
                },
    {
        dispatch(chain, attempt, owned("All PDF extraction backends failed for byte array"))
    }

    /// The page count of the PDF at `file_path`, from the first engine of
    /// `chain` that gives one (see `count_attempt`).
    pub fn get_page_count<F>(chain: &[PdfBackend], file_path: &str, attempt: &F) -> (r: Result<usize, String>) where
        F: Fn(PdfBackend) -> Result<usize, String>,

        requires
            forall|b: PdfBackend| call_requires(*attempt, (b,)),
        ensures
            exists|rs: Seq<Result<usize, String>>|
                tried_in_order(chain@, *attempt, rs) && match first_success(rs) {
                    Some(n) => r == Ok::<usize, String>(n),
                    None => r is Err && r->Err_0@ == ("All PDF backends failed to get page count for file: "@
                        + file_path@) + last_error(rs),
                },
    {
        dispatch(chain, attempt, failure_for("All PDF backends failed to get page count for file: ", file_path))
    }

    /// The requested pages of the PDF at `file_path`, from the first engine of
    /// `chain` that extracts them (see `pages_attempt`).
    pub fn extract_pages_text<F>(chain: &[PdfBackend], file_path: &str, attempt: &F) -> (r: Result<String, String>) where
        F: Fn(PdfBackend) -> Result<String, String>,

        requires
            forall|b: PdfBackend| call_requires(*attempt, (b,)),
        ensures
            exists|rs: Seq<Result<String, String>>|
                tried_in_order(chain@, *attempt, rs) && match first_success(rs) {
                    Some(t) => r == Ok::<String, String>(t),
                    None => r is Err && r->Err_0@
                        == ("All PDF extraction backends failed for page extraction from file: "@ + file_path@) + last_error(rs),
                },
    {
        dispatch(
            chain,
            attempt,
            failure_for("All PDF extraction backends failed for page extraction from file: ", file_path),
        )
    }

    /// The engines that take part, each with its description and whether it
    /// is available.
    pub fn get_backend_info(available: &[PdfBackend]) -> (r: Vec<(PdfBackend, &'static str, bool)>)
        ensures
            r@.len() == chain_of(available@).len(),
            forall|i: int| 0 <= i < r@.len() ==> (#[trigger] r@[i]).0 == chain_of(available@)[i] && r@[i].2,
    {
        let chain = backend_chain(available);
        let mut info: Vec<(PdfBackend, &'static str, bool)> = Vec::new();
        let mut i: usize = 0;
        while i < chain.len()
            invariant
                chain@ == chain_of(available@),
                i <= chain@.len(),
                info@.len() == i,
                forall|k: int| 0 <= k < i ==> (#[trigger] info@[k]).0 == chain@[k] && info@[k].2,
            decreases chain@.len() - i,
        {
            info.push((chain[i], backend_description(chain[i]), true));
            i = i + 1;
        }
        info
    }

    /// Whether the start of a PDF (its first bytes, read as text) names none
    /// of the CJK character maps that the fallback engine cannot decode.
    pub fn check_encoding_compatibility(head: &str) -> (r: bool)
        ensures
            r == forall|k: int| 0 <= k < 32 ==> !contains_text(head@, #[trigger] problematic_encodings()[k]),
    {
        let names = [
            "GBK-EUC-H", "GBK-EUC-V", "GB-EUC-H", "GB-EUC-V",
            "UniGB-UCS2-H", "UniGB-UCS2-V", "UniGB-UTF16-H", "UniGB-UTF16-V",
            "B5pc-H", "B5pc-V", "ETen-B5-H", "ETen-B5-V",
            "CNS-EUC-H", "CNS-EUC-V", "UniCNS-UCS2-H", "UniCNS-UCS2-V",
            "90ms-RKSJ-H", "90ms-RKSJ-V", "90msp-RKSJ-H", "90msp-RKSJ-V",
            "UniJIS-UCS2-H", "UniJIS-UCS2-V", "UniJIS-UTF16-H", "UniJIS-UTF16-V",
            "KSC-EUC-H", "KSC-EUC-V", "KSCms-UHC-H", "KSCms-UHC-V",
            "UniKS-UCS2-H", "UniKS-UCS2-V", "UniKS-UTF16-H", "UniKS-UTF16-V",
        ];
        proof {
            assert(names@.len() == 32);
            assert forall|k: int| 0 <= k < 32 implies #[trigger] names@[k]@ == problematic_encodings()[k] by {}
        }
        let mut i: usize = 0;
        while i < 32
            invariant
                i <= 32,
                names@.len() == 32,
                forall|k: int| 0 <= k < 32 ==> #[trigger] names@[k]@ == problematic_encodings()[k],
                forall|k: int| 0 <= k < i ==> !contains_text(head@, #[trigger] problematic_encodings()[k]),
            decreases 32 - i,
        {
            if text_contains(head, names[i]) {
                return false;
            }
            i = i + 1;
        }
        true
    }
}

/// The CJK character maps that the fallback engine cannot decode.
pub open spec fn problematic_encodings() -> Seq<Seq<char>> {
    seq![
        "GBK-EUC-H"@, "GBK-EUC-V"@, "GB-EUC-H"@, "GB-EUC-V"@,
        "UniGB-UCS2-H"@, "UniGB-UCS2-V"@, "UniGB-UTF16-H"@, "UniGB-UTF16-V"@,
        "B5pc-H"@, "B5pc-V"@, "ETen-B5-H"@, "ETen-B5-V"@,
        "CNS-EUC-H"@, "CNS-EUC-V"@, "UniCNS-UCS2-H"@, "UniCNS-UCS2-V"@,
        "90ms-RKSJ-H"@, "90ms-RKSJ-V"@, "90msp-RKSJ-H"@, "90msp-RKSJ-V"@,
        "UniJIS-UCS2-H"@, "UniJIS-UCS2-V"@, "UniJIS-UTF16-H"@, "UniJIS-UTF16-V"@,
        "KSC-EUC-H"@, "KSC-EUC-V"@, "KSCms-UHC-H"@, "KSCms-UHC-V"@,
        "UniKS-UCS2-H"@, "UniKS-UCS2-V"@, "UniKS-UTF16-H"@, "UniKS-UTF16-V"@,
    ]
}

/// A short description of an engine.
pub fn backend_description(b: PdfBackend) -> &'static str {
    match b {
        PdfBackend::Pdfium => "Google Pdfium (fastest, most reliable)",
        PdfBackend::MuPDF => "MuPDF (very fast for large files)",
        PdfBackend::Poppler => "Poppler (fast, good compatibility)",
        PdfBackend::PdfExtract => "pdf-extract (slowest, fallback, limited encoding support)",
    }
}

} // verus!
