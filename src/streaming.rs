//! Streaming a document in bounded chunks: each step advances a cursor over
//! the cached text (or over the sheets of a workbook) and yields one chunk,
//! until the document is consumed.
use vstd::prelude::*;
use crate::artifacts::PdfCache;
use crate::char_index::{build_char_indices, offsets_ok, prefix_chars, slice_chars};
use crate::documents::{get_or_cache_pdf_content, DocumentCaches, DocumentSource};
use crate::markdown::{plain_sheet_section, push_plain_sheet_section, Sheet};
use crate::paths::{chunk_header, file_header, generate_chunk_header, generate_file_header};
use crate::results::{ProcessingProgress, StreamingConfig};
use crate::text::{chars_of, push_str};

verus! {

/// The least length a chunk keeps when it is cut back to a word boundary.
pub open spec fn backoff_floor(max: nat) -> nat {
    if max / 10 > 50 {
        max / 10
    } else {
        50
    }
}

/// The least advance of a step that does not reach the end.
pub open spec fn min_progress(max: nat) -> nat {
    if max / 10 > 1 {
        max / 10
    } else {
        1
    }
}

/// The length of the prefix of `s` that ends with its last space, or 0.
pub open spec fn through_last_space(s: Seq<char>) -> nat
    decreases s.len(),
{
    if s.len() == 0 {
        0
    } else if s.last() == ' ' {
        s.len()
    } else {
        through_last_space(s.drop_last())
    }
}

/// Where the chunk that starts at `cursor` ends before any cut: `max`
/// characters on, or the end of the text.
pub open spec fn chunk_end(total: nat, cursor: nat, max: nat) -> nat {
    if cursor + max < total {
        cursor + max
    } else {
        total
    }
}

/// How many characters the step at `cursor` consumes: the whole window, or,
/// where the window stops short of the end, the part up to its last space if
/// that keeps at least `backoff_floor(max)` characters.
pub open spec fn chunk_len(content: Seq<char>, cursor: nat, max: nat) -> nat {
    let end = chunk_end(content.len(), cursor, max);
    let k = through_last_space(content.subrange(cursor as int, end as int));
    if end < content.len() && k >= backoff_floor(max) {
        k
    } else {
        (end - cursor) as nat
    }
}

/// The chunk text of the step at `cursor` over the text of the document at
/// `path`.
pub open spec fn chunk_text(path: Seq<char>, content: Seq<char>, cursor: nat, max: nat) -> Seq<char> {
    (if cursor == 0 {
        file_header(path)
    } else {
        Seq::empty()
    }) + chunk_header(
        cursor / max + 1,
        cursor,
        chunk_end(content.len(), cursor, max),
        "characters"@,
    ) + content.subrange(cursor as int, (cursor + chunk_len(content, cursor, max)) as int) + "\n\n"@
}

proof fn lemma_through_last_space_bound(s: Seq<char>)
    ensures
        through_last_space(s) <= s.len(),
    decreases s.len(),
{
    if s.len() > 0 {
        lemma_through_last_space_bound(s.drop_last());
    }
}

/// A step that does not reach the end advances by at least
/// `min_progress(max)`; every step advances by at least one character.
pub proof fn lemma_chunk_progress(content: Seq<char>, cursor: nat, max: nat)
    requires
        max >= 1,
        cursor < content.len(),
    ensures
        chunk_len(content, cursor, max) >= 1,
        cursor + chunk_len(content, cursor, max) <= content.len(),
        cursor + chunk_len(content, cursor, max) < content.len() ==> chunk_len(content, cursor, max)
            >= min_progress(max),
{
    let end = chunk_end(content.len(), cursor, max);
    let w = content.subrange(cursor as int, end as int);
    lemma_through_last_space_bound(w);
    assert(max / 10 <= max) by (nonlinear_arith)
        requires
            max >= 1,
    ;
}

fn last_space_prefix(v: &Vec<char>) -> (r: usize)
    ensures
        r == through_last_space(v@),
{
    let mut i: usize = v.len();
    proof {
        assert(v@.take(i as int) =~= v@);
    }
    while i > 0
        invariant
            i <= v@.len(),
            through_last_space(v@) == through_last_space(v@.take(i as int)),
        decreases i,
    {
        proof {
            assert(v@.take(i as int).drop_last() =~= v@.take(i - 1));
            assert(v@.take(i as int).last() == v@[i - 1]);
        }
        if v[i - 1] == ' ' {
            return i;
        }
        i = i - 1;
    }
    proof {
        assert(v@.take(0) =~= Seq::<char>::empty());
    }
    0
}

/// The progress record of the step at `cursor` of streaming `content`.
#[verifier::opaque]
pub open spec fn step_progress(
    p: ProcessingProgress,
    path: Seq<char>,
    content: Seq<char>,
    cursor: nat,
    max: nat,
) -> bool {
    &&& p.total_pages == Some(content.len() as usize)
    &&& p.error is None
    &&& if cursor >= content.len() {
        &&& p.current_page == cursor
        &&& p.current_chunk@.len() == 0
        &&& p.is_complete
    } else {
        &&& p.current_page == cursor + chunk_len(content, cursor, max)
        &&& p.current_chunk@ == chunk_text(path, content, cursor, max)
        &&& p.is_complete == (p.current_page >= content.len())
    }
}

/// One step of streaming the cached text of the PDF at `file_path`: the
/// chunk that starts at character `start_char`, at most `max_chars` long and
/// cut back to a word boundary where that keeps enough of it.
pub fn pdf_chunk_step(file_path: &str, cache: &PdfCache, start_char: usize, max_chars: usize) -> (r:
    ProcessingProgress)
    requires
        offsets_ok(cache.content@, cache.char_indices@),
        max_chars >= 1,
    ensures
        step_progress(r, file_path@, cache.content@, start_char as nat, max_chars as nat),
{
    reveal(step_progress);
    let ghost content = cache.content@;
    let total = cache.char_indices.len() - 1;
    if start_char >= total {
        return ProcessingProgress {
            current_page: start_char,
            total_pages: Some(total),
            current_chunk: String::new(),
            is_complete: true,
            error: None,
        };
    }
    let end = if max_chars < total - start_char { start_char + max_chars } else { total };
    let mut chunk = String::new();
    if start_char == 0 {
        let h = generate_file_header(file_path);
        push_str(&mut chunk, h.as_str());
    }
    let h = generate_chunk_header(start_char / max_chars + 1, start_char, end, "characters");
    push_str(&mut chunk, h.as_str());
    let window = slice_chars(cache.content.as_str(), cache.char_indices.as_slice(), start_char, end);
    let wv = chars_of(window.as_str());
    let k = last_space_prefix(&wv);
    let floor = if max_chars / 10 > 50 { max_chars / 10 } else { 50 };
    let mut advance = if end < total && k >= floor { k } else { end - start_char };
    proof {
        lemma_chunk_progress(content, start_char as nat, max_chars as nat);
    }
    if advance == 0 {
        advance = 1;
    }
    let text = slice_chars(
        cache.content.as_str(),
        cache.char_indices.as_slice(),
        start_char,
        start_char + advance,
    );
    push_str(&mut chunk, text.as_str());
    push_str(&mut chunk, "\n\n");
    proof {
        assert(chunk@ =~= chunk_text(file_path@, content, start_char as nat, max_chars as nat));
    }
    let next = start_char + advance;
    ProcessingProgress {
        current_page: next,
        total_pages: Some(total),
        current_chunk: chunk,
        is_complete: next >= total,
        error: None,
    }
}

/// One step of streaming the PDF at `file_path`, through the cache.
pub fn process_pdf_chunk<S: DocumentSource>(
    source: &S,
    caches: &mut DocumentCaches,
    file_path: &str,
    start_char: usize,
    config: &StreamingConfig,
) -> (r: Result<ProcessingProgress, String>)
    requires
        old(caches).wf(),
        config.max_chunk_size_chars >= 1,
    ensures
        final(caches).wf(),
        r is Ok ==> exists|content: Seq<char>|
            step_progress(
                r->Ok_0,
                file_path@,
                content,
                start_char as nat,
                config.max_chunk_size_chars as nat,
            ),
{
    let cache = get_or_cache_pdf_content(source, caches, file_path)?;
    let p = pdf_chunk_step(file_path, &cache, start_char, config.max_chunk_size_chars);
    proof {
        assert(step_progress(
            p,
            file_path@,
            cache.content@,
            start_char as nat,
            config.max_chunk_size_chars as nat,
        ));
    }
    let out: Result<ProcessingProgress, String> = Ok(p);
    proof {
        assert(step_progress(
            out->Ok_0,
            file_path@,
            cache.content@,
            start_char as nat,
            config.max_chunk_size_chars as nat,
        ));
    }
    out
}

/// Where the `i`-th step of a stream started: at 0, then where the step
/// before it ended.
pub open spec fn cursor_before(r: Seq<ProcessingProgress>, i: int) -> nat {
    if i <= 0 {
        0
    } else {
        r[i - 1].current_page as nat
    }
}

/// `r` are the steps of streaming `content`, each starting where the one
/// before it ended.
pub open spec fn steps_over(r: Seq<ProcessingProgress>, path: Seq<char>, content: Seq<char>, max: nat) -> bool {
    forall|i: int|
        0 <= i < r.len() ==> step_progress(#[trigger] r[i], path, content, cursor_before(r, i), max)
}

proof fn lemma_steps_extend(
    before: Seq<ProcessingProgress>,
    p: ProcessingProgress,
    path: Seq<char>,
    content: Seq<char>,
    max: nat,
    cursor: nat,
)
    requires
        steps_over(before, path, content, max),
        before.len() == 0 ==> cursor == 0,
        before.len() > 0 ==> cursor == before.last().current_page,
        step_progress(p, path, content, cursor, max),
    ensures
        steps_over(before.push(p), path, content, max),
{
    let out = before.push(p);
    assert forall|i: int| 0 <= i < out.len() implies step_progress(
        #[trigger] out[i],
        path,
        content,
        cursor_before(out, i),
        max,
    ) by {
        if i < before.len() {
            assert(out[i] == before[i]);
            if i > 0 {
                assert(out[i - 1] == before[i - 1]);
            }
            assert(cursor_before(out, i) == cursor_before(before, i));
        } else {
            assert(cursor_before(out, i) == cursor);
        }
    }
}

/// The least number of steps of at least `g` each that cover `n`.
pub open spec fn steps_to_cover(n: nat, g: nat) -> nat
    recommends
        g >= 1,
{
    if g == 0 {
        n
    } else {
        ((n + g - 1) as nat / g) as nat
    }
}

/// Streams the PDF at `file_path` in chunks of at most
/// `config.max_chunk_size_chars` characters, from a snapshot of its cached
/// text, until it is consumed or its text cannot be had. The stream always
/// ends, after at most `steps_to_cover(total, min_progress(max)) + 1`
/// steps, with a record marked complete.
pub fn stream_pdf_to_markdown<S: DocumentSource>(
    source: &S,
    caches: &mut DocumentCaches,
    file_path: &str,
    config: &StreamingConfig,
) -> (r: Vec<ProcessingProgress>)
    requires
        old(caches).wf(),
        config.max_chunk_size_chars >= 1,
    ensures
        final(caches).wf(),
        r@.len() >= 1,
        r@.last().is_complete,
        forall|i: int| 0 <= i < r@.len() - 1 ==> !(#[trigger] r@[i]).is_complete,
        r@.last().total_pages is Some ==> r@.len() <= steps_to_cover(
            r@.last().total_pages->0 as nat,
            min_progress(config.max_chunk_size_chars as nat),
        ) + 1,
        r@[0].error is Some ==> r@.len() == 1 && r@[0].current_page == 0 && r@[0].total_pages is None
            && r@[0].current_chunk@.len() == 0 && r@[0].is_complete,
        r@[0].error is None ==> exists|content: Seq<char>|
            #[trigger] steps_over(r@, file_path@, content, config.max_chunk_size_chars as nat),
{
    let max = config.max_chunk_size_chars;
    let mut out: Vec<ProcessingProgress> = Vec::new();
    let cache = match get_or_cache_pdf_content(source, caches, file_path) {
        Ok(c) => c,
        Err(e) => {
            out.push(
                ProcessingProgress {
                    current_page: 0,
                    total_pages: None,
                    current_chunk: String::new(),
                    is_complete: true,
                    error: Some(e),
                },
            );
            return out;
        },
    };
    let ghost content = cache.content@;
    let mut cursor: usize = 0;
    loop
        invariant
            offsets_ok(cache.content@, cache.char_indices@),
            caches.wf(),
            content == cache.content@,
            max == config.max_chunk_size_chars,
            max >= 1,
            cursor <= content.len(),
            out@.len() * min_progress(max as nat) <= cursor,
            forall|i: int| 0 <= i < out@.len() ==> !(#[trigger] out@[i]).is_complete,
            out@.len() == 0 ==> cursor == 0,
            out@.len() > 0 ==> cursor == out@.last().current_page,
            steps_over(out@, file_path@, content, max as nat),
        decreases content.len() + 1 - cursor,
    {
        let p = pdf_chunk_step(file_path, &cache, cursor, max);
        let done = p.is_complete;
        let next = p.current_page;
        proof {
            reveal(step_progress);
            assert(p.total_pages == Some(content.len() as usize));
            assert(cursor < content.len() ==> next == cursor + chunk_len(content, cursor as nat, max as nat)
                && done == (next >= content.len()));
            assert(cursor >= content.len() ==> done);
        }
        let ghost before = out@;
        out.push(p);
        proof {
            assert forall|i: int| 0 <= i < out@.len() - 1 implies !(#[trigger] out@[i]).is_complete by {
                assert(out@[i] == before[i]);
            }
            lemma_steps_extend(before, p, file_path@, content, max as nat, cursor as nat);
        }
        if done {
            proof {
                let g = min_progress(max as nat);
                let t = content.len();
                assert(out@.last().total_pages == Some(t as usize));
                assert(before.len() <= steps_to_cover(t, g)) by (nonlinear_arith)
                    requires
                        g >= 1,
                        before.len() * g <= cursor,
                        cursor <= t,
                        steps_to_cover(t, g) == ((t + g - 1) as nat / g) as nat,
                ;
            }
            return out;
        }
        proof {
            lemma_chunk_progress(content, cursor as nat, max as nat);
            assert(out@.len() * min_progress(max as nat) <= next) by (nonlinear_arith)
                requires
                    out@.len() == before.len() + 1,
                    before.len() * min_progress(max as nat) <= cursor,
                    next >= cursor + min_progress(max as nat),
            ;
            assert forall|i: int| 0 <= i < out@.len() implies !(#[trigger] out@[i]).is_complete by {
                if i < before.len() {
                    assert(out@[i] == before[i]);
                }
            }
        }
        cursor = next;
    }
}

/// The record of the step at sheet `sheet_index` of streaming a workbook.
pub open spec fn sheet_step(p: ProcessingProgress, path: Seq<char>, sheets: Seq<Sheet>, index: nat) -> bool {
    &&& p.total_pages == Some(sheets.len() as usize)
    &&& p.error is None
    &&& if index >= sheets.len() {
        &&& p.current_page == index
        &&& p.current_chunk@.len() == 0
        &&& p.is_complete
    } else {
        &&& p.current_page == index + 1
        &&& p.current_chunk@ == (if index == 0 {
            file_header(path)
        } else {
            Seq::empty()
        }) + plain_sheet_section(sheets[index as int])
        &&& p.is_complete == (index + 1 >= sheets.len())
    }
}

/// `r` are the steps of streaming the workbook `sheets`, one sheet each.
pub open spec fn sheet_steps_over(r: Seq<ProcessingProgress>, path: Seq<char>, sheets: Seq<Sheet>) -> bool {
    forall|i: int| 0 <= i < r.len() ==> sheet_step(#[trigger] r[i], path, sheets, i as nat)
}

/// One step of streaming a workbook: the whole sheet at `sheet_index`.
pub fn excel_chunk_step(file_path: &str, sheets: &Vec<Sheet>, sheet_index: usize) -> (r: ProcessingProgress)
    ensures
        sheet_step(r, file_path@, sheets@, sheet_index as nat),
{
    let total = sheets.len();
    if sheet_index >= total {
        return ProcessingProgress {
            current_page: sheet_index,
            total_pages: Some(total),
            current_chunk: String::new(),
            is_complete: true,
            error: None,
        };
    }
    let mut chunk = String::new();
    if sheet_index == 0 {
        let h = generate_file_header(file_path);
        push_str(&mut chunk, h.as_str());
    }
    push_plain_sheet_section(&mut chunk, &sheets[sheet_index]);
    proof {
        assert(chunk@ =~= (if sheet_index == 0 {
            file_header(file_path@)
        } else {
            Seq::empty()
        }) + plain_sheet_section(sheets@[sheet_index as int]));
    }
    ProcessingProgress {
        current_page: sheet_index + 1,
        total_pages: Some(total),
        current_chunk: chunk,
        is_complete: sheet_index + 1 >= total,
        error: None,
    }
}

/// One step of streaming the workbook at `file_path`.
pub fn process_excel_chunk<S: DocumentSource>(source: &S, file_path: &str, sheet_index: usize) -> (r:
    Result<ProcessingProgress, String>)
    ensures
        r is Ok ==> exists|sheets: Seq<Sheet>| sheet_step(r->Ok_0, file_path@, sheets, sheet_index as nat),
        r is Err ==> r->Err_0@ == "Failed to open Excel file: "@ + file_path@,
{
    match source.read_workbook(file_path) {
        Ok(sheets) => {
            let p = excel_chunk_step(file_path, &sheets, sheet_index);
            let out: Result<ProcessingProgress, String> = Ok(p);
            proof {
                assert(sheet_step(out->Ok_0, file_path@, sheets@, sheet_index as nat));
            }
            out
        },
        Err(_) => {
            let mut m = String::new();
            push_str(&mut m, "Failed to open Excel file: ");
            push_str(&mut m, file_path);
            proof {
                assert(m@ =~= "Failed to open Excel file: "@ + file_path@);
            }
            Err(m)
        },
    }
}

/// Streams the workbook at `file_path` sheet by sheet, from one reading of
/// it, until every sheet is out or it cannot be read.
pub fn stream_excel_to_markdown<S: DocumentSource>(source: &S, file_path: &str) -> (r: Vec<
    ProcessingProgress,
>)
    ensures
        r@.len() >= 1,
        r@.last().is_complete,
        forall|i: int| 0 <= i < r@.len() - 1 ==> !(#[trigger] r@[i]).is_complete,
        r@[0].error is Some ==> r@.len() == 1 && r@[0].current_page == 0 && r@[0].total_pages is None
            && r@[0].current_chunk@.len() == 0 && r@[0].is_complete && r@[0].error->0@
            == "Failed to open Excel file: "@ + file_path@,
        r@[0].error is None ==> exists|sheets: Seq<Sheet>| #[trigger] sheet_steps_over(r@, file_path@, sheets),
{
    let mut out: Vec<ProcessingProgress> = Vec::new();
    let sheets = match source.read_workbook(file_path) {
        Ok(s) => s,
        Err(_) => {
            let mut m = String::new();
            push_str(&mut m, "Failed to open Excel file: ");
            push_str(&mut m, file_path);
            proof {
                assert(m@ =~= "Failed to open Excel file: "@ + file_path@);
            }
            out.push(
                ProcessingProgress {
                    current_page: 0,
                    total_pages: None,
                    current_chunk: String::new(),
                    is_complete: true,
                    error: Some(m),
                },
            );
            return out;
        },
    };
    let mut index: usize = 0;
    loop
        invariant
            index <= sheets@.len(),
            out@.len() == index,
            forall|i: int| 0 <= i < out@.len() ==> !(#[trigger] out@[i]).is_complete,
            sheet_steps_over(out@, file_path@, sheets@),
        decreases sheets@.len() + 1 - index,
    {
        let p = excel_chunk_step(file_path, &sheets, index);
        let done = p.is_complete;
        let ghost before = out@;
        out.push(p);
        proof {
            assert forall|i: int| 0 <= i < out@.len() implies sheet_step(
                #[trigger] out@[i],
                file_path@,
                sheets@,
                i as nat,
            ) by {
                if i < before.len() {
                    assert(out@[i] == before[i]);
                }
            }
            assert forall|i: int| 0 <= i < out@.len() - 1 implies !(#[trigger] out@[i]).is_complete by {
                assert(out@[i] == before[i]);
            }
        }
        if done {
            proof {
                assert(sheet_steps_over(out@, file_path@, sheets@));
            }
            return out;
        }
        proof {
            assert forall|i: int| 0 <= i < out@.len() implies !(#[trigger] out@[i]).is_complete by {
                if i < before.len() {
                    assert(out@[i] == before[i]);
                }
            }
        }
        index = index + 1;
    }
}

/// `text` cut back to a word boundary when it is longer than `max_chars`
/// characters: up to its last space within the first `max_chars` characters, or
/// at `max_chars` characters where there is no such space.
pub open spec fn word_break(text: Seq<char>, max_chars: nat) -> Seq<char> {
    if text.len() <= max_chars {
        text
    } else {
        let m = if max_chars < text.len() {
            max_chars
        } else {
            text.len()
        };
        let k = through_last_space(text.take(m as int));
        if k == 0 {
            text.take(m as int)
        } else {
            text.take(k as int)
        }
    }
}

/// `text` cut back to a word boundary; see `word_break`.
pub fn break_at_word_boundary(text: &str, max_chars: usize) -> (r: &str)
    ensures
        r@ == word_break(text@, max_chars as nat),
{
    let chars = chars_of(text);
    if chars.len() <= max_chars {
        return text;
    }
    let m = if max_chars < chars.len() { max_chars } else { chars.len() };
    let mut bp: usize = m;
    proof {
        assert(text@.take(m as int).take(bp as int) =~= text@.take(m as int));
    }
    while bp > 0 && chars[bp - 1] != ' '
        invariant
            chars@ == text@,
            bp <= m <= chars@.len(),
            through_last_space(text@.take(m as int)) == through_last_space(
                text@.take(m as int).take(bp as int),
            ),
        decreases bp,
    {
        proof {
            let t = text@.take(m as int);
            assert(t.take(bp as int).drop_last() =~= t.take(bp - 1));
            assert(t.take(bp as int).last() == chars@[bp - 1]);
        }
        bp = bp - 1;
    }
    proof {
        let t = text@.take(m as int);
        if bp > 0 {
            assert(t.take(bp as int).last() == ' ');
            assert(text@.take(bp as int) =~= t.take(bp as int));
        } else {
            assert(t.take(0) =~= Seq::<char>::empty());
        }
    }
    let cut = if bp == 0 { m } else { bp };
    let idx = build_char_indices(text);
    prefix_chars(text, idx.as_slice(), cut)
}

} // verus!
