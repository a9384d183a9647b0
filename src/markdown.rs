//! Markdown rendering of workbooks, word-processing documents and
//! presentations from the plain values their parsers read.
use vstd::prelude::*;
use crate::artifacts::SlideText;
use crate::paths::{file_header, generate_file_header};
use crate::text::{decimal, push_decimal, push_str, trim, chars_of, trim_bounds};

verus! {

/// One sheet of a workbook: its name and, if it could be read, its cells as
/// rows of rendered values, `width` columns wide.
pub struct Sheet {
    pub name: String,
    pub rows: Option<Vec<Vec<String>>>,
    pub width: usize,
}

/// The rendered value of cell `c` of `row`, empty past its end.
pub open spec fn cell_text(row: Seq<String>, c: int) -> Seq<char> {
    if c < row.len() {
        row[c]@
    } else {
        Seq::empty()
    }
}

/// The cells `0..n` of a row, each followed by `" | "`.
pub open spec fn row_cells(row: Seq<String>, n: nat) -> Seq<char>
    decreases n,
{
    if n == 0 {
        Seq::empty()
    } else {
        row_cells(row, (n - 1) as nat) + cell_text(row, n - 1) + " | "@
    }
}

/// One table row of `width` columns.
pub open spec fn table_row(row: Seq<String>, width: nat) -> Seq<char> {
    "| "@ + row_cells(row, width) + "\n"@
}

/// `"--- | "` repeated `n` times.
pub open spec fn separators(n: nat) -> Seq<char>
    decreases n,
{
    if n == 0 {
        Seq::empty()
    } else {
        separators((n - 1) as nat) + "--- | "@
    }
}

/// The rows `1..n` of a table.
pub open spec fn data_rows(rows: Seq<Vec<String>>, width: nat, n: nat) -> Seq<char>
    decreases n,
{
    if n <= 1 {
        Seq::empty()
    } else {
        data_rows(rows, width, (n - 1) as nat) + table_row(rows[n - 1]@, width)
    }
}

/// A sheet's cells as a markdown table: the first row is the header.
pub open spec fn markdown_table(rows: Seq<Vec<String>>, width: nat) -> Seq<char> {
    if rows.len() == 0 {
        "Empty sheet"@
    } else {
        table_row(rows[0]@, width) + "| "@ + separators(width) + "\n"@ + data_rows(
            rows,
            width,
            rows.len(),
        )
    }
}

fn push_table_row(out: &mut String, row: &Vec<String>, width: usize)
    ensures
        final(out)@ == old(out)@ + table_row(row@, width as nat),
{
    let ghost start = out@;
    push_str(out, "| ");
    let mut c: usize = 0;
    while c < width
        invariant
            c <= width,
            out@ == start + "| "@ + row_cells(row@, c as nat),
        decreases width - c,
    {
        if c < row.len() {
            push_str(out, row[c].as_str());
        }
        push_str(out, " | ");
        c = c + 1;
        proof {
            assert(out@ =~= start + "| "@ + row_cells(row@, c as nat));
        }
    }
    push_str(out, "\n");
    proof {
        assert(out@ =~= start + table_row(row@, width as nat));
    }
}

/// A sheet's cells as a markdown table, `"Empty sheet"` when it has no rows.
pub fn range_to_markdown_table(rows: &Vec<Vec<String>>, width: usize) -> (r: String)
    ensures
        r@ == markdown_table(rows@, width as nat),
{
    let mut table = String::new();
    if rows.len() == 0 {
        push_str(&mut table, "Empty sheet");
        proof {
            assert(table@ =~= markdown_table(rows@, width as nat));
        }
        return table;
    }
    push_table_row(&mut table, &rows[0], width);
    push_str(&mut table, "| ");
    let ghost head = table@;
    let mut c: usize = 0;
    while c < width
        invariant
            c <= width,
            table@ == head + separators(c as nat),
        decreases width - c,
    {
        push_str(&mut table, "--- | ");
        c = c + 1;
        proof {
            assert(table@ =~= head + separators(c as nat));
        }
    }
    push_str(&mut table, "\n");
    let ghost body = table@;
    let mut r: usize = 1;
    proof {
        assert(body + data_rows(rows@, width as nat, 1) =~= body);
    }
    while r < rows.len()
        invariant
            1 <= r <= rows@.len(),
            table@ == body + data_rows(rows@, width as nat, r as nat),
        decreases rows@.len() - r,
    {
        push_table_row(&mut table, &rows[r], width);
        r = r + 1;
        proof {
            assert(table@ =~= body + data_rows(rows@, width as nat, r as nat));
        }
    }
    proof {
        assert(table@ =~= markdown_table(rows@, width as nat));
    }
    table
}

/// The section of the sheet numbered `n` in a workbook rendering.
pub open spec fn sheet_section(n: nat, sheet: Sheet) -> Seq<char> {
    "## Sheet "@ + decimal(n) + ": "@ + sheet.name@ + "\n\n"@ + match sheet.rows {
        Some(rows) => markdown_table(rows@, sheet.width as nat) + "\n\n"@,
        None => "*Sheet could not be read*\n\n"@,
    }
}

fn push_sheet_section(out: &mut String, n: usize, sheet: &Sheet)
    ensures
        final(out)@ == old(out)@ + sheet_section(n as nat, *sheet),
{
    let ghost start = out@;
    push_str(out, "## Sheet ");
    push_decimal(out, n);
    push_str(out, ": ");
    push_str(out, sheet.name.as_str());
    push_str(out, "\n\n");
    match &sheet.rows {
        Some(rows) => {
            let t = range_to_markdown_table(rows, sheet.width);
            push_str(out, t.as_str());
            push_str(out, "\n\n");
        },
        None => {
            push_str(out, "*Sheet could not be read*\n\n");
        },
    }
    proof {
        assert(out@ =~= start + sheet_section(n as nat, *sheet));
    }
}

/// The sections of the first `n` sheets.
pub open spec fn all_sheet_sections(sheets: Seq<Sheet>, n: nat) -> Seq<char>
    decreases n,
{
    if n == 0 {
        Seq::empty()
    } else {
        all_sheet_sections(sheets, (n - 1) as nat) + sheet_section(n, sheets[n - 1])
    }
}

/// A whole workbook as markdown.
pub open spec fn workbook_markdown(path: Seq<char>, sheets: Seq<Sheet>) -> Seq<char> {
    file_header(path) + all_sheet_sections(sheets, sheets.len())
}

/// A whole workbook as markdown: the title, then each sheet in order.
pub fn workbook_to_markdown(file_path: &str, sheets: &Vec<Sheet>) -> (r: String)
    ensures
        r@ == workbook_markdown(file_path@, sheets@),
{
    let mut out = generate_file_header(file_path);
    let ghost head = out@;
    let mut i: usize = 0;
    while i < sheets.len()
        invariant
            i <= sheets@.len(),
            out@ == head + all_sheet_sections(sheets@, i as nat),
        decreases sheets@.len() - i,
    {
        push_sheet_section(&mut out, i + 1, &sheets[i]);
        i = i + 1;
        proof {
            assert(out@ =~= head + all_sheet_sections(sheets@, i as nat));
        }
    }
    out
}

/// The sections of the requested sheets that exist, in the order requested.
pub open spec fn chosen_sheet_sections(sheets: Seq<Sheet>, numbers: Seq<usize>) -> Seq<char>
    decreases numbers.len(),
{
    if numbers.len() == 0 {
        Seq::empty()
    } else {
        let n = numbers.last();
        chosen_sheet_sections(sheets, numbers.drop_last()) + if 0 < n <= sheets.len() {
            sheet_section(n as nat, sheets[n - 1])
        } else {
            Seq::empty()
        }
    }
}

/// The requested sheets of a workbook as markdown: the title, then each
/// requested sheet that exists, in the order requested.
pub fn sheets_to_markdown(file_path: &str, sheets: &Vec<Sheet>, sheet_numbers: &[usize]) -> (r: String)
    ensures
        r@ == file_header(file_path@) + chosen_sheet_sections(sheets@, sheet_numbers@),
{
    let mut out = generate_file_header(file_path);
    let ghost head = out@;
    let mut i: usize = 0;
    proof {
        assert(sheet_numbers@.take(0) =~= Seq::<usize>::empty());
    }
    while i < sheet_numbers.len()
        invariant
            i <= sheet_numbers@.len(),
            out@ == head + chosen_sheet_sections(sheets@, sheet_numbers@.take(i as int)),
        decreases sheet_numbers@.len() - i,
    {
        let n = sheet_numbers[i];
        proof {
            assert(sheet_numbers@.take(i + 1).drop_last() =~= sheet_numbers@.take(i as int));
            assert(sheet_numbers@.take(i + 1).last() == n);
        }
        if n > 0 && n <= sheets.len() {
            push_sheet_section(&mut out, n, &sheets[n - 1]);
        }
        i = i + 1;
        proof {
            assert(out@ =~= head + chosen_sheet_sections(sheets@, sheet_numbers@.take(i as int)));
        }
    }
    proof {
        assert(sheet_numbers@.take(sheet_numbers@.len() as int) =~= sheet_numbers@);
    }
    out
}

/// The section of one readable sheet in a plain workbook rendering.
pub open spec fn plain_sheet_section(sheet: Sheet) -> Seq<char> {
    "## Sheet: "@ + sheet.name@ + "\n\n"@ + match sheet.rows {
        Some(rows) => markdown_table(rows@, sheet.width as nat) + "\n\n"@,
        None => Seq::empty(),
    }
}

/// Appends the plain section of one sheet: its name, then its table if it
/// could be read.
pub fn push_plain_sheet_section(out: &mut String, sheet: &Sheet)
    ensures
        final(out)@ == old(out)@ + plain_sheet_section(*sheet),
{
    let ghost start = out@;
    push_str(out, "## Sheet: ");
    push_str(out, sheet.name.as_str());
    push_str(out, "\n\n");
    match &sheet.rows {
        Some(rows) => {
            let t = range_to_markdown_table(rows, sheet.width);
            push_str(out, t.as_str());
            push_str(out, "\n\n");
        },
        None => {},
    }
    proof {
        assert(out@ =~= start + plain_sheet_section(*sheet));
    }
}

/// The plain sections of the first `n` sheets.
pub open spec fn plain_sections(sheets: Seq<Sheet>, n: nat) -> Seq<char>
    decreases n,
{
    if n == 0 {
        Seq::empty()
    } else {
        plain_sections(sheets, (n - 1) as nat) + plain_sheet_section(sheets[n - 1])
    }
}

/// A workbook as markdown with sheet names only in the headings.
pub fn read_excel_to_markdown(file_path: &str, sheets: &Vec<Sheet>) -> (r: String)
    ensures
        r@ == file_header(file_path@) + plain_sections(sheets@, sheets@.len()),
{
    let mut out = generate_file_header(file_path);
    let ghost head = out@;
    let mut i: usize = 0;
    while i < sheets.len()
        invariant
            i <= sheets@.len(),
            out@ == head + plain_sections(sheets@, i as nat),
        decreases sheets@.len() - i,
    {
        push_plain_sheet_section(&mut out, &sheets[i]);
        i = i + 1;
        proof {
            assert(out@ =~= head + plain_sections(sheets@, i as nat));
        }
    }
    out
}

/// A word-processing document as markdown.
pub open spec fn docx_markdown(path: Seq<char>, text: Seq<char>) -> Seq<char> {
    file_header(path) + "## Content\n\n"@ + text + "\n\n"@
}

/// A word-processing document as markdown: the title, then its text.
pub fn read_docx_to_markdown(file_path: &str, text: &str) -> (r: String)
    ensures
        r@ == docx_markdown(file_path@, text@),
{
    let mut out = generate_file_header(file_path);
    push_str(&mut out, "## Content\n\n");
    push_str(&mut out, text);
    push_str(&mut out, "\n\n");
    proof {
        assert(out@ =~= docx_markdown(file_path@, text@));
    }
    out
}

/// The paragraphs that one page is assumed to hold.
pub const PARAGRAPHS_PER_PAGE: usize = 25;

/// The estimated page count of a document of `paragraphs` paragraphs: one
/// page per `PARAGRAPHS_PER_PAGE`, at least 1.
pub open spec fn docx_pages(paragraphs: nat) -> nat {
    if paragraphs > PARAGRAPHS_PER_PAGE as nat && paragraphs / (PARAGRAPHS_PER_PAGE as nat) >= 1 {
        paragraphs / (PARAGRAPHS_PER_PAGE as nat)
    } else {
        1
    }
}

/// The estimated page count of a document; see `docx_pages`.
pub fn docx_page_estimate(paragraphs: usize) -> (r: usize)
    ensures
        r == docx_pages(paragraphs as nat),
        r >= 1,
{
    if paragraphs > PARAGRAPHS_PER_PAGE && paragraphs / PARAGRAPHS_PER_PAGE >= 1 {
        paragraphs / PARAGRAPHS_PER_PAGE
    } else {
        1
    }
}

/// Whether `t` holds anything but whitespace.
pub open spec fn has_text(t: Seq<char>) -> bool {
    trim(t).len() > 0
}

/// Whether `t` holds anything but whitespace.
pub fn is_blank(t: &str) -> (r: bool)
    ensures
        r == !has_text(t@),
{
    let v = chars_of(t);
    let (a, b) = trim_bounds(v.as_slice(), 0, v.len());
    proof {
        assert(v@.subrange(0, v@.len() as int) =~= t@);
    }
    a == b
}

/// The section of one slide.
pub open spec fn slide_section(n: nat, text: Seq<char>) -> Seq<char> {
    "## Slide "@ + decimal(n) + "\n\n"@ + text + "\n\n"@
}

fn push_slide_section(out: &mut String, n: usize, text: &str)
    ensures
        final(out)@ == old(out)@ + slide_section(n as nat, text@),
{
    let ghost start = out@;
    push_str(out, "## Slide ");
    push_decimal(out, n);
    push_str(out, "\n\n");
    push_str(out, text);
    push_str(out, "\n\n");
    proof {
        assert(out@ =~= start + slide_section(n as nat, text@));
    }
}

/// The sections of the first `n` slides that hold text.
pub open spec fn slide_sections(slides: Seq<SlideText>, n: nat) -> Seq<char>
    decreases n,
{
    if n == 0 {
        Seq::empty()
    } else {
        let s = slides[n - 1];
        slide_sections(slides, (n - 1) as nat) + if has_text(s.text@) {
            slide_section(s.number as nat, s.text@)
        } else {
            Seq::empty()
        }
    }
}

/// The sections of all slides that hold text, in order.
pub fn slides_to_markdown(slides: &Vec<SlideText>) -> (r: String)
    ensures
        r@ == slide_sections(slides@, slides@.len()),
{
    let mut out = String::new();
    let mut i: usize = 0;
    while i < slides.len()
        invariant
            i <= slides@.len(),
            out@ == slide_sections(slides@, i as nat),
        decreases slides@.len() - i,
    {
        if !is_blank(slides[i].text.as_str()) {
            push_slide_section(&mut out, slides[i].number, slides[i].text.as_str());
        }
        i = i + 1;
        proof {
            assert(out@ =~= slide_sections(slides@, i as nat));
        }
    }
    out
}

/// The position of the last slide numbered `n`, or -1.
pub open spec fn slide_index(slides: Seq<SlideText>, n: usize) -> int
    decreases slides.len(),
{
    if slides.len() == 0 {
        -1
    } else if slides.last().number == n {
        slides.len() - 1
    } else {
        slide_index(slides.drop_last(), n)
    }
}

proof fn lemma_slide_index_bounds(slides: Seq<SlideText>, n: usize)
    ensures
        -1 <= slide_index(slides, n) < slides.len(),
    decreases slides.len(),
{
    if slides.len() > 0 {
        lemma_slide_index_bounds(slides.drop_last(), n);
    }
}

fn find_slide(slides: &Vec<SlideText>, n: usize) -> (r: Option<usize>)
    ensures
        match r {
            Some(i) => i as int == slide_index(slides@, n),
            None => slide_index(slides@, n) == -1,
        },
{
    let mut i: usize = slides.len();
    proof {
        assert(slides@.take(i as int) =~= slides@);
    }
    while i > 0
        invariant
            i <= slides@.len(),
            slide_index(slides@, n) == slide_index(slides@.take(i as int), n),
        decreases i,
    {
        proof {
            assert(slides@.take(i as int).drop_last() =~= slides@.take(i - 1));
            assert(slides@.take(i as int).last() == slides@[i - 1]);
        }
        if slides[i - 1].number == n {
            return Some(i - 1);
        }
        i = i - 1;
    }
    proof {
        assert(slides@.take(0) =~= Seq::<SlideText>::empty());
    }
    None
}

/// The sections of the requested slides that exist and hold text, in the
/// order requested.
pub open spec fn chosen_slide_sections(slides: Seq<SlideText>, numbers: Seq<usize>) -> Seq<char>
    decreases numbers.len(),
{
    if numbers.len() == 0 {
        Seq::empty()
    } else {
        let n = numbers.last();
        let k = slide_index(slides, n);
        chosen_slide_sections(slides, numbers.drop_last()) + if k >= 0 && has_text(
            slides[k].text@,
        ) {
            slide_section(n as nat, slides[k].text@)
        } else {
            Seq::empty()
        }
    }
}

/// The requested slides as markdown: the title, then each requested slide
/// that exists and holds text.
pub fn chosen_slides_to_markdown(file_path: &str, slides: &Vec<SlideText>, numbers: &[usize]) -> (r:
    String)
    ensures
        r@ == file_header(file_path@) + chosen_slide_sections(slides@, numbers@),
{
    let mut out = generate_file_header(file_path);
    let ghost head = out@;
    let mut i: usize = 0;
    proof {
        assert(numbers@.take(0) =~= Seq::<usize>::empty());
    }
    while i < numbers.len()
        invariant
            i <= numbers@.len(),
            out@ == head + chosen_slide_sections(slides@, numbers@.take(i as int)),
        decreases numbers@.len() - i,
    {
        let n = numbers[i];
        proof {
            assert(numbers@.take(i + 1).drop_last() =~= numbers@.take(i as int));
            assert(numbers@.take(i + 1).last() == n);
            lemma_slide_index_bounds(slides@, n);
        }
        match find_slide(slides, n) {
            Some(k) => {
                if !is_blank(slides[k].text.as_str()) {
                    push_slide_section(&mut out, n, slides[k].text.as_str());
                }
            },
            None => {},
        }
        i = i + 1;
        proof {
            assert(out@ =~= head + chosen_slide_sections(slides@, numbers@.take(i as int)));
        }
    }
    proof {
        assert(numbers@.take(numbers@.len() as int) =~= numbers@);
    }
    out
}

} // verus!
