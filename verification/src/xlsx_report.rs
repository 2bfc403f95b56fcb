//! The spreadsheet report: one row per test case, grouped by suite, with a
//! footer of project details, per-status totals and the total duration.
//!
//! The worksheet is a `rust_xlsxwriter::Worksheet`. What the report writes
//! into it is stated over a model of its contents: the cells, the format
//! properties of each cell, the merged ranges, the cells those ranges
//! claim, and the sheet's name. A `rust_xlsxwriter::Format` is modelled by
//! the properties it sets.

use vstd::prelude::*;
use rust_xlsxwriter::{Format, FormatAlign, FormatBorder, Color, Worksheet, XlsxError};
use crate::junit_xml::{status_from_label, status_label, TestStatus};
use crate::text::{
    chars_of, lemma_nat_digits_first, lemma_signed_text_len, nat_digits, lemma_utf16_len_bound, pad_two, push_char, push_pad_two,
    push_signed_text, same_text, signed_text, utf16_len,
};

verus! {

/// `rust_xlsxwriter::Worksheet`: a worksheet being filled.
#[verifier::external_type_specification]
#[verifier::external_body]
pub struct ExWorksheet(Worksheet);

/// `rust_xlsxwriter::Format`: the look of a cell.
#[verifier::external_type_specification]
#[verifier::external_body]
pub struct ExFormat(Format);

/// `rust_xlsxwriter::XlsxError`: why a write into the worksheet failed.
#[verifier::external_type_specification]
#[verifier::external_body]
pub struct ExXlsxError(XlsxError);

/// Rows of a worksheet are numbered below this bound.
pub const ROW_LIMIT: u32 = 1_048_576;

/// Columns of a worksheet are numbered below this bound.
pub const COL_LIMIT: u16 = 16_384;

/// A text cell holds at most this many UTF-16 code units.
pub const TEXT_LIMIT: usize = 32_767;

/// What a cell holds.
pub enum CellContent {
    Text(Seq<char>),
    /// A cell with a format and no value (what an empty text becomes).
    Blank,
    /// A formula, as the worksheet stores it: `formula_string` of the text
    /// it was written from.
    Formula(Seq<char>),
}

/// The cell that writing `s` as text produces.
pub open spec fn text_cell(s: Seq<char>) -> CellContent {
    if s.len() == 0 {
        CellContent::Blank
    } else {
        CellContent::Text(s)
    }
}

/// What `rust_xlsxwriter::Formula::new` keeps of a formula text, which is
/// what a worksheet stores for it: the text without a leading `{` and `=`
/// and a trailing `}`, with the names of newer Excel functions given the
/// prefix that the file format asks for.
pub uninterp spec fn formula_string(text: Seq<char>) -> Seq<char>;

/// The cells of a worksheet, by (row, column).
pub uninterp spec fn sheet_cells(ws: Worksheet) -> Map<(u32, u16), CellContent>;

/// The merged ranges of a worksheet, as (first row, first column, last row,
/// last column), in the order they were merged.
pub uninterp spec fn sheet_merged_ranges(ws: Worksheet) -> Seq<(u32, u16, u32, u16)>;

/// The cells that merges have claimed, each with the index in the list of
/// merged ranges that the claiming merge was to take; a new merge may not
/// touch them. A merge that fails on an earlier claim leaves the cells it
/// claimed before the clash with an index that no range holds.
pub uninterp spec fn sheet_merged_cells(ws: Worksheet) -> Map<(u32, u16), nat>;

/// The format properties of each cell that a write gave a format.
pub uninterp spec fn sheet_formats(ws: Worksheet) -> Map<(u32, u16), Set<FormatProperty>>;

/// Whether every merge claim of a worksheet points at a stored range: true
/// of a new worksheet and kept by successful merges. A merge on a worksheet
/// where it fails may panic, not fail.
pub open spec fn merges_consistent(ws: Worksheet) -> bool {
    forall|cell: (u32, u16)|
        #[trigger] sheet_merged_cells(ws).dom().contains(cell) ==> sheet_merged_cells(ws)[cell]
            < sheet_merged_ranges(ws).len()
}

/// The name of a worksheet.
pub uninterp spec fn sheet_name(ws: Worksheet) -> Seq<char>;

/// Whether a cell lies in the rectangle (first row, first column, last
/// row, last column).
pub open spec fn in_range(range: (u32, u16, u32, u16), cell: (u32, u16)) -> bool {
    range.0 <= cell.0 <= range.2 && range.1 <= cell.1 <= range.3
}

/// Whether a name is one that a worksheet may take: not empty, at most 31
/// UTF-16 code units, none of `* ? : [ ] \ /`, and no apostrophe first or
/// last.
pub open spec fn valid_sheet_name(name: Seq<char>) -> bool {
    &&& name.len() > 0
    &&& utf16_len(name) <= 31
    &&& forall|k: int|
        0 <= k < name.len() ==> !(name[k] == '*' || name[k] == '?' || name[k] == ':' || name[k]
            == '[' || name[k] == ']' || name[k] == '\\' || name[k] == '/')
    &&& name[0] != '\''
    &&& name.last() != '\''
}

/// `Worksheet::new`: an empty worksheet without a name.
#[verifier::external_body]
fn new_worksheet() -> (r: Worksheet)
    ensures
        sheet_cells(r).is_empty(),
        sheet_merged_ranges(r).len() == 0,
        sheet_merged_cells(r).is_empty(),
        sheet_formats(r).is_empty(),
        sheet_name(r).len() == 0,
{
    Worksheet::new()
}

/// `Worksheet::set_name`: names the worksheet when the name is valid
/// (`utility::validate_sheetname`), and otherwise fails and changes nothing.
#[verifier::external_body]
fn set_sheet_name(ws: &mut Worksheet, name: &str) -> (r: Result<(), XlsxError>)
    ensures
        r is Ok <==> valid_sheet_name(name@),
        sheet_name(*final(ws)) == if r is Ok { name@ } else { sheet_name(*old(ws)) },
        sheet_cells(*final(ws)) == sheet_cells(*old(ws)),
        sheet_merged_ranges(*final(ws)) == sheet_merged_ranges(*old(ws)),
        sheet_merged_cells(*final(ws)) == sheet_merged_cells(*old(ws)),
        sheet_formats(*final(ws)) == sheet_formats(*old(ws)),
{
    ws.set_name(name).map(|_| ())
}

/// `Worksheet::write_string_with_format`: writes a text cell (a blank cell
/// for an empty text) with the given format. It fails, changing nothing,
/// when the cell lies outside the sheet or the text is longer than
/// [`TEXT_LIMIT`]. A blank cell written with a format that sets nothing may
/// take a row or column format instead, which is left unsaid.
#[verifier::external_body]
fn write_text(ws: &mut Worksheet, row: u32, col: u16, text: &str, format: &Format) -> (r: Result<(), XlsxError>)
    ensures
        r is Ok <==> (row < ROW_LIMIT && col < COL_LIMIT && utf16_len(text@) <= TEXT_LIMIT),
        sheet_cells(*final(ws)) == if r is Ok {
            sheet_cells(*old(ws)).insert((row, col), text_cell(text@))
        } else {
            sheet_cells(*old(ws))
        },
        sheet_formats(*final(ws)) == if r is Ok {
            sheet_formats(*old(ws)).insert(
                (row, col),
                if text@.len() > 0 || !format_properties(*format).is_empty() {
                    format_properties(*format)
                } else {
                    sheet_formats(*final(ws))[(row, col)]
                },
            )
        } else {
            sheet_formats(*old(ws))
        },
        sheet_merged_ranges(*final(ws)) == sheet_merged_ranges(*old(ws)),
        sheet_merged_cells(*final(ws)) == sheet_merged_cells(*old(ws)),
        sheet_name(*final(ws)) == sheet_name(*old(ws)),
{
    ws.write_string_with_format(row, col, text, format).map(|_| ())
}

/// `Worksheet::write_formula_with_format`: writes a formula cell with the
/// given format, holding the formula in the form that `Formula::new` gives
/// it (a formula with a dynamic-array function becomes a one-cell array
/// formula holding that same form). It fails, changing nothing, when the
/// cell lies outside the sheet.
#[verifier::external_body]
fn write_formula(ws: &mut Worksheet, row: u32, col: u16, formula: &str, format: &Format) -> (r: Result<(), XlsxError>)
    ensures
        r is Ok <==> (row < ROW_LIMIT && col < COL_LIMIT),
        sheet_cells(*final(ws)) == if r is Ok {
            sheet_cells(*old(ws)).insert((row, col), CellContent::Formula(formula_string(formula@)))
        } else {
            sheet_cells(*old(ws))
        },
        sheet_formats(*final(ws)) == if r is Ok {
            sheet_formats(*old(ws)).insert((row, col), format_properties(*format))
        } else {
            sheet_formats(*old(ws))
        },
        sheet_merged_ranges(*final(ws)) == sheet_merged_ranges(*old(ws)),
        sheet_merged_cells(*final(ws)) == sheet_merged_cells(*old(ws)),
        sheet_name(*final(ws)) == sheet_name(*old(ws)),
{
    ws.write_formula_with_format(row, col, formula, format).map(|_| ())
}

/// `Worksheet::merge_range`: merges a rectangle of more than one cell that no
/// earlier merge touches; its first cell gets the text and the others become
/// blank, all with the given format. It fails when a corner lies outside the
/// sheet, the corners are out of order, the rectangle is one cell, the text
/// is too long, or an earlier merge claimed one of its cells. After a
/// failure only the list of merged ranges and the name are known to be
/// unchanged. It is called only on a worksheet whose merge claims all point
/// at stored ranges: after a failed merge, a later merge over the cells it
/// claimed panics.
#[verifier::external_body]
fn merge_cells(
    ws: &mut Worksheet,
    first_row: u32,
    first_col: u16,
    last_row: u32,
    last_col: u16,
    text: &str,
    format: &Format,
) -> (r: Result<(), XlsxError>)
    requires
        merges_consistent(*old(ws)),
    ensures
        r is Ok <==> {
            &&& first_row < ROW_LIMIT && first_col < COL_LIMIT
            &&& last_row < ROW_LIMIT && last_col < COL_LIMIT
            &&& first_row <= last_row && first_col <= last_col
            &&& !(first_row == last_row && first_col == last_col)
            &&& utf16_len(text@) <= TEXT_LIMIT
            &&& forall|cell: (u32, u16)|
                in_range((first_row, first_col, last_row, last_col), cell)
                    ==> !sheet_merged_cells(*old(ws)).dom().contains(cell)
        },
        r is Ok ==> sheet_cells(*final(ws)) == Map::new(
            |cell: (u32, u16)|
                sheet_cells(*old(ws)).dom().contains(cell) || in_range(
                    (first_row, first_col, last_row, last_col),
                    cell,
                ),
            |cell: (u32, u16)|
                if cell == (first_row, first_col) {
                    text_cell(text@)
                } else if in_range((first_row, first_col, last_row, last_col), cell) {
                    CellContent::Blank
                } else {
                    sheet_cells(*old(ws))[cell]
                },
        ),
        r is Ok ==> sheet_formats(*final(ws)) == Map::new(
            |cell: (u32, u16)|
                sheet_formats(*old(ws)).dom().contains(cell) || in_range(
                    (first_row, first_col, last_row, last_col),
                    cell,
                ),
            |cell: (u32, u16)|
                if in_range((first_row, first_col, last_row, last_col), cell) && (
                !format_properties(*format).is_empty() || (cell == (first_row, first_col)
                    && text@.len() > 0)) {
                    format_properties(*format)
                } else if in_range((first_row, first_col, last_row, last_col), cell) {
                    sheet_formats(*final(ws))[cell]
                } else {
                    sheet_formats(*old(ws))[cell]
                },
        ),
        r is Ok ==> sheet_merged_cells(*final(ws)) == Map::new(
            |cell: (u32, u16)|
                sheet_merged_cells(*old(ws)).dom().contains(cell) || in_range(
                    (first_row, first_col, last_row, last_col),
                    cell,
                ),
            |cell: (u32, u16)|
                if in_range((first_row, first_col, last_row, last_col), cell) {
                    sheet_merged_ranges(*old(ws)).len()
                } else {
                    sheet_merged_cells(*old(ws))[cell]
                },
        ),
        sheet_merged_ranges(*final(ws)) == if r is Ok {
            sheet_merged_ranges(*old(ws)).push((first_row, first_col, last_row, last_col))
        } else {
            sheet_merged_ranges(*old(ws))
        },
        sheet_name(*final(ws)) == sheet_name(*old(ws)),
{
    ws.merge_range(first_row, first_col, last_row, last_col, text, format).map(|_| ())
}

/// `Worksheet::autofit`: sets column widths from the contents; the cells,
/// their formats, the merges and the name stay as they were.
#[verifier::external_body]
fn autofit_columns(ws: &mut Worksheet)
    ensures
        sheet_cells(*final(ws)) == sheet_cells(*old(ws)),
        sheet_formats(*final(ws)) == sheet_formats(*old(ws)),
        sheet_merged_ranges(*final(ws)) == sheet_merged_ranges(*old(ws)),
        sheet_merged_cells(*final(ws)) == sheet_merged_cells(*old(ws)),
        sheet_name(*final(ws)) == sheet_name(*old(ws)),
{
    ws.autofit();
}

/// Horizontal or vertical alignment of a cell's content.
pub enum Align {
    Left,
    Right,
    Center,
    VerticalCenter,
}

/// Style of a cell border.
pub enum Border {
    Thin,
}

/// A property that a format sets beyond the defaults of a new format.
pub enum FormatProperty {
    /// A solid background of this RGB color.
    Fill(u32),
    /// This border on every side.
    Border(Border),
    /// A horizontal or a vertical alignment.
    Aligned(Align),
    /// Bold text.
    Bold,
}

/// Whether an alignment is vertical (otherwise it is horizontal).
pub open spec fn is_vertical(align: Align) -> bool {
    align is VerticalCenter
}

/// The properties a format sets beyond those of `Format::new`.
pub uninterp spec fn format_properties(format: Format) -> Set<FormatProperty>;

/// `Format::new`: the default format, which sets no property.
#[verifier::external_body]
fn new_format() -> (r: Format)
    ensures
        format_properties(r).is_empty(),
{
    Format::new()
}

/// `Format::set_background_color`, with an RGB color: the color replaces
/// the background color. It is called only with a valid RGB color (the
/// crate ignores a larger one, with a warning on standard error).
#[verifier::external_body]
fn format_with_fill(format: Format, rgb: u32) -> (r: Format)
    requires
        rgb <= 0xFFFFFF,
    ensures
        format_properties(r) == format_properties(format).filter(|p: FormatProperty| !(p is Fill)).insert(
            FormatProperty::Fill(rgb),
        ),
{
    format.set_background_color(Color::RGB(rgb))
}

/// `Format::set_border`: the same border on every side, replacing any
/// earlier border.
#[verifier::external_body]
fn format_with_border(format: Format, border: Border) -> (r: Format)
    ensures
        format_properties(r) == format_properties(format).filter(
            |p: FormatProperty| !(p is Border),
        ).insert(FormatProperty::Border(border)),
{
    format.set_border(match border {
        Border::Thin => FormatBorder::Thin,
    })
}

/// `Format::set_align`: a horizontal alignment replaces the horizontal one,
/// a vertical alignment the vertical one.
#[verifier::external_body]
fn format_with_align(format: Format, align: Align) -> (r: Format)
    ensures
        format_properties(r) == format_properties(format).filter(
            |p: FormatProperty|
                !(p matches FormatProperty::Aligned(a) && is_vertical(a) == is_vertical(align)),
        ).insert(FormatProperty::Aligned(align)),
{
    format.set_align(match align {
        Align::Left => FormatAlign::Left,
        Align::Right => FormatAlign::Right,
        Align::Center => FormatAlign::Center,
        Align::VerticalCenter => FormatAlign::VerticalCenter,
    })
}

/// `Format::set_bold`: bold text.
#[verifier::external_body]
fn format_with_bold(format: Format) -> (r: Format)
    ensures
        format_properties(r) == format_properties(format).insert(FormatProperty::Bold),
{
    format.set_bold()
}

/// Details shown in the report's footer.
pub struct ReportMeta {
    pub project_name: String,
    pub branch: String,
    pub generator_version: String,
}

/// How long a test case took, as the report shows it: whether it took at
/// most one second, and its duration rounded to whole seconds.
#[derive(Debug, Clone, Copy)]
pub struct CaseDuration {
    pub within_one_second: bool,
    pub whole_seconds: i64,
}

/// One row of the report.
pub struct ReportCase {
    pub suite: String,
    pub name: String,
    pub status: TestStatus,
    pub duration: CaseDuration,
}

/// A report row as plain values.
pub struct ReportCaseView {
    pub suite: Seq<char>,
    pub name: Seq<char>,
    pub status: TestStatus,
    pub duration: CaseDuration,
}

impl View for ReportCase {
    type V = ReportCaseView;

    open spec fn view(&self) -> ReportCaseView {
        ReportCaseView {
            suite: self.suite@,
            name: self.name@,
            status: self.status,
            duration: self.duration,
        }
    }
}

/// The rows of a report as plain values.
pub open spec fn report_view(cases: Seq<ReportCase>) -> Seq<ReportCaseView> {
    cases.map_values(|c: ReportCase| c@)
}

/// Integer division rounding toward zero, as `/` does on `i64`.
pub open spec fn trunc_div(a: int, b: int) -> int {
    if a >= 0 {
        a / b
    } else {
        -((-a) / b)
    }
}

/// Remainder of [`trunc_div`], with the sign of `a`, as `%` does on `i64`.
pub open spec fn trunc_rem(a: int, b: int) -> int {
    if a >= 0 {
        a % b
    } else {
        -((-a) % b)
    }
}

/// `mm:ss` for a number of seconds: minutes and seconds, each formatted as
/// `{:02}` formats it.
pub open spec fn mmss_text(seconds: int) -> Seq<char> {
    pad_two(trunc_div(seconds, 60)) + seq![':'] + pad_two(trunc_rem(seconds, 60))
}

/// `hh:mm:ss` for a number of seconds.
pub open spec fn hhmmss_text(seconds: int) -> Seq<char> {
    pad_two(trunc_div(seconds, 3600)) + seq![':'] + pad_two(trunc_div(trunc_rem(seconds, 3600), 60))
        + seq![':'] + pad_two(trunc_rem(seconds, 60))
}

/// The duration column of a row: `< 1 s` for a case of at most one second,
/// `mm:ss` otherwise.
pub open spec fn duration_text(d: CaseDuration) -> Seq<char> {
    if d.within_one_second {
        "< 1 s"@
    } else {
        mmss_text(d.whole_seconds as int)
    }
}

/// Quotient and remainder of `t` by `b`, both rounded toward zero.
fn trunc_div_rem(t: i64, b: u64) -> (r: (i64, i64))
    requires
        2 <= b <= 3600,
    ensures
        r.0 == trunc_div(t as int, b as int),
        r.1 == trunc_rem(t as int, b as int),
{
    if t >= 0 {
        let m = t as u64;
        ((m / b) as i64, (m % b) as i64)
    } else {
        let m: u64 = (-(t as i128)) as u64;
        let q = m / b;
        let r = m % b;
        (-(q as i128) as i64, -(r as i128) as i64)
    }
}

/// Formats a whole number of seconds as `mm:ss`; see [`mmss_text`].
pub fn format_mmss(seconds: i64) -> (r: String)
    ensures
        r@ == mmss_text(seconds as int),
{
    let (m, s) = trunc_div_rem(seconds, 60);
    let mut out = String::new();
    push_pad_two(&mut out, m);
    push_char(&mut out, ':');
    push_pad_two(&mut out, s);
    out
}

/// Formats a whole number of seconds as `hh:mm:ss`; see [`hhmmss_text`].
pub fn format_hhmmss(seconds: i64) -> (r: String)
    ensures
        r@ == hhmmss_text(seconds as int),
{
    let (h, rest) = trunc_div_rem(seconds, 3600);
    let (m, _) = trunc_div_rem(rest, 60);
    let (_, s) = trunc_div_rem(seconds, 60);
    let mut out = String::new();
    push_pad_two(&mut out, h);
    push_char(&mut out, ':');
    push_pad_two(&mut out, m);
    push_char(&mut out, ':');
    push_pad_two(&mut out, s);
    out
}

/// The uppercase mapping of a character (one or more characters), as
/// `char::to_uppercase` gives it.
pub uninterp spec fn uppercase(c: char) -> Seq<char>;

/// `char::to_uppercase`, collected into a string. The contract names the
/// result [`uppercase`] and states the mapping of the ASCII lowercase letters
/// to their capitals.
#[verifier::external_body]
fn to_uppercase(c: char) -> (r: String)
    ensures
        r@ == uppercase(c),
        ('a' <= c && c <= 'z') ==> r@ == seq![((c as u32) - 32) as char],
{
    c.to_uppercase().collect()
}

/// A text with its first character in uppercase.
pub open spec fn capitalized(s: Seq<char>) -> Seq<char> {
    if s.len() == 0 {
        s
    } else {
        uppercase(s[0]) + s.drop_first()
    }
}

/// Puts the first character of a text in uppercase.
pub fn capitalize(s: &str) -> (r: String)
    ensures
        r@ == capitalized(s@),
        (s@.len() > 0 && 'a' <= s@[0] && s@[0] <= 'z') ==> r@ == seq![((s@[0] as u32) - 32) as char]
            + s@.drop_first(),
{
    let cs = chars_of(s);
    if cs.len() == 0 {
        return String::new();
    }
    let mut out = to_uppercase(cs[0]);
    let ghost head = out@;
    let mut i: usize = 1;
    while i < cs.len()
        invariant
            cs@ == s@,
            1 <= i <= cs.len(),
            head == uppercase(s@[0]),
            out@ == head + s@.subrange(1, i as int),
        decreases cs.len() - i,
    {
        push_char(&mut out, cs[i]);
        assert(s@.subrange(1, i + 1) =~= s@.subrange(1, i as int).push(s@[i as int]));
        i = i + 1;
    }
    assert(s@.subrange(1, cs.len() as int) =~= s@.drop_first());
    out
}

/// Background color of the header row.
pub const HEADER_FILL: u32 = 0xCCE5FF;

/// Background color of the first run of cases, and of every other run after
/// it.
pub const WHITE_FILL: u32 = 0xFFFFFF;

/// Background color of the second run of cases, and of every other run
/// after it.
pub const GREY_FILL: u32 = 0xE0E0E0;

/// Background color of a status cell: green, red or orange.
pub open spec fn status_fill(status: TestStatus) -> u32 {
    match status {
        TestStatus::Passed => 0x00CC66,
        TestStatus::Failed => 0xFF3333,
        TestStatus::Skipped => 0xFFA500,
    }
}

/// The color of a status cell; see [`status_fill`].
pub fn status_color(status: TestStatus) -> (r: u32)
    ensures
        r == status_fill(status),
{
    match status {
        TestStatus::Passed => 0x00CC66,
        TestStatus::Failed => 0xFF3333,
        TestStatus::Skipped => 0xFFA500,
    }
}

/// The properties of a boxed cell: the background, a thin border, the
/// given alignment and vertical centering, and bold or not.
pub open spec fn boxed_properties(fill: u32, bold: bool, align: Align) -> Set<FormatProperty> {
    let filled = set![
        FormatProperty::Fill(fill),
        FormatProperty::Border(Border::Thin),
        FormatProperty::Aligned(align),
        FormatProperty::Aligned(Align::VerticalCenter),
    ];
    if bold { filled.insert(FormatProperty::Bold) } else { filled }
}

/// A boxed cell format: the given background, a thin border, the given
/// alignment and vertical centering, bold or not.
fn boxed_format(fill: u32, bold: bool, align: Align) -> (r: Format)
    requires
        fill <= 0xFFFFFF,
    ensures
        format_properties(r) == boxed_properties(fill, bold, align),
{
    let ghost a = align;
    let f = format_with_fill(new_format(), fill);
    let f = format_with_border(f, Border::Thin);
    let f = format_with_align(f, align);
    let f = format_with_align(f, Align::VerticalCenter);
    let ghost filled = set![
        FormatProperty::Fill(fill),
        FormatProperty::Border(Border::Thin),
        FormatProperty::Aligned(a),
        FormatProperty::Aligned(Align::VerticalCenter),
    ];
    assert(format_properties(f) =~= filled);
    if bold {
        let r = format_with_bold(f);
        assert(format_properties(r) =~= boxed_properties(fill, bold, a));
        r
    } else {
        f
    }
}

/// A plain cell format with only an alignment.
fn plain_format(align: Align) -> (r: Format)
    ensures
        format_properties(r) == set![FormatProperty::Aligned(align)],
{
    let r = format_with_align(new_format(), align);
    assert(format_properties(r) =~= set![FormatProperty::Aligned(align)]);
    r
}

/// Index of the first case of the run of consecutive cases with the same
/// suite that case `k` belongs to.
pub open spec fn group_start(cs: Seq<ReportCaseView>, k: int) -> int
    decreases k,
{
    if k <= 0 || cs[k].suite != cs[k - 1].suite {
        k
    } else {
        group_start(cs, k - 1)
    }
}

/// Whether case `k` is the last of its run.
pub open spec fn ends_group(cs: Seq<ReportCaseView>, k: int) -> bool {
    k + 1 >= cs.len() || cs[k + 1].suite != cs[k].suite
}

/// The merged ranges of the suite column for the runs that end before case
/// `k`: each run of more than one case is merged over its rows, in order.
pub open spec fn merges_upto(cs: Seq<ReportCaseView>, k: int) -> Seq<(u32, u16, u32, u16)>
    decreases k,
{
    if k <= 0 {
        seq![]
    } else {
        merges_upto(cs, k - 1) + if ends_group(cs, k - 1) && group_start(cs, k - 1) < k - 1 {
            seq![((group_start(cs, k - 1) + 1) as u32, 0u16, k as u32, 0u16)]
        } else {
            seq![]
        }
    }
}

/// The merged ranges of the report.
pub open spec fn report_merges(cs: Seq<ReportCaseView>) -> Seq<(u32, u16, u32, u16)> {
    merges_upto(cs, cs.len() as int)
}

/// The titles of the four columns.
pub open spec fn header_text(col: int) -> Seq<char> {
    if col == 0 {
        "Classe de test"@
    } else if col == 1 {
        "Nom du test"@
    } else if col == 2 {
        "Résultat du test"@
    } else {
        "Temps (en minutes)"@
    }
}

/// The suite cell of case `j` once the first `k` cases are written: a case
/// that is not first in its run is blank when the run is merged, i.e. once
/// the run has ended.
pub open spec fn suite_cell(cs: Seq<ReportCaseView>, j: int, k: int) -> CellContent {
    if group_start(cs, j) < j && !(k < cs.len() && group_start(cs, k) == group_start(cs, j)) {
        CellContent::Blank
    } else {
        text_cell(cs[j].suite)
    }
}

/// The cell of case `j` in column `col`, once the first `k` cases are
/// written.
pub open spec fn case_cell(cs: Seq<ReportCaseView>, j: int, col: int, k: int) -> CellContent {
    if col == 0 {
        suite_cell(cs, j, k)
    } else if col == 1 {
        text_cell(cs[j].name)
    } else if col == 2 {
        text_cell(status_label(cs[j].status))
    } else {
        text_cell(duration_text(cs[j].duration))
    }
}

/// The header row and the rows of the first `k` cases (case `j` on row
/// `j + 1`).
pub open spec fn table_cells(cs: Seq<ReportCaseView>, k: int) -> Map<(u32, u16), CellContent> {
    Map::new(
        |cell: (u32, u16)| cell.1 < 4 && cell.0 <= k,
        |cell: (u32, u16)|
            if cell.0 == 0 {
                text_cell(header_text(cell.1 as int))
            } else {
                case_cell(cs, cell.0 - 1, cell.1 as int, k)
            },
    )
}

/// The statuses in the order of the footer's totals.
pub open spec fn footer_status(i: int) -> TestStatus {
    if i == 0 {
        TestStatus::Passed
    } else if i == 1 {
        TestStatus::Failed
    } else {
        TestStatus::Skipped
    }
}

/// The formula that counts the data rows (rows 2 to `last_row` in the
/// spreadsheet's numbering) whose result column holds `label`.
pub open spec fn countif_formula(last_row: int, label: Seq<char>) -> Seq<char> {
    "=COUNTIF(C2:C"@ + signed_text(last_row) + ",\""@ + label + "\")"@
}

/// The text of the generator line.
pub open spec fn version_line(version: Seq<char>) -> Seq<char> {
    "Version du générateur : "@ + version
}

/// Whether a cell is in the footer of a report of `n` cases: project and
/// branch two and three rows below the table, the three totals from row
/// `n + 6`, the total duration on row `n + 10`, all in columns C and D, and
/// the generator line in column A of row `n + 12`.
pub open spec fn in_footer(n: int, cell: (u32, u16)) -> bool {
    ||| (cell.0 == n + 3 || cell.0 == n + 4 || n + 6 <= cell.0 <= n + 8 || cell.0 == n + 10)
        && (cell.1 == 2 || cell.1 == 3)
    ||| cell.0 == n + 12 && cell.1 == 0
}

/// The footer cell at `cell` of a report of `n` cases.
pub open spec fn footer_cell(n: int, meta: ReportMetaView, total_seconds: int, cell: (u32, u16)) -> CellContent {
    let row = cell.0 as int;
    if row == n + 3 {
        if cell.1 == 2 { text_cell("Nom du projet"@) } else { text_cell(meta.project_name) }
    } else if row == n + 4 {
        if cell.1 == 2 { text_cell("Branche"@) } else { text_cell(meta.branch) }
    } else if n + 6 <= row <= n + 8 {
        let status = footer_status(row - (n + 6));
        if cell.1 == 2 {
            text_cell(capitalized(status_label(status)))
        } else {
            CellContent::Formula(formula_string(countif_formula(n + 1, status_label(status))))
        }
    } else if row == n + 10 {
        if cell.1 == 2 {
            text_cell("Durée totale des tests"@)
        } else {
            text_cell(hhmmss_text(total_seconds))
        }
    } else {
        text_cell(version_line(meta.generator_version))
    }
}

/// The footer meta data as plain values.
pub struct ReportMetaView {
    pub project_name: Seq<char>,
    pub branch: Seq<char>,
    pub generator_version: Seq<char>,
}

impl View for ReportMeta {
    type V = ReportMetaView;

    open spec fn view(&self) -> ReportMetaView {
        ReportMetaView {
            project_name: self.project_name@,
            branch: self.branch@,
            generator_version: self.generator_version@,
        }
    }
}

/// Every cell of the report: the header row, one row per case, and the
/// footer.
pub open spec fn report_cells(cs: Seq<ReportCaseView>, meta: ReportMetaView, total_seconds: int) -> Map<
    (u32, u16),
    CellContent,
> {
    let n = cs.len() as int;
    Map::new(
        |cell: (u32, u16)| (cell.1 < 4 && cell.0 <= n) || in_footer(n, cell),
        |cell: (u32, u16)|
            if cell.1 < 4 && cell.0 <= n {
                table_cells(cs, n)[cell]
            } else {
                footer_cell(n, meta, total_seconds, cell)
            },
    )
}

/// Whether the report fits the worksheet: its last row, twelve rows below
/// the last case, exists, and every text written from the input is within
/// [`TEXT_LIMIT`].
pub open spec fn report_fits(cs: Seq<ReportCaseView>, meta: ReportMetaView) -> bool {
    rows_fit(cs) && meta_fits(meta)
}

/// The name of the report's worksheet.
pub open spec fn report_sheet_name() -> Seq<char> {
    "JUnit Report"@
}

proof fn lemma_group_start(cs: Seq<ReportCaseView>, k: int)
    requires
        0 <= k < cs.len(),
    ensures
        0 <= group_start(cs, k) <= k,
        group_start(cs, k) == 0 || cs[group_start(cs, k)].suite != cs[group_start(cs, k) - 1].suite,
        forall|j: int|
            group_start(cs, k) <= j <= k ==> group_start(cs, j) == group_start(cs, k)
                && cs[j].suite == cs[k].suite && run_index(cs, j) == run_index(cs, k),
    decreases k,
{
    if k > 0 && cs[k].suite == cs[k - 1].suite {
        lemma_group_start(cs, k - 1);
    }
}

/// A text of at most 100 characters fits a cell.
proof fn lemma_short_text_fits(s: Seq<char>)
    requires
        s.len() <= 100,
    ensures
        utf16_len(s) <= TEXT_LIMIT,
{
    lemma_utf16_len_bound(s);
}

/// The duration label of a row.
fn duration_label(d: CaseDuration) -> (r: String)
    ensures
        r@ == duration_text(d),
        utf16_len(r@) <= TEXT_LIMIT,
{
    let r = if d.within_one_second {
        "< 1 s".to_owned()
    } else {
        format_mmss(d.whole_seconds)
    };
    proof {
        reveal_strlit("< 1 s");
        lemma_signed_text_len(trunc_div(d.whole_seconds as int, 60));
        lemma_signed_text_len(trunc_rem(d.whole_seconds as int, 60));
        lemma_short_text_fits(r@);
    }
    r
}

/// The total duration label.
fn total_label(total_seconds: i64) -> (r: String)
    ensures
        r@ == hhmmss_text(total_seconds as int),
        utf16_len(r@) <= TEXT_LIMIT,
{
    let r = format_hhmmss(total_seconds);
    proof {
        let t = total_seconds as int;
        lemma_signed_text_len(trunc_div(t, 3600));
        lemma_signed_text_len(trunc_div(trunc_rem(t, 3600), 60));
        lemma_signed_text_len(trunc_rem(t, 60));
        lemma_short_text_fits(r@);
    }
    r
}

/// The formula counting the rows of a status.
fn countif(last_row: u32, label: &str) -> (r: String)
    ensures
        r@ == countif_formula(last_row as int, label@),
{
    let mut out = String::new();
    out.append("=COUNTIF(C2:C");
    push_signed_text(&mut out, last_row as i64);
    out.append(",\"");
    out.append(label);
    out.append("\")");
    out
}

/// The 0-based index of the run of consecutive equal suites that case `k`
/// belongs to.
pub open spec fn run_index(cs: Seq<ReportCaseView>, k: int) -> nat
    decreases k,
{
    if k <= 0 {
        0
    } else if cs[k].suite != cs[k - 1].suite {
        run_index(cs, k - 1) + 1
    } else {
        run_index(cs, k - 1)
    }
}

/// Background of the suite, name and duration cells of case `k`: white for
/// the first run, grey for the second, alternating.
pub open spec fn band_fill(cs: Seq<ReportCaseView>, k: int) -> u32 {
    if run_index(cs, k) % 2 == 0 {
        WHITE_FILL
    } else {
        GREY_FILL
    }
}

/// Format of the header cells: header fill, bold, centered.
pub open spec fn header_format() -> Set<FormatProperty> {
    boxed_properties(HEADER_FILL, true, Align::Center)
}

/// Format of the cell of case `j` in column `col`: the status cell takes the
/// status's color, the others their run's band; all are left-aligned.
pub open spec fn case_format(cs: Seq<ReportCaseView>, j: int, col: int) -> Set<FormatProperty> {
    if col == 2 {
        boxed_properties(status_fill(cs[j].status), false, Align::Left)
    } else {
        boxed_properties(band_fill(cs, j), false, Align::Left)
    }
}

/// Formats of the header row and of the rows of the first `k` cases.
pub open spec fn table_formats(cs: Seq<ReportCaseView>, k: int) -> Map<(u32, u16), Set<FormatProperty>> {
    Map::new(
        |cell: (u32, u16)| cell.1 < 4 && cell.0 <= k,
        |cell: (u32, u16)|
            if cell.0 == 0 {
                header_format()
            } else {
                case_format(cs, cell.0 - 1, cell.1 as int)
            },
    )
}

/// Format of a footer cell: values in column D right-aligned, the rest
/// left-aligned.
pub open spec fn footer_format(cell: (u32, u16)) -> Set<FormatProperty> {
    if cell.1 == 3 {
        set![FormatProperty::Aligned(Align::Right)]
    } else {
        set![FormatProperty::Aligned(Align::Left)]
    }
}

/// Formats of the footer of a report of `n` cases.
pub open spec fn footer_formats(n: int) -> Map<(u32, u16), Set<FormatProperty>> {
    Map::new(|cell: (u32, u16)| in_footer(n, cell), |cell: (u32, u16)| footer_format(cell))
}

/// Formats of every cell of the report.
pub open spec fn report_formats(cs: Seq<ReportCaseView>) -> Map<(u32, u16), Set<FormatProperty>> {
    let n = cs.len() as int;
    Map::new(
        |cell: (u32, u16)| (cell.1 < 4 && cell.0 <= n) || in_footer(n, cell),
        |cell: (u32, u16)|
            if cell.1 < 4 && cell.0 <= n {
                table_formats(cs, n)[cell]
            } else {
                footer_format(cell)
            },
    )
}

proof fn lemma_boxed_nonempty(fill: u32, bold: bool, align: Align)
    ensures
        !boxed_properties(fill, bold, align).is_empty(),
{
    assert(boxed_properties(fill, bold, align).contains(FormatProperty::Border(Border::Thin)));
}

proof fn lemma_plain_nonempty(align: Align)
    ensures
        !set![FormatProperty::Aligned(align)].is_empty(),
{
    assert(set![FormatProperty::Aligned(align)].contains(FormatProperty::Aligned(align)));
}

/// Whether the case rows fit the worksheet: the report's last row exists
/// and every suite and test name is within [`TEXT_LIMIT`].
pub open spec fn rows_fit(cs: Seq<ReportCaseView>) -> bool {
    &&& cs.len() + 12 < ROW_LIMIT
    &&& forall|k: int|
        0 <= k < cs.len() ==> utf16_len(#[trigger] cs[k].suite) <= TEXT_LIMIT && utf16_len(
            cs[k].name,
        ) <= TEXT_LIMIT
}

/// Writes one row per case below the header, merging the suite cells of
/// each run of more than one case.
fn write_case_rows(ws: &mut Worksheet, cases: &Vec<ReportCase>, white: &Format, grey: &Format) -> (r: Result<(), XlsxError>)
    requires
        sheet_cells(*old(ws)) == table_cells(report_view(cases@), 0),
        sheet_formats(*old(ws)) == table_formats(report_view(cases@), 0),
        sheet_merged_ranges(*old(ws)).len() == 0,
        sheet_merged_cells(*old(ws)).is_empty(),
        format_properties(*white) == boxed_properties(WHITE_FILL, false, Align::Left),
        format_properties(*grey) == boxed_properties(GREY_FILL, false, Align::Left),
    ensures
        sheet_name(*final(ws)) == sheet_name(*old(ws)),
        r is Ok ==> {
            &&& cases.len() < ROW_LIMIT
            &&& forall|k: int|
                0 <= k < cases.len() ==> utf16_len(#[trigger] report_view(cases@)[k].suite) <= TEXT_LIMIT
                    && utf16_len(report_view(cases@)[k].name) <= TEXT_LIMIT
            &&& sheet_cells(*final(ws)) == table_cells(report_view(cases@), cases.len() as int)
            &&& sheet_formats(*final(ws)) == table_formats(report_view(cases@), cases.len() as int)
            &&& sheet_merged_ranges(*final(ws)) == report_merges(report_view(cases@))
        },
        r is Err ==> !rows_fit(report_view(cases@)),
{
    let ghost cs = report_view(cases@);
    let ghost name = sheet_name(*ws);
    let n = cases.len();
    let mut k: usize = 0;
    let mut start: usize = 0;
    let mut band: usize = 0;
    assert(sheet_merged_ranges(*ws) =~= merges_upto(cs, 0));
    while k < n
        invariant
            cs == report_view(cases@),
            n == cases.len(),
            k <= n,
            k < ROW_LIMIT,
            band <= k,
            k > 0 ==> start == group_start(cs, k - 1),
            k > 0 ==> band == run_index(cs, k - 1),
            sheet_cells(*ws) == table_cells(cs, k as int),
            sheet_formats(*ws) == table_formats(cs, k as int),
            format_properties(*white) == boxed_properties(WHITE_FILL, false, Align::Left),
            format_properties(*grey) == boxed_properties(GREY_FILL, false, Align::Left),
            sheet_merged_ranges(*ws) == merges_upto(cs, k as int),
            k < n ==> forall|cell: (u32, u16)|
                #[trigger] sheet_merged_cells(*ws).dom().contains(cell) ==> cell.0 <= group_start(cs, k as int),
            merges_consistent(*ws),
            sheet_name(*ws) == name,
            name == sheet_name(*old(ws)),
            forall|j: int|
                0 <= j < k ==> utf16_len(#[trigger] cs[j].suite) <= TEXT_LIMIT && utf16_len(cs[j].name)
                    <= TEXT_LIMIT,
        decreases n - k,
    {
        let case = &cases[k];
        assert(cs[k as int] == cases@[k as int]@);
        proof {
            lemma_group_start(cs, k as int);
            if k > 0 {
                lemma_group_start(cs, k - 1);
            }
        }
        if k == 0 || !same_text(case.suite.as_str(), cases[k - 1].suite.as_str()) {
            if k > 0 {
                band = band + 1;
            }
            start = k;
        }
        assert(start == group_start(cs, k as int));
        assert(band == run_index(cs, k as int));
        let row = (k + 1) as u32;
        let band_format = if band % 2 == 0 { white } else { grey };
        let status_format = boxed_format(status_color(case.status), false, Align::Left);
        assert(format_properties(*band_format) == case_format(cs, k as int, 0));
        proof {
            lemma_boxed_nonempty(band_fill(cs, k as int), false, Align::Left);
            lemma_boxed_nonempty(status_fill(case.status), false, Align::Left);
        }
        let status_text = case.status.as_str();
        let duration = duration_label(case.duration);
        proof {
            reveal_strlit("passed");
            reveal_strlit("failed");
            reveal_strlit("skipped");
            lemma_short_text_fits(status_label(case.status));
            if rows_fit(cs) {
                assert(utf16_len(cs[k as int].suite) <= TEXT_LIMIT);
                assert(utf16_len(cs[k as int].name) <= TEXT_LIMIT);
            }
        }
        write_text(ws, row, 0, case.suite.as_str(), band_format)?;
        write_text(ws, row, 1, case.name.as_str(), band_format)?;
        write_text(ws, row, 2, status_text, &status_format)?;
        write_text(ws, row, 3, duration.as_str(), band_format)?;
        let ends = k + 1 == n || !same_text(cases[k + 1].suite.as_str(), case.suite.as_str());
        assert(ends == ends_group(cs, k as int));
        if ends && start < k {
            merge_cells(ws, (start + 1) as u32, 0, row, 0, case.suite.as_str(), band_format)?;
        }
        proof {
            let k1 = (k + 1) as int;
            assert(merges_upto(cs, k1) == merges_upto(cs, k as int) + if ends_group(cs, k as int)
                && group_start(cs, k as int) < k {
                seq![((group_start(cs, k as int) + 1) as u32, 0u16, k1 as u32, 0u16)]
            } else {
                seq![]
            });
            if k1 < n {
                assert(group_start(cs, k1) == if ends { k1 } else { group_start(cs, k as int) });
            }
            assert forall|cell: (u32, u16)|
                #![auto]
                sheet_cells(*ws).dom().contains(cell) == table_cells(cs, k1).dom().contains(cell) && (
                sheet_cells(*ws).dom().contains(cell) ==> sheet_cells(*ws)[cell] == table_cells(
                    cs,
                    k1,
                )[cell]) by {
                if cell.0 >= 1 && cell.0 <= k1 && cell.1 == 0 {
                    let j = cell.0 - 1;
                    if j < k {
                        lemma_group_start(cs, j);
                    }
                }
            }
            assert(sheet_cells(*ws) =~= table_cells(cs, k1));
            assert forall|cell: (u32, u16)|
                #![auto]
                sheet_formats(*ws).dom().contains(cell) == table_formats(cs, k1).dom().contains(cell) && (
                sheet_formats(*ws).dom().contains(cell) ==> sheet_formats(*ws)[cell] == table_formats(
                    cs,
                    k1,
                )[cell]) by {
                if cell.0 >= 1 && cell.0 <= k1 && cell.1 == 0 {
                    let j = cell.0 - 1;
                    if j < k {
                        lemma_group_start(cs, j);
                    }
                }
            }
            assert(sheet_formats(*ws) =~= table_formats(cs, k1));
        }
        k = k + 1;
    }
    Ok(())
}

/// Whether the footer's texts fit their cells.
pub open spec fn meta_fits(meta: ReportMetaView) -> bool {
    &&& utf16_len(meta.project_name) <= TEXT_LIMIT
    &&& utf16_len(meta.branch) <= TEXT_LIMIT
    &&& utf16_len(version_line(meta.generator_version)) <= TEXT_LIMIT
}

/// The footer cells of a report of `n` cases.
pub open spec fn footer_cells(n: int, meta: ReportMetaView, total_seconds: int) -> Map<(u32, u16), CellContent> {
    Map::new(|cell: (u32, u16)| in_footer(n, cell), |cell: (u32, u16)| footer_cell(n, meta, total_seconds, cell))
}

/// Writes the footer below a table of `n` cases.
fn write_footer(
    ws: &mut Worksheet,
    n: u32,
    meta: &ReportMeta,
    total_seconds: i64,
    left: &Format,
    right: &Format,
) -> (r: Result<(), XlsxError>)
    requires
        n < ROW_LIMIT,
        format_properties(*left) == set![FormatProperty::Aligned(Align::Left)],
        format_properties(*right) == set![FormatProperty::Aligned(Align::Right)],
    ensures
        sheet_name(*final(ws)) == sheet_name(*old(ws)),
        sheet_merged_ranges(*final(ws)) == sheet_merged_ranges(*old(ws)),
        r is Ok ==> {
            &&& n + 12 < ROW_LIMIT
            &&& meta_fits(meta@)
            &&& sheet_cells(*final(ws)) == sheet_cells(*old(ws)).union_prefer_right(
                footer_cells(n as int, meta@, total_seconds as int),
            )
            &&& sheet_formats(*final(ws)) == sheet_formats(*old(ws)).union_prefer_right(
                footer_formats(n as int),
            )
        },
        r is Err ==> !(n + 12 < ROW_LIMIT && meta_fits(meta@)),
{
    let ghost start = sheet_cells(*ws);
    let ghost start_formats = sheet_formats(*ws);
    let last_data_row = n + 1;
    let mut row = n + 3;
    proof {
        lemma_plain_nonempty(Align::Left);
        lemma_plain_nonempty(Align::Right);
        reveal_strlit("Nom du projet");
        reveal_strlit("Branche");
        reveal_strlit("Durée totale des tests");
        lemma_short_text_fits("Nom du projet"@);
        lemma_short_text_fits("Branche"@);
        lemma_short_text_fits("Durée totale des tests"@);
    }
    write_text(ws, row, 2, "Nom du projet", left)?;
    write_text(ws, row, 3, meta.project_name.as_str(), right)?;
    row = row + 1;
    write_text(ws, row, 2, "Branche", left)?;
    write_text(ws, row, 3, meta.branch.as_str(), right)?;
    row = row + 2;
    let mut i: usize = 0;
    while i < 3
        invariant
            n < ROW_LIMIT,
            i <= 3,
            row == n + 6 + i,
            sheet_cells(*ws) == start.union_prefer_right(Map::new(
                |cell: (u32, u16)| in_footer(n as int, cell) && cell.0 < n + 6 + i,
                |cell: (u32, u16)| footer_cell(n as int, meta@, total_seconds as int, cell),
            )),
            sheet_formats(*ws) == start_formats.union_prefer_right(Map::new(
                |cell: (u32, u16)| in_footer(n as int, cell) && cell.0 < n + 6 + i,
                |cell: (u32, u16)| footer_format(cell),
            )),
            format_properties(*left) == set![FormatProperty::Aligned(Align::Left)],
            format_properties(*right) == set![FormatProperty::Aligned(Align::Right)],
            !set![FormatProperty::Aligned(Align::Left)].is_empty(),
            !set![FormatProperty::Aligned(Align::Right)].is_empty(),
            sheet_name(*ws) == sheet_name(*old(ws)),
            sheet_merged_ranges(*ws) == sheet_merged_ranges(*old(ws)),
            last_data_row == n + 1,
        decreases 3 - i,
    {
        let status = if i == 0 {
            TestStatus::Passed
        } else if i == 1 {
            TestStatus::Failed
        } else {
            TestStatus::Skipped
        };
        assert(status == footer_status(i as int));
        let label = status.as_str();
        let title = capitalize(label);
        let formula = countif(last_data_row, label);
        proof {
            reveal_strlit("passed");
            reveal_strlit("failed");
            reveal_strlit("skipped");
            let first = status_label(status)[0];
            assert('a' <= first && first <= 'z');
            lemma_short_text_fits(title@);
        }
        write_text(ws, row, 2, title.as_str(), left)?;
        write_formula(ws, row, 3, formula.as_str(), right)?;
        proof {
            assert(sheet_cells(*ws) =~= start.union_prefer_right(Map::new(
                |cell: (u32, u16)| in_footer(n as int, cell) && cell.0 < n + 6 + i + 1,
                |cell: (u32, u16)| footer_cell(n as int, meta@, total_seconds as int, cell),
            )));
            assert(sheet_formats(*ws) =~= start_formats.union_prefer_right(Map::new(
                |cell: (u32, u16)| in_footer(n as int, cell) && cell.0 < n + 6 + i + 1,
                |cell: (u32, u16)| footer_format(cell),
            )));
        }
        row = row + 1;
        i = i + 1;
    }
    row = row + 1;
    let total = total_label(total_seconds);
    write_text(ws, row, 2, "Durée totale des tests", left)?;
    write_text(ws, row, 3, total.as_str(), right)?;
    row = row + 2;
    let mut line = String::new();
    line.append("Version du générateur : ");
    line.append(meta.generator_version.as_str());
    write_text(ws, row, 0, line.as_str(), left)?;
    assert(sheet_cells(*ws) =~= start.union_prefer_right(footer_cells(n as int, meta@, total_seconds as int)));
    assert(sheet_formats(*ws) =~= start_formats.union_prefer_right(footer_formats(n as int)));
    Ok(())
}

/// Writes the report into a new worksheet named "JUnit Report".
///
/// Row 1 holds the column titles; each case then takes a row in the given
/// order (suite, test name, status, duration). Cases of consecutive equal
/// suites form a run whose suite cells are merged when the run has more than
/// one case; runs are banded white and grey and status cells are colored
/// green, red or orange; data cells are left-aligned, the header bold and
/// centered on a light blue fill.
/// Below come the project and branch, one `COUNTIF` total per status over
/// the result column, the total duration (`total_seconds`, the cases'
/// total rounded to whole seconds, as `hh:mm:ss`), and the generator line.
/// Equal suites that are not adjacent form separate runs. It fails exactly
/// when the report does not fit the worksheet.
pub fn write_report(cases: &Vec<ReportCase>, meta: &ReportMeta, total_seconds: i64) -> (r: Result<Worksheet, XlsxError>)
    ensures
        match r {
            Ok(ws) => {
                &&& report_fits(report_view(cases@), meta@)
                &&& sheet_cells(ws) == report_cells(report_view(cases@), meta@, total_seconds as int)
                &&& sheet_formats(ws) == report_formats(report_view(cases@))
                &&& sheet_merged_ranges(ws) == report_merges(report_view(cases@))
                &&& sheet_name(ws) == report_sheet_name()
            },
            Err(_) => !report_fits(report_view(cases@), meta@),
        },
{
    let ghost cs = report_view(cases@);
    let mut ws = new_worksheet();
    proof {
        reveal_strlit("JUnit Report");
        lemma_utf16_len_bound("JUnit Report"@);
    }
    set_sheet_name(&mut ws, "JUnit Report")?;

    let header = boxed_format(HEADER_FILL, true, Align::Center);
    let white = boxed_format(WHITE_FILL, false, Align::Left);
    let grey = boxed_format(GREY_FILL, false, Align::Left);
    let left = plain_format(Align::Left);
    let right = plain_format(Align::Right);

    proof {
        reveal_strlit("Classe de test");
        reveal_strlit("Nom du test");
        reveal_strlit("Résultat du test");
        reveal_strlit("Temps (en minutes)");
        lemma_short_text_fits("Classe de test"@);
        lemma_short_text_fits("Nom du test"@);
        lemma_short_text_fits("Résultat du test"@);
        lemma_short_text_fits("Temps (en minutes)"@);
    }
    write_text(&mut ws, 0, 0, "Classe de test", &header)?;
    write_text(&mut ws, 0, 1, "Nom du test", &header)?;
    write_text(&mut ws, 0, 2, "Résultat du test", &header)?;
    write_text(&mut ws, 0, 3, "Temps (en minutes)", &header)?;
    assert(sheet_cells(ws) =~= table_cells(cs, 0));
    proof {
        lemma_boxed_nonempty(HEADER_FILL, true, Align::Center);
    }
    assert(sheet_formats(ws) =~= table_formats(cs, 0));

    write_case_rows(&mut ws, cases, &white, &grey)?;
    let n = cases.len() as u32;
    write_footer(&mut ws, n, meta, total_seconds, &left, &right)?;
    autofit_columns(&mut ws);
    assert(sheet_cells(ws) =~= report_cells(cs, meta@, total_seconds as int));
    assert(sheet_formats(ws) =~= report_formats(cs));
    Ok(ws)
}

/// The minutes and seconds of `mm:ss`, and the hours, minutes and seconds of
/// `hh:mm:ss`, add up to the duration they show, each part below its unit.
pub proof fn lemma_duration_parts(t: int)
    ensures
        60 * trunc_div(t, 60) + trunc_rem(t, 60) == t,
        -60 < trunc_rem(t, 60) < 60,
        3600 * trunc_div(t, 3600) + 60 * trunc_div(trunc_rem(t, 3600), 60) + trunc_rem(t, 60) == t,
        -60 < trunc_div(trunc_rem(t, 3600), 60) < 60,
{
    if t < 0 {
        let m = -t;
        assert(m % 3600 % 60 == m % 60);
    } else {
        assert(t % 3600 % 60 == t % 60);
    }
}

/// Each case has its own row, in order: row `k + 1` holds the test name,
/// status label and duration text of case `k`; and each footer total holds,
/// in the worksheet's stored form, the formula counting the status over the
/// result column of exactly the case rows (rows 2 to `n + 1` in the
/// spreadsheet's one-based numbering).
pub proof fn lemma_rows_and_totals(cs: Seq<ReportCaseView>, meta: ReportMetaView, total_seconds: int)
    requires
        cs.len() + 12 < ROW_LIMIT,
    ensures
        forall|k: int|
            #![trigger cs[k]]
            0 <= k < cs.len() ==> {
                let cells = report_cells(cs, meta, total_seconds);
                &&& cells[((k + 1) as u32, 1u16)] == text_cell(cs[k].name)
                &&& cells[((k + 1) as u32, 2u16)] == text_cell(status_label(cs[k].status))
                &&& cells[((k + 1) as u32, 3u16)] == text_cell(duration_text(cs[k].duration))
            },
        forall|i: int|
            #![trigger footer_status(i)]
            0 <= i < 3 ==> report_cells(cs, meta, total_seconds)[((cs.len() + 6 + i) as u32, 3u16)]
                == CellContent::Formula(
                    formula_string(countif_formula(cs.len() + 1int, status_label(footer_status(i)))),
                ),
        forall|k: int|
            #![trigger cs[k]]
            0 <= k < cs.len() ==> report_cells(cs, meta, total_seconds)[((k + 1) as u32, 3u16)]
                == text_cell(
                if cs[k].duration.within_one_second {
                    "< 1 s"@
                } else {
                    mmss_text(cs[k].duration.whole_seconds as int)
                },
            ),
        report_cells(cs, meta, total_seconds)[((cs.len() + 6) as u32, 3u16)] == CellContent::Formula(
            formula_string("=COUNTIF(C2:C"@ + signed_text(cs.len() + 1int) + ",\""@ + "passed"@ + "\")"@),
        ),
        report_cells(cs, meta, total_seconds)[((cs.len() + 7) as u32, 3u16)] == CellContent::Formula(
            formula_string("=COUNTIF(C2:C"@ + signed_text(cs.len() + 1int) + ",\""@ + "failed"@ + "\")"@),
        ),
        report_cells(cs, meta, total_seconds)[((cs.len() + 8) as u32, 3u16)] == CellContent::Formula(
            formula_string("=COUNTIF(C2:C"@ + signed_text(cs.len() + 1int) + ",\""@ + "skipped"@ + "\")"@),
        ),
{
    let n = cs.len() as int;
    let cells = report_cells(cs, meta, total_seconds);
    assert(in_footer(n, ((n + 6) as u32, 3u16)));
    assert(in_footer(n, ((n + 7) as u32, 3u16)));
    assert(in_footer(n, ((n + 8) as u32, 3u16)));
    assert forall|k: int| #![trigger cs[k]] 0 <= k < n implies {
        &&& cells[((k + 1) as u32, 1u16)] == text_cell(cs[k].name)
        &&& cells[((k + 1) as u32, 2u16)] == text_cell(status_label(cs[k].status))
        &&& cells[((k + 1) as u32, 3u16)] == text_cell(duration_text(cs[k].duration))
    } by {
        assert(cells.dom().contains(((k + 1) as u32, 1u16)));
        assert(cells.dom().contains(((k + 1) as u32, 2u16)));
        assert(cells.dom().contains(((k + 1) as u32, 3u16)));
    }
    assert forall|i: int| #![trigger footer_status(i)] 0 <= i < 3 implies cells[((n + 6 + i) as u32, 3u16)]
        == CellContent::Formula(formula_string(countif_formula(n + 1, status_label(footer_status(i))))) by {
        assert(in_footer(n, ((n + 6 + i) as u32, 3u16)));
    }
}

/// A case's duration is shown as `< 1 s` exactly when it took at most one
/// second; a longer one is shown as minutes and seconds, `mm:ss`.
pub proof fn lemma_duration_shown(d: CaseDuration)
    ensures
        (duration_text(d) == "< 1 s"@) <==> d.within_one_second,
        !d.within_one_second ==> duration_text(d) == mmss_text(d.whole_seconds as int),
{
    reveal_strlit("< 1 s");
    if !d.within_one_second {
        let m = trunc_div(d.whole_seconds as int, 60);
        let t = mmss_text(d.whole_seconds as int);
        if 0 <= m < 10 {
            assert(t[0] == '0');
        } else if m < 0 {
            assert(t[0] == '-');
        } else {
            lemma_nat_digits_first(m as nat);
            assert(t[0] == nat_digits(m as nat)[0]);
        }
        assert(t[0] != "< 1 s"@[0]);
    }
}

/// Why a report could not be produced from a table.
#[derive(Debug)]
pub enum ReportError {
    /// The table has no row.
    EmptyInput,
    /// The report does not fit the worksheet.
    Xlsx(XlsxError),
}

/// The report of a table of cases, refusing an empty table; see
/// [`write_report`].
pub fn build_report(cases: &Vec<ReportCase>, meta: &ReportMeta, total_seconds: i64) -> (r: Result<Worksheet, ReportError>)
    ensures
        match r {
            Ok(ws) => {
                &&& cases.len() > 0
                &&& report_fits(report_view(cases@), meta@)
                &&& sheet_cells(ws) == report_cells(report_view(cases@), meta@, total_seconds as int)
                &&& sheet_formats(ws) == report_formats(report_view(cases@))
                &&& sheet_merged_ranges(ws) == report_merges(report_view(cases@))
                &&& sheet_name(ws) == report_sheet_name()
            },
            Err(ReportError::EmptyInput) => cases.len() == 0,
            Err(ReportError::Xlsx(_)) => cases.len() > 0 && !report_fits(report_view(cases@), meta@),
        },
{
    if cases.len() == 0 {
        return Err(ReportError::EmptyInput);
    }
    match write_report(cases, meta, total_seconds) {
        Ok(ws) => Ok(ws),
        Err(e) => Err(ReportError::Xlsx(e)),
    }
}

/// A report row from the columns of a table row: a missing suite or test
/// name reads as empty, a missing status as passed, and the status text as
/// [`status_from_label`] says.
pub fn case_from_columns(suite: Option<&str>, test: Option<&str>, status: Option<&str>, duration: CaseDuration) -> (r: ReportCase)
    ensures
        r@.suite == match suite { Some(s) => s@, None => Seq::<char>::empty() },
        r@.name == match test { Some(t) => t@, None => Seq::<char>::empty() },
        r@.status == match status { Some(s) => status_from_label(s@), None => TestStatus::Passed },
        r@.duration == duration,
{
    ReportCase {
        suite: match suite {
            Some(s) => s.to_owned(),
            None => String::new(),
        },
        name: match test {
            Some(t) => t.to_owned(),
            None => String::new(),
        },
        status: match status {
            Some(s) => TestStatus::from_label(s),
            None => TestStatus::Passed,
        },
        duration,
    }
}

proof fn lemma_merges_upto(cs: Seq<ReportCaseView>, k: int)
    requires
        0 <= k <= cs.len(),
        cs.len() < ROW_LIMIT,
    ensures
        forall|m: int|
            0 <= m < merges_upto(cs, k).len() ==> is_run_range(cs, #[trigger] merges_upto(cs, k)[m])
                && merges_upto(cs, k)[m].2 <= k,
        forall|m1: int, m2: int|
            0 <= m1 < m2 < merges_upto(cs, k).len() ==> (#[trigger] merges_upto(cs, k)[m1]).2
                < (#[trigger] merges_upto(cs, k)[m2]).0,
        forall|j: int|
            0 <= j < k && ends_group(cs, j) && group_start(cs, j) < j ==> merges_upto(cs, k).contains(
                #[trigger] run_range(cs, j),
            ),
    decreases k,
{
    if k > 0 {
        lemma_merges_upto(cs, k - 1);
        lemma_group_start(cs, k - 1);
        let prev = merges_upto(cs, k - 1);
        let cur = merges_upto(cs, k);
        if ends_group(cs, k - 1) && group_start(cs, k - 1) < k - 1 {
            let g = group_start(cs, k - 1);
            assert(cur == prev.push(run_range(cs, k - 1)));
            assert(is_run_range(cs, run_range(cs, k - 1))) by {
                assert forall|j: int| g <= j < k implies #[trigger] cs[j].suite == cs[k - 1].suite by {
                    assert(group_start(cs, j) == g);
                }
            }
            assert forall|m: int| 0 <= m < prev.len() implies (#[trigger] prev[m]).2 < g + 1 by {
                let a = prev[m].0 as int;
                let b = prev[m].2 as int;
                if b >= g + 1 {
                    assert(b - 1 >= g);
                    assert(ends_group(cs, b - 1));
                    assert(cs[b].suite != cs[b - 1].suite);
                    assert(cs[b].suite == cs[k - 1].suite);
                    assert(cs[b - 1].suite == cs[k - 1].suite);
                }
            }
            assert forall|j: int|
                0 <= j < k && ends_group(cs, j) && group_start(cs, j) < j implies cur.contains(
                #[trigger] run_range(cs, j),
            ) by {
                if j == k - 1 {
                    assert(cur[prev.len() as int] == run_range(cs, j));
                } else {
                    let i = choose|i: int| 0 <= i < prev.len() && prev[i] == run_range(cs, j);
                    assert(cur[i] == run_range(cs, j));
                }
            }
        } else {
            assert(cur =~= prev);
            assert forall|j: int|
                0 <= j < k && ends_group(cs, j) && group_start(cs, j) < j implies cur.contains(
                #[trigger] run_range(cs, j),
            ) by {
                if j == k - 1 {
                    assert(false);
                }
            }
        }
    }
}

/// The merged range of the run that ends with case `k`: the suite column
/// from the run's first row to row `k + 1`.
pub open spec fn run_range(cs: Seq<ReportCaseView>, k: int) -> (u32, u16, u32, u16) {
    ((group_start(cs, k) + 1) as u32, 0u16, (k + 1) as u32, 0u16)
}

/// Whether a range covers, in the suite column, exactly the rows of a run
/// of more than one case with the same suite.
pub open spec fn is_run_range(cs: Seq<ReportCaseView>, range: (u32, u16, u32, u16)) -> bool {
    let a = range.0 as int;
    let b = range.2 as int;
    &&& range.1 == 0 && range.3 == 0
    &&& 1 <= a < b <= cs.len()
    &&& forall|j: int| a - 1 <= j < b ==> #[trigger] cs[j].suite == cs[b - 1].suite
    &&& a == 1 || cs[a - 2].suite != cs[a - 1].suite
    &&& b == cs.len() || cs[b].suite != cs[b - 1].suite
}

/// The merges of the suite column are exactly the runs of more than one
/// case: each merged range covers one such run, the ranges come in order
/// without overlapping, and every such run is merged.
pub proof fn lemma_merges_are_runs(cs: Seq<ReportCaseView>)
    requires
        cs.len() < ROW_LIMIT,
    ensures
        forall|m: int| 0 <= m < report_merges(cs).len() ==> is_run_range(cs, #[trigger] report_merges(cs)[m]),
        forall|m1: int, m2: int|
            0 <= m1 < m2 < report_merges(cs).len() ==> (#[trigger] report_merges(cs)[m1]).2
                < (#[trigger] report_merges(cs)[m2]).0,
        forall|k: int|
            0 <= k < cs.len() && ends_group(cs, k) && group_start(cs, k) < k ==> report_merges(cs).contains(
                #[trigger] run_range(cs, k),
            ),
{
    lemma_merges_upto(cs, cs.len() as int);
}

} // verus!