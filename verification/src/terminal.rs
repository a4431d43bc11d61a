//! The terminal report: the report tables drawn with comfy-table, with a
//! title and a verdict styled with colored.

use vstd::prelude::*;
use colored::{ColoredString, Colorize};
use comfy_table::{Cell, Table};
use crate::config::LoadTestConfig;
use crate::metrics::AggregatedMetrics;
use crate::report::SloEvaluation;
use crate::metrics::metrics_wf;
use crate::tables::{report_tables, report_tables_view, tables_view, ReportTable, TableView, Tone};
use crate::text::{push_str, string_of};

verus! {

#[verifier::external_type_specification]
#[verifier::external_body]
pub struct ExTable(Table);

#[verifier::external_type_specification]
#[verifier::external_body]
pub struct ExCell(Cell);

#[verifier::external_type_specification]
#[verifier::external_body]
pub struct ExColoredString(ColoredString);

/// The colors the terminal report draws text in.
#[derive(Debug, Clone, Copy, PartialEq, Eq, Structural)]
pub enum Paint {
    Cyan,
    Green,
    Red,
    Yellow,
}

/// The header texts of a comfy-table table (empty while no header is set).
pub uninterp spec fn table_header(t: Table) -> Seq<Seq<char>>;

/// The cell texts of the body rows of a comfy-table table.
pub uninterp spec fn table_rows(t: Table) -> Seq<Seq<Seq<char>>>;

/// The table draws its borders with the `UTF8_FULL` preset.
pub uninterp spec fn table_full_borders(t: Table) -> bool;

/// The text of a comfy-table cell.
pub uninterp spec fn cell_content(c: Cell) -> Seq<char>;

/// The plain text that a colored string styles.
pub uninterp spec fn colored_input(s: ColoredString) -> Seq<char>;

/// `Table::new`: a table with no header and no rows.
#[verifier::external_body]
fn table_new() -> (t: Table)
    ensures
        table_header(t) == Seq::<Seq<char>>::empty(),
        table_rows(t) == Seq::<Seq<Seq<char>>>::empty(),
{
    Table::new()
}

/// `Table::load_preset` with comfy-table's `UTF8_FULL` borders; the header
/// and rows stay as they are.
#[verifier::external_body]
fn table_use_full_borders(t: &mut Table)
    ensures
        table_full_borders(*final(t)),
        table_header(*final(t)) == table_header(*old(t)),
        table_rows(*final(t)) == table_rows(*old(t)),
{
    t.load_preset(comfy_table::presets::UTF8_FULL);
}

/// `Table::set_header`: the header becomes `cells`.
#[verifier::external_body]
fn table_set_header(t: &mut Table, cells: Vec<Cell>)
    ensures
        table_full_borders(*final(t)) == table_full_borders(*old(t)),
        table_header(*final(t)) == cells@.map_values(|c: Cell| cell_content(c)),
        table_rows(*final(t)) == table_rows(*old(t)),
{
    t.set_header(cells);
}

/// `Table::add_row`: `cells` is appended as the last row.
#[verifier::external_body]
fn table_add_row(t: &mut Table, cells: Vec<Cell>)
    ensures
        table_full_borders(*final(t)) == table_full_borders(*old(t)),
        table_header(*final(t)) == table_header(*old(t)),
        table_rows(*final(t)) == table_rows(*old(t)).push(cells@.map_values(|c: Cell| cell_content(c))),
{
    t.add_row(cells);
}

/// `l` is a line of `s`: a piece of `s` between newline characters (one of
/// the pieces `s.split('\n')` gives).
pub open spec fn is_line_of(l: Seq<char>, s: Seq<char>) -> bool {
    exists|a: int, b: int|
        #![trigger s.subrange(a, b)]
        0 <= a <= b <= s.len() && (a == 0 || s[a - 1] == '\n') && (b == s.len() || s[b] == '\n')
            && !s.subrange(a, b).contains('\n') && l == s.subrange(a, b)
}

/// `l` occurs in `t` as a contiguous piece.
pub open spec fn occurs_in(l: Seq<char>, t: Seq<char>) -> bool {
    exists|i: int| #![trigger t.subrange(i, i + l.len())] 0 <= i && i + l.len() <= t.len() && t.subrange(i, i + l.len()) == l
}

/// Longest line of a cell, in characters, that is drawn unsplit: no
/// character is wider than two columns, and comfy-table splits only lines
/// wider than a column can be (`u16::MAX` columns).
pub const UNSPLIT_LINE_CHARS: u64 = 32767;

/// The drawn text `text` shows every line of every header and body cell
/// that is at most [`UNSPLIT_LINE_CHARS`] long, verbatim.
pub open spec fn shows_cells(text: Seq<char>, header: Seq<Seq<char>>, rows: Seq<Seq<Seq<char>>>) -> bool {
    &&& forall|j: int, l: Seq<char>| 0 <= j < header.len() && #[trigger] is_line_of(l, header[j]) && l.len() <= UNSPLIT_LINE_CHARS
        ==> occurs_in(l, text)
    &&& forall|i: int, j: int, l: Seq<char>| 0 <= i < rows.len() && 0 <= j < rows[i].len() && #[trigger] is_line_of(l, rows[i][j])
        && l.len() <= UNSPLIT_LINE_CHARS ==> occurs_in(l, text)
}

/// The lines of `t`: its pieces between newline characters, in order.
pub open spec fn text_lines(t: Seq<char>) -> Seq<Seq<char>>
    decreases t.len(),
{
    if t.len() == 0 {
        seq![Seq::<char>::empty()]
    } else if t.last() == '\n' {
        text_lines(t.drop_last()).push(Seq::<char>::empty())
    } else {
        let ls = text_lines(t.drop_last());
        ls.update(ls.len() - 1, ls.last().push(t.last()))
    }
}

/// An ANSI style sequence: escape, `[`, digits and semicolons, `m`.
pub open spec fn is_style_sequence(e: Seq<char>) -> bool {
    &&& e.len() >= 3
    &&& e[0] == '\x1B' && e[1] == '['
    &&& e[e.len() - 1] == 'm'
    &&& forall|i: int| 2 <= i < e.len() - 1 ==> crate::text::is_digit(#[trigger] e[i]) || e[i] == ';'
}

/// A piece of a drawn row between cell texts: padding spaces, vertical
/// border characters and style sequences.
pub open spec fn is_filler(f: Seq<char>) -> bool {
    exists|toks: Seq<Seq<char>>| #![trigger toks.flatten()]
        f == toks.flatten() && forall|i: int| 0 <= i < toks.len() ==> {
            let t = #[trigger] toks[i];
            t == seq![' '] || t == seq!['│'] || t == seq!['┆'] || is_style_sequence(t)
        }
}

/// `fillers[0] + cells[0] + fillers[1] + ... + cells[n-1] + fillers[n]`.
pub open spec fn interleave(fillers: Seq<Seq<char>>, cells: Seq<Seq<char>>) -> Seq<char>
    decreases cells.len(),
{
    if cells.len() == 0 || fillers.len() == 0 {
        if fillers.len() > 0 { fillers[0] } else { Seq::empty() }
    } else {
        interleave(fillers.drop_last(), cells.drop_last()) + cells.last() + fillers.last()
    }
}

/// `line` draws the row `cells`: the cell texts in order, with only
/// padding, borders and styling around them.
pub open spec fn draws_row(line: Seq<char>, cells: Seq<Seq<char>>) -> bool {
    exists|fillers: Seq<Seq<char>>| #![trigger interleave(fillers, cells)]
        fillers.len() == cells.len() + 1 && (forall|i: int| 0 <= i < fillers.len() ==> is_filler(#[trigger] fillers[i]))
            && line == interleave(fillers, cells)
}

/// A line made only of the box-drawing characters of the `UTF8_FULL` preset
/// that horizontal borders and separators use.
pub open spec fn is_border_line(l: Seq<char>) -> bool {
    forall|i: int| 0 <= i < l.len() ==> {
        let c = #[trigger] l[i];
        c == '─' || c == '═' || c == '╌' || c == '╞' || c == '╪' || c == '╡' || c == '┼' || c == '├'
            || c == '┤' || c == '┬' || c == '┴' || c == '┌' || c == '┐' || c == '└' || c == '┘'
    }
}

/// Every cell of `rows` is one line of at most [`UNSPLIT_LINE_CHARS`] characters.
pub open spec fn single_line_cells(rows: Seq<Seq<Seq<char>>>) -> bool {
    forall|r: int, c: int| 0 <= r < rows.len() && 0 <= c < rows[r].len()
        ==> !(#[trigger] rows[r][c]).contains('\n') && rows[r][c].len() <= UNSPLIT_LINE_CHARS
}

/// The lines of `text` draw the rows `rows` in order, one line each, and
/// every other line is a border line.
pub open spec fn draws_rows_in_order(text: Seq<char>, rows: Seq<Seq<Seq<char>>>) -> bool {
    let ls = text_lines(text);
    exists|idx: Seq<int>| #![trigger idx.len()]
        idx.len() == rows.len()
        && (forall|a: int, b: int| 0 <= a < b < idx.len() ==> idx[a] < idx[b])
        && (forall|a: int| 0 <= a < idx.len() ==> 0 <= #[trigger] idx[a] < ls.len() && draws_row(ls[idx[a]], rows[a]))
        && (forall|j: int| 0 <= j < ls.len() ==> (exists|a: int| 0 <= a < idx.len() && #[trigger] idx[a] == j)
            || is_border_line(#[trigger] ls[j]))
}

/// `text` is a drawing, with `UTF8_FULL` borders, of the table with `header`
/// and body `rows`: every short enough cell line shows in it; and when
/// there is a header and every cell is a single short line, the header and
/// then the body rows are drawn in order, one line each, between border
/// lines.
pub open spec fn draws_table(text: Seq<char>, header: Seq<Seq<char>>, rows: Seq<Seq<Seq<char>>>) -> bool {
    &&& shows_cells(text, header, rows)
    &&& header.len() > 0 && single_line_cells(seq![header] + rows) ==> draws_rows_in_order(text, seq![header] + rows)
}

/// The table drawn as text (`Table`'s `Display`).  Cells are split at
/// newlines; with the default content arrangement a column is as wide as
/// its widest line (up to `u16::MAX` columns), so no shorter line is
/// wrapped or truncated.  Each row is drawn as one line per cell line:
/// left border, then each cell's line padded with spaces (styled, when
/// standard output is a terminal) and separated by vertical lines, then the
/// right border.  The other lines are the top, header, row separator and
/// bottom borders.  Stated for tables with the `UTF8_FULL` borders.
#[verifier::external_body]
fn table_text(t: &Table) -> (r: String)
    ensures
        table_full_borders(*t) ==> draws_table(r@, table_header(*t), table_rows(*t)),
{
    t.to_string()
}

/// `Cell::new`: a cell showing `text`.
#[verifier::external_body]
fn cell_new(text: &str) -> (c: Cell)
    ensures
        cell_content(c) == text@,
{
    Cell::new(text)
}

/// `Cell::fg`: the same cell drawn in `color`.
#[verifier::external_body]
fn cell_fg(c: Cell, color: Paint) -> (r: Cell)
    ensures
        cell_content(r) == cell_content(c),
{
    c.fg(match color {
        Paint::Cyan => comfy_table::Color::Cyan,
        Paint::Green => comfy_table::Color::Green,
        Paint::Red => comfy_table::Color::Red,
        Paint::Yellow => comfy_table::Color::Yellow,
    })
}

/// `Colorize::bold` on a string slice.
#[verifier::external_body]
pub(crate) fn bold(text: &str) -> (s: ColoredString)
    ensures
        colored_input(s) == text@,
{
    text.bold()
}

/// `Colorize::color` on a colored string: the same text in `color`.
#[verifier::external_body]
pub(crate) fn with_color(s: ColoredString, color: Paint) -> (r: ColoredString)
    ensures
        colored_input(r) == colored_input(s),
{
    s.color(match color {
        Paint::Cyan => colored::Color::Cyan,
        Paint::Green => colored::Color::Green,
        Paint::Red => colored::Color::Red,
        Paint::Yellow => colored::Color::Yellow,
    })
}

/// The colored string as text (`ColoredString`'s `Display`): the plain
/// text, or, when colors are enabled in this environment, the text between
/// a style sequence (escape, `[`, the style and color codes joined by `;`,
/// `m`) and the reset sequence.  Which of the two is given is left unsaid.
#[verifier::external_body]
pub(crate) fn colored_text(s: &ColoredString) -> (r: String)
    ensures
        !colored_input(*s).contains('\x1B') ==> styled(r@, colored_input(*s)),
{
    s.to_string()
}

/// The report tables drawn one after the other, each followed by a blank line.
pub open spec fn table_block(drawn: Seq<Seq<char>>) -> Seq<char>
    decreases drawn.len(),
{
    if drawn.len() == 0 {
        Seq::empty()
    } else {
        table_block(drawn.drop_last()) + drawn.last() + "\n\n"@
    }
}

/// The sentence after the verdict mark.
pub open spec fn verdict_sentence(passed: bool) -> Seq<char> {
    if passed { "All SLO thresholds satisfied."@ } else { "One or more SLO thresholds breached!"@ }
}

/// The layout of the terminal report: a blank line, the title, a blank
/// line, the drawn tables, and the verdict line when objectives are set.
pub open spec fn text_report_layout(title: Seq<char>, drawn: Seq<Seq<char>>, verdict: Seq<char>) -> Seq<char> {
    "\n"@ + title + "\n\n"@ + table_block(drawn) + verdict
}

/// The body rows of a view, without highlights.
pub open spec fn row_texts(t: TableView) -> Seq<Seq<Seq<char>>> {
    t.1.map_values(|r: Seq<(Seq<char>, Tone)>| r.map_values(|c: (Seq<char>, Tone)| c.0))
}

fn comfy_cell(c: &crate::tables::ReportCell) -> (r: Cell)
    ensures
        cell_content(r) == c.text@,
{
    let cell = cell_new(c.text.as_str());
    match c.tone {
        Tone::Plain => cell,
        Tone::Good => cell_fg(cell, Paint::Green),
        Tone::Bad => cell_fg(cell, Paint::Red),
    }
}

/// The comfy-table table showing `t`, with full borders.
fn comfy_table_of(t: &ReportTable) -> (r: Table)
    ensures
        table_full_borders(r),
        table_header(r) == t@.0,
        table_rows(r) == row_texts(t@),
{
    let mut table = table_new();
    table_use_full_borders(&mut table);
    let mut header: Vec<Cell> = Vec::new();
    let mut i: usize = 0;
    while i < t.header.len()
        invariant
            i <= t.header@.len(),
            header@.map_values(|c: Cell| cell_content(c)) =~= t@.0.take(i as int),
        decreases t.header@.len() - i,
    {
        let ghost prev = header@;
        header.push(cell_new(t.header[i].as_str()));
        proof {
            assert(header@.map_values(|c: Cell| cell_content(c)) =~= prev.map_values(|c: Cell| cell_content(c)).push(t.header@[i as int]@));
        }
        i = i + 1;
    }
    assert(t@.0.take(i as int) =~= t@.0);
    table_set_header(&mut table, header);
    let mut k: usize = 0;
    while k < t.rows.len()
        invariant
            k <= t.rows@.len(),
            table_header(table) == t@.0,
            table_full_borders(table),
            table_rows(table) =~= row_texts(t@).take(k as int),
        decreases t.rows@.len() - k,
    {
        let row = &t.rows[k];
        let mut cells: Vec<Cell> = Vec::new();
        let mut j: usize = 0;
        while j < row.len()
            invariant
                j <= row@.len(),
                row == t.rows@[k as int],
                cells@.map_values(|c: Cell| cell_content(c)) =~= row@.take(j as int).map_values(|c: crate::tables::ReportCell| c.text@),
            decreases row@.len() - j,
        {
            let ghost prev = cells@;
            cells.push(comfy_cell(&row[j]));
            proof {
                assert(row@.take(j + 1) =~= row@.take(j as int).push(row@[j as int]));
                assert(cells@.map_values(|c: Cell| cell_content(c)) =~= prev.map_values(|c: Cell| cell_content(c)).push(row@[j as int].text@));
            }
            j = j + 1;
        }
        proof {
            assert(row@.take(j as int) =~= row@);
            assert(row@.map_values(|c: crate::tables::ReportCell| c.text@)
                =~= row_texts(t@)[k as int]);
        }
        let ghost before = table_rows(table);
        table_add_row(&mut table, cells);
        proof {
            assert(row_texts(t@).take(k + 1) =~= row_texts(t@).take(k as int).push(row_texts(t@)[k as int]));
        }
        k = k + 1;
    }
    assert(row_texts(t@).take(k as int) =~= row_texts(t@));
    table
}

/// Joins the pieces of the terminal report (see [`text_report_layout`]).
pub fn assemble_text_report(title: &str, drawn: &Vec<String>, verdict: &str) -> (r: String)
    ensures
        r@ == text_report_layout(title@, drawn@.map_values(|s: String| s@), verdict@),
{
    let mut out: Vec<char> = Vec::new();
    push_str(&mut out, "\n");
    push_str(&mut out, title);
    push_str(&mut out, "\n\n");
    let ghost head = out@;
    let mut i: usize = 0;
    while i < drawn.len()
        invariant
            i <= drawn@.len(),
            out@ == head + table_block(drawn@.take(i as int).map_values(|s: String| s@)),
        decreases drawn@.len() - i,
    {
        push_str(&mut out, drawn[i].as_str());
        push_str(&mut out, "\n\n");
        proof {
            assert(drawn@.take(i + 1).map_values(|s: String| s@).drop_last()
                =~= drawn@.take(i as int).map_values(|s: String| s@));
        }
        i = i + 1;
    }
    assert(drawn@.take(i as int) =~= drawn@);
    push_str(&mut out, verdict);
    assert(out@ =~= text_report_layout(title@, drawn@.map_values(|s: String| s@), verdict@));
    string_of(out)
}

/// `t` shows `text`: the plain text, or the text between a style sequence
/// and the reset sequence.
pub open spec fn styled(t: Seq<char>, text: Seq<char>) -> bool {
    t == text || exists|style: Seq<char>| is_style_sequence(style) && t == style + text + "\x1B[0m"@
}

/// The verdict mark: `[PASS]` when every objective passed, `[FAIL]` otherwise.
pub open spec fn verdict_mark(passed: bool) -> Seq<char> {
    if passed { "[PASS]"@ } else { "[FAIL]"@ }
}

/// `t` is the report title: the tool's name and the caption, each possibly
/// styled, separated by a space.
pub open spec fn is_title(t: Seq<char>) -> bool {
    exists|tool: Seq<char>, caption: Seq<char>|
        #![trigger styled(tool, "wsblast"@), styled(caption, "WebSocket Benchmark Summary"@)]
        t == tool + " "@ + caption && styled(tool, "wsblast"@)
            && styled(caption, "WebSocket Benchmark Summary"@)
}

fn title_text() -> (r: String)
    ensures
        is_title(r@),
{
    proof {
        reveal_strlit("wsblast");
        reveal_strlit("WebSocket Benchmark Summary");
        assert(!"wsblast"@.contains('\x1B'));
        assert(!"WebSocket Benchmark Summary"@.contains('\x1B'));
    }
    let tool = colored_text(&with_color(bold("wsblast"), Paint::Cyan));
    let caption = colored_text(&bold("WebSocket Benchmark Summary"));
    let mut out: Vec<char> = Vec::new();
    push_str(&mut out, tool.as_str());
    push_str(&mut out, " ");
    push_str(&mut out, caption.as_str());
    assert(out@ =~= tool@ + " "@ + caption@);
    assert(styled(tool@, "wsblast"@));
    assert(styled(caption@, "WebSocket Benchmark Summary"@));
    string_of(out)
}

fn verdict_text(passed: bool) -> (r: String)
    ensures
        exists|mark: Seq<char>| styled(mark, verdict_mark(passed)) && r@ == mark + " "@ + verdict_sentence(passed) + "\n"@,
{
    proof {
        reveal_strlit("[PASS]");
        reveal_strlit("[FAIL]");
        assert(!"[PASS]"@.contains('\x1B'));
        assert(!"[FAIL]"@.contains('\x1B'));
    }
    let m = if passed {
        colored_text(&with_color(bold("[PASS]"), Paint::Green))
    } else {
        colored_text(&with_color(bold("[FAIL]"), Paint::Red))
    };
    let mut out: Vec<char> = Vec::new();
    push_str(&mut out, m.as_str());
    push_str(&mut out, " ");
    if passed {
        push_str(&mut out, "All SLO thresholds satisfied.");
    } else {
        push_str(&mut out, "One or more SLO thresholds breached!");
    }
    push_str(&mut out, "\n");
    assert(out@ =~= m@ + " "@ + verdict_sentence(passed) + "\n"@);
    assert(styled(m@, verdict_mark(passed)));
    string_of(out)
}

/// `text` is the table of view `t` drawn: its header and body texts show.
pub open spec fn draws(text: Seq<char>, t: TableView) -> bool {
    draws_table(text, t.0, row_texts(t))
}

fn draw_tables(tables: &Vec<ReportTable>) -> (drawn: Vec<String>)
    ensures
        drawn@.len() == tables@.len(),
        forall|k: int| 0 <= k < drawn@.len() ==> #[trigger] draws(drawn@[k]@, tables@[k]@),
{
    let mut drawn: Vec<String> = Vec::new();
    let mut i: usize = 0;
    while i < tables.len()
        invariant
            i <= tables@.len(),
            drawn@.len() == i,
            forall|k: int| 0 <= k < i ==> #[trigger] draws(drawn@[k]@, tables@[k]@),
        decreases tables@.len() - i,
    {
        let table = comfy_table_of(&tables[i]);
        let text = table_text(&table);
        assert(draws(text@, tables@[i as int]@));
        drawn.push(text);
        i = i + 1;
    }
    drawn
}

/// `r` is a terminal report of `metrics` and `slo`: the layout of
/// [`text_report_layout`] with the title, one drawn table per report table
/// (in order; see [`draws`]: each shows its cells, and when they are single
/// short lines each row is one line with its cells in order, between
/// border lines) and, when objectives are set, a verdict line: the styled
/// `[PASS]` or `[FAIL]` mark and the verdict sentence.
pub open spec fn is_text_report(r: Seq<char>, config: LoadTestConfig, metrics: AggregatedMetrics, slo: SloEvaluation) -> bool {
    exists|title: Seq<char>, drawn: Seq<Seq<char>>, verdict: Seq<char>|
        #![trigger text_report_layout(title, drawn, verdict)]
        drawn.len() == report_tables_view(config, metrics, slo.checks@).len()
        && (forall|k: int| 0 <= k < drawn.len() ==> #[trigger] draws(drawn[k], report_tables_view(config, metrics, slo.checks@)[k]))
        && r == text_report_layout(title, drawn, verdict)
        && is_title(title)
        && (slo.checks@.len() == 0 ==> verdict == Seq::<char>::empty())
        && (slo.checks@.len() > 0 ==> exists|mark: Seq<char>| styled(mark, verdict_mark(slo.passed))
            && verdict == mark + " "@ + verdict_sentence(slo.passed) + "\n"@)
}

/// Renders the report for a terminal: the title, each report table (see
/// [`report_tables`]) drawn with borders, and, when objectives are set, a
/// verdict line.
pub fn render_text_report(config: &LoadTestConfig, metrics: &AggregatedMetrics, slo: &SloEvaluation) -> (r: String)
    requires
        metrics_wf(*metrics),
    ensures
        is_text_report(r@, *config, *metrics, *slo),
{
    let title = title_text();
    let tables = report_tables(config, metrics, &slo.checks);
    let drawn = draw_tables(&tables);
    proof {
        assert(tables_view(tables@).len() == tables@.len());
        let dv = drawn@.map_values(|s: String| s@);
        assert forall|k: int| 0 <= k < dv.len() implies #[trigger] draws(dv[k],
            report_tables_view(*config, *metrics, slo.checks@)[k]) by {
            assert(tables_view(tables@)[k] == tables@[k]@);
            assert(draws(drawn@[k]@, tables@[k]@));
        }
    }
    let verdict = if slo.checks.len() > 0 { verdict_text(slo.passed) } else { String::new() };
    let r = assemble_text_report(title.as_str(), &drawn, verdict.as_str());
    assert(r@ == text_report_layout(title@, drawn@.map_values(|s: String| s@), verdict@));
    r
}

} // verus!
