//! Plain-text output: column-aligned tables and the resolved output options.
use vstd::prelude::*;

use crate::names::view_names;
use crate::strings::{is_ws, push_char, trim_end, trim_end_seq};
use vstd::utf8::encode_utf8;

verus! {

/// How a command prints: JSON or tables, quiet or chatty, coloured or not.
pub struct OutputOptions {
    pub json: bool,
    pub quiet: bool,
    pub color: bool,
}

impl OutputOptions {
    /// Resolves the global flags against the environment: colour only for
    /// table output to a terminal, with neither `--no-color` nor `NO_COLOR`.
    pub fn new(json: bool, quiet: bool, no_color: bool, env_no_color: bool, stdout_is_terminal: bool) -> (r: Self)
        ensures
            r.json == json,
            r.quiet == quiet,
            r.color == (!json && !no_color && !env_no_color && stdout_is_terminal),
    {
        let color = !json && !no_color && !env_no_color && stdout_is_terminal;
        OutputOptions { json, quiet, color }
    }
}

/// Whether the value of `NO_COLOR` (when it is set) turns colour off: any
/// non-empty value does.
pub fn env_no_color(value: Option<&str>) -> (r: bool)
    ensures
        r == match value {
            Some(v) => v@.len() > 0,
            None => false,
        },
{
    match value {
        Some(v) => v.unicode_len() > 0,
        None => false,
    }
}

// ---------------------------------------------------------------------------
// Tables
// ---------------------------------------------------------------------------

/// Length of a text in UTF-8 bytes, as `str::len` reports it.
pub open spec fn byte_len(s: Seq<char>) -> nat {
    encode_utf8(s).len()
}

/// `c` left-aligned in a field of `w` characters.
pub open spec fn pad(c: Seq<char>, w: int) -> Seq<char> {
    if c.len() < w {
        c + Seq::new((w - c.len()) as nat, |_i: int| ' ')
    } else {
        c
    }
}

/// Width of column `i` for a cell: the column's width, or for a cell past
/// the known columns its own length in bytes.
pub open spec fn cell_width(widths: Seq<usize>, i: int, cell: Seq<char>) -> int {
    if i < widths.len() {
        widths[i] as int
    } else {
        byte_len(cell) as usize as int
    }
}

/// The cells padded to their column widths and joined by two spaces.
pub open spec fn row_line(cells: Seq<Seq<char>>, widths: Seq<usize>) -> Seq<char>
    decreases cells.len(),
{
    if cells.len() == 0 {
        Seq::empty()
    } else {
        let i = cells.len() - 1;
        let cell = pad(cells[i], cell_width(widths, i, cells[i]));
        if cells.len() == 1 {
            cell
        } else {
            row_line(cells.drop_last(), widths) + "  "@ + cell
        }
    }
}

/// Starting widths: each header's length in bytes.
pub open spec fn header_widths(headers: Seq<Seq<char>>) -> Seq<usize> {
    Seq::new(headers.len(), |i: int| byte_len(headers[i]) as usize)
}

/// Widths after also fitting `row`'s cells, measured in characters.
pub open spec fn widen(ws: Seq<usize>, row: Seq<Seq<char>>) -> Seq<usize> {
    Seq::new(
        ws.len(),
        |i: int|
            if i < row.len() && ws[i] < row[i].len() {
                row[i].len() as usize
            } else {
                ws[i]
            },
    )
}

/// Column widths: the widest of the header and every row's cell.
pub open spec fn table_widths(headers: Seq<Seq<char>>, rows: Seq<Seq<Seq<char>>>) -> Seq<usize>
    decreases rows.len(),
{
    if rows.len() == 0 {
        header_widths(headers)
    } else {
        widen(table_widths(headers, rows.drop_last()), rows.last())
    }
}

/// Each row's line, trailing whitespace trimmed, followed by a newline.
pub open spec fn body_text(rows: Seq<Seq<Seq<char>>>, widths: Seq<usize>) -> Seq<char>
    decreases rows.len(),
{
    if rows.len() == 0 {
        Seq::empty()
    } else {
        body_text(rows.drop_last(), widths) + trim_end_seq(row_line(rows.last(), widths)) + seq!['\n']
    }
}

/// The whole table: header line, then one line per row.
pub open spec fn table_text(headers: Seq<Seq<char>>, rows: Seq<Seq<Seq<char>>>) -> Seq<char> {
    let ws = table_widths(headers, rows);
    trim_end_seq(row_line(headers, ws)) + seq!['\n'] + body_text(rows, ws)
}

/// The character views of a list of rows.
pub open spec fn rows_view(rows: Seq<Vec<String>>) -> Seq<Seq<Seq<char>>> {
    rows.map_values(|r: Vec<String>| view_names(r@))
}

/// The character views of a list of header texts.
pub open spec fn headers_view(headers: Seq<&str>) -> Seq<Seq<char>> {
    headers.map_values(|h: &str| h@)
}

/// One row: each cell padded to its column's width and the cells joined by
/// two spaces (see `row_line`).
pub fn format_row(cells: &[String], widths: &[usize]) -> (r: String)
    ensures
        r@ == row_line(view_names(cells@), widths@),
{
    let ghost cs = view_names(cells@);
    let mut out = String::new();
    let mut i: usize = 0;
    assert(cs.take(0) =~= Seq::<Seq<char>>::empty());
    while i < cells.len()
        invariant
            i <= cells@.len(),
            cs == view_names(cells@),
            out@ == row_line(cs.take(i as int), widths@),
        decreases cells.len() - i,
    {
        let cell = cells[i].as_str();
        let w: usize = if i < widths.len() {
            widths[i]
        } else {
            cell.len()
        };
        let ghost before = out@;
        if i > 0 {
            out.append("  ");
        }
        let ghost mid = out@;
        out.append(cell);
        let count = cell.unicode_len();
        let mut k: usize = count;
        while k < w
            invariant
                count <= k,
                count == cell@.len(),
                k <= w || k == count,
                out@ == mid + cell@ + Seq::new((k - count) as nat, |_i: int| ' '),
            decreases w - k,
        {
            push_char(&mut out, ' ');
            assert(Seq::new((k + 1 - count) as nat, |_i: int| ' ') =~= Seq::new((k - count) as nat, |_i: int| ' ').push(' '));
            k = k + 1;
        }
        proof {
            let t = cs.take(i + 1);
            assert(t.drop_last() =~= cs.take(i as int));
            assert(t.last() == cell@);
            assert(t.len() - 1 == i);
            let p = pad(cell@, cell_width(widths@, i as int, cell@));
            if count < w {
                assert(p =~= cell@ + Seq::new((k - count) as nat, |_i: int| ' '));
            } else {
                assert(Seq::new((k - count) as nat, |_i: int| ' ') =~= Seq::<char>::empty());
                assert(p =~= cell@ + Seq::new((k - count) as nat, |_i: int| ' '));
            }
            if i == 0 {
                assert(out@ =~= p);
            } else {
                assert(out@ =~= before + "  "@ + p);
            }
        }
        i = i + 1;
    }
    assert(cs.take(cells.len() as int) =~= cs);
    out
}

/// Renders a column-aligned table: every column as wide as its widest cell
/// (header included), columns separated by two spaces, each line's trailing
/// whitespace trimmed and ended by a newline (see `table_text`).
pub fn render_table(headers: &[&str], rows: &[Vec<String>]) -> (r: String)
    ensures
        r@ == table_text(headers_view(headers@), rows_view(rows@)),
{
    let ghost hs = headers_view(headers@);
    let ghost rs = rows_view(rows@);
    let mut widths: Vec<usize> = Vec::new();
    let mut h: usize = 0;
    while h < headers.len()
        invariant
            h <= headers@.len(),
            hs == headers_view(headers@),
            widths@ == header_widths(hs).take(h as int),
        decreases headers.len() - h,
    {
        widths.push(headers[h].len());
        assert(widths@ =~= header_widths(hs).take(h + 1));
        h = h + 1;
    }
    assert(widths@ =~= header_widths(hs));
    assert(rs.take(0) =~= Seq::<Seq<Seq<char>>>::empty());
    let mut r: usize = 0;
    while r < rows.len()
        invariant
            r <= rows@.len(),
            hs == headers_view(headers@),
            rs == rows_view(rows@),
            widths@ == table_widths(hs, rs.take(r as int)),
        decreases rows.len() - r,
    {
        let row = &rows[r];
        let ghost before = widths@;
        let mut i: usize = 0;
        while i < row.len()
            invariant
                i <= row@.len(),
                widths@.len() == before.len(),
                forall|j: int| 0 <= j < before.len() ==> #[trigger] widths@[j] == if j < i {
                    widen(before, view_names(row@))[j]
                } else {
                    before[j]
                },
            decreases row.len() - i,
        {
            if i < widths.len() {
                let c = row[i].as_str().unicode_len();
                if widths[i] < c {
                    widths.set(i, c);
                }
            }
            i = i + 1;
        }
        proof {
            assert(rs.take(r + 1).drop_last() =~= rs.take(r as int));
            assert(rs.take(r + 1).last() == view_names(row@));
            assert(widths@ =~= widen(before, view_names(row@)));
        }
        r = r + 1;
    }
    assert(rs.take(rows.len() as int) =~= rs);
    let mut header_cells: Vec<String> = Vec::new();
    let mut k: usize = 0;
    while k < headers.len()
        invariant
            k <= headers@.len(),
            hs == headers_view(headers@),
            view_names(header_cells@) == hs.take(k as int),
        decreases headers.len() - k,
    {
        let ghost before = header_cells@;
        header_cells.push(headers[k].to_owned());
        assert(view_names(header_cells@) =~= view_names(before).push(headers@[k as int]@));
        assert(hs.take(k + 1) =~= hs.take(k as int).push(headers@[k as int]@));
        k = k + 1;
    }
    assert(hs.take(headers.len() as int) =~= hs);
    let mut out = String::new();
    let head = format_row(header_cells.as_slice(), widths.as_slice());
    out.append(trim_end(head.as_str()));
    push_char(&mut out, '\n');
    let ghost head_text = out@;
    let mut j: usize = 0;
    assert(head_text + body_text(rs.take(0), widths@) =~= head_text);
    while j < rows.len()
        invariant
            j <= rows@.len(),
            rs == rows_view(rows@),
            out@ == head_text + body_text(rs.take(j as int), widths@),
        decreases rows.len() - j,
    {
        let line = format_row(rows[j].as_slice(), widths.as_slice());
        out.append(trim_end(line.as_str()));
        push_char(&mut out, '\n');
        proof {
            assert(rs.take(j + 1).drop_last() =~= rs.take(j as int));
            assert(rs.take(j + 1).last() == view_names(rows@[j as int]@));
        }
        j = j + 1;
    }
    assert(rs.take(rows.len() as int) =~= rs);
    out
}

// ---------------------------------------------------------------------------
// No trailing whitespace
// ---------------------------------------------------------------------------

/// The text holds no line break.
pub open spec fn no_newline(s: Seq<char>) -> bool {
    forall|i: int| 0 <= i < s.len() ==> #[trigger] s[i] != '\n'
}

/// No line of the text ends in whitespace: the character before each line
/// break is another line break or not whitespace.
pub open spec fn lines_end_clean(s: Seq<char>) -> bool {
    forall|i: int, j: int|
        #![trigger s[i], s[j]]
        0 <= j && j + 1 == i && i < s.len() && s[i] == '\n' ==> s[j] == '\n' || !is_ws(s[j])
}

proof fn lemma_row_line_no_newline(cells: Seq<Seq<char>>, widths: Seq<usize>)
    requires
        forall|c: int| 0 <= c < cells.len() ==> no_newline(#[trigger] cells[c]),
    ensures
        no_newline(row_line(cells, widths)),
    decreases cells.len(),
{
    if cells.len() > 0 {
        let i = cells.len() - 1;
        let cell = pad(cells[i], cell_width(widths, i, cells[i]));
        assert(no_newline(cells[i]));
        assert(no_newline(cell));
        if cells.len() > 1 {
            lemma_row_line_no_newline(cells.drop_last(), widths);
            let r = row_line(cells.drop_last(), widths) + "  "@ + cell;
            assert forall|k: int| 0 <= k < r.len() implies #[trigger] r[k] != '\n' by {
                reveal_strlit("  ");
                let a = row_line(cells.drop_last(), widths);
                if k < a.len() {
                    assert(r[k] == a[k]);
                } else if k < a.len() + 2 {
                    assert(r[k] == ' ');
                } else {
                    assert(r[k] == cell[k - a.len() - 2]);
                }
            }
        }
    }
}

/// A trimmed line without line breaks, then a line break, keeps a clean
/// text clean.
proof fn lemma_append_line(a: Seq<char>, t: Seq<char>)
    requires
        lines_end_clean(a),
        a.len() == 0 || a.last() == '\n',
        no_newline(t),
        t.len() == 0 || !is_ws(t.last()),
    ensures
        lines_end_clean(a + t + seq!['\n']),
        (a + t + seq!['\n']).last() == '\n',
{
    let r = a + t + seq!['\n'];
    assert forall|i: int, j: int|
        #![trigger r[i], r[j]]
        0 <= j && j + 1 == i && i < r.len() && r[i] == '\n' implies r[j] == '\n' || !is_ws(r[j]) by {
        if i < a.len() {
            assert(r[i] == a[i] && r[j] == a[j]);
        } else if i < a.len() + t.len() {
            assert(r[i] == t[i - a.len()]);
        } else if t.len() > 0 {
            assert(r[j] == t.last());
        } else {
            assert(r[j] == a.last());
        }
    }
}

proof fn lemma_trimmed_line(s: Seq<char>)
    requires
        no_newline(s),
    ensures
        no_newline(trim_end_seq(s)),
        trim_end_seq(s).len() == 0 || !is_ws(trim_end_seq(s).last()),
{
    crate::strings::lemma_ws_suffix_bound(s);
    let t = trim_end_seq(s);
    assert forall|k: int| 0 <= k < t.len() implies #[trigger] t[k] != '\n' by {
        assert(t[k] == s[k]);
    }
}

proof fn lemma_body_clean(prefix: Seq<char>, rows: Seq<Seq<Seq<char>>>, widths: Seq<usize>)
    requires
        lines_end_clean(prefix),
        prefix.len() == 0 || prefix.last() == '\n',
        forall|r: int, c: int| 0 <= r < rows.len() && 0 <= c < rows[r].len() ==> no_newline(#[trigger] rows[r][c]),
    ensures
        lines_end_clean(prefix + body_text(rows, widths)),
        (prefix + body_text(rows, widths)).len() == 0 || (prefix + body_text(rows, widths)).last() == '\n',
    decreases rows.len(),
{
    if rows.len() == 0 {
        assert(prefix + body_text(rows, widths) =~= prefix);
    } else {
        let init = rows.drop_last();
        assert forall|r: int, c: int| 0 <= r < init.len() && 0 <= c < init[r].len() implies no_newline(
            #[trigger] init[r][c],
        ) by {
            assert(init[r] == rows[r]);
        }
        lemma_body_clean(prefix, init, widths);
        let last = rows.last();
        assert forall|c: int| 0 <= c < last.len() implies no_newline(#[trigger] last[c]) by {
            assert(last == rows[rows.len() - 1]);
        }
        lemma_row_line_no_newline(last, widths);
        lemma_trimmed_line(row_line(last, widths));
        let a = prefix + body_text(init, widths);
        let t = trim_end_seq(row_line(last, widths));
        lemma_append_line(a, t);
        assert(prefix + body_text(rows, widths) =~= a + t + seq!['\n']);
    }
}

/// No line of a rendered table ends in whitespace, provided no header or
/// cell holds a line break.
pub proof fn lemma_table_lines_trimmed(headers: Seq<Seq<char>>, rows: Seq<Seq<Seq<char>>>)
    requires
        forall|h: int| 0 <= h < headers.len() ==> no_newline(#[trigger] headers[h]),
        forall|r: int, c: int| 0 <= r < rows.len() && 0 <= c < rows[r].len() ==> no_newline(#[trigger] rows[r][c]),
    ensures
        lines_end_clean(table_text(headers, rows)),
{
    let ws = table_widths(headers, rows);
    lemma_row_line_no_newline(headers, ws);
    lemma_trimmed_line(row_line(headers, ws));
    let head = trim_end_seq(row_line(headers, ws));
    let e = Seq::<char>::empty();
    assert(lines_end_clean(e));
    lemma_append_line(e, head);
    assert(e + head + seq!['\n'] =~= head + seq!['\n']);
    lemma_body_clean(head + seq!['\n'], rows, ws);
}

// ---------------------------------------------------------------------------
// Column alignment
// ---------------------------------------------------------------------------

/// Where column `j` starts in a line: the widths of the columns before it,
/// each followed by the two-space gap.
pub open spec fn column_start(widths: Seq<usize>, j: int) -> int
    decreases j,
{
    if j <= 0 {
        0
    } else {
        column_start(widths, j - 1) + widths[j - 1] + 2
    }
}

proof fn lemma_byte_len_at_least_chars(s: Seq<char>)
    ensures
        byte_len(s) >= s.len(),
    decreases s.len(),
{
    if s.len() > 0 {
        lemma_byte_len_at_least_chars(s.drop_first());
    }
}

/// Cells that fit their columns are laid out at the column starts.
proof fn lemma_row_line_layout(cells: Seq<Seq<char>>, widths: Seq<usize>)
    requires
        cells.len() <= widths.len(),
        forall|k: int| 0 <= k < cells.len() ==> (#[trigger] cells[k]).len() <= widths[k],
    ensures
        cells.len() > 0 ==> row_line(cells, widths).len() == column_start(widths, cells.len() as int) - 2,
        forall|j: int|
            0 <= j < cells.len() ==> row_line(cells, widths).subrange(
                column_start(widths, j),
                column_start(widths, j) + cells[j].len(),
            ) == #[trigger] cells[j],
    decreases cells.len(),
{
    if cells.len() > 0 {
        let n = cells.len() - 1;
        let init = cells.drop_last();
        assert forall|k: int| 0 <= k < init.len() implies (#[trigger] init[k]).len() <= widths[k] by {
            assert(init[k] == cells[k]);
        }
        lemma_row_line_layout(init, widths);
        let cell = pad(cells[n], cell_width(widths, n, cells[n]));
        assert(cells[n].len() <= widths[n]);
        assert(cell.len() == widths[n]);
        assert(cell.subrange(0, cells[n].len() as int) =~= cells[n]);
        let line = row_line(cells, widths);
        if n == 0 {
            assert(line == cell);
        } else {
            reveal_strlit("  ");
            let a = row_line(init, widths);
            assert(line == a + "  "@ + cell);
            assert(a.len() == column_start(widths, n) - 2);
            assert forall|j: int| 0 <= j < cells.len() implies line.subrange(
                column_start(widths, j),
                column_start(widths, j) + cells[j].len(),
            ) == #[trigger] cells[j] by {
                if j < n {
                    assert(init[j] == cells[j]);
                    lemma_column_start_mono(widths, j + 1, n);
                    assert(column_start(widths, j + 1) == column_start(widths, j) + widths[j] + 2);
                    assert(column_start(widths, j) + cells[j].len() <= a.len());
                    assert(column_start(widths, j) >= 0) by {
                        lemma_column_start_nonneg(widths, j);
                    }
                    assert(line.subrange(column_start(widths, j), column_start(widths, j) + cells[j].len())
                        =~= a.subrange(column_start(widths, j), column_start(widths, j) + cells[j].len()));
                } else {
                    assert(line.subrange(column_start(widths, j), column_start(widths, j) + cells[j].len())
                        =~= cell.subrange(0, cells[n].len() as int));
                }
            }
        }
    }
}

proof fn lemma_column_start_nonneg(widths: Seq<usize>, j: int)
    ensures
        column_start(widths, j) >= 0,
    decreases j,
{
    if j > 0 {
        lemma_column_start_nonneg(widths, j - 1);
    }
}

proof fn lemma_column_start_mono(widths: Seq<usize>, i: int, j: int)
    requires
        0 <= i <= j <= widths.len(),
    ensures
        column_start(widths, i) + 2 * (j - i) <= column_start(widths, j),
        i > 0 ==> column_start(widths, i - 1) + widths[i - 1] + 2 <= column_start(widths, j),
    decreases j - i,
{
    if i < j {
        lemma_column_start_mono(widths, i, j - 1);
    }
}

/// The column widths fit every header (given its length in bytes fits a
/// `usize`) and every row cell under a header (given its length fits).
proof fn lemma_widths_fit(headers: Seq<Seq<char>>, rows: Seq<Seq<Seq<char>>>)
    requires
        forall|h: int| 0 <= h < headers.len() ==> byte_len(#[trigger] headers[h]) <= usize::MAX,
        forall|r: int, c: int| 0 <= r < rows.len() && 0 <= c < rows[r].len() ==> (#[trigger] rows[r][c]).len() <= usize::MAX,
    ensures
        table_widths(headers, rows).len() == headers.len(),
        forall|h: int| 0 <= h < headers.len() ==> (#[trigger] headers[h]).len() <= table_widths(headers, rows)[h],
        forall|r: int, c: int|
            0 <= r < rows.len() && 0 <= c < rows[r].len() && c < headers.len() ==> (#[trigger] rows[r][c]).len()
                <= table_widths(headers, rows)[c],
    decreases rows.len(),
{
    if rows.len() == 0 {
        assert forall|h: int| 0 <= h < headers.len() implies (#[trigger] headers[h]).len() <= table_widths(headers, rows)[h] by {
            lemma_byte_len_at_least_chars(headers[h]);
        }
    } else {
        let init = rows.drop_last();
        assert forall|r: int, c: int| 0 <= r < init.len() && 0 <= c < init[r].len() implies (#[trigger] init[r][c]).len() <= usize::MAX by {
            assert(init[r] == rows[r]);
        }
        lemma_widths_fit(headers, init);
        let before = table_widths(headers, init);
        let ws = table_widths(headers, rows);
        assert forall|r: int, c: int|
            0 <= r < rows.len() && 0 <= c < rows[r].len() && c < headers.len() implies (#[trigger] rows[r][c]).len() <= ws[c] by {
            if r < init.len() {
                assert(init[r] == rows[r]);
                assert(rows[r][c].len() <= before[c]);
            } else {
                assert(rows.last() == rows[r]);
            }
        }
    }
}

/// In a rendered table every column starts at the same offset on every
/// line: with the table's column widths, cell `j` of the header (`r` is -1)
/// or of row `r` begins at `column_start(widths, j)` in that line before its
/// trailing whitespace is trimmed (see `table_text`). Lengths must fit a
/// `usize`, as the widths do.
pub proof fn lemma_columns_aligned(headers: Seq<Seq<char>>, rows: Seq<Seq<Seq<char>>>, r: int, j: int)
    requires
        forall|h: int| 0 <= h < headers.len() ==> byte_len(#[trigger] headers[h]) <= usize::MAX,
        forall|a: int, c: int| 0 <= a < rows.len() && 0 <= c < rows[a].len() ==> (#[trigger] rows[a][c]).len() <= usize::MAX,
        -1 <= r < rows.len(),
        0 <= j < headers.len(),
        r >= 0 ==> j < rows[r].len(),
    ensures
        ({
            let ws = table_widths(headers, rows);
            let line = if r < 0 {
                headers
            } else {
                rows[r]
            };
            row_line(line, ws).subrange(column_start(ws, j), column_start(ws, j) + line[j].len()) == line[j]
        }),
{
    lemma_widths_fit(headers, rows);
    let ws = table_widths(headers, rows);
    if r < 0 {
        lemma_row_line_layout(headers, ws);
    } else {
        let k = if rows[r].len() < headers.len() {
            rows[r].len() as int
        } else {
            headers.len() as int
        };
        let cells = rows[r].take(k);
        assert forall|c: int| 0 <= c < cells.len() implies (#[trigger] cells[c]).len() <= ws[c] by {
            assert(cells[c] == rows[r][c]);
        }
        lemma_row_line_layout(cells, ws);
        lemma_row_line_prefix(rows[r], ws, k);
        assert(cells[j] == rows[r][j]);
        let line = row_line(rows[r], ws);
        let short = row_line(cells, ws);
        lemma_column_start_mono(ws, j + 1, k);
        lemma_column_start_nonneg(ws, j);
        assert(column_start(ws, j + 1) == column_start(ws, j) + ws[j] + 2);
        assert(short.len() == column_start(ws, k) - 2);
        assert(column_start(ws, j) + rows[r][j].len() <= short.len());
        assert(line.take(short.len() as int) == short);
        assert(line.subrange(column_start(ws, j), column_start(ws, j) + rows[r][j].len())
            =~= short.subrange(column_start(ws, j), column_start(ws, j) + rows[r][j].len()));
    }
}

/// The line for the first `k` cells is a prefix of the whole line.
proof fn lemma_row_line_prefix(cells: Seq<Seq<char>>, widths: Seq<usize>, k: int)
    requires
        0 < k <= cells.len(),
    ensures
        row_line(cells.take(k), widths).len() <= row_line(cells, widths).len(),
        row_line(cells, widths).take(row_line(cells.take(k), widths).len() as int) == row_line(
            cells.take(k),
            widths,
        ),
    decreases cells.len(),
{
    if k < cells.len() {
        let init = cells.drop_last();
        assert(init.take(k) =~= cells.take(k));
        lemma_row_line_prefix(init, widths, k);
        reveal_strlit("  ");
        let a = row_line(init, widths);
        let n = cells.len() - 1;
        let line = row_line(cells, widths);
        assert(line == a + "  "@ + pad(cells[n], cell_width(widths, n, cells[n])));
        let p = row_line(cells.take(k), widths);
        assert(line.take(p.len() as int) =~= a.take(p.len() as int));
    } else {
        assert(cells.take(k) =~= cells);
    }
}

} // verus!
