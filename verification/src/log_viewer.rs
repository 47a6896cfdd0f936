//! The build-log viewer: its scroll position and the mouse selection over
//! the log's lines.
use vstd::prelude::*;

use crate::names::view_names;
use crate::strings::{chars_of, contains, push_char, to_lowercase};

verus! {

/// Largest scroll offset that still fills the view: `total - visible`, or 0.
pub open spec fn max_offset(total: int, visible: int) -> int {
    if total > visible {
        total - visible
    } else {
        0
    }
}

/// `x` held inside `[lo, hi]`.
pub open spec fn clamp(x: int, lo: int, hi: int) -> int {
    if x < lo {
        lo
    } else if x > hi {
        hi
    } else {
        x
    }
}

/// Scroll state of the log viewer.
pub struct LogViewer {
    pub scroll_offset: usize,
    pub total_lines: usize,
}

impl Clone for LogViewer {
    fn clone(&self) -> (r: Self)
        ensures
            r == *self,
    {
        LogViewer { scroll_offset: self.scroll_offset, total_lines: self.total_lines }
    }
}

impl Default for LogViewer {
    fn default() -> (r: Self)
        ensures
            r.scroll_offset == 0,
            r.total_lines == 0,
    {
        LogViewer::new()
    }
}

impl LogViewer {
    /// A viewer at the top of an empty log.
    pub fn new() -> (r: Self)
        ensures
            r.scroll_offset == 0,
            r.total_lines == 0,
    {
        LogViewer { scroll_offset: 0, total_lines: 0 }
    }

    /// Moves the view by `delta` lines, kept between the top and the last
    /// full page.
    pub fn scroll(&mut self, delta: i32, visible_height: usize)
        requires
            old(self).total_lines <= i64::MAX,
            old(self).scroll_offset <= i64::MAX,
            old(self).scroll_offset + delta <= i64::MAX,
        ensures
            final(self).total_lines == old(self).total_lines,
            final(self).scroll_offset == clamp(
                old(self).scroll_offset + delta,
                0,
                max_offset(old(self).total_lines as int, visible_height as int),
            ),
    {
        let max_off: usize = if self.total_lines > visible_height {
            self.total_lines - visible_height
        } else {
            0
        };
        let raw: i64 = (self.scroll_offset as i64) + (delta as i64);
        let new_offset: usize = if raw < 0 {
            0
        } else if raw > max_off as i64 {
            max_off
        } else {
            raw as usize
        };
        self.scroll_offset = new_offset;
    }

    /// Moves the view up by a page, stopping at the top.
    pub fn page_up(&mut self, page_size: usize)
        ensures
            final(self).total_lines == old(self).total_lines,
            final(self).scroll_offset == (if old(self).scroll_offset > page_size {
                old(self).scroll_offset - page_size
            } else {
                0
            }),
    {
        self.scroll_offset = if self.scroll_offset > page_size {
            self.scroll_offset - page_size
        } else {
            0
        };
    }

    /// Moves the view down by a page, stopping at the last full page.
    pub fn page_down(&mut self, page_size: usize, visible_height: usize)
        requires
            old(self).scroll_offset + page_size <= usize::MAX,
        ensures
            final(self).total_lines == old(self).total_lines,
            final(self).scroll_offset == (if old(self).scroll_offset + page_size <= max_offset(
                old(self).total_lines as int,
                visible_height as int,
            ) {
                old(self).scroll_offset + page_size
            } else {
                max_offset(old(self).total_lines as int, visible_height as int)
            }),
    {
        let max_off: usize = if self.total_lines > visible_height {
            self.total_lines - visible_height
        } else {
            0
        };
        let down = self.scroll_offset + page_size;
        self.scroll_offset = if down <= max_off {
            down
        } else {
            max_off
        };
    }

    /// Jumps to the top.
    pub fn home(&mut self)
        ensures
            final(self).total_lines == old(self).total_lines,
            final(self).scroll_offset == 0,
    {
        self.scroll_offset = 0;
    }

    /// Jumps to the last full page.
    pub fn end(&mut self, visible_height: usize)
        ensures
            final(self).total_lines == old(self).total_lines,
            final(self).scroll_offset == max_offset(
                old(self).total_lines as int,
                visible_height as int,
            ),
    {
        self.scroll_offset = if self.total_lines > visible_height {
            self.total_lines - visible_height
        } else {
            0
        };
    }

    /// Records how many lines the log has before a frame is drawn, and pulls
    /// the view back when it would run past the end.
    pub fn fit(&mut self, total_lines: usize, visible_height: usize)
        requires
            old(self).scroll_offset + visible_height <= usize::MAX,
        ensures
            final(self).total_lines == total_lines,
            final(self).scroll_offset == (if old(self).scroll_offset + visible_height
                > total_lines {
                max_offset(total_lines as int, visible_height as int)
            } else {
                old(self).scroll_offset as int
            }),
    {
        self.total_lines = total_lines;
        if self.scroll_offset + visible_height > self.total_lines {
            if self.total_lines > visible_height {
                self.scroll_offset = self.total_lines - visible_height;
            } else {
                self.scroll_offset = 0;
            }
        }
    }
}

// ---------------------------------------------------------------------------
// Selection
// ---------------------------------------------------------------------------

/// `a` comes no later than `c` in row-major order.
pub open spec fn pos_le(a: (usize, usize), c: (usize, usize)) -> bool {
    a.0 < c.0 || (a.0 == c.0 && a.1 <= c.1)
}

/// A mouse-driven selection over the log's lines. Positions are
/// (line index, character index); `anchor` is where the button went down,
/// `cursor` follows the drag.
pub struct LogSelection {
    pub anchor: Option<(usize, usize)>,
    pub cursor: Option<(usize, usize)>,
}

impl Clone for LogSelection {
    fn clone(&self) -> (r: Self)
        ensures
            r == *self,
    {
        LogSelection { anchor: self.anchor, cursor: self.cursor }
    }
}

impl Default for LogSelection {
    fn default() -> (r: Self)
        ensures
            r.anchor is None,
            r.cursor is None,
    {
        LogSelection { anchor: None, cursor: None }
    }
}

impl LogSelection {
    /// The selection in row-major order, when both ends are set.
    pub open spec fn spec_range(&self) -> Option<((usize, usize), (usize, usize))> {
        match (self.anchor, self.cursor) {
            (Some(a), Some(c)) => Some(
                if pos_le(a, c) {
                    (a, c)
                } else {
                    (c, a)
                },
            ),
            _ => None,
        }
    }

    /// A non-empty drag is under way or done.
    pub open spec fn spec_active(&self) -> bool {
        match (self.anchor, self.cursor) {
            (Some(a), Some(c)) => a != c,
            _ => false,
        }
    }

    /// Columns highlighted on `row`; `usize::MAX` stands for the end of the
    /// line.
    pub open spec fn spec_cols(&self, row: usize) -> Option<(usize, usize)> {
        match self.spec_range() {
            None => None,
            Some(((r1, c1), (r2, c2))) => if row < r1 || row > r2 {
                None
            } else if r1 == r2 {
                Some((c1, c2))
            } else if row == r1 {
                Some((c1, usize::MAX))
            } else if row == r2 {
                Some((0, c2))
            } else {
                Some((0, usize::MAX))
            },
        }
    }

    /// Starts a selection at a position.
    pub fn start(&mut self, row: usize, col: usize)
        ensures
            final(self).anchor == Some((row, col)),
            final(self).cursor == Some((row, col)),
    {
        self.anchor = Some((row, col));
        self.cursor = Some((row, col));
    }

    /// Moves the dragged end, when a selection was started.
    pub fn update(&mut self, row: usize, col: usize)
        ensures
            final(self).anchor == old(self).anchor,
            final(self).cursor == (if old(self).anchor is Some {
                Some((row, col))
            } else {
                old(self).cursor
            }),
    {
        if self.anchor.is_some() {
            self.cursor = Some((row, col));
        }
    }

    /// Drops the selection.
    pub fn clear(&mut self)
        ensures
            final(self).anchor is None,
            final(self).cursor is None,
    {
        self.anchor = None;
        self.cursor = None;
    }

    /// Whether the two ends differ.
    pub fn is_active(&self) -> (r: bool)
        ensures
            r == self.spec_active(),
    {
        match (self.anchor, self.cursor) {
            (Some(a), Some(c)) => a.0 != c.0 || a.1 != c.1,
            _ => false,
        }
    }

    /// The two ends in row-major order.
    pub fn range(&self) -> (r: Option<((usize, usize), (usize, usize))>)
        ensures
            r == self.spec_range(),
    {
        match (self.anchor, self.cursor) {
            (Some(a), Some(c)) => {
                if a.0 < c.0 || (a.0 == c.0 && a.1 <= c.1) {
                    Some((a, c))
                } else {
                    Some((c, a))
                }
            },
            _ => None,
        }
    }

    /// Column range to highlight on `row`, or `None` outside the selection.
    /// `usize::MAX` stands for the end of the line.
    pub fn cols_for_row(&self, row: usize) -> (r: Option<(usize, usize)>)
        ensures
            r == self.spec_cols(row),
    {
        let ((r1, c1), (r2, c2)) = match self.range() {
            Some(p) => p,
            None => return None,
        };
        if row < r1 || row > r2 {
            return None;
        }
        if r1 == r2 {
            Some((c1, c2))
        } else if row == r1 {
            Some((c1, usize::MAX))
        } else if row == r2 {
            Some((0, c2))
        } else {
            Some((0, usize::MAX))
        }
    }

    /// The selected text: the selected part of each line, joined by `\n`.
    pub fn extract(&self, lines: &[String]) -> (r: String)
        ensures
            r@ == selected_text(*self, view_names(lines@)),
    {
        let ghost ls = view_names(lines@);
        let (a, c) = match self.range() {
            Some(p) => p,
            None => return String::new(),
        };
        let (r1, c1) = a;
        let (r2, c2) = c;
        let mut out = String::new();
        let mut row: usize = r1;
        let stop: usize = if r2 < lines.len() {
            r2 + 1
        } else {
            lines.len()
        };
        proof {
            lemma_extract_before_start(ls, a, c, r1 as int);
        }
        while row < stop
            invariant
                r1 == a.0,
                c1 == a.1,
                r2 == c.0,
                c2 == c.1,
                pos_le(a, c),
                ls == view_names(lines@),
                stop <= lines@.len(),
                stop <= r2 + 1,
                r1 <= row,
                row <= stop || row == r1,
                out@ == extract_upto(ls, a, c, row as int),
            decreases stop - row,
        {
            let line = &lines[row];
            let chars = chars_of(line.as_str());
            let len = chars.len();
            let (cs, ce) = if r1 == r2 {
                (if c1 < len {
                    c1
                } else {
                    len
                }, if c2 < len {
                    c2
                } else {
                    len
                })
            } else if row == r1 {
                (if c1 < len {
                    c1
                } else {
                    len
                }, len)
            } else if row == r2 {
                (0, if c2 < len {
                    c2
                } else {
                    len
                })
            } else {
                (0, len)
            };
            assert(ls[row as int] == lines@[row as int]@);
            if row > r1 {
                push_char(&mut out, '\n');
            }
            if cs < ce {
                let mut k: usize = cs;
                let ghost base = out@;
                while k < ce
                    invariant
                        cs <= k <= ce,
                        ce <= chars@.len(),
                        out@ == base + chars@.subrange(cs as int, k as int),
                    decreases ce - k,
                {
                    push_char(&mut out, chars[k]);
                    assert(chars@.subrange(cs as int, k + 1) =~= chars@.subrange(
                        cs as int,
                        k as int,
                    ).push(chars@[k as int]));
                    k = k + 1;
                }
            }
            assert(out@ == extract_upto(ls, a, c, row + 1));
            row = row + 1;
        }
        proof {
            if row < r2 + 1 {
                lemma_extract_past_lines(ls, a, c, row as int, r2 + 1);
            }
        }
        out
    }
}

/// Character range of a line of length `len` that the selection `a..c`
/// covers on `row`.
pub open spec fn row_span(a: (usize, usize), c: (usize, usize), row: int, len: int) -> (int, int) {
    let lo1 = if a.1 < len {
        a.1 as int
    } else {
        len
    };
    let hi2 = if c.1 < len {
        c.1 as int
    } else {
        len
    };
    if a.0 == c.0 {
        (lo1, hi2)
    } else if row == a.0 {
        (lo1, len)
    } else if row == c.0 {
        (0, hi2)
    } else {
        (0, len)
    }
}

/// Text selected from the rows `a.0 .. upto`: the selected part of each
/// row, empty parts included, joined by `\n` (rows past the last line give
/// nothing).
pub open spec fn extract_upto(
    lines: Seq<Seq<char>>,
    a: (usize, usize),
    c: (usize, usize),
    upto: int,
) -> Seq<char>
    decreases upto - a.0,
{
    if upto <= a.0 {
        Seq::empty()
    } else {
        let prev = extract_upto(lines, a, c, upto - 1);
        let row = upto - 1;
        if row >= lines.len() {
            prev
        } else {
            let (cs, ce) = row_span(a, c, row, lines[row].len() as int);
            let piece = if cs < ce {
                lines[row].subrange(cs, ce)
            } else {
                Seq::empty()
            };
            if row == a.0 {
                piece
            } else {
                prev + seq!['\n'] + piece
            }
        }
    }
}

/// The range of a selection runs from its earlier end to its later end,
/// and consists of the anchor and the cursor.
pub proof fn lemma_range_ordered(sel: LogSelection)
    ensures
        match sel.spec_range() {
            Some((a, c)) => pos_le(a, c) && ((sel.anchor == Some(a) && sel.cursor == Some(c)) || (
            sel.anchor == Some(c) && sel.cursor == Some(a))),
            None => sel.anchor is None || sel.cursor is None,
        },
{
}

/// The text a selection covers in `lines`: empty without both ends.
pub open spec fn selected_text(sel: LogSelection, lines: Seq<Seq<char>>) -> Seq<char> {
    match sel.spec_range() {
        None => Seq::<char>::empty(),
        Some((a, c)) => extract_upto(lines, a, c, c.0 + 1),
    }
}

/// A selection that is not active (no drag yet, or both ends on the same
/// spot) selects no text, whatever the lines.
pub proof fn lemma_inactive_selects_nothing(sel: LogSelection, lines: Seq<Seq<char>>)
    requires
        !sel.spec_active(),
    ensures
        selected_text(sel, lines) == Seq::<char>::empty(),
{
    match sel.spec_range() {
        None => {},
        Some((a, c)) => {
            assert(a == c);
            let row = c.0 as int;
            if row < lines.len() {
                let (cs, ce) = row_span(a, c, row, lines[row].len() as int);
                assert(cs == ce);
            }
            assert(extract_upto(lines, a, c, c.0 + 1) == extract_upto(lines, a, c, c.0 as int));
            lemma_extract_before_start(lines, a, c, c.0 as int);
        },
    }
}

proof fn lemma_extract_before_start(
    lines: Seq<Seq<char>>,
    a: (usize, usize),
    c: (usize, usize),
    upto: int,
)
    requires
        upto <= a.0,
    ensures
        extract_upto(lines, a, c, upto) == Seq::<char>::empty(),
{
}

proof fn lemma_extract_past_lines(
    lines: Seq<Seq<char>>,
    a: (usize, usize),
    c: (usize, usize),
    from: int,
    upto: int,
)
    requires
        lines.len() <= from <= upto,
    ensures
        extract_upto(lines, a, c, upto) == extract_upto(lines, a, c, from),
    decreases upto - from,
{
    if upto > from {
        lemma_extract_past_lines(lines, a, c, from, upto - 1);
    }
}

// ---------------------------------------------------------------------------
// What a frame shows
// ---------------------------------------------------------------------------

/// The highlighted character range of a line of length `len` on `row`,
/// clamped to the line; `None` when nothing of it is highlighted.
pub open spec fn highlight(sel: LogSelection, row: usize, len: int) -> Option<(int, int)> {
    match sel.spec_cols(row) {
        None => None,
        Some((lo, hi)) => {
            let cs = if lo < len {
                lo as int
            } else {
                len
            };
            let ce = if hi < len {
                hi as int
            } else {
                len
            };
            if cs >= ce || len == 0 {
                None
            } else {
                Some((cs, ce))
            }
        },
    }
}

/// The characters of `line` (shown on `row`) to draw highlighted, or `None`
/// when the line is drawn plainly.
pub fn highlight_span(line: &str, row: usize, selection: &LogSelection) -> (r: Option<(usize, usize)>)
    ensures
        match r {
            None => highlight(*selection, row, line@.len() as int) is None,
            Some((cs, ce)) => highlight(*selection, row, line@.len() as int) == Some(
                (cs as int, ce as int),
            ),
        },
{
    let (lo, hi) = match selection.cols_for_row(row) {
        Some(c) => c,
        None => return None,
    };
    let len = line.unicode_len();
    let cs = if lo < len {
        lo
    } else {
        len
    };
    let ce = if hi < len {
        hi
    } else {
        len
    };
    if cs >= ce || len == 0 {
        None
    } else {
        Some((cs, ce))
    }
}

/// A log line is drawn in red when it mentions an error in any letter case.
pub fn is_error_line(line: &str) -> (r: bool)
    ensures
        r == crate::strings::seq_contains(crate::strings::lowercase(line@), "error"@),
{
    let lower = to_lowercase(line);
    contains(lower.as_str(), "error")
}

/// The transcript printed to the terminal's scrollback: a title banner, each
/// line, and a closing hint.
pub open spec fn scrollback_text(title: Seq<char>, lines: Seq<Seq<char>>) -> Seq<char> {
    "\n=== "@ + title + " ===\n"@ + lines_text(lines)
        + "\n--- Use your terminal's text selection to copy. Press any key to return ---\n"@
}

/// Each line followed by a newline.
pub open spec fn lines_text(lines: Seq<Seq<char>>) -> Seq<char>
    decreases lines.len(),
{
    if lines.len() == 0 {
        Seq::empty()
    } else {
        lines_text(lines.drop_last()) + lines.last() + seq!['\n']
    }
}

/// Writes the log to `out` for the terminal's scrollback (see
/// `scrollback_text`).
pub fn print_to_scrollback(out: &mut String, title: &str, lines: &[String])
    ensures
        final(out)@ == old(out)@ + scrollback_text(title@, view_names(lines@)),
{
    let ghost ls = view_names(lines@);
    let ghost start = out@;
    out.append("\n=== ");
    out.append(title);
    out.append(" ===\n");
    let ghost head = out@;
    let mut i: usize = 0;
    assert(ls.take(0) =~= Seq::<String>::empty().map_values(|s: String| s@));
    assert(head + lines_text(ls.take(0)) =~= head);
    while i < lines.len()
        invariant
            i <= lines.len(),
            ls == view_names(lines@),
            out@ == head + lines_text(ls.take(i as int)),
        decreases lines.len() - i,
    {
        out.append(lines[i].as_str());
        push_char(out, '\n');
        assert(ls.take(i + 1).drop_last() =~= ls.take(i as int));
        assert(ls.take(i + 1).last() == lines@[i as int]@);
        i = i + 1;
    }
    assert(ls.take(lines.len() as int) =~= ls);
    out.append("\n--- Use your terminal's text selection to copy. Press any key to return ---\n");
    assert(out@ =~= start + scrollback_text(title@, ls));
}

} // verus!
