//! What the interactive screen shows, as text and colour tags: the image
//! table's cells and columns, the status line, the search bar and the lines
//! of the two popups. Drawing them is left to the terminal front end.
use vstd::prelude::*;

use crate::models::{ImageTableRow, ManagedImage, ManagedImageV, RowV, ScanStatus, ScanStatusV};
use crate::names::{view_names, NameMap, NameSet};
use crate::popup::{entries_view, Action, PopupEntry};

verus! {

/// How a piece of text is coloured.
#[derive(Debug, PartialEq, Eq, Structural, Clone, Copy)]
pub enum Tone {
    Plain,
    Cyan,
    Yellow,
    Green,
    Red,
    DarkGray,
    /// Black on white: the entry under the cursor.
    Inverted,
}

/// A piece of text and its colour.
pub struct Cell {
    pub text: String,
    pub tone: Tone,
}

impl View for Cell {
    type V = (Seq<char>, Tone);

    open spec fn view(&self) -> (Seq<char>, Tone) {
        (self.text@, self.tone)
    }
}

pub open spec fn cells_view(cs: Seq<Cell>) -> Seq<(Seq<char>, Tone)> {
    cs.map_values(|c: Cell| c@)
}

fn cell(text: &str, tone: Tone) -> (r: Cell)
    ensures
        r@ == (text@, tone),
{
    Cell { text: text.to_owned(), tone }
}

fn push_cell(out: &mut Vec<Cell>, c: Cell)
    ensures
        cells_view(final(out)@) == cells_view(old(out)@).push(c@),
{
    let ghost before = out@;
    out.push(c);
    assert(cells_view(out@) =~= cells_view(before).push(c@));
}

// ---------------------------------------------------------------------------
// The image table
// ---------------------------------------------------------------------------

/// A server that reports nothing for a tarball: absent when its last scan
/// succeeded, unknown otherwise.
pub open spec fn absent_cell(status: Map<Seq<char>, ScanStatusV>, name: Seq<char>) -> (Seq<char>, Tone) {
    if status.contains_key(name) && status[name] is Succeeded {
        ("  ✗"@, Tone::Red)
    } else {
        ("  ?"@, Tone::DarkGray)
    }
}

/// A server's cell for a current image: what its presence entry says, or
/// else what the scan status says.
pub open spec fn presence_cell(
    presence: Map<Seq<char>, bool>,
    status: Map<Seq<char>, ScanStatusV>,
    name: Seq<char>,
) -> (Seq<char>, Tone) {
    if presence.contains_key(name) {
        if presence[name] {
            ("  ✓"@, Tone::Green)
        } else {
            ("  ✗"@, Tone::Red)
        }
    } else {
        absent_cell(status, name)
    }
}

/// A server's cell for a stale or unknown tarball: held (yellow), or as
/// `absent_cell` says.
pub open spec fn holder_cell(
    holders: Set<Seq<char>>,
    status: Map<Seq<char>, ScanStatusV>,
    name: Seq<char>,
) -> (Seq<char>, Tone) {
    if holders.contains(name) {
        ("  ✓"@, Tone::Yellow)
    } else {
        absent_cell(status, name)
    }
}

/// The staging column of a current image: building, built, or missing.
pub open spec fn local_cell(img: ManagedImageV) -> (Seq<char>, Tone) {
    if img.build_state is Building {
        ("  ⏳"@, Tone::Yellow)
    } else if img.local_tarball {
        ("  ✓"@, Tone::Green)
    } else {
        ("  ✗"@, Tone::Red)
    }
}

/// The cells of one table row: a label, the staging column, then one cell
/// per server in `names`.
pub open spec fn table_row_cells(
    r: RowV,
    names: Seq<Seq<char>>,
    status: Map<Seq<char>, ScanStatusV>,
) -> Seq<(Seq<char>, Tone)> {
    match r {
        RowV::Current(img) => {
            let label = img.name + "  "@ + img.version;
            let first = if img.build_state is Building {
                (label + "  ⏳"@, Tone::Yellow)
            } else {
                (label, Tone::Plain)
            };
            seq![first, local_cell(img)] + names.map_values(
                |n: Seq<char>| presence_cell(img.server_presence, status, n),
            )
        },
        RowV::Stale { family_name, version, servers } => seq![
            ("  "@ + family_name + "  "@ + version, Tone::DarkGray),
            ("  —"@, Tone::DarkGray),
        ] + names.map_values(|n: Seq<char>| holder_cell(servers, status, n)),
        RowV::Unknown { filename, servers } => seq![
            ("? "@ + filename, Tone::DarkGray),
            ("  —"@, Tone::DarkGray),
        ] + names.map_values(|n: Seq<char>| holder_cell(servers, status, n)),
    }
}

pub open spec fn status_view(m: NameMap<ScanStatus>) -> Map<Seq<char>, ScanStatusV> {
    m@.map_values(|s: ScanStatus| s@)
}

fn absent_server_cell(scan_status: &NameMap<ScanStatus>, name: &str) -> (r: Cell)
    requires
        scan_status.wf(),
    ensures
        r@ == absent_cell(status_view(*scan_status), name@),
{
    match scan_status.get(name) {
        Some(ScanStatus::Succeeded) => cell("  ✗", Tone::Red),
        _ => cell("  ?", Tone::DarkGray),
    }
}

/// Appends one cell per server for a current image's presence map.
fn push_presence_cells(
    out: &mut Vec<Cell>,
    presence: &NameMap<bool>,
    server_names: &[String],
    scan_status: &NameMap<ScanStatus>,
)
    requires
        presence.wf(),
        scan_status.wf(),
    ensures
        cells_view(final(out)@) == cells_view(old(out)@) + view_names(server_names@).map_values(
            |n: Seq<char>| presence_cell(presence@, status_view(*scan_status), n),
        ),
{
    let ghost names = view_names(server_names@);
    let ghost start = cells_view(out@);
    let ghost f = |n: Seq<char>| presence_cell(presence@, status_view(*scan_status), n);
    let mut i: usize = 0;
    assert(names.take(0).map_values(f) =~= Seq::<(Seq<char>, Tone)>::empty());
    assert(start + Seq::<(Seq<char>, Tone)>::empty() =~= start);
    while i < server_names.len()
        invariant
            i <= server_names@.len(),
            presence.wf(),
            scan_status.wf(),
            names == view_names(server_names@),
            f == (|n: Seq<char>| presence_cell(presence@, status_view(*scan_status), n)),
            cells_view(out@) == start + names.take(i as int).map_values(f),
        decreases server_names.len() - i,
    {
        let name = server_names[i].as_str();
        let c = match presence.get(name) {
            Some(true) => cell("  ✓", Tone::Green),
            Some(false) => cell("  ✗", Tone::Red),
            None => absent_server_cell(scan_status, name),
        };
        assert(c@ == f(names[i as int]));
        push_cell(out, c);
        assert(names.take(i + 1).map_values(f) =~= names.take(i as int).map_values(f).push(f(names[i as int])));
        i = i + 1;
    }
    assert(names.take(server_names.len() as int) =~= names);
}

/// Appends one cell per server for a tarball held by `holders`.
fn push_holder_cells(
    out: &mut Vec<Cell>,
    holders: &NameSet,
    server_names: &[String],
    scan_status: &NameMap<ScanStatus>,
)
    requires
        scan_status.wf(),
    ensures
        cells_view(final(out)@) == cells_view(old(out)@) + view_names(server_names@).map_values(
            |n: Seq<char>| holder_cell(holders@, status_view(*scan_status), n),
        ),
{
    let ghost names = view_names(server_names@);
    let ghost start = cells_view(out@);
    let ghost f = |n: Seq<char>| holder_cell(holders@, status_view(*scan_status), n);
    let mut i: usize = 0;
    assert(names.take(0).map_values(f) =~= Seq::<(Seq<char>, Tone)>::empty());
    assert(start + Seq::<(Seq<char>, Tone)>::empty() =~= start);
    while i < server_names.len()
        invariant
            i <= server_names@.len(),
            scan_status.wf(),
            names == view_names(server_names@),
            f == (|n: Seq<char>| holder_cell(holders@, status_view(*scan_status), n)),
            cells_view(out@) == start + names.take(i as int).map_values(f),
        decreases server_names.len() - i,
    {
        let name = server_names[i].as_str();
        let c = if holders.contains(name) {
            cell("  ✓", Tone::Yellow)
        } else {
            absent_server_cell(scan_status, name)
        };
        assert(c@ == f(names[i as int]));
        push_cell(out, c);
        assert(names.take(i + 1).map_values(f) =~= names.take(i as int).map_values(f).push(f(names[i as int])));
        i = i + 1;
    }
    assert(names.take(server_names.len() as int) =~= names);
}

fn staging_cell(image: &ManagedImage) -> (r: Cell)
    ensures
        r@ == local_cell(image@),
{
    match image.build_state {
        crate::models::BuildState::Building => cell("  ⏳", Tone::Yellow),
        _ => if image.local_tarball {
            cell("  ✓", Tone::Green)
        } else {
            cell("  ✗", Tone::Red)
        },
    }
}

/// The cells of one table row (see `table_row_cells`).
pub fn row_cells(row: &ImageTableRow, server_names: &[String], scan_status: &NameMap<ScanStatus>) -> (r:
    Vec<Cell>)
    requires
        row.wf(),
        scan_status.wf(),
    ensures
        cells_view(r@) == table_row_cells(row@, view_names(server_names@), status_view(*scan_status)),
{
    let mut out: Vec<Cell> = Vec::new();
    match row {
        ImageTableRow::Current(image) => {
            let mut label = image.name.clone();
            label.append("  ");
            label.append(image.version.as_str());
            let first = match image.build_state {
                crate::models::BuildState::Building => {
                    label.append("  ⏳");
                    Cell { text: label, tone: Tone::Yellow }
                },
                _ => Cell { text: label, tone: Tone::Plain },
            };
            push_cell(&mut out, first);
            push_cell(&mut out, staging_cell(image));
            push_presence_cells(&mut out, &image.server_presence, server_names, scan_status);
        },
        ImageTableRow::Stale { family_name, version, servers } => {
            let mut label = "  ".to_owned();
            label.append(family_name.as_str());
            label.append("  ");
            label.append(version.as_str());
            push_cell(&mut out, Cell { text: label, tone: Tone::DarkGray });
            push_cell(&mut out, cell("  —", Tone::DarkGray));
            push_holder_cells(&mut out, servers, server_names, scan_status);
        },
        ImageTableRow::Unknown(u) => {
            let mut label = "? ".to_owned();
            label.append(u.filename.as_str());
            push_cell(&mut out, Cell { text: label, tone: Tone::DarkGray });
            push_cell(&mut out, cell("  —", Tone::DarkGray));
            push_holder_cells(&mut out, &u.servers, server_names, scan_status);
        },
    }
    assert(cells_view(out@) =~= table_row_cells(row@, view_names(server_names@), status_view(*scan_status)));
    out
}

/// The table's header: `Image`, `Local`, then the server names, all cyan.
pub fn header_cells(server_names: &[String]) -> (r: Vec<Cell>)
    ensures
        cells_view(r@) == seq![("Image"@, Tone::Cyan), ("Local"@, Tone::Cyan)] + view_names(
            server_names@,
        ).map_values(|n: Seq<char>| (n, Tone::Cyan)),
{
    let ghost names = view_names(server_names@);
    let ghost f = |n: Seq<char>| (n, Tone::Cyan);
    let mut out: Vec<Cell> = Vec::new();
    push_cell(&mut out, cell("Image", Tone::Cyan));
    push_cell(&mut out, cell("Local", Tone::Cyan));
    let ghost start = cells_view(out@);
    let mut i: usize = 0;
    assert(start + names.take(0).map_values(f) =~= start);
    while i < server_names.len()
        invariant
            i <= server_names@.len(),
            names == view_names(server_names@),
            f == (|n: Seq<char>| (n, Tone::Cyan)),
            start == seq![("Image"@, Tone::Cyan), ("Local"@, Tone::Cyan)],
            cells_view(out@) == start + names.take(i as int).map_values(f),
        decreases server_names.len() - i,
    {
        push_cell(&mut out, cell(server_names[i].as_str(), Tone::Cyan));
        assert(names.take(i + 1).map_values(f) =~= names.take(i as int).map_values(f).push(f(names[i as int])));
        i = i + 1;
    }
    assert(names.take(server_names.len() as int) =~= names);
    out
}

/// How wide a table column is laid out.
#[derive(Debug, PartialEq, Eq, Structural, Clone, Copy)]
pub enum ColumnWidth {
    AtLeast(u16),
    Exactly(u16),
}

/// The image column takes at least 30 cells, the staging column 6, and
/// each server column 5.
pub fn column_widths(server_count: usize) -> (r: Vec<ColumnWidth>)
    ensures
        r@ == seq![ColumnWidth::AtLeast(30), ColumnWidth::Exactly(6)] + Seq::new(
            server_count as nat,
            |_i: int| ColumnWidth::Exactly(5),
        ),
{
    let mut v: Vec<ColumnWidth> = Vec::new();
    v.push(ColumnWidth::AtLeast(30));
    v.push(ColumnWidth::Exactly(6));
    let mut i: usize = 0;
    while i < server_count
        invariant
            i <= server_count,
            v@ == seq![ColumnWidth::AtLeast(30), ColumnWidth::Exactly(6)] + Seq::new(
                i as nat,
                |_i: int| ColumnWidth::Exactly(5),
            ),
        decreases server_count - i,
    {
        v.push(ColumnWidth::Exactly(5));
        i = i + 1;
        assert(v@ =~= seq![ColumnWidth::AtLeast(30), ColumnWidth::Exactly(6)] + Seq::new(
            i as nat,
            |_i: int| ColumnWidth::Exactly(5),
        ));
    }
    v
}

/// The entries of `f` that index one of `n` rows, in order.
pub open spec fn in_range(f: Seq<usize>, n: nat) -> Seq<usize>
    decreases f.len(),
{
    if f.len() == 0 {
        Seq::empty()
    } else {
        let p = in_range(f.drop_last(), n);
        if f.last() < n {
            p.push(f.last())
        } else {
            p
        }
    }
}

/// The rows the table lists: the search's matches while a search with
/// matches is active, otherwise every row.
pub open spec fn visible_indices(n: nat, search_active: bool, filtered: Seq<usize>) -> Seq<usize> {
    if search_active && filtered.len() > 0 {
        in_range(filtered, n)
    } else {
        Seq::new(n, |i: int| i as usize)
    }
}

/// The indices of the rows the table lists (see `visible_indices`).
pub fn visible_rows(n_rows: usize, search_active: bool, filtered: &[usize]) -> (r: Vec<usize>)
    ensures
        r@ == visible_indices(n_rows as nat, search_active, filtered@),
{
    let mut out: Vec<usize> = Vec::new();
    if search_active && filtered.len() > 0 {
        let mut i: usize = 0;
        assert(filtered@.take(0) =~= Seq::<usize>::empty());
        while i < filtered.len()
            invariant
                i <= filtered@.len(),
                out@ == in_range(filtered@.take(i as int), n_rows as nat),
            decreases filtered.len() - i,
        {
            assert(filtered@.take(i + 1).drop_last() =~= filtered@.take(i as int));
            if filtered[i] < n_rows {
                out.push(filtered[i]);
            }
            i = i + 1;
        }
        assert(filtered@.take(filtered.len() as int) =~= filtered@);
    } else {
        let mut i: usize = 0;
        while i < n_rows
            invariant
                i <= n_rows,
                out@ == Seq::new(i as nat, |k: int| k as usize),
            decreases n_rows - i,
        {
            out.push(i);
            i = i + 1;
            assert(out@ =~= Seq::new(i as nat, |k: int| k as usize));
        }
    }
    out
}

// ---------------------------------------------------------------------------
// Status line and search bar
// ---------------------------------------------------------------------------

/// The key hints at the right end of the status line.
pub fn status_hint() -> (r: &'static str)
    ensures
        r@ == "[Enter] Actions  [Esc/q/Ctrl-C] Quit  [/] Search"@,
{
    "[Enter] Actions  [Esc/q/Ctrl-C] Quit  [/] Search"
}

/// What follows the message while a build runs.
pub open spec fn build_suffix(building: bool) -> Seq<char> {
    if building {
        "  [b] Building..."@
    } else {
        ""@
    }
}

/// The length of a message in bytes, as `str::len` reports it.
pub open spec fn message_bytes(message: Seq<char>) -> int {
    crate::output::byte_len(message) as usize as int
}

/// The status line's left part and the spaces that push the hints to the
/// right edge.
pub struct StatusLine {
    pub text: String,
    pub padding: usize,
}

/// The status line for a terminal `width` columns wide: the message, the
/// build note while building, and as many spaces as the width leaves after
/// the message, the note and the hints (counted in bytes), if any.
pub fn status_line(message: &str, building: bool, width: u16) -> (r: StatusLine)
    ensures
        r.text@ == message@ + build_suffix(building),
        r.padding as int == (if width as int > message_bytes(message@) + build_suffix(
            building,
        ).len() + "[Enter] Actions  [Esc/q/Ctrl-C] Quit  [/] Search"@.len() {
            width as int - (message_bytes(message@) + build_suffix(building).len()
                + "[Enter] Actions  [Esc/q/Ctrl-C] Quit  [/] Search"@.len())
        } else {
            0
        }),
{
    let suffix = if building {
        "  [b] Building..."
    } else {
        ""
    };
    let hint = status_hint();
    proof {
        reveal_strlit("  [b] Building...");
        reveal_strlit("");
        reveal_strlit("[Enter] Actions  [Esc/q/Ctrl-C] Quit  [/] Search");
        assert(vstd::utf8::is_ascii_chars(suffix@));
        assert(vstd::utf8::is_ascii_chars(hint@));
        vstd::utf8::is_ascii_chars_encode_utf8(suffix@);
        vstd::utf8::is_ascii_chars_encode_utf8(hint@);
    }
    let used = message.len().saturating_add(suffix.len()).saturating_add(hint.len());
    let w = width as usize;
    let padding = if w > used {
        w - used
    } else {
        0
    };
    let mut text = message.to_owned();
    text.append(suffix);
    StatusLine { text, padding }
}

/// The search bar's text.
pub fn search_bar_text(query: &str) -> (r: String)
    ensures
        r@ == "Search: "@ + query@,
{
    let mut r = "Search: ".to_owned();
    r.append(query);
    r
}

// ---------------------------------------------------------------------------
// Popups
// ---------------------------------------------------------------------------

/// The action menu's lines: the entry under the cursor inverted, dimmed
/// entries dark grey.
pub open spec fn menu_lines(entries: Seq<(Action, bool, Seq<char>)>, selected: int) -> Seq<
    (Seq<char>, Tone),
> {
    Seq::new(
        entries.len(),
        |i: int|
            (
                entries[i].2,
                if i == selected {
                    Tone::Inverted
                } else if entries[i].1 {
                    Tone::DarkGray
                } else {
                    Tone::Plain
                },
            ),
    )
}

/// The action menu's lines (see `menu_lines`).
pub fn action_menu_lines(entries: &[PopupEntry], selected: usize) -> (r: Vec<Cell>)
    ensures
        cells_view(r@) == menu_lines(entries_view(entries@), selected as int),
{
    let ghost es = entries_view(entries@);
    let mut out: Vec<Cell> = Vec::new();
    let mut i: usize = 0;
    while i < entries.len()
        invariant
            i <= entries@.len(),
            es == entries_view(entries@),
            cells_view(out@) == menu_lines(es, selected as int).take(i as int),
        decreases entries.len() - i,
    {
        let tone = if i == selected {
            Tone::Inverted
        } else if entries[i].dimmed {
            Tone::DarkGray
        } else {
            Tone::Plain
        };
        let c = Cell { text: entries[i].label.clone(), tone };
        assert(c@ == menu_lines(es, selected as int)[i as int]);
        push_cell(&mut out, c);
        assert(menu_lines(es, selected as int).take(i + 1) =~= menu_lines(es, selected as int).take(
            i as int,
        ).push(c@));
        i = i + 1;
    }
    assert(menu_lines(es, selected as int).take(entries.len() as int) =~= menu_lines(es, selected as int));
    out
}

/// One server's checkbox line; when deploying, an unticked server is one
/// that already holds the tarball.
pub open spec fn picker_line(checked: bool, for_action: Action, name: Seq<char>) -> Seq<char> {
    (if checked {
        "[x]"@
    } else {
        "[ ]"@
    }) + " "@ + name + (if for_action == Action::Deploy && !checked {
        "  (already present)"@
    } else {
        ""@
    })
}

/// The server picker's lines: a checkbox per server (a missing name shows
/// as `?`), then Continue and Cancel; the line under the cursor inverted.
pub open spec fn picker_lines(
    checks: Seq<bool>,
    for_action: Action,
    names: Seq<Seq<char>>,
    selected: int,
) -> Seq<(Seq<char>, Tone)> {
    Seq::new(
        checks.len(),
        |i: int|
            (
                picker_line(checks[i], for_action, if i < names.len() {
                    names[i]
                } else {
                    "?"@
                }),
                if i == selected {
                    Tone::Inverted
                } else {
                    Tone::Plain
                },
            ),
    ) + seq![
        if selected == checks.len() {
            ("> [Continue]"@, Tone::Inverted)
        } else {
            ("  [Continue]"@, Tone::Plain)
        },
        if selected == checks.len() + 1 {
            ("> [Cancel]"@, Tone::Inverted)
        } else {
            ("  [Cancel]"@, Tone::Plain)
        },
    ]
}

/// The server picker's lines (see `picker_lines`).
pub fn server_picker_lines(checks: &[bool], for_action: Action, server_names: &[String], selected: usize) -> (r:
    Vec<Cell>)
    ensures
        cells_view(r@) == picker_lines(checks@, for_action, view_names(server_names@), selected as int),
{
    let ghost names = view_names(server_names@);
    let ghost all = picker_lines(checks@, for_action, names, selected as int);
    let mut out: Vec<Cell> = Vec::new();
    let mut i: usize = 0;
    while i < checks.len()
        invariant
            i <= checks@.len(),
            names == view_names(server_names@),
            all == picker_lines(checks@, for_action, names, selected as int),
            cells_view(out@) == all.take(i as int),
        decreases checks.len() - i,
    {
        let checked = checks[i];
        let mut line = if checked {
            "[x] ".to_owned()
        } else {
            "[ ] ".to_owned()
        };
        if i < server_names.len() {
            line.append(server_names[i].as_str());
        } else {
            line.append("?");
        }
        if for_action == Action::Deploy && !checked {
            line.append("  (already present)");
        }
        proof {
            reveal_strlit("[x] ");
            reveal_strlit("[ ] ");
            reveal_strlit("[x]");
            reveal_strlit("[ ]");
            reveal_strlit(" ");
            reveal_strlit("");
        }
        let tone = if i == selected {
            Tone::Inverted
        } else {
            Tone::Plain
        };
        let c = Cell { text: line, tone };
        assert(c@ =~= all[i as int]);
        push_cell(&mut out, c);
        assert(all.take(i + 1) =~= all.take(i as int).push(c@));
        i = i + 1;
    }
    let n = checks.len();
    let confirm = if selected == n {
        cell("> [Continue]", Tone::Inverted)
    } else {
        cell("  [Continue]", Tone::Plain)
    };
    assert(confirm@ == all[n as int]);
    push_cell(&mut out, confirm);
    let cancel = if n < usize::MAX && selected == n + 1 {
        cell("> [Cancel]", Tone::Inverted)
    } else {
        cell("  [Cancel]", Tone::Plain)
    };
    assert(cancel@ == all[n + 1]);
    push_cell(&mut out, cancel);
    assert(cells_view(out@) =~= all);
    out
}

} // verus!
