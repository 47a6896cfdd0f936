//! The interactive session's state and every decision it takes: selection,
//! menus, server picking, folding in scan, deploy, removal and build
//! events, the log viewer and the search. The terminal loop around it
//! performs what these decisions ask for and hands back what happened.
use vstd::prelude::*;

use crate::dockerfile::DiscoveryResult;
use crate::image_build::BuildEvent;
use crate::inventory::{rows_from, rows_view, rows_wf, staged_family, table_rows, Inventory};
use crate::log_viewer::{LogSelection, LogViewer};
use crate::models::{
    BuildState, Config, ImageFamily, ImageTableRow, ManagedImage, ScanStatus, Server,
    UnknownTarball,
};
use crate::names::{view_names, NameMap, NameSet};
use crate::popup::{
    build_cleanup_actions, build_current_actions, cleanup_menu, current_menu, on_any_server, Action,
    Popup, PopupEntry, PopupV,
};
use crate::commands::present_on;
use crate::models::{ImageFamilyV, ManagedImageV, ScanStatusV};
use crate::remote::{
    families_wf, placeholder_family, scan_folded, tarball_filename, tarball_name, unknowns_wf,
    RemoteEvent,
};
use crate::select::family_views;
use crate::commands::stale_total;
use crate::search::{rows_to_info, searchable, Searcher};
use crate::strings::{chars_of, decimal, push_char, string_from_chars, usize_to_string};

verus! {

/// Lines a build log keeps; older lines are dropped first.
pub const MAX_LOG_LINES: usize = 10000;

/// A rectangle of terminal cells.
pub struct Area {
    pub x: u16,
    pub y: u16,
    pub width: u16,
    pub height: u16,
}

impl Clone for Area {
    fn clone(&self) -> (r: Self)
        ensures
            r == *self,
    {
        Area { x: self.x, y: self.y, width: self.width, height: self.height }
    }
}

/// What the terminal loop must carry out after a decision.
pub enum Effect {
    /// Nothing to do.
    Nothing,
    /// Start building this image.
    StartBuild(ManagedImage),
    /// Write this log to a file and report back with `log_dumped`.
    DumpLog { name: String, version: String, lines: Vec<String> },
    /// Upload this tarball to the selected configured servers, when it
    /// exists in the staging directory (report back with `begin_deploy`).
    Deploy { image_name: String, tarball: String, selected: Vec<bool>, target_count: usize },
    /// Delete this tarball from the selected configured servers; the
    /// operation is already recorded as under way.
    Remove { tarball: String, selected: Vec<bool> },
}

pub enum EffectV {
    Nothing,
    StartBuild(crate::models::ManagedImageV),
    DumpLog { name: Seq<char>, version: Seq<char>, lines: Seq<Seq<char>> },
    Deploy { image_name: Seq<char>, tarball: Seq<char>, selected: Seq<bool>, target_count: usize },
    Remove { tarball: Seq<char>, selected: Seq<bool> },
}

impl View for Effect {
    type V = EffectV;

    open spec fn view(&self) -> EffectV {
        match self {
            Effect::Nothing => EffectV::Nothing,
            Effect::StartBuild(img) => EffectV::StartBuild(img@),
            Effect::DumpLog { name, version, lines } => EffectV::DumpLog {
                name: name@,
                version: version@,
                lines: view_names(lines@),
            },
            Effect::Deploy { image_name, tarball, selected, target_count } => EffectV::Deploy {
                image_name: image_name@,
                tarball: tarball@,
                selected: selected@,
                target_count: *target_count,
            },
            Effect::Remove { tarball, selected } => EffectV::Remove { tarball: tarball@, selected: selected@ },
        }
    }
}

/// The session state.
pub struct App {
    pub running: bool,
    pub config: Config,
    pub families: NameMap<ImageFamily>,
    pub unknowns: Vec<UnknownTarball>,
    pub rows: Vec<ImageTableRow>,
    pub server_names: Vec<String>,
    pub server_scan_status: NameMap<ScanStatus>,
    pub selected_row: usize,
    pub status_message: String,
    pub search_query: String,
    pub search_active: bool,
    pub filtered_indices: Vec<usize>,
    pub scanned_servers: usize,
    pub total_servers: usize,
    pub searcher: Searcher,
    pub popup: Popup,
    pub popup_selection: usize,
    pub viewing_logs: bool,
    pub log_viewer: LogViewer,
    pub log_selection: LogSelection,
    pub log_area: Area,
    pub current_log_lines: Vec<String>,
    pub current_log_title: String,
    pub current_build_name: Option<String>,
    pub operation_in_flight: bool,
    pub operation_expected: usize,
}

/// The status line before any server has answered.
pub open spec fn scanning_text(total: nat, warnings: nat) -> Seq<char> {
    if warnings == 0 {
        "Scanning "@ + decimal(total) + " servers..."@
    } else {
        "Scanning "@ + decimal(total) + " servers... ("@ + decimal(warnings) + " startup warnings)"@
    }
}

/// `<managed> managed (<stale> stale) | <unknown> unknown | <b> building...`.
pub open spec fn counts_text(managed: nat, stale: nat, unknown: nat, building: nat) -> Seq<char> {
    decimal(managed) + " managed ("@ + decimal(stale) + " stale) | "@ + decimal(unknown)
        + " unknown | "@ + decimal(building) + " building..."@
}

/// Wrapping move: `(cur + delta) mod len`, in `0..len`.
pub open spec fn wrapped(cur: int, delta: int, len: int) -> int {
    (cur + delta) % len
}

/// `(cur + delta).rem_euclid(len)`.
fn wrap_index(cur: usize, delta: i32, len: usize) -> (r: usize)
    requires
        0 < len <= i32::MAX,
        cur <= i32::MAX,
        i32::MIN <= cur + delta <= i32::MAX,
    ensures
        r == wrapped(cur as int, delta as int, len as int),
        r < len,
{
    let v: i64 = cur as i64 + delta as i64;
    let l: u64 = len as u64;
    if v >= 0 {
        let r = (v as u64) % l;
        r as usize
    } else {
        let a: u64 = (-v) as u64;
        let k = a % l;
        proof {
            vstd::arithmetic::div_mod::lemma_fundamental_div_mod(a as int, l as int);
            let q = (a as int) / (l as int);
            assert(a as int == (l as int) * q + (k as int));
            if k == 0 {
                assert(v as int == (-q) * (l as int) + 0) by (nonlinear_arith)
                    requires
                        a as int == (l as int) * q + (k as int),
                        k == 0,
                        v as int == -(a as int),
                ;
                vstd::arithmetic::div_mod::lemma_fundamental_div_mod_converse(v as int, l as int, -q, 0);
            } else {
                assert(v as int == (-q - 1) * (l as int) + (l - k)) by (nonlinear_arith)
                    requires
                        a as int == (l as int) * q + (k as int),
                        v as int == -(a as int),
                ;
                vstd::arithmetic::div_mod::lemma_fundamental_div_mod_converse(
                    v as int,
                    l as int,
                    -q - 1,
                    (l - k) as int,
                );
            }
        }
        if k == 0 {
            0
        } else {
            (l - k) as usize
        }
    }
}

impl App {
    /// The session's invariant: a well-formed inventory and table, and a
    /// search over exactly the table's rows (as many as it can take).
    pub open spec fn wf(&self) -> bool {
        &&& families_wf(self.families)
        &&& unknowns_wf(self.unknowns@)
        &&& rows_wf(self.rows@)
        &&& self.server_scan_status.wf()
        &&& self.searcher.wf()
        &&& self.searcher.searches_rows(rows_view(self.rows@))
    }

    /// A session over freshly discovered families: staging tarballs marked,
    /// every server's scan pending, the table built, nothing selected,
    /// shown or running.
    pub fn new(config: Config, discovery: DiscoveryResult, staging_files: &NameSet) -> (r: App)
        requires
            families_wf(discovery.families),
        ensures
            r.wf(),
            r.running,
            r.families.keys == discovery.families.keys,
            forall|fi: int|
                0 <= fi < discovery.families.vals.len() ==> (#[trigger] r.families.vals@[fi])@ == staged_family(
                    discovery.families.vals@[fi]@,
                    staging_files@,
                ),
            r.unknowns@.len() == 0,
            r.server_scan_status@.map_values(|st: ScanStatus| st@) == Map::new(
                |k: Seq<char>| config.servers@.map_values(|s: Server| s.name@).contains(k),
                |k: Seq<char>| ScanStatusV::Pending,
            ),
            r.search_query@ == Seq::<char>::empty(),
            !r.search_active,
            r.total_servers == config.servers@.len(),
            view_names(r.server_names@) == config.servers@.map_values(|s: Server| s.name@),
            rows_view(r.rows@) == table_rows(r.families.vals@, r.unknowns@),
            r.status_message@ == scanning_text(
                config.servers@.len() as nat,
                discovery.warnings@.len() as nat,
            ),
            r.selected_row == 0,
            r.popup is Hidden,
            !r.viewing_logs,
            !r.operation_in_flight,
            r.scanned_servers == 0,
    {
        let warning_count = discovery.warnings.len();
        let inv = Inventory::from_discovery(discovery, staging_files, config.servers.as_slice());
        let Inventory { families, unknowns, server_names, scan_status, warnings: _ } = inv;
        let total_servers = server_names.len();
        proof {
            assert(view_names(server_names@).len() == config.servers@.len());
        }
        let rows = rows_from(&families, unknowns.as_slice());
        let infos = rows_to_info(rows.as_slice());
        let searcher = Searcher::new(infos.as_slice());
        proof {
            lemma_searcher_over_rows(searcher, rows@, infos@);
        }
        let mut status = "Scanning ".to_owned();
        let t = usize_to_string(total_servers);
        status.append(t.as_str());
        if warning_count == 0 {
            status.append(" servers...");
        } else {
            status.append(" servers... (");
            let w = usize_to_string(warning_count);
            status.append(w.as_str());
            status.append(" startup warnings)");
        }
        App {
            running: true,
            config,
            families,
            unknowns,
            rows,
            server_names,
            server_scan_status: scan_status,
            selected_row: 0,
            status_message: status,
            search_query: String::new(),
            search_active: false,
            filtered_indices: Vec::new(),
            scanned_servers: 0,
            total_servers,
            searcher,
            popup: Popup::Hidden,
            popup_selection: 0,
            viewing_logs: false,
            log_viewer: LogViewer::new(),
            log_selection: LogSelection { anchor: None, cursor: None },
            log_area: Area { x: 0, y: 0, width: 0, height: 0 },
            current_log_lines: Vec::new(),
            current_log_title: String::new(),
            current_build_name: None,
            operation_in_flight: false,
            operation_expected: 0,
        }
    }

    /// Stops the session; a running build is to be cancelled.
    pub fn quit(&mut self)
        ensures
            *final(self) == (App { running: false, ..*old(self) }),
    {
        self.running = false;
    }

    /// Number of rows the selection moves over: the search results while a
    /// search shows some, otherwise the whole table.
    pub open spec fn selection_len(&self) -> nat {
        if self.search_active && self.filtered_indices@.len() > 0 {
            self.filtered_indices@.len()
        } else {
            self.rows@.len()
        }
    }

    /// The table row the selection is on.
    pub open spec fn selected_index(&self) -> Option<usize> {
        if self.search_active && self.filtered_indices@.len() > 0 {
            if self.selected_row < self.filtered_indices@.len() {
                Some(self.filtered_indices@[self.selected_row as int])
            } else {
                None
            }
        } else if self.rows@.len() == 0 {
            None
        } else if self.selected_row < self.rows@.len() {
            Some(self.selected_row)
        } else {
            Some((self.rows@.len() - 1) as usize)
        }
    }

    /// The table row the selection is on (see `selected_index`).
    pub fn selected_row_index(&self) -> (r: Option<usize>)
        ensures
            r == self.selected_index(),
    {
        if self.search_active && self.filtered_indices.len() > 0 {
            if self.selected_row < self.filtered_indices.len() {
                Some(self.filtered_indices[self.selected_row])
            } else {
                None
            }
        } else if self.rows.len() == 0 {
            None
        } else if self.selected_row < self.rows.len() {
            Some(self.selected_row)
        } else {
            Some(self.rows.len() - 1)
        }
    }

    /// Moves the selection by `delta`, wrapping around at both ends.
    pub fn move_selection(&mut self, delta: i32)
        requires
            old(self).selection_len() <= i32::MAX,
            old(self).selected_row <= i32::MAX,
            i32::MIN <= old(self).selected_row + delta <= i32::MAX,
        ensures
            *final(self) == (App {
                selected_row: if old(self).selection_len() == 0 {
                    old(self).selected_row
                } else {
                    wrapped(
                        old(self).selected_row as int,
                        delta as int,
                        old(self).selection_len() as int,
                    ) as usize
                },
                ..*old(self)
            }),
    {
        let len = if self.search_active && self.filtered_indices.len() > 0 {
            self.filtered_indices.len()
        } else {
            self.rows.len()
        };
        if len == 0 {
            return ;
        }
        self.selected_row = wrap_index(self.selected_row, delta, len);
    }

    /// Marks each current image by whether its tarball is among
    /// `staging_files`, the names in the staging directory.
    pub fn refresh_local_tarballs(&mut self, staging_files: &NameSet)
        requires
            old(self).wf(),
        ensures
            final(self).wf(),
            *final(self) == (App { families: final(self).families, ..*old(self) }),
            final(self).families.keys == old(self).families.keys,
            forall|fi: int|
                0 <= fi < old(self).families.vals.len() ==> (#[trigger] final(self).families.vals@[fi])@ == {
                    let f = old(self).families.vals@[fi]@;
                    crate::models::ImageFamilyV {
                        current: match f.current {
                            Some(c) => Some(
                                crate::models::ManagedImageV {
                                    local_tarball: staging_files@.contains(
                                        crate::remote::tarball_name(c.name, c.version),
                                    ),
                                    ..c
                                },
                            ),
                            None => None,
                        },
                        ..f
                    }
                },
    {
        crate::remote::refresh_local_tarballs(&mut self.families, staging_files);
    }

    /// Rebuilds the table from the inventory and hands the rows to the
    /// search.
    pub fn rebuild_rows(&mut self)
        requires
            old(self).wf(),
        ensures
            final(self).wf(),
            *final(self) == (App { rows: final(self).rows, searcher: final(self).searcher, ..*old(self) }),
            rows_view(final(self).rows@) == table_rows(old(self).families.vals@, old(self).unknowns@),
            final(self).searcher.pattern@ == old(self).searcher.pattern@,
            final(self).searcher.item_count == searchable(final(self).rows@.len()),
    {
        self.rows = rows_from(&self.families, self.unknowns.as_slice());
        let infos = rows_to_info(self.rows.as_slice());
        self.searcher.update_items(infos.as_slice());
        proof {
            lemma_searcher_over_rows(self.searcher, self.rows@, infos@);
        }
    }
}

/// A searcher over the search entries of the rows searches those rows.
proof fn lemma_searcher_over_rows(searcher: Searcher, rows: Seq<ImageTableRow>, infos: Seq<crate::search::RowInfo>)
    requires
        searcher.matches_rows(infos),
        infos.len() == rows.len(),
        forall|i: int|
            0 <= i < rows.len() ==> (#[trigger] infos[i]).index == i && (infos[i].name@, infos[i].version@)
                == crate::search::row_info_of(rows[i]@),
    ensures
        searcher.searches_rows(rows_view(rows)),
{
    let rv = rows_view(rows);
    assert forall|i: int| 0 <= i < searcher.item_count implies #[trigger] crate::search::matcher_items(
        searcher.nucleo,
    )[i] == (
        i as usize,
        crate::search::matched_text(
            crate::search::haystack(crate::search::row_info_of(rv[i]).0, crate::search::row_info_of(rv[i]).1),
        ),
    ) && searcher.row_indices@[i] == i by {
        assert(infos[i].index == i);
        assert(rv[i] == rows[i]@);
    }
}

/// The family's current image is being built.
pub open spec fn is_building(f: ImageFamilyV) -> bool {
    f.current matches Some(c) && c.build_state is Building
}

/// How many of the families' current images are being built.
pub open spec fn building_count(fams: Seq<ImageFamily>) -> nat
    decreases fams.len(),
{
    if fams.len() == 0 {
        0
    } else {
        building_count(fams.drop_last()) + if is_building(fams.last()@) {
            1nat
        } else {
            0nat
        }
    }
}

/// The number of images being built (see `building_count`).
pub fn builds_in_progress(families: &NameMap<ImageFamily>) -> (n: usize)
    ensures
        n == building_count(families.vals@),
{
    let mut n: usize = 0;
    let mut i: usize = 0;
    while i < families.vals.len()
        invariant
            i <= families.vals@.len(),
            n == building_count(families.vals@.take(i as int)),
            n <= i,
        decreases families.vals.len() - i,
    {
        proof {
            assert(families.vals@.take(i + 1).drop_last() =~= families.vals@.take(i as int));
        }
        let building = match &families.vals[i].current {
            Some(c) => match c.build_state {
                BuildState::Building => true,
                _ => false,
            },
            None => false,
        };
        if building {
            n = n + 1;
        }
        i = i + 1;
    }
    assert(families.vals@.take(families.vals.len() as int) =~= families.vals@);
    n
}

/// The status line with the inventory counts; when asked for, the number
/// of images being built.
pub fn count_status(app: &App, include_build: bool) -> (r: String)
    ensures
        r@ == counts_text(
            app.families.keys@.len(),
            crate::commands::stale_total(app.families.vals@),
            app.unknowns@.len(),
            if include_build {
                building_count(app.families.vals@)
            } else {
                0
            },
        ),
{
    let managed = app.families.len();
    let stale = crate::commands::count_stale(&app.families);
    let building: usize = if include_build {
        builds_in_progress(&app.families)
    } else {
        0
    };
    let mut r = usize_to_string(managed);
    r.append(" managed (");
    let s = crate::strings::u128_to_string(stale);
    r.append(s.as_str());
    r.append(" stale) | ");
    let u = usize_to_string(app.unknowns.len());
    r.append(u.as_str());
    r.append(" unknown | ");
    let b = usize_to_string(building);
    r.append(b.as_str());
    r.append(" building...");
    r
}

impl App {
    // -----------------------------------------------------------------------
    // Log viewer
    // -----------------------------------------------------------------------

    /// Shows a build log from the top, with no selection.
    pub fn open_log_viewer(&mut self, image_name: &str, lines: Vec<String>)
        ensures
            *final(self) == (App {
                viewing_logs: true,
                current_log_lines: lines,
                current_log_title: final(self).current_log_title,
                log_viewer: LogViewer { scroll_offset: 0, total_lines: 0 },
                log_selection: LogSelection { anchor: None, cursor: None },
                ..*old(self)
            }),
            final(self).current_log_title@ == "Build Log: "@ + image_name@,
    {
        self.viewing_logs = true;
        self.current_log_lines = lines;
        let mut title = "Build Log: ".to_owned();
        title.append(image_name);
        self.current_log_title = title;
        self.log_viewer = LogViewer::new();
        self.log_selection.clear();
    }

    /// Leaves the log viewer, dropping the lines shown and the selection.
    pub fn close_log_viewer(&mut self)
        ensures
            *final(self) == (App {
                viewing_logs: false,
                current_log_lines: final(self).current_log_lines,
                current_log_title: final(self).current_log_title,
                log_selection: LogSelection { anchor: None, cursor: None },
                ..*old(self)
            }),
            final(self).current_log_lines@.len() == 0,
            final(self).current_log_title@.len() == 0,
    {
        self.viewing_logs = false;
        self.current_log_lines = Vec::new();
        self.current_log_title = String::new();
        self.log_selection.clear();
    }

    /// The log position under a screen cell: inside the viewer's border,
    /// offset by the scroll position, and on an existing line.
    pub open spec fn log_position(&self, x: u16, y: u16) -> Option<(usize, usize)> {
        let a = self.log_area;
        let x0 = a.x + 1;
        let x1 = a.x + (if a.width > 0 { a.width - 1 } else { 0 });
        let y0 = a.y + 1;
        let y1 = a.y + (if a.height > 0 { a.height - 1 } else { 0 });
        if x < x0 || x >= x1 || y < y0 || y >= y1 {
            None
        } else {
            let row = (y - y0) + self.log_viewer.scroll_offset;
            if row >= self.current_log_lines@.len() {
                None
            } else {
                Some((row as usize, (x - x0) as usize))
            }
        }
    }

    /// Converts a screen cell to a (line, character) position in the log
    /// (see `log_position`).
    pub fn mouse_to_log_text(&self, screen_x: u16, screen_y: u16) -> (r: Option<(usize, usize)>)
        requires
            self.log_area.x + self.log_area.width < 0x10000,
            self.log_area.y + self.log_area.height < 0x10000,
            self.log_area.x < 0xffff,
            self.log_area.y < 0xffff,
            self.log_viewer.scroll_offset + 0xffff <= usize::MAX,
        ensures
            r == self.log_position(screen_x, screen_y),
    {
        let area = &self.log_area;
        let inner_x_start = area.x + 1;
        let inner_x_end = area.x + if area.width > 0 {
            area.width - 1
        } else {
            0
        };
        let inner_y_start = area.y + 1;
        let inner_y_end = area.y + if area.height > 0 {
            area.height - 1
        } else {
            0
        };
        if screen_x < inner_x_start || screen_x >= inner_x_end {
            return None;
        }
        if screen_y < inner_y_start || screen_y >= inner_y_end {
            return None;
        }
        let col = (screen_x - inner_x_start) as usize;
        let visible_row = (screen_y - inner_y_start) as usize;
        let row = visible_row + self.log_viewer.scroll_offset;
        if row >= self.current_log_lines.len() {
            return None;
        }
        Some((row, col))
    }

    /// Mouse button pressed in the log: a selection starts there.
    pub fn handle_log_mouse_down(&mut self, screen_x: u16, screen_y: u16)
        requires
            old(self).log_area.x + old(self).log_area.width < 0x10000,
            old(self).log_area.y + old(self).log_area.height < 0x10000,
            old(self).log_area.x < 0xffff,
            old(self).log_area.y < 0xffff,
            old(self).log_viewer.scroll_offset + 0xffff <= usize::MAX,
        ensures
            *final(self) == (App {
                log_selection: match old(self).log_position(screen_x, screen_y) {
                    Some(p) => LogSelection { anchor: Some(p), cursor: Some(p) },
                    None => old(self).log_selection,
                },
                ..*old(self)
            }),
    {
        match self.mouse_to_log_text(screen_x, screen_y) {
            Some((row, col)) => self.log_selection.start(row, col),
            None => {},
        }
    }

    /// Mouse dragged in the log: the selection's free end follows.
    pub fn handle_log_mouse_drag(&mut self, screen_x: u16, screen_y: u16)
        requires
            old(self).log_area.x + old(self).log_area.width < 0x10000,
            old(self).log_area.y + old(self).log_area.height < 0x10000,
            old(self).log_area.x < 0xffff,
            old(self).log_area.y < 0xffff,
            old(self).log_viewer.scroll_offset + 0xffff <= usize::MAX,
        ensures
            *final(self) == (App {
                log_selection: match old(self).log_position(screen_x, screen_y) {
                    Some(p) => LogSelection {
                        cursor: if old(self).log_selection.anchor is Some {
                            Some(p)
                        } else {
                            old(self).log_selection.cursor
                        },
                        ..old(self).log_selection
                    },
                    None => old(self).log_selection,
                },
                ..*old(self)
            }),
    {
        match self.mouse_to_log_text(screen_x, screen_y) {
            Some((row, col)) => self.log_selection.update(row, col),
            None => {},
        }
    }

    /// Mouse released in the log: the selection ends there and stays.
    pub fn handle_log_mouse_up(&mut self, screen_x: u16, screen_y: u16)
        requires
            old(self).log_area.x + old(self).log_area.width < 0x10000,
            old(self).log_area.y + old(self).log_area.height < 0x10000,
            old(self).log_area.x < 0xffff,
            old(self).log_area.y < 0xffff,
            old(self).log_viewer.scroll_offset + 0xffff <= usize::MAX,
        ensures
            *final(self) == (App {
                log_selection: match old(self).log_position(screen_x, screen_y) {
                    Some(p) => LogSelection {
                        cursor: if old(self).log_selection.anchor is Some {
                            Some(p)
                        } else {
                            old(self).log_selection.cursor
                        },
                        ..old(self).log_selection
                    },
                    None => old(self).log_selection,
                },
                ..*old(self)
            }),
    {
        match self.mouse_to_log_text(screen_x, screen_y) {
            Some((row, col)) => self.log_selection.update(row, col),
            None => {},
        }
    }

    // -----------------------------------------------------------------------
    // Search
    // -----------------------------------------------------------------------

    /// Types a character into the search: the results are recomputed and
    /// the selection goes to the first one.
    pub fn search_push(&mut self, c: char)
        requires
            old(self).wf(),
        ensures
            *final(self) == (App {
                search_query: final(self).search_query,
                searcher: final(self).searcher,
                filtered_indices: final(self).filtered_indices,
                selected_row: 0,
                ..*old(self)
            }),
            final(self).search_query@ == old(self).search_query@.push(c),
            final(self).searcher.wf(),
            final(self).searcher.item_count == old(self).searcher.item_count,
            crate::search::matcher_items(final(self).searcher.nucleo) == crate::search::matcher_items(
                old(self).searcher.nucleo,
            ),
            final(self).searcher.pattern@ == crate::strings::lowercase(final(self).search_query@),
            final(self).search_query@.len() > 0 ==> crate::search::matcher_pattern(final(self).searcher.nucleo)
                == crate::strings::lowercase(final(self).search_query@),
            final(self).search_query@.len() > 0 && final(self).searcher.settled ==> crate::search::ranked_matches(
                crate::search::matcher_items(final(self).searcher.nucleo),
                final(self).searcher.item_count as int,
                crate::strings::lowercase(final(self).search_query@),
                final(self).filtered_indices@,
            ),
            final(self).wf(),
            final(self).filtered_indices@ == final(self).searcher.visible_indices@,
    {
        push_char(&mut self.search_query, c);
        self.searcher.set_pattern(self.search_query.as_str());
        proof {
            let sr = self.searcher;
            if self.search_query@.len() > 0 && sr.settled {
                assert(sr.visible_indices@ =~= sr.positions@);
            }
            assert(sr.searches_rows(rows_view(self.rows@)));
        }
        self.filtered_indices = self.searcher.visible_indices.clone();
        self.selected_row = 0;
    }

    /// Deletes the last character of the search; the selection goes back to
    /// the first result when it is at or past the last one.
    pub fn search_pop(&mut self)
        requires
            old(self).wf(),
        ensures
            *final(self) == (App {
                search_query: final(self).search_query,
                searcher: final(self).searcher,
                filtered_indices: final(self).filtered_indices,
                selected_row: final(self).selected_row,
                ..*old(self)
            }),
            final(self).search_query@ == (if old(self).search_query@.len() > 0 {
                old(self).search_query@.drop_last()
            } else {
                old(self).search_query@
            }),
            final(self).searcher.wf(),
            final(self).searcher.item_count == old(self).searcher.item_count,
            crate::search::matcher_items(final(self).searcher.nucleo) == crate::search::matcher_items(
                old(self).searcher.nucleo,
            ),
            final(self).searcher.pattern@ == crate::strings::lowercase(final(self).search_query@),
            final(self).search_query@.len() > 0 ==> crate::search::matcher_pattern(final(self).searcher.nucleo)
                == crate::strings::lowercase(final(self).search_query@),
            final(self).search_query@.len() > 0 && final(self).searcher.settled ==> crate::search::ranked_matches(
                crate::search::matcher_items(final(self).searcher.nucleo),
                final(self).searcher.item_count as int,
                crate::strings::lowercase(final(self).search_query@),
                final(self).filtered_indices@,
            ),
            final(self).wf(),
            final(self).filtered_indices@ == final(self).searcher.visible_indices@,
            final(self).selected_row == (if old(self).selected_row + 1 >= final(self).filtered_indices@.len() {
                0
            } else {
                old(self).selected_row
            }),
    {
        let cs = chars_of(self.search_query.as_str());
        if cs.len() > 0 {
            let mut kept: Vec<char> = Vec::new();
            let mut i: usize = 0;
            while i + 1 < cs.len()
                invariant
                    i < cs.len(),
                    kept@ == cs@.take(i as int),
                decreases cs.len() - i,
            {
                kept.push(cs[i]);
                assert(cs@.take(i + 1) =~= cs@.take(i as int).push(cs@[i as int]));
                i = i + 1;
            }
            assert(kept@ =~= cs@.drop_last());
            self.search_query = string_from_chars(&kept);
        }
        self.searcher.set_pattern(self.search_query.as_str());
        proof {
            let sr = self.searcher;
            if self.search_query@.len() > 0 && sr.settled {
                assert(sr.visible_indices@ =~= sr.positions@);
            }
            assert(sr.searches_rows(rows_view(self.rows@)));
        }
        self.filtered_indices = self.searcher.visible_indices.clone();
        let n = self.filtered_indices.len();
        if n == 0 || self.selected_row >= n - 1 {
            self.selected_row = 0;
        }
    }

    /// Empties the search: every row is shown and the first selected.
    pub fn search_clear(&mut self)
        requires
            old(self).searcher.wf(),
        ensures
            *final(self) == (App {
                search_query: final(self).search_query,
                searcher: final(self).searcher,
                filtered_indices: final(self).filtered_indices,
                selected_row: 0,
                ..*old(self)
            }),
            final(self).search_query@.len() == 0,
            final(self).searcher.wf(),
            final(self).searcher.item_count == old(self).searcher.item_count,
            crate::search::matcher_items(final(self).searcher.nucleo) == crate::search::matcher_items(
                old(self).searcher.nucleo,
            ),
            final(self).filtered_indices@ == Seq::new(
                old(self).searcher.item_count as nat,
                |i: int| i as usize,
            ),
    {
        self.search_query = String::new();
        proof {
            reveal_strlit("");
        }
        self.searcher.set_pattern("");
        self.filtered_indices = self.searcher.visible_indices.clone();
        self.selected_row = 0;
    }
}

// ---------------------------------------------------------------------------
// A tarball leaving a server
// ---------------------------------------------------------------------------

/// The family's current image is the tarball.
pub open spec fn current_is(f: ImageFamily, tarball: Seq<char>) -> bool {
    match f.current {
        Some(c) => tarball_name(c.name@, c.version@) == tarball,
        None => false,
    }
}

/// Index of the first family whose current image is the tarball.
pub open spec fn first_current(fs: Seq<ImageFamily>, tarball: Seq<char>) -> Option<int>
    decreases fs.len(),
{
    if fs.len() == 0 {
        None
    } else if current_is(fs[0], tarball) {
        Some(0)
    } else {
        match first_current(fs.drop_first(), tarball) {
            Some(i) => Some(i + 1),
            None => None,
        }
    }
}

/// Index of the first version whose tarball (for family `name`) is the
/// tarball.
pub open spec fn first_version_of(vs: Seq<Seq<char>>, name: Seq<char>, tarball: Seq<char>) -> Option<int>
    decreases vs.len(),
{
    if vs.len() == 0 {
        None
    } else if tarball_name(name, vs[0]) == tarball {
        Some(0)
    } else {
        match first_version_of(vs.drop_first(), name, tarball) {
            Some(i) => Some(i + 1),
            None => None,
        }
    }
}

/// A family after `server` dropped the tarball, when the tarball is one of
/// its stale versions: the server leaves that version's holders, and a
/// version no server holds any more is forgotten.
pub open spec fn after_stale_removal(f: ImageFamily, tarball: Seq<char>, server: Seq<char>) -> ImageFamilyV {
    match first_version_of(f.remote_presence.key_seq(), f.name@, tarball) {
        None => f@,
        Some(i) => {
            let v = f.remote_presence.key_seq()[i];
            let left = f.remote_presence@[v]@.remove(server);
            if left == Set::<Seq<char>>::empty() {
                ImageFamilyV {
                    remote_presence: f@.remote_presence.remove(v),
                    stale_versions: f@.stale_versions.remove(v),
                    ..f@
                }
            } else {
                ImageFamilyV { remote_presence: f@.remote_presence.insert(v, left), ..f@ }
            }
        },
    }
}

/// Removing a stale tarball from a server never leaves a version that no
/// server holds: when no version's holder set was empty before, none is
/// after, and a version that lost its last holder is no longer stale.
pub proof fn lemma_stale_removal_leaves_no_empty_version(f: ImageFamily, tarball: Seq<char>, server: Seq<char>)
    requires
        f.wf(),
        forall|v: Seq<char>| #[trigger] f@.remote_presence.contains_key(v) ==> f@.remote_presence[v] != Set::<Seq<char>>::empty(),
    ensures
        forall|v: Seq<char>|
            #[trigger] after_stale_removal(f, tarball, server).remote_presence.contains_key(v)
                ==> after_stale_removal(f, tarball, server).remote_presence[v] != Set::<Seq<char>>::empty(),
        match first_version_of(f.remote_presence.key_seq(), f.name@, tarball) {
            Some(i) => {
                let v = f.remote_presence.key_seq()[i];
                f.remote_presence@[v]@.remove(server) == Set::<Seq<char>>::empty() ==> !after_stale_removal(
                    f,
                    tarball,
                    server,
                ).stale_versions.contains(v) && !after_stale_removal(f, tarball, server).remote_presence.contains_key(v)
            },
            None => true,
        },
{
}

/// Tarball names of one family tell versions apart.
proof fn lemma_tarball_name_injective(name: Seq<char>, v: Seq<char>, w: Seq<char>)
    requires
        tarball_name(name, v) == tarball_name(name, w),
    ensures
        v == w,
{
    let a = tarball_name(name, v);
    let b = tarball_name(name, w);
    assert(a.len() == name.len() + 1 + v.len() + 4);
    assert(b.len() == name.len() + 1 + w.len() + 4);
    let lo: int = name.len() as int + 1;
    assert(v =~= a.subrange(lo, lo + v.len()));
    assert(w =~= b.subrange(lo, lo + w.len()));
}

proof fn lemma_first_version_found(vs: Seq<Seq<char>>, name: Seq<char>, tarball: Seq<char>, j: int)
    requires
        0 <= j < vs.len(),
        tarball_name(name, vs[j]) == tarball,
    ensures
        first_version_of(vs, name, tarball) is Some,
        0 <= first_version_of(vs, name, tarball)->0 <= j,
        tarball_name(name, vs[first_version_of(vs, name, tarball)->0]) == tarball,
    decreases vs.len(),
{
    if tarball_name(name, vs[0]) != tarball {
        let t = vs.drop_first();
        assert(t[j - 1] == vs[j]);
        lemma_first_version_found(t, name, tarball, j - 1);
        let i = first_version_of(t, name, tarball)->0;
        assert(vs[i + 1] == t[i]);
    }
}

/// Removing a stale version's tarball from one server only takes that
/// server out of the version's holders: when another server still holds
/// it, the version stays stale and every other part of the family is
/// unchanged.
pub proof fn lemma_removal_keeps_other_holders(f: ImageFamily, v: Seq<char>, server: Seq<char>, other: Seq<char>)
    requires
        f.wf(),
        f@.remote_presence.contains_key(v),
        f@.remote_presence[v].contains(other),
        other != server,
    ensures
        after_stale_removal(f, tarball_name(f.name@, v), server) == (ImageFamilyV {
            remote_presence: f@.remote_presence.insert(v, f@.remote_presence[v].remove(server)),
            ..f@
        }),
{
    let rp = f.remote_presence;
    let t = tarball_name(f.name@, v);
    assert(rp@.contains_key(v));
    let j = rp.lemma_key_index(v);
    lemma_first_version_found(rp.key_seq(), f.name@, t, j);
    let i = first_version_of(rp.key_seq(), f.name@, t)->0;
    lemma_tarball_name_injective(f.name@, rp.key_seq()[i], v);
    let left = rp@[v]@.remove(server);
    assert(f@.remote_presence[v] == rp@[v]@);
    assert(left.contains(other));
    assert(left != Set::<Seq<char>>::empty());
}

/// After a removal every unknown tarball still listed is held by some
/// server.
pub proof fn lemma_unknowns_after_removal_held(us: Seq<UnknownTarball>, tarball: Seq<char>, server: Seq<char>)
    ensures
        forall|i: int|
            0 <= i < unknowns_after_removal(us, tarball, server).len() ==> (#[trigger] unknowns_after_removal(
                us,
                tarball,
                server,
            )[i]).1 != Set::<Seq<char>>::empty(),
    decreases us.len(),
{
    if us.len() > 0 {
        lemma_unknowns_after_removal_held(us.drop_last(), tarball, server);
        let rest = unknowns_after_removal(us.drop_last(), tarball, server);
        let all = unknowns_after_removal(us, tarball, server);
        assert forall|i: int| 0 <= i < all.len() implies (#[trigger] all[i]).1 != Set::<Seq<char>>::empty() by {
            if i < rest.len() {
                assert(all[i] == rest[i]);
            }
        }
    }
}

/// A family whose current image left `server`.
pub open spec fn after_current_removal(f: ImageFamilyV, server: Seq<char>) -> ImageFamilyV {
    match f.current {
        Some(c) => ImageFamilyV {
            current: Some(ManagedImageV { server_presence: c.server_presence.insert(server, false), ..c }),
            ..f
        },
        None => f,
    }
}

/// Unknown tarballs after `server` dropped the tarball: the server leaves
/// its holders, and those no server holds any more are dropped.
pub open spec fn unknowns_after_removal(us: Seq<UnknownTarball>, tarball: Seq<char>, server: Seq<char>) -> Seq<
    (Seq<char>, Set<Seq<char>>),
>
    decreases us.len(),
{
    if us.len() == 0 {
        Seq::empty()
    } else {
        let u = us.last();
        let left = if u.filename@ == tarball {
            u.servers@.remove(server)
        } else {
            u.servers@
        };
        unknowns_after_removal(us.drop_last(), tarball, server) + if left == Set::<Seq<char>>::empty() {
            Seq::<(Seq<char>, Set<Seq<char>>)>::empty()
        } else {
            seq![(u.filename@, left)]
        }
    }
}

/// Unknown tarballs as (filename, holders).
pub open spec fn unknown_pairs_view(us: Seq<UnknownTarball>) -> Seq<(Seq<char>, Set<Seq<char>>)> {
    us.map_values(|u: UnknownTarball| (u.filename@, u.servers@))
}

/// The inventory after `server` reported the tarball gone. Families are
/// visited in order; the first whose current image is the tarball marks it
/// absent from the server and ends the update. Before that, a family holding
/// the tarball as a stale version loses the server from it. When no current
/// image matched, unknown tarballs lose the server too.
pub open spec fn removal_applied(
    fams0: NameMap<ImageFamily>,
    fams1: NameMap<ImageFamily>,
    us0: Seq<UnknownTarball>,
    us1: Seq<UnknownTarball>,
    tarball: Seq<char>,
    server: Seq<char>,
) -> bool {
    &&& families_wf(fams1)
    &&& unknowns_wf(us1)
    &&& fams1.keys == fams0.keys
    &&& fams1.vals.len() == fams0.vals.len()
    &&& match first_current(fams0.vals@, tarball) {
        Some(h) => {
            &&& forall|fi: int|
                0 <= fi < h ==> (#[trigger] fams1.vals@[fi])@ == after_stale_removal(
                    fams0.vals@[fi],
                    tarball,
                    server,
                )
            &&& fams1.vals@[h]@ == after_current_removal(fams0.vals@[h]@, server)
            &&& forall|fi: int| h < fi < fams0.vals.len() ==> (#[trigger] fams1.vals@[fi])@ == fams0.vals@[fi]@
            &&& us1 == us0
        },
        None => {
            &&& forall|fi: int|
                0 <= fi < fams0.vals.len() ==> (#[trigger] fams1.vals@[fi])@ == after_stale_removal(
                    fams0.vals@[fi],
                    tarball,
                    server,
                )
            &&& unknown_pairs_view(us1) == unknowns_after_removal(us0, tarball, server)
        },
    }
}

proof fn lemma_first_current_at(fs: Seq<ImageFamily>, tarball: Seq<char>, i: int)
    requires
        0 <= i <= fs.len(),
        forall|k: int| 0 <= k < i ==> !current_is(#[trigger] fs[k], tarball),
        i == fs.len() || current_is(fs[i], tarball),
    ensures
        first_current(fs, tarball) == (if i < fs.len() {
            Some(i)
        } else {
            None::<int>
        }),
    decreases i,
{
    if i > 0 {
        let t = fs.drop_first();
        assert forall|k: int| 0 <= k < i - 1 implies !current_is(#[trigger] t[k], tarball) by {
            assert(t[k] == fs[k + 1]);
        }
        if i < fs.len() {
            assert(t[i - 1] == fs[i]);
        }
        lemma_first_current_at(t, tarball, i - 1);
    }
}

proof fn lemma_first_version_at(vs: Seq<Seq<char>>, name: Seq<char>, tarball: Seq<char>, i: int)
    requires
        0 <= i <= vs.len(),
        forall|k: int| 0 <= k < i ==> tarball_name(name, #[trigger] vs[k]) != tarball,
        i == vs.len() || tarball_name(name, vs[i]) == tarball,
    ensures
        first_version_of(vs, name, tarball) == (if i < vs.len() {
            Some(i)
        } else {
            None::<int>
        }),
    decreases i,
{
    if i > 0 {
        let t = vs.drop_first();
        assert forall|k: int| 0 <= k < i - 1 implies tarball_name(name, #[trigger] t[k]) != tarball by {
            assert(t[k] == vs[k + 1]);
        }
        if i < vs.len() {
            assert(t[i - 1] == vs[i]);
        }
        lemma_first_version_at(t, name, tarball, i - 1);
    }
}

/// Every held set of a version map is well formed when every set it maps
/// to is.
proof fn lemma_version_sets_wf(m: NameMap<NameSet>)
    requires
        m.wf(),
        forall|k: Seq<char>| #[trigger] m@.contains_key(k) ==> m@[k].wf(),
    ensures
        crate::models::version_servers_wf(m),
{
    assert forall|i: int| 0 <= i < m.vals.len() implies (#[trigger] m.vals@[i]).wf() by {
        m.lemma_entry(i);
    }
}

/// Index of the first version of `fam` whose tarball is `tarball`.
fn find_stale_version(fam: &ImageFamily, tarball: &str) -> (r: Option<usize>)
    requires
        fam.wf(),
    ensures
        match r {
            Some(j) => j < fam.remote_presence.keys@.len() && first_version_of(
                fam.remote_presence.key_seq(),
                fam.name@,
                tarball@,
            ) == Some(j as int),
            None => first_version_of(fam.remote_presence.key_seq(), fam.name@, tarball@) is None,
        },
{
    let ghost vs = fam.remote_presence.key_seq();
    let n = fam.remote_presence.keys.len();
    let mut j: usize = 0;
    while j < n
        invariant
            j <= n,
            n == fam.remote_presence.keys@.len(),
            vs == fam.remote_presence.key_seq(),
            forall|k: int| 0 <= k < j ==> tarball_name(fam.name@, #[trigger] vs[k]) != tarball@,
        decreases n - j,
    {
        let t = tarball_filename(fam.name.as_str(), fam.remote_presence.keys[j].as_str());
        assert(vs[j as int] == fam.remote_presence.keys@[j as int]@);
        if crate::strings::str_eq(t.as_str(), tarball) {
            proof {
                lemma_first_version_at(vs, fam.name@, tarball@, j as int);
            }
            return Some(j);
        }
        j = j + 1;
    }
    proof {
        lemma_first_version_at(vs, fam.name@, tarball@, j as int);
    }
    None
}

/// A family after a stale removal (see `after_stale_removal`).
fn remove_stale_holder(fam: &mut ImageFamily, tarball: &str, server: &str)
    requires
        old(fam).wf(),
    ensures
        final(fam).wf(),
        final(fam)@ == after_stale_removal(*old(fam), tarball@, server@),
{
    let ghost f0 = *fam;
    match find_stale_version(fam, tarball) {
        None => {},
        Some(j) => {
            let ghost v = fam.remote_presence.key_seq()[j as int];
            proof {
                fam.remote_presence.lemma_entry(j as int);
            }
            let mut held = fam.remote_presence.replace_at(j, NameSet::new());
            assert(held == f0.remote_presence@[v]);
            assert(held.wf());
            held.remove(server);
            if held.is_empty() {
                let key = fam.remote_presence.keys[j].clone();
                assert(key@ == v);
                let _ = fam.remote_presence.remove(key.as_str());
                let _ = fam.stale_versions.remove(key.as_str());
                proof {
                    assert forall|k: Seq<char>| #[trigger] fam.remote_presence@.contains_key(k) implies fam.remote_presence@[k].wf() by {
                        assert(f0.remote_presence@.contains_key(k));
                        let i = f0.remote_presence.lemma_key_index(k);
                    }
                    lemma_version_sets_wf(fam.remote_presence);
                    assert(crate::models::version_servers_view(fam.remote_presence) =~= crate::models::version_servers_view(f0.remote_presence).remove(v));
                    assert(fam@ =~= after_stale_removal(f0, tarball@, server@));
                }
            } else {
                let _ = fam.remote_presence.replace_at(j, held);
                proof {
                    assert forall|k: Seq<char>| #[trigger] fam.remote_presence@.contains_key(k) implies fam.remote_presence@[k].wf() by {
                        if k != v {
                            let i = f0.remote_presence.lemma_key_index(k);
                        }
                    }
                    lemma_version_sets_wf(fam.remote_presence);
                    assert(crate::models::version_servers_view(fam.remote_presence) =~= crate::models::version_servers_view(f0.remote_presence).insert(v, held@));
                    assert(fam@ =~= after_stale_removal(f0, tarball@, server@));
                }
            }
        },
    }
}

/// Folds `server` reporting `tarball` deleted into the inventory (see
/// `removal_applied`).
pub fn drop_holder(
    families: &mut NameMap<ImageFamily>,
    unknowns: &mut Vec<UnknownTarball>,
    tarball: &str,
    server: &str,
)
    requires
        families_wf(*old(families)),
        unknowns_wf(old(unknowns)@),
    ensures
        removal_applied(*old(families), *final(families), old(unknowns)@, final(unknowns)@, tarball@, server@),
{
    let ghost f0 = *families;
    let n = families.vals.len();
    let mut fi: usize = 0;
    while fi < n
        invariant
            fi <= n,
            n == f0.vals.len(),
            f0 == *old(families),
            families_wf(*families),
            families.keys == f0.keys,
            families.vals.len() == n,
            *unknowns == *old(unknowns),
            unknowns_wf(unknowns@),
            forall|k: int| 0 <= k < fi ==> !current_is(#[trigger] f0.vals@[k], tarball@),
            forall|k: int| 0 <= k < fi ==> (#[trigger] families.vals@[k])@ == after_stale_removal(f0.vals@[k], tarball@, server@),
            forall|k: int| fi <= k < n ==> #[trigger] families.vals@[k] == f0.vals@[k],
        decreases n - fi,
    {
        let hit = match &families.vals[fi].current {
            Some(c) => {
                let t = tarball_filename(c.name.as_str(), c.version.as_str());
                crate::strings::str_eq(t.as_str(), tarball)
            },
            None => false,
        };
        let ghost prev = families.vals@;
        proof {
            families.lemma_entry(fi as int);
        }
        let mut fam = families.replace_at(fi, placeholder_family());
        if hit {
            let ghost g = fam@;
            match &mut fam.current {
                Some(cur) => {
                    cur.server_presence.insert(server.to_owned(), false);
                },
                None => {},
            }
            assert(fam@ =~= after_current_removal(g, server@));
            families.replace_at(fi, fam);
            proof {
                lemma_first_current_at(f0.vals@, tarball@, fi as int);
                assert(g == f0.vals@[fi as int]@);
                assert(families.vals@[fi as int]@ == after_current_removal(f0.vals@[fi as int]@, server@));
                assert forall|k: int| 0 <= k < fi implies (#[trigger] families.vals@[k])@ == after_stale_removal(f0.vals@[k], tarball@, server@) by {
                    assert(families.vals@[k] == prev[k]);
                }
                assert forall|k: int| fi < k < n implies (#[trigger] families.vals@[k])@ == f0.vals@[k]@ by {
                    assert(families.vals@[k] == prev[k]);
                }

                assert forall|j: int| 0 <= j < families.vals.len() implies (#[trigger] families.vals@[j]).wf() by {
                    if j != fi {
                        assert(families.vals@[j] == prev[j]);
                    }
                }
            }
            return ;
        }
        remove_stale_holder(&mut fam, tarball, server);
        families.replace_at(fi, fam);
        proof {
            assert forall|j: int| 0 <= j < families.vals.len() implies (#[trigger] families.vals@[j]).wf() by {
                if j != fi {
                    assert(families.vals@[j] == prev[j]);
                }
            }
        }
        fi = fi + 1;
    }
    proof {
        lemma_first_current_at(f0.vals@, tarball@, n as int);
    }
    let mut old_us: Vec<UnknownTarball> = Vec::new();
    std::mem::swap(&mut old_us, unknowns);
    let ghost us0 = old_us@;
    let mut i: usize = 0;
    assert(us0.take(0) =~= Seq::<UnknownTarball>::empty());
    assert(unknown_pairs_view(unknowns@) =~= Seq::<(Seq<char>, Set<Seq<char>>)>::empty());
    while i < old_us.len()
        invariant
            i <= old_us@.len(),
            us0 == old_us@,
            unknowns_wf(us0),
            unknowns_wf(unknowns@),
            unknown_pairs_view(unknowns@) == unknowns_after_removal(us0.take(i as int), tarball@, server@),
        decreases old_us.len() - i,
    {
        let mut u = old_us[i].clone();
        assert(u.wf());
        let ghost before = unknown_pairs_view(unknowns@);
        if crate::strings::str_eq(u.filename.as_str(), tarball) {
            let _ = u.servers.remove(server);
        }
        if !u.servers.is_empty() {
            unknowns.push(u);
            assert(unknown_pairs_view(unknowns@) =~= before.push((u.filename@, u.servers@)));
        }
        proof {
            let t = us0.take(i + 1);
            assert(t.drop_last() =~= us0.take(i as int));
            assert(t.last() == old_us@[i as int]);
            assert(unknown_pairs_view(unknowns@) =~= unknowns_after_removal(t, tarball@, server@));
        }
        i = i + 1;
    }
    assert(us0.take(old_us.len() as int) =~= us0);
}

// ---------------------------------------------------------------------------
// Remote events
// ---------------------------------------------------------------------------

/// The family views with `key`'s current image marking `server` as `flag`.
pub open spec fn mark_presence(
    fams: Map<Seq<char>, ImageFamilyV>,
    key: Seq<char>,
    server: Seq<char>,
    flag: bool,
) -> Map<Seq<char>, ImageFamilyV> {
    if fams.contains_key(key) && fams[key].current is Some {
        let f = fams[key];
        let c = f.current->0;
        fams.insert(
            key,
            ImageFamilyV {
                current: Some(ManagedImageV { server_presence: c.server_presence.insert(server, flag), ..c }),
                ..f
            },
        )
    } else {
        fams
    }
}

/// Marks `server` in the presence of `key`'s current image, if any.
fn set_current_presence(families: &mut NameMap<ImageFamily>, key: &str, server: &str, flag: bool)
    requires
        families_wf(*old(families)),
    ensures
        families_wf(*final(families)),
        final(families).keys == old(families).keys,
        family_views(*final(families)) == mark_presence(family_views(*old(families)), key@, server@, flag),
{
    let ghost f0 = *families;
    match families.find(key) {
        Some(i) => {
            proof {
                families.lemma_entry(i as int);
            }
            let ghost prev = families.vals@;
            let mut fam = families.replace_at(i, placeholder_family());
            let ghost g = fam@;
            match &mut fam.current {
                Some(cur) => {
                    cur.server_presence.insert(server.to_owned(), flag);
                },
                None => {},
            }
            families.replace_at(i, fam);
            proof {
                assert forall|j: int| 0 <= j < families.vals.len() implies (#[trigger] families.vals@[j]).wf() by {
                    if j != i {
                        assert(families.vals@[j] == prev[j]);
                    }
                }
                assert(family_views(*families) =~= mark_presence(family_views(f0), key@, server@, flag));
            }
        },
        None => {
            assert(family_views(*families) =~= mark_presence(family_views(f0), key@, server@, flag));
        },
    }
}

/// Scan outcomes by server.
pub open spec fn status_views(m: NameMap<ScanStatus>) -> Map<Seq<char>, ScanStatusV> {
    m@.map_values(|s: ScanStatus| s@)
}

/// The table and the search were rebuilt from the inventory.
pub open spec fn rows_rebuilt(old: App, new: App) -> bool {
    &&& rows_view(new.rows@) == table_rows(new.families.vals@, new.unknowns@)
    &&& new.searcher.item_count == searchable(new.rows@.len())
    &&& new.searcher.pattern@ == old.searcher.pattern@
}

/// The status line with the inventory counts and no build counted.
pub open spec fn counts_of(a: App) -> Seq<char> {
    counts_text(a.families.keys@.len(), stale_total(a.families.vals@), a.unknowns@.len(), 0)
}

/// The counts status line with the number of images being built.
pub open spec fn build_counts_of(a: App) -> Seq<char> {
    counts_text(
        a.families.keys@.len(),
        stale_total(a.families.vals@),
        a.unknowns@.len(),
        building_count(a.families.vals@),
    )
}

/// A server's scan came back (see `process_remote_event`).
pub open spec fn scan_recorded(
    old: App,
    new: App,
    server: Seq<char>,
    result: Result<Seq<Seq<char>>, Seq<char>>,
) -> bool {
    &&& new == App {
        scanned_servers: new.scanned_servers,
        server_scan_status: new.server_scan_status,
        families: new.families,
        unknowns: new.unknowns,
        status_message: new.status_message,
        rows: new.rows,
        searcher: new.searcher,
        ..old
    }
    &&& new.scanned_servers == old.scanned_servers + 1
    &&& new.server_scan_status.wf()
    &&& status_views(new.server_scan_status) == status_views(old.server_scan_status).insert(
        server,
        match result {
            Ok(_) => ScanStatusV::Succeeded,
            Err(e) => ScanStatusV::Error(e),
        },
    )
    &&& match result {
        Ok(files) => scan_folded(old.families, new.families, old.unknowns@, new.unknowns@, server, files),
        Err(_) => new.families == old.families && new.unknowns == old.unknowns,
    }
    &&& new.status_message@ == if new.scanned_servers >= new.total_servers {
        counts_of(new)
    } else {
        "Scanning servers... "@ + decimal(new.scanned_servers as nat) + seq!['/'] + decimal(
            new.total_servers as nat,
        )
    }
    &&& rows_rebuilt(old, new)
}

/// After a deploy or removal result: one fewer awaited, and when none is
/// left the operation is over, the table rebuilt and the counts shown.
pub open spec fn operation_counted(mid: App, new: App) -> bool {
    let left = if mid.operation_expected > 0 {
        mid.operation_expected - 1
    } else {
        0
    };
    if left == 0 {
        &&& new == App {
            operation_expected: 0,
            operation_in_flight: false,
            rows: new.rows,
            searcher: new.searcher,
            status_message: new.status_message,
            ..mid
        }
        &&& rows_rebuilt(mid, new)
        &&& new.status_message@ == counts_of(new)
    } else {
        new == App { operation_expected: left as usize, ..mid }
    }
}

/// A deploy result came back: a success marks the image present on the
/// server (the image is the one being deployed, named by
/// `current_build_name`, or else the family named like the server).
pub open spec fn deploy_recorded(
    old: App,
    new: App,
    server: Seq<char>,
    success: bool,
    error: Option<Seq<char>>,
    message: Seq<char>,
    families: NameMap<ImageFamily>,
) -> bool {
    let key = match old.current_build_name {
        Some(n) => n@,
        None => server,
    };
    &&& families_wf(families)
    &&& families.keys == old.families.keys
    &&& family_views(families) == if success {
        mark_presence(family_views(old.families), key, server, true)
    } else {
        family_views(old.families)
    }
    &&& message == if success {
        "Deployed to "@ + server
    } else {
        match error {
            Some(e) => "Deploy failed on "@ + server + ": "@ + e,
            None => old.status_message@,
        }
    }
}

/// A removal result came back: a success takes the server off the
/// tarball's holders (see `removal_applied`).
pub open spec fn remove_recorded(
    old: App,
    server: Seq<char>,
    tarball: Seq<char>,
    success: bool,
    error: Option<Seq<char>>,
    message: Seq<char>,
    families: NameMap<ImageFamily>,
    unknowns: Seq<UnknownTarball>,
) -> bool {
    &&& if success {
        removal_applied(old.families, families, old.unknowns@, unknowns, tarball, server)
    } else {
        families == old.families && unknowns == old.unknowns@
    }
    &&& message == if success {
        "Removed from "@ + server
    } else {
        match error {
            Some(e) => "Remove failed on "@ + server + ": "@ + e,
            None => old.status_message@,
        }
    }
}

/// A listing or its error, as text.
pub open spec fn listing_view(r: Result<Vec<String>, String>) -> Result<Seq<Seq<char>>, Seq<char>> {
    match r {
        Ok(v) => Ok(view_names(v@)),
        Err(e) => Err(e@),
    }
}

pub open spec fn opt_text(o: Option<String>) -> Option<Seq<char>> {
    match o {
        Some(s) => Some(s@),
        None => None,
    }
}

/// What folding in a remote event does (see `process_remote_event`).
pub open spec fn remote_event_applied(old: App, new: App, event: RemoteEvent) -> bool {
    match event {
        RemoteEvent::Scan { server_name, filenames } => scan_recorded(
            old,
            new,
            server_name@,
            listing_view(filenames),
        ),
        RemoteEvent::Deploy { server_name, success, error } => exists|mid: App|
            {
                &&& deploy_recorded(old, mid, server_name@, success, opt_text(error), mid.status_message@, mid.families)
                &&& mid == App { families: mid.families, status_message: mid.status_message, ..old }
                &&& operation_counted(mid, new)
            },
        RemoteEvent::Remove { server_name, tarball, success, error } => exists|mid: App|
            {
                &&& remove_recorded(old, server_name@, tarball@, success, opt_text(error), mid.status_message@, mid.families, mid.unknowns@)
                &&& mid == App {
                    families: mid.families,
                    unknowns: mid.unknowns,
                    status_message: mid.status_message,
                    ..old
                }
                &&& operation_counted(mid, new)
            },
    }
}

impl App {
    /// Ends one awaited deploy or removal (see `operation_counted`).
    fn count_operation(&mut self)
        requires
            old(self).wf(),
        ensures
            final(self).wf(),
            operation_counted(*old(self), *final(self)),
    {
        self.operation_expected = if self.operation_expected > 0 {
            self.operation_expected - 1
        } else {
            0
        };
        if self.operation_expected == 0 {
            self.operation_in_flight = false;
            self.rebuild_rows();
            self.status_message = count_status(self, false);
        }
    }

    /// Folds in a finished scan, deploy or removal.
    ///
    /// A scan records the server's outcome, folds its listing into the
    /// inventory (see `apply_scan_results`), shows progress until every
    /// server has answered and then the counts, and rebuilds the table. A
    /// deploy or removal result updates the inventory and the status line;
    /// once no result is awaited any more the table is rebuilt and the
    /// counts shown.
    pub fn process_remote_event(&mut self, event: RemoteEvent)
        requires
            old(self).wf(),
            event is Scan ==> old(self).scanned_servers < usize::MAX,
        ensures
            final(self).wf(),
            remote_event_applied(*old(self), *final(self), event),
    {
        match event {
            RemoteEvent::Scan { server_name, filenames } => {
                let ghost g = *self;
                self.scanned_servers = self.scanned_servers + 1;
                let ghost res = listing_view(filenames);
                let ghost st0 = status_views(self.server_scan_status);
                match filenames {
                    Ok(files) => {
                        self.server_scan_status.insert(server_name.clone(), ScanStatus::Succeeded);
                        crate::remote::apply_scan_results(
                            &mut self.families,
                            &mut self.unknowns,
                            server_name.as_str(),
                            files.as_slice(),
                        );
                    },
                    Err(err) => {
                        let ghost ev = err@;
                        self.server_scan_status.insert(server_name.clone(), ScanStatus::Error(err));
                    },
                }
                assert(status_views(self.server_scan_status) =~= st0.insert(
                    server_name@,
                    match res {
                        Ok(_) => ScanStatusV::Succeeded,
                        Err(e) => ScanStatusV::Error(e),
                    },
                ));
                if self.scanned_servers >= self.total_servers {
                    self.status_message = count_status(self, false);
                } else {
                    let mut m = "Scanning servers... ".to_owned();
                    let a = usize_to_string(self.scanned_servers);
                    m.append(a.as_str());
                    push_char(&mut m, '/');
                    let b = usize_to_string(self.total_servers);
                    m.append(b.as_str());
                    assert(m@ =~= "Scanning servers... "@ + decimal(self.scanned_servers as nat) + seq!['/'] + decimal(self.total_servers as nat));
                    self.status_message = m;
                }
                self.rebuild_rows();
            },
            RemoteEvent::Deploy { server_name, success, error } => {
                let ghost g = *self;
                if success {
                    let mut m = "Deployed to ".to_owned();
                    m.append(server_name.as_str());
                    self.status_message = m;
                    let key = match &self.current_build_name {
                        Some(n) => n.clone(),
                        None => server_name.clone(),
                    };
                    set_current_presence(&mut self.families, key.as_str(), server_name.as_str(), true);
                } else {
                    match &error {
                        Some(e) => {
                            let mut m = "Deploy failed on ".to_owned();
                            m.append(server_name.as_str());
                            m.append(": ");
                            m.append(e.as_str());
                            self.status_message = m;
                        },
                        None => {},
                    }
                }
                let ghost mid = *self;
                assert(deploy_recorded(g, mid, server_name@, success, opt_text(error), mid.status_message@, mid.families));
                self.count_operation();
            },
            RemoteEvent::Remove { server_name, tarball, success, error } => {
                let ghost g = *self;
                if success {
                    let mut m = "Removed from ".to_owned();
                    m.append(server_name.as_str());
                    self.status_message = m;
                    drop_holder(&mut self.families, &mut self.unknowns, tarball.as_str(), server_name.as_str());
                } else {
                    match &error {
                        Some(e) => {
                            let mut m = "Remove failed on ".to_owned();
                            m.append(server_name.as_str());
                            m.append(": ");
                            m.append(e.as_str());
                            self.status_message = m;
                        },
                        None => {},
                    }
                }
                let ghost mid = *self;
                assert(remove_recorded(g, server_name@, tarball@, success, opt_text(error), mid.status_message@, mid.families, mid.unknowns@));
                self.count_operation();
            },
        }
    }
}

// ---------------------------------------------------------------------------
// Build events
// ---------------------------------------------------------------------------

/// A completion that wrote the tarball.
pub open spec fn writes_tarball(e: BuildEvent) -> bool {
    match e {
        BuildEvent::BuildComplete { tarball_written, .. } => tarball_written,
        _ => false,
    }
}

/// A log after appending, keeping only the newest `MAX_LOG_LINES` lines.
pub open spec fn capped(log: Seq<Seq<char>>) -> Seq<Seq<char>> {
    if log.len() > MAX_LOG_LINES {
        log.skip(log.len() - MAX_LOG_LINES)
    } else {
        log
    }
}

/// A capped log holds at most `MAX_LOG_LINES` lines, the newest ones, in
/// order.
pub proof fn lemma_capped_keeps_newest(log: Seq<Seq<char>>)
    ensures
        capped(log).len() <= MAX_LOG_LINES,
        capped(log).len() == if log.len() > MAX_LOG_LINES {
            MAX_LOG_LINES as int
        } else {
            log.len() as int
        },
        forall|i: int|
            0 <= i < capped(log).len() ==> #[trigger] capped(log)[i] == log[log.len() - capped(log).len() + i],
{
}

/// The family views with a line added to `name`'s current build log.
pub open spec fn log_appended(fams: Map<Seq<char>, ImageFamilyV>, name: Seq<char>, line: Seq<char>) -> Map<
    Seq<char>,
    ImageFamilyV,
> {
    if fams.contains_key(name) && fams[name].current is Some {
        let f = fams[name];
        let c = f.current->0;
        fams.insert(
            name,
            ImageFamilyV { current: Some(ManagedImageV { build_log: capped(c.build_log.push(line)), ..c }), ..f },
        )
    } else {
        fams
    }
}

/// The family views with `name`'s current image in build state `st`.
pub open spec fn state_set(fams: Map<Seq<char>, ImageFamilyV>, name: Seq<char>, st: crate::models::BuildStateV) -> Map<
    Seq<char>,
    ImageFamilyV,
> {
    if fams.contains_key(name) && fams[name].current is Some {
        let f = fams[name];
        let c = f.current->0;
        fams.insert(name, ImageFamilyV { current: Some(ManagedImageV { build_state: st, ..c }), ..f })
    } else {
        fams
    }
}

/// The build being followed, or the log viewer being open, shows the line.
pub open spec fn shows_line(a: App, name: Seq<char>) -> bool {
    (match a.current_build_name {
        Some(n) => n@ == name,
        None => false,
    }) || a.viewing_logs
}

/// What one build event does. A line joins the image's build log, and the
/// viewer's lines when it follows that build or is open. Completion records
/// the outcome, ends the build, rebuilds the table and shows the counts.
pub open spec fn build_event_applied(old: App, new: App, e: BuildEvent) -> bool {
    &&& families_wf(new.families)
    &&& new.families.keys == old.families.keys
    &&& match e {
        BuildEvent::LogLine { image_name, line, .. } => {
            &&& new == App { families: new.families, current_log_lines: new.current_log_lines, ..old }
            &&& family_views(new.families) == log_appended(family_views(old.families), image_name@, line@)
            &&& view_names(new.current_log_lines@) == if shows_line(old, image_name@) {
                capped(view_names(old.current_log_lines@).push(line@))
            } else {
                view_names(old.current_log_lines@)
            }
        },
        BuildEvent::BuildComplete { image_name, result, .. } => {
            &&& new == App {
                families: new.families,
                current_build_name: if opt_text(old.current_build_name) == Some(image_name@) {
                    None
                } else {
                    old.current_build_name
                },
                rows: new.rows,
                searcher: new.searcher,
                status_message: new.status_message,
                ..old
            }
            &&& family_views(new.families) == state_set(
                family_views(old.families),
                image_name@,
                match result {
                    Ok(_) => crate::models::BuildStateV::Success,
                    Err(msg) => crate::models::BuildStateV::Failed(msg@),
                },
            )
            &&& rows_rebuilt(old, new)
            &&& new.status_message@ == build_counts_of(new)
        },
    }
}

/// Appends a line, dropping the oldest beyond `MAX_LOG_LINES`.
fn push_capped(log: &mut Vec<String>, line: String)
    ensures
        view_names(final(log)@) == capped(view_names(old(log)@).push(line@)),
{
    let ghost l0 = view_names(log@).push(line@);
    log.push(line);
    assert(view_names(log@) =~= l0);
    let ghost full = view_names(log@);
    while log.len() > MAX_LOG_LINES
        invariant
            full == l0,
            view_names(log@) == capped(full) || (log@.len() > MAX_LOG_LINES && view_names(log@) == full.skip(full.len() - log@.len())),
            log@.len() <= full.len(),
        decreases log.len(),
    {
        let ghost before = view_names(log@);
        log.remove(0);
        assert(view_names(log@) =~= before.drop_first());
        assert(full.skip(full.len() - log@.len()) =~= full.skip(full.len() - log@.len() - 1).drop_first());
    }
    proof {
        if full.len() > MAX_LOG_LINES {
            assert(view_names(log@) =~= capped(full));
        } else {
            assert(full.skip(0) =~= full);
        }
    }
}

impl App {
    /// Folds in one build event (see `build_event_applied`). Returns
    /// whether the build wrote its tarball, in which case the staging
    /// directory is to be re-read (`refresh_local_tarballs`) and the table
    /// rebuilt.
    pub fn apply_build_event(&mut self, event: &BuildEvent) -> (refresh: bool)
        requires
            old(self).wf(),
        ensures
            final(self).wf(),
            build_event_applied(*old(self), *final(self), *event),
            refresh == writes_tarball(*event),
    {
        let ghost g = *self;
        match event {
            BuildEvent::LogLine { image_name, line, .. } => {
                let shows = match &self.current_build_name {
                    Some(n) => crate::strings::str_eq(n.as_str(), image_name.as_str()),
                    None => false,
                } || self.viewing_logs;
                match self.families.find(image_name.as_str()) {
                    Some(i) => {
                        proof {
                            self.families.lemma_entry(i as int);
                        }
                        let ghost prev = self.families.vals@;
                        let mut fam = self.families.replace_at(i, placeholder_family());
                        match &mut fam.current {
                            Some(cur) => {
                                push_capped(&mut cur.build_log, line.clone());
                            },
                            None => {},
                        }
                        self.families.replace_at(i, fam);
                        proof {
                            assert forall|j: int| 0 <= j < self.families.vals.len() implies (#[trigger] self.families.vals@[j]).wf() by {
                                if j != i {
                                    assert(self.families.vals@[j] == prev[j]);
                                }
                            }
                            assert(family_views(self.families) =~= log_appended(family_views(g.families), image_name@, line@));
                        }
                    },
                    None => {
                        assert(family_views(self.families) =~= log_appended(family_views(g.families), image_name@, line@));
                    },
                }
                if shows {
                    push_capped(&mut self.current_log_lines, line.clone());
                }
                false
            },
            BuildEvent::BuildComplete { image_name, result, tarball_written } => {
                let st = match result {
                    Ok(()) => BuildState::Success,
                    Err(e) => BuildState::Failed(e.clone()),
                };
                match self.families.find(image_name.as_str()) {
                    Some(i) => {
                        proof {
                            self.families.lemma_entry(i as int);
                        }
                        let ghost prev = self.families.vals@;
                        let mut fam = self.families.replace_at(i, placeholder_family());
                        match &mut fam.current {
                            Some(cur) => {
                                cur.build_state = st;
                            },
                            None => {},
                        }
                        self.families.replace_at(i, fam);
                        proof {
                            assert forall|j: int| 0 <= j < self.families.vals.len() implies (#[trigger] self.families.vals@[j]).wf() by {
                                if j != i {
                                    assert(self.families.vals@[j] == prev[j]);
                                }
                            }
                        }
                    },
                    None => {},
                }
                assert(family_views(self.families) =~= state_set(
                    family_views(g.families),
                    image_name@,
                    match result {
                        Ok(_) => crate::models::BuildStateV::Success,
                        Err(msg) => crate::models::BuildStateV::Failed(msg@),
                    },
                ));
                let follows = match &self.current_build_name {
                    Some(n) => crate::strings::str_eq(n.as_str(), image_name.as_str()),
                    None => false,
                };
                if follows {
                    self.current_build_name = None;
                }
                self.rebuild_rows();
                self.status_message = count_status(self, true);
                *tarball_written
            },
        }
    }

    /// Folds in a batch of build events in the order `event_order` gives,
    /// each as `apply_build_event` does. Returns whether a completion
    /// reported a written tarball.
    pub fn apply_build_events(&mut self, events: &Vec<BuildEvent>) -> (refresh: bool)
        requires
            old(self).wf(),
        ensures
            final(self).wf(),
            exists|order: Seq<usize>, trace: Seq<App>|
                {
                    &&& crate::image_build::is_event_order(events@, order)
                    &&& trace.len() == events@.len() + 1
                    &&& trace[0] == *old(self)
                    &&& trace[events@.len() as int] == *final(self)
                    &&& forall|k: int|
                        0 <= k < events@.len() ==> build_event_applied(
                            #[trigger] trace[k],
                            trace[k + 1],
                            events@[order[k] as int],
                        )
                },
            refresh == exists|k: int| 0 <= k < events@.len() && writes_tarball(#[trigger] events@[k]),
    {
        let order = crate::image_build::event_order(events.as_slice());
        let ghost mut trace: Seq<App> = seq![*self];
        let mut refresh = false;
        let mut k: usize = 0;
        while k < order.len()
            invariant
                k <= order@.len(),
                crate::image_build::is_event_order(events@, order@),
                self.wf(),
                trace.len() == k + 1,
                trace[0] == *old(self),
                trace[k as int] == *self,
                forall|q: int|
                    0 <= q < k ==> build_event_applied(
                        #[trigger] trace[q],
                        trace[q + 1],
                        events@[order@[q] as int],
                    ),
                refresh == exists|q: int| 0 <= q < k && writes_tarball(#[trigger] events@[order@[q] as int]),
            decreases order.len() - k,
        {
            let idx = order[k];
            assert(idx < events@.len());
            let r = self.apply_build_event(&events[idx]);
            proof {
                let prev_trace = trace;
                trace = trace.push(*self);
                assert forall|q: int| 0 <= q < k + 1 implies build_event_applied(
                    #[trigger] trace[q],
                    trace[q + 1],
                    events@[order@[q] as int],
                ) by {
                    if q < k {
                        assert(trace[q] == prev_trace[q]);
                        assert(trace[q + 1] == prev_trace[q + 1]);
                    }
                }
            }
            refresh = refresh || r;
            k = k + 1;
        }
        proof {
            let es = events@;
            let o = order@;
            if exists|j: int| 0 <= j < es.len() && writes_tarball(#[trigger] es[j]) {
                let j = choose|j: int| 0 <= j < es.len() && writes_tarball(#[trigger] es[j]);
                assert(crate::image_build::lists(o, j));
                let q = choose|q: int| 0 <= q < o.len() && #[trigger] o[q] == j;
                assert(writes_tarball(es[o[q] as int]));
            }
            if exists|q: int| 0 <= q < k && writes_tarball(#[trigger] es[o[q] as int]) {
                let q = choose|q: int| 0 <= q < k && writes_tarball(#[trigger] es[o[q] as int]);
                assert(o[q] < es.len());
                assert(writes_tarball(es[o[q] as int]));
            }
        }
        refresh
    }
}

// ---------------------------------------------------------------------------
// Menus and the server picker
// ---------------------------------------------------------------------------

/// The action menu and its title for a row.
pub open spec fn menu_for(row: ImageTableRow) -> (Seq<(Action, bool, Seq<char>)>, Seq<char>) {
    match row {
        ImageTableRow::Current(img) => (
            current_menu(img@, on_any_server(img@)),
            img.name@ + seq![' '] + img.version@,
        ),
        ImageTableRow::Stale { family_name, version, .. } => (
            cleanup_menu(),
            family_name@ + seq![' '] + version@ + " (stale)"@,
        ),
        ImageTableRow::Unknown(u) => (cleanup_menu(), u.filename@ + " (unknown)"@),
    }
}

/// The row the selection is on, when it exists.
pub open spec fn selected_table_row(a: App) -> Option<ImageTableRow> {
    match a.selected_index() {
        Some(i) => if i < a.rows@.len() {
            Some(a.rows@[i as int])
        } else {
            None
        },
        None => None,
    }
}

/// Every flag set, one per server.
pub open spec fn all_flags(names: Seq<Seq<char>>) -> Seq<bool> {
    names.map_values(|n: Seq<char>| true)
}

/// Which servers the picker pre-selects, and its title, for an action on a
/// row: a deploy those without the image, a removal those holding it.
pub open spec fn picker_preset(a: App, for_action: Action, row_index: usize) -> (Seq<bool>, Seq<char>) {
    let names = view_names(a.server_names@);
    if row_index < a.rows@.len() {
        match a.rows@[row_index as int] {
            ImageTableRow::Current(img) => (
                match for_action {
                    Action::Deploy => names.map_values(|n: Seq<char>| !present_on(img@.server_presence, n)),
                    Action::Remove => names.map_values(|n: Seq<char>| present_on(img@.server_presence, n)),
                    _ => all_flags(names),
                },
                match for_action {
                    Action::Deploy => "Deploy "@ + img.name@ + " to..."@,
                    Action::Remove => "Remove "@ + img.name@ + " from..."@,
                    _ => "Select servers"@,
                },
            ),
            ImageTableRow::Stale { family_name, version, .. } => (
                if family_views(a.families).contains_key(family_name@) {
                    let held = family_views(a.families)[family_name@].remote_presence;
                    let set = if held.contains_key(version@) {
                        held[version@]
                    } else {
                        Set::<Seq<char>>::empty()
                    };
                    names.map_values(|n: Seq<char>| set.contains(n))
                } else {
                    all_flags(names)
                },
                "Remove "@ + family_name@ + seq![' '] + version@ + " from..."@,
            ),
            ImageTableRow::Unknown(u) => (
                names.map_values(|n: Seq<char>| u.servers@.contains(n)),
                "Remove "@ + u.filename@ + " from..."@,
            ),
        }
    } else {
        (all_flags(names), "Select servers"@)
    }
}

/// The server picker was opened for an action on a row.
pub open spec fn picker_opened(old: App, new: App, for_action: Action, row_index: usize) -> bool {
    &&& new == App { popup: new.popup, popup_selection: 0, ..old }
    &&& new.popup@ == PopupV::ServerPicker {
        selected: picker_preset(old, for_action, row_index).0,
        for_action,
        row_index,
        title: picker_preset(old, for_action, row_index).1,
        server_names: view_names(old.server_names@),
    }
}

/// Number of `true` flags.
pub open spec fn count_true(s: Seq<bool>) -> nat
    decreases s.len(),
{
    if s.len() == 0 {
        0
    } else {
        count_true(s.drop_last()) + if s.last() {
            1nat
        } else {
            0
        }
    }
}

/// The tarball a row stands for.
pub open spec fn row_tarball(row: ImageTableRow) -> Seq<char> {
    match row {
        ImageTableRow::Current(img) => tarball_name(img.name@, img.version@),
        ImageTableRow::Stale { family_name, version, .. } => tarball_name(family_name@, version@),
        ImageTableRow::Unknown(u) => u.filename@,
    }
}

/// The picker was confirmed: with no server chosen nothing happens; a
/// deploy of a current image asks for the upload; a removal is recorded as
/// under way and asks for the deletion; anything else is refused.
pub open spec fn picker_executed(
    old: App,
    new: App,
    for_action: Action,
    row_index: usize,
    selected: Seq<bool>,
    eff: EffectV,
) -> bool {
    let n = count_true(selected);
    let row = if row_index < old.rows@.len() {
        Some(old.rows@[row_index as int])
    } else {
        None
    };
    if n == 0 {
        &&& new == App { popup: new.popup, status_message: new.status_message, ..old }
        &&& new.popup is Hidden
        &&& new.status_message@ == "No servers selected"@
        &&& eff == EffectV::Nothing
    } else {
        match (for_action, row) {
            (Action::Deploy, Some(ImageTableRow::Current(img))) => {
                &&& new == App { popup: new.popup, ..old }
                &&& new.popup is Hidden
                &&& eff == EffectV::Deploy {
                    image_name: img.name@,
                    tarball: tarball_name(img.name@, img.version@),
                    selected,
                    target_count: n as usize,
                }
            },
            (Action::Remove, Some(r)) => {
                &&& new == App {
                    popup: new.popup,
                    operation_in_flight: true,
                    operation_expected: n as usize,
                    status_message: new.status_message,
                    ..old
                }
                &&& new.popup is Hidden
                &&& new.status_message@ == "Removing "@ + row_tarball(r) + " from servers..."@
                &&& eff == EffectV::Remove { tarball: row_tarball(r), selected }
            },
            _ => {
                &&& new == App { popup: new.popup, status_message: new.status_message, ..old }
                &&& new.popup is Hidden
                &&& new.status_message@ == "Cannot perform that action on this row"@
                &&& eff == EffectV::Nothing
            },
        }
    }
}

/// The family views with `name`'s current image building, its log emptied.
pub open spec fn build_begun(fams: Map<Seq<char>, ImageFamilyV>, name: Seq<char>) -> Map<Seq<char>, ImageFamilyV> {
    if fams.contains_key(name) && fams[name].current is Some {
        let f = fams[name];
        let c = f.current->0;
        fams.insert(
            name,
            ImageFamilyV {
                current: Some(
                    ManagedImageV {
                        build_state: crate::models::BuildStateV::Building,
                        build_log: Seq::empty(),
                        ..c
                    },
                ),
                ..f
            },
        )
    } else {
        fams
    }
}

/// Starting a build for the selected row: refused while that image builds
/// (other images may be building); ignored unless a current image is
/// selected; otherwise the image is marked building with an empty log,
/// its build is the one followed, and it is handed back.
pub open spec fn build_started(old: App, new: App, r: Option<crate::models::ManagedImageV>) -> bool {
    match selected_table_row(old) {
        Some(ImageTableRow::Current(img)) => if img.build_state is Building {
            &&& new == App { status_message: new.status_message, ..old }
            &&& new.status_message@ == "Already building this image"@
            &&& r is None
        } else {
            &&& new == App {
                families: new.families,
                current_build_name: new.current_build_name,
                rows: new.rows,
                searcher: new.searcher,
                status_message: new.status_message,
                ..old
            }
            &&& families_wf(new.families)
            &&& new.families.keys == old.families.keys
            &&& family_views(new.families) == build_begun(family_views(old.families), img.name@)
            &&& opt_text(new.current_build_name) == Some(img.name@)
            &&& rows_rebuilt(old, new)
            &&& new.status_message@ == "Building "@ + img.name@ + "..."@
            &&& r == Some(img@)
        },
        _ => new == old && r is None,
    }
}

/// The log viewer was opened on these lines.
pub open spec fn log_opened(old: App, new: App, name: Seq<char>, lines: Seq<Seq<char>>) -> bool {
    &&& new == App {
        viewing_logs: true,
        current_log_lines: new.current_log_lines,
        current_log_title: new.current_log_title,
        log_viewer: LogViewer { scroll_offset: 0, total_lines: 0 },
        log_selection: LogSelection { anchor: None, cursor: None },
        ..old
    }
    &&& view_names(new.current_log_lines@) == lines
    &&& new.current_log_title@ == "Build Log: "@ + name
}

/// What choosing an action from the menu does (the menu is closed first).
pub open spec fn action_handled(old: App, new: App, action: Action, eff: EffectV) -> bool {
    let closed = App { popup: Popup::Hidden, ..old };
    match action {
        Action::Build => exists|mid: App|
            {
                &&& mid == App { popup: mid.popup, ..old }
                &&& mid.popup is Hidden
                &&& build_started(mid, new, match eff {
                    EffectV::StartBuild(img) => Some(img),
                    _ => None,
                })
                &&& (eff is StartBuild || eff is Nothing)
            },
        Action::Deploy | Action::Remove => {
            &&& eff == EffectV::Nothing
            &&& match old.selected_index() {
                Some(idx) => picker_opened(old, new, action, idx),
                None => new == App { popup: new.popup, ..old } && new.popup is Hidden,
            }
        },
        Action::ViewLogs => {
            &&& eff == EffectV::Nothing
            &&& match selected_table_row(old) {
                Some(ImageTableRow::Current(img)) => {
                    &&& log_opened(App { popup: new.popup, ..old }, new, img.name@, view_names(img.build_log@))
                    &&& new.popup is Hidden
                },
                _ => new == App { popup: new.popup, ..old } && new.popup is Hidden,
            }
        },
        Action::DumpLogs => {
            &&& new == App { popup: new.popup, ..old }
            &&& new.popup is Hidden
            &&& eff == match selected_table_row(old) {
                Some(ImageTableRow::Current(img)) => EffectV::DumpLog {
                    name: img.name@,
                    version: img.version@,
                    lines: view_names(img.build_log@),
                },
                _ => EffectV::Nothing,
            }
        },
        Action::Cancel => {
            &&& new == App { popup: new.popup, popup_selection: 0, ..old }
            &&& new.popup is Hidden
            &&& eff == EffectV::Nothing
        },
    }
}

/// What confirming the shown popup does. In the menu, a dimmed entry or a
/// position past the entries does nothing, otherwise its action is taken.
/// In the picker, the position after the servers confirms, the next one
/// cancels, and a server's position toggles it.
pub open spec fn confirmed(old: App, new: App, eff: EffectV) -> bool {
    match old.popup {
        Popup::Actions { entries, .. } => if old.popup_selection < entries@.len() && !entries@[old.popup_selection as int].dimmed {
            action_handled(old, new, entries@[old.popup_selection as int].action, eff)
        } else {
            new == old && eff == EffectV::Nothing
        },
        Popup::ServerPicker { selected, for_action, row_index, .. } => if old.popup_selection == selected@.len() {
            picker_executed(old, new, for_action, row_index, selected@, eff)
        } else if old.popup_selection == selected@.len() + 1 {
            &&& new == App { popup: new.popup, popup_selection: 0, ..old }
            &&& new.popup is Hidden
            &&& eff == EffectV::Nothing
        } else {
            toggled(old, new) && eff == EffectV::Nothing
        },
        Popup::Hidden => new == old && eff == EffectV::Nothing,
    }
}

/// The picker's flag under the popup position was flipped (nothing happens
/// elsewhere).
pub open spec fn toggled(old: App, new: App) -> bool {
    match old.popup {
        Popup::ServerPicker { selected, for_action, row_index, title, server_names } => if old.popup_selection < selected@.len() {
            &&& new == App { popup: new.popup, ..old }
            &&& new.popup@ == PopupV::ServerPicker {
                selected: selected@.update(old.popup_selection as int, !selected@[old.popup_selection as int]),
                for_action,
                row_index,
                title: title@,
                server_names: view_names(server_names@),
            }
        } else {
            new == old
        },
        _ => new == old,
    }
}

/// Size of the list the popup position moves over: the menu's entries, or
/// the picker's servers plus its two buttons.
pub open spec fn popup_len(p: Popup) -> Option<nat> {
    match p {
        Popup::Actions { entries, .. } => Some(entries@.len()),
        Popup::ServerPicker { selected, .. } => Some(selected@.len() + 2),
        Popup::Hidden => None,
    }
}

fn flags_all(n: usize) -> (r: Vec<bool>)
    ensures
        r@.len() == n,
        forall|i: int| 0 <= i < n ==> #[trigger] r@[i],
{
    let mut v: Vec<bool> = Vec::new();
    let mut i: usize = 0;
    while i < n
        invariant
            i <= n,
            v@.len() == i,
            forall|k: int| 0 <= k < i ==> #[trigger] v@[k],
        decreases n - i,
    {
        v.push(true);
        i = i + 1;
    }
    v
}

impl App {
    /// Opens the action menu for the selected row, or hides the popup when
    /// no row is selected.
    pub fn open_action_popup(&mut self)
        requires
            old(self).wf(),
        ensures
            *final(self) == (App { popup: final(self).popup, popup_selection: final(self).popup_selection, ..*old(self) }),
            match selected_table_row(*old(self)) {
                Some(row) => final(self).popup@ == PopupV::Actions { entries: menu_for(row).0, title: menu_for(row).1 }
                    && final(self).popup_selection == 0,
                None => final(self).popup is Hidden && final(self).popup_selection == old(self).popup_selection,
            },
    {
        match self.selected_row_index() {
            Some(idx) => {
                if idx < self.rows.len() {
                    assert(self.rows@[idx as int].wf());
                    let (entries, title) = match &self.rows[idx] {
                        ImageTableRow::Current(image) => {
                            let mut t = image.name.clone();
                            push_char(&mut t, ' ');
                            t.append(image.version.as_str());
                            assert(t@ =~= image.name@ + seq![' '] + image.version@);
                            (build_current_actions(image), t)
                        },
                        ImageTableRow::Stale { family_name, version, .. } => {
                            let mut t = family_name.clone();
                            push_char(&mut t, ' ');
                            t.append(version.as_str());
                            t.append(" (stale)");
                            assert(t@ =~= family_name@ + seq![' '] + version@ + " (stale)"@);
                            (build_cleanup_actions(), t)
                        },
                        ImageTableRow::Unknown(u) => {
                            let mut t = u.filename.clone();
                            t.append(" (unknown)");
                            (build_cleanup_actions(), t)
                        },
                    };
                    self.popup = Popup::Actions { entries, title };
                    self.popup_selection = 0;
                    return ;
                }
            },
            None => {},
        }
        self.popup = Popup::Hidden;
    }

    /// Opens the server picker for an action on a row (see
    /// `picker_preset`).
    pub fn open_server_picker(&mut self, for_action: Action, row_index: usize)
        requires
            old(self).wf(),
        ensures
            picker_opened(*old(self), *final(self), for_action, row_index),
    {
        let ghost names = view_names(self.server_names@);
        let n = self.server_names.len();
        let mut selected: Vec<bool> = Vec::new();
        let title: String;
        if row_index < self.rows.len() {
            assert(self.rows@[row_index as int].wf());
            match &self.rows[row_index] {
                ImageTableRow::Current(image) => {
                    let mut i: usize = 0;
                    while i < n
                        invariant
                            i <= n,
                            n == self.server_names@.len(),
                            names == view_names(self.server_names@),
                            image.wf(),
                            selected@.len() == i,
                            forall|k: int| 0 <= k < i ==> #[trigger] selected@[k] == match for_action {
                                Action::Deploy => !present_on(image@.server_presence, names[k]),
                                Action::Remove => present_on(image@.server_presence, names[k]),
                                _ => true,
                            },
                        decreases n - i,
                    {
                        let present = match image.server_presence.get(self.server_names[i].as_str()) {
                            Some(b) => *b,
                            None => false,
                        };
                        let flag = match for_action {
                            Action::Deploy => !present,
                            Action::Remove => present,
                            _ => true,
                        };
                        selected.push(flag);
                        i = i + 1;
                    }
                    title = match for_action {
                        Action::Deploy => {
                            let mut t = "Deploy ".to_owned();
                            t.append(image.name.as_str());
                            t.append(" to...");
                            t
                        },
                        Action::Remove => {
                            let mut t = "Remove ".to_owned();
                            t.append(image.name.as_str());
                            t.append(" from...");
                            t
                        },
                        _ => "Select servers".to_owned(),
                    };
                    proof {
                        let expect = picker_preset(*self, for_action, row_index).0;
                        assert(selected@ =~= expect);
                    }
                },
                ImageTableRow::Stale { family_name, version, .. } => {
                    match self.families.get(family_name.as_str()) {
                        Some(family) => {
                            proof {
                                let j = self.families.lemma_key_index(family_name@);
                            }
                            assert(family.wf());
                            let held = match family.remote_presence.get(version.as_str()) {
                                Some(h) => h.clone(),
                                None => NameSet::new(),
                            };
                            proof {
                                if family.remote_presence@.contains_key(version@) {
                                    let j = family.remote_presence.lemma_key_index(version@);
                                }
                            }
                            let mut i: usize = 0;
                            while i < n
                                invariant
                                    i <= n,
                                    n == self.server_names@.len(),
                                    names == view_names(self.server_names@),
                                    selected@.len() == i,
                                    forall|k: int| 0 <= k < i ==> #[trigger] selected@[k] == held@.contains(names[k]),
                                decreases n - i,
                            {
                                selected.push(held.contains(self.server_names[i].as_str()));
                                i = i + 1;
                            }
                            proof {
                                assert(selected@ =~= picker_preset(*self, for_action, row_index).0);
                            }
                        },
                        None => {
                            selected = flags_all(n);
                            assert(selected@ =~= picker_preset(*self, for_action, row_index).0);
                        },
                    }
                    let mut t = "Remove ".to_owned();
                    t.append(family_name.as_str());
                    push_char(&mut t, ' ');
                    t.append(version.as_str());
                    t.append(" from...");
                    assert(t@ =~= "Remove "@ + family_name@ + seq![' '] + version@ + " from..."@);
                    title = t;
                },
                ImageTableRow::Unknown(u) => {
                    let mut i: usize = 0;
                    while i < n
                        invariant
                            i <= n,
                            n == self.server_names@.len(),
                            names == view_names(self.server_names@),
                            selected@.len() == i,
                            forall|k: int| 0 <= k < i ==> #[trigger] selected@[k] == u.servers@.contains(names[k]),
                        decreases n - i,
                    {
                        selected.push(u.servers.contains(self.server_names[i].as_str()));
                        i = i + 1;
                    }
                    proof {
                        assert(selected@ =~= picker_preset(*self, for_action, row_index).0);
                    }
                    let mut t = "Remove ".to_owned();
                    t.append(u.filename.as_str());
                    t.append(" from...");
                    title = t;
                },
            }
        } else {
            selected = flags_all(n);
            assert(selected@ =~= picker_preset(*self, for_action, row_index).0);
            title = "Select servers".to_owned();
        }
        let server_names = crate::models::clone_strings(&self.server_names);
        self.popup = Popup::ServerPicker { selected, for_action, row_index, title, server_names };
        self.popup_selection = 0;
    }

    /// Moves the popup position by `delta`, wrapping at both ends.
    pub fn popup_move(&mut self, delta: i32)
        requires
            match popup_len(old(self).popup) {
                Some(m) => m <= i32::MAX && old(self).popup_selection <= i32::MAX && i32::MIN
                    <= old(self).popup_selection + delta <= i32::MAX,
                None => true,
            },
        ensures
            *final(self) == match popup_len(old(self).popup) {
                Some(m) => if m == 0 {
                    *old(self)
                } else {
                    App {
                        popup_selection: wrapped(old(self).popup_selection as int, delta as int, m as int) as usize,
                        ..*old(self)
                    }
                },
                None => *old(self),
            },
    {
        let max = match &self.popup {
            Popup::Actions { entries, .. } => entries.len(),
            Popup::ServerPicker { selected, .. } => selected.len() + 2,
            Popup::Hidden => return ,
        };
        if max == 0 {
            return ;
        }
        self.popup_selection = wrap_index(self.popup_selection, delta, max);
    }

    /// In the picker, flips the server under the popup position.
    pub fn popup_toggle(&mut self)
        ensures
            toggled(*old(self), *final(self)),
    {
        let sel = self.popup_selection;
        match &mut self.popup {
            Popup::ServerPicker { selected, .. } => {
                if sel < selected.len() {
                    let v = selected[sel];
                    selected.set(sel, !v);
                }
            },
            _ => {},
        }
    }

    /// Hides the popup and resets its position.
    pub fn popup_cancel(&mut self)
        ensures
            *final(self) == (App { popup: final(self).popup, popup_selection: 0, ..*old(self) }),
            final(self).popup is Hidden,
    {
        self.popup = Popup::Hidden;
        self.popup_selection = 0;
    }
}

impl App {
    /// Starts a build of the selected current image (see `build_started`);
    /// hands back the image to build.
    pub fn start_build_for_row(&mut self) -> (r: Option<ManagedImage>)
        requires
            old(self).wf(),
        ensures
            final(self).wf(),
            build_started(
                *old(self),
                *final(self),
                match r {
                    Some(img) => Some(img@),
                    None => None,
                },
            ),
    {
        let idx = match self.selected_row_index() {
            Some(i) => i,
            None => return None,
        };
        if idx >= self.rows.len() {
            return None;
        }
        assert(self.rows@[idx as int].wf());
        let ghost g = *self;
        let image = match &self.rows[idx] {
            ImageTableRow::Current(image) => image,
            _ => return None,
        };
        match image.build_state {
            BuildState::Building => {
                self.status_message = "Already building this image".to_owned();
                return None;
            },
            _ => {},
        }
        let for_build = image.clone();
        let name = image.name.clone();
        self.current_build_name = Some(name.clone());
        match self.families.find(name.as_str()) {
            Some(i) => {
                proof {
                    self.families.lemma_entry(i as int);
                }
                let ghost prev = self.families.vals@;
                let mut fam = self.families.replace_at(i, placeholder_family());
                let ghost f_old = fam@;
                match &mut fam.current {
                    Some(cur) => {
                        cur.build_state = BuildState::Building;
                        cur.build_log = Vec::new();
                    },
                    None => {},
                }
                proof {
                    if f_old.current is Some {
                        assert(fam@.current->0.build_log =~= Seq::<Seq<char>>::empty());
                        assert(fam@ =~= ImageFamilyV {
                            current: Some(
                                ManagedImageV {
                                    build_state: crate::models::BuildStateV::Building,
                                    build_log: Seq::empty(),
                                    ..f_old.current->0
                                },
                            ),
                            ..f_old
                        });
                    }
                }
                self.families.replace_at(i, fam);
                proof {
                    assert forall|j: int| 0 <= j < self.families.vals.len() implies (#[trigger] self.families.vals@[j]).wf() by {
                        if j != i {
                            assert(self.families.vals@[j] == prev[j]);
                        }
                    }
                }
            },
            None => {},
        }
        assert(family_views(self.families) =~= build_begun(family_views(g.families), name@));
        self.rebuild_rows();
        let mut m = "Building ".to_owned();
        m.append(name.as_str());
        m.append("...");
        self.status_message = m;
        Some(for_build)
    }

    /// The followed build's log, to be written to a file; without one the
    /// status line says so.
    pub fn dump_current_log(&mut self) -> (r: Option<(String, String, Vec<String>)>)
        requires
            old(self).wf(),
        ensures
            match old(self).current_build_name {
                Some(n) if family_views(old(self).families).contains_key(n@)
                    && family_views(old(self).families)[n@].current is Some => {
                    let c = family_views(old(self).families)[n@].current->0;
                    &&& *final(self) == *old(self)
                    &&& r matches Some((a, b, lines)) && a@ == c.name && b@ == c.version && view_names(lines@) == c.build_log
                },
                _ => {
                    &&& *final(self) == (App { status_message: final(self).status_message, ..*old(self) })
                    &&& final(self).status_message@ == "No build log to dump"@
                    &&& r is None
                },
            },
    {
        match &self.current_build_name {
            Some(name) => {
                match self.families.get(name.as_str()) {
                    Some(family) => {
                        proof {
                            let j = self.families.lemma_key_index(name@);
                        }
                        match &family.current {
                            Some(image) => {
                                let lines = crate::models::clone_strings(&image.build_log);
                                return Some((image.name.clone(), image.version.clone(), lines));
                            },
                            None => {},
                        }
                    },
                    None => {},
                }
            },
            None => {},
        }
        self.status_message = "No build log to dump".to_owned();
        None
    }

    /// Reports how writing a log to a file went.
    pub fn log_dumped(&mut self, result: Result<String, String>)
        ensures
            *final(self) == (App { status_message: final(self).status_message, ..*old(self) }),
            final(self).status_message@ == match result {
                Ok(path) => "Dumped logs to "@ + path@,
                Err(e) => "Failed to dump logs: "@ + e@,
            },
    {
        let m = match result {
            Ok(path) => {
                let mut m = "Dumped logs to ".to_owned();
                m.append(path.as_str());
                m
            },
            Err(e) => {
                let mut m = "Failed to dump logs: ".to_owned();
                m.append(e.as_str());
                m
            },
        };
        self.status_message = m;
    }

    /// A deploy asked for by the picker: without the staging tarball the
    /// status line says to build first; otherwise the deploy is recorded as
    /// under way for that image.
    pub fn begin_deploy(&mut self, image_name: &str, target_count: usize, tarball_present: bool)
        ensures
            if tarball_present {
                &&& *final(self) == (App {
                    operation_in_flight: true,
                    operation_expected: target_count,
                    current_build_name: final(self).current_build_name,
                    status_message: final(self).status_message,
                    ..*old(self)
                })
                &&& opt_text(final(self).current_build_name) == Some(image_name@)
                &&& final(self).status_message@ == "Deploying "@ + image_name@ + "..."@
            } else {
                &&& *final(self) == (App { status_message: final(self).status_message, ..*old(self) })
                &&& final(self).status_message@ == "No local tarball for "@ + image_name@ + " (build first)"@
            },
    {
        if !tarball_present {
            let mut m = "No local tarball for ".to_owned();
            m.append(image_name);
            m.append(" (build first)");
            self.status_message = m;
            return ;
        }
        self.operation_in_flight = true;
        self.operation_expected = target_count;
        self.current_build_name = Some(image_name.to_owned());
        let mut m = "Deploying ".to_owned();
        m.append(image_name);
        m.append("...");
        self.status_message = m;
    }

    /// Carries out a confirmed server picker (see `picker_executed`).
    fn execute_picker(&mut self, for_action: Action, row_index: usize, selected: Vec<bool>) -> (eff: Effect)
        requires
            old(self).wf(),
        ensures
            final(self).wf(),
            picker_executed(*old(self), *final(self), for_action, row_index, selected@, eff@),
    {
        let mut n: usize = 0;
        let mut i: usize = 0;
        assert(selected@.take(0) =~= Seq::<bool>::empty());
        while i < selected.len()
            invariant
                i <= selected@.len(),
                n <= i,
                n == count_true(selected@.take(i as int)),
            decreases selected.len() - i,
        {
            assert(selected@.take(i + 1).drop_last() =~= selected@.take(i as int));
            if selected[i] {
                n = n + 1;
            }
            i = i + 1;
        }
        assert(selected@.take(selected.len() as int) =~= selected@);
        if n == 0 {
            self.popup = Popup::Hidden;
            self.status_message = "No servers selected".to_owned();
            return Effect::Nothing;
        }
        let is_deploy = match for_action {
            Action::Deploy => true,
            _ => false,
        };
        let is_remove = match for_action {
            Action::Remove => true,
            _ => false,
        };
        if row_index < self.rows.len() {
            if is_deploy {
                match &self.rows[row_index] {
                    ImageTableRow::Current(image) => {
                        let name = image.name.clone();
                        let tarball = tarball_filename(image.name.as_str(), image.version.as_str());
                        self.popup = Popup::Hidden;
                        return Effect::Deploy { image_name: name, tarball, selected, target_count: n };
                    },
                    _ => {},
                }
            } else if is_remove {
                let tarball = match &self.rows[row_index] {
                    ImageTableRow::Current(image) => tarball_filename(image.name.as_str(), image.version.as_str()),
                    ImageTableRow::Stale { family_name, version, .. } => tarball_filename(family_name.as_str(), version.as_str()),
                    ImageTableRow::Unknown(u) => u.filename.clone(),
                };
                self.popup = Popup::Hidden;
                self.operation_in_flight = true;
                self.operation_expected = n;
                let mut m = "Removing ".to_owned();
                m.append(tarball.as_str());
                m.append(" from servers...");
                self.status_message = m;
                return Effect::Remove { tarball, selected };
            }
        }
        self.popup = Popup::Hidden;
        self.status_message = "Cannot perform that action on this row".to_owned();
        Effect::Nothing
    }

    /// Takes an action chosen from the menu (see `action_handled`).
    fn handle_action(&mut self, action: Action) -> (eff: Effect)
        requires
            old(self).wf(),
        ensures
            final(self).wf(),
            action_handled(*old(self), *final(self), action, eff@),
    {
        match action {
            Action::Build => {
                self.popup = Popup::Hidden;
                let ghost mid = *self;
                match self.start_build_for_row() {
                    Some(img) => Effect::StartBuild(img),
                    None => Effect::Nothing,
                }
            },
            Action::Deploy | Action::Remove => {
                self.popup = Popup::Hidden;
                match self.selected_row_index() {
                    Some(idx) => {
                        self.open_server_picker(action, idx);
                    },
                    None => {},
                }
                Effect::Nothing
            },
            Action::ViewLogs => {
                self.popup = Popup::Hidden;
                match self.selected_row_index() {
                    Some(idx) => {
                        if idx < self.rows.len() {
                            match &self.rows[idx] {
                                ImageTableRow::Current(image) => {
                                    let logs = crate::models::clone_strings(&image.build_log);
                                    let name = image.name.clone();
                                    self.open_log_viewer(name.as_str(), logs);
                                },
                                _ => {},
                            }
                        }
                    },
                    None => {},
                }
                Effect::Nothing
            },
            Action::DumpLogs => {
                self.popup = Popup::Hidden;
                match self.selected_row_index() {
                    Some(idx) => {
                        if idx < self.rows.len() {
                            match &self.rows[idx] {
                                ImageTableRow::Current(image) => {
                                    let lines = crate::models::clone_strings(&image.build_log);
                                    return Effect::DumpLog {
                                        name: image.name.clone(),
                                        version: image.version.clone(),
                                        lines,
                                    };
                                },
                                _ => {},
                            }
                        }
                    },
                    None => {},
                }
                Effect::Nothing
            },
            Action::Cancel => {
                self.popup = Popup::Hidden;
                self.popup_selection = 0;
                Effect::Nothing
            },
        }
    }

    /// Confirms the shown popup (see `confirmed`).
    pub fn popup_confirm(&mut self) -> (eff: Effect)
        requires
            old(self).wf(),
        ensures
            final(self).wf(),
            confirmed(*old(self), *final(self), eff@),
    {
        let sel = self.popup_selection;
        let chosen: Option<Action> = match &self.popup {
            Popup::Actions { entries, .. } => {
                if sel < entries.len() && !entries[sel].dimmed {
                    Some(entries[sel].action)
                } else {
                    None
                }
            },
            _ => None,
        };
        match &self.popup {
            Popup::Actions { .. } => {
                return match chosen {
                    Some(action) => self.handle_action(action),
                    None => Effect::Nothing,
                };
            },
            Popup::Hidden => {
                return Effect::Nothing;
            },
            Popup::ServerPicker { .. } => {},
        }
        let (len, for_action, row_index) = match &self.popup {
            Popup::ServerPicker { selected, for_action, row_index, .. } => (selected.len(), *for_action, *row_index),
            _ => (0, Action::Cancel, 0),
        };
        if sel == len {
            let mut copy: Vec<bool> = Vec::new();
            match &self.popup {
                Popup::ServerPicker { selected, .. } => {
                    let mut i: usize = 0;
                    while i < selected.len()
                        invariant
                            i <= selected@.len(),
                            copy@ == selected@.take(i as int),
                        decreases selected.len() - i,
                    {
                        copy.push(selected[i]);
                        assert(selected@.take(i + 1) =~= selected@.take(i as int).push(selected@[i as int]));
                        i = i + 1;
                    }
                    assert(selected@.take(selected@.len() as int) =~= selected@);
                },
                _ => {},
            }
            self.execute_picker(for_action, row_index, copy)
        } else if sel > 0 && sel - 1 == len {
            self.popup = Popup::Hidden;
            self.popup_selection = 0;
            Effect::Nothing
        } else {
            self.popup_toggle();
            Effect::Nothing
        }
    }
}

} // verus!
