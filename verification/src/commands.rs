//! What the non-interactive subcommands compute: which rows `list` shows
//! and how, the `status` and `servers` tables, the images `build` and
//! `deploy` act on, and the tarballs `clean` and `remove` delete.
use vstd::prelude::*;

use crate::inventory::{rows_view, rows_wf};
use crate::models::{
    BuildState, BuildStateV, ImageFamily, ImageTableRow, ManagedImage, ManagedImageV, RowV,
    ScanStatus, ScanStatusV, Server, ServerV, UnknownTarball,
};
use crate::names::{view_names, NameMap, NameSet};
use crate::output::{render_table, table_text};
use crate::remote::{families_wf, tarball_filename, tarball_name, unknowns_wf};
use crate::select::{
    current_resolution, family_views, parse_selector, resolution, resolve, resolve_current,
    ImageSelector, ResolvedTarget, TargetV,
};
use crate::strings::{contains, decimal, lowercase, push_char, seq_contains, to_lowercase, usize_to_string};

verus! {

// ---------------------------------------------------------------------------
// Arguments
// ---------------------------------------------------------------------------

/// Options of `list`.
pub struct ListArgs {
    pub no_scan: bool,
    pub filter: Option<String>,
    pub current: bool,
    pub stale: bool,
    pub unknown: bool,
}

/// Options of `clean`.
pub struct CleanArgs {
    pub stale: bool,
    pub unknown: bool,
    pub server: Vec<String>,
    pub dry_run: bool,
}

/// Options of `deploy`.
pub struct DeployArgs {
    pub images: Vec<String>,
    pub all: bool,
    pub server: Vec<String>,
    pub build: bool,
    pub missing_only: bool,
    pub dry_run: bool,
}

/// Options of `remove`.
pub struct RemoveArgs {
    pub targets: Vec<String>,
    pub server: Vec<String>,
    pub dry_run: bool,
}

/// Options of `build`.
pub struct BuildArgs {
    pub images: Vec<String>,
    pub all: bool,
    pub dump_log: bool,
}

// ---------------------------------------------------------------------------
// list
// ---------------------------------------------------------------------------

/// Whether a row's kind is shown: everything when no kind flag is given.
pub open spec fn kind_shown(row: RowV, show_all: bool, current: bool, stale: bool, unknown: bool) -> bool {
    match row {
        RowV::Current(_) => show_all || current,
        RowV::Stale { .. } => show_all || stale,
        RowV::Unknown { .. } => show_all || unknown,
    }
}

/// Whether a row's kind passes `--current/--stale/--unknown`.
pub fn row_type_matches(row: &ImageTableRow, show_all: bool, args: &ListArgs) -> (r: bool)
    ensures
        r == kind_shown(row@, show_all, args.current, args.stale, args.unknown),
{
    match row {
        ImageTableRow::Current(_) => show_all || args.current,
        ImageTableRow::Stale { .. } => show_all || args.stale,
        ImageTableRow::Unknown(_) => show_all || args.unknown,
    }
}

/// A row's name and its `name-version` form (a tarball's filename twice).
pub open spec fn names_of(row: RowV) -> (Seq<char>, Seq<char>) {
    match row {
        RowV::Current(img) => (img.name, img.name + seq!['-'] + img.version),
        RowV::Stale { family_name, version, .. } => (family_name, family_name + seq!['-'] + version),
        RowV::Unknown { filename, .. } => (filename, filename),
    }
}

/// The name and `name-version` a filter is matched against.
pub fn row_names(row: &ImageTableRow) -> (r: (String, String))
    ensures
        (r.0@, r.1@) == names_of(row@),
{
    match row {
        ImageTableRow::Current(img) => {
            let mut nv = img.name.clone();
            push_char(&mut nv, '-');
            nv.append(img.version.as_str());
            (img.name.clone(), nv)
        },
        ImageTableRow::Stale { family_name, version, .. } => {
            let mut nv = family_name.clone();
            push_char(&mut nv, '-');
            nv.append(version.as_str());
            (family_name.clone(), nv)
        },
        ImageTableRow::Unknown(u) => (u.filename.clone(), u.filename.clone()),
    }
}

/// Whether a row passes a (lowercased) filter: its name or `name-version`,
/// lowercased, contains it.
pub open spec fn filter_passes(row: RowV, filter: Option<Seq<char>>) -> bool {
    match filter {
        None => true,
        Some(f) => seq_contains(lowercase(names_of(row).0), f) || seq_contains(
            lowercase(names_of(row).1),
            f,
        ),
    }
}

/// Case-insensitive substring filter on the name and `name-version`; the
/// filter is already lowercased.
pub fn filter_matches(row: &ImageTableRow, filter: Option<&str>) -> (r: bool)
    ensures
        r == filter_passes(
            row@,
            match filter {
                Some(f) => Some(f@),
                None => None,
            },
        ),
{
    let f = match filter {
        Some(f) => f,
        None => return true,
    };
    let (name, name_version) = row_names(row);
    let a = to_lowercase(name.as_str());
    if contains(a.as_str(), f) {
        return true;
    }
    let b = to_lowercase(name_version.as_str());
    contains(b.as_str(), f)
}

/// The rows `list` keeps, in order.
pub open spec fn listed(rows: Seq<RowV>, show_all: bool, args: ListArgs, filter: Option<Seq<char>>) -> Seq<RowV>
    decreases rows.len(),
{
    if rows.len() == 0 {
        Seq::empty()
    } else {
        let rest = listed(rows.drop_last(), show_all, args, filter);
        let row = rows.last();
        if kind_shown(row, show_all, args.current, args.stale, args.unknown) && filter_passes(row, filter) {
            rest.push(row)
        } else {
            rest
        }
    }
}

/// What `list` keeps: with no kind flag every kind, otherwise exactly the
/// kinds flagged (`--current` current images, `--stale` stale versions,
/// `--unknown` unknown tarballs). Every kept row is one of the rows, of a
/// kept kind, passing the filter; every such row is kept.
pub proof fn lemma_list_keeps_flagged_kinds(rows: Seq<RowV>, all: bool, args: ListArgs, filter: Option<Seq<char>>)
    requires
        all == (!args.current && !args.stale && !args.unknown),
    ensures
        ({
            let kept = listed(rows, all, args, filter);
            &&& forall|i: int|
                #![trigger kept[i]]
                0 <= i < kept.len() ==> {
                    &&& rows.contains(kept[i])
                    &&& filter_passes(kept[i], filter)
                    &&& (kept[i] is Current ==> all || args.current)
                    &&& (kept[i] is Stale ==> all || args.stale)
                    &&& (kept[i] is Unknown ==> all || args.unknown)
                }
            &&& forall|j: int|
                #![trigger rows[j]]
                0 <= j < rows.len() && filter_passes(rows[j], filter) && (rows[j] is Current ==> all
                    || args.current) && (rows[j] is Stale ==> all || args.stale) && (rows[j] is Unknown ==> all
                    || args.unknown) ==> kept.contains(rows[j])
        }),
    decreases rows.len(),
{
    if rows.len() > 0 {
        let init = rows.drop_last();
        lemma_list_keeps_flagged_kinds(init, all, args, filter);
        let rest = listed(init, all, args, filter);
        let kept = listed(rows, all, args, filter);
        let row = rows.last();
        assert forall|i: int| 0 <= i < kept.len() implies #[trigger] rows.contains(kept[i]) by {
            if i < rest.len() {
                assert(kept[i] == rest[i]);
                assert(init.contains(rest[i]));
                let j = choose|j: int| 0 <= j < init.len() && init[j] == rest[i];
                assert(rows[j] == init[j]);
            } else {
                assert(rows[rows.len() - 1] == row);
            }
        }
        assert forall|j: int|
            0 <= j < rows.len() && filter_passes(#[trigger] rows[j], filter) && (rows[j] is Current ==> all
                || args.current) && (rows[j] is Stale ==> all || args.stale) && (rows[j] is Unknown ==> all
                || args.unknown) implies kept.contains(rows[j]) by {
            if j < rows.len() - 1 {
                assert(init[j] == rows[j]);
                assert(rest.contains(init[j]));
                let k = choose|k: int| 0 <= k < rest.len() && rest[k] == init[j];
                assert(kept[k] == rest[k]);
            } else {
                assert(kept[kept.len() - 1] == row);
            }
        }
    }
}

/// The `--filter` text as matched: lowercased.
pub open spec fn filter_key(filter: Option<String>) -> Option<Seq<char>> {
    match filter {
        Some(f) => Some(lowercase(f@)),
        None => None,
    }
}

/// The rows `list` shows: those of a selected kind (all kinds when none is
/// selected) that pass the case-insensitive filter.
pub fn filter_rows(rows: &[ImageTableRow], args: &ListArgs) -> (r: Vec<ImageTableRow>)
    requires
        rows_wf(rows@),
    ensures
        rows_view(r@) == listed(
            rows_view(rows@),
            !args.current && !args.stale && !args.unknown,
            *args,
            filter_key(args.filter),
        ),
        rows_wf(r@),
{
    let show_all = !args.current && !args.stale && !args.unknown;
    let lowered: Option<String> = match &args.filter {
        Some(f) => Some(to_lowercase(f.as_str())),
        None => None,
    };
    let ghost fl = filter_key(args.filter);
    let ghost rv = rows_view(rows@);
    let mut out: Vec<ImageTableRow> = Vec::new();
    let mut i: usize = 0;
    assert(rv.take(0) =~= Seq::<RowV>::empty());
    while i < rows.len()
        invariant
            i <= rows@.len(),
            rv == rows_view(rows@),
            rows_wf(rows@),
            show_all == (!args.current && !args.stale && !args.unknown),
            fl == match lowered {
                Some(l) => Some(l@),
                None => None::<Seq<char>>,
            },
            rows_view(out@) == listed(rv.take(i as int), show_all, *args, fl),
            rows_wf(out@),
        decreases rows.len() - i,
    {
        let row = &rows[i];
        let keep = row_type_matches(row, show_all, args) && match &lowered {
            Some(l) => filter_matches(row, Some(l.as_str())),
            None => filter_matches(row, None),
        };
        let ghost before = rows_view(out@);
        if keep {
            out.push(row.clone());
            assert(rows_view(out@) =~= before.push(row@));
        }
        proof {
            let t = rv.take(i + 1);
            assert(t.drop_last() =~= rv.take(i as int));
            assert(t.last() == row@);
        }
        i = i + 1;
    }
    assert(rv.take(rows.len() as int) =~= rv);
    out
}

/// `yes` or `no`.
pub open spec fn yes_no(b: bool) -> Seq<char> {
    if b {
        "yes"@
    } else {
        "no"@
    }
}

/// `yes` or `no`.
pub fn yn(b: bool) -> (r: String)
    ensures
        r@ == yes_no(b),
{
    if b {
        "yes".to_owned()
    } else {
        "no".to_owned()
    }
}

/// A build state as listed: `building`, `failed`, or `ok`.
pub open spec fn state_label(s: BuildStateV) -> Seq<char> {
    match s {
        BuildStateV::Building => "building"@,
        BuildStateV::Failed(_) => "failed"@,
        _ => "ok"@,
    }
}

/// The label of a build state (see `state_label`).
pub fn build_state_label(state: &BuildState) -> (r: &'static str)
    ensures
        r@ == state_label(state@),
{
    match state {
        BuildState::Building => "building",
        BuildState::Failed(_) => "failed",
        BuildState::Success => "ok",
        BuildState::Idle => "ok",
    }
}

/// Whether the presence map marks a server as holding the tarball.
pub open spec fn present_on(m: Map<Seq<char>, bool>, s: Seq<char>) -> bool {
    m.contains_key(s) && m[s]
}

/// The cells `list` prints for a row: name, version, local tarball, one
/// `yes`/`no` per server, and the state.
pub open spec fn row_cells(row: RowV, servers: Seq<Seq<char>>) -> Seq<Seq<char>> {
    match row {
        RowV::Current(img) => seq![img.name, img.version, yes_no(img.local_tarball)]
            + servers.map_values(|s: Seq<char>| yes_no(present_on(img.server_presence, s)))
            + seq![state_label(img.build_state)],
        RowV::Stale { version, servers: held, .. } => seq!["  (stale)"@, version, "-"@]
            + servers.map_values(|s: Seq<char>| yes_no(held.contains(s))) + seq!["stale"@],
        RowV::Unknown { filename, servers: held } => seq![filename, "-"@, "-"@] + servers.map_values(
            |s: Seq<char>| yes_no(held.contains(s)),
        ) + seq!["unknown"@],
    }
}

fn push_str(v: &mut Vec<String>, s: String)
    ensures
        view_names(final(v)@) == view_names(old(v)@).push(s@),
{
    let ghost before = v@;
    v.push(s);
    assert(view_names(v@) =~= view_names(before).push(s@));
}

/// The cells of one `list` line (see `row_cells`).
pub fn build_row(row: &ImageTableRow, server_names: &[String]) -> (r: Vec<String>)
    requires
        row.wf(),
    ensures
        view_names(r@) == row_cells(row@, view_names(server_names@)),
{
    let ghost sn = view_names(server_names@);
    let mut cells: Vec<String> = Vec::new();
    match row {
        ImageTableRow::Current(img) => {
            push_str(&mut cells, img.name.clone());
            push_str(&mut cells, img.version.clone());
            push_str(&mut cells, yn(img.local_tarball));
        },
        ImageTableRow::Stale { version, .. } => {
            push_str(&mut cells, "  (stale)".to_owned());
            push_str(&mut cells, version.clone());
            push_str(&mut cells, "-".to_owned());
        },
        ImageTableRow::Unknown(u) => {
            push_str(&mut cells, u.filename.clone());
            push_str(&mut cells, "-".to_owned());
            push_str(&mut cells, "-".to_owned());
        },
    }
    let ghost head = view_names(cells@);
    let mut i: usize = 0;
    while i < server_names.len()
        invariant
            i <= server_names@.len(),
            sn == view_names(server_names@),
            row.wf(),
            view_names(cells@) == head + sn.take(i as int).map_values(
                |s: Seq<char>|
                    yes_no(
                        match row@ {
                            RowV::Current(img) => present_on(img.server_presence, s),
                            RowV::Stale { servers, .. } => servers.contains(s),
                            RowV::Unknown { servers, .. } => servers.contains(s),
                        },
                    ),
            ),
        decreases server_names.len() - i,
    {
        let s = server_names[i].as_str();
        let flag = match row {
            ImageTableRow::Current(img) => match img.server_presence.get(s) {
                Some(b) => *b,
                None => false,
            },
            ImageTableRow::Stale { servers, .. } => servers.contains(s),
            ImageTableRow::Unknown(u) => u.servers.contains(s),
        };
        push_str(&mut cells, yn(flag));
        proof {
            assert(sn[i as int] == s@);
            assert(sn.take(i + 1) =~= sn.take(i as int).push(s@));
        }
        i = i + 1;
    }
    assert(sn.take(server_names.len() as int) =~= sn);
    match row {
        ImageTableRow::Current(img) => {
            push_str(&mut cells, build_state_label(&img.build_state).to_owned());
        },
        ImageTableRow::Stale { .. } => {
            push_str(&mut cells, "stale".to_owned());
        },
        ImageTableRow::Unknown(_) => {
            push_str(&mut cells, "unknown".to_owned());
        },
    }
    proof {
        let ghost tail = match row@ {
            RowV::Current(img) => sn.map_values(|s: Seq<char>| yes_no(present_on(img.server_presence, s))),
            RowV::Stale { servers: held, .. } => sn.map_values(|s: Seq<char>| yes_no(held.contains(s))),
            RowV::Unknown { servers: held, .. } => sn.map_values(|s: Seq<char>| yes_no(held.contains(s))),
        };
        assert(sn.map_values(
            |s: Seq<char>|
                yes_no(
                    match row@ {
                        RowV::Current(img) => present_on(img.server_presence, s),
                        RowV::Stale { servers, .. } => servers.contains(s),
                        RowV::Unknown { servers, .. } => servers.contains(s),
                    },
                ),
        ) =~= tail);
        assert(view_names(cells@) =~= row_cells(row@, sn));
    }
    cells
}

/// The column headers of `list`: NAME, VERSION, LOCAL, one per server, STATE.
pub open spec fn list_headers(servers: Seq<Seq<char>>) -> Seq<Seq<char>> {
    seq!["NAME"@, "VERSION"@, "LOCAL"@] + servers + seq!["STATE"@]
}

/// The table `list` prints for the shown rows.
pub fn list_table(server_names: &[String], rows: &[ImageTableRow]) -> (r: String)
    requires
        rows_wf(rows@),
    ensures
        r@ == table_text(
            list_headers(view_names(server_names@)),
            rows_view(rows@).map_values(|row: RowV| row_cells(row, view_names(server_names@))),
        ),
{
    let ghost sn = view_names(server_names@);
    let mut headers: Vec<&str> = Vec::new();
    headers.push("NAME");
    headers.push("VERSION");
    headers.push("LOCAL");
    let mut i: usize = 0;
    while i < server_names.len()
        invariant
            i <= server_names@.len(),
            sn == view_names(server_names@),
            headers@.len() == 3 + i,
            headers@[0]@ == "NAME"@,
            headers@[1]@ == "VERSION"@,
            headers@[2]@ == "LOCAL"@,
            forall|j: int| 0 <= j < i ==> (#[trigger] headers@[3 + j])@ == sn[j],
        decreases server_names.len() - i,
    {
        headers.push(server_names[i].as_str());
        i = i + 1;
    }
    headers.push("STATE");
    proof {
        let n = sn.len();
        assert(headers@.len() == 4 + n);
        assert forall|j: int| 0 <= j < headers@.len() implies crate::output::headers_view(headers@)[j]
            == list_headers(sn)[j] by {
            if 3 <= j < 3 + n {
                assert(headers@[3 + (j - 3)]@ == sn[j - 3]);
            }
        }
        assert(crate::output::headers_view(headers@) =~= list_headers(sn));
    }
    let mut table_rows: Vec<Vec<String>> = Vec::new();
    let mut k: usize = 0;
    while k < rows.len()
        invariant
            k <= rows@.len(),
            sn == view_names(server_names@),
            rows_wf(rows@),
            table_rows@.len() == k,
            forall|j: int| 0 <= j < k ==> view_names((#[trigger] table_rows@[j])@) == row_cells(rows@[j]@, sn),
        decreases rows.len() - k,
    {
        table_rows.push(build_row(&rows[k], server_names));
        k = k + 1;
    }
    assert(crate::output::rows_view(table_rows@) =~= rows_view(rows@).map_values(|row: RowV| row_cells(row, sn)));
    render_table(headers.as_slice(), table_rows.as_slice())
}

// ---------------------------------------------------------------------------
// status
// ---------------------------------------------------------------------------

/// A scan outcome as shown: `pending`, `ok`, or `error: <message>`.
pub open spec fn status_text(s: ScanStatusV) -> Seq<char> {
    match s {
        ScanStatusV::Pending => "pending"@,
        ScanStatusV::Succeeded => "ok"@,
        ScanStatusV::Error(e) => "error: "@ + e,
    }
}

/// The label of a scan outcome (see `status_text`).
pub fn status_label(status: &ScanStatus) -> (r: String)
    ensures
        r@ == status_text(status@),
{
    match status {
        ScanStatus::Pending => "pending".to_owned(),
        ScanStatus::Succeeded => "ok".to_owned(),
        ScanStatus::Error(e) => {
            let mut r = "error: ".to_owned();
            r.append(e.as_str());
            r
        },
    }
}

/// The outcome recorded for a server, pending when none is.
pub open spec fn status_of(m: Map<Seq<char>, ScanStatusV>, name: Seq<char>) -> ScanStatusV {
    if m.contains_key(name) {
        m[name]
    } else {
        ScanStatusV::Pending
    }
}

/// The `status` table: one `SERVER STATUS` line per configured server.
pub fn status_table(server_names: &[String], scan_status: &NameMap<ScanStatus>) -> (r: String)
    requires
        scan_status.wf(),
    ensures
        r@ == table_text(
            seq!["SERVER"@, "STATUS"@],
            view_names(server_names@).map_values(
                |n: Seq<char>|
                    seq![
                        n,
                        status_text(
                            status_of(scan_status@.map_values(|s: ScanStatus| s@), n),
                        ),
                    ],
            ),
        ),
{
    let ghost sn = view_names(server_names@);
    let ghost st = scan_status@.map_values(|s: ScanStatus| s@);
    let mut rows: Vec<Vec<String>> = Vec::new();
    let mut i: usize = 0;
    while i < server_names.len()
        invariant
            i <= server_names@.len(),
            sn == view_names(server_names@),
            st == scan_status@.map_values(|s: ScanStatus| s@),
            scan_status.wf(),
            rows@.len() == i,
            forall|j: int| 0 <= j < i ==> view_names((#[trigger] rows@[j])@) == seq![sn[j], status_text(status_of(st, sn[j]))],
        decreases server_names.len() - i,
    {
        let name = &server_names[i];
        let label = match scan_status.get(name.as_str()) {
            Some(s) => status_label(s),
            None => "pending".to_owned(),
        };
        let mut row: Vec<String> = Vec::new();
        push_str(&mut row, name.clone());
        push_str(&mut row, label);
        assert(view_names(row@) =~= seq![sn[i as int], status_text(status_of(st, sn[i as int]))]);
        rows.push(row);
        i = i + 1;
    }
    let mut headers: Vec<&str> = Vec::new();
    headers.push("SERVER");
    headers.push("STATUS");
    assert(crate::output::headers_view(headers@) =~= seq!["SERVER"@, "STATUS"@]);
    assert(crate::output::rows_view(rows@) =~= sn.map_values(|n: Seq<char>| seq![n, status_text(status_of(st, n))]));
    render_table(headers.as_slice(), rows.as_slice())
}

/// Number of stale versions over all families.
pub open spec fn stale_total(fs: Seq<ImageFamily>) -> nat
    decreases fs.len(),
{
    if fs.len() == 0 {
        0
    } else {
        stale_total(fs.drop_last()) + fs.last().stale_versions.items@.len()
    }
}

/// Counts the stale versions of all families (wide enough that the sum
/// cannot overflow).
pub fn count_stale(families: &NameMap<ImageFamily>) -> (n: u128)
    ensures
        n == stale_total(families.vals@),
{
    let mut n: u128 = 0;
    let mut i: usize = 0;
    assert(families.vals@.take(0) =~= Seq::<ImageFamily>::empty());
    while i < families.vals.len()
        invariant
            i <= families.vals.len(),
            n == stale_total(families.vals@.take(i as int)),
            n <= i * 0xFFFF_FFFF_FFFF_FFFFu128,
        decreases families.vals.len() - i,
    {
        proof {
            let t = families.vals@.take(i + 1);
            assert(t.drop_last() =~= families.vals@.take(i as int));
        }
        let k = families.vals[i].stale_versions.items.len();
        assert(k <= 0xFFFF_FFFF_FFFF_FFFFu128);
        assert(i + 1 <= 0xFFFF_FFFF_FFFF_FFFFu128);
        n = n + k as u128;
        i = i + 1;
    }
    assert(families.vals@.take(families.vals.len() as int) =~= families.vals@);
    n
}

/// `<managed> managed (<stale> stale) | <unknown> unknown`.
pub open spec fn summary_text(managed: nat, stale: nat, unknown: nat) -> Seq<char> {
    decimal(managed) + " managed ("@ + decimal(stale) + " stale) | "@ + decimal(unknown) + " unknown"@
}

/// The summary line under the `status` table.
pub fn status_summary(families: &NameMap<ImageFamily>, unknown_count: usize) -> (r: String)
    ensures
        r@ == summary_text(families.keys@.len(), stale_total(families.vals@), unknown_count as nat),
{
    let managed = families.len();
    let stale = count_stale(families);
    let mut r = usize_to_string(managed);
    r.append(" managed (");
    let s = crate::strings::u128_to_string(stale);
    r.append(s.as_str());
    r.append(" stale) | ");
    let u = usize_to_string(unknown_count);
    r.append(u.as_str());
    r.append(" unknown");
    r
}

// ---------------------------------------------------------------------------
// servers
// ---------------------------------------------------------------------------

/// `user@host:port`.
pub open spec fn address_text(s: ServerV) -> Seq<char> {
    s.user + seq!['@'] + s.host + seq![':'] + decimal(s.port as nat)
}

/// The cells of a server's line in the `servers` table.
pub open spec fn server_cells(s: Server) -> Seq<Seq<char>> {
    seq![
        s.name@,
        address_text(s@),
        match s.identity_file {
            Some(id) => id@,
            None => "-"@,
        },
    ]
}

/// The `servers` table: name, `user@host:port`, identity file (or `-`).
pub fn servers_table(servers: &[Server]) -> (r: String)
    ensures
        r@ == table_text(
            seq!["NAME"@, "USER@HOST:PORT"@, "IDENTITY"@],
            servers@.map_values(|s: Server| server_cells(s)),
        ),
{
    let mut rows: Vec<Vec<String>> = Vec::new();
    let mut i: usize = 0;
    while i < servers.len()
        invariant
            i <= servers@.len(),
            rows@.len() == i,
            forall|j: int| 0 <= j < i ==> view_names((#[trigger] rows@[j])@) == server_cells(servers@[j]),
        decreases servers.len() - i,
    {
        let s = &servers[i];
        let mut addr = s.user.clone();
        push_char(&mut addr, '@');
        addr.append(s.host.as_str());
        push_char(&mut addr, ':');
        let p = usize_to_string(s.port as usize);
        addr.append(p.as_str());
        let id = match &s.identity_file {
            Some(f) => f.clone(),
            None => "-".to_owned(),
        };
        let mut row: Vec<String> = Vec::new();
        assert(addr@ =~= address_text(s@));
        push_str(&mut row, s.name.clone());
        push_str(&mut row, addr);
        push_str(&mut row, id);
        assert(view_names(row@) =~= server_cells(servers@[i as int]));
        rows.push(row);
        i = i + 1;
    }
    let mut headers: Vec<&str> = Vec::new();
    headers.push("NAME");
    headers.push("USER@HOST:PORT");
    headers.push("IDENTITY");
    assert(crate::output::headers_view(headers@) =~= seq!["NAME"@, "USER@HOST:PORT"@, "IDENTITY"@]);
    assert forall|j: int| 0 <= j < rows@.len() implies #[trigger] crate::output::rows_view(rows@)[j]
        == server_cells(servers@[j]) by {
        assert(view_names(rows@[j]@) == crate::output::rows_view(rows@)[j]);
    }
    assert(crate::output::rows_view(rows@) =~= servers@.map_values(|s: Server| server_cells(s)));
    render_table(headers.as_slice(), rows.as_slice())
}

// ---------------------------------------------------------------------------
// build / deploy
// ---------------------------------------------------------------------------

/// The current images of the families, in family order.
pub open spec fn current_images(fs: Seq<ImageFamily>) -> Seq<ManagedImageV>
    decreases fs.len(),
{
    if fs.len() == 0 {
        Seq::empty()
    } else {
        let rest = current_images(fs.drop_last());
        match fs.last().current {
            Some(c) => rest.push(c@),
            None => rest,
        }
    }
}

/// Each named family's current image, in the order named; the first name
/// that does not resolve gives its error.
pub open spec fn named_images(
    raws: Seq<Seq<char>>,
    fams: Map<Seq<char>, crate::models::ImageFamilyV>,
    known: Seq<Seq<char>>,
) -> Result<Seq<ManagedImageV>, Seq<char>>
    decreases raws.len(),
{
    if raws.len() == 0 {
        Ok(Seq::empty())
    } else {
        match current_resolution(raws[0], fams, known) {
            Err(e) => Err(e),
            Ok(img) => match named_images(raws.drop_first(), fams, known) {
                Ok(rest) => Ok(seq![img] + rest),
                Err(e) => Err(e),
            },
        }
    }
}

/// The images `build`/`deploy` act on: with `--all` every family's current
/// image, otherwise the named ones (see `named_images`).
pub open spec fn target_images(
    all: bool,
    raws: Seq<Seq<char>>,
    families: NameMap<ImageFamily>,
) -> Result<Seq<ManagedImageV>, Seq<char>> {
    if all {
        Ok(current_images(families.vals@))
    } else {
        named_images(raws, family_views(families), families.key_seq())
    }
}

proof fn lemma_named_images_each(
    raws: Seq<Seq<char>>,
    fams: Map<Seq<char>, crate::models::ImageFamilyV>,
    known: Seq<Seq<char>>,
)
    ensures
        (forall|i: int| 0 <= i < raws.len() ==> (#[trigger] current_resolution(raws[i], fams, known)) is Ok)
            ==> named_images(raws, fams, known) is Ok,
        named_images(raws, fams, known) is Ok ==> {
            let imgs = named_images(raws, fams, known)->Ok_0;
            &&& imgs.len() == raws.len()
            &&& forall|i: int|
                0 <= i < raws.len() ==> #[trigger] current_resolution(raws[i], fams, known) == Ok::<
                    ManagedImageV,
                    Seq<char>,
                >(imgs[i])
        },
        named_images(raws, fams, known) is Err ==> exists|i: int|
            0 <= i < raws.len() && #[trigger] current_resolution(raws[i], fams, known) == Err::<
                ManagedImageV,
                Seq<char>,
            >(named_images(raws, fams, known)->Err_0) && forall|j: int|
                0 <= j < i ==> (#[trigger] current_resolution(raws[j], fams, known)) is Ok,
    decreases raws.len(),
{
    if raws.len() > 0 {
        let tail = raws.drop_first();
        lemma_named_images_each(tail, fams, known);
        assert forall|i: int| 0 <= i < tail.len() implies tail[i] == raws[i + 1] by {}
        if (forall|i: int| 0 <= i < raws.len() ==> (#[trigger] current_resolution(raws[i], fams, known)) is Ok) {
            assert(current_resolution(raws[0], fams, known) is Ok);
            assert forall|i: int| 0 <= i < tail.len() implies (#[trigger] current_resolution(tail[i], fams, known)) is Ok by {
                assert(current_resolution(raws[i + 1], fams, known) is Ok);
            }
        }
        match current_resolution(raws[0], fams, known) {
            Err(e) => {
                assert(current_resolution(raws[0], fams, known) == Err::<ManagedImageV, Seq<char>>(e));
            },
            Ok(img) => {
                match named_images(tail, fams, known) {
                    Ok(rest) => {
                        let imgs = seq![img] + rest;
                        assert forall|i: int| 0 <= i < raws.len() implies #[trigger] current_resolution(
                            raws[i],
                            fams,
                            known,
                        ) == Ok::<ManagedImageV, Seq<char>>(imgs[i]) by {
                            if i > 0 {
                                assert(raws[i] == tail[i - 1]);
                                assert(current_resolution(tail[i - 1], fams, known) == Ok::<ManagedImageV, Seq<char>>(rest[i - 1]));
                            }
                        }
                    },
                    Err(e) => {
                        let k = choose|k: int|
                            0 <= k < tail.len() && #[trigger] current_resolution(tail[k], fams, known) == Err::<
                                ManagedImageV,
                                Seq<char>,
                            >(e) && forall|j: int| 0 <= j < k ==> (#[trigger] current_resolution(tail[j], fams, known)) is Ok;
                        assert(raws[k + 1] == tail[k]);
                        assert forall|j: int| 0 <= j < k + 1 implies (#[trigger] current_resolution(raws[j], fams, known)) is Ok by {
                            if j > 0 {
                                assert(raws[j] == tail[j - 1]);
                            }
                        }
                        assert(current_resolution(raws[k + 1], fams, known) == Err::<ManagedImageV, Seq<char>>(e));
                    },
                }
            },
        }
    }
}

/// `build`/`deploy` with named images act on one image per name, in the
/// order named: when every name resolves (see `current_resolution`) the
/// result holds, at each place, the current image that name resolves to;
/// otherwise it is the error of the first name that does not resolve.
pub proof fn lemma_named_targets_one_per_name(raws: Seq<Seq<char>>, families: NameMap<ImageFamily>)
    ensures
        ({
            let fv = family_views(families);
            let known = families.key_seq();
            let r = target_images(false, raws, families);
            &&& (forall|i: int| 0 <= i < raws.len() ==> (#[trigger] current_resolution(raws[i], fv, known)) is Ok)
                ==> r is Ok
            &&& r is Ok ==> r->Ok_0.len() == raws.len() && forall|i: int|
                0 <= i < raws.len() ==> #[trigger] current_resolution(raws[i], fv, known) == Ok::<
                    ManagedImageV,
                    Seq<char>,
                >(r->Ok_0[i])
            &&& r is Err ==> exists|i: int|
                0 <= i < raws.len() && #[trigger] current_resolution(raws[i], fv, known) == Err::<
                    ManagedImageV,
                    Seq<char>,
                >(r->Err_0) && forall|j: int| 0 <= j < i ==> (#[trigger] current_resolution(raws[j], fv, known)) is Ok
        }),
{
    lemma_named_images_each(raws, family_views(families), families.key_seq());
}

pub open spec fn images_view(v: Seq<ManagedImage>) -> Seq<ManagedImageV> {
    v.map_values(|m: ManagedImage| m@)
}

/// The images `build` or `deploy` act on (see `target_images`).
pub fn resolve_targets(all: bool, images: &[String], families: &NameMap<ImageFamily>) -> (r: Result<
    Vec<ManagedImage>,
    String,
>)
    requires
        families_wf(*families),
    ensures
        match r {
            Ok(v) => target_images(all, view_names(images@), *families) == Ok::<Seq<ManagedImageV>, Seq<char>>(images_view(v@))
                && forall|i: int| 0 <= i < v@.len() ==> (#[trigger] v@[i]).wf(),
            Err(e) => target_images(all, view_names(images@), *families) == Err::<Seq<ManagedImageV>, Seq<char>>(e@),
        },
{
    let mut out: Vec<ManagedImage> = Vec::new();
    if all {
        let mut i: usize = 0;
        assert(families.vals@.take(0) =~= Seq::<ImageFamily>::empty());
        while i < families.vals.len()
            invariant
                i <= families.vals.len(),
                families_wf(*families),
                images_view(out@) == current_images(families.vals@.take(i as int)),
                forall|k: int| 0 <= k < out@.len() ==> (#[trigger] out@[k]).wf(),
            decreases families.vals.len() - i,
        {
            let ghost before = images_view(out@);
            assert(families.vals@[i as int].wf());
            match &families.vals[i].current {
                Some(c) => {
                    out.push(c.clone());
                    assert(images_view(out@) =~= before.push(c@));
                },
                None => {},
            }
            proof {
                let t = families.vals@.take(i + 1);
                assert(t.drop_last() =~= families.vals@.take(i as int));
            }
            i = i + 1;
        }
        assert(families.vals@.take(families.vals.len() as int) =~= families.vals@);
        return Ok(out);
    }
    let ghost raws = view_names(images@);
    let ghost fv = family_views(*families);
    let ghost known = families.key_seq();
    let mut i: usize = 0;
    assert(raws.skip(0) =~= raws);
    assert(images_view(out@) + Seq::<ManagedImageV>::empty() =~= images_view(out@));
    while i < images.len()
        invariant
            !all,
            i <= images@.len(),
            raws == view_names(images@),
            fv == family_views(*families),
            known == families.key_seq(),
            families_wf(*families),
            forall|k: int| 0 <= k < out@.len() ==> (#[trigger] out@[k]).wf(),
            named_images(raws, fv, known) == match named_images(raws.skip(i as int), fv, known) {
                Ok(rest) => Ok::<Seq<ManagedImageV>, Seq<char>>(images_view(out@) + rest),
                Err(e) => Err(e),
            },
        decreases images.len() - i,
    {
        proof {
            assert(raws.skip(i as int).drop_first() =~= raws.skip(i + 1));
            assert(raws.skip(i as int)[0] == images@[i as int]@);
        }
        match resolve_current(images[i].as_str(), families) {
            Ok(img) => {
                let ghost before = images_view(out@);
                out.push(img);
                proof {
                    assert(images_view(out@) =~= before.push(img@));
                    match named_images(raws.skip(i + 1), fv, known) {
                        Ok(rest) => {
                            assert(before + (seq![img@] + rest) =~= before.push(img@) + rest);
                        },
                        Err(_) => {},
                    }
                }
            },
            Err(e) => {
                return Err(e);
            },
        }
        i = i + 1;
    }
    proof {
        assert(raws.skip(images.len() as int) =~= Seq::<Seq<char>>::empty());
        assert(images_view(out@) + Seq::<ManagedImageV>::empty() =~= images_view(out@));
    }
    Ok(out)
}

/// The servers a deploy goes to, in order: all of them, or with
/// `--missing-only` those not reporting the image's tarball.
pub open spec fn deploy_servers(img: ManagedImageV, servers: Seq<Server>, missing_only: bool) -> Seq<ServerV>
    decreases servers.len(),
{
    if servers.len() == 0 {
        Seq::empty()
    } else {
        let rest = deploy_servers(img, servers.drop_last(), missing_only);
        let s = servers.last();
        if !missing_only || !present_on(img.server_presence, s.name@) {
            rest.push(s@)
        } else {
            rest
        }
    }
}

/// The servers an image is deployed to (see `deploy_servers`).
pub fn servers_for_image(image: &ManagedImage, servers: &[Server], missing_only: bool) -> (r: Vec<Server>)
    requires
        image.wf(),
    ensures
        r@.map_values(|s: Server| s@) == deploy_servers(image@, servers@, missing_only),
{
    let mut out: Vec<Server> = Vec::new();
    let mut i: usize = 0;
    assert(servers@.take(0) =~= Seq::<Server>::empty());
    while i < servers.len()
        invariant
            i <= servers@.len(),
            image.wf(),
            out@.map_values(|s: Server| s@) == deploy_servers(image@, servers@.take(i as int), missing_only),
        decreases servers.len() - i,
    {
        let s = &servers[i];
        let keep = if !missing_only {
            true
        } else {
            match image.server_presence.get(s.name.as_str()) {
                Some(b) => !*b,
                None => true,
            }
        };
        let ghost before = out@.map_values(|s: Server| s@);
        if keep {
            out.push(s.clone());
            assert(out@.map_values(|s: Server| s@) =~= before.push(s@));
        }
        proof {
            let t = servers@.take(i + 1);
            assert(t.drop_last() =~= servers@.take(i as int));
            assert(t.last() == *s);
        }
        i = i + 1;
    }
    assert(servers@.take(servers.len() as int) =~= servers@);
    out
}

/// Whether `deploy --build` builds first: when the staging tarball's
/// modification time is unknown (it is missing), or the Dockerfile was
/// modified after it. Times are nanoseconds from the Unix epoch.
pub fn should_build(tarball_mtime: Option<i128>, dockerfile_mtime: Option<i128>) -> (r: bool)
    ensures
        r == match tarball_mtime {
            None => true,
            Some(t) => match dockerfile_mtime {
                Some(d) => d > t,
                None => false,
            },
        },
{
    match tarball_mtime {
        None => true,
        Some(t) => match dockerfile_mtime {
            Some(d) => d > t,
            None => false,
        },
    }
}

// ---------------------------------------------------------------------------
// Exit status
// ---------------------------------------------------------------------------

/// How a run of the program ended.
#[derive(Debug, Clone, Copy, PartialEq, Eq, Structural)]
pub enum RunOutcome {
    /// All requested work succeeded.
    Success,
    /// One or more operations failed, or an error stopped the command.
    Failure,
    /// The command line asked for something that cannot be done.
    UsageError,
    /// The configuration file was not found or could not be read.
    ConfigError,
}

/// The exit status of each outcome: 0, 1, 2 and 3.
pub open spec fn exit_code(o: RunOutcome) -> u8 {
    match o {
        RunOutcome::Success => 0,
        RunOutcome::Failure => 1,
        RunOutcome::UsageError => 2,
        RunOutcome::ConfigError => 3,
    }
}

/// The process exit status for an outcome (see `exit_code`).
pub fn exit_status(o: RunOutcome) -> (code: u8)
    ensures
        code == exit_code(o),
{
    match o {
        RunOutcome::Success => 0,
        RunOutcome::Failure => 1,
        RunOutcome::UsageError => 2,
        RunOutcome::ConfigError => 3,
    }
}

/// The outcome of a command that ran its operations: a failure when any
/// of them failed, else a success.
pub fn run_outcome(any_failed: bool) -> (o: RunOutcome)
    ensures
        o == (if any_failed { RunOutcome::Failure } else { RunOutcome::Success }),
{
    if any_failed {
        RunOutcome::Failure
    } else {
        RunOutcome::Success
    }
}

// ---------------------------------------------------------------------------
// deploy, one image at a time
// ---------------------------------------------------------------------------

/// What `deploy` knows of one image before acting on it: how many target
/// servers it has (see `servers_for_image`), whether it is built first (see
/// `should_build`), and whether this is a dry run.
#[derive(Debug, Clone, Copy, PartialEq, Eq, Structural)]
pub struct ImageDeployPlan {
    pub targets: usize,
    pub needs_build: bool,
    pub dry_run: bool,
}

/// Where the deployment of one image stands.
#[derive(Debug, Clone, Copy, PartialEq, Eq, Structural)]
pub enum ImageDeployStage {
    /// Nothing has been done yet.
    Start,
    /// The image is being built.
    Building,
    /// Waiting to learn whether the staged tarball exists.
    Checking,
    /// Copying to target server `next`; `failed` when an earlier copy failed.
    Copying { next: usize, failed: bool },
    /// Finished; `failed` when anything went wrong.
    Done { failed: bool },
}

/// What the outside work reported.
#[derive(Debug, Clone, Copy, PartialEq, Eq, Structural)]
pub enum ImageDeployEvent {
    /// The image's turn has come.
    Begin,
    /// The build finished, successfully or not.
    Built { ok: bool },
    /// Whether the staged tarball exists.
    TarballChecked { present: bool },
    /// The copy to the current target server finished.
    Copied { ok: bool },
}

/// What to do next.
#[derive(Debug, Clone, Copy, PartialEq, Eq, Structural)]
pub enum ImageDeployAction {
    /// Say that no server needs the image.
    ReportNoTargets,
    /// Print what would be done (the build first when `build`), and stop.
    ReportDryRun { build: bool },
    /// Build the image.
    Build,
    /// Say that the build failed and the image is skipped.
    ReportBuildFailed,
    /// Look for the staged tarball.
    CheckTarball,
    /// Say that there is no staged tarball to copy.
    ReportMissingTarball,
    /// Copy the tarball to target server `server` (an index into the targets).
    Copy { server: usize },
    /// The image is done.
    Finish,
    /// The event does not apply to the stage; nothing to do.
    Ignore,
}

/// One step of deploying an image: builds when the plan asks for it and
/// skips the image when the build fails; refuses when the tarball is
/// missing; otherwise copies to each target in turn, going on after a
/// failed copy, and finishes failed when any copy failed.
pub open spec fn image_deploy_transition(
    plan: ImageDeployPlan,
    stage: ImageDeployStage,
    event: ImageDeployEvent,
) -> (ImageDeployStage, ImageDeployAction) {
    match (stage, event) {
        (ImageDeployStage::Start, ImageDeployEvent::Begin) => if plan.targets == 0 {
            (ImageDeployStage::Done { failed: false }, ImageDeployAction::ReportNoTargets)
        } else if plan.dry_run {
            (ImageDeployStage::Done { failed: false }, ImageDeployAction::ReportDryRun { build: plan.needs_build })
        } else if plan.needs_build {
            (ImageDeployStage::Building, ImageDeployAction::Build)
        } else {
            (ImageDeployStage::Checking, ImageDeployAction::CheckTarball)
        },
        (ImageDeployStage::Building, ImageDeployEvent::Built { ok }) => if ok {
            (ImageDeployStage::Checking, ImageDeployAction::CheckTarball)
        } else {
            (ImageDeployStage::Done { failed: true }, ImageDeployAction::ReportBuildFailed)
        },
        (ImageDeployStage::Checking, ImageDeployEvent::TarballChecked { present }) => if present {
            (ImageDeployStage::Copying { next: 0, failed: false }, ImageDeployAction::Copy { server: 0 })
        } else {
            (ImageDeployStage::Done { failed: true }, ImageDeployAction::ReportMissingTarball)
        },
        (ImageDeployStage::Copying { next, failed }, ImageDeployEvent::Copied { ok }) => if next + 1
            < plan.targets {
            (
                ImageDeployStage::Copying { next: (next + 1) as usize, failed: failed || !ok },
                ImageDeployAction::Copy { server: (next + 1) as usize },
            )
        } else {
            (ImageDeployStage::Done { failed: failed || !ok }, ImageDeployAction::Finish)
        },
        _ => (stage, ImageDeployAction::Ignore),
    }
}

/// Decides the next step of deploying one image (see
/// `image_deploy_transition`).
pub fn image_deploy_step(plan: ImageDeployPlan, stage: ImageDeployStage, event: ImageDeployEvent) -> (r: (
    ImageDeployStage,
    ImageDeployAction,
))
    ensures
        r == image_deploy_transition(plan, stage, event),
{
    match (stage, event) {
        (ImageDeployStage::Start, ImageDeployEvent::Begin) => if plan.targets == 0 {
            (ImageDeployStage::Done { failed: false }, ImageDeployAction::ReportNoTargets)
        } else if plan.dry_run {
            (ImageDeployStage::Done { failed: false }, ImageDeployAction::ReportDryRun { build: plan.needs_build })
        } else if plan.needs_build {
            (ImageDeployStage::Building, ImageDeployAction::Build)
        } else {
            (ImageDeployStage::Checking, ImageDeployAction::CheckTarball)
        },
        (ImageDeployStage::Building, ImageDeployEvent::Built { ok }) => if ok {
            (ImageDeployStage::Checking, ImageDeployAction::CheckTarball)
        } else {
            (ImageDeployStage::Done { failed: true }, ImageDeployAction::ReportBuildFailed)
        },
        (ImageDeployStage::Checking, ImageDeployEvent::TarballChecked { present }) => if present {
            (ImageDeployStage::Copying { next: 0, failed: false }, ImageDeployAction::Copy { server: 0 })
        } else {
            (ImageDeployStage::Done { failed: true }, ImageDeployAction::ReportMissingTarball)
        },
        (ImageDeployStage::Copying { next, failed }, ImageDeployEvent::Copied { ok }) => if next
            < plan.targets && next + 1 < plan.targets {
            (
                ImageDeployStage::Copying { next: next + 1, failed: failed || !ok },
                ImageDeployAction::Copy { server: next + 1 },
            )
        } else {
            (ImageDeployStage::Done { failed: failed || !ok }, ImageDeployAction::Finish)
        },
        _ => (stage, ImageDeployAction::Ignore),
    }
}

/// A failed copy does not stop the deployment: the next target server is
/// copied to, and the image will finish as failed.
pub proof fn lemma_failed_copy_goes_on(plan: ImageDeployPlan, next: usize, failed: bool)
    requires
        next + 1 < plan.targets,
    ensures
        image_deploy_transition(plan, copying(next as int, failed), failed_copy()) == (
        copying(next + 1, true), copy_to(next + 1)),
{
}

/// The stage of copying to target `next`.
pub open spec fn copying(next: int, failed: bool) -> ImageDeployStage {
    ImageDeployStage::Copying { next: next as usize, failed }
}

/// The action of copying to target `server`.
pub open spec fn copy_to(server: int) -> ImageDeployAction {
    ImageDeployAction::Copy { server: server as usize }
}

/// A copy that failed.
pub open spec fn failed_copy() -> ImageDeployEvent {
    ImageDeployEvent::Copied { ok: false }
}

/// Some of the first `k` copies failed.
pub open spec fn some_failed(oks: Seq<bool>, k: int) -> bool {
    exists|i: int| 0 <= i < k && !#[trigger] oks[i]
}

/// Stage and action once an image with targets was begun and, when the plan
/// builds, built successfully.
pub open spec fn ready_to_check(plan: ImageDeployPlan) -> (ImageDeployStage, ImageDeployAction) {
    let begun = image_deploy_transition(plan, ImageDeployStage::Start, ImageDeployEvent::Begin);
    if plan.needs_build {
        image_deploy_transition(plan, begun.0, ImageDeployEvent::Built { ok: true })
    } else {
        begun
    }
}

/// The stage after the copies to the first `k` targets reported `oks[0..k]`,
/// starting from the first copy.
pub open spec fn copies_run(plan: ImageDeployPlan, oks: Seq<bool>, k: int) -> ImageDeployStage
    decreases k,
{
    if k <= 0 {
        copying(0, false)
    } else {
        image_deploy_transition(plan, copies_run(plan, oks, k - 1), ImageDeployEvent::Copied { ok: oks[k - 1] }).0
    }
}

/// Started on an image with targets, the steps copy to every target in
/// order when the build (if any) succeeds and the tarball is there, and the
/// image finishes failed exactly when some copy failed.
pub proof fn lemma_copies_reach_every_target(plan: ImageDeployPlan, oks: Seq<bool>)
    requires
        plan.targets > 0,
        !plan.dry_run,
        oks.len() == plan.targets,
    ensures
        ready_to_check(plan).1 == ImageDeployAction::CheckTarball,
        image_deploy_transition(plan, ready_to_check(plan).0, ImageDeployEvent::TarballChecked { present: true })
            == (copying(0, false), copy_to(0)),
        copies_run(plan, oks, oks.len() as int) == (ImageDeployStage::Done {
            failed: some_failed(oks, oks.len() as int),
        }),
{
    lemma_copies_run(plan, oks, oks.len() as int);
}

proof fn lemma_copies_run(plan: ImageDeployPlan, oks: Seq<bool>, k: int)
    requires
        0 <= k <= oks.len(),
        oks.len() == plan.targets,
        plan.targets > 0,
    ensures
        k < plan.targets ==> copies_run(plan, oks, k) == copying(k, some_failed(oks, k)),
        k == plan.targets ==> copies_run(plan, oks, k) == (ImageDeployStage::Done {
            failed: some_failed(oks, k),
        }),
    decreases k,
{
    if k > 0 {
        lemma_copies_run(plan, oks, k - 1);
        assert(some_failed(oks, k) == (some_failed(oks, k - 1) || !oks[k - 1])) by {
            if some_failed(oks, k) {
                let i = choose|i: int| 0 <= i < k && !#[trigger] oks[i];
                if i < k - 1 {
                    assert(some_failed(oks, k - 1));
                }
            }
        }
    }
}

// ---------------------------------------------------------------------------
// clean / remove
// ---------------------------------------------------------------------------

/// `(tarball, server)` for each of `held` that is among `chosen`, in order.
pub open spec fn pairs_for(t: Seq<char>, held: Seq<Seq<char>>, chosen: Set<Seq<char>>) -> Seq<(Seq<char>, Seq<char>)>
    decreases held.len(),
{
    if held.len() == 0 {
        Seq::empty()
    } else {
        let rest = pairs_for(t, held.drop_last(), chosen);
        if chosen.contains(held.last()) {
            rest.push((t, held.last()))
        } else {
            rest
        }
    }
}

/// Removal targets for a family's stale versions `vs`, in order.
pub open spec fn stale_pairs(f: ImageFamily, vs: Seq<Seq<char>>, chosen: Set<Seq<char>>) -> Seq<(Seq<char>, Seq<char>)>
    decreases vs.len(),
{
    if vs.len() == 0 {
        Seq::empty()
    } else {
        let v = vs.last();
        stale_pairs(f, vs.drop_last(), chosen) + if f.remote_presence@.contains_key(v) {
            pairs_for(tarball_name(f.name@, v), f.remote_presence@[v].elems(), chosen)
        } else {
            Seq::empty()
        }
    }
}

/// Removal targets for the stale versions of all families, in order.
pub open spec fn families_stale_pairs(fs: Seq<ImageFamily>, chosen: Set<Seq<char>>) -> Seq<(Seq<char>, Seq<char>)>
    decreases fs.len(),
{
    if fs.len() == 0 {
        Seq::empty()
    } else {
        families_stale_pairs(fs.drop_last(), chosen) + stale_pairs(fs.last(), fs.last().stale_versions.elems(), chosen)
    }
}

/// Removal targets for unknown tarballs, in order.
pub open spec fn unknown_pairs(us: Seq<UnknownTarball>, chosen: Set<Seq<char>>) -> Seq<(Seq<char>, Seq<char>)>
    decreases us.len(),
{
    if us.len() == 0 {
        Seq::empty()
    } else {
        unknown_pairs(us.drop_last(), chosen) + pairs_for(us.last().filename@, us.last().servers.elems(), chosen)
    }
}

/// What `clean` removes: with `--stale` every stale version from each
/// chosen server holding it (families and versions in order), then with
/// `--unknown` every unknown tarball from each chosen server holding it.
pub open spec fn sweep_targets(
    fs: Seq<ImageFamily>,
    us: Seq<UnknownTarball>,
    chosen: Set<Seq<char>>,
    stale: bool,
    unknown: bool,
) -> Seq<(Seq<char>, Seq<char>)> {
    (if stale {
        families_stale_pairs(fs, chosen)
    } else {
        Seq::empty()
    }) + (if unknown {
        unknown_pairs(us, chosen)
    } else {
        Seq::empty()
    })
}

/// `p` deletes a stale version's tarball: some family among `fs` has a
/// stale version `v` whose tarball is `p.0`, held by the chosen server `p.1`.
pub open spec fn is_stale_target(fs: Seq<ImageFamily>, chosen: Set<Seq<char>>, p: (Seq<char>, Seq<char>)) -> bool {
    exists|fi: int, v: Seq<char>|
        0 <= fi < fs.len() && fs[fi].stale_versions.elems().contains(v) && fs[fi].remote_presence@.contains_key(v)
            && p.0 == #[trigger] tarball_name(fs[fi].name@, v) && fs[fi].remote_presence@[v].elems().contains(p.1)
            && chosen.contains(p.1)
}

/// `p` deletes an unknown tarball: some unknown tarball among `us` is named
/// `p.0` and held by the chosen server `p.1`.
pub open spec fn is_unknown_target(us: Seq<UnknownTarball>, chosen: Set<Seq<char>>, p: (Seq<char>, Seq<char>)) -> bool {
    exists|ui: int|
        0 <= ui < us.len() && p.0 == (#[trigger] us[ui]).filename@ && us[ui].servers.elems().contains(p.1)
            && chosen.contains(p.1)
}

proof fn lemma_pairs_for_members(t: Seq<char>, held: Seq<Seq<char>>, chosen: Set<Seq<char>>)
    ensures
        forall|i: int|
            0 <= i < pairs_for(t, held, chosen).len() ==> (#[trigger] pairs_for(t, held, chosen)[i]).0 == t
                && held.contains(pairs_for(t, held, chosen)[i].1) && chosen.contains(pairs_for(t, held, chosen)[i].1),
    decreases held.len(),
{
    if held.len() > 0 {
        let init = held.drop_last();
        lemma_pairs_for_members(t, init, chosen);
        let r = pairs_for(t, held, chosen);
        let a = pairs_for(t, init, chosen);
        assert forall|i: int| 0 <= i < r.len() implies (#[trigger] r[i]).0 == t && held.contains(r[i].1)
            && chosen.contains(r[i].1) by {
            if i < a.len() {
                assert(r[i] == a[i]);
                let k = choose|k: int| 0 <= k < init.len() && init[k] == a[i].1;
                assert(held[k] == init[k]);
            } else {
                assert(held[held.len() - 1] == held.last());
            }
        }
    }
}

/// `p` deletes the tarball of one of `vs` that family `f` has holders for,
/// from a chosen holder.
pub open spec fn family_version_target(f: ImageFamily, vs: Seq<Seq<char>>, chosen: Set<Seq<char>>, p: (Seq<char>, Seq<char>)) -> bool {
    exists|v: Seq<char>|
        vs.contains(v) && f.remote_presence@.contains_key(v) && p.0 == #[trigger] tarball_name(f.name@, v)
            && f.remote_presence@[v].elems().contains(p.1) && chosen.contains(p.1)
}

proof fn lemma_stale_pairs_members(f: ImageFamily, vs: Seq<Seq<char>>, chosen: Set<Seq<char>>)
    ensures
        forall|i: int|
            0 <= i < stale_pairs(f, vs, chosen).len() ==> family_version_target(
                f,
                vs,
                chosen,
                #[trigger] stale_pairs(f, vs, chosen)[i],
            ),
    decreases vs.len(),
{
    if vs.len() > 0 {
        let init = vs.drop_last();
        let v = vs.last();
        lemma_stale_pairs_members(f, init, chosen);
        let r = stale_pairs(f, vs, chosen);
        let a = stale_pairs(f, init, chosen);
        assert forall|i: int| 0 <= i < r.len() implies family_version_target(f, vs, chosen, #[trigger] r[i]) by {
            if i < a.len() {
                assert(r[i] == a[i]);
                assert(family_version_target(f, init, chosen, a[i]));
                let w = choose|w: Seq<char>|
                    init.contains(w) && f.remote_presence@.contains_key(w) && a[i].0 == #[trigger] tarball_name(
                        f.name@,
                        w,
                    ) && f.remote_presence@[w].elems().contains(a[i].1) && chosen.contains(a[i].1);
                let k = choose|k: int| 0 <= k < init.len() && init[k] == w;
                assert(vs[k] == init[k]);
                assert(vs.contains(w));
                assert(tarball_name(f.name@, w) == r[i].0);
            } else {
                lemma_pairs_for_members(tarball_name(f.name@, v), f.remote_presence@[v].elems(), chosen);
                let b = pairs_for(tarball_name(f.name@, v), f.remote_presence@[v].elems(), chosen);
                assert(r[i] == b[i - a.len()]);
                assert(vs[vs.len() - 1] == v);
                assert(vs.contains(v));
                assert(tarball_name(f.name@, v) == r[i].0);
            }
        }
    }
}

proof fn lemma_families_stale_pairs_members(fs: Seq<ImageFamily>, chosen: Set<Seq<char>>)
    ensures
        forall|i: int|
            0 <= i < families_stale_pairs(fs, chosen).len() ==> is_stale_target(
                fs,
                chosen,
                #[trigger] families_stale_pairs(fs, chosen)[i],
            ),
    decreases fs.len(),
{
    if fs.len() > 0 {
        let init = fs.drop_last();
        let f = fs.last();
        lemma_families_stale_pairs_members(init, chosen);
        let r = families_stale_pairs(fs, chosen);
        let a = families_stale_pairs(init, chosen);
        assert forall|i: int| 0 <= i < r.len() implies is_stale_target(fs, chosen, #[trigger] r[i]) by {
            if i < a.len() {
                assert(r[i] == a[i]);
                assert(is_stale_target(init, chosen, a[i]));
                let (fi, v) = choose|fi: int, v: Seq<char>|
                    0 <= fi < init.len() && init[fi].stale_versions.elems().contains(v)
                        && init[fi].remote_presence@.contains_key(v) && a[i].0 == #[trigger] tarball_name(
                        init[fi].name@,
                        v,
                    ) && init[fi].remote_presence@[v].elems().contains(a[i].1) && chosen.contains(a[i].1);
                assert(fs[fi] == init[fi]);
                assert(tarball_name(fs[fi].name@, v) == a[i].0);
            } else {
                lemma_stale_pairs_members(f, f.stale_versions.elems(), chosen);
                let b = stale_pairs(f, f.stale_versions.elems(), chosen);
                assert(r[i] == b[i - a.len()]);
                assert(family_version_target(f, f.stale_versions.elems(), chosen, b[i - a.len()]));
                let v = choose|v: Seq<char>|
                    f.stale_versions.elems().contains(v) && f.remote_presence@.contains_key(v) && (#[trigger] b[i
                        - a.len()]).0 == tarball_name(f.name@, v) && f.remote_presence@[v].elems().contains(
                        b[i - a.len()].1,
                    ) && chosen.contains(b[i - a.len()].1);
                let fi = fs.len() - 1;
                assert(fs[fi] == f);
                assert(tarball_name(fs[fi].name@, v) == r[i].0);
            }
        }
    }
}

proof fn lemma_unknown_pairs_members(us: Seq<UnknownTarball>, chosen: Set<Seq<char>>)
    ensures
        forall|i: int|
            0 <= i < unknown_pairs(us, chosen).len() ==> is_unknown_target(
                us,
                chosen,
                #[trigger] unknown_pairs(us, chosen)[i],
            ),
    decreases us.len(),
{
    if us.len() > 0 {
        let init = us.drop_last();
        let u = us.last();
        lemma_unknown_pairs_members(init, chosen);
        let r = unknown_pairs(us, chosen);
        let a = unknown_pairs(init, chosen);
        assert forall|i: int| 0 <= i < r.len() implies is_unknown_target(us, chosen, #[trigger] r[i]) by {
            if i < a.len() {
                assert(r[i] == a[i]);
                assert(is_unknown_target(init, chosen, a[i]));
                let ui = choose|ui: int|
                    0 <= ui < init.len() && a[i].0 == (#[trigger] init[ui]).filename@ && init[ui].servers.elems().contains(
                        a[i].1,
                    ) && chosen.contains(a[i].1);
                assert(us[ui] == init[ui]);
            } else {
                lemma_pairs_for_members(u.filename@, u.servers.elems(), chosen);
                let b = pairs_for(u.filename@, u.servers.elems(), chosen);
                assert(r[i] == b[i - a.len()]);
                assert(us[us.len() - 1] == u);
            }
        }
    }
}

/// What `clean` deletes: with `--stale` alone only stale versions' tarballs
/// (each from a chosen server holding it), with `--unknown` alone only
/// unknown tarballs (each from a chosen server holding it), and nothing
/// without either.
pub proof fn lemma_clean_deletes_only_flagged(
    fs: Seq<ImageFamily>,
    us: Seq<UnknownTarball>,
    chosen: Set<Seq<char>>,
    stale: bool,
    unknown: bool,
)
    ensures
        !unknown ==> forall|i: int|
            0 <= i < sweep_targets(fs, us, chosen, stale, unknown).len() ==> is_stale_target(
                fs,
                chosen,
                #[trigger] sweep_targets(fs, us, chosen, stale, unknown)[i],
            ),
        !stale ==> forall|i: int|
            0 <= i < sweep_targets(fs, us, chosen, stale, unknown).len() ==> is_unknown_target(
                us,
                chosen,
                #[trigger] sweep_targets(fs, us, chosen, stale, unknown)[i],
            ),
        !stale && !unknown ==> sweep_targets(fs, us, chosen, stale, unknown).len() == 0,
{
    lemma_families_stale_pairs_members(fs, chosen);
    lemma_unknown_pairs_members(us, chosen);
    let r = sweep_targets(fs, us, chosen, stale, unknown);
    let a: Seq<(Seq<char>, Seq<char>)> = if stale {
        families_stale_pairs(fs, chosen)
    } else {
        Seq::empty()
    };
    let b: Seq<(Seq<char>, Seq<char>)> = if unknown {
        unknown_pairs(us, chosen)
    } else {
        Seq::empty()
    };
    assert(r == a + b);
    if !unknown {
        assert forall|i: int| 0 <= i < r.len() implies is_stale_target(fs, chosen, #[trigger] r[i]) by {
            assert(r[i] == a[i]);
        }
    }
    if !stale {
        assert forall|i: int| 0 <= i < r.len() implies is_unknown_target(us, chosen, #[trigger] r[i]) by {
            assert(r[i] == b[i]);
        }
    }
}

pub open spec fn pairs_view(v: Seq<(String, String)>) -> Seq<(Seq<char>, Seq<char>)> {
    v.map_values(|p: (String, String)| (p.0@, p.1@))
}

/// Appends the pairs for `held` (see `pairs_for`).
fn push_pairs(out: &mut Vec<(String, String)>, t: &str, held: &NameSet, chosen: &NameSet)
    ensures
        pairs_view(final(out)@) == pairs_view(old(out)@) + pairs_for(t@, held.elems(), chosen@),
{
    let ghost start = pairs_view(out@);
    let mut k: usize = 0;
    assert(held.elems().take(0) =~= Seq::<Seq<char>>::empty());
    assert(start + Seq::<(Seq<char>, Seq<char>)>::empty() =~= start);
    while k < held.items.len()
        invariant
            k <= held.items.len(),
            pairs_view(out@) == start + pairs_for(t@, held.elems().take(k as int), chosen@),
        decreases held.items.len() - k,
    {
        let s = &held.items[k];
        let ghost before = pairs_view(out@);
        if chosen.contains(s.as_str()) {
            out.push((t.to_owned(), s.clone()));
            assert(pairs_view(out@) =~= before.push((t@, s@)));
        }
        proof {
            let tk = held.elems().take(k + 1);
            assert(tk.drop_last() =~= held.elems().take(k as int));
            assert(tk.last() == s@);
        }
        k = k + 1;
    }
    assert(held.elems().take(held.items.len() as int) =~= held.elems());
}

/// The `(tarball, server)` pairs `clean` removes (see `sweep_targets`);
/// `chosen` holds the names of the servers to act on.
pub fn clean_targets(
    families: &NameMap<ImageFamily>,
    unknowns: &[UnknownTarball],
    chosen: &NameSet,
    stale: bool,
    unknown: bool,
) -> (r: Vec<(String, String)>)
    requires
        families_wf(*families),
    ensures
        pairs_view(r@) == sweep_targets(families.vals@, unknowns@, chosen@, stale, unknown),
{
    let mut out: Vec<(String, String)> = Vec::new();
    if stale {
        let mut fi: usize = 0;
        assert(families.vals@.take(0) =~= Seq::<ImageFamily>::empty());
        while fi < families.vals.len()
            invariant
                fi <= families.vals.len(),
                families_wf(*families),
                pairs_view(out@) == families_stale_pairs(families.vals@.take(fi as int), chosen@),
            decreases families.vals.len() - fi,
        {
            let family = &families.vals[fi];
            assert(family.wf());
            let ghost mid = pairs_view(out@);
            let ghost vs = family.stale_versions.elems();
            let mut k: usize = 0;
            assert(vs.take(0) =~= Seq::<Seq<char>>::empty());
            assert(mid + Seq::<(Seq<char>, Seq<char>)>::empty() =~= mid);
            while k < family.stale_versions.items.len()
                invariant
                    k <= family.stale_versions.items.len(),
                    family.wf(),
                    vs == family.stale_versions.elems(),
                    pairs_view(out@) == mid + stale_pairs(*family, vs.take(k as int), chosen@),
                decreases family.stale_versions.items.len() - k,
            {
                let version = &family.stale_versions.items[k];
                let tarball = tarball_filename(family.name.as_str(), version.as_str());
                let ghost before = pairs_view(out@);
                match family.remote_presence.get(version.as_str()) {
                    Some(held) => {
                        push_pairs(&mut out, tarball.as_str(), held, chosen);
                    },
                    None => {
                        assert(before + Seq::<(Seq<char>, Seq<char>)>::empty() =~= before);
                    },
                }
                proof {
                    let tk = vs.take(k + 1);
                    assert(tk.drop_last() =~= vs.take(k as int));
                    assert(tk.last() == version@);
                    assert(pairs_view(out@) =~= mid + stale_pairs(*family, tk, chosen@));
                }
                k = k + 1;
            }
            proof {
                assert(vs.take(vs.len() as int) =~= vs);
                let t = families.vals@.take(fi + 1);
                assert(t.drop_last() =~= families.vals@.take(fi as int));
                assert(t.last() == *family);
            }
            fi = fi + 1;
        }
        assert(families.vals@.take(families.vals.len() as int) =~= families.vals@);
    }
    let ghost after_stale = pairs_view(out@);
    if unknown {
        let mut ui: usize = 0;
        assert(unknowns@.take(0) =~= Seq::<UnknownTarball>::empty());
        assert(after_stale + Seq::<(Seq<char>, Seq<char>)>::empty() =~= after_stale);
        while ui < unknowns.len()
            invariant
                ui <= unknowns@.len(),
                pairs_view(out@) == after_stale + unknown_pairs(unknowns@.take(ui as int), chosen@),
            decreases unknowns.len() - ui,
        {
            let u = &unknowns[ui];
            push_pairs(&mut out, u.filename.as_str(), &u.servers, chosen);
            proof {
                let t = unknowns@.take(ui + 1);
                assert(t.drop_last() =~= unknowns@.take(ui as int));
                assert(t.last() == *u);
                assert(pairs_view(out@) =~= after_stale + unknown_pairs(t, chosen@));
            }
            ui = ui + 1;
        }
        assert(unknowns@.take(unknowns.len() as int) =~= unknowns@);
    } else {
        assert(after_stale + Seq::<(Seq<char>, Seq<char>)>::empty() =~= after_stale);
    }
    if !stale {
        assert(Seq::<(Seq<char>, Seq<char>)>::empty() + pairs_view(out@).skip(0) =~= pairs_view(out@));
    }
    out
}

/// Index of the last server called `name`: the one a name stands for
/// when it is configured twice.
pub fn last_server_named(servers: &[Server], name: &str) -> (r: Option<usize>)
    ensures
        match r {
            Some(i) => i < servers@.len() && servers@[i as int].name@ == name@ && forall|j: int|
                i < j < servers@.len() ==> (#[trigger] servers@[j]).name@ != name@,
            None => forall|j: int| 0 <= j < servers@.len() ==> (#[trigger] servers@[j]).name@ != name@,
        },
{
    let mut i: usize = servers.len();
    while i > 0
        invariant
            i <= servers@.len(),
            forall|j: int| i <= j < servers@.len() ==> (#[trigger] servers@[j]).name@ != name@,
        decreases i,
    {
        if crate::strings::str_eq(servers[i - 1].name.as_str(), name) {
            return Some(i - 1);
        }
        i = i - 1;
    }
    None
}

/// Each raw `remove` argument parsed and resolved, in order; the first
/// that does not resolve gives its error.
pub open spec fn resolved_all(
    raws: Seq<Seq<char>>,
    fams: Map<Seq<char>, crate::models::ImageFamilyV>,
    known: Seq<Seq<char>>,
    unknowns: Seq<UnknownTarball>,
) -> Result<Seq<TargetV>, Seq<char>>
    decreases raws.len(),
{
    if raws.len() == 0 {
        Ok(Seq::empty())
    } else {
        match resolution(parse_selector(raws[0]), fams, known, unknowns) {
            Err(e) => Err(e),
            Ok(t) => match resolved_all(raws.drop_first(), fams, known, unknowns) {
                Ok(rest) => Ok(seq![t] + rest),
                Err(e) => Err(e),
            },
        }
    }
}

pub open spec fn targets_view(v: Seq<ResolvedTarget>) -> Seq<TargetV> {
    v.map_values(|t: ResolvedTarget| t@)
}

/// Resolves every `remove` argument (see `resolved_all`).
pub fn resolve_all(
    raws: &[String],
    families: &NameMap<ImageFamily>,
    unknowns: &[UnknownTarball],
) -> (r: Result<Vec<ResolvedTarget>, String>)
    requires
        families_wf(*families),
    ensures
        match r {
            Ok(v) => resolved_all(view_names(raws@), family_views(*families), families.key_seq(), unknowns@)
                == Ok::<Seq<TargetV>, Seq<char>>(targets_view(v@)),
            Err(e) => resolved_all(view_names(raws@), family_views(*families), families.key_seq(), unknowns@)
                == Err::<Seq<TargetV>, Seq<char>>(e@),
        },
{
    let ghost rs = view_names(raws@);
    let ghost fv = family_views(*families);
    let ghost known = families.key_seq();
    let mut out: Vec<ResolvedTarget> = Vec::new();
    let mut i: usize = 0;
    assert(rs.skip(0) =~= rs);
    assert(targets_view(out@) + Seq::<TargetV>::empty() =~= targets_view(out@));
    while i < raws.len()
        invariant
            i <= raws@.len(),
            rs == view_names(raws@),
            fv == family_views(*families),
            known == families.key_seq(),
            families_wf(*families),
            resolved_all(rs, fv, known, unknowns@) == match resolved_all(rs.skip(i as int), fv, known, unknowns@) {
                Ok(rest) => Ok::<Seq<TargetV>, Seq<char>>(targets_view(out@) + rest),
                Err(e) => Err(e),
            },
        decreases raws.len() - i,
    {
        proof {
            assert(rs.skip(i as int).drop_first() =~= rs.skip(i + 1));
            assert(rs.skip(i as int)[0] == raws@[i as int]@);
        }
        let selector = ImageSelector::parse(raws[i].as_str());
        match resolve(&selector, families, unknowns) {
            Ok(t) => {
                let ghost before = targets_view(out@);
                out.push(t);
                proof {
                    assert(targets_view(out@) =~= before.push(t@));
                    match resolved_all(rs.skip(i + 1), fv, known, unknowns@) {
                        Ok(rest) => {
                            assert(before + (seq![t@] + rest) =~= before.push(t@) + rest);
                        },
                        Err(_) => {},
                    }
                }
            },
            Err(e) => {
                return Err(e);
            },
        }
        i = i + 1;
    }
    proof {
        assert(rs.skip(raws.len() as int) =~= Seq::<Seq<char>>::empty());
        assert(targets_view(out@) + Seq::<TargetV>::empty() =~= targets_view(out@));
    }
    Ok(out)
}

} // verus!
