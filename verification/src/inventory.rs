//! The inventory: discovered families, tarballs found on servers, each
//! server's scan outcome, and the table rows shown for them.
use vstd::prelude::*;

use crate::dockerfile::DiscoveryResult;
use crate::models::{
    version_servers_view, ImageFamily, ImageTableRow, RowV, ScanStatus, ScanStatusV, Server,
    UnknownTarball,
};
use crate::names::{view_names, NameMap, NameSet};
use crate::remote::{apply_scan_results, families_wf, refresh_local_tarballs, unknowns_wf};

verus! {

/// Everything known about the images and the servers.
pub struct Inventory {
    pub families: NameMap<ImageFamily>,
    pub unknowns: Vec<UnknownTarball>,
    pub server_names: Vec<String>,
    pub scan_status: NameMap<ScanStatus>,
    pub warnings: Vec<String>,
}

/// A discovered family with its current image's staging tarball marked:
/// `local_tarball` is whether `staging` holds the image's tarball name.
pub open spec fn staged_family(f: crate::models::ImageFamilyV, staging: Set<Seq<char>>) -> crate::models::ImageFamilyV {
    crate::models::ImageFamilyV {
        current: match f.current {
            Some(c) => Some(
                crate::models::ManagedImageV {
                    local_tarball: staging.contains(crate::remote::tarball_name(c.name, c.version)),
                    ..c
                },
            ),
            None => None,
        },
        ..f
    }
}

impl Inventory {
    pub open spec fn wf(&self) -> bool {
        &&& families_wf(self.families)
        &&& unknowns_wf(self.unknowns@)
        &&& self.scan_status.wf()
    }

    /// The scan outcomes by server name.
    pub open spec fn status_view(&self) -> Map<Seq<char>, ScanStatusV> {
        self.scan_status@.map_values(|s: ScanStatus| s@)
    }

    /// A fresh inventory: the discovered families, their staging tarballs
    /// marked from `staging_files`, no remote tarballs yet, and every
    /// configured server's scan pending.
    pub fn from_discovery(discovery: DiscoveryResult, staging_files: &NameSet, servers: &[Server]) -> (r:
        Inventory)
        requires
            families_wf(discovery.families),
        ensures
            r.wf(),
            r.families.keys == discovery.families.keys,
            forall|fi: int|
                0 <= fi < discovery.families.vals.len() ==> (#[trigger] r.families.vals@[fi])@ == staged_family(
                    discovery.families.vals@[fi]@,
                    staging_files@,
                ),
            r.unknowns@.len() == 0,
            view_names(r.server_names@) == servers@.map_values(|s: Server| s.name@),
            r.status_view() == Map::new(
                |k: Seq<char>| servers@.map_values(|s: Server| s.name@).contains(k),
                |k: Seq<char>| ScanStatusV::Pending,
            ),
            view_names(r.warnings@) == view_names(discovery.warnings@),
    {
        let DiscoveryResult { families, warnings } = discovery;
        let mut families = families;
        refresh_local_tarballs(&mut families, staging_files);
        let ghost names = servers@.map_values(|s: Server| s.name@);
        let mut server_names: Vec<String> = Vec::new();
        let mut scan_status: NameMap<ScanStatus> = NameMap::new();
        let mut i: usize = 0;
        while i < servers.len()
            invariant
                i <= servers@.len(),
                names == servers@.map_values(|s: Server| s.name@),
                view_names(server_names@) == names.take(i as int),
                scan_status.wf(),
                scan_status@.map_values(|s: ScanStatus| s@) == Map::new(
                    |k: Seq<char>| names.take(i as int).contains(k),
                    |k: Seq<char>| ScanStatusV::Pending,
                ),
            decreases servers.len() - i,
        {
            let name = servers[i].name.clone();
            let ghost before = server_names@;
            let ghost before_map = scan_status@;
            server_names.push(name.clone());
            scan_status.insert(name, ScanStatus::Pending);
            assert(scan_status@.map_values(|s: ScanStatus| s@) =~= before_map.map_values(|s: ScanStatus| s@).insert(names[i as int], ScanStatusV::Pending));
            proof {
                assert(names.take(i + 1) =~= names.take(i as int).push(names[i as int]));
                assert forall|k: Seq<char>| #[trigger] names.take(i + 1).contains(k) == (names.take(i as int).contains(k) || k == names[i as int]) by {
                    if names.take(i + 1).contains(k) {
                        let j = choose|j: int| 0 <= j < i + 1 && #[trigger] names.take(i + 1)[j] == k;
                        if j < i {
                            assert(names.take(i as int)[j] == k);
                        }
                    }
                    if names.take(i as int).contains(k) {
                        let j = choose|j: int| 0 <= j < i && #[trigger] names.take(i as int)[j] == k;
                        assert(names.take(i + 1)[j] == k);
                    }
                    if k == names[i as int] {
                        assert(names.take(i + 1)[i as int] == k);
                    }
                }
                assert(view_names(server_names@) =~= view_names(before).push(names[i as int]));
                assert(scan_status@.map_values(|s: ScanStatus| s@) =~= Map::new(
                    |k: Seq<char>| names.take(i + 1).contains(k),
                    |k: Seq<char>| ScanStatusV::Pending,
                ));
            }
            i = i + 1;
        }
        assert(names.take(servers.len() as int) =~= names);
        let unknowns: Vec<UnknownTarball> = Vec::new();
        Inventory { families, unknowns, server_names, scan_status, warnings }
    }

    /// Records one server's scan: a listing marks the server scanned and is
    /// folded into the inventory (see `apply_scan_results`); an error is
    /// kept as that server's outcome.
    pub fn record_scan(&mut self, server_name: String, filenames: Result<Vec<String>, String>)
        requires
            old(self).wf(),
        ensures
            final(self).wf(),
            final(self).server_names == old(self).server_names,
            final(self).warnings == old(self).warnings,
            final(self).families.keys == old(self).families.keys,
            match filenames {
                Ok(files) => {
                    &&& final(self).status_view() == old(self).status_view().insert(
                        server_name@,
                        ScanStatusV::Succeeded,
                    )
                    &&& forall|fi: int|
                        0 <= fi < old(self).families.vals.len() ==> (#[trigger] final(self).families.vals@[fi])@ == crate::remote::completed(
                            crate::remote::scanned(
                                old(self).families.vals@[fi]@,
                                old(self).families.key_seq(),
                                view_names(files@),
                                fi,
                                server_name@,
                            ),
                            server_name@,
                        )
                },
                Err(e) => {
                    &&& final(self).status_view() == old(self).status_view().insert(
                        server_name@,
                        ScanStatusV::Error(e@),
                    )
                    &&& final(self).families == old(self).families
                    &&& final(self).unknowns == old(self).unknowns
                },
            },
    {
        let ghost old_status = self.status_view();
        match filenames {
            Ok(files) => {
                self.scan_status.insert(server_name.clone(), ScanStatus::Succeeded);
                apply_scan_results(&mut self.families, &mut self.unknowns, server_name.as_str(), files.as_slice());
                assert(self.status_view() =~= old_status.insert(server_name@, ScanStatusV::Succeeded));
            },
            Err(e) => {
                let ghost ev = e@;
                self.scan_status.insert(server_name, ScanStatus::Error(e));
                assert(self.status_view() =~= old_status.insert(server_name@, ScanStatusV::Error(ev)));
            },
        }
    }
}

/// Some server's scan ended in an error.
pub open spec fn has_scan_error(status: Map<Seq<char>, ScanStatusV>) -> bool {
    exists|k: Seq<char>| #[trigger] status.contains_key(k) && status[k] is Error
}

/// True when any server's scan ended in an error; commands that scan exit
/// non-zero then.
pub fn any_scan_error(inv: &Inventory) -> (r: bool)
    requires
        inv.scan_status.wf(),
    ensures
        r == has_scan_error(inv.status_view()),
{
    let m = &inv.scan_status;
    let mut i: usize = 0;
    while i < m.vals.len()
        invariant
            m.wf(),
            *m == inv.scan_status,
            i <= m.vals.len(),
            forall|j: int| 0 <= j < i ==> !((#[trigger] m.vals@[j]) is Error),
        decreases m.vals.len() - i,
    {
        match &m.vals[i] {
            ScanStatus::Error(_) => {
                proof {
                    m.lemma_entry(i as int);
                    let k = m.key_seq()[i as int];
                    assert(inv.status_view().contains_key(k));
                }
                return true;
            },
            _ => {},
        }
        i = i + 1;
    }
    proof {
        assert forall|k: Seq<char>| #[trigger] inv.status_view().contains_key(k) implies !(
        inv.status_view()[k] is Error) by {
            let j = m.lemma_key_index(k);
        }
    }
    false
}

// ---------------------------------------------------------------------------
// Table rows
// ---------------------------------------------------------------------------

/// The row for a stale version `v` of family `f`: the servers holding it.
pub open spec fn stale_row(f: ImageFamily, v: Seq<char>) -> RowV {
    RowV::Stale {
        family_name: f.name@,
        version: v,
        servers: if version_servers_view(f.remote_presence).contains_key(v) {
            version_servers_view(f.remote_presence)[v]
        } else {
            Set::empty()
        },
    }
}

/// The rows of one family: its current image, then its stale versions in
/// ascending order.
pub open spec fn family_rows(f: ImageFamily) -> Seq<RowV> {
    (match f.current {
        Some(c) => seq![RowV::Current(c@)],
        None => Seq::empty(),
    }) + f.stale_versions.elems().map_values(|v: Seq<char>| stale_row(f, v))
}

/// The rows of all families, in family order.
pub open spec fn families_rows(fs: Seq<ImageFamily>) -> Seq<RowV>
    decreases fs.len(),
{
    if fs.len() == 0 {
        Seq::empty()
    } else {
        families_rows(fs.drop_last()) + family_rows(fs.last())
    }
}

/// One row per unknown tarball still held by some server, in order.
pub open spec fn unknown_rows(us: Seq<UnknownTarball>) -> Seq<RowV>
    decreases us.len(),
{
    if us.len() == 0 {
        Seq::empty()
    } else {
        let u = us.last();
        unknown_rows(us.drop_last()) + if u.servers.elems().len() > 0 {
            seq![RowV::Unknown { filename: u.filename@, servers: u.servers@ }]
        } else {
            Seq::empty()
        }
    }
}

/// The table: every family's rows, then the unknown tarballs.
pub open spec fn table_rows(fs: Seq<ImageFamily>, us: Seq<UnknownTarball>) -> Seq<RowV> {
    families_rows(fs) + unknown_rows(us)
}

/// The views of a list of rows.
pub open spec fn rows_view(rows: Seq<ImageTableRow>) -> Seq<RowV> {
    rows.map_values(|r: ImageTableRow| r@)
}

pub open spec fn rows_wf(rows: Seq<ImageTableRow>) -> bool {
    forall|i: int| 0 <= i < rows.len() ==> (#[trigger] rows[i]).wf()
}

/// The table rows of the inventory (see `rows_from`).
pub fn rows(inv: &Inventory) -> (r: Vec<ImageTableRow>)
    requires
        inv.wf(),
    ensures
        rows_view(r@) == table_rows(inv.families.vals@, inv.unknowns@),
        rows_wf(r@),
{
    rows_from(&inv.families, inv.unknowns.as_slice())
}

/// The table rows: for each family in name order its current image and
/// then its stale versions in ascending order (each with the servers
/// holding it), then every unknown tarball some server still holds.
pub fn rows_from(families: &NameMap<ImageFamily>, unknowns: &[UnknownTarball]) -> (r: Vec<ImageTableRow>)
    requires
        families_wf(*families),
        unknowns_wf(unknowns@),
    ensures
        rows_view(r@) == table_rows(families.vals@, unknowns@),
        rows_wf(r@),
{
    let mut out: Vec<ImageTableRow> = Vec::new();
    let mut fi: usize = 0;
    assert(families.vals@.take(0) =~= Seq::<ImageFamily>::empty());
    while fi < families.vals.len()
        invariant
            fi <= families.vals.len(),
            families_wf(*families),
            rows_view(out@) == families_rows(families.vals@.take(fi as int)),
            rows_wf(out@),
        decreases families.vals.len() - fi,
    {
        let family = &families.vals[fi];
        assert(family.wf());
        let ghost start = rows_view(out@);
        match &family.current {
            Some(cur) => {
                out.push(ImageTableRow::Current(cur.clone()));
                assert(rows_view(out@) =~= start.push(RowV::Current(cur@)));
            },
            None => {},
        }
        let ghost mid = rows_view(out@);
        let ghost vs = family.stale_versions.elems();
        let mut k: usize = 0;
        while k < family.stale_versions.items.len()
            invariant
                k <= family.stale_versions.items.len(),
                family.wf(),
                vs == family.stale_versions.elems(),
                rows_view(out@) == mid + vs.take(k as int).map_values(|v: Seq<char>| stale_row(*family, v)),
                rows_wf(out@),
            decreases family.stale_versions.items.len() - k,
        {
            let version = &family.stale_versions.items[k];
            let servers = match family.remote_presence.get(version.as_str()) {
                Some(s) => s.clone(),
                None => NameSet::new(),
            };
            proof {
                if family.remote_presence@.contains_key(version@) {
                    let j = family.remote_presence.lemma_key_index(version@);
                }
            }
            let row = ImageTableRow::Stale { family_name: family.name.clone(), version: version.clone(), servers };
            let ghost before = rows_view(out@);
            out.push(row);
            proof {
                assert(vs[k as int] == version@);
                assert(row@ == stale_row(*family, version@));
                assert(rows_view(out@) =~= before.push(row@));
                assert(vs.take(k + 1).map_values(|v: Seq<char>| stale_row(*family, v)) =~= vs.take(k as int).map_values(|v: Seq<char>| stale_row(*family, v)).push(stale_row(*family, version@)));
            }
            k = k + 1;
        }
        proof {
            assert(vs.take(vs.len() as int) =~= vs);
            let t = families.vals@.take(fi + 1);
            assert(t.drop_last() =~= families.vals@.take(fi as int));
            assert(t.last() == *family);
            assert(rows_view(out@) =~= families_rows(t));
        }
        fi = fi + 1;
    }
    assert(families.vals@.take(families.vals.len() as int) =~= families.vals@);
    let ghost fam_rows = rows_view(out@);
    let mut ui: usize = 0;
    assert(unknowns@.take(0) =~= Seq::<UnknownTarball>::empty());
    while ui < unknowns.len()
        invariant
            ui <= unknowns@.len(),
            unknowns_wf(unknowns@),
            rows_view(out@) == fam_rows + unknown_rows(unknowns@.take(ui as int)),
            rows_wf(out@),
        decreases unknowns.len() - ui,
    {
        let u = &unknowns[ui];
        let ghost before = rows_view(out@);
        if u.servers.items.len() > 0 {
            out.push(ImageTableRow::Unknown(u.clone()));
            assert(rows_view(out@) =~= before.push(RowV::Unknown { filename: u.filename@, servers: u.servers@ }));
        }
        proof {
            let t = unknowns@.take(ui + 1);
            assert(t.drop_last() =~= unknowns@.take(ui as int));
            assert(t.last() == *u);
            assert(rows_view(out@) =~= fam_rows + unknown_rows(t));
        }
        ui = ui + 1;
    }
    assert(unknowns@.take(unknowns.len() as int) =~= unknowns@);
    out
}

} // verus!
