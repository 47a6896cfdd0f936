//! Reconciling what servers hold with the discovered families: tarball
//! naming, matching remote filenames to families, and the command lines used
//! to list, copy and delete tarballs over SSH.
use vstd::prelude::*;

use crate::models::{
    opt_view, Server, ServerV, version_servers_view, version_servers_wf, ImageFamily, ImageFamilyV, ManagedImageV,
    UnknownTarball,
};
use crate::names::{
    lemma_sorted_distinct, lemma_sorted_index_unique, strictly_sorted, view_names, NameMap,
    NameSet,
};
use crate::strings::{
    chars_of, string_from_chars, is_ws, decimal, ends_with, push_char, seq_ends_with, seq_lt, seq_starts_with, starts_with, str_eq, str_lt,
    trim, trim_seq,
};

verus! {

// ---------------------------------------------------------------------------
// Tarball names
// ---------------------------------------------------------------------------

pub open spec fn tar_suffix() -> Seq<char> {
    seq!['.', 't', 'a', 'r']
}

pub open spec fn unknown_version() -> Seq<char> {
    seq!['u', 'n', 'k', 'n', 'o', 'w', 'n']
}

/// `{name}-{version}.tar`, the name `podman save` output is stored under.
pub open spec fn tarball_name(name: Seq<char>, version: Seq<char>) -> Seq<char> {
    name + seq!['-'] + version + tar_suffix()
}

/// The tarball filename for an image at a version: `{name}-{version}.tar`.
pub fn tarball_filename(image_name: &str, version: &str) -> (r: String)
    ensures
        r@ == tarball_name(image_name@, version@),
{
    let mut r = image_name.to_owned();
    push_char(&mut r, '-');
    r.append(version);
    let ext = ".tar";
    proof {
        reveal_strlit(".tar");
    }
    r.append(ext);
    r
}

/// The trimmed remote filename, when it names a `.tar` file.
pub open spec fn tar_file(raw: Seq<char>) -> Option<Seq<char>> {
    if seq_ends_with(trim_seq(raw), tar_suffix()) {
        Some(trim_seq(raw))
    } else {
        None
    }
}

/// A tarball filename without its `.tar` suffix.
pub open spec fn tar_stem(f: Seq<char>) -> Seq<char> {
    f.take(f.len() - 4)
}

// ---------------------------------------------------------------------------
// Matching a tarball stem to a family
// ---------------------------------------------------------------------------

/// `stem` starts with `name` followed by `-`.
pub open spec fn dash_prefix(name: Seq<char>, stem: Seq<char>) -> bool {
    &&& name.len() < stem.len()
    &&& stem.take(name.len() as int) == name
    &&& stem[name.len() as int] == '-'
}

/// `names[i]` is a longest name that `stem` starts with, followed by `-`.
pub open spec fn longest_dash_prefix(names: Seq<Seq<char>>, stem: Seq<char>, i: int) -> bool {
    &&& 0 <= i < names.len()
    &&& dash_prefix(names[i], stem)
    &&& forall|j: int|
        0 <= j < names.len() && dash_prefix(#[trigger] names[j], stem) ==> names[j].len()
            <= names[i].len()
}

/// The family a tarball stem belongs to, with the version part of the stem:
/// a family named exactly like the stem (version empty); otherwise the family
/// with the longest name that the stem starts with, followed by `-`, whose
/// version is the rest of the stem; otherwise none.
pub open spec fn family_match(names: Seq<Seq<char>>, stem: Seq<char>) -> Option<(int, Seq<char>)> {
    if names.contains(stem) {
        Some((names.index_of(stem), Seq::<char>::empty()))
    } else if exists|i: int| longest_dash_prefix(names, stem, i) {
        let i = choose|i: int| longest_dash_prefix(names, stem, i);
        Some((i, stem.skip(names[i].len() + 1int)))
    } else {
        None
    }
}

/// Two longest prefixes of one stem are the same family.
pub proof fn lemma_longest_unique(names: Seq<Seq<char>>, stem: Seq<char>, i: int, j: int)
    requires
        strictly_sorted(names),
        longest_dash_prefix(names, stem, i),
        longest_dash_prefix(names, stem, j),
    ensures
        i == j,
{
    assert(names[i].len() == names[j].len());
    assert(names[i] == stem.take(names[i].len() as int));
    assert(names[j] == stem.take(names[j].len() as int));
    if i != j {
        lemma_sorted_distinct(names, i, j);
    }
}

/// The family a tarball stem belongs to (see `family_match`), as an index
/// into the sorted family names and the version part.
fn match_tarball(family_names: &Vec<String>, stem: &str) -> (r: Option<(usize, String)>)
    requires
        strictly_sorted(view_names(family_names@)),
    ensures
        match r {
            Some((i, v)) => family_match(view_names(family_names@), stem@) == Some(
                (i as int, v@),
            ),
            None => family_match(view_names(family_names@), stem@) is None,
        },
{
    let ghost names = view_names(family_names@);
    let n = stem.unicode_len();
    let mut best: Option<usize> = None;
    let mut i: usize = 0;
    while i < family_names.len()
        invariant
            i <= family_names.len(),
            n == stem@.len(),
            names == view_names(family_names@),
            strictly_sorted(names),
            forall|j: int| 0 <= j < i ==> names[j] != stem@,
            match best {
                None => forall|j: int| 0 <= j < i ==> !dash_prefix(#[trigger] names[j], stem@),
                Some(b) => b < i && dash_prefix(names[b as int], stem@) && forall|j: int|
                    0 <= j < i && dash_prefix(#[trigger] names[j], stem@) ==> names[j].len()
                        <= names[b as int].len(),
            },
        decreases family_names.len() - i,
    {
        let name = family_names[i].as_str();
        assert(name@ == names[i as int]);
        if str_eq(stem, name) {
            proof {
                lemma_sorted_index_unique(names, i as int);
            }
            return Some((i, String::new()));
        }
        let m = name.unicode_len();
        if m < n && starts_with(stem, name) && stem.get_char(m) == '-' {
            let keep = match best {
                Some(b) => m <= family_names[b].unicode_len(),
                None => false,
            };
            if !keep {
                best = Some(i);
            }
        }
        i = i + 1;
    }
    assert(!names.contains(stem@));
    match best {
        None => {
            assert(!exists|i: int| longest_dash_prefix(names, stem@, i));
            None
        },
        Some(b) => {
            let name = family_names[b].as_str();
            let m = name.unicode_len();
            let v = stem.substring_char(m + 1, n).to_owned();
            proof {
                assert(longest_dash_prefix(names, stem@, b as int));
                let c = choose|i: int| longest_dash_prefix(names, stem@, i);
                lemma_longest_unique(names, stem@, c, b as int);
                assert(v@ =~= stem@.skip(names[b as int].len() + 1int));
            }
            Some((b, v))
        },
    }
}

/// A tarball saved for family `names[i]` at version `v` is recognised by a
/// scan as that family at that version, unless another family claims its
/// name: one named exactly `<name>-<v>`, or a longer one that the name
/// `<name>-<v>` starts with (followed by `-`). The family name must not
/// begin with whitespace (a listing is trimmed).
pub proof fn lemma_saved_tarball_recognised(names: Seq<Seq<char>>, i: int, v: Seq<char>)
    requires
        strictly_sorted(names),
        0 <= i < names.len(),
        names[i].len() == 0 || !is_ws(names[i][0]),
        !names.contains(names[i] + seq!['-'] + v),
        forall|j: int|
            0 <= j < names.len() && dash_prefix(#[trigger] names[j], names[i] + seq!['-'] + v)
                ==> names[j].len() <= names[i].len(),
    ensures
        file_hit(names, tarball_name(names[i], v)) == Some((i, v)),
{
    let t = tarball_name(names[i], v);
    let stem = names[i] + seq!['-'] + v;
    assert(t =~= stem + tar_suffix());
    assert(t.last() == 'r');
    assert(t[0] == (if names[i].len() == 0 { '-' } else { names[i][0] }));
    crate::strings::lemma_ws_prefix_exact(t, 0);
    assert(t.skip(0) =~= t);
    crate::strings::lemma_ws_suffix_exact(t, t.len() as int);
    assert(t.take(t.len() as int) =~= t);
    assert(trim_seq(t) =~= t);
    assert(t.skip(t.len() - 4) =~= tar_suffix());
    assert(tar_file(t) == Some(t));
    assert(tar_stem(t) =~= stem);
    assert(stem.take(names[i].len() as int) =~= names[i]);
    assert(dash_prefix(names[i], stem));
    assert(longest_dash_prefix(names, stem, i));
    let k = choose|k: int| longest_dash_prefix(names, stem, k);
    lemma_longest_unique(names, stem, k, i);
    assert(stem.skip(names[i].len() + 1int) =~= v);
}

/// What a remote filename matches: the family index and version part.
pub open spec fn file_hit(names: Seq<Seq<char>>, raw: Seq<char>) -> Option<(int, Seq<char>)> {
    match tar_file(raw) {
        Some(f) => family_match(names, tar_stem(f)),
        None => None,
    }
}

/// The version a matched tarball stands for: its version part, or the
/// family's current version (else `unknown`) when the part is empty.
pub open spec fn effective_version(cv: Option<Seq<char>>, v: Seq<char>) -> Seq<char> {
    if v.len() == 0 {
        match cv {
            Some(c) => c,
            None => unknown_version(),
        }
    } else {
        v
    }
}

// ---------------------------------------------------------------------------
// Recording one match on a family
// ---------------------------------------------------------------------------

/// Adds server `s` to the server set of each version in `found`.
pub open spec fn add_server(m: Map<Seq<char>, Set<Seq<char>>>, found: Set<Seq<char>>, s: Seq<char>) -> Map<
    Seq<char>,
    Set<Seq<char>>,
> {
    Map::new(
        |x: Seq<char>| m.contains_key(x) || found.contains(x),
        |x: Seq<char>|
            if found.contains(x) {
                if m.contains_key(x) {
                    m[x].insert(s)
                } else {
                    set![s]
                }
            } else {
                m[x]
            },
    )
}

/// The family with its current image's presence flag for `s` set to `flag`.
pub open spec fn with_presence(f: ImageFamilyV, s: Seq<char>, flag: bool) -> ImageFamilyV {
    ImageFamilyV {
        current: match f.current {
            Some(c) => Some(
                ManagedImageV { server_presence: c.server_presence.insert(s, flag), ..c },
            ),
            None => None,
        },
        ..f
    }
}

/// The family after server `s` was found to hold its tarball at version part `v`.
pub open spec fn hit_view(f: ImageFamilyV, s: Seq<char>, v: Seq<char>) -> ImageFamilyV {
    let x = effective_version(f.current_version, v);
    if Some(x) == f.current_version {
        with_presence(f, s, true)
    } else {
        ImageFamilyV {
            stale_versions: f.stale_versions.insert(x),
            remote_presence: add_server(f.remote_presence, set![x], s),
            ..f
        }
    }
}

/// Records that `server` holds `family`'s tarball with version part `version`.
fn record_hit(fam: &mut ImageFamily, server: &str, version: &str)
    requires
        old(fam).wf(),
    ensures
        final(fam).wf(),
        final(fam)@ == hit_view(old(fam)@, server@, version@),
{
    let ghost f = fam@;
    let eff: String = if version.unicode_len() == 0 {
        match &fam.current_version {
            Some(c) => c.clone(),
            None => {
                let u = "unknown";
                proof {
                    reveal_strlit("unknown");
                }
                u.to_owned()
            },
        }
    } else {
        version.to_owned()
    };
    assert(eff@ == effective_version(f.current_version, version@));
    let is_current = match &fam.current_version {
        Some(c) => str_eq(eff.as_str(), c.as_str()),
        None => false,
    };
    if is_current {
        match &mut fam.current {
            Some(cur) => {
                cur.server_presence.insert(server.to_owned(), true);
            },
            None => {},
        }
        assert(fam@ =~= with_presence(f, server@, true));
    } else {
        fam.stale_versions.insert(eff.clone());
        match fam.remote_presence.find(eff.as_str()) {
            Some(idx) => {
                let ghost old_rp = fam.remote_presence;
                proof {
                    old_rp.lemma_entry(idx as int);
                }
                let mut servers = fam.remote_presence.replace_at(idx, NameSet::new());
                servers.insert(server.to_owned());
                let ghost mid = fam.remote_presence;
                fam.remote_presence.replace_at(idx, servers);
                proof {
                    let rp = fam.remote_presence;
                    assert(rp.vals@ == old_rp.vals@.update(idx as int, servers));
                    assert(rp@ == old_rp@.insert(eff@, servers));
                    assert(version_servers_wf(rp)) by {
                        assert forall|j: int| 0 <= j < rp.vals.len() implies (
                        #[trigger] rp.vals@[j]).wf() by {
                            if j != idx {
                                assert(rp.vals@[j] == old_rp.vals@[j]);
                            }
                        }
                    }
                    assert(version_servers_view(rp) =~= add_server(
                        version_servers_view(old_rp),
                        set![eff@],
                        server@,
                    ));
                }
            },
            None => {
                let ghost old_rp = fam.remote_presence;
                fam.remote_presence.insert(eff, NameSet::singleton(server.to_owned()));
                proof {
                    let rp = fam.remote_presence;
                    assert(version_servers_wf(rp)) by {
                        assert forall|j: int| 0 <= j < rp.vals.len() implies (
                        #[trigger] rp.vals@[j]).wf() by {
                            let k = rp.key_seq()[j];
                            rp.lemma_entry(j);
                            if k != eff@ {
                                let jj = old_rp.lemma_key_index(k);
                            }
                        }
                    }
                    assert(version_servers_view(rp) =~= add_server(
                        version_servers_view(old_rp),
                        set![eff@],
                        server@,
                    ));
                }
            },
        }
        assert(fam@ =~= hit_view(f, server@, version@));
    }
}


// ---------------------------------------------------------------------------
// Applying a whole scan
// ---------------------------------------------------------------------------

/// Every family and every held set is well formed.
pub open spec fn families_wf(m: NameMap<ImageFamily>) -> bool {
    &&& m.wf()
    &&& forall|i: int| 0 <= i < m.vals.len() ==> (#[trigger] m.vals@[i]).wf()
}

/// Every unknown tarball's server set is well formed.
pub open spec fn unknowns_wf(us: Seq<UnknownTarball>) -> bool {
    forall|i: int| 0 <= i < us.len() ==> (#[trigger] us[i]).wf()
}

/// The version part of `raw` when it matches family `fi`.
pub open spec fn hit_version(names: Seq<Seq<char>>, raw: Seq<char>, fi: int) -> Option<Seq<char>> {
    match file_hit(names, raw) {
        Some(p) => if p.0 == fi {
            Some(p.1)
        } else {
            None
        },
        None => None,
    }
}

/// Some listed file is family `fi`'s tarball at its current version.
pub open spec fn hits_current(
    names: Seq<Seq<char>>,
    fs: Seq<Seq<char>>,
    fi: int,
    cv: Option<Seq<char>>,
) -> bool {
    exists|k: int|
        0 <= k < fs.len() && #[trigger] hit_version(names, fs[k], fi) is Some && Some(
            effective_version(cv, hit_version(names, fs[k], fi)->0),
        ) == cv
}

/// The other versions of family `fi` that the listed files name.
pub open spec fn stale_found(
    names: Seq<Seq<char>>,
    fs: Seq<Seq<char>>,
    fi: int,
    cv: Option<Seq<char>>,
) -> Set<Seq<char>> {
    Set::new(
        |x: Seq<char>|
            exists|k: int|
                0 <= k < fs.len() && #[trigger] hit_version(names, fs[k], fi) is Some && x
                    == effective_version(cv, hit_version(names, fs[k], fi)->0) && Some(x) != cv,
    )
}

/// Family `fi` once server `s` listed the files `fs`: its current image is
/// marked present on `s` when a file is its current tarball, and every other
/// version named becomes stale, held by `s`.
pub open spec fn scanned(
    f: ImageFamilyV,
    names: Seq<Seq<char>>,
    fs: Seq<Seq<char>>,
    fi: int,
    s: Seq<char>,
) -> ImageFamilyV {
    let found = stale_found(names, fs, fi, f.current_version);
    let present = if hits_current(names, fs, fi, f.current_version) {
        with_presence(f, s, true)
    } else {
        f
    };
    ImageFamilyV {
        stale_versions: f.stale_versions.union(found),
        remote_presence: add_server(f.remote_presence, found, s),
        ..present
    }
}

/// After a successful scan of `s`, the current image has an entry for `s`:
/// an absent one becomes `false`.
pub open spec fn completed(f: ImageFamilyV, s: Seq<char>) -> ImageFamilyV {
    match f.current {
        Some(c) => if c.server_presence.contains_key(s) {
            f
        } else {
            with_presence(f, s, false)
        },
        None => f,
    }
}

/// After a successful scan of server `s`, a current image has an entry for
/// `s`: true when the listing held its current tarball (or `s` was already
/// recorded as holding it), false otherwise; other servers' entries are
/// unchanged.
pub proof fn lemma_scan_records_server(
    f: ImageFamilyV,
    names: Seq<Seq<char>>,
    fs: Seq<Seq<char>>,
    fi: int,
    s: Seq<char>,
)
    requires
        f.current is Some,
    ensures
        ({
            let before = f.current->0.server_presence;
            let after = completed(scanned(f, names, fs, fi, s), s).current->0.server_presence;
            &&& after.contains_key(s)
            &&& after[s] == (hits_current(names, fs, fi, f.current_version) || (before.contains_key(s)
                && before[s]))
            &&& forall|k: Seq<char>|
                k != s ==> (#[trigger] after.contains_key(k) == before.contains_key(k)) && (
                before.contains_key(k) ==> after[k] == before[k])
        }),
{
}

/// The `.tar` files listed in `fs` that match no family.
pub open spec fn unmatched(names: Seq<Seq<char>>, fs: Seq<Seq<char>>) -> Set<Seq<char>> {
    Set::new(
        |f: Seq<char>|
            exists|k: int|
                0 <= k < fs.len() && #[trigger] tar_file(fs[k]) == Some(f) && family_match(
                    names,
                    tar_stem(f),
                ) is None,
    )
}

/// Filenames of a list of unknown tarballs.
pub open spec fn unknown_names(us: Seq<UnknownTarball>) -> Seq<Seq<char>> {
    us.map_values(|u: UnknownTarball| u.filename@)
}

/// No earlier entry has the same filename as entry `i`.
pub open spec fn first_with_name(us: Seq<UnknownTarball>, i: int) -> bool {
    forall|j: int| 0 <= j < i ==> (#[trigger] us[j]).filename@ != us[i].filename@
}

proof fn lemma_scanned_empty(f: ImageFamilyV, names: Seq<Seq<char>>, fi: int, s: Seq<char>)
    ensures
        scanned(f, names, Seq::empty(), fi, s) == f,
{
    let e = Seq::<Seq<char>>::empty();
    assert(stale_found(names, e, fi, f.current_version) =~= Set::empty());
    assert(f.stale_versions.union(Set::empty()) =~= f.stale_versions);
    assert(add_server(f.remote_presence, Set::empty(), s) =~= f.remote_presence);
    assert(scanned(f, names, e, fi, s) =~= f);
}

proof fn lemma_scanned_step(
    f: ImageFamilyV,
    names: Seq<Seq<char>>,
    fs: Seq<Seq<char>>,
    raw: Seq<char>,
    fi: int,
    s: Seq<char>,
)
    ensures
        scanned(f, names, fs.push(raw), fi, s) == match hit_version(names, raw, fi) {
            Some(v) => hit_view(scanned(f, names, fs, fi, s), s, v),
            None => scanned(f, names, fs, fi, s),
        },
{
    let fs2 = fs.push(raw);
    let cv = f.current_version;
    let g = scanned(f, names, fs, fi, s);
    assert(forall|k: int| 0 <= k < fs.len() ==> fs2[k] == fs[k]);
    assert(fs2[fs.len() as int] == raw);
    let a = stale_found(names, fs, fi, cv);
    let a2 = stale_found(names, fs2, fi, cv);
    match hit_version(names, raw, fi) {
        Some(v) => {
            let x = effective_version(cv, v);
            if Some(x) == cv {
                assert(hits_current(names, fs2, fi, cv));
                assert(a2 =~= a) by {
                    assert forall|y: Seq<char>| a2.contains(y) implies a.contains(y) by {
                        let k = choose|k: int|
                            0 <= k < fs2.len() && #[trigger] hit_version(names, fs2[k], fi) is Some
                                && y == effective_version(cv, hit_version(names, fs2[k], fi)->0)
                                && Some(y) != cv;
                        assert(k < fs.len());
                        assert(hit_version(names, fs[k], fi) is Some);
                    }
                    assert forall|y: Seq<char>| a.contains(y) implies a2.contains(y) by {
                        let k = choose|k: int|
                            0 <= k < fs.len() && #[trigger] hit_version(names, fs[k], fi) is Some
                                && y == effective_version(cv, hit_version(names, fs[k], fi)->0)
                                && Some(y) != cv;
                        assert(hit_version(names, fs2[k], fi) is Some);
                    }
                }
                if hits_current(names, fs, fi, cv) {
                    match f.current {
                        Some(c) => {
                            assert(c.server_presence.insert(s, true).insert(s, true)
                                =~= c.server_presence.insert(s, true));
                        },
                        None => {},
                    }
                } else {
                }
                assert(scanned(f, names, fs2, fi, s) =~= hit_view(g, s, v));
            } else {
                assert(a2 =~= a.insert(x)) by {
                    assert forall|y: Seq<char>| a2.contains(y) implies a.insert(x).contains(y) by {
                        let k = choose|k: int|
                            0 <= k < fs2.len() && #[trigger] hit_version(names, fs2[k], fi) is Some
                                && y == effective_version(cv, hit_version(names, fs2[k], fi)->0)
                                && Some(y) != cv;
                        if k < fs.len() {
                            assert(hit_version(names, fs[k], fi) is Some);
                        }
                    }
                    assert forall|y: Seq<char>| a.insert(x).contains(y) implies a2.contains(y) by {
                        if y != x {
                            let k = choose|k: int|
                                0 <= k < fs.len() && #[trigger] hit_version(names, fs[k], fi) is Some
                                    && y == effective_version(cv, hit_version(names, fs[k], fi)->0)
                                    && Some(y) != cv;
                            assert(hit_version(names, fs2[k], fi) is Some);
                        } else {
                            assert(hit_version(names, fs2[fs.len() as int], fi) is Some);
                        }
                    }
                }
                assert(hits_current(names, fs2, fi, cv) == hits_current(names, fs, fi, cv)) by {
                    if hits_current(names, fs2, fi, cv) {
                        let k = choose|k: int|
                            0 <= k < fs2.len() && #[trigger] hit_version(names, fs2[k], fi) is Some
                                && Some(effective_version(cv, hit_version(names, fs2[k], fi)->0))
                                == cv;
                        assert(k < fs.len());
                        assert(hit_version(names, fs[k], fi) is Some);
                    }
                    if hits_current(names, fs, fi, cv) {
                        let k = choose|k: int|
                            0 <= k < fs.len() && #[trigger] hit_version(names, fs[k], fi) is Some
                                && Some(effective_version(cv, hit_version(names, fs[k], fi)->0))
                                == cv;
                        assert(hit_version(names, fs2[k], fi) is Some);
                    }
                }
                let m = f.remote_presence;
                assert(add_server(m, a.insert(x), s) =~= add_server(add_server(m, a, s), set![x], s))
                    by {
                    assert forall|y: Seq<char>| #[trigger]
                        add_server(m, a.insert(x), s).contains_key(y) implies add_server(
                        m,
                        a.insert(x),
                        s,
                    )[y] == add_server(add_server(m, a, s), set![x], s)[y] by {
                        if y == x && a.contains(x) {
                            if m.contains_key(x) {
                                assert(m[x].insert(s).insert(s) =~= m[x].insert(s));
                            } else {
                                assert(set![s].insert(s) =~= set![s]);
                            }
                        }
                    }
                }
                assert(f.stale_versions.union(a.insert(x)) =~= f.stale_versions.union(a).insert(x));
                assert(scanned(f, names, fs2, fi, s) =~= hit_view(g, s, v));
            }
        },
        None => {
            assert(a2 =~= a) by {
                assert forall|y: Seq<char>| a2.contains(y) implies a.contains(y) by {
                    let k = choose|k: int|
                        0 <= k < fs2.len() && #[trigger] hit_version(names, fs2[k], fi) is Some
                            && y == effective_version(cv, hit_version(names, fs2[k], fi)->0)
                            && Some(y) != cv;
                    assert(k < fs.len());
                    assert(hit_version(names, fs[k], fi) is Some);
                }
                assert forall|y: Seq<char>| a.contains(y) implies a2.contains(y) by {
                    let k = choose|k: int|
                        0 <= k < fs.len() && #[trigger] hit_version(names, fs[k], fi) is Some
                            && y == effective_version(cv, hit_version(names, fs[k], fi)->0)
                            && Some(y) != cv;
                    assert(hit_version(names, fs2[k], fi) is Some);
                }
            }
            assert(hits_current(names, fs2, fi, cv) == hits_current(names, fs, fi, cv)) by {
                if hits_current(names, fs2, fi, cv) {
                    let k = choose|k: int|
                        0 <= k < fs2.len() && #[trigger] hit_version(names, fs2[k], fi) is Some
                            && Some(effective_version(cv, hit_version(names, fs2[k], fi)->0))
                            == cv;
                    assert(k < fs.len());
                    assert(hit_version(names, fs[k], fi) is Some);
                }
                if hits_current(names, fs, fi, cv) {
                    let k = choose|k: int|
                        0 <= k < fs.len() && #[trigger] hit_version(names, fs[k], fi) is Some
                            && Some(effective_version(cv, hit_version(names, fs[k], fi)->0))
                            == cv;
                    assert(hit_version(names, fs2[k], fi) is Some);
                }
            }
            assert(scanned(f, names, fs2, fi, s) =~= g);
        },
    }
}

proof fn lemma_unmatched_step(names: Seq<Seq<char>>, fs: Seq<Seq<char>>, raw: Seq<char>)
    ensures
        unmatched(names, fs.push(raw)) == (match tar_file(raw) {
            Some(f) => if family_match(names, tar_stem(f)) is None {
                unmatched(names, fs).insert(f)
            } else {
                unmatched(names, fs)
            },
            None => unmatched(names, fs),
        }),
{
    let fs2 = fs.push(raw);
    let u = unmatched(names, fs);
    let u2 = unmatched(names, fs2);
    assert(forall|k: int| 0 <= k < fs.len() ==> fs2[k] == fs[k]);
    assert(fs2[fs.len() as int] == raw);
    assert forall|f: Seq<char>| u.contains(f) implies u2.contains(f) by {
        let k = choose|k: int|
            0 <= k < fs.len() && #[trigger] tar_file(fs[k]) == Some(f) && family_match(
                names,
                tar_stem(f),
            ) is None;
        assert(tar_file(fs2[k]) == Some(f));
    }
    assert forall|f: Seq<char>| u2.contains(f) && f != tar_file(raw)->0 implies u.contains(f) by {
        let k = choose|k: int|
            0 <= k < fs2.len() && #[trigger] tar_file(fs2[k]) == Some(f) && family_match(
                names,
                tar_stem(f),
            ) is None;
        if k == fs.len() {
            assert(tar_file(raw) == Some(f));
        } else {
            assert(tar_file(fs[k]) == Some(f));
        }
    }
    match tar_file(raw) {
        Some(f) => {
            if family_match(names, tar_stem(f)) is None {
                assert(u2.contains(f)) by {
                    assert(tar_file(fs2[fs.len() as int]) == Some(f));
                }
                assert(u2 =~= u.insert(f));
            } else {
                assert(!u2.contains(f) ==> true);
                assert forall|g: Seq<char>| u2.contains(g) implies u.contains(g) by {
                    if g == f {
                        let k = choose|k: int|
                            0 <= k < fs2.len() && #[trigger] tar_file(fs2[k]) == Some(g)
                                && family_match(names, tar_stem(g)) is None;
                    }
                }
                assert(u2 =~= u);
            }
        },
        None => {
            assert forall|g: Seq<char>| u2.contains(g) implies u.contains(g) by {
                let k = choose|k: int|
                    0 <= k < fs2.len() && #[trigger] tar_file(fs2[k]) == Some(g) && family_match(
                        names,
                        tar_stem(g),
                    ) is None;
                if k == fs.len() {
                    assert(tar_file(raw) == Some(g));
                } else {
                    assert(tar_file(fs[k]) == Some(g));
                }
            }
            assert(u2 =~= u);
        },
    }
}

pub(crate) fn placeholder_family() -> (r: ImageFamily)
    ensures
        r.wf(),
{
    let rp: NameMap<NameSet> = NameMap::new();
    assert(rp.vals.len() == 0);
    ImageFamily {
        name: String::new(),
        current_version: None,
        current: None,
        stale_versions: NameSet::new(),
        remote_presence: rp,
    }
}

/// Where `tar_file` and `tar_stem` land for one listed filename.
fn split_tar(raw: &str) -> (r: Option<(String, String)>)
    ensures
        match r {
            Some((f, stem)) => tar_file(raw@) == Some(f@) && stem@ == tar_stem(f@),
            None => tar_file(raw@) is None,
        },
{
    let f = trim(raw);
    let ext = ".tar";
    proof {
        reveal_strlit(".tar");
    }
    assert(ext@ =~= tar_suffix());
    if !ends_with(f, ext) {
        return None;
    }
    let n = f.unicode_len();
    let stem = f.substring_char(0, n - 4);
    assert(stem@ =~= tar_stem(f@));
    Some((f.to_owned(), stem.to_owned()))
}

/// Index of the first unknown tarball named `name`.
fn find_unknown(us: &Vec<UnknownTarball>, name: &str) -> (r: Option<usize>)
    ensures
        match r {
            Some(i) => i < us.len() && us@[i as int].filename@ == name@ && forall|j: int|
                0 <= j < i ==> (#[trigger] us@[j]).filename@ != name@,
            None => forall|j: int| 0 <= j < us.len() ==> (#[trigger] us@[j]).filename@ != name@,
        },
{
    let mut i: usize = 0;
    while i < us.len()
        invariant
            i <= us.len(),
            forall|j: int| 0 <= j < i ==> (#[trigger] us@[j]).filename@ != name@,
        decreases us.len() - i,
    {
        if str_eq(us[i].filename.as_str(), name) {
            return Some(i);
        }
        i = i + 1;
    }
    None
}

/// The inventory after folding in a server's listing (see
/// `apply_scan_results`): families and unknown tarballs before and after.
pub open spec fn scan_folded(
    fams0: NameMap<ImageFamily>,
    fams1: NameMap<ImageFamily>,
    us0: Seq<UnknownTarball>,
    us1: Seq<UnknownTarball>,
    server: Seq<char>,
    files: Seq<Seq<char>>,
) -> bool {
    &&& families_wf(fams1)
    &&& fams1.keys == fams0.keys
    &&& forall|fi: int|
        0 <= fi < fams0.vals.len() ==> (#[trigger] fams1.vals@[fi])@ == completed(
            scanned(fams0.vals@[fi]@, fams0.key_seq(), files, fi, server),
            server,
        )
    &&& unknowns_wf(us1)
    &&& us1.len() >= us0.len()
    &&& forall|i: int|
        0 <= i < us0.len() ==> {
            &&& (#[trigger] us1[i]).filename@ == us0[i].filename@
            &&& us1[i].servers@ == if unmatched(fams0.key_seq(), files).contains(us0[i].filename@)
                && first_with_name(us0, i) {
                us0[i].servers@.insert(server)
            } else {
                us0[i].servers@
            }
        }
    &&& strictly_sorted(unknown_names(us1).skip(us0.len() as int))
    &&& unknown_names(us1).skip(us0.len() as int).to_set() == unmatched(fams0.key_seq(), files).filter(
        |f: Seq<char>| !unknown_names(us0).contains(f),
    )
    &&& forall|i: int| us0.len() <= i < us1.len() ==> (#[trigger] us1[i]).servers@ == set![server]
}

/// Folds one server's directory listing into the inventory.
///
/// Each listed name is trimmed; names not ending in `.tar` are ignored. A
/// tarball whose stem matches a family (see `family_match`) marks the
/// family's current image present on the server when it is the current
/// version, and otherwise records a stale version held by the server.
/// Tarballs matching no family are added, per filename, to `unknowns` (an
/// existing entry gains the server; new ones are appended in name order).
/// Finally every current image gets a presence entry for the server, `false`
/// where none was recorded.
#[verifier::spinoff_prover]
pub fn apply_scan_results(
    families: &mut NameMap<ImageFamily>,
    unknowns: &mut Vec<UnknownTarball>,
    server_name: &str,
    filenames: &[String],
)
    requires
        families_wf(*old(families)),
        unknowns_wf(old(unknowns)@),
    ensures
        families_wf(*final(families)),
        final(families).keys == old(families).keys,
        forall|fi: int|
            0 <= fi < old(families).vals.len() ==> (#[trigger] final(families).vals@[fi])@
                == completed(
                scanned(
                    old(families).vals@[fi]@,
                    old(families).key_seq(),
                    view_names(filenames@),
                    fi,
                    server_name@,
                ),
                server_name@,
            ),
        unknowns_wf(final(unknowns)@),
        final(unknowns).len() >= old(unknowns).len(),
        forall|i: int|
            0 <= i < old(unknowns).len() ==> {
                &&& (#[trigger] final(unknowns)@[i]).filename@ == old(unknowns)@[i].filename@
                &&& final(unknowns)@[i].servers@ == if unmatched(
                    old(families).key_seq(),
                    view_names(filenames@),
                ).contains(old(unknowns)@[i].filename@) && first_with_name(old(unknowns)@, i) {
                    old(unknowns)@[i].servers@.insert(server_name@)
                } else {
                    old(unknowns)@[i].servers@
                }
            },
        strictly_sorted(unknown_names(final(unknowns)@).skip(old(unknowns).len() as int)),
        unknown_names(final(unknowns)@).skip(old(unknowns).len() as int).to_set() == unmatched(
            old(families).key_seq(),
            view_names(filenames@),
        ).filter(|f: Seq<char>| !unknown_names(old(unknowns)@).contains(f)),
        forall|i: int|
            old(unknowns).len() <= i < final(unknowns).len() ==> (#[trigger] final(unknowns)@[i]).servers@ == set![server_name@],
        scan_folded(
            *old(families),
            *final(families),
            old(unknowns)@,
            final(unknowns)@,
            server_name@,
            view_names(filenames@),
        ),
{
    let ghost names = families.key_seq();
    let ghost old_vals = families.vals@;
    let ghost fs = view_names(filenames@);
    let ghost s = server_name@;
    let family_names = crate::models::clone_strings(&families.keys);
    let mut unknown_map: NameMap<NameSet> = NameMap::new();
    proof {
        assert(unknown_map.vals@.len() == 0);
        assert(version_servers_wf(unknown_map));
        assert forall|fi: int| 0 <= fi < old_vals.len() implies (#[trigger] families.vals@[fi])@
            == scanned(old_vals[fi]@, names, fs.take(0), fi, s) by {
            assert(fs.take(0) =~= Seq::<Seq<char>>::empty());
            lemma_scanned_empty(old_vals[fi]@, names, fi, s);
        }
        assert(unknown_map@.dom() =~= unmatched(names, fs.take(0)));
    }
    let mut k: usize = 0;
    while k < filenames.len()
        invariant
            k <= filenames.len(),
            fs == view_names(filenames@),
            s == server_name@,
            names == view_names(family_names@),
            families_wf(*families),
            families.key_seq() == names,
            families.keys == old(families).keys,
            families.vals.len() == old_vals.len(),
            forall|fi: int|
                0 <= fi < old_vals.len() ==> (#[trigger] families.vals@[fi])@ == scanned(
                    old_vals[fi]@,
                    names,
                    fs.take(k as int),
                    fi,
                    s,
                ),
            version_servers_wf(unknown_map),
            unknown_map@.dom() == unmatched(names, fs.take(k as int)),
            forall|x: Seq<char>| #[trigger]
                unknown_map@.contains_key(x) ==> unknown_map@[x]@ == set![s],
        decreases filenames.len() - k,
    {
        let ghost prev = families.vals@;
        proof {
            assert(fs.take(k + 1) =~= fs.take(k as int).push(fs[k as int]));
            lemma_unmatched_step(names, fs.take(k as int), fs[k as int]);
            assert(fs[k as int] == filenames@[k as int]@);
        }
        match split_tar(filenames[k].as_str()) {
            None => {
                proof {
                    assert forall|fi: int| 0 <= fi < old_vals.len() implies (
                    #[trigger] families.vals@[fi])@ == scanned(
                        old_vals[fi]@,
                        names,
                        fs.take(k + 1),
                        fi,
                        s,
                    ) by {
                        lemma_scanned_step(old_vals[fi]@, names, fs.take(k as int), fs[k as int], fi, s);
                    }
                }
            },
            Some((f, stem)) => {
                match match_tarball(&family_names, stem.as_str()) {
                    Some((fi, v)) => {
                        proof {
                            families.lemma_entry(fi as int);
                        }
                        let mut fam = families.replace_at(fi, placeholder_family());
                        record_hit(&mut fam, server_name, v.as_str());
                        families.replace_at(fi, fam);
                        proof {
                            assert forall|j: int| 0 <= j < old_vals.len() implies (
                            #[trigger] families.vals@[j])@ == scanned(
                                old_vals[j]@,
                                names,
                                fs.take(k + 1),
                                j,
                                s,
                            ) by {
                                lemma_scanned_step(old_vals[j]@, names, fs.take(k as int), fs[k as int], j, s);
                                if j != fi {
                                    assert(families.vals@[j] == prev[j]);
                                }
                            }
                            assert forall|j: int| 0 <= j < families.vals.len() implies (
                            #[trigger] families.vals@[j]).wf() by {
                                if j != fi {
                                    assert(families.vals@[j] == prev[j]);
                                }
                            }
                        }
                    },
                    None => {
                        proof {
                            assert forall|j: int| 0 <= j < old_vals.len() implies (
                            #[trigger] families.vals@[j])@ == scanned(
                                old_vals[j]@,
                                names,
                                fs.take(k + 1),
                                j,
                                s,
                            ) by {
                                lemma_scanned_step(old_vals[j]@, names, fs.take(k as int), fs[k as int], j, s);
                            }
                        }
                        let ghost um = unknown_map;
                        match unknown_map.find(f.as_str()) {
                            Some(idx) => {
                                proof {
                                    um.lemma_entry(idx as int);
                                }
                                let mut set = unknown_map.replace_at(idx, NameSet::new());
                                set.insert(server_name.to_owned());
                                unknown_map.replace_at(idx, set);
                                proof {
                                    assert(set@ =~= set![s]);
                                    assert(unknown_map@.dom() =~= um@.dom());
                                    assert forall|j: int| 0 <= j < unknown_map.vals.len() implies (
                                    #[trigger] unknown_map.vals@[j]).wf() by {
                                        if j != idx {
                                            assert(unknown_map.vals@[j] == um.vals@[j]);
                                        }
                                    }
                                }
                            },
                            None => {
                                unknown_map.insert(f, NameSet::singleton(server_name.to_owned()));
                                proof {
                                    assert forall|j: int| 0 <= j < unknown_map.vals.len() implies (
                                    #[trigger] unknown_map.vals@[j]).wf() by {
                                        let key = unknown_map.key_seq()[j];
                                        unknown_map.lemma_entry(j);
                                        if key != f@ {
                                            let jj = um.lemma_key_index(key);
                                        }
                                    }
                                }
                            },
                        }
                    },
                }
            },
        }
        k = k + 1;
    }
    assert(fs.take(filenames.len() as int) =~= fs);
    let ghost scanned_vals = families.vals@;
    let ghost old_us = unknowns@;
    let ghost um_final = unknown_map;
    let ghost uset = unmatched(names, fs);
    let ghost on = unknown_names(old_us);
    // Merge the unmatched tarballs into the unknown list, in name order.
    let mut j: usize = 0;
    while j < unknown_map.keys.len()
        invariant
            j <= unknown_map.keys.len(),
            unknown_map == um_final,
            version_servers_wf(unknown_map),
            unknown_map@.dom() == uset,
            forall|x: Seq<char>| #[trigger]
                unknown_map@.contains_key(x) ==> unknown_map@[x]@ == set![s],
            s == server_name@,
            on == unknown_names(old_us),
            unknowns_wf(unknowns@),
            unknowns.len() >= old_us.len(),
            forall|i: int|
                0 <= i < old_us.len() ==> {
                    &&& (#[trigger] unknowns@[i]).filename@ == old_us[i].filename@
                    &&& unknowns@[i].servers@ == if unknown_map.key_seq().take(j as int).contains(
                        old_us[i].filename@,
                    ) && first_with_name(old_us, i) {
                        old_us[i].servers@.insert(s)
                    } else {
                        old_us[i].servers@
                    }
                },
            strictly_sorted(unknown_names(unknowns@).skip(old_us.len() as int)),
            unknown_names(unknowns@).skip(old_us.len() as int).to_set() == unknown_map.key_seq().take(
                j as int,
            ).to_set().filter(|f: Seq<char>| !on.contains(f)),
            forall|i: int|
                old_us.len() <= i < unknowns.len() ==> (#[trigger] unknowns@[i]).servers@
                    == set![s],
        decreases unknown_map.keys.len() - j,
    {
        let ghost keys = unknown_map.key_seq();
        let ghost before = unknowns@;
        let ghost fname = keys[j as int];
        proof {
            unknown_map.lemma_entry(j as int);
            assert(keys.take(j + 1) =~= keys.take(j as int).push(fname));
            assert(!keys.take(j as int).contains(fname)) by {
                if keys.take(j as int).contains(fname) {
                    let t = choose|t: int| 0 <= t < j && #[trigger] keys.take(j as int)[t] == fname;
                    lemma_sorted_distinct(keys, t, j as int);
                }
            }
        }
        match find_unknown(&unknowns, unknown_map.keys[j].as_str()) {
            Some(idx) => {
                proof {
                    if idx >= old_us.len() {
                        let a = unknown_names(before).skip(old_us.len() as int);
                        assert(a[idx - old_us.len()] == fname);
                        assert(a.to_set().contains(fname));
                    }
                    assert(first_with_name(old_us, idx as int)) by {
                        assert forall|t: int| 0 <= t < idx implies (#[trigger] old_us[t]).filename@
                            != old_us[idx as int].filename@ by {
                            assert(before[t].filename@ == old_us[t].filename@);
                        }
                    }
                }
                let mut u = UnknownTarball { filename: String::new(), servers: NameSet::new() };
                unknowns.set_and_swap(idx, &mut u);
                u.servers.extend_from(&unknown_map.vals[j]);
                unknowns.set_and_swap(idx, &mut u);
                proof {
                    assert(unknowns@ == before.update(idx as int, unknowns@[idx as int]));
                    assert(unknown_names(unknowns@) =~= unknown_names(before));
                    assert forall|i: int| 0 <= i < old_us.len() implies {
                        &&& (#[trigger] unknowns@[i]).filename@ == old_us[i].filename@
                        &&& unknowns@[i].servers@ == if keys.take(j + 1).contains(
                            old_us[i].filename@,
                        ) && first_with_name(old_us, i) {
                            old_us[i].servers@.insert(s)
                        } else {
                            old_us[i].servers@
                        }
                    } by {
                        if i != idx {
                            assert(unknowns@[i] == before[i]);
                            if old_us[i].filename@ == fname && first_with_name(old_us, i) {
                                if i < idx {
                                    assert(before[i].filename@ == old_us[i].filename@);
                                } else {
                                    assert(old_us[idx as int].filename@ == fname);
                                }
                            }
                            if keys.take(j + 1).contains(old_us[i].filename@) {
                                if old_us[i].filename@ != fname {
                                    let t = choose|t: int| 0 <= t < j + 1 && #[trigger] keys.take(j + 1)[t]
                                        == old_us[i].filename@;
                                    assert(keys.take(j as int)[t] == old_us[i].filename@);
                                }
                            }
                        } else {
                            assert(keys.take(j + 1)[j as int] == fname);
                            assert(unknown_map@[fname]@ == set![s]);
                        }
                    }
                    assert(unknown_names(unknowns@).skip(old_us.len() as int) =~= unknown_names(
                        before,
                    ).skip(old_us.len() as int));
                    assert(on.contains(fname)) by {
                        assert(on[idx as int] == fname);
                    }
                    assert(keys.take(j + 1).to_set().filter(|f: Seq<char>| !on.contains(f))
                        =~= keys.take(j as int).to_set().filter(|f: Seq<char>| !on.contains(f)));
                    assert forall|i: int| 0 <= i < unknowns.len() implies (
                    #[trigger] unknowns@[i]).wf() by {
                        if i != idx {
                            assert(unknowns@[i] == before[i]);
                        }
                    }
                    assert forall|i: int| old_us.len() <= i < unknowns.len() implies (
                    #[trigger] unknowns@[i]).servers@ == set![s] by {
                        assert(i != idx);
                        assert(unknowns@[i] == before[i]);
                    }
                }
            },
            None => {
                let u = UnknownTarball {
                    filename: unknown_map.keys[j].clone(),
                    servers: unknown_map.vals[j].clone(),
                };
                unknowns.push(u);
                proof {
                    assert(!on.contains(fname)) by {
                        if on.contains(fname) {
                            let t = choose|t: int| 0 <= t < on.len() && on[t] == fname;
                            assert(before[t].filename@ == fname);
                        }
                    }
                    let a = unknown_names(before).skip(old_us.len() as int);
                    let a2 = unknown_names(unknowns@).skip(old_us.len() as int);
                    assert(a2 =~= a.push(fname));
                    assert forall|t: int| 0 <= t < a.len() implies seq_lt(#[trigger] a[t], fname) by {
                        assert(a.to_set().contains(a[t]));
                        assert(keys.take(j as int).contains(a[t]));
                        let w = choose|w: int| 0 <= w < j && #[trigger] keys.take(j as int)[w] == a[t];
                        assert(keys[w] == a[t]);
                    }
                    assert(strictly_sorted(a2)) by {
                        assert forall|x: int, y: int| 0 <= x < y < a2.len() implies seq_lt(
                            #[trigger] a2[x],
                            #[trigger] a2[y],
                        ) by {
                            if y < a.len() {
                                assert(a2[x] == a[x] && a2[y] == a[y]);
                            } else {
                                assert(a2[x] == a[x]);
                            }
                        }
                    }
                    crate::names::lemma_push_to_set(a, fname);
                    crate::names::lemma_push_to_set(keys.take(j as int), fname);
                    assert(keys.take(j + 1).to_set() =~= keys.take(j as int).to_set().insert(fname));
                    assert(a2.to_set() =~= keys.take(j + 1).to_set().filter(
                        |f: Seq<char>| !on.contains(f),
                    ));
                    assert forall|i: int| 0 <= i < old_us.len() implies {
                        &&& (#[trigger] unknowns@[i]).filename@ == old_us[i].filename@
                        &&& unknowns@[i].servers@ == if keys.take(j + 1).contains(
                            old_us[i].filename@,
                        ) && first_with_name(old_us, i) {
                            old_us[i].servers@.insert(s)
                        } else {
                            old_us[i].servers@
                        }
                    } by {
                        assert(unknowns@[i] == before[i]);
                        if keys.take(j + 1).contains(old_us[i].filename@) {
                            if old_us[i].filename@ == fname {
                                assert(on[i] == fname);
                            } else {
                                let t = choose|t: int| 0 <= t < j + 1 && #[trigger] keys.take(j + 1)[t]
                                    == old_us[i].filename@;
                                assert(keys.take(j as int)[t] == old_us[i].filename@);
                            }
                        }
                    }
                    assert forall|i: int| 0 <= i < unknowns.len() implies (
                    #[trigger] unknowns@[i]).wf() by {
                        if i < before.len() {
                            assert(unknowns@[i] == before[i]);
                        }
                    }
                    assert forall|i: int| old_us.len() <= i < unknowns.len() implies (
                    #[trigger] unknowns@[i]).servers@ == set![s] by {
                        if i < before.len() {
                            assert(unknowns@[i] == before[i]);
                        } else {
                            assert(unknown_map@[fname]@ == set![s]);
                        }
                    }
                }
            },
        }
        j = j + 1;
    }
    proof {
        let keys = unknown_map.key_seq();
        assert(keys.take(keys.len() as int) =~= keys);
        assert(keys.to_set() =~= uset) by {
            assert forall|x: Seq<char>| keys.to_set().contains(x) <==> uset.contains(x) by {
                if keys.contains(x) {
                    let t = choose|t: int| 0 <= t < keys.len() && keys[t] == x;
                    unknown_map.lemma_entry(t);
                }
                if uset.contains(x) {
                    let t = unknown_map.lemma_key_index(x);
                }
            }
        }
    }
    // Every current image now has an entry for this server.
    let mut fi: usize = 0;
    while fi < families.vals.len()
        invariant
            fi <= families.vals.len(),
            families_wf(*families),
            families.keys == old(families).keys,
            families.vals.len() == scanned_vals.len(),
            s == server_name@,
            forall|j: int|
                0 <= j < fi ==> (#[trigger] families.vals@[j])@ == completed(scanned_vals[j]@, s),
            forall|j: int| fi <= j < families.vals.len() ==> #[trigger] families.vals@[j] == scanned_vals[j],
        decreases families.vals.len() - fi,
    {
        let ghost prev = families.vals@;
        let needs = match &families.vals[fi].current {
            Some(cur) => !cur.server_presence.contains_key(server_name),
            None => false,
        };
        if needs {
            proof {
                families.lemma_entry(fi as int);
            }
            let mut fam = families.replace_at(fi, placeholder_family());
            let ghost g = fam@;
            match &mut fam.current {
                Some(cur) => {
                    cur.server_presence.insert(server_name.to_owned(), false);
                },
                None => {},
            }
            assert(fam@ =~= with_presence(g, s, false));
            families.replace_at(fi, fam);
            proof {
                assert forall|j: int| 0 <= j < families.vals.len() implies (
                #[trigger] families.vals@[j]).wf() by {
                    if j != fi {
                        assert(families.vals@[j] == prev[j]);
                    }
                }
            }
        }
        fi = fi + 1;
    }
}

// ---------------------------------------------------------------------------
// Scanning the same listing twice
// ---------------------------------------------------------------------------

/// Recording the same held versions for the same server twice records them once.
proof fn lemma_add_server_twice(m: Map<Seq<char>, Set<Seq<char>>>, found: Set<Seq<char>>, s: Seq<char>)
    ensures
        add_server(add_server(m, found, s), found, s) == add_server(m, found, s),
{
    let m1 = add_server(m, found, s);
    assert forall|x: Seq<char>| #[trigger] found.contains(x) implies m1[x].insert(s) == m1[x] by {
        assert(m1[x].contains(s));
        assert(m1[x].insert(s) =~= m1[x]);
    }
    assert(add_server(m1, found, s) =~= m1);
}

/// A family that already took in server `s`'s listing `fs` is unchanged by
/// taking it in again.
proof fn lemma_family_rescan(
    f: ImageFamilyV,
    names: Seq<Seq<char>>,
    fs: Seq<Seq<char>>,
    fi: int,
    s: Seq<char>,
)
    ensures
        ({
            let f1 = completed(scanned(f, names, fs, fi, s), s);
            completed(scanned(f1, names, fs, fi, s), s) == f1
        }),
{
    let found = stale_found(names, fs, fi, f.current_version);
    let f1 = completed(scanned(f, names, fs, fi, s), s);
    assert(f1.current_version == f.current_version);
    assert(stale_found(names, fs, fi, f1.current_version) == found);
    lemma_add_server_twice(f.remote_presence, found, s);
    assert(f1.stale_versions.union(found) =~= f1.stale_versions);
    let present = if hits_current(names, fs, fi, f1.current_version) {
        with_presence(f1, s, true)
    } else {
        f1
    };
    match f1.current {
        Some(c) => {
            assert(c.server_presence.contains_key(s));
            if hits_current(names, fs, fi, f.current_version) {
                assert(c.server_presence[s]);
                assert(c.server_presence.insert(s, true) =~= c.server_presence);
                assert(present == f1);
            }
        },
        None => {},
    }
    assert(present == f1);
    assert(scanned(f1, names, fs, fi, s) == f1);
}

/// `g` only adds to `f` for server `s`: names, version and current image
/// are kept; the current image has an entry for `s`, entries that were true
/// stay true and other servers' entries are unchanged; stale versions and
/// their holders only grow; and the current version does not become stale.
pub open spec fn family_grew(f: ImageFamilyV, g: ImageFamilyV, s: Seq<char>) -> bool {
    &&& g.name == f.name
    &&& g.current_version == f.current_version
    &&& (g.current is Some) == (f.current is Some)
    &&& f.current is Some ==> {
        let p0 = f.current->0.server_presence;
        let p1 = g.current->0.server_presence;
        &&& g.current->0 == (ManagedImageV { server_presence: p1, ..f.current->0 })
        &&& p1.contains_key(s)
        &&& forall|k: Seq<char>| p0.contains_key(k) && p0[k] ==> #[trigger] p1.contains_key(k) && p1[k]
        &&& forall|k: Seq<char>|
            k != s ==> (#[trigger] p1.contains_key(k) == p0.contains_key(k)) && (p0.contains_key(k) ==> p1[k]
                == p0[k])
    }
    &&& f.stale_versions.subset_of(g.stale_versions)
    &&& forall|v: Seq<char>| #[trigger]
        f.remote_presence.contains_key(v) ==> g.remote_presence.contains_key(v)
            && f.remote_presence[v].subset_of(g.remote_presence[v])
    &&& forall|c: Seq<char>|
        f.current_version == Some(c) && !f.stale_versions.contains(c) ==> !#[trigger] g.stale_versions.contains(c)
}

/// Taking in a listing of server `s` only adds to a family (see
/// `family_grew`).
pub proof fn lemma_family_scan_grows(
    f: ImageFamilyV,
    names: Seq<Seq<char>>,
    fs: Seq<Seq<char>>,
    fi: int,
    s: Seq<char>,
)
    ensures
        family_grew(f, completed(scanned(f, names, fs, fi, s), s), s),
{
    if f.current is Some {
        lemma_scan_records_server(f, names, fs, fi, s);
    }
    let found = stale_found(names, fs, fi, f.current_version);
    let g = completed(scanned(f, names, fs, fi, s), s);
    assert forall|v: Seq<char>| #[trigger] f.remote_presence.contains_key(v) implies g.remote_presence.contains_key(v)
        && f.remote_presence[v].subset_of(g.remote_presence[v]) by {
        if found.contains(v) {
            assert(f.remote_presence[v].subset_of(f.remote_presence[v].insert(s)));
        }
    }
}

/// Taking in a listing (`apply_scan_results`, whose effect `scan_folded`
/// describes) only adds: family names are kept, each family only grows (see
/// `family_grew`), and every unknown tarball is kept, in its place, with at
/// least the servers it had.
pub proof fn lemma_scan_only_adds(
    fams0: NameMap<ImageFamily>,
    fams1: NameMap<ImageFamily>,
    us0: Seq<UnknownTarball>,
    us1: Seq<UnknownTarball>,
    server: Seq<char>,
    files: Seq<Seq<char>>,
)
    requires
        families_wf(fams0),
        scan_folded(fams0, fams1, us0, us1, server, files),
    ensures
        fams1.keys == fams0.keys,
        fams1.vals.len() == fams0.vals.len(),
        forall|fi: int|
            0 <= fi < fams0.vals.len() ==> family_grew(fams0.vals@[fi]@, (#[trigger] fams1.vals@[fi])@, server),
        us1.len() >= us0.len(),
        forall|i: int|
            0 <= i < us0.len() ==> (#[trigger] us1[i]).filename@ == us0[i].filename@
                && us0[i].servers@.subset_of(us1[i].servers@),
{
    assert forall|fi: int| 0 <= fi < fams0.vals.len() implies family_grew(
        fams0.vals@[fi]@,
        (#[trigger] fams1.vals@[fi])@,
        server,
    ) by {
        lemma_family_scan_grows(fams0.vals@[fi]@, fams0.key_seq(), files, fi, server);
    }
    assert forall|i: int| 0 <= i < us0.len() implies (#[trigger] us1[i]).filename@ == us0[i].filename@
        && us0[i].servers@.subset_of(us1[i].servers@) by {
        assert(us0[i].servers@.subset_of(us0[i].servers@.insert(server)));
    }
}

/// A sequence whose elements form the empty set is empty.
proof fn lemma_empty_to_set(q: Seq<Seq<char>>)
    requires
        q.to_set() == Set::<Seq<char>>::empty(),
    ensures
        q.len() == 0,
{
    if q.len() > 0 {
        assert(q.to_set().contains(q[0]));
    }
}

/// Taking in the same server's listing a second time (`apply_scan_results`,
/// whose effect `scan_folded` describes) changes nothing: every family and
/// every unknown tarball (name and holders) stays as the first time left it,
/// and no unknown tarball is added.
pub proof fn lemma_rescan_changes_nothing(
    fams0: NameMap<ImageFamily>,
    fams1: NameMap<ImageFamily>,
    fams2: NameMap<ImageFamily>,
    us0: Seq<UnknownTarball>,
    us1: Seq<UnknownTarball>,
    us2: Seq<UnknownTarball>,
    server: Seq<char>,
    files: Seq<Seq<char>>,
)
    requires
        families_wf(fams0),
        scan_folded(fams0, fams1, us0, us1, server, files),
        scan_folded(fams1, fams2, us1, us2, server, files),
    ensures
        fams2.keys == fams1.keys,
        fams2.vals.len() == fams1.vals.len(),
        forall|fi: int| 0 <= fi < fams1.vals.len() ==> (#[trigger] fams2.vals@[fi])@ == fams1.vals@[fi]@,
        us2.len() == us1.len(),
        forall|i: int|
            0 <= i < us1.len() ==> (#[trigger] us2[i]).filename@ == us1[i].filename@
                && us2[i].servers@ == us1[i].servers@,
{
    let names = fams0.key_seq();
    assert(fams1.key_seq() == names);
    assert forall|fi: int| 0 <= fi < fams1.vals.len() implies (#[trigger] fams2.vals@[fi])@
        == fams1.vals@[fi]@ by {
        lemma_family_rescan(fams0.vals@[fi]@, names, files, fi, server);
    }
    let um = unmatched(names, files);
    // every unmatched name is already listed after the first scan
    assert forall|x: Seq<char>| um.contains(x) implies #[trigger] unknown_names(us1).contains(x) by {
        if unknown_names(us0).contains(x) {
            let j = choose|j: int| 0 <= j < us0.len() && unknown_names(us0)[j] == x;
            assert(unknown_names(us1)[j] == x);
        } else {
            let tail = unknown_names(us1).skip(us0.len() as int);
            assert(um.filter(|f: Seq<char>| !unknown_names(us0).contains(f)).contains(x));
            assert(tail.to_set().contains(x));
            let j = choose|j: int| 0 <= j < tail.len() && tail[j] == x;
            assert(unknown_names(us1)[us0.len() + j] == x);
        }
    }
    assert(um.filter(|f: Seq<char>| !unknown_names(us1).contains(f)) =~= Set::empty());
    lemma_empty_to_set(unknown_names(us2).skip(us1.len() as int));
    assert forall|i: int| 0 <= i < us1.len() implies (#[trigger] us2[i]).servers@
        == us1[i].servers@ by {
        if um.contains(us1[i].filename@) && first_with_name(us1, i) {
            if i < us0.len() {
                assert forall|j: int| 0 <= j < i implies (#[trigger] us0[j]).filename@
                    != us0[i].filename@ by {
                    assert(us1[j].filename@ != us1[i].filename@);
                }
                assert(us1[i].servers@ == us0[i].servers@.insert(server));
            }
            assert(us1[i].servers@.contains(server));
            assert(us1[i].servers@.insert(server) =~= us1[i].servers@);
        }
    }
}


// ---------------------------------------------------------------------------
// Local staging tarballs
// ---------------------------------------------------------------------------

/// Tarball names of the current images of `fams`, in order.
pub open spec fn current_tarballs(fams: Seq<ImageFamily>) -> Seq<Seq<char>>
    decreases fams.len(),
{
    if fams.len() == 0 {
        Seq::empty()
    } else {
        let rest = current_tarballs(fams.drop_last());
        match fams.last().current {
            Some(c) => rest.push(tarball_name(c.name@, c.version@)),
            None => rest,
        }
    }
}

/// The staging-directory tarball names the current images would be saved
/// under, one per family with a current image, in family order.
pub fn local_tarball_names(families: &NameMap<ImageFamily>) -> (r: Vec<String>)
    ensures
        view_names(r@) == current_tarballs(families.vals@),
{
    let mut r: Vec<String> = Vec::new();
    let mut i: usize = 0;
    while i < families.vals.len()
        invariant
            i <= families.vals.len(),
            view_names(r@) == current_tarballs(families.vals@.take(i as int)),
        decreases families.vals.len() - i,
    {
        proof {
            assert(families.vals@.take(i + 1).drop_last() =~= families.vals@.take(i as int));
        }
        match &families.vals[i].current {
            Some(cur) => {
                let t = tarball_filename(cur.name.as_str(), cur.version.as_str());
                let ghost before = r@;
                r.push(t);
                assert(view_names(r@) =~= view_names(before).push(t@));
            },
            None => {},
        }
        i = i + 1;
    }
    assert(families.vals@.take(families.vals.len() as int) =~= families.vals@);
    r
}

/// Marks each current image by whether its tarball is among `staging_files`,
/// the names found in the staging directory.
pub fn refresh_local_tarballs(families: &mut NameMap<ImageFamily>, staging_files: &NameSet)
    requires
        families_wf(*old(families)),
    ensures
        families_wf(*final(families)),
        final(families).keys == old(families).keys,
        final(families).vals.len() == old(families).vals.len(),
        forall|fi: int|
            0 <= fi < old(families).vals.len() ==> (#[trigger] final(families).vals@[fi])@ == {
                let f = old(families).vals@[fi]@;
                ImageFamilyV {
                    current: match f.current {
                        Some(c) => Some(
                            ManagedImageV {
                                local_tarball: staging_files@.contains(
                                    tarball_name(c.name, c.version),
                                ),
                                ..c
                            },
                        ),
                        None => None,
                    },
                    ..f
                }
            },
{
    let ghost old_vals = families.vals@;
    let mut fi: usize = 0;
    while fi < families.vals.len()
        invariant
            fi <= families.vals.len(),
            families_wf(*families),
            families.keys == old(families).keys,
            families.vals.len() == old_vals.len(),
            forall|j: int|
                fi <= j < families.vals.len() ==> #[trigger] families.vals@[j] == old_vals[j],
            forall|j: int|
                0 <= j < fi ==> (#[trigger] families.vals@[j])@ == {
                    let f = old_vals[j]@;
                    ImageFamilyV {
                        current: match f.current {
                            Some(c) => Some(
                                ManagedImageV {
                                    local_tarball: staging_files@.contains(
                                        tarball_name(c.name, c.version),
                                    ),
                                    ..c
                                },
                            ),
                            None => None,
                        },
                        ..f
                    }
                },
        decreases families.vals.len() - fi,
    {
        let ghost prev = families.vals@;
        proof {
            families.lemma_entry(fi as int);
        }
        let mut fam = families.replace_at(fi, placeholder_family());
        let ghost g = fam@;
        match &mut fam.current {
            Some(cur) => {
                let t = tarball_filename(cur.name.as_str(), cur.version.as_str());
                cur.local_tarball = staging_files.contains(t.as_str());
            },
            None => {},
        }
        proof {
            assert(fam.wf());
        }
        families.replace_at(fi, fam);
        proof {
            assert forall|j: int| 0 <= j < families.vals.len() implies (
            #[trigger] families.vals@[j]).wf() by {
                if j != fi {
                    assert(families.vals@[j] == prev[j]);
                }
            }
        }
        fi = fi + 1;
    }
}

// ---------------------------------------------------------------------------
// Remote listings and command lines
// ---------------------------------------------------------------------------

/// Outcome of one background remote operation, as reported to the inventory.
pub enum RemoteEvent {
    Scan { server_name: String, filenames: Result<Vec<String>, String> },
    Deploy { server_name: String, success: bool, error: Option<String> },
    Remove { server_name: String, tarball: String, success: bool, error: Option<String> },
}

/// Splits text at every newline (the last piece may be empty).
pub open spec fn split_newlines(s: Seq<char>) -> Seq<Seq<char>>
    decreases s.len(),
{
    if s.len() == 0 {
        seq![Seq::<char>::empty()]
    } else {
        let p = split_newlines(s.drop_last());
        if s.last() == '\n' {
            p.push(Seq::<char>::empty())
        } else {
            p.update(p.len() - 1, p.last().push(s.last()))
        }
    }
}

proof fn lemma_split_nonempty(s: Seq<char>)
    ensures
        split_newlines(s).len() >= 1,
    decreases s.len(),
{
    if s.len() > 0 {
        lemma_split_nonempty(s.drop_last());
    }
}

/// The trimmed pieces that are not empty, in order.
pub open spec fn nonempty_trimmed(pieces: Seq<Seq<char>>) -> Seq<Seq<char>>
    decreases pieces.len(),
{
    if pieces.len() == 0 {
        Seq::empty()
    } else {
        let rest = nonempty_trimmed(pieces.drop_last());
        let t = trim_seq(pieces.last());
        if t.len() > 0 {
            rest.push(t)
        } else {
            rest
        }
    }
}

/// Names in the output of `ls -1`: each line trimmed, blank lines dropped.
pub open spec fn listed_names(stdout: Seq<char>) -> Seq<Seq<char>> {
    nonempty_trimmed(split_newlines(stdout))
}

/// The filenames a remote `ls -1` printed: every line trimmed, blank lines
/// dropped.
pub fn parse_ls_output(stdout: &str) -> (r: Vec<String>)
    ensures
        view_names(r@) == listed_names(stdout@),
{
    let n = stdout.unicode_len();
    let mut done: Vec<String> = Vec::new();
    let mut cur = String::new();
    let mut i: usize = 0;
    proof {
        assert(stdout@.take(0) =~= Seq::<char>::empty());
    }
    while i < n
        invariant
            i <= n,
            n == stdout@.len(),
            split_newlines(stdout@.take(i as int)).len() >= 1,
            view_names(done@) == nonempty_trimmed(split_newlines(stdout@.take(i as int)).drop_last()),
            cur@ == split_newlines(stdout@.take(i as int)).last(),
        decreases n - i,
    {
        let c = stdout.get_char(i);
        let ghost pre = stdout@.take(i as int);
        let ghost nxt = stdout@.take(i + 1);
        proof {
            assert(nxt.drop_last() =~= pre);
            assert(nxt.last() == c);
            lemma_split_nonempty(pre);
        }
        if c == '\n' {
            let t = trim(cur.as_str());
            if t.unicode_len() > 0 {
                done.push(t.to_owned());
            }
            cur = String::new();
            proof {
                let p = split_newlines(pre);
                assert(split_newlines(nxt) == p.push(Seq::<char>::empty()));
                assert(split_newlines(nxt).drop_last() =~= p);
                assert(p =~= p.drop_last().push(p.last()));
            }
        } else {
            push_char(&mut cur, c);
            proof {
                let p = split_newlines(pre);
                assert(split_newlines(nxt) == p.update(p.len() - 1, p.last().push(c)));
                assert(split_newlines(nxt).drop_last() =~= p.drop_last());
            }
        }
        i = i + 1;
    }
    proof {
        assert(stdout@.take(n as int) =~= stdout@);
        lemma_split_nonempty(stdout@);
    }
    let t = trim(cur.as_str());
    if t.unicode_len() > 0 {
        done.push(t.to_owned());
    }
    proof {
        let p = split_newlines(stdout@);
        assert(p =~= p.drop_last().push(p.last()));
    }
    done
}


/// Options every `ssh`/`scp` call starts with: fail fast instead of prompting.
pub open spec fn batch_opts() -> Seq<Seq<char>> {
    seq!["-o"@, "BatchMode=yes"@, "-o"@, "ConnectTimeout=15"@]
}

/// The port option, given only for a port other than 22.
pub open spec fn port_opts(flag: Seq<char>, port: u16) -> Seq<Seq<char>> {
    if port != 22 {
        seq![flag, decimal(port as nat)]
    } else {
        Seq::empty()
    }
}

/// The identity-file option, when one is configured.
pub open spec fn identity_opts(id: Option<Seq<char>>) -> Seq<Seq<char>> {
    match id {
        Some(i) => seq!["-i"@, i],
        None => Seq::empty(),
    }
}

/// `user@host`.
pub open spec fn login(sv: ServerV) -> Seq<char> {
    sv.user + seq!['@'] + sv.host
}

/// Arguments to `ssh` that run `remote` on the server.
pub open spec fn ssh_argv(sv: ServerV, remote: Seq<Seq<char>>) -> Seq<Seq<char>> {
    batch_opts() + port_opts("-p"@, sv.port) + identity_opts(sv.identity_file) + seq![
        login(sv),
        "--"@,
    ] + remote
}

/// Arguments to `scp` that copy `local` to `remote_path` on the server.
pub open spec fn scp_argv(sv: ServerV, local: Seq<char>, remote_path: Seq<char>) -> Seq<Seq<char>> {
    batch_opts() + port_opts("-P"@, sv.port) + identity_opts(sv.identity_file) + seq![
        local,
        login(sv) + seq![':'] + remote_path,
    ]
}

/// `dir/name`.
pub open spec fn remote_path(dir: Seq<char>, name: Seq<char>) -> Seq<char> {
    dir + seq!['/'] + name
}

/// Where an upload waits before it is moved into place: `/tmp/name`.
pub open spec fn upload_path(name: Seq<char>) -> Seq<char> {
    "/tmp/"@ + name
}

fn push_lit(v: &mut Vec<String>, s: &str)
    ensures
        final(v)@.len() == old(v)@.len() + 1,
        view_names(final(v)@) == view_names(old(v)@).push(s@),
{
    let ghost before = v@;
    v.push(s.to_owned());
    assert(view_names(v@) =~= view_names(before).push(s@));
}

fn push_opts(v: &mut Vec<String>, server: &Server, port_flag: &str)
    ensures
        view_names(final(v)@) == view_names(old(v)@) + batch_opts() + port_opts(
            port_flag@,
            server.port,
        ) + identity_opts(opt_view(server.identity_file)),
{
    let ghost v0 = view_names(v@);
    push_lit(v, "-o");
    push_lit(v, "BatchMode=yes");
    push_lit(v, "-o");
    push_lit(v, "ConnectTimeout=15");
    assert(view_names(v@) =~= v0 + batch_opts());
    let ghost v1 = view_names(v@);
    if server.port != 22 {
        push_lit(v, port_flag);
        let p = crate::strings::usize_to_string(server.port as usize);
        push_lit(v, p.as_str());
        assert(view_names(v@) =~= v1 + port_opts(port_flag@, server.port));
    } else {
        assert(view_names(v@) =~= v1 + port_opts(port_flag@, server.port));
    }
    let ghost v2 = view_names(v@);
    match &server.identity_file {
        Some(id) => {
            push_lit(v, "-i");
            push_lit(v, id.as_str());
        },
        None => {},
    }
    assert(view_names(v@) =~= v2 + identity_opts(opt_view(server.identity_file)));
}

fn login_of(server: &Server) -> (r: String)
    ensures
        r@ == login(server@),
{
    let mut r = server.user.clone();
    push_char(&mut r, '@');
    r.append(server.host.as_str());
    r
}

/// The `ssh` argument list that runs `remote_cmd` on `server`.
pub fn ssh_args(server: &Server, remote_cmd: &Vec<String>) -> (r: Vec<String>)
    ensures
        view_names(r@) == ssh_argv(server@, view_names(remote_cmd@)),
{
    let mut v: Vec<String> = Vec::new();
    push_opts(&mut v, server, "-p");
    let l = login_of(server);
    push_lit(&mut v, l.as_str());
    push_lit(&mut v, "--");
    let ghost v3 = view_names(v@);
    let mut i: usize = 0;
    while i < remote_cmd.len()
        invariant
            i <= remote_cmd.len(),
            view_names(v@) == v3 + view_names(remote_cmd@).take(i as int),
        decreases remote_cmd.len() - i,
    {
        push_lit(&mut v, remote_cmd[i].as_str());
        assert(view_names(remote_cmd@).take(i + 1) =~= view_names(remote_cmd@).take(i as int).push(
            remote_cmd@[i as int]@,
        ));
        i = i + 1;
    }
    assert(view_names(remote_cmd@).take(remote_cmd.len() as int) =~= view_names(remote_cmd@));
    assert(view_names(v@) =~= ssh_argv(server@, view_names(remote_cmd@)));
    v
}

/// The `scp` argument list that uploads `local_path` to `remote` on `server`.
pub fn scp_args(server: &Server, local_path: &str, remote: &str) -> (r: Vec<String>)
    ensures
        view_names(r@) == scp_argv(server@, local_path@, remote@),
{
    let mut v: Vec<String> = Vec::new();
    push_opts(&mut v, server, "-P");
    push_lit(&mut v, local_path);
    let mut target = login_of(server);
    push_char(&mut target, ':');
    target.append(remote);
    assert(target@ =~= login(server@) + seq![':'] + remote@);
    push_lit(&mut v, target.as_str());
    assert(view_names(v@) =~= scp_argv(server@, local_path@, remote@));
    v
}

fn join_path(dir: &str, name: &str) -> (r: String)
    ensures
        r@ == remote_path(dir@, name@),
{
    let mut r = dir.to_owned();
    push_char(&mut r, '/');
    r.append(name);
    r
}

/// `ssh` arguments listing the images directory: `sudo -n ls --color=never -1 dir`.
pub fn list_tarballs_command(server: &Server, dir: &str) -> (r: Vec<String>)
    ensures
        view_names(r@) == ssh_argv(
            server@,
            seq!["sudo"@, "-n"@, "ls"@, "--color=never"@, "-1"@, dir@],
        ),
{
    let mut cmd: Vec<String> = Vec::new();
    push_lit(&mut cmd, "sudo");
    push_lit(&mut cmd, "-n");
    push_lit(&mut cmd, "ls");
    push_lit(&mut cmd, "--color=never");
    push_lit(&mut cmd, "-1");
    push_lit(&mut cmd, dir);
    assert(view_names(cmd@) =~= seq!["sudo"@, "-n"@, "ls"@, "--color=never"@, "-1"@, dir@]);
    ssh_args(server, &cmd)
}

/// `scp` arguments uploading a local tarball to `/tmp/<name>` on the server.
pub fn upload_command(server: &Server, local_path: &str, tarball_name: &str) -> (r: Vec<String>)
    ensures
        view_names(r@) == scp_argv(server@, local_path@, upload_path(tarball_name@)),
{
    let mut tmp = "/tmp/".to_owned();
    tmp.append(tarball_name);
    scp_args(server, local_path, tmp.as_str())
}

/// `ssh` arguments moving an uploaded tarball into `remote_dir`:
/// `sudo -n mv /tmp/<name> <remote_dir>/<name>`.
pub fn move_into_place_command(server: &Server, tarball_name: &str, remote_dir: &str) -> (r: Vec<
    String,
>)
    ensures
        view_names(r@) == ssh_argv(
            server@,
            seq![
                "sudo"@,
                "-n"@,
                "mv"@,
                upload_path(tarball_name@),
                remote_path(remote_dir@, tarball_name@),
            ],
        ),
{
    let mut tmp = "/tmp/".to_owned();
    tmp.append(tarball_name);
    let dest = join_path(remote_dir, tarball_name);
    let mut cmd: Vec<String> = Vec::new();
    push_lit(&mut cmd, "sudo");
    push_lit(&mut cmd, "-n");
    push_lit(&mut cmd, "mv");
    push_lit(&mut cmd, tmp.as_str());
    push_lit(&mut cmd, dest.as_str());
    assert(view_names(cmd@) =~= seq![
        "sudo"@,
        "-n"@,
        "mv"@,
        upload_path(tarball_name@),
        remote_path(remote_dir@, tarball_name@),
    ]);
    ssh_args(server, &cmd)
}

/// `ssh` arguments deleting a leftover upload: `sudo -n rm /tmp/<name>`.
pub fn discard_upload_command(server: &Server, tarball_name: &str) -> (r: Vec<String>)
    ensures
        view_names(r@) == ssh_argv(
            server@,
            seq!["sudo"@, "-n"@, "rm"@, upload_path(tarball_name@)],
        ),
{
    let mut tmp = "/tmp/".to_owned();
    tmp.append(tarball_name);
    let mut cmd: Vec<String> = Vec::new();
    push_lit(&mut cmd, "sudo");
    push_lit(&mut cmd, "-n");
    push_lit(&mut cmd, "rm");
    push_lit(&mut cmd, tmp.as_str());
    assert(view_names(cmd@) =~= seq!["sudo"@, "-n"@, "rm"@, upload_path(tarball_name@)]);
    ssh_args(server, &cmd)
}

/// `ssh` arguments deleting a tarball: `sudo -n rm <remote_dir>/<tarball>`.
pub fn remove_command(server: &Server, tarball: &str, remote_dir: &str) -> (r: Vec<String>)
    ensures
        view_names(r@) == ssh_argv(
            server@,
            seq!["sudo"@, "-n"@, "rm"@, remote_path(remote_dir@, tarball@)],
        ),
{
    let target = join_path(remote_dir, tarball);
    let mut cmd: Vec<String> = Vec::new();
    push_lit(&mut cmd, "sudo");
    push_lit(&mut cmd, "-n");
    push_lit(&mut cmd, "rm");
    push_lit(&mut cmd, target.as_str());
    assert(view_names(cmd@) =~= seq!["sudo"@, "-n"@, "rm"@, remote_path(remote_dir@, tarball@)]);
    ssh_args(server, &cmd)
}

/// Words joined by single spaces.
pub open spec fn join_words(ws: Seq<Seq<char>>) -> Seq<char>
    decreases ws.len(),
{
    if ws.len() == 0 {
        Seq::empty()
    } else if ws.len() == 1 {
        ws[0]
    } else {
        join_words(ws.drop_last()) + seq![' '] + ws.last()
    }
}

/// The command line `remove_tarball` would run, as one line of text:
/// `ssh` followed by its arguments, separated by spaces.
pub fn preview_remove_command(server: &Server, tarball: &str, remote_dir: &str) -> (r: String)
    ensures
        r@ == join_words(
            seq!["ssh"@] + ssh_argv(
                server@,
                seq!["sudo"@, "-n"@, "rm"@, remote_path(remote_dir@, tarball@)],
            ),
        ),
{
    let args = remove_command(server, tarball, remote_dir);
    let ghost ws = seq!["ssh"@] + view_names(args@);
    let mut r = "ssh".to_owned();
    let mut i: usize = 0;
    assert(ws.take(1) =~= seq!["ssh"@]);
    while i < args.len()
        invariant
            i <= args.len(),
            ws == seq!["ssh"@] + view_names(args@),
            r@ == join_words(ws.take(i + 1)),
        decreases args.len() - i,
    {
        push_char(&mut r, ' ');
        r.append(args[i].as_str());
        proof {
            let t = ws.take(i + 2);
            assert(t.drop_last() =~= ws.take(i + 1));
            assert(t.last() == args@[i as int]@);
        }
        i = i + 1;
    }
    assert(ws.take(args.len() + 1) =~= ws);
    r
}

// ---------------------------------------------------------------------------
// Running remote commands: what each outcome means
// ---------------------------------------------------------------------------

/// How one `ssh`/`scp` run ended.
pub enum CommandOutcome {
    /// The background task running it could not be joined.
    JoinFailed(String),
    /// The command could not be started.
    SpawnFailed(String),
    /// It ran: whether it exited successfully, and its output (decoded
    /// lossily).
    Exited { success: bool, stdout: String, stderr: String },
}

/// A server's listing from a finished `ls`: the filenames it printed,
/// whatever its exit status; an error when it could not run.
pub open spec fn listing_result(name: Seq<char>, o: CommandOutcome) -> Result<Seq<Seq<char>>, Seq<char>> {
    match o {
        CommandOutcome::JoinFailed(e) => Err("Join error: "@ + e@),
        CommandOutcome::SpawnFailed(e) => Err("SSH to "@ + name + " failed: "@ + e@),
        CommandOutcome::Exited { stdout, .. } => Ok(listed_names(stdout@)),
    }
}

/// The result of scanning a server, from how its `ls` ended (see
/// `listing_result`).
pub fn list_remote_tarballs(server: &Server, outcome: &CommandOutcome) -> (r: Result<Vec<String>, String>)
    ensures
        match r {
            Ok(v) => listing_result(server.name@, *outcome) == Ok::<Seq<Seq<char>>, Seq<char>>(view_names(v@)),
            Err(e) => listing_result(server.name@, *outcome) == Err::<Seq<Seq<char>>, Seq<char>>(e@),
        },
{
    match outcome {
        CommandOutcome::JoinFailed(e) => {
            let mut m = "Join error: ".to_owned();
            m.append(e.as_str());
            Err(m)
        },
        CommandOutcome::SpawnFailed(e) => {
            let mut m = "SSH to ".to_owned();
            m.append(server.name.as_str());
            m.append(" failed: ");
            m.append(e.as_str());
            Err(m)
        },
        CommandOutcome::Exited { stdout, .. } => Ok(parse_ls_output(stdout.as_str())),
    }
}

/// The outcome of deleting a tarball from a server.
pub open spec fn removal_result(name: Seq<char>, o: CommandOutcome) -> Result<(), Seq<char>> {
    match o {
        CommandOutcome::JoinFailed(e) => Err("SSH spawn failed: "@ + e@),
        CommandOutcome::SpawnFailed(e) => Err("SSH rm on "@ + name + " failed: "@ + e@),
        CommandOutcome::Exited { success, stderr, .. } => if success {
            Ok(())
        } else {
            Err("SSH rm failed on "@ + name + ": "@ + trim_seq(stderr@))
        },
    }
}

/// Whether deleting a tarball worked, from how the `rm` ended (see
/// `removal_result`).
pub fn remove_tarball(server: &Server, outcome: &CommandOutcome) -> (r: Result<(), String>)
    ensures
        match r {
            Ok(()) => removal_result(server.name@, *outcome) == Ok::<(), Seq<char>>(()),
            Err(e) => removal_result(server.name@, *outcome) == Err::<(), Seq<char>>(e@),
        },
{
    match outcome {
        CommandOutcome::JoinFailed(e) => {
            let mut m = "SSH spawn failed: ".to_owned();
            m.append(e.as_str());
            Err(m)
        },
        CommandOutcome::SpawnFailed(e) => {
            let mut m = "SSH rm on ".to_owned();
            m.append(server.name.as_str());
            m.append(" failed: ");
            m.append(e.as_str());
            Err(m)
        },
        CommandOutcome::Exited { success, stderr, .. } => {
            if *success {
                Ok(())
            } else {
                let mut m = "SSH rm failed on ".to_owned();
                m.append(server.name.as_str());
                m.append(": ");
                m.append(trim(stderr.as_str()));
                Err(m)
            }
        },
    }
}

/// Where a deploy stands while a command runs.
pub enum DeployStage {
    /// The tarball is being copied to `/tmp` on the server.
    Uploading,
    /// The upload is being moved into the images directory.
    Moving,
    /// The leftover upload is being deleted after the move failed with this
    /// message.
    Discarding(String),
}

/// What a deploy does next.
pub enum DeployStep {
    /// Run `scp` with these arguments, then continue in `Uploading`.
    Upload(Vec<String>),
    /// Run `ssh` with these arguments, then continue in `Moving`.
    MoveIntoPlace(Vec<String>),
    /// Run `ssh` with these arguments, then continue in `Discarding(error)`.
    DiscardUpload { args: Vec<String>, error: String },
    /// The deploy is over.
    Done(Result<(), String>),
}

pub enum DeployStepV {
    Upload(Seq<Seq<char>>),
    MoveIntoPlace(Seq<Seq<char>>),
    DiscardUpload { args: Seq<Seq<char>>, error: Seq<char> },
    Done(Result<(), Seq<char>>),
}

impl View for DeployStep {
    type V = DeployStepV;

    open spec fn view(&self) -> DeployStepV {
        match self {
            DeployStep::Upload(a) => DeployStepV::Upload(view_names(a@)),
            DeployStep::MoveIntoPlace(a) => DeployStepV::MoveIntoPlace(view_names(a@)),
            DeployStep::DiscardUpload { args, error } => DeployStepV::DiscardUpload {
                args: view_names(args@),
                error: error@,
            },
            DeployStep::Done(r) => DeployStepV::Done(
                match r {
                    Ok(()) => Ok(()),
                    Err(e) => Err(e@),
                },
            ),
        }
    }
}

/// The `mv` into the images directory.
pub open spec fn move_argv(sv: ServerV, tarball: Seq<char>, remote_dir: Seq<char>) -> Seq<Seq<char>> {
    ssh_argv(sv, seq!["sudo"@, "-n"@, "mv"@, upload_path(tarball), remote_path(remote_dir, tarball)])
}

/// The `rm` of a leftover upload.
pub open spec fn discard_argv(sv: ServerV, tarball: Seq<char>) -> Seq<Seq<char>> {
    ssh_argv(sv, seq!["sudo"@, "-n"@, "rm"@, upload_path(tarball)])
}

/// A deploy's next step after the command of `stage` ended. An upload that
/// worked is moved into place; a move that worked ends the deploy; a move
/// that failed has its upload deleted and then fails; after that deletion,
/// whatever its outcome, the deploy fails with the move's message. Every
/// other failure ends the deploy with its message.
pub open spec fn deploy_transition(
    sv: ServerV,
    tarball: Seq<char>,
    remote_dir: Seq<char>,
    stage: DeployStage,
    o: CommandOutcome,
) -> DeployStepV {
    let name = sv.name;
    match stage {
        DeployStage::Uploading => match o {
            CommandOutcome::JoinFailed(e) => DeployStepV::Done(Err("SCP spawn failed: "@ + e@)),
            CommandOutcome::SpawnFailed(e) => DeployStepV::Done(Err("SCP to "@ + name + " failed: "@ + e@)),
            CommandOutcome::Exited { success, stderr, .. } => if success {
                DeployStepV::MoveIntoPlace(move_argv(sv, tarball, remote_dir))
            } else {
                DeployStepV::Done(Err("SCP upload to "@ + name + " failed: "@ + trim_seq(stderr@)))
            },
        },
        DeployStage::Moving => match o {
            CommandOutcome::JoinFailed(e) => DeployStepV::Done(Err("SSH mv spawn failed: "@ + e@)),
            CommandOutcome::SpawnFailed(e) => DeployStepV::Done(Err("SSH mv on "@ + name + " failed: "@ + e@)),
            CommandOutcome::Exited { success, stderr, .. } => if success {
                DeployStepV::Done(Ok(()))
            } else {
                DeployStepV::DiscardUpload {
                    args: discard_argv(sv, tarball),
                    error: "sudo mv to "@ + name + " failed: "@ + trim_seq(stderr@),
                }
            },
        },
        DeployStage::Discarding(error) => DeployStepV::Done(Err(error@)),
    }
}

/// A deploy ends after at most three commands: the upload, then the move
/// into place, then (only when the move failed) the removal of the upload;
/// the move is attempted exactly when the upload succeeded, and a failed
/// move always ends in an error whatever the removal's outcome.
pub proof fn lemma_deploy_ends(
    sv: ServerV,
    tarball: Seq<char>,
    remote_dir: Seq<char>,
    upload: CommandOutcome,
    moved: CommandOutcome,
    discard: CommandOutcome,
)
    ensures
        (deploy_transition(sv, tarball, remote_dir, DeployStage::Uploading, upload) is MoveIntoPlace)
            == (upload matches CommandOutcome::Exited { success, .. } && success),
        match deploy_transition(sv, tarball, remote_dir, DeployStage::Uploading, upload) {
            DeployStepV::Done(r) => r is Err,
            DeployStepV::MoveIntoPlace(_) => match deploy_transition(
                sv,
                tarball,
                remote_dir,
                DeployStage::Moving,
                moved,
            ) {
                DeployStepV::Done(_) => true,
                DeployStepV::DiscardUpload { .. } => forall|e: String|
                    #[trigger] deploy_transition(sv, tarball, remote_dir, DeployStage::Discarding(e), discard)
                        == DeployStepV::Done(Err(e@)),
                _ => false,
            },
            _ => false,
        },
{
}

/// Index of the last `/` in `s`, or -1 when there is none.
pub open spec fn last_slash(s: Seq<char>) -> int
    decreases s.len(),
{
    if s.len() == 0 {
        -1
    } else if s.last() == '/' {
        s.len() - 1
    } else {
        last_slash(s.drop_last())
    }
}

/// The last `/` lies within the text.
pub proof fn lemma_last_slash_bounds(s: Seq<char>)
    ensures
        -1 <= last_slash(s) < s.len(),
    decreases s.len(),
{
    if s.len() > 0 && s.last() != '/' {
        lemma_last_slash_bounds(s.drop_last());
    }
}

proof fn lemma_last_slash_at(s: Seq<char>, j: int)
    requires
        0 <= j <= s.len(),
        forall|t: int| j <= t < s.len() ==> s[t] != '/',
        j == 0 || s[j - 1] == '/',
    ensures
        last_slash(s) == j - 1,
    decreases s.len(),
{
    if s.len() > j {
        let d = s.drop_last();
        assert forall|t: int| j <= t < d.len() implies d[t] != '/' by {
            assert(d[t] == s[t]);
        }
        if j > 0 {
            assert(d[j - 1] == s[j - 1]);
        }
        lemma_last_slash_at(d, j);
    }
}

/// The file name of a path, as `std::path::Path::file_name` gives it: its
/// last component, with `/` separators (repeated and trailing ones
/// ignored) and `.` components skipped; none when the path is empty, is
/// only a root or `.`, or ends in `..`.
pub open spec fn path_file_name(s: Seq<char>) -> Option<Seq<char>>
    decreases s.len(),
{
    if s.len() == 0 {
        None
    } else if s.last() == '/' {
        path_file_name(s.drop_last())
    } else {
        let k = last_slash(s);
        let piece = s.subrange(k + 1, s.len() as int);
        if piece == seq!['.'] {
            if k < 0 {
                None
            } else {
                proof {
                    lemma_last_slash_bounds(s);
                }
                path_file_name(s.subrange(0, k))
            }
        } else if piece == seq!['.', '.'] {
            None
        } else {
            Some(piece)
        }
    }
}

/// The tarball a deploy copies: the file name of `local_path` (see
/// `path_file_name`), or an error naming the path when it has none.
pub fn tarball_name_of_path(local_path: &str) -> (r: Result<String, String>)
    ensures
        match path_file_name(local_path@) {
            Some(n) => r matches Ok(t) && t@ == n,
            None => r matches Err(e) && e@ == "Invalid local tarball path: "@ + local_path@,
        },
{
    let cs = chars_of(local_path);
    let mut end: usize = cs.len();
    assert(cs@.take(end as int) =~= cs@);
    loop
        invariant
            end <= cs@.len(),
            cs@ == local_path@,
            path_file_name(cs@.take(end as int)) == path_file_name(local_path@),
        decreases end,
    {
        let ghost t = cs@.take(end as int);
        if end == 0 {
            assert(t.len() == 0);
            let mut e = "Invalid local tarball path: ".to_owned();
            e.append(local_path);
            return Err(e);
        }
        if cs[end - 1] == '/' {
            assert(t.drop_last() =~= cs@.take(end - 1));
            end = end - 1;
            continue;
        }
        let mut j: usize = end;
        while j > 0 && cs[j - 1] != '/'
            invariant
                j <= end,
                end <= cs@.len(),
                forall|x: int| j <= x < end ==> cs@[x] != '/',
            decreases j,
        {
            j = j - 1;
        }
        proof {
            lemma_last_slash_at(t, j as int);
        }
        let ghost piece = t.subrange(j as int, end as int);
        if end - j == 1 && cs[j] == '.' {
            assert(piece =~= seq!['.']);
            if j == 0 {
                let mut e = "Invalid local tarball path: ".to_owned();
                e.append(local_path);
                return Err(e);
            }
            assert(t.subrange(0, j - 1) =~= cs@.take(j - 1));
            end = j - 1;
            continue;
        }
        if end - j == 2 && cs[j] == '.' && cs[j + 1] == '.' {
            assert(piece =~= seq!['.', '.']);
            let mut e = "Invalid local tarball path: ".to_owned();
            e.append(local_path);
            return Err(e);
        }
        assert(piece != seq!['.']) by {
            if end - j == 1 {
                assert(piece[0] == cs@[j as int]);
            } else {
                assert(piece.len() != 1);
            }
        }
        assert(piece != seq!['.', '.']) by {
            if end - j == 2 {
                assert(piece[0] == cs@[j as int] && piece[1] == cs@[j + 1]);
            } else {
                assert(piece.len() != 2);
            }
        }
        let mut name: Vec<char> = Vec::new();
        let mut x: usize = j;
        while x < end
            invariant
                j <= x <= end,
                end <= cs@.len(),
                name@ == cs@.subrange(j as int, x as int),
            decreases end - x,
        {
            name.push(cs[x]);
            assert(cs@.subrange(j as int, x + 1) =~= cs@.subrange(j as int, x as int).push(cs@[x as int]));
            x = x + 1;
        }
        assert(name@ =~= piece);
        return Ok(string_from_chars(&name));
    }
}

/// How a deploy of `local_path` (whose file name is `tarball_name`) begins:
/// by uploading it to `/tmp` on the server.
pub fn deploy_tarball(server: &Server, local_path: &str, tarball_name: &str) -> (step: DeployStep)
    ensures
        step@ == DeployStepV::Upload(scp_argv(server@, local_path@, upload_path(tarball_name@))),
{
    DeployStep::Upload(upload_command(server, local_path, tarball_name))
}

fn err_text(prefix: &str, middle: &str, suffix: &str, detail: &str) -> (r: String)
    ensures
        r@ == prefix@ + middle@ + suffix@ + detail@,
{
    let mut m = prefix.to_owned();
    m.append(middle);
    m.append(suffix);
    m.append(detail);
    m
}

/// A deploy's next step (see `deploy_transition`).
pub fn deploy_next(
    server: &Server,
    tarball_name: &str,
    remote_dir: &str,
    stage: DeployStage,
    outcome: &CommandOutcome,
) -> (step: DeployStep)
    ensures
        step@ == deploy_transition(server@, tarball_name@, remote_dir@, stage, *outcome),
{
    proof {
        reveal_strlit("");
    }
    match stage {
        DeployStage::Uploading => match outcome {
            CommandOutcome::JoinFailed(e) => DeployStep::Done(Err(err_text("SCP spawn failed: ", "", "", e.as_str()))),
            CommandOutcome::SpawnFailed(e) => DeployStep::Done(Err(err_text("SCP to ", server.name.as_str(), " failed: ", e.as_str()))),
            CommandOutcome::Exited { success, stderr, .. } => {
                if *success {
                    DeployStep::MoveIntoPlace(move_into_place_command(server, tarball_name, remote_dir))
                } else {
                    DeployStep::Done(Err(err_text("SCP upload to ", server.name.as_str(), " failed: ", trim(stderr.as_str()))))
                }
            },
        },
        DeployStage::Moving => match outcome {
            CommandOutcome::JoinFailed(e) => DeployStep::Done(Err(err_text("SSH mv spawn failed: ", "", "", e.as_str()))),
            CommandOutcome::SpawnFailed(e) => DeployStep::Done(Err(err_text("SSH mv on ", server.name.as_str(), " failed: ", e.as_str()))),
            CommandOutcome::Exited { success, stderr, .. } => {
                if *success {
                    DeployStep::Done(Ok(()))
                } else {
                    DeployStep::DiscardUpload {
                        args: discard_upload_command(server, tarball_name),
                        error: err_text("sudo mv to ", server.name.as_str(), " failed: ", trim(stderr.as_str())),
                    }
                }
            },
        },
        DeployStage::Discarding(error) => DeployStep::Done(Err(error)),
    }
}

} // verus!
