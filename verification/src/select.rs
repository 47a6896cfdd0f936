//! Command-line selectors: parsing `name`, `name:version` and `file.tar`,
//! and resolving them (and server names) against the inventory.
use vstd::prelude::*;

use crate::models::{ImageFamily, ImageFamilyV, ManagedImage, ManagedImageV, Server, ServerV};
use crate::names::{view_names, NameMap, NameSet};
use crate::remote::{families_wf, tarball_filename, tarball_name};
use crate::strings::{ends_with, push_char, seq_ends_with, str_eq};

verus! {

// ---------------------------------------------------------------------------
// Selectors
// ---------------------------------------------------------------------------

/// A user-supplied target: `name`, `name:version`, or a `.tar` filename.
#[derive(Debug, PartialEq, Eq)]
pub enum ImageSelector {
    Name(String),
    NameVersion(String, String),
    Tarball(String),
}

pub enum SelectorV {
    Name(Seq<char>),
    NameVersion(Seq<char>, Seq<char>),
    Tarball(Seq<char>),
}

impl View for ImageSelector {
    type V = SelectorV;

    open spec fn view(&self) -> SelectorV {
        match self {
            ImageSelector::Name(n) => SelectorV::Name(n@),
            ImageSelector::NameVersion(n, v) => SelectorV::NameVersion(n@, v@),
            ImageSelector::Tarball(t) => SelectorV::Tarball(t@),
        }
    }
}

impl Clone for ImageSelector {
    fn clone(&self) -> (r: Self)
        ensures
            r@ == self@,
    {
        match self {
            ImageSelector::Name(n) => ImageSelector::Name(n.clone()),
            ImageSelector::NameVersion(n, v) => ImageSelector::NameVersion(n.clone(), v.clone()),
            ImageSelector::Tarball(t) => ImageSelector::Tarball(t.clone()),
        }
    }
}

/// Index of the first `:` (the length when there is none).
pub open spec fn colon_index(s: Seq<char>) -> nat
    decreases s.len(),
{
    if s.len() == 0 || s[0] == ':' {
        0
    } else {
        1 + colon_index(s.drop_first())
    }
}

proof fn lemma_colon_index(s: Seq<char>, i: int)
    requires
        0 <= i <= s.len(),
        forall|k: int| 0 <= k < i ==> #[trigger] s[k] != ':',
        i == s.len() || s[i] == ':',
    ensures
        colon_index(s) == i,
    decreases i,
{
    if i > 0 {
        let t = s.drop_first();
        assert forall|k: int| 0 <= k < i - 1 implies #[trigger] t[k] != ':' by {
            assert(t[k] == s[k + 1]);
        }
        if i < s.len() {
            assert(t[i - 1] == s[i]);
        }
        lemma_colon_index(t, i - 1);
    }
}

proof fn lemma_colon_at(s: Seq<char>)
    ensures
        colon_index(s) <= s.len(),
        colon_index(s) < s.len() ==> s[colon_index(s) as int] == ':',
    decreases s.len(),
{
    if s.len() > 0 && s[0] != ':' {
        lemma_colon_at(s.drop_first());
    }
}

/// How a raw argument is read: a name ending in `.tar` is a tarball;
/// otherwise text split at its first `:` into two non-empty parts is
/// `name:version`; anything else is a name.
pub open spec fn parse_selector(raw: Seq<char>) -> SelectorV {
    if seq_ends_with(raw, ".tar"@) {
        SelectorV::Tarball(raw)
    } else {
        let i = colon_index(raw);
        if 0 < i && i + 1 < raw.len() {
            SelectorV::NameVersion(raw.take(i as int), raw.skip(i + 1int))
        } else {
            SelectorV::Name(raw)
        }
    }
}

/// A selector written back out: `name`, `name:version` or the filename.
pub open spec fn selector_text(s: SelectorV) -> Seq<char> {
    match s {
        SelectorV::Name(n) => n,
        SelectorV::NameVersion(n, v) => n + seq![':'] + v,
        SelectorV::Tarball(t) => t,
    }
}

impl ImageSelector {
    /// Reads a raw argument (see `parse_selector`).
    pub fn parse(raw: &str) -> (r: ImageSelector)
        ensures
            r@ == parse_selector(raw@),
    {
        if ends_with(raw, ".tar") {
            return ImageSelector::Tarball(raw.to_owned());
        }
        let n = raw.unicode_len();
        let mut i: usize = 0;
        while i < n && raw.get_char(i) != ':'
            invariant
                i <= n,
                n == raw@.len(),
                forall|k: int| 0 <= k < i ==> #[trigger] raw@[k] != ':',
            decreases n - i,
        {
            i = i + 1;
        }
        proof {
            lemma_colon_index(raw@, i as int);
        }
        if 0 < i && i < n && i + 1 < n {
            let name = raw.substring_char(0, i);
            let version = raw.substring_char(i + 1, n);
            assert(name@ =~= raw@.take(i as int));
            assert(version@ =~= raw@.skip(i + 1));
            ImageSelector::NameVersion(name.to_owned(), version.to_owned())
        } else {
            ImageSelector::Name(raw.to_owned())
        }
    }

    /// The selector as the user would type it (see `selector_text`).
    pub fn to_string(&self) -> (r: String)
        ensures
            r@ == selector_text(self@),
    {
        match self {
            ImageSelector::Name(n) => n.clone(),
            ImageSelector::NameVersion(n, v) => {
                let mut r = n.clone();
                push_char(&mut r, ':');
                r.append(v.as_str());
                r
            },
            ImageSelector::Tarball(t) => t.clone(),
        }
    }
}

/// Writing out a parsed argument gives the argument back.
pub proof fn lemma_parse_then_text(raw: Seq<char>)
    ensures
        selector_text(parse_selector(raw)) == raw,
{
    if !seq_ends_with(raw, ".tar"@) {
        let i = colon_index(raw);
        lemma_colon_at(raw);
        if 0 < i && i + 1 < raw.len() {
            assert(raw.take(i as int) + seq![':'] + raw.skip(i + 1int) =~= raw);
        }
    }
}

// ---------------------------------------------------------------------------
// Resolution
// ---------------------------------------------------------------------------

/// A selector resolved against the inventory.
#[derive(Debug)]
pub enum ResolvedTarget {
    Current { family_name: String, image: ManagedImage },
    Stale { family_name: String, version: String, servers: NameSet },
    Unknown { filename: String, servers: NameSet },
}

pub enum TargetV {
    Current { family_name: Seq<char>, image: ManagedImageV },
    Stale { family_name: Seq<char>, version: Seq<char>, servers: Set<Seq<char>> },
    Unknown { filename: Seq<char>, servers: Set<Seq<char>> },
}

impl View for ResolvedTarget {
    type V = TargetV;

    open spec fn view(&self) -> TargetV {
        match self {
            ResolvedTarget::Current { family_name, image } => TargetV::Current {
                family_name: family_name@,
                image: image@,
            },
            ResolvedTarget::Stale { family_name, version, servers } => TargetV::Stale {
                family_name: family_name@,
                version: version@,
                servers: servers@,
            },
            ResolvedTarget::Unknown { filename, servers } => TargetV::Unknown {
                filename: filename@,
                servers: servers@,
            },
        }
    }
}

/// The tarball a target names.
pub open spec fn target_tarball(t: TargetV) -> Seq<char> {
    match t {
        TargetV::Current { image, .. } => tarball_name(image.name, image.version),
        TargetV::Stale { family_name, version, .. } => tarball_name(family_name, version),
        TargetV::Unknown { filename, .. } => filename,
    }
}

/// How a target is shown: `name:version`, or the filename.
pub open spec fn target_display(t: TargetV) -> Seq<char> {
    match t {
        TargetV::Current { image, .. } => image.name + seq![':'] + image.version,
        TargetV::Stale { family_name, version, .. } => family_name + seq![':'] + version,
        TargetV::Unknown { filename, .. } => filename,
    }
}

impl ResolvedTarget {
    /// The tarball filename the target stands for.
    pub fn tarball_filename(&self) -> (r: String)
        ensures
            r@ == target_tarball(self@),
    {
        match self {
            ResolvedTarget::Current { image, .. } => tarball_filename(
                image.name.as_str(),
                image.version.as_str(),
            ),
            ResolvedTarget::Stale { family_name, version, .. } => tarball_filename(
                family_name.as_str(),
                version.as_str(),
            ),
            ResolvedTarget::Unknown { filename, .. } => filename.clone(),
        }
    }

    /// The target as shown to the user.
    pub fn display_name(&self) -> (r: String)
        ensures
            r@ == target_display(self@),
    {
        match self {
            ResolvedTarget::Current { image, .. } => {
                let mut r = image.name.clone();
                push_char(&mut r, ':');
                r.append(image.version.as_str());
                r
            },
            ResolvedTarget::Stale { family_name, version, .. } => {
                let mut r = family_name.clone();
                push_char(&mut r, ':');
                r.append(version.as_str());
                r
            },
            ResolvedTarget::Unknown { filename, .. } => filename.clone(),
        }
    }
}

/// Texts joined by `, `.
pub open spec fn join_comma(parts: Seq<Seq<char>>) -> Seq<char>
    decreases parts.len(),
{
    if parts.len() == 0 {
        Seq::empty()
    } else if parts.len() == 1 {
        parts[0]
    } else {
        join_comma(parts.drop_last()) + ", "@ + parts.last()
    }
}

fn join_comma_exec(parts: &Vec<String>) -> (r: String)
    ensures
        r@ == join_comma(view_names(parts@)),
{
    let ghost ps = view_names(parts@);
    let mut r = String::new();
    let mut i: usize = 0;
    assert(ps.take(0) =~= Seq::<Seq<char>>::empty());
    while i < parts.len()
        invariant
            i <= parts.len(),
            ps == view_names(parts@),
            r@ == join_comma(ps.take(i as int)),
        decreases parts.len() - i,
    {
        if i > 0 {
            r.append(", ");
        }
        r.append(parts[i].as_str());
        proof {
            let t = ps.take(i + 1);
            assert(t.drop_last() =~= ps.take(i as int));
            assert(t.last() == parts@[i as int]@);
            if i == 0 {
                assert(Seq::<char>::empty() + t[0] =~= t[0]);
            }
        }
        i = i + 1;
    }
    assert(ps.take(parts.len() as int) =~= ps);
    r
}

/// `Unknown image '<name>'. Known images: a, b, c`.
pub open spec fn unknown_name_text(name: Seq<char>, known: Seq<Seq<char>>) -> Seq<char> {
    "Unknown image '"@ + name + "'. Known images: "@ + join_comma(known)
}

/// The error for a name no family has, listing the known names in order.
pub fn unknown_name_error(name: &str, families: &NameMap<ImageFamily>) -> (r: String)
    ensures
        r@ == unknown_name_text(name@, families.key_seq()),
{
    let known = join_comma_exec(&families.keys);
    let mut r = "Unknown image '".to_owned();
    r.append(name);
    r.append("'. Known images: ");
    r.append(known.as_str());
    r
}

/// Index of the first entry equal to `x`.
pub open spec fn first_index_of(s: Seq<Seq<char>>, x: Seq<char>) -> Option<int>
    decreases s.len(),
{
    if s.len() == 0 {
        None
    } else if s[0] == x {
        Some(0)
    } else {
        match first_index_of(s.drop_first(), x) {
            Some(i) => Some(i + 1),
            None => None,
        }
    }
}

proof fn lemma_first_index(s: Seq<Seq<char>>, x: Seq<char>, i: int)
    requires
        0 <= i <= s.len(),
        forall|k: int| 0 <= k < i ==> #[trigger] s[k] != x,
        i == s.len() || s[i] == x,
    ensures
        first_index_of(s, x) == (if i < s.len() {
            Some(i)
        } else {
            None::<int>
        }),
    decreases i,
{
    if i > 0 {
        let t = s.drop_first();
        assert forall|k: int| 0 <= k < i - 1 implies #[trigger] t[k] != x by {
            assert(t[k] == s[k + 1]);
        }
        if i < s.len() {
            assert(t[i - 1] == s[i]);
        }
        lemma_first_index(t, x, i - 1);
    }
}

/// The filenames of unknown tarballs, in order.
pub open spec fn unknown_filenames(us: Seq<crate::models::UnknownTarball>) -> Seq<Seq<char>> {
    us.map_values(|u: crate::models::UnknownTarball| u.filename@)
}

/// What a selector resolves to (see `resolve`).
pub open spec fn resolution(
    sel: SelectorV,
    fams: Map<Seq<char>, ImageFamilyV>,
    known: Seq<Seq<char>>,
    unknowns: Seq<crate::models::UnknownTarball>,
) -> Result<TargetV, Seq<char>> {
    match sel {
        SelectorV::Name(n) => if !fams.contains_key(n) {
            Err(unknown_name_text(n, known))
        } else {
            match fams[n].current {
                None => Err("Image family '"@ + n + "' has no current version"@),
                Some(c) => Ok(TargetV::Current { family_name: n, image: c }),
            }
        },
        SelectorV::NameVersion(n, v) => if !fams.contains_key(n) {
            Err(unknown_name_text(n, known))
        } else {
            let f = fams[n];
            if f.current is Some && f.current->0.version == v {
                Ok(TargetV::Current { family_name: n, image: f.current->0 })
            } else if f.stale_versions.contains(v) {
                Ok(
                    TargetV::Stale {
                        family_name: n,
                        version: v,
                        servers: if f.remote_presence.contains_key(v) {
                            f.remote_presence[v]
                        } else {
                            Set::empty()
                        },
                    },
                )
            } else {
                Err(
                    "'"@ + n + "' has no known version '"@ + v + "' (current: "@ + match f.current_version {
                        Some(cv) => cv,
                        None => "none"@,
                    } + ")"@,
                )
            }
        },
        SelectorV::Tarball(t) => match first_index_of(unknown_filenames(unknowns), t) {
            Some(i) => Ok(TargetV::Unknown { filename: unknowns[i].filename@, servers: unknowns[i].servers@ }),
            None => Err("No unknown tarball named '"@ + t + "'"@),
        },
    }
}

/// The family views of a name-keyed map of families.
pub open spec fn family_views(m: NameMap<ImageFamily>) -> Map<Seq<char>, ImageFamilyV> {
    m@.map_values(|f: ImageFamily| f@)
}

/// Resolves a selector against the families and the unknown tarballs (see
/// `resolution`); the error is the message shown to the user.
pub fn resolve(
    selector: &ImageSelector,
    families: &NameMap<ImageFamily>,
    unknowns: &[crate::models::UnknownTarball],
) -> (r: Result<ResolvedTarget, String>)
    requires
        families_wf(*families),
    ensures
        match r {
            Ok(t) => resolution(selector@, family_views(*families), families.key_seq(), unknowns@) == Ok::<TargetV, Seq<char>>(t@),
            Err(e) => resolution(selector@, family_views(*families), families.key_seq(), unknowns@) == Err::<TargetV, Seq<char>>(e@),
        },
        r matches Ok(ResolvedTarget::Current { image, .. }) ==> image.wf(),
{
    match selector {
        ImageSelector::Name(name) => {
            let family = match families.get(name.as_str()) {
                Some(f) => f,
                None => return Err(unknown_name_error(name.as_str(), families)),
            };
            proof {
                let j = families.lemma_key_index(name@);
            }
            match &family.current {
                Some(cur) => Ok(ResolvedTarget::Current { family_name: name.clone(), image: cur.clone() }),
                None => {
                    let mut e = "Image family '".to_owned();
                    e.append(name.as_str());
                    e.append("' has no current version");
                    Err(e)
                },
            }
        },
        ImageSelector::NameVersion(name, version) => {
            let family = match families.get(name.as_str()) {
                Some(f) => f,
                None => return Err(unknown_name_error(name.as_str(), families)),
            };
            proof {
                let j = families.lemma_key_index(name@);
            }
            match &family.current {
                Some(cur) => {
                    if str_eq(cur.version.as_str(), version.as_str()) {
                        return Ok(ResolvedTarget::Current { family_name: name.clone(), image: cur.clone() });
                    }
                },
                None => {},
            }
            if family.stale_versions.contains(version.as_str()) {
                let servers = match family.remote_presence.get(version.as_str()) {
                    Some(s) => s.clone(),
                    None => NameSet::new(),
                };
                return Ok(ResolvedTarget::Stale { family_name: name.clone(), version: version.clone(), servers });
            }
            let mut e = "'".to_owned();
            e.append(name.as_str());
            e.append("' has no known version '");
            e.append(version.as_str());
            e.append("' (current: ");
            match &family.current_version {
                Some(cv) => e.append(cv.as_str()),
                None => e.append("none"),
            }
            e.append(")");
            Err(e)
        },
        ImageSelector::Tarball(filename) => {
            let ghost names = unknown_filenames(unknowns@);
            let mut i: usize = 0;
            while i < unknowns.len()
                invariant
                    i <= unknowns@.len(),
                    selector@ == SelectorV::Tarball(filename@),
                    names == unknown_filenames(unknowns@),
                    forall|k: int| 0 <= k < i ==> #[trigger] names[k] != filename@,
                decreases unknowns.len() - i,
            {
                if str_eq(unknowns[i].filename.as_str(), filename.as_str()) {
                    proof {
                        lemma_first_index(names, filename@, i as int);
                    }
                    let u = &unknowns[i];
                    let f = u.filename.clone();
                    let sv = u.servers.clone();
                    assert(f@ == unknowns@[i as int].filename@);
                    assert(sv@ == unknowns@[i as int].servers@);
                    let t = ResolvedTarget::Unknown { filename: f, servers: sv };
                    assert(t@ == TargetV::Unknown { filename: unknowns@[i as int].filename@, servers: unknowns@[i as int].servers@ });
                    return Ok(t);
                }
                i = i + 1;
            }
            proof {
                lemma_first_index(names, filename@, i as int);
            }
            let mut e = "No unknown tarball named '".to_owned();
            e.append(filename.as_str());
            e.append("'");
            Err(e)
        },
    }
}

/// What resolving a bare family name for `build`/`deploy` gives.
pub open spec fn current_resolution(
    raw: Seq<char>,
    fams: Map<Seq<char>, ImageFamilyV>,
    known: Seq<Seq<char>>,
) -> Result<ManagedImageV, Seq<char>> {
    match parse_selector(raw) {
        SelectorV::Name(_) => match resolution(parse_selector(raw), fams, known, Seq::empty()) {
            Ok(TargetV::Current { image, .. }) => Ok(image),
            Ok(_) => Err(Seq::empty()),
            Err(e) => Err(e),
        },
        _ => Err(
            "'"@ + raw
                + "' -- only a bare family name is accepted here (version comes from the Dockerfile)"@,
        ),
    }
}

/// Resolves an argument that must be a bare family name to the family's
/// current image; `name:version` and `.tar` forms are refused.
pub fn resolve_current(raw: &str, families: &NameMap<ImageFamily>) -> (r: Result<ManagedImage, String>)
    requires
        families_wf(*families),
    ensures
        match r {
            Ok(img) => current_resolution(raw@, family_views(*families), families.key_seq()) == Ok::<ManagedImageV, Seq<char>>(img@) && img.wf(),
            Err(e) => current_resolution(raw@, family_views(*families), families.key_seq()) == Err::<ManagedImageV, Seq<char>>(e@),
        },
{
    let selector = ImageSelector::parse(raw);
    match &selector {
        ImageSelector::Name(_) => {},
        _ => {
            let mut e = "'".to_owned();
            e.append(raw);
            e.append("' -- only a bare family name is accepted here (version comes from the Dockerfile)");
            return Err(e);
        },
    }
    let none: Vec<crate::models::UnknownTarball> = Vec::new();
    match resolve(&selector, families, none.as_slice()) {
        Ok(ResolvedTarget::Current { image, .. }) => Ok(image),
        Ok(_) => {
            assert(false);
            Err(String::new())
        },
        Err(e) => Err(e),
    }
}

// ---------------------------------------------------------------------------
// Servers
// ---------------------------------------------------------------------------

/// Names of the configured servers, in order.
pub open spec fn server_names(cfg: Seq<Server>) -> Seq<Seq<char>> {
    cfg.map_values(|s: Server| s.name@)
}

/// The servers named, in the order named; the first name that no server has
/// is an error listing the configured names.
pub open spec fn pick_servers(names: Seq<Seq<char>>, cfg: Seq<Server>) -> Result<Seq<ServerV>, Seq<char>>
    decreases names.len(),
{
    if names.len() == 0 {
        Ok(Seq::empty())
    } else {
        match first_index_of(server_names(cfg), names[0]) {
            None => Err(
                "Unknown server '"@ + names[0] + "'. Configured servers: "@ + join_comma(
                    server_names(cfg),
                ),
            ),
            Some(i) => match pick_servers(names.drop_first(), cfg) {
                Ok(rest) => Ok(seq![cfg[i]@] + rest),
                Err(e) => Err(e),
            },
        }
    }
}

/// `-s/--server` names resolved against the configuration: no names means
/// every configured server.
pub open spec fn server_selection(names: Seq<Seq<char>>, cfg: Seq<Server>) -> Result<Seq<ServerV>, Seq<char>> {
    if names.len() == 0 {
        Ok(cfg.map_values(|s: Server| s@))
    } else {
        pick_servers(names, cfg)
    }
}

proof fn lemma_pick_prefix(names: Seq<Seq<char>>, cfg: Seq<Server>, i: int, picked: Seq<ServerV>)
    requires
        0 <= i < names.len(),
        first_index_of(server_names(cfg), names[i]) is Some,
    ensures
        pick_servers(names.skip(i), cfg) == match pick_servers(names.skip(i + 1), cfg) {
            Ok(rest) => Ok::<Seq<ServerV>, Seq<char>>(
                seq![cfg[first_index_of(server_names(cfg), names[i])->0]@] + rest,
            ),
            Err(e) => Err(e),
        },
{
    assert(names.skip(i).drop_first() =~= names.skip(i + 1));
    assert(names.skip(i)[0] == names[i]);
}

/// Resolves `-s/--server` names (see `server_selection`).
pub fn resolve_servers(names: &[String], configured: &[Server]) -> (r: Result<Vec<Server>, String>)
    ensures
        match r {
            Ok(v) => server_selection(view_names(names@), configured@) == Ok::<Seq<ServerV>, Seq<char>>(v@.map_values(|s: Server| s@)),
            Err(e) => server_selection(view_names(names@), configured@) == Err::<Seq<ServerV>, Seq<char>>(e@),
        },
{
    let ghost ns = view_names(names@);
    let ghost cnames = server_names(configured@);
    if names.len() == 0 {
        let mut all: Vec<Server> = Vec::new();
        let mut k: usize = 0;
        while k < configured.len()
            invariant
                k <= configured@.len(),
                all@.len() == k,
                forall|j: int| 0 <= j < k ==> (#[trigger] all@[j])@ == configured@[j]@,
            decreases configured.len() - k,
        {
            all.push(configured[k].clone());
            k = k + 1;
        }
        assert(all@.map_values(|s: Server| s@) =~= configured@.map_values(|s: Server| s@));
        return Ok(all);
    }
    let mut resolved: Vec<Server> = Vec::new();
    let mut i: usize = 0;
    assert(ns.skip(0) =~= ns);
    while i < names.len()
        invariant
            i <= names@.len(),
            ns == view_names(names@),
            cnames == server_names(configured@),
            pick_servers(ns, configured@) == match pick_servers(ns.skip(i as int), configured@) {
                Ok(rest) => Ok::<Seq<ServerV>, Seq<char>>(resolved@.map_values(|s: Server| s@) + rest),
                Err(e) => Err(e),
            },
        decreases names.len() - i,
    {
        let name = names[i].as_str();
        let found = find_server(configured, name);
        if let Some(j) = found {
            proof {
                lemma_pick_prefix(ns, configured@, i as int, resolved@.map_values(|s: Server| s@));
            }
            let ghost before = resolved@.map_values(|s: Server| s@);
            resolved.push(configured[j].clone());
            proof {
                let c = configured@[j as int]@;
                assert(resolved@.map_values(|s: Server| s@) =~= before.push(c));
                match pick_servers(ns.skip(i + 1), configured@) {
                    Ok(r2) => {
                        assert(before + (seq![c] + r2) =~= before.push(c) + r2);
                    },
                    Err(_) => {},
                }
            }
            i = i + 1;
        } else {
            proof {
                assert(ns.skip(i as int)[0] == name@);
            }
            let known = collect_names(configured);
            let mut e = "Unknown server '".to_owned();
            e.append(name);
            e.append("'. Configured servers: ");
            e.append(known.as_str());
            return Err(e);
        }
    }
    proof {
        assert(ns.skip(names.len() as int) =~= Seq::<Seq<char>>::empty());
        assert(resolved@.map_values(|s: Server| s@) + Seq::<ServerV>::empty() =~= resolved@.map_values(|s: Server| s@));
    }
    Ok(resolved)
}

/// Index of the first configured server called `name`.
fn find_server(configured: &[Server], name: &str) -> (r: Option<usize>)
    ensures
        match r {
            Some(j) => j < configured@.len() && first_index_of(server_names(configured@), name@) == Some(j as int),
            None => first_index_of(server_names(configured@), name@) is None,
        },
{
    let ghost cnames = server_names(configured@);
    let mut j: usize = 0;
    while j < configured.len()
        invariant
            j <= configured@.len(),
            cnames == server_names(configured@),
            forall|k: int| 0 <= k < j ==> #[trigger] cnames[k] != name@,
        decreases configured.len() - j,
    {
        if str_eq(configured[j].name.as_str(), name) {
            proof {
                lemma_first_index(cnames, name@, j as int);
            }
            return Some(j);
        }
        j = j + 1;
    }
    proof {
        lemma_first_index(cnames, name@, j as int);
    }
    None
}

/// The configured server names joined by `, `.
fn collect_names(configured: &[Server]) -> (r: String)
    ensures
        r@ == join_comma(server_names(configured@)),
{
    let mut v: Vec<String> = Vec::new();
    let mut k: usize = 0;
    while k < configured.len()
        invariant
            k <= configured@.len(),
            view_names(v@) == server_names(configured@).take(k as int),
        decreases configured.len() - k,
    {
        let ghost before = v@;
        v.push(configured[k].name.clone());
        assert(view_names(v@) =~= view_names(before).push(configured@[k as int].name@));
        assert(server_names(configured@).take(k + 1) =~= server_names(configured@).take(k as int).push(configured@[k as int].name@));
        k = k + 1;
    }
    assert(server_names(configured@).take(configured.len() as int) =~= server_names(configured@));
    join_comma_exec(&v)
}

} // verus!
