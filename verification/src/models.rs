//! The inventory's data model: discovered image families, remote tarballs,
//! table rows and configuration.
use vstd::prelude::*;

use crate::names::{view_names, NameMap, NameSet};

verus! {

// ---------------------------------------------------------------------------
// Build state
// ---------------------------------------------------------------------------

#[derive(Debug, PartialEq, Eq)]
pub enum BuildState {
    Idle,
    Building,
    Failed(String),
    Success,
}

pub enum BuildStateV {
    Idle,
    Building,
    Failed(Seq<char>),
    Success,
}

impl View for BuildState {
    type V = BuildStateV;

    open spec fn view(&self) -> BuildStateV {
        match self {
            BuildState::Idle => BuildStateV::Idle,
            BuildState::Building => BuildStateV::Building,
            BuildState::Failed(e) => BuildStateV::Failed(e@),
            BuildState::Success => BuildStateV::Success,
        }
    }
}

impl Clone for BuildState {
    fn clone(&self) -> (r: BuildState)
        ensures
            r@ == self@,
    {
        match self {
            BuildState::Idle => BuildState::Idle,
            BuildState::Building => BuildState::Building,
            BuildState::Failed(e) => BuildState::Failed(e.clone()),
            BuildState::Success => BuildState::Success,
        }
    }
}

impl Default for BuildState {
    fn default() -> (r: BuildState)
        ensures
            r == BuildState::Idle,
    {
        BuildState::Idle
    }
}

/// A copy of a list of strings with the same contents.
pub fn clone_strings(v: &Vec<String>) -> (r: Vec<String>)
    ensures
        view_names(r@) == view_names(v@),
{
    let mut r: Vec<String> = Vec::new();
    let mut i: usize = 0;
    while i < v.len()
        invariant
            i <= v.len(),
            view_names(r@) == view_names(v@).take(i as int),
        decreases v.len() - i,
    {
        let c = v[i].clone();
        let ghost before = r@;
        r.push(c);
        assert(view_names(r@) =~= view_names(before).push(c@));
        assert(view_names(v@).take(i + 1) =~= view_names(v@).take(i as int).push(v@[i as int]@));
        i = i + 1;
    }
    assert(view_names(v@).take(v.len() as int) =~= view_names(v@));
    r
}

/// A copy of an optional string.
pub fn clone_opt_string(o: &Option<String>) -> (r: Option<String>)
    ensures
        opt_view(r) == opt_view(*o),
{
    match o {
        Some(s) => Some(s.clone()),
        None => None,
    }
}

/// The character view of an optional string.
pub open spec fn opt_view(o: Option<String>) -> Option<Seq<char>> {
    match o {
        Some(s) => Some(s@),
        None => None,
    }
}

// ---------------------------------------------------------------------------
// Name-keyed collections of model values
// ---------------------------------------------------------------------------

/// Version -> set of servers; every held set is well formed.
pub open spec fn version_servers_wf(m: NameMap<NameSet>) -> bool {
    &&& m.wf()
    &&& forall|i: int| 0 <= i < m.vals.len() ==> (#[trigger] m.vals@[i]).wf()
}

/// The sets a version map holds, as plain sets.
pub open spec fn version_servers_view(m: NameMap<NameSet>) -> Map<Seq<char>, Set<Seq<char>>> {
    m@.map_values(|s: NameSet| s@)
}

impl Clone for NameMap<bool> {
    fn clone(&self) -> (r: NameMap<bool>)
        ensures
            r.keys.len() == self.keys.len(),
            r.key_seq() == self.key_seq(),
            r.vals@ == self.vals@,
            r@ == self@,
    {
        let keys = clone_strings(&self.keys);
        let mut vals: Vec<bool> = Vec::new();
        let mut i: usize = 0;
        while i < self.vals.len()
            invariant
                i <= self.vals.len(),
                vals@ == self.vals@.take(i as int),
            decreases self.vals.len() - i,
        {
            vals.push(self.vals[i]);
            assert(self.vals@.take(i + 1) =~= self.vals@.take(i as int).push(self.vals@[i as int]));
            i = i + 1;
        }
        assert(self.vals@.take(self.vals.len() as int) =~= self.vals@);
        let r = NameMap { keys, vals };
        assert(r@ =~= self@);
        r
    }
}

impl Clone for NameMap<NameSet> {
    fn clone(&self) -> (r: NameMap<NameSet>)
        ensures
            r.keys.len() == self.keys.len(),
            r.key_seq() == self.key_seq(),
            r.vals.len() == self.vals.len(),
            forall|i: int|
                0 <= i < self.vals.len() ==> (#[trigger] r.vals@[i]).elems()
                    == self.vals@[i].elems(),
            self.wf() ==> version_servers_view(r) == version_servers_view(*self),
            version_servers_wf(*self) ==> version_servers_wf(r),
    {
        let keys = clone_strings(&self.keys);
        let mut vals: Vec<NameSet> = Vec::new();
        let mut i: usize = 0;
        while i < self.vals.len()
            invariant
                i <= self.vals.len(),
                vals.len() == i,
                forall|j: int| 0 <= j < i ==> (#[trigger] vals@[j]).elems() == self.vals@[j].elems(),
            decreases self.vals.len() - i,
        {
            vals.push(self.vals[i].clone());
            i = i + 1;
        }
        let r = NameMap { keys, vals };
        assert(r.key_seq() == self.key_seq());
        proof {
        if self.wf() {
            assert(version_servers_view(r) =~= version_servers_view(*self)) by {
                assert forall|k: Seq<char>| #[trigger] r@.contains_key(k) implies r@[k]@
                    == self@[k]@ by {
                    assert(r.key_seq().contains(k));
                    let j = r.key_seq().index_of(k);
                    assert(0 <= j < r.keys.len());
                    assert(r.vals@[j].elems() == self.vals@[j].elems());
                }
            }
        }
        }
        r
    }
}

// ---------------------------------------------------------------------------
// Images and families
// ---------------------------------------------------------------------------

/// An image built from a local Dockerfile at the version its comment names.
#[derive(Debug)]
pub struct ManagedImage {
    pub name: String,
    pub version: String,
    pub dockerfile_path: String,
    pub context_dir: String,
    pub local_tarball: bool,
    pub server_presence: NameMap<bool>,
    pub build_state: BuildState,
    pub build_log: Vec<String>,
}

#[verifier::ext_equal]
pub struct ManagedImageV {
    pub name: Seq<char>,
    pub version: Seq<char>,
    pub dockerfile_path: Seq<char>,
    pub context_dir: Seq<char>,
    pub local_tarball: bool,
    pub server_presence: Map<Seq<char>, bool>,
    pub build_state: BuildStateV,
    pub build_log: Seq<Seq<char>>,
}

impl View for ManagedImage {
    type V = ManagedImageV;

    open spec fn view(&self) -> ManagedImageV {
        ManagedImageV {
            name: self.name@,
            version: self.version@,
            dockerfile_path: self.dockerfile_path@,
            context_dir: self.context_dir@,
            local_tarball: self.local_tarball,
            server_presence: self.server_presence@,
            build_state: self.build_state@,
            build_log: view_names(self.build_log@),
        }
    }
}

impl ManagedImage {
    pub open spec fn wf(&self) -> bool {
        self.server_presence.wf()
    }

    /// True when some server reports this image's tarball.
    pub fn present_on_any_server(&self) -> (r: bool)
        requires
            self.wf(),
        ensures
            r == exists|k: Seq<char>| #[trigger]
                self.server_presence@.contains_key(k) && self.server_presence@[k],
    {
        let mut i: usize = 0;
        while i < self.server_presence.vals.len()
            invariant
                self.wf(),
                i <= self.server_presence.vals.len(),
                forall|j: int| 0 <= j < i ==> !(#[trigger] self.server_presence.vals@[j]),
            decreases self.server_presence.vals.len() - i,
        {
            if self.server_presence.vals[i] {
                proof {
                    self.server_presence.lemma_entry(i as int);
                    let k = self.server_presence.key_seq()[i as int];
                    assert(self.server_presence@.contains_key(k) && self.server_presence@[k]);
                }
                return true;
            }
            i = i + 1;
        }
        proof {
            assert forall|k: Seq<char>| #[trigger]
                self.server_presence@.contains_key(k) implies !self.server_presence@[k] by {
                let j = self.server_presence.lemma_key_index(k);
            }
        }
        false
    }
}

impl Clone for ManagedImage {
    fn clone(&self) -> (r: ManagedImage)
        ensures
            r@ == self@,
            self.wf() ==> r.wf(),
    {
        let build_log = clone_strings(&self.build_log);
        ManagedImage {
            name: self.name.clone(),
            version: self.version.clone(),
            dockerfile_path: self.dockerfile_path.clone(),
            context_dir: self.context_dir.clone(),
            local_tarball: self.local_tarball,
            server_presence: self.server_presence.clone(),
            build_state: self.build_state.clone(),
            build_log,
        }
    }
}

/// All known versions of one image: the current one (from its Dockerfile)
/// and stale ones found on servers.
#[derive(Debug)]
pub struct ImageFamily {
    pub name: String,
    pub current_version: Option<String>,
    pub current: Option<ManagedImage>,
    pub stale_versions: NameSet,
    pub remote_presence: NameMap<NameSet>,
}

#[verifier::ext_equal]
pub struct ImageFamilyV {
    pub name: Seq<char>,
    pub current_version: Option<Seq<char>>,
    pub current: Option<ManagedImageV>,
    pub stale_versions: Set<Seq<char>>,
    pub remote_presence: Map<Seq<char>, Set<Seq<char>>>,
}

impl View for ImageFamily {
    type V = ImageFamilyV;

    open spec fn view(&self) -> ImageFamilyV {
        ImageFamilyV {
            name: self.name@,
            current_version: opt_view(self.current_version),
            current: match self.current {
                Some(c) => Some(c@),
                None => None,
            },
            stale_versions: self.stale_versions@,
            remote_presence: version_servers_view(self.remote_presence),
        }
    }
}

impl ImageFamily {
    pub open spec fn wf(&self) -> bool {
        &&& self.stale_versions.wf()
        &&& version_servers_wf(self.remote_presence)
        &&& match self.current {
            Some(c) => c.wf(),
            None => true,
        }
    }
}

impl Clone for ImageFamily {
    fn clone(&self) -> (r: ImageFamily)
        ensures
            self.wf() ==> r@ == self@,
            r.stale_versions.elems() == self.stale_versions.elems(),
            self.wf() ==> r.wf(),
    {
        let current = match &self.current {
            Some(c) => Some(c.clone()),
            None => None,
        };
        ImageFamily {
            name: self.name.clone(),
            current_version: clone_opt_string(&self.current_version),
            current,
            stale_versions: self.stale_versions.clone(),
            remote_presence: self.remote_presence.clone(),
        }
    }
}

/// A remote tarball that matches no known family.
#[derive(Debug)]
pub struct UnknownTarball {
    pub filename: String,
    pub servers: NameSet,
}

impl UnknownTarball {
    pub open spec fn wf(&self) -> bool {
        self.servers.wf()
    }
}

impl Clone for UnknownTarball {
    fn clone(&self) -> (r: UnknownTarball)
        ensures
            r.filename@ == self.filename@,
            r.servers.elems() == self.servers.elems(),
            r.servers@ == self.servers@,
    {
        UnknownTarball { filename: self.filename.clone(), servers: self.servers.clone() }
    }
}

/// One line of the inventory table.
#[derive(Debug)]
pub enum ImageTableRow {
    Current(ManagedImage),
    Stale { family_name: String, version: String, servers: NameSet },
    Unknown(UnknownTarball),
}

impl ImageTableRow {
    pub open spec fn wf(&self) -> bool {
        match self {
            ImageTableRow::Current(img) => img.wf(),
            ImageTableRow::Stale { servers, .. } => servers.wf(),
            ImageTableRow::Unknown(u) => u.wf(),
        }
    }
}

impl Clone for ImageTableRow {
    fn clone(&self) -> (r: ImageTableRow)
        ensures
            same_row(r, *self),
            r@ == self@,
            self.wf() ==> r.wf(),
    {
        match self {
            ImageTableRow::Current(img) => ImageTableRow::Current(img.clone()),
            ImageTableRow::Stale { family_name, version, servers } => ImageTableRow::Stale {
                family_name: family_name.clone(),
                version: version.clone(),
                servers: servers.clone(),
            },
            ImageTableRow::Unknown(u) => ImageTableRow::Unknown(u.clone()),
        }
    }
}

/// What a table row shows.
pub enum RowV {
    Current(ManagedImageV),
    Stale { family_name: Seq<char>, version: Seq<char>, servers: Set<Seq<char>> },
    Unknown { filename: Seq<char>, servers: Set<Seq<char>> },
}

impl View for ImageTableRow {
    type V = RowV;

    open spec fn view(&self) -> RowV {
        match self {
            ImageTableRow::Current(img) => RowV::Current(img@),
            ImageTableRow::Stale { family_name, version, servers } => RowV::Stale {
                family_name: family_name@,
                version: version@,
                servers: servers@,
            },
            ImageTableRow::Unknown(u) => RowV::Unknown { filename: u.filename@, servers: u.servers@ },
        }
    }
}

/// Two rows carry the same content.
pub open spec fn same_row(a: ImageTableRow, b: ImageTableRow) -> bool {
    match (a, b) {
        (ImageTableRow::Current(x), ImageTableRow::Current(y)) => x@ == y@,
        (
            ImageTableRow::Stale { family_name: f1, version: v1, servers: s1 },
            ImageTableRow::Stale { family_name: f2, version: v2, servers: s2 },
        ) => f1@ == f2@ && v1@ == v2@ && s1.elems() == s2.elems(),
        (ImageTableRow::Unknown(x), ImageTableRow::Unknown(y)) => x.filename@ == y.filename@
            && x.servers.elems() == y.servers.elems(),
        _ => false,
    }
}

// ---------------------------------------------------------------------------
// Configuration
// ---------------------------------------------------------------------------

/// A cluster node reached over SSH.
#[derive(Debug)]
pub struct Server {
    pub name: String,
    pub host: String,
    pub user: String,
    pub port: u16,
    pub identity_file: Option<String>,
}

pub struct ServerV {
    pub name: Seq<char>,
    pub host: Seq<char>,
    pub user: Seq<char>,
    pub port: u16,
    pub identity_file: Option<Seq<char>>,
}

impl View for Server {
    type V = ServerV;

    open spec fn view(&self) -> ServerV {
        ServerV {
            name: self.name@,
            host: self.host@,
            user: self.user@,
            port: self.port,
            identity_file: opt_view(self.identity_file),
        }
    }
}

impl Clone for Server {
    fn clone(&self) -> (r: Server)
        ensures
            r@ == self@,
    {
        Server {
            name: self.name.clone(),
            host: self.host.clone(),
            user: self.user.clone(),
            port: self.port,
            identity_file: clone_opt_string(&self.identity_file),
        }
    }
}

/// The SSH port a server entry gets when the configuration names none.
pub fn default_port() -> (p: u16)
    ensures
        p == 22,
{
    22
}

/// Directories and registry the tool works with.
#[derive(Debug)]
pub struct PathsConfig {
    pub server_images_dir: String,
    pub staging_dir: String,
    pub rke2_images_dir: String,
    pub image_registry: String,
}

impl Clone for PathsConfig {
    fn clone(&self) -> (r: PathsConfig)
        ensures
            r.server_images_dir@ == self.server_images_dir@,
            r.staging_dir@ == self.staging_dir@,
            r.rke2_images_dir@ == self.rke2_images_dir@,
            r.image_registry@ == self.image_registry@,
    {
        PathsConfig {
            server_images_dir: self.server_images_dir.clone(),
            staging_dir: self.staging_dir.clone(),
            rke2_images_dir: self.rke2_images_dir.clone(),
            image_registry: self.image_registry.clone(),
        }
    }
}

/// The whole configuration file.
#[derive(Debug)]
pub struct Config {
    pub paths: PathsConfig,
    pub servers: Vec<Server>,
}

impl Default for Config {
    fn default() -> (r: Config)
        ensures
            r.paths.server_images_dir@ == Seq::<char>::empty(),
            r.paths.staging_dir@ == Seq::<char>::empty(),
            r.paths.rke2_images_dir@ == Seq::<char>::empty(),
            r.paths.image_registry@ == Seq::<char>::empty(),
            r.servers@ == Seq::<Server>::empty(),
    {
        Config {
            paths: PathsConfig {
                server_images_dir: String::new(),
                staging_dir: String::new(),
                rke2_images_dir: String::new(),
                image_registry: String::new(),
            },
            servers: Vec::new(),
        }
    }
}

/// A copy of a server list with the same entries.
pub fn clone_servers(v: &Vec<Server>) -> (r: Vec<Server>)
    ensures
        r.len() == v.len(),
        forall|i: int| 0 <= i < v.len() ==> (#[trigger] r@[i])@ == v@[i]@,
{
    let mut r: Vec<Server> = Vec::new();
    let mut i: usize = 0;
    while i < v.len()
        invariant
            i <= v.len(),
            r.len() == i,
            forall|j: int| 0 <= j < i ==> (#[trigger] r@[j])@ == v@[j]@,
        decreases v.len() - i,
    {
        r.push(v[i].clone());
        i = i + 1;
    }
    r
}

impl Clone for Config {
    fn clone(&self) -> (r: Config)
        ensures
            r.paths.server_images_dir@ == self.paths.server_images_dir@,
            r.paths.staging_dir@ == self.paths.staging_dir@,
            r.paths.rke2_images_dir@ == self.paths.rke2_images_dir@,
            r.paths.image_registry@ == self.paths.image_registry@,
            r.servers.len() == self.servers.len(),
            forall|i: int| 0 <= i < self.servers.len() ==> (#[trigger] r.servers@[i])@ == self.servers@[i]@,
    {
        Config { paths: self.paths.clone(), servers: clone_servers(&self.servers) }
    }
}

/// Outcome of the latest scan of one server.
#[derive(Debug, PartialEq, Eq)]
pub enum ScanStatus {
    Pending,
    Succeeded,
    Error(String),
}

pub enum ScanStatusV {
    Pending,
    Succeeded,
    Error(Seq<char>),
}

impl View for ScanStatus {
    type V = ScanStatusV;

    open spec fn view(&self) -> ScanStatusV {
        match self {
            ScanStatus::Pending => ScanStatusV::Pending,
            ScanStatus::Succeeded => ScanStatusV::Succeeded,
            ScanStatus::Error(e) => ScanStatusV::Error(e@),
        }
    }
}

impl Clone for ScanStatus {
    fn clone(&self) -> (r: ScanStatus)
        ensures
            r is Pending <==> self is Pending,
            r is Succeeded <==> self is Succeeded,
            r is Error <==> self is Error,
            r is Error ==> r->Error_0@ == self->Error_0@,
            r@ == self@,
    {
        match self {
            ScanStatus::Pending => ScanStatus::Pending,
            ScanStatus::Succeeded => ScanStatus::Succeeded,
            ScanStatus::Error(e) => ScanStatus::Error(e.clone()),
        }
    }
}

} // verus!
