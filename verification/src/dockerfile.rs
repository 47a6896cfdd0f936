//! Dockerfile discovery: which files under the images directory define an
//! image, under what name, and at which version.
use vstd::prelude::*;

use crate::models::{BuildState, BuildStateV, ImageFamily, ImageFamilyV, ManagedImage, ManagedImageV};
use crate::names::{view_names, NameMap, NameSet};
use crate::remote::families_wf;
use crate::strings::{
    ends_with, is_whitespace, is_ws, lemma_trim_props, push_char, seq_ends_with, str_eq, trim,
    trim_seq,
};

verus! {

// ---------------------------------------------------------------------------
// Version comments
// ---------------------------------------------------------------------------

pub open spec fn is_digit(c: char) -> bool {
    0x30 <= (c as u32) && (c as u32) <= 0x39
}

/// The leading run of non-whitespace characters.
pub open spec fn word(s: Seq<char>) -> Seq<char>
    decreases s.len(),
{
    if s.len() == 0 || is_ws(s[0]) {
        Seq::empty()
    } else {
        seq![s[0]] + word(s.drop_first())
    }
}

/// The version a comment names: after trimming, `v` and a digit, or a
/// digit, up to the first whitespace.
pub open spec fn version_of(comment: Seq<char>) -> Option<Seq<char>> {
    let c = trim_seq(comment);
    if c.len() == 0 {
        None
    } else if c[0] == 'v' && c.len() > 1 && is_digit(c[1]) {
        Some(seq!['v'] + word(c.drop_first()))
    } else if is_digit(c[0]) {
        Some(word(c))
    } else {
        None
    }
}

proof fn lemma_word_prefix(s: Seq<char>, end: int)
    requires
        0 <= end <= s.len(),
        forall|k: int| 0 <= k < end ==> !is_ws(#[trigger] s[k]),
        end == s.len() || is_ws(s[end]),
    ensures
        word(s) == s.take(end),
    decreases s.len(),
{
    if end > 0 {
        let t = s.drop_first();
        assert forall|k: int| 0 <= k < end - 1 implies !is_ws(#[trigger] t[k]) by {
            assert(t[k] == s[k + 1]);
        }
        if end < s.len() {
            assert(t[end - 1] == s[end]);
        }
        lemma_word_prefix(t, end - 1);
        assert(seq![s[0]] + t.take(end - 1) =~= s.take(end));
    } else {
        assert(s.take(0) =~= Seq::<char>::empty());
    }
}

/// The leading non-whitespace run of `s`.
fn first_word(s: &str) -> (r: &str)
    ensures
        r@ == word(s@),
{
    let n = s.unicode_len();
    let mut end: usize = 0;
    while end < n && !is_whitespace(s.get_char(end))
        invariant
            end <= n,
            n == s@.len(),
            forall|k: int| 0 <= k < end ==> !is_ws(#[trigger] s@[k]),
        decreases n - end,
    {
        end = end + 1;
    }
    proof {
        lemma_word_prefix(s@, end as int);
        assert(s@.subrange(0, end as int) =~= s@.take(end as int));
    }
    s.substring_char(0, end)
}

fn is_ascii_digit(c: char) -> (r: bool)
    ensures
        r == is_digit(c),
{
    let u = c as u32;
    0x30 <= u && u <= 0x39
}

/// The version named by a Dockerfile comment (see `version_of`): `v1.2.3`
/// or `1.2.3`, cut at the first whitespace; `None` for anything else.
pub fn parse_version_comment(comment: &str) -> (r: Option<String>)
    ensures
        match r {
            Some(v) => version_of(comment@) == Some(v@),
            None => version_of(comment@) is None,
        },
{
    let c = trim(comment);
    let n = c.unicode_len();
    if n == 0 {
        return None;
    }
    let first = c.get_char(0);
    if first == 'v' && n > 1 && is_ascii_digit(c.get_char(1)) {
        let rest = c.substring_char(1, n);
        assert(rest@ =~= c@.drop_first());
        let w = first_word(rest);
        let mut version = String::new();
        push_char(&mut version, 'v');
        version.append(w);
        return Some(version);
    }
    if is_ascii_digit(first) {
        let w = first_word(c);
        return Some(w.to_owned());
    }
    None
}

/// Number of leading `#` characters.
pub open spec fn hash_prefix_len(s: Seq<char>) -> nat
    decreases s.len(),
{
    if s.len() > 0 && s[0] == '#' {
        1 + hash_prefix_len(s.drop_first())
    } else {
        0
    }
}

proof fn lemma_hash_prefix(s: Seq<char>, i: int)
    requires
        0 <= i <= s.len(),
        forall|k: int| 0 <= k < i ==> #[trigger] s[k] == '#',
        i == s.len() || s[i] != '#',
    ensures
        hash_prefix_len(s) == i,
    decreases i,
{
    if i > 0 {
        let t = s.drop_first();
        assert forall|k: int| 0 <= k < i - 1 implies #[trigger] t[k] == '#' by {
            assert(t[k] == s[k + 1]);
        }
        if i < s.len() {
            assert(t[i - 1] == s[i]);
        }
        lemma_hash_prefix(t, i - 1);
    }
}

/// The version a Dockerfile line names: a trimmed line starting with `#`,
/// whose text after the `#`s parses as a version comment.
pub open spec fn line_version(line: Seq<char>) -> Option<Seq<char>> {
    let t = trim_seq(line);
    if t.len() > 0 && t[0] == '#' {
        version_of(trim_seq(t.skip(hash_prefix_len(t) as int)))
    } else {
        None
    }
}

/// The version named by the first line that names one.
pub open spec fn first_version(lines: Seq<Seq<char>>) -> Option<Seq<char>>
    decreases lines.len(),
{
    if lines.len() == 0 {
        None
    } else {
        match line_version(lines[0]) {
            Some(v) => Some(v),
            None => first_version(lines.drop_first()),
        }
    }
}

/// The version of a Dockerfile, from its lines (see `first_version`).
pub fn extract_version(lines: &Vec<String>) -> (r: Option<String>)
    ensures
        match r {
            Some(v) => first_version(view_names(lines@)) == Some(v@),
            None => first_version(view_names(lines@)) is None,
        },
{
    let ghost ls = view_names(lines@);
    let mut i: usize = 0;
    assert(ls.skip(0) =~= ls);
    while i < lines.len()
        invariant
            i <= lines.len(),
            ls == view_names(lines@),
            first_version(ls) == first_version(ls.skip(i as int)),
        decreases lines.len() - i,
    {
        let ghost rest = ls.skip(i as int);
        assert(rest[0] == lines@[i as int]@);
        assert(rest.drop_first() =~= ls.skip(i + 1));
        let t = trim(lines[i].as_str());
        let n = t.unicode_len();
        if n > 0 && t.get_char(0) == '#' {
            let mut h: usize = 0;
            while h < n && t.get_char(h) == '#'
                invariant
                    h <= n,
                    n == t@.len(),
                    forall|k: int| 0 <= k < h ==> #[trigger] t@[k] == '#',
                decreases n - h,
            {
                h = h + 1;
            }
            proof {
                lemma_hash_prefix(t@, h as int);
            }
            let after = t.substring_char(h, n);
            assert(after@ =~= t@.skip(h as int));
            let comment = trim(after);
            match parse_version_comment(comment) {
                Some(v) => {
                    proof {
                        lemma_trim_props(after@);
                    }
                    return Some(v);
                },
                None => {
                    proof {
                        lemma_trim_props(after@);
                    }
                },
            }
        }
        i = i + 1;
    }
    assert(ls.skip(lines.len() as int) =~= Seq::<Seq<char>>::empty());
    None
}

// ---------------------------------------------------------------------------
// Which files are Dockerfiles
// ---------------------------------------------------------------------------

/// Path components joined by `/`.
pub open spec fn join_slash(parts: Seq<Seq<char>>) -> Seq<char>
    decreases parts.len(),
{
    if parts.len() == 0 {
        Seq::empty()
    } else if parts.len() == 1 {
        parts[0]
    } else {
        join_slash(parts.drop_last()) + seq!['/'] + parts.last()
    }
}

/// What a file at `rel` (its path components below the images directory)
/// defines: `(name, dockerfile path, build context)`.
///
/// A file named `Dockerfile` in a subdirectory names its directory's image,
/// built in that directory. A file `<name>.dockerfile` names `<name>`, built
/// in its own directory (`.` at the top). Other files define nothing.
pub open spec fn classify(rel: Seq<Seq<char>>) -> Option<(Seq<char>, Seq<char>, Seq<char>)> {
    if rel.len() == 0 {
        None
    } else {
        let file = rel.last();
        let parent = rel.drop_last();
        if file == "Dockerfile"@ {
            if parent.len() == 0 {
                None
            } else {
                Some((parent.last(), file, join_slash(parent)))
            }
        } else if seq_ends_with(file, ".dockerfile"@) {
            Some(
                (
                    file.take(file.len() - 11),
                    file,
                    if parent.len() == 0 {
                        "."@
                    } else {
                        join_slash(parent)
                    },
                ),
            )
        } else {
            None
        }
    }
}

/// `parts` joined by `/`.
fn join_components(parts: &Vec<String>, count: usize) -> (r: String)
    requires
        count <= parts.len(),
    ensures
        r@ == join_slash(view_names(parts@).take(count as int)),
{
    let ghost ps = view_names(parts@);
    let mut r = String::new();
    let mut i: usize = 0;
    assert(ps.take(0) =~= Seq::<Seq<char>>::empty());
    while i < count
        invariant
            i <= count,
            count <= parts.len(),
            ps == view_names(parts@),
            r@ == join_slash(ps.take(i as int)),
        decreases count - i,
    {
        if i > 0 {
            push_char(&mut r, '/');
        }
        r.append(parts[i].as_str());
        proof {
            let t = ps.take(i + 1);
            assert(t.drop_last() =~= ps.take(i as int));
            assert(t.last() == parts@[i as int]@);
            if i == 0 {
                assert(Seq::<char>::empty() + t[0] =~= t[0]);
            }
        }
        i = i + 1;
    }
    r
}

/// The image a file defines, from its path components below the images
/// directory (see `classify`).
pub fn classify_dockerfile(rel: &Vec<String>) -> (r: Option<(String, String, String)>)
    ensures
        match r {
            Some((name, df, ctx)) => classify(view_names(rel@)) == Some((name@, df@, ctx@)),
            None => classify(view_names(rel@)) is None,
        },
{
    let ghost rs = view_names(rel@);
    let n = rel.len();
    if n == 0 {
        return None;
    }
    let file = rel[n - 1].as_str();
    assert(rs.last() == file@);
    assert(rs.drop_last() =~= rs.take(n - 1));
    if str_eq(file, "Dockerfile") {
        if n == 1 {
            return None;
        }
        let name = rel[n - 2].clone();
        assert(rs.drop_last().last() == name@);
        let ctx = join_components(rel, n - 1);
        return Some((name, file.to_owned(), ctx));
    }
    if ends_with(file, ".dockerfile") {
        proof {
            reveal_strlit(".dockerfile");
        }
        let len = file.unicode_len();
        let stem = file.substring_char(0, len - 11);
        assert(stem@ =~= file@.take(len - 11));
        let ctx = if n == 1 {
            ".".to_owned()
        } else {
            join_components(rel, n - 1)
        };
        return Some((stem.to_owned(), file.to_owned(), ctx));
    }
    None
}

// ---------------------------------------------------------------------------
// Discovery
// ---------------------------------------------------------------------------

/// One item met while walking the images directory, in walk order.
pub enum ScanEntry {
    /// A directory whose listing failed, as displayed, and the error text.
    Unreadable { dir: String, error: String },
    /// A regular file: its path components below the images directory, its
    /// path as displayed, and the lines that could be read from it.
    File { rel: Vec<String>, display: String, lines: Vec<String> },
}

pub enum ScanEntryV {
    Unreadable { dir: Seq<char>, error: Seq<char> },
    File { rel: Seq<Seq<char>>, display: Seq<char>, lines: Seq<Seq<char>> },
}

impl View for ScanEntry {
    type V = ScanEntryV;

    open spec fn view(&self) -> ScanEntryV {
        match self {
            ScanEntry::Unreadable { dir, error } => ScanEntryV::Unreadable {
                dir: dir@,
                error: error@,
            },
            ScanEntry::File { rel, display, lines } => ScanEntryV::File {
                rel: view_names(rel@),
                display: display@,
                lines: view_names(lines@),
            },
        }
    }
}

/// The families found and the warnings raised on the way.
pub struct DiscoveryResult {
    pub families: NameMap<ImageFamily>,
    pub warnings: Vec<String>,
}

/// The families of a map, by their views.
pub open spec fn families_view(m: NameMap<ImageFamily>) -> Map<Seq<char>, ImageFamilyV> {
    m@.map_values(|f: ImageFamily| f@)
}

/// A freshly discovered family: its Dockerfile's image is current, nothing
/// has been seen on any server, nothing is built.
pub open spec fn fresh_family(
    name: Seq<char>,
    version: Seq<char>,
    dockerfile_path: Seq<char>,
    context_dir: Seq<char>,
) -> ImageFamilyV {
    ImageFamilyV {
        name: name,
        current_version: Some(version),
        current: Some(
            ManagedImageV {
                name: name,
                version: version,
                dockerfile_path: dockerfile_path,
                context_dir: context_dir,
                local_tarball: false,
                server_presence: Map::empty(),
                build_state: BuildStateV::Idle,
                build_log: Seq::empty(),
            },
        ),
        stale_versions: Set::empty(),
        remote_presence: Map::empty(),
    }
}

pub open spec fn read_failed_warning(dir: Seq<char>, error: Seq<char>) -> Seq<char> {
    "Failed to read "@ + dir + ": "@ + error
}

pub open spec fn duplicate_warning(name: Seq<char>, display: Seq<char>) -> Seq<char> {
    "Duplicate image name '"@ + name + "' at "@ + display + "; skipping"@
}

pub open spec fn no_version_warning(display: Seq<char>) -> Seq<char> {
    "No version comment found in "@ + display + " -- using 'latest'"@
}

/// Families and warnings after the given entries, in order. The first file
/// to claim a name defines it; later ones are skipped with a warning. A
/// Dockerfile without a version comment gets version `latest` and a warning.
pub open spec fn discovered(entries: Seq<ScanEntryV>) -> (
    Map<Seq<char>, ImageFamilyV>,
    Seq<Seq<char>>,
)
    decreases entries.len(),
{
    if entries.len() == 0 {
        (Map::empty(), Seq::empty())
    } else {
        let (fams, warns) = discovered(entries.drop_last());
        match entries.last() {
            ScanEntryV::Unreadable { dir, error } => (
                fams,
                warns.push(read_failed_warning(dir, error)),
            ),
            ScanEntryV::File { rel, display, lines } => match classify(rel) {
                None => (fams, warns),
                Some((name, df, ctx)) => if fams.contains_key(name) {
                    (fams, warns.push(duplicate_warning(name, display)))
                } else {
                    match first_version(lines) {
                        Some(v) => (fams.insert(name, fresh_family(name, v, df, ctx)), warns),
                        None => (
                            fams.insert(name, fresh_family(name, "latest"@, df, ctx)),
                            warns.push(no_version_warning(display)),
                        ),
                    }
                },
            },
        }
    }
}

/// Every discovered family is stored under its own name, with a current
/// image of that name at the family's version, not built, with an empty
/// log, no staging tarball and no server seen yet.
pub proof fn lemma_discovered_families_fresh(entries: Seq<ScanEntryV>, k: Seq<char>)
    requires
        discovered(entries).0.contains_key(k),
    ensures
        discovered(entries).0[k].name == k,
        discovered(entries).0[k].current matches Some(c) && c.name == k && Some(c.version)
            == discovered(entries).0[k].current_version && c.build_state == BuildStateV::Idle
            && c.build_log.len() == 0 && !c.local_tarball && c.server_presence == Map::<Seq<char>, bool>::empty(),
        discovered(entries).0[k].stale_versions == Set::<Seq<char>>::empty(),
    decreases entries.len(),
{
    if entries.len() > 0 {
        let (fams, _) = discovered(entries.drop_last());
        if fams.contains_key(k) {
            lemma_discovered_families_fresh(entries.drop_last(), k);
        }
    }
}

/// A version named by a comment is never empty, starts with `v` or a digit,
/// and holds no whitespace.
pub proof fn lemma_version_is_one_word(comment: Seq<char>)
    ensures
        version_of(comment) matches Some(v) ==> v.len() > 0 && (v[0] == 'v' || is_digit(v[0]))
            && forall|i: int| 0 <= i < v.len() ==> !is_ws(#[trigger] v[i]),
{
    let c = trim_seq(comment);
    if c.len() > 0 {
        lemma_word_no_ws(c);
        lemma_word_no_ws(c.drop_first());
        if is_digit(c[0]) {
            assert(!is_ws(c[0]));
            assert(word(c)[0] == c[0]);
        }
        let v = seq!['v'] + word(c.drop_first());
        assert forall|i: int| 0 <= i < v.len() implies !is_ws(#[trigger] v[i]) by {
            if i > 0 {
                assert(v[i] == word(c.drop_first())[i - 1]);
            }
        }
    }
}

proof fn lemma_word_no_ws(s: Seq<char>)
    ensures
        forall|i: int| 0 <= i < word(s).len() ==> !is_ws(#[trigger] word(s)[i]),
        word(s).len() <= s.len(),
        s.len() > 0 && !is_ws(s[0]) ==> word(s).len() > 0 && word(s)[0] == s[0],
    decreases s.len(),
{
    if s.len() > 0 && !is_ws(s[0]) {
        lemma_word_no_ws(s.drop_first());
        let w = word(s);
        assert forall|i: int| 0 <= i < w.len() implies !is_ws(#[trigger] w[i]) by {
            if i > 0 {
                assert(w[i] == word(s.drop_first())[i - 1]);
            }
        }
    }
}

proof fn lemma_families_wf_after_insert(
    before: NameMap<ImageFamily>,
    after: NameMap<ImageFamily>,
    k: Seq<char>,
    f: ImageFamily,
)
    requires
        families_wf(before),
        after.wf(),
        f.wf(),
        after@ == before@.insert(k, f),
    ensures
        families_wf(after),
        families_view(after) == families_view(before).insert(k, f@),
{
    assert forall|i: int| 0 <= i < after.vals.len() implies (#[trigger] after.vals@[i]).wf() by {
        after.lemma_entry(i);
        let key = after.key_seq()[i];
        if key != k {
            let j = before.lemma_key_index(key);
        }
    }
    assert(families_view(after) =~= families_view(before).insert(k, f@));
}

/// A new family for a discovered Dockerfile.
fn new_family(name: &String, version: String, dockerfile_path: String, context_dir: String) -> (r:
    ImageFamily)
    ensures
        r.wf(),
        r@ == fresh_family(name@, version@, dockerfile_path@, context_dir@),
{
    let managed = ManagedImage {
        name: name.clone(),
        version: version.clone(),
        dockerfile_path,
        context_dir,
        local_tarball: false,
        server_presence: NameMap::new(),
        build_state: BuildState::Idle,
        build_log: Vec::new(),
    };
    let r = ImageFamily {
        name: name.clone(),
        current_version: Some(version),
        current: Some(managed),
        stale_versions: NameSet::new(),
        remote_presence: NameMap::new(),
    };
    proof {
        assert(view_names(r.current.unwrap().build_log@) =~= Seq::<Seq<char>>::empty());
        assert(r@ =~= fresh_family(name@, version@, r.current.unwrap().dockerfile_path@, r.current.unwrap().context_dir@));
    }
    r
}

/// Finds the image families defined under the images directory, from the
/// entries met while walking it (see `discovered`). Discovery itself never
/// fails: unreadable directories become warnings.
pub fn discover_image_families(entries: &Vec<ScanEntry>) -> (r: Result<DiscoveryResult, String>)
    ensures
        r is Ok,
        r matches Ok(d) ==> {
            &&& families_wf(d.families)
            &&& families_view(d.families) == discovered(entries@.map_values(|e: ScanEntry| e@)).0
            &&& view_names(d.warnings@) == discovered(entries@.map_values(|e: ScanEntry| e@)).1
        },
{
    let ghost es = entries@.map_values(|e: ScanEntry| e@);
    let mut families: NameMap<ImageFamily> = NameMap::new();
    let mut warnings: Vec<String> = Vec::new();
    let mut i: usize = 0;
    proof {
        assert(es.take(0) =~= Seq::<ScanEntryV>::empty());
        assert(families_view(families) =~= Map::<Seq<char>, ImageFamilyV>::empty());
        assert(view_names(warnings@) =~= Seq::<Seq<char>>::empty());
    }
    while i < entries.len()
        invariant
            i <= entries.len(),
            es == entries@.map_values(|e: ScanEntry| e@),
            families_wf(families),
            families_view(families) == discovered(es.take(i as int)).0,
            view_names(warnings@) == discovered(es.take(i as int)).1,
        decreases entries.len() - i,
    {
        proof {
            assert(es.take(i + 1).drop_last() =~= es.take(i as int));
            assert(es.take(i + 1).last() == entries@[i as int]@);
        }
        let ghost w0 = warnings@;
        match &entries[i] {
            ScanEntry::Unreadable { dir, error } => {
                let mut w = "Failed to read ".to_owned();
                w.append(dir.as_str());
                w.append(": ");
                w.append(error.as_str());
                warnings.push(w);
                assert(view_names(warnings@) =~= view_names(w0).push(
                    read_failed_warning(dir@, error@),
                ));
            },
            ScanEntry::File { rel, display, lines } => {
                match classify_dockerfile(rel) {
                    None => {},
                    Some((name, df, ctx)) => {
                        if families.contains_key(name.as_str()) {
                            let mut w = "Duplicate image name '".to_owned();
                            w.append(name.as_str());
                            w.append("' at ");
                            w.append(display.as_str());
                            w.append("; skipping");
                            warnings.push(w);
                            assert(view_names(warnings@) =~= view_names(w0).push(
                                duplicate_warning(name@, display@),
                            ));
                            assert(families_view(families).contains_key(name@));
                        } else {
                            assert(!families_view(families).contains_key(name@));
                            let version = match extract_version(lines) {
                                Some(v) => v,
                                None => {
                                    let mut w = "No version comment found in ".to_owned();
                                    w.append(display.as_str());
                                    w.append(" -- using 'latest'");
                                    warnings.push(w);
                                    assert(view_names(warnings@) =~= view_names(w0).push(
                                        no_version_warning(display@),
                                    ));
                                    "latest".to_owned()
                                },
                            };
                            let fam = new_family(&name, version, df, ctx);
                            let ghost before = families;
                            families.insert(name, fam);
                            proof {
                                lemma_families_wf_after_insert(before, families, name@, fam);
                            }
                        }
                    },
                }
            },
        }
        i = i + 1;
    }
    assert(es.take(entries.len() as int) =~= es);
    Ok(DiscoveryResult { families, warnings })
}

} // verus!
