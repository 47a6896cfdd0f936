//! Where the configuration file is looked for.
use vstd::prelude::*;

use crate::names::view_names;
use crate::strings::{ends_with, push_char};

verus! {

/// `dir` joined with a relative `name`, as `Path::join` does: a separator
/// goes between unless `dir` is empty or already ends with one.
pub open spec fn join_rel(dir: Seq<char>, name: Seq<char>) -> Seq<char> {
    if dir.len() == 0 {
        name
    } else if dir.last() == '/' {
        dir + name
    } else {
        dir + seq!['/'] + name
    }
}

/// `dir` joined with a relative `name` (see `join_rel`).
pub fn join_path(dir: &str, name: &str) -> (r: String)
    ensures
        r@ == join_rel(dir@, name@),
{
    let n = dir.unicode_len();
    let mut r = dir.to_owned();
    if n > 0 && dir.get_char(n - 1) != '/' {
        push_char(&mut r, '/');
    }
    r.append(name);
    proof {
        if n > 0 {
            assert(dir@.last() == dir@[n - 1]);
        }
    }
    r
}

/// The per-user configuration directory: `$XDG_CONFIG_HOME` when set and
/// not empty, else `$HOME/.config` when `HOME` is set.
pub open spec fn user_config_dir(xdg: Option<Seq<char>>, home: Option<Seq<char>>) -> Option<Seq<char>> {
    match xdg {
        Some(x) if x.len() > 0 => Some(x),
        _ => match home {
            Some(h) => Some(join_rel(h, ".config"@)),
            None => None,
        },
    }
}

pub open spec fn opt_str(o: Option<&str>) -> Option<Seq<char>> {
    match o {
        Some(s) => Some(s@),
        None => None,
    }
}

/// The places looked at for `config.toml`, in order: the path in
/// `RKE2_IMAGE_MANAGER_CONFIG`, `./config.toml`, `rke2-image-manager/config.toml`
/// in the user configuration directory, and `config.toml` beside the
/// executable.
pub open spec fn candidates(
    env_path: Option<Seq<char>>,
    xdg: Option<Seq<char>>,
    home: Option<Seq<char>>,
    exe_dir: Option<Seq<char>>,
) -> Seq<Seq<char>> {
    (match env_path {
        Some(p) => seq![p],
        None => Seq::empty(),
    }) + seq!["config.toml"@] + (match user_config_dir(xdg, home) {
        Some(d) => seq![join_rel(join_rel(d, "rke2-image-manager"@), "config.toml"@)],
        None => Seq::empty(),
    }) + (match exe_dir {
        Some(e) => seq![join_rel(e, "config.toml"@)],
        None => Seq::empty(),
    })
}

/// The configuration paths to try, in order (see `candidates`); the first
/// that exists is used.
pub fn config_candidates(
    env_path: Option<&str>,
    xdg_config_home: Option<&str>,
    home: Option<&str>,
    exe_dir: Option<&str>,
) -> (r: Vec<String>)
    ensures
        view_names(r@) == candidates(opt_str(env_path), opt_str(xdg_config_home), opt_str(home), opt_str(exe_dir)),
{
    let mut v: Vec<String> = Vec::new();
    match env_path {
        Some(p) => v.push(p.to_owned()),
        None => {},
    }
    let ghost a = view_names(v@);
    v.push("config.toml".to_owned());
    let ghost b = view_names(v@);
    assert(b =~= a + seq!["config.toml"@]);
    let dir: Option<String> = match xdg_config_home {
        Some(x) if x.unicode_len() > 0 => Some(x.to_owned()),
        _ => match home {
            Some(h) => Some(join_path(h, ".config")),
            None => None,
        },
    };
    match &dir {
        Some(d) => {
            let sub = join_path(d.as_str(), "rke2-image-manager");
            v.push(join_path(sub.as_str(), "config.toml"));
        },
        None => {},
    }
    let ghost c = view_names(v@);
    match exe_dir {
        Some(e) => v.push(join_path(e, "config.toml")),
        None => {},
    }
    assert(view_names(v@) =~= candidates(opt_str(env_path), opt_str(xdg_config_home), opt_str(home), opt_str(exe_dir)));
    v
}


/// Where the configuration is looked for: the path from the environment
/// first when given; `./config.toml` always; with `XDG_CONFIG_HOME` set and
/// not empty, `rke2-image-manager/config.toml` under it; otherwise, with
/// `HOME` set, `rke2-image-manager/config.toml` under `HOME/.config`; and
/// `config.toml` beside the executable when its directory is known.
pub proof fn lemma_config_places(
    env_path: Option<Seq<char>>,
    xdg: Option<Seq<char>>,
    home: Option<Seq<char>>,
    exe_dir: Option<Seq<char>>,
)
    ensures
        candidates(env_path, xdg, home, exe_dir).contains("config.toml"@),
        env_path is Some ==> candidates(env_path, xdg, home, exe_dir)[0] == env_path->0,
        xdg is Some && xdg->0.len() > 0 ==> candidates(env_path, xdg, home, exe_dir).contains(
            join_rel(join_rel(xdg->0, "rke2-image-manager"@), "config.toml"@),
        ),
        (xdg is None || xdg->0.len() == 0) && home is Some ==> candidates(env_path, xdg, home, exe_dir).contains(
            join_rel(join_rel(join_rel(home->0, ".config"@), "rke2-image-manager"@), "config.toml"@),
        ),
        (xdg is None || xdg->0.len() == 0) && home is None ==> candidates(env_path, xdg, home, exe_dir).len() == (
        if env_path is Some { 1int } else { 0int }) + 1 + (if exe_dir is Some { 1int } else { 0int }),
        exe_dir is Some ==> candidates(env_path, xdg, home, exe_dir).last() == join_rel(exe_dir->0, "config.toml"@),
{
    let c = candidates(env_path, xdg, home, exe_dir);
    let a: Seq<Seq<char>> = match env_path {
        Some(p) => seq![p],
        None => Seq::empty(),
    };
    let d: Seq<Seq<char>> = match user_config_dir(xdg, home) {
        Some(dd) => seq![join_rel(join_rel(dd, "rke2-image-manager"@), "config.toml"@)],
        None => Seq::empty(),
    };
    let e: Seq<Seq<char>> = match exe_dir {
        Some(ee) => seq![join_rel(ee, "config.toml"@)],
        None => Seq::empty(),
    };
    assert(c == a + seq!["config.toml"@] + d + e);
    assert(c[a.len() as int] == "config.toml"@);
    if d.len() > 0 {
        assert(c[(a.len() + 1) as int] == d[0int]);
    }
    if e.len() > 0 {
        assert(c.last() == e[0int]);
    }
}

} // verus!
