//! Where Codex and this tool keep their files, worked out from what the environment
//! tells about the user's directories.
use vstd::prelude::*;
use crate::text::{append_str, chars_of, opt_text, starts_with, str_eq, string_of, sub_chars};

verus! {

/// What the environment tells about the user's directories.
#[derive(Debug)]
pub struct PathEnv {
    /// `CODEX_HOME`.
    pub codex_home: Option<String>,
    /// The home directory the platform reports.
    pub home_dir: Option<String>,
    /// `USERPROFILE`.
    pub user_profile: Option<String>,
    /// `HOMEDRIVE`.
    pub home_drive: Option<String>,
    /// `HOMEPATH`.
    pub home_path: Option<String>,
    /// The configuration directory the platform reports.
    pub config_dir: Option<String>,
    /// Whether paths are Windows paths.
    pub windows: bool,
}

pub open spec fn is_separator(c: char, windows: bool) -> bool {
    c == '/' || (windows && c == '\\')
}

pub open spec fn separator(windows: bool) -> char {
    if windows {
        '\\'
    } else {
        '/'
    }
}

/// `base` joined with `name` as `Path::join` joins them: `name` alone where it starts at a
/// root (or `base` is empty), else `base`, a separator unless `base` ends with one, and
/// `name`.
pub open spec fn path_join(base: Seq<char>, name: Seq<char>, windows: bool) -> Seq<char> {
    if name.len() > 0 && is_separator(name[0], windows) {
        name
    } else if base.len() == 0 {
        name
    } else if is_separator(base.last(), windows) {
        base + name
    } else {
        base + seq![separator(windows)] + name
    }
}

/// `base` joined with `name`.
pub fn join_path(base: &str, name: &str, windows: bool) -> (res: String)
    ensures
        res@ == path_join(base@, name@, windows),
{
    let b = chars_of(base);
    let n = chars_of(name);
    if n.len() > 0 && (n[0] == '/' || (windows && n[0] == '\\')) {
        return name.to_string();
    }
    if b.len() == 0 {
        return name.to_string();
    }
    let last = b[b.len() - 1];
    let mut out = b;
    if !(last == '/' || (windows && last == '\\')) {
        out.push(if windows {
            '\\'
        } else {
            '/'
        });
    }
    append_str(&mut out, name);
    assert(out@ =~= path_join(base@, name@, windows));
    string_of(out.as_slice())
}

/// A `CODEX_HOME` that starts with `~` taken relative to the home directory: `~` alone is
/// the home directory, `~/rest` (or `~\rest`) is `rest` inside it; without a home
/// directory, or otherwise, the path stays as it is.
pub open spec fn spec_expand_home(path: Seq<char>, home: Option<Seq<char>>, windows: bool) -> Seq<char> {
    if path == seq!['~'] {
        match home {
            Some(h) => h,
            None => path,
        }
    } else if starts_with(path, seq!['~', '/']) || starts_with(path, seq!['~', '\\']) {
        match home {
            Some(h) => path_join(h, path.subrange(2, path.len() as int), windows),
            None => path,
        }
    } else {
        path
    }
}

/// A `CODEX_HOME` that starts with `~` taken relative to the home directory.
pub fn expand_home(path: &str, home: &Option<String>, windows: bool) -> (res: String)
    ensures
        res@ == spec_expand_home(path@, opt_text(*home), windows),
{
    let cs = chars_of(path);
    if cs.len() == 1 && cs[0] == '~' {
        assert(cs@ =~= seq!['~']);
        return match home {
            Some(h) => h.clone(),
            None => path.to_string(),
        };
    }
    assert(cs.len() == 1 && cs@[0] == '~' <== cs@ =~= seq!['~']);
    let tilde = cs.len() >= 2 && cs[0] == '~' && (cs[1] == '/' || cs[1] == '\\');
    proof {
        if cs.len() >= 2 {
            assert(starts_with(cs@, seq!['~', '/']) == (cs@[0] == '~' && cs@[1] == '/')) by {
                if cs@[0] == '~' && cs@[1] == '/' {
                    assert(cs@.subrange(0, 2) =~= seq!['~', '/']);
                }
            }
            assert(starts_with(cs@, seq!['~', '\\']) == (cs@[0] == '~' && cs@[1] == '\\')) by {
                if cs@[0] == '~' && cs@[1] == '\\' {
                    assert(cs@.subrange(0, 2) =~= seq!['~', '\\']);
                }
            }
        }
    }
    if tilde {
        match home {
            Some(h) => {
                let rest = sub_chars(cs.as_slice(), 2, cs.len());
                let r = string_of(rest.as_slice());
                join_path(h.as_str(), r.as_str(), windows)
            },
            None => path.to_string(),
        }
    } else {
        path.to_string()
    }
}

pub open spec fn nonempty_text(o: Option<Seq<char>>) -> Option<Seq<char>> {
    match o {
        Some(s) => if s.len() > 0 {
            Some(s)
        } else {
            None
        },
        None => None,
    }
}

/// The home directory: the one the platform reports, else `USERPROFILE` where set and
/// not empty, else `HOMEDRIVE` joined with `HOMEPATH` where both are set, else `.`.
pub open spec fn spec_home_dir(env: PathEnv) -> Seq<char> {
    match opt_text(env.home_dir) {
        Some(h) => h,
        None => match nonempty_text(opt_text(env.user_profile)) {
            Some(u) => u,
            None => match (opt_text(env.home_drive), opt_text(env.home_path)) {
                (Some(d), Some(p)) => path_join(d, p, env.windows),
                _ => seq!['.'],
            },
        },
    }
}

/// The home directory.
pub fn get_home_dir(env: &PathEnv) -> (res: String)
    ensures
        res@ == spec_home_dir(*env),
{
    if let Some(h) = &env.home_dir {
        return h.clone();
    }
    if let Some(u) = &env.user_profile {
        if !u.as_str().is_empty() {
            return u.clone();
        }
    }
    if let (Some(d), Some(p)) = (&env.home_drive, &env.home_path) {
        return join_path(d.as_str(), p.as_str(), env.windows);
    }
    let dot = vec!['.'];
    assert(dot@ =~= seq!['.']);
    string_of(dot.as_slice())
}

/// The Codex directory: `CODEX_HOME` (with `~` expanded) where set and not empty, else
/// `.codex` in the home directory.
pub open spec fn spec_codex_dir(env: PathEnv) -> Seq<char> {
    match nonempty_text(opt_text(env.codex_home)) {
        Some(c) => spec_expand_home(c, opt_text(env.home_dir), env.windows),
        None => path_join(spec_home_dir(env), ".codex"@, env.windows),
    }
}

/// The Codex directory.
pub fn codex_dir(env: &PathEnv) -> (res: String)
    ensures
        res@ == spec_codex_dir(*env),
{
    if let Some(c) = &env.codex_home {
        if !c.as_str().is_empty() {
            return expand_home(c.as_str(), &env.home_dir, env.windows);
        }
    }
    let home = get_home_dir(env);
    join_path(home.as_str(), ".codex", env.windows)
}

/// `config.toml` in the Codex directory.
pub fn config_toml_path(env: &PathEnv) -> (res: String)
    ensures
        res@ == path_join(spec_codex_dir(*env), "config.toml"@, env.windows),
{
    join_path(codex_dir(env).as_str(), "config.toml", env.windows)
}

/// `auth.json` in the Codex directory.
pub fn auth_json_path(env: &PathEnv) -> (res: String)
    ensures
        res@ == path_join(spec_codex_dir(*env), "auth.json"@, env.windows),
{
    join_path(codex_dir(env).as_str(), "auth.json", env.windows)
}

/// `webdav_sync_config.json` in the Codex directory.
pub fn webdav_config_path(env: &PathEnv) -> (res: String)
    ensures
        res@ == path_join(spec_codex_dir(*env), "webdav_sync_config.json"@, env.windows),
{
    join_path(codex_dir(env).as_str(), "webdav_sync_config.json", env.windows)
}

/// This tool's own directory, `codex-tools` in the platform's configuration directory
/// (else in the home directory the platform reports); nothing where the platform reports
/// neither.
pub open spec fn spec_app_config_dir(env: PathEnv) -> Option<Seq<char>> {
    match opt_text(env.config_dir) {
        Some(c) => Some(path_join(c, "codex-tools"@, env.windows)),
        None => match opt_text(env.home_dir) {
            Some(h) => Some(path_join(h, "codex-tools"@, env.windows)),
            None => None,
        },
    }
}

pub open spec fn under(dir: Option<Seq<char>>, name: Seq<char>, windows: bool) -> Option<Seq<char>> {
    match dir {
        Some(d) => Some(path_join(d, name, windows)),
        None => None,
    }
}

fn join_under(dir: Option<String>, name: &str, windows: bool) -> (res: Option<String>)
    ensures
        opt_text(res) == under(opt_text(dir), name@, windows),
{
    match dir {
        Some(d) => Some(join_path(d.as_str(), name, windows)),
        None => None,
    }
}

/// This tool's own directory.
pub fn app_config_dir(env: &PathEnv) -> (res: Option<String>)
    ensures
        opt_text(res) == spec_app_config_dir(*env),
{
    match &env.config_dir {
        Some(c) => Some(join_path(c.as_str(), "codex-tools", env.windows)),
        None => match &env.home_dir {
            Some(h) => Some(join_path(h.as_str(), "codex-tools", env.windows)),
            None => None,
        },
    }
}

/// `providers.json` in this tool's directory.
pub fn providers_config_path(env: &PathEnv) -> (res: Option<String>)
    ensures
        opt_text(res) == under(spec_app_config_dir(*env), "providers.json"@, env.windows),
{
    join_under(app_config_dir(env), "providers.json", env.windows)
}

pub open spec fn spec_cc_connect_dir(env: PathEnv) -> Option<Seq<char>> {
    under(spec_app_config_dir(env), "wechatbot"@, env.windows)
}

/// The WeChat connection's directory, `wechatbot` in this tool's directory.
pub fn cc_connect_dir(env: &PathEnv) -> (res: Option<String>)
    ensures
        opt_text(res) == spec_cc_connect_dir(*env),
{
    join_under(app_config_dir(env), "wechatbot", env.windows)
}

/// The WeChat connection's `config.toml`.
pub fn cc_connect_config_path(env: &PathEnv) -> (res: Option<String>)
    ensures
        opt_text(res) == under(spec_cc_connect_dir(*env), "config.toml"@, env.windows),
{
    join_under(cc_connect_dir(env), "config.toml", env.windows)
}

/// The QR code image of the WeChat sign-in, `qr/weixin-qr.png` in its directory.
pub fn bridge_qr_image_path(env: &PathEnv) -> (res: Option<String>)
    ensures
        opt_text(res) == under(
            under(spec_cc_connect_dir(*env), "qr"@, env.windows),
            "weixin-qr.png"@,
            env.windows,
        ),
{
    join_under(join_under(cc_connect_dir(env), "qr", env.windows), "weixin-qr.png", env.windows)
}

pub open spec fn spec_managed_dir(env: PathEnv) -> Option<Seq<char>> {
    under(spec_cc_connect_dir(env), "runtime"@, env.windows)
}

/// The directory of the managed WeChat connection engine, `runtime`.
pub fn managed_cc_connect_dir(env: &PathEnv) -> (res: Option<String>)
    ensures
        opt_text(res) == spec_managed_dir(*env),
{
    join_under(cc_connect_dir(env), "runtime", env.windows)
}

/// The directory of the engine's binary, `runtime/bin`.
pub fn managed_cc_connect_bin_dir(env: &PathEnv) -> (res: Option<String>)
    ensures
        opt_text(res) == under(spec_managed_dir(*env), "bin"@, env.windows),
{
    join_under(managed_cc_connect_dir(env), "bin", env.windows)
}

/// The engine's binary: `cc-connect.exe` on Windows, `cc-connect` elsewhere.
pub fn managed_cc_connect_binary_path(env: &PathEnv) -> (res: Option<String>)
    ensures
        opt_text(res) == under(
            under(spec_managed_dir(*env), "bin"@, env.windows),
            if env.windows {
                "cc-connect.exe"@
            } else {
                "cc-connect"@
            },
            env.windows,
        ),
{
    let binary = if env.windows {
        "cc-connect.exe"
    } else {
        "cc-connect"
    };
    join_under(managed_cc_connect_bin_dir(env), binary, env.windows)
}

/// The pid file of the WeChat service.
pub fn managed_cc_connect_bridge_pid_path(env: &PathEnv) -> (res: Option<String>)
    ensures
        opt_text(res) == under(spec_managed_dir(*env), "bridge.pid"@, env.windows),
{
    join_under(managed_cc_connect_dir(env), "bridge.pid", env.windows)
}

/// The pid file of the WeChat sign-in.
pub fn managed_cc_connect_setup_pid_path(env: &PathEnv) -> (res: Option<String>)
    ensures
        opt_text(res) == under(spec_managed_dir(*env), "setup.pid"@, env.windows),
{
    join_under(managed_cc_connect_dir(env), "setup.pid", env.windows)
}

/// The log of the WeChat service.
pub fn managed_cc_connect_bridge_log_path(env: &PathEnv) -> (res: Option<String>)
    ensures
        opt_text(res) == under(spec_managed_dir(*env), "bridge.log"@, env.windows),
{
    join_under(managed_cc_connect_dir(env), "bridge.log", env.windows)
}

/// The log of the WeChat sign-in.
pub fn managed_cc_connect_setup_log_path(env: &PathEnv) -> (res: Option<String>)
    ensures
        opt_text(res) == under(spec_managed_dir(*env), "setup.log"@, env.windows),
{
    join_under(managed_cc_connect_dir(env), "setup.log", env.windows)
}

/// Joining one nonempty directory with relative names keeps the names apart: the same
/// joined path comes from the same name alone.
pub proof fn lemma_join_keeps_names_apart(dir: Seq<char>, a: Seq<char>, b: Seq<char>, windows: bool)
    requires
        dir.len() > 0,
        a.len() > 0,
        b.len() > 0,
        !is_separator(a[0], windows),
        !is_separator(b[0], windows),
    ensures
        path_join(dir, a, windows) == path_join(dir, b, windows) ==> a == b,
        path_join(dir, a, windows).len() >= dir.len() + a.len(),
        path_join(dir, a, windows).subrange(0, dir.len() as int) == dir,
        path_join(dir, a, windows).skip(path_join(dir, a, windows).len() - a.len()) == a,
{
    let pre = if is_separator(dir.last(), windows) {
        dir
    } else {
        dir + seq![separator(windows)]
    };
    assert(path_join(dir, a, windows) == pre + a);
    assert(path_join(dir, b, windows) == pre + b);
    assert((pre + a).skip(pre.len() as int) =~= a);
    assert((pre + b).skip(pre.len() as int) =~= b);
    assert((pre + a).subrange(0, dir.len() as int) =~= dir);
    assert((pre + a).skip((pre + a).len() - a.len()) =~= a);
}

/// The managed engine's four runtime paths are pairwise distinct and share the managed
/// directory as parent: where `managed_cc_connect_dir` gives a directory, the paths that
/// `managed_cc_connect_bridge_pid_path`, `managed_cc_connect_setup_pid_path`,
/// `managed_cc_connect_bridge_log_path` and `managed_cc_connect_setup_log_path` give are
/// it joined with `bridge.pid`, `setup.pid`, `bridge.log` and `setup.log`, each starts
/// with it and ends with its name, and no two are equal.
pub proof fn lemma_runtime_paths_distinct(env: PathEnv)
    requires
        spec_managed_dir(env) is Some,
    ensures
        ({
            let m = spec_managed_dir(env).unwrap();
            let names = seq!["bridge.pid"@, "setup.pid"@, "bridge.log"@, "setup.log"@];
            &&& forall|i: int|
                0 <= i < 4 ==> {
                    let p = path_join(m, #[trigger] names[i], env.windows);
                    &&& under(spec_managed_dir(env), names[i], env.windows) == Some(p)
                    &&& p.subrange(0, m.len() as int) == m
                    &&& p.skip(p.len() - names[i].len()) == names[i]
                }
            &&& forall|i: int, j: int|
                0 <= i < j < 4 ==> path_join(m, #[trigger] names[i], env.windows) != path_join(
                    m,
                    #[trigger] names[j],
                    env.windows,
                )
        }),
{
    reveal_strlit("runtime");
    reveal_strlit("bridge.pid");
    reveal_strlit("setup.pid");
    reveal_strlit("bridge.log");
    reveal_strlit("setup.log");
    let c = spec_cc_connect_dir(env).unwrap();
    let m = spec_managed_dir(env).unwrap();
    assert(m == path_join(c, "runtime"@, env.windows));
    assert(m.len() > 0);
    let names = seq!["bridge.pid"@, "setup.pid"@, "bridge.log"@, "setup.log"@];
    assert forall|i: int| 0 <= i < 4 implies names[i].len() > 0 && !is_separator(
        #[trigger] names[i][0],
        env.windows,
    ) by {}
    assert forall|i: int| 0 <= i < 4 implies {
        let p = path_join(m, #[trigger] names[i], env.windows);
        &&& under(spec_managed_dir(env), names[i], env.windows) == Some(p)
        &&& p.subrange(0, m.len() as int) == m
        &&& p.skip(p.len() - names[i].len()) == names[i]
    } by {
        lemma_join_keeps_names_apart(m, names[i], names[i], env.windows);
    }
    assert forall|i: int, j: int| 0 <= i < j < 4 implies path_join(
        m,
        #[trigger] names[i],
        env.windows,
    ) != path_join(m, #[trigger] names[j], env.windows) by {
        lemma_join_keeps_names_apart(m, names[i], names[j], env.windows);
        assert(names[i] != names[j]) by {
            if i == 0 && j == 2 || i == 1 && j == 3 {
                assert(names[i][7] != names[j][7]);
            } else {
                assert(names[i].len() != names[j].len() || names[i][0] != names[j][0]);
            }
        }
    }
}

} // verus!
