//! The WeChat connection: the projects of its configuration, the project written when
//! one is chosen, and the state shown of it.
use vstd::prelude::*;
use crate::text::{chars_of, is_blank, opt_text, str_eq, string_of, trim, trim_str};
use crate::toml_doc::{
    distinct_keys, document_entries, table_with, toml_accepts, toml_doc_put,
    toml_doc_put_tables, toml_doc_table, toml_doc_text, toml_parse_document, toml_render,
    toml_str_item, toml_text_table, writable_all, writable_tables, lemma_all_strings_writable,
    lemma_writable_from_items, writable,
};
use crate::toml::{
    Toml, TomlItem, as_array_of_tables, as_table, lookup, table_string, table_view,
    toml_as_array_of_tables, toml_as_table, toml_lookup, toml_table_string, toml_view,
};

verus! {

// ---------------------------------------------------------------------------
// Types
// ---------------------------------------------------------------------------

/// A project of the WeChat connection's configuration, as shown.
#[derive(Debug)]
pub struct BridgeProjectStatus {
    pub name: String,
    pub work_dir: String,
    pub agent_type: String,
    pub has_weixin: bool,
    pub has_weixin_session: bool,
    pub has_codex: bool,
    pub allow_from: String,
    pub admin_from: String,
    pub model: String,
    pub permission_mode: String,
}

pub struct ProjectView {
    pub name: Seq<char>,
    pub work_dir: Seq<char>,
    pub agent_type: Seq<char>,
    pub has_weixin: bool,
    pub has_weixin_session: bool,
    pub has_codex: bool,
    pub allow_from: Seq<char>,
    pub admin_from: Seq<char>,
    pub model: Seq<char>,
    pub permission_mode: Seq<char>,
}

impl View for BridgeProjectStatus {
    type V = ProjectView;

    open spec fn view(&self) -> ProjectView {
        ProjectView {
            name: self.name@,
            work_dir: self.work_dir@,
            agent_type: self.agent_type@,
            has_weixin: self.has_weixin,
            has_weixin_session: self.has_weixin_session,
            has_codex: self.has_codex,
            allow_from: self.allow_from@,
            admin_from: self.admin_from@,
            model: self.model@,
            permission_mode: self.permission_mode@,
        }
    }
}

impl Clone for BridgeProjectStatus {
    fn clone(&self) -> (res: Self)
        ensures
            res@ == self@,
    {
        BridgeProjectStatus {
            name: self.name.clone(),
            work_dir: self.work_dir.clone(),
            agent_type: self.agent_type.clone(),
            has_weixin: self.has_weixin,
            has_weixin_session: self.has_weixin_session,
            has_codex: self.has_codex,
            allow_from: self.allow_from.clone(),
            admin_from: self.admin_from.clone(),
            model: self.model.clone(),
            permission_mode: self.permission_mode.clone(),
        }
    }
}

/// A project that Codex knows of.
#[derive(Debug)]
pub struct CodexProjectStatus {
    pub name: String,
    pub work_dir: String,
}

/// The project to write into the WeChat connection's configuration.
#[derive(Debug)]
pub struct BridgeProjectDraft {
    pub name: String,
    pub work_dir: String,
    pub allow_from: String,
    pub admin_from: String,
    pub model: String,
    pub permission_mode: String,
}

pub struct DraftView {
    pub name: Seq<char>,
    pub work_dir: Seq<char>,
    pub allow_from: Seq<char>,
    pub admin_from: Seq<char>,
    pub model: Seq<char>,
    pub permission_mode: Seq<char>,
}

impl View for BridgeProjectDraft {
    type V = DraftView;

    open spec fn view(&self) -> DraftView {
        DraftView {
            name: self.name@,
            work_dir: self.work_dir@,
            allow_from: self.allow_from@,
            admin_from: self.admin_from@,
            model: self.model@,
            permission_mode: self.permission_mode@,
        }
    }
}

/// The credentials of a signed-in WeChat account.
#[derive(Debug)]
pub struct WeixinSession {
    pub token: String,
    pub account_id: String,
    pub base_url: String,
}

/// Why a WeChat connection request is refused.
#[derive(Debug)]
pub enum BridgeError {
    /// The project name is empty once trimmed.
    EmptyProjectName,
    /// The working directory is empty once trimmed.
    EmptyWorkDir,
    /// The service action is not one of those offered (the action as given).
    UnsupportedAction(String),
    /// The connection's configuration is not a TOML document that toml_edit accepts.
    UnreadableConfig,
}

pub enum BridgeFault {
    EmptyProjectName,
    EmptyWorkDir,
    UnsupportedAction(Seq<char>),
    UnreadableConfig,
}

impl View for BridgeError {
    type V = BridgeFault;

    open spec fn view(&self) -> BridgeFault {
        match self {
            BridgeError::EmptyProjectName => BridgeFault::EmptyProjectName,
            BridgeError::EmptyWorkDir => BridgeFault::EmptyWorkDir,
            BridgeError::UnsupportedAction(a) => BridgeFault::UnsupportedAction(a@),
            BridgeError::UnreadableConfig => BridgeFault::UnreadableConfig,
        }
    }
}

// ---------------------------------------------------------------------------
// Drafts
// ---------------------------------------------------------------------------

/// The permission mode written: the three modes as they are, their other spellings
/// mapped onto them, anything else `plan`.
pub open spec fn spec_permission_mode(mode: Seq<char>) -> Seq<char> {
    let m = trim(mode);
    if m == "plan"@ || m == "acceptEdits"@ || m == "bypassPermissions"@ {
        m
    } else if m == "edit"@ || m == "accept-edits"@ || m == "accept_edits"@ {
        "acceptEdits"@
    } else if m == "yolo"@ || m == "bypass-permissions"@ || m == "bypass_permissions"@ {
        "bypassPermissions"@
    } else {
        "plan"@
    }
}

/// The permission mode written for the one given.
pub fn normalize_permission_mode(mode: &str) -> (res: String)
    ensures
        res@ == spec_permission_mode(mode@),
{
    let m = trim_str(mode);
    let t = m.as_str();
    if str_eq(t, "plan") || str_eq(t, "acceptEdits") || str_eq(t, "bypassPermissions") {
        m
    } else if str_eq(t, "edit") || str_eq(t, "accept-edits") || str_eq(t, "accept_edits") {
        "acceptEdits".to_string()
    } else if str_eq(t, "yolo") || str_eq(t, "bypass-permissions") || str_eq(
        t,
        "bypass_permissions",
    ) {
        "bypassPermissions".to_string()
    } else {
        "plan".to_string()
    }
}

pub open spec fn spec_nonempty_or(value: Seq<char>, fallback: Seq<char>) -> Seq<char> {
    if trim(value).len() == 0 {
        fallback
    } else {
        trim(value)
    }
}

/// The value trimmed, or the fallback where nothing is left.
pub fn nonempty_or_default(value_text: String, fallback: &str) -> (res: String)
    ensures
        res@ == spec_nonempty_or(value_text@, fallback@),
{
    let t = trim_str(value_text.as_str());
    if t.as_str().is_empty() {
        fallback.to_string()
    } else {
        t
    }
}

/// A draft as written: name and working directory trimmed and required, senders
/// allowed `*` where none are given, the other fields trimmed, the permission mode
/// normalized.
pub open spec fn spec_normalize_draft(d: DraftView) -> Result<DraftView, BridgeFault> {
    if trim(d.name).len() == 0 {
        Err(BridgeFault::EmptyProjectName)
    } else if trim(d.work_dir).len() == 0 {
        Err(BridgeFault::EmptyWorkDir)
    } else {
        Ok(
            DraftView {
                name: trim(d.name),
                work_dir: trim(d.work_dir),
                allow_from: spec_nonempty_or(d.allow_from, "*"@),
                admin_from: trim(d.admin_from),
                model: trim(d.model),
                permission_mode: spec_permission_mode(d.permission_mode),
            },
        )
    }
}

/// A draft as written.
pub fn normalize_project_draft(draft: BridgeProjectDraft) -> (res: Result<
    BridgeProjectDraft,
    BridgeError,
>)
    ensures
        match res {
            Ok(d) => spec_normalize_draft(draft@) == Ok::<DraftView, BridgeFault>(d@),
            Err(e) => spec_normalize_draft(draft@) == Err::<DraftView, BridgeFault>(e@),
        },
{
    let name = trim_str(draft.name.as_str());
    let work_dir = trim_str(draft.work_dir.as_str());
    if name.as_str().is_empty() {
        return Err(BridgeError::EmptyProjectName);
    }
    if work_dir.as_str().is_empty() {
        return Err(BridgeError::EmptyWorkDir);
    }
    let allow_from = nonempty_or_default(draft.allow_from, "*");
    let admin_from = trim_str(draft.admin_from.as_str());
    let model = trim_str(draft.model.as_str());
    let permission_mode = normalize_permission_mode(draft.permission_mode.as_str());
    Ok(BridgeProjectDraft { name, work_dir, allow_from, admin_from, model, permission_mode })
}

// ---------------------------------------------------------------------------
// Reading the configuration
// ---------------------------------------------------------------------------

/// The entries of a table, as views.
pub open spec fn tv(e: Seq<(String, TomlItem)>) -> Seq<(Seq<char>, Toml)> {
    table_view(e)
}

pub open spec fn sub_table(t: Seq<(Seq<char>, Toml)>, key: Seq<char>) -> Option<
    Seq<(Seq<char>, Toml)>,
> {
    as_table(lookup(t, key))
}

pub open spec fn opt_sub(t: Option<Seq<(Seq<char>, Toml)>>, key: Seq<char>) -> Option<
    Seq<(Seq<char>, Toml)>,
> {
    match t {
        Some(x) => sub_table(x, key),
        None => None,
    }
}

pub open spec fn opt_string(t: Option<Seq<(Seq<char>, Toml)>>, key: Seq<char>) -> Option<Seq<char>> {
    match t {
        Some(x) => table_string(x, key),
        None => None,
    }
}

pub open spec fn or_else(a: Option<Seq<char>>, b: Option<Seq<char>>) -> Option<Seq<char>> {
    match a {
        Some(x) => Some(x),
        None => b,
    }
}

pub open spec fn or_empty(a: Option<Seq<char>>) -> Seq<char> {
    match a {
        Some(x) => x,
        None => Seq::empty(),
    }
}

/// A platform of type `weixin`.
pub open spec fn is_weixin(pl: Seq<(Seq<char>, Toml)>) -> bool {
    table_string(pl, "type"@) == Some("weixin"@)
}

/// The index of the first `weixin` platform.
pub open spec fn weixin_index(ps: Seq<Seq<(Seq<char>, Toml)>>) -> Option<int>
    decreases ps.len(),
{
    if ps.len() == 0 {
        None
    } else if is_weixin(ps[0]) {
        Some(0)
    } else {
        match weixin_index(ps.drop_first()) {
            Some(i) => Some(i + 1),
            None => None,
        }
    }
}

pub open spec fn platforms_of(p: Seq<(Seq<char>, Toml)>) -> Option<Seq<Seq<(Seq<char>, Toml)>>> {
    as_array_of_tables(lookup(p, "platforms"@))
}

/// The options hold a whole session: a token, an account ID and a base URL.
pub open spec fn has_session(opts: Option<Seq<(Seq<char>, Toml)>>) -> bool {
    match opts {
        Some(o) => table_string(o, "token"@) is Some && table_string(o, "account_id"@) is Some
            && table_string(o, "base_url"@) is Some,
        None => false,
    }
}

/// Of a project's first `weixin` platform: the senders allowed, the administrators (each
/// from the platform, else from its options, else empty), and whether its options hold
/// a whole session; empty and no session without such a platform.
pub open spec fn spec_weixin_fields(p: Seq<(Seq<char>, Toml)>) -> (Seq<char>, Seq<char>, bool) {
    match platforms_of(p) {
        None => (Seq::empty(), Seq::empty(), false),
        Some(ps) => match weixin_index(ps) {
            None => (Seq::empty(), Seq::empty(), false),
            Some(i) => {
                let pl = ps[i];
                let opts = sub_table(pl, "options"@);
                (
                    or_empty(or_else(table_string(pl, "allow_from"@), opt_string(opts, "allow_from"@))),
                    or_empty(or_else(table_string(pl, "admin_from"@), opt_string(opts, "admin_from"@))),
                    has_session(opts),
                )
            },
        },
    }
}

/// The session of a project's first `weixin` platform, where its options hold a whole
/// one.
pub open spec fn spec_weixin_session(p: Seq<(Seq<char>, Toml)>) -> Option<
    (Seq<char>, Seq<char>, Seq<char>),
> {
    match platforms_of(p) {
        None => None,
        Some(ps) => match weixin_index(ps) {
            None => None,
            Some(i) => match sub_table(ps[i], "options"@) {
                None => None,
                Some(o) => match (
                    table_string(o, "token"@),
                    table_string(o, "account_id"@),
                    table_string(o, "base_url"@),
                ) {
                    (Some(t), Some(a), Some(b)) => Some((t, a, b)),
                    _ => None,
                },
            },
        },
    }
}

/// A project as shown: its name (or a placeholder), working directory (from the
/// agent's options, else the project), agent type, platforms, senders, model (from the
/// agent, else its options) and permission mode (normalized, `plan` where none is set).
pub open spec fn spec_project_status(p: Seq<(Seq<char>, Toml)>) -> ProjectView {
    let agent = sub_table(p, "agent"@);
    let options = opt_sub(agent, "options"@);
    let agent_type = or_empty(opt_string(agent, "type"@));
    let (allow, admin, session) = spec_weixin_fields(p);
    ProjectView {
        name: match table_string(p, "name"@) {
            Some(n) => n,
            None => "(未命名项目)"@,
        },
        work_dir: or_empty(or_else(opt_string(options, "work_dir"@), table_string(p, "work_dir"@))),
        agent_type,
        has_weixin: match platforms_of(p) {
            Some(ps) => weixin_index(ps) is Some,
            None => false,
        },
        has_weixin_session: session,
        has_codex: agent_type == "codex"@,
        allow_from: allow,
        admin_from: admin,
        model: or_empty(or_else(opt_string(agent, "model"@), opt_string(options, "model"@))),
        permission_mode: match opt_string(options, "mode"@) {
            Some(m) => spec_permission_mode(m),
            None => "plan"@,
        },
    }
}

pub open spec fn project_views(s: Seq<BridgeProjectStatus>) -> Seq<ProjectView> {
    s.map_values(|p: BridgeProjectStatus| p@)
}

/// The projects of the configuration, in order; none where it has no `projects` array.
pub open spec fn spec_project_statuses(doc: Seq<(Seq<char>, Toml)>) -> Seq<ProjectView> {
    match as_array_of_tables(lookup(doc, "projects"@)) {
        Some(ps) => ps.map_values(|p: Seq<(Seq<char>, Toml)>| spec_project_status(p)),
        None => Seq::empty(),
    }
}

pub open spec fn tables_view(ts: Seq<Vec<(String, TomlItem)>>) -> Seq<Seq<(Seq<char>, Toml)>> {
    ts.map_values(|e: Vec<(String, TomlItem)>| table_view(e@))
}

fn sub_table_exec<'a>(t: &'a Vec<(String, TomlItem)>, key: &str) -> (res: Option<
    &'a Vec<(String, TomlItem)>,
>)
    ensures
        match res {
            Some(e) => sub_table(tv(t@), key@) == Some(tv(e@)),
            None => sub_table(tv(t@), key@) is None,
        },
{
    toml_as_table(toml_lookup(t, key))
}

fn opt_string_exec(t: Option<&Vec<(String, TomlItem)>>, key: &str) -> (res: Option<String>)
    ensures
        opt_text(res) == opt_string(
            match t {
                Some(x) => Some(tv(x@)),
                None => None,
            },
            key@,
        ),
{
    match t {
        Some(x) => toml_table_string(x, key),
        None => None,
    }
}

fn platforms_exec(p: &Vec<(String, TomlItem)>) -> (res: Option<&Vec<Vec<(String, TomlItem)>>>)
    ensures
        match res {
            Some(ps) => platforms_of(tv(p@)) == Some(tables_view(ps@)),
            None => platforms_of(tv(p@)) is None,
        },
{
    toml_as_array_of_tables(toml_lookup(p, "platforms"))
}

fn weixin_index_exec(ps: &Vec<Vec<(String, TomlItem)>>) -> (res: Option<usize>)
    ensures
        match res {
            Some(i) => weixin_index(tables_view(ps@)) == Some(i as int) && i < ps@.len(),
            None => weixin_index(tables_view(ps@)) is None,
        },
{
    let ghost pv = tables_view(ps@);
    let mut i: usize = 0;
    assert(pv.skip(0) =~= pv);
    while i < ps.len()
        invariant
            i <= ps.len(),
            pv == tables_view(ps@),
            weixin_index(pv) == match weixin_index(pv.skip(i as int)) {
                Some(j) => Some(j + i),
                None => None,
            },
        decreases ps.len() - i,
    {
        let ghost rest = pv.skip(i as int);
        assert(rest.drop_first() =~= pv.skip(i + 1));
        assert(rest[0] == pv[i as int]);
        match toml_table_string(&ps[i], "type") {
            Some(t) => {
                if str_eq(t.as_str(), "weixin") {
                    return Some(i);
                }
            },
            None => {},
        }
        i += 1;
    }
    None
}

fn or_else_exec(a: Option<String>, b: Option<String>) -> (res: String)
    ensures
        res@ == or_empty(or_else(opt_text(a), opt_text(b))),
{
    match a {
        Some(x) => x,
        None => match b {
            Some(y) => y,
            None => String::new(),
        },
    }
}

/// Of a project's first `weixin` platform: senders allowed, administrators, and whether
/// a whole session is stored.
pub fn read_weixin_fields(project: &Vec<(String, TomlItem)>) -> (res: (String, String, bool))
    ensures
        (res.0@, res.1@, res.2) == spec_weixin_fields(tv(project@)),
{
    let ps = match platforms_exec(project) {
        Some(ps) => ps,
        None => return (String::new(), String::new(), false),
    };
    let i = match weixin_index_exec(ps) {
        Some(i) => i,
        None => return (String::new(), String::new(), false),
    };
    let pl = &ps[i];
    let opts = sub_table_exec(pl, "options");
    let session = match opts {
        Some(o) => toml_table_string(o, "token").is_some() && toml_table_string(o, "account_id").is_some()
            && toml_table_string(o, "base_url").is_some(),
        None => false,
    };
    let allow = or_else_exec(toml_table_string(pl, "allow_from"), opt_string_exec(opts, "allow_from"));
    let admin = or_else_exec(toml_table_string(pl, "admin_from"), opt_string_exec(opts, "admin_from"));
    (allow, admin, session)
}

pub open spec fn session_view(s: WeixinSession) -> (Seq<char>, Seq<char>, Seq<char>) {
    (s.token@, s.account_id@, s.base_url@)
}

/// The session stored for a project's first `weixin` platform.
pub fn find_weixin_session(project: &Vec<(String, TomlItem)>) -> (res: Option<WeixinSession>)
    ensures
        match res {
            Some(s) => spec_weixin_session(tv(project@)) == Some(session_view(s)),
            None => spec_weixin_session(tv(project@)) is None,
        },
{
    let ps = match platforms_exec(project) {
        Some(ps) => ps,
        None => return None,
    };
    let i = match weixin_index_exec(ps) {
        Some(i) => i,
        None => return None,
    };
    let o = match sub_table_exec(&ps[i], "options") {
        Some(o) => o,
        None => return None,
    };
    let token = toml_table_string(o, "token");
    let account_id = toml_table_string(o, "account_id");
    let base_url = toml_table_string(o, "base_url");
    match (token, account_id, base_url) {
        (Some(token), Some(account_id), Some(base_url)) => Some(
            WeixinSession { token, account_id, base_url },
        ),
        _ => None,
    }
}

fn project_status(p: &Vec<(String, TomlItem)>) -> (res: BridgeProjectStatus)
    ensures
        res@ == spec_project_status(tv(p@)),
{
    let agent = sub_table_exec(p, "agent");
    let options = match agent {
        Some(a) => sub_table_exec(a, "options"),
        None => None,
    };
    let name = match toml_table_string(p, "name") {
        Some(n) => n,
        None => "(未命名项目)".to_string(),
    };
    let work_dir = or_else_exec(opt_string_exec(options, "work_dir"), toml_table_string(p, "work_dir"));
    let agent_type = or_else_exec(opt_string_exec(agent, "type"), None);
    let has_codex = str_eq(agent_type.as_str(), "codex");
    let has_weixin = match platforms_exec(p) {
        Some(ps) => weixin_index_exec(ps).is_some(),
        None => false,
    };
    let (allow_from, admin_from, has_weixin_session) = read_weixin_fields(p);
    let model = or_else_exec(opt_string_exec(agent, "model"), opt_string_exec(options, "model"));
    let permission_mode = match opt_string_exec(options, "mode") {
        Some(m) => normalize_permission_mode(m.as_str()),
        None => "plan".to_string(),
    };
    BridgeProjectStatus {
        name,
        work_dir,
        agent_type,
        has_weixin,
        has_weixin_session,
        has_codex,
        allow_from,
        admin_from,
        model,
        permission_mode,
    }
}

/// The projects of the WeChat connection's configuration document.
pub fn read_projects(document: &Vec<(String, TomlItem)>) -> (res: Vec<BridgeProjectStatus>)
    ensures
        project_views(res@) == spec_project_statuses(tv(document@)),
{
    let mut out: Vec<BridgeProjectStatus> = Vec::new();
    let ps = match toml_as_array_of_tables(toml_lookup(document, "projects")) {
        Some(ps) => ps,
        None => {
            assert(project_views(out@) =~= Seq::<ProjectView>::empty());
            return out;
        },
    };
    let ghost want = spec_project_statuses(tv(document@));
    let mut k: usize = 0;
    while k < ps.len()
        invariant
            k <= ps.len(),
            want == tables_view(ps@).map_values(
                |p: Seq<(Seq<char>, Toml)>| spec_project_status(p),
            ),
            project_views(out@) == want.take(k as int),
        decreases ps.len() - k,
    {
        let st = project_status(&ps[k]);
        let ghost before = project_views(out@);
        out.push(st);
        assert(project_views(out@) =~= before.push(want[k as int]));
        assert(want.take(k + 1) =~= want.take(k as int).push(want[k as int]));
        k += 1;
    }
    assert(want.take(k as int) =~= want);
    out
}

// ---------------------------------------------------------------------------
// Writing the chosen project
// ---------------------------------------------------------------------------

pub open spec fn projects_of(doc: Seq<(Seq<char>, Toml)>) -> Option<Seq<Seq<(Seq<char>, Toml)>>> {
    as_array_of_tables(lookup(doc, "projects"@))
}

/// The index of the first project named `name`.
pub open spec fn named_index(ps: Seq<Seq<(Seq<char>, Toml)>>, name: Seq<char>) -> Option<int>
    decreases ps.len(),
{
    if ps.len() == 0 {
        None
    } else if table_string(ps[0], "name"@) == Some(name) {
        Some(0)
    } else {
        match named_index(ps.drop_first(), name) {
            Some(i) => Some(i + 1),
            None => None,
        }
    }
}

/// The session stored for the first project named `name`.
pub open spec fn spec_session_for(doc: Seq<(Seq<char>, Toml)>, name: Seq<char>) -> Option<
    (Seq<char>, Seq<char>, Seq<char>),
> {
    match projects_of(doc) {
        None => None,
        Some(ps) => match named_index(ps, name) {
            Some(i) => spec_weixin_session(ps[i]),
            None => None,
        },
    }
}

/// The first session stored for any project, in order.
pub open spec fn first_session(ps: Seq<Seq<(Seq<char>, Toml)>>) -> Option<
    (Seq<char>, Seq<char>, Seq<char>),
>
    decreases ps.len(),
{
    if ps.len() == 0 {
        None
    } else {
        match spec_weixin_session(ps[0]) {
            Some(s) => Some(s),
            None => first_session(ps.drop_first()),
        }
    }
}

pub open spec fn spec_any_session(doc: Seq<(Seq<char>, Toml)>) -> Option<
    (Seq<char>, Seq<char>, Seq<char>),
> {
    match projects_of(doc) {
        None => None,
        Some(ps) => first_session(ps),
    }
}

/// The session stored for the first project named `project_name`.
pub fn find_session_for_project(document: &Vec<(String, TomlItem)>, project_name: &str) -> (res:
    Option<WeixinSession>)
    ensures
        match res {
            Some(s) => spec_session_for(tv(document@), project_name@) == Some(session_view(s)),
            None => spec_session_for(tv(document@), project_name@) is None,
        },
{
    let ps = match toml_as_array_of_tables(toml_lookup(document, "projects")) {
        Some(ps) => ps,
        None => return None,
    };
    let ghost pv = tables_view(ps@);
    let mut i: usize = 0;
    assert(pv.skip(0) =~= pv);
    while i < ps.len()
        invariant
            i <= ps.len(),
            pv == tables_view(ps@),
            projects_of(tv(document@)) == Some(pv),
            named_index(pv, project_name@) == match named_index(pv.skip(i as int), project_name@) {
                Some(j) => Some(j + i),
                None => None,
            },
        decreases ps.len() - i,
    {
        let ghost rest = pv.skip(i as int);
        assert(rest.drop_first() =~= pv.skip(i + 1));
        assert(rest[0] == pv[i as int]);
        match toml_table_string(&ps[i], "name") {
            Some(n) => {
                if str_eq(n.as_str(), project_name) {
                    return find_weixin_session(&ps[i]);
                }
            },
            None => {},
        }
        i += 1;
    }
    None
}

/// The first session stored for any project.
pub fn find_any_weixin_session(document: &Vec<(String, TomlItem)>) -> (res: Option<WeixinSession>)
    ensures
        match res {
            Some(s) => spec_any_session(tv(document@)) == Some(session_view(s)),
            None => spec_any_session(tv(document@)) is None,
        },
{
    let ps = match toml_as_array_of_tables(toml_lookup(document, "projects")) {
        Some(ps) => ps,
        None => return None,
    };
    let ghost pv = tables_view(ps@);
    let mut i: usize = 0;
    assert(pv.skip(0) =~= pv);
    while i < ps.len()
        invariant
            i <= ps.len(),
            pv == tables_view(ps@),
            projects_of(tv(document@)) == Some(pv),
            first_session(pv) == first_session(pv.skip(i as int)),
        decreases ps.len() - i,
    {
        let ghost rest = pv.skip(i as int);
        assert(rest.drop_first() =~= pv.skip(i + 1));
        assert(rest[0] == pv[i as int]);
        match find_weixin_session(&ps[i]) {
            Some(s) => return Some(s),
            None => {},
        }
        i += 1;
    }
    None
}

pub open spec fn opt_session(s: Option<WeixinSession>) -> Option<(Seq<char>, Seq<char>, Seq<char>)> {
    match s {
        Some(x) => Some(session_view(x)),
        None => None,
    }
}

pub open spec fn str_item(s: Seq<char>) -> Toml {
    Toml::Str(s)
}

/// The table written for a project: its name; an agent of type `codex` with the working
/// directory, the model where one is given, and the permission mode; one `weixin`
/// platform with the senders allowed, the administrators where given, and the session
/// where one is kept.
pub open spec fn spec_project_table(
    d: DraftView,
    session: Option<(Seq<char>, Seq<char>, Seq<char>)>,
) -> Seq<(Seq<char>, Toml)> {
    let agent_options = seq![("work_dir"@, str_item(d.work_dir))] + (if d.model.len() > 0 {
        seq![("model"@, str_item(d.model))]
    } else {
        Seq::empty()
    }) + seq![("mode"@, str_item(d.permission_mode))];
    let weixin_options = seq![("allow_from"@, str_item(d.allow_from))] + (if d.admin_from.len()
        > 0 {
        seq![("admin_from"@, str_item(d.admin_from))]
    } else {
        Seq::empty()
    }) + match session {
        Some((t, a, b)) => seq![
            ("token"@, str_item(t)),
            ("account_id"@, str_item(a)),
            ("base_url"@, str_item(b)),
        ],
        None => Seq::empty(),
    };
    seq![
        ("name"@, str_item(d.name)),
        ("agent"@, Toml::Section(seq![("type"@, str_item("codex"@)), ("options"@, Toml::Section(agent_options))])),
        (
            "platforms"@,
            Toml::SectionArray(
                seq![seq![("type"@, str_item("weixin"@)), ("options"@, Toml::Section(weixin_options))]],
            ),
        ),
    ]
}

proof fn lemma_table_view(es: Vec<(String, TomlItem)>)
    ensures
        toml_view(TomlItem::Section(es)) == Toml::Section(table_view(es@)),
{
    if let Toml::Section(a) = toml_view(TomlItem::Section(es)) {
        assert(a =~= table_view(es@));
    }
}

fn entry(key: &str, value: TomlItem) -> (res: (String, TomlItem))
    ensures
        res.0@ == key@,
        res.1@ == value@,
{
    (key.to_string(), value)
}

fn push_entry(es: &mut Vec<(String, TomlItem)>, key: &str, value: TomlItem)
    ensures
        table_view(final(es)@) == table_view(old(es)@).push((key@, value@)),
{
    let ghost v = value@;
    es.push(entry(key, value));
    assert(table_view(es@) =~= table_view(old(es)@).push((key@, v)));
}

fn text_item(s: &String) -> (res: TomlItem)
    ensures
        res@ == Toml::Str(s@),
{
    TomlItem::Str(s.clone())
}

/// The table written for a project, as `spec_project_table` describes it.
pub fn write_project_table(draft: &BridgeProjectDraft, session: Option<WeixinSession>) -> (res: Vec<
    (String, TomlItem),
>)
    ensures
        tv(res@) == spec_project_table(draft@, opt_session(session)),
{
    let ghost sv = opt_session(session);
    let mut agent_options: Vec<(String, TomlItem)> = Vec::new();
    push_entry(&mut agent_options, "work_dir", text_item(&draft.work_dir));
    if !draft.model.as_str().is_empty() {
        push_entry(&mut agent_options, "model", text_item(&draft.model));
    }
    push_entry(&mut agent_options, "mode", text_item(&draft.permission_mode));
    let mut agent: Vec<(String, TomlItem)> = Vec::new();
    push_entry(&mut agent, "type", TomlItem::Str("codex".to_string()));
    let ghost aov = table_view(agent_options@);
    proof {
        lemma_table_view(agent_options);
    }
    push_entry(&mut agent, "options", TomlItem::Section(agent_options));
    let mut weixin_options: Vec<(String, TomlItem)> = Vec::new();
    push_entry(&mut weixin_options, "allow_from", text_item(&draft.allow_from));
    if !draft.admin_from.as_str().is_empty() {
        push_entry(&mut weixin_options, "admin_from", text_item(&draft.admin_from));
    }
    let ghost before_session = table_view(weixin_options@);
    match session {
        Some(s) => {
            push_entry(&mut weixin_options, "token", TomlItem::Str(s.token));
            push_entry(&mut weixin_options, "account_id", TomlItem::Str(s.account_id));
            push_entry(&mut weixin_options, "base_url", TomlItem::Str(s.base_url));
        },
        None => {},
    }
    let mut weixin: Vec<(String, TomlItem)> = Vec::new();
    push_entry(&mut weixin, "type", TomlItem::Str("weixin".to_string()));
    let ghost wov = table_view(weixin_options@);
    proof {
        lemma_table_view(weixin_options);
    }
    push_entry(&mut weixin, "options", TomlItem::Section(weixin_options));
    let ghost wv = table_view(weixin@);
    let mut platforms: Vec<Vec<(String, TomlItem)>> = Vec::new();
    platforms.push(weixin);
    let platforms_item = TomlItem::SectionArray(platforms);
    proof {
        if let Toml::SectionArray(a) = toml_view(platforms_item) {
            assert(a.len() == 1);
            assert(a[0] =~= wv);
            assert(a =~= seq![wv]);
        }
    }
    let mut project: Vec<(String, TomlItem)> = Vec::new();
    push_entry(&mut project, "name", text_item(&draft.name));
    let ghost agv = table_view(agent@);
    proof {
        lemma_table_view(agent);
    }
    push_entry(&mut project, "agent", TomlItem::Section(agent));
    push_entry(&mut project, "platforms", platforms_item);
    proof {
        reveal_strlit("codex");
        reveal_strlit("weixin");
        assert(aov =~= seq![("work_dir"@, str_item(draft.work_dir@))] + (if draft.model@.len() > 0 {
            seq![("model"@, str_item(draft.model@))]
        } else {
            Seq::empty()
        }) + seq![("mode"@, str_item(draft.permission_mode@))]);
        assert(wov =~= seq![("allow_from"@, str_item(draft.allow_from@))] + (if draft.admin_from@.len()
            > 0 {
            seq![("admin_from"@, str_item(draft.admin_from@))]
        } else {
            Seq::empty()
        }) + match sv {
            Some((t, a, b)) => seq![
                ("token"@, str_item(t)),
                ("account_id"@, str_item(a)),
                ("base_url"@, str_item(b)),
            ],
            None => Seq::empty(),
        });
        assert(agv =~= seq![("type"@, str_item("codex"@)), ("options"@, Toml::Section(aov))]);
        assert(wv =~= seq![("type"@, str_item("weixin"@)), ("options"@, Toml::Section(wov))]);
    }
    assert(tv(project@) =~= spec_project_table(draft@, sv));
    project
}

/// What saving a project writes into the WeChat connection's configuration.
#[derive(Debug)]
pub struct BridgeConfigUpdate {
    /// The connection's data directory, set as `data_dir`.
    pub data_dir: String,
    /// The one project of the `projects` array.
    pub project: Vec<(String, TomlItem)>,
    /// What is reported.
    pub message: String,
}

/// Saving a project: the draft normalized (or refused); the data directory; the project's
/// table, keeping the session stored for its name, else any session stored; and the
/// report.
pub open spec fn spec_bridge_update(
    d: DraftView,
    doc: Seq<(Seq<char>, Toml)>,
    data_dir: Seq<char>,
) -> Result<(Seq<char>, Seq<(Seq<char>, Toml)>, Seq<char>), BridgeFault> {
    match spec_normalize_draft(d) {
        Err(e) => Err(e),
        Ok(n) => {
            let session = match spec_session_for(doc, n.name) {
                Some(s) => Some(s),
                None => spec_any_session(doc),
            };
            Ok((data_dir, spec_project_table(n, session), "已切换微信连接项目："@ + n.name))
        },
    }
}

/// What saving a project writes into the configuration `document` (as it stands, or the
/// default one where there is none).
pub fn save_bridge_project_impl(
    draft: BridgeProjectDraft,
    document: &Vec<(String, TomlItem)>,
    data_dir: &str,
) -> (res: Result<BridgeConfigUpdate, BridgeError>)
    ensures
        match res {
            Ok(u) => spec_bridge_update(draft@, tv(document@), data_dir@) == Ok::<
                (Seq<char>, Seq<(Seq<char>, Toml)>, Seq<char>),
                BridgeFault,
            >((u.data_dir@, tv(u.project@), u.message@)),
            Err(e) => spec_bridge_update(draft@, tv(document@), data_dir@) == Err::<
                (Seq<char>, Seq<(Seq<char>, Toml)>, Seq<char>),
                BridgeFault,
            >(e@),
        },
{
    let d = match normalize_project_draft(draft) {
        Ok(d) => d,
        Err(e) => return Err(e),
    };
    let session = match find_session_for_project(document, d.name.as_str()) {
        Some(s) => Some(s),
        None => find_any_weixin_session(document),
    };
    let project = write_project_table(&d, session);
    let mut msg = chars_of("已切换微信连接项目：");
    crate::text::append_str(&mut msg, d.name.as_str());
    Ok(BridgeConfigUpdate {
        data_dir: data_dir.to_string(),
        project,
        message: string_of(msg.as_slice()),
    })
}

/// The project's table has distinct keys at every level, and holds only strings, tables
/// and arrays of tables.
proof fn lemma_project_table_writable(d: DraftView, session: Option<(Seq<char>, Seq<char>, Seq<char>)>)
    ensures
        distinct_keys(spec_project_table(d, session)),
        writable_all(spec_project_table(d, session)),
{
    reveal_strlit("name");
    reveal_strlit("agent");
    reveal_strlit("platforms");
    reveal_strlit("type");
    reveal_strlit("options");
    reveal_strlit("work_dir");
    reveal_strlit("model");
    reveal_strlit("mode");
    reveal_strlit("allow_from");
    reveal_strlit("admin_from");
    reveal_strlit("token");
    reveal_strlit("account_id");
    reveal_strlit("base_url");
    assert("allow_from"@[1] != "admin_from"@[1]);
    assert("allow_from"@[1] != "account_id"@[1]);
    assert("admin_from"@[1] != "account_id"@[1]);
    let p = spec_project_table(d, session);
    let agent = p[1].1->Section_0;
    let agent_options = agent[1].1->Section_0;
    let weixin = p[2].1->SectionArray_0[0];
    let weixin_options = weixin[1].1->Section_0;
    lemma_all_strings_writable(agent_options);
    lemma_all_strings_writable(weixin_options);
    assert(distinct_keys(agent_options)) by {
        let ao = agent_options;
        assert forall|i: int, j: int| 0 <= i < j < ao.len() implies ao[i].0 != ao[j].0 by {
            if d.model.len() > 0 {
                assert(ao[0].0 == "work_dir"@ && ao[1].0 == "model"@ && ao[2].0 == "mode"@);
            } else {
                assert(ao[0].0 == "work_dir"@ && ao[1].0 == "mode"@);
            }
        }
    }
    assert(distinct_keys(weixin_options)) by {
        let wo = weixin_options;
        let head = seq!["allow_from"@] + if d.admin_from.len() > 0 {
            seq!["admin_from"@]
        } else {
            Seq::empty()
        };
        let tail = match session {
            Some(_) => seq!["token"@, "account_id"@, "base_url"@],
            None => Seq::<Seq<char>>::empty(),
        };
        let keys = head + tail;
        assert(wo.len() == keys.len());
        assert forall|k: int| 0 <= k < wo.len() implies wo[k].0 == keys[k] by {}
        assert forall|i: int, j: int| 0 <= i < j < wo.len() implies wo[i].0 != wo[j].0 by {
            assert(wo[i].0 == keys[i] && wo[j].0 == keys[j]);
        }
    }
    assert(writable(agent[0].1) && writable(agent[1].1));
    assert(writable(weixin[0].1) && writable(weixin[1].1));
    lemma_writable_from_items(agent);
    lemma_writable_from_items(weixin);
    assert(distinct_keys(weixin)) by {
        assert forall|i: int, j: int| 0 <= i < j < weixin.len() implies weixin[i].0 != weixin[j].0 by {
            assert(weixin[0].0 == "type"@ && weixin[1].0 == "options"@);
        }
    }
    assert(distinct_keys(agent)) by {
        assert forall|i: int, j: int| 0 <= i < j < agent.len() implies agent[i].0 != agent[j].0 by {
            assert(agent[0].0 == "type"@ && agent[1].0 == "options"@);
        }
    }
    assert(writable_tables(p[2].1->SectionArray_0)) by {
        let ts = p[2].1->SectionArray_0;
        assert(ts.len() == 1 && ts[0] == weixin);
        assert(ts.subrange(0, 0) =~= Seq::<Seq<(Seq<char>, Toml)>>::empty());
        assert(writable_tables(ts.subrange(0, 0)));
    }
    assert(distinct_keys(p)) by {
        assert forall|i: int, j: int| 0 <= i < j < p.len() implies p[i].0 != p[j].0 by {
            assert(p[0].0 == "name"@ && p[1].0 == "agent"@ && p[2].0 == "platforms"@);
        }
    }
    lemma_writable_from_items(p);
}

/// The configuration after saving a project, rendered by toml_edit: `source` parsed,
/// `data_dir` set to the connection's data directory, and `projects` holding the
/// project's table alone, as `spec_bridge_update` gives them.
pub open spec fn bridge_config_written(
    text: Seq<char>,
    message: Seq<char>,
    source: Seq<char>,
    d: DraftView,
    data_dir: Seq<char>,
) -> bool {
    match spec_bridge_update(d, toml_text_table(source), data_dir) {
        Ok((dd, project, msg)) => {
            &&& message == msg
            &&& exists|doc: toml_edit::DocumentMut|
                {
                    &&& toml_doc_text(doc) == text
                    &&& toml_doc_table(doc) == table_with(
                        table_with(toml_text_table(source), "data_dir"@, Toml::Str(dd)),
                        "projects"@,
                        Toml::SectionArray(seq![project]),
                    )
                }
        },
        Err(_) => false,
    }
}

/// Saves a project into the connection's configuration `source` (as it stands, or the
/// default one where there is none): the new text and the report. The draft is checked
/// first, then the configuration is read.
pub fn bridge_config_text(source: &str, draft: BridgeProjectDraft, data_dir: &str) -> (res: Result<
    (String, String),
    BridgeError,
>)
    ensures
        spec_normalize_draft(draft@) matches Err(f) ==> (res matches Err(e) && e@ == f),
        spec_normalize_draft(draft@) is Ok && !toml_accepts(source@) ==> (res matches Err(
            BridgeError::UnreadableConfig,
        )),
        spec_normalize_draft(draft@) is Ok && toml_accepts(source@) ==> (res matches Ok((t, m))
            && bridge_config_written(t@, m@, source@, draft@, data_dir@)),
{
    let ghost dv = draft@;
    let mut doc = match toml_parse_document(source) {
        Some(doc) => doc,
        None => {
            return match normalize_project_draft(draft) {
                Err(e) => Err(e),
                Ok(_) => Err(BridgeError::UnreadableConfig),
            };
        },
    };
    let entries = document_entries(&doc);
    let update = match save_bridge_project_impl(draft, &entries, data_dir) {
        Ok(u) => u,
        Err(e) => return Err(e),
    };
    proof {
        match spec_normalize_draft(dv) {
            Ok(n) => {
                let session = match spec_session_for(tv(entries@), n.name) {
                    Some(x) => Some(x),
                    None => spec_any_session(tv(entries@)),
                };
                lemma_project_table_writable(n, session);
            },
            Err(_) => {},
        }
    }
    toml_doc_put(&mut doc, "data_dir", toml_str_item(update.data_dir.as_str()));
    toml_doc_put_tables(&mut doc, "projects", &update.project);
    let text = toml_render(&doc);
    Ok((text, update.message))
}

/// The connection's configuration `source` with `data_dir` set to the data directory:
/// nothing to write where it names it already.
pub fn config_with_data_dir(source: &str, data_dir: &str) -> (res: Result<Option<String>, BridgeError>)
    ensures
        !toml_accepts(source@) ==> (res matches Err(BridgeError::UnreadableConfig)),
        toml_accepts(source@) && crate::toml::item_str(lookup(toml_text_table(source@), "data_dir"@))
            == Some(data_dir@) ==> (res matches Ok(None)),
        toml_accepts(source@) && crate::toml::item_str(lookup(toml_text_table(source@), "data_dir"@))
            != Some(data_dir@) ==> (res matches Ok(Some(t)) && exists|doc: toml_edit::DocumentMut|
            {
                &&& toml_doc_text(doc) == t@
                &&& toml_doc_table(doc) == table_with(
                    toml_text_table(source@),
                    "data_dir"@,
                    Toml::Str(data_dir@),
                )
            }),
{
    let mut doc = match toml_parse_document(source) {
        Some(doc) => doc,
        None => return Err(BridgeError::UnreadableConfig),
    };
    let entries = document_entries(&doc);
    if data_dir_is_current(&entries, data_dir) {
        return Ok(None);
    }
    toml_doc_put(&mut doc, "data_dir", toml_str_item(data_dir));
    Ok(Some(toml_render(&doc)))
}

/// The configuration written where there is none yet.
pub open spec fn spec_default_bridge_config() -> Seq<char> {
    "[log]\nlevel = \"info\"\n\n[display]\nmode = \"yolo\"\nthinking_messages = true\ntool_messages = false\n"@
}

/// The configuration written where there is none yet.
pub fn default_bridge_config() -> (res: String)
    ensures
        res@ == spec_default_bridge_config(),
{
    "[log]\nlevel = \"info\"\n\n[display]\nmode = \"yolo\"\nthinking_messages = true\ntool_messages = false\n".to_string()
}

/// The configuration already names `data_dir` as its data directory.
pub fn data_dir_is_current(document: &Vec<(String, TomlItem)>, data_dir: &str) -> (res: bool)
    ensures
        res == (crate::toml::item_str(lookup(tv(document@), "data_dir"@)) == Some(data_dir@)),
{
    match crate::toml::toml_item_str(toml_lookup(document, "data_dir")) {
        Some(s) => str_eq(s.as_str(), data_dir),
        None => false,
    }
}

// ---------------------------------------------------------------------------
// Codex projects
// ---------------------------------------------------------------------------

/// The name shown for a working directory: its last name where that is not blank, else
/// the directory itself.
pub open spec fn spec_display_name(work_dir: Seq<char>, windows: bool) -> Seq<char> {
    match crate::pathparts::file_name(work_dir, windows) {
        Some(n) => if trim(n).len() > 0 {
            n
        } else {
            work_dir
        },
        None => work_dir,
    }
}

/// The name shown for a working directory.
pub fn project_display_name(work_dir: &str, windows: bool) -> (res: String)
    ensures
        res@ == spec_display_name(work_dir@, windows),
{
    match crate::pathparts::path_file_name(work_dir, windows) {
        Some(n) => if is_blank(n.as_str()) {
            work_dir.to_string()
        } else {
            n
        },
        None => work_dir.to_string(),
    }
}

/// The strings among the items, trimmed, that are not blank.
pub open spec fn json_texts(items: Seq<crate::json::Json>) -> Seq<Seq<char>>
    decreases items.len(),
{
    if items.len() == 0 {
        Seq::empty()
    } else {
        let head = json_texts(items.drop_last());
        match items.last() {
            crate::json::Json::Str(s) => if trim(s).len() > 0 {
                head.push(trim(s))
            } else {
                head
            },
            _ => head,
        }
    }
}

pub open spec fn array_at(v: Option<crate::json::Json>, key: Seq<char>) -> Seq<crate::json::Json> {
    match crate::json::get(v, key) {
        Some(crate::json::Json::Array(items)) => items,
        _ => Seq::empty(),
    }
}

/// The working directories that Codex's global state lists: its project order, then its
/// saved workspace roots.
pub open spec fn spec_global_dirs(v: Option<crate::json::Json>) -> Seq<Seq<char>> {
    json_texts(array_at(v, "project-order"@)) + json_texts(
        array_at(v, "electron-saved-workspace-roots"@),
    )
}

/// The names of a table's entries, trimmed, that are not blank.
pub open spec fn key_texts(es: Seq<(Seq<char>, Toml)>) -> Seq<Seq<char>>
    decreases es.len(),
{
    if es.len() == 0 {
        Seq::empty()
    } else {
        let head = key_texts(es.drop_last());
        if trim(es.last().0).len() > 0 {
            head.push(trim(es.last().0))
        } else {
            head
        }
    }
}

/// The working directories that Codex's configuration lists under `projects`.
pub open spec fn spec_config_dirs(doc: Option<Seq<(Seq<char>, Toml)>>) -> Seq<Seq<char>> {
    match doc {
        Some(d) => match crate::toml::as_table_like(lookup(d, "projects"@)) {
            Some(es) => key_texts(es),
            None => Seq::empty(),
        },
        None => Seq::empty(),
    }
}

/// Each text once, where it first comes.
pub open spec fn dedup_texts(s: Seq<Seq<char>>) -> Seq<Seq<char>>
    decreases s.len(),
{
    if s.len() == 0 {
        Seq::empty()
    } else {
        let head = dedup_texts(s.drop_last());
        if head.contains(s.last()) {
            head
        } else {
            head.push(s.last())
        }
    }
}

/// The projects Codex knows of: the directories of its global state, then of its
/// configuration, each once, with the names shown for them.
pub open spec fn spec_codex_projects(
    global: Option<crate::json::Json>,
    config: Option<Seq<(Seq<char>, Toml)>>,
    windows: bool,
) -> Seq<(Seq<char>, Seq<char>)> {
    dedup_texts(spec_global_dirs(global) + spec_config_dirs(config)).map_values(
        |d: Seq<char>| (spec_display_name(d, windows), d),
    )
}

fn push_texts(out: &mut Vec<String>, items: &Vec<crate::json::JsonValue>)
    ensures
        crate::text::string_views(final(out)@) == crate::text::string_views(old(out)@) + json_texts(
            crate::json::values_view(items@),
        ),
{
    let ghost iv = crate::json::values_view(items@);
    let ghost start = crate::text::string_views(out@);
    let mut k: usize = 0;
    assert(iv.take(0) =~= Seq::<crate::json::Json>::empty());
    while k < items.len()
        invariant
            k <= items.len(),
            iv == crate::json::values_view(items@),
            crate::text::string_views(out@) == start + json_texts(iv.take(k as int)),
        decreases items.len() - k,
    {
        assert(iv.take(k + 1).drop_last() =~= iv.take(k as int));
        assert(iv.take(k + 1).last() == crate::json::json_view(items@[k as int]));
        match &items[k] {
            crate::json::JsonValue::Str(s) => {
                let t = trim_str(s.as_str());
                if !t.as_str().is_empty() {
                    let ghost before = crate::text::string_views(out@);
                    out.push(t);
                    assert(crate::text::string_views(out@) =~= before.push(trim(s@)));
                }
            },
            _ => {},
        }
        k += 1;
    }
    assert(iv.take(k as int) =~= iv);
}

fn array_exec<'a>(v: Option<&'a crate::json::JsonValue>, key: &str) -> (res: Option<
    &'a Vec<crate::json::JsonValue>,
>)
    ensures
        match res {
            Some(items) => array_at(crate::json::view_opt(v), key@) == crate::json::values_view(
                items@,
            ),
            None => array_at(crate::json::view_opt(v), key@) == Seq::<crate::json::Json>::empty(),
        },
{
    match crate::json::json_get(v, key) {
        Some(crate::json::JsonValue::Array(items)) => {
            proof {
                crate::json::lemma_array_view(*items);
            }
            Some(items)
        },
        _ => None,
    }
}

/// The projects Codex knows of, from its global state and its configuration (each as
/// read, nothing where the file is missing).
#[verifier::spinoff_prover]
#[verifier::rlimit(30)]
pub fn read_codex_projects(
    global: Option<&crate::json::JsonValue>,
    config: Option<&Vec<(String, TomlItem)>>,
    windows: bool,
) -> (res: Vec<CodexProjectStatus>)
    ensures
        res@.map_values(|p: CodexProjectStatus| (p.name@, p.work_dir@)) == spec_codex_projects(
            crate::json::view_opt(global),
            match config {
                Some(d) => Some(tv(d@)),
                None => None,
            },
            windows,
        ),
{
    let mut dirs: Vec<String> = Vec::new();
    match array_exec(global, "project-order") {
        Some(items) => push_texts(&mut dirs, items),
        None => {},
    }
    match array_exec(global, "electron-saved-workspace-roots") {
        Some(items) => push_texts(&mut dirs, items),
        None => {},
    }
    assert(crate::text::string_views(dirs@) =~= spec_global_dirs(crate::json::view_opt(global)));
    let ghost gd = crate::text::string_views(dirs@);
    match config {
        Some(d) => match crate::toml::toml_as_table_like(toml_lookup(d, "projects")) {
            Some(es) => {
                let ghost ev = tv(es@);
                let mut k: usize = 0;
                assert(ev.take(0) =~= Seq::<(Seq<char>, Toml)>::empty());
                assert(crate::text::string_views(dirs@) =~= gd + key_texts(ev.take(0)));
                while k < es.len()
                    invariant
                        k <= es.len(),
                        ev == tv(es@),
                        crate::text::string_views(dirs@) == gd + key_texts(ev.take(k as int)),
                    decreases es.len() - k,
                {
                    assert(ev.take(k + 1).drop_last() =~= ev.take(k as int));
                    assert(ev.take(k + 1).last() == ev[k as int]);
                    let t = trim_str(es[k].0.as_str());
                    if !t.as_str().is_empty() {
                        let ghost before = crate::text::string_views(dirs@);
                        dirs.push(t);
                        assert(crate::text::string_views(dirs@) =~= before.push(trim(es@[k as int].0@)));
                    }
                    k += 1;
                }
                assert(ev.take(k as int) =~= ev);
            },
            None => {
                assert(crate::text::string_views(dirs@) =~= gd + Seq::<Seq<char>>::empty());
            },
        },
        None => {
            assert(crate::text::string_views(dirs@) =~= gd + Seq::<Seq<char>>::empty());
        },
    }
    let ghost all = crate::text::string_views(dirs@);
    let mut seen: Vec<String> = Vec::new();
    let mut k: usize = 0;
    assert(all.take(0) =~= Seq::<Seq<char>>::empty());
    assert(crate::text::string_views(seen@) =~= Seq::<Seq<char>>::empty());
    while k < dirs.len()
        invariant
            k <= dirs.len(),
            all == crate::text::string_views(dirs@),
            crate::text::string_views(seen@) == dedup_texts(all.take(k as int)),
        decreases dirs.len() - k,
    {
        assert(all.take(k + 1).drop_last() =~= all.take(k as int));
        assert(all.take(k + 1).last() == dirs@[k as int]@);
        let mut j: usize = 0;
        let ghost sv = crate::text::string_views(seen@);
        let mut found = false;
        while j < seen.len() && !found
            invariant
                j <= seen.len(),
                sv == crate::text::string_views(seen@),
                k < dirs.len(),
                found ==> sv.contains(dirs@[k as int]@),
                !found ==> forall|i: int| 0 <= i < j ==> sv[i] != dirs@[k as int]@,
            decreases seen.len() - j,
        {
            if str_eq(seen[j].as_str(), dirs[k].as_str()) {
                found = true;
                assert(sv[j as int] == dirs@[k as int]@);
            }
            j += 1;
        }
        if !found {
            seen.push(dirs[k].clone());
            assert(crate::text::string_views(seen@) =~= sv.push(dirs@[k as int]@));
        }
        k += 1;
    }
    assert(all.take(k as int) =~= all);
    let ghost dd = crate::text::string_views(seen@);
    let mut out: Vec<CodexProjectStatus> = Vec::new();
    let mut m: usize = 0;
    while m < seen.len()
        invariant
            m <= seen.len(),
            dd == crate::text::string_views(seen@),
            out@.len() == m,
            forall|i: int|
                0 <= i < m ==> (#[trigger] out@[i]).name@ == spec_display_name(dd[i], windows)
                    && out@[i].work_dir@ == dd[i],
        decreases seen.len() - m,
    {
        let name = project_display_name(seen[m].as_str(), windows);
        out.push(CodexProjectStatus { name, work_dir: seen[m].clone() });
        m += 1;
    }
    assert(out@.map_values(|p: CodexProjectStatus| (p.name@, p.work_dir@)) =~= dd.map_values(
        |d: Seq<char>| (spec_display_name(d, windows), d),
    ));
    out
}

/// The projects Codex knows of, from the text of its global state where there is one
/// (read as JSON; the reader's message where it is no JSON) and its configuration.
pub fn read_codex_projects_from_text(
    global_text: Option<&str>,
    config: Option<&Vec<(String, TomlItem)>>,
    windows: bool,
) -> (res: Result<Vec<CodexProjectStatus>, String>)
    ensures
        match global_text {
            None => res matches Ok(ps) && ps@.map_values(
                |p: CodexProjectStatus| (p.name@, p.work_dir@),
            ) == spec_codex_projects(
                None,
                match config {
                    Some(d) => Some(tv(d@)),
                    None => None,
                },
                windows,
            ),
            Some(t) => match crate::json::json_parse_result(t@) {
                Err(m) => res matches Err(e) && e@ == m,
                Ok(g) => res matches Ok(ps) && ps@.map_values(
                    |p: CodexProjectStatus| (p.name@, p.work_dir@),
                ) == spec_codex_projects(
                    Some(g),
                    match config {
                        Some(d) => Some(tv(d@)),
                        None => None,
                    },
                    windows,
                ),
            },
        },
{
    match global_text {
        None => Ok(read_codex_projects(None, config, windows)),
        Some(t) => match crate::json::parse_json_text(t) {
            Err(m) => Err(m),
            Ok(g) => Ok(read_codex_projects(Some(&g), config, windows)),
        },
    }
}

// ---------------------------------------------------------------------------
// Commands shown and run
// ---------------------------------------------------------------------------

/// A word quoted for a POSIX shell: in single quotes, each single quote inside written
/// as `'"'"'`.
pub open spec fn spec_shell_quote(v: Seq<char>) -> Seq<char> {
    seq!['\''] + crate::text::replace_char(v, '\'', "'\"'\"'"@) + seq!['\'']
}

/// A word quoted for a POSIX shell.
pub fn shell_quote(value: &str) -> (res: String)
    ensures
        res@ == spec_shell_quote(value@),
{
    let cs = chars_of(value);
    let r = chars_of("'\"'\"'");
    let inner = crate::text::replace_chars(cs.as_slice(), '\'', r.as_slice());
    let mut out: Vec<char> = Vec::new();
    out.push('\'');
    crate::text::append_chars(&mut out, inner.as_slice());
    out.push('\'');
    assert(out@ =~= spec_shell_quote(value@));
    string_of(out.as_slice())
}

/// The project name suggested for the WeChat connection.
pub fn suggest_project_name() -> (res: String)
    ensures
        res@ == "codex-tools-wechat"@,
{
    "codex-tools-wechat".to_string()
}

pub open spec fn snippet_head() -> Seq<char> {
    "[[projects]]\nname = \""@
}

pub open spec fn snippet_tail() -> Seq<char> {
    "\"\n\n[projects.agent]\ntype = \"codex\"\n\n[projects.agent.options]\nwork_dir = \"/path/to/your/project\"\n\n[[projects.platforms]]\ntype = \"weixin\"\n\n[projects.platforms.options]\nallow_from = \"*\"\n\n# 建议后续补上：\n# admin_from = \"your_weixin_user_id\"\n# model = \"gpt-5.5\"\n"@
}

/// The configuration snippet suggested for a project name.
pub fn build_project_snippet(project_name: &str) -> (res: String)
    ensures
        res@ == snippet_head() + project_name@ + snippet_tail(),
{
    let mut out = chars_of("[[projects]]\nname = \"");
    crate::text::append_str(&mut out, project_name);
    crate::text::append_str(
        &mut out,
        "\"\n\n[projects.agent]\ntype = \"codex\"\n\n[projects.agent.options]\nwork_dir = \"/path/to/your/project\"\n\n[[projects.platforms]]\ntype = \"weixin\"\n\n[projects.platforms.options]\nallow_from = \"*\"\n\n# 建议后续补上：\n# admin_from = \"your_weixin_user_id\"\n# model = \"gpt-5.5\"\n",
    );
    string_of(out.as_slice())
}

fn concat(parts: &Vec<&str>) -> (res: String)
    ensures
        res@ == concat_all(parts@.map_values(|p: &str| p@)),
{
    let ghost pv = parts@.map_values(|p: &str| p@);
    let mut out: Vec<char> = Vec::new();
    let mut k: usize = 0;
    assert(pv.take(0) =~= Seq::<Seq<char>>::empty());
    while k < parts.len()
        invariant
            k <= parts.len(),
            pv == parts@.map_values(|p: &str| p@),
            out@ == concat_all(pv.take(k as int)),
        decreases parts.len() - k,
    {
        assert(pv.take(k + 1).drop_last() =~= pv.take(k as int));
        assert(pv.take(k + 1).last() == parts@[k as int]@);
        crate::text::append_str(&mut out, parts[k]);
        k += 1;
    }
    assert(pv.take(k as int) =~= pv);
    string_of(out.as_slice())
}

/// The texts one after the other.
pub open spec fn concat_all(ps: Seq<Seq<char>>) -> Seq<char>
    decreases ps.len(),
{
    if ps.len() == 0 {
        Seq::empty()
    } else {
        concat_all(ps.drop_last()) + ps.last()
    }
}

/// The command that signs WeChat in for a project.
pub open spec fn spec_setup_command(bin: Seq<char>, project: Seq<char>, qr: Seq<char>, config: Seq<char>) -> Seq<
    char,
> {
    concat_all(
        seq![
            spec_shell_quote(bin),
            " weixin setup --project "@,
            spec_shell_quote(project),
            " --qr-image "@,
            spec_shell_quote(qr),
            " --config "@,
            spec_shell_quote(config),
        ],
    )
}

/// The command that starts the WeChat service.
pub open spec fn spec_start_command(bin: Seq<char>, config: Seq<char>) -> Seq<char> {
    concat_all(seq![spec_shell_quote(bin), " --config "@, spec_shell_quote(config)])
}

/// The command that signs WeChat in for a project, as shown.
pub fn weixin_setup_command(bin: &str, project: &str, qr: &str, config: &str) -> (res: String)
    ensures
        res@ == spec_setup_command(bin@, project@, qr@, config@),
{
    let a = shell_quote(bin);
    let b = shell_quote(project);
    let c = shell_quote(qr);
    let d = shell_quote(config);
    let mut parts: Vec<&str> = Vec::new();
    parts.push(a.as_str());
    parts.push(" weixin setup --project ");
    parts.push(b.as_str());
    parts.push(" --qr-image ");
    parts.push(c.as_str());
    parts.push(" --config ");
    parts.push(d.as_str());
    assert(parts@.map_values(|p: &str| p@) =~= seq![
        a@,
        " weixin setup --project "@,
        b@,
        " --qr-image "@,
        c@,
        " --config "@,
        d@,
    ]);
    concat(&parts)
}

/// The command that starts the WeChat service, as shown.
pub fn start_command(bin: &str, config: &str) -> (res: String)
    ensures
        res@ == spec_start_command(bin@, config@),
{
    let a = shell_quote(bin);
    let d = shell_quote(config);
    let mut parts: Vec<&str> = Vec::new();
    parts.push(a.as_str());
    parts.push(" --config ");
    parts.push(d.as_str());
    assert(parts@.map_values(|p: &str| p@) =~= seq![a@, " --config "@, d@]);
    concat(&parts)
}

/// The arguments that start the WeChat service.
pub fn service_args(config: &str) -> (res: Vec<String>)
    ensures
        crate::text::string_views(res@) == seq!["--force"@, "--config"@, config@],
{
    let mut v: Vec<String> = Vec::new();
    v.push("--force".to_string());
    v.push("--config".to_string());
    v.push(config.to_string());
    assert(crate::text::string_views(v@) =~= seq!["--force"@, "--config"@, config@]);
    v
}

/// The arguments that sign WeChat in for a project.
pub fn setup_args(project: &str, qr: &str, config: &str) -> (res: Vec<String>)
    ensures
        crate::text::string_views(res@) == seq![
            "weixin"@,
            "setup"@,
            "--project"@,
            project@,
            "--qr-image"@,
            qr@,
            "--config"@,
            config@,
        ],
{
    let mut v: Vec<String> = Vec::new();
    v.push("weixin".to_string());
    v.push("setup".to_string());
    v.push("--project".to_string());
    v.push(project.to_string());
    v.push("--qr-image".to_string());
    v.push(qr.to_string());
    v.push("--config".to_string());
    v.push(config.to_string());
    assert(crate::text::string_views(v@) =~= seq![
        "weixin"@,
        "setup"@,
        "--project"@,
        project@,
        "--qr-image"@,
        qr@,
        "--config"@,
        config@,
    ]);
    v
}

/// The project name for a WeChat sign-in: trimmed, and required.
pub fn setup_project_name(project_name: &str) -> (res: Result<String, BridgeError>)
    ensures
        match res {
            Ok(n) => trim(project_name@).len() > 0 && n@ == trim(project_name@),
            Err(e) => trim(project_name@).len() == 0 && e@ == BridgeFault::EmptyProjectName,
        },
{
    let n = trim_str(project_name);
    if n.as_str().is_empty() {
        Err(BridgeError::EmptyProjectName)
    } else {
        Ok(n)
    }
}

fn with_suffix(prefix: &str, tail: &str) -> (res: String)
    ensures
        res@ == prefix@ + tail@,
{
    let mut out = chars_of(prefix);
    crate::text::append_str(&mut out, tail);
    string_of(out.as_slice())
}

/// The report of a sign-in started.
pub fn setup_started_message(qr: &str) -> (res: String)
    ensures
        res@ == "已开始微信登录流程，二维码会保存到 "@ + qr@,
{
    with_suffix("已开始微信登录流程，二维码会保存到 ", qr)
}

/// The report of the service found running.
pub fn service_running_message(log: &str) -> (res: String)
    ensures
        res@ == "微信服务已在运行中，日志输出到 "@ + log@,
{
    with_suffix("微信服务已在运行中，日志输出到 ", log)
}

/// The report of the service started.
pub fn service_started_message(log: &str) -> (res: String)
    ensures
        res@ == "已启动微信服务，日志输出到 "@ + log@,
{
    with_suffix("已启动微信服务，日志输出到 ", log)
}

/// The report of the connection engine put in place.
pub fn install_cc_connect_impl(binary_path: &str) -> (res: String)
    ensures
        res@ == "已初始化微信连接引擎："@ + binary_path@,
{
    with_suffix("已初始化微信连接引擎：", binary_path)
}

// ---------------------------------------------------------------------------
// Service actions
// ---------------------------------------------------------------------------

/// What the service is asked to do.
#[derive(Debug, PartialEq, Eq, Structural)]
pub enum DaemonAction {
    Start,
    Stop,
    Restart,
    Status,
    Logs,
}

/// The action asked for: `install` and `start` start the service, `stop` and
/// `uninstall` stop it, `restart`, `status` and `logs` are themselves; anything else is
/// refused, naming the action as given.
pub open spec fn spec_daemon_action(action: Seq<char>) -> Result<DaemonAction, BridgeFault> {
    let a = trim(action);
    if a == "install"@ || a == "start"@ {
        Ok(DaemonAction::Start)
    } else if a == "stop"@ || a == "uninstall"@ {
        Ok(DaemonAction::Stop)
    } else if a == "restart"@ {
        Ok(DaemonAction::Restart)
    } else if a == "status"@ {
        Ok(DaemonAction::Status)
    } else if a == "logs"@ {
        Ok(DaemonAction::Logs)
    } else {
        Err(BridgeFault::UnsupportedAction(action))
    }
}

/// The action asked for.
pub fn parse_daemon_action(action: &str) -> (res: Result<DaemonAction, BridgeError>)
    ensures
        match res {
            Ok(a) => spec_daemon_action(action@) == Ok::<DaemonAction, BridgeFault>(a),
            Err(e) => spec_daemon_action(action@) == Err::<DaemonAction, BridgeFault>(e@),
        },
{
    let t = trim_str(action);
    let a = t.as_str();
    if str_eq(a, "install") || str_eq(a, "start") {
        Ok(DaemonAction::Start)
    } else if str_eq(a, "stop") || str_eq(a, "uninstall") {
        Ok(DaemonAction::Stop)
    } else if str_eq(a, "restart") {
        Ok(DaemonAction::Restart)
    } else if str_eq(a, "status") {
        Ok(DaemonAction::Status)
    } else if str_eq(a, "logs") {
        Ok(DaemonAction::Logs)
    } else {
        Err(BridgeError::UnsupportedAction(action.to_string()))
    }
}

/// The report of a stop: whether a running service was stopped.
pub fn stop_message(stopped: bool) -> (res: String)
    ensures
        res@ == if stopped {
            "已停止微信服务"@
        } else {
            "微信服务当前未运行"@
        },
{
    if stopped {
        "已停止微信服务".to_string()
    } else {
        "微信服务当前未运行".to_string()
    }
}

/// What stopping a process does next.
#[derive(Debug, PartialEq, Eq, Structural, Clone, Copy)]
pub enum StopStep {
    /// Nothing runs under the pid file: remove the file, nothing was stopped.
    NotRunning,
    /// Stop the process tree at once (`taskkill /T /F`).
    ForceStop,
    /// Ask the process to end (`kill -TERM`), then look again.
    Terminate,
    /// Wait 150 ms, then look again.
    Wait,
    /// Kill the process (`kill -KILL`), then finish.
    Kill,
    /// Remove the pid file: the process was stopped.
    Finish,
}

/// How many times a stop looks, 150 ms apart, for a terminated process to end before it
/// kills it.
pub const STOP_POLLS: u32 = 20;

/// The first step of a stop, from whether the pid file names a process, whether it is
/// alive, and the platform.
pub fn stop_first_step(pid_known: bool, alive: bool, windows: bool) -> (res: Option<StopStep>)
    ensures
        res == if !pid_known {
            None
        } else if !alive {
            Some(StopStep::NotRunning)
        } else if windows {
            Some(StopStep::ForceStop)
        } else {
            Some(StopStep::Terminate)
        },
{
    if !pid_known {
        None
    } else if !alive {
        Some(StopStep::NotRunning)
    } else if windows {
        Some(StopStep::ForceStop)
    } else {
        Some(StopStep::Terminate)
    }
}

/// The step after a terminated process was looked at for the `looks`-th time (from 0):
/// finish once it is gone; while it lives, wait while fewer than [`STOP_POLLS`] looks
/// were made, then kill it.
pub fn stop_next_step(looks: u32, alive: bool) -> (res: StopStep)
    ensures
        res == if !alive {
            StopStep::Finish
        } else if looks < STOP_POLLS {
            StopStep::Wait
        } else {
            StopStep::Kill
        },
{
    if !alive {
        StopStep::Finish
    } else if looks < STOP_POLLS {
        StopStep::Wait
    } else {
        StopStep::Kill
    }
}

/// The lines joined with `\n` between them.
pub open spec fn join_lines(ls: Seq<Seq<char>>) -> Seq<char>
    decreases ls.len(),
{
    if ls.len() == 0 {
        Seq::empty()
    } else if ls.len() == 1 {
        ls[0]
    } else {
        join_lines(ls.drop_last()) + seq!['\n'] + ls.last()
    }
}

/// The last 40 lines of the service's log (all of them where there are fewer), joined
/// with `\n`.
pub open spec fn spec_log_tail(content: Seq<char>) -> Seq<char> {
    let ls = crate::text::text_lines(content);
    join_lines(
        if ls.len() > 40 {
            ls.skip(ls.len() - 40)
        } else {
            ls
        },
    )
}

/// The last 40 lines of the service's log.
pub fn log_tail(content: &str) -> (res: String)
    ensures
        res@ == spec_log_tail(content@),
{
    let ls = crate::text::lines_of(content);
    let ghost lv = crate::text::string_views(ls@);
    let start: usize = if ls.len() > 40 {
        ls.len() - 40
    } else {
        0
    };
    let ghost want = if lv.len() > 40 {
        lv.skip(lv.len() - 40)
    } else {
        lv
    };
    assert(want =~= lv.skip(start as int));
    let mut out: Vec<char> = Vec::new();
    let mut k: usize = start;
    assert(want.take(0) =~= Seq::<Seq<char>>::empty());
    while k < ls.len()
        invariant
            start <= k <= ls.len(),
            lv == crate::text::string_views(ls@),
            want == lv.skip(start as int),
            out@ == join_lines(want.take(k - start)),
        decreases ls.len() - k,
    {
        let ghost t = want.take(k + 1 - start);
        assert(t.drop_last() =~= want.take(k - start));
        assert(t.last() == ls@[k as int]@);
        if k > start {
            out.push('\n');
        }
        crate::text::append_str(&mut out, ls[k].as_str());
        proof {
            if k == start {
                assert(t.len() == 1);
                assert(out@ =~= t[0]);
            }
        }
        k += 1;
    }
    assert(want.take(k - start) =~= want);
    string_of(out.as_slice())
}

/// `str::parse::<u32>` of the text trimmed: the process ID in a pid file.
pub open spec fn spec_pid(content: Seq<char>) -> Option<u32> {
    match crate::text::parse_u64(trim(content)) {
        Some(v) => if v <= u32::MAX {
            Some(v as u32)
        } else {
            None
        },
        None => None,
    }
}

/// The process ID in a pid file.
pub fn parse_pid(content: &str) -> (res: Option<u32>)
    ensures
        res == spec_pid(content@),
{
    let t = trim_str(content);
    match crate::text::parse_u64_text(t.as_str()) {
        Some(v) => if v <= 4294967295 {
            Some(v as u32)
        } else {
            None
        },
        None => None,
    }
}

/// The version that the engine prints: the first line of its output, trimmed, where it
/// succeeded and that line is not blank.
pub open spec fn spec_version_line(success: bool, stdout: Seq<char>) -> Option<Seq<char>> {
    let ls = crate::text::text_lines(stdout);
    if success && ls.len() > 0 && trim(ls[0]).len() > 0 {
        Some(trim(ls[0]))
    } else {
        None
    }
}

/// The version that the engine prints.
pub fn version_line(success: bool, stdout: &str) -> (res: Option<String>)
    ensures
        opt_text(res) == spec_version_line(success, stdout@),
{
    if !success {
        return None;
    }
    let ls = crate::text::lines_of(stdout);
    if ls.len() == 0 {
        return None;
    }
    let first = trim_str(ls[0].as_str());
    if first.as_str().is_empty() {
        None
    } else {
        Some(first)
    }
}

// ---------------------------------------------------------------------------
// The state shown
// ---------------------------------------------------------------------------

pub open spec fn running_text(b: bool) -> Seq<char> {
    if b {
        "运行中"@
    } else {
        "未运行"@
    }
}

/// The service's state in words: where no engine is found, that; else its program,
/// version (`unknown` where it prints none), service and sign-in state, QR code, and
/// log.
pub open spec fn spec_status_text(
    binary: Option<Seq<char>>,
    bridge_running: bool,
    setup_running: bool,
    version: Option<Seq<char>>,
    qr_exists: bool,
    log_path: Option<Seq<char>>,
) -> Seq<char> {
    match binary {
        None => "未安装微信连接服务"@,
        Some(b) => "服务程序："@ + b + "\n版本："@ + (match version {
            Some(v) => v,
            None => "unknown"@,
        }) + "\n微信服务："@ + running_text(bridge_running) + "\n登录流程："@ + running_text(
            setup_running,
        ) + "\n二维码："@ + (if qr_exists {
            "已生成"@
        } else {
            "未生成"@
        }) + "\n"@ + (match log_path {
            Some(p) => "服务日志："@ + p,
            None => "服务日志：尚未生成"@,
        }),
    }
}

fn running_word(b: bool) -> (res: &'static str)
    ensures
        res@ == running_text(b),
{
    if b {
        "运行中"
    } else {
        "未运行"
    }
}

/// The service's state in words, from what was found of it.
pub fn bridge_status_text(
    binary: Option<&str>,
    bridge_running: bool,
    setup_running: bool,
    version: Option<&str>,
    qr_exists: bool,
    log_path: Option<&str>,
) -> (res: String)
    ensures
        res@ == spec_status_text(
            crate::dav::opt_str(binary),
            bridge_running,
            setup_running,
            crate::dav::opt_str(version),
            qr_exists,
            crate::dav::opt_str(log_path),
        ),
{
    let b = match binary {
        Some(b) => b,
        None => return "未安装微信连接服务".to_string(),
    };
    let v = match version {
        Some(v) => v,
        None => "unknown",
    };
    let qr = if qr_exists {
        "已生成"
    } else {
        "未生成"
    };
    let mut out = chars_of("服务程序：");
    crate::text::append_str(&mut out, b);
    crate::text::append_str(&mut out, "\n版本：");
    crate::text::append_str(&mut out, v);
    crate::text::append_str(&mut out, "\n微信服务：");
    crate::text::append_str(&mut out, running_word(bridge_running));
    crate::text::append_str(&mut out, "\n登录流程：");
    crate::text::append_str(&mut out, running_word(setup_running));
    crate::text::append_str(&mut out, "\n二维码：");
    crate::text::append_str(&mut out, qr);
    crate::text::append_str(&mut out, "\n");
    match log_path {
        Some(p) => {
            crate::text::append_str(&mut out, "服务日志：");
            crate::text::append_str(&mut out, p);
        },
        None => {
            crate::text::append_str(&mut out, "服务日志：尚未生成");
        },
    }
    string_of(out.as_slice())
}

/// The first project with a stored session.
pub open spec fn session_project(ps: Seq<ProjectView>) -> Option<ProjectView>
    decreases ps.len(),
{
    if ps.len() == 0 {
        None
    } else if ps[0].has_weixin_session {
        Some(ps[0])
    } else {
        session_project(ps.drop_first())
    }
}

/// The name of the first project with a stored session.
pub fn session_project_name(projects: &Vec<BridgeProjectStatus>) -> (res: Option<String>)
    ensures
        opt_text(res) == match session_project(project_views(projects@)) {
            Some(p) => Some(p.name),
            None => None,
        },
{
    let ghost pv = project_views(projects@);
    let mut i: usize = 0;
    assert(pv.skip(0) =~= pv);
    while i < projects.len()
        invariant
            i <= projects.len(),
            pv == project_views(projects@),
            session_project(pv) == session_project(pv.skip(i as int)),
        decreases projects.len() - i,
    {
        let ghost rest = pv.skip(i as int);
        assert(rest.drop_first() =~= pv.skip(i + 1));
        assert(rest[0] == projects@[i as int]@);
        if projects[i].has_weixin_session {
            return Some(projects[i].name.clone());
        }
        i += 1;
    }
    None
}

/// The account of the first project named `name` that has a stored session.
pub open spec fn spec_account_for(ps: Seq<Seq<(Seq<char>, Toml)>>, name: Seq<char>) -> Option<
    Seq<char>,
>
    decreases ps.len(),
{
    if ps.len() == 0 {
        None
    } else if table_string(ps[0], "name"@) == Some(name) && spec_weixin_session(ps[0]) is Some {
        Some(spec_weixin_session(ps[0]).unwrap().1)
    } else {
        spec_account_for(ps.drop_first(), name)
    }
}

pub open spec fn spec_project_account(doc: Seq<(Seq<char>, Toml)>, name: Seq<char>) -> Option<
    Seq<char>,
> {
    match projects_of(doc) {
        Some(ps) => spec_account_for(ps, name),
        None => None,
    }
}

/// The account signed in for the project named `name`, from the configuration.
pub fn read_project_account_id(document: &Vec<(String, TomlItem)>, name: &str) -> (res: Option<
    String,
>)
    ensures
        opt_text(res) == spec_project_account(tv(document@), name@),
{
    let ps = match toml_as_array_of_tables(toml_lookup(document, "projects")) {
        Some(ps) => ps,
        None => return None,
    };
    let ghost pv = tables_view(ps@);
    let mut i: usize = 0;
    assert(pv.skip(0) =~= pv);
    while i < ps.len()
        invariant
            i <= ps.len(),
            pv == tables_view(ps@),
            projects_of(tv(document@)) == Some(pv),
            spec_account_for(pv, name@) == spec_account_for(pv.skip(i as int), name@),
        decreases ps.len() - i,
    {
        let ghost rest = pv.skip(i as int);
        assert(rest.drop_first() =~= pv.skip(i + 1));
        assert(rest[0] == pv[i as int]);
        let named = match toml_table_string(&ps[i], "name") {
            Some(n) => str_eq(n.as_str(), name),
            None => false,
        };
        if named {
            match find_weixin_session(&ps[i]) {
                Some(s) => return Some(s.account_id),
                None => {},
            }
        }
        i += 1;
    }
    None
}

/// Where the WeChat conversation state of a project's account is kept.
pub fn context_tokens_path(cc_dir: &str, project: &str, account: &str, windows: bool) -> (res: String)
    ensures
        res@ == crate::paths::path_join(
            crate::paths::path_join(
                crate::paths::path_join(
                    crate::paths::path_join(cc_dir@, "weixin"@, windows),
                    project@,
                    windows,
                ),
                account@,
                windows,
            ),
            "context_tokens.json"@,
            windows,
        ),
{
    let a = crate::paths::join_path(cc_dir, "weixin", windows);
    let b = crate::paths::join_path(a.as_str(), project, windows);
    let c = crate::paths::join_path(b.as_str(), account, windows);
    crate::paths::join_path(c.as_str(), "context_tokens.json", windows)
}

/// How far the WeChat conversation has come.
#[derive(Debug)]
pub enum CommunicationStage {
    /// No project has a stored session.
    NoSession,
    /// The project's account is not yet written.
    NoAccount,
    /// No conversation state is kept yet.
    NoContext,
    /// The text of the conversation state file.
    Context(String),
}

/// Whether WeChat can talk to the project, and what is shown of it: ready once the
/// conversation state, read as JSON, is an object with something in it.
pub open spec fn spec_communication(stage: CommunicationStage) -> (bool, Seq<char>) {
    match stage {
        CommunicationStage::NoSession => (false, "等待微信扫码登录"@),
        CommunicationStage::NoAccount => (false, "等待微信登录凭据写入"@),
        CommunicationStage::NoContext => (false, "等待你在微信里发送第一条消息"@),
        CommunicationStage::Context(t) => match crate::json::json_parsed(t@) {
            Some(j) => match j {
                crate::json::Json::Object(es) => if es.len() > 0 {
                    (true, "已建立微信通信会话"@)
                } else {
                    (false, "等待你在微信里发送第一条消息"@)
                },
                _ => (false, "等待你在微信里发送第一条消息"@),
            },
            None => (false, "等待你在微信里发送第一条消息"@),
        },
    }
}

/// Whether WeChat can talk to the project, and what is shown of it.
pub fn communication_state(stage: &CommunicationStage) -> (res: (bool, String))
    ensures
        (res.0, res.1@) == spec_communication(*stage),
{
    match stage {
        CommunicationStage::NoSession => (false, "等待微信扫码登录".to_string()),
        CommunicationStage::NoAccount => (false, "等待微信登录凭据写入".to_string()),
        CommunicationStage::NoContext => (false, "等待你在微信里发送第一条消息".to_string()),
        CommunicationStage::Context(t) => {
            let v = crate::json::parse_json(t.as_str());
            let ready = match &v {
                Some(crate::json::JsonValue::Object(es)) => {
                    proof {
                        crate::json::lemma_object_view(*es);
                    }
                    es.len() > 0
                },
                _ => false,
            };
            if ready {
                (true, "已建立微信通信会话".to_string())
            } else {
                (false, "等待你在微信里发送第一条消息".to_string())
            }
        },
    }
}

// ---------------------------------------------------------------------------
// The whole state
// ---------------------------------------------------------------------------

/// What was found of the WeChat connection on this machine.
#[derive(Debug)]
pub struct BridgeFacts {
    /// The engine's path, where it is installed.
    pub cc_connect_path: Option<String>,
    /// Where the engine is installed to, where that can be told.
    pub managed_binary_path: Option<String>,
    /// The version the engine prints.
    pub version: Option<String>,
    /// The service's state in words.
    pub daemon_status: String,
    pub config_path: String,
    pub config_exists: bool,
    pub qr_image_path: String,
    pub qr_image_exists: bool,
    pub qr_image_data_url: Option<String>,
    pub service_running: bool,
    pub setup_running: bool,
    pub projects: Vec<BridgeProjectStatus>,
    pub communication_ready: bool,
    pub communication_hint: String,
    pub codex_projects: Vec<CodexProjectStatus>,
}

/// The state of the WeChat connection, as shown.
#[derive(Debug)]
pub struct BridgeStatus {
    pub installed: bool,
    pub cc_connect_path: Option<String>,
    pub version: Option<String>,
    pub config_path: String,
    pub config_exists: bool,
    pub daemon_status: String,
    pub qr_image_path: String,
    pub qr_image_exists: bool,
    pub qr_image_data_url: Option<String>,
    pub service_running: bool,
    pub login_running: bool,
    pub suggested_project_name: String,
    pub suggested_snippet: String,
    pub weixin_setup_command: String,
    pub start_command: String,
    pub has_logged_in_wechat_session: bool,
    pub communication_ready: bool,
    pub communication_hint: String,
    pub projects: Vec<BridgeProjectStatus>,
    pub codex_projects: Vec<CodexProjectStatus>,
}

/// Some project has a stored session.
pub open spec fn any_session(ps: Seq<ProjectView>) -> bool {
    exists|i: int| 0 <= i < ps.len() && (#[trigger] ps[i]).has_weixin_session
}

/// The engine as named in the commands shown: where it is installed, else where it is
/// installed to, else `cc-connect`.
pub open spec fn engine_name(f: BridgeFacts) -> Seq<char> {
    match opt_text(f.cc_connect_path) {
        Some(p) => p,
        None => match opt_text(f.managed_binary_path) {
            Some(m) => m,
            None => "cc-connect"@,
        },
    }
}

/// The state shown, from what was found: installed where the engine is; the version and
/// the service's state in words only then; signing in only while the service does not
/// run; the suggested project, its snippet, and the commands for the engine, the QR
/// code and the configuration.
pub open spec fn bridge_status_of(f: BridgeFacts, s: BridgeStatus) -> bool {
    let installed = f.cc_connect_path is Some;
    &&& s.installed == installed
    &&& opt_text(s.cc_connect_path) == opt_text(f.cc_connect_path)
    &&& opt_text(s.version) == if installed {
        opt_text(f.version)
    } else {
        None
    }
    &&& s.config_path@ == f.config_path@
    &&& s.config_exists == f.config_exists
    &&& s.daemon_status@ == if installed {
        f.daemon_status@
    } else {
        "未检测到微信连接服务"@
    }
    &&& s.qr_image_path@ == f.qr_image_path@
    &&& s.qr_image_exists == f.qr_image_exists
    &&& opt_text(s.qr_image_data_url) == opt_text(f.qr_image_data_url)
    &&& s.service_running == f.service_running
    &&& s.login_running == (f.setup_running && !f.service_running)
    &&& s.suggested_project_name@ == "codex-tools-wechat"@
    &&& s.suggested_snippet@ == snippet_head() + "codex-tools-wechat"@ + snippet_tail()
    &&& s.weixin_setup_command@ == spec_setup_command(
        engine_name(f),
        "codex-tools-wechat"@,
        f.qr_image_path@,
        f.config_path@,
    )
    &&& s.start_command@ == spec_start_command(engine_name(f), f.config_path@)
    &&& s.has_logged_in_wechat_session == any_session(project_views(f.projects@))
    &&& s.communication_ready == f.communication_ready
    &&& s.communication_hint@ == f.communication_hint@
    &&& project_views(s.projects@) == project_views(f.projects@)
    &&& s.codex_projects@ == f.codex_projects@
}

/// The state of the WeChat connection, as shown, from what was found of it.
pub fn get_bridge_status_impl(facts: BridgeFacts) -> (res: BridgeStatus)
    ensures
        bridge_status_of(facts, res),
{
    let installed = facts.cc_connect_path.is_some();
    let mut any = false;
    let mut k: usize = 0;
    while k < facts.projects.len()
        invariant
            k <= facts.projects@.len(),
            any == exists|i: int| 0 <= i < k && (#[trigger] facts.projects@[i]).has_weixin_session,
        decreases facts.projects.len() - k,
    {
        if facts.projects[k].has_weixin_session {
            any = true;
        }
        k += 1;
    }
    proof {
        let pv = project_views(facts.projects@);
        if any {
            let i = choose|i: int| 0 <= i < k && (#[trigger] facts.projects@[i]).has_weixin_session;
            assert(pv[i].has_weixin_session);
        } else {
            assert forall|i: int| 0 <= i < pv.len() implies !(#[trigger] pv[i]).has_weixin_session by {
                assert(pv[i] == facts.projects@[i]@);
            }
        }
    }
    let name = suggest_project_name();
    let snippet = build_project_snippet(name.as_str());
    let bin = match &facts.cc_connect_path {
        Some(p) => p.clone(),
        None => match &facts.managed_binary_path {
            Some(m) => m.clone(),
            None => "cc-connect".to_string(),
        },
    };
    let setup = weixin_setup_command(
        bin.as_str(),
        name.as_str(),
        facts.qr_image_path.as_str(),
        facts.config_path.as_str(),
    );
    let start = start_command(bin.as_str(), facts.config_path.as_str());
    let version = if installed {
        facts.version
    } else {
        None
    };
    let daemon_status = if installed {
        facts.daemon_status
    } else {
        "未检测到微信连接服务".to_string()
    };
    BridgeStatus {
        installed,
        cc_connect_path: facts.cc_connect_path,
        version,
        config_path: facts.config_path,
        config_exists: facts.config_exists,
        daemon_status,
        qr_image_path: facts.qr_image_path,
        qr_image_exists: facts.qr_image_exists,
        qr_image_data_url: facts.qr_image_data_url,
        service_running: facts.service_running,
        login_running: facts.setup_running && !facts.service_running,
        suggested_project_name: name,
        suggested_snippet: snippet,
        weixin_setup_command: setup,
        start_command: start,
        has_logged_in_wechat_session: any,
        communication_ready: facts.communication_ready,
        communication_hint: facts.communication_hint,
        projects: facts.projects,
        codex_projects: facts.codex_projects,
    }
}

/// The sign-in's pid file is dropped when the service and the sign-in both run.
pub fn clear_setup_pid(service_running: bool, setup_running: bool) -> (res: bool)
    ensures
        res == (service_running && setup_running),
{
    service_running && setup_running
}

// ---------------------------------------------------------------------------
// The engine's search path, and the QR code
// ---------------------------------------------------------------------------

/// The directories where the engine looks for tools, before duplicates are dropped: the
/// current search path; in the home directory, `.local/bin`, `.npm-global/bin`,
/// `.cargo/bin` and the `bin` of each Node version of nvm; then the system's usual
/// directories.
pub open spec fn tool_candidates(
    current: Seq<Seq<char>>,
    home: Option<Seq<char>>,
    nvm_versions: Seq<Seq<char>>,
    windows: bool,
) -> Seq<Seq<char>> {
    let j = |a: Seq<char>, b: Seq<char>| crate::paths::path_join(a, b, windows);
    current + match home {
        Some(h) => seq![
            j(j(h, ".local"@), "bin"@),
            j(j(h, ".npm-global"@), "bin"@),
            j(j(h, ".cargo"@), "bin"@),
        ] + nvm_versions.map_values(|e: Seq<char>| j(e, "bin"@)),
        None => Seq::empty(),
    } + seq![
        "/opt/homebrew/bin"@,
        "/usr/local/bin"@,
        "/usr/bin"@,
        "/bin"@,
        "/usr/sbin"@,
        "/sbin"@,
    ]
}

/// Each path once, where it first comes; paths with the same components are the same.
pub open spec fn dedup_paths(s: Seq<Seq<char>>, windows: bool) -> Seq<Seq<char>>
    decreases s.len(),
{
    if s.len() == 0 {
        Seq::empty()
    } else {
        let head = dedup_paths(s.drop_last(), windows);
        if exists|i: int|
            0 <= i < head.len() && crate::pathparts::components(#[trigger] head[i], windows)
                == crate::pathparts::components(s.last(), windows) {
            head
        } else {
            head.push(s.last())
        }
    }
}

/// The directories where the engine looks for tools, each once.
pub fn tool_path_entries(
    current: &Vec<String>,
    home: Option<&str>,
    nvm_versions: &Vec<String>,
    windows: bool,
) -> (res: Vec<String>)
    ensures
        crate::text::string_views(res@) == dedup_paths(
            tool_candidates(
                crate::text::string_views(current@),
                crate::dav::opt_str(home),
                crate::text::string_views(nvm_versions@),
                windows,
            ),
            windows,
        ),
{
    let mut all: Vec<String> = current.clone();
    assert(crate::text::string_views(all@) == crate::text::string_views(current@)) by {
        assert(crate::text::string_views(all@) =~= crate::text::string_views(current@));
    }
    let ghost c0 = crate::text::string_views(all@);
    let ghost j = |a: Seq<char>, b: Seq<char>| crate::paths::path_join(a, b, windows);
    let ghost mid: Seq<Seq<char>> = match crate::dav::opt_str(home) {
        Some(h) => seq![
            j(j(h, ".local"@), "bin"@),
            j(j(h, ".npm-global"@), "bin"@),
            j(j(h, ".cargo"@), "bin"@),
        ] + crate::text::string_views(nvm_versions@).map_values(|e: Seq<char>| j(e, "bin"@)),
        None => Seq::empty(),
    };
    match home {
        Some(h) => {
            let a = crate::paths::join_path(h, ".local", windows);
            let a2 = crate::paths::join_path(a.as_str(), "bin", windows);
            let b = crate::paths::join_path(h, ".npm-global", windows);
            let b2 = crate::paths::join_path(b.as_str(), "bin", windows);
            let c = crate::paths::join_path(h, ".cargo", windows);
            let c2 = crate::paths::join_path(c.as_str(), "bin", windows);
            let ghost b0 = crate::text::string_views(all@);
            all.push(a2);
            all.push(b2);
            all.push(c2);
            assert(crate::text::string_views(all@) =~= b0 + seq![
                j(j(h@, ".local"@), "bin"@),
                j(j(h@, ".npm-global"@), "bin"@),
                j(j(h@, ".cargo"@), "bin"@),
            ]);
            let ghost nv = crate::text::string_views(nvm_versions@);
            let ghost b1 = crate::text::string_views(all@);
            let mut k: usize = 0;
            while k < nvm_versions.len()
                invariant
                    k <= nvm_versions.len(),
                    nv == crate::text::string_views(nvm_versions@),
                    j == |a: Seq<char>, b: Seq<char>| crate::paths::path_join(a, b, windows),
                    crate::text::string_views(all@) == b1 + nv.take(k as int).map_values(
                        |e: Seq<char>| j(e, "bin"@),
                    ),
                decreases nvm_versions.len() - k,
            {
                let p = crate::paths::join_path(nvm_versions[k].as_str(), "bin", windows);
                let ghost before = crate::text::string_views(all@);
                all.push(p);
                assert(crate::text::string_views(all@) =~= before.push(j(nv[k as int], "bin"@)));
                assert(nv.take(k + 1).map_values(|e: Seq<char>| j(e, "bin"@)) =~= nv.take(
                    k as int,
                ).map_values(|e: Seq<char>| j(e, "bin"@)).push(j(nv[k as int], "bin"@)));
                k += 1;
            }
            assert(nv.take(k as int) =~= nv);
            assert(crate::text::string_views(all@) =~= c0 + mid);
        },
        None => {
            assert(crate::text::string_views(all@) =~= c0 + mid);
        },
    }
    let ghost m0 = crate::text::string_views(all@);
    all.push("/opt/homebrew/bin".to_string());
    all.push("/usr/local/bin".to_string());
    all.push("/usr/bin".to_string());
    all.push("/bin".to_string());
    all.push("/usr/sbin".to_string());
    all.push("/sbin".to_string());
    let ghost want = tool_candidates(
        crate::text::string_views(current@),
        crate::dav::opt_str(home),
        crate::text::string_views(nvm_versions@),
        windows,
    );
    assert(crate::text::string_views(all@) =~= want);
    let mut out: Vec<String> = Vec::new();
    let mut k: usize = 0;
    assert(want.take(0) =~= Seq::<Seq<char>>::empty());
    assert(crate::text::string_views(out@) =~= Seq::<Seq<char>>::empty());
    while k < all.len()
        invariant
            k <= all.len(),
            want == crate::text::string_views(all@),
            crate::text::string_views(out@) == dedup_paths(want.take(k as int), windows),
        decreases all.len() - k,
    {
        assert(want.take(k + 1).drop_last() =~= want.take(k as int));
        assert(want.take(k + 1).last() == all@[k as int]@);
        let ghost ov = crate::text::string_views(out@);
        let mut i: usize = 0;
        let mut dup = false;
        while i < out.len() && !dup
            invariant
                i <= out.len(),
                k < all.len(),
                ov == crate::text::string_views(out@),
                dup ==> exists|m: int|
                    0 <= m < ov.len() && crate::pathparts::components(#[trigger] ov[m], windows)
                        == crate::pathparts::components(all@[k as int]@, windows),
                !dup ==> forall|m: int|
                    0 <= m < i ==> crate::pathparts::components(#[trigger] ov[m], windows)
                        != crate::pathparts::components(all@[k as int]@, windows),
            decreases out.len() - i,
        {
            if crate::pathparts::same_components(out[i].as_str(), all[k].as_str(), windows) {
                dup = true;
                assert(ov[i as int] == out@[i as int]@);
            }
            i += 1;
        }
        if !dup {
            out.push(all[k].clone());
            assert(crate::text::string_views(out@) =~= ov.push(all@[k as int]@));
        }
        k += 1;
    }
    assert(want.take(k as int) =~= want);
    out
}

/// A base-64 digit of the standard alphabet.
pub open spec fn b64_digit(v: int) -> char {
    if v < 26 {
        (65 + v) as char
    } else if v < 52 {
        (71 + v) as char
    } else if v < 62 {
        (v - 4) as char
    } else if v == 62 {
        '+'
    } else {
        '/'
    }
}

/// Bytes in standard base 64, with `=` padding: each three bytes as four digits of six
/// bits each, the last one or two bytes padded.
pub open spec fn base64_text(b: Seq<u8>) -> Seq<char>
    decreases b.len(),
{
    if b.len() == 0 {
        Seq::empty()
    } else if b.len() == 1 {
        seq![b64_digit((b[0] / 4) as int), b64_digit((b[0] % 4) * 16), '=', '=']
    } else if b.len() == 2 {
        seq![
            b64_digit((b[0] / 4) as int),
            b64_digit((b[0] % 4) * 16 + b[1] / 16),
            b64_digit((b[1] % 16) * 4),
            '=',
        ]
    } else {
        seq![
            b64_digit((b[0] / 4) as int),
            b64_digit((b[0] % 4) * 16 + b[1] / 16),
            b64_digit((b[1] % 16) * 4 + b[2] / 64),
            b64_digit((b[2] % 64) as int),
        ] + base64_text(b.skip(3))
    }
}

/// `base64::engine::general_purpose::STANDARD.encode`: the bytes in standard base 64
/// with padding.
#[verifier::external_body]
fn base64_encode(bytes: &[u8]) -> (res: String)
    ensures
        res@ == base64_text(bytes@),
{
    base64::Engine::encode(&base64::engine::general_purpose::STANDARD, bytes)
}

/// The QR code image as a `data:` URL.
pub fn png_data_url(bytes: &[u8]) -> (res: String)
    ensures
        res@ == "data:image/png;base64,"@ + base64_text(bytes@),
{
    let encoded = base64_encode(bytes);
    with_suffix("data:image/png;base64,", encoded.as_str())
}

} // verus!
