//! Thread sync with a WebDAV store: its settings, the names of thread files, and the
//! URL of the store.
use vstd::prelude::*;
use crate::dav::{opt_str, url_parsed, url_with_path};
use crate::json::{json_as_str, json_get};
use crate::text::{
    append_str, chars_of, ends_with, find_last, is_blank, last_index_of, opt_text, starts_with,
    str_ends_with, str_eq, str_starts_with, string_of, sub_chars, trim, trim_char,
    trim_char_chars, trim_str,
};
use crate::usage::utf8_width;

verus! {

// ---------------------------------------------------------------------------
// Settings
// ---------------------------------------------------------------------------

/// Where and how to reach the WebDAV store.
#[derive(Debug)]
pub struct WebDavConfig {
    pub base_url: String,
    pub username: String,
    pub password: String,
    pub verify_tls: bool,
}

impl Default for WebDavConfig {
    /// No store set, and certificates checked.
    fn default() -> (res: Self)
        ensures
            res.base_url@.len() == 0,
            res.username@.len() == 0,
            res.password@.len() == 0,
            res.verify_tls,
    {
        WebDavConfig {
            base_url: String::new(),
            username: String::new(),
            password: String::new(),
            verify_tls: true,
        }
    }
}

impl Clone for WebDavConfig {
    fn clone(&self) -> (res: Self)
        ensures
            res.base_url@ == self.base_url@,
            res.username@ == self.username@,
            res.password@ == self.password@,
            res.verify_tls == self.verify_tls,
    {
        WebDavConfig {
            base_url: self.base_url.clone(),
            username: self.username.clone(),
            password: self.password.clone(),
            verify_tls: self.verify_tls,
        }
    }
}

/// Why a sync cannot go on.
#[derive(Debug)]
pub enum SyncError {
    /// No store address is set.
    MissingBaseUrl,
    /// No user name is set.
    MissingUsername,
    /// The store address is empty once trimmed.
    EmptyBaseUrl,
    /// The store address does not parse as a URL.
    InvalidBaseUrl(String),
    /// No thread file was found under the Codex directory shown.
    NoLocalThreads(String),
    /// A file found is not inside the Codex directory.
    OutsideCodexDir(String),
}

pub enum SyncFault {
    MissingBaseUrl,
    MissingUsername,
    EmptyBaseUrl,
    InvalidBaseUrl(Seq<char>),
    NoLocalThreads(Seq<char>),
    OutsideCodexDir(Seq<char>),
}

impl View for SyncError {
    type V = SyncFault;

    open spec fn view(&self) -> SyncFault {
        match self {
            SyncError::MissingBaseUrl => SyncFault::MissingBaseUrl,
            SyncError::MissingUsername => SyncFault::MissingUsername,
            SyncError::EmptyBaseUrl => SyncFault::EmptyBaseUrl,
            SyncError::InvalidBaseUrl(u) => SyncFault::InvalidBaseUrl(u@),
            SyncError::NoLocalThreads(d) => SyncFault::NoLocalThreads(d@),
            SyncError::OutsideCodexDir(p) => SyncFault::OutsideCodexDir(p@),
        }
    }
}

/// The settings are usable for a client: an address and a user name that are not blank.
pub open spec fn spec_check_config(c: WebDavConfig) -> Result<(), SyncFault> {
    if trim(c.base_url@).len() == 0 {
        Err(SyncFault::MissingBaseUrl)
    } else if trim(c.username@).len() == 0 {
        Err(SyncFault::MissingUsername)
    } else {
        Ok(())
    }
}

/// Checks the settings before a client is built for them.
pub fn check_webdav_config(config: &WebDavConfig) -> (res: Result<(), SyncError>)
    ensures
        match res {
            Ok(()) => spec_check_config(*config) == Ok::<(), SyncFault>(()),
            Err(e) => spec_check_config(*config) == Err::<(), SyncFault>(e@),
        },
{
    if is_blank(config.base_url.as_str()) {
        return Err(SyncError::MissingBaseUrl);
    }
    if is_blank(config.username.as_str()) {
        return Err(SyncError::MissingUsername);
    }
    Ok(())
}

/// The last piece of a path, after its last `/`.
pub open spec fn last_piece(p: Seq<char>) -> Seq<char> {
    match last_index_of(p, '/') {
        Some(i) => p.skip(i + 1),
        None => p,
    }
}

/// The piece before the last `/` of a path, where it has one.
pub open spec fn before_last_slash(p: Seq<char>) -> Option<Seq<char>> {
    match last_index_of(p, '/') {
        Some(i) => Some(p.take(i)),
        None => None,
    }
}

/// The directory of the store that holds the sync roots: a path that names one of the
/// roots (`sessions`, `archived_sessions`) is taken to its parent.
pub open spec fn store_path(path: Seq<char>) -> Option<Seq<char>> {
    let t = trim_char(path, '/');
    let last = last_piece(t);
    if last == "sessions"@ || last == "archived_sessions"@ {
        match before_last_slash(t) {
            Some(parent) => Some(seq!['/'] + parent + seq!['/']),
            None => Some(seq!['/']),
        }
    } else {
        None
    }
}

/// The URL that `text` parses to, with its path replaced where a path is given, written
/// out, and the path it then has.
pub open spec fn url_after(text: Seq<char>, path: Option<Seq<char>>) -> Option<(Seq<char>, Seq<char>)> {
    match path {
        None => url_parsed(text),
        Some(p) => url_with_path(text, p),
    }
}

fn url_after_exec(text: &str, path: Option<&str>) -> (res: Option<(String, String)>)
    ensures
        match res {
            Some(r) => url_after(text@, opt_str(path)) == Some((r.0@, r.1@)),
            None => url_after(text@, opt_str(path)) is None,
        },
{
    match path {
        None => crate::dav::parse_url(text),
        Some(p) => crate::dav::url_set_path(text, p),
    }
}

/// The store's URL: the address trimmed and parsed, its path ending with `/`, and a path
/// that names a sync root taken to its parent.
pub open spec fn spec_normalized_base_url(base_url: Seq<char>) -> Result<Seq<char>, SyncFault> {
    let text = trim(base_url);
    if text.len() == 0 {
        Err(SyncFault::EmptyBaseUrl)
    } else {
        match url_after(text, None) {
            None => Err(SyncFault::InvalidBaseUrl(text)),
            Some((_, p0)) => {
                let first = if ends_with(p0, seq!['/']) {
                    None
                } else {
                    Some(p0 + seq!['/'])
                };
                match url_after(text, first) {
                    None => Err(SyncFault::InvalidBaseUrl(text)),
                    Some((written, p1)) => match store_path(p1) {
                        None => Ok(written),
                        Some(parent) => match url_after(text, Some(parent)) {
                            None => Err(SyncFault::InvalidBaseUrl(text)),
                            Some((w, _)) => Ok(w),
                        },
                    },
                }
            },
        }
    }
}

fn last_piece_of(cs: &[char]) -> (res: Vec<char>)
    ensures
        res@ == last_piece(cs@),
{
    match find_last(cs, '/') {
        Some(i) => {
            let r = sub_chars(cs, i + 1, cs.len());
            assert(r@ =~= cs@.skip(i + 1));
            r
        },
        None => sub_chars(cs, 0, cs.len()),
    }
}

/// The directory of the store that holds the sync roots, for the path of a parsed store
/// URL: its parent where the path names a sync root, else nothing (the URL stays).
pub fn store_path_of(path: &str) -> (res: Option<String>)
    ensures
        opt_text(res) == store_path(path@),
{
    let cs = chars_of(path);
    let t = trim_char_chars(cs.as_slice(), '/');
    let last = last_piece_of(t.as_slice());
    let last_text = string_of(last.as_slice());
    if !(str_eq(last_text.as_str(), "sessions") || str_eq(last_text.as_str(), "archived_sessions")) {
        return None;
    }
    let mut out: Vec<char> = Vec::new();
    out.push('/');
    match find_last(t.as_slice(), '/') {
        Some(i) => {
            let parent = sub_chars(t.as_slice(), 0, i);
            crate::text::append_chars(&mut out, parent.as_slice());
            out.push('/');
            assert(out@ =~= seq!['/'] + t@.take(i as int) + seq!['/']);
        },
        None => {
            assert(out@ =~= seq!['/']);
        },
    }
    Some(string_of(out.as_slice()))
}

/// The path a parsed store URL is given first: nothing where it already ends with `/`,
/// else the path with `/` added.
pub fn slashed_path(path: &str) -> (res: Option<String>)
    ensures
        opt_text(res) == (if ends_with(path@, seq!['/']) {
            None
        } else {
            Some(path@ + seq!['/'])
        }),
{
    proof {
        reveal_strlit("/");
        assert("/"@ =~= seq!['/']);
    }
    if str_ends_with(path, "/") {
        None
    } else {
        let mut cs = chars_of(path);
        cs.push('/');
        assert(cs@ =~= path@ + seq!['/']);
        Some(string_of(cs.as_slice()))
    }
}

/// The URL of the store, as the sync requests are made against it.
pub fn normalized_base_url(config: &WebDavConfig) -> (res: Result<String, SyncError>)
    ensures
        match res {
            Ok(u) => spec_normalized_base_url(config.base_url@) == Ok::<Seq<char>, SyncFault>(u@),
            Err(e) => spec_normalized_base_url(config.base_url@) == Err::<Seq<char>, SyncFault>(
                e@,
            ),
        },
{
    let text = trim_str(config.base_url.as_str());
    if text.as_str().is_empty() {
        return Err(SyncError::EmptyBaseUrl);
    }
    let p0 = match url_after_exec(text.as_str(), None) {
        Some((_, p)) => p,
        None => return Err(SyncError::InvalidBaseUrl(text)),
    };
    let slashed = slashed_path(p0.as_str());
    let slashed_ref: Option<&str> = match &slashed {
        Some(s) => Some(s.as_str()),
        None => None,
    };
    let ghost first = if ends_with(p0@, seq!['/']) {
        None
    } else {
        Some(p0@ + seq!['/'])
    };
    assert(opt_str(slashed_ref) == first);
    let (written, p1) = match url_after_exec(text.as_str(), slashed_ref) {
        Some(r) => r,
        None => return Err(SyncError::InvalidBaseUrl(text)),
    };
    match store_path_of(p1.as_str()) {
        None => Ok(written),
        Some(parent) => match url_after_exec(text.as_str(), Some(parent.as_str())) {
            Some((w, _)) => Ok(w),
            None => Err(SyncError::InvalidBaseUrl(text)),
        },
    }
}

// ---------------------------------------------------------------------------
// Thread files and their names
// ---------------------------------------------------------------------------

/// The key under which a thread is matched across machines: its project name and thread
/// ID, trimmed, joined by `::`.
pub open spec fn spec_identity_key(project_name: Seq<char>, thread_id: Seq<char>) -> Seq<char> {
    trim(project_name) + "::"@ + trim(thread_id)
}

/// The key under which a thread is matched across machines.
pub fn identity_key(project_name: &str, thread_id: &str) -> (res: String)
    ensures
        res@ == spec_identity_key(project_name@, thread_id@),
{
    let p = trim_str(project_name);
    let t = trim_str(thread_id);
    let mut out = chars_of(p.as_str());
    append_str(&mut out, "::");
    append_str(&mut out, t.as_str());
    string_of(out.as_slice())
}

/// A thread file's name: `rollout-`, then anything, then `.jsonl`.
pub open spec fn is_rollout_name(name: Seq<char>) -> bool {
    starts_with(name, "rollout-"@) && ends_with(name, ".jsonl"@)
}

/// Whether the last name of `path` is that of a thread file.
pub open spec fn is_rollout_path(path: Seq<char>, windows: bool) -> bool {
    match crate::pathparts::file_name(path, windows) {
        Some(n) => is_rollout_name(n),
        None => false,
    }
}

fn rollout_name(name: &str) -> (res: bool)
    ensures
        res == is_rollout_name(name@),
{
    str_starts_with(name, "rollout-") && str_ends_with(name, ".jsonl")
}

/// Whether `path` names a thread file.
pub fn is_rollout_file(path: &str, windows: bool) -> (res: bool)
    ensures
        res == is_rollout_path(path@, windows),
{
    match crate::pathparts::path_file_name(path, windows) {
        Some(n) => rollout_name(n.as_str()),
        None => false,
    }
}

/// Where a cut that leaves the last `n` bytes of a text falls.
pub enum TailCut {
    /// The text is shorter than `n` bytes.
    Short,
    /// The cut falls inside a character.
    Split,
    /// The characters of the last `n` bytes.
    Exact(Seq<char>),
}

/// The characters that make up the last `n` bytes of `s` in UTF-8.
pub open spec fn tail_bytes(s: Seq<char>, n: int) -> TailCut
    decreases s.len(),
{
    if n <= 0 {
        TailCut::Exact(Seq::empty())
    } else if s.len() == 0 {
        TailCut::Short
    } else if utf8_width(s.last()) > n {
        TailCut::Split
    } else {
        match tail_bytes(s.drop_last(), n - utf8_width(s.last())) {
            TailCut::Exact(t) => TailCut::Exact(t.push(s.last())),
            other => other,
        }
    }
}

/// The text between `rollout-` and `.jsonl` of a thread file's name.
pub open spec fn rollout_stem(name: Seq<char>) -> Option<Seq<char>> {
    if is_rollout_name(name) && name.len() >= 14 {
        Some(name.subrange(8, name.len() - 6))
    } else {
        None
    }
}

/// The thread ID in a thread file's name: the last 36 bytes of its stem where the stem
/// has that many, else the whole stem.
pub open spec fn spec_thread_id(name: Seq<char>) -> Option<Seq<char>> {
    match rollout_stem(name) {
        None => None,
        Some(stem) => match tail_bytes(stem, 36) {
            TailCut::Exact(t) => Some(t),
            _ => Some(stem),
        },
    }
}

/// The name can be cut: it is no thread file's name, or its stem is shorter than 36
/// bytes, or a character begins 36 bytes before the stem's end (the slice that takes the
/// ID panics otherwise).
pub open spec fn thread_id_cuttable(name: Seq<char>) -> bool {
    match rollout_stem(name) {
        None => true,
        Some(stem) => !(tail_bytes(stem, 36) is Split),
    }
}

fn tail_bytes_of(cs: &[char], n: usize) -> (res: (u8, Vec<char>))
    ensures
        res.0 == 0 ==> tail_bytes(cs@, n as int) == TailCut::Exact(res.1@),
        res.0 == 1 ==> tail_bytes(cs@, n as int) is Short,
        res.0 == 2 ==> tail_bytes(cs@, n as int) is Split,
        res.0 <= 2,
{
    let mut j: usize = cs.len();
    let mut left: usize = n;
    assert(cs@.take(j as int) =~= cs@);
    while left > 0 && j > 0 && crate::usage::utf8_width_exec(cs[j - 1]) <= left
        invariant
            j <= cs.len(),
            left <= n,
            tail_bytes(cs@, n as int) == match tail_bytes(cs@.take(j as int), left as int) {
                TailCut::Exact(t) => TailCut::Exact(t + cs@.skip(j as int)),
                other => other,
            },
        decreases j,
    {
        let ghost head = cs@.take(j as int);
        assert(head.drop_last() =~= cs@.take(j - 1));
        assert(head.last() == cs@[j - 1]);
        assert forall|t: Seq<char>| t.push(head.last()) + cs@.skip(j as int) =~= t + cs@.skip(
            j - 1,
        ) by {}
        left = left - crate::usage::utf8_width_exec(cs[j - 1]);
        j -= 1;
    }
    if left == 0 {
        assert(Seq::<char>::empty() + cs@.skip(j as int) =~= cs@.skip(j as int));
        let t = sub_chars(cs, j, cs.len());
        assert(t@ =~= cs@.skip(j as int));
        (0, t)
    } else if j == 0 {
        (1, Vec::new())
    } else {
        (2, Vec::new())
    }
}

/// The thread ID in a thread file's name.
pub fn thread_id_from_filename(filename: &str) -> (res: Option<String>)
    requires
        thread_id_cuttable(filename@),
    ensures
        opt_text(res) == spec_thread_id(filename@),
{
    let cs = chars_of(filename);
    proof {
        reveal_strlit("rollout-");
        reveal_strlit(".jsonl");
    }
    if !(rollout_name(filename) && cs.len() >= 14) {
        return None;
    }
    let stem = sub_chars(cs.as_slice(), 8, cs.len() - 6);
    let (kind, tail) = tail_bytes_of(stem.as_slice(), 36);
    if kind == 0 {
        Some(string_of(tail.as_slice()))
    } else {
        Some(string_of(stem.as_slice()))
    }
}

/// The thread ID of the thread file at `path`.
pub open spec fn spec_thread_id_of_path(path: Seq<char>, windows: bool) -> Option<Seq<char>> {
    match crate::pathparts::file_name(path, windows) {
        Some(n) => spec_thread_id(n),
        None => None,
    }
}

pub open spec fn path_cuttable(path: Seq<char>, windows: bool) -> bool {
    match crate::pathparts::file_name(path, windows) {
        Some(n) => thread_id_cuttable(n),
        None => true,
    }
}

/// The thread ID of the thread file at `path` (a path with `/` between its pieces).
pub fn thread_id_from_path(path: &str, windows: bool) -> (res: Option<String>)
    requires
        path_cuttable(path@, windows),
    ensures
        opt_text(res) == spec_thread_id_of_path(path@, windows),
{
    match crate::pathparts::path_file_name(path, windows) {
        Some(n) => thread_id_from_filename(n.as_str()),
        None => None,
    }
}

// ---------------------------------------------------------------------------
// Local threads
// ---------------------------------------------------------------------------

/// A thread file on this machine.
#[derive(Debug)]
pub struct ThreadRecord {
    pub project_name: String,
    pub thread_id: String,
    /// Its path below the Codex directory, pieces joined with `/`.
    pub relative_path: String,
    pub local_path: String,
    pub archived: bool,
    pub updated_at: Option<i64>,
    /// When it was last modified, in seconds since the Unix epoch.
    pub modified_at: Option<i64>,
    pub size: Option<u64>,
}

pub struct ThreadView {
    pub project_name: Seq<char>,
    pub thread_id: Seq<char>,
    pub relative_path: Seq<char>,
    pub local_path: Seq<char>,
    pub archived: bool,
    pub updated_at: Option<i64>,
    pub modified_at: Option<i64>,
    pub size: Option<u64>,
}

impl View for ThreadRecord {
    type V = ThreadView;

    open spec fn view(&self) -> ThreadView {
        ThreadView {
            project_name: self.project_name@,
            thread_id: self.thread_id@,
            relative_path: self.relative_path@,
            local_path: self.local_path@,
            archived: self.archived,
            updated_at: self.updated_at,
            modified_at: self.modified_at,
            size: self.size,
        }
    }
}

impl Clone for ThreadRecord {
    fn clone(&self) -> (res: Self)
        ensures
            res@ == self@,
    {
        ThreadRecord {
            project_name: self.project_name.clone(),
            thread_id: self.thread_id.clone(),
            relative_path: self.relative_path.clone(),
            local_path: self.local_path.clone(),
            archived: self.archived,
            updated_at: self.updated_at,
            modified_at: self.modified_at,
            size: self.size,
        }
    }
}

pub open spec fn thread_views(s: Seq<ThreadRecord>) -> Seq<ThreadView> {
    s.map_values(|t: ThreadRecord| t@)
}

/// A file found below one of the sync roots.
#[derive(Debug)]
pub struct LocalFile {
    pub path: String,
    /// When it was last modified, in seconds since the Unix epoch.
    pub modified_at: Option<i64>,
    pub size: Option<u64>,
}

/// The project name that a thread ID has in a table of `(id, name)` pairs.
pub open spec fn name_for(names: Seq<(Seq<char>, Seq<char>)>, id: Seq<char>) -> Option<Seq<char>>
    decreases names.len(),
{
    if names.len() == 0 {
        None
    } else if names[0].0 == id {
        Some(names[0].1)
    } else {
        name_for(names.drop_first(), id)
    }
}

pub open spec fn name_views(s: Seq<(String, String)>) -> Seq<(Seq<char>, Seq<char>)> {
    s.map_values(|p: (String, String)| (p.0@, p.1@))
}

/// A thread file's record, where the file is one: its ID from its name, its path
/// relative to the Codex directory, its project name from the table (empty where it
/// has none), archived where it lies below `archived_sessions/`. A file outside the
/// Codex directory is an error.
pub open spec fn file_record(
    codex: Seq<char>,
    path: Seq<char>,
    modified_at: Option<i64>,
    size: Option<u64>,
    names: Seq<(Seq<char>, Seq<char>)>,
    windows: bool,
) -> Result<Option<ThreadView>, Seq<char>> {
    if !is_rollout_path(path, windows) {
        Ok(None)
    } else {
        match spec_thread_id_of_path(path, windows) {
            None => Ok(None),
            Some(id) => match crate::pathparts::spec_relative_path(codex, path, windows) {
                None => Err(path),
                Some(rel) => Ok(
                    Some(
                        ThreadView {
                            project_name: match name_for(names, id) {
                                Some(n) => n,
                                None => Seq::empty(),
                            },
                            thread_id: id,
                            relative_path: rel,
                            local_path: path,
                            archived: starts_with(rel, "archived_sessions/"@),
                            updated_at: None,
                            modified_at,
                            size,
                        },
                    ),
                ),
            },
        }
    }
}

pub open spec fn thread_identity(t: ThreadView) -> Seq<char> {
    spec_identity_key(t.project_name, t.thread_id)
}

/// The index of the first record with the identity `key`.
pub open spec fn identity_index(s: Seq<ThreadView>, key: Seq<char>) -> Option<int>
    decreases s.len(),
{
    if s.len() == 0 {
        None
    } else {
        match identity_index(s.drop_last(), key) {
            Some(i) => Some(i),
            None => if thread_identity(s.last()) == key {
                Some(s.len() - 1)
            } else {
                None
            },
        }
    }
}

/// A record put into a table keyed by identity: it replaces the record with its
/// identity, or comes last.
pub open spec fn upsert_thread(s: Seq<ThreadView>, t: ThreadView) -> Seq<ThreadView> {
    match identity_index(s, thread_identity(t)) {
        Some(i) => s.update(i, t),
        None => s.push(t),
    }
}

pub struct LocalFileView {
    pub path: Seq<char>,
    pub modified_at: Option<i64>,
    pub size: Option<u64>,
}

pub open spec fn file_views(s: Seq<LocalFile>) -> Seq<LocalFileView> {
    s.map_values(
        |f: LocalFile| LocalFileView { path: f.path@, modified_at: f.modified_at, size: f.size },
    )
}

/// The thread files among the files found, one record per identity (the last file found
/// with it); the first file outside the Codex directory is an error.
pub open spec fn spec_local_threads(
    codex: Seq<char>,
    files: Seq<LocalFileView>,
    names: Seq<(Seq<char>, Seq<char>)>,
    windows: bool,
) -> Result<Seq<ThreadView>, Seq<char>>
    decreases files.len(),
{
    if files.len() == 0 {
        Ok(Seq::empty())
    } else {
        match spec_local_threads(codex, files.drop_last(), names, windows) {
            Err(p) => Err(p),
            Ok(acc) => {
                let f = files.last();
                match file_record(codex, f.path, f.modified_at, f.size, names, windows) {
                    Err(p) => Err(p),
                    Ok(None) => Ok(acc),
                    Ok(Some(t)) => Ok(upsert_thread(acc, t)),
                }
            },
        }
    }
}

fn lookup_name(names: &Vec<(String, String)>, id: &str) -> (res: Option<String>)
    ensures
        opt_text(res) == name_for(name_views(names@), id@),
{
    let ghost nv = name_views(names@);
    let mut i: usize = 0;
    assert(nv.skip(0) =~= nv);
    while i < names.len()
        invariant
            i <= names.len() == nv.len(),
            nv == name_views(names@),
            name_for(nv, id@) == name_for(nv.skip(i as int), id@),
        decreases names.len() - i,
    {
        let ghost rest = nv.skip(i as int);
        assert(rest.drop_first() =~= nv.skip(i + 1));
        assert(rest[0] == nv[i as int]);
        if str_eq(names[i].0.as_str(), id) {
            return Some(names[i].1.clone());
        }
        i += 1;
    }
    None
}

fn record_of(codex: &str, f: &LocalFile, names: &Vec<(String, String)>, windows: bool) -> (res:
    Result<Option<ThreadRecord>, String>)
    requires
        path_cuttable(f.path@, windows),
    ensures
        match res {
            Ok(Some(t)) => file_record(
                codex@,
                f.path@,
                f.modified_at,
                f.size,
                name_views(names@),
                windows,
            ) == Ok::<Option<ThreadView>, Seq<char>>(Some(t@)),
            Ok(None) => file_record(
                codex@,
                f.path@,
                f.modified_at,
                f.size,
                name_views(names@),
                windows,
            ) == Ok::<Option<ThreadView>, Seq<char>>(None),
            Err(p) => file_record(
                codex@,
                f.path@,
                f.modified_at,
                f.size,
                name_views(names@),
                windows,
            ) == Err::<Option<ThreadView>, Seq<char>>(p@),
        },
{
    if !is_rollout_file(f.path.as_str(), windows) {
        return Ok(None);
    }
    let id = match thread_id_from_path(f.path.as_str(), windows) {
        Some(id) => id,
        None => return Ok(None),
    };
    let rel = match crate::pathparts::relative_path(codex, f.path.as_str(), windows) {
        Some(r) => r,
        None => return Err(f.path.clone()),
    };
    let project_name = match lookup_name(names, id.as_str()) {
        Some(n) => n,
        None => String::new(),
    };
    let archived = str_starts_with(rel.as_str(), "archived_sessions/");
    Ok(
        Some(
            ThreadRecord {
                project_name,
                thread_id: id,
                relative_path: rel,
                local_path: f.path.clone(),
                archived,
                updated_at: None,
                modified_at: f.modified_at,
                size: f.size,
            },
        ),
    )
}

/// The thread files among the files found below the sync roots of the Codex directory
/// `codex`, with project names from the session index's table.
pub fn local_threads(
    codex: &str,
    files: &Vec<LocalFile>,
    names: &Vec<(String, String)>,
    windows: bool,
) -> (res: Result<Vec<ThreadRecord>, SyncError>)
    requires
        forall|i: int| 0 <= i < files@.len() ==> path_cuttable(#[trigger] files@[i].path@, windows),
    ensures
        match res {
            Ok(ts) => spec_local_threads(codex@, file_views(files@), name_views(names@), windows)
                == Ok::<Seq<ThreadView>, Seq<char>>(thread_views(ts@)),
            Err(e) => exists|p: Seq<char>|
                spec_local_threads(codex@, file_views(files@), name_views(names@), windows)
                    == Err::<Seq<ThreadView>, Seq<char>>(p) && e@ == SyncFault::OutsideCodexDir(p),
        },
{
    let ghost fv = file_views(files@);
    let ghost nv = name_views(names@);
    let mut out: Vec<ThreadRecord> = Vec::new();
    let mut keys: Vec<String> = Vec::new();
    let mut k: usize = 0;
    assert(fv.take(0) =~= Seq::<LocalFileView>::empty());
    assert(thread_views(out@) =~= Seq::<ThreadView>::empty());
    while k < files.len()
        invariant
            k <= files.len() == fv.len(),
            fv == file_views(files@),
            nv == name_views(names@),
            forall|i: int| 0 <= i < files@.len() ==> path_cuttable(#[trigger] files@[i].path@, windows),
            spec_local_threads(codex@, fv.take(k as int), nv, windows) == Ok::<
                Seq<ThreadView>,
                Seq<char>,
            >(thread_views(out@)),
            keys@.len() == out@.len(),
            forall|i: int| 0 <= i < keys@.len() ==> #[trigger] keys@[i]@ == thread_identity(out@[i]@),
        decreases files.len() - k,
    {
        assert(fv.take(k + 1).drop_last() =~= fv.take(k as int));
        assert(fv.take(k + 1).last() == fv[k as int]);
        match record_of(codex, &files[k], names, windows) {
            Err(p) => {
                assert(spec_local_threads(codex@, fv.take(k + 1), nv, windows) == Err::<
                    Seq<ThreadView>,
                    Seq<char>,
                >(p@));
                proof {
                    lemma_local_threads_err_prefix(codex@, fv, nv, windows, k + 1, p@);
                }
                return Err(SyncError::OutsideCodexDir(p));
            },
            Ok(None) => {},
            Ok(Some(t)) => {
                let ghost before = thread_views(out@);
                let key = identity_key(t.project_name.as_str(), t.thread_id.as_str());
                let mut j: usize = 0;
                while j < keys.len() && !str_eq(keys[j].as_str(), key.as_str())
                    invariant
                        j <= keys@.len() == out@.len(),
                        before == thread_views(out@),
                        forall|i: int|
                            0 <= i < keys@.len() ==> #[trigger] keys@[i]@ == thread_identity(
                                out@[i]@,
                            ),
                        forall|i: int| 0 <= i < j ==> thread_identity(#[trigger] before[i]) != key@,
                    decreases keys.len() - j,
                {
                    j += 1;
                }
                proof {
                    lemma_identity_index(before, key@, j as int);
                }
                if j < keys.len() {
                    out.set(j, t);
                    assert(thread_views(out@) =~= before.update(j as int, t@));
                } else {
                    out.push(t);
                    keys.push(key);
                    assert(thread_views(out@) =~= before.push(t@));
                }
            },
        }
        k += 1;
    }
    assert(fv.take(k as int) =~= fv);
    Ok(out)
}

proof fn lemma_identity_index(s: Seq<ThreadView>, key: Seq<char>, j: int)
    requires
        0 <= j <= s.len(),
        forall|i: int| 0 <= i < j ==> thread_identity(#[trigger] s[i]) != key,
        j < s.len() ==> thread_identity(s[j]) == key,
    ensures
        identity_index(s, key) == if j < s.len() {
            Some(j)
        } else {
            None::<int>
        },
    decreases s.len(),
{
    if s.len() > 0 {
        if j < s.len() - 1 {
            lemma_identity_index(s.drop_last(), key, j);
        } else {
            assert forall|i: int| 0 <= i < s.drop_last().len() implies thread_identity(
                #[trigger] s.drop_last()[i],
            ) != key by {
                assert(s.drop_last()[i] == s[i]);
            }
            lemma_identity_index(s.drop_last(), key, s.len() - 1);
        }
    }
}

proof fn lemma_local_threads_err_prefix(
    codex: Seq<char>,
    fv: Seq<LocalFileView>,
    nv: Seq<(Seq<char>, Seq<char>)>,
    windows: bool,
    k: int,
    p: Seq<char>,
)
    requires
        0 <= k <= fv.len(),
        spec_local_threads(codex, fv.take(k), nv, windows) == Err::<Seq<ThreadView>, Seq<char>>(p),
    ensures
        spec_local_threads(codex, fv, nv, windows) == Err::<Seq<ThreadView>, Seq<char>>(p),
    decreases fv.len() - k,
{
    if k < fv.len() {
        assert(fv.take(k + 1).drop_last() =~= fv.take(k));
        lemma_local_threads_err_prefix(codex, fv, nv, windows, k + 1, p);
    } else {
        assert(fv.take(k) =~= fv);
    }
}

// ---------------------------------------------------------------------------
// Project names from the session index
// ---------------------------------------------------------------------------

/// The lines that are not blank.
pub open spec fn nonblank_lines(lines: Seq<Seq<char>>) -> Seq<Seq<char>>
    decreases lines.len(),
{
    if lines.len() == 0 {
        Seq::empty()
    } else if trim(lines.last()).len() == 0 {
        nonblank_lines(lines.drop_last())
    } else {
        nonblank_lines(lines.drop_last()).push(lines.last())
    }
}

/// The non-blank lines of a JSON-lines text, each read as JSON (nothing for a line that
/// is no JSON).
pub open spec fn parsed_lines(content: Seq<char>) -> Seq<Option<crate::json::Json>> {
    nonblank_lines(crate::text::text_lines(content)).map_values(
        |l: Seq<char>| crate::json::json_parsed(l),
    )
}

/// The non-blank lines of a JSON-lines text, each read as JSON.
pub fn parse_jsonl(content: &str) -> (res: Vec<Option<crate::json::JsonValue>>)
    ensures
        opt_values(res@) == parsed_lines(content@),
{
    let ls = index_lines(content);
    let ghost lv = crate::text::string_views(ls@);
    let mut values: Vec<Option<crate::json::JsonValue>> = Vec::new();
    let mut j: usize = 0;
    while j < ls.len()
        invariant
            j <= ls.len(),
            lv == crate::text::string_views(ls@),
            lv == nonblank_lines(crate::text::text_lines(content@)),
            opt_values(values@) == lv.take(j as int).map_values(
                |l: Seq<char>| crate::json::json_parsed(l),
            ),
        decreases ls.len() - j,
    {
        let v = crate::json::parse_json(ls[j].as_str());
        let ghost before = opt_values(values@);
        values.push(v);
        assert(opt_values(values@) =~= before.push(crate::json::json_parsed(lv[j as int])));
        assert(lv.take(j + 1).map_values(|l: Seq<char>| crate::json::json_parsed(l))
            =~= lv.take(j as int).map_values(|l: Seq<char>| crate::json::json_parsed(l)).push(
            crate::json::json_parsed(lv[j as int]),
        ));
        j += 1;
    }
    assert(lv.take(j as int) =~= lv);
    values
}

/// The project names of the session index, from its text: as [`project_names`] gives
/// them for its non-blank lines read as JSON.
pub fn project_names_of_index(content: &str, windows: bool) -> (res: Vec<(String, String)>)
    ensures
        name_views(res@) == spec_project_names(parsed_lines(content@), windows),
{
    let values = parse_jsonl(content);
    project_names(&values, windows)
}

/// The lines of the session index that hold entries: those that are not blank.
pub fn index_lines(content: &str) -> (res: Vec<String>)
    ensures
        crate::text::string_views(res@) == nonblank_lines(crate::text::text_lines(content@)),
{
    let lines = crate::text::lines_of(content);
    let ghost lv = crate::text::string_views(lines@);
    let mut out: Vec<String> = Vec::new();
    let mut k: usize = 0;
    assert(lv.take(0) =~= Seq::<Seq<char>>::empty());
    assert(crate::text::string_views(out@) =~= Seq::<Seq<char>>::empty());
    while k < lines.len()
        invariant
            k <= lines.len() == lv.len(),
            lv == crate::text::string_views(lines@),
            crate::text::string_views(out@) == nonblank_lines(lv.take(k as int)),
        decreases lines.len() - k,
    {
        assert(lv.take(k + 1).drop_last() =~= lv.take(k as int));
        assert(lv.take(k + 1).last() == lines@[k as int]@);
        if !is_blank(lines[k].as_str()) {
            let ghost before = crate::text::string_views(out@);
            out.push(lines[k].clone());
            assert(crate::text::string_views(out@) =~= before.push(lines@[k as int]@));
        }
        k += 1;
    }
    assert(lv.take(k as int) =~= lv);
    out
}

/// The `(id, project name)` pair of one session index entry: the entry's `id`, and its
/// `project_name`, else the last name of its `cwd`, else empty; nothing without an `id`
/// (or where the line does not parse).
pub open spec fn index_entry(v: Option<crate::json::Json>, windows: bool) -> Option<
    (Seq<char>, Seq<char>),
> {
    match crate::json::as_str(crate::json::get(v, "id"@)) {
        None => None,
        Some(id) => Some(
            (
                id,
                match crate::json::as_str(crate::json::get(v, "project_name"@)) {
                    Some(p) => p,
                    None => match crate::json::as_str(crate::json::get(v, "cwd"@)) {
                        Some(c) => match crate::pathparts::file_name(c, windows) {
                            Some(n) => n,
                            None => Seq::empty(),
                        },
                        None => Seq::empty(),
                    },
                },
            ),
        ),
    }
}

/// A pair put into the table: it replaces the name of its ID, or comes last.
pub open spec fn upsert_name(t: Seq<(Seq<char>, Seq<char>)>, id: Seq<char>, name: Seq<char>) -> Seq<
    (Seq<char>, Seq<char>),
> {
    match name_index(t, id) {
        Some(i) => t.update(i, (id, name)),
        None => t.push((id, name)),
    }
}

pub open spec fn name_index(t: Seq<(Seq<char>, Seq<char>)>, id: Seq<char>) -> Option<int>
    decreases t.len(),
{
    if t.len() == 0 {
        None
    } else {
        match name_index(t.drop_last(), id) {
            Some(i) => Some(i),
            None => if t.last().0 == id {
                Some(t.len() - 1)
            } else {
                None
            },
        }
    }
}

/// The table of project names by thread ID that the session index gives, the last entry
/// of an ID winning.
pub open spec fn spec_project_names(values: Seq<Option<crate::json::Json>>, windows: bool) -> Seq<
    (Seq<char>, Seq<char>),
>
    decreases values.len(),
{
    if values.len() == 0 {
        Seq::empty()
    } else {
        let t = spec_project_names(values.drop_last(), windows);
        match index_entry(values.last(), windows) {
            Some((id, name)) => upsert_name(t, id, name),
            None => t,
        }
    }
}

proof fn lemma_name_index(t: Seq<(Seq<char>, Seq<char>)>, id: Seq<char>, j: int)
    requires
        0 <= j <= t.len(),
        forall|i: int| 0 <= i < j ==> (#[trigger] t[i]).0 != id,
        j < t.len() ==> t[j].0 == id,
    ensures
        name_index(t, id) == if j < t.len() {
            Some(j)
        } else {
            None::<int>
        },
    decreases t.len(),
{
    if t.len() > 0 {
        if j < t.len() - 1 {
            lemma_name_index(t.drop_last(), id, j);
        } else {
            assert forall|i: int| 0 <= i < t.drop_last().len() implies (
            #[trigger] t.drop_last()[i]).0 != id by {
                assert(t.drop_last()[i] == t[i]);
            }
            lemma_name_index(t.drop_last(), id, t.len() - 1);
        }
    }
}

fn entry_of(v: Option<&crate::json::JsonValue>, windows: bool) -> (res: Option<(String, String)>)
    ensures
        match res {
            Some(p) => index_entry(crate::json::view_opt(v), windows) == Some((p.0@, p.1@)),
            None => index_entry(crate::json::view_opt(v), windows) is None,
        },
{
    let id = match json_as_str(json_get(v, "id")) {
        Some(id) => id.clone(),
        None => return None,
    };
    let name = match json_as_str(json_get(v, "project_name")) {
        Some(p) => p.clone(),
        None => match json_as_str(json_get(v, "cwd")) {
            Some(c) => match crate::pathparts::path_file_name(c.as_str(), windows) {
                Some(n) => n,
                None => String::new(),
            },
            None => String::new(),
        },
    };
    Some((id, name))
}

pub open spec fn opt_values(v: Seq<Option<crate::json::JsonValue>>) -> Seq<Option<crate::json::Json>> {
    v.map_values(
        |x: Option<crate::json::JsonValue>|
            match x {
                Some(j) => Some(j@),
                None => None,
            },
    )
}

/// The table of project names by thread ID that the session index's entries give (an
/// entry that does not parse given as nothing).
pub fn project_names(values: &Vec<Option<crate::json::JsonValue>>, windows: bool) -> (res: Vec<
    (String, String),
>)
    ensures
        name_views(res@) == spec_project_names(opt_values(values@), windows),
{
    let ghost vv = opt_values(values@);
    let mut out: Vec<(String, String)> = Vec::new();
    let mut k: usize = 0;
    assert(vv.take(0) =~= Seq::<Option<crate::json::Json>>::empty());
    assert(name_views(out@) =~= Seq::<(Seq<char>, Seq<char>)>::empty());
    while k < values.len()
        invariant
            k <= values.len() == vv.len(),
            vv == opt_values(values@),
            name_views(out@) == spec_project_names(vv.take(k as int), windows),
        decreases values.len() - k,
    {
        assert(vv.take(k + 1).drop_last() =~= vv.take(k as int));
        assert(vv.take(k + 1).last() == vv[k as int]);
        let v = match &values[k] {
            Some(j) => Some(j),
            None => None,
        };
        assert(crate::json::view_opt(v) == vv[k as int]);
        match entry_of(v, windows) {
            Some((id, name)) => {
                let ghost before = name_views(out@);
                let mut j: usize = 0;
                while j < out.len() && !str_eq(out[j].0.as_str(), id.as_str())
                    invariant
                        j <= out@.len(),
                        before == name_views(out@),
                        forall|i: int| 0 <= i < j ==> (#[trigger] before[i]).0 != id@,
                    decreases out.len() - j,
                {
                    j += 1;
                }
                proof {
                    lemma_name_index(before, id@, j as int);
                }
                let ghost pair = (id@, name@);
                if j < out.len() {
                    out.set(j, (id, name));
                    assert(name_views(out@) =~= before.update(j as int, pair));
                } else {
                    out.push((id, name));
                    assert(name_views(out@) =~= before.push(pair));
                }
            },
            None => {},
        }
        k += 1;
    }
    assert(vv.take(k as int) =~= vv);
    out
}

proof fn lemma_identity_index_bounds(s: Seq<ThreadView>, key: Seq<char>)
    ensures
        identity_index(s, key) matches Some(i) ==> 0 <= i < s.len(),
    decreases s.len(),
{
    if s.len() > 0 {
        lemma_identity_index_bounds(s.drop_last(), key);
    }
}

proof fn lemma_upsert_thread_from(s: Seq<ThreadView>, t: ThreadView, k: int)
    requires
        0 <= k < upsert_thread(s, t).len(),
    ensures
        upsert_thread(s, t)[k] == t || (k < s.len() && upsert_thread(s, t)[k] == s[k]),
{
    lemma_identity_index_bounds(s, thread_identity(t));
}

/// The threads found are thread files: each lies at a thread file's path, and its
/// relative path is that path taken relative to the Codex directory.
pub proof fn lemma_local_threads_are_thread_files(
    codex: Seq<char>,
    files: Seq<LocalFileView>,
    names: Seq<(Seq<char>, Seq<char>)>,
    windows: bool,
)
    ensures
        spec_local_threads(codex, files, names, windows) matches Ok(ts) ==> forall|i: int|
            0 <= i < ts.len() ==> is_rollout_path(#[trigger] ts[i].local_path, windows)
                && crate::pathparts::spec_relative_path(codex, ts[i].local_path, windows) == Some(
                ts[i].relative_path,
            ),
    decreases files.len(),
{
    if files.len() > 0 {
        lemma_local_threads_are_thread_files(codex, files.drop_last(), names, windows);
        match spec_local_threads(codex, files.drop_last(), names, windows) {
            Err(_) => {},
            Ok(acc) => {
                let f = files.last();
                match file_record(codex, f.path, f.modified_at, f.size, names, windows) {
                    Ok(Some(t)) => {
                        assert forall|i: int| 0 <= i < upsert_thread(acc, t).len() implies is_rollout_path(
                            #[trigger] upsert_thread(acc, t)[i].local_path,
                            windows,
                        ) && crate::pathparts::spec_relative_path(
                            codex,
                            upsert_thread(acc, t)[i].local_path,
                            windows,
                        ) == Some(upsert_thread(acc, t)[i].relative_path) by {
                            lemma_upsert_thread_from(acc, t, i);
                        }
                    },
                    _ => {},
                }
            },
        }
    }
}

} // verus!
