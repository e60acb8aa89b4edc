//! What a push or a pull of threads does, worked out from what was found here and in
//! the store: which directories to create, which files to send or fetch, and what the
//! run reports.
use vstd::prelude::*;
use crate::dav::{RemoteEntry, RemoteEntryView, entry_index, entry_views, find_entry};
use crate::manifest::{ManifestThread, ManifestThreadView, manifest_identity, manifest_views};
use crate::pathparts::{join_slash, pieces};
use crate::text::{
    append_str, chars_of, contains_text, find_last, int_text, last_index_of, opt_text, push_digits,
    str_eq, string_of, sub_chars, trim_char, trim_char_chars,
};
use crate::webdav::{ThreadRecord, ThreadView, identity_key, spec_identity_key, thread_views};

verus! {

/// The directories below the store's root that hold thread files.
pub open spec fn spec_sync_roots() -> Seq<Seq<char>> {
    seq!["sessions"@, "archived_sessions"@]
}

/// The directories below the store's root that hold thread files.
pub fn sync_roots() -> (res: Vec<String>)
    ensures
        crate::text::string_views(res@) == spec_sync_roots(),
{
    let mut v: Vec<String> = Vec::new();
    v.push("sessions".to_string());
    v.push("archived_sessions".to_string());
    assert(crate::text::string_views(v@) =~= spec_sync_roots());
    v
}

// ---------------------------------------------------------------------------
// Listing the store
// ---------------------------------------------------------------------------

/// A walk over a directory tree of the store, one `PROPFIND` of depth 1 per directory:
/// the directories still to list (the last listed next) and the entries found.
pub struct RemoteTreeWalk {
    pub pending: Vec<String>,
    pub found: Vec<RemoteEntry>,
}

impl RemoteTreeWalk {
    /// A walk that starts at `root`.
    pub fn new(root: &str) -> (res: Self)
        ensures
            crate::text::string_views(res.pending@) == seq![root@],
            res.found@.len() == 0,
    {
        let mut pending: Vec<String> = Vec::new();
        pending.push(root.to_string());
        assert(crate::text::string_views(pending@) =~= seq![root@]);
        RemoteTreeWalk { pending, found: Vec::new() }
    }

    /// The next directory to list, taken off the walk; nothing once all are listed.
    pub fn next_directory(&mut self) -> (res: Option<String>)
        ensures
            match res {
                Some(d) => old(self).pending@.len() > 0 && d@ == old(self).pending@.last()@
                    && final(self).pending@ == old(self).pending@.drop_last(),
                None => old(self).pending@.len() == 0 && final(self).pending@ == old(
                    self,
                ).pending@,
            },
            final(self).found@ == old(self).found@,
    {
        self.pending.pop()
    }

    /// The entries of a listed directory: each found, in order, and each directory
    /// among them to be listed.
    pub fn absorb(&mut self, entries: Vec<RemoteEntry>)
        ensures
            entry_views(final(self).found@) == entry_views(old(self).found@) + entry_views(
                entries@,
            ),
            crate::text::string_views(final(self).pending@) == crate::text::string_views(
                old(self).pending@,
            ) + directories_of(entry_views(entries@)),
    {
        let ghost ev = entry_views(entries@);
        let ghost f0 = entry_views(self.found@);
        let ghost p0 = crate::text::string_views(self.pending@);
        let mut k: usize = 0;
        assert(ev.take(0) =~= Seq::<RemoteEntryView>::empty());
        while k < entries.len()
            invariant
                k <= entries.len(),
                ev == entry_views(entries@),
                entry_views(self.found@) == f0 + ev.take(k as int),
                crate::text::string_views(self.pending@) == p0 + directories_of(ev.take(k as int)),
            decreases entries.len() - k,
        {
            assert(ev.take(k + 1).drop_last() =~= ev.take(k as int));
            assert(ev.take(k + 1).last() == entries@[k as int]@);
            let e = entries[k].clone();
            if e.is_directory {
                let ghost pb = crate::text::string_views(self.pending@);
                self.pending.push(e.relative_path.clone());
                assert(crate::text::string_views(self.pending@) =~= pb.push(e.relative_path@));
            }
            let ghost fb = entry_views(self.found@);
            self.found.push(e);
            assert(entry_views(self.found@) =~= fb.push(entries@[k as int]@));
            k += 1;
        }
        assert(ev.take(k as int) =~= ev);
    }
}

/// The paths of the directories among the entries, in order.
pub open spec fn directories_of(es: Seq<RemoteEntryView>) -> Seq<Seq<char>>
    decreases es.len(),
{
    if es.len() == 0 {
        Seq::empty()
    } else if es.last().is_directory {
        directories_of(es.drop_last()).push(es.last().relative_path)
    } else {
        directories_of(es.drop_last())
    }
}

/// A listing failed because the directory is missing: its message names HTTP 404.
pub open spec fn is_missing(message: Seq<char>) -> bool {
    contains_text(message, "HTTP 404"@)
}

/// An entry put into a table keyed by path: it replaces the entry of its path, or comes
/// last.
pub open spec fn upsert_entry(s: Seq<RemoteEntryView>, e: RemoteEntryView) -> Seq<RemoteEntryView> {
    match entry_index(s, e.relative_path) {
        Some(i) => s.update(i, e),
        None => s.push(e),
    }
}

/// The files (not the directories) among the entries put into the table in turn.
pub open spec fn add_files(s: Seq<RemoteEntryView>, es: Seq<RemoteEntryView>) -> Seq<RemoteEntryView>
    decreases es.len(),
{
    if es.len() == 0 {
        s
    } else {
        let head = add_files(s, es.drop_last());
        if es.last().is_directory {
            head
        } else {
            upsert_entry(head, es.last())
        }
    }
}

pub enum ListingView {
    Listed(Seq<RemoteEntryView>),
    Failed(Seq<char>),
}

pub open spec fn finish_index(s: Seq<RemoteEntryView>, index: Option<RemoteEntryView>) -> Seq<
    RemoteEntryView,
> {
    match index {
        Some(e) => upsert_entry(s, e),
        None => s,
    }
}

/// The store's files by path: those of each sync root's listing in turn (a root that is
/// missing skipped, any other failure returned), then the session index where it was
/// found.
pub open spec fn spec_remote_files(listings: Seq<ListingView>, index: Option<RemoteEntryView>) -> Result<
    Seq<RemoteEntryView>,
    Seq<char>,
> {
    match spec_remote_files_prefix(listings) {
        Ok(s) => Ok(finish_index(s, index)),
        Err(m) => Err(m),
    }
}

/// The table after the listings, before the session index.
pub open spec fn spec_remote_files_prefix(listings: Seq<ListingView>) -> Result<
    Seq<RemoteEntryView>,
    Seq<char>,
>
    decreases listings.len(),
{
    if listings.len() == 0 {
        Ok(Seq::empty())
    } else {
        match spec_remote_files_prefix(listings.drop_last()) {
            Err(m) => Err(m),
            Ok(s) => match listings.last() {
                ListingView::Listed(es) => Ok(add_files(s, es)),
                ListingView::Failed(m) => if is_missing(m) {
                    Ok(s)
                } else {
                    Err(m)
                },
            },
        }
    }
}

pub open spec fn listing_views(s: Seq<Result<Vec<RemoteEntry>, String>>) -> Seq<ListingView> {
    s.map_values(
        |r: Result<Vec<RemoteEntry>, String>|
            match r {
                Ok(es) => ListingView::Listed(entry_views(es@)),
                Err(m) => ListingView::Failed(m@),
            },
    )
}

proof fn lemma_entry_index_at(s: Seq<RemoteEntryView>, key: Seq<char>, j: int)
    requires
        0 <= j <= s.len(),
        forall|i: int| 0 <= i < j ==> (#[trigger] s[i]).relative_path != key,
        j < s.len() ==> s[j].relative_path == key,
    ensures
        entry_index(s, key) == if j < s.len() {
            Some(j)
        } else {
            None::<int>
        },
    decreases j,
{
    if s.len() > 0 && j > 0 {
        assert forall|i: int| 0 <= i < j - 1 implies (#[trigger] s.drop_first()[i]).relative_path
            != key by {
            assert(s.drop_first()[i] == s[i + 1]);
        }
        lemma_entry_index_at(s.drop_first(), key, j - 1);
    }
}

fn upsert_entry_exec(out: &mut Vec<RemoteEntry>, e: RemoteEntry)
    ensures
        entry_views(final(out)@) == upsert_entry(entry_views(old(out)@), e@),
{
    let ghost before = entry_views(out@);
    let mut j: usize = 0;
    while j < out.len() && !str_eq(out[j].relative_path.as_str(), e.relative_path.as_str())
        invariant
            j <= out@.len(),
            before == entry_views(out@),
            forall|i: int| 0 <= i < j ==> (#[trigger] before[i]).relative_path != e.relative_path@,
        decreases out.len() - j,
    {
        j += 1;
    }
    proof {
        lemma_entry_index_at(before, e.relative_path@, j as int);
    }
    let ghost ev = e@;
    if j < out.len() {
        out.set(j, e);
        assert(entry_views(out@) =~= before.update(j as int, ev));
    } else {
        out.push(e);
        assert(entry_views(out@) =~= before.push(ev));
    }
}

/// The store's files by path, from the listings of the sync roots (a failure as its
/// message) and the entry of the session index where it was found.
pub fn collect_remote_files(
    listings: Vec<Result<Vec<RemoteEntry>, String>>,
    index: Option<RemoteEntry>,
) -> (res: Result<Vec<RemoteEntry>, String>)
    ensures
        match res {
            Ok(es) => spec_remote_files(
                listing_views(listings@),
                match index {
                    Some(e) => Some(e@),
                    None => None,
                },
            ) == Ok::<Seq<RemoteEntryView>, Seq<char>>(entry_views(es@)),
            Err(m) => spec_remote_files(
                listing_views(listings@),
                match index {
                    Some(e) => Some(e@),
                    None => None,
                },
            ) == Err::<Seq<RemoteEntryView>, Seq<char>>(m@),
        },
{
    let ghost lv = listing_views(listings@);
    let mut out: Vec<RemoteEntry> = Vec::new();
    let mut k: usize = 0;
    assert(lv.take(0) =~= Seq::<ListingView>::empty());
    assert(entry_views(out@) =~= Seq::<RemoteEntryView>::empty());
    let needle = chars_of("HTTP 404");
    while k < listings.len()
        invariant
            k <= listings.len(),
            lv == listing_views(listings@),
            needle@ == "HTTP 404"@,
            spec_remote_files_prefix(lv.take(k as int)) == Ok::<Seq<RemoteEntryView>, Seq<char>>(
                entry_views(out@),
            ),
        decreases listings.len() - k,
    {
        assert(lv.take(k + 1).drop_last() =~= lv.take(k as int));
        assert(lv.take(k + 1).last() == lv[k as int]);
        match &listings[k] {
            Ok(es) => {
                let ghost s0 = entry_views(out@);
                let ghost esv = entry_views(es@);
                let mut m: usize = 0;
                assert(esv.take(0) =~= Seq::<RemoteEntryView>::empty());
                while m < es.len()
                    invariant
                        m <= es.len(),
                        esv == entry_views(es@),
                        entry_views(out@) == add_files(s0, esv.take(m as int)),
                    decreases es.len() - m,
                {
                    assert(esv.take(m + 1).drop_last() =~= esv.take(m as int));
                    assert(esv.take(m + 1).last() == es@[m as int]@);
                    if !es[m].is_directory {
                        upsert_entry_exec(&mut out, es[m].clone());
                    }
                    m += 1;
                }
                assert(esv.take(m as int) =~= esv);
            },
            Err(msg) => {
                let mcs = chars_of(msg.as_str());
                if !crate::text::chars_contains(mcs.as_slice(), needle.as_slice()) {
                    proof {
                        lemma_remote_files_err_prefix(lv, k + 1, msg@);
                    }
                    return Err(msg.clone());
                }
            },
        }
        k += 1;
    }
    assert(lv.take(k as int) =~= lv);
    match index {
        Some(e) => upsert_entry_exec(&mut out, e),
        None => {},
    }
    Ok(out)
}

proof fn lemma_remote_files_err_prefix(lv: Seq<ListingView>, k: int, m: Seq<char>)
    requires
        0 <= k <= lv.len(),
        spec_remote_files_prefix(lv.take(k)) == Err::<Seq<RemoteEntryView>, Seq<char>>(m),
    ensures
        spec_remote_files_prefix(lv) == Err::<Seq<RemoteEntryView>, Seq<char>>(m),
    decreases lv.len() - k,
{
    if k < lv.len() {
        assert(lv.take(k + 1).drop_last() =~= lv.take(k));
        lemma_remote_files_err_prefix(lv, k + 1, m);
    } else {
        assert(lv.take(k) =~= lv);
    }
}

// ---------------------------------------------------------------------------
// Directories to create
// ---------------------------------------------------------------------------

/// The paths from the first piece of `n` to each of its pieces, joined with `/`.
pub open spec fn prefix_paths(n: Seq<char>) -> Seq<Seq<char>> {
    let ps = pieces(n, false);
    Seq::new(ps.len(), |k: int| join_slash(ps.take(k + 1)))
}

/// The `MKCOL` requests that create a directory of the store: one per leading part of
/// its path (without surrounding `/`), each ending with `/`; none for an empty path or
/// `.`.
pub open spec fn spec_mkcol_paths(dir: Seq<char>) -> Seq<Seq<char>> {
    let n = trim_char(dir, '/');
    if n.len() == 0 || n == seq!['.'] {
        Seq::empty()
    } else {
        prefix_paths(n).map_values(|p: Seq<char>| p.push('/'))
    }
}

fn prefix_paths_exec(n: &[char]) -> (res: Vec<Vec<char>>)
    ensures
        res@.len() == prefix_paths(n@).len(),
        forall|i: int| 0 <= i < res@.len() ==> #[trigger] res@[i]@ == prefix_paths(n@)[i],
{
    let ps = crate::pathparts::split_pieces(n, false);
    let ghost pv = pieces(n@, false);
    let mut out: Vec<Vec<char>> = Vec::new();
    let mut cur: Vec<char> = Vec::new();
    let mut k: usize = 0;
    while k < ps.len()
        invariant
            k <= ps.len() == pv.len(),
            forall|i: int| 0 <= i < ps@.len() ==> #[trigger] ps@[i]@ == pv[i],
            out@.len() == k,
            forall|i: int| 0 <= i < k ==> #[trigger] out@[i]@ == join_slash(pv.take(i + 1)),
            k > 0 ==> cur@ == join_slash(pv.take(k as int)),
            k == 0 ==> cur@.len() == 0,
        decreases ps.len() - k,
    {
        let ghost t = pv.take(k + 1);
        assert(t.drop_last() =~= pv.take(k as int));
        assert(t.last() == pv[k as int]);
        if k > 0 {
            cur.push('/');
        }
        crate::text::append_chars(&mut cur, ps[k].as_slice());
        proof {
            if k == 0 {
                assert(t.len() == 1);
                assert(cur@ =~= t[0]);
            } else {
                assert(cur@ =~= join_slash(t.drop_last()) + seq!['/'] + t.last());
            }
        }
        out.push(cur.clone());
        k += 1;
    }
    out
}

/// The `MKCOL` requests that create the directory `dir` of the store.
pub fn mkcol_paths(dir: &str) -> (res: Vec<String>)
    ensures
        crate::text::string_views(res@) == spec_mkcol_paths(dir@),
{
    let cs = chars_of(dir);
    let n = trim_char_chars(cs.as_slice(), '/');
    let mut out: Vec<String> = Vec::new();
    let dot = n.len() == 1 && n[0] == '.';
    proof {
        if n@.len() == 1 && n@[0] == '.' {
            assert(n@ =~= seq!['.']);
        }
        if n@ == seq!['.'] {
            assert(n@.len() == 1 && n@[0] == '.');
        }
    }
    if n.len() == 0 || dot {
        assert(crate::text::string_views(out@) =~= spec_mkcol_paths(dir@));
        return out;
    }
    let ps = prefix_paths_exec(n.as_slice());
    let ghost want = spec_mkcol_paths(dir@);
    let mut k: usize = 0;
    while k < ps.len()
        invariant
            k <= ps.len(),
            ps@.len() == prefix_paths(n@).len(),
            n@ == trim_char(dir@, '/'),
            !(n@.len() == 0 || n@ == seq!['.']),
            want == spec_mkcol_paths(dir@),
            forall|i: int| 0 <= i < ps@.len() ==> #[trigger] ps@[i]@ == prefix_paths(n@)[i],
            crate::text::string_views(out@) == want.take(k as int),
        decreases ps.len() - k,
    {
        let mut p = ps[k].clone();
        p.push('/');
        let ghost before = crate::text::string_views(out@);
        assert(want == prefix_paths(n@).map_values(|x: Seq<char>| x.push('/')));
        assert(want[k as int] == p@);
        out.push(string_of(p.as_slice()));
        assert(crate::text::string_views(out@) =~= before.push(p@));
        assert(want.take(k + 1) =~= want.take(k as int).push(want[k as int]));
        assert(crate::text::string_views(out@) =~= want.take(k + 1));
        k += 1;
    }
    assert(want.take(k as int) =~= want);
    out
}

/// The leading paths of a directory not yet created.
pub open spec fn missing_of(ps: Seq<Seq<char>>, ensured: Seq<Seq<char>>) -> Seq<Seq<char>>
    decreases ps.len(),
{
    if ps.len() == 0 {
        Seq::empty()
    } else if ensured.contains(ps.last()) {
        missing_of(ps.drop_last(), ensured)
    } else {
        missing_of(ps.drop_last(), ensured).push(ps.last())
    }
}

/// The `MKCOL` requests for directories not yet created: one per directory, in order,
/// its path ending with `/`.
pub open spec fn requests_of(dirs: Seq<Seq<char>>) -> Seq<Seq<char>> {
    dirs.map_values(|p: Seq<char>| p.push('/'))
}

/// What making sure of the directory `dir` takes, given the directories known to exist
/// (those already confirmed are kept, so no `MKCOL` is sent twice): one request for each
/// of its leading paths not known to exist, in order, and the directories then known to
/// exist: those, and `dir` itself.
pub open spec fn plan_dirs(dir: Seq<char>, ensured: Seq<Seq<char>>) -> (Seq<Seq<char>>, Seq<
    Seq<char>,
>) {
    let n = trim_char(dir, '/');
    if n.len() == 0 || n == seq!['.'] || ensured.contains(n) {
        (Seq::empty(), ensured)
    } else {
        let missing = missing_of(prefix_paths(n), ensured);
        (requests_of(missing), ensured + missing.push(n))
    }
}

fn contains_string(v: &Vec<String>, x: &[char]) -> (res: bool)
    ensures
        res == crate::text::string_views(v@).contains(x@),
{
    let ghost sv = crate::text::string_views(v@);
    let mut i: usize = 0;
    while i < v.len()
        invariant
            i <= v@.len(),
            sv == crate::text::string_views(v@),
            forall|j: int| 0 <= j < i ==> sv[j] != x@,
        decreases v.len() - i,
    {
        let cs = chars_of(v[i].as_str());
        if crate::text::chars_eq(cs.as_slice(), x) {
            assert(sv[i as int] == x@);
            return true;
        }
        i += 1;
    }
    false
}

/// Makes sure of the directory `dir`: the `MKCOL` requests to send, in order; `ensured`
/// gains the directories then known to exist.
pub fn plan_directory(dir: &str, ensured: &mut Vec<String>) -> (res: Vec<String>)
    ensures
        (crate::text::string_views(res@), crate::text::string_views(final(ensured)@)) == plan_dirs(
            dir@,
            crate::text::string_views(old(ensured)@),
        ),
{
    let ghost e0 = crate::text::string_views(ensured@);
    let cs = chars_of(dir);
    let n = trim_char_chars(cs.as_slice(), '/');
    let dot = n.len() == 1 && n[0] == '.';
    proof {
        if n@.len() == 1 && n@[0] == '.' {
            assert(n@ =~= seq!['.']);
        }
        if n@ == seq!['.'] {
            assert(n@.len() == 1 && n@[0] == '.');
        }
    }
    if n.len() == 0 || dot || contains_string(ensured, n.as_slice()) {
        let out: Vec<String> = Vec::new();
        assert(crate::text::string_views(out@) =~= Seq::<Seq<char>>::empty());
        return out;
    }
    let ps = prefix_paths_exec(n.as_slice());
    let ghost pv = prefix_paths(n@);
    let mut missing: Vec<String> = Vec::new();
    let mut k: usize = 0;
    assert(pv.take(0) =~= Seq::<Seq<char>>::empty());
    assert(crate::text::string_views(missing@) =~= Seq::<Seq<char>>::empty());
    while k < ps.len()
        invariant
            k <= ps.len() == pv.len(),
            pv == prefix_paths(n@),
            forall|i: int| 0 <= i < ps@.len() ==> #[trigger] ps@[i]@ == pv[i],
            e0 == crate::text::string_views(ensured@),
            crate::text::string_views(missing@) == missing_of(pv.take(k as int), e0),
        decreases ps.len() - k,
    {
        assert(pv.take(k + 1).drop_last() =~= pv.take(k as int));
        assert(pv.take(k + 1).last() == pv[k as int]);
        if !contains_string(ensured, ps[k].as_slice()) {
            let ghost before = crate::text::string_views(missing@);
            missing.push(string_of(ps[k].as_slice()));
            assert(crate::text::string_views(missing@) =~= before.push(pv[k as int]));
        }
        k += 1;
    }
    assert(pv.take(k as int) =~= pv);
    let ghost mv = crate::text::string_views(missing@);
    let mut out: Vec<String> = Vec::new();
    let mut m: usize = 0;
    assert(crate::text::string_views(out@) =~= requests_of(mv.take(0)));
    while m < missing.len()
        invariant
            m <= missing.len(),
            mv == crate::text::string_views(missing@),
            crate::text::string_views(out@) == requests_of(mv.take(m as int)),
        decreases missing.len() - m,
    {
        let mut p = missing[m].clone();
        crate::text::push_char(&mut p, '/');
        let ghost before = crate::text::string_views(out@);
        out.push(p);
        assert(crate::text::string_views(out@) =~= before.push(mv[m as int].push('/')));
        assert(requests_of(mv.take(m + 1)) =~= requests_of(mv.take(m as int)).push(
            mv[m as int].push('/'),
        ));
        m += 1;
    }
    assert(mv.take(m as int) =~= mv);
    let mut q: usize = 0;
    while q < missing.len()
        invariant
            q <= missing.len(),
            mv == crate::text::string_views(missing@),
            crate::text::string_views(ensured@) == e0 + mv.take(q as int),
        decreases missing.len() - q,
    {
        let ghost before = crate::text::string_views(ensured@);
        ensured.push(missing[q].clone());
        assert(crate::text::string_views(ensured@) =~= before.push(mv[q as int]));
        assert(mv.take(q + 1) =~= mv.take(q as int).push(mv[q as int]));
        q += 1;
    }
    assert(mv.take(q as int) =~= mv);
    let ghost before = crate::text::string_views(ensured@);
    ensured.push(string_of(n.as_slice()));
    assert(crate::text::string_views(ensured@) =~= before.push(n@));
    assert(e0 + mv.push(n@) =~= (e0 + mv).push(n@));
    out
}

/// The leading paths of `dir` that making sure of it requests, none where nothing is
/// requested.
pub open spec fn missing_dirs(dir: Seq<char>, ensured: Seq<Seq<char>>) -> Seq<Seq<char>> {
    let n = trim_char(dir, '/');
    if n.len() == 0 || n == seq!['.'] || ensured.contains(n) {
        Seq::empty()
    } else {
        missing_of(prefix_paths(n), ensured)
    }
}

/// Each leading path is longer than the one before it.
proof fn lemma_prefix_paths_grow(n: Seq<char>)
    ensures
        forall|i: int, j: int|
            0 <= i < j < prefix_paths(n).len() ==> (#[trigger] prefix_paths(n)[i]).len() < (
            #[trigger] prefix_paths(n)[j]).len(),
{
    let ps = pieces(n, false);
    let pp = prefix_paths(n);
    assert forall|k: int| 0 <= k && k + 1 < pp.len() implies (#[trigger] pp[k]).len() < pp[k + 1].len() by {
        assert(ps.take(k + 2).drop_last() =~= ps.take(k + 1));
    }
    assert forall|i: int, j: int| 0 <= i < j < pp.len() implies (#[trigger] pp[i]).len() < (
    #[trigger] pp[j]).len() by {
        lemma_prefix_paths_grow_from(n, i, j);
    }
}

proof fn lemma_prefix_paths_grow_from(n: Seq<char>, i: int, j: int)
    requires
        0 <= i < j < prefix_paths(n).len(),
        forall|k: int|
            0 <= k && k + 1 < prefix_paths(n).len() ==> (#[trigger] prefix_paths(n)[k]).len()
                < prefix_paths(n)[k + 1].len(),
    ensures
        prefix_paths(n)[i].len() < prefix_paths(n)[j].len(),
    decreases j - i,
{
    let pp = prefix_paths(n);
    assert(pp[j - 1].len() < pp[j].len());
    if i < j - 1 {
        lemma_prefix_paths_grow_from(n, i, j - 1);
    }
}

/// The paths left out of a list of distinct paths are distinct, come from the list, and
/// are none of `ensured`.
proof fn lemma_missing_of(ps: Seq<Seq<char>>, ensured: Seq<Seq<char>>)
    requires
        forall|i: int, j: int| 0 <= i < j < ps.len() ==> ps[i] != ps[j],
    ensures
        forall|i: int|
            0 <= i < missing_of(ps, ensured).len() ==> ps.contains(
                #[trigger] missing_of(ps, ensured)[i],
            ) && !ensured.contains(missing_of(ps, ensured)[i]),
        forall|i: int, j: int|
            0 <= i < j < missing_of(ps, ensured).len() ==> missing_of(ps, ensured)[i]
                != missing_of(ps, ensured)[j],
    decreases ps.len(),
{
    if ps.len() > 0 {
        let q = ps.drop_last();
        lemma_missing_of(q, ensured);
        let mq = missing_of(q, ensured);
        assert forall|i: int| 0 <= i < mq.len() implies ps.contains(#[trigger] mq[i]) by {
            let k = choose|k: int| 0 <= k < q.len() && q[k] == mq[i];
            assert(ps[k] == mq[i]);
        }
        assert forall|i: int| 0 <= i < mq.len() implies #[trigger] mq[i] != ps.last() by {
            let k = choose|k: int| 0 <= k < q.len() && q[k] == mq[i];
            assert(ps[k] == q[k]);
            assert(ps[ps.len() - 1] == ps.last());
        }
        if !ensured.contains(ps.last()) {
            let m = mq.push(ps.last());
            assert(m == missing_of(ps, ensured));
            assert forall|i: int| 0 <= i < m.len() implies ps.contains(#[trigger] m[i])
                && !ensured.contains(m[i]) by {
                if i < mq.len() {
                    assert(m[i] == mq[i]);
                } else {
                    assert(ps[ps.len() - 1] == m[i]);
                }
            }
            assert forall|i: int, j: int| 0 <= i < j < m.len() implies m[i] != m[j] by {
                if j < mq.len() {
                    assert(m[i] == mq[i] && m[j] == mq[j]);
                } else {
                    assert(m[i] == mq[i]);
                }
            }
        }
    }
}

/// Making sure of a directory requests each of its leading paths not known to exist,
/// once each and none known to exist; all of them, and the directory itself, are known
/// to exist afterwards, and what was known stays known.
pub proof fn lemma_directory_requests_once(dir: Seq<char>, ensured: Seq<Seq<char>>)
    ensures
        ({
            let (reqs, after) = plan_dirs(dir, ensured);
            let m = missing_dirs(dir, ensured);
            let n = trim_char(dir, '/');
            &&& reqs == requests_of(m)
            &&& forall|i: int|
                0 <= i < m.len() ==> !ensured.contains(#[trigger] m[i]) && after.contains(m[i])
            &&& forall|i: int, j: int| 0 <= i < j < m.len() ==> m[i] != m[j]
            &&& forall|x: Seq<char>| ensured.contains(x) ==> after.contains(x)
            &&& (n.len() > 0 && n != seq!['.'] ==> after.contains(n))
        }),
{
    let n = trim_char(dir, '/');
    let after = plan_dirs(dir, ensured).1;
    if !(n.len() == 0 || n == seq!['.'] || ensured.contains(n)) {
        let pp = prefix_paths(n);
        lemma_prefix_paths_grow(n);
        assert forall|i: int, j: int| 0 <= i < j < pp.len() implies pp[i] != pp[j] by {
            assert(pp[i].len() < pp[j].len());
        }
        lemma_missing_of(pp, ensured);
        let m = missing_of(pp, ensured);
        assert(after == ensured + m.push(n));
        assert forall|i: int| 0 <= i < m.len() implies after.contains(#[trigger] m[i]) by {
            assert(after[ensured.len() + i] == m[i]);
        }
        assert forall|x: Seq<char>| ensured.contains(x) implies after.contains(x) by {
            let k = choose|k: int| 0 <= k < ensured.len() && ensured[k] == x;
            assert(after[k] == x);
        }
        assert(after[after.len() - 1] == n);
    }
}

/// No directory is requested twice: what a second directory's plan requests, after a
/// first one's, is none of what the first requested.
pub proof fn lemma_no_directory_requested_twice(
    first: Seq<char>,
    second: Seq<char>,
    ensured: Seq<Seq<char>>,
)
    ensures
        ({
            let (r1, e1) = plan_dirs(first, ensured);
            let (r2, e2) = plan_dirs(second, e1);
            forall|i: int, j: int| 0 <= i < r1.len() && 0 <= j < r2.len() ==> r1[i] != r2[j]
        }),
{
    let (r1, e1) = plan_dirs(first, ensured);
    let (r2, e2) = plan_dirs(second, e1);
    lemma_directory_requests_once(first, ensured);
    lemma_directory_requests_once(second, e1);
    let m1 = missing_dirs(first, ensured);
    let m2 = missing_dirs(second, e1);
    assert forall|i: int, j: int| 0 <= i < r1.len() && 0 <= j < r2.len() implies r1[i] != r2[j] by {
        assert(r1[i] == m1[i].push('/'));
        assert(r2[j] == m2[j].push('/'));
        assert(e1.contains(m1[i]));
        assert(!e1.contains(m2[j]));
        if r1[i] == r2[j] {
            assert(m1[i] =~= r1[i].drop_last());
            assert(m2[j] =~= r2[j].drop_last());
        }
    }
}

// ---------------------------------------------------------------------------
// Pushing
// ---------------------------------------------------------------------------

/// The directory part of a store path: what comes before its last `/`, else empty.
pub open spec fn parent_relative(p: Seq<char>) -> Seq<char> {
    match last_index_of(p, '/') {
        Some(i) => p.take(i),
        None => Seq::empty(),
    }
}

fn parent_relative_of(p: &str) -> (res: String)
    ensures
        res@ == parent_relative(p@),
{
    let cs = chars_of(p);
    match find_last(cs.as_slice(), '/') {
        Some(i) => {
            let head = sub_chars(cs.as_slice(), 0, i);
            assert(head@ =~= cs@.take(i as int));
            string_of(head.as_slice())
        },
        None => String::new(),
    }
}

/// The directories known to exist in the store: those holding its files.
pub open spec fn parents_of(es: Seq<RemoteEntryView>) -> Seq<Seq<char>>
    decreases es.len(),
{
    if es.len() == 0 {
        Seq::empty()
    } else {
        let head = parents_of(es.drop_last());
        let e = es.last();
        if !e.is_directory && last_index_of(e.relative_path, '/') is Some {
            head.push(parent_relative(e.relative_path))
        } else {
            head
        }
    }
}

/// The path that the manifest records for an identity: that of its last record.
pub open spec fn identity_path(m: Seq<ManifestThreadView>, key: Seq<char>) -> Option<Seq<char>>
    decreases m.len(),
{
    if m.len() == 0 {
        None
    } else if manifest_identity(m.last()) == key {
        Some(m.last().relative_path)
    } else {
        identity_path(m.drop_last(), key)
    }
}

/// The path that the manifest records for a thread ID: that of its first record.
pub open spec fn thread_path(m: Seq<ManifestThreadView>, id: Seq<char>) -> Option<Seq<char>>
    decreases m.len(),
{
    if m.len() == 0 {
        None
    } else if m[0].thread_id == id {
        Some(m[0].relative_path)
    } else {
        thread_path(m.drop_first(), id)
    }
}

/// A thread file to send, and the `MKCOL` requests to send before it.
#[derive(Debug)]
pub struct PlannedUpload {
    pub relative_path: String,
    pub local_path: String,
    pub directories: Vec<String>,
}

pub struct UploadView {
    pub relative_path: Seq<char>,
    pub local_path: Seq<char>,
    pub directories: Seq<Seq<char>>,
}

pub open spec fn upload_views(s: Seq<PlannedUpload>) -> Seq<UploadView> {
    s.map_values(
        |u: PlannedUpload|
            UploadView {
                relative_path: u.relative_path@,
                local_path: u.local_path@,
                directories: crate::text::string_views(u.directories@),
            },
    )
}

/// What a push does: the files to send in order, the number left as they are, and the
/// number found in the store under another path.
#[derive(Debug)]
pub struct PushPlan {
    pub uploads: Vec<PlannedUpload>,
    pub skipped: usize,
    pub relocated: usize,
}

pub struct PushState {
    pub uploads: Seq<UploadView>,
    pub skipped: nat,
    pub relocated: nat,
    pub ensured: Seq<Seq<char>>,
}

/// The store's copy is as new and as large as this machine's: the store's time is no
/// earlier and the sizes agree (known times on both sides).
pub open spec fn up_to_date(remote: Seq<RemoteEntryView>, t: ThreadView) -> bool {
    match entry_index(remote, t.relative_path) {
        Some(i) => match (t.modified_at, remote[i].last_modified) {
            (Some(l), Some(r)) => r >= l && remote[i].size == t.size,
            _ => false,
        },
        None => false,
    }
}

/// The thread was recorded under another path that the store holds.
pub open spec fn relocated(m: Seq<ManifestThreadView>, remote: Seq<RemoteEntryView>, t: ThreadView) -> bool {
    let existing = match identity_path(m, spec_identity_key(t.project_name, t.thread_id)) {
        Some(p) => Some(p),
        None => thread_path(m, t.thread_id),
    };
    match existing {
        Some(p) => p != t.relative_path && entry_index(remote, p) is Some,
        None => false,
    }
}

/// One local thread taken into the push.
pub open spec fn push_step(
    st: PushState,
    m: Seq<ManifestThreadView>,
    remote: Seq<RemoteEntryView>,
    t: ThreadView,
) -> PushState {
    let moved = if relocated(m, remote, t) {
        st.relocated + 1
    } else {
        st.relocated
    };
    if up_to_date(remote, t) {
        PushState { skipped: st.skipped + 1, relocated: moved, ..st }
    } else {
        let (reqs, ens) = plan_dirs(parent_relative(t.relative_path), st.ensured);
        PushState {
            uploads: st.uploads.push(
                UploadView {
                    relative_path: t.relative_path,
                    local_path: t.local_path,
                    directories: reqs,
                },
            ),
            relocated: moved,
            ensured: ens,
            ..st
        }
    }
}

pub open spec fn push_run(
    m: Seq<ManifestThreadView>,
    remote: Seq<RemoteEntryView>,
    local: Seq<ThreadView>,
) -> PushState
    decreases local.len(),
{
    if local.len() == 0 {
        PushState {
            uploads: Seq::empty(),
            skipped: 0,
            relocated: 0,
            ensured: parents_of(remote),
        }
    } else {
        push_step(push_run(m, remote, local.drop_last()), m, remote, local.last())
    }
}

fn parents_exec(remote: &Vec<RemoteEntry>) -> (res: Vec<String>)
    ensures
        crate::text::string_views(res@) == parents_of(entry_views(remote@)),
{
    let ghost ev = entry_views(remote@);
    let mut out: Vec<String> = Vec::new();
    let mut k: usize = 0;
    assert(ev.take(0) =~= Seq::<RemoteEntryView>::empty());
    assert(crate::text::string_views(out@) =~= Seq::<Seq<char>>::empty());
    while k < remote.len()
        invariant
            k <= remote.len(),
            ev == entry_views(remote@),
            crate::text::string_views(out@) == parents_of(ev.take(k as int)),
        decreases remote.len() - k,
    {
        assert(ev.take(k + 1).drop_last() =~= ev.take(k as int));
        assert(ev.take(k + 1).last() == remote@[k as int]@);
        if !remote[k].is_directory {
            let cs = chars_of(remote[k].relative_path.as_str());
            if find_last(cs.as_slice(), '/').is_some() {
                let ghost before = crate::text::string_views(out@);
                let parent = parent_relative_of(remote[k].relative_path.as_str());
                out.push(parent);
                assert(crate::text::string_views(out@) =~= before.push(
                    parent_relative(remote@[k as int].relative_path@),
                ));
            }
        }
        k += 1;
    }
    assert(ev.take(k as int) =~= ev);
    out
}

fn identity_path_exec(m: &Vec<ManifestThread>, key: &str) -> (res: Option<String>)
    ensures
        opt_text(res) == identity_path(manifest_views(m@), key@),
{
    let ghost mv = manifest_views(m@);
    let mut j: usize = m.len();
    assert(mv.take(j as int) =~= mv);
    while j > 0
        invariant
            j <= m.len(),
            mv == manifest_views(m@),
            identity_path(mv, key@) == identity_path(mv.take(j as int), key@),
        decreases j,
    {
        let ghost t = mv.take(j as int);
        assert(t.drop_last() =~= mv.take(j - 1));
        assert(t.last() == m@[j - 1]@);
        let k = identity_key(m[j - 1].project_name.as_str(), m[j - 1].thread_id.as_str());
        if str_eq(k.as_str(), key) {
            return Some(m[j - 1].relative_path.clone());
        }
        j -= 1;
    }
    None
}

fn thread_path_exec(m: &Vec<ManifestThread>, id: &str) -> (res: Option<String>)
    ensures
        opt_text(res) == thread_path(manifest_views(m@), id@),
{
    let ghost mv = manifest_views(m@);
    let mut i: usize = 0;
    assert(mv.skip(0) =~= mv);
    while i < m.len()
        invariant
            i <= m.len(),
            mv == manifest_views(m@),
            thread_path(mv, id@) == thread_path(mv.skip(i as int), id@),
        decreases m.len() - i,
    {
        let ghost rest = mv.skip(i as int);
        assert(rest.drop_first() =~= mv.skip(i + 1));
        assert(rest[0] == m@[i as int]@);
        if str_eq(m[i].thread_id.as_str(), id) {
            return Some(m[i].relative_path.clone());
        }
        i += 1;
    }
    None
}

fn relocated_exec(m: &Vec<ManifestThread>, remote: &Vec<RemoteEntry>, t: &ThreadRecord) -> (res: bool)
    ensures
        res == relocated(manifest_views(m@), entry_views(remote@), t@),
{
    let key = identity_key(t.project_name.as_str(), t.thread_id.as_str());
    let existing = match identity_path_exec(m, key.as_str()) {
        Some(p) => Some(p),
        None => thread_path_exec(m, t.thread_id.as_str()),
    };
    match existing {
        Some(p) => !str_eq(p.as_str(), t.relative_path.as_str()) && find_entry(
            remote,
            p.as_str(),
        ).is_some(),
        None => false,
    }
}

fn up_to_date_exec(remote: &Vec<RemoteEntry>, t: &ThreadRecord) -> (res: bool)
    ensures
        res == up_to_date(entry_views(remote@), t@),
{
    match find_entry(remote, t.relative_path.as_str()) {
        Some(r) => match (t.modified_at, r.last_modified) {
            (Some(l), Some(rm)) => rm >= l && r.size == t.size,
            _ => false,
        },
        None => false,
    }
}

/// What a push of this machine's threads does, given the manifest and the files in the
/// store: as `push_run` describes it.
pub fn plan_push(
    local: &Vec<ThreadRecord>,
    manifest: &Vec<ManifestThread>,
    remote: &Vec<RemoteEntry>,
) -> (res: PushPlan)
    ensures
        ({
            let st = push_run(manifest_views(manifest@), entry_views(remote@), thread_views(local@));
            upload_views(res.uploads@) == st.uploads && res.skipped == st.skipped && res.relocated
                == st.relocated
        }),
{
    let ghost mv = manifest_views(manifest@);
    let ghost rv = entry_views(remote@);
    let ghost lv = thread_views(local@);
    let mut ensured = parents_exec(remote);
    let mut uploads: Vec<PlannedUpload> = Vec::new();
    let mut skipped: usize = 0;
    let mut moved: usize = 0;
    let mut k: usize = 0;
    assert(lv.take(0) =~= Seq::<ThreadView>::empty());
    assert(upload_views(uploads@) =~= Seq::<UploadView>::empty());
    while k < local.len()
        invariant
            k <= local.len(),
            mv == manifest_views(manifest@),
            rv == entry_views(remote@),
            lv == thread_views(local@),
            moved <= k,
            skipped + uploads@.len() <= k,
            ({
                let st = push_run(mv, rv, lv.take(k as int));
                upload_views(uploads@) == st.uploads && skipped == st.skipped && moved
                    == st.relocated && crate::text::string_views(ensured@) == st.ensured
            }),
        decreases local.len() - k,
    {
        assert(lv.take(k + 1).drop_last() =~= lv.take(k as int));
        assert(lv.take(k + 1).last() == local@[k as int]@);
        let t = &local[k];
        if relocated_exec(manifest, remote, t) {
            moved += 1;
        }
        if up_to_date_exec(remote, t) {
            skipped += 1;
        } else {
            let parent = parent_relative_of(t.relative_path.as_str());
            let dirs = plan_directory(parent.as_str(), &mut ensured);
            let ghost before = upload_views(uploads@);
            let u = PlannedUpload {
                relative_path: t.relative_path.clone(),
                local_path: t.local_path.clone(),
                directories: dirs,
            };
            uploads.push(u);
            assert(upload_views(uploads@) =~= before.push(
                UploadView {
                    relative_path: t.relative_path@,
                    local_path: t.local_path@,
                    directories: crate::text::string_views(dirs@),
                },
            ));
        }
        k += 1;
    }
    assert(lv.take(k as int) =~= lv);
    PushPlan { uploads, skipped, relocated: moved }
}

/// Nothing to push: no thread file was found below the Codex directory `codex`.
pub fn check_local_threads(local: &Vec<ThreadRecord>, codex: &str) -> (res: Result<
    (),
    crate::webdav::SyncError,
>)
    ensures
        res is Ok <==> local@.len() > 0,
        res matches Err(e) ==> e@ == crate::webdav::SyncFault::NoLocalThreads(codex@),
{
    if local.len() == 0 {
        return Err(crate::webdav::SyncError::NoLocalThreads(codex.to_string()));
    }
    Ok(())
}

/// A push sends nothing but this machine's thread files: each file it sends is one of the
/// local threads, at that thread's path here and in the store.
pub proof fn lemma_push_sends_local_threads(
    m: Seq<ManifestThreadView>,
    remote: Seq<RemoteEntryView>,
    local: Seq<ThreadView>,
)
    ensures
        forall|k: int|
            0 <= k < push_run(m, remote, local).uploads.len() ==> exists|i: int|
                0 <= i < local.len() && (#[trigger] push_run(m, remote, local).uploads[k]).relative_path
                    == local[i].relative_path && push_run(m, remote, local).uploads[k].local_path
                    == local[i].local_path,
    decreases local.len(),
{
    if local.len() > 0 {
        let head = local.drop_last();
        lemma_push_sends_local_threads(m, remote, head);
        let st = push_run(m, remote, head);
        let st2 = push_run(m, remote, local);
        assert forall|k: int| 0 <= k < st2.uploads.len() implies exists|i: int|
            0 <= i < local.len() && (#[trigger] st2.uploads[k]).relative_path == local[i].relative_path
                && st2.uploads[k].local_path == local[i].local_path by {
            if k < st.uploads.len() {
                assert(st2.uploads[k] == st.uploads[k]);
                let i = choose|i: int|
                    0 <= i < head.len() && (#[trigger] st.uploads[k]).relative_path
                        == head[i].relative_path && st.uploads[k].local_path == head[i].local_path;
                assert(local[i] == head[i]);
            } else {
                assert(local[local.len() - 1] == local.last());
            }
        }
    }
}

/// A push sends each thread whose copy in the store is not up to date, and only those.
pub proof fn lemma_push_count(
    m: Seq<ManifestThreadView>,
    remote: Seq<RemoteEntryView>,
    local: Seq<ThreadView>,
)
    ensures
        push_run(m, remote, local).uploads.len() + push_run(m, remote, local).skipped == local.len(),
    decreases local.len(),
{
    if local.len() > 0 {
        lemma_push_count(m, remote, local.drop_last());
    }
}

// ---------------------------------------------------------------------------
// Pulling
// ---------------------------------------------------------------------------

/// The local record of an identity.
pub open spec fn local_by_identity(local: Seq<ThreadView>, key: Seq<char>) -> Option<ThreadView>
    decreases local.len(),
{
    if local.len() == 0 {
        None
    } else if spec_identity_key(local[0].project_name, local[0].thread_id) == key {
        Some(local[0])
    } else {
        local_by_identity(local.drop_first(), key)
    }
}

/// The first local record of a thread ID.
pub open spec fn local_by_thread(local: Seq<ThreadView>, id: Seq<char>) -> Option<ThreadView>
    decreases local.len(),
{
    if local.len() == 0 {
        None
    } else if local[0].thread_id == id {
        Some(local[0])
    } else {
        local_by_thread(local.drop_first(), id)
    }
}

/// Where a thread of the manifest goes on this machine: the path of the local thread of
/// its identity, else of its thread ID, else the path it has in the store.
pub open spec fn pull_target(local: Seq<ThreadView>, m: ManifestThreadView) -> Seq<char> {
    match local_by_identity(local, manifest_identity(m)) {
        Some(t) => t.relative_path,
        None => match local_by_thread(local, m.thread_id) {
            Some(t) => t.relative_path,
            None => m.relative_path,
        },
    }
}

/// A thread to fetch: its path in the store and the path it goes to here.
#[derive(Debug)]
pub struct PullItem {
    pub remote_relative: String,
    pub target_relative: String,
}

pub open spec fn pull_views(s: Seq<PullItem>) -> Seq<(Seq<char>, Seq<char>)> {
    s.map_values(|p: PullItem| (p.remote_relative@, p.target_relative@))
}

/// What a pull fetches: each thread of the manifest, in order, from its path in the
/// store to its path here.
pub open spec fn spec_pull_plan(local: Seq<ThreadView>, m: Seq<ManifestThreadView>) -> Seq<
    (Seq<char>, Seq<char>),
> {
    m.map_values(|t: ManifestThreadView| (t.relative_path, pull_target(local, t)))
}

fn local_by_identity_exec(local: &Vec<ThreadRecord>, key: &str) -> (res: Option<String>)
    ensures
        opt_text(res) == match local_by_identity(thread_views(local@), key@) {
            Some(t) => Some(t.relative_path),
            None => None,
        },
{
    let ghost lv = thread_views(local@);
    let mut i: usize = 0;
    assert(lv.skip(0) =~= lv);
    while i < local.len()
        invariant
            i <= local.len(),
            lv == thread_views(local@),
            local_by_identity(lv, key@) == local_by_identity(lv.skip(i as int), key@),
        decreases local.len() - i,
    {
        let ghost rest = lv.skip(i as int);
        assert(rest.drop_first() =~= lv.skip(i + 1));
        assert(rest[0] == local@[i as int]@);
        let k = identity_key(local[i].project_name.as_str(), local[i].thread_id.as_str());
        if str_eq(k.as_str(), key) {
            return Some(local[i].relative_path.clone());
        }
        i += 1;
    }
    None
}

fn local_by_thread_exec(local: &Vec<ThreadRecord>, id: &str) -> (res: Option<String>)
    ensures
        opt_text(res) == match local_by_thread(thread_views(local@), id@) {
            Some(t) => Some(t.relative_path),
            None => None,
        },
{
    let ghost lv = thread_views(local@);
    let mut i: usize = 0;
    assert(lv.skip(0) =~= lv);
    while i < local.len()
        invariant
            i <= local.len(),
            lv == thread_views(local@),
            local_by_thread(lv, id@) == local_by_thread(lv.skip(i as int), id@),
        decreases local.len() - i,
    {
        let ghost rest = lv.skip(i as int);
        assert(rest.drop_first() =~= lv.skip(i + 1));
        assert(rest[0] == local@[i as int]@);
        if str_eq(local[i].thread_id.as_str(), id) {
            return Some(local[i].relative_path.clone());
        }
        i += 1;
    }
    None
}

/// What a pull fetches, as `spec_pull_plan` describes it.
pub fn plan_pull(local: &Vec<ThreadRecord>, manifest: &Vec<ManifestThread>) -> (res: Vec<PullItem>)
    ensures
        pull_views(res@) == spec_pull_plan(thread_views(local@), manifest_views(manifest@)),
{
    let ghost want = spec_pull_plan(thread_views(local@), manifest_views(manifest@));
    let mut out: Vec<PullItem> = Vec::new();
    let mut k: usize = 0;
    while k < manifest.len()
        invariant
            k <= manifest.len(),
            want == spec_pull_plan(thread_views(local@), manifest_views(manifest@)),
            pull_views(out@) == want.take(k as int),
        decreases manifest.len() - k,
    {
        let m = &manifest[k];
        let key = identity_key(m.project_name.as_str(), m.thread_id.as_str());
        let target = match local_by_identity_exec(local, key.as_str()) {
            Some(p) => p,
            None => match local_by_thread_exec(local, m.thread_id.as_str()) {
                Some(p) => p,
                None => m.relative_path.clone(),
            },
        };
        let ghost before = pull_views(out@);
        out.push(PullItem { remote_relative: m.relative_path.clone(), target_relative: target });
        assert(pull_views(out@) =~= before.push(want[k as int]));
        assert(want.take(k + 1) =~= want.take(k as int).push(want[k as int]));
        k += 1;
    }
    assert(want.take(k as int) =~= want);
    out
}

/// The number of threads that go to another path here than in the store.
pub open spec fn merged_count(plan: Seq<(Seq<char>, Seq<char>)>) -> nat
    decreases plan.len(),
{
    if plan.len() == 0 {
        0
    } else {
        merged_count(plan.drop_last()) + if plan.last().0 != plan.last().1 {
            1nat
        } else {
            0nat
        }
    }
}

/// The number of threads that go to another path here than in the store.
pub fn count_merged(plan: &Vec<PullItem>) -> (res: usize)
    ensures
        res == merged_count(pull_views(plan@)),
{
    let ghost pv = pull_views(plan@);
    let mut n: usize = 0;
    let mut k: usize = 0;
    assert(pv.take(0) =~= Seq::<(Seq<char>, Seq<char>)>::empty());
    while k < plan.len()
        invariant
            k <= plan.len(),
            pv == pull_views(plan@),
            n == merged_count(pv.take(k as int)),
            n <= k,
        decreases plan.len() - k,
    {
        assert(pv.take(k + 1).drop_last() =~= pv.take(k as int));
        assert(pv.take(k + 1).last() == pv[k as int]);
        if !str_eq(plan[k].remote_relative.as_str(), plan[k].target_relative.as_str()) {
            n += 1;
        }
        k += 1;
    }
    assert(pv.take(k as int) =~= pv);
    n
}

/// A thread is left as it is here: the local file exists, and the store's copy is no
/// newer than it (known times on both sides).
pub open spec fn spec_pull_skip(
    exists: bool,
    local_modified: Option<i64>,
    remote: Seq<RemoteEntryView>,
    remote_relative: Seq<char>,
) -> bool {
    exists && match entry_index(remote, remote_relative) {
        Some(i) => match (remote[i].last_modified, local_modified) {
            (Some(r), Some(l)) => r <= l,
            _ => false,
        },
        None => false,
    }
}

/// Whether a thread is left as it is here.
pub fn pull_should_skip(
    exists: bool,
    local_modified: Option<i64>,
    remote: &Vec<RemoteEntry>,
    remote_relative: &str,
) -> (res: bool)
    ensures
        res == spec_pull_skip(exists, local_modified, entry_views(remote@), remote_relative@),
{
    if !exists {
        return false;
    }
    match find_entry(remote, remote_relative) {
        Some(e) => match (e.last_modified, local_modified) {
            (Some(r), Some(l)) => r <= l,
            _ => false,
        },
        None => false,
    }
}

// ---------------------------------------------------------------------------
// Local paths
// ---------------------------------------------------------------------------

/// The pieces of a path joined on in turn, as collecting them into a `PathBuf` does.
pub open spec fn join_all(base: Seq<char>, ps: Seq<Seq<char>>, windows: bool) -> Seq<char>
    decreases ps.len(),
{
    if ps.len() == 0 {
        base
    } else {
        crate::paths::path_join(join_all(base, ps.drop_last(), windows), ps.last(), windows)
    }
}

fn join_all_exec(base: &str, ps: &Vec<Vec<char>>, windows: bool) -> (res: String)
    ensures
        res@ == join_all(base@, ps@.map_values(|p: Vec<char>| p@), windows),
{
    let ghost pv = ps@.map_values(|p: Vec<char>| p@);
    let mut cur = base.to_string();
    let mut k: usize = 0;
    assert(pv.take(0) =~= Seq::<Seq<char>>::empty());
    while k < ps.len()
        invariant
            k <= ps.len(),
            pv == ps@.map_values(|p: Vec<char>| p@),
            cur@ == join_all(base@, pv.take(k as int), windows),
        decreases ps.len() - k,
    {
        assert(pv.take(k + 1).drop_last() =~= pv.take(k as int));
        assert(pv.take(k + 1).last() == ps@[k as int]@);
        let piece = string_of(ps[k].as_slice());
        cur = crate::paths::join_path(cur.as_str(), piece.as_str(), windows);
        k += 1;
    }
    assert(pv.take(k as int) =~= pv);
    cur
}

/// Where a store path lies in the Codex directory `codex`: its pieces joined on in turn.
pub open spec fn spec_local_file_path(codex: Seq<char>, relative: Seq<char>, windows: bool) -> Seq<
    char,
> {
    crate::paths::path_join(codex, join_all(Seq::empty(), pieces(relative, false), windows), windows)
}

/// Where a store path lies in the Codex directory `codex`.
pub fn local_file_path(codex: &str, relative: &str, windows: bool) -> (res: String)
    ensures
        res@ == spec_local_file_path(codex@, relative@, windows),
{
    let cs = chars_of(relative);
    let ps = crate::pathparts::split_pieces(cs.as_slice(), false);
    assert(ps@.map_values(|p: Vec<char>| p@) =~= pieces(relative@, false));
    let inner = join_all_exec("", &ps, windows);
    proof {
        reveal_strlit("");
        assert(""@ =~= Seq::<char>::empty());
    }
    crate::paths::join_path(codex, inner.as_str(), windows)
}

/// Where the copy of a local file goes before a pull overwrites it:
/// `sync_backups/pull-overwrite/<stamp>/` and the file's path in the Codex directory;
/// nothing where the file is not inside it.
pub open spec fn spec_backup_path(
    codex: Seq<char>,
    local_path: Seq<char>,
    stamp: Seq<char>,
    windows: bool,
) -> Option<Seq<char>> {
    match crate::pathparts::spec_relative_path(codex, local_path, windows) {
        None => None,
        Some(rel) => {
            let dir = crate::paths::path_join(
                crate::paths::path_join(
                    crate::paths::path_join(codex, "sync_backups"@, windows),
                    "pull-overwrite"@,
                    windows,
                ),
                stamp,
                windows,
            );
            Some(
                crate::paths::path_join(
                    dir,
                    join_all(Seq::empty(), pieces(rel, false), windows),
                    windows,
                ),
            )
        },
    }
}

/// Where the copy of a local file goes before a pull overwrites it.
pub fn backup_path(codex: &str, local_path: &str, stamp: &str, windows: bool) -> (res: Option<
    String,
>)
    ensures
        opt_text(res) == spec_backup_path(codex@, local_path@, stamp@, windows),
{
    let rel = match crate::pathparts::relative_path(codex, local_path, windows) {
        Some(r) => r,
        None => return None,
    };
    let a = crate::paths::join_path(codex, "sync_backups", windows);
    let b = crate::paths::join_path(a.as_str(), "pull-overwrite", windows);
    let dir = crate::paths::join_path(b.as_str(), stamp, windows);
    Some(local_file_path(dir.as_str(), rel.as_str(), windows))
}

// ---------------------------------------------------------------------------
// Answers of the store, and reports
// ---------------------------------------------------------------------------

/// A `PROPFIND` is answered: 207 Multi-Status or 200.
pub open spec fn spec_propfind_ok(status: u16) -> bool {
    status == 207 || status == 200
}

/// A `MKCOL` is answered: created, or the directory is there (405, 301, 200).
pub open spec fn spec_mkcol_ok(status: u16) -> bool {
    status == 201 || status == 405 || status == 301 || status == 200
}

/// A `PUT` is answered: 200, 201 or 204.
pub open spec fn spec_put_ok(status: u16) -> bool {
    status == 200 || status == 201 || status == 204
}

/// Whether a `PROPFIND` was answered.
pub fn propfind_ok(status: u16) -> (res: bool)
    ensures
        res == spec_propfind_ok(status),
{
    status == 207 || status == 200
}

/// Whether a `MKCOL` was answered.
pub fn mkcol_ok(status: u16) -> (res: bool)
    ensures
        res == spec_mkcol_ok(status),
{
    status == 201 || status == 405 || status == 301 || status == 200
}

/// Whether a `PUT` was answered.
pub fn put_ok(status: u16) -> (res: bool)
    ensures
        res == spec_put_ok(status),
{
    status == 200 || status == 201 || status == 204
}

/// Whether a `GET` was answered: 200 only.
pub fn get_ok(status: u16) -> (res: bool)
    ensures
        res == (status == 200),
{
    status == 200
}

/// Text, then a number, in turn, as `format!` writes them.
pub open spec fn report(parts: Seq<Seq<char>>, nums: Seq<u64>) -> Seq<char>
    decreases parts.len(),
{
    if parts.len() == 0 {
        Seq::empty()
    } else {
        let k = parts.len() - 1;
        report(parts.drop_last(), nums) + parts.last() + if k < nums.len() {
            crate::text::digits(nums[k] as nat)
        } else {
            Seq::empty()
        }
    }
}

pub(crate) fn report_exec(parts: &Vec<&str>, nums: &Vec<u64>) -> (res: String)
    ensures
        res@ == report(parts@.map_values(|p: &str| p@), nums@),
{
    let ghost pv = parts@.map_values(|p: &str| p@);
    let mut out: Vec<char> = Vec::new();
    let mut k: usize = 0;
    assert(pv.take(0) =~= Seq::<Seq<char>>::empty());
    while k < parts.len()
        invariant
            k <= parts.len(),
            pv == parts@.map_values(|p: &str| p@),
            out@ == report(pv.take(k as int), nums@),
        decreases parts.len() - k,
    {
        assert(pv.take(k + 1).drop_last() =~= pv.take(k as int));
        assert(pv.take(k + 1).last() == parts@[k as int]@);
        append_str(&mut out, parts[k]);
        if k < nums.len() {
            push_digits(&mut out, nums[k]);
        } else {
            assert(out@ =~= out@ + Seq::<char>::empty());
        }
        k += 1;
    }
    assert(pv.take(k as int) =~= pv);
    string_of(out.as_slice())
}

/// The report of a push.
pub open spec fn spec_push_message(uploaded: u64, skipped: u64, relocated: u64, threads: u64) -> Seq<
    char,
> {
    report(
        seq!["推送完成：上传 "@, " 个，跳过 "@, " 个，路径归并 "@, " 个，线程索引 "@, " 条"@],
        seq![uploaded, skipped, relocated, threads],
    )
}

/// The report of a push: files sent, left as they were, found under another path, and
/// the threads the manifest then lists.
pub fn push_message(uploaded: u64, skipped: u64, relocated: u64, threads: u64) -> (res: String)
    ensures
        res@ == spec_push_message(uploaded, skipped, relocated, threads),
{
    let mut parts: Vec<&str> = Vec::new();
    parts.push("推送完成：上传 ");
    parts.push(" 个，跳过 ");
    parts.push(" 个，路径归并 ");
    parts.push(" 个，线程索引 ");
    parts.push(" 条");
    let mut nums: Vec<u64> = Vec::new();
    nums.push(uploaded);
    nums.push(skipped);
    nums.push(relocated);
    nums.push(threads);
    assert(parts@.map_values(|p: &str| p@) =~= seq![
        "推送完成：上传 "@,
        " 个，跳过 "@,
        " 个，路径归并 "@,
        " 个，线程索引 "@,
        " 条"@,
    ]);
    assert(nums@ =~= seq![uploaded, skipped, relocated, threads]);
    report_exec(&parts, &nums)
}

/// The report of a pull.
pub open spec fn spec_pull_message(downloaded: u64, skipped: u64, merged: u64, threads: u64) -> Seq<
    char,
> {
    report(
        seq!["拉取完成：下载 "@, " 个，跳过 "@, " 个，按线程 ID 合并 "@, " 个，远端线程 "@, " 条"@],
        seq![downloaded, skipped, merged, threads],
    )
}

/// The report of a pull: files fetched, left as they were, placed by thread ID, and the
/// threads the manifest lists.
pub fn pull_message(downloaded: u64, skipped: u64, merged: u64, threads: u64) -> (res: String)
    ensures
        res@ == spec_pull_message(downloaded, skipped, merged, threads),
{
    let mut parts: Vec<&str> = Vec::new();
    parts.push("拉取完成：下载 ");
    parts.push(" 个，跳过 ");
    parts.push(" 个，按线程 ID 合并 ");
    parts.push(" 个，远端线程 ");
    parts.push(" 条");
    let mut nums: Vec<u64> = Vec::new();
    nums.push(downloaded);
    nums.push(skipped);
    nums.push(merged);
    nums.push(threads);
    assert(parts@.map_values(|p: &str| p@) =~= seq![
        "拉取完成：下载 "@,
        " 个，跳过 "@,
        " 个，按线程 ID 合并 "@,
        " 个，远端线程 "@,
        " 条"@,
    ]);
    assert(nums@ =~= seq![downloaded, skipped, merged, threads]);
    report_exec(&parts, &nums)
}

/// The message of a `PROPFIND` that was not answered.
pub fn propfind_failure(status: u16) -> (res: String)
    ensures
        res@ == "WebDAV PROPFIND 失败：HTTP "@ + crate::text::digits(status as nat),
{
    let mut out = chars_of("WebDAV PROPFIND 失败：HTTP ");
    push_digits(&mut out, status as u64);
    string_of(out.as_slice())
}

/// A sync root that the store does not have is skipped, not a failure: the message of a
/// `PROPFIND` answered 404 is taken for a missing directory.
pub proof fn lemma_missing_root_skipped()
    ensures
        is_missing("WebDAV PROPFIND 失败：HTTP "@ + crate::text::digits(404)),
{
    reveal_strlit("WebDAV PROPFIND 失败：HTTP ");
    reveal_strlit("HTTP 404");
    reveal_with_fuel(crate::text::digits, 4);
    assert(crate::text::digits(4) =~= seq!['4']);
    assert(crate::text::digits(40) =~= seq!['4', '0']);
    assert(crate::text::digits(404) =~= seq!['4', '0', '4']);
    let m = "WebDAV PROPFIND 失败：HTTP "@ + crate::text::digits(404);
    assert(m.len() == 27);
    assert(m.subrange(19, 19int + ("HTTP 404"@).len()) =~= "HTTP 404"@);
}

} // verus!
