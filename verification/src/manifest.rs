//! The thread manifest kept in the WebDAV store: which thread of which project lies at
//! which path, merged with the threads of this machine.
use vstd::prelude::*;
use crate::dav::{RemoteEntry, RemoteEntryView, entry_views};
use crate::text::{opt_text, starts_with, str_eq, str_less, str_starts_with, text_less};
use crate::webdav::{
    ThreadRecord, ThreadView, identity_key, spec_identity_key, spec_thread_id, thread_id_cuttable,
    thread_id_from_filename, thread_views,
};

verus! {

/// One thread as the manifest records it.
#[derive(Debug)]
pub struct ManifestThread {
    pub project_name: String,
    pub thread_id: String,
    pub relative_path: String,
    pub archived: bool,
    pub updated_at: Option<i64>,
    pub size: Option<u64>,
}

pub struct ManifestThreadView {
    pub project_name: Seq<char>,
    pub thread_id: Seq<char>,
    pub relative_path: Seq<char>,
    pub archived: bool,
    pub updated_at: Option<i64>,
    pub size: Option<u64>,
}

impl View for ManifestThread {
    type V = ManifestThreadView;

    open spec fn view(&self) -> ManifestThreadView {
        ManifestThreadView {
            project_name: self.project_name@,
            thread_id: self.thread_id@,
            relative_path: self.relative_path@,
            archived: self.archived,
            updated_at: self.updated_at,
            size: self.size,
        }
    }
}

impl Clone for ManifestThread {
    fn clone(&self) -> (res: Self)
        ensures
            res@ == self@,
    {
        ManifestThread {
            project_name: self.project_name.clone(),
            thread_id: self.thread_id.clone(),
            relative_path: self.relative_path.clone(),
            archived: self.archived,
            updated_at: self.updated_at,
            size: self.size,
        }
    }
}

/// The manifest: its format version, when it was last written, and its threads.
#[derive(Debug)]
pub struct SyncManifest {
    pub version: u8,
    pub updated_at: String,
    pub threads: Vec<ManifestThread>,
}

impl Default for SyncManifest {
    /// Version 0, never written, no threads.
    fn default() -> (res: Self)
        ensures
            res.version == 0,
            res.updated_at@.len() == 0,
            res.threads@.len() == 0,
    {
        SyncManifest { version: 0, updated_at: String::new(), threads: Vec::new() }
    }
}

pub open spec fn manifest_views(s: Seq<ManifestThread>) -> Seq<ManifestThreadView> {
    s.map_values(|t: ManifestThread| t@)
}

pub open spec fn manifest_identity(t: ManifestThreadView) -> Seq<char> {
    spec_identity_key(t.project_name, t.thread_id)
}

/// `chrono::Utc::now`, written by `to_rfc3339`. Which time it is, is the clock's and is
/// not stated; stated is only that the text is one that `DateTime::parse_from_rfc3339`
/// reads back (chrono writes a year of the clock's range, 0 to 9999, as four digits,
/// then month, day, time and the offset `+00:00`).
#[verifier::external_body]
fn utc_now_rfc3339() -> (res: String)
    ensures
        crate::usage::rfc3339_valid(res@),
{
    chrono::Utc::now().to_rfc3339()
}

// ---------------------------------------------------------------------------
// Merging this machine's threads into the manifest
// ---------------------------------------------------------------------------

/// The index of the record with the identity `key`.
pub open spec fn manifest_index(s: Seq<ManifestThreadView>, key: Seq<char>) -> Option<int>
    decreases s.len(),
{
    if s.len() == 0 {
        None
    } else {
        match manifest_index(s.drop_last(), key) {
            Some(i) => Some(i),
            None => if manifest_identity(s.last()) == key {
                Some(s.len() - 1)
            } else {
                None
            },
        }
    }
}

/// A record put into a table keyed by identity: it replaces the record with its
/// identity, or comes last.
pub open spec fn upsert_manifest(s: Seq<ManifestThreadView>, t: ManifestThreadView) -> Seq<
    ManifestThreadView,
> {
    match manifest_index(s, manifest_identity(t)) {
        Some(i) => s.update(i, t),
        None => s.push(t),
    }
}

/// The manifest's threads keyed by identity, the last of an identity winning.
pub open spec fn keyed_threads(s: Seq<ManifestThreadView>) -> Seq<ManifestThreadView>
    decreases s.len(),
{
    if s.len() == 0 {
        Seq::empty()
    } else {
        upsert_manifest(keyed_threads(s.drop_last()), s.last())
    }
}

/// The records of other threads than `thread_id`.
pub open spec fn without_thread(s: Seq<ManifestThreadView>, thread_id: Seq<char>) -> Seq<
    ManifestThreadView,
>
    decreases s.len(),
{
    if s.len() == 0 {
        Seq::empty()
    } else if s.last().thread_id == thread_id {
        without_thread(s.drop_last(), thread_id)
    } else {
        without_thread(s.drop_last(), thread_id).push(s.last())
    }
}

/// A local thread as the manifest records it.
pub open spec fn manifest_entry(t: ThreadView) -> ManifestThreadView {
    ManifestThreadView {
        project_name: t.project_name,
        thread_id: t.thread_id,
        relative_path: t.relative_path,
        archived: t.archived,
        updated_at: t.updated_at,
        size: t.size,
    }
}

/// The local threads taken in turn: each replaces every record of its thread ID and the
/// record of its identity.
pub open spec fn merged_threads(base: Seq<ManifestThreadView>, local: Seq<ThreadView>) -> Seq<
    ManifestThreadView,
>
    decreases local.len(),
{
    if local.len() == 0 {
        base
    } else {
        let t = local.last();
        upsert_manifest(
            without_thread(merged_threads(base, local.drop_last()), t.thread_id),
            manifest_entry(t),
        )
    }
}

/// `a` sorts no later than `b`: by project name, then by thread ID.
pub open spec fn thread_le(a: ManifestThreadView, b: ManifestThreadView) -> bool {
    text_less(a.project_name, b.project_name) || (a.project_name == b.project_name && !text_less(
        b.thread_id,
        a.thread_id,
    ))
}

/// The index at which `x` goes into `sorted`: after every record that sorts no later.
pub open spec fn thread_position(sorted: Seq<ManifestThreadView>, x: ManifestThreadView) -> int
    decreases sorted.len(),
{
    if sorted.len() == 0 || !thread_le(sorted[0], x) {
        0
    } else {
        1 + thread_position(sorted.drop_first(), x)
    }
}

/// The records sorted stably by project name, then by thread ID.
pub open spec fn sort_threads(s: Seq<ManifestThreadView>) -> Seq<ManifestThreadView>
    decreases s.len(),
{
    if s.len() == 0 {
        s
    } else {
        let sorted = sort_threads(s.drop_last());
        sorted.insert(thread_position(sorted, s.last()), s.last())
    }
}

/// The manifest's threads once this machine's are merged in: one record per identity,
/// this machine's record replacing every other of its thread ID, sorted by project name
/// and thread ID.
pub open spec fn spec_merge(manifest: Seq<ManifestThreadView>, local: Seq<ThreadView>) -> Seq<
    ManifestThreadView,
> {
    sort_threads(merged_threads(keyed_threads(manifest), local))
}

proof fn lemma_manifest_index(s: Seq<ManifestThreadView>, key: Seq<char>, j: int)
    requires
        0 <= j <= s.len(),
        forall|i: int| 0 <= i < j ==> manifest_identity(#[trigger] s[i]) != key,
        j < s.len() ==> manifest_identity(s[j]) == key,
    ensures
        manifest_index(s, key) == if j < s.len() {
            Some(j)
        } else {
            None::<int>
        },
    decreases s.len(),
{
    if s.len() > 0 {
        if j < s.len() - 1 {
            lemma_manifest_index(s.drop_last(), key, j);
        } else {
            assert forall|i: int| 0 <= i < s.drop_last().len() implies manifest_identity(
                #[trigger] s.drop_last()[i],
            ) != key by {
                assert(s.drop_last()[i] == s[i]);
            }
            lemma_manifest_index(s.drop_last(), key, s.len() - 1);
        }
    }
}

fn upsert_exec(out: &mut Vec<ManifestThread>, keys: &mut Vec<String>, t: ManifestThread)
    requires
        old(keys)@.len() == old(out)@.len(),
        forall|i: int|
            0 <= i < old(keys)@.len() ==> #[trigger] old(keys)@[i]@ == manifest_identity(
                old(out)@[i]@,
            ),
    ensures
        manifest_views(final(out)@) == upsert_manifest(manifest_views(old(out)@), t@),
        final(keys)@.len() == final(out)@.len(),
        forall|i: int|
            0 <= i < final(keys)@.len() ==> #[trigger] final(keys)@[i]@ == manifest_identity(
                final(out)@[i]@,
            ),
{
    let ghost before = manifest_views(out@);
    let key = identity_key(t.project_name.as_str(), t.thread_id.as_str());
    let mut j: usize = 0;
    while j < keys.len() && !str_eq(keys[j].as_str(), key.as_str())
        invariant
            j <= keys@.len() == out@.len(),
            before == manifest_views(out@),
            forall|i: int|
                0 <= i < keys@.len() ==> #[trigger] keys@[i]@ == manifest_identity(out@[i]@),
            forall|i: int| 0 <= i < j ==> manifest_identity(#[trigger] before[i]) != key@,
        decreases keys.len() - j,
    {
        j += 1;
    }
    proof {
        lemma_manifest_index(before, key@, j as int);
    }
    if j < keys.len() {
        out.set(j, t);
        assert(manifest_views(out@) =~= before.update(j as int, t@));
    } else {
        out.push(t);
        keys.push(key);
        assert(manifest_views(out@) =~= before.push(t@));
    }
}

fn remove_thread_exec(out: &mut Vec<ManifestThread>, keys: &mut Vec<String>, thread_id: &str)
    requires
        old(keys)@.len() == old(out)@.len(),
        forall|i: int|
            0 <= i < old(keys)@.len() ==> #[trigger] old(keys)@[i]@ == manifest_identity(
                old(out)@[i]@,
            ),
    ensures
        manifest_views(final(out)@) == without_thread(manifest_views(old(out)@), thread_id@),
        final(keys)@.len() == final(out)@.len(),
        forall|i: int|
            0 <= i < final(keys)@.len() ==> #[trigger] final(keys)@[i]@ == manifest_identity(
                final(out)@[i]@,
            ),
{
    let ghost all = manifest_views(out@);
    let mut kept: Vec<ManifestThread> = Vec::new();
    let mut kept_keys: Vec<String> = Vec::new();
    let mut k: usize = 0;
    assert(all.take(0) =~= Seq::<ManifestThreadView>::empty());
    assert(manifest_views(kept@) =~= Seq::<ManifestThreadView>::empty());
    while k < out.len()
        invariant
            k <= out@.len() == keys@.len(),
            all == manifest_views(out@),
            forall|i: int| 0 <= i < keys@.len() ==> #[trigger] keys@[i]@ == manifest_identity(out@[i]@),
            manifest_views(kept@) == without_thread(all.take(k as int), thread_id@),
            kept_keys@.len() == kept@.len(),
            forall|i: int|
                0 <= i < kept_keys@.len() ==> #[trigger] kept_keys@[i]@ == manifest_identity(
                    kept@[i]@,
                ),
        decreases out.len() - k,
    {
        assert(all.take(k + 1).drop_last() =~= all.take(k as int));
        assert(all.take(k + 1).last() == out@[k as int]@);
        if !str_eq(out[k].thread_id.as_str(), thread_id) {
            let ghost before = manifest_views(kept@);
            kept.push(out[k].clone());
            kept_keys.push(keys[k].clone());
            assert(manifest_views(kept@) =~= before.push(out@[k as int]@));
        }
        k += 1;
    }
    assert(all.take(k as int) =~= all);
    *out = kept;
    *keys = kept_keys;
}

fn thread_le_exec(a: &ManifestThread, b: &ManifestThread) -> (res: bool)
    ensures
        res == thread_le(a@, b@),
{
    if str_less(a.project_name.as_str(), b.project_name.as_str()) {
        return true;
    }
    str_eq(a.project_name.as_str(), b.project_name.as_str()) && !str_less(
        b.thread_id.as_str(),
        a.thread_id.as_str(),
    )
}

fn sort_threads_exec(items: Vec<ManifestThread>) -> (res: Vec<ManifestThread>)
    ensures
        manifest_views(res@) == sort_threads(manifest_views(items@)),
{
    let ghost s = manifest_views(items@);
    let mut sorted: Vec<ManifestThread> = Vec::new();
    let mut i: usize = 0;
    assert(s.take(0) =~= Seq::<ManifestThreadView>::empty());
    assert(manifest_views(sorted@) =~= Seq::<ManifestThreadView>::empty());
    while i < items.len()
        invariant
            i <= items.len(),
            s == manifest_views(items@),
            manifest_views(sorted@) == sort_threads(s.take(i as int)),
        decreases items.len() - i,
    {
        let ghost sv = manifest_views(sorted@);
        let ghost x = s[i as int];
        let mut j: usize = 0;
        assert(sv.skip(0) =~= sv);
        while j < sorted.len() && thread_le_exec(&sorted[j], &items[i])
            invariant
                j <= sorted.len(),
                i < items.len(),
                s == manifest_views(items@),
                sv == manifest_views(sorted@),
                x == items@[i as int]@,
                thread_position(sv, x) == j + thread_position(sv.skip(j as int), x),
            decreases sorted.len() - j,
        {
            assert(sv.skip(j as int).drop_first() =~= sv.skip(j + 1));
            assert(sv.skip(j as int)[0] == sv[j as int]);
            j += 1;
        }
        proof {
            if j < sorted.len() {
                assert(sv.skip(j as int)[0] == sv[j as int]);
            }
        }
        let t = items[i].clone();
        sorted.insert(j, t);
        i += 1;
        proof {
            assert(s.take(i as int).drop_last() =~= s.take(i - 1));
            assert(s.take(i as int).last() == x);
            assert(manifest_views(sorted@) =~= sv.insert(j as int, x));
        }
    }
    assert(s.take(i as int) =~= s);
    sorted
}

fn entry_of_thread(t: &ThreadRecord) -> (res: ManifestThread)
    ensures
        res@ == manifest_entry(t@),
{
    ManifestThread {
        project_name: t.project_name.clone(),
        thread_id: t.thread_id.clone(),
        relative_path: t.relative_path.clone(),
        archived: t.archived,
        updated_at: t.updated_at,
        size: t.size,
    }
}

/// The manifest's threads with this machine's merged in, as `spec_merge` describes.
pub fn merge_threads(manifest: &Vec<ManifestThread>, local: &Vec<ThreadRecord>) -> (res: Vec<
    ManifestThread,
>)
    ensures
        manifest_views(res@) == spec_merge(manifest_views(manifest@), thread_views(local@)),
{
    let ghost mv = manifest_views(manifest@);
    let ghost lv = thread_views(local@);
    let mut out: Vec<ManifestThread> = Vec::new();
    let mut keys: Vec<String> = Vec::new();
    let mut k: usize = 0;
    assert(mv.take(0) =~= Seq::<ManifestThreadView>::empty());
    assert(manifest_views(out@) =~= Seq::<ManifestThreadView>::empty());
    while k < manifest.len()
        invariant
            k <= manifest.len(),
            mv == manifest_views(manifest@),
            manifest_views(out@) == keyed_threads(mv.take(k as int)),
            keys@.len() == out@.len(),
            forall|i: int| 0 <= i < keys@.len() ==> #[trigger] keys@[i]@ == manifest_identity(out@[i]@),
        decreases manifest.len() - k,
    {
        assert(mv.take(k + 1).drop_last() =~= mv.take(k as int));
        assert(mv.take(k + 1).last() == manifest@[k as int]@);
        upsert_exec(&mut out, &mut keys, manifest[k].clone());
        k += 1;
    }
    assert(mv.take(k as int) =~= mv);
    let ghost base = manifest_views(out@);
    let mut m: usize = 0;
    assert(lv.take(0) =~= Seq::<ThreadView>::empty());
    while m < local.len()
        invariant
            m <= local.len(),
            lv == thread_views(local@),
            base == keyed_threads(mv),
            manifest_views(out@) == merged_threads(base, lv.take(m as int)),
            keys@.len() == out@.len(),
            forall|i: int| 0 <= i < keys@.len() ==> #[trigger] keys@[i]@ == manifest_identity(out@[i]@),
        decreases local.len() - m,
    {
        assert(lv.take(m + 1).drop_last() =~= lv.take(m as int));
        assert(lv.take(m + 1).last() == local@[m as int]@);
        remove_thread_exec(&mut out, &mut keys, local[m].thread_id.as_str());
        upsert_exec(&mut out, &mut keys, entry_of_thread(&local[m]));
        m += 1;
    }
    assert(lv.take(m as int) =~= lv);
    sort_threads_exec(out)
}

/// Merges this machine's threads into the manifest: the threads as `merge_threads`
/// gives them, version 1, and the time of writing from the clock.
pub fn merge_local_threads_into_manifest(manifest: &mut SyncManifest, local: &Vec<ThreadRecord>)
    ensures
        manifest_views(final(manifest).threads@) == spec_merge(
            manifest_views(old(manifest).threads@),
            thread_views(local@),
        ),
        final(manifest).version == 1,
        crate::usage::rfc3339_valid(final(manifest).updated_at@),
{
    let threads = merge_threads(&manifest.threads, local);
    manifest.version = 1;
    manifest.updated_at = utc_now_rfc3339();
    manifest.threads = threads;
}

// ---------------------------------------------------------------------------
// What a merge keeps
// ---------------------------------------------------------------------------

proof fn lemma_thread_le_total(a: ManifestThreadView, b: ManifestThreadView)
    ensures
        thread_le(a, b) || thread_le(b, a),
{
    crate::text::lemma_text_less_total(a.project_name, b.project_name);
    crate::text::lemma_text_less_asymmetric(a.thread_id, b.thread_id);
}

proof fn lemma_thread_le_transitive(a: ManifestThreadView, b: ManifestThreadView, c: ManifestThreadView)
    requires
        thread_le(a, b),
        thread_le(b, c),
    ensures
        thread_le(a, c),
{
    crate::text::lemma_text_less_transitive(a.project_name, b.project_name, c.project_name);
    crate::text::lemma_text_less_transitive(c.thread_id, a.thread_id, b.thread_id);
    crate::text::lemma_text_less_total(a.thread_id, b.thread_id);
    crate::text::lemma_text_less_total(b.thread_id, c.thread_id);
}

proof fn lemma_thread_position(sorted: Seq<ManifestThreadView>, x: ManifestThreadView)
    ensures
        0 <= thread_position(sorted, x) <= sorted.len(),
        forall|q: int| 0 <= q < thread_position(sorted, x) ==> thread_le(#[trigger] sorted[q], x),
        thread_position(sorted, x) < sorted.len() ==> !thread_le(
            sorted[thread_position(sorted, x)],
            x,
        ),
    decreases sorted.len(),
{
    if sorted.len() > 0 && thread_le(sorted[0], x) {
        let rest = sorted.drop_first();
        lemma_thread_position(rest, x);
        assert forall|q: int| 0 <= q < thread_position(sorted, x) implies thread_le(
            #[trigger] sorted[q],
            x,
        ) by {
            if q > 0 {
                assert(sorted[q] == rest[q - 1]);
            }
        }
        if thread_position(sorted, x) < sorted.len() {
            assert(sorted[thread_position(sorted, x)] == rest[thread_position(rest, x)]);
        }
    }
}

/// Records in order: each sorts no later than every one after it.
pub open spec fn threads_in_order(s: Seq<ManifestThreadView>) -> bool {
    forall|a: int, b: int| 0 <= a < b < s.len() ==> thread_le(#[trigger] s[a], #[trigger] s[b])
}

proof fn lemma_sort_threads(s: Seq<ManifestThreadView>)
    ensures
        threads_in_order(sort_threads(s)),
        sort_threads(s).len() == s.len(),
        forall|x: ManifestThreadView| sort_threads(s).contains(x) <==> s.contains(x),
    decreases s.len(),
{
    if s.len() > 0 {
        let head = s.drop_last();
        let x = s.last();
        lemma_sort_threads(head);
        let sorted = sort_threads(head);
        lemma_thread_position(sorted, x);
        let p = thread_position(sorted, x);
        let r = sorted.insert(p, x);
        assert forall|a: int, b: int| 0 <= a < b < r.len() implies thread_le(
            #[trigger] r[a],
            #[trigger] r[b],
        ) by {
            if b < p {
                assert(r[a] == sorted[a] && r[b] == sorted[b]);
            } else if b == p {
                assert(r[a] == sorted[a]);
            } else if a < p {
                assert(r[a] == sorted[a] && r[b] == sorted[b - 1]);
            } else if a == p {
                assert(r[b] == sorted[b - 1]);
                lemma_thread_le_total(sorted[p], x);
                if p < b - 1 {
                    assert(thread_le(sorted[p], sorted[b - 1]));
                    lemma_thread_le_transitive(x, sorted[p], sorted[b - 1]);
                }
            } else {
                assert(r[a] == sorted[a - 1] && r[b] == sorted[b - 1]);
            }
        }
        assert forall|y: ManifestThreadView| r.contains(y) <==> s.contains(y) by {
            if r.contains(y) {
                let k = choose|k: int| 0 <= k < r.len() && r[k] == y;
                if k < p {
                    assert(sorted[k] == y);
                    assert(sorted.contains(y));
                    assert(head.contains(y));
                    let j = choose|j: int| 0 <= j < head.len() && head[j] == y;
                    assert(head[j] == s[j]);
                    assert(s[j] == y);
                } else if k == p {
                    assert(s[s.len() - 1] == y);
                } else {
                    assert(sorted[k - 1] == y);
                    assert(sorted.contains(y));
                    assert(head.contains(y));
                    let j = choose|j: int| 0 <= j < head.len() && head[j] == y;
                    assert(head[j] == s[j]);
                    assert(s[j] == y);
                }
            }
            if s.contains(y) {
                let j = choose|j: int| 0 <= j < s.len() && s[j] == y;
                if j < s.len() - 1 {
                    assert(head[j] == y);
                    assert(head.contains(y));
                    let k = choose|k: int| 0 <= k < sorted.len() && sorted[k] == y;
                    if k < p {
                        assert(r[k] == y);
                    } else {
                        assert(r[k + 1] == y);
                    }
                } else {
                    assert(r[p] == y);
                }
            }
        }
    }
}

proof fn lemma_manifest_index_bounds(s: Seq<ManifestThreadView>, key: Seq<char>)
    ensures
        manifest_index(s, key) matches Some(i) ==> 0 <= i < s.len() && manifest_identity(s[i])
            == key,
    decreases s.len(),
{
    if s.len() > 0 {
        lemma_manifest_index_bounds(s.drop_last(), key);
    }
}

proof fn lemma_upsert_keeps(s: Seq<ManifestThreadView>, t: ManifestThreadView, x: ManifestThreadView)
    requires
        s.contains(x) || x == t,
        x == t || manifest_identity(x) != manifest_identity(t),
    ensures
        upsert_manifest(s, t).contains(x),
{
    lemma_manifest_index_bounds(s, manifest_identity(t));
    let r = upsert_manifest(s, t);
    match manifest_index(s, manifest_identity(t)) {
        Some(i) => {
            if x == t {
                assert(r[i] == t);
            } else {
                let k = choose|k: int| 0 <= k < s.len() && s[k] == x;
                assert(k != i);
                assert(r[k] == x);
            }
        },
        None => {
            if x == t {
                assert(r[s.len() as int] == t);
            } else {
                let k = choose|k: int| 0 <= k < s.len() && s[k] == x;
                assert(r[k] == x);
            }
        },
    }
}

proof fn lemma_without_keeps(s: Seq<ManifestThreadView>, id: Seq<char>, x: ManifestThreadView)
    requires
        s.contains(x),
        x.thread_id != id,
    ensures
        without_thread(s, id).contains(x),
    decreases s.len(),
{
    let head = s.drop_last();
    if s.last() == x {
        assert(without_thread(s, id).last() == x);
    } else {
        let k = choose|k: int| 0 <= k < s.len() && s[k] == x;
        assert(head[k] == x);
        lemma_without_keeps(head, id, x);
        let w = without_thread(head, id);
        if s.last().thread_id != id {
            let j = choose|j: int| 0 <= j < w.len() && w[j] == x;
            assert(w.push(s.last())[j] == x);
        }
    }
}

/// This machine's threads have distinct thread IDs and distinct identities.
pub open spec fn distinct_threads(local: Seq<ThreadView>) -> bool {
    forall|a: int, b: int|
        0 <= a < b < local.len() ==> (#[trigger] local[a]).thread_id != (#[trigger] local[b]).thread_id
            && crate::webdav::thread_identity(local[a]) != crate::webdav::thread_identity(local[b])
}

proof fn lemma_merged_keeps(base: Seq<ManifestThreadView>, local: Seq<ThreadView>, i: int)
    requires
        0 <= i < local.len(),
        distinct_threads(local),
    ensures
        merged_threads(base, local).contains(manifest_entry(local[i])),
    decreases local.len(),
{
    let head = local.drop_last();
    let t = local.last();
    let x = manifest_entry(local[i]);
    if i == local.len() - 1 {
        lemma_upsert_keeps(without_thread(merged_threads(base, head), t.thread_id), manifest_entry(t), x);
    } else {
        assert(distinct_threads(head)) by {
            assert forall|a: int, b: int| 0 <= a < b < head.len() implies (#[trigger] head[a]).thread_id
                != (#[trigger] head[b]).thread_id && crate::webdav::thread_identity(head[a])
                != crate::webdav::thread_identity(head[b]) by {
                assert(head[a] == local[a] && head[b] == local[b]);
            }
        }
        assert(head[i] == local[i]);
        lemma_merged_keeps(base, head, i);
        assert(local[i].thread_id != local[local.len() - 1].thread_id);
        lemma_without_keeps(merged_threads(base, head), t.thread_id, x);
        lemma_upsert_keeps(without_thread(merged_threads(base, head), t.thread_id), manifest_entry(t), x);
    }
}

/// After a push the manifest lists every thread of this machine, at its path, and comes
/// sorted by project name and thread ID (threads of this machine taken to have distinct
/// thread IDs and identities, as the scan of the sync roots gives them).
pub proof fn lemma_merge_lists_local_threads(manifest: Seq<ManifestThreadView>, local: Seq<ThreadView>)
    requires
        distinct_threads(local),
    ensures
        forall|i: int|
            0 <= i < local.len() ==> spec_merge(manifest, local).contains(
                manifest_entry(#[trigger] local[i]),
            ),
        threads_in_order(spec_merge(manifest, local)),
{
    let m = merged_threads(keyed_threads(manifest), local);
    lemma_sort_threads(m);
    assert forall|i: int| 0 <= i < local.len() implies spec_merge(manifest, local).contains(
        manifest_entry(#[trigger] local[i]),
    ) by {
        lemma_merged_keeps(keyed_threads(manifest), local, i);
    }
}

// ---------------------------------------------------------------------------
// A manifest made from the store's files
// ---------------------------------------------------------------------------

/// The thread ID of a store path: that of its last piece, read as a thread file's name.
pub open spec fn spec_thread_id_of_relative(relative: Seq<char>) -> Option<Seq<char>> {
    match crate::pathparts::file_name(relative, false) {
        Some(n) => spec_thread_id(n),
        None => None,
    }
}

pub open spec fn relative_cuttable(relative: Seq<char>) -> bool {
    match crate::pathparts::file_name(relative, false) {
        Some(n) => thread_id_cuttable(n),
        None => true,
    }
}

/// The thread ID of a store path.
pub fn thread_id_from_relative(relative_path: &str) -> (res: Option<String>)
    requires
        relative_cuttable(relative_path@),
    ensures
        opt_text(res) == spec_thread_id_of_relative(relative_path@),
{
    match crate::pathparts::path_file_name(relative_path, false) {
        Some(n) => thread_id_from_filename(n.as_str()),
        None => None,
    }
}

/// The record that a store file gives: a file (not a directory) whose name holds a
/// thread ID, with no project name, archived where it lies below `archived_sessions/`.
pub open spec fn entry_thread(e: RemoteEntryView) -> Option<ManifestThreadView> {
    if e.is_directory {
        None
    } else {
        match spec_thread_id_of_relative(e.relative_path) {
            None => None,
            Some(id) => Some(
                ManifestThreadView {
                    project_name: Seq::empty(),
                    thread_id: id,
                    relative_path: e.relative_path,
                    archived: starts_with(e.relative_path, "archived_sessions/"@),
                    updated_at: e.last_modified,
                    size: e.size,
                },
            ),
        }
    }
}

pub open spec fn entry_threads(es: Seq<RemoteEntryView>) -> Seq<ManifestThreadView>
    decreases es.len(),
{
    if es.len() == 0 {
        Seq::empty()
    } else {
        match entry_thread(es.last()) {
            Some(t) => entry_threads(es.drop_last()).push(t),
            None => entry_threads(es.drop_last()),
        }
    }
}

/// `a`'s thread ID sorts no later than `b`'s.
pub open spec fn id_le(a: ManifestThreadView, b: ManifestThreadView) -> bool {
    !text_less(b.thread_id, a.thread_id)
}

pub open spec fn id_position(sorted: Seq<ManifestThreadView>, x: ManifestThreadView) -> int
    decreases sorted.len(),
{
    if sorted.len() == 0 || !id_le(sorted[0], x) {
        0
    } else {
        1 + id_position(sorted.drop_first(), x)
    }
}

/// The records sorted stably by thread ID.
pub open spec fn sort_by_id(s: Seq<ManifestThreadView>) -> Seq<ManifestThreadView>
    decreases s.len(),
{
    if s.len() == 0 {
        s
    } else {
        let sorted = sort_by_id(s.drop_last());
        sorted.insert(id_position(sorted, s.last()), s.last())
    }
}

/// The threads of a manifest made from the store's files where the store has none: a
/// record per thread file, sorted stably by thread ID.
pub open spec fn spec_threads_from_entries(es: Seq<RemoteEntryView>) -> Seq<ManifestThreadView> {
    sort_by_id(entry_threads(es))
}

fn sort_by_id_exec(items: Vec<ManifestThread>) -> (res: Vec<ManifestThread>)
    ensures
        manifest_views(res@) == sort_by_id(manifest_views(items@)),
{
    let ghost s = manifest_views(items@);
    let mut sorted: Vec<ManifestThread> = Vec::new();
    let mut i: usize = 0;
    assert(s.take(0) =~= Seq::<ManifestThreadView>::empty());
    assert(manifest_views(sorted@) =~= Seq::<ManifestThreadView>::empty());
    while i < items.len()
        invariant
            i <= items.len(),
            s == manifest_views(items@),
            manifest_views(sorted@) == sort_by_id(s.take(i as int)),
        decreases items.len() - i,
    {
        let ghost sv = manifest_views(sorted@);
        let ghost x = s[i as int];
        let mut j: usize = 0;
        assert(sv.skip(0) =~= sv);
        while j < sorted.len() && !str_less(items[i].thread_id.as_str(), sorted[j].thread_id.as_str())
            invariant
                j <= sorted.len(),
                i < items.len(),
                s == manifest_views(items@),
                sv == manifest_views(sorted@),
                x == items@[i as int]@,
                id_position(sv, x) == j + id_position(sv.skip(j as int), x),
            decreases sorted.len() - j,
        {
            assert(sv.skip(j as int).drop_first() =~= sv.skip(j + 1));
            assert(sv.skip(j as int)[0] == sv[j as int]);
            j += 1;
        }
        proof {
            if j < sorted.len() {
                assert(sv.skip(j as int)[0] == sv[j as int]);
            }
        }
        let t = items[i].clone();
        sorted.insert(j, t);
        i += 1;
        proof {
            assert(s.take(i as int).drop_last() =~= s.take(i - 1));
            assert(s.take(i as int).last() == x);
            assert(manifest_views(sorted@) =~= sv.insert(j as int, x));
        }
    }
    assert(s.take(i as int) =~= s);
    sorted
}

/// The threads of a manifest made from the store's files.
pub fn threads_from_entries(entries: &Vec<RemoteEntry>) -> (res: Vec<ManifestThread>)
    requires
        forall|i: int|
            0 <= i < entries@.len() ==> relative_cuttable(#[trigger] entries@[i].relative_path@),
    ensures
        manifest_views(res@) == spec_threads_from_entries(entry_views(entries@)),
{
    let ghost ev = entry_views(entries@);
    let mut out: Vec<ManifestThread> = Vec::new();
    let mut k: usize = 0;
    assert(ev.take(0) =~= Seq::<RemoteEntryView>::empty());
    assert(manifest_views(out@) =~= Seq::<ManifestThreadView>::empty());
    while k < entries.len()
        invariant
            k <= entries.len(),
            ev == entry_views(entries@),
            forall|i: int|
                0 <= i < entries@.len() ==> relative_cuttable(#[trigger] entries@[i].relative_path@),
            manifest_views(out@) == entry_threads(ev.take(k as int)),
        decreases entries.len() - k,
    {
        assert(ev.take(k + 1).drop_last() =~= ev.take(k as int));
        assert(ev.take(k + 1).last() == entries@[k as int]@);
        let e = &entries[k];
        if !e.is_directory {
            assert(relative_cuttable(entries@[k as int].relative_path@));
            match thread_id_from_relative(e.relative_path.as_str()) {
                Some(id) => {
                    let ghost before = manifest_views(out@);
                    let t = ManifestThread {
                        project_name: String::new(),
                        thread_id: id,
                        relative_path: e.relative_path.clone(),
                        archived: str_starts_with(e.relative_path.as_str(), "archived_sessions/"),
                        updated_at: e.last_modified,
                        size: e.size,
                    };
                    out.push(t);
                    assert(manifest_views(out@) =~= before.push(out@[out@.len() - 1]@));
                },
                None => {},
            }
        }
        k += 1;
    }
    assert(ev.take(k as int) =~= ev);
    sort_by_id_exec(out)
}

/// The manifest made from the store's files where the store has none: version 1,
/// written now (from the clock), its threads as `threads_from_entries` gives them.
pub fn manifest_from_entries(entries: &Vec<RemoteEntry>) -> (res: SyncManifest)
    requires
        forall|i: int|
            0 <= i < entries@.len() ==> relative_cuttable(#[trigger] entries@[i].relative_path@),
    ensures
        res.version == 1,
        manifest_views(res.threads@) == spec_threads_from_entries(entry_views(entries@)),
        crate::usage::rfc3339_valid(res.updated_at@),
{
    let threads = threads_from_entries(entries);
    SyncManifest { version: 1, updated_at: utc_now_rfc3339(), threads }
}

} // verus!
