//! The components of a path written as text: its pieces between separators, the
//! last name in it, and a path taken relative to another.
use vstd::prelude::*;
use crate::paths::is_separator;
use crate::text::{chars_eq, chars_of, string_of};

verus! {

/// The pieces of a path scanned so far: the finished pieces, and the piece being read.
pub open spec fn scan_pieces(s: Seq<char>, windows: bool) -> (Seq<Seq<char>>, Seq<char>)
    decreases s.len(),
{
    if s.len() == 0 {
        (Seq::empty(), Seq::empty())
    } else {
        let (done, cur) = scan_pieces(s.drop_last(), windows);
        if is_separator(s.last(), windows) {
            (done.push(cur), Seq::empty())
        } else {
            (done, cur.push(s.last()))
        }
    }
}

/// The text between separators, empty pieces included: `a//b/` has the pieces `a`, ``,
/// `b` and ``.
pub open spec fn pieces(s: Seq<char>, windows: bool) -> Seq<Seq<char>> {
    let (done, cur) = scan_pieces(s, windows);
    done.push(cur)
}

/// The pieces that name something: empty pieces and `.` dropped.
pub open spec fn normal_pieces(ps: Seq<Seq<char>>) -> Seq<Seq<char>>
    decreases ps.len(),
{
    if ps.len() == 0 {
        Seq::empty()
    } else {
        let head = normal_pieces(ps.drop_last());
        if ps.last().len() == 0 || ps.last() == seq!['.'] {
            head
        } else {
            head.push(ps.last())
        }
    }
}

/// `Path::file_name`: the last component, unless that is `..` or there is none.
pub open spec fn file_name(s: Seq<char>, windows: bool) -> Option<Seq<char>> {
    let ns = normal_pieces(pieces(s, windows));
    if ns.len() > 0 && ns.last() != seq!['.', '.'] {
        Some(ns.last())
    } else {
        None
    }
}

/// `Path::components`: the root (`/`) or a leading `.` where the path has one, then the
/// pieces that name something.
pub open spec fn components(s: Seq<char>, windows: bool) -> Seq<Seq<char>> {
    let head = if s.len() > 0 && is_separator(s[0], windows) {
        seq![seq!['/']]
    } else if pieces(s, windows)[0] == seq!['.'] {
        seq![seq!['.']]
    } else {
        Seq::empty()
    };
    head + normal_pieces(pieces(s, windows))
}

/// The pieces joined with `/` between them.
pub open spec fn join_slash(ps: Seq<Seq<char>>) -> Seq<char>
    decreases ps.len(),
{
    if ps.len() == 0 {
        Seq::empty()
    } else if ps.len() == 1 {
        ps[0]
    } else {
        join_slash(ps.drop_last()) + seq!['/'] + ps.last()
    }
}

/// `file` relative to `root`, its components after those of `root` joined with `/`;
/// nothing where `root`'s components do not begin `file`'s.
pub open spec fn spec_relative_path(root: Seq<char>, file: Seq<char>, windows: bool) -> Option<
    Seq<char>,
> {
    let rc = components(root, windows);
    let fc = components(file, windows);
    if rc.len() <= fc.len() && fc.take(rc.len() as int) == rc {
        Some(join_slash(fc.skip(rc.len() as int)))
    } else {
        None
    }
}

fn is_sep(c: char, windows: bool) -> (res: bool)
    ensures
        res == is_separator(c, windows),
{
    c == '/' || (windows && c == '\\')
}

/// The pieces of `s` between separators.
pub fn split_pieces(s: &[char], windows: bool) -> (res: Vec<Vec<char>>)
    ensures
        res@.len() == pieces(s@, windows).len(),
        forall|i: int| 0 <= i < res@.len() ==> #[trigger] res@[i]@ == pieces(s@, windows)[i],
{
    let mut done: Vec<Vec<char>> = Vec::new();
    let mut cur: Vec<char> = Vec::new();
    let mut k: usize = 0;
    assert(s@.take(0) =~= Seq::<char>::empty());
    while k < s.len()
        invariant
            k <= s.len(),
            scan_pieces(s@.take(k as int), windows).1 == cur@,
            scan_pieces(s@.take(k as int), windows).0.len() == done@.len(),
            forall|i: int|
                0 <= i < done@.len() ==> #[trigger] done@[i]@ == scan_pieces(
                    s@.take(k as int),
                    windows,
                ).0[i],
        decreases s.len() - k,
    {
        assert(s@.take(k + 1).drop_last() =~= s@.take(k as int));
        assert(s@.take(k + 1).last() == s@[k as int]);
        if is_sep(s[k], windows) {
            let piece = cur;
            done.push(piece);
            cur = Vec::new();
            assert(cur@ =~= Seq::<char>::empty());
        } else {
            cur.push(s[k]);
        }
        k += 1;
    }
    assert(s@.take(k as int) =~= s@);
    done.push(cur);
    done
}

/// The pieces that name something, from the pieces of a path.
fn keep_normal(ps: &Vec<Vec<char>>) -> (res: Vec<Vec<char>>)
    ensures
        res@.len() == normal_pieces(ps@.map_values(|p: Vec<char>| p@)).len(),
        forall|i: int|
            0 <= i < res@.len() ==> #[trigger] res@[i]@ == normal_pieces(
                ps@.map_values(|p: Vec<char>| p@),
            )[i],
{
    let ghost all = ps@.map_values(|p: Vec<char>| p@);
    let mut out: Vec<Vec<char>> = Vec::new();
    let mut k: usize = 0;
    assert(all.take(0) =~= Seq::<Seq<char>>::empty());
    while k < ps.len()
        invariant
            k <= ps.len(),
            all == ps@.map_values(|p: Vec<char>| p@),
            out@.len() == normal_pieces(all.take(k as int)).len(),
            forall|i: int|
                0 <= i < out@.len() ==> #[trigger] out@[i]@ == normal_pieces(all.take(k as int))[i],
        decreases ps.len() - k,
    {
        assert(all.take(k + 1).drop_last() =~= all.take(k as int));
        assert(all.take(k + 1).last() == ps@[k as int]@);
        let p = &ps[k];
        let dot = p.len() == 1 && p[0] == '.';
        proof {
            if p@.len() == 1 && p@[0] == '.' {
                assert(p@ =~= seq!['.']);
            }
            if p@ == seq!['.'] {
                assert(p@.len() == 1 && p@[0] == '.');
            }
        }
        if !(p.len() == 0 || dot) {
            out.push(p.clone());
        }
        k += 1;
    }
    assert(all.take(k as int) =~= all);
    out
}

proof fn lemma_pieces_view(ps: Vec<Vec<char>>, s: Seq<char>, windows: bool)
    requires
        ps@.len() == pieces(s, windows).len(),
        forall|i: int| 0 <= i < ps@.len() ==> #[trigger] ps@[i]@ == pieces(s, windows)[i],
    ensures
        ps@.map_values(|p: Vec<char>| p@) == pieces(s, windows),
{
    assert(ps@.map_values(|p: Vec<char>| p@) =~= pieces(s, windows));
}

/// `Path::file_name` of the path `path`.
pub fn path_file_name(path: &str, windows: bool) -> (res: Option<String>)
    ensures
        match res {
            Some(n) => file_name(path@, windows) == Some(n@),
            None => file_name(path@, windows) is None,
        },
{
    let cs = chars_of(path);
    let ps = split_pieces(cs.as_slice(), windows);
    proof {
        lemma_pieces_view(ps, path@, windows);
    }
    let ns = keep_normal(&ps);
    if ns.len() == 0 {
        return None;
    }
    let last = &ns[ns.len() - 1];
    let dots = last.len() == 2 && last[0] == '.' && last[1] == '.';
    proof {
        let l = normal_pieces(pieces(path@, windows)).last();
        assert(l == last@);
        if last@.len() == 2 && last@[0] == '.' && last@[1] == '.' {
            assert(l =~= seq!['.', '.']);
        }
        if l == seq!['.', '.'] {
            assert(l.len() == 2 && l[0] == '.' && l[1] == '.');
        }
    }
    if dots {
        None
    } else {
        Some(string_of(last.as_slice()))
    }
}

fn components_of(cs: &[char], windows: bool) -> (res: Vec<Vec<char>>)
    ensures
        res@.len() == components(cs@, windows).len(),
        forall|i: int| 0 <= i < res@.len() ==> #[trigger] res@[i]@ == components(cs@, windows)[i],
{
    let ps = split_pieces(cs, windows);
    proof {
        lemma_pieces_view(ps, cs@, windows);
    }
    let ns = keep_normal(&ps);
    let ghost head: Seq<Seq<char>> = if cs@.len() > 0 && is_separator(cs@[0], windows) {
        seq![seq!['/']]
    } else if pieces(cs@, windows)[0] == seq!['.'] {
        seq![seq!['.']]
    } else {
        Seq::empty()
    };
    let mut out: Vec<Vec<char>> = Vec::new();
    let first_dot = ps[0].len() == 1 && ps[0][0] == '.';
    proof {
        if ps@[0]@.len() == 1 && ps@[0]@[0] == '.' {
            assert(ps@[0]@ =~= seq!['.']);
        }
        if ps@[0]@ == seq!['.'] {
            assert(ps@[0]@.len() == 1 && ps@[0]@[0] == '.');
        }
    }
    if cs.len() > 0 && is_sep(cs[0], windows) {
        out.push(vec!['/']);
        assert(out@[0]@ =~= seq!['/']);
    } else if first_dot {
        out.push(vec!['.']);
        assert(out@[0]@ =~= seq!['.']);
    }
    assert(out@.len() == head.len());
    let mut k: usize = 0;
    let ghost n0 = out@.len();
    while k < ns.len()
        invariant
            k <= ns.len(),
            n0 == head.len(),
            out@.len() == n0 + k,
            ns@.len() == normal_pieces(pieces(cs@, windows)).len(),
            forall|i: int|
                0 <= i < ns@.len() ==> #[trigger] ns@[i]@ == normal_pieces(pieces(cs@, windows))[i],
            forall|i: int| 0 <= i < n0 ==> #[trigger] out@[i]@ == head[i],
            forall|i: int|
                n0 <= i < out@.len() ==> #[trigger] out@[i]@ == normal_pieces(
                    pieces(cs@, windows),
                )[i - n0],
        decreases ns.len() - k,
    {
        out.push(ns[k].clone());
        k += 1;
    }
    out
}

fn join_with_slash(ps: &[Vec<char>], from: usize) -> (res: Vec<char>)
    requires
        from <= ps@.len(),
    ensures
        res@ == join_slash(ps@.skip(from as int).map_values(|p: Vec<char>| p@)),
{
    let ghost all = ps@.skip(from as int).map_values(|p: Vec<char>| p@);
    let mut out: Vec<char> = Vec::new();
    let mut k: usize = from;
    assert(all.take(0) =~= Seq::<Seq<char>>::empty());
    while k < ps.len()
        invariant
            from <= k <= ps.len(),
            all == ps@.skip(from as int).map_values(|p: Vec<char>| p@),
            all.len() == ps@.len() - from,
            out@ == join_slash(all.take(k - from)),
        decreases ps.len() - k,
    {
        let ghost t = all.take(k + 1 - from);
        assert(t.drop_last() =~= all.take(k - from));
        assert(t.last() == ps@[k as int]@);
        if k > from {
            out.push('/');
        }
        let mut j: usize = 0;
        let ghost base = out@;
        while j < ps[k].len()
            invariant
                j <= ps@[k as int]@.len(),
                k < ps@.len(),
                out@ == base + ps@[k as int]@.take(j as int),
            decreases ps@[k as int]@.len() - j,
        {
            out.push(ps[k][j]);
            j += 1;
            assert(out@ =~= base + ps@[k as int]@.take(j as int));
        }
        proof {
            assert(ps@[k as int]@.take(j as int) =~= ps@[k as int]@);
            if k == from {
                assert(t.len() == 1);
                assert(base =~= Seq::<char>::empty());
                assert(out@ =~= t[0]);
            }
        }
        k += 1;
    }
    assert(all.take(k - from) =~= all);
    out
}

/// `file` relative to `root`, as `Path::strip_prefix` and its components joined with
/// `/` give it; nothing where `file` is not inside `root`.
pub fn relative_path(root: &str, file: &str, windows: bool) -> (res: Option<String>)
    ensures
        match res {
            Some(r) => spec_relative_path(root@, file@, windows) == Some(r@),
            None => spec_relative_path(root@, file@, windows) is None,
        },
{
    let rcs = chars_of(root);
    let fcs = chars_of(file);
    let rc = components_of(rcs.as_slice(), windows);
    let fc = components_of(fcs.as_slice(), windows);
    let ghost rv = components(root@, windows);
    let ghost fv = components(file@, windows);
    if rc.len() > fc.len() {
        return None;
    }
    let mut k: usize = 0;
    while k < rc.len()
        invariant
            k <= rc@.len() <= fc@.len(),
            rv == components(root@, windows),
            fv == components(file@, windows),
            rc@.len() == rv.len(),
            fc@.len() == fv.len(),
            forall|i: int| 0 <= i < rc@.len() ==> #[trigger] rc@[i]@ == rv[i],
            forall|i: int| 0 <= i < fc@.len() ==> #[trigger] fc@[i]@ == fv[i],
            forall|i: int| 0 <= i < k ==> rv[i] == fv[i],
        decreases rc.len() - k,
    {
        if !chars_eq(rc[k].as_slice(), fc[k].as_slice()) {
            proof {
                assert(rc@[k as int]@ == rv[k as int]);
                assert(fc@[k as int]@ == fv[k as int]);
                assert(fv.take(rv.len() as int)[k as int] == fv[k as int]);
                assert(fv.take(rv.len() as int)[k as int] != rv[k as int]);
                assert(fv.take(rv.len() as int) != rv);
            }
            return None;
        }
        k += 1;
    }
    assert(fv.take(rv.len() as int) =~= rv);
    let joined = join_with_slash(fc.as_slice(), rc.len());
    assert(fc@.skip(rc@.len() as int).map_values(|p: Vec<char>| p@) =~= fv.skip(rv.len() as int));
    Some(string_of(joined.as_slice()))
}

/// Whether two paths have the same components, as `PathBuf` compares them.
pub fn same_components(a: &str, b: &str, windows: bool) -> (res: bool)
    ensures
        res == (components(a@, windows) == components(b@, windows)),
{
    let acs = chars_of(a);
    let bcs = chars_of(b);
    let ac = components_of(acs.as_slice(), windows);
    let bc = components_of(bcs.as_slice(), windows);
    let ghost av = components(a@, windows);
    let ghost bv = components(b@, windows);
    if ac.len() != bc.len() {
        return false;
    }
    let mut k: usize = 0;
    while k < ac.len()
        invariant
            k <= ac@.len() == bc@.len(),
            av == components(a@, windows),
            bv == components(b@, windows),
            ac@.len() == av.len(),
            bc@.len() == bv.len(),
            forall|i: int| 0 <= i < ac@.len() ==> #[trigger] ac@[i]@ == av[i],
            forall|i: int| 0 <= i < bc@.len() ==> #[trigger] bc@[i]@ == bv[i],
            forall|i: int| 0 <= i < k ==> av[i] == bv[i],
        decreases ac.len() - k,
    {
        if !chars_eq(ac[k].as_slice(), bc[k].as_slice()) {
            assert(ac@[k as int]@ == av[k as int]);
            assert(bc@[k as int]@ == bv[k as int]);
            assert(av[k as int] != bv[k as int]);
            return false;
        }
        k += 1;
    }
    assert(av =~= bv);
    true
}

} // verus!
