//! Path-filter helpers applied to a changeset or to enumeration stubs.

use vstd::prelude::*;
use crate::model::{Changeset, DiffFile, FileStub};
use crate::text::{chars_of, prefix_eq};

verus! {

/// `s` with every trailing `'/'` removed.
pub open spec fn trim_slashes(s: Seq<char>) -> Seq<char>
    decreases s.len(),
{
    if s.len() > 0 && s.last() == '/' {
        trim_slashes(s.drop_last())
    } else {
        s
    }
}

/// Whether `path` is the pathspec `spec` (trailing slashes ignored) or lies
/// under it as a directory.
pub open spec fn path_matches_spec(path: Seq<char>, spec: Seq<char>) -> bool {
    let t = trim_slashes(spec);
    path == t || (path.len() > t.len() && path.take(t.len() as int) == t && path[t.len() as int] == '/')
}

/// Whether some filter in `filters` matches `path`, or the optional previous
/// path of a rename.
pub open spec fn any_filter_matches(filters: Seq<Seq<char>>, path: Seq<char>, prev: Option<Seq<char>>) -> bool {
    exists|k: int| 0 <= k < filters.len() && (path_matches_spec(path, #[trigger] filters[k])
        || (prev matches Some(p) && path_matches_spec(p, filters[k])))
}

/// Whether a file with `path` (and rename source `prev`) survives `filters`:
/// an empty filter list keeps everything.
pub open spec fn keeps(filters: Seq<Seq<char>>, path: Seq<char>, prev: Option<Seq<char>>) -> bool {
    filters.len() == 0 || any_filter_matches(filters, path, prev)
}

/// The view of an optional string.
pub open spec fn opt_view(o: Option<String>) -> Option<Seq<char>> {
    match o {
        Some(s) => Some(s@),
        None => None,
    }
}

proof fn lemma_trim_slashes(s: Seq<char>, end: int)
    requires
        0 <= end <= s.len(),
        forall|t: int| end <= t < s.len() ==> s[t] == '/',
        end == 0 || s[end - 1] != '/',
    ensures
        trim_slashes(s) == s.take(end),
    decreases s.len(),
{
    if s.len() > end {
        lemma_trim_slashes(s.drop_last(), end);
        assert(s.drop_last().take(end) =~= s.take(end));
    } else {
        assert(s.take(end) =~= s);
    }
}

fn path_matches(path: &str, spec: &str) -> (r: bool)
    ensures
        r == path_matches_spec(path@, spec@),
{
    let p = chars_of(path);
    let t = chars_of(spec);
    let mut end: usize = t.len();
    while end > 0 && t[end - 1] == '/'
        invariant
            end <= t@.len(),
            forall|k: int| end <= k < t@.len() ==> t@[k] == '/',
        decreases end,
    {
        end = end - 1;
    }
    proof {
        lemma_trim_slashes(t@, end as int);
    }
    let ghost tt = trim_slashes(spec@);
    if p.len() == end {
        let r = prefix_eq(p.as_slice(), t.as_slice(), end);
        proof {
            assert(p@.take(end as int) =~= p@);
        }
        r
    } else if p.len() > end && p[end] == '/' {
        prefix_eq(p.as_slice(), t.as_slice(), end)
    } else {
        false
    }
}

fn file_kept(filters: &[String], path: &str, prev: &Option<String>) -> (r: bool)
    ensures
        r == any_filter_matches(filters@.map_values(|s: String| s@), path@, opt_view(*prev)),
{
    let ghost fv = filters@.map_values(|s: String| s@);
    let mut k: usize = 0;
    while k < filters.len()
        invariant
            k <= filters@.len(),
            fv == filters@.map_values(|s: String| s@),
            forall|q: int| 0 <= q < k ==> !(path_matches_spec(path@, #[trigger] fv[q])
                || (opt_view(*prev) matches Some(pp) && path_matches_spec(pp, fv[q]))),
        decreases filters@.len() - k,
    {
        let spec = filters[k].as_str();
        if path_matches(path, spec) {
            assert(path_matches_spec(path@, fv[k as int]));
            return true;
        }
        match prev {
            Some(pp) => {
                if path_matches(pp.as_str(), spec) {
                    assert(opt_view(*prev) == Some(pp@));
                    assert(spec@ == fv[k as int]);
                    assert(path_matches_spec(pp@, fv[k as int]));
                    return true;
                }
            }
            None => {}
        }
        k = k + 1;
    }
    false
}

/// The files of `files` that survive `filters`, in order.
pub open spec fn kept_files(files: Seq<DiffFile>, filters: Seq<Seq<char>>) -> Seq<DiffFile> {
    files.filter(|f: DiffFile| keeps(filters, f.path@, opt_view(f.previous_path)))
}

/// The stubs of `stubs` that survive `filters`, in order.
pub open spec fn kept_stubs(stubs: Seq<FileStub>, filters: Seq<Seq<char>>) -> Seq<FileStub> {
    stubs.filter(|s: FileStub| keeps(filters, s.path@, opt_view(s.previous_path)))
}

/// Keep only files matching one of the given path filters (repo-root-relative
/// pathspecs: the path itself or a directory it lies under). An empty filter
/// list keeps everything. Renames match on either side. Returns the count
/// removed.
pub fn apply_path_filter(cs: &mut Changeset, filters: &[String]) -> (removed: usize)
    ensures
        final(cs).source == old(cs).source,
        final(cs).files@ == kept_files(old(cs).files@, filters@.map_values(|s: String| s@)),
        removed == old(cs).files@.len() - final(cs).files@.len(),
{
    let ghost fv = filters@.map_values(|s: String| s@);
    let ghost pred = |f: DiffFile| keeps(fv, f.path@, opt_view(f.previous_path));
    let ghost orig = cs.files@;
    if filters.len() == 0 {
        proof {
            assert(orig.filter(pred) =~= orig) by {
                reveal(Seq::filter);
                lemma_filter_all(orig, pred);
            }
        }
        return 0;
    }
    let total = cs.files.len();
    let mut old_files: Vec<DiffFile> = Vec::new();
    std::mem::swap(&mut old_files, &mut cs.files);
    let mut kept: Vec<DiffFile> = Vec::new();
    for f in it: old_files
        invariant
            old_files@ == orig,
            fv == filters@.map_values(|s: String| s@),
            pred == (|f: DiffFile| keeps(fv, f.path@, opt_view(f.previous_path))),
            kept@ == it.seq().take(it.index() as int).filter(pred),
            fv.len() > 0,
    {
        let ghost before = it.seq().take(it.index() as int);
        let keep = file_kept(filters, f.path.as_str(), &f.previous_path);
        proof {
            reveal(Seq::filter);
            let nxt = it.seq().take(it.index() + 1);
            assert(nxt.drop_last() =~= before);
            assert(nxt.last() == f);
        }
        if keep {
            kept.push(f);
        }
    }
    proof {
        assert(orig.take(orig.len() as int) =~= orig);
        orig.lemma_filter_len(pred);
    }
    let n_kept = kept.len();
    cs.files = kept;
    total - n_kept
}

/// Like [`apply_path_filter`] but over enumeration stubs (before diffing), so
/// a streaming load only diffs the files that pass the filter.
pub fn apply_stub_filter(stubs: &mut Vec<FileStub>, filters: &[String])
    ensures
        final(stubs)@ == kept_stubs(old(stubs)@, filters@.map_values(|s: String| s@)),
{
    let ghost fv = filters@.map_values(|s: String| s@);
    let ghost pred = |s: FileStub| keeps(fv, s.path@, opt_view(s.previous_path));
    let ghost orig = stubs@;
    if filters.len() == 0 {
        proof {
            assert(orig.filter(pred) =~= orig) by {
                lemma_filter_all(orig, pred);
            }
        }
        return;
    }
    let mut old_stubs: Vec<FileStub> = Vec::new();
    std::mem::swap(&mut old_stubs, stubs);
    let mut kept: Vec<FileStub> = Vec::new();
    for s in it: old_stubs
        invariant
            old_stubs@ == orig,
            fv == filters@.map_values(|s: String| s@),
            pred == (|s: FileStub| keeps(fv, s.path@, opt_view(s.previous_path))),
            kept@ == it.seq().take(it.index() as int).filter(pred),
            fv.len() > 0,
    {
        let ghost before = it.seq().take(it.index() as int);
        let keep = file_kept(filters, s.path.as_str(), &s.previous_path);
        proof {
            reveal(Seq::filter);
            let nxt = it.seq().take(it.index() + 1);
            assert(nxt.drop_last() =~= before);
            assert(nxt.last() == s);
        }
        if keep {
            kept.push(s);
        }
    }
    proof {
        assert(orig.take(orig.len() as int) =~= orig);
    }
    *stubs = kept;
}

proof fn lemma_filter_all<A>(s: Seq<A>, pred: spec_fn(A) -> bool)
    requires
        forall|i: int| 0 <= i < s.len() ==> pred(#[trigger] s[i]),
    ensures
        s.filter(pred) == s,
    decreases s.len(),
{
    reveal(Seq::filter);
    if s.len() > 0 {
        lemma_filter_all(s.drop_last(), pred);
        assert(s.drop_last().push(s.last()) =~= s);
    } else {
        assert(s.filter(pred) =~= s);
    }
}

/// Path filtering is idempotent, and an empty filter list keeps everything:
/// filtering a changeset's files twice by the same filters keeps what one
/// pass keeps.
pub proof fn path_filter_law(files: Seq<DiffFile>, filters: Seq<Seq<char>>)
    ensures
        kept_files(files, Seq::empty()) == files,
        kept_files(kept_files(files, filters), filters) == kept_files(files, filters),
{
    let pred = |f: DiffFile| keeps(filters, f.path@, opt_view(f.previous_path));
    let none = |f: DiffFile| keeps(Seq::<Seq<char>>::empty(), f.path@, opt_view(f.previous_path));
    lemma_filter_all(files, none);
    let once = files.filter(pred);
    assert forall|i: int| 0 <= i < once.len() implies pred(#[trigger] once[i]) by {
        files.lemma_filter_pred(pred, i);
    }
    lemma_filter_all(once, pred);
}

/// The same laws for enumeration stubs.
pub proof fn stub_filter_law(stubs: Seq<FileStub>, filters: Seq<Seq<char>>)
    ensures
        kept_stubs(stubs, Seq::empty()) == stubs,
        kept_stubs(kept_stubs(stubs, filters), filters) == kept_stubs(stubs, filters),
{
    let pred = |s: FileStub| keeps(filters, s.path@, opt_view(s.previous_path));
    let none = |s: FileStub| keeps(Seq::<Seq<char>>::empty(), s.path@, opt_view(s.previous_path));
    lemma_filter_all(stubs, none);
    let once = stubs.filter(pred);
    assert forall|i: int| 0 <= i < once.len() implies pred(#[trigger] once[i]) by {
        stubs.lemma_filter_pred(pred, i);
    }
    lemma_filter_all(once, pred);
}

/// A pathspec matches the path it names (trailing slashes ignored) and every
/// path under it as a directory, and no other path that merely starts with
/// its text.
pub proof fn path_match_law(d: Seq<char>, rest: Seq<char>, c: char)
    requires
        d.len() > 0,
        d.last() != '/',
        c != '/',
    ensures
        path_matches_spec(d, d),
        path_matches_spec(d, d.push('/')),
        path_matches_spec(d.push('/') + rest, d),
        path_matches_spec(d.push('/') + rest, d.push('/')),
        !path_matches_spec(d.push(c) + rest, d),
{
    assert(trim_slashes(d) == d);
    assert(d.push('/').drop_last() =~= d);
    assert(trim_slashes(d.push('/')) == d);
    let p = d.push('/') + rest;
    assert(p.take(d.len() as int) =~= d);
    assert(p[d.len() as int] == '/');
    let x = d.push(c) + rest;
    assert(x[d.len() as int] == c);
    assert(x != d) by {
        assert(x.len() > d.len());
    }
}

/// A file is kept exactly when some filter, whichever its place in the list,
/// matches its path or its rename source; an empty list keeps every file.
pub proof fn filter_keep_law(files: Seq<DiffFile>, filters: Seq<Seq<char>>, f: DiffFile, k: int)
    requires
        files.contains(f),
    ensures
        filters.len() == 0 ==> kept_files(files, filters).contains(f),
        0 <= k < filters.len() && (path_matches_spec(f.path@, filters[k])
            || (f.previous_path matches Some(p) && path_matches_spec(p@, filters[k])))
            ==> kept_files(files, filters).contains(f),
        kept_files(files, filters).contains(f) && filters.len() > 0 ==> exists|j: int| 0 <= j < filters.len()
            && (path_matches_spec(f.path@, #[trigger] filters[j])
                || (f.previous_path matches Some(p) && path_matches_spec(p@, filters[j]))),
{
    let pred = |g: DiffFile| keeps(filters, g.path@, opt_view(g.previous_path));
    let kept = files.filter(pred);
    let i = choose|i: int| 0 <= i < files.len() && files[i] == f;
    files.filter_lemma(pred);
    assert(pred(files[i]) ==> kept.contains(files[i]));
    if kept.contains(f) {
        let j = choose|j: int| 0 <= j < kept.len() && kept[j] == f;
        assert(pred(kept[j]));
    }
    if 0 <= k < filters.len() && (path_matches_spec(f.path@, filters[k])
        || (f.previous_path matches Some(p) && path_matches_spec(p@, filters[k]))) {
        assert(opt_view(f.previous_path) matches Some(p) ==> f.previous_path matches Some(pp) && p == pp@);
        assert(any_filter_matches(filters, f.path@, opt_view(f.previous_path)));
    }
}

/// The same for enumeration stubs: a stub is kept exactly when some filter, whichever its place in the
/// list, matches its path or its rename source.
pub proof fn stub_keep_law(stubs: Seq<FileStub>, filters: Seq<Seq<char>>, f: FileStub, k: int)
    requires
        stubs.contains(f),
    ensures
        filters.len() == 0 ==> kept_stubs(stubs, filters).contains(f),
        0 <= k < filters.len() && (path_matches_spec(f.path@, filters[k])
            || (f.previous_path matches Some(p) && path_matches_spec(p@, filters[k])))
            ==> kept_stubs(stubs, filters).contains(f),
        kept_stubs(stubs, filters).contains(f) && filters.len() > 0 ==> exists|j: int| 0 <= j < filters.len()
            && (path_matches_spec(f.path@, #[trigger] filters[j])
                || (f.previous_path matches Some(p) && path_matches_spec(p@, filters[j]))),
{
    let pred = |g: FileStub| keeps(filters, g.path@, opt_view(g.previous_path));
    let kept = stubs.filter(pred);
    let i = choose|i: int| 0 <= i < stubs.len() && stubs[i] == f;
    stubs.filter_lemma(pred);
    assert(pred(stubs[i]) ==> kept.contains(stubs[i]));
    if kept.contains(f) {
        let j = choose|j: int| 0 <= j < kept.len() && kept[j] == f;
        assert(pred(kept[j]));
    }
    if 0 <= k < filters.len() && (path_matches_spec(f.path@, filters[k])
        || (f.previous_path matches Some(p) && path_matches_spec(p@, filters[k]))) {
        assert(opt_view(f.previous_path) matches Some(p) ==> f.previous_path matches Some(pp) && p == pp@);
        assert(any_filter_matches(filters, f.path@, opt_view(f.previous_path)));
    }
}

} // verus!
