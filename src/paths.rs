//! Slash-separated paths as character sequences: file names, stems and
//! extensions, parents, components, and the common ancestor of many paths.

use vstd::prelude::*;
use crate::text::{append_chars, chars_of, same_chars, string_of};

verus! {

/// Index of the last occurrence of `c` in `s`, or -1.
pub open spec fn last_index(s: Seq<char>, c: char) -> int
    decreases s.len(),
{
    if s.len() == 0 {
        -1
    } else if s.last() == c {
        s.len() - 1
    } else {
        last_index(s.drop_last(), c)
    }
}

proof fn lemma_last_index(s: Seq<char>, c: char)
    ensures
        -1 <= last_index(s, c) < s.len(),
        last_index(s, c) >= 0 ==> s[last_index(s, c)] == c,
        forall|j: int| last_index(s, c) < j < s.len() ==> s[j] != c,
    decreases s.len(),
{
    if s.len() > 0 && s.last() != c {
        lemma_last_index(s.drop_last(), c);
        assert forall|j: int| last_index(s, c) < j < s.len() implies s[j] != c by {
            if j < s.len() - 1 {
                assert(s.drop_last()[j] == s[j]);
            }
        }
    }
}

/// Index of the last `c` in `s`.
pub fn find_last(s: &Vec<char>, c: char) -> (r: Option<usize>)
    ensures
        r matches Some(k) ==> k == last_index(s@, c),
        r is None ==> last_index(s@, c) == -1,
{
    let mut i: usize = s.len();
    assert(s@.subrange(0, i as int) =~= s@);
    while i > 0
        invariant
            i <= s@.len(),
            last_index(s@, c) == last_index(s@.subrange(0, i as int), c),
        decreases i,
    {
        assert(s@.subrange(0, i as int).drop_last() =~= s@.subrange(0, i - 1));
        if s[i - 1] == c {
            return Some(i - 1);
        }
        i = i - 1;
    }
    None
}

/// The text after the last `/`.
pub open spec fn file_name_of(p: Seq<char>) -> Seq<char> {
    p.subrange(last_index(p, '/') + 1, p.len() as int)
}

/// The text before the last `/`: `/` itself for a file at the root, empty
/// when there is no `/`.
pub open spec fn parent_of(p: Seq<char>) -> Seq<char> {
    let k = last_index(p, '/');
    if k > 0 {
        p.subrange(0, k)
    } else if k == 0 {
        seq!['/']
    } else {
        Seq::empty()
    }
}

/// The text after the last `.` of a file name, unless the name starts with
/// its only dot or has none.
pub open spec fn extension_of(name: Seq<char>) -> Option<Seq<char>> {
    let k = last_index(name, '.');
    if k > 0 {
        Some(name.subrange(k + 1, name.len() as int))
    } else {
        None
    }
}

/// The file name without its extension.
pub open spec fn stem_of(name: Seq<char>) -> Seq<char> {
    let k = last_index(name, '.');
    if k > 0 {
        name.subrange(0, k)
    } else {
        name
    }
}

fn slice_chars(s: &Vec<char>, from: usize, to: usize) -> (r: Vec<char>)
    requires
        from <= to <= s@.len(),
    ensures
        r@ == s@.subrange(from as int, to as int),
{
    let mut out: Vec<char> = Vec::new();
    let mut i: usize = from;
    while i < to
        invariant
            from <= i <= to <= s@.len(),
            out@ == s@.subrange(from as int, i as int),
        decreases to - i,
    {
        out.push(s[i]);
        assert(s@.subrange(from as int, i + 1) =~= s@.subrange(from as int, i as int).push(s@[i as int]));
        i = i + 1;
    }
    out
}

/// The file name of a path.
pub fn file_name(path: &str) -> (r: String)
    ensures
        r@ == file_name_of(path@),
{
    let p = chars_of(path);
    proof {
        lemma_last_index(p@, '/');
    }
    let from: usize = match find_last(&p, '/') {
        Some(k) => {
            assert(k < p.len());
            k + 1
        },
        None => 0,
    };
    string_of(&slice_chars(&p, from, p.len()))
}

/// The directory part of a path.
pub fn parent(path: &str) -> (r: String)
    ensures
        r@ == parent_of(path@),
{
    let p = chars_of(path);
    proof {
        lemma_last_index(p@, '/');
    }
    match find_last(&p, '/') {
        Some(k) => if k > 0 {
            string_of(&slice_chars(&p, 0, k))
        } else {
            let mut v: Vec<char> = Vec::new();
            v.push('/');
            string_of(&v)
        },
        None => String::new(),
    }
}

/// The extension of a file name.
pub fn extension(name: &str) -> (r: Option<String>)
    ensures
        match r {
            Some(e) => extension_of(name@) == Some(e@),
            None => extension_of(name@) is None,
        },
{
    let p = chars_of(name);
    proof {
        lemma_last_index(p@, '.');
    }
    match find_last(&p, '.') {
        Some(k) => if k > 0 {
            assert(k < p.len());
            Some(string_of(&slice_chars(&p, k + 1, p.len())))
        } else {
            None
        },
        None => None,
    }
}

/// The file name without its extension.
pub fn stem(name: &str) -> (r: String)
    ensures
        r@ == stem_of(name@),
{
    let p = chars_of(name);
    proof {
        lemma_last_index(p@, '.');
    }
    match find_last(&p, '.') {
        Some(k) => if k > 0 {
            string_of(&slice_chars(&p, 0, k))
        } else {
            string_of(&p)
        },
        None => string_of(&p),
    }
}

/// `dir` and `name` joined by one `/`.
pub open spec fn join_spec(dir: Seq<char>, name: Seq<char>) -> Seq<char> {
    if dir.len() > 0 && dir.last() == '/' {
        dir + name
    } else {
        dir + seq!['/'] + name
    }
}

/// `dir` and `name` joined by one `/`.
pub fn join(dir: &str, name: &str) -> (r: String)
    ensures
        r@ == join_spec(dir@, name@),
{
    let mut d = chars_of(dir);
    let n = chars_of(name);
    if !(d.len() > 0 && d[d.len() - 1] == '/') {
        d.push('/');
    }
    append_chars(&mut d, &n);
    string_of(&d)
}

// ---------------------------------------------------------------------------
// Components and common ancestors
// ---------------------------------------------------------------------------
/// Length of the run of characters other than `/` at the start of `s`.
pub open spec fn run_len(s: Seq<char>) -> nat
    decreases s.len(),
{
    if s.len() == 0 || s[0] == '/' {
        0
    } else {
        1 + run_len(s.drop_first())
    }
}

/// The non-empty segments of `s` between slashes.
pub open spec fn segments(s: Seq<char>) -> Seq<Seq<char>>
    decreases s.len()
    via segments_decreases
{
    if s.len() == 0 {
        Seq::empty()
    } else if s[0] == '/' {
        segments(s.drop_first())
    } else {
        seq![s.subrange(0, run_len(s) as int)] + segments(s.subrange(run_len(s) as int, s.len() as int))
    }
}

#[via_fn]
proof fn segments_decreases(s: Seq<char>) {
    lemma_run_len(s);
}

proof fn lemma_run_len(s: Seq<char>)
    ensures
        run_len(s) <= s.len(),
        s.len() > 0 && s[0] != '/' ==> run_len(s) > 0,
        forall|j: int| 0 <= j < run_len(s) ==> s[j] != '/',
        run_len(s) < s.len() ==> s[run_len(s) as int] == '/',
    decreases s.len(),
{
    if s.len() > 0 && s[0] != '/' {
        lemma_run_len(s.drop_first());
        assert forall|j: int| 0 <= j < run_len(s) implies s[j] != '/' by {
            if j > 0 {
                assert(s.drop_first()[j - 1] == s[j]);
            }
        }
    }
}

/// The components of a path: `/` for an absolute path, then its segments.
pub open spec fn components(p: Seq<char>) -> Seq<Seq<char>> {
    if p.len() > 0 && p[0] == '/' {
        seq![seq!['/']] + segments(p)
    } else {
        segments(p)
    }
}

/// Components joined back into a path.
pub open spec fn join_components(c: Seq<Seq<char>>) -> Seq<char> {
    if c.len() > 0 && c[0] == seq!['/'] {
        seq!['/'] + join_segments(c.drop_first())
    } else {
        join_segments(c)
    }
}

/// Segments joined by `/`.
pub open spec fn join_segments(c: Seq<Seq<char>>) -> Seq<char>
    decreases c.len(),
{
    if c.len() == 0 {
        Seq::empty()
    } else if c.len() == 1 {
        c[0]
    } else {
        join_segments(c.drop_last()) + seq!['/'] + c.last()
    }
}

/// Number of leading components two lists share.
pub open spec fn common_prefix(a: Seq<Seq<char>>, b: Seq<Seq<char>>) -> nat
    decreases a.len(),
{
    if a.len() == 0 || b.len() == 0 || a[0] != b[0] {
        0
    } else {
        1 + common_prefix(a.drop_first(), b.drop_first())
    }
}

/// Number of leading components that the first path shares with every
/// path of `paths[1..n]`.
pub open spec fn shared_prefix(paths: Seq<Seq<char>>, n: int) -> nat
    decreases n,
{
    if n <= 1 {
        components(paths[0]).len()
    } else {
        let c = shared_prefix(paths, n - 1);
        let m = common_prefix(components(paths[n - 1]), components(paths[0]));
        if m < c {
            m
        } else {
            c
        }
    }
}

/// The path made of the components that all the paths share, if any.
pub open spec fn common_ancestor(paths: Seq<Seq<char>>) -> Option<Seq<char>> {
    if paths.len() == 0 || shared_prefix(paths, paths.len() as int) == 0 {
        None
    } else {
        Some(join_components(components(paths[0]).subrange(0, shared_prefix(paths, paths.len() as int) as int)))
    }
}

/// The components of a path.
pub fn path_components(path: &str) -> (r: Vec<Vec<char>>)
    ensures
        r@.map_values(|c: Vec<char>| c@) == components(path@),
{
    let p = chars_of(path);
    let mut out: Vec<Vec<char>> = Vec::new();
    if p.len() > 0 && p[0] == '/' {
        let mut root: Vec<char> = Vec::new();
        root.push('/');
        out.push(root);
    }
    let ghost pre = out@.map_values(|c: Vec<char>| c@);
    assert(p@.subrange(0, p@.len() as int) =~= p@);
    let mut i: usize = 0;
    while i < p.len()
        invariant
            i <= p@.len(),
            out@.map_values(|c: Vec<char>| c@) + segments(p@.subrange(i as int, p@.len() as int)) == components(p@),
        decreases p@.len() - i,
    {
        let ghost rest = p@.subrange(i as int, p@.len() as int);
        let ghost before = out@;
        if p[i] == '/' {
            assert(rest.drop_first() =~= p@.subrange(i + 1, p@.len() as int));
            i = i + 1;
        } else {
            let mut j: usize = i;
            let mut seg: Vec<char> = Vec::new();
            while j < p.len() && p[j] != '/'
                invariant
                    i <= j <= p@.len(),
                    seg@ == p@.subrange(i as int, j as int),
                    forall|k: int| i <= k < j ==> p@[k] != '/',
                decreases p@.len() - j,
            {
                seg.push(p[j]);
                assert(p@.subrange(i as int, j + 1) =~= p@.subrange(i as int, j as int).push(p@[j as int]));
                j = j + 1;
            }
            proof {
                lemma_run_len(rest);
                assert(run_len(rest) == j - i) by {
                    if run_len(rest) < j - i {
                        assert(rest[run_len(rest) as int] == p@[i + run_len(rest)]);
                    } else if run_len(rest) > j - i {
                        assert(rest[j - i] == p@[j as int]);
                    }
                }
                assert(rest.subrange(0, run_len(rest) as int) =~= seg@);
                assert(rest.subrange(run_len(rest) as int, rest.len() as int) =~= p@.subrange(j as int, p@.len() as int));
            }
            out.push(seg);
            proof {
                assert(out@.map_values(|c: Vec<char>| c@) =~= before.map_values(|c: Vec<char>| c@).push(seg@));
                assert(before.map_values(|c: Vec<char>| c@).push(seg@) + segments(p@.subrange(j as int, p@.len() as int))
                    =~= before.map_values(|c: Vec<char>| c@) + (seq![seg@] + segments(p@.subrange(j as int, p@.len() as int))));
            }
            i = j;
        }
    }
    assert(p@.subrange(p@.len() as int, p@.len() as int) =~= Seq::<char>::empty());
    assert(out@.map_values(|c: Vec<char>| c@) + Seq::<Seq<char>>::empty() =~= out@.map_values(|c: Vec<char>| c@));
    proof {
        if p@.len() > 0 && p@[0] == '/' {
        } else {
            assert(pre =~= Seq::<Seq<char>>::empty());
        }
    }
    out
}

/// Number of leading components two lists share.
fn shared_count(a: &Vec<Vec<char>>, b: &Vec<Vec<char>>) -> (r: usize)
    ensures
        r == common_prefix(a@.map_values(|c: Vec<char>| c@), b@.map_values(|c: Vec<char>| c@)),
{
    let ghost av = a@.map_values(|c: Vec<char>| c@);
    let ghost bv = b@.map_values(|c: Vec<char>| c@);
    let mut i: usize = 0;
    assert(av.subrange(0, av.len() as int) =~= av);
    assert(bv.subrange(0, bv.len() as int) =~= bv);
    while i < a.len() && i < b.len() && same_chars(&a[i], &b[i])
        invariant
            i <= a@.len(),
            i <= b@.len(),
            av == a@.map_values(|c: Vec<char>| c@),
            bv == b@.map_values(|c: Vec<char>| c@),
            common_prefix(av, bv) == i + common_prefix(av.subrange(i as int, av.len() as int), bv.subrange(i as int, bv.len() as int)),
        decreases a@.len() - i,
    {
        let ghost ra = av.subrange(i as int, av.len() as int);
        let ghost rb = bv.subrange(i as int, bv.len() as int);
        assert(ra.drop_first() =~= av.subrange(i + 1, av.len() as int));
        assert(rb.drop_first() =~= bv.subrange(i + 1, bv.len() as int));
        assert(ra[0] == a@[i as int]@ && rb[0] == b@[i as int]@);
        i = i + 1;
    }
    proof {
        let ra = av.subrange(i as int, av.len() as int);
        let rb = bv.subrange(i as int, bv.len() as int);
        if i < a.len() && i < b.len() {
            assert(ra[0] == a@[i as int]@);
            assert(rb[0] == b@[i as int]@);
        }
    }
    i
}

/// Components joined back into a path.
fn join_parts(parts: &Vec<Vec<char>>, n: usize) -> (r: Vec<char>)
    requires
        n <= parts@.len(),
    ensures
        r@ == join_components(parts@.map_values(|c: Vec<char>| c@).subrange(0, n as int)),
{
    let ghost all = parts@.map_values(|c: Vec<char>| c@).subrange(0, n as int);
    let mut out: Vec<char> = Vec::new();
    let mut start: usize = 0;
    let rooted = n > 0 && parts[0].len() == 1 && parts[0][0] == '/';
    proof {
        if n > 0 {
            assert(all[0] == parts@[0]@);
            if parts@[0]@.len() == 1 && parts@[0]@[0] == '/' {
                assert(parts@[0]@ =~= seq!['/']);
            }
        }
    }
    if rooted {
        out.push('/');
        start = 1;
    }
    let ghost segs = if rooted { all.drop_first() } else { all };
    let mut i: usize = start;
    while i < n
        invariant
            start <= i <= n <= parts@.len(),
            start == (if rooted { 1usize } else { 0usize }),
            segs == all.subrange(start as int, n as int),
            all == parts@.map_values(|c: Vec<char>| c@).subrange(0, n as int),
            out@ == (if rooted { seq!['/'] } else { Seq::<char>::empty() }) + join_segments(segs.subrange(0, i - start)),
        decreases n - i,
    {
        let ghost prev = out@;
        if i > start {
            out.push('/');
        }
        append_chars(&mut out, &parts[i]);
        proof {
            let k = (i - start) as int;
            let t = segs.subrange(0, k + 1);
            assert(t.drop_last() =~= segs.subrange(0, k));
            assert(t.last() == parts@[i as int]@);
            if k == 0 {
                assert(join_segments(segs.subrange(0, 0)) =~= Seq::<char>::empty());
                assert(join_segments(t) == t[0]);
            }
            assert(out@ =~= (if rooted { seq!['/'] } else { Seq::<char>::empty() }) + join_segments(t));
        }
        i = i + 1;
    }
    proof {
        assert(segs.subrange(0, n - start) =~= segs);
        if rooted {
            assert(all.drop_first() =~= all.subrange(1, n as int));
        } else {
            assert(all.subrange(0, n as int) =~= all);
            assert(out@ =~= join_segments(all));
        }
    }
    out
}

/// The deepest directory that contains every path, by whole components;
/// `None` for an empty list or when the paths share no component.
pub fn find_common_ancestor(paths: &Vec<String>) -> (r: Option<String>)
    ensures
        match r {
            Some(s) => common_ancestor(paths@.map_values(|p: String| p@)) == Some(s@),
            None => common_ancestor(paths@.map_values(|p: String| p@)) is None,
        },
{
    let ghost pv = paths@.map_values(|p: String| p@);
    if paths.len() == 0 {
        return None;
    }
    let first = path_components(paths[0].as_str());
    let mut common: usize = first.len();
    let mut i: usize = 1;
    while i < paths.len()
        invariant
            1 <= i <= paths@.len(),
            pv == paths@.map_values(|p: String| p@),
            first@.map_values(|c: Vec<char>| c@) == components(pv[0]),
            common == shared_prefix(pv, i as int),
            common <= first@.len(),
        decreases paths@.len() - i,
    {
        let comps = path_components(paths[i].as_str());
        let m = shared_count(&comps, &first);
        assert(pv[i as int] == paths@[i as int]@);
        if m < common {
            common = m;
        }
        i = i + 1;
    }
    if common == 0 {
        None
    } else {
        let joined = join_parts(&first, common);
        Some(string_of(&joined))
    }
}

/// With one path, the common ancestor is the path rebuilt from its
/// components; paths whose first components differ have none.
pub proof fn law_common_ancestor(p: Seq<char>, q: Seq<char>)
    ensures
        components(p).len() > 0 ==> common_ancestor(seq![p]) == Some(join_components(components(p))),
        components(p).len() > 0 && components(q).len() > 0 && components(p)[0] != components(q)[0]
            ==> common_ancestor(seq![p, q]) is None,
{
    assert(components(p).subrange(0, components(p).len() as int) =~= components(p));
    let two = seq![p, q];
    assert(two[0] == p && two[1] == q);
}

} // verus!
