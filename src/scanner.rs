//! Media inventory: platform path mapping, image-sequence detection,
//! content hashes and duplicate groups.

use vstd::prelude::*;
use crate::model::MediaType;
use crate::paths::{file_name, file_name_of, stem, stem_of};
use crate::text::{chars_of, has_prefix, starts_with, str_eq, string_of};

verus! {

broadcast use vstd::string::group_string_axioms;

/// Whether a file stem ends in a run of at least three decimal digits, as
/// the pattern `\d{3,}$` matches it.
pub uninterp spec fn ends_in_frame_number(stem: Seq<char>) -> bool;

/// The 64-bit XXH3 hash of the bytes.
pub uninterp spec fn xxh3_of(data: Seq<u8>) -> u64;

/// Relies on `regex::Regex::is_match` with the constant pattern `\d{3,}$`,
/// which compiles.
#[verifier::external_body]
fn matches_frame_number(stem: &str) -> (r: bool)
    ensures
        r == ends_in_frame_number(stem@),
{
    regex::Regex::new(r"\d{3,}$").map(|re| re.is_match(stem)).unwrap_or(false)
}

/// Relies on `xxhash_rust::xxh3::xxh3_64`.
#[verifier::external_body]
fn xxh3(data: &[u8]) -> (r: u64)
    ensures
        r == xxh3_of(data@),
{
    xxhash_rust::xxh3::xxh3_64(data)
}

/// `v` as sixteen lower-case hexadecimal digits.
fn hex_text(v: u64) -> (r: String)
    ensures
        r@ == hex16(v as nat),
{
    let mut out: Vec<char> = Vec::new();
    let mut p: u64 = 1152921504606846976;
    proof {
        reveal_with_fuel(pow16, 16);
        assert(pow16(15) == 1152921504606846976);
    }
    let mut i: usize = 0;
    while i < 16
        invariant
            i <= 16,
            i < 16 ==> p as nat == pow16((15 - i) as nat),
            p > 0,
            out@ =~= Seq::new(i as nat, |k: int| hex_digit(((v as nat / pow16((15 - k) as nat)) % 16) as nat)),
        decreases 16 - i,
    {
        let d: u64 = (v / p) % 16;
        let c: char = if d < 10 {
            ((d + 48) as u8) as char
        } else {
            ((d + 87) as u8) as char
        };
        assert(c == hex_digit(((v as nat / pow16((15 - i) as nat)) % 16) as nat));
        out.push(c);
        proof {
            if i + 1 < 16 {
                let k = (15 - i) as nat;
                assert(pow16(k) == 16 * pow16((k - 1) as nat));
                assert((16 * pow16((k - 1) as nat)) / 16 == pow16((k - 1) as nat)) by (nonlinear_arith);
                lemma_pow16_positive((k - 1) as nat);
            }
        }
        if i + 1 < 16 {
            p = p / 16;
        }
        i = i + 1;
    }
    string_of(&out)
}

proof fn lemma_pow16_positive(k: nat)
    ensures
        pow16(k) > 0,
    decreases k,
{
    if k > 0 {
        lemma_pow16_positive((k - 1) as nat);
    }
}


/// Whether the file at `path` looks like one frame of an image sequence: its
/// stem ends in a frame number.
pub fn is_image_sequence(path: &str) -> (r: bool)
    ensures
        r == ends_in_frame_number(stem_of(file_name_of(path@))),
{
    let name = file_name(path);
    let s = stem(name.as_str());
    matches_frame_number(s.as_str())
}

// ---------------------------------------------------------------------------
// Hashes
// ---------------------------------------------------------------------------
pub open spec fn hex_digit(d: nat) -> char {
    if d < 10 {
        ((d + 48) as u8) as char
    } else {
        ((d + 87) as u8) as char
    }
}

/// `v` as sixteen lower-case hexadecimal digits.
pub open spec fn hex16(v: nat) -> Seq<char> {
    Seq::new(16, |i: int| hex_digit(((v / pow16((15 - i) as nat)) % 16) as nat))
}

pub open spec fn pow16(k: nat) -> nat
    decreases k,
{
    if k == 0 {
        1
    } else {
        16 * pow16((k - 1) as nat)
    }
}

/// The hash of a file's contents, as sixteen hexadecimal digits.
pub fn compute_full_hash(data: &[u8]) -> (r: String)
    ensures
        r@ == hex16(xxh3_of(data@) as nat),
{
    hex_text(xxh3(data))
}

/// The bytes hashed for a quick comparison: the file's first chunk, its last
/// chunk when it has one apart from the first, and its size in eight
/// little-endian bytes.
pub open spec fn partial_input(first: Seq<u8>, last: Seq<u8>, size: u64) -> Seq<u8> {
    first + last + Seq::new(8, |i: int| ((size as nat / pow256(i as nat)) % 256) as u8)
}

pub open spec fn pow256(k: nat) -> nat
    decreases k,
{
    if k == 0 {
        1
    } else {
        256 * pow256((k - 1) as nat)
    }
}

/// The quick hash of a file from its first and last chunks and its size.
pub fn compute_partial_hash(first: &Vec<u8>, last: &Vec<u8>, size: u64) -> (r: String)
    ensures
        r@ == hex16(xxh3_of(partial_input(first@, last@, size)) as nat),
{
    let mut data: Vec<u8> = Vec::new();
    let mut i: usize = 0;
    while i < first.len()
        invariant
            i <= first@.len(),
            data@ == first@.subrange(0, i as int),
        decreases first@.len() - i,
    {
        data.push(first[i]);
        assert(first@.subrange(0, i + 1) =~= first@.subrange(0, i as int).push(first@[i as int]));
        i = i + 1;
    }
    assert(first@.subrange(0, first@.len() as int) =~= first@);
    let mut j: usize = 0;
    while j < last.len()
        invariant
            j <= last@.len(),
            data@ == first@ + last@.subrange(0, j as int),
        decreases last@.len() - j,
    {
        data.push(last[j]);
        assert(last@.subrange(0, j + 1) =~= last@.subrange(0, j as int).push(last@[j as int]));
        j = j + 1;
    }
    assert(last@.subrange(0, last@.len() as int) =~= last@);
    let mut rest: u64 = size;
    let mut k: usize = 0;
    assert(pow256(0) == 1);
    assert(size as nat / 1 == size as nat);
    assert(first@ + last@ =~= first@ + last@ + Seq::new(0, |i: int| ((size as nat / pow256(i as nat)) % 256) as u8));
    while k < 8
        invariant
            k <= 8,
            rest as nat == size as nat / pow256(k as nat),
            data@ == first@ + last@ + Seq::new(k as nat, |i: int| ((size as nat / pow256(i as nat)) % 256) as u8),
        decreases 8 - k,
    {
        proof {
            assert(pow256((k + 1) as nat) == 256 * pow256(k as nat));
            assert(pow256(k as nat) > 0) by {
                lemma_pow256_positive(k as nat);
            }
            vstd::arithmetic::div_mod::lemma_div_denominator(size as int, pow256(k as nat) as int, 256);
        }
        data.push((rest % 256) as u8);
        rest = rest / 256;
        assert(data@ =~= first@ + last@ + Seq::new((k + 1) as nat, |i: int| ((size as nat / pow256(i as nat)) % 256) as u8));
        k = k + 1;
    }
    hex_text(xxh3(data.as_slice()))
}

proof fn lemma_pow256_positive(k: nat)
    ensures
        pow256(k) > 0,
    decreases k,
{
    if k > 0 {
        lemma_pow256_positive((k - 1) as nat);
    }
}

// ---------------------------------------------------------------------------
// Platform paths
// ---------------------------------------------------------------------------
/// The same folder as Windows and macOS name it.
#[derive(Debug, Clone)]
pub struct PathMapping {
    pub windows_path: String,
    pub mac_path: String,
}

/// `path` under the first mapping whose Windows or macOS prefix it starts
/// with, the prefix swapped for the other platform's; else `path` with its
/// backslashes turned into slashes.
pub open spec fn normalized(path: Seq<char>, maps: Seq<PathMapping>) -> Seq<char>
    decreases maps.len(),
{
    if maps.len() == 0 {
        path.map_values(|c: char| if c == '\\' { '/' } else { c })
    } else if starts_with(path, maps[0].windows_path@) {
        maps[0].mac_path@ + path.subrange(maps[0].windows_path@.len() as int, path.len() as int)
    } else if starts_with(path, maps[0].mac_path@) {
        maps[0].windows_path@ + path.subrange(maps[0].mac_path@.len() as int, path.len() as int)
    } else {
        normalized(path, maps.drop_first())
    }
}

fn swap_prefix(p: &Vec<char>, old_len: usize, new_prefix: &str) -> (r: String)
    requires
        old_len <= p@.len(),
    ensures
        r@ == new_prefix@ + p@.subrange(old_len as int, p@.len() as int),
{
    let mut v = chars_of(new_prefix);
    let ghost v0 = v@;
    let mut i: usize = old_len;
    while i < p.len()
        invariant
            old_len <= i <= p@.len(),
            v@ == v0 + p@.subrange(old_len as int, i as int),
        decreases p@.len() - i,
    {
        v.push(p[i]);
        assert(p@.subrange(old_len as int, i + 1) =~= p@.subrange(old_len as int, i as int).push(p@[i as int]));
        i = i + 1;
    }
    string_of(&v)
}

/// Maps a path between the platforms' names for the same folders.
pub fn normalize_path(path: &str, mappings: &Vec<PathMapping>) -> (r: String)
    ensures
        r@ == normalized(path@, mappings@),
{
    let p = chars_of(path);
    let mut i: usize = 0;
    assert(mappings@.subrange(0, mappings@.len() as int) =~= mappings@);
    while i < mappings.len()
        invariant
            i <= mappings@.len(),
            normalized(path@, mappings@) == normalized(path@, mappings@.subrange(i as int, mappings@.len() as int)),
            p@ == path@,
        decreases mappings@.len() - i,
    {
        let ghost rest = mappings@.subrange(i as int, mappings@.len() as int);
        assert(rest[0] == mappings@[i as int]);
        assert(rest.drop_first() =~= mappings@.subrange(i + 1, mappings@.len() as int));
        let w = chars_of(mappings[i].windows_path.as_str());
        let m = chars_of(mappings[i].mac_path.as_str());
        if has_prefix(&p, &w) {
            return swap_prefix(&p, w.len(), mappings[i].mac_path.as_str());
        }
        if has_prefix(&p, &m) {
            return swap_prefix(&p, m.len(), mappings[i].windows_path.as_str());
        }
        i = i + 1;
    }
    let mut out: Vec<char> = Vec::new();
    let mut j: usize = 0;
    while j < p.len()
        invariant
            j <= p@.len(),
            out@ == p@.subrange(0, j as int).map_values(|c: char| if c == '\\' { '/' } else { c }),
        decreases p@.len() - j,
    {
        out.push(if p[j] == '\\' { '/' } else { p[j] });
        assert(p@.subrange(0, j + 1).map_values(|c: char| if c == '\\' { '/' } else { c }) =~= p@.subrange(0, j as int).map_values(
            |c: char| if c == '\\' { '/' } else { c },
        ).push(if p@[j as int] == '\\' { '/' } else { p@[j as int] }));
        j = j + 1;
    }
    assert(p@.subrange(0, p@.len() as int) =~= p@);
    assert(mappings@.subrange(mappings@.len() as int, mappings@.len() as int) =~= Seq::<PathMapping>::empty());
    string_of(&out)
}

// ---------------------------------------------------------------------------
// Duplicates
// ---------------------------------------------------------------------------
/// A media file as the duplicate search sees it.
#[derive(Debug, Clone)]
pub struct HashedItem {
    pub object_id: String,
    pub file_size: u64,
    pub is_online: bool,
    /// The quick hash, when the file could be read.
    pub hash: Option<String>,
}

/// Media files with equal size and equal quick hash.
#[derive(Debug, Clone)]
pub struct DuplicateGroup {
    pub hash: String,
    pub file_size: u64,
    pub items: Vec<String>,
    /// Where the members stand in the input, in increasing order.
    pub positions: Vec<usize>,
}

/// Whether a file takes part in the search: online, non-empty, hashed.
pub open spec fn eligible(a: HashedItem) -> bool {
    a.is_online && a.file_size > 0 && a.hash is Some
}

/// Whether two files are taken for copies of each other.
pub open spec fn same_content(a: HashedItem, b: HashedItem) -> bool {
    eligible(a) && eligible(b) && a.file_size == b.file_size && a.hash.unwrap()@ == b.hash.unwrap()@
}

/// The first position, from `l` on, of a copy of file `k`; `k` when none
/// comes before it.
pub open spec fn first_copy(items: Seq<HashedItem>, k: int, l: int) -> int
    decreases k - l,
{
    if l >= k {
        k
    } else if same_content(items[l], items[k]) {
        l
    } else {
        first_copy(items, k, l + 1)
    }
}

/// The first file that file `k` is a copy of, or `k` itself.
pub open spec fn leader(items: Seq<HashedItem>, k: int) -> int {
    first_copy(items, k, 0)
}

proof fn lemma_first_copy(items: Seq<HashedItem>, k: int, l: int)
    requires
        0 <= l <= k < items.len(),
    ensures
        l <= first_copy(items, k, l) <= k,
        first_copy(items, k, l) < k ==> same_content(items[first_copy(items, k, l)], items[k]),
        forall|m: int| l <= m < first_copy(items, k, l) ==> !same_content(#[trigger] items[m], items[k]),
    decreases k - l,
{
    if l < k && !same_content(items[l], items[k]) {
        lemma_first_copy(items, k, l + 1);
    }
}

/// Copies have the same leader.
proof fn lemma_same_leader(items: Seq<HashedItem>, j: int, k: int)
    requires
        0 <= j < items.len(),
        0 <= k < items.len(),
        same_content(items[j], items[k]),
    ensures
        leader(items, j) == leader(items, k),
{
    lemma_first_copy(items, j, 0);
    lemma_first_copy(items, k, 0);
    let lj = leader(items, j);
    let lk = leader(items, k);
    if lj < lk {
        // lj is a copy of j (or j itself), hence of k, before lk.
        assert(same_content(items[lj], items[k]));
    } else if lk < lj {
        assert(same_content(items[lk], items[j]));
    }
}

/// The group of the file at `l`: the positions from `l` on of its copies.
pub open spec fn group_ok(items: Seq<HashedItem>, g: DuplicateGroup) -> bool {
    let pos = g.positions@;
    let l = pos[0] as int;
    &&& pos.len() >= 2
    &&& pos.len() == g.items@.len()
    &&& eligible(items[l]) && leader(items, l) == l
    &&& g.file_size == items[l].file_size && g.hash@ == items[l].hash.unwrap()@
    &&& forall|t: int| 0 <= t < pos.len() ==> (#[trigger] pos[t]) < items.len() && g.items@[t] == items[pos[t] as int].object_id
        && leader(items, pos[t] as int) == l && (t > 0 ==> same_content(items[l], items[pos[t] as int]))
    &&& forall|t: int, u: int| 0 <= t < u < pos.len() ==> pos[t] < pos[u]
    &&& forall|k: int| l <= k < items.len() && (k == l || same_content(items[l], items[k])) ==> exists|t: int| 0 <= t < pos.len() && #[trigger] pos[t] == k
}

/// Groups online, non-empty files that share size and quick hash; each
/// group lists two files or more, in input order, each file is listed in at
/// most one group, and any two copies are listed together.
pub fn find_duplicates(items: &Vec<HashedItem>) -> (r: Vec<DuplicateGroup>)
    ensures
        forall|g: int| 0 <= g < r@.len() ==> group_ok(items@, #[trigger] r@[g]),
        forall|g: int, h: int| 0 <= g < h < r@.len() ==> r@[g].positions@[0] < r@[h].positions@[0],
        forall|i: int, j: int| 0 <= i < j < items@.len() && same_content(items@[i], items@[j]) ==> exists|g: int|
            0 <= g < r@.len() && r@[g].positions@[0] == leader(items@, i) && group_ok(items@, r@[g]),
{
    let n = items.len();
    let mut taken: Vec<bool> = Vec::new();
    let mut t: usize = 0;
    while t < n
        invariant
            t <= n,
            taken@.len() == t,
            forall|k: int| 0 <= k < t ==> !(#[trigger] taken@[k]),
        decreases n - t,
    {
        taken.push(false);
        t = t + 1;
    }
    let mut groups: Vec<DuplicateGroup> = Vec::new();
    let mut i: usize = 0;
    proof {
        assert forall|k: int| 0 <= k < n implies leader(items@, k) >= 0 by {
            lemma_first_copy(items@, k, 0);
        }
    }
    while i < n
        invariant
            n == items@.len(),
            taken@.len() == n,
            i <= n,
            forall|k: int| i <= k < n ==> #[trigger] taken@[k] == (eligible(items@[k]) && leader(items@, k) < i && leader(items@, k) < k),
            forall|g: int| 0 <= g < groups@.len() ==> group_ok(items@, #[trigger] groups@[g]) && groups@[g].positions@[0] < i,
            forall|g: int, h: int| 0 <= g < h < groups@.len() ==> groups@[g].positions@[0] < groups@[h].positions@[0],
            forall|l: int| 0 <= l < i && eligible(items@[l]) && leader(items@, l) == l && (exists|k: int| l < k < n && #[trigger] same_content(items@[l], items@[k]))
                ==> exists|g: int| 0 <= g < groups@.len() && #[trigger] groups@[g].positions@[0] == l,
        decreases n - i,
    {
        let a = &items[i];
        proof {
            lemma_first_copy(items@, i as int, 0);
        }
        if !taken[i] && a.is_online && a.file_size > 0 && a.hash.is_some() {
            let h = a.hash.as_ref().unwrap();
            proof {
                // Nothing before i is a copy of i.
                assert(leader(items@, i as int) == i);
            }
            let mut ids: Vec<String> = Vec::new();
            let mut pos: Vec<usize> = Vec::new();
            ids.push(a.object_id.clone());
            pos.push(i);
            assert(pos@[0] == i);
            let mut j: usize = i + 1;
            while j < n
                invariant
                    n == items@.len(),
                    taken@.len() == n,
                    i < n,
                    i < j <= n,
                    *a == items@[i as int],
                    eligible(*a),
                    a.hash == Some(*h),
                    leader(items@, i as int) == i,
                    forall|k: int| i <= k < n ==> #[trigger] taken@[k] == (eligible(items@[k]) && ((leader(items@, k) < i && leader(items@, k) < k) || (k < j && leader(items@, k) == i && k > i))),
                    pos@.len() == ids@.len(),
                    pos@.len() >= 1,
                    pos@[0] == i,
                    forall|t: int| 0 <= t < pos@.len() ==> (#[trigger] pos@[t]) < j && ids@[t] == items@[pos@[t] as int].object_id
                        && leader(items@, pos@[t] as int) == i && (t > 0 ==> same_content(items@[i as int], items@[pos@[t] as int])),
                    forall|t: int, u: int| 0 <= t < u < pos@.len() ==> pos@[t] < pos@[u],
                    forall|k: int| i <= k < j && (k == i || same_content(items@[i as int], items@[k])) ==> exists|t: int| 0 <= t < pos@.len() && #[trigger] pos@[t] == k,
                decreases n - j,
            {
                let b = &items[j];
                proof {
                    lemma_first_copy(items@, j as int, 0);
                }
                let copy = match &b.hash {
                    Some(hb) => !taken[j] && b.is_online && b.file_size == a.file_size && str_eq(hb.as_str(), h.as_str()),
                    None => false,
                };
                proof {
                    if same_content(items@[i as int], items@[j as int]) {
                        lemma_same_leader(items@, i as int, j as int);
                    }
                    if copy {
                        assert(same_content(items@[i as int], items@[j as int]));
                    }
                }
                if copy {
                    let ghost pb = pos@;
                    ids.push(b.object_id.clone());
                    pos.push(j);
                    taken.set(j, true);
                    proof {
                        assert forall|k: int| i <= k < j + 1 && (k == i || same_content(items@[i as int], items@[k])) implies exists|t: int|
                            0 <= t < pos@.len() && #[trigger] pos@[t] == k by {
                            if k == j {
                                assert(pos@[pos@.len() - 1] == k);
                            } else {
                                let t = choose|t: int| 0 <= t < pb.len() && #[trigger] pb[t] == k;
                                assert(pos@[t] == pb[t]);
                            }
                        }
                    }
                }
                j = j + 1;
            }
            if ids.len() >= 2 {
                let g = DuplicateGroup { hash: h.clone(), file_size: a.file_size, items: ids, positions: pos };
                let ghost before = groups@;
                groups.push(g);
                proof {
                    assert(group_ok(items@, g));
                    assert forall|gg: int| 0 <= gg < groups@.len() implies group_ok(items@, #[trigger] groups@[gg]) && groups@[gg].positions@[0] < i + 1 by {
                        if gg < before.len() {
                            assert(groups@[gg] == before[gg]);
                        }
                    }
                    assert forall|gg: int, hh: int| 0 <= gg < hh < groups@.len() implies groups@[gg].positions@[0] < groups@[hh].positions@[0] by {
                        if hh < before.len() {
                            assert(groups@[gg] == before[gg] && groups@[hh] == before[hh]);
                        } else {
                            assert(groups@[gg] == before[gg]);
                        }
                    }
                    assert forall|l: int| 0 <= l < i + 1 && eligible(items@[l]) && leader(items@, l) == l && (exists|k: int| l < k < n && #[trigger] same_content(items@[l], items@[k]))
                        implies exists|g2: int| 0 <= g2 < groups@.len() && #[trigger] groups@[g2].positions@[0] == l by {
                        if l < i {
                            let g2 = choose|g2: int| 0 <= g2 < before.len() && #[trigger] before[g2].positions@[0] == l;
                            assert(groups@[g2] == before[g2]);
                        } else {
                            assert(groups@[before.len() as int].positions@[0] == l);
                        }
                    }
                }
            } else {
                proof {
                    // Alone: no later copy of i exists.
                    assert forall|k: int| i < k < n implies !#[trigger] same_content(items@[i as int], items@[k]) by {
                        if same_content(items@[i as int], items@[k]) {
                            let t = choose|t: int| 0 <= t < pos@.len() && #[trigger] pos@[t] == k;
                            assert(pos@[0] == i);
                        }
                    }
                }
            }
            proof {
                assert forall|k: int| i + 1 <= k < n implies #[trigger] taken@[k] == (eligible(items@[k]) && leader(items@, k) < i + 1 && leader(items@, k) < k) by {
                    lemma_first_copy(items@, k, 0);
                }
            }
        } else {
            proof {
                assert forall|k: int| i + 1 <= k < n implies #[trigger] taken@[k] == (eligible(items@[k]) && leader(items@, k) < i + 1 && leader(items@, k) < k) by {
                    lemma_first_copy(items@, k, 0);
                    if leader(items@, k) == i && i < k && eligible(items@[k]) {
                        // i is eligible and its own leader, and was not taken.
                        assert(same_content(items@[i as int], items@[k]));
                        lemma_same_leader(items@, i as int, k);
                    }
                }
            }
        }
        i = i + 1;
    }
    proof {
        assert forall|a: int, b: int| 0 <= a < b < items@.len() && same_content(items@[a], items@[b]) implies exists|g: int|
            0 <= g < groups@.len() && groups@[g].positions@[0] == leader(items@, a) && group_ok(items@, groups@[g]) by {
            lemma_first_copy(items@, a, 0);
            lemma_first_copy(items@, b, 0);
            lemma_same_leader(items@, a, b);
            let l = leader(items@, a);
            assert(eligible(items@[l]));
            lemma_first_copy(items@, l, 0);
            if l < a {
                lemma_same_leader(items@, l, a);
            }
            assert(leader(items@, l) == l);
            assert(same_content(items@[l], items@[b]));
            let g = choose|g: int| 0 <= g < groups@.len() && #[trigger] groups@[g].positions@[0] == l;
        }
    }
    groups
}

// ---------------------------------------------------------------------------
// Inventory
// ---------------------------------------------------------------------------
/// A media file with what the file system says of it.
#[derive(Debug, Clone)]
pub struct MediaInventoryItem {
    pub object_id: String,
    pub file_path: String,
    pub file_name: String,
    pub file_size: u64,
    pub is_online: bool,
    pub media_type: MediaType,
    pub has_proxy: bool,
    pub proxy_path: Option<String>,
    pub proxy_size: Option<u64>,
    pub sidecar_files: Vec<String>,
    pub sidecar_total_size: u64,
    pub hash: Option<String>,
    pub bin_path: Option<String>,
}

/// All media files of a project, with totals.
#[derive(Debug, Clone)]
pub struct MediaInventory {
    pub items: Vec<MediaInventoryItem>,
    pub total_size: u64,
    pub total_count: usize,
    pub online_count: usize,
    pub offline_count: usize,
    pub duplicate_groups: Vec<DuplicateGroup>,
}

/// Bytes an item occupies on disk: the file, its sidecars and its proxy,
/// when it is online.
pub open spec fn item_bytes(i: MediaInventoryItem) -> nat {
    if i.is_online {
        (i.file_size + i.sidecar_total_size + match i.proxy_size {
            Some(p) => p as nat,
            None => 0nat,
        }) as nat
    } else {
        0
    }
}

pub open spec fn total_bytes(items: Seq<MediaInventoryItem>) -> nat
    decreases items.len(),
{
    if items.len() == 0 {
        0
    } else {
        total_bytes(items.drop_last()) + item_bytes(items.last())
    }
}

pub open spec fn online_count(items: Seq<MediaInventoryItem>) -> nat
    decreases items.len(),
{
    if items.len() == 0 {
        0
    } else {
        online_count(items.drop_last()) + if items.last().is_online {
            1nat
        } else {
            0nat
        }
    }
}

impl MediaInventory {
    /// The inventory of `items`: how many there are, how many are online,
    /// and the bytes of the online ones, which stop at `u64::MAX`.
    pub fn summarize(items: Vec<MediaInventoryItem>, duplicate_groups: Vec<DuplicateGroup>) -> (r: MediaInventory)
        ensures
            r.items@ == items@,
            r.total_count == items@.len(),
            r.online_count == online_count(items@),
            r.offline_count == items@.len() - online_count(items@),
            r.total_size == if total_bytes(items@) <= u64::MAX {
                total_bytes(items@)
            } else {
                u64::MAX as nat
            },
    {
        let mut total: u128 = 0;
        let mut online: usize = 0;
        let mut i: usize = 0;
        let cap: u128 = 18446744073709551616u128;
        while i < items.len()
            invariant
                i <= items@.len(),
                online == online_count(items@.subrange(0, i as int)),
                online <= i,
                total == if total_bytes(items@.subrange(0, i as int)) <= cap {
                    total_bytes(items@.subrange(0, i as int))
                } else {
                    cap as nat
                },
                cap == 18446744073709551616u128,
            decreases items@.len() - i,
        {
            let it = &items[i];
            let ghost pre = items@.subrange(0, i as int + 1);
            assert(pre.drop_last() =~= items@.subrange(0, i as int));
            assert(pre.last() == items@[i as int]);
            let add: u128 = if it.is_online {
                it.file_size as u128 + it.sidecar_total_size as u128 + match it.proxy_size {
                    Some(p) => p as u128,
                    None => 0,
                }
            } else {
                0
            };
            total = if total + add > cap { cap } else { total + add };
            if it.is_online {
                online = online + 1;
            }
            i = i + 1;
        }
        assert(items@.subrange(0, items@.len() as int) =~= items@);
        let total_size: u64 = if total > u64::MAX as u128 { u64::MAX } else { total as u64 };
        let n = items.len();
        MediaInventory {
            items,
            total_size,
            total_count: n,
            online_count: online,
            offline_count: n - online,
            duplicate_groups,
        }
    }
}

} // verus!
