//! Decisions around a directory scan: which entries are hashed, which are
//! recorded as ignored, the order files are read in, and assembling the
//! resulting mapping.

use vstd::prelude::*;

use crate::algorithms::{detected_algorithm, Algorithm};
use crate::mapping::{map_of, DigestMapping};
use crate::text::{chars_of, string_of};

verus! {

/// A directory entry as the walk reports it: its path relative to the scan
/// root, whether it is a regular file, and where it lies on disk.
#[derive(Debug, Clone, PartialEq, Eq)]
pub struct ScanEntry {
    pub path: String,
    pub is_file: bool,
    pub dev: u64,
    pub ino: u64,
}

/// The all-dash digest of a given length, which marks an ignored file.
pub open spec fn dashes(n: nat) -> Seq<char> {
    Seq::new(n, |i: int| '-')
}

/// Whether a relative path is one of the ignored paths.
pub open spec fn ignored_path(ignored: Seq<String>, p: Seq<char>) -> bool {
    exists|i: int| 0 <= i < ignored.len() && ignored[i]@ == p
}

/// The placeholder digest for an ignored file: as many dashes as the
/// algorithm's digests have characters.
pub fn placeholder(algo: Algorithm) -> (r: String)
    ensures
        r@ == dashes(algo.spec_hexlen()),
        r@.len() == algo.spec_hexlen(),
{
    let n = algo.hexlen();
    let mut v: Vec<char> = Vec::new();
    let mut i: usize = 0;
    while i < n
        invariant
            i <= n,
            v@ =~= dashes(i as nat),
        decreases n - i,
    {
        v.push('-');
        i += 1;
    }
    string_of(v.as_slice())
}

/// Whether a relative path is one of the ignored paths.
pub fn is_ignored(ignored: &Vec<String>, relative: &str) -> (r: bool)
    ensures
        r == ignored_path(ignored@, relative@),
{
    let mut i: usize = 0;
    while i < ignored.len()
        invariant
            i <= ignored@.len(),
            forall|j: int| 0 <= j < i ==> ignored@[j]@ != relative@,
        decreases ignored@.len() - i,
    {
        if crate::mapping::compare_paths(ignored[i].as_str(), relative) == 0 {
            return true;
        }
        i += 1;
    }
    false
}

/// Whether the walk goes on into an entry: ignored directories are pruned
/// whole, and everything else is visited.
pub fn should_visit(ignored: &Vec<String>, relative: &str, is_file: bool) -> (r: bool)
    ensures
        r == (is_file || !ignored_path(ignored@, relative@)),
{
    is_file || !is_ignored(ignored, relative)
}

/// The maximum depth handed to the walk, which counts the root itself:
/// one more than the configured depth below the root; none stays none.
pub fn walk_depth(depth: Option<usize>) -> (r: Option<usize>)
    ensures
        depth is None ==> r is None,
        depth is Some ==> r == Some(
            if depth->Some_0 < usize::MAX {
                (depth->Some_0 + 1) as usize
            } else {
                usize::MAX
            },
        ),
{
    match depth {
        Some(d) => {
            if d < usize::MAX {
                Some(d + 1)
            } else {
                Some(usize::MAX)
            }
        },
        None => None,
    }
}

/// The number of hashing workers: `jobs`, or all available parallelism
/// when `jobs` is 0.
pub fn worker_count(jobs: usize, available: usize) -> (r: usize)
    ensures
        r == (if jobs == 0 {
            available
        } else {
            jobs
        }),
{
    if jobs == 0 {
        available
    } else {
        jobs
    }
}

/// The entries to hash, in order: the regular files that are not ignored.
pub open spec fn files_to_hash(entries: Seq<ScanEntry>, ignored: Seq<String>) -> Seq<ScanEntry>
    decreases entries.len(),
{
    if entries.len() == 0 {
        Seq::empty()
    } else {
        let rest = files_to_hash(entries.drop_last(), ignored);
        let e = entries.last();
        if e.is_file && !ignored_path(ignored, e.path@) {
            rest.push(e)
        } else {
            rest
        }
    }
}

/// The paths, in order, of the regular files that are ignored.
pub open spec fn ignored_files(entries: Seq<ScanEntry>, ignored: Seq<String>) -> Seq<Seq<char>>
    decreases entries.len(),
{
    if entries.len() == 0 {
        Seq::empty()
    } else {
        let rest = ignored_files(entries.drop_last(), ignored);
        let e = entries.last();
        if e.is_file && ignored_path(ignored, e.path@) {
            rest.push(e.path@)
        } else {
            rest
        }
    }
}

/// Every entry selected for hashing is a regular file that is not ignored.
pub proof fn law_ignored_files_not_hashed(entries: Seq<ScanEntry>, ignored: Seq<String>)
    ensures
        forall|i: int|
            0 <= i < files_to_hash(entries, ignored).len() ==> {
                let e = #[trigger] files_to_hash(entries, ignored)[i];
                e.is_file && !ignored_path(ignored, e.path@)
            },
    decreases entries.len(),
{
    if entries.len() > 0 {
        let rest = files_to_hash(entries.drop_last(), ignored);
        law_ignored_files_not_hashed(entries.drop_last(), ignored);
        let r = files_to_hash(entries, ignored);
        assert forall|i: int| 0 <= i < r.len() implies ({
            let e = #[trigger] r[i];
            e.is_file && !ignored_path(ignored, e.path@)
        }) by {
            if i < rest.len() {
                assert(r[i] == rest[i]);
            }
        }
    }
}

/// Splits the entries that a walk reported into the regular files to hash
/// and the paths of the regular files that are ignored. Directories and
/// other entries are dropped.
pub fn select_files(entries: &Vec<ScanEntry>, ignored: &Vec<String>) -> (r: (
    Vec<ScanEntry>,
    Vec<String>,
))
    ensures
        r.0@ == files_to_hash(entries@, ignored@),
        r.1@.map_values(|s: String| s@) == ignored_files(entries@, ignored@),
{
    let mut files: Vec<ScanEntry> = Vec::new();
    let mut skipped: Vec<String> = Vec::new();
    let mut i: usize = 0;
    while i < entries.len()
        invariant
            i <= entries@.len(),
            files@ == files_to_hash(entries@.take(i as int), ignored@),
            skipped@.map_values(|s: String| s@) =~= ignored_files(
                entries@.take(i as int),
                ignored@,
            ),
        decreases entries@.len() - i,
    {
        assert(entries@.take(i + 1).drop_last() =~= entries@.take(i as int));
        assert(entries@.take(i + 1).last() == entries@[i as int]);
        let e = &entries[i];
        if e.is_file {
            if is_ignored(ignored, e.path.as_str()) {
                let ghost before = skipped@;
                skipped.push(e.path.clone());
                assert(skipped@.map_values(|s: String| s@) =~= before.map_values(|s: String| s@).push(
                    e.path@,
                ));
            } else {
                files.push(ScanEntry { path: e.path.clone(), is_file: e.is_file, dev: e.dev, ino: e.ino });
            }
        }
        i += 1;
    }
    assert(entries@.take(entries@.len() as int) =~= entries@);
    (files, skipped)
}

/// The order on disk: by device, then by inode.
pub open spec fn location_le(a: ScanEntry, b: ScanEntry) -> bool {
    a.dev < b.dev || (a.dev == b.dev && a.ino <= b.ino)
}

/// Relies on `slice::sort_by_key`: it permutes the entries into ascending
/// order of the key, here `(dev, ino)`, compared as a tuple.
#[verifier::external_body]
fn sort_by_location(files: &mut Vec<ScanEntry>)
    ensures
        final(files)@.to_multiset() == old(files)@.to_multiset(),
        forall|i: int, j: int|
            0 <= i < j < final(files)@.len() ==> location_le(
                #[trigger] final(files)@[i],
                #[trigger] final(files)@[j],
            ),
{
    files.sort_by_key(|e| (e.dev, e.ino));
}

/// Reorders the files to hash by where they lie on disk, so that reading
/// them goes mostly forward. The set of files does not change.
pub fn optimize_file_order(files: &mut Vec<ScanEntry>)
    ensures
        final(files)@.to_multiset() == old(files)@.to_multiset(),
        forall|i: int, j: int|
            0 <= i < j < final(files)@.len() ==> location_le(
                #[trigger] final(files)@[i],
                #[trigger] final(files)@[j],
            ),
{
    sort_by_location(files);
}

/// The map after inserting the entries in order.
pub open spec fn with_entries(
    m: Map<Seq<char>, Seq<char>>,
    s: Seq<(Seq<char>, Seq<char>)>,
) -> Map<Seq<char>, Seq<char>>
    decreases s.len(),
{
    if s.len() == 0 {
        m
    } else {
        with_entries(m, s.drop_last()).insert(s.last().0, s.last().1)
    }
}

/// The map after giving each path the same digest.
pub open spec fn with_digest(
    m: Map<Seq<char>, Seq<char>>,
    paths: Seq<Seq<char>>,
    d: Seq<char>,
) -> Map<Seq<char>, Seq<char>>
    decreases paths.len(),
{
    if paths.len() == 0 {
        m
    } else {
        with_digest(m, paths.drop_last(), d).insert(paths.last(), d)
    }
}

/// Giving paths one digest leaves each of them with that digest; with the
/// placeholder of an algorithm, each ignored file gets a digest of the
/// algorithm's length.
pub proof fn law_ignored_files_placeholder(
    m: Map<Seq<char>, Seq<char>>,
    paths: Seq<Seq<char>>,
    algo: Algorithm,
)
    ensures
        forall|i: int|
            0 <= i < paths.len() ==> {
                let r = with_digest(m, paths, dashes(algo.spec_hexlen()));
                &&& r.contains_key(#[trigger] paths[i])
                &&& r[paths[i]] == dashes(algo.spec_hexlen())
                &&& r[paths[i]].len() == algo.spec_hexlen()
            },
    decreases paths.len(),
{
    let d = dashes(algo.spec_hexlen());
    if paths.len() > 0 {
        let q = paths.drop_last();
        law_ignored_files_placeholder(m, q, algo);
        assert forall|i: int| 0 <= i < paths.len() implies ({
            let r = with_digest(m, paths, d);
            &&& r.contains_key(#[trigger] paths[i])
            &&& r[paths[i]] == d
            &&& r[paths[i]].len() == algo.spec_hexlen()
        }) by {
            if i < q.len() {
                assert(q[i] == paths[i]);
            }
        }
    }
}

/// Builds the mapping of a scan from the `(path, digest)` pairs the
/// hashing produced, in any order. When `track_ignored` holds, each ignored
/// file also gets the algorithm's placeholder digest.
pub fn assemble_mapping(
    hashed: &Vec<(String, String)>,
    ignored_found: &Vec<String>,
    algo: Algorithm,
    track_ignored: bool,
) -> (r: DigestMapping)
    ensures
        r.wf(),
        r.as_map() == (if track_ignored {
            with_digest(
                with_entries(Map::empty(), hashed@.map_values(|e: (String, String)| (e.0@, e.1@))),
                ignored_found@.map_values(|s: String| s@),
                dashes(algo.spec_hexlen()),
            )
        } else {
            with_entries(Map::empty(), hashed@.map_values(|e: (String, String)| (e.0@, e.1@)))
        }),
{
    let ghost hv = hashed@.map_values(|e: (String, String)| (e.0@, e.1@));
    let ghost iv = ignored_found@.map_values(|s: String| s@);
    let mut m = DigestMapping::new();
    assert(m.as_map() =~= Map::<Seq<char>, Seq<char>>::empty());
    let mut i: usize = 0;
    let n = hashed.len();
    assert(hv.take(0) =~= Seq::<(Seq<char>, Seq<char>)>::empty());
    while i < n
        invariant
            i <= n,
            n == hv.len(),
            hv == hashed@.map_values(|e: (String, String)| (e.0@, e.1@)),
            m.wf(),
            m.as_map() == with_entries(Map::empty(), hv.take(i as int)),
        decreases n - i,
    {
        assert(hv.take(i + 1).drop_last() =~= hv.take(i as int));
        m.insert(hashed[i].0.clone(), hashed[i].1.clone());
        i += 1;
    }
    assert(hv.take(n as int) =~= hv);
    if track_ignored {
        let d = placeholder(algo);
        let mut k: usize = 0;
        assert(iv.take(0) =~= Seq::<Seq<char>>::empty());
        while k < ignored_found.len()
            invariant
                k <= ignored_found@.len(),
                iv == ignored_found@.map_values(|s: String| s@),
                d@ == dashes(algo.spec_hexlen()),
                m.wf(),
                m.as_map() == with_digest(with_entries(Map::empty(), hv), iv.take(k as int), d@),
            decreases ignored_found@.len() - k,
        {
            assert(iv.take(k + 1).drop_last() =~= iv.take(k as int));
            m.insert(ignored_found[k].clone(), d.clone());
            k += 1;
        }
        assert(iv.take(ignored_found@.len() as int) =~= iv);
    }
    m
}

/// Records the manifest file itself with the algorithm's placeholder, so
/// that the manifest shows which digest length it was made with.
pub fn add_manifest_entry(hashes: &mut DigestMapping, manifest_path: String, algo: Algorithm)
    requires
        old(hashes).wf(),
    ensures
        final(hashes).wf(),
        final(hashes).as_map() == old(hashes).as_map().insert(
            manifest_path@,
            dashes(algo.spec_hexlen()),
        ),
{
    let d = placeholder(algo);
    hashes.insert(manifest_path, d);
}

/// Whether a digest starts with four dashes, as placeholders do.
pub open spec fn placeholder_like(d: Seq<char>) -> bool {
    d.len() >= 4 && d[0] == '-' && d[1] == '-' && d[2] == '-' && d[3] == '-'
}

/// The index of the first entry whose digest is no placeholder.
pub open spec fn first_real_digest(s: Seq<(Seq<char>, Seq<char>)>, i: int) -> bool {
    0 <= i < s.len() && !placeholder_like(s[i].1) && forall|j: int|
        0 <= j < i ==> placeholder_like(#[trigger] s[j].1)
}

/// The paths, in order, among the first `n` entries of a loaded mapping
/// whose files are present, and whose digests are placeholders exactly when
/// `placeholders` holds.
pub open spec fn check_paths(
    s: Seq<(Seq<char>, Seq<char>)>,
    present: Seq<bool>,
    n: nat,
    placeholders: bool,
) -> Seq<Seq<char>>
    decreases n,
{
    if n == 0 {
        Seq::empty()
    } else {
        let rest = check_paths(s, present, (n - 1) as nat, placeholders);
        let i = n - 1;
        if present[i] && placeholder_like(s[i].1) == placeholders {
            rest.push(s[i].0)
        } else {
            rest
        }
    }
}

/// Plans a check against a loaded mapping, given which of its files are
/// present: the paths to hash again, and the paths of ignored files, which
/// keep their placeholder. Files that are gone are in neither.
pub fn plan_check(loaded: &DigestMapping, present: &Vec<bool>) -> (r: (Vec<String>, Vec<String>))
    requires
        present@.len() == loaded@.len(),
    ensures
        r.0@.map_values(|p: String| p@) == check_paths(
            loaded@,
            present@,
            loaded@.len(),
            false,
        ),
        r.1@.map_values(|p: String| p@) == check_paths(loaded@, present@, loaded@.len(), true),
{
    let mut to_hash: Vec<String> = Vec::new();
    let mut kept: Vec<String> = Vec::new();
    let mut i: usize = 0;
    while i < loaded.len()
        invariant
            i <= loaded@.len(),
            present@.len() == loaded@.len(),
            to_hash@.map_values(|p: String| p@) =~= check_paths(loaded@, present@, i as nat, false),
            kept@.map_values(|p: String| p@) =~= check_paths(loaded@, present@, i as nat, true),
        decreases loaded@.len() - i,
    {
        if present[i] {
            let d = loaded.digest_at(i);
            let v = chars_of(d.as_str());
            let dashed = v.len() >= 4 && v[0] == '-' && v[1] == '-' && v[2] == '-' && v[3] == '-';
            let p = loaded.path_at(i).clone();
            if dashed {
                let ghost before = kept@;
                kept.push(p);
                assert(kept@.map_values(|p: String| p@) =~= before.map_values(|p: String| p@).push(
                    loaded@[i as int].0,
                ));
            } else {
                let ghost before = to_hash@;
                to_hash.push(p);
                assert(to_hash@.map_values(|p: String| p@) =~= before.map_values(|p: String| p@).push(
                    loaded@[i as int].0,
                ));
            }
        }
        i += 1;
    }
    (to_hash, kept)
}

/// Infers the algorithm of a loaded mapping from its first digest, in path
/// order, that is no placeholder; none when every digest is a placeholder.
pub fn detect_algorithm(loaded: &DigestMapping) -> (r: Option<Algorithm>)
    ensures
        r is None <==> (forall|j: int| 0 <= j < loaded@.len() ==> placeholder_like(#[trigger] loaded@[j].1)),
        r is Some ==> exists|i: int|
            first_real_digest(loaded@, i) && r == Some(detected_algorithm(loaded@[i].1)),
{
    let mut i: usize = 0;
    while i < loaded.len()
        invariant
            i <= loaded@.len(),
            forall|j: int| 0 <= j < i ==> placeholder_like(#[trigger] loaded@[j].1),
        decreases loaded@.len() - i,
    {
        let d = loaded.digest_at(i);
        let v = chars_of(d.as_str());
        let dashed = v.len() >= 4 && v[0] == '-' && v[1] == '-' && v[2] == '-' && v[3] == '-';
        if !dashed {
            assert(first_real_digest(loaded@, i as int));
            return Some(Algorithm::autodetect_from_hash(d.as_str()));
        }
        i += 1;
    }
    None
}

} // verus!
