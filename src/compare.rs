//! Reconciling a freshly computed mapping with one loaded from a manifest.

use vstd::prelude::*;

use crate::mapping::{
    has_path, path_lt, keys_of, lemma_map_of_dom, lemma_map_of_index, lemma_path_lt_irreflexive, map_of,
    sorted_entries, DigestMapping,
};
use crate::text::chars_of;

verus! {

/// A path that is present on one side only.
#[derive(Debug, Clone, Hash, PartialEq, Eq, PartialOrd, Ord)]
pub enum CompareResult {
    FileAdded(String),
    FileRemoved(String),
    FileIgnored(String),
}

/// A path that is present on both sides, and how its digests compare.
#[derive(Debug, Clone, Hash, PartialEq, Eq, PartialOrd, Ord)]
pub enum CompareFileResult {
    FileMatches(String),
    FileDiffers { file: String, was_hash: String, new_hash: String },
}

/// The two mappings hold digests of different lengths, so they were made
/// with different algorithms.
#[derive(Debug, Clone, Hash, PartialEq, Eq, Copy, Structural)]
pub enum CompareError {
    HashLengthDiffers { previous_len: usize, current_len: usize },
}

impl CompareResult {
    pub open spec fn path(&self) -> Seq<char> {
        match self {
            CompareResult::FileAdded(p) => p@,
            CompareResult::FileRemoved(p) => p@,
            CompareResult::FileIgnored(p) => p@,
        }
    }
}

impl CompareFileResult {
    pub open spec fn path(&self) -> Seq<char> {
        match self {
            CompareFileResult::FileMatches(p) => p@,
            CompareFileResult::FileDiffers { file, .. } => file@,
        }
    }
}

/// The paths of the entries, in order, that the map does not hold.
pub open spec fn only_in(s: Seq<(Seq<char>, Seq<char>)>, m: Map<Seq<char>, Seq<char>>) -> Seq<
    Seq<char>,
>
    decreases s.len(),
{
    if s.len() == 0 {
        Seq::empty()
    } else if m.contains_key(s.last().0) {
        only_in(s.drop_last(), m)
    } else {
        only_in(s.drop_last(), m).push(s.last().0)
    }
}

/// The paths of the entries, in order, that the map holds too.
pub open spec fn in_both(s: Seq<(Seq<char>, Seq<char>)>, m: Map<Seq<char>, Seq<char>>) -> Seq<
    Seq<char>,
>
    decreases s.len(),
{
    if s.len() == 0 {
        Seq::empty()
    } else if m.contains_key(s.last().0) {
        in_both(s.drop_last(), m).push(s.last().0)
    } else {
        in_both(s.drop_last(), m)
    }
}

/// The paths only the current side has, in path order.
pub open spec fn added_paths(
    current: Seq<(Seq<char>, Seq<char>)>,
    loaded: Seq<(Seq<char>, Seq<char>)>,
) -> Seq<Seq<char>> {
    only_in(current, map_of(loaded))
}

/// The paths only the loaded side has, in path order.
pub open spec fn removed_paths(
    current: Seq<(Seq<char>, Seq<char>)>,
    loaded: Seq<(Seq<char>, Seq<char>)>,
) -> Seq<Seq<char>> {
    only_in(loaded, map_of(current))
}

/// The paths both sides have, in path order.
pub open spec fn shared_paths(
    current: Seq<(Seq<char>, Seq<char>)>,
    loaded: Seq<(Seq<char>, Seq<char>)>,
) -> Seq<Seq<char>> {
    in_both(loaded, map_of(current))
}

/// Sampled digests of the two sides differ in length. An empty side offers
/// no sample.
pub open spec fn length_mismatch(
    current: Seq<(Seq<char>, Seq<char>)>,
    loaded: Seq<(Seq<char>, Seq<char>)>,
) -> bool {
    current.len() > 0 && loaded.len() > 0 && current[0].1.len() != loaded[0].1.len()
}

/// The set differences: an `Added` for each path only the current side
/// has, then a `Removed` for each path only the loaded side has.
pub open spec fn set_differences_are(
    r: Seq<CompareResult>,
    current: Seq<(Seq<char>, Seq<char>)>,
    loaded: Seq<(Seq<char>, Seq<char>)>,
) -> bool {
    let a = added_paths(current, loaded);
    let d = removed_paths(current, loaded);
    &&& r.len() == a.len() + d.len()
    &&& forall|i: int| #![trigger r[i]] 0 <= i < a.len() ==> r[i] is FileAdded && r[i].path() == a[i]
    &&& forall|i: int| #![trigger r[i]]
        a.len() <= i < r.len() ==> r[i] is FileRemoved && r[i].path() == d[i - a.len()]
}

/// The content differences: for each shared path, in path order, a match
/// when the digests agree, else the digest loaded and the digest computed.
pub open spec fn file_results_are(
    f: Seq<CompareFileResult>,
    current: Seq<(Seq<char>, Seq<char>)>,
    loaded: Seq<(Seq<char>, Seq<char>)>,
) -> bool {
    let sh = shared_paths(current, loaded);
    let cm = map_of(current);
    let lm = map_of(loaded);
    &&& f.len() == sh.len()
    &&& forall|i: int|
        0 <= i < f.len() ==> {
            &&& #[trigger] f[i].path() == sh[i]
            &&& (f[i] is FileMatches <==> cm[sh[i]] == lm[sh[i]])
            &&& f[i] is FileDiffers ==> f[i]->was_hash@ == lm[sh[i]] && f[i]->new_hash@
                == cm[sh[i]]
        }
}

/// Appends a result for each entry of `curr` whose path `other` lacks:
/// `FileAdded` when `added`, else `FileRemoved`.
fn process_ignores_iter(
    curr: &DigestMapping,
    other: &DigestMapping,
    added: bool,
    results: &mut Vec<CompareResult>,
)
    requires
        curr.wf(),
        other.wf(),
    ensures
        final(results)@.len() == old(results)@.len() + only_in(curr@, other.as_map()).len(),
        forall|i: int| 0 <= i < old(results)@.len() ==> final(results)@[i] == old(results)@[i],
        forall|i: int|
            0 <= i < only_in(curr@, other.as_map()).len() ==> {
                let r = #[trigger] final(results)@[old(results)@.len() + i];
                &&& (if added {
                    r is FileAdded
                } else {
                    r is FileRemoved
                })
                &&& r.path() == only_in(curr@, other.as_map())[i]
            },
{
    let ghost base = results@.len();
    let mut i: usize = 0;
    assert(curr@.take(0) =~= Seq::<(Seq<char>, Seq<char>)>::empty());
    while i < curr.len()
        invariant
            curr.wf(),
            other.wf(),
            i <= curr@.len(),
            base == old(results)@.len(),
            results@.len() == base + only_in(curr@.take(i as int), other.as_map()).len(),
            forall|j: int| 0 <= j < base ==> results@[j] == old(results)@[j],
            forall|j: int|
                0 <= j < only_in(curr@.take(i as int), other.as_map()).len() ==> {
                    let r = #[trigger] results@[base + j];
                    &&& (if added {
                        r is FileAdded
                    } else {
                        r is FileRemoved
                    })
                    &&& r.path() == only_in(curr@.take(i as int), other.as_map())[j]
                },
        decreases curr@.len() - i,
    {
        let key = curr.path_at(i);
        assert(curr@.take(i + 1).drop_last() =~= curr@.take(i as int));
        if !other.contains_key(key.as_str()) {
            let p = key.clone();
            if added {
                results.push(CompareResult::FileAdded(p));
            } else {
                results.push(CompareResult::FileRemoved(p));
            }
        }
        i += 1;
    }
    assert(curr@.take(curr@.len() as int) =~= curr@);
}

/// The set differences of two mappings: the paths only `ch` has, as
/// `FileAdded`, then the paths only `lh` has, as `FileRemoved`.
fn process_ignores(ch: &DigestMapping, lh: &DigestMapping) -> (r: Vec<CompareResult>)
    requires
        ch.wf(),
        lh.wf(),
    ensures
        set_differences_are(r@, ch@, lh@),
{
    let mut results: Vec<CompareResult> = Vec::new();
    process_ignores_iter(ch, lh, true, &mut results);
    let ghost first = results@;
    process_ignores_iter(lh, ch, false, &mut results);
    proof {
        let a = added_paths(ch@, lh@);
        let d = removed_paths(ch@, lh@);
        assert(first.len() == a.len());
        assert forall|i: int| #![trigger results@[i]] 0 <= i < a.len() implies results@[i] is FileAdded
            && results@[i].path() == a[i] by {
            assert(first[0 + i] == first[i]);
            assert(results@[i] == first[i]);
        }
        assert forall|i: int| #![trigger results@[i]] a.len() <= i < results@.len() implies results@[i] is FileRemoved
            && results@[i].path() == d[i - a.len()] by {
            let j = i - first.len();
            assert(results@[first.len() + j] == results@[i]);
        }
    }
    results
}

/// Compares the digests computed now (`current_hashes`) with those loaded
/// from a manifest (`loaded_hashes`).
///
/// When a sampled digest of each side differs in length, the two sides
/// used different algorithms and the result is an error. Otherwise the
/// result holds the set differences and, for every path both sides have,
/// whether its digest changed.
pub fn compare_hashes(current_hashes: DigestMapping, loaded_hashes: DigestMapping) -> (r: Result<
    (Vec<CompareResult>, Vec<CompareFileResult>),
    CompareError,
>)
    requires
        current_hashes.wf(),
        loaded_hashes.wf(),
    ensures
        r is Err <==> length_mismatch(current_hashes@, loaded_hashes@),
        r is Err ==> r->Err_0 == (CompareError::HashLengthDiffers {
            previous_len: loaded_hashes@[0].1.len() as usize,
            current_len: current_hashes@[0].1.len() as usize,
        }),
        r is Ok ==> set_differences_are(r->Ok_0.0@, current_hashes@, loaded_hashes@),
        r is Ok ==> file_results_are(r->Ok_0.1@, current_hashes@, loaded_hashes@),
{
    if !current_hashes.is_empty() && !loaded_hashes.is_empty() {
        let current_len = chars_of(current_hashes.digest_at(0).as_str()).len();
        let previous_len = chars_of(loaded_hashes.digest_at(0).as_str()).len();
        if current_len != previous_len {
            return Err(CompareError::HashLengthDiffers { previous_len, current_len });
        }
    }
    let remove_results = process_ignores(&current_hashes, &loaded_hashes);
    let mut file_compare_results: Vec<CompareFileResult> = Vec::new();
    let ghost cm = current_hashes.as_map();
    let ghost lm = loaded_hashes.as_map();
    let ghost ls = loaded_hashes@;
    let mut i: usize = 0;
    assert(ls.take(0) =~= Seq::<(Seq<char>, Seq<char>)>::empty());
    while i < loaded_hashes.len()
        invariant
            current_hashes.wf(),
            loaded_hashes.wf(),
            cm == current_hashes.as_map(),
            lm == loaded_hashes.as_map(),
            ls == loaded_hashes@,
            lm == map_of(ls),
            i <= ls.len(),
            file_compare_results@.len() == in_both(ls.take(i as int), cm).len(),
            forall|j: int|
                0 <= j < file_compare_results@.len() ==> {
                    let f = #[trigger] file_compare_results@[j];
                    let p = in_both(ls.take(i as int), cm)[j];
                    &&& f.path() == p
                    &&& (f is FileMatches <==> cm[p] == lm[p])
                    &&& f is FileDiffers ==> f->was_hash@ == lm[p] && f->new_hash@ == cm[p]
                },
        decreases ls.len() - i,
    {
        assert(ls.take(i + 1).drop_last() =~= ls.take(i as int));
        let key = loaded_hashes.path_at(i);
        let loaded_value = loaded_hashes.digest_at(i);
        proof {
            lemma_map_of_index(ls, i as int);
        }
        match current_hashes.get(key.as_str()) {
            Some(current_value) => {
                if *current_value == *loaded_value {
                    file_compare_results.push(CompareFileResult::FileMatches(key.clone()));
                } else {
                    file_compare_results.push(
                        CompareFileResult::FileDiffers {
                            file: key.clone(),
                            was_hash: loaded_value.clone(),
                            new_hash: current_value.clone(),
                        },
                    );
                }
            },
            None => {},
        }
        i += 1;
    }
    assert(ls.take(ls.len() as int) =~= ls);
    Ok((remove_results, file_compare_results))
}


proof fn lemma_push_contains(r: Seq<Seq<char>>, x: Seq<char>, k: Seq<char>)
    ensures
        r.push(x).contains(k) == (r.contains(k) || x == k),
{
    if r.contains(k) {
        let j = choose|j: int| 0 <= j < r.len() && r[j] == k;
        assert(r.push(x)[j] == k);
    }
    if x == k {
        assert(r.push(x)[r.len() as int] == k);
    }
    if r.push(x).contains(k) {
        let j = choose|j: int| 0 <= j < r.push(x).len() && r.push(x)[j] == k;
        if j < r.len() {
            assert(r[j] == k);
        }
    }
}

proof fn lemma_concat_contains(a: Seq<Seq<char>>, b: Seq<Seq<char>>, k: Seq<char>)
    ensures
        (a + b).contains(k) == (a.contains(k) || b.contains(k)),
{
    if a.contains(k) {
        let j = choose|j: int| 0 <= j < a.len() && a[j] == k;
        assert((a + b)[j] == k);
    }
    if b.contains(k) {
        let j = choose|j: int| 0 <= j < b.len() && b[j] == k;
        assert((a + b)[a.len() + j] == k);
    }
    if (a + b).contains(k) {
        let j = choose|j: int| 0 <= j < (a + b).len() && (a + b)[j] == k;
        if j < a.len() {
            assert(a[j] == k);
        } else {
            assert(b[j - a.len()] == k);
        }
    }
}

proof fn lemma_has_path_drop_last(s: Seq<(Seq<char>, Seq<char>)>, k: Seq<char>)
    requires
        s.len() > 0,
    ensures
        has_path(s, k) == (has_path(s.drop_last(), k) || s.last().0 == k),
{
    let t = s.drop_last();
    if has_path(t, k) {
        let j = choose|j: int| 0 <= j < t.len() && t[j].0 == k;
        assert(s[j].0 == k);
    }
    if s.last().0 == k {
        assert(s[s.len() - 1].0 == k);
    }
    if has_path(s, k) && s.last().0 != k {
        let j = choose|j: int| 0 <= j < s.len() && s[j].0 == k;
        assert(t[j].0 == k);
    }
}

proof fn lemma_sorted_drop_last(s: Seq<(Seq<char>, Seq<char>)>)
    requires
        sorted_entries(s),
        s.len() > 0,
    ensures
        sorted_entries(s.drop_last()),
        !has_path(s.drop_last(), s.last().0),
{
    let t = s.drop_last();
    assert forall|i: int, j: int| 0 <= i < j < t.len() implies path_lt(
        #[trigger] t[i].0,
        #[trigger] t[j].0,
    ) by {
        assert(path_lt(s[i].0, s[j].0));
    }
    if has_path(t, s.last().0) {
        let j = choose|j: int| 0 <= j < t.len() && t[j].0 == s.last().0;
        assert(path_lt(s[j].0, s[s.len() - 1].0));
        lemma_path_lt_irreflexive(s.last().0);
    }
}

proof fn lemma_only_in_contains(s: Seq<(Seq<char>, Seq<char>)>, m: Map<Seq<char>, Seq<char>>, k: Seq<char>)
    ensures
        only_in(s, m).contains(k) == (has_path(s, k) && !m.contains_key(k)),
    decreases s.len(),
{
    if s.len() > 0 {
        lemma_only_in_contains(s.drop_last(), m, k);
        lemma_has_path_drop_last(s, k);
        lemma_push_contains(only_in(s.drop_last(), m), s.last().0, k);
    }
}

proof fn lemma_in_both_contains(s: Seq<(Seq<char>, Seq<char>)>, m: Map<Seq<char>, Seq<char>>, k: Seq<char>)
    ensures
        in_both(s, m).contains(k) == (has_path(s, k) && m.contains_key(k)),
    decreases s.len(),
{
    if s.len() > 0 {
        lemma_in_both_contains(s.drop_last(), m, k);
        lemma_has_path_drop_last(s, k);
        lemma_push_contains(in_both(s.drop_last(), m), s.last().0, k);
    }
}

proof fn lemma_push_distinct(r: Seq<Seq<char>>, x: Seq<char>)
    requires
        r.no_duplicates(),
        !r.contains(x),
    ensures
        r.push(x).no_duplicates(),
{
    let t = r.push(x);
    assert forall|i: int, j: int| 0 <= i < t.len() && 0 <= j < t.len() && i != j implies t[i]
        != t[j] by {
        if i < r.len() && j == r.len() {
            assert(r[i] == t[i]);
        } else if j < r.len() && i == r.len() {
            assert(r[j] == t[j]);
        }
    }
}

proof fn lemma_only_in_distinct(s: Seq<(Seq<char>, Seq<char>)>, m: Map<Seq<char>, Seq<char>>)
    requires
        sorted_entries(s),
    ensures
        only_in(s, m).no_duplicates(),
    decreases s.len(),
{
    if s.len() > 0 {
        lemma_sorted_drop_last(s);
        lemma_only_in_distinct(s.drop_last(), m);
        lemma_only_in_contains(s.drop_last(), m, s.last().0);
        if !m.contains_key(s.last().0) {
            lemma_push_distinct(only_in(s.drop_last(), m), s.last().0);
        }
    }
}

proof fn lemma_in_both_distinct(s: Seq<(Seq<char>, Seq<char>)>, m: Map<Seq<char>, Seq<char>>)
    requires
        sorted_entries(s),
    ensures
        in_both(s, m).no_duplicates(),
    decreases s.len(),
{
    if s.len() > 0 {
        lemma_sorted_drop_last(s);
        lemma_in_both_distinct(s.drop_last(), m);
        lemma_in_both_contains(s.drop_last(), m, s.last().0);
        if m.contains_key(s.last().0) {
            lemma_push_distinct(in_both(s.drop_last(), m), s.last().0);
        }
    }
}

proof fn lemma_all_present(s: Seq<(Seq<char>, Seq<char>)>, m: Map<Seq<char>, Seq<char>>)
    requires
        forall|j: int| 0 <= j < s.len() ==> m.contains_key(#[trigger] s[j].0),
    ensures
        only_in(s, m).len() == 0,
        in_both(s, m) == keys_of(s),
    decreases s.len(),
{
    if s.len() > 0 {
        let t = s.drop_last();
        assert forall|j: int| 0 <= j < t.len() implies m.contains_key(#[trigger] t[j].0) by {
            assert(t[j] == s[j]);
        }
        lemma_all_present(t, m);
        assert(s[s.len() - 1] == s.last());
        assert(keys_of(s) =~= keys_of(t).push(s.last().0));
    }
}

/// Every path of either side is classified exactly once: the added, the
/// removed and the shared paths together hold no path twice, and hold
/// precisely the paths of the two mappings.
pub proof fn law_diff_completeness(current: &DigestMapping, loaded: &DigestMapping)
    requires
        current.wf(),
        loaded.wf(),
    ensures
        (added_paths(current@, loaded@) + removed_paths(current@, loaded@) + shared_paths(
            current@,
            loaded@,
        )).no_duplicates(),
        forall|k: Seq<char>|
            #![trigger current.as_map().contains_key(k)]
            #![trigger loaded.as_map().contains_key(k)]
            (added_paths(current@, loaded@) + removed_paths(current@, loaded@) + shared_paths(
                current@,
                loaded@,
            )).contains(k) <==> current.as_map().contains_key(k) || loaded.as_map().contains_key(
                k,
            ),
{
    let c = current@;
    let l = loaded@;
    let a = added_paths(c, l);
    let d = removed_paths(c, l);
    let sh = shared_paths(c, l);
    assert forall|k: Seq<char>|
        (a.contains(k) == (has_path(c, k) && !has_path(l, k))) && (d.contains(k) == (has_path(
            l,
            k,
        ) && !has_path(c, k))) && #[trigger] sh.contains(k) == (has_path(l, k) && has_path(c, k)) by {
        lemma_only_in_contains(c, map_of(l), k);
        lemma_only_in_contains(l, map_of(c), k);
        lemma_in_both_contains(l, map_of(c), k);
        lemma_map_of_dom(c, k);
        lemma_map_of_dom(l, k);
    }
    lemma_only_in_distinct(c, map_of(l));
    lemma_only_in_distinct(l, map_of(c));
    lemma_in_both_distinct(l, map_of(c));
    assert forall|i: int, j: int| 0 <= i < a.len() && 0 <= j < d.len() implies a[i] != d[j] by {
        assert(a.contains(a[i]));
        assert(d.contains(d[j]));
        lemma_only_in_contains(c, map_of(l), a[i]);
        lemma_only_in_contains(l, map_of(c), a[i]);
        lemma_map_of_dom(c, a[i]);
        lemma_map_of_dom(l, a[i]);
    }
    vstd::seq_lib::lemma_no_dup_in_concat(a, d);
    assert forall|i: int, j: int| 0 <= i < (a + d).len() && 0 <= j < sh.len() implies (a
        + d)[i] != sh[j] by {
        let k = (a + d)[i];
        lemma_concat_contains(a, d, k);
        assert((a + d).contains(k));
        assert(sh.contains(sh[j]));
    }
    vstd::seq_lib::lemma_no_dup_in_concat(a + d, sh);
    assert forall|k: Seq<char>|
        #![trigger current.as_map().contains_key(k)]
        #![trigger loaded.as_map().contains_key(k)]
        (a + d + sh).contains(k) <==> current.as_map().contains_key(k)
            || loaded.as_map().contains_key(k) by {
        lemma_concat_contains(a, d, k);
        lemma_concat_contains(a + d, sh, k);
        lemma_map_of_dom(c, k);
        lemma_map_of_dom(l, k);
        assert(sh.contains(k) == (has_path(l, k) && has_path(c, k)));
    }
}

/// Comparing a mapping with itself finds no length mismatch, no added and
/// no removed path, and one match for every path, in path order.
pub proof fn law_compare_self(
    m: &DigestMapping,
    sets: Seq<CompareResult>,
    files: Seq<CompareFileResult>,
)
    requires
        m.wf(),
        set_differences_are(sets, m@, m@),
        file_results_are(files, m@, m@),
    ensures
        !length_mismatch(m@, m@),
        sets.len() == 0,
        files.len() == m@.len(),
        forall|i: int|
            0 <= i < files.len() ==> #[trigger] files[i] is FileMatches && files[i].path()
                == m@[i].0,
{
    assert forall|j: int| 0 <= j < m@.len() implies map_of(m@).contains_key(#[trigger] m@[j].0) by {
        lemma_map_of_index(m@, j);
    }
    lemma_all_present(m@, map_of(m@));
    assert forall|i: int| 0 <= i < files.len() implies #[trigger] files[i] is FileMatches
        && files[i].path() == m@[i].0 by {
        assert(files[i].path() == shared_paths(m@, m@)[i]);
        assert(keys_of(m@)[i] == m@[i].0);
    }
}

/// Two mappings whose digests have different lengths (for instance 64 and
/// 128 characters) always compare as a length mismatch.
pub proof fn law_length_mismatch(current: &DigestMapping, loaded: &DigestMapping, n: nat, p: nat)
    requires
        current@.len() > 0,
        loaded@.len() > 0,
        n != p,
        forall|i: int| 0 <= i < current@.len() ==> (#[trigger] current@[i]).1.len() == n,
        forall|i: int| 0 <= i < loaded@.len() ==> (#[trigger] loaded@[i]).1.len() == p,
    ensures
        length_mismatch(current@, loaded@),
{
    assert(current@[0].1.len() == n);
    assert(loaded@[0].1.len() == p);
}

} // verus!
