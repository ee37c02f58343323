//! The ordered mapping from relative file path to digest.

use vstd::prelude::*;

use crate::text::chars_of;

verus! {

/// Lexicographic order of paths, character by character.
pub open spec fn path_lt(a: Seq<char>, b: Seq<char>) -> bool
    decreases a.len(),
{
    if b.len() == 0 {
        false
    } else if a.len() == 0 {
        true
    } else if a[0] != b[0] {
        a[0] < b[0]
    } else {
        path_lt(a.drop_first(), b.drop_first())
    }
}

pub proof fn lemma_path_lt_irreflexive(a: Seq<char>)
    ensures
        !path_lt(a, a),
    decreases a.len(),
{
    if a.len() > 0 {
        lemma_path_lt_irreflexive(a.drop_first());
    }
}

pub proof fn lemma_path_lt_transitive(a: Seq<char>, b: Seq<char>, c: Seq<char>)
    requires
        path_lt(a, b),
        path_lt(b, c),
    ensures
        path_lt(a, c),
    decreases a.len(),
{
    if a.len() > 0 && b.len() > 0 && c.len() > 0 && a[0] == b[0] && b[0] == c[0] {
        lemma_path_lt_transitive(a.drop_first(), b.drop_first(), c.drop_first());
    }
}

pub proof fn lemma_path_lt_asymmetric(a: Seq<char>, b: Seq<char>)
    requires
        path_lt(a, b),
    ensures
        !path_lt(b, a),
{
    if path_lt(b, a) {
        lemma_path_lt_transitive(a, b, a);
        lemma_path_lt_irreflexive(a);
    }
}

/// Compares two paths: negative when `a` sorts first, zero when they are
/// equal, positive when `b` sorts first.
pub fn compare_paths(a: &str, b: &str) -> (r: i8)
    ensures
        (r < 0) == path_lt(a@, b@),
        (r == 0) == (a@ == b@),
        (r > 0) == path_lt(b@, a@),
{
    let x = chars_of(a);
    let y = chars_of(b);
    let mut i: usize = 0;
    assert(a@.skip(0) =~= a@ && b@.skip(0) =~= b@);
    while i < x.len() && i < y.len()
        invariant
            x@ == a@,
            y@ == b@,
            i <= x.len(),
            i <= y.len(),
            forall|j: int| 0 <= j < i ==> x@[j] == y@[j],
            path_lt(a@, b@) == path_lt(a@.skip(i as int), b@.skip(i as int)),
            path_lt(b@, a@) == path_lt(b@.skip(i as int), a@.skip(i as int)),
        decreases x.len() - i,
    {
        if x[i] != y[i] {
            proof {
                assert(a@.skip(i as int)[0] == x@[i as int]);
                assert(b@.skip(i as int)[0] == y@[i as int]);
                assert(a@[i as int] != b@[i as int]);
            }
            if x[i] < y[i] {
                proof {
                    lemma_path_lt_asymmetric(a@, b@);
                }
                return -1;
            } else {
                proof {
                    lemma_path_lt_asymmetric(b@, a@);
                }
                return 1;
            }
        }
        proof {
            assert(a@.skip(i as int).drop_first() =~= a@.skip(i + 1));
            assert(b@.skip(i as int).drop_first() =~= b@.skip(i + 1));
        }
        i += 1;
    }
    if x.len() == y.len() {
        assert(a@ =~= b@);
        proof {
            lemma_path_lt_irreflexive(a@);
        }
        0
    } else if x.len() < y.len() {
        assert(a@.len() != b@.len());
        proof {
            lemma_path_lt_asymmetric(a@, b@);
        }
        -1
    } else {
        assert(a@.len() != b@.len());
        proof {
            lemma_path_lt_asymmetric(b@, a@);
        }
        1
    }
}

/// An ordered mapping from relative path to digest. Entries are kept sorted
/// by path, each path once.
pub struct DigestMapping {
    entries: Vec<(String, String)>,
}

impl View for DigestMapping {
    type V = Seq<(Seq<char>, Seq<char>)>;

    closed spec fn view(&self) -> Seq<(Seq<char>, Seq<char>)> {
        self.entries@.map_values(|e: (String, String)| (e.0@, e.1@))
    }
}

/// The paths of a sequence of entries, in order.
pub open spec fn keys_of(s: Seq<(Seq<char>, Seq<char>)>) -> Seq<Seq<char>> {
    s.map_values(|e: (Seq<char>, Seq<char>)| e.0)
}

/// Entries whose paths strictly increase.
pub open spec fn sorted_entries(s: Seq<(Seq<char>, Seq<char>)>) -> bool {
    forall|i: int, j: int| 0 <= i < j < s.len() ==> path_lt(#[trigger] s[i].0, #[trigger] s[j].0)
}

/// Whether some entry has the path.
pub open spec fn has_path(s: Seq<(Seq<char>, Seq<char>)>, k: Seq<char>) -> bool {
    exists|i: int| 0 <= i < s.len() && s[i].0 == k
}

/// The index of an entry with the path, when there is one.
pub open spec fn index_of(s: Seq<(Seq<char>, Seq<char>)>, k: Seq<char>) -> int {
    choose|i: int| 0 <= i < s.len() && s[i].0 == k
}

/// The map that a sequence of entries with distinct paths stands for.
pub open spec fn map_of(s: Seq<(Seq<char>, Seq<char>)>) -> Map<Seq<char>, Seq<char>> {
    Map::new(
        |k: Seq<char>| has_path(s, k),
        |k: Seq<char>| s[index_of(s, k)].1,
    )
}

pub proof fn lemma_sorted_distinct(s: Seq<(Seq<char>, Seq<char>)>, i: int, j: int)
    requires
        sorted_entries(s),
        0 <= i < s.len(),
        0 <= j < s.len(),
        s[i].0 == s[j].0,
    ensures
        i == j,
{
    if i < j {
        assert(path_lt(s[i].0, s[j].0));
        lemma_path_lt_irreflexive(s[i].0);
    } else if j < i {
        assert(path_lt(s[j].0, s[i].0));
        lemma_path_lt_irreflexive(s[i].0);
    }
}

/// In sorted entries, the map holds each entry's digest under its path.
pub proof fn lemma_map_of_index(s: Seq<(Seq<char>, Seq<char>)>, i: int)
    requires
        sorted_entries(s),
        0 <= i < s.len(),
    ensures
        map_of(s).contains_key(s[i].0),
        map_of(s)[s[i].0] == s[i].1,
{
    let k = s[i].0;
    assert(has_path(s, k));
    assert(map_of(s).contains_key(k));
    let j = index_of(s, k);
    lemma_sorted_distinct(s, i, j);
}

/// In sorted entries, the map holds a path exactly when some entry has it.
pub proof fn lemma_map_of_dom(s: Seq<(Seq<char>, Seq<char>)>, k: Seq<char>)
    ensures
        map_of(s).contains_key(k) == has_path(s, k),
{
}

pub proof fn lemma_map_of_update(s: Seq<(Seq<char>, Seq<char>)>, i: int, e: (Seq<char>, Seq<char>))
    requires
        sorted_entries(s),
        0 <= i < s.len(),
        s[i].0 == e.0,
    ensures
        sorted_entries(s.update(i, e)),
        map_of(s.update(i, e)) =~= map_of(s).insert(e.0, e.1),
{
    let t = s.update(i, e);
    assert forall|a: int, b: int| 0 <= a < b < t.len() implies path_lt(
        #[trigger] t[a].0,
        #[trigger] t[b].0,
    ) by {
        assert(path_lt(s[a].0, s[b].0));
    }
    assert forall|k: Seq<char>| #[trigger]
        map_of(t).contains_key(k) == map_of(s).insert(e.0, e.1).contains_key(k) by {
        if has_path(s, k) {
            let j = index_of(s, k);
            assert(t[j].0 == k);
        }
        if has_path(t, k) {
            let j = index_of(t, k);
            assert(s[j].0 == k);
        }
    }
    assert forall|k: Seq<char>| #[trigger] map_of(t).contains_key(k) implies map_of(t)[k]
        == map_of(s).insert(e.0, e.1)[k] by {
        lemma_map_of_dom(t, k);
        let j = index_of(t, k);
        lemma_map_of_index(t, j);
        if k == e.0 {
            lemma_sorted_distinct(t, i, j);
        } else {
            lemma_map_of_index(s, j);
        }
    }
}

pub proof fn lemma_map_of_insert(s: Seq<(Seq<char>, Seq<char>)>, i: int, e: (Seq<char>, Seq<char>))
    requires
        sorted_entries(s),
        0 <= i <= s.len(),
        forall|j: int| 0 <= j < i ==> path_lt(#[trigger] s[j].0, e.0),
        forall|j: int| i <= j < s.len() ==> path_lt(e.0, #[trigger] s[j].0),
    ensures
        sorted_entries(s.insert(i, e)),
        map_of(s.insert(i, e)) =~= map_of(s).insert(e.0, e.1),
{
    let t = s.insert(i, e);
    assert forall|a: int, b: int| 0 <= a < b < t.len() implies path_lt(
        #[trigger] t[a].0,
        #[trigger] t[b].0,
    ) by {
        if b < i {
            assert(path_lt(s[a].0, s[b].0));
        } else if b == i {
        } else if a < i {
            assert(path_lt(s[a].0, e.0));
            assert(path_lt(e.0, s[b - 1].0));
            lemma_path_lt_transitive(s[a].0, e.0, s[b - 1].0);
        } else if a == i {
        } else {
            assert(path_lt(s[a - 1].0, s[b - 1].0));
        }
    }
    assert forall|k: Seq<char>| #[trigger]
        map_of(t).contains_key(k) == map_of(s).insert(e.0, e.1).contains_key(k) by {
        if has_path(s, k) {
            let j = index_of(s, k);
            if j < i {
                assert(t[j].0 == k);
            } else {
                assert(t[j + 1].0 == k);
            }
        }
        assert(t[i].0 == e.0);
        if has_path(t, k) {
            let j = index_of(t, k);
            if j < i {
                assert(s[j].0 == k);
            } else if j > i {
                assert(s[j - 1].0 == k);
            }
        }
    }
    assert forall|k: Seq<char>| #[trigger] map_of(t).contains_key(k) implies map_of(t)[k]
        == map_of(s).insert(e.0, e.1)[k] by {
        lemma_map_of_dom(t, k);
        let j = index_of(t, k);
        lemma_map_of_index(t, j);
        if k == e.0 {
            lemma_sorted_distinct(t, i, j);
        } else if j < i {
            lemma_map_of_index(s, j);
        } else {
            lemma_map_of_index(s, j - 1);
        }
    }
}

pub proof fn lemma_map_of_remove(s: Seq<(Seq<char>, Seq<char>)>, i: int)
    requires
        sorted_entries(s),
        0 <= i < s.len(),
    ensures
        sorted_entries(s.remove(i)),
        map_of(s.remove(i)) =~= map_of(s).remove(s[i].0),
{
    let t = s.remove(i);
    assert forall|a: int, b: int| 0 <= a < b < t.len() implies path_lt(
        #[trigger] t[a].0,
        #[trigger] t[b].0,
    ) by {
        if b < i {
            assert(path_lt(s[a].0, s[b].0));
        } else if a < i {
            assert(path_lt(s[a].0, s[b + 1].0));
        } else {
            assert(path_lt(s[a + 1].0, s[b + 1].0));
        }
    }
    assert forall|k: Seq<char>| #[trigger]
        map_of(t).contains_key(k) == map_of(s).remove(s[i].0).contains_key(k) by {
        if has_path(s, k) && k != s[i].0 {
            let j = index_of(s, k);
            if j < i {
                assert(t[j].0 == k);
            } else {
                assert(t[j - 1].0 == k);
            }
        }
        if has_path(t, k) {
            let j = index_of(t, k);
            if j < i {
                assert(s[j].0 == k);
                if k == s[i].0 {
                    lemma_sorted_distinct(s, i, j);
                }
            } else {
                assert(s[j + 1].0 == k);
                if k == s[i].0 {
                    lemma_sorted_distinct(s, i, j + 1);
                }
            }
        }
    }
    assert forall|k: Seq<char>| #[trigger] map_of(t).contains_key(k) implies map_of(t)[k]
        == map_of(s).remove(s[i].0)[k] by {
        lemma_map_of_dom(t, k);
        let j = index_of(t, k);
        lemma_map_of_index(t, j);
        if j < i {
            lemma_map_of_index(s, j);
        } else {
            lemma_map_of_index(s, j + 1);
        }
    }
}

impl DigestMapping {
    pub open spec fn wf(&self) -> bool {
        sorted_entries(self@)
    }

    /// The mapping as a map from path to digest.
    pub open spec fn as_map(&self) -> Map<Seq<char>, Seq<char>> {
        map_of(self@)
    }

    /// An empty mapping.
    pub fn new() -> (r: DigestMapping)
        ensures
            r.wf(),
            r@.len() == 0,
    {
        DigestMapping { entries: Vec::new() }
    }

    /// The number of entries.
    pub fn len(&self) -> (r: usize)
        ensures
            r == self@.len(),
    {
        self.entries.len()
    }

    pub fn is_empty(&self) -> (r: bool)
        ensures
            r == (self@.len() == 0),
    {
        self.entries.len() == 0
    }

    /// The path of the entry at an index, in path order.
    pub fn path_at(&self, i: usize) -> (r: &String)
        requires
            i < self@.len(),
        ensures
            r@ == self@[i as int].0,
    {
        &self.entries[i].0
    }

    /// The digest of the entry at an index, in path order.
    pub fn digest_at(&self, i: usize) -> (r: &String)
        requires
            i < self@.len(),
        ensures
            r@ == self@[i as int].1,
    {
        &self.entries[i].1
    }

    /// Looks a path up: its index if present, else the index where it would
    /// be inserted.
    fn find(&self, key: &str) -> (r: (bool, usize))
        requires
            self.wf(),
        ensures
            r.1 <= self@.len(),
            r.0 ==> r.1 < self@.len() && self@[r.1 as int].0 == key@,
            !r.0 ==> (forall|i: int| 0 <= i < r.1 ==> path_lt(#[trigger] self@[i].0, key@)),
            !r.0 ==> (forall|i: int|
                r.1 <= i < self@.len() ==> path_lt(key@, #[trigger] self@[i].0)),
            !r.0 ==> !has_path(self@, key@),
    {
        let mut lo: usize = 0;
        let mut hi: usize = self.entries.len();
        while lo < hi
            invariant
                self.wf(),
                lo <= hi <= self@.len(),
                forall|i: int| 0 <= i < lo ==> path_lt(#[trigger] self@[i].0, key@),
                forall|i: int| hi <= i < self@.len() ==> path_lt(key@, #[trigger] self@[i].0),
            decreases hi - lo,
        {
            let mid = lo + (hi - lo) / 2;
            let c = compare_paths(self.entries[mid].0.as_str(), key);
            if c == 0 {
                return (true, mid);
            } else if c < 0 {
                proof {
                    assert forall|i: int| 0 <= i <= mid implies path_lt(
                        #[trigger] self@[i].0,
                        key@,
                    ) by {
                        if i < mid {
                            assert(path_lt(self@[i].0, self@[mid as int].0));
                            lemma_path_lt_transitive(self@[i].0, self@[mid as int].0, key@);
                        }
                    }
                }
                lo = mid + 1;
            } else {
                proof {
                    assert forall|i: int| mid <= i < self@.len() implies path_lt(
                        key@,
                        #[trigger] self@[i].0,
                    ) by {
                        if i > mid {
                            assert(path_lt(self@[mid as int].0, self@[i].0));
                            lemma_path_lt_transitive(key@, self@[mid as int].0, self@[i].0);
                        }
                    }
                }
                hi = mid;
            }
        }
        proof {
            if has_path(self@, key@) {
                let i = choose|i: int| 0 <= i < self@.len() && self@[i].0 == key@;
                lemma_path_lt_irreflexive(key@);
                if i < lo {
                    assert(path_lt(self@[i].0, key@));
                } else {
                    assert(path_lt(key@, self@[i].0));
                }
            }
        }
        (false, lo)
    }

    /// The digest recorded for a path, if any.
    pub fn get(&self, key: &str) -> (r: Option<&String>)
        requires
            self.wf(),
        ensures
            r is Some == self.as_map().contains_key(key@),
            r is Some ==> r->Some_0@ == self.as_map()[key@],
    {
        let (found, i) = self.find(key);
        if found {
            proof {
                lemma_map_of_index(self@, i as int);
            }
            Some(&self.entries[i].1)
        } else {
            None
        }
    }

    /// Records a digest for a path; a path already present gets the new
    /// digest.
    pub fn insert(&mut self, key: String, value: String)
        requires
            old(self).wf(),
        ensures
            final(self).wf(),
            final(self).as_map() == old(self).as_map().insert(key@, value@),
    {
        let (found, i) = self.find(key.as_str());
        let ghost e = (key@, value@);
        if found {
            self.entries.set(i, (key, value));
            proof {
                assert(self@ =~= old(self)@.update(i as int, e));
                lemma_map_of_update(old(self)@, i as int, e);
            }
        } else {
            self.entries.insert(i, (key, value));
            proof {
                assert(self@ =~= old(self)@.insert(i as int, e));
                lemma_map_of_insert(old(self)@, i as int, e);
            }
        }
    }

    /// Drops the entry of a path, if there is one.
    pub fn remove(&mut self, key: &str)
        requires
            old(self).wf(),
        ensures
            final(self).wf(),
            final(self).as_map() == old(self).as_map().remove(key@),
    {
        let (found, i) = self.find(key);
        if found {
            self.entries.remove(i);
            proof {
                assert(self@ =~= old(self)@.remove(i as int));
                lemma_map_of_remove(old(self)@, i as int);
            }
        } else {
            proof {
                assert(old(self).as_map() =~= old(self).as_map().remove(key@));
            }
        }
    }

    /// Whether a path has an entry.
    pub fn contains_key(&self, key: &str) -> (r: bool)
        requires
            self.wf(),
        ensures
            r == self.as_map().contains_key(key@),
    {
        let (found, i) = self.find(key);
        if found {
            proof {
                lemma_map_of_index(self@, i as int);
            }
        }
        found
    }
}

} // verus!
