//! The documents a client has opened on a language server, and the version
//! numbers it has given their contents.
use vstd::prelude::*;

use crate::text::{owned, str_eq};

verus! {

/// Open documents and the last version sent for each path.
pub struct OpenDocuments {
    open: Vec<String>,
    versions: Vec<(String, u32)>,
}

/// The version recorded last for a path in a list of pairs.
pub open spec fn version_in(pairs: Seq<(String, u32)>, path: Seq<char>) -> Option<u32>
    decreases pairs.len(),
{
    if pairs.len() == 0 {
        None
    } else if pairs.last().0@ == path {
        Some(pairs.last().1)
    } else {
        version_in(pairs.drop_last(), path)
    }
}

/// Whether a path is in a list.
pub open spec fn listed(paths: Seq<String>, path: Seq<char>) -> bool {
    exists|i: int| 0 <= i < paths.len() && #[trigger] paths[i]@ == path
}

/// The version the next change of a document gets: one past the last one
/// sent, or 1 when none was.
pub open spec fn next_version(last: Option<u32>) -> int {
    match last {
        Some(v) => v + 1,
        None => 1,
    }
}

proof fn lemma_version_remove(pairs: Seq<(String, u32)>, i: int, p: Seq<char>)
    requires
        0 <= i < pairs.len(),
        pairs[i].0@ != p,
    ensures
        version_in(pairs.remove(i), p) == version_in(pairs, p),
    decreases pairs.len(),
{
    if i == pairs.len() - 1 {
        assert(pairs.remove(i) =~= pairs.drop_last());
    } else {
        assert(pairs.remove(i).drop_last() =~= pairs.drop_last().remove(i));
        assert(pairs.remove(i).last() == pairs.last());
        lemma_version_remove(pairs.drop_last(), i, p);
    }
}

proof fn lemma_version_update(pairs: Seq<(String, u32)>, i: int, x: (String, u32), p: Seq<char>)
    requires
        0 <= i < pairs.len(),
        pairs[i].0@ != p,
        x.0@ != p,
    ensures
        version_in(pairs.update(i, x), p) == version_in(pairs, p),
    decreases pairs.len(),
{
    if i == pairs.len() - 1 {
        assert(pairs.update(i, x).drop_last() =~= pairs.drop_last());
    } else {
        assert(pairs.update(i, x).drop_last() =~= pairs.drop_last().update(i, x));
        assert(pairs.update(i, x).last() == pairs.last());
        lemma_version_update(pairs.drop_last(), i, x, p);
    }
}

proof fn lemma_version_found(pairs: Seq<(String, u32)>, p: Seq<char>)
    ensures
        version_in(pairs, p) matches Some(v) ==> exists|i: int|
            0 <= i < pairs.len() && #[trigger] pairs[i].0@ == p && pairs[i].1 == v,
        version_in(pairs, p) is None ==> forall|i: int| 0 <= i < pairs.len() ==> #[trigger] pairs[i].0@ != p,
    decreases pairs.len(),
{
    if pairs.len() > 0 && pairs.last().0@ != p {
        lemma_version_found(pairs.drop_last(), p);
        if let Some(v) = version_in(pairs, p) {
            let i = choose|i: int| 0 <= i < pairs.drop_last().len() && #[trigger] pairs.drop_last()[i].0@ == p
                && pairs.drop_last()[i].1 == v;
            assert(pairs[i] == pairs.drop_last()[i]);
        } else {
            assert forall|i: int| 0 <= i < pairs.len() implies #[trigger] pairs[i].0@ != p by {
                if i < pairs.len() - 1 {
                    assert(pairs[i] == pairs.drop_last()[i]);
                }
            }
        }
    } else if pairs.len() > 0 {
        assert(pairs[pairs.len() - 1].0@ == p);
    }
}

proof fn lemma_version_at(pairs: Seq<(String, u32)>, i: int, p: Seq<char>)
    requires
        0 <= i < pairs.len(),
        pairs[i].0@ == p,
        forall|j: int| 0 <= j < pairs.len() && j != i ==> #[trigger] pairs[j].0@ != p,
    ensures
        version_in(pairs, p) == Some(pairs[i].1),
    decreases pairs.len(),
{
    if i != pairs.len() - 1 {
        assert(pairs.last().0@ != p);
        assert forall|j: int| 0 <= j < pairs.drop_last().len() && j != i implies #[trigger] pairs.drop_last()[j].0@
            != p by {
            assert(pairs.drop_last()[j] == pairs[j]);
        }
        lemma_version_at(pairs.drop_last(), i, p);
    }
}

impl OpenDocuments {
    /// No path is listed twice.
    pub closed spec fn wf(&self) -> bool {
        &&& forall|i: int, j: int|
            0 <= i < self.open@.len() && 0 <= j < self.open@.len() && i != j ==> #[trigger] self.open@[i]@
                != #[trigger] self.open@[j]@
        &&& forall|i: int, j: int|
            0 <= i < self.versions@.len() && 0 <= j < self.versions@.len() && i != j
                ==> #[trigger] self.versions@[i].0@ != #[trigger] self.versions@[j].0@
    }

    /// Whether a document is open.
    pub closed spec fn opened(&self, path: Seq<char>) -> bool {
        listed(self.open@, path)
    }

    /// The last version sent for a path.
    pub closed spec fn version(&self, path: Seq<char>) -> Option<u32> {
        version_in(self.versions@, path)
    }

    pub fn new() -> (r: Self)
        ensures
            r.wf(),
            forall|p: Seq<char>| !r.opened(p) && r.version(p) is None,
    {
        OpenDocuments { open: Vec::new(), versions: Vec::new() }
    }

    fn open_index(&self, path: &str) -> (r: Option<usize>)
        ensures
            match r {
                Some(i) => i < self.open@.len() && self.open@[i as int]@ == path@,
                None => !self.opened(path@),
            },
    {
        let mut i: usize = 0;
        while i < self.open.len()
            invariant
                i <= self.open@.len(),
                forall|j: int| 0 <= j < i ==> #[trigger] self.open@[j]@ != path@,
            decreases self.open.len() - i,
        {
            if str_eq(self.open[i].as_str(), path) {
                return Some(i);
            }
            i += 1;
        }
        None
    }

    fn version_index(&self, path: &str) -> (r: Option<usize>)
        requires
            self.wf(),
        ensures
            match r {
                Some(i) => i < self.versions@.len() && self.versions@[i as int].0@ == path@ && self.version(path@)
                    == Some(self.versions@[i as int].1),
                None => self.version(path@) is None,
            },
    {
        let mut i: usize = 0;
        while i < self.versions.len()
            invariant
                i <= self.versions@.len(),
                self.wf(),
                forall|j: int| 0 <= j < i ==> #[trigger] self.versions@[j].0@ != path@,
            decreases self.versions.len() - i,
        {
            if str_eq(self.versions[i].0.as_str(), path) {
                proof {
                    assert forall|j: int| 0 <= j < self.versions@.len() && j != i implies #[trigger] self.versions@[j].0@
                        != path@ by {
                        assert(self.versions@[j].0@ != self.versions@[i as int].0@);
                    }
                    lemma_version_at(self.versions@, i as int, path@);
                }
                return Some(i);
            }
            i += 1;
        }
        proof {
            lemma_version_found(self.versions@, path@);
        }
        None
    }

    /// Whether a document is open.
    pub fn is_open(&self, path: &str) -> (r: bool)
        ensures
            r == self.opened(path@),
    {
        self.open_index(path).is_some()
    }

    /// Whether a path is in a list.
pub open spec fn listed(paths: Seq<String>, path: Seq<char>) -> bool {
    exists|i: int| 0 <= i < paths.len() && #[trigger] paths[i]@ == path
}

/// The version the next change of a document gets.
    pub fn change_version(&self, path: &str) -> (r: u32)
        requires
            self.wf(),
            self.version(path@) != Some(u32::MAX),
        ensures
            r == next_version(self.version(path@)),
    {
        match self.version_index(path) {
            Some(i) => self.versions[i].1 + 1,
            None => 1,
        }
    }

    /// Records the version last sent for a document.
    pub fn record_version(&mut self, path: &str, version: u32)
        requires
            old(self).wf(),
        ensures
            final(self).wf(),
            final(self).version(path@) == Some(version),
            forall|p: Seq<char>| p != path@ ==> final(self).version(p) == old(self).version(p),
            forall|p: Seq<char>| final(self).opened(p) == old(self).opened(p),
    {
        let ghost before = self.versions@;
        match self.version_index(path) {
            Some(i) => {
                self.versions.set(i, (owned(path), version));
                proof {
                    assert forall|a: int, b: int|
                        0 <= a < self.versions@.len() && 0 <= b < self.versions@.len() && a != b
                            implies #[trigger] self.versions@[a].0@ != #[trigger] self.versions@[b].0@ by {
                        assert(before[a].0@ != before[b].0@);
                        if a != i {
                            assert(self.versions@[a] == before[a]);
                        }
                        if b != i {
                            assert(self.versions@[b] == before[b]);
                        }
                    }
                    assert forall|j: int| 0 <= j < self.versions@.len() && j != i implies #[trigger] self.versions@[j].0@
                        != path@ by {
                        assert(self.versions@[j] == before[j]);
                        assert(before[j].0@ != before[i as int].0@);
                    }
                    lemma_version_at(self.versions@, i as int, path@);
                    assert forall|p: Seq<char>| p != path@ implies version_in(self.versions@, p) == version_in(
                        before,
                        p,
                    ) by {
                        assert(self.versions@ =~= before.update(i as int, self.versions@[i as int]));
                        lemma_version_update(before, i as int, self.versions@[i as int], p);
                    }
                }
            },
            None => {
                proof {
                    lemma_version_found(before, path@);
                }
                self.versions.push((owned(path), version));
                proof {
                    assert(self.versions@.drop_last() =~= before);
                    assert forall|a: int, b: int|
                        0 <= a < self.versions@.len() && 0 <= b < self.versions@.len() && a != b
                            implies #[trigger] self.versions@[a].0@ != #[trigger] self.versions@[b].0@ by {
                        let n = before.len() as int;
                        if a < n {
                            assert(self.versions@[a] == before[a]);
                        }
                        if b < n {
                            assert(self.versions@[b] == before[b]);
                        }
                    }
                }
            },
        }
        assert(self.open@ == old(self).open@);
        assert forall|p: Seq<char>| self.opened(p) == old(self).opened(p) by {
            if old(self).opened(p) {
                let k = choose|k: int| 0 <= k < old(self).open@.len() && #[trigger] old(self).open@[k]@ == p;
                assert(self.open@[k]@ == p);
            }
        }
    }

    /// Records that a document was opened: its version starts at 0.
    pub fn record_open(&mut self, path: &str)
        requires
            old(self).wf(),
        ensures
            final(self).wf(),
            final(self).opened(path@),
            forall|p: Seq<char>| p != path@ ==> final(self).opened(p) == old(self).opened(p),
            final(self).version(path@) == Some(0u32),
            forall|p: Seq<char>| p != path@ ==> final(self).version(p) == old(self).version(p),
    {
        if self.open_index(path).is_none() {
            let ghost before = self.open@;
            self.open.push(owned(path));
            proof {
                assert(self.open@[before.len() as int]@ == path@);
                assert forall|a: int, b: int|
                    0 <= a < self.open@.len() && 0 <= b < self.open@.len() && a != b
                        implies #[trigger] self.open@[a]@ != #[trigger] self.open@[b]@ by {
                    if a < before.len() && b < before.len() {
                        assert(self.open@[a] == before[a]);
                        assert(self.open@[b] == before[b]);
                    } else if a < before.len() {
                        assert(self.open@[a] == before[a]);
                    } else {
                        assert(self.open@[b] == before[b]);
                    }
                }
                assert forall|p: Seq<char>| p != path@ implies self.opened(p) == old(self).opened(p) by {
                    if old(self).opened(p) {
                        let k = choose|k: int| 0 <= k < before.len() && #[trigger] before[k]@ == p;
                        assert(self.open@[k] == before[k]);
                    }
                    if self.opened(p) {
                        let k = choose|k: int| 0 <= k < self.open@.len() && #[trigger] self.open@[k]@ == p;
                        assert(self.open@[k] == before[k]);
                    }
                }
            }
        }
        self.record_version(path, 0);
    }

    /// Records that a document was closed: it is no longer open and its
    /// version is forgotten.
    pub fn record_close(&mut self, path: &str)
        requires
            old(self).wf(),
        ensures
            final(self).wf(),
            !final(self).opened(path@),
            forall|p: Seq<char>| p != path@ ==> final(self).opened(p) == old(self).opened(p),
            final(self).version(path@) is None,
            forall|p: Seq<char>| p != path@ ==> final(self).version(p) == old(self).version(p),
    {
        if let Some(i) = self.open_index(path) {
            let ghost before = self.open@;
            self.open.remove(i);
            proof {
                assert forall|a: int, b: int|
                    0 <= a < self.open@.len() && 0 <= b < self.open@.len() && a != b
                        implies #[trigger] self.open@[a]@ != #[trigger] self.open@[b]@ by {
                    let oa = if a < i { a } else { a + 1 };
                    let ob = if b < i { b } else { b + 1 };
                    assert(self.open@[a] == before[oa]);
                    assert(self.open@[b] == before[ob]);
                }
                assert forall|p: Seq<char>| #![auto] self.opened(p) == (old(self).opened(p) && p != path@) by {
                    if self.opened(p) {
                        let k = choose|k: int| 0 <= k < self.open@.len() && #[trigger] self.open@[k]@ == p;
                        let ok = if k < i { k } else { k + 1 };
                        assert(self.open@[k] == before[ok]);
                        assert(before[ok]@ != before[i as int]@);
                    }
                    if old(self).opened(p) && p != path@ {
                        let k = choose|k: int| 0 <= k < before.len() && #[trigger] before[k]@ == p;
                        assert(k != i);
                        let nk = if k < i { k } else { k - 1 };
                        assert(self.open@[nk] == before[k]);
                    }
                }
            }
        }
        let ghost after_open = self.open@;
        if let Some(j) = self.version_index(path) {
            let ghost before = self.versions@;
            self.versions.remove(j);
            proof {
                assert forall|a: int, b: int|
                    0 <= a < self.versions@.len() && 0 <= b < self.versions@.len() && a != b
                        implies #[trigger] self.versions@[a].0@ != #[trigger] self.versions@[b].0@ by {
                    let oa = if a < j { a } else { a + 1 };
                    let ob = if b < j { b } else { b + 1 };
                    assert(self.versions@[a] == before[oa]);
                    assert(self.versions@[b] == before[ob]);
                }
                assert forall|p: Seq<char>| p != path@ implies version_in(self.versions@, p) == version_in(before, p) by {
                    lemma_version_remove(before, j as int, p);
                }
                lemma_version_found(self.versions@, path@);
                if version_in(self.versions@, path@) is Some {
                    let k = choose|k: int| 0 <= k < self.versions@.len() && #[trigger] self.versions@[k].0@ == path@;
                    let ok = if k < j { k } else { k + 1 };
                    assert(self.versions@[k] == before[ok]);
                    assert(before[ok].0@ != before[j as int].0@);
                }
            }
        }
        assert(self.open@ == after_open);
    }
}

} // verus!
