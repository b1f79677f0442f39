//! The process-wide set of installed revisions, kept in ascending order of
//! revision number, and the content-addressed lookup the serving layer uses.
use vstd::prelude::*;
use crate::asset::{Asset, AssetList};
use crate::revision::LocalRevision;
use crate::strutil::str_eq;

verus! {

/// The canonical set of installed revisions. Revisions are identified by
/// their number; the vector is kept strictly ascending.
#[derive(Debug)]
pub struct RevisionStore {
    pub revisions: Vec<LocalRevision>,
}

/// The first revision of `s` carrying this name.
pub open spec fn rev_by_name(s: Seq<LocalRevision>, name: Seq<char>) -> Option<LocalRevision>
    decreases s.len(),
{
    if s.len() == 0 {
        None
    } else if s[0].name@ == name {
        Some(s[0])
    } else {
        rev_by_name(s.skip(1), name)
    }
}

pub proof fn lemma_rev_by_name_at(s: Seq<LocalRevision>, name: Seq<char>, i: int)
    requires
        0 <= i < s.len(),
        s[i].name@ == name,
        forall|k: int| 0 <= k < i ==> (#[trigger] s[k]).name@ != name,
    ensures
        rev_by_name(s, name) == Some(s[i]),
    decreases s.len(),
{
    if i > 0 {
        lemma_rev_by_name_at(s.skip(1), name, i - 1);
    }
}

pub proof fn lemma_rev_by_name_none(s: Seq<LocalRevision>, name: Seq<char>)
    requires
        forall|k: int| 0 <= k < s.len() ==> (#[trigger] s[k]).name@ != name,
    ensures
        rev_by_name(s, name) is None,
    decreases s.len(),
{
    if s.len() > 0 {
        lemma_rev_by_name_none(s.skip(1), name);
    }
}

/// Whether the inventory holds any asset with this checksum and size.
pub open spec fn has_match(al: AssetList, crc: u64, size: u64) -> bool {
    exists|k: int|
        0 <= k < al.all_spec().len() && (#[trigger] al.all_spec()[k]).crc == crc
            && al.all_spec()[k].size == size
}

/// Where `rev` lands when inserted into `s` by revision number: before the
/// first larger number, replacing an equal one.
pub open spec fn insert_sorted_spec(s: Seq<LocalRevision>, rev: LocalRevision) -> Seq<
    LocalRevision,
>
    decreases s.len(),
{
    if s.len() == 0 {
        seq![rev]
    } else if s[0].revision_number < rev.revision_number {
        seq![s[0]] + insert_sorted_spec(s.skip(1), rev)
    } else if s[0].revision_number == rev.revision_number {
        seq![rev] + s.skip(1)
    } else {
        seq![rev] + s
    }
}

/// Whether some revision of `s` carries this number.
pub open spec fn has_number(s: Seq<LocalRevision>, number: u64) -> bool {
    exists|i: int| 0 <= i < s.len() && (#[trigger] s[i]).revision_number == number
}

/// How the insertion changes the store's size: replacement on a known
/// number, growth by one otherwise.
pub proof fn lemma_insert_sorted_len(s: Seq<LocalRevision>, rev: LocalRevision)
    requires
        forall|i: int, j: int|
            0 <= i < j < s.len() ==> (#[trigger] s[i]).revision_number < (
            #[trigger] s[j]).revision_number,
    ensures
        has_number(s, rev.revision_number) ==> insert_sorted_spec(s, rev).len() == s.len(),
        !has_number(s, rev.revision_number) ==> insert_sorted_spec(s, rev).len() == s.len() + 1,
    decreases s.len(),
{
    if s.len() == 0 {
    } else if s[0].revision_number < rev.revision_number {
        assert(forall|i: int, j: int|
            0 <= i < j < s.skip(1).len() ==> (#[trigger] s.skip(1)[i]).revision_number < (
            #[trigger] s.skip(1)[j]).revision_number) by {
            assert(forall|i: int| 0 <= i < s.skip(1).len() ==> #[trigger] s.skip(1)[i] == s[i + 1]);
        }
        lemma_insert_sorted_len(s.skip(1), rev);
        if has_number(s, rev.revision_number) {
            let i = choose|i: int|
                0 <= i < s.len() && (#[trigger] s[i]).revision_number == rev.revision_number;
            assert(s.skip(1)[i - 1] == s[i]);
            assert(has_number(s.skip(1), rev.revision_number));
        } else {
            assert(!has_number(s.skip(1), rev.revision_number)) by {
                if has_number(s.skip(1), rev.revision_number) {
                    let i = choose|i: int|
                        0 <= i < s.skip(1).len() && (#[trigger] s.skip(1)[i]).revision_number
                            == rev.revision_number;
                    assert(s[i + 1] == s.skip(1)[i]);
                    assert(has_number(s, rev.revision_number));
                }
            }
        }
    } else if s[0].revision_number == rev.revision_number {
        assert(has_number(s, rev.revision_number));
    } else {
        assert(!has_number(s, rev.revision_number)) by {
            if has_number(s, rev.revision_number) {
                let i = choose|i: int|
                    0 <= i < s.len() && (#[trigger] s[i]).revision_number == rev.revision_number;
                if i > 0 {
                    assert(s[0].revision_number < s[i].revision_number);
                }
            }
        }
    }
}

proof fn lemma_insert_sorted_at(s: Seq<LocalRevision>, rev: LocalRevision, pos: int)
    requires
        0 <= pos <= s.len(),
        forall|k: int| 0 <= k < pos ==> (#[trigger] s[k]).revision_number < rev.revision_number,
        pos < s.len() ==> s[pos].revision_number >= rev.revision_number,
    ensures
        pos < s.len() && s[pos].revision_number == rev.revision_number ==> insert_sorted_spec(
            s,
            rev,
        ) == s.update(pos, rev),
        !(pos < s.len() && s[pos].revision_number == rev.revision_number) ==> insert_sorted_spec(
            s,
            rev,
        ) == s.subrange(0, pos) + seq![rev] + s.subrange(pos, s.len() as int),
    decreases s.len(),
{
    if s.len() == 0 {
        assert(insert_sorted_spec(s, rev) =~= s.subrange(0, pos) + seq![rev] + s.subrange(
            pos,
            s.len() as int,
        ));
    } else if pos == 0 {
        if s[0].revision_number == rev.revision_number {
            assert(insert_sorted_spec(s, rev) =~= s.update(0, rev));
        } else {
            assert(insert_sorted_spec(s, rev) =~= s.subrange(0, 0) + seq![rev] + s.subrange(
                0,
                s.len() as int,
            ));
        }
    } else {
        lemma_insert_sorted_at(s.skip(1), rev, pos - 1);
        if pos < s.len() && s[pos].revision_number == rev.revision_number {
            assert(s.skip(1)[pos - 1] == s[pos]);
            assert(s.skip(1).update(pos - 1, rev) =~= s.update(pos, rev).skip(1));
            assert(insert_sorted_spec(s, rev) =~= s.update(pos, rev));
        } else {
            assert(seq![s[0]] + (s.skip(1).subrange(0, pos - 1) + seq![rev] + s.skip(1).subrange(
                pos - 1,
                s.skip(1).len() as int,
            )) =~= s.subrange(0, pos) + seq![rev] + s.subrange(pos, s.len() as int));
        }
    }
}

impl RevisionStore {
    /// The store's contents, oldest number first.
    pub open spec fn revs(&self) -> Seq<LocalRevision> {
        self.revisions@
    }

    /// The store's invariant: numbers strictly ascending (so unique), and
    /// every revision's number is what its name writes.
    pub open spec fn wf(&self) -> bool {
        (forall|i: int, j: int|
            0 <= i < j < self.revs().len() ==> (#[trigger] self.revs()[i]).revision_number < (
            #[trigger] self.revs()[j]).revision_number) && (forall|i: int|
            0 <= i < self.revs().len() ==> (#[trigger] self.revs()[i]).wf())
    }

    /// An empty store.
    pub fn new() -> (r: RevisionStore)
        ensures
            r.revs().len() == 0,
            r.wf(),
    {
        RevisionStore { revisions: Vec::new() }
    }

    /// The revision with the largest number, or nothing when the store is
    /// empty.
    pub fn newest(&self) -> (r: Option<&LocalRevision>)
        requires
            self.wf(),
        ensures
            match r {
                Some(rev) => self.revs().len() > 0 && *rev == self.revs().last() && forall|i: int|
                    0 <= i < self.revs().len() ==> (#[trigger] self.revs()[i]).revision_number
                        <= rev.revision_number,
                None => self.revs().len() == 0,
            },
    {
        if self.revisions.len() == 0 {
            None
        } else {
            let r = &self.revisions[self.revisions.len() - 1];
            proof {
                assert forall|i: int|
                    0 <= i < self.revs().len() implies (#[trigger] self.revs()[i]).revision_number
                    <= self.revs().last().revision_number by {
                    if i < self.revs().len() - 1 {
                        assert(self.revs()[i].revision_number < self.revs()[self.revs().len()
                            - 1].revision_number);
                    }
                }
            }
            Some(r)
        }
    }

    /// Inserts a revision, replacing any present one with the same number;
    /// every other revision stays, and the order stays ascending.
    pub fn insert(&mut self, rev: LocalRevision)
        requires
            old(self).wf(),
            rev.wf(),
        ensures
            final(self).revs() == insert_sorted_spec(old(self).revs(), rev),
            final(self).wf(),
            has_number(old(self).revs(), rev.revision_number) ==> final(self).revs().len() == old(
                self,
            ).revs().len(),
            !has_number(old(self).revs(), rev.revision_number) ==> final(self).revs().len() == old(
                self,
            ).revs().len() + 1,
    {
        let ghost s0 = self.revisions@;
        let n: usize = self.revisions.len();
        let mut pos: usize = 0;
        while pos < n
            invariant
                pos <= n,
                n == self.revisions@.len(),
                self.revisions@ == s0,
                forall|k: int|
                    0 <= k < pos ==> (#[trigger] s0[k]).revision_number < rev.revision_number,
            ensures
                pos <= n,
                n == self.revisions@.len(),
                self.revisions@ == s0,
                forall|k: int|
                    0 <= k < pos ==> (#[trigger] s0[k]).revision_number < rev.revision_number,
                pos < n ==> s0[pos as int].revision_number >= rev.revision_number,
            decreases n - pos,
        {
            if self.revisions[pos].revision_number >= rev.revision_number {
                break;
            }
            pos = pos + 1;
        }
        proof {
            lemma_insert_sorted_at(s0, rev, pos as int);
        }
        if pos < n && self.revisions[pos].revision_number == rev.revision_number {
            self.revisions.set(pos, rev);
            proof {
                let s1 = self.revisions@;
                assert(s1 == s0.update(pos as int, rev));
                assert(has_number(s0, rev.revision_number)) by {
                    assert(s0[pos as int].revision_number == rev.revision_number);
                }
                assert forall|i: int, j: int| 0 <= i < j < s1.len() implies (
                #[trigger] s1[i]).revision_number < (#[trigger] s1[j]).revision_number by {
                    assert(old(self).revs()[i].revision_number == s0[i].revision_number);
                    assert(old(self).revs()[j].revision_number == s0[j].revision_number);
                }
                assert forall|i: int| 0 <= i < s1.len() implies (#[trigger] s1[i]).wf() by {
                    assert(old(self).revs()[i] == s0[i]);
                }
            }
        } else {
            self.revisions.insert(pos, rev);
            proof {
                let s1 = self.revisions@;
                assert(s1 =~= s0.subrange(0, pos as int) + seq![rev] + s0.subrange(
                    pos as int,
                    s0.len() as int,
                ));
                assert(pos < n ==> s0[pos as int].revision_number > rev.revision_number);
                assert(!has_number(s0, rev.revision_number)) by {
                    if has_number(s0, rev.revision_number) {
                        let i = choose|i: int|
                            0 <= i < s0.len() && (#[trigger] s0[i]).revision_number
                                == rev.revision_number;
                        if i > pos {
                            assert(old(self).revs()[pos as int].revision_number < old(
                                self,
                            ).revs()[i].revision_number);
                        }
                    }
                }
                assert forall|i: int, j: int| 0 <= i < j < s1.len() implies (
                #[trigger] s1[i]).revision_number < (#[trigger] s1[j]).revision_number by {
                    let p = pos as int;
                    if i < p && j < p {
                        assert(old(self).revs()[i].revision_number < old(
                            self,
                        ).revs()[j].revision_number);
                    } else if i < p && j > p {
                        assert(old(self).revs()[i].revision_number < old(self).revs()[j
                            - 1].revision_number);
                    } else if i == p && j > p {
                        assert(old(self).revs()[p].revision_number <= old(self).revs()[j
                            - 1].revision_number) by {
                            if p < j - 1 {
                                assert(old(self).revs()[p].revision_number < old(self).revs()[j
                                    - 1].revision_number);
                            }
                        }
                    } else if i > p && j > p {
                        assert(old(self).revs()[i - 1].revision_number < old(self).revs()[j
                            - 1].revision_number);
                    }
                }
                assert forall|i: int| 0 <= i < s1.len() implies (#[trigger] s1[i]).wf() by {
                    let p = pos as int;
                    if i < p {
                        assert(old(self).revs()[i].wf());
                    } else if i > p {
                        assert(old(self).revs()[i - 1].wf());
                    }
                }
            }
        }
    }

    /// For the asset `asset_name` of the revision named `revision`, the name
    /// of the first revision, in ascending number order, holding any asset
    /// with the same checksum and size; nothing when the revision or the
    /// asset is unknown, or no revision holds a match.
    pub fn find_revision_for_asset(&self, revision: &str, asset_name: &str) -> (r: Option<String>)
        requires
            self.wf(),
        ensures
            match rev_by_name(self.revs(), revision@) {
                None => r is None,
                Some(lr) => match lr.assets.find_by_name_spec(asset_name@) {
                    None => r is None,
                    Some(a) => match r {
                        Some(name) => exists|j: int|
                            0 <= j < self.revs().len() && name@ == (#[trigger] self.revs()[j]).name@
                                && has_match(self.revs()[j].assets, a.crc, a.size) && forall|k: int|
                                0 <= k < j ==> !has_match(
                                    (#[trigger] self.revs()[k]).assets,
                                    a.crc,
                                    a.size,
                                ),
                        None => forall|j: int|
                            0 <= j < self.revs().len() ==> !has_match(
                                (#[trigger] self.revs()[j]).assets,
                                a.crc,
                                a.size,
                            ),
                    },
                },
            },
    {
        let n: usize = self.revisions.len();
        let mut i: usize = 0;
        let mut found: Option<usize> = None;
        while i < n
            invariant_except_break
                found is None,
            invariant
                i <= n,
                n == self.revs().len(),
                forall|k: int| 0 <= k < i ==> (#[trigger] self.revs()[k]).name@ != revision@,
            ensures
                n == self.revs().len(),
                match found {
                    Some(fi) => fi < n && self.revs()[fi as int].name@ == revision@ && forall|
                        k: int,
                    |
                        0 <= k < fi ==> (#[trigger] self.revs()[k]).name@ != revision@,
                    None => forall|k: int|
                        0 <= k < n ==> (#[trigger] self.revs()[k]).name@ != revision@,
                },
            decreases n - i,
        {
            if str_eq(self.revisions[i].name.as_str(), revision) {
                found = Some(i);
                break;
            }
            i = i + 1;
        }
        let fi: usize = match found {
            Some(fi) => fi,
            None => {
                proof {
                    lemma_rev_by_name_none(self.revs(), revision@);
                }
                return None;
            },
        };
        proof {
            lemma_rev_by_name_at(self.revs(), revision@, fi as int);
        }
        let lr: &LocalRevision = &self.revisions[fi];
        let asset: &Asset = match lr.assets.find_by_name(asset_name) {
            Some(a) => a,
            None => {
                return None;
            },
        };
        let crc: u64 = asset.crc;
        let size: u64 = asset.size;
        let ghost a_spec = lr.assets.find_by_name_spec(asset_name@).unwrap();
        let mut j: usize = 0;
        while j < n
            invariant
                j <= n,
                n == self.revs().len(),
                crc == a_spec.crc,
                size == a_spec.size,
                rev_by_name(self.revs(), revision@) == Some(self.revs()[fi as int]),
                self.revs()[fi as int].assets.find_by_name_spec(asset_name@) == Some(a_spec),
                fi < n,
                forall|k: int|
                    0 <= k < j ==> !has_match((#[trigger] self.revs()[k]).assets, crc, size),
            decreases n - j,
        {
            if Self::list_has_match(&self.revisions[j].assets, crc, size) {
                let name = self.revisions[j].name.clone();
                proof {
                    assert(0 <= j < self.revs().len() && name@ == self.revs()[j as int].name@
                        && has_match(self.revs()[j as int].assets, a_spec.crc, a_spec.size));
                }
                return Some(name);
            }
            j = j + 1;
        }
        None
    }

    /// Whether the inventory holds any asset with this checksum and size.
    fn list_has_match(al: &AssetList, crc: u64, size: u64) -> (r: bool)
        ensures
            r == has_match(*al, crc, size),
    {
        let all: Vec<Asset> = al.all();
        let mut k: usize = 0;
        while k < all.len()
            invariant
                k <= all@.len(),
                all@ == al.all_spec(),
                forall|m: int|
                    0 <= m < k ==> !((#[trigger] all@[m]).crc == crc && all@[m].size == size),
            decreases all@.len() - k,
        {
            if all[k].crc == crc && all[k].size == size {
                return true;
            }
            k = k + 1;
        }
        false
    }

    /// The names of the known revisions, in ascending number order.
    pub fn revision_names(&self) -> (r: Vec<String>)
        ensures
            r@.len() == self.revs().len(),
            forall|i: int| 0 <= i < r@.len() ==> (#[trigger] r@[i])@ == self.revs()[i].name@,
    {
        let mut r: Vec<String> = Vec::new();
        let mut i: usize = 0;
        while i < self.revisions.len()
            invariant
                i <= self.revs().len(),
                r@.len() == i,
                forall|k: int| 0 <= k < i ==> (#[trigger] r@[k])@ == self.revs()[k].name@,
            decreases self.revs().len() - i,
        {
            r.push(self.revisions[i].name.clone());
            i = i + 1;
        }
        r
    }
}

} // verus!
