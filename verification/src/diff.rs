//! The diff engine: classifies one revision's inventory against a reference
//! revision into new, changed, unchanged and removed assets.
use vstd::prelude::*;
use crate::asset::{
    Asset, find_first_by_name, lemma_find_first_at, lemma_find_first_by_name_properties,
    lemma_find_first_none,
};
use crate::revision::LocalRevision;
use crate::store::{
    RevisionStore, has_number, insert_sorted_spec, lemma_insert_sorted_len,
};
use crate::strutil::str_eq;

verus! {

/// Why a diff was refused: the new revision brought no assets.
#[derive(Debug, PartialEq, Eq, Structural, Clone, Copy)]
pub enum DiffError {
    NoAssets,
}

/// The categorisation of one new revision against one reference revision.
#[derive(Debug)]
pub struct RevisionDiff {
    /// Assets whose filename the reference does not know.
    pub new_assets: Vec<Asset>,
    /// Assets present in both revisions with a different checksum or size.
    pub changed_assets: Vec<Asset>,
    /// Assets present in both revisions with the same checksum and size.
    pub unchanged_assets: Vec<Asset>,
    /// Reference assets whose filename the new revision dropped.
    pub removed_assets: Vec<Asset>,
}

impl Default for RevisionDiff {
    /// A diff with all four classes empty.
    fn default() -> (r: Self)
        ensures
            r.new_assets@ == Seq::<Asset>::empty(),
            r.changed_assets@ == Seq::<Asset>::empty(),
            r.unchanged_assets@ == Seq::<Asset>::empty(),
            r.removed_assets@ == Seq::<Asset>::empty(),
    {
        RevisionDiff {
            new_assets: Vec::new(),
            changed_assets: Vec::new(),
            unchanged_assets: Vec::new(),
            removed_assets: Vec::new(),
        }
    }
}

impl RevisionDiff {
    /// What a fetch cycle downloads: the new assets, then the changed ones,
    /// each in manifest order.
    pub fn assets_to_download(&self) -> (r: Vec<Asset>)
        ensures
            r@ == self.new_assets@ + self.changed_assets@,
    {
        let mut r: Vec<Asset> = Vec::new();
        let mut i: usize = 0;
        while i < self.new_assets.len()
            invariant
                i <= self.new_assets@.len(),
                r@ =~= self.new_assets@.subrange(0, i as int),
            decreases self.new_assets@.len() - i,
        {
            r.push(self.new_assets[i].clone());
            i = i + 1;
        }
        let mut j: usize = 0;
        while j < self.changed_assets.len()
            invariant
                j <= self.changed_assets@.len(),
                r@ =~= self.new_assets@ + self.changed_assets@.subrange(0, j as int),
            decreases self.changed_assets@.len() - j,
        {
            r.push(self.changed_assets[j].clone());
            j = j + 1;
        }
        proof {
            assert(r@ =~= self.new_assets@ + self.changed_assets@);
        }
        r
    }
}

/// Whether some asset of `s` carries the filename of `a`.
pub open spec fn in_names(a: Asset, s: Seq<Asset>) -> bool {
    find_first_by_name(s, a.filename@) is Some
}

/// `a` is new against `o`: no reference asset carries its filename.
pub open spec fn classifies_new(a: Asset, o: Seq<Asset>) -> bool {
    !in_names(a, o)
}

/// `a` is unchanged against `o`: the reference asset of the same filename
/// has the same checksum and size.
pub open spec fn classifies_unchanged(a: Asset, o: Seq<Asset>) -> bool {
    match find_first_by_name(o, a.filename@) {
        Some(b) => b.crc == a.crc && b.size == a.size,
        None => false,
    }
}

/// `a` is changed against `o`: the reference asset of the same filename has
/// a different checksum or size.
pub open spec fn classifies_changed(a: Asset, o: Seq<Asset>) -> bool {
    match find_first_by_name(o, a.filename@) {
        Some(b) => !(b.crc == a.crc && b.size == a.size),
        None => false,
    }
}

pub open spec fn diff_new_spec(n: Seq<Asset>, o: Seq<Asset>) -> Seq<Asset> {
    n.filter(|a: Asset| classifies_new(a, o))
}

pub open spec fn diff_changed_spec(n: Seq<Asset>, o: Seq<Asset>) -> Seq<Asset> {
    n.filter(|a: Asset| classifies_changed(a, o))
}

pub open spec fn diff_unchanged_spec(n: Seq<Asset>, o: Seq<Asset>) -> Seq<Asset> {
    n.filter(|a: Asset| classifies_unchanged(a, o))
}

pub open spec fn diff_removed_spec(n: Seq<Asset>, o: Seq<Asset>) -> Seq<Asset> {
    o.filter(|b: Asset| !in_names(b, n))
}

/// The reference inventory the comparison really runs against: the given
/// reference, unless it carries the new revision's own number — then the
/// largest-numbered revision of the store with a different number, and an
/// empty inventory when no such revision exists.
pub open spec fn fallback_reference(s: Seq<LocalRevision>, num: u64) -> Seq<Asset>
    decreases s.len(),
{
    if s.len() == 0 {
        Seq::empty()
    } else if s.last().revision_number != num {
        s.last().assets.all_spec()
    } else {
        fallback_reference(s.drop_last(), num)
    }
}

pub open spec fn effective_reference(
    store: Seq<LocalRevision>,
    new_num: u64,
    old: Option<&LocalRevision>,
) -> Seq<Asset> {
    match old {
        None => Seq::empty(),
        Some(o) => if o.revision_number == new_num {
            fallback_reference(store, new_num)
        } else {
            o.assets.all_spec()
        },
    }
}

/// The first asset of `v` with this filename.
fn find_in_assets<'a>(v: &'a Vec<Asset>, name: &str) -> (r: Option<&'a Asset>)
    ensures
        match r {
            Some(a) => find_first_by_name(v@, name@) == Some(*a),
            None => find_first_by_name(v@, name@) is None,
        },
{
    let mut i: usize = 0;
    while i < v.len()
        invariant
            i <= v@.len(),
            forall|k: int| 0 <= k < i ==> (#[trigger] v@[k]).filename@ != name@,
        decreases v@.len() - i,
    {
        if str_eq(v[i].filename.as_str(), name) {
            proof {
                lemma_find_first_at(v@, name@, i as int);
            }
            return Some(&v[i]);
        }
        i = i + 1;
    }
    proof {
        lemma_find_first_none(v@, name@);
    }
    None
}

pub(crate) proof fn lemma_filter_take_step<A>(s: Seq<A>, pred: spec_fn(A) -> bool, i: int)
    requires
        0 <= i < s.len(),
    ensures
        pred(s[i]) ==> s.take(i + 1).filter(pred) == s.take(i).filter(pred).push(s[i]),
        !pred(s[i]) ==> s.take(i + 1).filter(pred) == s.take(i).filter(pred),
{
    reveal(Seq::filter);
    assert(s.take(i + 1).drop_last() =~= s.take(i));
    assert(s.take(i + 1).last() == s[i]);
}

/// Compares a new revision against a reference revision (see
/// `effective_reference` for which inventory the reference contributes) and
/// returns the four classes, each preserving manifest order; refused only
/// when the new revision's inventory is empty.
pub fn compare_revisions(
    store: &RevisionStore,
    new_revision: &LocalRevision,
    old_revision: Option<&LocalRevision>,
) -> (r: Result<RevisionDiff, DiffError>)
    requires
        store.wf(),
    ensures
        new_revision.assets.all_spec().len() == 0 <==> r is Err,
        match r {
            Err(e) => e == DiffError::NoAssets,
            Ok(diff) => {
                let n = new_revision.assets.all_spec();
                let o = effective_reference(
                    store.revs(),
                    new_revision.revision_number,
                    old_revision,
                );
                diff.new_assets@ == diff_new_spec(n, o) && diff.changed_assets@
                    == diff_changed_spec(n, o) && diff.unchanged_assets@ == diff_unchanged_spec(
                    n,
                    o,
                ) && diff.removed_assets@ == diff_removed_spec(n, o)
            },
        },
{
    let ghost n = new_revision.assets.all_spec();
    let ghost o_spec = effective_reference(store.revs(), new_revision.revision_number, old_revision);
    if new_revision.assets.is_empty() {
        return Err(DiffError::NoAssets);
    }
    let old_assets: Vec<Asset> = match old_revision {
        None => Vec::new(),
        Some(orev) => {
            if orev.revision_number != new_revision.revision_number {
                orev.assets.all()
            } else {
                let m: usize = store.revisions.len();
                if m == 0 {
                    Vec::new()
                } else if store.revisions[m - 1].revision_number != new_revision.revision_number {
                    proof {
                        assert(store.revs().last() == store.revs()[m - 1]);
                    }
                    store.revisions[m - 1].assets.all()
                } else if m >= 2 {
                    proof {
                        assert(store.revs().last() == store.revs()[m - 1]);
                        assert(fallback_reference(store.revs(), new_revision.revision_number)
                            == fallback_reference(
                            store.revs().drop_last(),
                            new_revision.revision_number,
                        ));
                        assert(store.revs().drop_last().len() == m - 1);
                        assert(store.revs().drop_last().last() == store.revs()[m - 2]);
                        assert(store.revs()[m - 2].revision_number < store.revs()[m
                            - 1].revision_number);
                        assert(fallback_reference(
                            store.revs().drop_last(),
                            new_revision.revision_number,
                        ) == store.revs()[m - 2].assets.all_spec());
                    }
                    store.revisions[m - 2].assets.all()
                } else {
                    proof {
                        assert(store.revs().last() == store.revs()[m - 1]);
                        assert(fallback_reference(store.revs(), new_revision.revision_number)
                            == fallback_reference(
                            store.revs().drop_last(),
                            new_revision.revision_number,
                        ));
                        assert(store.revs().drop_last().len() == 0);
                    }
                    Vec::new()
                }
            }
        },
    };
    proof {
        assert(old_assets@ == o_spec);
    }
    let new_assets_all: Vec<Asset> = new_revision.assets.all();
    let mut diff = RevisionDiff::default();
    let mut i: usize = 0;
    while i < new_assets_all.len()
        invariant
            i <= new_assets_all@.len(),
            new_assets_all@ == n,
            old_assets@ == o_spec,
            diff.new_assets@ == diff_new_spec(n.take(i as int), o_spec),
            diff.changed_assets@ == diff_changed_spec(n.take(i as int), o_spec),
            diff.unchanged_assets@ == diff_unchanged_spec(n.take(i as int), o_spec),
            diff.removed_assets@.len() == 0,
        decreases new_assets_all@.len() - i,
    {
        let a: &Asset = &new_assets_all[i];
        proof {
            lemma_filter_take_step(n, |x: Asset| classifies_new(x, o_spec), i as int);
            lemma_filter_take_step(n, |x: Asset| classifies_changed(x, o_spec), i as int);
            lemma_filter_take_step(n, |x: Asset| classifies_unchanged(x, o_spec), i as int);
        }
        match find_in_assets(&old_assets, a.filename.as_str()) {
            None => {
                diff.new_assets.push(a.clone());
            },
            Some(b) => {
                if b.crc == a.crc && b.size == a.size {
                    diff.unchanged_assets.push(a.clone());
                } else {
                    diff.changed_assets.push(a.clone());
                }
            },
        }
        i = i + 1;
    }
    proof {
        assert(n.take(n.len() as int) =~= n);
    }
    let mut k: usize = 0;
    while k < old_assets.len()
        invariant
            k <= old_assets@.len(),
            new_assets_all@ == n,
            old_assets@ == o_spec,
            diff.new_assets@ == diff_new_spec(n, o_spec),
            diff.changed_assets@ == diff_changed_spec(n, o_spec),
            diff.unchanged_assets@ == diff_unchanged_spec(n, o_spec),
            diff.removed_assets@ == diff_removed_spec(n, o_spec.take(k as int)),
        decreases old_assets@.len() - k,
    {
        let b: &Asset = &old_assets[k];
        proof {
            lemma_filter_take_step(o_spec, |x: Asset| !in_names(x, n), k as int);
        }
        if find_in_assets(&new_assets_all, b.filename.as_str()).is_none() {
            diff.removed_assets.push(b.clone());
        }
        k = k + 1;
    }
    proof {
        assert(o_spec.take(o_spec.len() as int) =~= o_spec);
    }
    Ok(diff)
}

/// Filenames are unique within the inventory.
pub open spec fn unique_filenames(s: Seq<Asset>) -> bool {
    forall|i: int, j: int|
        0 <= i < j < s.len() ==> (#[trigger] s[i]).filename@ != (#[trigger] s[j]).filename@
}

/// Whether some asset of `s` is named `name`.
pub open spec fn has_name(s: Seq<Asset>, name: Seq<char>) -> bool {
    exists|i: int| 0 <= i < s.len() && (#[trigger] s[i]).filename@ == name
}

/// The assets of `s` whose filename some asset of `t` shares.
pub open spec fn matched_in(s: Seq<Asset>, t: Seq<Asset>) -> Seq<Asset> {
    s.filter(|a: Asset| in_names(a, t))
}

/// The assets of `s` named `name`.
pub open spec fn with_name(s: Seq<Asset>, name: Seq<char>) -> Seq<Asset> {
    s.filter(|a: Asset| a.filename@ == name)
}

proof fn lemma_filter_elem_of<A>(s: Seq<A>, pred: spec_fn(A) -> bool, i: int)
    requires
        0 <= i < s.filter(pred).len(),
    ensures
        exists|j: int| 0 <= j < s.len() && s[j] == s.filter(pred)[i],
    decreases s.len(),
{
    reveal(Seq::filter);
    if s.len() > 0 {
        if pred(s.last()) && i == s.filter(pred).len() - 1 {
            assert(s[s.len() - 1] == s.filter(pred)[i]);
        } else {
            lemma_filter_elem_of(s.drop_last(), pred, i);
            let j = choose|j: int|
                0 <= j < s.drop_last().len() && s.drop_last()[j] == s.drop_last().filter(pred)[i];
            assert(s[j] == s.filter(pred)[i]);
        }
    }
}

proof fn lemma_filter_equiv<A>(s: Seq<A>, p: spec_fn(A) -> bool, q: spec_fn(A) -> bool)
    requires
        forall|i: int| 0 <= i < s.len() ==> (p(#[trigger] s[i]) <==> q(s[i])),
    ensures
        s.filter(p) == s.filter(q),
    decreases s.len(),
{
    reveal(Seq::filter);
    if s.len() > 0 {
        assert(forall|i: int| 0 <= i < s.drop_last().len() ==> #[trigger] s.drop_last()[i] == s[i]);
        lemma_filter_equiv(s.drop_last(), p, q);
        assert(p(s[s.len() - 1]) <==> q(s[s.len() - 1]));
    }
}

proof fn lemma_filter_partition2<A>(s: Seq<A>, p: spec_fn(A) -> bool, np: spec_fn(A) -> bool)
    requires
        forall|i: int| 0 <= i < s.len() ==> (np(#[trigger] s[i]) <==> !p(s[i])),
    ensures
        s.filter(p).len() + s.filter(np).len() == s.len(),
    decreases s.len(),
{
    reveal(Seq::filter);
    if s.len() > 0 {
        assert(forall|i: int| 0 <= i < s.drop_last().len() ==> #[trigger] s.drop_last()[i] == s[i]);
        lemma_filter_partition2(s.drop_last(), p, np);
        assert(np(s[s.len() - 1]) <==> !p(s[s.len() - 1]));
    }
}

proof fn lemma_filter_split_count<A>(
    s: Seq<A>,
    p: spec_fn(A) -> bool,
    q: spec_fn(A) -> bool,
    d: spec_fn(A) -> bool,
)
    requires
        forall|i: int| 0 <= i < s.len() ==> (p(#[trigger] s[i]) ==> q(s[i])),
        forall|i: int| 0 <= i < s.len() ==> (d(#[trigger] s[i]) <==> (q(s[i]) && !p(s[i]))),
    ensures
        s.filter(q).len() == s.filter(p).len() + s.filter(d).len(),
    decreases s.len(),
{
    reveal(Seq::filter);
    if s.len() > 0 {
        assert(forall|i: int| 0 <= i < s.drop_last().len() ==> #[trigger] s.drop_last()[i] == s[i]);
        lemma_filter_split_count(s.drop_last(), p, q, d);
        assert(p(s[s.len() - 1]) ==> q(s[s.len() - 1]));
        assert(d(s[s.len() - 1]) <==> (q(s[s.len() - 1]) && !p(s[s.len() - 1])));
    }
}

proof fn lemma_with_name_count(s: Seq<Asset>, name: Seq<char>)
    requires
        unique_filenames(s),
    ensures
        has_name(s, name) ==> with_name(s, name).len() == 1,
        !has_name(s, name) ==> with_name(s, name).len() == 0,
    decreases s.len(),
{
    reveal(Seq::filter);
    if s.len() > 0 {
        assert(forall|i: int| 0 <= i < s.drop_last().len() ==> #[trigger] s.drop_last()[i] == s[i]);
        lemma_with_name_count(s.drop_last(), name);
        if s.last().filename@ == name {
            assert(!has_name(s.drop_last(), name)) by {
                if has_name(s.drop_last(), name) {
                    let i = choose|i: int|
                        0 <= i < s.drop_last().len() && (#[trigger] s.drop_last()[i]).filename@
                            == name;
                    assert(s[i].filename@ != s[s.len() - 1].filename@);
                }
            }
            assert(has_name(s, name)) by {
                assert((s[s.len() - 1]).filename@ == name);
            }
        } else {
            if has_name(s, name) {
                let i = choose|i: int| 0 <= i < s.len() && (#[trigger] s[i]).filename@ == name;
                assert(s.drop_last()[i].filename@ == name);
                assert(has_name(s.drop_last(), name));
            }
            if has_name(s.drop_last(), name) {
                let i = choose|i: int|
                    0 <= i < s.drop_last().len() && (#[trigger] s.drop_last()[i]).filename@ == name;
                assert(s[i].filename@ == name);
            }
        }
    }
}

proof fn lemma_find_first_push(s: Seq<Asset>, b: Asset, name: Seq<char>)
    ensures
        find_first_by_name(s.push(b), name) is Some <==> (find_first_by_name(s, name) is Some
            || b.filename@ == name),
    decreases s.len(),
{
    if s.len() == 0 {
        assert(s.push(b).len() == 1);
        assert(s.push(b)[0] == b);
        assert(find_first_by_name(s, name) is None);
        if b.filename@ == name {
            assert(find_first_by_name(s.push(b), name) == Some(b));
        } else {
            assert(s.push(b).skip(1) =~= Seq::<Asset>::empty());
            assert(find_first_by_name(s.push(b), name) == find_first_by_name(
                s.push(b).skip(1),
                name,
            ));
            assert(find_first_by_name(s.push(b).skip(1), name) is None);
        }
    } else {
        assert(s.push(b)[0] == s[0]);
        assert(s.push(b).skip(1) =~= s.skip(1).push(b));
        lemma_find_first_push(s.skip(1), b, name);
        if s[0].filename@ != name {
            assert(find_first_by_name(s.push(b), name) == find_first_by_name(
                s.skip(1).push(b),
                name,
            ));
            assert(find_first_by_name(s, name) == find_first_by_name(s.skip(1), name));
        }
    }
}

proof fn lemma_matched_empty(n: Seq<Asset>, o: Seq<Asset>)
    requires
        o.len() == 0,
    ensures
        matched_in(n, o).len() == 0,
    decreases n.len(),
{
    reveal(Seq::filter);
    if n.len() > 0 {
        lemma_matched_empty(n.drop_last(), o);
        assert(find_first_by_name(o, n.last().filename@) is None);
    }
}

proof fn lemma_matched_extend(n: Seq<Asset>, o: Seq<Asset>, o1: Seq<Asset>, x: Seq<char>)
    requires
        forall|i: int|
            0 <= i < n.len() ==> (in_names(#[trigger] n[i], o) <==> (in_names(n[i], o1)
                || n[i].filename@ == x)),
        forall|i: int| 0 <= i < n.len() ==> (in_names(#[trigger] n[i], o1) ==> n[i].filename@ != x),
    ensures
        matched_in(n, o).len() == matched_in(n, o1).len() + with_name(n, x).len(),
    decreases n.len(),
{
    reveal(Seq::filter);
    if n.len() > 0 {
        assert(forall|i: int| 0 <= i < n.drop_last().len() ==> #[trigger] n.drop_last()[i] == n[i]);
        lemma_matched_extend(n.drop_last(), o, o1, x);
        assert(in_names(n[n.len() - 1], o) <==> (in_names(n[n.len() - 1], o1) || n[n.len()
            - 1].filename@ == x));
        assert(in_names(n[n.len() - 1], o1) ==> n[n.len() - 1].filename@ != x);
    }
}

/// How many assets of `n` have a named partner in `o`, and the other way
/// round: the counts agree when filenames are unique on both sides.
proof fn lemma_matched_counts(n: Seq<Asset>, o: Seq<Asset>)
    requires
        unique_filenames(n),
        unique_filenames(o),
    ensures
        matched_in(n, o).len() == matched_in(o, n).len(),
    decreases o.len(),
{
    reveal(Seq::filter);
    if o.len() == 0 {
        lemma_matched_empty(n, o);
    } else {
        let b = o.last();
        let o1 = o.drop_last();
        let x = b.filename@;
        assert(forall|i: int| 0 <= i < o1.len() ==> #[trigger] o1[i] == o[i]);
        assert(unique_filenames(o1));
        assert(o =~= o1.push(b));
        assert(!has_name(o1, x)) by {
            if has_name(o1, x) {
                let i = choose|i: int| 0 <= i < o1.len() && (#[trigger] o1[i]).filename@ == x;
                assert(o[i].filename@ != o[o.len() - 1].filename@);
            }
        }
        assert forall|i: int|
            0 <= i < n.len() implies (in_names(#[trigger] n[i], o) <==> (in_names(n[i], o1)
            || n[i].filename@ == x)) by {
            lemma_find_first_push(o1, b, n[i].filename@);
            assert(find_first_by_name(o, n[i].filename@) == find_first_by_name(
                o1.push(b),
                n[i].filename@,
            ));
        }
        assert forall|i: int|
            0 <= i < n.len() && in_names(#[trigger] n[i], o1) implies n[i].filename@ != x by {
            if n[i].filename@ == x {
                lemma_find_first_by_name_properties(o1, n[i].filename@);
                let a = find_first_by_name(o1, n[i].filename@).unwrap();
                let j = choose|j: int| 0 <= j < o1.len() && #[trigger] o1[j] == a;
                assert(o1[j].filename@ == x);
                assert(has_name(o1, x));
            }
        }
        lemma_matched_counts(n, o1);
        lemma_matched_extend(n, o, o1, x);
        lemma_find_first_by_name_properties(n, x);
        if find_first_by_name(n, x) is Some {
            assert(has_name(n, x)) by {
                let a = find_first_by_name(n, x).unwrap();
                let j = choose|j: int| 0 <= j < n.len() && #[trigger] n[j] == a;
                assert(n[j].filename@ == x);
            }
            lemma_with_name_count(n, x);
            assert(in_names(b, n));
        } else {
            assert(!has_name(n, x)) by {
                if has_name(n, x) {
                    let i = choose|i: int| 0 <= i < n.len() && (#[trigger] n[i]).filename@ == x;
                }
            }
            lemma_with_name_count(n, x);
            assert(!in_names(b, n));
        }
        assert(matched_in(o, n).len() == matched_in(o1, n).len() + (if in_names(b, n) {
            1int
        } else {
            0int
        }));
    }
}

/// Law: the classes of any diff are pairwise disjoint in filename, for a new
/// inventory with unique filenames.
pub proof fn lemma_diff_disjoint(n: Seq<Asset>, o: Seq<Asset>)
    requires
        unique_filenames(n),
    ensures
        forall|i: int, j: int|
            0 <= i < diff_new_spec(n, o).len() && 0 <= j < diff_changed_spec(n, o).len() ==> (
            #[trigger] diff_new_spec(n, o)[i]).filename@ != (#[trigger] diff_changed_spec(
                n,
                o,
            )[j]).filename@,
        forall|i: int, j: int|
            0 <= i < diff_new_spec(n, o).len() && 0 <= j < diff_unchanged_spec(n, o).len() ==> (
            #[trigger] diff_new_spec(n, o)[i]).filename@ != (#[trigger] diff_unchanged_spec(
                n,
                o,
            )[j]).filename@,
        forall|i: int, j: int|
            0 <= i < diff_changed_spec(n, o).len() && 0 <= j < diff_unchanged_spec(n, o).len()
                ==> (#[trigger] diff_changed_spec(n, o)[i]).filename@ != (
            #[trigger] diff_unchanged_spec(n, o)[j]).filename@,
        forall|i: int, j: int|
            0 <= i < diff_removed_spec(n, o).len() && 0 <= j < diff_new_spec(n, o).len() ==> (
            #[trigger] diff_removed_spec(n, o)[i]).filename@ != (#[trigger] diff_new_spec(
                n,
                o,
            )[j]).filename@,
        forall|i: int, j: int|
            0 <= i < diff_removed_spec(n, o).len() && 0 <= j < diff_changed_spec(n, o).len() ==> (
            #[trigger] diff_removed_spec(n, o)[i]).filename@ != (#[trigger] diff_changed_spec(
                n,
                o,
            )[j]).filename@,
        forall|i: int, j: int|
            0 <= i < diff_removed_spec(n, o).len() && 0 <= j < diff_unchanged_spec(n, o).len()
                ==> (#[trigger] diff_removed_spec(n, o)[i]).filename@ != (
            #[trigger] diff_unchanged_spec(n, o)[j]).filename@,
{
    broadcast use vstd::seq_lib::group_filter_ensures;

    let nw = diff_new_spec(n, o);
    let ch = diff_changed_spec(n, o);
    let un = diff_unchanged_spec(n, o);
    let rm = diff_removed_spec(n, o);
    assert forall|i: int, j: int|
        0 <= i < nw.len() && 0 <= j < ch.len() implies (#[trigger] nw[i]).filename@ != (
    #[trigger] ch[j]).filename@ by {
        assert(classifies_new(nw[i], o));
        assert(classifies_changed(ch[j], o));
    }
    assert forall|i: int, j: int|
        0 <= i < nw.len() && 0 <= j < un.len() implies (#[trigger] nw[i]).filename@ != (
    #[trigger] un[j]).filename@ by {
        assert(classifies_new(nw[i], o));
        assert(classifies_unchanged(un[j], o));
    }
    assert forall|i: int, j: int|
        0 <= i < ch.len() && 0 <= j < un.len() implies (#[trigger] ch[i]).filename@ != (
    #[trigger] un[j]).filename@ by {
        assert(classifies_changed(ch[i], o));
        assert(classifies_unchanged(un[j], o));
        if ch[i].filename@ == un[j].filename@ {
            lemma_filter_elem_of(n, |a: Asset| classifies_changed(a, o), i);
            lemma_filter_elem_of(n, |a: Asset| classifies_unchanged(a, o), j);
            let ii = choose|k: int| 0 <= k < n.len() && n[k] == ch[i];
            let jj = choose|k: int| 0 <= k < n.len() && n[k] == un[j];
            if ii == jj {
                assert(classifies_changed(n[ii], o) && classifies_unchanged(n[ii], o));
            } else {
                assert(n[ii].filename@ != n[jj].filename@);
            }
        }
    }
    assert forall|i: int, j: int|
        0 <= i < rm.len() && 0 <= j < nw.len() implies (#[trigger] rm[i]).filename@ != (
    #[trigger] nw[j]).filename@ by {
        assert(!in_names(rm[i], n));
        lemma_filter_elem_of(n, |a: Asset| classifies_new(a, o), j);
        if rm[i].filename@ == nw[j].filename@ {
            lemma_find_first_by_name_properties(n, rm[i].filename@);
            let k = choose|k: int| 0 <= k < n.len() && n[k] == nw[j];
            assert(n[k].filename@ != rm[i].filename@);
        }
    }
    assert forall|i: int, j: int|
        0 <= i < rm.len() && 0 <= j < ch.len() implies (#[trigger] rm[i]).filename@ != (
    #[trigger] ch[j]).filename@ by {
        assert(!in_names(rm[i], n));
        lemma_filter_elem_of(n, |a: Asset| classifies_changed(a, o), j);
        if rm[i].filename@ == ch[j].filename@ {
            lemma_find_first_by_name_properties(n, rm[i].filename@);
            let k = choose|k: int| 0 <= k < n.len() && n[k] == ch[j];
            assert(n[k].filename@ != rm[i].filename@);
        }
    }
    assert forall|i: int, j: int|
        0 <= i < rm.len() && 0 <= j < un.len() implies (#[trigger] rm[i]).filename@ != (
    #[trigger] un[j]).filename@ by {
        assert(!in_names(rm[i], n));
        lemma_filter_elem_of(n, |a: Asset| classifies_unchanged(a, o), j);
        if rm[i].filename@ == un[j].filename@ {
            lemma_find_first_by_name_properties(n, rm[i].filename@);
            let k = choose|k: int| 0 <= k < n.len() && n[k] == un[j];
            assert(n[k].filename@ != rm[i].filename@);
        }
    }
}

/// Law: the diff conserves sizes. The new, changed and unchanged classes
/// together count exactly the new inventory; the unchanged, changed and
/// removed classes together count exactly the reference inventory.
pub proof fn lemma_diff_sizes(n: Seq<Asset>, o: Seq<Asset>)
    requires
        unique_filenames(n),
        unique_filenames(o),
    ensures
        diff_new_spec(n, o).len() + diff_changed_spec(n, o).len() + diff_unchanged_spec(
            n,
            o,
        ).len() == n.len(),
        diff_unchanged_spec(n, o).len() + diff_changed_spec(n, o).len() + diff_removed_spec(
            n,
            o,
        ).len() == o.len(),
{
    lemma_filter_partition2(n, |a: Asset| in_names(a, o), |a: Asset| classifies_new(a, o));
    lemma_filter_split_count(
        n,
        |a: Asset| classifies_unchanged(a, o),
        |a: Asset| in_names(a, o),
        |a: Asset| classifies_changed(a, o),
    );
    lemma_filter_partition2(o, |b: Asset| in_names(b, n), |b: Asset| !in_names(b, n));
    lemma_matched_counts(n, o);
}

/// Each filename of `s` followed by a newline, concatenated in order.
pub open spec fn names_block(s: Seq<Asset>, i: int) -> Seq<char>
    decreases s.len() - i,
    when 0 <= i <= s.len()
{
    if i >= s.len() {
        Seq::empty()
    } else {
        s[i].filename@ + seq!['\n'] + names_block(s, i + 1)
    }
}

fn format_assets_block(assets: &Vec<Asset>, empty_msg: &str, header: &str, footer: &str) -> (r:
    String)
    ensures
        assets@.len() == 0 ==> r@ == empty_msg@,
        assets@.len() > 0 ==> r@ == header@ + names_block(assets@, 0) + footer@,
{
    if assets.len() == 0 {
        return empty_msg.to_owned();
    }
    proof {
        reveal_strlit("\n");
    }
    let mut message: String = header.to_owned();
    let mut i: usize = 0;
    while i < assets.len()
        invariant
            i <= assets@.len(),
            header@ + names_block(assets@, 0) == message@ + names_block(assets@, i as int),
        decreases assets@.len() - i,
    {
        let ghost m0 = message@;
        proof {
            reveal_strlit("\n");
            assert(names_block(assets@, i as int) == assets@[i as int].filename@ + seq!['\n']
                + names_block(assets@, i as int + 1));
            assert((m0 + assets@[i as int].filename@ + "\n"@) + names_block(assets@, i as int + 1)
                =~= m0 + ((assets@[i as int].filename@ + seq!['\n']) + names_block(
                assets@,
                i as int + 1,
            )));
        }
        message.append(assets[i].filename.as_str());
        message.append("\n");
        i = i + 1;
    }
    proof {
        assert(names_block(assets@, assets@.len() as int) =~= Seq::<char>::empty());
        assert(message@ + Seq::<char>::empty() =~= message@);
    }
    message.append(footer);
    message
}

/// Writes the new assets as the chat report the mirror posts: one
/// filename a line inside a coloured code fence.
pub fn format_new_assets(diff: &RevisionDiff) -> (r: String)
    ensures
        diff.new_assets@.len() == 0 ==> r@ == "No new assets."@,
        diff.new_assets@.len() > 0 ==> r@ == "```ansi\n\u{1b}[2;32m"@ + names_block(
            diff.new_assets@,
            0,
        ) + "\u{1b}[0m```"@,
{
    format_assets_block(&diff.new_assets, "No new assets.", "```ansi\n\u{1b}[2;32m", "\u{1b}[0m```")
}

/// Writes the changed assets as the chat report the mirror posts.
pub fn format_changed_assets(diff: &RevisionDiff) -> (r: String)
    ensures
        diff.changed_assets@.len() == 0 ==> r@ == "No changed assets."@,
        diff.changed_assets@.len() > 0 ==> r@
            == "```ansi\n\u{1b}[2;32m\u{1b}[2;33m\u{1b}[0m\u{1b}[2;32m\u{1b}[2;33m"@ + names_block(
            diff.changed_assets@,
            0,
        ) + "\u{1b}[0m\u{1b}[2;32m\u{1b}[0m```"@,
{
    format_assets_block(
        &diff.changed_assets,
        "No changed assets.",
        "```ansi\n\u{1b}[2;32m\u{1b}[2;33m\u{1b}[0m\u{1b}[2;32m\u{1b}[2;33m",
        "\u{1b}[0m\u{1b}[2;32m\u{1b}[0m```",
    )
}

/// Writes the removed assets as the chat report the mirror posts.
pub fn format_removed_assets(diff: &RevisionDiff) -> (r: String)
    ensures
        diff.removed_assets@.len() == 0 ==> r@ == "No removed assets."@,
        diff.removed_assets@.len() > 0 ==> r@
            == "```ansi\n\u{1b}[2;32m\u{1b}[2;33m\u{1b}[0m\u{1b}[2;32m\u{1b}[2;33m\u{1b}[2;31m"@
            + names_block(diff.removed_assets@, 0)
            + "\u{1b}[0m\u{1b}[2;33m\u{1b}[0m\u{1b}[2;32m\u{1b}[0m```"@,
{
    format_assets_block(
        &diff.removed_assets,
        "No removed assets.",
        "```ansi\n\u{1b}[2;32m\u{1b}[2;33m\u{1b}[0m\u{1b}[2;32m\u{1b}[2;33m\u{1b}[2;31m",
        "\u{1b}[0m\u{1b}[2;33m\u{1b}[0m\u{1b}[2;32m\u{1b}[0m```",
    )
}

/// Law: a cycle whose diff found no new and no changed assets downloads
/// nothing, and inserting its revision leaves the store unchanged in size
/// but for the newly inserted revision itself.
pub proof fn lemma_quiet_cycle(diff: RevisionDiff, store: RevisionStore, rev: LocalRevision)
    requires
        diff.new_assets@.len() == 0,
        diff.changed_assets@.len() == 0,
        store.wf(),
    ensures
        (diff.new_assets@ + diff.changed_assets@).len() == 0,
        has_number(store.revs(), rev.revision_number) ==> insert_sorted_spec(
            store.revs(),
            rev,
        ).len() == store.revs().len(),
        !has_number(store.revs(), rev.revision_number) ==> insert_sorted_spec(
            store.revs(),
            rev,
        ).len() == store.revs().len() + 1,
{
    lemma_insert_sorted_len(store.revs(), rev);
}

} // verus!
