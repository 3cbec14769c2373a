//! Joins: the entities that several columns have in common, and their
//! values column by column.

use rayon::iter::{IntoParallelRefIterator, ParallelIterator};
use rayon::slice::ParallelSliceMut;
use vstd::prelude::*;

use crate::entity::EntityId;
use crate::seqs::lemma_push_contains;
use crate::storage::component::ComponentStorage;

verus! {

/// The identifier sequences behind a list of slices.
pub open spec fn views(ids: Seq<&[EntityId]>) -> Seq<Seq<EntityId>> {
    Seq::new(ids.len(), |i: int| ids[i]@)
}

/// Whether every sequence of `ids` holds `id`.
pub open spec fn in_all(ids: Seq<Seq<EntityId>>, id: EntityId) -> bool {
    forall|i: int| 0 <= i < ids.len() ==> (#[trigger] ids[i]).contains(id)
}

/// Whether at least one sequence of `ids` holds `id`.
pub open spec fn in_some(ids: Seq<Seq<EntityId>>, id: EntityId) -> bool {
    exists|i: int| 0 <= i < ids.len() && (#[trigger] ids[i]).contains(id)
}

/// Whether `s` ascends, equal neighbours allowed.
pub open spec fn ascending(s: Seq<EntityId>) -> bool {
    forall|i: int, j: int| 0 <= i <= j < s.len() ==> s[i] <= s[j]
}

/// Whether `s` ascends strictly, so that nothing occurs twice.
pub open spec fn strictly_ascending(s: Seq<EntityId>) -> bool {
    forall|i: int, j: int| 0 <= i < j < s.len() ==> s[i] < s[j]
}

/// Whether `common` lists, in strictly ascending order, exactly the
/// identifiers that occur in every sequence of `ids`. Of no sequences at
/// all, the intersection is empty.
pub open spec fn is_intersection(common: Seq<EntityId>, ids: Seq<Seq<EntityId>>) -> bool {
    &&& strictly_ascending(common)
    &&& forall|id: EntityId| #[trigger]
        common.contains(id) <==> (ids.len() > 0 && in_all(ids, id))
}

/// `s` with each run of equal neighbours cut down to its first item.
pub open spec fn dedup_consecutive(s: Seq<EntityId>) -> Seq<EntityId>
    decreases s.len(),
{
    if s.len() <= 1 {
        s
    } else {
        let front = dedup_consecutive(s.drop_last());
        if s[s.len() - 2] == s.last() {
            front
        } else {
            front.push(s.last())
        }
    }
}

/// Cutting the runs of an ascending sequence leaves a strictly ascending
/// one with the same items.
proof fn lemma_dedup_ascending(s: Seq<EntityId>)
    requires
        ascending(s),
    ensures
        strictly_ascending(dedup_consecutive(s)),
        forall|id: EntityId|
            #![trigger dedup_consecutive(s).contains(id)]
            #![trigger s.contains(id)]
            dedup_consecutive(s).contains(id) <==> s.contains(id),
        s.len() > 0 ==> dedup_consecutive(s).len() > 0 && dedup_consecutive(s).last() == s.last(),
    decreases s.len(),
{
    if s.len() > 1 {
        let front = s.drop_last();
        lemma_dedup_ascending(front);
        let cut = dedup_consecutive(front);
        let last = s.last();
        assert(front.last() == s[s.len() - 2]);
        assert(s =~= front.push(last));
        lemma_push_contains(front, last);
        lemma_push_contains(cut, last);
        assert(front.contains(front.last()));
        if s[s.len() - 2] != last {
            assert forall|i: int, j: int| 0 <= i < j < cut.push(last).len() implies cut.push(
                last,
            )[i] < cut.push(last)[j] by {
                if j == cut.len() {
                    assert(cut.contains(cut[i]));
                    let k = choose|k: int| 0 <= k < front.len() && front[k] == cut[i];
                    assert(s[k] <= s[s.len() - 2]);
                    assert(cut[i] <= cut.last()) by {
                        if i < cut.len() - 1 {
                            assert(cut[i] < cut[cut.len() - 1]);
                        }
                    }
                    assert(s[s.len() - 2] <= s[s.len() - 1]);
                }
            }
        }
    }
}

/// Whether `slice` holds `id`.
fn contains_id(slice: &[EntityId], id: EntityId) -> (res: bool)
    ensures
        res == slice@.contains(id),
{
    let mut i: usize = 0;
    while i < slice.len()
        invariant
            i <= slice@.len(),
            forall|j: int| 0 <= j < i ==> slice@[j] != id,
        decreases slice@.len() - i,
    {
        if slice[i] == id {
            return true;
        }
        i += 1;
    }
    false
}

/// Whether every slice of `ids` holds `id`.
pub fn occurs_in_all(ids: &[&[EntityId]], id: EntityId) -> (res: bool)
    ensures
        res == in_all(views(ids@), id),
{
    let mut i: usize = 0;
    while i < ids.len()
        invariant
            i <= ids@.len(),
            forall|j: int| 0 <= j < i ==> (#[trigger] views(ids@)[j]).contains(id),
        decreases ids@.len() - i,
    {
        if !contains_id(ids[i], id) {
            assert(!views(ids@)[i as int].contains(id));
            return false;
        }
        i += 1;
    }
    true
}

/// The items of all slices, one slice after the other.
fn concatenation(ids: &[&[EntityId]]) -> (all: Vec<EntityId>)
    ensures
        forall|id: EntityId| all@.contains(id) <==> in_some(views(ids@), id),
{
    let mut all: Vec<EntityId> = Vec::new();
    let mut i: usize = 0;
    while i < ids.len()
        invariant
            i <= ids@.len(),
            forall|id: EntityId| all@.contains(id) ==> in_some(views(ids@), id),
            forall|k: int, q: int|
                0 <= k < i && 0 <= q < ids@[k]@.len() ==> all@.contains(#[trigger] ids@[k]@[q]),
        decreases ids@.len() - i,
    {
        let slice = ids[i];
        let mut j: usize = 0;
        while j < slice.len()
            invariant
                j <= slice@.len(),
                i < ids@.len(),
                slice@ == ids@[i as int]@,
                forall|id: EntityId| all@.contains(id) ==> in_some(views(ids@), id),
                forall|k: int, q: int|
                    0 <= k < i && 0 <= q < ids@[k]@.len() ==> all@.contains(
                        #[trigger] ids@[k]@[q],
                    ),
                forall|q: int| 0 <= q < j ==> all@.contains(#[trigger] slice@[q]),
            decreases slice@.len() - j,
        {
            proof {
                lemma_push_contains(all@, slice@[j as int]);
                assert(views(ids@)[i as int].contains(slice@[j as int]));
            }
            all.push(slice[j]);
            j += 1;
        }
        i += 1;
    }
    proof {
        assert forall|id: EntityId| in_some(views(ids@), id) implies all@.contains(id) by {
            let k = choose|k: int| 0 <= k < ids@.len() && (#[trigger] views(ids@)[k]).contains(id);
            let q = choose|q: int| 0 <= q < ids@[k]@.len() && ids@[k]@[q] == id;
            assert(all@.contains(ids@[k]@[q]));
        }
    }
    all
}

/// `candidates`, cut down to what occurs in every slice of `ids`.
fn retain_common(candidates: &Vec<EntityId>, ids: &[&[EntityId]]) -> (kept: Vec<EntityId>)
    ensures
        forall|id: EntityId|
            kept@.contains(id) <==> (candidates@.contains(id) && in_all(views(ids@), id)),
{
    let mut kept: Vec<EntityId> = Vec::new();
    let mut i: usize = 0;
    while i < candidates.len()
        invariant
            i <= candidates@.len(),
            forall|id: EntityId|
                kept@.contains(id) ==> candidates@.contains(id) && in_all(views(ids@), id),
            forall|k: int|
                0 <= k < i && in_all(views(ids@), #[trigger] candidates@[k]) ==> kept@.contains(
                    candidates@[k],
                ),
        decreases candidates@.len() - i,
    {
        let id = candidates[i];
        if occurs_in_all(ids, id) {
            proof {
                lemma_push_contains(kept@, id);
                assert(candidates@.contains(id));
            }
            kept.push(id);
        }
        i += 1;
    }
    proof {
        assert forall|id: EntityId|
            candidates@.contains(id) && in_all(views(ids@), id) implies kept@.contains(id) by {
            let k = choose|k: int| 0 <= k < candidates@.len() && candidates@[k] == id;
            assert(kept@.contains(candidates@[k]));
        }
    }
    kept
}

/// Calls `<[u64]>::sort_unstable`, which sorts the slice in ascending
/// order: afterwards the vector ascends and holds the items it held, each as
/// often as before.
#[verifier::external_body]
fn sort_ids(v: &mut Vec<EntityId>)
    ensures
        ascending(final(v)@),
        final(v)@.to_multiset() == old(v)@.to_multiset(),
{
    v.sort_unstable();
}

/// Calls rayon's `ParallelSliceMut::par_sort_unstable`, which sorts the
/// slice in parallel: afterwards the vector ascends and holds the items it
/// held, each as often as before.
#[verifier::external_body]
fn par_sort_ids(v: &mut Vec<EntityId>)
    ensures
        ascending(final(v)@),
        final(v)@.to_multiset() == old(v)@.to_multiset(),
{
    v.par_sort_unstable();
}

/// Cuts each run of equal neighbours down to its first item.
fn dedup_ids(v: &mut Vec<EntityId>)
    ensures
        final(v)@ == dedup_consecutive(old(v)@),
{
    let mut kept: Vec<EntityId> = Vec::new();
    let mut i: usize = 0;
    while i < v.len()
        invariant
            i <= v@.len(),
            v@ == old(v)@,
            kept@ == dedup_consecutive(v@.take(i as int)),
        decreases v@.len() - i,
    {
        proof {
            let next = v@.take(i + 1);
            assert(next.drop_last() == v@.take(i as int));
            assert(next.last() == v@[i as int]);
            if i > 0 {
                assert(next[next.len() - 2] == v@[i - 1]);
            }
        }
        if i == 0 || v[i] != v[i - 1] {
            kept.push(v[i]);
        }
        i += 1;
    }
    assert(v@.take(v@.len() as int) == v@);
    *v = kept;
}

/// Runs rayon's `filter` over the items of `candidates` in parallel and
/// collects what it keeps: each item that occurs in every slice of `ids`
/// comes out as often as it went in, and no other item comes out. The
/// order in which they come out is left open.
#[verifier::external_body]
fn par_retain_common(candidates: &Vec<EntityId>, ids: &[&[EntityId]]) -> (kept: Vec<EntityId>)
    ensures
        forall|id: EntityId| #[trigger]
            kept@.to_multiset().count(id) == if in_all(views(ids@), id) {
                candidates@.to_multiset().count(id)
            } else {
                0
            },
{
    candidates.par_iter().copied().filter(|id| occurs_in_all(ids, *id)).collect()
}

/// A sorted vector with its runs cut is the intersection, given that the
/// vector held exactly the common identifiers.
proof fn lemma_sorted_cut_is_intersection(
    kept: Seq<EntityId>,
    sorted: Seq<EntityId>,
    ids: Seq<Seq<EntityId>>,
)
    requires
        forall|id: EntityId| kept.contains(id) <==> (in_some(ids, id) && in_all(ids, id)),
        ascending(sorted),
        sorted.to_multiset() == kept.to_multiset(),
    ensures
        is_intersection(dedup_consecutive(sorted), ids),
{
    lemma_dedup_ascending(sorted);
    sorted.to_multiset_ensures();
    kept.to_multiset_ensures();
    assert forall|id: EntityId| #[trigger]
        dedup_consecutive(sorted).contains(id) <==> (ids.len() > 0 && in_all(ids, id)) by {
        assert(sorted.contains(id) <==> sorted.to_multiset().count(id) > 0);
        assert(kept.contains(id) <==> kept.to_multiset().count(id) > 0);
        if ids.len() > 0 && in_all(ids, id) {
            assert(ids[0].contains(id));
            assert(in_some(ids, id));
        }
    }
    assert(strictly_ascending(dedup_consecutive(sorted)));
}

/// The identifiers that occur in every slice of `ids`, each once, in
/// ascending order.
pub fn intersect(ids: &[&[EntityId]]) -> (common: Vec<EntityId>)
    ensures
        is_intersection(common@, views(ids@)),
{
    let all = concatenation(ids);
    let mut common = retain_common(&all, ids);
    let ghost kept = common@;
    sort_ids(&mut common);
    let ghost sorted = common@;
    dedup_ids(&mut common);
    proof {
        lemma_sorted_cut_is_intersection(kept, sorted, views(ids@));
    }
    common
}

/// The identifiers that occur in every slice of `ids`, each once, in
/// ascending order; filtered and sorted in parallel.
pub fn par_intersect(ids: &[&[EntityId]]) -> (common: Vec<EntityId>)
    ensures
        is_intersection(common@, views(ids@)),
{
    let all = concatenation(ids);
    let mut common = par_retain_common(&all, ids);
    let ghost kept = common@;
    proof {
        kept.to_multiset_ensures();
        all@.to_multiset_ensures();
        assert forall|id: EntityId|
            kept.contains(id) <==> (in_some(views(ids@), id) && in_all(views(ids@), id)) by {
            assert(kept.to_multiset().count(id) == if in_all(views(ids@), id) {
                all@.to_multiset().count(id)
            } else {
                0
            });
        }
    }
    par_sort_ids(&mut common);
    let ghost sorted = common@;
    dedup_ids(&mut common);
    proof {
        lemma_sorted_cut_is_intersection(kept, sorted, views(ids@));
    }
    common
}

/// The intersection of no sequences at all is empty.
pub proof fn lemma_intersection_of_none(common: Seq<EntityId>)
    requires
        is_intersection(common, Seq::<Seq<EntityId>>::empty()),
    ensures
        common.len() == 0,
{
    if common.len() > 0 {
        assert(common.contains(common[0]));
    }
}

/// Where one of the sequences is empty, so is the intersection.
pub proof fn lemma_intersection_with_empty(common: Seq<EntityId>, ids: Seq<Seq<EntityId>>, k: int)
    requires
        is_intersection(common, ids),
        0 <= k < ids.len(),
        ids[k].len() == 0,
    ensures
        common.len() == 0,
{
    if common.len() > 0 {
        assert(common.contains(common[0]));
        assert(ids[k].contains(common[0]));
    }
}

/// Two strictly ascending sequences with the same items are equal.
proof fn lemma_ascending_same_items(a: Seq<EntityId>, b: Seq<EntityId>)
    requires
        strictly_ascending(a),
        strictly_ascending(b),
        forall|id: EntityId| a.contains(id) <==> b.contains(id),
    ensures
        a == b,
    decreases a.len(),
{
    if a.len() == 0 {
        if b.len() > 0 {
            assert(b.contains(b[0]));
        }
        assert(a =~= b);
    } else if b.len() == 0 {
        assert(a.contains(a[0]));
    } else {
        let la = a.last();
        let lb = b.last();
        assert(a.contains(la));
        assert(b.contains(lb));
        let ia = choose|i: int| 0 <= i < a.len() && a[i] == lb;
        let ib = choose|i: int| 0 <= i < b.len() && b[i] == la;
        assert(la == lb);
        let fa = a.drop_last();
        let fb = b.drop_last();
        assert forall|id: EntityId| fa.contains(id) <==> fb.contains(id) by {
            if fa.contains(id) {
                let p = choose|p: int| 0 <= p < fa.len() && fa[p] == id;
                assert(a[p] == id && a[p] < la);
                assert(a.contains(id));
                let q = choose|q: int| 0 <= q < b.len() && b[q] == id;
                assert(fb[q] == id);
            }
            if fb.contains(id) {
                let p = choose|p: int| 0 <= p < fb.len() && fb[p] == id;
                assert(b[p] == id && b[p] < lb);
                assert(b.contains(id));
                let q = choose|q: int| 0 <= q < a.len() && a[q] == id;
                assert(fa[q] == id);
            }
        }
        lemma_ascending_same_items(fa, fb);
        assert(a =~= fa.push(la));
        assert(b =~= fb.push(lb));
    }
}

/// Sequences have one intersection only.
pub proof fn lemma_intersection_unique(a: Seq<EntityId>, b: Seq<EntityId>, ids: Seq<Seq<EntityId>>)
    requires
        is_intersection(a, ids),
        is_intersection(b, ids),
    ensures
        a == b,
{
    lemma_ascending_same_items(a, b);
}

/// The identifier sequences of a list of columns.
pub open spec fn column_ids<T>(columns: Seq<&ComponentStorage<T>>) -> Seq<Seq<EntityId>> {
    Seq::new(columns.len(), |i: int| columns[i].ids())
}

/// Whether `values` holds, column by column, the value stored for `id`.
pub open spec fn is_row<T>(values: Seq<&T>, columns: Seq<&ComponentStorage<T>>, id: EntityId) -> bool {
    &&& values.len() == columns.len()
    &&& forall|k: int| 0 <= k < columns.len() ==> *(#[trigger] values[k]) == columns[k].value_of(id)
}

/// Whether every column of the list is well formed.
pub open spec fn all_wf<T>(columns: Seq<&ComponentStorage<T>>) -> bool {
    forall|k: int| 0 <= k < columns.len() ==> (#[trigger] columns[k]).wf()
}

/// The slices of identifiers of `columns`, in their order.
fn id_slices<'a, T>(columns: &Vec<&'a ComponentStorage<T>>) -> (slices: Vec<&'a [EntityId]>)
    ensures
        views(slices@) == column_ids(columns@),
{
    let mut slices: Vec<&'a [EntityId]> = Vec::new();
    let mut i: usize = 0;
    while i < columns.len()
        invariant
            i <= columns@.len(),
            slices@.len() == i,
            forall|k: int| 0 <= k < i ==> (#[trigger] slices@[k])@ == columns@[k].ids(),
        decreases columns@.len() - i,
    {
        slices.push(columns[i].entities());
        i += 1;
    }
    assert(views(slices@) =~= column_ids(columns@));
    slices
}

/// The values stored for `id`, column by column. Every column must have
/// an entry for `id`.
fn row<'a, T>(columns: &Vec<&'a ComponentStorage<T>>, id: EntityId) -> (values: Vec<&'a T>)
    requires
        all_wf(columns@),
        in_all(column_ids(columns@), id),
    ensures
        is_row(values@, columns@, id),
{
    let mut values: Vec<&'a T> = Vec::new();
    let mut k: usize = 0;
    while k < columns.len()
        invariant
            k <= columns@.len(),
            values@.len() == k,
            all_wf(columns@),
            in_all(column_ids(columns@), id),
            forall|j: int| 0 <= j < k ==> *(#[trigger] values@[j]) == columns@[j].value_of(id),
        decreases columns@.len() - k,
    {
        let column: &'a ComponentStorage<T> = columns[k];
        assert(column.wf());
        assert(column_ids(columns@)[k as int].contains(id));
        match column.get_item(id) {
            Some(value) => {
                values.push(value);
            },
            None => vstd::pervasive::unreached(),
        }
        k += 1;
    }
    values
}

/// A walk over the entities that a list of columns have in common, in
/// ascending order of their identifiers.
#[derive(Debug)]
pub struct JoinIter<'a, T> {
    tuple: Vec<&'a ComponentStorage<T>>,
    ids: Vec<EntityId>,
    current: usize,
}

impl<'a, T> JoinIter<'a, T> {
    /// The joined columns.
    pub closed spec fn columns(&self) -> Seq<&'a ComponentStorage<T>> {
        self.tuple@
    }

    /// The identifiers that the walk visits, in its order.
    pub closed spec fn ids(&self) -> Seq<EntityId> {
        self.ids@
    }

    /// How many identifiers the walk has visited.
    pub closed spec fn position(&self) -> nat {
        self.current as nat
    }

    /// The walk's invariant: it visits the intersection of the columns'
    /// identifiers and has not run past its end.
    pub open spec fn wf(&self) -> bool {
        &&& all_wf(self.columns())
        &&& is_intersection(self.ids(), column_ids(self.columns()))
        &&& self.position() <= self.ids().len()
    }

    /// Starts a walk over what `columns` have in common.
    pub fn new(columns: Vec<&'a ComponentStorage<T>>) -> (iter: Self)
        requires
            all_wf(columns@),
        ensures
            iter.wf(),
            iter.columns() == columns@,
            iter.position() == 0,
    {
        let slices = id_slices(&columns);
        let ids = intersect(slices.as_slice());
        JoinIter { tuple: columns, ids, current: 0 }
    }

    /// The identifiers that the walk visits, in its order.
    pub fn entities(&self) -> (ids: &[EntityId])
        ensures
            ids@ == self.ids(),
    {
        self.ids.as_slice()
    }

    /// The values of the next common entity, column by column; `None` once
    /// all have been visited.
    pub fn next(&mut self) -> (item: Option<Vec<&'a T>>)
        requires
            old(self).wf(),
        ensures
            final(self).wf(),
            final(self).columns() == old(self).columns(),
            final(self).ids() == old(self).ids(),
            match item {
                Some(values) => old(self).position() < old(self).ids().len() && final(self).position() == old(self).position() + 1 && is_row(
                    values@,
                    old(self).columns(),
                    old(self).ids()[old(self).position() as int],
                ),
                None => old(self).position() == old(self).ids().len() && final(self).position()
                    == old(self).position(),
            },
    {
        if self.current < self.ids.len() {
            let id = self.ids[self.current];
            assert(self.ids@.contains(id));
            let values = row(&self.tuple, id);
            self.current += 1;
            Some(values)
        } else {
            None
        }
    }
}

/// The entities that a list of columns have in common, found in parallel,
/// with access to each by its place in ascending order.
#[derive(Debug)]
pub struct ParJoinIter<'a, T> {
    tuple: Vec<&'a ComponentStorage<T>>,
    ids: Vec<EntityId>,
}

impl<'a, T> ParJoinIter<'a, T> {
    /// The joined columns.
    pub closed spec fn columns(&self) -> Seq<&'a ComponentStorage<T>> {
        self.tuple@
    }

    /// The common identifiers, in ascending order.
    pub closed spec fn ids(&self) -> Seq<EntityId> {
        self.ids@
    }

    /// The invariant: `ids` is the intersection of the columns' identifiers.
    pub open spec fn wf(&self) -> bool {
        &&& all_wf(self.columns())
        &&& is_intersection(self.ids(), column_ids(self.columns()))
    }

    /// Finds what `columns` have in common.
    pub fn new(columns: Vec<&'a ComponentStorage<T>>) -> (iter: Self)
        requires
            all_wf(columns@),
        ensures
            iter.wf(),
            iter.columns() == columns@,
    {
        let slices = id_slices(&columns);
        let ids = par_intersect(slices.as_slice());
        ParJoinIter { tuple: columns, ids }
    }

    /// The common identifiers, in ascending order.
    pub fn entities(&self) -> (ids: &[EntityId])
        ensures
            ids@ == self.ids(),
    {
        self.ids.as_slice()
    }

    /// The values of the common entity at `index`, column by column; `None`
    /// past the end.
    pub fn get(&self, index: usize) -> (item: Option<Vec<&'a T>>)
        requires
            self.wf(),
        ensures
            match item {
                Some(values) => index < self.ids().len() && is_row(
                    values@,
                    self.columns(),
                    self.ids()[index as int],
                ),
                None => index >= self.ids().len(),
            },
    {
        if index < self.ids.len() {
            let id = self.ids[index];
            assert(self.ids@.contains(id));
            Some(row(&self.tuple, id))
        } else {
            None
        }
    }
}

/// Lists of columns that can be joined.
pub trait Join<'a, T>: Sized {
    /// The columns of the list.
    spec fn columns(&self) -> Seq<&'a ComponentStorage<T>>;

    /// A walk over the common entities.
    fn join(self) -> (iter: JoinIter<'a, T>)
        requires
            all_wf(self.columns()),
        ensures
            iter.wf(),
            iter.columns() == self.columns(),
            iter.position() == 0,
    ;

    /// The common entities, found in parallel.
    fn par_join(self) -> (iter: ParJoinIter<'a, T>)
        requires
            all_wf(self.columns()),
        ensures
            iter.wf(),
            iter.columns() == self.columns(),
    ;
}

impl<'a, T> Join<'a, T> for Vec<&'a ComponentStorage<T>> {
    open spec fn columns(&self) -> Seq<&'a ComponentStorage<T>> {
        self@
    }

    fn join(self) -> (iter: JoinIter<'a, T>) {
        JoinIter::new(self)
    }

    fn par_join(self) -> (iter: ParJoinIter<'a, T>) {
        ParJoinIter::new(self)
    }
}

} // verus!
