//! A union-find (disjoint-set) forest whose sets each carry a value.
//!
//! Every element is an index `0..capacity()`. Each set is represented by
//! one of its elements, its root; the root holds the set's data. `find`
//! compresses paths as it walks, `const_find` does not; neither changes which
//! element represents a set. Unions make the root of the first argument the
//! root of the joined set and merge the second set's data into the first.
use core::convert::Infallible;
use vstd::prelude::*;
use vstd::set_lib::{lemma_int_range, lemma_len_subset, set_int_range};

verus! {

/// The error a `UnionFindData::merge` returns: the user's error, and the
/// value that was to be merged, handed back unchanged.
pub struct UnionFindMergeError<T, E> {
    user_error: E,
    other: T,
}

impl<T, E> UnionFindMergeError<T, E> {
    /// The user's error.
    pub closed spec fn user_error_view(self) -> E {
        self.user_error
    }

    /// The value that was to be merged.
    pub closed spec fn other_view(self) -> T {
        self.other
    }

    pub fn new(user_error: E, other: T) -> (r: Self)
        ensures
            r.user_error_view() == user_error,
            r.other_view() == other,
    {
        Self { user_error, other }
    }
}

/// Data attached to the sets of a `UnionFind`, merged when two sets join.
/// An implementation says what its `merge` does through `merge_ok`,
/// `merge_result` and `merge_error`.
pub trait UnionFindData: Sized {
    type Error;

    /// Merging `other` into `before` succeeds.
    spec fn merge_ok(before: Self, other: Self) -> bool;

    /// What a successful merge of `other` into `before` leaves behind.
    spec fn merge_result(before: Self, other: Self) -> Self;

    /// The error a refused merge of `other` into `before` reports.
    spec fn merge_error(before: Self, other: Self) -> Self::Error;

    /// Merges `other` into `self`. On refusal, `self` is left as it was and
    /// `other` is handed back inside the error.
    fn merge(&mut self, other: Self) -> (r: Result<(), UnionFindMergeError<Self, Self::Error>>)
        ensures
            r is Ok <==> Self::merge_ok(*old(self), other),
            r is Ok ==> *final(self) == Self::merge_result(*old(self), other),
            r is Err ==> {
                &&& *final(self) == *old(self)
                &&& r->Err_0.other_view() == other
                &&& r->Err_0.user_error_view() == Self::merge_error(*old(self), other)
            },
    ;
}

impl UnionFindData for () {
    type Error = Infallible;

    open spec fn merge_ok(before: (), other: ()) -> bool {
        true
    }

    open spec fn merge_result(before: (), other: ()) -> () {
        ()
    }

    open spec fn merge_error(before: (), other: ()) -> Infallible {
        arbitrary()
    }

    fn merge(&mut self, _other: ()) -> (r: Result<(), UnionFindMergeError<(), Infallible>>) {
        Ok(())
    }
}

/// Every merge of `T` values succeeds.
pub open spec fn merges_always_succeed<T: UnionFindData>() -> bool {
    forall|x: T, y: T| #[trigger] T::merge_ok(x, y)
}

/// What a union of the sets represented by `a` and `b` returns: success
/// when they are one set or their data merge, else the merge's error.
pub open spec fn union_outcome<T: UnionFindData>(before: UnionFind<T>, a: usize, b: usize) -> Result<(), T::Error> {
    if a == b || T::merge_ok(before.datas()[a as int]->0, before.datas()[b as int]->0) {
        Ok(())
    } else {
        Err(T::merge_error(before.datas()[a as int]->0, before.datas()[b as int]->0))
    }
}

/// A union of two different sets merges the second set's data into the
/// first's: it succeeds exactly when that merge does, the joined set holds
/// what the merge leaves in the first set's data, and a refusal reports the
/// merge's error for that same order.
pub proof fn lemma_union_merges_into_first<T: UnionFindData>(before: UnionFind<T>, a: usize, b: usize)
    requires
        a != b,
    ensures
        union_outcome(before, a, b) is Ok <==> T::merge_ok(before.datas()[a as int]->0, before.datas()[b as int]->0),
        union_data(before, a, b) == T::merge_result(before.datas()[a as int]->0, before.datas()[b as int]->0),
        !T::merge_ok(before.datas()[a as int]->0, before.datas()[b as int]->0) ==> union_outcome(before, a, b)
            == Err::<(), T::Error>(T::merge_error(before.datas()[a as int]->0, before.datas()[b as int]->0)),
{
}

/// A union of a set with itself succeeds and leaves its data as it was.
pub proof fn lemma_union_with_itself<T: UnionFindData>(before: UnionFind<T>, a: usize)
    ensures
        union_outcome(before, a, a) is Ok,
        union_data(before, a, a) == before.datas()[a as int]->0,
{
}

/// The data the joined set holds after a successful union of the sets
/// represented by `a` and `b`.
pub open spec fn union_data<T: UnionFindData>(before: UnionFind<T>, a: usize, b: usize) -> T {
    if a == b {
        before.datas()[a as int]->0
    } else {
        T::merge_result(before.datas()[a as int]->0, before.datas()[b as int]->0)
    }
}

struct Node<T> {
    /// The index of parent of this node (self if root).
    parent: usize,
    data: Option<T>,
}

/// The set of indices below `n` at which `parents` points to itself.
pub open spec fn roots_of(parents: Seq<usize>) -> Set<int> {
    Set::new(|i: int| 0 <= i < parents.len() && parents[i] == i)
}

/// The representatives after the set represented by `b` joins the one
/// represented by `a`.
pub open spec fn joined_reps(reps: Seq<usize>, a: usize, b: usize) -> Seq<usize> {
    reps.map_values(|x: usize| if x == b { a } else { x })
}

pub struct UnionFind<T> {
    unique_sets: usize,
    elements: Vec<Node<T>>,
    /// Strictly grows from child to parent: the forest has no cycle.
    ranks: Ghost<Seq<nat>>,
    /// The root of the tree of each element.
    roots: Ghost<Seq<usize>>,
}

impl<T> UnionFind<T> {
    /// Number of elements.
    pub closed spec fn size(self) -> nat {
        self.elements@.len()
    }

    /// The representative (root) of the set of each element.
    pub closed spec fn reps(self) -> Seq<usize> {
        self.roots@
    }

    /// The data slot of each element: the set's data at its root, nothing
    /// elsewhere.
    pub closed spec fn datas(self) -> Seq<Option<T>> {
        self.elements@.map_values(|n: Node<T>| n.data)
    }

    /// The number of sets, as kept by the structure.
    pub closed spec fn set_count(self) -> nat {
        self.unique_sets as nat
    }

    /// `i` represents its set.
    pub open spec fn is_rep(self, i: int) -> bool {
        0 <= i < self.size() && self.reps()[i] == i
    }

    /// The representatives, as a set.
    pub open spec fn rep_set(self) -> Set<int> {
        Set::new(|i: int| self.is_rep(i))
    }

    /// Elements `i` and `j` are in one set.
    pub open spec fn same_set(self, i: int, j: int) -> bool {
        self.reps()[i] == self.reps()[j]
    }

    /// Two forests that hold the same sets, representatives and data.
    pub open spec fn same_view(self, other: Self) -> bool {
        &&& self.size() == other.size()
        &&& self.reps() == other.reps()
        &&& self.datas() == other.datas()
        &&& self.set_count() == other.set_count()
    }

    /// `self` is `before` after the set represented by `b` joined the one
    /// represented by `a`: `a` represents the joined set and holds its data
    /// (the merge of the two), `b` no longer holds data, and all else is as
    /// it was. Joining a set with itself changes nothing.
    pub open spec fn is_union_of(self, before: Self, a: usize, b: usize) -> bool {
        &&& self.size() == before.size()
        &&& self.reps() == joined_reps(before.reps(), a, b)
        &&& a == b ==> self.same_view(before)
        &&& a != b ==> {
            &&& self.set_count() == before.set_count() - 1
            &&& self.datas()[a as int] is Some
            &&& forall|j: int|
                0 <= j < before.size() && j != a ==> #[trigger] self.datas()[j]
                    == before.datas().update(b as int, None)[j]
        }
    }

    spec fn parents(self) -> Seq<usize> {
        self.elements@.map_values(|n: Node<T>| n.parent)
    }

    spec fn parent_of(self, i: int) -> int {
        self.elements@[i].parent as int
    }

    pub closed spec fn wf(self) -> bool {
        &&& self.ranks@.len() == self.size()
        &&& self.roots@.len() == self.size()
        &&& forall|i: int| 0 <= i < self.size() ==> #[trigger] self.elements@[i].parent < self.size()
        &&& forall|i: int| 0 <= i < self.size() ==> #[trigger] self.roots@[i] < self.size()
        &&& forall|i: int|
            0 <= i < self.size() && #[trigger] self.parent_of(i) != i ==> self.ranks@[self.parent_of(
                i,
            )] > self.ranks@[i]
        &&& forall|i: int|
            0 <= i < self.size() ==> self.ranks@[i] <= self.ranks@[#[trigger] self.roots@[i] as int]
        &&& forall|i: int|
            0 <= i < self.size() ==> self.parent_of(#[trigger] self.roots@[i] as int)
                == self.roots@[i]
        &&& forall|i: int|
            0 <= i < self.size() ==> self.roots@[#[trigger] self.parent_of(i)] == self.roots@[i]
        &&& forall|i: int|
            0 <= i < self.size() && #[trigger] self.parent_of(i) == i ==> self.roots@[i] == i
        &&& forall|i: int|
            0 <= i < self.size() ==> (#[trigger] self.elements@[i].data is Some <==> self.parent_of(i)
                == i)
        &&& self.unique_sets == roots_of(self.parents()).len()
    }

    proof fn lemma_roots_finite(self)
        ensures
            roots_of(self.parents()).finite(),
            roots_of(self.parents()).len() <= self.size(),
    {
        lemma_int_range(0, self.size() as int);
        lemma_len_subset(roots_of(self.parents()), set_int_range(0, self.size() as int));
    }

    /// Facts of every well-formed forest: there is a representative and a
    /// data slot per element, each element's representative is an element
    /// that represents itself, exactly the representatives hold data, and the
    /// set count is the number of representatives.
    pub proof fn lemma_wf_facts(self)
        requires
            self.wf(),
        ensures
            forall|i: int|
                0 <= i < self.size() ==> {
                    &&& #[trigger] self.reps()[i] < self.size()
                    &&& self.reps()[self.reps()[i] as int] == self.reps()[i]
                    &&& (self.datas()[i] is Some <==> self.reps()[i] == i)
                },
            self.reps().len() == self.size(),
            self.datas().len() == self.size(),
            self.set_count() == self.rep_set().len(),
            self.rep_set().finite(),
            self.set_count() <= self.size(),
    {
        assert forall|i: int| 0 <= i < self.size() implies {
            &&& #[trigger] self.reps()[i] < self.size()
            &&& self.reps()[self.reps()[i] as int] == self.reps()[i]
            &&& (self.datas()[i] is Some <==> self.reps()[i] == i)
        } by {
            let r = self.roots@[i] as int;
            assert(self.parent_of(r) == r);
            assert(self.elements@[i].data is Some <==> self.parent_of(i) == i);
            if self.roots@[i] == i {
                assert(self.parent_of(i) == i);
            }
        }
        assert(self.rep_set() =~= roots_of(self.parents())) by {
            assert forall|i: int| self.rep_set().contains(i) implies roots_of(
                self.parents(),
            ).contains(i) by {
                assert(self.parent_of(self.roots@[i] as int) == self.roots@[i]);
            }
            assert forall|i: int| roots_of(self.parents()).contains(i) implies self.rep_set().contains(
                i,
            ) by {
                assert(self.parents()[i] == self.parent_of(i));
            }
        }
        self.lemma_roots_finite();
    }

    /// `other` differs from `self` at most in the data that root `id` holds.
    spec fn data_changed_at(self, other: Self, id: int) -> bool {
        &&& other.elements@.len() == self.elements@.len()
        &&& forall|i: int|
            0 <= i < self.elements@.len() && i != id ==> other.elements@[i] == self.elements@[i]
        &&& other.elements@[id].parent == self.elements@[id].parent
        &&& other.elements@[id].data is Some
        &&& other.ranks == self.ranks
        &&& other.roots == self.roots
        &&& other.unique_sets == self.unique_sets
    }

    proof fn lemma_data_changed_wf(self, id: int)
        requires
            self.wf(),
            self.is_rep(id),
        ensures
            forall|u: Self| #[trigger] self.data_changed_at(u, id) ==> u.wf(),
    {
        self.lemma_wf_facts();
        assert forall|u: Self| #[trigger] self.data_changed_at(u, id) implies u.wf() by {
            assert(self.elements@[id].data is Some);
            assert(u.parents() =~= self.parents()) by {
                assert forall|i: int| 0 <= i < u.size() implies #[trigger] u.parents()[i]
                    == self.parents()[i] by {
                    if i != id {
                        assert(u.elements@[i] == self.elements@[i]);
                    }
                }
            }
            assert forall|i: int| 0 <= i < u.size() implies #[trigger] u.elements@[i].parent
                == self.elements@[i].parent && (u.elements@[i].data is Some
                <==> self.elements@[i].data is Some) by {
                if i != id {
                    assert(u.elements@[i] == self.elements@[i]);
                }
            }
        }
    }

    /// The data of root `id`, to change in place.
    fn root_data_mut(&mut self, id: usize) -> (r: &mut T)
        requires
            old(self).wf(),
            old(self).is_rep(id as int),
        ensures
            old(self).datas()[id as int] == Some(*r),
            final(self).elements@ == old(self).elements@.update(
                id as int,
                (Node { parent: old(self).elements@[id as int].parent, data: Some(*final(r)) }),
            ),
            old(self).data_changed_at(*final(self), id as int),
            final(self).datas() == old(self).datas().update(id as int, Some(*final(r))),
            final(self).ranks == old(self).ranks,
            final(self).roots == old(self).roots,
            final(self).unique_sets == old(self).unique_sets,
        no_unwind
    {
        proof {
            self.lemma_wf_facts();
            assert(self.elements@[id as int].data is Some);
        }
        match &mut self.elements[id].data {
            Some(d) => d,
            None => {
                loop
                    invariant
                        false,
                    decreases 0nat,
                {
                }
            },
        }
    }

    proof fn lemma_same_parts_wf(self, before: Self)
        requires
            before.wf(),
            self.elements@ == before.elements@,
            self.ranks == before.ranks,
            self.roots == before.roots,
            self.unique_sets == before.unique_sets,
        ensures
            self.wf(),
            self.same_view(before),
    {
        assert(self.parents() =~= before.parents());
        assert(self.datas() =~= before.datas());
        assert forall|i: int| #[trigger] self.parent_of(i) == before.parent_of(i) by {}
    }

    /// Linking root `b` under root `a` (with `a`'s rank raised above `b`'s
    /// and `b`'s set re-labelled) keeps the forest well formed.
    proof fn lemma_union_wf(self, before: Self, a: int, b: int)
        requires
            before.wf(),
            before.is_rep(a),
            before.is_rep(b),
            a != b,
            self.elements@.len() == before.elements@.len(),
            forall|i: int| 0 <= i < before.size() && i != b ==> #[trigger] self.elements@[i].parent == before.elements@[i].parent,
            self.elements@[b].parent == a,
            forall|i: int| 0 <= i < before.size() && i != b ==> (#[trigger] self.elements@[i].data is Some <==> before.elements@[i].data is Some),
            self.elements@[b].data is None,
            self.ranks@ == before.ranks@.update(a, if before.ranks@[a] > before.ranks@[b] { before.ranks@[a] } else { before.ranks@[b] + 1 }),
            self.roots@ == joined_reps(before.roots@, a as usize, b as usize),
            self.unique_sets == before.unique_sets - 1,
        ensures
            self.wf(),
    {
        before.lemma_wf_facts();
        before.lemma_roots_finite();
        let n = before.size();
        assert(before.parent_of(a) == a);
        assert(before.parent_of(b) == b);
        assert(roots_of(self.parents()) =~= roots_of(before.parents()).remove(b)) by {
            assert forall|i: int| 0 <= i < n implies #[trigger] self.parents()[i] == (if i == b { a as usize } else { before.parents()[i] }) by {}
        }
        assert(roots_of(before.parents()).contains(b)) by {
            assert(before.parents()[b] == b);
        }
        assert forall|i: int| 0 <= i < n implies #[trigger] self.elements@[i].parent < self.size() by {
            if i != b {
                assert(before.elements@[i].parent < before.size());
            }
        }
        assert forall|i: int| 0 <= i < n implies #[trigger] self.roots@[i] < self.size() by {
            assert(before.roots@[i] < before.size());
        }
        assert forall|i: int| 0 <= i < n && #[trigger] self.parent_of(i) != i implies self.ranks@[self.parent_of(i)] > self.ranks@[i] by {
            if i != b {
                assert(before.parent_of(i) == self.parent_of(i));
                assert(before.ranks@[before.parent_of(i)] > before.ranks@[i]);
            }
        }
        assert forall|i: int| 0 <= i < n implies self.ranks@[i] <= self.ranks@[#[trigger] self.roots@[i] as int] by {
            assert(before.ranks@[i] <= before.ranks@[before.roots@[i] as int]);
            if before.roots@[i] == b {
                assert(before.ranks@[b] < self.ranks@[a]);
            }
        }
        assert forall|i: int| 0 <= i < n implies self.parent_of(#[trigger] self.roots@[i] as int) == self.roots@[i] by {
            let r = before.roots@[i] as int;
            assert(before.parent_of(r) == r);
            if r == b {
                assert(self.roots@[i] == a);
            } else {
                assert(self.roots@[i] == r);
            }
        }
        assert forall|i: int| 0 <= i < n implies self.roots@[#[trigger] self.parent_of(i)] == self.roots@[i] by {
            if i != b {
                assert(before.parent_of(i) == self.parent_of(i));
                assert(before.roots@[before.parent_of(i)] == before.roots@[i]);
            } else {
                assert(before.roots@[a] == a);
                assert(before.roots@[b] == b);
            }
        }
        assert forall|i: int| 0 <= i < n && #[trigger] self.parent_of(i) == i implies self.roots@[i] == i by {
            assert(i != b);
            assert(before.parent_of(i) == i);
            assert(before.roots@[i] == i);
        }
        assert forall|i: int| 0 <= i < n implies (#[trigger] self.elements@[i].data is Some <==> self.parent_of(i) == i) by {
            if i != b {
                assert(before.elements@[i].data is Some <==> before.parent_of(i) == i);
            }
        }
    }

    /// After a union of the sets of `a` and `b`, two elements share a set
    /// exactly when they shared one before, or one was with `a` and the other
    /// with `b`. In particular `a` and `b` now share a set.
    pub proof fn lemma_union_same_sets(self, before: Self, a: int, b: int)
        requires
            before.wf(),
            0 <= a < before.size(),
            0 <= b < before.size(),
            self.is_union_of(before, before.reps()[a], before.reps()[b]),
        ensures
            self.same_set(a, b),
            forall|x: int, y: int|
                0 <= x < before.size() && 0 <= y < before.size() ==> (#[trigger] self.same_set(x, y)
                    <==> (before.same_set(x, y) || (before.same_set(x, a) && before.same_set(y, b))
                    || (before.same_set(x, b) && before.same_set(y, a)))),
    {
        before.lemma_wf_facts();
        let ra = before.reps()[a];
        let rb = before.reps()[b];
        assert forall|x: int| 0 <= x < before.size() implies #[trigger] self.reps()[x] == (if before.reps()[x] == rb { ra } else { before.reps()[x] }) by {}
    }

    /// A union joins exactly the sets of `a` and `b`: afterwards two elements
    /// share a set when they shared one before, or when each of them was with
    /// `a` or with `b`; there is one set fewer, unless `a` and `b` already
    /// shared a set, when nothing changes.
    pub proof fn lemma_union_joins_sets(self, before: Self, a: int, b: int)
        requires
            before.wf(),
            0 <= a < before.size(),
            0 <= b < before.size(),
            self.is_union_of(before, before.reps()[a], before.reps()[b]),
        ensures
            self.same_set(a, b),
            forall|x: int, y: int|
                0 <= x < before.size() && 0 <= y < before.size() ==> (#[trigger] self.same_set(x, y)
                    <==> (before.same_set(x, y) || ((before.same_set(x, a) || before.same_set(x, b))
                    && (before.same_set(y, a) || before.same_set(y, b))))),
            self.set_count() == before.set_count() - (if before.same_set(a, b) { 0int } else { 1int }),
            before.same_set(a, b) ==> self.same_view(before),
    {
        self.lemma_union_same_sets(before, a, b);
    }

    /// The order of a union's arguments does not matter to the sets: joining
    /// `a`'s set with `b`'s or `b`'s with `a`'s gives the same sets and the
    /// same number of them.
    pub proof fn lemma_union_symmetric(before: Self, ab: Self, ba: Self, a: int, b: int)
        requires
            before.wf(),
            0 <= a < before.size(),
            0 <= b < before.size(),
            ab.is_union_of(before, before.reps()[a], before.reps()[b]),
            ba.is_union_of(before, before.reps()[b], before.reps()[a]),
        ensures
            ab.size() == ba.size(),
            ab.set_count() == ba.set_count(),
            forall|x: int, y: int|
                0 <= x < before.size() && 0 <= y < before.size() ==> (#[trigger] ab.same_set(x, y)
                    <==> ba.same_set(x, y)),
    {
        ab.lemma_union_joins_sets(before, a, b);
        ba.lemma_union_joins_sets(before, b, a);
        assert forall|x: int, y: int|
            0 <= x < before.size() && 0 <= y < before.size() implies (#[trigger] ab.same_set(x, y)
                <==> ba.same_set(x, y)) by {
            assert(ab.same_set(x, y) == (before.same_set(x, y) || ((before.same_set(x, a) || before.same_set(x, b))
                && (before.same_set(y, a) || before.same_set(y, b)))));
            assert(ba.same_set(x, y) == (before.same_set(x, y) || ((before.same_set(x, b) || before.same_set(x, a))
                && (before.same_set(y, b) || before.same_set(y, a)))));
        }
    }

    /// A second union of the same two elements changes nothing.
    pub proof fn lemma_union_idempotent(before: Self, once: Self, twice: Self, a: int, b: int)
        requires
            before.wf(),
            once.wf(),
            0 <= a < before.size(),
            0 <= b < before.size(),
            once.is_union_of(before, before.reps()[a], before.reps()[b]),
            twice.is_union_of(once, once.reps()[a], once.reps()[b]),
        ensures
            twice.same_view(once),
    {
        once.lemma_union_joins_sets(before, a, b);
    }

    /// Walks from `node_id` to its root, pointing each node it passes at its
    /// grandparent; returns the root.
    fn compress_to_root(&mut self, node_id: usize) -> (root: usize)
        requires
            old(self).wf(),
            node_id < old(self).size(),
        ensures
            final(self).wf(),
            final(self).same_view(*old(self)),
            root == old(self).reps()[node_id as int],
            final(self).is_rep(root as int),
    {
        let ghost start = *self;
        let mut node = node_id;
        while self.elements[node].parent != node
            invariant
                self.wf(),
                self.size() == start.size(),
                self.roots@ == start.roots@,
                self.ranks@ == start.ranks@,
                self.datas() == start.datas(),
                self.unique_sets == start.unique_sets,
                roots_of(self.parents()) == roots_of(start.parents()),
                node < self.size(),
                self.roots@[node as int] == self.roots@[node_id as int],
            decreases self.ranks@[self.roots@[node as int] as int] - self.ranks@[node as int],
        {
            let parent_id = self.elements[node].parent;
            let grandparent_id = self.elements[parent_id].parent;
            let ghost before = *self;
            assert(self.parent_of(node as int) != node);
            assert(self.ranks@[node as int] <= self.ranks@[self.roots@[node as int] as int]);
            // Slowly compress tree by assigning node's parent to its grandparent.
            self.elements[node].parent = grandparent_id;
            proof {
                assert(before.roots@[parent_id as int] == before.roots@[node as int]);
                assert(before.parent_of(node as int) == parent_id);
                assert(before.parent_of(parent_id as int) == grandparent_id);
                assert(before.roots@[before.parent_of(parent_id as int)] == before.roots@[parent_id as int]);
                assert(before.roots@[before.parent_of(node as int)] == before.roots@[node as int]);
                if before.parent_of(parent_id as int) != parent_id {
                    assert(before.ranks@[grandparent_id as int] > before.ranks@[parent_id as int]);
                }
                assert(before.ranks@[grandparent_id as int] > before.ranks@[node as int]);
                assert(self.elements@ == before.elements@.update(
                    node as int,
                    Node { parent: grandparent_id, data: before.elements@[node as int].data },
                ));
                assert(self.datas() =~= before.datas());
                assert(roots_of(self.parents()) =~= roots_of(before.parents())) by {
                    assert forall|i: int| 0 <= i < self.size() && i != node implies #[trigger] self.parents()[i]
                        == before.parents()[i] by {}
                }
                assert forall|i: int| 0 <= i < self.size() implies #[trigger] self.elements@[i].parent
                    < self.size() by {
                    if i != node {
                        assert(self.elements@[i] == before.elements@[i]);
                    }
                }
                assert forall|i: int| 0 <= i < self.size() && #[trigger] self.parent_of(i) != i implies self.ranks@[self.parent_of(
                    i,
                )] > self.ranks@[i] by {
                    if i != node {
                        assert(self.elements@[i] == before.elements@[i]);
                        assert(before.parent_of(i) != i);
                    }
                }
                assert forall|i: int| 0 <= i < self.size() implies self.parent_of(
                    #[trigger] self.roots@[i] as int,
                ) == self.roots@[i] by {
                    let r = self.roots@[i] as int;
                    assert(before.parent_of(r) == r);
                    if r == node {
                        assert(before.parent_of(node as int) != node);
                    }
                }
                assert forall|i: int| 0 <= i < self.size() implies self.roots@[#[trigger] self.parent_of(
                    i,
                )] == self.roots@[i] by {
                    if i != node {
                        assert(self.elements@[i] == before.elements@[i]);
                        assert(before.roots@[before.parent_of(i)] == before.roots@[i]);
                    }
                }
                assert forall|i: int| 0 <= i < self.size() && #[trigger] self.parent_of(i) == i implies self.roots@[i]
                    == i by {
                    if i != node {
                        assert(self.elements@[i] == before.elements@[i]);
                        assert(before.parent_of(i) == i);
                    }
                }
                assert forall|i: int| 0 <= i < self.size() implies (
                #[trigger] self.elements@[i].data is Some <==> self.parent_of(i) == i) by {
                    if i != node {
                        assert(self.elements@[i] == before.elements@[i]);
                    } else {
                        assert(before.elements@[i].data is Some <==> before.parent_of(i) == i);
                    }
                }
            }
            node = parent_id;
        }
        proof {
            assert(self.parent_of(node as int) == node);
        }
        node
    }
}


impl UnionFind<()> {
    /// A forest of `capacity` elements, each alone in its set.
    pub fn new(capacity: usize) -> (r: Self)
        ensures
            r.wf(),
            r.size() == capacity,
            r.reps() == Seq::new(capacity as nat, |i: int| i as usize),
            r.datas() == Seq::new(capacity as nat, |i: int| Some(())),
            r.set_count() == capacity,
    {
        let mut elements: Vec<Node<()>> = Vec::new();
        let mut idx: usize = 0;
        while idx < capacity
            invariant
                idx <= capacity,
                elements@.len() == idx,
                forall|j: int| 0 <= j < idx ==> #[trigger] elements@[j] == (Node { parent: j as usize, data: Some(()) }),
            decreases capacity - idx,
        {
            elements.push(Node { parent: idx, data: Some(()) });
            idx = idx + 1;
        }
        let r = Self {
            unique_sets: capacity,
            elements,
            ranks: Ghost(Seq::new(capacity as nat, |i: int| 0nat)),
            roots: Ghost(Seq::new(capacity as nat, |i: int| i as usize)),
        };
        proof {
            assert(roots_of(r.parents()) =~= set_int_range(0, capacity as int));
            lemma_int_range(0, capacity as int);
            assert(r.datas() =~= Seq::new(capacity as nat, |i: int| Some(())));
        }
        r
    }
}

impl<T> Default for UnionFind<T> {
    fn default() -> (r: Self)
        ensures
            r.wf(),
            r.size() == 0,
            r.set_count() == 0,
    {
        let r = Self {
            unique_sets: 0,
            elements: Vec::new(),
            ranks: Ghost(Seq::empty()),
            roots: Ghost(Seq::empty()),
        };
        proof {
            assert(roots_of(r.parents()) =~= Set::empty());
        }
        r
    }
}

impl<T> UnionFind<T> {
    /// Number of elements.
    pub fn capacity(&self) -> (r: usize)
        ensures
            r == self.size(),
    {
        self.elements.len()
    }

    /// Number of disjoint sets.
    pub fn unique_sets(&self) -> (r: usize)
        ensures
            r == self.set_count(),
    {
        self.unique_sets
    }

    /// Gives a mutable proxy to the root of tree that node_id is in.
    pub fn find_mut(&mut self, node_id: usize) -> (r: RootNodeMutProxy<'_, T>)
        requires
            old(self).wf(),
            node_id < old(self).size(),
        ensures
            r.id_view() == old(self).reps()[node_id as int],
            r.owner().wf(),
            r.owner().same_view(*old(self)),
            *final(self) == *final(r.handle()),
    {
        let id = self.compress_to_root(node_id);
        proof {
            self.lemma_wf_facts();
        }
        RootNodeMutProxy { union_find: self, id }
    }

    /// Gives a proxy to the root of tree that node_id is in.
    pub fn find(&mut self, node_id: usize) -> (r: RootNodeProxy<'_, T>)
        requires
            old(self).wf(),
            node_id < old(self).size(),
        ensures
            final(self).wf(),
            final(self).same_view(*old(self)),
            r.id_view() == old(self).reps()[node_id as int],
            r.owner() == *final(self),
    {
        let id = self.compress_to_root(node_id);
        proof {
            self.lemma_wf_facts();
        }
        RootNodeProxy { union_find: self, id }
    }

    /// Gives id of the root of tree that node is in. Does not do path compression.
    pub fn const_find(&self, node_id: usize) -> (r: RootNodeProxy<'_, T>)
        requires
            self.wf(),
            node_id < self.size(),
        ensures
            r.id_view() == self.reps()[node_id as int],
            r.owner() == *self,
    {
        let mut node = node_id;
        while self.elements[node].parent != node
            invariant
                self.wf(),
                node < self.size(),
                self.roots@[node as int] == self.roots@[node_id as int],
            decreases self.ranks@[self.roots@[node as int] as int] - self.ranks@[node as int],
        {
            proof {
                assert(self.parent_of(node as int) != node);
                assert(self.roots@[self.parent_of(node as int)] == self.roots@[node as int]);
                assert(self.ranks@[node as int] <= self.ranks@[self.roots@[node as int] as int]);
            }
            node = self.elements[node].parent;
        }
        proof {
            assert(self.parent_of(node as int) == node);
            self.lemma_wf_facts();
        }
        RootNodeProxy { union_find: self, id: node }
    }

    /// Adds a new singleton set with `data`.
    pub fn add_set(&mut self, data: T) -> (r: RootNodeProxy<'_, T>)
        requires
            old(self).wf(),
            old(self).size() < usize::MAX,
        ensures
            final(self).wf(),
            final(self).size() == old(self).size() + 1,
            final(self).reps() == old(self).reps().push(old(self).size() as usize),
            final(self).datas() == old(self).datas().push(Some(data)),
            final(self).set_count() == old(self).set_count() + 1,
            r.id_view() == old(self).size(),
            r.owner() == *final(self),
    {
        proof {
            self.lemma_wf_facts();
        }
        let ghost before = *self;
        let id = self.elements.len();
        self.elements.push(Node { parent: id, data: Some(data) });
        self.unique_sets = self.unique_sets + 1;
        self.ranks = Ghost(self.ranks@.push(0nat));
        self.roots = Ghost(self.roots@.push(id));
        proof {
            assert(roots_of(self.parents()) =~= roots_of(before.parents()).insert(id as int));
            before.lemma_roots_finite();
            assert(self.datas() =~= before.datas().push(Some(data)));
            assert forall|i: int| 0 <= i < self.size() implies #[trigger] self.elements@[i].parent
                < self.size() by {
                if i < id {
                    assert(self.elements@[i] == before.elements@[i]);
                }
            }
            assert forall|i: int| 0 <= i < self.size() && #[trigger] self.parent_of(i) != i implies self.ranks@[self.parent_of(
                i,
            )] > self.ranks@[i] by {
                assert(self.elements@[i] == before.elements@[i]);
                assert(before.parent_of(i) != i);
            }
            assert forall|i: int| 0 <= i < self.size() implies self.parent_of(
                #[trigger] self.roots@[i] as int,
            ) == self.roots@[i] by {
                if i < id {
                    assert(before.parent_of(before.roots@[i] as int) == before.roots@[i]);
                }
            }
            assert forall|i: int| 0 <= i < self.size() implies self.roots@[#[trigger] self.parent_of(
                i,
            )] == self.roots@[i] by {
                if i < id {
                    assert(self.elements@[i] == before.elements@[i]);
                    assert(before.roots@[before.parent_of(i)] == before.roots@[i]);
                }
            }
            assert forall|i: int| 0 <= i < self.size() && #[trigger] self.parent_of(i) == i implies self.roots@[i]
                == i by {
                if i < id {
                    assert(self.elements@[i] == before.elements@[i]);
                    assert(before.parent_of(i) == i);
                }
            }
            assert forall|i: int| 0 <= i < self.size() implies (
            #[trigger] self.elements@[i].data is Some <==> self.parent_of(i) == i) by {
                if i < id {
                    assert(self.elements@[i] == before.elements@[i]);
                    assert(before.elements@[i].data is Some <==> before.parent_of(i) == i);
                }
            }
            assert forall|i: int| 0 <= i < self.size() implies self.ranks@[i] <= self.ranks@[
                #[trigger] self.roots@[i] as int] by {
                if i < id {
                    assert(before.ranks@[i] <= before.ranks@[before.roots@[i] as int]);
                }
            }
            assert(self.wf());
            self.lemma_wf_facts();
        }
        RootNodeProxy { union_find: self, id }
    }
}

impl<T: UnionFindData> UnionFind<T> {
    /// A forest with one element per item of `data`, each alone in its set
    /// and holding its item.
    pub fn new_with_data(data: Vec<T>) -> (r: Self)
        ensures
            r.wf(),
            r.size() == data.len(),
            r.reps() == Seq::new(data.len() as nat, |i: int| i as usize),
            r.datas() == data@.map_values(|d: T| Some(d)),
            r.set_count() == data.len(),
    {
        let unique_sets = data.len();
        let ghost items = data@;
        let mut data = data;
        let mut rev_elements: Vec<Node<T>> = Vec::new();
        // Move the items out from the back, then restore their order.
        while data.len() > 0
            invariant
                data@.len() + rev_elements@.len() == items.len(),
                data@ == items.subrange(0, data@.len() as int),
                forall|j: int| 0 <= j < rev_elements@.len() ==> #[trigger] rev_elements@[j] == (Node {
                    parent: (items.len() - 1 - j) as usize,
                    data: Some(items[items.len() - 1 - j]),
                }),
            decreases data@.len(),
        {
            let idx = data.len() - 1;
            let item = data.pop().unwrap();
            rev_elements.push(Node { parent: idx, data: Some(item) });
        }
        let mut elements: Vec<Node<T>> = Vec::new();
        while rev_elements.len() > 0
            invariant
                rev_elements@.len() + elements@.len() == items.len(),
                forall|j: int| 0 <= j < rev_elements@.len() ==> #[trigger] rev_elements@[j] == (Node {
                    parent: (items.len() - 1 - j) as usize,
                    data: Some(items[items.len() - 1 - j]),
                }),
                forall|j: int| 0 <= j < elements@.len() ==> #[trigger] elements@[j] == (Node {
                    parent: j as usize,
                    data: Some(items[j]),
                }),
            decreases rev_elements@.len(),
        {
            let node = rev_elements.pop().unwrap();
            elements.push(node);
        }
        let r = Self {
            unique_sets,
            elements,
            ranks: Ghost(Seq::new(unique_sets as nat, |i: int| 0nat)),
            roots: Ghost(Seq::new(unique_sets as nat, |i: int| i as usize)),
        };
        proof {
            assert(roots_of(r.parents()) =~= set_int_range(0, unique_sets as int));
            lemma_int_range(0, unique_sets as int);
            assert(r.datas() =~= items.map_values(|d: T| Some(d)));
        }
        r
    }

    /// Merges root `b`'s data into root `a`'s and links `b` under `a`; on a
    /// refused merge nothing changes.
    fn join_roots(&mut self, a: usize, b: usize) -> (r: Result<(), T::Error>)
        requires
            old(self).wf(),
            old(self).is_rep(a as int),
            old(self).is_rep(b as int),
            a != b,
        ensures
            final(self).wf(),
            final(self).size() == old(self).size(),
            match r {
                Ok(_) => {
                    &&& final(self).is_union_of(*old(self), a, b)
                    &&& final(self).is_rep(a as int)
                    &&& final(self).datas()[a as int] == Some(union_data(*old(self), a, b))
                },
                Err(_) => final(self).same_view(*old(self)),
            },
            r == union_outcome(*old(self), a, b),
            // `a`'s data receives `b`'s.
            r is Ok <==> T::merge_ok(old(self).datas()[a as int]->0, old(self).datas()[b as int]->0),
            r is Ok ==> final(self).datas()[a as int] == Some(
                T::merge_result(old(self).datas()[a as int]->0, old(self).datas()[b as int]->0),
            ),
            r is Err ==> r->Err_0 == T::merge_error(old(self).datas()[a as int]->0, old(self).datas()[b as int]->0),
    {
        let ghost before = *self;
        proof {
            self.lemma_wf_facts();
            assert(self.elements@[a as int].data is Some);
            assert(self.elements@[b as int].data is Some);
            self.lemma_roots_finite();
            assert(roots_of(self.parents()).contains(a as int));
            assert(roots_of(self.parents()).contains(b as int));
            assert(roots_of(self.parents()).remove(a as int).contains(b as int));
            assert(roots_of(self.parents()).remove(a as int).len() >= 1);
        }
        let b_data = self.elements[b].data.take().unwrap();
        let mut a_data = self.elements[a].data.take().unwrap();
        let merged = a_data.merge(b_data);
        if let Err(UnionFindMergeError { user_error, other }) = merged {
            self.elements[b].data = Some(other);
            self.elements[a].data = Some(a_data);
            proof {
                assert(self.elements@ =~= before.elements@);
                self.lemma_same_parts_wf(before);
            }
            return Err(user_error);
        }
        self.elements[a].data = Some(a_data);
        self.elements[b].parent = a;
        // Two sets have joined, reducing the number of unique sets by one.
        self.unique_sets = self.unique_sets - 1;
        let ghost new_rank: nat = if before.ranks@[a as int] > before.ranks@[b as int] {
            before.ranks@[a as int]
        } else {
            before.ranks@[b as int] + 1
        };
        self.ranks = Ghost(before.ranks@.update(a as int, new_rank));
        self.roots = Ghost(joined_reps(before.roots@, a, b));
        proof {
            assert(self.elements@.len() == before.elements@.len());
            assert forall|i: int| 0 <= i < before.size() && i != b as int implies #[trigger] self.elements@[i].parent == before.elements@[i].parent by {}
            assert forall|i: int| 0 <= i < before.size() && i != b as int implies (#[trigger] self.elements@[i].data is Some <==> before.elements@[i].data is Some) by {}
            self.lemma_union_wf(before, a as int, b as int);
            assert forall|j: int| 0 <= j < before.size() && j != a implies #[trigger] self.datas()[j]
                == before.datas().update(b as int, None)[j] by {}
        }
        Ok(())
    }

    /// Unions the two sets that a and b are in (noop if are already in the same
    /// set), returning the new set index of the two nodes.
    ///
    /// The root of `a_id`'s set becomes the root of the joined set, and
    /// `b_id`'s set's data is merged into it. If the merge is refused, the
    /// sets and their data are left as they were and the user's error comes
    /// back.
    #[verifier::spinoff_prover]
    pub fn try_union(&mut self, a_id: usize, b_id: usize) -> (r: Result<RootNodeProxy<'_, T>, T::Error>)
        requires
            old(self).wf(),
            a_id < old(self).size(),
            b_id < old(self).size(),
        ensures
            final(self).wf(),
            final(self).size() == old(self).size(),
            ({
                let ra = old(self).reps()[a_id as int];
                let rb = old(self).reps()[b_id as int];
                &&& r is Ok <==> union_outcome(*old(self), ra, rb) is Ok
                // Two different sets: the first argument's root receives the
                // second's data.
                &&& ra != rb ==> (r is Ok <==> T::merge_ok(
                    old(self).datas()[ra as int]->0,
                    old(self).datas()[rb as int]->0,
                ))
                &&& ra != rb && r is Ok ==> final(self).datas()[ra as int] == Some(
                    T::merge_result(old(self).datas()[ra as int]->0, old(self).datas()[rb as int]->0),
                )
                &&& ra != rb && r is Err ==> r->Err_0 == T::merge_error(
                    old(self).datas()[ra as int]->0,
                    old(self).datas()[rb as int]->0,
                )
                &&& ra == rb ==> r is Ok && final(self).same_view(*old(self))
                &&& match r {
                    Ok(p) => {
                        &&& p.id_view() == ra
                        &&& p.owner() == *final(self)
                        &&& final(self).is_union_of(*old(self), ra, rb)
                        &&& final(self).datas()[ra as int] == Some(union_data(*old(self), ra, rb))
                    },
                    Err(e) => {
                        &&& union_outcome(*old(self), ra, rb) == Err::<(), T::Error>(e)
                        &&& final(self).same_view(*old(self))
                    },
                }
            }),
    {
        let a_root_id = self.compress_to_root(a_id);
        let b_root_id = self.compress_to_root(b_id);
        if a_root_id != b_root_id {
            let joined = self.join_roots(a_root_id, b_root_id);
            if let Err(user_error) = joined {
                return Err(user_error);
            }
        } else {
            proof {
                assert(self.roots@ =~= joined_reps(self.roots@, a_root_id, b_root_id));
            }
        }
        Ok(RootNodeProxy { union_find: self, id: a_root_id })
    }
}

impl<T: UnionFindData<Error = Infallible>> UnionFind<T> {
    /// Unions the two sets that a and b are in (noop if are already in the same
    /// set), returning the new set index of the two nodes.
    pub fn union(&mut self, a_id: usize, b_id: usize) -> (r: RootNodeProxy<'_, T>)
        requires
            old(self).wf(),
            a_id < old(self).size(),
            b_id < old(self).size(),
            merges_always_succeed::<T>(),
        ensures
            final(self).wf(),
            final(self).size() == old(self).size(),
            ({
                let ra = old(self).reps()[a_id as int];
                let rb = old(self).reps()[b_id as int];
                &&& r.id_view() == ra
                &&& r.owner() == *final(self)
                &&& final(self).is_union_of(*old(self), ra, rb)
                &&& final(self).datas()[ra as int] == Some(union_data(*old(self), ra, rb))
                &&& ra != rb ==> final(self).datas()[ra as int] == Some(
                    T::merge_result(old(self).datas()[ra as int]->0, old(self).datas()[rb as int]->0),
                )
                &&& ra == rb ==> final(self).same_view(*old(self))
            }),
    {
        proof {
            old(self).lemma_wf_facts();
            let da = old(self).datas()[old(self).reps()[a_id as int] as int]->0;
            let db = old(self).datas()[old(self).reps()[b_id as int] as int]->0;
            assert(T::merge_ok(da, db));
        }
        match self.try_union(a_id, b_id) {
            Ok(res) => res,
        }
    }
}

/// A shared view of the root of one set: its id and its data.
pub struct RootNodeProxy<'a, T> {
    union_find: &'a UnionFind<T>,
    id: usize,
}

impl<'a, T> RootNodeProxy<'a, T> {
    #[verifier::type_invariant]
    spec fn inv(self) -> bool {
        self.union_find.wf() && self.union_find.is_rep(self.id as int)
    }

    /// The forest this proxy looks into.
    pub closed spec fn owner(self) -> UnionFind<T> {
        *self.union_find
    }

    /// The root's index.
    pub closed spec fn id_view(self) -> usize {
        self.id
    }

    pub fn id(&self) -> (r: usize)
        ensures
            r == self.id_view(),
            self.owner().is_rep(r as int),
    {
        proof {
            use_type_invariant(self);
        }
        self.id
    }

    pub fn data(&self) -> (r: &T)
        ensures
            self.owner().datas()[self.id_view() as int] == Some(*r),
    {
        proof {
            use_type_invariant(self);
            self.union_find.lemma_wf_facts();
        }
        let uf: &UnionFind<T> = self.union_find;
        uf.elements[self.id].data.as_ref().unwrap()
    }
}

/// A mutable view of the root of one set: its id, and its data to read or
/// change.
pub struct RootNodeMutProxy<'a, T> {
    union_find: &'a mut UnionFind<T>,
    id: usize,
}

impl<'a, T> RootNodeMutProxy<'a, T> {
    #[verifier::type_invariant]
    spec fn inv(self) -> bool {
        self.union_find.wf() && self.union_find.is_rep(self.id as int)
    }

    /// The forest this proxy looks into, as it is now.
    pub closed spec fn owner(self) -> UnionFind<T> {
        *self.union_find
    }

    /// The borrow of the forest that this proxy holds.
    pub closed spec fn handle(self) -> &'a mut UnionFind<T> {
        self.union_find
    }

    /// Once the proxy is done with, the forest is what the proxy last saw.
    pub proof fn lemma_released(self)
        requires
            has_resolved(self),
        ensures
            *final(self.handle()) == self.owner(),
    {
    }

    /// The root's index.
    pub closed spec fn id_view(self) -> usize {
        self.id
    }

    pub fn id(&self) -> (r: usize)
        ensures
            r == self.id_view(),
            self.owner().is_rep(r as int),
    {
        proof {
            use_type_invariant(self);
        }
        self.id
    }

    pub fn data(&mut self) -> (r: &T)
        ensures
            old(self).owner().datas()[old(self).id_view() as int] == Some(*r),
            *final(self) == *old(self),
    {
        proof {
            use_type_invariant(&*self);
            self.union_find.lemma_wf_facts();
        }
        let uf: &UnionFind<T> = self.union_find;
        uf.elements[self.id].data.as_ref().unwrap()
    }

    pub fn data_mut(&mut self) -> (r: &mut T)
        ensures
            old(self).owner().datas()[old(self).id_view() as int] == Some(*r),
            final(self).id_view() == old(self).id_view(),
            final(self).owner().wf(),
            final(self).owner().size() == old(self).owner().size(),
            final(self).owner().reps() == old(self).owner().reps(),
            final(self).owner().set_count() == old(self).owner().set_count(),
            final(self).owner().datas() == old(self).owner().datas().update(
                old(self).id_view() as int,
                Some(*final(r)),
            ),
            *final(final(self).handle()) == *final(old(self).handle()),
        no_unwind
    {
        proof {
            use_type_invariant(&*self);
            self.union_find.lemma_wf_facts();
            self.union_find.lemma_data_changed_wf(self.id as int);
        }
        self.union_find.root_data_mut(self.id)
    }
}

impl<'a, T> From<RootNodeMutProxy<'a, T>> for RootNodeProxy<'a, T> {
    fn from(value: RootNodeMutProxy<'a, T>) -> (r: Self) {
        proof {
            use_type_invariant(&value);
        }
        RootNodeProxy { union_find: value.union_find, id: value.id }
    }
}

impl<'a, T> vstd::std_specs::convert::FromSpecImpl<RootNodeMutProxy<'a, T>> for RootNodeProxy<'a, T> {
    open spec fn obeys_from_spec() -> bool {
        true
    }

    open spec fn from_spec(v: RootNodeMutProxy<'a, T>) -> Self {
        RootNodeProxy::from_mut_proxy(v)
    }
}

impl<'a, T> RootNodeProxy<'a, T> {
    /// The shared proxy to the same root as `v`.
    pub closed spec fn from_mut_proxy(v: RootNodeMutProxy<'a, T>) -> Self {
        RootNodeProxy { union_find: &*v.union_find, id: v.id }
    }
}

impl<'a, T> core::ops::Deref for RootNodeProxy<'a, T> {
    type Target = T;

    fn deref(&self) -> (r: &T)
        ensures
            self.owner().datas()[self.id_view() as int] == Some(*r),
    {
        self.data()
    }
}

} // verus!
