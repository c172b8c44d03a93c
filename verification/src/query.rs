//! The query/join engine.
//!
//! Every storage, dense or flag, is a *presence oracle*: it answers whether
//! an entity index currently has that component. A join walks the dense
//! order of a candidate storage and keeps the entity indices whose presence
//! in a second storage matches the request — present for a presence
//! predicate, absent for an absence predicate. The result is exactly the
//! candidate order filtered by that test, so membership depends only on
//! which entities hold which components, never on insertion order.

use vstd::prelude::*;
use crate::storage::DenseStorage;
use crate::storage::FlagStorage;

verus! {

/// A component storage viewed as a presence oracle over entity indices.
pub trait Presence {
    /// The storage's structural invariant.
    spec fn inv(&self) -> bool;

    /// Whether entity index `i` has this component.
    spec fn present(&self, i: int) -> bool;

    /// Decides presence of entity index `e`.
    fn test(&self, e: usize) -> (b: bool)
        requires
            self.inv(),
        ensures
            b == self.present(e as int),
    ;
}

/// A presence oracle that can also enumerate its members in a fixed dense
/// order, making it usable as the candidate side of a join.
pub trait Candidates: Presence {
    /// The dense enumeration order of the present entity indices.
    spec fn order(&self) -> Seq<usize>;

    /// Number of present entity indices.
    fn count(&self) -> (n: usize)
        requires
            self.inv(),
        ensures
            n == self.order().len(),
    ;

    /// The entity index at position `k` of the enumeration order.
    fn member_at(&self, k: usize) -> (e: usize)
        requires
            self.inv(),
            k < self.order().len(),
        ensures
            e == self.order()[k as int],
            self.present(e as int),
    ;

    /// The enumeration order lists exactly the present entity indices,
    /// without repetition.
    proof fn order_characterization(&self)
        requires
            self.inv(),
        ensures
            forall|k: int|
                0 <= k < self.order().len() ==> self.present(#[trigger] self.order()[k] as int),
            forall|i: int| #[trigger] self.present(i) ==> self.order().contains(i as usize),
            forall|k1: int, k2: int|
                0 <= k1 < k2 < self.order().len() ==> self.order()[k1] != self.order()[k2],
    ;
}

impl<T> Presence for DenseStorage<T> {
    open spec fn inv(&self) -> bool {
        self.wf()
    }

    open spec fn present(&self, i: int) -> bool {
        self.has(i)
    }

    fn test(&self, e: usize) -> (b: bool) {
        self.contains_index(e)
    }
}

impl<T> Candidates for DenseStorage<T> {
    open spec fn order(&self) -> Seq<usize> {
        DenseStorage::order(*self)
    }

    fn count(&self) -> (n: usize) {
        self.num()
    }

    fn member_at(&self, k: usize) -> (e: usize) {
        self.entity_at(k)
    }

    proof fn order_characterization(&self) {
        self.lemma_order_characterizes_presence();
    }
}

impl Presence for FlagStorage {
    open spec fn inv(&self) -> bool {
        self.wf()
    }

    open spec fn present(&self, i: int) -> bool {
        self.has(i)
    }

    fn test(&self, e: usize) -> (b: bool) {
        self.contains_index(e)
    }
}

impl Candidates for FlagStorage {
    open spec fn order(&self) -> Seq<usize> {
        FlagStorage::order(*self)
    }

    fn count(&self) -> (n: usize) {
        self.num()
    }

    fn member_at(&self, k: usize) -> (e: usize) {
        self.entity_at(k)
    }

    proof fn order_characterization(&self) {
        self.lemma_order_characterizes_presence();
    }
}

/// The entity indices of `order` whose presence in `b` equals `want`, in
/// order.
pub open spec fn join_spec<B: Presence + ?Sized>(order: Seq<usize>, b: &B, want: bool) -> Seq<
    usize,
>
    decreases order.len(),
{
    if order.len() == 0 {
        Seq::empty()
    } else {
        let rest = join_spec(order.drop_last(), b, want);
        if b.present(order.last() as int) == want {
            rest.push(order.last())
        } else {
            rest
        }
    }
}

/// An element is in the join exactly when it is in the candidate order and
/// its presence in `b` matches the request.
pub proof fn lemma_join_spec_membership<B: Presence + ?Sized>(
    order: Seq<usize>,
    b: &B,
    want: bool,
)
    ensures
        forall|e: usize|
            #[trigger] join_spec(order, b, want).contains(e) <==> order.contains(e) && b.present(
                e as int,
            ) == want,
    decreases order.len(),
{
    if order.len() == 0 {
        assert forall|e: usize| #[trigger] join_spec(order, b, want).contains(e) implies false by {
        }
        assert(forall|e: usize| !order.contains(e));
    } else {
        let rest = order.drop_last();
        lemma_join_spec_membership(rest, b, want);
        assert forall|e: usize| #[trigger] order.contains(e) implies rest.contains(e)
            || order.last() == e by {
            let k = choose|k: int| 0 <= k < order.len() && order[k] == e;
            if k < order.len() - 1 {
                assert(rest[k] == e);
            }
        }
        assert forall|e: usize| rest.contains(e) implies order.contains(e) by {
            let k = choose|k: int| 0 <= k < rest.len() && rest[k] == e;
            assert(order[k] == e);
        }
        assert(order.contains(order.last()));
        let j = join_spec(order, b, want);
        let jrest = join_spec(rest, b, want);
        if b.present(order.last() as int) == want {
            assert forall|e: usize| #[trigger] j.contains(e) implies jrest.contains(e)
                || order.last() == e by {
                let k = choose|k: int| 0 <= k < j.len() && j[k] == e;
                if k < j.len() - 1 {
                    assert(jrest[k] == e);
                }
            }
            assert(forall|e: usize| jrest.contains(e) ==> #[trigger] j.contains(e)) by {
                assert forall|e: usize| jrest.contains(e) implies #[trigger] j.contains(e) by {
                    let k = choose|k: int| 0 <= k < jrest.len() && jrest[k] == e;
                    assert(j[k] == e);
                }
            }
            assert(j.contains(order.last())) by {
                assert(j[j.len() - 1] == order.last());
            }
        }
    }
}

/// The entity indices of `order` whose membership in `members` equals
/// `want`, in order: the model-level counterpart of a join, phrased over a
/// plain set of entity indices.
pub open spec fn present_filter(order: Seq<usize>, members: Set<int>, want: bool) -> Seq<usize>
    decreases order.len(),
{
    if order.len() == 0 {
        Seq::empty()
    } else {
        let rest = present_filter(order.drop_last(), members, want);
        if members.contains(order.last() as int) == want {
            rest.push(order.last())
        } else {
            rest
        }
    }
}

/// A join against storage `b` equals the model-level filter against the
/// set of indices present in `b`.
pub proof fn lemma_join_spec_as_present_filter<B: Presence + ?Sized>(
    order: Seq<usize>,
    b: &B,
    want: bool,
    members: Set<int>,
)
    requires
        forall|i: int| #[trigger] members.contains(i) == b.present(i),
    ensures
        join_spec(order, b, want) == present_filter(order, members, want),
    decreases order.len(),
{
    if order.len() > 0 {
        lemma_join_spec_as_present_filter(order.drop_last(), b, want, members);
        assert(members.contains(order.last() as int) == b.present(order.last() as int));
    }
}

/// A join of a duplicate-free candidate order is itself duplicate-free.
pub proof fn lemma_join_spec_nodup<B: Presence + ?Sized>(order: Seq<usize>, b: &B, want: bool)
    requires
        forall|k1: int, k2: int| 0 <= k1 < k2 < order.len() ==> order[k1] != order[k2],
    ensures
        forall|k1: int, k2: int|
            0 <= k1 < k2 < join_spec(order, b, want).len() ==> join_spec(order, b, want)[k1]
                != join_spec(order, b, want)[k2],
    decreases order.len(),
{
    if order.len() > 0 {
        let rest = order.drop_last();
        assert(forall|k1: int, k2: int|
            0 <= k1 < k2 < rest.len() ==> rest[k1] != rest[k2]);
        lemma_join_spec_nodup(rest, b, want);
        lemma_join_spec_membership(rest, b, want);
        if b.present(order.last() as int) == want {
            let j = join_spec(order, b, want);
            let jrest = join_spec(rest, b, want);
            assert(!rest.contains(order.last())) by {
                if rest.contains(order.last()) {
                    let k = choose|k: int| 0 <= k < rest.len() && rest[k] == order.last();
                    assert(order[k] == order[order.len() - 1]);
                }
            }
            assert(!jrest.contains(order.last()));
            assert forall|k1: int, k2: int| 0 <= k1 < k2 < j.len() implies j[k1] != j[k2] by {
                if k2 == j.len() - 1 {
                    assert(jrest[k1] == j[k1]);
                    assert(jrest.contains(jrest[k1]));
                }
            }
        } else {
            assert(join_spec(order, b, want) == join_spec(rest, b, want));
        }
    }
}

/// Produces the entity indices present in the candidate storage `a` whose
/// presence in `b` equals `want` — `want == true` joins on presence,
/// `want == false` on absence. The result is `a`'s dense order filtered by
/// that test.
pub fn join_where<A: Candidates, B: Presence>(a: &A, b: &B, want: bool) -> (r: Vec<usize>)
    requires
        a.inv(),
        b.inv(),
    ensures
        r@ == join_spec(a.order(), b, want),
{
    let mut r: Vec<usize> = Vec::new();
    let n = a.count();
    let mut k: usize = 0;
    while k < n
        invariant
            a.inv(),
            b.inv(),
            n == a.order().len(),
            k <= n,
            r@ == join_spec(a.order().take(k as int), b, want),
        decreases n - k,
    {
        let e = a.member_at(k);
        if b.test(e) == want {
            r.push(e);
        }
        proof {
            let taken = a.order().take(k + 1);
            assert(taken.drop_last() =~= a.order().take(k as int));
            assert(taken.last() == a.order()[k as int]);
        }
        k = k + 1;
    }
    proof {
        assert(a.order().take(n as int) =~= a.order());
    }
    r
}

/// Join results are sets of entities in disguise: which entities appear
/// depends only on which entities hold the joined components, not on the
/// order anything was inserted. Two storage pairs agreeing on presence
/// produce the same set, whatever their dense orders.
pub proof fn lemma_join_order_independent<
    A1: Candidates,
    B1: Presence,
    A2: Candidates,
    B2: Presence,
>(a1: &A1, b1: &B1, a2: &A2, b2: &B2, want: bool)
    requires
        a1.inv(),
        b1.inv(),
        a2.inv(),
        b2.inv(),
        forall|i: int| a1.present(i) == a2.present(i),
        forall|i: int| b1.present(i) == b2.present(i),
    ensures
        join_spec(a1.order(), b1, want).to_set() == join_spec(a2.order(), b2, want).to_set(),
        forall|e: usize|
            #[trigger] join_spec(a1.order(), b1, want).contains(e) <==> a1.present(e as int)
                && b1.present(e as int) == want,
{
    lemma_join_spec_membership(a1.order(), b1, want);
    lemma_join_spec_membership(a2.order(), b2, want);
    a1.order_characterization();
    a2.order_characterization();
    assert forall|e: usize| #[trigger] a1.order().contains(e) implies a1.present(e as int) by {
        let k = choose|k: int| 0 <= k < a1.order().len() && a1.order()[k] == e;
    }
    assert forall|e: usize| #[trigger] a2.order().contains(e) implies a2.present(e as int) by {
        let k = choose|k: int| 0 <= k < a2.order().len() && a2.order()[k] == e;
    }
    assert(join_spec(a1.order(), b1, want).to_set() =~= join_spec(a2.order(), b2, want).to_set());
}

} // verus!
