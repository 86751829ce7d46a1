//! Ranking of results.
//!
//! Results are ranked in a total order (score descending, then creation descending, then
//! identifier), so that identical searches give identical orders.
use crate::measure::Measure;
use crate::text::{dictionary_le, in_order, lemma_dictionary_total, lemma_dictionary_transitive};
use crate::time::Timestamp;
use vstd::prelude::*;

verus! {

/// What can be ranked.
pub trait Ranked: View + Sized {
    /// Whether `a` may stand before `b`.
    spec fn before(a: Self::V, b: Self::V) -> bool;

    /// Of any two one may stand before the other.
    proof fn lemma_total(a: Self::V, b: Self::V)
        ensures
            Self::before(a, b) || Self::before(b, a),
    ;

    /// What may stand before something may stand before everything behind it.
    proof fn lemma_transitive(a: Self::V, b: Self::V, c: Self::V)
        requires
            Self::before(a, b),
            Self::before(b, c),
        ensures
            Self::before(a, c),
    ;

    /// Whether this may stand before `other`.
    fn goes_before(&self, other: &Self) -> (r: bool)
        ensures
            r == Self::before(self@, other@),
    ;
}

/// A ranked list with one more element, put before the first one that it may stand before.
pub open spec fn placed<T: Ranked>(list: Seq<T::V>, x: T::V) -> Seq<T::V>
    decreases list.len(),
{
    if list.len() == 0 || T::before(x, list[0]) {
        seq![x] + list
    } else {
        seq![list[0]] + placed::<T>(list.drop_first(), x)
    }
}

/// The elements of a list in their ranking; elements that may stand either way keep their order.
pub open spec fn ranking<T: Ranked>(list: Seq<T::V>) -> Seq<T::V>
    decreases list.len(),
{
    if list.len() == 0 {
        Seq::empty()
    } else {
        placed::<T>(ranking::<T>(list.drop_first()), list[0])
    }
}

/// What a list says.
pub open spec fn all_views<T: View>(v: Seq<T>) -> Seq<T::V> {
    v.map_values(|x: T| x@)
}

/// Whether a list is in order.
pub open spec fn in_ranking<T: Ranked>(list: Seq<T::V>) -> bool {
    forall|i: int, j: int|
        #![trigger list[i], list[j]]
        0 <= i < j < list.len() ==> T::before(list[i], list[j])
}

proof fn lemma_placed<T: Ranked>(list: Seq<T::V>, x: T::V)
    requires
        in_ranking::<T>(list),
    ensures
        in_ranking::<T>(placed::<T>(list, x)),
        placed::<T>(list, x).to_multiset() == list.to_multiset().insert(x),
        placed::<T>(list, x).len() == list.len() + 1,
        placed::<T>(list, x)[0] == x || (list.len() > 0 && placed::<T>(list, x)[0] == list[0]),
    decreases list.len(),
{
    broadcast use vstd::seq_lib::group_to_multiset_ensures;

    let p = placed::<T>(list, x);
    if list.len() == 0 || T::before(x, list[0]) {
        assert(p =~= list.insert(0, x));
        assert forall|i: int, j: int|
            #![trigger p[i], p[j]]
            0 <= i < j < p.len() implies T::before(p[i], p[j]) by {
            assert(p[j] == list[j - 1]);
            if i > 0 {
                assert(p[i] == list[i - 1]);
            } else if j > 1 {
                assert(T::before(list[0], list[j - 1]));
                T::lemma_transitive(x, list[0], list[j - 1]);
            }
        }
    } else {
        let rest = list.drop_first();
        assert forall|i: int, j: int|
            #![trigger rest[i], rest[j]]
            0 <= i < j < rest.len() implies T::before(rest[i], rest[j]) by {
            assert(rest[i] == list[i + 1] && rest[j] == list[j + 1]);
        }
        lemma_placed::<T>(rest, x);
        let q = placed::<T>(rest, x);
        T::lemma_total(x, list[0]);
        assert(T::before(list[0], x));
        assert forall|k: int| 0 <= k < q.len() implies T::before(list[0], #[trigger] q[k]) by {
            assert(q.to_multiset().count(q[k]) > 0);
            if q[k] != x {
                assert(rest.to_multiset().count(q[k]) > 0);
                assert(rest.contains(q[k]));
                let m = choose|m: int| 0 <= m < rest.len() && rest[m] == q[k];
                assert(list[m + 1] == q[k]);
                assert(T::before(list[0], list[m + 1]));
            }
        }
        assert forall|i: int, j: int|
            #![trigger p[i], p[j]]
            0 <= i < j < p.len() implies T::before(p[i], p[j]) by {
            assert(p[j] == q[j - 1]);
            if i > 0 {
                assert(p[i] == q[i - 1]);
            }
        }
        assert(p =~= q.insert(0, list[0]));
        assert(list =~= rest.insert(0, list[0]));
        assert(p.to_multiset() =~= list.to_multiset().insert(x));
    }
}

/// A ranking is in order and holds exactly the elements of the list.
pub proof fn law_ranking_orders_and_keeps_everything<T: Ranked>(list: Seq<T::V>)
    ensures
        in_ranking::<T>(ranking::<T>(list)),
        ranking::<T>(list).to_multiset() == list.to_multiset(),
        ranking::<T>(list).len() == list.len(),
    decreases list.len(),
{
    broadcast use vstd::seq_lib::group_to_multiset_ensures;

    if list.len() > 0 {
        let rest = list.drop_first();
        law_ranking_orders_and_keeps_everything::<T>(rest);
        lemma_placed::<T>(ranking::<T>(rest), list[0]);
        assert(list =~= rest.insert(0, list[0]));
    } else {
        assert(list =~= Seq::empty());
    }
}

/// Identical results have identical orders: where no two different elements may stand either way,
/// the ranking does not depend on the order in which the elements came.
pub proof fn law_ranking_is_unique<T: Ranked>(a: Seq<T::V>, b: Seq<T::V>)
    requires
        a.to_multiset() == b.to_multiset(),
        forall|x: T::V, y: T::V|
            a.contains(x) && a.contains(y) && #[trigger] T::before(x, y) && #[trigger] T::before(y, x)
                ==> x == y,
    ensures
        ranking::<T>(a) == ranking::<T>(b),
{
    broadcast use vstd::seq_lib::group_to_multiset_ensures;

    law_ranking_orders_and_keeps_everything::<T>(a);
    law_ranking_orders_and_keeps_everything::<T>(b);
    let ra = ranking::<T>(a);
    assert forall|x: T::V, y: T::V|
        ra.contains(x) && ra.contains(y) && #[trigger] T::before(x, y) && #[trigger] T::before(
            y,
            x,
        ) implies x == y by {
        assert(a.to_multiset().count(x) > 0);
        assert(a.to_multiset().count(y) > 0);
        assert(a.contains(x) && a.contains(y));
    }
    lemma_unique::<T>(ra, ranking::<T>(b));
}

proof fn lemma_unique<T: Ranked>(x: Seq<T::V>, y: Seq<T::V>)
    requires
        in_ranking::<T>(x),
        in_ranking::<T>(y),
        x.to_multiset() == y.to_multiset(),
        forall|p: T::V, q: T::V|
            x.contains(p) && x.contains(q) && #[trigger] T::before(p, q) && #[trigger] T::before(q, p)
                ==> p == q,
    ensures
        x == y,
    decreases x.len(),
{
    broadcast use vstd::seq_lib::group_to_multiset_ensures;

    assert(x.len() == x.to_multiset().len());
    assert(y.len() == y.to_multiset().len());
    if x.len() == 0 {
        assert(x =~= y);
    } else {
        assert(x.to_multiset().count(x[0]) > 0);
        assert(y.to_multiset().count(y[0]) > 0);
        assert(y.contains(x[0]));
        assert(x.contains(y[0]));
        let i = choose|i: int| 0 <= i < x.len() && x[i] == y[0];
        let j = choose|j: int| 0 <= j < y.len() && y[j] == x[0];
        if i > 0 && j > 0 {
            assert(T::before(x[0], x[i]));
            assert(T::before(y[0], y[j]));
        }
        assert(x[0] == y[0]);
        let (p, q) = (x.drop_first(), y.drop_first());
        assert(x =~= p.insert(0, x[0]));
        assert(y =~= q.insert(0, y[0]));
        assert(p =~= x.remove(0));
        assert(q =~= y.remove(0));
        assert forall|i: int, j: int|
            #![trigger p[i], p[j]]
            0 <= i < j < p.len() implies T::before(p[i], p[j]) by {
            assert(p[i] == x[i + 1] && p[j] == x[j + 1]);
        }
        assert forall|i: int, j: int|
            #![trigger q[i], q[j]]
            0 <= i < j < q.len() implies T::before(q[i], q[j]) by {
            assert(q[i] == y[i + 1] && q[j] == y[j + 1]);
        }
        assert forall|a: T::V, b: T::V|
            p.contains(a) && p.contains(b) && #[trigger] T::before(a, b) && #[trigger] T::before(
                b,
                a,
            ) implies a == b by {
            let k = choose|k: int| 0 <= k < p.len() && p[k] == a;
            let m = choose|m: int| 0 <= m < p.len() && p[m] == b;
            assert(x[k + 1] == a && x[m + 1] == b);
        }
        lemma_unique::<T>(p, q);
    }
}

fn place<T: Ranked>(list: &mut Vec<T>, x: T)
    ensures
        all_views(final(list)@) == placed::<T>(all_views(old(list)@), x@),
{
    let ghost before = all_views(list@);
    let mut i: usize = 0;
    proof {
        assert(before.skip(0) =~= before);
        assert(before.take(0) + placed::<T>(before, x@) =~= placed::<T>(before, x@));
    }
    while i < list.len() && !x.goes_before(&list[i])
        invariant
            i <= list@.len(),
            before == all_views(list@),
            list == old(list),
            before.take(i as int) + placed::<T>(before.skip(i as int), x@) == placed::<T>(
                before,
                x@,
            ),
        decreases list@.len() - i,
    {
        proof {
            let rest = before.skip(i as int);
            assert(rest[0] == list@[i as int]@);
            assert(rest.drop_first() =~= before.skip(i + 1));
            let tail = placed::<T>(before.skip(i + 1), x@);
            assert(before.take(i as int) + (seq![rest[0]] + tail) =~= before.take(i + 1) + tail);
        }
        i += 1;
    }
    proof {
        let rest = before.skip(i as int);
        if i < list@.len() {
            assert(rest[0] == list@[i as int]@);
        }
        assert(all_views(list@.insert(i as int, x)) =~= before.take(i as int) + (seq![x@] + rest));
    }
    list.insert(i, x);
}

/// Ranks a list.
pub fn rank<T: Ranked>(list: Vec<T>) -> (r: Vec<T>)
    ensures
        all_views(r@) == ranking::<T>(all_views(list@)),
{
    let ghost all = all_views(list@);
    let mut rest = list;
    let mut out: Vec<T> = Vec::new();
    proof {
        assert(all_views(out@) =~= Seq::empty());
        assert(all.skip(all.len() as int) =~= Seq::empty());
    }
    while rest.len() > 0
        invariant
            rest@.len() <= list@.len(),
            rest@ == list@.take(rest@.len() as int),
            all == all_views(list@),
            all_views(out@) == ranking::<T>(all.skip(rest@.len() as int)),
        decreases rest@.len(),
    {
        let ghost n = rest@.len() as int;
        let last = rest.pop();
        match last {
            Some(x) => {
                proof {
                    assert(x == list@[n - 1]);
                    assert(rest@ =~= list@.take(n - 1));
                    assert(all.skip(n - 1)[0] == x@);
                    assert(all.skip(n - 1).drop_first() =~= all.skip(n));
                }
                place(&mut out, x);
            },
            None => {},
        }
    }
    proof {
        assert(all.skip(0) =~= all);
    }
    out
}

/// The first `n` of a list, or all of a shorter one.
pub open spec fn top<A>(list: Seq<A>, n: nat) -> Seq<A> {
    if list.len() <= n {
        list
    } else {
        list.take(n as int)
    }
}

/// A result with its score.
#[derive(Debug)]
pub struct Scored {
    pub id: String,
    pub score: Measure,
    pub created_at: Timestamp,
}

/// A result with its score, as seen in contracts.
#[verifier::ext_equal]
pub struct ScoredView {
    pub id: Seq<char>,
    pub score: Measure,
    pub created_at: Timestamp,
}

impl View for Scored {
    type V = ScoredView;

    open spec fn view(&self) -> ScoredView {
        ScoredView { id: self.id@, score: self.score, created_at: self.created_at }
    }
}

/// The order of results: score descending, then creation descending, then identifier.
pub open spec fn result_before(
    a_score: Measure,
    a_created: Timestamp,
    a_id: Seq<char>,
    b_score: Measure,
    b_created: Timestamp,
    b_id: Seq<char>,
) -> bool {
    ||| a_score.rank() > b_score.rank()
    ||| a_score.rank() == b_score.rank() && a_created.after(b_created)
    ||| a_score.rank() == b_score.rank() && a_created == b_created && dictionary_le(a_id, b_id)
}

/// Whether one result may stand before another.
pub fn result_goes_before(
    a_score: Measure,
    a_created: Timestamp,
    a_id: &str,
    b_score: Measure,
    b_created: Timestamp,
    b_id: &str,
) -> (r: bool)
    ensures
        r == result_before(a_score, a_created, a_id@, b_score, b_created, b_id@),
{
    let (x, y): (i64, i64) = (a_score.position(), b_score.position());
    if x != y {
        x > y
    } else if a_created != b_created {
        a_created.is_after(b_created)
    } else {
        in_order(a_id, b_id)
    }
}

impl Ranked for Scored {
    open spec fn before(a: ScoredView, b: ScoredView) -> bool {
        result_before(a.score, a.created_at, a.id, b.score, b.created_at, b.id)
    }

    proof fn lemma_total(a: ScoredView, b: ScoredView) {
        lemma_dictionary_total(a.id, b.id);
    }

    proof fn lemma_transitive(a: ScoredView, b: ScoredView, c: ScoredView) {
        if dictionary_le(a.id, b.id) && dictionary_le(b.id, c.id) {
            lemma_dictionary_transitive(a.id, b.id, c.id);
        }
    }

    fn goes_before(&self, other: &Self) -> (r: bool) {
        result_goes_before(
            self.score,
            self.created_at,
            self.id.as_str(),
            other.score,
            other.created_at,
            other.id.as_str(),
        )
    }
}

/// Results with different identifiers have one order only: their ranking does not depend on the
/// order in which they came.
pub proof fn law_identical_searches_rank_identically(a: Seq<ScoredView>, b: Seq<ScoredView>)
    requires
        a.to_multiset() == b.to_multiset(),
        forall|i: int, j: int|
            #![trigger a[i], a[j]]
            0 <= i < j < a.len() ==> a[i].id != a[j].id,
    ensures
        ranking::<Scored>(a) == ranking::<Scored>(b),
{
    assert forall|x: ScoredView, y: ScoredView|
        a.contains(x) && a.contains(y) && #[trigger] Scored::before(x, y)
            && #[trigger] Scored::before(y, x) implies x == y by {
        lemma_dictionary_total(x.id, y.id);
        let i = choose|i: int| 0 <= i < a.len() && a[i] == x;
        let j = choose|j: int| 0 <= j < a.len() && a[j] == y;
        if i < j {
            assert(a[i].id != a[j].id);
        } else if j < i {
            assert(a[j].id != a[i].id);
        }
    }
    law_ranking_is_unique::<Scored>(a, b);
}

/// The best of a list: an element of the list is among the first `n` of its ranking, unless that
/// many others are and each of them may stand before it.
pub proof fn law_best_ones_are_shown<T: Ranked>(list: Seq<T::V>, n: nat, x: T::V)
    requires
        list.contains(x),
    ensures
        ({
            let shown = top(ranking::<T>(list), n);
            ||| shown.contains(x)
            ||| shown.len() == n && forall|i: int|
                0 <= i < shown.len() ==> T::before(#[trigger] shown[i], x)
        }),
{
    broadcast use vstd::seq_lib::group_to_multiset_ensures;

    law_ranking_orders_and_keeps_everything::<T>(list);
    let ranked = ranking::<T>(list);
    let shown = top(ranked, n);
    assert(list.to_multiset().count(x) > 0);
    assert(ranked.to_multiset().count(x) > 0);
    assert(ranked.contains(x));
    let m = choose|m: int| 0 <= m < ranked.len() && ranked[m] == x;
    if m < shown.len() {
        assert(shown[m] == x);
    } else {
        assert forall|i: int| 0 <= i < shown.len() implies T::before(#[trigger] shown[i], x) by {
            assert(shown[i] == ranked[i]);
            assert(T::before(ranked[i], ranked[m]));
        }
    }
}

/// What is shown of a list is part of it, in order, and as much as there is, up to `n`.
pub proof fn law_shown_ones_are_in_order<T: Ranked>(list: Seq<T::V>, n: nat)
    ensures
        ({
            let shown = top(ranking::<T>(list), n);
            &&& shown.len() == if list.len() <= n {
                list.len()
            } else {
                n
            }
            &&& forall|i: int| 0 <= i < shown.len() ==> list.contains(#[trigger] shown[i])
            &&& forall|i: int, j: int|
                #![trigger shown[i], shown[j]]
                0 <= i < j < shown.len() ==> T::before(shown[i], shown[j])
        }),
{
    broadcast use vstd::seq_lib::group_to_multiset_ensures;

    law_ranking_orders_and_keeps_everything::<T>(list);
    let ranked = ranking::<T>(list);
    let shown = top(ranked, n);
    assert forall|i: int| 0 <= i < shown.len() implies list.contains(#[trigger] shown[i]) by {
        assert(shown[i] == ranked[i]);
        assert(ranked.contains(ranked[i]));
        assert(ranked.to_multiset().count(ranked[i]) > 0);
        assert(list.to_multiset().count(ranked[i]) > 0);
    }
    assert forall|i: int, j: int|
        #![trigger shown[i], shown[j]]
        0 <= i < j < shown.len() implies T::before(shown[i], shown[j]) by {
        assert(shown[i] == ranked[i] && shown[j] == ranked[j]);
    }
}

/// What is said of a list is said of each of its items, in their order.
pub proof fn law_items_are_seen_as_they_are<T: View>(v: Seq<T>)
    ensures
        all_views(v).len() == v.len(),
        forall|i: int| 0 <= i < v.len() ==> #[trigger] all_views(v)[i] == v[i]@,
{
}

} // verus!
